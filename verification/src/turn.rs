//! The turn orchestrator: labor aggregation, task advancement, hunger,
//! and food consumption, run in that order once per turn.

use vstd::prelude::*;

use crate::base::{TaskStatus, Tier};
use crate::people::Profession;
use crate::production::{tier2comrad_buildpower, spec_tier_buildpower, BuildPower, Stationary};
use crate::world::{
    count_people, lemma_meas_sum_take_le, lemma_meas_sum_take_step, meas_sum, meas_val, wf,
    Components, Meas, World, MAX_ENT,
};

verus! {

/// Index of a profession in the labor pool table.
pub open spec fn pidx(p: Profession) -> int {
    match p {
        Profession::NoProf => 0,
        Profession::Stalker => 1,
        Profession::Likvidator => 2,
        Profession::Scientist => 3,
        Profession::Worker => 4,
        Profession::Party => 5,
    }
}

/// Index of a tier in the labor pool table.
pub open spec fn tidx(t: Tier) -> int {
    match t {
        Tier::NoTier => 0,
        Tier::T1 => 1,
        Tier::T2 => 2,
        Tier::T3 => 3,
    }
}

/// Index of a profession and tier pairing in the labor pool table.
pub open spec fn pt(p: Profession, t: Tier) -> int {
    pidx(p) * 4 + tidx(t)
}

/// The per-turn pool of available labor, by profession and tier. It is
/// rebuilt from the living population at the start of every turn; unspent
/// labor does not carry over.
pub struct BuildPowerPool {
    cells: Vec<usize>,
}

impl View for BuildPowerPool {
    type V = Seq<usize>;

    closed spec fn view(&self) -> Seq<usize> {
        self.cells@
    }
}

/// Labor the pool holds for a profession and tier.
pub open spec fn pool_at(v: Seq<usize>, p: Profession, t: Tier) -> int {
    v[pt(p, t)] as int
}

impl BuildPowerPool {
    /// A pool with a cell for every profession and tier, all empty.
    pub fn new() -> (r: BuildPowerPool)
        ensures
            r@.len() == 24,
            forall|k: int| 0 <= k < 24 ==> r@[k] == 0,
    {
        let mut cells: Vec<usize> = Vec::new();
        let mut i: usize = 0;
        while i < 24
            invariant
                i <= 24,
                cells@.len() == i,
                forall|k: int| 0 <= k < i ==> cells@[k] == 0,
            decreases 24 - i,
        {
            cells.push(0);
            i = i + 1;
        }
        BuildPowerPool { cells }
    }

    /// Labor available for the given profession and tier.
    pub fn get(&self, p: Profession, t: Tier) -> (r: BuildPower)
        requires
            self@.len() == 24,
        ensures
            r.0 == pool_at(self@, p, t),
    {
        let idx = pt_index(p, t);
        BuildPower(self.cells[idx])
    }

    /// Pay labor into the cell of the given profession and tier.
    pub fn add(&mut self, p: Profession, t: Tier, v: BuildPower)
        requires
            old(self)@.len() == 24,
            pool_at(old(self)@, p, t) + v.0 <= usize::MAX,
        ensures
            final(self)@ == old(self)@.update(pt(p, t), (pool_at(old(self)@, p, t) + v.0) as usize),
    {
        let idx = pt_index(p, t);
        let cur = self.cells[idx];
        let slot = &mut self.cells[idx];
        *slot = cur + v.0;
    }

    /// Draw labor from the cell of the given profession and tier.
    pub fn sub(&mut self, p: Profession, t: Tier, v: BuildPower)
        requires
            old(self)@.len() == 24,
            v.0 <= pool_at(old(self)@, p, t),
        ensures
            final(self)@ == old(self)@.update(pt(p, t), (pool_at(old(self)@, p, t) - v.0) as usize),
    {
        let idx = pt_index(p, t);
        let cur = self.cells[idx];
        let slot = &mut self.cells[idx];
        *slot = cur - v.0;
    }
}

/// Table index of a profession and tier pairing.
fn pt_index(p: Profession, t: Tier) -> (r: usize)
    ensures
        r == pt(p, t),
        r < 24,
{
    let pi: usize = match p {
        Profession::NoProf => 0,
        Profession::Stalker => 1,
        Profession::Likvidator => 2,
        Profession::Scientist => 3,
        Profession::Worker => 4,
        Profession::Party => 5,
    };
    let ti: usize = match t {
        Tier::NoTier => 0,
        Tier::T1 => 1,
        Tier::T2 => 2,
        Tier::T3 => 3,
    };
    pi * 4 + ti
}

/// Build the turn's labor pool from the living population: every colonist
/// contributes their tier's labor to the cell of their profession and
/// tier. The pool starts from zero; nothing carries over from past turns.
pub fn calc_buildpower(world: &World) -> (r: BuildPowerPool)
    requires
        wf(world@),
    ensures
        r@.len() == 24,
        forall|p: Profession, t: Tier|
            #[trigger] pool_at(r@, p, t) == count_people(world@, p, t) * spec_tier_buildpower(t),
{
    let n = world.num_slots();
    let mut pool = BuildPowerPool::new();
    let mut i: usize = 0;
    proof {
        assert forall|p: Profession, t: Tier| #[trigger]
            pool_at(pool@, p, t) == meas_sum(world@.take(0), Meas::People(p, t))
                * spec_tier_buildpower(t) by {
            assert(world@.take(0) =~= Seq::<Option<Components>>::empty());
            assert(meas_sum(world@.take(0), Meas::People(p, t)) == 0);
        }
    }
    while i < n
        invariant
            wf(world@),
            n == world@.len(),
            i <= n,
            pool@.len() == 24,
            forall|p: Profession, t: Tier|
                #[trigger] pool_at(pool@, p, t) == meas_sum(world@.take(i as int), Meas::People(p, t))
                    * spec_tier_buildpower(t),
        decreases n - i,
    {
        let ghost pool0 = pool@;
        let mut is_colonist = false;
        let mut cp = Profession::NoProf;
        let mut ct = Tier::T1;
        match world.slot(i) {
            Some(c) => match (&c.profession, &c.tier) {
                (Some(p), Some(t)) => {
                    is_colonist = true;
                    cp = *p;
                    ct = *t;
                },
                _ => {},
            },
            None => {},
        }
        if is_colonist {
            proof {
                assert(crate::world::slot_ok(world@[i as int]));
                count_bound(world@, cp, ct, i as int);
                assert(spec_tier_buildpower(ct) <= 40);
                assert(pool_at(pool@, cp, ct) + spec_tier_buildpower(ct) <= usize::MAX)
                    by (nonlinear_arith)
                    requires
                        pool_at(pool@, cp, ct) == meas_sum(
                            world@.take(i as int),
                            Meas::People(cp, ct),
                        ) * spec_tier_buildpower(ct),
                        0 <= meas_sum(world@.take(i as int), Meas::People(cp, ct)) <= MAX_ENT,
                        spec_tier_buildpower(ct) <= 40,
                        usize::MAX >= 0xffff_ffff,
                ;
            }
            let bp = tier2comrad_buildpower(ct);
            pool.add(cp, ct, bp);
        }
        proof {
            assert forall|p: Profession, t: Tier| #[trigger]
                pool_at(pool@, p, t) == meas_sum(world@.take(i as int + 1), Meas::People(p, t))
                    * spec_tier_buildpower(t) by {
                lemma_meas_sum_take_step(world@, Meas::People(p, t), i as int);
                let c0 = meas_sum(world@.take(i as int), Meas::People(p, t));
                let v = meas_val(Meas::People(p, t), world@[i as int]);
                assert(pool_at(pool0, p, t) == c0 * spec_tier_buildpower(t));
                assert((c0 + v) * spec_tier_buildpower(t) == c0 * spec_tier_buildpower(t) + v
                    * spec_tier_buildpower(t)) by (nonlinear_arith);
                if is_colonist {
                    assert(0 <= tidx(t) && tidx(t) <= 3 && 0 <= tidx(ct) && tidx(ct) <= 3);
                    if p == cp && t == ct {
                        assert(v == 1);
                        assert(pool_at(pool@, p, t) == pool_at(pool0, p, t)
                            + spec_tier_buildpower(ct));
                    } else {
                        assert(v == 0);
                        assert(pt(p, t) != pt(cp, ct));
                        assert(pool_at(pool@, p, t) == pool_at(pool0, p, t));
                    }
                } else {
                    assert(v == 0);
                    assert(pool_at(pool@, p, t) == pool_at(pool0, p, t));
                }
            }
        }
        i = i + 1;
    }
    proof {
        assert(world@.take(n as int) =~= world@);
    }
    pool
}

/// Index of a stationary kind in the equipment capacity table.
pub open spec fn sidx(st: Stationary) -> int {
    match st {
        Stationary::NoTool => 0,
        Stationary::BenchToolT1 => 1,
        Stationary::BenchToolT2 => 2,
        Stationary::BenchToolT3 => 3,
        Stationary::FormatFurnace => 4,
        Stationary::LabT1 => 5,
        Stationary::LabT2 => 6,
        Stationary::LabT3 => 7,
        Stationary::Barrel => 8,
        Stationary::NeuroTerminal => 9,
    }
}

/// The stationary kind at an index of the capacity table.
pub open spec fn st_of(k: int) -> Stationary {
    if k == 1 {
        Stationary::BenchToolT1
    } else if k == 2 {
        Stationary::BenchToolT2
    } else if k == 3 {
        Stationary::BenchToolT3
    } else if k == 4 {
        Stationary::FormatFurnace
    } else if k == 5 {
        Stationary::LabT1
    } else if k == 6 {
        Stationary::LabT2
    } else if k == 7 {
        Stationary::LabT3
    } else if k == 8 {
        Stationary::Barrel
    } else if k == 9 {
        Stationary::NeuroTerminal
    } else {
        Stationary::NoTool
    }
}

/// Table index of a stationary kind.
fn st_index(st: Stationary) -> (r: usize)
    ensures
        r == sidx(st),
        r < 10,
{
    match st {
        Stationary::NoTool => 0,
        Stationary::BenchToolT1 => 1,
        Stationary::BenchToolT2 => 2,
        Stationary::BenchToolT3 => 3,
        Stationary::FormatFurnace => 4,
        Stationary::LabT1 => 5,
        Stationary::LabT2 => 6,
        Stationary::LabT3 => 7,
        Stationary::Barrel => 8,
        Stationary::NeuroTerminal => 9,
    }
}

/// The per-turn labor capacity of the ready equipment, by kind. Work
/// needing no tool is never capacity-bound, so the table keeps no cell
/// for it.
pub open spec fn spec_caps0(s: Seq<Option<Components>>) -> Seq<usize> {
    Seq::new(
        10,
        |k: int|
            if k == 0 {
                0usize
            } else {
                meas_sum(s, Meas::Cap(st_of(k))) as usize
            },
    )
}

/// Labor one obligation can absorb right now: no more than its remaining
/// need, than the labor pool of its profession and tier holds, nor —
/// when a tool is involved — than the tool capacity left.
pub open spec fn spec_ob_take(
    ob: (Profession, Tier, Stationary, BuildPower),
    pool: Seq<usize>,
    caps: Seq<usize>,
) -> int {
    let avail = vstd::math::min(pool[pt(ob.0, ob.1)] as int, ob.3.0 as int);
    if ob.2 == Stationary::NoTool {
        avail
    } else {
        vstd::math::min(caps[sidx(ob.2)] as int, avail)
    }
}

/// Run the obligations of one task from position `j` on, draining the
/// labor pool and the equipment capacities. Yields the remaining
/// obligations, the drained pool and capacities, and the labor invested.
pub open spec fn spec_obs_run(
    obs: Seq<(Profession, Tier, Stationary, BuildPower)>,
    pool: Seq<usize>,
    caps: Seq<usize>,
    j: int,
) -> (Seq<(Profession, Tier, Stationary, BuildPower)>, Seq<usize>, Seq<usize>, int)
    decreases obs.len() - j,
{
    if !(0 <= j < obs.len()) {
        (obs, pool, caps, 0)
    } else {
        let ob = obs[j];
        let d = spec_ob_take(ob, pool, caps);
        let obs2 = obs.update(j, (ob.0, ob.1, ob.2, BuildPower((ob.3.0 - d) as usize)));
        let pool2 = pool.update(pt(ob.0, ob.1), (pool[pt(ob.0, ob.1)] - d) as usize);
        let caps2 = if ob.2 == Stationary::NoTool {
            caps
        } else {
            caps.update(sidx(ob.2), (caps[sidx(ob.2)] - d) as usize)
        };
        let r = spec_obs_run(obs2, pool2, caps2, j + 1);
        (r.0, r.1, r.2, d + r.3)
    }
}

/// The slot holds a construction task.
pub open spec fn is_task(oc: Option<Components>) -> bool {
    oc is Some && oc->0.status is Some && oc->0.progress is Some
}

/// The pool and capacity state after the engine has visited the first
/// `i` slots.
pub open spec fn spec_engine(
    s: Seq<Option<Components>>,
    pool: Seq<usize>,
    caps: Seq<usize>,
    i: int,
) -> (Seq<usize>, Seq<usize>)
    decreases i,
{
    if i <= 0 {
        (pool, caps)
    } else {
        let st8 = spec_engine(s, pool, caps, i - 1);
        if is_task(s[i - 1]) {
            let r = spec_obs_run(s[i - 1]->0.progress->0.who_should_finish@, st8.0, st8.1, 0);
            (r.1, r.2)
        } else {
            st8
        }
    }
}

/// Two component bags that agree on everything but a task's status and
/// progress.
pub open spec fn same_but_task(a: Components, b: Components) -> bool {
    &&& a.area_type == b.area_type
    &&& a.capacity == b.capacity
    &&& a.occupied == b.occupied
    &&& a.room == b.room
    &&& a.priority == b.priority
    &&& a.germ == b.germ
    &&& a.stationary == b.stationary
    &&& a.resource == b.resource
    &&& a.profession == b.profession
    &&& a.tier == b.tier
    &&& a.satiety == b.satiety
    &&& a.mood == b.mood
}

proof fn lemma_obligations_total_update(
    l: Seq<(Profession, Tier, Stationary, BuildPower)>,
    j: int,
    x: (Profession, Tier, Stationary, BuildPower),
)
    requires
        0 <= j < l.len(),
    ensures
        crate::production::obligations_total(l.update(j, x)) == crate::production::obligations_total(
            l,
        ) - l[j].3.0 + x.3.0,
    decreases l.len(),
{
    if j == l.len() - 1 {
        assert(l.update(j, x).drop_last() =~= l.drop_last());
        assert(l.update(j, x).last() == x);
    } else {
        lemma_obligations_total_update(l.drop_last(), j, x);
        assert(l.update(j, x).drop_last() =~= l.drop_last().update(j, x));
        assert(l.update(j, x).last() == l.last());
    }
}

proof fn lemma_obligations_total_nonneg(l: Seq<(Profession, Tier, Stationary, BuildPower)>)
    ensures
        crate::production::obligations_total(l) >= 0,
    decreases l.len(),
{
    if l.len() > 0 {
        lemma_obligations_total_nonneg(l.drop_last());
    }
}

/// Running obligations keeps the list's shape, never un-invests labor,
/// and drains the open obligations by exactly the labor invested.
proof fn lemma_obs_run_bounds(
    obs: Seq<(Profession, Tier, Stationary, BuildPower)>,
    pool: Seq<usize>,
    caps: Seq<usize>,
    j: int,
)
    requires
        pool.len() == 24,
        caps.len() == 10,
    ensures
        ({
            let r = spec_obs_run(obs, pool, caps, j);
            &&& r.0.len() == obs.len()
            &&& r.1.len() == pool.len()
            &&& r.2.len() == caps.len()
            &&& r.3 >= 0
            &&& crate::production::obligations_total(r.0) == crate::production::obligations_total(
                obs,
            ) - r.3
        }),
    decreases obs.len() - j,
{
    if !(0 <= j < obs.len()) {
    } else {
        let ob = obs[j];
        let d = spec_ob_take(ob, pool, caps);
        let obs2 = obs.update(j, (ob.0, ob.1, ob.2, BuildPower((ob.3.0 - d) as usize)));
        let pool2 = pool.update(pt(ob.0, ob.1), (pool[pt(ob.0, ob.1)] - d) as usize);
        let caps2 = if ob.2 == Stationary::NoTool {
            caps
        } else {
            caps.update(sidx(ob.2), (caps[sidx(ob.2)] - d) as usize)
        };
        lemma_obs_run_bounds(obs2, pool2, caps2, j + 1);
        lemma_obligations_total_update(obs, j, (ob.0, ob.1, ob.2, BuildPower((ob.3.0 - d) as usize)));
        assert(d >= 0);
        assert(d <= ob.3.0);
    }
}

/// Advance every construction task, in slot order, under this turn's
/// labor pool and the capacity of the ready equipment. Each obligation
/// absorbs the least of its remaining need, the matching labor pool cell,
/// and — when it needs a tool — the remaining capacity of that tool kind;
/// what it absorbs is drained from all three and added to the task's
/// invested labor. A task whose investment reaches its requirement turns
/// `Ready` and sheds its progress record. Equipment that completes during
/// the pass contributes no capacity until the next turn.
pub fn process_tasks(world: &mut World, pool: &mut BuildPowerPool)
    requires
        wf(old(world)@),
        old(pool)@.len() == 24,
    ensures
        wf(final(world)@),
        final(world)@.len() == old(world)@.len(),
        final(pool)@ == spec_engine(
            old(world)@,
            old(pool)@,
            spec_caps0(old(world)@),
            old(world)@.len() as int,
        ).0,
        forall|i: int|
            0 <= i < old(world)@.len() && !is_task(old(world)@[i]) ==> final(world)@[i] == old(
                world,
            )@[i],
        forall|i: int|
            0 <= i < old(world)@.len() && is_task(#[trigger] old(world)@[i]) ==> {
                let st8 = spec_engine(old(world)@, old(pool)@, spec_caps0(old(world)@), i);
                let p = old(world)@[i]->0.progress->0;
                let r = spec_obs_run(p.who_should_finish@, st8.0, st8.1, 0);
                let inv2 = p.bp_invested.0 + r.3;
                &&& final(world)@[i] is Some
                &&& same_but_task(final(world)@[i]->0, old(world)@[i]->0)
                &&& (inv2 >= p.bp_required.0 ==> final(world)@[i]->0.status == Some(
                    TaskStatus::Ready,
                ) && final(world)@[i]->0.progress is None)
                &&& (inv2 < p.bp_required.0 ==> final(world)@[i]->0.status
                    == old(world)@[i]->0.status && final(world)@[i]->0.progress is Some && {
                    let p2 = final(world)@[i]->0.progress->0;
                    &&& p2.bp_required == p.bp_required
                    &&& p2.bp_invested.0 == inv2
                    &&& p2.who_should_finish@ == r.0
                })
            },
{
    let ghost s0 = old(world)@;
    let ghost pool0 = pool@;
    let n = world.num_slots();

    // capacity of the ready equipment, by kind
    let mut caps: Vec<usize> = Vec::new();
    let mut k: usize = 0;
    while k < 10
        invariant
            k <= 10,
            caps@.len() == k,
            forall|q: int| 0 <= q < k ==> caps@[q] == 0,
        decreases 10 - k,
    {
        caps.push(0);
        k = k + 1;
    }
    let mut i: usize = 0;
    proof {
        assert forall|q: int| 1 <= q < 10 implies caps@[q] == meas_sum(
            world@.take(0),
            Meas::Cap(st_of(q)),
        ) by {
            assert(world@.take(0) =~= Seq::<Option<Components>>::empty());
        }
    }
    while i < n
        invariant
            wf(world@),
            world@ == s0,
            n == s0.len(),
            i <= n,
            caps@.len() == 10,
            caps@[0] == 0,
            forall|q: int|
                1 <= q < 10 ==> caps@[q] == meas_sum(world@.take(i as int), Meas::Cap(st_of(q)))
                    && caps@[q] <= 40 * i,
        decreases n - i,
    {
        let ghost caps_pre = caps@;
        let mut add_for: Option<Stationary> = None;
        match world.slot(i) {
            Some(c) => match (&c.stationary, &c.status) {
                (Some(st), Some(ts)) => {
                    if !matches!(*st, Stationary::NoTool) && *ts == TaskStatus::Ready {
                        add_for = Some(*st);
                    }
                },
                _ => {},
            },
            None => {},
        }
        match add_for {
            Some(st) => {
                let ci = st_index(st);
                let bp = crate::production::stationary_build_power(st);
                proof {
                    assert(crate::production::spec_stationary_build_power(st) <= 40);
                }
                let cur = caps[ci];
                let cell = &mut caps[ci];
                *cell = cur + bp.0;
            },
            None => {},
        }
        proof {
            assert forall|q: int|
                1 <= q < 10 implies caps@[q] == meas_sum(
                world@.take(i as int + 1),
                Meas::Cap(st_of(q)),
            ) && caps@[q] <= 40 * (i + 1) by {
                lemma_meas_sum_take_step(world@, Meas::Cap(st_of(q)), i as int);
                let v = meas_val(Meas::Cap(st_of(q)), world@[i as int]);
                match add_for {
                    Some(st) => {
                        if sidx(st) == q {
                            assert(st_of(q) == st);
                            assert(v == crate::production::spec_stationary_build_power(st));
                            assert(caps@[q] == caps_pre[q] + v);
                        } else {
                            assert(st_of(q) != st);
                            assert(v == 0);
                            assert(caps@[q] == caps_pre[q]);
                        }
                    },
                    None => {
                        assert(v == 0);
                        assert(caps@ == caps_pre);
                    },
                }
            }
        }
        i = i + 1;
    }
    proof {
        assert(world@.take(n as int) =~= world@);
        assert(caps@ =~= spec_caps0(s0));
    }

    // advance every task under the pool and the capacities
    let ghost caps0 = spec_caps0(s0);
    let mut i2: usize = 0;
    while i2 < n
        invariant
            wf(world@),
            n == s0.len(),
            world@.len() == n,
            i2 <= n,
            pool@.len() == 24,
            caps@.len() == 10,
            (pool@, caps@) == spec_engine(s0, pool0, caps0, i2 as int),
            forall|j: int| i2 <= j < n ==> world@[j] == s0[j],
            forall|j: int|
                0 <= j < i2 && !is_task(s0[j]) ==> world@[j] == s0[j],
            forall|j: int|
                0 <= j < i2 && is_task(#[trigger] s0[j]) ==> {
                    let st8 = spec_engine(s0, pool0, caps0, j);
                    let p = s0[j]->0.progress->0;
                    let r = spec_obs_run(p.who_should_finish@, st8.0, st8.1, 0);
                    let inv2 = p.bp_invested.0 + r.3;
                    &&& world@[j] is Some
                    &&& same_but_task(world@[j]->0, s0[j]->0)
                    &&& (inv2 >= p.bp_required.0 ==> world@[j]->0.status == Some(TaskStatus::Ready)
                        && world@[j]->0.progress is None)
                    &&& (inv2 < p.bp_required.0 ==> world@[j]->0.status == s0[j]->0.status
                        && world@[j]->0.progress is Some && {
                        let p2 = world@[j]->0.progress->0;
                        &&& p2.bp_required == p.bp_required
                        &&& p2.bp_invested.0 == inv2
                        &&& p2.who_should_finish@ == r.0
                    })
                },
        decreases n - i2,
    {
        let ghost s_cur = world@;
        let ghost pool_in = pool@;
        let ghost caps_in = caps@;
        let mut task_data: Option<(BuildPower, BuildPower)> = None;
        let mut obs: Vec<(Profession, Tier, Stationary, BuildPower)> = Vec::new();
        match world.slot(i2) {
            Some(c) => match (&c.status, &c.progress) {
                (Some(_), Some(p)) => {
                    task_data = Some((p.bp_required, p.bp_invested));
                    obs = crate::production::copy_obligations(&p.who_should_finish);
                },
                _ => {},
            },
            None => {},
        }
        match task_data {
            Some((required, invested)) => {
                proof {
                    assert(is_task(s0[i2 as int]));
                    assert(crate::world::slot_ok(s0[i2 as int]));
                    assert(crate::world::progress_ok(s0[i2 as int]->0.progress->0));
                }
                let ghost obs0 = obs@;
                let ghost run = spec_obs_run(obs0, pool_in, caps_in, 0);
                proof {
                    lemma_obs_run_bounds(obs0, pool_in, caps_in, 0);
                    lemma_obligations_total_nonneg(run.0);
                    lemma_obligations_total_nonneg(obs0);
                }
                let mut delta: usize = 0;
                let mut j: usize = 0;
                while j < obs.len()
                    invariant
                        j <= obs@.len(),
                        obs@.len() == obs0.len(),
                        pool@.len() == 24,
                        caps@.len() == 10,
                        run == spec_obs_run(obs0, pool_in, caps_in, 0),
                        spec_obs_run(obs@, pool@, caps@, j as int) == (run.0, run.1, run.2, run.3
                            - delta),
                        delta <= run.3,
                        invested.0 + run.3 <= required.0,
                    decreases obs@.len() - j,
                {
                    let ghost obs_pre = obs@;
                    let ghost pool_pre = pool@;
                    let ghost caps_pre = caps@;
                    let ob = obs[j];
                    let pool_avail = pool.get(ob.0, ob.1);
                    let mut d: usize = if pool_avail.0 < ob.3.0 {
                        pool_avail.0
                    } else {
                        ob.3.0
                    };
                    if !matches!(ob.2, Stationary::NoTool) {
                        let ci = st_index(ob.2);
                        let ca = caps[ci];
                        if ca < d {
                            d = ca;
                        }
                    }
                    proof {
                        assert(d == spec_ob_take(ob, pool_pre, caps_pre));
                        assert(spec_obs_run(obs_pre, pool_pre, caps_pre, j as int) == ({
                            let obs2 = obs_pre.update(
                                j as int,
                                (ob.0, ob.1, ob.2, BuildPower((ob.3.0 - d) as usize)),
                            );
                            let pool2 = pool_pre.update(
                                pt(ob.0, ob.1),
                                (pool_pre[pt(ob.0, ob.1)] - d) as usize,
                            );
                            let caps2 = if ob.2 == Stationary::NoTool {
                                caps_pre
                            } else {
                                caps_pre.update(sidx(ob.2), (caps_pre[sidx(ob.2)] - d) as usize)
                            };
                            let r = spec_obs_run(obs2, pool2, caps2, j as int + 1);
                            (r.0, r.1, r.2, d + r.3)
                        }));
                        lemma_obs_run_bounds(
                            obs_pre.update(
                                j as int,
                                (ob.0, ob.1, ob.2, BuildPower((ob.3.0 - d) as usize)),
                            ),
                            pool_pre.update(
                                pt(ob.0, ob.1),
                                (pool_pre[pt(ob.0, ob.1)] - d) as usize,
                            ),
                            if ob.2 == Stationary::NoTool {
                                caps_pre
                            } else {
                                caps_pre.update(sidx(ob.2), (caps_pre[sidx(ob.2)] - d) as usize)
                            },
                            j as int + 1,
                        );
                    }
                    let elem = &mut obs[j];
                    *elem = (ob.0, ob.1, ob.2, BuildPower(ob.3.0 - d));
                    pool.sub(ob.0, ob.1, BuildPower(d));
                    if !matches!(ob.2, Stationary::NoTool) {
                        let ci = st_index(ob.2);
                        let ca = caps[ci];
                        let cell = &mut caps[ci];
                        *cell = ca - d;
                    }
                    delta = delta + d;
                    j = j + 1;
                }
                proof {
                    assert(spec_obs_run(obs@, pool@, caps@, obs@.len() as int) == (obs@, pool@,
                    caps@, 0int));
                    assert(obs@ == run.0 && pool@ == run.1 && caps@ == run.2 && delta == run.3);
                }
                let invested2 = invested.0 + delta;
                let finished = invested2 >= required.0;
                {
                    let slot = world.slot_mut(i2);
                    match slot {
                        Some(c) => {
                            if finished {
                                c.status = Some(TaskStatus::Ready);
                                c.progress = None;
                            } else {
                                c.progress = Some(
                                    crate::production::TaskProgress {
                                        bp_required: required,
                                        bp_invested: BuildPower(invested2),
                                        who_should_finish: obs,
                                    },
                                );
                            }
                        },
                        None => {
                            proof {
                                assert(false);
                            }
                        },
                    }
                }
                proof {
                    let y = world@[i2 as int];
                    assert(world@ == s_cur.update(i2 as int, y));
                    assert(y is Some && same_but_task(y->0, s0[i2 as int]->0));
                    // the slot edit leaves every measured quantity except
                    // equipment capacity alone, and rooms and occupants alike
                    assert forall|m: Meas| #[trigger]
                        meas_sum(world@, m) == meas_sum(s_cur, m) - meas_val(
                            m,
                            s_cur[i2 as int],
                        ) + meas_val(m, y) by {
                        crate::world::lemma_meas_sum_update(s_cur, m, i2 as int, y);
                    }
                    assert(wf(world@)) by {
                        assert forall|q: int|
                            0 <= q < world@.len() implies crate::world::slot_ok(
                            #[trigger] world@[q],
                        ) by {
                            if q != i2 {
                                assert(world@[q] == s_cur[q]);
                            }
                            assert(crate::world::slot_ok(s_cur[q]));
                            if q == i2 && !finished {
                                assert(invested2 + crate::production::obligations_total(obs@)
                                    == required.0);
                            }
                        }
                        assert forall|jj: usize|
                            #[trigger] crate::world::live(world@, jj) && crate::world::comp(
                                world@,
                                jj,
                            ).room is Some implies crate::world::is_room(
                            world@,
                            ((crate::world::comp(world@, jj).room->0).0).0,
                        ) by {
                            assert(crate::world::live(s_cur, jj));
                            assert(crate::world::comp(world@, jj).room == crate::world::comp(
                                s_cur,
                                jj,
                            ).room);
                            let t = ((crate::world::comp(s_cur, jj).room->0).0).0;
                            assert(crate::world::is_room(s_cur, t));
                            assert(crate::world::is_room(world@, t));
                        }
                        assert forall|rm: usize| #[trigger]
                            crate::world::is_room(world@, rm) implies crate::world::occ_in_room(
                            world@,
                            rm,
                        ) <= crate::world::room_capacity(world@, rm) by {
                            assert(crate::world::is_room(s_cur, rm));
                            assert(meas_val(Meas::RoomOcc(rm), y) == meas_val(
                                Meas::RoomOcc(rm),
                                s_cur[i2 as int],
                            ));
                            assert(crate::world::occ_in_room(world@, rm)
                                == crate::world::occ_in_room(s_cur, rm));
                            assert(crate::world::room_capacity(world@, rm)
                                == crate::world::room_capacity(s_cur, rm));
                        }
                    }
                    assert((pool@, caps@) == spec_engine(s0, pool0, caps0, i2 as int + 1)) by {
                        assert(s0[i2 as int]->0.progress->0.who_should_finish@ == obs0);
                    }
                }
            },
            None => {
                proof {
                    assert(!is_task(s0[i2 as int]));
                    assert(spec_engine(s0, pool0, caps0, i2 as int + 1) == spec_engine(
                        s0,
                        pool0,
                        caps0,
                        i2 as int,
                    ));
                }
            },
        }
        i2 = i2 + 1;
    }
}

/// The profession at an index of the labor pool table.
pub open spec fn prof_of(k: int) -> Profession {
    if k == 0 {
        Profession::NoProf
    } else if k == 1 {
        Profession::Stalker
    } else if k == 2 {
        Profession::Likvidator
    } else if k == 3 {
        Profession::Scientist
    } else if k == 4 {
        Profession::Worker
    } else {
        Profession::Party
    }
}

/// The tier at an index of the labor pool table.
pub open spec fn tier_of(k: int) -> Tier {
    if k == 0 {
        Tier::NoTier
    } else if k == 1 {
        Tier::T1
    } else if k == 2 {
        Tier::T2
    } else {
        Tier::T3
    }
}

/// The labor pool a population yields: every cell holds its pairing's
/// head count times the tier's labor. This is what `calc_buildpower`
/// builds at the start of each turn.
pub open spec fn spec_pool0(s: Seq<Option<Components>>) -> Seq<usize> {
    Seq::new(
        24,
        |k: int|
            (count_people(s, prof_of(k / 4), tier_of(k % 4)) * spec_tier_buildpower(
                tier_of(k % 4),
            )) as usize,
    )
}

/// Colonists among the first `i` slots who survive the hunger tick; they
/// are the ones queued for a meal, in slot order.
pub open spec fn survivors_upto(s: Seq<Option<Components>>, i: int) -> int
    decreases i,
{
    if i <= 0 {
        0
    } else {
        survivors_upto(s, i - 1) + meas_val(Meas::Colonists, spec_hunger_slot(s[i - 1]))
    }
}

/// The colonists alive after the hunger tick are counted by the
/// survivors of the world it ran on.
proof fn lemma_survivors(
    s0: Seq<Option<Components>>,
    s2: Seq<Option<Components>>,
    i: int,
)
    requires
        s0.len() == s2.len(),
        0 <= i <= s0.len(),
        forall|j: int|
            0 <= j < s0.len() ==> meas_val(Meas::Colonists, #[trigger] s2[j]) == meas_val(
                Meas::Colonists,
                spec_hunger_slot(s0[j]),
            ),
    ensures
        meas_sum(s2.take(i), Meas::Colonists) == survivors_upto(s0, i),
    decreases i,
{
    if i > 0 {
        lemma_survivors(s0, s2, i - 1);
        lemma_meas_sum_take_step(s2, Meas::Colonists, i - 1);
    }
}

/// The engine's pool and capacity tables keep their shape as it runs.
proof fn lemma_engine_lens(s: Seq<Option<Components>>, pool: Seq<usize>, caps: Seq<usize>, i: int)
    requires
        pool.len() == 24,
        caps.len() == 10,
    ensures
        spec_engine(s, pool, caps, i).0.len() == 24,
        spec_engine(s, pool, caps, i).1.len() == 10,
    decreases i,
{
    if i > 0 {
        lemma_engine_lens(s, pool, caps, i - 1);
        let st8 = spec_engine(s, pool, caps, i - 1);
        if is_task(s[i - 1]) {
            lemma_obs_run_bounds(s[i - 1]->0.progress->0.who_should_finish@, st8.0, st8.1, 0);
        }
    }
}

/// Run one full turn: rebuild the labor pool from the population, advance
/// every construction task, apply hunger, and hand out food. Construction
/// never moves backward: invested labor never shrinks, and nothing that
/// was `Ready` falls back under construction.
pub fn turn(world: &mut World)
    requires
        wf(old(world)@),
    ensures
        wf(final(world)@),
        final(world)@.len() == old(world)@.len(),
        forall|i: int|
            0 <= i < old(world)@.len() && (#[trigger] old(world)@[i]) is Some
                && old(world)@[i]->0.status == Some(TaskStatus::Ready) ==> final(world)@[i] is Some
                && final(world)@[i]->0.status == Some(TaskStatus::Ready),
        forall|i: int|
            0 <= i < old(world)@.len() && (#[trigger] old(world)@[i]) is Some
                && old(world)@[i]->0.progress is Some && final(world)@[i] is Some
                && final(world)@[i]->0.progress is Some ==> (
            final(world)@[i]->0.progress->0).bp_invested.0 >= (
            old(world)@[i]->0.progress->0).bp_invested.0 && (
            final(world)@[i]->0.progress->0).bp_required == (
            old(world)@[i]->0.progress->0).bp_required,
        forall|res: crate::resources::Resource|
            res != crate::resources::Resource::Concentrat
                ==> #[trigger] crate::world::stock_area(final(world)@, res)
                == crate::world::stock_area(old(world)@, res),
        forall|p: Profession, t: Tier|
            #[trigger] count_people(final(world)@, p, t) <= count_people(old(world)@, p, t),
        // the turn's actual effect, slot by slot: every colonist passes
        // through the hunger tick and the meal queue
        forall|i: int|
            0 <= i < old(world)@.len() && is_colonist(#[trigger] old(world)@[i])
                ==> final(world)@[i] == spec_feed_slot(
                spec_hunger_slot(old(world)@[i]),
                spec_hunger_slot(old(world)@[i]) is Some && survivors_upto(old(world)@, i)
                    < crate::world::stock_units(
                    old(world)@,
                    crate::resources::Resource::Concentrat,
                ),
            ),
        // every task advances under the freshly built labor pool and the
        // ready equipment's capacity
        forall|i: int|
            0 <= i < old(world)@.len() && is_task(#[trigger] old(world)@[i]) ==> {
                let st8 = spec_engine(
                    old(world)@,
                    spec_pool0(old(world)@),
                    spec_caps0(old(world)@),
                    i,
                );
                let p = old(world)@[i]->0.progress->0;
                let r = spec_obs_run(p.who_should_finish@, st8.0, st8.1, 0);
                let inv2 = p.bp_invested.0 + r.3;
                &&& final(world)@[i] is Some
                &&& same_but_task(final(world)@[i]->0, old(world)@[i]->0)
                &&& (inv2 >= p.bp_required.0 ==> final(world)@[i]->0.status == Some(
                    TaskStatus::Ready,
                ) && final(world)@[i]->0.progress is None)
                &&& (inv2 < p.bp_required.0 ==> final(world)@[i]->0.status
                    == old(world)@[i]->0.status && final(world)@[i]->0.progress is Some && {
                    let p2 = final(world)@[i]->0.progress->0;
                    &&& p2.bp_required == p.bp_required
                    &&& p2.bp_invested.0 == inv2
                    &&& p2.who_should_finish@ == r.0
                })
            },
        // everything else is only touched if it stores the food
        forall|i: int|
            0 <= i < old(world)@.len() && !is_task(#[trigger] old(world)@[i]) && !is_colonist(
                old(world)@[i],
            ) && !crate::storage::is_container_of(
                old(world)@,
                i,
                crate::resources::Resource::Concentrat,
            ) ==> final(world)@[i] == old(world)@[i],
        // one pack of concentrate per surviving colonist, while stock lasts
        crate::world::stock_units(final(world)@, crate::resources::Resource::Concentrat)
            == crate::world::stock_units(old(world)@, crate::resources::Resource::Concentrat)
            - vstd::math::min(
            crate::world::stock_units(old(world)@, crate::resources::Resource::Concentrat),
            survivors_upto(old(world)@, old(world)@.len() as int),
        ),
{
    let ghost s0 = old(world)@;
    let mut pool = calc_buildpower(world);
    let ghost pool0 = pool@;
    let ghost caps0 = spec_caps0(s0);
    proof {
        // the freshly built pool is the population's pool
        assert(pool@ =~= spec_pool0(s0)) by {
            assert forall|k: int| 0 <= k < 24 implies pool@[k] == spec_pool0(s0)[k] by {
                vstd::arithmetic::div_mod::lemma_fundamental_div_mod(k, 4);
                assert(0 <= k / 4 < 6 && 0 <= k % 4 < 4) by (nonlinear_arith)
                    requires
                        0 <= k < 24,
                ;
                let p = prof_of(k / 4);
                let t = tier_of(k % 4);
                assert(pt(p, t) == k);
                assert(pool_at(pool@, p, t) == count_people(s0, p, t) * spec_tier_buildpower(t));
            }
        }
        assert(pool0 == spec_pool0(s0));
    }
    process_tasks(world, &mut pool);
    let ghost s1 = world@;
    proof {
        assert forall|i: int|
            0 <= i < s0.len() && (#[trigger] s0[i]) is Some && s0[i]->0.status == Some(
                TaskStatus::Ready,
            ) implies s1[i] == s0[i] by {
            assert(crate::world::slot_ok(s0[i]));
            assert(!is_task(s0[i]));
        }
        assert forall|i: int|
            0 <= i < s0.len() && (#[trigger] s0[i]) is Some && s0[i]->0.progress is Some
                && s1[i] is Some && s1[i]->0.progress is Some implies (
            s1[i]->0.progress->0).bp_invested.0 >= (s0[i]->0.progress->0).bp_invested.0 && (
            s1[i]->0.progress->0).bp_required == (s0[i]->0.progress->0).bp_required by {
            assert(crate::world::slot_ok(s0[i]));
            assert(is_task(s0[i]));
            let st8 = spec_engine(s0, pool0, caps0, i);
            lemma_engine_lens(s0, pool0, caps0, i);
            lemma_obs_run_bounds(s0[i]->0.progress->0.who_should_finish@, st8.0, st8.1, 0);
        }
        // advancing tasks moves no material and no people
        assert forall|res: crate::resources::Resource| #[trigger]
            crate::world::stock_area(s1, res) == crate::world::stock_area(s0, res) by {
            assert forall|j: int|
                0 <= j < s0.len() implies meas_val(Meas::Stock(res), #[trigger] s1[j]) == meas_val(
                Meas::Stock(res),
                s0[j],
            ) by {
                if !is_task(s0[j]) {
                    assert(s1[j] == s0[j]);
                }
            }
            crate::world::lemma_meas_sum_congruence(s1, s0, Meas::Stock(res));
        }
        assert forall|p: Profession, t: Tier| #[trigger]
            count_people(s1, p, t) == count_people(s0, p, t) by {
            assert forall|j: int|
                0 <= j < s0.len() implies meas_val(Meas::People(p, t), #[trigger] s1[j])
                == meas_val(Meas::People(p, t), s0[j]) by {
                if !is_task(s0[j]) {
                    assert(s1[j] == s0[j]);
                }
            }
            crate::world::lemma_meas_sum_congruence(s1, s0, Meas::People(p, t));
        }
    }
    hunger_tick(world);
    let ghost s2 = world@;
    proof {
        assert forall|i: int|
            0 <= i < s1.len() && (#[trigger] s1[i]) is Some && (s1[i]->0.status is Some
                || s1[i]->0.progress is Some) implies s2[i] == s1[i] by {
            assert(crate::world::slot_ok(s1[i]));
            assert(s2[i] == spec_hunger_slot(s1[i]));
        }
        // hunger feeds on satiety and mood alone, and only thins the crowd
        assert forall|res: crate::resources::Resource| #[trigger]
            crate::world::stock_area(s2, res) == crate::world::stock_area(s1, res) by {
            assert forall|j: int|
                0 <= j < s1.len() implies meas_val(Meas::Stock(res), #[trigger] s2[j]) == meas_val(
                Meas::Stock(res),
                s1[j],
            ) by {
                assert(crate::world::slot_ok(s1[j]));
                assert(s2[j] == spec_hunger_slot(s1[j]));
            }
            crate::world::lemma_meas_sum_congruence(s2, s1, Meas::Stock(res));
        }
        assert forall|p: Profession, t: Tier| #[trigger]
            count_people(s2, p, t) <= count_people(s1, p, t) by {
            assert forall|j: int|
                0 <= j < s1.len() implies meas_val(Meas::People(p, t), #[trigger] s2[j])
                <= meas_val(Meas::People(p, t), s1[j]) by {
                assert(crate::world::slot_ok(s1[j]));
                assert(s2[j] == spec_hunger_slot(s1[j]));
            }
            crate::world::lemma_meas_sum_pointwise_le(s2, s1, Meas::People(p, t));
        }
    }
    consume_concentrat(world);
    proof {
        assert forall|i: int|
            0 <= i < s2.len() && (#[trigger] s2[i]) is Some && (s2[i]->0.status is Some
                || s2[i]->0.progress is Some) implies world@[i] == s2[i] by {
            assert(crate::world::slot_ok(s2[i]));
            assert(!crate::storage::is_container_of(s2, i, crate::resources::Resource::Concentrat));
            assert(world@[i] == spec_feed_slot(s2[i], spec_fed(s2, i)));
        }
        // feeding spends concentrate only and changes nobody's trade
        assert forall|res: crate::resources::Resource|
            res != crate::resources::Resource::Concentrat implies #[trigger] crate::world::stock_area(
            world@,
            res,
        ) == crate::world::stock_area(s2, res) by {
            assert(crate::storage::stock_frame(
                Meas::Stock(res),
                crate::resources::Resource::Concentrat,
            ) && feed_frame(Meas::Stock(res)));
        }
        assert forall|p: Profession, t: Tier| #[trigger]
            count_people(world@, p, t) == count_people(s2, p, t) by {
            assert(crate::storage::stock_frame(
                Meas::People(p, t),
                crate::resources::Resource::Concentrat,
            ) && feed_frame(Meas::People(p, t)));
        }
    }
    proof {
        let ghost conc = crate::resources::Resource::Concentrat;
        // the crowd the hunger tick leaves standing is the survivors of
        // the turn's starting world: the engine touches no mood
        assert forall|j: int|
            0 <= j < s0.len() implies meas_val(Meas::Colonists, #[trigger] s2[j]) == meas_val(
            Meas::Colonists,
            spec_hunger_slot(s0[j]),
        ) by {
            assert(crate::world::slot_ok(s0[j]));
            if is_task(s0[j]) {
                assert(s1[j] is Some && same_but_task(s1[j]->0, s0[j]->0));
                assert(s2[j] == spec_hunger_slot(s1[j]));
            } else {
                assert(s1[j] == s0[j]);
                assert(s2[j] == spec_hunger_slot(s1[j]));
            }
        }
        lemma_survivors(s0, s2, s0.len() as int);
        assert(s2.take(s2.len() as int) =~= s2);
        assert(meas_sum(s2, Meas::Colonists) == survivors_upto(s0, s0.len() as int));
        assert(crate::world::stock_area(s2, conc) == crate::world::stock_area(s0, conc));
        assert(crate::world::stock_units(s2, conc) == crate::world::stock_units(s0, conc));
        // colonists: unchanged by the engine, then hunger, then the meal
        assert forall|i: int|
            0 <= i < s0.len() && is_colonist(#[trigger] s0[i]) implies world@[i] == spec_feed_slot(
            spec_hunger_slot(s0[i]),
            spec_hunger_slot(s0[i]) is Some && survivors_upto(s0, i) < crate::world::stock_units(
                s0,
                conc,
            ),
        ) by {
            assert(crate::world::slot_ok(s0[i]));
            assert(!is_task(s0[i]));
            assert(s1[i] == s0[i]);
            assert(s2[i] == spec_hunger_slot(s1[i]));
            assert(!crate::storage::is_container_of(s2, i, conc));
            assert(world@[i] == spec_feed_slot(s2[i], spec_fed(s2, i)));
            lemma_survivors(s0, s2, i);
            assert(is_colonist(s2[i]) <==> s2[i] is Some);
        }
        // tasks: the engine's verdict carries through the later phases
        assert forall|i: int|
            0 <= i < s0.len() && is_task(#[trigger] s0[i]) implies {
            let st8 = spec_engine(s0, spec_pool0(s0), spec_caps0(s0), i);
            let p = s0[i]->0.progress->0;
            let r = spec_obs_run(p.who_should_finish@, st8.0, st8.1, 0);
            let inv2 = p.bp_invested.0 + r.3;
            &&& world@[i] is Some
            &&& same_but_task(world@[i]->0, s0[i]->0)
            &&& (inv2 >= p.bp_required.0 ==> world@[i]->0.status == Some(TaskStatus::Ready)
                && world@[i]->0.progress is None)
            &&& (inv2 < p.bp_required.0 ==> world@[i]->0.status == s0[i]->0.status
                && world@[i]->0.progress is Some && {
                let p2 = world@[i]->0.progress->0;
                &&& p2.bp_required == p.bp_required
                &&& p2.bp_invested.0 == inv2
                &&& p2.who_should_finish@ == r.0
            })
        } by {
            assert(s1[i] is Some && s1[i]->0.status is Some);
            assert(s2[i] == s1[i]);
            assert(world@[i] == s2[i]);
        }
        // bystanders: untouched through all four phases
        assert forall|i: int|
            0 <= i < s0.len() && !is_task(#[trigger] s0[i]) && !is_colonist(s0[i])
                && !crate::storage::is_container_of(s0, i, conc) implies world@[i] == s0[i] by {
            assert(crate::world::slot_ok(s0[i]));
            assert(s1[i] == s0[i]);
            assert(s2[i] == spec_hunger_slot(s1[i]));
            assert(s2[i] == s1[i]);
            assert(!crate::storage::is_container_of(s2, i, conc));
            assert(world@[i] == spec_feed_slot(s2[i], spec_fed(s2, i)));
            assert(world@[i] == s2[i]);
        }
    }
}

/// Satiety lost to hunger every turn.
pub const HUNGER_PER_TURN: u16 = 10;

/// Satiety below which a colonist dies of starvation.
pub const DEATH_THRESHOLD: u16 = 10;

/// Satiety below which hunger weighs on the mood.
pub const DISCOMFORT_THRESHOLD: u16 = 100;

/// Satiety one pack of food concentrate restores.
pub const FEED_SATIETY: u16 = 10;

/// What the hunger tick makes of one slot: a colonist loses satiety, is
/// removed when starvation takes them below the death threshold, and —
/// if already hungry before the tick — loses a point of mood. Everything
/// else is untouched.
pub open spec fn spec_hunger_slot(oc: Option<Components>) -> Option<Components> {
    if oc is Some && oc->0.satiety is Some && oc->0.mood is Some {
        let c = oc->0;
        let sat = ((c.satiety->0).0) as int;
        let sat2 = if sat >= HUNGER_PER_TURN {
            sat - HUNGER_PER_TURN
        } else {
            0
        };
        if sat2 < DEATH_THRESHOLD {
            None
        } else {
            let mood = ((c.mood->0).0) as int;
            let mood2 = if sat < DISCOMFORT_THRESHOLD {
                if mood >= 1 {
                    mood - 1
                } else {
                    0
                }
            } else {
                mood
            };
            Some(
                Components {
                    satiety: Some(crate::people::Satiety(sat2 as u16)),
                    mood: Some(crate::people::Mood(mood2 as u8)),
                    ..c
                },
            )
        }
    } else {
        oc
    }
}

/// The hunger tick: every colonist's satiety drops by a fixed amount;
/// colonists driven below the death threshold starve and are removed;
/// colonists who were already below the discomfort threshold lose a
/// point of mood, which cannot fall below zero.
pub fn hunger_tick(world: &mut World)
    requires
        wf(old(world)@),
    ensures
        wf(final(world)@),
        final(world)@.len() == old(world)@.len(),
        forall|i: int|
            0 <= i < old(world)@.len() ==> final(world)@[i] == spec_hunger_slot(
                #[trigger] old(world)@[i],
            ),
{
    let ghost s0 = old(world)@;
    let n = world.num_slots();
    let mut i: usize = 0;
    while i < n
        invariant
            wf(world@),
            n == s0.len(),
            world@.len() == n,
            i <= n,
            forall|j: int| i <= j < n ==> world@[j] == s0[j],
            forall|j: int| 0 <= j < i ==> world@[j] == spec_hunger_slot(#[trigger] s0[j]),
        decreases n - i,
    {
        let ghost s_cur = world@;
        let mut colonist: Option<(u16, u8)> = None;
        match world.slot(i) {
            Some(c) => match (&c.satiety, &c.mood) {
                (Some(sv), Some(mv)) => {
                    colonist = Some((sv.0, mv.0));
                },
                _ => {},
            },
            None => {},
        }
        match colonist {
            Some((sat, mood)) => {
                proof {
                    assert(crate::world::slot_ok(s_cur[i as int]));
                }
                let sat2 = if sat >= HUNGER_PER_TURN {
                    sat - HUNGER_PER_TURN
                } else {
                    0
                };
                if sat2 < DEATH_THRESHOLD {
                    world.clear_slot(i);
                } else {
                    let mood2 = if sat < DISCOMFORT_THRESHOLD {
                        if mood >= 1 {
                            mood - 1
                        } else {
                            0
                        }
                    } else {
                        mood
                    };
                    let slot = world.slot_mut(i);
                    match slot {
                        Some(c) => {
                            c.satiety = Some(crate::people::Satiety(sat2));
                            c.mood = Some(crate::people::Mood(mood2));
                        },
                        None => {
                            proof {
                                assert(false);
                            }
                        },
                    }
                }
                proof {
                    let y = world@[i as int];
                    assert(world@ == s_cur.update(i as int, y));
                    assert(y == spec_hunger_slot(s0[i as int]));
                    slot_edit_keeps_wf(s_cur, i as int, y);
                }
            },
            None => {
                proof {
                    assert(world@[i as int] == spec_hunger_slot(s0[i as int]));
                }
            },
        }
        i = i + 1;
    }
}

/// Editing one slot keeps the world well-formed, provided the new slot
/// is sane, occupies the same room and area as before (or vanishes), and
/// neither gains nor loses room-hood.
proof fn slot_edit_keeps_wf(s: Seq<Option<Components>>, i: int, y: Option<Components>)
    requires
        wf(s),
        0 <= i < s.len(),
        crate::world::slot_ok(y),
        y is Some ==> s[i] is Some && (y->0).room == (s[i]->0).room && (y->0).occupied == (
        s[i]->0).occupied && (y->0).capacity == (s[i]->0).capacity,
        y is None ==> (s[i] is Some ==> (s[i]->0).capacity is None),
        y is None ==> meas_val(Meas::RoomOcc(0), y) == 0,
    ensures
        wf(s.update(i, y)),
        forall|rm: usize|
            #[trigger] crate::world::occ_in_room(s.update(i, y), rm) <= crate::world::occ_in_room(
                s,
                rm,
            ),
{
    let s2 = s.update(i, y);
    assert forall|q: int| 0 <= q < s2.len() implies crate::world::slot_ok(#[trigger] s2[q]) by {
        if q != i {
            assert(s2[q] == s[q]);
        }
        assert(crate::world::slot_ok(s[q]));
    }
    assert forall|rm: usize| #[trigger]
        crate::world::occ_in_room(s2, rm) <= crate::world::occ_in_room(s, rm) by {
        crate::world::lemma_meas_sum_update(s, Meas::RoomOcc(rm), i, y);
        crate::world::lemma_meas_val_nonneg(Meas::RoomOcc(rm), s[i]);
        if y is Some {
            assert(meas_val(Meas::RoomOcc(rm), y) == meas_val(Meas::RoomOcc(rm), s[i]));
        } else {
            assert(meas_val(Meas::RoomOcc(rm), y) == 0);
        }
    }
    assert forall|jj: usize|
        #[trigger] crate::world::live(s2, jj) && crate::world::comp(s2, jj).room is Some implies crate::world::is_room(
        s2,
        ((crate::world::comp(s2, jj).room->0).0).0,
    ) by {
        assert(crate::world::live(s, jj));
        assert(crate::world::comp(s2, jj).room == crate::world::comp(s, jj).room);
        let t = ((crate::world::comp(s, jj).room->0).0).0;
        assert(crate::world::is_room(s, t));
        assert(crate::world::slot_ok(s[t as int]));
        if t == i {
            assert(s2[t as int] is Some && (s2[t as int]->0).capacity == (s[t as int]->0).capacity);
        } else {
            assert(s2[t as int] == s[t as int]);
        }
        assert(crate::world::is_room(s2, t));
    }
    assert forall|rm: usize| #[trigger] crate::world::is_room(s2, rm) implies crate::world::occ_in_room(
        s2,
        rm,
    ) <= crate::world::room_capacity(s2, rm) by {
        if rm != i {
            assert(s2[rm as int] == s[rm as int]);
            assert(crate::world::is_room(s, rm));
            assert(crate::world::room_capacity(s2, rm) == crate::world::room_capacity(s, rm));
        } else {
            assert(crate::world::is_room(s, rm));
            assert(crate::world::room_capacity(s2, rm) == crate::world::room_capacity(s, rm));
        }
        assert(crate::world::occ_in_room(s2, rm) <= crate::world::occ_in_room(s, rm));
    }
}

/// The starvation law: a colonist whose satiety has fallen below the sum
/// of the death threshold and one turn's hunger does not survive the next
/// hunger tick — the tick leaves their slot empty, so every population
/// query thereafter counts them no more.
pub proof fn lemma_starvation(s: Seq<Option<Components>>, i: int)
    requires
        0 <= i < s.len(),
        is_colonist(s[i]),
        ((s[i]->0.satiety->0).0) < DEATH_THRESHOLD + HUNGER_PER_TURN,
    ensures
        spec_hunger_slot(s[i]) is None,
{
}

/// The slot holds a colonist.
pub open spec fn is_colonist(oc: Option<Components>) -> bool {
    oc is Some && oc->0.mood is Some && oc->0.satiety is Some
}

/// Does the colonist in slot `i` get fed this turn? The concentrate is
/// handed out in slot order while stock lasts.
pub open spec fn spec_fed(s: Seq<Option<Components>>, i: int) -> bool {
    is_colonist(s[i]) && meas_sum(s.take(i), Meas::Colonists) < crate::world::stock_units(
        s,
        crate::resources::Resource::Concentrat,
    )
}

/// What feeding makes of one slot: a fed colonist gains satiety and a
/// point of mood (up to the cap); a colonist passed over because the
/// stock ran dry loses a point of mood. Everything else is untouched.
pub open spec fn spec_feed_slot(oc: Option<Components>, fed: bool) -> Option<Components> {
    if oc is Some && oc->0.mood is Some && oc->0.satiety is Some {
        let c = oc->0;
        let mood = ((c.mood->0).0) as int;
        let sat = ((c.satiety->0).0) as int;
        if fed {
            let mood2 = if mood < crate::people::MOOD_MAX {
                mood + 1
            } else {
                mood
            };
            let sat2 = if sat + FEED_SATIETY <= u16::MAX {
                sat + FEED_SATIETY
            } else {
                u16::MAX as int
            };
            Some(
                Components {
                    mood: Some(crate::people::Mood(mood2 as u8)),
                    satiety: Some(crate::people::Satiety(sat2 as u16)),
                    ..c
                },
            )
        } else {
            let mood2 = if mood >= 1 {
                mood - 1
            } else {
                0
            };
            Some(Components { mood: Some(crate::people::Mood(mood2 as u8)), ..c })
        }
    } else {
        oc
    }
}

/// Measures feeding alone leaves untouched: everything but the mood and
/// satiety totals.
pub open spec fn feed_frame(m: Meas) -> bool {
    match m {
        Meas::MoodSum => false,
        Meas::SatSum => false,
        _ => true,
    }
}

/// Hand out food concentrate: colonists are fed in slot order while the
/// stock lasts — each meal restores satiety and lifts mood — and
/// colonists left without a meal lose a point of mood. The concentrate
/// actually handed out is then written off the stores.
pub fn consume_concentrat(world: &mut World)
    requires
        wf(old(world)@),
    ensures
        wf(final(world)@),
        final(world)@.len() == old(world)@.len(),
        forall|i: int|
            0 <= i < old(world)@.len() && !crate::storage::is_container_of(
                old(world)@,
                i,
                crate::resources::Resource::Concentrat,
            ) ==> final(world)@[i] == spec_feed_slot(#[trigger] old(world)@[i], spec_fed(old(world)@, i)),
        crate::world::stock_units(final(world)@, crate::resources::Resource::Concentrat)
            == crate::world::stock_units(old(world)@, crate::resources::Resource::Concentrat)
            - vstd::math::min(
            crate::world::stock_units(old(world)@, crate::resources::Resource::Concentrat),
            meas_sum(old(world)@, Meas::Colonists),
        ),
        forall|m: Meas|
            crate::storage::stock_frame(m, crate::resources::Resource::Concentrat) && feed_frame(m)
                ==> #[trigger] meas_sum(final(world)@, m) == meas_sum(old(world)@, m),
        forall|rm: usize|
            #[trigger] crate::world::occ_in_room(final(world)@, rm) <= crate::world::occ_in_room(
                old(world)@,
                rm,
            ),
{
    let ghost s0 = old(world)@;
    let ghost conc = crate::resources::Resource::Concentrat;
    let stock = crate::storage::how_much_we_have(world, crate::resources::Resource::Concentrat);
    let n = world.num_slots();
    let mut remaining: usize = stock.0;
    let mut consumed: usize = 0;
    let mut i: usize = 0;
    proof {
        crate::world::lemma_meas_sum_nonneg(world@, Meas::Colonists);
    }
    while i < n
        invariant
            wf(world@),
            n == s0.len(),
            world@.len() == n,
            i <= n,
            stock.0 == crate::world::stock_units(s0, conc),
            conc == crate::resources::Resource::Concentrat,
            consumed == vstd::math::min(
                stock.0 as int,
                meas_sum(s0.take(i as int), Meas::Colonists),
            ),
            remaining == stock.0 - consumed,
            forall|j: int| i <= j < n ==> world@[j] == s0[j],
            forall|j: int|
                0 <= j < i ==> world@[j] == spec_feed_slot(#[trigger] s0[j], spec_fed(s0, j)),
            forall|m: Meas| feed_frame(m) ==> #[trigger] meas_sum(world@, m) == meas_sum(s0, m),
            forall|rm: usize|
                #[trigger] crate::world::occ_in_room(world@, rm) == crate::world::occ_in_room(
                    s0,
                    rm,
                ),
        decreases n - i,
    {
        let ghost s_cur = world@;
        let mut colonist: Option<(u16, u8)> = None;
        match world.slot(i) {
            Some(c) => match (&c.satiety, &c.mood) {
                (Some(sv), Some(mv)) => {
                    colonist = Some((sv.0, mv.0));
                },
                _ => {},
            },
            None => {},
        }
        proof {
            lemma_meas_sum_take_step(s0, Meas::Colonists, i as int);
            crate::world::lemma_meas_sum_nonneg(s0.take(i as int), Meas::Colonists);
        }
        match colonist {
            Some((sat, mood)) => {
                proof {
                    assert(crate::world::slot_ok(s_cur[i as int]));
                    assert(meas_val(Meas::Colonists, s0[i as int]) == 1);
                }
                let fed = remaining > 0;
                let mood2: u8;
                let sat2: u16;
                if fed {
                    remaining = remaining - 1;
                    consumed = consumed + 1;
                    mood2 = if mood < crate::people::MOOD_MAX {
                        mood + 1
                    } else {
                        mood
                    };
                    sat2 = if sat <= u16::MAX - FEED_SATIETY {
                        sat + FEED_SATIETY
                    } else {
                        u16::MAX
                    };
                } else {
                    mood2 = if mood >= 1 {
                        mood - 1
                    } else {
                        0
                    };
                    sat2 = sat;
                }
                let slot = world.slot_mut(i);
                match slot {
                    Some(c) => {
                        c.mood = Some(crate::people::Mood(mood2));
                        c.satiety = Some(crate::people::Satiety(sat2));
                    },
                    None => {
                        proof {
                            assert(false);
                        }
                    },
                }
                proof {
                    let y = world@[i as int];
                    assert(world@ == s_cur.update(i as int, y));
                    assert(fed == spec_fed(s0, i as int));
                    assert(y == spec_feed_slot(s0[i as int], fed));
                    slot_edit_keeps_wf(s_cur, i as int, y);
                    assert forall|m: Meas| feed_frame(m) implies #[trigger] meas_sum(world@, m)
                        == meas_sum(s0, m) by {
                        crate::world::lemma_meas_sum_update(s_cur, m, i as int, y);
                        assert(meas_val(m, y) == meas_val(m, s_cur[i as int]));
                    }
                    assert forall|rm: usize| #[trigger]
                        crate::world::occ_in_room(world@, rm) == crate::world::occ_in_room(
                            s0,
                            rm,
                        ) by {
                        crate::world::lemma_meas_sum_update(
                            s_cur,
                            Meas::RoomOcc(rm),
                            i as int,
                            y,
                        );
                        assert(meas_val(Meas::RoomOcc(rm), y) == meas_val(
                            Meas::RoomOcc(rm),
                            s_cur[i as int],
                        ));
                    }
                }
            },
            None => {
                proof {
                    assert(meas_val(Meas::Colonists, s0[i as int]) == 0);
                    assert(world@[i as int] == spec_feed_slot(s0[i as int], spec_fed(s0, i as int)));
                }
            },
        }
        i = i + 1;
    }
    proof {
        assert(s0.take(n as int) =~= s0);
        assert(crate::world::stock_units(world@, conc) == crate::world::stock_units(s0, conc));
        crate::world::lemma_stock_area_fits(world@, conc);
        crate::world::lemma_stock_area_multiple(world@, conc);
    }
    let ghost s_mid = world@;
    let short = crate::storage::writeoff(
        world,
        crate::resources::Resource::Concentrat,
        crate::storage::RealUnits(consumed),
    );
    proof {
        assert(short.0 == 0);
        let p = crate::storage::spec_piece_size(conc) as int;
        let a0 = crate::world::stock_area(s_mid, conc);
        let u0 = crate::world::stock_units(s_mid, conc);
        vstd::arithmetic::div_mod::lemma_fundamental_div_mod(a0, p);
        assert(a0 == p * u0);
        assert(crate::world::stock_area(world@, conc) == a0 - p * consumed);
        assert(a0 - p * consumed == p * (u0 - consumed)) by (nonlinear_arith)
            requires
                a0 == p * u0,
        ;
        vstd::arithmetic::div_mod::lemma_div_multiples_vanish(u0 - consumed, p);
        assert(crate::world::stock_units(world@, conc) == u0 - consumed);
        // slots that are no concentrate containers keep their fed state
        assert forall|i: int|
            0 <= i < s0.len() && !crate::storage::is_container_of(s0, i, conc) implies world@[i]
            == spec_feed_slot(#[trigger] s0[i], spec_fed(s0, i)) by {
            assert(s_mid[i] == spec_feed_slot(s0[i], spec_fed(s0, i)));
            assert(!crate::storage::is_container_of(s_mid, i, conc));
        }
        assert forall|rm: usize| #[trigger]
            crate::world::occ_in_room(world@, rm) <= crate::world::occ_in_room(s0, rm) by {
            assert(crate::world::occ_in_room(world@, rm) <= crate::world::occ_in_room(s_mid, rm));
            assert(crate::world::occ_in_room(s_mid, rm) == crate::world::occ_in_room(s0, rm));
        }
    }
}

/// A population count among the first `i` slots stays below the entity
/// bound, so a colonist's labor still fits the pool cell.
proof fn count_bound(s: Seq<Option<Components>>, p: Profession, t: Tier, i: int)
    requires
        wf(s),
        0 <= i <= s.len(),
    ensures
        0 <= meas_sum(s.take(i), Meas::People(p, t)) <= MAX_ENT,
{
    let m = Meas::People(p, t);
    assert forall|j: int| 0 <= j < s.take(i).len() ==> meas_val(m, #[trigger] s.take(i)[j]) <= 1 by {}
    crate::world::lemma_meas_sum_le_mul(s.take(i), m, 1);
    crate::world::lemma_meas_sum_nonneg(s.take(i), m);
}

} // verus!
