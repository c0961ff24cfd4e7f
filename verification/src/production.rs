//! The production system: stationary equipment, construction tasks, their
//! labor and material requirements, and the buildability check.

use vstd::prelude::*;

use crate::area::{AreaCapacity, AreaOccupied, AreaType, BelongsToRoom};
use crate::base::{SamosborError, TaskStatus, Tier};
use crate::people::Profession;
use crate::resources::Resource;
use crate::storage::RealUnits;
use crate::world::Entity;

verus! {

/// Priority of a task.
#[derive(Clone, Copy, Debug, PartialEq, Eq, Structural)]
pub struct Priority(pub usize);

/// Marks the stationary object an entity is attached to.
#[derive(Clone, Copy, Debug, PartialEq, Eq, Structural)]
pub struct BelongsToStationary(pub Entity);

/// Stationary equipment kinds. `None` stands for "no equipment needed":
/// some production tasks require no tool at all.
#[derive(Clone, Copy, Debug, PartialEq, Eq, Structural, Hash)]
pub enum Stationary {
    /// No equipment.
    NoTool,
    /// Workbench.
    BenchToolT1,
    /// Turning and milling machine.
    BenchToolT2,
    /// Molecular printer.
    BenchToolT3,
    /// Furnace for remelting scrap and forming materials.
    FormatFurnace,
    /// Basic laboratory equipment.
    LabT1,
    /// Advanced laboratory equipment.
    LabT2,
    /// Superb laboratory equipment.
    LabT3,
    /// Vat for chemical reactions.
    Barrel,
    /// Terminal connecting to the neuro-network.
    NeuroTerminal,
}

/// Every real stationary kind (everything but `None`), in a fixed order.
pub open spec fn spec_all_stationaries() -> Seq<Stationary> {
    seq![
        Stationary::BenchToolT1,
        Stationary::BenchToolT2,
        Stationary::BenchToolT3,
        Stationary::FormatFurnace,
        Stationary::LabT1,
        Stationary::LabT2,
        Stationary::LabT3,
        Stationary::Barrel,
        Stationary::NeuroTerminal,
    ]
}

/// Every real stationary kind, in the canonical order.
pub fn all_stationaries() -> (r: Vec<Stationary>)
    ensures
        r@ == spec_all_stationaries(),
{
    let r = vec![
        Stationary::BenchToolT1,
        Stationary::BenchToolT2,
        Stationary::BenchToolT3,
        Stationary::FormatFurnace,
        Stationary::LabT1,
        Stationary::LabT2,
        Stationary::LabT3,
        Stationary::Barrel,
        Stationary::NeuroTerminal,
    ];
    proof {
        assert(r@ =~= spec_all_stationaries());
    }
    r
}

/// Infrastructure shell that turns raw space into a usable room once its
/// construction completes. The tier determines the room's capacity.
#[derive(Clone, Copy, Debug, PartialEq, Eq, Structural)]
pub enum Germ {
    GermT1,
    GermT2,
    GermT3,
}

/// Labor units: the work a colonist or machine contributes per turn.
#[derive(Clone, Copy, Debug, PartialEq, Eq, Structural, Hash)]
pub struct BuildPower(pub usize);

/// Progress of a construction task. `who_should_finish` lists the open
/// obligations: which profession, at which tier, on which equipment still
/// has to contribute how much labor.
#[derive(Clone, Debug)]
pub struct TaskProgress {
    pub bp_required: BuildPower,
    pub bp_invested: BuildPower,
    pub who_should_finish: Vec<(Profession, Tier, Stationary, BuildPower)>,
}

/// One labor obligation of a task: the profession and tier that must work,
/// the equipment they need, and the labor units they owe.
#[derive(PartialEq, Eq, Structural, Clone, Copy, Debug, Hash)]
pub struct TaskMeta {
    pub prof: Profession,
    pub tier: Tier,
    pub bp: BuildPower,
    pub stationary: Stationary,
}

/// Priority of a construction task.
#[derive(PartialEq, Eq, Structural, Clone, Copy, Debug)]
pub struct TaskPriority(pub usize);

/// Area a stationary object takes up once installed.
pub open spec fn spec_stationary_size(stationary: Stationary) -> nat {
    match stationary {
        Stationary::NoTool => 0,
        Stationary::BenchToolT1 => 2000,
        Stationary::BenchToolT2 => 2500,
        Stationary::BenchToolT3 => 5000,
        Stationary::FormatFurnace => 5000,
        Stationary::LabT1 => 2000,
        Stationary::LabT2 => 4000,
        Stationary::LabT3 => 6000,
        Stationary::Barrel => 1500,
        Stationary::NeuroTerminal => 500,
    }
}

/// How much area the given stationary object occupies.
pub fn stationary_size(stationary: Stationary) -> (r: AreaOccupied)
    ensures
        r.0 == spec_stationary_size(stationary),
{
    match stationary {
        Stationary::NoTool => AreaOccupied(0),
        Stationary::BenchToolT1 => AreaOccupied(2000),
        Stationary::BenchToolT2 => AreaOccupied(2500),
        Stationary::BenchToolT3 => AreaOccupied(5000),
        Stationary::FormatFurnace => AreaOccupied(5000),
        Stationary::LabT1 => AreaOccupied(2000),
        Stationary::LabT2 => AreaOccupied(4000),
        Stationary::LabT3 => AreaOccupied(6000),
        Stationary::Barrel => AreaOccupied(1500),
        Stationary::NeuroTerminal => AreaOccupied(500),
    }
}

/// Capacity of the room a germ of the given tier provides.
pub open spec fn spec_germ_capacity(germ: Germ) -> nat {
    match germ {
        Germ::GermT1 => 3000,
        Germ::GermT2 => 15000,
        Germ::GermT3 => 50000,
    }
}

/// Labor a colonist of the given tier contributes each turn.
pub open spec fn spec_tier_buildpower(tier: Tier) -> nat {
    match tier {
        Tier::NoTier => 0,
        Tier::T1 => 10,
        Tier::T2 => 20,
        Tier::T3 => 40,
    }
}

/// Labor a colonist of the given tier contributes each turn. A colonist
/// always holds a real tier, so `NoTier` is outside this function's domain.
pub fn tier2comrad_buildpower(tier: Tier) -> (r: BuildPower)
    requires
        tier != Tier::NoTier,
    ensures
        r.0 == spec_tier_buildpower(tier),
{
    match tier {
        Tier::NoTier => BuildPower(0),
        Tier::T1 => BuildPower(10),
        Tier::T2 => BuildPower(20),
        Tier::T3 => BuildPower(40),
    }
}

/// How labor converts when a worker of one tier serves a task of a lower
/// tier: one tier down doubles the effect, two tiers down quadruple it;
/// any other pairing contributes nothing. This conversion is a standalone
/// rule: the turn engine itself never applies it, matching labor strictly
/// by exact tier.
pub open spec fn spec_downgrade_coef(worker_tier: Tier, target_tier: Tier, bp: nat) -> nat {
    match (worker_tier, target_tier) {
        (Tier::T1, Tier::T1) => bp,
        (Tier::T2, Tier::T2) => bp,
        (Tier::T3, Tier::T3) => bp,
        (Tier::T2, Tier::T1) => bp * 2,
        (Tier::T3, Tier::T2) => bp * 2,
        (Tier::T3, Tier::T1) => bp * 4,
        _ => 0,
    }
}

/// Labor of a `worker_tier` worker applied to a `target_tier` task.
pub fn buildpower_downgrage_coef(worker_tier: Tier, target_tier: Tier, bp: BuildPower) -> (r:
    BuildPower)
    requires
        bp.0 * 4 <= usize::MAX,
    ensures
        r.0 == spec_downgrade_coef(worker_tier, target_tier, bp.0 as nat),
{
    match (worker_tier, target_tier) {
        (Tier::T1, Tier::T1) => bp,
        (Tier::T2, Tier::T2) => bp,
        (Tier::T3, Tier::T3) => bp,
        (Tier::T2, Tier::T1) => BuildPower(bp.0 * 2),
        (Tier::T3, Tier::T2) => BuildPower(bp.0 * 2),
        (Tier::T3, Tier::T1) => BuildPower(bp.0 * 4),
        _ => BuildPower(0),
    }
}

/// Labor output capacity of one piece of the given equipment per turn.
/// `None` means no equipment is involved; a task without a tool is never
/// bottlenecked by equipment, which the table renders as the largest
/// representable capacity.
pub open spec fn spec_stationary_build_power(stationary: Stationary) -> nat {
    match stationary {
        Stationary::NoTool => usize::MAX as nat,
        Stationary::BenchToolT1 => 10,
        Stationary::BenchToolT2 => 20,
        Stationary::BenchToolT3 => 40,
        Stationary::FormatFurnace => 10,
        Stationary::LabT1 => 10,
        Stationary::LabT2 => 10,
        Stationary::LabT3 => 10,
        Stationary::Barrel => 10,
        Stationary::NeuroTerminal => 10,
    }
}

/// How much work one piece of this equipment can host per turn.
pub fn stationary_build_power(stationary: Stationary) -> (r: BuildPower)
    ensures
        r.0 == spec_stationary_build_power(stationary),
{
    match stationary {
        Stationary::NoTool => BuildPower(usize::MAX),
        Stationary::BenchToolT1 => BuildPower(10),
        Stationary::BenchToolT2 => BuildPower(20),
        Stationary::BenchToolT3 => BuildPower(40),
        Stationary::FormatFurnace => BuildPower(10),
        Stationary::LabT1 => BuildPower(10),
        Stationary::LabT2 => BuildPower(10),
        Stationary::LabT3 => BuildPower(10),
        Stationary::Barrel => BuildPower(10),
        Stationary::NeuroTerminal => BuildPower(10),
    }
}

/// Materials needed to build the given stationary kind.
pub open spec fn spec_stationary_required_resources(stationary: Stationary) -> Seq<
    (Resource, RealUnits),
> {
    match stationary {
        Stationary::NoTool => Seq::empty(),
        _ => seq![(Resource::ScrapT1, RealUnits(1))],
    }
}

/// What materials it takes to build this stationary kind.
pub fn stationary_required_resources(stationary: Stationary) -> (r: Vec<(Resource, RealUnits)>)
    ensures
        r@ == spec_stationary_required_resources(stationary),
{
    let mut r: Vec<(Resource, RealUnits)> = Vec::new();
    match stationary {
        Stationary::NoTool => {},
        _ => {
            r.push((Resource::ScrapT1, RealUnits(1)));
        },
    }
    proof {
        assert(r@ =~= spec_stationary_required_resources(stationary));
    }
    r
}

/// Labor obligations for building the given stationary kind.
pub open spec fn spec_stationary_requirements(target: Stationary) -> Seq<TaskMeta> {
    match target {
        Stationary::NoTool => Seq::empty(),
        Stationary::BenchToolT1 => seq![
            TaskMeta {
                prof: Profession::Worker,
                tier: Tier::T1,
                bp: BuildPower(1000),
                stationary: Stationary::NoTool,
            },
        ],
        _ => seq![
            TaskMeta {
                prof: Profession::Worker,
                tier: Tier::T1,
                bp: BuildPower(10),
                stationary: Stationary::NoTool,
            },
        ],
    }
}

/// What labor, at which tier and on which equipment, it takes to build
/// this stationary kind.
pub fn stationary_requirements(target: Stationary) -> (r: Vec<TaskMeta>)
    ensures
        r@ == spec_stationary_requirements(target),
{
    let mut r: Vec<TaskMeta> = Vec::new();
    match target {
        Stationary::NoTool => {},
        Stationary::BenchToolT1 => {
            r.push(
                TaskMeta {
                    prof: Profession::Worker,
                    tier: Tier::T1,
                    bp: BuildPower(1000),
                    stationary: Stationary::NoTool,
                },
            );
        },
        _ => {
            r.push(
                TaskMeta {
                    prof: Profession::Worker,
                    tier: Tier::T1,
                    bp: BuildPower(10),
                    stationary: Stationary::NoTool,
                },
            );
        },
    }
    proof {
        assert(r@ =~= spec_stationary_requirements(target));
    }
    r
}

/// Labor obligations for erecting a germ of the given tier.
pub open spec fn spec_germ_requirements(germ: Germ) -> Seq<TaskMeta> {
    seq![
        TaskMeta {
            prof: Profession::Worker,
            tier: Tier::T1,
            bp: BuildPower(10),
            stationary: Stationary::NoTool,
        },
    ]
}

/// What labor it takes to erect a germ of this tier.
pub fn germ_requirements(germ: Germ) -> (r: Vec<TaskMeta>)
    ensures
        r@ == spec_germ_requirements(germ),
{
    let mut r: Vec<TaskMeta> = Vec::new();
    r.push(
        TaskMeta {
            prof: Profession::Worker,
            tier: Tier::T1,
            bp: BuildPower(10),
            stationary: Stationary::NoTool,
        },
    );
    proof {
        assert(r@ =~= spec_germ_requirements(germ));
    }
    r
}

/// Total labor asked for by a list of obligations.
pub open spec fn metas_total(l: Seq<TaskMeta>) -> int
    decreases l.len(),
{
    if l.len() == 0 {
        0
    } else {
        metas_total(l.drop_last()) + l.last().bp.0
    }
}

/// The obligations of a task, with the remaining labor of each.
pub open spec fn obligations_total(l: Seq<(Profession, Tier, Stationary, BuildPower)>) -> int
    decreases l.len(),
{
    if l.len() == 0 {
        0
    } else {
        obligations_total(l.drop_last()) + l.last().3.0
    }
}

pub proof fn lemma_metas_total_take_step(l: Seq<TaskMeta>, j: int)
    requires
        0 <= j < l.len(),
    ensures
        metas_total(l.take(j + 1)) == metas_total(l.take(j)) + l[j].bp.0,
{
    assert(l.take(j + 1).drop_last() =~= l.take(j));
    assert(l.take(j + 1).last() == l[j]);
}

pub proof fn lemma_metas_total_nonneg(l: Seq<TaskMeta>)
    ensures
        metas_total(l) >= 0,
    decreases l.len(),
{
    if l.len() > 0 {
        lemma_metas_total_nonneg(l.drop_last());
    }
}

pub proof fn lemma_metas_total_take_le(l: Seq<TaskMeta>, j: int)
    requires
        0 <= j <= l.len(),
    ensures
        metas_total(l.take(j)) <= metas_total(l),
    decreases l.len() - j,
{
    if j == l.len() {
        assert(l.take(j) =~= l);
    } else {
        lemma_metas_total_take_step(l, j);
        lemma_metas_total_take_le(l, j + 1);
    }
}

pub proof fn lemma_obligations_total_push(
    l: Seq<(Profession, Tier, Stationary, BuildPower)>,
    x: (Profession, Tier, Stationary, BuildPower),
)
    ensures
        obligations_total(l.push(x)) == obligations_total(l) + x.3.0,
{
    assert(l.push(x).drop_last() =~= l);
}

/// The obligation list a requirement list turns into.
pub open spec fn spec_obligations(metas: Seq<TaskMeta>) -> Seq<
    (Profession, Tier, Stationary, BuildPower),
> {
    metas.map_values(|m: TaskMeta| (m.prof, m.tier, m.stationary, m.bp))
}

/// Turn a requirement list into the progress record of a fresh task: no
/// labor invested yet, the whole requirement outstanding, one open
/// obligation per requirement entry.
pub fn task_meta2progress(meta: Vec<TaskMeta>) -> (r: TaskProgress)
    requires
        metas_total(meta@) <= usize::MAX,
    ensures
        r.bp_invested.0 == 0,
        r.bp_required.0 == metas_total(meta@),
        r.who_should_finish@ == spec_obligations(meta@),
        crate::world::progress_ok(r),
{
    let mut total: usize = 0;
    let mut who: Vec<(Profession, Tier, Stationary, BuildPower)> = Vec::new();
    let mut i: usize = 0;
    proof {
        lemma_metas_total_nonneg(meta@);
    }
    while i < meta.len()
        invariant
            metas_total(meta@) <= usize::MAX,
            i <= meta@.len(),
            total == metas_total(meta@.take(i as int)),
            obligations_total(who@) == total,
            who@ == spec_obligations(meta@.take(i as int)),
        decreases meta@.len() - i,
    {
        let m = meta[i];
        proof {
            lemma_metas_total_take_step(meta@, i as int);
            lemma_metas_total_take_le(meta@, i as int + 1);
            lemma_metas_total_nonneg(meta@.take(i as int));
            lemma_obligations_total_push(who@, (m.prof, m.tier, m.stationary, m.bp));
            assert(meta@.take(i as int + 1) =~= meta@.take(i as int).push(meta@[i as int]));
            assert(spec_obligations(meta@.take(i as int + 1)) =~= spec_obligations(
                meta@.take(i as int),
            ).push((m.prof, m.tier, m.stationary, m.bp)));
        }
        total = total + m.bp.0;
        who.push((m.prof, m.tier, m.stationary, m.bp));
        i = i + 1;
    }
    proof {
        assert(meta@.take(meta@.len() as int) =~= meta@);
    }
    TaskProgress { bp_required: BuildPower(total), bp_invested: BuildPower(0), who_should_finish: who }
}

/// Capacity of the room a germ of this tier provides.
fn germ_capacity(germ: Germ) -> (r: AreaCapacity)
    ensures
        r.0 == spec_germ_capacity(germ),
{
    match germ {
        Germ::GermT1 => AreaCapacity(3000),
        Germ::GermT2 => AreaCapacity(15000),
        Germ::GermT3 => AreaCapacity(50000),
    }
}

/// Erect a germ: a new room of the given purpose comes into being in
/// `Constructing` state, with the germ tier's capacity and a fresh
/// construction task. It becomes usable once the task completes.
pub fn install_germ(world: &mut crate::world::World, germ: Germ, purpose: AreaType) -> (e: Entity)
    requires
        crate::world::wf(old(world)@),
        old(world)@.len() < crate::world::MAX_ENT,
    ensures
        crate::world::wf(final(world)@),
        e.0 == old(world)@.len(),
        final(world)@.len() == old(world)@.len() + 1,
        forall|j: int| 0 <= j < old(world)@.len() ==> final(world)@[j] == old(world)@[j],
        ({
            let c = final(world)@[old(world)@.len() as int]->0;
            &&& final(world)@[old(world)@.len() as int] is Some
            &&& c.germ == Some(germ)
            &&& c.area_type == Some(purpose)
            &&& c.capacity == Some(AreaCapacity(spec_germ_capacity(germ) as usize))
            &&& c.status == Some(TaskStatus::Constructing)
            &&& c.priority == Some(TaskPriority(0))
            &&& c.room is None
            &&& c.occupied is None
            &&& c.resource is None
            &&& c.profession is None
            &&& c.mood is None
            &&& c.satiety is None
            &&& c.stationary is None
            &&& c.progress is Some
            &&& (c.progress->0).bp_invested.0 == 0
            &&& (c.progress->0).bp_required.0 == metas_total(spec_germ_requirements(germ))
            &&& (c.progress->0).who_should_finish@ == spec_obligations(
                spec_germ_requirements(germ),
            )
        }),
        forall|m: crate::world::Meas|
            #[trigger] crate::world::meas_sum(final(world)@, m) == crate::world::meas_sum(
                old(world)@,
                m,
            ) + crate::world::meas_val(m, final(world)@[old(world)@.len() as int]),
{
    let reqs = germ_requirements(germ);
    proof {
        let l = spec_germ_requirements(germ);
        assert(l.len() == 1);
        assert(l.drop_last() =~= Seq::<TaskMeta>::empty());
        assert(metas_total(l.drop_last()) == 0);
        assert(l.last().bp.0 == 10);
        assert(metas_total(l) == 10);
    }
    let progress = task_meta2progress(reqs);
    let c = crate::world::Components {
        area_type: Some(purpose),
        capacity: Some(germ_capacity(germ)),
        occupied: None,
        room: None,
        status: Some(TaskStatus::Constructing),
        priority: Some(TaskPriority(0)),
        progress: Some(progress),
        germ: Some(germ),
        stationary: None,
        resource: None,
        profession: None,
        tier: None,
        satiety: None,
        mood: None,
    };
    proof {
        crate::world::lemma_push_slot_wf(world@, c);
    }
    world.push_slot(c)
}

/// Some slot holds a piece of the given equipment in `Ready` state.
pub open spec fn has_ready_stationary(
    s: Seq<Option<crate::world::Components>>,
    st: Stationary,
) -> bool {
    exists|j: int|
        0 <= j < s.len() && s[j] is Some && s[j]->0.stationary == Some(st) && s[j]->0.status
            == Some(TaskStatus::Ready)
}

/// Is there a ready piece of this equipment anywhere in the colony?
fn find_ready_stationary(world: &crate::world::World, st: Stationary) -> (r: bool)
    ensures
        r == has_ready_stationary(world@, st),
{
    let n = world.num_slots();
    let mut i: usize = 0;
    while i < n
        invariant
            n == world@.len(),
            i <= n,
            forall|j: int|
                0 <= j < i ==> !((#[trigger] world@[j]) is Some && world@[j]->0.stationary
                    == Some(st) && world@[j]->0.status == Some(TaskStatus::Ready)),
        decreases n - i,
    {
        match world.slot(i) {
            Some(c) => match (&c.stationary, &c.status) {
                (Some(k), Some(ts)) => {
                    if *k == st && *ts == TaskStatus::Ready {
                        return true;
                    }
                },
                _ => {},
            },
            None => {},
        }
        i = i + 1;
    }
    false
}

/// Units of `res` in a held-resources listing; a kind not listed counts
/// as zero. The first entry of a kind decides.
pub open spec fn lookup_from(list: Seq<(Resource, RealUnits)>, res: Resource, i: int) -> int
    decreases list.len() - i,
{
    if !(0 <= i < list.len()) {
        0
    } else if list[i].0 == res {
        list[i].1.0 as int
    } else {
        lookup_from(list, res, i + 1)
    }
}

/// Units of `res` in a held-resources listing.
pub open spec fn lookup_units(list: Seq<(Resource, RealUnits)>, res: Resource) -> int {
    lookup_from(list, res, 0)
}

/// Units of this resource in the given holdings listing.
fn lookup_units_exec(list: &Vec<(Resource, RealUnits)>, res: Resource) -> (r: usize)
    ensures
        r == lookup_units(list@, res),
{
    let mut i: usize = 0;
    while i < list.len()
        invariant
            i <= list@.len(),
            lookup_units(list@, res) == lookup_from(list@, res, i as int),
        decreases list@.len() - i,
    {
        let (q, amount) = list[i];
        if q == res {
            return amount.0;
        }
        i = i + 1;
    }
    0
}

/// The deficits `what_not_enough` reports, over the first `n` entries of
/// the requirement listing: every kind whose requirement exceeds the
/// holdings, with the missing amount.
pub open spec fn spec_deficits_upto(
    exist: Seq<(Resource, RealUnits)>,
    required: Seq<(Resource, RealUnits)>,
    n: int,
) -> Seq<(Resource, RealUnits)>
    decreases n,
{
    if n <= 0 {
        Seq::empty()
    } else {
        let pre = spec_deficits_upto(exist, required, n - 1);
        let res = required[n - 1].0;
        let amt = required[n - 1].1.0 as int;
        let have = lookup_units(exist, res);
        if amt > have {
            pre.push((res, RealUnits((amt - have) as usize)))
        } else {
            pre
        }
    }
}

/// What the requirement listing asks for beyond the holdings listing.
pub open spec fn spec_deficits(
    exist: Seq<(Resource, RealUnits)>,
    required: Seq<(Resource, RealUnits)>,
) -> Seq<(Resource, RealUnits)> {
    spec_deficits_upto(exist, required, required.len() as int)
}

/// Which required amounts the holdings fall short of, and by how much;
/// kinds that are covered are left out.
pub fn what_not_enough(
    exist: Vec<(Resource, RealUnits)>,
    required: Vec<(Resource, RealUnits)>,
) -> (r: Vec<(Resource, RealUnits)>)
    ensures
        r@ == spec_deficits(exist@, required@),
{
    let mut r: Vec<(Resource, RealUnits)> = Vec::new();
    let mut i: usize = 0;
    while i < required.len()
        invariant
            i <= required@.len(),
            r@ == spec_deficits_upto(exist@, required@, i as int),
        decreases required@.len() - i,
    {
        let (res, amount) = required[i];
        let have = lookup_units_exec(&exist, res);
        if amount.0 > have {
            r.push((res, RealUnits(amount.0 - have)));
        }
        i = i + 1;
    }
    r
}

/// The elements of `req` that `exist` lacks, each listed once.
pub fn diff2hset(req: &Vec<Stationary>, exist: &Vec<Stationary>) -> (r: Vec<Stationary>)
    ensures
        forall|x: Stationary|
            #[trigger] r@.contains(x) <==> (req@.contains(x) && !exist@.contains(x)),
{
    let mut r: Vec<Stationary> = Vec::new();
    let mut i: usize = 0;
    while i < req.len()
        invariant
            i <= req@.len(),
            forall|x: Stationary|
                #[trigger] r@.contains(x) <==> (req@.take(i as int).contains(x)
                    && !exist@.contains(x)),
        decreases req@.len() - i,
    {
        let x = req[i];
        let mut in_exist = false;
        let mut k: usize = 0;
        while k < exist.len()
            invariant
                k <= exist@.len(),
                in_exist <==> exists|j: int| 0 <= j < k && exist@[j] == x,
            decreases exist@.len() - k,
        {
            if exist[k] == x {
                in_exist = true;
            }
            k = k + 1;
        }
        let mut in_r = false;
        let mut k2: usize = 0;
        while k2 < r.len()
            invariant
                k2 <= r@.len(),
                in_r <==> exists|j: int| 0 <= j < k2 && r@[j] == x,
            decreases r@.len() - k2,
        {
            if r[k2] == x {
                in_r = true;
            }
            k2 = k2 + 1;
        }
        let ghost r0 = r@;
        if !in_exist && !in_r {
            r.push(x);
        }
        proof {
            assert(req@.take(i as int + 1) =~= req@.take(i as int).push(req@[i as int]));
            assert(req@.take(i as int + 1) == req@.take(i as int).push(x));
            assert forall|y: Stationary| #[trigger]
                r@.contains(y) <==> (req@.take(i as int + 1).contains(y) && !exist@.contains(
                    y,
                )) by {
                vstd::seq_lib::lemma_seq_contains_after_push(req@.take(i as int), x, y);
                vstd::seq_lib::lemma_seq_contains_after_push(r0, x, y);
                if r0.contains(y) {
                    assert(r@.contains(y)) by {
                        let j = choose|j: int| 0 <= j < r0.len() && r0[j] == y;
                        assert(r@[j] == y);
                    }
                }
            }
        }
        i = i + 1;
    }
    proof {
        assert(req@.take(req@.len() as int) =~= req@);
    }
    r
}

/// What is lacking for a build: the equipment kinds not installed, the
/// profession and tier pairings nobody holds, the resource deficits, and
/// whether a room could host the work at all.
pub type WhatNotEnough = (Vec<Stationary>, Vec<(Profession, Tier)>, Vec<(Resource, RealUnits)>, bool);

/// Every requirement entry names equipment that is ready (or no tool).
pub open spec fn equips_ok(s: Seq<Option<crate::world::Components>>, st: Stationary) -> bool {
    forall|k: int|
        0 <= k < spec_stationary_requirements(st).len() ==> ((
        #[trigger] spec_stationary_requirements(st)[k]).stationary == Stationary::NoTool
            || has_ready_stationary(s, spec_stationary_requirements(st)[k].stationary))
}

/// Every requirement entry names a profession and tier someone holds.
pub open spec fn people_ok(s: Seq<Option<crate::world::Components>>, st: Stationary) -> bool {
    forall|k: int|
        0 <= k < spec_stationary_requirements(st).len() ==> crate::world::count_people(
            s,
            (#[trigger] spec_stationary_requirements(st)[k]).prof,
            spec_stationary_requirements(st)[k].tier,
        ) > 0
}

/// The holdings cover the material cost.
pub open spec fn resources_ok(exist: Seq<(Resource, RealUnits)>, st: Stationary) -> bool {
    forall|k: int|
        0 <= k < spec_stationary_required_resources(st).len() ==> lookup_units(
            exist,
            (#[trigger] spec_stationary_required_resources(st)[k]).0,
        ) >= spec_stationary_required_resources(st)[k].1.0
}

/// Some ready industrial room can host the object.
pub open spec fn room_ok(s: Seq<Option<crate::world::Components>>, st: Stationary) -> bool {
    exists|j: usize|
        crate::world::is_ready_room(s, j) && crate::world::room_type(s, j)
            == AreaType::Industrial && #[trigger] crate::world::free_in_room(s, j)
            >= spec_stationary_size(st)
}

/// Can the colony start building this stationary kind? On success the
/// room that would host it is returned; on failure, what is lacking:
/// the missing equipment kinds, the missing profession and tier pairs,
/// the resource deficits against `exist_rsrcs`, and whether a hosting
/// room exists.
pub fn can_build_stationary(
    world: &crate::world::World,
    exist_rsrcs: Vec<(Resource, RealUnits)>,
    stationary: Stationary,
) -> (r: Result<Entity, WhatNotEnough>)
    requires
        crate::world::wf(world@),
    ensures
        r is Ok <==> (equips_ok(world@, stationary) && people_ok(world@, stationary)
            && resources_ok(exist_rsrcs@, stationary) && room_ok(world@, stationary)),
        match r {
            Ok(e) => crate::world::is_ready_room(world@, e.0) && crate::world::room_type(
                world@,
                e.0,
            ) == AreaType::Industrial && crate::world::free_in_room(world@, e.0)
                >= spec_stationary_size(stationary),
            Err(w) => {
                &&& w.3 == room_ok(world@, stationary)
                &&& (forall|x: Stationary|
                    #[trigger] w.0@.contains(x) <==> (x != Stationary::NoTool
                        && !has_ready_stationary(world@, x) && exists|k: int|
                        0 <= k < spec_stationary_requirements(stationary).len() && (
                        #[trigger] spec_stationary_requirements(stationary)[k]).stationary == x))
                &&& (forall|x: (Profession, Tier)|
                    #[trigger] w.1@.contains(x) <==> (crate::world::count_people(
                        world@,
                        x.0,
                        x.1,
                    ) == 0 && exists|k: int|
                        0 <= k < spec_stationary_requirements(stationary).len() && ((
                        #[trigger] spec_stationary_requirements(stationary)[k]).prof,
                        spec_stationary_requirements(stationary)[k].tier) == x))
                &&& w.2@ == spec_deficits(
                    exist_rsrcs@,
                    spec_stationary_required_resources(stationary),
                )
            },
        },
{
    let reqs = stationary_requirements(stationary);
    let mut missing_st: Vec<Stationary> = Vec::new();
    let mut missing_ppl: Vec<(Profession, Tier)> = Vec::new();
    let mut i: usize = 0;
    while i < reqs.len()
        invariant
            crate::world::wf(world@),
            reqs@ == spec_stationary_requirements(stationary),
            i <= reqs@.len(),
            forall|x: Stationary|
                #[trigger] missing_st@.contains(x) <==> (x != Stationary::NoTool
                    && !has_ready_stationary(world@, x) && exists|k: int|
                    0 <= k < i && (#[trigger] reqs@[k]).stationary == x),
            forall|x: (Profession, Tier)|
                #[trigger] missing_ppl@.contains(x) <==> (crate::world::count_people(
                    world@,
                    x.0,
                    x.1,
                ) == 0 && exists|k: int|
                    0 <= k < i && ((#[trigger] reqs@[k]).prof, reqs@[k].tier) == x),
        decreases reqs@.len() - i,
    {
        let m = reqs[i];
        let ghost ms0 = missing_st@;
        if !matches!(m.stationary, Stationary::NoTool) {
            let ready = find_ready_stationary(world, m.stationary);
            if !ready {
                let mut seen = false;
                let mut k: usize = 0;
                while k < missing_st.len()
                    invariant
                        k <= missing_st@.len(),
                        seen <==> exists|j: int| 0 <= j < k && missing_st@[j] == m.stationary,
                    decreases missing_st@.len() - k,
                {
                    if missing_st[k] == m.stationary {
                        seen = true;
                    }
                    k = k + 1;
                }
                if !seen {
                    missing_st.push(m.stationary);
                }
            }
        }
        proof {
            assert forall|x: Stationary| #[trigger]
                missing_st@.contains(x) <==> (x != Stationary::NoTool && !has_ready_stationary(
                    world@,
                    x,
                ) && exists|k: int|
                    0 <= k < i + 1 && (#[trigger] reqs@[k]).stationary == x) by {
                vstd::seq_lib::lemma_seq_contains_after_push(ms0, m.stationary, x);
                if ms0.contains(x) {
                    let j = choose|j: int| 0 <= j < ms0.len() && ms0[j] == x;
                    assert(missing_st@[j] == x);
                    assert(missing_st@.contains(x));
                }
                if x != Stationary::NoTool && !has_ready_stationary(world@, x) && exists|k: int|
                    0 <= k < i + 1 && (#[trigger] reqs@[k]).stationary == x {
                    let k = choose|k: int|
                        0 <= k < i + 1 && (#[trigger] reqs@[k]).stationary == x;
                    if k < i {
                        assert(ms0.contains(x));
                    }
                }
            }
        }
        let have_people = crate::people::count_people_of(world, m.prof, m.tier);
        let ghost mp0 = missing_ppl@;
        if have_people == 0 {
            let mut seen = false;
            let mut k: usize = 0;
            while k < missing_ppl.len()
                invariant
                    k <= missing_ppl@.len(),
                    seen <==> exists|j: int|
                        0 <= j < k && missing_ppl@[j] == (m.prof, m.tier),
                decreases missing_ppl@.len() - k,
            {
                if missing_ppl[k].0 == m.prof && missing_ppl[k].1 == m.tier {
                    seen = true;
                }
                k = k + 1;
            }
            if !seen {
                missing_ppl.push((m.prof, m.tier));
            }
        }
        proof {
            assert forall|x: (Profession, Tier)| #[trigger]
                missing_ppl@.contains(x) <==> (crate::world::count_people(world@, x.0, x.1) == 0
                    && exists|k: int|
                    0 <= k < i + 1 && ((#[trigger] reqs@[k]).prof, reqs@[k].tier) == x) by {
                vstd::seq_lib::lemma_seq_contains_after_push(mp0, (m.prof, m.tier), x);
                if mp0.contains(x) {
                    let j = choose|j: int| 0 <= j < mp0.len() && mp0[j] == x;
                    assert(missing_ppl@[j] == x);
                    assert(missing_ppl@.contains(x));
                }
                if crate::world::count_people(world@, x.0, x.1) == 0 && exists|k: int|
                    0 <= k < i + 1 && ((#[trigger] reqs@[k]).prof, reqs@[k].tier) == x {
                    let k = choose|k: int|
                        0 <= k < i + 1 && ((#[trigger] reqs@[k]).prof, reqs@[k].tier) == x;
                    if k < i {
                        assert(mp0.contains(x));
                    }
                }
            }
        }
        i = i + 1;
    }
    let req_rsrcs = stationary_required_resources(stationary);
    let res_diff = what_not_enough(exist_rsrcs, req_rsrcs);
    let room = crate::area::get_sufficent_room(
        world,
        stationary_size(stationary),
        AreaType::Industrial,
    );
    let room_found = matches!(room, Some(_));
    proof {
        // an empty missing list means the requirement walk found no gap
        if missing_st@.len() == 0 {
            assert forall|k: int|
                0 <= k < reqs@.len() implies ((#[trigger] reqs@[k]).stationary
                == Stationary::NoTool || has_ready_stationary(world@, reqs@[k].stationary)) by {
                if reqs@[k].stationary != Stationary::NoTool && !has_ready_stationary(
                    world@,
                    reqs@[k].stationary,
                ) {
                    assert(missing_st@.contains(reqs@[k].stationary));
                }
            }
        } else {
            assert(missing_st@.contains(missing_st@[0]));
            assert(!equips_ok(world@, stationary));
        }
        if missing_ppl@.len() == 0 {
            assert forall|k: int|
                0 <= k < reqs@.len() implies crate::world::count_people(
                world@,
                (#[trigger] reqs@[k]).prof,
                reqs@[k].tier,
            ) > 0 by {
                if crate::world::count_people(world@, reqs@[k].prof, reqs@[k].tier) <= 0 {
                    crate::world::lemma_meas_sum_nonneg(
                        world@,
                        crate::world::Meas::People(reqs@[k].prof, reqs@[k].tier),
                    );
                    assert(missing_ppl@.contains((reqs@[k].prof, reqs@[k].tier)));
                }
            }
        } else {
            assert(missing_ppl@.contains(missing_ppl@[0]));
            assert(!people_ok(world@, stationary));
        }
        // an empty deficit list means the holdings cover the cost
        if res_diff@.len() == 0 {
            lemma_empty_deficits(
                exist_rsrcs@,
                spec_stationary_required_resources(stationary),
                spec_stationary_required_resources(stationary).len() as int,
            );
        } else {
            lemma_nonempty_deficits(
                exist_rsrcs@,
                spec_stationary_required_resources(stationary),
                spec_stationary_required_resources(stationary).len() as int,
            );
        }
        match room {
            Some(e) => {
                assert(room_ok(world@, stationary)) by {
                    assert(crate::world::free_in_room(world@, e.0) >= spec_stationary_size(
                        stationary,
                    ));
                }
            },
            None => {
                if room_ok(world@, stationary) {
                    let j = choose|j: usize|
                        crate::world::is_ready_room(world@, j) && crate::world::room_type(
                            world@,
                            j,
                        ) == AreaType::Industrial && #[trigger] crate::world::free_in_room(
                            world@,
                            j,
                        ) >= spec_stationary_size(stationary);
                    assert(crate::world::free_in_room(world@, j) < spec_stationary_size(
                        stationary,
                    ));
                }
            },
        }
    }
    if missing_st.len() == 0 && missing_ppl.len() == 0 && res_diff.len() == 0 && room_found {
        match room {
            Some(e) => Ok(e),
            None => {
                proof {
                    assert(false);
                }
                Err((missing_st, missing_ppl, res_diff, room_found))
            },
        }
    } else {
        Err((missing_st, missing_ppl, res_diff, room_found))
    }
}

/// The labor requirement table never asks for more than a fixed total.
proof fn lemma_stationary_reqs_total(st: Stationary)
    ensures
        0 <= metas_total(spec_stationary_requirements(st)) <= 1000,
        forall|k1: int, k2: int|
            0 <= k1 < k2 < spec_stationary_required_resources(st).len() ==> (
            #[trigger] spec_stationary_required_resources(st)[k1]).0 != (
            #[trigger] spec_stationary_required_resources(st)[k2]).0,
{
    let l = spec_stationary_requirements(st);
    if l.len() > 0 {
        assert(l.drop_last() =~= Seq::<TaskMeta>::empty());
        assert(metas_total(l.drop_last()) == 0);
    }
    assert(spec_stationary_required_resources(st).len() <= 1);
}

/// Measures that starting a build leaves untouched: the population, its
/// mood and satiety, the rooms, and the stock of kinds the build does not
/// consume.
pub open spec fn build_frame(m: crate::world::Meas, st: Stationary) -> bool {
    crate::storage::bunch_frame(m, spec_stationary_required_resources(st))
}

/// Start constructing a stationary object in the given room: its material
/// cost is withdrawn from storage as a bunch (the build proceeds even if
/// the stores fall short and nothing could be withdrawn), and a new
/// `Constructing` task entity is placed in the room. Fails, changing
/// nothing, when the room lacks the floor space.
pub fn start_build_task(
    world: &mut crate::world::World,
    stationary: Stationary,
    room: Entity,
    priority: TaskPriority,
) -> (r: Result<(), SamosborError>)
    requires
        crate::world::wf(old(world)@),
        old(world)@.len() < crate::world::MAX_ENT,
        crate::world::is_room(old(world)@, room.0),
    ensures
        crate::world::wf(final(world)@),
        crate::world::free_in_room(old(world)@, room.0) < spec_stationary_size(stationary) ==> r
            == Err::<(), SamosborError>(SamosborError::NotEnoughArea) && final(world)@ == old(
            world,
        )@,
        crate::world::free_in_room(old(world)@, room.0) >= spec_stationary_size(stationary) ==> {
            &&& r is Ok
            &&& final(world)@.len() == old(world)@.len() + 1
            &&& ({
                let c = final(world)@[old(world)@.len() as int]->0;
                &&& final(world)@[old(world)@.len() as int] is Some
                &&& c.stationary == Some(stationary)
                &&& c.status == Some(TaskStatus::Constructing)
                &&& c.room == Some(BelongsToRoom(room))
                &&& c.occupied == Some(AreaOccupied(spec_stationary_size(stationary) as usize))
                &&& c.priority == Some(TaskPriority(0))
                &&& c.capacity is None
                &&& c.resource is None
                &&& c.profession is None
                &&& c.mood is None
                &&& c.satiety is None
                &&& c.progress is Some
                &&& (c.progress->0).bp_invested.0 == 0
                &&& (c.progress->0).bp_required.0 == metas_total(
                    spec_stationary_requirements(stationary),
                )
                &&& (c.progress->0).who_should_finish@ == spec_obligations(
                    spec_stationary_requirements(stationary),
                )
            })
            &&& ((forall|k: int|
                0 <= k < spec_stationary_required_resources(stationary).len()
                    ==> crate::world::stock_units(
                    old(world)@,
                    (#[trigger] spec_stationary_required_resources(stationary)[k]).0,
                ) >= spec_stationary_required_resources(stationary)[k].1.0) ==> (forall|k: int|
                0 <= k < spec_stationary_required_resources(stationary).len()
                    ==> crate::world::stock_units(
                    final(world)@,
                    (#[trigger] spec_stationary_required_resources(stationary)[k]).0,
                ) == crate::world::stock_units(
                    old(world)@,
                    spec_stationary_required_resources(stationary)[k].0,
                ) - spec_stationary_required_resources(stationary)[k].1.0))
            &&& (!(forall|k: int|
                0 <= k < spec_stationary_required_resources(stationary).len()
                    ==> crate::world::stock_units(
                    old(world)@,
                    (#[trigger] spec_stationary_required_resources(stationary)[k]).0,
                ) >= spec_stationary_required_resources(stationary)[k].1.0) ==> (forall|
                res: Resource,
            |
                #[trigger] crate::world::stock_area(final(world)@, res)
                    == crate::world::stock_area(old(world)@, res)))
            &&& (forall|m: crate::world::Meas|
                build_frame(m, stationary) ==> #[trigger] crate::world::meas_sum(final(world)@, m)
                    == crate::world::meas_sum(old(world)@, m))
            &&& crate::world::occ_in_room(final(world)@, room.0) <= crate::world::occ_in_room(
                old(world)@,
                room.0,
            ) + spec_stationary_size(stationary)
            &&& (forall|rm: usize|
                rm != room.0 ==> #[trigger] crate::world::occ_in_room(final(world)@, rm)
                    <= crate::world::occ_in_room(old(world)@, rm))
        },
{
    let ghost s0 = old(world)@;
    let free = crate::area::get_room_free_space(world, room);
    let size = stationary_size(stationary);
    if free.0 < size.0 {
        return Err(SamosborError::NotEnoughArea);
    }
    let required = stationary_required_resources(stationary);
    proof {
        lemma_stationary_reqs_total(stationary);
    }
    let _ = crate::storage::writeoff_bunch(world, &required);
    let ghost s1 = world@;
    let reqs = stationary_requirements(stationary);
    let progress = task_meta2progress(reqs);
    let c = crate::world::Components {
        area_type: None,
        capacity: None,
        occupied: Some(size),
        room: Some(BelongsToRoom(room)),
        status: Some(TaskStatus::Constructing),
        priority: Some(TaskPriority(0)),
        progress: Some(progress),
        germ: None,
        stationary: Some(stationary),
        resource: None,
        profession: None,
        tier: None,
        satiety: None,
        mood: None,
    };
    proof {
        // the room slot is no container, so the withdrawal left it alone
        assert(crate::world::slot_ok(s0[room.0 as int]));
        assert(s1[room.0 as int] == s0[room.0 as int]);
        assert(crate::world::is_room(s1, room.0));
        assert(crate::world::occ_in_room(s1, room.0) <= crate::world::occ_in_room(s0, room.0));
        assert(crate::world::free_in_room(s1, room.0) >= spec_stationary_size(stationary));
        crate::world::lemma_push_slot_wf(s1, c);
    }
    let _e = world.push_slot(c);
    proof {
        assert forall|rm: usize|
            rm != room.0 implies #[trigger] crate::world::occ_in_room(final(world)@, rm)
            <= crate::world::occ_in_room(s0, rm) by {
            assert(crate::world::meas_sum(world@, crate::world::Meas::RoomOcc(rm))
                == crate::world::meas_sum(s1, crate::world::Meas::RoomOcc(rm))
                + crate::world::meas_val(crate::world::Meas::RoomOcc(rm), Some(c)));
            assert(crate::world::occ_in_room(s1, rm) <= crate::world::occ_in_room(s0, rm));
        }
    }
    Ok(())
}

/// One open obligation list, copied.
pub(crate) fn copy_obligations(v: &Vec<(Profession, Tier, Stationary, BuildPower)>) -> (r: Vec<
    (Profession, Tier, Stationary, BuildPower),
>)
    ensures
        r@ == v@,
{
    let mut r: Vec<(Profession, Tier, Stationary, BuildPower)> = Vec::new();
    let mut i: usize = 0;
    while i < v.len()
        invariant
            i <= v@.len(),
            r@ == v@.take(i as int),
        decreases v@.len() - i,
    {
        r.push(v[i]);
        proof {
            assert(v@.take(i as int + 1) =~= v@.take(i as int).push(v@[i as int]));
        }
        i = i + 1;
    }
    proof {
        assert(v@.take(v@.len() as int) =~= v@);
    }
    r
}

/// The slots holding stationary objects under construction, in order,
/// over the first `n` slots.
pub open spec fn spec_building_ids(s: Seq<Option<crate::world::Components>>, n: int) -> Seq<int>
    decreases n,
{
    if n <= 0 {
        Seq::empty()
    } else {
        let pre = spec_building_ids(s, n - 1);
        if s[n - 1] is Some && s[n - 1]->0.stationary is Some && s[n - 1]->0.progress is Some {
            pre.push(n - 1)
        } else {
            pre
        }
    }
}

/// What stationary objects are being built right now, each with its
/// progress, in slot order.
pub fn currently_building(world: &crate::world::World) -> (r: Vec<(Stationary, TaskProgress)>)
    requires
        crate::world::wf(world@),
    ensures
        r@.len() == spec_building_ids(world@, world@.len() as int).len(),
        forall|k: int|
            0 <= k < r@.len() ==> {
                let j = spec_building_ids(world@, world@.len() as int)[k];
                let c = world@[j]->0;
                &&& (#[trigger] r@[k]).0 == c.stationary->0
                &&& r@[k].1.bp_required == (c.progress->0).bp_required
                &&& r@[k].1.bp_invested == (c.progress->0).bp_invested
                &&& r@[k].1.who_should_finish@ == (c.progress->0).who_should_finish@
            },
{
    let n = world.num_slots();
    let mut r: Vec<(Stationary, TaskProgress)> = Vec::new();
    let mut i: usize = 0;
    while i < n
        invariant
            crate::world::wf(world@),
            n == world@.len(),
            i <= n,
            r@.len() == spec_building_ids(world@, i as int).len(),
            forall|k: int|
                0 <= k < r@.len() ==> {
                    let j = spec_building_ids(world@, i as int)[k];
                    let c = world@[j]->0;
                    &&& (#[trigger] r@[k]).0 == c.stationary->0
                    &&& r@[k].1.bp_required == (c.progress->0).bp_required
                    &&& r@[k].1.bp_invested == (c.progress->0).bp_invested
                    &&& r@[k].1.who_should_finish@ == (c.progress->0).who_should_finish@
                },
        decreases n - i,
    {
        match world.slot(i) {
            Some(c) => match (&c.stationary, &c.progress) {
                (Some(st), Some(p)) => {
                    let copy = TaskProgress {
                        bp_required: p.bp_required,
                        bp_invested: p.bp_invested,
                        who_should_finish: copy_obligations(&p.who_should_finish),
                    };
                    r.push((*st, copy));
                    proof {
                        assert(spec_building_ids(world@, i as int + 1) =~= spec_building_ids(
                            world@,
                            i as int,
                        ).push(i as int));
                    }
                },
                _ => {},
            },
            None => {},
        }
        i = i + 1;
    }
    r
}

/// An empty deficit listing means every requirement is covered.
proof fn lemma_empty_deficits(
    exist: Seq<(Resource, RealUnits)>,
    required: Seq<(Resource, RealUnits)>,
    n: int,
)
    requires
        n <= required.len(),
        spec_deficits_upto(exist, required, n).len() == 0,
    ensures
        forall|k: int|
            0 <= k < n ==> lookup_units(exist, (#[trigger] required[k]).0) >= required[k].1.0,
    decreases n,
{
    if n > 0 {
        lemma_empty_deficits(exist, required, n - 1);
    }
}

/// A nonempty deficit listing means some requirement is uncovered.
proof fn lemma_nonempty_deficits(
    exist: Seq<(Resource, RealUnits)>,
    required: Seq<(Resource, RealUnits)>,
    n: int,
)
    requires
        n <= required.len(),
        spec_deficits_upto(exist, required, n).len() > 0,
    ensures
        exists|k: int|
            0 <= k < n && lookup_units(exist, (#[trigger] required[k]).0) < required[k].1.0,
    decreases n,
{
    if n > 0 {
        if spec_deficits_upto(exist, required, n - 1).len() > 0 {
            lemma_nonempty_deficits(exist, required, n - 1);
        } else {
            assert(lookup_units(exist, required[n - 1].0) < required[n - 1].1.0);
        }
    }
}

} // verus!
