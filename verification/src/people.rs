//! Colonists: professions, satiety, and mood, with the population queries.

use vstd::prelude::*;

use crate::area::{AreaOccupied, BelongsToRoom};
use crate::base::{SamosborError, Tier};
use crate::world::{
    count_people, free_in_room, is_room, lemma_meas_sum_le_mul, lemma_meas_sum_nonneg,
    lemma_meas_sum_take_le, lemma_meas_sum_take_step, lemma_push_slot_wf, meas_sum, meas_val,
    occ_in_room, wf, Components, Entity, Meas, World, MAX_ENT,
};

verus! {

/// Highest mood a colonist can reach.
pub const MOOD_MAX: u8 = 10;

/// Satiety of a colonist. One turn costs 10 units; below 100 a colonist is
/// hungry and loses mood; below 10 the colonist dies of starvation.
#[derive(Clone, Copy, Debug, PartialEq, Eq, Structural)]
pub struct Satiety(pub u16);

/// Mood of a colonist, between 0 (miserable) and 10 (happy).
#[derive(Clone, Copy, Debug, PartialEq, Eq, Structural)]
pub struct Mood(pub u8);

/// Occupation of a colonist.
#[derive(Clone, Copy, Debug, PartialEq, Eq, Structural, Hash)]
pub enum Profession {
    /// No profession.
    NoProf,
    /// Scavenger.
    Stalker,
    /// Liquidator.
    Likvidator,
    /// Scientist.
    Scientist,
    /// Production worker.
    Worker,
    /// State functionary.
    Party,
}

/// Area one colonist takes up in their room.
pub const COMRAD_RENTED_PLACE: usize = 1000;

/// Satiety a freshly settled colonist starts with.
pub const SPAWN_SATIETY: u16 = 100;

/// Mood a freshly settled colonist starts with.
pub const SPAWN_MOOD: u8 = 5;

/// The component bag of a newly settled colonist of the given profession
/// and tier, housed in the given room.
pub open spec fn spec_colonist(prof: Profession, tier: Tier, room: Entity) -> Components {
    Components {
        area_type: None,
        capacity: None,
        occupied: Some(AreaOccupied(COMRAD_RENTED_PLACE)),
        room: Some(BelongsToRoom(room)),
        status: None,
        priority: None,
        progress: None,
        germ: None,
        stationary: None,
        resource: None,
        profession: Some(prof),
        tier: Some(tier),
        satiety: Some(Satiety(SPAWN_SATIETY)),
        mood: Some(Mood(SPAWN_MOOD)),
    }
}

/// Settle a new colonist into the given room. The room must have the
/// colonist's floor space free; otherwise nothing changes and the call
/// reports the lack of area.
pub fn spawn_comrad(world: &mut World, prof: Profession, tier: Tier, room: Entity) -> (r: Result<
    Entity,
    SamosborError,
>)
    requires
        wf(old(world)@),
        old(world)@.len() < MAX_ENT,
        is_room(old(world)@, room.0),
        tier != Tier::NoTier,
    ensures
        wf(final(world)@),
        free_in_room(old(world)@, room.0) >= COMRAD_RENTED_PLACE ==> r == Ok::<
            Entity,
            SamosborError,
        >(Entity(old(world)@.len() as usize)) && final(world)@ == old(world)@.push(
            Some(spec_colonist(prof, tier, room)),
        ),
        free_in_room(old(world)@, room.0) < COMRAD_RENTED_PLACE ==> r == Err::<
            Entity,
            SamosborError,
        >(SamosborError::NotEnoughArea) && final(world)@ == old(world)@,
{
    let free = crate::area::get_room_free_space(world, room);
    if free.0 < COMRAD_RENTED_PLACE {
        return Err(SamosborError::NotEnoughArea);
    }
    let c = Components {
        area_type: None,
        capacity: None,
        occupied: Some(AreaOccupied(COMRAD_RENTED_PLACE)),
        room: Some(BelongsToRoom(room)),
        status: None,
        priority: None,
        progress: None,
        germ: None,
        stationary: None,
        resource: None,
        profession: Some(prof),
        tier: Some(tier),
        satiety: Some(Satiety(SPAWN_SATIETY)),
        mood: Some(Mood(SPAWN_MOOD)),
    };
    proof {
        lemma_push_slot_wf(world@, spec_colonist(prof, tier, room));
    }
    let e = world.push_slot(c);
    Ok(e)
}

/// Number of colonists of the given profession and tier.
pub(crate) fn count_people_of(world: &World, prof: Profession, tier: Tier) -> (r: usize)
    requires
        wf(world@),
    ensures
        r == count_people(world@, prof, tier),
{
    let n = world.num_slots();
    let mut count: usize = 0;
    let mut i: usize = 0;
    while i < n
        invariant
            wf(world@),
            n == world@.len(),
            i <= n,
            count == meas_sum(world@.take(i as int), Meas::People(prof, tier)),
            count <= i,
        decreases n - i,
    {
        let v: usize = match world.slot(i) {
            Some(c) => match (&c.profession, &c.tier) {
                (Some(p), Some(t)) => if *p == prof && *t == tier {
                    1
                } else {
                    0
                },
                _ => 0,
            },
            None => 0,
        };
        proof {
            assert(v == meas_val(Meas::People(prof, tier), world@[i as int]));
            lemma_meas_sum_take_step(world@, Meas::People(prof, tier), i as int);
        }
        count = count + v;
        i = i + 1;
    }
    proof {
        assert(world@.take(n as int) =~= world@);
    }
    count
}

/// Every profession and tier pairing, in a fixed order.
pub open spec fn spec_all_prof_tiers() -> Seq<(Profession, Tier)> {
    seq![
        (Profession::NoProf, Tier::T1),
        (Profession::NoProf, Tier::T2),
        (Profession::NoProf, Tier::T3),
        (Profession::Stalker, Tier::T1),
        (Profession::Stalker, Tier::T2),
        (Profession::Stalker, Tier::T3),
        (Profession::Likvidator, Tier::T1),
        (Profession::Likvidator, Tier::T2),
        (Profession::Likvidator, Tier::T3),
        (Profession::Scientist, Tier::T1),
        (Profession::Scientist, Tier::T2),
        (Profession::Scientist, Tier::T3),
        (Profession::Worker, Tier::T1),
        (Profession::Worker, Tier::T2),
        (Profession::Worker, Tier::T3),
        (Profession::Party, Tier::T1),
        (Profession::Party, Tier::T2),
        (Profession::Party, Tier::T3),
    ]
}

/// The census `people_by_profession` returns, over the first `n` entries
/// of the pairing list: every profession and tier with people present,
/// with their number.
pub open spec fn spec_census_upto(s: Seq<Option<Components>>, n: int) -> Seq<
    ((Profession, Tier), usize),
>
    decreases n,
{
    if n <= 0 {
        Seq::empty()
    } else {
        let pre = spec_census_upto(s, n - 1);
        let pair = spec_all_prof_tiers()[n - 1];
        if count_people(s, pair.0, pair.1) > 0 {
            pre.push((pair, count_people(s, pair.0, pair.1) as usize))
        } else {
            pre
        }
    }
}

/// How many colonists of each profession and tier the colony has; pairs
/// with nobody are left out.
pub fn people_by_profession(world: &World) -> (r: Vec<((Profession, Tier), usize)>)
    requires
        wf(world@),
    ensures
        r@ == spec_census_upto(world@, spec_all_prof_tiers().len() as int),
{
    let pairs: Vec<(Profession, Tier)> = vec![
        (Profession::NoProf, Tier::T1),
        (Profession::NoProf, Tier::T2),
        (Profession::NoProf, Tier::T3),
        (Profession::Stalker, Tier::T1),
        (Profession::Stalker, Tier::T2),
        (Profession::Stalker, Tier::T3),
        (Profession::Likvidator, Tier::T1),
        (Profession::Likvidator, Tier::T2),
        (Profession::Likvidator, Tier::T3),
        (Profession::Scientist, Tier::T1),
        (Profession::Scientist, Tier::T2),
        (Profession::Scientist, Tier::T3),
        (Profession::Worker, Tier::T1),
        (Profession::Worker, Tier::T2),
        (Profession::Worker, Tier::T3),
        (Profession::Party, Tier::T1),
        (Profession::Party, Tier::T2),
        (Profession::Party, Tier::T3),
    ];
    proof {
        assert(pairs@ =~= spec_all_prof_tiers());
    }
    let mut r: Vec<((Profession, Tier), usize)> = Vec::new();
    let mut i: usize = 0;
    while i < pairs.len()
        invariant
            wf(world@),
            pairs@ == spec_all_prof_tiers(),
            i <= pairs@.len(),
            r@ == spec_census_upto(world@, i as int),
        decreases pairs@.len() - i,
    {
        let (p, t) = pairs[i];
        let count = count_people_of(world, p, t);
        if count > 0 {
            r.push(((p, t), count));
        }
        i = i + 1;
    }
    r
}

/// Settle the standard liquidator squad into the given room: a tier-2
/// sergeant and thirteen tier-1 liquidators. Fails, leaving the world
/// unchanged, if the room cannot house all fourteen.
pub fn spawn_1_g(world: &mut World, room: Entity) -> (r: Result<(), SamosborError>)
    requires
        wf(old(world)@),
        old(world)@.len() + 14 <= MAX_ENT,
        is_room(old(world)@, room.0),
    ensures
        wf(final(world)@),
        free_in_room(old(world)@, room.0) < 14 * COMRAD_RENTED_PLACE ==> r == Err::<
            (),
            SamosborError,
        >(SamosborError::NotEnoughArea) && final(world)@ == old(world)@,
        free_in_room(old(world)@, room.0) >= 14 * COMRAD_RENTED_PLACE ==> {
            &&& r is Ok
            &&& final(world)@.len() == old(world)@.len() + 14
            &&& (forall|j: int| 0 <= j < old(world)@.len() ==> final(world)@[j] == old(world)@[j])
            &&& final(world)@[old(world)@.len() as int] == Some(
                spec_colonist(Profession::Likvidator, Tier::T2, room),
            )
            &&& (forall|k: int|
                1 <= k < 14 ==> #[trigger] final(world)@[old(world)@.len() + k] == Some(
                    spec_colonist(Profession::Likvidator, Tier::T1, room),
                ))
            &&& count_people(final(world)@, Profession::Likvidator, Tier::T2) == count_people(
                old(world)@,
                Profession::Likvidator,
                Tier::T2,
            ) + 1
            &&& count_people(final(world)@, Profession::Likvidator, Tier::T1) == count_people(
                old(world)@,
                Profession::Likvidator,
                Tier::T1,
            ) + 13
            &&& occ_in_room(final(world)@, room.0) == occ_in_room(old(world)@, room.0) + 14
                * COMRAD_RENTED_PLACE
            &&& (forall|rm: usize|
                rm != room.0 ==> #[trigger] occ_in_room(final(world)@, rm) == occ_in_room(
                    old(world)@,
                    rm,
                ))
            &&& (forall|m: Meas|
                spawn_frame(m) ==> #[trigger] meas_sum(final(world)@, m) == meas_sum(
                    old(world)@,
                    m,
                ))
            &&& (forall|p: Profession, t: Tier|
                !(p == Profession::Likvidator && t == Tier::T1) && !(p == Profession::Likvidator
                    && t == Tier::T2) ==> #[trigger] count_people(final(world)@, p, t)
                    == count_people(old(world)@, p, t))
        },
{
    let ghost s0 = old(world)@;
    let free = crate::area::get_room_free_space(world, room);
    if free.0 < 14 * COMRAD_RENTED_PLACE {
        return Err(SamosborError::NotEnoughArea);
    }
    let ghost occ0 = occ_in_room(s0, room.0);
    let _sergeant = spawn_comrad(world, Profession::Likvidator, Tier::T2, room);
    proof {
        lemma_push_slot_wf(s0, spec_colonist(Profession::Likvidator, Tier::T2, room));
    }
    let mut k: usize = 0;
    while k < 13
        invariant
            wf(world@),
            is_room(s0, room.0),
            k <= 13,
            world@.len() == s0.len() + 1 + k,
            s0.len() + 14 <= MAX_ENT,
            forall|j: int| 0 <= j < s0.len() ==> world@[j] == s0[j],
            world@[s0.len() as int] == Some(
                spec_colonist(Profession::Likvidator, Tier::T2, room),
            ),
            forall|k2: int|
                1 <= k2 <= k ==> #[trigger] world@[s0.len() + k2] == Some(
                    spec_colonist(Profession::Likvidator, Tier::T1, room),
                ),
            is_room(world@, room.0),
            count_people(world@, Profession::Likvidator, Tier::T2) == count_people(
                s0,
                Profession::Likvidator,
                Tier::T2,
            ) + 1,
            count_people(world@, Profession::Likvidator, Tier::T1) == count_people(
                s0,
                Profession::Likvidator,
                Tier::T1,
            ) + k,
            occ_in_room(world@, room.0) == occ_in_room(s0, room.0) + (k + 1)
                * COMRAD_RENTED_PLACE,
            occ_in_room(s0, room.0) + 14 * COMRAD_RENTED_PLACE <= crate::world::room_capacity(
                s0,
                room.0,
            ),
            crate::world::room_capacity(world@, room.0) == crate::world::room_capacity(
                s0,
                room.0,
            ),
            forall|rm: usize|
                rm != room.0 ==> #[trigger] occ_in_room(world@, rm) == occ_in_room(s0, rm),
            forall|m: Meas|
                spawn_frame(m) ==> #[trigger] meas_sum(world@, m) == meas_sum(s0, m),
            forall|p: Profession, t: Tier|
                !(p == Profession::Likvidator && t == Tier::T1) && !(p == Profession::Likvidator
                    && t == Tier::T2) ==> #[trigger] count_people(world@, p, t) == count_people(
                    s0,
                    p,
                    t,
                ),
        decreases 13 - k,
    {
        let ghost s_cur = world@;
        proof {
            assert((k + 2) * COMRAD_RENTED_PLACE == (k + 1) * COMRAD_RENTED_PLACE
                + COMRAD_RENTED_PLACE) by (nonlinear_arith);
            assert((k + 1) * COMRAD_RENTED_PLACE >= 0 && (k + 2) * COMRAD_RENTED_PLACE <= 14
                * COMRAD_RENTED_PLACE) by (nonlinear_arith)
                requires
                    k <= 12,
            ;
        }
        let _private = spawn_comrad(world, Profession::Likvidator, Tier::T1, room);
        proof {
            assert(free_in_room(s_cur, room.0) >= COMRAD_RENTED_PLACE);
            lemma_push_slot_wf(s_cur, spec_colonist(Profession::Likvidator, Tier::T1, room));
            assert forall|rm: usize| rm != room.0 implies #[trigger] occ_in_room(world@, rm)
                == occ_in_room(s0, rm) by {
                assert(occ_in_room(s_cur, rm) == occ_in_room(s0, rm));
                assert(meas_sum(world@, Meas::RoomOcc(rm)) == meas_sum(
                    s_cur,
                    Meas::RoomOcc(rm),
                ) + meas_val(
                    Meas::RoomOcc(rm),
                    Some(spec_colonist(Profession::Likvidator, Tier::T1, room)),
                ));
            }
            assert forall|p: Profession, t: Tier|
                !(p == Profession::Likvidator && t == Tier::T1) && !(p == Profession::Likvidator
                    && t == Tier::T2) implies #[trigger] count_people(world@, p, t)
                == count_people(s0, p, t) by {
                assert(count_people(s_cur, p, t) == count_people(s0, p, t));
                assert(meas_sum(world@, Meas::People(p, t)) == meas_sum(
                    s_cur,
                    Meas::People(p, t),
                ) + meas_val(
                    Meas::People(p, t),
                    Some(spec_colonist(Profession::Likvidator, Tier::T1, room)),
                ));
            }
        }
        k = k + 1;
    }
    Ok(())
}

/// Measures settling colonists leaves untouched: stock, equipment
/// capacity, and the set of rooms.
pub open spec fn spawn_frame(m: Meas) -> bool {
    match m {
        Meas::RoomOcc(_) => false,
        Meas::People(_, _) => false,
        Meas::MoodSum => false,
        Meas::SatSum => false,
        Meas::Colonists => false,
        _ => true,
    }
}

/// Total mood over the whole population.
pub fn block_mood(world: &World) -> (r: usize)
    requires
        wf(world@),
    ensures
        r == meas_sum(world@, Meas::MoodSum),
{
    let n = world.num_slots();
    let mut sum: usize = 0;
    let mut i: usize = 0;
    proof {
        mood_sum_bound(world@);
    }
    while i < n
        invariant
            wf(world@),
            n == world@.len(),
            i <= n,
            sum == meas_sum(world@.take(i as int), Meas::MoodSum),
            sum <= MOOD_MAX as int * MAX_ENT as int,
        decreases n - i,
    {
        let v: usize = match world.slot(i) {
            Some(c) => match &c.mood {
                Some(mv) => mv.0 as usize,
                None => 0,
            },
            None => 0,
        };
        proof {
            assert(v == meas_val(Meas::MoodSum, world@[i as int]));
            lemma_meas_sum_take_step(world@, Meas::MoodSum, i as int);
            lemma_meas_sum_take_le(world@, Meas::MoodSum, i as int + 1);
            mood_sum_bound(world@);
        }
        sum = sum + v;
        i = i + 1;
    }
    proof {
        assert(world@.take(n as int) =~= world@);
    }
    sum
}

/// In a well-formed world mood is capped per colonist, so the total fits
/// a machine word.
proof fn mood_sum_bound(s: Seq<Option<Components>>)
    requires
        wf(s),
    ensures
        0 <= meas_sum(s, Meas::MoodSum) <= MOOD_MAX as int * MAX_ENT as int,
{
    assert forall|j: int| 0 <= j < s.len() implies meas_val(Meas::MoodSum, #[trigger] s[j])
        <= MOOD_MAX by {
        assert(crate::world::slot_ok(s[j]));
    }
    lemma_meas_sum_le_mul(s, Meas::MoodSum, MOOD_MAX as int);
    lemma_meas_sum_nonneg(s, Meas::MoodSum);
    assert(MOOD_MAX as int * s.len() <= MOOD_MAX as int * MAX_ENT as int) by (nonlinear_arith)
        requires
            s.len() <= MAX_ENT,
    ;
}

/// Total satiety over the whole population.
pub fn block_satiety(world: &World) -> (r: usize)
    requires
        wf(world@),
    ensures
        r == meas_sum(world@, Meas::SatSum),
{
    let n = world.num_slots();
    let mut sum: usize = 0;
    let mut i: usize = 0;
    proof {
        sat_sum_bound(world@);
    }
    while i < n
        invariant
            wf(world@),
            n == world@.len(),
            i <= n,
            sum == meas_sum(world@.take(i as int), Meas::SatSum),
            sum <= 65535 * MAX_ENT as int,
        decreases n - i,
    {
        let v: usize = match world.slot(i) {
            Some(c) => match &c.satiety {
                Some(sv) => sv.0 as usize,
                None => 0,
            },
            None => 0,
        };
        proof {
            assert(v == meas_val(Meas::SatSum, world@[i as int]));
            lemma_meas_sum_take_step(world@, Meas::SatSum, i as int);
            lemma_meas_sum_take_le(world@, Meas::SatSum, i as int + 1);
            sat_sum_bound(world@);
        }
        sum = sum + v;
        i = i + 1;
    }
    proof {
        assert(world@.take(n as int) =~= world@);
    }
    sum
}

/// Satiety is a sixteen-bit counter per colonist, so the total fits a
/// machine word.
proof fn sat_sum_bound(s: Seq<Option<Components>>)
    requires
        wf(s),
    ensures
        0 <= meas_sum(s, Meas::SatSum) <= 65535 * MAX_ENT as int,
{
    assert forall|j: int| 0 <= j < s.len() implies meas_val(Meas::SatSum, #[trigger] s[j])
        <= 65535 by {}
    lemma_meas_sum_le_mul(s, Meas::SatSum, 65535);
    lemma_meas_sum_nonneg(s, Meas::SatSum);
    assert(65535 * s.len() <= 65535 * MAX_ENT as int) by (nonlinear_arith)
        requires
            s.len() <= MAX_ENT,
    ;
}

} // verus!
