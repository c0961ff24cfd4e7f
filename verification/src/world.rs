//! The entity store. An entity is a slot in an arena; its components are an
//! open bag modelled as one optional field per component kind. Slots of
//! removed entities stay empty, so an entity id is never reused.
//!
//! The module also holds the measures: summations over the slot table
//! (occupied area per room, stock area per resource, population counts,
//! mood and satiety totals, equipment capacity) and the well-formedness
//! predicate every operation of the simulation preserves.

use vstd::prelude::*;

use crate::area::{AreaCapacity, AreaType, AreaOccupied, BelongsToRoom};
use crate::base::{TaskStatus, Tier};
use crate::people::{Mood, Profession, Satiety, MOOD_MAX};
use crate::production::{
    obligations_total, spec_stationary_build_power, Germ, Stationary, TaskPriority, TaskProgress,
};
use crate::resources::Resource;
use crate::storage::spec_piece_size;

verus! {

/// Most entities a world can hold. A bound of this size keeps every
/// aggregate the simulation computes within machine integers.
pub const MAX_ENT: usize = 65536;

/// Largest capacity any room can have (the capacity of a tier-3 germ).
pub const CAP_MAX: usize = 50000;

/// Identifier of an entity: an index into the world's slot table.
#[derive(Clone, Copy, Debug, PartialEq, Eq, Structural, Hash)]
pub struct Entity(pub usize);

/// The components an entity may carry. A room holds a capacity, a purpose
/// and a construction status; an occupant (colonist, resource container,
/// installed equipment) holds the room it sits in and the area it takes;
/// a colonist adds profession, tier, satiety and mood; a container adds
/// its resource kind; a construction task adds its progress.
pub struct Components {
    pub area_type: Option<AreaType>,
    pub capacity: Option<AreaCapacity>,
    pub occupied: Option<AreaOccupied>,
    pub room: Option<BelongsToRoom>,
    pub status: Option<TaskStatus>,
    pub priority: Option<TaskPriority>,
    pub progress: Option<TaskProgress>,
    pub germ: Option<Germ>,
    pub stationary: Option<Stationary>,
    pub resource: Option<Resource>,
    pub profession: Option<Profession>,
    pub tier: Option<Tier>,
    pub satiety: Option<Satiety>,
    pub mood: Option<Mood>,
}

/// A quantity summed over every slot of the world.
pub enum Meas {
    /// Area occupied inside the room with the given id.
    RoomOcc(usize),
    /// Area of the containers holding the given resource.
    Stock(Resource),
    /// Number of colonists of the given profession and tier.
    People(Profession, Tier),
    /// Total mood of the population.
    MoodSum,
    /// Total satiety of the population.
    SatSum,
    /// Labor capacity of the ready equipment of the given kind.
    Cap(Stationary),
    /// Number of rooms of the given purpose, ready or not.
    Rooms(AreaType),
    /// Number of colonists, whatever their profession.
    Colonists,
}

/// What one slot contributes to a measure.
pub open spec fn meas_val(m: Meas, oc: Option<Components>) -> int {
    match oc {
        None => 0,
        Some(c) => match m {
            Meas::RoomOcc(r) => match (c.room, c.occupied) {
                (Some(b), Some(a)) => if b.0.0 == r {
                    a.0 as int
                } else {
                    0
                },
                _ => 0,
            },
            Meas::Stock(res) => match (c.resource, c.occupied) {
                (Some(q), Some(a)) => if q == res {
                    a.0 as int
                } else {
                    0
                },
                _ => 0,
            },
            Meas::People(p, t) => match (c.profession, c.tier) {
                (Some(q), Some(u)) => if q == p && u == t {
                    1
                } else {
                    0
                },
                _ => 0,
            },
            Meas::MoodSum => match c.mood {
                Some(mv) => mv.0 as int,
                None => 0,
            },
            Meas::SatSum => match c.satiety {
                Some(sv) => sv.0 as int,
                None => 0,
            },
            Meas::Cap(st) => match (c.stationary, c.status) {
                (Some(k), Some(ts)) => if k == st && ts == TaskStatus::Ready {
                    spec_stationary_build_power(st) as int
                } else {
                    0
                },
                _ => 0,
            },
            Meas::Rooms(t) => match (c.capacity, c.area_type) {
                (Some(_), Some(u)) => if u == t {
                    1
                } else {
                    0
                },
                _ => 0,
            },
            Meas::Colonists => match c.mood {
                Some(_) => 1,
                None => 0,
            },
        },
    }
}

/// A measure summed over a slot table.
pub open spec fn meas_sum(s: Seq<Option<Components>>, m: Meas) -> int
    decreases s.len(),
{
    if s.len() == 0 {
        0
    } else {
        meas_sum(s.drop_last(), m) + meas_val(m, s.last())
    }
}

pub proof fn lemma_meas_sum_push(s: Seq<Option<Components>>, m: Meas, x: Option<Components>)
    ensures
        meas_sum(s.push(x), m) == meas_sum(s, m) + meas_val(m, x),
{
    assert(s.push(x).drop_last() =~= s);
}

pub proof fn lemma_meas_sum_update(
    s: Seq<Option<Components>>,
    m: Meas,
    j: int,
    x: Option<Components>,
)
    requires
        0 <= j < s.len(),
    ensures
        meas_sum(s.update(j, x), m) == meas_sum(s, m) - meas_val(m, s[j]) + meas_val(m, x),
    decreases s.len(),
{
    if j == s.len() - 1 {
        assert(s.update(j, x).drop_last() =~= s.drop_last());
        assert(s.update(j, x).last() == x);
    } else {
        lemma_meas_sum_update(s.drop_last(), m, j, x);
        assert(s.update(j, x).drop_last() =~= s.drop_last().update(j, x));
        assert(s.update(j, x).last() == s.last());
    }
}

pub proof fn lemma_meas_sum_take_step(s: Seq<Option<Components>>, m: Meas, j: int)
    requires
        0 <= j < s.len(),
    ensures
        meas_sum(s.take(j + 1), m) == meas_sum(s.take(j), m) + meas_val(m, s[j]),
{
    assert(s.take(j + 1).drop_last() =~= s.take(j));
    assert(s.take(j + 1).last() == s[j]);
}

pub proof fn lemma_meas_val_nonneg(m: Meas, oc: Option<Components>)
    ensures
        meas_val(m, oc) >= 0,
{
}

pub proof fn lemma_meas_sum_nonneg(s: Seq<Option<Components>>, m: Meas)
    ensures
        meas_sum(s, m) >= 0,
    decreases s.len(),
{
    if s.len() > 0 {
        lemma_meas_sum_nonneg(s.drop_last(), m);
        lemma_meas_val_nonneg(m, s.last());
    }
}

pub proof fn lemma_meas_sum_take_le(s: Seq<Option<Components>>, m: Meas, j: int)
    requires
        0 <= j <= s.len(),
    ensures
        meas_sum(s.take(j), m) <= meas_sum(s, m),
    decreases s.len() - j,
{
    if j == s.len() {
        assert(s.take(j) =~= s);
    } else {
        lemma_meas_sum_take_step(s, m, j);
        lemma_meas_val_nonneg(m, s[j]);
        lemma_meas_sum_take_le(s, m, j + 1);
    }
}

pub proof fn lemma_meas_elem_le_sum(s: Seq<Option<Components>>, m: Meas, j: int)
    requires
        0 <= j < s.len(),
    ensures
        meas_val(m, s[j]) <= meas_sum(s, m),
{
    lemma_meas_sum_take_step(s, m, j);
    lemma_meas_sum_nonneg(s.take(j), m);
    lemma_meas_sum_take_le(s, m, j + 1);
}

pub proof fn lemma_meas_sum_le_mul(s: Seq<Option<Components>>, m: Meas, b: int)
    requires
        forall|j: int| 0 <= j < s.len() ==> meas_val(m, #[trigger] s[j]) <= b,
        b >= 0,
    ensures
        meas_sum(s, m) <= b * s.len(),
    decreases s.len(),
{
    if s.len() == 0 {
    } else {
        lemma_meas_sum_le_mul(s.drop_last(), m, b);
        assert(b * s.len() == b * (s.len() - 1) + b) by (nonlinear_arith);
    }
}

/// The slot holds a live entity.
pub open spec fn live(s: Seq<Option<Components>>, i: usize) -> bool {
    i < s.len() && s[i as int] is Some
}

/// Components of the live entity in slot `i`.
pub open spec fn comp(s: Seq<Option<Components>>, i: usize) -> Components {
    s[i as int]->0
}

/// Slot `i` holds a room: a live entity with a capacity.
pub open spec fn is_room(s: Seq<Option<Components>>, i: usize) -> bool {
    live(s, i) && comp(s, i).capacity is Some
}

pub open spec fn room_capacity(s: Seq<Option<Components>>, i: usize) -> int {
    (comp(s, i).capacity->0).0 as int
}

pub open spec fn room_type(s: Seq<Option<Components>>, i: usize) -> AreaType {
    comp(s, i).area_type->0
}

pub open spec fn room_status(s: Seq<Option<Components>>, i: usize) -> TaskStatus {
    comp(s, i).status->0
}

/// Slot `i` holds a ready room of the given purpose.
pub open spec fn is_ready_room(s: Seq<Option<Components>>, i: usize) -> bool {
    is_room(s, i) && room_status(s, i) == TaskStatus::Ready
}

/// Area occupied inside room `i` by everything that sits in it.
pub open spec fn occ_in_room(s: Seq<Option<Components>>, i: usize) -> int {
    meas_sum(s, Meas::RoomOcc(i))
}

/// Area still free inside room `i`.
pub open spec fn free_in_room(s: Seq<Option<Components>>, i: usize) -> int {
    room_capacity(s, i) - occ_in_room(s, i)
}

/// Total container area holding the given resource.
pub open spec fn stock_area(s: Seq<Option<Components>>, res: Resource) -> int {
    meas_sum(s, Meas::Stock(res))
}

/// Whole units of the given resource in stock.
pub open spec fn stock_units(s: Seq<Option<Components>>, res: Resource) -> int {
    stock_area(s, res) / spec_piece_size(res) as int
}

/// Number of colonists of the given profession and tier.
pub open spec fn count_people(s: Seq<Option<Components>>, p: Profession, t: Tier) -> int {
    meas_sum(s, Meas::People(p, t))
}

/// A task's accounting is balanced: what is invested plus what the open
/// obligations still owe equals the total requirement.
pub open spec fn progress_ok(p: TaskProgress) -> bool {
    p.bp_invested.0 + obligations_total(p.who_should_finish@) == p.bp_required.0
}

/// Per-slot sanity of the component bag: each entity is one kind of thing
/// (room, container, colonist, or stationary object) and carries the
/// components of that kind only, with their local invariants.
pub open spec fn slot_ok(oc: Option<Components>) -> bool {
    match oc {
        None => true,
        Some(c) => {
            &&& (c.capacity is Some ==> c.area_type is Some && c.status is Some && (c.capacity->0).0
                <= CAP_MAX && c.room is None && c.resource is None && c.profession is None
                && c.mood is None && c.satiety is None && c.stationary is None)
            &&& (c.room is Some ==> c.occupied is Some)
            &&& (c.resource is Some ==> c.room is Some && c.occupied is Some && (c.occupied->0).0
                as int % (spec_piece_size(c.resource->0) as int) == 0 && c.profession is None
                && c.mood is None && c.satiety is None && c.stationary is None
                && c.progress is None && c.status is None)
            &&& (c.profession is Some ==> c.tier is Some && c.tier != Some(Tier::NoTier)
                && c.mood is Some && c.room is Some && c.stationary is None && c.progress is None)
            &&& (c.mood is Some <==> c.satiety is Some)
            &&& (c.mood is Some ==> (c.mood->0).0 <= MOOD_MAX && c.profession is Some
                && c.status is None)
            &&& (c.stationary is Some ==> c.status is Some && c.mood is None && c.satiety is None)
            &&& (c.progress is Some ==> c.status == Some(TaskStatus::Constructing) && progress_ok(
                c.progress->0,
            ))
        },
    }
}

/// Well-formedness of a world: the slot table is bounded, every slot is
/// sane, every occupant sits in an existing room, and no room holds more
/// than its capacity.
pub open spec fn wf(s: Seq<Option<Components>>) -> bool {
    &&& s.len() <= MAX_ENT
    &&& (forall|i: int| 0 <= i < s.len() ==> slot_ok(#[trigger] s[i]))
    &&& (forall|i: usize|
        #[trigger] live(s, i) && comp(s, i).room is Some ==> is_room(s, (comp(s, i).room->0).0.0))
    &&& (forall|r: usize| #[trigger] is_room(s, r) ==> occ_in_room(s, r) <= room_capacity(s, r))
}

/// In a well-formed world, every container sits inside a room and rooms
/// hold at most `CAP_MAX` area, so the whole stock of a resource is
/// bounded and in particular fits a machine word.
pub proof fn lemma_stock_area_fits(s: Seq<Option<Components>>, res: Resource)
    requires
        wf(s),
    ensures
        stock_area(s, res) <= CAP_MAX * MAX_ENT,
        stock_area(s, res) >= 0,
{
    assert forall|j: int|
        0 <= j < s.len() implies meas_val(Meas::Stock(res), #[trigger] s[j]) <= CAP_MAX by {
        if s[j] is Some {
            let c = s[j]->0;
            if c.resource is Some && c.resource->0 == res && c.occupied is Some {
                assert(live(s, j as usize));
                assert(slot_ok(s[j]));
                let r = (c.room->0).0.0;
                assert(is_room(s, r));
                lemma_meas_elem_le_sum(s, Meas::RoomOcc(r), j);
                assert(meas_val(Meas::RoomOcc(r), s[j]) == meas_val(Meas::Stock(res), s[j]));
                assert(occ_in_room(s, r) <= room_capacity(s, r));
            }
        }
    }
    lemma_meas_sum_le_mul(s, Meas::Stock(res), CAP_MAX as int);
    lemma_meas_sum_nonneg(s, Meas::Stock(res));
    assert((CAP_MAX as int) * s.len() <= (CAP_MAX as int) * (MAX_ENT as int)) by (nonlinear_arith)
        requires
            s.len() <= MAX_ENT,
    ;
}

pub proof fn lemma_meas_sum_multiple(s: Seq<Option<Components>>, m: Meas, p: int)
    requires
        p >= 1,
        forall|j: int| 0 <= j < s.len() ==> meas_val(m, #[trigger] s[j]) % p == 0,
    ensures
        meas_sum(s, m) % p == 0,
    decreases s.len(),
{
    vstd::arithmetic::div_mod::lemma_small_mod(0, p as nat);
    if s.len() > 0 {
        lemma_meas_sum_multiple(s.drop_last(), m, p);
        let a = meas_sum(s.drop_last(), m);
        let b = meas_val(m, s.last());
        assert(b % p == 0) by {
            assert(s.last() == s[s.len() - 1]);
        }
        vstd::arithmetic::div_mod::lemma_add_mod_noop(a, b, p);
        vstd::arithmetic::div_mod::lemma_small_mod(0, p as nat);
        assert(meas_sum(s, m) == a + b);
        assert((a + b) % p == 0);
    }
}

/// In a well-formed world every container of a resource holds a whole
/// number of its units, so the total stock area is a multiple of the
/// piece size.
pub proof fn lemma_stock_area_multiple(s: Seq<Option<Components>>, res: Resource)
    requires
        wf(s),
    ensures
        stock_area(s, res) % (spec_piece_size(res) as int) == 0,
{
    assert forall|j: int|
        0 <= j < s.len() implies meas_val(Meas::Stock(res), #[trigger] s[j]) % (spec_piece_size(
        res,
    ) as int) == 0 by {
        assert(slot_ok(s[j]));
    }
    lemma_meas_sum_multiple(s, Meas::Stock(res), spec_piece_size(res) as int);
}

/// Nothing in a well-formed world occupies a room that does not exist,
/// and a freshly allocated slot does not exist yet, so no area is booked
/// to it.
pub proof fn lemma_occ_of_fresh_slot_is_zero(s: Seq<Option<Components>>, r: usize)
    requires
        wf(s),
        r >= s.len(),
    ensures
        occ_in_room(s, r) == 0,
{
    assert forall|j: int| 0 <= j < s.len() implies meas_val(Meas::RoomOcc(r), #[trigger] s[j])
        == 0 by {
        if s[j] is Some && s[j]->0.room is Some && s[j]->0.occupied is Some {
            let jj = j as usize;
            assert(live(s, jj));
            assert(is_room(s, (comp(s, jj).room->0).0.0));
        }
    }
    lemma_meas_sum_le_mul(s, Meas::RoomOcc(r), 0);
    lemma_meas_sum_nonneg(s, Meas::RoomOcc(r));
}

/// Two slot tables whose slots contribute alike to a measure sum to the
/// same value.
pub proof fn lemma_meas_sum_congruence(s1: Seq<Option<Components>>, s2: Seq<Option<Components>>, m: Meas)
    requires
        s1.len() == s2.len(),
        forall|j: int| 0 <= j < s1.len() ==> meas_val(m, #[trigger] s1[j]) == meas_val(m, s2[j]),
    ensures
        meas_sum(s1, m) == meas_sum(s2, m),
    decreases s1.len(),
{
    if s1.len() > 0 {
        lemma_meas_sum_congruence(s1.drop_last(), s2.drop_last(), m);
        assert(s1.last() == s1[s1.len() - 1] && s2.last() == s2[s2.len() - 1]);
    }
}

/// A slot table whose slots contribute no more than another's, slot by
/// slot, sums to no more.
pub proof fn lemma_meas_sum_pointwise_le(
    s1: Seq<Option<Components>>,
    s2: Seq<Option<Components>>,
    m: Meas,
)
    requires
        s1.len() == s2.len(),
        forall|j: int| 0 <= j < s1.len() ==> meas_val(m, #[trigger] s1[j]) <= meas_val(m, s2[j]),
    ensures
        meas_sum(s1, m) <= meas_sum(s2, m),
    decreases s1.len(),
{
    if s1.len() > 0 {
        lemma_meas_sum_pointwise_le(s1.drop_last(), s2.drop_last(), m);
        assert(s1.last() == s1[s1.len() - 1] && s2.last() == s2[s2.len() - 1]);
    }
}

/// Two different slots that each contribute at least one unit make the
/// measure at least two.
pub proof fn lemma_meas_two_elems(s: Seq<Option<Components>>, m: Meas, j1: int, j2: int)
    requires
        0 <= j1 < j2 < s.len(),
        meas_val(m, s[j1]) >= 1,
        meas_val(m, s[j2]) >= 1,
    ensures
        meas_sum(s, m) >= 2,
{
    lemma_meas_sum_take_step(s, m, j2);
    lemma_meas_sum_take_le(s, m, j2 + 1);
    lemma_meas_elem_le_sum(s.take(j2), m, j1);
    assert(s.take(j2)[j1] == s[j1]);
}

/// Appending a slot moves every measure by that slot's contribution.
pub proof fn lemma_push_meas(s: Seq<Option<Components>>, x: Option<Components>)
    ensures
        forall|m: Meas| #[trigger] meas_sum(s.push(x), m) == meas_sum(s, m) + meas_val(m, x),
{
    assert forall|m: Meas| #[trigger] meas_sum(s.push(x), m) == meas_sum(s, m) + meas_val(m, x) by {
        lemma_meas_sum_push(s, m, x);
    }
}

/// Appending a sane entity preserves well-formedness, provided that if it
/// occupies a room, the room exists and has the area free. The measures
/// change by exactly the new slot's contribution.
pub proof fn lemma_push_slot_wf(s: Seq<Option<Components>>, c: Components)
    requires
        wf(s),
        s.len() < MAX_ENT,
        slot_ok(Some(c)),
        c.room is Some ==> is_room(s, ((c.room->0).0).0) && (c.occupied->0).0 <= free_in_room(
            s,
            ((c.room->0).0).0,
        ),
    ensures
        wf(s.push(Some(c))),
        forall|m: Meas|
            #[trigger] meas_sum(s.push(Some(c)), m) == meas_sum(s, m) + meas_val(m, Some(c)),
{
    let s2 = s.push(Some(c));
    assert forall|m: Meas| #[trigger] meas_sum(s2, m) == meas_sum(s, m) + meas_val(m, Some(c)) by {
        lemma_meas_sum_push(s, m, Some(c));
    }
    assert forall|j: int| 0 <= j < s2.len() implies slot_ok(#[trigger] s2[j]) by {
        if j < s.len() {
            assert(s2[j] == s[j]);
        } else {
            assert(s2[j] == Some(c));
        }
    }
    assert forall|j: usize|
        #[trigger] live(s2, j) && comp(s2, j).room is Some implies is_room(
        s2,
        ((comp(s2, j).room->0).0).0,
    ) by {
        if (j as int) < s.len() {
            assert(live(s, j));
            let t = ((comp(s, j).room->0).0).0;
            assert(is_room(s, t));
            assert(s2[t as int] == s[t as int]);
        } else {
            let t = ((c.room->0).0).0;
            assert(is_room(s, t));
            assert(s2[t as int] == s[t as int]);
        }
    }
    assert forall|r: usize| #[trigger] is_room(s2, r) implies occ_in_room(s2, r) <= room_capacity(
        s2,
        r,
    ) by {
        lemma_meas_sum_push(s, Meas::RoomOcc(r), Some(c));
        if (r as int) < s.len() {
            assert(s2[r as int] == s[r as int]);
            assert(is_room(s, r));
            if c.room is Some && ((c.room->0).0).0 == r {
            } else {
                assert(meas_val(Meas::RoomOcc(r), Some(c)) == 0);
            }
        } else {
            assert(r == s.len());
            lemma_occ_of_fresh_slot_is_zero(s, r);
            assert(meas_val(Meas::RoomOcc(r), Some(c)) == 0);
        }
    }
}

/// The world: the arena of entity slots. All simulation state lives here.
pub struct World {
    slots: Vec<Option<Components>>,
}

impl View for World {
    type V = Seq<Option<Components>>;

    closed spec fn view(&self) -> Seq<Option<Components>> {
        self.slots@
    }
}

impl World {
    /// An empty world.
    pub fn new() -> (w: World)
        ensures
            w@.len() == 0,
            wf(w@),
    {
        World { slots: Vec::new() }
    }

    /// Number of slots ever allocated (live or cleared).
    pub fn num_slots(&self) -> (n: usize)
        ensures
            n == self@.len(),
    {
        self.slots.len()
    }

    /// Read slot `i`.
    pub(crate) fn slot(&self, i: usize) -> (r: &Option<Components>)
        requires
            i < self@.len(),
        ensures
            *r == self@[i as int],
    {
        &self.slots[i]
    }

    /// Borrow slot `i` for mutation.
    pub(crate) fn slot_mut(&mut self, i: usize) -> (r: &mut Option<Components>)
        requires
            i < old(self)@.len(),
        ensures
            *r == old(self)@[i as int],
            final(self)@ == old(self)@.update(i as int, *final(r)),
    {
        &mut self.slots[i]
    }

    /// Allocate a fresh entity with the given components.
    pub(crate) fn push_slot(&mut self, c: Components) -> (e: Entity)
        ensures
            final(self)@ == old(self)@.push(Some(c)),
            e.0 == old(self)@.len(),
    {
        let e = Entity(self.slots.len());
        self.slots.push(Some(c));
        e
    }

    /// Remove the entity in slot `i` with all its components.
    pub(crate) fn clear_slot(&mut self, i: usize)
        requires
            i < old(self)@.len(),
        ensures
            final(self)@ == old(self)@.update(i as int, None::<Components>),
    {
        let r = self.slot_mut(i);
        *r = None;
    }
}

} // verus!
