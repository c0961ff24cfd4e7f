//! Spatial vocabulary: room purposes, capacities, occupied and free area.
//! The queries over rooms live here as well (the spatial ledger).

use vstd::prelude::*;

use crate::base::TaskStatus;
use crate::world::{
    free_in_room, is_ready_room, is_room, lemma_meas_sum_take_le, lemma_meas_sum_take_step,
    occ_in_room, room_capacity, room_type, wf, Entity, Meas, World,
};

verus! {

/// Purpose of a room.
#[derive(PartialEq, Eq, Structural, Clone, Copy, Debug, Hash)]
pub enum AreaType {
    /// Living cells.
    Living,
    /// Laboratories.
    Science,
    /// Barracks.
    Military,
    /// Workshops: terminals, distribution nodes, pumps, vats, machine tools.
    Industrial,
    /// Storage, education, administration.
    Party,
}

/// Total capacity of a room, in area units.
#[derive(Clone, Copy, Debug, PartialEq, Eq, Structural)]
pub struct AreaCapacity(pub usize);

/// Area taken up by one occupant, in area units.
#[derive(Clone, Copy, Debug, PartialEq, Eq, Structural)]
pub struct AreaOccupied(pub usize);

/// Area still unoccupied in a room, in area units.
#[derive(Clone, Copy, Debug, PartialEq, Eq, Structural)]
pub struct AreaFree(pub usize);

/// Marks the room an occupant sits in.
#[derive(Clone, Copy, Debug, PartialEq, Eq, Structural)]
pub struct BelongsToRoom(pub Entity);

/// How much area is left unoccupied in the given room. Asking about an
/// entity that is no room is a programmer error, so the room is required
/// to exist.
pub fn get_room_free_space(world: &World, room: Entity) -> (r: AreaFree)
    requires
        wf(world@),
        is_room(world@, room.0),
    ensures
        r.0 == free_in_room(world@, room.0),
{
    let n = world.num_slots();
    let capacity: usize = match world.slot(room.0) {
        Some(c) => match &c.capacity {
            Some(cap) => cap.0,
            None => {
                proof {
                    assert(false);
                }
                0
            },
        },
        None => {
            proof {
                assert(false);
            }
            0
        },
    };
    let mut sum: usize = 0;
    let mut i: usize = 0;
    while i < n
        invariant
            wf(world@),
            is_room(world@, room.0),
            n == world@.len(),
            i <= n,
            capacity == room_capacity(world@, room.0),
            sum == crate::world::meas_sum(world@.take(i as int), Meas::RoomOcc(room.0)),
            sum <= room_capacity(world@, room.0),
        decreases n - i,
    {
        let v: usize = match world.slot(i) {
            Some(c) => match (&c.room, &c.occupied) {
                (Some(b), Some(a)) => if b.0.0 == room.0 {
                    a.0
                } else {
                    0
                },
                _ => 0,
            },
            None => 0,
        };
        proof {
            assert(v == crate::world::meas_val(Meas::RoomOcc(room.0), world@[i as int]));
            lemma_meas_sum_take_step(world@, Meas::RoomOcc(room.0), i as int);
            lemma_meas_sum_take_le(world@, Meas::RoomOcc(room.0), i as int + 1);
            assert(occ_in_room(world@, room.0) <= room_capacity(world@, room.0));
        }
        sum = sum + v;
        i = i + 1;
    }
    proof {
        assert(world@.take(n as int) =~= world@);
    }
    AreaFree(capacity - sum)
}

/// The capacity law: in a well-formed world no room — in particular no
/// ready room — holds occupants beyond its capacity. Every operation of
/// the simulation preserves well-formedness, so this holds after every
/// deposit, spawn, and install.
pub proof fn lemma_ready_room_capacity(s: Seq<Option<crate::world::Components>>, r: usize)
    requires
        wf(s),
        is_ready_room(s, r),
    ensures
        occ_in_room(s, r) <= room_capacity(s, r),
{
}

/// The listing `rooms_with_space` returns, built over the first `n` slots:
/// purpose and free area of every ready room, in slot order.
pub open spec fn spec_rooms_with_space(s: Seq<Option<crate::world::Components>>, n: int) -> Seq<
    (AreaType, AreaFree),
>
    decreases n,
{
    if n <= 0 {
        Seq::empty()
    } else {
        let pre = spec_rooms_with_space(s, n - 1);
        if is_ready_room(s, (n - 1) as usize) {
            pre.push(
                (room_type(s, (n - 1) as usize), AreaFree(free_in_room(s, (n - 1) as usize) as usize)),
            )
        } else {
            pre
        }
    }
}

/// Which ready rooms exist and how much area each still has free.
pub fn rooms_with_space(world: &World) -> (r: Vec<(AreaType, AreaFree)>)
    requires
        wf(world@),
    ensures
        r@ == spec_rooms_with_space(world@, world@.len() as int),
{
    let n = world.num_slots();
    let mut r: Vec<(AreaType, AreaFree)> = Vec::new();
    let mut i: usize = 0;
    while i < n
        invariant
            wf(world@),
            n == world@.len(),
            i <= n,
            r@ == spec_rooms_with_space(world@, i as int),
        decreases n - i,
    {
        let mut ready_room = false;
        let mut at = AreaType::Living;
        match world.slot(i) {
            Some(c) => match (&c.capacity, &c.area_type, &c.status) {
                (Some(_), Some(t), Some(st)) => {
                    if *st == TaskStatus::Ready {
                        ready_room = true;
                        at = *t;
                    }
                },
                _ => {},
            },
            None => {},
        }
        if ready_room {
            let f = get_room_free_space(world, Entity(i));
            r.push((at, f));
        }
        i = i + 1;
    }
    r
}

/// Among the ready rooms of the given purpose that still fit something of
/// size `for_`, pick the fullest: the one with the least free area (ties
/// go to the candidate found first). `None` when no such room exists.
pub fn get_sufficent_room(world: &World, for_: AreaOccupied, type_: AreaType) -> (r: Option<
    Entity,
>)
    requires
        wf(world@),
    ensures
        match r {
            Some(e) => {
                &&& is_ready_room(world@, e.0)
                &&& room_type(world@, e.0) == type_
                &&& free_in_room(world@, e.0) >= for_.0
                &&& forall|j: usize|
                    is_ready_room(world@, j) && room_type(world@, j) == type_ && #[trigger] free_in_room(
                        world@,
                        j,
                    ) >= for_.0 ==> free_in_room(world@, e.0) <= free_in_room(world@, j)
            },
            None => forall|j: usize|
                is_ready_room(world@, j) && room_type(world@, j) == type_ ==> #[trigger] free_in_room(
                    world@,
                    j,
                ) < for_.0,
        },
{
    let n = world.num_slots();
    let mut best: Option<Entity> = None;
    let mut best_free: usize = 0;
    let mut i: usize = 0;
    while i < n
        invariant
            wf(world@),
            n == world@.len(),
            i <= n,
            match best {
                Some(e) => {
                    &&& is_ready_room(world@, e.0)
                    &&& e.0 < i
                    &&& room_type(world@, e.0) == type_
                    &&& free_in_room(world@, e.0) >= for_.0
                    &&& best_free == free_in_room(world@, e.0)
                    &&& forall|j: usize|
                        j < i && is_ready_room(world@, j) && room_type(world@, j) == type_
                            && #[trigger] free_in_room(world@, j) >= for_.0 ==> best_free
                            <= free_in_room(world@, j)
                },
                None => forall|j: usize|
                    j < i && is_ready_room(world@, j) && room_type(world@, j) == type_
                        ==> #[trigger] free_in_room(world@, j) < for_.0,
            },
        decreases n - i,
    {
        let mut candidate = false;
        match world.slot(i) {
            Some(c) => match (&c.capacity, &c.area_type, &c.status) {
                (Some(_), Some(t), Some(st)) => {
                    if *st == TaskStatus::Ready && *t == type_ {
                        candidate = true;
                    }
                },
                _ => {},
            },
            None => {},
        }
        if candidate {
            let f = get_room_free_space(world, Entity(i));
            if f.0 >= for_.0 {
                match best {
                    Some(_) => {
                        if f.0 < best_free {
                            best = Some(Entity(i));
                            best_free = f.0;
                        }
                    },
                    None => {
                        best = Some(Entity(i));
                        best_free = f.0;
                    },
                }
            }
        }
        i = i + 1;
    }
    best
}

/// The listing `all_rooms_with_space` returns, built over the first `n`
/// slots: id, purpose, capacity, free and occupied area of every ready
/// room, in slot order.
pub open spec fn spec_all_rooms_with_space(s: Seq<Option<crate::world::Components>>, n: int) -> Seq<
    (Entity, AreaType, AreaCapacity, AreaFree, AreaOccupied),
>
    decreases n,
{
    if n <= 0 {
        Seq::empty()
    } else {
        let pre = spec_all_rooms_with_space(s, n - 1);
        let i = (n - 1) as usize;
        if is_ready_room(s, i) {
            pre.push(
                (
                    Entity(i),
                    room_type(s, i),
                    AreaCapacity(room_capacity(s, i) as usize),
                    AreaFree(free_in_room(s, i) as usize),
                    AreaOccupied(occ_in_room(s, i) as usize),
                ),
            )
        } else {
            pre
        }
    }
}

/// Every ready room with its purpose, capacity, free and occupied area.
pub fn all_rooms_with_space(world: &World) -> (r: Vec<
    (Entity, AreaType, AreaCapacity, AreaFree, AreaOccupied),
>)
    requires
        wf(world@),
    ensures
        r@ == spec_all_rooms_with_space(world@, world@.len() as int),
{
    let n = world.num_slots();
    let mut r: Vec<(Entity, AreaType, AreaCapacity, AreaFree, AreaOccupied)> = Vec::new();
    let mut i: usize = 0;
    while i < n
        invariant
            wf(world@),
            n == world@.len(),
            i <= n,
            r@ == spec_all_rooms_with_space(world@, i as int),
        decreases n - i,
    {
        let mut ready_room = false;
        let mut at = AreaType::Living;
        let mut cap: usize = 0;
        match world.slot(i) {
            Some(c) => match (&c.capacity, &c.area_type, &c.status) {
                (Some(cp), Some(t), Some(st)) => {
                    if *st == TaskStatus::Ready {
                        ready_room = true;
                        at = *t;
                        cap = cp.0;
                    }
                },
                _ => {},
            },
            None => {},
        }
        if ready_room {
            let f = get_room_free_space(world, Entity(i));
            proof {
                crate::world::lemma_meas_sum_nonneg(world@, Meas::RoomOcc(i));
            }
            r.push((Entity(i), at, AreaCapacity(cap), f, AreaOccupied(cap - f.0)));
            proof {
                assert(r@ =~= spec_all_rooms_with_space(world@, i as int + 1));
            }
        }
        i = i + 1;
    }
    r
}

} // verus!
