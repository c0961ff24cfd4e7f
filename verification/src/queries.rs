//! Reporting queries that cut across the other modules: who and what
//! occupies which room.

use vstd::prelude::*;

use crate::area::AreaOccupied;
use crate::base::{TaskStatus, Tier};
use crate::people::Profession;
use crate::production::Stationary;
use crate::world::{is_room, wf, Components, Entity, World};

verus! {

/// The colonists housed in room `r`, over the first `n` slots, in slot
/// order: profession, tier, and area taken.
pub open spec fn spec_room_people(s: Seq<Option<Components>>, r: usize, n: int) -> Seq<
    (Profession, Tier, AreaOccupied),
>
    decreases n,
{
    if n <= 0 {
        Seq::empty()
    } else {
        let pre = spec_room_people(s, r, n - 1);
        let oc = s[n - 1];
        if oc is Some && oc->0.room == Some(crate::area::BelongsToRoom(Entity(r)))
            && oc->0.profession is Some && oc->0.tier is Some && oc->0.occupied is Some {
            pre.push((oc->0.profession->0, oc->0.tier->0, oc->0.occupied->0))
        } else {
            pre
        }
    }
}

/// The stationary objects placed in room `r`, over the first `n` slots,
/// in slot order: kind, area taken, and construction state.
pub open spec fn spec_room_things(s: Seq<Option<Components>>, r: usize, n: int) -> Seq<
    (Stationary, AreaOccupied, TaskStatus),
>
    decreases n,
{
    if n <= 0 {
        Seq::empty()
    } else {
        let pre = spec_room_things(s, r, n - 1);
        let oc = s[n - 1];
        if oc is Some && oc->0.room == Some(crate::area::BelongsToRoom(Entity(r)))
            && oc->0.stationary is Some && oc->0.status is Some && oc->0.occupied is Some {
            pre.push((oc->0.stationary->0, oc->0.occupied->0, oc->0.status->0))
        } else {
            pre
        }
    }
}

/// The colonists housed in the given room, in slot order.
fn room_people(world: &World, r: usize) -> (out: Vec<(Profession, Tier, AreaOccupied)>)
    requires
        r < world@.len(),
    ensures
        out@ == spec_room_people(world@, r, world@.len() as int),
{
    let n = world.num_slots();
    let mut out: Vec<(Profession, Tier, AreaOccupied)> = Vec::new();
    let mut i: usize = 0;
    while i < n
        invariant
            n == world@.len(),
            i <= n,
            out@ == spec_room_people(world@, r, i as int),
        decreases n - i,
    {
        match world.slot(i) {
            Some(c) => match (&c.room, &c.profession, &c.tier, &c.occupied) {
                (Some(b), Some(p), Some(t), Some(a)) => {
                    if b.0.0 == r {
                        out.push((*p, *t, *a));
                    }
                },
                _ => {},
            },
            None => {},
        }
        i = i + 1;
    }
    out
}

/// The stationary objects placed in the given room, in slot order.
fn room_things(world: &World, r: usize) -> (out: Vec<(Stationary, AreaOccupied, TaskStatus)>)
    requires
        r < world@.len(),
    ensures
        out@ == spec_room_things(world@, r, world@.len() as int),
{
    let n = world.num_slots();
    let mut out: Vec<(Stationary, AreaOccupied, TaskStatus)> = Vec::new();
    let mut i: usize = 0;
    while i < n
        invariant
            n == world@.len(),
            i <= n,
            out@ == spec_room_things(world@, r, i as int),
        decreases n - i,
    {
        match world.slot(i) {
            Some(c) => match (&c.room, &c.stationary, &c.status, &c.occupied) {
                (Some(b), Some(st), Some(ts), Some(a)) => {
                    if b.0.0 == r {
                        out.push((*st, *a, *ts));
                    }
                },
                _ => {},
            },
            None => {},
        }
        i = i + 1;
    }
    out
}

/// Who takes up space where: for every room that houses colonists, the
/// room and its residents in slot order.
pub fn who_take_place(world: &World) -> (r: Vec<(Entity, Vec<(Profession, Tier, AreaOccupied)>)>)
    requires
        wf(world@),
    ensures
        forall|k: int|
            0 <= k < r@.len() ==> is_room(world@, (#[trigger] r@[k]).0.0) && r@[k].1@
                == spec_room_people(world@, r@[k].0.0, world@.len() as int) && r@[k].1@.len() > 0,
        forall|j: usize|
            is_room(world@, j) && spec_room_people(world@, j, world@.len() as int).len() > 0
                ==> exists|k: int| 0 <= k < r@.len() && (#[trigger] r@[k]).0.0 == j,
{
    let n = world.num_slots();
    let mut r: Vec<(Entity, Vec<(Profession, Tier, AreaOccupied)>)> = Vec::new();
    let mut i: usize = 0;
    while i < n
        invariant
            wf(world@),
            n == world@.len(),
            i <= n,
            forall|k: int|
                0 <= k < r@.len() ==> is_room(world@, (#[trigger] r@[k]).0.0) && r@[k].1@
                    == spec_room_people(world@, r@[k].0.0, world@.len() as int) && r@[k].1@.len()
                    > 0,
            forall|j: usize|
                j < i && is_room(world@, j) && spec_room_people(world@, j, world@.len() as int).len()
                    > 0 ==> exists|k: int| 0 <= k < r@.len() && (#[trigger] r@[k]).0.0 == j,
        decreases n - i,
    {
        let mut room_here = false;
        match world.slot(i) {
            Some(c) => {
                if c.capacity.is_some() {
                    room_here = true;
                }
            },
            None => {},
        }
        let ghost r0 = r@;
        if room_here {
            let people = room_people(world, i);
            if people.len() > 0 {
                r.push((Entity(i), people));
                proof {
                    assert forall|k: int|
                        0 <= k < r@.len() implies is_room(world@, (#[trigger] r@[k]).0.0)
                        && r@[k].1@ == spec_room_people(world@, r@[k].0.0, world@.len() as int)
                        && r@[k].1@.len() > 0 by {
                        if k < r0.len() {
                            assert(r@[k] == r0[k]);
                        }
                    }
                }
            }
        }
        proof {
            assert forall|j: usize|
                j < i + 1 && is_room(world@, j) && spec_room_people(
                    world@,
                    j,
                    world@.len() as int,
                ).len() > 0 implies exists|k: int|
                0 <= k < r@.len() && (#[trigger] r@[k]).0.0 == j by {
                if j < i {
                    let k = choose|k: int| 0 <= k < r0.len() && (#[trigger] r0[k]).0.0 == j;
                    assert(r@[k] == r0[k]);
                    assert(r@[k].0.0 == j);
                } else {
                    assert(r@[r@.len() - 1].0.0 == i);
                }
            }
        }
        i = i + 1;
    }
    r
}

/// What takes up space where: for every room holding stationary objects,
/// the room and its contents in slot order.
pub fn what_take_place(world: &World) -> (r: Vec<
    (Entity, Vec<(Stationary, AreaOccupied, TaskStatus)>),
>)
    requires
        wf(world@),
    ensures
        forall|k: int|
            0 <= k < r@.len() ==> is_room(world@, (#[trigger] r@[k]).0.0) && r@[k].1@
                == spec_room_things(world@, r@[k].0.0, world@.len() as int) && r@[k].1@.len() > 0,
        forall|j: usize|
            is_room(world@, j) && spec_room_things(world@, j, world@.len() as int).len() > 0
                ==> exists|k: int| 0 <= k < r@.len() && (#[trigger] r@[k]).0.0 == j,
{
    let n = world.num_slots();
    let mut r: Vec<(Entity, Vec<(Stationary, AreaOccupied, TaskStatus)>)> = Vec::new();
    let mut i: usize = 0;
    while i < n
        invariant
            wf(world@),
            n == world@.len(),
            i <= n,
            forall|k: int|
                0 <= k < r@.len() ==> is_room(world@, (#[trigger] r@[k]).0.0) && r@[k].1@
                    == spec_room_things(world@, r@[k].0.0, world@.len() as int) && r@[k].1@.len()
                    > 0,
            forall|j: usize|
                j < i && is_room(world@, j) && spec_room_things(world@, j, world@.len() as int).len()
                    > 0 ==> exists|k: int| 0 <= k < r@.len() && (#[trigger] r@[k]).0.0 == j,
        decreases n - i,
    {
        let mut room_here = false;
        match world.slot(i) {
            Some(c) => {
                if c.capacity.is_some() {
                    room_here = true;
                }
            },
            None => {},
        }
        let ghost r0 = r@;
        if room_here {
            let things = room_things(world, i);
            if things.len() > 0 {
                r.push((Entity(i), things));
                proof {
                    assert forall|k: int|
                        0 <= k < r@.len() implies is_room(world@, (#[trigger] r@[k]).0.0)
                        && r@[k].1@ == spec_room_things(world@, r@[k].0.0, world@.len() as int)
                        && r@[k].1@.len() > 0 by {
                        if k < r0.len() {
                            assert(r@[k] == r0[k]);
                        }
                    }
                }
            }
        }
        proof {
            assert forall|j: usize|
                j < i + 1 && is_room(world@, j) && spec_room_things(
                    world@,
                    j,
                    world@.len() as int,
                ).len() > 0 implies exists|k: int|
                0 <= k < r@.len() && (#[trigger] r@[k]).0.0 == j by {
                if j < i {
                    let k = choose|k: int| 0 <= k < r0.len() && (#[trigger] r0[k]).0.0 == j;
                    assert(r@[k] == r0[k]);
                    assert(r@[k].0.0 == j);
                } else {
                    assert(r@[r@.len() - 1].0.0 == i);
                }
            }
        }
        i = i + 1;
    }
    r
}

} // verus!
