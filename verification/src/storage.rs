//! The storage ledger: resource units are kept as container entities that
//! occupy area inside storage (Party) rooms. Deposits split a load across
//! the storage rooms, withdrawals drain containers and delete emptied ones.

use vstd::prelude::*;

use crate::area::{AreaFree, AreaOccupied, AreaType};
use crate::resources::{spec_all_resources, Resource};
use crate::world::{
    free_in_room, is_room, lemma_meas_sum_nonneg, lemma_meas_sum_take_le,
    lemma_meas_sum_take_step, lemma_stock_area_fits, meas_sum, meas_val, occ_in_room, room_type,
    stock_area, stock_units, wf, Entity, Meas, World, CAP_MAX, MAX_ENT,
};

verus! {

/// A whole number of resource units.
#[derive(Clone, Copy, Debug, PartialEq, Eq, Structural, Hash)]
pub struct RealUnits(pub usize);

/// Area taken by a single unit of the given resource kind.
pub open spec fn spec_piece_size(resource: Resource) -> nat {
    match resource {
        Resource::BioRaw => 10,
        Resource::ScrapT1 => 100,
        Resource::ScrapT2 => 100,
        Resource::ScrapT3 => 100,
        Resource::Concrete => 100,
        Resource::Slime => 10,
        Resource::ComponentT1 => 10,
        Resource::ComponentT2 => 10,
        Resource::ComponentT3 => 10,
        Resource::ReagentT1 => 10,
        Resource::ReagentT2 => 10,
        Resource::ReagentT3 => 10,
        Resource::Polymer => 50,
        Resource::Concentrat => 1,
    }
}

/// How much area one unit of this resource occupies.
pub fn get_piece_size(resource: Resource) -> (r: AreaOccupied)
    ensures
        r.0 == spec_piece_size(resource),
{
    match resource {
        Resource::BioRaw => AreaOccupied(10),
        Resource::ScrapT1 => AreaOccupied(100),
        Resource::ScrapT2 => AreaOccupied(100),
        Resource::ScrapT3 => AreaOccupied(100),
        Resource::Concrete => AreaOccupied(100),
        Resource::Slime => AreaOccupied(10),
        Resource::ComponentT1 => AreaOccupied(10),
        Resource::ComponentT2 => AreaOccupied(10),
        Resource::ComponentT3 => AreaOccupied(10),
        Resource::ReagentT1 => AreaOccupied(10),
        Resource::ReagentT2 => AreaOccupied(10),
        Resource::ReagentT3 => AreaOccupied(10),
        Resource::Polymer => AreaOccupied(50),
        Resource::Concentrat => AreaOccupied(1),
    }
}

/// How many whole units a heap of this resource occupying `volume` amounts
/// to; area short of a whole unit does not count.
pub fn volume2real(resource: Resource, volume: AreaOccupied) -> (r: RealUnits)
    ensures
        r.0 == volume.0 as nat / spec_piece_size(resource),
{
    let piece_size = get_piece_size(resource);
    RealUnits(volume.0 / piece_size.0)
}

/// The listing `get_rooms_for_divisible_load` returns, built over the
/// first `n` slots: every storage (Party) room with its free area, in
/// slot order.
pub open spec fn spec_party_rooms(s: Seq<Option<crate::world::Components>>, n: int) -> Seq<
    (Entity, AreaFree),
>
    decreases n,
{
    if n <= 0 {
        Seq::empty()
    } else {
        let pre = spec_party_rooms(s, n - 1);
        let i = (n - 1) as usize;
        if is_room(s, i) && room_type(s, i) == AreaType::Party {
            pre.push((Entity(i), AreaFree(free_in_room(s, i) as usize)))
        } else {
            pre
        }
    }
}

/// The storage rooms a divisible load can be spread over, each with the
/// area it still has free. The resource and amount of the load do not
/// narrow the answer; they describe the load the caller is placing.
pub fn get_rooms_for_divisible_load(world: &World, resource: Resource, amount: RealUnits) -> (r:
    Vec<(Entity, AreaFree)>)
    requires
        wf(world@),
    ensures
        r@ == spec_party_rooms(world@, world@.len() as int),
{
    let n = world.num_slots();
    let mut r: Vec<(Entity, AreaFree)> = Vec::new();
    let mut i: usize = 0;
    while i < n
        invariant
            wf(world@),
            n == world@.len(),
            i <= n,
            r@ == spec_party_rooms(world@, i as int),
        decreases n - i,
    {
        let mut party_room = false;
        match world.slot(i) {
            Some(c) => match (&c.capacity, &c.area_type) {
                (Some(_), Some(t)) => {
                    if *t == AreaType::Party {
                        party_room = true;
                    }
                },
                _ => {},
            },
            None => {},
        }
        if party_room {
            let f = crate::area::get_room_free_space(world, Entity(i));
            r.push((Entity(i), f));
        }
        i = i + 1;
    }
    r
}

/// How many whole units of the given resource the stores hold.
pub fn how_much_we_have(world: &World, resource: Resource) -> (r: RealUnits)
    requires
        wf(world@),
    ensures
        r.0 == stock_units(world@, resource),
{
    let n = world.num_slots();
    let mut sum: usize = 0;
    let mut i: usize = 0;
    proof {
        lemma_stock_area_fits(world@, resource);
    }
    while i < n
        invariant
            wf(world@),
            n == world@.len(),
            i <= n,
            sum == meas_sum(world@.take(i as int), Meas::Stock(resource)),
            sum <= CAP_MAX * MAX_ENT,
        decreases n - i,
    {
        let v: usize = match world.slot(i) {
            Some(c) => match (&c.resource, &c.occupied) {
                (Some(q), Some(a)) => if *q == resource {
                    a.0
                } else {
                    0
                },
                _ => 0,
            },
            None => 0,
        };
        proof {
            assert(v == meas_val(Meas::Stock(resource), world@[i as int]));
            lemma_meas_sum_take_step(world@, Meas::Stock(resource), i as int);
            lemma_meas_sum_take_le(world@, Meas::Stock(resource), i as int + 1);
            lemma_stock_area_fits(world@, resource);
        }
        sum = sum + v;
        i = i + 1;
    }
    proof {
        assert(world@.take(n as int) =~= world@);
    }
    volume2real(resource, AreaOccupied(sum))
}

/// The report `what_we_have` returns, over the first `n` kinds of the
/// canonical resource listing: every kind with stock present, with its
/// unit count.
pub open spec fn spec_snapshot_upto(s: Seq<Option<crate::world::Components>>, n: int) -> Seq<
    (Resource, RealUnits),
>
    decreases n,
{
    if n <= 0 {
        Seq::empty()
    } else {
        let pre = spec_snapshot_upto(s, n - 1);
        let res = spec_all_resources()[n - 1];
        if stock_units(s, res) > 0 {
            pre.push((res, RealUnits(stock_units(s, res) as usize)))
        } else {
            pre
        }
    }
}

/// Everything the stores hold: a function of the world's state alone, so
/// asking twice without a mutation in between gives the same answer.
pub open spec fn spec_snapshot(s: Seq<Option<crate::world::Components>>) -> Seq<
    (Resource, RealUnits),
> {
    spec_snapshot_upto(s, spec_all_resources().len() as int)
}

/// Which resources the stores hold, and how many units of each; kinds
/// without stock are left out.
pub fn what_we_have(world: &World) -> (r: Vec<(Resource, RealUnits)>)
    requires
        wf(world@),
    ensures
        r@ == spec_snapshot(world@),
{
    let kinds = crate::resources::all_resources();
    let mut r: Vec<(Resource, RealUnits)> = Vec::new();
    let mut i: usize = 0;
    while i < kinds.len()
        invariant
            wf(world@),
            kinds@ == spec_all_resources(),
            i <= kinds@.len(),
            r@ == spec_snapshot_upto(world@, i as int),
        decreases kinds@.len() - i,
    {
        let res = kinds[i];
        let have = how_much_we_have(world, res);
        if have.0 > 0 {
            r.push((res, have));
        }
        i = i + 1;
    }
    r
}

/// Measures a deposit or withdrawal of `res` leaves untouched: everything
/// except room occupancy and the stock of `res` itself.
pub open spec fn stock_frame(m: Meas, res: Resource) -> bool {
    match m {
        Meas::RoomOcc(_) => false,
        Meas::Stock(q) => q != res,
        _ => true,
    }
}

/// Units a deposit with `rem` units left places at slot `i`: a storage
/// room absorbs as many whole units as its free area fits.
pub open spec fn spec_deposit_take(
    s: Seq<Option<crate::world::Components>>,
    piece: nat,
    i: int,
    rem: int,
) -> int {
    if 0 <= i < s.len() && is_room(s, i as usize) && room_type(s, i as usize) == AreaType::Party {
        vstd::math::min(free_in_room(s, i as usize) / piece as int, rem)
    } else {
        0
    }
}

/// Units left over after a deposit has visited slots `i` and onward.
pub open spec fn spec_deposit_rem(
    s: Seq<Option<crate::world::Components>>,
    piece: nat,
    i: int,
    rem: int,
) -> int
    decreases s.len() - i,
{
    if !(0 <= i < s.len()) {
        rem
    } else {
        spec_deposit_rem(s, piece, i + 1, rem - spec_deposit_take(s, piece, i, rem))
    }
}

/// Area a deposit visiting slots `i` and onward places into room `r`.
pub open spec fn spec_deposit_into(
    s: Seq<Option<crate::world::Components>>,
    piece: nat,
    i: int,
    rem: int,
    r: usize,
) -> int
    decreases s.len() - i,
{
    if !(0 <= i < s.len()) {
        0
    } else {
        let t = spec_deposit_take(s, piece, i, rem);
        (if i == r {
            t * piece
        } else {
            0
        }) + spec_deposit_into(s, piece, i + 1, rem - t, r)
    }
}

/// Put an amount of a resource into storage. The load is spread over the
/// storage (Party) rooms in slot order, each room taking as many whole
/// units as its free area fits; one container entity is created per room
/// used. Returns the units that found no space.
pub fn put_resource(world: &mut World, resource: Resource, amount: RealUnits) -> (r: RealUnits)
    requires
        wf(old(world)@),
        old(world)@.len() + meas_sum(old(world)@, Meas::Rooms(AreaType::Party)) <= MAX_ENT,
    ensures
        wf(final(world)@),
        r.0 == spec_deposit_rem(old(world)@, spec_piece_size(resource), 0, amount.0 as int),
        r.0 <= amount.0,
        stock_area(final(world)@, resource) == stock_area(old(world)@, resource) + spec_piece_size(
            resource,
        ) * (amount.0 - r.0),
        old(world)@.len() <= final(world)@.len(),
        final(world)@.len() <= old(world)@.len() + meas_sum(
            old(world)@,
            Meas::Rooms(AreaType::Party),
        ),
        forall|j: int| 0 <= j < old(world)@.len() ==> final(world)@[j] == old(world)@[j],
        forall|j: usize| is_room(final(world)@, j) ==> is_room(old(world)@, j),
        forall|m: Meas|
            stock_frame(m, resource) ==> #[trigger] meas_sum(final(world)@, m) == meas_sum(
                old(world)@,
                m,
            ),
        forall|rm: usize|
            occ_in_room(final(world)@, rm) == occ_in_room(old(world)@, rm) + spec_deposit_into(
                old(world)@,
                spec_piece_size(resource),
                0,
                amount.0 as int,
                rm,
            ),
{
    let ghost s0 = old(world)@;
    let ghost piece_s = spec_piece_size(resource);
    let piece = get_piece_size(resource).0;
    let n = world.num_slots();
    let mut remaining: usize = amount.0;
    let mut i: usize = 0;
    while i < n
        invariant
            wf(world@),
            n == s0.len(),
            i <= n,
            piece == piece_s,
            piece_s == spec_piece_size(resource),
            piece >= 1,
            remaining <= amount.0,
            world@.len() >= n,
            world@.len() <= s0.len() + meas_sum(s0.take(i as int), Meas::Rooms(AreaType::Party)),
            s0.len() + meas_sum(s0, Meas::Rooms(AreaType::Party)) <= MAX_ENT,
            forall|j: int| 0 <= j < n ==> world@[j] == s0[j],
            forall|j: int|
                n <= j < world@.len() ==> (#[trigger] world@[j]) is Some
                    && world@[j]->0.capacity is None,
            forall|j: usize| i <= j < n ==> occ_in_room(world@, j) == occ_in_room(s0, j),
            spec_deposit_rem(s0, piece_s, i as int, remaining as int) == spec_deposit_rem(
                s0,
                piece_s,
                0,
                amount.0 as int,
            ),
            forall|rm: usize|
                occ_in_room(world@, rm) + spec_deposit_into(
                    s0,
                    piece_s,
                    i as int,
                    remaining as int,
                    rm,
                ) == occ_in_room(s0, rm) + spec_deposit_into(
                    s0,
                    piece_s,
                    0,
                    amount.0 as int,
                    rm,
                ),
            stock_area(world@, resource) == stock_area(s0, resource) + piece_s * (amount.0
                - remaining),
            forall|m: Meas|
                stock_frame(m, resource) ==> #[trigger] meas_sum(world@, m) == meas_sum(s0, m),
        decreases n - i,
    {
        let ghost s_cur = world@;
        let ghost rem0 = remaining as int;
        let mut party = false;
        match world.slot(i) {
            Some(c) => match (&c.capacity, &c.area_type) {
                (Some(_), Some(t)) => {
                    if *t == AreaType::Party {
                        party = true;
                    }
                },
                _ => {},
            },
            None => {},
        }
        proof {
            lemma_meas_sum_take_step(s0, Meas::Rooms(AreaType::Party), i as int);
            lemma_meas_sum_take_le(s0, Meas::Rooms(AreaType::Party), i as int + 1);
        }
        if party {
            let f = crate::area::get_room_free_space(world, Entity(i));
            proof {
                assert(occ_in_room(world@, i) == occ_in_room(s0, i));
                assert(f.0 == free_in_room(s0, i));
            }
            let units_room = f.0 / piece;
            let units = if units_room < remaining {
                units_room
            } else {
                remaining
            };
            proof {
                assert(units == spec_deposit_take(s0, piece_s, i as int, rem0));
                assert(units_room * piece <= f.0 && units_room >= 0 && (f.0 as int) / (
                piece as int) == units_room) by (nonlinear_arith)
                    requires
                        piece >= 1,
                        units_room == f.0 / piece,
                        f.0 >= 0,
                ;
                assert(units * piece <= units_room * piece) by (nonlinear_arith)
                    requires
                        units <= units_room,
                        piece >= 1,
                ;
            }
            if units > 0 {
                let area = units * piece;
                let c = crate::world::Components {
                    area_type: None,
                    capacity: None,
                    occupied: Some(AreaOccupied(area)),
                    room: Some(crate::area::BelongsToRoom(Entity(i))),
                    status: None,
                    priority: None,
                    progress: None,
                    germ: None,
                    stationary: None,
                    resource: Some(resource),
                    profession: None,
                    tier: None,
                    satiety: None,
                    mood: None,
                };
                let ghost x = Some(c);
                world.push_slot(c);
                remaining = remaining - units;
                proof {
                    assert(area as int % piece_s as int == 0) by (nonlinear_arith)
                        requires
                            area == units * piece,
                            piece == piece_s,
                            piece >= 1,
                            units >= 0,
                    ;
                    assert forall|m: Meas| #[trigger]
                        meas_sum(world@, m) == meas_sum(s_cur, m) + crate::world::meas_val(
                            m,
                            x,
                        ) by {
                        crate::world::lemma_meas_sum_push(s_cur, m, x);
                    }
                    assert forall|m: Meas| stock_frame(m, resource) implies #[trigger] meas_sum(
                        world@,
                        m,
                    ) == meas_sum(s0, m) by {
                        assert(crate::world::meas_val(m, x) == 0);
                    }
                    assert(stock_area(world@, resource) == stock_area(s_cur, resource)
                        + area);
                    assert(piece_s * (amount.0 - remaining) == piece_s * (amount.0 - rem0)
                        + piece_s * units) by (nonlinear_arith)
                        requires
                            remaining == rem0 - units,
                    ;
                    assert(area == piece_s * units) by (nonlinear_arith)
                        requires
                            area == units * piece,
                            piece == piece_s,
                    ;
                    assert(stock_area(s_cur, resource) == stock_area(s0, resource) + piece_s * (
                    amount.0 - rem0));
                    assert(stock_area(world@, resource) == stock_area(s0, resource) + piece_s * (
                    amount.0 - remaining));
                    // the new container is a sane slot and the world stays well-formed
                    assert(crate::world::slot_ok(x));
                    assert forall|rm: usize|
                        occ_in_room(world@, rm) == occ_in_room(s_cur, rm) + (if rm == i {
                            area as int
                        } else {
                            0
                        }) by {
                        crate::world::lemma_meas_sum_push(s_cur, Meas::RoomOcc(rm), x);
                    }
                    assert(wf(world@)) by {
                        assert forall|j: int|
                            0 <= j < world@.len() implies crate::world::slot_ok(
                            #[trigger] world@[j],
                        ) by {
                            if j < s_cur.len() {
                                assert(world@[j] == s_cur[j]);
                                assert(crate::world::slot_ok(s_cur[j]));
                            } else {
                                assert(world@[j] == x);
                            }
                        }
                        assert forall|j: usize|
                            #[trigger] crate::world::live(world@, j) && crate::world::comp(
                                world@,
                                j,
                            ).room is Some implies is_room(
                            world@,
                            (crate::world::comp(world@, j).room->0).0.0,
                        ) by {
                            if (j as int) < s_cur.len() {
                                assert(crate::world::live(s_cur, j));
                                let t = (crate::world::comp(s_cur, j).room->0).0.0;
                                assert(is_room(s_cur, t));
                                assert(world@[t as int] == s_cur[t as int]);
                            } else {
                                assert(world@[i as int] == s_cur[i as int]);
                                assert(is_room(world@, i));
                            }
                        }
                        assert forall|rm: usize| #[trigger] is_room(world@, rm) implies occ_in_room(
                            world@,
                            rm,
                        ) <= crate::world::room_capacity(world@, rm) by {
                            assert(rm < s_cur.len());
                            assert(is_room(s_cur, rm));
                            if rm == i {
                                assert(area <= free_in_room(s_cur, i));
                            }
                        }
                    }
                }
            }
            proof {
                assert(spec_deposit_rem(s0, piece_s, i as int, rem0) == spec_deposit_rem(
                    s0,
                    piece_s,
                    i as int + 1,
                    remaining as int,
                ));
                assert forall|rm: usize|
                    occ_in_room(world@, rm) + spec_deposit_into(
                        s0,
                        piece_s,
                        i as int + 1,
                        remaining as int,
                        rm,
                    ) == occ_in_room(s0, rm) + spec_deposit_into(
                        s0,
                        piece_s,
                        0,
                        amount.0 as int,
                        rm,
                    ) by {
                    assert(spec_deposit_into(s0, piece_s, i as int, rem0, rm) == (if i == rm {
                        spec_deposit_take(s0, piece_s, i as int, rem0) * piece_s
                    } else {
                        0
                    }) + spec_deposit_into(s0, piece_s, i as int + 1, remaining as int, rm));
                }
                assert forall|j: usize| i + 1 <= j < n implies occ_in_room(world@, j)
                    == occ_in_room(s0, j) by {}
            }
        } else {
            proof {
                assert(spec_deposit_take(s0, piece_s, i as int, rem0) == 0);
                assert(spec_deposit_rem(s0, piece_s, i as int, rem0) == spec_deposit_rem(
                    s0,
                    piece_s,
                    i as int + 1,
                    remaining as int,
                ));
                assert forall|rm: usize|
                    spec_deposit_into(s0, piece_s, i as int, rem0, rm) == spec_deposit_into(
                        s0,
                        piece_s,
                        i as int + 1,
                        remaining as int,
                        rm,
                    ) by {}
            }
        }
        i = i + 1;
    }
    proof {
        assert(s0.take(n as int) =~= s0);
        assert(spec_deposit_rem(s0, piece_s, n as int, remaining as int) == remaining as int);
        assert forall|rm: usize|
            spec_deposit_into(s0, piece_s, n as int, remaining as int, rm) == 0 by {}
    }
    RealUnits(remaining)
}

/// The conservation law: depositing `n` units of a resource and then
/// withdrawing what was actually placed (`n` less the deposit's leftover)
/// returns the stock to exactly where it started — the withdrawal never
/// falls short. The premises are what `put_resource` and `writeoff`
/// guarantee about the worlds before (`s0`), between (`s1`), and after
/// (`s2`) the two calls.
pub proof fn lemma_conservation_round_trip(
    s0: Seq<Option<crate::world::Components>>,
    s1: Seq<Option<crate::world::Components>>,
    s2: Seq<Option<crate::world::Components>>,
    res: Resource,
    n: int,
    leftover: int,
    short: int,
)
    requires
        wf(s0),
        wf(s1),
        0 <= leftover <= n,
        stock_area(s1, res) == stock_area(s0, res) + spec_piece_size(res) * (n - leftover),
        short == if n - leftover <= stock_units(s1, res) {
            0int
        } else {
            (n - leftover) - stock_units(s1, res)
        },
        stock_area(s2, res) == stock_area(s1, res) - spec_piece_size(res) * ((n - leftover)
            - short),
    ensures
        short == 0,
        stock_units(s2, res) == stock_units(s0, res),
{
    let p = spec_piece_size(res) as int;
    let a0 = stock_area(s0, res);
    let u0 = stock_units(s0, res);
    crate::world::lemma_stock_area_multiple(s0, res);
    lemma_meas_sum_nonneg(s0, Meas::Stock(res));
    vstd::arithmetic::div_mod::lemma_fundamental_div_mod(a0, p);
    assert(a0 == p * u0);
    assert(stock_area(s1, res) == p * (u0 + (n - leftover))) by (nonlinear_arith)
        requires
            a0 == p * u0,
            stock_area(s1, res) == a0 + p * (n - leftover),
    ;
    vstd::arithmetic::div_mod::lemma_div_multiples_vanish(u0 + (n - leftover), p);
    assert(stock_units(s1, res) == u0 + (n - leftover));
    assert(short == 0);
    assert(stock_area(s2, res) == p * u0) by (nonlinear_arith)
        requires
            stock_area(s2, res) == stock_area(s1, res) - p * (n - leftover),
            stock_area(s1, res) == p * (u0 + (n - leftover)),
    ;
    vstd::arithmetic::div_mod::lemma_div_multiples_vanish(u0, p);
}

/// The reporting law: the stock snapshot is a function of the world's
/// state alone, so two snapshots with no mutation in between are
/// identical.
pub proof fn lemma_snapshot_idempotent(
    s: Seq<Option<crate::world::Components>>,
    r1: Seq<(Resource, RealUnits)>,
    r2: Seq<(Resource, RealUnits)>,
)
    requires
        r1 == spec_snapshot(s),
        r2 == spec_snapshot(s),
    ensures
        r1 == r2,
{
}

/// Slot `j` holds a container of the given resource.
pub open spec fn is_container_of(
    s: Seq<Option<crate::world::Components>>,
    j: int,
    res: Resource,
) -> bool {
    0 <= j < s.len() && s[j] is Some && s[j]->0.resource == Some(res)
}

/// Take an amount of a resource out of storage. Containers are drained in
/// slot order, each by as many whole units as it holds, and emptied
/// containers are removed. Returns the units the stock could not cover.
pub fn writeoff(world: &mut World, resource: Resource, amount: RealUnits) -> (r: RealUnits)
    requires
        wf(old(world)@),
    ensures
        wf(final(world)@),
        final(world)@.len() == old(world)@.len(),
        r.0 == if amount.0 <= stock_units(old(world)@, resource) {
            0
        } else {
            amount.0 - stock_units(old(world)@, resource)
        },
        stock_area(final(world)@, resource) == stock_area(old(world)@, resource)
            - spec_piece_size(resource) * (amount.0 - r.0),
        forall|m: Meas|
            stock_frame(m, resource) ==> #[trigger] meas_sum(final(world)@, m) == meas_sum(
                old(world)@,
                m,
            ),
        forall|rm: usize|
            #[trigger] occ_in_room(final(world)@, rm) <= occ_in_room(old(world)@, rm),
        forall|j: int|
            0 <= j < old(world)@.len() && !is_container_of(old(world)@, j, resource)
                ==> final(world)@[j] == old(world)@[j],
        forall|j: int|
            #[trigger] is_container_of(final(world)@, j, resource) ==> ((
            final(world)@[j]->0.occupied)->0).0 > 0,
{
    let ghost s0 = old(world)@;
    let ghost piece_s = spec_piece_size(resource);
    let piece = get_piece_size(resource).0;
    let n = world.num_slots();
    let mut remaining: usize = amount.0;
    let mut i: usize = 0;
    while i < n
        invariant
            wf(world@),
            n == s0.len(),
            world@.len() == n,
            i <= n,
            piece == piece_s,
            piece_s == spec_piece_size(resource),
            piece >= 1,
            remaining <= amount.0,
            forall|j: int| i <= j < n ==> world@[j] == s0[j],
            forall|j: int|
                0 <= j < i && !is_container_of(s0, j, resource) ==> world@[j] == s0[j],
            stock_area(world@, resource) == stock_area(s0, resource) - piece_s * (amount.0
                - remaining),
            remaining > 0 ==> meas_sum(world@.take(i as int), Meas::Stock(resource)) == 0,
            forall|m: Meas|
                stock_frame(m, resource) ==> #[trigger] meas_sum(world@, m) == meas_sum(s0, m),
            forall|rm: usize| #[trigger] occ_in_room(world@, rm) <= occ_in_room(s0, rm),
            forall|j: int|
                0 <= j < i && #[trigger] is_container_of(world@, j, resource) ==> ((
                world@[j]->0.occupied)->0).0 > 0,
        decreases n - i,
    {
        let ghost s_cur = world@;
        let ghost rem0 = remaining as int;
        let mut is_cont = false;
        let mut occ: usize = 0;
        match world.slot(i) {
            Some(c) => match (&c.resource, &c.occupied) {
                (Some(q), Some(a)) => {
                    if *q == resource {
                        is_cont = true;
                        occ = a.0;
                    }
                },
                _ => {},
            },
            None => {},
        }
        if is_cont {
            proof {
                assert(crate::world::slot_ok(s_cur[i as int]));
                assert(occ as int % piece_s as int == 0);
            }
            let units_avail = occ / piece;
            let take = if remaining < units_avail {
                remaining
            } else {
                units_avail
            };
            proof {
                assert(units_avail * piece == occ && units_avail >= 0) by (nonlinear_arith)
                    requires
                        piece >= 1,
                        units_avail == occ / piece,
                        occ >= 0,
                        occ as int % piece as int == 0,
                ;
                assert(take * piece <= units_avail * piece) by (nonlinear_arith)
                    requires
                        take <= units_avail,
                        piece >= 1,
                ;
            }
            let new_occ = occ - take * piece;
            remaining = remaining - take;
            proof {
                assert(new_occ as int == ((units_avail - take) as int) * (piece_s as int))
                    by (nonlinear_arith)
                    requires
                        new_occ == occ - take * piece,
                        occ == units_avail * piece,
                        piece == piece_s,
                ;
                vstd::arithmetic::div_mod::lemma_mod_multiples_basic(
                    (units_avail - take) as int,
                    piece_s as int,
                );
                assert(piece_s * (amount.0 - remaining) == piece_s * (amount.0 - rem0) + take
                    * piece_s) by (nonlinear_arith)
                    requires
                        remaining == rem0 - take,
                ;
            }
            let ghost x: Option<crate::world::Components> = None;
            if new_occ == 0 {
                world.clear_slot(i);
            } else {
                let slot = world.slot_mut(i);
                match slot {
                    Some(c) => {
                        c.occupied = Some(AreaOccupied(new_occ));
                    },
                    None => {
                        proof {
                            assert(false);
                        }
                    },
                }
            }
            proof {
                let y = world@[i as int];
                assert(world@ == s_cur.update(i as int, y));
                assert(meas_val(Meas::Stock(resource), y) == new_occ);
                assert forall|m: Meas| #[trigger]
                    meas_sum(world@, m) == meas_sum(s_cur, m) - meas_val(m, s_cur[i as int])
                        + meas_val(m, y) by {
                    crate::world::lemma_meas_sum_update(s_cur, m, i as int, y);
                }
                assert forall|m: Meas| stock_frame(m, resource) implies #[trigger] meas_sum(
                    world@,
                    m,
                ) == meas_sum(s0, m) by {
                    assert(meas_val(m, s_cur[i as int]) == meas_val(m, y));
                }
                assert(stock_area(world@, resource) == stock_area(s_cur, resource) - take
                    * piece_s);
                assert forall|rm: usize| #[trigger]
                    occ_in_room(world@, rm) <= occ_in_room(s_cur, rm) by {
                    crate::world::lemma_meas_sum_update(s_cur, Meas::RoomOcc(rm), i as int, y);
                }
                assert(wf(world@)) by {
                    assert forall|j: int|
                        0 <= j < world@.len() implies crate::world::slot_ok(
                        #[trigger] world@[j],
                    ) by {
                        if j != i {
                            assert(world@[j] == s_cur[j]);
                        }
                        assert(crate::world::slot_ok(s_cur[j]));
                    }
                    assert forall|j: usize|
                        #[trigger] crate::world::live(world@, j) && crate::world::comp(
                            world@,
                            j,
                        ).room is Some implies is_room(
                        world@,
                        (crate::world::comp(world@, j).room->0).0.0,
                    ) by {
                        assert(crate::world::live(s_cur, j));
                        assert(crate::world::comp(world@, j).room == crate::world::comp(
                            s_cur,
                            j,
                        ).room);
                        let t = (crate::world::comp(s_cur, j).room->0).0.0;
                        assert(is_room(s_cur, t));
                        assert(crate::world::slot_ok(s_cur[i as int]));
                        assert(t != i);
                        assert(world@[t as int] == s_cur[t as int]);
                    }
                    assert forall|rm: usize| #[trigger] is_room(world@, rm) implies occ_in_room(
                        world@,
                        rm,
                    ) <= crate::world::room_capacity(world@, rm) by {
                        assert(is_room(s_cur, rm));
                        assert(world@[rm as int] == s_cur[rm as int]);
                        assert(occ_in_room(world@, rm) <= occ_in_room(s_cur, rm));
                    }
                }
                // the drained prefix stays drained while units are owed
                if remaining > 0 {
                    assert(take == units_avail);
                    assert(new_occ == 0);
                    crate::world::lemma_meas_sum_take_step(world@, Meas::Stock(resource), i as int);
                    assert(world@.take(i as int) =~= s_cur.take(i as int));
                }
                // no emptied container of the kind survives the visit
                assert forall|j: int|
                    0 <= j < i + 1 && #[trigger] is_container_of(world@, j, resource) implies ((
                world@[j]->0.occupied)->0).0 > 0 by {
                    if j < i {
                        assert(world@[j] == s_cur[j]);
                        assert(is_container_of(s_cur, j, resource));
                    }
                }
            }
        } else {
            proof {
                if remaining > 0 {
                    crate::world::lemma_meas_sum_take_step(world@, Meas::Stock(resource), i as int);
                }
                assert forall|j: int|
                    0 <= j < i + 1 && #[trigger] is_container_of(world@, j, resource) implies ((
                world@[j]->0.occupied)->0).0 > 0 by {
                    if j == i {
                        assert(crate::world::slot_ok(s_cur[i as int]));
                        assert(!is_container_of(world@, i as int, resource));
                    }
                }
            }
        }
        i = i + 1;
    }
    proof {
        assert(world@.take(n as int) =~= world@);
        crate::world::lemma_stock_area_multiple(s0, resource);
        lemma_meas_sum_nonneg(world@, Meas::Stock(resource));
        lemma_stock_area_fits(s0, resource);
        let stock0 = stock_area(s0, resource);
        if remaining > 0 {
            assert(stock_area(world@, resource) == 0);
            assert(piece_s * (amount.0 - remaining) == stock0);
            assert(amount.0 - remaining == stock0 / (piece_s as int)) by (nonlinear_arith)
                requires
                    piece_s >= 1,
                    piece_s * (amount.0 - remaining) == stock0,
            ;
        } else {
            assert(piece_s * amount.0 <= stock0) by {
                assert(stock_area(world@, resource) >= 0);
            }
            vstd::arithmetic::div_mod::lemma_multiply_divide_le(
                piece_s * amount.0,
                piece_s as int,
                amount.0 as int,
            );
            assert(amount.0 <= stock0 / (piece_s as int)) by (nonlinear_arith)
                requires
                    piece_s >= 1,
                    piece_s * amount.0 <= stock0,
                    stock0 % (piece_s as int) == 0,
            ;
        }
    }
    RealUnits(remaining)
}

/// Does the stock cover every entry of `required`?
pub fn enough_resources(world: &World, required: &Vec<(Resource, RealUnits)>) -> (r: bool)
    requires
        wf(world@),
    ensures
        r <==> (forall|k: int|
            0 <= k < required@.len() ==> stock_units(world@, #[trigger] required@[k].0)
                >= required@[k].1.0),
{
    let mut ok = true;
    let mut i: usize = 0;
    while i < required.len()
        invariant
            wf(world@),
            i <= required@.len(),
            ok <==> (forall|k: int|
                0 <= k < i ==> stock_units(world@, #[trigger] required@[k].0) >= required@[k].1.0),
        decreases required@.len() - i,
    {
        let (res, amount) = required[i];
        let have = how_much_we_have(world, res);
        if have.0 < amount.0 {
            ok = false;
        }
        i = i + 1;
    }
    ok
}

/// Some entry of `bunch` names the resource `res`.
pub open spec fn bunch_has(bunch: Seq<(Resource, RealUnits)>, res: Resource) -> bool {
    exists|k: int| 0 <= k < bunch.len() && bunch[k].0 == res
}

/// Measures a bunch withdrawal leaves untouched: everything but room
/// occupancy and the stock of the kinds withdrawn.
pub open spec fn bunch_frame(m: Meas, bunch: Seq<(Resource, RealUnits)>) -> bool {
    match m {
        Meas::RoomOcc(_) => false,
        Meas::Stock(q) => !bunch_has(bunch, q),
        _ => true,
    }
}

/// Withdraw several resources at once with an all-or-nothing check: if any
/// kind falls short nothing is withdrawn and the call fails; otherwise
/// every kind is withdrawn in full. Each kind may appear once.
pub fn writeoff_bunch(world: &mut World, bunch: &Vec<(Resource, RealUnits)>) -> (r: Result<
    (),
    crate::base::SamosborError,
>)
    requires
        wf(old(world)@),
        forall|k1: int, k2: int|
            0 <= k1 < k2 < bunch@.len() ==> (#[trigger] bunch@[k1]).0 != (#[trigger] bunch@[k2]).0,
    ensures
        wf(final(world)@),
        r is Ok <==> (forall|k: int|
            0 <= k < bunch@.len() ==> stock_units(old(world)@, (#[trigger] bunch@[k]).0)
                >= bunch@[k].1.0),
        r is Err ==> final(world)@ == old(world)@ && r == Err::<(), crate::base::SamosborError>(
            crate::base::SamosborError::NotEnoughResources,
        ),
        final(world)@.len() == old(world)@.len(),
        r is Ok ==> (forall|k: int|
            0 <= k < bunch@.len() ==> stock_units(final(world)@, (#[trigger] bunch@[k]).0)
                == stock_units(old(world)@, bunch@[k].0) - bunch@[k].1.0),
        forall|m: Meas|
            bunch_frame(m, bunch@) ==> #[trigger] meas_sum(final(world)@, m) == meas_sum(
                old(world)@,
                m,
            ),
        forall|rm: usize|
            #[trigger] occ_in_room(final(world)@, rm) <= occ_in_room(old(world)@, rm),
        forall|j: int|
            0 <= j < old(world)@.len() && !(exists|k: int|
                0 <= k < bunch@.len() && is_container_of(old(world)@, j, (#[trigger] bunch@[k]).0))
                ==> final(world)@[j] == old(world)@[j],
{
    let ghost s0 = old(world)@;
    if !enough_resources(world, bunch) {
        return Err(crate::base::SamosborError::NotEnoughResources);
    }
    let mut i: usize = 0;
    while i < bunch.len()
        invariant
            wf(world@),
            world@.len() == s0.len(),
            i <= bunch@.len(),
            forall|k1: int, k2: int|
                0 <= k1 < k2 < bunch@.len() ==> (#[trigger] bunch@[k1]).0 != (
                #[trigger] bunch@[k2]).0,
            forall|k: int|
                0 <= k < bunch@.len() ==> stock_units(s0, (#[trigger] bunch@[k]).0)
                    >= bunch@[k].1.0,
            forall|k: int|
                0 <= k < i ==> stock_units(world@, (#[trigger] bunch@[k]).0) == stock_units(
                    s0,
                    bunch@[k].0,
                ) - bunch@[k].1.0,
            forall|k: int|
                i <= k < bunch@.len() ==> stock_area(world@, (#[trigger] bunch@[k]).0)
                    == stock_area(s0, bunch@[k].0),
            forall|m: Meas|
                bunch_frame(m, bunch@) ==> #[trigger] meas_sum(world@, m) == meas_sum(s0, m),
            forall|rm: usize| #[trigger] occ_in_room(world@, rm) <= occ_in_room(s0, rm),
            forall|j: int|
                0 <= j < s0.len() && !(exists|k: int|
                    0 <= k < i && is_container_of(s0, j, (#[trigger] bunch@[k]).0)) ==> world@[j]
                    == s0[j],
        decreases bunch@.len() - i,
    {
        let ghost s_cur = world@;
        let (res, amount) = bunch[i];
        proof {
            crate::world::lemma_stock_area_multiple(s_cur, res);
            lemma_stock_area_fits(s_cur, res);
        }
        let short = writeoff(world, res, amount);
        proof {
            let p = spec_piece_size(res) as int;
            let a0 = stock_area(s_cur, res);
            let u0 = stock_units(s_cur, res);
            assert(u0 == stock_units(s0, res));
            assert(short.0 == 0);
            vstd::arithmetic::div_mod::lemma_fundamental_div_mod(a0, p);
            assert(a0 == p * u0);
            assert(stock_area(world@, res) == a0 - p * amount.0);
            assert(a0 - p * amount.0 == p * (u0 - amount.0)) by (nonlinear_arith)
                requires
                    a0 == p * u0,
            ;
            vstd::arithmetic::div_mod::lemma_div_multiples_vanish(u0 - amount.0, p);
            assert(stock_units(world@, res) == u0 - amount.0);
            // the other kinds' stock areas are untouched
            assert forall|k: int|
                i + 1 <= k < bunch@.len() implies stock_area(
                world@,
                (#[trigger] bunch@[k]).0,
            ) == stock_area(s0, bunch@[k].0) by {
                assert(bunch@[k].0 != res);
                assert(stock_frame(Meas::Stock(bunch@[k].0), res));
            }
            assert forall|k: int|
                0 <= k < i implies stock_units(world@, (#[trigger] bunch@[k]).0) == stock_units(
                    s0,
                    bunch@[k].0,
                ) - bunch@[k].1.0 by {
                assert(bunch@[k].0 != res);
                assert(stock_frame(Meas::Stock(bunch@[k].0), res));
            }
        }
        i = i + 1;
    }
    Ok(())
}

} // verus!
