//! The fixed starting scenario: the rooms, colonists, and stock a fresh
//! colony begins with.

use vstd::prelude::*;

use crate::area::AreaType;
use crate::base::Tier;
use crate::people::{spawn_1_g, spawn_comrad, Profession};
use crate::production::{install_germ, Germ};
use crate::resources::Resource;
use crate::storage::{
    put_resource, spec_deposit_into, spec_deposit_rem, spec_piece_size, RealUnits,
};
use crate::world::{
    count_people, free_in_room, is_room, lemma_meas_two_elems, lemma_occ_of_fresh_slot_is_zero,
    lemma_push_meas, meas_sum, meas_val, occ_in_room, room_capacity, room_status, room_type,
    stock_area, stock_units, wf, Components, Meas, World,
};

verus! {

/// When a single storage room exists, a deposit is decided by that room
/// alone: it absorbs as many whole units as its free area fits, and every
/// other room receives nothing.
proof fn lemma_deposit_single(
    s: Seq<Option<Components>>,
    piece: nat,
    i: int,
    rem: int,
    r: usize,
)
    requires
        0 <= i <= s.len(),
        piece >= 1,
        rem >= 0,
        s.len() <= crate::world::MAX_ENT,
        (r as int) < s.len(),
        is_room(s, r),
        room_type(s, r) == AreaType::Party,
        forall|j: usize|
            i <= j < s.len() && j != r ==> !(#[trigger] is_room(s, j) && room_type(s, j)
                == AreaType::Party),
    ensures
        i <= r ==> spec_deposit_rem(s, piece, i, rem) == rem - vstd::math::min(
            free_in_room(s, r) / piece as int,
            rem,
        ),
        i <= r ==> spec_deposit_into(s, piece, i, rem, r) == vstd::math::min(
            free_in_room(s, r) / piece as int,
            rem,
        ) * piece,
        i > r ==> spec_deposit_rem(s, piece, i, rem) == rem,
        i > r ==> spec_deposit_into(s, piece, i, rem, r) == 0,
        forall|r2: usize| r2 != r ==> #[trigger] spec_deposit_into(s, piece, i, rem, r2) == 0,
    decreases s.len() - i,
{
    if i >= s.len() {
        assert forall|r2: usize| r2 != r implies #[trigger] spec_deposit_into(s, piece, i, rem, r2)
            == 0 by {}
    } else {
        let t = crate::storage::spec_deposit_take(s, piece, i, rem);
        if i == r {
            assert(t == vstd::math::min(free_in_room(s, r) / piece as int, rem));
            lemma_deposit_single(s, piece, i + 1, rem - t, r);
            assert forall|r2: usize|
                r2 != r implies #[trigger] spec_deposit_into(s, piece, i, rem, r2) == 0 by {
                assert(spec_deposit_into(s, piece, i + 1, rem - t, r2) == 0);
            }
        } else {
            assert(i == (i as usize) as int);
            assert(!(is_room(s, i as usize) && room_type(s, i as usize) == AreaType::Party));
            assert(t == 0);
            lemma_deposit_single(s, piece, i + 1, rem, r);
            assert forall|r2: usize|
                r2 != r implies #[trigger] spec_deposit_into(s, piece, i, rem, r2) == 0 by {
                assert(spec_deposit_into(s, piece, i + 1, rem, r2) == 0);
                if i == r2 {
                    assert(t == 0);
                }
            }
        }
    }
}

/// No room but `r` stores anything when the world holds exactly one
/// storage room, and `r` is one.
proof fn lemma_single_party_room(s: Seq<Option<Components>>, r: usize)
    requires
        wf(s),
        (r as int) < s.len(),
        is_room(s, r),
        room_type(s, r) == AreaType::Party,
        meas_sum(s, Meas::Rooms(AreaType::Party)) == 1,
    ensures
        forall|j: usize|
            j != r ==> !(#[trigger] is_room(s, j) && room_type(s, j) == AreaType::Party),
{
    assert forall|j: usize|
        j != r implies !(#[trigger] is_room(s, j) && room_type(s, j) == AreaType::Party) by {
        if is_room(s, j) && room_type(s, j) == AreaType::Party {
            assert(crate::world::slot_ok(s[j as int]));
            assert(crate::world::slot_ok(s[r as int]));
            assert(meas_val(Meas::Rooms(AreaType::Party), s[j as int]) == 1);
            assert(meas_val(Meas::Rooms(AreaType::Party), s[r as int]) == 1);
            if j < r {
                lemma_meas_two_elems(s, Meas::Rooms(AreaType::Party), j as int, r as int);
            } else {
                lemma_meas_two_elems(s, Meas::Rooms(AreaType::Party), r as int, j as int);
            }
        }
    }
}

/// The form every room of the seeded colony has: still under
/// construction, a tier-2 germ of capacity 15000 for the barracks, the
/// workshop and the storage room, a tier-1 germ of capacity 3000 for the
/// laboratory and the living cells.
pub open spec fn seeded_room_shape(s: Seq<Option<Components>>, j: usize) -> bool {
    &&& room_status(s, j) == crate::base::TaskStatus::Constructing
    &&& (s[j as int]->0).status == Some(crate::base::TaskStatus::Constructing)
    &&& ((room_type(s, j) == AreaType::Military || room_type(s, j) == AreaType::Industrial
        || room_type(s, j) == AreaType::Party) ==> room_capacity(s, j) == 15000 && (
    s[j as int]->0).germ == Some(Germ::GermT2))
    &&& ((room_type(s, j) == AreaType::Science || room_type(s, j) == AreaType::Living)
        ==> room_capacity(s, j) == 3000 && (s[j as int]->0).germ == Some(Germ::GermT1))
}

/// The profession and tier pairings the seeded colony has people for.
pub open spec fn seeded_pair(p: Profession, t: Tier) -> bool {
    ||| (p == Profession::Likvidator && t == Tier::T1)
    ||| (p == Profession::Likvidator && t == Tier::T2)
    ||| (p == Profession::Scientist && t == Tier::T1)
    ||| (p == Profession::Worker && t == Tier::T1)
}

/// The resource kinds the seeded colony holds stock of.
pub open spec fn seeded_kind(res: Resource) -> bool {
    ||| res == Resource::Concentrat
    ||| res == Resource::ScrapT1
    ||| res == Resource::ScrapT2
    ||| res == Resource::Polymer
}

/// Room shape carries over to a world whose rooms are the old world's
/// rooms, unchanged.
proof fn lemma_shape_preserved(prev: Seq<Option<Components>>, cur: Seq<Option<Components>>)
    requires
        forall|j: usize|
            #[trigger] is_room(cur, j) ==> is_room(prev, j) && cur[j as int] == prev[j as int],
        forall|j: usize| #[trigger] is_room(prev, j) ==> seeded_room_shape(prev, j),
    ensures
        forall|j: usize| #[trigger] is_room(cur, j) ==> seeded_room_shape(cur, j),
{
    assert forall|j: usize| #[trigger] is_room(cur, j) implies seeded_room_shape(cur, j) by {
        assert(is_room(prev, j));
        assert(seeded_room_shape(prev, j));
        assert(cur[j as int] == prev[j as int]);
    }
}

/// Seed the starting colony into an empty world: a barracks with the
/// standard liquidator squad, a workshop, a storage room, a laboratory
/// room, living cells for one scientist and ninety-nine workers, and the
/// initial stock of concentrate, scrap, and polymer — all of which fits,
/// so nothing is left over.
pub fn init_colony(world: &mut World)
    requires
        wf(old(world)@),
        old(world)@.len() == 0,
    ensures
        wf(final(world)@),
        forall|j: usize|
            #[trigger] is_room(final(world)@, j) ==> seeded_room_shape(final(world)@, j),
        forall|p: Profession, t: Tier|
            !seeded_pair(p, t) ==> #[trigger] count_people(final(world)@, p, t) == 0,
        forall|res: Resource|
            !seeded_kind(res) ==> #[trigger] stock_units(final(world)@, res) == 0,
        count_people(final(world)@, Profession::Likvidator, Tier::T2) == 1,
        count_people(final(world)@, Profession::Likvidator, Tier::T1) == 13,
        count_people(final(world)@, Profession::Scientist, Tier::T1) == 1,
        count_people(final(world)@, Profession::Worker, Tier::T1) == 99,
        stock_units(final(world)@, Resource::Concentrat) == 1000,
        stock_units(final(world)@, Resource::ScrapT1) == 50,
        stock_units(final(world)@, Resource::ScrapT2) == 40,
        stock_units(final(world)@, Resource::Polymer) == 30,
        meas_sum(final(world)@, Meas::Rooms(AreaType::Military)) == 1,
        meas_sum(final(world)@, Meas::Rooms(AreaType::Industrial)) == 1,
        meas_sum(final(world)@, Meas::Rooms(AreaType::Party)) == 1,
        meas_sum(final(world)@, Meas::Rooms(AreaType::Science)) == 1,
        meas_sum(final(world)@, Meas::Rooms(AreaType::Living)) == 34,
{
    let ghost s0 = old(world)@;
    proof {
        assert forall|m: Meas| #[trigger] meas_sum(s0, m) == 0 by {}
    }
    // barracks with the standard squad
    let barracks = install_germ(world, Germ::GermT2, AreaType::Military);
    proof {
        lemma_occ_of_fresh_slot_is_zero(s0, barracks.0);
        assert(free_in_room(world@, barracks.0) == 15000);
    }
    let ghost sa = world@;
    let _squad = spawn_1_g(world, barracks);
    let ghost s1 = world@;
    proof {
        assert(count_people(s1, Profession::Likvidator, Tier::T2) == 1);
        assert(count_people(s1, Profession::Likvidator, Tier::T1) == 13);
        assert(count_people(s1, Profession::Scientist, Tier::T1) == 0);
        assert(count_people(s1, Profession::Worker, Tier::T1) == 0);
        assert(meas_sum(s1, Meas::Rooms(AreaType::Military)) == 1);
        assert(meas_sum(s1, Meas::Rooms(AreaType::Party)) == 0);
        assert(meas_sum(s1, Meas::Rooms(AreaType::Living)) == 0);
        assert forall|j: usize| #[trigger] is_room(sa, j) implies seeded_room_shape(sa, j) by {
            assert(j == 0);
        }
        assert forall|j: usize| #[trigger] is_room(s1, j) implies is_room(sa, j) && s1[j as int]
            == sa[j as int] by {
            if (j as int) >= sa.len() {
                let k = j as int - sa.len();
                assert(s1[sa.len() as int] == Some(
                    crate::people::spec_colonist(Profession::Likvidator, Tier::T2, barracks),
                ));
                if 1 <= k < 14 {
                    assert(s1[sa.len() + k] == Some(
                        crate::people::spec_colonist(Profession::Likvidator, Tier::T1, barracks),
                    ));
                }
                assert(false);
            }
        }
        lemma_shape_preserved(sa, s1);
        assert forall|p: Profession, t: Tier|
            !seeded_pair(p, t) implies #[trigger] count_people(s1, p, t) == 0 by {
            assert(count_people(sa, p, t) == 0);
            assert(count_people(s1, p, t) == count_people(sa, p, t));
        }
    }

    // a workshop, a storage room, and a laboratory room
    let _manufactory = install_germ(world, Germ::GermT2, AreaType::Industrial);
    let ghost s2 = world@;
    let stock_room = install_germ(world, Germ::GermT2, AreaType::Party);
    proof {
        lemma_occ_of_fresh_slot_is_zero(s2, stock_room.0);
    }
    let ghost s3 = world@;
    let _science = install_germ(world, Germ::GermT1, AreaType::Science);
    let ghost s4 = world@;

    // one scientist in a living cell
    let cell_scientists = install_germ(world, Germ::GermT1, AreaType::Living);
    proof {
        lemma_occ_of_fresh_slot_is_zero(s4, cell_scientists.0);
        assert(free_in_room(world@, cell_scientists.0) == 3000);
    }
    let ghost s5 = world@;
    let _sci = spawn_comrad(world, Profession::Scientist, Tier::T1, cell_scientists);
    proof {
        lemma_push_meas(s5, Some(crate::people::spec_colonist(
            Profession::Scientist,
            Tier::T1,
            cell_scientists,
        )));
    }

    let ghost sb = world@;
    let ghost stock_idx = stock_room.0;
    proof {
        assert(stock_idx == 16);
        assert(sb.len() == 20);
        assert(count_people(sb, Profession::Likvidator, Tier::T2) == 1);
        assert(count_people(sb, Profession::Likvidator, Tier::T1) == 13);
        assert(count_people(sb, Profession::Scientist, Tier::T1) == 1);
        assert(count_people(sb, Profession::Worker, Tier::T1) == 0);
        assert(meas_sum(sb, Meas::Rooms(AreaType::Military)) == 1);
        assert(meas_sum(sb, Meas::Rooms(AreaType::Industrial)) == 1);
        assert(meas_sum(sb, Meas::Rooms(AreaType::Party)) == 1);
        assert(meas_sum(sb, Meas::Rooms(AreaType::Science)) == 1);
        assert(meas_sum(sb, Meas::Rooms(AreaType::Living)) == 1);
        assert forall|res: Resource| #[trigger] stock_area(sb, res) == 0 by {}
        assert(is_room(sb, stock_idx));
        assert(room_type(sb, stock_idx) == AreaType::Party);
        assert(room_capacity(sb, stock_idx) == 15000);
        assert(occ_in_room(sb, stock_idx) == 0);
        assert forall|j: usize| #[trigger] is_room(sb, j) implies seeded_room_shape(sb, j) by {
            if (j as int) < s1.len() {
                assert(sb[j as int] == s1[j as int]);
                assert(is_room(s1, j));
                assert(seeded_room_shape(s1, j));
            } else if j == 19 {
                assert(sb[19] == Some(
                    crate::people::spec_colonist(Profession::Scientist, Tier::T1, cell_scientists),
                ));
                assert(false);
            } else {
                assert(15 <= j <= 18);
            }
        }
        assert forall|p: Profession, t: Tier|
            !seeded_pair(p, t) implies #[trigger] count_people(sb, p, t) == 0 by {
            assert(count_people(s2, p, t) == count_people(s1, p, t));
            assert(count_people(s3, p, t) == count_people(s2, p, t));
            assert(count_people(s4, p, t) == count_people(s3, p, t));
            assert(count_people(s5, p, t) == count_people(s4, p, t));
            assert(count_people(sb, p, t) == count_people(s5, p, t));
        }
    }

    // living cells, three workers each
    let mut k: usize = 0;
    while k < 33
        invariant
            wf(world@),
            k <= 33,
            world@.len() == 20 + 4 * k,
            stock_idx == 16,
            count_people(world@, Profession::Likvidator, Tier::T2) == 1,
            count_people(world@, Profession::Likvidator, Tier::T1) == 13,
            count_people(world@, Profession::Scientist, Tier::T1) == 1,
            count_people(world@, Profession::Worker, Tier::T1) == 3 * k,
            meas_sum(world@, Meas::Rooms(AreaType::Military)) == 1,
            meas_sum(world@, Meas::Rooms(AreaType::Industrial)) == 1,
            meas_sum(world@, Meas::Rooms(AreaType::Party)) == 1,
            meas_sum(world@, Meas::Rooms(AreaType::Science)) == 1,
            meas_sum(world@, Meas::Rooms(AreaType::Living)) == 1 + k,
            forall|res: Resource| #[trigger] stock_area(world@, res) == 0,
            is_room(world@, stock_idx),
            room_type(world@, stock_idx) == AreaType::Party,
            room_capacity(world@, stock_idx) == 15000,
            occ_in_room(world@, stock_idx) == 0,
            forall|j: usize| #[trigger] is_room(world@, j) ==> seeded_room_shape(world@, j),
            forall|p: Profession, t: Tier|
                !seeded_pair(p, t) ==> #[trigger] count_people(world@, p, t) == 0,
        decreases 33 - k,
    {
        let ghost sc = world@;
        let cell = install_germ(world, Germ::GermT1, AreaType::Living);
        proof {
            lemma_occ_of_fresh_slot_is_zero(sc, cell.0);
            assert(free_in_room(world@, cell.0) == 3000);
            assert(world@[stock_idx as int] == sc[stock_idx as int]);
        }
        let ghost c0 = world@;
        let _w1 = spawn_comrad(world, Profession::Worker, Tier::T1, cell);
        proof {
            lemma_push_meas(c0, Some(crate::people::spec_colonist(
                Profession::Worker,
                Tier::T1,
                cell,
            )));
            assert(free_in_room(world@, cell.0) == 2000);
            assert(world@[stock_idx as int] == sc[stock_idx as int]);
        }
        let ghost c1 = world@;
        let _w2 = spawn_comrad(world, Profession::Worker, Tier::T1, cell);
        proof {
            lemma_push_meas(c1, Some(crate::people::spec_colonist(
                Profession::Worker,
                Tier::T1,
                cell,
            )));
            assert(free_in_room(world@, cell.0) == 1000);
            assert(world@[stock_idx as int] == sc[stock_idx as int]);
        }
        let ghost c2 = world@;
        let _w3 = spawn_comrad(world, Profession::Worker, Tier::T1, cell);
        proof {
            lemma_push_meas(c2, Some(crate::people::spec_colonist(
                Profession::Worker,
                Tier::T1,
                cell,
            )));
            assert(world@[stock_idx as int] == sc[stock_idx as int]);
            assert(count_people(world@, Profession::Worker, Tier::T1) == 3 * k + 3);
            assert forall|res: Resource| #[trigger] stock_area(world@, res) == 0 by {
                assert(stock_area(world@, res) == stock_area(c2, res));
                assert(stock_area(c2, res) == stock_area(c1, res));
                assert(stock_area(c1, res) == stock_area(c0, res));
                assert(stock_area(c0, res) == stock_area(sc, res));
            }
            assert forall|j: usize| #[trigger] is_room(world@, j) implies seeded_room_shape(
                world@,
                j,
            ) by {
                if (j as int) < sc.len() {
                    assert(world@[j as int] == sc[j as int]);
                    assert(is_room(sc, j));
                    assert(seeded_room_shape(sc, j));
                } else if j == cell.0 {
                } else {
                    assert(world@[c0.len() as int] == Some(
                        crate::people::spec_colonist(Profession::Worker, Tier::T1, cell),
                    ));
                    assert(world@[c1.len() as int] == Some(
                        crate::people::spec_colonist(Profession::Worker, Tier::T1, cell),
                    ));
                    assert(world@[c2.len() as int] == Some(
                        crate::people::spec_colonist(Profession::Worker, Tier::T1, cell),
                    ));
                    assert(false);
                }
            }
            assert forall|p: Profession, t: Tier|
                !seeded_pair(p, t) implies #[trigger] count_people(world@, p, t) == 0 by {
                assert(count_people(c0, p, t) == count_people(sc, p, t));
                assert(count_people(c1, p, t) == count_people(c0, p, t));
                assert(count_people(c2, p, t) == count_people(c1, p, t));
                assert(count_people(world@, p, t) == count_people(c2, p, t));
            }
        }
        k = k + 1;
    }

    // the starting stock, which all fits into the storage room
    let ghost d0 = world@;
    proof {
        lemma_single_party_room(d0, stock_idx);
        lemma_deposit_single(d0, spec_piece_size(Resource::Concentrat), 0, 1000, stock_idx);
        assert(free_in_room(d0, stock_idx) == 15000);
    }
    let left1 = put_resource(world, Resource::Concentrat, RealUnits(1000));
    let ghost d1 = world@;
    proof {
        assert(left1.0 == 0);
        assert(occ_in_room(d1, stock_idx) == 1000);
        assert(stock_units(d1, Resource::Concentrat) == 1000);
        assert(d1[stock_idx as int] == d0[stock_idx as int]);
        assert forall|j: usize| #[trigger] is_room(d1, j) implies is_room(d0, j)
            && d1[j as int] == d0[j as int] by {}
        lemma_shape_preserved(d0, d1);
        assert forall|p: Profession, t: Tier|
            !seeded_pair(p, t) implies #[trigger] count_people(d1, p, t) == 0 by {
            assert(count_people(d1, p, t) == count_people(d0, p, t));
        }
        lemma_single_party_room(d1, stock_idx);
        lemma_deposit_single(d1, spec_piece_size(Resource::ScrapT1), 0, 50, stock_idx);
        assert(free_in_room(d1, stock_idx) == 14000);
    }
    let left2 = put_resource(world, Resource::ScrapT1, RealUnits(50));
    let ghost d2 = world@;
    proof {
        assert(left2.0 == 0);
        assert(occ_in_room(d2, stock_idx) == 6000);
        assert(d2[stock_idx as int] == d1[stock_idx as int]);
        assert forall|j: usize| #[trigger] is_room(d2, j) implies is_room(d1, j)
            && d2[j as int] == d1[j as int] by {}
        lemma_shape_preserved(d1, d2);
        assert forall|p: Profession, t: Tier|
            !seeded_pair(p, t) implies #[trigger] count_people(d2, p, t) == 0 by {
            assert(count_people(d2, p, t) == count_people(d1, p, t));
        }
        lemma_single_party_room(d2, stock_idx);
        lemma_deposit_single(d2, spec_piece_size(Resource::ScrapT2), 0, 40, stock_idx);
        assert(free_in_room(d2, stock_idx) == 9000);
    }
    let left3 = put_resource(world, Resource::ScrapT2, RealUnits(40));
    let ghost d3 = world@;
    proof {
        assert(left3.0 == 0);
        assert(occ_in_room(d3, stock_idx) == 10000);
        assert(d3[stock_idx as int] == d2[stock_idx as int]);
        assert forall|j: usize| #[trigger] is_room(d3, j) implies is_room(d2, j)
            && d3[j as int] == d2[j as int] by {}
        lemma_shape_preserved(d2, d3);
        assert forall|p: Profession, t: Tier|
            !seeded_pair(p, t) implies #[trigger] count_people(d3, p, t) == 0 by {
            assert(count_people(d3, p, t) == count_people(d2, p, t));
        }
        lemma_single_party_room(d3, stock_idx);
        lemma_deposit_single(d3, spec_piece_size(Resource::Polymer), 0, 30, stock_idx);
        assert(free_in_room(d3, stock_idx) == 5000);
    }
    let left4 = put_resource(world, Resource::Polymer, RealUnits(30));
    proof {
        assert(left4.0 == 0);
        assert(stock_area(d1, Resource::ScrapT1) == stock_area(d0, Resource::ScrapT1));
        assert(stock_area(d1, Resource::ScrapT2) == stock_area(d0, Resource::ScrapT2));
        assert(stock_area(d1, Resource::Polymer) == stock_area(d0, Resource::Polymer));
        assert(stock_area(d2, Resource::ScrapT2) == stock_area(d1, Resource::ScrapT2));
        assert(stock_area(d2, Resource::Polymer) == stock_area(d1, Resource::Polymer));
        assert(stock_area(d3, Resource::Polymer) == stock_area(d2, Resource::Polymer));
        assert(stock_area(world@, Resource::Polymer) == stock_area(d3, Resource::Polymer) + 50 * (
        30 - 0));
        assert(stock_units(world@, Resource::Polymer) == 30);
        assert(stock_area(d2, Resource::ScrapT1) == 5000);
        assert(stock_area(d3, Resource::ScrapT1) == stock_area(d2, Resource::ScrapT1));
        assert(stock_area(world@, Resource::ScrapT1) == stock_area(d3, Resource::ScrapT1));
        assert(stock_units(world@, Resource::ScrapT1) == 50);
        assert(stock_area(d3, Resource::ScrapT2) == 4000);
        assert(stock_area(world@, Resource::ScrapT2) == stock_area(d3, Resource::ScrapT2));
        assert(stock_units(world@, Resource::ScrapT2) == 40);
        assert(stock_area(d1, Resource::Concentrat) == 1000);
        assert(stock_area(d2, Resource::Concentrat) == stock_area(d1, Resource::Concentrat));
        assert(stock_area(d3, Resource::Concentrat) == stock_area(d2, Resource::Concentrat));
        assert(stock_area(world@, Resource::Concentrat) == stock_area(d3, Resource::Concentrat));
        assert(stock_units(world@, Resource::Concentrat) == 1000);
        assert forall|j: usize| #[trigger] is_room(world@, j) implies is_room(d3, j)
            && world@[j as int] == d3[j as int] by {}
        lemma_shape_preserved(d3, world@);
        assert forall|p: Profession, t: Tier|
            !seeded_pair(p, t) implies #[trigger] count_people(world@, p, t) == 0 by {
            assert(count_people(world@, p, t) == count_people(d3, p, t));
        }
        assert forall|res: Resource|
            !seeded_kind(res) implies #[trigger] stock_units(world@, res) == 0 by {
            assert(stock_area(d1, res) == stock_area(d0, res));
            assert(stock_area(d2, res) == stock_area(d1, res));
            assert(stock_area(d3, res) == stock_area(d2, res));
            assert(stock_area(world@, res) == stock_area(d3, res));
            assert(stock_area(d0, res) == 0);
            assert(spec_piece_size(res) >= 1);
            vstd::arithmetic::div_mod::lemma_div_of0(spec_piece_size(res) as int);
        }
    }
}

} // verus!

