//! Scenarios for the storage ledger: deposits, withdrawals, snapshots.

use glavblock::area::{get_room_free_space, AreaType};
use glavblock::production::{install_germ, Germ};
use glavblock::resources::Resource;
use glavblock::storage::{
    enough_resources, get_piece_size, get_rooms_for_divisible_load, how_much_we_have,
    put_resource, volume2real, what_we_have, writeoff, writeoff_bunch, RealUnits,
};
use glavblock::base::SamosborError;
use glavblock::world::World;
use glavblock::area::AreaOccupied;

#[test]
fn piece_sizes_follow_the_table() {
    assert_eq!(get_piece_size(Resource::Concentrat).0, 1);
    assert_eq!(get_piece_size(Resource::ScrapT1).0, 100);
    assert_eq!(get_piece_size(Resource::Polymer).0, 50);
    assert_eq!(get_piece_size(Resource::BioRaw).0, 10);
    assert_eq!(get_piece_size(Resource::ReagentT3).0, 10);
}

#[test]
fn volume_conversion_truncates() {
    assert_eq!(volume2real(Resource::ScrapT1, AreaOccupied(250)).0, 2);
    assert_eq!(volume2real(Resource::Concentrat, AreaOccupied(7)).0, 7);
    assert_eq!(volume2real(Resource::Polymer, AreaOccupied(49)).0, 0);
}

#[test]
fn deposit_into_single_storage_room() {
    // A single storage room of capacity 3000 takes a full load of 1000
    // one-area units: nothing is left over, and 2000 area stays free.
    let mut world = World::new();
    let room = install_germ(&mut world, Germ::GermT1, AreaType::Party);
    let left = put_resource(&mut world, Resource::Concentrat, RealUnits(1000));
    assert_eq!(left.0, 0);
    assert_eq!(how_much_we_have(&world, Resource::Concentrat).0, 1000);
    assert_eq!(get_room_free_space(&world, room).0, 2000);
}

#[test]
fn deposit_overflow_is_returned() {
    // The room fits 3000 area; 40 scrap pieces need 4000, so 10 come back.
    let mut world = World::new();
    let _room = install_germ(&mut world, Germ::GermT1, AreaType::Party);
    let left = put_resource(&mut world, Resource::ScrapT1, RealUnits(40));
    assert_eq!(left.0, 10);
    assert_eq!(how_much_we_have(&world, Resource::ScrapT1).0, 30);
}

#[test]
fn deposit_without_storage_room_fails_whole() {
    let mut world = World::new();
    let _living = install_germ(&mut world, Germ::GermT1, AreaType::Living);
    let left = put_resource(&mut world, Resource::Concentrat, RealUnits(5));
    assert_eq!(left.0, 5);
    assert_eq!(how_much_we_have(&world, Resource::Concentrat).0, 0);
}

#[test]
fn deposit_splits_across_storage_rooms() {
    let mut world = World::new();
    let _a = install_germ(&mut world, Germ::GermT1, AreaType::Party);
    let _b = install_germ(&mut world, Germ::GermT1, AreaType::Party);
    // 45 scrap pieces need 4500 area; each room fits 30 pieces.
    let left = put_resource(&mut world, Resource::ScrapT1, RealUnits(45));
    assert_eq!(left.0, 0);
    assert_eq!(how_much_we_have(&world, Resource::ScrapT1).0, 45);
    let rooms = get_rooms_for_divisible_load(&world, Resource::ScrapT1, RealUnits(0));
    assert_eq!(rooms.len(), 2);
    assert_eq!(rooms[0].1 .0, 0);
    assert_eq!(rooms[1].1 .0, 1500);
}

#[test]
fn withdraw_shortfall_and_emptying() {
    // Withdrawing more than is held reports the difference and leaves
    // nothing behind.
    let mut world = World::new();
    let _room = install_germ(&mut world, Germ::GermT1, AreaType::Party);
    let left = put_resource(&mut world, Resource::ScrapT1, RealUnits(5));
    assert_eq!(left.0, 0);
    let short = writeoff(&mut world, Resource::ScrapT1, RealUnits(9));
    assert_eq!(short.0, 4);
    assert_eq!(how_much_we_have(&world, Resource::ScrapT1).0, 0);
}

#[test]
fn deposit_withdraw_round_trip_conserves_stock() {
    // Conservation: withdraw what a deposit actually placed and the
    // stock is back where it started.
    let mut world = World::new();
    let _room = install_germ(&mut world, Germ::GermT1, AreaType::Party);
    let seed = put_resource(&mut world, Resource::Polymer, RealUnits(10));
    assert_eq!(seed.0, 0);
    let before = how_much_we_have(&world, Resource::Polymer).0;
    let n = 200;
    let left = put_resource(&mut world, Resource::Polymer, RealUnits(n));
    let short = writeoff(&mut world, Resource::Polymer, RealUnits(n - left.0));
    assert_eq!(short.0, 0);
    assert_eq!(how_much_we_have(&world, Resource::Polymer).0, before);
}

#[test]
fn snapshot_reports_and_is_idempotent() {
    let mut world = World::new();
    let _room = install_germ(&mut world, Germ::GermT2, AreaType::Party);
    assert_eq!(put_resource(&mut world, Resource::Concentrat, RealUnits(7)).0, 0);
    assert_eq!(put_resource(&mut world, Resource::ScrapT2, RealUnits(3)).0, 0);
    let a = what_we_have(&world);
    let b = what_we_have(&world);
    assert_eq!(a.len(), 2);
    assert_eq!(a.len(), b.len());
    for k in 0..a.len() {
        assert_eq!(a[k].0, b[k].0);
        assert_eq!(a[k].1 .0, b[k].1 .0);
    }
    assert!(a.iter().any(|e| e.0 == Resource::Concentrat && e.1 .0 == 7));
    assert!(a.iter().any(|e| e.0 == Resource::ScrapT2 && e.1 .0 == 3));
}

#[test]
fn enough_resources_checks_every_kind() {
    let mut world = World::new();
    let _room = install_germ(&mut world, Germ::GermT2, AreaType::Party);
    assert_eq!(put_resource(&mut world, Resource::ScrapT1, RealUnits(5)).0, 0);
    let ok = vec![(Resource::ScrapT1, RealUnits(5))];
    let too_much = vec![(Resource::ScrapT1, RealUnits(6))];
    let missing = vec![(Resource::ScrapT1, RealUnits(2)), (Resource::Slime, RealUnits(1))];
    assert!(enough_resources(&world, &ok));
    assert!(!enough_resources(&world, &too_much));
    assert!(!enough_resources(&world, &missing));
}

#[test]
fn bunch_withdrawal_is_all_or_nothing() {
    let mut world = World::new();
    let _room = install_germ(&mut world, Germ::GermT2, AreaType::Party);
    assert_eq!(put_resource(&mut world, Resource::ScrapT1, RealUnits(5)).0, 0);
    assert_eq!(put_resource(&mut world, Resource::Polymer, RealUnits(4)).0, 0);
    let bad = vec![(Resource::ScrapT1, RealUnits(2)), (Resource::Polymer, RealUnits(9))];
    let r = writeoff_bunch(&mut world, &bad);
    assert!(matches!(r, Err(SamosborError::NotEnoughResources)));
    assert_eq!(how_much_we_have(&world, Resource::ScrapT1).0, 5);
    assert_eq!(how_much_we_have(&world, Resource::Polymer).0, 4);
    let good = vec![(Resource::ScrapT1, RealUnits(2)), (Resource::Polymer, RealUnits(4))];
    let r2 = writeoff_bunch(&mut world, &good);
    assert!(r2.is_ok());
    assert_eq!(how_much_we_have(&world, Resource::ScrapT1).0, 3);
    assert_eq!(how_much_we_have(&world, Resource::Polymer).0, 0);
}
