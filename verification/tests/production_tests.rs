//! Scenarios for the production system: tables, buildability, installs.

use glavblock::area::{get_room_free_space, get_sufficent_room, AreaType};
use glavblock::base::{SamosborError, Tier};
use glavblock::people::{spawn_comrad, Profession};
use glavblock::production::{
    all_stationaries, buildpower_downgrage_coef, can_build_stationary, diff2hset, install_germ,
    stationary_build_power, stationary_requirements, stationary_size, start_build_task,
    task_meta2progress, tier2comrad_buildpower, what_not_enough, BuildPower, Germ, Stationary,
    TaskPriority,
};
use glavblock::resources::Resource;
use glavblock::storage::{put_resource, what_we_have, RealUnits};
use glavblock::turn::turn;
use glavblock::world::World;

#[test]
fn tables_hold_their_values() {
    assert_eq!(stationary_size(Stationary::BenchToolT1).0, 2000);
    assert_eq!(stationary_size(Stationary::NeuroTerminal).0, 500);
    assert_eq!(stationary_build_power(Stationary::BenchToolT3).0, 40);
    assert_eq!(stationary_build_power(Stationary::Barrel).0, 10);
    assert_eq!(tier2comrad_buildpower(Tier::T1).0, 10);
    assert_eq!(tier2comrad_buildpower(Tier::T2).0, 20);
    assert_eq!(tier2comrad_buildpower(Tier::T3).0, 40);
    assert_eq!(all_stationaries().len(), 9);
}

#[test]
fn downgrade_coefficients() {
    assert_eq!(buildpower_downgrage_coef(Tier::T1, Tier::T1, BuildPower(7)).0, 7);
    assert_eq!(buildpower_downgrage_coef(Tier::T2, Tier::T1, BuildPower(7)).0, 14);
    assert_eq!(buildpower_downgrage_coef(Tier::T3, Tier::T1, BuildPower(7)).0, 28);
    assert_eq!(buildpower_downgrage_coef(Tier::T1, Tier::T3, BuildPower(7)).0, 0);
}

#[test]
fn requirements_turn_into_fresh_progress() {
    let reqs = stationary_requirements(Stationary::BenchToolT1);
    assert_eq!(reqs.len(), 1);
    assert_eq!(reqs[0].bp.0, 1000);
    let progress = task_meta2progress(reqs);
    assert_eq!(progress.bp_required.0, 1000);
    assert_eq!(progress.bp_invested.0, 0);
    assert_eq!(progress.who_should_finish.len(), 1);
    let ob = progress.who_should_finish[0];
    assert_eq!(ob.0, Profession::Worker);
    assert_eq!(ob.1, Tier::T1);
    assert_eq!(ob.2, Stationary::NoTool);
    assert_eq!(ob.3 .0, 1000);
}

#[test]
fn deficits_list_what_is_missing() {
    let exist = vec![(Resource::ScrapT1, RealUnits(3))];
    let required = vec![(Resource::ScrapT1, RealUnits(5)), (Resource::Polymer, RealUnits(2))];
    let missing = what_not_enough(exist, required);
    assert_eq!(missing.len(), 2);
    assert_eq!(missing[0].0, Resource::ScrapT1);
    assert_eq!(missing[0].1 .0, 2);
    assert_eq!(missing[1].0, Resource::Polymer);
    assert_eq!(missing[1].1 .0, 2);
}

#[test]
fn covered_requirements_leave_no_deficit() {
    let exist = vec![(Resource::ScrapT1, RealUnits(5))];
    let required = vec![(Resource::ScrapT1, RealUnits(5))];
    assert_eq!(what_not_enough(exist, required).len(), 0);
}

#[test]
fn diff_lists_missing_kinds_once() {
    let req = vec![Stationary::Barrel, Stationary::LabT1, Stationary::Barrel];
    let exist = vec![Stationary::LabT1];
    let diff = diff2hset(&req, &exist);
    assert_eq!(diff.len(), 1);
    assert_eq!(diff[0], Stationary::Barrel);
}

#[test]
fn missing_resources_block_a_build() {
    // Asking to build something that needs a unit of scrap with nothing
    // in stock fails, naming the scrap with a deficit of one.
    let mut world = World::new();
    let held = what_we_have(&world);
    let verdict = can_build_stationary(&world, held, Stationary::BenchToolT2);
    match verdict {
        Ok(_) => panic!("a build with no resources must not pass"),
        Err(missing) => {
            assert_eq!(missing.2.len(), 1);
            assert_eq!(missing.2[0].0, Resource::ScrapT1);
            assert_eq!(missing.2[0].1 .0, 1);
        },
    }
}

#[test]
fn a_fully_supplied_build_passes() {
    let mut world = World::new();
    let home = install_germ(&mut world, Germ::GermT1, AreaType::Living);
    assert!(spawn_comrad(&mut world, Profession::Worker, Tier::T1, home).is_ok());
    let shop = install_germ(&mut world, Germ::GermT2, AreaType::Industrial);
    let _store = install_germ(&mut world, Germ::GermT1, AreaType::Party);
    assert_eq!(put_resource(&mut world, Resource::ScrapT1, RealUnits(2)).0, 0);
    assert_eq!(put_resource(&mut world, Resource::Concentrat, RealUnits(50)).0, 0);
    // the industrial room must be ready before it can host the work
    let held_early = what_we_have(&world);
    let early = can_build_stationary(&world, held_early, Stationary::Barrel);
    match early {
        Ok(_) => panic!("no ready industrial room exists yet"),
        Err(missing) => assert!(!missing.3),
    }
    turn(&mut world);
    turn(&mut world);
    let held = what_we_have(&world);
    let verdict = can_build_stationary(&world, held, Stationary::Barrel);
    match verdict {
        Ok(room) => assert_eq!(room.0, shop.0),
        Err(_) => panic!("everything needed is in place"),
    }
}

#[test]
fn starting_a_build_takes_space_and_materials() {
    let mut world = World::new();
    let shop = install_germ(&mut world, Germ::GermT2, AreaType::Industrial);
    let _store = install_germ(&mut world, Germ::GermT1, AreaType::Party);
    assert_eq!(put_resource(&mut world, Resource::ScrapT1, RealUnits(3)).0, 0);
    let before = get_room_free_space(&world, shop).0;
    let r = start_build_task(&mut world, Stationary::Barrel, shop, TaskPriority(0));
    assert!(r.is_ok());
    assert_eq!(get_room_free_space(&world, shop).0, before - 1500);
    let held = what_we_have(&world);
    assert!(held.iter().any(|e| e.0 == Resource::ScrapT1 && e.1 .0 == 2));
}

#[test]
fn a_cramped_room_rejects_a_build() {
    let mut world = World::new();
    // a tier-1 germ offers 3000 area; the lab needs 6000
    let small = install_germ(&mut world, Germ::GermT1, AreaType::Industrial);
    let r = start_build_task(&mut world, Stationary::LabT3, small, TaskPriority(0));
    assert!(matches!(r, Err(SamosborError::NotEnoughArea)));
}

#[test]
fn the_fullest_fitting_room_hosts_new_work() {
    let mut world = World::new();
    let a = install_germ(&mut world, Germ::GermT1, AreaType::Living);
    let b = install_germ(&mut world, Germ::GermT1, AreaType::Living);
    let worker_home = install_germ(&mut world, Germ::GermT1, AreaType::Living);
    assert!(spawn_comrad(&mut world, Profession::Worker, Tier::T1, worker_home).is_ok());
    let _store = install_germ(&mut world, Germ::GermT1, AreaType::Party);
    assert_eq!(put_resource(&mut world, Resource::Concentrat, RealUnits(50)).0, 0);
    for _ in 0..4 {
        turn(&mut world);
    }
    // fill room `a` to 2000 of its 3000
    assert!(spawn_comrad(&mut world, Profession::Party, Tier::T1, a).is_ok());
    assert!(spawn_comrad(&mut world, Profession::Party, Tier::T1, a).is_ok());
    // both fit another 1000, but `a` is fuller
    let pick = get_sufficent_room(&world, glavblock::area::AreaOccupied(1000), AreaType::Living);
    assert_eq!(pick.map(|e| e.0), Some(a.0));
    // nothing fits 4000
    let none = get_sufficent_room(&world, glavblock::area::AreaOccupied(4000), AreaType::Living);
    assert!(none.is_none());
    let _ = b;
}
