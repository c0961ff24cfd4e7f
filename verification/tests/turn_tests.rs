//! Scenarios for the turn orchestrator: labor, task advancement, hunger,
//! and feeding.

use glavblock::area::{rooms_with_space, AreaType};
use glavblock::base::Tier;
use glavblock::people::{block_mood, block_satiety, people_by_profession, spawn_comrad, Profession};
use glavblock::production::{currently_building, install_germ, start_build_task, Germ, Stationary,
    TaskPriority};
use glavblock::resources::Resource;
use glavblock::storage::{how_much_we_have, put_resource, RealUnits};
use glavblock::turn::turn;
use glavblock::world::World;

#[test]
fn a_ten_unit_task_completes_in_one_turn() {
    // A germ needs 10 labor units of a tier-1 worker; one tier-1 worker
    // supplies exactly 10 per turn, so the room is ready after one turn.
    let mut world = World::new();
    let home = install_germ(&mut world, Germ::GermT1, AreaType::Living);
    let worker = spawn_comrad(&mut world, Profession::Worker, Tier::T1, home);
    assert!(worker.is_ok());
    // plenty of food so nobody starves during the build
    let store = install_germ(&mut world, Germ::GermT1, AreaType::Party);
    let _ = store;
    assert_eq!(put_resource(&mut world, Resource::Concentrat, RealUnits(100)).0, 0);
    assert_eq!(rooms_with_space(&world).len(), 0);
    turn(&mut world);
    // both germs complete: 10 + 10 = 20 <= 10? No: one worker gives 10
    // units, the first task takes them all, the second waits a turn.
    assert_eq!(rooms_with_space(&world).len(), 1);
    turn(&mut world);
    assert_eq!(rooms_with_space(&world).len(), 2);
}

#[test]
fn a_thousand_unit_task_takes_a_hundred_turns() {
    // The workbench asks for 1000 labor units of (worker, tier 1, no
    // tool); a single tier-1 worker invests 10 per turn, so it finishes
    // on turn 101 counting the turn that completes the worker's home.
    let mut world = World::new();
    let home = install_germ(&mut world, Germ::GermT1, AreaType::Living);
    assert!(spawn_comrad(&mut world, Profession::Worker, Tier::T1, home).is_ok());
    let shop = install_germ(&mut world, Germ::GermT2, AreaType::Industrial);
    let store = install_germ(&mut world, Germ::GermT2, AreaType::Party);
    let _ = store;
    assert_eq!(put_resource(&mut world, Resource::Concentrat, RealUnits(500)).0, 0);
    assert_eq!(put_resource(&mut world, Resource::ScrapT1, RealUnits(1)).0, 0);
    // germs first: home, shop, and store (10 units each, one per turn)
    turn(&mut world);
    turn(&mut world);
    turn(&mut world);
    assert!(start_build_task(&mut world, Stationary::BenchToolT1, shop, TaskPriority(0)).is_ok());
    assert_eq!(how_much_we_have(&world, Resource::ScrapT1).0, 0);
    let mut turns = 0;
    while !currently_building(&world).is_empty() {
        let before = currently_building(&world)[0].1.bp_invested.0;
        turn(&mut world);
        turns += 1;
        if let Some(entry) = currently_building(&world).first() {
            // progress never moves backward
            assert!(entry.1.bp_invested.0 >= before);
            assert_eq!(entry.1.bp_required.0, 1000);
        }
        assert!(turns <= 100, "the workbench should finish within 100 turns");
    }
    assert_eq!(turns, 100);
}

#[test]
fn hunger_and_missed_meals_wear_on_colonists() {
    // Three colonists at satiety 100, mood 5, with no food in store:
    // after one turn each sits at satiety 90 and mood 4 — the hunger
    // tick has not yet crossed the discomfort line, but the missed meal
    // costs a point of mood.
    let mut world = World::new();
    let home = install_germ(&mut world, Germ::GermT1, AreaType::Living);
    for _ in 0..3 {
        assert!(spawn_comrad(&mut world, Profession::Worker, Tier::T1, home).is_ok());
    }
    assert_eq!(block_satiety(&world), 300);
    assert_eq!(block_mood(&world), 15);
    turn(&mut world);
    assert_eq!(block_satiety(&world), 270);
    assert_eq!(block_mood(&world), 12);
}

#[test]
fn fed_colonists_hold_their_ground() {
    // With stock on the shelf a colonist eats every turn: satiety stays
    // level and mood climbs to its cap.
    let mut world = World::new();
    let home = install_germ(&mut world, Germ::GermT1, AreaType::Living);
    assert!(spawn_comrad(&mut world, Profession::Worker, Tier::T1, home).is_ok());
    let _store = install_germ(&mut world, Germ::GermT1, AreaType::Party);
    assert_eq!(put_resource(&mut world, Resource::Concentrat, RealUnits(50)).0, 0);
    turn(&mut world);
    assert_eq!(block_satiety(&world), 100);
    assert_eq!(block_mood(&world), 6);
    assert_eq!(how_much_we_have(&world, Resource::Concentrat).0, 49);
    for _ in 0..10 {
        turn(&mut world);
    }
    assert_eq!(block_satiety(&world), 100);
    assert_eq!(block_mood(&world), 10);
    assert_eq!(how_much_we_have(&world, Resource::Concentrat).0, 39);
}

#[test]
fn starvation_removes_colonists_from_the_census() {
    // With nothing to eat, satiety drops by ten per turn from one
    // hundred; the tick that takes it below ten removes the colonist.
    let mut world = World::new();
    let home = install_germ(&mut world, Germ::GermT1, AreaType::Living);
    assert!(spawn_comrad(&mut world, Profession::Stalker, Tier::T2, home).is_ok());
    for t in 0..9 {
        let census = people_by_profession(&world);
        assert!(
            census.iter().any(|e| e.0 == (Profession::Stalker, Tier::T2) && e.1 == 1),
            "colonist alive before turn {}",
            t,
        );
        turn(&mut world);
    }
    // satiety hit 10 after nine turns; the tenth tick is lethal
    turn(&mut world);
    let census = people_by_profession(&world);
    assert!(census.iter().all(|e| e.0 != (Profession::Stalker, Tier::T2)));
    assert_eq!(block_satiety(&world), 0);
}

#[test]
fn ready_rooms_never_regress() {
    let mut world = World::new();
    let home = install_germ(&mut world, Germ::GermT1, AreaType::Living);
    assert!(spawn_comrad(&mut world, Profession::Worker, Tier::T1, home).is_ok());
    let _store = install_germ(&mut world, Germ::GermT1, AreaType::Party);
    assert_eq!(put_resource(&mut world, Resource::Concentrat, RealUnits(30)).0, 0);
    turn(&mut world);
    let ready_now = rooms_with_space(&world).len();
    assert!(ready_now >= 1);
    for _ in 0..5 {
        turn(&mut world);
        assert!(rooms_with_space(&world).len() >= ready_now);
    }
}
