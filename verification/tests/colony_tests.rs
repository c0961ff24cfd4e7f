//! Scenarios for the population queries, the dice, and the seeded colony.

use glavblock::area::{all_rooms_with_space, rooms_with_space, AreaType};
use glavblock::base::{SamosborError, Tier};
use glavblock::bootstrap::init_colony;
use glavblock::base::_d;
use glavblock::people::{
    block_mood, block_satiety, people_by_profession, spawn_1_g, spawn_comrad, Profession,
};
use glavblock::production::{install_germ, Germ};
use glavblock::queries::{what_take_place, who_take_place};
use glavblock::resources::{all_resources, Resource};
use glavblock::storage::{how_much_we_have, what_we_have};
use glavblock::turn::turn;
use glavblock::world::World;

#[test]
fn the_resource_listing_is_complete() {
    let kinds = all_resources();
    assert_eq!(kinds.len(), 14);
    assert_eq!(kinds[0], Resource::Concentrat);
    assert_eq!(kinds[13], Resource::BioRaw);
}

#[test]
fn dice_stay_in_range() {
    for _ in 0..50 {
        let roll = _d(2, 6);
        assert!(roll <= 10);
    }
    assert_eq!(_d(0, 6), 0);
    assert_eq!(_d(3, 0), 0);
    // single-faced dice only ever land on zero
    assert_eq!(_d(3, 1), 0);
}

#[test]
fn a_full_room_turns_settlers_away() {
    let mut world = World::new();
    let cell = install_germ(&mut world, Germ::GermT1, AreaType::Living);
    for _ in 0..3 {
        assert!(spawn_comrad(&mut world, Profession::NoProf, Tier::T1, cell).is_ok());
    }
    let r = spawn_comrad(&mut world, Profession::NoProf, Tier::T1, cell);
    assert!(matches!(r, Err(SamosborError::NotEnoughArea)));
}

#[test]
fn the_squad_needs_a_barracks_with_room() {
    let mut world = World::new();
    let small = install_germ(&mut world, Germ::GermT1, AreaType::Military);
    assert!(matches!(spawn_1_g(&mut world, small), Err(SamosborError::NotEnoughArea)));
    let barracks = install_germ(&mut world, Germ::GermT2, AreaType::Military);
    assert!(spawn_1_g(&mut world, barracks).is_ok());
    let census = people_by_profession(&world);
    assert!(census.iter().any(|e| e.0 == (Profession::Likvidator, Tier::T1) && e.1 == 13));
    assert!(census.iter().any(|e| e.0 == (Profession::Likvidator, Tier::T2) && e.1 == 1));
}

#[test]
fn occupancy_queries_group_by_room() {
    let mut world = World::new();
    let cell = install_germ(&mut world, Germ::GermT1, AreaType::Living);
    let empty_cell = install_germ(&mut world, Germ::GermT1, AreaType::Living);
    assert!(spawn_comrad(&mut world, Profession::Scientist, Tier::T2, cell).is_ok());
    assert!(spawn_comrad(&mut world, Profession::Worker, Tier::T1, cell).is_ok());
    let who = who_take_place(&world);
    assert_eq!(who.len(), 1);
    assert_eq!(who[0].0 .0, cell.0);
    assert_eq!(who[0].1.len(), 2);
    assert_eq!(who[0].1[0].0, Profession::Scientist);
    assert_eq!(who[0].1[1].0, Profession::Worker);
    assert_eq!(what_take_place(&world).len(), 0);
    let _ = empty_cell;
}

#[test]
fn an_empty_world_answers_empty() {
    let world = World::new();
    assert_eq!(rooms_with_space(&world).len(), 0);
    assert_eq!(all_rooms_with_space(&world).len(), 0);
    assert_eq!(people_by_profession(&world).len(), 0);
    assert_eq!(what_we_have(&world).len(), 0);
    assert_eq!(who_take_place(&world).len(), 0);
    assert_eq!(block_mood(&world), 0);
    assert_eq!(block_satiety(&world), 0);
}

#[test]
fn the_largest_germ_offers_its_full_capacity() {
    let mut world = World::new();
    let hall = install_germ(&mut world, Germ::GermT3, AreaType::Industrial);
    assert_eq!(glavblock::area::get_room_free_space(&world, hall).0, 50000);
}

#[test]
fn mood_bottoms_out_at_zero() {
    let mut world = World::new();
    let home = install_germ(&mut world, Germ::GermT1, AreaType::Living);
    assert!(spawn_comrad(&mut world, Profession::Worker, Tier::T1, home).is_ok());
    for _ in 0..4 {
        turn(&mut world);
    }
    assert_eq!(block_mood(&world), 0);
    turn(&mut world);
    assert_eq!(block_mood(&world), 0);
}

#[test]
fn the_seeded_colony_matches_the_plan() {
    let mut world = World::new();
    init_colony(&mut world);
    let census = people_by_profession(&world);
    assert!(census.iter().any(|e| e.0 == (Profession::Likvidator, Tier::T1) && e.1 == 13));
    assert!(census.iter().any(|e| e.0 == (Profession::Likvidator, Tier::T2) && e.1 == 1));
    assert!(census.iter().any(|e| e.0 == (Profession::Scientist, Tier::T1) && e.1 == 1));
    assert!(census.iter().any(|e| e.0 == (Profession::Worker, Tier::T1) && e.1 == 99));
    assert_eq!(how_much_we_have(&world, Resource::Concentrat).0, 1000);
    assert_eq!(how_much_we_have(&world, Resource::ScrapT1).0, 50);
    assert_eq!(how_much_we_have(&world, Resource::ScrapT2).0, 40);
    assert_eq!(how_much_we_have(&world, Resource::Polymer).0, 30);
    let held = what_we_have(&world);
    assert_eq!(held.len(), 4);
    // every room starts under construction
    assert_eq!(rooms_with_space(&world).len(), 0);
    // the workers' labor readies every germ in a single turn
    turn(&mut world);
    assert_eq!(rooms_with_space(&world).len(), 38);
    assert_eq!(all_rooms_with_space(&world).len(), 38);
    // everyone was fed from the thousand packs in store
    assert_eq!(how_much_we_have(&world, Resource::Concentrat).0, 1000 - 114);
    assert_eq!(block_satiety(&world), 114 * 100);
    assert_eq!(block_mood(&world), 114 * 6);
}
