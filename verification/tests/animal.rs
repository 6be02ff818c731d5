use orc_village::animal::{
    can_spawn_at, join, kind_for, try_respawn, Animal, AnimalKind, FLEE_RANGE, POPULATION_FLOOR,
    RESPAWN_INTERVAL,
};
use orc_village::color::Color;
use orc_village::event::EventLog;
use orc_village::world::{Terrain, World, MAP_HEIGHT, MAP_WIDTH};
use rand::rngs::StdRng;
use rand::SeedableRng;

fn pasture() -> World {
    let mut tiles = vec![vec![Terrain::Grass; MAP_WIDTH]; MAP_HEIGHT];
    tiles[75][150] = Terrain::Campfire;
    tiles[77][152] = Terrain::MeatRack;
    World { tiles, campfire_pos: (150, 75), food_stockpile: 3, regrowth_timers: Vec::new() }
}

#[test]
fn kinds_have_their_looks() {
    assert_eq!(AnimalKind::Deer.symbol(), 'δ');
    assert_eq!(AnimalKind::Boar.symbol(), 'β');
    assert_eq!(AnimalKind::Deer.color(), Color::Rgb(180, 140, 80));
    assert_eq!(AnimalKind::Boar.color(), Color::Rgb(140, 100, 60));
    assert_eq!(AnimalKind::Deer.name(), "Deer");
    assert_eq!(AnimalKind::Boar.name(), "Boar");
}

#[test]
fn new_animal_is_alive_where_it_was_put() {
    let a = Animal::new(AnimalKind::Boar, 12, 34);
    assert_eq!(a.kind, AnimalKind::Boar);
    assert_eq!((a.x, a.y), (12, 34));
    assert!(a.alive);
}

#[test]
fn deer_flees_two_tiles_straight_away() {
    let w = pasture();
    let mut rng = StdRng::seed_from_u64(1);
    let mut deer = Animal::new(AnimalKind::Deer, 50, 50);
    deer.update(&w, &[(47, 50)], &mut rng);
    assert_eq!((deer.x, deer.y), (52, 50));
    let mut deer = Animal::new(AnimalKind::Deer, 50, 50);
    deer.update(&w, &[(50, 55)], &mut rng);
    assert_eq!((deer.x, deer.y), (50, 48));
    let mut deer = Animal::new(AnimalKind::Deer, 50, 50);
    deer.update(&w, &[(52, 47)], &mut rng);
    assert_eq!((deer.x, deer.y), (48, 52));
}

#[test]
fn deer_flees_at_the_edge_of_its_range_and_not_beyond() {
    let w = pasture();
    assert_eq!(FLEE_RANGE, 5);
    for seed in 0..20u64 {
        let mut rng = StdRng::seed_from_u64(seed);
        let mut deer = Animal::new(AnimalKind::Deer, 50, 50);
        deer.update(&w, &[(45, 50)], &mut rng);
        assert_eq!((deer.x, deer.y), (52, 50));
        let mut deer = Animal::new(AnimalKind::Deer, 50, 50);
        deer.update(&w, &[(44, 50)], &mut rng);
        assert!(deer.x.abs_diff(50) <= 1 && deer.y.abs_diff(50) <= 1);
    }
}

#[test]
fn deer_flees_from_the_nearest_orc() {
    let w = pasture();
    let mut rng = StdRng::seed_from_u64(3);
    let mut deer = Animal::new(AnimalKind::Deer, 50, 50);
    deer.update(&w, &[(54, 50), (50, 49), (100, 100)], &mut rng);
    assert_eq!((deer.x, deer.y), (50, 52));
    // Of two orcs just as near, the one that comes first counts.
    let mut deer = Animal::new(AnimalKind::Deer, 50, 50);
    deer.update(&w, &[(52, 50), (48, 50)], &mut rng);
    assert_eq!((deer.x, deer.y), (48, 50));
}

#[test]
fn deer_on_the_orcs_own_tile_stays() {
    let w = pasture();
    let mut rng = StdRng::seed_from_u64(3);
    let mut deer = Animal::new(AnimalKind::Deer, 50, 50);
    deer.update(&w, &[(50, 50)], &mut rng);
    assert_eq!((deer.x, deer.y), (50, 50));
}

#[test]
fn fleeing_deer_stays_if_it_cannot_go_there() {
    let mut w = pasture();
    w.set(52, 50, Terrain::Water);
    for seed in 0..20u64 {
        let mut rng = StdRng::seed_from_u64(seed);
        let mut deer = Animal::new(AnimalKind::Deer, 50, 50);
        deer.update(&w, &[(48, 50)], &mut rng);
        assert_eq!((deer.x, deer.y), (50, 50));
    }
}

#[test]
fn fleeing_deer_is_held_at_the_edge() {
    let w = pasture();
    let mut rng = StdRng::seed_from_u64(5);
    let mut deer = Animal::new(AnimalKind::Deer, 1, 149);
    deer.update(&w, &[(3, 147)], &mut rng);
    assert_eq!((deer.x, deer.y), (0, 149));
}

#[test]
fn flee_from_moves_by_the_stride() {
    let w = pasture();
    let mut deer = Animal::new(AnimalKind::Deer, 20, 20);
    deer.flee_from(&w, 21, 19);
    assert_eq!((deer.x, deer.y), (18, 22));
    deer.flee_from(&w, 18, 30);
    assert_eq!((deer.x, deer.y), (18, 20));
}

#[test]
fn boar_does_not_flee() {
    let w = pasture();
    for seed in 0..50u64 {
        let mut rng = StdRng::seed_from_u64(seed);
        let mut boar = Animal::new(AnimalKind::Boar, 50, 50);
        boar.update(&w, &[(49, 50)], &mut rng);
        assert!(boar.x.abs_diff(50) <= 1 && boar.y.abs_diff(50) <= 1);
    }
}

#[test]
fn dead_animal_does_not_move() {
    let w = pasture();
    for seed in 0..50u64 {
        let mut rng = StdRng::seed_from_u64(seed);
        let mut deer = Animal::new(AnimalKind::Deer, 50, 50);
        deer.alive = false;
        deer.update(&w, &[(49, 50)], &mut rng);
        assert_eq!((deer.x, deer.y), (50, 50));
        assert!(!deer.alive);
        deer.update(&w, &[], &mut rng);
        assert_eq!((deer.x, deer.y), (50, 50));
    }
}

#[test]
fn wandering_takes_single_steps_in_every_direction() {
    let w = pasture();
    let mut rng = StdRng::seed_from_u64(11);
    let mut seen = std::collections::HashSet::new();
    let mut moved = 0;
    let rounds = 4000;
    for _ in 0..rounds {
        let mut deer = Animal::new(AnimalKind::Deer, 50, 50);
        deer.update(&w, &[], &mut rng);
        assert!(deer.x.abs_diff(50) <= 1 && deer.y.abs_diff(50) <= 1);
        if (deer.x, deer.y) != (50, 50) {
            moved += 1;
        }
        seen.insert((deer.x, deer.y));
    }
    assert_eq!(seen.len(), 9);
    // A deer moves in two ticks of five, and one draw in nine leaves it in place.
    let expected = rounds * 2 / 5 * 8 / 9;
    assert!(moved > expected * 8 / 10 && moved < expected * 12 / 10, "moved {}", moved);
}

#[test]
fn boars_wander_half_as_often_as_deer() {
    let w = pasture();
    let mut rng = StdRng::seed_from_u64(12);
    let mut moved = 0;
    let rounds = 4000;
    for _ in 0..rounds {
        let mut boar = Animal::new(AnimalKind::Boar, 50, 50);
        boar.update(&w, &[], &mut rng);
        if (boar.x, boar.y) != (50, 50) {
            moved += 1;
        }
    }
    let expected = rounds / 5 * 8 / 9;
    assert!(moved > expected * 8 / 10 && moved < expected * 12 / 10, "moved {}", moved);
}

#[test]
fn wandering_animal_does_not_step_into_water() {
    let mut w = pasture();
    for y in 49..=51 {
        for x in 49..=51 {
            if (x, y) != (50, 50) {
                w.set(x, y, Terrain::Water);
            }
        }
    }
    let mut rng = StdRng::seed_from_u64(13);
    let mut boar = Animal::new(AnimalKind::Boar, 50, 50);
    for _ in 0..500 {
        boar.update(&w, &[], &mut rng);
        assert_eq!((boar.x, boar.y), (50, 50));
    }
}

#[test]
fn wander_takes_the_step_it_is_given() {
    let mut w = pasture();
    let mut a = Animal::new(AnimalKind::Boar, 10, 10);
    a.wander(&w, 1, -1);
    assert_eq!((a.x, a.y), (11, 9));
    a.wander(&w, 0, 0);
    assert_eq!((a.x, a.y), (11, 9));
    w.set(10, 9, Terrain::Rock);
    a.wander(&w, -1, 0);
    assert_eq!((a.x, a.y), (11, 9));
    let mut b = Animal::new(AnimalKind::Deer, 0, 0);
    b.wander(&w, -1, -1);
    assert_eq!((b.x, b.y), (0, 0));
}

#[test]
fn killed_animal_leaves_food_on_grass() {
    let mut w = pasture();
    let mut log = EventLog::new();
    let mut deer = Animal::new(AnimalKind::Deer, 30, 40);
    deer.kill(&mut w, &mut log, 17);
    assert!(!deer.alive);
    assert_eq!((deer.x, deer.y), (30, 40));
    assert_eq!(w.get(30, 40), Terrain::Food);
    assert_eq!(log.events.len(), 1);
    assert_eq!(log.events[0].tick, 17);
    assert_eq!(log.events[0].message, "A Deer was hunted!");
    assert_eq!(log.events[0].color, Color::Rgb(180, 140, 80));
}

#[test]
fn killed_animal_leaves_other_ground_as_it_is() {
    let mut w = pasture();
    w.set(30, 40, Terrain::Bush);
    let mut log = EventLog::new();
    let mut boar = Animal::new(AnimalKind::Boar, 30, 40);
    boar.kill(&mut w, &mut log, 3);
    assert!(!boar.alive);
    assert_eq!(w.get(30, 40), Terrain::Bush);
    assert_eq!(log.events[0].message, "A Boar was hunted!");
}

#[test]
fn can_spawn_at_keeps_from_edges_and_campfire() {
    let mut w = pasture();
    assert!(can_spawn_at(&w, 5, 5, 20));
    assert!(!can_spawn_at(&w, 4, 5, 20));
    assert!(!can_spawn_at(&w, 5, 4, 20));
    assert!(can_spawn_at(&w, 294, 144, 20));
    assert!(!can_spawn_at(&w, 295, 144, 20));
    assert!(!can_spawn_at(&w, 294, 145, 20));
    assert!(!can_spawn_at(&w, 150, 95, 20));
    assert!(can_spawn_at(&w, 150, 96, 20));
    assert!(can_spawn_at(&w, 150, 91, 15));
    w.set(150, 96, Terrain::Water);
    assert!(!can_spawn_at(&w, 150, 96, 20));
}

#[test]
fn first_animals_keep_off_the_campfire() {
    let w = pasture();
    for seed in 0..30u64 {
        let mut rng = StdRng::seed_from_u64(seed);
        let animals = Animal::spawn_initial(&w, &mut rng);
        assert!(animals.len() >= 8 && animals.len() <= 12, "{}", animals.len());
        for a in &animals {
            assert!(a.alive);
            assert!(a.x >= 5 && a.x < MAP_WIDTH - 5 && a.y >= 5 && a.y < MAP_HEIGHT - 5);
            assert!(a.x.abs_diff(150) + a.y.abs_diff(75) > 15);
            assert!(w.is_walkable(a.x, a.y));
        }
    }
}

#[test]
fn first_animals_are_of_both_kinds() {
    let w = pasture();
    let mut deer = 0;
    let mut boars = 0;
    for seed in 0..50u64 {
        let mut rng = StdRng::seed_from_u64(seed);
        for a in Animal::spawn_initial(&w, &mut rng) {
            match a.kind {
                AnimalKind::Deer => deer += 1,
                AnimalKind::Boar => boars += 1,
            }
        }
    }
    // Three in five are deer.
    assert!(deer > boars);
    assert!(boars * 3 > deer);
}

#[test]
fn no_animals_where_no_tile_is_fit() {
    let mut w = pasture();
    w.fill_pond(0, 0, MAP_WIDTH, MAP_HEIGHT);
    let mut rng = StdRng::seed_from_u64(2);
    assert!(Animal::spawn_initial(&w, &mut rng).is_empty());
    let mut animals = Vec::new();
    try_respawn(&mut animals, &w, &mut rng, 200);
    assert!(animals.is_empty());
}

#[test]
fn respawn_only_on_its_ticks() {
    let w = pasture();
    assert_eq!(RESPAWN_INTERVAL, 200);
    let mut rng = StdRng::seed_from_u64(4);
    let mut animals = vec![Animal::new(AnimalKind::Deer, 10, 10)];
    for tick in [1u64, 199, 201, 300, 399] {
        try_respawn(&mut animals, &w, &mut rng, tick);
        assert_eq!(animals.len(), 1);
    }
}

#[test]
fn respawn_adds_one_to_three_far_from_the_campfire() {
    let w = pasture();
    let mut counts = std::collections::HashSet::new();
    for seed in 0..60u64 {
        let mut rng = StdRng::seed_from_u64(seed);
        let mut animals = vec![Animal::new(AnimalKind::Deer, 10, 10)];
        try_respawn(&mut animals, &w, &mut rng, 400);
        let added = animals.len() - 1;
        assert!(added >= 1 && added <= 3, "{}", added);
        counts.insert(added);
        assert_eq!((animals[0].x, animals[0].y), (10, 10));
        for a in &animals[1..] {
            assert!(a.alive);
            assert!(a.x >= 5 && a.x < MAP_WIDTH - 5 && a.y >= 5 && a.y < MAP_HEIGHT - 5);
            assert!(a.x.abs_diff(150) + a.y.abs_diff(75) > 20);
        }
    }
    assert_eq!(counts.len(), 3);
}

#[test]
fn respawn_at_tick_zero() {
    let w = pasture();
    let mut rng = StdRng::seed_from_u64(8);
    let mut animals = Vec::new();
    try_respawn(&mut animals, &w, &mut rng, 0);
    assert!(!animals.is_empty() && animals.len() <= 3);
}

#[test]
fn no_respawn_while_enough_are_alive() {
    let w = pasture();
    assert_eq!(POPULATION_FLOOR, 12);
    let mut rng = StdRng::seed_from_u64(6);
    let mut animals: Vec<Animal> = (0..12).map(|i| Animal::new(AnimalKind::Boar, 10 + i, 10)).collect();
    try_respawn(&mut animals, &w, &mut rng, 200);
    assert_eq!(animals.len(), 12);
    // The dead do not count.
    animals[0].alive = false;
    try_respawn(&mut animals, &w, &mut rng, 200);
    assert!(animals.len() > 12);
}

#[test]
fn the_draw_decides_the_kind() {
    assert_eq!(kind_for(true), AnimalKind::Deer);
    assert_eq!(kind_for(false), AnimalKind::Boar);
}

#[test]
fn animal_joins_where_a_spot_was_found() {
    let mut herd = vec![Animal::new(AnimalKind::Deer, 10, 10)];
    join(&mut herd, AnimalKind::Boar, None);
    assert_eq!(herd.len(), 1);
    join(&mut herd, AnimalKind::Boar, Some((30, 40)));
    assert_eq!(herd.len(), 2);
    assert_eq!(herd[1].kind, AnimalKind::Boar);
    assert_eq!((herd[1].x, herd[1].y), (30, 40));
    assert!(herd[1].alive);
    assert_eq!((herd[0].x, herd[0].y), (10, 10));
}

#[test]
fn first_animals_number_eight_to_twelve_on_open_ground() {
    let w = pasture();
    let mut counts = std::collections::HashSet::new();
    for seed in 100..200u64 {
        let mut rng = StdRng::seed_from_u64(seed);
        counts.insert(Animal::spawn_initial(&w, &mut rng).len());
    }
    let mut seen: Vec<usize> = counts.into_iter().collect();
    seen.sort();
    assert_eq!(seen, vec![8, 9, 10, 11, 12]);
}
