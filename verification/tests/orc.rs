use orc_village::animal::{Animal, AnimalKind};
use orc_village::color::Color;
use orc_village::event::EventLog;
use orc_village::orc::{pick_name, spot_near, Activity, Orc, NAME_HEADS, NAME_TAILS, NEED_MAX, ORC_NAMES};
use orc_village::world::{Terrain, World, MAP_HEIGHT, MAP_WIDTH};
use rand::rngs::StdRng;
use rand::SeedableRng;

fn homeland() -> World {
    let mut tiles = vec![vec![Terrain::Grass; MAP_WIDTH]; MAP_HEIGHT];
    tiles[75][150] = Terrain::Campfire;
    tiles[77][152] = Terrain::MeatRack;
    World { tiles, campfire_pos: (150, 75), food_stockpile: 3, regrowth_timers: Vec::new() }
}

fn orc_at(x: usize, y: usize) -> Orc {
    Orc::new("Grok".to_string(), x, y)
}

fn last_message(log: &EventLog) -> &str {
    log.events.last().unwrap().message.as_str()
}

fn tick_once(orc: &mut Orc, w: &mut World, animals: &mut Vec<Animal>, log: &mut EventLog, tick: u64, night: bool) {
    let mut rng = StdRng::seed_from_u64(tick);
    orc.update(w, animals, &mut rng, log, tick, night);
}

#[test]
fn newborn_orc() {
    let orc = Orc::new("Thrak".to_string(), 3, 4);
    assert_eq!(orc.name, "Thrak");
    assert_eq!((orc.x, orc.y), (3, 4));
    assert_eq!(orc.hunger, 200);
    assert_eq!(orc.energy, 800);
    assert_eq!(orc.thirst, 100);
    assert_eq!(orc.health, 1000);
    assert_eq!(NEED_MAX, 1000);
    assert!(orc.alive);
    assert_eq!(orc.death_tick, None);
    assert!(matches!(orc.activity, Activity::Idle));
    assert!(!orc.carrying_food);
    assert!(orc.path.is_empty());
    assert_eq!(orc.path_step, 0);
    assert_eq!(orc.idle_ticks, 0);
}

#[test]
fn activity_labels() {
    assert_eq!(Activity::Idle.label(), "Idling");
    assert_eq!(Activity::Eating.label(), "Eating");
    assert_eq!(Activity::Sleeping.label(), "Sleeping");
    assert_eq!(Activity::Drinking.label(), "Drinking");
    assert_eq!(Activity::Hunting { target_idx: 3 }.label(), "Hunting");
    assert_eq!(Activity::CarryingMeat.label(), "Carrying meat");
    assert_eq!(Activity::GoingTo { x: 1, y: 2, reason: "Going to drink".to_string() }.label(), "Going to drink");
}

#[test]
fn needs_wear_on_by_day() {
    let mut w = homeland();
    let mut animals = Vec::new();
    let mut log = EventLog::new();
    let mut orc = orc_at(100, 100);
    tick_once(&mut orc, &mut w, &mut animals, &mut log, 1, false);
    assert_eq!(orc.hunger, 205);
    assert_eq!(orc.thirst, 106);
    assert_eq!(orc.energy, 796);
    assert_eq!(orc.health, 1000);
}

#[test]
fn needs_wear_on_by_night() {
    let mut w = homeland();
    let mut animals = Vec::new();
    let mut log = EventLog::new();
    let mut orc = orc_at(100, 100);
    tick_once(&mut orc, &mut w, &mut animals, &mut log, 61, true);
    assert_eq!(orc.hunger, 203);
    assert_eq!(orc.thirst, 106);
    assert_eq!(orc.energy, 792);
}

#[test]
fn sleep_restores_energy() {
    let mut w = homeland();
    let mut animals = Vec::new();
    let mut log = EventLog::new();
    let mut orc = orc_at(100, 100);
    orc.energy = 500;
    orc.activity = Activity::Sleeping;
    tick_once(&mut orc, &mut w, &mut animals, &mut log, 1, true);
    assert_eq!(orc.energy, 530);
    assert!(matches!(orc.activity, Activity::Sleeping));
    assert!(log.events.is_empty());
}

#[test]
fn sleeper_wakes_when_rested() {
    let mut w = homeland();
    let mut animals = Vec::new();
    let mut log = EventLog::new();
    let mut orc = orc_at(100, 100);
    orc.energy = 869;
    orc.activity = Activity::Sleeping;
    tick_once(&mut orc, &mut w, &mut animals, &mut log, 1, false);
    assert_eq!(orc.energy, 899);
    assert!(matches!(orc.activity, Activity::Sleeping));
    tick_once(&mut orc, &mut w, &mut animals, &mut log, 2, false);
    assert_eq!(orc.energy, 929);
    assert!(matches!(orc.activity, Activity::Idle));
    assert_eq!(last_message(&log), "Grok woke up, feeling rested");
    assert_eq!(log.events[0].color, Color::Cyan);
    assert_eq!(log.events[0].tick, 2);
}

#[test]
fn needs_stay_on_their_scale() {
    let mut w = homeland();
    let mut animals = Vec::new();
    let mut log = EventLog::new();
    let mut orc = orc_at(100, 100);
    orc.hunger = 998;
    orc.thirst = 997;
    orc.energy = 2;
    orc.health = 1000;
    orc.activity = Activity::Sleeping;
    tick_once(&mut orc, &mut w, &mut animals, &mut log, 1, false);
    assert_eq!(orc.hunger, 1000);
    assert_eq!(orc.thirst, 1000);
    assert_eq!(orc.energy, 32);
    assert_eq!(orc.health, 1000 - 20 - 30 - 10);

    let mut tired = orc_at(100, 100);
    tired.energy = 3;
    tired.activity = Activity::Eating;
    tired.hunger = 100;
    tick_once(&mut tired, &mut w, &mut animals, &mut log, 1, true);
    assert_eq!(tired.energy, 0);
    assert_eq!(tired.hunger, 0);

    let mut rested = orc_at(100, 100);
    rested.energy = 990;
    rested.activity = Activity::Sleeping;
    rested.health = 998;
    tick_once(&mut rested, &mut w, &mut animals, &mut log, 1, true);
    assert_eq!(rested.energy, 1000);
    assert_eq!(rested.health, 1000);
}

#[test]
fn needs_stay_on_their_scale_over_many_ticks() {
    let mut w = homeland();
    w.fill_pond(60, 60, 5, 4);
    w.set(140, 70, Terrain::Bush);
    let mut animals = vec![Animal::new(AnimalKind::Deer, 120, 60), Animal::new(AnimalKind::Boar, 170, 90)];
    let mut log = EventLog::new();
    let mut rng = StdRng::seed_from_u64(99);
    let mut orc = orc_at(150, 76);
    for tick in 1..=3000u64 {
        orc.update(&mut w, &mut animals, &mut rng, &mut log, tick, tick % 100 >= 60);
        assert!(orc.hunger <= 1000 && orc.thirst <= 1000 && orc.energy <= 1000 && orc.health <= 1000);
        assert!(orc.x < MAP_WIDTH && orc.y < MAP_HEIGHT);
        assert!(orc.is_well_formed() && w.is_well_formed());
    }
}

#[test]
fn health_mends_when_all_is_well() {
    let mut w = homeland();
    let mut animals = Vec::new();
    let mut log = EventLog::new();
    let mut orc = orc_at(100, 100);
    orc.health = 500;
    tick_once(&mut orc, &mut w, &mut animals, &mut log, 1, false);
    assert_eq!(orc.health, 505);
    // Not while hunger is at 50 points or more.
    orc.hunger = 495;
    tick_once(&mut orc, &mut w, &mut animals, &mut log, 2, false);
    assert_eq!(orc.hunger, 500);
    assert_eq!(orc.health, 505);
}

#[test]
fn health_suffers_from_each_need() {
    let mut w = homeland();
    let mut animals = Vec::new();
    let mut log = EventLog::new();
    let mut hungry = orc_at(100, 100);
    hungry.hunger = 945;
    hungry.activity = Activity::Sleeping;
    tick_once(&mut hungry, &mut w, &mut animals, &mut log, 1, false);
    assert_eq!(hungry.hunger, 950);
    assert_eq!(hungry.health, 980);

    let mut thirsty = orc_at(100, 100);
    thirsty.thirst = 944;
    thirsty.activity = Activity::Sleeping;
    tick_once(&mut thirsty, &mut w, &mut animals, &mut log, 1, false);
    assert_eq!(thirsty.thirst, 950);
    assert_eq!(thirsty.health, 970);

    let mut tired = orc_at(100, 100);
    tired.energy = 54;
    tired.activity = Activity::Eating;
    tick_once(&mut tired, &mut w, &mut animals, &mut log, 1, false);
    assert_eq!(tired.energy, 50);
    assert_eq!(tired.health, 990);
}

#[test]
fn orc_dies_when_health_runs_out() {
    let mut w = homeland();
    let mut animals = Vec::new();
    let mut log = EventLog::new();
    let mut orc = orc_at(100, 100);
    orc.health = 50;
    orc.hunger = 1000;
    orc.thirst = 1000;
    tick_once(&mut orc, &mut w, &mut animals, &mut log, 41, false);
    assert_eq!(orc.health, 0);
    assert!(!orc.alive);
    assert_eq!(orc.death_tick, Some(41));
    assert_eq!(last_message(&log), "Grok has died!");
    assert_eq!(log.events[0].color, Color::Red);
    assert_eq!(log.events.len(), 1);
}

#[test]
fn dead_orc_stays_as_it_is() {
    let mut w = homeland();
    let mut animals = vec![Animal::new(AnimalKind::Deer, 100, 101)];
    let mut log = EventLog::new();
    let mut orc = orc_at(100, 100);
    orc.health = 10;
    orc.hunger = 1000;
    orc.thirst = 990;
    orc.energy = 300;
    orc.activity = Activity::Hunting { target_idx: 0 };
    tick_once(&mut orc, &mut w, &mut animals, &mut log, 7, false);
    assert!(!orc.alive);
    assert_eq!(orc.death_tick, Some(7));
    let (hunger, thirst, energy) = (orc.hunger, orc.thirst, orc.energy);
    for tick in 8..200u64 {
        tick_once(&mut orc, &mut w, &mut animals, &mut log, tick, tick % 2 == 0);
        assert!(!orc.alive);
        assert_eq!(orc.death_tick, Some(7));
        assert_eq!(orc.health, 0);
        assert_eq!((orc.hunger, orc.thirst, orc.energy), (hunger, thirst, energy));
        assert_eq!((orc.x, orc.y), (100, 100));
        assert!(matches!(orc.activity, Activity::Hunting { target_idx: 0 }));
    }
    assert_eq!(log.events.len(), 1);
    assert!(animals[0].alive);
    assert_eq!(w.get(100, 101), Terrain::Grass);
}

#[test]
fn eating_stills_hunger() {
    let mut w = homeland();
    let mut animals = Vec::new();
    let mut log = EventLog::new();
    let mut orc = orc_at(100, 100);
    orc.hunger = 400;
    orc.activity = Activity::Eating;
    tick_once(&mut orc, &mut w, &mut animals, &mut log, 1, false);
    assert_eq!(orc.hunger, 255);
    assert!(matches!(orc.activity, Activity::Eating));
    tick_once(&mut orc, &mut w, &mut animals, &mut log, 2, false);
    assert_eq!(orc.hunger, 110);
    assert!(matches!(orc.activity, Activity::Eating));
    tick_once(&mut orc, &mut w, &mut animals, &mut log, 3, false);
    assert_eq!(orc.hunger, 0);
    assert!(matches!(orc.activity, Activity::Idle));
    assert_eq!(last_message(&log), "Grok finished eating");
    assert_eq!(log.events.len(), 1);
}

#[test]
fn drinking_stills_thirst() {
    let mut w = homeland();
    let mut animals = Vec::new();
    let mut log = EventLog::new();
    let mut orc = orc_at(100, 100);
    orc.thirst = 450;
    orc.activity = Activity::Drinking;
    tick_once(&mut orc, &mut w, &mut animals, &mut log, 1, false);
    assert_eq!(orc.thirst, 256);
    assert!(matches!(orc.activity, Activity::Drinking));
    tick_once(&mut orc, &mut w, &mut animals, &mut log, 2, false);
    assert_eq!(orc.thirst, 62);
    assert!(matches!(orc.activity, Activity::Drinking));
    tick_once(&mut orc, &mut w, &mut animals, &mut log, 3, false);
    assert_eq!(orc.thirst, 0);
    assert!(matches!(orc.activity, Activity::Idle));
    assert_eq!(last_message(&log), "Grok finished drinking");
}

#[test]
fn thirsty_orc_heads_for_the_shore() {
    let mut w = homeland();
    w.set(100, 90, Terrain::Water);
    let mut animals = Vec::new();
    let mut log = EventLog::new();
    let mut orc = orc_at(100, 100);
    orc.thirst = 700;
    tick_once(&mut orc, &mut w, &mut animals, &mut log, 1, false);
    match &orc.activity {
        Activity::GoingTo { x, y, reason } => {
            assert_eq!((*x, *y), (100, 91));
            assert_eq!(reason, "Going to drink");
        },
        _ => panic!("not on its way"),
    }
    assert_eq!(last_message(&log), "Grok is thirsty, heading to water");
    assert_eq!(log.events[0].color, Color::Yellow);
    assert_eq!(orc.path.len(), 9);
    assert_eq!(orc.path.last(), Some(&(100, 91)));
    assert_eq!((orc.x, orc.y), (100, 100));
    // It walks there, a waypoint a tick, and drinks.
    for tick in 2..=10u64 {
        tick_once(&mut orc, &mut w, &mut animals, &mut log, tick, false);
    }
    assert_eq!((orc.x, orc.y), (100, 91));
    tick_once(&mut orc, &mut w, &mut animals, &mut log, 11, false);
    assert!(matches!(orc.activity, Activity::Drinking));
    assert_eq!(last_message(&log), "Grok drinks water");
    assert_eq!(log.events.last().unwrap().color, Color::Rgb(65, 105, 225));
}

#[test]
fn desperate_thirst_comes_before_hunger() {
    let mut w = homeland();
    w.set(100, 90, Terrain::Water);
    w.set(101, 100, Terrain::Bush);
    let mut animals = vec![Animal::new(AnimalKind::Deer, 102, 100)];
    let mut log = EventLog::new();
    let mut orc = orc_at(100, 100);
    orc.health = 150;
    orc.thirst = 900;
    orc.hunger = 850;
    orc.energy = 500;
    tick_once(&mut orc, &mut w, &mut animals, &mut log, 1, false);
    match &orc.activity {
        Activity::GoingTo { x, y, reason } => {
            assert_eq!((*x, *y), (100, 91));
            assert_eq!(reason, "Desperate for water");
        },
        _ => panic!("not on its way to water"),
    }
    assert_eq!(last_message(&log), "Grok desperately needs water!");
    assert_eq!(log.events[0].color, Color::Red);
}

#[test]
fn desperate_hunger_when_hunger_is_worst() {
    let mut w = homeland();
    w.set(100, 90, Terrain::Water);
    w.set(104, 100, Terrain::Bush);
    w.food_stockpile = 0;
    let mut animals = Vec::new();
    let mut log = EventLog::new();
    let mut orc = orc_at(100, 100);
    orc.health = 150;
    orc.thirst = 700;
    orc.hunger = 900;
    orc.energy = 500;
    tick_once(&mut orc, &mut w, &mut animals, &mut log, 1, false);
    match &orc.activity {
        Activity::GoingTo { x, y, reason } => {
            assert_eq!((*x, *y), (104, 100));
            assert_eq!(reason, "Looking for food");
        },
        _ => panic!("not on its way to food"),
    }
    assert_eq!(last_message(&log), "Grok desperately needs food!");
}

#[test]
fn desperate_tiredness_when_tiredness_is_worst() {
    let mut w = homeland();
    let mut animals = Vec::new();
    let mut log = EventLog::new();
    let mut orc = orc_at(140, 70);
    orc.health = 150;
    orc.thirst = 300;
    orc.hunger = 300;
    orc.energy = 100;
    tick_once(&mut orc, &mut w, &mut animals, &mut log, 1, false);
    match &orc.activity {
        Activity::GoingTo { x, y, reason } => {
            assert!(x.abs_diff(150) <= 2 && y.abs_diff(75) <= 2);
            assert_eq!(reason, "Desperate for sleep");
        },
        _ => panic!("not on its way to the fire"),
    }
    assert_eq!(last_message(&log), "Grok desperately needs rest!");
}

#[test]
fn desperate_orc_without_water_falls_back_on_the_next_need() {
    let mut w = homeland();
    w.set(104, 100, Terrain::Bush);
    w.food_stockpile = 0;
    let mut animals = Vec::new();
    let mut log = EventLog::new();
    let mut orc = orc_at(100, 100);
    orc.health = 150;
    orc.thirst = 900;
    orc.hunger = 800;
    orc.energy = 500;
    tick_once(&mut orc, &mut w, &mut animals, &mut log, 1, false);
    match &orc.activity {
        Activity::GoingTo { x, y, reason } => {
            assert_eq!((*x, *y), (104, 100));
            assert_eq!(reason, "Looking for food");
        },
        _ => panic!("not on its way to food"),
    }
    assert_eq!(last_message(&log), "Grok is hungry, looking for food");
}

#[test]
fn hungry_orc_goes_to_the_stockpile_first() {
    let mut w = homeland();
    w.set(149, 75, Terrain::Bush);
    let mut animals = vec![Animal::new(AnimalKind::Deer, 149, 76)];
    let mut log = EventLog::new();
    let mut orc = orc_at(148, 75);
    orc.hunger = 750;
    tick_once(&mut orc, &mut w, &mut animals, &mut log, 1, false);
    match &orc.activity {
        Activity::GoingTo { x, y, reason } => {
            assert_eq!((*x, *y), (152, 77));
            assert_eq!(reason, "Going to stockpile");
        },
        _ => panic!("not on its way to the stockpile"),
    }
}

#[test]
fn hungry_orc_hunts_what_is_near() {
    let mut w = homeland();
    w.food_stockpile = 0;
    w.set(101, 100, Terrain::Bush);
    let mut animals = vec![
        Animal::new(AnimalKind::Deer, 130, 100),
        Animal::new(AnimalKind::Boar, 100, 114),
        Animal::new(AnimalKind::Boar, 100, 101),
    ];
    animals[2].alive = false;
    let mut log = EventLog::new();
    let mut orc = orc_at(100, 100);
    orc.hunger = 750;
    tick_once(&mut orc, &mut w, &mut animals, &mut log, 1, false);
    assert!(matches!(orc.activity, Activity::Hunting { target_idx: 1 }));
    assert!(orc.path.is_empty());
}

#[test]
fn hungry_orc_forages_when_game_is_far() {
    let mut w = homeland();
    w.food_stockpile = 0;
    w.set(110, 100, Terrain::Tree);
    w.set(100, 112, Terrain::Food);
    let mut animals = vec![Animal::new(AnimalKind::Deer, 100, 115)];
    let mut log = EventLog::new();
    let mut orc = orc_at(100, 100);
    orc.hunger = 750;
    tick_once(&mut orc, &mut w, &mut animals, &mut log, 1, false);
    match &orc.activity {
        Activity::GoingTo { x, y, reason } => {
            assert_eq!((*x, *y), (110, 100));
            assert_eq!(reason, "Looking for food");
        },
        _ => panic!("not on its way to food"),
    }
}

#[test]
fn hungry_orc_hunts_far_game_when_nothing_else_is_there() {
    let mut w = homeland();
    w.food_stockpile = 0;
    let mut animals = vec![Animal::new(AnimalKind::Deer, 200, 120)];
    let mut log = EventLog::new();
    let mut orc = orc_at(100, 100);
    orc.hunger = 750;
    tick_once(&mut orc, &mut w, &mut animals, &mut log, 1, false);
    assert!(matches!(orc.activity, Activity::Hunting { target_idx: 0 }));
}

#[test]
fn hungry_orc_with_nothing_to_eat_idles_on() {
    let mut w = homeland();
    w.food_stockpile = 0;
    let mut animals = Vec::new();
    let mut log = EventLog::new();
    let mut orc = orc_at(100, 100);
    orc.hunger = 750;
    tick_once(&mut orc, &mut w, &mut animals, &mut log, 1, false);
    assert!(matches!(orc.activity, Activity::Idle));
    assert_eq!(orc.idle_ticks, 1);
    assert!(log.events.is_empty());
}

#[test]
fn tired_orc_heads_for_the_fire() {
    let mut w = homeland();
    let mut animals = Vec::new();
    let mut log = EventLog::new();
    let mut orc = orc_at(140, 70);
    orc.energy = 203;
    tick_once(&mut orc, &mut w, &mut animals, &mut log, 1, false);
    match &orc.activity {
        Activity::GoingTo { x, y, reason } => {
            assert!(x.abs_diff(150) <= 2 && y.abs_diff(75) <= 2);
            assert_eq!(reason, "Going to sleep");
        },
        _ => panic!("not on its way to the fire"),
    }
    assert_eq!(last_message(&log), "Grok is exhausted, heading to campfire");
    assert_eq!(log.events[0].color, Color::Yellow);
}

#[test]
fn idle_orc_wanders_off_on_the_fourth_tick() {
    let mut w = homeland();
    let mut animals = Vec::new();
    let mut log = EventLog::new();
    let mut orc = orc_at(150, 80);
    for tick in 1..=3u64 {
        tick_once(&mut orc, &mut w, &mut animals, &mut log, tick, false);
        assert!(matches!(orc.activity, Activity::Idle));
        assert_eq!(orc.idle_ticks, tick as u32);
    }
    tick_once(&mut orc, &mut w, &mut animals, &mut log, 4, false);
    assert_eq!(orc.idle_ticks, 0);
    match &orc.activity {
        Activity::GoingTo { x, y, reason } => {
            assert!(x.abs_diff(150) <= 4 && y.abs_diff(80) <= 4);
            assert_eq!(reason, "Wandering");
        },
        _ => panic!("did not wander off"),
    }
    assert_eq!((orc.x, orc.y), (150, 80));
    assert!(log.events.is_empty());
}

#[test]
fn wanderer_is_kept_near_the_campfire() {
    let mut w = homeland();
    let mut animals = Vec::new();
    let mut log = EventLog::new();
    for seed in 0..40u64 {
        let mut rng = StdRng::seed_from_u64(seed);
        let mut orc = orc_at(250, 140);
        orc.idle_ticks = 3;
        orc.update(&mut w, &mut animals, &mut rng, &mut log, 1, false);
        match &orc.activity {
            Activity::GoingTo { x, y, .. } => assert_eq!((*x, *y), (180, 105)),
            _ => panic!("did not wander off"),
        }
    }
}

#[test]
fn wanderer_stays_where_the_draw_cannot_be_walked_on() {
    let mut w = homeland();
    w.fill_pond(0, 0, MAP_WIDTH, MAP_HEIGHT);
    let mut animals = Vec::new();
    let mut log = EventLog::new();
    let mut orc = orc_at(150, 80);
    orc.idle_ticks = 3;
    orc.thirst = 0;
    tick_once(&mut orc, &mut w, &mut animals, &mut log, 1, false);
    assert!(matches!(orc.activity, Activity::Idle));
    assert_eq!(orc.idle_ticks, 0);
}

#[test]
fn arriving_at_a_bush() {
    let mut w = homeland();
    w.set(100, 100, Terrain::Bush);
    let mut animals = Vec::new();
    let mut log = EventLog::new();
    let mut orc = orc_at(100, 100);
    orc.activity = Activity::GoingTo { x: 100, y: 100, reason: "Looking for food".to_string() };
    tick_once(&mut orc, &mut w, &mut animals, &mut log, 9, false);
    assert!(matches!(orc.activity, Activity::Eating));
    assert_eq!(w.get(100, 100), Terrain::DepletedBush);
    assert_eq!(w.regrowth_timers, vec![(100, 100, 89)]);
    assert_eq!(last_message(&log), "Grok found berries and starts eating");
    assert_eq!(log.events[0].color, Color::Green);
}

#[test]
fn arriving_at_dropped_food() {
    let mut w = homeland();
    w.set(100, 100, Terrain::Food);
    let mut animals = Vec::new();
    let mut log = EventLog::new();
    let mut orc = orc_at(100, 100);
    orc.activity = Activity::GoingTo { x: 100, y: 100, reason: "Looking for food".to_string() };
    tick_once(&mut orc, &mut w, &mut animals, &mut log, 9, false);
    assert!(matches!(orc.activity, Activity::Eating));
    assert_eq!(w.get(100, 100), Terrain::Grass);
    assert_eq!(last_message(&log), "Grok found food and starts eating");
}

#[test]
fn arriving_at_a_tree() {
    let mut w = homeland();
    w.set(100, 100, Terrain::Tree);
    let mut animals = Vec::new();
    let mut log = EventLog::new();
    let mut orc = orc_at(100, 100);
    orc.activity = Activity::GoingTo { x: 100, y: 100, reason: "Looking for food".to_string() };
    tick_once(&mut orc, &mut w, &mut animals, &mut log, 9, false);
    assert!(matches!(orc.activity, Activity::Eating));
    assert_eq!(w.get(100, 100), Terrain::Tree);
    assert_eq!(last_message(&log), "Grok forages from a tree");
}

#[test]
fn arriving_at_the_stockpile() {
    let mut w = homeland();
    let mut animals = Vec::new();
    let mut log = EventLog::new();
    let mut orc = orc_at(152, 77);
    orc.activity = Activity::GoingTo { x: 152, y: 77, reason: "Going to stockpile".to_string() };
    tick_once(&mut orc, &mut w, &mut animals, &mut log, 9, false);
    assert!(matches!(orc.activity, Activity::Eating));
    assert_eq!(w.food_stockpile, 2);
    assert_eq!(last_message(&log), "Grok takes food from stockpile (left: 2)");
    assert_eq!(log.events[0].color, Color::Rgb(180, 120, 60));
}

#[test]
fn arriving_at_an_empty_stockpile_the_orc_lies_down() {
    let mut w = homeland();
    w.food_stockpile = 0;
    let mut animals = Vec::new();
    let mut log = EventLog::new();
    let mut orc = orc_at(152, 77);
    orc.activity = Activity::GoingTo { x: 152, y: 77, reason: "Going to stockpile".to_string() };
    tick_once(&mut orc, &mut w, &mut animals, &mut log, 9, false);
    assert!(matches!(orc.activity, Activity::Sleeping));
    assert_eq!(w.food_stockpile, 0);
    assert_eq!(last_message(&log), "Grok lies down to sleep by the fire");
    assert_eq!(log.events[0].color, Color::Blue);
}

#[test]
fn orc_without_a_path_takes_greedy_steps() {
    let mut w = homeland();
    let mut animals = Vec::new();
    let mut log = EventLog::new();
    let mut orc = orc_at(100, 100);
    orc.activity = Activity::GoingTo { x: 103, y: 100, reason: "Wandering".to_string() };
    for tick in 1..=3u64 {
        tick_once(&mut orc, &mut w, &mut animals, &mut log, tick, false);
        assert_eq!((orc.x, orc.y), (100 + tick as usize, 100));
    }
    tick_once(&mut orc, &mut w, &mut animals, &mut log, 4, false);
    assert!(matches!(orc.activity, Activity::Sleeping));
}

#[test]
fn orc_without_a_path_gets_there_whichever_step_comes_first() {
    let mut w = homeland();
    let mut animals = Vec::new();
    let mut log = EventLog::new();
    let mut diagonal_first = 0;
    for seed in 0..200u64 {
        let mut rng = StdRng::seed_from_u64(seed);
        let mut orc = orc_at(100, 100);
        orc.activity = Activity::GoingTo { x: 103, y: 103, reason: "Wandering".to_string() };
        orc.update(&mut w, &mut animals, &mut rng, &mut log, 1, false);
        assert!((orc.x, orc.y) == (101, 101) || (orc.x, orc.y) == (101, 100));
        if (orc.x, orc.y) == (101, 101) {
            diagonal_first += 1;
        }
    }
    // The diagonal is tried first seven times in ten.
    assert!(diagonal_first > 110 && diagonal_first < 170, "{}", diagonal_first);
}

#[test]
fn greedy_step_tries_its_three_moves_in_order() {
    let mut w = homeland();
    let mut orc = orc_at(100, 100);
    orc.step_greedy(105, 103, &w, true);
    assert_eq!((orc.x, orc.y), (101, 101));
    orc.step_greedy(105, 103, &w, false);
    assert_eq!((orc.x, orc.y), (102, 101));
    w.set(103, 102, Terrain::Rock);
    orc.step_greedy(105, 103, &w, true);
    assert_eq!((orc.x, orc.y), (103, 101));
    // All three ways are barred: the orc stays.
    w.set(104, 102, Terrain::Water);
    w.set(104, 101, Terrain::Rock);
    orc.step_greedy(105, 103, &w, true);
    assert_eq!((orc.x, orc.y), (103, 101));
    orc.step_greedy(105, 103, &w, false);
    assert_eq!((orc.x, orc.y), (103, 101));
    // A tree may be stepped on.
    w.set(103, 102, Terrain::Tree);
    orc.step_greedy(105, 103, &w, true);
    assert_eq!((orc.x, orc.y), (103, 102));
    orc.step_greedy(105, 103, &w, false);
    assert_eq!((orc.x, orc.y), (103, 103));
}

#[test]
fn greedy_step_along_one_axis() {
    let w = homeland();
    let mut orc = orc_at(100, 100);
    orc.step_greedy(100, 90, &w, true);
    assert_eq!((orc.x, orc.y), (100, 99));
    orc.step_greedy(90, 99, &w, false);
    assert_eq!((orc.x, orc.y), (99, 99));
    orc.step_greedy(99, 99, &w, true);
    assert_eq!((orc.x, orc.y), (99, 99));
}

#[test]
fn hunter_catches_and_carries_the_meat_home() {
    let mut w = homeland();
    let mut animals = vec![Animal::new(AnimalKind::Deer, 150, 81)];
    let mut log = EventLog::new();
    let mut orc = orc_at(150, 80);
    orc.hunger = 300;
    orc.activity = Activity::Hunting { target_idx: 0 };
    tick_once(&mut orc, &mut w, &mut animals, &mut log, 1, false);
    assert!(!animals[0].alive);
    assert!(matches!(orc.activity, Activity::CarryingMeat));
    assert!(orc.carrying_food);
    assert_eq!(w.get(150, 81), Terrain::Grass);
    assert_eq!(log.events.len(), 2);
    assert_eq!(log.events[0].message, "A Deer was hunted!");
    assert_eq!(log.events[1].message, "Grok caught a Deer!");
    assert_eq!(log.events[1].color, Color::Green);
    assert_eq!(orc.path.last(), Some(&(152, 77)));

    let mut tick = 1;
    while matches!(orc.activity, Activity::CarryingMeat) {
        tick += 1;
        assert!(tick < 20);
        assert_eq!(w.food_stockpile, 3);
        tick_once(&mut orc, &mut w, &mut animals, &mut log, tick, false);
    }
    assert!(matches!(orc.activity, Activity::Idle));
    assert!(!orc.carrying_food);
    assert_eq!(w.food_stockpile, 4);
    assert!(orc.x.abs_diff(152) + orc.y.abs_diff(77) <= 1);
    assert_eq!(last_message(&log), "Grok stored meat (stockpile: 4)");
    assert_eq!(log.events.last().unwrap().color, Color::Rgb(180, 120, 60));
}

#[test]
fn hungry_hunter_eats_the_catch_at_once() {
    let mut w = homeland();
    let mut animals = vec![Animal::new(AnimalKind::Boar, 151, 80)];
    let mut log = EventLog::new();
    let mut orc = orc_at(150, 80);
    orc.hunger = 600;
    orc.activity = Activity::Hunting { target_idx: 0 };
    tick_once(&mut orc, &mut w, &mut animals, &mut log, 1, false);
    assert!(!animals[0].alive);
    assert!(matches!(orc.activity, Activity::Eating));
    assert!(!orc.carrying_food);
    assert_eq!(w.get(151, 80), Terrain::Food);
    assert_eq!(log.events[1].message, "Grok caught a Boar!");
    assert_eq!(w.food_stockpile, 3);
}

#[test]
fn hunter_gives_up_on_prey_that_is_gone() {
    let mut w = homeland();
    let mut animals = vec![Animal::new(AnimalKind::Boar, 151, 80)];
    animals[0].alive = false;
    let mut log = EventLog::new();
    let mut orc = orc_at(150, 80);
    orc.activity = Activity::Hunting { target_idx: 0 };
    tick_once(&mut orc, &mut w, &mut animals, &mut log, 1, false);
    assert!(matches!(orc.activity, Activity::Idle));
    orc.activity = Activity::Hunting { target_idx: 5 };
    tick_once(&mut orc, &mut w, &mut animals, &mut log, 2, false);
    assert!(matches!(orc.activity, Activity::Idle));
    assert!(log.events.is_empty());
}

#[test]
fn hunter_closes_in_on_its_prey() {
    let mut w = homeland();
    let mut animals = vec![Animal::new(AnimalKind::Boar, 160, 80)];
    let mut log = EventLog::new();
    let mut orc = orc_at(150, 80);
    orc.activity = Activity::Hunting { target_idx: 0 };
    tick_once(&mut orc, &mut w, &mut animals, &mut log, 1, false);
    assert_eq!((orc.x, orc.y), (151, 80));
    assert!(animals[0].alive);
    assert!(matches!(orc.activity, Activity::Hunting { target_idx: 0 }));
    assert_eq!(orc.path.len(), 10);
    assert_eq!(orc.path_step, 1);
}

#[test]
fn meat_is_let_go_where_no_rack_stands() {
    let mut w = homeland();
    w.set(152, 77, Terrain::Grass);
    let mut animals = Vec::new();
    let mut log = EventLog::new();
    let mut orc = orc_at(150, 80);
    orc.carrying_food = true;
    orc.activity = Activity::CarryingMeat;
    tick_once(&mut orc, &mut w, &mut animals, &mut log, 1, false);
    assert!(matches!(orc.activity, Activity::Idle));
    assert!(!orc.carrying_food);
    assert_eq!(w.food_stockpile, 3);
    assert!(log.events.is_empty());
}

#[test]
fn idle_orc_with_meat_takes_it_to_the_rack() {
    let mut w = homeland();
    let mut animals = Vec::new();
    let mut log = EventLog::new();
    let mut orc = orc_at(150, 80);
    orc.carrying_food = true;
    tick_once(&mut orc, &mut w, &mut animals, &mut log, 1, false);
    assert!(matches!(orc.activity, Activity::CarryingMeat));
    assert_eq!(orc.path.last(), Some(&(152, 77)));
    assert_eq!((orc.x, orc.y), (150, 80));
}

#[test]
fn spot_near_is_within_two_tiles_and_walkable() {
    let mut w = homeland();
    w.set(150, 74, Terrain::Rock);
    w.set(151, 75, Terrain::Water);
    let mut seen = std::collections::HashSet::new();
    let mut rng = StdRng::seed_from_u64(21);
    for _ in 0..500 {
        let (x, y) = spot_near(&w, 150, 75, &mut rng);
        assert!(x.abs_diff(150) <= 2 && y.abs_diff(75) <= 2);
        assert!(w.is_walkable(x, y));
        seen.insert((x, y));
    }
    assert_eq!(seen.len(), 23);
}

#[test]
fn spot_near_falls_back_on_the_centre() {
    let mut w = homeland();
    w.fill_pond(0, 0, MAP_WIDTH, MAP_HEIGHT);
    let mut rng = StdRng::seed_from_u64(22);
    assert_eq!(spot_near(&w, 10, 10, &mut rng), (10, 10));
}

#[test]
fn spot_near_at_the_corner_stays_on_the_map() {
    let w = homeland();
    let mut rng = StdRng::seed_from_u64(23);
    for _ in 0..200 {
        let (x, y) = spot_near(&w, 0, 149, &mut rng);
        assert!(x <= 2 && y >= 147 && y <= 149);
    }
}

#[test]
fn picked_names_are_new() {
    let mut rng = StdRng::seed_from_u64(31);
    let mut used: Vec<String> = Vec::new();
    for _ in 0..30 {
        let name = pick_name(&mut rng, &used);
        assert!(ORC_NAMES.contains(&name.as_str()), "{}", name);
        assert!(!used.contains(&name), "{} twice", name);
        used.push(name);
    }
    let mut sorted = used.clone();
    sorted.sort();
    let mut pool: Vec<String> = ORC_NAMES.iter().map(|n| n.to_string()).collect();
    pool.sort();
    assert_eq!(sorted, pool);
}

#[test]
fn the_last_free_name_is_picked() {
    let mut rng = StdRng::seed_from_u64(32);
    let used: Vec<String> = ORC_NAMES.iter().filter(|n| **n != "Lurk").map(|n| n.to_string()).collect();
    for _ in 0..20 {
        assert_eq!(pick_name(&mut rng, &used), "Lurk");
    }
}

#[test]
fn names_are_made_up_once_the_pool_is_spent() {
    let mut rng = StdRng::seed_from_u64(33);
    let used: Vec<String> = ORC_NAMES.iter().map(|n| n.to_string()).collect();
    let mut seen = std::collections::HashSet::new();
    for _ in 0..400 {
        let name = pick_name(&mut rng, &used);
        let fits = NAME_HEADS.iter().any(|h| NAME_TAILS.iter().any(|t| name == format!("{}{}", h, t)));
        assert!(fits, "{}", name);
        seen.insert(name);
    }
    assert!(seen.len() > 40);
}

#[test]
fn name_pool() {
    assert_eq!(ORC_NAMES.len(), 30);
    assert_eq!(ORC_NAMES[0], "Grok");
    assert_eq!(ORC_NAMES[29], "Mok");
    assert_eq!(NAME_HEADS, ["Gr", "Th", "Kr", "Br", "Dr", "Sk", "Zn", "Gl"]);
    assert_eq!(NAME_TAILS, ["ok", "ag", "ug", "ak", "im", "oz", "ur", "ash"]);
}

#[test]
fn clan_settles_round_the_campfire() {
    let mut w = homeland();
    w.set(149, 74, Terrain::Rock);
    w.set(151, 76, Terrain::Water);
    for seed in 0..20u64 {
        let mut rng = StdRng::seed_from_u64(seed);
        let orcs = Orc::spawn_clan(5, &w, &mut rng);
        assert_eq!(orcs.len(), 5);
        for (i, orc) in orcs.iter().enumerate() {
            assert!(orc.x >= 147 && orc.x <= 153 && orc.y >= 72 && orc.y <= 78);
            assert!(w.is_walkable(orc.x, orc.y));
            assert!(ORC_NAMES.contains(&orc.name.as_str()));
            assert!(orc.alive);
            assert_eq!((orc.hunger, orc.energy, orc.thirst, orc.health), (200, 800, 100, 1000));
            for other in &orcs[..i] {
                assert!((other.x, other.y) != (orc.x, orc.y));
                assert!(other.name != orc.name);
            }
        }
    }
}

#[test]
fn clan_fills_the_ground_and_no_more() {
    let mut w = homeland();
    w.fill_pond(0, 0, MAP_WIDTH, MAP_HEIGHT);
    w.set(148, 73, Terrain::Grass);
    w.set(153, 78, Terrain::Grass);
    w.set(154, 78, Terrain::Grass);
    let mut rng = StdRng::seed_from_u64(41);
    let orcs = Orc::spawn_clan(5, &w, &mut rng);
    let mut places: Vec<(usize, usize)> = orcs.iter().map(|o| (o.x, o.y)).collect();
    places.sort();
    assert_eq!(places, vec![(148, 73), (150, 75), (152, 77), (153, 78)]);
}

#[test]
fn clan_of_none() {
    let w = homeland();
    let mut rng = StdRng::seed_from_u64(42);
    assert!(Orc::spawn_clan(0, &w, &mut rng).is_empty());
}

#[test]
fn large_clan_runs_out_of_pool_names_but_not_of_names() {
    let w = homeland();
    let mut rng = StdRng::seed_from_u64(43);
    let orcs = Orc::spawn_clan(40, &w, &mut rng);
    assert_eq!(orcs.len(), 40);
    for orc in &orcs[..30] {
        assert!(ORC_NAMES.contains(&orc.name.as_str()));
    }
    for orc in &orcs[30..] {
        assert!(!orc.name.is_empty());
    }
}

#[test]
fn made_up_names_are_new_too_while_any_is_free() {
    let mut rng = StdRng::seed_from_u64(34);
    let mut used: Vec<String> = ORC_NAMES.iter().map(|n| n.to_string()).collect();
    let mut made: Vec<String> = Vec::new();
    for h in NAME_HEADS.iter() {
        for t in NAME_TAILS.iter() {
            let name = format!("{}{}", h, t);
            if !used.contains(&name) && !made.contains(&name) {
                made.push(name);
            }
        }
    }
    let free = made.len();
    assert!(free > 50 && free <= 64);
    for _ in 0..free {
        let name = pick_name(&mut rng, &used);
        assert!(made.contains(&name), "{}", name);
        assert!(!used.contains(&name), "{} twice", name);
        used.push(name);
    }
    // Every name is spent: the next one repeats a made-up name.
    let name = pick_name(&mut rng, &used);
    assert!(made.contains(&name) || ORC_NAMES.contains(&name.as_str()));
    assert!(used.contains(&name));
}

#[test]
fn the_last_free_made_up_name_is_picked() {
    let mut rng = StdRng::seed_from_u64(35);
    let mut used: Vec<String> = ORC_NAMES.iter().map(|n| n.to_string()).collect();
    for h in NAME_HEADS.iter() {
        for t in NAME_TAILS.iter() {
            let name = format!("{}{}", h, t);
            if name != "Znash" {
                used.push(name);
            }
        }
    }
    for _ in 0..20 {
        assert_eq!(pick_name(&mut rng, &used), "Znash");
    }
}

#[test]
fn every_orc_of_a_large_clan_has_a_name_of_its_own() {
    let w = homeland();
    let mut rng = StdRng::seed_from_u64(44);
    let orcs = Orc::spawn_clan(45, &w, &mut rng);
    assert_eq!(orcs.len(), 45);
    for (i, orc) in orcs.iter().enumerate() {
        for other in &orcs[..i] {
            assert!(other.name != orc.name, "{} twice", orc.name);
        }
    }
}

#[test]
fn activities_compare_by_what_they_hold() {
    let going = |x: usize, reason: &str| Activity::GoingTo { x, y: 2, reason: reason.to_string() };
    assert!(Activity::Idle == Activity::Idle);
    assert!(Activity::Idle != Activity::Eating);
    assert!(Activity::Sleeping != Activity::Drinking);
    assert!(Activity::CarryingMeat == Activity::CarryingMeat);
    assert!(Activity::Hunting { target_idx: 1 } == Activity::Hunting { target_idx: 1 });
    assert!(Activity::Hunting { target_idx: 1 } != Activity::Hunting { target_idx: 2 });
    assert!(going(1, "Wandering") == going(1, "Wandering"));
    assert!(going(1, "Wandering") != going(3, "Wandering"));
    assert!(going(1, "Wandering") != going(1, "Going to drink"));
    assert!(going(1, "Wandering") != Activity::Idle);
    let copy = going(1, "Wandering").clone();
    assert!(copy == going(1, "Wandering"));
    assert_eq!(format!("{:?}", Activity::Hunting { target_idx: 7 }), "Hunting { target_idx: 7 }");
}

#[test]
fn a_dead_orc_is_left_alone_at_the_end_of_time() {
    let mut w = homeland();
    w.food_stockpile = u32::MAX;
    w.set(100, 100, Terrain::Bush);
    let mut animals = Vec::new();
    let mut log = EventLog::new();
    let mut orc = orc_at(100, 100);
    orc.alive = false;
    orc.death_tick = Some(3);
    orc.activity = Activity::GoingTo { x: 100, y: 100, reason: "Looking for food".to_string() };
    tick_once(&mut orc, &mut w, &mut animals, &mut log, u64::MAX, false);
    assert!(!orc.alive);
    assert_eq!(orc.death_tick, Some(3));
    assert_eq!((orc.hunger, orc.thirst, orc.energy, orc.health), (200, 100, 800, 1000));
    assert_eq!(w.get(100, 100), Terrain::Bush);
    assert!(log.events.is_empty());
}

#[test]
fn an_idle_orc_decides_whatever_the_counters_hold() {
    let mut w = homeland();
    w.food_stockpile = u32::MAX;
    w.set(100, 90, Terrain::Water);
    let mut animals = Vec::new();
    let mut log = EventLog::new();
    let mut orc = orc_at(100, 100);
    orc.health = 150;
    orc.thirst = 900;
    orc.hunger = 850;
    tick_once(&mut orc, &mut w, &mut animals, &mut log, u64::MAX, false);
    assert!(orc.activity == Activity::GoingTo { x: 100, y: 91, reason: "Desperate for water".to_string() });
}

#[test]
fn no_room_for_a_timer_at_the_end_of_time() {
    let mut w = homeland();
    w.set(100, 100, Terrain::Bush);
    let mut animals = Vec::new();
    let mut log = EventLog::new();
    let mut rng = StdRng::seed_from_u64(1);
    let mut orc = orc_at(100, 100);
    orc.activity = Activity::GoingTo { x: 100, y: 100, reason: "Looking for food".to_string() };
    assert!(orc.has_room(&w, u64::MAX - 80));
    assert!(!orc.has_room(&w, u64::MAX - 79));
    assert!(!orc.try_update(&mut w, &mut animals, &mut rng, &mut log, u64::MAX - 79, false));
    assert_eq!((orc.hunger, orc.thirst, orc.energy, orc.health), (200, 100, 800, 1000));
    assert_eq!(w.get(100, 100), Terrain::Bush);
    assert!(log.events.is_empty());
    assert!(orc.try_update(&mut w, &mut animals, &mut rng, &mut log, u64::MAX - 80, false));
    assert!(orc.activity == Activity::Eating);
    assert_eq!(w.regrowth_timers, vec![(100, 100, u64::MAX)]);
    assert_eq!(orc.hunger, 205);
}

#[test]
fn no_room_for_more_meat_in_a_full_stockpile() {
    let mut w = homeland();
    w.food_stockpile = u32::MAX;
    let mut animals = Vec::new();
    let mut log = EventLog::new();
    let mut rng = StdRng::seed_from_u64(1);
    let mut orc = orc_at(152, 78);
    orc.carrying_food = true;
    orc.activity = Activity::CarryingMeat;
    assert!(!orc.has_room(&w, 5));
    assert!(!orc.try_update(&mut w, &mut animals, &mut rng, &mut log, 5, false));
    assert!(orc.carrying_food);
    assert_eq!(w.food_stockpile, u32::MAX);
    // Farther from the rack the orc only walks, and there is room for that.
    let mut far = orc_at(140, 78);
    far.carrying_food = true;
    far.activity = Activity::CarryingMeat;
    assert!(far.has_room(&w, 5));
    assert!(far.try_update(&mut w, &mut animals, &mut rng, &mut log, 5, false));
    assert_eq!((far.x, far.y), (141, 78));
    w.food_stockpile = u32::MAX - 1;
    assert!(orc.try_update(&mut w, &mut animals, &mut rng, &mut log, 5, false));
    assert_eq!(w.food_stockpile, u32::MAX);
    assert!(orc.activity == Activity::Idle);
}

#[test]
fn needs_stay_on_their_scale_whatever_the_counters_hold() {
    let mut w = homeland();
    w.food_stockpile = u32::MAX;
    w.set(100, 100, Terrain::Bush);
    let mut animals = vec![Animal::new(AnimalKind::Deer, 101, 100)];
    let mut log = EventLog::new();
    let mut rng = StdRng::seed_from_u64(9);
    let activities = [
        Activity::Idle,
        Activity::Eating,
        Activity::Sleeping,
        Activity::Drinking,
        Activity::Hunting { target_idx: 0 },
        Activity::CarryingMeat,
        Activity::GoingTo { x: 100, y: 100, reason: "Looking for food".to_string() },
    ];
    for activity in activities.iter() {
        for &(hunger, thirst, energy, health) in [(0, 0, 0, 0), (1000, 1000, 1000, 1000), (999, 998, 1, 3), (0, 1000, 1000, 1)].iter() {
            let mut orc = orc_at(100, 100);
            orc.activity = activity.clone();
            orc.hunger = hunger;
            orc.thirst = thirst;
            orc.energy = energy;
            orc.health = health;
            orc.try_update(&mut w, &mut animals, &mut rng, &mut log, u64::MAX, true);
            assert!(orc.hunger <= 1000 && orc.thirst <= 1000 && orc.energy <= 1000 && orc.health <= 1000);
            assert!(orc.is_well_formed());
        }
    }
}
