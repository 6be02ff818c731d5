use orc_village::animal::{Animal, AnimalKind};
use orc_village::app::App;
use orc_village::color::Color;
use orc_village::display::{
    bar, cell_at, dim_color, energy_color, health_color, hunger_color, points, thirst_color, title, Cell,
};
use orc_village::event::EventLog;
use orc_village::input::{command_for, Command, Key};
use orc_village::orc::{Activity, Orc};
use orc_village::world::{Terrain, World, MAP_HEIGHT, MAP_WIDTH};
use rand::rngs::StdRng;
use rand::SeedableRng;

fn stage(orcs: Vec<Orc>, animals: Vec<Animal>) -> App {
    let mut tiles = vec![vec![Terrain::Grass; MAP_WIDTH]; MAP_HEIGHT];
    tiles[75][150] = Terrain::Campfire;
    tiles[77][152] = Terrain::MeatRack;
    let mut app = App::new(StdRng::seed_from_u64(1));
    app.world = World { tiles, campfire_pos: (150, 75), food_stockpile: 3, regrowth_timers: Vec::new() };
    app.orcs = orcs;
    app.animals = animals;
    app.event_log = EventLog::new();
    app
}

fn plain(symbol: char, color: Color) -> Cell {
    Cell { symbol, color, bold: false, reversed: false }
}

#[test]
fn colours_dim_by_night() {
    assert_eq!(dim_color(Color::Rgb(90, 61, 2)), Color::Rgb(30, 20, 0));
    assert_eq!(dim_color(Color::Rgb(255, 255, 255)), Color::Rgb(85, 85, 85));
    assert_eq!(dim_color(Color::Gray), Color::DarkGray);
    assert_eq!(dim_color(Color::White), Color::DarkGray);
    assert_eq!(dim_color(Color::DarkGray), Color::DarkGray);
    assert_eq!(dim_color(Color::Magenta), Color::DarkGray);
}

#[test]
fn bars() {
    assert_eq!(bar(1000, 1000, 6), "[▓▓▓▓▓▓]");
    assert_eq!(bar(0, 1000, 6), "[░░░░░░]");
    assert_eq!(bar(500, 1000, 6), "[▓▓▓░░░]");
    assert_eq!(bar(550, 1000, 6), "[▓▓▓░░░]");
    assert_eq!(bar(551, 1000, 6), "[▓▓▓▒░░]");
    assert_eq!(bar(990, 1000, 6), "[▓▓▓▓▓▒]");
    assert_eq!(bar(50, 1000, 6), "[░░░░░░]");
    assert_eq!(bar(51, 1000, 6), "[▒░░░░░]");
    assert_eq!(bar(3, 4, 8), "[▓▓▓▓▓▓░░]");
    assert_eq!(bar(1, 3, 1), "[▒]");
    assert_eq!(bar(1, 1, 0), "[]");
}

#[test]
fn needs_in_whole_points() {
    assert_eq!(points(0), 0);
    assert_eq!(points(204), 20);
    assert_eq!(points(206), 21);
    assert_eq!(points(985), 98);
    assert_eq!(points(995), 100);
    assert_eq!(points(5), 0);
    assert_eq!(points(15), 2);
    assert_eq!(points(1000), 100);
}

#[test]
fn colours_of_the_needs() {
    assert_eq!(health_color(299), Color::Red);
    assert_eq!(health_color(300), Color::Yellow);
    assert_eq!(health_color(599), Color::Yellow);
    assert_eq!(health_color(600), Color::Green);
    assert_eq!(hunger_color(701), Color::Red);
    assert_eq!(hunger_color(700), Color::Yellow);
    assert_eq!(hunger_color(401), Color::Yellow);
    assert_eq!(hunger_color(400), Color::Green);
    assert_eq!(energy_color(199), Color::Red);
    assert_eq!(energy_color(200), Color::Yellow);
    assert_eq!(energy_color(499), Color::Yellow);
    assert_eq!(energy_color(500), Color::Cyan);
    assert_eq!(thirst_color(701), Color::Red);
    assert_eq!(thirst_color(700), Color::Yellow);
    assert_eq!(thirst_color(401), Color::Yellow);
    assert_eq!(thirst_color(400), Color::Rgb(65, 105, 225));
}

#[test]
fn map_shows_terrain_and_cursor() {
    let mut app = stage(Vec::new(), Vec::new());
    app.cursor_x = 10;
    app.cursor_y = 10;
    assert_eq!(cell_at(&app, 0, 0), plain('·', Color::DarkGray));
    assert_eq!(cell_at(&app, 150, 75), plain('♨', Color::Rgb(255, 140, 0)));
    assert_eq!(cell_at(&app, 152, 77), plain('⌸', Color::Rgb(180, 120, 60)));
    assert_eq!(cell_at(&app, 10, 10), Cell { symbol: '▣', color: Color::White, bold: false, reversed: true });
    app.tick = 60;
    assert_eq!(cell_at(&app, 150, 75), plain('♨', Color::Rgb(85, 46, 0)));
    assert_eq!(cell_at(&app, 0, 0), plain('·', Color::DarkGray));
    assert_eq!(cell_at(&app, 10, 10), Cell { symbol: '▣', color: Color::White, bold: false, reversed: true });
}

#[test]
fn map_shows_animals_over_terrain_and_cursor() {
    let mut app = stage(Vec::new(), vec![Animal::new(AnimalKind::Boar, 20, 20), Animal::new(AnimalKind::Deer, 20, 20), Animal::new(AnimalKind::Deer, 150, 75)]);
    assert_eq!(cell_at(&app, 20, 20), plain('β', Color::Rgb(140, 100, 60)));
    assert_eq!(cell_at(&app, 150, 75), plain('δ', Color::Rgb(180, 140, 80)));
    app.animals[0].alive = false;
    assert_eq!(cell_at(&app, 20, 20), plain('δ', Color::Rgb(180, 140, 80)));
    app.tick = 99;
    assert_eq!(cell_at(&app, 20, 20), plain('δ', Color::Rgb(60, 46, 26)));
    app.animals[1].alive = false;
    assert_eq!(cell_at(&app, 20, 20), plain('·', Color::DarkGray));
}

#[test]
fn map_shows_orcs_over_all_else() {
    let mut app = stage(
        vec![Orc::new("Grok".to_string(), 20, 20), Orc::new("Zug".to_string(), 20, 20), Orc::new("Brak".to_string(), 30, 30)],
        vec![Animal::new(AnimalKind::Boar, 20, 20)],
    );
    app.cursor_x = 20;
    app.cursor_y = 20;
    let bold = |symbol: char, color: Color| Cell { symbol, color, bold: true, reversed: false };
    assert_eq!(cell_at(&app, 20, 20), bold('☻', Color::LightGreen));
    app.tick = 70;
    assert_eq!(cell_at(&app, 20, 20), bold('☻', Color::LightGreen));
    app.orcs[0].activity = Activity::Sleeping;
    assert_eq!(cell_at(&app, 20, 20), bold('◎', Color::LightGreen));
    app.orcs[0].activity = Activity::Hunting { target_idx: 0 };
    app.orcs[0].carrying_food = true;
    assert_eq!(cell_at(&app, 20, 20), bold('⚔', Color::Rgb(180, 120, 60)));
    app.orcs[0].activity = Activity::CarryingMeat;
    assert_eq!(cell_at(&app, 20, 20), bold('☻', Color::Rgb(180, 120, 60)));
    app.selected_orc = Some(0);
    assert_eq!(cell_at(&app, 20, 20), Cell { symbol: '☻', color: Color::White, bold: true, reversed: true });
    app.orcs[0].health = 299;
    assert_eq!(cell_at(&app, 20, 20), Cell { symbol: '☻', color: Color::Red, bold: true, reversed: true });
    app.selected_orc = Some(1);
    assert_eq!(cell_at(&app, 20, 20), bold('☻', Color::Red));
    // A dead orc hides what comes after it.
    app.orcs[0].alive = false;
    assert_eq!(cell_at(&app, 20, 20), plain('†', Color::DarkGray));
    assert_eq!(cell_at(&app, 30, 30), bold('☻', Color::LightGreen));
}

#[test]
fn title_line() {
    let mut app = stage(vec![Orc::new("Grok".to_string(), 20, 20), Orc::new("Zug".to_string(), 21, 20)], Vec::new());
    assert_eq!(title(&app), " Orc Village | Day 1 (Day) | Pop: 2 | Meat: 3 | Speed: 1x  | (150,75) ");
    app.tick = 1260;
    app.orcs[0].alive = false;
    app.world.food_stockpile = 12;
    app.speed = 10;
    app.paused = true;
    app.cursor_x = 0;
    app.cursor_y = 149;
    assert_eq!(title(&app), " Orc Village | Day 13 (Night) | Pop: 1 | Meat: 12 | Speed: 10x [PAUSED] | (0,149) ");
}

#[test]
fn keys_and_their_commands() {
    assert_eq!(command_for(Key::Char('q')), Some(Command::Quit));
    assert_eq!(command_for(Key::Char(' ')), Some(Command::TogglePause));
    assert_eq!(command_for(Key::Char('+')), Some(Command::SpeedUp));
    assert_eq!(command_for(Key::Char('=')), Some(Command::SpeedUp));
    assert_eq!(command_for(Key::Char('-')), Some(Command::SpeedDown));
    assert_eq!(command_for(Key::Char('f')), Some(Command::DropFood));
    assert_eq!(command_for(Key::Up), Some(Command::MoveCursor(0, -1)));
    assert_eq!(command_for(Key::Down), Some(Command::MoveCursor(0, 1)));
    assert_eq!(command_for(Key::Left), Some(Command::MoveCursor(-1, 0)));
    assert_eq!(command_for(Key::Right), Some(Command::MoveCursor(1, 0)));
    assert_eq!(command_for(Key::Tab), Some(Command::CycleSelection));
    assert_eq!(command_for(Key::Char('Q')), None);
    assert_eq!(command_for(Key::Char('x')), None);
    assert_eq!(command_for(Key::Other), None);
}

#[test]
fn commands_steer_the_village() {
    let mut app = stage(vec![Orc::new("Grok".to_string(), 20, 20)], Vec::new());
    app.run_command(Command::TogglePause);
    assert!(app.paused);
    app.run_command(Command::SpeedUp);
    app.run_command(Command::SpeedUp);
    app.run_command(Command::SpeedDown);
    assert_eq!(app.speed, 2);
    app.run_command(Command::MoveCursor(-1, 0));
    app.run_command(Command::MoveCursor(0, 1));
    assert_eq!((app.cursor_x, app.cursor_y), (149, 76));
    app.run_command(Command::DropFood);
    assert_eq!(app.world.get(149, 76), Terrain::Food);
    app.run_command(Command::CycleSelection);
    assert_eq!(app.selected_orc, Some(0));
    assert_eq!((app.cursor_x, app.cursor_y), (20, 20));
    assert!(!app.should_quit);
    app.run_command(Command::Quit);
    assert!(app.should_quit);
    assert_eq!(app.tick, 0);
}
