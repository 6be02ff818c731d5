//! What a front end shows of the village: the glyph of every tile of the
//! map, bars and colours for the needs of an orc, and the title line.

use crate::animal::Animal;
use crate::app::{count_living, headcount, App, DAY_LENGTH};
use crate::color::Color;
use crate::orc::{Activity, ActivityView, Orc, OrcView};
use crate::text::{decimal, push_decimal, push_str};
use crate::world::in_bounds;
use vstd::prelude::*;

verus! {

/// A glyph on the map and how it is drawn.
#[derive(Clone, Copy, PartialEq, Eq, Structural, Debug)]
pub struct Cell {
    pub symbol: char,
    pub color: Color,
    pub bold: bool,
    pub reversed: bool,
}

/// A colour as it looks by night: a third as bright, or dark gray where it
/// has no brightness to tell.
pub open spec fn dimmed(color: Color) -> Color {
    match color {
        Color::Rgb(r, g, b) => Color::Rgb(r / 3, g / 3, b / 3),
        _ => Color::DarkGray,
    }
}

#[verifier::when_used_as_spec(dimmed)]
pub fn dim_color(color: Color) -> (c: Color)
    ensures
        c == dimmed(color),
{
    match color {
        Color::Rgb(r, g, b) => Color::Rgb(r / 3, g / 3, b / 3),
        _ => Color::DarkGray,
    }
}

/// The colour by night if it is night, else as it is.
pub open spec fn lit(color: Color, night: bool) -> Color {
    if night {
        dimmed(color)
    } else {
        color
    }
}

/// How many cells of a bar `width` wide are full at `value` of `max`.
pub open spec fn full_cells(value: u32, max: u32, width: usize) -> int {
    value * width / (max as int)
}

/// Whether a half-full cell follows the full ones: where the bar is not
/// full and more than three tenths of the next cell are reached.
pub open spec fn half_cell(value: u32, max: u32, width: usize) -> bool {
    full_cells(value, max, width) < width && 10 * ((value * width) % (max as int)) > 3 * max
}

/// `n` times the character `c`.
pub open spec fn run_of(c: char, n: int) -> Seq<char> {
    Seq::new(n as nat, |i: int| c)
}

/// The text of a bar: the full cells, a half-full one where it is due,
/// and empty ones up to the width, in square brackets.
pub open spec fn bar_text(value: u32, max: u32, width: usize) -> Seq<char> {
    let full = full_cells(value, max, width);
    let half: int = if half_cell(value, max, width) {
        1
    } else {
        0
    };
    "["@ + run_of('▓', full) + run_of('▒', half) + run_of('░', width - full - half) + "]"@
}

/// Appends `n` copies of a one-character text.
fn push_run(s: &mut String, cell: &str, n: usize)
    requires
        cell@.len() == 1,
    ensures
        final(s)@ == old(s)@ + run_of(cell@[0], n as int),
{
    let mut i: usize = 0;
    while i < n
        invariant
            i <= n,
            cell@.len() == 1,
            s@ == old(s)@ + run_of(cell@[0], i as int),
        decreases n - i,
    {
        push_str(s, cell);
        i += 1;
        assert(s@ =~= old(s)@ + run_of(cell@[0], i as int));
    }
}

/// Draws a need as a bar of `width` cells.
pub fn bar(value: u32, max: u32, width: usize) -> (s: String)
    requires
        0 < max,
        value <= max,
        width <= u32::MAX,
    ensures
        s@ == bar_text(value, max, width),
{
    proof {
        reveal_strlit("▓");
        reveal_strlit("▒");
        reveal_strlit("░");
    }
    assert(value * width <= u64::MAX) by (nonlinear_arith)
        requires
            value <= u32::MAX,
            width <= u32::MAX,
    ;
    let reached: u64 = value as u64 * width as u64;
    assert(reached <= max * width) by (nonlinear_arith)
        requires
            reached == value * width,
            value <= max,
    ;
    let full: u64 = reached / max as u64;
    assert(full <= width) by (nonlinear_arith)
        requires
            full == reached / (max as u64),
            reached <= max * width,
            0 < max,
    ;
    let rest: u64 = reached % max as u64;
    let half = full < width as u64 && 10 * rest > 3 * max as u64;
    let empty: usize = if half {
        width - full as usize - 1
    } else {
        width - full as usize
    };
    let mut s = "[".to_owned();
    push_run(&mut s, "▓", full as usize);
    if half {
        push_str(&mut s, "▒");
    }
    push_run(&mut s, "░", empty);
    push_str(&mut s, "]");
    proof {
        assert(run_of('▒', 1) =~= "▒"@);
        assert(run_of('▒', 0) =~= Seq::<char>::empty());
        assert(s@ =~= bar_text(value, max, width));
    }
    s
}

/// A need in whole points, for display: tenths rounded to the nearest
/// point, and a half to the even one.
pub open spec fn spec_points(tenths: u32) -> u32 {
    let whole = tenths / 10;
    let rest = tenths % 10;
    if rest > 5 || (rest == 5 && whole % 2 == 1) {
        (whole + 1) as u32
    } else {
        whole
    }
}

#[verifier::when_used_as_spec(spec_points)]
pub fn points(tenths: u32) -> (p: u32)
    ensures
        p == spec_points(tenths),
{
    let whole = tenths / 10;
    let rest = tenths % 10;
    if rest > 5 || (rest == 5 && whole % 2 == 1) {
        whole + 1
    } else {
        whole
    }
}

pub open spec fn spec_health_color(health: u32) -> Color {
    if health < 300 {
        Color::Red
    } else if health < 600 {
        Color::Yellow
    } else {
        Color::Green
    }
}

pub open spec fn spec_hunger_color(hunger: u32) -> Color {
    if hunger > 700 {
        Color::Red
    } else if hunger > 400 {
        Color::Yellow
    } else {
        Color::Green
    }
}

pub open spec fn spec_energy_color(energy: u32) -> Color {
    if energy < 200 {
        Color::Red
    } else if energy < 500 {
        Color::Yellow
    } else {
        Color::Cyan
    }
}

pub open spec fn spec_thirst_color(thirst: u32) -> Color {
    if thirst > 700 {
        Color::Red
    } else if thirst > 400 {
        Color::Yellow
    } else {
        Color::Rgb(65, 105, 225)
    }
}

/// Red below 30 points, yellow below 60, else green.
#[verifier::when_used_as_spec(spec_health_color)]
pub fn health_color(health: u32) -> (c: Color)
    ensures
        c == spec_health_color(health),
{
    if health < 300 {
        Color::Red
    } else if health < 600 {
        Color::Yellow
    } else {
        Color::Green
    }
}

/// Red above 70 points, yellow above 40, else green.
#[verifier::when_used_as_spec(spec_hunger_color)]
pub fn hunger_color(hunger: u32) -> (c: Color)
    ensures
        c == spec_hunger_color(hunger),
{
    if hunger > 700 {
        Color::Red
    } else if hunger > 400 {
        Color::Yellow
    } else {
        Color::Green
    }
}

/// Red below 20 points, yellow below 50, else cyan.
#[verifier::when_used_as_spec(spec_energy_color)]
pub fn energy_color(energy: u32) -> (c: Color)
    ensures
        c == spec_energy_color(energy),
{
    if energy < 200 {
        Color::Red
    } else if energy < 500 {
        Color::Yellow
    } else {
        Color::Cyan
    }
}

/// Red above 70 points, yellow above 40, else the blue of water.
#[verifier::when_used_as_spec(spec_thirst_color)]
pub fn thirst_color(thirst: u32) -> (c: Color)
    ensures
        c == spec_thirst_color(thirst),
{
    if thirst > 700 {
        Color::Red
    } else if thirst > 400 {
        Color::Yellow
    } else {
        Color::Rgb(65, 105, 225)
    }
}

/// How an orc is drawn: a cross where it lies dead; else a glyph for what
/// it does, red if its health is below 30 points, white if it is selected,
/// brown if it carries meat, and light green otherwise.
pub open spec fn orc_cell(orc: OrcView, selected: bool) -> Cell {
    if !orc.alive {
        Cell { symbol: '†', color: Color::DarkGray, bold: false, reversed: false }
    } else {
        Cell {
            symbol: match orc.activity {
                ActivityView::Sleeping => '◎',
                ActivityView::Hunting { .. } => '⚔',
                _ => '☻',
            },
            color: if orc.health < 300 {
                Color::Red
            } else if selected {
                Color::White
            } else if orc.carrying_food {
                Color::Rgb(180, 120, 60)
            } else {
                Color::LightGreen
            },
            bold: true,
            reversed: selected,
        }
    }
}

/// `orcs[i]` stands on `(x, y)` and no orc before it does.
pub open spec fn orc_here(orcs: Seq<Orc>, x: int, y: int, i: int) -> bool {
    &&& 0 <= i < orcs.len()
    &&& orcs[i].x == x && orcs[i].y == y
    &&& forall|j: int| 0 <= j < i ==> !((#[trigger] orcs[j]).x == x && orcs[j].y == y)
}

/// `animals[i]` is alive on `(x, y)` and no animal before it is.
pub open spec fn animal_here(animals: Seq<Animal>, x: int, y: int, i: int) -> bool {
    &&& 0 <= i < animals.len()
    &&& animals[i].alive && animals[i].x == x && animals[i].y == y
    &&& forall|j: int|
        0 <= j < i ==> !((#[trigger] animals[j]).alive && animals[j].x == x && animals[j].y == y)
}

/// What the map shows at `(x, y)`: the first orc that stands there; else
/// the first living animal; else the cursor; else the terrain. Animals and
/// terrain are dimmed by night.
pub open spec fn shown_at(app: &App, x: int, y: int) -> Cell {
    if exists|i: int| orc_here(app.orcs@, x, y, i) {
        let i = choose|i: int| orc_here(app.orcs@, x, y, i);
        orc_cell(app.orcs@[i]@, app.selected_orc == Some(i as usize))
    } else if exists|i: int| animal_here(app.animals@, x, y, i) {
        let i = choose|i: int| animal_here(app.animals@, x, y, i);
        let kind = app.animals@[i].kind;
        Cell {
            symbol: kind.spec_symbol(),
            color: lit(kind.spec_color(), app.spec_is_night()),
            bold: false,
            reversed: false,
        }
    } else if app.cursor_x == x && app.cursor_y == y {
        Cell { symbol: '▣', color: Color::White, bold: false, reversed: true }
    } else {
        let terrain = app.world.tile(x, y);
        Cell {
            symbol: terrain.spec_symbol(),
            color: lit(terrain.spec_color(), app.spec_is_night()),
            bold: false,
            reversed: false,
        }
    }
}

fn first_orc_at(orcs: &Vec<Orc>, x: usize, y: usize) -> (r: Option<usize>)
    ensures
        match r {
            Some(i) => orc_here(orcs@, x as int, y as int, i as int) && (choose|j: int|
                orc_here(orcs@, x as int, y as int, j)) == i,
            None => forall|i: int| !orc_here(orcs@, x as int, y as int, i),
        },
{
    let mut i: usize = 0;
    while i < orcs.len()
        invariant
            i <= orcs@.len(),
            forall|j: int| 0 <= j < i ==> !((#[trigger] orcs@[j]).x == x && orcs@[j].y == y),
        decreases orcs@.len() - i,
    {
        if orcs[i].x == x && orcs[i].y == y {
            assert forall|j: int| orc_here(orcs@, x as int, y as int, j) implies j == i by {
                let a = orcs@[i as int];
                let b = orcs@[j];
            }
            return Some(i);
        }
        i += 1;
    }
    None
}

fn first_animal_at(animals: &Vec<Animal>, x: usize, y: usize) -> (r: Option<usize>)
    ensures
        match r {
            Some(i) => animal_here(animals@, x as int, y as int, i as int) && (choose|j: int|
                animal_here(animals@, x as int, y as int, j)) == i,
            None => forall|i: int| !animal_here(animals@, x as int, y as int, i),
        },
{
    let mut i: usize = 0;
    while i < animals.len()
        invariant
            i <= animals@.len(),
            forall|j: int|
                0 <= j < i ==> !((#[trigger] animals@[j]).alive && animals@[j].x == x && animals@[j].y
                    == y),
        decreases animals@.len() - i,
    {
        if animals[i].alive && animals[i].x == x && animals[i].y == y {
            assert forall|j: int| animal_here(animals@, x as int, y as int, j) implies j == i by {
                let a = animals@[i as int];
                let b = animals@[j];
            }
            return Some(i);
        }
        i += 1;
    }
    None
}

fn draw_orc(orc: &Orc, selected: bool) -> (c: Cell)
    ensures
        c == orc_cell(orc@, selected),
{
    if !orc.alive {
        return Cell { symbol: '†', color: Color::DarkGray, bold: false, reversed: false };
    }
    let symbol = match &orc.activity {
        Activity::Sleeping => '◎',
        Activity::Hunting { .. } => '⚔',
        _ => '☻',
    };
    let color = if orc.health < 300 {
        Color::Red
    } else if selected {
        Color::White
    } else if orc.carrying_food {
        Color::Rgb(180, 120, 60)
    } else {
        Color::LightGreen
    };
    Cell { symbol, color, bold: true, reversed: selected }
}

/// What the map shows at `(x, y)`.
pub fn cell_at(app: &App, x: usize, y: usize) -> (c: Cell)
    requires
        app.world.wf(),
        in_bounds(x as int, y as int),
    ensures
        c == shown_at(app, x as int, y as int),
{
    let night = app.is_night();
    match first_orc_at(&app.orcs, x, y) {
        Some(i) => {
            let selected = match app.selected_orc {
                Some(s) => s == i,
                None => false,
            };
            return draw_orc(&app.orcs[i], selected);
        },
        None => {},
    }
    match first_animal_at(&app.animals, x, y) {
        Some(i) => {
            let kind = app.animals[i].kind;
            let color = if night {
                dim_color(kind.color())
            } else {
                kind.color()
            };
            return Cell { symbol: kind.symbol(), color, bold: false, reversed: false };
        },
        None => {},
    }
    if app.cursor_x == x && app.cursor_y == y {
        return Cell { symbol: '▣', color: Color::White, bold: false, reversed: true };
    }
    let terrain = app.world.get(x, y);
    let color = if night {
        dim_color(terrain.color())
    } else {
        terrain.color()
    };
    Cell { symbol: terrain.symbol(), color, bold: false, reversed: false }
}

/// The text of the title line.
pub open spec fn title_text(app: &App) -> Seq<char> {
    " Orc Village | Day "@ + decimal((app.tick / DAY_LENGTH + 1) as nat) + " ("@ + (if app.spec_is_night() {
        "Night"@
    } else {
        "Day"@
    }) + ") | Pop: "@ + decimal(headcount(app.orcs@)) + " | Meat: "@ + decimal(
        app.world.food_stockpile as nat,
    ) + " | Speed: "@ + decimal(app.speed as nat) + "x "@ + (if app.paused {
        "[PAUSED]"@
    } else {
        ""@
    }) + " | ("@ + decimal(app.cursor_x as nat) + ","@ + decimal(app.cursor_y as nat) + ") "@
}

/// The title line: the day and whether it is night, how many orcs are
/// alive, the stockpile, the speed, whether the game is paused, and where
/// the cursor is.
pub fn title(app: &App) -> (s: String)
    ensures
        s@ == title_text(app),
{
    let mut s = " Orc Village | Day ".to_owned();
    push_decimal(&mut s, app.tick / DAY_LENGTH + 1);
    push_str(&mut s, " (");
    if app.is_night() {
        push_str(&mut s, "Night");
    } else {
        push_str(&mut s, "Day");
    }
    push_str(&mut s, ") | Pop: ");
    push_decimal(&mut s, count_living(&app.orcs) as u64);
    push_str(&mut s, " | Meat: ");
    push_decimal(&mut s, app.world.food_stockpile as u64);
    push_str(&mut s, " | Speed: ");
    push_decimal(&mut s, app.speed as u64);
    push_str(&mut s, "x ");
    if app.paused {
        push_str(&mut s, "[PAUSED]");
    }
    push_str(&mut s, " | (");
    push_decimal(&mut s, app.cursor_x as u64);
    push_str(&mut s, ",");
    push_decimal(&mut s, app.cursor_y as u64);
    push_str(&mut s, ") ");
    proof {
        reveal_strlit("");
        assert(s@ =~= title_text(app));
    }
    s
}

} // verus!
