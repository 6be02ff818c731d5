//! The tile map: terrain kinds, lookups, nearest-tile searches and the bush
//! regrowth timers.

use crate::chance::{roll_range, roll_ratio};
use crate::color::Color;
use rand::rngs::StdRng;
use vstd::prelude::*;

verus! {

pub const MAP_WIDTH: usize = 300;

pub const MAP_HEIGHT: usize = 150;

/// Ticks between a bush being foraged and its berries growing back.
pub const REGROWTH_DELAY: u64 = 80;

/// Food units in the stockpile of a new world.
pub const INITIAL_STOCKPILE: u32 = 3;

#[derive(Clone, Copy, PartialEq, Eq, Structural, Debug)]
pub enum Terrain {
    Grass,
    Tree,
    Rock,
    Water,
    Campfire,
    Food,
    Bush,
    DepletedBush,
    MeatRack,
}

impl Terrain {
    /// Rock and water block movement; every other terrain can be walked on.
    pub open spec fn spec_walkable(&self) -> bool {
        *self != Terrain::Rock && *self != Terrain::Water
    }

    pub open spec fn spec_symbol(&self) -> char {
        match *self {
            Terrain::Grass => '·',
            Terrain::Tree => '♣',
            Terrain::Rock => '◆',
            Terrain::Water => '≈',
            Terrain::Campfire => '♨',
            Terrain::Food => '⚘',
            Terrain::Bush | Terrain::DepletedBush => '✿',
            Terrain::MeatRack => '⌸',
        }
    }

    pub open spec fn spec_color(&self) -> Color {
        match *self {
            Terrain::Grass => Color::DarkGray,
            Terrain::Tree => Color::Rgb(34, 139, 34),
            Terrain::Rock => Color::Gray,
            Terrain::Water => Color::Rgb(65, 105, 225),
            Terrain::Campfire => Color::Rgb(255, 140, 0),
            Terrain::Food => Color::Rgb(255, 100, 180),
            Terrain::Bush => Color::Rgb(220, 50, 80),
            Terrain::DepletedBush => Color::Rgb(80, 60, 60),
            Terrain::MeatRack => Color::Rgb(180, 120, 60),
        }
    }

    #[verifier::when_used_as_spec(spec_symbol)]
    pub fn symbol(&self) -> (c: char)
        ensures
            c == self.spec_symbol(),
    {
        match self {
            Terrain::Grass => '·',
            Terrain::Tree => '♣',
            Terrain::Rock => '◆',
            Terrain::Water => '≈',
            Terrain::Campfire => '♨',
            Terrain::Food => '⚘',
            Terrain::Bush => '✿',
            Terrain::DepletedBush => '✿',
            Terrain::MeatRack => '⌸',
        }
    }

    #[verifier::when_used_as_spec(spec_walkable)]
    pub fn walkable(&self) -> (r: bool)
        ensures
            r == self.spec_walkable(),
    {
        match self {
            Terrain::Rock | Terrain::Water => false,
            _ => true,
        }
    }

    #[verifier::when_used_as_spec(spec_color)]
    pub fn color(&self) -> (c: Color)
        ensures
            c == self.spec_color(),
    {
        match self {
            Terrain::Grass => Color::DarkGray,
            Terrain::Tree => Color::Rgb(34, 139, 34),
            Terrain::Rock => Color::Gray,
            Terrain::Water => Color::Rgb(65, 105, 225),
            Terrain::Campfire => Color::Rgb(255, 140, 0),
            Terrain::Food => Color::Rgb(255, 100, 180),
            Terrain::Bush => Color::Rgb(220, 50, 80),
            Terrain::DepletedBush => Color::Rgb(80, 60, 60),
            Terrain::MeatRack => Color::Rgb(180, 120, 60),
        }
    }
}

/// Whether `(x, y)` names a tile of the map.
pub open spec fn in_bounds(x: int, y: int) -> bool {
    0 <= x < MAP_WIDTH && 0 <= y < MAP_HEIGHT
}

pub open spec fn abs_diff(a: int, b: int) -> int {
    if a >= b {
        a - b
    } else {
        b - a
    }
}

/// Manhattan distance between two tiles.
pub open spec fn manhattan(ax: int, ay: int, bx: int, by: int) -> int {
    abs_diff(ax, bx) + abs_diff(ay, by)
}

/// Row-major scan order: rows from top to bottom, each row from left to right.
pub open spec fn scans_before(x1: int, y1: int, x2: int, y2: int) -> bool {
    y1 < y2 || (y1 == y2 && x1 < x2)
}

pub open spec fn clamp(v: int, low: int, high: int) -> int {
    if v < low {
        low
    } else if v > high {
        high
    } else {
        v
    }
}

/// The tile reached from `(x, y)` by the offset `(dx, dy)`, held back at the
/// map's edges.
pub open spec fn shifted(x: int, y: int, dx: int, dy: int) -> (int, int) {
    (clamp(x + dx, 0, MAP_WIDTH - 1), clamp(y + dy, 0, MAP_HEIGHT - 1))
}

/// The four orthogonal offsets in the order in which neighbours are tried:
/// below, above, right, left.
pub open spec fn orthogonal(k: int) -> (int, int) {
    if k == 0 {
        (0, 1)
    } else if k == 1 {
        (0, -1)
    } else if k == 2 {
        (1, 0)
    } else {
        (-1, 0)
    }
}

/// The `k`-th orthogonal neighbour of `(x, y)`, held back at the map's edges.
pub open spec fn side(x: int, y: int, k: int) -> (int, int) {
    shifted(x, y, orthogonal(k).0, orthogonal(k).1)
}

pub fn distance(ax: usize, ay: usize, bx: usize, by: usize) -> (d: usize)
    requires
        manhattan(ax as int, ay as int, bx as int, by as int) <= usize::MAX,
    ensures
        d == manhattan(ax as int, ay as int, bx as int, by as int),
{
    let dx = if ax >= bx {
        ax - bx
    } else {
        bx - ax
    };
    let dy = if ay >= by {
        ay - by
    } else {
        by - ay
    };
    dx + dy
}

/// Moves `(x, y)` by `(dx, dy)` and clamps the result to the map.
pub fn shift(x: usize, y: usize, dx: i32, dy: i32) -> (r: (usize, usize))
    requires
        in_bounds(x as int, y as int),
        -1000 <= dx <= 1000,
        -1000 <= dy <= 1000,
    ensures
        (r.0 as int, r.1 as int) == shifted(x as int, y as int, dx as int, dy as int),
        in_bounds(r.0 as int, r.1 as int),
{
    let nx: i32 = x as i32 + dx;
    let ny: i32 = y as i32 + dy;
    let cx: i32 = if nx < 0 {
        0
    } else if nx > MAP_WIDTH as i32 - 1 {
        MAP_WIDTH as i32 - 1
    } else {
        nx
    };
    let cy: i32 = if ny < 0 {
        0
    } else if ny > MAP_HEIGHT as i32 - 1 {
        MAP_HEIGHT as i32 - 1
    } else {
        ny
    };
    (cx as usize, cy as usize)
}

fn orthogonal_offset(k: usize) -> (d: (i32, i32))
    requires
        k < 4,
    ensures
        (d.0 as int, d.1 as int) == orthogonal(k as int),
{
    if k == 0 {
        (0, 1)
    } else if k == 1 {
        (0, -1)
    } else if k == 2 {
        (1, 0)
    } else {
        (-1, 0)
    }
}

pub struct World {
    pub tiles: Vec<Vec<Terrain>>,
    pub campfire_pos: (usize, usize),
    pub food_stockpile: u32,
    /// Pending regrowth: `(x, y, tick_due)`.
    pub regrowth_timers: Vec<(usize, usize, u64)>,
}

/// The timers that have not come due at `tick`.
pub open spec fn not_due(tick: u64) -> spec_fn((usize, usize, u64)) -> bool {
    |t: (usize, usize, u64)| tick < t.2
}

impl World {
    /// The grid has the map's dimensions, and the campfire and every pending
    /// timer lie on the map.
    pub open spec fn wf(&self) -> bool {
        &&& self.tiles.len() == MAP_HEIGHT
        &&& forall|y: int| 0 <= y < MAP_HEIGHT ==> (#[trigger] self.tiles[y]).len() == MAP_WIDTH
        &&& in_bounds(self.campfire_pos.0 as int, self.campfire_pos.1 as int)
        &&& forall|i: int|
            0 <= i < self.regrowth_timers.len() ==> in_bounds(
                (#[trigger] self.regrowth_timers[i]).0 as int,
                self.regrowth_timers[i].1 as int,
            )
    }

    pub open spec fn tile(&self, x: int, y: int) -> Terrain {
        self.tiles[y][x]
    }

    pub open spec fn spec_is_walkable(&self, x: int, y: int) -> bool {
        in_bounds(x, y) && self.tile(x, y).spec_walkable()
    }

    /// Both worlds hold the same terrain on every tile but, possibly, `(x, y)`.
    pub open spec fn same_tiles_but(&self, before: &World, x: int, y: int) -> bool {
        forall|x2: int, y2: int|
            in_bounds(x2, y2) && !(x2 == x && y2 == y) ==> self.tile(x2, y2) == before.tile(
                x2,
                y2,
            )
    }

    pub open spec fn same_tiles(&self, before: &World) -> bool {
        forall|x: int, y: int| in_bounds(x, y) ==> self.tile(x, y) == before.tile(x, y)
    }

    /// Campfire, stockpile and timers are as in `before`.
    pub open spec fn same_ledger(&self, before: &World) -> bool {
        &&& self.campfire_pos == before.campfire_pos
        &&& self.food_stockpile == before.food_stockpile
        &&& self.regrowth_timers@ == before.regrowth_timers@
    }

    pub open spec fn same_as(&self, before: &World) -> bool {
        self.same_tiles(before) && self.same_ledger(before)
    }

    /// Some pending timer for `(x, y)` has come due at `tick`.
    pub open spec fn regrowth_due(&self, x: int, y: int, tick: u64) -> bool {
        exists|i: int|
            0 <= i < self.regrowth_timers.len() && (#[trigger] self.regrowth_timers[i]).0 == x
                && self.regrowth_timers[i].1 == y && tick >= self.regrowth_timers[i].2
    }

    /// `(x, y)` holds `terrain`, no tile holding it is nearer to `(fx, fy)`,
    /// and of the tiles just as near it comes first in scan order.
    pub open spec fn is_nearest(&self, fx: int, fy: int, terrain: Terrain, x: int, y: int) -> bool {
        &&& in_bounds(x, y)
        &&& self.tile(x, y) == terrain
        &&& forall|x2: int, y2: int|
            in_bounds(x2, y2) && self.tile(x2, y2) == terrain ==> {
                ||| manhattan(fx, fy, x, y) < manhattan(fx, fy, x2, y2)
                ||| (manhattan(fx, fy, x, y) == manhattan(fx, fy, x2, y2) && !scans_before(
                    x2,
                    y2,
                    x,
                    y,
                ))
            }
    }

    pub open spec fn has_terrain(&self, terrain: Terrain) -> bool {
        exists|x: int, y: int| in_bounds(x, y) && self.tile(x, y) == terrain
    }

    /// The nearest tile of the given terrain, if the map has one.
    pub open spec fn spec_find_nearest(&self, fx: int, fy: int, terrain: Terrain) -> Option<
        (usize, usize),
    > {
        if exists|x: int, y: int| self.is_nearest(fx, fy, terrain, x, y) {
            let p = choose|p: (int, int)| self.is_nearest(fx, fy, terrain, p.0, p.1);
            Some((p.0 as usize, p.1 as usize))
        } else {
            None
        }
    }

    /// The `k`-th neighbour of the water tile `(wx, wy)` can be walked on, no
    /// walkable neighbour is nearer to `(fx, fy)`, and of those just as near
    /// it is tried first.
    pub open spec fn is_best_side(&self, fx: int, fy: int, wx: int, wy: int, k: int) -> bool {
        &&& 0 <= k < 4
        &&& self.spec_is_walkable(side(wx, wy, k).0, side(wx, wy, k).1)
        &&& forall|j: int|
            0 <= j < 4 && self.spec_is_walkable(
                (#[trigger] side(wx, wy, j)).0,
                side(wx, wy, j).1,
            ) ==> {
                let (kx, ky) = side(wx, wy, k);
                let (jx, jy) = side(wx, wy, j);
                ||| manhattan(fx, fy, kx, ky) < manhattan(fx, fy, jx, jy)
                ||| (manhattan(fx, fy, kx, ky) == manhattan(fx, fy, jx, jy) && k <= j)
            }
    }

    /// The walkable orthogonal neighbour of the nearest water tile that lies
    /// closest to `(fx, fy)`.
    pub open spec fn spec_find_water_adjacent(&self, fx: int, fy: int) -> Option<(usize, usize)> {
        match self.spec_find_nearest(fx, fy, Terrain::Water) {
            None => None,
            Some((wx, wy)) => {
                if exists|k: int| self.is_best_side(fx, fy, wx as int, wy as int, k) {
                    let k = choose|k: int| self.is_best_side(fx, fy, wx as int, wy as int, k);
                    let (x, y) = side(wx as int, wy as int, k);
                    Some((x as usize, y as usize))
                } else {
                    None
                }
            },
        }
    }

    /// The meat rack stands two tiles right of and below the campfire, if
    /// that tile is on the map and holds a rack.
    pub open spec fn spec_meat_rack_pos(&self) -> Option<(usize, usize)> {
        let x = self.campfire_pos.0 + 2;
        let y = self.campfire_pos.1 + 2;
        if in_bounds(x, y) && self.tile(x, y) == Terrain::MeatRack {
            Some((x as usize, y as usize))
        } else {
            None
        }
    }

    /// Checks that the world is well formed.
    pub fn is_well_formed(&self) -> (r: bool)
        ensures
            r == self.wf(),
    {
        if self.tiles.len() != MAP_HEIGHT {
            return false;
        }
        let mut y: usize = 0;
        while y < MAP_HEIGHT
            invariant
                y <= MAP_HEIGHT,
                self.tiles.len() == MAP_HEIGHT,
                forall|j: int| 0 <= j < y ==> (#[trigger] self.tiles[j]).len() == MAP_WIDTH,
            decreases MAP_HEIGHT - y,
        {
            if self.tiles[y].len() != MAP_WIDTH {
                return false;
            }
            y += 1;
        }
        if self.campfire_pos.0 >= MAP_WIDTH || self.campfire_pos.1 >= MAP_HEIGHT {
            return false;
        }
        let mut i: usize = 0;
        while i < self.regrowth_timers.len()
            invariant
                i <= self.regrowth_timers.len(),
                forall|j: int|
                    0 <= j < i ==> in_bounds(
                        (#[trigger] self.regrowth_timers[j]).0 as int,
                        self.regrowth_timers[j].1 as int,
                    ),
            decreases self.regrowth_timers.len() - i,
        {
            if self.regrowth_timers[i].0 >= MAP_WIDTH || self.regrowth_timers[i].1 >= MAP_HEIGHT {
                return false;
            }
            i += 1;
        }
        true
    }

    pub fn get(&self, x: usize, y: usize) -> (t: Terrain)
        requires
            self.wf(),
            in_bounds(x as int, y as int),
        ensures
            t == self.tile(x as int, y as int),
    {
        self.tiles[y][x]
    }

    pub fn set(&mut self, x: usize, y: usize, terrain: Terrain)
        requires
            old(self).wf(),
            in_bounds(x as int, y as int),
        ensures
            final(self).wf(),
            final(self).tile(x as int, y as int) == terrain,
            final(self).same_tiles_but(old(self), x as int, y as int),
            final(self).same_ledger(old(self)),
    {
        self.tiles[y][x] = terrain;
    }

    #[verifier::when_used_as_spec(spec_is_walkable_at)]
    pub fn is_walkable(&self, x: usize, y: usize) -> (r: bool)
        requires
            self.wf(),
        ensures
            r == self.spec_is_walkable(x as int, y as int),
    {
        if x >= MAP_WIDTH || y >= MAP_HEIGHT {
            return false;
        }
        self.tiles[y][x].walkable()
    }

    pub open spec fn spec_is_walkable_at(&self, x: usize, y: usize) -> bool {
        self.spec_is_walkable(x as int, y as int)
    }
}

impl World {
    /// What `deplete_bush` does: a bush loses its berries and a timer is set
    /// for their return; any other tile is left alone.
    pub open spec fn depleted(&self, before: &World, x: int, y: int, tick: u64) -> bool {
        if before.tile(x, y) == Terrain::Bush {
            &&& self.tile(x, y) == Terrain::DepletedBush
            &&& self.same_tiles_but(before, x, y)
            &&& self.campfire_pos == before.campfire_pos
            &&& self.food_stockpile == before.food_stockpile
            &&& self.regrowth_timers@ == before.regrowth_timers@.push(
                (x as usize, y as usize, (tick + REGROWTH_DELAY) as u64),
            )
        } else {
            self.same_as(before)
        }
    }

    /// What `tick_regrowth` does: every timer that has come due is dropped,
    /// and a tile with such a timer grows back if it is still a depleted bush.
    pub open spec fn regrown(&self, before: &World, tick: u64) -> bool {
        &&& self.campfire_pos == before.campfire_pos
        &&& self.food_stockpile == before.food_stockpile
        &&& self.regrowth_timers@ == before.regrowth_timers@.filter(not_due(tick))
        &&& forall|x: int, y: int|
            in_bounds(x, y) ==> self.tile(x, y) == if before.tile(x, y) == Terrain::DepletedBush
                && before.regrowth_due(x, y, tick) {
                Terrain::Bush
            } else {
                before.tile(x, y)
            }
    }

    pub fn deplete_bush(&mut self, x: usize, y: usize, current_tick: u64)
        requires
            old(self).wf(),
            in_bounds(x as int, y as int),
            old(self).tile(x as int, y as int) == Terrain::Bush ==> current_tick + REGROWTH_DELAY
                <= u64::MAX,
        ensures
            final(self).wf(),
            final(self).depleted(old(self), x as int, y as int, current_tick),
    {
        if self.tiles[y][x] == Terrain::Bush {
            self.tiles[y][x] = Terrain::DepletedBush;
            self.regrowth_timers.push((x, y, current_tick + REGROWTH_DELAY));
        }
    }

    pub fn tick_regrowth(&mut self, current_tick: u64)
        requires
            old(self).wf(),
        ensures
            final(self).wf(),
            final(self).regrown(old(self), current_tick),
    {
        let ghost before = *self;
        let mut kept: Vec<(usize, usize, u64)> = Vec::new();
        let mut i: usize = 0;
        while i < self.regrowth_timers.len()
            invariant
                before.wf(),
                self.wf(),
                self.campfire_pos == before.campfire_pos,
                self.food_stockpile == before.food_stockpile,
                self.regrowth_timers@ == before.regrowth_timers@,
                i <= self.regrowth_timers.len(),
                kept@ == before.regrowth_timers@.take(i as int).filter(not_due(current_tick)),
                forall|j: int|
                    0 <= j < kept.len() ==> in_bounds((#[trigger] kept[j]).0 as int, kept[j].1 as int),
                forall|x: int, y: int|
                    in_bounds(x, y) ==> self.tile(x, y) == if before.tile(x, y)
                        == Terrain::DepletedBush && exists|j: int|
                        0 <= j < i && (#[trigger] before.regrowth_timers[j]).0 == x
                            && before.regrowth_timers[j].1 == y && current_tick
                            >= before.regrowth_timers[j].2 {
                        Terrain::Bush
                    } else {
                        before.tile(x, y)
                    },
            decreases self.regrowth_timers.len() - i,
        {
            let (x, y, due) = self.regrowth_timers[i];
            proof {
                let upto = before.regrowth_timers@.take(i + 1);
                assert(upto.drop_last() == before.regrowth_timers@.take(i as int));
                assert(upto.last() == (x, y, due));
                reveal(Seq::filter);
            }
            if current_tick >= due {
                if self.tiles[y][x] == Terrain::DepletedBush {
                    self.tiles[y][x] = Terrain::Bush;
                }
            } else {
                kept.push((x, y, due));
            }
            i += 1;
        }
        assert(before.regrowth_timers@.take(i as int) == before.regrowth_timers@);
        self.regrowth_timers = kept;
    }

    /// Finds the tile of the given terrain nearest to `(from_x, from_y)` by
    /// Manhattan distance; among equally near tiles, the first in scan order.
    pub fn find_nearest(&self, from_x: usize, from_y: usize, terrain: Terrain) -> (r: Option<
        (usize, usize),
    >)
        requires
            self.wf(),
            in_bounds(from_x as int, from_y as int),
        ensures
            r == self.spec_find_nearest(from_x as int, from_y as int, terrain),
            match r {
                Some((x, y)) => self.is_nearest(
                    from_x as int,
                    from_y as int,
                    terrain,
                    x as int,
                    y as int,
                ),
                None => !self.has_terrain(terrain),
            },
    {
        let mut best: Option<(usize, usize, usize)> = None;
        let mut y: usize = 0;
        while y < MAP_HEIGHT
            invariant
                self.wf(),
                in_bounds(from_x as int, from_y as int),
                y <= MAP_HEIGHT,
                self.nearest_so_far(from_x as int, from_y as int, terrain, best, 0, y as int),
            decreases MAP_HEIGHT - y,
        {
            let mut x: usize = 0;
            while x < MAP_WIDTH
                invariant
                    self.wf(),
                    in_bounds(from_x as int, from_y as int),
                    y < MAP_HEIGHT,
                    x <= MAP_WIDTH,
                    self.nearest_so_far(
                        from_x as int,
                        from_y as int,
                        terrain,
                        best,
                        x as int,
                        y as int,
                    ),
                decreases MAP_WIDTH - x,
            {
                if self.tiles[y][x] == terrain {
                    let dist = distance(from_x, from_y, x, y);
                    let better = match best {
                        None => true,
                        Some(b) => dist < b.2,
                    };
                    if better {
                        best = Some((x, y, dist));
                    }
                }
                x += 1;
            }
            y += 1;
        }
        match best {
            Some(b) => {
                proof {
                    self.lemma_nearest_unique(from_x as int, from_y as int, terrain, b.0 as int, b.1 as int);
                }
                Some((b.0, b.1))
            },
            None => {
                assert forall|x: int, y: int|
                    !self.is_nearest(from_x as int, from_y as int, terrain, x, y) by {
                    if in_bounds(x, y) {
                        assert(scans_before(x, y, 0, MAP_HEIGHT as int));
                    }
                }
                None
            },
        }
    }

    /// `best` is the nearest matching tile among those scanned before
    /// `(cx, cy)`, with its distance.
    pub closed spec fn nearest_so_far(
        &self,
        fx: int,
        fy: int,
        terrain: Terrain,
        best: Option<(usize, usize, usize)>,
        cx: int,
        cy: int,
    ) -> bool {
        match best {
            None => forall|x: int, y: int|
                in_bounds(x, y) && scans_before(x, y, cx, cy) ==> self.tile(x, y) != terrain,
            Some((bx, by, d)) => {
                &&& in_bounds(bx as int, by as int)
                &&& scans_before(bx as int, by as int, cx, cy)
                &&& self.tile(bx as int, by as int) == terrain
                &&& d == manhattan(fx, fy, bx as int, by as int)
                &&& forall|x: int, y: int|
                    in_bounds(x, y) && scans_before(x, y, cx, cy) && self.tile(x, y) == terrain
                        ==> {
                        ||| d < manhattan(fx, fy, x, y)
                        ||| (d == manhattan(fx, fy, x, y) && !scans_before(
                            x,
                            y,
                            bx as int,
                            by as int,
                        ))
                    }
            },
        }
    }

    /// At most one tile is the nearest of its terrain; `spec_find_nearest`
    /// names it.
    pub proof fn lemma_nearest_unique(&self, fx: int, fy: int, terrain: Terrain, x: int, y: int)
        requires
            self.is_nearest(fx, fy, terrain, x, y),
        ensures
            self.spec_find_nearest(fx, fy, terrain) == Some((x as usize, y as usize)),
            forall|x2: int, y2: int|
                self.is_nearest(fx, fy, terrain, x2, y2) ==> x2 == x && y2 == y,
    {
        let p = choose|p: (int, int)| self.is_nearest(fx, fy, terrain, p.0, p.1);
        assert(self.is_nearest(fx, fy, terrain, (x, y).0, (x, y).1));
    }
}

impl World {
    /// Finds the nearest water tile and returns its walkable orthogonal
    /// neighbour closest to `(from_x, from_y)`; among equally close
    /// neighbours, the one tried first.
    pub fn find_water_adjacent(&self, from_x: usize, from_y: usize) -> (r: Option<(usize, usize)>)
        requires
            self.wf(),
            in_bounds(from_x as int, from_y as int),
        ensures
            r == self.spec_find_water_adjacent(from_x as int, from_y as int),
            r matches Some((x, y)) ==> self.spec_is_walkable(x as int, y as int),
    {
        let water = self.find_nearest(from_x, from_y, Terrain::Water);
        let (wx, wy) = match water {
            None => {
                return None;
            },
            Some(w) => w,
        };
        let ghost fx = from_x as int;
        let ghost fy = from_y as int;
        // (neighbour's x, its y, its distance, its index)
        let mut best: Option<(usize, usize, usize, usize)> = None;
        let mut k: usize = 0;
        while k < 4
            invariant
                self.wf(),
                in_bounds(fx, fy),
                fx == from_x,
                fy == from_y,
                in_bounds(wx as int, wy as int),
                k <= 4,
                match best {
                    None => forall|j: int|
                        0 <= j < k ==> !self.spec_is_walkable(
                            (#[trigger] side(wx as int, wy as int, j)).0,
                            side(wx as int, wy as int, j).1,
                        ),
                    Some((bx, by, d, b)) => {
                        &&& b < k
                        &&& (bx as int, by as int) == side(wx as int, wy as int, b as int)
                        &&& self.spec_is_walkable(bx as int, by as int)
                        &&& d == manhattan(fx, fy, bx as int, by as int)
                        &&& forall|j: int|
                            0 <= j < k && self.spec_is_walkable(
                                (#[trigger] side(wx as int, wy as int, j)).0,
                                side(wx as int, wy as int, j).1,
                            ) ==> {
                                let (jx, jy) = side(wx as int, wy as int, j);
                                d < manhattan(fx, fy, jx, jy) || (d == manhattan(fx, fy, jx, jy)
                                    && b <= j)
                            }
                    },
                },
            decreases 4 - k,
        {
            let (dx, dy) = orthogonal_offset(k);
            let (nx, ny) = shift(wx, wy, dx, dy);
            if self.is_walkable(nx, ny) {
                let dist = distance(from_x, from_y, nx, ny);
                let better = match best {
                    None => true,
                    Some(b) => dist < b.2,
                };
                if better {
                    best = Some((nx, ny, dist, k));
                }
            }
            k += 1;
        }
        match best {
            Some(b) => {
                proof {
                    self.lemma_best_side_unique(fx, fy, wx as int, wy as int, b.3 as int);
                }
                Some((b.0, b.1))
            },
            None => None,
        }
    }

    /// At most one neighbour of a water tile is the best side.
    pub proof fn lemma_best_side_unique(&self, fx: int, fy: int, wx: int, wy: int, k: int)
        requires
            self.is_best_side(fx, fy, wx, wy, k),
        ensures
            forall|j: int| self.is_best_side(fx, fy, wx, wy, j) ==> j == k,
    {
        assert forall|j: int| self.is_best_side(fx, fy, wx, wy, j) implies j == k by {
            let a = side(wx, wy, j);
            let b = side(wx, wy, k);
        }
    }

    pub fn meat_rack_pos(&self) -> (r: Option<(usize, usize)>)
        requires
            self.wf(),
        ensures
            r == self.spec_meat_rack_pos(),
            r matches Some((x, y)) ==> in_bounds(x as int, y as int) && self.tile(
                x as int,
                y as int,
            ) == Terrain::MeatRack,
    {
        let (cx, cy) = self.campfire_pos;
        let x = cx + 2;
        let y = cy + 2;
        if x < MAP_WIDTH && y < MAP_HEIGHT && self.tiles[y][x] == Terrain::MeatRack {
            Some((x, y))
        } else {
            None
        }
    }

    /// A bush foraged at tick `t` is still bare one tick before its timer
    /// runs out and bears berries again once `t + REGROWTH_DELAY` has come,
    /// provided no older timer for the same tile was pending.
    pub proof fn lemma_bush_round_trip(
        before: World,
        bare: World,
        early: World,
        grown: World,
        x: int,
        y: int,
        t: u64,
    )
        requires
            before.wf(),
            in_bounds(x, y),
            t + REGROWTH_DELAY <= u64::MAX,
            before.tile(x, y) == Terrain::Bush,
            !before.regrowth_due(x, y, (t + REGROWTH_DELAY - 1) as u64),
            bare.depleted(&before, x, y, t),
            early.regrown(&bare, (t + REGROWTH_DELAY - 1) as u64),
            grown.regrown(&bare, (t + REGROWTH_DELAY) as u64),
        ensures
            bare.tile(x, y) == Terrain::DepletedBush,
            early.tile(x, y) == Terrain::DepletedBush,
            grown.tile(x, y) == Terrain::Bush,
    {
        let timers = bare.regrowth_timers@;
        let last = before.regrowth_timers@.len() as int;
        assert(timers[last] == (x as usize, y as usize, (t + REGROWTH_DELAY) as u64));
        assert(bare.regrowth_due(x, y, (t + REGROWTH_DELAY) as u64));
        if bare.regrowth_due(x, y, (t + REGROWTH_DELAY - 1) as u64) {
            let i = choose|i: int|
                0 <= i < bare.regrowth_timers.len() && (#[trigger] bare.regrowth_timers[i]).0 == x
                    && bare.regrowth_timers[i].1 == y && (t + REGROWTH_DELAY - 1) as u64
                    >= bare.regrowth_timers[i].2;
            assert(i < last);
            assert(before.regrowth_timers[i] == bare.regrowth_timers[i]);
        }
    }

    /// A tile that was overwritten while its timer ran is left as it is when
    /// the timer comes due, and the timer is dropped all the same.
    pub proof fn lemma_regrowth_spares_overwritten(before: World, after: World, x: int, y: int, tick: u64)
        requires
            in_bounds(x, y),
            before.tile(x, y) != Terrain::DepletedBush,
            after.regrown(&before, tick),
        ensures
            after.tile(x, y) == before.tile(x, y),
            !after.regrowth_due(x, y, tick),
    {
        if after.regrowth_due(x, y, tick) {
            let i = choose|i: int|
                0 <= i < after.regrowth_timers.len() && (#[trigger] after.regrowth_timers[i]).0 == x
                    && after.regrowth_timers[i].1 == y && tick >= after.regrowth_timers[i].2;
            before.regrowth_timers@.lemma_filter_pred(not_due(tick), i);
        }
    }
}

/// A grid of the map's dimensions with grass on every tile.
fn grassland() -> (tiles: Vec<Vec<Terrain>>)
    ensures
        tiles.len() == MAP_HEIGHT,
        forall|y: int| 0 <= y < MAP_HEIGHT ==> (#[trigger] tiles[y]).len() == MAP_WIDTH,
        forall|x: int, y: int| in_bounds(x, y) ==> tiles[y][x] == Terrain::Grass,
{
    let mut tiles: Vec<Vec<Terrain>> = Vec::new();
    let mut y: usize = 0;
    while y < MAP_HEIGHT
        invariant
            y <= MAP_HEIGHT,
            tiles.len() == y,
            forall|j: int| 0 <= j < y ==> (#[trigger] tiles[j]).len() == MAP_WIDTH,
            forall|i: int, j: int| 0 <= i < MAP_WIDTH && 0 <= j < y ==> tiles[j][i] == Terrain::Grass,
        decreases MAP_HEIGHT - y,
    {
        let mut row: Vec<Terrain> = Vec::new();
        let mut x: usize = 0;
        while x < MAP_WIDTH
            invariant
                x <= MAP_WIDTH,
                row.len() == x,
                forall|i: int| 0 <= i < x ==> row[i] == Terrain::Grass,
            decreases MAP_WIDTH - x,
        {
            row.push(Terrain::Grass);
            x += 1;
        }
        tiles.push(row);
        y += 1;
    }
    tiles
}

impl World {
    /// What every generated map has in common, whatever was drawn: one
    /// campfire, one meat rack two tiles right of and below it, no dropped
    /// food or bare bushes, and neither tree nor rock within three tiles of
    /// the campfire.
    pub open spec fn settled(&self) -> bool {
        let cx = self.campfire_pos.0 as int;
        let cy = self.campfire_pos.1 as int;
        forall|x: int, y: int|
            in_bounds(x, y) ==> {
                let t = #[trigger] self.tile(x, y);
                &&& t != Terrain::Food
                &&& t != Terrain::DepletedBush
                &&& (t == Terrain::Campfire <==> (x == cx && y == cy))
                &&& (t == Terrain::MeatRack <==> (x == cx + 2 && y == cy + 2))
                &&& (abs_diff(x, cx) <= 3 && abs_diff(y, cy) <= 3 ==> t != Terrain::Tree && t
                    != Terrain::Rock)
            }
    }

    /// The pond that every generated map has near its campfire: four tiles
    /// wide and three tall, its corner six tiles left of and eight above the
    /// fire.
    pub open spec fn in_home_pond(&self, x: int, y: int) -> bool {
        let px = self.campfire_pos.0 - 6;
        let py = self.campfire_pos.1 - 8;
        px <= x < px + 4 && py <= y < py + 3
    }

    /// What `fill_pond` does to the tiles: the rectangle turns to water but
    /// for a campfire or meat rack inside it.
    pub open spec fn flooded(&self, before: &World, wx: int, wy: int, pw: int, ph: int) -> bool {
        forall|x: int, y: int|
            in_bounds(x, y) ==> #[trigger] self.tile(x, y) == if wx <= x < wx + pw && wy <= y < wy
                + ph && before.tile(x, y) != Terrain::Campfire && before.tile(x, y)
                != Terrain::MeatRack {
                Terrain::Water
            } else {
                before.tile(x, y)
            }
    }

    /// Turns the rectangle with corner `(wx, wy)`, width `pw` and height `ph`
    /// into water, as far as it lies on the map; a campfire or meat rack in
    /// it stays.
    pub fn fill_pond(&mut self, wx: usize, wy: usize, pw: usize, ph: usize)
        requires
            old(self).wf(),
            wx + pw <= usize::MAX,
            wy + ph <= usize::MAX,
        ensures
            final(self).wf(),
            final(self).same_ledger(old(self)),
            final(self).flooded(old(self), wx as int, wy as int, pw as int, ph as int),
    {
        let ghost before = *self;
        let mut dy: usize = 0;
        while dy < ph
            invariant
                before.wf(),
                self.wf(),
                self.same_ledger(&before),
                wx + pw <= usize::MAX,
                wy + ph <= usize::MAX,
                dy <= ph,
                self.flooded(&before, wx as int, wy as int, pw as int, dy as int),
            decreases ph - dy,
        {
            let mut dx: usize = 0;
            while dx < pw
                invariant
                    before.wf(),
                    self.wf(),
                    self.same_ledger(&before),
                    wx + pw <= usize::MAX,
                    wy + ph <= usize::MAX,
                    dy < ph,
                    dx <= pw,
                    forall|x: int, y: int|
                        in_bounds(x, y) ==> #[trigger] self.tile(x, y) == if ((wx <= x < wx + pw
                            && wy <= y < wy + dy) || (wx <= x < wx + dx && y == wy + dy))
                            && before.tile(x, y) != Terrain::Campfire && before.tile(x, y)
                            != Terrain::MeatRack {
                            Terrain::Water
                        } else {
                            before.tile(x, y)
                        },
                decreases pw - dx,
            {
                let y = wy + dy;
                let x = wx + dx;
                if y < MAP_HEIGHT && x < MAP_WIDTH && self.tiles[y][x] != Terrain::Campfire
                    && self.tiles[y][x] != Terrain::MeatRack {
                    self.tiles[y][x] = Terrain::Water;
                }
                dx += 1;
            }
            dy += 1;
        }
    }

    /// Whether one of the four orthogonal neighbours of an inner tile is a tree.
    fn near_tree(&self, x: usize, y: usize) -> (r: bool)
        requires
            self.wf(),
            0 < x < MAP_WIDTH - 1,
            0 < y < MAP_HEIGHT - 1,
        ensures
            r == (self.tile(x as int, y + 1) == Terrain::Tree || self.tile(x as int, y - 1)
                == Terrain::Tree || self.tile(x + 1, y as int) == Terrain::Tree || self.tile(
                x - 1,
                y as int,
            ) == Terrain::Tree),
    {
        self.tiles[y + 1][x] == Terrain::Tree || self.tiles[y - 1][x] == Terrain::Tree
            || self.tiles[y][x + 1] == Terrain::Tree || self.tiles[y][x - 1] == Terrain::Tree
    }

    /// Lays out a new map: campfire at the centre, meat rack beside it,
    /// trees and rocks scattered outside the clearing round the fire, berry
    /// bushes next to trees, ponds at random, and one pond close to home.
    pub fn generate(rng: &mut StdRng) -> (w: World)
        ensures
            w.wf(),
            w.campfire_pos == (MAP_WIDTH / 2, MAP_HEIGHT / 2),
            w.food_stockpile == INITIAL_STOCKPILE,
            w.regrowth_timers@ == Seq::<(usize, usize, u64)>::empty(),
            w.settled(),
            w.spec_meat_rack_pos() == Some(((MAP_WIDTH / 2 + 2) as usize, (MAP_HEIGHT / 2 + 2) as usize)),
            forall|x: int, y: int| w.in_home_pond(x, y) ==> w.tile(x, y) == Terrain::Water,
    {
        let cx = MAP_WIDTH / 2;
        let cy = MAP_HEIGHT / 2;
        let mut w = World {
            tiles: grassland(),
            campfire_pos: (cx, cy),
            food_stockpile: INITIAL_STOCKPILE,
            regrowth_timers: Vec::new(),
        };
        w.set(cx, cy, Terrain::Campfire);
        w.set(cx + 2, cy + 2, Terrain::MeatRack);
        let ghost start = w;
        assert(w.settled());

        // Trees and rocks, outside the clearing.
        let mut y: usize = 0;
        while y < MAP_HEIGHT
            invariant
                y <= MAP_HEIGHT,
                w.wf(),
                w.settled(),
                w.same_ledger(&start),
                start.campfire_pos == (cx, cy),
            decreases MAP_HEIGHT - y,
        {
            let mut x: usize = 0;
            while x < MAP_WIDTH
                invariant
                    y < MAP_HEIGHT,
                    x <= MAP_WIDTH,
                    w.wf(),
                    w.settled(),
                    w.same_ledger(&start),
                    start.campfire_pos == (cx, cy),
                decreases MAP_WIDTH - x,
            {
                if w.get(x, y) == Terrain::Grass {
                    let dx = distance(x, 0, cx, 0);
                    let dy = distance(0, y, 0, cy);
                    if !(dx <= 3 && dy <= 3) {
                        if roll_ratio(rng, 12, 100) {
                            w.set(x, y, Terrain::Tree);
                        } else if roll_ratio(rng, 3, 100) {
                            w.set(x, y, Terrain::Rock);
                        }
                    }
                }
                x += 1;
            }
            y += 1;
        }

        // Berry bushes on grass next to a tree.
        let mut bushes: Vec<(usize, usize)> = Vec::new();
        let mut y: usize = 1;
        while y < MAP_HEIGHT - 1
            invariant
                1 <= y <= MAP_HEIGHT - 1,
                w.wf(),
                forall|i: int|
                    0 <= i < bushes.len() ==> in_bounds((#[trigger] bushes[i]).0 as int, bushes[i].1 as int)
                        && w.tile(bushes[i].0 as int, bushes[i].1 as int) == Terrain::Grass,
            decreases MAP_HEIGHT - y,
        {
            let mut x: usize = 1;
            while x < MAP_WIDTH - 1
                invariant
                    1 <= y < MAP_HEIGHT - 1,
                    1 <= x <= MAP_WIDTH - 1,
                    w.wf(),
                    forall|i: int|
                        0 <= i < bushes.len() ==> in_bounds(
                            (#[trigger] bushes[i]).0 as int,
                            bushes[i].1 as int,
                        ) && w.tile(bushes[i].0 as int, bushes[i].1 as int) == Terrain::Grass,
                decreases MAP_WIDTH - x,
            {
                if w.get(x, y) == Terrain::Grass {
                    if w.near_tree(x, y) && roll_ratio(rng, 5, 100) {
                        bushes.push((x, y));
                    }
                }
                x += 1;
            }
            y += 1;
        }
        let mut i: usize = 0;
        while i < bushes.len()
            invariant
                i <= bushes.len(),
                w.wf(),
                w.settled(),
                w.same_ledger(&start),
                start.campfire_pos == (cx, cy),
                forall|j: int|
                    0 <= j < bushes.len() ==> in_bounds((#[trigger] bushes[j]).0 as int, bushes[j].1 as int)
                        && (w.tile(bushes[j].0 as int, bushes[j].1 as int) == Terrain::Grass
                        || w.tile(bushes[j].0 as int, bushes[j].1 as int) == Terrain::Bush),
            decreases bushes.len() - i,
        {
            let (x, y) = bushes[i];
            w.set(x, y, Terrain::Bush);
            i += 1;
        }

        // Ponds, anywhere.
        let num_ponds = roll_range(rng, 8, 15);
        let mut n: usize = 0;
        while n < num_ponds
            invariant
                w.wf(),
                w.settled(),
                w.same_ledger(&start),
                start.campfire_pos == (cx, cy),
            decreases num_ponds - n,
        {
            let wx = roll_range(rng, 5, MAP_WIDTH - 10);
            let wy = roll_range(rng, 5, MAP_HEIGHT - 8);
            let pw = roll_range(rng, 3, 8);
            let ph = roll_range(rng, 2, 5);
            w.fill_pond(wx, wy, pw, ph);
            n += 1;
        }

        // One pond near home, so that water is never far.
        w.fill_pond(cx - 6, cy - 8, 4, 3);
        w
    }
}

} // verus!
