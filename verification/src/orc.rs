//! Orcs: their needs, what they are doing, and how they get about.
//!
//! Hunger, thirst, energy and health are kept in tenths of a point, from 0
//! to `NEED_MAX`, so that every rate of the rules is a whole number.

use crate::animal::{hunted_message, signum, Animal, AnimalKind};
use crate::chance::{roll_range, roll_ratio};
use crate::color::Color;
use crate::event::{appended, Entry, EventLog};
use crate::pathfinding::{
    cap_reached, find_path, is_cheapest, is_route, reachable, route_cost, search_result,
    within_cap,
};
use crate::text::{decimal, push_decimal, push_str};
use crate::world::{
    clamp, distance, in_bounds, manhattan, shift, shifted, side, Terrain, World, MAP_HEIGHT,
    MAP_WIDTH, REGROWTH_DELAY,
};
use rand::rngs::StdRng;
use vstd::prelude::*;

verus! {

/// The top of the scale of every need: 100 points, in tenths.
pub const NEED_MAX: u32 = 1000;

pub const HUNGER_BY_DAY: u32 = 5;

pub const HUNGER_BY_NIGHT: u32 = 3;

pub const THIRST_RATE: u32 = 6;

pub const TIRING_BY_DAY: u32 = 4;

pub const TIRING_BY_NIGHT: u32 = 8;

/// Energy gained in a tick of sleep.
pub const SLEEP_GAIN: u32 = 30;

/// Hunger lost in a tick of eating.
pub const MEAL_SIZE: u32 = 150;

/// Thirst lost in a tick of drinking.
pub const DRAUGHT_SIZE: u32 = 200;

#[derive(Clone, Debug)]
pub enum Activity {
    Idle,
    GoingTo { x: usize, y: usize, reason: String },
    Eating,
    Sleeping,
    Drinking,
    Hunting { target_idx: usize },
    CarryingMeat,
}

/// An activity as specifications see it: the reason as its characters.
pub ghost enum ActivityView {
    Idle,
    GoingTo { x: usize, y: usize, reason: Seq<char> },
    Eating,
    Sleeping,
    Drinking,
    Hunting { target_idx: usize },
    CarryingMeat,
}

impl View for Activity {
    type V = ActivityView;

    open spec fn view(&self) -> ActivityView {
        match *self {
            Activity::Idle => ActivityView::Idle,
            Activity::GoingTo { x, y, reason } => ActivityView::GoingTo { x, y, reason: reason@ },
            Activity::Eating => ActivityView::Eating,
            Activity::Sleeping => ActivityView::Sleeping,
            Activity::Drinking => ActivityView::Drinking,
            Activity::Hunting { target_idx } => ActivityView::Hunting { target_idx },
            Activity::CarryingMeat => ActivityView::CarryingMeat,
        }
    }
}

impl PartialEq for Activity {
    /// Two activities are equal if they are of one kind and agree in where
    /// they lead, why, and what they are after.
    fn eq(&self, other: &Activity) -> (r: bool) {
        match (self, other) {
            (Activity::Idle, Activity::Idle) => true,
            (
                Activity::GoingTo { x, y, reason },
                Activity::GoingTo { x: x2, y: y2, reason: reason2 },
            ) => *x == *x2 && *y == *y2 && *reason == *reason2,
            (Activity::Eating, Activity::Eating) => true,
            (Activity::Sleeping, Activity::Sleeping) => true,
            (Activity::Drinking, Activity::Drinking) => true,
            (Activity::Hunting { target_idx }, Activity::Hunting { target_idx: other_idx }) => *target_idx
                == *other_idx,
            (Activity::CarryingMeat, Activity::CarryingMeat) => true,
            _ => false,
        }
    }
}

impl vstd::std_specs::cmp::PartialEqSpecImpl for Activity {
    open spec fn obeys_eq_spec() -> bool {
        true
    }

    open spec fn eq_spec(&self, other: &Activity) -> bool {
        self@ == other@
    }
}

impl ActivityView {
    pub open spec fn label(self) -> Seq<char> {
        match self {
            ActivityView::Idle => "Idling"@,
            ActivityView::GoingTo { reason, .. } => reason,
            ActivityView::Eating => "Eating"@,
            ActivityView::Sleeping => "Sleeping"@,
            ActivityView::Drinking => "Drinking"@,
            ActivityView::Hunting { .. } => "Hunting"@,
            ActivityView::CarryingMeat => "Carrying meat"@,
        }
    }
}

impl Activity {
    /// A few words for what the orc is doing; for an orc on its way, the
    /// reason it set out.
    pub fn label(&self) -> (s: &str)
        ensures
            s@ == self@.label(),
    {
        match self {
            Activity::Idle => "Idling",
            Activity::GoingTo { reason, .. } => reason.as_str(),
            Activity::Eating => "Eating",
            Activity::Sleeping => "Sleeping",
            Activity::Drinking => "Drinking",
            Activity::Hunting { .. } => "Hunting",
            Activity::CarryingMeat => "Carrying meat",
        }
    }
}

pub struct Orc {
    pub name: String,
    pub x: usize,
    pub y: usize,
    pub hunger: u32,
    pub energy: u32,
    pub thirst: u32,
    pub health: u32,
    pub alive: bool,
    pub death_tick: Option<u64>,
    pub activity: Activity,
    /// For how many ticks in a row the orc has found nothing to do.
    pub idle_ticks: u32,
    pub carrying_food: bool,
    /// The planned path, and how many of its waypoints are behind the orc.
    pub path: Vec<(usize, usize)>,
    pub path_step: usize,
}

/// An orc as specifications see it. `pending` holds the waypoints of the
/// planned path that still lie ahead.
pub ghost struct OrcView {
    pub name: Seq<char>,
    pub x: usize,
    pub y: usize,
    pub hunger: u32,
    pub energy: u32,
    pub thirst: u32,
    pub health: u32,
    pub alive: bool,
    pub death_tick: Option<u64>,
    pub activity: ActivityView,
    pub idle_ticks: u32,
    pub carrying_food: bool,
    pub pending: Seq<(usize, usize)>,
}

/// A need moved by `delta` and held within the scale.
pub open spec fn bumped(need: u32, delta: int) -> u32 {
    clamp(need + delta, 0, NEED_MAX as int) as u32
}

/// What a tick does to health, given the other needs after the tick.
pub open spec fn health_delta(hunger: u32, thirst: u32, energy: u32) -> int {
    (if hunger >= 950 {
        -20int
    } else {
        0
    }) + (if thirst >= 950 {
        -30int
    } else {
        0
    }) + (if energy <= 50 {
        -10int
    } else {
        0
    }) + (if hunger < 500 && thirst < 500 && energy > 300 {
        5int
    } else {
        0
    })
}

impl OrcView {
    /// Every need lies on the scale, the orc and all that lies ahead of it
    /// are on the map, and the idle counter is within its bound.
    pub open spec fn wf(self) -> bool {
        &&& in_bounds(self.x as int, self.y as int)
        &&& self.hunger <= NEED_MAX
        &&& self.thirst <= NEED_MAX
        &&& self.energy <= NEED_MAX
        &&& self.health <= NEED_MAX
        &&& self.idle_ticks <= 3
        &&& forall|i: int|
            0 <= i < self.pending.len() ==> in_bounds(
                (#[trigger] self.pending[i]).0 as int,
                self.pending[i].1 as int,
            )
        &&& (self.activity matches ActivityView::GoingTo { x, y, .. } ==> in_bounds(
            x as int,
            y as int,
        ))
    }

    /// The needs after one tick has worn on them: hunger and thirst grow,
    /// energy grows in sleep and sinks otherwise, and health follows from
    /// the three.
    pub open spec fn aged(self, is_night: bool) -> OrcView {
        let hunger = bumped(
            self.hunger,
            if is_night {
                HUNGER_BY_NIGHT as int
            } else {
                HUNGER_BY_DAY as int
            },
        );
        let thirst = bumped(self.thirst, THIRST_RATE as int);
        let energy = if self.activity is Sleeping {
            bumped(self.energy, SLEEP_GAIN as int)
        } else {
            bumped(
                self.energy,
                if is_night {
                    -(TIRING_BY_NIGHT as int)
                } else {
                    -(TIRING_BY_DAY as int)
                },
            )
        };
        let health = bumped(self.health, health_delta(hunger, thirst, energy));
        OrcView { hunger, thirst, energy, health, ..self }
    }

    /// The orc after it took the next waypoint of its path.
    pub open spec fn advanced(self) -> OrcView {
        OrcView { x: self.pending[0].0, y: self.pending[0].1, pending: self.pending.skip(1), ..self }
    }
}

/// The outcome of planning a path from `(sx, sy)` to `(tx, ty)`: a cheapest
/// route, or nothing when the orc is there already, when there is no route,
/// or when the search was cut short by its cap.
pub open spec fn is_plan(
    world: &World,
    sx: int,
    sy: int,
    tx: int,
    ty: int,
    allow_tree: bool,
    plan: Seq<(usize, usize)>,
) -> bool {
    &&& plan == planned_path(world, sx, sy, tx, ty, allow_tree)
    &&& if sx == tx && sy == ty {
        plan.len() == 0
    } else if plan.len() > 0 {
        &&& is_route(world, sx, sy, tx, ty, allow_tree, plan)
        &&& is_cheapest(world, sx, sy, tx, ty, allow_tree, plan)
        &&& within_cap(world, sx, sy, tx, ty, allow_tree, route_cost(sx, sy, plan))
    } else {
        !reachable(world, sx, sy, tx, ty, allow_tree, tx, ty) || cap_reached(
            world,
            sx,
            sy,
            tx,
            ty,
            allow_tree,
        )
    }
}

/// The path that planning gives: what the search finds, and no waypoints
/// where it finds nothing.
pub open spec fn planned_path(world: &World, sx: int, sy: int, tx: int, ty: int, allow_tree: bool) -> Seq<
    (usize, usize),
> {
    match search_result(world, sx, sy, tx, ty, allow_tree) {
        Some(route) => route,
        None => Seq::empty(),
    }
}

/// Trees may be walked into on the way to a tree or a bush.
pub open spec fn forage_goal(world: &World, x: int, y: int) -> bool {
    world.tile(x, y) == Terrain::Tree || world.tile(x, y) == Terrain::Bush
}

impl View for Orc {
    type V = OrcView;

    open spec fn view(&self) -> OrcView {
        OrcView {
            name: self.name@,
            x: self.x,
            y: self.y,
            hunger: self.hunger,
            energy: self.energy,
            thirst: self.thirst,
            health: self.health,
            alive: self.alive,
            death_tick: self.death_tick,
            activity: self.activity@,
            idle_ticks: self.idle_ticks,
            carrying_food: self.carrying_food,
            pending: self.pending(),
        }
    }
}

fn bump(need: u32, delta: i32) -> (r: u32)
    requires
        need <= NEED_MAX,
        -1000 <= delta <= 1000,
    ensures
        r == bumped(need, delta as int),
        r <= NEED_MAX,
{
    let v: i32 = need as i32 + delta;
    if v < 0 {
        0
    } else if v > NEED_MAX as i32 {
        NEED_MAX
    } else {
        v as u32
    }
}

impl Orc {
    /// The waypoints of the planned path that still lie ahead.
    pub open spec fn pending(&self) -> Seq<(usize, usize)> {
        if self.path_step <= self.path@.len() {
            self.path@.skip(self.path_step as int)
        } else {
            Seq::empty()
        }
    }

    pub open spec fn wf(&self) -> bool {
        self@.wf()
    }

    /// Checks that the orc is well formed.
    pub fn is_well_formed(&self) -> (r: bool)
        ensures
            r == self.wf(),
    {
        if self.x >= MAP_WIDTH || self.y >= MAP_HEIGHT || self.hunger > NEED_MAX || self.thirst
            > NEED_MAX || self.energy > NEED_MAX || self.health > NEED_MAX || self.idle_ticks > 3 {
            return false;
        }
        match &self.activity {
            Activity::GoingTo { x, y, .. } => {
                if *x >= MAP_WIDTH || *y >= MAP_HEIGHT {
                    return false;
                }
            },
            _ => {},
        }
        let mut i: usize = self.path_step;
        while i < self.path.len()
            invariant
                self.path_step <= i,
                forall|j: int|
                    self.path_step <= j < i && j < self.path@.len() ==> in_bounds(
                        (#[trigger] self.path@[j]).0 as int,
                        self.path@[j].1 as int,
                    ),
            decreases self.path@.len() - i,
        {
            if self.path[i].0 >= MAP_WIDTH || self.path[i].1 >= MAP_HEIGHT {
                proof {
                    let k = i - self.path_step;
                    assert(self@.pending[k] == self.path@[i as int]);
                    assert(!in_bounds(self@.pending[k].0 as int, self@.pending[k].1 as int));
                }
                return false;
            }
            i += 1;
        }
        assert forall|j: int| 0 <= j < self.pending().len() implies in_bounds(
            (#[trigger] self.pending()[j]).0 as int,
            self.pending()[j].1 as int,
        ) by {
            assert(self.pending()[j] == self.path@[j + self.path_step]);
        }
        true
    }

    /// A newborn orc: fed, rested, in full health, with nothing to do.
    pub fn new(name: String, x: usize, y: usize) -> (orc: Orc)
        ensures
            orc@ == newborn(name@, x, y),
    {
        let orc = Orc {
            name,
            x,
            y,
            hunger: 200,
            energy: 800,
            thirst: 100,
            health: NEED_MAX,
            alive: true,
            death_tick: None,
            activity: Activity::Idle,
            idle_ticks: 0,
            carrying_food: false,
            path: Vec::new(),
            path_step: 0,
        };
        assert(orc.pending() =~= Seq::empty());
        orc
    }

    /// Wears on the needs for one tick.
    fn age(&mut self, is_night: bool)
        requires
            old(self).wf(),
        ensures
            final(self)@ == old(self)@.aged(is_night),
            final(self).wf(),
    {
        let hunger_rate: i32 = if is_night {
            HUNGER_BY_NIGHT as i32
        } else {
            HUNGER_BY_DAY as i32
        };
        let tiring: i32 = if is_night {
            TIRING_BY_NIGHT as i32
        } else {
            TIRING_BY_DAY as i32
        };
        self.hunger = bump(self.hunger, hunger_rate);
        self.thirst = bump(self.thirst, THIRST_RATE as i32);
        match &self.activity {
            Activity::Sleeping => {
                self.energy = bump(self.energy, SLEEP_GAIN as i32);
            },
            _ => {
                self.energy = bump(self.energy, -tiring);
            },
        }
        let mut delta: i32 = 0;
        if self.hunger >= 950 {
            delta -= 20;
        }
        if self.thirst >= 950 {
            delta -= 30;
        }
        if self.energy <= 50 {
            delta -= 10;
        }
        if self.hunger < 500 && self.thirst < 500 && self.energy > 300 {
            delta += 5;
        }
        self.health = bump(self.health, delta);
    }

    /// Plans a path to `(tx, ty)` and keeps it; keeps none where none was
    /// found.
    fn plan_path(&mut self, tx: usize, ty: usize, world: &World, allow_tree: bool)
        requires
            world.wf(),
            old(self).wf(),
            in_bounds(tx as int, ty as int),
        ensures
            final(self)@ == (OrcView { pending: final(self)@.pending, ..old(self)@ }),
            is_plan(
                world,
                old(self).x as int,
                old(self).y as int,
                tx as int,
                ty as int,
                allow_tree,
                final(self)@.pending,
            ),
            final(self).wf(),
    {
        match find_path(world, self.x, self.y, tx, ty, allow_tree) {
            Some(p) => {
                self.path = p;
                self.path_step = 0;
                assert(self.pending() =~= self.path@);
                assert forall|i: int| 0 <= i < self.path@.len() implies in_bounds(
                    (#[trigger] self.path@[i]).0 as int,
                    self.path@[i].1 as int,
                ) by {}
            },
            None => {
                self.path.clear();
                self.path_step = 0;
                assert(self.pending() =~= Seq::empty());
            },
        }
    }

    /// Takes the next waypoint of the path, if one is left.
    fn follow_path(&mut self) -> (moved: bool)
        requires
            old(self).wf(),
        ensures
            moved == (old(self)@.pending.len() > 0),
            final(self)@ == if moved {
                old(self)@.advanced()
            } else {
                old(self)@
            },
            final(self).wf(),
    {
        if self.path_step < self.path.len() {
            let (nx, ny) = self.path[self.path_step];
            assert(old(self).pending()[0] == (nx, ny));
            self.x = nx;
            self.y = ny;
            self.path_step += 1;
            assert(self.pending() =~= old(self).pending().skip(1));
            assert forall|i: int| 0 <= i < self.pending().len() implies in_bounds(
                (#[trigger] self.pending()[i]).0 as int,
                self.pending()[i].1 as int,
            ) by {
                assert(self.pending()[i] == old(self).pending()[i + 1]);
            }
            true
        } else {
            assert(self.pending() =~= Seq::empty());
            false
        }
    }

    /// Sets out for `(x, y)`, for the given reason, along a newly planned path.
    fn go_to(&mut self, x: usize, y: usize, reason: String, world: &World)
        requires
            world.wf(),
            old(self).wf(),
            in_bounds(x as int, y as int),
        ensures
            final(self)@ == (OrcView {
                activity: ActivityView::GoingTo { x, y, reason: reason@ },
                pending: final(self)@.pending,
                ..old(self)@
            }),
            is_plan(
                world,
                old(self).x as int,
                old(self).y as int,
                x as int,
                y as int,
                forage_goal(world, x as int, y as int),
                final(self)@.pending,
            ),
            final(self).wf(),
    {
        let terrain = world.get(x, y);
        let allow_tree = terrain == Terrain::Tree || terrain == Terrain::Bush;
        self.plan_path(x, y, world, allow_tree);
        self.activity = Activity::GoingTo { x, y, reason };
    }
}

/// An orc in a hurry may step onto a tree as well as onto walkable ground.
pub open spec fn can_step_on(world: &World, x: int, y: int) -> bool {
    in_bounds(x, y) && (world.tile(x, y).spec_walkable() || world.tile(x, y) == Terrain::Tree)
}

/// The `k`-th of the three steps that a greedy move tries: the diagonal
/// step first and then each axis, or each axis first and then the diagonal.
pub open spec fn greedy_candidate(dx: int, dy: int, diag_first: bool, k: int) -> (int, int) {
    if diag_first {
        if k == 0 {
            (dx, dy)
        } else if k == 1 {
            (dx, 0)
        } else {
            (0, dy)
        }
    } else {
        if k == 0 {
            (dx, 0)
        } else if k == 1 {
            (0, dy)
        } else {
            (dx, dy)
        }
    }
}

/// A candidate step counts if it moves at all and ends on a tile that can
/// be stepped on.
pub open spec fn candidate_ok(world: &World, x: int, y: int, c: (int, int)) -> bool {
    !(c.0 == 0 && c.1 == 0) && can_step_on(world, shifted(x, y, c.0, c.1).0, shifted(x, y, c.0, c.1).1)
}

/// Where a greedy move from `(x, y)` towards `(tx, ty)` ends: after the
/// first candidate step that counts, or where it began.
pub open spec fn greedy_step(world: &World, x: int, y: int, tx: int, ty: int, diag_first: bool) -> (
    int,
    int,
) {
    let dx = signum(tx - x);
    let dy = signum(ty - y);
    let c0 = greedy_candidate(dx, dy, diag_first, 0);
    let c1 = greedy_candidate(dx, dy, diag_first, 1);
    let c2 = greedy_candidate(dx, dy, diag_first, 2);
    if candidate_ok(world, x, y, c0) {
        shifted(x, y, c0.0, c0.1)
    } else if candidate_ok(world, x, y, c1) {
        shifted(x, y, c1.0, c1.1)
    } else if candidate_ok(world, x, y, c2) {
        shifted(x, y, c2.0, c2.1)
    } else {
        (x, y)
    }
}

impl OrcView {
    /// The orc after a greedy step towards `(tx, ty)`.
    pub open spec fn lurched(self, world: &World, tx: usize, ty: usize, diag_first: bool) -> OrcView {
        let to = greedy_step(world, self.x as int, self.y as int, tx as int, ty as int, diag_first);
        OrcView { x: to.0 as usize, y: to.1 as usize, ..self }
    }

    /// `self` is this orc after it moved on towards `(tx, ty)`: by the next
    /// waypoint of its path if one is left, by a greedy step otherwise.
    pub open spec fn moved_on(self, before: OrcView, world: &World, tx: usize, ty: usize) -> bool {
        if before.pending.len() > 0 {
            self == before.advanced()
        } else {
            self == before.lurched(world, tx, ty, true) || self == before.lurched(
                world,
                tx,
                ty,
                false,
            )
        }
    }
}

/// A place to rest near `(cx, cy)`: a walkable tile at most two away along
/// each axis, or `(cx, cy)` itself.
pub open spec fn is_spot_near(world: &World, cx: int, cy: int, x: int, y: int) -> bool {
    ||| (x == cx && y == cy)
    ||| (world.spec_is_walkable(x, y) && exists|dx: int, dy: int|
        -2 <= dx <= 2 && -2 <= dy <= 2 && #[trigger] shifted(cx, cy, dx, dy) == (x, y))
}

/// One of the four orthogonal neighbours, held back at the map's edges, is
/// water.
pub open spec fn beside_water(world: &World, x: int, y: int) -> bool {
    ||| world.tile(side(x, y, 0).0, side(x, y, 0).1) == Terrain::Water
    ||| world.tile(side(x, y, 1).0, side(x, y, 1).1) == Terrain::Water
    ||| world.tile(side(x, y, 2).0, side(x, y, 2).1) == Terrain::Water
    ||| world.tile(side(x, y, 3).0, side(x, y, 3).1) == Terrain::Water
}

fn sign_toward(from: usize, to: usize) -> (s: i32)
    ensures
        s == signum(to - from),
{
    if to > from {
        1
    } else if to < from {
        -1
    } else {
        0
    }
}

fn greedy_offsets(dx: i32, dy: i32, diag_first: bool, k: usize) -> (c: (i32, i32))
    requires
        k < 3,
    ensures
        (c.0 as int, c.1 as int) == greedy_candidate(dx as int, dy as int, diag_first, k as int),
{
    if diag_first {
        if k == 0 {
            (dx, dy)
        } else if k == 1 {
            (dx, 0)
        } else {
            (0, dy)
        }
    } else {
        if k == 0 {
            (dx, 0)
        } else if k == 1 {
            (0, dy)
        } else {
            (dx, dy)
        }
    }
}

/// Draws up to twenty tiles within two of `(cx, cy)` and returns the first
/// that can be walked on; `(cx, cy)` itself if none can.
pub fn spot_near(world: &World, cx: usize, cy: usize, rng: &mut StdRng) -> (r: (usize, usize))
    requires
        world.wf(),
        in_bounds(cx as int, cy as int),
    ensures
        in_bounds(r.0 as int, r.1 as int),
        is_spot_near(world, cx as int, cy as int, r.0 as int, r.1 as int),
{
    let mut n: usize = 0;
    while n < 20
        invariant
            world.wf(),
            in_bounds(cx as int, cy as int),
        decreases 20 - n,
    {
        let dx: i32 = roll_range(rng, 0, 5) as i32 - 2;
        let dy: i32 = roll_range(rng, 0, 5) as i32 - 2;
        let (x, y) = shift(cx, cy, dx, dy);
        if world.is_walkable(x, y) {
            return (x, y);
        }
        n += 1;
    }
    (cx, cy)
}

impl Orc {
    /// One step straight towards `(tx, ty)` without a plan: of the diagonal
    /// step and the step along each axis, tried in the order that
    /// `diag_first` picks, the first that ends on walkable ground or a tree.
    pub fn step_greedy(&mut self, tx: usize, ty: usize, world: &World, diag_first: bool)
        requires
            world.wf(),
            old(self).wf(),
        ensures
            final(self)@ == old(self)@.lurched(world, tx, ty, diag_first),
            final(self).wf(),
    {
        let dx = sign_toward(self.x, tx);
        let dy = sign_toward(self.y, ty);
        let mut k: usize = 0;
        while k < 3
            invariant
                world.wf(),
                self.wf(),
                *self == *old(self),
                dx == signum(tx - self.x),
                dy == signum(ty - self.y),
                k <= 3,
                forall|j: int|
                    0 <= j < k ==> !candidate_ok(
                        world,
                        self.x as int,
                        self.y as int,
                        #[trigger] greedy_candidate(dx as int, dy as int, diag_first, j),
                    ),
            decreases 3 - k,
        {
            let (cdx, cdy) = greedy_offsets(dx, dy, diag_first, k);
            if !(cdx == 0 && cdy == 0) {
                let (nx, ny) = shift(self.x, self.y, cdx, cdy);
                if world.is_walkable(nx, ny) || world.get(nx, ny) == Terrain::Tree {
                    self.x = nx;
                    self.y = ny;
                    return ;
                }
            }
            k += 1;
        }
    }

    /// A greedy step towards `(tx, ty)`, the diagonal tried first seven
    /// times in ten.
    fn move_toward_greedy(&mut self, tx: usize, ty: usize, world: &World, rng: &mut StdRng)
        requires
            world.wf(),
            old(self).wf(),
        ensures
            final(self)@ == old(self)@.lurched(world, tx, ty, true) || final(self)@ == old(
                self,
            )@.lurched(world, tx, ty, false),
            final(self).wf(),
    {
        let diag_first = roll_ratio(rng, 7, 10);
        self.step_greedy(tx, ty, world, diag_first);
    }

    fn find_spot_near(&self, cx: usize, cy: usize, world: &World, rng: &mut StdRng) -> (r: (usize, usize))
        requires
            world.wf(),
            in_bounds(cx as int, cy as int),
        ensures
            in_bounds(r.0 as int, r.1 as int),
            is_spot_near(world, cx as int, cy as int, r.0 as int, r.1 as int),
    {
        spot_near(world, cx, cy, rng)
    }

    fn is_adjacent_to_water(&self, world: &World) -> (r: bool)
        requires
            world.wf(),
            self.wf(),
        ensures
            r == beside_water(world, self.x as int, self.y as int),
    {
        let (ax, ay) = shift(self.x, self.y, 0, 1);
        let (bx, by) = shift(self.x, self.y, 0, -1);
        let (cx, cy) = shift(self.x, self.y, 1, 0);
        let (dx, dy) = shift(self.x, self.y, -1, 0);
        world.get(ax, ay) == Terrain::Water || world.get(bx, by) == Terrain::Water || world.get(
            cx,
            cy,
        ) == Terrain::Water || world.get(dx, dy) == Terrain::Water
    }
}

/// What an orc finds where it arrives, in the order in which it looks.
pub ghost enum Arrival {
    Berries,
    DroppedFood,
    Tree,
    Stockpile,
    Water,
    Home,
}

/// What an orc standing at `(x, y)` makes of the place: a bush, dropped
/// food, a tree, a stocked meat rack, water beside it, or none of these.
pub open spec fn arrival(world: &World, x: int, y: int) -> Arrival {
    let terrain = world.tile(x, y);
    if terrain == Terrain::Bush {
        Arrival::Berries
    } else if terrain == Terrain::Food {
        Arrival::DroppedFood
    } else if terrain == Terrain::Tree {
        Arrival::Tree
    } else if terrain == Terrain::MeatRack && world.food_stockpile > 0 {
        Arrival::Stockpile
    } else if beside_water(world, x, y) {
        Arrival::Water
    } else {
        Arrival::Home
    }
}

impl Arrival {
    /// What the orc turns to on arriving.
    pub open spec fn activity(self) -> ActivityView {
        match self {
            Arrival::Water => ActivityView::Drinking,
            Arrival::Home => ActivityView::Sleeping,
            _ => ActivityView::Eating,
        }
    }

    /// The log line, after the orc's name. `stock` is what the stockpile
    /// holds once the orc has helped itself.
    pub open spec fn message(self, stock: u32) -> Seq<char> {
        match self {
            Arrival::Berries => " found berries and starts eating"@,
            Arrival::DroppedFood => " found food and starts eating"@,
            Arrival::Tree => " forages from a tree"@,
            Arrival::Stockpile => " takes food from stockpile (left: "@ + decimal(
                stock as nat,
            ) + ")"@,
            Arrival::Water => " drinks water"@,
            Arrival::Home => " lies down to sleep by the fire"@,
        }
    }

    pub open spec fn color(self) -> Color {
        match self {
            Arrival::Berries | Arrival::DroppedFood | Arrival::Tree => Color::Green,
            Arrival::Stockpile => Color::Rgb(180, 120, 60),
            Arrival::Water => Color::Rgb(65, 105, 225),
            Arrival::Home => Color::Blue,
        }
    }

    /// What arriving does to the world: berries are picked, dropped food is
    /// eaten up, the stockpile gives one unit; all else stays.
    pub open spec fn world_after(self, after: &World, before: &World, x: int, y: int, tick: u64) -> bool {
        match self {
            Arrival::Berries => after.depleted(before, x, y, tick),
            Arrival::DroppedFood => after.tile(x, y) == Terrain::Grass && after.same_tiles_but(
                before,
                x,
                y,
            ) && after.same_ledger(before),
            Arrival::Stockpile => after.same_tiles(before) && after.campfire_pos
                == before.campfire_pos && after.regrowth_timers@ == before.regrowth_timers@
                && after.food_stockpile == before.food_stockpile - 1,
            _ => after.same_as(before),
        }
    }
}

/// The nearer of two places as seen from `(x, y)`; the first where they
/// are equally near or the second is missing.
pub open spec fn nearer(x: int, y: int, a: Option<(usize, usize)>, b: Option<(usize, usize)>) -> Option<
    (usize, usize),
> {
    match (a, b) {
        (None, _) => b,
        (Some(_), None) => a,
        (Some(p), Some(q)) => if manhattan(x, y, q.0 as int, q.1 as int) < manhattan(
            x,
            y,
            p.0 as int,
            p.1 as int,
        ) {
            b
        } else {
            a
        },
    }
}

/// The nearest of the nearest bush, dropped food and tree, if the map has any.
pub open spec fn nearest_forage(world: &World, x: int, y: int) -> Option<(usize, usize)> {
    nearer(
        x,
        y,
        nearer(
            x,
            y,
            world.spec_find_nearest(x, y, Terrain::Bush),
            world.spec_find_nearest(x, y, Terrain::Food),
        ),
        world.spec_find_nearest(x, y, Terrain::Tree),
    )
}

/// `animals[i]` is alive, no living animal is nearer to `(x, y)`, and of
/// those just as near it comes first.
pub open spec fn is_prey(x: int, y: int, animals: Seq<Animal>, i: int) -> bool {
    &&& 0 <= i < animals.len()
    &&& animals[i].alive
    &&& forall|j: int|
        0 <= j < animals.len() && (#[trigger] animals[j]).alive ==> {
            ||| manhattan(x, y, animals[i].x as int, animals[i].y as int) < manhattan(
                x,
                y,
                animals[j].x as int,
                animals[j].y as int,
            )
            ||| (manhattan(x, y, animals[i].x as int, animals[i].y as int) == manhattan(
                x,
                y,
                animals[j].x as int,
                animals[j].y as int,
            ) && i <= j)
        }
}

/// An animal nearer than this is hunted even when other food is about.
pub const HUNTING_RANGE: usize = 15;

/// Where a hungry orc at `(x, y)` turns for food: to the stockpile if it
/// holds anything and the meat rack stands; else to the nearest living
/// animal if it is within hunting range or nothing else can be eaten; else
/// to the nearest bush, dropped food or tree.
pub open spec fn food_target(world: &World, x: int, y: int, animals: Seq<Animal>) -> Option<ActivityView> {
    if world.food_stockpile > 0 && world.spec_meat_rack_pos() is Some {
        let rack = world.spec_meat_rack_pos()->0;
        Some(ActivityView::GoingTo { x: rack.0, y: rack.1, reason: "Going to stockpile"@ })
    } else {
        let forage = nearest_forage(world, x, y);
        if exists|i: int| is_prey(x, y, animals, i) {
            let i = choose|i: int| is_prey(x, y, animals, i);
            if forage is None || manhattan(x, y, animals[i].x as int, animals[i].y as int)
                < HUNTING_RANGE {
                Some(ActivityView::Hunting { target_idx: i as usize })
            } else {
                let p = forage->0;
                Some(ActivityView::GoingTo { x: p.0, y: p.1, reason: "Looking for food"@ })
            }
        } else {
            match forage {
                Some(p) => Some(ActivityView::GoingTo { x: p.0, y: p.1, reason: "Looking for food"@ }),
                None => None,
            }
        }
    }
}

/// At most one animal is the prey.
pub proof fn lemma_prey_unique(x: int, y: int, animals: Seq<Animal>, i: int)
    requires
        is_prey(x, y, animals, i),
    ensures
        forall|j: int| is_prey(x, y, animals, j) ==> j == i,
        (choose|j: int| is_prey(x, y, animals, j)) == i,
{
    assert forall|j: int| is_prey(x, y, animals, j) implies j == i by {
        let a = animals[i];
        let b = animals[j];
    }
}

/// Every animal stands on the map.
pub open spec fn herd_wf(animals: Seq<Animal>) -> bool {
    forall|i: int| 0 <= i < animals.len() ==> (#[trigger] animals[i]).wf()
}

fn pick_nearer(x: usize, y: usize, a: Option<(usize, usize)>, b: Option<(usize, usize)>) -> (r: Option<
    (usize, usize),
>)
    requires
        in_bounds(x as int, y as int),
        a matches Some(p) ==> in_bounds(p.0 as int, p.1 as int),
        b matches Some(q) ==> in_bounds(q.0 as int, q.1 as int),
    ensures
        r == nearer(x as int, y as int, a, b),
        r matches Some(p) ==> in_bounds(p.0 as int, p.1 as int),
{
    match (a, b) {
        (None, _) => b,
        (Some(_), None) => a,
        (Some(p), Some(q)) => {
            if distance(x, y, q.0, q.1) < distance(x, y, p.0, p.1) {
                b
            } else {
                a
            }
        },
    }
}

fn nearest_prey(x: usize, y: usize, animals: &Vec<Animal>) -> (r: Option<usize>)
    requires
        in_bounds(x as int, y as int),
        herd_wf(animals@),
    ensures
        match r {
            Some(i) => is_prey(x as int, y as int, animals@, i as int),
            None => forall|i: int| !is_prey(x as int, y as int, animals@, i),
        },
{
    let mut best: Option<(usize, usize)> = None;
    let mut i: usize = 0;
    while i < animals.len()
        invariant
            in_bounds(x as int, y as int),
            herd_wf(animals@),
            i <= animals@.len(),
            match best {
                None => forall|j: int| 0 <= j < i ==> !(#[trigger] animals@[j]).alive,
                Some((b, d)) => {
                    &&& b < i
                    &&& animals@[b as int].alive
                    &&& d == manhattan(
                        x as int,
                        y as int,
                        animals@[b as int].x as int,
                        animals@[b as int].y as int,
                    )
                    &&& forall|j: int|
                        0 <= j < i && (#[trigger] animals@[j]).alive ==> d < manhattan(
                            x as int,
                            y as int,
                            animals@[j].x as int,
                            animals@[j].y as int,
                        ) || (d == manhattan(
                            x as int,
                            y as int,
                            animals@[j].x as int,
                            animals@[j].y as int,
                        ) && b <= j)
                },
            },
        decreases animals@.len() - i,
    {
        assert(animals@[i as int].wf());
        if animals[i].alive {
            let d = distance(x, y, animals[i].x, animals[i].y);
            let nearer = match best {
                None => true,
                Some(b) => d < b.1,
            };
            if nearer {
                best = Some((i, d));
            }
        }
        i += 1;
    }
    match best {
        Some(b) => Some(b.0),
        None => None,
    }
}

/// Appends to the log a line that begins with a name.
fn narrate(log: &mut EventLog, tick: u64, name: &String, tail: &str, color: Color)
    ensures
        final(log).max_events == old(log).max_events,
        final(log)@ == old(log).with(tick, name@ + tail@, color),
{
    let mut message = name.clone();
    push_str(&mut message, tail);
    log.log(tick, message, color);
}

impl Orc {
    /// What the orc does where it has arrived: it eats what the place
    /// offers, drinks if water is beside it, and lies down to sleep otherwise.
    fn arrive_at_destination(&mut self, world: &mut World, log: &mut EventLog, tick: u64)
        requires
            old(world).wf(),
            old(self).wf(),
            old(world).tile(old(self).x as int, old(self).y as int) == Terrain::Bush ==> tick
                + REGROWTH_DELAY <= u64::MAX,
        ensures
            final(world).wf(),
            final(self).wf(),
            ({
                let found = arrival(old(world), old(self).x as int, old(self).y as int);
                &&& final(self)@ == (OrcView { activity: found.activity(), ..old(self)@ })
                &&& found.world_after(
                    final(world),
                    old(world),
                    old(self).x as int,
                    old(self).y as int,
                    tick,
                )
                &&& final(log).max_events == old(log).max_events
                &&& final(log)@ == old(log).with(
                    tick,
                    old(self).name@ + found.message(final(world).food_stockpile),
                    found.color(),
                )
            }),
    {
        let terrain = world.get(self.x, self.y);
        if terrain == Terrain::Bush {
            narrate(log, tick, &self.name, " found berries and starts eating", Color::Green);
            world.deplete_bush(self.x, self.y, tick);
            self.activity = Activity::Eating;
        } else if terrain == Terrain::Food {
            narrate(log, tick, &self.name, " found food and starts eating", Color::Green);
            world.set(self.x, self.y, Terrain::Grass);
            self.activity = Activity::Eating;
        } else if terrain == Terrain::Tree {
            narrate(log, tick, &self.name, " forages from a tree", Color::Green);
            self.activity = Activity::Eating;
        } else if terrain == Terrain::MeatRack && world.food_stockpile > 0 {
            world.food_stockpile -= 1;
            let mut message = self.name.clone();
            push_str(&mut message, " takes food from stockpile (left: ");
            push_decimal(&mut message, world.food_stockpile as u64);
            push_str(&mut message, ")");
            assert(message@ =~= self.name@ + Arrival::Stockpile.message(world.food_stockpile));
            log.log(tick, message, Color::Rgb(180, 120, 60));
            self.activity = Activity::Eating;
        } else if self.is_adjacent_to_water(world) {
            narrate(log, tick, &self.name, " drinks water", Color::Rgb(65, 105, 225));
            self.activity = Activity::Drinking;
        } else {
            narrate(log, tick, &self.name, " lies down to sleep by the fire", Color::Blue);
            self.activity = Activity::Sleeping;
        }
    }

    /// Picks where to turn for food; see `food_target`.
    fn find_food_target(&self, world: &World, animals: &Vec<Animal>) -> (r: Option<Activity>)
        requires
            world.wf(),
            self.wf(),
            herd_wf(animals@),
        ensures
            match r {
                Some(activity) => Some(activity@) == food_target(
                    world,
                    self.x as int,
                    self.y as int,
                    animals@,
                ),
                None => food_target(world, self.x as int, self.y as int, animals@) is None,
            },
            r matches Some(Activity::GoingTo { x, y, .. }) ==> in_bounds(x as int, y as int),
            r matches Some(Activity::Hunting { target_idx }) ==> target_idx < animals@.len()
                && animals@[target_idx as int].alive,
            r matches Some(activity) ==> activity is GoingTo || activity is Hunting,
    {
        if world.food_stockpile > 0 {
            match world.meat_rack_pos() {
                Some((mx, my)) => {
                    return Some(
                        Activity::GoingTo { x: mx, y: my, reason: "Going to stockpile".to_owned() },
                    );
                },
                None => {},
            }
        }
        let bush = world.find_nearest(self.x, self.y, Terrain::Bush);
        let food = world.find_nearest(self.x, self.y, Terrain::Food);
        let tree = world.find_nearest(self.x, self.y, Terrain::Tree);
        let best = pick_nearer(self.x, self.y, pick_nearer(self.x, self.y, bush, food), tree);
        match nearest_prey(self.x, self.y, animals) {
            Some(idx) => {
                proof {
                    lemma_prey_unique(self.x as int, self.y as int, animals@, idx as int);
                }
                assert(animals@[idx as int].wf());
                let animal_dist = distance(self.x, self.y, animals[idx].x, animals[idx].y);
                if best.is_none() || animal_dist < HUNTING_RANGE {
                    return Some(Activity::Hunting { target_idx: idx });
                }
            },
            None => {},
        }
        match best {
            Some((x, y)) => Some(Activity::GoingTo { x, y, reason: "Looking for food".to_owned() }),
            None => None,
        }
    }

    /// Takes up an activity; on the way to a place a path is planned, and a
    /// hunt starts without one, since the prey moves.
    fn set_activity_with_path(&mut self, activity: Activity, world: &World)
        requires
            world.wf(),
            old(self).wf(),
            activity matches Activity::GoingTo { x, y, .. } ==> in_bounds(x as int, y as int),
        ensures
            final(self).wf(),
            final(self)@ == (OrcView { activity: activity@, pending: final(self)@.pending, ..old(self)@ }),
            match activity@ {
                ActivityView::GoingTo { x, y, .. } => is_plan(
                    world,
                    old(self).x as int,
                    old(self).y as int,
                    x as int,
                    y as int,
                    forage_goal(world, x as int, y as int),
                    final(self)@.pending,
                ),
                ActivityView::Hunting { .. } => final(self)@.pending.len() == 0,
                _ => final(self)@.pending == old(self)@.pending,
            },
    {
        match &activity {
            Activity::GoingTo { x, y, .. } => {
                let tx = *x;
                let ty = *y;
                let terrain = world.get(tx, ty);
                let allow_tree = terrain == Terrain::Tree || terrain == Terrain::Bush;
                self.plan_path(tx, ty, world, allow_tree);
            },
            Activity::Hunting { .. } => {
                self.path.clear();
                self.path_step = 0;
                assert(self.pending() =~= Seq::empty());
            },
            _ => {},
        }
        assert(self.wf());
        assert(activity@ matches ActivityView::GoingTo { x, y, .. } ==> in_bounds(x as int, y as int));
        self.activity = activity;
    }
}

/// An idle orc wanders off once it has idled for more than this many ticks.
pub const IDLE_LIMIT: u32 = 3;

/// How far a wandering orc goes at most, along each axis.
pub const WANDER_REACH: i32 = 4;

/// Wandering orcs stay within this distance of the campfire, along each axis.
pub const HOME_RANGE: i32 = 30;

/// What an idle orc decides to do.
pub ghost enum Choice {
    /// Go to the tile `(x, y)` beside water and drink.
    Water { x: usize, y: usize, desperate: bool },
    /// Take up `target`, which leads to food.
    Food { target: ActivityView, desperate: bool },
    /// Go to a spot near the campfire and sleep.
    Rest { desperate: bool },
    /// Carry the meat at hand to the rack.
    Carry,
    /// Nothing presses: idle on, and wander off now and then.
    Loiter,
}

/// The decision of an idle orc, by priority: with health below 20 points
/// the worst of thirst, hunger and tiredness is seen to, if it can be;
/// then thirst above 60, hunger above 70, energy below 20, meat at hand;
/// and idling if none of these holds or what is needed cannot be found.
pub open spec fn choice(o: OrcView, world: &World, animals: Seq<Animal>) -> Choice {
    let water = world.spec_find_water_adjacent(o.x as int, o.y as int);
    let food = food_target(world, o.x as int, o.y as int, animals);
    let shore = water->0;
    let critical = o.health < 200;
    let thirst_worst = o.thirst > o.hunger && o.thirst > NEED_MAX - o.energy;
    let hunger_worst = !thirst_worst && o.hunger > NEED_MAX - o.energy;
    if critical && thirst_worst && water is Some {
        Choice::Water { x: shore.0, y: shore.1, desperate: true }
    } else if critical && hunger_worst && food is Some {
        Choice::Food { target: food->0, desperate: true }
    } else if critical && !thirst_worst && !hunger_worst {
        Choice::Rest { desperate: true }
    } else if o.thirst > 600 && water is Some {
        Choice::Water { x: shore.0, y: shore.1, desperate: false }
    } else if o.hunger > 700 && food is Some {
        Choice::Food { target: food->0, desperate: false }
    } else if o.energy < 200 {
        Choice::Rest { desperate: false }
    } else if o.carrying_food {
        Choice::Carry
    } else {
        Choice::Loiter
    }
}

/// With health below 20 points, thirst worse than hunger and tiredness, and
/// a tile beside water to be found, the orc decides for the water, however
/// hungry or tired it is: it says that it desperately needs water, and sets
/// out for that tile, desperate for water.
pub proof fn lemma_water_comes_first(o: OrcView, world: &World, animals: Seq<Animal>, after: OrcView)
    requires
        o.health < 200,
        o.thirst > o.hunger,
        o.thirst > NEED_MAX - o.energy,
        world.spec_find_water_adjacent(o.x as int, o.y as int) is Some,
        choice(o, world, animals).carried_out(after, o, world),
    ensures
        choice(o, world, animals) matches Choice::Water { x, y, desperate } && desperate && Some((x, y))
            == world.spec_find_water_adjacent(o.x as int, o.y as int),
        choice(o, world, animals).message() == Some((" desperately needs water!"@, Color::Red)),
        ({
            let shore = world.spec_find_water_adjacent(o.x as int, o.y as int)->0;
            after.activity == (ActivityView::GoingTo {
                x: shore.0,
                y: shore.1,
                reason: "Desperate for water"@,
            })
        }),
{
}

/// Where a wandering orc at `(x, y)` heads after drawing the offset
/// `(dx, dy)`: kept within home range of the campfire `(cx, cy)` and on the map.
pub open spec fn wander_target(x: int, y: int, cx: int, cy: int, dx: int, dy: int) -> (int, int) {
    (
        clamp(clamp(x + dx, cx - HOME_RANGE, cx + HOME_RANGE), 0, MAP_WIDTH - 1),
        clamp(clamp(y + dy, cy - HOME_RANGE, cy + HOME_RANGE), 0, MAP_HEIGHT - 1),
    )
}

/// Why an orc heads for the campfire.
pub open spec fn rest_reason(desperate: bool) -> Seq<char> {
    if desperate {
        "Desperate for sleep"@
    } else {
        "Going to sleep"@
    }
}

impl OrcView {
    /// `self` is this orc after it set out for `(x, y)`: on its way, with a
    /// path planned from where it stood.
    pub open spec fn set_out(self, before: OrcView, world: &World, x: usize, y: usize, reason: Seq<char>) -> bool {
        &&& self == (OrcView {
            activity: ActivityView::GoingTo { x, y, reason },
            pending: self.pending,
            ..before
        })
        &&& is_plan(
            world,
            before.x as int,
            before.y as int,
            x as int,
            y as int,
            forage_goal(world, x as int, y as int),
            self.pending,
        )
    }

    /// `self` is this orc after it took up `activity`: with a path planned
    /// if the activity is a way to go, and with none if it is a hunt.
    pub open spec fn took_up(self, before: OrcView, world: &World, activity: ActivityView) -> bool {
        &&& self == (OrcView { activity, pending: self.pending, ..before })
        &&& match activity {
            ActivityView::GoingTo { x, y, .. } => is_plan(
                world,
                before.x as int,
                before.y as int,
                x as int,
                y as int,
                forage_goal(world, x as int, y as int),
                self.pending,
            ),
            ActivityView::Hunting { .. } => self.pending.len() == 0,
            _ => self.pending == before.pending,
        }
    }

    /// `self` is this orc after it set out for some spot near the campfire
    /// to sleep there.
    pub open spec fn went_to_rest(self, before: OrcView, world: &World, desperate: bool) -> bool {
        exists|x: usize, y: usize|
            is_spot_near(
                world,
                world.campfire_pos.0 as int,
                world.campfire_pos.1 as int,
                x as int,
                y as int,
            ) && #[trigger] self.set_out(before, world, x, y, rest_reason(desperate))
    }

    /// `self` is this orc after it turned to carrying its meat to the rack:
    /// with a path planned to the rack if there is one.
    pub open spec fn shouldered(self, before: OrcView, world: &World) -> bool {
        &&& self == (OrcView { activity: ActivityView::CarryingMeat, pending: self.pending, ..before })
        &&& match world.spec_meat_rack_pos() {
            Some((mx, my)) => is_plan(
                world,
                before.x as int,
                before.y as int,
                mx as int,
                my as int,
                false,
                self.pending,
            ),
            None => self.pending == before.pending,
        }
    }

    /// `self` is this orc after a tick of idling: the idle counter goes up,
    /// and once it passes the limit it starts over and the orc may wander
    /// off to a walkable tile nearby.
    pub open spec fn loitered(self, before: OrcView, world: &World) -> bool {
        if before.idle_ticks < IDLE_LIMIT {
            self == (OrcView { idle_ticks: (before.idle_ticks + 1) as u32, ..before })
        } else {
            let rested = OrcView { idle_ticks: 0, ..before };
            ||| self == rested
            ||| exists|dx: int, dy: int|
                {
                    let to = #[trigger] wander_target(
                        before.x as int,
                        before.y as int,
                        world.campfire_pos.0 as int,
                        world.campfire_pos.1 as int,
                        dx,
                        dy,
                    );
                    &&& -WANDER_REACH <= dx <= WANDER_REACH
                    &&& -WANDER_REACH <= dy <= WANDER_REACH
                    &&& world.spec_is_walkable(to.0, to.1)
                    &&& self.set_out(rested, world, to.0 as usize, to.1 as usize, "Wandering"@)
                }
        }
    }
}

impl Choice {
    /// The log line that goes with the decision, after the orc's name.
    pub open spec fn message(self) -> Option<(Seq<char>, Color)> {
        match self {
            Choice::Water { desperate, .. } => Some(
                if desperate {
                    (" desperately needs water!"@, Color::Red)
                } else {
                    (" is thirsty, heading to water"@, Color::Yellow)
                },
            ),
            Choice::Food { desperate, .. } => Some(
                if desperate {
                    (" desperately needs food!"@, Color::Red)
                } else {
                    (" is hungry, looking for food"@, Color::Yellow)
                },
            ),
            Choice::Rest { desperate } => Some(
                if desperate {
                    (" desperately needs rest!"@, Color::Red)
                } else {
                    (" is exhausted, heading to campfire"@, Color::Yellow)
                },
            ),
            Choice::Carry | Choice::Loiter => None,
        }
    }

    /// `after` is the orc `before` once it has acted on the decision.
    pub open spec fn carried_out(self, after: OrcView, before: OrcView, world: &World) -> bool {
        match self {
            Choice::Water { x, y, desperate } => after.set_out(
                before,
                world,
                x,
                y,
                if desperate {
                    "Desperate for water"@
                } else {
                    "Going to drink"@
                },
            ),
            Choice::Food { target, .. } => after.took_up(before, world, target),
            Choice::Rest { desperate } => after.went_to_rest(before, world, desperate),
            Choice::Carry => after.shouldered(before, world),
            Choice::Loiter => after.loitered(before, world),
        }
    }
}

/// The log after an orc acted on a decision: one line more if the
/// decision comes with one.
pub open spec fn log_after_choice(c: Choice, log: &EventLog, tick: u64, name: Seq<char>) -> Seq<Entry> {
    match c.message() {
        Some((tail, color)) => log.with(tick, name + tail, color),
        None => log@,
    }
}

impl Orc {
    /// Heads for a spot near the campfire to sleep there.
    fn seek_rest(&mut self, world: &World, rng: &mut StdRng, log: &mut EventLog, tick: u64, desperate: bool)
        requires
            world.wf(),
            old(self).wf(),
        ensures
            final(self).wf(),
            final(self)@.went_to_rest(old(self)@, world, desperate),
            final(log).max_events == old(log).max_events,
            final(log)@ == log_after_choice(Choice::Rest { desperate }, old(log), tick, old(self).name@),
    {
        let (cx, cy) = world.campfire_pos;
        let (sx, sy) = self.find_spot_near(cx, cy, world, rng);
        if desperate {
            narrate(log, tick, &self.name, " desperately needs rest!", Color::Red);
            self.go_to(sx, sy, "Desperate for sleep".to_owned(), world);
        } else {
            narrate(log, tick, &self.name, " is exhausted, heading to campfire", Color::Yellow);
            self.go_to(sx, sy, "Going to sleep".to_owned(), world);
        }
        assert(self@.set_out(old(self)@, world, sx, sy, rest_reason(desperate)));
    }

    /// Heads for the tile `(wx, wy)` beside water to drink there.
    fn seek_water(&mut self, world: &World, log: &mut EventLog, tick: u64, wx: usize, wy: usize, desperate: bool)
        requires
            world.wf(),
            old(self).wf(),
            in_bounds(wx as int, wy as int),
        ensures
            final(self).wf(),
            (Choice::Water { x: wx, y: wy, desperate }).carried_out(final(self)@, old(self)@, world),
            final(log).max_events == old(log).max_events,
            final(log)@ == log_after_choice(
                Choice::Water { x: wx, y: wy, desperate },
                old(log),
                tick,
                old(self).name@,
            ),
    {
        if desperate {
            narrate(log, tick, &self.name, " desperately needs water!", Color::Red);
            self.go_to(wx, wy, "Desperate for water".to_owned(), world);
        } else {
            narrate(log, tick, &self.name, " is thirsty, heading to water", Color::Yellow);
            self.go_to(wx, wy, "Going to drink".to_owned(), world);
        }
    }

    /// Takes up `target`, which leads to food.
    fn seek_food(&mut self, world: &World, log: &mut EventLog, tick: u64, target: Activity, desperate: bool)
        requires
            world.wf(),
            old(self).wf(),
            target matches Activity::GoingTo { x, y, .. } ==> in_bounds(x as int, y as int),
        ensures
            final(self).wf(),
            (Choice::Food { target: target@, desperate }).carried_out(final(self)@, old(self)@, world),
            final(log).max_events == old(log).max_events,
            final(log)@ == log_after_choice(
                Choice::Food { target: target@, desperate },
                old(log),
                tick,
                old(self).name@,
            ),
    {
        if desperate {
            narrate(log, tick, &self.name, " desperately needs food!", Color::Red);
        } else {
            narrate(log, tick, &self.name, " is hungry, looking for food", Color::Yellow);
        }
        self.set_activity_with_path(target, world);
    }

    /// Turns to carrying the meat at hand to the rack.
    fn shoulder(&mut self, world: &World)
        requires
            world.wf(),
            old(self).wf(),
        ensures
            final(self).wf(),
            final(self)@.shouldered(old(self)@, world),
    {
        self.activity = Activity::CarryingMeat;
        assert(self@.pending =~= old(self)@.pending);
        match world.meat_rack_pos() {
            Some((mx, my)) => {
                self.plan_path(mx, my, world, false);
            },
            None => {},
        }
    }

    /// Idles for a tick; past the idle limit the orc may wander off.
    fn loiter(&mut self, world: &World, rng: &mut StdRng)
        requires
            world.wf(),
            old(self).wf(),
        ensures
            final(self).wf(),
            final(self)@.loitered(old(self)@, world),
    {
        let (cx, cy) = world.campfire_pos;
        self.idle_ticks += 1;
        assert(self@.pending =~= old(self)@.pending);
        if self.idle_ticks > IDLE_LIMIT {
            self.idle_ticks = 0;
            assert(self@.pending =~= old(self)@.pending);
            let dx: i32 = roll_range(rng, 0, 9) as i32 - WANDER_REACH;
            let dy: i32 = roll_range(rng, 0, 9) as i32 - WANDER_REACH;
            let (nx, ny) = wander_to(self.x, self.y, cx, cy, dx, dy);
            if world.is_walkable(nx, ny) {
                let ghost rested = self@;
                self.go_to(nx, ny, "Wandering".to_owned(), world);
                proof {
                    let to = wander_target(
                        old(self).x as int,
                        old(self).y as int,
                        world.campfire_pos.0 as int,
                        world.campfire_pos.1 as int,
                        dx as int,
                        dy as int,
                    );
                    assert(to == (nx as int, ny as int));
                    assert(self@.set_out(rested, world, to.0 as usize, to.1 as usize, "Wandering"@));
                }
            }
        }
    }

    /// Lets an idle orc decide what to do next and set about it; see `choice`.
    fn decide_action(
        &mut self,
        world: &World,
        animals: &Vec<Animal>,
        rng: &mut StdRng,
        log: &mut EventLog,
        tick: u64,
    )
        requires
            world.wf(),
            old(self).wf(),
            herd_wf(animals@),
        ensures
            final(self).wf(),
            choice(old(self)@, world, animals@).carried_out(final(self)@, old(self)@, world),
            final(log).max_events == old(log).max_events,
            final(log)@ == log_after_choice(
                choice(old(self)@, world, animals@),
                old(log),
                tick,
                old(self).name@,
            ),
    {
        if self.health < 200 {
            if self.thirst > self.hunger && self.thirst > NEED_MAX - self.energy {
                match world.find_water_adjacent(self.x, self.y) {
                    Some((wx, wy)) => {
                        self.seek_water(world, log, tick, wx, wy, true);
                        return ;
                    },
                    None => {},
                }
            } else if self.hunger > NEED_MAX - self.energy {
                match self.find_food_target(world, animals) {
                    Some(target) => {
                        self.seek_food(world, log, tick, target, true);
                        return ;
                    },
                    None => {},
                }
            } else {
                self.seek_rest(world, rng, log, tick, true);
                return ;
            }
        }
        if self.thirst > 600 {
            match world.find_water_adjacent(self.x, self.y) {
                Some((wx, wy)) => {
                    self.seek_water(world, log, tick, wx, wy, false);
                    return ;
                },
                None => {},
            }
        }
        if self.hunger > 700 {
            match self.find_food_target(world, animals) {
                Some(target) => {
                    self.seek_food(world, log, tick, target, false);
                    return ;
                },
                None => {},
            }
        }
        if self.energy < 200 {
            self.seek_rest(world, rng, log, tick, false);
            return ;
        }
        if self.carrying_food {
            self.shoulder(world);
            return ;
        }
        self.loiter(world, rng);
    }
}

/// An orc and what it can change in a tick: the world, the animals and the
/// event log.
pub ghost struct Scene {
    pub orc: OrcView,
    pub world: World,
    pub herd: Seq<Animal>,
    pub log: EventLog,
}

pub open spec fn scene(orc: &Orc, world: &World, animals: &Vec<Animal>, log: &EventLog) -> Scene {
    Scene { orc: orc@, world: *world, herd: animals@, log: *log }
}

/// The log line for a catch, after the orc's name.
pub open spec fn catch_message(kind: AnimalKind) -> Seq<char> {
    " caught a "@ + kind.spec_name() + "!"@
}

/// The log line for meat brought to the rack, after the orc's name.
/// `stock` is what the stockpile then holds.
pub open spec fn store_message(stock: u32) -> Seq<char> {
    " stored meat (stockpile: "@ + decimal(stock as nat) + ")"@
}

impl OrcView {
    /// `self` is this orc with a path newly planned to `(tx, ty)`.
    pub open spec fn planned(self, before: OrcView, world: &World, tx: int, ty: int, allow_tree: bool) -> bool {
        &&& self == (OrcView { pending: self.pending, ..before })
        &&& is_plan(world, before.x as int, before.y as int, tx, ty, allow_tree, self.pending)
    }

    /// The orc once it has woken, if it has slept enough.
    pub open spec fn woken(self) -> OrcView {
        if self.energy >= 900 {
            OrcView { activity: ActivityView::Idle, ..self }
        } else {
            self
        }
    }

    /// The orc after a tick of eating; it stops once hunger is down to 10
    /// points.
    pub open spec fn fed(self) -> OrcView {
        let hunger = bumped(self.hunger, -(MEAL_SIZE as int));
        if hunger <= 100 {
            OrcView { hunger, activity: ActivityView::Idle, ..self }
        } else {
            OrcView { hunger, ..self }
        }
    }

    /// The orc after a tick of drinking; it stops once thirst is down to 5
    /// points.
    pub open spec fn watered(self) -> OrcView {
        let thirst = bumped(self.thirst, -(DRAUGHT_SIZE as int));
        if thirst <= 50 {
            OrcView { thirst, activity: ActivityView::Idle, ..self }
        } else {
            OrcView { thirst, ..self }
        }
    }
}

impl Scene {
    /// The log is as in `before`.
    pub open spec fn same_log(self, before: Scene) -> bool {
        self.log.max_events == before.log.max_events && self.log@ == before.log@
    }

    /// The log has one line more than in `before`: the orc's name and `tail`.
    pub open spec fn told(self, before: Scene, tick: u64, tail: Seq<char>, color: Color) -> bool {
        self.log.max_events == before.log.max_events && self.log@ == before.log.with(
            tick,
            before.orc.name + tail,
            color,
        )
    }

    /// The log has that line more if the orc gave up what it was doing, and
    /// is as in `before` otherwise.
    pub open spec fn told_if_idle(self, before: Scene, tick: u64, tail: Seq<char>) -> bool {
        if self.orc.activity is Idle {
            self.told(before, tick, tail, Color::Cyan)
        } else {
            self.same_log(before)
        }
    }

    /// World and animals are as in `before`.
    pub open spec fn same_land(self, before: Scene) -> bool {
        self.world.same_as(&before.world) && self.herd == before.herd
    }

    /// The orc has caught the animal `idx`: the animal is dead, and its meat
    /// lies where it stood if that was grass. A hungry orc starts eating.
    /// Any other picks the meat up, and any food that lay there, and turns
    /// to carrying it to the rack.
    pub open spec fn caught(self, before: Scene, tick: u64, idx: usize) -> bool {
        let o = before.orc;
        let prey = before.herd[idx as int];
        let x = prey.x as int;
        let y = prey.y as int;
        let ground = before.world.tile(x, y);
        &&& self.herd == before.herd.update(idx as int, Animal { alive: false, ..prey })
        &&& self.log.max_events == before.log.max_events
        &&& self.log@ == appended(
            before.log.with(tick, hunted_message(prey.kind), Color::Rgb(180, 140, 80)),
            before.log.max_events,
            Entry { tick, message: o.name + catch_message(prey.kind), color: Color::Green },
        )
        &&& self.world.same_ledger(&before.world)
        &&& self.world.same_tiles_but(&before.world, x, y)
        &&& if o.hunger > 500 {
            &&& self.orc == (OrcView { activity: ActivityView::Eating, ..o })
            &&& self.world.tile(x, y) == if ground == Terrain::Grass {
                Terrain::Food
            } else {
                ground
            }
        } else {
            &&& self.orc.shouldered(OrcView { carrying_food: true, ..o }, &self.world)
            &&& self.world.tile(x, y) == if ground == Terrain::Food {
                Terrain::Grass
            } else {
                ground
            }
        }
    }

    /// The orc went after prey at `(tx, ty)`: along its path, planned anew
    /// if none was left, or by a greedy step where no path was found.
    pub open spec fn chased(self, before: Scene, tx: usize, ty: usize) -> bool {
        &&& self.same_land(before)
        &&& self.same_log(before)
        &&& if before.orc.pending.len() > 0 {
            self.orc == before.orc.advanced()
        } else {
            exists|mid: OrcView| #[trigger]
                mid.planned(before.orc, &before.world, tx as int, ty as int, false)
                    && self.orc.moved_on(mid, &before.world, tx, ty)
        }
    }

    /// A tick of the hunt for the animal `idx`: the orc gives up if there
    /// is no such animal alive, catches it if it is at most one step away,
    /// and goes after it otherwise.
    pub open spec fn hunted(self, before: Scene, tick: u64, idx: usize) -> bool {
        let o = before.orc;
        if idx < before.herd.len() && before.herd[idx as int].alive {
            let prey = before.herd[idx as int];
            if manhattan(o.x as int, o.y as int, prey.x as int, prey.y as int) <= 1 {
                self.caught(before, tick, idx)
            } else {
                self.chased(before, prey.x, prey.y)
            }
        } else {
            &&& self.orc == (OrcView { activity: ActivityView::Idle, ..o })
            &&& self.same_land(before)
            &&& self.same_log(before)
        }
    }

    /// A tick of carrying meat: at most one step from the rack the orc
    /// adds it to the stockpile; farther off it moves on towards the rack;
    /// and with no rack standing it lets the meat go.
    pub open spec fn carried(self, before: Scene, tick: u64) -> bool {
        let o = before.orc;
        match before.world.spec_meat_rack_pos() {
            Some((mx, my)) => if manhattan(o.x as int, o.y as int, mx as int, my as int) <= 1 {
                &&& self.orc == (OrcView { carrying_food: false, activity: ActivityView::Idle, ..o })
                &&& self.herd == before.herd
                &&& self.world.same_tiles(&before.world)
                &&& self.world.campfire_pos == before.world.campfire_pos
                &&& self.world.regrowth_timers@ == before.world.regrowth_timers@
                &&& self.world.food_stockpile == before.world.food_stockpile + 1
                &&& self.told(
                    before,
                    tick,
                    store_message(self.world.food_stockpile),
                    Color::Rgb(180, 120, 60),
                )
            } else {
                &&& self.same_land(before)
                &&& self.same_log(before)
                &&& self.orc.moved_on(o, &before.world, mx, my)
            },
            None => {
                &&& self.orc == (OrcView { carrying_food: false, activity: ActivityView::Idle, ..o })
                &&& self.same_land(before)
                &&& self.same_log(before)
            },
        }
    }

    /// A tick on the way to `(x, y)`: there, the orc turns to what the place
    /// offers; elsewhere it moves on.
    pub open spec fn travelled(self, before: Scene, tick: u64, x: usize, y: usize) -> bool {
        let o = before.orc;
        if o.x == x && o.y == y {
            let found = arrival(&before.world, o.x as int, o.y as int);
            &&& self.orc == (OrcView { activity: found.activity(), ..o })
            &&& self.herd == before.herd
            &&& found.world_after(&self.world, &before.world, o.x as int, o.y as int, tick)
            &&& self.told(before, tick, found.message(self.world.food_stockpile), found.color())
        } else {
            &&& self.same_land(before)
            &&& self.same_log(before)
            &&& self.orc.moved_on(o, &before.world, x, y)
        }
    }

    /// A tick of an idle orc: it decides what to do and sets about it.
    pub open spec fn decided(self, before: Scene, tick: u64) -> bool {
        let c = choice(before.orc, &before.world, before.herd);
        &&& c.carried_out(self.orc, before.orc, &before.world)
        &&& self.same_land(before)
        &&& self.log.max_events == before.log.max_events
        &&& self.log@ == log_after_choice(c, &before.log, tick, before.orc.name)
    }

    /// What a living orc does in a tick, by what it was doing.
    pub open spec fn acted(self, before: Scene, tick: u64) -> bool {
        match before.orc.activity {
            ActivityView::Sleeping => {
                &&& self.orc == before.orc.woken()
                &&& self.same_land(before)
                &&& self.told_if_idle(before, tick, " woke up, feeling rested"@)
            },
            ActivityView::Eating => {
                &&& self.orc == before.orc.fed()
                &&& self.same_land(before)
                &&& self.told_if_idle(before, tick, " finished eating"@)
            },
            ActivityView::Drinking => {
                &&& self.orc == before.orc.watered()
                &&& self.same_land(before)
                &&& self.told_if_idle(before, tick, " finished drinking"@)
            },
            ActivityView::Hunting { target_idx } => self.hunted(before, tick, target_idx),
            ActivityView::CarryingMeat => self.carried(before, tick),
            ActivityView::GoingTo { x, y, .. } => self.travelled(before, tick, x, y),
            ActivityView::Idle => self.decided(before, tick),
        }
    }

    /// What a tick does. A dead orc stays as it is, and so does all around
    /// it. The needs of a living orc wear on; if that leaves it without
    /// health it dies, and otherwise it acts.
    pub open spec fn ticked(self, before: Scene, tick: u64, is_night: bool) -> bool {
        if !before.orc.alive {
            self.orc == before.orc && self.same_land(before) && self.same_log(before)
        } else {
            let aged = Scene { orc: before.orc.aged(is_night), ..before };
            if aged.orc.health == 0 {
                &&& self.orc == (OrcView { alive: false, death_tick: Some(tick), ..aged.orc })
                &&& self.same_land(before)
                &&& self.told(before, tick, " has died!"@, Color::Red)
            } else {
                self.acted(aged, tick)
            }
        }
    }
}

/// Whatever a tick does, the needs stay on their scale: none of hunger,
/// thirst, energy and health leaves the range from 0 to `NEED_MAX`.
pub proof fn lemma_needs_stay_on_scale(after: Scene, before: Scene, tick: u64, is_night: bool)
    requires
        before.orc.hunger <= NEED_MAX,
        before.orc.thirst <= NEED_MAX,
        before.orc.energy <= NEED_MAX,
        before.orc.health <= NEED_MAX,
        after.ticked(before, tick, is_night),
    ensures
        after.orc.hunger <= NEED_MAX,
        after.orc.thirst <= NEED_MAX,
        after.orc.energy <= NEED_MAX,
        after.orc.health <= NEED_MAX,
{
    if before.orc.alive {
        let aged = before.orc.aged(is_night);
        if aged.health != 0 {
            lemma_acting_spares_needs(after, Scene { orc: aged, ..before }, tick);
        }
    }
}

/// What an orc does in a tick changes none of its needs but hunger, which
/// falls while it eats, and thirst, which falls while it drinks.
pub proof fn lemma_acting_spares_needs(after: Scene, before: Scene, tick: u64)
    requires
        after.acted(before, tick),
    ensures
        after.orc.energy == before.orc.energy,
        after.orc.health == before.orc.health,
        after.orc.alive == before.orc.alive,
        after.orc.death_tick == before.orc.death_tick,
        after.orc.name == before.orc.name,
        after.orc.hunger == if before.orc.activity is Eating {
            bumped(before.orc.hunger, -(MEAL_SIZE as int))
        } else {
            before.orc.hunger
        },
        after.orc.thirst == if before.orc.activity is Drinking {
            bumped(before.orc.thirst, -(DRAUGHT_SIZE as int))
        } else {
            before.orc.thirst
        },
{
}

/// An idle orc whose health, once the tick has worn on it, is below 20
/// points, whose thirst is then worse than its hunger and its tiredness,
/// and for which a tile beside water can be found, sets out for that tile
/// in that tick, desperate for water, whatever else it is in need of. It
/// does not move yet, and world and animals stay as they are.
pub proof fn lemma_desperate_for_water(after: Scene, before: Scene, tick: u64, is_night: bool)
    requires
        before.orc.alive,
        before.orc.activity is Idle,
        0 < before.orc.aged(is_night).health < 200,
        before.orc.aged(is_night).thirst > before.orc.aged(is_night).hunger,
        before.orc.aged(is_night).thirst > NEED_MAX - before.orc.aged(is_night).energy,
        before.world.spec_find_water_adjacent(before.orc.x as int, before.orc.y as int) is Some,
        after.ticked(before, tick, is_night),
    ensures
        ({
            let shore = before.world.spec_find_water_adjacent(
                before.orc.x as int,
                before.orc.y as int,
            )->0;
            after.orc.activity == (ActivityView::GoingTo {
                x: shore.0,
                y: shore.1,
                reason: "Desperate for water"@,
            })
        }),
        after.orc.x == before.orc.x,
        after.orc.y == before.orc.y,
        after.same_land(before),
        after.log@ == before.log.with(
            tick,
            before.orc.name + " desperately needs water!"@,
            Color::Red,
        ),
{
    let aged = before.orc.aged(is_night);
    lemma_water_comes_first(aged, &before.world, before.herd, after.orc);
}

/// A tick leaves a dead orc as it was, with its death tick, and all around
/// it too.
pub proof fn lemma_death_is_final(after: Scene, before: Scene, tick: u64, is_night: bool)
    requires
        !before.orc.alive,
        after.ticked(before, tick, is_night),
    ensures
        after.orc == before.orc,
        after.same_land(before),
        after.same_log(before),
{
}

/// An orc whose health a tick wears down to nothing is dead after that
/// tick, and the tick is its death tick.
pub proof fn lemma_death_comes_at_zero(after: Scene, before: Scene, tick: u64, is_night: bool)
    requires
        before.orc.alive,
        before.orc.aged(is_night).health == 0,
        after.ticked(before, tick, is_night),
    ensures
        !after.orc.alive,
        after.orc.death_tick == Some(tick),
        after.orc.health == 0,
{
}

/// An orc that is alive after a tick has health left.
pub proof fn lemma_the_living_have_health(after: Scene, before: Scene, tick: u64, is_night: bool)
    requires
        before.orc.alive,
        after.ticked(before, tick, is_night),
    ensures
        after.orc.alive <==> after.orc.health > 0,
{
    let aged = before.orc.aged(is_night);
    if aged.health != 0 {
        lemma_acting_spares_needs(after, Scene { orc: aged, ..before }, tick);
    }
}

/// The orc stands on a bush that it has set out for, and will pick it.
pub open spec fn at_the_bush(o: OrcView, world: &World) -> bool {
    o.activity matches ActivityView::GoingTo { x, y, .. } && o.x == x && o.y == y && world.tile(
        x as int,
        y as int,
    ) == Terrain::Bush
}

/// The orc is at most one step from the meat rack.
pub open spec fn at_the_rack(o: OrcView, world: &World) -> bool {
    world.spec_meat_rack_pos() matches Some(rack) && manhattan(
        o.x as int,
        o.y as int,
        rack.0 as int,
        rack.1 as int,
    ) <= 1
}

/// The counters leave room for what the orc is about to do: for the timer
/// of the bush, if it picks one, and for a unit more in the stockpile, if
/// it stores meat.
pub open spec fn has_room(o: OrcView, world: &World, tick: u64) -> bool {
    &&& at_the_bush(o, world) ==> tick + REGROWTH_DELAY <= u64::MAX
    &&& o.activity is CarryingMeat && at_the_rack(o, world) ==> world.food_stockpile < u32::MAX
}

impl Orc {
    /// Wakes the sleeper once it has slept enough.
    fn wake(&mut self, log: &mut EventLog, tick: u64)
        requires
            old(self).wf(),
            old(self).activity is Sleeping,
        ensures
            final(self).wf(),
            final(self)@ == old(self)@.woken(),
            final(log).max_events == old(log).max_events,
            final(log)@ == if final(self).activity is Idle {
                old(log).with(tick, old(self).name@ + " woke up, feeling rested"@, Color::Cyan)
            } else {
                old(log)@
            },
    {
        if self.energy >= 900 {
            narrate(log, tick, &self.name, " woke up, feeling rested", Color::Cyan);
            self.activity = Activity::Idle;
            assert(self@.pending =~= old(self)@.pending);
        }
    }

    /// A tick of eating.
    fn eat(&mut self, log: &mut EventLog, tick: u64)
        requires
            old(self).wf(),
            old(self).activity is Eating,
        ensures
            final(self).wf(),
            final(self)@ == old(self)@.fed(),
            final(log).max_events == old(log).max_events,
            final(log)@ == if final(self).activity is Idle {
                old(log).with(tick, old(self).name@ + " finished eating"@, Color::Cyan)
            } else {
                old(log)@
            },
    {
        self.hunger = bump(self.hunger, -(MEAL_SIZE as i32));
        assert(self@.pending =~= old(self)@.pending);
        if self.hunger <= 100 {
            narrate(log, tick, &self.name, " finished eating", Color::Cyan);
            self.activity = Activity::Idle;
            assert(self@.pending =~= old(self)@.pending);
        }
    }

    /// A tick of drinking.
    fn drink(&mut self, log: &mut EventLog, tick: u64)
        requires
            old(self).wf(),
            old(self).activity is Drinking,
        ensures
            final(self).wf(),
            final(self)@ == old(self)@.watered(),
            final(log).max_events == old(log).max_events,
            final(log)@ == if final(self).activity is Idle {
                old(log).with(tick, old(self).name@ + " finished drinking"@, Color::Cyan)
            } else {
                old(log)@
            },
    {
        self.thirst = bump(self.thirst, -(DRAUGHT_SIZE as i32));
        assert(self@.pending =~= old(self)@.pending);
        if self.thirst <= 50 {
            narrate(log, tick, &self.name, " finished drinking", Color::Cyan);
            self.activity = Activity::Idle;
            assert(self@.pending =~= old(self)@.pending);
        }
    }

    /// Kills the animal `idx` and eats of it, or takes its meat up.
    fn catch(&mut self, idx: usize, world: &mut World, animals: &mut Vec<Animal>, log: &mut EventLog, tick: u64)
        requires
            old(self).wf(),
            old(world).wf(),
            herd_wf(old(animals)@),
            idx < old(animals)@.len(),
        ensures
            final(self).wf(),
            final(world).wf(),
            herd_wf(final(animals)@),
            scene(final(self), final(world), final(animals), final(log)).caught(
                scene(old(self), old(world), old(animals), old(log)),
                tick,
                idx,
            ),
    {
        assert(animals@[idx as int].wf());
        let kind = animals[idx].kind;
        let ax = animals[idx].x;
        let ay = animals[idx].y;
        animals[idx].kill(world, log, tick);
        let mut message = self.name.clone();
        push_str(&mut message, " caught a ");
        push_str(&mut message, kind.name());
        push_str(&mut message, "!");
        assert(message@ =~= self.name@ + catch_message(kind));
        log.log(tick, message, Color::Green);
        if self.hunger > 500 {
            self.activity = Activity::Eating;
            assert(self@.pending =~= old(self)@.pending);
        } else {
            self.carrying_food = true;
            assert(self@.pending =~= old(self)@.pending);
            if world.get(ax, ay) == Terrain::Food {
                world.set(ax, ay, Terrain::Grass);
            }
            self.shoulder(world);
        }
    }

    /// Goes after prey at `(tx, ty)`.
    fn chase(&mut self, tx: usize, ty: usize, world: &World, rng: &mut StdRng)
        requires
            old(self).wf(),
            world.wf(),
            in_bounds(tx as int, ty as int),
        ensures
            final(self).wf(),
            if old(self)@.pending.len() > 0 {
                final(self)@ == old(self)@.advanced()
            } else {
                exists|mid: OrcView| #[trigger]
                    mid.planned(old(self)@, world, tx as int, ty as int, false)
                        && final(self)@.moved_on(mid, world, tx, ty)
            },
    {
        if self.path_step >= self.path.len() {
            self.plan_path(tx, ty, world, false);
            let ghost mid = self@;
            assert(mid.planned(old(self)@, world, tx as int, ty as int, false));
            self.advance(tx, ty, world, rng);
            assert(self@.moved_on(mid, world, tx, ty));
        } else {
            self.advance(tx, ty, world, rng);
        }
    }

    /// Moves on towards `(tx, ty)`: along the path while it lasts, by
    /// greedy steps after that.
    fn advance(&mut self, tx: usize, ty: usize, world: &World, rng: &mut StdRng)
        requires
            old(self).wf(),
            world.wf(),
        ensures
            final(self).wf(),
            final(self)@.moved_on(old(self)@, world, tx, ty),
    {
        if !self.follow_path() {
            self.move_toward_greedy(tx, ty, world, rng);
        }
    }

    /// A tick of the hunt for the animal `idx`.
    fn hunt(
        &mut self,
        idx: usize,
        world: &mut World,
        animals: &mut Vec<Animal>,
        rng: &mut StdRng,
        log: &mut EventLog,
        tick: u64,
    )
        requires
            old(self).wf(),
            old(world).wf(),
            herd_wf(old(animals)@),
        ensures
            final(self).wf(),
            final(world).wf(),
            herd_wf(final(animals)@),
            scene(final(self), final(world), final(animals), final(log)).hunted(
                scene(old(self), old(world), old(animals), old(log)),
                tick,
                idx,
            ),
    {
        if idx < animals.len() && animals[idx].alive {
            assert(animals@[idx as int].wf());
            let ax = animals[idx].x;
            let ay = animals[idx].y;
            if distance(self.x, self.y, ax, ay) <= 1 {
                self.catch(idx, world, animals, log, tick);
            } else {
                self.chase(ax, ay, world, rng);
                assert(scene(self, world, animals, log).same_land(
                    scene(old(self), old(world), old(animals), old(log)),
                ));
            }
        } else {
            self.activity = Activity::Idle;
            assert(self@.pending =~= old(self)@.pending);
        }
    }

    /// A tick of carrying meat to the rack.
    fn carry(&mut self, world: &mut World, rng: &mut StdRng, log: &mut EventLog, tick: u64)
        requires
            old(self).wf(),
            old(world).wf(),
            at_the_rack(old(self)@, old(world)) ==> old(world).food_stockpile < u32::MAX,
        ensures
            final(self).wf(),
            final(world).wf(),
            forall|animals: &Vec<Animal>|
                #![trigger scene(old(self), old(world), animals, old(log))]
                scene(final(self), final(world), animals, final(log)).carried(
                    scene(old(self), old(world), animals, old(log)),
                    tick,
                ),
    {
        match world.meat_rack_pos() {
            Some((mx, my)) => {
                if distance(self.x, self.y, mx, my) <= 1 {
                    world.food_stockpile += 1;
                    self.carrying_food = false;
                    let mut message = self.name.clone();
                    push_str(&mut message, " stored meat (stockpile: ");
                    push_decimal(&mut message, world.food_stockpile as u64);
                    push_str(&mut message, ")");
                    assert(message@ =~= self.name@ + store_message(world.food_stockpile));
                    log.log(tick, message, Color::Rgb(180, 120, 60));
                    self.activity = Activity::Idle;
                    assert(self@.pending =~= old(self)@.pending);
                } else {
                    self.advance(mx, my, world, rng);
                }
            },
            None => {
                self.carrying_food = false;
                self.activity = Activity::Idle;
                assert(self@.pending =~= old(self)@.pending);
            },
        }
    }

    /// A tick on the way to `(tx, ty)`.
    fn travel(&mut self, tx: usize, ty: usize, world: &mut World, rng: &mut StdRng, log: &mut EventLog, tick: u64)
        requires
            old(self).wf(),
            old(world).wf(),
            old(self).x == tx && old(self).y == ty && old(world).tile(tx as int, ty as int)
                == Terrain::Bush ==> tick + REGROWTH_DELAY <= u64::MAX,
        ensures
            final(self).wf(),
            final(world).wf(),
            forall|animals: &Vec<Animal>|
                #![trigger scene(old(self), old(world), animals, old(log))]
                scene(final(self), final(world), animals, final(log)).travelled(
                    scene(old(self), old(world), animals, old(log)),
                    tick,
                    tx,
                    ty,
                ),
    {
        if self.x == tx && self.y == ty {
            self.arrive_at_destination(world, log, tick);
        } else {
            self.advance(tx, ty, world, rng);
        }
    }

    /// What a living orc does in a tick, by what it is doing.
    fn act(
        &mut self,
        world: &mut World,
        animals: &mut Vec<Animal>,
        rng: &mut StdRng,
        log: &mut EventLog,
        tick: u64,
    )
        requires
            old(self).wf(),
            old(world).wf(),
            herd_wf(old(animals)@),
            has_room(old(self)@, old(world), tick),
        ensures
            final(self).wf(),
            final(world).wf(),
            herd_wf(final(animals)@),
            final(animals)@.len() == old(animals)@.len(),
            final(log).max_events == old(log).max_events,
            final(world).food_stockpile <= old(world).food_stockpile + 1,
            final(self).alive == old(self).alive,
            final(self).death_tick == old(self).death_tick,
            scene(final(self), final(world), final(animals), final(log)).acted(
                scene(old(self), old(world), old(animals), old(log)),
                tick,
            ),
    {
        let ghost before = scene(self, world, animals, log);
        match &self.activity {
            Activity::Sleeping => {
                self.wake(log, tick);
            },
            Activity::Eating => {
                self.eat(log, tick);
            },
            Activity::Drinking => {
                self.drink(log, tick);
            },
            Activity::Hunting { target_idx } => {
                let idx = *target_idx;
                self.hunt(idx, world, animals, rng, log, tick);
            },
            Activity::CarryingMeat => {
                self.carry(world, rng, log, tick);
                assert(scene(self, world, animals, log).carried(before, tick));
            },
            Activity::GoingTo { x, y, .. } => {
                let tx = *x;
                let ty = *y;
                self.travel(tx, ty, world, rng, log, tick);
                assert(scene(self, world, animals, log).travelled(before, tick, tx, ty));
            },
            Activity::Idle => {
                self.decide_action(world, animals, rng, log, tick);
            },
        }
    }

    /// One tick of the orc's life; see `Scene::ticked`. The needs of a
    /// living orc stay on their scale, and a dead orc stays dead and
    /// unchanged.
    pub fn update(
        &mut self,
        world: &mut World,
        animals: &mut Vec<Animal>,
        rng: &mut StdRng,
        log: &mut EventLog,
        tick: u64,
        is_night: bool,
    )
        requires
            old(self).wf(),
            old(world).wf(),
            herd_wf(old(animals)@),
            old(self).alive ==> has_room(old(self)@, old(world), tick),
        ensures
            final(self).wf(),
            final(world).wf(),
            herd_wf(final(animals)@),
            final(animals)@.len() == old(animals)@.len(),
            final(log).max_events == old(log).max_events,
            final(world).food_stockpile <= old(world).food_stockpile + 1,
            final(self).death_tick == old(self).death_tick || final(self).death_tick == Some(tick),
            scene(final(self), final(world), final(animals), final(log)).ticked(
                scene(old(self), old(world), old(animals), old(log)),
                tick,
                is_night,
            ),
            !old(self).alive ==> final(self)@ == old(self)@,
            old(self).alive && old(self)@.aged(is_night).health == 0 ==> !final(self).alive
                && final(self).death_tick == Some(tick),
    {
        if !self.alive {
            return ;
        }
        self.age(is_night);
        if self.health == 0 {
            self.alive = false;
            self.death_tick = Some(tick);
            assert(self@.pending =~= old(self)@.pending);
            narrate(log, tick, &self.name, " has died!", Color::Red);
            return ;
        }
        self.act(world, animals, rng, log, tick);
    }

    /// Checks that the counters leave room for what the orc is about to do;
    /// see `has_room`.
    pub fn has_room(&self, world: &World, tick: u64) -> (r: bool)
        requires
            self.wf(),
            world.wf(),
        ensures
            r == has_room(self@, world, tick),
    {
        match &self.activity {
            Activity::GoingTo { x, y, .. } => {
                !(*x == self.x && *y == self.y && world.get(*x, *y) == Terrain::Bush && tick > u64::MAX
                    - REGROWTH_DELAY)
            },
            Activity::CarryingMeat => {
                match world.meat_rack_pos() {
                    Some((mx, my)) => !(distance(self.x, self.y, mx, my) <= 1 && world.food_stockpile
                        == u32::MAX),
                    None => true,
                }
            },
            _ => true,
        }
    }

    /// One tick of the orc's life, as `update` gives it, where the counters
    /// leave room for it; where they do not, nothing happens and the
    /// result is false. Either way the needs stay on their scale.
    pub fn try_update(
        &mut self,
        world: &mut World,
        animals: &mut Vec<Animal>,
        rng: &mut StdRng,
        log: &mut EventLog,
        tick: u64,
        is_night: bool,
    ) -> (done: bool)
        requires
            old(self).wf(),
            old(world).wf(),
            herd_wf(old(animals)@),
        ensures
            final(self).wf(),
            final(world).wf(),
            herd_wf(final(animals)@),
            final(self).hunger <= NEED_MAX && final(self).thirst <= NEED_MAX && final(self).energy
                <= NEED_MAX && final(self).health <= NEED_MAX,
            final(log).max_events == old(log).max_events,
            done == (old(self).alive ==> has_room(old(self)@, old(world), tick)),
            if done {
                scene(final(self), final(world), final(animals), final(log)).ticked(
                    scene(old(self), old(world), old(animals), old(log)),
                    tick,
                    is_night,
                )
            } else {
                &&& final(self)@ == old(self)@
                &&& scene(final(self), final(world), final(animals), final(log)).same_land(
                    scene(old(self), old(world), old(animals), old(log)),
                )
                &&& final(log)@ == old(log)@
            },
    {
        if self.alive && !self.has_room(world, tick) {
            return false;
        }
        self.update(world, animals, rng, log, tick, is_night);
        true
    }
}

/// The names that orcs are given while any of them is free.
pub const ORC_NAMES: [&'static str; 30] = [
    "Grok",
    "Thrak",
    "Murg",
    "Zug",
    "Brak",
    "Gor",
    "Krag",
    "Drog",
    "Narg",
    "Skul",
    "Gash",
    "Rok",
    "Brug",
    "Thar",
    "Grub",
    "Vak",
    "Snak",
    "Blud",
    "Kurz",
    "Mogz",
    "Thog",
    "Grim",
    "Uzk",
    "Ragz",
    "Lurk",
    "Bonk",
    "Drak",
    "Gurn",
    "Tusk",
    "Mok",
];

/// How a made-up name may begin.
pub const NAME_HEADS: [&'static str; 8] = ["Gr", "Th", "Kr", "Br", "Dr", "Sk", "Zn", "Gl"];

/// How a made-up name may end.
pub const NAME_TAILS: [&'static str; 8] = ["ok", "ag", "ug", "ak", "im", "oz", "ur", "ash"];

pub open spec fn pool_name(k: int) -> Seq<char> {
    ORC_NAMES[k]@
}

/// The names as their characters.
pub open spec fn texts(names: Seq<String>) -> Seq<Seq<char>> {
    Seq::new(names.len(), |i: int| names[i]@)
}

/// `name` is among `existing`.
pub open spec fn taken(existing: Seq<Seq<char>>, name: Seq<char>) -> bool {
    exists|i: int| 0 <= i < existing.len() && #[trigger] existing[i] == name
}

/// Every name of the pool is among `existing`.
pub open spec fn pool_spent(existing: Seq<Seq<char>>) -> bool {
    forall|k: int| 0 <= k < ORC_NAMES.len() ==> taken(existing, #[trigger] pool_name(k))
}

/// The made-up name of head `i` and tail `j`.
pub open spec fn made_name(i: int, j: int) -> Seq<char> {
    NAME_HEADS[i]@ + NAME_TAILS[j]@
}

/// `name` is one of the heads followed by one of the tails.
pub open spec fn made_up(name: Seq<char>) -> bool {
    exists|i: int, j: int|
        0 <= i < NAME_HEADS.len() && 0 <= j < NAME_TAILS.len() && name == #[trigger] made_name(i, j)
}

/// Every made-up name is among `existing`.
pub open spec fn made_names_spent(existing: Seq<Seq<char>>) -> bool {
    forall|i: int, j: int|
        0 <= i < NAME_HEADS.len() && 0 <= j < NAME_TAILS.len() ==> taken(
            existing,
            #[trigger] made_name(i, j),
        )
}

/// `name` may be given to a new orc beside those named in `existing`: it is
/// a name of the pool that none of them bears; once the pool is spent, a
/// made-up name that none of them bears; and any made-up name once those
/// are spent too.
pub open spec fn is_new_name(existing: Seq<Seq<char>>, name: Seq<char>) -> bool {
    if !pool_spent(existing) {
        !taken(existing, name) && exists|k: int|
            0 <= k < ORC_NAMES.len() && name == #[trigger] pool_name(k)
    } else if !made_names_spent(existing) {
        !taken(existing, name) && made_up(name)
    } else {
        made_up(name)
    }
}

/// While a name of the pool or a made-up name is free, the new name is
/// borne by none of `existing`.
pub proof fn lemma_new_name_is_unique(existing: Seq<Seq<char>>, name: Seq<char>)
    requires
        is_new_name(existing, name),
        !pool_spent(existing) || !made_names_spent(existing),
    ensures
        !taken(existing, name),
{
}

fn is_taken(existing: &[String], name: &String) -> (r: bool)
    ensures
        r == taken(texts(existing@), name@),
{
    let mut i: usize = 0;
    while i < existing.len()
        invariant
            i <= existing@.len(),
            forall|j: int| 0 <= j < i ==> texts(existing@)[j] != name@,
        decreases existing@.len() - i,
    {
        if existing[i] == *name {
            assert(texts(existing@)[i as int] == name@);
            return true;
        }
        i += 1;
    }
    false
}

/// The made-up name of head `i` and tail `j`.
fn make_name(i: usize, j: usize) -> (name: String)
    requires
        i < 8,
        j < 8,
    ensures
        name@ == made_name(i as int, j as int),
{
    let mut name = NAME_HEADS[i].to_owned();
    push_str(&mut name, NAME_TAILS[j]);
    name
}

/// The names of the pool that are not among `existing`, by their indices.
fn free_pool_names(existing: &[String]) -> (free: Vec<usize>)
    ensures
        forall|j: int|
            0 <= j < free@.len() ==> (#[trigger] free@[j]) < 30 && !taken(
                texts(existing@),
                pool_name(free@[j] as int),
            ),
        free@.len() == 0 <==> pool_spent(texts(existing@)),
{
    let mut free: Vec<usize> = Vec::new();
    let mut k: usize = 0;
    while k < 30
        invariant
            k <= 30,
            forall|j: int|
                0 <= j < free@.len() ==> (#[trigger] free@[j]) < 30 && !taken(
                    texts(existing@),
                    pool_name(free@[j] as int),
                ),
            free@.len() == 0 ==> forall|j: int|
                0 <= j < k ==> taken(texts(existing@), #[trigger] pool_name(j)),
        decreases 30 - k,
    {
        let candidate = ORC_NAMES[k].to_owned();
        if !is_taken(existing, &candidate) {
            free.push(k);
        }
        k += 1;
    }
    proof {
        if free@.len() > 0 {
            assert(!taken(texts(existing@), pool_name(free@[0] as int)));
        }
    }
    free
}

/// The made-up names that are not among `existing`, each by its head and
/// its tail.
fn free_made_names(existing: &[String]) -> (free: Vec<(usize, usize)>)
    ensures
        forall|n: int|
            0 <= n < free@.len() ==> (#[trigger] free@[n]).0 < 8 && free@[n].1 < 8 && !taken(
                texts(existing@),
                made_name(free@[n].0 as int, free@[n].1 as int),
            ),
        free@.len() == 0 <==> made_names_spent(texts(existing@)),
{
    let mut free: Vec<(usize, usize)> = Vec::new();
    let mut i: usize = 0;
    while i < 8
        invariant
            i <= 8,
            forall|n: int|
                0 <= n < free@.len() ==> (#[trigger] free@[n]).0 < 8 && free@[n].1 < 8 && !taken(
                    texts(existing@),
                    made_name(free@[n].0 as int, free@[n].1 as int),
                ),
            free@.len() == 0 ==> forall|a: int, b: int|
                0 <= a < i && 0 <= b < 8 ==> taken(texts(existing@), #[trigger] made_name(a, b)),
        decreases 8 - i,
    {
        let mut j: usize = 0;
        while j < 8
            invariant
                i < 8,
                j <= 8,
                forall|n: int|
                    0 <= n < free@.len() ==> (#[trigger] free@[n]).0 < 8 && free@[n].1 < 8 && !taken(
                        texts(existing@),
                        made_name(free@[n].0 as int, free@[n].1 as int),
                    ),
                free@.len() == 0 ==> forall|a: int, b: int|
                    0 <= a < i && 0 <= b < 8 ==> taken(texts(existing@), #[trigger] made_name(a, b)),
                free@.len() == 0 ==> forall|b: int|
                    0 <= b < j ==> taken(texts(existing@), #[trigger] made_name(i as int, b)),
            decreases 8 - j,
        {
            let candidate = make_name(i, j);
            if !is_taken(existing, &candidate) {
                free.push((i, j));
            }
            j += 1;
        }
        i += 1;
    }
    proof {
        if free@.len() > 0 {
            assert(!taken(
                texts(existing@),
                made_name(free@[0].0 as int, free@[0].1 as int),
            ));
        }
    }
    free
}

/// Draws a name for a new orc: one of the pool's names that are not among
/// `existing`, each as likely as the other; once the pool is spent, one of
/// the made-up names that are not among them; and any made-up name once
/// those are spent too.
pub fn pick_name(rng: &mut StdRng, existing: &[String]) -> (name: String)
    ensures
        is_new_name(texts(existing@), name@),
{
    let free = free_pool_names(existing);
    if free.len() > 0 {
        let pick = roll_range(rng, 0, free.len());
        let k = free[pick];
        assert(!taken(texts(existing@), pool_name(k as int)));
        return ORC_NAMES[k].to_owned();
    }
    let made = free_made_names(existing);
    if made.len() > 0 {
        let pick = roll_range(rng, 0, made.len());
        let (i, j) = made[pick];
        assert(!taken(texts(existing@), made_name(i as int, j as int)));
        return make_name(i, j);
    }
    let i = roll_range(rng, 0, 8);
    let j = roll_range(rng, 0, 8);
    make_name(i, j)
}

/// The ground of a new clan is a square of this many tiles a side.
pub const CLAN_GROUND: usize = 7;

/// Tiles for a new clan are drawn at random this many times before the
/// ground is searched tile by tile.
pub const CLAN_DRAWS: usize = 1000;

/// The left or upper edge of the clan ground, given the campfire's
/// coordinate: three tiles before it, or the map's edge.
pub open spec fn ground_edge(c: int) -> int {
    if c >= 3 {
        c - 3
    } else {
        0
    }
}

/// A tile on which an orc of a new clan may be placed: walkable, and within
/// the square around the campfire.
pub open spec fn clan_ground(world: &World, x: int, y: int) -> bool {
    let left = ground_edge(world.campfire_pos.0 as int);
    let top = ground_edge(world.campfire_pos.1 as int);
    &&& left <= x < left + CLAN_GROUND
    &&& top <= y < top + CLAN_GROUND
    &&& world.spec_is_walkable(x, y)
}

/// One of the orcs stands on `(x, y)`.
pub open spec fn stands_on(orcs: Seq<Orc>, x: int, y: int) -> bool {
    exists|i: int| 0 <= i < orcs.len() && (#[trigger] orcs[i]).x == x && orcs[i].y == y
}

/// The orcs' names, as their characters.
pub open spec fn names_of(orcs: Seq<Orc>) -> Seq<Seq<char>> {
    Seq::new(orcs.len(), |i: int| orcs[i].name@)
}

/// An orc as it comes to life at `(x, y)`: fed, rested, in full health,
/// with nothing to do.
pub open spec fn newborn(name: Seq<char>, x: usize, y: usize) -> OrcView {
    OrcView {
        name,
        x,
        y,
        hunger: 200,
        energy: 800,
        thirst: 100,
        health: NEED_MAX,
        alive: true,
        death_tick: None,
        activity: ActivityView::Idle,
        idle_ticks: 0,
        carrying_food: false,
        pending: Seq::empty(),
    }
}

/// `orcs[i]` is newborn, stands on the clan ground where none of the orcs
/// before it stands, and bears a name that is new beside theirs.
pub open spec fn is_settler(world: &World, orcs: Seq<Orc>, i: int) -> bool {
    let orc = orcs[i];
    &&& orc@ == newborn(orc.name@, orc.x, orc.y)
    &&& clan_ground(world, orc.x as int, orc.y as int)
    &&& !stands_on(orcs.take(i), orc.x as int, orc.y as int)
    &&& is_new_name(names_of(orcs.take(i)), orc.name@)
}

fn occupied(orcs: &Vec<Orc>, x: usize, y: usize) -> (r: bool)
    ensures
        r == stands_on(orcs@, x as int, y as int),
{
    let mut i: usize = 0;
    while i < orcs.len()
        invariant
            i <= orcs@.len(),
            forall|j: int| 0 <= j < i ==> !((#[trigger] orcs@[j]).x == x && orcs@[j].y == y),
        decreases orcs@.len() - i,
    {
        if orcs[i].x == x && orcs[i].y == y {
            return true;
        }
        i += 1;
    }
    false
}

/// Whether an orc of a new clan may be placed on `(x, y)`.
fn is_free_ground(world: &World, orcs: &Vec<Orc>, x: usize, y: usize) -> (r: bool)
    requires
        world.wf(),
        ground_edge(world.campfire_pos.0 as int) <= x < ground_edge(world.campfire_pos.0 as int)
            + CLAN_GROUND,
        ground_edge(world.campfire_pos.1 as int) <= y < ground_edge(world.campfire_pos.1 as int)
            + CLAN_GROUND,
    ensures
        r == (clan_ground(world, x as int, y as int) && !stands_on(orcs@, x as int, y as int)),
{
    x < MAP_WIDTH && y < MAP_HEIGHT && world.is_walkable(x, y) && !occupied(orcs, x, y)
}

/// Finds a free tile of the clan ground: by drawing tiles at random, and
/// if none of the draws is free, by going over the ground row by row.
fn free_ground(world: &World, orcs: &Vec<Orc>, rng: &mut StdRng) -> (r: Option<(usize, usize)>)
    requires
        world.wf(),
    ensures
        match r {
            Some((x, y)) => clan_ground(world, x as int, y as int) && !stands_on(
                orcs@,
                x as int,
                y as int,
            ),
            None => forall|x: int, y: int| clan_ground(world, x, y) ==> stands_on(orcs@, x, y),
        },
{
    let left = world.campfire_pos.0.saturating_sub(3);
    let top = world.campfire_pos.1.saturating_sub(3);
    let mut n: usize = 0;
    while n < CLAN_DRAWS
        invariant
            world.wf(),
            left == ground_edge(world.campfire_pos.0 as int),
            top == ground_edge(world.campfire_pos.1 as int),
        decreases CLAN_DRAWS - n,
    {
        let x = left + roll_range(rng, 0, CLAN_GROUND);
        let y = top + roll_range(rng, 0, CLAN_GROUND);
        if is_free_ground(world, orcs, x, y) {
            return Some((x, y));
        }
        n += 1;
    }
    let mut dy: usize = 0;
    while dy < CLAN_GROUND
        invariant
            world.wf(),
            left == ground_edge(world.campfire_pos.0 as int),
            top == ground_edge(world.campfire_pos.1 as int),
            dy <= CLAN_GROUND,
            forall|x: int, y: int|
                top <= y < top + dy && clan_ground(world, x, y) ==> stands_on(orcs@, x, y),
        decreases CLAN_GROUND - dy,
    {
        let mut dx: usize = 0;
        while dx < CLAN_GROUND
            invariant
                world.wf(),
                left == ground_edge(world.campfire_pos.0 as int),
                top == ground_edge(world.campfire_pos.1 as int),
                dy < CLAN_GROUND,
                dx <= CLAN_GROUND,
                forall|x: int, y: int|
                    top <= y < top + dy && clan_ground(world, x, y) ==> stands_on(orcs@, x, y),
                forall|x: int, y: int|
                    y == top + dy && left <= x < left + dx && clan_ground(world, x, y)
                        ==> stands_on(orcs@, x, y),
            decreases CLAN_GROUND - dx,
        {
            if is_free_ground(world, orcs, left + dx, top + dy) {
                return Some((left + dx, top + dy));
            }
            dx += 1;
        }
        dy += 1;
    }
    None
}

impl Orc {
    /// Founds a clan of `count` orcs on the ground around the campfire,
    /// each on a tile of its own and with a name of its own while the pool
    /// lasts. The clan falls short of `count` only where every tile of the
    /// ground is taken.
    pub fn spawn_clan(count: usize, world: &World, rng: &mut StdRng) -> (orcs: Vec<Orc>)
        requires
            world.wf(),
        ensures
            orcs@.len() <= count,
            forall|i: int| 0 <= i < orcs@.len() ==> is_settler(world, orcs@, i),
            forall|i: int| 0 <= i < orcs@.len() ==> (#[trigger] orcs@[i]).wf(),
            orcs@.len() < count ==> forall|x: int, y: int|
                clan_ground(world, x, y) ==> stands_on(orcs@, x, y),
    {
        let mut used_names: Vec<String> = Vec::new();
        let mut orcs: Vec<Orc> = Vec::new();
        let mut n: usize = 0;
        while n < count
            invariant
                world.wf(),
                n <= count,
                orcs@.len() == n,
                used_names@.len() == n,
                texts(used_names@) =~= names_of(orcs@),
                forall|i: int| 0 <= i < orcs@.len() ==> is_settler(world, orcs@, i),
                forall|i: int| 0 <= i < orcs@.len() ==> (#[trigger] orcs@[i]).wf(),
            decreases count - n,
        {
            let name = pick_name(rng, used_names.as_slice());
            match free_ground(world, &orcs, rng) {
                Some((x, y)) => {
                    let ghost before = orcs@;
                    let ghost names_before = used_names@;
                    used_names.push(name.clone());
                    orcs.push(Orc::new(name, x, y));
                    assert(orcs@.take(n as int) =~= before);
                    assert forall|i: int| 0 <= i < orcs@.len() implies texts(used_names@)[i]
                        == names_of(orcs@)[i] by {
                        if i < n {
                            assert(texts(names_before)[i] == names_of(before)[i]);
                        }
                    }
                    assert forall|i: int| 0 <= i < orcs@.len() implies is_settler(world, orcs@, i) by {
                        if i < n {
                            assert(is_settler(world, before, i));
                            assert(orcs@.take(i) =~= before.take(i));
                        }
                    }
                },
                None => {
                    return orcs;
                },
            }
            n += 1;
        }
        orcs
    }
}

fn wander_to(x: usize, y: usize, cx: usize, cy: usize, dx: i32, dy: i32) -> (r: (usize, usize))
    requires
        in_bounds(x as int, y as int),
        in_bounds(cx as int, cy as int),
        -WANDER_REACH <= dx <= WANDER_REACH,
        -WANDER_REACH <= dy <= WANDER_REACH,
    ensures
        (r.0 as int, r.1 as int) == wander_target(
            x as int,
            y as int,
            cx as int,
            cy as int,
            dx as int,
            dy as int,
        ),
        in_bounds(r.0 as int, r.1 as int),
{
    let nx = hold(hold(x as i32 + dx, cx as i32 - HOME_RANGE, cx as i32 + HOME_RANGE), 0, MAP_WIDTH as i32 - 1);
    let ny = hold(hold(y as i32 + dy, cy as i32 - HOME_RANGE, cy as i32 + HOME_RANGE), 0, MAP_HEIGHT as i32 - 1);
    (nx as usize, ny as usize)
}

fn hold(v: i32, low: i32, high: i32) -> (r: i32)
    requires
        low <= high,
    ensures
        r == clamp(v as int, low as int, high as int),
{
    if v < low {
        low
    } else if v > high {
        high
    } else {
        v
    }
}

} // verus!
