//! Wildlife: deer that flee from orcs, boars that do not, both wandering
//! about at random.

use crate::chance::{roll_range, roll_ratio};
use crate::color::Color;
use crate::event::EventLog;
use crate::text::join3;
use crate::world::{
    distance, in_bounds, manhattan, shift, shifted, Terrain, World, MAP_HEIGHT, MAP_WIDTH,
};
use rand::rngs::StdRng;
use vstd::prelude::*;

verus! {

/// A deer takes flight from an orc at this Manhattan distance or nearer.
pub const FLEE_RANGE: usize = 5;

/// How far a deer runs in one tick of flight, along each axis.
pub const FLEE_STRIDE: i32 = 2;

/// Animals are topped up every so many ticks.
pub const RESPAWN_INTERVAL: u64 = 200;

/// No animals are added while this many are alive.
pub const POPULATION_FLOOR: usize = 12;

/// Animals keep this far from the map's edges when they appear.
pub const SPAWN_MARGIN: usize = 5;

#[derive(Clone, Copy, PartialEq, Eq, Structural, Debug)]
pub enum AnimalKind {
    Deer,
    Boar,
}

impl AnimalKind {
    pub open spec fn spec_symbol(&self) -> char {
        match *self {
            AnimalKind::Deer => 'δ',
            AnimalKind::Boar => 'β',
        }
    }

    pub open spec fn spec_color(&self) -> Color {
        match *self {
            AnimalKind::Deer => Color::Rgb(180, 140, 80),
            AnimalKind::Boar => Color::Rgb(140, 100, 60),
        }
    }

    pub open spec fn spec_name(&self) -> Seq<char> {
        match *self {
            AnimalKind::Deer => "Deer"@,
            AnimalKind::Boar => "Boar"@,
        }
    }

    #[verifier::when_used_as_spec(spec_symbol)]
    pub fn symbol(&self) -> (c: char)
        ensures
            c == self.spec_symbol(),
    {
        match self {
            AnimalKind::Deer => 'δ',
            AnimalKind::Boar => 'β',
        }
    }

    #[verifier::when_used_as_spec(spec_color)]
    pub fn color(&self) -> (c: Color)
        ensures
            c == self.spec_color(),
    {
        match self {
            AnimalKind::Deer => Color::Rgb(180, 140, 80),
            AnimalKind::Boar => Color::Rgb(140, 100, 60),
        }
    }

    pub fn name(&self) -> (s: &'static str)
        ensures
            s@ == self.spec_name(),
    {
        match self {
            AnimalKind::Deer => "Deer",
            AnimalKind::Boar => "Boar",
        }
    }
}

pub struct Animal {
    pub kind: AnimalKind,
    pub x: usize,
    pub y: usize,
    pub alive: bool,
}

pub open spec fn signum(v: int) -> int {
    if v > 0 {
        1
    } else if v < 0 {
        -1
    } else {
        0
    }
}

/// Where a deer at `(x, y)` runs to from an orc at `(ox, oy)`: a stride
/// straight away along each axis on which they differ, held back at the
/// map's edges.
pub open spec fn flight(x: int, y: int, ox: int, oy: int) -> (int, int) {
    shifted(x, y, signum(x - ox) * FLEE_STRIDE, signum(y - oy) * FLEE_STRIDE)
}

/// `orcs[i]` is within flight range of `(x, y)`, no orc is nearer, and of
/// those just as near it comes first.
pub open spec fn is_threat(x: int, y: int, orcs: Seq<(usize, usize)>, i: int) -> bool {
    &&& 0 <= i < orcs.len()
    &&& manhattan(x, y, orcs[i].0 as int, orcs[i].1 as int) <= FLEE_RANGE
    &&& forall|j: int|
        0 <= j < orcs.len() && manhattan(x, y, (#[trigger] orcs[j]).0 as int, orcs[j].1 as int)
            <= FLEE_RANGE ==> {
            ||| manhattan(x, y, orcs[i].0 as int, orcs[i].1 as int) < manhattan(
                x,
                y,
                orcs[j].0 as int,
                orcs[j].1 as int,
            )
            ||| (manhattan(x, y, orcs[i].0 as int, orcs[i].1 as int) == manhattan(
                x,
                y,
                orcs[j].0 as int,
                orcs[j].1 as int,
            ) && i <= j)
        }
}

/// The text of the log line for a kill.
pub open spec fn hunted_message(kind: AnimalKind) -> Seq<char> {
    "A "@ + kind.spec_name() + " was hunted!"@
}

/// A tile fit for a new animal: walkable, away from the map's edges, and
/// more than `beyond` from the campfire.
pub open spec fn fit_to_spawn(world: &World, x: int, y: int, beyond: int) -> bool {
    &&& SPAWN_MARGIN <= x < MAP_WIDTH - SPAWN_MARGIN
    &&& SPAWN_MARGIN <= y < MAP_HEIGHT - SPAWN_MARGIN
    &&& world.spec_is_walkable(x, y)
    &&& manhattan(world.campfire_pos.0 as int, world.campfire_pos.1 as int, x, y) > beyond
}

/// How many of the animals are alive.
pub open spec fn living(animals: Seq<Animal>) -> nat
    decreases animals.len(),
{
    if animals.len() == 0 {
        0
    } else {
        living(animals.drop_last()) + if animals.last().alive {
            1nat
        } else {
            0nat
        }
    }
}

fn sign_of(a: usize, b: usize) -> (s: i32)
    ensures
        s == signum(a - b),
{
    if a > b {
        1
    } else if a < b {
        -1
    } else {
        0
    }
}

impl Animal {
    /// The animal stands on the map.
    pub open spec fn wf(&self) -> bool {
        in_bounds(self.x as int, self.y as int)
    }

    /// Checks that the animal stands on the map.
    pub fn is_well_formed(&self) -> (r: bool)
        ensures
            r == self.wf(),
    {
        self.x < MAP_WIDTH && self.y < MAP_HEIGHT
    }

    pub fn new(kind: AnimalKind, x: usize, y: usize) -> (a: Animal)
        ensures
            a.kind == kind,
            a.x == x,
            a.y == y,
            a.alive,
    {
        Animal { kind, x, y, alive: true }
    }

    /// The orc that a deer at this animal's place would flee from, as an
    /// index into `orcs`, if any orc is in range.
    fn nearest_threat(&self, orcs: &[(usize, usize)]) -> (r: Option<usize>)
        requires
            self.wf(),
            forall|i: int| 0 <= i < orcs@.len() ==> in_bounds((#[trigger] orcs@[i]).0 as int, orcs@[i].1 as int),
        ensures
            match r {
                Some(i) => is_threat(self.x as int, self.y as int, orcs@, i as int),
                None => forall|i: int| !is_threat(self.x as int, self.y as int, orcs@, i),
            },
    {
        let mut best: Option<(usize, usize)> = None;
        let mut i: usize = 0;
        while i < orcs.len()
            invariant
                self.wf(),
                forall|j: int|
                    0 <= j < orcs@.len() ==> in_bounds((#[trigger] orcs@[j]).0 as int, orcs@[j].1 as int),
                i <= orcs@.len(),
                match best {
                    None => forall|j: int|
                        0 <= j < i ==> manhattan(
                            self.x as int,
                            self.y as int,
                            (#[trigger] orcs@[j]).0 as int,
                            orcs@[j].1 as int,
                        ) > FLEE_RANGE,
                    Some((b, d)) => {
                        &&& b < i
                        &&& d == manhattan(self.x as int, self.y as int, orcs@[b as int].0 as int, orcs@[b as int].1 as int)
                        &&& d <= FLEE_RANGE
                        &&& forall|j: int|
                            0 <= j < i && manhattan(
                                self.x as int,
                                self.y as int,
                                (#[trigger] orcs@[j]).0 as int,
                                orcs@[j].1 as int,
                            ) <= FLEE_RANGE ==> d < manhattan(
                                self.x as int,
                                self.y as int,
                                orcs@[j].0 as int,
                                orcs@[j].1 as int,
                            ) || (d == manhattan(
                                self.x as int,
                                self.y as int,
                                orcs@[j].0 as int,
                                orcs@[j].1 as int,
                            ) && b <= j)
                    },
                },
            decreases orcs@.len() - i,
        {
            let (ox, oy) = orcs[i];
            let d = distance(self.x, self.y, ox, oy);
            if d <= FLEE_RANGE {
                let nearer = match best {
                    None => true,
                    Some(b) => d < b.1,
                };
                if nearer {
                    best = Some((i, d));
                }
            }
            i += 1;
        }
        match best {
            Some(b) => Some(b.0),
            None => None,
        }
    }

    /// A deer's flight from the orc at `(ox, oy)`: it runs to `flight(..)`
    /// if that tile can be walked on, and stays put otherwise.
    pub fn flee_from(&mut self, world: &World, ox: usize, oy: usize)
        requires
            world.wf(),
            old(self).wf(),
            in_bounds(ox as int, oy as int),
        ensures
            final(self).wf(),
            final(self).kind == old(self).kind,
            final(self).alive == old(self).alive,
            (final(self).x as int, final(self).y as int) == ({
                let to = flight(old(self).x as int, old(self).y as int, ox as int, oy as int);
                if world.spec_is_walkable(to.0, to.1) {
                    to
                } else {
                    (old(self).x as int, old(self).y as int)
                }
            }),
    {
        let dx = sign_of(self.x, ox);
        let dy = sign_of(self.y, oy);
        let (nx, ny) = shift(self.x, self.y, dx * FLEE_STRIDE, dy * FLEE_STRIDE);
        if world.is_walkable(nx, ny) {
            self.x = nx;
            self.y = ny;
        }
    }

    /// One step of wandering by the offset `(dx, dy)`, each of -1, 0 or 1:
    /// taken if the tile it leads to can be walked on.
    pub fn wander(&mut self, world: &World, dx: i32, dy: i32)
        requires
            world.wf(),
            old(self).wf(),
            -1 <= dx <= 1,
            -1 <= dy <= 1,
        ensures
            final(self).wf(),
            final(self).kind == old(self).kind,
            final(self).alive == old(self).alive,
            (final(self).x as int, final(self).y as int) == ({
                let to = shifted(old(self).x as int, old(self).y as int, dx as int, dy as int);
                if world.spec_is_walkable(to.0, to.1) {
                    to
                } else {
                    (old(self).x as int, old(self).y as int)
                }
            }),
    {
        let (nx, ny) = shift(self.x, self.y, dx, dy);
        if world.is_walkable(nx, ny) {
            self.x = nx;
            self.y = ny;
        }
    }

    /// What `update` may do: a dead animal does nothing; a deer with an orc
    /// in range flees from the nearest one and does nothing else; any other
    /// animal stays or takes one wandering step.
    pub open spec fn updated(&self, before: &Animal, world: &World, orcs: Seq<(usize, usize)>) -> bool {
        let x = before.x as int;
        let y = before.y as int;
        &&& self.kind == before.kind
        &&& self.alive == before.alive
        &&& if !before.alive {
            self.x == before.x && self.y == before.y
        } else if before.kind == AnimalKind::Deer && exists|i: int| is_threat(x, y, orcs, i) {
            let i = choose|i: int| is_threat(x, y, orcs, i);
            let to = flight(x, y, orcs[i].0 as int, orcs[i].1 as int);
            (self.x as int, self.y as int) == if world.spec_is_walkable(to.0, to.1) {
                to
            } else {
                (x, y)
            }
        } else {
            ||| self.x == before.x && self.y == before.y
            ||| exists|dx: int, dy: int|
                -1 <= dx <= 1 && -1 <= dy <= 1 && #[trigger] shifted(x, y, dx, dy) == (
                    self.x as int,
                    self.y as int,
                ) && world.spec_is_walkable(self.x as int, self.y as int)
        }
    }

    /// Lets the animal act for one tick. `orcs` holds the places of the
    /// living orcs.
    pub fn update(&mut self, world: &World, orcs: &[(usize, usize)], rng: &mut StdRng)
        requires
            world.wf(),
            old(self).wf(),
            forall|i: int| 0 <= i < orcs@.len() ==> in_bounds((#[trigger] orcs@[i]).0 as int, orcs@[i].1 as int),
        ensures
            final(self).wf(),
            final(self).updated(old(self), world, orcs@),
    {
        if !self.alive {
            return ;
        }
        if self.kind == AnimalKind::Deer {
            match self.nearest_threat(orcs) {
                Some(i) => {
                    proof {
                        lemma_threat_unique(self.x as int, self.y as int, orcs@, i as int);
                    }
                    let (ox, oy) = orcs[i];
                    self.flee_from(world, ox, oy);
                    return ;
                },
                None => {},
            }
        }
        let moves = match self.kind {
            AnimalKind::Deer => roll_ratio(rng, 2, 5),
            AnimalKind::Boar => roll_ratio(rng, 1, 5),
        };
        if moves {
            let dx: i32 = roll_range(rng, 0, 3) as i32 - 1;
            let dy: i32 = roll_range(rng, 0, 3) as i32 - 1;
            self.wander(world, dx, dy);
            proof {
                let to = shifted(old(self).x as int, old(self).y as int, dx as int, dy as int);
                if world.spec_is_walkable(to.0, to.1) {
                    assert(shifted(old(self).x as int, old(self).y as int, dx as int, dy as int) == (
                        self.x as int,
                        self.y as int,
                    ));
                }
            }
        }
    }

    /// What `kill` does to the animal, the world and the log.
    pub open spec fn killed(
        &self,
        before: &Animal,
        world: &World,
        world_before: &World,
        log: &EventLog,
        log_before: &EventLog,
        tick: u64,
    ) -> bool {
        let x = before.x as int;
        let y = before.y as int;
        &&& !self.alive
        &&& self.kind == before.kind
        &&& self.x == before.x
        &&& self.y == before.y
        &&& world.same_ledger(world_before)
        &&& world.same_tiles_but(world_before, x, y)
        &&& world.tile(x, y) == if world_before.tile(x, y) == Terrain::Grass {
            Terrain::Food
        } else {
            world_before.tile(x, y)
        }
        &&& log.max_events == log_before.max_events
        &&& log@ == log_before.with(tick, hunted_message(before.kind), Color::Rgb(180, 140, 80))
    }

    /// The animal dies. On grass it leaves food behind; the log tells of
    /// the hunt.
    pub fn kill(&mut self, world: &mut World, log: &mut EventLog, tick: u64)
        requires
            old(world).wf(),
            old(self).wf(),
        ensures
            final(world).wf(),
            final(self).wf(),
            final(self).killed(old(self), final(world), old(world), final(log), old(log), tick),
    {
        self.alive = false;
        if world.get(self.x, self.y) == Terrain::Grass {
            world.set(self.x, self.y, Terrain::Food);
        }
        log.log(tick, join3("A ", self.kind.name(), " was hunted!"), Color::Rgb(180, 140, 80));
    }
}

/// At most one orc is the threat a deer flees from.
pub proof fn lemma_threat_unique(x: int, y: int, orcs: Seq<(usize, usize)>, i: int)
    requires
        is_threat(x, y, orcs, i),
    ensures
        forall|j: int| is_threat(x, y, orcs, j) ==> j == i,
        (choose|j: int| is_threat(x, y, orcs, j)) == i,
{
    assert forall|j: int| is_threat(x, y, orcs, j) implies j == i by {
        let a = orcs[i];
        let b = orcs[j];
    }
}

/// A living deer with an orc in range does nothing in a tick but flee from
/// the nearest such orc: it ends two tiles farther from it along each axis
/// on which they differ, as far as the map reaches, or stays where it is if
/// it cannot walk on that tile.
pub proof fn lemma_deer_flees(
    after: Animal,
    before: Animal,
    world: &World,
    orcs: Seq<(usize, usize)>,
    i: int,
)
    requires
        before.alive,
        before.kind == AnimalKind::Deer,
        is_threat(before.x as int, before.y as int, orcs, i),
        after.updated(&before, world, orcs),
    ensures
        ({
            let to = flight(before.x as int, before.y as int, orcs[i].0 as int, orcs[i].1 as int);
            (after.x as int, after.y as int) == if world.spec_is_walkable(to.0, to.1) {
                to
            } else {
                (before.x as int, before.y as int)
            }
        }),
        after.alive,
        after.kind == before.kind,
{
    lemma_threat_unique(before.x as int, before.y as int, orcs, i);
}

/// Whether a new animal may appear at `(x, y)`.
pub fn can_spawn_at(world: &World, x: usize, y: usize, beyond: usize) -> (r: bool)
    requires
        world.wf(),
    ensures
        r == fit_to_spawn(world, x as int, y as int, beyond as int),
{
    if x < SPAWN_MARGIN || x >= MAP_WIDTH - SPAWN_MARGIN || y < SPAWN_MARGIN || y >= MAP_HEIGHT
        - SPAWN_MARGIN {
        return false;
    }
    let (cx, cy) = world.campfire_pos;
    distance(cx, cy, x, y) > beyond && world.is_walkable(x, y)
}

/// Some tile that may be drawn for a new animal is unfit, so that a draw
/// can miss.
pub open spec fn can_miss(world: &World, beyond: int) -> bool {
    exists|x: int, y: int|
        SPAWN_MARGIN <= x < MAP_WIDTH - SPAWN_MARGIN && SPAWN_MARGIN <= y < MAP_HEIGHT
            - SPAWN_MARGIN && !#[trigger] fit_to_spawn(world, x, y, beyond)
}

/// Draws up to `tries` tiles away from the map's edges and returns the
/// first that is fit for a new animal. It finds none only if it has no
/// draw, or a tile that it may draw is unfit.
fn place_far(world: &World, rng: &mut StdRng, tries: usize, beyond: usize) -> (r: Option<(usize, usize)>)
    requires
        world.wf(),
    ensures
        r matches Some((x, y)) ==> fit_to_spawn(world, x as int, y as int, beyond as int),
        r is None ==> tries == 0 || can_miss(world, beyond as int),
{
    let mut n: usize = 0;
    while n < tries
        invariant
            world.wf(),
            n <= tries,
            n > 0 ==> can_miss(world, beyond as int),
        decreases tries - n,
    {
        let x = roll_range(rng, SPAWN_MARGIN, MAP_WIDTH - SPAWN_MARGIN);
        let y = roll_range(rng, SPAWN_MARGIN, MAP_HEIGHT - SPAWN_MARGIN);
        if can_spawn_at(world, x, y, beyond) {
            return Some((x, y));
        }
        assert(!fit_to_spawn(world, x as int, y as int, beyond as int));
        n += 1;
    }
    None
}

/// The kind of a new animal, given the draw that decides it.
pub open spec fn spec_kind_for(deer: bool) -> AnimalKind {
    if deer {
        AnimalKind::Deer
    } else {
        AnimalKind::Boar
    }
}

#[verifier::when_used_as_spec(spec_kind_for)]
pub fn kind_for(deer: bool) -> (kind: AnimalKind)
    ensures
        kind == spec_kind_for(deer),
{
    if deer {
        AnimalKind::Deer
    } else {
        AnimalKind::Boar
    }
}

/// Draws the kind of a new animal: a deer three times in five, else a boar.
fn roll_kind(rng: &mut StdRng) -> AnimalKind {
    kind_for(roll_ratio(rng, 3, 5))
}

/// The herd once an animal of the given kind has joined it at `spot`; the
/// herd as it was where no spot was found.
pub open spec fn joined(herd: Seq<Animal>, kind: AnimalKind, spot: Option<(usize, usize)>) -> Seq<Animal> {
    match spot {
        Some((x, y)) => herd.push(Animal { kind, x, y, alive: true }),
        None => herd,
    }
}

/// Lets a new animal of the given kind join the herd at `spot`, if a spot
/// was found for it.
pub fn join(animals: &mut Vec<Animal>, kind: AnimalKind, spot: Option<(usize, usize)>)
    ensures
        final(animals)@ == joined(old(animals)@, kind, spot),
{
    match spot {
        Some((x, y)) => {
            animals.push(Animal::new(kind, x, y));
        },
        None => {},
    }
}

fn count_living(animals: &Vec<Animal>) -> (n: usize)
    ensures
        n == living(animals@),
{
    let mut n: usize = 0;
    let mut i: usize = 0;
    while i < animals.len()
        invariant
            i <= animals.len(),
            n == living(animals@.take(i as int)),
            n <= i,
        decreases animals.len() - i,
    {
        assert(animals@.take(i + 1).drop_last() =~= animals@.take(i as int));
        if animals[i].alive {
            n += 1;
        }
        i += 1;
    }
    assert(animals@.take(i as int) =~= animals@);
    n
}

/// The animals from index `from` on are alive and stand where new animals
/// may appear.
pub open spec fn newcomers(animals: Seq<Animal>, from: int, world: &World, beyond: int) -> bool {
    forall|i: int|
        from <= i < animals.len() ==> (#[trigger] animals[i]).alive && fit_to_spawn(
            world,
            animals[i].x as int,
            animals[i].y as int,
            beyond,
        )
}

impl Animal {
    /// The first animals of a new world: up to twelve, each on a walkable
    /// tile more than 15 from the campfire. Eight to twelve are tried, as
    /// drawn, and one for which a hundred draws find no fit tile is left
    /// out; so how many there are rests on the draws alone.
    pub fn spawn_initial(world: &World, rng: &mut StdRng) -> (animals: Vec<Animal>)
        requires
            world.wf(),
        ensures
            animals@.len() <= 12,
            newcomers(animals@, 0, world, 15),
    {
        let mut animals: Vec<Animal> = Vec::new();
        let count = roll_range(rng, 8, 13);
        let mut n: usize = 0;
        while n < count
            invariant
                world.wf(),
                n <= count,
                animals@.len() <= n,
                newcomers(animals@, 0, world, 15),
            decreases count - n,
        {
            let kind = roll_kind(rng);
            let spot = place_far(world, rng, 100, 15);
            join(&mut animals, kind, spot);
            n += 1;
        }
        animals
    }
}

/// What `try_respawn` may do: on a tick that is a multiple of
/// `RESPAWN_INTERVAL`, with fewer than `POPULATION_FLOOR` animals alive, up to
/// three animals join, each on a walkable tile more than 20 from the
/// campfire; on any other occasion nothing changes.
pub open spec fn respawned(animals: Seq<Animal>, before: Seq<Animal>, world: &World, tick: u64) -> bool {
    &&& before.len() <= animals.len() <= before.len() + 3
    &&& animals.take(before.len() as int) == before
    &&& newcomers(animals, before.len() as int, world, 20)
    &&& (tick % RESPAWN_INTERVAL != 0 || living(before) >= POPULATION_FLOOR ==> animals == before)
}

pub fn try_respawn(animals: &mut Vec<Animal>, world: &World, rng: &mut StdRng, tick: u64)
    requires
        world.wf(),
    ensures
        respawned(final(animals)@, old(animals)@, world, tick),
{
    assert(animals@.take(animals@.len() as int) =~= animals@);
    if tick % RESPAWN_INTERVAL != 0 {
        return ;
    }
    if count_living(animals) >= POPULATION_FLOOR {
        return ;
    }
    let spawn_count = roll_range(rng, 1, 4);
    let mut n: usize = 0;
    while n < spawn_count
        invariant
            world.wf(),
            n <= spawn_count <= 3,
            old(animals)@.len() <= animals@.len() <= old(animals)@.len() + n,
            animals@.take(old(animals)@.len() as int) == old(animals)@,
            newcomers(animals@, old(animals)@.len() as int, world, 20),
        decreases spawn_count - n,
    {
        let kind = roll_kind(rng);
        match place_far(world, rng, 50, 20) {
            Some((x, y)) => {
                let ghost so_far = animals@;
                animals.push(Animal::new(kind, x, y));
                assert(animals@.take(old(animals)@.len() as int) =~= so_far.take(
                    old(animals)@.len() as int,
                ));
            },
            None => {},
        }
        n += 1;
    }
}

} // verus!
