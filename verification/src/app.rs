//! The village as a whole: the world, its orcs and animals, the event log,
//! the clock, and what the player steers. `App::tick` advances everything
//! by one tick, in a fixed order.

use crate::animal::{fit_to_spawn, newcomers, respawned, try_respawn, Animal};
use crate::color::Color;
use crate::event::{Entry, EventLog, DEFAULT_CAPACITY};
use crate::orc::{
    clan_ground, herd_wf, is_new_name, is_settler, is_spot_near, names_of, newborn, pick_name,
    spot_near, stands_on, texts, Orc, Scene,
};
use crate::text::{decimal, push_decimal, push_str};
use crate::world::{
    clamp, in_bounds, Terrain, World, INITIAL_STOCKPILE, MAP_HEIGHT, MAP_WIDTH, REGROWTH_DELAY,
};
use rand::rngs::StdRng;
use vstd::prelude::*;

verus! {

/// No orc is born while this many are alive.
pub const MAX_CLAN_SIZE: usize = 15;

/// How many orcs found the clan.
pub const FOUNDERS: usize = 5;

/// A day and its night last this many ticks.
pub const DAY_LENGTH: u64 = 100;

/// The tick of a day at which night falls.
pub const NIGHTFALL: u64 = 60;

/// A dead orc is kept for this many ticks.
pub const TOMBSTONE_TICKS: u64 = 20;

/// Births are considered every so many ticks.
pub const BIRTH_INTERVAL: u64 = 300;

pub const MAX_SPEED: u32 = 10;

pub struct App {
    pub world: World,
    pub orcs: Vec<Orc>,
    pub animals: Vec<Animal>,
    pub event_log: EventLog,
    pub tick: u64,
    pub paused: bool,
    pub speed: u32,
    pub cursor_x: usize,
    pub cursor_y: usize,
    pub camera_x: usize,
    pub camera_y: usize,
    pub selected_orc: Option<usize>,
    pub should_quit: bool,
    pub rng: StdRng,
}

/// Every orc is well formed and none died later than at `tick`.
pub open spec fn clan_wf(orcs: Seq<Orc>, tick: u64) -> bool {
    forall|i: int|
        0 <= i < orcs.len() ==> (#[trigger] orcs[i]).wf() && (orcs[i].death_tick matches Some(t)
            ==> t <= tick)
}

/// Where the camera stands along one axis: so that the cursor is in the
/// middle of the viewport, but never beyond the map's edges.
pub open spec fn camera_for(cursor: int, viewport: int, extent: int) -> int {
    let half = viewport / 2;
    if cursor < half {
        0
    } else if cursor + half >= extent {
        if extent >= viewport {
            extent - viewport
        } else {
            0
        }
    } else {
        cursor - half
    }
}

/// `r` is the first living orc at or after index `from`, if there is one.
pub open spec fn is_next_living(orcs: Seq<Orc>, from: int, r: Option<usize>) -> bool {
    match r {
        Some(i) => from <= i < orcs.len() && orcs[i as int].alive && forall|j: int|
            from <= j < i ==> !(#[trigger] orcs[j]).alive,
        None => forall|j: int| from <= j < orcs.len() ==> !(#[trigger] orcs[j]).alive,
    }
}

/// The text of the log line for food dropped at `(x, y)`.
pub open spec fn drop_message(x: usize, y: usize) -> Seq<char> {
    "Food dropped at ("@ + decimal(x as nat) + ", "@ + decimal(y as nat) + ")"@
}

/// The log of a new village: a line for the settling, then a line for each
/// founder in turn.
pub open spec fn founding_log(orcs: Seq<Orc>) -> Seq<Entry> {
    seq![
        Entry { tick: 0, message: "A clan of orcs settles in a new land..."@, color: Color::White },
    ] + Seq::new(
        orcs.len(),
        |i: int| Entry { tick: 0, message: orcs[i].name@ + " joins the clan"@, color: Color::Green },
    )
}

fn step_within(at: usize, by: i32, extent: usize) -> (r: usize)
    requires
        0 < extent <= 1000,
        at < extent,
    ensures
        r == clamp(at + by, 0, extent - 1),
        r < extent,
{
    let to: i64 = at as i64 + by as i64;
    if to < 0 {
        0
    } else if to > extent as i64 - 1 {
        extent - 1
    } else {
        to as usize
    }
}

fn camera_along(cursor: usize, viewport: usize, extent: usize) -> (r: usize)
    requires
        cursor < extent <= 1000,
    ensures
        r == camera_for(cursor as int, viewport as int, extent as int),
{
    let half = viewport / 2;
    if cursor < half {
        0
    } else if cursor + half >= extent {
        extent.saturating_sub(viewport)
    } else {
        cursor - half
    }
}

/// The log line that opens the given day.
pub open spec fn day_message(day: u64) -> Seq<char> {
    "=== Day "@ + decimal(day as nat) + " begins ==="@
}

/// The log once the clock has struck `tick`: a line more at daybreak and at
/// nightfall.
pub open spec fn heralded(log: &EventLog, tick: u64) -> Seq<Entry> {
    if tick % DAY_LENGTH == 0 {
        log.with(tick, day_message((tick / DAY_LENGTH + 1) as u64), Color::White)
    } else if tick % DAY_LENGTH == NIGHTFALL {
        log.with(tick, "Night falls..."@, Color::Blue)
    } else {
        log@
    }
}

/// Where the living orcs stand, in the order of the orcs.
pub open spec fn places(orcs: Seq<Orc>) -> Seq<(usize, usize)>
    decreases orcs.len(),
{
    if orcs.len() == 0 {
        Seq::empty()
    } else if orcs.last().alive {
        places(orcs.drop_last()).push((orcs.last().x, orcs.last().y))
    } else {
        places(orcs.drop_last())
    }
}

/// Every animal has acted for a tick, seeing the orcs at `orcs`.
pub open spec fn herd_moved(
    animals: Seq<Animal>,
    before: Seq<Animal>,
    world: &World,
    orcs: Seq<(usize, usize)>,
) -> bool {
    &&& animals.len() == before.len()
    &&& forall|i: int|
        0 <= i < animals.len() ==> (#[trigger] animals[i]).updated(&before[i], world, orcs)
}

/// The orcs that stay after a tick: the living, and the dead until they
/// have lain for `TOMBSTONE_TICKS`.
pub open spec fn lingers(tick: u64) -> spec_fn(Orc) -> bool {
    |o: Orc| o.alive || o.death_tick is None || tick - o.death_tick->0 < TOMBSTONE_TICKS
}

pub open spec fn is_alive() -> spec_fn(Animal) -> bool {
    |a: Animal| a.alive
}

/// The selection once only `len` orcs are left: as it was if that orc is
/// still there, else the last orc, if any.
pub open spec fn reselected(selected: Option<usize>, len: int) -> Option<usize> {
    match selected {
        Some(i) if i >= len => if len == 0 {
            None
        } else {
            Some((len - 1) as usize)
        },
        _ => selected,
    }
}

/// Announces daybreak and nightfall.
fn herald(log: &mut EventLog, tick: u64)
    ensures
        final(log).max_events == old(log).max_events,
        final(log)@ == heralded(old(log), tick),
{
    let time_of_day = tick % DAY_LENGTH;
    if time_of_day == 0 {
        let mut message = "=== Day ".to_owned();
        push_decimal(&mut message, tick / DAY_LENGTH + 1);
        push_str(&mut message, " begins ===");
        assert(message@ =~= day_message((tick / DAY_LENGTH + 1) as u64));
        log.log(tick, message, Color::White);
    } else if time_of_day == NIGHTFALL {
        log.log(tick, "Night falls...".to_owned(), Color::Blue);
    }
}

fn living_places(orcs: &Vec<Orc>) -> (r: Vec<(usize, usize)>)
    requires
        forall|i: int| 0 <= i < orcs@.len() ==> (#[trigger] orcs@[i]).wf(),
    ensures
        r@ == places(orcs@),
        forall|i: int| 0 <= i < r@.len() ==> in_bounds((#[trigger] r@[i]).0 as int, r@[i].1 as int),
{
    let mut r: Vec<(usize, usize)> = Vec::new();
    let mut i: usize = 0;
    while i < orcs.len()
        invariant
            i <= orcs@.len(),
            forall|j: int| 0 <= j < orcs@.len() ==> (#[trigger] orcs@[j]).wf(),
            r@ == places(orcs@.take(i as int)),
            forall|j: int| 0 <= j < r@.len() ==> in_bounds((#[trigger] r@[j]).0 as int, r@[j].1 as int),
        decreases orcs@.len() - i,
    {
        assert(orcs@.take(i + 1).drop_last() =~= orcs@.take(i as int));
        assert(orcs@[i as int].wf());
        if orcs[i].alive {
            r.push((orcs[i].x, orcs[i].y));
        }
        i += 1;
    }
    assert(orcs@.take(i as int) =~= orcs@);
    r
}

/// Lets every animal act for a tick.
fn move_herd(animals: &mut Vec<Animal>, world: &World, orcs: &[(usize, usize)], rng: &mut StdRng)
    requires
        world.wf(),
        herd_wf(old(animals)@),
        forall|i: int| 0 <= i < orcs@.len() ==> in_bounds((#[trigger] orcs@[i]).0 as int, orcs@[i].1 as int),
    ensures
        herd_wf(final(animals)@),
        herd_moved(final(animals)@, old(animals)@, world, orcs@),
{
    let mut i: usize = 0;
    while i < animals.len()
        invariant
            world.wf(),
            i <= animals@.len(),
            animals@.len() == old(animals)@.len(),
            herd_wf(animals@),
            forall|j: int|
                0 <= j < orcs@.len() ==> in_bounds((#[trigger] orcs@[j]).0 as int, orcs@[j].1 as int),
            forall|j: int|
                0 <= j < i ==> (#[trigger] animals@[j]).updated(&old(animals)@[j], world, orcs@),
            forall|j: int| i <= j < animals@.len() ==> animals@[j] == old(animals)@[j],
        decreases animals@.len() - i,
    {
        assert(animals@[i as int].wf());
        animals[i].update(world, orcs, rng);
        i += 1;
    }
}

/// Removes the dead orcs whose time is up.
fn bury(orcs: &mut Vec<Orc>, tick: u64)
    requires
        clan_wf(old(orcs)@, tick),
    ensures
        final(orcs)@ == old(orcs)@.filter(lingers(tick)),
        clan_wf(final(orcs)@, tick),
{
    let ghost mut k: int = 0;
    let mut i: usize = 0;
    while i < orcs.len()
        invariant
            0 <= k <= old(orcs)@.len(),
            i <= orcs@.len(),
            orcs@.len() - i == old(orcs)@.len() - k,
            clan_wf(old(orcs)@, tick),
            clan_wf(orcs@, tick),
            orcs@.take(i as int) == old(orcs)@.take(k).filter(lingers(tick)),
            orcs@.skip(i as int) == old(orcs)@.skip(k),
        decreases orcs@.len() - i,
    {
        let ghost so_far = orcs@;
        let ghost i0 = i as int;
        proof {
            assert(so_far.skip(i as int)[0] == old(orcs)@.skip(k)[0]);
            let upto = old(orcs)@.take(k + 1);
            assert(upto.drop_last() == old(orcs)@.take(k));
            assert(upto.last() == so_far[i as int]);
            reveal(Seq::filter);
        }
        assert(orcs@[i as int].wf());
        let stays = orcs[i].alive || match orcs[i].death_tick {
            None => true,
            Some(t) => tick - t < TOMBSTONE_TICKS,
        };
        if stays {
            i += 1;
            assert(orcs@.take(i as int) =~= so_far.take(i - 1).push(so_far[i - 1]));
        } else {
            orcs.remove(i);
            assert(orcs@.take(i as int) =~= so_far.take(i as int));
        }
        proof {
            assert forall|j: int| 0 <= j < orcs@.len() - i implies orcs@.skip(i as int)[j] == old(
                orcs,
            )@.skip(k + 1)[j] by {
                assert(so_far.skip(i0)[j + 1] == old(orcs)@.skip(k)[j + 1]);
            }
            k = k + 1;
        }
        assert(orcs@.skip(i as int) =~= old(orcs)@.skip(k));
    }
    assert(orcs@.take(i as int) =~= orcs@);
    assert(old(orcs)@.take(k) =~= old(orcs)@);
}

/// Removes the dead animals.
fn cull(animals: &mut Vec<Animal>)
    requires
        herd_wf(old(animals)@),
    ensures
        final(animals)@ == old(animals)@.filter(is_alive()),
        herd_wf(final(animals)@),
{
    let ghost mut k: int = 0;
    let mut i: usize = 0;
    while i < animals.len()
        invariant
            0 <= k <= old(animals)@.len(),
            i <= animals@.len(),
            animals@.len() - i == old(animals)@.len() - k,
            herd_wf(animals@),
            animals@.take(i as int) == old(animals)@.take(k).filter(is_alive()),
            animals@.skip(i as int) == old(animals)@.skip(k),
        decreases animals@.len() - i,
    {
        let ghost so_far = animals@;
        let ghost i0 = i as int;
        proof {
            assert(so_far.skip(i as int)[0] == old(animals)@.skip(k)[0]);
            let upto = old(animals)@.take(k + 1);
            assert(upto.drop_last() == old(animals)@.take(k));
            assert(upto.last() == so_far[i as int]);
            reveal(Seq::filter);
        }
        if animals[i].alive {
            i += 1;
            assert(animals@.take(i as int) =~= so_far.take(i - 1).push(so_far[i - 1]));
        } else {
            animals.remove(i);
            assert(animals@.take(i as int) =~= so_far.take(i as int));
        }
        proof {
            assert forall|j: int| 0 <= j < animals@.len() - i implies animals@.skip(i as int)[j] == old(
                animals,
            )@.skip(k + 1)[j] by {
                assert(so_far.skip(i0)[j + 1] == old(animals)@.skip(k)[j + 1]);
            }
            k = k + 1;
        }
        assert(animals@.skip(i as int) =~= old(animals)@.skip(k));
    }
    assert(animals@.take(i as int) =~= animals@);
    assert(old(animals)@.take(k) =~= old(animals)@);
}

/// Keeps the selection on an orc that exists.
fn reselect(selected: Option<usize>, len: usize) -> (r: Option<usize>)
    ensures
        r == reselected(selected, len as int),
        r matches Some(i) ==> i < len,
{
    match selected {
        Some(i) => {
            if i >= len {
                if len == 0 {
                    None
                } else {
                    Some(len - 1)
                }
            } else {
                selected
            }
        },
        None => None,
    }
}

/// The parts of the village that the tick of an orc can change.
pub ghost struct Village {
    pub orcs: Seq<Orc>,
    pub world: World,
    pub animals: Seq<Animal>,
    pub log: EventLog,
}

pub open spec fn village(orcs: &Vec<Orc>, world: &World, animals: &Vec<Animal>, log: &EventLog) -> Village {
    Village { orcs: orcs@, world: *world, animals: animals@, log: *log }
}

impl Village {
    /// Orc `k` and what is around it.
    pub open spec fn scene_of(self, k: int) -> Scene {
        Scene { orc: self.orcs[k]@, world: self.world, herd: self.animals, log: self.log }
    }

    /// `self` is `before` after orc `k` has had its tick. The other orcs
    /// are as they were.
    pub open spec fn one_ticked(self, before: Village, k: int, tick: u64, is_night: bool) -> bool {
        &&& self.orcs.len() == before.orcs.len()
        &&& forall|j: int| 0 <= j < self.orcs.len() && j != k ==> self.orcs[j] == before.orcs[j]
        &&& self.scene_of(k).ticked(before.scene_of(k), tick, is_night)
    }

    /// `self` is `before` after every orc has had its tick, in the order of
    /// the orcs; `trail[k]` is the village as orc `k` found it.
    pub open spec fn all_ticked_along(
        self,
        before: Village,
        trail: Seq<Village>,
        tick: u64,
        is_night: bool,
    ) -> bool {
        &&& trail.len() == before.orcs.len() + 1
        &&& trail[0] == before
        &&& trail.last() == self
        &&& forall|k: int|
            0 <= k < before.orcs.len() ==> trail[k + 1].one_ticked(#[trigger] trail[k], k, tick, is_night)
    }

    /// `self` is `before` after every orc has had its tick, one after the
    /// other, each finding the village as the orcs before it left it.
    pub open spec fn all_ticked(self, before: Village, tick: u64, is_night: bool) -> bool {
        exists|trail: Seq<Village>| self.all_ticked_along(before, trail, tick, is_night)
    }
}

/// Lets every orc live through a tick, in the order of the orcs.
fn tick_clan(
    orcs: &mut Vec<Orc>,
    world: &mut World,
    animals: &mut Vec<Animal>,
    rng: &mut StdRng,
    log: &mut EventLog,
    tick: u64,
    is_night: bool,
)
    requires
        clan_wf(old(orcs)@, tick),
        old(world).wf(),
        herd_wf(old(animals)@),
        tick + REGROWTH_DELAY <= u64::MAX,
        old(world).food_stockpile + old(orcs)@.len() <= u32::MAX,
    ensures
        clan_wf(final(orcs)@, tick),
        final(world).wf(),
        herd_wf(final(animals)@),
        final(log).max_events == old(log).max_events,
        village(final(orcs), final(world), final(animals), final(log)).all_ticked(
            village(old(orcs), old(world), old(animals), old(log)),
            tick,
            is_night,
        ),
{
    let ghost start = village(orcs, world, animals, log);
    let ghost mut trail = seq![start];
    let num = orcs.len();
    let mut i: usize = 0;
    while i < num
        invariant
            i <= num,
            num == orcs@.len(),
            num == start.orcs.len(),
            clan_wf(orcs@, tick),
            world.wf(),
            herd_wf(animals@),
            tick + REGROWTH_DELAY <= u64::MAX,
            world.food_stockpile + (num - i) <= u32::MAX,
            log.max_events == old(log).max_events,
            trail.len() == i + 1,
            trail[0] == start,
            trail.last() == village(orcs, world, animals, log),
            forall|k: int| 0 <= k < i ==> trail[k + 1].one_ticked(#[trigger] trail[k], k, tick, is_night),
        decreases num - i,
    {
        let ghost before = village(orcs, world, animals, log);
        assert(orcs@[i as int].wf());
        orcs[i].update(world, animals, rng, log, tick, is_night);
        proof {
            let after = village(orcs, world, animals, log);
            assert(after.one_ticked(before, i as int, tick, is_night));
            trail = trail.push(after);
        }
        i += 1;
    }
    assert(village(orcs, world, animals, log).all_ticked_along(start, trail, tick, is_night));
}

/// How many of the orcs are alive.
pub open spec fn headcount(orcs: Seq<Orc>) -> nat
    decreases orcs.len(),
{
    if orcs.len() == 0 {
        0
    } else {
        headcount(orcs.drop_last()) + if orcs.last().alive {
            1nat
        } else {
            0nat
        }
    }
}

/// The hunger of the living orcs, summed.
pub open spec fn total_hunger(orcs: Seq<Orc>) -> nat
    decreases orcs.len(),
{
    if orcs.len() == 0 {
        0
    } else {
        total_hunger(orcs.drop_last()) + if orcs.last().alive {
            orcs.last().hunger as nat
        } else {
            0nat
        }
    }
}

/// The energy of the living orcs, summed.
pub open spec fn total_energy(orcs: Seq<Orc>) -> nat
    decreases orcs.len(),
{
    if orcs.len() == 0 {
        0
    } else {
        total_energy(orcs.drop_last()) + if orcs.last().alive {
            orcs.last().energy as nat
        } else {
            0nat
        }
    }
}

/// An orc is born when at least two and fewer than `MAX_CLAN_SIZE` orcs
/// are alive, their hunger is below 40 points and their energy above 40
/// points on average, and the stockpile holds food.
pub open spec fn birth_due(orcs: Seq<Orc>, world: &World) -> bool {
    let n = headcount(orcs);
    &&& 2 <= n < MAX_CLAN_SIZE
    &&& total_hunger(orcs) < 400 * n
    &&& total_energy(orcs) > 400 * n
    &&& world.food_stockpile > 0
}

/// What the birth check does: where a birth is due, a unit of the
/// stockpile is used up and a newborn orc with a new name joins the orcs,
/// near the campfire, and the log tells of it; else nothing changes.
pub open spec fn born(after: Village, before: Village, tick: u64) -> bool {
    if birth_due(before.orcs, &before.world) {
        let child = after.orcs.last();
        &&& after.animals == before.animals
        &&& after.world.same_tiles(&before.world)
        &&& after.world.campfire_pos == before.world.campfire_pos
        &&& after.world.regrowth_timers@ == before.world.regrowth_timers@
        &&& after.world.food_stockpile == before.world.food_stockpile - 1
        &&& after.orcs.len() == before.orcs.len() + 1
        &&& after.orcs.drop_last() == before.orcs
        &&& child@ == newborn(child.name@, child.x, child.y)
        &&& is_new_name(names_of(before.orcs), child.name@)
        &&& is_spot_near(
            &before.world,
            before.world.campfire_pos.0 as int,
            before.world.campfire_pos.1 as int,
            child.x as int,
            child.y as int,
        )
        &&& after.log.max_events == before.log.max_events
        &&& after.log@ == before.log.with(
            tick,
            child.name@ + " is born into the clan!"@,
            Color::LightGreen,
        )
    } else {
        after == before
    }
}

/// Animals that have joined a well-formed herd leave it well formed.
pub proof fn lemma_newcomers_wf(animals: Seq<Animal>, before: Seq<Animal>, world: &World, tick: u64)
    requires
        herd_wf(before),
        respawned(animals, before, world, tick),
    ensures
        herd_wf(animals),
{
    assert forall|i: int| 0 <= i < animals.len() implies (#[trigger] animals[i]).wf() by {
        if i < before.len() {
            assert(animals.take(before.len() as int)[i] == before[i]);
        } else {
            assert(fit_to_spawn(world, animals[i].x as int, animals[i].y as int, 20));
        }
    }
}

/// Counts the living orcs.
pub fn count_living(orcs: &Vec<Orc>) -> (n: usize)
    ensures
        n == headcount(orcs@),
{
    let mut n: usize = 0;
    let mut i: usize = 0;
    while i < orcs.len()
        invariant
            i <= orcs@.len(),
            n <= i,
            n == headcount(orcs@.take(i as int)),
        decreases orcs@.len() - i,
    {
        assert(orcs@.take(i + 1).drop_last() =~= orcs@.take(i as int));
        if orcs[i].alive {
            n += 1;
        }
        i += 1;
    }
    assert(orcs@.take(i as int) =~= orcs@);
    n
}

/// Sums hunger and energy over the living orcs.
fn sum_needs(orcs: &Vec<Orc>) -> (r: (u64, u64))
    requires
        forall|i: int| 0 <= i < orcs@.len() ==> (#[trigger] orcs@[i]).wf(),
        headcount(orcs@) < MAX_CLAN_SIZE,
    ensures
        r.0 == total_hunger(orcs@),
        r.1 == total_energy(orcs@),
{
    let mut hunger: u64 = 0;
    let mut energy: u64 = 0;
    let mut i: usize = 0;
    while i < orcs.len()
        invariant
            i <= orcs@.len(),
            forall|j: int| 0 <= j < orcs@.len() ==> (#[trigger] orcs@[j]).wf(),
            headcount(orcs@) < MAX_CLAN_SIZE,
            headcount(orcs@.take(i as int)) <= headcount(orcs@),
            hunger == total_hunger(orcs@.take(i as int)),
            energy == total_energy(orcs@.take(i as int)),
            hunger <= 1000 * headcount(orcs@.take(i as int)),
            energy <= 1000 * headcount(orcs@.take(i as int)),
        decreases orcs@.len() - i,
    {
        assert(orcs@.take(i + 1).drop_last() =~= orcs@.take(i as int));
        assert(orcs@[i as int].wf());
        proof {
            lemma_headcount_grows(orcs@, i + 1);
        }
        if orcs[i].alive {
            hunger += orcs[i].hunger as u64;
            energy += orcs[i].energy as u64;
        }
        i += 1;
    }
    assert(orcs@.take(i as int) =~= orcs@);
    (hunger, energy)
}

/// Among the first `i` orcs no more are alive than among all.
pub proof fn lemma_headcount_grows(orcs: Seq<Orc>, i: int)
    requires
        0 <= i <= orcs.len(),
    ensures
        headcount(orcs.take(i)) <= headcount(orcs),
    decreases orcs.len() - i,
{
    if i < orcs.len() {
        assert(orcs.take(i + 1).drop_last() =~= orcs.take(i));
        lemma_headcount_grows(orcs, i + 1);
    } else {
        assert(orcs.take(i) =~= orcs);
    }
}

/// The names of all orcs, living and dead.
fn all_names(orcs: &Vec<Orc>) -> (names: Vec<String>)
    ensures
        texts(names@) == names_of(orcs@),
{
    let mut names: Vec<String> = Vec::new();
    let mut i: usize = 0;
    while i < orcs.len()
        invariant
            i <= orcs@.len(),
            names@.len() == i,
            forall|j: int| 0 <= j < i ==> (#[trigger] names@[j])@ == orcs@[j].name@,
        decreases orcs@.len() - i,
    {
        names.push(orcs[i].name.clone());
        i += 1;
    }
    assert(texts(names@) =~= names_of(orcs@));
    names
}

impl App {
    /// The parts are well formed, the cursor is on the map, the speed is
    /// within its bounds, and an orc that is selected exists.
    pub open spec fn wf(&self) -> bool {
        &&& self.world.wf()
        &&& clan_wf(self.orcs@, self.tick)
        &&& herd_wf(self.animals@)
        &&& in_bounds(self.cursor_x as int, self.cursor_y as int)
        &&& 1 <= self.speed <= MAX_SPEED
        &&& (self.selected_orc matches Some(i) ==> i < self.orcs@.len())
    }

    /// Checks that the village is well formed.
    pub fn is_well_formed(&self) -> (r: bool)
        ensures
            r == self.wf(),
    {
        if !self.world.is_well_formed() || self.cursor_x >= MAP_WIDTH || self.cursor_y >= MAP_HEIGHT
            || self.speed < 1 || self.speed > MAX_SPEED {
            return false;
        }
        match self.selected_orc {
            Some(i) => {
                if i >= self.orcs.len() {
                    return false;
                }
            },
            None => {},
        }
        let mut i: usize = 0;
        while i < self.orcs.len()
            invariant
                i <= self.orcs@.len(),
                clan_wf(self.orcs@.take(i as int), self.tick),
            decreases self.orcs@.len() - i,
        {
            let dies_late = match self.orcs[i].death_tick {
                Some(t) => t > self.tick,
                None => false,
            };
            if !self.orcs[i].is_well_formed() || dies_late {
                return false;
            }
            i += 1;
            assert forall|j: int| 0 <= j < i implies (#[trigger] self.orcs@.take(i as int)[j]).wf() && (
            self.orcs@.take(i as int)[j].death_tick matches Some(t) ==> t <= self.tick) by {
                if j < i - 1 {
                    assert(self.orcs@.take(i - 1)[j] == self.orcs@[j]);
                }
            }
        }
        assert(self.orcs@.take(i as int) =~= self.orcs@);
        let mut k: usize = 0;
        while k < self.animals.len()
            invariant
                k <= self.animals@.len(),
                forall|j: int| 0 <= j < k ==> (#[trigger] self.animals@[j]).wf(),
            decreases self.animals@.len() - k,
        {
            if !self.animals[k].is_well_formed() {
                return false;
            }
            k += 1;
        }
        true
    }

    /// What the player steers is as in `before`.
    pub open spec fn same_controls(&self, before: &App) -> bool {
        &&& self.paused == before.paused
        &&& self.speed == before.speed
        &&& self.cursor_x == before.cursor_x
        &&& self.cursor_y == before.cursor_y
        &&& self.camera_x == before.camera_x
        &&& self.camera_y == before.camera_y
        &&& self.should_quit == before.should_quit
    }

    /// A new village on a newly generated map: the founders around the
    /// campfire, the first animals farther out, the clock at zero, and the
    /// cursor on the campfire. All that is drawn comes from `rng`.
    pub fn new(rng: StdRng) -> (app: App)
        ensures
            app.wf(),
            app.world.campfire_pos == (MAP_WIDTH / 2, MAP_HEIGHT / 2),
            app.world.food_stockpile == INITIAL_STOCKPILE,
            app.world.regrowth_timers@ == Seq::<(usize, usize, u64)>::empty(),
            app.world.settled(),
            app.orcs@.len() <= FOUNDERS,
            forall|i: int| 0 <= i < app.orcs@.len() ==> is_settler(&app.world, app.orcs@, i),
            app.orcs@.len() < FOUNDERS ==> forall|x: int, y: int|
                clan_ground(&app.world, x, y) ==> stands_on(app.orcs@, x, y),
            app.animals@.len() <= 12,
            newcomers(app.animals@, 0, &app.world, 15),
            app.event_log@ == founding_log(app.orcs@),
            app.tick == 0,
            !app.paused,
            app.speed == 1,
            (app.cursor_x, app.cursor_y) == app.world.campfire_pos,
            (app.camera_x, app.camera_y) == (0usize, 0usize),
            app.selected_orc is None,
            !app.should_quit,
    {
        let mut rng = rng;
        let world = World::generate(&mut rng);
        let orcs = Orc::spawn_clan(FOUNDERS, &world, &mut rng);
        let animals = Animal::spawn_initial(&world, &mut rng);
        let mut event_log = EventLog::new();
        event_log.log(0, "A clan of orcs settles in a new land...".to_owned(), Color::White);
        let mut i: usize = 0;
        while i < orcs.len()
            invariant
                i <= orcs@.len() <= FOUNDERS,
                event_log.max_events == DEFAULT_CAPACITY,
                event_log@ =~= founding_log(orcs@).take(i + 1),
            decreases orcs@.len() - i,
        {
            let mut message = orcs[i].name.clone();
            push_str(&mut message, " joins the clan");
            event_log.log(0, message, Color::Green);
            i += 1;
        }
        assert(founding_log(orcs@).take(i + 1) =~= founding_log(orcs@));
        let (cx, cy) = world.campfire_pos;
        assert forall|i: int| 0 <= i < orcs@.len() implies (#[trigger] orcs@[i]).death_tick is None by {
            assert(is_settler(&world, orcs@, i));
        }
        assert forall|i: int| 0 <= i < animals@.len() implies (#[trigger] animals@[i]).wf() by {
            assert(fit_to_spawn(&world, animals@[i].x as int, animals@[i].y as int, 15));
        }
        App {
            world,
            orcs,
            animals,
            event_log,
            tick: 0,
            paused: false,
            speed: 1,
            cursor_x: cx,
            cursor_y: cy,
            camera_x: 0,
            camera_y: 0,
            selected_orc: None,
            should_quit: false,
            rng,
        }
    }

    pub open spec fn spec_is_night(&self) -> bool {
        self.tick % DAY_LENGTH >= NIGHTFALL
    }

    /// Whether it is night: the last two fifths of every day.
    #[verifier::when_used_as_spec(spec_is_night)]
    pub fn is_night(&self) -> (r: bool)
        ensures
            r == self.spec_is_night(),
    {
        self.tick % DAY_LENGTH >= NIGHTFALL
    }

    /// Moves the cursor by `(dx, dy)`, as far as the map reaches.
    pub fn move_cursor(&mut self, dx: i32, dy: i32)
        requires
            in_bounds(old(self).cursor_x as int, old(self).cursor_y as int),
        ensures
            final(self).cursor_x == clamp(old(self).cursor_x + dx, 0, MAP_WIDTH - 1),
            final(self).cursor_y == clamp(old(self).cursor_y + dy, 0, MAP_HEIGHT - 1),
            *final(self) == (App {
                cursor_x: final(self).cursor_x,
                cursor_y: final(self).cursor_y,
                ..*old(self)
            }),
    {
        self.cursor_x = step_within(self.cursor_x, dx, MAP_WIDTH);
        self.cursor_y = step_within(self.cursor_y, dy, MAP_HEIGHT);
    }

    /// Centres the camera on the cursor, as far as the map's edges allow.
    pub fn update_camera(&mut self, viewport_w: usize, viewport_h: usize)
        requires
            in_bounds(old(self).cursor_x as int, old(self).cursor_y as int),
        ensures
            final(self).camera_x == camera_for(
                old(self).cursor_x as int,
                viewport_w as int,
                MAP_WIDTH as int,
            ),
            final(self).camera_y == camera_for(
                old(self).cursor_y as int,
                viewport_h as int,
                MAP_HEIGHT as int,
            ),
            *final(self) == (App {
                camera_x: final(self).camera_x,
                camera_y: final(self).camera_y,
                ..*old(self)
            }),
    {
        self.camera_x = camera_along(self.cursor_x, viewport_w, MAP_WIDTH);
        self.camera_y = camera_along(self.cursor_y, viewport_h, MAP_HEIGHT);
    }

    pub fn toggle_pause(&mut self)
        ensures
            *final(self) == (App { paused: !old(self).paused, ..*old(self) }),
    {
        self.paused = !self.paused;
    }

    /// One step faster, up to `MAX_SPEED`.
    pub fn speed_up(&mut self)
        ensures
            *final(self) == (App {
                speed: if old(self).speed < MAX_SPEED {
                    (old(self).speed + 1) as u32
                } else {
                    old(self).speed
                },
                ..*old(self)
            }),
    {
        if self.speed < MAX_SPEED {
            self.speed += 1;
        }
    }

    /// One step slower, down to 1.
    pub fn speed_down(&mut self)
        ensures
            *final(self) == (App {
                speed: if old(self).speed > 1 {
                    (old(self).speed - 1) as u32
                } else {
                    old(self).speed
                },
                ..*old(self)
            }),
    {
        if self.speed > 1 {
            self.speed -= 1;
        }
    }

    /// The first living orc at or after index `from`.
    fn next_living(&self, from: usize) -> (r: Option<usize>)
        ensures
            is_next_living(self.orcs@, from as int, r),
    {
        let mut i: usize = from;
        while i < self.orcs.len()
            invariant
                from <= i,
                forall|j: int| from <= j < i && j < self.orcs@.len() ==> !(#[trigger] self.orcs@[j]).alive,
            decreases self.orcs@.len() - i,
        {
            if self.orcs[i].alive {
                return Some(i);
            }
            i += 1;
        }
        None
    }

    /// What `cycle_selected_orc` selects: with no orc selected, the first
    /// living one; with a living orc selected, the next living one; and
    /// none where there is no such orc.
    pub open spec fn cycled(&self, r: Option<usize>) -> bool {
        match self.selected_orc {
            None => is_next_living(self.orcs@, 0, r),
            Some(current) => if current < self.orcs@.len() && self.orcs@[current as int].alive {
                is_next_living(self.orcs@, current + 1, r)
            } else {
                r is None
            },
        }
    }

    /// `self` is `before` after the selection moved on: the next orc is
    /// selected, see `cycled`, and the cursor is on it; with no orc selected
    /// the cursor stays.
    pub open spec fn selection_cycled(&self, before: &App) -> bool {
        &&& before.cycled(self.selected_orc)
        &&& (self.cursor_x, self.cursor_y) == (match self.selected_orc {
            Some(i) => (before.orcs@[i as int].x, before.orcs@[i as int].y),
            None => (before.cursor_x, before.cursor_y),
        })
        &&& *self == (App {
            selected_orc: self.selected_orc,
            cursor_x: self.cursor_x,
            cursor_y: self.cursor_y,
            ..*before
        })
    }

    /// Selects the next living orc and puts the cursor on it.
    pub fn cycle_selected_orc(&mut self)
        requires
            old(self).wf(),
        ensures
            final(self).wf(),
            final(self).selection_cycled(old(self)),
    {
        let next = match self.selected_orc {
            None => self.next_living(0),
            Some(current) => {
                if current < self.orcs.len() && self.orcs[current].alive && current < usize::MAX {
                    self.next_living(current + 1)
                } else {
                    None
                }
            },
        };
        self.selected_orc = next;
        match next {
            Some(i) => {
                assert(self.orcs@[i as int].wf());
                self.cursor_x = self.orcs[i].x;
                self.cursor_y = self.orcs[i].y;
            },
            None => {},
        }
    }

    /// `self` is `before` after food was dropped: if the tile under the
    /// cursor was grass, it holds food now and the log tells of it; else
    /// nothing has changed.
    pub open spec fn food_dropped(&self, before: &App) -> bool {
        let x = before.cursor_x as int;
        let y = before.cursor_y as int;
        &&& self.orcs == before.orcs
        &&& self.animals == before.animals
        &&& self.tick == before.tick
        &&& self.selected_orc == before.selected_orc
        &&& self.same_controls(before)
        &&& self.event_log.max_events == before.event_log.max_events
        &&& if before.world.tile(x, y) == Terrain::Grass {
            &&& self.world.tile(x, y) == Terrain::Food
            &&& self.world.same_tiles_but(&before.world, x, y)
            &&& self.world.same_ledger(&before.world)
            &&& self.event_log@ == before.event_log.with(
                before.tick,
                drop_message(before.cursor_x, before.cursor_y),
                Color::Magenta,
            )
        } else {
            &&& self.world.same_as(&before.world)
            &&& self.event_log@ == before.event_log@
        }
    }

    /// Drops food on the tile under the cursor if that is grass, and logs it.
    pub fn drop_food(&mut self)
        requires
            old(self).wf(),
        ensures
            final(self).wf(),
            final(self).food_dropped(old(self)),
    {
        let terrain = self.world.get(self.cursor_x, self.cursor_y);
        if terrain == Terrain::Grass {
            self.world.set(self.cursor_x, self.cursor_y, Terrain::Food);
            let mut message = "Food dropped at (".to_owned();
            push_decimal(&mut message, self.cursor_x as u64);
            push_str(&mut message, ", ");
            push_decimal(&mut message, self.cursor_y as u64);
            push_str(&mut message, ")");
            assert(message@ =~= drop_message(self.cursor_x, self.cursor_y));
            self.event_log.log(self.tick, message, Color::Magenta);
        }
    }

    /// The village's orcs, world, animals and log.
    pub open spec fn village(&self) -> Village {
        village(&self.orcs, &self.world, &self.animals, &self.event_log)
    }

    /// Lets an orc be born if a birth is due; see `born`.
    pub fn check_birth(&mut self)
        requires
            old(self).wf(),
        ensures
            final(self).wf(),
            born(final(self).village(), old(self).village(), old(self).tick),
            final(self).tick == old(self).tick,
            final(self).selected_orc == old(self).selected_orc,
            final(self).same_controls(old(self)),
    {
        let count = count_living(&self.orcs);
        if count < 2 || count >= MAX_CLAN_SIZE {
            return ;
        }
        assert forall|i: int| 0 <= i < self.orcs@.len() implies (#[trigger] self.orcs@[i]).wf() by {}
        let (hunger, energy) = sum_needs(&self.orcs);
        if hunger < 400 * (count as u64) && energy > 400 * (count as u64) && self.world.food_stockpile
            > 0 {
            self.world.food_stockpile -= 1;
            let existing_names = all_names(&self.orcs);
            let name = pick_name(&mut self.rng, existing_names.as_slice());
            let (cx, cy) = self.world.campfire_pos;
            let (x, y) = spot_near(&self.world, cx, cy, &mut self.rng);
            let mut message = name.clone();
            push_str(&mut message, " is born into the clan!");
            self.event_log.log(self.tick, message, Color::LightGreen);
            self.orcs.push(Orc::new(name, x, y));
            assert(self.orcs@.drop_last() =~= old(self).orcs@);
        }
    }

    /// `self` is `before` one tick later, by way of `dawn`, the village once
    /// the animals have acted; `dusk`, the village once the orcs have acted
    /// too; and `regrown`, the world once the berries have grown back.
    pub open spec fn stepped_through(&self, before: &App, dawn: Village, dusk: Village, regrown: World) -> bool {
        let tick = (before.tick + 1) as u64;
        let left = dusk.orcs.filter(lingers(tick));
        let settled = Village { orcs: left, world: regrown, animals: self.animals@, log: dusk.log };
        &&& self.tick == tick
        &&& self.same_controls(before)
        &&& dawn.orcs == before.orcs@
        &&& dawn.world == before.world
        &&& dawn.log.max_events == before.event_log.max_events
        &&& dawn.log@ == heralded(&before.event_log, tick)
        &&& herd_moved(dawn.animals, before.animals@, &before.world, places(before.orcs@))
        &&& dusk.all_ticked(dawn, tick, tick % DAY_LENGTH >= NIGHTFALL)
        &&& regrown.regrown(&dusk.world, tick)
        &&& respawned(self.animals@, dusk.animals.filter(is_alive()), &dusk.world, tick)
        &&& self.selected_orc == reselected(before.selected_orc, left.len() as int)
        &&& if tick % BIRTH_INTERVAL == 0 {
            born(self.village(), settled, tick)
        } else {
            self.village() == settled
        }
    }

    /// `self` is `before` one tick later. The clock has moved on and
    /// announced daybreak or nightfall; the animals have acted, seeing the
    /// orcs where they stood before the tick; the orcs have acted, one after
    /// the other; the dead orcs whose time was up and the dead animals are
    /// gone, and the selection is on an orc that is left; animals may have
    /// joined; berries have grown back; and on every `BIRTH_INTERVAL`-th
    /// tick an orc may have been born.
    pub open spec fn stepped(&self, before: &App) -> bool {
        exists|dawn: Village, dusk: Village, regrown: World|
            self.stepped_through(before, dawn, dusk, regrown)
    }

    /// Advances the village by one tick, unless the game is paused.
    pub fn tick(&mut self)
        requires
            old(self).wf(),
            old(self).tick + 1 + REGROWTH_DELAY <= u64::MAX,
            old(self).world.food_stockpile + old(self).orcs@.len() <= u32::MAX,
        ensures
            final(self).wf(),
            final(self).event_log.max_events == old(self).event_log.max_events,
            if old(self).paused {
                *final(self) == *old(self)
            } else {
                final(self).stepped(old(self))
            },
    {
        if self.paused {
            return ;
        }
        self.tick += 1;
        herald(&mut self.event_log, self.tick);
        let is_night = self.is_night();
        let orc_positions = living_places(&self.orcs);
        move_herd(&mut self.animals, &self.world, orc_positions.as_slice(), &mut self.rng);
        let ghost dawn = self.village();
        tick_clan(
            &mut self.orcs,
            &mut self.world,
            &mut self.animals,
            &mut self.rng,
            &mut self.event_log,
            self.tick,
            is_night,
        );
        let ghost dusk = self.village();
        bury(&mut self.orcs, self.tick);
        self.selected_orc = reselect(self.selected_orc, self.orcs.len());
        cull(&mut self.animals);
        try_respawn(&mut self.animals, &self.world, &mut self.rng, self.tick);
        self.world.tick_regrowth(self.tick);
        let ghost regrown = self.world;
        let ghost left = self.orcs@;
        proof {
            lemma_newcomers_wf(self.animals@, dusk.animals.filter(is_alive()), &dusk.world, self.tick);
        }
        if self.tick % BIRTH_INTERVAL == 0 {
            self.check_birth();
        }
        assert(left == dusk.orcs.filter(lingers(self.tick)));
        assert(self.stepped_through(old(self), dawn, dusk, regrown));
    }

    /// How long a tick lasts at the present speed, in milliseconds.
    pub fn tick_interval_ms(&self) -> (ms: u64)
        requires
            self.speed > 0,
        ensures
            ms == 1000int / (self.speed as int),
    {
        1000 / self.speed as u64
    }
}

} // verus!
