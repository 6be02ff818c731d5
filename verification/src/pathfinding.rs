//! Shortest routes over the tile map: A* on the eight-connected grid with
//! step costs 10 (straight) and 14 (diagonal), an octile estimate, and a cap
//! on the number of tiles expanded.

use crate::frontier::{least_index, Frontier, Node};
use crate::world::{abs_diff, in_bounds, Terrain, World, MAP_HEIGHT, MAP_WIDTH};
use vstd::prelude::*;

verus! {

/// Cost of a step to an orthogonal neighbour.
pub const STRAIGHT_COST: usize = 10;

/// Cost of a step to a diagonal neighbour.
pub const DIAGONAL_COST: usize = 14;

/// The search gives up once it would expand more tiles than this.
pub const MAX_SEARCH: usize = 5000;

/// Two different tiles that touch, sides or corners.
pub open spec fn adjacent(ax: int, ay: int, bx: int, by: int) -> bool {
    abs_diff(ax, bx) <= 1 && abs_diff(ay, by) <= 1 && !(ax == bx && ay == by)
}

pub open spec fn step_cost(ax: int, ay: int, bx: int, by: int) -> int {
    if ax != bx && ay != by {
        DIAGONAL_COST as int
    } else {
        STRAIGHT_COST as int
    }
}

/// The octile distance: as many diagonal steps as fit, the rest straight.
pub open spec fn spec_heuristic(x: int, y: int, gx: int, gy: int) -> int {
    let dx = abs_diff(x, gx);
    let dy = abs_diff(y, gy);
    if dx <= dy {
        dx * DIAGONAL_COST + (dy - dx) * STRAIGHT_COST
    } else {
        dy * DIAGONAL_COST + (dx - dy) * STRAIGHT_COST
    }
}

/// A tile may be stepped on if it is walkable, or a tree when trees are
/// allowed; the goal may always be stepped on.
pub open spec fn passable(world: &World, gx: int, gy: int, allow_tree: bool, x: int, y: int) -> bool {
    in_bounds(x, y) && ((x == gx && y == gy) || world.tile(x, y).spec_walkable() || (allow_tree
        && world.tile(x, y) == Terrain::Tree))
}

/// The `i`-th stop of a route that sets out from `(sx, sy)`: the start for
/// `i == 0`, then the waypoints in turn.
pub open spec fn stop(sx: int, sy: int, route: Seq<(usize, usize)>, i: int) -> (int, int) {
    if i <= 0 {
        (sx, sy)
    } else {
        (route[i - 1].0 as int, route[i - 1].1 as int)
    }
}

/// Every waypoint is passable and touches the stop before it.
pub open spec fn is_walk(
    world: &World,
    gx: int,
    gy: int,
    allow_tree: bool,
    sx: int,
    sy: int,
    route: Seq<(usize, usize)>,
) -> bool {
    forall|i: int|
        0 <= i < route.len() ==> {
            let a = stop(sx, sy, route, i);
            let b = #[trigger] route[i];
            adjacent(a.0, a.1, b.0 as int, b.1 as int) && passable(
                world,
                gx,
                gy,
                allow_tree,
                b.0 as int,
                b.1 as int,
            )
        }
}

/// A walk from the start that ends on the goal. The start itself is not
/// among the waypoints; the goal is, unless the start is the goal.
pub open spec fn is_route(
    world: &World,
    sx: int,
    sy: int,
    gx: int,
    gy: int,
    allow_tree: bool,
    route: Seq<(usize, usize)>,
) -> bool {
    is_walk(world, gx, gy, allow_tree, sx, sy, route) && stop(sx, sy, route, route.len() as int)
        == (gx, gy)
}

/// The summed step costs of a route.
pub open spec fn route_cost(sx: int, sy: int, route: Seq<(usize, usize)>) -> int
    decreases route.len(),
{
    if route.len() == 0 {
        0
    } else {
        let a = stop(sx, sy, route, route.len() - 1);
        let b = route.last();
        route_cost(sx, sy, route.drop_last()) + step_cost(a.0, a.1, b.0 as int, b.1 as int)
    }
}

/// No route from start to goal costs less than `route`.
pub open spec fn is_cheapest(
    world: &World,
    sx: int,
    sy: int,
    gx: int,
    gy: int,
    allow_tree: bool,
    route: Seq<(usize, usize)>,
) -> bool {
    forall|other: Seq<(usize, usize)>| #[trigger]
        is_route(world, sx, sy, gx, gy, allow_tree, other) ==> route_cost(sx, sy, route)
            <= route_cost(sx, sy, other)
}

/// Some walk from the start, over tiles that a search for the goal may step
/// on, ends at `(x, y)`.
pub open spec fn reachable(
    world: &World,
    sx: int,
    sy: int,
    gx: int,
    gy: int,
    allow_tree: bool,
    x: int,
    y: int,
) -> bool {
    exists|route: Seq<(usize, usize)>| #[trigger]
        is_walk(world, gx, gy, allow_tree, sx, sy, route) && stop(
            sx,
            sy,
            route,
            route.len() as int,
        ) == (x, y)
}

/// Some walk from the start ends on `(x, y)` at a cost that, with the
/// estimate of what is left to the goal, stays below `bound`. A search
/// expands every such tile before it settles on a route that costs `bound`.
pub open spec fn presses(
    world: &World,
    sx: int,
    sy: int,
    gx: int,
    gy: int,
    allow_tree: bool,
    x: int,
    y: int,
    bound: int,
) -> bool {
    exists|walk: Seq<(usize, usize)>| #[trigger]
        is_walk(world, gx, gy, allow_tree, sx, sy, walk) && stop(sx, sy, walk, walk.len() as int)
            == (x, y) && route_cost(sx, sy, walk) + spec_heuristic(x, y, gx, gy) < bound
}

/// Some walk from the start ends on `(x, y)` at a cost that, with the
/// estimate of what is left to the goal, is no more than any route to the
/// goal costs. Only such tiles are expanded before the goal is found.
pub open spec fn in_the_way(
    world: &World,
    sx: int,
    sy: int,
    gx: int,
    gy: int,
    allow_tree: bool,
    x: int,
    y: int,
) -> bool {
    exists|walk: Seq<(usize, usize)>| #[trigger]
        is_walk(world, gx, gy, allow_tree, sx, sy, walk) && stop(sx, sy, walk, walk.len() as int)
            == (x, y) && forall|route: Seq<(usize, usize)>| #[trigger]
            is_route(world, sx, sy, gx, gy, allow_tree, route) ==> route_cost(sx, sy, walk)
                + spec_heuristic(x, y, gx, gy) <= route_cost(sx, sy, route)
}

/// More than `MAX_SEARCH` different tiles are in the way to the goal: the
/// search may run into its cap before it finds the goal.
pub open spec fn cap_reached(world: &World, sx: int, sy: int, gx: int, gy: int, allow_tree: bool) -> bool {
    exists|tiles: Seq<(usize, usize)>|
        {
            &&& #[trigger] tiles.len() > MAX_SEARCH
            &&& tiles.no_duplicates()
            &&& forall|i: int|
                0 <= i < tiles.len() ==> in_the_way(
                    world,
                    sx,
                    sy,
                    gx,
                    gy,
                    allow_tree,
                    (#[trigger] tiles[i]).0 as int,
                    tiles[i].1 as int,
                )
        }
}

/// No more than `MAX_SEARCH` different tiles press below `bound`: the
/// search can settle on a route that costs `bound` within its cap.
pub open spec fn within_cap(
    world: &World,
    sx: int,
    sy: int,
    gx: int,
    gy: int,
    allow_tree: bool,
    bound: int,
) -> bool {
    forall|tiles: Seq<(usize, usize)>|
        #[trigger] tiles.no_duplicates() && (forall|i: int|
            0 <= i < tiles.len() ==> presses(
                world,
                sx,
                sy,
                gx,
                gy,
                allow_tree,
                (#[trigger] tiles[i]).0 as int,
                tiles[i].1 as int,
                bound,
            )) ==> tiles.len() <= MAX_SEARCH
}

/// The eight neighbour offsets in the order in which they are tried.
pub open spec fn direction(k: int) -> (int, int) {
    if k == 0 {
        (-1, -1)
    } else if k == 1 {
        (-1, 0)
    } else if k == 2 {
        (-1, 1)
    } else if k == 3 {
        (0, -1)
    } else if k == 4 {
        (0, 1)
    } else if k == 5 {
        (1, -1)
    } else if k == 6 {
        (1, 0)
    } else {
        (1, 1)
    }
}

/// The neighbour of `(x, y)` in direction `k`.
pub open spec fn target(x: int, y: int, k: int) -> (int, int) {
    (x + direction(k).0, y + direction(k).1)
}

/// The books of a search between two of its steps: the tiles it is done
/// with, the cost of the cheapest way found to each tile and that way
/// itself, the frontier in the order in which its nodes came, and how many
/// tiles have been expanded.
pub ghost struct Books {
    pub closed: Set<(int, int)>,
    pub cost: Map<(int, int), int>,
    pub walks: Map<(int, int), Seq<(usize, usize)>>,
    pub open: Seq<Node>,
    pub searched: int,
}

/// The books at the outset: only the start has been found, at no cost, and
/// waits on the frontier.
pub open spec fn first_books(sx: int, sy: int, gx: int, gy: int) -> Books {
    Books {
        closed: Set::empty(),
        cost: Map::new(
            |p: (int, int)| true,
            |p: (int, int)|
                if p == (sx, sy) {
                    0int
                } else {
                    usize::MAX as int
                },
        ),
        walks: Map::empty().insert((sx, sy), Seq::empty()),
        open: Seq::empty().push(
            Node {
                x: sx as usize,
                y: sy as usize,
                cost: 0,
                priority: spec_heuristic(sx, sy, gx, gy) as usize,
            },
        ),
        searched: 0,
    }
}

/// The books once the step from the tile of `current` in direction `k` has
/// been tried: where it leads to a tile that may be stepped on and is not
/// done with, more cheaply than any way found before, the tile's cost and
/// way are rewritten and it joins the frontier.
pub open spec fn tried(
    b: Books,
    world: &World,
    gx: int,
    gy: int,
    allow_tree: bool,
    current: Node,
    k: int,
) -> Books {
    let cx = current.x as int;
    let cy = current.y as int;
    let to = target(cx, cy, k);
    let new_cost = current.cost + step_cost(0, 0, direction(k).0, direction(k).1);
    if in_bounds(to.0, to.1) && !b.closed.contains(to) && passable(
        world,
        gx,
        gy,
        allow_tree,
        to.0,
        to.1,
    ) && new_cost < b.cost[to] {
        Books {
            cost: b.cost.insert(to, new_cost),
            walks: b.walks.insert(to, b.walks[(cx, cy)].push((to.0 as usize, to.1 as usize))),
            open: b.open.push(
                Node {
                    x: to.0 as usize,
                    y: to.1 as usize,
                    cost: new_cost as usize,
                    priority: (new_cost + spec_heuristic(to.0, to.1, gx, gy)) as usize,
                },
            ),
            ..b
        }
    } else {
        b
    }
}

/// The books once the steps in the directions from `k` on have been tried,
/// one after the other.
pub open spec fn tried_from(
    b: Books,
    world: &World,
    gx: int,
    gy: int,
    allow_tree: bool,
    current: Node,
    k: int,
) -> Books
    decreases 8 - k,
{
    if k < 0 || k >= 8 {
        b
    } else {
        tried_from(tried(b, world, gx, gy, allow_tree, current, k), world, gx, gy, allow_tree, current, k + 1)
    }
}

/// What a search that stands at the books `b` comes to. It takes the node
/// of least priority from the frontier, the first that came of several. If
/// that is the goal, the way found to it is the result; if its tile is
/// done with, the search goes on; else the tile is expanded, unless that
/// takes the search past its cap. A frontier that has run dry ends it.
pub open spec fn searched_on(b: Books, world: &World, gx: int, gy: int, allow_tree: bool) -> Option<
    Seq<(usize, usize)>,
>
    decreases MAX_SEARCH - b.searched, b.open.len(),
{
    let i = least_index(b.open);
    if b.searched < 0 || b.searched > MAX_SEARCH || b.open.len() == 0 || i < 0 || i >= b.open.len() {
        None
    } else {
        let current = b.open[i];
        let rest = Books { open: b.open.remove(i), ..b };
        if current.x == gx && current.y == gy {
            Some(b.walks[(gx, gy)])
        } else if b.closed.contains((current.x as int, current.y as int)) {
            searched_on(rest, world, gx, gy, allow_tree)
        } else if b.searched + 1 > MAX_SEARCH {
            None
        } else {
            let shut = Books {
                closed: b.closed.insert((current.x as int, current.y as int)),
                searched: b.searched + 1,
                ..rest
            };
            let next = tried_from(shut, world, gx, gy, allow_tree, current, 0);
            searched_on(Books { searched: b.searched + 1, ..next }, world, gx, gy, allow_tree)
        }
    }
}

/// What `find_path` returns, as a function of the map and of where the
/// search starts and ends.
pub open spec fn search_result(world: &World, sx: int, sy: int, gx: int, gy: int, allow_tree: bool) -> Option<
    Seq<(usize, usize)>,
> {
    if sx == gx && sy == gy {
        Some(Seq::empty())
    } else {
        searched_on(first_books(sx, sy, gx, gy), world, gx, gy, allow_tree)
    }
}

/// Trees can be walked on, so allowing them changes no step of a search.
pub proof fn lemma_tried_from_either_way(b: Books, world: &World, gx: int, gy: int, current: Node, k: int)
    ensures
        tried_from(b, world, gx, gy, true, current, k) == tried_from(
            b,
            world,
            gx,
            gy,
            false,
            current,
            k,
        ),
    decreases 8 - k,
{
    if 0 <= k < 8 {
        assert(tried(b, world, gx, gy, true, current, k) == tried(b, world, gx, gy, false, current, k));
        lemma_tried_from_either_way(tried(b, world, gx, gy, true, current, k), world, gx, gy, current, k + 1);
    }
}

/// Trees can be walked on, so allowing them changes nothing in what a
/// search comes to.
pub proof fn lemma_searched_on_either_way(b: Books, world: &World, gx: int, gy: int)
    ensures
        searched_on(b, world, gx, gy, true) == searched_on(b, world, gx, gy, false),
    decreases MAX_SEARCH - b.searched, b.open.len(),
{
    let i = least_index(b.open);
    if !(b.searched < 0 || b.searched > MAX_SEARCH || b.open.len() == 0 || i < 0 || i >= b.open.len()) {
        let current = b.open[i];
        let rest = Books { open: b.open.remove(i), ..b };
        if current.x == gx && current.y == gy {
        } else if b.closed.contains((current.x as int, current.y as int)) {
            lemma_searched_on_either_way(rest, world, gx, gy);
        } else if b.searched + 1 > MAX_SEARCH {
        } else {
            let shut = Books {
                closed: b.closed.insert((current.x as int, current.y as int)),
                searched: b.searched + 1,
                ..rest
            };
            lemma_tried_from_either_way(shut, world, gx, gy, current, 0);
            let next = tried_from(shut, world, gx, gy, true, current, 0);
            lemma_searched_on_either_way(Books { searched: b.searched + 1, ..next }, world, gx, gy);
        }
    }
}

/// Trees can be walked on, so a search finds the same with and without
/// leave to step on them.
pub proof fn lemma_trees_make_no_difference(world: &World, sx: int, sy: int, gx: int, gy: int)
    ensures
        search_result(world, sx, sy, gx, gy, true) == search_result(world, sx, sy, gx, gy, false),
{
    if !(sx == gx && sy == gy) {
        lemma_searched_on_either_way(first_books(sx, sy, gx, gy), world, gx, gy);
    }
}

/// Estimates what a route from `(x, y)` to `(gx, gy)` costs at least.
pub fn heuristic(x: usize, y: usize, gx: usize, gy: usize) -> (h: usize)
    requires
        in_bounds(x as int, y as int),
        in_bounds(gx as int, gy as int),
    ensures
        h == spec_heuristic(x as int, y as int, gx as int, gy as int),
{
    let dx = if x >= gx {
        x - gx
    } else {
        gx - x
    };
    let dy = if y >= gy {
        y - gy
    } else {
        gy - y
    };
    let diag = if dx <= dy {
        dx
    } else {
        dy
    };
    let straight = if dx <= dy {
        dy - dx
    } else {
        dx - dy
    };
    diag * DIAGONAL_COST + straight * STRAIGHT_COST
}

/// The estimate never drops by more than a step costs: it is consistent.
pub proof fn lemma_heuristic_consistent(ax: int, ay: int, bx: int, by: int, gx: int, gy: int)
    requires
        adjacent(ax, ay, bx, by),
    ensures
        spec_heuristic(ax, ay, gx, gy) <= step_cost(ax, ay, bx, by) + spec_heuristic(bx, by, gx, gy),
{
}

/// The costs of a route's beginnings grow step by step.
pub proof fn lemma_cost_of_prefix(sx: int, sy: int, route: Seq<(usize, usize)>, i: int)
    requires
        0 <= i < route.len(),
    ensures
        route_cost(sx, sy, route.take(i + 1)) == route_cost(sx, sy, route.take(i)) + step_cost(
            stop(sx, sy, route, i).0,
            stop(sx, sy, route, i).1,
            route[i].0 as int,
            route[i].1 as int,
        ),
{
    let longer = route.take(i + 1);
    assert(longer.drop_last() =~= route.take(i));
    assert(longer.last() == route[i]);
    assert(stop(sx, sy, longer, i) == stop(sx, sy, route, i));
}

/// A walk stays a walk when a passable neighbour of its end is added, and
/// costs one step more.
pub proof fn lemma_walk_push(
    world: &World,
    gx: int,
    gy: int,
    allow_tree: bool,
    sx: int,
    sy: int,
    route: Seq<(usize, usize)>,
    next: (usize, usize),
)
    requires
        is_walk(world, gx, gy, allow_tree, sx, sy, route),
        ({
            let end = stop(sx, sy, route, route.len() as int);
            adjacent(end.0, end.1, next.0 as int, next.1 as int)
        }),
        passable(world, gx, gy, allow_tree, next.0 as int, next.1 as int),
    ensures
        is_walk(world, gx, gy, allow_tree, sx, sy, route.push(next)),
        stop(sx, sy, route.push(next), route.len() as int + 1) == (next.0 as int, next.1 as int),
        route_cost(sx, sy, route.push(next)) == route_cost(sx, sy, route) + step_cost(
            stop(sx, sy, route, route.len() as int).0,
            stop(sx, sy, route, route.len() as int).1,
            next.0 as int,
            next.1 as int,
        ),
{
    let longer = route.push(next);
    assert(longer.drop_last() =~= route);
    assert forall|i: int| 0 <= i < longer.len() implies {
        let a = stop(sx, sy, longer, i);
        let b = #[trigger] longer[i];
        adjacent(a.0, a.1, b.0 as int, b.1 as int) && passable(
            world,
            gx,
            gy,
            allow_tree,
            b.0 as int,
            b.1 as int,
        )
    } by {
        if i < route.len() {
            assert(longer[i] == route[i]);
            assert(stop(sx, sy, longer, i) == stop(sx, sy, route, i));
        }
    }
}

/// From any stop of a route, the estimate of the way to the route's end is
/// no more than what the rest of the route costs.
pub proof fn lemma_heuristic_admissible(sx: int, sy: int, route: Seq<(usize, usize)>, i: int)
    requires
        0 <= i <= route.len(),
        forall|j: int|
            0 <= j < route.len() ==> adjacent(
                stop(sx, sy, route, j).0,
                stop(sx, sy, route, j).1,
                (#[trigger] route[j]).0 as int,
                route[j].1 as int,
            ),
    ensures
        ({
            let here = stop(sx, sy, route, i);
            let end = stop(sx, sy, route, route.len() as int);
            spec_heuristic(here.0, here.1, end.0, end.1) <= route_cost(sx, sy, route) - route_cost(
                sx,
                sy,
                route.take(i),
            )
        }),
    decreases route.len() - i,
{
    if i == route.len() {
        assert(route.take(i) =~= route);
    } else {
        let end = stop(sx, sy, route, route.len() as int);
        let here = stop(sx, sy, route, i);
        let next = route[i];
        lemma_heuristic_admissible(sx, sy, route, i + 1);
        lemma_cost_of_prefix(sx, sy, route, i);
        lemma_heuristic_consistent(here.0, here.1, next.0 as int, next.1 as int, end.0, end.1);
        assert(stop(sx, sy, route, i + 1) == (next.0 as int, next.1 as int));
    }
}

/// Along a walk the estimate of the way to any goal sinks by no more than
/// the walk costs: what the walk costs up to a stop, with the estimate from
/// there, is no more than the whole walk costs with the estimate from its end.
pub proof fn lemma_estimate_along(sx: int, sy: int, walk: Seq<(usize, usize)>, i: int, gx: int, gy: int)
    requires
        0 <= i <= walk.len(),
        forall|j: int|
            0 <= j < walk.len() ==> adjacent(
                stop(sx, sy, walk, j).0,
                stop(sx, sy, walk, j).1,
                (#[trigger] walk[j]).0 as int,
                walk[j].1 as int,
            ),
    ensures
        ({
            let here = stop(sx, sy, walk, i);
            let end = stop(sx, sy, walk, walk.len() as int);
            route_cost(sx, sy, walk.take(i)) + spec_heuristic(here.0, here.1, gx, gy) <= route_cost(
                sx,
                sy,
                walk,
            ) + spec_heuristic(end.0, end.1, gx, gy)
        }),
    decreases walk.len() - i,
{
    if i == walk.len() {
        assert(walk.take(i) =~= walk);
    } else {
        let here = stop(sx, sy, walk, i);
        let next = walk[i];
        lemma_estimate_along(sx, sy, walk, i + 1, gx, gy);
        lemma_cost_of_prefix(sx, sy, walk, i);
        lemma_heuristic_consistent(here.0, here.1, next.0 as int, next.1 as int, gx, gy);
        assert(stop(sx, sy, walk, i + 1) == (next.0 as int, next.1 as int));
    }
}

/// A list without repeats whose items all occur in another list is no
/// longer than that list.
pub proof fn lemma_fits(a: Seq<(usize, usize)>, b: Seq<(usize, usize)>)
    requires
        a.no_duplicates(),
        forall|i: int| 0 <= i < a.len() ==> b.contains(#[trigger] a[i]),
    ensures
        a.len() <= b.len(),
{
    a.unique_seq_to_set();
    b.lemma_cardinality_of_set();
    vstd::seq_lib::seq_to_set_is_finite(b);
    assert(a.to_set().subset_of(b.to_set())) by {
        assert forall|t: (usize, usize)| a.to_set().contains(t) implies b.to_set().contains(t) by {
            let i = choose|i: int| 0 <= i < a.len() && a[i] == t;
            assert(b.contains(a[i]));
        }
    }
    vstd::set_lib::lemma_len_subset(a.to_set(), b.to_set());
}

/// Nothing presses below a bound of zero, so a search that has nowhere to
/// go is within its cap.
pub proof fn lemma_nothing_presses(world: &World, sx: int, sy: int, gx: int, gy: int, allow_tree: bool)
    ensures
        within_cap(world, sx, sy, gx, gy, allow_tree, 0),
{
    assert forall|tiles: Seq<(usize, usize)>|
        #[trigger] tiles.no_duplicates() && (forall|i: int|
            0 <= i < tiles.len() ==> presses(
                world,
                sx,
                sy,
                gx,
                gy,
                allow_tree,
                (#[trigger] tiles[i]).0 as int,
                tiles[i].1 as int,
                0,
            )) implies tiles.len() <= MAX_SEARCH by {
        if tiles.len() > 0 {
            let t = tiles[0];
            assert(presses(world, sx, sy, gx, gy, allow_tree, t.0 as int, t.1 as int, 0));
            let walk = choose|walk: Seq<(usize, usize)>| #[trigger]
                is_walk(world, gx, gy, allow_tree, sx, sy, walk) && stop(
                    sx,
                    sy,
                    walk,
                    walk.len() as int,
                ) == (t.0 as int, t.1 as int) && route_cost(sx, sy, walk) + spec_heuristic(
                    t.0 as int,
                    t.1 as int,
                    gx,
                    gy,
                ) < 0;
            lemma_cost_nonnegative(sx, sy, walk);
        }
    }
}

/// A touching tile lies in one of the eight directions, at that
/// direction's cost.
pub proof fn lemma_direction_of(ax: int, ay: int, bx: int, by: int) -> (k: int)
    requires
        adjacent(ax, ay, bx, by),
    ensures
        0 <= k < 8,
        target(ax, ay, k) == (bx, by),
        step_cost(ax, ay, bx, by) == step_cost(0, 0, direction(k).0, direction(k).1),
{
    let dx = bx - ax;
    let dy = by - ay;
    if dx == -1 {
        if dy == -1 {
            0
        } else if dy == 0 {
            1
        } else {
            2
        }
    } else if dx == 0 {
        if dy == -1 {
            3
        } else {
            4
        }
    } else {
        if dy == -1 {
            5
        } else if dy == 0 {
            6
        } else {
            7
        }
    }
}

/// Step costs are never negative, so neither is the cost of a route.
pub proof fn lemma_cost_nonnegative(sx: int, sy: int, route: Seq<(usize, usize)>)
    ensures
        route_cost(sx, sy, route) >= 0,
    decreases route.len(),
{
    if route.len() > 0 {
        lemma_cost_nonnegative(sx, sy, route.drop_last());
    }
}

/// Predecessor links that form a tree rooted at the start: `walks` records,
/// for each tile found so far, the walk that the links spell out.
pub(crate) open spec fn is_tree(
    came_from: &Vec<Vec<(usize, usize)>>,
    walks: Map<(int, int), Seq<(usize, usize)>>,
    sx: int,
    sy: int,
) -> bool {
    &&& came_from.len() == MAP_HEIGHT
    &&& forall|y: int| 0 <= y < MAP_HEIGHT ==> (#[trigger] came_from[y]).len() == MAP_WIDTH
    &&& walks.dom().contains((sx, sy))
    &&& walks[(sx, sy)].len() == 0
    &&& forall|x: int, y: int|
        in_bounds(x, y) && #[trigger] walks.dom().contains((x, y)) && (x, y) != (sx, sy) ==> {
            let p = came_from[y][x];
            &&& in_bounds(p.0 as int, p.1 as int)
            &&& walks.dom().contains((p.0 as int, p.1 as int))
            &&& walks[(x, y)] == walks[(p.0 as int, p.1 as int)].push((x as usize, y as usize))
        }
}

fn reversed(v: &Vec<(usize, usize)>) -> (r: Vec<(usize, usize)>)
    ensures
        r@ == v@.reverse(),
{
    let mut r: Vec<(usize, usize)> = Vec::new();
    let mut i: usize = v.len();
    while i > 0
        invariant
            i <= v.len(),
            r.len() == v.len() - i,
            forall|j: int| 0 <= j < r.len() ==> r[j] == v[v.len() - 1 - j],
        decreases i,
    {
        i -= 1;
        r.push(v[i]);
    }
    assert(r@ =~= v@.reverse());
    r
}

/// Follows the predecessor links back from the goal and returns the walk
/// they spell out, start excluded, goal included.
pub(crate) fn reconstruct_path(
    came_from: &Vec<Vec<(usize, usize)>>,
    sx: usize,
    sy: usize,
    gx: usize,
    gy: usize,
    Ghost(walks): Ghost<Map<(int, int), Seq<(usize, usize)>>>,
) -> (path: Vec<(usize, usize)>)
    requires
        is_tree(came_from, walks, sx as int, sy as int),
        in_bounds(sx as int, sy as int),
        in_bounds(gx as int, gy as int),
        walks.dom().contains((gx as int, gy as int)),
    ensures
        path@ == walks[(gx as int, gy as int)],
{
    let mut path: Vec<(usize, usize)> = Vec::new();
    let mut cx = gx;
    let mut cy = gy;
    while cx != sx || cy != sy
        invariant
            is_tree(came_from, walks, sx as int, sy as int),
            in_bounds(cx as int, cy as int),
            walks.dom().contains((cx as int, cy as int)),
            walks[(gx as int, gy as int)] == walks[(cx as int, cy as int)] + path@.reverse(),
        decreases walks[(cx as int, cy as int)].len(),
    {
        let ghost here = walks[(cx as int, cy as int)];
        let ghost back = path@.reverse();
        path.push((cx, cy));
        let (px, py) = came_from[cy][cx];
        proof {
            let before = walks[(px as int, py as int)];
            assert(here == before.push((cx, cy)));
            assert(path@.reverse() =~= seq![(cx, cy)] + back);
            assert(before + path@.reverse() =~= here + back);
        }
        cx = px;
        cy = py;
    }
    let path = reversed(&path);
    assert(path@ =~= walks[(gx as int, gy as int)]);
    path
}

/// What a search is after.
ghost struct Quest {
    sx: int,
    sy: int,
    gx: int,
    gy: int,
    allow_tree: bool,
}

/// The books a search keeps: which tiles are done with, the cheapest way
/// found to each tile and where it came from, and the frontier.
struct Search {
    visited: Vec<Vec<bool>>,
    came_from: Vec<Vec<(usize, usize)>>,
    g_cost: Vec<Vec<usize>>,
    open: Frontier,
    searched: usize,
    /// For each tile found so far, the walk that its predecessor links spell out.
    walks: Ghost<Map<(int, int), Seq<(usize, usize)>>>,
    /// The tiles expanded so far, in order.
    expanded: Ghost<Seq<(usize, usize)>>,
    /// The books as the specification of the search keeps them.
    model: Ghost<Books>,
}

/// A grid of the map's dimensions with `value` in every cell.
fn grid_of<T: Copy>(value: T) -> (grid: Vec<Vec<T>>)
    ensures
        grid.len() == MAP_HEIGHT,
        forall|y: int| 0 <= y < MAP_HEIGHT ==> (#[trigger] grid[y]).len() == MAP_WIDTH,
        forall|x: int, y: int| in_bounds(x, y) ==> grid[y][x] == value,
{
    let mut grid: Vec<Vec<T>> = Vec::new();
    let mut y: usize = 0;
    while y < MAP_HEIGHT
        invariant
            y <= MAP_HEIGHT,
            grid.len() == y,
            forall|j: int| 0 <= j < y ==> (#[trigger] grid[j]).len() == MAP_WIDTH,
            forall|i: int, j: int| 0 <= i < MAP_WIDTH && 0 <= j < y ==> grid[j][i] == value,
        decreases MAP_HEIGHT - y,
    {
        let mut row: Vec<T> = Vec::new();
        let mut x: usize = 0;
        while x < MAP_WIDTH
            invariant
                x <= MAP_WIDTH,
                row.len() == x,
                forall|i: int| 0 <= i < x ==> row[i] == value,
            decreases MAP_WIDTH - x,
        {
            row.push(value);
            x += 1;
        }
        grid.push(row);
        y += 1;
    }
    grid
}

fn neighbour_offset(k: usize) -> (d: (i32, i32))
    requires
        k < 8,
    ensures
        (d.0 as int, d.1 as int) == direction(k as int),
{
    if k == 0 {
        (-1, -1)
    } else if k == 1 {
        (-1, 0)
    } else if k == 2 {
        (-1, 1)
    } else if k == 3 {
        (0, -1)
    } else if k == 4 {
        (0, 1)
    } else if k == 5 {
        (1, -1)
    } else if k == 6 {
        (1, 0)
    } else {
        (1, 1)
    }
}

impl Search {
    spec fn dims(&self) -> bool {
        &&& self.visited.len() == MAP_HEIGHT
        &&& forall|y: int| 0 <= y < MAP_HEIGHT ==> (#[trigger] self.visited[y]).len() == MAP_WIDTH
        &&& self.came_from.len() == MAP_HEIGHT
        &&& forall|y: int| 0 <= y < MAP_HEIGHT ==> (#[trigger] self.came_from[y]).len() == MAP_WIDTH
        &&& self.g_cost.len() == MAP_HEIGHT
        &&& forall|y: int| 0 <= y < MAP_HEIGHT ==> (#[trigger] self.g_cost[y]).len() == MAP_WIDTH
    }

    /// The books are those that the specification of the search keeps.
    spec fn agrees(&self) -> bool {
        let b = self.model@;
        &&& self.dims()
        &&& b.open == self.open.order()
        &&& b.searched == self.searched
        &&& b.walks == self.walks@
        &&& forall|x: int, y: int|
            in_bounds(x, y) ==> (#[trigger] b.closed.contains((x, y))) == self.visited[y][x]
        &&& forall|x: int, y: int| in_bounds(x, y) ==> (#[trigger] b.cost[(x, y)]) == self.g_cost[y][x]
    }

    /// The tile has been expanded.
    spec fn closed(&self, x: int, y: int) -> bool {
        self.visited[y][x]
    }

    /// The cost of the cheapest way found to the tile so far.
    spec fn g(&self, x: int, y: int) -> int {
        self.g_cost[y][x] as int
    }

    /// Some way to the tile has been found.
    spec fn seen(&self, x: int, y: int) -> bool {
        self.g_cost[y][x] != usize::MAX
    }

    spec fn parent(&self, x: int, y: int) -> (int, int) {
        (self.came_from[y][x].0 as int, self.came_from[y][x].1 as int)
    }

    spec fn walk(&self, x: int, y: int) -> Seq<(usize, usize)> {
        self.walks@[(x, y)]
    }

    /// The frontier entry that stands for the cheapest way found to the tile.
    spec fn entry(&self, q: Quest, x: int, y: int) -> Node {
        Node {
            x: x as usize,
            y: y as usize,
            cost: self.g_cost[y][x],
            priority: (self.g(x, y) + spec_heuristic(x, y, q.gx, q.gy)) as usize,
        }
    }

    spec fn queued(&self, q: Quest, x: int, y: int) -> bool {
        self.open@.count(self.entry(q, x, y)) > 0
    }

    /// The step from `(x, y)` in direction `k` cannot improve on the way
    /// found to the tile it leads to.
    spec fn relaxed(&self, world: &World, q: Quest, x: int, y: int, k: int) -> bool {
        let (nx, ny) = target(x, y, k);
        passable(world, q.gx, q.gy, q.allow_tree, nx, ny) ==> self.g(nx, ny) <= self.g(x, y)
            + step_cost(0, 0, direction(k).0, direction(k).1)
    }

    spec fn inv_tree(&self, world: &World, q: Quest) -> bool {
        &&& self.seen(q.sx, q.sy)
        &&& self.g(q.sx, q.sy) == 0
        &&& !self.closed(q.gx, q.gy)
        &&& is_tree(&self.came_from, self.walks@, q.sx, q.sy)
        &&& forall|x: int, y: int|
            in_bounds(x, y) ==> (#[trigger] self.walks@.dom().contains((x, y)) <==> self.seen(x, y))
        &&& forall|x: int, y: int|
            in_bounds(x, y) && #[trigger] self.seen(x, y) ==> {
                &&& self.g(x, y) <= DIAGONAL_COST * self.searched
                &&& is_walk(world, q.gx, q.gy, q.allow_tree, q.sx, q.sy, self.walk(x, y))
                &&& stop(q.sx, q.sy, self.walk(x, y), self.walk(x, y).len() as int) == (x, y)
                &&& route_cost(q.sx, q.sy, self.walk(x, y)) == self.g(x, y)
                &&& ((x, y) != (q.sx, q.sy) ==> self.closed(
                    self.parent(x, y).0,
                    self.parent(x, y).1,
                ))
            }
        &&& forall|x: int, y: int| in_bounds(x, y) && #[trigger] self.closed(x, y) ==> self.seen(x, y)
    }

    spec fn inv_open(&self, q: Quest) -> bool {
        &&& forall|e: Node| #[trigger]
            self.open@.count(e) > 0 ==> {
                &&& in_bounds(e.x as int, e.y as int)
                &&& e.priority == e.cost + spec_heuristic(e.x as int, e.y as int, q.gx, q.gy)
                &&& self.seen(e.x as int, e.y as int)
                &&& self.g(e.x as int, e.y as int) <= e.cost <= DIAGONAL_COST * self.searched
            }
        &&& forall|x: int, y: int|
            in_bounds(x, y) && self.seen(x, y) && !self.closed(x, y) ==> #[trigger] self.queued(q, x, y)
        &&& forall|x: int, y: int, e: Node|
            in_bounds(x, y) && #[trigger] self.closed(x, y) && #[trigger] self.open@.count(e) > 0
                ==> self.g(x, y) + spec_heuristic(x, y, q.gx, q.gy) <= e.priority
    }

    /// Every expanded tile has had all its steps tried, but for the tile
    /// `(cx, cy)`, of which only the first `done` directions were.
    spec fn inv_relaxed(&self, world: &World, q: Quest, cx: int, cy: int, done: int) -> bool {
        forall|x: int, y: int, k: int|
            in_bounds(x, y) && self.closed(x, y) && 0 <= k < 8 && (!(x == cx && y == cy) || k < done)
                ==> #[trigger] self.relaxed(world, q, x, y, k)
    }

    spec fn inv_expanded(&self) -> bool {
        &&& self.expanded@.len() == self.searched
        &&& self.searched <= MAX_SEARCH + 1
        &&& self.expanded@.no_duplicates()
        &&& forall|i: int|
            0 <= i < self.expanded@.len() ==> in_bounds(
                (#[trigger] self.expanded@[i]).0 as int,
                self.expanded@[i].1 as int,
            ) && self.closed(self.expanded@[i].0 as int, self.expanded@[i].1 as int)
        &&& forall|x: int, y: int|
            in_bounds(x, y) && #[trigger] self.closed(x, y) ==> self.expanded@.contains(
                (x as usize, y as usize),
            )
    }

    #[verifier::opaque]
    spec fn inv(&self, world: &World, q: Quest, cx: int, cy: int, done: int) -> bool {
        &&& self.dims()
        &&& in_bounds(q.sx, q.sy)
        &&& in_bounds(q.gx, q.gy)
        &&& (q.sx, q.sy) != (q.gx, q.gy)
        &&& self.inv_tree(world, q)
        &&& self.inv_open(q)
        &&& self.inv_relaxed(world, q, cx, cy, done)
        &&& self.inv_expanded()
    }

    /// `(cx, cy)` is the tile being expanded: it was taken from the frontier
    /// last, so no expanded tile has a larger cost-plus-estimate.
    #[verifier::opaque]
    spec fn expanding(&self, q: Quest, cx: int, cy: int) -> bool {
        &&& in_bounds(cx, cy)
        &&& self.closed(cx, cy)
        &&& self.g(cx, cy) + DIAGONAL_COST <= DIAGONAL_COST * self.searched
        &&& forall|x: int, y: int|
            in_bounds(x, y) && #[trigger] self.closed(x, y) ==> self.g(x, y) + spec_heuristic(
                x,
                y,
                q.gx,
                q.gy,
            ) <= self.g(cx, cy) + spec_heuristic(cx, cy, q.gx, q.gy)
    }

    /// Along any walk from the start, either every stop up to the `i`-th is
    /// expanded, or the first stop that is not has been found at no more
    /// than the walk's cost up to it.
    proof fn lemma_first_open(&self, world: &World, q: Quest, route: Seq<(usize, usize)>, i: int) -> (j: int)
        requires
            self.inv(world, q, -1, -1, 0),
            is_walk(world, q.gx, q.gy, q.allow_tree, q.sx, q.sy, route),
            0 <= i <= route.len(),
        ensures
            0 <= j <= i + 1,
            j <= i ==> {
                let p = stop(q.sx, q.sy, route, j);
                &&& in_bounds(p.0, p.1)
                &&& self.seen(p.0, p.1)
                &&& !self.closed(p.0, p.1)
                &&& self.g(p.0, p.1) <= route_cost(q.sx, q.sy, route.take(j))
            },
            j == i + 1 ==> {
                let p = stop(q.sx, q.sy, route, i);
                &&& in_bounds(p.0, p.1)
                &&& self.closed(p.0, p.1)
                &&& self.g(p.0, p.1) <= route_cost(q.sx, q.sy, route.take(i))
            },
        decreases i,
    {
        reveal(Search::inv);
        reveal(Search::expanding);
        if i == 0 {
            assert(route.take(0) =~= Seq::<(usize, usize)>::empty());
            if self.closed(q.sx, q.sy) {
                1
            } else {
                0
            }
        } else {
            let j = self.lemma_first_open(world, q, route, i - 1);
            if j <= i - 1 {
                j
            } else {
                let a = stop(q.sx, q.sy, route, i - 1);
                let b = route[i - 1];
                let k = lemma_direction_of(a.0, a.1, b.0 as int, b.1 as int);
                assert(self.relaxed(world, q, a.0, a.1, k));
                lemma_cost_of_prefix(q.sx, q.sy, route, i - 1);
                assert(self.seen(a.0, a.1));
                if self.closed(b.0 as int, b.1 as int) {
                    i + 1
                } else {
                    i
                }
            }
        }
    }

    /// When a frontier entry for the goal has the least priority, no route
    /// to the goal is cheaper than the way found to it.
    proof fn lemma_goal_reached(&self, world: &World, q: Quest, least: Node, route: Seq<(usize, usize)>)
        requires
            self.inv(world, q, -1, -1, 0),
            self.open@.count(least) > 0,
            forall|other: Node| self.open@.count(other) > 0 ==> least.priority <= other.priority,
            least.x == q.gx,
            least.y == q.gy,
            is_route(world, q.sx, q.sy, q.gx, q.gy, q.allow_tree, route),
        ensures
            self.g(q.gx, q.gy) <= route_cost(q.sx, q.sy, route),
    {
        reveal(Search::inv);
        reveal(Search::expanding);
        let n = route.len() as int;
        let j = self.lemma_first_open(world, q, route, n);
        let p = stop(q.sx, q.sy, route, j);
        assert(self.queued(q, p.0, p.1));
        lemma_heuristic_admissible(q.sx, q.sy, route, j);
    }

    /// When the frontier has run dry, no route leads to the goal.
    proof fn lemma_exhausted(&self, world: &World, q: Quest, route: Seq<(usize, usize)>)
        requires
            self.inv(world, q, -1, -1, 0),
            self.open@.len() == 0,
        ensures
            !is_route(world, q.sx, q.sy, q.gx, q.gy, q.allow_tree, route),
    {
        reveal(Search::inv);
        reveal(Search::expanding);
        if is_route(world, q.sx, q.sy, q.gx, q.gy, q.allow_tree, route) {
            let n = route.len() as int;
            let j = self.lemma_first_open(world, q, route, n);
            let p = stop(q.sx, q.sy, route, j);
            assert(self.queued(q, p.0, p.1));
            vstd::multiset::axiom_count_le_len(self.open@, self.entry(q, p.0, p.1));
        }
    }

    /// When `least` has the least priority on the frontier, neither an
    /// expanded tile nor the tile of `least` lies, by cost and estimate,
    /// above what a route to the goal costs.
    proof fn lemma_below_every_route(
        &self,
        world: &World,
        q: Quest,
        least: Node,
        route: Seq<(usize, usize)>,
        x: int,
        y: int,
    )
        requires
            self.inv(world, q, -1, -1, 0),
            self.open@.count(least) > 0,
            forall|other: Node| self.open@.count(other) > 0 ==> least.priority <= other.priority,
            is_route(world, q.sx, q.sy, q.gx, q.gy, q.allow_tree, route),
            in_bounds(x, y),
            self.closed(x, y) || (x == least.x && y == least.y),
        ensures
            self.seen(x, y),
            self.g(x, y) + spec_heuristic(x, y, q.gx, q.gy) <= route_cost(q.sx, q.sy, route),
    {
        reveal(Search::inv);
        let n = route.len() as int;
        let j = self.lemma_first_open(world, q, route, n);
        let p = stop(q.sx, q.sy, route, j);
        assert(j <= n);
        assert(self.queued(q, p.0, p.1));
        lemma_heuristic_admissible(q.sx, q.sy, route, j);
        let e = self.entry(q, p.0, p.1);
        assert(self.open@.count(e) > 0);
        assert(e.priority <= route_cost(q.sx, q.sy, route));
        if self.closed(x, y) {
            assert(self.g(x, y) + spec_heuristic(x, y, q.gx, q.gy) <= e.priority);
        } else {
            assert(least.priority <= e.priority);
        }
    }

    /// A search that is about to expand one tile more than the cap allows
    /// has shown that more tiles than that are in the way to the goal,
    /// unless no route leads there.
    proof fn lemma_cap_reached(&self, world: &World, q: Quest, least: Node)
        requires
            self.inv(world, q, -1, -1, 0),
            self.searched == MAX_SEARCH,
            self.open@.count(least) > 0,
            forall|other: Node| self.open@.count(other) > 0 ==> least.priority <= other.priority,
            in_bounds(least.x as int, least.y as int),
            !self.closed(least.x as int, least.y as int),
        ensures
            cap_reached(world, q.sx, q.sy, q.gx, q.gy, q.allow_tree),
    {
        reveal(Search::inv);
        let tiles = self.expanded@.push((least.x, least.y));
        assert(tiles.no_duplicates()) by {
            assert forall|i: int, j: int|
                0 <= i < tiles.len() && 0 <= j < tiles.len() && i != j implies tiles[i]
                != tiles[j] by {
                if i < self.expanded@.len() {
                    assert(self.closed(self.expanded@[i].0 as int, self.expanded@[i].1 as int));
                }
                if j < self.expanded@.len() {
                    assert(self.closed(self.expanded@[j].0 as int, self.expanded@[j].1 as int));
                }
            }
        }
        assert forall|i: int| 0 <= i < tiles.len() implies in_the_way(
            world,
            q.sx,
            q.sy,
            q.gx,
            q.gy,
            q.allow_tree,
            (#[trigger] tiles[i]).0 as int,
            tiles[i].1 as int,
        ) by {
            let x = tiles[i].0 as int;
            let y = tiles[i].1 as int;
            if i < self.expanded@.len() {
                assert(self.closed(self.expanded@[i].0 as int, self.expanded@[i].1 as int));
            }
            assert(self.seen(x, y));
            let walk = self.walk(x, y);
            assert(is_walk(world, q.gx, q.gy, q.allow_tree, q.sx, q.sy, walk));
            assert forall|route: Seq<(usize, usize)>| #[trigger]
                is_route(world, q.sx, q.sy, q.gx, q.gy, q.allow_tree, route) implies route_cost(
                q.sx,
                q.sy,
                walk,
            ) + spec_heuristic(x, y, q.gx, q.gy) <= route_cost(q.sx, q.sy, route) by {
                self.lemma_below_every_route(world, q, least, route, x, y);
            }
        }
        assert(tiles.len() > MAX_SEARCH);
    }

    /// When a frontier entry for the goal has the least priority, every
    /// tile that a walk reaches below the cost found for the goal, estimate
    /// included, has been expanded.
    proof fn lemma_pressing_is_closed(&self, world: &World, q: Quest, least: Node, walk: Seq<(usize, usize)>)
        requires
            self.inv(world, q, -1, -1, 0),
            self.open@.count(least) > 0,
            forall|other: Node| self.open@.count(other) > 0 ==> least.priority <= other.priority,
            least.x == q.gx,
            least.y == q.gy,
            is_walk(world, q.gx, q.gy, q.allow_tree, q.sx, q.sy, walk),
            ({
                let end = stop(q.sx, q.sy, walk, walk.len() as int);
                route_cost(q.sx, q.sy, walk) + spec_heuristic(end.0, end.1, q.gx, q.gy) < self.g(
                    q.gx,
                    q.gy,
                )
            }),
        ensures
            ({
                let end = stop(q.sx, q.sy, walk, walk.len() as int);
                in_bounds(end.0, end.1) && self.closed(end.0, end.1)
            }),
    {
        reveal(Search::inv);
        let n = walk.len() as int;
        let j = self.lemma_first_open(world, q, walk, n);
        if j <= n {
            let p = stop(q.sx, q.sy, walk, j);
            assert(self.queued(q, p.0, p.1));
            let e = self.entry(q, p.0, p.1);
            assert(self.open@.count(e) > 0);
            lemma_estimate_along(q.sx, q.sy, walk, j, q.gx, q.gy);
            assert(least.priority <= e.priority);
            assert(self.g(q.gx, q.gy) <= least.cost);
            assert(least.priority == least.cost + spec_heuristic(q.gx, q.gy, q.gx, q.gy));
            assert(false);
        }
    }

    /// When a frontier entry for the goal has the least priority, the
    /// search has stayed within its cap: no more than the tiles expanded
    /// press below the cost found for the goal.
    proof fn lemma_within_cap(&self, world: &World, q: Quest, least: Node)
        requires
            self.inv(world, q, -1, -1, 0),
            self.searched <= MAX_SEARCH,
            self.open@.count(least) > 0,
            forall|other: Node| self.open@.count(other) > 0 ==> least.priority <= other.priority,
            least.x == q.gx,
            least.y == q.gy,
        ensures
            within_cap(world, q.sx, q.sy, q.gx, q.gy, q.allow_tree, self.g(q.gx, q.gy)),
            self.g(q.gx, q.gy) == route_cost(q.sx, q.sy, self.walk(q.gx, q.gy)),
    {
        reveal(Search::inv);
        assert(self.seen(q.gx, q.gy));
        let bound = self.g(q.gx, q.gy);
        assert forall|tiles: Seq<(usize, usize)>|
            #[trigger] tiles.no_duplicates() && (forall|i: int|
                0 <= i < tiles.len() ==> presses(
                    world,
                    q.sx,
                    q.sy,
                    q.gx,
                    q.gy,
                    q.allow_tree,
                    (#[trigger] tiles[i]).0 as int,
                    tiles[i].1 as int,
                    bound,
                )) implies tiles.len() <= MAX_SEARCH by {
            assert forall|i: int| 0 <= i < tiles.len() implies self.expanded@.contains(
                #[trigger] tiles[i],
            ) by {
                let x = tiles[i].0 as int;
                let y = tiles[i].1 as int;
                assert(presses(world, q.sx, q.sy, q.gx, q.gy, q.allow_tree, x, y, bound));
                let walk = choose|walk: Seq<(usize, usize)>| #[trigger]
                    is_walk(world, q.gx, q.gy, q.allow_tree, q.sx, q.sy, walk) && stop(
                        q.sx,
                        q.sy,
                        walk,
                        walk.len() as int,
                    ) == (x, y) && route_cost(q.sx, q.sy, walk) + spec_heuristic(x, y, q.gx, q.gy)
                        < bound;
                self.lemma_pressing_is_closed(world, q, least, walk);
                assert(self.closed(x, y));
                assert(self.expanded@.contains((x as usize, y as usize)));
            }
            lemma_fits(tiles, self.expanded@);
        }
    }
}

impl Search {
    /// The books at the outset: only the start has been found, at no cost,
    /// and waits on the frontier.
    fn begin(world: &World, sx: usize, sy: usize, gx: usize, gy: usize, Ghost(q): Ghost<Quest>) -> (s:
        Search)
        requires
            in_bounds(sx as int, sy as int),
            in_bounds(gx as int, gy as int),
            !(sx == gx && sy == gy),
            q.sx == sx,
            q.sy == sy,
            q.gx == gx,
            q.gy == gy,
        ensures
            s.inv(world, q, -1, -1, 0),
            s.searched == 0,
            s.agrees(),
            s.model@ == first_books(sx as int, sy as int, gx as int, gy as int),
    {
        let mut g_cost = grid_of(usize::MAX);
        g_cost[sy][sx] = 0;
        let mut open = Frontier::new();
        let first = Node { x: sx, y: sy, cost: 0, priority: heuristic(sx, sy, gx, gy) };
        open.push(first);
        let s = Search {
            visited: grid_of(false),
            came_from: grid_of((0usize, 0usize)),
            g_cost,
            open,
            searched: 0,
            walks: Ghost(Map::empty().insert((sx as int, sy as int), Seq::empty())),
            expanded: Ghost(Seq::empty()),
            model: Ghost(first_books(sx as int, sy as int, gx as int, gy as int)),
        };
        proof {
            reveal(Search::inv);
            assert forall|x: int, y: int| in_bounds(x, y) implies (s.seen(x, y) <==> (x == sx && y
                == sy)) by {}
            assert(s.walk(q.sx, q.sy) =~= Seq::<(usize, usize)>::empty());
            assert(s.entry(q, q.sx, q.sy) == first);
            assert(s.inv_tree(world, q));
            assert(s.inv_open(q));
        }
        s
    }

    /// Marks the tile of the entry just taken from the frontier as expanded.
    fn close(&mut self, world: &World, Ghost(q): Ghost<Quest>, Ghost(before): Ghost<Search>, current: Node)
        requires
            before.inv(world, q, -1, -1, 0),
            before.searched <= MAX_SEARCH,
            before.open@.count(current) > 0,
            forall|other: Node| before.open@.count(other) > 0 ==> current.priority <= other.priority,
            !(current.x == q.gx && current.y == q.gy),
            !before.closed(current.x as int, current.y as int),
            old(self).open@ == before.open@.remove(current),
            old(self).visited == before.visited,
            old(self).came_from == before.came_from,
            old(self).g_cost == before.g_cost,
            old(self).searched == before.searched,
            old(self).walks == before.walks,
            old(self).expanded == before.expanded,
            old(self).agrees(),
        ensures
            final(self).inv(world, q, current.x as int, current.y as int, 0),
            final(self).expanding(q, current.x as int, current.y as int),
            final(self).searched == before.searched + 1,
            final(self).open@ == old(self).open@,
            current.cost == final(self).g(current.x as int, current.y as int),
            final(self).agrees(),
            final(self).model@ == (Books {
                closed: old(self).model@.closed.insert((current.x as int, current.y as int)),
                searched: old(self).model@.searched + 1,
                ..old(self).model@
            }),
    {
        let ghost cx = current.x as int;
        let ghost cy = current.y as int;
        proof {
            reveal(Search::inv);
            reveal(Search::expanding);
            assert(before.queued(q, cx, cy));
        }
        self.visited[current.y][current.x] = true;
        self.searched += 1;
        proof {
            self.expanded@ = self.expanded@.push((current.x, current.y));
            self.model@ = Books {
                closed: self.model@.closed.insert((current.x as int, current.y as int)),
                searched: self.model@.searched + 1,
                ..self.model@
            };
            assert(self.agrees());
        }
        proof {
            assert forall|x: int, y: int| in_bounds(x, y) implies self.closed(x, y) == (before.closed(
                x,
                y,
            ) || (x == cx && y == cy)) by {}
            assert forall|x: int, y: int|
                in_bounds(x, y) && self.seen(x, y) && !self.closed(x, y) implies #[trigger] self.queued(
                q,
                x,
                y,
            ) by {
                assert(before.queued(q, x, y));
            }
            assert forall|x: int, y: int, k: int|
                in_bounds(x, y) && self.closed(x, y) && 0 <= k < 8 && (!(x == cx && y == cy) || k
                    < 0) implies #[trigger] self.relaxed(world, q, x, y, k) by {
                assert(before.relaxed(world, q, x, y, k));
            }
            assert forall|x: int, y: int| in_bounds(x, y) && #[trigger] self.closed(x, y) implies {
                &&& self.expanded@.contains((x as usize, y as usize))
                &&& self.g(x, y) + spec_heuristic(x, y, q.gx, q.gy) <= self.g(cx, cy) + spec_heuristic(
                    cx,
                    cy,
                    q.gx,
                    q.gy,
                )
            } by {
                if x == cx && y == cy {
                    assert(self.expanded@[before.expanded@.len() as int] == (x as usize, y as usize));
                } else {
                    assert(before.closed(x, y));
                    let i = choose|i: int|
                        0 <= i < before.expanded@.len() && before.expanded@[i] == (
                            x as usize,
                            y as usize,
                        );
                    assert(self.expanded@[i] == (x as usize, y as usize));
                }
            }
            assert(self.expanded@.no_duplicates()) by {
                assert forall|i: int, j: int|
                    0 <= i < self.expanded@.len() && 0 <= j < self.expanded@.len() && i
                        != j implies self.expanded@[i] != self.expanded@[j] by {
                    if i < before.expanded@.len() {
                        assert(before.closed(before.expanded@[i].0 as int, before.expanded@[i].1 as int));
                    }
                    if j < before.expanded@.len() {
                        assert(before.closed(before.expanded@[j].0 as int, before.expanded@[j].1 as int));
                    }
                }
            }
            assert forall|x: int, y: int| in_bounds(x, y) && #[trigger] self.seen(x, y) implies {
                &&& self.g(x, y) <= DIAGONAL_COST * self.searched
                &&& is_walk(world, q.gx, q.gy, q.allow_tree, q.sx, q.sy, self.walk(x, y))
                &&& stop(q.sx, q.sy, self.walk(x, y), self.walk(x, y).len() as int) == (x, y)
                &&& route_cost(q.sx, q.sy, self.walk(x, y)) == self.g(x, y)
                &&& ((x, y) != (q.sx, q.sy) ==> self.closed(
                    self.parent(x, y).0,
                    self.parent(x, y).1,
                ))
            } by {
                assert(before.seen(x, y));
                if (x, y) != (q.sx, q.sy) {
                    assert(before.walks@.dom().contains((x, y)));
                    assert(before.closed(before.parent(x, y).0, before.parent(x, y).1));
                }
            }
            assert(self.inv_tree(world, q));
            assert(self.inv_open(q));
            assert(self.inv_expanded());
        }
    }
}

impl Search {
    /// Tries the step from the tile being expanded in direction `k`: where
    /// it leads to a tile more cheaply than any way found before, the tile's
    /// books are rewritten and it joins the frontier.
    fn relax(
        &mut self,
        world: &World,
        Ghost(q): Ghost<Quest>,
        gx: usize,
        gy: usize,
        allow_tree: bool,
        current: Node,
        k: usize,
    )
        requires
            world.wf(),
            q.gx == gx,
            q.gy == gy,
            q.allow_tree == allow_tree,
            k < 8,
            old(self).inv(world, q, current.x as int, current.y as int, k as int),
            old(self).expanding(q, current.x as int, current.y as int),
            current.cost == old(self).g(current.x as int, current.y as int),
            old(self).agrees(),
        ensures
            final(self).inv(world, q, current.x as int, current.y as int, k + 1),
            final(self).expanding(q, current.x as int, current.y as int),
            final(self).searched == old(self).searched,
            final(self).open@.len() <= old(self).open@.len() + 1,
            current.cost == final(self).g(current.x as int, current.y as int),
            final(self).agrees(),
            final(self).model@ == tried(
                old(self).model@,
                world,
                gx as int,
                gy as int,
                allow_tree,
                current,
                k as int,
            ),
    {
        let ghost before = *self;
        let ghost cx = current.x as int;
        let ghost cy = current.y as int;
        proof {
            before.lemma_books(world, q, cx, cy, k as int);
        }
        let (dx, dy) = neighbour_offset(k);
        let tx: i32 = current.x as i32 + dx;
        let ty: i32 = current.y as i32 + dy;
        if tx < 0 || ty < 0 || tx >= MAP_WIDTH as i32 || ty >= MAP_HEIGHT as i32 {
            proof {
                before.lemma_one_more(world, q, cx, cy, k as int);
            }
            return ;
        }
        let nx = tx as usize;
        let ny = ty as usize;
        assert((nx as int, ny as int) == target(cx, cy, k as int));
        if self.visited[ny][nx] {
            proof {
                before.lemma_closed_neighbour(world, q, cx, cy, k as int);
                before.lemma_one_more(world, q, cx, cy, k as int);
            }
            return ;
        }
        let is_goal = nx == gx && ny == gy;
        if !is_goal {
            let terrain = world.get(nx, ny);
            let ok = world.is_walkable(nx, ny) || (allow_tree && terrain == Terrain::Tree);
            if !ok {
                proof {
                    before.lemma_one_more(world, q, cx, cy, k as int);
                }
                return ;
            }
        }
        let move_cost = if dx != 0 && dy != 0 {
            DIAGONAL_COST
        } else {
            STRAIGHT_COST
        };
        let new_cost = current.cost + move_cost;
        if new_cost < self.g_cost[ny][nx] {
            let node = Node { x: nx, y: ny, cost: new_cost, priority: new_cost + heuristic(nx, ny, gx, gy) };
            self.g_cost[ny][nx] = new_cost;
            self.came_from[ny][nx] = (current.x, current.y);
            self.open.push(node);
            proof {
                self.walks@ = self.walks@.insert((nx as int, ny as int), self.walk(cx, cy).push((nx, ny)));
                self.model@ = tried(before.model@, world, gx as int, gy as int, allow_tree, current, k as int);
                before.lemma_improved(self, world, q, cx, cy, k as int, node);
                assert(self.agrees());
            }
        } else {
            proof {
                before.lemma_one_more(world, q, cx, cy, k as int);
            }
        }
    }

    /// What the code that keeps the books needs to know of them.
    proof fn lemma_books(&self, world: &World, q: Quest, cx: int, cy: int, k: int)
        requires
            self.inv(world, q, cx, cy, k),
        ensures
            self.dims(),
            in_bounds(q.sx, q.sy),
            in_bounds(q.gx, q.gy),
            (q.sx, q.sy) != (q.gx, q.gy),
            self.searched <= MAX_SEARCH + 1,
            self.expanding(q, cx, cy) ==> in_bounds(cx, cy) && self.g(cx, cy) + DIAGONAL_COST
                <= DIAGONAL_COST * self.searched,
            is_tree(&self.came_from, self.walks@, q.sx, q.sy),
    {
        reveal(Search::inv);
        reveal(Search::expanding);
    }

    /// A step onto a tile that was expanded earlier is no improvement.
    proof fn lemma_closed_neighbour(&self, world: &World, q: Quest, cx: int, cy: int, k: int)
        requires
            0 <= k < 8,
            self.inv(world, q, cx, cy, k),
            self.expanding(q, cx, cy),
            in_bounds(target(cx, cy, k).0, target(cx, cy, k).1),
            self.closed(target(cx, cy, k).0, target(cx, cy, k).1),
        ensures
            self.relaxed(world, q, cx, cy, k),
    {
        reveal(Search::inv);
        reveal(Search::expanding);
        let t = target(cx, cy, k);
        lemma_heuristic_consistent(cx, cy, t.0, t.1, q.gx, q.gy);
    }

    /// Once the step in direction `k` is known to be no improvement, the
    /// books stand as they are with one more direction done.
    proof fn lemma_one_more(&self, world: &World, q: Quest, cx: int, cy: int, k: int)
        requires
            self.inv(world, q, cx, cy, k),
            self.relaxed(world, q, cx, cy, k),
        ensures
            self.inv(world, q, cx, cy, k + 1),
    {
        reveal(Search::inv);
        reveal(Search::expanding);
    }

    /// The books after a cheaper way to a neighbour of the tile being
    /// expanded was written down are in order again.
    proof fn lemma_improved(&self, after: &Search, world: &World, q: Quest, cx: int, cy: int, k: int, node: Node)
        requires
            0 <= k < 8,
            self.inv(world, q, cx, cy, k),
            self.expanding(q, cx, cy),
            (node.x as int, node.y as int) == target(cx, cy, k),
            passable(world, q.gx, q.gy, q.allow_tree, node.x as int, node.y as int),
            !self.closed(node.x as int, node.y as int),
            node.cost == self.g(cx, cy) + step_cost(0, 0, direction(k).0, direction(k).1),
            node.cost < self.g_cost[node.y as int][node.x as int],
            node.priority == node.cost + spec_heuristic(node.x as int, node.y as int, q.gx, q.gy),
            after.visited == self.visited,
            after.searched == self.searched,
            after.expanded == self.expanded,
            after.dims(),
            forall|x: int, y: int|
                in_bounds(x, y) ==> after.g_cost[y][x] == if x == node.x && y == node.y {
                    node.cost
                } else {
                    self.g_cost[y][x]
                },
            forall|x: int, y: int|
                in_bounds(x, y) ==> after.came_from[y][x] == if x == node.x && y == node.y {
                    (cx as usize, cy as usize)
                } else {
                    self.came_from[y][x]
                },
            after.open@ == self.open@.insert(node),
            after.walks@ == self.walks@.insert(
                (node.x as int, node.y as int),
                self.walk(cx, cy).push((node.x, node.y)),
            ),
        ensures
            after.inv(world, q, cx, cy, k + 1),
            after.expanding(q, cx, cy),
            after.g(cx, cy) == self.g(cx, cy),
    {
        reveal(Search::inv);
        reveal(Search::expanding);
        let nx = node.x as int;
        let ny = node.y as int;
        assert(self.seen(cx, cy));
        assert(adjacent(cx, cy, nx, ny));
        assert(step_cost(cx, cy, nx, ny) == step_cost(0, 0, direction(k).0, direction(k).1));
        lemma_walk_push(world, q.gx, q.gy, q.allow_tree, q.sx, q.sy, self.walk(cx, cy), (node.x, node.y));
        assert forall|x: int, y: int| in_bounds(x, y) implies {
            &&& after.closed(x, y) == self.closed(x, y)
            &&& after.seen(x, y) == (self.seen(x, y) || (x == nx && y == ny))
            &&& (!(x == nx && y == ny) ==> after.g(x, y) == self.g(x, y) && after.walk(x, y)
                == self.walk(x, y) && after.parent(x, y) == self.parent(x, y))
            &&& after.g(x, y) <= self.g(x, y)
        } by {}
        assert(after.walk(nx, ny) == self.walk(cx, cy).push((node.x, node.y)));
        assert(after.parent(nx, ny) == (cx, cy));

        assert forall|x: int, y: int| in_bounds(x, y) && #[trigger] after.seen(x, y) implies {
            &&& after.g(x, y) <= DIAGONAL_COST * after.searched
            &&& is_walk(world, q.gx, q.gy, q.allow_tree, q.sx, q.sy, after.walk(x, y))
            &&& stop(q.sx, q.sy, after.walk(x, y), after.walk(x, y).len() as int) == (x, y)
            &&& route_cost(q.sx, q.sy, after.walk(x, y)) == after.g(x, y)
            &&& ((x, y) != (q.sx, q.sy) ==> after.closed(after.parent(x, y).0, after.parent(x, y).1))
        } by {
            if !(x == nx && y == ny) {
                assert(self.seen(x, y));
                if (x, y) != (q.sx, q.sy) {
                    assert(self.closed(self.parent(x, y).0, self.parent(x, y).1));
                }
            }
        }
        assert forall|x: int, y: int|
            in_bounds(x, y) && #[trigger] after.walks@.dom().contains((x, y)) && (x, y) != (
                q.sx,
                q.sy,
            ) implies {
            let p = after.came_from[y][x];
            &&& in_bounds(p.0 as int, p.1 as int)
            &&& after.walks@.dom().contains((p.0 as int, p.1 as int))
            &&& after.walks@[(x, y)] == after.walks@[(p.0 as int, p.1 as int)].push(
                (x as usize, y as usize),
            )
        } by {
            if x == nx && y == ny {
                assert(self.walks@.dom().contains((cx, cy)));
            } else {
                assert(self.walks@.dom().contains((x, y)));
                let p = self.came_from[y][x];
                assert(self.seen(x, y));
                assert(self.closed(p.0 as int, p.1 as int));
            }
        }
        assert forall|x: int, y: int| in_bounds(x, y) implies (
        #[trigger] after.walks@.dom().contains((x, y)) <==> after.seen(x, y)) by {
            assert(self.walks@.dom().contains((x, y)) <==> self.seen(x, y));
        }
        assert(after.inv_tree(world, q));

        assert forall|e: Node| #[trigger] after.open@.count(e) > 0 implies {
            &&& in_bounds(e.x as int, e.y as int)
            &&& e.priority == e.cost + spec_heuristic(e.x as int, e.y as int, q.gx, q.gy)
            &&& after.seen(e.x as int, e.y as int)
            &&& after.g(e.x as int, e.y as int) <= e.cost <= DIAGONAL_COST * after.searched
        } by {
            if e != node {
                assert(self.open@.count(e) > 0);
            }
        }
        assert forall|x: int, y: int|
            in_bounds(x, y) && after.seen(x, y) && !after.closed(x, y) implies #[trigger] after.queued(
            q,
            x,
            y,
        ) by {
            if x == nx && y == ny {
                assert(after.entry(q, x, y) == node);
            } else {
                assert(self.queued(q, x, y));
                assert(after.entry(q, x, y) == self.entry(q, x, y));
            }
        }
        assert forall|x: int, y: int, e: Node|
            in_bounds(x, y) && #[trigger] after.closed(x, y) && #[trigger] after.open@.count(e)
                > 0 implies after.g(x, y) + spec_heuristic(x, y, q.gx, q.gy) <= e.priority by {
            assert(self.closed(x, y));
            if e == node {
                lemma_heuristic_consistent(cx, cy, nx, ny, q.gx, q.gy);
            } else {
                assert(self.open@.count(e) > 0);
            }
        }
        assert(after.inv_open(q));

        assert forall|x: int, y: int, j: int|
            in_bounds(x, y) && after.closed(x, y) && 0 <= j < 8 && (!(x == cx && y == cy) || j < k
                + 1) implies #[trigger] after.relaxed(world, q, x, y, j) by {
            if x == cx && y == cy && j == k {
            } else {
                assert(self.relaxed(world, q, x, y, j));
                let t = target(x, y, j);
                if in_bounds(t.0, t.1) {
                    assert(after.g(t.0, t.1) <= self.g(t.0, t.1));
                }
            }
        }
        assert forall|i: int| 0 <= i < after.expanded@.len() implies in_bounds(
            (#[trigger] after.expanded@[i]).0 as int,
            after.expanded@[i].1 as int,
        ) && after.closed(after.expanded@[i].0 as int, after.expanded@[i].1 as int) by {
            assert(self.closed(self.expanded@[i].0 as int, self.expanded@[i].1 as int));
        }
        assert forall|x: int, y: int| in_bounds(x, y) && #[trigger] after.closed(x, y) implies {
            &&& after.expanded@.contains((x as usize, y as usize))
            &&& after.seen(x, y)
            &&& after.g(x, y) + spec_heuristic(x, y, q.gx, q.gy) <= after.g(cx, cy) + spec_heuristic(
                cx,
                cy,
                q.gx,
                q.gy,
            )
        } by {
            assert(self.closed(x, y));
        }
    }
}

/// Finds a cheapest route from `(sx, sy)` to `(gx, gy)`: the waypoints in
/// order, the start left out and the goal included. With `allow_tree`, tree
/// tiles may be stepped on. Returns `None` when there is no route, and
/// also when the search would have to expand more than `MAX_SEARCH` tiles:
/// it gives up only where more tiles than that are in the way to the goal,
/// and it finds a route only where no more than that press below its cost.
pub fn find_path(world: &World, sx: usize, sy: usize, gx: usize, gy: usize, allow_tree: bool) -> (r:
    Option<Vec<(usize, usize)>>)
    requires
        world.wf(),
        in_bounds(sx as int, sy as int),
        in_bounds(gx as int, gy as int),
    ensures
        sx == gx && sy == gy ==> (r matches Some(route) && route@.len() == 0),
        r matches Some(route) ==> {
            &&& is_route(world, sx as int, sy as int, gx as int, gy as int, allow_tree, route@)
            &&& is_cheapest(world, sx as int, sy as int, gx as int, gy as int, allow_tree, route@)
            &&& within_cap(
                world,
                sx as int,
                sy as int,
                gx as int,
                gy as int,
                allow_tree,
                route_cost(sx as int, sy as int, route@),
            )
        },
        r is None ==> {
            ||| !reachable(
                world,
                sx as int,
                sy as int,
                gx as int,
                gy as int,
                allow_tree,
                gx as int,
                gy as int,
            )
            ||| cap_reached(world, sx as int, sy as int, gx as int, gy as int, allow_tree)
        },
        (match r {
            Some(route) => Some(route@),
            None => None,
        }) == search_result(world, sx as int, sy as int, gx as int, gy as int, allow_tree),
{
    if sx == gx && sy == gy {
        let route: Vec<(usize, usize)> = Vec::new();
        proof {
            assert forall|other: Seq<(usize, usize)>| #[trigger]
                is_route(
                    world,
                    sx as int,
                    sy as int,
                    gx as int,
                    gy as int,
                    allow_tree,
                    other,
                ) implies route_cost(sx as int, sy as int, route@) <= route_cost(
                sx as int,
                sy as int,
                other,
            ) by {
                lemma_cost_nonnegative(sx as int, sy as int, other);
            }
            lemma_nothing_presses(world, sx as int, sy as int, gx as int, gy as int, allow_tree);
        }
        return Some(route);
    }
    let ghost q = Quest { sx: sx as int, sy: sy as int, gx: gx as int, gy: gy as int, allow_tree };
    let mut s = Search::begin(world, sx, sy, gx, gy, Ghost(q));
    loop
        invariant
            world.wf(),
            q == (Quest { sx: sx as int, sy: sy as int, gx: gx as int, gy: gy as int, allow_tree }),
            in_bounds(sx as int, sy as int),
            in_bounds(gx as int, gy as int),
            s.inv(world, q, -1, -1, 0),
            s.searched <= MAX_SEARCH,
            s.agrees(),
            searched_on(s.model@, world, gx as int, gy as int, allow_tree) == search_result(
                world,
                sx as int,
                sy as int,
                gx as int,
                gy as int,
                allow_tree,
            ),
        decreases MAX_SEARCH - s.searched, s.open@.len(),
    {
        let ghost before = s;
        proof {
            before.lemma_books(world, q, -1, -1, 0);
        }
        let current = match s.open.pop() {
            None => {
                proof {
                    assert forall|route: Seq<(usize, usize)>|
                        !(#[trigger] is_walk(world, q.gx, q.gy, allow_tree, q.sx, q.sy, route)
                            && stop(q.sx, q.sy, route, route.len() as int) == (q.gx, q.gy)) by {
                        before.lemma_exhausted(world, q, route);
                    }
                }
                return None;
            },
            Some(node) => node,
        };
        proof {
            s.model@ = Books {
                open: before.model@.open.remove(least_index(before.model@.open)),
                ..before.model@
            };
        }
        if current.x == gx && current.y == gy {
            proof {
                before.lemma_found(world, q, current);
                before.lemma_within_cap(world, q, current);
            }
            return Some(reconstruct_path(&s.came_from, sx, sy, gx, gy, Ghost(s.walks@)));
        }
        proof {
            before.lemma_entry(world, q, current);
        }
        if s.visited[current.y][current.x] {
            proof {
                before.lemma_stale(&s, world, q, current);
            }
            continue ;
        }
        s.close(world, Ghost(q), Ghost(before), current);
        if s.searched > MAX_SEARCH {
            proof {
                before.lemma_cap_reached(world, q, current);
            }
            return None;
        }
        let ghost shut = s.model@;
        let mut k: usize = 0;
        while k < 8
            invariant
                world.wf(),
                q == (Quest { sx: sx as int, sy: sy as int, gx: gx as int, gy: gy as int, allow_tree }),
                k <= 8,
                s.inv(world, q, current.x as int, current.y as int, k as int),
                s.expanding(q, current.x as int, current.y as int),
                current.cost == s.g(current.x as int, current.y as int),
                s.searched == before.searched + 1,
                s.searched <= MAX_SEARCH,
                s.agrees(),
                tried_from(s.model@, world, gx as int, gy as int, allow_tree, current, k as int)
                    == tried_from(shut, world, gx as int, gy as int, allow_tree, current, 0),
            decreases 8 - k,
        {
            s.relax(world, Ghost(q), gx, gy, allow_tree, current, k);
            k += 1;
        }
        proof {
            s.lemma_expanded(world, q, current.x as int, current.y as int);
            assert(s.model@ == tried_from(shut, world, gx as int, gy as int, allow_tree, current, 0));
            assert((Books { searched: before.model@.searched + 1, ..s.model@ }) == s.model@);
        }
    }
}

impl Search {
    /// An entry on the frontier names a tile of the map.
    proof fn lemma_entry(&self, world: &World, q: Quest, node: Node)
        requires
            self.inv(world, q, -1, -1, 0),
            self.open@.count(node) > 0,
        ensures
            in_bounds(node.x as int, node.y as int),
    {
        reveal(Search::inv);
    }

    /// When the entry of least priority is one for the goal, the walk that
    /// the books hold for the goal is a cheapest route.
    proof fn lemma_found(&self, world: &World, q: Quest, least: Node)
        requires
            self.inv(world, q, -1, -1, 0),
            self.open@.count(least) > 0,
            forall|other: Node| self.open@.count(other) > 0 ==> least.priority <= other.priority,
            least.x == q.gx,
            least.y == q.gy,
        ensures
            self.walks@.dom().contains((q.gx, q.gy)),
            is_route(world, q.sx, q.sy, q.gx, q.gy, q.allow_tree, self.walk(q.gx, q.gy)),
            is_cheapest(world, q.sx, q.sy, q.gx, q.gy, q.allow_tree, self.walk(q.gx, q.gy)),
    {
        reveal(Search::inv);
        assert(self.seen(q.gx, q.gy));
        assert forall|other: Seq<(usize, usize)>| #[trigger]
            is_route(world, q.sx, q.sy, q.gx, q.gy, q.allow_tree, other) implies route_cost(
            q.sx,
            q.sy,
            self.walk(q.gx, q.gy),
        ) <= route_cost(q.sx, q.sy, other) by {
            self.lemma_goal_reached(world, q, least, other);
        }
    }

    /// Dropping a frontier entry for a tile that is already expanded leaves
    /// the books in order.
    proof fn lemma_stale(&self, after: &Search, world: &World, q: Quest, node: Node)
        requires
            self.inv(world, q, -1, -1, 0),
            self.open@.count(node) > 0,
            self.closed(node.x as int, node.y as int),
            after.open@ == self.open@.remove(node),
            after.visited == self.visited,
            after.came_from == self.came_from,
            after.g_cost == self.g_cost,
            after.searched == self.searched,
            after.walks == self.walks,
            after.expanded == self.expanded,
        ensures
            after.inv(world, q, -1, -1, 0),
            after.open@.len() < self.open@.len(),
    {
        reveal(Search::inv);
        assert forall|x: int, y: int| in_bounds(x, y) implies {
            &&& after.closed(x, y) == self.closed(x, y)
            &&& after.seen(x, y) == self.seen(x, y)
            &&& after.g(x, y) == self.g(x, y)
            &&& after.walk(x, y) == self.walk(x, y)
            &&& after.parent(x, y) == self.parent(x, y)
        } by {}
        assert forall|x: int, y: int| in_bounds(x, y) && #[trigger] after.seen(x, y) implies {
            &&& after.g(x, y) <= DIAGONAL_COST * after.searched
            &&& is_walk(world, q.gx, q.gy, q.allow_tree, q.sx, q.sy, after.walk(x, y))
            &&& stop(q.sx, q.sy, after.walk(x, y), after.walk(x, y).len() as int) == (x, y)
            &&& route_cost(q.sx, q.sy, after.walk(x, y)) == after.g(x, y)
            &&& ((x, y) != (q.sx, q.sy) ==> after.closed(after.parent(x, y).0, after.parent(x, y).1))
        } by {
            assert(self.seen(x, y));
        }
        assert forall|x: int, y: int| in_bounds(x, y) && #[trigger] after.closed(x, y) implies {
            &&& after.seen(x, y)
            &&& after.expanded@.contains((x as usize, y as usize))
        } by {
            assert(self.closed(x, y));
        }
        assert(after.inv_tree(world, q));
        assert forall|e: Node| #[trigger] after.open@.count(e) > 0 implies self.open@.count(e) > 0 by {}
        assert forall|x: int, y: int|
            in_bounds(x, y) && after.seen(x, y) && !after.closed(x, y) implies #[trigger] after.queued(
            q,
            x,
            y,
        ) by {
            assert(self.queued(q, x, y));
            assert(after.entry(q, x, y) == self.entry(q, x, y));
        }
        assert forall|x: int, y: int, e: Node|
            in_bounds(x, y) && #[trigger] after.closed(x, y) && #[trigger] after.open@.count(e)
                > 0 implies after.g(x, y) + spec_heuristic(x, y, q.gx, q.gy) <= e.priority by {
            assert(self.closed(x, y));
            assert(self.open@.count(e) > 0);
        }
        assert(after.inv_open(q));
        assert forall|x: int, y: int, k: int|
            in_bounds(x, y) && after.closed(x, y) && 0 <= k < 8 implies #[trigger] after.relaxed(
            world,
            q,
            x,
            y,
            k,
        ) by {
            assert(self.relaxed(world, q, x, y, k));
        }
        assert forall|i: int| 0 <= i < after.expanded@.len() implies in_bounds(
            (#[trigger] after.expanded@[i]).0 as int,
            after.expanded@[i].1 as int,
        ) && after.closed(after.expanded@[i].0 as int, after.expanded@[i].1 as int) by {
            assert(self.closed(self.expanded@[i].0 as int, self.expanded@[i].1 as int));
        }
    }

    /// Once all eight directions are done, the tile is expanded like any other.
    proof fn lemma_expanded(&self, world: &World, q: Quest, cx: int, cy: int)
        requires
            self.inv(world, q, cx, cy, 8),
        ensures
            self.inv(world, q, -1, -1, 0),
    {
        reveal(Search::inv);
    }
}

} // verus!
