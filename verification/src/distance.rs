use std::collections::VecDeque;
use vstd::prelude::*;
use crate::grid::Grid;
use crate::pos::{Direction, Pos};
use crate::tile::Tile;

verus! {

/// Whether `p` is a cell that creatures can walk onto.
pub open spec fn walkable(ground: Grid<Tile>, p: Pos) -> bool {
    ground.contains(p) && !ground.at(p).blocks_walking()
}

/// Whether a neighbour of `p` has the distance `d`.
pub open spec fn near(field: Grid<Option<usize>>, p: Pos, d: int) -> bool {
    exists|dir: Direction| #[trigger] field.contains(p.step(dir)) && field.at(p.step(dir)) == Some(d as usize)
}

/// Whether the neighbour of `p` in direction `dir` has a distance, and one
/// that is at most one more than that of `p`.
pub open spec fn relaxed(field: Grid<Option<usize>>, p: Pos, dir: Direction) -> bool {
    match field.at(p.step(dir)) {
        Some(e) => field.at(p) matches Some(d) && e <= d + 1,
        None => false,
    }
}

/// Whether `field` gives each cell of `ground` its distance from the
/// nearest of `targets`, counted in steps between neighbours and over
/// walkable cells only (a target itself need not be walkable), and nothing
/// to the cells from which no target can be reached.
///
/// Three conditions say so cell by cell. A target has distance 0. A cell
/// with a larger distance is walkable and has a neighbour that is one
/// nearer, and a cell with distance 0 is a target: so each distance is the
/// length of a path that exists. And a walkable neighbour of a cell with a
/// distance has one too, at most one more: so no shorter path exists.
pub open spec fn is_distance_field(ground: Grid<Tile>, targets: Seq<Pos>, field: Grid<Option<usize>>) -> bool {
    &&& field.wf()
    &&& field.spec_size() == ground.spec_size()
    &&& forall|i: int| 0 <= i < targets.len() && ground.contains(#[trigger] targets[i]) ==> field.at(targets[i]) == Some(0usize)
    &&& forall|p: Pos| ground.contains(p) ==> match #[trigger] field.at(p) {
            Some(d) => if d == 0 {
                targets.contains(p)
            } else {
                walkable(ground, p) && near(field, p, d - 1)
            },
            None => true,
        }
    &&& forall|p: Pos, dir: Direction|
        ground.contains(p) && field.at(p) is Some && walkable(ground, p.step(dir)) ==> #[trigger] relaxed(field, p, dir)
}

/// Whether `b` is a neighbour of `a`.
pub open spec fn adjacent(a: Pos, b: Pos) -> bool {
    exists|dir: Direction| #[trigger] a.step(dir) == b
}

/// Whether `route` leads from a target on the ground from neighbour to
/// neighbour over walkable cells.
pub open spec fn is_route(ground: Grid<Tile>, targets: Seq<Pos>, route: Seq<Pos>) -> bool {
    &&& route.len() >= 1
    &&& targets.contains(route[0])
    &&& ground.contains(route[0])
    &&& forall|i: int| 1 <= i < route.len() ==> walkable(ground, #[trigger] route[i]) && adjacent(route[i - 1], route[i])
}

/// No route is shorter than the distance. The cell at the end of a
/// route has a distance in a distance field, and the route has at least
/// as many steps.
pub proof fn lemma_no_shorter_route(ground: Grid<Tile>, targets: Seq<Pos>, field: Grid<Option<usize>>, route: Seq<Pos>)
    requires
        is_distance_field(ground, targets, field),
        is_route(ground, targets, route),
    ensures
        ground.contains(route.last()),
        field.at(route.last()) is Some,
        field.at(route.last()).unwrap() <= route.len() - 1,
    decreases route.len(),
{
    if route.len() == 1 {
        let i = targets.index_of(route[0]);
        assert(targets[i] == route[0]);
    } else {
        let front = route.drop_last();
        assert forall|i: int|
            1 <= i < front.len() implies
            walkable(ground, #[trigger] front[i]) && adjacent(front[i - 1], front[i]) by {
            assert(front[i] == route[i]);
            assert(front[i - 1] == route[i - 1]);
        }
        assert(front[0] == route[0]);
        lemma_no_shorter_route(ground, targets, field, front);
        let last = route.len() - 1;
        let prev = route[last - 1];
        assert(front.last() == prev);
        assert(walkable(ground, route[last]) && adjacent(route[last - 1], route[last]));
        let dir = choose|dir: Direction| #[trigger] prev.step(dir) == route[last];
        assert(relaxed(field, prev, dir));
    }
}

/// The distance is the length of a route. To a cell with a distance in
/// a distance field there is a route of as many steps.
pub proof fn lemma_route_exists(ground: Grid<Tile>, targets: Seq<Pos>, field: Grid<Option<usize>>, p: Pos, d: nat) -> (route: Seq<Pos>)
    requires
        is_distance_field(ground, targets, field),
        ground.spec_size().x < i64::MAX - 2,
        ground.spec_size().y < i64::MAX - 2,
        ground.contains(p),
        field.at(p) == Some(d as usize),
        d <= usize::MAX,
    ensures
        is_route(ground, targets, route),
        route.last() == p,
        route.len() == d + 1,
    decreases d,
{
    if d == 0 {
        seq![p]
    } else {
        assert(near(field, p, d - 1));
        let dir = choose|dir: Direction| #[trigger] field.contains(p.step(dir)) && field.at(p.step(dir)) == Some((d - 1) as usize);
        let q = p.step(dir);
        let front = lemma_route_exists(ground, targets, field, q, (d - 1) as nat);
        let route = front.push(p);
        lemma_step_back(p, dir);
        assert(q.step(opposite(dir)) == p);
        assert forall|i: int|
            1 <= i < route.len() implies
            walkable(ground, #[trigger] route[i]) && adjacent(route[i - 1], route[i]) by {
            if i < front.len() {
                assert(route[i] == front[i]);
                assert(route[i - 1] == front[i - 1]);
            } else {
                assert(route[i - 1] == q);
            }
        }
        assert(route[0] == front[0]);
        route
    }
}

/// The number of cells without a distance.
pub open spec fn count_none(cells: Seq<Option<usize>>) -> nat
    decreases cells.len(),
{
    if cells.len() == 0 {
        0
    } else {
        count_none(cells.drop_last()) + (if cells.last() is None {
            1nat
        } else {
            0nat
        })
    }
}

proof fn lemma_count_none_bound(cells: Seq<Option<usize>>)
    ensures
        count_none(cells) <= cells.len(),
    decreases cells.len(),
{
    if cells.len() > 0 {
        lemma_count_none_bound(cells.drop_last());
    }
}

proof fn lemma_count_none_update(cells: Seq<Option<usize>>, i: int, d: usize)
    requires
        0 <= i < cells.len(),
        cells[i] is None,
    ensures
        count_none(cells.update(i, Some(d))) + 1 == count_none(cells),
    decreases cells.len(),
{
    let after = cells.update(i, Some(d));
    if i == cells.len() - 1 {
        assert(after.drop_last() =~= cells.drop_last());
    } else {
        assert(after.drop_last() =~= cells.drop_last().update(i, Some(d)));
        lemma_count_none_update(cells.drop_last(), i, d);
    }
}

/// The direction that leads back.
pub open spec fn opposite(dir: Direction) -> Direction {
    match dir {
        Direction::North => Direction::South,
        Direction::South => Direction::North,
        Direction::East => Direction::West,
        Direction::West => Direction::East,
    }
}

/// Whether an entry of the queue from place `head` on stands for cell `q`
/// with a cost of at most `bound`. `frontier` holds all that ever came
/// into the queue, and `head` says how many of them have left it.
pub open spec fn pending(frontier: Seq<(Pos, usize)>, head: int, q: Pos, bound: int) -> bool {
    exists|i: int| head <= i < frontier.len() && (#[trigger] frontier[i]).0 == q && frontier[i].1 <= bound
}

/// Whether the neighbour of `p` in direction `dir` is taken care of: it is
/// not walkable, or has a distance of at most one more than `p`, or waits
/// in the queue with such a cost.
pub open spec fn settled(
    ground: Grid<Tile>,
    known: Grid<Option<usize>>,
    frontier: Seq<(Pos, usize)>,
    head: int,
    p: Pos,
    dir: Direction,
) -> bool {
    walkable(ground, p.step(dir)) ==> relaxed(known, p, dir) || (known.at(p) matches Some(d) && pending(
        frontier,
        head,
        p.step(dir),
        d + 1,
    ))
}

/// The number of cells with a distance.
pub open spec fn count_some(known: Grid<Option<usize>>) -> int {
    known.cells().len() - count_none(known.cells())
}

/// Whether a cell's distance is the length of a path that exists.
pub open spec fn rooted(ground: Grid<Tile>, targets: Seq<Pos>, known: Grid<Option<usize>>, p: Pos, d: int) -> bool {
    if d == 0 {
        targets.contains(p)
    } else {
        walkable(ground, p) && near(known, p, d - 1)
    }
}

/// What holds of the search between two entries of the queue. The entries
/// from `head` to `split` have the cost `level`, those behind them one more.
#[verifier::opaque]
pub open spec fn search_inv(
    ground: Grid<Tile>,
    targets: Seq<Pos>,
    known: Grid<Option<usize>>,
    frontier: Seq<(Pos, usize)>,
    head: int,
    level: int,
    split: int,
) -> bool {
    &&& ground.wf()
    &&& known.wf()
    &&& known.spec_size() == ground.spec_size()
    &&& ground.spec_size().x < i64::MAX - 2
    &&& ground.spec_size().y < i64::MAX - 2
    &&& ground.spec_size().x * ground.spec_size().y <= usize::MAX
    &&& 0 <= head <= split <= frontier.len()
    &&& 0 <= level <= count_some(known)
    &&& (split < frontier.len() ==> level + 1 <= count_some(known))
    &&& forall|i: int| head <= i < split ==> (#[trigger] frontier[i]).1 == level
    &&& forall|i: int| split <= i < frontier.len() ==> (#[trigger] frontier[i]).1 == level + 1
    &&& forall|i: int|
        head <= i < frontier.len() ==> ground.contains((#[trigger] frontier[i]).0) && rooted(
            ground,
            targets,
            known,
            frontier[i].0,
            frontier[i].1 as int,
        )
    &&& forall|p: Pos|
        ground.contains(p) ==> match #[trigger] known.at(p) {
            Some(d) => d <= level && rooted(ground, targets, known, p, d as int),
            None => true,
        }
    &&& forall|i: int|
        0 <= i < targets.len() && ground.contains(#[trigger] targets[i]) ==> known.at(targets[i]) == Some(0usize)
            || pending(frontier, head, targets[i], 0)
}

/// Whether the neighbours of the cells with a distance are taken care of,
/// but for those of `pos` in the directions from place `k` on.
#[verifier::opaque]
pub open spec fn settled_but(
    ground: Grid<Tile>,
    known: Grid<Option<usize>>,
    frontier: Seq<(Pos, usize)>,
    head: int,
    pos: Pos,
    k: int,
) -> bool {
    &&& forall|p: Pos, dir: Direction|
        ground.contains(p) && known.at(p) is Some && p != pos ==> #[trigger] settled(ground, known, frontier, head, p, dir)
    &&& forall|j: int| 0 <= j < k && j < 4 ==> settled(ground, known, frontier, head, pos, #[trigger] Direction::all()[j])
}

/// Whether the neighbours of all cells with a distance are taken care of.
#[verifier::opaque]
pub open spec fn all_settled(
    ground: Grid<Tile>,
    known: Grid<Option<usize>>,
    frontier: Seq<(Pos, usize)>,
    head: int,
) -> bool {
    forall|p: Pos, dir: Direction|
        ground.contains(p) && known.at(p) is Some ==> #[trigger] settled(ground, known, frontier, head, p, dir)
}

proof fn lemma_step_back(p: Pos, dir: Direction)
    requires
        p.within(i64::MAX - 2),
    ensures
        p.step(dir).step(opposite(dir)) == p,
{
}

proof fn lemma_pending_grows(before: Seq<(Pos, usize)>, after: Seq<(Pos, usize)>, head: int, q: Pos, bound: int)
    requires
        0 <= head,
        pending(before, head, q, bound),
        before.len() <= after.len(),
        forall|i: int| 0 <= i < before.len() ==> after[i] == #[trigger] before[i],
    ensures
        pending(after, head, q, bound),
{
    let w = choose|w: int| head <= w < before.len() && (#[trigger] before[w]).0 == q && before[w].1 <= bound;
    assert(after[w] == before[w]);
}

proof fn lemma_near_grows(before: Grid<Option<usize>>, after: Grid<Option<usize>>, p: Pos, d: int)
    requires
        near(before, p, d),
        after.spec_size() == before.spec_size(),
        forall|q: Pos| before.contains(q) && before.at(q) is Some ==> after.at(q) == #[trigger] before.at(q),
    ensures
        near(after, p, d),
{
    let dir = choose|dir: Direction| #[trigger] before.contains(p.step(dir)) && before.at(p.step(dir)) == Some(d as usize);
    assert(after.contains(p.step(dir)) && after.at(p.step(dir)) == Some(d as usize));
}

/// The search starts well with the targets in the queue and no distance known.
proof fn lemma_search_start(ground: Grid<Tile>, targets: Seq<Pos>, known: Grid<Option<usize>>, frontier: Seq<(Pos, usize)>)
    requires
        ground.wf(),
        known.wf(),
        known.spec_size() == ground.spec_size(),
        ground.spec_size().x < i64::MAX - 2,
        ground.spec_size().y < i64::MAX - 2,
        ground.spec_size().x * ground.spec_size().y <= usize::MAX,
        forall|i: int| 0 <= i < known.cells().len() ==> known.cells()[i] == None::<usize>,
        forall|i: int| 0 <= i < frontier.len() ==> ground.contains((#[trigger] frontier[i]).0) && frontier[i].1 == 0 && targets.contains(frontier[i].0),
        forall|i: int| 0 <= i < targets.len() && ground.contains(#[trigger] targets[i]) ==> pending(frontier, 0, targets[i], 0),
    ensures
        search_inv(ground, targets, known, frontier, 0, 0, frontier.len() as int),
        all_settled(ground, known, frontier, 0),
{
    reveal(search_inv);
    reveal(all_settled);
    lemma_count_none_bound(known.cells());
    assert forall|p: Pos| ground.contains(p) implies known.at(p) is None by {
        known.lemma_index_injective(p, p);
    }
}

/// What the search may rely on when it takes the entry at `head`.
proof fn lemma_head(ground: Grid<Tile>, targets: Seq<Pos>, known: Grid<Option<usize>>, frontier: Seq<(Pos, usize)>, head: int, level: int, split: int)
    requires
        search_inv(ground, targets, known, frontier, head, level, split),
        head < frontier.len(),
    ensures
        ground.wf(),
        known.wf(),
        known.spec_size() == ground.spec_size(),
        0 <= head <= split <= frontier.len(),
        ground.contains(frontier[head].0),
        frontier[head].0.within(i64::MAX - 2),
        head < split ==> frontier[head].1 == level,
        head == split ==> frontier[head].1 == level + 1,
        frontier[head].1 <= count_some(known),
        known.at(frontier[head].0) is None ==> count_some(known) < known.cells().len(),
        count_some(known) <= usize::MAX,
{
    reveal(search_inv);
    let pos = frontier[head].0;
    lemma_count_none_bound(known.cells());
    if known.at(pos) is None {
        known.lemma_index_injective(pos, pos);
        lemma_count_none_update(known.cells(), known.index_of(pos), 0);
    }
}

/// When the entries of one cost are used up, those of the next take their place.
proof fn lemma_next_level(ground: Grid<Tile>, targets: Seq<Pos>, known: Grid<Option<usize>>, frontier: Seq<(Pos, usize)>, head: int, level: int, split: int)
    requires
        search_inv(ground, targets, known, frontier, head, level, split),
        head == split,
        head < frontier.len(),
    ensures
        search_inv(ground, targets, known, frontier, head, level + 1, frontier.len() as int),
{
    reveal(search_inv);
}

/// An entry for a cell that has its distance already can be passed over.
proof fn lemma_skip(ground: Grid<Tile>, targets: Seq<Pos>, known: Grid<Option<usize>>, frontier: Seq<(Pos, usize)>, head: int, level: int, split: int)
    requires
        search_inv(ground, targets, known, frontier, head, level, split),
        all_settled(ground, known, frontier, head),
        head < split,
        known.at(frontier[head].0) is Some,
    ensures
        search_inv(ground, targets, known, frontier, head + 1, level, split),
        all_settled(ground, known, frontier, head + 1),
{
    reveal(search_inv);
    reveal(all_settled);
    let pos = frontier[head].0;
    let e = known.at(pos).unwrap();
    assert(e <= level);
    assert forall|i: int|
        0 <= i < targets.len() && ground.contains(#[trigger] targets[i]) implies
        known.at(targets[i]) == Some(0usize) || pending(frontier, head + 1, targets[i], 0) by {
        if known.at(targets[i]) != Some(0usize) {
            let w = choose|w: int| head <= w < frontier.len() && (#[trigger] frontier[w]).0 == targets[i] && frontier[w].1 <= 0;
            if w == head {
                assert(e == 0);
            }
        }
    }
    assert forall|p: Pos, dir: Direction|
        ground.contains(p) && known.at(p) is Some implies
        #[trigger] settled(ground, known, frontier, head + 1, p, dir) by {
        assert(settled(ground, known, frontier, head, p, dir));
        if walkable(ground, p.step(dir)) && !relaxed(known, p, dir) {
            let d = known.at(p).unwrap();
            let w = choose|w: int| head <= w < frontier.len() && (#[trigger] frontier[w]).0 == p.step(dir) && frontier[w].1 <= d + 1;
            if w == head {
                assert(relaxed(known, p, dir));
            }
        }
    }
}

/// Giving the cell at `head` its cost as distance keeps the search well,
/// but for the neighbours of that cell.
proof fn lemma_set(ground: Grid<Tile>, targets: Seq<Pos>, before: Grid<Option<usize>>, known: Grid<Option<usize>>, frontier: Seq<(Pos, usize)>, head: int, level: int, split: int)
    requires
        search_inv(ground, targets, before, frontier, head, level, split),
        all_settled(ground, before, frontier, head),
        head < split,
        before.at(frontier[head].0) is None,
        known.wf(),
        known.spec_size() == before.spec_size(),
        known.cells() == before.cells().update(before.index_of(frontier[head].0), Some(frontier[head].1)),
        known.at(frontier[head].0) == Some(frontier[head].1),
        forall|p: Pos| before.contains(p) && p != frontier[head].0 ==> known.at(p) == before.at(p),
    ensures
        search_inv(ground, targets, known, frontier, head + 1, level, split),
        settled_but(ground, known, frontier, head + 1, frontier[head].0, 0),
        level + 1 <= count_some(known),
        count_some(known) <= usize::MAX,
        count_none(known.cells()) < count_none(before.cells()),
{
    reveal(search_inv);
    reveal(all_settled);
    reveal(settled_but);
    let pos = frontier[head].0;
    let cost = frontier[head].1;
    before.lemma_index_injective(pos, pos);
    lemma_count_none_update(before.cells(), before.index_of(pos), cost);
    lemma_count_none_bound(known.cells());
    assert forall|p: Pos| before.contains(p) && before.at(p) is Some implies known.at(p) == #[trigger] before.at(p) by {}
    assert forall|i: int|
        head + 1 <= i < frontier.len() implies
        ground.contains((#[trigger] frontier[i]).0) && rooted(ground, targets, known, frontier[i].0, frontier[i].1 as int) by {
        if frontier[i].1 > 0 {
            lemma_near_grows(before, known, frontier[i].0, frontier[i].1 - 1);
        }
    }
    assert forall|p: Pos| ground.contains(p) implies match #[trigger] known.at(p) {
        Some(d) => d <= level && rooted(ground, targets, known, p, d as int),
        None => true,
    } by {
        if p == pos {
            assert(rooted(ground, targets, before, pos, cost as int));
            if cost > 0 {
                lemma_near_grows(before, known, pos, cost - 1);
            }
        } else if before.at(p) is Some {
            let d = before.at(p).unwrap();
            if d > 0 {
                lemma_near_grows(before, known, p, d - 1);
            }
        }
    }
    assert forall|i: int|
        0 <= i < targets.len() && ground.contains(#[trigger] targets[i]) implies
        known.at(targets[i]) == Some(0usize) || pending(frontier, head + 1, targets[i], 0) by {
        if before.at(targets[i]) != Some(0usize) {
            let w = choose|w: int| head <= w < frontier.len() && (#[trigger] frontier[w]).0 == targets[i] && frontier[w].1 <= 0;
            if w == head {
                assert(cost == 0);
            }
        } else {
            assert(targets[i] != pos);
        }
    }
    assert forall|p: Pos, dir: Direction|
        ground.contains(p) && known.at(p) is Some && p != pos implies
        #[trigger] settled(ground, known, frontier, head + 1, p, dir) by {
        assert(before.at(p) is Some);
        assert(settled(ground, before, frontier, head, p, dir));
        if walkable(ground, p.step(dir)) {
            let d = known.at(p).unwrap();
            if relaxed(before, p, dir) {
                assert(p.step(dir) != pos);
                assert(relaxed(known, p, dir));
            } else {
                let w = choose|w: int| head <= w < frontier.len() && (#[trigger] frontier[w]).0 == p.step(dir) && frontier[w].1 <= d + 1;
                if w == head {
                    assert(p.step(dir) == pos);
                    assert(relaxed(known, p, dir));
                }
            }
        }
    }
}

/// Looking at one more neighbour of the cell `pos`, which has just got its
/// distance `level`, and putting it into the queue where it is walkable,
/// keeps the search well.
proof fn lemma_push(ground: Grid<Tile>, targets: Seq<Pos>, known: Grid<Option<usize>>, before: Seq<(Pos, usize)>, frontier: Seq<(Pos, usize)>, head: int, level: int, split: int, pos: Pos, k: int)
    requires
        search_inv(ground, targets, known, before, head, level, split),
        settled_but(ground, known, before, head, pos, k),
        0 <= k < 4,
        ground.contains(pos),
        known.at(pos) == Some(level as usize),
        level + 1 <= count_some(known),
        level + 1 <= usize::MAX,
        walkable(ground, pos.step(Direction::all()[k])) ==> frontier == before.push((pos.step(Direction::all()[k]), (level + 1) as usize)),
        !walkable(ground, pos.step(Direction::all()[k])) ==> frontier == before,
    ensures
        search_inv(ground, targets, known, frontier, head, level, split),
        settled_but(ground, known, frontier, head, pos, k + 1),
{
    reveal(search_inv);
    reveal(settled_but);
    let dir = Direction::all()[k];
    let q = pos.step(dir);
    assert forall|i: int| 0 <= i < before.len() implies frontier[i] == #[trigger] before[i] by {}
    if walkable(ground, q) {
        let last = before.len() as int;
        assert(frontier[last] == (q, (level + 1) as usize));
        lemma_step_back(pos, dir);
        assert(known.contains(q.step(opposite(dir))) && known.at(q.step(opposite(dir))) == Some(level as usize));
        assert(near(known, q, level));
        assert(pending(frontier, head, q, level + 1));
    }
    assert forall|i: int|
        0 <= i < targets.len() && ground.contains(#[trigger] targets[i]) implies
        known.at(targets[i]) == Some(0usize) || pending(frontier, head, targets[i], 0) by {
        if known.at(targets[i]) != Some(0usize) {
            lemma_pending_grows(before, frontier, head, targets[i], 0);
        }
    }
    assert forall|p: Pos, d: Direction|
        ground.contains(p) && known.at(p) is Some && p != pos implies
        #[trigger] settled(ground, known, frontier, head, p, d) by {
        assert(settled(ground, known, before, head, p, d));
        if walkable(ground, p.step(d)) && !relaxed(known, p, d) {
            lemma_pending_grows(before, frontier, head, p.step(d), known.at(p).unwrap() + 1);
        }
    }
    assert forall|j: int|
        0 <= j < k + 1 && j < 4 implies
        settled(ground, known, frontier, head, pos, #[trigger] Direction::all()[j]) by {
        if j < k {
            assert(settled(ground, known, before, head, pos, Direction::all()[j]));
            if walkable(ground, pos.step(Direction::all()[j])) && !relaxed(known, pos, Direction::all()[j]) {
                lemma_pending_grows(before, frontier, head, pos.step(Direction::all()[j]), level + 1);
            }
        }
    }
}

/// Once all four neighbours of the cell are looked at, all is taken care of.
proof fn lemma_pushed(ground: Grid<Tile>, known: Grid<Option<usize>>, frontier: Seq<(Pos, usize)>, head: int, pos: Pos)
    requires
        settled_but(ground, known, frontier, head, pos, 4),
    ensures
        all_settled(ground, known, frontier, head),
{
    reveal(all_settled);
    reveal(settled_but);
    assert forall|p: Pos, dir: Direction|
        ground.contains(p) && known.at(p) is Some implies
        #[trigger] settled(ground, known, frontier, head, p, dir) by {
        if p == pos {
            assert(dir == Direction::all()[0] || dir == Direction::all()[1] || dir == Direction::all()[2] || dir == Direction::all()[3]);
        }
    }
}

/// With the queue used up, the distances are those of a distance field.
proof fn lemma_search_end(ground: Grid<Tile>, targets: Seq<Pos>, known: Grid<Option<usize>>, frontier: Seq<(Pos, usize)>, level: int, split: int)
    requires
        search_inv(ground, targets, known, frontier, frontier.len() as int, level, split),
        all_settled(ground, known, frontier, frontier.len() as int),
    ensures
        is_distance_field(ground, targets, known),
{
    reveal(search_inv);
    reveal(all_settled);
    assert forall|p: Pos, dir: Direction|
        ground.contains(p) && known.at(p) is Some && walkable(ground, p.step(dir)) implies
        #[trigger] relaxed(known, p, dir) by {
        assert(settled(ground, known, frontier, frontier.len() as int, p, dir));
    }
}

/// The distance of every cell from the nearest of `targets`; targets
/// outside the grid count for nothing.
pub fn distance_map(ground: &Grid<Tile>, targets: &Vec<Pos>) -> (known: Grid<Option<usize>>)
    requires
        ground.wf(),
        ground.spec_size().x * ground.spec_size().y <= usize::MAX,
        ground.spec_size().x < i64::MAX - 2,
        ground.spec_size().y < i64::MAX - 2,
    ensures
        is_distance_field(*ground, targets@, known),
{
    let mut known: Grid<Option<usize>> = Grid::new(ground.size(), None);
    let mut queue: VecDeque<(Pos, usize)> = VecDeque::new();
    let ghost mut frontier: Seq<(Pos, usize)> = Seq::empty();
    let mut t: usize = 0;
    while t < targets.len()
        invariant
            t <= targets@.len(),
            ground.wf(),
            queue@ == frontier,
            forall|i: int| 0 <= i < frontier.len() ==> ground.contains((#[trigger] frontier[i]).0) && frontier[i].1 == 0 && targets@.contains(frontier[i].0),
            forall|i: int| 0 <= i < t && ground.contains(#[trigger] targets@[i]) ==> pending(frontier, 0, targets@[i], 0),
        decreases targets@.len() - t,
    {
        let target = targets[t];
        if ground.holds(target) {
            let ghost before = frontier;
            queue.push_back((target, 0));
            proof {
                frontier = before.push((target, 0usize));
                assert(frontier[before.len() as int] == (target, 0usize));
                assert forall|i: int|
                    0 <= i < t + 1 && ground.contains(#[trigger] targets@[i]) implies
                    pending(frontier, 0, targets@[i], 0) by {
                    if i < t {
                        lemma_pending_grows(before, frontier, 0, targets@[i], 0);
                    } else {
                        assert(frontier[before.len() as int].0 == targets@[i]);
                    }
                }
            }
        }
        t += 1;
    }
    let ghost mut head: int = 0;
    let ghost mut level: int = 0;
    let ghost mut split: int = frontier.len() as int;
    proof {
        lemma_search_start(*ground, targets@, known, frontier);
        assert(frontier.subrange(0, frontier.len() as int) =~= frontier);
    }
    while queue.len() > 0
        invariant
            0 <= head <= frontier.len(),
            queue@ == frontier.subrange(head, frontier.len() as int),
            search_inv(*ground, targets@, known, frontier, head, level, split),
            all_settled(*ground, known, frontier, head),
        decreases count_none(known.cells()), frontier.len() - head,
    {
        proof {
            lemma_head(*ground, targets@, known, frontier, head, level, split);
            if head == split {
                lemma_next_level(*ground, targets@, known, frontier, head, level, split);
                level = level + 1;
                split = frontier.len() as int;
            }
            lemma_head(*ground, targets@, known, frontier, head, level, split);
            assert(queue@[0] == frontier[head]);
        }
        let (pos, cost) = queue.pop_front().unwrap();
        proof {
            assert(queue@ =~= frontier.subrange(head + 1, frontier.len() as int));
        }
        let ghost old_known = known;
        if known.get_unchecked(pos).is_some() {
            proof {
                lemma_skip(*ground, targets@, known, frontier, head, level, split);
                head = head + 1;
            }
        } else {
            known.set_unchecked(pos, Some(cost));
            proof {
                lemma_set(*ground, targets@, old_known, known, frontier, head, level, split);
                head = head + 1;
            }
            let mut k: usize = 0;
            while k < 4
                invariant
                    k <= 4,
                    ground.wf(),
                    ground.contains(pos),
                    known.contains(pos),
                    pos.within(i64::MAX - 2),
                    0 <= head <= frontier.len(),
                    queue@ == frontier.subrange(head, frontier.len() as int),
                    cost == level,
                    level + 1 <= count_some(known),
                    count_some(known) <= usize::MAX,
                    known.at(pos) == Some(cost),
                    count_none(known.cells()) < count_none(old_known.cells()),
                    search_inv(*ground, targets@, known, frontier, head, level, split),
                    settled_but(*ground, known, frontier, head, pos, k as int),
                decreases 4 - k,
            {
                let dir = Direction::nth(k);
                let q = pos + dir;
                let ghost before = frontier;
                match ground.get(q) {
                    Some(tile) => {
                        if !tile.blocking() {
                            queue.push_back((q, cost + 1));
                            proof {
                                frontier = before.push((q, (cost + 1) as usize));
                                assert(queue@ =~= frontier.subrange(head, frontier.len() as int));
                            }
                        }
                    },
                    None => {},
                }
                proof {
                    lemma_push(*ground, targets@, known, before, frontier, head, level, split, pos, k as int);
                }
                k += 1;
            }
            proof {
                lemma_pushed(*ground, known, frontier, head, pos);
            }
        }
    }
    proof {
        assert(head == frontier.len());
        lemma_search_end(*ground, targets@, known, frontier, level, split);
    }
    known
}

} // verus!
