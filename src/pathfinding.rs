use vstd::prelude::*;
use vstd::set_lib::{lemma_int_range, lemma_len_subset, set_int_range};

use crate::level_manager::{LevelManager, ix, lemma_ix_bounds, lemma_pos_of};
use crate::tile::TileType;

verus! {

pub open spec fn absdiff(a: int, b: int) -> int {
    if a >= b {
        a - b
    } else {
        b - a
    }
}

/// Two distinct cells that touch, along a side or at a corner.
pub open spec fn adjacent(a: (usize, usize), b: (usize, usize)) -> bool {
    &&& a != b
    &&& absdiff(a.0 as int, b.0 as int) <= 1
    &&& absdiff(a.1 as int, b.1 as int) <= 1
}

/// `p` leads from `start` to `goal`, each step onto a touching walkable cell.
pub open spec fn is_path(
    level: LevelManager,
    p: Seq<(usize, usize)>,
    start: (usize, usize),
    goal: (usize, usize),
) -> bool {
    &&& p.len() >= 1
    &&& p[0] == start
    &&& p.last() == goal
    &&& forall|k: int|
        1 <= k < p.len() ==> adjacent(p[k - 1], #[trigger] p[k]) && level.walkable(
            p[k].0 as int,
            p[k].1 as int,
        )
}

/// No cell occurs twice in `p`.
pub open spec fn no_repeats(p: Seq<(usize, usize)>) -> bool {
    forall|i: int, j: int| 0 <= i < j < p.len() ==> p[i] != p[j]
}

pub open spec fn reachable(level: LevelManager, start: (usize, usize), goal: (usize, usize)) -> bool {
    exists|p: Seq<(usize, usize)>| is_path(level, p, start, goal)
}

/// `|dx| + |dy|` between two cells.
pub open spec fn manhattan(a: (usize, usize), b: (usize, usize)) -> int {
    absdiff(a.0 as int, b.0 as int) + absdiff(a.1 as int, b.1 as int)
}

/// The cell stored at position `i` of a grid `w` wide.
pub open spec fn pos_of(w: int, i: int) -> (usize, usize) {
    ((i % w) as usize, (i / w) as usize)
}

/// A step of the search graph: from cell `i` onto a touching walkable cell `j`.
#[verifier::opaque]
pub open spec fn edge(level: LevelManager, i: int, j: int) -> bool {
    let n = level.width * level.height;
    let w = level.width as int;
    &&& 0 <= i < n
    &&& 0 <= j < n
    &&& adjacent(pos_of(w, i), pos_of(w, j))
    &&& level.walkable(pos_of(w, j).0 as int, pos_of(w, j).1 as int)
}

pub open spec fn seq_sum(s: Seq<usize>) -> int
    decreases s.len(),
{
    if s.len() == 0 {
        0
    } else {
        seq_sum(s.drop_last()) + s.last()
    }
}

proof fn lemma_seq_sum_update(s: Seq<usize>, i: int, v: usize)
    requires
        0 <= i < s.len(),
    ensures
        seq_sum(s.update(i, v)) == seq_sum(s) - s[i] + v,
    decreases s.len(),
{
    let t = s.update(i, v);
    if i == s.len() - 1 {
        assert(t.drop_last() =~= s.drop_last());
    } else {
        lemma_seq_sum_update(s.drop_last(), i, v);
        assert(t.drop_last() =~= s.drop_last().update(i, v));
    }
}

/// The cells that the search has reached: those with a distance below the sentinel `n`.
spec fn discovered(dist: Seq<usize>, n: int) -> Set<int> {
    Set::new(|i: int| 0 <= i < n && dist[i] < n)
}

spec fn in_frontier(front: Seq<(usize, usize)>, i: int) -> bool {
    exists|k: int| 0 <= k < front.len() && #[trigger] front[k].0 == i
}

/// Every walkable neighbour of `i` has been reached.
spec fn closed(level: LevelManager, dist: Seq<usize>, i: int) -> bool {
    forall|j: int| #[trigger] edge(level, i, j) ==> dist[j] < level.width * level.height
}

/// Each reached cell other than the start came from a reached cell one step away and
/// strictly nearer the start.
spec fn tree_inv(level: LevelManager, s: int, dist: Seq<usize>, came: Seq<usize>) -> bool {
    let n = level.width * level.height;
    &&& level.wf()
    &&& level.width > 0
    &&& dist.len() == n
    &&& came.len() == n
    &&& 0 <= s < n
    &&& dist[s] == 0
    &&& forall|i: int| 0 <= i < n ==> #[trigger] dist[i] <= n
    &&& forall|i: int|
        0 <= i < n && i != s && #[trigger] dist[i] < n ==> {
            &&& came[i] < n
            &&& dist[came[i] as int] < dist[i]
            &&& edge(level, came[i] as int, i)
        }
}

#[verifier::opaque]
spec fn search_inv(
    level: LevelManager,
    s: int,
    g: int,
    dist: Seq<usize>,
    came: Seq<usize>,
    front: Seq<(usize, usize)>,
    except: int,
) -> bool {
    let n = level.width * level.height;
    &&& tree_inv(level, s, dist, came)
    &&& 0 <= g < n
    &&& forall|i: int| 0 <= i < n && #[trigger] dist[i] < n ==> dist[i] < discovered(dist, n).len()
    &&& forall|k: int|
        0 <= k < front.len() ==> #[trigger] front[k].0 < n && dist[front[k].0 as int] < n
    &&& forall|i: int|
        0 <= i < n && i != except && #[trigger] dist[i] < n ==> in_frontier(front, i) || closed(
            level,
            dist,
            i,
        )
    &&& dist[g] < n ==> in_frontier(front, g)
}

proof fn lemma_discovered_bound(dist: Seq<usize>, n: int, j: int)
    requires
        0 <= j < n,
        dist.len() == n,
    ensures
        discovered(dist, n).finite(),
        discovered(dist, n).len() <= n,
        dist[j] >= n ==> discovered(dist, n).len() < n,
{
    lemma_int_range(0, n);
    let d = discovered(dist, n);
    assert(d.subset_of(set_int_range(0, n)));
    lemma_len_subset(d, set_int_range(0, n));
    if dist[j] >= n {
        let r = set_int_range(0, n).remove(j);
        assert(d.subset_of(r));
        lemma_len_subset(d, r);
    }
}

proof fn lemma_in_frontier_remove(front: Seq<(usize, usize)>, k: int, i: int)
    requires
        0 <= k < front.len(),
        in_frontier(front, i),
        front[k].0 != i,
    ensures
        in_frontier(front.remove(k), i),
{
    let m = choose|m: int| 0 <= m < front.len() && #[trigger] front[m].0 == i;
    if m < k {
        assert(front.remove(k)[m].0 == i);
    } else {
        assert(front.remove(k)[m - 1].0 == i);
    }
}

proof fn lemma_in_frontier_push(front: Seq<(usize, usize)>, e: (usize, usize), i: int)
    requires
        in_frontier(front, i) || e.0 == i,
    ensures
        in_frontier(front.push(e), i),
{
    if e.0 == i {
        assert(front.push(e)[front.len() as int].0 == i);
    } else {
        let m = choose|m: int| 0 <= m < front.len() && #[trigger] front[m].0 == i;
        assert(front.push(e)[m].0 == i);
    }
}

proof fn lemma_seq_sum_nonneg(s: Seq<usize>)
    ensures
        seq_sum(s) >= 0,
    decreases s.len(),
{
    if s.len() > 0 {
        lemma_seq_sum_nonneg(s.drop_last());
    }
}

proof fn lemma_close(
    level: LevelManager,
    s: int,
    g: int,
    dist: Seq<usize>,
    came: Seq<usize>,
    front: Seq<(usize, usize)>,
    cur: int,
)
    requires
        search_inv(level, s, g, dist, came, front, cur),
        closed(level, dist, cur),
    ensures
        search_inv(level, s, g, dist, came, front, -1),
{
    reveal(search_inv);
}

#[verifier::rlimit(60)]
/// Taking entry `k` off the frontier leaves the invariant intact but for its cell.
proof fn lemma_pop(
    level: LevelManager,
    s: int,
    g: int,
    dist: Seq<usize>,
    came: Seq<usize>,
    f0: Seq<(usize, usize)>,
    k: int,
)
    requires
        search_inv(level, s, g, dist, came, f0, -1),
        0 <= k < f0.len(),
    ensures
        f0[k].0 < level.width * level.height,
        dist[f0[k].0 as int] < level.width * level.height,
        f0[k].0 != g ==> search_inv(level, s, g, dist, came, f0.remove(k), f0[k].0 as int),
        f0[k].0 == g ==> tree_inv(level, s, dist, came) && 0 <= g < level.width * level.height,
{
    reveal(search_inv);
    let n = level.width * level.height;
    let front = f0.remove(k);
    let cur = f0[k].0 as int;
    if cur != g {
        assert forall|q: int| 0 <= q < n && q != cur && #[trigger] dist[q] < n implies in_frontier(
            front,
            q,
        ) || closed(level, dist, q) by {
            if in_frontier(f0, q) {
                lemma_in_frontier_remove(f0, k, q);
            }
        }
        assert forall|m: int| 0 <= m < front.len() implies #[trigger] front[m].0 < n && dist[front[m].0 as int] < n by {
            if m < k {
                assert(front[m] == f0[m]);
            } else {
                assert(front[m] == f0[m + 1]);
            }
        }
        if dist[g] < n {
            lemma_in_frontier_remove(f0, k, g);
        }
    }
}

/// With nothing left on the frontier, no route reaches the goal.
proof fn lemma_exhausted(
    level: LevelManager,
    s: int,
    g: int,
    dist: Seq<usize>,
    came: Seq<usize>,
    front: Seq<(usize, usize)>,
    start: (usize, usize),
    goal: (usize, usize),
)
    requires
        search_inv(level, s, g, dist, came, front, -1),
        front.len() == 0,
        level.in_bounds(start.0 as int, start.1 as int),
        level.in_bounds(goal.0 as int, goal.1 as int),
        s == ix(level.width as int, start.0 as int, start.1 as int),
        g == ix(level.width as int, goal.0 as int, goal.1 as int),
    ensures
        !reachable(level, start, goal),
{
    reveal(search_inv);
    if reachable(level, start, goal) {
        let p = choose|p: Seq<(usize, usize)>| is_path(level, p, start, goal);
        lemma_closed_reaches(level, s, dist, p, start, goal, p.len() - 1);
        assert(!in_frontier(front, g));
    }
}

/// Every cell of a walk from the start has been reached, once all reached cells are closed.
proof fn lemma_closed_reaches(
    level: LevelManager,
    s: int,
    dist: Seq<usize>,
    p: Seq<(usize, usize)>,
    start: (usize, usize),
    goal: (usize, usize),
    k: int,
)
    requires
        level.wf(),
        level.width > 0,
        dist.len() == level.width * level.height,
        level.in_bounds(start.0 as int, start.1 as int),
        s == ix(level.width as int, start.0 as int, start.1 as int),
        dist[s] < level.width * level.height,
        forall|i: int|
            0 <= i < level.width * level.height && #[trigger] dist[i] < level.width * level.height
                ==> closed(level, dist, i),
        is_path(level, p, start, goal),
        0 <= k < p.len(),
    ensures
        level.in_bounds(p[k].0 as int, p[k].1 as int),
        dist[ix(level.width as int, p[k].0 as int, p[k].1 as int)] < level.width * level.height,
    decreases k,
{
    reveal(edge);
    let w = level.width as int;
    let h = level.height as int;
    if k > 0 {
        lemma_closed_reaches(level, s, dist, p, start, goal, k - 1);
        let a = ix(w, p[k - 1].0 as int, p[k - 1].1 as int);
        let b = ix(w, p[k].0 as int, p[k].1 as int);
        assert(adjacent(p[k - 1], p[k]) && level.walkable(p[k].0 as int, p[k].1 as int));
        lemma_ix_bounds(w, h, p[k - 1].0 as int, p[k - 1].1 as int);
        lemma_ix_bounds(w, h, p[k].0 as int, p[k].1 as int);
        assert(pos_of(w, a) == p[k - 1]);
        assert(pos_of(w, b) == p[k]);
        assert(edge(level, a, b));
    }
}

/// `|dx| + |dy|` between two cells, or `usize::MAX` where that does not fit.
pub fn heuristic(position: (usize, usize), goal: (usize, usize)) -> (d: usize)
    ensures
        d == if manhattan(position, goal) <= usize::MAX {
            manhattan(position, goal)
        } else {
            usize::MAX as int
        },
{
    let dx = if position.0 >= goal.0 {
        position.0 - goal.0
    } else {
        goal.0 - position.0
    };
    let dy = if position.1 >= goal.1 {
        position.1 - goal.1
    } else {
        goal.1 - position.1
    };
    dx.saturating_add(dy)
}

/// A cell not yet reached can always be offered a route one step longer than a reached one.
proof fn lemma_unreached_bound(
    level: LevelManager,
    s: int,
    g: int,
    dist: Seq<usize>,
    came: Seq<usize>,
    front: Seq<(usize, usize)>,
    cur: int,
    j: int,
)
    requires
        search_inv(level, s, g, dist, came, front, cur),
        0 <= cur < level.width * level.height,
        0 <= j < level.width * level.height,
        dist[cur] < level.width * level.height,
    ensures
        dist[j] <= level.width * level.height,
        dist[j] >= level.width * level.height ==> dist[cur] + 1 < level.width * level.height,
{
    reveal(search_inv);
    lemma_discovered_bound(dist, level.width * level.height, j);
}

#[verifier::rlimit(100)]
/// Giving cell `j` a shorter route through `cur` keeps the invariant and lowers the sum of
/// distances.
proof fn lemma_relax(
    level: LevelManager,
    s: int,
    g: int,
    d0: Seq<usize>,
    c0: Seq<usize>,
    f0: Seq<(usize, usize)>,
    cur: usize,
    j: usize,
    nd: usize,
    pr: usize,
)
    requires
        search_inv(level, s, g, d0, c0, f0, cur as int),
        cur < level.width * level.height,
        j < level.width * level.height,
        d0[cur as int] < level.width * level.height,
        nd == d0[cur as int] + 1,
        nd < d0[j as int],
        nd < level.width * level.height,
        edge(level, cur as int, j as int),
    ensures
        search_inv(level, s, g, d0.update(j as int, nd), c0.update(j as int, cur), f0.push((j, pr)), cur as int),
        seq_sum(d0.update(j as int, nd)) < seq_sum(d0),
{
    reveal(search_inv);
    let n = level.width * level.height;
    let d1 = d0.update(j as int, nd);
    let c1 = c0.update(j as int, cur);
    let f1 = f0.push((j, pr));
    lemma_seq_sum_update(d0, j as int, nd);
    lemma_discovered_bound(d0, n, j as int);
    if d0[j as int] >= n {
        assert(discovered(d1, n) =~= discovered(d0, n).insert(j as int));
    } else {
        assert(discovered(d1, n) =~= discovered(d0, n));
    }
    lemma_discovered_bound(d1, n, j as int);
    assert forall|i: int| 0 <= i < n && i != cur as int && #[trigger] d1[i] < n implies in_frontier(f1, i)
        || closed(level, d1, i) by {
        if i == j {
            lemma_in_frontier_push(f0, (j, pr), i);
        } else if in_frontier(f0, i) {
            lemma_in_frontier_push(f0, (j, pr), i);
        } else {
            assert(closed(level, d0, i));
            assert forall|q: int| #[trigger] edge(level, i, q) implies d1[q] < n by {
                reveal(edge);
                assert(d0[q] < n);
            }
        }
    }
    if d1[g] < n {
        lemma_in_frontier_push(f0, (j, pr), g);
    }
    assert forall|k: int| 0 <= k < f1.len() implies #[trigger] f1[k].0 < n && d1[f1[k].0 as int] < n by {
        if k < f0.len() {
            assert(f1[k] == f0[k]);
        }
    }
    assert forall|i: int| 0 <= i < n && i != s && #[trigger] d1[i] < n implies {
        &&& c1[i] < n
        &&& d1[c1[i] as int] < d1[i]
        &&& edge(level, c1[i] as int, i)
    } by {
        if i != j {
            assert(d0[i] < n);
        }
    }
}

/// Offers cell `(nc, nr)`, a neighbour of `cur`, a route through `cur` one step longer.
fn relax(
    level: &LevelManager,
    dist: &mut Vec<usize>,
    came: &mut Vec<usize>,
    front: &mut Vec<(usize, usize)>,
    s: usize,
    g: usize,
    goal: (usize, usize),
    cur: usize,
    nc: usize,
    nr: usize,
)
    requires
        search_inv(*level, s as int, g as int, old(dist)@, old(came)@, old(front)@, cur as int),
        level.wf(),
        cur < level.width * level.height,
        old(dist)@.len() == level.width * level.height,
        old(came)@.len() == level.width * level.height,
        old(dist)@[cur as int] < level.width * level.height,
        level.in_bounds(nc as int, nr as int),
        adjacent(pos_of(level.width as int, cur as int), (nc, nr)),
    ensures
        search_inv(
            *level,
            s as int,
            g as int,
            final(dist)@,
            final(came)@,
            final(front)@,
            cur as int,
        ),
        final(dist)@.len() == old(dist)@.len(),
        final(came)@.len() == old(came)@.len(),
        final(dist)@[cur as int] == old(dist)@[cur as int],
        forall|i: int|
            0 <= i < old(dist)@.len() ==> #[trigger] final(dist)@[i] <= old(dist)@[i],
        level.walkable(nc as int, nr as int) ==> final(dist)@[ix(
            level.width as int,
            nc as int,
            nr as int,
        )] < level.width * level.height,
        seq_sum(final(dist)@) < seq_sum(old(dist)@) || (final(dist)@ == old(dist)@
            && final(front)@ == old(front)@),
{
    let ghost n = level.width * level.height;
    let ghost w = level.width as int;
    let j = level.index_of(nc, nr);
    // The grid's size, and so every distance below it, fits in a `usize`.
    let _size = level.level_vec.len();
    proof {
        lemma_ix_bounds(w, level.height as int, nc as int, nr as int);
        assert(pos_of(w, j as int) == (nc, nr));
    }
    let t = level.level_vec[j];
    if t.tile_type != TileType::Wall && !t.is_occupied {
        proof {
            lemma_unreached_bound(*level, s as int, g as int, dist@, came@, front@, cur as int, j as int);
            reveal(edge);
            assert(edge(*level, cur as int, j as int));
        }
        let nd = dist[cur] + 1;
        if nd < dist[j] {
            let ghost d0 = dist@;
            let ghost c0 = came@;
            let ghost f0 = front@;
            dist.set(j, nd);
            came.set(j, cur);
            let pr = nd.saturating_add(heuristic((nc, nr), goal));
            front.push((j, pr));
            proof {
                lemma_relax(*level, s as int, g as int, d0, c0, f0, cur, j, nd, pr);
            }
        }
    }
}

#[verifier::rlimit(60)]
/// Offers every touching cell of `cur` a route through `cur`, after which `cur` is closed.
fn expand(
    level: &LevelManager,
    dist: &mut Vec<usize>,
    came: &mut Vec<usize>,
    front: &mut Vec<(usize, usize)>,
    s: usize,
    g: usize,
    goal: (usize, usize),
    cur: usize,
)
    requires
        search_inv(*level, s as int, g as int, old(dist)@, old(came)@, old(front)@, cur as int),
        cur < level.width * level.height,
        old(dist)@.len() == level.width * level.height,
        old(came)@.len() == level.width * level.height,
        old(dist)@[cur as int] < level.width * level.height,
        level.wf(),
        level.width > 0,
    ensures
        search_inv(*level, s as int, g as int, final(dist)@, final(came)@, final(front)@, -1),
        final(dist)@.len() == old(dist)@.len(),
        final(came)@.len() == old(came)@.len(),
        seq_sum(final(dist)@) < seq_sum(old(dist)@) || (final(dist)@ == old(dist)@
            && final(front)@ == old(front)@),
{
    let ghost n = level.width * level.height;
    let w = level.width;
    let h = level.height;
    let ghost wi = w as int;
    proof {
        lemma_pos_of(wi, h as int, cur as int);
    }
    let c = cur % w;
    let r = cur / w;
    if r > 0 {
        relax(level, dist, came, front, s, g, goal, cur, c, r - 1);
    }
    if r + 1 < h {
        relax(level, dist, came, front, s, g, goal, cur, c, r + 1);
    }
    if c > 0 {
        relax(level, dist, came, front, s, g, goal, cur, c - 1, r);
    }
    if c + 1 < w {
        relax(level, dist, came, front, s, g, goal, cur, c + 1, r);
    }
    if c > 0 && r > 0 {
        relax(level, dist, came, front, s, g, goal, cur, c - 1, r - 1);
    }
    if c > 0 && r + 1 < h {
        relax(level, dist, came, front, s, g, goal, cur, c - 1, r + 1);
    }
    if c + 1 < w && r > 0 {
        relax(level, dist, came, front, s, g, goal, cur, c + 1, r - 1);
    }
    if c + 1 < w && r + 1 < h {
        relax(level, dist, came, front, s, g, goal, cur, c + 1, r + 1);
    }
    proof {
        assert forall|j: int| #[trigger] edge(*level, cur as int, j) implies dist@[j] < n by {
            reveal(edge);
            lemma_pos_of(wi, h as int, j);
            lemma_ix_bounds(wi, h as int, pos_of(wi, j).0 as int, pos_of(wi, j).1 as int);
        }
        assert(closed(*level, dist@, cur as int));
        lemma_close(*level, s as int, g as int, dist@, came@, front@, cur as int);
    }
}

#[verifier::rlimit(80)]
/// Walks the predecessor links back from the goal and returns the cells from start to goal.
fn reconstruct(
    level: &LevelManager,
    dist: &Vec<usize>,
    came: &Vec<usize>,
    s: usize,
    g: usize,
    start: (usize, usize),
    goal: (usize, usize),
) -> (p: Vec<(usize, usize)>)
    requires
        tree_inv(*level, s as int, dist@, came@),
        g < level.width * level.height,
        dist@[g as int] < level.width * level.height,
        level.in_bounds(start.0 as int, start.1 as int),
        level.in_bounds(goal.0 as int, goal.1 as int),
        s == ix(level.width as int, start.0 as int, start.1 as int),
        g == ix(level.width as int, goal.0 as int, goal.1 as int),
    ensures
        is_path(*level, p@, start, goal),
        no_repeats(p@),
        s == g ==> p@ == seq![start],
{
    let ghost n = level.width * level.height;
    let ghost wi = level.width as int;
    let w = level.width;
    let mut rev: Vec<usize> = Vec::new();
    rev.push(g);
    let mut cur = g;
    while cur != s
        invariant
            tree_inv(*level, s as int, dist@, came@),
            n == level.width * level.height,
            cur < n,
            dist@[cur as int] < n,
            rev@.len() >= 1,
            rev@[0] == g,
            rev@.last() == cur,
            forall|k: int| 1 <= k < rev@.len() ==> edge(*level, #[trigger] rev@[k] as int, rev@[k - 1] as int),
            forall|a: int| 0 <= a < rev@.len() ==> #[trigger] rev@[a] < n,
            forall|a: int, b: int|
                0 <= a < b < rev@.len() ==> dist@[#[trigger] rev@[b] as int] < dist@[#[trigger] rev@[a] as int],
            s == g ==> rev@.len() == 1 && cur == g,
        decreases dist@[cur as int],
    {
        proof {
            assert(came@[cur as int] < n && dist@[came@[cur as int] as int] < dist@[cur as int]);
        }
        let p = came[cur];
        let ghost rev0 = rev@;
        rev.push(p);
        cur = p;
        proof {
            assert forall|a: int, b: int| 0 <= a < b < rev@.len() implies dist@[#[trigger] rev@[b] as int]
                < dist@[#[trigger] rev@[a] as int] by {
                if b == rev@.len() - 1 {
                    assert(rev@[b] == p);
                    assert(rev@[a] == rev0[a]);
                    if a < rev0.len() - 1 {
                        assert(dist@[rev0[rev0.len() - 1] as int] < dist@[rev0[a] as int]);
                    }
                } else {
                    assert(rev@[a] == rev0[a] && rev@[b] == rev0[b]);
                }
            }
        }
    }
    let mut out: Vec<(usize, usize)> = Vec::new();
    let mut k: usize = rev.len();
    while k > 0
        invariant
            level.width > 0,
            w == level.width,
            wi == w as int,
            k <= rev@.len(),
            rev@.len() >= 1,
            rev@[0] == g,
            rev@.last() == s,
            forall|q: int| 1 <= q < rev@.len() ==> edge(*level, #[trigger] rev@[q] as int, rev@[q - 1] as int),
            forall|a: int| 0 <= a < rev@.len() ==> #[trigger] rev@[a] < level.width * level.height,
            forall|a: int, b: int|
                0 <= a < b < rev@.len() ==> dist@[#[trigger] rev@[b] as int] < dist@[#[trigger] rev@[a] as int],
            s == g ==> rev@.len() == 1,
            out@.len() == rev@.len() - k,
            forall|m: int| 0 <= m < out@.len() ==> #[trigger] out@[m] == pos_of(wi, rev@[rev@.len() - 1 - m] as int),
        decreases k,
    {
        k = k - 1;
        let i = rev[k];
        proof {
            if k + 1 < rev@.len() {
                assert(edge(*level, rev@[k + 1] as int, rev@[k as int] as int));
            } else {
                assert(rev@[k as int] == s);
            }
        }
        let ghost out0 = out@;
        out.push((i % w, i / w));
        proof {
            assert forall|m: int| 0 <= m < out@.len() implies #[trigger] out@[m] == pos_of(wi, rev@[rev@.len() - 1 - m] as int) by {
                if m < out0.len() {
                    assert(out@[m] == out0[m]);
                }
            }
        }
    }
    proof {
        let len = rev@.len() as int;
        lemma_ix_bounds(wi, level.height as int, start.0 as int, start.1 as int);
        lemma_ix_bounds(wi, level.height as int, goal.0 as int, goal.1 as int);
        assert(out@[0] == start);
        assert(out@.last() == goal);
        assert forall|m: int| 1 <= m < out@.len() implies adjacent(out@[m - 1], #[trigger] out@[m])
            && level.walkable(out@[m].0 as int, out@[m].1 as int) by {
            reveal(edge);
            assert(edge(*level, rev@[len - m] as int, rev@[len - 1 - m] as int));
        }
        assert forall|a: int, b: int| 0 <= a < b < out@.len() implies out@[a] != out@[b] by {
            let ia = rev@[len - 1 - a] as int;
            let ib = rev@[len - 1 - b] as int;
            lemma_pos_of(wi, level.height as int, ia);
            lemma_pos_of(wi, level.height as int, ib);
            assert(dist@[ia] < dist@[ib]);
        }
        if s == g {
            assert(out@ =~= seq![start]);
        }
    }
    out
}

#[verifier::rlimit(40)]
/// A* search from `start` to `goal` over the level's walkable cells, moving to any of the
/// eight touching cells at a cost of one. The frontier is ordered by distance so far plus
/// `heuristic` (ties go to the earliest entry); a cell is searched again only when a
/// strictly shorter route to it turns up. Returns the cells of the route, `start` first and
/// `goal` last, or `None` where no route exists.
pub fn find_path(level: &LevelManager, start: (usize, usize), goal: (usize, usize)) -> (res:
    Option<Vec<(usize, usize)>>)
    requires
        level.wf(),
        level.in_bounds(start.0 as int, start.1 as int),
    ensures
        res is Some ==> is_path(*level, res->0@, start, goal),
        res is Some ==> no_repeats(res->0@),
        res is None ==> !reachable(*level, start, goal),
        start == goal ==> res is Some && res->0@ == seq![start],
{
    let w = level.width;
    let h = level.height;
    let n = level.level_vec.len();
    let ghost wi = w as int;
    if !(goal.0 < w && goal.1 < h) {
        proof {
            if reachable(*level, start, goal) {
                let p = choose|p: Seq<(usize, usize)>| is_path(*level, p, start, goal);
                if p.len() > 1 {
                    assert(level.walkable(p[p.len() - 1].0 as int, p[p.len() - 1].1 as int));
                }
            }
        }
        return None;
    }
    let s = level.index_of(start.0, start.1);
    let g = level.index_of(goal.0, goal.1);
    let mut dist: Vec<usize> = Vec::new();
    let mut came: Vec<usize> = Vec::new();
    let mut i: usize = 0;
    while i < n
        invariant
            i <= n,
            dist@.len() == i,
            came@.len() == i,
            forall|q: int| 0 <= q < i ==> #[trigger] dist@[q] == n,
        decreases n - i,
    {
        dist.push(n);
        came.push(0);
        i = i + 1;
    }
    dist.set(s, 0);
    let mut front: Vec<(usize, usize)> = Vec::new();
    front.push((s, heuristic(start, goal)));
    proof {
        reveal(search_inv);
        lemma_ix_bounds(wi, h as int, start.0 as int, start.1 as int);
        lemma_ix_bounds(wi, h as int, goal.0 as int, goal.1 as int);
        let d = dist@;
        assert(discovered(d, n as int) =~= set![s as int]);
        assert(front@[0].0 == s);
        assert forall|q: int| 0 <= q < n && #[trigger] d[q] < n implies in_frontier(front@, q) || closed(*level, d, q) by {
            assert(q == s);
        }
    }
    loop
        invariant
            search_inv(*level, s as int, g as int, dist@, came@, front@, -1),
            dist@.len() == n,
            came@.len() == n,
            level.wf(),
            w > 0,
            n == w * h,
            wi == w as int,
            w == level.width,
            h == level.height,
            s == ix(wi, start.0 as int, start.1 as int),
            g == ix(wi, goal.0 as int, goal.1 as int),
            level.in_bounds(goal.0 as int, goal.1 as int),
            level.in_bounds(start.0 as int, start.1 as int),
        decreases seq_sum(dist@), front@.len(),
    {
        if front.len() == 0 {
            proof {
                lemma_exhausted(*level, s as int, g as int, dist@, came@, front@, start, goal);
                if start == goal {
                    assert(is_path(*level, seq![start], start, goal));
                }
            }
            return None;
        }
        let k = min_index(&front);
        let ghost f0 = front@;
        proof {
            lemma_pop(*level, s as int, g as int, dist@, came@, f0, k as int);
        }
        let entry = front.remove(k);
        let cur = entry.0;
        if cur == g {
            return Some(reconstruct(level, &dist, &came, s, g, start, goal));
        }
        expand(level, &mut dist, &mut came, &mut front, s, g, goal, cur);
        proof {
            lemma_seq_sum_nonneg(dist@);
        }
    }
}

/// Index of the first frontier entry of least priority.
fn min_index(front: &Vec<(usize, usize)>) -> (k: usize)
    requires
        front@.len() > 0,
    ensures
        k < front@.len(),
        forall|m: int| 0 <= m < front@.len() ==> front@[k as int].1 <= #[trigger] front@[m].1,
{
    let mut best: usize = 0;
    let mut m: usize = 1;
    while m < front.len()
        invariant
            1 <= m <= front@.len(),
            best < m,
            forall|q: int| 0 <= q < m ==> front@[best as int].1 <= #[trigger] front@[q].1,
        decreases front@.len() - m,
    {
        if front[m].1 < front[best].1 {
            best = m;
        }
        m = m + 1;
    }
    best
}

} // verus!
