//! What makes a ring a contour as it was walked: every segment runs along a
//! line of the pixel grid, and no edge of the grid is passed twice in the
//! same direction.

use crate::document::{Document, DocumentView, GridPoint, Ring, RingView, Shape, ShapeView};
use vstd::prelude::*;

verus! {

/// The four directions along the grid. Rows grow to the south.
#[derive(Clone, Copy, Debug, PartialEq, Eq, Structural)]
pub enum Heading {
    East,
    South,
    West,
    North,
}

/// The segment from `a` to `b` passes the unit edge that leaves the corner
/// `(x, y)` towards `d`.
pub open spec fn passes(a: GridPoint, b: GridPoint, x: int, y: int, d: Heading) -> bool {
    match d {
        Heading::East => a.y == b.y && y == a.y && a.x <= x < b.x,
        Heading::West => a.y == b.y && y == a.y && b.x < x <= a.x,
        Heading::South => a.x == b.x && x == a.x && a.y <= y < b.y,
        Heading::North => a.x == b.x && x == a.x && b.y < y <= a.y,
    }
}

/// The segment that starts at place `k` of the ring passes the unit edge.
pub open spec fn segment_passes(points: Seq<GridPoint>, k: int, x: int, y: int, d: Heading) -> bool {
    passes(points[k], points[k + 1], x, y, d)
}

/// The two points differ in exactly one coordinate.
pub open spec fn along_grid(a: GridPoint, b: GridPoint) -> bool {
    (a.x == b.x) != (a.y == b.y)
}

/// The segment that starts at place `k` of the ring runs along a grid line.
pub open spec fn segment_along_grid(points: Seq<GridPoint>, k: int) -> bool {
    along_grid(points[k], points[k + 1])
}

/// Every segment of the ring runs along a grid line.
pub open spec fn follows_grid(points: Seq<GridPoint>) -> bool {
    forall|k: int| 0 <= k < points.len() - 1 ==> #[trigger] segment_along_grid(points, k)
}

/// No two segments of the ring pass the same unit edge in the same
/// direction.
pub open spec fn passes_once(points: Seq<GridPoint>) -> bool {
    forall|i: int, j: int, x: int, y: int, d: Heading|
        0 <= i < j < points.len() - 1 ==> !(#[trigger] segment_passes(points, i, x, y, d)
            && #[trigger] segment_passes(points, j, x, y, d))
}

/// The ring follows the grid and overlaps itself nowhere.
pub open spec fn walked_once(points: Seq<GridPoint>) -> bool {
    follows_grid(points) && passes_once(points)
}

impl RingView {
    /// A ring of grid corners that follows the grid and overlaps itself
    /// nowhere.
    pub open spec fn walked(self) -> bool {
        self matches RingView::Grid(points) && walked_once(points)
    }
}

impl ShapeView {
    pub open spec fn walked(self) -> bool {
        forall|j: int| 0 <= j < self.rings.len() ==> (#[trigger] self.rings[j]).walked()
    }
}

impl DocumentView {
    /// Every ring of the document is a walk along the grid that overlaps
    /// itself nowhere.
    pub open spec fn walked(self) -> bool {
        forall|i: int| 0 <= i < self.shapes.len() ==> (#[trigger] self.shapes[i]).walked()
    }
}

/// The direction of a segment along the grid.
spec fn heading(a: GridPoint, b: GridPoint) -> Heading {
    if a.y == b.y {
        if a.x < b.x {
            Heading::East
        } else {
            Heading::West
        }
    } else if a.y < b.y {
        Heading::South
    } else {
        Heading::North
    }
}

/// The number of unit edges of a segment along the grid.
spec fn run(a: GridPoint, b: GridPoint) -> int {
    if a.y == b.y {
        if a.x < b.x {
            b.x - a.x
        } else {
            a.x - b.x
        }
    } else if a.y < b.y {
        b.y - a.y
    } else {
        a.y - b.y
    }
}

/// How many unit edges lie between `a` and the corner `(x, y)` on the way
/// towards `d`.
spec fn offset(a: GridPoint, d: Heading, x: int, y: int) -> int {
    match d {
        Heading::East => x - a.x,
        Heading::West => a.x - x,
        Heading::South => y - a.y,
        Heading::North => a.y - y,
    }
}

/// Some segment before place `k` passes the unit edge.
spec fn passed_before(points: Seq<GridPoint>, k: int, x: int, y: int, d: Heading) -> bool {
    exists|i: int| 0 <= i < k && #[trigger] segment_passes(points, i, x, y, d)
}

/// The state of a walk that has done the segments before place `k` and the
/// first `t` unit edges of the segment at `k`: `passed` holds the edges
/// passed so far, and none of them was passed twice.
spec fn walk_inv(points: Seq<GridPoint>, k: int, t: int, passed: Set<(int, int, Heading)>) -> bool {
    let a = points[k];
    let d = heading(points[k], points[k + 1]);
    &&& forall|i: int| 0 <= i < k ==> #[trigger] segment_along_grid(points, i)
    &&& forall|x: int, y: int, e: Heading| #[trigger]
        passed.contains((x, y, e)) <==> passed_before(points, k, x, y, e) || (segment_passes(
            points,
            k,
            x,
            y,
            e,
        ) && offset(a, d, x, y) < t)
    &&& forall|i: int, j: int, x: int, y: int, e: Heading|
        0 <= i < j < k ==> !(#[trigger] segment_passes(points, i, x, y, e) && #[trigger] segment_passes(
            points,
            j,
            x,
            y,
            e,
        ))
    &&& forall|i: int, x: int, y: int, e: Heading|
        0 <= i < k && offset(a, d, x, y) < t ==> !(#[trigger] segment_passes(points, i, x, y, e)
            && segment_passes(points, k, x, y, e))
}

/// A segment along the grid passes edges in its own direction only, at
/// offsets below its run.
proof fn lemma_own_edges(points: Seq<GridPoint>, k: int, x: int, y: int, e: Heading)
    requires
        segment_along_grid(points, k),
        segment_passes(points, k, x, y, e),
    ensures
        e == heading(points[k], points[k + 1]),
        0 <= offset(points[k], e, x, y) < run(points[k], points[k + 1]),
        x == (if e == Heading::East { points[k].x + offset(points[k], e, x, y) } else if e == Heading::West {
            points[k].x - offset(points[k], e, x, y)
        } else {
            points[k].x as int
        }),
        y == (if e == Heading::South { points[k].y + offset(points[k], e, x, y) } else if e
            == Heading::North {
            points[k].y - offset(points[k], e, x, y)
        } else {
            points[k].y as int
        }),
{
}

/// With no segment done, nothing has been passed.
proof fn lemma_walk_start(points: Seq<GridPoint>)
    ensures
        walk_inv(points, 0, 0, Set::empty()),
{
    assert forall|x: int, y: int, e: Heading| !passed_before(points, 0, x, y, e) by {}
}

/// Passing one more edge that was not passed before keeps the state.
proof fn lemma_walk_step(points: Seq<GridPoint>, k: int, t: int, passed: Set<(int, int, Heading)>, x: int, y: int)
    requires
        0 <= k < points.len() - 1,
        segment_along_grid(points, k),
        walk_inv(points, k, t, passed),
        0 <= t < run(points[k], points[k + 1]),
        segment_passes(points, k, x, y, heading(points[k], points[k + 1])),
        offset(points[k], heading(points[k], points[k + 1]), x, y) == t,
        !passed.contains((x, y, heading(points[k], points[k + 1]))),
    ensures
        walk_inv(points, k, t + 1, passed.insert((x, y, heading(points[k], points[k + 1])))),
{
    let a = points[k];
    let d = heading(points[k], points[k + 1]);
    let after = passed.insert((x, y, d));
    assert forall|u: int, v: int, e: Heading| #[trigger]
        after.contains((u, v, e)) <==> passed_before(points, k, u, v, e) || (segment_passes(
            points,
            k,
            u,
            v,
            e,
        ) && offset(a, d, u, v) < t + 1) by {
        if segment_passes(points, k, u, v, e) {
            lemma_own_edges(points, k, u, v, e);
        }
        assert(passed.contains((u, v, e)) <==> passed_before(points, k, u, v, e) || (segment_passes(
            points,
            k,
            u,
            v,
            e,
        ) && offset(a, d, u, v) < t));
    }
    assert forall|i: int, u: int, v: int, e: Heading|
        0 <= i < k && offset(a, d, u, v) < t + 1 implies !(#[trigger] segment_passes(points, i, u, v, e)
            && segment_passes(points, k, u, v, e)) by {
        if segment_passes(points, i, u, v, e) && segment_passes(points, k, u, v, e) {
            lemma_own_edges(points, k, u, v, e);
            assert(passed_before(points, k, u, v, e));
            assert(passed.contains((u, v, e)));
        }
    }
}

/// An edge that was passed before and is passed again shows that the ring
/// overlaps itself.
proof fn lemma_walk_hit(points: Seq<GridPoint>, k: int, t: int, passed: Set<(int, int, Heading)>, x: int, y: int)
    requires
        0 <= k < points.len() - 1,
        segment_along_grid(points, k),
        walk_inv(points, k, t, passed),
        segment_passes(points, k, x, y, heading(points[k], points[k + 1])),
        offset(points[k], heading(points[k], points[k + 1]), x, y) == t,
        passed.contains((x, y, heading(points[k], points[k + 1]))),
    ensures
        !passes_once(points),
{
    let d = heading(points[k], points[k + 1]);
    assert(passed_before(points, k, x, y, d));
    let i = choose|i: int| 0 <= i < k && #[trigger] segment_passes(points, i, x, y, d);
    assert(segment_passes(points, i, x, y, d) && segment_passes(points, k, x, y, d));
}

/// When a segment is done, the walk stands at the start of the next.
proof fn lemma_walk_next(points: Seq<GridPoint>, k: int, passed: Set<(int, int, Heading)>)
    requires
        0 <= k < points.len() - 1,
        segment_along_grid(points, k),
        walk_inv(points, k, run(points[k], points[k + 1]), passed),
    ensures
        walk_inv(points, k + 1, 0, passed),
{
    let a = points[k];
    let d = heading(points[k], points[k + 1]);
    let t = run(points[k], points[k + 1]);
    assert forall|x: int, y: int, e: Heading| #[trigger]
        passed.contains((x, y, e)) <==> passed_before(points, k + 1, x, y, e) by {
        assert(passed.contains((x, y, e)) <==> passed_before(points, k, x, y, e) || (segment_passes(
            points,
            k,
            x,
            y,
            e,
        ) && offset(a, d, x, y) < t));
        if segment_passes(points, k, x, y, e) {
            lemma_own_edges(points, k, x, y, e);
        }
        if passed_before(points, k + 1, x, y, e) {
            let i = choose|i: int| 0 <= i < k + 1 && #[trigger] segment_passes(points, i, x, y, e);
            if i < k {
                assert(passed_before(points, k, x, y, e));
            }
        }
        if passed_before(points, k, x, y, e) {
            let i = choose|i: int| 0 <= i < k && #[trigger] segment_passes(points, i, x, y, e);
            assert(0 <= i < k + 1 && segment_passes(points, i, x, y, e));
        }
    }
    assert forall|i: int, j: int, x: int, y: int, e: Heading| 0 <= i < j < k + 1 implies !(
    #[trigger] segment_passes(points, i, x, y, e) && #[trigger] segment_passes(points, j, x, y, e)) by {
        if j == k && segment_passes(points, k, x, y, e) {
            lemma_own_edges(points, k, x, y, e);
        }
    }
}

/// A walk that has done every segment has passed no edge twice.
proof fn lemma_walk_done(points: Seq<GridPoint>, passed: Set<(int, int, Heading)>)
    requires
        points.len() >= 1,
        walk_inv(points, points.len() - 1, 0, passed),
    ensures
        walked_once(points),
{
}

/// The place of a unit edge in a table that holds four slots for each of
/// the `cols` corners of each row.
spec fn slot(cols: int, x: int, y: int, d: Heading) -> int {
    (y * cols + x) * 4 + match d {
        Heading::East => 0int,
        Heading::South => 1int,
        Heading::West => 2int,
        Heading::North => 3int,
    }
}

proof fn lemma_slot_in_table(cols: int, rows: int, x: int, y: int, d: Heading)
    requires
        0 <= x < cols,
        0 <= y < rows,
    ensures
        0 <= y * cols,
        y * cols + x < cols * rows,
        0 <= slot(cols, x, y, d) < 4 * (cols * rows),
{
    assert(0 <= y * cols && y * cols + cols <= rows * cols) by (nonlinear_arith)
        requires
            0 <= y < rows,
            0 < cols,
    ;
    assert(rows * cols == cols * rows) by (nonlinear_arith);
}

proof fn lemma_slots_differ(cols: int, x: int, y: int, d: Heading, u: int, v: int, e: Heading)
    requires
        0 <= x < cols,
        0 <= u < cols,
        0 <= y,
        0 <= v,
        slot(cols, x, y, d) == slot(cols, u, v, e),
    ensures
        x == u,
        y == v,
        d == e,
{
    assert(y * cols + x == v * cols + u);
    assert(y == v) by (nonlinear_arith)
        requires
            y * cols + x == v * cols + u,
            0 <= x < cols,
            0 <= u < cols,
    ;
}

/// The table shows exactly the edges in `passed`: the slot of an edge holds
/// the stamp if and only if the edge was passed.
spec fn shows(table: Seq<usize>, stamp: usize, cols: int, rows: int, passed: Set<(int, int, Heading)>) -> bool {
    &&& table.len() == 4 * (cols * rows)
    &&& forall|i: int| 0 <= i < table.len() ==> #[trigger] table[i] <= stamp
    &&& forall|x: int, y: int, d: Heading|
        0 <= x < cols && 0 <= y < rows ==> (table[#[trigger] slot(cols, x, y, d)] == stamp
            <==> passed.contains((x, y, d)))
}

/// Marks a unit edge as passed, and says whether it had not been passed
/// before.
fn mark(
    table: &mut Vec<usize>,
    stamp: usize,
    cols: usize,
    rows: usize,
    x: usize,
    y: usize,
    d: Heading,
    Ghost(passed): Ghost<Set<(int, int, Heading)>>,
) -> (fresh: bool)
    requires
        x < cols,
        y < rows,
        shows(old(table)@, stamp, cols as int, rows as int, passed),
    ensures
        fresh == !passed.contains((x as int, y as int, d)),
        fresh ==> shows(final(table)@, stamp, cols as int, rows as int, passed.insert((x as int, y as int, d))),
        !fresh ==> final(table)@ == old(table)@,
{
    let size = table.len();
    proof {
        lemma_slot_in_table(cols as int, rows as int, x as int, y as int, d);
        assert(4 * (cols * rows) == size);
        assert(0 <= y * cols && y * cols + x < cols * rows) by (nonlinear_arith)
            requires
                x < cols,
                y < rows,
        ;
    }
    let cell = y * cols + x;
    let at = cell * 4 + match d {
        Heading::East => 0,
        Heading::South => 1,
        Heading::West => 2,
        Heading::North => 3,
    };
    assert(at == slot(cols as int, x as int, y as int, d));
    if table[at] == stamp {
        false
    } else {
        table.set(at, stamp);
        proof {
            let after = passed.insert((x as int, y as int, d));
            assert forall|u: int, v: int, e: Heading| 0 <= u < cols && 0 <= v < rows implies (table@[#[trigger] slot(
                cols as int,
                u,
                v,
                e,
            )] == stamp <==> after.contains((u, v, e))) by {
                lemma_slot_in_table(cols as int, rows as int, u, v, e);
                if slot(cols as int, u, v, e) == at {
                    lemma_slots_differ(cols as int, x as int, y as int, d, u, v, e);
                }
            }
        }
        true
    }
}

/// Walks the ring and marks every unit edge that it passes; says whether the
/// ring follows the grid and passes no edge twice.
fn ring_walked_once(points: &Vec<GridPoint>, table: &mut Vec<usize>, stamp: usize, cols: usize, rows: usize) -> (ok:
    bool)
    requires
        old(table).len() == 4 * (cols * rows),
        forall|i: int| 0 <= i < old(table).len() ==> #[trigger] old(table)[i] < stamp,
        forall|i: int| 0 <= i < points.len() ==> 0 <= (#[trigger] points[i]).x < cols && 0 <= points[i].y < rows,
    ensures
        ok == walked_once(points@),
        final(table).len() == old(table).len(),
        forall|i: int| 0 <= i < final(table).len() ==> #[trigger] final(table)[i] <= stamp,
{
    let n = points.len();
    if n < 2 {
        assert(walked_once(points@));
        return true;
    }
    let ghost mut passed: Set<(int, int, Heading)> = Set::empty();
    proof {
        lemma_walk_start(points@);
        assert forall|x: int, y: int, d: Heading| 0 <= x < cols && 0 <= y < rows implies (table@[#[trigger] slot(
            cols as int,
            x,
            y,
            d,
        )] == stamp <==> passed.contains((x, y, d))) by {
            lemma_slot_in_table(cols as int, rows as int, x, y, d);
        }
    }
    let mut k: usize = 0;
    while k < n - 1
        invariant
            n == points.len(),
            n >= 2,
            k <= n - 1,
            table.len() == old(table).len(),
            forall|i: int| 0 <= i < points.len() ==> 0 <= (#[trigger] points[i]).x < cols && 0 <= points[i].y < rows,
            shows(table@, stamp, cols as int, rows as int, passed),
            walk_inv(points@, k as int, 0, passed),
        decreases n - 1 - k,
    {
        let a = points[k];
        let b = points[k + 1];
        if (a.x == b.x) == (a.y == b.y) {
            assert(!segment_along_grid(points@, k as int));
            return false;
        }
        assert(segment_along_grid(points@, k as int));
        let d = if a.y == b.y {
            if a.x < b.x {
                Heading::East
            } else {
                Heading::West
            }
        } else if a.y < b.y {
            Heading::South
        } else {
            Heading::North
        };
        let len: usize = if a.y == b.y {
            if a.x < b.x {
                (b.x - a.x) as usize
            } else {
                (a.x - b.x) as usize
            }
        } else if a.y < b.y {
            (b.y - a.y) as usize
        } else {
            (a.y - b.y) as usize
        };
        let ax = a.x as usize;
        let ay = a.y as usize;
        let mut t: usize = 0;
        while t < len
            invariant
                n == points.len(),
                0 <= k < n - 1,
                a == points@[k as int],
                b == points@[k + 1],
                segment_along_grid(points@, k as int),
                d == heading(a, b),
                len == run(a, b),
                ax == a.x,
                ay == a.y,
                0 <= a.x < cols,
                0 <= a.y < rows,
                0 <= b.x < cols,
                0 <= b.y < rows,
                t <= len,
                table.len() == old(table).len(),
                shows(table@, stamp, cols as int, rows as int, passed),
                walk_inv(points@, k as int, t as int, passed),
            decreases len - t,
        {
            let x = match d {
                Heading::East => ax + t,
                Heading::West => ax - t,
                _ => ax,
            };
            let y = match d {
                Heading::South => ay + t,
                Heading::North => ay - t,
                _ => ay,
            };
            assert(segment_passes(points@, k as int, x as int, y as int, d));
            assert(offset(a, d, x as int, y as int) == t);
            let fresh = mark(table, stamp, cols, rows, x, y, d, Ghost(passed));
            if !fresh {
                proof {
                    lemma_walk_hit(points@, k as int, t as int, passed, x as int, y as int);
                }
                return false;
            }
            proof {
                lemma_walk_step(points@, k as int, t as int, passed, x as int, y as int);
                passed = passed.insert((x as int, y as int, d));
            }
            t += 1;
        }
        proof {
            lemma_walk_next(points@, k as int, passed);
        }
        k += 1;
    }
    proof {
        lemma_walk_done(points@, passed);
    }
    true
}

/// A table of `size` slots that shows no edge as passed under any stamp but
/// zero.
fn blank_table(size: usize) -> (table: Vec<usize>)
    ensures
        table.len() == size,
        forall|i: int| 0 <= i < table.len() ==> #[trigger] table[i] == 0,
{
    let mut table: Vec<usize> = Vec::new();
    let mut i: usize = 0;
    while i < size
        invariant
            i <= size,
            table.len() == i,
            forall|k: int| 0 <= k < table.len() ==> #[trigger] table[k] == 0,
        decreases size - i,
    {
        table.push(0);
        i += 1;
    }
    table
}

/// The most slots that a table of passed edges is given. A canvas whose
/// grid needs more is walked by comparing segments.
const TABLE_SLOTS: usize = 4_194_304;

/// The columns and rows of corners of a canvas, if a table of its edges has
/// no more than `TABLE_SLOTS` slots.
fn table_for(width: usize, height: usize) -> (r: Option<(usize, usize)>)
    ensures
        r matches Some((cols, rows)) ==> cols == width + 1 && rows == height + 1 && 4 * (cols * rows)
            <= TABLE_SLOTS,
{
    if width >= TABLE_SLOTS || height >= TABLE_SLOTS {
        return None;
    }
    let cols = width + 1;
    let rows = height + 1;
    match cols.checked_mul(rows) {
        Some(cells) => {
            if cells <= TABLE_SLOTS / 4 {
                Some((cols, rows))
            } else {
                None
            }
        },
        None => None,
    }
}

/// Whether every segment of the ring runs along a grid line.
pub(crate) fn ring_follows_grid(points: &Vec<GridPoint>) -> (ok: bool)
    ensures
        ok == follows_grid(points@),
{
    let n = points.len();
    if n < 2 {
        return true;
    }
    let mut k: usize = 0;
    while k < n - 1
        invariant
            n == points.len(),
            n >= 2,
            k <= n - 1,
            forall|i: int| 0 <= i < k ==> #[trigger] segment_along_grid(points@, i),
        decreases n - 1 - k,
    {
        let a = points[k];
        let b = points[k + 1];
        if (a.x == b.x) == (a.y == b.y) {
            assert(!segment_along_grid(points@, k as int));
            return false;
        }
        k += 1;
    }
    true
}

/// The two segments pass some unit edge in the same direction.
spec fn overlap(a: GridPoint, b: GridPoint, c: GridPoint, e: GridPoint) -> bool {
    exists|x: int, y: int, d: Heading| #[trigger] passes(a, b, x, y, d) && passes(c, e, x, y, d)
}

/// Whether two segments along the grid pass some unit edge in the same
/// direction: they lie on one line, head the same way, and their spans
/// meet in more than a point.
fn segments_overlap(a: GridPoint, b: GridPoint, c: GridPoint, e: GridPoint) -> (o: bool)
    requires
        along_grid(a, b),
        along_grid(c, e),
    ensures
        o == overlap(a, b, c, e),
{
    if a.y == b.y {
        if c.y != e.y || c.y != a.y || (a.x < b.x) != (c.x < e.x) {
            assert(!overlap(a, b, c, e));
            return false;
        }
        if a.x < b.x {
            let lo = if a.x > c.x { a.x } else { c.x };
            let hi = if b.x < e.x { b.x } else { e.x };
            if lo < hi {
                assert(passes(a, b, lo as int, a.y as int, Heading::East) && passes(
                    c,
                    e,
                    lo as int,
                    a.y as int,
                    Heading::East,
                ));
            } else {
                assert(!overlap(a, b, c, e));
            }
            lo < hi
        } else {
            let lo = if b.x > e.x { b.x } else { e.x };
            let hi = if a.x < c.x { a.x } else { c.x };
            if lo < hi {
                assert(passes(a, b, hi as int, a.y as int, Heading::West) && passes(
                    c,
                    e,
                    hi as int,
                    a.y as int,
                    Heading::West,
                ));
            } else {
                assert(!overlap(a, b, c, e));
            }
            lo < hi
        }
    } else {
        if c.x != e.x || c.x != a.x || (a.y < b.y) != (c.y < e.y) {
            assert(!overlap(a, b, c, e));
            return false;
        }
        if a.y < b.y {
            let lo = if a.y > c.y { a.y } else { c.y };
            let hi = if b.y < e.y { b.y } else { e.y };
            if lo < hi {
                assert(passes(a, b, a.x as int, lo as int, Heading::South) && passes(
                    c,
                    e,
                    a.x as int,
                    lo as int,
                    Heading::South,
                ));
            } else {
                assert(!overlap(a, b, c, e));
            }
            lo < hi
        } else {
            let lo = if b.y > e.y { b.y } else { e.y };
            let hi = if a.y < c.y { a.y } else { c.y };
            if lo < hi {
                assert(passes(a, b, a.x as int, hi as int, Heading::North) && passes(
                    c,
                    e,
                    a.x as int,
                    hi as int,
                    Heading::North,
                ));
            } else {
                assert(!overlap(a, b, c, e));
            }
            lo < hi
        }
    }
}

/// Says whether the ring follows the grid and passes no edge twice, by
/// holding every segment against those before it.
fn ring_walked_once_by_pairs(points: &Vec<GridPoint>) -> (ok: bool)
    ensures
        ok == walked_once(points@),
{
    let n = points.len();
    if n < 2 {
        assert(walked_once(points@));
        return true;
    }
    let mut k: usize = 0;
    while k < n - 1
        invariant
            n == points.len(),
            n >= 2,
            k <= n - 1,
            forall|i: int| 0 <= i < k ==> #[trigger] segment_along_grid(points@, i),
            forall|i: int, j: int|
                0 <= i < j < k ==> !overlap(
                    #[trigger] points@[i],
                    points@[i + 1],
                    #[trigger] points@[j],
                    points@[j + 1],
                ),
        decreases n - 1 - k,
    {
        let c = points[k];
        let e = points[k + 1];
        if (c.x == e.x) == (c.y == e.y) {
            assert(!segment_along_grid(points@, k as int));
            return false;
        }
        let mut i: usize = 0;
        while i < k
            invariant
                n == points.len(),
                k < n - 1,
                i <= k,
                c == points@[k as int],
                e == points@[k + 1],
                along_grid(c, e),
                forall|h: int| 0 <= h < k ==> #[trigger] segment_along_grid(points@, h),
                forall|h: int| 0 <= h < i ==> !overlap(#[trigger] points@[h], points@[h + 1], c, e),
            decreases k - i,
        {
            assert(segment_along_grid(points@, i as int));
            if segments_overlap(points[i], points[i + 1], c, e) {
                proof {
                    let (x, y, d) = choose|x: int, y: int, d: Heading| #[trigger]
                        passes(points@[i as int], points@[i + 1], x, y, d) && passes(c, e, x, y, d);
                    assert(segment_passes(points@, i as int, x, y, d) && segment_passes(points@, k as int, x, y, d));
                }
                return false;
            }
            i += 1;
        }
        k += 1;
    }
    proof {
        assert forall|i: int, j: int, x: int, y: int, d: Heading| 0 <= i < j < points@.len() - 1 implies !(
        #[trigger] segment_passes(points@, i, x, y, d) && #[trigger] segment_passes(points@, j, x, y, d)) by {
            if segment_passes(points@, i, x, y, d) && segment_passes(points@, j, x, y, d) {
                assert(passes(points@[i], points@[i + 1], x, y, d) && passes(points@[j], points@[j + 1], x, y, d));
                assert(overlap(points@[i], points@[i + 1], points@[j], points@[j + 1]));
            }
        }
    }
    true
}

impl Shape {
    /// Walks the rings of the shape, each under a stamp of its own, and hands
    /// back the last stamp used.
    fn rings_walked(&self, table: &mut Vec<usize>, stamp: usize, cols: usize, rows: usize) -> (r: (bool, usize))
        requires
            old(table).len() == 4 * (cols * rows),
            forall|i: int| 0 <= i < old(table).len() ==> #[trigger] old(table)[i] <= stamp,
            forall|j: int, i: int|
                0 <= j < self@.rings.len() && self@.rings[j] is Grid && 0 <= i < self@.rings[j]->Grid_0.len() ==> {
                    &&& 0 <= (#[trigger] self@.rings[j]->Grid_0[i]).x < cols
                    &&& 0 <= self@.rings[j]->Grid_0[i].y < rows
                },
        ensures
            r.0 == self@.walked(),
            final(table).len() == old(table).len(),
            forall|i: int| 0 <= i < final(table).len() ==> #[trigger] final(table)[i] <= r.1,
    {
        let n = self.rings.len();
        let size = table.len();
        let mut stamp = stamp;
        let mut j: usize = 0;
        while j < n
            invariant
                j <= n,
                n == self.rings.len(),
                self@.rings.len() == n,
                table.len() == size,
                size == old(table).len(),
                size == 4 * (cols * rows),
                forall|i: int| 0 <= i < table.len() ==> #[trigger] table[i] <= stamp,
                forall|k: int| 0 <= k < j ==> (#[trigger] self@.rings[k]).walked(),
                forall|j: int, i: int|
                    0 <= j < self@.rings.len() && self@.rings[j] is Grid && 0 <= i < self@.rings[j]->Grid_0.len()
                        ==> {
                        &&& 0 <= (#[trigger] self@.rings[j]->Grid_0[i]).x < cols
                        &&& 0 <= self@.rings[j]->Grid_0[i].y < rows
                    },
            decreases n - j,
        {
            assert(self@.rings[j as int] == self.rings[j as int]@);
            match &self.rings[j] {
                Ring::Grid(points) => {
                    if stamp == usize::MAX {
                        *table = blank_table(size);
                        stamp = 0;
                    }
                    stamp += 1;
                    assert forall|i: int| 0 <= i < points.len() implies 0 <= (#[trigger] points[i]).x < cols && 0
                        <= points[i].y < rows by {
                        assert(self@.rings[j as int]->Grid_0[i] == points[i]);
                    }
                    if !ring_walked_once(points, table, stamp, cols, rows) {
                        assert(!self@.rings[j as int].walked());
                        return (false, stamp);
                    }
                },
                _ => {
                    assert(!self@.rings[j as int].walked());
                    return (false, stamp);
                },
            }
            j += 1;
        }
        (true, stamp)
    }
}

impl Shape {
    /// Walks the rings of the shape by comparing segments.
    fn rings_walked_by_pairs(&self) -> (ok: bool)
        ensures
            ok == self@.walked(),
    {
        let n = self.rings.len();
        let mut j: usize = 0;
        while j < n
            invariant
                j <= n,
                n == self.rings.len(),
                self@.rings.len() == n,
                forall|k: int| 0 <= k < j ==> (#[trigger] self@.rings[k]).walked(),
            decreases n - j,
        {
            assert(self@.rings[j as int] == self.rings[j as int]@);
            match &self.rings[j] {
                Ring::Grid(points) => {
                    if !ring_walked_once_by_pairs(points) {
                        assert(!self@.rings[j as int].walked());
                        return false;
                    }
                },
                _ => {
                    assert(!self@.rings[j as int].walked());
                    return false;
                },
            }
            j += 1;
        }
        true
    }
}

impl Document {
    /// Whether every ring is a walk along the grid that overlaps itself
    /// nowhere. The document must have passed [`Document::check`].
    pub fn is_walked(&self) -> (ok: bool)
        requires
            self.wf(),
        ensures
            ok == self@.walked(),
    {
        let n = self.shapes.len();
        match table_for(self.width, self.height) {
            Some((cols, rows)) => {
                let mut table = blank_table(4 * (cols * rows));
                let mut stamp: usize = 0;
                let mut i: usize = 0;
                while i < n
                    invariant
                        i <= n,
                        n == self.shapes.len(),
                        self@.shapes.len() == n,
                        self.wf(),
                        cols == self.width + 1,
                        rows == self.height + 1,
                        table.len() == 4 * (cols * rows),
                        forall|k: int| 0 <= k < table.len() ==> #[trigger] table[k] <= stamp,
                        forall|k: int| 0 <= k < i ==> (#[trigger] self@.shapes[k]).walked(),
                    decreases n - i,
                {
                    assert(self@.shapes[i as int] == self.shapes[i as int]@);
                    let shape = &self.shapes[i];
                    proof {
                        assert forall|j: int, p: int|
                            0 <= j < shape@.rings.len() && shape@.rings[j] is Grid && 0 <= p
                                < shape@.rings[j]->Grid_0.len() implies {
                            &&& 0 <= (#[trigger] shape@.rings[j]->Grid_0[p]).x < cols
                            &&& 0 <= shape@.rings[j]->Grid_0[p].y < rows
                        } by {
                            assert(self@.shapes[i as int].rings[j].defect(self@.width, self@.height) is None);
                        }
                    }
                    let (ok, last) = shape.rings_walked(&mut table, stamp, cols, rows);
                    if !ok {
                        return false;
                    }
                    stamp = last;
                    i += 1;
                }
                true
            },
            None => {
                let mut i: usize = 0;
                while i < n
                    invariant
                        i <= n,
                        n == self.shapes.len(),
                        self@.shapes.len() == n,
                        forall|k: int| 0 <= k < i ==> (#[trigger] self@.shapes[k]).walked(),
                    decreases n - i,
                {
                    assert(self@.shapes[i as int] == self.shapes[i as int]@);
                    if !self.shapes[i].rings_walked_by_pairs() {
                        return false;
                    }
                    i += 1;
                }
                true
            },
        }
    }
}

} // verus!
