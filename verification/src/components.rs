//! Text areas of the detector's probability map: the map is thresholded
//! (outside, in floating point) into a mask, and every 4-connected group of
//! set pixels large enough to be text becomes the bounding box of the
//! group. Groups are reported in the raster order of their first pixel.

use vstd::prelude::*;
use crate::image::Region;

verus! {

// ---------------------------------------------------------------------------
// Pixels, paths and groups
// ---------------------------------------------------------------------------

/// The pixel lies on the map.
pub open spec fn in_map(w: int, h: int, p: (int, int)) -> bool {
    0 <= p.0 < w && 0 <= p.1 < h
}

/// Position of a pixel in the row-major mask.
pub open spec fn cell(w: int, p: (int, int)) -> int {
    p.1 * w + p.0
}

/// The pixel lies on the map and is set.
pub open spec fn is_set(mask: Seq<bool>, w: int, h: int, p: (int, int)) -> bool {
    in_map(w, h, p) && mask[cell(w, p)]
}

/// The two pixels share an edge.
pub open spec fn touching(p: (int, int), q: (int, int)) -> bool {
    ||| p.0 == q.0 && (p.1 == q.1 + 1 || q.1 == p.1 + 1)
    ||| p.1 == q.1 && (p.0 == q.0 + 1 || q.0 == p.0 + 1)
}

/// A walk over set pixels, from each pixel to one touching it.
pub open spec fn is_walk(mask: Seq<bool>, w: int, h: int, walk: Seq<(int, int)>) -> bool {
    &&& walk.len() >= 1
    &&& forall|k: int| 0 <= k < walk.len() ==> is_set(mask, w, h, #[trigger] walk[k])
    &&& forall|k: int| 0 <= k < walk.len() - 1 ==> touching(#[trigger] walk[k], walk[k + 1])
}

/// Set pixels `p` and `q` belong to one group: a walk over set pixels leads
/// from `p` to `q`.
pub open spec fn connected(mask: Seq<bool>, w: int, h: int, p: (int, int), q: (int, int)) -> bool {
    exists|walk: Seq<(int, int)>| #[trigger] is_walk(mask, w, h, walk) && walk[0] == p && walk.last() == q
}

/// `q` comes before `p` in raster order.
pub open spec fn before(q: (int, int), p: (int, int)) -> bool {
    q.1 < p.1 || (q.1 == p.1 && q.0 < p.0)
}

/// `p` is the first pixel of its group in raster order.
pub open spec fn is_first(mask: Seq<bool>, w: int, h: int, p: (int, int)) -> bool {
    &&& is_set(mask, w, h, p)
    &&& forall|q: (int, int)| #[trigger] connected(mask, w, h, p, q) ==> !before(q, p)
}

/// The group of a set pixel.
pub open spec fn group(mask: Seq<bool>, w: int, h: int, p: (int, int)) -> Set<(int, int)> {
    Set::new(|q: (int, int)| connected(mask, w, h, p, q))
}

/// `m` is the least column of the pixels of `s`.
pub open spec fn is_left(s: Set<(int, int)>, m: int) -> bool {
    (exists|q: (int, int)| s.contains(q) && q.0 == m) && (forall|q: (int, int)| s.contains(q) ==> m <= q.0)
}

/// `m` is the greatest column of the pixels of `s`.
pub open spec fn is_right(s: Set<(int, int)>, m: int) -> bool {
    (exists|q: (int, int)| s.contains(q) && q.0 == m) && (forall|q: (int, int)| s.contains(q) ==> q.0 <= m)
}

/// `m` is the least row of the pixels of `s`.
pub open spec fn is_top(s: Set<(int, int)>, m: int) -> bool {
    (exists|q: (int, int)| s.contains(q) && q.1 == m) && (forall|q: (int, int)| s.contains(q) ==> m <= q.1)
}

/// `m` is the greatest row of the pixels of `s`.
pub open spec fn is_bottom(s: Set<(int, int)>, m: int) -> bool {
    (exists|q: (int, int)| s.contains(q) && q.1 == m) && (forall|q: (int, int)| s.contains(q) ==> q.1 <= m)
}

/// The least column of a group.
pub open spec fn left_of(s: Set<(int, int)>) -> int {
    choose|m: int| is_left(s, m)
}

/// The greatest column of a group.
pub open spec fn right_of(s: Set<(int, int)>) -> int {
    choose|m: int| is_right(s, m)
}

/// The least row of a group.
pub open spec fn top_of(s: Set<(int, int)>) -> int {
    choose|m: int| is_top(s, m)
}

/// The greatest row of a group.
pub open spec fn bottom_of(s: Set<(int, int)>) -> int {
    choose|m: int| is_bottom(s, m)
}

/// A group is text: at least 20 pixels, and at least 3 pixels wide and
/// high.
pub open spec fn is_text_group(s: Set<(int, int)>) -> bool {
    &&& s.len() >= 20
    &&& right_of(s) - left_of(s) + 1 >= 3
    &&& bottom_of(s) - top_of(s) + 1 >= 3
}

/// The bounding box of a group.
pub open spec fn box_of(s: Set<(int, int)>) -> Region {
    Region {
        x: left_of(s) as i32,
        y: top_of(s) as i32,
        width: (right_of(s) - left_of(s) + 1) as u32,
        height: (bottom_of(s) - top_of(s) + 1) as u32,
    }
}

/// The box reported for pixel `p`: the box of its group when `p` is the
/// group's first pixel and the group is text; nothing otherwise.
pub open spec fn reported_at(mask: Seq<bool>, w: int, h: int, p: (int, int)) -> Seq<Region> {
    if is_first(mask, w, h, p) && is_text_group(group(mask, w, h, p)) {
        seq![box_of(group(mask, w, h, p))]
    } else {
        Seq::empty()
    }
}

/// The boxes reported for the first `x` pixels of row `y`.
pub open spec fn reported_in_row(mask: Seq<bool>, w: int, h: int, y: int, x: int) -> Seq<Region>
    decreases x,
{
    if x <= 0 {
        Seq::empty()
    } else {
        reported_in_row(mask, w, h, y, x - 1) + reported_at(mask, w, h, (x - 1, y))
    }
}

/// The boxes reported for the first `y` rows.
pub open spec fn reported_rows(mask: Seq<bool>, w: int, h: int, y: int) -> Seq<Region>
    decreases y,
{
    if y <= 0 {
        Seq::empty()
    } else {
        reported_rows(mask, w, h, y - 1) + reported_in_row(mask, w, h, y - 1, w)
    }
}

/// The text boxes of a mask: one per text group, in the raster order of
/// the groups' first pixels.
pub open spec fn text_boxes(mask: Seq<bool>, w: int, h: int) -> Seq<Region> {
    reported_rows(mask, w, h, h)
}

// ---------------------------------------------------------------------------
// Walk lemmas
// ---------------------------------------------------------------------------

proof fn lemma_single_walk(mask: Seq<bool>, w: int, h: int, p: (int, int))
    requires
        is_set(mask, w, h, p),
    ensures
        connected(mask, w, h, p, p),
{
    let walk = seq![p];
    assert(is_walk(mask, w, h, walk));
}

proof fn lemma_extend_walk(mask: Seq<bool>, w: int, h: int, p: (int, int), q: (int, int), r: (int, int))
    requires
        connected(mask, w, h, p, q),
        touching(q, r),
        is_set(mask, w, h, r),
    ensures
        connected(mask, w, h, p, r),
{
    let walk = choose|walk: Seq<(int, int)>| #[trigger] is_walk(mask, w, h, walk) && walk[0] == p && walk.last() == q;
    let longer = walk.push(r);
    assert forall|k: int| 0 <= k < longer.len() implies is_set(mask, w, h, #[trigger] longer[k]) by {
        if k < walk.len() {
            assert(longer[k] == walk[k]);
        }
    }
    assert forall|k: int| 0 <= k < longer.len() - 1 implies touching(#[trigger] longer[k], longer[k + 1]) by {
        if k < walk.len() - 1 {
            assert(longer[k] == walk[k] && longer[k + 1] == walk[k + 1]);
        }
    }
    assert(is_walk(mask, w, h, longer));
    assert(longer[0] == p);
}

proof fn lemma_reverse_walk(mask: Seq<bool>, w: int, h: int, p: (int, int), q: (int, int))
    requires
        connected(mask, w, h, p, q),
    ensures
        connected(mask, w, h, q, p),
{
    let walk = choose|walk: Seq<(int, int)>| #[trigger] is_walk(mask, w, h, walk) && walk[0] == p && walk.last() == q;
    let n = walk.len();
    let back = Seq::new(n, |k: int| walk[n - 1 - k]);
    assert forall|k: int| 0 <= k < back.len() implies is_set(mask, w, h, #[trigger] back[k]) by {
        assert(back[k] == walk[n - 1 - k]);
    }
    assert forall|k: int| 0 <= k < back.len() - 1 implies touching(#[trigger] back[k], back[k + 1]) by {
        assert(back[k] == walk[n - 1 - k] && back[k + 1] == walk[n - 1 - (k + 1)]);
        assert(touching(walk[n - 2 - k], walk[n - 2 - k + 1]));
    }
    assert(is_walk(mask, w, h, back));
}

proof fn lemma_join_walks(mask: Seq<bool>, w: int, h: int, p: (int, int), q: (int, int), r: (int, int))
    requires
        connected(mask, w, h, p, q),
        connected(mask, w, h, q, r),
    ensures
        connected(mask, w, h, p, r),
{
    let first = choose|walk: Seq<(int, int)>| #[trigger] is_walk(mask, w, h, walk) && walk[0] == p && walk.last() == q;
    let second = choose|walk: Seq<(int, int)>| #[trigger] is_walk(mask, w, h, walk) && walk[0] == q && walk.last() == r;
    let joined = first + second.drop_first();
    let a = first.len();
    assert forall|k: int| 0 <= k < joined.len() implies is_set(mask, w, h, #[trigger] joined[k]) by {
        if k < a {
            assert(joined[k] == first[k]);
        } else {
            assert(joined[k] == second[k - a + 1]);
        }
    }
    assert forall|k: int| 0 <= k < joined.len() - 1 implies touching(#[trigger] joined[k], joined[k + 1]) by {
        if k < a - 1 {
            assert(joined[k] == first[k] && joined[k + 1] == first[k + 1]);
        } else if k == a - 1 {
            assert(joined[k] == first[a - 1] && first[a - 1] == second[0]);
            assert(joined[k + 1] == second[1]);
            assert(touching(second[0], second[1]));
        } else {
            assert(joined[k] == second[k - a + 1] && joined[k + 1] == second[k - a + 2]);
            assert(touching(second[k - a + 1], second[k - a + 1 + 1]));
        }
    }
    assert(is_walk(mask, w, h, joined));
    if second.len() == 1 {
        assert(joined.last() == first.last());
    } else {
        assert(joined.last() == second.last());
    }
}


// ---------------------------------------------------------------------------
// Exploring one group
// ---------------------------------------------------------------------------

/// The pixels of a queue of mask positions.
pub open spec fn pixels(queue: Seq<(usize, usize)>) -> Seq<(int, int)> {
    queue.map_values(|e: (usize, usize)| (e.0 as int, e.1 as int))
}

/// The pixel is marked visited.
pub open spec fn marked(visited: Seq<bool>, w: int, p: (int, int)) -> bool {
    visited[cell(w, p)]
}

/// Set pixel `t` belongs to a group whose first pixel comes before `p`.
pub open spec fn earlier_group(mask: Seq<bool>, w: int, h: int, p: (int, int), t: (int, int)) -> bool {
    exists|q: (int, int)| before(q, p) && #[trigger] connected(mask, w, h, q, t)
}

/// Unmarked entries of the visited marks.
pub open spec fn unmarked(visited: Seq<bool>) -> nat
    decreases visited.len(),
{
    if visited.len() == 0 {
        0
    } else {
        unmarked(visited.drop_last()) + if visited.last() {
            0nat
        } else {
            1nat
        }
    }
}

proof fn lemma_unmarked_update(visited: Seq<bool>, i: int)
    requires
        0 <= i < visited.len(),
        !visited[i],
    ensures
        unmarked(visited.update(i, true)) + 1 == unmarked(visited),
    decreases visited.len(),
{
    let u = visited.update(i, true);
    if i == visited.len() - 1 {
        assert(u.drop_last() == visited.drop_last());
    } else {
        assert(u.drop_last() == visited.drop_last().update(i, true));
        lemma_unmarked_update(visited.drop_last(), i);
    }
}

proof fn lemma_cell_in_range(w: int, h: int, p: (int, int))
    requires
        in_map(w, h, p),
    ensures
        0 <= cell(w, p) < w * h,
{
    assert(0 <= p.1 * w + p.0 < w * h) by (nonlinear_arith)
        requires
            0 <= p.0 < w,
            0 <= p.1 < h,
    ;
}

proof fn lemma_cell_injective(w: int, h: int, p: (int, int), q: (int, int))
    requires
        in_map(w, h, p),
        in_map(w, h, q),
        cell(w, p) == cell(w, q),
    ensures
        p == q,
{
    assert(p.1 == q.1) by (nonlinear_arith)
        requires
            0 <= p.0 < w,
            0 <= q.0 < w,
            p.1 * w + p.0 == q.1 * w + q.0,
    ;
}

/// Every position of the map lies inside the mask.
proof fn lemma_cells_in_range(w: int, h: int)
    ensures
        forall|p: (int, int)| #[trigger] in_map(w, h, p) ==> 0 <= cell(w, p) < w * h,
{
    assert forall|p: (int, int)| #[trigger] in_map(w, h, p) implies 0 <= cell(w, p) < w * h by {
        lemma_cell_in_range(w, h, p);
    }
}

/// What exploring the group of `p` keeps true: the queue starts at `p`,
/// holds distinct set pixels of the group, all marked, and a set pixel is
/// marked exactly when it belongs to an earlier group or is queued.
pub open spec fn explore_inv(
    mask: Seq<bool>,
    visited: Seq<bool>,
    queue: Seq<(usize, usize)>,
    w: int,
    h: int,
    p: (int, int),
) -> bool {
    let s = pixels(queue);
    &&& s.len() >= 1
    &&& s[0] == p
    &&& s.no_duplicates()
    &&& forall|k: int|
        0 <= k < s.len() ==> is_set(mask, w, h, #[trigger] s[k]) && connected(mask, w, h, p, s[k])
            && marked(visited, w, s[k])
    &&& forall|t: (int, int)|
        #[trigger] is_set(mask, w, h, t) ==> (marked(visited, w, t) <==> earlier_group(
            mask,
            w,
            h,
            p,
            t,
        ) || s.contains(t))
}

/// Every neighbour on the map of the first `head` queued pixels is marked.
pub open spec fn closed_upto(visited: Seq<bool>, queue: Seq<(usize, usize)>, w: int, h: int, head: int) -> bool {
    forall|k: int, n: (int, int)|
        0 <= k < head && in_map(w, h, n) && #[trigger] touching(pixels(queue)[k], n) ==> marked(visited, w, n)
}

/// Visiting a neighbour of a queued pixel keeps the exploration invariant.
proof fn lemma_visit_keeps(
    mask: Seq<bool>,
    v0: Seq<bool>,
    v1: Seq<bool>,
    q0: Seq<(usize, usize)>,
    q1: Seq<(usize, usize)>,
    w: int,
    h: int,
    p: (int, int),
    c: (int, int),
    nx: usize,
    ny: usize,
)
    requires
        explore_inv(mask, v0, q0, w, h, p),
        mask.len() == w * h,
        v0.len() == w * h,
        connected(mask, w, h, p, c),
        touching(c, (nx as int, ny as int)),
        in_map(w, h, (nx as int, ny as int)),
        marked(v0, w, (nx as int, ny as int)) ==> v1 == v0 && q1 == q0,
        !marked(v0, w, (nx as int, ny as int)) ==> {
            &&& v1 == v0.update(cell(w, (nx as int, ny as int)), true)
            &&& q1 == if mask[cell(w, (nx as int, ny as int))] {
                q0.push((nx, ny))
            } else {
                q0
            }
        },
    ensures
        explore_inv(mask, v1, q1, w, h, p),
{
    let n = (nx as int, ny as int);
    if !marked(v0, w, n) {
        lemma_cells_in_range(w, h);
        let s0 = pixels(q0);
        let s1 = pixels(q1);
        let ci = cell(w, n);
        assert(0 <= ci < w * h);
        assert forall|t: (int, int)| #[trigger] in_map(w, h, t) && marked(v0, w, t) implies marked(v1, w, t) by {
            assert(0 <= cell(w, t) < w * h);
        }
        if mask[ci] {
            assert(s1 == s0.push(n));
            lemma_extend_walk(mask, w, h, p, c, n);
            assert forall|k: int| 0 <= k < s0.len() implies s0[k] != n by {
                assert(is_set(mask, w, h, s0[k]));
                assert(marked(v0, w, s0[k]));
            }
            assert forall|k: int|
                0 <= k < s1.len() implies is_set(mask, w, h, #[trigger] s1[k]) && connected(mask, w, h, p, s1[k])
                && marked(v1, w, s1[k]) by {
                if k < s0.len() {
                    assert(s1[k] == s0[k]);
                    assert(is_set(mask, w, h, s0[k]));
                } else {
                    assert(s1[k] == n);
                }
            }
            assert(s1[0] == s0[0]);
        } else {
            assert(s1 == s0);
        }
        assert forall|t: (int, int)| #[trigger] is_set(mask, w, h, t) implies (marked(v1, w, t) <==> earlier_group(
            mask,
            w,
            h,
            p,
            t,
        ) || s1.contains(t)) by {
            if t == n {
                assert(s1.contains(n)) by {
                    assert(s1[s1.len() - 1] == n);
                }
            } else {
                if cell(w, t) == ci {
                    lemma_cell_injective(w, h, t, n);
                }
                assert(marked(v1, w, t) == marked(v0, w, t));
                if mask[ci] {
                    if s1.contains(t) {
                        let k = choose|k: int| 0 <= k < s1.len() && s1[k] == t;
                        assert(k < s0.len());
                        assert(s0[k] == t);
                    }
                    if s0.contains(t) {
                        let k = choose|k: int| 0 <= k < s0.len() && s0[k] == t;
                        assert(s1[k] == t);
                    }
                }
            }
        }
    }
}

/// Marks the pixel visited if it was not, and queues it when it is set.
fn visit(
    mask: &Vec<bool>,
    visited: &mut Vec<bool>,
    queue: &mut Vec<(usize, usize)>,
    width: usize,
    height: usize,
    x: usize,
    y: usize,
)
    requires
        mask.len() == width * height,
        old(visited).len() == width * height,
        x < width,
        y < height,
    ensures
        final(visited).len() == old(visited).len(),
        marked(old(visited)@, width as int, (x as int, y as int)) ==> final(visited)@ == old(visited)@
            && final(queue)@ == old(queue)@,
        !marked(old(visited)@, width as int, (x as int, y as int)) ==> {
            &&& final(visited)@ == old(visited)@.update(cell(width as int, (x as int, y as int)), true)
            &&& final(queue)@ == if mask@[cell(width as int, (x as int, y as int))] {
                old(queue)@.push((x, y))
            } else {
                old(queue)@
            }
        },
        marked(final(visited)@, width as int, (x as int, y as int)),
        forall|t: (int, int)|
            #[trigger] in_map(width as int, height as int, t) && marked(old(visited)@, width as int, t)
                ==> marked(final(visited)@, width as int, t),
        unmarked(final(visited)@) + final(queue)@.len() <= unmarked(old(visited)@) + old(queue)@.len(),
        forall|k: int| 0 <= k < old(queue)@.len() ==> final(queue)@[k] == old(queue)@[k],
{
    proof {
        lemma_cell_in_range(width as int, height as int, (x as int, y as int));
        lemma_cells_in_range(width as int, height as int);
    }
    let index = y * width + x;
    if visited[index] {
        return;
    }
    proof {
        lemma_unmarked_update(visited@, index as int);
    }
    visited.set(index, true);
    if mask[index] {
        queue.push((x, y));
    }
    proof {
        assert forall|t: (int, int)|
            #[trigger] in_map(width as int, height as int, t) && marked(old(visited)@, width as int, t)
                implies marked(visited@, width as int, t) by {
            assert(0 <= cell(width as int, t) < width * height);
        }
    }
}

/// A pixel connected to `p` belongs to no earlier group when `p` does not.
proof fn lemma_not_earlier(mask: Seq<bool>, w: int, h: int, p: (int, int), n: (int, int))
    requires
        !earlier_group(mask, w, h, p, p),
        connected(mask, w, h, p, n),
    ensures
        !earlier_group(mask, w, h, p, n),
{
    if earlier_group(mask, w, h, p, n) {
        let q = choose|q: (int, int)| before(q, p) && #[trigger] connected(mask, w, h, q, n);
        lemma_reverse_walk(mask, w, h, p, n);
        lemma_join_walks(mask, w, h, q, n, p);
    }
}

/// Once the queue is closed, every pixel of a walk from `p` is queued.
proof fn lemma_walk_queued(
    mask: Seq<bool>,
    visited: Seq<bool>,
    queue: Seq<(usize, usize)>,
    w: int,
    h: int,
    p: (int, int),
    walk: Seq<(int, int)>,
    k: int,
)
    requires
        explore_inv(mask, visited, queue, w, h, p),
        closed_upto(visited, queue, w, h, queue.len() as int),
        !earlier_group(mask, w, h, p, p),
        is_walk(mask, w, h, walk),
        walk[0] == p,
        0 <= k < walk.len(),
    ensures
        pixels(queue).contains(walk[k]),
    decreases k,
{
    let s = pixels(queue);
    if k == 0 {
        assert(s[0] == p);
    } else {
        lemma_walk_queued(mask, visited, queue, w, h, p, walk, k - 1);
        let j = choose|j: int| 0 <= j < s.len() && s[j] == walk[k - 1];
        assert(is_set(mask, w, h, walk[k]));
        assert(touching(walk[k - 1], walk[k - 1 + 1]));
        assert(touching(s[j], walk[k]));
        assert(marked(visited, w, walk[k]));
        assert(is_set(mask, w, h, s[j]) && connected(mask, w, h, p, s[j]));
        lemma_extend_walk(mask, w, h, p, s[j], walk[k]);
        lemma_not_earlier(mask, w, h, p, walk[k]);
    }
}

/// Visits the four neighbours on the map of the queued pixel `(cx, cy)`.
fn visit_neighbours(
    mask: &Vec<bool>,
    visited: &mut Vec<bool>,
    queue: &mut Vec<(usize, usize)>,
    width: usize,
    height: usize,
    cx: usize,
    cy: usize,
    Ghost(p): Ghost<(int, int)>,
)
    requires
        mask.len() == width * height,
        old(visited).len() == width * height,
        cx < width,
        cy < height,
        explore_inv(mask@, old(visited)@, old(queue)@, width as int, height as int, p),
        connected(mask@, width as int, height as int, p, (cx as int, cy as int)),
    ensures
        final(visited).len() == old(visited).len(),
        explore_inv(mask@, final(visited)@, final(queue)@, width as int, height as int, p),
        forall|n: (int, int)|
            in_map(width as int, height as int, n) && #[trigger] touching((cx as int, cy as int), n) ==> marked(
                final(visited)@,
                width as int,
                n,
            ),
        forall|t: (int, int)|
            #[trigger] in_map(width as int, height as int, t) && marked(old(visited)@, width as int, t)
                ==> marked(final(visited)@, width as int, t),
        unmarked(final(visited)@) + final(queue)@.len() <= unmarked(old(visited)@) + old(queue)@.len(),
        final(queue)@.len() >= old(queue)@.len(),
        forall|k: int| 0 <= k < old(queue)@.len() ==> final(queue)@[k] == old(queue)@[k],
{
    let ghost w = width as int;
    let ghost h = height as int;
    let ghost m = mask@;
    let ghost c = (cx as int, cy as int);
    let ghost v0 = visited@;
    let ghost q0 = queue@;
    if cx > 0 {
        let ghost va = visited@;
        let ghost qa = queue@;
        visit(mask, visited, queue, width, height, cx - 1, cy);
        proof {
            lemma_visit_keeps(m, va, visited@, qa, queue@, w, h, p, c, (cx - 1) as usize, cy);
        }
    }
    let ghost v1 = visited@;
    let ghost q1 = queue@;
    if cx + 1 < width {
        let ghost va = visited@;
        let ghost qa = queue@;
        visit(mask, visited, queue, width, height, cx + 1, cy);
        proof {
            lemma_visit_keeps(m, va, visited@, qa, queue@, w, h, p, c, (cx + 1) as usize, cy);
        }
    }
    let ghost v2 = visited@;
    let ghost q2 = queue@;
    if cy > 0 {
        let ghost va = visited@;
        let ghost qa = queue@;
        visit(mask, visited, queue, width, height, cx, cy - 1);
        proof {
            lemma_visit_keeps(m, va, visited@, qa, queue@, w, h, p, c, cx, (cy - 1) as usize);
        }
    }
    let ghost v3 = visited@;
    let ghost q3 = queue@;
    if cy + 1 < height {
        let ghost va = visited@;
        let ghost qa = queue@;
        visit(mask, visited, queue, width, height, cx, cy + 1);
        proof {
            lemma_visit_keeps(m, va, visited@, qa, queue@, w, h, p, c, cx, (cy + 1) as usize);
        }
    }
    proof {
        let v4 = visited@;
        let q4 = queue@;
        assert forall|k: int| 0 <= k < q0.len() implies #[trigger] q4[k] == q0[k] by {
            assert(q1[k] == q0[k]);
            assert(q2[k] == q1[k]);
            assert(q3[k] == q2[k]);
        }
        assert forall|t: (int, int)| #[trigger] in_map(w, h, t) && marked(v0, w, t) implies marked(v4, w, t) by {
            assert(marked(v1, w, t));
            assert(marked(v2, w, t));
            assert(marked(v3, w, t));
        }
        if cx > 0 {
            assert(in_map(w, h, (cx - 1, cy as int)));
            assert(marked(v2, w, (cx - 1, cy as int)));
            assert(marked(v3, w, (cx - 1, cy as int)));
        }
        if cx + 1 < width {
            assert(in_map(w, h, (cx + 1, cy as int)));
            assert(marked(v3, w, (cx + 1, cy as int)));
        }
        if cy > 0 {
            assert(in_map(w, h, (cx as int, cy - 1)));
        }
        assert forall|n: (int, int)| in_map(w, h, n) && #[trigger] touching(c, n) implies marked(v4, w, n) by {
            if n == (cx - 1, cy as int) {
                assert(marked(v3, w, n));
            } else if n == (cx + 1, cy as int) {
                assert(marked(v3, w, n));
            } else if n == (cx as int, cy - 1) {
                assert(in_map(w, h, n));
            }
        }
    }
}

/// Explores the group of the unmarked set pixel `(x, y)`: marks every pixel
/// of it and the pixels around it, and returns the group's size and its
/// least column, least row, greatest column and greatest row.
fn explore(mask: &Vec<bool>, visited: &mut Vec<bool>, width: usize, height: usize, x: usize, y: usize) -> (r: (
    usize,
    usize,
    usize,
    usize,
    usize,
))
    requires
        mask.len() == width * height,
        old(visited).len() == width * height,
        x < width,
        y < height,
        is_set(mask@, width as int, height as int, (x as int, y as int)),
        !marked(old(visited)@, width as int, (x as int, y as int)),
        forall|t: (int, int)| #[trigger]
            is_set(mask@, width as int, height as int, t) ==> (marked(old(visited)@, width as int, t)
                <==> earlier_group(mask@, width as int, height as int, (x as int, y as int), t)),
    ensures
        final(visited).len() == old(visited).len(),
        forall|t: (int, int)| #[trigger]
            is_set(mask@, width as int, height as int, t) ==> (marked(final(visited)@, width as int, t)
                <==> earlier_group(mask@, width as int, height as int, (x as int, y as int), t)
                || connected(mask@, width as int, height as int, (x as int, y as int), t)),
        group(mask@, width as int, height as int, (x as int, y as int)).finite(),
        r.0 == group(mask@, width as int, height as int, (x as int, y as int)).len(),
        is_left(group(mask@, width as int, height as int, (x as int, y as int)), r.1 as int),
        is_top(group(mask@, width as int, height as int, (x as int, y as int)), r.2 as int),
        is_right(group(mask@, width as int, height as int, (x as int, y as int)), r.3 as int),
        is_bottom(group(mask@, width as int, height as int, (x as int, y as int)), r.4 as int),
{
    let ghost w = width as int;
    let ghost h = height as int;
    let ghost p = (x as int, y as int);
    let ghost m = mask@;
    proof {
        lemma_cell_in_range(w, h, p);
        lemma_cells_in_range(w, h);
        lemma_single_walk(m, w, h, p);
    }
    let index = y * width + x;
    visited.set(index, true);
    let mut queue: Vec<(usize, usize)> = Vec::new();
    queue.push((x, y));
    proof {
        let s = pixels(queue@);
        assert(s[0] == p);
        assert(!earlier_group(m, w, h, p, p));
        assert forall|t: (int, int)| #[trigger] is_set(m, w, h, t) implies (marked(visited@, w, t) <==> earlier_group(
            m,
            w,
            h,
            p,
            t,
        ) || s.contains(t)) by {
            if t != p {
                if cell(w, t) == cell(w, p) {
                    lemma_cell_injective(w, h, t, p);
                }
                if s.contains(t) {
                    assert(s[0] == t);
                }
            } else {
                assert(s.contains(p));
            }
        }
        assert(explore_inv(m, visited@, queue@, w, h, p));
    }
    let mut head: usize = 0;
    let mut min_x = x;
    let mut min_y = y;
    let mut max_x = x;
    let mut max_y = y;
    let ghost mut at_min_x: int = 0;
    let ghost mut at_min_y: int = 0;
    let ghost mut at_max_x: int = 0;
    let ghost mut at_max_y: int = 0;
    while head < queue.len()
        invariant
            m == mask@,
            mask.len() == width * height,
            visited.len() == width * height,
            w == width as int,
            h == height as int,
            p == (x as int, y as int),
            x < width,
            y < height,
            head <= queue.len(),
            explore_inv(m, visited@, queue@, w, h, p),
            closed_upto(visited@, queue@, w, h, head as int),
            !earlier_group(m, w, h, p, p),
            forall|k: int|
                0 <= k < head ==> min_x <= #[trigger] queue@[k].0 <= max_x && min_y <= queue@[k].1 <= max_y,
            0 <= at_min_x <= head && at_min_x < queue.len() && queue@[at_min_x].0 == min_x,
            0 <= at_min_y <= head && at_min_y < queue.len() && queue@[at_min_y].1 == min_y,
            0 <= at_max_x <= head && at_max_x < queue.len() && queue@[at_max_x].0 == max_x,
            0 <= at_max_y <= head && at_max_y < queue.len() && queue@[at_max_y].1 == max_y,
        decreases unmarked(visited@) + (queue.len() - head),
    {
        let (cx, cy) = queue[head];
        let ghost c = (cx as int, cy as int);
        let ghost hk = head as int;
        proof {
            assert(pixels(queue@)[hk] == c);
        }
        if cx < min_x {
            min_x = cx;
            proof {
                at_min_x = hk;
            }
        }
        if cy < min_y {
            min_y = cy;
            proof {
                at_min_y = hk;
            }
        }
        if cx > max_x {
            max_x = cx;
            proof {
                at_max_x = hk;
            }
        }
        if cy > max_y {
            max_y = cy;
            proof {
                at_max_y = hk;
            }
        }
        let ghost v0 = visited@;
        let ghost q0 = queue@;
        visit_neighbours(mask, visited, &mut queue, width, height, cx, cy, Ghost(p));
        proof {
            let v4 = visited@;
            let q4 = queue@;
            assert forall|k: int, n: (int, int)|
                0 <= k < hk + 1 && in_map(w, h, n) && #[trigger] touching(pixels(q4)[k], n) implies marked(
                v4,
                w,
                n,
            ) by {
                assert(pixels(q4)[k] == pixels(q0)[k]);
                if k < hk {
                    assert(touching(pixels(q0)[k], n));
                    assert(marked(v0, w, n));
                }
            }
            assert forall|k: int| 0 <= k < hk + 1 implies min_x <= #[trigger] q4[k].0 <= max_x && min_y
                <= q4[k].1 <= max_y by {
                assert(q4[k] == q0[k]);
            }
            assert(q4[at_min_x] == q0[at_min_x]);
            assert(q4[at_min_y] == q0[at_min_y]);
            assert(q4[at_max_x] == q0[at_max_x]);
            assert(q4[at_max_y] == q0[at_max_y]);
        }
        head = head + 1;
    }
    proof {
        let s = pixels(queue@);
        let g = group(m, w, h, p);
        assert forall|t: (int, int)| g.contains(t) <==> s.to_set().contains(t) by {
            if connected(m, w, h, p, t) {
                let walk = choose|walk: Seq<(int, int)>| #[trigger] is_walk(m, w, h, walk) && walk[0] == p && walk.last()
                    == t;
                lemma_walk_queued(m, visited@, queue@, w, h, p, walk, walk.len() - 1);
            }
            if s.contains(t) {
                let k = choose|k: int| 0 <= k < s.len() && s[k] == t;
                assert(connected(m, w, h, p, s[k]));
            }
        }
        assert(g =~= s.to_set());
        s.unique_seq_to_set();
        assert forall|t: (int, int)| #[trigger] is_set(m, w, h, t) implies (marked(visited@, w, t) <==> earlier_group(
            m,
            w,
            h,
            p,
            t,
        ) || connected(m, w, h, p, t)) by {
            assert(g.contains(t) == s.contains(t));
        }
        assert forall|t: (int, int)| g.contains(t) implies min_x <= t.0 <= max_x && min_y <= t.1 <= max_y by {
            assert(s.contains(t));
            let k = choose|k: int| 0 <= k < s.len() && s[k] == t;
            assert(queue@[k].0 == s[k].0);
        }
        assert(g.contains(s[at_min_x]) && s[at_min_x].0 == min_x);
        assert(g.contains(s[at_min_y]) && s[at_min_y].1 == min_y);
        assert(g.contains(s[at_max_x]) && s[at_max_x].0 == max_x);
        assert(g.contains(s[at_max_y]) && s[at_max_y].1 == max_y);
    }
    (queue.len(), min_x, min_y, max_x, max_y)
}

// ---------------------------------------------------------------------------
// Scanning the map
// ---------------------------------------------------------------------------

/// A set has one least column, and so on: the bounds named by the choices
/// are the ones found.
proof fn lemma_bounds_named(s: Set<(int, int)>, a: int, b: int, c: int, d: int)
    requires
        is_left(s, a),
        is_top(s, b),
        is_right(s, c),
        is_bottom(s, d),
    ensures
        left_of(s) == a,
        top_of(s) == b,
        right_of(s) == c,
        bottom_of(s) == d,
{
    let l = left_of(s);
    let ql = choose|q: (int, int)| s.contains(q) && q.0 == l;
    let qa = choose|q: (int, int)| s.contains(q) && q.0 == a;
    assert(l <= qa.0 && a <= ql.0);
    let t = top_of(s);
    let qt = choose|q: (int, int)| s.contains(q) && q.1 == t;
    let qb = choose|q: (int, int)| s.contains(q) && q.1 == b;
    assert(t <= qb.1 && b <= qt.1);
    let r = right_of(s);
    let qr = choose|q: (int, int)| s.contains(q) && q.0 == r;
    let qc = choose|q: (int, int)| s.contains(q) && q.0 == c;
    assert(qc.0 <= r && qr.0 <= c);
    let o = bottom_of(s);
    let qo = choose|q: (int, int)| s.contains(q) && q.1 == o;
    let qd = choose|q: (int, int)| s.contains(q) && q.1 == d;
    assert(qd.1 <= o && qo.1 <= d);
}

/// A walk starts on a set pixel.
proof fn lemma_connected_from_set(mask: Seq<bool>, w: int, h: int, p: (int, int), t: (int, int))
    requires
        connected(mask, w, h, p, t),
    ensures
        is_set(mask, w, h, p),
{
    let walk = choose|walk: Seq<(int, int)>| #[trigger] is_walk(mask, w, h, walk) && walk[0] == p && walk.last() == t;
    assert(is_set(mask, w, h, walk[0]));
}

/// Moving one pixel on in a row adds the group of the pixel left behind to
/// the earlier groups.
proof fn lemma_next_earlier(mask: Seq<bool>, w: int, h: int, x: int, y: int, t: (int, int))
    ensures
        earlier_group(mask, w, h, (x + 1, y), t) == (earlier_group(mask, w, h, (x, y), t) || connected(
            mask,
            w,
            h,
            (x, y),
            t,
        )),
{
    if earlier_group(mask, w, h, (x + 1, y), t) {
        let q = choose|q: (int, int)| before(q, (x + 1, y)) && #[trigger] connected(mask, w, h, q, t);
        if q != (x, y) {
            assert(before(q, (x, y)));
        }
    }
    if earlier_group(mask, w, h, (x, y), t) {
        let q = choose|q: (int, int)| before(q, (x, y)) && #[trigger] connected(mask, w, h, q, t);
        assert(before(q, (x + 1, y)));
    }
    if connected(mask, w, h, (x, y), t) {
        assert(before((x, y), (x + 1, y)));
    }
}

/// The end of a row and the start of the next have the same earlier groups.
proof fn lemma_row_end(mask: Seq<bool>, w: int, h: int, y: int, t: (int, int))
    ensures
        earlier_group(mask, w, h, (w, y), t) == earlier_group(mask, w, h, (0, y + 1), t),
{
    if earlier_group(mask, w, h, (0, y + 1), t) {
        let q = choose|q: (int, int)| before(q, (0, y + 1)) && #[trigger] connected(mask, w, h, q, t);
        lemma_connected_from_set(mask, w, h, q, t);
        assert(before(q, (w, y)));
    }
    if earlier_group(mask, w, h, (w, y), t) {
        let q = choose|q: (int, int)| before(q, (w, y)) && #[trigger] connected(mask, w, h, q, t);
        assert(before(q, (0, y + 1)));
    }
}

/// A set pixel of an earlier group is no group's first pixel, and the
/// groups it reaches are earlier groups.
proof fn lemma_earlier_pixel(mask: Seq<bool>, w: int, h: int, p: (int, int))
    requires
        earlier_group(mask, w, h, p, p),
    ensures
        !is_first(mask, w, h, p),
        forall|t: (int, int)| #[trigger]
            connected(mask, w, h, p, t) ==> earlier_group(mask, w, h, p, t),
{
    let q = choose|q: (int, int)| before(q, p) && #[trigger] connected(mask, w, h, q, p);
    lemma_reverse_walk(mask, w, h, q, p);
    assert forall|t: (int, int)| #[trigger] connected(mask, w, h, p, t) implies earlier_group(mask, w, h, p, t) by {
        lemma_join_walks(mask, w, h, q, p, t);
    }
}

/// A set pixel of no earlier group is the first pixel of its group.
proof fn lemma_first_pixel(mask: Seq<bool>, w: int, h: int, p: (int, int))
    requires
        is_set(mask, w, h, p),
        !earlier_group(mask, w, h, p, p),
    ensures
        is_first(mask, w, h, p),
{
    assert forall|q: (int, int)| #[trigger] connected(mask, w, h, p, q) implies !before(q, p) by {
        lemma_reverse_walk(mask, w, h, p, q);
    }
}

/// The text areas of a row-major mask of `width * height` pixels: the
/// bounding box of every group of 4-connected set pixels with at least 20
/// pixels that is at least 3 pixels wide and high, in the raster order of
/// the groups' first pixels. A mask of another length has none.
pub fn mask_regions(mask: &Vec<bool>, width: usize, height: usize) -> (regions: Vec<Region>)
    ensures
        mask@.len() != width * height ==> regions@ == Seq::<Region>::empty(),
        mask@.len() == width * height ==> regions@ == text_boxes(mask@, width as int, height as int),
{
    let mut regions: Vec<Region> = Vec::new();
    match width.checked_mul(height) {
        Some(cells) => {
            if mask.len() != cells {
                return regions;
            }
        },
        None => {
            assert(mask@.len() == mask.len());
            return regions;
        },
    }
    let ghost w = width as int;
    let ghost h = height as int;
    let ghost m = mask@;
    let mut visited: Vec<bool> = vec![false; mask.len()];
    proof {
        lemma_cells_in_range(w, h);
        assert forall|t: (int, int)| #[trigger] is_set(m, w, h, t) implies (marked(visited@, w, t)
            <==> earlier_group(m, w, h, (0, 0), t)) by {
            assert(!visited@[cell(w, t)]);
            if earlier_group(m, w, h, (0, 0), t) {
                let q = choose|q: (int, int)| before(q, (0, 0)) && #[trigger] connected(m, w, h, q, t);
                lemma_connected_from_set(m, w, h, q, t);
            }
        }
    }
    let mut y: usize = 0;
    while y < height
        invariant
            m == mask@,
            w == width as int,
            h == height as int,
            mask.len() == width * height,
            visited.len() == width * height,
            y <= height,
            regions@ == reported_rows(m, w, h, y as int),
            forall|t: (int, int)| #[trigger]
                is_set(m, w, h, t) ==> (marked(visited@, w, t) <==> earlier_group(m, w, h, (0, y as int), t)),
        decreases height - y,
    {
        let mut x: usize = 0;
        while x < width
            invariant
                m == mask@,
                w == width as int,
                h == height as int,
                mask.len() == width * height,
                visited.len() == width * height,
                y < height,
                x <= width,
                regions@ == reported_rows(m, w, h, y as int) + reported_in_row(m, w, h, y as int, x as int),
                forall|t: (int, int)| #[trigger]
                    is_set(m, w, h, t) ==> (marked(visited@, w, t) <==> earlier_group(
                        m,
                        w,
                        h,
                        (x as int, y as int),
                        t,
                    )),
            decreases width - x,
        {
            let ghost p = (x as int, y as int);
            let ghost before_regions = regions@;
            proof {
                lemma_cell_in_range(w, h, p);
                lemma_cells_in_range(w, h);
            }
            let index = y * width + x;
            if visited[index] {
                proof {
                    if is_set(m, w, h, p) {
                        lemma_earlier_pixel(m, w, h, p);
                    }
                    assert forall|t: (int, int)| #[trigger] is_set(m, w, h, t) implies (marked(visited@, w, t)
                        <==> earlier_group(m, w, h, (x + 1, y as int), t)) by {
                        lemma_next_earlier(m, w, h, x as int, y as int, t);
                        if connected(m, w, h, p, t) {
                            lemma_connected_from_set(m, w, h, p, t);
                        }
                    }
                    assert(reported_at(m, w, h, p) == Seq::<Region>::empty());
                }
            } else if !mask[index] {
                visited.set(index, true);
                proof {
                    assert forall|t: (int, int)| #[trigger] is_set(m, w, h, t) implies (marked(visited@, w, t)
                        <==> earlier_group(m, w, h, (x + 1, y as int), t)) by {
                        lemma_next_earlier(m, w, h, x as int, y as int, t);
                        if connected(m, w, h, p, t) {
                            lemma_connected_from_set(m, w, h, p, t);
                        }
                        if cell(w, t) == cell(w, p) {
                            lemma_cell_injective(w, h, t, p);
                        }
                    }
                    assert(reported_at(m, w, h, p) == Seq::<Region>::empty());
                }
            } else {
                let ghost g = group(m, w, h, p);
                let (count, left, top, right, bottom) = explore(mask, &mut visited, width, height, x, y);
                proof {
                    lemma_first_pixel(m, w, h, p);
                    lemma_bounds_named(g, left as int, top as int, right as int, bottom as int);
                    let q = choose|q: (int, int)| g.contains(q) && q.0 == left;
                    assert(left <= q.0 <= right);
                    let q = choose|q: (int, int)| g.contains(q) && q.1 == top;
                    assert(top <= q.1 <= bottom);
                    assert forall|t: (int, int)| #[trigger] is_set(m, w, h, t) implies (marked(visited@, w, t)
                        <==> earlier_group(m, w, h, (x + 1, y as int), t)) by {
                        lemma_next_earlier(m, w, h, x as int, y as int, t);
                    }
                }
                let region_width = right - left + 1;
                let region_height = bottom - top + 1;
                if count >= 20 && region_width >= 3 && region_height >= 3 {
                    regions.push(Region::new(left as i32, top as i32, region_width as u32, region_height as u32));
                    proof {
                        assert(reported_at(m, w, h, p) == seq![box_of(g)]);
                    }
                } else {
                    proof {
                        assert(reported_at(m, w, h, p) == Seq::<Region>::empty());
                    }
                }
            }
            proof {
                assert(reported_in_row(m, w, h, y as int, x + 1) == reported_in_row(m, w, h, y as int, x as int)
                    + reported_at(m, w, h, p));
                assert(regions@ == before_regions + reported_at(m, w, h, p));
            }
            x = x + 1;
        }
        proof {
            assert forall|t: (int, int)| #[trigger] is_set(m, w, h, t) implies (marked(visited@, w, t)
                <==> earlier_group(m, w, h, (0, y + 1), t)) by {
                lemma_row_end(m, w, h, y as int, t);
            }
            assert(reported_rows(m, w, h, y + 1) == reported_rows(m, w, h, y as int) + reported_in_row(
                m,
                w,
                h,
                y as int,
                w,
            ));
        }
        y = y + 1;
    }
    regions
}

} // verus!
