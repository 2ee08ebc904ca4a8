//! Tracing of bitmap images into outlines: the foreground pixels' boundary
//! as directed unit edges on the pixel grid, and their chaining into closed
//! loops. Smoothing and simplifying the loops works on measured coordinates
//! and is the caller's.

use vstd::prelude::*;

use crate::dither::{dimensions_fit, fits};

verus! {

/// A grid corner (column, row).
pub type Corner = (usize, usize);

/// A directed unit edge between two grid corners.
pub type Edge = (Corner, Corner);

/// Is pixel (`x`, `y`) foreground: inside the image and darker than the
/// threshold (lighter when inverted)? Outside the image is background, so
/// that the image border closes the outlines.
#[verifier::opaque]
pub open spec fn fg(px: Seq<u8>, w: int, h: int, threshold: u8, invert: bool, x: int, y: int) -> bool {
    0 <= x < w && 0 <= y < h && ((px[y * w + x] < threshold) != invert)
}

/// The boundary edges of pixel (`x`, `y`), with the foreground on their left
/// (outer outlines run counter-clockwise on screen, holes clockwise): above
/// it to the right, below it to the left, left of it upwards, right of it
/// downwards — each only where the neighbour on that side is background.
pub open spec fn pixel_edges(
    px: Seq<u8>,
    w: int,
    h: int,
    t: u8,
    inv: bool,
    x: int,
    y: int,
) -> Seq<Edge> {
    if !fg(px, w, h, t, inv, x, y) {
        Seq::empty()
    } else {
        let xu = x as usize;
        let yu = y as usize;
        let x1 = (x + 1) as usize;
        let y1 = (y + 1) as usize;
        (if !fg(px, w, h, t, inv, x, y - 1) {
            seq![((xu, yu), (x1, yu))]
        } else {
            Seq::empty()
        }) + (if !fg(px, w, h, t, inv, x, y + 1) {
            seq![((x1, y1), (xu, y1))]
        } else {
            Seq::empty()
        }) + (if !fg(px, w, h, t, inv, x - 1, y) {
            seq![((xu, y1), (xu, yu))]
        } else {
            Seq::empty()
        }) + (if !fg(px, w, h, t, inv, x + 1, y) {
            seq![((x1, yu), (x1, y1))]
        } else {
            Seq::empty()
        })
    }
}

/// The boundary edges of the first `n` pixels of row `y`, left to right.
pub open spec fn row_edges(px: Seq<u8>, w: int, h: int, t: u8, inv: bool, y: int, n: nat) -> Seq<
    Edge,
>
    decreases n,
{
    if n == 0 {
        Seq::empty()
    } else {
        row_edges(px, w, h, t, inv, y, (n - 1) as nat) + pixel_edges(px, w, h, t, inv, n - 1, y)
    }
}

/// The boundary edges of the first `n` rows, top to bottom.
pub open spec fn grid_edges(px: Seq<u8>, w: int, h: int, t: u8, inv: bool, n: nat) -> Seq<Edge>
    decreases n,
{
    if n == 0 {
        Seq::empty()
    } else {
        grid_edges(px, w, h, t, inv, (n - 1) as nat) + row_edges(px, w, h, t, inv, n - 1, w as nat)
    }
}

fn is_fg(px: &[u8], w: usize, h: usize, threshold: u8, invert: bool, x: usize, y: usize) -> (r: bool)
    requires
        px@.len() == w * h,
        x < w,
        y < h,
    ensures
        r == fg(px@, w as int, h as int, threshold, invert, x as int, y as int),
{
    proof {
        lemma_index_in_image(w as int, h as int, x as int, y as int);
        reveal(fg);
    }
    assert(px@.len() == px.len());
    (px[y * w + x] < threshold) != invert
}

proof fn lemma_index_in_image(w: int, h: int, x: int, y: int)
    requires
        0 <= x < w,
        0 <= y < h,
    ensures
        0 <= y * w + x < w * h,
{
    assert(y * w + x < w * h) by (nonlinear_arith)
        requires
            0 <= x < w,
            0 <= y < h,
    ;
    assert(0 <= y * w) by (nonlinear_arith)
        requires
            0 <= y,
            0 <= w,
    ;
}

fn push_pixel_edges(
    edges: &mut Vec<Edge>,
    px: &[u8],
    w: usize,
    h: usize,
    threshold: u8,
    invert: bool,
    x: usize,
    y: usize,
)
    requires
        px@.len() == w * h,
        x < w < usize::MAX,
        y < h < usize::MAX,
    ensures
        final(edges)@ == old(edges)@ + pixel_edges(
            px@,
            w as int,
            h as int,
            threshold,
            invert,
            x as int,
            y as int,
        ),
{
    let ghost (wi, hi, xi, yi) = (w as int, h as int, x as int, y as int);
    if !is_fg(px, w, h, threshold, invert, x, y) {
        assert(edges@ =~= old(edges)@ + pixel_edges(px@, wi, hi, threshold, invert, xi, yi));
        return;
    }
    let up = y > 0 && is_fg(px, w, h, threshold, invert, x, y - 1);
    let down = y + 1 < h && is_fg(px, w, h, threshold, invert, x, y + 1);
    let left = x > 0 && is_fg(px, w, h, threshold, invert, x - 1, y);
    let right = x + 1 < w && is_fg(px, w, h, threshold, invert, x + 1, y);
    assert(up == fg(px@, wi, hi, threshold, invert, xi, yi - 1)) by {
        reveal(fg);
    }
    assert(down == fg(px@, wi, hi, threshold, invert, xi, yi + 1)) by {
        reveal(fg);
    }
    assert(left == fg(px@, wi, hi, threshold, invert, xi - 1, yi)) by {
        reveal(fg);
    }
    assert(right == fg(px@, wi, hi, threshold, invert, xi + 1, yi)) by {
        reveal(fg);
    }
    let ghost e0 = edges@;
    if !up {
        edges.push(((x, y), (x + 1, y)));
    }
    let ghost e1 = edges@;
    if !down {
        edges.push(((x + 1, y + 1), (x, y + 1)));
    }
    let ghost e2 = edges@;
    if !left {
        edges.push(((x, y + 1), (x, y)));
    }
    let ghost e3 = edges@;
    if !right {
        edges.push(((x + 1, y), (x + 1, y + 1)));
    }
    let ghost s1: Seq<Edge> = if !up {
        seq![((x, y), ((x + 1) as usize, y))]
    } else {
        Seq::empty()
    };
    let ghost s2: Seq<Edge> = if !down {
        seq![(((x + 1) as usize, (y + 1) as usize), (x, (y + 1) as usize))]
    } else {
        Seq::empty()
    };
    let ghost s3: Seq<Edge> = if !left {
        seq![((x, (y + 1) as usize), (x, y))]
    } else {
        Seq::empty()
    };
    let ghost s4: Seq<Edge> = if !right {
        seq![(((x + 1) as usize, y), ((x + 1) as usize, (y + 1) as usize))]
    } else {
        Seq::empty()
    };
    assert(e1 =~= e0 + s1);
    assert(e2 =~= e1 + s2);
    assert(e3 =~= e2 + s3);
    assert(edges@ =~= e3 + s4);
    assert(pixel_edges(px@, wi, hi, threshold, invert, xi, yi) =~= s1 + s2 + s3 + s4);
    assert(edges@ =~= old(edges)@ + (s1 + s2 + s3 + s4));
}

/// All boundary edges of the foreground of a `w` × `h` image, pixel by pixel
/// in row-major order.
pub fn boundary_edges(px: &[u8], w: usize, h: usize, threshold: u8, invert: bool) -> (edges: Vec<
    Edge,
>)
    requires
        px@.len() == w * h,
        w < usize::MAX,
        h < usize::MAX,
    ensures
        edges@ == grid_edges(px@, w as int, h as int, threshold, invert, h as nat),
{
    let mut edges: Vec<Edge> = Vec::new();
    let mut y: usize = 0;
    while y < h
        invariant
            y <= h < usize::MAX,
            w < usize::MAX,
            px@.len() == w * h,
            edges@ == grid_edges(px@, w as int, h as int, threshold, invert, y as nat),
        decreases h - y,
    {
        let ghost before = edges@;
        let mut x: usize = 0;
        while x < w
            invariant
                x <= w < usize::MAX,
                y < h < usize::MAX,
                px@.len() == w * h,
                edges@ == before + row_edges(px@, w as int, h as int, threshold, invert, y as int, x as nat),
            decreases w - x,
        {
            let ghost prev = edges@;
            push_pixel_edges(&mut edges, px, w, h, threshold, invert, x, y);
            assert(before + row_edges(px@, w as int, h as int, threshold, invert, y as int, (x + 1) as nat)
                =~= prev + pixel_edges(px@, w as int, h as int, threshold, invert, x as int, y as int));
            x = x + 1;
        }
        y = y + 1;
    }
    edges
}

/// The pixel on the left of a unit edge (seen along its direction, with rows
/// growing downwards) and the one on its right.
pub open spec fn sides(e: Edge) -> ((int, int), (int, int)) {
    let (a, b) = e;
    let (ax, ay) = (a.0 as int, a.1 as int);
    let (bx, by) = (b.0 as int, b.1 as int);
    if bx == ax + 1 && by == ay {
        ((ax, ay), (ax, ay - 1))
    } else if bx + 1 == ax && by == ay {
        ((bx, by - 1), (bx, by))
    } else if by + 1 == ay && bx == ax {
        ((bx, by), (bx - 1, by))
    } else {
        ((ax - 1, ay), (ax, ay))
    }
}

/// A unit step between neighbouring grid corners.
pub open spec fn is_unit(e: Edge) -> bool {
    let (a, b) = e;
    (b.0 == a.0 + 1 && b.1 == a.1) || (b.0 + 1 == a.0 && b.1 == a.1) || (b.1 + 1 == a.1 && b.0
        == a.0) || (b.1 == a.1 + 1 && b.0 == a.0)
}

/// The edge is a unit step with a foreground pixel on its left and a
/// background pixel on its right.
pub open spec fn separates(px: Seq<u8>, w: int, h: int, t: u8, inv: bool, e: Edge) -> bool {
    let (l, r) = sides(e);
    is_unit(e) && fg(px, w, h, t, inv, l.0, l.1) && !fg(px, w, h, t, inv, r.0, r.1)
}

proof fn pixel_edges_separate(px: Seq<u8>, w: int, h: int, t: u8, inv: bool, x: int, y: int)
    requires
        0 <= x,
        0 <= y,
        x + 1 <= usize::MAX,
        y + 1 <= usize::MAX,
    ensures
        forall|k: int|
            0 <= k < pixel_edges(px, w, h, t, inv, x, y).len() ==> separates(
                px,
                w,
                h,
                t,
                inv,
                #[trigger] pixel_edges(px, w, h, t, inv, x, y)[k],
            ),
{
}

proof fn row_edges_separate(px: Seq<u8>, w: int, h: int, t: u8, inv: bool, y: int, n: nat)
    requires
        0 <= y,
        n <= usize::MAX,
        y + 1 <= usize::MAX,
    ensures
        forall|k: int|
            0 <= k < row_edges(px, w, h, t, inv, y, n).len() ==> separates(
                px,
                w,
                h,
                t,
                inv,
                #[trigger] row_edges(px, w, h, t, inv, y, n)[k],
            ),
    decreases n,
{
    if n > 0 {
        row_edges_separate(px, w, h, t, inv, y, (n - 1) as nat);
        pixel_edges_separate(px, w, h, t, inv, n - 1, y);
        let a = row_edges(px, w, h, t, inv, y, (n - 1) as nat);
        let b = pixel_edges(px, w, h, t, inv, n - 1, y);
        assert forall|k: int| 0 <= k < (a + b).len() implies separates(
            px,
            w,
            h,
            t,
            inv,
            #[trigger] (a + b)[k],
        ) by {
            if k < a.len() {
                assert((a + b)[k] == a[k]);
            } else {
                assert((a + b)[k] == b[k - a.len()]);
            }
        }
    }
}

/// Every traced edge runs between a foreground pixel on its left and a
/// background pixel on its right.
pub proof fn boundary_edges_separate(px: Seq<u8>, w: int, h: int, t: u8, inv: bool, n: nat)
    requires
        0 <= w < usize::MAX,
        n < usize::MAX,
    ensures
        forall|k: int|
            0 <= k < grid_edges(px, w, h, t, inv, n).len() ==> separates(
                px,
                w,
                h,
                t,
                inv,
                #[trigger] grid_edges(px, w, h, t, inv, n)[k],
            ),
    decreases n,
{
    if n > 0 {
        boundary_edges_separate(px, w, h, t, inv, (n - 1) as nat);
        row_edges_separate(px, w, h, t, inv, n - 1, w as nat);
        let a = grid_edges(px, w, h, t, inv, (n - 1) as nat);
        let b = row_edges(px, w, h, t, inv, n - 1, w as nat);
        assert forall|k: int| 0 <= k < (a + b).len() implies separates(
            px,
            w,
            h,
            t,
            inv,
            #[trigger] (a + b)[k],
        ) by {
            if k < a.len() {
                assert((a + b)[k] == a[k]);
            } else {
                assert((a + b)[k] == b[k - a.len()]);
            }
        }
    }
}

fn unit_mul(a: i8, b: i8) -> (r: i8)
    requires
        -1 <= a <= 1,
        -1 <= b <= 1,
    ensures
        r == a * b,
        -1 <= r <= 1,
{
    if a == 0 || b == 0 {
        assert(a * b == 0) by (nonlinear_arith)
            requires
                a == 0 || b == 0,
        ;
        0
    } else if a == b {
        assert(a * b == 1) by (nonlinear_arith)
            requires
                a == b,
                a == 1 || a == -1,
        ;
        1
    } else {
        assert(a * b == -1) by (nonlinear_arith)
            requires
                a == -b,
                a == 1 || a == -1,
        ;
        -1
    }
}

fn same_corner(a: Corner, b: Corner) -> (r: bool)
    ensures
        r == (a == b),
{
    a.0 == b.0 && a.1 == b.1
}

/// The sign of the step from `a` to `b`: 1 forwards, -1 backwards, 0 none.
pub open spec fn sign_step(a: usize, b: usize) -> i8 {
    if b > a {
        1i8
    } else if b < a {
        -1i8
    } else {
        0i8
    }
}

/// The direction of the step from corner `a` to corner `b` as (dx, dy).
pub open spec fn step_dir(a: Corner, b: Corner) -> (i8, i8) {
    (sign_step(a.0, b.0), sign_step(a.1, b.1))
}

/// Direction of a unit edge as (dx, dy), each -1, 0 or 1.
fn direction(a: Corner, b: Corner) -> (d: (i8, i8))
    ensures
        d == step_dir(a, b),
        -1 <= d.0 <= 1,
        -1 <= d.1 <= 1,
{
    let dx: i8 = if b.0 > a.0 {
        1
    } else if b.0 < a.0 {
        -1
    } else {
        0
    };
    let dy: i8 = if b.1 > a.1 {
        1
    } else if b.1 < a.1 {
        -1
    } else {
        0
    };
    (dx, dy)
}

/// Number of edges not used yet.
pub open spec fn count_unused(used: Seq<bool>) -> nat
    decreases used.len(),
{
    if used.len() == 0 {
        0
    } else {
        count_unused(used.drop_last()) + if used.last() {
            0nat
        } else {
            1nat
        }
    }
}

/// Marking an unused edge used lowers the number of unused edges by one.
pub proof fn lemma_count_use(used: Seq<bool>, i: int)
    requires
        0 <= i < used.len(),
        !used[i],
    ensures
        count_unused(used.update(i, true)) + 1 == count_unused(used),
    decreases used.len(),
{
    let u = used.update(i, true);
    if i < used.len() - 1 {
        lemma_count_use(used.drop_last(), i);
        assert(u.drop_last() =~= used.drop_last().update(i, true));
    } else {
        assert(u.drop_last() =~= used.drop_last());
    }
}

/// `(a, b)` is one of the edges.
pub open spec fn has_edge(edges: Seq<Edge>, a: Corner, b: Corner) -> bool {
    exists|i: int| 0 <= i < edges.len() && #[trigger] edges[i] == (a, b)
}

/// How far edge `e` turns to the left of the incoming direction `dir`
/// (the cross product of the two directions, rows growing downwards).
pub open spec fn turn(dir: (i8, i8), e: Edge) -> int {
    let d = step_dir(e.0, e.1);
    dir.0 * d.1 - dir.1 * d.0
}

/// Edge `k` is unused and leaves corner `cur`.
pub open spec fn candidate(edges: Seq<Edge>, used: Seq<bool>, cur: Corner, k: int) -> bool {
    &&& 0 <= k < edges.len()
    &&& k < used.len()
    &&& !used[k]
    &&& edges[k].0 == cur
}

/// Edge `b` is the one taken at `cur`: among the unused edges leaving `cur`
/// the first that turns most to the left of `dir`.
pub open spec fn is_choice(edges: Seq<Edge>, used: Seq<bool>, cur: Corner, dir: (i8, i8), b: int) -> bool {
    &&& candidate(edges, used, cur, b)
    &&& forall|k: int| #[trigger] candidate(edges, used, cur, k) ==> turn(dir, edges[k]) <= turn(dir, edges[b])
    &&& forall|k: int| #[trigger] candidate(edges, used, cur, k) && k < b ==> turn(dir, edges[k]) < turn(dir, edges[b])
}

proof fn lemma_choice_unique(edges: Seq<Edge>, used: Seq<bool>, cur: Corner, dir: (i8, i8), a: int, b: int)
    requires
        is_choice(edges, used, cur, dir, a),
        is_choice(edges, used, cur, dir, b),
    ensures
        a == b,
{
    assert(candidate(edges, used, cur, a) && candidate(edges, used, cur, b));
}

/// Following a chain from corner `cur` (reached in direction `dir`, with the
/// corners `pts` behind it) until it returns to `start` or no unused edge
/// leaves it: the edges used then, the corners of the chain, and whether it
/// closed.
pub open spec fn follow(
    edges: Seq<Edge>,
    used: Seq<bool>,
    start: Corner,
    cur: Corner,
    dir: (i8, i8),
    pts: Seq<Corner>,
) -> (Seq<bool>, Seq<Corner>, bool)
    decreases count_unused(used),
{
    if cur == start {
        (used, pts, true)
    } else if exists|b: int| is_choice(edges, used, cur, dir, b) {
        let b = choose|b: int| is_choice(edges, used, cur, dir, b);
        proof {
            lemma_count_use(used, b);
        }
        follow(
            edges,
            used.update(b, true),
            start,
            edges[b].1,
            step_dir(cur, edges[b].1),
            pts.push(cur),
        )
    } else {
        (used, pts.push(cur), false)
    }
}

/// The loops found from edge `s` on, given the edges used so far and the
/// loops found before: each unused edge starts a chain along its direction;
/// a chain that closes with at least four corners is a loop.
pub open spec fn chain_from(edges: Seq<Edge>, used: Seq<bool>, s: nat, loops: Seq<Seq<Corner>>) -> Seq<
    Seq<Corner>,
>
    decreases edges.len() - s,
{
    if s >= edges.len() || used.len() != edges.len() {
        loops
    } else if used[s as int] {
        chain_from(edges, used, s + 1, loops)
    } else {
        let start = edges[s as int].0;
        let first = edges[s as int].1;
        let r = follow(edges, used.update(s as int, true), start, first, step_dir(start, first), seq![start]);
        chain_from(
            edges,
            r.0,
            s + 1,
            if r.2 && r.1.len() >= 4 {
                loops.push(r.1)
            } else {
                loops
            },
        )
    }
}

/// The outline loops of a list of boundary edges, by their corners.
pub open spec fn traced_loops(edges: Seq<Edge>) -> Seq<Seq<Corner>> {
    chain_from(edges, Seq::new(edges.len(), |i: int| false), 0, Seq::empty())
}

/// The corners of each loop.
pub open spec fn corner_loops(loops: Seq<Vec<Corner>>) -> Seq<Seq<Corner>> {
    loops.map_values(|v: Vec<Corner>| v@)
}

/// Takes the unused edge leaving `cur` that turns most to the left of the
/// incoming direction (the first such one), marks it used and returns its
/// end. At a corner where two regions touch diagonally this keeps the loop
/// at its own region.
fn take_next(edges: &Vec<Edge>, used: &mut Vec<bool>, cur: Corner, dir_in: (i8, i8)) -> (r: Option<
    Corner,
>)
    requires
        old(used)@.len() == edges@.len(),
        -1 <= dir_in.0 <= 1,
        -1 <= dir_in.1 <= 1,
    ensures
        final(used)@.len() == edges@.len(),
        match r {
            None => final(used)@ == old(used)@ && forall|i: int|
                !#[trigger] candidate(edges@, old(used)@, cur, i),
            Some(next) => exists|i: int|
                is_choice(edges@, old(used)@, cur, dir_in, i) && #[trigger] edges@[i] == (cur, next)
                    && final(used)@ == old(used)@.update(i, true),
        },
{
    let mut best: Option<usize> = None;
    let mut best_cross: i8 = 0;
    let mut i: usize = 0;
    while i < edges.len()
        invariant
            i <= edges@.len() == used@.len(),
            used@ == old(used)@,
            -1 <= dir_in.0 <= 1,
            -1 <= dir_in.1 <= 1,
            match best {
                None => forall|k: int| 0 <= k < i ==> !#[trigger] candidate(edges@, used@, cur, k),
                Some(b) => {
                    &&& b < i
                    &&& candidate(edges@, used@, cur, b as int)
                    &&& best_cross == turn(dir_in, edges@[b as int])
                    &&& forall|k: int|
                        0 <= k < i && #[trigger] candidate(edges@, used@, cur, k) ==> turn(dir_in, edges@[k])
                            <= best_cross
                    &&& forall|k: int|
                        0 <= k < b && #[trigger] candidate(edges@, used@, cur, k) ==> turn(dir_in, edges@[k])
                            < best_cross
                },
            },
        decreases edges.len() - i,
    {
        if !used[i] && same_corner(edges[i].0, cur) {
            let d = direction(cur, edges[i].1);
            let cross: i8 = unit_mul(dir_in.0, d.1) - unit_mul(dir_in.1, d.0);
            assert(cross == turn(dir_in, edges@[i as int]));
            match best {
                None => {
                    best = Some(i);
                    best_cross = cross;
                },
                Some(_) => {
                    if cross > best_cross {
                        best = Some(i);
                        best_cross = cross;
                    }
                },
            }
        }
        i = i + 1;
    }
    match best {
        None => {
            assert forall|k: int| !#[trigger] candidate(edges@, old(used)@, cur, k) by {
                if candidate(edges@, old(used)@, cur, k) {
                    assert(0 <= k < i);
                }
            }
            None
        },
        Some(b) => {
            used.set(b, true);
            let next = edges[b].1;
            assert(edges@[b as int] == (cur, next));
            assert(is_choice(edges@, old(used)@, cur, dir_in, b as int)) by {
                assert forall|k: int| #[trigger] candidate(edges@, old(used)@, cur, k) implies turn(
                    dir_in,
                    edges@[k],
                ) <= turn(dir_in, edges@[b as int]) by {
                    assert(0 <= k < i);
                }
            }
            Some(next)
        },
    }
}

/// The outline loops: every boundary edge is followed from its end to the
/// next unused edge (turning most to the left) until the loop returns to
/// its start; each loop is given by its corners. A chain that does not close
/// and loops of fewer than four corners are dropped.
pub fn chain_loops(edges: &Vec<Edge>) -> (loops: Vec<Vec<Corner>>)
    ensures
        corner_loops(loops@) == traced_loops(edges@),
        forall|l: int|
            0 <= l < loops@.len() ==> {
                let c = (#[trigger] loops@[l])@;
                &&& c.len() >= 4
                &&& forall|k: int|
                    0 <= k < c.len() ==> has_edge(edges@, c[k], #[trigger] c[(k + 1) % (c.len() as int)])
            },
{
    let n = edges.len();
    let mut used: Vec<bool> = Vec::new();
    let mut j: usize = 0;
    while j < n
        invariant
            j <= n == edges@.len(),
            used@.len() == j,
            forall|k: int| 0 <= k < j ==> !used@[k],
        decreases n - j,
    {
        used.push(false);
        j = j + 1;
    }
    assert(used@ =~= Seq::new(edges@.len(), |i: int| false));
    let mut loops: Vec<Vec<Corner>> = Vec::new();
    assert(corner_loops(loops@) =~= Seq::<Seq<Corner>>::empty());
    let mut s: usize = 0;
    while s < n
        invariant
            s <= n == edges@.len() == used@.len(),
            chain_from(edges@, used@, s as nat, corner_loops(loops@)) == traced_loops(edges@),
            forall|l: int|
                0 <= l < loops@.len() ==> {
                    let c = (#[trigger] loops@[l])@;
                    &&& c.len() >= 4
                    &&& forall|k: int|
                        0 <= k < c.len() ==> has_edge(edges@, c[k], #[trigger] c[(k + 1) % (c.len() as int)])
                },
        decreases n - s,
    {
        if !used[s] {
            used.set(s, true);
            let start = edges[s].0;
            let first = edges[s].1;
            assert(edges@[s as int] == (start, first));
            let mut pts: Vec<Corner> = Vec::new();
            pts.push(start);
            let mut dir = direction(start, first);
            let mut cur = first;
            let mut closed = true;
            let ghost goal = follow(edges@, used@, start, first, dir, seq![start]);
            assert(pts@ =~= seq![start]);
            while !same_corner(cur, start)
                invariant_except_break
                    has_edge(edges@, pts@.last(), cur),
                    closed,
                    follow(edges@, used@, start, cur, dir, pts@) == goal,
                invariant
                    n == edges@.len() == used@.len(),
                    pts@.len() >= 1,
                    pts@[0] == start,
                    -1 <= dir.0 <= 1,
                    -1 <= dir.1 <= 1,
                    forall|k: int|
                        0 <= k < pts@.len() - 1 ==> has_edge(edges@, pts@[k], #[trigger] pts@[k + 1]),
                ensures
                    closed ==> cur == start && has_edge(edges@, pts@.last(), cur),
                    goal == (used@, pts@, closed),
                decreases count_unused(used@),
            {
                let ghost before = pts@;
                let ghost u0 = used@;
                let ghost d0 = dir;
                pts.push(cur);
                assert(forall|k: int|
                    0 <= k < pts@.len() - 1 ==> has_edge(edges@, pts@[k], #[trigger] pts@[k + 1])) by {
                    assert forall|k: int| 0 <= k < pts@.len() - 1 implies has_edge(
                        edges@,
                        pts@[k],
                        #[trigger] pts@[k + 1],
                    ) by {
                        if k < before.len() - 1 {
                            assert(pts@[k] == before[k] && pts@[k + 1] == before[k + 1]);
                        } else {
                            assert(pts@[k] == before.last());
                        }
                    }
                }
                match take_next(edges, &mut used, cur, dir) {
                    None => {
                        proof {
                            assert(!exists|b: int| is_choice(edges@, u0, cur, d0, b)) by {
                                if exists|b: int| is_choice(edges@, u0, cur, d0, b) {
                                    let b = choose|b: int| is_choice(edges@, u0, cur, d0, b);
                                    assert(candidate(edges@, u0, cur, b));
                                }
                            }
                        }
                        closed = false;
                        break;
                    },
                    Some(next) => {
                        proof {
                            let i = choose|i: int|
                                is_choice(edges@, u0, cur, d0, i) && #[trigger] edges@[i] == (cur, next)
                                    && used@ == u0.update(i, true);
                            lemma_count_use(u0, i);
                            let b = choose|b: int| is_choice(edges@, u0, cur, d0, b);
                            lemma_choice_unique(edges@, u0, cur, d0, i, b);
                        }
                        dir = direction(cur, next);
                        cur = next;
                    },
                }
            }
            let ghost before_loops = loops@;
            if closed && pts.len() >= 4 {
                proof {
                    let c = pts@;
                    assert forall|k: int| 0 <= k < c.len() implies has_edge(
                        edges@,
                        c[k],
                        #[trigger] c[(k + 1) % (c.len() as int)],
                    ) by {
                        if k < c.len() - 1 {
                            vstd::arithmetic::div_mod::lemma_small_mod((k + 1) as nat, c.len());
                        } else {
                            vstd::arithmetic::div_mod::lemma_mod_self_0(c.len() as int);
                        }
                    }
                }
                loops.push(pts);
                assert(corner_loops(loops@) =~= corner_loops(before_loops).push(goal.1));
            }
        }
        s = s + 1;
    }
    loops
}

/// The outline loops of the foreground of a `w` × `h` image (pixel
/// coordinates of grid corners): none when the buffer does not match the
/// size; otherwise closed loops of at least four corners, each step a
/// boundary edge of the foreground.
pub fn trace_loops(px: &[u8], w: usize, h: usize, threshold: u8, invert: bool) -> (loops: Vec<
    Vec<Corner>,
>)
    requires
        w < usize::MAX,
        h < usize::MAX,
    ensures
        !fits(px@.len(), w as nat, h as nat) ==> loops@.len() == 0,
        fits(px@.len(), w as nat, h as nat) ==> corner_loops(loops@) == traced_loops(
            grid_edges(px@, w as int, h as int, threshold, invert, h as nat),
        ),
        forall|l: int|
            0 <= l < loops@.len() ==> {
                let c = (#[trigger] loops@[l])@;
                &&& c.len() >= 4
                &&& forall|k: int|
                    0 <= k < c.len() ==> has_edge(
                        grid_edges(px@, w as int, h as int, threshold, invert, h as nat),
                        c[k],
                        #[trigger] c[(k + 1) % (c.len() as int)],
                    )
            },
{
    if !dimensions_fit(px.len(), w, h) {
        return Vec::new();
    }
    let edges = boundary_edges(px, w, h, threshold, invert);
    chain_loops(&edges)
}


// ---- outline loops as contours ---------------------------------------------

/// The integer value of a signed magnitude.
pub open spec fn signed(neg: bool, mag: int) -> int {
    if neg {
        -mag
    } else {
        mag
    }
}

/// `b` lies on the line through `a` and `c` (the cross product of `b - a`
/// and `c - a` is zero).
pub open spec fn collinear(a: Corner, b: Corner, c: Corner) -> bool {
    (b.0 - a.0) * (c.1 - a.1) == (b.1 - a.1) * (c.0 - a.0)
}

/// The corner at `i` of a closed loop stays: it does not lie on the line
/// through its neighbours.
pub open spec fn corner_kept(pts: Seq<Corner>, i: int) -> bool {
    let n = pts.len() as int;
    !collinear(pts[(i + n - 1) % n], pts[i], pts[(i + 1) % n])
}

/// The kept corners among the first `k` of a closed loop, in order.
pub open spec fn kept_corners(pts: Seq<Corner>, k: nat) -> Seq<Corner>
    decreases k,
{
    if k == 0 {
        Seq::empty()
    } else {
        let r = kept_corners(pts, (k - 1) as nat);
        if corner_kept(pts, k - 1) {
            r.push(pts[k - 1])
        } else {
            r
        }
    }
}

/// A closed loop with the corners on straight runs merged away; a loop of
/// fewer than three corners, or one that would keep fewer than three, stays
/// as it is.
pub open spec fn merged_loop(pts: Seq<Corner>) -> Seq<Corner> {
    if pts.len() < 3 {
        pts
    } else if kept_corners(pts, pts.len()).len() < 3 {
        pts
    } else {
        kept_corners(pts, pts.len())
    }
}

fn step_between(x: usize, y: usize) -> (r: (bool, u64))
    ensures
        signed(r.0, r.1 as int) == y - x,
{
    if y >= x {
        (false, (y - x) as u64)
    } else {
        (true, (x - y) as u64)
    }
}

fn signed_product(a: (bool, u64), b: (bool, u64)) -> (r: (bool, u128))
    ensures
        signed(r.0, r.1 as int) == signed(a.0, a.1 as int) * signed(b.0, b.1 as int),
{
    assert((a.1 as int) * (b.1 as int) <= u128::MAX) by (nonlinear_arith)
        requires
            a.1 <= u64::MAX,
            b.1 <= u64::MAX,
    {
    }
    let m = (a.1 as u128) * (b.1 as u128);
    assert(m == (a.1 as int) * (b.1 as int)) by (nonlinear_arith)
        requires
            m == (a.1 as u128) * (b.1 as u128),
            (a.1 as int) * (b.1 as int) <= u128::MAX,
    {
    }
    let neg = a.0 != b.0;
    assert(signed(neg, m as int) == signed(a.0, a.1 as int) * signed(b.0, b.1 as int)) by (nonlinear_arith)
        requires
            m == (a.1 as int) * (b.1 as int),
            neg == (a.0 != b.0),
    {
    }
    (neg, m)
}

fn signed_eq(a: (bool, u128), b: (bool, u128)) -> (r: bool)
    ensures
        r == (signed(a.0, a.1 as int) == signed(b.0, b.1 as int)),
{
    a.1 == b.1 && (a.1 == 0 || a.0 == b.0)
}

/// Whether `b` lies on the line through `a` and `c`, computed exactly.
fn is_collinear(a: Corner, b: Corner, c: Corner) -> (r: bool)
    ensures
        r == collinear(a, b, c),
{
    let p1 = signed_product(step_between(a.0, b.0), step_between(a.1, c.1));
    let p2 = signed_product(step_between(a.1, b.1), step_between(a.0, c.0));
    signed_eq(p1, p2)
}

/// Merges the corners on straight runs of a closed loop (see `merged_loop`).
pub fn merge_collinear(pts: &Vec<Corner>) -> (r: Vec<Corner>)
    ensures
        r@ == merged_loop(pts@),
{
    let n = pts.len();
    if n < 3 {
        return crate::state::copy_vec(pts);
    }
    let mut out: Vec<Corner> = Vec::new();
    let mut i: usize = 0;
    while i < n
        invariant
            n == pts@.len(),
            n >= 3,
            i <= n,
            out@ == kept_corners(pts@, i as nat),
        decreases n - i,
    {
        let prev = if i == 0 {
            n - 1
        } else {
            i - 1
        };
        assert(prev as int == (i + n - 1) % (n as int)) by (nonlinear_arith)
            requires
                prev == if i == 0 { n - 1 } else { i - 1 },
                0 <= i < n,
        {
        }
        let a = pts[prev];
        let b = pts[i];
        let c = pts[(i + 1) % n];
        if !is_collinear(a, b, c) {
            out.push(b);
        }
        i = i + 1;
    }
    if out.len() < 3 {
        crate::state::copy_vec(pts)
    } else {
        out
    }
}

/// Twice the signed area of the first `k` edges of a closed loop (shoelace
/// sum; positive for counter-clockwise order with y pointing up).
pub open spec fn shoelace(pts: Seq<Corner>, k: nat) -> int
    decreases k,
{
    if k == 0 {
        0
    } else {
        let i = k - 1;
        let j = (i + 1) % (pts.len() as int);
        shoelace(pts, (k - 1) as nat) + (pts[i].0 * pts[j].1 - pts[j].0 * pts[i].1)
    }
}

/// The coordinates of the loop are below 2^31 and it has fewer than 2^32
/// corners.
pub open spec fn small_loop(pts: Seq<Corner>) -> bool {
    &&& pts.len() < 0x1_0000_0000
    &&& forall|i: int| 0 <= i < pts.len() ==> #[trigger] pts[i].0 < 0x8000_0000 && pts[i].1 < 0x8000_0000
}

/// Twice the signed area of a closed loop, exactly; `None` only when an
/// intermediate value leaves `i128` (never for a `small_loop`).
pub fn twice_area(pts: &Vec<Corner>) -> (r: Option<i128>)
    ensures
        r matches Some(a) ==> a == shoelace(pts@, pts@.len()),
        small_loop(pts@) ==> r is Some,
{
    let n = pts.len();
    let mut sum: i128 = 0;
    let mut i: usize = 0;
    while i < n
        invariant
            n == pts@.len(),
            i <= n,
            sum == shoelace(pts@, i as nat),
            small_loop(pts@) ==> -(i * 0x4000_0000_0000_0000) <= sum <= i * 0x4000_0000_0000_0000,
        decreases n - i,
    {
        let j = (i + 1) % n;
        let (xi, yi) = pts[i];
        let (xj, yj) = pts[j];
        let p1 = (xi as i128).checked_mul(yj as i128);
        let p2 = (xj as i128).checked_mul(yi as i128);
        proof {
            if small_loop(pts@) {
            assert(xi < 0x8000_0000 && yi < 0x8000_0000);
            assert(xj < 0x8000_0000 && yj < 0x8000_0000) by {
                assert(pts@[j as int].0 < 0x8000_0000);
            }
            assert((xi as int) * (yj as int) < 0x4000_0000_0000_0000) by (nonlinear_arith)
                requires xi < 0x8000_0000, yj < 0x8000_0000;
            assert((xj as int) * (yi as int) < 0x4000_0000_0000_0000) by (nonlinear_arith)
                requires xj < 0x8000_0000, yi < 0x8000_0000;
            assert(0 <= (xi as int) * (yj as int)) by (nonlinear_arith);
            assert(0 <= (xj as int) * (yi as int)) by (nonlinear_arith);
            }
        }
        let (a, b) = match (p1, p2) {
            (Some(a), Some(b)) => (a, b),
            _ => return None,
        };
        let t = match a.checked_sub(b) {
            Some(t) => t,
            None => return None,
        };
        sum = match sum.checked_add(t) {
            Some(s) => s,
            None => return None,
        };
        i = i + 1;
    }
    Some(sum)
}

} // verus!
