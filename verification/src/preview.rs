//! The laser job and its preview. Which layers a job burns, with which shapes,
//! and the moves of the head in the order of execution: the work segments of
//! the layers in plan order, with a travel in front of every segment that does
//! not start where the head stands. The preview never reorders.
//!
//! Points are given by key: equal keys are the same point. The caller assigns
//! the keys from the coordinates and keeps the coordinates themselves.

use vstd::prelude::*;

use crate::enums::MoveKind;
use crate::model::{Layer, Shape};

verus! {

/// A segment of the preview: start point, end point, kind, layer.
pub type Segment = (u64, u64, MoveKind, usize);

/// A path of a cut layer: its points by key, and whether it closes.
#[derive(Debug, Clone)]
pub struct PlanPath {
    pub points: Vec<u64>,
    pub closed: bool,
}

/// The work of a layer in the job.
#[derive(Debug, Clone)]
pub enum PlanWork {
    /// Follow the outlines.
    Cut { paths: Vec<PlanPath> },
    /// Scan lines, each from its start to its end point.
    Fill { segments: Vec<(u64, u64)> },
}

/// A layer block of the job.
#[derive(Debug, Clone)]
pub struct PlanLayer {
    pub layer_id: usize,
    pub work: PlanWork,
}

/// A move of the preview, in the order of execution.
#[derive(Debug, Clone, Copy, PartialEq, Eq)]
pub struct PreviewMove {
    pub from: u64,
    pub to: u64,
    pub kind: MoveKind,
    /// The layer; for a travel the layer it leads to.
    pub layer_id: usize,
    /// Position in the order (0..n without gaps).
    pub seq: u32,
}

impl PreviewMove {
    pub open spec fn segment(self) -> Segment {
        (self.from, self.to, self.kind, self.layer_id)
    }
}

/// The edges of a path: from each point to the next, and back to the first
/// one when it closes. A path of fewer than two points has none.
pub open spec fn path_segments(points: Seq<u64>, closed: bool, layer_id: usize) -> Seq<Segment> {
    if points.len() < 2 {
        Seq::empty()
    } else {
        let edges = Seq::new(
            (points.len() - 1) as nat,
            |i: int| (points[i], points[i + 1], MoveKind::Cut, layer_id),
        );
        if closed {
            edges.push((points[points.len() - 1], points[0], MoveKind::Cut, layer_id))
        } else {
            edges
        }
    }
}

/// The edges of all paths of a cut layer, path after path.
pub open spec fn paths_segments(paths: Seq<PlanPath>, layer_id: usize) -> Seq<Segment>
    decreases paths.len(),
{
    if paths.len() == 0 {
        Seq::empty()
    } else {
        paths_segments(paths.drop_last(), layer_id) + path_segments(
            paths.last().points@,
            paths.last().closed,
            layer_id,
        )
    }
}

/// The scan lines of a fill layer.
pub open spec fn fill_segments(segments: Seq<(u64, u64)>, layer_id: usize) -> Seq<Segment> {
    Seq::new(segments.len(), |i: int| (segments[i].0, segments[i].1, MoveKind::Fill, layer_id))
}

/// The work segments of one layer.
pub open spec fn layer_segments(l: PlanLayer) -> Seq<Segment> {
    match l.work {
        PlanWork::Cut { paths } => paths_segments(paths@, l.layer_id),
        PlanWork::Fill { segments } => fill_segments(segments@, l.layer_id),
    }
}

/// The work segments of the job, layer after layer in plan order.
pub open spec fn plan_segments(layers: Seq<PlanLayer>) -> Seq<Segment>
    decreases layers.len(),
{
    if layers.len() == 0 {
        Seq::empty()
    } else {
        plan_segments(layers.drop_last()) + layer_segments(layers.last())
    }
}

/// One work segment onto the moves so far (`head`: where the head stands,
/// `None` before the first segment): a travel first when the head stands
/// elsewhere than where the segment starts.
pub open spec fn emit(moves: Seq<Segment>, head: Option<u64>, s: Segment) -> (
    Seq<Segment>,
    Option<u64>,
) {
    let moves = match head {
        Some(h) => if h != s.0 {
            moves.push((h, s.0, MoveKind::Travel, s.3))
        } else {
            moves
        },
        None => moves,
    };
    (moves.push(s), Some(s.1))
}

/// The moves for a run of work segments, and where the head ends.
pub open spec fn run_moves(segs: Seq<Segment>) -> (Seq<Segment>, Option<u64>)
    decreases segs.len(),
{
    if segs.len() == 0 {
        (Seq::empty(), None)
    } else {
        let (m, h) = run_moves(segs.drop_last());
        emit(m, h, segs.last())
    }
}

/// The preview of a job.
pub open spec fn preview_of(layers: Seq<PlanLayer>) -> Seq<Segment> {
    run_moves(plan_segments(layers)).0
}

/// `moves` shows the segments `r` in order, numbered from 0.
pub open spec fn shows(moves: Seq<PreviewMove>, r: Seq<Segment>) -> bool {
    &&& moves.len() == r.len()
    &&& forall|i: int| 0 <= i < moves.len() ==> #[trigger] moves[i].segment() == r[i]
    &&& forall|i: int| 0 <= i < moves.len() ==> #[trigger] moves[i].seq == i
}

proof fn lemma_run_push(s: Seq<Segment>, x: Segment)
    ensures
        run_moves(s.push(x)) == emit(run_moves(s).0, run_moves(s).1, x),
{
    assert(s.push(x).drop_last() =~= s);
}

proof fn lemma_plan_take(layers: Seq<PlanLayer>, i: int)
    requires
        0 <= i < layers.len(),
    ensures
        plan_segments(layers.take(i + 1)) == plan_segments(layers.take(i)) + layer_segments(
            layers[i],
        ),
{
    assert(layers.take(i + 1).drop_last() =~= layers.take(i));
}

proof fn lemma_prefix_trans(a: Seq<Segment>, b: Seq<Segment>, c: Seq<Segment>)
    requires
        a.is_prefix_of(b),
        b.is_prefix_of(c),
    ensures
        a.is_prefix_of(c),
{
    assert(a =~= c.subrange(0, a.len() as int));
}

proof fn lemma_prefix_concat(a: Seq<Segment>, x: Seq<Segment>, y: Seq<Segment>)
    requires
        x.is_prefix_of(y),
    ensures
        (a + x).is_prefix_of(a + y),
{
    assert(a + x =~= (a + y).subrange(0, (a + x).len() as int));
}

proof fn lemma_plan_prefix(layers: Seq<PlanLayer>, i: int)
    requires
        0 <= i <= layers.len(),
    ensures
        plan_segments(layers.take(i)).is_prefix_of(plan_segments(layers)),
    decreases layers.len() - i,
{
    if i < layers.len() {
        lemma_plan_take(layers, i);
        lemma_plan_prefix(layers, i + 1);
        let pre = plan_segments(layers.take(i));
        let next = plan_segments(layers.take(i + 1));
        assert(pre =~= next.subrange(0, pre.len() as int));
        lemma_prefix_trans(pre, next, plan_segments(layers));
    } else {
        assert(layers.take(i) =~= layers);
        assert(plan_segments(layers) =~= plan_segments(layers).subrange(
            0,
            plan_segments(layers).len() as int,
        ));
    }
}

proof fn lemma_paths_take(paths: Seq<PlanPath>, layer_id: usize, i: int)
    requires
        0 <= i < paths.len(),
    ensures
        paths_segments(paths.take(i + 1), layer_id) == paths_segments(paths.take(i), layer_id)
            + path_segments(paths[i].points@, paths[i].closed, layer_id),
{
    assert(paths.take(i + 1).drop_last() =~= paths.take(i));
}

proof fn lemma_paths_prefix(paths: Seq<PlanPath>, layer_id: usize, i: int)
    requires
        0 <= i <= paths.len(),
    ensures
        paths_segments(paths.take(i), layer_id).is_prefix_of(paths_segments(paths, layer_id)),
    decreases paths.len() - i,
{
    if i < paths.len() {
        lemma_paths_take(paths, layer_id, i);
        lemma_paths_prefix(paths, layer_id, i + 1);
        let pre = paths_segments(paths.take(i), layer_id);
        let next = paths_segments(paths.take(i + 1), layer_id);
        assert(pre =~= next.subrange(0, pre.len() as int));
        lemma_prefix_trans(pre, next, paths_segments(paths, layer_id));
    } else {
        let all = paths_segments(paths, layer_id);
        assert(paths.take(i) =~= paths);
        assert(all =~= all.subrange(0, all.len() as int));
    }
}

/// A longer run of segments never has fewer moves.
proof fn lemma_run_prefix_len(pre: Seq<Segment>, full: Seq<Segment>)
    requires
        pre.is_prefix_of(full),
    ensures
        run_moves(pre).0.len() <= run_moves(full).0.len(),
    decreases full.len() - pre.len(),
{
    if pre.len() < full.len() {
        let next = full.subrange(0, pre.len() + 1int);
        assert(next =~= pre.push(full[pre.len() as int]));
        lemma_run_push(pre, full[pre.len() as int]);
        assert(next =~= full.subrange(0, next.len() as int));
        lemma_run_prefix_len(next, full);
    } else {
        assert(pre =~= full);
    }
}

/// Every move starts where the one before it ended.
pub open spec fn connected(r: Seq<Segment>) -> bool {
    forall|i: int| 0 <= i < r.len() - 1 ==> #[trigger] r[i].1 == r[i + 1].0
}

/// Every travel lies between two work moves and really moves the head: it
/// is not the first move, a work move follows it, it ends elsewhere than it
/// starts, and it belongs to the layer of the move it leads to.
pub open spec fn travels_between(r: Seq<Segment>) -> bool {
    forall|i: int|
        0 <= i < r.len() && #[trigger] r[i].2 == MoveKind::Travel ==> {
            &&& 0 < i < r.len() - 1
            &&& r[i + 1].2 != MoveKind::Travel
            &&& r[i].0 != r[i].1
            &&& r[i].3 == r[i + 1].3
        }
}

/// No segment is a travel.
pub open spec fn all_work(s: Seq<Segment>) -> bool {
    forall|i: int| 0 <= i < s.len() ==> #[trigger] s[i].2 != MoveKind::Travel
}

/// The work moves of a move list, in order.
pub open spec fn work_moves(r: Seq<Segment>) -> Seq<Segment> {
    r.filter(|m: Segment| m.2 != MoveKind::Travel)
}

proof fn lemma_filter_push_work(r: Seq<Segment>, x: Segment)
    ensures
        work_moves(r.push(x)) == if x.2 != MoveKind::Travel {
            work_moves(r).push(x)
        } else {
            work_moves(r)
        },
{
    reveal(Seq::filter);
    assert(r.push(x).drop_last() =~= r);
}

proof fn lemma_work_empty()
    ensures
        work_moves(Seq::<Segment>::empty()) == Seq::<Segment>::empty(),
{
    reveal(Seq::filter);
}

proof fn lemma_all_work_prefix(s: Seq<Segment>)
    requires
        all_work(s),
        s.len() > 0,
    ensures
        all_work(s.drop_last()),
        s.last().2 != MoveKind::Travel,
{
    assert(s.last() == s[s.len() - 1]);
    assert forall|i: int| 0 <= i < s.drop_last().len() implies #[trigger] s.drop_last()[i].2
        != MoveKind::Travel by {
        assert(s.drop_last()[i] == s[i]);
    }
}

proof fn lemma_run_head(s: Seq<Segment>)
    ensures
        s.len() > 0 ==> run_moves(s).0.len() > 0 && run_moves(s).1 == Some(
            run_moves(s).0.last().1,
        ),
        s.len() == 0 ==> run_moves(s).0.len() == 0 && run_moves(s).1 is None,
    decreases s.len(),
{
    if s.len() > 0 {
        lemma_run_head(s.drop_last());
    }
}

proof fn lemma_run_connected(s: Seq<Segment>)
    ensures
        connected(run_moves(s).0),
    decreases s.len(),
{
    if s.len() > 0 {
        let p = s.drop_last();
        let x = s.last();
        lemma_run_connected(p);
        lemma_run_head(p);
        let (m, h) = run_moves(p);
        let r = run_moves(s).0;
        if h is Some && h->0 != x.0 {
            assert forall|i: int| 0 <= i < r.len() - 1 implies #[trigger] r[i].1 == r[i + 1].0 by {
                if i < m.len() - 1 {
                    assert(r[i] == m[i] && r[i + 1] == m[i + 1]);
                }
            }
        } else {
            assert forall|i: int| 0 <= i < r.len() - 1 implies #[trigger] r[i].1 == r[i + 1].0 by {
                if i < m.len() - 1 {
                    assert(r[i] == m[i] && r[i + 1] == m[i + 1]);
                }
            }
        }
    }
}

proof fn lemma_run_travels(s: Seq<Segment>)
    requires
        all_work(s),
    ensures
        travels_between(run_moves(s).0),
        s.len() > 0 ==> run_moves(s).0.last().2 != MoveKind::Travel,
    decreases s.len(),
{
    if s.len() > 0 {
        let p = s.drop_last();
        let x = s.last();
        lemma_all_work_prefix(s);
        lemma_run_travels(p);
        lemma_run_head(p);
        let (m, h) = run_moves(p);
        let r = run_moves(s).0;
        assert forall|i: int| 0 <= i < r.len() && #[trigger] r[i].2 == MoveKind::Travel implies {
            &&& 0 < i < r.len() - 1
            &&& r[i + 1].2 != MoveKind::Travel
            &&& r[i].0 != r[i].1
            &&& r[i].3 == r[i + 1].3
        } by {
            if i < m.len() {
                assert(r[i] == m[i]);
                if i < m.len() - 1 {
                    assert(r[i + 1] == m[i + 1]);
                }
            }
        }
    }
}

proof fn lemma_run_work(s: Seq<Segment>)
    requires
        all_work(s),
    ensures
        work_moves(run_moves(s).0) == s,
    decreases s.len(),
{
    if s.len() == 0 {
        lemma_work_empty();
        assert(s =~= Seq::<Segment>::empty());
    } else {
        let p = s.drop_last();
        let x = s.last();
        lemma_all_work_prefix(s);
        lemma_run_work(p);
        let (m, h) = run_moves(p);
        assert(s =~= p.push(x));
        if h is Some && h->0 != x.0 {
            let t = (h->0, x.0, MoveKind::Travel, x.3);
            lemma_filter_push_work(m, t);
            lemma_filter_push_work(m.push(t), x);
        } else {
            lemma_filter_push_work(m, x);
        }
    }
}

proof fn lemma_paths_all_work(paths: Seq<PlanPath>, layer_id: usize)
    ensures
        all_work(paths_segments(paths, layer_id)),
    decreases paths.len(),
{
    if paths.len() > 0 {
        lemma_paths_all_work(paths.drop_last(), layer_id);
        let a = paths_segments(paths.drop_last(), layer_id);
        let b = path_segments(paths.last().points@, paths.last().closed, layer_id);
        assert forall|i: int| 0 <= i < (a + b).len() implies #[trigger] (a + b)[i].2
            != MoveKind::Travel by {
            if i >= a.len() {
                assert((a + b)[i] == b[i - a.len()]);
            } else {
                assert((a + b)[i] == a[i]);
            }
        }
    }
}

proof fn lemma_plan_all_work(layers: Seq<PlanLayer>)
    ensures
        all_work(plan_segments(layers)),
    decreases layers.len(),
{
    if layers.len() > 0 {
        lemma_plan_all_work(layers.drop_last());
        let l = layers.last();
        match l.work {
            PlanWork::Cut { paths } => lemma_paths_all_work(paths@, l.layer_id),
            PlanWork::Fill { segments } => {},
        }
        let a = plan_segments(layers.drop_last());
        let b = layer_segments(l);
        assert forall|i: int| 0 <= i < (a + b).len() implies #[trigger] (a + b)[i].2
            != MoveKind::Travel by {
            if i >= a.len() {
                assert((a + b)[i] == b[i - a.len()]);
            } else {
                assert((a + b)[i] == a[i]);
            }
        }
    }
}

/// The preview is a continuous run of the head: every move starts where the
/// one before it ended; the work segments of the job appear exactly and in
/// plan order (the preview never reorders), and a travel stands only between
/// two work segments, where the next one starts elsewhere than the head is,
/// on the layer of that next segment.
pub proof fn preview_is_continuous_run(layers: Seq<PlanLayer>)
    ensures
        connected(preview_of(layers)),
        travels_between(preview_of(layers)),
        work_moves(preview_of(layers)) == plan_segments(layers),
{
    lemma_plan_all_work(layers);
    lemma_run_connected(plan_segments(layers));
    lemma_run_travels(plan_segments(layers));
    lemma_run_work(plan_segments(layers));
}

/// Appends the moves of one work segment, unless a move would be numbered
/// beyond `u32::MAX - 1`; then the whole run (`full`, which `done` and the
/// segment begin) has more moves than `u32` can count.
fn push_move(
    moves: &mut Vec<PreviewMove>,
    head: &mut Option<u64>,
    s: Segment,
    Ghost(done): Ghost<Seq<Segment>>,
    Ghost(full): Ghost<Seq<Segment>>,
) -> (ok: bool)
    requires
        shows(old(moves)@, run_moves(done).0),
        *old(head) == run_moves(done).1,
        old(moves)@.len() <= u32::MAX,
        done.push(s).is_prefix_of(full),
    ensures
        ok ==> shows(final(moves)@, run_moves(done.push(s)).0),
        ok ==> *final(head) == run_moves(done.push(s)).1,
        ok ==> final(moves)@.len() <= u32::MAX,
        !ok ==> run_moves(full).0.len() > u32::MAX,
{
    proof {
        lemma_run_push(done, s);
        lemma_run_prefix_len(done.push(s), full);
    }
    let (from, to, kind, layer_id) = s;
    let limit = u32::MAX as usize;
    match *head {
        Some(h) => {
            if h != from {
                if moves.len() >= limit {
                    return false;
                }
                let seq = moves.len() as u32;
                moves.push(PreviewMove { from: h, to: from, kind: MoveKind::Travel, layer_id, seq });
            }
        },
        None => {},
    }
    if moves.len() >= limit {
        return false;
    }
    let seq = moves.len() as u32;
    moves.push(PreviewMove { from, to, kind, layer_id, seq });
    *head = Some(to);
    true
}

/// Emits the edges of one path (see `path_segments`), as `push_move` does.
fn push_path(
    moves: &mut Vec<PreviewMove>,
    head: &mut Option<u64>,
    path: &PlanPath,
    layer_id: usize,
    Ghost(done): Ghost<Seq<Segment>>,
    Ghost(full): Ghost<Seq<Segment>>,
) -> (ok: bool)
    requires
        shows(old(moves)@, run_moves(done).0),
        *old(head) == run_moves(done).1,
        old(moves)@.len() <= u32::MAX,
        (done + path_segments(path.points@, path.closed, layer_id)).is_prefix_of(full),
    ensures
        ({
            let after = done + path_segments(path.points@, path.closed, layer_id);
            &&& ok ==> shows(final(moves)@, run_moves(after).0)
            &&& ok ==> *final(head) == run_moves(after).1
            &&& ok ==> final(moves)@.len() <= u32::MAX
            &&& !ok ==> run_moves(full).0.len() > u32::MAX
        }),
{
    let pts = &path.points;
    let n = pts.len();
    let ghost segs = path_segments(path.points@, path.closed, layer_id);
    if n < 2 {
        assert(done + segs =~= done);
        return true;
    }
    let ghost edges = Seq::new(
        (pts@.len() - 1) as nat,
        |i: int| (pts@[i], pts@[i + 1], MoveKind::Cut, layer_id),
    );
    let ghost mut cur = done;
    let mut k: usize = 0;
    while k + 1 < n
        invariant
            n == pts.len(),
            n >= 2,
            k + 1 <= n,
            edges.len() == n - 1,
            edges == Seq::new(
                (pts@.len() - 1) as nat,
                |i: int| (pts@[i], pts@[i + 1], MoveKind::Cut, layer_id),
            ),
            segs == path_segments(path.points@, path.closed, layer_id),
            segs == (if path.closed {
                edges.push((pts@[n - 1], pts@[0], MoveKind::Cut, layer_id))
            } else {
                edges
            }),
            (done + segs).is_prefix_of(full),
            cur == done + edges.take(k as int),
            shows(moves@, run_moves(cur).0),
            *head == run_moves(cur).1,
            moves@.len() <= u32::MAX,
        decreases n - k,
    {
        let s = (pts[k], pts[k + 1], MoveKind::Cut, layer_id);
        assert(s == edges[k as int]);
        proof {
            assert(edges.take(k + 1) =~= segs.subrange(0, k + 1));
            lemma_prefix_concat(done, edges.take(k + 1), segs);
            assert(cur.push(s) =~= done + edges.take(k + 1));
            lemma_prefix_trans(cur.push(s), done + segs, full);
        }
        if !push_move(moves, head, s, Ghost(cur), Ghost(full)) {
            return false;
        }
        proof {
            cur = cur.push(s);
        }
        k = k + 1;
    }
    assert(edges.take(k as int) =~= edges);
    if path.closed {
        let s = (pts[n - 1], pts[0], MoveKind::Cut, layer_id);
        assert(cur.push(s) =~= done + segs);
        push_move(moves, head, s, Ghost(cur), Ghost(full))
    } else {
        assert(cur =~= done + segs);
        true
    }
}

/// The moves of the head for a job, in the order of execution: the work
/// segments of the layers in plan order (cut paths edge by edge, closed ones
/// back to their start; fill layers line by line), with a travel in front of
/// every segment that does not start where the head stands. The first
/// segment starts without one. The moves are numbered 0..n; `None` when
/// there are more moves than a `u32` number can count.
pub fn preview_moves(layers: &Vec<PlanLayer>) -> (r: Option<Vec<PreviewMove>>)
    ensures
        r is None <==> preview_of(layers@).len() > u32::MAX,
        r matches Some(moves) ==> shows(moves@, preview_of(layers@)),
{
    let mut moves: Vec<PreviewMove> = Vec::new();
    let mut head: Option<u64> = None;
    let ghost full = plan_segments(layers@);
    let mut li: usize = 0;
    assert(layers@.take(0) =~= Seq::<PlanLayer>::empty());
    while li < layers.len()
        invariant
            li <= layers.len(),
            full == plan_segments(layers@),
            shows(moves@, run_moves(plan_segments(layers@.take(li as int))).0),
            head == run_moves(plan_segments(layers@.take(li as int))).1,
            moves@.len() <= u32::MAX,
        decreases layers.len() - li,
    {
        proof {
            lemma_plan_take(layers@, li as int);
            lemma_plan_prefix(layers@, li + 1);
        }
        let layer = &layers[li];
        let id = layer.layer_id;
        let ghost before = plan_segments(layers@.take(li as int));
        match &layer.work {
            PlanWork::Cut { paths } => {
                let ghost all = paths_segments(paths@, id);
                assert(all == layer_segments(layers@[li as int]));
                let mut pi: usize = 0;
                assert(paths@.take(0) =~= Seq::<PlanPath>::empty());
                assert(before + paths_segments(paths@.take(0), id) =~= before);
                while pi < paths.len()
                    invariant
                        pi <= paths.len(),
                        all == paths_segments(paths@, id),
                        (before + all).is_prefix_of(full),
                        full == plan_segments(layers@),
                        shows(moves@, run_moves(before + paths_segments(paths@.take(pi as int), id)).0),
                        head == run_moves(before + paths_segments(paths@.take(pi as int), id)).1,
                        moves@.len() <= u32::MAX,
                    decreases paths.len() - pi,
                {
                    let ghost cur = before + paths_segments(paths@.take(pi as int), id);
                    let ghost next = before + paths_segments(paths@.take(pi + 1), id);
                    proof {
                        lemma_paths_take(paths@, id, pi as int);
                        lemma_paths_prefix(paths@, id, pi + 1);
                        lemma_prefix_concat(before, paths_segments(paths@.take(pi + 1), id), all);
                        lemma_prefix_trans(next, before + all, full);
                        assert(cur + path_segments(paths@[pi as int].points@, paths@[pi as int].closed, id)
                            =~= next);
                    }
                    if !push_path(&mut moves, &mut head, &paths[pi], id, Ghost(cur), Ghost(full)) {
                        return None;
                    }
                    pi = pi + 1;
                }
                assert(paths@.take(pi as int) =~= paths@);
            },
            PlanWork::Fill { segments } => {
                let ghost all = fill_segments(segments@, id);
                assert(all == layer_segments(layers@[li as int]));
                let mut si: usize = 0;
                assert(before + all.take(0) =~= before);
                while si < segments.len()
                    invariant
                        si <= segments.len(),
                        all == fill_segments(segments@, id),
                        (before + all).is_prefix_of(full),
                        full == plan_segments(layers@),
                        shows(moves@, run_moves(before + all.take(si as int)).0),
                        head == run_moves(before + all.take(si as int)).1,
                        moves@.len() <= u32::MAX,
                    decreases segments.len() - si,
                {
                    let (a, b) = segments[si];
                    let s = (a, b, MoveKind::Fill, id);
                    assert(s == all[si as int]);
                    proof {
                        assert(all.take(si + 1) =~= all.subrange(0, si + 1));
                        lemma_prefix_concat(before, all.take(si + 1), all);
                        assert((before + all.take(si as int)).push(s) =~= before + all.take(si + 1));
                        lemma_prefix_trans(before + all.take(si + 1), before + all, full);
                    }
                    if !push_move(&mut moves, &mut head, s, Ghost(before + all.take(si as int)), Ghost(full)) {
                        return None;
                    }
                    si = si + 1;
                }
                assert(all.take(si as int) =~= all);
            },
        }
        li = li + 1;
    }
    assert(layers@.take(li as int) =~= layers@);
    Some(moves)
}

} // verus!

verus! {

/// The moves `preview_moves` returns run continuously, read on the moves
/// themselves: each starts where the one before it ended; a travel is never
/// the first or the last move, is followed by a work move on its own layer,
/// and really moves the head; the moves are numbered 0..n.
pub proof fn preview_moves_run_continuously(layers: Seq<PlanLayer>, moves: Seq<PreviewMove>)
    requires
        shows(moves, preview_of(layers)),
    ensures
        forall|i: int| 0 < i < moves.len() ==> #[trigger] moves[i].from == moves[i - 1].to,
        forall|i: int|
            0 <= i < moves.len() && #[trigger] moves[i].kind == MoveKind::Travel ==> {
                &&& 0 < i < moves.len() - 1
                &&& moves[i + 1].kind != MoveKind::Travel
                &&& moves[i].from != moves[i].to
                &&& moves[i].layer_id == moves[i + 1].layer_id
            },
        forall|i: int| 0 <= i < moves.len() ==> #[trigger] moves[i].seq == i,
{
    preview_is_continuous_run(layers);
    let r = preview_of(layers);
    assert forall|i: int| 0 < i < moves.len() implies #[trigger] moves[i].from == moves[i - 1].to by {
        assert(moves[i].segment() == r[i]);
        assert(moves[i - 1].segment() == r[i - 1]);
        assert(r[i - 1].1 == r[(i - 1) + 1].0);
    }
    assert forall|i: int| 0 <= i < moves.len() && #[trigger] moves[i].kind == MoveKind::Travel implies {
        &&& 0 < i < moves.len() - 1
        &&& moves[i + 1].kind != MoveKind::Travel
        &&& moves[i].from != moves[i].to
        &&& moves[i].layer_id == moves[i + 1].layer_id
    } by {
        assert(moves[i].segment() == r[i]);
        assert(r[i].2 == MoveKind::Travel);
        assert(moves[i + 1].segment() == r[i + 1]);
    }
}

} // verus!
