//! Reverse traversal of a forward-only path encoding.
//!
//! The encoding has no backward links, so reversal walks the tag array from
//! the end, tracking a point cursor and a "pending close" flag: a `Close`
//! or `End` terminator names the reversed sub-path's first point, and a
//! pending close is resolved only when the matching `Begin` is reached.
//!
//! The builder calls the walk emits are captured by [`rev_cmds`], a pure
//! spec function, and [`reverse_path`] is proved to feed exactly those
//! calls into the destination builder.

use vstd::prelude::*;

use crate::builder::{
    lemma_close_wf, lemma_cubic_wf, lemma_line_to_wf, lemma_move_to_wf, lemma_quadratic_wf,
    Builder, BuilderModel,
};
use crate::events::{
    lemma_total_arity_concat, lemma_total_arity_push, lemma_total_arity_take_succ,
    n_stored_points, total_arity, Verb,
};
use crate::geometry::{l1_near, origin, Point};
use crate::path::PathSlice;

verus! {

/// One builder call, as a value: what [`reverse_path`] emits while walking
/// a path backward.
#[derive(Clone, Copy, PartialEq, Eq, Structural, Debug)]
pub enum PathCmd {
    MoveTo(Point),
    LineTo(Point),
    Quadratic(Point, Point),
    Cubic(Point, Point, Point),
    Close,
}

/// The effect of one builder call on the builder's observable state.
pub open spec fn apply_cmd(m: BuilderModel, c: PathCmd) -> BuilderModel {
    match c {
        PathCmd::MoveTo(p) => m.move_to(p),
        PathCmd::LineTo(p) => m.line_to(p),
        PathCmd::Quadratic(ctrl, to) => m.quadratic_bezier_to(ctrl, to),
        PathCmd::Cubic(ctrl1, ctrl2, to) => m.cubic_bezier_to(ctrl1, ctrl2, to),
        PathCmd::Close => m.close(),
    }
}

/// The effect of a run of builder calls, applied in order.
pub open spec fn apply_cmds(m: BuilderModel, cs: Seq<PathCmd>) -> BuilderModel
    decreases cs.len(),
{
    if cs.len() == 0 {
        m
    } else {
        apply_cmds(apply_cmd(m, cs[0]), cs.skip(1))
    }
}

/// Applying a run that starts with one call is that call, then the rest.
pub(crate) proof fn lemma_apply_one(m: BuilderModel, c: PathCmd, rest: Seq<PathCmd>)
    ensures
        apply_cmds(m, seq![c] + rest) == apply_cmds(apply_cmd(m, c), rest),
{
    assert((seq![c] + rest)[0] == c);
    assert((seq![c] + rest).skip(1) =~= rest);
}

/// Every builder call keeps the tag/point correspondence.
pub proof fn lemma_apply_cmd_wf(m: BuilderModel, c: PathCmd)
    ensures
        m.wf() ==> apply_cmd(m, c).wf(),
{
    match c {
        PathCmd::MoveTo(p) => lemma_move_to_wf(m, p),
        PathCmd::LineTo(p) => lemma_line_to_wf(m, p),
        PathCmd::Quadratic(ctrl, to) => lemma_quadratic_wf(m, ctrl, to),
        PathCmd::Cubic(ctrl1, ctrl2, to) => lemma_cubic_wf(m, ctrl1, ctrl2, to),
        PathCmd::Close => lemma_close_wf(m),
    }
}

/// A run of builder calls keeps the tag/point correspondence.
pub proof fn lemma_apply_cmds_wf(m: BuilderModel, cs: Seq<PathCmd>)
    ensures
        m.wf() ==> apply_cmds(m, cs).wf(),
    decreases cs.len(),
{
    if cs.len() > 0 {
        lemma_apply_cmd_wf(m, cs[0]);
        lemma_apply_cmds_wf(apply_cmd(m, cs[0]), cs.skip(1));
    }
}

/// The builder calls emitted by walking `verbs` backward against `points`,
/// with `pending_close` the state of the pending-close flag when the walk
/// reaches the last tag of `verbs`.
///
/// On a terminator the walk starts the reversed sub-path at the forward
/// sub-path's last point; a `Close` leaves a close pending until the
/// matching `Begin` is reached; segments are re-emitted with control points
/// and endpoint in reversed order.
pub open spec fn rev_cmds(verbs: Seq<Verb>, points: Seq<Point>, pending_close: bool) -> Seq<
    PathCmd,
>
    decreases verbs.len(),
{
    if verbs.len() == 0 {
        Seq::empty()
    } else {
        let p = total_arity(verbs) as int;
        let rest = verbs.drop_last();
        match verbs.last() {
            Verb::Close => seq![PathCmd::MoveTo(points[p - 1])] + rev_cmds(rest, points, true),
            Verb::End => seq![PathCmd::MoveTo(points[p - 1])] + rev_cmds(rest, points, false),
            Verb::Begin => (if pending_close {
                seq![PathCmd::Close]
            } else {
                Seq::empty()
            }) + rev_cmds(rest, points, false),
            Verb::LineTo => seq![PathCmd::LineTo(points[p - 2])] + rev_cmds(
                rest,
                points,
                pending_close,
            ),
            Verb::QuadraticTo => seq![PathCmd::Quadratic(points[p - 2], points[p - 3])] + rev_cmds(
                rest,
                points,
                pending_close,
            ),
            Verb::CubicTo => seq![
                PathCmd::Cubic(points[p - 2], points[p - 3], points[p - 4]),
            ] + rev_cmds(rest, points, pending_close),
        }
    }
}

/// A path whose backward walk never runs out of points: the tags consume
/// exactly the stored points, and every tag other than `Begin` has at
/// least one point-consuming tag somewhere before it.  Every path built
/// from sub-paths that start with `Begin` satisfies this.
pub open spec fn reversible(verbs: Seq<Verb>, points: Seq<Point>) -> bool {
    &&& total_arity(verbs) == points.len()
    &&& forall|i: int|
        #![trigger verbs[i]]
        0 <= i < verbs.len() && !(verbs[i] is Begin) ==> total_arity(verbs.take(i)) >= 1
}

/// Where a backward walk of a tag stream stands.
pub enum RevScan {
    /// Between sub-paths, with the destination builder at rest (fresh, or
    /// just closed): a terminator may come next.
    OutClosed,
    /// Between sub-paths, with the destination builder still owing the
    /// `End` of the sub-path it just finished replaying.
    OutOpen,
    /// Inside a sub-path whose terminator was `Close`: its reversed form
    /// will be closed when its `Begin` is reached.
    InClose,
    /// Inside a sub-path whose terminator was `End`.
    InEnd,
}

/// A tag stream made of whole sub-paths, scanned backward from state `st`:
/// each sub-path is `Begin`, segments, then `Close` or `End`, the tags
/// never out-run `points` (walking backward from index [`total_arity`]),
/// and a closed sub-path's last point is its start or lies outside the
/// snapping tolerance of it — as every stream a builder froze does, since
/// `close` snapped it.  `start` is the current sub-path's last point, the
/// reversed walk's `move_to` target, and is meaningful only inside one.
pub open spec fn rev_scannable(
    verbs: Seq<Verb>,
    points: Seq<Point>,
    st: RevScan,
    start: Point,
) -> bool
    decreases verbs.len(),
{
    if verbs.len() == 0 {
        st is OutClosed || st is OutOpen
    } else {
        let p = total_arity(verbs) as int;
        let rest = verbs.drop_last();
        match verbs.last() {
            Verb::Close => (st is OutClosed || st is OutOpen) && p >= 1 && rev_scannable(
                rest,
                points,
                RevScan::InClose,
                points[p - 1],
            ),
            Verb::End => (st is OutClosed || st is OutOpen) && p >= 1 && rev_scannable(
                rest,
                points,
                RevScan::InEnd,
                points[p - 1],
            ),
            Verb::Begin => (st is InClose || st is InEnd) && (st is InClose ==> (points[p - 1]
                == start || !l1_near(points[p - 1], start))) && rev_scannable(
                rest,
                points,
                if st is InClose {
                    RevScan::OutClosed
                } else {
                    RevScan::OutOpen
                },
                start,
            ),
            Verb::LineTo => (st is InClose || st is InEnd) && p >= 2 && rev_scannable(
                rest,
                points,
                st,
                start,
            ),
            Verb::QuadraticTo => (st is InClose || st is InEnd) && p >= 3 && rev_scannable(
                rest,
                points,
                st,
                start,
            ),
            Verb::CubicTo => (st is InClose || st is InEnd) && p >= 4 && rev_scannable(
                rest,
                points,
                st,
                start,
            ),
        }
    }
}

/// A whole path made of well-formed sub-paths, with tags and points in
/// exact correspondence: the shape [`reverse_path`] is meant for.
pub open spec fn reversal_wf(verbs: Seq<Verb>, points: Seq<Point>) -> bool {
    &&& total_arity(verbs) == points.len()
    &&& rev_scannable(verbs, points, RevScan::OutClosed, origin())
}

/// The tag stream of the reversed path: walking the input backward, each
/// terminator opens the reversed sub-path, segments keep their kind in
/// reverse order, and the input's `Begin` closes or ends the reversed
/// sub-path with the input's own terminator.
pub open spec fn rev_verbs_from(verbs: Seq<Verb>, st: RevScan) -> Seq<Verb>
    decreases verbs.len(),
{
    if verbs.len() == 0 {
        Seq::empty()
    } else {
        let rest = verbs.drop_last();
        match verbs.last() {
            Verb::Close => seq![Verb::Begin] + rev_verbs_from(rest, RevScan::InClose),
            Verb::End => seq![Verb::Begin] + rev_verbs_from(rest, RevScan::InEnd),
            Verb::Begin => (if st is InClose {
                seq![Verb::Close]
            } else if st is InEnd {
                seq![Verb::End]
            } else {
                Seq::empty()
            }) + rev_verbs_from(
                rest,
                if st is InClose {
                    RevScan::OutClosed
                } else {
                    RevScan::OutOpen
                },
            ),
            Verb::LineTo => seq![Verb::LineTo] + rev_verbs_from(rest, st),
            Verb::QuadraticTo => seq![Verb::QuadraticTo] + rev_verbs_from(rest, st),
            Verb::CubicTo => seq![Verb::CubicTo] + rev_verbs_from(rest, st),
        }
    }
}

/// The terminator the destination builder still owes in a scan state.
pub open spec fn rev_owed(st: RevScan) -> Seq<Verb> {
    if st is OutOpen {
        seq![Verb::End]
    } else {
        Seq::empty()
    }
}

/// How many points the remaining backward walk will still push: all the
/// points the remaining tags consume, except that inside a sub-path the
/// point at the walk's cursor was already pushed when the sub-path's
/// terminator was reached.
pub open spec fn rev_pushed(verbs: Seq<Verb>, st: RevScan) -> int {
    total_arity(verbs) - (if st is InClose || st is InEnd {
        1int
    } else {
        0int
    })
}

/// Replaying a scannable stream backward into a builder whose state
/// matches the scan state appends exactly the reversed tags and the
/// consumed points in reverse order, up to the owed terminator.
#[verifier::rlimit(100)]
#[verifier::spinoff_prover]
proof fn lemma_rev_build(
    verbs: Seq<Verb>,
    points: Seq<Point>,
    st: RevScan,
    start: Point,
    b: BuilderModel,
)
    requires
        rev_scannable(verbs, points, st, start),
        total_arity(verbs) <= points.len(),
        st is OutClosed ==> !b.needs_end() && b.need_moveto,
        st is OutOpen ==> b.needs_end() && !b.need_moveto,
        st is InClose || st is InEnd ==> b.needs_end() && !b.need_moveto && b.first == start
            && total_arity(verbs) >= 1 && b.points.len() > 0 && b.points.last() == points[
            total_arity(verbs) - 1
        ],
    ensures
        apply_cmds(b, rev_cmds(verbs, points, st is InClose)).end_if_needed().verbs == b.verbs
            + rev_owed(st) + rev_verbs_from(verbs, st),
        apply_cmds(b, rev_cmds(verbs, points, st is InClose)).end_if_needed().points == b.points
            + points.take(rev_pushed(verbs, st)).reverse(),
    decreases verbs.len(),
{
    let pending = st is InClose;
    if verbs.len() == 0 {
        assert(rev_cmds(verbs, points, pending) =~= Seq::<PathCmd>::empty());
        assert(b.end_if_needed().verbs =~= b.verbs + rev_owed(st) + rev_verbs_from(verbs, st));
        assert(points.take(0).reverse() =~= Seq::<Point>::empty());
        assert(b.end_if_needed().points =~= b.points + points.take(0).reverse());
    } else {
        let p = total_arity(verbs) as int;
        let rest = verbs.drop_last();
        assert(verbs =~= rest.push(verbs.last()));
        lemma_total_arity_push(rest, verbs.last());
        match verbs.last() {
            Verb::Close => {
                let c = PathCmd::MoveTo(points[p - 1]);
                let tail = rev_cmds(rest, points, true);
                assert(rev_cmds(verbs, points, pending) =~= seq![c] + tail);
                lemma_apply_one(b, c, tail);
                let bm = apply_cmd(b, c);
                lemma_rev_build(rest, points, RevScan::InClose, points[p - 1], bm);
                assert(bm.verbs =~= b.verbs + rev_owed(st) + seq![Verb::Begin]);
                assert(bm.verbs + rev_owed(RevScan::InClose) + rev_verbs_from(
                    rest,
                    RevScan::InClose,
                ) =~= b.verbs + rev_owed(st) + rev_verbs_from(verbs, st));
                assert(bm.points + points.take(rev_pushed(rest, RevScan::InClose)).reverse()
                    =~= b.points + points.take(rev_pushed(verbs, st)).reverse());
            },
            Verb::End => {
                let c = PathCmd::MoveTo(points[p - 1]);
                let tail = rev_cmds(rest, points, false);
                assert(rev_cmds(verbs, points, pending) =~= seq![c] + tail);
                lemma_apply_one(b, c, tail);
                let bm = apply_cmd(b, c);
                lemma_rev_build(rest, points, RevScan::InEnd, points[p - 1], bm);
                assert(bm.verbs =~= b.verbs + rev_owed(st) + seq![Verb::Begin]);
                assert(bm.verbs + rev_owed(RevScan::InEnd) + rev_verbs_from(rest, RevScan::InEnd)
                    =~= b.verbs + rev_owed(st) + rev_verbs_from(verbs, st));
                assert(bm.points + points.take(rev_pushed(rest, RevScan::InEnd)).reverse()
                    =~= b.points + points.take(rev_pushed(verbs, st)).reverse());
            },
            Verb::Begin => {
                if st is InClose {
                    let c = PathCmd::Close;
                    let tail = rev_cmds(rest, points, false);
                    assert(rev_cmds(verbs, points, pending) =~= seq![c] + tail);
                    lemma_apply_one(b, c, tail);
                    let bm = apply_cmd(b, c);
                    if l1_near(b.points.last(), b.first) {
                        assert(b.points.last() == b.first);
                        assert(bm.points =~= b.points);
                    } else {
                        assert(bm.points =~= b.points);
                    }
                    lemma_rev_build(rest, points, RevScan::OutClosed, start, bm);
                    assert(bm.verbs =~= b.verbs + rev_owed(st) + seq![Verb::Close]);
                    assert(bm.verbs + rev_owed(RevScan::OutClosed) + rev_verbs_from(
                        rest,
                        RevScan::OutClosed,
                    ) =~= b.verbs + rev_owed(st) + rev_verbs_from(verbs, st));
                    assert(bm.points + points.take(rev_pushed(rest, RevScan::OutClosed)).reverse()
                        =~= b.points + points.take(rev_pushed(verbs, st)).reverse());
                } else {
                    let tail = rev_cmds(rest, points, false);
                    assert(rev_cmds(verbs, points, pending) =~= tail);
                    lemma_rev_build(rest, points, RevScan::OutOpen, start, b);
                    assert(b.verbs + rev_owed(RevScan::OutOpen) + rev_verbs_from(
                        rest,
                        RevScan::OutOpen,
                    ) =~= b.verbs + rev_owed(st) + rev_verbs_from(verbs, st));
                    assert(points.take(rev_pushed(rest, RevScan::OutOpen)).reverse()
                        =~= points.take(rev_pushed(verbs, st)).reverse());
                }
            },
            Verb::LineTo => {
                let c = PathCmd::LineTo(points[p - 2]);
                let tail = rev_cmds(rest, points, pending);
                assert(rev_cmds(verbs, points, pending) =~= seq![c] + tail);
                lemma_apply_one(b, c, tail);
                let bm = apply_cmd(b, c);
                lemma_rev_build(rest, points, st, start, bm);
                assert(bm.verbs =~= b.verbs + rev_owed(st) + seq![Verb::LineTo]);
                assert(bm.verbs + rev_owed(st) + rev_verbs_from(rest, st) =~= b.verbs + rev_owed(
                    st,
                ) + rev_verbs_from(verbs, st));
                assert(bm.points + points.take(rev_pushed(rest, st)).reverse() =~= b.points
                    + points.take(rev_pushed(verbs, st)).reverse());
            },
            Verb::QuadraticTo => {
                let c = PathCmd::Quadratic(points[p - 2], points[p - 3]);
                let tail = rev_cmds(rest, points, pending);
                assert(rev_cmds(verbs, points, pending) =~= seq![c] + tail);
                lemma_apply_one(b, c, tail);
                let bm = apply_cmd(b, c);
                lemma_rev_build(rest, points, st, start, bm);
                assert(bm.verbs =~= b.verbs + rev_owed(st) + seq![Verb::QuadraticTo]);
                assert(bm.verbs + rev_owed(st) + rev_verbs_from(rest, st) =~= b.verbs + rev_owed(
                    st,
                ) + rev_verbs_from(verbs, st));
                assert(bm.points + points.take(rev_pushed(rest, st)).reverse() =~= b.points
                    + points.take(rev_pushed(verbs, st)).reverse());
            },
            Verb::CubicTo => {
                let c = PathCmd::Cubic(points[p - 2], points[p - 3], points[p - 4]);
                let tail = rev_cmds(rest, points, pending);
                assert(rev_cmds(verbs, points, pending) =~= seq![c] + tail);
                lemma_apply_one(b, c, tail);
                let bm = apply_cmd(b, c);
                lemma_rev_build(rest, points, st, start, bm);
                assert(bm.verbs =~= b.verbs + rev_owed(st) + seq![Verb::CubicTo]);
                assert(bm.verbs + rev_owed(st) + rev_verbs_from(rest, st) =~= b.verbs + rev_owed(
                    st,
                ) + rev_verbs_from(verbs, st));
                assert(bm.points + points.take(rev_pushed(rest, st)).reverse() =~= b.points
                    + points.take(rev_pushed(verbs, st)).reverse());
            },
        }
    }
}

/// Reversal characterization law: replaying a path of well-formed
/// sub-paths backward into a fresh builder and freezing yields exactly the
/// per-sub-path reversed tag stream and the point buffer in reverse order.
pub proof fn lemma_reverse_arrays(verbs: Seq<Verb>, points: Seq<Point>)
    requires
        reversal_wf(verbs, points),
    ensures
        apply_cmds(
            BuilderModel::fresh(),
            rev_cmds(verbs, points, false),
        ).end_if_needed().verbs == rev_verbs_from(verbs, RevScan::OutClosed),
        apply_cmds(
            BuilderModel::fresh(),
            rev_cmds(verbs, points, false),
        ).end_if_needed().points == points.reverse(),
{
    lemma_rev_build(
        verbs,
        points,
        RevScan::OutClosed,
        origin(),
        BuilderModel::fresh(),
    );
    assert(BuilderModel::fresh().verbs + rev_owed(RevScan::OutClosed) + rev_verbs_from(
        verbs,
        RevScan::OutClosed,
    ) =~= rev_verbs_from(verbs, RevScan::OutClosed));
    assert(points.take(rev_pushed(verbs, RevScan::OutClosed)) =~= points);
    assert(BuilderModel::fresh().points + points.reverse() =~= points.reverse());
}

/// One well-formed sub-path, as its own tags and points: a `Begin`
/// consuming `pts[0]`, the segments consuming the rest of `pts`, and a
/// terminator.  The paths the reversal laws speak of are concatenations of
/// these.
pub ghost struct SubPath {
    /// The segment tags, in order.
    pub segs: Seq<Verb>,
    /// Every point the sub-path consumes; `pts[0]` is the `Begin` point.
    pub pts: Seq<Point>,
    /// Whether the terminator is `Close` rather than `End`.
    pub closed: bool,
}

impl SubPath {
    /// Only segment tags, exactly one point more than they consume, and —
    /// for a closed sub-path — a last point that `close` has already
    /// snapped: equal to the start or outside the snapping tolerance.
    pub open spec fn wf(self) -> bool {
        &&& forall|i: int|
            0 <= i < self.segs.len() ==> (#[trigger] self.segs[i] is LineTo || self.segs[i]
                is QuadraticTo || self.segs[i] is CubicTo)
        &&& self.pts.len() == 1 + total_arity(self.segs)
        &&& self.closed ==> (self.pts.last() == self.pts[0] || !l1_near(self.pts.last(), self.pts[0]))
    }

    /// The terminator tag.
    pub open spec fn terminator(self) -> Verb {
        if self.closed {
            Verb::Close
        } else {
            Verb::End
        }
    }

    /// The sub-path's tag stream.
    pub open spec fn verbs(self) -> Seq<Verb> {
        seq![Verb::Begin] + self.segs + seq![self.terminator()]
    }

    /// The same sub-path traversed in the opposite direction: segments and
    /// points in reverse order, same terminator.
    pub open spec fn reversed(self) -> SubPath {
        SubPath { segs: self.segs.reverse(), pts: self.pts.reverse(), closed: self.closed }
    }
}

/// The tag stream of a run of sub-paths.
pub open spec fn sub_paths_verbs(cs: Seq<SubPath>) -> Seq<Verb>
    decreases cs.len(),
{
    if cs.len() == 0 {
        Seq::empty()
    } else {
        sub_paths_verbs(cs.drop_last()) + cs.last().verbs()
    }
}

/// The point buffer of a run of sub-paths.
pub open spec fn sub_paths_points(cs: Seq<SubPath>) -> Seq<Point>
    decreases cs.len(),
{
    if cs.len() == 0 {
        Seq::empty()
    } else {
        sub_paths_points(cs.drop_last()) + cs.last().pts
    }
}

/// Every sub-path of the run is well formed.
pub open spec fn sub_paths_wf(cs: Seq<SubPath>) -> bool {
    forall|i: int| 0 <= i < cs.len() ==> (#[trigger] cs[i]).wf()
}

/// The run that traverses each sub-path backward, in reverse order.
pub open spec fn reversed_sub_paths(cs: Seq<SubPath>) -> Seq<SubPath> {
    cs.reverse().map_values(|c: SubPath| c.reversed())
}

/// Replays `path` backward into `builder`: each sub-path is traversed in
/// the opposite direction, and the sub-paths come out in reverse order.
/// The calls fed into `builder` are exactly [`rev_cmds`] of the path.
pub fn reverse_path(path: PathSlice, builder: &mut Builder)
    requires
        reversible(path.verbs_seq(), path.points_seq()),
    ensures
        final(builder)@ == apply_cmds(
            old(builder)@,
            rev_cmds(path.verbs_seq(), path.points_seq(), false),
        ),
        old(builder)@.wf() ==> final(builder)@.wf(),
{
    let points: &[Point] = path.points;
    let verbs: &[Verb] = path.verbs;
    proof {
        crate::path::lemma_slice_parts(path);
    }
    let ghost target = apply_cmds(builder@, rev_cmds(verbs@, points@, false));
    // At each iteration, p is the count of points consumed by the tags not
    // yet walked, which places it just after the current tag's point group.
    let mut p: usize = points.len();
    let mut need_close: bool = false;
    let mut i: usize = verbs.len();
    proof {
        assert(verbs@.take(verbs@.len() as int) =~= verbs@);
    }
    while i > 0
        invariant
            i <= verbs@.len(),
            reversible(verbs@, points@),
            p == total_arity(verbs@.take(i as int)),
            p <= points@.len(),
            apply_cmds(builder@, rev_cmds(verbs@.take(i as int), points@, need_close)) == target,
        decreases i,
    {
        i = i - 1;
        let v = verbs[i];
        let ghost pre = verbs@.take(i as int + 1);
        let ghost b0 = builder@;
        let ghost nc0 = need_close;
        proof {
            assert(pre.last() == v);
            assert(pre.drop_last() =~= verbs@.take(i as int));
            lemma_total_arity_take_succ(verbs@, i as int);
            assert(verbs@.take(i as int) + verbs@.skip(i as int) =~= verbs@);
            lemma_total_arity_concat(verbs@.take(i as int), verbs@.skip(i as int));
        }
        match v {
            Verb::Close => {
                need_close = true;
                builder.move_to(points[p - 1]);
            },
            Verb::End => {
                need_close = false;
                builder.move_to(points[p - 1]);
            },
            Verb::Begin => {
                if need_close {
                    need_close = false;
                    builder.close();
                }
            },
            Verb::LineTo => {
                builder.line_to(points[p - 2]);
            },
            Verb::QuadraticTo => {
                builder.quadratic_bezier_to(points[p - 2], points[p - 3]);
            },
            Verb::CubicTo => {
                builder.cubic_bezier_to(points[p - 2], points[p - 3], points[p - 4]);
            },
        }
        proof {
            let rest = rev_cmds(verbs@.take(i as int), points@, need_close);
            match v {
                Verb::Close => {
                    let c = PathCmd::MoveTo(points@[p - 1]);
                    assert(rev_cmds(pre, points@, nc0) =~= seq![c] + rest);
                    lemma_apply_one(b0, c, rest);
                },
                Verb::End => {
                    let c = PathCmd::MoveTo(points@[p - 1]);
                    assert(rev_cmds(pre, points@, nc0) =~= seq![c] + rest);
                    lemma_apply_one(b0, c, rest);
                },
                Verb::Begin => {
                    if nc0 {
                        assert(rev_cmds(pre, points@, nc0) =~= seq![PathCmd::Close] + rest);
                        lemma_apply_one(b0, PathCmd::Close, rest);
                    } else {
                        assert(rev_cmds(pre, points@, nc0) =~= rest);
                    }
                },
                Verb::LineTo => {
                    let c = PathCmd::LineTo(points@[p - 2]);
                    assert(rev_cmds(pre, points@, nc0) =~= seq![c] + rest);
                    lemma_apply_one(b0, c, rest);
                },
                Verb::QuadraticTo => {
                    let c = PathCmd::Quadratic(points@[p - 2], points@[p - 3]);
                    assert(rev_cmds(pre, points@, nc0) =~= seq![c] + rest);
                    lemma_apply_one(b0, c, rest);
                },
                Verb::CubicTo => {
                    let c = PathCmd::Cubic(points@[p - 2], points@[p - 3], points@[p - 4]);
                    assert(rev_cmds(pre, points@, nc0) =~= seq![c] + rest);
                    lemma_apply_one(b0, c, rest);
                },
            }
        }
        p = p - n_stored_points(v) as usize;
    }
    proof {
        assert(verbs@.take(0) =~= Seq::<Verb>::empty());
        lemma_apply_cmds_wf(old(builder)@, rev_cmds(verbs@, points@, false));
    }
}

/// A well-formed sub-path's tags consume exactly its points.
proof fn lemma_sub_path_arity(c: SubPath)
    requires
        c.wf(),
    ensures
        total_arity(c.verbs()) == c.pts.len(),
{
    lemma_total_arity_concat(seq![Verb::Begin] + c.segs, seq![c.terminator()]);
    lemma_total_arity_concat(seq![Verb::Begin], c.segs);
    assert(seq![Verb::Begin] =~= Seq::<Verb>::empty().push(Verb::Begin));
    lemma_total_arity_push(Seq::<Verb>::empty(), Verb::Begin);
    assert(seq![c.terminator()] =~= Seq::<Verb>::empty().push(c.terminator()));
    lemma_total_arity_push(Seq::<Verb>::empty(), c.terminator());
}

/// Scanning reads points only below the stream's own arity, so appending
/// points changes nothing.
proof fn lemma_scan_points_extend(
    verbs: Seq<Verb>,
    points: Seq<Point>,
    more: Seq<Point>,
    st: RevScan,
    start: Point,
)
    requires
        rev_scannable(verbs, points, st, start),
        total_arity(verbs) <= points.len(),
    ensures
        rev_scannable(verbs, points + more, st, start),
    decreases verbs.len(),
{
    if verbs.len() > 0 {
        let p = total_arity(verbs) as int;
        let rest = verbs.drop_last();
        assert(verbs =~= rest.push(verbs.last()));
        lemma_total_arity_push(rest, verbs.last());
        assert((points + more)[p - 1] == points[p - 1]);
        match verbs.last() {
            Verb::Close => lemma_scan_points_extend(
                rest,
                points,
                more,
                RevScan::InClose,
                points[p - 1],
            ),
            Verb::End => lemma_scan_points_extend(rest, points, more, RevScan::InEnd, points[p - 1]),
            Verb::Begin => lemma_scan_points_extend(
                rest,
                points,
                more,
                if st is InClose {
                    RevScan::OutClosed
                } else {
                    RevScan::OutOpen
                },
                start,
            ),
            Verb::LineTo => lemma_scan_points_extend(rest, points, more, st, start),
            Verb::QuadraticTo => lemma_scan_points_extend(rest, points, more, st, start),
            Verb::CubicTo => lemma_scan_points_extend(rest, points, more, st, start),
        }
    }
}

/// A sub-path's body scans backward from the terminator's state down to
/// its `Begin`, given the stream before it scans from the state the
/// `Begin` hands over.
proof fn lemma_scan_chunk(
    a: Seq<Verb>,
    points: Seq<Point>,
    segs: Seq<Verb>,
    st: RevScan,
    start: Point,
)
    requires
        forall|i: int|
            0 <= i < segs.len() ==> (#[trigger] segs[i] is LineTo || segs[i] is QuadraticTo
                || segs[i] is CubicTo),
        st is InClose || st is InEnd,
        st is InClose ==> (points[total_arity(a) as int] == start || !l1_near(
            points[total_arity(a) as int],
            start,
        )),
        rev_scannable(
            a,
            points,
            if st is InClose {
                RevScan::OutClosed
            } else {
                RevScan::OutOpen
            },
            start,
        ),
    ensures
        rev_scannable(a + seq![Verb::Begin] + segs, points, st, start),
    decreases segs.len(),
{
    let v = a + seq![Verb::Begin] + segs;
    lemma_total_arity_concat(a + seq![Verb::Begin], segs);
    lemma_total_arity_concat(a, seq![Verb::Begin]);
    assert(seq![Verb::Begin] =~= Seq::<Verb>::empty().push(Verb::Begin));
    lemma_total_arity_push(Seq::<Verb>::empty(), Verb::Begin);
    if segs.len() == 0 {
        assert(v =~= (a + seq![Verb::Begin]));
        assert(v.last() == Verb::Begin);
        assert(v.drop_last() =~= a);
        assert(total_arity(v) == total_arity(a) + 1);
    } else {
        let s = segs.last();
        assert(v.last() == s);
        assert(v.drop_last() =~= a + seq![Verb::Begin] + segs.drop_last());
        lemma_total_arity_push(segs.drop_last(), s);
        assert(segs =~= segs.drop_last().push(s));
        lemma_scan_chunk(a, points, segs.drop_last(), st, start);
        assert(total_arity(v) == total_arity(a) + 1 + total_arity(segs));
    }
}

/// A run of well-formed sub-paths is scannable, and its tags consume
/// exactly its points.
pub proof fn lemma_scan_sub_paths(cs: Seq<SubPath>, st: RevScan, start: Point)
    requires
        sub_paths_wf(cs),
        st is OutClosed || st is OutOpen,
    ensures
        rev_scannable(sub_paths_verbs(cs), sub_paths_points(cs), st, start),
        total_arity(sub_paths_verbs(cs)) == sub_paths_points(cs).len(),
    decreases cs.len(),
{
    if cs.len() == 0 {
        assert(sub_paths_verbs(cs) =~= Seq::<Verb>::empty());
        assert(sub_paths_points(cs) =~= Seq::<Point>::empty());
    } else {
        let c = cs.last();
        assert(c.wf());
        let rest = cs.drop_last();
        assert(sub_paths_wf(rest)) by {
            assert(forall|i: int| 0 <= i < rest.len() ==> rest[i] == cs[i]);
        }
        let a = sub_paths_verbs(rest);
        let pp = sub_paths_points(rest);
        let points = sub_paths_points(cs);
        let verbs = sub_paths_verbs(cs);
        assert(points =~= pp + c.pts);
        lemma_sub_path_arity(c);
        lemma_total_arity_concat(a, c.verbs());
        let outk = if c.closed {
            RevScan::OutClosed
        } else {
            RevScan::OutOpen
        };
        lemma_scan_sub_paths(rest, outk, c.pts.last());
        lemma_scan_points_extend(a, pp, c.pts, outk, c.pts.last());
        // The terminator step: the walk starts the reversed sub-path at the
        // last point, then the body scans down to its `Begin`.
        let stin = if c.closed {
            RevScan::InClose
        } else {
            RevScan::InEnd
        };
        assert(points[total_arity(a) as int] == c.pts[0]);
        lemma_scan_chunk(a, points, c.segs, stin, c.pts.last());
        assert(verbs =~= (a + seq![Verb::Begin] + c.segs).push(c.terminator()));
        assert(verbs.last() == c.terminator());
        assert(verbs.drop_last() =~= a + seq![Verb::Begin] + c.segs);
        lemma_total_arity_push(a + seq![Verb::Begin] + c.segs, c.terminator());
        assert(total_arity(verbs) == pp.len() + c.pts.len());
        assert(points[total_arity(verbs) - 1] == c.pts.last());
    }
}

/// A scannable stream never out-runs its points walking backward.
proof fn lemma_scan_reversible_indices(verbs: Seq<Verb>, points: Seq<Point>, st: RevScan, start: Point)
    requires
        rev_scannable(verbs, points, st, start),
    ensures
        forall|i: int|
            #![trigger verbs[i]]
            0 <= i < verbs.len() && !(verbs[i] is Begin) ==> total_arity(verbs.take(i)) >= 1,
    decreases verbs.len(),
{
    if verbs.len() > 0 {
        let n = verbs.len() as int;
        let p = total_arity(verbs) as int;
        let rest = verbs.drop_last();
        assert(verbs =~= rest.push(verbs.last()));
        lemma_total_arity_push(rest, verbs.last());
        match verbs.last() {
            Verb::Close => lemma_scan_reversible_indices(
                rest,
                points,
                RevScan::InClose,
                points[p - 1],
            ),
            Verb::End => lemma_scan_reversible_indices(rest, points, RevScan::InEnd, points[p - 1]),
            Verb::Begin => lemma_scan_reversible_indices(
                rest,
                points,
                if st is InClose {
                    RevScan::OutClosed
                } else {
                    RevScan::OutOpen
                },
                start,
            ),
            Verb::LineTo => lemma_scan_reversible_indices(rest, points, st, start),
            Verb::QuadraticTo => lemma_scan_reversible_indices(rest, points, st, start),
            Verb::CubicTo => lemma_scan_reversible_indices(rest, points, st, start),
        }
        assert(verbs.take(n - 1) =~= rest);
        assert forall|i: int|
            0 <= i < verbs.len() && !((#[trigger] verbs[i]) is Begin) implies total_arity(
            verbs.take(i),
        ) >= 1 by {
            if i < n - 1 {
                assert(rest[i] == verbs[i]);
                assert(verbs.take(i) =~= rest.take(i));
            }
        }
    }
}

/// A path of well-formed sub-paths can be handed to [`reverse_path`].
pub proof fn lemma_reversal_wf_reversible(verbs: Seq<Verb>, points: Seq<Point>)
    requires
        reversal_wf(verbs, points),
    ensures
        reversible(verbs, points),
{
    lemma_scan_reversible_indices(verbs, points, RevScan::OutClosed, origin());
}

/// One backward step of the scan state.
pub open spec fn scan_step(v: Verb, st: RevScan) -> RevScan {
    match v {
        Verb::Close => RevScan::InClose,
        Verb::End => RevScan::InEnd,
        Verb::Begin => if st is InClose {
            RevScan::OutClosed
        } else {
            RevScan::OutOpen
        },
        _ => st,
    }
}

/// The scan state after walking a whole stream backward from `st`.
pub open spec fn scan_after(verbs: Seq<Verb>, st: RevScan) -> RevScan
    decreases verbs.len(),
{
    if verbs.len() == 0 {
        st
    } else {
        scan_after(verbs.drop_last(), scan_step(verbs.last(), st))
    }
}

/// The backward walk emits the right part's reversal first, then the left
/// part's, from the state the right part hands over.
proof fn lemma_rev_verbs_concat(a: Seq<Verb>, b: Seq<Verb>, st: RevScan)
    ensures
        rev_verbs_from(a + b, st) == rev_verbs_from(b, st) + rev_verbs_from(a, scan_after(b, st)),
    decreases b.len(),
{
    if b.len() == 0 {
        assert(a + b =~= a);
        assert(rev_verbs_from(b, st) + rev_verbs_from(a, st) =~= rev_verbs_from(a, st));
    } else {
        assert((a + b).last() == b.last());
        assert((a + b).drop_last() =~= a + b.drop_last());
        lemma_rev_verbs_concat(a, b.drop_last(), scan_step(b.last(), st));
        assert(rev_verbs_from(a + b, st) =~= rev_verbs_from(b, st) + rev_verbs_from(
            a,
            scan_after(b, st),
        ));
    }
}

/// The walk's first step reads the state only on a `Begin`, so a stream
/// that ends with a terminator (or is empty) reverses the same way from
/// any starting state.
proof fn lemma_rev_verbs_state_irrelevant(verbs: Seq<Verb>, st1: RevScan, st2: RevScan)
    requires
        verbs.len() == 0 || verbs.last() is Close || verbs.last() is End,
    ensures
        rev_verbs_from(verbs, st1) == rev_verbs_from(verbs, st2),
{
}

/// Walking a sub-path's `Begin` and segments backward from inside emits
/// the segments in reverse order and then the terminator.
proof fn lemma_rev_chunk_body(segs: Seq<Verb>, st: RevScan)
    requires
        forall|i: int|
            0 <= i < segs.len() ==> (#[trigger] segs[i] is LineTo || segs[i] is QuadraticTo
                || segs[i] is CubicTo),
        st is InClose || st is InEnd,
    ensures
        rev_verbs_from(seq![Verb::Begin] + segs, st) == segs.reverse() + seq![
            if st is InClose {
                Verb::Close
            } else {
                Verb::End
            },
        ],
    decreases segs.len(),
{
    let v = seq![Verb::Begin] + segs;
    let t = if st is InClose {
        Verb::Close
    } else {
        Verb::End
    };
    if segs.len() == 0 {
        reveal_with_fuel(rev_verbs_from, 2);
        assert(v.last() == Verb::Begin);
        assert(v.drop_last() =~= Seq::<Verb>::empty());
        assert(segs.reverse() =~= Seq::<Verb>::empty());
        assert(rev_verbs_from(v, st) =~= segs.reverse() + seq![t]);
    } else {
        let s = segs.last();
        assert(s is LineTo || s is QuadraticTo || s is CubicTo) by {
            assert(segs[segs.len() - 1] == s);
        }
        assert(v.last() == s);
        assert(v.drop_last() =~= seq![Verb::Begin] + segs.drop_last());
        lemma_rev_chunk_body(segs.drop_last(), st);
        assert(segs.reverse() =~= seq![s] + segs.drop_last().reverse());
        assert(rev_verbs_from(v, st) =~= segs.reverse() + seq![t]);
    }
}

/// A whole sub-path reverses, from any state, to its reversed form.
proof fn lemma_rev_chunk(c: SubPath, st: RevScan)
    requires
        c.wf(),
    ensures
        rev_verbs_from(c.verbs(), st) == c.reversed().verbs(),
{
    let v = c.verbs();
    assert(v.last() == c.terminator());
    assert(v.drop_last() =~= seq![Verb::Begin] + c.segs);
    let stin = if c.closed {
        RevScan::InClose
    } else {
        RevScan::InEnd
    };
    lemma_rev_chunk_body(c.segs, stin);
    assert(rev_verbs_from(v, st) =~= seq![Verb::Begin] + c.segs.reverse() + seq![c.terminator()]);
    assert(c.reversed().verbs() =~= seq![Verb::Begin] + c.segs.reverse() + seq![c.terminator()]);
}

/// Peeling the first sub-path off a run.
proof fn lemma_sub_paths_head(c: SubPath, rest: Seq<SubPath>)
    ensures
        sub_paths_verbs(seq![c] + rest) == c.verbs() + sub_paths_verbs(rest),
        sub_paths_points(seq![c] + rest) == c.pts + sub_paths_points(rest),
    decreases rest.len(),
{
    let cs = seq![c] + rest;
    if rest.len() == 0 {
        reveal_with_fuel(sub_paths_verbs, 2);
        reveal_with_fuel(sub_paths_points, 2);
        assert(cs.drop_last() =~= Seq::<SubPath>::empty());
        assert(rest =~= Seq::<SubPath>::empty());
        assert(cs.last() == c);
        assert(sub_paths_verbs(cs) =~= c.verbs() + sub_paths_verbs(rest));
        assert(sub_paths_points(cs) =~= c.pts + sub_paths_points(rest));
    } else {
        assert(cs.last() == rest.last());
        assert(cs.drop_last() =~= seq![c] + rest.drop_last());
        lemma_sub_paths_head(c, rest.drop_last());
        assert(sub_paths_verbs(cs) =~= c.verbs() + sub_paths_verbs(rest));
        assert(sub_paths_points(cs) =~= c.pts + sub_paths_points(rest));
    }
}

/// A run of well-formed sub-paths ends with a terminator, or is empty.
proof fn lemma_sub_paths_ends_terminated(cs: Seq<SubPath>)
    ensures
        sub_paths_verbs(cs).len() == 0 || sub_paths_verbs(cs).last() is Close || sub_paths_verbs(
            cs,
        ).last() is End,
{
    if cs.len() > 0 {
        assert(sub_paths_verbs(cs).last() == cs.last().terminator());
    }
}

/// Reversing the tags of a run of sub-paths yields the tags of the
/// reversed run.
pub proof fn lemma_rev_verbs_sub_paths(cs: Seq<SubPath>, st: RevScan)
    requires
        sub_paths_wf(cs),
    ensures
        rev_verbs_from(sub_paths_verbs(cs), st) == sub_paths_verbs(reversed_sub_paths(cs)),
    decreases cs.len(),
{
    if cs.len() == 0 {
        assert(reversed_sub_paths(cs) =~= Seq::<SubPath>::empty());
    } else {
        let c = cs.last();
        assert(c.wf());
        let rest = cs.drop_last();
        assert(sub_paths_wf(rest)) by {
            assert(forall|i: int| 0 <= i < rest.len() ==> rest[i] == cs[i]);
        }
        let a = sub_paths_verbs(rest);
        lemma_rev_verbs_concat(a, c.verbs(), st);
        lemma_rev_chunk(c, st);
        lemma_sub_paths_ends_terminated(rest);
        lemma_rev_verbs_state_irrelevant(a, scan_after(c.verbs(), st), st);
        lemma_rev_verbs_sub_paths(rest, st);
        assert(reversed_sub_paths(cs) =~= seq![c.reversed()] + reversed_sub_paths(rest)) by {
            assert(cs.reverse()[0] == c);
            assert(forall|i: int|
                1 <= i < cs.len() ==> cs.reverse()[i] == #[trigger] rest.reverse()[i - 1]);
        }
        lemma_sub_paths_head(c.reversed(), reversed_sub_paths(rest));
    }
}

/// Reversing the points of a run of sub-paths yields the points of the
/// reversed run.
pub proof fn lemma_rev_points_sub_paths(cs: Seq<SubPath>)
    ensures
        sub_paths_points(cs).reverse() == sub_paths_points(reversed_sub_paths(cs)),
    decreases cs.len(),
{
    if cs.len() == 0 {
        assert(sub_paths_points(cs).reverse() =~= Seq::<Point>::empty());
        assert(reversed_sub_paths(cs) =~= Seq::<SubPath>::empty());
    } else {
        let c = cs.last();
        let rest = cs.drop_last();
        lemma_rev_points_sub_paths(rest);
        assert(reversed_sub_paths(cs) =~= seq![c.reversed()] + reversed_sub_paths(rest)) by {
            assert(cs.reverse()[0] == c);
            assert(forall|i: int|
                1 <= i < cs.len() ==> cs.reverse()[i] == #[trigger] rest.reverse()[i - 1]);
        }
        lemma_sub_paths_head(c.reversed(), reversed_sub_paths(rest));
        assert(sub_paths_points(cs).reverse() =~= c.pts.reverse() + sub_paths_points(
            rest,
        ).reverse());
    }
}

/// Arity is blind to order.
proof fn lemma_total_arity_reverse(s: Seq<Verb>)
    ensures
        total_arity(s.reverse()) == total_arity(s),
    decreases s.len(),
{
    if s.len() > 0 {
        assert(s.reverse() =~= seq![s.last()] + s.drop_last().reverse());
        lemma_total_arity_concat(seq![s.last()], s.drop_last().reverse());
        assert(seq![s.last()] =~= Seq::<Verb>::empty().push(s.last()));
        lemma_total_arity_push(Seq::<Verb>::empty(), s.last());
        lemma_total_arity_reverse(s.drop_last());
        assert(s =~= s.drop_last().push(s.last()));
        lemma_total_arity_push(s.drop_last(), s.last());
    }
}

/// Reversing keeps every sub-path well formed: the snapping condition is
/// symmetric in the two endpoints.
pub proof fn lemma_reversed_sub_paths_wf(cs: Seq<SubPath>)
    requires
        sub_paths_wf(cs),
    ensures
        sub_paths_wf(reversed_sub_paths(cs)),
{
    let rev = reversed_sub_paths(cs);
    assert forall|i: int| 0 <= i < rev.len() implies (#[trigger] rev[i]).wf() by {
        let c = cs.reverse()[i];
        assert(c == cs[cs.len() - 1 - i]);
        assert(c.wf());
        assert(rev[i] == c.reversed());
        lemma_total_arity_reverse(c.segs);
        assert(c.reversed().pts.last() == c.pts[0]);
        assert(c.reversed().pts[0] == c.pts.last());
        assert(forall|j: int|
            0 <= j < c.segs.len() ==> #[trigger] c.segs.reverse()[j] == c.segs[c.segs.len() - 1
                - j]);
    }
}

/// Reversing a run of sub-paths twice gives the run back.
pub proof fn lemma_reversed_sub_paths_involution(cs: Seq<SubPath>)
    ensures
        reversed_sub_paths(reversed_sub_paths(cs)) == cs,
{
    let rev = reversed_sub_paths(cs);
    let rr = reversed_sub_paths(rev);
    assert forall|i: int| 0 <= i < cs.len() implies rr[i] == cs[i] by {
        assert(rev.reverse()[i] == rev[cs.len() - 1 - i]);
        assert(rev[cs.len() - 1 - i] == cs.reverse()[cs.len() - 1 - i].reversed());
        assert(cs.reverse()[cs.len() - 1 - i] == cs[i]);
        assert(cs[i].segs.reverse().reverse() =~= cs[i].segs);
        assert(cs[i].pts.reverse().reverse() =~= cs[i].pts);
    }
    assert(rr =~= cs);
}

/// Reversal involution law: a path made of well-formed sub-paths, replayed
/// backward into a fresh builder, frozen, and replayed backward again,
/// yields identical tag and point arrays — so it also replays to the same
/// events.  `close` has already snapped each closed sub-path, so the snap
/// during reversal moves no point.
pub proof fn lemma_reverse_involution(cs: Seq<SubPath>)
    requires
        sub_paths_wf(cs),
    ensures
        ({
            let verbs = sub_paths_verbs(cs);
            let points = sub_paths_points(cs);
            let first = apply_cmds(
                BuilderModel::fresh(),
                rev_cmds(verbs, points, false),
            ).end_if_needed();
            let second = apply_cmds(
                BuilderModel::fresh(),
                rev_cmds(first.verbs, first.points, false),
            ).end_if_needed();
            second.verbs == verbs && second.points == points
        }),
{
    let verbs = sub_paths_verbs(cs);
    let points = sub_paths_points(cs);
    let rev = reversed_sub_paths(cs);
    lemma_scan_sub_paths(cs, RevScan::OutClosed, origin());
    lemma_reverse_arrays(verbs, points);
    lemma_rev_verbs_sub_paths(cs, RevScan::OutClosed);
    lemma_rev_points_sub_paths(cs);
    lemma_reversed_sub_paths_wf(cs);
    lemma_scan_sub_paths(rev, RevScan::OutClosed, origin());
    lemma_reverse_arrays(sub_paths_verbs(rev), sub_paths_points(rev));
    lemma_rev_verbs_sub_paths(rev, RevScan::OutClosed);
    lemma_rev_points_sub_paths(rev);
    lemma_reversed_sub_paths_involution(cs);
}

} // verus!
