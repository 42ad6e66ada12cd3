//! Laws relating the library's operations to each other.
//!
//! Each public proof function here states one property of the whole
//! library over the spec functions its contracts are written in.

use vstd::prelude::*;

use crate::builder::{snap_points, BuilderModel, QuadraticSegment};
use crate::events::{
    event_kind, events_from, id_events_from, lemma_events_len, lemma_id_events_len, total_arity,
    PathEvent, Verb,
};
use crate::geometry::{l1_near, origin, Point};
use crate::path::Path;
use crate::reverse::{apply_cmd, apply_cmds, lemma_apply_one, PathCmd};

verus! {

/// Each event's kind is the tag that produced it.
proof fn lemma_events_kinds(verbs: Seq<Verb>, points: Seq<Point>, cur: Point, fst: Point)
    ensures
        forall|k: int|
            0 <= k < verbs.len() ==> event_kind(
                #[trigger] events_from(verbs, points, cur, fst)[k],
            ) == verbs[k],
    decreases verbs.len(),
{
    lemma_events_len(verbs, points, cur, fst);
    if verbs.len() > 0 {
        let tail_verbs = verbs.skip(1);
        match verbs[0] {
            Verb::Begin => {
                lemma_events_kinds(tail_verbs, points.skip(1), points[0], points[0]);
                lemma_events_len(tail_verbs, points.skip(1), points[0], points[0]);
            },
            Verb::LineTo => {
                lemma_events_kinds(tail_verbs, points.skip(1), points[0], fst);
                lemma_events_len(tail_verbs, points.skip(1), points[0], fst);
            },
            Verb::QuadraticTo => {
                lemma_events_kinds(tail_verbs, points.skip(2), points[1], fst);
                lemma_events_len(tail_verbs, points.skip(2), points[1], fst);
            },
            Verb::CubicTo => {
                lemma_events_kinds(tail_verbs, points.skip(3), points[2], fst);
                lemma_events_len(tail_verbs, points.skip(3), points[2], fst);
            },
            Verb::Close => {
                lemma_events_kinds(tail_verbs, points, fst, fst);
                lemma_events_len(tail_verbs, points, fst, fst);
            },
            Verb::End => {
                lemma_events_kinds(tail_verbs, points, fst, fst);
                lemma_events_len(tail_verbs, points, fst, fst);
            },
        }
    }
}

/// Each index-level event's kind is also the tag that produced it.
proof fn lemma_id_events_kinds(verbs: Seq<Verb>, next: nat, last_ep: nat, fst: nat)
    ensures
        forall|k: int|
            0 <= k < verbs.len() ==> event_kind(
                #[trigger] id_events_from(verbs, next, last_ep, fst)[k],
            ) == verbs[k],
    decreases verbs.len(),
{
    lemma_id_events_len(verbs, next, last_ep, fst);
    if verbs.len() > 0 {
        let tail_verbs = verbs.skip(1);
        match verbs[0] {
            Verb::Begin => {
                lemma_id_events_kinds(tail_verbs, next + 1, next, next);
                lemma_id_events_len(tail_verbs, next + 1, next, next);
            },
            Verb::LineTo => {
                lemma_id_events_kinds(tail_verbs, next + 1, next, fst);
                lemma_id_events_len(tail_verbs, next + 1, next, fst);
            },
            Verb::QuadraticTo => {
                lemma_id_events_kinds(tail_verbs, next + 2, next + 1, fst);
                lemma_id_events_len(tail_verbs, next + 2, next + 1, fst);
            },
            Verb::CubicTo => {
                lemma_id_events_kinds(tail_verbs, next + 3, next + 2, fst);
                lemma_id_events_len(tail_verbs, next + 3, next + 2, fst);
            },
            Verb::Close => {
                lemma_id_events_kinds(tail_verbs, next, fst, fst);
                lemma_id_events_len(tail_verbs, next, fst, fst);
            },
            Verb::End => {
                lemma_id_events_kinds(tail_verbs, next, fst, fst);
                lemma_id_events_len(tail_verbs, next, fst, fst);
            },
        }
    }
}

/// Event/identifier lock-step law: over the same path, the value-level
/// iterator and the index-level iterator produce event sequences of the
/// same length whose kinds agree tag for tag — both equal the path's tag
/// stream.
pub proof fn lemma_event_id_lock_step(path: Path)
    ensures
        path.events().len() == path.verbs_seq().len(),
        path.id_events().len() == path.verbs_seq().len(),
        forall|k: int|
            0 <= k < path.verbs_seq().len() ==> event_kind(#[trigger] path.events()[k])
                == path.verbs_seq()[k],
        forall|k: int|
            0 <= k < path.verbs_seq().len() ==> event_kind(#[trigger] path.id_events()[k])
                == path.verbs_seq()[k],
{
    lemma_events_len(path.verbs_seq(), path.points_seq(), origin(), origin());
    lemma_id_events_len(path.verbs_seq(), 0, 0, 0);
    lemma_events_kinds(path.verbs_seq(), path.points_seq(), origin(), origin());
    lemma_id_events_kinds(path.verbs_seq(), 0, 0, 0);
}

/// Replay does not depend on the starting positions when the tag stream
/// opens with a `Begin` (or is empty): the `Begin` resets them.
proof fn lemma_events_begin_independent(
    verbs: Seq<Verb>,
    points: Seq<Point>,
    cur1: Point,
    fst1: Point,
    cur2: Point,
    fst2: Point,
)
    requires
        verbs.len() == 0 || verbs[0] is Begin,
    ensures
        events_from(verbs, points, cur1, fst1) == events_from(verbs, points, cur2, fst2),
{
}

/// Replaying concatenated arrays is replaying the first pair, then the
/// second, as long as the first pair's tags consume exactly its points and
/// the second tag stream opens with a `Begin` (or is empty).
proof fn lemma_events_append(
    av: Seq<Verb>,
    ap: Seq<Point>,
    bv: Seq<Verb>,
    bp: Seq<Point>,
    cur: Point,
    fst: Point,
)
    requires
        total_arity(av) == ap.len(),
        bv.len() == 0 || bv[0] is Begin,
    ensures
        events_from(av + bv, ap + bp, cur, fst) == events_from(av, ap, cur, fst) + events_from(
            bv,
            bp,
            origin(),
            origin(),
        ),
    decreases av.len(),
{
    if av.len() == 0 {
        assert(av + bv =~= bv);
        assert(ap + bp =~= bp);
        lemma_events_begin_independent(bv, bp, cur, fst, origin(), origin());
        assert(events_from(av, ap, cur, fst) =~= Seq::<PathEvent>::empty());
        assert(events_from(av, ap, cur, fst) + events_from(bv, bp, origin(), origin())
            =~= events_from(bv, bp, origin(), origin()));
    } else {
        let cv = av + bv;
        let cp = ap + bp;
        assert(cv[0] == av[0]);
        assert(cv.skip(1) =~= av.skip(1) + bv);
        match av[0] {
            Verb::Begin => {
                assert(cp[0] == ap[0]);
                assert(cp.skip(1) =~= ap.skip(1) + bp);
                lemma_events_append(av.skip(1), ap.skip(1), bv, bp, ap[0], ap[0]);
            },
            Verb::LineTo => {
                assert(cp[0] == ap[0]);
                assert(cp.skip(1) =~= ap.skip(1) + bp);
                lemma_events_append(av.skip(1), ap.skip(1), bv, bp, ap[0], fst);
            },
            Verb::QuadraticTo => {
                assert(cp[0] == ap[0]);
                assert(cp[1] == ap[1]);
                assert(cp.skip(2) =~= ap.skip(2) + bp);
                lemma_events_append(av.skip(1), ap.skip(2), bv, bp, ap[1], fst);
            },
            Verb::CubicTo => {
                assert(cp[0] == ap[0]);
                assert(cp[1] == ap[1]);
                assert(cp[2] == ap[2]);
                assert(cp.skip(3) =~= ap.skip(3) + bp);
                lemma_events_append(av.skip(1), ap.skip(3), bv, bp, ap[2], fst);
            },
            Verb::Close => {
                lemma_events_append(av.skip(1), ap, bv, bp, fst, fst);
            },
            Verb::End => {
                lemma_events_append(av.skip(1), ap, bv, bp, fst, fst);
            },
        }
    }
}

/// Merge law: a path whose arrays are the concatenation of two paths'
/// arrays replays as the first path's events followed by the second's,
/// with no interleaving, whenever the second path opens with a `Begin` (or
/// is empty).  Together with the contract of [`Path::merge`] — which also
/// says that neither operand is touched — this pins down merged replay
/// completely.
pub proof fn lemma_merge_events(a: Path, b: Path, m: Path)
    requires
        a.wf(),
        b.verbs_seq().len() == 0 || b.verbs_seq()[0] is Begin,
        m.verbs_seq() == a.verbs_seq() + b.verbs_seq(),
        m.points_seq() == a.points_seq() + b.points_seq(),
    ensures
        m.events() == a.events() + b.events(),
{
    lemma_events_append(
        a.verbs_seq(),
        a.points_seq(),
        b.verbs_seq(),
        b.points_seq(),
        origin(),
        origin(),
    );
}

/// Where a scan of a tag stream stands, between sub-paths and inside them.
pub enum BuildState {
    /// Fresh, or just after a `Close`: a new sub-path or another bare
    /// `Close` may come.
    Closed,
    /// Just after an `End`: the builder defers pushing that `End` until the
    /// next sub-path starts, so only a `Begin` (or the end of the stream)
    /// may come.
    Ended,
    /// Inside a sub-path, after its `Begin` or a segment: more segments or
    /// a terminator may come.
    Open,
}

/// The builder calls that feeding one event back into a builder makes:
/// `Begin` becomes `move_to`, segments become their segment calls, a
/// closing `End` becomes `close`, and a non-closing `End` becomes nothing.
pub open spec fn replay_cmd_of(e: PathEvent) -> Seq<PathCmd> {
    match e {
        PathEvent::Begin { at } => seq![PathCmd::MoveTo(at)],
        PathEvent::Line { from, to } => seq![PathCmd::LineTo(to)],
        PathEvent::Quadratic { from, ctrl, to } => seq![PathCmd::Quadratic(ctrl, to)],
        PathEvent::Cubic { from, ctrl1, ctrl2, to } => seq![PathCmd::Cubic(ctrl1, ctrl2, to)],
        PathEvent::End { last, first, close } => if close {
            seq![PathCmd::Close]
        } else {
            Seq::empty()
        },
    }
}

/// The builder calls that feeding a whole event sequence back makes.
pub open spec fn replay_cmds(events: Seq<PathEvent>) -> Seq<PathCmd>
    decreases events.len(),
{
    if events.len() == 0 {
        Seq::empty()
    } else {
        replay_cmd_of(events[0]) + replay_cmds(events.skip(1))
    }
}

/// The terminator a scan state still owes to the stream: after an `End`
/// the builder has not pushed it yet.
pub open spec fn owed_end(st: BuildState) -> Seq<Verb> {
    match st {
        BuildState::Ended => seq![Verb::End],
        _ => Seq::empty(),
    }
}

/// Whether a builder scanning from state `st` — with `fst` the current
/// sub-path start, `last` the most recent point (meaningful when `has`) —
/// could have produced exactly `verbs` against `points`.
///
/// This is the shape every stream frozen by [`crate::Builder::build`] from
/// a fresh builder has: sub-paths open with `Begin`, segments follow only
/// an open sub-path, terminators close one, a `Close` may also stand alone,
/// and a closed sub-path's last point is never left un-snapped within the
/// snapping tolerance of its start.
pub open spec fn buildable_from(
    verbs: Seq<Verb>,
    points: Seq<Point>,
    fst: Point,
    last: Point,
    has: bool,
    st: BuildState,
) -> bool
    decreases verbs.len(),
{
    if verbs.len() == 0 {
        points.len() == 0 && !(st is Open)
    } else {
        match verbs[0] {
            Verb::Begin => (st is Closed || st is Ended) && points.len() >= 1 && buildable_from(
                verbs.skip(1),
                points.skip(1),
                points[0],
                points[0],
                true,
                BuildState::Open,
            ),
            Verb::LineTo => st is Open && points.len() >= 1 && buildable_from(
                verbs.skip(1),
                points.skip(1),
                fst,
                points[0],
                true,
                BuildState::Open,
            ),
            Verb::QuadraticTo => st is Open && points.len() >= 2 && buildable_from(
                verbs.skip(1),
                points.skip(2),
                fst,
                points[1],
                true,
                BuildState::Open,
            ),
            Verb::CubicTo => st is Open && points.len() >= 3 && buildable_from(
                verbs.skip(1),
                points.skip(3),
                fst,
                points[2],
                true,
                BuildState::Open,
            ),
            Verb::Close => (st is Closed || st is Open) && (has ==> (last == fst || !l1_near(
                last,
                fst,
            ))) && buildable_from(verbs.skip(1), points, fst, last, has, BuildState::Closed),
            Verb::End => st is Open && buildable_from(
                verbs.skip(1),
                points,
                fst,
                last,
                has,
                BuildState::Ended,
            ),
        }
    }
}

/// Whether a fresh builder could have produced exactly `verbs` against
/// `points`.
pub open spec fn buildable(verbs: Seq<Verb>, points: Seq<Point>) -> bool {
    buildable_from(verbs, points, origin(), origin(), false, BuildState::Closed)
}

/// Replaying a buildable suffix into a builder whose state matches the
/// scan state reproduces the suffix exactly, up to the owed terminator.
proof fn lemma_replay_from(
    verbs: Seq<Verb>,
    points: Seq<Point>,
    cur: Point,
    fst: Point,
    b: BuilderModel,
    last: Point,
    has: bool,
    st: BuildState,
)
    requires
        buildable_from(verbs, points, fst, last, has, st),
        st is Closed ==> !b.needs_end() && b.need_moveto,
        !(st is Closed) ==> b.needs_end() && !b.need_moveto,
        b.first == fst,
        has ==> b.points.len() > 0 && b.points.last() == last,
        (!has) ==> b.points.len() == 0,
    ensures
        apply_cmds(b, replay_cmds(events_from(verbs, points, cur, fst))).end_if_needed().verbs
            == b.verbs + owed_end(st) + verbs,
        apply_cmds(b, replay_cmds(events_from(verbs, points, cur, fst))).end_if_needed().points
            == b.points + points,
    decreases verbs.len(),
{
    let events = events_from(verbs, points, cur, fst);
    if verbs.len() == 0 {
        assert(replay_cmds(events) =~= Seq::<PathCmd>::empty());
        assert(b.end_if_needed().verbs =~= b.verbs + owed_end(st) + verbs);
        assert(b.end_if_needed().points =~= b.points + points);
    } else {
        match verbs[0] {
            Verb::Begin => {
                let e = PathEvent::Begin { at: points[0] };
                let rest = events_from(verbs.skip(1), points.skip(1), points[0], points[0]);
                assert(events[0] == e);
                assert(events.skip(1) =~= rest);
                let c = PathCmd::MoveTo(points[0]);
                assert(replay_cmds(events) == seq![c] + replay_cmds(rest));
                lemma_apply_one(b, c, replay_cmds(rest));
                let bm = apply_cmd(b, c);
                lemma_replay_from(
                    verbs.skip(1),
                    points.skip(1),
                    points[0],
                    points[0],
                    bm,
                    points[0],
                    true,
                    BuildState::Open,
                );
                assert(bm.verbs + owed_end(BuildState::Open) + verbs.skip(1) =~= b.verbs
                    + owed_end(st) + verbs);
                assert(bm.points + points.skip(1) =~= b.points + points);
            },
            Verb::LineTo => {
                let e = PathEvent::Line { from: cur, to: points[0] };
                let rest = events_from(verbs.skip(1), points.skip(1), points[0], fst);
                assert(events[0] == e);
                assert(events.skip(1) =~= rest);
                let c = PathCmd::LineTo(points[0]);
                assert(replay_cmds(events) == seq![c] + replay_cmds(rest));
                lemma_apply_one(b, c, replay_cmds(rest));
                let bm = apply_cmd(b, c);
                lemma_replay_from(
                    verbs.skip(1),
                    points.skip(1),
                    points[0],
                    fst,
                    bm,
                    points[0],
                    true,
                    BuildState::Open,
                );
                assert(bm.verbs + owed_end(BuildState::Open) + verbs.skip(1) =~= b.verbs
                    + owed_end(st) + verbs);
                assert(bm.points + points.skip(1) =~= b.points + points);
            },
            Verb::QuadraticTo => {
                let e = PathEvent::Quadratic { from: cur, ctrl: points[0], to: points[1] };
                let rest = events_from(verbs.skip(1), points.skip(2), points[1], fst);
                assert(events[0] == e);
                assert(events.skip(1) =~= rest);
                let c = PathCmd::Quadratic(points[0], points[1]);
                assert(replay_cmds(events) == seq![c] + replay_cmds(rest));
                lemma_apply_one(b, c, replay_cmds(rest));
                let bm = apply_cmd(b, c);
                lemma_replay_from(
                    verbs.skip(1),
                    points.skip(2),
                    points[1],
                    fst,
                    bm,
                    points[1],
                    true,
                    BuildState::Open,
                );
                assert(bm.verbs + owed_end(BuildState::Open) + verbs.skip(1) =~= b.verbs
                    + owed_end(st) + verbs);
                assert(bm.points + points.skip(2) =~= b.points + points);
            },
            Verb::CubicTo => {
                let e = PathEvent::Cubic {
                    from: cur,
                    ctrl1: points[0],
                    ctrl2: points[1],
                    to: points[2],
                };
                let rest = events_from(verbs.skip(1), points.skip(3), points[2], fst);
                assert(events[0] == e);
                assert(events.skip(1) =~= rest);
                let c = PathCmd::Cubic(points[0], points[1], points[2]);
                assert(replay_cmds(events) == seq![c] + replay_cmds(rest));
                lemma_apply_one(b, c, replay_cmds(rest));
                let bm = apply_cmd(b, c);
                lemma_replay_from(
                    verbs.skip(1),
                    points.skip(3),
                    points[2],
                    fst,
                    bm,
                    points[2],
                    true,
                    BuildState::Open,
                );
                assert(bm.verbs + owed_end(BuildState::Open) + verbs.skip(1) =~= b.verbs
                    + owed_end(st) + verbs);
                assert(bm.points + points.skip(3) =~= b.points + points);
            },
            Verb::Close => {
                let e = PathEvent::End { last: cur, first: fst, close: true };
                let rest = events_from(verbs.skip(1), points, fst, fst);
                assert(events[0] == e);
                assert(events.skip(1) =~= rest);
                let c = PathCmd::Close;
                assert(replay_cmds(events) == seq![c] + replay_cmds(rest));
                lemma_apply_one(b, c, replay_cmds(rest));
                let bm = apply_cmd(b, c);
                // The snap is a no-op: the scanned stream's last point is
                // the builder's, and it is the sub-path start or lies
                // outside the tolerance.
                if has && l1_near(b.points.last(), b.first) {
                    assert(b.points.last() == b.first);
                    assert(bm.points =~= b.points);
                } else {
                    assert(bm.points =~= b.points);
                }
                lemma_replay_from(verbs.skip(1), points, fst, fst, bm, last, has, BuildState::Closed);
                assert(bm.verbs + owed_end(BuildState::Closed) + verbs.skip(1) =~= b.verbs
                    + owed_end(st) + verbs);
                assert(bm.points + points =~= b.points + points);
            },
            Verb::End => {
                let e = PathEvent::End { last: cur, first: fst, close: false };
                let rest = events_from(verbs.skip(1), points, fst, fst);
                assert(events[0] == e);
                assert(events.skip(1) =~= rest);
                assert(replay_cmds(events) =~= replay_cmds(rest));
                lemma_replay_from(verbs.skip(1), points, fst, fst, b, last, has, BuildState::Ended);
                assert(b.verbs + owed_end(BuildState::Ended) + verbs.skip(1) =~= b.verbs + owed_end(
                    st,
                ) + verbs);
            },
        }
    }
}

/// Round-trip identity law: iterating a path and feeding every emitted
/// event back through a fresh builder — `Begin` as `move_to`, segments as
/// their segment calls, a closing `End` as `close`, a non-closing `End` as
/// nothing — then freezing, yields identical tag and point arrays.
///
/// It holds of every stream a fresh builder can produce, which
/// [`buildable`] captures.
pub proof fn lemma_round_trip(p: Path)
    requires
        buildable(p.verbs_seq(), p.points_seq()),
    ensures
        apply_cmds(
            BuilderModel::fresh(),
            replay_cmds(p.events()),
        ).end_if_needed().verbs == p.verbs_seq(),
        apply_cmds(
            BuilderModel::fresh(),
            replay_cmds(p.events()),
        ).end_if_needed().points == p.points_seq(),
{
    lemma_replay_from(
        p.verbs_seq(),
        p.points_seq(),
        origin(),
        origin(),
        BuilderModel::fresh(),
        origin(),
        false,
        BuildState::Closed,
    );
    assert(BuilderModel::fresh().verbs + owed_end(BuildState::Closed) + p.verbs_seq()
        =~= p.verbs_seq());
    assert(BuilderModel::fresh().points + p.points_seq() =~= p.points_seq());
}

/// The state a left-to-right scan of a builder's stream stands in: the
/// current sub-path start, the most recent point (meaningful when `has`),
/// and where the scan is between or inside sub-paths.
pub ghost struct ScanEnd {
    pub fst: Point,
    pub last: Point,
    pub has: bool,
    pub st: BuildState,
}

/// The scan state of an empty stream: nothing seen, at rest at the origin.
pub open spec fn scan_start() -> ScanEnd {
    ScanEnd { fst: origin(), last: origin(), has: false, st: BuildState::Closed }
}

/// Scans `verbs` against `points` from state `e`, as [`buildable_from`]
/// does, and returns the state the scan ends in — or nothing where the
/// stream is not one a builder could have produced from `e`.
pub open spec fn scan(verbs: Seq<Verb>, points: Seq<Point>, e: ScanEnd) -> Option<ScanEnd>
    decreases verbs.len(),
{
    if verbs.len() == 0 {
        if points.len() == 0 {
            Some(e)
        } else {
            None
        }
    } else {
        match verbs[0] {
            Verb::Begin => if (e.st is Closed || e.st is Ended) && points.len() >= 1 {
                scan(
                    verbs.skip(1),
                    points.skip(1),
                    ScanEnd { fst: points[0], last: points[0], has: true, st: BuildState::Open },
                )
            } else {
                None
            },
            Verb::LineTo => if e.st is Open && points.len() >= 1 {
                scan(verbs.skip(1), points.skip(1), ScanEnd { last: points[0], has: true, ..e })
            } else {
                None
            },
            Verb::QuadraticTo => if e.st is Open && points.len() >= 2 {
                scan(verbs.skip(1), points.skip(2), ScanEnd { last: points[1], has: true, ..e })
            } else {
                None
            },
            Verb::CubicTo => if e.st is Open && points.len() >= 3 {
                scan(verbs.skip(1), points.skip(3), ScanEnd { last: points[2], has: true, ..e })
            } else {
                None
            },
            Verb::Close => if (e.st is Closed || e.st is Open) && (e.has ==> (e.last == e.fst
                || !l1_near(e.last, e.fst))) {
                scan(verbs.skip(1), points, ScanEnd { st: BuildState::Closed, ..e })
            } else {
                None
            },
            Verb::End => if e.st is Open {
                scan(verbs.skip(1), points, ScanEnd { st: BuildState::Ended, ..e })
            } else {
                None
            },
        }
    }
}

/// An accepted scan accepts anything appended, starting from its end state.
proof fn lemma_scan_append(
    a: Seq<Verb>,
    pa: Seq<Point>,
    b: Seq<Verb>,
    pb: Seq<Point>,
    e0: ScanEnd,
    e1: ScanEnd,
)
    requires
        scan(a, pa, e0) == Some(e1),
    ensures
        scan(a + b, pa + pb, e0) == scan(b, pb, e1),
    decreases a.len(),
{
    if a.len() == 0 {
        assert(a + b =~= b);
        assert(pa + pb =~= pb);
    } else {
        let cv = a + b;
        let cp = pa + pb;
        assert(cv[0] == a[0]);
        assert(cv.skip(1) =~= a.skip(1) + b);
        match a[0] {
            Verb::Begin => {
                assert(cp[0] == pa[0]);
                assert(cp.skip(1) =~= pa.skip(1) + pb);
                lemma_scan_append(
                    a.skip(1),
                    pa.skip(1),
                    b,
                    pb,
                    ScanEnd { fst: pa[0], last: pa[0], has: true, st: BuildState::Open },
                    e1,
                );
            },
            Verb::LineTo => {
                assert(cp[0] == pa[0]);
                assert(cp.skip(1) =~= pa.skip(1) + pb);
                lemma_scan_append(a.skip(1), pa.skip(1), b, pb, ScanEnd { last: pa[0], has: true, ..e0 }, e1);
            },
            Verb::QuadraticTo => {
                assert(cp[0] == pa[0]);
                assert(cp[1] == pa[1]);
                assert(cp.skip(2) =~= pa.skip(2) + pb);
                lemma_scan_append(a.skip(1), pa.skip(2), b, pb, ScanEnd { last: pa[1], has: true, ..e0 }, e1);
            },
            Verb::CubicTo => {
                assert(cp[0] == pa[0]);
                assert(cp[1] == pa[1]);
                assert(cp[2] == pa[2]);
                assert(cp.skip(3) =~= pa.skip(3) + pb);
                lemma_scan_append(a.skip(1), pa.skip(3), b, pb, ScanEnd { last: pa[2], has: true, ..e0 }, e1);
            },
            Verb::Close => {
                lemma_scan_append(
                    a.skip(1),
                    pa,
                    b,
                    pb,
                    ScanEnd { st: BuildState::Closed, ..e0 },
                    e1,
                );
            },
            Verb::End => {
                lemma_scan_append(
                    a.skip(1),
                    pa,
                    b,
                    pb,
                    ScanEnd { st: BuildState::Ended, ..e0 },
                    e1,
                );
            },
        }
    }
}

/// An accepted scan that does not end mid-sub-path is a buildable stream.
proof fn lemma_scan_buildable(verbs: Seq<Verb>, points: Seq<Point>, e0: ScanEnd, e1: ScanEnd)
    requires
        scan(verbs, points, e0) == Some(e1),
        !(e1.st is Open),
    ensures
        buildable_from(verbs, points, e0.fst, e0.last, e0.has, e0.st),
    decreases verbs.len(),
{
    if verbs.len() > 0 {
        match verbs[0] {
            Verb::Begin => lemma_scan_buildable(
                verbs.skip(1),
                points.skip(1),
                ScanEnd { fst: points[0], last: points[0], has: true, st: BuildState::Open },
                e1,
            ),
            Verb::LineTo => lemma_scan_buildable(
                verbs.skip(1),
                points.skip(1),
                ScanEnd { last: points[0], has: true, ..e0 },
                e1,
            ),
            Verb::QuadraticTo => lemma_scan_buildable(
                verbs.skip(1),
                points.skip(2),
                ScanEnd { last: points[1], has: true, ..e0 },
                e1,
            ),
            Verb::CubicTo => lemma_scan_buildable(
                verbs.skip(1),
                points.skip(3),
                ScanEnd { last: points[2], has: true, ..e0 },
                e1,
            ),
            Verb::Close => lemma_scan_buildable(
                verbs.skip(1),
                points,
                ScanEnd { st: BuildState::Closed, ..e0 },
                e1,
            ),
            Verb::End => lemma_scan_buildable(
                verbs.skip(1),
                points,
                ScanEnd { st: BuildState::Ended, ..e0 },
                e1,
            ),
        }
    }
}

/// A scan that ends at rest with points seen has a snapped last point: the
/// last tag that could leave the scan at rest was a `Close`, and its check
/// saw exactly this pair.
proof fn lemma_scan_closed_snapped(verbs: Seq<Verb>, points: Seq<Point>, e0: ScanEnd, e1: ScanEnd)
    requires
        scan(verbs, points, e0) == Some(e1),
        e0.st is Closed && e0.has ==> (e0.last == e0.fst || !l1_near(e0.last, e0.fst)),
        e1.st is Closed,
        e1.has,
    ensures
        e1.last == e1.fst || !l1_near(e1.last, e1.fst),
    decreases verbs.len(),
{
    if verbs.len() > 0 {
        match verbs[0] {
            Verb::Begin => lemma_scan_closed_snapped(
                verbs.skip(1),
                points.skip(1),
                ScanEnd { fst: points[0], last: points[0], has: true, st: BuildState::Open },
                e1,
            ),
            Verb::LineTo => lemma_scan_closed_snapped(
                verbs.skip(1),
                points.skip(1),
                ScanEnd { last: points[0], has: true, ..e0 },
                e1,
            ),
            Verb::QuadraticTo => lemma_scan_closed_snapped(
                verbs.skip(1),
                points.skip(2),
                ScanEnd { last: points[1], has: true, ..e0 },
                e1,
            ),
            Verb::CubicTo => lemma_scan_closed_snapped(
                verbs.skip(1),
                points.skip(3),
                ScanEnd { last: points[2], has: true, ..e0 },
                e1,
            ),
            Verb::Close => lemma_scan_closed_snapped(
                verbs.skip(1),
                points,
                ScanEnd { st: BuildState::Closed, ..e0 },
                e1,
            ),
            Verb::End => lemma_scan_closed_snapped(
                verbs.skip(1),
                points,
                ScanEnd { st: BuildState::Ended, ..e0 },
                e1,
            ),
        }
    }
}

/// With no points left, only terminators can be scanned, and they leave
/// the scan between sub-paths.
proof fn lemma_scan_no_points_not_open(verbs: Seq<Verb>, e0: ScanEnd, e1: ScanEnd)
    requires
        scan(verbs, Seq::<Point>::empty(), e0) == Some(e1),
        verbs.len() > 0,
    ensures
        !(e1.st is Open),
    decreases verbs.len(),
{
    reveal_with_fuel(scan, 3);
    match verbs[0] {
        Verb::Close => {
            if verbs.len() > 1 {
                lemma_scan_no_points_not_open(
                    verbs.skip(1),
                    ScanEnd { st: BuildState::Closed, ..e0 },
                    e1,
                );
            } else {
                assert(verbs.skip(1) =~= Seq::<Verb>::empty());
            }
        },
        Verb::End => {
            if verbs.len() > 1 {
                lemma_scan_no_points_not_open(
                    verbs.skip(1),
                    ScanEnd { st: BuildState::Ended, ..e0 },
                    e1,
                );
            } else {
                assert(verbs.skip(1) =~= Seq::<Verb>::empty());
            }
        },
        _ => {},
    }
}

/// Rewriting the final point of a stream whose scan ends mid-sub-path only
/// rewrites the scan's final `last`: that point is consumed by the very
/// last tag, a segment (the sub-path start differs from `last`, so the
/// last tag is not the `Begin`).
proof fn lemma_scan_update_last(
    verbs: Seq<Verb>,
    points: Seq<Point>,
    e0: ScanEnd,
    e1: ScanEnd,
    q: Point,
)
    requires
        scan(verbs, points, e0) == Some(e1),
        e1.st is Open,
        e1.last != e1.fst,
        points.len() > 0,
    ensures
        scan(verbs, points.update(points.len() - 1, q), e0) == Some(ScanEnd { last: q, ..e1 }),
    decreases verbs.len(),
{
    reveal_with_fuel(scan, 3);
    if verbs.len() == 0 {
        assert(false);
    }
    let up = points.update(points.len() - 1, q);
    let n = points.len() as int;
    match verbs[0] {
        Verb::Begin => {
            let e = ScanEnd { fst: points[0], last: points[0], has: true, st: BuildState::Open };
            if points.skip(1).len() > 0 {
                assert(up[0] == points[0]);
                assert(up.skip(1) =~= points.skip(1).update(points.skip(1).len() - 1, q));
                lemma_scan_update_last(verbs.skip(1), points.skip(1), e, e1, q);
            } else {
                if verbs.len() > 1 {
                    assert(points.skip(1) =~= Seq::<Point>::empty());
                    lemma_scan_no_points_not_open(verbs.skip(1), e, e1);
                } else {
                    assert(verbs.skip(1) =~= Seq::<Verb>::empty());
                }
                assert(e1 == e);
                assert(e1.last == e1.fst);
            }
        },
        Verb::LineTo => {
            let e = ScanEnd { last: points[0], has: true, ..e0 };
            if points.skip(1).len() > 0 {
                assert(up[0] == points[0]);
                assert(up.skip(1) =~= points.skip(1).update(points.skip(1).len() - 1, q));
                lemma_scan_update_last(verbs.skip(1), points.skip(1), e, e1, q);
            } else {
                if verbs.len() > 1 {
                    assert(points.skip(1) =~= Seq::<Point>::empty());
                    lemma_scan_no_points_not_open(verbs.skip(1), e, e1);
                } else {
                    assert(verbs.skip(1) =~= Seq::<Verb>::empty());
                }
                assert(e1 == e);
                assert(up[0] == q);
                assert(up.skip(1) =~= points.skip(1));
            }
        },
        Verb::QuadraticTo => {
            let e = ScanEnd { last: points[1], has: true, ..e0 };
            if points.skip(2).len() > 0 {
                assert(up[0] == points[0]);
                assert(up[1] == points[1]);
                assert(up.skip(2) =~= points.skip(2).update(points.skip(2).len() - 1, q));
                lemma_scan_update_last(verbs.skip(1), points.skip(2), e, e1, q);
            } else {
                if verbs.len() > 1 {
                    assert(points.skip(2) =~= Seq::<Point>::empty());
                    lemma_scan_no_points_not_open(verbs.skip(1), e, e1);
                } else {
                    assert(verbs.skip(1) =~= Seq::<Verb>::empty());
                }
                assert(e1 == e);
                assert(up[0] == points[0]);
                assert(up[1] == q);
                assert(up.skip(2) =~= points.skip(2));
            }
        },
        Verb::CubicTo => {
            let e = ScanEnd { last: points[2], has: true, ..e0 };
            if points.skip(3).len() > 0 {
                assert(up[0] == points[0]);
                assert(up[1] == points[1]);
                assert(up[2] == points[2]);
                assert(up.skip(3) =~= points.skip(3).update(points.skip(3).len() - 1, q));
                lemma_scan_update_last(verbs.skip(1), points.skip(3), e, e1, q);
            } else {
                if verbs.len() > 1 {
                    assert(points.skip(3) =~= Seq::<Point>::empty());
                    lemma_scan_no_points_not_open(verbs.skip(1), e, e1);
                } else {
                    assert(verbs.skip(1) =~= Seq::<Verb>::empty());
                }
                assert(e1 == e);
                assert(up[0] == points[0]);
                assert(up[1] == points[1]);
                assert(up[2] == q);
                assert(up.skip(3) =~= points.skip(3));
            }
        },
        Verb::Close => {
            lemma_scan_update_last(
                verbs.skip(1),
                points,
                ScanEnd { st: BuildState::Closed, ..e0 },
                e1,
                q,
            );
        },
        Verb::End => {
            lemma_scan_update_last(
                verbs.skip(1),
                points,
                ScanEnd { st: BuildState::Ended, ..e0 },
                e1,
                q,
            );
        },
    }
}

/// The scan state a builder's observable state corresponds to.
pub open spec fn builder_scan_end(m: BuilderModel) -> ScanEnd {
    ScanEnd {
        fst: m.first,
        last: if m.points.len() > 0 {
            m.points.last()
        } else {
            origin()
        },
        has: m.points.len() > 0,
        st: if m.needs_end() {
            BuildState::Open
        } else {
            BuildState::Closed
        },
    }
}

/// The invariant every builder reachable from a fresh one satisfies: the
/// stream so far scans from the start state to exactly the builder's own
/// state, and the re-open flag agrees with the terminator bookkeeping.
pub open spec fn builder_inv(m: BuilderModel) -> bool {
    &&& scan(m.verbs, m.points, scan_start()) == Some(builder_scan_end(m))
    &&& m.need_moveto == !m.needs_end()
}

/// A fresh builder satisfies the invariant.
pub proof fn lemma_builder_inv_fresh()
    ensures
        builder_inv(BuilderModel::fresh()),
{
}

/// Starting a sub-path keeps the invariant.
pub proof fn lemma_builder_inv_move_to(m: BuilderModel, to: Point)
    requires
        builder_inv(m),
    ensures
        builder_inv(m.move_to(to)),
{
    let e = builder_scan_end(m);
    let m2 = m.move_to(to);
    let e2 = ScanEnd { fst: to, last: to, has: true, st: BuildState::Open };
    if m.needs_end() {
        let b = seq![Verb::End, Verb::Begin];
        let pb = seq![to];
        assert(scan(b, pb, e) == Some(e2)) by {
            reveal_with_fuel(scan, 4);
            assert(b.skip(1) =~= seq![Verb::Begin]);
            assert(b.skip(1).skip(1) =~= Seq::<Verb>::empty());
            assert(pb.skip(1) =~= Seq::<Point>::empty());
        }
        lemma_scan_append(m.verbs, m.points, b, pb, scan_start(), e);
        assert(m2.verbs =~= m.verbs + b);
        assert(m2.points =~= m.points + pb);
    } else {
        let b = seq![Verb::Begin];
        let pb = seq![to];
        assert(scan(b, pb, e) == Some(e2)) by {
            reveal_with_fuel(scan, 3);
            assert(b.skip(1) =~= Seq::<Verb>::empty());
            assert(pb.skip(1) =~= Seq::<Point>::empty());
        }
        lemma_scan_append(m.verbs, m.points, b, pb, scan_start(), e);
        assert(m2.verbs =~= m.verbs + b);
        assert(m2.points =~= m.points + pb);
    }
    assert(builder_scan_end(m2) == e2);
}

/// Appending a line keeps the invariant.
pub proof fn lemma_builder_inv_line_to(m: BuilderModel, to: Point)
    requires
        builder_inv(m),
    ensures
        builder_inv(m.line_to(to)),
{
    lemma_builder_inv_move_to(m, m.first);
    let m1 = m.move_to_if_needed();
    let e = builder_scan_end(m1);
    assert(m1.needs_end());
    let m2 = m.line_to(to);
    let b = seq![Verb::LineTo];
    let pb = seq![to];
    assert(scan(b, pb, e) == Some(ScanEnd { last: to, has: true, ..e })) by {
        reveal_with_fuel(scan, 3);
        assert(b.skip(1) =~= Seq::<Verb>::empty());
        assert(pb.skip(1) =~= Seq::<Point>::empty());
    }
    lemma_scan_append(m1.verbs, m1.points, b, pb, scan_start(), e);
    assert(m2.verbs =~= m1.verbs + b);
    assert(m2.points =~= m1.points + pb);
    assert(builder_scan_end(m2) == (ScanEnd { last: to, has: true, ..e }));
}

/// Appending a quadratic segment keeps the invariant.
pub proof fn lemma_builder_inv_quadratic(m: BuilderModel, ctrl: Point, to: Point)
    requires
        builder_inv(m),
    ensures
        builder_inv(m.quadratic_bezier_to(ctrl, to)),
{
    lemma_builder_inv_move_to(m, m.first);
    let m1 = m.move_to_if_needed();
    let e = builder_scan_end(m1);
    assert(m1.needs_end());
    let m2 = m.quadratic_bezier_to(ctrl, to);
    let b = seq![Verb::QuadraticTo];
    let pb = seq![ctrl, to];
    assert(scan(b, pb, e) == Some(ScanEnd { last: to, has: true, ..e })) by {
        reveal_with_fuel(scan, 3);
        assert(b.skip(1) =~= Seq::<Verb>::empty());
        assert(pb[1] == to);
        assert(pb.skip(2) =~= Seq::<Point>::empty());
    }
    lemma_scan_append(m1.verbs, m1.points, b, pb, scan_start(), e);
    assert(m2.verbs =~= m1.verbs + b);
    assert(m2.points =~= m1.points + pb);
    assert(builder_scan_end(m2) == (ScanEnd { last: to, has: true, ..e }));
}

/// Appending a cubic segment keeps the invariant.
pub proof fn lemma_builder_inv_cubic(m: BuilderModel, ctrl1: Point, ctrl2: Point, to: Point)
    requires
        builder_inv(m),
    ensures
        builder_inv(m.cubic_bezier_to(ctrl1, ctrl2, to)),
{
    lemma_builder_inv_move_to(m, m.first);
    let m1 = m.move_to_if_needed();
    let e = builder_scan_end(m1);
    assert(m1.needs_end());
    let m2 = m.cubic_bezier_to(ctrl1, ctrl2, to);
    let b = seq![Verb::CubicTo];
    let pb = seq![ctrl1, ctrl2, to];
    assert(scan(b, pb, e) == Some(ScanEnd { last: to, has: true, ..e })) by {
        reveal_with_fuel(scan, 3);
        assert(b.skip(1) =~= Seq::<Verb>::empty());
        assert(pb[2] == to);
        assert(pb.skip(3) =~= Seq::<Point>::empty());
    }
    lemma_scan_append(m1.verbs, m1.points, b, pb, scan_start(), e);
    assert(m2.verbs =~= m1.verbs + b);
    assert(m2.points =~= m1.points + pb);
    assert(builder_scan_end(m2) == (ScanEnd { last: to, has: true, ..e }));
}

/// Closing a sub-path keeps the invariant: where the snap rewrites the
/// last point, the rewritten stream still scans, now ending on the
/// sub-path start.
pub proof fn lemma_builder_inv_close(m: BuilderModel)
    requires
        builder_inv(m),
    ensures
        builder_inv(m.close()),
{
    let e = builder_scan_end(m);
    let m2 = m.close();
    let snapped = snap_points(m.points, m.first);
    let efix = if m.points.len() > 0 && l1_near(m.points.last(), m.first) && m.points.last()
        != m.first {
        ScanEnd { last: m.first, ..e }
    } else {
        e
    };
    if m.points.len() > 0 && l1_near(m.points.last(), m.first) && m.points.last() != m.first {
        // A real snap: only possible mid-sub-path, since a builder at rest
        // was left snapped by its own close.
        if !m.needs_end() {
            lemma_scan_closed_snapped(m.verbs, m.points, scan_start(), e);
            assert(false);
        }
        lemma_scan_update_last(m.verbs, m.points, scan_start(), e, m.first);
        assert(snapped =~= m.points.update(m.points.len() - 1, m.first));
    } else {
        if m.points.len() > 0 && l1_near(m.points.last(), m.first) {
            assert(snapped =~= m.points);
        } else {
            assert(snapped =~= m.points);
        }
    }
    assert(scan(m.verbs, snapped, scan_start()) == Some(efix));
    let b = seq![Verb::Close];
    assert(efix.has ==> (efix.last == efix.fst || !l1_near(efix.last, efix.fst))) by {
        if efix.has && !(efix.st is Open) {
            lemma_scan_closed_snapped(m.verbs, snapped, scan_start(), efix);
        }
    }
    assert(scan(b, Seq::<Point>::empty(), efix) == Some(
        ScanEnd { st: BuildState::Closed, ..efix },
    )) by {
        reveal_with_fuel(scan, 3);
        assert(b.skip(1) =~= Seq::<Verb>::empty());
    }
    lemma_scan_append(m.verbs, snapped, b, Seq::<Point>::empty(), scan_start(), efix);
    assert(m2.verbs =~= m.verbs + b);
    assert(m2.points =~= snapped + Seq::<Point>::empty());
    assert(builder_scan_end(m2) == (ScanEnd { st: BuildState::Closed, ..efix }));
}

/// A run of lines keeps the invariant.
pub proof fn lemma_builder_inv_lines(m: BuilderModel, pts: Seq<Point>)
    requires
        builder_inv(m),
    ensures
        builder_inv(m.lines(pts)),
    decreases pts.len(),
{
    if pts.len() > 0 {
        lemma_builder_inv_line_to(m, pts[0]);
        lemma_builder_inv_lines(m.line_to(pts[0]), pts.skip(1));
    }
}

/// Adding a polygon keeps the invariant.
pub proof fn lemma_builder_inv_polygon(m: BuilderModel, pts: Seq<Point>)
    requires
        builder_inv(m),
    ensures
        builder_inv(m.polygon(pts)),
{
    if pts.len() > 0 {
        lemma_builder_inv_move_to(m, pts[0]);
        lemma_builder_inv_lines(m.move_to(pts[0]), pts.skip(1));
        lemma_builder_inv_close(m.move_to(pts[0]).lines(pts.skip(1)));
    }
}

/// A run of quadratic segments keeps the invariant.
pub proof fn lemma_builder_inv_quadratics(m: BuilderModel, segs: Seq<QuadraticSegment>)
    requires
        builder_inv(m),
    ensures
        builder_inv(m.quadratics(segs)),
    decreases segs.len(),
{
    if segs.len() > 0 {
        lemma_builder_inv_quadratic(m, segs[0].ctrl, segs[0].to);
        lemma_builder_inv_quadratics(m.quadratic_bezier_to(segs[0].ctrl, segs[0].to), segs.skip(1));
    }
}

/// Freezing a builder that satisfies the invariant yields a buildable
/// stream: the structural shape of spec'd paths — sub-paths open with
/// `Begin`, terminators close them, closed ones are snapped.
pub proof fn lemma_builder_inv_buildable(m: BuilderModel)
    requires
        builder_inv(m),
    ensures
        buildable(m.end_if_needed().verbs, m.end_if_needed().points),
{
    let e = builder_scan_end(m);
    let m1 = m.end_if_needed();
    if m.needs_end() {
        let b = seq![Verb::End];
        assert(scan(b, Seq::<Point>::empty(), e) == Some(
            ScanEnd { st: BuildState::Ended, ..e },
        )) by {
            reveal_with_fuel(scan, 3);
            assert(b.skip(1) =~= Seq::<Verb>::empty());
        }
        lemma_scan_append(m.verbs, m.points, b, Seq::<Point>::empty(), scan_start(), e);
        assert(m1.verbs =~= m.verbs + b);
        assert(m1.points =~= m.points + Seq::<Point>::empty());
        lemma_scan_buildable(m1.verbs, m1.points, scan_start(), ScanEnd { st: BuildState::Ended, ..e });
    } else {
        lemma_scan_buildable(m1.verbs, m1.points, scan_start(), e);
    }
}

} // verus!
