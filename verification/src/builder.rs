//! The mutable path builder and its construction state machine.
//!
//! The builder normalizes user calls into a valid tag/point stream: it
//! inserts a synthetic `End` when a new sub-path would otherwise start
//! without the previous one being terminated, re-opens a sub-path when a
//! segment is requested after a `Close` (or before any `Begin`), and snaps
//! the last point of a sub-path onto its start when `close` finds them
//! nearly coincident.
//!
//! Every operation is specified against [`BuilderModel`], a ghost copy of
//! the observable builder state, so the whole state machine is captured by
//! pure spec functions that laws and callers can reason about.

use vstd::prelude::*;

use crate::events::{lemma_total_arity_push, total_arity, Verb};
use crate::geometry::{l1_near, l1_near_exec, origin, EndpointId, Point};
use crate::laws::{
    buildable, builder_inv, lemma_builder_inv_buildable, lemma_builder_inv_close,
    lemma_builder_inv_cubic, lemma_builder_inv_fresh, lemma_builder_inv_line_to,
    lemma_builder_inv_move_to, lemma_builder_inv_polygon, lemma_builder_inv_quadratic,
    lemma_builder_inv_quadratics,
};
use crate::path::Path;

verus! {

/// A quadratic Bézier segment, as handed to the builder by the external
/// arc-approximation collaborator: the segment starts at the builder's
/// current position.
#[derive(Clone, Copy, PartialEq, Eq, Structural, Debug)]
pub struct QuadraticSegment {
    pub ctrl: Point,
    pub to: Point,
}

/// The last point of an open sub-path is snapped onto the sub-path's start
/// when it lies strictly within the snapping tolerance, so that
/// floating-point-style drift in authoring tools cannot create spurious
/// near-zero closing edges.
pub open spec fn snap_points(points: Seq<Point>, first: Point) -> Seq<Point> {
    if points.len() > 0 && l1_near(points.last(), first) {
        points.update(points.len() - 1, first)
    } else {
        points
    }
}

/// The observable state of a [`Builder`]: the two growing arrays and the
/// transient construction state.
pub ghost struct BuilderModel {
    /// Tags appended so far.
    pub verbs: Seq<Verb>,
    /// Points appended so far.
    pub points: Seq<Point>,
    /// Position after the last operation.
    pub cur: Point,
    /// Start of the current sub-path.
    pub first: Point,
    /// Whether the next segment must re-open a sub-path.
    pub need_moveto: bool,
    /// The most recently appended tag (`End` before anything is appended).
    pub last_cmd: Verb,
}

impl BuilderModel {
    /// The state of a freshly created builder.
    pub open spec fn fresh() -> BuilderModel {
        BuilderModel {
            verbs: Seq::empty(),
            points: Seq::empty(),
            cur: origin(),
            first: origin(),
            need_moveto: true,
            last_cmd: Verb::End,
        }
    }

    /// The tags appended so far consume exactly the points appended so far.
    pub open spec fn wf(self) -> bool {
        total_arity(self.verbs) == self.points.len()
    }

    /// Whether the current sub-path still lacks a terminator.
    pub open spec fn needs_end(self) -> bool {
        !(self.last_cmd is Close || self.last_cmd is End)
    }

    /// Appends a synthetic `End` if the current sub-path lacks a
    /// terminator.
    pub open spec fn end_if_needed(self) -> BuilderModel {
        if self.needs_end() {
            BuilderModel { verbs: self.verbs.push(Verb::End), last_cmd: self.last_cmd, ..self }
        } else {
            self
        }
    }

    /// Starts a new sub-path at `to`, terminating the previous one first if
    /// necessary.
    pub open spec fn move_to(self, to: Point) -> BuilderModel {
        let m = self.end_if_needed();
        BuilderModel {
            verbs: m.verbs.push(Verb::Begin),
            points: m.points.push(to),
            cur: to,
            first: to,
            need_moveto: false,
            last_cmd: Verb::Begin,
        }
    }

    /// Re-opens a sub-path at the last known start if a segment arrives
    /// while none is open.
    pub open spec fn move_to_if_needed(self) -> BuilderModel {
        if self.need_moveto {
            self.move_to(self.first)
        } else {
            self
        }
    }

    /// Appends a line segment to `to`.
    pub open spec fn line_to(self, to: Point) -> BuilderModel {
        let m = self.move_to_if_needed();
        BuilderModel {
            verbs: m.verbs.push(Verb::LineTo),
            points: m.points.push(to),
            cur: to,
            last_cmd: Verb::LineTo,
            ..m
        }
    }

    /// Appends a quadratic Bézier segment.
    pub open spec fn quadratic_bezier_to(self, ctrl: Point, to: Point) -> BuilderModel {
        let m = self.move_to_if_needed();
        BuilderModel {
            verbs: m.verbs.push(Verb::QuadraticTo),
            points: m.points.push(ctrl).push(to),
            cur: to,
            last_cmd: Verb::QuadraticTo,
            ..m
        }
    }

    /// Appends a cubic Bézier segment.
    pub open spec fn cubic_bezier_to(self, ctrl1: Point, ctrl2: Point, to: Point) -> BuilderModel {
        let m = self.move_to_if_needed();
        BuilderModel {
            verbs: m.verbs.push(Verb::CubicTo),
            points: m.points.push(ctrl1).push(ctrl2).push(to),
            cur: to,
            last_cmd: Verb::CubicTo,
            ..m
        }
    }

    /// Closes the current sub-path, snapping its last point onto its start
    /// when the two nearly coincide.
    pub open spec fn close(self) -> BuilderModel {
        BuilderModel {
            verbs: self.verbs.push(Verb::Close),
            points: snap_points(self.points, self.first),
            cur: self.first,
            need_moveto: true,
            last_cmd: Verb::Close,
            ..self
        }
    }

    /// Appends one line segment per point, in order.
    pub open spec fn lines(self, pts: Seq<Point>) -> BuilderModel
        decreases pts.len(),
    {
        if pts.len() == 0 {
            self
        } else {
            self.line_to(pts[0]).lines(pts.skip(1))
        }
    }

    /// Starts a sub-path at the first point, draws a line to each further
    /// point, and closes.  An empty point list changes nothing.
    pub open spec fn polygon(self, pts: Seq<Point>) -> BuilderModel {
        if pts.len() == 0 {
            self
        } else {
            self.move_to(pts[0]).lines(pts.skip(1)).close()
        }
    }

    /// Appends one quadratic Bézier segment per entry, in order.
    pub open spec fn quadratics(self, segs: Seq<QuadraticSegment>) -> BuilderModel
        decreases segs.len(),
    {
        if segs.len() == 0 {
            self
        } else {
            self.quadratic_bezier_to(segs[0].ctrl, segs[0].to).quadratics(segs.skip(1))
        }
    }
}

/// Terminating a sub-path keeps the tag/point correspondence.
pub proof fn lemma_end_if_needed_wf(m: BuilderModel)
    ensures
        m.wf() ==> m.end_if_needed().wf(),
{
    if m.needs_end() {
        lemma_total_arity_push(m.verbs, Verb::End);
    }
}

/// Starting a sub-path keeps the tag/point correspondence.
pub proof fn lemma_move_to_wf(m: BuilderModel, to: Point)
    ensures
        m.wf() ==> m.move_to(to).wf(),
{
    lemma_end_if_needed_wf(m);
    lemma_total_arity_push(m.end_if_needed().verbs, Verb::Begin);
}

/// Appending a line keeps the tag/point correspondence.
pub proof fn lemma_line_to_wf(m: BuilderModel, to: Point)
    ensures
        m.wf() ==> m.line_to(to).wf(),
{
    lemma_move_to_wf(m, m.first);
    lemma_total_arity_push(m.move_to_if_needed().verbs, Verb::LineTo);
}

/// Appending a quadratic segment keeps the tag/point correspondence.
pub proof fn lemma_quadratic_wf(m: BuilderModel, ctrl: Point, to: Point)
    ensures
        m.wf() ==> m.quadratic_bezier_to(ctrl, to).wf(),
{
    lemma_move_to_wf(m, m.first);
    lemma_total_arity_push(m.move_to_if_needed().verbs, Verb::QuadraticTo);
}

/// Appending a cubic segment keeps the tag/point correspondence.
pub proof fn lemma_cubic_wf(m: BuilderModel, ctrl1: Point, ctrl2: Point, to: Point)
    ensures
        m.wf() ==> m.cubic_bezier_to(ctrl1, ctrl2, to).wf(),
{
    lemma_move_to_wf(m, m.first);
    lemma_total_arity_push(m.move_to_if_needed().verbs, Verb::CubicTo);
}

/// Closing a sub-path keeps the tag/point correspondence.
pub proof fn lemma_close_wf(m: BuilderModel)
    ensures
        m.wf() ==> m.close().wf(),
{
    lemma_total_arity_push(m.verbs, Verb::Close);
}

/// Drawing a run of lines keeps the tag/point correspondence.
pub proof fn lemma_lines_wf(m: BuilderModel, pts: Seq<Point>)
    ensures
        m.wf() ==> m.lines(pts).wf(),
    decreases pts.len(),
{
    if pts.len() > 0 {
        lemma_line_to_wf(m, pts[0]);
        lemma_lines_wf(m.line_to(pts[0]), pts.skip(1));
    }
}

/// Drawing a polygon keeps the tag/point correspondence.
pub proof fn lemma_polygon_wf(m: BuilderModel, pts: Seq<Point>)
    ensures
        m.wf() ==> m.polygon(pts).wf(),
{
    if pts.len() > 0 {
        lemma_move_to_wf(m, pts[0]);
        lemma_lines_wf(m.move_to(pts[0]), pts.skip(1));
        lemma_close_wf(m.move_to(pts[0]).lines(pts.skip(1)));
    }
}

/// Drawing a run of quadratic segments keeps the tag/point correspondence.
pub proof fn lemma_quadratics_wf(m: BuilderModel, segs: Seq<QuadraticSegment>)
    ensures
        m.wf() ==> m.quadratics(segs).wf(),
    decreases segs.len(),
{
    if segs.len() > 0 {
        lemma_quadratic_wf(m, segs[0].ctrl, segs[0].to);
        lemma_quadratics_wf(m.quadratic_bezier_to(segs[0].ctrl, segs[0].to), segs.skip(1));
    }
}

/// Extending a run of lines by one more point.
pub proof fn lemma_lines_push(m: BuilderModel, pts: Seq<Point>, p: Point)
    ensures
        m.lines(pts.push(p)) == m.lines(pts).line_to(p),
    decreases pts.len(),
{
    if pts.len() == 0 {
        reveal_with_fuel(BuilderModel::lines, 2);
        assert(pts.push(p)[0] == p);
        assert(pts.push(p).skip(1) =~= Seq::<Point>::empty());
    } else {
        assert(pts.push(p)[0] == pts[0]);
        assert(pts.push(p).skip(1) =~= pts.skip(1).push(p));
        lemma_lines_push(m.line_to(pts[0]), pts.skip(1), p);
    }
}

/// Extending a run of quadratic segments by one more segment.
pub proof fn lemma_quadratics_push(m: BuilderModel, segs: Seq<QuadraticSegment>, s: QuadraticSegment)
    ensures
        m.quadratics(segs.push(s)) == m.quadratics(segs).quadratic_bezier_to(s.ctrl, s.to),
    decreases segs.len(),
{
    if segs.len() == 0 {
        reveal_with_fuel(BuilderModel::quadratics, 2);
        assert(segs.push(s)[0] == s);
        assert(segs.push(s).skip(1) =~= Seq::<QuadraticSegment>::empty());
    } else {
        assert(segs.push(s)[0] == segs[0]);
        assert(segs.push(s).skip(1) =~= segs.skip(1).push(s));
        lemma_quadratics_push(m.quadratic_bezier_to(segs[0].ctrl, segs[0].to), segs.skip(1), s);
    }
}

/// Builds a [`Path`] incrementally.
///
/// The scalar fields mirror [`BuilderModel`]; `first_vertex` and
/// `first_verb` record where the current sub-path starts in the arrays, as
/// bookkeeping for consumers that slice a path while it is being built.
pub struct Builder {
    points: Vec<Point>,
    verbs: Vec<Verb>,
    current_position: Point,
    first_position: Point,
    first_vertex: EndpointId,
    first_verb: u32,
    need_moveto: bool,
    last_cmd: Verb,
}

impl View for Builder {
    type V = BuilderModel;

    closed spec fn view(&self) -> BuilderModel {
        BuilderModel {
            verbs: self.verbs@,
            points: self.points@,
            cur: self.current_position,
            first: self.first_position,
            need_moveto: self.need_moveto,
            last_cmd: self.last_cmd,
        }
    }
}

impl Builder {
    /// A fresh builder with empty arrays.
    pub fn new() -> (b: Self)
        ensures
            b@ == BuilderModel::fresh(),
            b@.wf(),
            builder_inv(b@),
    {
        Builder::with_capacity(0, 0)
    }

    /// A fresh builder with storage reserved for `points` points and
    /// `edges` tags.  Capacity is a performance detail and not observable.
    pub fn with_capacity(points: usize, edges: usize) -> (b: Self)
        ensures
            b@ == BuilderModel::fresh(),
            b@.wf(),
            builder_inv(b@),
    {
        proof {
            lemma_builder_inv_fresh();
        }
        Builder {
            points: Vec::with_capacity(points),
            verbs: Vec::with_capacity(edges),
            current_position: Point { x: 0, y: 0 },
            first_position: Point { x: 0, y: 0 },
            first_vertex: EndpointId(0),
            first_verb: 0,
            need_moveto: true,
            last_cmd: Verb::End,
        }
    }

    /// Starts a new sub-path at `to`; the previous sub-path is terminated
    /// with a synthetic `End` first if it still lacks a terminator.
    pub fn move_to(&mut self, to: Point)
        ensures
            final(self)@ == old(self)@.move_to(to),
            old(self)@.wf() ==> final(self)@.wf(),
            builder_inv(old(self)@) ==> builder_inv(final(self)@),
    {
        self.end_if_needed();
        self.need_moveto = false;
        self.first_position = to;
        self.first_vertex = EndpointId(#[verifier::truncate] (self.points.len() as u32));
        self.first_verb = #[verifier::truncate] (self.verbs.len() as u32);
        self.current_position = to;
        self.points.push(to);
        self.verbs.push(Verb::Begin);
        self.last_cmd = Verb::Begin;
        proof {
            lemma_move_to_wf(old(self)@, to);
            if builder_inv(old(self)@) {
                lemma_builder_inv_move_to(old(self)@, to);
            }
        }
    }

    /// Appends a line segment to `to`, re-opening a sub-path at the last
    /// known start if none is open.
    pub fn line_to(&mut self, to: Point)
        ensures
            final(self)@ == old(self)@.line_to(to),
            old(self)@.wf() ==> final(self)@.wf(),
            builder_inv(old(self)@) ==> builder_inv(final(self)@),
    {
        self.move_to_if_needed();
        self.points.push(to);
        self.verbs.push(Verb::LineTo);
        self.current_position = to;
        self.last_cmd = Verb::LineTo;
        proof {
            lemma_line_to_wf(old(self)@, to);
            if builder_inv(old(self)@) {
                lemma_builder_inv_line_to(old(self)@, to);
            }
        }
    }

    /// Closes the current sub-path.  If the last recorded point lies
    /// strictly within the snapping tolerance of the sub-path's start (in
    /// L1 distance), it is snapped onto the start first.
    pub fn close(&mut self)
        ensures
            final(self)@ == old(self)@.close(),
            old(self)@.wf() ==> final(self)@.wf(),
            builder_inv(old(self)@) ==> builder_inv(final(self)@),
    {
        if self.points.len() > 0 {
            let idx = self.points.len() - 1;
            let last = self.points[idx];
            if l1_near_exec(last, self.first_position) {
                self.points[idx] = self.first_position;
            }
        }
        self.verbs.push(Verb::Close);
        self.current_position = self.first_position;
        self.need_moveto = true;
        self.last_cmd = Verb::Close;
        proof {
            lemma_close_wf(old(self)@);
            if builder_inv(old(self)@) {
                lemma_builder_inv_close(old(self)@);
            }
        }
    }

    /// Appends a quadratic Bézier segment, re-opening a sub-path first if
    /// none is open.
    pub fn quadratic_bezier_to(&mut self, ctrl: Point, to: Point)
        ensures
            final(self)@ == old(self)@.quadratic_bezier_to(ctrl, to),
            old(self)@.wf() ==> final(self)@.wf(),
            builder_inv(old(self)@) ==> builder_inv(final(self)@),
    {
        self.move_to_if_needed();
        self.points.push(ctrl);
        self.points.push(to);
        self.verbs.push(Verb::QuadraticTo);
        self.current_position = to;
        self.last_cmd = Verb::QuadraticTo;
        proof {
            lemma_quadratic_wf(old(self)@, ctrl, to);
            if builder_inv(old(self)@) {
                lemma_builder_inv_quadratic(old(self)@, ctrl, to);
            }
        }
    }

    /// Appends a cubic Bézier segment, re-opening a sub-path first if none
    /// is open.
    pub fn cubic_bezier_to(&mut self, ctrl1: Point, ctrl2: Point, to: Point)
        ensures
            final(self)@ == old(self)@.cubic_bezier_to(ctrl1, ctrl2, to),
            old(self)@.wf() ==> final(self)@.wf(),
            builder_inv(old(self)@) ==> builder_inv(final(self)@),
    {
        self.move_to_if_needed();
        self.points.push(ctrl1);
        self.points.push(ctrl2);
        self.points.push(to);
        self.verbs.push(Verb::CubicTo);
        self.current_position = to;
        self.last_cmd = Verb::CubicTo;
        proof {
            lemma_cubic_wf(old(self)@, ctrl1, ctrl2, to);
            if builder_inv(old(self)@) {
                lemma_builder_inv_cubic(old(self)@, ctrl1, ctrl2, to);
            }
        }
    }

    /// Replays an elliptical arc through the builder.
    ///
    /// Arc geometry is an external capability: a collaborator approximates
    /// the arc by quadratic Bézier segments, starting at the builder's
    /// current position, and this method feeds each segment through
    /// [`Builder::quadratic_bezier_to`] in order.
    pub fn arc(&mut self, segments: &[QuadraticSegment])
        ensures
            final(self)@ == old(self)@.quadratics(segments@),
            old(self)@.wf() ==> final(self)@.wf(),
            builder_inv(old(self)@) ==> builder_inv(final(self)@),
    {
        let ghost m0 = self@;
        let mut i: usize = 0;
        while i < segments.len()
            invariant
                i <= segments@.len(),
                self@ == m0.quadratics(segments@.take(i as int)),
            decreases segments@.len() - i,
        {
            let seg = segments[i];
            self.quadratic_bezier_to(seg.ctrl, seg.to);
            i += 1;
            proof {
                assert(segments@.take(i as int) =~= segments@.take(i as int - 1).push(
                    segments@[i - 1],
                ));
                lemma_quadratics_push(m0, segments@.take(i as int - 1), segments@[i - 1]);
            }
        }
        proof {
            assert(segments@.take(segments@.len() as int) =~= segments@);
            lemma_quadratics_wf(m0, segments@);
            if builder_inv(m0) {
                lemma_builder_inv_quadratics(m0, segments@);
            }
        }
    }

    /// Adds a closed polygon: a sub-path from the first point through each
    /// further point, closed back onto the first.  An empty point list adds
    /// nothing.
    pub fn polygon(&mut self, points: &[Point])
        ensures
            final(self)@ == old(self)@.polygon(points@),
            old(self)@.wf() ==> final(self)@.wf(),
            builder_inv(old(self)@) ==> builder_inv(final(self)@),
    {
        let ghost m0 = self@;
        if points.len() == 0 {
            return ;
        }
        self.move_to(points[0]);
        let mut i: usize = 1;
        while i < points.len()
            invariant
                1 <= i <= points@.len(),
                self@ == m0.move_to(points@[0]).lines(points@.subrange(1, i as int)),
            decreases points@.len() - i,
        {
            let p = points[i];
            self.line_to(p);
            i += 1;
            proof {
                assert(points@.subrange(1, i as int) =~= points@.subrange(1, i as int - 1).push(
                    points@[i - 1],
                ));
                lemma_lines_push(m0.move_to(points@[0]), points@.subrange(1, i as int - 1), points@[
                    i - 1
                ]);
            }
        }
        proof {
            assert(points@.subrange(1, points@.len() as int) =~= points@.skip(1));
        }
        self.close();
        proof {
            lemma_polygon_wf(m0, points@);
            if builder_inv(m0) {
                lemma_builder_inv_polygon(m0, points@);
            }
        }
    }

    fn move_to_if_needed(&mut self)
        ensures
            final(self)@ == old(self)@.move_to_if_needed(),
    {
        if self.need_moveto {
            let first = self.first_position;
            self.move_to(first);
        }
    }

    fn end_if_needed(&mut self)
        ensures
            final(self)@ == old(self)@.end_if_needed(),
    {
        match self.last_cmd {
            Verb::Close => {},
            Verb::End => {},
            _ => {
                self.verbs.push(Verb::End);
            },
        }
    }

    /// The position after the most recent operation.
    pub fn current_position(&self) -> (p: Point)
        ensures
            p == self@.cur,
    {
        self.current_position
    }

    /// Freezes the arrays into a [`Path`], terminating the last sub-path
    /// with a synthetic `End` first if it still lacks a terminator, and
    /// consumes the builder.
    pub fn build(self) -> (r: Path)
        ensures
            r.verbs_seq() == self@.end_if_needed().verbs,
            r.points_seq() == self@.end_if_needed().points,
            self@.wf() ==> r.wf(),
            builder_inv(self@) ==> buildable(r.verbs_seq(), r.points_seq()),
    {
        let mut b = self;
        b.end_if_needed();
        proof {
            lemma_end_if_needed_wf(self@);
            if builder_inv(self@) {
                lemma_builder_inv_buildable(self@);
            }
        }
        Path::from_parts(b.points, b.verbs)
    }

    /// Freezes the arrays into a [`Path`] exactly as [`Builder::build`]
    /// does — terminating the last sub-path with a synthetic `End` first
    /// if it still lacks a terminator — and returns the builder to its
    /// fresh state, so construction of a new path can continue without
    /// reallocating the builder itself.
    pub fn build_and_reset(&mut self) -> (r: Path)
        ensures
            r.verbs_seq() == old(self)@.end_if_needed().verbs,
            r.points_seq() == old(self)@.end_if_needed().points,
            old(self)@.wf() ==> r.wf(),
            builder_inv(old(self)@) ==> buildable(r.verbs_seq(), r.points_seq()),
            final(self)@ == BuilderModel::fresh(),
            builder_inv(final(self)@),
    {
        self.end_if_needed();
        self.current_position = Point { x: 0, y: 0 };
        self.first_position = Point { x: 0, y: 0 };
        self.first_vertex = EndpointId(0);
        self.first_verb = 0;
        self.need_moveto = true;
        self.last_cmd = Verb::End;
        let mut points: Vec<Point> = Vec::new();
        let mut verbs: Vec<Verb> = Vec::new();
        core::mem::swap(&mut points, &mut self.points);
        core::mem::swap(&mut verbs, &mut self.verbs);
        proof {
            lemma_end_if_needed_wf(old(self)@);
            lemma_builder_inv_fresh();
            if builder_inv(old(self)@) {
                lemma_builder_inv_buildable(old(self)@);
            }
        }
        Path::from_parts(points, verbs)
    }
}

} // verus!
