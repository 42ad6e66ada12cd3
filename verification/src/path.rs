//! The immutable path container, its borrowing view, and its iterators.

use vstd::prelude::*;

use crate::builder::{Builder, BuilderModel};
use crate::events::{
    events_from, id_events_from, id_path_events, lemma_total_arity_concat, path_events,
    total_arity, IdEvent, PathEvent, Verb,
};
use crate::geometry::{origin, CtrlPointId, EndpointId, Point};

verus! {

/// A simple path data structure.
///
/// It owns two parallel arrays frozen at build time: a flat buffer of points
/// and a stream of operation tags.  It is created with a [`Builder`] and can
/// be replayed any number of times through [`Path::iter`] and
/// [`Path::id_iter`].
pub struct Path {
    pub(crate) points: Vec<Point>,
    pub(crate) verbs: Vec<Verb>,
}

/// A borrowing view on a [`Path`], exposing the same read operations
/// without transferring ownership.
#[derive(Clone, Copy)]
pub struct PathSlice<'l> {
    pub(crate) points: &'l [Point],
    pub(crate) verbs: &'l [Verb],
}

impl Path {
    /// The stored point buffer, as a sequence.
    pub closed spec fn points_seq(self) -> Seq<Point> {
        self.points@
    }

    /// The stored tag stream, as a sequence.
    pub closed spec fn verbs_seq(self) -> Seq<Verb> {
        self.verbs@
    }

    /// Replaying the tags consumes exactly the stored points; every path the
    /// library hands out satisfies this.
    pub open spec fn wf(self) -> bool {
        total_arity(self.verbs_seq()) == self.points_seq().len()
    }

    /// The value-level events this path replays to.
    pub open spec fn events(self) -> Seq<PathEvent> {
        path_events(self.verbs_seq(), self.points_seq())
    }

    /// The index-level events this path replays to.
    pub open spec fn id_events(self) -> Seq<IdEvent> {
        id_path_events(self.verbs_seq())
    }

    /// Freezes two arrays into a path; only the builder does this.
    pub(crate) fn from_parts(points: Vec<Point>, verbs: Vec<Verb>) -> (r: Path)
        ensures
            r.points_seq() == points@,
            r.verbs_seq() == verbs@,
    {
        Path { points, verbs }
    }

    /// Creates a [`Builder`] to create a path.
    pub fn builder() -> (b: Builder)
        ensures
            b@ == BuilderModel::fresh(),
    {
        Builder::new()
    }

    /// Creates an empty path.
    pub fn new() -> (p: Path)
        ensures
            p.verbs_seq() == Seq::<Verb>::empty(),
            p.points_seq() == Seq::<Point>::empty(),
            p.wf(),
    {
        Path { points: Vec::new(), verbs: Vec::new() }
    }

    /// Returns a view on this path.
    pub fn as_slice(&self) -> (s: PathSlice)
        ensures
            s.points_seq() == self.points_seq(),
            s.verbs_seq() == self.verbs_seq(),
    {
        PathSlice { points: self.points.as_slice(), verbs: self.verbs.as_slice() }
    }

    /// Iterates over the entire path.
    pub fn iter(&self) -> (it: Iter)
        requires
            self.wf(),
        ensures
            it.wf(),
            it.remaining() == self.events(),
    {
        Iter::new(self.points.as_slice(), self.verbs.as_slice())
    }

    /// Iterates over the endpoint and control point ids of the path.
    ///
    /// Identifiers are 32-bit, so the path may hold at most `u32::MAX`
    /// points.
    pub fn id_iter(&self) -> (it: IdIter)
        requires
            self.wf(),
            self.points_seq().len() <= u32::MAX,
        ensures
            it.wf(),
            it.remaining() == self.id_events(),
    {
        IdIter::new(self.verbs.as_slice())
    }

    /// The stored point buffer.
    pub fn points(&self) -> (r: &[Point])
        ensures
            r@ == self.points_seq(),
    {
        self.points.as_slice()
    }

    /// Mutable access to the stored point buffer, so consumers can transform
    /// coordinates in place.  The slice cannot change the number of points,
    /// so the tag/point correspondence survives any such edit.
    pub fn mut_points(&mut self) -> (r: &mut [Point])
        ensures
            r@ == old(self).points_seq(),
            final(self).points_seq() == final(r)@,
            final(self).verbs_seq() == old(self).verbs_seq(),
    {
        self.points.as_mut_slice()
    }

    /// The point a [`EndpointId`] obtained from this path's
    /// [`Path::id_iter`] names.
    pub fn endpoint(&self, id: EndpointId) -> (p: Point)
        requires
            id.0 < self.points_seq().len(),
        ensures
            p == self.points_seq()[id.0 as int],
    {
        let i = id.to_usize();
        self.points[i]
    }

    /// The point a [`CtrlPointId`] obtained from this path's
    /// [`Path::id_iter`] names.
    pub fn ctrl_point(&self, id: CtrlPointId) -> (p: Point)
        requires
            id.0 < self.points_seq().len(),
        ensures
            p == self.points_seq()[id.0 as int],
    {
        let i = id.to_usize();
        self.points[i]
    }

    /// Concatenates two paths: the tag streams and point buffers are
    /// appended in order, with no attempt to weld sub-paths at the boundary.
    /// Neither operand is changed.
    pub fn merge(&self, other: &Self) -> (r: Self)
        requires
            self.verbs_seq().len() + other.verbs_seq().len() <= usize::MAX,
            self.points_seq().len() + other.points_seq().len() <= usize::MAX,
        ensures
            r.verbs_seq() == self.verbs_seq() + other.verbs_seq(),
            r.points_seq() == self.points_seq() + other.points_seq(),
            self.wf() && other.wf() ==> r.wf(),
    {
        let mut verbs: Vec<Verb> = Vec::with_capacity(self.verbs.len() + other.verbs.len());
        let mut points: Vec<Point> = Vec::with_capacity(self.points.len() + other.points.len());
        let mut i: usize = 0;
        while i < self.verbs.len()
            invariant
                i <= self.verbs@.len(),
                verbs@ == self.verbs@.take(i as int),
            decreases self.verbs@.len() - i,
        {
            verbs.push(self.verbs[i]);
            i += 1;
            proof {
                assert(verbs@ =~= self.verbs@.take(i as int));
            }
        }
        proof {
            assert(verbs@ =~= self.verbs@);
        }
        let mut i: usize = 0;
        while i < other.verbs.len()
            invariant
                i <= other.verbs@.len(),
                verbs@ == self.verbs@ + other.verbs@.take(i as int),
            decreases other.verbs@.len() - i,
        {
            verbs.push(other.verbs[i]);
            i += 1;
            proof {
                assert(verbs@ =~= self.verbs@ + other.verbs@.take(i as int));
            }
        }
        proof {
            assert(verbs@ =~= self.verbs@ + other.verbs@);
        }
        let mut i: usize = 0;
        while i < self.points.len()
            invariant
                i <= self.points@.len(),
                points@ == self.points@.take(i as int),
            decreases self.points@.len() - i,
        {
            points.push(self.points[i]);
            i += 1;
            proof {
                assert(points@ =~= self.points@.take(i as int));
            }
        }
        proof {
            assert(points@ =~= self.points@);
        }
        let mut i: usize = 0;
        while i < other.points.len()
            invariant
                i <= other.points@.len(),
                points@ == self.points@ + other.points@.take(i as int),
            decreases other.points@.len() - i,
        {
            points.push(other.points[i]);
            i += 1;
            proof {
                assert(points@ =~= self.points@ + other.points@.take(i as int));
            }
        }
        proof {
            assert(points@ =~= self.points@ + other.points@);
            lemma_total_arity_concat(self.verbs@, other.verbs@);
        }
        Path { points, verbs }
    }
}

/// The spec sequences of a view are the views of its fields; stated here
/// because the accessors' bodies are closed to the other modules.
pub(crate) proof fn lemma_slice_parts<'l>(s: PathSlice<'l>)
    ensures
        s.points_seq() == s.points@,
        s.verbs_seq() == s.verbs@,
{
}

impl<'l> PathSlice<'l> {
    /// The viewed point buffer, as a sequence.
    pub closed spec fn points_seq(self) -> Seq<Point> {
        self.points@
    }

    /// The viewed tag stream, as a sequence.
    pub closed spec fn verbs_seq(self) -> Seq<Verb> {
        self.verbs@
    }

    /// Replaying the tags consumes exactly the viewed points.
    pub open spec fn wf(self) -> bool {
        total_arity(self.verbs_seq()) == self.points_seq().len()
    }

    /// The value-level events this view replays to.
    pub open spec fn events(self) -> Seq<PathEvent> {
        path_events(self.verbs_seq(), self.points_seq())
    }

    /// Iterates over the viewed path.
    pub fn iter(&self) -> (it: Iter<'l>)
        requires
            self.wf(),
        ensures
            it.wf(),
            it.remaining() == self.events(),
    {
        Iter::new(self.points, self.verbs)
    }

    /// The viewed point buffer.
    pub fn points(&self) -> (r: &'l [Point])
        ensures
            r@ == self.points_seq(),
    {
        self.points
    }

    /// Whether the viewed path holds no tags at all.
    pub fn is_empty(&self) -> (r: bool)
        ensures
            r == (self.verbs_seq().len() == 0),
    {
        self.verbs.len() == 0
    }
}

/// An iterator replaying a path's arrays as events carrying point values.
///
/// It is lazy, finite, and not restartable: once exhausted it keeps
/// reporting no event, and a fresh one must be obtained from the path to
/// re-traverse.
pub struct Iter<'l> {
    pub(crate) points: &'l [Point],
    pub(crate) verbs: &'l [Verb],
    pub(crate) p: usize,
    pub(crate) v: usize,
    pub(crate) current: Point,
    pub(crate) first: Point,
}

impl<'l> Iter<'l> {
    /// The replayed point buffer, as a sequence.
    pub closed spec fn points_seq(self) -> Seq<Point> {
        self.points@
    }

    /// The replayed tag stream, as a sequence.
    pub closed spec fn verbs_seq(self) -> Seq<Verb> {
        self.verbs@
    }

    /// Cursor into the point buffer.
    pub closed spec fn point_cursor(self) -> int {
        self.p as int
    }

    /// Cursor into the tag stream.
    pub closed spec fn verb_cursor(self) -> int {
        self.v as int
    }

    /// Position after the last event.
    pub closed spec fn cur(self) -> Point {
        self.current
    }

    /// Position at the most recent `Begin`.
    pub closed spec fn fst(self) -> Point {
        self.first
    }

    /// The cursors stay in step: the tags not yet replayed consume exactly
    /// the points not yet consumed.
    pub open spec fn wf(self) -> bool {
        &&& 0 <= self.verb_cursor() <= self.verbs_seq().len()
        &&& 0 <= self.point_cursor() <= self.points_seq().len()
        &&& total_arity(self.verbs_seq().skip(self.verb_cursor())) == self.points_seq().len()
            - self.point_cursor()
    }

    /// The events this iterator has yet to produce.
    pub open spec fn remaining(self) -> Seq<PathEvent> {
        events_from(
            self.verbs_seq().skip(self.verb_cursor()),
            self.points_seq().skip(self.point_cursor()),
            self.cur(),
            self.fst(),
        )
    }

    pub(crate) fn new(points: &'l [Point], verbs: &'l [Verb]) -> (it: Self)
        requires
            total_arity(verbs@) == points@.len(),
        ensures
            it.wf(),
            it.remaining() == path_events(verbs@, points@),
    {
        let it = Iter { points, verbs, p: 0, v: 0, current: Point { x: 0, y: 0 }, first: Point {
            x: 0,
            y: 0,
        } };
        proof {
            assert(verbs@.skip(0) =~= verbs@);
            assert(points@.skip(0) =~= points@);
        }
        it
    }

    /// Produces the next event, or `None` when the tag stream is exhausted.
    /// Exhaustion is sticky: once `None` is returned, the iterator is
    /// unchanged and every further call returns `None` again.
    pub fn next(&mut self) -> (r: Option<PathEvent>)
        requires
            old(self).wf(),
        ensures
            final(self).wf(),
            r is None <==> old(self).remaining().len() == 0,
            r is None ==> *final(self) == *old(self),
            old(self).remaining().len() > 0 ==> r == Some(old(self).remaining()[0])
                && final(self).remaining() == old(self).remaining().skip(1),
    {
        if self.v >= self.verbs.len() {
            proof {
                assert(old(self).verbs_seq().skip(old(self).verb_cursor()) =~= Seq::<
                    Verb,
                >::empty());
            }
            return None;
        }
        let ghost pre = *self;
        let verb = self.verbs[self.v];
        self.v = self.v + 1;
        proof {
            assert(pre.verbs_seq().skip(pre.verb_cursor())[0] == verb);
            assert(pre.verbs_seq().skip(pre.verb_cursor()).skip(1) =~= pre.verbs_seq().skip(
                pre.verb_cursor() + 1,
            ));
        }
        match verb {
            Verb::Begin => {
                let at = self.points[self.p];
                self.p = self.p + 1;
                self.current = at;
                self.first = at;
                proof {
                    assert(pre.points_seq().skip(pre.point_cursor())[0] == at);
                    assert(pre.points_seq().skip(pre.point_cursor()).skip(1)
                        =~= pre.points_seq().skip(pre.point_cursor() + 1));
                }
                Some(PathEvent::Begin { at })
            },
            Verb::LineTo => {
                let from = self.current;
                let to = self.points[self.p];
                self.p = self.p + 1;
                self.current = to;
                proof {
                    assert(pre.points_seq().skip(pre.point_cursor())[0] == to);
                    assert(pre.points_seq().skip(pre.point_cursor()).skip(1)
                        =~= pre.points_seq().skip(pre.point_cursor() + 1));
                }
                Some(PathEvent::Line { from, to })
            },
            Verb::QuadraticTo => {
                let from = self.current;
                let ctrl = self.points[self.p];
                let to = self.points[self.p + 1];
                self.p = self.p + 2;
                self.current = to;
                proof {
                    assert(pre.points_seq().skip(pre.point_cursor())[0] == ctrl);
                    assert(pre.points_seq().skip(pre.point_cursor())[1] == to);
                    assert(pre.points_seq().skip(pre.point_cursor()).skip(2)
                        =~= pre.points_seq().skip(pre.point_cursor() + 2));
                }
                Some(PathEvent::Quadratic { from, ctrl, to })
            },
            Verb::CubicTo => {
                let from = self.current;
                let ctrl1 = self.points[self.p];
                let ctrl2 = self.points[self.p + 1];
                let to = self.points[self.p + 2];
                self.p = self.p + 3;
                self.current = to;
                proof {
                    assert(pre.points_seq().skip(pre.point_cursor())[0] == ctrl1);
                    assert(pre.points_seq().skip(pre.point_cursor())[1] == ctrl2);
                    assert(pre.points_seq().skip(pre.point_cursor())[2] == to);
                    assert(pre.points_seq().skip(pre.point_cursor()).skip(3)
                        =~= pre.points_seq().skip(pre.point_cursor() + 3));
                }
                Some(PathEvent::Cubic { from, ctrl1, ctrl2, to })
            },
            Verb::Close => {
                let last = self.current;
                self.current = self.first;
                Some(PathEvent::End { last, first: self.first, close: true })
            },
            Verb::End => {
                let last = self.current;
                self.current = self.first;
                Some(PathEvent::End { last, first: self.first, close: false })
            },
        }
    }
}

/// An iterator replaying a path's tag stream as events carrying endpoint
/// and control point identifiers instead of values, in lock-step with
/// [`Iter`] over the same path: each event names the indices of the very
/// points the value iterator's event carries, so consumers can index the
/// points array themselves or attach side tables keyed by point identity.
pub struct IdIter<'l> {
    pub(crate) verbs: &'l [Verb],
    pub(crate) v: usize,
    pub(crate) next_point: u32,
    pub(crate) last_endpoint: u32,
    pub(crate) first: u32,
}

impl<'l> IdIter<'l> {
    /// The replayed tag stream, as a sequence.
    pub closed spec fn verbs_seq(self) -> Seq<Verb> {
        self.verbs@
    }

    /// Cursor into the tag stream.
    pub closed spec fn verb_cursor(self) -> int {
        self.v as int
    }

    /// Index of the first point the next tag will consume.
    pub closed spec fn next_index(self) -> nat {
        self.next_point as nat
    }

    /// Index of the endpoint the current position stands at.
    pub closed spec fn last_ep(self) -> nat {
        self.last_endpoint as nat
    }

    /// Index of the point at the most recent `Begin`.
    pub closed spec fn fst(self) -> nat {
        self.first as nat
    }

    /// The point cursor never runs past `u32::MAX` while consuming the
    /// remaining tags.
    pub open spec fn wf(self) -> bool {
        &&& 0 <= self.verb_cursor() <= self.verbs_seq().len()
        &&& self.next_index() + total_arity(self.verbs_seq().skip(self.verb_cursor())) <= u32::MAX
    }

    /// The events this iterator has yet to produce.
    pub open spec fn remaining(self) -> Seq<IdEvent> {
        id_events_from(
            self.verbs_seq().skip(self.verb_cursor()),
            self.next_index(),
            self.last_ep(),
            self.fst(),
        )
    }

    pub(crate) fn new(verbs: &'l [Verb]) -> (it: Self)
        requires
            total_arity(verbs@) <= u32::MAX,
        ensures
            it.wf(),
            it.remaining() == id_path_events(verbs@),
    {
        let it = IdIter { verbs, v: 0, next_point: 0, last_endpoint: 0, first: 0 };
        proof {
            assert(verbs@.skip(0) =~= verbs@);
        }
        it
    }

    /// Produces the next event, or `None` when the tag stream is exhausted.
    /// Exhaustion is sticky, exactly as for [`Iter::next`].
    pub fn next(&mut self) -> (r: Option<IdEvent>)
        requires
            old(self).wf(),
        ensures
            final(self).wf(),
            r is None <==> old(self).remaining().len() == 0,
            r is None ==> *final(self) == *old(self),
            old(self).remaining().len() > 0 ==> r == Some(old(self).remaining()[0])
                && final(self).remaining() == old(self).remaining().skip(1),
    {
        if self.v >= self.verbs.len() {
            proof {
                assert(old(self).verbs_seq().skip(old(self).verb_cursor()) =~= Seq::<
                    Verb,
                >::empty());
            }
            return None;
        }
        let ghost pre = *self;
        let verb = self.verbs[self.v];
        self.v = self.v + 1;
        proof {
            assert(pre.verbs_seq().skip(pre.verb_cursor())[0] == verb);
            assert(pre.verbs_seq().skip(pre.verb_cursor()).skip(1) =~= pre.verbs_seq().skip(
                pre.verb_cursor() + 1,
            ));
        }
        match verb {
            Verb::Begin => {
                let at = self.next_point;
                self.first = at;
                self.last_endpoint = at;
                self.next_point = at + 1;
                Some(IdEvent::Begin { at: EndpointId(at) })
            },
            Verb::LineTo => {
                let from = EndpointId(self.last_endpoint);
                let to = EndpointId(self.next_point);
                self.last_endpoint = self.next_point;
                self.next_point = self.next_point + 1;
                Some(IdEvent::Line { from, to })
            },
            Verb::QuadraticTo => {
                let from = EndpointId(self.last_endpoint);
                let ctrl = CtrlPointId(self.next_point);
                let to = EndpointId(self.next_point + 1);
                self.last_endpoint = self.next_point + 1;
                self.next_point = self.next_point + 2;
                Some(IdEvent::Quadratic { from, ctrl, to })
            },
            Verb::CubicTo => {
                let from = EndpointId(self.last_endpoint);
                let ctrl1 = CtrlPointId(self.next_point);
                let ctrl2 = CtrlPointId(self.next_point + 1);
                let to = EndpointId(self.next_point + 2);
                self.last_endpoint = self.next_point + 2;
                self.next_point = self.next_point + 3;
                Some(IdEvent::Cubic { from, ctrl1, ctrl2, to })
            },
            Verb::Close => {
                let last = EndpointId(self.last_endpoint);
                let first = EndpointId(self.first);
                self.last_endpoint = self.first;
                Some(IdEvent::End { last, first, close: true })
            },
            Verb::End => {
                let last = EndpointId(self.last_endpoint);
                let first = EndpointId(self.first);
                self.last_endpoint = self.first;
                Some(IdEvent::End { last, first, close: false })
            },
        }
    }
}

} // verus!
