//! Operation tags, geometric events, and the replay semantics.
//!
//! A path is meaningful only as the pair of its tag stream and its point
//! buffer, interpreted together: each tag consumes a fixed number of points
//! (its arity) and yields one event.  The spec functions here define that
//! interpretation once; iterators, reversal and the library's laws are all
//! stated against it.

use vstd::prelude::*;

use crate::geometry::{origin, CtrlPointId, EndpointId, Point};

verus! {

/// A zero-payload operation tag.  It identifies what the next group of
/// points in the parallel points array means.
#[derive(Clone, Copy, PartialEq, Eq, Structural, Debug)]
pub enum Verb {
    LineTo,
    QuadraticTo,
    CubicTo,
    Begin,
    Close,
    End,
}

/// A geometric event, parameterized by how endpoints and control points are
/// represented: as point values for [`crate::Iter`], as point identifiers
/// for [`crate::IdIter`].
#[derive(Clone, Copy, PartialEq, Eq, Structural, Debug)]
pub enum Event<E, C> {
    Begin { at: E },
    Line { from: E, to: E },
    Quadratic { from: E, ctrl: C, to: E },
    Cubic { from: E, ctrl1: C, ctrl2: C, to: E },
    End { last: E, first: E, close: bool },
}

/// An event carrying point values.
pub type PathEvent = Event<Point, Point>;

/// An event carrying point identifiers.
pub type IdEvent = Event<EndpointId, CtrlPointId>;

/// How many points a tag consumes from the points array.
pub open spec fn verb_arity(v: Verb) -> nat {
    match v {
        Verb::LineTo => 1,
        Verb::QuadraticTo => 2,
        Verb::CubicTo => 3,
        Verb::Begin => 1,
        Verb::Close => 0,
        Verb::End => 0,
    }
}

/// Runtime twin of [`verb_arity`].
pub(crate) fn n_stored_points(verb: Verb) -> (r: u32)
    ensures
        r == verb_arity(verb),
{
    match verb {
        Verb::Begin => 1,
        Verb::LineTo => 1,
        Verb::QuadraticTo => 2,
        Verb::CubicTo => 3,
        Verb::Close => 0,
        Verb::End => 0,
    }
}

/// Total number of points a tag stream consumes.
pub open spec fn total_arity(verbs: Seq<Verb>) -> nat
    decreases verbs.len(),
{
    if verbs.len() == 0 {
        0
    } else {
        verb_arity(verbs[0]) + total_arity(verbs.skip(1))
    }
}

/// The kind of an event: the tag that produces it on replay.
pub open spec fn event_kind<E, C>(e: Event<E, C>) -> Verb {
    match e {
        Event::Begin { .. } => Verb::Begin,
        Event::Line { .. } => Verb::LineTo,
        Event::Quadratic { .. } => Verb::QuadraticTo,
        Event::Cubic { .. } => Verb::CubicTo,
        Event::End { close, .. } => if close {
            Verb::Close
        } else {
            Verb::End
        },
    }
}

/// The value-level events obtained by replaying `verbs` against `points`,
/// starting with current position `cur` and sub-path start `fst`.
///
/// This is the reference semantics of a path: one event per tag, each tag
/// consuming [`verb_arity`] points.  `Close` and `End` consume nothing and
/// reset the current position to the sub-path start.
pub open spec fn events_from(verbs: Seq<Verb>, points: Seq<Point>, cur: Point, fst: Point) -> Seq<
    PathEvent,
>
    decreases verbs.len(),
{
    if verbs.len() == 0 {
        Seq::empty()
    } else {
        match verbs[0] {
            Verb::Begin => seq![PathEvent::Begin { at: points[0] }] + events_from(
                verbs.skip(1),
                points.skip(1),
                points[0],
                points[0],
            ),
            Verb::LineTo => seq![PathEvent::Line { from: cur, to: points[0] }] + events_from(
                verbs.skip(1),
                points.skip(1),
                points[0],
                fst,
            ),
            Verb::QuadraticTo => seq![
                PathEvent::Quadratic { from: cur, ctrl: points[0], to: points[1] },
            ] + events_from(verbs.skip(1), points.skip(2), points[1], fst),
            Verb::CubicTo => seq![
                PathEvent::Cubic { from: cur, ctrl1: points[0], ctrl2: points[1], to: points[2] },
            ] + events_from(verbs.skip(1), points.skip(3), points[2], fst),
            Verb::Close => seq![PathEvent::End { last: cur, first: fst, close: true }]
                + events_from(verbs.skip(1), points, fst, fst),
            Verb::End => seq![PathEvent::End { last: cur, first: fst, close: false }]
                + events_from(verbs.skip(1), points, fst, fst),
        }
    }
}

/// The events of a whole path: replay from the origin.
pub open spec fn path_events(verbs: Seq<Verb>, points: Seq<Point>) -> Seq<PathEvent> {
    events_from(verbs, points, origin(), origin())
}

/// The index-level events obtained by replaying `verbs` alone: each event
/// carries the indices of the very points [`events_from`] consumes for the
/// same tag.  `next` is the index of the first point the next tag will
/// consume, `last_ep` the index of the endpoint the current position
/// stands at, and `fst` the index of the current sub-path's `Begin` point.
/// `Close` and `End` consume nothing and leave the current position at the
/// sub-path start, so they reset `last_ep` to `fst`, never `next`.
pub open spec fn id_events_from(verbs: Seq<Verb>, next: nat, last_ep: nat, fst: nat) -> Seq<
    IdEvent,
>
    decreases verbs.len(),
{
    if verbs.len() == 0 {
        Seq::empty()
    } else {
        match verbs[0] {
            Verb::Begin => seq![IdEvent::Begin { at: EndpointId(next as u32) }] + id_events_from(
                verbs.skip(1),
                next + 1,
                next,
                next,
            ),
            Verb::LineTo => seq![
                IdEvent::Line { from: EndpointId(last_ep as u32), to: EndpointId(next as u32) },
            ] + id_events_from(verbs.skip(1), next + 1, next, fst),
            Verb::QuadraticTo => seq![
                IdEvent::Quadratic {
                    from: EndpointId(last_ep as u32),
                    ctrl: CtrlPointId(next as u32),
                    to: EndpointId((next + 1) as u32),
                },
            ] + id_events_from(verbs.skip(1), next + 2, next + 1, fst),
            Verb::CubicTo => seq![
                IdEvent::Cubic {
                    from: EndpointId(last_ep as u32),
                    ctrl1: CtrlPointId(next as u32),
                    ctrl2: CtrlPointId((next + 1) as u32),
                    to: EndpointId((next + 2) as u32),
                },
            ] + id_events_from(verbs.skip(1), next + 3, next + 2, fst),
            Verb::Close => seq![
                IdEvent::End {
                    last: EndpointId(last_ep as u32),
                    first: EndpointId(fst as u32),
                    close: true,
                },
            ] + id_events_from(verbs.skip(1), next, fst, fst),
            Verb::End => seq![
                IdEvent::End {
                    last: EndpointId(last_ep as u32),
                    first: EndpointId(fst as u32),
                    close: false,
                },
            ] + id_events_from(verbs.skip(1), next, fst, fst),
        }
    }
}

/// The index-level events of a whole path.
pub open spec fn id_path_events(verbs: Seq<Verb>) -> Seq<IdEvent> {
    id_events_from(verbs, 0, 0, 0)
}

/// Replay yields exactly one event per tag.
pub proof fn lemma_events_len(verbs: Seq<Verb>, points: Seq<Point>, cur: Point, fst: Point)
    ensures
        events_from(verbs, points, cur, fst).len() == verbs.len(),
    decreases verbs.len(),
{
    if verbs.len() > 0 {
        match verbs[0] {
            Verb::Begin => lemma_events_len(
                verbs.skip(1),
                points.skip(1),
                points[0],
                points[0],
            ),
            Verb::LineTo => lemma_events_len(verbs.skip(1), points.skip(1), points[0], fst),
            Verb::QuadraticTo => lemma_events_len(verbs.skip(1), points.skip(2), points[1], fst),
            Verb::CubicTo => lemma_events_len(verbs.skip(1), points.skip(3), points[2], fst),
            Verb::Close => lemma_events_len(verbs.skip(1), points, fst, fst),
            Verb::End => lemma_events_len(verbs.skip(1), points, fst, fst),
        }
    }
}

/// Index-level replay also yields exactly one event per tag.
pub proof fn lemma_id_events_len(verbs: Seq<Verb>, next: nat, last_ep: nat, fst: nat)
    ensures
        id_events_from(verbs, next, last_ep, fst).len() == verbs.len(),
    decreases verbs.len(),
{
    if verbs.len() > 0 {
        match verbs[0] {
            Verb::Begin => lemma_id_events_len(verbs.skip(1), next + 1, next, next),
            Verb::LineTo => lemma_id_events_len(verbs.skip(1), next + 1, next, fst),
            Verb::QuadraticTo => lemma_id_events_len(verbs.skip(1), next + 2, next + 1, fst),
            Verb::CubicTo => lemma_id_events_len(verbs.skip(1), next + 3, next + 2, fst),
            Verb::Close => lemma_id_events_len(verbs.skip(1), next, fst, fst),
            Verb::End => lemma_id_events_len(verbs.skip(1), next, fst, fst),
        }
    }
}

/// Arity adds up over concatenation of tag streams.
pub proof fn lemma_total_arity_concat(a: Seq<Verb>, b: Seq<Verb>)
    ensures
        total_arity(a + b) == total_arity(a) + total_arity(b),
    decreases a.len(),
{
    if a.len() == 0 {
        assert(a + b =~= b);
    } else {
        assert((a + b).skip(1) =~= a.skip(1) + b);
        lemma_total_arity_concat(a.skip(1), b);
    }
}

/// Arity of a stream extended by one tag.
pub proof fn lemma_total_arity_push(a: Seq<Verb>, v: Verb)
    ensures
        total_arity(a.push(v)) == total_arity(a) + verb_arity(v),
{
    assert(a.push(v) =~= a + seq![v]);
    lemma_total_arity_concat(a, seq![v]);
    assert(total_arity(seq![v]) == verb_arity(v)) by {
        reveal_with_fuel(total_arity, 2);
        assert(seq![v][0] == v);
        assert(seq![v].skip(1) =~= Seq::<Verb>::empty());
    }
}

/// Arity of one more tag of a prefix.
pub proof fn lemma_total_arity_take_succ(s: Seq<Verb>, i: int)
    requires
        0 <= i < s.len(),
    ensures
        total_arity(s.take(i + 1)) == total_arity(s.take(i)) + verb_arity(s[i]),
{
    assert(s.take(i + 1) =~= s.take(i).push(s[i]));
    lemma_total_arity_push(s.take(i), s[i]);
}

} // verus!
