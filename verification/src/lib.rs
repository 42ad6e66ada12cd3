//! A compact, immutable representation of 2D vector paths.
//!
//! A path is stored as two parallel arrays: a flat buffer of points and a
//! stream of zero-payload operation tags (verbs).  A mutable [`Builder`]
//! normalizes incremental construction calls into a valid tag/point stream,
//! and iterators replay the frozen arrays as geometric events carrying either
//! point values ([`Iter`]) or point indices ([`IdIter`]).  A free function
//! [`reverse_path`] replays a path backward into a builder, producing an
//! equivalent path traversed in the opposite direction.

mod builder;
mod events;
mod geometry;
mod laws;
mod path;
mod reverse;

pub use builder::{snap_points, Builder, BuilderModel, QuadraticSegment};
pub use events::{
    event_kind, events_from, id_events_from, id_path_events, path_events, total_arity, verb_arity,
    Event, IdEvent, PathEvent, Verb,
};
pub use geometry::{l1_near, point, CtrlPointId, EndpointId, Point, SNAP_TOLERANCE, UNIT};
pub use laws::{
    buildable, buildable_from, builder_inv, builder_scan_end, lemma_builder_inv_buildable,
    lemma_builder_inv_close, lemma_builder_inv_cubic, lemma_builder_inv_fresh,
    lemma_builder_inv_line_to, lemma_builder_inv_lines, lemma_builder_inv_move_to,
    lemma_builder_inv_polygon, lemma_builder_inv_quadratic, lemma_builder_inv_quadratics,
    lemma_event_id_lock_step, lemma_merge_events, lemma_round_trip, owed_end, replay_cmd_of,
    replay_cmds, scan, scan_start, BuildState, ScanEnd,
};
pub use path::{IdIter, Iter, Path, PathSlice};
pub use reverse::{
    apply_cmd, apply_cmds, lemma_rev_points_sub_paths, lemma_rev_verbs_sub_paths,
    lemma_reversal_wf_reversible, lemma_reverse_arrays, lemma_reverse_involution,
    lemma_reversed_sub_paths_involution, lemma_reversed_sub_paths_wf, lemma_scan_sub_paths,
    rev_cmds, rev_verbs_from, reversal_wf, reverse_path, reversed_sub_paths, reversible, rev_owed,
    rev_pushed, rev_scannable, sub_paths_points, sub_paths_verbs, sub_paths_wf, PathCmd, RevScan,
    SubPath,
};
