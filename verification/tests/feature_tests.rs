use vector_path::{
    point, reverse_path, Builder, CtrlPointId, EndpointId, IdEvent, Path, PathEvent, Point,
    QuadraticSegment, SNAP_TOLERANCE, UNIT,
};

fn pt(x: i64, y: i64) -> Point {
    point(x * UNIT, y * UNIT)
}

fn collect_events(path: &Path) -> Vec<PathEvent> {
    let mut events = Vec::new();
    let mut it = path.iter();
    loop {
        match it.next() {
            Some(e) => events.push(e),
            None => break,
        }
    }
    events
}

fn replay(events: &[PathEvent]) -> Path {
    let mut builder = Path::builder();
    for e in events {
        match *e {
            PathEvent::Begin { at } => builder.move_to(at),
            PathEvent::Line { to, .. } => builder.line_to(to),
            PathEvent::Quadratic { ctrl, to, .. } => builder.quadratic_bezier_to(ctrl, to),
            PathEvent::Cubic { ctrl1, ctrl2, to, .. } => {
                builder.cubic_bezier_to(ctrl1, ctrl2, to)
            }
            PathEvent::End { close: true, .. } => builder.close(),
            PathEvent::End { close: false, .. } => {}
        }
    }
    builder.build()
}

#[test]
fn test_empty_path_yields_no_event() {
    let path = Path::builder().build();
    assert_eq!(path.iter().next(), None);
    assert!(path.as_slice().is_empty());
    assert_eq!(path.points().len(), 0);
}

#[test]
fn test_bare_move_events() {
    let mut builder = Path::builder();
    builder.move_to(pt(0, 0));
    let path = builder.build();
    let mut it = path.iter();
    assert_eq!(it.next(), Some(PathEvent::Begin { at: pt(0, 0) }));
    assert_eq!(
        it.next(),
        Some(PathEvent::End { last: pt(0, 0), first: pt(0, 0), close: false })
    );
    assert_eq!(it.next(), None);
}

#[test]
fn test_iterator_exhaustion_is_sticky() {
    let mut builder = Path::builder();
    builder.move_to(pt(1, 1));
    builder.line_to(pt(2, 2));
    let path = builder.build();
    let mut it = path.iter();
    while it.next().is_some() {}
    assert_eq!(it.next(), None);
    assert_eq!(it.next(), None);
    let mut id_it = path.id_iter();
    while id_it.next().is_some() {}
    assert_eq!(id_it.next(), None);
    assert_eq!(id_it.next(), None);
}

#[test]
fn test_round_trip_identity() {
    let mut builder = Path::builder();
    builder.line_to(pt(1, 0));
    builder.quadratic_bezier_to(pt(2, 0), pt(2, 1));
    builder.close();
    builder.move_to(pt(10, 0));
    builder.cubic_bezier_to(pt(11, 0), pt(11, 1), pt(10, 1));
    builder.move_to(pt(20, 0));
    builder.line_to(pt(21, 0));
    let path = builder.build();

    let rebuilt = replay(&collect_events(&path));
    assert_eq!(path.points(), rebuilt.points());
    assert_eq!(collect_events(&path), collect_events(&rebuilt));
}

#[test]
fn test_reverse_involution_events() {
    let mut builder = Path::builder();
    builder.move_to(pt(0, 0));
    builder.line_to(pt(1, 0));
    builder.quadratic_bezier_to(pt(1, 1), pt(0, 1));
    builder.close();
    builder.move_to(pt(5, 5));
    builder.cubic_bezier_to(pt(6, 5), pt(6, 6), pt(5, 6));
    let path = builder.build();

    let mut builder = Path::builder();
    reverse_path(path.as_slice(), &mut builder);
    let once = builder.build();
    let mut builder = Path::builder();
    reverse_path(once.as_slice(), &mut builder);
    let twice = builder.build();

    assert_eq!(collect_events(&path), collect_events(&twice));
}

#[test]
fn test_reverse_quadratic_open_subpath() {
    let mut builder = Path::builder();
    builder.move_to(pt(20, 0));
    builder.quadratic_bezier_to(pt(21, 0), pt(21, 1));
    let path = builder.build();

    let mut builder = Path::builder();
    reverse_path(path.as_slice(), &mut builder);
    let reversed = builder.build();
    let mut it = reversed.iter();
    assert_eq!(it.next(), Some(PathEvent::Begin { at: pt(21, 1) }));
    assert_eq!(
        it.next(),
        Some(PathEvent::Quadratic { from: pt(21, 1), ctrl: pt(21, 0), to: pt(20, 0) })
    );
    assert_eq!(
        it.next(),
        Some(PathEvent::End { last: pt(20, 0), first: pt(21, 1), close: false })
    );
    assert_eq!(it.next(), None);
}

#[test]
fn test_event_id_lock_step_kinds() {
    let mut builder = Path::builder();
    builder.move_to(pt(0, 0));
    builder.line_to(pt(1, 0));
    builder.quadratic_bezier_to(pt(2, 0), pt(2, 1));
    builder.cubic_bezier_to(pt(3, 0), pt(3, 1), pt(3, 2));
    builder.close();
    builder.move_to(pt(9, 9));
    let path = builder.build();

    let mut it = path.iter();
    let mut id_it = path.id_iter();
    loop {
        let e = it.next();
        let id_e = id_it.next();
        match (e, id_e) {
            (None, None) => break,
            (Some(ev), Some(id_ev)) => {
                let same_kind = match (ev, id_ev) {
                    (PathEvent::Begin { .. }, IdEvent::Begin { .. }) => true,
                    (PathEvent::Line { .. }, IdEvent::Line { .. }) => true,
                    (PathEvent::Quadratic { .. }, IdEvent::Quadratic { .. }) => true,
                    (PathEvent::Cubic { .. }, IdEvent::Cubic { .. }) => true,
                    (
                        PathEvent::End { close: c1, .. },
                        IdEvent::End { close: c2, .. },
                    ) => c1 == c2,
                    _ => false,
                };
                assert!(same_kind);
            }
            _ => panic!("one iterator ended before the other"),
        }
    }
}

#[test]
fn test_id_iter_indices() {
    let mut builder = Path::builder();
    builder.move_to(pt(0, 0));
    builder.line_to(pt(1, 0));
    builder.quadratic_bezier_to(pt(2, 0), pt(2, 1));
    builder.close();
    let path = builder.build();

    let mut it = path.id_iter();
    assert_eq!(it.next(), Some(IdEvent::Begin { at: EndpointId(0) }));
    assert_eq!(
        it.next(),
        Some(IdEvent::Line { from: EndpointId(0), to: EndpointId(1) })
    );
    assert_eq!(
        it.next(),
        Some(IdEvent::Quadratic {
            from: EndpointId(1),
            ctrl: CtrlPointId(2),
            to: EndpointId(3)
        })
    );
    assert_eq!(
        it.next(),
        Some(IdEvent::End { last: EndpointId(3), first: EndpointId(0), close: true })
    );
    assert_eq!(it.next(), None);

    // The identifiers name exactly the points the value events carry.
    assert_eq!(path.endpoint(EndpointId(0)), pt(0, 0));
    assert_eq!(path.endpoint(EndpointId(1)), pt(1, 0));
    assert_eq!(path.ctrl_point(CtrlPointId(2)), pt(2, 0));
    assert_eq!(path.endpoint(EndpointId(3)), pt(2, 1));
}

#[test]
fn test_indexed_point_lookup() {
    let mut builder = Path::builder();
    builder.move_to(pt(1, 2));
    builder.quadratic_bezier_to(pt(3, 4), pt(5, 6));
    let path = builder.build();
    assert_eq!(path.endpoint(EndpointId(0)), pt(1, 2));
    assert_eq!(path.ctrl_point(CtrlPointId(1)), pt(3, 4));
    assert_eq!(path.endpoint(EndpointId(2)), pt(5, 6));
}

#[test]
fn test_close_snaps_nearby_last_point() {
    let mut builder = Path::builder();
    builder.move_to(pt(1, 0));
    builder.line_to(pt(5, 0));
    builder.line_to(point(UNIT + SNAP_TOLERANCE / 2, SNAP_TOLERANCE / 4));
    builder.close();
    let path = builder.build();
    let mut it = path.iter();
    assert_eq!(it.next(), Some(PathEvent::Begin { at: pt(1, 0) }));
    assert_eq!(it.next(), Some(PathEvent::Line { from: pt(1, 0), to: pt(5, 0) }));
    assert_eq!(it.next(), Some(PathEvent::Line { from: pt(5, 0), to: pt(1, 0) }));
    assert_eq!(
        it.next(),
        Some(PathEvent::End { last: pt(1, 0), first: pt(1, 0), close: true })
    );
    assert_eq!(it.next(), None);
}

#[test]
fn test_close_keeps_distant_last_point() {
    let distant = point(UNIT + SNAP_TOLERANCE, 0);
    let mut builder = Path::builder();
    builder.move_to(pt(1, 0));
    builder.line_to(pt(5, 0));
    builder.line_to(distant);
    builder.close();
    let path = builder.build();
    let mut it = path.iter();
    assert_eq!(it.next(), Some(PathEvent::Begin { at: pt(1, 0) }));
    assert_eq!(it.next(), Some(PathEvent::Line { from: pt(1, 0), to: pt(5, 0) }));
    assert_eq!(it.next(), Some(PathEvent::Line { from: pt(5, 0), to: distant }));
    assert_eq!(
        it.next(),
        Some(PathEvent::End { last: distant, first: pt(1, 0), close: true })
    );
    assert_eq!(it.next(), None);
}

#[test]
fn test_polygon_empty_adds_nothing() {
    let mut builder = Path::builder();
    let corners: [Point; 0] = [];
    builder.polygon(&corners);
    let path = builder.build();
    assert_eq!(path.iter().next(), None);
}

#[test]
fn test_polygon_builds_closed_subpath() {
    let mut builder = Path::builder();
    let corners = [pt(0, 0), pt(2, 0), pt(2, 2), pt(0, 2)];
    builder.polygon(&corners);
    let path = builder.build();
    let mut it = path.iter();
    assert_eq!(it.next(), Some(PathEvent::Begin { at: pt(0, 0) }));
    assert_eq!(it.next(), Some(PathEvent::Line { from: pt(0, 0), to: pt(2, 0) }));
    assert_eq!(it.next(), Some(PathEvent::Line { from: pt(2, 0), to: pt(2, 2) }));
    assert_eq!(it.next(), Some(PathEvent::Line { from: pt(2, 2), to: pt(0, 2) }));
    assert_eq!(
        it.next(),
        Some(PathEvent::End { last: pt(0, 2), first: pt(0, 0), close: true })
    );
    assert_eq!(it.next(), None);
}

#[test]
fn test_arc_replays_quadratic_segments() {
    let mut builder = Path::builder();
    builder.move_to(pt(2, 0));
    let segments = [
        QuadraticSegment { ctrl: pt(2, 1), to: pt(1, 1) },
        QuadraticSegment { ctrl: pt(0, 1), to: pt(0, 0) },
    ];
    builder.arc(&segments);
    let path = builder.build();
    let mut it = path.iter();
    assert_eq!(it.next(), Some(PathEvent::Begin { at: pt(2, 0) }));
    assert_eq!(
        it.next(),
        Some(PathEvent::Quadratic { from: pt(2, 0), ctrl: pt(2, 1), to: pt(1, 1) })
    );
    assert_eq!(
        it.next(),
        Some(PathEvent::Quadratic { from: pt(1, 1), ctrl: pt(0, 1), to: pt(0, 0) })
    );
    assert_eq!(
        it.next(),
        Some(PathEvent::End { last: pt(0, 0), first: pt(2, 0), close: false })
    );
    assert_eq!(it.next(), None);
}

#[test]
fn test_build_and_reset_keeps_builder_usable() {
    let mut builder = Builder::new();
    builder.move_to(pt(1, 1));
    builder.line_to(pt(2, 1));
    // The freeze is the same as build's: the open sub-path gets its
    // synthetic terminator.
    let first = builder.build_and_reset();
    assert_eq!(first.points().len(), 2);
    let mut it = first.iter();
    assert_eq!(it.next(), Some(PathEvent::Begin { at: pt(1, 1) }));
    assert_eq!(it.next(), Some(PathEvent::Line { from: pt(1, 1), to: pt(2, 1) }));
    assert_eq!(
        it.next(),
        Some(PathEvent::End { last: pt(2, 1), first: pt(1, 1), close: false })
    );
    assert_eq!(it.next(), None);

    // The builder starts over from its fresh state.
    assert_eq!(builder.current_position(), pt(0, 0));
    builder.move_to(pt(3, 3));
    let second = builder.build();
    let mut it = second.iter();
    assert_eq!(it.next(), Some(PathEvent::Begin { at: pt(3, 3) }));
    assert_eq!(
        it.next(),
        Some(PathEvent::End { last: pt(3, 3), first: pt(3, 3), close: false })
    );
    assert_eq!(it.next(), None);
}

#[test]
fn test_current_position_tracks_operations() {
    let mut builder = Path::builder();
    assert_eq!(builder.current_position(), pt(0, 0));
    builder.move_to(pt(1, 1));
    assert_eq!(builder.current_position(), pt(1, 1));
    builder.line_to(pt(2, 2));
    assert_eq!(builder.current_position(), pt(2, 2));
    builder.close();
    assert_eq!(builder.current_position(), pt(1, 1));
}

#[test]
fn test_merge_does_not_mutate_operands() {
    let mut builder = Path::builder();
    builder.move_to(pt(0, 0));
    builder.line_to(pt(1, 0));
    builder.close();
    let path1 = builder.build();

    let mut builder = Path::builder();
    builder.move_to(pt(4, 4));
    builder.line_to(pt(5, 4));
    builder.close();
    let path2 = builder.build();

    let before1 = collect_events(&path1);
    let before2 = collect_events(&path2);
    let merged = path1.merge(&path2);
    assert_eq!(collect_events(&path1), before1);
    assert_eq!(collect_events(&path2), before2);

    let mut expected = before1.clone();
    expected.extend(before2.iter().cloned());
    assert_eq!(collect_events(&merged), expected);
}

#[test]
fn test_mut_points_edits_in_place() {
    let mut builder = Path::builder();
    builder.move_to(pt(1, 1));
    builder.line_to(pt(2, 2));
    let mut path = builder.build();
    {
        let points = path.mut_points();
        points[0] = pt(7, 7);
    }
    assert_eq!(path.points()[0], pt(7, 7));
    let mut it = path.iter();
    assert_eq!(it.next(), Some(PathEvent::Begin { at: pt(7, 7) }));
}

#[test]
fn test_path_slice_views_same_data() {
    let mut builder = Path::builder();
    builder.move_to(pt(1, 0));
    builder.line_to(pt(2, 0));
    let path = builder.build();
    let slice = path.as_slice();
    assert!(!slice.is_empty());
    assert_eq!(slice.points(), path.points());
    let mut it = slice.iter();
    assert_eq!(it.next(), Some(PathEvent::Begin { at: pt(1, 0) }));
    assert_eq!(it.next(), Some(PathEvent::Line { from: pt(1, 0), to: pt(2, 0) }));
    assert_eq!(
        it.next(),
        Some(PathEvent::End { last: pt(2, 0), first: pt(1, 0), close: false })
    );
    assert_eq!(it.next(), None);
}
