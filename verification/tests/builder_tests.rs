use vector_path::{point, Builder, Path, PathEvent, Point, UNIT};

fn pt(x: i64, y: i64) -> Point {
    point(x * UNIT, y * UNIT)
}

#[test]
fn test_path_builder_1() {
    let mut p = Builder::with_capacity(0, 0);
    p.line_to(pt(1, 0));
    p.line_to(pt(2, 0));
    p.line_to(pt(3, 0));
    p.quadratic_bezier_to(pt(4, 0), pt(4, 1));
    p.cubic_bezier_to(pt(5, 0), pt(5, 1), pt(5, 2));
    p.close();

    p.move_to(pt(10, 0));
    p.line_to(pt(11, 0));
    p.line_to(pt(12, 0));
    p.line_to(pt(13, 0));
    p.quadratic_bezier_to(pt(14, 0), pt(14, 1));
    p.cubic_bezier_to(pt(15, 0), pt(15, 1), pt(15, 2));
    p.close();

    p.close();
    p.move_to(pt(1, 1));
    p.move_to(pt(2, 2));
    p.move_to(pt(3, 3));
    p.line_to(pt(4, 4));

    let path = p.build();

    let mut it = path.iter();
    assert_eq!(it.next(), Some(PathEvent::Begin { at: pt(0, 0) }));
    assert_eq!(it.next(), Some(PathEvent::Line { from: pt(0, 0), to: pt(1, 0) }));
    assert_eq!(it.next(), Some(PathEvent::Line { from: pt(1, 0), to: pt(2, 0) }));
    assert_eq!(it.next(), Some(PathEvent::Line { from: pt(2, 0), to: pt(3, 0) }));
    assert_eq!(
        it.next(),
        Some(PathEvent::Quadratic { from: pt(3, 0), ctrl: pt(4, 0), to: pt(4, 1) })
    );
    assert_eq!(
        it.next(),
        Some(PathEvent::Cubic { from: pt(4, 1), ctrl1: pt(5, 0), ctrl2: pt(5, 1), to: pt(5, 2) })
    );
    assert_eq!(
        it.next(),
        Some(PathEvent::End { last: pt(5, 2), first: pt(0, 0), close: true })
    );

    assert_eq!(it.next(), Some(PathEvent::Begin { at: pt(10, 0) }));
    assert_eq!(it.next(), Some(PathEvent::Line { from: pt(10, 0), to: pt(11, 0) }));
    assert_eq!(it.next(), Some(PathEvent::Line { from: pt(11, 0), to: pt(12, 0) }));
    assert_eq!(it.next(), Some(PathEvent::Line { from: pt(12, 0), to: pt(13, 0) }));
    assert_eq!(
        it.next(),
        Some(PathEvent::Quadratic { from: pt(13, 0), ctrl: pt(14, 0), to: pt(14, 1) })
    );
    assert_eq!(
        it.next(),
        Some(PathEvent::Cubic {
            from: pt(14, 1),
            ctrl1: pt(15, 0),
            ctrl2: pt(15, 1),
            to: pt(15, 2)
        })
    );
    assert_eq!(
        it.next(),
        Some(PathEvent::End { last: pt(15, 2), first: pt(10, 0), close: true })
    );

    // Not clear that this is the most useful behavior.
    // Closing when there is no path should probably be dropped.
    assert_eq!(
        it.next(),
        Some(PathEvent::End { last: pt(10, 0), first: pt(10, 0), close: true })
    );

    assert_eq!(it.next(), Some(PathEvent::Begin { at: pt(1, 1) }));
    assert_eq!(
        it.next(),
        Some(PathEvent::End { last: pt(1, 1), first: pt(1, 1), close: false })
    );
    assert_eq!(it.next(), Some(PathEvent::Begin { at: pt(2, 2) }));
    assert_eq!(
        it.next(),
        Some(PathEvent::End { last: pt(2, 2), first: pt(2, 2), close: false })
    );
    assert_eq!(it.next(), Some(PathEvent::Begin { at: pt(3, 3) }));
    assert_eq!(it.next(), Some(PathEvent::Line { from: pt(3, 3), to: pt(4, 4) }));
    assert_eq!(
        it.next(),
        Some(PathEvent::End { last: pt(4, 4), first: pt(3, 3), close: false })
    );
    assert_eq!(it.next(), None);
    assert_eq!(it.next(), None);
    assert_eq!(it.next(), None);
}

#[test]
fn test_path_builder_empty() {
    let path = Path::builder().build();
    let mut it = path.iter();
    assert_eq!(it.next(), None);
    assert_eq!(it.next(), None);
}

#[test]
fn test_path_builder_empty_move_to() {
    let mut p = Path::builder();
    p.move_to(pt(1, 2));
    p.move_to(pt(3, 4));
    p.move_to(pt(5, 6));

    let path = p.build();
    let mut it = path.iter();
    assert_eq!(it.next(), Some(PathEvent::Begin { at: pt(1, 2) }));
    assert_eq!(
        it.next(),
        Some(PathEvent::End { last: pt(1, 2), first: pt(1, 2), close: false })
    );
    assert_eq!(it.next(), Some(PathEvent::Begin { at: pt(3, 4) }));
    assert_eq!(
        it.next(),
        Some(PathEvent::End { last: pt(3, 4), first: pt(3, 4), close: false })
    );
    assert_eq!(it.next(), Some(PathEvent::Begin { at: pt(5, 6) }));
    assert_eq!(
        it.next(),
        Some(PathEvent::End { last: pt(5, 6), first: pt(5, 6), close: false })
    );
    assert_eq!(it.next(), None);
    assert_eq!(it.next(), None);
}

#[test]
fn test_path_builder_line_to_after_close() {
    let mut p = Path::builder();
    p.line_to(pt(1, 0));
    p.close();
    p.line_to(pt(2, 0));

    let path = p.build();
    let mut it = path.iter();
    assert_eq!(it.next(), Some(PathEvent::Begin { at: pt(0, 0) }));
    assert_eq!(it.next(), Some(PathEvent::Line { from: pt(0, 0), to: pt(1, 0) }));
    assert_eq!(
        it.next(),
        Some(PathEvent::End { last: pt(1, 0), first: pt(0, 0), close: true })
    );
    assert_eq!(it.next(), Some(PathEvent::Begin { at: pt(0, 0) }));
    assert_eq!(it.next(), Some(PathEvent::Line { from: pt(0, 0), to: pt(2, 0) }));
    assert_eq!(
        it.next(),
        Some(PathEvent::End { last: pt(2, 0), first: pt(0, 0), close: false })
    );
    assert_eq!(it.next(), None);
}

#[test]
fn test_merge_paths() {
    let mut builder = Path::builder();
    builder.move_to(pt(0, 0));
    builder.line_to(pt(5, 0));
    builder.line_to(pt(5, 5));
    builder.close();

    let path1 = builder.build();

    let mut builder = Path::builder();
    builder.move_to(pt(1, 1));
    builder.line_to(pt(4, 0));
    builder.line_to(pt(4, 4));
    builder.close();

    let path2 = builder.build();

    let path = path1.merge(&path2);

    let mut it = path.iter();
    assert_eq!(it.next(), Some(PathEvent::Begin { at: pt(0, 0) }));
    assert_eq!(it.next(), Some(PathEvent::Line { from: pt(0, 0), to: pt(5, 0) }));
    assert_eq!(it.next(), Some(PathEvent::Line { from: pt(5, 0), to: pt(5, 5) }));
    assert_eq!(
        it.next(),
        Some(PathEvent::End { last: pt(5, 5), first: pt(0, 0), close: true })
    );
    assert_eq!(it.next(), Some(PathEvent::Begin { at: pt(1, 1) }));
    assert_eq!(it.next(), Some(PathEvent::Line { from: pt(1, 1), to: pt(4, 0) }));
    assert_eq!(it.next(), Some(PathEvent::Line { from: pt(4, 0), to: pt(4, 4) }));
    assert_eq!(
        it.next(),
        Some(PathEvent::End { last: pt(4, 4), first: pt(1, 1), close: true })
    );
    assert_eq!(it.next(), None);
}
