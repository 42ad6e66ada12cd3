use vector_path::{point, reverse_path, Path, PathEvent, Point, UNIT};

fn pt(x: i64, y: i64) -> Point {
    point(x * UNIT, y * UNIT)
}

#[test]
fn test_reverse_path() {
    let mut builder = Path::builder();
    builder.move_to(pt(0, 0));
    builder.line_to(pt(1, 0));
    builder.line_to(pt(1, 1));
    builder.line_to(pt(0, 1));

    builder.move_to(pt(10, 0));
    builder.line_to(pt(11, 0));
    builder.line_to(pt(11, 1));
    builder.line_to(pt(10, 1));
    builder.close();

    builder.move_to(pt(20, 0));
    builder.quadratic_bezier_to(pt(21, 0), pt(21, 1));

    let p1 = builder.build();
    let mut builder = Path::builder();
    reverse_path(p1.as_slice(), &mut builder);
    let p2 = builder.build();

    let mut it = p2.iter();

    assert_eq!(it.next(), Some(PathEvent::Begin { at: pt(21, 1) }));
    assert_eq!(
        it.next(),
        Some(PathEvent::Quadratic { from: pt(21, 1), ctrl: pt(21, 0), to: pt(20, 0) })
    );
    assert_eq!(
        it.next(),
        Some(PathEvent::End { last: pt(20, 0), first: pt(21, 1), close: false })
    );

    assert_eq!(it.next(), Some(PathEvent::Begin { at: pt(10, 1) }));
    assert_eq!(it.next(), Some(PathEvent::Line { from: pt(10, 1), to: pt(11, 1) }));
    assert_eq!(it.next(), Some(PathEvent::Line { from: pt(11, 1), to: pt(11, 0) }));
    assert_eq!(it.next(), Some(PathEvent::Line { from: pt(11, 0), to: pt(10, 0) }));
    assert_eq!(
        it.next(),
        Some(PathEvent::End { last: pt(10, 0), first: pt(10, 1), close: true })
    );

    assert_eq!(it.next(), Some(PathEvent::Begin { at: pt(0, 1) }));
    assert_eq!(it.next(), Some(PathEvent::Line { from: pt(0, 1), to: pt(1, 1) }));
    assert_eq!(it.next(), Some(PathEvent::Line { from: pt(1, 1), to: pt(1, 0) }));
    assert_eq!(it.next(), Some(PathEvent::Line { from: pt(1, 0), to: pt(0, 0) }));
    assert_eq!(
        it.next(),
        Some(PathEvent::End { last: pt(0, 0), first: pt(0, 1), close: false })
    );

    assert_eq!(it.next(), None);
}

#[test]
fn test_reverse_path_no_close() {
    let mut builder = Path::builder();
    builder.move_to(pt(0, 0));
    builder.line_to(pt(1, 0));
    builder.line_to(pt(1, 1));

    let p1 = builder.build();

    let mut builder = Path::builder();
    reverse_path(p1.as_slice(), &mut builder);
    let p2 = builder.build();

    let mut it = p2.iter();

    assert_eq!(it.next(), Some(PathEvent::Begin { at: pt(1, 1) }));
    assert_eq!(it.next(), Some(PathEvent::Line { from: pt(1, 1), to: pt(1, 0) }));
    assert_eq!(it.next(), Some(PathEvent::Line { from: pt(1, 0), to: pt(0, 0) }));
    assert_eq!(
        it.next(),
        Some(PathEvent::End { last: pt(0, 0), first: pt(1, 1), close: false })
    );
    assert_eq!(it.next(), None);
}

#[test]
fn test_reverse_into_started_builder() {
    let mut builder = Path::builder();
    builder.move_to(pt(0, 0));
    builder.line_to(pt(1, 0));
    builder.close();
    let path = builder.build();

    let mut builder = Path::builder();
    builder.move_to(pt(5, 5));
    reverse_path(path.as_slice(), &mut builder);
    let combined = builder.build();

    let mut it = combined.iter();
    assert_eq!(it.next(), Some(PathEvent::Begin { at: pt(5, 5) }));
    assert_eq!(
        it.next(),
        Some(PathEvent::End { last: pt(5, 5), first: pt(5, 5), close: false })
    );
    assert_eq!(it.next(), Some(PathEvent::Begin { at: pt(1, 0) }));
    assert_eq!(it.next(), Some(PathEvent::Line { from: pt(1, 0), to: pt(0, 0) }));
    assert_eq!(
        it.next(),
        Some(PathEvent::End { last: pt(0, 0), first: pt(1, 0), close: true })
    );
    assert_eq!(it.next(), None);
}

#[test]
fn test_reverse_empty_path() {
    let p1 = Path::builder().build();
    let mut builder = Path::builder();
    reverse_path(p1.as_slice(), &mut builder);
    let p2 = builder.build();
    assert_eq!(p2.iter().next(), None);
}

#[test]
fn test_reverse_single_moveto() {
    let mut builder = Path::builder();
    builder.move_to(pt(0, 0));
    let p1 = builder.build();
    let mut builder = Path::builder();
    reverse_path(p1.as_slice(), &mut builder);
    let p2 = builder.build();
    let mut it = p2.iter();
    assert_eq!(it.next(), Some(PathEvent::Begin { at: pt(0, 0) }));
    assert_eq!(
        it.next(),
        Some(PathEvent::End { last: pt(0, 0), first: pt(0, 0), close: false })
    );
    assert_eq!(it.next(), None);
}
