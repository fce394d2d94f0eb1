use showbits::rect::Rect;
use showbits::vec2::Vec2;

#[test]
fn arithmetic() {
    let a = Vec2::new(1, 3);
    let b = Vec2::new(3, 7);

    assert_eq!(-a, Vec2::new(-1, -3));
    assert_eq!(a.neg_x(), Vec2::new(-1, 3));
    assert_eq!(a.neg_y(), Vec2::new(1, -3));

    assert_eq!(a + b, Vec2::new(4, 10));
    assert_eq!(a + 2, Vec2::new(3, 5));

    assert_eq!(a - b, Vec2::new(-2, -4));
    assert_eq!(a - 2, Vec2::new(-1, 1));
    assert_eq!(a - b, b.to(a));

    assert_eq!(a * b, Vec2::new(3, 21));
    assert_eq!(a * 2, Vec2::new(2, 6));
}

#[test]
fn rect_points_row_by_row() {
    let rect = Rect::from_nw(Vec2::new(2, 5), Vec2::new(3, 2));
    let mut points = rect.points();
    let mut seen = vec![];
    while let Some(p) = points.next() {
        seen.push(p);
    }
    assert_eq!(
        seen,
        vec![
            Vec2::new(2, 5),
            Vec2::new(3, 5),
            Vec2::new(4, 5),
            Vec2::new(2, 6),
            Vec2::new(3, 6),
            Vec2::new(4, 6),
        ]
    );
    assert_eq!(points.next(), None);
}
