use verle::pos::Pos;
use verle::rect::Dimension;
use verle::rect::Error;
use verle::rect::InvalidActual;
use verle::rect::Rect;
use verle::size::Size;

#[test]
fn new_success() {
    let r = Rect::try_new(Pos::new(1, 2), Pos::new(3, 4)).unwrap();
    assert_eq!(r.top_left(), Pos { x: 1, y: 2 });
    assert_eq!(r.bottom_right(), Pos { x: 3, y: 4 });
}

#[test]
fn new_x_err() {
    let err = Rect::try_new(Pos::new(3, 2), Pos::new(1, 4)).unwrap_err();
    assert_eq!(
        err,
        Error::InvalidDimensionValue(
            Dimension::X,
            InvalidActual {
                lower: 3,
                higher: 1
            }
        )
    );
    assert_eq!(
        err.message(),
        "Invalid dimension X: lower: 3 is expected not higher than upper: 1"
    )
}

#[test]
fn new_y_err() {
    let err = Rect::try_new(Pos::new(1, 4), Pos::new(3, 2)).unwrap_err();
    assert_eq!(
        err,
        Error::InvalidDimensionValue(
            Dimension::Y,
            InvalidActual {
                lower: 4,
                higher: 2
            }
        )
    );
    assert_eq!(
        err.message(),
        "Invalid dimension Y: lower: 4 is expected not higher than upper: 2"
    )
}

#[test]
fn rect_new() {
    assert_eq!(
        Rect::try_new_size(Pos::new(1, 2), Size::new(3, 4)),
        Ok(Rect::try_new(Pos::new(1, 2), Pos::new(4, 6)).unwrap())
    )
}

#[test]
fn new_err() {
    assert_eq!(
        Rect::try_new_size(
            Pos::new(1, 2),
            Size::new(u32::MAX / 2 + 1, u32::MAX / 2 + 1)
        ),
        Err(Error::TryFromIntError(Size::new(
            u32::MAX / 2 + 1,
            u32::MAX / 2 + 1
        )))
    )
}

#[test]
fn top_left() {
    assert_eq!(
        Rect::try_new(Pos::new(1, 2), Pos::new(3, 4))
            .unwrap()
            .top_left(),
        Pos::new(1, 2)
    );
}

#[test]
fn bottom_right() {
    assert_eq!(
        Rect::try_new(Pos::new(1, 2), Pos::new(3, 4))
            .unwrap()
            .bottom_right(),
        Pos::new(3, 4)
    );
}

#[test]
fn new_xy_err() {
    let err = Rect::try_new(Pos::new(3, 4), Pos::new(1, 2)).unwrap_err();
    assert_eq!(
        err,
        Error::InvalidDimensionValue(
            Dimension::X,
            InvalidActual {
                lower: 3,
                higher: 1
            }
        )
    );
    assert_eq!(
        err.message(),
        "Invalid dimension X: lower: 3 is expected not higher than upper: 1"
    )
}

#[test]
fn intersection() {
    let a = Rect::try_new_size(Pos::new(2, 2), Size::new(2, 1)).unwrap();
    let b = Rect::try_new_size(Pos::new(3, 1), Size::new(3, 3)).unwrap();
    let intersection = a.intersection(&b);
    assert_eq!(
        intersection,
        Some(Rect::try_new_size(Pos::new(3, 2), Size::new(1, 1)).unwrap())
    );
    assert!(!intersection.unwrap().is_zero_size());
}

#[test]
fn empty_intersection() {
    let a = Rect::try_new_size(Pos::new(1, 1), Size::new(1, 1)).unwrap();
    let b = Rect::try_new_size(Pos::new(3, 3), Size::new(1, 1)).unwrap();
    assert_eq!(a.intersection(&b), None);
}

#[test]
fn zero_size_intersection_in_dot() {
    let a = Rect::try_new_size(Pos::new(1, 1), Size::new(1, 1)).unwrap();
    let b = Rect::try_new_size(Pos::new(2, 2), Size::new(1, 1)).unwrap();
    let intersection = a.intersection(&b);
    assert_eq!(
        intersection,
        Some(Rect::try_new_size(Pos::new(2, 2), Size::default()).unwrap())
    );
    assert!(intersection.unwrap().is_zero_size());
}

#[test]
fn zero_size_intersection_in_line() {
    let a = Rect::try_new_size(Pos::new(1, 1), Size::new(1, 1)).unwrap();
    let b = Rect::try_new_size(Pos::new(1, 2), Size::new(1, 1)).unwrap();
    let intersection = a.intersection(&b);
    assert_eq!(
        intersection,
        Some(Rect::try_new_size(Pos::new(1, 2), Size::new(1, 0)).unwrap())
    );
    assert!(intersection.unwrap().is_zero_size());
}

#[test]
fn top_right() {
    assert_eq!(
        Rect::try_new(Pos::new(1, 2), Pos::new(3, 4))
            .unwrap()
            .top_right(),
        Pos::new(3, 2)
    );
}

#[test]
fn bottom_left() {
    assert_eq!(
        Rect::try_new(Pos::new(1, 2), Pos::new(3, 4))
            .unwrap()
            .bottom_left(),
        Pos::new(1, 4)
    );
}

#[test]
fn left() {
    assert_eq!(Rect::try_new(Pos::new(1, 2), Pos::new(3, 4)).unwrap().left(), 1);
}

#[test]
fn right() {
    assert_eq!(
        Rect::try_new(Pos::new(1, 2), Pos::new(3, 4)).unwrap().right(),
        3
    );
}

#[test]
fn top() {
    assert_eq!(Rect::try_new(Pos::new(1, 2), Pos::new(3, 4)).unwrap().top(), 2);
}

#[test]
fn bottom() {
    assert_eq!(
        Rect::try_new(Pos::new(1, 2), Pos::new(3, 4)).unwrap().bottom(),
        4
    );
}

#[test]
fn width() {
    assert_eq!(
        Rect::try_new(Pos::new(1, 2), Pos::new(4, 9)).unwrap().width(),
        3
    );
}

#[test]
fn height() {
    assert_eq!(
        Rect::try_new(Pos::new(1, 2), Pos::new(4, 9)).unwrap().height(),
        7
    );
}

#[test]
fn size() {
    assert_eq!(
        Rect::try_new(Pos::new(1, 2), Pos::new(4, 9)).unwrap().size(),
        Size::new(3, 7)
    );
}

#[test]
fn contains() {
    assert!(Rect::try_new(Pos::new(1, 1), Pos::new(3, 3))
        .unwrap()
        .contains(Pos::new(2, 2)));
}

#[test]
fn not_contains() {
    assert!(!Rect::try_new(Pos::new(1, 1), Pos::new(3, 3))
        .unwrap()
        .contains(Pos::new(4, 4)));
}

#[test]
fn not_contains_on_empty() {
    assert!(!Rect::default().contains(Pos::default()));
}

#[test]
fn not_contains_on_bottom_right() {
    assert!(!Rect::try_new(Pos::new(1, 1), Pos::new(3, 3))
        .unwrap()
        .contains(Pos::new(3, 3)));
}

#[test]
fn intersection_commutative() {
    let a = Rect::try_new(Pos::new(0, 0), Pos::new(5, 4)).unwrap();
    let b = Rect::try_new(Pos::new(3, 2), Pos::new(9, 9)).unwrap();
    assert_eq!(a.intersection(&b), b.intersection(&a));
    let c = Rect::try_new(Pos::new(7, 7), Pos::new(8, 8)).unwrap();
    assert_eq!(a.intersection(&c), c.intersection(&a));
}

#[test]
fn intersection_with_self() {
    let a = Rect::try_new(Pos::new(-3, 1), Pos::new(5, 4)).unwrap();
    assert_eq!(a.intersection(&a), Some(a));
}

#[test]
fn intersection_disjoint_with_gap() {
    let a = Rect::try_new(Pos::new(0, 0), Pos::new(2, 2)).unwrap();
    let b = Rect::try_new(Pos::new(5, 0), Pos::new(7, 2)).unwrap();
    assert_eq!(a.intersection(&b), None);
    let below = Rect::try_new(Pos::new(0, 4), Pos::new(2, 6)).unwrap();
    assert_eq!(a.intersection(&below), None);
}

#[test]
fn intersection_touching_corner() {
    let a = Rect::try_new(Pos::new(0, 0), Pos::new(2, 2)).unwrap();
    let b = Rect::try_new(Pos::new(2, 2), Pos::new(4, 4)).unwrap();
    let r = a.intersection(&b).unwrap();
    assert!(r.is_zero_size());
    assert_eq!(r.top_left(), Pos::new(2, 2));
    assert_eq!(r.bottom_right(), Pos::new(2, 2));
}

#[test]
fn x_error_reported_before_y() {
    let err = Rect::try_new(Pos::new(5, 0), Pos::new(2, 4)).unwrap_err();
    assert_eq!(
        err,
        Error::InvalidDimensionValue(
            Dimension::X,
            InvalidActual {
                lower: 5,
                higher: 2
            }
        )
    );
}

#[test]
fn try_from_int_error_message() {
    let err = Rect::try_new_size(Pos::new(0, 0), Size::new(u32::MAX, 1)).unwrap_err();
    assert_eq!(
        err.message(),
        format!("Can not cast u32 value to i32: Size: width = {}, height = 1", u32::MAX)
    );
}

#[test]
fn negative_coordinates_message() {
    let err = Rect::try_new(Pos::new(2, -1), Pos::new(7, -12)).unwrap_err();
    assert_eq!(
        err.message(),
        "Invalid dimension Y: lower: -1 is expected not higher than upper: -12"
    );
}
