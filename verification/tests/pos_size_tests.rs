use verle::pos::Pos;
use verle::size::Size;

#[test]
fn pos_new() {
    assert_eq!(Pos::new(1, 2), Pos { x: 1, y: 2 });
}

#[test]
fn size_new() {
    assert_eq!(
        Size::new(1, 2),
        Size {
            width: 1,
            height: 2
        }
    );
}

#[test]
fn pos_default_is_origin() {
    assert_eq!(Pos::default(), Pos::new(0, 0));
}

#[test]
fn size_default_is_empty() {
    assert_eq!(Size::default(), Size::new(0, 0));
}

#[test]
fn size_message() {
    assert_eq!(Size::new(3, 7).message(), "Size: width = 3, height = 7");
}
