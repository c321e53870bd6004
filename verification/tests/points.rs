use screen_match::structs::Point;

#[test]
fn point_new_keeps_coordinates() {
    let p = Point::new(2700, 285);
    assert_eq!(p.x, 2700);
    assert_eq!(p.y, 285);
}

#[test]
fn point_from_tuple_and_array_agree() {
    assert_eq!(Point::from_tuple(&(30, 1050)), Point::new(30, 1050));
    assert_eq!(Point::from_array(&[30, 1050]), Point::new(30, 1050));
}

#[test]
fn point_default_is_origin() {
    assert_eq!(Point::default(), Point::new(0, 0));
}
