use snakerobots::math::{Direction, Point, Size};

#[test]
fn point_moves_one_cell_per_direction() {
    let p = Point::new(3, 4);
    assert_eq!(p.direction(Direction::Up), Point::new(3, 3));
    assert_eq!(p.direction(Direction::Down), Point::new(3, 5));
    assert_eq!(p.direction(Direction::Left), Point::new(2, 4));
    assert_eq!(p.direction(Direction::Right), Point::new(4, 4));
}

#[test]
fn apply_then_opposite_returns() {
    for d in [Direction::Up, Direction::Down, Direction::Left, Direction::Right] {
        let mut p = Point::new(-2, 7);
        d.apply(&mut p);
        assert_ne!(p, Point::new(-2, 7));
        d.opposite().apply(&mut p);
        assert_eq!(p, Point::new(-2, 7));
        assert_eq!(d.opposite().opposite(), d);
    }
}

#[test]
fn size_area_and_contains() {
    let s = Size::new(18, 11);
    assert_eq!(s.area(), 198);
    assert!(s.contains(&Point::new(0, 0)));
    assert!(s.contains(&Point::new(17, 10)));
    assert!(!s.contains(&Point::new(18, 10)));
    assert!(!s.contains(&Point::new(17, 11)));
    assert!(!s.contains(&Point::new(-1, 0)));
    assert!(!s.contains(&Point::new(0, -1)));
}

#[test]
fn size_iter_lists_rows_in_order() {
    let s = Size::new(3, 2);
    let cells = s.iter();
    assert_eq!(
        cells,
        vec![
            Point::new(0, 0),
            Point::new(1, 0),
            Point::new(2, 0),
            Point::new(0, 1),
            Point::new(1, 1),
            Point::new(2, 1),
        ]
    );
    for c in &cells {
        assert!(s.contains(c));
    }
    assert!(Size::new(0, 5).iter().is_empty());
    assert!(Size::new(4, -1).iter().is_empty());
    assert_eq!(Size::new(18, 11).iter().len(), 198);
}

#[test]
fn direction_chars() {
    assert_eq!(char::from(Direction::Up), 'u');
    assert_eq!(char::from(Direction::Down), 'd');
    assert_eq!(char::from(Direction::Left), 'l');
    assert_eq!(char::from(Direction::Right), 'r');
    assert_eq!(Direction::try_from('U').unwrap(), Direction::Up);
    assert_eq!(Direction::try_from('r').unwrap(), Direction::Right);
    assert_eq!(Direction::try_from('x').unwrap_err().0, 'x');
}

#[test]
fn moves_text_roundtrip() {
    let moves = vec![Direction::Up, Direction::Right, Direction::Right, Direction::Down, Direction::Left];
    let text = Direction::vec_to_string(&moves);
    assert_eq!(text, "urrdl");
    assert_eq!(Direction::try_vec_from_string(text).unwrap(), moves);
    assert_eq!(Direction::vec_to_string(&vec![]), "");
}

#[test]
fn moves_text_reports_first_invalid_char() {
    let err = Direction::try_vec_from_string(String::from("uDxLq")).unwrap_err();
    assert_eq!(err.0, 'x');
    assert_eq!(
        Direction::try_vec_from_string(String::from("UDLR")).unwrap(),
        vec![Direction::Up, Direction::Down, Direction::Left, Direction::Right]
    );
}

#[test]
fn invalid_move_text() {
    let err = Direction::try_vec_from_string(String::from("q")).unwrap_err();
    assert_eq!(err.to_string(), "invalid move: q");
}

#[test]
fn grid_cells_are_listed_once() {
    let cells = Size::new(3, 4).iter();
    assert_eq!(cells.len(), 12);
    for i in 0..cells.len() {
        for j in i + 1..cells.len() {
            assert_ne!(cells[i], cells[j]);
        }
    }
    assert_eq!(Size::new(2, 2).iter(), vec![Point::new(0, 0), Point::new(1, 0), Point::new(0, 1), Point::new(1, 1)]);
}
