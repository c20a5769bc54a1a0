use snakerobots::math::{Direction, Point, Size};
use snakerobots::snake::Snake;
use snakerobots::timeline::{GameTimeline, GameTimelineBuilder, GameTimelineSnakeBuilder};

fn snake(points: &[(i32, i32)], d: Direction) -> Snake {
    Snake { points: points.iter().map(|&(x, y)| Point::new(x, y)).collect(), direction: d }
}

fn pts(v: &[(i32, i32)]) -> Vec<Point> {
    v.iter().map(|&(x, y)| Point::new(x, y)).collect()
}

fn sorted(mut v: Vec<Point>) -> Vec<(i32, i32)> {
    let mut out: Vec<(i32, i32)> = v.drain(..).map(|p| (p.x, p.y)).collect();
    out.sort();
    out
}

/// Two snakes; the first eats the apple at (3, 1) in step 1 and grows.
fn recorded() -> GameTimeline {
    let s0 = snake(&[(2, 1), (1, 1)], Direction::Right);
    let s1 = snake(&[(5, 3), (6, 3)], Direction::Left);
    let mut b = GameTimelineBuilder::new(
        &vec![s0, s1],
        vec![Some(String::from("player")), None],
        pts(&[(3, 1)]),
    );
    // step 0: both move
    b.record_snake(0, &snake(&[(3, 1), (2, 1)], Direction::Right), Direction::Right);
    b.record_snake(1, &snake(&[(4, 3), (5, 3)], Direction::Left), Direction::Left);
    b.record_apples(vec![], vec![]);
    // step 1: snake 0 moves down (no apple eaten at (3, 2)); snake 1 eats (3, 1)? no: snake 0 ate at step 0
    b.record_snake(0, &snake(&[(3, 2), (3, 1), (2, 1)], Direction::Down), Direction::Down);
    b.record_snake(1, &snake(&[(4, 2), (4, 3)], Direction::Up), Direction::Up);
    b.record_apples(pts(&[(0, 0)]), pts(&[(3, 1)]));
    b.build(Size::new(8, 5), pts(&[(0, 0)]))
}

#[test]
fn builds_at_start() {
    let t = recorded();
    assert_eq!(t.get_time(), 0);
    assert_eq!(t.get_length(), 2);
    assert_eq!(t.get_width(), 8);
    assert_eq!(t.get_height(), 5);
    let snakes = t.get_snakes();
    assert_eq!(snakes.len(), 2);
    assert_eq!(snakes[0].points, pts(&[(2, 1), (1, 1)]));
    assert_eq!(snakes[0].direction, Some(Direction::Right));
    assert!(snakes[0].is_alive);
    assert_eq!(snakes[0].user_id.as_deref(), Some("player"));
    assert_eq!(snakes[1].user_id, None);
    assert_eq!(sorted(t.get_apples()), vec![(3, 1)]);
}

#[test]
fn forward_and_backward() {
    let mut t = recorded();
    assert!(t.forward());
    assert_eq!(t.get_snakes()[0].points, pts(&[(3, 1), (2, 1)]));
    assert!(t.forward());
    assert_eq!(t.get_time(), 2);
    assert_eq!(t.get_snakes()[0].points, pts(&[(3, 2), (3, 1), (2, 1)]));
    assert_eq!(t.get_snakes()[1].points, pts(&[(4, 2), (4, 3)]));
    assert_eq!(sorted(t.get_apples()), vec![(0, 0)]);
    assert_eq!(t.get_snakes()[0].direction, None);
    assert!(t.get_snakes()[0].is_alive);
    assert!(!t.forward());
    assert_eq!(t.get_time(), 2);
    assert!(t.backward());
    assert_eq!(t.get_snakes()[0].points, pts(&[(3, 1), (2, 1)]));
    assert_eq!(sorted(t.get_apples()), vec![(3, 1)]);
    assert!(t.backward());
    assert_eq!(t.get_snakes()[0].points, pts(&[(2, 1), (1, 1)]));
    assert_eq!(t.get_snakes()[1].points, pts(&[(5, 3), (6, 3)]));
    assert!(!t.backward());
}

#[test]
fn next_snakes_look_one_step_ahead() {
    let mut t = recorded();
    let next = t.get_next_snakes();
    assert_eq!(next[0].points, pts(&[(3, 1), (2, 1)]));
    assert_eq!(next[0].direction, Some(Direction::Down));
    t.goto_end();
    let next = t.get_next_snakes();
    assert_eq!(next[0].points, pts(&[(3, 2), (3, 1), (2, 1)]));
}

#[test]
fn jumps() {
    let mut t = recorded();
    t.goto_end();
    assert_eq!(t.get_time(), 2);
    assert_eq!(t.get_snakes()[1].points, pts(&[(4, 2), (4, 3)]));
    t.goto_start();
    assert_eq!(t.get_time(), 0);
    assert_eq!(sorted(t.get_apples()), vec![(3, 1)]);
    t.skip_to(1);
    assert_eq!(t.get_time(), 1);
    assert_eq!(t.get_snakes()[0].points, pts(&[(3, 1), (2, 1)]));
    t.skip_to(100);
    assert_eq!(t.get_time(), 2);
    assert_eq!(sorted(t.get_apples()), vec![(0, 0)]);
    t.skip_to(-5);
    assert_eq!(t.get_time(), 0);
    assert_eq!(t.get_snakes()[0].points, pts(&[(2, 1), (1, 1)]));
}

#[test]
fn forward_then_backward_restores_state() {
    let mut t = recorded();
    t.skip_to(1);
    let before_snakes: Vec<Vec<Point>> = t.get_snakes().into_iter().map(|s| s.points).collect();
    let before_apples = sorted(t.get_apples());
    assert!(t.forward());
    assert!(t.backward());
    let after: Vec<Vec<Point>> = t.get_snakes().into_iter().map(|s| s.points).collect();
    assert_eq!(after, before_snakes);
    assert_eq!(sorted(t.get_apples()), before_apples);
}

#[test]
fn snake_builder_records_tail_only_when_it_moves() {
    let mut b = GameTimelineSnakeBuilder::new(snake(&[(1, 1)], Direction::Up), None);
    b.record(&snake(&[(1, 0), (1, 1)], Direction::Up), Direction::Up);
    b.record(&snake(&[(2, 0), (1, 0)], Direction::Right), Direction::Right);
    let mut s = b.build();
    assert!(s.is_alive(2));
    assert!(!s.is_alive(3));
    assert_eq!(s.get_direction(1), Some(Direction::Right));
    assert_eq!(s.get_direction(2), None);
    s.forward(0);
    s.forward(1);
    s.backward(1);
    s.goto_end();
    s.backward(1);
    s.backward(0);
    s.goto_start();
}
