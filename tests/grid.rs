use rustyhex::hex::{AbsoluteDirection, Direction, Grid, Point};

#[test]
fn wrap_reduces_into_bounds_and_is_idempotent() {
    let g: Grid<u8> = Grid::new(10, 10, 0);
    let w = g.wrap(Point::new(-1, 205));
    assert_eq!(w, Point::new(9, 5));
    assert_eq!(g.wrap(w), w);
    for x in -25..25 {
        for y in -25..25 {
            let p = g.wrap(Point::new(x, y));
            assert!(p.x >= 0 && p.x < 10 && p.y >= 0 && p.y < 10);
            assert_eq!(g.wrap(p), p);
        }
    }
}

#[test]
fn wrap_extreme_coordinates() {
    let g: Grid<u8> = Grid::new(7, 3, 0);
    let p = g.wrap(Point::new(i32::MIN, i32::MAX));
    assert!(p.x >= 0 && p.x < 7 && p.y >= 0 && p.y < 3);
    assert_eq!(g.wrap(p), p);
}

#[test]
fn step_east_wraps_around_the_edge() {
    let g: Grid<u8> = Grid::new(100, 100, 0);
    assert_eq!(g.step(Point::new(99, 42), AbsoluteDirection::NorthEast), Point::new(0, 42));
    assert_eq!(g.step(Point::new(0, 42), AbsoluteDirection::SouthWest), Point::new(99, 42));
    assert_eq!(g.step(Point::new(5, 99), AbsoluteDirection::North), Point::new(5, 0));
}

#[test]
fn step_offsets_of_each_direction() {
    let g: Grid<u8> = Grid::new(20, 20, 0);
    let p = Point::new(10, 10);
    assert_eq!(g.step(p, AbsoluteDirection::North), Point::new(10, 11));
    assert_eq!(g.step(p, AbsoluteDirection::NorthEast), Point::new(11, 10));
    assert_eq!(g.step(p, AbsoluteDirection::SouthEast), Point::new(11, 9));
    assert_eq!(g.step(p, AbsoluteDirection::South), Point::new(10, 9));
    assert_eq!(g.step(p, AbsoluteDirection::SouthWest), Point::new(9, 10));
    assert_eq!(g.step(p, AbsoluteDirection::NorthWest), Point::new(9, 11));
}

#[test]
fn neighbors_are_six_wrapped_points() {
    let g: Grid<u8> = Grid::new(5, 5, 0);
    let n = g.neighbors(Point::new(0, 0));
    assert_eq!(
        n,
        vec![
            Point::new(0, 1),
            Point::new(1, 0),
            Point::new(1, 4),
            Point::new(0, 4),
            Point::new(4, 0),
            Point::new(4, 1),
        ]
    );
}

#[test]
fn relative_wrapped_takes_the_shorter_way() {
    let g: Grid<u8> = Grid::new(10, 10, 0);
    assert_eq!(g.relative_wrapped(Point::new(1, 0), Point::new(9, 0)), (-2, 0));
    assert_eq!(g.relative_wrapped(Point::new(0, 0), Point::new(5, 0)), (5, 0));
    assert_eq!(g.relative_wrapped(Point::new(0, 0), Point::new(0, 6)), (0, -4));
    assert_eq!(g.relative_wrapped(Point::new(3, 3), Point::new(3, 3)), (0, 0));
}

#[test]
fn relative_wrapped_is_at_most_half_the_size() {
    let g: Grid<u8> = Grid::new(7, 10, 0);
    for a in 0..7 {
        for b in 0..10 {
            let (dx, dy) = g.relative_wrapped(Point::new(a, b), Point::new(b, a));
            assert!(2 * dx.abs() <= 7);
            assert!(2 * dy.abs() <= 10);
        }
    }
}

#[test]
fn turning_rotates_one_sixth() {
    type A = AbsoluteDirection;
    assert_eq!(A::North.turn(Direction::Right), A::NorthEast);
    assert_eq!(A::North.turn(Direction::Left), A::NorthWest);
    assert_eq!(A::NorthWest.turn(Direction::Right), A::North);
    assert_eq!(A::SouthEast.turn(Direction::Backward), A::NorthWest);
    assert_eq!(A::South.turn(Direction::Forward), A::South);
}

#[test]
fn grid_set_and_at() {
    let mut g: Grid<u8> = Grid::new(4, 3, 0);
    g.set(Point::new(5, -1), 7);
    assert_eq!(*g.at(Point::new(1, 2)), 7);
    assert_eq!(*g.at(Point::new(1, 1)), 0);
    assert_eq!(g.point_at(6), Point::new(2, 1));
    assert_eq!(g.width(), 4);
    assert_eq!(g.height(), 3);
}
