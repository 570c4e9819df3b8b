use rustyhex::creature::Race;
use rustyhex::game::GameState;
use rustyhex::hex::{AbsoluteDirection, Point, Position};
use rustyhex::map::TileType;

fn count(g: &GameState, id: usize, known: bool) -> usize {
    let c = g.creature(id);
    let mut n = 0;
    for y in 0..g.map().height() {
        for x in 0..g.map().width() {
            let p = Point::new(x, y);
            if (known && c.knows(p)) || (!known && c.sees(p)) {
                n += 1;
            }
        }
    }
    n
}

#[test]
fn facing_a_wall_sees_the_wall_and_nothing_behind_it() {
    let mut g = GameState::with_size(20, 20, 1);
    g.set_tiletype(Point::new(10, 11), TileType::Wall);
    let id = g
        .spawn(Position::new(Point::new(10, 10), AbsoluteDirection::North), true, Race::Human)
        .unwrap();
    g.update_player_los();
    let c = g.creature(id);
    assert!(c.sees(Point::new(10, 10)));
    assert!(c.sees(Point::new(10, 11)));
    assert!(c.knows(Point::new(10, 11)));
    for k in 2..10 {
        assert!(!c.sees(Point::new(10, 10 + k)));
        assert!(!c.knows(Point::new(10, 10 + k)));
    }
    // Behind: known as a neighbor, but not lit.
    assert!(c.knows(Point::new(10, 9)));
    assert!(!c.sees(Point::new(10, 9)));
}

#[test]
fn open_floor_cone_follows_the_facing() {
    let mut g = GameState::with_size(40, 40, 1);
    let id = g
        .spawn(Position::new(Point::new(20, 20), AbsoluteDirection::North), true, Race::Human)
        .unwrap();
    g.update_player_los();
    let c = g.creature(id);
    // Own cell costs 5 (floor plus occupant), leaving 10: straight ahead
    // reaches eleven cells.
    for k in 1..=11 {
        assert!(c.sees(Point::new(20, 20 + k)));
    }
    assert!(!c.sees(Point::new(20, 32)));
    assert!(!c.sees(Point::new(20, 19)));
    assert!(c.sees(Point::new(21, 20)));
    assert!(c.sees(Point::new(19, 21)));
}

#[test]
fn known_only_grows_and_contains_what_is_visible() {
    let mut g = GameState::with_size(30, 30, 3);
    g.set_tiletype(Point::new(16, 15), TileType::GlassWall);
    let id = g
        .spawn(Position::new(Point::new(15, 15), AbsoluteDirection::NorthEast), true, Race::Scout)
        .unwrap();
    g.update_player_los();
    let first_known = count(&g, id, true);
    let mut previous: Vec<bool> = Vec::new();
    for y in 0..30 {
        for x in 0..30 {
            previous.push(g.creature(id).knows(Point::new(x, y)));
        }
    }
    // Turn around and look again.
    g.set_action(id, rustyhex::game::Action::Turn(rustyhex::hex::Direction::Left));
    for t in 0..4 {
        g.tick_at(t);
    }
    g.update_player_los();
    let c = g.creature(id);
    assert_eq!(c.pos().dir, AbsoluteDirection::North);
    let mut i = 0;
    for y in 0..30 {
        for x in 0..30 {
            let p = Point::new(x, y);
            if previous[i] {
                assert!(c.knows(p));
            }
            if c.sees(p) {
                assert!(c.knows(p));
            }
            i += 1;
        }
    }
    assert!(count(&g, id, true) > first_known);
    assert!(count(&g, id, false) > 0);
}
