use rustyhex::creature::Race;
use rustyhex::game::{Action, GameState};
use rustyhex::hex::{AbsoluteDirection, Direction, Point, Position};
use rustyhex::map::{Tile, TileType};

fn at(x: i32, y: i32, d: AbsoluteDirection) -> Position {
    Position::new(Point::new(x, y), d)
}

#[test]
fn grunt_kills_scout_in_one_blow() {
    let mut g = GameState::with_size(10, 10, 0);
    let grunt = g.spawn(at(5, 5, AbsoluteDirection::North), false, Race::Grunt).unwrap();
    let scout = g.spawn(at(5, 6, AbsoluteDirection::South), false, Race::Scout).unwrap();
    assert_eq!(g.map().at(Point::new(5, 6)).creature, Some(scout));
    g.perform_action(grunt, Action::Melee(Direction::Forward), 42);
    let s = g.creature(scout);
    assert_eq!(s.health(), 0);
    assert!(!s.is_alive());
    assert_eq!(s.death_ns(), 42);
    assert_eq!(s.was_attacked_ns(), 42);
    assert_eq!(g.creature(grunt).has_attacked_ns(), 42);
    assert_eq!(g.map().at(Point::new(5, 6)).creature, None);
    assert_eq!(g.creature(grunt).p(), Point::new(5, 5));
}

#[test]
fn melee_takes_the_attackers_damage() {
    let mut g = GameState::with_size(10, 10, 0);
    let a = g.spawn(at(2, 2, AbsoluteDirection::North), false, Race::Heavy).unwrap();
    let b = g.spawn(at(1, 3, AbsoluteDirection::South), false, Race::Heavy).unwrap();
    g.perform_action(a, Action::Melee(Direction::Left), 9);
    assert_eq!(g.creature(b).health(), 5);
    assert!(g.creature(b).is_alive());
    assert_eq!(g.map().at(Point::new(1, 3)).creature, Some(b));
    g.perform_action(a, Action::Melee(Direction::Left), 10);
    assert_eq!(g.creature(b).health(), 2);
    g.perform_action(a, Action::Melee(Direction::Left), 11);
    assert_eq!(g.creature(b).health(), 0);
    assert_eq!(g.creature(b).state().health, -1);
    assert!(!g.creature(b).is_alive());
    assert_eq!(g.map().at(Point::new(1, 3)).creature, None);
    assert_eq!(g.creature(b).max_health(), 8);
}

#[test]
fn melee_into_empty_cell_does_nothing() {
    let mut g = GameState::with_size(10, 10, 0);
    let a = g.spawn(at(2, 2, AbsoluteDirection::North), false, Race::Human).unwrap();
    g.perform_action(a, Action::Melee(Direction::Forward), 5);
    assert_eq!(g.creature(a).has_attacked_ns(), 0);
    assert_eq!(g.creature(a).pos(), at(2, 2, AbsoluteDirection::North));
}

#[test]
fn move_into_wall_or_creature_stays_put() {
    let mut g = GameState::with_size(10, 10, 0);
    g.set_tiletype(Point::new(5, 6), TileType::Wall);
    g.set_tiletype(Point::new(6, 5), TileType::GlassWall);
    let a = g.spawn(at(5, 5, AbsoluteDirection::North), false, Race::Human).unwrap();
    let b = g.spawn(at(4, 6, AbsoluteDirection::North), false, Race::Human).unwrap();
    let start = g.creature(a).pos();
    g.perform_action(a, Action::Move(Direction::Forward), 1);
    assert_eq!(g.creature(a).pos(), start);
    g.perform_action(a, Action::Run(Direction::Right), 1);
    assert_eq!(g.creature(a).pos(), start);
    g.perform_action(a, Action::Move(Direction::Left), 1);
    assert_eq!(g.creature(a).pos(), start);
    assert_eq!(g.creature(b).pos(), at(4, 6, AbsoluteDirection::North));
    assert_eq!(g.map().at(Point::new(5, 5)).creature, Some(a));
    assert_eq!(g.map().at(Point::new(4, 6)).creature, Some(b));
}

#[test]
fn move_and_turn_update_map_and_position() {
    let mut g = GameState::with_size(10, 10, 0);
    g.set_tiletype(Point::new(5, 4), TileType::Sand);
    let a = g.spawn(at(5, 5, AbsoluteDirection::North), false, Race::Human).unwrap();
    g.perform_action(a, Action::Move(Direction::Backward), 1);
    assert_eq!(g.creature(a).pos(), at(5, 4, AbsoluteDirection::North));
    assert_eq!(g.creature(a).pos_prev(), at(5, 5, AbsoluteDirection::North));
    assert_eq!(g.map().at(Point::new(5, 5)).creature, None);
    assert_eq!(g.map().at(Point::new(5, 4)).creature, Some(a));
    g.perform_action(a, Action::Turn(Direction::Right), 2);
    assert_eq!(g.creature(a).pos(), at(5, 4, AbsoluteDirection::NorthEast));
    g.perform_action(a, Action::Run(Direction::Forward), 3);
    assert_eq!(g.creature(a).pos(), at(6, 4, AbsoluteDirection::NorthEast));
    g.perform_action(a, Action::Wait, 4);
    g.perform_action(a, Action::Use, 4);
    assert_eq!(g.creature(a).pos(), at(6, 4, AbsoluteDirection::NorthEast));
    assert_eq!(g.creature(a).pos_prev(), at(6, 4, AbsoluteDirection::NorthEast));
}

#[test]
fn move_across_the_edge_wraps() {
    let mut g = GameState::with_size(100, 100, 0);
    let a = g.spawn(at(99, 7, AbsoluteDirection::NorthEast), false, Race::Human).unwrap();
    g.perform_action(a, Action::Move(Direction::Forward), 1);
    assert_eq!(g.creature(a).p(), Point::new(0, 7));
    assert_eq!(g.map().at(Point::new(0, 7)).creature, Some(a));
    assert_eq!(g.map().at(Point::new(99, 7)).creature, None);
}

#[test]
fn spawn_refuses_blocked_tiles() {
    let mut g = GameState::with_size(10, 10, 0);
    g.set_tiletype(Point::new(1, 1), TileType::Wall);
    assert_eq!(g.spawn(at(1, 1, AbsoluteDirection::North), false, Race::Grunt), None);
    let a = g.spawn(at(2, 1, AbsoluteDirection::North), false, Race::Grunt);
    assert_eq!(a, Some(0));
    assert_eq!(g.spawn(at(12, -9, AbsoluteDirection::North), false, Race::Grunt), None);
    assert_eq!(g.creatures_iter().len(), 1);
    let p = g.spawn(at(3, 3, AbsoluteDirection::South), true, Race::Human);
    assert_eq!(p, Some(1));
    assert_eq!(g.player(), Some(1));
    assert!(g.creature(1).is_player());
    assert_eq!(g.creature(1).race(), Race::Human);
    assert_eq!(g.creature(1).health(), 4);
}

#[test]
fn tile_properties() {
    let floor = Tile { tiletype: TileType::Floor, creature: None };
    let taken = Tile { tiletype: TileType::Sand, creature: Some(3) };
    let wall = Tile { tiletype: TileType::Wall, creature: None };
    let glass = Tile { tiletype: TileType::GlassWall, creature: None };
    assert!(floor.is_passable());
    assert!(!taken.is_passable());
    assert!(taken.is_passable_type());
    assert!(!wall.is_passable_type());
    assert!(!glass.is_passable());
    assert_eq!(floor.opaqueness(), 1);
    assert_eq!(taken.opaqueness(), 5);
    assert_eq!(glass.opaqueness(), 3);
    assert_eq!(wall.opaqueness(), 1000000);
}

#[test]
fn blocked_move_leaves_the_map_as_it_was() {
    let mut g = GameState::with_size(6, 6, 0);
    g.set_tiletype(Point::new(2, 3), TileType::Wall);
    g.set_tiletype(Point::new(1, 1), TileType::Sand);
    let a = g.spawn(at(2, 2, AbsoluteDirection::North), false, Race::Grunt).unwrap();
    let before: Vec<Tile> = (0..36).map(|k| *g.map().at(Point::new(k % 6, k / 6))).collect();
    g.perform_action(a, Action::Run(Direction::Forward), 3);
    let after: Vec<Tile> = (0..36).map(|k| *g.map().at(Point::new(k % 6, k / 6))).collect();
    assert_eq!(before, after);
    assert_eq!(g.creature(a).pos(), at(2, 2, AbsoluteDirection::North));
    assert_eq!(g.creature(a).pos_prev(), at(2, 2, AbsoluteDirection::North));
}

#[test]
fn strike_into_empty_cell_changes_nobody() {
    let mut g = GameState::with_size(8, 8, 0);
    let a = g.spawn(at(2, 2, AbsoluteDirection::North), false, Race::Grunt).unwrap();
    let b = g.spawn(at(5, 5, AbsoluteDirection::North), false, Race::Scout).unwrap();
    g.perform_action(a, Action::Melee(Direction::Right), 3);
    assert_eq!(g.creature(a).health(), 4);
    assert!(g.creature(a).is_alive());
    assert_eq!(g.creature(b).health(), 2);
    assert_eq!(g.creature(b).was_attacked_ns(), 0);
    assert_eq!(g.map().at(Point::new(2, 2)).creature, Some(a));
    assert_eq!(g.map().at(Point::new(5, 5)).creature, Some(b));
}
