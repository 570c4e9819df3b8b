use rustyhex::creature::Race;
use rustyhex::game::{Action, GameState};
use rustyhex::hex::{AbsoluteDirection, Direction, Point, Position};
use rustyhex::map::TileType;

#[test]
fn human_move_forward_on_floor_costs_eight_and_eight() {
    let mut g = GameState::with_size(10, 10, 0);
    let id = g.spawn(Position::new(Point::new(0, 0), AbsoluteDirection::North), true, Race::Human).unwrap();
    assert!(g.creature(id).needs_action());
    g.set_action(id, Action::Move(Direction::Forward));
    assert_eq!(g.creature(id).state().action_delay, 8);
    assert!(g.creature(id).is_pre_action());
    assert_eq!(g.creature(id).is_moving_rel(), Some(Direction::Forward));
    for t in 0..8 {
        g.tick_at(t);
        assert_eq!(g.creature(id).p(), Point::new(0, 0));
    }
    g.tick_at(8);
    assert_eq!(g.creature(id).p(), Point::new(0, 1));
    assert!(!g.creature(id).is_pre_action());
    assert_eq!(g.creature(id).state().action_delay, 8);
    for t in 9..17 {
        assert!(!g.creature(id).needs_action());
        g.tick_at(t);
    }
    assert!(g.creature(id).needs_action());
    assert_eq!(g.tick_count(), 17);
}

#[test]
fn sand_under_the_destination_slows_the_move() {
    let mut g = GameState::with_size(10, 10, 0);
    g.set_tiletype(Point::new(4, 5), TileType::Sand);
    let id = g.spawn(Position::new(Point::new(4, 4), AbsoluteDirection::North), true, Race::Heavy).unwrap();
    g.set_action(id, Action::Move(Direction::Forward));
    assert_eq!(g.creature(id).state().action_delay, 15);
    g.set_action(id, Action::Turn(Direction::Left));
    assert_eq!(g.creature(id).is_turning_rel(), Some(Direction::Left));
    assert_eq!(g.creature(id).state().action_delay, 3);
}

#[test]
fn dead_creatures_stay_frozen() {
    let mut g = GameState::with_size(12, 12, 4);
    let grunt = g.spawn(Position::new(Point::new(5, 5), AbsoluteDirection::North), false, Race::Grunt).unwrap();
    let scout = g.spawn(Position::new(Point::new(5, 6), AbsoluteDirection::North), false, Race::Scout).unwrap();
    g.perform_action(grunt, Action::Melee(Direction::Forward), 1);
    assert!(!g.creature(scout).is_alive());
    let pos = g.creature(scout).pos();
    let death = g.creature(scout).death_ns();
    for t in 0..200 {
        g.tick_at(t);
        assert_eq!(g.creature(scout).pos(), pos);
        assert_eq!(g.creature(scout).death_ns(), death);
        assert!(g.creature(scout).needs_action());
    }
    assert!(g.creature(grunt).is_alive());
}

#[test]
fn occupancy_stays_consistent_while_creatures_roam() {
    let mut g = GameState::with_size(16, 16, 99);
    let mut ids = Vec::new();
    for k in 0..6 {
        let race = [Race::Scout, Race::Grunt, Race::Heavy][k % 3];
        ids.push(g.spawn(Position::new(Point::new(2 * k as i32 + 1, 3), AbsoluteDirection::North), false, race).unwrap());
    }
    g.set_tiletype(Point::new(8, 8), TileType::Wall);
    for t in 0..300 {
        g.tick_at(t);
        for &id in ids.iter() {
            let c = g.creature(id);
            if c.is_alive() {
                assert_eq!(g.map().at(c.p()).creature, Some(id));
            }
        }
        for y in 0..16 {
            for x in 0..16 {
                if let Some(id) = g.map().at(Point::new(x, y)).creature {
                    assert_eq!(g.creature(id).p(), Point::new(x, y));
                    assert!(g.creature(id).is_alive());
                }
            }
        }
    }
    assert_eq!(g.tick_count(), 300);
}

#[test]
fn chasing_creature_closes_in_on_the_player() {
    let mut g = GameState::with_size(30, 30, 5);
    let player = g.spawn(Position::new(Point::new(10, 16), AbsoluteDirection::South), true, Race::Human).unwrap();
    let grunt = g.spawn(Position::new(Point::new(10, 10), AbsoluteDirection::North), false, Race::Grunt).unwrap();
    for t in 0..200 {
        if g.creature(player).needs_action() {
            g.set_action(player, Action::Wait);
        }
        g.tick_at(t);
    }
    let p = g.creature(grunt).p();
    assert!(p.y > 10);
    assert!(g.creature(player).health() < 4);
    assert!(g.creature(player).was_attacked_ns() > 0);
}

#[test]
fn generated_world_places_everyone_on_their_tiles() {
    let mut g = GameState::new(7);
    g.randomize_map();
    let player = g.player().unwrap();
    assert!(g.creature(player).is_player());
    assert_eq!(g.creature(player).race(), Race::Human);
    let n = g.creatures_iter().len();
    assert_eq!(n, 50 + 25 + 12 + 1);
    assert_eq!(player, 87);
    for id in 0..n {
        let c = g.creature(id);
        let race = if id < 50 {
            Race::Scout
        } else if id < 75 {
            Race::Grunt
        } else if id < 87 {
            Race::Heavy
        } else {
            Race::Human
        };
        assert_eq!(c.race(), race);
        assert_eq!(c.is_player(), id == 87);
        assert_eq!(c.health(), race.max_health());
        assert!(c.is_alive());
        assert_eq!(g.map().at(c.p()).creature, Some(id));
        assert!(g.map().at(c.p()).is_passable_type());
    }
    for k in 0..100 {
        assert_eq!(g.map().at(Point::new(k, 0)).tiletype, TileType::Wall);
        assert_eq!(g.map().at(Point::new(0, k)).tiletype, TileType::Wall);
        assert_eq!(g.map().at(Point::new(k, 99)).tiletype, TileType::Wall);
        assert_eq!(g.map().at(Point::new(99, k)).tiletype, TileType::Wall);
    }
    for _ in 0..50 {
        g.tick();
    }
    assert_eq!(g.tick_count(), 50);
}

#[test]
fn spawn_random_fails_only_on_a_full_map() {
    let mut g = GameState::with_size(2, 2, 0);
    g.set_tiletype(Point::new(0, 0), TileType::Wall);
    g.set_tiletype(Point::new(1, 0), TileType::GlassWall);
    let a = g.spawn_random(false, Race::Grunt).unwrap();
    let b = g.spawn_random(false, Race::Grunt).unwrap();
    assert_ne!(g.creature(a).p(), g.creature(b).p());
    assert_eq!(g.spawn_random(false, Race::Grunt), None);
    assert_eq!(g.creatures_iter().len(), 2);
}
