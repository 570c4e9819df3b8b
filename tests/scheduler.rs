use rustyhex::creature::{action_delay, CreatureState, Race};
use rustyhex::game::Action;
use rustyhex::hex::{AbsoluteDirection, Direction, Grid, Point, Position};
use rustyhex::map::{Tile, TileType};

fn base(action: Action, pre: bool, prev: Option<Action>) -> i64 {
    match action {
        Action::Run(_) => match prev {
            Some(Action::Run(_)) => 3,
            _ => 6,
        },
        Action::Turn(_) => 2,
        Action::Move(Direction::Forward) => 8,
        Action::Move(Direction::Left) | Action::Move(Direction::Right) => 9,
        Action::Move(Direction::Backward) => 14,
        Action::Melee(_) => {
            if pre {
                3
            } else {
                17
            }
        }
        Action::Wait => {
            if pre {
                1
            } else {
                6
            }
        }
        Action::Use => 15,
    }
}

fn expected(action: Action, pre: bool, race: Race, terrain: TileType, prev: Option<Action>) -> u32 {
    let speed = match race {
        Race::Human => 0,
        Race::Scout => 1,
        Race::Grunt => 0,
        Race::Heavy => -1,
    };
    let mut d = base(action, pre, prev);
    if matches!(action, Action::Turn(_) | Action::Move(_)) {
        d -= speed;
    }
    if matches!(action, Action::Turn(_) | Action::Move(_) | Action::Run(_)) && terrain == TileType::Sand {
        d += 6;
    }
    if pre && prev == Some(Action::Wait) && matches!(action, Action::Turn(_) | Action::Melee(_) | Action::Use) {
        d = (d - 6).max(0);
    }
    d as u32
}

fn all_actions() -> Vec<Action> {
    let dirs = [Direction::Forward, Direction::Right, Direction::Backward, Direction::Left];
    let mut v = vec![Action::Use, Action::Wait];
    for d in dirs {
        v.push(Action::Run(d));
        v.push(Action::Move(d));
        v.push(Action::Melee(d));
    }
    v.push(Action::Turn(Direction::Left));
    v.push(Action::Turn(Direction::Right));
    v
}

#[test]
fn delay_table_matches_every_combination() {
    let races = [Race::Human, Race::Scout, Race::Grunt, Race::Heavy];
    let terrains = [TileType::Floor, TileType::GlassWall, TileType::Wall, TileType::Sand];
    let mut prevs: Vec<Option<Action>> = vec![None];
    for a in all_actions() {
        prevs.push(Some(a));
    }
    for a in all_actions() {
        for pre in [true, false] {
            for r in races {
                for t in terrains {
                    for p in prevs.iter() {
                        assert_eq!(action_delay(a, pre, r, t, *p), expected(a, pre, r, t, *p));
                    }
                }
            }
        }
    }
}

#[test]
fn delay_spot_values() {
    let f = TileType::Floor;
    let s = TileType::Sand;
    let fwd = Direction::Forward;
    assert_eq!(action_delay(Action::Move(fwd), true, Race::Human, f, None), 8);
    assert_eq!(action_delay(Action::Move(fwd), false, Race::Human, f, None), 8);
    assert_eq!(action_delay(Action::Move(Direction::Left), true, Race::Human, f, None), 9);
    assert_eq!(action_delay(Action::Move(Direction::Backward), true, Race::Heavy, s, None), 21);
    assert_eq!(action_delay(Action::Run(fwd), true, Race::Scout, f, None), 6);
    assert_eq!(action_delay(Action::Run(fwd), true, Race::Scout, s, Some(Action::Run(Direction::Left))), 9);
    assert_eq!(action_delay(Action::Turn(Direction::Left), true, Race::Scout, f, Some(Action::Wait)), 0);
    assert_eq!(action_delay(Action::Turn(Direction::Left), false, Race::Scout, f, Some(Action::Wait)), 1);
    assert_eq!(action_delay(Action::Melee(fwd), true, Race::Grunt, f, Some(Action::Wait)), 0);
    assert_eq!(action_delay(Action::Melee(fwd), false, Race::Grunt, f, Some(Action::Wait)), 17);
    assert_eq!(action_delay(Action::Use, true, Race::Grunt, s, Some(Action::Wait)), 9);
    assert_eq!(action_delay(Action::Wait, true, Race::Grunt, s, Some(Action::Wait)), 1);
    assert_eq!(action_delay(Action::Wait, false, Race::Grunt, s, None), 6);
    assert_eq!(action_delay(Action::Move(fwd), true, Race::Heavy, f, Some(Action::Wait)), 9);
}

#[test]
fn race_constants() {
    assert_eq!(Race::Human.max_health(), 4);
    assert_eq!(Race::Scout.max_health(), 2);
    assert_eq!(Race::Grunt.max_health(), 4);
    assert_eq!(Race::Heavy.max_health(), 8);
    assert_eq!(Race::Human.damage(), 2);
    assert_eq!(Race::Scout.damage(), 1);
    assert_eq!(Race::Grunt.damage(), 2);
    assert_eq!(Race::Heavy.damage(), 3);
    assert_eq!(Race::Human.speed(), 0);
    assert_eq!(TileType::Sand.move_delay(), 6);
    assert_eq!(TileType::Floor.move_delay(), 0);
    assert_eq!(TileType::Wall.move_delay(), 0);
}

#[test]
fn needs_action_through_the_whole_cycle() {
    let map = Grid::new(10, 10, Tile { tiletype: TileType::Floor, creature: None });
    let pos = Position::new(Point::new(0, 0), AbsoluteDirection::North);
    let mut s = CreatureState::new(&map, pos, false, Race::Human);
    assert!(s.needs_action());
    let a = Action::Move(Direction::Forward);
    s.action_set(a, TileType::Floor);
    assert!(!s.needs_action());
    assert_eq!(s.action_delay, 8);
    assert!(s.action_pre);
    for left in (0..8).rev() {
        assert_eq!(s.tick(), None);
        assert_eq!(s.action_delay, left);
        assert!(!s.needs_action());
    }
    assert_eq!(s.tick(), Some(a));
    assert!(!s.action_pre);
    assert!(!s.needs_action());
    s.action_done();
    assert_eq!(s.action_delay, 8);
    assert!(!s.needs_action());
    for _ in 0..7 {
        assert_eq!(s.tick(), None);
        assert!(!s.needs_action());
    }
    assert_eq!(s.tick(), None);
    assert!(s.needs_action());
    assert_eq!(s.action_cur, None);
    assert_eq!(s.action_prev, Some(a));
}

#[test]
fn zero_recovery_clears_the_slot_at_once() {
    let map = Grid::new(10, 10, Tile { tiletype: TileType::Floor, creature: None });
    let pos = Position::new(Point::new(3, 3), AbsoluteDirection::South);
    let mut s = CreatureState::new(&map, pos, false, Race::Scout);
    s.action_set(Action::Wait, TileType::Floor);
    assert_eq!(s.action_delay, 1);
    assert_eq!(s.tick(), None);
    assert_eq!(s.tick(), Some(Action::Wait));
    s.action_done();
    assert_eq!(s.action_delay, 6);
    s.action_set(Action::Turn(Direction::Left), TileType::Floor);
    assert_eq!(s.action_delay, 1);
    assert_eq!(s.tick(), None);
    assert_eq!(s.tick(), Some(Action::Turn(Direction::Left)));
    s.action_done();
    assert_eq!(s.action_delay, 1);
    assert_eq!(s.tick(), None);
    assert!(s.needs_action());
}

#[test]
fn idle_tick_does_nothing() {
    let map = Grid::new(4, 4, Tile { tiletype: TileType::Floor, creature: None });
    let pos = Position::new(Point::new(1, 1), AbsoluteDirection::North);
    let mut s = CreatureState::new(&map, pos, true, Race::Human);
    assert_eq!(s.tick(), None);
    assert!(s.needs_action());
}

#[test]
fn turn_legality() {
    assert!(Action::Turn(Direction::Left).legal());
    assert!(Action::Turn(Direction::Right).legal());
    assert!(!Action::Turn(Direction::Forward).legal());
    assert!(!Action::Turn(Direction::Backward).legal());
    assert!(Action::Move(Direction::Backward).legal());
}
