use rustyhex::ai::AIActor;
use rustyhex::creature::{CreatureState, Race};
use rustyhex::game::Action;
use rustyhex::hex::{AbsoluteDirection, Direction, Grid, Point, Position};
use rustyhex::map::{Tile, TileType, WorldMap};
use rustyhex::rng::Rng;

fn floor(w: i32, h: i32) -> WorldMap {
    Grid::new(w, h, Tile { tiletype: TileType::Floor, creature: None })
}

fn put(g: &mut WorldMap, p: Point, id: Option<usize>) {
    let t = *g.at(p);
    g.set(p, Tile { tiletype: t.tiletype, creature: id });
}

fn me_at(g: &WorldMap, x: i32, y: i32, d: AbsoluteDirection, race: Race) -> CreatureState {
    CreatureState::new(g, Position::new(Point::new(x, y), d), false, race)
}

#[test]
fn remembers_a_sighting_and_chases_until_reaching_it() {
    let mut g = floor(20, 20);
    let players = vec![false, true];
    put(&mut g, Point::new(10, 10), Some(0));
    put(&mut g, Point::new(10, 14), Some(1));
    let mut ai = AIActor::new();
    ai.proceed_visible(&g, &players, Point::new(10, 14));
    assert_eq!(ai.last_player, Some(Point::new(10, 14)));
    // The player walks away; the memory stays.
    put(&mut g, Point::new(10, 14), None);
    let me = me_at(&g, 10, 10, AbsoluteDirection::North, Race::Grunt);
    let mut rng = Rng::new(5);
    let a = ai.get_action(&g, &players, &me, &mut rng);
    assert_eq!(a, Action::Move(Direction::Forward));
    assert_eq!(ai.last_player, Some(Point::new(10, 14)));
    assert_eq!(ai.next_turn_times, 2);
    assert_eq!(ai.next_turn, Direction::Left);
    // Once there, the memory is dropped and the creature roams again,
    // starting with the committed turns.
    let me = me_at(&g, 10, 14, AbsoluteDirection::North, Race::Grunt);
    let a = ai.get_action(&g, &players, &me, &mut rng);
    assert_eq!(ai.last_player, None);
    assert_eq!(a, Action::Turn(Direction::Left));
    assert_eq!(ai.next_turn_times, 1);
}

#[test]
fn forgets_when_a_non_player_stands_there() {
    let mut g = floor(20, 20);
    let players = vec![false, true, false];
    put(&mut g, Point::new(3, 3), Some(1));
    let mut ai = AIActor::new();
    ai.proceed_visible(&g, &players, Point::new(3, 3));
    assert_eq!(ai.last_player, Some(Point::new(3, 3)));
    put(&mut g, Point::new(3, 3), Some(2));
    ai.proceed_visible(&g, &players, Point::new(3, 3));
    assert_eq!(ai.last_player, Some(Point::new(3, 3)));
    let me = me_at(&g, 10, 10, AbsoluteDirection::South, Race::Heavy);
    let mut rng = Rng::new(1);
    ai.get_action(&g, &players, &me, &mut rng);
    assert_eq!(ai.last_player, None);
}

#[test]
fn scouts_run_and_targets_outside_the_cone_get_a_turn() {
    let mut g = floor(20, 20);
    let players = vec![false, true];
    put(&mut g, Point::new(10, 16), Some(1));
    let mut rng = Rng::new(2);
    let scout = me_at(&g, 10, 10, AbsoluteDirection::North, Race::Scout);
    let mut ai = AIActor::new();
    ai.proceed_visible(&g, &players, Point::new(10, 16));
    assert_eq!(ai.get_action(&g, &players, &scout, &mut rng), Action::Run(Direction::Forward));
    // Behind: turn right.
    let mut ai = AIActor::new();
    ai.proceed_visible(&g, &players, Point::new(10, 16));
    let facing_south = me_at(&g, 10, 10, AbsoluteDirection::South, Race::Grunt);
    assert_eq!(ai.get_action(&g, &players, &facing_south, &mut rng), Action::Turn(Direction::Right));
    assert_eq!(ai.next_turn_times, 0);
    // Off to the left: turn left.
    let facing_ne = me_at(&g, 10, 10, AbsoluteDirection::NorthEast, Race::Grunt);
    assert_eq!(ai.get_action(&g, &players, &facing_ne, &mut rng), Action::Turn(Direction::Left));
}

#[test]
fn blocked_chase_turns_toward_the_streak_side() {
    let mut g = floor(20, 20);
    let players = vec![false, true];
    g.set(Point::new(10, 11), Tile { tiletype: TileType::Wall, creature: None });
    put(&mut g, Point::new(11, 15), Some(1));
    let mut ai = AIActor::new();
    ai.proceed_visible(&g, &players, Point::new(11, 15));
    let me = me_at(&g, 10, 10, AbsoluteDirection::North, Race::Grunt);
    let mut rng = Rng::new(3);
    // (1, 5) lies right of straight ahead, inside the cone.
    assert_eq!(ai.get_action(&g, &players, &me, &mut rng), Action::Turn(Direction::Right));
    assert_eq!(ai.next_turn, Direction::Right);
    assert_eq!(ai.next_turn_times, 2);
}

#[test]
fn adjacent_player_is_struck_first() {
    let mut g = floor(10, 10);
    let players = vec![false, true];
    put(&mut g, Point::new(5, 6), Some(1));
    let me = me_at(&g, 5, 5, AbsoluteDirection::NorthEast, Race::Grunt);
    let mut ai = AIActor::new();
    let mut rng = Rng::new(9);
    assert_eq!(ai.get_action(&g, &players, &me, &mut rng), Action::Melee(Direction::Left));
    let me = me_at(&g, 5, 5, AbsoluteDirection::North, Race::Grunt);
    assert_eq!(ai.get_action(&g, &players, &me, &mut rng), Action::Melee(Direction::Forward));
    let me = me_at(&g, 5, 5, AbsoluteDirection::NorthWest, Race::Grunt);
    assert_eq!(ai.get_action(&g, &players, &me, &mut rng), Action::Melee(Direction::Right));
    let me = me_at(&g, 5, 5, AbsoluteDirection::South, Race::Grunt);
    assert_ne!(ai.get_action(&g, &players, &me, &mut rng), Action::Melee(Direction::Forward));
}

#[test]
fn roaming_facing_a_wall_turns_right_or_waits() {
    let mut g = floor(10, 10);
    g.set(Point::new(5, 6), Tile { tiletype: TileType::Wall, creature: None });
    let players: Vec<bool> = vec![false];
    let me = me_at(&g, 5, 5, AbsoluteDirection::North, Race::Heavy);
    let mut rng = Rng::new(11);
    for _ in 0..50 {
        let mut ai = AIActor::new();
        let a = ai.get_action(&g, &players, &me, &mut rng);
        assert!(a == Action::Turn(Direction::Right) || a == Action::Wait);
    }
}

fn lcg(s: u64) -> u64 {
    s.wrapping_mul(6364136223846793005).wrapping_add(1442695040888963407)
}

#[test]
fn generator_sequence() {
    let mut r = Rng::new(1);
    let s1 = lcg(1);
    assert_eq!(r.gen_below(6), (s1 >> 32) % 6);
    let s2 = lcg(s1);
    assert_eq!(r.gen_below(1000), (s2 >> 32) % 1000);
    let s3 = lcg(s2);
    assert_eq!(r.gen_weighted_bool(8), (s3 >> 32) % 8 == 0);
    let mut a = Rng::new(77);
    let mut b = Rng::new(77);
    for _ in 0..20 {
        assert_eq!(a.gen_below(13), b.gen_below(13));
    }
}

#[test]
fn roaming_draws_follow_the_generator() {
    let g = floor(30, 30);
    let players: Vec<bool> = vec![false];
    let me = me_at(&g, 15, 15, AbsoluteDirection::North, Race::Grunt);
    for seed in 0..40u64 {
        let mut ai = AIActor::new();
        let mut rng = Rng::new(seed);
        let a = ai.get_action(&g, &players, &me, &mut rng);
        let s1 = lcg(seed);
        let r = (s1 >> 32) % 6;
        let expected = if r >= 4 {
            Action::Wait
        } else {
            let s2 = lcg(s1);
            let walk = (s2 >> 32) % 8 != 0;
            if walk {
                Action::Move(Direction::Forward)
            } else if r == 2 {
                Action::Turn(Direction::Left)
            } else {
                Action::Turn(Direction::Right)
            }
        };
        assert_eq!(a, expected);
    }
}
