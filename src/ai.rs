//! The rule-based behavior of creatures that no player drives.
use crate::creature::{holds_player, CreatureState, Race};
use crate::game::Action;
use crate::hex::{cyclic_delta, step_dx, step_dy, Direction, Point};
use crate::map::WorldMap;
use crate::rng::{draw, lcg, Rng};
use vstd::arithmetic::div_mod::lemma_sub_mod_noop;
use vstd::prelude::*;

verus! {

/// Memory of a rule-based creature: where it last saw a player, and a
/// streak of turns it has committed to.
#[derive(Clone, Copy, Debug, PartialEq, Eq, Structural)]
pub struct AIActor {
    pub next_turn: Direction,
    pub next_turn_times: u32,
    pub last_player: Option<Point>,
}

/// Whether a creature that `players` does not mark stands at `q`.
pub open spec fn holds_non_player(g: WorldMap, players: Seq<bool>, q: Point) -> bool {
    match g.cell(q).creature {
        Some(id) => !(id < players.len() && players[id as int]),
        None => false,
    }
}

fn tile_holds_player(g: &WorldMap, players: &Vec<bool>, q: Point) -> (r: bool)
    requires
        g.wf(),
    ensures
        r == holds_player(*g, players@, q),
{
    match g.at(q).creature {
        Some(id) => id < players.len() && players[id],
        None => false,
    }
}

fn tile_holds_non_player(g: &WorldMap, players: &Vec<bool>, q: Point) -> (r: bool)
    requires
        g.wf(),
    ensures
        r == holds_non_player(*g, players@, q),
{
    match g.at(q).creature {
        Some(id) => !(id < players.len() && players[id]),
        None => false,
    }
}

/// The first of forward-left, forward and forward-right whose cell holds a
/// player.
pub open spec fn spec_adjacent_player(g: WorldMap, players: Seq<bool>, me: CreatureState) -> Option<
    Direction,
> {
    let at = |d: Direction| g.spec_step(me.pos.p, me.pos.dir.spec_turn(d));
    if holds_player(g, players, at(Direction::Left)) {
        Some(Direction::Left)
    } else if holds_player(g, players, at(Direction::Forward)) {
        Some(Direction::Forward)
    } else if holds_player(g, players, at(Direction::Right)) {
        Some(Direction::Right)
    } else {
        None
    }
}

/// Cross product of two displacements in axial coordinates: negative when
/// `b` lies clockwise of `a`.
pub open spec fn cross(ax: int, ay: int, bx: int, by: int) -> int {
    ax * by - ay * bx
}

/// Whether the displacement `(tx, ty)` lies in the sixty-degree cone around
/// the direction with clockwise index `f`, bounded by the two diagonals
/// between that direction and its left and right neighbors (both included).
pub open spec fn in_cone(f: int, tx: int, ty: int) -> bool {
    let l = (f + 5) % 6;
    let r = (f + 1) % 6;
    let alx = step_dx(f) + step_dx(l);
    let aly = step_dy(f) + step_dy(l);
    let arx = step_dx(f) + step_dx(r);
    let ary = step_dy(f) + step_dy(r);
    !(tx == 0 && ty == 0) && cross(alx, aly, tx, ty) <= 0 && cross(arx, ary, tx, ty) >= 0
}

/// Sign of the side of `(tx, ty)` with respect to the direction with index
/// `f`: positive on the left, negative on the right.
pub open spec fn side(f: int, tx: int, ty: int) -> int {
    cross(step_dx(f), step_dy(f), tx, ty)
}

/// The turn that starts an about-face; right when the target is straight behind.
pub open spec fn turn_toward(s: int) -> Direction {
    if s > 0 {
        Direction::Left
    } else {
        Direction::Right
    }
}

/// The side a committed streak turns to while advancing; left when the
/// target is straight ahead.
pub open spec fn streak_toward(s: int) -> Direction {
    if s < 0 {
        Direction::Right
    } else {
        Direction::Left
    }
}

/// The way a creature advances: scouts run.
pub open spec fn advance(race: Race) -> Action {
    if race == Race::Scout {
        Action::Run(Direction::Forward)
    } else {
        Action::Move(Direction::Forward)
    }
}

/// The turn that a roaming draw falls back to.
pub open spec fn roam_turn(d: Direction) -> Action {
    match d {
        Direction::Left => Action::Turn(Direction::Left),
        _ => Action::Turn(Direction::Right),
    }
}

/// The direction a roaming draw in `[0, 4)` picks.
pub open spec fn roam_dir(r: u64) -> Direction {
    if r <= 1 {
        Direction::Forward
    } else if r == 2 {
        Direction::Left
    } else {
        Direction::Right
    }
}

/// Chances, out of this many, of a roaming creature's draw.
pub const ROAM_CHOICES: u64 = 6;

/// A roaming creature that could walk on turns instead once in this many
/// times.
pub const ROAM_TURN_ODDS: u64 = 8;

/// Length of the streak of turns committed to while chasing.
pub const CHASE_STREAK: u32 = 2;

impl AIActor {
    /// A committed streak turns left or right.
    pub open spec fn wf(self) -> bool {
        self.next_turn_times > 0 ==> (self.next_turn == Direction::Left || self.next_turn
            == Direction::Right)
    }

    /// The remembered point, forgotten once reached or once a creature that
    /// is no player is seen to stand there.
    pub open spec fn spec_memory(self, g: WorldMap, players: Seq<bool>, me: CreatureState) -> Option<
        Point,
    > {
        match self.last_player {
            Some(q) => if me.pos.p == q || holds_non_player(g, players, q) {
                None
            } else {
                Some(q)
            },
            None => None,
        }
    }

    /// Chasing the remembered point `target`.
    pub open spec fn spec_chase(self, g: WorldMap, me: CreatureState, target: Point) -> (
        AIActor,
        Action,
    ) {
        let tx = cyclic_delta(me.pos.p.x as int, target.x as int, g.w());
        let ty = cyclic_delta(me.pos.p.y as int, target.y as int, g.h());
        let f = me.pos.dir.index();
        let s = side(f, tx, ty);
        if !in_cone(f, tx, ty) {
            (self, Action::Turn(turn_toward(s)))
        } else {
            let ai = AIActor {
                next_turn: streak_toward(s),
                next_turn_times: CHASE_STREAK,
                ..self
            };
            if g.cell(g.spec_step(me.pos.p, me.pos.dir)).spec_is_passable() {
                (ai, advance(me.race))
            } else {
                (ai, Action::Turn(streak_toward(s)))
            }
        }
    }

    /// Roaming with the generator in state `s`; also gives the generator's
    /// next state.
    pub open spec fn spec_roam(self, g: WorldMap, me: CreatureState, s: u64) -> (
        AIActor,
        Action,
        u64,
    ) {
        if self.next_turn_times > 0 {
            (
                AIActor { next_turn_times: (self.next_turn_times - 1) as u32, ..self },
                Action::Turn(self.next_turn),
                s,
            )
        } else {
            let r = draw(s, ROAM_CHOICES);
            let s1 = lcg(s);
            if r >= 4 {
                (self, Action::Wait, s1)
            } else if !g.cell(g.spec_step(me.pos.p, me.pos.dir)).spec_is_passable() {
                (self, Action::Turn(Direction::Right), s1)
            } else {
                let h = me.pos.dir.spec_turn(roam_dir(r));
                let c1 = g.spec_step(me.pos.p, h);
                let c2 = g.spec_step(c1, h);
                if g.cell(c1).spec_is_passable() && g.cell(c2).spec_is_passable() {
                    if draw(s1, ROAM_TURN_ODDS) != 0 {
                        (self, Action::Move(Direction::Forward), lcg(s1))
                    } else {
                        (self, roam_turn(roam_dir(r)), lcg(s1))
                    }
                } else {
                    (self, roam_turn(roam_dir(r)), s1)
                }
            }
        }
    }

    /// The decision: forget a stale memory, strike a player in front, chase
    /// a remembered player, or roam.
    pub open spec fn spec_decide(self, g: WorldMap, players: Seq<bool>, me: CreatureState, s: u64) -> (
        AIActor,
        Action,
        u64,
    ) {
        let ai = AIActor { last_player: self.spec_memory(g, players, me), ..self };
        match spec_adjacent_player(g, players, me) {
            Some(d) => (ai, Action::Melee(d), s),
            None => match ai.last_player {
                Some(q) => {
                    let (a2, act) = ai.spec_chase(g, me, q);
                    (a2, act, s)
                },
                None => ai.spec_roam(g, me, s),
            },
        }
    }

    pub fn new() -> (r: AIActor)
        ensures
            r.next_turn == Direction::Forward,
            r.next_turn_times == 0,
            r.last_player.is_none(),
    {
        AIActor { next_turn: Direction::Forward, next_turn_times: 0, last_player: None }
    }

    /// Notes that the cell `p` is seen: a player standing there is
    /// remembered, replacing any earlier sighting.
    pub fn proceed_visible(&mut self, g: &WorldMap, players: &Vec<bool>, p: Point)
        requires
            g.wf(),
        ensures
            *final(self) == if holds_player(*g, players@, p) {
                AIActor { last_player: Some(g.spec_wrap(p)), ..*old(self) }
            } else {
                *old(self)
            },
    {
        if tile_holds_player(g, players, p) {
            self.last_player = Some(g.wrap(p));
        }
    }

    fn chase(&mut self, g: &WorldMap, me: &CreatureState, target: Point) -> (r: Action)
        requires
            g.wf(),
            me.wf(*g),
        ensures
            (*final(self), r) == old(self).spec_chase(*g, *me, target),
    {
        proof {
            crate::hex::lemma_wrap_in_bounds(g, me.pos.p);
        }
        let (tx, ty) = g.relative_wrapped(me.pos.p, target);
        let f = me.pos.dir.to_index();
        let (fx, fy) = offsets(f);
        let (lx, ly) = offsets((f + 5) % 6);
        let (rx, ry) = offsets((f + 1) % 6);
        let tx = tx as i64;
        let ty = ty as i64;
        let s = cross_of(fx, fy, tx, ty);
        let cone = !(tx == 0 && ty == 0) && cross_of(fx + lx, fy + ly, tx, ty) <= 0 && cross_of(
            fx + rx,
            fy + ry,
            tx,
            ty,
        ) >= 0;
        if !cone {
            if s > 0 {
                Action::Turn(Direction::Left)
            } else {
                Action::Turn(Direction::Right)
            }
        } else {
            self.next_turn = if s < 0 {
                Direction::Right
            } else {
                Direction::Left
            };
            self.next_turn_times = CHASE_STREAK;
            let ahead = g.step(me.pos.p, me.pos.dir);
            if g.at(ahead).is_passable() {
                if me.race == Race::Scout {
                    Action::Run(Direction::Forward)
                } else {
                    Action::Move(Direction::Forward)
                }
            } else {
                Action::Turn(self.next_turn)
            }
        }
    }

    fn roam_around(&mut self, g: &WorldMap, me: &CreatureState, rng: &mut Rng) -> (r: Action)
        requires
            g.wf(),
            me.wf(*g),
        ensures
            (*final(self), r, final(rng)@) == old(self).spec_roam(*g, *me, old(rng)@),
    {
        proof {
            crate::hex::lemma_wrap_in_bounds(g, me.pos.p);
        }
        if self.next_turn_times > 0 {
            self.next_turn_times = self.next_turn_times - 1;
            return Action::Turn(self.next_turn);
        }
        let r = rng.gen_below(ROAM_CHOICES);
        if r >= 4 {
            return Action::Wait;
        }
        let dir = if r <= 1 {
            Direction::Forward
        } else if r == 2 {
            Direction::Left
        } else {
            Direction::Right
        };
        let fallback = match dir {
            Direction::Left => Action::Turn(Direction::Left),
            _ => Action::Turn(Direction::Right),
        };
        if !g.at(g.step(me.pos.p, me.pos.dir)).is_passable() {
            return Action::Turn(Direction::Right);
        }
        let h = me.pos.dir.turn(dir);
        let c1 = g.step(me.pos.p, h);
        proof {
            crate::hex::lemma_wrap_in_bounds(g, c1);
        }
        let c2 = g.step(c1, h);
        if g.at(c1).is_passable() && g.at(c2).is_passable() {
            if !rng.gen_weighted_bool(ROAM_TURN_ODDS) {
                Action::Move(Direction::Forward)
            } else {
                fallback
            }
        } else {
            fallback
        }
    }

    /// Decides the next action of the creature `me`; `players` marks which
    /// creature identifiers are players.
    pub fn get_action(
        &mut self,
        g: &WorldMap,
        players: &Vec<bool>,
        me: &CreatureState,
        rng: &mut Rng,
    ) -> (r: Action)
        requires
            g.wf(),
            me.wf(*g),
        ensures
            (*final(self), r, final(rng)@) == old(self).spec_decide(*g, players@, *me, old(rng)@),
    {
        match self.last_player {
            Some(q) => {
                if me.pos.p == q || tile_holds_non_player(g, players, q) {
                    self.last_player = None;
                }
            },
            None => {},
        }
        let left = g.step(me.pos.p, me.pos.dir.turn(Direction::Left));
        let fwd = g.step(me.pos.p, me.pos.dir.turn(Direction::Forward));
        let right = g.step(me.pos.p, me.pos.dir.turn(Direction::Right));
        proof {
            crate::hex::lemma_wrap_in_bounds(g, me.pos.p);
        }
        if tile_holds_player(g, players, left) {
            return Action::Melee(Direction::Left);
        }
        if tile_holds_player(g, players, fwd) {
            return Action::Melee(Direction::Forward);
        }
        if tile_holds_player(g, players, right) {
            return Action::Melee(Direction::Right);
        }
        match self.last_player {
            Some(q) => self.chase(g, me, q),
            None => self.roam_around(g, me, rng),
        }
    }
}

/// Offsets of one step in the direction with clockwise index `i`.
fn offsets(i: i8) -> (r: (i64, i64))
    requires
        0 <= i < 6,
    ensures
        r.0 == step_dx(i as int),
        r.1 == step_dy(i as int),
{
    if i == 0 {
        (0, 1)
    } else if i == 1 {
        (1, 0)
    } else if i == 2 {
        (1, -1)
    } else if i == 3 {
        (0, -1)
    } else if i == 4 {
        (-1, 0)
    } else {
        (-1, 1)
    }
}

fn cross_of(ax: i64, ay: i64, bx: i64, by: i64) -> (r: i64)
    requires
        -2 <= ax <= 2,
        -2 <= ay <= 2,
        i32::MIN <= bx <= i32::MAX,
        i32::MIN <= by <= i32::MAX,
    ensures
        r == cross(ax as int, ay as int, bx as int, by as int),
{
    proof {
        assert(-0x1_0000_0000 <= ax * by <= 0x1_0000_0000) by (nonlinear_arith)
            requires
                -2 <= ax <= 2,
                i32::MIN <= by <= i32::MAX,
        ;
        assert(-0x1_0000_0000 <= ay * bx <= 0x1_0000_0000) by (nonlinear_arith)
            requires
                -2 <= ay <= 2,
                i32::MIN <= bx <= i32::MAX,
        ;
    }
    ax * by - ay * bx
}

/// Every decision is a legal action and keeps the behavior well-formed.
pub proof fn lemma_decide_legal(
    ai: AIActor,
    g: WorldMap,
    players: Seq<bool>,
    me: CreatureState,
    s: u64,
)
    requires
        ai.wf(),
    ensures
        ai.spec_decide(g, players, me, s).1.is_legal(),
        ai.spec_decide(g, players, me, s).0.wf(),
{
}

/// The chase depends on the remembered point only up to the torus: two
/// points equal modulo the grid's width and height give the same decision.
pub proof fn lemma_chase_periodic(
    ai: AIActor,
    g: WorldMap,
    me: CreatureState,
    target: Point,
    other: Point,
)
    requires
        g.wf(),
        other.x as int % g.w() == target.x as int % g.w(),
        other.y as int % g.h() == target.y as int % g.h(),
    ensures
        ai.spec_chase(g, me, other) == ai.spec_chase(g, me, target),
{
    let (mx, my) = (me.pos.p.x as int, me.pos.p.y as int);
    lemma_sub_mod_noop(other.x as int, mx, g.w());
    lemma_sub_mod_noop(target.x as int, mx, g.w());
    lemma_sub_mod_noop(other.y as int, my, g.h());
    lemma_sub_mod_noop(target.y as int, my, g.h());
}

} // verus!
