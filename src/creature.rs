//! Creatures: their race, their action scheduler and what they see.
use crate::ai::AIActor;
use crate::game::Action;
use crate::hex::{dir_of_index, AbsoluteDirection, Direction, Grid, Point, Position};
use crate::map::{TileType, WorldMap};
use crate::rng::Rng;
use vstd::prelude::*;

verus! {

/// Race of a creature.
#[derive(Clone, Copy, Debug, PartialEq, Eq, Structural)]
pub enum Race {
    Human,
    Scout,
    Grunt,
    Heavy,
}

impl Race {
    pub open spec fn spec_max_health(self) -> int {
        match self {
            Race::Human => 4,
            Race::Scout => 2,
            Race::Grunt => 4,
            Race::Heavy => 8,
        }
    }

    pub open spec fn spec_damage(self) -> int {
        match self {
            Race::Human => 2,
            Race::Scout => 1,
            Race::Grunt => 2,
            Race::Heavy => 3,
        }
    }

    /// How much faster than usual the race turns and moves (negative: slower).
    pub open spec fn spec_speed(self) -> int {
        match self {
            Race::Human => 0,
            Race::Scout => 1,
            Race::Grunt => 0,
            Race::Heavy => -1,
        }
    }

    pub fn max_health(&self) -> (r: u32)
        ensures
            r == self.spec_max_health(),
    {
        match *self {
            Race::Human => 4,
            Race::Scout => 2,
            Race::Grunt => 4,
            Race::Heavy => 8,
        }
    }

    pub fn damage(&self) -> (r: u32)
        ensures
            r == self.spec_damage(),
    {
        match *self {
            Race::Human => 2,
            Race::Scout => 1,
            Race::Grunt => 2,
            Race::Heavy => 3,
        }
    }

    pub fn speed(&self) -> (r: i32)
        ensures
            r == self.spec_speed(),
    {
        match *self {
            Race::Human => 0,
            Race::Scout => 1,
            Race::Grunt => 0,
            Race::Heavy => -1,
        }
    }
}

/// Delay taken off the next pre-delay of a turn, melee or use that follows a
/// wait.
pub const WAIT_CHARGE: u32 = 6;

pub open spec fn is_run(a: Option<Action>) -> bool {
    match a {
        Some(Action::Run(_)) => true,
        _ => false,
    }
}

/// Base delay of `action` before the race and terrain adjust it.
pub open spec fn base_delay(action: Action, pre: bool, prev: Option<Action>) -> int {
    match action {
        Action::Run(_) => if is_run(prev) {
            3
        } else {
            6
        },
        Action::Turn(_) => 2,
        Action::Move(Direction::Forward) => 8,
        Action::Move(Direction::Backward) => 14,
        Action::Move(_) => 9,
        Action::Melee(_) => if pre {
            3
        } else {
            17
        },
        Action::Wait => if pre {
            1
        } else {
            6
        },
        Action::Use => 15,
    }
}

/// Delay, in ticks, of one phase of `action` (`pre`: before it takes effect;
/// otherwise: the recovery after), for a creature of `race` whose action
/// leads onto `terrain`, the previous completed action being `prev`.
pub open spec fn spec_action_delay(
    action: Action,
    pre: bool,
    race: Race,
    terrain: TileType,
    prev: Option<Action>,
) -> int {
    let base = base_delay(action, pre, prev);
    let with_speed = match action {
        Action::Turn(_) | Action::Move(_) => base - race.spec_speed(),
        _ => base,
    };
    let with_terrain = match action {
        Action::Turn(_) | Action::Move(_) | Action::Run(_) => with_speed
            + terrain.spec_move_delay(),
        _ => with_speed,
    };
    let charged = match action {
        Action::Turn(_) | Action::Melee(_) | Action::Use => pre && prev == Some(Action::Wait),
        _ => false,
    };
    if charged {
        if with_terrain > WAIT_CHARGE {
            with_terrain - WAIT_CHARGE
        } else {
            0
        }
    } else {
        with_terrain
    }
}

/// The delay table: see `spec_action_delay`.
pub fn action_delay(
    action: Action,
    pre: bool,
    race: Race,
    terrain: TileType,
    prev: Option<Action>,
) -> (r: u32)
    ensures
        r == spec_action_delay(action, pre, race, terrain, prev),
{
    let prev_run = match prev {
        Some(Action::Run(_)) => true,
        _ => false,
    };
    let base: i32 = match action {
        Action::Run(_) => if prev_run {
            3
        } else {
            6
        },
        Action::Turn(_) => 2,
        Action::Move(Direction::Forward) => 8,
        Action::Move(Direction::Backward) => 14,
        Action::Move(_) => 9,
        Action::Melee(_) => if pre {
            3
        } else {
            17
        },
        Action::Wait => if pre {
            1
        } else {
            6
        },
        Action::Use => 15,
    };
    let with_speed: i32 = match action {
        Action::Turn(_) | Action::Move(_) => base - race.speed(),
        _ => base,
    };
    let with_terrain: i32 = match action {
        Action::Turn(_) | Action::Move(_) | Action::Run(_) => with_speed
            + terrain.move_delay() as i32,
        _ => with_speed,
    };
    let after_wait = match prev {
        Some(Action::Wait) => true,
        _ => false,
    };
    let charged = match action {
        Action::Turn(_) | Action::Melee(_) | Action::Use => pre && after_wait,
        _ => false,
    };
    if charged {
        if with_terrain > WAIT_CHARGE as i32 {
            (with_terrain - WAIT_CHARGE as i32) as u32
        } else {
            0
        }
    } else {
        with_terrain as u32
    }
}

/// Light budget of a creature's sight.
pub const SIGHT: i64 = 15;

/// Whether `visible` and `known` are grids of the same shape as `g` and
/// everything visible is known.
pub open spec fn sight_wf(visible: Grid<bool>, known: Grid<bool>, g: WorldMap) -> bool {
    &&& visible.wf()
    &&& known.wf()
    &&& visible.w() == g.w() && visible.h() == g.h()
    &&& known.w() == g.w() && known.h() == g.h()
    &&& forall|k: int| 0 <= k < visible@.len() && #[trigger] visible@[k] ==> known@[k]
}

/// Everything known before is known after.
pub open spec fn knows_more(before: Grid<bool>, after: Grid<bool>) -> bool {
    forall|k: int| 0 <= k < before@.len() && #[trigger] before@[k] ==> after@[k]
}

/// Whether the tile at `q` holds a creature that `players` marks as a player.
pub open spec fn holds_player(g: WorldMap, players: Seq<bool>, q: Point) -> bool {
    match g.cell(q).creature {
        Some(id) => id < players.len() && players[id as int],
        None => false,
    }
}

/// What a flood may report as sighted: nothing new, or a visible cell that
/// holds a player.
pub open spec fn sighting_ok(
    before: Option<Point>,
    after: Option<Point>,
    visible: Grid<bool>,
    g: WorldMap,
    players: Seq<bool>,
) -> bool {
    after == before || (after.is_some() && g.in_bounds(after.unwrap()) && visible@[g.idx(
        after.unwrap(),
    )] && holds_player(g, players, after.unwrap()))
}

/// What is known only grows: across successive refreshes of sight, each
/// knowing at least what the one before knew, everything known at the first
/// is known at the last.
pub proof fn lemma_knows_more_trans(a: Grid<bool>, b: Grid<bool>, c: Grid<bool>)
    requires
        a@.len() == b@.len(),
        knows_more(a, b),
        knows_more(b, c),
    ensures
        knows_more(a, c),
{
    assert forall|k: int| 0 <= k < a@.len() && #[trigger] a@[k] implies c@[k] by {
        assert(b@[k]);
    }
}

/// The six neighbors of `p`.
pub open spec fn neighbor_cells(g: WorldMap, p: Point) -> Set<Point> {
    Set::new(|q: Point| exists|j: int| 0 <= j < 6 && q == g.spec_step(p, dir_of_index(j)))
}

/// What a creature standing at `pos` sees: the flood from its cell along its
/// facing with the full light budget.
pub open spec fn sight_of(g: WorldMap, pos: Position) -> Set<Point> {
    lit(g, pos.p, pos.dir, None, None, SIGHT as int)
}

/// `after` holds, at each in-bounds cell, what `before` holds or whether the
/// cell is in `s`.
pub open spec fn lights_exactly(before: Grid<bool>, after: Grid<bool>, g: WorldMap, s: Set<Point>) -> bool {
    forall|q: Point|
        g.in_bounds(q) ==> #[trigger] after@[g.idx(q)] == (before@[g.idx(q)] || s.contains(q))
}

/// Marks `p` visible (and so known), and reports it when a player stands there.
fn mark_visible(
    visible: &mut Grid<bool>,
    known: &mut Grid<bool>,
    g: &WorldMap,
    players: &Vec<bool>,
    p: Point,
    sighting: &mut Option<Point>,
)
    requires
        g.wf(),
        g.in_bounds(p),
        sight_wf(*old(visible), *old(known), *g),
    ensures
        sight_wf(*final(visible), *final(known), *g),
        knows_more(*old(known), *final(known)),
        knows_more(*old(visible), *final(visible)),
        final(visible)@[g.idx(p)],
        sighting_ok(*old(sighting), *final(sighting), *final(visible), *g, players@),
        lights_exactly(*old(visible), *final(visible), *g, set![p]),
        lights_exactly(*old(known), *final(known), *g, set![p]),
        *final(sighting) == if holds_player(*g, players@, p) {
            Some(p)
        } else {
            *old(sighting)
        },
{
    proof {
        crate::hex::lemma_wrap_in_bounds(g, p);
        crate::hex::lemma_idx_in_range(g, p);
    }
    visible.set(p, true);
    known.set(p, true);
    proof {
        assert forall|q: Point| g.in_bounds(q) implies #[trigger] visible@[g.idx(q)] == (old(
            visible,
        )@[g.idx(q)] || set![p].contains(q)) by {
            crate::hex::lemma_idx_in_range(g, q);
            if g.idx(q) == g.idx(p) {
                crate::hex::lemma_idx_injective(g, q, p);
            }
        }
        assert forall|q: Point| g.in_bounds(q) implies #[trigger] known@[g.idx(q)] == (old(
            known,
        )@[g.idx(q)] || set![p].contains(q)) by {
            crate::hex::lemma_idx_in_range(g, q);
            if g.idx(q) == g.idx(p) {
                crate::hex::lemma_idx_injective(g, q, p);
            }
        }
    }
    if let Some(id) = g.at(p).creature {
        if id < players.len() && players[id] {
            *sighting = Some(p);
        }
    }
}

/// The directions the flood continues in from a cell, given the direction it
/// came in (`dir`) and the one before that (`pdir`).
pub open spec fn spec_branches(
    main_dir: AbsoluteDirection,
    dir: Option<AbsoluteDirection>,
    pdir: Option<AbsoluteDirection>,
) -> Seq<AbsoluteDirection> {
    match (dir, pdir) {
        (Some(d), Some(pd)) => if d == pd {
            seq![d]
        } else {
            seq![d, pd]
        },
        (Some(d), None) => if d == main_dir {
            seq![d, d.spec_turn(Direction::Left), d.spec_turn(Direction::Right)]
        } else {
            seq![d, main_dir]
        },
        _ => seq![
            main_dir,
            main_dir.spec_turn(Direction::Left),
            main_dir.spec_turn(Direction::Right),
        ],
    }
}

/// The cells lit by the flood that enters `p` with `light` left, having come
/// in direction `dir` after `pdir`, in a cone whose main direction is
/// `main_dir`: `p` itself, and, when light is left once `p`'s opaqueness is
/// paid, what the branches that `spec_branches` names light in turn.
pub open spec fn lit(
    g: WorldMap,
    p: Point,
    main_dir: AbsoluteDirection,
    dir: Option<AbsoluteDirection>,
    pdir: Option<AbsoluteDirection>,
    light: int,
) -> Set<Point>
    decreases light, 4int,
{
    if light < 0 {
        Set::empty()
    } else if light - g.cell(p).spec_opaqueness() < 0 {
        set![p]
    } else {
        set![p].union(
            lit_children(
                g,
                p,
                main_dir,
                dir,
                pdir,
                light,
                spec_branches(main_dir, dir, pdir).len() as int,
            ),
        )
    }
}

/// What the first `i` branches out of `p` light.
pub open spec fn lit_children(
    g: WorldMap,
    p: Point,
    main_dir: AbsoluteDirection,
    dir: Option<AbsoluteDirection>,
    pdir: Option<AbsoluteDirection>,
    light: int,
    i: int,
) -> Set<Point>
    decreases light, i,
{
    let rem = light - g.cell(p).spec_opaqueness();
    if light < 0 || i <= 0 || rem < 0 || rem >= light || i > spec_branches(main_dir, dir, pdir).len() {
        Set::empty()
    } else {
        let d = spec_branches(main_dir, dir, pdir)[i - 1];
        let next_main = if dir.is_some() {
            d
        } else {
            main_dir
        };
        lit_children(g, p, main_dir, dir, pdir, light, i - 1).union(
            lit(g, g.spec_step(p, d), next_main, Some(d), dir, rem),
        )
    }
}

/// The last cell, in the order the flood lights them, that holds a player:
/// `p` comes first, then what each branch lights, branch by branch.
pub open spec fn last_sighting(
    g: WorldMap,
    players: Seq<bool>,
    p: Point,
    main_dir: AbsoluteDirection,
    dir: Option<AbsoluteDirection>,
    pdir: Option<AbsoluteDirection>,
    light: int,
) -> Option<Point>
    decreases light, 4int,
{
    let own = if holds_player(g, players, p) {
        Some(p)
    } else {
        None
    };
    if light < 0 {
        None
    } else if light - g.cell(p).spec_opaqueness() < 0 {
        own
    } else {
        match children_sighting(
            g,
            players,
            p,
            main_dir,
            dir,
            pdir,
            light,
            spec_branches(main_dir, dir, pdir).len() as int,
        ) {
            Some(q) => Some(q),
            None => own,
        }
    }
}

/// The last player-holding cell that the first `i` branches out of `p` light.
pub open spec fn children_sighting(
    g: WorldMap,
    players: Seq<bool>,
    p: Point,
    main_dir: AbsoluteDirection,
    dir: Option<AbsoluteDirection>,
    pdir: Option<AbsoluteDirection>,
    light: int,
    i: int,
) -> Option<Point>
    decreases light, i,
{
    let rem = light - g.cell(p).spec_opaqueness();
    if light < 0 || i <= 0 || rem < 0 || rem >= light || i > spec_branches(main_dir, dir, pdir).len() {
        None
    } else {
        let d = spec_branches(main_dir, dir, pdir)[i - 1];
        let next_main = if dir.is_some() {
            d
        } else {
            main_dir
        };
        match last_sighting(g, players, g.spec_step(p, d), next_main, Some(d), dir, rem) {
            Some(q) => Some(q),
            None => children_sighting(g, players, p, main_dir, dir, pdir, light, i - 1),
        }
    }
}

/// `before`, replaced by `found` when that is a cell.
pub open spec fn or_keep(found: Option<Point>, before: Option<Point>) -> Option<Point> {
    match found {
        Some(q) => Some(q),
        None => before,
    }
}

fn branches(
    main_dir: AbsoluteDirection,
    dir: Option<AbsoluteDirection>,
    pdir: Option<AbsoluteDirection>,
) -> (r: Vec<AbsoluteDirection>)
    ensures
        r@ == spec_branches(main_dir, dir, pdir),
{
    match (dir, pdir) {
        (Some(d), Some(pd)) => if d == pd {
            vec![d]
        } else {
            vec![d, pd]
        },
        (Some(d), None) => if d == main_dir {
            vec![d, d.turn(Direction::Left), d.turn(Direction::Right)]
        } else {
            vec![d, main_dir]
        },
        _ => vec![main_dir, main_dir.turn(Direction::Left), main_dir.turn(Direction::Right)],
    }
}

/// The light-budget flood: lights `p`, pays its opaqueness out of `light`, and
/// while light is left goes on into the neighbors that `spec_branches` names.
fn do_los(
    visible: &mut Grid<bool>,
    known: &mut Grid<bool>,
    g: &WorldMap,
    players: &Vec<bool>,
    p: Point,
    main_dir: AbsoluteDirection,
    dir: Option<AbsoluteDirection>,
    pdir: Option<AbsoluteDirection>,
    light: i64,
    sighting: &mut Option<Point>,
)
    requires
        g.wf(),
        g.in_bounds(p),
        sight_wf(*old(visible), *old(known), *g),
        0 <= light <= SIGHT,
    ensures
        sight_wf(*final(visible), *final(known), *g),
        knows_more(*old(known), *final(known)),
        knows_more(*old(visible), *final(visible)),
        final(visible)@[g.idx(p)],
        sighting_ok(*old(sighting), *final(sighting), *final(visible), *g, players@),
        lights_exactly(*old(visible), *final(visible), *g, lit(*g, p, main_dir, dir, pdir, light as int)),
        lights_exactly(*old(known), *final(known), *g, lit(*g, p, main_dir, dir, pdir, light as int)),
        *final(sighting) == or_keep(
            last_sighting(*g, players@, p, main_dir, dir, pdir, light as int),
            *old(sighting),
        ),
    decreases light,
{
    mark_visible(visible, known, g, players, p, sighting);
    let remaining = light - g.at(p).opaqueness() as i64;
    proof {
        crate::hex::lemma_wrap_in_bounds(g, p);
    }
    if remaining < 0 {
        return;
    }
    let ds = branches(main_dir, dir, pdir);
    let mut i: usize = 0;
    while i < ds.len()
        invariant
            g.wf(),
            g.in_bounds(p),
            0 <= remaining < light <= SIGHT,
            sight_wf(*old(visible), *old(known), *g),
            sight_wf(*visible, *known, *g),
            knows_more(*old(known), *known),
            knows_more(*old(visible), *visible),
            visible@[g.idx(p)],
            sighting_ok(*old(sighting), *sighting, *visible, *g, players@),
            i <= ds@.len(),
            ds@ == spec_branches(main_dir, dir, pdir),
            remaining == light - g.cell(p).spec_opaqueness(),
            lights_exactly(
                *old(visible),
                *visible,
                *g,
                set![p].union(lit_children(*g, p, main_dir, dir, pdir, light as int, i as int)),
            ),
            lights_exactly(
                *old(known),
                *known,
                *g,
                set![p].union(lit_children(*g, p, main_dir, dir, pdir, light as int, i as int)),
            ),
            *sighting == or_keep(
                children_sighting(*g, players@, p, main_dir, dir, pdir, light as int, i as int),
                if holds_player(*g, players@, p) {
                    Some(p)
                } else {
                    *old(sighting)
                },
            ),
        decreases ds.len() - i,
    {
        let d = ds[i];
        proof {
            crate::hex::lemma_wrap_in_bounds(g, p);
        }
        let n = g.step(p, d);
        let next_main = match dir {
            Some(_) => d,
            None => main_dir,
        };
        let ghost v0 = *visible;
        let ghost k0 = *known;
        let ghost s0 = *sighting;
        do_los(visible, known, g, players, n, next_main, Some(d), dir, remaining, sighting);
        proof {
            lemma_knows_more_trans(*old(known), k0, *known);
            lemma_knows_more_trans(*old(visible), v0, *visible);
            crate::hex::lemma_idx_in_range(g, p);
            let before = set![p].union(lit_children(*g, p, main_dir, dir, pdir, light as int, i as int));
            let child = lit(*g, n, next_main, Some(d), dir, remaining as int);
            let after = set![p].union(lit_children(*g, p, main_dir, dir, pdir, light as int, i + 1));
            assert(after =~= before.union(child));
        }
        assert(sighting_ok(*old(sighting), *sighting, *visible, *g, players@)) by {
            if *sighting != s0 {
            } else if s0 != *old(sighting) {
                crate::hex::lemma_idx_in_range(g, s0.unwrap());
                crate::hex::lemma_idx_in_range(&v0, s0.unwrap());
            }
        }
        i = i + 1;
    }
}

/// Everything the simulation knows of one creature.
pub struct CreatureState {
    /// Cells lit by the last refresh of sight.
    pub visible: Grid<bool>,
    /// Cells ever perceived.
    pub known: Grid<bool>,
    pub is_player: bool,
    /// The action being carried out, if any.
    pub action_cur: Option<Action>,
    /// The last completed action.
    pub action_prev: Option<Action>,
    /// Whether the current action has not taken effect yet.
    pub action_pre: bool,
    /// Ticks left in the current phase.
    pub action_delay: u32,
    /// Terrain the current action leads onto.
    pub action_terrain: TileType,
    pub last_hit_ns: u64,
    pub last_attack_ns: u64,
    pub death_ns: u64,
    pub race: Race,
    pub health: i32,
    pub alive: bool,
    pub pos: Position,
    pub pos_prev: Position,
}

/// A bound below on health: blows land only on the living, whose health is
/// at least one, and take away at most three.
pub const MIN_HEALTH: i32 = -8;

impl CreatureState {
    /// The scheduler's invariant: an empty action slot has no countdown, and
    /// a queued action is legal.
    pub open spec fn sched_wf(&self) -> bool {
        &&& (self.action_cur.is_none() ==> self.action_delay == 0)
        &&& (self.action_cur.is_some() ==> self.action_cur.unwrap().is_legal())
    }

    pub open spec fn health_wf(&self) -> bool {
        &&& MIN_HEALTH <= self.health <= self.race.spec_max_health()
        &&& (self.alive ==> self.health > 0)
    }

    /// Well-formed against the world map `g`.
    pub open spec fn wf(&self, g: WorldMap) -> bool {
        &&& sight_wf(self.visible, self.known, g)
        &&& g.in_bounds(self.pos.p)
        &&& g.in_bounds(self.pos_prev.p)
        &&& self.sched_wf()
        &&& self.health_wf()
    }

    pub open spec fn spec_needs_action(&self) -> bool {
        self.action_delay == 0 && self.action_cur.is_none()
    }

    /// Counting down the delay before the queued action takes effect.
    pub open spec fn in_pre_phase(&self) -> bool {
        self.action_cur.is_some() && self.action_pre
    }

    pub open spec fn after_set(self, a: Action, terrain: TileType) -> CreatureState {
        CreatureState {
            action_cur: Some(a),
            action_pre: true,
            action_terrain: terrain,
            action_delay: spec_action_delay(a, true, self.race, terrain, self.action_prev) as u32,
            ..self
        }
    }

    /// State after one tick, and the action that takes effect in it.
    pub open spec fn after_tick(self) -> (CreatureState, Option<Action>) {
        if self.action_delay > 0 {
            if self.action_delay == 1 && !self.action_pre {
                (
                    CreatureState {
                        action_delay: 0,
                        action_prev: self.action_cur,
                        action_cur: None,
                        ..self
                    },
                    None,
                )
            } else {
                (CreatureState { action_delay: (self.action_delay - 1) as u32, ..self }, None)
            }
        } else {
            match self.action_cur {
                None => (self, None),
                Some(a) => if self.action_pre {
                    (CreatureState { action_pre: false, ..self }, Some(a))
                } else {
                    (CreatureState { action_prev: self.action_cur, action_cur: None, ..self }, None)
                },
            }
        }
    }

    /// State once the fired action has been applied: the recovery delay
    /// starts, or the slot clears when there is none.
    pub open spec fn after_done(self) -> CreatureState {
        let d = spec_action_delay(
            self.action_cur.unwrap(),
            false,
            self.race,
            self.action_terrain,
            self.action_prev,
        );
        if d > 0 {
            CreatureState { action_delay: d as u32, action_pre: false, ..self }
        } else {
            CreatureState {
                action_delay: 0,
                action_pre: false,
                action_prev: self.action_cur,
                action_cur: None,
                ..self
            }
        }
    }

    /// A fresh creature of `race` at `pos`: full health, alive, idle, and
    /// knowing nothing yet.
    pub open spec fn is_fresh(&self, pos: Position, is_player: bool, race: Race) -> bool {
        &&& self.pos == pos
        &&& self.pos_prev == pos
        &&& self.is_player == is_player
        &&& self.race == race
        &&& self.health == race.spec_max_health()
        &&& self.alive
        &&& self.action_cur.is_none()
        &&& self.action_prev.is_none()
        &&& self.action_delay == 0
        &&& self.last_hit_ns == 0
        &&& self.last_attack_ns == 0
        &&& self.death_ns == 0
        &&& forall|k: int| 0 <= k < self.known@.len() ==> !self.known@[k]
        &&& forall|k: int| 0 <= k < self.visible@.len() ==> !self.visible@[k]
    }

    pub fn new(map: &WorldMap, pos: Position, is_player: bool, race: Race) -> (r: CreatureState)
        requires
            map.wf(),
            map.in_bounds(pos.p),
        ensures
            r.wf(*map),
            r.is_fresh(pos, is_player, race),
    {
        CreatureState {
            visible: Grid::new(map.width(), map.height(), false),
            known: Grid::new(map.width(), map.height(), false),
            is_player,
            action_cur: None,
            action_prev: None,
            action_pre: true,
            action_delay: 0,
            action_terrain: TileType::Floor,
            last_hit_ns: 0,
            last_attack_ns: 0,
            death_ns: 0,
            race,
            health: race.max_health() as i32,
            alive: true,
            pos,
            pos_prev: pos,
        }
    }

    /// Queues `action`, whose effect leads onto `terrain`, and starts its
    /// pre-delay.
    pub fn action_set(&mut self, action: Action, terrain: TileType)
        requires
            action.is_legal(),
        ensures
            *final(self) == old(self).after_set(action, terrain),
    {
        self.action_delay = action_delay(action, true, self.race, terrain, self.action_prev);
        self.action_cur = Some(action);
        self.action_pre = true;
        self.action_terrain = terrain;
    }

    /// Advances the scheduler by one tick; returns the action that takes
    /// effect now, if any.
    pub fn tick(&mut self) -> (r: Option<Action>)
        ensures
            (*final(self), r) == old(self).after_tick(),
    {
        if self.action_delay > 0 {
            self.action_delay = self.action_delay - 1;
            if self.action_delay == 0 && !self.action_pre {
                self.action_prev = self.action_cur;
                self.action_cur = None;
            }
            return None;
        }
        match self.action_cur {
            None => None,
            Some(a) => {
                if self.action_pre {
                    self.action_pre = false;
                    Some(a)
                } else {
                    self.action_prev = self.action_cur;
                    self.action_cur = None;
                    None
                }
            },
        }
    }

    /// Starts the recovery delay of the action that has just taken effect.
    pub fn action_done(&mut self)
        requires
            old(self).action_cur.is_some(),
        ensures
            *final(self) == old(self).after_done(),
    {
        let a = match self.action_cur {
            Some(a) => a,
            None => Action::Wait,
        };
        self.action_delay = action_delay(a, false, self.race, self.action_terrain, self.action_prev);
        self.action_pre = false;
        if self.action_delay == 0 {
            self.action_prev = self.action_cur;
            self.action_cur = None;
        }
    }

    /// Clears the visible set; the known set stays.
    pub fn forget_visible(&mut self, g: &WorldMap)
        requires
            old(self).wf(*g),
            g.wf(),
        ensures
            final(self).wf(*g),
            *final(self) == (CreatureState { visible: final(self).visible, ..*old(self) }),
            forall|k: int| 0 <= k < final(self).visible@.len() ==> !final(self).visible@[k],
    {
        self.visible = Grid::new(g.width(), g.height(), false);
    }

    /// Refreshes sight: the visible set is recomputed by the light-budget
    /// flood from the creature's cell along its facing, the six neighbors
    /// become known, and everything lit becomes known. Returns the last lit
    /// cell, in flood order, that holds a creature marked in `players`.
    pub fn update_los(&mut self, g: &WorldMap, players: &Vec<bool>) -> (sighting: Option<Point>)
        requires
            old(self).wf(*g),
            g.wf(),
        ensures
            final(self).wf(*g),
            *final(self) == (CreatureState {
                visible: final(self).visible,
                known: final(self).known,
                ..*old(self)
            }),
            knows_more(old(self).known, final(self).known),
            final(self).visible@[g.idx(old(self).pos.p)],
            forall|i: int|
                0 <= i < 6 ==> final(self).known@[g.idx(
                    #[trigger] g.spec_step(old(self).pos.p, dir_of_index(i)),
                )],
            sighting_ok(None, sighting, final(self).visible, *g, players@),
            sighting == last_sighting(*g, players@, old(self).pos.p, old(self).pos.dir, None, None, SIGHT as int),
            forall|q: Point|
                g.in_bounds(q) ==> #[trigger] final(self).visible@[g.idx(q)] == sight_of(
                    *g,
                    old(self).pos,
                ).contains(q),
            lights_exactly(
                old(self).known,
                final(self).known,
                *g,
                neighbor_cells(*g, old(self).pos.p).union(sight_of(*g, old(self).pos)),
            ),
    {
        self.forget_visible(g);
        let nb = g.neighbors(self.pos.p);
        let ghost known0 = self.known;
        let ghost s0 = *self;
        proof {
            crate::hex::lemma_wrap_in_bounds(g, self.pos.p);
        }
        let mut i: usize = 0;
        while i < 6
            invariant
                g.wf(),
                0 <= i <= 6,
                nb@.len() == 6,
                g.spec_wrap(self.pos.p) == self.pos.p,
                *self == (CreatureState { known: self.known, ..s0 }),
                s0.wf(*g),
                known0 == s0.known,
                forall|j: int|
                    0 <= j < 6 ==> #[trigger] nb@[j] == g.spec_step(self.pos.p, dir_of_index(j)),
                forall|j: int| 0 <= j < 6 ==> g.in_bounds(#[trigger] nb@[j]),
                sight_wf(self.visible, self.known, *g),
                knows_more(known0, self.known),
                forall|j: int| 0 <= j < i ==> self.known@[g.idx(#[trigger] nb@[j])],
                forall|q: Point|
                    g.in_bounds(q) ==> #[trigger] self.known@[g.idx(q)] == (known0@[g.idx(q)]
                        || exists|j: int| 0 <= j < i && q == nb@[j]),
            decreases 6 - i,
        {
            proof {
                crate::hex::lemma_wrap_in_bounds(g, nb@[i as int]);
                crate::hex::lemma_idx_in_range(g, nb@[i as int]);
            }
            let ghost before = self.known;
            self.known.set(nb[i], true);
            proof {
                assert(self.known@ == before@.update(g.idx(nb@[i as int]), true));
                assert(before@.len() == g.w() * g.h());
                assert(known0@.len() == g.w() * g.h());
                assert forall|k: int| 0 <= k < known0@.len() && #[trigger] known0@[k] implies self.known@[k] by {
                    assert(before@[k]);
                }
                assert forall|q: Point| g.in_bounds(q) implies #[trigger] self.known@[g.idx(q)] == (
                known0@[g.idx(q)] || exists|j: int| 0 <= j < i + 1 && q == nb@[j]) by {
                    crate::hex::lemma_idx_in_range(g, q);
                    if g.idx(q) == g.idx(nb@[i as int]) {
                        crate::hex::lemma_idx_injective(g, q, nb@[i as int]);
                    } else {
                        if exists|j: int| 0 <= j < i + 1 && q == nb@[j] {
                            let j = choose|j: int| 0 <= j < i + 1 && q == nb@[j];
                            assert(j != i);
                        }
                    }
                    assert(before@[g.idx(q)] == (known0@[g.idx(q)] || exists|j: int|
                        0 <= j < i && q == nb@[j]));
                }
                assert forall|j: int| 0 <= j < i + 1 implies self.known@[g.idx(#[trigger] nb@[j])] by {
                    crate::hex::lemma_idx_in_range(g, nb@[j]);
                    if j < i {
                        assert(before@[g.idx(nb@[j])]);
                    }
                }
            }
            i = i + 1;
        }
        let mut sighting: Option<Point> = None;
        let ghost known1 = self.known;
        let ghost visible1 = self.visible;
        do_los(
            &mut self.visible,
            &mut self.known,
            g,
            players,
            self.pos.p,
            self.pos.dir,
            None,
            None,
            SIGHT,
            &mut sighting,
        );
        proof {
            lemma_knows_more_trans(old(self).known, known1, self.known);
            assert forall|j: int| 0 <= j < 6 implies self.known@[g.idx(
                #[trigger] g.spec_step(old(self).pos.p, dir_of_index(j)),
            )] by {
                assert(nb@[j] == g.spec_step(old(self).pos.p, dir_of_index(j)));
                crate::hex::lemma_idx_in_range(g, nb@[j]);
                assert(known1@[g.idx(nb@[j])]);
            }
            let s = sight_of(*g, old(self).pos);
            assert forall|q: Point| g.in_bounds(q) implies #[trigger] self.visible@[g.idx(q)]
                == s.contains(q) by {
                crate::hex::lemma_idx_in_range(g, q);
                assert(!visible1@[g.idx(q)]);
            }
            let ns = neighbor_cells(*g, old(self).pos.p);
            assert forall|q: Point| g.in_bounds(q) implies #[trigger] self.known@[g.idx(q)] == (old(
                self,
            ).known@[g.idx(q)] || ns.union(s).contains(q)) by {
                assert(known1@[g.idx(q)] == (known0@[g.idx(q)] || exists|j: int|
                    0 <= j < 6 && q == nb@[j]));
                if exists|j: int| 0 <= j < 6 && q == nb@[j] {
                    let j = choose|j: int| 0 <= j < 6 && q == nb@[j];
                    assert(ns.contains(q));
                }
                if ns.contains(q) {
                    let j = choose|j: int| 0 <= j < 6 && q == g.spec_step(old(self).pos.p, dir_of_index(j));
                    assert(q == nb@[j]);
                }
            }
        }
        sighting
    }

    /// Whether a new action should be chosen.
    pub fn needs_action(&self) -> (r: bool)
        ensures
            r == self.spec_needs_action(),
    {
        self.action_delay == 0 && self.action_cur.is_none()
    }
}

/// A creature asks for a new action exactly when no action is queued and it
/// is not counting down a pre-delay; queuing an action, ticking and
/// completing the fired action all keep the scheduler's invariant, so this
/// holds at every step of the pre-delay, firing, recovery and idle cycle.
pub proof fn lemma_needs_action_cycle(s: CreatureState, a: Action, t: TileType)
    requires
        s.sched_wf(),
        a.is_legal(),
    ensures
        s.spec_needs_action() == (s.action_cur.is_none() && !s.in_pre_phase()),
        s.after_set(a, t).sched_wf(),
        s.after_set(a, t).in_pre_phase(),
        !s.after_set(a, t).spec_needs_action(),
        s.after_tick().0.sched_wf(),
        s.in_pre_phase() && s.action_delay == 0 ==> s.after_tick().1 == s.action_cur
            && !s.after_tick().0.in_pre_phase(),
        s.action_cur.is_some() ==> s.after_done().sched_wf(),
        s.action_cur.is_some() ==> !s.after_done().in_pre_phase(),
{
}

/// The cell that `action` leads onto from `pos`: the neighbor it moves or
/// strikes toward, or the creature's own cell.
pub open spec fn spec_destination(g: WorldMap, pos: Position, action: Action) -> Point {
    match action {
        Action::Run(d) | Action::Move(d) | Action::Melee(d) => g.spec_step(pos.p, pos.dir.spec_turn(d)),
        _ => pos.p,
    }
}

pub fn destination(g: &WorldMap, pos: Position, action: Action) -> (r: Point)
    requires
        g.wf(),
        g.in_bounds(pos.p),
    ensures
        r == spec_destination(*g, pos, action),
        g.in_bounds(r),
{
    proof {
        crate::hex::lemma_wrap_in_bounds(g, pos.p);
    }
    match action {
        Action::Run(d) | Action::Move(d) | Action::Melee(d) => g.step(pos.p, pos.dir.turn(d)),
        _ => pos.p,
    }
}

/// `after` is `before` at position `pos` with its sight refreshed there:
/// it sees exactly `sight_of` that position, knows in addition the six
/// neighbors and what it sees, and its behavior remembers the last player
/// the flood lit, if any.
pub open spec fn sight_refreshed(
    g: WorldMap,
    players: Seq<bool>,
    before: Creature,
    after: Creature,
    pos: Position,
) -> bool {
    &&& after@ == (CreatureState { visible: after@.visible, known: after@.known, pos, ..before@ })
    &&& forall|q: Point|
        g.in_bounds(q) ==> #[trigger] after@.visible@[g.idx(q)] == sight_of(g, pos).contains(q)
    &&& lights_exactly(
        before@.known,
        after@.known,
        g,
        neighbor_cells(g, pos.p).union(sight_of(g, pos)),
    )
    &&& after.actor() == match last_sighting(g, players, pos.p, pos.dir, None, None, SIGHT as int) {
        Some(q) => AIActor { last_player: Some(q), ..before.actor() },
        None => before.actor(),
    }
}

/// A creature: its state and, for creatures no player drives, its behavior.
pub struct Creature {
    pub state: CreatureState,
    pub actor: AIActor,
}

impl Creature {
    pub open spec fn view(&self) -> CreatureState {
        self.state
    }

    pub open spec fn actor(&self) -> AIActor {
        self.actor
    }

    pub open spec fn wf(&self, g: WorldMap) -> bool {
        self@.wf(g) && self.actor().wf()
    }

    /// This creature with its previous position set to `p`.
    pub open spec fn with_pos_prev(self, p: Position) -> Creature {
        Creature { state: CreatureState { pos_prev: p, ..self.state }, ..self }
    }

    pub fn new(map: &WorldMap, pos: Position, player: bool, race: Race) -> (r: Creature)
        requires
            map.wf(),
            map.in_bounds(pos.p),
        ensures
            r.wf(*map),
            r@.is_fresh(pos, player, race),
            r@.spec_needs_action(),
            r.actor() == (AIActor { next_turn: Direction::Forward, next_turn_times: 0, last_player: None }),
    {
        Creature { state: CreatureState::new(map, pos, player, race), actor: AIActor::new() }
    }

    /// Everything the simulation knows of this creature.
    pub fn state(&self) -> (r: &CreatureState)
        ensures
            *r == self@,
    {
        &self.state
    }

    pub fn is_player(&self) -> (r: bool)
        ensures
            r == self@.is_player,
    {
        self.state.is_player
    }

    pub fn race(&self) -> (r: Race)
        ensures
            r == self@.race,
    {
        self.state.race
    }

    /// Health, shown as zero once below.
    pub fn health(&self) -> (r: u32)
        ensures
            r == if self@.health < 0 {
                0
            } else {
                self@.health as int
            },
    {
        if self.state.health < 0 {
            0
        } else {
            self.state.health as u32
        }
    }

    pub fn max_health(&self) -> (r: u32)
        ensures
            r == self@.race.spec_max_health(),
    {
        self.state.race.max_health()
    }

    pub fn p(&self) -> (r: Point)
        ensures
            r == self@.pos.p,
    {
        self.state.pos.p
    }

    pub fn pos(&self) -> (r: Position)
        ensures
            r == self@.pos,
    {
        self.state.pos
    }

    pub fn pos_prev(&self) -> (r: Position)
        ensures
            r == self@.pos_prev,
    {
        self.state.pos_prev
    }

    /// The direction of the turn under way, if any.
    pub fn is_turning_rel(&self) -> (r: Option<Direction>)
        ensures
            r == match self@.action_cur {
                Some(Action::Turn(d)) => Some(d),
                _ => None,
            },
    {
        match self.state.action_cur {
            Some(Action::Turn(d)) => Some(d),
            _ => None,
        }
    }

    /// The direction of the move, run or strike under way, if any.
    pub fn is_moving_rel(&self) -> (r: Option<Direction>)
        ensures
            r == match self@.action_cur {
                Some(Action::Run(d)) | Some(Action::Move(d)) | Some(Action::Melee(d)) => Some(d),
                _ => None,
            },
    {
        match self.state.action_cur {
            Some(Action::Run(d)) | Some(Action::Move(d)) | Some(Action::Melee(d)) => Some(d),
            _ => None,
        }
    }

    pub fn is_pre_action(&self) -> (r: bool)
        ensures
            r == self@.action_pre,
    {
        self.state.action_pre
    }

    /// Whether the creature has ever perceived the cell at `p`.
    pub fn knows(&self, p: Point) -> (r: bool)
        requires
            self@.known.wf(),
        ensures
            r == self@.known.cell(p),
    {
        *self.state.known.at(p)
    }

    /// Whether the cell at `p` was lit by the last refresh of sight.
    pub fn sees(&self, p: Point) -> (r: bool)
        requires
            self@.visible.wf(),
        ensures
            r == self@.visible.cell(p),
    {
        *self.state.visible.at(p)
    }

    pub fn was_attacked_ns(&self) -> (r: u64)
        ensures
            r == self@.last_hit_ns,
    {
        self.state.last_hit_ns
    }

    pub fn has_attacked_ns(&self) -> (r: u64)
        ensures
            r == self@.last_attack_ns,
    {
        self.state.last_attack_ns
    }

    pub fn death_ns(&self) -> (r: u64)
        ensures
            r == self@.death_ns,
    {
        self.state.death_ns
    }

    pub fn needs_action(&self) -> (r: bool)
        ensures
            r == self@.spec_needs_action(),
    {
        self.state.needs_action()
    }

    /// Queues `action`, whose effect leads onto `terrain`.
    pub fn action_set(&mut self, action: Action, terrain: TileType)
        requires
            action.is_legal(),
        ensures
            final(self)@ == old(self)@.after_set(action, terrain),
            final(self).actor() == old(self).actor(),
    {
        self.state.action_set(action, terrain);
    }

    pub fn tick(&mut self) -> (r: Option<Action>)
        ensures
            (final(self)@, r) == old(self)@.after_tick(),
            final(self).actor() == old(self).actor(),
            *final(self) == (Creature { state: old(self)@.after_tick().0, actor: old(self).actor }),
    {
        self.state.tick()
    }

    pub fn action_done(&mut self)
        requires
            old(self)@.action_cur.is_some(),
        ensures
            final(self)@ == old(self)@.after_done(),
            final(self).actor() == old(self).actor(),
            *final(self) == (Creature { state: old(self)@.after_done(), actor: old(self).actor }),
    {
        self.state.action_done()
    }

    pub fn forget_visible(&mut self, g: &WorldMap)
        requires
            old(self).wf(*g),
            g.wf(),
        ensures
            final(self).wf(*g),
            final(self)@ == (CreatureState { visible: final(self)@.visible, ..old(self)@ }),
            forall|k: int| 0 <= k < final(self)@.visible@.len() ==> !final(self)@.visible@[k],
            final(self).actor() == old(self).actor(),
    {
        self.state.forget_visible(g)
    }

    /// Refreshes sight (see `CreatureState::update_los`); a player lit by the
    /// flood becomes the behavior's remembered sighting.
    pub fn update_los(&mut self, g: &WorldMap, players: &Vec<bool>)
        requires
            old(self).wf(*g),
            g.wf(),
        ensures
            final(self).wf(*g),
            final(self)@ == (CreatureState {
                visible: final(self)@.visible,
                known: final(self)@.known,
                ..old(self)@
            }),
            knows_more(old(self)@.known, final(self)@.known),
            final(self)@.visible@[g.idx(old(self)@.pos.p)],
            forall|i: int|
                0 <= i < 6 ==> final(self)@.known@[g.idx(
                    #[trigger] g.spec_step(old(self)@.pos.p, dir_of_index(i)),
                )],
            forall|q: Point|
                g.in_bounds(q) ==> #[trigger] final(self)@.visible@[g.idx(q)] == sight_of(
                    *g,
                    old(self)@.pos,
                ).contains(q),
            lights_exactly(
                old(self)@.known,
                final(self)@.known,
                *g,
                neighbor_cells(*g, old(self)@.pos.p).union(sight_of(*g, old(self)@.pos)),
            ),
            sight_refreshed(*g, players@, *old(self), *final(self), old(self)@.pos),
    {
        let sighting = self.state.update_los(g, players);
        if let Some(q) = sighting {
            proof {
                crate::hex::lemma_wrap_in_bounds(g, q);
            }
            self.actor.proceed_visible(g, players, q);
        }
    }

    /// Moves the creature to `pos` and refreshes its sight there.
    pub fn pos_set(&mut self, g: &WorldMap, players: &Vec<bool>, pos: Position)
        requires
            old(self).wf(*g),
            g.wf(),
            g.in_bounds(pos.p),
        ensures
            final(self).wf(*g),
            final(self)@ == (CreatureState {
                visible: final(self)@.visible,
                known: final(self)@.known,
                pos,
                ..old(self)@
            }),
            knows_more(old(self)@.known, final(self)@.known),
            sight_refreshed(*g, players@, *old(self), *final(self), pos),
    {
        self.state.pos = pos;
        self.update_los(g, players);
    }

    pub fn pos_prev_set(&mut self, pos: Position)
        ensures
            final(self)@ == (CreatureState { pos_prev: pos, ..old(self)@ }),
            final(self).actor() == old(self).actor(),
            *final(self) == old(self).with_pos_prev(pos),
    {
        self.state.pos_prev = pos;
    }

    /// Takes a blow from a creature of race `attacker` at time `now_ns`;
    /// dies when health drops to zero or below.
    pub fn attacked_by(&mut self, attacker: Race, now_ns: u64)
        requires
            old(self)@.alive,
            old(self)@.health_wf(),
        ensures
            final(self)@ == (CreatureState {
                health: (old(self)@.health - attacker.spec_damage()) as i32,
                last_hit_ns: now_ns,
                alive: old(self)@.health - attacker.spec_damage() > 0,
                death_ns: if old(self)@.health - attacker.spec_damage() > 0 {
                    old(self)@.death_ns
                } else {
                    now_ns
                },
                ..old(self)@
            }),
            final(self)@.health_wf(),
            final(self).actor() == old(self).actor(),
    {
        self.state.last_hit_ns = now_ns;
        self.state.health = self.state.health - attacker.damage() as i32;
        if self.state.health <= 0 {
            self.die(now_ns);
        }
    }

    /// Records that this creature struck another at time `now_ns`.
    pub fn attacked(&mut self, now_ns: u64)
        ensures
            final(self)@ == (CreatureState { last_attack_ns: now_ns, ..old(self)@ }),
            final(self).actor() == old(self).actor(),
    {
        self.state.last_attack_ns = now_ns;
    }

    fn die(&mut self, now_ns: u64)
        ensures
            final(self)@ == (CreatureState { death_ns: now_ns, alive: false, ..old(self)@ }),
            final(self).actor() == old(self).actor(),
    {
        self.state.death_ns = now_ns;
        self.state.alive = false;
    }

    /// Lets the behavior choose the next action and queues it.
    pub fn update_action(&mut self, g: &WorldMap, players: &Vec<bool>, rng: &mut Rng)
        requires
            old(self).wf(*g),
            g.wf(),
        ensures
            final(self).wf(*g),
            ({
                let (ai, a, s) = old(self).actor().spec_decide(*g, players@, old(self)@, old(rng)@);
                &&& final(self).actor() == ai
                &&& final(rng)@ == s
                &&& final(self)@ == old(self)@.after_set(
                    a,
                    g.cell(spec_destination(*g, old(self)@.pos, a)).tiletype,
                )
            }),
    {
        let action = self.actor.get_action(g, players, &self.state, rng);
        proof {
            crate::ai::lemma_decide_legal(old(self).actor(), *g, players@, old(self)@, old(rng)@);
        }
        let dest = destination(g, self.state.pos, action);
        let terrain = g.at(dest).tiletype;
        self.state.action_set(action, terrain);
    }

    pub fn is_alive(&self) -> (r: bool)
        ensures
            r == self@.alive,
    {
        self.state.alive
    }
}

/// A creature on floor or sand facing a wall sees the wall cell, and the
/// branch of the flood that enters the wall lights nothing beyond it.
pub proof fn lemma_wall_ahead(g: WorldMap, pos: Position)
    requires
        g.wf(),
        g.in_bounds(pos.p),
        g.cell(pos.p).tiletype.spec_is_passable_type(),
        g.cell(g.spec_step(pos.p, pos.dir)).tiletype == TileType::Wall,
    ensures
        sight_of(g, pos).contains(g.spec_step(pos.p, pos.dir)),
        forall|light: int|
            0 <= light <= SIGHT ==> #[trigger] lit(
                g,
                g.spec_step(pos.p, pos.dir),
                pos.dir,
                Some(pos.dir),
                None,
                light,
            ) == set![g.spec_step(pos.p, pos.dir)],
{
    let w = g.spec_step(pos.p, pos.dir);
    let rem = SIGHT - g.cell(pos.p).spec_opaqueness();
    assert(spec_branches(pos.dir, None, None)[0] == pos.dir);
    reveal_with_fuel(lit_children, 4);
    assert(lit(g, w, pos.dir, Some(pos.dir), None, rem) == set![w]);
    assert(lit_children(g, pos.p, pos.dir, None, None, SIGHT as int, 1).contains(w));
    assert(lit_children(g, pos.p, pos.dir, None, None, SIGHT as int, 3).contains(w));
}

/// The scheduler after `k` ticks.
pub open spec fn ticked(s: CreatureState, k: nat) -> CreatureState
    decreases k,
{
    if k == 0 {
        s
    } else {
        ticked(s.after_tick().0, (k - 1) as nat)
    }
}

/// Counting down a pre-delay of `d`: for `k <= d` ticks nothing fires and
/// only the countdown moves, the creature does not ask for an action, and
/// the tick after the last one fires the queued action.
pub proof fn lemma_pre_countdown(s: CreatureState, k: nat)
    requires
        s.sched_wf(),
        s.in_pre_phase(),
        k <= s.action_delay,
    ensures
        ticked(s, k) == (CreatureState { action_delay: (s.action_delay - k) as u32, ..s }),
        !ticked(s, k).spec_needs_action(),
        k == s.action_delay ==> ticked(s, k).after_tick().1 == s.action_cur,
    decreases k,
{
    if k > 0 {
        let s1 = s.after_tick().0;
        lemma_pre_countdown(s1, (k - 1) as nat);
    }
}

/// Recovering for a post-delay of `d > 0`: for `k < d` ticks the creature
/// still does not ask for an action; after exactly `d` ticks the slot is
/// empty, the finished action is the previous one, and it asks again.
pub proof fn lemma_recovery(s: CreatureState, k: nat)
    requires
        s.sched_wf(),
        s.action_cur.is_some(),
        !s.action_pre,
        0 < k <= s.action_delay,
    ensures
        k < s.action_delay ==> ticked(s, k) == (CreatureState {
            action_delay: (s.action_delay - k) as u32,
            ..s
        }) && !ticked(s, k).spec_needs_action(),
        k == s.action_delay ==> ticked(s, k) == (CreatureState {
            action_delay: 0,
            action_prev: s.action_cur,
            action_cur: None,
            ..s
        }) && ticked(s, k).spec_needs_action(),
    decreases k,
{
    if k > 1 {
        let s1 = s.after_tick().0;
        lemma_recovery(s1, (k - 1) as nat);
    } else {
        assert(ticked(s.after_tick().0, 0) == s.after_tick().0);
    }
}

} // verus!
