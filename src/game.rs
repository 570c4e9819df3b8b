//! Actions and the simulation that drives every creature.
use crate::creature::{
    last_sighting, lights_exactly, neighbor_cells, sight_refreshed, SIGHT, destination, knows_more, sight_of, spec_destination, Creature, CreatureState, Race,
};
use crate::hex::{AbsoluteDirection, Direction, Grid, Point, Position};
use crate::ai::AIActor;
use crate::map::{Tile, TileType, WorldMap};
use crate::rng::Rng;
use vstd::prelude::*;

verus! {

/// What a creature does; the direction is relative to its facing.
#[derive(Clone, Copy, Debug, PartialEq, Eq, Structural)]
pub enum Action {
    Run(Direction),
    Move(Direction),
    Turn(Direction),
    Melee(Direction),
    Use,
    Wait,
}

impl Action {
    /// Turning can only go left or right.
    pub open spec fn is_legal(self) -> bool {
        match self {
            Action::Turn(d) => d == Direction::Left || d == Direction::Right,
            _ => true,
        }
    }

    pub fn legal(&self) -> (r: bool)
        ensures
            r == self.is_legal(),
    {
        match self {
            Action::Turn(Direction::Forward) | Action::Turn(Direction::Backward) => false,
            _ => true,
        }
    }
}

/// Side of the world that `new` makes.
pub const WORLD_SIZE: i32 = 100;

/// Every occupied tile names a living creature that stands on it.
pub open spec fn tiles_name_creatures(map: WorldMap, roster: Seq<Creature>) -> bool {
    &&& forall|k: int|
        0 <= k < map@.len() && (#[trigger] map@[k]).creature.is_some() ==> map@[k].creature.unwrap()
            < roster.len()
    &&& forall|k: int, i: int|
        0 <= k < map@.len() && 0 <= i < roster.len() && (#[trigger] map@[k]).creature == Some(
            i as usize,
        ) ==> (#[trigger] roster[i])@.alive && map.idx(roster[i]@.pos.p) == k
}

/// Every living creature is named by the tile it stands on.
pub open spec fn creatures_on_tiles(map: WorldMap, roster: Seq<Creature>) -> bool {
    forall|i: int|
        0 <= i < roster.len() && (#[trigger] roster[i])@.alive ==> map@[map.idx(
            roster[i]@.pos.p,
        )].creature == Some(i as usize)
}

/// Every creature is well-formed against the map.
pub open spec fn roster_wf(map: WorldMap, roster: Seq<Creature>) -> bool {
    forall|i: int| 0 <= i < roster.len() ==> (#[trigger] roster[i]).wf(map)
}

/// Who stands where, as far as the occupancy invariant is concerned.
pub open spec fn same_places(r1: Seq<Creature>, r2: Seq<Creature>) -> bool {
    &&& r1.len() == r2.len()
    &&& forall|i: int|
        0 <= i < r1.len() ==> (#[trigger] r2[i])@.alive == r1[i]@.alive && r2[i]@.pos.p
            == r1[i]@.pos.p
}

/// Tiles of two maps name the same creatures.
pub open spec fn same_occupants(m1: WorldMap, m2: WorldMap) -> bool {
    &&& m1.w() == m2.w()
    &&& m1.h() == m2.h()
    &&& m1@.len() == m2@.len()
    &&& forall|k: int| 0 <= k < m1@.len() ==> (#[trigger] m2@[k]).creature == m1@[k].creature
}

/// Occupancy is kept when neither who stands where nor the tiles' occupants
/// change.
proof fn lemma_occupancy_frame(m1: WorldMap, r1: Seq<Creature>, m2: WorldMap, r2: Seq<Creature>)
    requires
        m1.wf(),
        same_occupants(m1, m2),
        same_places(r1, r2),
        roster_wf(m1, r1),
        tiles_name_creatures(m1, r1),
        creatures_on_tiles(m1, r1),
    ensures
        tiles_name_creatures(m2, r2),
        creatures_on_tiles(m2, r2),
{
    assert forall|k: int, i: int|
        0 <= k < m2@.len() && 0 <= i < r2.len() && (#[trigger] m2@[k]).creature == Some(
            i as usize,
        ) implies (#[trigger] r2[i])@.alive && m2.idx(r2[i]@.pos.p) == k by {
        assert(m1@[k].creature == m2@[k].creature);
        assert(r1[i]@.alive);
    }
    assert forall|k: int|
        0 <= k < m2@.len() && (#[trigger] m2@[k]).creature.is_some() implies m2@[k].creature.unwrap()
        < r2.len() by {
        assert(m1@[k].creature == m2@[k].creature);
    }
    assert forall|i: int| 0 <= i < r2.len() && (#[trigger] r2[i])@.alive implies m2@[m2.idx(
        r2[i]@.pos.p,
    )].creature == Some(i as usize) by {
        assert(r1[i]@.alive);
        assert(r1[i].wf(m1));
        let k = m1.idx(r1[i]@.pos.p);
        crate::hex::lemma_idx_in_range(&m1, r1[i]@.pos.p);
        assert(m1@[k].creature == Some(i as usize));
        assert(r1[i]@.pos.p == r2[i]@.pos.p);
        assert(m2@[k].creature == m1@[k].creature);
    }
}

/// Placing a new living creature on an empty tile keeps occupancy.
proof fn lemma_place(m1: WorldMap, r1: Seq<Creature>, m2: WorldMap, r2: Seq<Creature>, at: Point)
    requires
        m1.wf(),
        m1.in_bounds(at),
        m1@[m1.idx(at)].creature.is_none(),
        m2.w() == m1.w(),
        m2.h() == m1.h(),
        m2@ == m1@.update(
            m1.idx(at),
            Tile { creature: Some(r1.len() as usize), ..m1@[m1.idx(at)] },
        ),
        r2.len() == r1.len() + 1,
        r2.len() <= usize::MAX,
        forall|i: int| 0 <= i < r1.len() ==> r2[i] == r1[i],
        r2[r1.len() as int]@.alive,
        r2[r1.len() as int]@.pos.p == at,
        roster_wf(m1, r1),
        tiles_name_creatures(m1, r1),
        creatures_on_tiles(m1, r1),
    ensures
        tiles_name_creatures(m2, r2),
        creatures_on_tiles(m2, r2),
{
    let a = m1.idx(at);
    let n = r1.len() as int;
    crate::hex::lemma_idx_in_range(&m1, at);
    assert forall|k: int, i: int|
        0 <= k < m2@.len() && 0 <= i < r2.len() && (#[trigger] m2@[k]).creature == Some(
            i as usize,
        ) implies (#[trigger] r2[i])@.alive && m2.idx(r2[i]@.pos.p) == k by {
        if k != a {
            assert(m1@[k] == m2@[k]);
            assert(m1@[k].creature.unwrap() < r1.len());
            assert(r2[i] == r1[i]);
            assert(r1[i]@.alive);
        }
    }
    assert forall|k: int|
        0 <= k < m2@.len() && (#[trigger] m2@[k]).creature.is_some() implies m2@[k].creature.unwrap()
        < r2.len() by {
        if k != a {
            assert(m1@[k] == m2@[k]);
        }
    }
    assert forall|i: int| 0 <= i < r2.len() && (#[trigger] r2[i])@.alive implies m2@[m2.idx(
        r2[i]@.pos.p,
    )].creature == Some(i as usize) by {
        if i < n {
            assert(r2[i] == r1[i]);
            assert(r1[i].wf(m1));
            let k = m1.idx(r1[i]@.pos.p);
            crate::hex::lemma_idx_in_range(&m1, r1[i]@.pos.p);
            assert(m1@[k].creature == Some(i as usize));
            assert(k != a);
        }
    }
}

/// Moving a living creature from its tile to an empty one keeps occupancy.
proof fn lemma_relocate(
    m1: WorldMap,
    r1: Seq<Creature>,
    m2: WorldMap,
    r2: Seq<Creature>,
    id: int,
    from: Point,
    to: Point,
)
    requires
        m1.wf(),
        m1.in_bounds(from),
        m1.in_bounds(to),
        from != to,
        0 <= id < r1.len(),
        r1[id]@.alive,
        r1[id]@.pos.p == from,
        m1@[m1.idx(to)].creature.is_none(),
        same_occupants(m1, m1) && m2.w() == m1.w() && m2.h() == m1.h(),
        m2@ == m1@.update(m1.idx(to), Tile { creature: Some(id as usize), ..m1@[m1.idx(to)] }).update(
            m1.idx(from),
            Tile { creature: None, ..m1@[m1.idx(from)] },
        ),
        r2.len() == r1.len(),
        r2.len() <= usize::MAX,
        forall|j: int| 0 <= j < r1.len() && j != id ==> r2[j] == r1[j],
        r2[id]@.alive,
        r2[id]@.pos.p == to,
        roster_wf(m1, r1),
        tiles_name_creatures(m1, r1),
        creatures_on_tiles(m1, r1),
    ensures
        tiles_name_creatures(m2, r2),
        creatures_on_tiles(m2, r2),
{
    let a = m1.idx(from);
    let b = m1.idx(to);
    crate::hex::lemma_idx_in_range(&m1, from);
    crate::hex::lemma_idx_in_range(&m1, to);
    if a == b {
        crate::hex::lemma_idx_injective(&m1, from, to);
    }
    assert(r1[id].wf(m1));
    assert(m1@[a].creature == Some(id as usize));
    assert forall|k: int, i: int|
        0 <= k < m2@.len() && 0 <= i < r2.len() && (#[trigger] m2@[k]).creature == Some(
            i as usize,
        ) implies (#[trigger] r2[i])@.alive && m2.idx(r2[i]@.pos.p) == k by {
        if k != a && k != b {
            assert(m1@[k] == m2@[k]);
            assert(r1[i]@.alive);
            if i == id {
                assert(m1.idx(r1[i]@.pos.p) == a);
            }
            assert(r2[i] == r1[i]);
        }
    }
    assert forall|k: int|
        0 <= k < m2@.len() && (#[trigger] m2@[k]).creature.is_some() implies m2@[k].creature.unwrap()
        < r2.len() by {
        if k != a && k != b {
            assert(m1@[k] == m2@[k]);
        }
    }
    assert forall|i: int| 0 <= i < r2.len() && (#[trigger] r2[i])@.alive implies m2@[m2.idx(
        r2[i]@.pos.p,
    )].creature == Some(i as usize) by {
        if i != id {
            assert(r2[i] == r1[i]);
            assert(r1[i].wf(m1));
            let k = m1.idx(r1[i]@.pos.p);
            crate::hex::lemma_idx_in_range(&m1, r1[i]@.pos.p);
            assert(m1@[k].creature == Some(i as usize));
            assert(k != a);
            assert(k != b);
        }
    }
}

/// Clearing the tile of a creature that has just died keeps occupancy.
proof fn lemma_vacate(
    m1: WorldMap,
    r1: Seq<Creature>,
    m2: WorldMap,
    r2: Seq<Creature>,
    t: int,
    at: Point,
)
    requires
        m1.wf(),
        m1.in_bounds(at),
        0 <= t < r1.len(),
        m1@[m1.idx(at)].creature == Some(t as usize),
        m2.w() == m1.w() && m2.h() == m1.h(),
        m2@ == m1@.update(m1.idx(at), Tile { creature: None, ..m1@[m1.idx(at)] }),
        r2.len() == r1.len(),
        r2.len() <= usize::MAX,
        forall|j: int|
            0 <= j < r1.len() && j != t ==> (#[trigger] r2[j])@.alive == r1[j]@.alive && r2[j]@.pos.p
                == r1[j]@.pos.p,
        !r2[t]@.alive,
        roster_wf(m1, r1),
        tiles_name_creatures(m1, r1),
        creatures_on_tiles(m1, r1),
    ensures
        tiles_name_creatures(m2, r2),
        creatures_on_tiles(m2, r2),
{
    let a = m1.idx(at);
    crate::hex::lemma_idx_in_range(&m1, at);
    assert forall|k: int, i: int|
        0 <= k < m2@.len() && 0 <= i < r2.len() && (#[trigger] m2@[k]).creature == Some(
            i as usize,
        ) implies (#[trigger] r2[i])@.alive && m2.idx(r2[i]@.pos.p) == k by {
        if k != a {
            assert(m1@[k] == m2@[k]);
            assert(r1[i]@.alive);
            if i == t {
                assert(m1.idx(r1[i]@.pos.p) == a);
            }
            assert(r2[i]@.alive == r1[i]@.alive);
        }
    }
    assert forall|k: int|
        0 <= k < m2@.len() && (#[trigger] m2@[k]).creature.is_some() implies m2@[k].creature.unwrap()
        < r2.len() by {
        if k != a {
            assert(m1@[k] == m2@[k]);
        }
    }
    assert forall|i: int| 0 <= i < r2.len() && (#[trigger] r2[i])@.alive implies m2@[m2.idx(
        r2[i]@.pos.p,
    )].creature == Some(i as usize) by {
        assert(r1[i]@.alive);
        assert(r1[i].wf(m1));
        let k = m1.idx(r1[i]@.pos.p);
        crate::hex::lemma_idx_in_range(&m1, r1[i]@.pos.p);
        assert(m1@[k].creature == Some(i as usize));
    }
}

/// Creatures dead in `r0` are the same in `r1`.
pub open spec fn keeps_dead(r0: Seq<Creature>, r1: Seq<Creature>) -> bool {
    forall|j: int| 0 <= j < r0.len() && !(#[trigger] r0[j])@.alive ==> r1[j] == r0[j]
}

/// No tile names a dead creature.
proof fn lemma_dead_untouched_all(r: Seq<Creature>, m: WorldMap)
    requires
        r.len() <= usize::MAX,
        tiles_name_creatures(m, r),
    ensures
        forall|k: int, j: int|
            0 <= k < m@.len() && 0 <= j < r.len() && !(#[trigger] r[j])@.alive ==> (
            #[trigger] m@[k]).creature != Some(j as usize),
{
}

/// Creatures stay well-formed on a map of the same shape.
proof fn lemma_roster_wf_frame(m1: WorldMap, m2: WorldMap, roster: Seq<Creature>)
    requires
        roster_wf(m1, roster),
        m1.w() == m2.w(),
        m1.h() == m2.h(),
    ensures
        roster_wf(m2, roster),
{
    assert forall|i: int| 0 <= i < roster.len() implies (#[trigger] roster[i]).wf(m2) by {
        assert(roster[i].wf(m1));
    }
}

/// What a strike by creature `id` on the cell `at` at time `now_ns` does
/// from map `w0` and creatures `r0` to `w1` and `r1`: the creature standing there
/// loses the attacker's race damage in health and dies, leaving its tile
/// empty, when that takes it to zero or below; both record the time.
pub open spec fn melee_effect(
    w0: WorldMap,
    r0: Seq<Creature>,
    w1: WorldMap,
    r1: Seq<Creature>,
    id: int,
    at: Point,
    now_ns: u64,
) -> bool {
    match w0.cell(at).creature {
        None => w1 == w0 && r1 == r0,
        Some(t) => {
            let t = t as int;
            let c = r0[t]@;
            let health = c.health - r0[id]@.race.spec_damage();
            &&& r1.len() == r0.len()
            &&& r1[t] == (Creature {
                state: CreatureState {
                    health: health as i32,
                    last_hit_ns: now_ns,
                    alive: health > 0,
                    death_ns: if health > 0 {
                        c.death_ns
                    } else {
                        now_ns
                    },
                    last_attack_ns: if t == id {
                        now_ns
                    } else {
                        c.last_attack_ns
                    },
                    ..c
                },
                actor: r0[t].actor,
            })
            &&& t != id ==> r1[id] == (Creature {
                state: CreatureState { last_attack_ns: now_ns, ..r0[id]@ },
                actor: r0[id].actor,
            })
            &&& forall|j: int| 0 <= j < r0.len() && j != t && j != id ==> r1[j] == r0[j]
            &&& w1.w() == w0.w()
            &&& w1.h() == w0.h()
            &&& w1@ == if health > 0 {
                w0@
            } else {
                w0@.update(w0.idx(at), Tile { creature: None, ..w0.cell(at) })
            }
        },
    }
}

/// A strike on an occupied cell lowers the target's health by the
/// attacker's race damage, which is at least one, so health strictly drops;
/// a target left at zero health or below is dead and its tile is empty.
pub proof fn lemma_melee_wounds(
    w0: WorldMap,
    r0: Seq<Creature>,
    w1: WorldMap,
    r1: Seq<Creature>,
    id: int,
    at: Point,
    now_ns: u64,
)
    requires
        w0.wf(),
        w0.in_bounds(at),
        w1.w() == w0.w(),
        w1.h() == w0.h(),
        0 <= id < r0.len(),
        w0.cell(at).creature.is_some(),
        w0.cell(at).creature.unwrap() < r0.len(),
        r0[w0.cell(at).creature.unwrap() as int]@.health_wf(),
        melee_effect(w0, r0, w1, r1, id, at, now_ns),
    ensures
        ({
            let t = w0.cell(at).creature.unwrap() as int;
            &&& r1[t]@.health == r0[t]@.health - r0[id]@.race.spec_damage()
            &&& r1[t]@.health < r0[t]@.health
            &&& r1[t]@.health <= 0 ==> !r1[t]@.alive && w1.cell(at).creature.is_none()
        }),
{
    crate::hex::lemma_wrap_in_bounds(&w0, at);
    crate::hex::lemma_idx_in_range(&w0, at);
}

/// Which creature identifiers are players.
pub open spec fn player_flags_of(roster: Seq<Creature>) -> Seq<bool> {
    Seq::new(roster.len(), |j: int| roster[j]@.is_player)
}

/// The map after creature `id` moves from `from` to the empty tile `to`.
pub open spec fn moved_map(w: WorldMap, id: usize, from: Point, to: Point) -> Seq<Tile> {
    w@.update(w.idx(to), Tile { creature: Some(id), ..w.cell(to) }).update(
        w.idx(from),
        Tile { creature: None, ..w.cell(from) },
    )
}

/// What `perform_action` does: from `b` to `a`, creature `id` carries out
/// `action` at time `now_ns`. A dead creature does nothing. Otherwise its
/// previous position becomes its current one; then a move or run takes it to
/// the cell it leads onto when that cell is passable (moving its occupancy on
/// the map and refreshing its sight there) and leaves everything else as it
/// was otherwise; a turn rotates its facing in place and refreshes its
/// sight; a melee has `melee_effect` on the cell it leads onto; use and wait
/// do nothing more.
pub open spec fn perform_ok(b: GameState, a: GameState, id: int, action: Action, now_ns: u64) -> bool {
    &&& a.player_id() == b.player_id()
    &&& a.rng_state() == b.rng_state()
    &&& a.ticks() == b.ticks()
    &&& a.world().w() == b.world().w()
    &&& a.world().h() == b.world().h()
    &&& a.roster().len() == b.roster().len()
    &&& if !b.roster()[id]@.alive {
        a == b
    } else {
        let c0 = b.roster()[id];
        let w = b.world();
        let from = c0@.pos.p;
        let to = spec_destination(w, c0@.pos, action);
        let cp = c0.with_pos_prev(c0@.pos);
        let players = player_flags_of(b.roster());
        let others_kept = forall|j: int|
            0 <= j < b.roster().len() && j != id ==> a.roster()[j] == b.roster()[j];
        match action {
            Action::Move(_) | Action::Run(_) => {
                let npos = Position { p: to, dir: c0@.pos.dir };
                &&& others_kept
                &&& if to == from || w.cell(to).spec_is_passable() {
                    sight_refreshed(a.world(), players, cp, a.roster()[id], npos)
                } else {
                    a.roster()[id] == cp
                }
                &&& if to != from && w.cell(to).spec_is_passable() {
                    a.world()@ == moved_map(w, id as usize, from, to)
                } else {
                    a.world() == w
                }
            },
            Action::Turn(d) => {
                &&& others_kept
                &&& sight_refreshed(
                    a.world(),
                    players,
                    cp,
                    a.roster()[id],
                    Position { p: from, dir: c0@.pos.dir.spec_turn(d) },
                )
                &&& a.world() == w
            },
            Action::Melee(_) => melee_effect(
                w,
                b.roster().update(id, cp),
                a.world(),
                a.roster(),
                id,
                to,
                now_ns,
            ),
            _ => a.roster() == b.roster().update(id, cp) && a.world() == w,
        }
    }
}

/// The decision phase of a pass for creature `id`, from `b` to `m`: when
/// `decides` says so, the creature refreshes its sight where it stands
/// (`sight_refreshed`), its behavior decides from what it then knows with
/// the generator's state, and the decision is queued with the delay of the
/// terrain it leads onto; otherwise nothing happens.
pub open spec fn decide_ok(b: GameState, m: GameState, id: int) -> bool {
    if !b.decides(id) {
        m == b
    } else {
        let c0 = b.roster()[id];
        let c1 = m.roster()[id];
        let w = b.world();
        let players = player_flags_of(b.roster());
        let seen_actor = match last_sighting(
            w,
            players,
            c0@.pos.p,
            c0@.pos.dir,
            None,
            None,
            SIGHT as int,
        ) {
            Some(q) => AIActor { last_player: Some(q), ..c0.actor() },
            None => c0.actor(),
        };
        let seen = CreatureState { visible: c1@.visible, known: c1@.known, ..c0@ };
        let (ai, act, s) = seen_actor.spec_decide(w, players, seen, b.rng_state());
        &&& m.world() == w
        &&& m.player_id() == b.player_id()
        &&& m.ticks() == b.ticks()
        &&& m.rng_state() == s
        &&& m.roster().len() == b.roster().len()
        &&& forall|j: int| 0 <= j < b.roster().len() && j != id ==> m.roster()[j] == b.roster()[j]
        &&& c1.actor() == ai
        &&& c1@ == seen.after_set(act, w.cell(spec_destination(w, c0@.pos, act)).tiletype)
        &&& forall|q: Point|
            w.in_bounds(q) ==> #[trigger] c1@.visible@[w.idx(q)] == sight_of(w, c0@.pos).contains(q)
        &&& lights_exactly(
            c0@.known,
            c1@.known,
            w,
            neighbor_cells(w, c0@.pos.p).union(sight_of(w, c0@.pos)),
        )
    }
}

/// `a` is `b` with creature `id`'s state replaced by `st`.
pub open spec fn with_state(b: GameState, a: GameState, id: int, st: CreatureState) -> bool {
    &&& a.world() == b.world()
    &&& a.player_id() == b.player_id()
    &&& a.rng_state() == b.rng_state()
    &&& a.ticks() == b.ticks()
    &&& a.roster() == b.roster().update(id, Creature { state: st, actor: b.roster()[id].actor })
}

/// The phases of creature `id`'s part of a pass through the states `m1`
/// (after deciding), `m2` (after its scheduler ticks) and `m3` (after a
/// fired action is applied), ending in `a`: a fired action is applied with
/// `perform_ok` and then its recovery starts; when nothing fires, `a` is
/// `m2`.
pub open spec fn step_phases(
    b: GameState,
    m1: GameState,
    m2: GameState,
    m3: GameState,
    a: GameState,
    id: int,
    now_ns: u64,
) -> bool {
    let (st, fired) = m1.roster()[id]@.after_tick();
    &&& decide_ok(b, m1, id)
    &&& with_state(m1, m2, id, st)
    &&& match fired {
        None => a == m2,
        Some(act) => perform_ok(m2, m3, id, act, now_ns) && with_state(
            m3,
            a,
            id,
            m3.roster()[id]@.after_done(),
        ),
    }
}

/// Creature `id`'s part of a pass at time `now_ns`, from `b` to `a`: a dead
/// creature is left as it is; a living one goes through `step_phases`.
pub open spec fn step_ok(b: GameState, a: GameState, id: int, now_ns: u64) -> bool {
    if !b.roster()[id]@.alive {
        a == b
    } else {
        exists|m1: GameState, m2: GameState, m3: GameState|
            #[trigger] step_phases(b, m1, m2, m3, a, id, now_ns)
    }
}

/// The states that a pass goes through: `states[i]` is the state before
/// creature `i`'s part, each part is `step_ok`, and `a` is the last state
/// with the tick counter advanced.
pub open spec fn pass_trace(b: GameState, a: GameState, now_ns: u64, states: Seq<GameState>) -> bool {
    let n = b.roster().len() as int;
    &&& states.len() == n + 1
    &&& states[0] == b
    &&& forall|i: int| 0 <= i < n ==> #[trigger] step_ok(states[i], states[i + 1], i, now_ns)
    &&& a.world() == states[n].world()
    &&& a.roster() == states[n].roster()
    &&& a.player_id() == states[n].player_id()
    &&& a.rng_state() == states[n].rng_state()
    &&& a.ticks() == b.ticks().wrapping_add(1)
}

/// One pass of the simulation: each creature in order of identifier takes
/// its part (`step_ok`), then the tick counter advances.
pub open spec fn pass_ok(b: GameState, a: GameState, now_ns: u64) -> bool {
    exists|states: Seq<GameState>| #[trigger] pass_trace(b, a, now_ns, states)
}

/// `w2` has the shape and the terrain of `w1`.
pub open spec fn same_terrain(w1: WorldMap, w2: WorldMap) -> bool {
    &&& w2.w() == w1.w()
    &&& w2.h() == w1.h()
    &&& w2@.len() == w1@.len()
    &&& forall|k: int| 0 <= k < w1@.len() ==> (#[trigger] w2@[k]).tiletype == w1@[k].tiletype
}

/// Every tile passable in `w2` was passable in `w1`.
pub open spec fn fewer_passable(w1: WorldMap, w2: WorldMap) -> bool {
    forall|k: int| 0 <= k < w1@.len() && (#[trigger] w2@[k]).spec_is_passable() ==> w1@[k].spec_is_passable()
}

/// No tile of `w` is passable.
pub open spec fn full(w: WorldMap) -> bool {
    forall|k: int| 0 <= k < w@.len() ==> !(#[trigger] w@[k]).spec_is_passable()
}

/// Creatures `from` to `to` of `r` are fresh, living creatures of `race`
/// (players or not, as `player` says) standing on floor or sand of `w`.
pub open spec fn placed(w: WorldMap, r: Seq<Creature>, from: int, to: int, race: Race, player: bool) -> bool {
    forall|j: int|
        from <= j < to ==> {
            let c = (#[trigger] r[j])@;
            &&& c.is_fresh(c.pos, player, race)
            &&& w.cell(c.pos.p).tiletype.spec_is_passable_type()
        }
}

/// Placement facts survive spawning more creatures on the same terrain.
proof fn lemma_placed_kept(
    w1: WorldMap,
    r1: Seq<Creature>,
    w2: WorldMap,
    r2: Seq<Creature>,
    from: int,
    to: int,
    race: Race,
    player: bool,
)
    requires
        w1.wf(),
        same_terrain(w1, w2),
        0 <= from,
        to <= r1.len() <= r2.len(),
        forall|j: int| 0 <= j < r1.len() ==> r2[j] == r1[j],
        placed(w1, r1, from, to, race, player),
    ensures
        placed(w2, r2, from, to, race, player),
{
    assert forall|j: int| from <= j < to implies {
        let c = (#[trigger] r2[j])@;
        &&& c.is_fresh(c.pos, player, race)
        &&& w2.cell(c.pos.p).tiletype.spec_is_passable_type()
    } by {
        assert(r2[j] == r1[j]);
        let p = r1[j]@.pos.p;
        crate::hex::lemma_wrap_idempotent(&w1, p);
        crate::hex::lemma_idx_in_range(&w1, w1.spec_wrap(p));
    }
}

/// The cells along the four edges of `w` are walls.
pub open spec fn edges_walled(w: WorldMap) -> bool {
    &&& forall|x: i32|
        0 <= x < w.w() ==> (#[trigger] w.cell(Point { x, y: 0 })).tiletype == TileType::Wall
            && w.cell(Point { x, y: (w.h() - 1) as i32 }).tiletype == TileType::Wall
    &&& forall|y: i32|
        0 <= y < w.h() ==> (#[trigger] w.cell(Point { x: 0, y })).tiletype == TileType::Wall
            && w.cell(Point { x: (w.w() - 1) as i32, y }).tiletype == TileType::Wall
}

/// On the same terrain every cell has the same terrain.
proof fn lemma_terrain_cells(w1: WorldMap, w2: WorldMap)
    requires
        w1.wf(),
        same_terrain(w1, w2),
    ensures
        forall|q: Point| (#[trigger] w2.cell(q)).tiletype == w1.cell(q).tiletype,
{
    assert forall|q: Point| (#[trigger] w2.cell(q)).tiletype == w1.cell(q).tiletype by {
        crate::hex::lemma_wrap_idempotent(&w1, q);
        crate::hex::lemma_idx_in_range(&w1, w1.spec_wrap(q));
    }
}

/// Making the cell at `p` a wall keeps every wall and adds that one.
proof fn lemma_wall_kept(w1: WorldMap, w2: WorldMap, p: Point)
    requires
        w1.wf(),
        w2.w() == w1.w(),
        w2.h() == w1.h(),
        w2@ == w1@.update(
            w1.idx(w1.spec_wrap(p)),
            Tile { tiletype: TileType::Wall, ..w1.cell(p) },
        ),
    ensures
        w2.cell(p).tiletype == TileType::Wall,
        forall|q: Point|
            (#[trigger] w1.cell(q)).tiletype == TileType::Wall ==> w2.cell(q).tiletype
                == TileType::Wall,
{
    crate::hex::lemma_wrap_idempotent(&w1, p);
    crate::hex::lemma_idx_in_range(&w1, w1.spec_wrap(p));
    assert forall|q: Point|
        (#[trigger] w1.cell(q)).tiletype == TileType::Wall implies w2.cell(q).tiletype
        == TileType::Wall by {
        crate::hex::lemma_wrap_idempotent(&w1, q);
        crate::hex::lemma_idx_in_range(&w1, w1.spec_wrap(q));
    }
}

proof fn lemma_terrain_trans(a: WorldMap, b: WorldMap, c: WorldMap)
    requires
        same_terrain(a, b),
        same_terrain(b, c),
    ensures
        same_terrain(a, c),
{
    assert forall|k: int| 0 <= k < a@.len() implies (#[trigger] c@[k]).tiletype == a@[k].tiletype by {
        assert(b@[k].tiletype == a@[k].tiletype);
    }
}

/// A full map stays full when no tile becomes passable.
proof fn lemma_full_kept(a: WorldMap, b: WorldMap)
    requires
        full(a),
        same_terrain(a, b),
        fewer_passable(a, b),
    ensures
        full(b),
{
    assert forall|k: int| 0 <= k < b@.len() implies !(#[trigger] b@[k]).spec_is_passable() by {
        assert(!a@[k].spec_is_passable());
    }
}

proof fn lemma_fewer_trans(a: WorldMap, b: WorldMap, c: WorldMap)
    requires
        same_terrain(a, b),
        fewer_passable(a, b),
        fewer_passable(b, c),
    ensures
        fewer_passable(a, c),
{
    assert forall|k: int| 0 <= k < a@.len() && (#[trigger] c@[k]).spec_is_passable() implies a@[k].spec_is_passable() by {
        assert(b@[k].spec_is_passable());
    }
}

/// The world: the map, the creatures by identifier (their index), the
/// player, the generator and the tick counter.
pub struct GameState {
    map: WorldMap,
    player: Option<usize>,
    rng: Rng,
    creatures: Vec<Creature>,
    tick: u64,
}

impl GameState {
    pub closed spec fn world(&self) -> WorldMap {
        self.map
    }

    pub closed spec fn roster(&self) -> Seq<Creature> {
        self.creatures@
    }

    pub closed spec fn player_id(&self) -> Option<usize> {
        self.player
    }

    pub closed spec fn rng_state(&self) -> u64 {
        self.rng@
    }

    pub closed spec fn ticks(&self) -> u64 {
        self.tick
    }

    /// The map and the creatures agree on who stands where.
    pub open spec fn wf(&self) -> bool {
        &&& self.world().wf()
        &&& self.roster().len() <= usize::MAX
        &&& roster_wf(self.world(), self.roster())
        &&& tiles_name_creatures(self.world(), self.roster())
        &&& creatures_on_tiles(self.world(), self.roster())
        &&& (self.player_id().is_some() ==> self.player_id().unwrap() < self.roster().len())
    }

    /// An all-floor `width` x `height` world without creatures.
    pub fn with_size(width: i32, height: i32, seed: u64) -> (r: GameState)
        requires
            0 < width,
            0 < height,
            width * height <= crate::hex::MAX_CELLS,
        ensures
            r.wf(),
            r.world().w() == width,
            r.world().h() == height,
            forall|k: int|
                0 <= k < r.world()@.len() ==> r.world()@[k] == (Tile {
                    tiletype: TileType::Floor,
                    creature: None,
                }),
            r.roster().len() == 0,
            r.player_id().is_none(),
            r.rng_state() == seed,
            r.ticks() == 0,
    {
        let map = Grid::new(width, height, Tile { tiletype: TileType::Floor, creature: None });
        GameState { map, player: None, rng: Rng::new(seed), creatures: Vec::new(), tick: 0 }
    }

    /// An all-floor world of the standard size without creatures.
    pub fn new(seed: u64) -> (r: GameState)
        ensures
            r.wf(),
            r.world().w() == WORLD_SIZE,
            r.world().h() == WORLD_SIZE,
            forall|k: int|
                0 <= k < r.world()@.len() ==> r.world()@[k] == (Tile {
                    tiletype: TileType::Floor,
                    creature: None,
                }),
            r.roster().len() == 0,
            r.player_id().is_none(),
            r.ticks() == 0,
    {
        GameState::with_size(WORLD_SIZE, WORLD_SIZE, seed)
    }

    pub fn map(&self) -> (r: &WorldMap)
        ensures
            *r == self.world(),
    {
        &self.map
    }

    pub fn player(&self) -> (r: Option<usize>)
        ensures
            r == self.player_id(),
    {
        self.player
    }

    /// The creatures, indexed by identifier.
    pub fn creatures_iter(&self) -> (r: &Vec<Creature>)
        ensures
            r@ == self.roster(),
    {
        &self.creatures
    }

    pub fn creature(&self, id: usize) -> (r: &Creature)
        requires
            id < self.roster().len(),
        ensures
            *r == self.roster()[id as int],
    {
        &self.creatures[id]
    }

    /// Number of completed ticks.
    pub fn tick_count(&self) -> (r: u64)
        ensures
            r == self.ticks(),
    {
        self.tick
    }

    /// Which creature identifiers are players.
    fn player_flags(&self) -> (r: Vec<bool>)
        ensures
            r@.len() == self.roster().len(),
            forall|i: int| 0 <= i < r@.len() ==> r@[i] == (#[trigger] self.roster()[i])@.is_player,
            r@ == player_flags_of(self.roster()),
    {
        let mut r: Vec<bool> = Vec::new();
        let mut i: usize = 0;
        while i < self.creatures.len()
            invariant
                i <= self.creatures@.len(),
                r@.len() == i,
                forall|j: int| 0 <= j < i ==> r@[j] == (#[trigger] self.creatures@[j])@.is_player,
            decreases self.creatures@.len() - i,
        {
            r.push(self.creatures[i].is_player());
            i = i + 1;
        }
        assert(r@ =~= player_flags_of(self.roster()));
        r
    }

    /// Changes the terrain at `p`; whoever stands there stays.
    pub fn set_tiletype(&mut self, p: Point, t: TileType)
        requires
            old(self).wf(),
        ensures
            final(self).wf(),
            final(self).roster() == old(self).roster(),
            final(self).player_id() == old(self).player_id(),
            final(self).rng_state() == old(self).rng_state(),
            final(self).ticks() == old(self).ticks(),
            final(self).world().w() == old(self).world().w(),
            final(self).world().h() == old(self).world().h(),
            final(self).world()@ == old(self).world()@.update(
                old(self).world().idx(old(self).world().spec_wrap(p)),
                Tile { tiletype: t, ..old(self).world().cell(p) },
            ),
    {
        let tile = Tile { tiletype: t, ..*self.map.at(p) };
        proof {
            crate::hex::lemma_wrap_idempotent(&self.map, p);
            crate::hex::lemma_idx_in_range(&self.map, self.map.spec_wrap(p));
        }
        let ghost m1 = self.map;
        self.map.set(p, tile);
        proof {
            assert(same_occupants(m1, self.map));
            lemma_occupancy_frame(m1, self.creatures@, self.map, self.creatures@);
            lemma_roster_wf_frame(m1, self.map, self.creatures@);
        }
    }

    /// Places a new creature at `pos` when its tile is passable; returns its
    /// identifier. A player creature becomes the game's player.
    pub fn spawn(&mut self, pos: Position, is_player: bool, race: Race) -> (r: Option<usize>)
        requires
            old(self).wf(),
            old(self).roster().len() < usize::MAX,
        ensures
            final(self).wf(),
            final(self).rng_state() == old(self).rng_state(),
            final(self).ticks() == old(self).ticks(),
            final(self).world().w() == old(self).world().w(),
            final(self).world().h() == old(self).world().h(),
            r.is_some() == old(self).world().cell(pos.p).spec_is_passable(),
            r.is_none() ==> *final(self) == *old(self),
            r.is_some() ==> {
                let id = r.unwrap();
                let at = old(self).world().spec_wrap(pos.p);
                &&& id == old(self).roster().len()
                &&& final(self).roster().len() == id + 1
                &&& final(self).roster().subrange(0, id as int) == old(self).roster()
                &&& final(self).roster()[id as int]@.is_fresh(
                    Position { p: at, dir: pos.dir },
                    is_player,
                    race,
                )
                &&& final(self).world().cell(at).creature == Some(id)
                &&& final(self).world()@ == old(self).world()@.update(
                    old(self).world().idx(at),
                    Tile { creature: Some(id), ..old(self).world().cell(at) },
                )
                &&& final(self).player_id() == if is_player {
                    Some(id)
                } else {
                    old(self).player_id()
                }
            },
    {
        if !self.map.at(pos.p).is_passable() {
            return None;
        }
        let at = self.map.wrap(pos.p);
        proof {
            crate::hex::lemma_wrap_idempotent(&self.map, pos.p);
            crate::hex::lemma_idx_in_range(&self.map, at);
        }
        let id = self.creatures.len();
        let cr = Creature::new(&self.map, Position { p: at, dir: pos.dir }, is_player, race);
        let tile = Tile { creature: Some(id), ..*self.map.at(at) };
        let ghost old_map = self.map;
        let ghost old_roster = self.creatures@;
        self.map.set(at, tile);
        self.creatures.push(cr);
        if is_player {
            self.player = Some(id);
        }
        proof {
            lemma_place(old_map, old_roster, self.map, self.creatures@, at);
            lemma_roster_wf_frame(old_map, self.map, old_roster);
            assert(roster_wf(self.map, self.creatures@)) by {
                assert forall|i: int| 0 <= i < self.creatures@.len() implies (
                #[trigger] self.creatures@[i]).wf(self.map) by {
                    if i < id {
                        assert(self.creatures@[i] == old_roster[i]);
                    }
                }
            }
            assert(self.creatures@.subrange(0, id as int) =~= old_roster);
        }
        Some(id)
    }

    /// Whether `pos` differs from where creature `id` stands only in facing,
    /// or leads onto a passable tile: then the creature takes it.
    pub open spec fn can_take(&self, id: int, pos: Position) -> bool {
        pos.p == self.roster()[id]@.pos.p || self.world().cell(pos.p).spec_is_passable()
    }

    /// Puts living creature `id` at `pos` when `can_take` allows it, moving
    /// its occupancy on the map along, and refreshes its sight; otherwise
    /// nothing changes.
    fn move_creature_if_possible(&mut self, id: usize, pos: Position, players: &Vec<bool>)
        requires
            old(self).wf(),
            id < old(self).roster().len(),
            old(self).roster()[id as int]@.alive,
            old(self).world().in_bounds(pos.p),
        ensures
            final(self).wf(),
            final(self).player_id() == old(self).player_id(),
            final(self).rng_state() == old(self).rng_state(),
            final(self).ticks() == old(self).ticks(),
            final(self).world().w() == old(self).world().w(),
            final(self).world().h() == old(self).world().h(),
            final(self).roster().len() == old(self).roster().len(),
            forall|j: int|
                0 <= j < old(self).roster().len() && j != id ==> final(self).roster()[j]
                    == old(self).roster()[j],
            ({
                let c0 = old(self).roster()[id as int];
                let c1 = final(self).roster()[id as int];
                if old(self).can_take(id as int, pos) {
                    sight_refreshed(final(self).world(), players@, c0, c1, pos)
                } else {
                    c1 == c0
                }
            }),
            ({
                let w = old(self).world();
                let from = old(self).roster()[id as int]@.pos.p;
                if pos.p != from && w.cell(pos.p).spec_is_passable() {
                    final(self).world()@ == moved_map(w, id, from, pos.p)
                } else {
                    final(self).world() == w
                }
            }),
    {
        let cr_p = self.creatures[id].p();
        proof {
            assert(self.creatures@[id as int].wf(self.map));
            crate::hex::lemma_wrap_in_bounds(&self.map, pos.p);
            crate::hex::lemma_wrap_in_bounds(&self.map, cr_p);
        }
        let ghost m1 = self.map;
        let ghost r1 = self.creatures@;
        if pos.p == cr_p {
            self.creatures[id].pos_set(&self.map, players, pos);
            proof {
                assert(same_places(r1, self.creatures@));
                lemma_occupancy_frame(m1, r1, self.map, self.creatures@);
                assert(roster_wf(self.map, self.creatures@)) by {
                    assert forall|j: int| 0 <= j < self.creatures@.len() implies (
                    #[trigger] self.creatures@[j]).wf(self.map) by {
                        if j != id {
                            assert(self.creatures@[j] == r1[j]);
                        }
                    }
                }
            }
            return;
        }
        if !self.map.at(pos.p).is_passable() {
            return;
        }
        proof {
            crate::hex::lemma_idx_in_range(&self.map, cr_p);
            crate::hex::lemma_idx_in_range(&self.map, pos.p);
            if self.map.idx(cr_p) == self.map.idx(pos.p) {
                crate::hex::lemma_idx_injective(&self.map, cr_p, pos.p);
            }
        }
        let to_tile = Tile { creature: Some(id), ..*self.map.at(pos.p) };
        self.map.set(pos.p, to_tile);
        let from_tile = Tile { creature: None, ..*self.map.at(cr_p) };
        self.map.set(cr_p, from_tile);
        proof {
            lemma_roster_wf_frame(m1, self.map, r1);
            assert(self.creatures@[id as int].wf(self.map));
        }
        self.creatures[id].pos_set(&self.map, players, pos);
        proof {
            lemma_relocate(m1, r1, self.map, self.creatures@, id as int, cr_p, pos.p);
            assert(roster_wf(self.map, self.creatures@)) by {
                assert forall|j: int| 0 <= j < self.creatures@.len() implies (
                #[trigger] self.creatures@[j]).wf(self.map) by {
                    if j != id {
                        assert(self.creatures@[j] == r1[j]);
                        assert(r1[j].wf(m1));
                    }
                }
            }
        }
    }

    fn melee(&mut self, id: usize, at: Point, now_ns: u64)
        requires
            old(self).wf(),
            id < old(self).roster().len(),
            old(self).roster()[id as int]@.alive,
            old(self).world().in_bounds(at),
        ensures
            final(self).wf(),
            final(self).player_id() == old(self).player_id(),
            final(self).rng_state() == old(self).rng_state(),
            final(self).ticks() == old(self).ticks(),
            final(self).world().w() == old(self).world().w(),
            final(self).world().h() == old(self).world().h(),
            final(self).roster().len() == old(self).roster().len(),
            final(self).roster()[id as int]@.pos == old(self).roster()[id as int]@.pos,
            melee_effect(
                old(self).world(),
                old(self).roster(),
                final(self).world(),
                final(self).roster(),
                id as int,
                at,
                now_ns,
            ),
    {
        proof {
            crate::hex::lemma_wrap_in_bounds(&self.map, at);
            crate::hex::lemma_idx_in_range(&self.map, at);
        }
        let ghost m1 = self.map;
        let ghost r1 = self.creatures@;
        match self.map.at(at).creature {
            None => {},
            Some(t) => {
                proof {
                    assert(m1@[m1.idx(at)].creature.unwrap() < r1.len());
                    assert(r1[t as int]@.alive);
                    assert(r1[t as int].wf(m1));
                }
                let race = self.creatures[id].race();
                self.creatures[t].attacked_by(race, now_ns);
                self.creatures[id].attacked(now_ns);
                let ghost r2 = self.creatures@;
                proof {
                    assert(roster_wf(m1, r2)) by {
                        assert forall|j: int| 0 <= j < r2.len() implies (#[trigger] r2[j]).wf(m1) by {
                            assert(r1[j].wf(m1));
                        }
                    }
                }
                if !self.creatures[t].is_alive() {
                    let tile = Tile { creature: None, ..*self.map.at(at) };
                    self.map.set(at, tile);
                    proof {
                        lemma_vacate(m1, r1, self.map, r2, t as int, at);
                        lemma_roster_wf_frame(m1, self.map, r2);
                    }
                } else {
                    proof {
                        assert(same_places(r1, r2));
                        lemma_occupancy_frame(m1, r1, m1, r2);
                    }
                }
            },
        }
    }

    /// Applies the fired `action` of creature `id` to the world at time
    /// `now_ns`. A dead creature does nothing. Otherwise its previous
    /// position becomes the one it had; a move or run takes it one cell
    /// along its facing turned by the direction when that cell is passable
    /// and leaves it in place otherwise; a turn rotates its facing; a melee
    /// strikes the creature in that cell, if any (`melee_effect`); use and
    /// wait change nothing more. `perform_ok` states all of it.
    pub fn perform_action(&mut self, id: usize, action: Action, now_ns: u64)
        requires
            old(self).wf(),
            id < old(self).roster().len(),
            action.is_legal(),
        ensures
            final(self).wf(),
            perform_ok(*old(self), *final(self), id as int, action, now_ns),
    {
        if !self.creatures[id].is_alive() {
            return;
        }
        let old_pos = self.creatures[id].pos();
        let ghost r0 = self.creatures@;
        self.creatures[id].pos_prev_set(old_pos);
        proof {
            assert(r0[id as int].wf(self.map));
            assert(same_places(r0, self.creatures@));
            lemma_occupancy_frame(self.map, r0, self.map, self.creatures@);
            assert(roster_wf(self.map, self.creatures@)) by {
                assert forall|j: int| 0 <= j < self.creatures@.len() implies (
                #[trigger] self.creatures@[j]).wf(self.map) by {
                    assert(r0[j].wf(self.map));
                }
            }
            assert(self.creatures@ == r0.update(id as int, r0[id as int].with_pos_prev(old_pos)));
        }
        let to = destination(&self.map, old_pos, action);
        proof {
            assert(player_flags_of(self.creatures@) =~= player_flags_of(old(self).roster()));
        }
        match action {
            Action::Move(_) | Action::Run(_) => {
                let players = self.player_flags();
                self.move_creature_if_possible(id, Position { p: to, dir: old_pos.dir }, &players);
            },
            Action::Turn(d) => {
                let players = self.player_flags();
                self.move_creature_if_possible(
                    id,
                    Position { p: old_pos.p, dir: old_pos.dir.turn(d) },
                    &players,
                );
            },
            Action::Melee(_) => {
                self.melee(id, to, now_ns);
            },
            _ => {},
        }
    }

    /// Queues `action` for creature `id` (how the player's choices come in);
    /// its delay counts the terrain of the cell it leads onto.
    pub fn set_action(&mut self, id: usize, action: Action)
        requires
            old(self).wf(),
            id < old(self).roster().len(),
            action.is_legal(),
        ensures
            final(self).wf(),
            final(self).world() == old(self).world(),
            final(self).player_id() == old(self).player_id(),
            final(self).rng_state() == old(self).rng_state(),
            final(self).ticks() == old(self).ticks(),
            final(self).roster().len() == old(self).roster().len(),
            forall|j: int|
                0 <= j < old(self).roster().len() && j != id ==> final(self).roster()[j]
                    == old(self).roster()[j],
            final(self).roster()[id as int]@ == old(self).roster()[id as int]@.after_set(
                action,
                old(self).world().cell(
                    spec_destination(old(self).world(), old(self).roster()[id as int]@.pos, action),
                ).tiletype,
            ),
    {
        let ghost r0 = self.creatures@;
        proof {
            assert(r0[id as int].wf(self.map));
        }
        let to = destination(&self.map, self.creatures[id].pos(), action);
        let terrain = self.map.at(to).tiletype;
        self.creatures[id].action_set(action, terrain);
        proof {
            self.lemma_frame(r0);
        }
    }

    /// The invariant survives any change to the creatures that keeps who
    /// stands where and every creature well-formed.
    proof fn lemma_frame(&self, r0: Seq<Creature>)
        requires
            self.world().wf(),
            r0.len() <= usize::MAX,
            roster_wf(self.world(), r0),
            tiles_name_creatures(self.world(), r0),
            creatures_on_tiles(self.world(), r0),
            same_places(r0, self.roster()),
            forall|j: int|
                0 <= j < self.roster().len() ==> #[trigger] self.roster()[j]@.wf(self.world())
                    || self.roster()[j] == r0[j],
            forall|j: int| 0 <= j < self.roster().len() ==> (#[trigger] self.roster()[j]).actor().wf(),
            self.player_id().is_some() ==> self.player_id().unwrap() < r0.len(),
        ensures
            self.wf(),
    {
        lemma_occupancy_frame(self.world(), r0, self.world(), self.roster());
        assert forall|j: int| 0 <= j < self.roster().len() implies (#[trigger] self.roster()[j]).wf(
            self.world(),
        ) by {
            assert(r0[j].wf(self.world()));
        }
    }

    /// Refreshes the sight of the player, if there is one: it then sees
    /// exactly what `sight_of` its position gives.
    pub fn update_player_los(&mut self)
        requires
            old(self).wf(),
        ensures
            final(self).wf(),
            final(self).world() == old(self).world(),
            final(self).player_id() == old(self).player_id(),
            final(self).roster().len() == old(self).roster().len(),
            final(self).player_id().is_some() ==> ({
                let id = final(self).player_id().unwrap() as int;
                let c0 = old(self).roster()[id]@;
                let c1 = final(self).roster()[id]@;
                &&& c1.pos == c0.pos
                &&& c1.health == c0.health
                &&& knows_more(c0.known, c1.known)
                &&& forall|q: Point|
                    final(self).world().in_bounds(q) ==> #[trigger] c1.visible@[final(self).world().idx(q)]
                        == sight_of(final(self).world(), c0.pos).contains(q)
            }),
    {
        match self.player {
            Some(id) => {
                let players = self.player_flags();
                let ghost r0 = self.creatures@;
                proof {
                    assert(r0[id as int].wf(self.map));
                }
                self.creatures[id].update_los(&self.map, &players);
                proof {
                    self.lemma_frame(r0);
                }
            },
            None => {},
        }
    }

    /// One pass of the simulation at time `now_ns`: each living creature
    /// that needs an action and is not a player refreshes its sight and
    /// decides; then its scheduler ticks, and an action that fires is applied
    /// and completed. Dead creatures are left as they are. The tick counter
    /// advances by one. `pass_ok` states all of it.
    pub fn tick_at(&mut self, now_ns: u64)
        requires
            old(self).wf(),
        ensures
            final(self).wf(),
            final(self).player_id() == old(self).player_id(),
            final(self).ticks() == old(self).ticks().wrapping_add(1),
            final(self).world().w() == old(self).world().w(),
            final(self).world().h() == old(self).world().h(),
            final(self).roster().len() == old(self).roster().len(),
            keeps_dead(old(self).roster(), final(self).roster()),
            pass_ok(*old(self), *final(self), now_ns),
    {
        let n = self.creatures.len();
        let mut i: usize = 0;
        let ghost mut states: Seq<GameState> = seq![*self];
        while i < n
            invariant
                self.wf(),
                i <= n,
                n == self.roster().len(),
                n == old(self).roster().len(),
                self.player_id() == old(self).player_id(),
                self.ticks() == old(self).ticks(),
                self.world().w() == old(self).world().w(),
                self.world().h() == old(self).world().h(),
                keeps_dead(old(self).roster(), self.roster()),
                states.len() == i + 1,
                states[0] == *old(self),
                states[i as int] == *self,
                forall|k: int| 0 <= k < i ==> #[trigger] step_ok(states[k], states[k + 1], k, now_ns),
            decreases n - i,
        {
            let ghost r1 = self.creatures@;
            let ghost before = *self;
            self.tick_creature(i, now_ns);
            proof {
                let s0 = states;
                states = states.push(*self);
                assert forall|k: int| 0 <= k < i + 1 implies #[trigger] step_ok(
                    states[k],
                    states[k + 1],
                    k,
                    now_ns,
                ) by {
                    if k < i {
                        assert(states[k] == s0[k]);
                        assert(states[k + 1] == s0[k + 1]);
                    }
                }
            }
            proof {
                assert(keeps_dead(old(self).roster(), self.creatures@)) by {
                    assert forall|j: int|
                        0 <= j < n && !(#[trigger] old(self).roster()[j])@.alive implies self.creatures@[j]
                        == old(self).roster()[j] by {
                        assert(r1[j] == old(self).roster()[j]);
                    }
                }
            }
            i = i + 1;
        }
        self.tick = self.tick.wrapping_add(1);
        proof {
            assert(pass_trace(*old(self), *self, now_ns, states));
        }
    }

    /// Whether creature `id` decides in this pass: it lives, has nothing
    /// queued and no player drives it.
    pub open spec fn decides(&self, id: int) -> bool {
        let c = self.roster()[id]@;
        c.alive && c.spec_needs_action() && !c.is_player
    }

    /// The part of a pass that concerns creature `id`: a dead creature is
    /// left alone; a living one decides if `decides` says so, then its
    /// scheduler ticks, and an action that fires is applied at `now_ns`
    /// (`perform_action`) and completed. A creature that does not decide and
    /// whose tick fires nothing only counts down.
    pub fn tick_creature(&mut self, id: usize, now_ns: u64)
        requires
            old(self).wf(),
            id < old(self).roster().len(),
        ensures
            final(self).wf(),
            final(self).player_id() == old(self).player_id(),
            final(self).ticks() == old(self).ticks(),
            final(self).world().w() == old(self).world().w(),
            final(self).world().h() == old(self).world().h(),
            final(self).roster().len() == old(self).roster().len(),
            keeps_dead(old(self).roster(), final(self).roster()),
            step_ok(*old(self), *final(self), id as int, now_ns),
            !old(self).roster()[id as int]@.alive ==> *final(self) == *old(self),
            ({
                let c0 = old(self).roster()[id as int]@;
                c0.alive && !old(self).decides(id as int) && c0.after_tick().1.is_none() ==> {
                    &&& final(self).roster() == old(self).roster().update(
                        id as int,
                        final(self).roster()[id as int],
                    )
                    &&& final(self).roster()[id as int]@ == c0.after_tick().0
                    &&& final(self).world() == old(self).world()
                }
            }),
    {
        if !self.creatures[id].is_alive() {
            return;
        }
        let ghost b = *self;
        let ghost r0 = self.creatures@;
        if self.creatures[id].needs_action() && !self.creatures[id].is_player() {
            self.decide(id);
        }
        let ghost m1 = *self;
        let ghost r1 = self.creatures@;
        proof {
            assert(keeps_dead(r0, r1));
            assert(r1[id as int].wf(self.map));
        }
        let fired = self.creatures[id].tick();
        let ghost m2 = *self;
        proof {
            self.lemma_frame(r1);
            assert(keeps_dead(r0, self.creatures@));
            assert(self.creatures@ =~= r1.update(
                id as int,
                Creature { state: r1[id as int]@.after_tick().0, actor: r1[id as int].actor },
            ));
            assert(with_state(m1, m2, id as int, m1.roster()[id as int]@.after_tick().0));
        }
        match fired {
            Some(action) => {
                proof {
                    assert(r1[id as int]@.sched_wf());
                }
                let ghost r2 = self.creatures@;
                self.fire(id, action, now_ns);
                proof {
                    assert(keeps_dead(r0, self.creatures@)) by {
                        assert forall|j: int| 0 <= j < r0.len() && !(#[trigger] r0[j])@.alive implies self.creatures@[j]
                            == r0[j] by {
                            assert(r2[j] == r0[j]);
                        }
                    }
                    let m3 = choose|m3: GameState|
                        #[trigger] perform_ok(m2, m3, id as int, action, now_ns) && with_state(
                            m3,
                            *self,
                            id as int,
                            m3.roster()[id as int]@.after_done(),
                        );
                    assert(step_phases(b, m1, m2, m3, *self, id as int, now_ns));
                }
            },
            None => {
                proof {
                    assert(step_phases(b, m1, m2, m2, *self, id as int, now_ns));
                }
            },
        }
    }

    /// Creature `id` refreshes its sight and lets its behavior decide.
    fn decide(&mut self, id: usize)
        requires
            old(self).wf(),
            id < old(self).roster().len(),
            old(self).decides(id as int),
        ensures
            decide_ok(*old(self), *final(self), id as int),
            final(self).wf(),
            final(self).world() == old(self).world(),
            final(self).player_id() == old(self).player_id(),
            final(self).ticks() == old(self).ticks(),
            final(self).roster().len() == old(self).roster().len(),
            forall|j: int|
                0 <= j < old(self).roster().len() && j != id ==> final(self).roster()[j]
                    == old(self).roster()[j],
            final(self).roster()[id as int]@.alive == old(self).roster()[id as int]@.alive,
    {
        let players = self.player_flags();
        let ghost r0 = self.creatures@;
        proof {
            assert(r0[id as int].wf(self.map));
        }
        self.creatures[id].update_los(&self.map, &players);
        self.creatures[id].update_action(&self.map, &players, &mut self.rng);
        proof {
            self.lemma_frame(r0);
            assert(players@ == player_flags_of(old(self).roster()));
        }
    }

    /// Applies the action that creature `id` has just fired and starts its
    /// recovery.
    fn fire(&mut self, id: usize, action: Action, now_ns: u64)
        requires
            old(self).wf(),
            id < old(self).roster().len(),
            old(self).roster()[id as int]@.alive,
            old(self).roster()[id as int]@.action_cur == Some(action),
            action.is_legal(),
        ensures
            final(self).wf(),
            final(self).player_id() == old(self).player_id(),
            final(self).ticks() == old(self).ticks(),
            final(self).world().w() == old(self).world().w(),
            final(self).world().h() == old(self).world().h(),
            final(self).roster().len() == old(self).roster().len(),
            keeps_dead(old(self).roster(), final(self).roster()),
            exists|m3: GameState|
                #[trigger] perform_ok(*old(self), m3, id as int, action, now_ns) && with_state(
                    m3,
                    *final(self),
                    id as int,
                    m3.roster()[id as int]@.after_done(),
                ),
    {
        let ghost r0 = self.creatures@;
        let ghost m0 = self.map;
        self.perform_action(id, action, now_ns);
        let ghost m3 = *self;
        let ghost r2 = self.creatures@;
        proof {
            assert(r2[id as int].wf(self.map));
            lemma_dead_untouched_all(r0, m0);
            assert forall|j: int| 0 <= j < r0.len() && !(#[trigger] r0[j])@.alive implies r2[j]
                == r0[j] by {
                if let Action::Melee(d) = action {
                    let to = spec_destination(m0, r0[id as int]@.pos, action);
                    crate::hex::lemma_step_in_bounds(
                        &m0,
                        r0[id as int]@.pos.p,
                        r0[id as int]@.pos.dir.spec_turn(d),
                    );
                    if let Some(t) = m0.cell(to).creature {
                        crate::hex::lemma_wrap_in_bounds(&m0, to);
                        crate::hex::lemma_idx_in_range(&m0, to);
                        assert(m0@[m0.idx(to)].creature != Some(j as usize));
                    }
                }
            }
        }
        self.creatures[id].action_done();
        proof {
            self.lemma_frame(r2);
            assert(perform_ok(*old(self), m3, id as int, action, now_ns));
            assert(self.creatures@ =~= r2.update(
                id as int,
                Creature { state: r2[id as int]@.after_done(), actor: r2[id as int].actor },
            ));
        }
    }

    /// One pass of the simulation at the current time (see `tick_at`): the
    /// pass is `pass_ok` for the time the clock gave.
    pub fn tick(&mut self)
        requires
            old(self).wf(),
        ensures
            final(self).wf(),
            exists|now_ns: u64| #[trigger] pass_ok(*old(self), *final(self), now_ns),
            final(self).player_id() == old(self).player_id(),
            final(self).ticks() == old(self).ticks().wrapping_add(1),
            final(self).roster().len() == old(self).roster().len(),
            keeps_dead(old(self).roster(), final(self).roster()),
    {
        let now = now_ns();
        self.tick_at(now);
        assert(pass_ok(*old(self), *self, now));
    }

    /// A random position: a point of the map and a facing.
    fn random_position(&mut self) -> (r: Position)
        requires
            old(self).wf(),
        ensures
            final(self).wf(),
            final(self).world() == old(self).world(),
            final(self).roster() == old(self).roster(),
            final(self).player_id() == old(self).player_id(),
            final(self).ticks() == old(self).ticks(),
            final(self).world().in_bounds(r.p),
    {
        let x = self.rng.gen_below(self.map.width() as u64);
        let y = self.rng.gen_below(self.map.height() as u64);
        let d = self.rng.gen_below(6);
        Position { p: Point { x: x as i32, y: y as i32 }, dir: AbsoluteDirection::from_index(d as i8) }
    }

    /// Places a new creature on a passable tile: random tiles are tried
    /// first, then the map is searched in order. Fails only when no tile is
    /// passable.
    pub fn spawn_random(&mut self, is_player: bool, race: Race) -> (r: Option<usize>)
        requires
            old(self).wf(),
            old(self).roster().len() < usize::MAX,
        ensures
            final(self).wf(),
            final(self).player_id() == if r.is_some() && is_player {
                r
            } else {
                old(self).player_id()
            },
            final(self).ticks() == old(self).ticks(),
            final(self).world().w() == old(self).world().w(),
            final(self).world().h() == old(self).world().h(),
            r.is_none() ==> final(self).roster() == old(self).roster() && forall|k: int|
                0 <= k < old(self).world()@.len() ==> !(#[trigger] old(self).world()@[k]).spec_is_passable(),
            r.is_some() ==> {
                let id = r.unwrap() as int;
                let c = final(self).roster()[id]@;
                &&& id == old(self).roster().len()
                &&& final(self).roster().len() == id + 1
                &&& final(self).roster().subrange(0, id) == old(self).roster()
                &&& c.is_fresh(c.pos, is_player, race)
                &&& old(self).world().cell(c.pos.p).spec_is_passable()
                &&& final(self).world().cell(c.pos.p).creature == Some(id as usize)
                &&& final(self).world().cell(c.pos.p).tiletype.spec_is_passable_type()
            },
            r.is_none() ==> final(self).world() == old(self).world(),
            same_terrain(old(self).world(), final(self).world()),
            fewer_passable(old(self).world(), final(self).world()),
    {
        let attempts: usize = self.map.width() as usize * self.map.height() as usize;
        let mut k: usize = 0;
        while k < attempts
            invariant
                self.wf(),
                old(self).roster().len() < usize::MAX,
                self.world() == old(self).world(),
                self.roster() == old(self).roster(),
                self.player_id() == old(self).player_id(),
                self.ticks() == old(self).ticks(),
            decreases attempts - k,
        {
            let pos = self.random_position();
            if self.map.at(pos.p).is_passable() {
                proof {
                    crate::hex::lemma_wrap_in_bounds(&self.map, pos.p);
                    crate::hex::lemma_idx_in_range(&self.map, pos.p);
                }
                return self.spawn(pos, is_player, race);
            }
            k = k + 1;
        }
        let n = self.map.width() as usize * self.map.height() as usize;
        let mut k: usize = 0;
        while k < n
            invariant
                self.wf(),
                n == self.world()@.len(),
                old(self).roster().len() < usize::MAX,
                self.world() == old(self).world(),
                self.roster() == old(self).roster(),
                self.player_id() == old(self).player_id(),
                self.ticks() == old(self).ticks(),
                forall|j: int| 0 <= j < k ==> !(#[trigger] self.world()@[j]).spec_is_passable(),
            decreases n - k,
        {
            let p = self.map.point_at(k);
            proof {
                crate::hex::lemma_wrap_in_bounds(&self.map, p);
            }
            if self.map.at(p).is_passable() {
                return self.spawn(Position { p, dir: AbsoluteDirection::North }, is_player, race);
            }
            k = k + 1;
        }
        None
    }

    /// Spawns `count` creatures of `race` that no player drives.
    fn spawn_many(&mut self, count: u64, race: Race)
        requires
            old(self).wf(),
            old(self).roster().len() + count < usize::MAX,
        ensures
            final(self).wf(),
            final(self).player_id() == old(self).player_id(),
            final(self).ticks() == old(self).ticks(),
            final(self).world().w() == old(self).world().w(),
            final(self).world().h() == old(self).world().h(),
            old(self).roster().len() <= final(self).roster().len() <= old(self).roster().len() + count,
            final(self).roster().len() == old(self).roster().len() + count || full(final(self).world()),
            forall|j: int|
                0 <= j < old(self).roster().len() ==> final(self).roster()[j] == old(self).roster()[j],
            placed(
                final(self).world(),
                final(self).roster(),
                old(self).roster().len() as int,
                final(self).roster().len() as int,
                race,
                false,
            ),
            same_terrain(old(self).world(), final(self).world()),
            fewer_passable(old(self).world(), final(self).world()),
    {
        let mut c: u64 = 0;
        while c < count
            invariant
                self.wf(),
                old(self).wf(),
                c <= count,
                old(self).roster().len() <= self.roster().len() <= old(self).roster().len() + c,
                self.roster().len() == old(self).roster().len() + c || full(self.world()),
                old(self).roster().len() + count < usize::MAX,
                self.player_id() == old(self).player_id(),
                self.ticks() == old(self).ticks(),
                self.world().w() == old(self).world().w(),
                self.world().h() == old(self).world().h(),
                forall|j: int|
                    0 <= j < old(self).roster().len() ==> self.roster()[j] == old(self).roster()[j],
                placed(
                    self.world(),
                    self.roster(),
                    old(self).roster().len() as int,
                    self.roster().len() as int,
                    race,
                    false,
                ),
                same_terrain(old(self).world(), self.world()),
                fewer_passable(old(self).world(), self.world()),
            decreases count - c,
        {
            let ghost w1 = self.world();
            let ghost r1 = self.roster();
            let r = self.spawn_random(false, race);
            proof {
                let n1 = r1.len() as int;
                if r.is_some() {
                    assert forall|j: int| 0 <= j < n1 implies self.roster()[j] == r1[j] by {
                        assert(self.roster().subrange(0, n1)[j] == r1[j]);
                    }
                    lemma_placed_kept(
                        w1,
                        r1,
                        self.world(),
                        self.roster(),
                        old(self).roster().len() as int,
                        n1,
                        race,
                        false,
                    );
                }
            }
            c = c + 1;
        }
    }

    /// Sets the terrain of the cells on the two horizontal and two vertical
    /// edges of the map to wall.
    fn wall_edges(&mut self)
        requires
            old(self).wf(),
        ensures
            final(self).wf(),
            final(self).roster() == old(self).roster(),
            final(self).player_id() == old(self).player_id(),
            final(self).ticks() == old(self).ticks(),
            final(self).world().w() == old(self).world().w(),
            final(self).world().h() == old(self).world().h(),
            edges_walled(final(self).world()),
    {
        let w = self.map.width();
        let h = self.map.height();
        let mut x: i32 = 0;
        while x < w
            invariant
                self.wf(),
                0 <= x <= w,
                w == self.world().w(),
                h == self.world().h(),
                self.roster() == old(self).roster(),
                self.player_id() == old(self).player_id(),
                self.ticks() == old(self).ticks(),
                self.world().w() == old(self).world().w(),
                self.world().h() == old(self).world().h(),
                forall|x1: i32|
                    0 <= x1 < x ==> (#[trigger] self.world().cell(Point { x: x1, y: 0 })).tiletype
                        == TileType::Wall && self.world().cell(Point { x: x1, y: (h - 1) as i32 }).tiletype
                        == TileType::Wall,
            decreases w - x,
        {
            let ghost w0 = self.world();
            self.set_tiletype(Point { x, y: 0 }, TileType::Wall);
            let ghost w1 = self.world();
            self.set_tiletype(Point { x, y: h - 1 }, TileType::Wall);
            proof {
                lemma_wall_kept(w0, w1, Point { x, y: 0 });
                lemma_wall_kept(w1, self.world(), Point { x, y: (h - 1) as i32 });
                assert forall|x1: i32| 0 <= x1 < x + 1 implies (#[trigger] self.world().cell(
                    Point { x: x1, y: 0 },
                )).tiletype == TileType::Wall && self.world().cell(
                    Point { x: x1, y: (h - 1) as i32 },
                ).tiletype == TileType::Wall by {
                    if x1 < x {
                        assert(w0.cell(Point { x: x1, y: 0 }).tiletype == TileType::Wall);
                        assert(w1.cell(Point { x: x1, y: 0 }).tiletype == TileType::Wall);
                        assert(w0.cell(Point { x: x1, y: (h - 1) as i32 }).tiletype == TileType::Wall);
                        assert(w1.cell(Point { x: x1, y: (h - 1) as i32 }).tiletype == TileType::Wall);
                    } else {
                        assert(w1.cell(Point { x: x1, y: 0 }).tiletype == TileType::Wall);
                    }
                }
            }
            x = x + 1;
        }
        let mut y: i32 = 0;
        while y < h
            invariant
                self.wf(),
                0 <= y <= h,
                w == self.world().w(),
                h == self.world().h(),
                self.roster() == old(self).roster(),
                self.player_id() == old(self).player_id(),
                self.ticks() == old(self).ticks(),
                self.world().w() == old(self).world().w(),
                self.world().h() == old(self).world().h(),
                forall|x1: i32|
                    0 <= x1 < w ==> (#[trigger] self.world().cell(Point { x: x1, y: 0 })).tiletype
                        == TileType::Wall && self.world().cell(Point { x: x1, y: (h - 1) as i32 }).tiletype
                        == TileType::Wall,
                forall|y1: i32|
                    0 <= y1 < y ==> (#[trigger] self.world().cell(Point { x: 0, y: y1 })).tiletype
                        == TileType::Wall && self.world().cell(Point { x: (w - 1) as i32, y: y1 }).tiletype
                        == TileType::Wall,
            decreases h - y,
        {
            let ghost w0 = self.world();
            self.set_tiletype(Point { x: 0, y }, TileType::Wall);
            let ghost w1 = self.world();
            self.set_tiletype(Point { x: w - 1, y }, TileType::Wall);
            proof {
                lemma_wall_kept(w0, w1, Point { x: 0, y });
                lemma_wall_kept(w1, self.world(), Point { x: (w - 1) as i32, y });
                assert forall|x1: i32| 0 <= x1 < w implies (#[trigger] self.world().cell(
                    Point { x: x1, y: 0 },
                )).tiletype == TileType::Wall && self.world().cell(
                    Point { x: x1, y: (h - 1) as i32 },
                ).tiletype == TileType::Wall by {
                    assert(w0.cell(Point { x: x1, y: 0 }).tiletype == TileType::Wall);
                    assert(w1.cell(Point { x: x1, y: 0 }).tiletype == TileType::Wall);
                    assert(w0.cell(Point { x: x1, y: (h - 1) as i32 }).tiletype == TileType::Wall);
                    assert(w1.cell(Point { x: x1, y: (h - 1) as i32 }).tiletype == TileType::Wall);
                }
                assert forall|y1: i32| 0 <= y1 < y + 1 implies (#[trigger] self.world().cell(
                    Point { x: 0, y: y1 },
                )).tiletype == TileType::Wall && self.world().cell(
                    Point { x: (w - 1) as i32, y: y1 },
                ).tiletype == TileType::Wall by {
                    if y1 < y {
                        assert(w0.cell(Point { x: 0, y: y1 }).tiletype == TileType::Wall);
                        assert(w1.cell(Point { x: 0, y: y1 }).tiletype == TileType::Wall);
                        assert(w0.cell(Point { x: (w - 1) as i32, y: y1 }).tiletype == TileType::Wall);
                        assert(w1.cell(Point { x: (w - 1) as i32, y: y1 }).tiletype == TileType::Wall);
                    } else {
                        assert(w1.cell(Point { x: 0, y: y1 }).tiletype == TileType::Wall);
                    }
                }
            }
            y = y + 1;
        }
    }

    /// Generates the world: blobs of glass, sand and wall (a cell and its
    /// six neighbors) one for every twelve cells, a wall along the edges,
    /// then one scout for every two hundred cells, one grunt for every four
    /// hundred, one heavy for every eight hundred, and the player, a human.
    pub fn randomize_map(&mut self)
        requires
            old(self).wf(),
            old(self).roster().len() == 0,
        ensures
            final(self).wf(),
            final(self).ticks() == old(self).ticks(),
            final(self).world().w() == old(self).world().w(),
            final(self).world().h() == old(self).world().h(),
            edges_walled(final(self).world()),
            forall|i: int|
                0 <= i < final(self).roster().len() ==> {
                    let c = (#[trigger] final(self).roster()[i])@;
                    &&& c.alive
                    &&& c.health == c.race.spec_max_health()
                    &&& final(self).world().cell(c.pos.p).tiletype.spec_is_passable_type()
                },
            ({
                let g = *final(self);
                g.player_id().is_some() ==> g.roster()[g.player_id().unwrap() as int]@.is_player
                    && g.roster()[g.player_id().unwrap() as int]@.race == Race::Human
            }),
            final(self).player_id().is_some() || full(final(self).world()),
            !full(final(self).world()) ==> ({
                let w = final(self).world();
                let r = final(self).roster();
                let area = w.w() * w.h();
                let ns = area / 200;
                let ng = area / 400;
                let nh = area / 800;
                let n = ns + ng + nh;
                &&& r.len() == n + 1
                &&& placed(w, r, 0, ns, Race::Scout, false)
                &&& placed(w, r, ns, ns + ng, Race::Grunt, false)
                &&& placed(w, r, ns + ng, n, Race::Heavy, false)
                &&& placed(w, r, n, n + 1, Race::Human, true)
                &&& final(self).player_id() == Some(n as usize)
            }),
    {
        let area: u64 = self.map.width() as u64 * self.map.height() as u64;
        let blobs = area / 12;
        let mut b: u64 = 0;
        while b < blobs
            invariant
                self.wf(),
                self.roster().len() == 0,
                self.player_id() == old(self).player_id(),
                self.ticks() == old(self).ticks(),
                self.world().w() == old(self).world().w(),
                self.world().h() == old(self).world().h(),
            decreases blobs - b,
        {
            let pos = self.random_position();
            let kind = self.rng.gen_below(6);
            let t = if kind == 0 {
                TileType::GlassWall
            } else if kind == 1 {
                TileType::Sand
            } else {
                TileType::Wall
            };
            self.set_tiletype(pos.p, t);
            let mut d: i8 = 0;
            while d < 6
                invariant
                    self.wf(),
                    0 <= d <= 6,
                    self.roster().len() == 0,
                    self.player_id() == old(self).player_id(),
                    self.ticks() == old(self).ticks(),
                    self.world().w() == old(self).world().w(),
                    self.world().h() == old(self).world().h(),
                decreases 6 - d,
            {
                let q = self.map.step(pos.p, AbsoluteDirection::from_index(d));
                self.set_tiletype(q, t);
                d = d + 1;
            }
            b = b + 1;
        }
        self.wall_edges();
        self.player = None;
        let ghost w0 = self.world();
        proof {
            assert(same_terrain(w0, w0));
        }
        self.spawn_many(area / 200, Race::Scout);
        let ghost w1 = self.world();
        let ghost r1 = self.roster();
        self.spawn_many(area / 400, Race::Grunt);
        let ghost w2 = self.world();
        let ghost r2 = self.roster();
        self.spawn_many(area / 800, Race::Heavy);
        let ghost w3 = self.world();
        let ghost r3 = self.roster();
        let p = self.spawn_random(true, Race::Human);
        proof {
            let (n1, n2, n3) = (r1.len() as int, r2.len() as int, r3.len() as int);
            let w = self.world();
            let r = self.roster();
            lemma_terrain_trans(w0, w1, w2);
            lemma_terrain_trans(w0, w2, w3);
            lemma_terrain_trans(w0, w3, w);
            lemma_terrain_trans(w1, w2, w3);
            lemma_terrain_trans(w1, w3, w);
            lemma_terrain_trans(w2, w3, w);
            lemma_fewer_trans(w1, w2, w3);
            lemma_fewer_trans(w1, w3, w);
            lemma_fewer_trans(w2, w3, w);
            lemma_terrain_cells(w0, w);
            assert forall|x: i32| 0 <= x < w.w() implies (#[trigger] w.cell(Point { x, y: 0 })).tiletype
                == TileType::Wall && w.cell(Point { x, y: (w.h() - 1) as i32 }).tiletype
                == TileType::Wall by {
                assert(w0.cell(Point { x, y: 0 }).tiletype == TileType::Wall);
                assert(w0.cell(Point { x, y: (w0.h() - 1) as i32 }).tiletype == TileType::Wall);
            }
            assert forall|y: i32| 0 <= y < w.h() implies (#[trigger] w.cell(Point { x: 0, y })).tiletype
                == TileType::Wall && w.cell(Point { x: (w.w() - 1) as i32, y }).tiletype
                == TileType::Wall by {
                assert(w0.cell(Point { x: 0, y }).tiletype == TileType::Wall);
                assert(w0.cell(Point { x: (w0.w() - 1) as i32, y }).tiletype == TileType::Wall);
            }
            if p.is_some() {
                assert forall|j: int| 0 <= j < n3 implies r[j] == r3[j] by {
                    assert(r.subrange(0, n3)[j] == r3[j]);
                }
            }
            lemma_placed_kept(w1, r1, w2, r2, 0, n1, Race::Scout, false);
            lemma_placed_kept(w2, r2, w3, r3, 0, n1, Race::Scout, false);
            lemma_placed_kept(w3, r3, w, r, 0, n1, Race::Scout, false);
            lemma_placed_kept(w2, r2, w3, r3, n1, n2, Race::Grunt, false);
            lemma_placed_kept(w3, r3, w, r, n1, n2, Race::Grunt, false);
            lemma_placed_kept(w3, r3, w, r, n2, n3, Race::Heavy, false);
            assert(placed(w, r, n3, r.len() as int, Race::Human, true));
            assert forall|i: int| 0 <= i < r.len() implies {
                let c = (#[trigger] r[i])@;
                &&& c.alive
                &&& c.health == c.race.spec_max_health()
                &&& w.cell(c.pos.p).tiletype.spec_is_passable_type()
            } by {
                if i < n1 {
                } else if i < n2 {
                } else if i < n3 {
                } else {
                }
            }
            if full(w1) {
                lemma_full_kept(w1, w);
            }
            if full(w2) {
                lemma_full_kept(w2, w);
            }
            if full(w3) {
                lemma_full_kept(w3, w);
            }
        }
    }
}

/// Relies on `time::precise_time_ns`: a reading of the clock in nanoseconds.
/// Nothing is assumed of its value.
#[verifier::external_body]
fn now_ns() -> (r: u64) {
    time::precise_time_ns()
}

} // verus!
