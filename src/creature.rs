use crate::hex::{
    adjacent, cell_count, cell_index, on_grid, turned, wrapped, Direction, Position,
    RelativeDir, MAP_HEIGHT, MAP_WIDTH,
};
use crate::world::{
    cell_of, lemma_cell_index, lemma_cell_index_injective, Action, Body, Creature, GameMap,
    ObjectType, Tile, WorldState, pre_cost, post_cost,
};
use vstd::prelude::*;

verus! {

/// The state after creature `id` steps onto the cell that `p` wraps to, if that cell
/// is free.
pub open spec fn relocated(s: WorldState, id: int, p: (int, int)) -> WorldState {
    if s.occupant(p).is_some() {
        s
    } else {
        let k = s.roster[id];
        WorldState {
            cells: s.cells.update(cell_index(k.pos), None).update(cell_index(p), Some(id as usize)),
            roster: s.roster.update(id, Body { pos: wrapped(p), ..k }),
            ..s
        }
    }
}

/// The cell creature `id` faces after turning by `rd`.
pub open spec fn target_of(s: WorldState, id: int, rd: RelativeDir) -> (int, int) {
    adjacent(s.roster[id].pos, turned(s.roster[id].dir, rd))
}

/// The state after MOVE or RUN: the target cell becomes known, and the creature
/// steps onto it if it is not a wall and is free.
pub open spec fn walked(s: WorldState, id: int, rd: RelativeDir) -> WorldState {
    let k = s.roster[id];
    let dest = target_of(s, id, rd);
    let s1 = s.with_body(id, Body { known: k.known.update(cell_index(dest), true), ..k });
    if s1.tile_at(dest) != Tile::WALL {
        relocated(s1, id, dest)
    } else {
        s1
    }
}

/// The state after TURN.
pub open spec fn rotated_body(s: WorldState, id: int, rd: RelativeDir) -> WorldState {
    let k = s.roster[id];
    s.with_body(id, Body { dir: turned(k.dir, rd), ..k })
}

/// The state after creature `t` takes a hit: one life less, the hit clock reset, and
/// off the grid once its life is gone.
pub open spec fn struck(s: WorldState, t: int) -> WorldState {
    let k = s.roster[t];
    let s1 = s.with_body(t, Body { life: k.life - 1, last_hit_time: 0, ..k });
    if k.life - 1 <= 0 {
        WorldState { cells: s1.cells.update(cell_index(k.pos), None), ..s1 }
    } else {
        s1
    }
}

/// The state after MELEE: whoever stands on the target cell takes a hit.
pub open spec fn meleed(s: WorldState, id: int, rd: RelativeDir) -> WorldState {
    match s.occupant(target_of(s, id, rd)) {
        Some(t) => struck(s, t as int),
        None => s,
    }
}

/// Life after a medkit, held at the largest `i64`.
pub open spec fn healed(life: int) -> int {
    if life < i64::MAX {
        life + 1
    } else {
        life
    }
}

/// The state after USE: the top object of the creature's cell is taken and applied;
/// nothing happens on an empty cell.
pub open spec fn used(s: WorldState, id: int) -> WorldState {
    let k = s.roster[id];
    let pile = s.objects_on(k.pos);
    if pile.len() == 0 {
        s
    } else {
        let life = match pile.last().objecttype {
            ObjectType::MEDKIT => healed(k.life),
        };
        WorldState {
            objects: s.objects.update(cell_index(k.pos), pile.drop_last()),
            roster: s.roster.update(id, Body { life, ..k }),
            ..s
        }
    }
}

/// The effect of action `a` by creature `id`.
#[verifier::opaque]
pub open spec fn performed(s: WorldState, id: int, a: Action) -> WorldState {
    match a {
        Action::RUN(rd) => walked(s, id, rd),
        Action::MOVE(rd) => walked(s, id, rd),
        Action::TURN(rd) => rotated_body(s, id, rd),
        Action::MELEE(rd) => meleed(s, id, rd),
        Action::USE => used(s, id),
        Action::WAIT => s,
    }
}

/// Replacing a creature by one at the same place and equally alive keeps the invariant.
pub proof fn lemma_with_body_wf(s: WorldState, id: int, b: Body)
    requires
        s.wf(),
        0 <= id < s.roster.len(),
        b.wf(),
        b.pos == s.roster[id].pos,
        b.living() == s.roster[id].living(),
    ensures
        s.with_body(id, b).wf(),
{
    let m = s.with_body(id, b);
    assert forall|c: int| 0 <= c < cell_count() && (#[trigger] m.cells[c]).is_some() implies {
        let i = m.cells[c].unwrap() as int;
        &&& 0 <= i < m.roster.len()
        &&& cell_index(m.roster[i].pos) == c
        &&& (i != -1 ==> m.roster[i].living())
    } by {
        assert(s.cells[c].is_some());
    }
    assert forall|i: int| 0 <= i < m.roster.len() && (#[trigger] m.roster[i]).living() implies m.cells[cell_index(m.roster[i].pos)] == Some(i as usize) by {
        assert(s.roster[i].living());
    }
}

/// Stepping a living creature onto a free cell keeps the invariant.
pub proof fn lemma_relocated_wf(s: WorldState, id: int, p: (int, int))
    requires
        s.wf(),
        0 <= id < s.roster.len(),
        s.roster[id].living(),
    ensures
        relocated(s, id, p).wf(),
        relocated(s, id, p).roster.len() == s.roster.len(),
{
    if s.occupant(p).is_none() {
        let m = relocated(s, id, p);
        let k = s.roster[id];
        let from = cell_index(k.pos);
        let to = cell_index(p);
        lemma_cell_index(p);
        lemma_cell_index(k.pos);
        crate::hex::lemma_wrap_laws(p);
        lemma_cell_index(wrapped(p));
        assert(cell_index(wrapped(p)) == to);
        assert(s.cells[from] == Some(id as usize));
        assert forall|c: int| 0 <= c < cell_count() && (#[trigger] m.cells[c]).is_some() implies {
            let i = m.cells[c].unwrap() as int;
            &&& 0 <= i < m.roster.len()
            &&& cell_index(m.roster[i].pos) == c
            &&& (i != -1 ==> m.roster[i].living())
        } by {
            if c != to {
                assert(c != from);
                assert(s.cells[c] == m.cells[c]);
                let i = s.cells[c].unwrap() as int;
                if i == id {
                    assert(cell_index(k.pos) == c);
                }
            }
        }
        assert forall|i: int| 0 <= i < m.roster.len() && (#[trigger] m.roster[i]).living() implies m.cells[cell_index(m.roster[i].pos)] == Some(i as usize) by {
            if i != id {
                assert(s.roster[i] == m.roster[i]);
                assert(s.cells[cell_index(s.roster[i].pos)] == Some(i as usize));
                assert(cell_index(s.roster[i].pos) != from);
            }
        }
    }
}

/// A hit on a living creature keeps the invariant.
pub proof fn lemma_struck_wf(s: WorldState, t: int)
    requires
        s.wf(),
        0 <= t < s.roster.len(),
        s.roster[t].living(),
    ensures
        struck(s, t).wf(),
        struck(s, t).roster.len() == s.roster.len(),
{
    let k = s.roster[t];
    let m = struck(s, t);
    let from = cell_index(k.pos);
    assert(s.cells[from] == Some(t as usize));
    assert forall|c: int| 0 <= c < cell_count() && (#[trigger] m.cells[c]).is_some() implies {
        let i = m.cells[c].unwrap() as int;
        &&& 0 <= i < m.roster.len()
        &&& cell_index(m.roster[i].pos) == c
        &&& (i != -1 ==> m.roster[i].living())
    } by {
        assert(s.cells[c].is_some());
        let i = s.cells[c].unwrap() as int;
        if i == t {
            assert(c == from);
        }
    }
    assert forall|i: int| 0 <= i < m.roster.len() && (#[trigger] m.roster[i]).living() implies m.cells[cell_index(m.roster[i].pos)] == Some(i as usize) by {
        if i != t {
            assert(s.roster[i] == m.roster[i]);
            assert(s.cells[cell_index(s.roster[i].pos)] == Some(i as usize));
        }
    }
}

impl Creature {
    /// Rotates the creature by `rd`.
    pub fn turn(&mut self, rd: RelativeDir)
        ensures
            final(self)@ == (Body { dir: turned(old(self)@.dir, rd), ..old(self)@ }),
    {
        self.dir.turn_mut(rd);
    }

    /// Marks the cell that `pos` wraps to as seen.
    pub fn mark_visible(&mut self, pos: Position)
        requires
            old(self)@.wf(),
        ensures
            final(self)@ == (Body {
                visible: old(self)@.visible.update(cell_index(pos@), true),
                ..old(self)@
            }),
    {
        let c = cell_of(pos);
        self.map_visible.set(c, true);
    }

    /// Marks the cell that `pos` wraps to as known.
    pub fn mark_known(&mut self, pos: Position)
        requires
            old(self)@.wf(),
        ensures
            final(self)@ == (Body {
                known: old(self)@.known.update(cell_index(pos@), true),
                ..old(self)@
            }),
    {
        let c = cell_of(pos);
        self.map_known.set(c, true);
    }

    /// Whether the creature sees the cell that `pos` wraps to.
    pub fn sees(&self, pos: Position) -> (r: bool)
        requires
            self@.wf(),
        ensures
            r == self@.visible[cell_index(pos@)],
    {
        self.map_visible[cell_of(pos)]
    }

    /// Whether the creature has ever seen or bumped into the cell that `pos` wraps to.
    pub fn knows(&self, pos: Position) -> (r: bool)
        requires
            self@.wf(),
        ensures
            r == self@.known[cell_index(pos@)],
    {
        self.map_known[cell_of(pos)]
    }

    /// Whether the creature still lives.
    pub fn alive(&self) -> (r: bool)
        ensures
            r == self@.living(),
    {
        self.life > 0
    }

    /// Where the creature stands.
    pub fn position(&self) -> (r: Position)
        ensures
            r == self.pos,
    {
        self.pos
    }

    /// The local positions of the view rectangle in front of a creature: ten rows
    /// ahead, two behind, ten columns to either side.
    pub fn each_in_view_rect(&self) -> (r: Vec<Position>)
        ensures
            r@.len() == 13 * 21,
            forall|k: int|
                0 <= k < r@.len() ==> (#[trigger] r@[k])@ == crate::hex::around_at(
                    (0, 0),
                    10,
                    10,
                    10,
                    k,
                ),
    {
        let origin = Position { x: 0, y: 0 };
        origin.each_around(crate::world::PLAYER_VIEW, 2, crate::world::PLAYER_VIEW, crate::world::PLAYER_VIEW)
    }
}

impl GameMap {
    /// Steps creature `id` onto the cell that `pos` wraps to, unless another creature
    /// stands there.
    pub fn move_creature(&mut self, id: usize, pos: Position)
        requires
            old(self).wf(),
            id < old(self)@.roster.len(),
            old(self)@.roster[id as int].living(),
        ensures
            final(self).wf(),
            final(self)@ == relocated(old(self)@, id as int, pos@),
    {
        proof {
            lemma_relocated_wf(self@, id as int, pos@);
        }
        let c = cell_of(pos);
        match self.creatures[c] {
            Some(_) => {},
            None => {
                let from = cell_of(self.roster[id].pos);
                let p = self.wrap_position(pos);
                self.creatures.set(from, None);
                self.roster[id].pos = p;
                self.creatures.set(c, Some(id));
                assert(self@.roster =~= relocated(old(self)@, id as int, pos@).roster);
                assert(self@.objects =~= old(self)@.objects);
            },
        }
    }

    /// Takes creature `id`, whose life has run out, off its cell.
    pub fn remove_creature(&mut self, id: usize)
        requires
            old(self)@.wf_except(id as int),
            id < old(self)@.roster.len(),
            !old(self)@.roster[id as int].living(),
            old(self)@.occupant(old(self)@.roster[id as int].pos) == Some(id),
        ensures
            final(self).wf(),
            final(self)@ == (WorldState {
                cells: old(self)@.cells.update(cell_index(old(self)@.roster[id as int].pos), None),
                ..old(self)@
            }),
    {
        let c = cell_of(self.roster[id].pos);
        self.creatures.set(c, None);
        proof {
            let m = self@;
            let s = old(self)@;
            assert(m.objects =~= s.objects);
            assert(m.roster =~= s.roster);
            assert forall|cc: int| 0 <= cc < cell_count() && (#[trigger] m.cells[cc]).is_some() implies {
                let i = m.cells[cc].unwrap() as int;
                &&& 0 <= i < m.roster.len()
                &&& cell_index(m.roster[i].pos) == cc
                &&& (i != -1 ==> m.roster[i].living())
            } by {
                assert(s.cells[cc] == m.cells[cc]);
            }
        }
    }
}

impl Creature {
    /// MOVE / RUN for creature `id`: the cell along its facing turned by `rd` becomes
    /// known, and the creature steps onto it if it is not a wall and is free.
    pub fn walk(map: &mut GameMap, id: usize, rd: RelativeDir)
        requires
            old(map).wf(),
            id < old(map)@.roster.len(),
            old(map)@.roster[id as int].living(),
        ensures
            final(map).wf(),
            final(map)@ == walked(old(map)@, id as int, rd),
    {
        let d = map.roster[id].dir.turn(rd);
        let pos = map.roster[id].pos;
        let new_position = pos.neighbor(d);
        map.roster[id].mark_known(new_position);
        proof {
            let s = old(map)@;
            let k = s.roster[id as int];
            let b = Body { known: k.known.update(cell_index(new_position@), true), ..k };
            assert(map@.roster =~= s.roster.update(id as int, b));
            assert(map@.objects =~= s.objects);
            lemma_with_body_wf(s, id as int, b);
        }
        if map.at(new_position).is_passable() {
            map.move_creature(id, new_position);
        }
    }

    /// USE for creature `id`: takes the top object of its cell and applies it; a medkit
    /// gives one life. Nothing happens on an empty cell.
    pub fn use_item(map: &mut GameMap, id: usize)
        requires
            old(map).wf(),
            id < old(map)@.roster.len(),
            old(map)@.roster[id as int].living(),
        ensures
            final(map).wf(),
            final(map)@ == used(old(map)@, id as int),
    {
        let c = cell_of(map.roster[id].pos);
        let n = map.objects[c].len();
        if n == 0 {
            return;
        }
        match map.objects[c][n - 1].objecttype {
            ObjectType::MEDKIT => {
                let life = map.roster[id].life;
                if life < i64::MAX {
                    map.roster[id].life = life + 1;
                }
                map.objects[c].pop();
            },
        }
        proof {
            let s = old(map)@;
            let m = map@;
            let k = s.roster[id as int];
            let b = Body { life: healed(k.life), ..k };
            let t = used(s, id as int);
            assert(m.roster =~= s.roster.update(id as int, b));
            assert(m.objects[c as int] =~= t.objects[c as int]);
            assert(m.objects =~= t.objects);
            lemma_with_body_wf(s, id as int, b);
            assert(s.with_body(id as int, b).wf());
            assert(m.cells == s.cells);
            assert(m.roster == s.with_body(id as int, b).roster);
        }
    }

    /// Creature `id` takes a hit: one life less and the hit clock reset; once its life
    /// is gone it leaves the grid.
    pub fn hit(map: &mut GameMap, id: usize)
        requires
            old(map).wf(),
            id < old(map)@.roster.len(),
            old(map)@.roster[id as int].living(),
        ensures
            final(map).wf(),
            final(map)@ == struck(old(map)@, id as int),
    {
        proof {
            lemma_struck_wf(map@, id as int);
        }
        map.roster[id].last_hit_time = 0;
        map.roster[id].life = map.roster[id].life - 1;
        proof {
            let s = old(map)@;
            let k = s.roster[id as int];
            assert(map@.roster =~= s.roster.update(id as int, Body { life: k.life - 1, last_hit_time: 0, ..k }));
            assert(map@.objects =~= s.objects);
        }
        if map.roster[id].life <= 0 {
            Creature::die(map, id);
        }
    }

    /// Takes creature `id`, whose life has run out, off the grid.
    pub fn die(map: &mut GameMap, id: usize)
        requires
            old(map)@.wf_except(id as int),
            id < old(map)@.roster.len(),
            !old(map)@.roster[id as int].living(),
            old(map)@.occupant(old(map)@.roster[id as int].pos) == Some(id),
        ensures
            final(map).wf(),
            final(map)@ == (WorldState {
                cells: old(map)@.cells.update(cell_index(old(map)@.roster[id as int].pos), None),
                ..old(map)@
            }),
    {
        map.remove_creature(id);
    }

    /// MELEE for creature `id`: whoever stands on the cell along its facing turned by
    /// `rd` takes a hit.
    pub fn melee(map: &mut GameMap, id: usize, rd: RelativeDir)
        requires
            old(map).wf(),
            id < old(map)@.roster.len(),
        ensures
            final(map).wf(),
            final(map)@ == meleed(old(map)@, id as int, rd),
    {
        let pos = map.roster[id].pos;
        let dir = map.roster[id].dir;
        assert(map@.roster[id as int].wf());
        let new_position = pos.neighbor(dir.turn(rd));
        match map.creature_at(new_position) {
            Some(cr) => {
                Creature::hit(map, cr);
            },
            None => {},
        }
    }
}

/// The hit clock one tick later, held at the largest `u64`.
pub open spec fn clocked(t: int) -> int {
    if t < u64::MAX {
        t + 1
    } else {
        t
    }
}

/// The state after one tick of creature `id`, where `choice` is what its controller
/// answers if asked for an action: the hit clock advances, and then exactly one of
/// these happens: the pre-action delay counts down; the pending action takes effect
/// and is cleared; the post-action delay counts down; or `choice` is scheduled with
/// its delays.
pub open spec fn ticked(s: WorldState, id: int, choice: Action) -> WorldState {
    let k = s.roster[id];
    let k0 = Body { last_hit_time: clocked(k.last_hit_time), ..k };
    if k.pre > 0 {
        s.with_body(id, Body { pre: k.pre - 1, ..k0 })
    } else if k.action.is_some() {
        performed(s.with_body(id, Body { action: None, ..k0 }), id, k.action.unwrap())
    } else if k.post > 0 {
        s.with_body(id, Body { post: k.post - 1, ..k0 })
    } else {
        let has = s.objects_on(k.pos).len() > 0;
        s.with_body(
            id,
            Body {
                action: Some(choice),
                pre: pre_cost(choice, has) as int,
                post: post_cost(choice, has) as int,
                ..k0
            },
        )
    }
}

/// Whether a tick of creature `id` carries out its pending action.
pub open spec fn acts(s: WorldState, id: int) -> bool {
    s.roster[id].pre == 0 && s.roster[id].action.is_some()
}

impl Action {
    /// Ticks before this action takes effect, for creature `cr` on `map`.
    pub fn pre_ticks(&self, cr: &Creature, map: &GameMap) -> (r: u64)
        requires
            map.wf(),
        ensures
            r == pre_cost(*self, map@.objects_on(cr.pos@).len() > 0),
    {
        match self {
            Action::MOVE(RelativeDir::BACKWARD) | Action::RUN(RelativeDir::BACKWARD) => 15,
            Action::RUN(RelativeDir::FORWARD) => 5,
            Action::MOVE(_) | Action::RUN(_) => 10,
            Action::TURN(_) => 5,
            Action::MELEE(_) => 2,
            Action::WAIT => 1,
            Action::USE => {
                if map.objects_at(cr.pos).len() != 0 {
                    30
                } else {
                    0
                }
            },
        }
    }

    /// Ticks after this action has taken effect, for creature `cr` on `map`.
    pub fn post_ticks(&self, cr: &Creature, map: &GameMap) -> (r: u64)
        requires
            map.wf(),
        ensures
            r == post_cost(*self, map@.objects_on(cr.pos@).len() > 0),
    {
        match self {
            Action::RUN(RelativeDir::FORWARD) => 5,
            Action::MOVE(_) | Action::RUN(_) => 10,
            Action::TURN(_) => 5,
            Action::MELEE(_) => 10,
            Action::WAIT => 0,
            Action::USE => {
                if map.objects_at(cr.pos).len() != 0 {
                    30
                } else {
                    0
                }
            },
        }
    }
}

impl Creature {
    /// Carries out action `a` for creature `id`.
    fn perform(map: &mut GameMap, id: usize, a: Action)
        requires
            old(map).wf(),
            id < old(map)@.roster.len(),
            old(map)@.roster[id as int].living(),
        ensures
            final(map).wf(),
            final(map)@ == performed(old(map)@, id as int, a),
            final(map)@.roster.len() == old(map)@.roster.len(),
    {
        proof {
            lemma_performed_facts(old(map)@, id as int, a);
        }
        reveal(performed);
        match a {
            Action::RUN(d) => Creature::walk(map, id, d),
            Action::MOVE(d) => Creature::walk(map, id, d),
            Action::TURN(d) => {
                map.roster[id].turn(d);
                proof {
                    let s = old(map)@;
                    let k = s.roster[id as int];
                    let b = Body { dir: turned(k.dir, d), ..k };
                    assert(map@.roster =~= s.roster.update(id as int, b));
                    assert(map@.objects =~= s.objects);
                    lemma_with_body_wf(s, id as int, b);
                }
            },
            Action::MELEE(d) => Creature::melee(map, id, d),
            Action::USE => Creature::use_item(map, id),
            Action::WAIT => {},
        }
    }

    /// One tick of creature `id`; `choice` is what its controller answers, read only
    /// when the creature is idle. Returns whether an action took effect, which is when
    /// the view needs redrawing.
    pub fn tick(map: &mut GameMap, id: usize, choice: Action) -> (r: bool)
        requires
            old(map).wf(),
            id < old(map)@.roster.len(),
            old(map)@.roster[id as int].living(),
        ensures
            final(map).wf(),
            final(map)@ == ticked(old(map)@, id as int, choice),
            final(map)@.roster.len() == old(map)@.roster.len(),
            r == acts(old(map)@, id as int),
    {
        let ghost s = map@;
        let ghost k = s.roster[id as int];
        let t = map.roster[id].last_hit_time;
        if t < u64::MAX {
            map.roster[id].last_hit_time = t + 1;
        }
        let ghost k0 = Body { last_hit_time: clocked(k.last_hit_time), ..k };
        proof {
            assert(map@.roster =~= s.roster.update(id as int, k0));
            assert(map@.objects =~= s.objects);
            lemma_with_body_wf(s, id as int, k0);
        }
        let ghost s0 = map@;
        if map.roster[id].pre_action_ticks > 0 {
            map.roster[id].pre_action_ticks = map.roster[id].pre_action_ticks - 1;
            proof {
                let b = Body { pre: k.pre - 1, ..k0 };
                assert(map@.roster =~= s.roster.update(id as int, b));
                assert(map@.objects =~= s.objects);
                lemma_with_body_wf(s, id as int, b);
            }
            return false;
        }
        match map.roster[id].action {
            Some(action) => {
                map.roster[id].action = None;
                proof {
                    let b = Body { action: None, ..k0 };
                    assert(map@.roster =~= s.roster.update(id as int, b));
                    assert(map@.objects =~= s.objects);
                    lemma_with_body_wf(s, id as int, b);
                    assert(map@ == s.with_body(id as int, b));
                }
                Creature::perform(map, id, action);
                true
            },
            None => {
                if map.roster[id].post_action_ticks > 0 {
                    map.roster[id].post_action_ticks = map.roster[id].post_action_ticks - 1;
                    proof {
                        let b = Body { post: k.post - 1, ..k0 };
                        assert(map@.roster =~= s.roster.update(id as int, b));
                        assert(map@.objects =~= s.objects);
                        lemma_with_body_wf(s, id as int, b);
                    }
                } else {
                    let pre = choice.pre_ticks(&map.roster[id], map);
                    let post = choice.post_ticks(&map.roster[id], map);
                    map.roster[id].action = Some(choice);
                    map.roster[id].pre_action_ticks = pre;
                    map.roster[id].post_action_ticks = post;
                    proof {
                        let has = s.objects_on(k.pos).len() > 0;
                        let b = Body {
                            action: Some(choice),
                            pre: pre_cost(choice, has) as int,
                            post: post_cost(choice, has) as int,
                            ..k0
                        };
                        assert(map@.roster =~= s.roster.update(id as int, b));
                        assert(map@.objects =~= s.objects);
                        lemma_with_body_wf(s, id as int, b);
                    }
                }
                false
            },
        }
    }
}

/// Every creature stored on a cell stands on that cell and is alive.
pub proof fn lemma_stored_creatures(s: WorldState, c: int)
    requires
        s.wf(),
        0 <= c < cell_count(),
        s.cells[c].is_some(),
    ensures
        cell_index(s.roster[s.cells[c].unwrap() as int].pos) == c,
        s.roster[s.cells[c].unwrap() as int].life > 0,
{
}

/// The cell next to a cell on the grid is another cell.
pub proof fn lemma_adjacent_other_cell(p: (int, int), d: Direction)
    requires
        on_grid(p),
    ensures
        cell_index(adjacent(p, d)) != cell_index(p),
{
    let a = adjacent(p, d);
    lemma_cell_index(a);
    crate::hex::lemma_wrap_laws(a);
    lemma_cell_index(wrapped(a));
    lemma_cell_index(p);
    if cell_index(a) == cell_index(p) {
        assert(cell_index(wrapped(a)) == cell_index(a));
        lemma_cell_index_injective(wrapped(a), p);
    }
}

/// An action changes neither the actor's hit clock nor its pending action, keeps the
/// roster's length, and leaves every creature's seen cells among its known ones if they
/// were.
pub proof fn lemma_performed_facts(s: WorldState, id: int, a: Action)
    requires
        s.wf(),
        0 <= id < s.roster.len(),
        s.roster[id].living(),
    ensures
        performed(s, id, a).roster.len() == s.roster.len(),
        performed(s, id, a).roster[id].last_hit_time == s.roster[id].last_hit_time,
        performed(s, id, a).roster[id].action == s.roster[id].action,
        forall|j: int|
            0 <= j < s.roster.len() && (#[trigger] s.roster[j]).sight_known() ==> performed(
                s,
                id,
                a,
            ).roster[j].sight_known(),
{
    reveal(performed);
    let k = s.roster[id];
    let t = performed(s, id, a);
    match a {
        Action::MELEE(rd) => {
            lemma_adjacent_other_cell(k.pos, turned(k.dir, rd));
            let dest = target_of(s, id, rd);
            if s.occupant(dest).is_some() {
                let v = s.occupant(dest).unwrap() as int;
                lemma_cell_index(dest);
                assert(cell_index(s.roster[v].pos) == cell_index(dest));
                assert(v != id);
            }
            assert forall|j: int| 0 <= j < s.roster.len() && (#[trigger] s.roster[j]).sight_known() implies t.roster[j].sight_known() by {
                assert(t.roster[j].visible == s.roster[j].visible);
                assert(t.roster[j].known == s.roster[j].known);
            }
        },
        Action::MOVE(rd) | Action::RUN(rd) => {
            let dest = target_of(s, id, rd);
            let b = Body { known: k.known.update(cell_index(dest), true), ..k };
            lemma_cell_index(dest);
            assert forall|j: int| 0 <= j < s.roster.len() && (#[trigger] s.roster[j]).sight_known() implies t.roster[j].sight_known() by {
                assert(t.roster[j].visible == s.roster[j].visible);
                assert forall|c: int| 0 <= c < cell_count() && #[trigger] t.roster[j].visible[c] implies t.roster[j].known[c] by {
                    assert(s.roster[j].visible[c]);
                    assert(s.roster[j].known[c]);
                }
            }
        },
        _ => {
            assert forall|j: int| 0 <= j < s.roster.len() && (#[trigger] s.roster[j]).sight_known() implies t.roster[j].sight_known() by {
                assert(t.roster[j].visible == s.roster[j].visible);
                assert(t.roster[j].known == s.roster[j].known);
            }
        },
    }
}

/// Whether exactly one of four conditions holds.
pub open spec fn exactly_one(a: bool, b: bool, c: bool, d: bool) -> bool {
    (if a { 1int } else { 0 }) + (if b { 1int } else { 0 }) + (if c { 1int } else { 0 }) + (if d {
        1int
    } else {
        0
    }) == 1
}

/// One tick does exactly one of: count the pre-action delay down; carry out the pending
/// action and clear it; count the post-action delay down; schedule the controller's
/// choice with its delays. In every case the creature's hit clock advances by one.
pub proof fn lemma_tick_exactly_one(s: WorldState, id: int, choice: Action)
    requires
        s.wf(),
        0 <= id < s.roster.len(),
        s.roster[id].living(),
    ensures
        ({
            let k = s.roster[id];
            let t = ticked(s, id, choice);
            let n = t.roster[id];
            let has = s.objects_on(k.pos).len() > 0;
            exactly_one(
                k.pre > 0 && n.pre == k.pre - 1 && n.action == k.action && n.post == k.post,
                k.pre == 0 && k.action.is_some() && n.action.is_none() && t == performed(
                    s.with_body(id, Body { action: None, last_hit_time: clocked(k.last_hit_time), ..k }),
                    id,
                    k.action.unwrap(),
                ),
                k.pre == 0 && k.action.is_none() && k.post > 0 && n.post == k.post - 1
                    && n.action.is_none(),
                k.pre == 0 && k.action.is_none() && k.post == 0 && n.action == Some(choice)
                    && n.pre == pre_cost(choice, has) && n.post == post_cost(choice, has),
            ) && n.last_hit_time == clocked(k.last_hit_time)
        }),
{
    let k = s.roster[id];
    let t = ticked(s, id, choice);
    let n = t.roster[id];
    if k.pre > 0 {
        assert(n == Body { pre: k.pre - 1, last_hit_time: clocked(k.last_hit_time), ..k });
    } else if k.action.is_some() {
        let b = Body { action: None, last_hit_time: clocked(k.last_hit_time), ..k };
        lemma_with_body_wf(s, id, b);
        lemma_performed_facts(s.with_body(id, b), id, k.action.unwrap());
    } else if k.post > 0 {
        assert(n == Body { post: k.post - 1, last_hit_time: clocked(k.last_hit_time), ..k });
    } else {
        let has = s.objects_on(k.pos).len() > 0;
        assert(n == Body {
            action: Some(choice),
            pre: pre_cost(choice, has) as int,
            post: post_cost(choice, has) as int,
            last_hit_time: clocked(k.last_hit_time),
            ..k
        });
    }
}

/// Every creature that saw only cells it knew still does after a tick of any creature.
pub proof fn lemma_tick_keeps_sight_known(s: WorldState, id: int, choice: Action, j: int)
    requires
        s.wf(),
        0 <= id < s.roster.len(),
        s.roster[id].living(),
        0 <= j < s.roster.len(),
        s.roster[j].sight_known(),
    ensures
        ticked(s, id, choice).roster[j].sight_known(),
{
    let k = s.roster[id];
    let t = ticked(s, id, choice);
    if k.pre == 0 && k.action.is_some() {
        let b = Body { action: None, last_hit_time: clocked(k.last_hit_time), ..k };
        lemma_with_body_wf(s, id, b);
        let s1 = s.with_body(id, b);
        assert(s1.roster[j].visible == s.roster[j].visible);
        assert(s1.roster[j].known == s.roster[j].known);
        assert(s1.roster[j].sight_known());
        lemma_performed_facts(s1, id, k.action.unwrap());
    } else {
        let has = s.objects_on(k.pos).len() > 0;
        let k0 = Body { last_hit_time: clocked(k.last_hit_time), ..k };
        let b = if k.pre > 0 {
            Body { pre: k.pre - 1, ..k0 }
        } else if k.post > 0 {
            Body { post: k.post - 1, ..k0 }
        } else {
            Body {
                action: Some(choice),
                pre: pre_cost(choice, has) as int,
                post: post_cost(choice, has) as int,
                ..k0
            }
        };
        assert(t == s.with_body(id, b));
        assert(t.roster[j].visible == s.roster[j].visible);
        assert(t.roster[j].known == s.roster[j].known);
    }
}

/// A creature whose six neighbouring cells are walls stays on its cell whatever it
/// does in a tick.
pub proof fn lemma_walled_in_stays(s: WorldState, id: int, choice: Action)
    requires
        s.wf(),
        0 <= id < s.roster.len(),
        s.roster[id].living(),
        forall|d: Direction| s.tile_at(#[trigger] adjacent(s.roster[id].pos, d)) == Tile::WALL,
    ensures
        ticked(s, id, choice).roster[id].pos == s.roster[id].pos,
{
    reveal(performed);
    let k = s.roster[id];
    if k.pre == 0 && k.action.is_some() {
        match k.action.unwrap() {
            Action::MELEE(rd) => {
                lemma_adjacent_other_cell(k.pos, turned(k.dir, rd));
            },
            Action::MOVE(rd) => {
                assert(s.tile_at(adjacent(k.pos, turned(k.dir, rd))) == Tile::WALL);
            },
            Action::RUN(rd) => {
                assert(s.tile_at(adjacent(k.pos, turned(k.dir, rd))) == Tile::WALL);
            },
            _ => {},
        }
    }
}

/// USE on a cell without objects costs no ticks and changes nothing.
pub proof fn lemma_use_on_empty_cell(s: WorldState, id: int)
    requires
        0 <= id < s.roster.len(),
        s.objects_on(s.roster[id].pos).len() == 0,
    ensures
        pre_cost(Action::USE, s.objects_on(s.roster[id].pos).len() > 0) == 0,
        post_cost(Action::USE, s.objects_on(s.roster[id].pos).len() > 0) == 0,
        performed(s, id, Action::USE) == s,
{
    reveal(performed);
}

/// A step off the east edge of the grid comes back on its west edge.
pub proof fn lemma_step_east_wraps(s: WorldState, id: int)
    requires
        s.wf(),
        0 <= id < s.roster.len(),
        s.roster[id].living(),
        s.roster[id].pos.0 == MAP_WIDTH - 1,
        s.roster[id].dir == Direction::NE,
        s.tile_at(adjacent(s.roster[id].pos, Direction::NE)) != Tile::WALL,
        s.occupant(adjacent(s.roster[id].pos, Direction::NE)).is_none(),
    ensures
        performed(s, id, Action::MOVE(RelativeDir::FORWARD)).roster[id].pos == (
            0int,
            s.roster[id].pos.1,
        ),
{
    reveal(performed);
    let k = s.roster[id];
    let dest = adjacent(k.pos, Direction::NE);
    assert(turned(k.dir, RelativeDir::FORWARD) == Direction::NE);
    assert(target_of(s, id, RelativeDir::FORWARD) == dest);
    vstd::arithmetic::div_mod::lemma_small_mod(k.pos.1 as nat, MAP_HEIGHT as nat);
    assert(wrapped(dest) == (0int, k.pos.1));
}

} // verus!
