use crate::hex::{
    cell_count, cell_index, on_grid, wrapped, Direction, Position,
    RelativeDir, MAP_HEIGHT, MAP_WIDTH,
};
use crate::rng::{advanced, drawn, lemma_advance, lemma_advance_by, Rng};
use vstd::prelude::*;

verus! {

/// Depth of the sight cone, in steps.
pub const PLAYER_VIEW: i64 = 10;

/// Life a creature starts with.
pub const INITIAL_LIFE: i64 = 3;

/// Ticks since the last hit that a new creature starts with.
pub const INITIAL_HIT_TIME: u64 = 1000;

/// What one cell of the ground is made of.
#[derive(Clone, Copy, PartialEq, Eq, Structural, Debug)]
pub enum Tile {
    FLOOR,
    WALL,
}

impl Tile {
    pub fn is_wall(&self) -> (r: bool)
        ensures
            r == (*self == Tile::WALL),
    {
        match self {
            Tile::WALL => true,
            _ => false,
        }
    }

    pub fn is_floor(&self) -> (r: bool)
        ensures
            r == (*self == Tile::FLOOR),
    {
        match self {
            Tile::FLOOR => true,
            _ => false,
        }
    }

    pub fn can_see_through(&self) -> (r: bool)
        ensures
            r == (*self != Tile::WALL),
    {
        match self {
            Tile::WALL => false,
            _ => true,
        }
    }

    pub fn is_passable(&self) -> (r: bool)
        ensures
            r == (*self != Tile::WALL),
    {
        match self {
            Tile::WALL => false,
            _ => true,
        }
    }
}

/// The kinds of object that can lie on a cell.
#[derive(Clone, Copy, PartialEq, Eq, Structural, Debug)]
pub enum ObjectType {
    MEDKIT,
}

/// An object lying on a cell.
#[derive(Clone, Copy, PartialEq, Eq, Structural, Debug)]
pub struct Object {
    pub objecttype: ObjectType,
}

impl Object {
    /// A medkit, which gives one life when used.
    pub fn medkit() -> (r: Object)
        ensures
            r.objecttype == ObjectType::MEDKIT,
    {
        Object { objecttype: ObjectType::MEDKIT }
    }
}

/// What a creature can do in one action.
#[derive(Clone, Copy, PartialEq, Eq, Structural, Debug)]
pub enum Action {
    RUN(RelativeDir),
    MOVE(RelativeDir),
    TURN(RelativeDir),
    MELEE(RelativeDir),
    USE,
    WAIT,
}

/// Ticks spent before an action takes effect; `has_objects` tells whether the actor's
/// cell holds anything to use.
pub open spec fn pre_cost(a: Action, has_objects: bool) -> u64 {
    match a {
        Action::MOVE(RelativeDir::BACKWARD) | Action::RUN(RelativeDir::BACKWARD) => 15,
        Action::RUN(RelativeDir::FORWARD) => 5,
        Action::MOVE(_) | Action::RUN(_) => 10,
        Action::TURN(_) => 5,
        Action::MELEE(_) => 2,
        Action::WAIT => 1,
        Action::USE => if has_objects {
            30
        } else {
            0
        },
    }
}

/// Ticks spent after an action has taken effect.
pub open spec fn post_cost(a: Action, has_objects: bool) -> u64 {
    match a {
        Action::RUN(RelativeDir::FORWARD) => 5,
        Action::MOVE(_) | Action::RUN(_) => 10,
        Action::TURN(_) => 5,
        Action::MELEE(_) => 10,
        Action::WAIT => 0,
        Action::USE => if has_objects {
            30
        } else {
            0
        },
    }
}

/// Who decides what a creature does next.
#[derive(Clone, Copy, PartialEq, Eq, Structural, Debug)]
pub enum Controller {
    Player,
    Monster,
}

/// A creature: where it stands and faces, its health, its scheduled action, and what
/// it sees and remembers of the grid (one flag per cell, by flat cell index).
pub struct Creature {
    pub pos: Position,
    pub dir: Direction,
    pub last_hit_time: u64,
    pub life: i64,
    pub controller: Controller,
    pub action: Option<Action>,
    pub pre_action_ticks: u64,
    pub post_action_ticks: u64,
    pub map_visible: Vec<bool>,
    pub map_known: Vec<bool>,
}

/// The grid: tiles, the creature (by roster index) standing on each cell, the objects
/// lying on each cell, and the roster of every creature ever spawned, dead or alive.
/// Cells are stored by flat index `x * MAP_HEIGHT + y`.
pub struct GameMap {
    pub tiles: Vec<Tile>,
    pub creatures: Vec<Option<usize>>,
    pub objects: Vec<Vec<Object>>,
    pub roster: Vec<Creature>,
}

/// The mathematical state of a creature.
pub struct Body {
    pub pos: (int, int),
    pub dir: Direction,
    pub last_hit_time: int,
    pub life: int,
    pub controller: Controller,
    pub action: Option<Action>,
    pub pre: int,
    pub post: int,
    pub visible: Seq<bool>,
    pub known: Seq<bool>,
}

impl Body {
    /// Sizes and placement every creature keeps.
    pub open spec fn wf(&self) -> bool {
        &&& on_grid(self.pos)
        &&& 0 <= self.pre && 0 <= self.post
        &&& self.visible.len() == cell_count()
        &&& self.known.len() == cell_count()
    }

    /// Every cell it sees it also knows.
    pub open spec fn sight_known(&self) -> bool {
        forall|c: int| 0 <= c < cell_count() && #[trigger] self.visible[c] ==> self.known[c]
    }

    /// Whether the creature still lives.
    pub open spec fn living(&self) -> bool {
        self.life > 0
    }
}

impl View for Creature {
    type V = Body;

    open spec fn view(&self) -> Body {
        Body {
            pos: self.pos@,
            dir: self.dir,
            last_hit_time: self.last_hit_time as int,
            life: self.life as int,
            controller: self.controller,
            action: self.action,
            pre: self.pre_action_ticks as int,
            post: self.post_action_ticks as int,
            visible: self.map_visible@,
            known: self.map_known@,
        }
    }
}

/// The mathematical state of the grid: tiles, occupants, object piles (oldest first)
/// and the roster of creatures, each by flat cell index or roster index.
pub struct WorldState {
    pub tiles: Seq<Tile>,
    pub cells: Seq<Option<usize>>,
    pub objects: Seq<Seq<Object>>,
    pub roster: Seq<Body>,
}

impl WorldState {
    /// The grid's invariant: every table covers every cell; a cell that names a
    /// creature names a living one whose position is that cell; and every living
    /// creature is named by the cell it stands on.
    pub open spec fn wf(&self) -> bool {
        self.wf_except(-1)
    }

    /// The invariant, but the creature `dying` may still stand on its cell after its
    /// life has run out.
    pub open spec fn wf_except(&self, dying: int) -> bool {
        &&& self.tiles.len() == cell_count()
        &&& self.cells.len() == cell_count()
        &&& self.objects.len() == cell_count()
        &&& self.roster.len() <= usize::MAX
        &&& forall|i: int| 0 <= i < self.roster.len() ==> (#[trigger] self.roster[i]).wf()
        &&& forall|c: int|
            0 <= c < cell_count() && (#[trigger] self.cells[c]).is_some() ==> {
                let i = self.cells[c].unwrap() as int;
                &&& 0 <= i < self.roster.len()
                &&& cell_index(self.roster[i].pos) == c
                &&& (i != dying ==> self.roster[i].living())
            }
        &&& forall|i: int|
            0 <= i < self.roster.len() && (#[trigger] self.roster[i]).living() ==> self.cells[cell_index(
                self.roster[i].pos,
            )] == Some(i as usize)
    }

    /// The tile at the cell that `p` wraps to.
    pub open spec fn tile_at(&self, p: (int, int)) -> Tile {
        self.tiles[cell_index(p)]
    }

    /// The creature standing on the cell that `p` wraps to.
    pub open spec fn occupant(&self, p: (int, int)) -> Option<usize> {
        self.cells[cell_index(p)]
    }

    /// The objects on the cell that `p` wraps to, oldest first.
    pub open spec fn objects_on(&self, p: (int, int)) -> Seq<Object> {
        self.objects[cell_index(p)]
    }

    /// Creature `id` replaced by `b`.
    pub open spec fn with_body(self, id: int, b: Body) -> WorldState {
        WorldState { roster: self.roster.update(id, b), ..self }
    }
}

impl View for GameMap {
    type V = WorldState;

    open spec fn view(&self) -> WorldState {
        WorldState {
            tiles: self.tiles@,
            cells: self.creatures@,
            objects: self.objects@.map_values(|v: Vec<Object>| v@),
            roster: self.roster@.map_values(|k: Creature| k@),
        }
    }
}

impl GameMap {
    /// The grid's invariant, on its state.
    pub open spec fn wf(&self) -> bool {
        self@.wf()
    }
}

/// Facts about flat cell indices: every pair wraps to a cell in range, and a pair on
/// the grid is its own wrap.
pub proof fn lemma_cell_index(p: (int, int))
    ensures
        0 <= cell_index(p) < cell_count(),
        on_grid(wrapped(p)),
        on_grid(p) ==> wrapped(p) == p,
{
    assert(0 <= cell_index(p) < cell_count()) by (nonlinear_arith)
        requires
            0 <= wrapped(p).0 < MAP_WIDTH as int,
            0 <= wrapped(p).1 < MAP_HEIGHT as int,
            cell_index(p) == wrapped(p).0 * (MAP_HEIGHT as int) + wrapped(p).1,
            cell_count() == 1024,
    ;
    if on_grid(p) {
        vstd::arithmetic::div_mod::lemma_small_mod(p.0 as nat, MAP_WIDTH as nat);
        vstd::arithmetic::div_mod::lemma_small_mod(p.1 as nat, MAP_HEIGHT as nat);
    }
}

/// Two pairs on the grid share a cell index only if they are equal.
pub proof fn lemma_cell_index_injective(p: (int, int), q: (int, int))
    requires
        on_grid(p),
        on_grid(q),
        cell_index(p) == cell_index(q),
    ensures
        p == q,
{
    lemma_cell_index(p);
    lemma_cell_index(q);
    vstd::arithmetic::div_mod::lemma_fundamental_div_mod_converse(
        cell_index(p), MAP_HEIGHT as int, p.0, p.1);
    vstd::arithmetic::div_mod::lemma_fundamental_div_mod_converse(
        cell_index(q), MAP_HEIGHT as int, q.0, q.1);
}

/// The flat index of the cell that `pos` wraps to.
pub fn cell_of(pos: Position) -> (r: usize)
    ensures
        r == cell_index(pos@),
        r < cell_count(),
{
    proof {
        lemma_cell_index(pos@);
    }
    let x = crate::hex::modulo(pos.x, MAP_WIDTH as i64) as usize;
    let y = crate::hex::modulo(pos.y, MAP_HEIGHT as i64) as usize;
    x * MAP_HEIGHT + y
}

/// The state of a fresh creature at `pos` facing `dir`.
pub open spec fn newborn(pos: (int, int), dir: Direction, controller: Controller) -> Body {
    Body {
        pos,
        dir,
        last_hit_time: INITIAL_HIT_TIME as int,
        life: INITIAL_LIFE as int,
        controller,
        action: None,
        pre: 0,
        post: 0,
        visible: Seq::new(cell_count() as nat, |c: int| false),
        known: Seq::new(cell_count() as nat, |c: int| false),
    }
}

/// The tile drawn for cell `i` by a generator started in state `s0`: a wall when its
/// `i + 1`-th output is a multiple of three.
pub open spec fn drawn_tile(s0: int, i: int) -> Tile {
    if drawn(s0, i + 1) % 3 == 0 {
        Tile::WALL
    } else {
        Tile::FLOOR
    }
}

/// A grid of `tile` everywhere, with no creature and no object.
pub open spec fn blank_world(tile: Tile) -> WorldState {
    WorldState {
        tiles: Seq::new(cell_count() as nat, |c: int| tile),
        cells: Seq::new(cell_count() as nat, |c: int| None),
        objects: Seq::new(cell_count() as nat, |c: int| Seq::empty()),
        roster: Seq::empty(),
    }
}

/// The state after a new creature is placed on the cell that `p` wraps to, where the
/// cell is free and not a wall.
pub open spec fn spawned(s: WorldState, p: (int, int), dir: Direction, controller: Controller) -> WorldState {
    WorldState {
        cells: s.cells.update(cell_index(p), Some(s.roster.len() as usize)),
        roster: s.roster.push(newborn(wrapped(p), dir, controller)),
        ..s
    }
}

/// The state after `spawn_object`: `obj` on top of the pile at `p` unless it is a wall.
pub open spec fn object_spawned(s: WorldState, p: (int, int), obj: Object) -> WorldState {
    if s.tile_at(p) == Tile::WALL {
        s
    } else {
        WorldState {
            objects: s.objects.update(cell_index(p), s.objects_on(p).push(obj)),
            ..s
        }
    }
}

impl Creature {
    /// A fresh creature at `position` facing `direction`: full life, nothing scheduled,
    /// nothing seen or known yet.
    pub fn new(position: Position, direction: Direction, controller: Controller) -> (r: Creature)
        requires
            on_grid(position@),
        ensures
            r@ == newborn(position@, direction, controller),
            r@.wf(),
            r@.sight_known(),
    {
        let r = Creature {
            pos: position,
            dir: direction,
            last_hit_time: INITIAL_HIT_TIME,
            life: INITIAL_LIFE,
            controller,
            action: None,
            pre_action_ticks: 0,
            post_action_ticks: 0,
            map_visible: vec![false; MAP_WIDTH * MAP_HEIGHT],
            map_known: vec![false; MAP_WIDTH * MAP_HEIGHT],
        };
        assert(r.map_visible@ =~= newborn(position@, direction, controller).visible);
        assert(r.map_known@ =~= newborn(position@, direction, controller).known);
        r
    }
}

impl GameMap {
    /// A grid with every cell made of `tile`, no creature and no object.
    pub fn filled(tile: Tile) -> (r: GameMap)
        ensures
            r.wf(),
            r@ == blank_world(tile),
    {
        let n = MAP_WIDTH * MAP_HEIGHT;
        let mut objects: Vec<Vec<Object>> = Vec::new();
        let mut i: usize = 0;
        while i < n
            invariant
                n == cell_count(),
                i <= n,
                objects@.len() == i,
                forall|c: int| 0 <= c < i ==> (#[trigger] objects@[c])@.len() == 0,
            decreases n - i,
        {
            objects.push(Vec::new());
            i = i + 1;
        }
        let r = GameMap { tiles: vec![tile; n], creatures: vec![None; n], objects, roster: Vec::new() };
        assert forall|c: int| 0 <= c < cell_count() implies r@.objects[c] == blank_world(
            tile,
        ).objects[c] by {
            assert(r@.objects[c] =~= Seq::<Object>::empty());
        }
        assert(r@.objects =~= blank_world(tile).objects);
        assert(r@.tiles =~= blank_world(tile).tiles);
        assert(r@.cells =~= blank_world(tile).cells);
        assert(r@.roster =~= blank_world(tile).roster);
        r
    }

    /// A grid whose cells are each a wall with probability one third: cell `i` (by flat
    /// index) takes the `i + 1`-th draw of `rng`. No creature and no object.
    pub fn new(rng: &mut Rng) -> (r: GameMap)
        ensures
            r.wf(),
            r@.roster.len() == 0,
            r@.cells == blank_world(Tile::FLOOR).cells,
            r@.objects == blank_world(Tile::FLOOR).objects,
            r@.tiles == Seq::new(cell_count() as nat, |i: int| drawn_tile(old(rng).state as int, i)),
            final(rng).state == advanced(old(rng).state as int, cell_count()),
    {
        let mut map = GameMap::filled(Tile::FLOOR);
        let n = MAP_WIDTH * MAP_HEIGHT;
        let ghost s0 = rng.state as int;
        proof {
            lemma_advance(s0, 0);
            vstd::arithmetic::div_mod::lemma_small_mod(rng.state as nat, 0x1_0000_0000_0000_0000nat);
        }
        let mut i: usize = 0;
        while i < n
            invariant
                n == cell_count(),
                i <= n,
                map.wf(),
                map@.roster.len() == 0,
                map@.cells == blank_world(Tile::FLOOR).cells,
                map@.objects == blank_world(Tile::FLOOR).objects,
                rng.state == advanced(s0, i as int),
                forall|c: int| 0 <= c < i ==> #[trigger] map@.tiles[c] == drawn_tile(s0, c),
                forall|c: int| i <= c < n ==> #[trigger] map@.tiles[c] == Tile::FLOOR,
            decreases n - i,
        {
            proof {
                lemma_advance(s0, i as int);
            }
            if rng.gen_int_range(0, 3) == 0 {
                map.tiles.set(i, Tile::WALL);
            }
            assert(map@.roster =~= blank_world(Tile::FLOOR).roster);
            i = i + 1;
        }
        assert(map@.tiles =~= Seq::new(cell_count() as nat, |i: int| drawn_tile(s0, i)));
        map
    }

    /// Makes the cell that `pos` wraps to into `tile`.
    pub fn set_tile(&mut self, pos: Position, tile: Tile)
        requires
            old(self).wf(),
        ensures
            final(self).wf(),
            final(self)@ == (WorldState { tiles: old(self)@.tiles.update(cell_index(pos@), tile), ..old(self)@ }),
    {
        let c = cell_of(pos);
        self.tiles.set(c, tile);
        assert(self@.roster =~= old(self)@.roster);
        assert(self@.objects =~= old(self)@.objects);
    }

    /// The pair that `pos` wraps to on the grid.
    pub fn wrap_position(&self, pos: Position) -> (r: Position)
        ensures
            r@ == wrapped(pos@),
            on_grid(r@),
    {
        proof {
            crate::hex::lemma_wrap_laws(pos@);
        }
        Position {
            x: crate::hex::modulo(pos.x, MAP_WIDTH as i64),
            y: crate::hex::modulo(pos.y, MAP_HEIGHT as i64),
        }
    }

    /// The tile at the cell that `pos` wraps to.
    pub fn at(&self, pos: Position) -> (r: Tile)
        requires
            self.wf(),
        ensures
            r == self@.tile_at(pos@),
    {
        self.tiles[cell_of(pos)]
    }

    /// The creature on the cell that `pos` wraps to, by roster index.
    pub fn creature_at(&self, pos: Position) -> (r: Option<usize>)
        requires
            self.wf(),
        ensures
            r == self@.occupant(pos@),
    {
        self.creatures[cell_of(pos)]
    }

    /// The objects on the cell that `pos` wraps to, oldest first.
    pub fn objects_at(&self, pos: Position) -> (r: &Vec<Object>)
        requires
            self.wf(),
        ensures
            r@ == self@.objects_on(pos@),
    {
        &self.objects[cell_of(pos)]
    }

    /// The grid is its own frame: a position stands for itself.
    pub fn translate(&self, pos: Position) -> (r: Position)
        ensures
            r == pos,
    {
        pos
    }

    /// Puts a new creature on the cell that `pos` wraps to, unless that cell is a wall
    /// or taken; returns its roster index.
    pub fn spawn_creature(&mut self, pos: Position, dir: Direction, controller: Controller) -> (r:
        Option<usize>)
        requires
            old(self).wf(),
            old(self).roster@.len() < usize::MAX,
        ensures
            final(self).wf(),
            r.is_some() <==> (old(self)@.tile_at(pos@) != Tile::WALL && old(self)@.occupant(
                pos@,
            ).is_none()),
            r.is_none() ==> final(self)@ == old(self)@,
            r.is_some() ==> r == Some(old(self)@.roster.len() as usize) && final(self)@ == spawned(
                old(self)@,
                pos@,
                dir,
                controller,
            ),
    {
        if !self.at(pos).is_passable() {
            return None;
        }
        let c = cell_of(pos);
        match self.creatures[c] {
            Some(_) => None,
            None => {
                let p = self.wrap_position(pos);
                proof {
                    lemma_cell_index(p@);
                    crate::hex::lemma_wrap_laws(pos@);
                }
                let id = self.roster.len();
                let k = Creature::new(p, dir, controller);
                self.roster.push(k);
                self.creatures.set(c, Some(id));
                proof {
                    let m = self@;
                    let o = old(self)@;
                    assert(m.roster =~= o.roster.push(newborn(wrapped(pos@), dir, controller)));
                    assert(m.objects =~= o.objects);
                    assert forall|i: int|
                        0 <= i < m.roster.len() && (#[trigger] m.roster[i]).living() implies m.cells[cell_index(m.roster[i].pos)] == Some(i as usize) by {
                        if i < id {
                            assert(o.roster[i] == m.roster[i]);
                        }
                    }
                    assert forall|cc: int|
                        0 <= cc < cell_count() && (#[trigger] m.cells[cc]).is_some() implies {
                            let i = m.cells[cc].unwrap() as int;
                            &&& 0 <= i < m.roster.len()
                            &&& cell_index(m.roster[i].pos) == cc
                            &&& (i != -1 ==> m.roster[i].living())
                        } by {
                        if cc != c {
                            let i = m.cells[cc].unwrap() as int;
                            assert(o.cells[cc] == m.cells[cc]);
                            assert(o.roster[i] == m.roster[i]);
                        }
                    }
                }
                Some(id)
            },
        }
    }

    /// Puts `obj` on top of the pile at the cell that `pos` wraps to, unless that cell
    /// is a wall.
    pub fn spawn_object(&mut self, pos: Position, obj: Object)
        requires
            old(self).wf(),
        ensures
            final(self).wf(),
            final(self)@ == object_spawned(old(self)@, pos@, obj),
    {
        if !self.at(pos).is_passable() {
            return;
        }
        let c = cell_of(pos);
        self.objects[c].push(obj);
        assert(self@.objects =~= object_spawned(old(self)@, pos@, obj).objects);
        assert(self@.roster =~= old(self)@.roster);
    }

    /// A position drawn uniformly from the grid: two draws, column then row.
    pub fn random_pos(&self, rng: &mut Rng) -> (r: Position)
        ensures
            on_grid(r@),
            r@ == (drawn(old(rng).state as int, 1) % (MAP_WIDTH as int), drawn(
                old(rng).state as int,
                2,
            ) % (MAP_HEIGHT as int)),
            final(rng).state == advanced(old(rng).state as int, 2),
    {
        proof {
            lemma_advance(old(rng).state as int, 0);
            lemma_advance(old(rng).state as int, 1);
            vstd::arithmetic::div_mod::lemma_small_mod(old(rng).state as nat, 0x1_0000_0000_0000_0000nat);
        }
        let x = rng.gen_int_range(0, MAP_WIDTH as i64);
        let y = rng.gen_int_range(0, MAP_HEIGHT as i64);
        Position { x, y }
    }
}

/// How many random cells `spawn_random_creature` tries before it scans the grid.
pub const SPAWN_ATTEMPTS: u64 = 1_000_000;

/// Whether the cell that `p` wraps to is floor with no creature on it.
pub open spec fn free_cell(s: WorldState, p: (int, int)) -> bool {
    s.tile_at(p) != Tile::WALL && s.occupant(p).is_none()
}

/// The pair with flat cell index `c`.
pub open spec fn cell_pos(c: int) -> (int, int) {
    (c / (MAP_HEIGHT as int), c % (MAP_HEIGHT as int))
}

/// The cell tried at random attempt `j` by a generator started in state `s0`: each
/// attempt draws a column, a row and a facing.
pub open spec fn attempt_pos(s0: int, j: int) -> (int, int) {
    (drawn(s0, 3 * j + 1) % (MAP_WIDTH as int), drawn(s0, 3 * j + 2) % (MAP_HEIGHT as int))
}

/// The facing drawn at random attempt `j`.
pub open spec fn attempt_dir(s0: int, j: int) -> Direction {
    crate::hex::dir_at(drawn(s0, 3 * j + 3) % 6)
}

/// Attempt `j` is the first random attempt that finds a free cell.
pub open spec fn first_free_attempt(s: WorldState, s0: int, j: int) -> bool {
    &&& 0 <= j < SPAWN_ATTEMPTS
    &&& free_cell(s, attempt_pos(s0, j))
    &&& forall|i: int| 0 <= i < j ==> !free_cell(s, #[trigger] attempt_pos(s0, i))
}

/// Cell `c` is the first free cell by flat index.
pub open spec fn first_free_cell(s: WorldState, c: int) -> bool {
    &&& 0 <= c < cell_count()
    &&& free_cell(s, cell_pos(c))
    &&& forall|i: int| 0 <= i < c ==> !free_cell(s, #[trigger] cell_pos(i))
}

/// Where `spawn_random_creature` puts its creature, from grid `o` and generator state
/// `s0` to grid `f` and generator state `g`: on the first free cell among the random
/// attempts, with that attempt's facing; or, when no attempt found one, on the first
/// free cell by flat index, facing north.
#[verifier::opaque]
pub open spec fn spawn_outcome(o: WorldState, s0: int, f: WorldState, g: int, controller: Controller) -> bool {
    ||| exists|j: int|
        #[trigger] first_free_attempt(o, s0, j) && f == spawned(
            o,
            attempt_pos(s0, j),
            attempt_dir(s0, j),
            controller,
        ) && g == advanced(s0, 3 * j + 3)
    ||| (forall|j: int| 0 <= j < SPAWN_ATTEMPTS ==> !free_cell(o, #[trigger] attempt_pos(s0, j)))
        && exists|c: int|
        #[trigger] first_free_cell(o, c) && f == spawned(o, cell_pos(c), Direction::N, controller)
}

/// A spawn on the first free random attempt is a `spawn_outcome`.
pub proof fn lemma_outcome_by_attempt(
    o: WorldState,
    s0: int,
    t: int,
    f: WorldState,
    g: int,
    controller: Controller,
)
    requires
        first_free_attempt(o, s0, t),
        f == spawned(o, attempt_pos(s0, t), attempt_dir(s0, t), controller),
        g == advanced(s0, 3 * t + 3),
    ensures
        spawn_outcome(o, s0, f, g, controller),
{
    reveal(spawn_outcome);
}

/// A spawn on the first free cell, after no random attempt found one, is a
/// `spawn_outcome`.
pub proof fn lemma_outcome_by_scan(o: WorldState, s0: int, c: int, f: WorldState, g: int, controller: Controller)
    requires
        forall|j: int| 0 <= j < SPAWN_ATTEMPTS ==> !free_cell(o, #[trigger] attempt_pos(s0, j)),
        first_free_cell(o, c),
        f == spawned(o, cell_pos(c), Direction::N, controller),
    ensures
        spawn_outcome(o, s0, f, g, controller),
{
    reveal(spawn_outcome);
}

/// The attempts after `t` attempts start where attempt `t` does.
pub proof fn lemma_attempt_shift(s0: int, t: int)
    ensures
        attempt_pos(advanced(s0, 3 * t), 0) == attempt_pos(s0, t),
        attempt_dir(advanced(s0, 3 * t), 0) == attempt_dir(s0, t),
{
    lemma_advance_by(s0, 3 * t, 1);
    lemma_advance_by(s0, 3 * t, 2);
    lemma_advance_by(s0, 3 * t, 3);
}

/// `cell_pos` lies on the grid and has the flat index it came from.
pub proof fn lemma_cell_pos(c: int)
    requires
        0 <= c < cell_count(),
    ensures
        on_grid(cell_pos(c)),
        cell_index(cell_pos(c)) == c,
{
    vstd::arithmetic::div_mod::lemma_fundamental_div_mod(c, MAP_HEIGHT as int);
    vstd::arithmetic::div_mod::lemma_div_pos_is_pos(c, MAP_HEIGHT as int);
    vstd::arithmetic::div_mod::lemma_div_is_ordered(c, cell_count() - 1, MAP_HEIGHT as int);
    lemma_cell_index(cell_pos(c));
}

impl GameMap {
    /// One random attempt: draws a cell and a facing, and spawns there if the cell is
    /// free.
    fn spawn_attempt(&mut self, rng: &mut Rng, controller: Controller) -> (r: Option<usize>)
        requires
            old(self).wf(),
            old(self).roster@.len() < usize::MAX,
        ensures
            final(self).wf(),
            final(rng).state == advanced(old(rng).state as int, 3),
            r.is_some() <==> free_cell(old(self)@, attempt_pos(old(rng).state as int, 0)),
            r.is_none() ==> final(self)@ == old(self)@,
            r.is_some() ==> r == Some(old(self)@.roster.len() as usize) && final(self)@ == spawned(
                old(self)@,
                attempt_pos(old(rng).state as int, 0),
                attempt_dir(old(rng).state as int, 0),
                controller,
            ),
    {
        let ghost s0 = rng.state as int;
        proof {
            lemma_advance(s0, 2);
            lemma_advance_by(s0, 0, 2);
            vstd::arithmetic::div_mod::lemma_small_mod(rng.state as nat, 0x1_0000_0000_0000_0000nat);
            lemma_advance(s0, 0);
        }
        let pos = self.random_pos(rng);
        let roll = rng.gen_int_range(0, 6);
        let dir = Direction::N.turn_by_int(roll);
        assert(pos@ == attempt_pos(s0, 0));
        assert(dir == attempt_dir(s0, 0));
        self.spawn_creature(pos, dir, controller)
    }

    /// Puts a new creature on a free floor cell. It tries up to `SPAWN_ATTEMPTS` random
    /// cells, each with a random facing, and takes the first free one; if none was free
    /// it takes the first free cell by flat index, facing north. Fails (`None`, grid
    /// unchanged) only when no floor cell is free.
    pub fn spawn_random_creature(&mut self, rng: &mut Rng, controller: Controller) -> (r: Option<
        usize,
    >)
        requires
            old(self).wf(),
            old(self).roster@.len() < usize::MAX,
        ensures
            final(self).wf(),
            r.is_some() <==> exists|p: (int, int)| on_grid(p) && #[trigger] free_cell(old(self)@, p),
            r.is_none() ==> final(self)@ == old(self)@,
            r.is_some() ==> r == Some(old(self)@.roster.len() as usize),
            r.is_some() ==> spawn_outcome(
                old(self)@,
                old(rng).state as int,
                final(self)@,
                final(rng).state as int,
                controller,
            ),
    {
        let ghost s0 = rng.state as int;
        proof {
            lemma_advance(s0, 0);
            vstd::arithmetic::div_mod::lemma_small_mod(rng.state as nat, 0x1_0000_0000_0000_0000nat);
        }
        let mut tries: u64 = 0;
        while tries < SPAWN_ATTEMPTS
            invariant
                self.wf(),
                self@ == old(self)@,
                self.roster@.len() < usize::MAX,
                s0 == old(rng).state as int,
                rng.state == advanced(s0, 3 * tries),
                forall|i: int| 0 <= i < tries ==> !free_cell(old(self)@, #[trigger] attempt_pos(s0, i)),
            decreases SPAWN_ATTEMPTS - tries,
        {
            let ghost t = tries as int;
            proof {
                lemma_attempt_shift(s0, t);
            }
            match self.spawn_attempt(rng, controller) {
                Some(id) => {
                    proof {
                        lemma_advance_by(s0, 3 * t, 3);
                        assert(first_free_attempt(old(self)@, s0, t));
                        assert(on_grid(attempt_pos(s0, t)));
                        lemma_outcome_by_attempt(old(self)@, s0, t, self@, rng.state as int, controller);
                    }
                    return Some(id);
                },
                None => {},
            }
            proof {
                lemma_advance_by(s0, 3 * t, 3);
            }
            tries = tries + 1;
        }
        let r = self.spawn_first_free(controller);
        proof {
            if r.is_some() {
                let c = choose|c: int| #[trigger] first_free_cell(old(self)@, c) && self@ == spawned(old(self)@, cell_pos(c), Direction::N, controller);
                lemma_cell_pos(c);
                assert(on_grid(cell_pos(c)) && free_cell(old(self)@, cell_pos(c)));
                lemma_outcome_by_scan(old(self)@, s0, c, self@, rng.state as int, controller);
            }
        }
        r
    }

    /// Puts a new creature facing north on the first free floor cell by flat index.
    fn spawn_first_free(&mut self, controller: Controller) -> (r: Option<usize>)
        requires
            old(self).wf(),
            old(self).roster@.len() < usize::MAX,
        ensures
            final(self).wf(),
            r.is_none() ==> final(self)@ == old(self)@ && forall|p: (int, int)|
                on_grid(p) ==> !#[trigger] free_cell(old(self)@, p),
            r.is_some() ==> r == Some(old(self)@.roster.len() as usize) && exists|c: int|
                #[trigger] first_free_cell(old(self)@, c) && final(self)@ == spawned(
                    old(self)@,
                    cell_pos(c),
                    Direction::N,
                    controller,
                ),
    {
        let n = MAP_WIDTH * MAP_HEIGHT;
        let mut c: usize = 0;
        while c < n
            invariant
                n == cell_count(),
                c <= n,
                self.wf(),
                self@ == old(self)@,
                self.roster@.len() < usize::MAX,
                forall|i: int| 0 <= i < c ==> !free_cell(old(self)@, #[trigger] cell_pos(i)),
            decreases n - c,
        {
            let p = Position { x: (c / MAP_HEIGHT) as i64, y: (c % MAP_HEIGHT) as i64 };
            proof {
                lemma_cell_pos(c as int);
            }
            assert(p@ == cell_pos(c as int));
            match self.spawn_creature(p, Direction::N, controller) {
                Some(id) => {
                    proof {
                        assert(first_free_cell(old(self)@, c as int));
                        assert(wrapped(p@) == p@);
                    }
                    return Some(id);
                },
                None => {},
            }
            c = c + 1;
        }
        proof {
            assert forall|p: (int, int)| on_grid(p) implies !#[trigger] free_cell(old(self)@, p) by {
                lemma_cell_index(p);
                let k = cell_index(p);
                lemma_cell_pos(k);
                assert(!free_cell(old(self)@, cell_pos(k)));
            }
        }
        None
    }

    /// The roster indices of the creatures on the grid, by cell index.
    pub fn creature_ids(&self) -> (r: Vec<usize>)
        requires
            self.wf(),
        ensures
            forall|k: int| 0 <= k < r@.len() ==> self@.cells.contains(Some(#[trigger] r@[k])),
            forall|c: int|
                0 <= c < cell_count() && (#[trigger] self@.cells[c]).is_some() ==> r@.contains(
                    self@.cells[c].unwrap(),
                ),
    {
        let mut r: Vec<usize> = Vec::new();
        let mut c: usize = 0;
        while c < self.creatures.len()
            invariant
                self.wf(),
                c <= cell_count(),
                forall|k: int| 0 <= k < r@.len() ==> self@.cells.contains(Some(#[trigger] r@[k])),
                forall|cc: int|
                    0 <= cc < c && (#[trigger] self@.cells[cc]).is_some() ==> r@.contains(
                        self@.cells[cc].unwrap(),
                    ),
            decreases cell_count() - c,
        {
            match self.creatures[c] {
                Some(id) => {
                    assert(self@.cells[c as int] == Some(id));
                    let ghost r0 = r@;
                    r.push(id);
                    assert(r@[r@.len() - 1] == id);
                    assert forall|cc: int|
                        0 <= cc < c && (#[trigger] self@.cells[cc]).is_some() implies r@.contains(
                            self@.cells[cc].unwrap(),
                        ) by {
                        let w = choose|w: int| 0 <= w < r0.len() && r0[w] == self@.cells[cc].unwrap();
                        assert(r@[w] == r0[w]);
                    }
                },
                None => {},
            }
            c = c + 1;
        }
        r
    }
}

} // verus!
