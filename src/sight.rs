use crate::hex::{
    adjacent, cell_count, cell_index, turned, wrapped, Direction, Position, RelativeDir,
    MAP_HEIGHT, MAP_WIDTH,
};
use crate::world::{
    Action, GameMap, WorldState,
    cell_of, lemma_cell_index, lemma_cell_index_injective, Body, Creature, Tile, PLAYER_VIEW,
};
use vstd::prelude::*;

verus! {

/// The directions the sight fan spreads into from a cell, given the creature's facing
/// `main`, the direction `dir` it arrived by and the one before, `pdir`.
pub open spec fn fan(main: Direction, dir: Option<Direction>, pdir: Option<Direction>) -> Seq<
    Direction,
> {
    match (dir, pdir) {
        (Some(d), Some(p)) => if d == p {
            seq![d]
        } else {
            seq![d, p]
        },
        (Some(d), None) => if main == d {
            seq![d, turned(d, RelativeDir::LEFT), turned(d, RelativeDir::RIGHT)]
        } else {
            seq![d, main]
        },
        _ => seq![main, turned(main, RelativeDir::LEFT), turned(main, RelativeDir::RIGHT)],
    }
}

/// Whether the sight flood started at `pos` with `depth` steps left lights cell `q`:
/// it lights `pos` itself and, if `pos` can be seen through, whatever its fan lights.
pub open spec fn lit(
    tiles: Seq<Tile>,
    pos: (int, int),
    main: Direction,
    dir: Option<Direction>,
    pdir: Option<Direction>,
    depth: nat,
    q: int,
) -> bool
    decreases depth, 1nat, 0nat,
{
    if depth == 0 {
        false
    } else {
        q == cell_index(pos) || (tiles[cell_index(pos)] != Tile::WALL && lit_fan(
            tiles,
            pos,
            main,
            dir,
            pdir,
            depth,
            fan(main, dir, pdir).len(),
            q,
        ))
    }
}

/// Whether one of the first `j` branches of the fan at `pos` lights `q`. The branch
/// along `d` goes one step to `adjacent(pos, d)`, arriving by `d`; past the first cell
/// it also takes `d` as its facing.
pub open spec fn lit_fan(
    tiles: Seq<Tile>,
    pos: (int, int),
    main: Direction,
    dir: Option<Direction>,
    pdir: Option<Direction>,
    depth: nat,
    j: nat,
    q: int,
) -> bool
    decreases depth, 0nat, j,
{
    if j == 0 || depth == 0 {
        false
    } else {
        let d = fan(main, dir, pdir)[j - 1];
        let next_main = if dir.is_some() {
            d
        } else {
            main
        };
        lit_fan(tiles, pos, main, dir, pdir, depth, (j - 1) as nat, q) || lit(
            tiles,
            adjacent(pos, d),
            next_main,
            Some(d),
            dir,
            (depth - 1) as nat,
            q,
        )
    }
}

/// One more branch of the fan lights what the branches before it light, and what the
/// flood along that branch lights.
pub proof fn lemma_fan_step(
    tiles: Seq<Tile>,
    pos: (int, int),
    main: Direction,
    dir: Option<Direction>,
    pdir: Option<Direction>,
    depth: nat,
    j: nat,
    q: int,
)
    requires
        depth > 0,
    ensures
        lit_fan(tiles, pos, main, dir, pdir, depth, j + 1, q) == (lit_fan(
            tiles,
            pos,
            main,
            dir,
            pdir,
            depth,
            j,
            q,
        ) || lit(
            tiles,
            adjacent(pos, fan(main, dir, pdir)[j as int]),
            if dir.is_some() {
                fan(main, dir, pdir)[j as int]
            } else {
                main
            },
            Some(fan(main, dir, pdir)[j as int]),
            dir,
            (depth - 1) as nat,
            q,
        )),
{
}

/// Coordinates that stay within `i64` for `depth` more steps of the flood.
pub open spec fn flood_room(p: (int, int), depth: int) -> bool {
    &&& 0 <= depth <= 0x1000
    &&& -0x1000_0000 + depth <= p.0 <= 0x1000_0000 - depth
    &&& -0x1000_0000 + depth <= p.1 <= 0x1000_0000 - depth
}

/// The fan of directions, as `fan` gives it.
fn fan_of(main: Direction, dir: Option<Direction>, pdir: Option<Direction>) -> (r: Vec<Direction>)
    ensures
        r@ == fan(main, dir, pdir),
{
    match (dir, pdir) {
        (Some(d), Some(p)) => {
            if d == p {
                vec![d]
            } else {
                vec![d, p]
            }
        },
        (Some(d), None) => {
            if main == d {
                vec![d, d.turn(RelativeDir::LEFT), d.turn(RelativeDir::RIGHT)]
            } else {
                vec![d, main]
            }
        },
        _ => vec![main, main.turn(RelativeDir::LEFT), main.turn(RelativeDir::RIGHT)],
    }
}

impl Creature {
    /// Floods sight from `pos` for `depth` steps, marking each lit cell seen and known.
    fn do_view(
        &mut self,
        tiles: &Vec<Tile>,
        pos: Position,
        main_dir: Direction,
        dir: Option<Direction>,
        pdir: Option<Direction>,
        depth: u64,
    )
        requires
            old(self)@.wf(),
            tiles@.len() == cell_count(),
            flood_room(pos@, depth as int),
        ensures
            final(self)@ == (Body {
                visible: final(self)@.visible,
                known: final(self)@.known,
                ..old(self)@
            }),
            final(self)@.wf(),
            forall|q: int|
                0 <= q < cell_count() ==> #[trigger] final(self)@.visible[q] == (old(self)@.visible[q]
                    || lit(tiles@, pos@, main_dir, dir, pdir, depth as nat, q)),
            forall|q: int|
                0 <= q < cell_count() ==> #[trigger] final(self)@.known[q] == (old(self)@.known[q]
                    || lit(tiles@, pos@, main_dir, dir, pdir, depth as nat, q)),
        decreases depth,
    {
        if depth == 0 {
            return;
        }
        self.mark_visible(pos);
        self.mark_known(pos);
        let neighbors = fan_of(main_dir, dir, pdir);
        let ghost d0 = depth as nat;
        if tiles[cell_of(pos)].can_see_through() {
            let mut j: usize = 0;
            while j < neighbors.len()
                invariant
                    self@ == (Body { visible: self@.visible, known: self@.known, ..old(self)@ }),
                    self@.wf(),
                    tiles@.len() == cell_count(),
                    flood_room(pos@, depth as int),
                    depth > 0,
                    d0 == depth as nat,
                    neighbors@ == fan(main_dir, dir, pdir),
                    j <= neighbors@.len(),
                    tiles@[cell_index(pos@)] != Tile::WALL,
                    forall|q: int|
                        0 <= q < cell_count() ==> #[trigger] self@.visible[q] == (old(self)@.visible[q]
                            || q == cell_index(pos@) || lit_fan(tiles@, pos@, main_dir, dir, pdir, d0, j as nat, q)),
                    forall|q: int|
                        0 <= q < cell_count() ==> #[trigger] self@.known[q] == (old(self)@.known[q]
                            || q == cell_index(pos@) || lit_fan(tiles@, pos@, main_dir, dir, pdir, d0, j as nat, q)),
                decreases neighbors@.len() - j,
            {
                let d = neighbors[j];
                let n = pos.neighbor(d);
                match dir {
                    Some(_) => {
                        self.do_view(tiles, n, d, Some(d), dir, depth - 1);
                    },
                    None => {
                        self.do_view(tiles, n, main_dir, Some(d), dir, depth - 1);
                    },
                }
                proof {
                    assert(neighbors@[j as int] == d);
                    assert forall|q: int| 0 <= q < cell_count() implies lit_fan(
                        tiles@,
                        pos@,
                        main_dir,
                        dir,
                        pdir,
                        d0,
                        (j + 1) as nat,
                        q,
                    ) == (lit_fan(tiles@, pos@, main_dir, dir, pdir, d0, j as nat, q) || lit(
                        tiles@,
                        n@,
                        if dir.is_some() {
                            d
                        } else {
                            main_dir
                        },
                        Some(d),
                        dir,
                        (d0 - 1) as nat,
                        q,
                    )) by {
                        lemma_fan_step(tiles@, pos@, main_dir, dir, pdir, d0, j as nat, q);
                    }
                }
                j = j + 1;
            }
        }
        proof {
            assert forall|q: int| 0 <= q < cell_count() implies #[trigger] self@.visible[q] == (old(self)@.visible[q]
                || lit(tiles@, pos@, main_dir, dir, pdir, depth as nat, q)) by {
                assert(lit(tiles@, pos@, main_dir, dir, pdir, depth as nat, q) == (q == cell_index(pos@)
                    || (tiles@[cell_index(pos@)] != Tile::WALL && lit_fan(tiles@, pos@, main_dir, dir, pdir, d0, fan(main_dir, dir, pdir).len(), q))));
            }
            assert forall|q: int| 0 <= q < cell_count() implies #[trigger] self@.known[q] == (old(self)@.known[q]
                || lit(tiles@, pos@, main_dir, dir, pdir, depth as nat, q)) by {
                assert(lit(tiles@, pos@, main_dir, dir, pdir, depth as nat, q) == (q == cell_index(pos@)
                    || (tiles@[cell_index(pos@)] != Tile::WALL && lit_fan(tiles@, pos@, main_dir, dir, pdir, d0, fan(main_dir, dir, pdir).len(), q))));
            }
        }
    }
}

/// Whether a creature in state `b` sees cell `q` after a fresh sight flood: the flood
/// starts at its cell, facing its way, with `PLAYER_VIEW` steps.
pub open spec fn in_sight(tiles: Seq<Tile>, b: Body, q: int) -> bool {
    lit(tiles, b.pos, b.dir, None, None, PLAYER_VIEW as nat, q)
}

impl Creature {
    /// Recomputes what the creature sees: the seen cells become exactly those its sight
    /// flood lights, and those are added to the known cells.
    pub fn update_visibility(&mut self, tiles: &Vec<Tile>)
        requires
            old(self)@.wf(),
            tiles@.len() == cell_count(),
        ensures
            final(self)@ == (Body {
                visible: final(self)@.visible,
                known: final(self)@.known,
                ..old(self)@
            }),
            final(self)@.wf(),
            forall|q: int|
                0 <= q < cell_count() ==> #[trigger] final(self)@.visible[q] == in_sight(
                    tiles@,
                    old(self)@,
                    q,
                ),
            forall|q: int|
                0 <= q < cell_count() ==> #[trigger] final(self)@.known[q] == (old(self)@.known[q]
                    || in_sight(tiles@, old(self)@, q)),
            final(self)@.sight_known(),
    {
        self.map_visible = vec![false; crate::hex::MAP_WIDTH * crate::hex::MAP_HEIGHT];
        let position = self.pos;
        let direction = self.dir;
        self.do_view(tiles, position, direction, None, None, PLAYER_VIEW as u64);
    }
}

/// Whether cell `q` can be reached from `p` in at most `k` steps, each step leaving a
/// cell that can be seen through.
pub open spec fn near(tiles: Seq<Tile>, p: (int, int), q: int, k: nat) -> bool
    decreases k,
{
    q == cell_index(p) || (k > 0 && tiles[cell_index(p)] != Tile::WALL && {
        let k1 = (k - 1) as nat;
        ||| near(tiles, adjacent(p, Direction::N), q, k1)
        ||| near(tiles, adjacent(p, Direction::NE), q, k1)
        ||| near(tiles, adjacent(p, Direction::SE), q, k1)
        ||| near(tiles, adjacent(p, Direction::S), q, k1)
        ||| near(tiles, adjacent(p, Direction::SW), q, k1)
        ||| near(tiles, adjacent(p, Direction::NW), q, k1)
    })
}

/// A cell lit by a flood with `depth` steps is reachable in `depth - 1` steps.
pub proof fn lemma_lit_near(
    tiles: Seq<Tile>,
    pos: (int, int),
    main: Direction,
    dir: Option<Direction>,
    pdir: Option<Direction>,
    depth: nat,
    q: int,
)
    requires
        lit(tiles, pos, main, dir, pdir, depth, q),
    ensures
        depth > 0,
        near(tiles, pos, q, (depth - 1) as nat),
    decreases depth, 1nat, 0nat,
{
    if q != cell_index(pos) {
        lemma_fan_near(tiles, pos, main, dir, pdir, depth, fan(main, dir, pdir).len(), q);
        let k = (depth - 1) as nat;
        let d = choose|d: Direction| #[trigger] near(tiles, adjacent(pos, d), q, (depth - 2) as nat);
        assert((k - 1) as nat == (depth - 2) as nat);
        assert(near(tiles, adjacent(pos, d), q, (k - 1) as nat));
    }
}

/// A cell lit by one of the first `j` fan branches is reachable from a neighbour of
/// `pos` in `depth - 2` steps.
pub proof fn lemma_fan_near(
    tiles: Seq<Tile>,
    pos: (int, int),
    main: Direction,
    dir: Option<Direction>,
    pdir: Option<Direction>,
    depth: nat,
    j: nat,
    q: int,
)
    requires
        lit_fan(tiles, pos, main, dir, pdir, depth, j, q),
    ensures
        depth >= 2,
        exists|d: Direction| #[trigger] near(tiles, adjacent(pos, d), q, (depth - 2) as nat),
    decreases depth, 0nat, j,
{
    let d = fan(main, dir, pdir)[j - 1];
    let next_main = if dir.is_some() {
        d
    } else {
        main
    };
    if lit_fan(tiles, pos, main, dir, pdir, depth, (j - 1) as nat, q) {
        lemma_fan_near(tiles, pos, main, dir, pdir, depth, (j - 1) as nat, q);
    } else {
        lemma_lit_near(tiles, adjacent(pos, d), next_main, Some(d), dir, (depth - 1) as nat, q);
        assert(near(tiles, adjacent(pos, d), q, (depth - 2) as nat));
    }
}

/// Every cell a creature sees after a sight flood lies within `PLAYER_VIEW - 1` steps
/// of it, through cells that can be seen through.
pub proof fn lemma_sight_near(tiles: Seq<Tile>, b: Body, q: int)
    requires
        in_sight(tiles, b, q),
    ensures
        near(tiles, b.pos, q, (PLAYER_VIEW - 1) as nat),
{
    lemma_lit_near(tiles, b.pos, b.dir, None, None, PLAYER_VIEW as nat, q);
}

/// `p` moved by offset `t`.
pub open spec fn shifted(p: (int, int), t: (int, int)) -> (int, int) {
    (p.0 + t.0, p.1 + t.1)
}

/// Two pairs share a cell exactly when they still do after the same shift.
pub proof fn lemma_cell_shift(a: (int, int), b: (int, int), t: (int, int))
    ensures
        (cell_index(a) == cell_index(b)) == (cell_index(shifted(a, t)) == cell_index(
            shifted(b, t),
        )),
{
    lemma_same_cell_shift(a, b, t);
    lemma_same_cell_shift(shifted(a, t), shifted(b, t), (-t.0, -t.1));
    assert(shifted(shifted(a, t), (-t.0, -t.1)) == a);
    assert(shifted(shifted(b, t), (-t.0, -t.1)) == b);
}

/// Pairs that share a cell still do after the same shift.
proof fn lemma_same_cell_shift(a: (int, int), b: (int, int), t: (int, int))
    ensures
        cell_index(a) == cell_index(b) ==> cell_index(shifted(a, t)) == cell_index(shifted(b, t)),
{
    if cell_index(a) == cell_index(b) {
        crate::hex::lemma_wrap_laws(a);
        crate::hex::lemma_wrap_laws(b);
        lemma_cell_index(wrapped(a));
        lemma_cell_index(wrapped(b));
        assert(cell_index(wrapped(a)) == cell_index(a));
        assert(cell_index(wrapped(b)) == cell_index(b));
        lemma_cell_index_injective(wrapped(a), wrapped(b));
        let w = MAP_WIDTH as int;
        let h = MAP_HEIGHT as int;
        vstd::arithmetic::div_mod::lemma_add_mod_noop(a.0, t.0, w);
        vstd::arithmetic::div_mod::lemma_add_mod_noop(b.0, t.0, w);
        vstd::arithmetic::div_mod::lemma_add_mod_noop(a.1, t.1, h);
        vstd::arithmetic::div_mod::lemma_add_mod_noop(b.1, t.1, h);
    }
}

/// On grids where the tile at `p` in `tiles` is the tile at `p` shifted by `t` in
/// `tiles2`, a flood started at `pos` lights `r` exactly when the same flood started at
/// the shifted `pos` lights the shifted `r`.
pub proof fn lemma_lit_shift(
    tiles: Seq<Tile>,
    tiles2: Seq<Tile>,
    t: (int, int),
    pos: (int, int),
    main: Direction,
    dir: Option<Direction>,
    pdir: Option<Direction>,
    depth: nat,
    r: (int, int),
)
    requires
        forall|p: (int, int)| #[trigger] tiles2[cell_index(shifted(p, t))] == tiles[cell_index(p)],
    ensures
        lit(tiles, pos, main, dir, pdir, depth, cell_index(r)) == lit(
            tiles2,
            shifted(pos, t),
            main,
            dir,
            pdir,
            depth,
            cell_index(shifted(r, t)),
        ),
    decreases depth, 1nat, 0nat,
{
    if depth > 0 {
        lemma_cell_shift(r, pos, t);
        assert(tiles2[cell_index(shifted(pos, t))] == tiles[cell_index(pos)]);
        lemma_fan_shift(tiles, tiles2, t, pos, main, dir, pdir, depth, fan(main, dir, pdir).len(), r);
    }
}

/// The shift law for the first `j` branches of a fan.
pub proof fn lemma_fan_shift(
    tiles: Seq<Tile>,
    tiles2: Seq<Tile>,
    t: (int, int),
    pos: (int, int),
    main: Direction,
    dir: Option<Direction>,
    pdir: Option<Direction>,
    depth: nat,
    j: nat,
    r: (int, int),
)
    requires
        forall|p: (int, int)| #[trigger] tiles2[cell_index(shifted(p, t))] == tiles[cell_index(p)],
    ensures
        lit_fan(tiles, pos, main, dir, pdir, depth, j, cell_index(r)) == lit_fan(
            tiles2,
            shifted(pos, t),
            main,
            dir,
            pdir,
            depth,
            j,
            cell_index(shifted(r, t)),
        ),
    decreases depth, 0nat, j,
{
    if j > 0 && depth > 0 {
        let d = fan(main, dir, pdir)[j - 1];
        let next_main = if dir.is_some() {
            d
        } else {
            main
        };
        lemma_fan_shift(tiles, tiles2, t, pos, main, dir, pdir, depth, (j - 1) as nat, r);
        lemma_lit_shift(
            tiles,
            tiles2,
            t,
            adjacent(pos, d),
            next_main,
            Some(d),
            dir,
            (depth - 1) as nat,
            r,
        );
        assert(adjacent(shifted(pos, t), d) == shifted(adjacent(pos, d), t));
    }
}

/// Two creatures facing the same way, on a grid that looks the same from both (for
/// instance two creatures placed symmetrically about the origin on an open grid), see
/// the same pattern of cells, shifted by the offset between them.
pub proof fn lemma_sight_shift(tiles: Seq<Tile>, a: Body, b: Body, r: (int, int))
    requires
        a.dir == b.dir,
        forall|p: (int, int)|
            #[trigger] tiles[cell_index(shifted(p, (b.pos.0 - a.pos.0, b.pos.1 - a.pos.1)))]
                == tiles[cell_index(p)],
    ensures
        in_sight(tiles, a, cell_index(r)) == in_sight(
            tiles,
            b,
            cell_index(shifted(r, (b.pos.0 - a.pos.0, b.pos.1 - a.pos.1))),
        ),
{
    let t = (b.pos.0 - a.pos.0, b.pos.1 - a.pos.1);
    lemma_lit_shift(tiles, tiles, t, a.pos, a.dir, None, None, PLAYER_VIEW as nat, r);
    assert(shifted(a.pos, t) == b.pos);
}

impl Creature {
    /// Whether the creature is idle and will ask its controller on its next tick.
    pub fn awaits_action(&self) -> (r: bool)
        ensures
            r == (self@.pre == 0 && self@.action.is_none() && self@.post == 0),
    {
        self.pre_action_ticks == 0 && self.action.is_none() && self.post_action_ticks == 0
    }
}

impl GameMap {
    /// One turn of the driver's pass for creature `id`: a dead creature is skipped;
    /// a living one ticks with `choice` as its controller's answer, and when an action
    /// took effect the sight of `player`, if alive, is recomputed. Returns whether an
    /// action took effect.
    pub fn advance(&mut self, id: usize, player: usize, choice: Action) -> (r: bool)
        requires
            old(self).wf(),
            id < old(self)@.roster.len(),
            player < old(self)@.roster.len(),
        ensures
            final(self).wf(),
            !old(self)@.roster[id as int].living() ==> !r && final(self)@ == old(self)@,
            old(self)@.roster[id as int].living() ==> {
                let t = crate::creature::ticked(old(self)@, id as int, choice);
                let redo = r && t.roster[player as int].living();
                &&& r == crate::creature::acts(old(self)@, id as int)
                &&& final(self)@.tiles == t.tiles
                &&& final(self)@.cells == t.cells
                &&& final(self)@.objects == t.objects
                &&& final(self)@.roster.len() == t.roster.len()
                &&& forall|j: int|
                    0 <= j < t.roster.len() && (j != player || !redo) ==> #[trigger] final(self)@.roster[j]
                        == t.roster[j]
                &&& redo ==> {
                    let b = t.roster[player as int];
                    let n = final(self)@.roster[player as int];
                    &&& n == (Body { visible: n.visible, known: n.known, ..b })
                    &&& forall|q: int|
                        0 <= q < cell_count() ==> #[trigger] n.visible[q] == in_sight(
                            t.tiles,
                            b,
                            q,
                        )
                    &&& forall|q: int|
                        0 <= q < cell_count() ==> #[trigger] n.known[q] == (b.known[q]
                            || in_sight(t.tiles, b, q))
                }
            },
    {
        if !self.roster[id].alive() {
            return false;
        }
        let redraw = Creature::tick(self, id, choice);
        if redraw && self.roster[player].alive() {
            proof {
                assert(self@.roster[player as int].wf());
            }
            let ghost s = self@;
            self.roster[player].update_visibility(&self.tiles);
            proof {
                let b = s.roster[player as int];
                let n = self@.roster[player as int];
                assert(self@.roster =~= s.roster.update(player as int, n));
                assert(self@.objects =~= s.objects);
                crate::creature::lemma_with_body_wf(s, player as int, n);
            }
        }
        redraw
    }
}

} // verus!
