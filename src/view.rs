use crate::hex::{Direction, Position};
use crate::world::{GameMap, Object, Tile, WorldState};
use vstd::prelude::*;

verus! {

/// The world coordinates of local position `l` in the frame whose origin is `o` and
/// whose forward is `dir`.
pub open spec fn frame_to_world(o: (int, int), dir: Direction, l: (int, int)) -> (int, int) {
    match dir {
        Direction::N => (o.0 + l.0, o.1 + l.1),
        Direction::S => (o.0 - l.0, o.1 - l.1),
        Direction::NW => (o.0 + l.1, o.1 + l.1 - l.0),
        Direction::SE => (o.0 - l.1, o.1 - l.1 + l.0),
        Direction::NE => (o.0 + l.0 - l.1, o.1 + l.0),
        Direction::SW => (o.0 - l.0 + l.1, o.1 - l.0),
    }
}

/// Coordinates small enough for frame arithmetic to stay within `i64`.
pub open spec fn small(p: (int, int)) -> bool {
    -0x1000_0000_0000_0000 <= p.0 <= 0x1000_0000_0000_0000 && -0x1000_0000_0000_0000 <= p.1
        <= 0x1000_0000_0000_0000
}

/// Reading the grid through a frame of reference.
pub trait MapView {
    /// The grid read through this view.
    spec fn grid(&self) -> WorldState;

    /// Whether local position `p` can be translated.
    spec fn frame_ok(&self, p: (int, int)) -> bool;

    /// The world position of local position `p`.
    spec fn to_world(&self, p: (int, int)) -> (int, int);

    fn at(&self, pos: Position) -> (r: Tile)
        requires
            self.grid().wf(),
            self.frame_ok(pos@),
        ensures
            r == self.grid().tile_at(self.to_world(pos@)),
    ;

    fn creature_at(&self, pos: Position) -> (r: Option<usize>)
        requires
            self.grid().wf(),
            self.frame_ok(pos@),
        ensures
            r == self.grid().occupant(self.to_world(pos@)),
    ;

    fn objects_at(&self, pos: Position) -> (r: &Vec<Object>)
        requires
            self.grid().wf(),
            self.frame_ok(pos@),
        ensures
            r@ == self.grid().objects_on(self.to_world(pos@)),
    ;

    fn translate(&self, pos: Position) -> (r: Position)
        requires
            self.frame_ok(pos@),
        ensures
            r@ == self.to_world(pos@),
    ;
}

impl MapView for GameMap {
    open spec fn grid(&self) -> WorldState {
        self@
    }

    open spec fn frame_ok(&self, p: (int, int)) -> bool {
        true
    }

    open spec fn to_world(&self, p: (int, int)) -> (int, int) {
        p
    }

    fn at(&self, pos: Position) -> (r: Tile) {
        GameMap::at(self, pos)
    }

    fn creature_at(&self, pos: Position) -> (r: Option<usize>) {
        GameMap::creature_at(self, pos)
    }

    fn objects_at(&self, pos: Position) -> (r: &Vec<Object>) {
        GameMap::objects_at(self, pos)
    }

    fn translate(&self, pos: Position) -> (r: Position) {
        GameMap::translate(self, pos)
    }
}

/// The grid as seen from `pos` facing `dir`: local (0, -1) is the cell ahead.
pub struct RelativeMap<'a> {
    pub map: &'a GameMap,
    pub pos: Position,
    pub dir: Direction,
}

impl<'a> RelativeMap<'a> {
    pub fn new(map: &'a GameMap, pos: Position, dir: Direction) -> (r: RelativeMap<'a>)
        ensures
            r.map == map,
            r.pos == pos,
            r.dir == dir,
    {
        RelativeMap { map, pos, dir }
    }

    /// The underlying grid.
    pub fn base(&self) -> (r: &'a GameMap)
        ensures
            r == self.map,
    {
        self.map
    }
}

impl<'a> MapView for RelativeMap<'a> {
    open spec fn grid(&self) -> WorldState {
        self.map@
    }

    open spec fn frame_ok(&self, p: (int, int)) -> bool {
        small(self.pos@) && small(p)
    }

    open spec fn to_world(&self, p: (int, int)) -> (int, int) {
        frame_to_world(self.pos@, self.dir, p)
    }

    fn at(&self, pos: Position) -> (r: Tile) {
        let p = self.translate(pos);
        self.map.at(p)
    }

    fn creature_at(&self, pos: Position) -> (r: Option<usize>) {
        let p = self.translate(pos);
        self.map.creature_at(p)
    }

    fn objects_at(&self, pos: Position) -> (r: &Vec<Object>) {
        let p = self.translate(pos);
        self.map.objects_at(p)
    }

    fn translate(&self, pos: Position) -> (r: Position) {
        match self.dir {
            Direction::N => Position { x: self.pos.x + pos.x, y: self.pos.y + pos.y },
            Direction::S => Position { x: self.pos.x - pos.x, y: self.pos.y - pos.y },
            Direction::NW => Position { x: self.pos.x + pos.y, y: self.pos.y + pos.y - pos.x },
            Direction::SE => Position { x: self.pos.x - pos.y, y: self.pos.y - pos.y + pos.x },
            Direction::NE => Position { x: self.pos.x + pos.x - pos.y, y: self.pos.y + pos.x },
            Direction::SW => Position { x: self.pos.x - pos.x + pos.y, y: self.pos.y - pos.x },
        }
    }
}

/// The tiles of the slanted rectangle reaching `rx` columns and `ry` rows either side of
/// `cp`, column by column, each column shifted down by half its offset (rounded down).
pub open spec fn vrect_at(cp: (int, int), rx: int, ry: int, k: int) -> (int, int) {
    let h = 2 * ry + 1;
    let vx = -rx + k / h;
    let vy = -ry + k % h;
    (cp.0 + vx, cp.1 + vy + vx / 2)
}

/// Every position of the slanted rectangle around `cp` with the tile `s` shows there.
pub fn each_in_vrect<T: MapView>(s: &T, cp: Position, rx: i64, ry: i64) -> (r: Vec<(Position, Tile)>)
    requires
        s.grid().wf(),
        0 <= rx <= 0x10000,
        0 <= ry <= 0x10000,
        -0x0800_0000_0000_0000 <= cp.x <= 0x0800_0000_0000_0000,
        -0x0800_0000_0000_0000 <= cp.y <= 0x0800_0000_0000_0000,
        forall|p: (int, int)| small(p) ==> #[trigger] s.frame_ok(p),
    ensures
        r@.len() == (2 * rx + 1) * (2 * ry + 1),
        forall|k: int|
            0 <= k < r@.len() ==> {
                &&& (#[trigger] r@[k]).0@ == vrect_at(cp@, rx as int, ry as int, k)
                &&& r@[k].1 == s.grid().tile_at(s.to_world(r@[k].0@))
            },
{
    let h = 2 * ry + 1;
    let mut r: Vec<(Position, Tile)> = Vec::new();
    let mut vx: i64 = -rx;
    while vx < rx + 1
        invariant
            s.grid().wf(),
            0 <= rx <= 0x10000,
            0 <= ry <= 0x10000,
            -0x0800_0000_0000_0000 <= cp.x <= 0x0800_0000_0000_0000,
            -0x0800_0000_0000_0000 <= cp.y <= 0x0800_0000_0000_0000,
            forall|p: (int, int)| small(p) ==> #[trigger] s.frame_ok(p),
            h == 2 * ry + 1,
            -rx <= vx <= rx + 1,
            r@.len() == (vx + rx) * h,
            forall|k: int|
                0 <= k < r@.len() ==> {
                    &&& (#[trigger] r@[k]).0@ == vrect_at(cp@, rx as int, ry as int, k)
                    &&& r@[k].1 == s.grid().tile_at(s.to_world(r@[k].0@))
                },
        decreases rx + 1 - vx,
    {
        let ghost col = vx + rx;
        let mut vy: i64 = -ry;
        while vy < ry + 1
            invariant
                s.grid().wf(),
                0 <= rx <= 0x10000,
                0 <= ry <= 0x10000,
                -0x0800_0000_0000_0000 <= cp.x <= 0x0800_0000_0000_0000,
                -0x0800_0000_0000_0000 <= cp.y <= 0x0800_0000_0000_0000,
                forall|p: (int, int)| small(p) ==> #[trigger] s.frame_ok(p),
                h == 2 * ry + 1,
                -rx <= vx < rx + 1,
                col == vx + rx,
                -ry <= vy <= ry + 1,
                r@.len() == col * h + (vy + ry),
                forall|k: int|
                    0 <= k < r@.len() ==> {
                        &&& (#[trigger] r@[k]).0@ == vrect_at(cp@, rx as int, ry as int, k)
                        &&& r@[k].1 == s.grid().tile_at(s.to_world(r@[k].0@))
                    },
            decreases ry + 1 - vy,
        {
            proof {
                vstd::arithmetic::div_mod::lemma_fundamental_div_mod_converse(
                    r@.len() as int, h as int, col, vy + ry);
            }
            let x = cp.x + vx;
            let half = if vx >= 0 { vx / 2 } else { -((-vx - 1) / 2) - 1 };
            assert(half == vx as int / 2) by {
                if vx < 0 {
                    vstd::arithmetic::div_mod::lemma_fundamental_div_mod(-vx as int - 1, 2);
                    vstd::arithmetic::div_mod::lemma_fundamental_div_mod(vx as int, 2);
                }
            }
            let y = cp.y + vy + half;
            let p = Position { x, y };
            assert(small(p@));
            assert(s.frame_ok(p@));
            let t = s.at(p);
            r.push((p, t));
            vy = vy + 1;
        }
        proof {
            assert((col + 1) * h == col * h + h) by (nonlinear_arith);
        }
        vx = vx + 1;
    }
    r
}

} // verus!
