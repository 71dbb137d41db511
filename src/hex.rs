use vstd::prelude::*;

verus! {

/// Width of the toroidal grid, in cells.
pub const MAP_WIDTH: usize = 32;

/// Height of the toroidal grid, in cells.
pub const MAP_HEIGHT: usize = 32;

/// Euclidean remainder of `x` by `m`: the result lies in `0..m`.
pub fn modulo(x: i64, m: i64) -> (r: i64)
    requires
        m > 0,
    ensures
        r == x % m,
        0 <= r < m,
{
    let um = m as u64;
    if x >= 0 {
        let r = (x as u64) % um;
        r as i64
    } else {
        let y = (-(x + 1)) as u64;
        let t = y % um;
        proof {
            let q = (y as int) / (m as int);
            assert(y as int == q * m + t) by (nonlinear_arith)
                requires q == (y as int) / (m as int), t == (y as int) % (m as int), m > 0;
            assert(x as int == (-q - 1) * m + (m - 1 - t)) by (nonlinear_arith)
                requires y as int == q * m + t, x as int == -(y as int) - 1;
            vstd::arithmetic::div_mod::lemma_fundamental_div_mod_converse(
                x as int, m as int, -q - 1, m - 1 - t);
        }
        m - 1 - (t as i64)
    }
}

/// One of the six cell directions, in clockwise order.
#[derive(Clone, Copy, PartialEq, Eq, Structural, Debug)]
pub enum Direction {
    N,
    NE,
    SE,
    S,
    SW,
    NW,
}

/// A direction taken relative to a creature's facing.
#[derive(Clone, Copy, PartialEq, Eq, Structural, Debug)]
pub enum RelativeDir {
    FORWARD,
    BACKWARD,
    RIGHT,
    LEFT,
}

/// The place of a direction in the clockwise cycle N, NE, SE, S, SW, NW.
pub open spec fn dir_index(d: Direction) -> int {
    match d {
        Direction::N => 0,
        Direction::NE => 1,
        Direction::SE => 2,
        Direction::S => 3,
        Direction::SW => 4,
        Direction::NW => 5,
    }
}

/// The direction at place `i` of the cycle, counted modulo six.
pub open spec fn dir_at(i: int) -> Direction {
    let k = i % 6;
    if k == 0 {
        Direction::N
    } else if k == 1 {
        Direction::NE
    } else if k == 2 {
        Direction::SE
    } else if k == 3 {
        Direction::S
    } else if k == 4 {
        Direction::SW
    } else {
        Direction::NW
    }
}

/// How many clockwise steps a relative direction stands for.
pub open spec fn rel_steps(rd: RelativeDir) -> int {
    match rd {
        RelativeDir::FORWARD => 0,
        RelativeDir::BACKWARD => 3,
        RelativeDir::RIGHT => 1,
        RelativeDir::LEFT => 5,
    }
}

/// `d` rotated clockwise by `k` steps.
pub open spec fn rotated(d: Direction, k: int) -> Direction {
    dir_at(dir_index(d) + k)
}

/// `d` rotated by a relative direction.
pub open spec fn turned(d: Direction, rd: RelativeDir) -> Direction {
    rotated(d, rel_steps(rd))
}

/// The coordinate offset of one step along a direction.
pub open spec fn dir_offset(d: Direction) -> (int, int) {
    match d {
        Direction::N => (0, -1),
        Direction::S => (0, 1),
        Direction::SW => (-1, 0),
        Direction::NE => (1, 0),
        Direction::NW => (-1, -1),
        Direction::SE => (1, 1),
    }
}

/// The cell next to `p` along `d`.
pub open spec fn adjacent(p: (int, int), d: Direction) -> (int, int) {
    (p.0 + dir_offset(d).0, p.1 + dir_offset(d).1)
}

/// Whether the offset from `b` to `a` is one of the six neighbour offsets.
pub open spec fn neighbors(a: (int, int), b: (int, int)) -> bool {
    let rx = a.0 - b.0;
    let ry = a.1 - b.1;
    (rx == 0 && (ry == -1 || ry == 1)) || (ry == 0 && (rx == -1 || rx == 1)) || (rx == -1 && ry
        == -1) || (rx == 1 && ry == 1)
}

/// A coordinate pair brought onto the grid, componentwise modulo its dimensions.
pub open spec fn wrapped(p: (int, int)) -> (int, int) {
    (p.0 % (MAP_WIDTH as int), p.1 % (MAP_HEIGHT as int))
}

/// The flat index of the cell that a coordinate pair wraps to.
pub open spec fn cell_index(p: (int, int)) -> int {
    wrapped(p).0 * (MAP_HEIGHT as int) + wrapped(p).1
}

/// Number of cells on the grid.
pub open spec fn cell_count() -> int {
    (MAP_WIDTH * MAP_HEIGHT) as int
}

/// A coordinate pair that already lies on the grid.
pub open spec fn on_grid(p: (int, int)) -> bool {
    0 <= p.0 < MAP_WIDTH && 0 <= p.1 < MAP_HEIGHT
}

impl Direction {
    /// Rotates by `i` clockwise steps, modulo six.
    pub fn turn_by_int(&self, i: i64) -> (r: Direction)
        ensures
            r == rotated(*self, i as int),
    {
        let k = modulo(i, 6);
        let s = self.to_uint() as i64;
        proof {
            vstd::arithmetic::div_mod::lemma_add_mod_noop(dir_index(*self), i as int, 6);
            vstd::arithmetic::div_mod::lemma_add_mod_noop(dir_index(*self), k as int, 6);
        }
        Direction::from_index(((s + k) % 6) as usize)
    }

    /// The direction at place `i` of the clockwise cycle.
    fn from_index(i: usize) -> (r: Direction)
        requires
            i < 6,
        ensures
            r == dir_at(i as int),
            dir_index(r) == i,
    {
        match i {
            0 => Direction::N,
            1 => Direction::NE,
            2 => Direction::SE,
            3 => Direction::S,
            4 => Direction::SW,
            _ => Direction::NW,
        }
    }

    /// Rotates by a relative direction.
    pub fn turn(&self, rd: RelativeDir) -> (r: Direction)
        ensures
            r == turned(*self, rd),
    {
        self.turn_by_int(rd.to_int())
    }

    /// Rotates in place by a relative direction.
    pub fn turn_mut(&mut self, rd: RelativeDir)
        ensures
            *final(self) == turned(*old(self), rd),
    {
        *self = self.turn(rd);
    }

    /// This direction as seen from a frame facing `dir`: the clockwise steps from `dir`.
    pub fn relative_to(&self, dir: Direction) -> (r: Direction)
        ensures
            r == dir_at(dir_index(*self) - dir_index(dir)),
            dir_index(r) == (dir_index(*self) - dir_index(dir)) % 6,
    {
        let a = self.to_uint();
        let b = dir.to_uint();
        let k = if a >= b { a - b } else { a + 6 - b };
        proof {
            vstd::arithmetic::div_mod::lemma_mod_add_multiples_vanish(
                dir_index(*self) - dir_index(dir), 6);
        }
        Direction::from_index(k)
    }

    /// The place of this direction in the clockwise cycle.
    pub fn to_uint(&self) -> (r: usize)
        ensures
            r == dir_index(*self),
            r < 6,
    {
        match self {
            Direction::N => 0,
            Direction::NE => 1,
            Direction::SE => 2,
            Direction::S => 3,
            Direction::SW => 4,
            Direction::NW => 5,
        }
    }
}

impl RelativeDir {
    /// Clockwise steps: FORWARD 0, RIGHT 1, BACKWARD 3, LEFT 5.
    pub fn to_int(&self) -> (r: i64)
        ensures
            r == rel_steps(*self),
    {
        match self {
            RelativeDir::FORWARD => 0,
            RelativeDir::BACKWARD => 3,
            RelativeDir::RIGHT => 1,
            RelativeDir::LEFT => 5,
        }
    }
}

/// A cell coordinate pair; unbounded in meaning, wrapped onto the grid when a cell is read.
#[derive(Clone, Copy, PartialEq, Eq, Structural, Debug)]
pub struct Position {
    pub x: i64,
    pub y: i64,
}

impl View for Position {
    type V = (int, int);

    open spec fn view(&self) -> (int, int) {
        (self.x as int, self.y as int)
    }
}

/// Coordinates small enough that a step in any direction stays within `i64`.
pub open spec fn steppable(p: (int, int)) -> bool {
    i64::MIN < p.0 < i64::MAX && i64::MIN < p.1 < i64::MAX
}

/// The `k`-th cell visited by `each_around`: rows from top to bottom, columns from left
/// to right, each column shifted down by half its distance from the centre (rounded down).
pub open spec fn around_at(c: (int, int), up: int, left: int, right: int, k: int) -> (int, int) {
    let w = left + right + 1;
    let vx = c.0 - left + k % w;
    let vy = c.1 - up + k / w;
    (vx, vy + (vx - c.0) / 2)
}

/// Extents and centre for which `each_around` can list its cells.
pub open spec fn around_fits(c: (int, int), up: int, down: int, left: int, right: int) -> bool {
    &&& 0 <= up <= 0x10000 && 0 <= down <= 0x10000
    &&& 0 <= left <= 0x10000 && 0 <= right <= 0x10000
    &&& -0x1000_0000_0000_0000 <= c.0 <= 0x1000_0000_0000_0000
    &&& -0x1000_0000_0000_0000 <= c.1 <= 0x1000_0000_0000_0000
}

/// Half of `d`, rounded down, as an arithmetic shift right by one gives it.
fn half_floor(d: i64) -> (r: i64)
    requires
        d > i64::MIN,
    ensures
        r == d as int / 2,
{
    if d >= 0 {
        d / 2
    } else {
        let r = -((-d - 1) / 2) - 1;
        assert(r == d as int / 2) by {
            vstd::arithmetic::div_mod::lemma_fundamental_div_mod(-d as int - 1, 2);
            vstd::arithmetic::div_mod::lemma_fundamental_div_mod(d as int, 2);
        }
        r
    }
}

impl Position {
    /// The offset from `pos` to this position.
    pub fn relative_to(&self, pos: Position) -> (r: Position)
        requires
            i64::MIN <= self.x - pos.x <= i64::MAX,
            i64::MIN <= self.y - pos.y <= i64::MAX,
        ensures
            r@ == (self.x - pos.x, self.y - pos.y),
    {
        Position { x: self.x - pos.x, y: self.y - pos.y }
    }

    /// Every cell of the slanted rectangle that reaches `up` rows above, `down` rows
    /// below, `left` columns left and `right` columns right of this position.
    pub fn each_around(&self, up: i64, down: i64, left: i64, right: i64) -> (r: Vec<Position>)
        requires
            around_fits(self@, up as int, down as int, left as int, right as int),
        ensures
            r@.len() == (up + down + 1) * (left + right + 1),
            forall|k: int|
                0 <= k < r@.len() ==> (#[trigger] r@[k])@ == around_at(
                    self@,
                    up as int,
                    left as int,
                    right as int,
                    k,
                ),
    {
        let w = left + right + 1;
        let mut r: Vec<Position> = Vec::new();
        let mut vy: i64 = self.y - up;
        while vy < self.y + down + 1
            invariant
                around_fits(self@, up as int, down as int, left as int, right as int),
                w == left + right + 1,
                self.y - up <= vy <= self.y + down + 1,
                r@.len() == (vy - (self.y - up)) * w,
                forall|k: int|
                    0 <= k < r@.len() ==> (#[trigger] r@[k])@ == around_at(
                        self@,
                        up as int,
                        left as int,
                        right as int,
                        k,
                    ),
            decreases self.y + down + 1 - vy,
        {
            let mut vx: i64 = self.x - left;
            let ghost row = vy - (self.y - up);
            while vx < self.x + right + 1
                invariant
                    around_fits(self@, up as int, down as int, left as int, right as int),
                    w == left + right + 1,
                    self.y - up <= vy < self.y + down + 1,
                    row == vy - (self.y - up),
                    self.x - left <= vx <= self.x + right + 1,
                    r@.len() == row * w + (vx - (self.x - left)),
                    forall|k: int|
                        0 <= k < r@.len() ==> (#[trigger] r@[k])@ == around_at(
                            self@,
                            up as int,
                            left as int,
                            right as int,
                            k,
                        ),
                decreases self.x + right + 1 - vx,
            {
                let ghost k = r@.len() as int;
                let ghost col = vx - (self.x - left);
                proof {
                    vstd::arithmetic::div_mod::lemma_fundamental_div_mod_converse(
                        k, w as int, row, col);
                }
                let y = vy + half_floor(vx - self.x);
                r.push(Position { x: vx, y });
                vx = vx + 1;
            }
            proof {
                assert((row + 1) * w == row * w + w) by (nonlinear_arith);
            }
            vy = vy + 1;
        }
        proof {
            assert((vy - (self.y - up)) * w == (up + down + 1) * (left + right + 1));
        }
        r
    }

    /// Whether `position` is one of the six cells next to this one.
    pub fn is_neighbor(&self, position: Position) -> (r: bool)
        ensures
            r == neighbors(self@, position@),
    {
        let rx = self.x as i128 - position.x as i128;
        let ry = self.y as i128 - position.y as i128;
        match (rx, ry) {
            (0, -1) => true,
            (0, 1) => true,
            (-1, 0) => true,
            (1, 0) => true,
            (-1, -1) => true,
            (1, 1) => true,
            _ => false,
        }
    }

    /// The cell next to this one along `direction`.
    pub fn neighbor(&self, direction: Direction) -> (r: Position)
        requires
            steppable(self@),
        ensures
            r@ == adjacent(self@, direction),
    {
        match direction {
            Direction::N => Position { x: self.x, y: self.y - 1 },
            Direction::S => Position { x: self.x, y: self.y + 1 },
            Direction::SW => Position { x: self.x - 1, y: self.y },
            Direction::NE => Position { x: self.x + 1, y: self.y },
            Direction::NW => Position { x: self.x - 1, y: self.y - 1 },
            Direction::SE => Position { x: self.x + 1, y: self.y + 1 },
        }
    }
}

/// Turning forward keeps a direction; a right turn followed by a left turn undoes
/// itself; turning backward is three right turns.
pub proof fn lemma_turn_laws(d: Direction)
    ensures
        turned(d, RelativeDir::FORWARD) == d,
        turned(turned(d, RelativeDir::RIGHT), RelativeDir::LEFT) == d,
        turned(d, RelativeDir::BACKWARD) == turned(
            turned(turned(d, RelativeDir::RIGHT), RelativeDir::RIGHT),
            RelativeDir::RIGHT,
        ),
{
}

/// Stepping along a direction and then along its opposite returns to the start.
pub proof fn lemma_neighbor_opposite(p: (int, int), d: Direction)
    ensures
        adjacent(adjacent(p, d), turned(d, RelativeDir::BACKWARD)) == p,
{
}

/// Wrapping is idempotent, and a shift by the grid width wraps to the same cell.
pub proof fn lemma_wrap_laws(p: (int, int))
    ensures
        wrapped(wrapped(p)) == wrapped(p),
        wrapped((p.0 + MAP_WIDTH as int, p.1)) == wrapped(p),
        on_grid(wrapped(p)),
{
    vstd::arithmetic::div_mod::lemma_mod_twice(p.0, MAP_WIDTH as int);
    vstd::arithmetic::div_mod::lemma_mod_twice(p.1, MAP_HEIGHT as int);
    vstd::arithmetic::div_mod::lemma_mod_add_multiples_vanish(p.0, MAP_WIDTH as int);
}

} // verus!
