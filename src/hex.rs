//! Hexagonal coordinates, directions and the toroidal grid that holds one
//! value per cell.
use vstd::arithmetic::div_mod::{lemma_mod_bound, lemma_mod_twice, lemma_small_mod};
use vstd::prelude::*;

verus! {

/// A cell coordinate on the hexagonal grid (axial coordinates).
#[derive(Clone, Copy, Debug, PartialEq, Eq, Structural)]
pub struct Point {
    pub x: i32,
    pub y: i32,
}

impl Point {
    pub fn new(x: i32, y: i32) -> (r: Point)
        ensures
            r == (Point { x, y }),
    {
        Point { x, y }
    }
}

/// One of the six directions of the grid, listed clockwise.
#[derive(Clone, Copy, Debug, PartialEq, Eq, Structural)]
pub enum AbsoluteDirection {
    North,
    NorthEast,
    SouthEast,
    South,
    SouthWest,
    NorthWest,
}

/// A direction relative to a facing.
#[derive(Clone, Copy, Debug, PartialEq, Eq, Structural)]
pub enum Direction {
    Forward,
    Right,
    Backward,
    Left,
}

/// A creature's location and facing.
#[derive(Clone, Copy, Debug, PartialEq, Eq, Structural)]
pub struct Position {
    pub p: Point,
    pub dir: AbsoluteDirection,
}

impl Position {
    pub fn new(p: Point, dir: AbsoluteDirection) -> (r: Position)
        ensures
            r == (Position { p, dir }),
    {
        Position { p, dir }
    }
}

/// The direction with the given clockwise index, taken modulo six.
pub open spec fn dir_of_index(i: int) -> AbsoluteDirection {
    let k = i % 6;
    if k == 0 {
        AbsoluteDirection::North
    } else if k == 1 {
        AbsoluteDirection::NorthEast
    } else if k == 2 {
        AbsoluteDirection::SouthEast
    } else if k == 3 {
        AbsoluteDirection::South
    } else if k == 4 {
        AbsoluteDirection::SouthWest
    } else {
        AbsoluteDirection::NorthWest
    }
}

/// Offset along x of one step in the direction with clockwise index `i`.
pub open spec fn step_dx(i: int) -> int {
    if i == 1 || i == 2 {
        1
    } else if i == 4 || i == 5 {
        -1
    } else {
        0
    }
}

/// Offset along y of one step in the direction with clockwise index `i`.
pub open spec fn step_dy(i: int) -> int {
    if i == 0 || i == 5 {
        1
    } else if i == 2 || i == 3 {
        -1
    } else {
        0
    }
}

impl AbsoluteDirection {
    /// Clockwise index, North being 0.
    pub open spec fn index(self) -> int {
        match self {
            AbsoluteDirection::North => 0,
            AbsoluteDirection::NorthEast => 1,
            AbsoluteDirection::SouthEast => 2,
            AbsoluteDirection::South => 3,
            AbsoluteDirection::SouthWest => 4,
            AbsoluteDirection::NorthWest => 5,
        }
    }

    /// The facing after turning by `d`.
    pub open spec fn spec_turn(self, d: Direction) -> AbsoluteDirection {
        dir_of_index(self.index() + d.steps())
    }

    pub fn to_index(self) -> (r: i8)
        ensures
            r == self.index(),
            0 <= r < 6,
    {
        match self {
            AbsoluteDirection::North => 0,
            AbsoluteDirection::NorthEast => 1,
            AbsoluteDirection::SouthEast => 2,
            AbsoluteDirection::South => 3,
            AbsoluteDirection::SouthWest => 4,
            AbsoluteDirection::NorthWest => 5,
        }
    }

    pub fn from_index(i: i8) -> (r: AbsoluteDirection)
        requires
            0 <= i < 6,
        ensures
            r == dir_of_index(i as int),
            r.index() == i,
    {
        if i == 0 {
            AbsoluteDirection::North
        } else if i == 1 {
            AbsoluteDirection::NorthEast
        } else if i == 2 {
            AbsoluteDirection::SouthEast
        } else if i == 3 {
            AbsoluteDirection::South
        } else if i == 4 {
            AbsoluteDirection::SouthWest
        } else {
            AbsoluteDirection::NorthWest
        }
    }

    /// Rotates this facing by `d` (Left and Right are one step of the six).
    pub fn turn(self, d: Direction) -> (r: AbsoluteDirection)
        ensures
            r == self.spec_turn(d),
    {
        let i = rotate_index(self.to_index(), d.to_steps());
        AbsoluteDirection::from_index(i)
    }
}

impl Direction {
    /// Clockwise steps of six that this relative direction turns by.
    pub open spec fn steps(self) -> int {
        match self {
            Direction::Forward => 0,
            Direction::Right => 1,
            Direction::Backward => 3,
            Direction::Left => 5,
        }
    }

    pub fn to_steps(self) -> (r: i8)
        ensures
            r == self.steps(),
    {
        match self {
            Direction::Forward => 0,
            Direction::Right => 1,
            Direction::Backward => 3,
            Direction::Left => 5,
        }
    }
}

/// Relies on `hex2d::Direction + hex2d::Angle` (with `from_int` / `to_int`):
/// rotating the direction with clockwise index `dir` by `angle` sixths of a
/// turn clockwise gives the index `(dir + angle) % 6`.
#[verifier::external_body]
fn rotate_index(dir: i8, angle: i8) -> (r: i8)
    requires
        0 <= dir < 6,
        0 <= angle < 6,
    ensures
        r == (dir + angle) % 6,
{
    let d = hex2d::Direction::from_int(dir) + hex2d::Angle::from_int(angle);
    d.to_int::<i8>()
}

/// Relies on `hex2d::Coordinate + hex2d::Direction`: one step from `(x, y)`
/// in the direction with clockwise index `dir` adds that direction's offset.
#[verifier::external_body]
fn step_coords(x: i32, y: i32, dir: i8) -> (r: (i32, i32))
    requires
        0 <= dir < 6,
        i32::MIN < x < i32::MAX,
        i32::MIN < y < i32::MAX,
    ensures
        r.0 == x + step_dx(dir as int),
        r.1 == y + step_dy(dir as int),
{
    let c = hex2d::Coordinate::new(x, y) + hex2d::Direction::from_int(dir);
    (c.x, c.y)
}

/// The shorter signed displacement from `a` to `b` on a cycle of length `n`:
/// its magnitude is at most half of `n`.
pub open spec fn cyclic_delta(a: int, b: int, n: int) -> int {
    let d = (b - a) % n;
    if 2 * d > n {
        d - n
    } else {
        d
    }
}

/// Position of `p` in a row-by-row sequence of rows of length `w`.
pub closed spec fn flat_index(w: int, p: Point) -> int {
    p.y * w + p.x
}

/// The largest number of cells a grid may have.
pub const MAX_CELLS: i64 = 0x4000_0000;

/// A toroidal `width` x `height` array with one value per cell.
pub struct Grid<T> {
    width: i32,
    height: i32,
    cells: Vec<T>,
}

impl<T> Grid<T> {
    pub closed spec fn w(&self) -> int {
        self.width as int
    }

    pub closed spec fn h(&self) -> int {
        self.height as int
    }

    /// The cells, row by row.
    pub closed spec fn view(&self) -> Seq<T> {
        self.cells@
    }

    pub open spec fn wf(&self) -> bool {
        &&& 0 < self.w()
        &&& 0 < self.h()
        &&& self.w() * self.h() <= MAX_CELLS
        &&& self@.len() == self.w() * self.h()
    }

    /// `p` reduced into `[0, width) x [0, height)`.
    pub open spec fn spec_wrap(&self, p: Point) -> Point {
        Point { x: (p.x as int % self.w()) as i32, y: (p.y as int % self.h()) as i32 }
    }

    pub open spec fn in_bounds(&self, p: Point) -> bool {
        0 <= p.x < self.w() && 0 <= p.y < self.h()
    }

    /// Position in the row-by-row cell sequence of an in-bounds point.
    pub open spec fn idx(&self, p: Point) -> int {
        flat_index(self.w(), p)
    }

    /// The value at `p`, which is wrapped first.
    pub open spec fn cell(&self, p: Point) -> T {
        self@[self.idx(self.spec_wrap(p))]
    }

    /// The wrapped point one step from `p` in direction `d`.
    pub open spec fn spec_step(&self, p: Point, d: AbsoluteDirection) -> Point {
        self.spec_wrap(
            Point {
                x: (p.x + step_dx(d.index())) as i32,
                y: (p.y + step_dy(d.index())) as i32,
            },
        )
    }

    pub fn width(&self) -> (r: i32)
        ensures
            r == self.w(),
    {
        self.width
    }

    pub fn height(&self) -> (r: i32)
        ensures
            r == self.h(),
    {
        self.height
    }

    pub fn wrap(&self, p: Point) -> (r: Point)
        requires
            self.wf(),
        ensures
            r == self.spec_wrap(p),
            self.in_bounds(r),
    {
        let x = match p.x.checked_rem_euclid(self.width) {
            Some(v) => v,
            None => 0,
        };
        let y = match p.y.checked_rem_euclid(self.height) {
            Some(v) => v,
            None => 0,
        };
        Point { x, y }
    }

    pub fn new(width: i32, height: i32, v: T) -> (r: Grid<T>)
        where
            T: Copy,
        requires
            0 < width,
            0 < height,
            width * height <= MAX_CELLS,
        ensures
            r.wf(),
            r.w() == width,
            r.h() == height,
            forall|k: int| 0 <= k < r@.len() ==> r@[k] == v,
    {
        let n: usize = (width as usize) * (height as usize);
        let mut cells: Vec<T> = Vec::new();
        let mut i: usize = 0;
        while i < n
            invariant
                i <= n,
                cells@.len() == i,
                forall|k: int| 0 <= k < i ==> cells@[k] == v,
            decreases n - i,
        {
            cells.push(v);
            i = i + 1;
        }
        Grid { width, height, cells }
    }

    /// The point at position `k` of the cell sequence.
    pub fn point_at(&self, k: usize) -> (r: Point)
        requires
            self.wf(),
            k < self@.len(),
        ensures
            self.in_bounds(r),
            self.idx(r) == k,
    {
        let w = self.width as usize;
        let x = k % w;
        let y = k / w;
        proof {
            let (kk, ww, hh) = (k as int, w as int, self.h());
            vstd::arithmetic::div_mod::lemma_fundamental_div_mod(kk, ww);
            assert(0 <= kk / ww < hh) by (nonlinear_arith)
                requires
                    0 <= kk < ww * hh,
                    ww > 0,
                    kk == ww * (kk / ww) + kk % ww,
                    0 <= kk % ww,
            ;
            assert(flat_index(ww, Point { x: x as i32, y: y as i32 }) == kk) by (nonlinear_arith)
                requires
                    kk == ww * (kk / ww) + kk % ww,
                    x == kk % ww,
                    y == kk / ww,
                    0 <= y < hh,
                    0 <= x < ww,
                    ww * hh <= MAX_CELLS,
            {
                assert(flat_index(ww, Point { x: x as i32, y: y as i32 }) == y * ww + x);
            }
        }
        Point { x: x as i32, y: y as i32 }
    }

    /// Position of the wrapped `p` in the cell sequence.
    fn index_of(&self, p: Point) -> (r: usize)
        requires
            self.wf(),
        ensures
            r == self.idx(self.spec_wrap(p)),
            r < self@.len(),
    {
        let q = self.wrap(p);
        proof {
            lemma_idx_bound(self.w(), self.h(), q.x as int, q.y as int);
        }
        (q.y as usize) * (self.width as usize) + (q.x as usize)
    }

    /// The value at the wrapped `p`.
    pub fn at(&self, p: Point) -> (r: &T)
        requires
            self.wf(),
        ensures
            *r == self.cell(p),
    {
        let k = self.index_of(p);
        &self.cells[k]
    }

    /// Replaces the value at the wrapped `p`.
    pub fn set(&mut self, p: Point, v: T)
        requires
            old(self).wf(),
        ensures
            final(self).wf(),
            final(self).w() == old(self).w(),
            final(self).h() == old(self).h(),
            final(self)@ == old(self)@.update(old(self).idx(old(self).spec_wrap(p)), v),
    {
        let k = self.index_of(p);
        self.cells.set(k, v);
    }

    /// The wrapped point one step from the wrapped `p` in direction `d`.
    pub fn step(&self, p: Point, d: AbsoluteDirection) -> (r: Point)
        requires
            self.wf(),
        ensures
            r == self.spec_step(self.spec_wrap(p), d),
            self.in_bounds(r),
    {
        let q = self.wrap(p);
        let (x, y) = step_coords(q.x, q.y, d.to_index());
        self.wrap(Point { x, y })
    }

    /// The six wrapped neighbors of `p`, in clockwise order from North.
    pub fn neighbors(&self, p: Point) -> (r: Vec<Point>)
        requires
            self.wf(),
        ensures
            r@.len() == 6,
            forall|i: int|
                0 <= i < 6 ==> #[trigger] r@[i] == self.spec_step(self.spec_wrap(p), dir_of_index(i)),
            forall|i: int| 0 <= i < 6 ==> self.in_bounds(#[trigger] r@[i]),
    {
        let mut r: Vec<Point> = Vec::new();
        let mut i: i8 = 0;
        while i < 6
            invariant
                self.wf(),
                0 <= i <= 6,
                r@.len() == i,
                forall|k: int|
                    0 <= k < i ==> #[trigger] r@[k] == self.spec_step(self.spec_wrap(p), dir_of_index(k)),
                forall|k: int| 0 <= k < i ==> self.in_bounds(#[trigger] r@[k]),
            decreases 6 - i,
        {
            r.push(self.step(p, AbsoluteDirection::from_index(i)));
            i = i + 1;
        }
        r
    }

    /// Displacement from `from` to `to` taking, on each axis, the shorter way
    /// around the torus.
    pub fn relative_wrapped(&self, from: Point, to: Point) -> (r: (i32, i32))
        requires
            self.wf(),
        ensures
            r.0 == cyclic_delta(from.x as int, to.x as int, self.w()),
            r.1 == cyclic_delta(from.y as int, to.y as int, self.h()),
    {
        let dx = cyclic_shortest(from.x, to.x, self.width);
        let dy = cyclic_shortest(from.y, to.y, self.height);
        (dx, dy)
    }
}

fn cyclic_shortest(a: i32, b: i32, n: i32) -> (r: i32)
    requires
        0 < n,
    ensures
        r == cyclic_delta(a as int, b as int, n as int),
{
    let d = match (b as i64 - a as i64).checked_rem_euclid(n as i64) {
        Some(v) => v,
        None => 0,
    };
    if 2 * d > n as i64 {
        (d - n as i64) as i32
    } else {
        d as i32
    }
}

proof fn lemma_idx_bound(w: int, h: int, x: int, y: int)
    requires
        0 <= x < w,
        0 <= y < h,
    ensures
        0 <= y * w + x < w * h,
{
    assert(0 <= y * w + x < w * h) by (nonlinear_arith)
        requires
            0 <= x < w,
            0 <= y < h,
    ;
}

/// Wrapping any point lands inside the grid, and wrapping again changes
/// nothing.
pub proof fn lemma_wrap_idempotent<T>(g: &Grid<T>, p: Point)
    requires
        g.wf(),
    ensures
        g.in_bounds(g.spec_wrap(p)),
        g.spec_wrap(g.spec_wrap(p)) == g.spec_wrap(p),
{
    lemma_mod_bound(p.x as int, g.w());
    lemma_mod_bound(p.y as int, g.h());
    lemma_mod_twice(p.x as int, g.w());
    lemma_mod_twice(p.y as int, g.h());
}

/// On each axis the shorter displacement between two points is at most half
/// of the grid's size along that axis.
pub proof fn lemma_relative_wrapped_bounded<T>(g: &Grid<T>, a: Point, b: Point)
    requires
        g.wf(),
    ensures
        -g.w() <= 2 * cyclic_delta(a.x as int, b.x as int, g.w()) <= g.w(),
        -g.h() <= 2 * cyclic_delta(a.y as int, b.y as int, g.h()) <= g.h(),
{
    lemma_mod_bound(b.x - a.x, g.w());
    lemma_mod_bound(b.y - a.y, g.h());
}

/// An in-bounds point has a place in the cell sequence.
pub proof fn lemma_idx_in_range<T>(g: &Grid<T>, p: Point)
    requires
        g.wf(),
        g.in_bounds(p),
    ensures
        0 <= g.idx(p) < g@.len(),
{
    lemma_idx_bound(g.w(), g.h(), p.x as int, p.y as int);
}

/// Wrapping leaves an in-bounds point as it is.
pub proof fn lemma_wrap_in_bounds<T>(g: &Grid<T>, p: Point)
    requires
        g.wf(),
        g.in_bounds(p),
    ensures
        g.spec_wrap(p) == p,
{
    lemma_small_mod(p.x as nat, g.w() as nat);
    lemma_small_mod(p.y as nat, g.h() as nat);
}

/// Distinct in-bounds points have distinct places in the cell sequence.
pub proof fn lemma_idx_injective<T>(g: &Grid<T>, p: Point, q: Point)
    requires
        g.wf(),
        g.in_bounds(p),
        g.in_bounds(q),
        g.idx(p) == g.idx(q),
    ensures
        p == q,
{
    let w = g.w();
    let (px, py, qx, qy) = (p.x as int, p.y as int, q.x as int, q.y as int);
    assert(py == qy && px == qx) by (nonlinear_arith)
        requires
            0 <= px < w,
            0 <= qx < w,
            py >= 0,
            qy >= 0,
            py * w + px == qy * w + qx,
    {
        if py < qy {
            assert(py * w + w <= qy * w);
        } else if qy < py {
            assert(qy * w + w <= py * w);
        }
    }
}

/// A step always lands inside the grid.
pub proof fn lemma_step_in_bounds<T>(g: &Grid<T>, p: Point, d: AbsoluteDirection)
    requires
        g.wf(),
    ensures
        g.in_bounds(g.spec_step(p, d)),
{
    lemma_wrap_idempotent(
        g,
        Point { x: (p.x + step_dx(d.index())) as i32, y: (p.y + step_dy(d.index())) as i32 },
    );
}

} // verus!
