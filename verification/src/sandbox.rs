//! The particle grid: a rectangle of cells, each empty or holding one particle.

use vstd::prelude::*;
use crate::vector::{floor_div, Vector};

verus! {

/// Edge of one cell, in fixed-point steps: eight world units.
pub const CELL: i64 = 8000;

/// Largest width or height of a grid, in cells. With this bound the world
/// position of every cell fits a vector component.
pub const MAX_DIMENSION: usize = 0x4_0000;

/// The materials a particle can be made of.
#[derive(Clone, Copy, Debug, PartialEq, Eq, Structural)]
pub enum ParticleTypes {
    Dirt,
}

/// One grid cell's content: a material and a colour.
#[derive(Clone, Copy, Debug, PartialEq, Eq)]
pub struct Particle {
    pub kind: ParticleTypes,
    pub color: (u8, u8, u8, u8),
}

/// The particle a material has before anything tints it.
pub open spec fn spec_get_particle(kind: ParticleTypes) -> Particle {
    Particle { kind, color: (139, 90, 43, 255) }
}

/// The particle a material has before anything tints it.
pub fn get_particle(kind: ParticleTypes) -> (p: Particle)
    ensures
        p == spec_get_particle(kind),
{
    Particle { kind, color: (139, 90, 43, 255) }
}

/// The grid. Cell `(0, 0)` is a corner; `x` runs along the width.
pub struct Sandbox {
    cells: Vec<Option<Particle>>,
    width: usize,
    height: usize,
}

/// Distinct cells of a grid of height `h` have distinct places in its storage.
proof fn lemma_place(x: int, y: int, w: int, h: int)
    requires
        0 <= x < w,
        0 <= y < h,
    ensures
        0 <= x * h <= x * h + y < w * h,
        (x * h + y) / h == x,
        (x * h + y) % h == y,
{
    assert(0 <= x * h <= x * h + y < w * h) by (nonlinear_arith)
        requires
            0 <= x < w,
            0 <= y < h,
    ;
    vstd::arithmetic::div_mod::lemma_fundamental_div_mod_converse(x * h + y, h, x, y);
}

impl Sandbox {
    /// The storage matches the sides, and the sides respect the bound.
    /// Every grid this module hands out is well formed.
    pub closed spec fn wf(&self) -> bool {
        &&& self.width <= MAX_DIMENSION
        &&& self.height <= MAX_DIMENSION
        &&& self.cells@.len() == self.width * self.height
        &&& self.width * self.height <= usize::MAX
    }

    /// Number of cells along `x`.
    pub closed spec fn spec_width(&self) -> nat {
        self.width as nat
    }

    /// Number of cells along `y`.
    pub closed spec fn spec_height(&self) -> nat {
        self.height as nat
    }

    /// Whether `(x, y)` names a cell of the grid.
    pub open spec fn contains(&self, x: int, y: int) -> bool {
        0 <= x < self.spec_width() && 0 <= y < self.spec_height()
    }

    /// The content of cell `(x, y)`; nothing outside the grid.
    pub closed spec fn at(&self, x: int, y: int) -> Option<Particle> {
        if 0 <= x < self.width && 0 <= y < self.height && x * self.height + y < self.cells@.len() {
            self.cells@[x * self.height + y]
        } else {
            None
        }
    }

    /// Whether cell `(x, y)` holds a particle.
    pub open spec fn occupied(&self, x: int, y: int) -> bool {
        self.at(x, y) is Some
    }

    /// Two grids of the same size whose cells agree everywhere.
    pub open spec fn same_cells(&self, other: &Sandbox) -> bool {
        &&& self.spec_width() == other.spec_width()
        &&& self.spec_height() == other.spec_height()
        &&& forall|x: int, y: int| self.at(x, y) == other.at(x, y)
    }

    /// The sides of a well-formed grid respect the bound.
    pub proof fn lemma_sides(&self)
        requires
            self.wf(),
        ensures
            self.spec_width() <= MAX_DIMENSION,
            self.spec_height() <= MAX_DIMENSION,
    {
    }

    /// Nothing lies outside the grid.
    pub proof fn lemma_outside_empty(&self, x: int, y: int)
        requires
            !self.contains(x, y),
        ensures
            self.at(x, y) is None,
    {
    }

    /// An empty grid; nothing if a side exceeds [`MAX_DIMENSION`] or the
    /// number of cells exceeds what a vector can hold.
    pub fn new(width: usize, height: usize) -> (r: Option<Sandbox>)
        ensures
            r is Some <==> width <= MAX_DIMENSION && height <= MAX_DIMENSION && width * height
                <= usize::MAX,
            r matches Some(s) ==> {
                &&& s.wf()
                &&& s.spec_width() == width
                &&& s.spec_height() == height
                &&& forall|x: int, y: int| s.at(x, y) is None
            },
    {
        if width > MAX_DIMENSION || height > MAX_DIMENSION {
            return None;
        }
        let total: usize = match width.checked_mul(height) {
            Some(t) => t,
            None => {
                return None;
            },
        };
        let mut cells: Vec<Option<Particle>> = Vec::new();
        let mut i: usize = 0;
        while i < total
            invariant
                i <= total,
                cells@.len() == i,
                forall|k: int| 0 <= k < i ==> (#[trigger] cells@[k]) is None,
            decreases total - i,
        {
            cells.push(None);
            i += 1;
        }
        Some(Sandbox { cells, width, height })
    }

    /// Whether the grid is well formed. Code that is not verified can ask
    /// this before it calls a function that requires it.
    pub fn is_wf(&self) -> (b: bool)
        ensures
            b == self.wf(),
    {
        if self.width > MAX_DIMENSION || self.height > MAX_DIMENSION {
            return false;
        }
        match self.width.checked_mul(self.height) {
            Some(total) => self.cells.len() == total,
            None => false,
        }
    }

    /// Number of cells along `x`.
    pub fn width(&self) -> (w: usize)
        requires
            self.wf(),
        ensures
            w == self.spec_width(),
            w <= MAX_DIMENSION,
    {
        self.width
    }

    /// Number of cells along `y`.
    pub fn height(&self) -> (h: usize)
        requires
            self.wf(),
        ensures
            h == self.spec_height(),
            h <= MAX_DIMENSION,
    {
        self.height
    }

    /// Whether the signed coordinates name a cell of the grid.
    pub fn in_bounds(&self, x: i64, y: i64) -> (b: bool)
        requires
            self.wf(),
        ensures
            b == self.contains(x as int, y as int),
    {
        x >= 0 && y >= 0 && x < self.width as i64 && y < self.height as i64
    }

    /// Whether the signed coordinates name no cell of the grid.
    pub fn out_of_bounds_i32(&self, x: i32, y: i32) -> (b: bool)
        requires
            self.wf(),
        ensures
            b == !self.contains(x as int, y as int),
    {
        !self.in_bounds(x as i64, y as i64)
    }

    /// The content of a cell of the grid.
    pub fn get(&self, x: usize, y: usize) -> (p: Option<Particle>)
        requires
            self.wf(),
            self.contains(x as int, y as int),
        ensures
            p == self.at(x as int, y as int),
    {
        proof {
            lemma_place(x as int, y as int, self.width as int, self.height as int);
        }
        self.cells[x * self.height + y]
    }

    /// The content of the cell at signed coordinates; nothing outside the grid.
    pub fn checked_get(&self, x: i64, y: i64) -> (p: Option<Particle>)
        requires
            self.wf(),
        ensures
            p == self.at(x as int, y as int),
    {
        if self.in_bounds(x, y) {
            self.get(x as usize, y as usize)
        } else {
            None
        }
    }

    /// The content of the cell at signed coordinates; nothing outside the grid.
    pub fn checked_get_i32(&self, x: i32, y: i32) -> (p: Option<Particle>)
        requires
            self.wf(),
        ensures
            p == self.at(x as int, y as int),
    {
        self.checked_get(x as i64, y as i64)
    }

    /// Replaces the content of one cell of the grid.
    pub fn set(&mut self, x: usize, y: usize, particle: Option<Particle>)
        requires
            old(self).wf(),
            old(self).contains(x as int, y as int),
        ensures
            final(self).wf(),
            final(self).spec_width() == old(self).spec_width(),
            final(self).spec_height() == old(self).spec_height(),
            forall|i: int, j: int|
                final(self).at(i, j) == if i == x && j == y {
                    particle
                } else {
                    old(self).at(i, j)
                },
    {
        proof {
            lemma_place(x as int, y as int, self.width as int, self.height as int);
        }
        let place: usize = x * self.height + y;
        self.cells.set(place, particle);
        proof {
            let w = self.width as int;
            let h = self.height as int;
            assert forall|i: int, j: int|
                self.at(i, j) == if i == x && j == y {
                    particle
                } else {
                    old(self).at(i, j)
                } by {
                if 0 <= i < w && 0 <= j < h {
                    lemma_place(i, j, w, h);
                }
            }
        }
    }

    /// Replaces the content of the cell at signed coordinates, if there is
    /// such a cell; reports whether there is.
    pub fn checked_set(&mut self, x: i64, y: i64, particle: Option<Particle>) -> (done: bool)
        requires
            old(self).wf(),
        ensures
            final(self).wf(),
            done == old(self).contains(x as int, y as int),
            final(self).spec_width() == old(self).spec_width(),
            final(self).spec_height() == old(self).spec_height(),
            forall|i: int, j: int|
                final(self).at(i, j) == if i == x && j == y && done {
                    particle
                } else {
                    old(self).at(i, j)
                },
    {
        if self.in_bounds(x, y) {
            self.set(x as usize, y as usize, particle);
            true
        } else {
            false
        }
    }

    /// The cell column or row a world coordinate falls in, for a grid with
    /// `side` cells along that axis. The grid is centred on the world origin.
    pub open spec fn spec_cell(position: int, side: nat) -> int {
        position / (CELL as int) + (side as int) / 2
    }

    /// Whether `(x, y)` lies in the square of cells reaching `radius` cells
    /// from `(cx, cy)` in every direction.
    pub open spec fn in_square(cx: int, cy: int, radius: int, x: int, y: int) -> bool {
        cx - radius <= x <= cx + radius && cy - radius <= y <= cy + radius
    }

    /// The cell a world position falls in; it may lie outside the grid.
    pub fn cell_of(&self, position: Vector) -> (cell: (i32, i32))
        requires
            self.wf(),
        ensures
            cell.0 == Self::spec_cell(position.x as int, self.spec_width()),
            cell.1 == Self::spec_cell(position.y as int, self.spec_height()),
    {
        let x: i128 = floor_div(position.x as i128, CELL as i128) + (self.width / 2) as i128;
        let y: i128 = floor_div(position.y as i128, CELL as i128) + (self.height / 2) as i128;
        (x as i32, y as i32)
    }

    /// Empties every cell of the grid within `radius` cells of `(cx, cy)`.
    pub fn clear_square(&mut self, cx: i32, cy: i32, radius: u32)
        requires
            old(self).wf(),
        ensures
            final(self).wf(),
            final(self).spec_width() == old(self).spec_width(),
            final(self).spec_height() == old(self).spec_height(),
            forall|i: int, j: int|
                final(self).at(i, j) == if Self::in_square(
                    cx as int,
                    cy as int,
                    radius as int,
                    i,
                    j,
                ) {
                    None
                } else {
                    old(self).at(i, j)
                },
    {
        let low_x: i64 = cx as i64 - radius as i64;
        let high_x: i64 = cx as i64 + radius as i64;
        let low_y: i64 = cy as i64 - radius as i64;
        let high_y: i64 = cy as i64 + radius as i64;
        let mut x: i64 = low_x;
        while x <= high_x
            invariant
                low_x <= x <= high_x + 1,
                low_x == cx - radius,
                high_x == cx + radius,
                low_y == cy - radius,
                high_y == cy + radius,
                self.wf(),
                self.spec_width() == old(self).spec_width(),
                self.spec_height() == old(self).spec_height(),
                forall|i: int, j: int|
                    self.at(i, j) == if low_x <= i < x && low_y <= j <= high_y {
                        None
                    } else {
                        old(self).at(i, j)
                    },
            decreases high_x + 1 - x,
        {
            let mut y: i64 = low_y;
            while y <= high_y
                invariant
                    low_x <= x <= high_x,
                    low_y <= y <= high_y + 1,
                    low_y == cy - radius,
                    high_y == cy + radius,
                    self.wf(),
                    self.spec_width() == old(self).spec_width(),
                    self.spec_height() == old(self).spec_height(),
                    forall|i: int, j: int|
                        self.at(i, j) == if (low_x <= i < x && low_y <= j <= high_y) || (i == x
                            && low_y <= j < y) {
                            None
                        } else {
                            old(self).at(i, j)
                        },
                decreases high_y + 1 - y,
            {
                self.checked_set(x, y, None);
                y += 1;
            }
            x += 1;
        }
    }
}

} // verus!
