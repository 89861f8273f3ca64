//! A dense row-major grid of cells.
use vstd::prelude::*;
use crate::error::FormatError;

verus! {

/// The flat position of cell `(x, y)` in a row-major grid `w` cells wide.
pub open spec fn cell_index(x: int, y: int, w: int) -> int {
    y * w + x
}

/// Whether `(x, y)` names a cell of a `w` by `h` grid.
pub open spec fn in_bounds(x: int, y: int, w: int, h: int) -> bool {
    0 <= x < w && 0 <= y < h
}

/// A cell of a `w` by `h` grid lies within its `w * h` flat cells.
pub proof fn lemma_cell_index_bounds(x: int, y: int, w: int, h: int)
    requires
        in_bounds(x, y, w, h),
    ensures
        0 <= cell_index(x, y, w) < w * h,
{
    assert(0 <= y * w + x < w * h) by (nonlinear_arith)
        requires
            0 <= x < w,
            0 <= y < h,
    ;
}

/// The flat position of a cell gives back its coordinates.
pub proof fn lemma_raster_position(x: int, y: int, w: int)
    requires
        0 <= x < w,
        0 <= y,
    ensures
        (y * w + x) % w == x,
        (y * w + x) / w == y,
        y * w + x >= 0,
{
    vstd::arithmetic::div_mod::lemma_fundamental_div_mod_converse(y * w + x, w, y, x);
    assert(y * w >= 0) by (nonlinear_arith)
        requires
            0 <= y,
            0 <= w,
    ;
}

/// A `width` by `height` grid of cells stored row by row, so that cell
/// `(x, y)` sits at flat position `y * width + x`.
pub struct Surface<T> {
    data: Vec<T>,
    width: u32,
    height: u32,
}

impl<T> Surface<T> {
    /// The cells, row by row.
    pub closed spec fn cells(&self) -> Seq<T> {
        self.data@
    }

    pub closed spec fn spec_width(&self) -> nat {
        self.width as nat
    }

    pub closed spec fn spec_height(&self) -> nat {
        self.height as nat
    }

    /// The grid holds exactly `width * height` cells.
    pub open spec fn wf(&self) -> bool {
        self.cells().len() == self.spec_width() * self.spec_height()
    }

    /// The cell at `(x, y)`.
    pub open spec fn cell(&self, x: int, y: int) -> T {
        self.cells()[cell_index(x, y, self.spec_width() as int)]
    }

    /// Creates a surface that takes `data` as its cells, row by row. The
    /// length of `data` must be `width * height`; `try_new` checks it.
    pub fn new(width: u32, height: u32, data: Vec<T>) -> (r: Surface<T>)
        requires
            data@.len() == width * height,
        ensures
            r.wf(),
            r.spec_width() == width,
            r.spec_height() == height,
            r.cells() == data@,
    {
        Surface { data, width, height }
    }

    /// Creates a surface that takes `data` as its cells, row by row; fails
    /// with `InvalidSurfaceShape` where the length of `data` is not
    /// `width * height`.
    pub fn try_new(width: u32, height: u32, data: Vec<T>) -> (r: Result<Surface<T>, FormatError>)
        ensures
            data@.len() != width * height ==> (r matches Err(FormatError::InvalidSurfaceShape)),
            data@.len() == width * height ==> (r matches Ok(s) && s.wf() && s.spec_width() == width
                && s.spec_height() == height && s.cells() == data@),
    {
        assert(width * height <= 0xFFFF_FFFF * 0xFFFF_FFFF) by (nonlinear_arith)
            requires
                width <= 0xFFFF_FFFF,
                height <= 0xFFFF_FFFF,
        ;
        if data.len() as u64 != width as u64 * height as u64 {
            return Err(FormatError::InvalidSurfaceShape);
        }
        Ok(Surface::new(width, height, data))
    }

    pub fn width(&self) -> (r: u32)
        ensures
            r == self.spec_width(),
    {
        self.width
    }

    pub fn height(&self) -> (r: u32)
        ensures
            r == self.spec_height(),
    {
        self.height
    }

    /// The flat position of `(x, y)`, or `None` where it lies outside the grid.
    fn idx(&self, x: i32, y: i32) -> (r: Option<usize>)
        requires
            self.wf(),
        ensures
            match r {
                Some(i) => in_bounds(x as int, y as int, self.spec_width() as int, self.spec_height() as int)
                    && i == cell_index(x as int, y as int, self.spec_width() as int)
                    && i < self.cells().len(),
                None => !in_bounds(x as int, y as int, self.spec_width() as int, self.spec_height() as int),
            },
    {
        if x < 0 || y < 0 {
            None
        } else {
            let (x, y) = (x as u32, y as u32);
            if x >= self.width || y >= self.height {
                None
            } else {
                Some(self.flat(x, y))
            }
        }
    }

    /// The cell at `(x, y)`, or `None` where `(x, y)` lies outside the grid.
    pub fn get(&self, x: i32, y: i32) -> (r: Option<&T>)
        requires
            self.wf(),
        ensures
            match r {
                Some(v) => in_bounds(x as int, y as int, self.spec_width() as int, self.spec_height() as int)
                    && *v == self.cell(x as int, y as int),
                None => !in_bounds(x as int, y as int, self.spec_width() as int, self.spec_height() as int),
            },
    {
        match self.idx(x, y) {
            Some(i) => Some(&self.data[i]),
            None => None,
        }
    }

    /// The cell at `(x, y)` for writing, or `None` where `(x, y)` lies
    /// outside the grid.
    pub fn get_mut(&mut self, x: i32, y: i32) -> (r: Option<&mut T>)
        requires
            old(self).wf(),
        ensures
            final(self).wf(),
            final(self).spec_width() == old(self).spec_width(),
            final(self).spec_height() == old(self).spec_height(),
            match r {
                Some(v) => in_bounds(x as int, y as int, old(self).spec_width() as int, old(self).spec_height() as int)
                    && *v == old(self).cell(x as int, y as int)
                    && final(self).cells() == old(self).cells().update(
                        cell_index(x as int, y as int, old(self).spec_width() as int),
                        *final(v),
                    ),
                None => !in_bounds(x as int, y as int, old(self).spec_width() as int, old(self).spec_height() as int)
                    && final(self).cells() == old(self).cells(),
            },
    {
        match self.idx(x, y) {
            Some(i) => Some(&mut self.data[i]),
            None => None,
        }
    }

    /// The flat position of a cell known to lie inside the grid.
    fn flat(&self, x: u32, y: u32) -> (r: usize)
        requires
            self.wf(),
            x < self.spec_width(),
            y < self.spec_height(),
        ensures
            r == cell_index(x as int, y as int, self.spec_width() as int),
            r < self.cells().len(),
    {
        let n = self.data.len();
        proof {
            lemma_cell_index_bounds(x as int, y as int, self.width as int, self.height as int);
            assert(0 <= y * self.width <= y * self.width + x) by (nonlinear_arith)
                requires
                    0 <= x,
                    0 <= y,
                    0 <= self.width,
            ;
        }
        y as usize * self.width as usize + x as usize
    }

    /// The cell at `(x, y)`, which must lie inside the grid.
    pub fn index(&self, pair: (u32, u32)) -> (r: &T)
        requires
            self.wf(),
            pair.0 < self.spec_width(),
            pair.1 < self.spec_height(),
        ensures
            *r == self.cell(pair.0 as int, pair.1 as int),
    {
        let i = self.flat(pair.0, pair.1);
        &self.data[i]
    }

    /// The cell at `(x, y)` for writing; `(x, y)` must lie inside the grid.
    pub fn index_mut(&mut self, pair: (u32, u32)) -> (r: &mut T)
        requires
            old(self).wf(),
            pair.0 < old(self).spec_width(),
            pair.1 < old(self).spec_height(),
        ensures
            *r == old(self).cell(pair.0 as int, pair.1 as int),
            final(self).wf(),
            final(self).spec_width() == old(self).spec_width(),
            final(self).spec_height() == old(self).spec_height(),
            final(self).cells() == old(self).cells().update(
                cell_index(pair.0 as int, pair.1 as int, old(self).spec_width() as int),
                *final(r),
            ),
    {
        let i = self.flat(pair.0, pair.1);
        &mut self.data[i]
    }
}

impl<T: Copy> Surface<T> {
    /// Creates a `width` by `height` surface whose every cell holds `value`.
    pub fn filled(width: u32, height: u32, value: T) -> (r: Surface<T>)
        requires
            width * height <= usize::MAX,
        ensures
            r.wf(),
            r.spec_width() == width,
            r.spec_height() == height,
            r.cells() == Seq::new((width * height) as nat, |k: int| value),
    {
        let n = width as usize * height as usize;
        let mut data: Vec<T> = Vec::new();
        while data.len() < n
            invariant
                n == width * height,
                data@.len() <= n,
                forall|k: int| 0 <= k < data@.len() ==> data@[k] == value,
            decreases n - data@.len(),
        {
            data.push(value);
        }
        assert(data@ =~= Seq::new((width * height) as nat, |k: int| value));
        Surface::new(width, height, data)
    }

    /// Every cell with its coordinates, `(x, y, value)`, in raster order:
    /// left to right within a row, rows from top to bottom.
    pub fn enumerate(&self) -> (r: Vec<(u32, u32, T)>)
        requires
            self.wf(),
        ensures
            r@.len() == self.cells().len(),
            forall|k: int|
                0 <= k < r@.len() ==> #[trigger] r@[k] == (
                    (k % self.spec_width() as int) as u32,
                    (k / self.spec_width() as int) as u32,
                    self.cells()[k],
                ),
    {
        let mut out: Vec<(u32, u32, T)> = Vec::new();
        let mut y: u32 = 0;
        while y < self.height
            invariant
                y <= self.height,
                self.wf(),
                out@.len() == y * self.width,
                forall|k: int|
                    0 <= k < out@.len() ==> #[trigger] out@[k] == (
                        (k % self.spec_width() as int) as u32,
                        (k / self.spec_width() as int) as u32,
                        self.cells()[k],
                    ),
            decreases self.height - y,
        {
            let mut x: u32 = 0;
            while x < self.width
                invariant
                    x <= self.width,
                    y < self.height,
                    self.wf(),
                    out@.len() == y * self.width + x,
                    forall|k: int|
                        0 <= k < out@.len() ==> #[trigger] out@[k] == (
                            (k % self.spec_width() as int) as u32,
                            (k / self.spec_width() as int) as u32,
                            self.cells()[k],
                        ),
                decreases self.width - x,
            {
                proof {
                    lemma_raster_position(x as int, y as int, self.width as int);
                }
                let v = *self.index((x, y));
                out.push((x, y, v));
                x = x + 1;
            }
            assert((y + 1) * self.width == y * self.width + self.width) by (nonlinear_arith);
            y = y + 1;
        }
        assert(self.height * self.width == self.width * self.height) by (nonlinear_arith);
        out
    }
}

} // verus!
