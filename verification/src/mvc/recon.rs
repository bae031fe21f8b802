//! Intra reconstruction: from a slice's bits to samples before deblocking, for
//! every intra macroblock type, and the deblocking of an intra frame.
//!
//! A frame's buffers are cut into bands of macroblock rows, one per slice; the
//! slices decode into their bands independently, and the bands join to the
//! frame. Slices start at the beginning of a macroblock row, so that only the
//! row above can belong to another slice.

use crate::mvc::bitstream::{BitReader, Cursor, ReadError};
use crate::mvc::cabac::{CabacEngine, Engine};
use crate::mvc::pps::Pps;
use crate::mvc::scaling::{flat_lists, ScalingLists};
use crate::mvc::slice_header::{parse_slice_header, slice_data, widths_ok, SliceData, SliceHeader};
use crate::mvc::sps::Sps;
use crate::mvc::arith::{clip, clip1, lemma_row_bounds, lemma_row_major, lemma_row_of};
use crate::mvc::intra::{
    derive_intra_mode, intra_mode, law_derived_mode_range, predict_16x16, predict_4x4, predict_8x8,
    predict_chroma_8x8, predicted, predicted16, predicted_chroma, smoothed, Edges, Intra4x4Mode,
    Neighbors4x4, Neighbors8x8, NeighborsNxN, PlaneMode,
};
use crate::mvc::mb_header::{
    decode_mb_syntax, mb_header, modes_ok, HeaderBank, HeaderState, MbHeaderContexts, MbInfo, Neighbors,
};
use crate::mvc::mb_residual::{
    decode_residual, mb_residual, res_views, shows16, uncoded, CbfNeighbours, CbpBits, MbResidual,
    ResElem, ResParams, ResState, Residual, ResidualBank, ResidualContexts,
};
use crate::mvc::transform::{shows8, Block};
use vstd::prelude::*;

verus! {

/// A band of rows of a larger grid, addressed by column and row of that grid.
#[verifier::ext_equal]
pub struct Grid<T> {
    /// The cells, row by row.
    pub d: Seq<T>,
    /// Columns.
    pub w: int,
    /// Rows.
    pub rows: int,
    /// The first row.
    pub y0: int,
}

impl<T> Grid<T> {
    /// The grid has a cell at this column and row.
    pub open spec fn has(self, x: int, y: int) -> bool {
        0 <= x < self.w && self.y0 <= y < self.y0 + self.rows
    }

    /// The index of a cell.
    pub open spec fn index(self, x: int, y: int) -> int {
        (y - self.y0) * self.w + x
    }

    /// The cell at a column and row.
    pub open spec fn at(self, x: int, y: int) -> T {
        self.d[self.index(x, y)]
    }

    /// The grid with another value in one cell.
    pub open spec fn set(self, x: int, y: int, v: T) -> Grid<T> {
        Grid { d: self.d.update(self.index(x, y), v), ..self }
    }

    /// The cell of index `k` lies in a block.
    pub open spec fn inside(self, k: int, x: int, y: int, bw: int, bh: int) -> bool {
        x <= k % self.w < x + bw && y <= self.y0 + k / self.w < y + bh
    }

    /// The grid with one value in every cell of a block of `bw` columns and
    /// `bh` rows.
    pub open spec fn fill(self, x: int, y: int, bw: int, bh: int, v: T) -> Grid<T> {
        Grid {
            d: Seq::new(
                self.d.len(),
                |k: int|
                    if self.inside(k, x, y, bw, bh) {
                        v
                    } else {
                        self.d[k]
                    },
            ),
            ..self
        }
    }

    /// The grid with the values of `b`, row by row, in a block.
    pub open spec fn put(self, x: int, y: int, bw: int, bh: int, b: Seq<T>) -> Grid<T> {
        Grid {
            d: Seq::new(
                self.d.len(),
                |k: int|
                    if self.inside(k, x, y, bw, bh) {
                        b[(self.y0 + k / self.w - y) * bw + (k % self.w - x)]
                    } else {
                        self.d[k]
                    },
            ),
            ..self
        }
    }

    /// The block lies inside the grid.
    pub open spec fn covers(self, x: int, y: int, bw: int, bh: int) -> bool {
        &&& 0 <= x
        &&& x + bw <= self.w
        &&& self.y0 <= y
        &&& y + bh <= self.y0 + self.rows
    }

    /// The grid is not empty in width, its cells fill its rows, and these have
    /// machine numbers.
    pub open spec fn ok(self) -> bool {
        &&& self.w > 0
        &&& self.rows >= 0
        &&& self.y0 >= 0
        &&& self.y0 + self.rows <= usize::MAX
        &&& self.d.len() == self.w * self.rows
    }

    /// Columns, rows and first row.
    pub open spec fn shape(self) -> (int, int, int) {
        (self.w, self.rows, self.y0)
    }
}

/// A grid of one value.
pub open spec fn uniform<T>(v: T, w: int, rows: int, y0: int) -> Grid<T> {
    Grid { d: Seq::new((w * rows) as nat, |k: int| v), w, rows, y0 }
}

/// A band of rows of a larger grid, addressed by column and row of that grid,
/// so that every slice can write its part of a frame in the frame's own
/// coordinates.
pub struct Band<T> {
    pub d: Vec<T>,
    pub w: usize,
    pub rows: usize,
    pub y0: usize,
}

/// A plane of samples.
pub type Plane = Band<u8>;

impl<T> View for Band<T> {
    type V = Grid<T>;

    open spec fn view(&self) -> Grid<T> {
        Grid { d: self.d@, w: self.w as int, rows: self.rows as int, y0: self.y0 as int }
    }
}

impl<T: Copy> Band<T> {
    /// The band of the given cells, `rows` rows of `w`, that starts at row `y0`.
    pub fn new(d: Vec<T>, w: usize, rows: usize, y0: usize) -> (b: Self)
        requires
            w > 0,
            d@.len() == w * rows,
            y0 + rows <= usize::MAX,
        ensures
            b@ == (Grid { d: d@, w: w as int, rows: rows as int, y0: y0 as int }),
            b@.ok(),
    {
        Band { d, w, rows, y0 }
    }

    /// A band of one value.
    pub fn uniform(v: T, w: usize, rows: usize, y0: usize) -> (b: Self)
        requires
            w > 0,
            w * rows <= usize::MAX,
            y0 + rows <= usize::MAX,
        ensures
            b@ == uniform(v, w as int, rows as int, y0 as int),
            b@.ok(),
    {
        assert(0 <= w * rows) by (nonlinear_arith)
            requires
                w >= 0,
                rows >= 0,
        ;
        let n: usize = w * rows;
        let mut d: Vec<T> = Vec::new();
        for i in 0..n
            invariant
                d@.len() == i,
                forall|k: int| 0 <= k < i ==> #[trigger] d@[k] == v,
        {
            d.push(v);
        }
        assert(d@ =~= uniform(v, w as int, rows as int, y0 as int).d);
        Band { d, w, rows, y0 }
    }

    /// The cell at a column and row.
    pub fn at(&self, x: usize, y: usize) -> (v: T)
        requires
            self@.ok(),
            self@.has(x as int, y as int),
        ensures
            v == self@.at(x as int, y as int),
    {
        proof {
            lemma_row_bounds(self.w as int, self.rows as int, y - self.y0, x as int);
        }
        let n: usize = self.d.len();
        self.d[(y - self.y0) * self.w + x]
    }

    /// Change the cell at a column and row.
    pub fn set(&mut self, x: usize, y: usize, v: T)
        requires
            old(self)@.ok(),
            old(self)@.has(x as int, y as int),
        ensures
            final(self)@ == old(self)@.set(x as int, y as int, v),
            final(self)@.ok(),
    {
        proof {
            lemma_row_bounds(self.w as int, self.rows as int, y - self.y0, x as int);
        }
        let n: usize = self.d.len();
        let k: usize = (y - self.y0) * self.w + x;
        self.d[k] = v;
    }

    /// Set every cell of a block to one value.
    pub fn fill(&mut self, x: usize, y: usize, bw: usize, bh: usize, v: T)
        requires
            old(self)@.ok(),
            old(self)@.covers(x as int, y as int, bw as int, bh as int),
        ensures
            final(self)@ == old(self)@.fill(x as int, y as int, bw as int, bh as int, v),
            final(self)@.ok(),
    {
        let ghost g = self@;
        let ghost want = g.fill(x as int, y as int, bw as int, bh as int, v);
        let n: usize = self.d.len();
        for j in 0..bh
            invariant
                g == old(self)@,
                g.ok(),
                self@.ok(),
                self@.shape() == g.shape(),
                self.d@.len() == n,
                g.covers(x as int, y as int, bw as int, bh as int),
                self.d@ == g.fill(x as int, y as int, bw as int, j as int, v).d,
        {
            for i in 0..bw
                invariant
                    j < bh,
                    g == old(self)@,
                    g.ok(),
                    self@.ok(),
                    self@.shape() == g.shape(),
                    self.d@.len() == n,
                    g.covers(x as int, y as int, bw as int, bh as int),
                    forall|k: int|
                        0 <= k < n ==> #[trigger] self.d@[k] == (if g.inside(
                            k,
                            x as int,
                            y as int,
                            bw as int,
                            j as int,
                        ) || g.inside(k, x as int, y + j, i as int, 1) {
                            v
                        } else {
                            g.d[k]
                        }),
            {
                let ghost c = g.index(x + i, y + j);
                proof {
                    lemma_row_bounds(g.w, g.rows, y + j - g.y0, x + i);
                    lemma_row_major(g.w, y + j - g.y0, x + i);
                }
                let ghost was = self.d@;
                self.set(x + i, y + j, v);
                proof {
                    assert forall|k: int| 0 <= k < n implies #[trigger] self.d@[k] == (if g.inside(
                        k,
                        x as int,
                        y as int,
                        bw as int,
                        j as int,
                    ) || g.inside(k, x as int, y + j, i + 1, 1) {
                        v
                    } else {
                        g.d[k]
                    }) by {
                        lemma_row_of(g.w, g.rows, k);
                        if k != c {
                            assert(self.d@[k] == was[k]);
                        }
                    }
                }
            }
            assert(self.d@ =~= g.fill(x as int, y as int, bw as int, j + 1, v).d);
        }
        assert(self.d@ =~= want.d);
    }

    /// Copy a block of values, row by row, into the band.
    pub fn put(&mut self, x: usize, y: usize, bw: usize, bh: usize, b: &[T])
        requires
            old(self)@.ok(),
            old(self)@.covers(x as int, y as int, bw as int, bh as int),
            b@.len() == bw * bh,
        ensures
            final(self)@ == old(self)@.put(x as int, y as int, bw as int, bh as int, b@),
            final(self)@.ok(),
    {
        let ghost g = self@;
        let ghost want = g.put(x as int, y as int, bw as int, bh as int, b@);
        let n: usize = self.d.len();
        let m: usize = b.len();
        for j in 0..bh
            invariant
                g == old(self)@,
                g.ok(),
                self@.ok(),
                self@.shape() == g.shape(),
                self.d@.len() == n,
                b@.len() == m,
                b@.len() == bw * bh,
                g.covers(x as int, y as int, bw as int, bh as int),
                self.d@ == g.put(x as int, y as int, bw as int, j as int, b@).d,
        {
            for i in 0..bw
                invariant
                    j < bh,
                    g == old(self)@,
                    g.ok(),
                    self@.ok(),
                    self@.shape() == g.shape(),
                    self.d@.len() == n,
                    b@.len() == m,
                    b@.len() == bw * bh,
                    g.covers(x as int, y as int, bw as int, bh as int),
                    forall|k: int|
                        0 <= k < n ==> #[trigger] self.d@[k] == (if g.inside(
                            k,
                            x as int,
                            y as int,
                            bw as int,
                            j as int,
                        ) || g.inside(k, x as int, y + j, i as int, 1) {
                            b@[(g.y0 + k / g.w - y) * bw + (k % g.w - x)]
                        } else {
                            g.d[k]
                        }),
            {
                let ghost c = g.index(x + i, y + j);
                proof {
                    lemma_row_bounds(g.w, g.rows, y + j - g.y0, x + i);
                    lemma_row_major(g.w, y + j - g.y0, x + i);
                    lemma_row_bounds(bw as int, bh as int, j as int, i as int);
                }
                let ghost was = self.d@;
                self.set(x + i, y + j, b[j * bw + i]);
                proof {
                    assert forall|k: int| 0 <= k < n implies #[trigger] self.d@[k] == (if g.inside(
                        k,
                        x as int,
                        y as int,
                        bw as int,
                        j as int,
                    ) || g.inside(k, x as int, y + j, i + 1, 1) {
                        b@[(g.y0 + k / g.w - y) * bw + (k % g.w - x)]
                    } else {
                        g.d[k]
                    }) by {
                        lemma_row_of(g.w, g.rows, k);
                        if k != c {
                            assert(self.d@[k] == was[k]);
                        }
                    }
                }
            }
            assert(self.d@ =~= g.put(x as int, y as int, bw as int, j + 1, b@).d);
        }
        assert(self.d@ =~= want.d);
    }
}

/// Cut a buffer into bands at the ascending boundaries `bounds`: band `k` ends
/// before `bounds[k]`, where the next one starts. When the bands end, the buffer
/// holds what they then hold, one after another, and behind the last boundary
/// what it held before.
pub fn split_bands<'a, T>(buf: &'a mut [T], bounds: &[usize]) -> (out: Vec<&'a mut [T]>)
    requires
        forall|i: int, j: int| 0 <= i <= j < bounds@.len() ==> bounds@[i] <= bounds@[j],
        bounds@.len() > 0 ==> bounds@.last() <= old(buf)@.len(),
    ensures
        out@.len() == bounds@.len(),
        forall|k: int|
            0 <= k < bounds@.len() ==> #[trigger] out@[k]@ == old(buf)@.subrange(
                band_start(bounds@, k),
                bounds@[k] as int,
            ),
        forall|ends: Seq<Seq<T>>|
            ends.len() == out@.len() && (forall|k: int|
                0 <= k < out@.len() ==> (#[trigger] ends[k]) == final(out@[k])@) ==> final(buf)@
                == #[trigger] ends.flatten() + old(buf)@.skip(
                band_start(bounds@, bounds@.len() as int),
            ),
{
    let ghost was = buf@;
    let ghost left = final(buf)@;
    let mut out: Vec<&'a mut [T]> = Vec::new();
    let mut rest: &'a mut [T] = buf;
    let mut prev: usize = 0;
    let n: usize = bounds.len();
    let mut k: usize = 0;
    while k < n
        invariant
            n == bounds@.len(),
            k <= n,
            forall|i: int, j: int| 0 <= i <= j < bounds@.len() ==> bounds@[i] <= bounds@[j],
            bounds@.len() > 0 ==> bounds@.last() <= was.len(),
            prev == band_start(bounds@, k as int),
            prev <= was.len(),
            rest@ == was.skip(prev as int),
            out@.len() == k,
            forall|i: int|
                0 <= i < k ==> #[trigger] out@[i]@ == was.subrange(
                    band_start(bounds@, i),
                    bounds@[i] as int,
                ),
            forall|ends: Seq<Seq<T>>|
                ends.len() == k && (forall|i: int|
                    0 <= i < k ==> (#[trigger] ends[i]) == final(out@[i])@) ==> left
                    == #[trigger] ends.flatten() + final(rest)@,
        decreases n - k,
    {
        let end: usize = bounds[k];
        let ghost before = final(rest)@;
        let ghost old_out = out@;
        let (head, tail) = rest.split_at_mut(end - prev);
        let ghost (first, behind) = (final(head)@, final(tail)@);
        out.push(head);
        rest = tail;
        proof {
            assert forall|ends: Seq<Seq<T>>|
                ends.len() == k + 1 && (forall|i: int|
                    0 <= i < k + 1 ==> (#[trigger] ends[i]) == final(out@[i])@) implies left
                == #[trigger] ends.flatten() + behind by {
                let e = ends.drop_last();
                assert forall|i: int| 0 <= i < k implies (#[trigger] e[i]) == final(old_out[i])@ by {
                    assert(e[i] == ends[i]);
                }
                assert(left == e.flatten() + before);
                assert(ends =~= e.push(ends.last()));
                e.lemma_flatten_push(ends.last());
                assert(ends.last() == first);
                assert(e.flatten() + (first + behind) =~= (e.flatten() + first) + behind);
            }
        }
        prev = end;
        k = k + 1;
    }
    out
}

/// Where band `k` starts.
pub open spec fn band_start(bounds: Seq<usize>, k: int) -> int {
    if k == 0 {
        0
    } else {
        bounds[k - 1] as int
    }
}

/// The bands one after another are the buffer up to the last boundary.
pub proof fn law_bands_join<T>(buf: Seq<T>, bounds: Seq<usize>, out: Seq<Seq<T>>)
    requires
        forall|i: int, j: int| 0 <= i <= j < bounds.len() ==> bounds[i] <= bounds[j],
        bounds.len() > 0 ==> bounds.last() <= buf.len(),
        out.len() == bounds.len(),
        forall|k: int|
            0 <= k < bounds.len() ==> #[trigger] out[k] == buf.subrange(
                band_start(bounds, k),
                bounds[k] as int,
            ),
    ensures
        out.flatten() == buf.take(band_start(bounds, bounds.len() as int)),
    decreases bounds.len(),
{
    if bounds.len() == 0 {
        assert(out =~= Seq::empty());
        assert(out.flatten() =~= buf.take(0));
    } else {
        let b = bounds.drop_last();
        let o = out.drop_last();
        assert forall|k: int| 0 <= k < b.len() implies #[trigger] o[k] == buf.subrange(
            band_start(b, k),
            b[k] as int,
        ) by {
            assert(o[k] == out[k]);
        }
        if b.len() > 0 {
            assert(bounds[b.len() - 1] <= bounds[b.len() as int]);
        }
        law_bands_join(buf, b, o);
        assert(out =~= o.push(out.last()));
        o.lemma_flatten_push(out.last());
    }
}

// ---- one intra macroblock ----

/// The samples of a picture's band and the intra modes of its 4x4 blocks.
#[verifier::ext_equal]
pub struct Pic {
    pub y: Grid<u8>,
    pub cb: Grid<u8>,
    pub cr: Grid<u8>,
    pub modes: Grid<Option<u8>>,
}

impl Pic {
    /// The grids have the sizes of `n` macroblock rows of `width` macroblocks
    /// from row `r0` on, and every mode is one of the nine.
    pub open spec fn ok(self, width: int, n: int, r0: int) -> bool {
        &&& self.y.ok() && self.y.shape() == (16 * width, 16 * n, 16 * r0)
        &&& self.cb.ok() && self.cb.shape() == (8 * width, 8 * n, 8 * r0)
        &&& self.cr.ok() && self.cr.shape() == (8 * width, 8 * n, 8 * r0)
        &&& self.modes.ok() && self.modes.shape() == (4 * width, 4 * n, 4 * r0)
        &&& nine_modes(self.modes)
    }
}

/// The samples of a picture's band and the intra modes of its 4x4 blocks.
pub struct Canvas {
    pub y: Plane,
    pub cb: Plane,
    pub cr: Plane,
    pub modes: Band<Option<u8>>,
}

impl View for Canvas {
    type V = Pic;

    open spec fn view(&self) -> Pic {
        Pic { y: self.y@, cb: self.cb@, cr: self.cr@, modes: self.modes@ }
    }
}

/// Where a macroblock lies: its column and row, and whether the one above it
/// belongs to the same slice.
#[derive(Clone, Copy)]
pub struct MbPos {
    pub x: usize,
    pub y: usize,
    pub top: bool,
}

impl MbPos {
    /// The macroblock lies in the band of `n` rows from `r0` on, and so does
    /// the one above it where it is in the slice.
    pub open spec fn inside(self, width: int, n: int, r0: int) -> bool {
        &&& self.x < width
        &&& r0 <= self.y < r0 + n
        &&& self.top ==> self.y > r0
        &&& 16 * width <= usize::MAX
        &&& 16 * (r0 + n) <= usize::MAX
    }
}

/// The edges of a whole block of `n` rows and columns: above it where `top` is
/// set, left of it but at the frame's border.
pub open spec fn edges_nxn(g: Grid<u8>, px: int, py: int, n: int, top: bool) -> Edges {
    Edges {
        top: Seq::new(
            16,
            |i: int|
                if i < n && top {
                    g.at(px + i, py - 1) as i32
                } else {
                    0i32
                },
        ),
        left: Seq::new(
            16,
            |i: int|
                if i < n && px > 0 {
                    g.at(px - 1, py + i) as i32
                } else {
                    0i32
                },
        ),
        corner: if top && px > 0 {
            g.at(px - 1, py - 1) as i32
        } else {
            0
        },
        top_avail: top,
        left_avail: px > 0,
    }
}

fn gather_nxn(p: &Plane, px: usize, py: usize, n: usize, top: bool) -> (r: NeighborsNxN)
    requires
        p@.ok(),
        n == 8 || n == 16,
        p@.covers(px as int, py as int, n as int, n as int),
        top ==> py > p@.y0,
    ensures
        r@ == edges_nxn(p@, px as int, py as int, n as int, top),
{
    let ghost want = edges_nxn(p@, px as int, py as int, n as int, top);
    let mut t: [i32; 16] = [0i32; 16];
    let mut l: [i32; 16] = [0i32; 16];
    for i in 0..n
        invariant
            p@.ok(),
            n == 8 || n == 16,
            p@.covers(px as int, py as int, n as int, n as int),
            top ==> py > p@.y0,
            want == edges_nxn(p@, px as int, py as int, n as int, top),
            forall|k: int| 0 <= k < i ==> #[trigger] t[k] == want.top[k],
            forall|k: int| 0 <= k < i ==> #[trigger] l[k] == want.left[k],
            forall|k: int| i <= k < 16 ==> #[trigger] t[k] == 0,
            forall|k: int| i <= k < 16 ==> #[trigger] l[k] == 0,
    {
        if top {
            t[i] = p.at(px + i, py - 1) as i32;
        }
        if px > 0 {
            l[i] = p.at(px - 1, py + i) as i32;
        }
    }
    let corner: i32 = if top && px > 0 {
        p.at(px - 1, py - 1) as i32
    } else {
        0
    };
    assert(t@ =~= want.top);
    assert(l@ =~= want.left);
    NeighborsNxN { top: t, left: l, corner, top_avail: top, left_avail: px > 0 }
}

/// The edges of a block of `n` rows and columns inside a macroblock, with `n`
/// more samples above right: where `ar` is not set, these repeat the last one.
pub open spec fn edges_block(g: Grid<u8>, px: int, py: int, n: int, top: bool, ar: bool) -> Edges {
    Edges {
        top: Seq::new(
            (2 * n) as nat,
            |i: int|
                if !top {
                    0i32
                } else if i < n || ar {
                    g.at(px + i, py - 1) as i32
                } else {
                    g.at(px + n - 1, py - 1) as i32
                },
        ),
        left: Seq::new(
            n as nat,
            |i: int|
                if px > 0 {
                    g.at(px - 1, py + i) as i32
                } else {
                    0i32
                },
        ),
        corner: if top && px > 0 {
            g.at(px - 1, py - 1) as i32
        } else {
            0
        },
        top_avail: top,
        left_avail: px > 0,
    }
}

fn gather_8x8(p: &Plane, px: usize, py: usize, top: bool, ar: bool) -> (r: Neighbors8x8)
    requires
        p@.ok(),
        p@.covers(px as int, py as int, 8, 8),
        top ==> py > p@.y0,
        ar ==> px + 16 <= p@.w,
    ensures
        r@ == edges_block(p@, px as int, py as int, 8, top, ar),
        r.corner_avail == (top && px > 0),
{
    let ghost want = edges_block(p@, px as int, py as int, 8, top, ar);
    let mut t: [i32; 16] = [0i32; 16];
    let mut l: [i32; 8] = [0i32; 8];
    if top {
        for i in 0..16usize
            invariant
                p@.ok(),
                top,
                p@.covers(px as int, py as int, 8, 8),
                py > p@.y0,
                ar ==> px + 16 <= p@.w,
                want == edges_block(p@, px as int, py as int, 8, top, ar),
                p@.w == p.w,
                forall|k: int| 0 <= k < i ==> #[trigger] t[k] == want.top[k],
        {
            let c: usize = if i < 8 || ar {
                px + i
            } else {
                px + 7
            };
            t[i] = p.at(c, py - 1) as i32;
        }
    }
    if px > 0 {
        for i in 0..8usize
            invariant
                p@.ok(),
                px > 0,
                p@.covers(px as int, py as int, 8, 8),
                want == edges_block(p@, px as int, py as int, 8, top, ar),
                forall|k: int| 0 <= k < i ==> #[trigger] l[k] == want.left[k],
        {
            l[i] = p.at(px - 1, py + i) as i32;
        }
    }
    let both: bool = top && px > 0;
    let corner: i32 = if both {
        p.at(px - 1, py - 1) as i32
    } else {
        0
    };
    assert(t@ =~= want.top);
    assert(l@ =~= want.left);
    Neighbors8x8 { top: t, left: l, corner, top_avail: top, left_avail: px > 0, corner_avail: both }
}

fn gather_4x4(p: &Plane, px: usize, py: usize, top: bool, ar: bool) -> (r: Neighbors4x4)
    requires
        p@.ok(),
        p@.covers(px as int, py as int, 4, 4),
        top ==> py > p@.y0,
        ar ==> px + 8 <= p@.w,
    ensures
        r@ == edges_block(p@, px as int, py as int, 4, top, ar),
{
    let ghost want = edges_block(p@, px as int, py as int, 4, top, ar);
    let mut t: [i32; 8] = [0i32; 8];
    let mut l: [i32; 4] = [0i32; 4];
    if top {
        for i in 0..8usize
            invariant
                p@.ok(),
                top,
                p@.covers(px as int, py as int, 4, 4),
                py > p@.y0,
                ar ==> px + 8 <= p@.w,
                want == edges_block(p@, px as int, py as int, 4, top, ar),
                p@.w == p.w,
                forall|k: int| 0 <= k < i ==> #[trigger] t[k] == want.top[k],
        {
            let c: usize = if i < 4 || ar {
                px + i
            } else {
                px + 3
            };
            t[i] = p.at(c, py - 1) as i32;
        }
    }
    if px > 0 {
        for i in 0..4usize
            invariant
                p@.ok(),
                px > 0,
                p@.covers(px as int, py as int, 4, 4),
                want == edges_block(p@, px as int, py as int, 4, top, ar),
                forall|k: int| 0 <= k < i ==> #[trigger] l[k] == want.left[k],
        {
            l[i] = p.at(px - 1, py + i) as i32;
        }
    }
    let corner: i32 = if top && px > 0 {
        p.at(px - 1, py - 1) as i32
    } else {
        0
    };
    assert(t@ =~= want.top);
    assert(l@ =~= want.left);
    Neighbors4x4 { top: t, left: l, corner, top_avail: top, left_avail: px > 0 }
}

/// A sample: prediction plus residual, limited to 8 bits. The sum is modulo
/// 2^32, which no conforming residual reaches.
pub open spec fn sample_of(pred: i32, res: i32) -> u8 {
    clip(0, 255, pred.wrapping_add(res) as int) as u8
}

fn joined(pred: i32, res: i32) -> (r: u8)
    ensures
        r == sample_of(pred, res),
{
    clip1(pred.wrapping_add(res)) as u8
}

/// The samples of an `n` by `n` block, row by row: prediction plus the residual
/// that starts at row `oy` and column `ox`.
pub open spec fn samples_of(n: int, pred: spec_fn(int, int) -> int, res: Block, oy: int, ox: int) -> Seq<
    u8,
> {
    Seq::new(
        (n * n) as nat,
        |k: int| sample_of(pred(k / n, k % n) as i32, res(oy + k / n, ox + k % n)),
    )
}

fn join_4x4(pred: &[[i32; 4]; 4], res: &[[i32; 16]; 16], oy: usize, ox: usize) -> (r: [u8; 16])
    requires
        oy <= 12,
        ox <= 12,
    ensures
        forall|k: int|
            0 <= k < 16 ==> #[trigger] r[k] == sample_of(pred[k / 4][k % 4], res[oy + k / 4][ox + k % 4]),
{
    let mut r: [u8; 16] = [0u8; 16];
    for k in 0..16usize
        invariant
            oy <= 12,
            ox <= 12,
            forall|j: int|
                0 <= j < k ==> #[trigger] r[j] == sample_of(
                    pred[j / 4][j % 4],
                    res[oy + j / 4][ox + j % 4],
                ),
    {
        r[k] = joined(pred[k / 4][k % 4], res[oy + k / 4][ox + k % 4]);
    }
    r
}

fn join_8x8(pred: &[[i32; 8]; 8], res: &[[i32; 16]; 16], oy: usize, ox: usize) -> (r: [u8; 64])
    requires
        oy <= 8,
        ox <= 8,
    ensures
        forall|k: int|
            0 <= k < 64 ==> #[trigger] r[k] == sample_of(pred[k / 8][k % 8], res[oy + k / 8][ox + k % 8]),
{
    let mut r: [u8; 64] = [0u8; 64];
    for k in 0..64usize
        invariant
            oy <= 8,
            ox <= 8,
            forall|j: int|
                0 <= j < k ==> #[trigger] r[j] == sample_of(
                    pred[j / 8][j % 8],
                    res[oy + j / 8][ox + j % 8],
                ),
    {
        r[k] = joined(pred[k / 8][k % 8], res[oy + k / 8][ox + k % 8]);
    }
    r
}

fn join_chroma(pred: &[[i32; 8]; 8], res: &[[i32; 8]; 8]) -> (r: [u8; 64])
    ensures
        forall|k: int|
            0 <= k < 64 ==> #[trigger] r[k] == sample_of(pred[k / 8][k % 8], res[k / 8][k % 8]),
{
    let mut r: [u8; 64] = [0u8; 64];
    for k in 0..64usize
        invariant
            forall|j: int|
                0 <= j < k ==> #[trigger] r[j] == sample_of(pred[j / 8][j % 8], res[j / 8][j % 8]),
    {
        r[k] = joined(pred[k / 8][k % 8], res[k / 8][k % 8]);
    }
    r
}

fn join_16x16(pred: &[[i32; 16]; 16], res: &[[i32; 16]; 16]) -> (r: [u8; 256])
    ensures
        forall|k: int|
            0 <= k < 256 ==> #[trigger] r[k] == sample_of(pred[k / 16][k % 16], res[k / 16][k % 16]),
{
    let mut r: [u8; 256] = [0u8; 256];
    for k in 0..256usize
        invariant
            forall|j: int|
                0 <= j < k ==> #[trigger] r[j] == sample_of(
                    pred[j / 16][j % 16],
                    res[j / 16][j % 16],
                ),
    {
        r[k] = joined(pred[k / 16][k % 16], res[k / 16][k % 16]);
    }
    r
}

/// The mode of the 4x4 block left of (`cx`, `cy`).
pub open spec fn left_mode(m: Grid<Option<u8>>, cx: int, cy: int) -> Option<u8> {
    if cx == 0 {
        None
    } else {
        m.at(cx - 1, cy)
    }
}

/// The mode of the 4x4 block above (`cx`, `cy`), which in a macroblock's first
/// row lies in the macroblock above.
pub open spec fn upper_mode(m: Grid<Option<u8>>, cx: int, cy: int, top: bool) -> Option<u8> {
    if cy % 4 == 0 && !top {
        None
    } else {
        m.at(cx, cy - 1)
    }
}

/// The mode with this number.
pub open spec fn mode_of(i: int) -> Intra4x4Mode {
    if i == 0 {
        Intra4x4Mode::Vertical
    } else if i == 1 {
        Intra4x4Mode::Horizontal
    } else if i == 2 {
        Intra4x4Mode::Dc
    } else if i == 3 {
        Intra4x4Mode::DiagDownLeft
    } else if i == 4 {
        Intra4x4Mode::DiagDownRight
    } else if i == 5 {
        Intra4x4Mode::VerticalRight
    } else if i == 6 {
        Intra4x4Mode::HorizontalDown
    } else if i == 7 {
        Intra4x4Mode::VerticalLeft
    } else {
        Intra4x4Mode::HorizontalUp
    }
}

/// Column and row of 4x4 block `k` inside its macroblock: four 8x8 regions of
/// four blocks each.
pub open spec fn block_col(k: int) -> int {
    2 * (k / 4 % 2) + k % 2
}

/// The row of 4x4 block `k`.
pub open spec fn block_row(k: int) -> int {
    2 * (k / 8) + k % 4 / 2
}

/// The samples above right of a 4x4 block are decoded before it: those of the
/// macroblocks above, and those of earlier blocks of its own macroblock.
pub open spec fn above_right_4x4(cx: int, cy: int, w4: int, top: bool) -> bool {
    let (lx, ly) = (cx % 4, cy % 4);
    &&& top
    &&& cx + 1 < w4
    &&& !(lx == 3 && ly > 0)
    &&& !(lx == 1 && ly % 2 == 1)
}

/// The samples above right of an 8x8 block are decoded before it.
pub open spec fn above_right_8x8(bx: int, by: int, w8: int, top: bool) -> bool {
    &&& top
    &&& bx + 1 < w8
    &&& !(bx % 2 == 1 && by % 2 == 1)
}

/// One 4x4 block of an I_4x4 macroblock.
#[verifier::opaque]
pub open spec fn intra_4x4(p: Pic, k: int, raw: Seq<i64>, res: Block, pos: MbPos) -> Pic {
    let (bx, by) = (block_col(k), block_row(k));
    let (cx, cy) = (4 * pos.x + bx, 4 * pos.y + by);
    let top = by > 0 || pos.top;
    let m = intra_mode(
        left_mode(p.modes, cx, cy),
        upper_mode(p.modes, cx, cy, pos.top),
        raw[k] as int,
    );
    let e = edges_block(p.y, 4 * cx, 4 * cy, 4, top, above_right_4x4(cx, cy, p.modes.w, top));
    Pic {
        y: p.y.put(
            4 * cx,
            4 * cy,
            4,
            4,
            samples_of(
                4,
                |y: int, x: int| predicted(mode_of(m), e, 4, y, x),
                res,
                4 * by,
                4 * bx,
            ),
        ),
        modes: p.modes.set(cx, cy, Some(m as u8)),
        ..p
    }
}

/// The 4x4 blocks of an I_4x4 macroblock from block `k` on.
pub open spec fn intra_4x4_from(p: Pic, k: int, raw: Seq<i64>, res: Block, pos: MbPos) -> Pic
    decreases 16 - k,
{
    if k >= 16 {
        p
    } else {
        intra_4x4_from(intra_4x4(p, k, raw, res, pos), k + 1, raw, res, pos)
    }
}

/// One 8x8 block of an I_8x8 macroblock.
#[verifier::opaque]
pub open spec fn intra_8x8(p: Pic, k: int, raw: Seq<i64>, res: Block, pos: MbPos) -> Pic {
    let (bx, by) = (2 * pos.x + k % 2, 2 * pos.y + k / 2);
    let (cx, cy) = (2 * bx, 2 * by);
    let top = k >= 2 || pos.top;
    let m = intra_mode(
        left_mode(p.modes, cx, cy),
        upper_mode(p.modes, cx, cy, pos.top),
        raw[k] as int,
    );
    let e = smoothed(
        edges_block(p.y, 8 * bx, 8 * by, 8, top, above_right_8x8(bx, by, p.modes.w / 2, top)),
        top && bx > 0,
    );
    Pic {
        y: p.y.put(
            8 * bx,
            8 * by,
            8,
            8,
            samples_of(
                8,
                |y: int, x: int| predicted(mode_of(m), e, 8, y, x),
                res,
                8 * (k / 2),
                8 * (k % 2),
            ),
        ),
        modes: p.modes.fill(cx, cy, 2, 2, Some(m as u8)),
        ..p
    }
}

/// The 8x8 blocks of an I_8x8 macroblock from block `k` on.
pub open spec fn intra_8x8_from(p: Pic, k: int, raw: Seq<i64>, res: Block, pos: MbPos) -> Pic
    decreases 4 - k,
{
    if k >= 4 {
        p
    } else {
        intra_8x8_from(intra_8x8(p, k, raw, res, pos), k + 1, raw, res, pos)
    }
}

/// The whole-block mode with this number.
pub open spec fn plane_mode_of(i: int) -> PlaneMode {
    if i == 0 {
        PlaneMode::Vertical
    } else if i == 1 {
        PlaneMode::Horizontal
    } else if i == 2 {
        PlaneMode::Dc
    } else {
        PlaneMode::Plane
    }
}

/// The chroma mode of an `intra_chroma_pred_mode`, which counts DC first.
pub open spec fn chroma_mode_of(c_ipred: int) -> PlaneMode {
    if c_ipred == 0 {
        PlaneMode::Dc
    } else if c_ipred == 1 {
        PlaneMode::Horizontal
    } else if c_ipred == 2 {
        PlaneMode::Vertical
    } else {
        PlaneMode::Plane
    }
}

/// An Intra_16x16 macroblock's luma; its blocks count as DC for their
/// neighbours.
#[verifier::opaque]
pub open spec fn intra_16x16(p: Pic, i16_pred: int, res: Block, pos: MbPos) -> Pic {
    let e = edges_nxn(p.y, 16 * pos.x as int, 16 * pos.y as int, 16, pos.top);
    Pic {
        y: p.y.put(
            16 * pos.x as int,
            16 * pos.y as int,
            16,
            16,
            samples_of(
                16,
                |y: int, x: int| predicted16(plane_mode_of(i16_pred), e, y, x),
                res,
                0,
                0,
            ),
        ),
        modes: p.modes.fill(4 * pos.x as int, 4 * pos.y as int, 4, 4, Some(2u8)),
        ..p
    }
}

/// A chroma plane of an intra macroblock.
#[verifier::opaque]
pub open spec fn intra_chroma(g: Grid<u8>, c_ipred: int, res: Block, pos: MbPos) -> Grid<u8> {
    let e = edges_nxn(g, 8 * pos.x as int, 8 * pos.y as int, 8, pos.top);
    g.put(
        8 * pos.x as int,
        8 * pos.y as int,
        8,
        8,
        samples_of(
            8,
            |y: int, x: int| predicted_chroma(chroma_mode_of(c_ipred), e, y, x),
            res,
            0,
            0,
        ),
    )
}

/// An intra macroblock: luma by its type, then both chroma planes.
#[verifier::opaque]
pub open spec fn intra_mb(p: Pic, info: MbInfo, raw: Seq<i64>, res: Residual, pos: MbPos) -> Pic {
    let q = if !info.i_nxn {
        intra_16x16(p, info.i16_pred as int, res.luma, pos)
    } else if info.transform8x8 {
        intra_8x8_from(p, 0, raw, res.luma, pos)
    } else {
        intra_4x4_from(p, 0, raw, res.luma, pos)
    };
    Pic {
        cb: intra_chroma(q.cb, info.c_ipred as int, res.cb, pos),
        cr: intra_chroma(q.cr, info.c_ipred as int, res.cr, pos),
        ..q
    }
}

proof fn lemma_samples_eq(n: int, a: Seq<u8>, pred: spec_fn(int, int) -> int, res: Block, oy: int, ox: int)
    requires
        n > 0,
        a.len() == n * n,
        forall|k: int|
            0 <= k < n * n ==> #[trigger] a[k] == sample_of(
                pred(k / n, k % n) as i32,
                res(oy + k / n, ox + k % n),
            ),
    ensures
        a == samples_of(n, pred, res, oy, ox),
{
    assert(a =~= samples_of(n, pred, res, oy, ox));
}

/// Every mode of a grid is one of the nine.
pub open spec fn nine_modes(m: Grid<Option<u8>>) -> bool {
    forall|k: int| 0 <= k < m.d.len() ==> (#[trigger] m.d[k] is Some ==> m.d[k]->0 <= 8)
}

fn derive_mode(modes: &Band<Option<u8>>, cx: usize, cy: usize, top: bool, raw: i64) -> (m: u8)
    requires
        modes@.ok(),
        nine_modes(modes@),
        modes@.has(cx as int, cy as int),
        cy % 4 != 0 || top ==> cy > modes@.y0,
        -1 <= raw <= 7,
    ensures
        m == intra_mode(
            left_mode(modes@, cx as int, cy as int),
            upper_mode(modes@, cx as int, cy as int, top),
            raw as int,
        ),
        m <= 8,
{
    let ghost g = modes@;
    let left: Option<u8> = if cx == 0 {
        None
    } else {
        modes.at(cx - 1, cy)
    };
    let up: Option<u8> = if cy % 4 == 0 && !top {
        None
    } else {
        modes.at(cx, cy - 1)
    };
    proof {
        if cx > 0 {
            lemma_row_bounds(g.w, g.rows, cy - g.y0, cx - 1);
            assert(left == g.d[g.index(cx - 1, cy as int)]);
        }
        if cy % 4 != 0 || top {
            lemma_row_bounds(g.w, g.rows, cy - 1 - g.y0, cx as int);
            assert(up == g.d[g.index(cx as int, cy - 1)]);
        }
        law_derived_mode_range(left, up, raw as int);
    }
    derive_intra_mode(left, up, raw)
}

fn intra_mode_of(m: u8) -> (mode: Intra4x4Mode)
    requires
        m <= 8,
    ensures
        mode == mode_of(m as int),
{
    match Intra4x4Mode::from_index(m as u32) {
        Some(v) => v,
        None => Intra4x4Mode::Dc,
    }
}

fn samples_4x4(n: &Neighbors4x4, m: u8, res: &MbResidual, oy: usize, ox: usize, Ghost(blk): Ghost<Block>) -> (r: [u8; 16])
    requires
        m <= 8,
        oy <= 12,
        ox <= 12,
        shows16(res.luma, blk),
    ensures
        r@ == samples_of(
            4,
            |y: int, x: int| predicted(mode_of(m as int), n@, 4, y, x),
            blk,
            oy as int,
            ox as int,
        ),
{
    let pred = predict_4x4(intra_mode_of(m), n);
    let out = join_4x4(&pred, &res.luma, oy, ox);
    let ghost f = |y: int, x: int| predicted(mode_of(m as int), n@, 4, y, x);
    proof {
        assert forall|j: int| 0 <= j < 4 * 4 implies #[trigger] out@[j] == sample_of(
            f(j / 4, j % 4) as i32,
            blk(oy + j / 4, ox + j % 4),
        ) by {
            assert(pred[j / 4][j % 4] == f(j / 4, j % 4));
            assert(res.luma[oy + j / 4][ox + j % 4] == blk(oy + j / 4, ox + j % 4));
        }
        lemma_samples_eq(4, out@, f, blk, oy as int, ox as int);
    }
    out
}

fn samples_8x8(n: &Neighbors8x8, m: u8, res: &MbResidual, oy: usize, ox: usize, Ghost(blk): Ghost<Block>) -> (r: [u8; 64])
    requires
        m <= 8,
        oy <= 8,
        ox <= 8,
        shows16(res.luma, blk),
    ensures
        r@ == samples_of(
            8,
            |y: int, x: int|
                predicted(mode_of(m as int), smoothed(n@, n.corner_avail), 8, y, x),
            blk,
            oy as int,
            ox as int,
        ),
{
    let pred = predict_8x8(intra_mode_of(m), n);
    let out = join_8x8(&pred, &res.luma, oy, ox);
    let ghost f = |y: int, x: int|
        predicted(mode_of(m as int), smoothed(n@, n.corner_avail), 8, y, x);
    proof {
        assert forall|j: int| 0 <= j < 8 * 8 implies #[trigger] out@[j] == sample_of(
            f(j / 8, j % 8) as i32,
            blk(oy + j / 8, ox + j % 8),
        ) by {
            assert(pred[j / 8][j % 8] == f(j / 8, j % 8));
            assert(res.luma[oy + j / 8][ox + j % 8] == blk(oy + j / 8, ox + j % 8));
        }
        lemma_samples_eq(8, out@, f, blk, oy as int, ox as int);
    }
    out
}

fn block_place(k: usize) -> (r: (usize, usize))
    requires
        k < 16,
    ensures
        r.0 == block_col(k as int),
        r.1 == block_row(k as int),
        r.0 < 4,
        r.1 < 4,
{
    (2 * (k / 4 % 2) + k % 2, 2 * (k / 8) + k % 4 / 2)
}

proof fn lemma_set_mode(g: Grid<Option<u8>>, x: int, y: int, m: u8)
    requires
        g.ok(),
        g.has(x, y),
        nine_modes(g),
        m <= 8,
    ensures
        nine_modes(g.set(x, y, Some(m))),
{
    lemma_row_bounds(g.w, g.rows, y - g.y0, x);
}

fn reconstruct_4x4(
    pic: &mut Canvas,
    k: usize,
    raw: i64,
    res: &MbResidual,
    pos: MbPos,
    Ghost(raws): Ghost<Seq<i64>>,
    Ghost(blk): Ghost<Block>,
    Ghost(s): Ghost<(int, int, int)>,
)
    requires
        old(pic)@.ok(s.0, s.1, s.2),
        pos.inside(s.0, s.1, s.2),
        k < 16,
        raws[k as int] == raw,
        -1 <= raw <= 7,
        shows16(res.luma, blk),
    ensures
        final(pic)@ == intra_4x4(old(pic)@, k as int, raws, blk, pos),
        final(pic)@.ok(s.0, s.1, s.2),
{
    proof {
        reveal(intra_4x4);
    }
    let ghost p = pic@;
    let (bx, by): (usize, usize) = block_place(k);
    let cx: usize = 4 * pos.x + bx;
    let cy: usize = 4 * pos.y + by;
    assert(cx % 4 == bx && cy % 4 == by);
    let top: bool = by > 0 || pos.top;
    let w4: usize = pic.modes.w;
    let m: u8 = derive_mode(&pic.modes, cx, cy, pos.top, raw);
    let ar: bool = top && cx + 1 < w4 && !(bx == 3 && by > 0) && !(bx == 1 && by % 2 == 1);
    let n = gather_4x4(&pic.y, 4 * cx, 4 * cy, top, ar);
    let out = samples_4x4(&n, m, res, 4 * by, 4 * bx, Ghost(blk));
    pic.y.put(4 * cx, 4 * cy, 4, 4, &out);
    pic.modes.set(cx, cy, Some(m));
    proof {
        lemma_set_mode(p.modes, cx as int, cy as int, m);
    }
}

fn reconstruct_8x8(
    pic: &mut Canvas,
    k: usize,
    raw: i64,
    res: &MbResidual,
    pos: MbPos,
    Ghost(raws): Ghost<Seq<i64>>,
    Ghost(blk): Ghost<Block>,
    Ghost(s): Ghost<(int, int, int)>,
)
    requires
        old(pic)@.ok(s.0, s.1, s.2),
        pos.inside(s.0, s.1, s.2),
        k < 4,
        raws[k as int] == raw,
        -1 <= raw <= 7,
        shows16(res.luma, blk),
    ensures
        final(pic)@ == intra_8x8(old(pic)@, k as int, raws, blk, pos),
        final(pic)@.ok(s.0, s.1, s.2),
{
    proof {
        reveal(intra_8x8);
    }
    let ghost p = pic@;
    let bx: usize = 2 * pos.x + k % 2;
    let by: usize = 2 * pos.y + k / 2;
    let cx: usize = 2 * bx;
    let cy: usize = 2 * by;
    let top: bool = k >= 2 || pos.top;
    let w8: usize = pic.modes.w / 2;
    let m: u8 = derive_mode(&pic.modes, cx, cy, pos.top, raw);
    let ar: bool = top && bx + 1 < w8 && !(bx % 2 == 1 && by % 2 == 1);
    let n = gather_8x8(&pic.y, 8 * bx, 8 * by, top, ar);
    let out = samples_8x8(&n, m, res, 8 * (k / 2), 8 * (k % 2), Ghost(blk));
    pic.y.put(8 * bx, 8 * by, 8, 8, &out);
    pic.modes.fill(cx, cy, 2, 2, Some(m));
}

fn reconstruct_16x16(
    pic: &mut Canvas,
    i16_pred: u8,
    res: &MbResidual,
    pos: MbPos,
    Ghost(blk): Ghost<Block>,
    Ghost(s): Ghost<(int, int, int)>,
)
    requires
        old(pic)@.ok(s.0, s.1, s.2),
        pos.inside(s.0, s.1, s.2),
        i16_pred < 4,
        shows16(res.luma, blk),
    ensures
        final(pic)@ == intra_16x16(old(pic)@, i16_pred as int, blk, pos),
        final(pic)@.ok(s.0, s.1, s.2),
{
    proof {
        reveal(intra_16x16);
    }
    let n = gather_nxn(&pic.y, 16 * pos.x, 16 * pos.y, 16, pos.top);
    let mode: PlaneMode = match PlaneMode::from_index(i16_pred as u32) {
        Some(v) => v,
        None => PlaneMode::Dc,
    };
    assert(mode == plane_mode_of(i16_pred as int));
    let pred = predict_16x16(mode, &n);
    let out = join_16x16(&pred, &res.luma);
    let ghost e = n@;
    let ghost f = |y: int, x: int| predicted16(plane_mode_of(i16_pred as int), e, y, x);
    proof {
        assert forall|j: int| 0 <= j < 16 * 16 implies #[trigger] out@[j] == sample_of(
            f(j / 16, j % 16) as i32,
            blk(0 + j / 16, 0 + j % 16),
        ) by {
            assert(pred[j / 16][j % 16] == f(j / 16, j % 16));
            assert(res.luma[j / 16][j % 16] == blk(j / 16, j % 16));
        }
        lemma_samples_eq(16, out@, f, blk, 0, 0);
    }
    pic.y.put(16 * pos.x, 16 * pos.y, 16, 16, &out);
    pic.modes.fill(4 * pos.x, 4 * pos.y, 4, 4, Some(2));
}

fn reconstruct_chroma(
    plane: &mut Plane,
    c_ipred: u8,
    res: &[[i32; 8]; 8],
    pos: MbPos,
    Ghost(blk): Ghost<Block>,
    Ghost(s): Ghost<(int, int, int)>,
)
    requires
        old(plane)@.ok(),
        old(plane)@.shape() == (8 * s.0, 8 * s.1, 8 * s.2),
        pos.inside(s.0, s.1, s.2),
        shows8(*res, blk),
    ensures
        final(plane)@ == intra_chroma(old(plane)@, c_ipred as int, blk, pos),
        final(plane)@.ok(),
        final(plane)@.shape() == old(plane)@.shape(),
{
    proof {
        reveal(intra_chroma);
    }
    let n = gather_nxn(plane, 8 * pos.x, 8 * pos.y, 8, pos.top);
    let mode: PlaneMode = match c_ipred {
        0 => PlaneMode::Dc,
        1 => PlaneMode::Horizontal,
        2 => PlaneMode::Vertical,
        _ => PlaneMode::Plane,
    };
    assert(mode == chroma_mode_of(c_ipred as int));
    let pred = predict_chroma_8x8(mode, &n);
    let out = join_chroma(&pred, res);
    let ghost e = n@;
    let ghost f = |y: int, x: int| predicted_chroma(chroma_mode_of(c_ipred as int), e, y, x);
    proof {
        assert forall|j: int| 0 <= j < 8 * 8 implies #[trigger] out@[j] == sample_of(
            f(j / 8, j % 8) as i32,
            blk(0 + j / 8, 0 + j % 8),
        ) by {
            assert(pred[j / 8][j % 8] == f(j / 8, j % 8));
            assert(res[j / 8][j % 8] == blk(j / 8, j % 8));
        }
        lemma_samples_eq(8, out@, f, blk, 0, 0);
    }
    plane.put(8 * pos.x, 8 * pos.y, 8, 8, &out);
}

/// Reconstruct one intra macroblock into the picture and note the modes of its
/// 4x4 blocks. `raw` holds the decoded mode elements of an I_NxN macroblock,
/// `blk` what the residual `res` shows, and `s` the macroblock columns, rows
/// and first row of the band.
pub fn reconstruct_intra_mb(
    pic: &mut Canvas,
    info: &MbInfo,
    raw: &[i64],
    res: &MbResidual,
    pos: MbPos,
    Ghost(blk): Ghost<Residual>,
    Ghost(s): Ghost<(int, int, int)>,
)
    requires
        old(pic)@.ok(s.0, s.1, s.2),
        pos.inside(s.0, s.1, s.2),
        info.i_nxn ==> raw@.len() == (if info.transform8x8 {
            4int
        } else {
            16int
        }),
        modes_ok(raw@),
        info.i16_pred < 4,
        res.shows(blk),
    ensures
        final(pic)@ == intra_mb(old(pic)@, *info, raw@, blk, pos),
        final(pic)@.ok(s.0, s.1, s.2),
{
    proof {
        reveal(intra_mb);
    }
    let ghost start = pic@;
    if !info.i_nxn {
        reconstruct_16x16(pic, info.i16_pred, res, pos, Ghost(blk.luma), Ghost(s));
    } else if info.transform8x8 {
        for k in 0..4usize
            invariant
                start == old(pic)@,
                pic@.ok(s.0, s.1, s.2),
                pos.inside(s.0, s.1, s.2),
                raw@.len() == 4,
                modes_ok(raw@),
                shows16(res.luma, blk.luma),
                intra_8x8_from(pic@, k as int, raw@, blk.luma, pos) == intra_8x8_from(
                    start,
                    0,
                    raw@,
                    blk.luma,
                    pos,
                ),
        {
            reconstruct_8x8(pic, k, raw[k], res, pos, Ghost(raw@), Ghost(blk.luma), Ghost(s));
        }
    } else {
        for k in 0..16usize
            invariant
                start == old(pic)@,
                pic@.ok(s.0, s.1, s.2),
                pos.inside(s.0, s.1, s.2),
                raw@.len() == 16,
                modes_ok(raw@),
                shows16(res.luma, blk.luma),
                intra_4x4_from(pic@, k as int, raw@, blk.luma, pos) == intra_4x4_from(
                    start,
                    0,
                    raw@,
                    blk.luma,
                    pos,
                ),
        {
            reconstruct_4x4(pic, k, raw[k], res, pos, Ghost(raw@), Ghost(blk.luma), Ghost(s));
        }
    }
    reconstruct_chroma(&mut pic.cb, info.c_ipred, &res.cb, pos, Ghost(blk.cb), Ghost(s));
    reconstruct_chroma(&mut pic.cr, info.c_ipred, &res.cr, pos, Ghost(blk.cr), Ghost(s));
}

// ---- errors ----

/// Why a frame cannot be decoded.
#[derive(Debug, Clone, Copy, PartialEq, Eq)]
pub enum ReconError {
    /// A slice header does not parse.
    Header(ReadError),
    /// There is no slice.
    NoSlice,
    /// The frame is empty or too large to address.
    Size,
    /// A slice does not start at the beginning of a macroblock row.
    Unaligned,
    /// The slices do not follow each other down the frame.
    Unordered,
    /// A residual would be scaled with a quantiser out of range.
    Quantiser,
    /// A slice runs past its rows or past the frame.
    Desync,
    /// The slices do not cover the frame.
    Coverage,
    /// An I_PCM macroblock, which is not supported.
    Pcm,
    /// An inter slice without a reference.
    NoReference,
    /// A reference index past the end of its list.
    RefRange,
    /// A reference list shorter than the slice needs.
    ShortList,
    /// A reference without a sample that prediction reads.
    ShortReference,
}

impl ReconError {
    /// The message shown to a user.
    pub fn message(&self) -> (s: &'static str)
        ensures
            s@ == (match *self {
                ReconError::Header(ReadError::Truncated) => "ran off the end of the bitstream"@,
                ReconError::Header(ReadError::ExpGolombOverflow) =>
                    "exp-Golomb codeword length exceeds 32 bits"@,
                ReconError::NoSlice => "no slice to decode"@,
                ReconError::Size => "frame size out of range"@,
                ReconError::Unaligned => "non-MB-row-aligned slice (unsupported)"@,
                ReconError::Unordered => "slices out of order"@,
                ReconError::Quantiser => "quantiser out of range"@,
                ReconError::Desync => "decode ran past the slice's rows (desync)"@,
                ReconError::Coverage => "slice desync: not every MB was decoded"@,
                ReconError::Pcm => "I_PCM not supported"@,
                ReconError::NoReference => "inter slice with no reference"@,
                ReconError::RefRange => "ref_idx exceeds the built references"@,
                ReconError::ShortList => "ref list shorter than num_ref_idx_active"@,
                ReconError::ShortReference => "reference frame too small for the prediction"@,
            }),
    {
        match self {
            ReconError::Header(e) => e.message(),
            ReconError::NoSlice => "no slice to decode",
            ReconError::Size => "frame size out of range",
            ReconError::Unaligned => "non-MB-row-aligned slice (unsupported)",
            ReconError::Unordered => "slices out of order",
            ReconError::Quantiser => "quantiser out of range",
            ReconError::Desync => "decode ran past the slice's rows (desync)",
            ReconError::Coverage => "slice desync: not every MB was decoded",
            ReconError::Pcm => "I_PCM not supported",
            ReconError::NoReference => "inter slice with no reference",
            ReconError::RefRange => "ref_idx exceeds the built references",
            ReconError::ShortList => "ref list shorter than num_ref_idx_active",
            ReconError::ShortReference => "reference frame too small for the prediction",
        }
    }
}

// ---- the slices of a frame ----

/// The stream that a slice's header starts in.
pub open spec fn at_start(rbsp: Seq<u8>) -> Cursor {
    Cursor { data: rbsp, pos: 0, err: None }
}

/// What the decoding of a slice depends on besides its bits.
pub struct SliceEnv {
    pub idr: bool,
    pub nal_ref_idc: u8,
    pub sps: Sps,
    pub pps: Pps,
}

impl SliceEnv {
    /// Macroblocks in a row.
    pub open spec fn width(self) -> int {
        self.sps.pic_width_in_mbs as int
    }

    /// Macroblock rows.
    pub open spec fn height(self) -> int {
        self.sps.pic_height_in_map_units as int
    }

    /// The header of a slice, and the position after it.
    pub open spec fn header(self, rbsp: Seq<u8>) -> (SliceData, Cursor) {
        slice_data(at_start(rbsp), self.idr, self.nal_ref_idc, self.sps, self.pps)
    }

    /// The slice's entropy decoder at its first bin, on the byte boundary after
    /// the header.
    pub open spec fn engine(self, rbsp: Seq<u8>) -> Engine {
        let c = self.header(rbsp).1;
        Engine::start(c.data.skip((c.pos + 7) / 8))
    }

    /// The slice's luma quantiser, modulo 2^32.
    pub open spec fn slice_qp(self, rbsp: Seq<u8>) -> i32 {
        26i32.wrapping_add(self.pps.pic_init_qp_minus26).wrapping_add(
            self.header(rbsp).0.fields.slice_qp_delta,
        )
    }

    /// The weight matrices in force: the picture's, else the sequence's, else
    /// flat ones.
    pub open spec fn scaling(self) -> ScalingLists {
        match self.pps.scaling {
            Some(s) => s,
            None => match self.sps.scaling {
                Some(s) => s,
                None => flat_lists(),
            },
        }
    }

    /// The deblocking parameters of a slice.
    pub open spec fn deblocking(self, rbsp: Seq<u8>) -> (u32, i32, i32) {
        let f = self.header(rbsp).0.fields;
        (f.disable_deblocking_filter_idc, f.slice_alpha_c0_offset_div2, f.slice_beta_offset_div2)
    }

    /// The samples of a frame of this size can be held.
    pub open spec fn area_ok(self) -> bool {
        256 * (self.width() * self.height()) <= isize::MAX
    }

    /// The frame has samples, and they can be held.
    pub open spec fn size_ok(self) -> bool {
        &&& self.width() >= 1
        &&& self.height() >= 1
        &&& self.area_ok()
    }
}

impl SliceEnv {
    /// The sample coordinates of a frame of this size fit the 32-bit arithmetic of
    /// motion vectors.
    pub open spec fn sides_ok(self) -> bool {
        &&& 16 * self.width() <= i32::MAX
        &&& 16 * self.height() <= i32::MAX
    }
}

/// The byte strings of some slices.
pub open spec fn bytes_of(slices: Seq<&[u8]>) -> Seq<Seq<u8>> {
    Seq::new(slices.len(), |k: int| slices[k]@)
}

/// The first macroblock addresses of the first `n` slices, or the error of the
/// first header that does not parse.
pub open spec fn first_mbs(slices: Seq<Seq<u8>>, n: nat, env: SliceEnv) -> Result<Seq<u32>, ReadError>
    decreases n,
{
    if n == 0 {
        Ok(Seq::empty())
    } else {
        match first_mbs(slices, (n - 1) as nat, env) {
            Err(e) => Err(e),
            Ok(s) => {
                let (d, c) = env.header(slices[n - 1]);
                match c.err {
                    Some(e) => Err(e),
                    None => Ok(s.push(d.fields.first_mb_in_slice)),
                }
            },
        }
    }
}

/// The macroblock row after the last one of slice `k`: where the next slice
/// starts, or the bottom of the frame.
pub open spec fn row_end(firsts: Seq<u32>, k: int, width: int, height: int) -> int {
    if k + 1 < firsts.len() {
        firsts[k + 1] as int / width
    } else {
        height
    }
}

/// The macroblock row that slice `k` starts at.
pub open spec fn row_start(firsts: Seq<u32>, k: int, width: int) -> int {
    firsts[k] as int / width
}

/// Macroblock rows that slice `k` has room for: those up to its end that no
/// earlier slice has.
pub open spec fn row_count(firsts: Seq<u32>, k: int, width: int, height: int) -> int {
    row_end(firsts, k, width, height) - (if k == 0 {
        0
    } else {
        row_start(firsts, k, width)
    })
}

/// What is wrong with the starts of the slices.
pub open spec fn plan_error(firsts: Seq<u32>, width: int, height: int) -> Option<ReconError> {
    if width < 1 {
        Some(ReconError::Size)
    } else if exists|k: int| 0 <= k < firsts.len() && #[trigger] firsts[k] as int % width != 0 {
        Some(ReconError::Unaligned)
    } else if exists|k: int|
        0 <= k < firsts.len() && #[trigger] row_count(firsts, k, width, height) < 0 {
        Some(ReconError::Unordered)
    } else if height < 1 {
        Some(ReconError::Size)
    } else {
        None
    }
}

/// Start row and row count of every slice.
pub open spec fn bands_of(firsts: Seq<u32>, width: int, height: int) -> Seq<(int, int)> {
    Seq::new(
        firsts.len(),
        |k: int| (row_start(firsts, k, width), row_count(firsts, k, width, height)),
    )
}

/// Start row and row count of every slice of a frame, or why there is no such
/// plan.
pub open spec fn slice_plan(slices: Seq<Seq<u8>>, env: SliceEnv) -> Result<
    Seq<(int, int)>,
    ReconError,
> {
    if !env.area_ok() {
        Err(ReconError::Size)
    } else if slices.len() == 0 {
        Err(ReconError::NoSlice)
    } else {
        match first_mbs(slices, slices.len(), env) {
            Err(e) => Err(ReconError::Header(e)),
            Ok(firsts) => match plan_error(firsts, env.width(), env.height()) {
                Some(e) => Err(e),
                None => Ok(bands_of(firsts, env.width(), env.height())),
            },
        }
    }
}

/// Where slice `k` begins in the frame's buffers, in macroblock rows.
pub open spec fn rows_before(plan: Seq<(int, int)>, k: int) -> int
    decreases k,
{
    if k <= 0 {
        0
    } else {
        rows_before(plan, k - 1) + plan[k - 1].1
    }
}

fn area_fits(sps: &Sps) -> (r: bool)
    ensures
        r == (256 * (sps.pic_width_in_mbs * sps.pic_height_in_map_units) <= isize::MAX),
{
    let w: u64 = sps.pic_width_in_mbs as u64;
    let h: u64 = sps.pic_height_in_map_units as u64;
    assert(w * h <= 0xffff_ffff * 0xffff_ffff) by (nonlinear_arith)
        requires
            w <= 0xffff_ffff,
            h <= 0xffff_ffff,
    ;
    w * h <= (isize::MAX / 256) as u64
}

fn parse_first_mbs(
    slices: &[&[u8]],
    nal_ref_idc: u8,
    idr: bool,
    sps: &Sps,
    pps: &Pps,
) -> (r: Result<Vec<u32>, ReadError>)
    requires
        widths_ok(*sps),
    ensures
        ({
            let env = SliceEnv { idr, nal_ref_idc, sps: *sps, pps: *pps };
            match r {
                Ok(v) => first_mbs(bytes_of(slices@), slices@.len(), env) == Ok::<
                    Seq<u32>,
                    ReadError,
                >(v@) && v@.len() == slices@.len(),
                Err(e) => first_mbs(bytes_of(slices@), slices@.len(), env) == Err::<
                    Seq<u32>,
                    ReadError,
                >(e),
            }
        }),
{
    let ghost env = SliceEnv { idr, nal_ref_idc, sps: *sps, pps: *pps };
    let ghost all = bytes_of(slices@);
    let mut out: Vec<u32> = Vec::new();
    let n: usize = slices.len();
    for k in 0..n
        invariant
            n == slices@.len(),
            widths_ok(*sps),
            env == (SliceEnv { idr, nal_ref_idc, sps: *sps, pps: *pps }),
            all == bytes_of(slices@),
            out@.len() == k,
            first_mbs(all, k as nat, env) == Ok::<Seq<u32>, ReadError>(out@),
    {
        let rbsp: &[u8] = slices[k];
        let mut reader = BitReader::new(rbsp);
        assert(all[k as int] == rbsp@);
        match parse_slice_header(&mut reader, idr, nal_ref_idc, sps, pps) {
            Ok(h) => {
                out.push(h.first_mb_in_slice);
            },
            Err(e) => {
                proof {
                    lemma_first_mbs_error(all, (k + 1) as nat, n as nat, env, e);
                }
                return Err(e);
            },
        }
    }
    Ok(out)
}

proof fn lemma_first_mbs_error(slices: Seq<Seq<u8>>, k: nat, n: nat, env: SliceEnv, e: ReadError)
    requires
        k <= n,
        first_mbs(slices, k, env) == Err::<Seq<u32>, ReadError>(e),
    ensures
        first_mbs(slices, n, env) == Err::<Seq<u32>, ReadError>(e),
    decreases n,
{
    if k < n {
        lemma_first_mbs_error(slices, k, (n - 1) as nat, env, e);
    }
}

/// Start rows and row counts as machine numbers.
pub open spec fn plan_view(v: Seq<(usize, usize)>) -> Seq<(int, int)> {
    Seq::new(v.len(), |k: int| (v[k].0 as int, v[k].1 as int))
}

/// Cut a frame into the row bands of its slices: start row and row count of
/// each.
pub fn plan_slices(
    slices: &[&[u8]],
    nal_ref_idc: u8,
    idr: bool,
    sps: &Sps,
    pps: &Pps,
) -> (r: Result<Vec<(usize, usize)>, ReconError>)
    requires
        widths_ok(*sps),
    ensures
        ({
            let env = SliceEnv { idr, nal_ref_idc, sps: *sps, pps: *pps };
            match r {
                Ok(v) => slice_plan(bytes_of(slices@), env) == Ok::<Seq<(int, int)>, ReconError>(
                    plan_view(v@),
                ) && v@.len() == slices@.len() && v@.len() > 0 && env.size_ok() && rows_before(
                    plan_view(v@),
                    v@.len() as int,
                ) == env.height(),
                Err(e) => slice_plan(bytes_of(slices@), env) == Err::<Seq<(int, int)>, ReconError>(e),
            }
        }),
{
    let ghost env = SliceEnv { idr, nal_ref_idc, sps: *sps, pps: *pps };
    if !area_fits(sps) {
        return Err(ReconError::Size);
    }
    if slices.len() == 0 {
        return Err(ReconError::NoSlice);
    }
    let firsts: Vec<u32> = match parse_first_mbs(slices, nal_ref_idc, idr, sps, pps) {
        Ok(v) => v,
        Err(e) => {
            return Err(ReconError::Header(e));
        },
    };
    plan_rows(&firsts, sps.pic_width_in_mbs, sps.pic_height_in_map_units)
}

fn plan_rows(firsts: &Vec<u32>, width: u32, height: u32) -> (r: Result<
    Vec<(usize, usize)>,
    ReconError,
>)
    requires
        firsts@.len() > 0,
    ensures
        match r {
            Ok(v) => v@.len() == firsts@.len() && plan_error(firsts@, width as int, height as int) is None
                && plan_view(v@) == bands_of(firsts@, width as int, height as int) && rows_before(
                plan_view(v@),
                v@.len() as int,
            ) == height && width >= 1 && height >= 1,
            Err(e) => plan_error(firsts@, width as int, height as int) == Some(e),
        },
{
    let n: usize = firsts.len();
    let ghost (w, h) = (width as int, height as int);
    if width < 1 {
        return Err(ReconError::Size);
    }
    for k in 0..n
        invariant
            n == firsts@.len(),
            width >= 1,
            forall|j: int| 0 <= j < k ==> #[trigger] firsts@[j] as int % width as int == 0,
    {
        if firsts[k] % width != 0 {
            return Err(ReconError::Unaligned);
        }
    }
    let mut out: Vec<(usize, usize)> = Vec::new();
    let mut begin: u32 = 0;
    for k in 0..n
        invariant
            n == firsts@.len(),
            width >= 1,
            w == width as int,
            h == height as int,
            forall|j: int| 0 <= j < n ==> #[trigger] firsts@[j] as int % w == 0,
            begin == (if k == 0 {
                0
            } else {
                row_end(firsts@, k - 1, w, h)
            }),
            out@.len() == k,
            forall|j: int|
                0 <= j < k ==> (#[trigger] out@[j]).0 == row_start(firsts@, j, w) && out@[j].1
                    == row_count(firsts@, j, w, h),
            forall|j: int| 0 <= j < k ==> #[trigger] row_count(firsts@, j, w, h) >= 0,
            rows_before(plan_view(out@), k as int) == begin,
    {
        let start: u32 = firsts[k] / width;
        let end: u32 = if k + 1 < n {
            firsts[k + 1] / width
        } else {
            height
        };
        assert(row_end(firsts@, k as int, w, h) == end);
        assert(k > 0 ==> begin == start);
        if end < begin {
            assert(row_count(firsts@, k as int, w, h) < 0);
            return Err(ReconError::Unordered);
        }
        let ghost was = out@;
        out.push((start as usize, (end - begin) as usize));
        proof {
            assert(plan_view(out@).drop_last() =~= plan_view(was));
            lemma_rows_before_prefix(plan_view(out@), plan_view(was), k as int);
        }
        begin = end;
    }
    assert(plan_view(out@) =~= bands_of(firsts@, w, h));
    if height < 1 {
        return Err(ReconError::Size);
    }
    Ok(out)
}

proof fn lemma_rows_before_prefix(a: Seq<(int, int)>, b: Seq<(int, int)>, k: int)
    requires
        0 <= k <= b.len() <= a.len(),
        forall|j: int| 0 <= j < k ==> a[j] == b[j],
    ensures
        rows_before(a, k) == rows_before(b, k),
    decreases k,
{
    if k > 0 {
        lemma_rows_before_prefix(a, b, k - 1);
    }
}

// ---- an intra slice ----

/// The macroblock data of a band: headers, coded block flags and quantisers.
#[verifier::ext_equal]
pub struct MbGrids {
    pub info: Grid<MbInfo>,
    pub cbp: Grid<CbpBits>,
    pub qp: Grid<i32>,
}

impl MbGrids {
    /// The grids have the sizes of the band.
    pub open spec fn ok(self, width: int, n: int, r0: int) -> bool {
        &&& self.info.ok() && self.info.shape() == (width, n, r0)
        &&& self.cbp.ok() && self.cbp.shape() == (width, n, r0)
        &&& self.qp.ok() && self.qp.shape() == (width, n, r0)
    }

    /// The header of the macroblock to the left.
    pub open spec fn left(self, pos: MbPos) -> Option<MbInfo> {
        if pos.x > 0 {
            Some(self.info.at(pos.x - 1, pos.y as int))
        } else {
            None
        }
    }

    /// The header of the macroblock above, in the same slice.
    pub open spec fn up(self, pos: MbPos) -> Option<MbInfo> {
        if pos.top {
            Some(self.info.at(pos.x as int, pos.y - 1))
        } else {
            None
        }
    }

    /// The coded block flags of the neighbours.
    pub open spec fn flags(self, pos: MbPos) -> CbfNeighbours {
        CbfNeighbours {
            cur: CbpBits(0),
            left: if pos.x > 0 {
                Some(self.cbp.at(pos.x - 1, pos.y as int))
            } else {
                None
            },
            up: if pos.top {
                Some(self.cbp.at(pos.x as int, pos.y - 1))
            } else {
                None
            },
        }
    }

    /// The grids with the data of one macroblock.
    pub open spec fn store(self, pos: MbPos, info: MbInfo, cbp: CbpBits, qp: i32) -> MbGrids {
        MbGrids {
            info: self.info.set(pos.x as int, pos.y as int, info),
            cbp: self.cbp.set(pos.x as int, pos.y as int, cbp),
            qp: self.qp.set(pos.x as int, pos.y as int, qp),
        }
    }
}

/// The macroblock data of a band.
pub struct MbBands {
    pub info: Band<MbInfo>,
    pub cbp: Band<CbpBits>,
    pub qp: Band<i32>,
}

impl View for MbBands {
    type V = MbGrids;

    open spec fn view(&self) -> MbGrids {
        MbGrids { info: self.info@, cbp: self.cbp@, qp: self.qp@ }
    }
}

/// The header of a macroblock that is not coded: no coefficients.
pub open spec fn blank_info() -> MbInfo {
    MbInfo { i_nxn: false, transform8x8: false, c_ipred: 0, cbp: 0, i16_pred: 0 }
}

/// The macroblock data of an untouched band.
pub open spec fn blank_grids(width: int, n: int, r0: int) -> MbGrids {
    MbGrids {
        info: uniform(blank_info(), width, n, r0),
        cbp: uniform(CbpBits(0), width, n, r0),
        qp: uniform(0i32, width, n, r0),
    }
}

/// An untouched band, all samples 0 and all modes `m`.
pub open spec fn blank_pic(m: Option<u8>, width: int, n: int, r0: int) -> Pic {
    Pic {
        y: uniform(0u8, 16 * width, 16 * n, 16 * r0),
        cb: uniform(0u8, 8 * width, 8 * n, 8 * r0),
        cr: uniform(0u8, 8 * width, 8 * n, 8 * r0),
        modes: uniform(m, 4 * width, 4 * n, 4 * r0),
    }
}

/// A band of this size can be held.
pub open spec fn band_fits(width: int, n: int, r0: int) -> bool {
    &&& width >= 1
    &&& n >= 0
    &&& r0 >= 0
    &&& 256 * width <= isize::MAX
    &&& 256 * (width * n) <= isize::MAX
    &&& 256 * (r0 + n) <= usize::MAX
}

impl MbBands {
    /// The macroblock data of an untouched band.
    pub fn blank(width: usize, n: usize, r0: usize) -> (b: Self)
        requires
            band_fits(width as int, n as int, r0 as int),
        ensures
            b@ == blank_grids(width as int, n as int, r0 as int),
            b@.ok(width as int, n as int, r0 as int),
    {
        let none = MbInfo { i_nxn: false, transform8x8: false, c_ipred: 0, cbp: 0, i16_pred: 0 };
        MbBands {
            info: Band::uniform(none, width, n, r0),
            cbp: Band::uniform(CbpBits(0), width, n, r0),
            qp: Band::uniform(0i32, width, n, r0),
        }
    }

    /// The header of the macroblock to the left.
    pub fn left(&self, pos: MbPos, Ghost(s): Ghost<(int, int, int)>) -> (r: Option<MbInfo>)
        requires
            self@.ok(s.0, s.1, s.2),
            pos.inside(s.0, s.1, s.2),
        ensures
            r == self@.left(pos),
    {
        if pos.x > 0 {
            Some(self.info.at(pos.x - 1, pos.y))
        } else {
            None
        }
    }

    /// The header of the macroblock above, in the same slice.
    pub fn up(&self, pos: MbPos, Ghost(s): Ghost<(int, int, int)>) -> (r: Option<MbInfo>)
        requires
            self@.ok(s.0, s.1, s.2),
            pos.inside(s.0, s.1, s.2),
        ensures
            r == self@.up(pos),
    {
        if pos.top {
            Some(self.info.at(pos.x, pos.y - 1))
        } else {
            None
        }
    }

    /// The coded block flags of the neighbours.
    pub fn flags(&self, pos: MbPos, Ghost(s): Ghost<(int, int, int)>) -> (r: CbfNeighbours)
        requires
            self@.ok(s.0, s.1, s.2),
            pos.inside(s.0, s.1, s.2),
        ensures
            r == self@.flags(pos),
    {
        CbfNeighbours {
            cur: CbpBits(0),
            left: if pos.x > 0 {
                Some(self.cbp.at(pos.x - 1, pos.y))
            } else {
                None
            },
            up: if pos.top {
                Some(self.cbp.at(pos.x, pos.y - 1))
            } else {
                None
            },
        }
    }

    /// Store the data of one macroblock.
    pub fn store(&mut self, pos: MbPos, info: MbInfo, cbp: CbpBits, qp: i32, Ghost(s): Ghost<(int, int, int)>)
        requires
            old(self)@.ok(s.0, s.1, s.2),
            pos.inside(s.0, s.1, s.2),
        ensures
            final(self)@ == old(self)@.store(pos, info, cbp, qp),
            final(self)@.ok(s.0, s.1, s.2),
    {
        self.info.set(pos.x, pos.y, info);
        self.cbp.set(pos.x, pos.y, cbp);
        self.qp.set(pos.x, pos.y, qp);
    }
}

impl Canvas {
    /// An untouched band, all samples 0 and all modes `m`.
    pub fn blank(m: Option<u8>, width: usize, n: usize, r0: usize) -> (c: Self)
        requires
            band_fits(width as int, n as int, r0 as int),
            m is Some ==> m->0 <= 8,
        ensures
            c@ == blank_pic(m, width as int, n as int, r0 as int),
            c@.ok(width as int, n as int, r0 as int),
    {
        proof {
            lemma_band_areas(width as int, n as int);
        }
        Canvas {
            y: Band::uniform(0u8, 16 * width, 16 * n, 16 * r0),
            cb: Band::uniform(0u8, 8 * width, 8 * n, 8 * r0),
            cr: Band::uniform(0u8, 8 * width, 8 * n, 8 * r0),
            modes: Band::uniform(m, 4 * width, 4 * n, 4 * r0),
        }
    }
}

/// The areas of a band's grids, in macroblocks.
pub proof fn lemma_band_areas(width: int, n: int)
    ensures
        (16 * width) * (16 * n) == 256 * (width * n),
        (8 * width) * (8 * n) == 64 * (width * n),
        (4 * width) * (4 * n) == 16 * (width * n),
{
    assert((16 * width) * (16 * n) == 256 * (width * n)) by (nonlinear_arith);
    assert((8 * width) * (8 * n) == 64 * (width * n)) by (nonlinear_arith);
    assert((4 * width) * (4 * n) == 16 * (width * n)) by (nonlinear_arith);
}

/// Where macroblock `a` of a slice lies, counted from the slice's start in row
/// `r0`.
pub open spec fn mb_pos(a: int, width: int, r0: int) -> MbPos {
    MbPos { x: (a % width) as usize, y: (r0 + a / width) as usize, top: a >= width }
}

/// Where macroblock `a` of a slice lies.
pub fn mb_at(a: usize, width: usize, r0: usize, Ghost(n): Ghost<int>) -> (p: MbPos)
    requires
        band_fits(width as int, n, r0 as int),
        a < width * n,
    ensures
        p == mb_pos(a as int, width as int, r0 as int),
        p.inside(width as int, n, r0 as int),
{
    proof {
        lemma_row_of(width as int, n, a as int);
        if a >= width {
            assert(a / width >= 1) by (nonlinear_arith)
                requires
                    a >= width,
                    width > 0,
            ;
        } else {
            assert(a / width == 0) by (nonlinear_arith)
                requires
                    a < width,
                    width > 0,
            ;
        }
    }
    MbPos { x: a % width, y: r0 + a / width, top: a >= width }
}

/// What an intra slice carries from macroblock to macroblock.
pub struct IntraState {
    pub e: Engine,
    pub h: HeaderBank,
    pub r: ResidualBank,
    pub last_dquant: i32,
    pub qp: i32,
    pub pic: Pic,
    pub mb: MbGrids,
}

/// A quantiser after a change, which wraps around the range 0 to 51.
pub open spec fn changed_qp(qp: i32, delta: i32) -> i32 {
    ((qp + delta) % 52) as i32
}

/// A quantiser after a change, which wraps around the range 0 to 51.
pub fn change_qp(qp: i32, delta: i32) -> (r: i32)
    ensures
        r == changed_qp(qp, delta),
        0 <= r <= 51,
{
    let v: i64 = qp as i64 + delta as i64 + 0x34_0000_0000;
    proof {
        vstd::arithmetic::div_mod::lemma_mod_multiples_vanish(0x1_0000_0000, qp + delta, 52);
        assert(v as int % 52 == (qp + delta) % 52);
    }
    (v % 52) as i32
}

/// The parameters of a macroblock's residual.
pub open spec fn residual_params(info: MbInfo, n: CbfNeighbours, qp: i32, inter: bool, env: SliceEnv) -> ResParams {
    ResParams {
        info,
        n,
        qp: qp as int,
        chroma_offset: env.pps.chroma_qp_index_offset as int,
        is_inter: inter,
        scaling: env.scaling(),
        on: false,
    }
}

/// One macroblock of an intra slice: header, residual, reconstruction and the
/// end-of-slice bin. A residual is scaled with quantisers from 0 to 51.
#[verifier::opaque]
pub open spec fn intra_step(st: IntraState, pos: MbPos, env: SliceEnv) -> Result<
    (IntraState, u32),
    ReconError,
> {
    let (hs, syn) = mb_header(
        HeaderState { e: st.e, c: st.h, last_dquant: st.last_dquant },
        Neighbors { left: st.mb.left(pos), up: st.mb.up(pos) },
        env.pps.transform_8x8_mode_flag,
    );
    let qp = match syn.qp_delta {
        Some(d) => changed_qp(st.qp, d),
        None => st.qp,
    };
    let (rs, res) = mb_residual(
        ResState { e: hs.e, c: st.r, cur: 0, trace: Seq::empty() },
        residual_params(syn.info, st.mb.flags(pos), qp, false, env),
    );
    let (e, eos) = rs.e.terminate();
    if !(0 <= qp <= 51) && !uncoded(syn.info, false) {
        Err(ReconError::Quantiser)
    } else {
        Ok(
            (
                IntraState {
                    e,
                    h: hs.c,
                    r: rs.c,
                    last_dquant: hs.last_dquant,
                    qp,
                    pic: intra_mb(st.pic, syn.info, syn.modes, res, pos),
                    mb: st.mb.store(pos, syn.info, CbpBits(rs.cur), qp),
                },
                eos,
            ),
        )
    }
}

/// An intra slice from macroblock `a` on, up to its end-of-slice bin; running
/// past the `n` rows of its band is an error. Also the number of macroblocks.
pub open spec fn intra_run(st: IntraState, a: int, width: int, n: int, r0: int, env: SliceEnv) -> Result<
    (IntraState, int),
    ReconError,
>
    decreases width * n - a,
{
    if a >= width * n {
        Err(ReconError::Desync)
    } else {
        match intra_step(st, mb_pos(a, width, r0), env) {
            Err(e) => Err(e),
            Ok((st1, eos)) => if eos == 1 {
                Ok((st1, a + 1))
            } else {
                intra_run(st1, a + 1, width, n, r0, env)
            },
        }
    }
}

/// A decoded intra slice.
pub struct IntraOut {
    pub pic: Pic,
    pub mb: MbGrids,
    pub count: int,
    pub deblocking: (u32, i32, i32),
}

/// An intra slice in a band of `n` macroblock rows from `r0` on.
#[verifier::opaque]
pub open spec fn intra_slice(rbsp: Seq<u8>, n: int, r0: int, env: SliceEnv) -> Result<IntraOut, ReconError> {
    let width = env.width();
    let qp = env.slice_qp(rbsp);
    if env.header(rbsp).1.err is Some {
        Err(ReconError::Header(env.header(rbsp).1.err->0))
    } else {
        let st = IntraState {
            e: env.engine(rbsp),
            h: HeaderBank::initial(qp as int),
            r: ResidualBank::initial(qp as int, false, 0),
            last_dquant: 0,
            qp,
            pic: blank_pic(None, width, n, r0),
            mb: blank_grids(width, n, r0),
        };
        match intra_run(st, 0, width, n, r0, env) {
            Err(e) => Err(e),
            Ok((end, count)) => Ok(
                IntraOut { pic: end.pic, mb: end.mb, count, deblocking: env.deblocking(rbsp) },
            ),
        }
    }
}

struct IntraSlice<'a> {
    e: CabacEngine<'a>,
    h: MbHeaderContexts,
    r: ResidualContexts,
    last_dquant: i32,
    qp: i32,
    pic: Canvas,
    mb: MbBands,
}

impl<'a> View for IntraSlice<'a> {
    type V = IntraState;

    closed spec fn view(&self) -> IntraState {
        IntraState {
            e: self.e@,
            h: self.h@,
            r: self.r@,
            last_dquant: self.last_dquant,
            qp: self.qp,
            pic: self.pic@,
            mb: self.mb@,
        }
    }
}

impl IntraState {
    /// The state can decode another macroblock.
    pub open spec fn ok(self, s: (int, int, int)) -> bool {
        &&& self.e.live()
        &&& self.h.ok()
        &&& self.r.ok()
        &&& self.pic.ok(s.0, s.1, s.2)
        &&& self.mb.ok(s.0, s.1, s.2)
    }
}

impl<'a> IntraSlice<'a> {
    fn step(&mut self, pos: MbPos, scaling: &ScalingLists, pps: &Pps, Ghost(s): Ghost<(int, int, int)>, Ghost(env): Ghost<SliceEnv>) -> (r: Result<
        u32,
        ReconError,
    >)
        requires
            old(self)@.ok(s),
            pos.inside(s.0, s.1, s.2),
            env.pps == *pps,
            *scaling == env.scaling(),
        ensures
            match r {
                Ok(eos) => intra_step(old(self)@, pos, env) == Ok::<(IntraState, u32), ReconError>(
                    (final(self)@, eos),
                ) && (eos == 0 ==> final(self)@.ok(s)) && final(self)@.pic.ok(s.0, s.1, s.2)
                    && final(self)@.mb.ok(s.0, s.1, s.2) && eos <= 1,
                Err(e) => intra_step(old(self)@, pos, env) == Err::<(IntraState, u32), ReconError>(e),
            },
    {
        proof {
            reveal(intra_step);
        }
        let left = self.mb.left(pos, Ghost(s));
        let up = self.mb.up(pos, Ghost(s));
        let neigh = Neighbors { left, up };
        let syn = decode_mb_syntax(
            &mut self.e,
            &mut self.h,
            &neigh,
            &mut self.last_dquant,
            pps.transform_8x8_mode_flag,
        );
        match syn.qp_delta {
            Some(d) => {
                self.qp = change_qp(self.qp, d);
            },
            None => {},
        }
        if (self.qp < 0 || self.qp > 51) && !(syn.info.cbp == 0 && syn.info.i_nxn) {
            return Err(ReconError::Quantiser);
        }
        let mut flags = self.mb.flags(pos, Ghost(s));
        let mut sink: Vec<ResElem> = Vec::new();
        proof {
            assert(res_views(sink@) =~= Seq::empty());
        }
        let ghost rp = residual_params(syn.info, flags, self.qp, false, env);
        let ghost rs0 = ResState { e: self.e@, c: self.r@, cur: 0, trace: Seq::empty() };
        let res = decode_residual(
            &mut self.e,
            &mut self.r,
            &syn.info,
            &mut flags,
            self.qp,
            pps.chroma_qp_index_offset,
            false,
            scaling,
            false,
            &mut sink,
        );
        reconstruct_intra_mb(
            &mut self.pic,
            &syn.info,
            syn.modes.as_slice(),
            &res,
            pos,
            Ghost(mb_residual(rs0, rp).1),
            Ghost(s),
        );
        let eos: u32 = self.e.decode_terminate();
        self.mb.store(pos, syn.info, flags.cur, self.qp, Ghost(s));
        Ok(eos)
    }
}

/// The weight matrices in force.
pub fn pick_scaling(sps: &Sps, pps: &Pps, Ghost(env): Ghost<SliceEnv>) -> (r: ScalingLists)
    requires
        env.sps == *sps,
        env.pps == *pps,
    ensures
        r == env.scaling(),
{
    match pps.scaling {
        Some(s) => s,
        None => match sps.scaling {
            Some(s) => s,
            None => ScalingLists::flat(),
        },
    }
}

/// A decoded intra slice: its band and the number of its macroblocks.
pub struct IntraBand {
    pub pic: Canvas,
    pub mb: MbBands,
    pub count: usize,
    pub deblocking: (u32, i32, i32),
}

impl View for IntraBand {
    type V = IntraOut;

    open spec fn view(&self) -> IntraOut {
        IntraOut {
            pic: self.pic@,
            mb: self.mb@,
            count: self.count as int,
            deblocking: self.deblocking,
        }
    }
}

/// Decode an intra slice into a band of `n` macroblock rows from `r0` on.
pub fn decode_intra_slice(
    rbsp: &[u8],
    nal_ref_idc: u8,
    idr: bool,
    sps: &Sps,
    pps: &Pps,
    n: usize,
    r0: usize,
) -> (r: Result<IntraBand, ReconError>)
    requires
        widths_ok(*sps),
        band_fits(sps.pic_width_in_mbs as int, n as int, r0 as int),
    ensures
        ({
            let env = SliceEnv { idr, nal_ref_idc, sps: *sps, pps: *pps };
            match r {
                Ok(b) => intra_slice(rbsp@, n as int, r0 as int, env) == Ok::<IntraOut, ReconError>(b@)
                    && b.pic@.ok(env.width(), n as int, r0 as int) && b.mb@.ok(
                    env.width(),
                    n as int,
                    r0 as int,
                ) && b.count <= env.width() * n,
                Err(e) => intra_slice(rbsp@, n as int, r0 as int, env) == Err::<IntraOut, ReconError>(e),
            }
        }),
{
    proof {
        reveal(intra_slice);
    }
    let ghost env = SliceEnv { idr, nal_ref_idc, sps: *sps, pps: *pps };
    let ghost s = (env.width(), n as int, r0 as int);
    let mut reader = BitReader::new(rbsp);
    let sh: SliceHeader = match parse_slice_header(&mut reader, idr, nal_ref_idc, sps, pps) {
        Ok(h) => h,
        Err(e) => {
            return Err(ReconError::Header(e));
        },
    };
    let qp: i32 = 26i32.wrapping_add(pps.pic_init_qp_minus26).wrapping_add(sh.slice_qp_delta);
    let width: usize = sps.pic_width_in_mbs as usize;
    let scaling = pick_scaling(sps, pps, Ghost(env));
    let mut slice = IntraSlice {
        e: CabacEngine::new(reader.rest()),
        h: MbHeaderContexts::new(qp),
        r: ResidualContexts::new(qp, false, 0),
        last_dquant: 0,
        qp,
        pic: Canvas::blank(None, width, n, r0),
        mb: MbBands::blank(width, n, r0),
    };
    let ghost whole = intra_run(slice@, 0, s.0, s.1, s.2, env);
    let total: usize = width * n;
    let mut a: usize = 0;
    loop
        invariant
            s == (env.width(), n as int, r0 as int),
            env == (SliceEnv { idr, nal_ref_idc, sps: *sps, pps: *pps }),
            width == env.width(),
            total == width * n,
            a <= total,
            band_fits(s.0, s.1, s.2),
            scaling == env.scaling(),
            slice@.ok(s),
            intra_run(slice@, a as int, s.0, s.1, s.2, env) == whole,
            intra_slice(rbsp@, n as int, r0 as int, env) == (match whole {
                Err(e) => Err(e),
                Ok((end, count)) => Ok::<IntraOut, ReconError>(
                    IntraOut { pic: end.pic, mb: end.mb, count, deblocking: env.deblocking(rbsp@) },
                ),
            }),
            env.deblocking(rbsp@) == (
                sh.disable_deblocking_filter_idc,
                sh.slice_alpha_c0_offset_div2,
                sh.slice_beta_offset_div2,
            ),
        decreases total - a,
    {
        if a >= total {
            return Err(ReconError::Desync);
        }
        let pos = mb_at(a, width, r0, Ghost(n as int));
        let eos: u32 = slice.step(pos, &scaling, pps, Ghost(s), Ghost(env))?;
        a = a + 1;
        if eos == 1 {
            return Ok(
                IntraBand {
                    pic: slice.pic,
                    mb: slice.mb,
                    count: a,
                    deblocking: (
                        sh.disable_deblocking_filter_idc,
                        sh.slice_alpha_c0_offset_div2,
                        sh.slice_beta_offset_div2,
                    ),
                },
            );
        }
    }
}

// ---- an intra frame ----

/// A reconstructed frame with the macroblock data that deblocking needs.
#[derive(Debug, Clone)]
pub struct Frame {
    pub y: Vec<u8>,
    pub cb: Vec<u8>,
    pub cr: Vec<u8>,
    pub fw: usize,
    pub fh: usize,
    pub cw: usize,
    pub ch: usize,
    pub width_mbs: usize,
    /// Macroblock headers in raster order.
    pub mb_info: Vec<MbInfo>,
    /// Luma quantisers of the macroblocks in raster order.
    pub qp: Vec<i32>,
    /// Deblocking parameters of the last slice.
    pub disable_deblock_idc: u32,
    pub slice_alpha_c0_offset_div2: i32,
    pub slice_beta_offset_div2: i32,
}

/// A reconstructed frame: planes, macroblock columns and rows, headers and
/// quantisers in raster order, and deblocking parameters.
#[verifier::ext_equal]
pub struct Picture {
    pub y: Seq<u8>,
    pub cb: Seq<u8>,
    pub cr: Seq<u8>,
    pub width: int,
    pub height: int,
    pub info: Seq<MbInfo>,
    pub qp: Seq<i32>,
    pub deblocking: (u32, i32, i32),
}

impl Picture {
    /// The parts have the sizes that columns and rows give.
    pub open spec fn ok(self) -> bool {
        &&& self.width >= 1
        &&& self.height >= 1
        &&& 256 * (self.width * self.height) <= isize::MAX
        &&& self.y.len() == 256 * (self.width * self.height)
        &&& self.cb.len() == 64 * (self.width * self.height)
        &&& self.cr.len() == 64 * (self.width * self.height)
        &&& self.info.len() == self.width * self.height
        &&& self.qp.len() == self.width * self.height
    }
}

impl View for Frame {
    type V = Picture;

    open spec fn view(&self) -> Picture {
        Picture {
            y: self.y@,
            cb: self.cb@,
            cr: self.cr@,
            width: self.width_mbs as int,
            height: self.fh as int / 16,
            info: self.mb_info@,
            qp: self.qp@,
            deblocking: (
                self.disable_deblock_idc,
                self.slice_alpha_c0_offset_div2,
                self.slice_beta_offset_div2,
            ),
        }
    }
}

impl Frame {
    /// The planes have the sizes of the macroblock grid.
    pub open spec fn ok(self) -> bool {
        &&& self@.ok()
        &&& self.fw == 16 * self@.width
        &&& self.fh == 16 * self@.height
        &&& self.cw == 8 * self@.width
        &&& self.ch == 8 * self@.height
    }
}

/// The bands of the slices so far, one after another.
#[verifier::ext_equal]
pub struct Joined {
    pub y: Seq<u8>,
    pub cb: Seq<u8>,
    pub cr: Seq<u8>,
    pub info: Seq<MbInfo>,
    pub qp: Seq<i32>,
    pub count: int,
    pub deblocking: (u32, i32, i32),
}

/// No slice yet.
pub open spec fn nothing_joined() -> Joined {
    Joined {
        y: Seq::empty(),
        cb: Seq::empty(),
        cr: Seq::empty(),
        info: Seq::empty(),
        qp: Seq::empty(),
        count: 0,
        deblocking: (0, 0, 0),
    }
}

impl Joined {
    /// With the band of another slice.
    pub open spec fn join(self, pic: Pic, mb: MbGrids, count: int, deblocking: (u32, i32, i32)) -> Joined {
        Joined {
            y: self.y + pic.y.d,
            cb: self.cb + pic.cb.d,
            cr: self.cr + pic.cr.d,
            info: self.info + mb.info.d,
            qp: self.qp + mb.qp.d,
            count: self.count + count,
            deblocking,
        }
    }

    /// The parts hold `rows` macroblock rows.
    pub open spec fn holds(self, width: int, rows: int) -> bool {
        &&& self.y.len() == 256 * (width * rows)
        &&& self.cb.len() == 64 * (width * rows)
        &&& self.cr.len() == 64 * (width * rows)
        &&& self.info.len() == width * rows
        &&& self.qp.len() == width * rows
    }

    /// The frame, where every macroblock is decoded.
    pub open spec fn frame(self, env: SliceEnv) -> Result<Picture, ReconError> {
        if self.count != env.width() * env.height() {
            Err(ReconError::Coverage)
        } else {
            Ok(
                Picture {
                    y: self.y,
                    cb: self.cb,
                    cr: self.cr,
                    width: env.width(),
                    height: env.height(),
                    info: self.info,
                    qp: self.qp,
                    deblocking: self.deblocking,
                },
            )
        }
    }
}

/// The intra slices of a frame from slice `k` on, after those in `acc`, each where
/// it begins in the frame's buffers.
pub open spec fn intra_slices(
    slices: Seq<Seq<u8>>,
    plan: Seq<(int, int)>,
    k: int,
    acc: Joined,
    env: SliceEnv,
) -> Result<Joined, ReconError>
    decreases slices.len() - k,
{
    if k >= slices.len() {
        Ok(acc)
    } else {
        match intra_slice(slices[k], plan[k].1, rows_before(plan, k), env) {
            Err(e) => Err(e),
            Ok(o) => intra_slices(
                slices,
                plan,
                k + 1,
                acc.join(o.pic, o.mb, o.count, o.deblocking),
                env,
            ),
        }
    }
}

/// An intra frame before deblocking.
#[verifier::opaque]
pub open spec fn intra_frame(slices: Seq<Seq<u8>>, env: SliceEnv) -> Result<Picture, ReconError> {
    match slice_plan(slices, env) {
        Err(e) => Err(e),
        Ok(plan) => match intra_slices(slices, plan, 0, nothing_joined(), env) {
            Err(e) => Err(e),
            Ok(j) => j.frame(env),
        },
    }
}

/// A frame under construction, band by band.
pub struct Assembly {
    pub y: Vec<u8>,
    pub cb: Vec<u8>,
    pub cr: Vec<u8>,
    pub info: Vec<MbInfo>,
    pub qp: Vec<i32>,
    pub count: u64,
    pub deblocking: (u32, i32, i32),
}

impl View for Assembly {
    type V = Joined;

    open spec fn view(&self) -> Joined {
        Joined {
            y: self.y@,
            cb: self.cb@,
            cr: self.cr@,
            info: self.info@,
            qp: self.qp@,
            count: self.count as int,
            deblocking: self.deblocking,
        }
    }
}

impl Assembly {
    /// No slice yet.
    pub fn new() -> (a: Self)
        ensures
            a@ == nothing_joined(),
            a@.holds(1, 0),
    {
        let a = Assembly {
            y: Vec::new(),
            cb: Vec::new(),
            cr: Vec::new(),
            info: Vec::new(),
            qp: Vec::new(),
            count: 0,
            deblocking: (0, 0, 0),
        };
        assert(a@ =~= nothing_joined());
        a
    }

    /// Append the band of a slice.
    pub fn join(
        &mut self,
        pic: Canvas,
        mb: MbBands,
        count: usize,
        deblocking: (u32, i32, i32),
        Ghost(rows): Ghost<int>,
        Ghost(s): Ghost<(int, int, int)>,
    )
        requires
            pic@.ok(s.0, s.1, s.2),
            mb@.ok(s.0, s.1, s.2),
            old(self)@.holds(s.0, rows),
            old(self).count + count <= u64::MAX,
        ensures
            final(self)@ == old(self)@.join(pic@, mb@, count as int, deblocking),
            final(self)@.holds(s.0, rows + s.1),
    {
        let ghost was = self@;
        let mut pic = pic;
        let mut mb = mb;
        self.y.append(&mut pic.y.d);
        self.cb.append(&mut pic.cb.d);
        self.cr.append(&mut pic.cr.d);
        self.info.append(&mut mb.info.d);
        self.qp.append(&mut mb.qp.d);
        self.count = self.count + count as u64;
        self.deblocking = deblocking;
        proof {
            lemma_band_areas(s.0, s.1);
            assert(s.0 * (rows + s.1) == s.0 * rows + s.0 * s.1) by (nonlinear_arith);
        }
    }

    /// The frame, where every macroblock is decoded.
    pub fn finish(self, sps: &Sps, Ghost(env): Ghost<SliceEnv>) -> (r: Result<Frame, ReconError>)
        requires
            env.sps == *sps,
            env.size_ok(),
            self@.holds(env.width(), env.height()),
        ensures
            match r {
                Ok(f) => self@.frame(env) == Ok::<Picture, ReconError>(f@) && f.ok(),
                Err(e) => self@.frame(env) == Err::<Picture, ReconError>(e),
            },
    {
        let width: usize = sps.pic_width_in_mbs as usize;
        let height: usize = sps.pic_height_in_map_units as usize;
        proof {
            assert(env.width() <= env.width() * env.height() && env.height() <= env.width()
                * env.height()) by (nonlinear_arith)
                requires
                    env.width() >= 1,
                    env.height() >= 1,
            ;
        }
        if self.count != (width * height) as u64 {
            return Err(ReconError::Coverage);
        }
        Ok(
            Frame {
                y: self.y,
                cb: self.cb,
                cr: self.cr,
                fw: 16 * width,
                fh: 16 * height,
                cw: 8 * width,
                ch: 8 * height,
                width_mbs: width,
                mb_info: self.info,
                qp: self.qp,
                disable_deblock_idc: self.deblocking.0,
                slice_alpha_c0_offset_div2: self.deblocking.1,
                slice_beta_offset_div2: self.deblocking.2,
            },
        )
    }
}

/// Rows before a slice never exceed the frame.
pub proof fn lemma_rows_before(plan: Seq<(int, int)>, k: int, n: int)
    requires
        0 <= k <= n,
        n == plan.len(),
        forall|j: int| 0 <= j < n ==> (#[trigger] plan[j]).1 >= 0,
    ensures
        0 <= rows_before(plan, k) <= rows_before(plan, n),
    decreases n,
{
    if k < n {
        lemma_rows_before_step(plan, k, n - 1);
    } else {
        lemma_rows_before_step(plan, 0, n);
    }
    lemma_rows_before_step(plan, 0, k);
}

proof fn lemma_rows_before_step(plan: Seq<(int, int)>, k: int, m: int)
    requires
        0 <= k <= m <= plan.len(),
        forall|j: int| 0 <= j < plan.len() ==> (#[trigger] plan[j]).1 >= 0,
    ensures
        rows_before(plan, k) <= rows_before(plan, m),
        m < plan.len() ==> rows_before(plan, m) <= rows_before(plan, m + 1),
    decreases m - k,
{
    if k < m {
        lemma_rows_before_step(plan, k, m - 1);
        assert(plan[m - 1].1 >= 0);
    }
    if m < plan.len() {
        assert(plan[m].1 >= 0);
    }
}

/// A slice's band in a frame that can be held.
pub proof fn lemma_band_fits(plan: Seq<(int, int)>, k: int, r0: int, env: SliceEnv)
    requires
        env.size_ok(),
        0 <= k < plan.len(),
        forall|j: int| 0 <= j < plan.len() ==> (#[trigger] plan[j]).1 >= 0,
        rows_before(plan, plan.len() as int) == env.height(),
        0 <= r0 <= env.height(),
    ensures
        band_fits(env.width(), plan[k].1, r0),
{
    let (w, h, n) = (env.width(), env.height(), plan[k].1);
    lemma_rows_before(plan, k, plan.len() as int);
    lemma_rows_before(plan, k + 1, plan.len() as int);
    assert(n <= h);
    assert(w * n <= w * h && w <= w * h && h <= w * h) by (nonlinear_arith)
        requires
            0 <= n <= h,
            w >= 1,
            h >= 1,
    ;
}

/// The rows up to a slice's end are rows of the frame.
pub proof fn lemma_joined_count(plan: Seq<(int, int)>, k: int, env: SliceEnv)
    requires
        env.size_ok(),
        0 <= k < plan.len(),
        forall|j: int| 0 <= j < plan.len() ==> (#[trigger] plan[j]).1 >= 0,
        rows_before(plan, plan.len() as int) == env.height(),
    ensures
        env.width() * rows_before(plan, k) + env.width() * plan[k].1 == env.width() * rows_before(
            plan,
            k + 1,
        ),
        0 <= env.width() * rows_before(plan, k) <= isize::MAX,
        0 <= env.width() * rows_before(plan, k + 1) <= isize::MAX,
{
    let (w, a, b, h) = (
        env.width(),
        rows_before(plan, k),
        rows_before(plan, k + 1),
        env.height(),
    );
    lemma_rows_before(plan, k, plan.len() as int);
    lemma_rows_before(plan, k + 1, plan.len() as int);
    assert(w * a + w * plan[k].1 == w * b) by (nonlinear_arith)
        requires
            b == a + plan[k].1,
    ;
    assert(0 <= w * a <= w * h && 0 <= w * b <= w * h) by (nonlinear_arith)
        requires
            0 <= a <= h,
            0 <= b <= h,
            w >= 1,
    ;
}

/// Decode an intra frame, before deblocking, from its slices in decoding order.
/// Slice boundaries break prediction.
pub fn decode_intra_frame(
    slices: &[&[u8]],
    nal_ref_idc: u8,
    idr: bool,
    sps: &Sps,
    pps: &Pps,
) -> (r: Result<Frame, ReconError>)
    requires
        widths_ok(*sps),
    ensures
        ({
            let env = SliceEnv { idr, nal_ref_idc, sps: *sps, pps: *pps };
            match r {
                Ok(f) => intra_frame(bytes_of(slices@), env) == Ok::<Picture, ReconError>(f@)
                    && f.ok() && f@.width == env.width() && f@.height == env.height(),
                Err(e) => intra_frame(bytes_of(slices@), env) == Err::<Picture, ReconError>(e),
            }
        }),
{
    proof {
        reveal(intra_frame);
    }
    let ghost env = SliceEnv { idr, nal_ref_idc, sps: *sps, pps: *pps };
    let ghost all = bytes_of(slices@);
    let plan: Vec<(usize, usize)> = plan_slices(slices, nal_ref_idc, idr, sps, pps)?;
    let ghost pv = plan_view(plan@);
    let mut acc = Assembly::new();
    let n: usize = slices.len();
    let mut k: usize = 0;
    let mut row: usize = 0;
    assert(env.width() * 0 == 0);
    while k < n
        invariant
            n == slices@.len(),
            n == plan@.len(),
            k <= n,
            widths_ok(*sps),
            env == (SliceEnv { idr, nal_ref_idc, sps: *sps, pps: *pps }),
            env.size_ok(),
            all == bytes_of(slices@),
            pv == plan_view(plan@),
            rows_before(pv, n as int) == env.height(),
            row == rows_before(pv, k as int),
            acc@.holds(env.width(), rows_before(pv, k as int)),
            acc.count <= env.width() * rows_before(pv, k as int),
            slice_plan(all, env) == Ok::<Seq<(int, int)>, ReconError>(pv),
            intra_slices(all, pv, k as int, acc@, env) == intra_slices(
                all,
                pv,
                0,
                nothing_joined(),
                env,
            ),
        decreases n - k,
    {
        proof {
            reveal(intra_frame);
            assert forall|j: int| 0 <= j < pv.len() implies (#[trigger] pv[j]).1 >= 0 by {}
            lemma_rows_before(pv, k as int, n as int);
            lemma_rows_before(pv, k + 1, n as int);
            lemma_band_fits(pv, k as int, row as int, env);
        }
        let (_r0, rows): (usize, usize) = plan[k];
        let b = decode_intra_slice(slices[k], nal_ref_idc, idr, sps, pps, rows, row)?;
        proof {
            assert(all[k as int] == slices@[k as int]@);
            lemma_joined_count(pv, k as int, env);
        }
        acc.join(
            b.pic,
            b.mb,
            b.count,
            b.deblocking,
            Ghost(rows_before(pv, k as int)),
            Ghost((env.width(), rows as int, row as int)),
        );
        row = row + rows;
        k = k + 1;
    }
    acc.finish(sps, Ghost(env))
}

} // verus!
