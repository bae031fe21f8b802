//! Frames as bytes: cropped planes of one view, and both views side by side.

use crate::mvc::recon::Frame;
use vstd::prelude::*;

verus! {

// ---- rows ----

/// Row `k` of a plane, cropped to `w` samples.
pub open spec fn row(p: Seq<u8>, stride: int, w: int, k: int) -> Seq<u8> {
    p.subrange(k * stride, k * stride + w)
}

/// The first `n` rows of a plane, cropped to `w` samples, one after another.
pub open spec fn rows(p: Seq<u8>, stride: int, w: int, n: int) -> Seq<u8>
    decreases n,
{
    if n <= 0 {
        Seq::empty()
    } else {
        rows(p, stride, w, n - 1) + row(p, stride, w, n - 1)
    }
}

/// The first `n` rows of two planes, cropped to `w` samples: each row of the left
/// plane is followed by that of the right one.
pub open spec fn rows_beside(l: Seq<u8>, sl: int, r: Seq<u8>, sr: int, w: int, n: int) -> Seq<u8>
    decreases n,
{
    if n <= 0 {
        Seq::empty()
    } else {
        rows_beside(l, sl, r, sr, w, n - 1) + (row(l, sl, w, n - 1) + row(r, sr, w, n - 1))
    }
}

/// The plane has `n` rows of `w` samples.
pub open spec fn has_rows(len: int, stride: int, w: int, n: int) -> bool {
    n > 0 ==> (n - 1) * stride + w <= len
}

/// The frame has at least the display size.
pub open spec fn crop_fits(f: Frame, w: int, h: int) -> bool {
    &&& has_rows(f.y@.len() as int, f.fw as int, w, h)
    &&& has_rows(f.cb@.len() as int, f.cw as int, w / 2, h / 2)
    &&& has_rows(f.cr@.len() as int, f.cw as int, w / 2, h / 2)
}

proof fn lemma_row(len: int, stride: int, w: int, n: int, k: int)
    requires
        has_rows(len, stride, w, n),
        0 <= k < n,
        stride >= 0,
        w >= 0,
    ensures
        0 <= k * stride,
        k * stride + w <= len,
{
    assert(0 <= k * stride <= (n - 1) * stride) by (nonlinear_arith)
        requires
            0 <= k <= n - 1,
            stride >= 0,
    ;
}

fn rows_fit(len: usize, stride: usize, w: usize, n: usize) -> (b: bool)
    ensures
        b == has_rows(len as int, stride as int, w as int, n as int),
{
    if n == 0 {
        return true;
    }
    let (k, s): (u128, u128) = ((n - 1) as u128, stride as u128);
    assert(0 <= k * s <= 0xffff_ffff_ffff_ffff * 0xffff_ffff_ffff_ffff) by (nonlinear_arith)
        requires
            0 <= k <= 0xffff_ffff_ffff_ffff,
            0 <= s <= 0xffff_ffff_ffff_ffff,
    ;
    k * s + w as u128 <= len as u128
}

/// Whether a frame has at least the display size.
pub fn can_crop(f: &Frame, w: usize, h: usize) -> (b: bool)
    ensures
        b == crop_fits(*f, w as int, h as int),
{
    rows_fit(f.y.len(), f.fw, w, h) && rows_fit(f.cb.len(), f.cw, w / 2, h / 2) && rows_fit(
        f.cr.len(),
        f.cw,
        w / 2,
        h / 2,
    )
}

fn write_row(out: &mut Vec<u8>, p: &Vec<u8>, stride: usize, w: usize, k: usize)
    requires
        k * stride + w <= p@.len(),
    ensures
        final(out)@ == old(out)@ + row(p@, stride as int, w as int, k as int),
{
    let _len: usize = p.len();
    assert(0 <= k * stride) by (nonlinear_arith);
    let a: usize = k * stride;
    let b: usize = a + w;
    let s = vstd::slice::slice_subrange(p.as_slice(), a, b);
    let ghost was = out@;
    out.extend_from_slice(s);
    assert(out@ =~= was + row(p@, stride as int, w as int, k as int));
}

fn write_rows(out: &mut Vec<u8>, p: &Vec<u8>, stride: usize, w: usize, n: usize)
    requires
        has_rows(p@.len() as int, stride as int, w as int, n as int),
    ensures
        final(out)@ == old(out)@ + rows(p@, stride as int, w as int, n as int),
{
    let ghost start = out@;
    assert(start + Seq::<u8>::empty() =~= start);
    for k in 0..n
        invariant
            has_rows(p@.len() as int, stride as int, w as int, n as int),
            out@ == start + rows(p@, stride as int, w as int, k as int),
    {
        proof {
            lemma_row(p@.len() as int, stride as int, w as int, n as int, k as int);
            assert((start + rows(p@, stride as int, w as int, k as int)) + row(
                p@,
                stride as int,
                w as int,
                k as int,
            ) =~= start + rows(p@, stride as int, w as int, k + 1));
        }
        write_row(out, p, stride, w, k);
    }
}

fn write_rows_beside(
    out: &mut Vec<u8>,
    l: &Vec<u8>,
    sl: usize,
    r: &Vec<u8>,
    sr: usize,
    w: usize,
    n: usize,
)
    requires
        has_rows(l@.len() as int, sl as int, w as int, n as int),
        has_rows(r@.len() as int, sr as int, w as int, n as int),
    ensures
        final(out)@ == old(out)@ + rows_beside(
            l@,
            sl as int,
            r@,
            sr as int,
            w as int,
            n as int,
        ),
{
    let ghost start = out@;
    assert(start + Seq::<u8>::empty() =~= start);
    for k in 0..n
        invariant
            has_rows(l@.len() as int, sl as int, w as int, n as int),
            has_rows(r@.len() as int, sr as int, w as int, n as int),
            out@ == start + rows_beside(l@, sl as int, r@, sr as int, w as int, k as int),
    {
        proof {
            lemma_row(l@.len() as int, sl as int, w as int, n as int, k as int);
            lemma_row(r@.len() as int, sr as int, w as int, n as int, k as int);
            let before = rows_beside(l@, sl as int, r@, sr as int, w as int, k as int);
            let (a, b) = (
                row(l@, sl as int, w as int, k as int),
                row(r@, sr as int, w as int, k as int),
            );
            assert(start + before + a + b =~= start + (before + (a + b)));
        }
        write_row(out, l, sl, w, k);
        write_row(out, r, sr, w, k);
    }
}

// ---- frames ----

/// A frame's planes, cropped to the display size: luma, then both chroma planes
/// at half the size.
pub open spec fn cropped_yuv420(f: Frame, w: int, h: int) -> Seq<u8> {
    rows(f.y@, f.fw as int, w, h) + rows(f.cb@, f.cw as int, w / 2, h / 2) + rows(
        f.cr@,
        f.cw as int,
        w / 2,
        h / 2,
    )
}

/// The luma plane of two frames side by side.
pub open spec fn fsbs_luma(l: Frame, r: Frame, w: int, h: int) -> Seq<u8> {
    rows_beside(l.y@, l.fw as int, r.y@, r.fw as int, w, h)
}

/// The first chroma plane of two frames side by side.
pub open spec fn fsbs_cb(l: Frame, r: Frame, w: int, h: int) -> Seq<u8> {
    rows_beside(l.cb@, l.cw as int, r.cb@, r.cw as int, w / 2, h / 2)
}

/// The second chroma plane of two frames side by side.
pub open spec fn fsbs_cr(l: Frame, r: Frame, w: int, h: int) -> Seq<u8> {
    rows_beside(l.cr@, l.cw as int, r.cr@, r.cw as int, w / 2, h / 2)
}

/// Two frames side by side in three planes.
pub open spec fn fsbs_yuv420(l: Frame, r: Frame, w: int, h: int) -> Seq<u8> {
    fsbs_luma(l, r, w, h) + fsbs_cb(l, r, w, h) + fsbs_cr(l, r, w, h)
}

/// The samples of two sequences in turn.
pub open spec fn interleaved(u: Seq<u8>, v: Seq<u8>) -> Seq<u8> {
    Seq::new(
        2 * u.len(),
        |i: int|
            if i % 2 == 0 {
                u[i / 2]
            } else {
                v[i / 2]
            },
    )
}

/// Row `k` of the common chroma plane of two frames side by side: 2`w` bytes, of
/// which an odd width leaves the last two zero.
pub open spec fn uv_row(l: Frame, r: Frame, w: int, k: int) -> Seq<u8> {
    let c = w / 2;
    interleaved(row(l.cb@, l.cw as int, c, k), row(l.cr@, l.cw as int, c, k)) + interleaved(
        row(r.cb@, r.cw as int, c, k),
        row(r.cr@, r.cw as int, c, k),
    ) + Seq::new((2 * w - 4 * c) as nat, |i: int| 0u8)
}

/// The first `n` rows of the common chroma plane.
pub open spec fn uv_rows(l: Frame, r: Frame, w: int, n: int) -> Seq<u8>
    decreases n,
{
    if n <= 0 {
        Seq::empty()
    } else {
        uv_rows(l, r, w, n - 1) + uv_row(l, r, w, n - 1)
    }
}

/// Two frames side by side with one chroma plane.
pub open spec fn fsbs_nv12(l: Frame, r: Frame, w: int, h: int) -> Seq<u8> {
    fsbs_luma(l, r, w, h) + uv_rows(l, r, w, h / 2)
}

/// Append a frame's planes, cropped to the display size: `w` by `h` luma
/// samples, then both chroma planes at half the size.
pub fn write_cropped_yuv420(f: &Frame, w: usize, h: usize, out: &mut Vec<u8>)
    requires
        crop_fits(*f, w as int, h as int),
    ensures
        final(out)@ == old(out)@ + cropped_yuv420(*f, w as int, h as int),
{
    let ghost start = out@;
    write_rows(out, &f.y, f.fw, w, h);
    write_rows(out, &f.cb, f.cw, w / 2, h / 2);
    write_rows(out, &f.cr, f.cw, w / 2, h / 2);
    assert(out@ =~= start + cropped_yuv420(*f, w as int, h as int));
}

/// Append a pair side by side (2`w` by `h`) in three planes: each row of the left
/// frame is followed by that of the right one.
pub fn write_fsbs_yuv420(left: &Frame, right: &Frame, w: usize, h: usize, out: &mut Vec<u8>)
    requires
        crop_fits(*left, w as int, h as int),
        crop_fits(*right, w as int, h as int),
    ensures
        final(out)@ == old(out)@ + fsbs_yuv420(*left, *right, w as int, h as int),
{
    let ghost start = out@;
    write_rows_beside(out, &left.y, left.fw, &right.y, right.fw, w, h);
    write_rows_beside(out, &left.cb, left.cw, &right.cb, right.cw, w / 2, h / 2);
    write_rows_beside(out, &left.cr, left.cw, &right.cr, right.cw, w / 2, h / 2);
    assert(out@ =~= start + fsbs_yuv420(*left, *right, w as int, h as int));
}

/// The sample layout of packed pairs: three planes, or luma and one plane of
/// chroma pairs, as hardware encoders take it.
#[derive(Debug, Clone, Copy, PartialEq, Eq, Structural)]
pub enum FsbsPixFmt {
    Yuv420p,
    Nv12,
}

impl FsbsPixFmt {
    /// What ffmpeg calls the layout.
    pub fn ffmpeg_name(self) -> (r: &'static str)
        ensures
            r@ == match self {
                FsbsPixFmt::Yuv420p => "yuv420p"@,
                FsbsPixFmt::Nv12 => "nv12"@,
            },
    {
        match self {
            FsbsPixFmt::Yuv420p => "yuv420p",
            FsbsPixFmt::Nv12 => "nv12",
        }
    }
}

fn write_interleaved(out: &mut Vec<u8>, f: &Frame, c: usize, k: usize)
    requires
        k * f.cw + c <= f.cb@.len(),
        k * f.cw + c <= f.cr@.len(),
    ensures
        final(out)@ == old(out)@ + interleaved(
            row(f.cb@, f.cw as int, c as int, k as int),
            row(f.cr@, f.cw as int, c as int, k as int),
        ),
{
    let ghost start = out@;
    let ghost all = interleaved(
        row(f.cb@, f.cw as int, c as int, k as int),
        row(f.cr@, f.cw as int, c as int, k as int),
    );
    let len: usize = f.cb.len();
    let stride: usize = f.cw;
    assert(0 <= k * stride) by (nonlinear_arith);
    let a: usize = k * stride;
    assert(start + all.take(0) =~= start);
    for i in 0..c
        invariant
            a == k * f.cw,
            a + c <= len,
            len == f.cb@.len(),
            a + c <= f.cr@.len(),
            all == interleaved(
                row(f.cb@, f.cw as int, c as int, k as int),
                row(f.cr@, f.cw as int, c as int, k as int),
            ),
            out@ == start + all.take(2 * i),
    {
        out.push(f.cb[a + i]);
        out.push(f.cr[a + i]);
        assert(all[2 * i] == f.cb@[a + i]);
        assert(all[2 * i + 1] == f.cr@[a + i]);
        assert((start + all.take(2 * i)).push(all[2 * i]).push(all[2 * i + 1]) =~= start
            + all.take(2 * (i + 1)));
    }
    assert(all.take(2 * c) =~= all);
}

/// Append a pair side by side (2`w` by `h`) with one chroma plane: the luma plane
/// is that of the three-plane layout, the chroma samples are in turn.
pub fn write_fsbs_nv12(left: &Frame, right: &Frame, w: usize, h: usize, out: &mut Vec<u8>)
    requires
        crop_fits(*left, w as int, h as int),
        crop_fits(*right, w as int, h as int),
    ensures
        final(out)@ == old(out)@ + fsbs_nv12(*left, *right, w as int, h as int),
{
    let ghost start = out@;
    write_rows_beside(out, &left.y, left.fw, &right.y, right.fw, w, h);
    let ghost luma = fsbs_luma(*left, *right, w as int, h as int);
    let (c, n): (usize, usize) = (w / 2, h / 2);
    assert(out@ =~= start + (luma + uv_rows(*left, *right, w as int, 0)));
    for k in 0..n
        invariant
            c == w / 2,
            n == h / 2,
            crop_fits(*left, w as int, h as int),
            crop_fits(*right, w as int, h as int),
            out@ == start + (luma + uv_rows(*left, *right, w as int, k as int)),
    {
        proof {
            lemma_row(left.cb@.len() as int, left.cw as int, c as int, n as int, k as int);
            lemma_row(left.cr@.len() as int, left.cw as int, c as int, n as int, k as int);
            lemma_row(right.cb@.len() as int, right.cw as int, c as int, n as int, k as int);
            lemma_row(right.cr@.len() as int, right.cw as int, c as int, n as int, k as int);
        }
        let ghost was = out@;
        write_interleaved(out, left, c, k);
        write_interleaved(out, right, c, k);
        if w % 2 == 1 {
            out.push(0);
            out.push(0);
        }
        assert(out@ =~= was + uv_row(*left, *right, w as int, k as int));
        assert(was + uv_row(*left, *right, w as int, k as int) =~= start + (luma + (uv_rows(
            *left,
            *right,
            w as int,
            k as int,
        ) + uv_row(*left, *right, w as int, k as int))));
    }
}

/// Two frames side by side in a layout.
pub open spec fn fsbs(l: Frame, r: Frame, w: int, h: int, fmt: FsbsPixFmt) -> Seq<u8> {
    match fmt {
        FsbsPixFmt::Yuv420p => fsbs_yuv420(l, r, w, h),
        FsbsPixFmt::Nv12 => fsbs_nv12(l, r, w, h),
    }
}

/// Append a pair side by side in a layout.
pub fn write_fsbs(
    left: &Frame,
    right: &Frame,
    w: usize,
    h: usize,
    pixfmt: FsbsPixFmt,
    out: &mut Vec<u8>,
)
    requires
        crop_fits(*left, w as int, h as int),
        crop_fits(*right, w as int, h as int),
    ensures
        final(out)@ == old(out)@ + fsbs(*left, *right, w as int, h as int, pixfmt),
{
    match pixfmt {
        FsbsPixFmt::Yuv420p => write_fsbs_yuv420(left, right, w, h, out),
        FsbsPixFmt::Nv12 => write_fsbs_nv12(left, right, w, h, out),
    }
}

// ---- laws ----

proof fn lemma_interleaved_join(a: Seq<u8>, b: Seq<u8>, c: Seq<u8>, d: Seq<u8>)
    requires
        a.len() == b.len(),
        c.len() == d.len(),
    ensures
        interleaved(a + c, b + d) == interleaved(a, b) + interleaved(c, d),
{
    let (x, y) = (interleaved(a + c, b + d), interleaved(a, b) + interleaved(c, d));
    assert(x.len() == y.len());
    assert forall|i: int| 0 <= i < x.len() implies x[i] == y[i] by {
        if i >= 2 * a.len() {
            let j = i - 2 * a.len();
            assert(i / 2 == a.len() + j / 2 && i % 2 == j % 2);
        }
    }
    assert(x =~= y);
}

proof fn lemma_uv(l: Frame, r: Frame, w: int, n: int)
    requires
        w >= 0,
        w % 2 == 0,
        has_rows(l.cb@.len() as int, l.cw as int, w / 2, n),
        has_rows(l.cr@.len() as int, l.cw as int, w / 2, n),
        has_rows(r.cb@.len() as int, r.cw as int, w / 2, n),
        has_rows(r.cr@.len() as int, r.cw as int, w / 2, n),
    ensures
        uv_rows(l, r, w, n) == interleaved(
            rows_beside(l.cb@, l.cw as int, r.cb@, r.cw as int, w / 2, n),
            rows_beside(l.cr@, l.cw as int, r.cr@, r.cw as int, w / 2, n),
        ),
        rows_beside(l.cb@, l.cw as int, r.cb@, r.cw as int, w / 2, n).len() == rows_beside(
            l.cr@,
            l.cw as int,
            r.cr@,
            r.cw as int,
            w / 2,
            n,
        ).len(),
    decreases n,
{
    let c = w / 2;
    if n <= 0 {
        assert(uv_rows(l, r, w, n) =~= interleaved(Seq::empty(), Seq::empty()));
    } else {
        let k = n - 1;
        assert(k > 0 ==> (k - 1) * l.cw <= k * l.cw && (k - 1) * r.cw <= k * r.cw)
            by (nonlinear_arith)
            requires
                l.cw >= 0,
                r.cw >= 0,
        ;
        lemma_uv(l, r, w, k);
        lemma_row(l.cb@.len() as int, l.cw as int, c, n, k);
        lemma_row(l.cr@.len() as int, l.cw as int, c, n, k);
        lemma_row(r.cb@.len() as int, r.cw as int, c, n, k);
        lemma_row(r.cr@.len() as int, r.cw as int, c, n, k);
        let (lu, lv) = (row(l.cb@, l.cw as int, c, k), row(l.cr@, l.cw as int, c, k));
        let (ru, rv) = (row(r.cb@, r.cw as int, c, k), row(r.cr@, r.cw as int, c, k));
        let (u, v) = (
            rows_beside(l.cb@, l.cw as int, r.cb@, r.cw as int, c, k),
            rows_beside(l.cr@, l.cw as int, r.cr@, r.cw as int, c, k),
        );
        lemma_interleaved_join(lu, lv, ru, rv);
        lemma_interleaved_join(u, v, lu + ru, lv + rv);
        assert(uv_row(l, r, w, k) =~= interleaved(lu + ru, lv + rv));
    }
}

/// The layout with one chroma plane is the three-plane layout with the samples of
/// its chroma planes in turn. For odd widths its rows are padded instead.
pub proof fn law_nv12_from_yuv420(l: Frame, r: Frame, w: int, h: int)
    requires
        w >= 0,
        w % 2 == 0,
        crop_fits(l, w, h),
        crop_fits(r, w, h),
    ensures
        fsbs_yuv420(l, r, w, h) == fsbs_luma(l, r, w, h) + fsbs_cb(l, r, w, h) + fsbs_cr(l, r, w, h),
        fsbs_nv12(l, r, w, h) == fsbs_luma(l, r, w, h) + interleaved(
            fsbs_cb(l, r, w, h),
            fsbs_cr(l, r, w, h),
        ),
{
    lemma_uv(l, r, w, h / 2);
}

proof fn lemma_beside_len(l: Seq<u8>, sl: int, r: Seq<u8>, sr: int, w: int, n: int)
    requires
        w >= 0,
        n >= 0,
        sl >= 0,
        sr >= 0,
        has_rows(l.len() as int, sl, w, n),
        has_rows(r.len() as int, sr, w, n),
    ensures
        rows_beside(l, sl, r, sr, w, n).len() == 2 * (w * n),
    decreases n,
{
    if n > 0 {
        let k = n - 1;
        assert(k > 0 ==> (k - 1) * sl <= k * sl && (k - 1) * sr <= k * sr) by (nonlinear_arith)
            requires
                sl >= 0,
                sr >= 0,
        ;
        lemma_beside_len(l, sl, r, sr, w, k);
        lemma_row(l.len() as int, sl, w, n, k);
        lemma_row(r.len() as int, sr, w, n, k);
        assert(w * n == w * k + w) by (nonlinear_arith)
            requires
                n == k + 1,
        ;
    } else {
        assert(w * n == 0) by (nonlinear_arith)
            requires
                n == 0,
        ;
    }
}

/// A packed pair of even size takes one and a half bytes for each sample position
/// of both frames.
pub proof fn law_packed_size(l: Frame, r: Frame, w: int, h: int)
    requires
        w >= 0,
        h >= 0,
        w % 2 == 0,
        h % 2 == 0,
        crop_fits(l, w, h),
        crop_fits(r, w, h),
    ensures
        fsbs_yuv420(l, r, w, h).len() == 3 * (w * h),
        fsbs_nv12(l, r, w, h).len() == 3 * (w * h),
{
    lemma_beside_len(l.y@, l.fw as int, r.y@, r.fw as int, w, h);
    lemma_beside_len(l.cb@, l.cw as int, r.cb@, r.cw as int, w / 2, h / 2);
    lemma_beside_len(l.cr@, l.cw as int, r.cr@, r.cw as int, w / 2, h / 2);
    law_nv12_from_yuv420(l, r, w, h);
    let (a, b) = (w / 2, h / 2);
    assert(4 * (a * b) == w * h) by (nonlinear_arith)
        requires
            w == 2 * a,
            h == 2 * b,
    ;
}

/// The two layouts byte by byte, for even sizes: the same luma, then the bytes of
/// the two chroma planes in turn.
pub proof fn law_nv12_byte_by_byte(l: Frame, r: Frame, w: int, h: int, i: int)
    requires
        w >= 0,
        h >= 0,
        w % 2 == 0,
        h % 2 == 0,
        crop_fits(l, w, h),
        crop_fits(r, w, h),
        0 <= i < w * (h / 2),
    ensures
        ({
            let (p, n) = (fsbs_yuv420(l, r, w, h), fsbs_nv12(l, r, w, h));
            let (luma, chroma) = (2 * (w * h), w * (h / 2));
            &&& p.len() == luma + 2 * chroma
            &&& n.len() == luma + 2 * chroma
            &&& n.take(luma) == p.take(luma)
            &&& n[luma + 2 * i] == p[luma + i]
            &&& n[luma + 2 * i + 1] == p[luma + chroma + i]
        }),
{
    lemma_beside_len(l.y@, l.fw as int, r.y@, r.fw as int, w, h);
    lemma_beside_len(l.cb@, l.cw as int, r.cb@, r.cw as int, w / 2, h / 2);
    lemma_beside_len(l.cr@, l.cw as int, r.cr@, r.cw as int, w / 2, h / 2);
    law_nv12_from_yuv420(l, r, w, h);
    let (a, b) = (w / 2, h / 2);
    assert(2 * (a * b) == w * b) by (nonlinear_arith)
        requires
            w == 2 * a,
    ;
    let (p, n) = (fsbs_yuv420(l, r, w, h), fsbs_nv12(l, r, w, h));
    let luma = 2 * (w * h);
    assert(n.take(luma) =~= fsbs_luma(l, r, w, h));
    assert(p.take(luma) =~= fsbs_luma(l, r, w, h));
}

} // verus!
