//! Frames of a few macroblocks, made here element by element.

use ripsaw::mvc::bitstream::ReadError;
use ripsaw::mvc::cabac::{CtxState, RANGE_TAB_LPS, TRANS_IDX_LPS, TRANS_IDX_MPS};
use ripsaw::mvc::mb_header::MbHeaderContexts;
use ripsaw::mvc::mb_inter::InterContexts;
use ripsaw::mvc::pps::{parse_pps_rbsp, Pps};
use ripsaw::mvc::recon::{decode_intra_frame, Frame, ReconError};
use ripsaw::mvc::recon_inter::{
    deblock_b, decode_b_frame, decode_p_frame, BMotionField, MotionField,
};
use ripsaw::mvc::residual_ctx::ResidualCat;
use ripsaw::mvc::sps::{parse_sps_rbsp, Sps};
use ripsaw::mvc::transform::{idct_4x4, luma_dc_4x4};

const QP: i32 = 26;

// ---- writing bits ----

struct Bits {
    bits: Vec<u8>,
}

impl Bits {
    fn new() -> Self {
        Bits { bits: Vec::new() }
    }

    fn u(mut self, n: u32, v: u32) -> Self {
        for k in (0..n).rev() {
            self.bits.push(((v >> k) & 1) as u8);
        }
        self
    }

    fn ue(self, v: u32) -> Self {
        let x = v as u64 + 1;
        let n = 64 - x.leading_zeros();
        let mut s = self;
        for _ in 1..n {
            s.bits.push(0);
        }
        for k in (0..n).rev() {
            s.bits.push(((x >> k) & 1) as u8);
        }
        s
    }

    fn se(self, v: i32) -> Self {
        self.ue(if v > 0 { 2 * v as u32 - 1 } else { 2 * v.unsigned_abs() })
    }

    fn bytes(mut self) -> Vec<u8> {
        while self.bits.len() % 8 != 0 {
            self.bits.push(0);
        }
        self.bits.chunks(8).map(|c| c.iter().fold(0u8, |a, &b| (a << 1) | b)).collect()
    }

    fn aligned_ones(mut self) -> Vec<u8> {
        while self.bits.len() % 8 != 0 {
            self.bits.push(1);
        }
        self.bytes()
    }
}

// ---- arithmetic coding ----

struct Enc {
    low: u32,
    range: u32,
    outstanding: u32,
    first: bool,
    bits: Vec<u8>,
}

impl Enc {
    fn new() -> Self {
        Enc { low: 0, range: 510, outstanding: 0, first: true, bits: Vec::new() }
    }

    fn put(&mut self, b: u8) {
        if self.first {
            self.first = false;
        } else {
            self.bits.push(b);
        }
        while self.outstanding > 0 {
            self.bits.push(1 - b);
            self.outstanding -= 1;
        }
    }

    fn renorm(&mut self) {
        while self.range < 256 {
            if self.low < 256 {
                self.put(0);
            } else if self.low >= 512 {
                self.low -= 512;
                self.put(1);
            } else {
                self.low -= 256;
                self.outstanding += 1;
            }
            self.range <<= 1;
            self.low <<= 1;
        }
    }

    fn bin(&mut self, ctx: &mut CtxState, b: u8) {
        let r = RANGE_TAB_LPS[ctx.pstate as usize][((self.range >> 6) & 3) as usize] as u32;
        self.range -= r;
        if b != ctx.mps {
            self.low += self.range;
            self.range = r;
            if ctx.pstate == 0 {
                ctx.mps = 1 - ctx.mps;
            }
            ctx.pstate = TRANS_IDX_LPS[ctx.pstate as usize];
        } else {
            ctx.pstate = TRANS_IDX_MPS[ctx.pstate as usize];
        }
        self.renorm();
    }

    fn bypass(&mut self, b: u8) {
        self.low <<= 1;
        if b != 0 {
            self.low += self.range;
        }
        if self.low >= 1024 {
            self.put(1);
            self.low -= 1024;
        } else if self.low < 512 {
            self.put(0);
        } else {
            self.low -= 512;
            self.outstanding += 1;
        }
    }

    fn stop(&mut self, b: u8) {
        self.range -= 2;
        if b == 0 {
            self.renorm();
            return;
        }
        self.low += self.range;
        self.range = 2;
        self.renorm();
        self.put(((self.low >> 9) & 1) as u8);
        let v = ((self.low >> 7) & 3) | 1;
        self.bits.push(((v >> 1) & 1) as u8);
        self.bits.push((v & 1) as u8);
    }

    fn bytes(mut self) -> Vec<u8> {
        while self.bits.len() % 8 != 0 {
            self.bits.push(0);
        }
        self.bits.chunks(8).map(|c| c.iter().fold(0u8, |a, &b| (a << 1) | b)).collect()
    }
}

// ---- parameter sets and slices ----

fn sps(width: u32, height: u32) -> Sps {
    let b = Bits::new().u(8, 77).u(8, 0).u(8, 30).ue(0).ue(0).ue(0).ue(0).ue(4).u(1, 0);
    let b = b.ue(width - 1).ue(height - 1).u(1, 1).u(1, 1).u(1, 0).u(1, 0).u(1, 1);
    parse_sps_rbsp(&b.bytes()).unwrap()
}

fn pps(weighted: bool, bipred: u32) -> Pps {
    let b = Bits::new().ue(0).ue(0).u(1, 1).u(1, 0).ue(0).ue(0).ue(0);
    let b = b.u(1, weighted as u32).u(2, bipred).se(0).se(0).se(0).u(1, 1).u(1, 0).u(1, 0).u(1, 1);
    parse_pps_rbsp(&b.bytes(), 1).unwrap()
}

struct Slice {
    kind: u32,
    first: u32,
    refs: Vec<u32>,
    weights: Bits,
    delta: i32,
}

fn plain(kind: u32, first: u32) -> Slice {
    Slice { kind, first, refs: vec![], weights: Bits::new(), delta: 0 }
}

impl Slice {
    fn with(self, body: &[u8]) -> Vec<u8> {
        let mut b = Bits::new().ue(self.first).ue(self.kind).ue(0).u(4, 0).u(4, 0);
        if self.kind == 6 {
            b = b.u(1, 1);
        }
        if self.kind != 7 {
            b = b.u(1, !self.refs.is_empty() as u32);
            for n in &self.refs {
                b = b.ue(n - 1);
            }
            b = b.u(1, 0);
            if self.kind == 6 {
                b = b.u(1, 0);
            }
            b.bits.extend(self.weights.bits);
            b = b.ue(0);
        }
        let mut out = b.se(self.delta).ue(1).aligned_ones();
        out.extend_from_slice(body);
        out
    }
}

// ---- macroblocks ----

/// An I_16x16 macroblock in DC prediction with a luma DC level of -1, 0 or 1.
fn intra(e: &mut Enc, level: i32) {
    let mut h = MbHeaderContexts::new(QP);
    e.bin(&mut h.mb_type[0], 1);
    e.stop(0);
    e.bin(&mut h.mb_type[4], 0);
    e.bin(&mut h.mb_type[5], 0);
    e.bin(&mut h.mb_type[7], 1);
    e.bin(&mut h.mb_type[8], 0);
    e.bin(&mut h.cipr[0], 0);
    e.bin(&mut h.delta_qp[0], 0);
    let mut cbf = ResidualCat::Luma16Dc.bcbp_contexts(QP, false, 0);
    e.bin(&mut cbf[3], (level != 0) as u8);
    if level != 0 {
        let mut c = ResidualCat::Luma16Dc.coeff_contexts(QP, false, 0);
        e.bin(&mut c.sig[0], 1);
        e.bin(&mut c.last[0], 1);
        e.bin(&mut c.level[1], 0);
        e.bypass((level < 0) as u8);
    }
}

fn intra_value(level: i32) -> u8 {
    let mut dc = [[0i32; 4]; 4];
    dc[0][0] = level;
    let mut block = [[0i32; 4]; 4];
    block[0][0] = luma_dc_4x4(&dc, QP)[0][0];
    (128 + idct_4x4(&block)[0][0]) as u8
}

fn ended(mut e: Enc) -> Vec<u8> {
    e.stop(1);
    e.bytes()
}

fn difference(e: &mut Enc, c: &mut InterContexts, k: usize, v: i32) {
    let n = v.unsigned_abs() as usize;
    e.bin(&mut c.mv_res[0][5 * k], (n > 0) as u8);
    if n == 0 {
        return;
    }
    let s = n - 1;
    e.bin(&mut c.mv_res[1][5 * k], (s > 0) as u8);
    for i in 1..=s {
        e.bin(&mut c.mv_res[1][5 * k + i.min(3)], (i < s) as u8);
    }
    e.bypass((v < 0) as u8);
}

/// A P_L0_16x16 macroblock without a residual.
fn moved(e: &mut Enc, many: bool, index: u8, mv: (i32, i32)) {
    let mut c = InterContexts::new(0, QP);
    e.bin(&mut c.mb_type[0], 0);
    for k in [4, 5, 6] {
        e.bin(&mut c.mb_type[k], 0);
    }
    if many {
        e.bin(&mut c.ref_no[0], (index > 0) as u8);
        if index > 0 {
            e.bin(&mut c.ref_no[4], 0);
        }
    }
    difference(e, &mut c, 0, mv.0);
    difference(e, &mut c, 1, mv.1);
    for k in 0..4 {
        e.bin(&mut c.cbp[0][k], 0);
    }
    e.bin(&mut c.cbp[1][0], 0);
}

fn skipped_at(qp: i32) -> Vec<u8> {
    let mut e = Enc::new();
    e.bin(&mut InterContexts::new(0, qp).mb_type[0], 1);
    ended(e)
}

fn skipped_p() -> Vec<u8> {
    skipped_at(QP)
}

fn skipped_b() -> Vec<u8> {
    let mut e = Enc::new();
    e.bin(&mut InterContexts::new(0, QP).mb_type_b[7], 1);
    ended(e)
}

fn intra_body(level: i32) -> Vec<u8> {
    let mut e = Enc::new();
    intra(&mut e, level);
    ended(e)
}

fn moved_body(many: bool, index: u8, mv: (i32, i32)) -> Vec<u8> {
    let mut e = Enc::new();
    moved(&mut e, many, index, mv);
    ended(e)
}

fn slices(v: &[Vec<u8>]) -> Vec<&[u8]> {
    v.iter().map(|s| s.as_slice()).collect()
}

fn intra_frame(v: &[Vec<u8>], s: &Sps) -> Result<Frame, ReconError> {
    decode_intra_frame(&slices(v), 0, false, s, &pps(false, 0))
}

fn p_frame(v: &[Vec<u8>], s: &Sps, p: &Pps, refs: &[&Frame]) -> Result<Frame, ReconError> {
    decode_p_frame(&slices(v), 0, false, s, p, refs).map(|r| r.0)
}

/// A frame of one macroblock with the luma of `f`, and chroma of half its size.
fn painted(f: impl Fn(i32, i32) -> u8) -> Frame {
    let mut r = intra_frame(&[plain(7, 0).with(&intra_body(0))], &sps(1, 1)).unwrap();
    r.y = (0..256).map(|i| f(i % 16, i / 16)).collect();
    r.cb = (0..64).map(|i| f(i % 8, i / 8)).collect();
    r.cr = (0..64).map(|i| f(i / 8, i % 8)).collect();
    r
}

// ---- what they decode to ----

#[test]
fn slices_fill_their_rows() {
    let list = [plain(7, 0).with(&intra_body(1)), plain(7, 1).with(&intra_body(-1))];
    let f = intra_frame(&list, &sps(1, 2)).unwrap();
    assert_eq!((f.fw, f.fh, f.cw, f.ch), (16, 32, 8, 16));
    assert!(f.y[..256].iter().all(|&v| v == intra_value(1)));
    assert!(f.y[256..].iter().all(|&v| v == intra_value(-1)));
    assert!(f.cb.iter().chain(&f.cr).all(|&v| v == 128));
    assert_eq!(f.qp, vec![QP, QP]);
}

#[test]
fn vectors_move_luma_and_chroma() {
    let r = painted(|x, y| (9 * x + 5 * y) as u8);
    let body = moved_body(false, 0, (8, -4));
    let f = p_frame(&[plain(5, 0).with(&body)], &sps(1, 1), &pps(false, 0), &[&r]).unwrap();
    let at = |d: &[u8], n: i32, x: i32, y: i32| {
        d[(y.clamp(0, n - 1) * n + x.clamp(0, n - 1)) as usize] as i32
    };
    for y in 0..16 {
        for x in 0..16 {
            assert_eq!(f.y[(16 * y + x) as usize] as i32, at(&r.y, 16, x + 2, y - 1));
        }
    }
    for y in 0..8 {
        for x in 0..8 {
            let mean = |d: &[u8]| (at(d, 8, x + 1, y - 1) + at(d, 8, x + 1, y) + 1) / 2;
            assert_eq!(f.cb[(8 * y + x) as usize] as i32, mean(&r.cb));
            assert_eq!(f.cr[(8 * y + x) as usize] as i32, mean(&r.cr));
        }
    }
}

#[test]
fn reference_indices_choose_the_frame() {
    let (a, b) = (painted(|_, _| 40), painted(|_, _| 90));
    let slice = |index: u8| {
        let s = Slice { refs: vec![2], ..plain(5, 0) };
        s.with(&moved_body(true, index, (0, 0)))
    };
    let s = sps(1, 1);
    assert_eq!(p_frame(&[slice(0)], &s, &pps(false, 0), &[&a, &b]).unwrap().y, a.y);
    assert_eq!(p_frame(&[slice(1)], &s, &pps(false, 0), &[&a, &b]).unwrap().y, b.y);
    assert_eq!(
        p_frame(&[slice(1)], &s, &pps(false, 0), &[&a]).unwrap_err(),
        ReconError::RefRange
    );
}

#[test]
fn explicit_weights_scale_skipped_macroblocks() {
    let r = painted(|_, _| 100);
    let table = Bits::new().ue(1).ue(0).u(1, 1).se(3).se(5).u(1, 1).se(1).se(-7).se(1).se(9);
    let s = Slice { weights: table, ..plain(5, 0) };
    let f = p_frame(&[s.with(&skipped_p())], &sps(1, 1), &pps(true, 0), &[&r]).unwrap();
    assert!(f.y.iter().all(|&v| v == 155));
    assert!(f.cb.iter().all(|&v| v == 93));
    assert!(f.cr.iter().all(|&v| v == 109));
}

fn b_frame(mix: (i32, i32), p: &Pps, refs: Vec<u32>, n: usize) -> Result<Frame, ReconError> {
    let (a, b) = (painted(|_, _| 40), painted(|_, _| 91));
    let s = Slice { refs, ..plain(6, 0) };
    let l0: Vec<(&Frame, i32)> = vec![(&a, 0); n];
    let l1: Vec<(&Frame, i32)> = vec![(&b, 8); n];
    let v = [s.with(&skipped_b())];
    let col = MotionField {
        mv: vec![(0, 0); 16],
        refidx: vec![-1; 16],
        refpoc: vec![0; 16],
        nz: vec![false; 16],
        bw4: 4,
        bh4: 4,
    };
    decode_b_frame(&slices(&v), 0, false, &sps(1, 1), p, &l0, &l1, 2, &col, mix).map(|r| r.0)
}

#[test]
fn direct_macroblocks_join_both_lists() {
    let even = b_frame((32, 32), &pps(false, 0), vec![], 1).unwrap();
    assert!(even.y.iter().all(|&v| v == 66));
    let near = b_frame((48, 16), &pps(false, 2), vec![], 1).unwrap();
    assert!(near.y.iter().all(|&v| v == 53));
}

// ---- what does not decode ----

#[test]
fn frames_need_slices_and_a_size() {
    assert_eq!(intra_frame(&[], &sps(1, 1)).unwrap_err(), ReconError::NoSlice);
    let one = [plain(7, 0).with(&intra_body(0))];
    let mut s = sps(1, 1);
    s.pic_width_in_mbs = 0;
    assert_eq!(intra_frame(&one, &s).unwrap_err(), ReconError::Size);
    s.pic_width_in_mbs = u32::MAX;
    s.pic_height_in_map_units = u32::MAX;
    assert_eq!(intra_frame(&one, &s).unwrap_err(), ReconError::Size);
    s.pic_width_in_mbs = 1;
    s.pic_height_in_map_units = 0;
    assert_eq!(intra_frame(&one, &s).unwrap_err(), ReconError::Size);
    let cut = vec![vec![0x80u8]];
    assert_eq!(
        intra_frame(&cut, &s).unwrap_err(),
        ReconError::Header(ReadError::Truncated)
    );
}

#[test]
fn vectors_need_coordinates_of_32_bits() {
    let r = painted(|_, _| 0);
    let v = [plain(5, 0).with(&skipped_p())];
    let mut s = sps(1, 1);
    s.pic_width_in_mbs = 0x800_0000;
    assert_eq!(p_frame(&v, &s, &pps(false, 0), &[&r]).unwrap_err(), ReconError::Size);
}

#[test]
fn a_first_slice_may_start_anywhere_in_an_intra_frame() {
    let mut e = Enc::new();
    intra(&mut e, 1);
    let v = [plain(7, 700_000).with(&ended(e))];
    let f = intra_frame(&v, &sps(1, 1)).unwrap();
    assert!(f.y.iter().all(|&v| v == intra_value(1)));
}

/// A body of `n` skipped P macroblocks.
fn many_skipped(n: usize) -> Vec<u8> {
    let mut e = Enc::new();
    let mut c = InterContexts::new(0, QP);
    for k in 0..n {
        e.bin(&mut c.mb_type[0], 1);
        if k + 1 < n {
            e.stop(0);
        }
    }
    ended(e)
}

/// A frame of one column with a row of each level.
fn column(levels: &[i32]) -> Frame {
    let v: Vec<Vec<u8>> = levels
        .iter()
        .enumerate()
        .map(|(k, &l)| plain(7, k as u32).with(&intra_body(l)))
        .collect();
    intra_frame(&v, &sps(1, levels.len() as u32)).unwrap()
}

#[test]
fn inter_slices_end_with_the_frame() {
    let r = column(&[1, -1]);
    let s = sps(1, 2);
    let p = pps(false, 0);
    let run = |first: u32, n: usize| {
        p_frame(&[plain(5, first).with(&many_skipped(n))], &s, &p, &[&r])
    };
    assert_eq!(run(0, 2).unwrap().y, r.y);
    assert_eq!(run(0, 3).unwrap_err(), ReconError::Desync);
    assert_eq!(run(1, 1).unwrap_err(), ReconError::Coverage);
    assert_eq!(run(1, 2).unwrap_err(), ReconError::Desync);
    assert_eq!(run(2, 1).unwrap_err(), ReconError::Desync);
    assert_eq!(run(700_000, 1).unwrap_err(), ReconError::Desync);
}

#[test]
fn inter_slices_predict_from_where_they_start() {
    let r = column(&[1, 0, -1]);
    let v = [plain(5, 1).with(&many_skipped(2)), plain(5, 2).with(&many_skipped(1))];
    let f = p_frame(&v, &sps(1, 3), &pps(false, 0), &[&r]).unwrap();
    assert_eq!(f.y[..256], r.y[256..512]);
    assert_eq!(f.y[256..512], r.y[512..]);
    assert_eq!(f.y[512..], r.y[512..]);
}

#[test]
fn prediction_needs_only_the_samples_it_reads() {
    let whole = painted(|x, y| (9 * x + 5 * y) as u8);
    let s = sps(1, 1);
    let v = [plain(5, 0).with(&moved_body(false, 0, (0, -8)))];
    let want = p_frame(&v, &s, &pps(false, 0), &[&whole]).unwrap();
    let mut part = whole.clone();
    part.y.truncate(224);
    let got = p_frame(&v, &s, &pps(false, 0), &[&part]).unwrap();
    assert_eq!((got.y, got.cb, got.cr), (want.y, want.cb, want.cr));
    part.y.truncate(223);
    assert_eq!(
        p_frame(&v, &s, &pps(false, 0), &[&part]).unwrap_err(),
        ReconError::ShortReference
    );
    let mut part = whole.clone();
    part.cr.truncate(63);
    assert_eq!(
        p_frame(&v, &s, &pps(false, 0), &[&part]).unwrap_err(),
        ReconError::ShortReference
    );
    let unused = Frame { y: Vec::new(), cb: Vec::new(), cr: Vec::new(), ..whole.clone() };
    assert!(p_frame(&v, &s, &pps(false, 0), &[&whole, &unused]).is_ok());
    assert_eq!(
        ReconError::ShortReference.message(),
        "reference frame too small for the prediction"
    );
}

#[test]
fn slices_start_rows_in_order() {
    let s = plain(7, 1).with(&intra_body(0));
    let t = plain(7, 0).with(&intra_body(0));
    assert_eq!(intra_frame(&[s.clone()], &sps(2, 1)).unwrap_err(), ReconError::Unaligned);
    let far = plain(7, 9).with(&intra_body(0));
    assert_eq!(intra_frame(&[t, far, s], &sps(1, 2)).unwrap_err(), ReconError::Unordered);
}

#[test]
fn headers_and_quantisers_are_checked() {
    let cut = vec![vec![0x80u8]];
    assert_eq!(
        intra_frame(&cut, &sps(1, 1)).unwrap_err(),
        ReconError::Header(ReadError::Truncated)
    );
    let s = Slice { delta: -30, ..plain(7, 0) };
    assert_eq!(
        intra_frame(&[s.with(&[255, 52, 9])], &sps(1, 1)).unwrap_err(),
        ReconError::Quantiser
    );
}

#[test]
fn quantisers_wrap_around_their_range() {
    let r = painted(|x, y| (x + y) as u8);
    let v = [Slice { delta: 40, ..plain(5, 0) }.with(&skipped_at(66))];
    let f = p_frame(&v, &sps(1, 1), &pps(false, 0), &[&r]).unwrap();
    assert_eq!((f.qp, f.y), (vec![66], r.y.clone()));
    let mut e = Enc::new();
    let mut c = InterContexts::new(0, 66);
    e.bin(&mut c.mb_type[0], 0);
    for k in [4, 5, 6] {
        e.bin(&mut c.mb_type[k], 0);
    }
    difference(&mut e, &mut c, 0, 0);
    difference(&mut e, &mut c, 1, 0);
    for k in 0..4 {
        e.bin(&mut c.cbp[0][k], 0);
    }
    e.bin(&mut c.cbp[1][0], 0);
    let v = [Slice { delta: 40, ..plain(5, 0) }.with(&ended(e))];
    let f = p_frame(&v, &sps(1, 1), &pps(false, 0), &[&r]).unwrap();
    assert_eq!((f.qp, f.y), (vec![14], r.y.clone()));
}

#[test]
fn slices_end_with_their_rows() {
    assert_eq!(
        intra_frame(&[plain(7, 0).with(&intra_body(0))], &sps(2, 1)).unwrap_err(),
        ReconError::Coverage
    );
    let mut e = Enc::new();
    intra(&mut e, 0);
    e.stop(0);
    intra(&mut e, 0);
    assert_eq!(
        intra_frame(&[plain(7, 0).with(&ended(e))], &sps(1, 1)).unwrap_err(),
        ReconError::Desync
    );
}

#[test]
fn raw_samples_in_inter_slices_are_refused() {
    let mut e = Enc::new();
    let mut c = InterContexts::new(0, QP);
    e.bin(&mut c.mb_type[0], 0);
    e.bin(&mut c.mb_type[4], 1);
    e.bin(&mut c.mb_type[7], 1);
    let v = [plain(5, 0).with(&ended(e))];
    let r = painted(|_, _| 0);
    assert_eq!(
        p_frame(&v, &sps(1, 1), &pps(false, 0), &[&r]).unwrap_err(),
        ReconError::Pcm
    );
}

#[test]
fn inter_slices_need_their_lists() {
    let v = [plain(5, 0).with(&skipped_p())];
    assert_eq!(
        p_frame(&v, &sps(1, 1), &pps(false, 0), &[]).unwrap_err(),
        ReconError::NoReference
    );
    assert_eq!(
        b_frame((32, 32), &pps(false, 0), vec![2, 2], 1).unwrap_err(),
        ReconError::ShortList
    );
}

#[test]
fn frame_errors_have_messages() {
    assert_eq!(ReconError::Pcm.message(), "I_PCM not supported");
    assert_eq!(
        ReconError::Header(ReadError::Truncated).message(),
        "ran off the end of the bitstream"
    );
    assert_eq!(
        ReadError::ExpGolombOverflow.message(),
        "exp-Golomb codeword length exceeds 32 bits"
    );
}

/// Motion of one macroblock whose right half refers to other pictures.
fn two_lists(first: usize) -> BMotionField {
    let right = |i: usize| i % 4 >= 2;
    let vectors = |n: i32| -> Vec<(i32, i32)> {
        (0..16).map(|i| if right(i) { (n, 1) } else { (2 * n, 0) }).collect()
    };
    let pictures = |a: i32, b: i32| -> Vec<i32> {
        (0..16).map(|i| if right(i) { b } else { a }).collect()
    };
    let mut mv = [vectors(1), vectors(3)];
    let mut refpoc = [pictures(4, 8), pictures(8, 6)];
    let mut refidx = [vec![0; 16], vec![1; 16]];
    if first == 1 {
        mv.reverse();
        refpoc.reverse();
        refidx.reverse();
    }
    BMotionField {
        mv,
        refidx,
        refpoc,
        intra: vec![false; 16],
        nz: vec![false; 16],
        bw4: 4,
        bh4: 4,
    }
}

#[test]
fn deblocking_does_not_depend_on_the_order_of_the_lists() {
    let paint = || {
        let mut f = painted(|x, y| (100 + 3 * (x / 8) + y % 2) as u8);
        f.disable_deblock_idc = 0;
        f
    };
    let (mut a, mut b) = (paint(), paint());
    deblock_b(&mut a, &two_lists(0), 0);
    deblock_b(&mut b, &two_lists(1), 0);
    assert!(a.y != paint().y);
    assert_eq!((a.y, a.cb, a.cr), (b.y, b.cb, b.cr));
}
