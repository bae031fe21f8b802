//! Whole streams of two views, made here macroblock by macroblock.

use ripsaw::mvc::annexb::NalReader;
use ripsaw::mvc::bitstream::ReadError;
use ripsaw::mvc::cabac::{CabacEngine, CtxState, RANGE_TAB_LPS, TRANS_IDX_LPS, TRANS_IDX_MPS};
use ripsaw::mvc::clip::pack::{can_crop, write_cropped_yuv420, write_fsbs, FsbsPixFmt};
use ripsaw::mvc::clip::stream::FramePair;
use ripsaw::mvc::clip::{decode_annex_b, ClipDecoder, ClipError, ClipInfo};
use ripsaw::mvc::mb_header::{decode_mb_header, MbHeaderContexts, Neighbors};
use ripsaw::mvc::mb_inter::InterContexts;
use ripsaw::mvc::mb_residual::{decode_mb_residual, CbfNeighbours, CbpBits, ResidualContexts};
use ripsaw::mvc::recon::ReconError;
use ripsaw::mvc::residual_ctx::ResidualCat;
use ripsaw::mvc::scaling::ScalingLists;
use ripsaw::mvc::transform::{idct_4x4, luma_dc_4x4};

const QP: i32 = 26;

// ---- writing bits ----

struct Bits {
    bits: Vec<u8>,
}

impl Bits {
    fn new() -> Self {
        Bits { bits: Vec::new() }
    }

    fn u(mut self, n: u32, v: u32) -> Self {
        for k in (0..n).rev() {
            self.bits.push(((v >> k) & 1) as u8);
        }
        self
    }

    fn ue(self, v: u32) -> Self {
        let x = v as u64 + 1;
        let n = 64 - x.leading_zeros();
        let mut s = self;
        for _ in 1..n {
            s.bits.push(0);
        }
        for k in (0..n).rev() {
            s.bits.push(((x >> k) & 1) as u8);
        }
        s
    }

    fn se(self, v: i32) -> Self {
        self.ue(if v > 0 { 2 * v as u32 - 1 } else { 2 * v.unsigned_abs() })
    }

    fn bytes(mut self) -> Vec<u8> {
        while self.bits.len() % 8 != 0 {
            self.bits.push(0);
        }
        self.bits.chunks(8).map(|c| c.iter().fold(0u8, |a, &b| (a << 1) | b)).collect()
    }

    fn aligned_ones(mut self) -> Vec<u8> {
        while self.bits.len() % 8 != 0 {
            self.bits.push(1);
        }
        self.bytes()
    }
}

// ---- arithmetic coding ----

struct Enc {
    low: u32,
    range: u32,
    outstanding: u32,
    first: bool,
    bits: Vec<u8>,
}

impl Enc {
    fn new() -> Self {
        Enc { low: 0, range: 510, outstanding: 0, first: true, bits: Vec::new() }
    }

    fn put(&mut self, b: u8) {
        if self.first {
            self.first = false;
        } else {
            self.bits.push(b);
        }
        while self.outstanding > 0 {
            self.bits.push(1 - b);
            self.outstanding -= 1;
        }
    }

    fn renorm(&mut self) {
        while self.range < 256 {
            if self.low < 256 {
                self.put(0);
            } else if self.low >= 512 {
                self.low -= 512;
                self.put(1);
            } else {
                self.low -= 256;
                self.outstanding += 1;
            }
            self.range <<= 1;
            self.low <<= 1;
        }
    }

    fn bin(&mut self, ctx: &mut CtxState, b: u8) {
        let r = RANGE_TAB_LPS[ctx.pstate as usize][((self.range >> 6) & 3) as usize] as u32;
        self.range -= r;
        if b != ctx.mps {
            self.low += self.range;
            self.range = r;
            if ctx.pstate == 0 {
                ctx.mps = 1 - ctx.mps;
            }
            ctx.pstate = TRANS_IDX_LPS[ctx.pstate as usize];
        } else {
            ctx.pstate = TRANS_IDX_MPS[ctx.pstate as usize];
        }
        self.renorm();
    }

    fn bypass(&mut self, b: u8) {
        self.low <<= 1;
        if b != 0 {
            self.low += self.range;
        }
        if self.low >= 1024 {
            self.put(1);
            self.low -= 1024;
        } else if self.low < 512 {
            self.put(0);
        } else {
            self.low -= 512;
            self.outstanding += 1;
        }
    }

    fn stop(&mut self, b: u8) {
        self.range -= 2;
        if b == 0 {
            self.renorm();
            return;
        }
        self.low += self.range;
        self.range = 2;
        self.renorm();
        self.put(((self.low >> 9) & 1) as u8);
        let v = ((self.low >> 7) & 3) | 1;
        self.bits.push(((v >> 1) & 1) as u8);
        self.bits.push((v & 1) as u8);
    }

    fn bytes(mut self) -> Vec<u8> {
        while self.bits.len() % 8 != 0 {
            self.bits.push(0);
        }
        self.bits.chunks(8).map(|c| c.iter().fold(0u8, |a, &b| (a << 1) | b)).collect()
    }
}

/// An I_16x16 macroblock in DC prediction with one luma DC level, 0 to 14 in
/// size.
fn intra_mb(level: i32) -> Vec<u8> {
    let mut e = Enc::new();
    let mut h = MbHeaderContexts::new(QP);
    e.bin(&mut h.mb_type[0], 1);
    e.stop(0);
    e.bin(&mut h.mb_type[4], 0);
    e.bin(&mut h.mb_type[5], 0);
    e.bin(&mut h.mb_type[7], 1);
    e.bin(&mut h.mb_type[8], 0);
    e.bin(&mut h.cipr[0], 0);
    e.bin(&mut h.delta_qp[0], 0);
    let mut cbf = ResidualCat::Luma16Dc.bcbp_contexts(QP, false, 0);
    e.bin(&mut cbf[3], (level != 0) as u8);
    if level != 0 {
        let mut c = ResidualCat::Luma16Dc.coeff_contexts(QP, false, 0);
        e.bin(&mut c.sig[0], 1);
        e.bin(&mut c.last[0], 1);
        let m = level.unsigned_abs() - 1;
        e.bin(&mut c.level[1], (m > 0) as u8);
        if m > 0 {
            for _ in 1..m {
                e.bin(&mut c.level[5], 1);
            }
            e.bin(&mut c.level[5], 0);
        }
        e.bypass((level < 0) as u8);
    }
    e.stop(1);
    e.bytes()
}

/// The luma sample of that macroblock.
fn intra_value(level: i32) -> u8 {
    let mut dc = [[0i32; 4]; 4];
    dc[0][0] = level;
    let d = luma_dc_4x4(&dc, QP);
    let mut block = [[0i32; 4]; 4];
    block[0][0] = d[0][0];
    (128 + idct_4x4(&block)[0][0]).clamp(0, 255) as u8
}

fn skipped_p() -> Vec<u8> {
    let mut e = Enc::new();
    let mut c = InterContexts::new(0, QP);
    e.bin(&mut c.mb_type[0], 1);
    e.stop(1);
    e.bytes()
}

fn skipped_b() -> Vec<u8> {
    let mut e = Enc::new();
    let mut c = InterContexts::new(0, QP);
    e.bin(&mut c.mb_type_b[7], 1);
    e.stop(1);
    e.bytes()
}

// ---- NAL units ----

fn escaped(rbsp: &[u8]) -> Vec<u8> {
    let mut out = Vec::new();
    let mut zeros = 0;
    for &b in rbsp {
        if zeros == 2 && b <= 3 {
            out.push(3);
            zeros = 0;
        }
        out.push(b);
        zeros = if b == 0 { zeros + 1 } else { 0 };
    }
    out
}

fn nal(header: &[u8], rbsp: Vec<u8>) -> Vec<u8> {
    let mut out = vec![0, 0, 0, 1];
    out.extend_from_slice(header);
    out.extend(escaped(&rbsp));
    out
}

#[derive(Clone, Copy)]
struct Sequence {
    frame_num_bits: u32,
    width_mbs: u32,
}

const PLAIN: Sequence = Sequence { frame_num_bits: 4, width_mbs: 1 };

fn sequence_tail(b: Bits, s: Sequence) -> Bits {
    b.ue(s.frame_num_bits - 4)
        .ue(0)
        .ue(0)
        .ue(2)
        .u(1, 0)
        .ue(s.width_mbs - 1)
        .ue(0)
        .u(1, 1)
        .u(1, 1)
        .u(1, 0)
        .u(1, 0)
}

fn base_sps(s: Sequence) -> Vec<u8> {
    let b = Bits::new().u(8, 77).u(8, 0).u(8, 30).ue(0);
    nal(&[0x67], sequence_tail(b, s).u(1, 1).bytes())
}

fn subset_sps(s: Sequence) -> Vec<u8> {
    let b = Bits::new().u(8, 118).u(8, 0).u(8, 30).ue(1).ue(1).ue(0).ue(0).u(1, 0).u(1, 0);
    let b = sequence_tail(b, s).u(1, 1);
    let b = b.ue(1).ue(0).ue(1);
    let b = b.ue(1).ue(0).ue(0).ue(1).ue(0).ue(0);
    let b = b.ue(0).u(8, 30).ue(0).u(3, 0).ue(1).ue(0).ue(1).ue(1);
    nal(&[0x6F], b.u(1, 0).u(1, 1).bytes())
}

fn pps(id: u32, sps: u32) -> Vec<u8> {
    let b = Bits::new().ue(id).ue(sps).u(1, 1).u(1, 0).ue(0).ue(0).ue(0).u(1, 0).u(2, 0);
    nal(&[0x68], b.se(0).se(0).se(0).u(1, 1).u(1, 0).u(1, 0).u(1, 1).bytes())
}

fn sets() -> Vec<u8> {
    let mut s = base_sps(PLAIN);
    s.extend(subset_sps(PLAIN));
    s.extend(pps(0, 0));
    s.extend(pps(1, 1));
    s
}

fn delimiter() -> Vec<u8> {
    nal(&[0x09], vec![0xF0])
}

struct Slice {
    kind: u32,
    pps: u32,
    idr: bool,
    reference: bool,
    lsb: u32,
    mods: Vec<(u32, u32)>,
    body: Vec<u8>,
}

fn slice_rbsp(s: &Slice) -> Vec<u8> {
    let mut b = Bits::new().ue(0).ue(s.kind).ue(s.pps).u(4, 0);
    if s.idr {
        b = b.ue(0);
    }
    b = b.u(4, s.lsb);
    if s.kind == 6 {
        b = b.u(1, 1);
    }
    if s.kind != 7 {
        b = b.u(1, 0);
        if s.mods.is_empty() {
            b = b.u(1, 0);
        } else {
            b = b.u(1, 1);
            for &(op, v) in &s.mods {
                b = b.ue(op).ue(v);
            }
            b = b.ue(3);
        }
        if s.kind == 6 {
            b = b.u(1, 0);
        }
    }
    if s.reference {
        b = if s.idr { b.u(2, 0) } else { b.u(1, 0) };
    }
    if s.kind != 7 {
        b = b.ue(0);
    }
    let mut bytes = b.se(0).ue(1).aligned_ones();
    bytes.extend_from_slice(&s.body);
    bytes
}

fn base(s: Slice) -> Vec<u8> {
    let kind = if s.idr { 5 } else { 1 };
    let idc = if s.reference { 3 } else { 0 };
    nal(&[(idc << 5) | kind], slice_rbsp(&s))
}

fn dependent(s: Slice, anchor: bool) -> Vec<u8> {
    let idc = if s.reference { 3u8 } else { 0 };
    let flags = 0x41 | if anchor { 4 } else { 0 };
    let first = if s.idr { 0x00 } else { 0x40 };
    nal(&[(idc << 5) | 20, first, 0x00, flags], slice_rbsp(&s))
}

fn intra(idr: bool, lsb: u32, level: i32) -> Vec<u8> {
    base(Slice { kind: 7, pps: 0, idr, reference: true, lsb, mods: vec![], body: intra_mb(level) })
}

fn predicted(lsb: u32) -> Vec<u8> {
    base(Slice {
        kind: 5,
        pps: 0,
        idr: false,
        reference: true,
        lsb,
        mods: vec![],
        body: skipped_p(),
    })
}

fn between(lsb: u32) -> Vec<u8> {
    base(Slice {
        kind: 6,
        pps: 0,
        idr: false,
        reference: false,
        lsb,
        mods: vec![],
        body: skipped_b(),
    })
}

fn dep_p(idr: bool, anchor: bool, lsb: u32) -> Vec<u8> {
    dependent(
        Slice { kind: 5, pps: 1, idr, reference: true, lsb, mods: vec![], body: skipped_p() },
        anchor,
    )
}

fn dep_b(lsb: u32) -> Vec<u8> {
    dependent(
        Slice {
            kind: 6,
            pps: 1,
            idr: false,
            reference: false,
            lsb,
            mods: vec![],
            body: skipped_b(),
        },
        false,
    )
}

fn unit(parts: &[Vec<u8>]) -> Vec<u8> {
    let mut out = delimiter();
    for p in parts {
        out.extend_from_slice(p);
    }
    out
}

fn stream(parts: &[Vec<u8>]) -> Vec<u8> {
    parts.concat()
}

fn decode(data: &[u8]) -> (Vec<FramePair>, Result<ClipInfo, ClipError>) {
    let mut out = Vec::new();
    let r = decode_annex_b(data, &mut out);
    (out, r)
}

fn lumas(pairs: &[FramePair]) -> Vec<(u8, u8)> {
    for p in pairs {
        assert!(p.base.y.iter().all(|&v| v == p.base.y[0]));
        assert!(p.dep.y.iter().all(|&v| v == p.dep.y[0]));
        assert!(p.base.cb.iter().chain(&p.base.cr).all(|&v| v == 128));
        assert_eq!((p.width, p.height), (16 * p.base.width_mbs as u32, 16));
    }
    pairs.iter().map(|p| (p.base.y[0], p.dep.y[0])).collect()
}

fn short_clip() -> Vec<u8> {
    stream(&[
        sets(),
        unit(&[intra(true, 0, 5), dep_p(true, true, 0)]),
        unit(&[predicted(2), dep_p(false, false, 2)]),
    ])
}

fn reordered_clip() -> Vec<u8> {
    stream(&[
        sets(),
        unit(&[intra(true, 0, 4), dep_p(true, true, 0)]),
        unit(&[intra(false, 4, -6), dep_p(false, false, 4)]),
        unit(&[between(2), dep_b(2)]),
    ])
}

// ---- clips ----

#[test]
fn intra_samples_follow_the_level() {
    assert_eq!(intra_value(0), 128);
    assert!(intra_value(5) > 128);
    assert!(intra_value(-6) < 128);
}

#[test]
fn clip_of_i_and_p_frames() {
    let (pairs, info) = decode(&short_clip());
    assert_eq!(info, Ok(ClipInfo { width: 16, height: 16, frames: 2 }));
    let a = intra_value(5);
    assert_eq!(lumas(&pairs), vec![(a, a), (a, a)]);
}

#[test]
fn clip_with_b_frames_comes_in_display_order() {
    let (pairs, info) = decode(&reordered_clip());
    assert_eq!(info, Ok(ClipInfo { width: 16, height: 16, frames: 3 }));
    let (a, b) = (intra_value(4), intra_value(-6));
    let m = ((a as u32 + b as u32 + 1) / 2) as u8;
    assert_ne!(a, b);
    assert_eq!(lumas(&pairs), vec![(a, a), (m, a), (b, a)]);
}

#[test]
fn anchor_predicts_from_the_base_view() {
    let data = stream(&[
        sets(),
        unit(&[intra(true, 0, 4), dep_p(true, true, 0)]),
        unit(&[intra(false, 4, -6), dep_p(false, true, 4)]),
        unit(&[between(2), dep_b(2)]),
    ]);
    let (pairs, info) = decode(&data);
    assert!(info.is_ok());
    let (a, b) = (intra_value(4), intra_value(-6));
    let m = ((a as u32 + b as u32 + 1) / 2) as u8;
    assert_eq!(lumas(&pairs), vec![(a, a), (m, m), (b, b)]);
}

#[test]
fn leading_pictures_of_a_cut_stream_are_withheld() {
    let data = stream(&[
        sets(),
        unit(&[intra(false, 4, 3), dep_p(false, true, 4)]),
        unit(&[intra(false, 8, -3), dep_p(false, false, 8)]),
        unit(&[between(2), dep_b(2)]),
        unit(&[between(6), dep_b(6)]),
    ]);
    let (pairs, info) = decode(&data);
    assert_eq!(info, Ok(ClipInfo { width: 16, height: 16, frames: 3 }));
    assert_eq!(pairs.len(), 3);
    let (a, b) = (intra_value(3), intra_value(-3));
    let m = ((a as u32 + b as u32 + 1) / 2) as u8;
    assert_eq!(lumas(&pairs), vec![(a, a), (m, a), (b, a)]);
}

#[test]
fn pieces_decode_like_the_whole() {
    for data in [short_clip(), reordered_clip()] {
        let (want, info) = decode(&data);
        for step in [1, 7, 64] {
            let mut nals = NalReader::new();
            let mut clip = ClipDecoder::new();
            let mut out = Vec::new();
            for chunk in data.chunks(step) {
                nals.push(chunk);
                while let Some(n) = nals.next() {
                    clip = clip.push(&n, &mut out).unwrap();
                }
            }
            if let Some(n) = nals.finish() {
                clip = clip.push(&n, &mut out).unwrap();
            }
            assert_eq!(clip.finish(&mut out), info);
            assert_eq!(lumas(&out), lumas(&want));
        }
    }
}

#[test]
fn base_slices_without_delimiters_begin_access_units() {
    let data = stream(&[
        sets(),
        intra(true, 0, 5),
        dep_p(true, true, 0),
        predicted(2),
        dep_p(false, false, 2),
    ]);
    let (pairs, info) = decode(&data);
    assert_eq!(info, Ok(ClipInfo { width: 16, height: 16, frames: 2 }));
    assert_eq!(pairs.len(), 2);
}

#[test]
fn decoded_pairs_pack_side_by_side() {
    let (pairs, _) = decode(&reordered_clip());
    let (b, d) = (&pairs[1].base, &pairs[1].dep);
    assert!(can_crop(b, 16, 16) && !can_crop(b, 17, 16) && !can_crop(b, 16, 17));
    let mut one = Vec::new();
    write_cropped_yuv420(b, 16, 16, &mut one);
    assert_eq!(one.len(), 384);
    assert_eq!((one[0], one[255], one[256], one[383]), (b.y[0], b.y[0], 128, 128));
    let mut two = Vec::new();
    write_fsbs(b, d, 16, 16, FsbsPixFmt::Yuv420p, &mut two);
    assert_eq!(two.len(), 768);
    assert_eq!((two[0], two[15], two[16], two[31]), (b.y[0], b.y[0], d.y[0], d.y[0]));
    let mut nv = Vec::new();
    write_fsbs(b, d, 16, 16, FsbsPixFmt::Nv12, &mut nv);
    assert_eq!(nv, two);
}

#[test]
fn odd_widths_pad_the_common_chroma_rows() {
    let (pairs, _) = decode(&short_clip());
    let mut nv = Vec::new();
    write_fsbs(&pairs[0].base, &pairs[0].dep, 3, 2, FsbsPixFmt::Nv12, &mut nv);
    let a = intra_value(5);
    assert_eq!(nv, vec![a, a, a, a, a, a, a, a, a, a, a, a, 128, 128, 128, 128, 0, 0]);
    assert_eq!(FsbsPixFmt::Nv12.ffmpeg_name(), "nv12");
    assert_eq!(FsbsPixFmt::Yuv420p.ffmpeg_name(), "yuv420p");
}

// ---- errors ----

#[test]
fn clips_need_all_parameter_sets() {
    assert_eq!(decode(&[]).1, Err(ClipError::NoBaseSps));
    assert_eq!(decode(&base_sps(PLAIN)).1, Err(ClipError::NoBasePps));
    let two = stream(&[base_sps(PLAIN), pps(0, 0)]);
    assert_eq!(decode(&two).1, Err(ClipError::NoSubsetSps));
    let three = stream(&[base_sps(PLAIN), subset_sps(PLAIN), pps(0, 0)]);
    assert_eq!(decode(&three).1, Err(ClipError::NoDependentPps));
    assert_eq!(decode(&sets()).1, Ok(ClipInfo { width: 16, height: 16, frames: 0 }));
    assert_eq!(ClipError::NoBaseSps.message(), "no base SPS (NAL 7) in stream");
}

#[test]
fn clips_report_sets_that_do_not_parse() {
    let data = nal(&[0x67], vec![77]);
    assert_eq!(decode(&data).1, Err(ClipError::Read(ReadError::Truncated)));
    let wide = Sequence { frame_num_bits: 33, width_mbs: 1 };
    let data = stream(&[
        base_sps(wide),
        subset_sps(PLAIN),
        pps(0, 0),
        pps(1, 1),
        unit(&[intra(true, 0, 1), dep_p(true, true, 0)]),
    ]);
    assert_eq!(decode(&data).1, Err(ClipError::ParameterRange));
}

#[test]
fn clips_need_both_views() {
    let data = stream(&[sets(), unit(&[intra(true, 0, 1)])]);
    let (pairs, info) = decode(&data);
    assert_eq!(info, Err(ClipError::NoDependentView));
    assert!(pairs.is_empty());
}

#[test]
fn clips_report_views_that_are_too_small_to_predict_from() {
    let large = Sequence { frame_num_bits: 4, width_mbs: 2 };
    let data = stream(&[
        base_sps(PLAIN),
        subset_sps(large),
        pps(0, 0),
        pps(1, 1),
        unit(&[intra(true, 0, 1), dep_p(true, true, 0)]),
    ]);
    assert_eq!(decode(&data).1, Err(ClipError::Recon(ReconError::ShortReference)));
}

#[test]
fn late_b_slices_are_refused() {
    let start = [
        sets(),
        unit(&[intra(true, 0, 1), dep_p(true, true, 0)]),
        unit(&[intra(true, 0, 2), dep_p(true, true, 0)]),
    ];
    let mut late = start.to_vec();
    late.push(unit(&[predicted(2), dep_p(false, false, 2)]));
    late.push(unit(&[between(4), dep_p(false, false, 4)]));
    let (pairs, info) = decode(&stream(&late));
    assert_eq!(info, Err(ClipError::BaseBSlice));
    assert_eq!(pairs.len(), 3);
    let mut late = start.to_vec();
    late.push(unit(&[predicted(2), dep_b(2)]));
    let (pairs, info) = decode(&stream(&late));
    assert_eq!(info, Err(ClipError::DependentBSlice));
    assert_eq!(pairs.len(), 2);
}

#[test]
fn frames_before_an_error_are_kept() {
    let data = stream(&[
        sets(),
        unit(&[intra(true, 0, 5), dep_p(true, true, 0)]),
        unit(&[predicted(2)]),
    ]);
    let (pairs, info) = decode(&data);
    assert_eq!(info, Err(ClipError::NoDependentView));
    assert_eq!(lumas(&pairs), vec![(intra_value(5), intra_value(5))]);
}

#[test]
fn missing_references_are_reported() {
    let far = dependent(
        Slice {
            kind: 5,
            pps: 1,
            idr: false,
            reference: true,
            lsb: 2,
            mods: vec![(0, 6)],
            body: skipped_p(),
        },
        false,
    );
    let data = stream(&[
        sets(),
        unit(&[intra(true, 0, 5), dep_p(true, true, 0)]),
        unit(&[predicted(2), far]),
    ]);
    assert_eq!(decode(&data).1, Err(ClipError::MissingReference));
    let data = stream(&[sets(), unit(&[predicted(0), dep_p(false, true, 0)])]);
    assert_eq!(decode(&data).1, Err(ClipError::Recon(ReconError::NoReference)));
    let data = stream(&[
        sets(),
        unit(&[predicted(0), dep_p(false, true, 0)]),
        unit(&[between(2), dep_b(2)]),
    ]);
    assert_eq!(decode(&data).1, Err(ClipError::NoList0));
    let data = stream(&[sets(), unit(&[between(2), dep_b(2)])]);
    assert_eq!(decode(&data).1, Err(ClipError::NoReferences));
}

#[test]
fn inter_view_modification_of_a_b_frame() {
    let dep = dependent(
        Slice {
            kind: 6,
            pps: 1,
            idr: false,
            reference: false,
            lsb: 2,
            mods: vec![(5, 0)],
            body: skipped_b(),
        },
        false,
    );
    let data = stream(&[
        sets(),
        unit(&[intra(true, 0, 4), dep_p(true, true, 0)]),
        unit(&[intra(false, 4, -6), dep_p(false, false, 4)]),
        unit(&[between(2), dep]),
    ]);
    let (pairs, info) = decode(&data);
    assert!(info.is_ok());
    let (a, b) = (intra_value(4) as u32, intra_value(-6) as u32);
    let m = (a + b + 1) / 2;
    let d = (m + a + 1) / 2;
    assert_eq!(lumas(&pairs)[1], (m as u8, d as u8));
}

#[test]
fn macroblock_parts_decode_one_after_the_other() {
    let data = intra_mb(3);
    let mut e = CabacEngine::new(&data);
    let mut header = MbHeaderContexts::new(QP);
    let mut last_dquant = 0;
    let mut elements = Vec::new();
    let neigh = Neighbors { left: None, up: None };
    let info = decode_mb_header(&mut e, &mut header, &neigh, &mut last_dquant, &mut elements);
    let want = [("mb_type", 3), ("intra_chroma_pred_mode", 0), ("mb_qp_delta", 0)];
    let got: Vec<(&str, i64)> = elements.iter().map(|x| (x.0.as_str(), x.1)).collect();
    assert_eq!(got, want);
    assert!(!info.i_nxn);
    assert_eq!((info.cbp, info.i16_pred, last_dquant), (0, 2, 0));

    let mut contexts = ResidualContexts::new(QP, false, 0);
    let mut around = CbfNeighbours { cur: CbpBits(0), left: None, up: None };
    let mut levels = Vec::new();
    let residual = decode_mb_residual(
        &mut e,
        &mut contexts,
        &info,
        &mut around,
        QP,
        0,
        false,
        &ScalingLists::flat(),
        &mut levels,
    );
    let got: Vec<(&str, i64, Option<i64>)> =
        levels.iter().map(|x| (x.0.as_str(), x.1, x.2)).collect();
    assert_eq!(got, [("DC luma 16x16", 3, Some(0)), ("DC luma 16x16", 0, Some(0))]);
    let value = intra_value(3) as i32 - 128;
    assert!(value != 0);
    assert!(residual.luma.iter().all(|r| r.iter().all(|&v| v == value)));
    assert!(residual.cb.iter().all(|r| r.iter().all(|&v| v == 0)));
    assert_eq!(e.decode_terminate(), 1);
}
