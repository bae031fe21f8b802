//! Residual blocks, against an encoder.

use ripsaw::mvc::cabac::{CabacEngine, CtxState, RANGE_TAB_LPS, TRANS_IDX_LPS, TRANS_IDX_MPS};
use ripsaw::mvc::residual::{decode_residual_block, CoeffContexts, POS2CTX_IDENTITY_4X4};
use ripsaw::mvc::residual_ctx::{POS2CTX_LAST8X8, POS2CTX_MAP8X8};

struct Enc {
    low: u32,
    range: u32,
    outstanding: u32,
    first: bool,
    bits: Vec<u8>,
}
impl Enc {
    fn new() -> Self {
        Enc { low: 0, range: 510, outstanding: 0, first: true, bits: Vec::new() }
    }
    fn put_bit(&mut self, b: u8) {
        if self.first {
            self.first = false;
        } else {
            self.bits.push(b);
        }
        while self.outstanding > 0 {
            self.bits.push(1 - b);
            self.outstanding -= 1;
        }
    }
    fn renorm(&mut self) {
        while self.range < 256 {
            if self.low < 256 {
                self.put_bit(0);
            } else if self.low >= 512 {
                self.low -= 512;
                self.put_bit(1);
            } else {
                self.low -= 256;
                self.outstanding += 1;
            }
            self.range <<= 1;
            self.low <<= 1;
        }
    }
    fn decision(&mut self, ctx: &mut CtxState, bin: u8) {
        let q = ((self.range >> 6) & 3) as usize;
        let r = RANGE_TAB_LPS[ctx.pstate as usize][q] as u32;
        self.range -= r;
        if bin != ctx.mps {
            self.low += self.range;
            self.range = r;
            if ctx.pstate == 0 {
                ctx.mps = 1 - ctx.mps;
            }
            ctx.pstate = TRANS_IDX_LPS[ctx.pstate as usize];
        } else {
            ctx.pstate = TRANS_IDX_MPS[ctx.pstate as usize];
        }
        self.renorm();
    }
    fn bypass(&mut self, bin: u8) {
        self.low <<= 1;
        if bin != 0 {
            self.low += self.range;
        }
        if self.low >= 1024 {
            self.put_bit(1);
            self.low -= 1024;
        } else if self.low < 512 {
            self.put_bit(0);
        } else {
            self.low -= 512;
            self.outstanding += 1;
        }
    }
    fn exp_golomb(&mut self, mut v: u32, k: u32) {
        let mut kl = k;
        while v >= (1 << kl) {
            self.bypass(1);
            v -= 1 << kl;
            kl += 1;
        }
        self.bypass(0);
        while kl > 0 {
            kl -= 1;
            self.bypass(((v >> kl) & 1) as u8);
        }
    }
    fn terminate1(&mut self) {
        self.range -= 2;
        self.low += self.range;
        self.range = 2;
        self.renorm();
        self.put_bit(((self.low >> 9) & 1) as u8);
        let v = ((self.low >> 7) & 3) | 1;
        self.bits.push(((v >> 1) & 1) as u8);
        self.bits.push((v & 1) as u8);
    }
    fn into_bytes(mut self) -> Vec<u8> {
        while self.bits.len() % 8 != 0 {
            self.bits.push(0);
        }
        self.bits.chunks(8).map(|c| c.iter().fold(0u8, |a, &b| (a << 1) | b)).collect()
    }
}

fn encode_residual(
    enc: &mut Enc,
    ctx: &mut CoeffContexts,
    coeffs: &[i32],
    map: &[u8],
    last_map: &[u8],
    cap: u32,
) {
    let max = coeffs.len();
    let last = coeffs.iter().rposition(|&c| c != 0).expect("at least one coeff");
    let mut i = 0;
    while i < max - 1 {
        let s = (coeffs[i] != 0) as u8;
        enc.decision(&mut ctx.sig[map[i] as usize], s);
        if s == 1 {
            enc.decision(&mut ctx.last[last_map[i] as usize], (i == last) as u8);
            if i == last {
                break;
            }
        }
        i += 1;
    }
    let mut num_eq1 = 0u32;
    let mut num_gt1 = 0u32;
    for pos in (0..=last).rev() {
        if coeffs[pos] == 0 {
            continue;
        }
        let abs = coeffs[pos].unsigned_abs();
        let m1 = abs - 1;
        let ctx0 = if num_gt1 != 0 { 0 } else { (1 + num_eq1).min(4) } as usize;
        let ctx1 = (5 + num_gt1.min(cap)) as usize;
        if m1 == 0 {
            enc.decision(&mut ctx.level[ctx0], 0);
        } else {
            enc.decision(&mut ctx.level[ctx0], 1);
            let prefix = m1.min(14);
            for _ in 1..prefix {
                enc.decision(&mut ctx.level[ctx1], 1);
            }
            if prefix < 14 {
                enc.decision(&mut ctx.level[ctx1], 0);
            } else {
                enc.exp_golomb(m1 - 14, 0);
            }
        }
        if abs == 1 {
            num_eq1 += 1;
        } else {
            num_gt1 += 1;
        }
        enc.bypass((coeffs[pos] < 0) as u8);
    }
}

fn fresh_ctx(n_sig: usize, n_last: usize) -> CoeffContexts {
    let mk = |i: usize| CtxState::init(((i as i32 * 7) % 60) - 20, ((i as i32 * 5) % 40) - 10, 26);
    CoeffContexts {
        sig: (0..n_sig).map(mk).collect(),
        last: (0..n_last).map(|i| mk(i + 3)).collect(),
        level: std::array::from_fn(|i| mk(i + 1)),
    }
}

fn round_trip_mapped(coeffs: &[i32], map: &[u8], last_map: &[u8], cap: u32) {
    let max = coeffs.len();
    let n_sig = map[..max].iter().copied().max().unwrap() as usize + 1;
    let n_last = last_map[..max].iter().copied().max().unwrap() as usize + 1;

    let mut ectx = fresh_ctx(n_sig, n_last);
    let mut enc = Enc::new();
    encode_residual(&mut enc, &mut ectx, coeffs, map, last_map, cap);
    enc.terminate1();
    let bytes = enc.into_bytes();

    let mut dctx = fresh_ctx(n_sig, n_last);
    let mut dec = CabacEngine::new(&bytes);
    let got = decode_residual_block(&mut dec, &mut dctx, max, map, last_map, cap);
    assert_eq!(&got.to_vec()[..], coeffs, "round-trip mismatch");
    assert_eq!(dec.decode_terminate(), 1);
}

fn round_trip(coeffs: &[i32], cap: u32) {
    round_trip_mapped(coeffs, &POS2CTX_IDENTITY_4X4, &POS2CTX_IDENTITY_4X4, cap);
}

#[test]
fn round_trip_single_coeff() {
    let mut c = [0i32; 16];
    c[0] = 1;
    round_trip(&c, 4);
    let mut c = [0i32; 16];
    c[5] = -3;
    round_trip(&c, 4);
}

#[test]
fn round_trip_dense_block() {
    let c: [i32; 16] = [3, -1, 1, 2, -1, 1, 0, -2, 1, 0, 0, -1, 1, 0, 0, 1];
    round_trip(&c, 4);
}

#[test]
fn round_trip_large_levels_use_eg0_suffix() {
    let mut c = [0i32; 16];
    c[0] = 40;
    c[1] = -17;
    c[2] = 200;
    c[3] = 1;
    round_trip(&c, 4);
}

#[test]
fn round_trip_last_coeff_significant() {
    let mut c = [0i32; 16];
    c[0] = 1;
    c[15] = -1;
    round_trip(&c, 4);
}

#[test]
fn round_trip_chroma_dc_cap3_small_block() {
    let c = [2i32, -1, 1, -5];
    round_trip(&c, 3);
}

#[test]
fn round_trip_full_run_of_ones() {
    let c = [1i32, -1, 1, -1, 1, -1, 1, -1, 1, -1, 1, -1, 1, -1, 1, -1];
    round_trip(&c, 4);
}

#[test]
fn round_trip_8x8_aliased_contexts() {
    let mut c = [0i32; 64];
    c[0] = 5;
    c[1] = -1;
    c[3] = 1;
    c[7] = -2;
    c[12] = 1;
    c[20] = -1;
    c[33] = 3;
    c[47] = -1;
    c[63] = 1;
    round_trip_mapped(&c, &POS2CTX_MAP8X8, &POS2CTX_LAST8X8, 4);
}

#[test]
fn round_trip_8x8_long_run() {
    let mut c = [0i32; 64];
    c[2] = -4;
    c[40] = 7;
    round_trip_mapped(&c, &POS2CTX_MAP8X8, &POS2CTX_LAST8X8, 4);
}

#[test]
fn round_trip_extreme_levels() {
    let mut c = [0i32; 16];
    c[0] = i32::MIN;
    c[3] = i32::MAX;
    c[4] = -i32::MAX;
    c[9] = 15;
    c[10] = -16;
    round_trip(&c, 4);
}
