//! Binary arithmetic decoding, against an encoder.

use ripsaw::mvc::cabac::{
    CabacEngine, CtxState, RANGE_TAB_LPS, TRANS_IDX_LPS, TRANS_IDX_MPS,
};

#[test]
fn context_init_matches_spec_formula() {
    let c = CtxState::init(20, -15, 26);
    assert_eq!(c, CtxState { pstate: 46, mps: 0 });

    let c = CtxState::init(20, 30, 40);
    assert_eq!(c, CtxState { pstate: 16, mps: 1 });

    assert_eq!(CtxState::init(20, -15, 99), CtxState::init(20, -15, 51));
}

#[test]
fn transition_tables_have_expected_shape() {
    assert_eq!(TRANS_IDX_LPS[0], 0);
    assert_eq!(TRANS_IDX_LPS[63], 63);
    assert_eq!(TRANS_IDX_MPS[63], 63);
    assert_eq!(RANGE_TAB_LPS[63], [2, 2, 2, 2]);
    for i in 0..63 {
        assert!(TRANS_IDX_MPS[i] >= i as u8, "MPS transition climbs");
        assert!(TRANS_IDX_LPS[i] <= i as u8, "LPS transition falls or holds");
    }
}

#[derive(Clone)]
enum Op {
    Decision(usize, u8),
    Bypass(u8),
    Terminate(u8),
}

struct RefEncoder {
    low: u32,
    range: u32,
    outstanding: u32,
    first: bool,
    bits: Vec<u8>,
}

impl RefEncoder {
    fn new() -> Self {
        RefEncoder { low: 0, range: 510, outstanding: 0, first: true, bits: Vec::new() }
    }
    fn put_bit(&mut self, b: u8) {
        if self.first {
            self.first = false;
        } else {
            self.bits.push(b);
        }
        while self.outstanding > 0 {
            self.bits.push(1 - b);
            self.outstanding -= 1;
        }
    }
    fn renorm(&mut self) {
        while self.range < 256 {
            if self.low < 256 {
                self.put_bit(0);
            } else if self.low >= 512 {
                self.low -= 512;
                self.put_bit(1);
            } else {
                self.low -= 256;
                self.outstanding += 1;
            }
            self.range <<= 1;
            self.low <<= 1;
        }
    }
    fn encode_decision(&mut self, ctx: &mut CtxState, bin: u8) {
        let q = ((self.range >> 6) & 3) as usize;
        let r_lps = RANGE_TAB_LPS[ctx.pstate as usize][q] as u32;
        self.range -= r_lps;
        if bin != ctx.mps {
            self.low += self.range;
            self.range = r_lps;
            if ctx.pstate == 0 {
                ctx.mps = 1 - ctx.mps;
            }
            ctx.pstate = TRANS_IDX_LPS[ctx.pstate as usize];
        } else {
            ctx.pstate = TRANS_IDX_MPS[ctx.pstate as usize];
        }
        self.renorm();
    }
    fn encode_bypass(&mut self, bin: u8) {
        self.low <<= 1;
        if bin != 0 {
            self.low += self.range;
        }
        if self.low >= 1024 {
            self.put_bit(1);
            self.low -= 1024;
        } else if self.low < 512 {
            self.put_bit(0);
        } else {
            self.low -= 512;
            self.outstanding += 1;
        }
    }
    fn encode_terminate(&mut self, bin: u8) {
        self.range -= 2;
        if bin != 0 {
            self.low += self.range;
            self.flush();
        } else {
            self.renorm();
        }
    }
    fn flush(&mut self) {
        self.range = 2;
        self.renorm();
        self.put_bit(((self.low >> 9) & 1) as u8);
        let v = ((self.low >> 7) & 3) | 1;
        self.bits.push(((v >> 1) & 1) as u8);
        self.bits.push((v & 1) as u8);
    }
    fn into_bytes(mut self) -> Vec<u8> {
        while self.bits.len() % 8 != 0 {
            self.bits.push(0);
        }
        self.bits.chunks(8).map(|c| c.iter().fold(0u8, |a, &b| (a << 1) | b)).collect()
    }
}

fn round_trip(ops_in: &[Op], n_ctx: usize, ctx_init: CtxState) {
    let mut ops: Vec<Op> = ops_in.iter().map(|o| o.clone()).collect();
    if !matches!(ops.last(), Some(Op::Terminate(_))) {
        ops.push(Op::Terminate(1));
    }
    let ops = &ops[..];
    let mut enc = RefEncoder::new();
    let mut enc_ctx = vec![ctx_init; n_ctx];
    for op in ops {
        match *op {
            Op::Decision(c, b) => enc.encode_decision(&mut enc_ctx[c], b),
            Op::Bypass(b) => enc.encode_bypass(b),
            Op::Terminate(b) => enc.encode_terminate(b),
        }
    }
    let bytes = enc.into_bytes();

    let mut dec = CabacEngine::new(&bytes);
    let mut dec_ctx = vec![ctx_init; n_ctx];
    for (i, op) in ops.iter().enumerate() {
        match *op {
            Op::Decision(c, b) => {
                assert_eq!(dec.decode_decision(&mut dec_ctx[c]), b as u32, "decision @ {i}")
            }
            Op::Bypass(b) => assert_eq!(dec.decode_bypass(), b as u32, "bypass @ {i}"),
            Op::Terminate(b) => {
                assert_eq!(dec.decode_terminate(), b as u32, "terminate @ {i}")
            }
        }
    }
}

#[test]
fn round_trip_decisions() {
    let bins = [1u8, 0, 0, 1, 1, 1, 0, 1, 0, 0, 0, 1, 1, 0, 1, 0, 0, 1, 1, 1];
    let ops: Vec<Op> = bins.iter().map(|&b| Op::Decision(0, b)).collect();
    round_trip(&ops, 1, CtxState::init(20, -15, 26));
}

#[test]
fn round_trip_multi_context() {
    let mut ops = Vec::new();
    let pat = [(0u8, 1u8), (1, 0), (2, 1), (0, 0), (1, 1), (2, 0), (0, 1), (1, 1), (2, 0)];
    for _ in 0..6 {
        for &(c, b) in &pat {
            ops.push(Op::Decision(c as usize, b));
        }
    }
    round_trip(&ops, 3, CtxState::init(0, 41, 28));
}

#[test]
fn round_trip_bypass_and_mixed() {
    let ops = vec![
        Op::Decision(0, 1),
        Op::Bypass(0),
        Op::Bypass(1),
        Op::Bypass(1),
        Op::Decision(0, 0),
        Op::Bypass(0),
        Op::Decision(0, 1),
        Op::Bypass(1),
        Op::Bypass(0),
        Op::Bypass(0),
        Op::Decision(0, 0),
    ];
    round_trip(&ops, 1, CtxState::init(-3, 50, 30));
}

#[test]
fn round_trip_with_terminate() {
    let mut ops = Vec::new();
    for &b in &[1u8, 0, 1, 1, 0, 0, 1, 0, 1, 1] {
        ops.push(Op::Decision(0, b));
        ops.push(Op::Terminate(0));
    }
    ops.push(Op::Terminate(1));
    round_trip(&ops, 1, CtxState::init(20, -15, 26));
}
