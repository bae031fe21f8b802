//! Probability states and thresholds: how their tables hang together.

use crate::mvc::cabac::{law_state_tables, CtxState, Engine, RANGE_TAB_LPS, TRANS_IDX_LPS, TRANS_IDX_MPS};
use crate::mvc::deblock::{alpha_of, beta_of, law_thresholds, tc0_of, ALPHA, BETA, TC0};
use crate::mvc::scaling::flat_lists;
use crate::mvc::bitstream::bit_at;
use vstd::prelude::*;

verus! {

/// A context starts at m * qp / 16 + n, with the quantiser held to 0 to 51 and the
/// result to 1 to 126: above 63 the more probable symbol is 1, up to 63 it is 0, and the
/// state is the distance from there.
pub proof fn law_initial_states(m: int, n: int, qp: int)
    ensures
        ({
            let c = CtxState::initial(m, n, qp);
            let q = if qp < 0 {
                0
            } else if qp > 51 {
                51
            } else {
                qp
            };
            let v = (m * q) / 16 + n;
            &&& c.pstate <= 62
            &&& 64 <= v <= 126 ==> c.mps == 1 && c.pstate == v - 64
            &&& 1 <= v <= 63 ==> c.mps == 0 && c.pstate == 63 - v
            &&& v > 126 ==> c.mps == 1 && c.pstate == 62
            &&& v < 1 ==> c.mps == 0 && c.pstate == 62
        }),
{
}

/// The more probable symbol makes a state surer by one, up to 62.
pub proof fn law_surer_states(c: CtxState)
    requires
        c.ok(),
    ensures
        c.pstate < 62 ==> c.after(false).pstate == c.pstate + 1,
        c.pstate == 62 ==> c.after(false).pstate == 62,
        c.after(false).mps == c.mps,
{
    law_state_tables(Engine { data: Seq::empty(), pos: 0, range: 510, offset: 0 }, c);
    assert(forall|p: int| 0 <= p < 62 ==> #[trigger] TRANS_IDX_MPS[p] == p + 1);
    assert(TRANS_IDX_MPS[62] == 62);
}

/// The ranges of the less probable symbol are in proportion to the quarter in which the
/// range lies, 9 to 11 to 13 to 15, and fall by about 0.949 from state to state.
pub proof fn law_ranges_in_proportion(e: Engine, f: Engine, c: CtxState, d: CtxState, q: int)
    requires
        e.range == 256 + 64 * q,
        0 <= q < 4,
        f.range == 448,
        3 <= c.pstate <= 62,
        d.pstate <= 61,
    ensures
        -15 <= 15 * e.lps_range(c) - (9 + 2 * q) * f.lps_range(c) <= 15,
        ({
            let next = CtxState { pstate: (d.pstate + 1) as u8, mps: d.mps };
            -760 <= 1000 * f.lps_range(next) - 949 * f.lps_range(d) <= 760
        }),
{
    let next = CtxState { pstate: (d.pstate + 1) as u8, mps: d.mps };
    law_state_tables(e, c);
    law_state_tables(f, c);
    law_state_tables(f, d);
    law_state_tables(f, next);
    assert((e.range / 64) % 4 == q);
    assert((f.range / 64) % 4 == 3);
    assert(forall|p: int|
        3 <= p <= 62 ==> -15 <= 15 * (#[trigger] RANGE_TAB_LPS[p])[0] - 9 * RANGE_TAB_LPS[p][3] <= 15
            && -15 <= 15 * RANGE_TAB_LPS[p][1] - 11 * RANGE_TAB_LPS[p][3] <= 15 && -15 <= 15
            * RANGE_TAB_LPS[p][2] - 13 * RANGE_TAB_LPS[p][3] <= 15);
    assert(forall|p: int|
        0 <= p <= 61 ==> -760 <= 1000 * RANGE_TAB_LPS[p + 1][3] - 949 * (#[trigger] RANGE_TAB_LPS[p])[3]
            <= 760);
    if q == 0 {
        assert((9 + 2 * q) == 9);
    } else if q == 1 {
        assert((9 + 2 * q) == 11);
    } else if q == 2 {
        assert((9 + 2 * q) == 13);
    } else {
        assert((9 + 2 * q) == 15);
    }
}

/// The less probable symbol makes its own range wider, to about 0.949 of the range plus
/// 24.5.
pub proof fn law_less_sure_states(f: Engine, c: CtxState)
    requires
        f.range == 448,
        1 <= c.pstate <= 62,
    ensures
        -6445 <= 1000 * f.lps_range(c.after(true)) - 949 * f.lps_range(c) - 24500 <= 6445,
{
    law_state_tables(f, c);
    law_state_tables(f, c.after(true));
    assert((f.range / 64) % 4 == 3);
    assert(forall|p: int|
        1 <= p <= 62 ==> -6445 <= 1000 * RANGE_TAB_LPS[(#[trigger] TRANS_IDX_LPS[p]) as int][3] - 949
            * RANGE_TAB_LPS[p][3] - 24500 <= 6445);
}

/// The thresholds and clipping values of the deblocking filter double with every six
/// steps of the quantiser, and the inner threshold goes up by one with every two.
pub proof fn law_thresholds_double(i: int, bs: int)
    requires
        16 <= i <= 51,
        1 <= bs <= 3,
    ensures
        i <= 44 ==> 2 * alpha_of(i) - 1 <= alpha_of(i + 6) <= 2 * alpha_of(i) + 2,
        i >= 26 ==> beta_of(i) == (i - 14) / 2,
        17 <= i <= 45 ==> 2 * tc0_of(i, bs) - 1 <= tc0_of(i + 6, bs) <= 2 * tc0_of(i, bs) + 1,
{
    law_thresholds();
    assert(forall|k: int|
        16 <= k <= 44 ==> 2 * (#[trigger] ALPHA[k]) - 1 <= ALPHA[k + 6] <= 2 * ALPHA[k] + 2);
    assert(forall|k: int| 26 <= k <= 51 ==> #[trigger] BETA[k] == (k - 14) / 2);
    assert(forall|k: int|
        17 <= k <= 45 ==> 2 * (#[trigger] TC0[k])[0] - 1 <= TC0[k + 6][0] <= 2 * TC0[k][0] + 1 && 2
            * TC0[k][1] - 1 <= TC0[k + 6][1] <= 2 * TC0[k][1] + 1 && 2 * TC0[k][2] - 1 <= TC0[k + 6][2]
            <= 2 * TC0[k][2] + 1);
}

/// Without scaling lists every weight is 16.
pub proof fn law_flat_weights(k: int, i: int, j: int)
    requires
        0 <= k < 6,
        0 <= i < 4,
        0 <= j < 4,
    ensures
        flat_lists().list_4x4[k][i][j] == 16,
        k < 2 ==> flat_lists().list_8x8[k][i][j] == 16 && flat_lists().list_8x8[k][i + 4][j] == 16
            && flat_lists().list_8x8[k][i][j + 4] == 16 && flat_lists().list_8x8[k][i + 4][j + 4] == 16,
{
}

/// A bin takes the lower part of the range where it is the more probable symbol, and the
/// upper part, as wide as the table says, where it is not.
pub proof fn law_decisions(e: Engine, c: CtxState)
    requires
        c.mps <= 1,
    ensures
        ({
            let low = e.range - e.lps_range(c);
            let (f, d, b) = e.decision(c);
            &&& e.offset < low ==> b == c.mps && d == c.after(false) && f == (Engine {
                data: e.data,
                pos: e.pos,
                range: low,
                offset: e.offset,
            }).renorm()
            &&& e.offset >= low ==> b == 1 - c.mps && d == c.after(true) && f == (Engine {
                data: e.data,
                pos: e.pos,
                range: e.range - low,
                offset: e.offset - low,
            }).renorm()
        }),
{
    reveal(Engine::decision);
}

/// After a decision the range is doubled, with a bit of the stream each time, until it is
/// at least 256. Behind the end of the stream all bits are 0.
pub proof fn law_renormalisation(e: Engine)
    requires
        e.range > 0,
        0 <= e.offset < 0x8000_0000,
    ensures
        e.range >= 256 ==> e.renorm() == e,
        e.range < 256 ==> e.renorm() == (Engine {
            data: e.data,
            pos: e.pull().pos,
            range: 2 * e.range,
            offset: e.pull().offset,
        }).renorm(),
        0 <= e.pos < 8 * e.data.len() ==> e.pull().pos == e.pos + 1 && e.pull().offset == 2 * e.offset + (
        if bit_at(e.data, e.pos) {
            1int
        } else {
            0
        }),
        e.pos >= 8 * e.data.len() ==> e.pull().pos == e.pos && e.pull().offset == 2 * e.offset,
{
}

/// A bin without a context halves the range: it is 1 where the doubled offset reaches
/// the range. The end of a slice takes the last two of the range.
pub proof fn law_bins_without_contexts(e: Engine)
    ensures
        ({
            let (f, b) = e.bypass();
            let p = e.pull();
            &&& b == (if p.offset >= e.range {
                1u32
            } else {
                0u32
            })
            &&& f.range == e.range && f.pos == p.pos
            &&& b == 0 ==> f.offset == p.offset
            &&& b == 1 ==> f.offset == p.offset - e.range
        }),
        e.terminate().1 == (if e.offset >= e.range - 2 {
            1u32
        } else {
            0u32
        }),
        Engine::start(e.data) == (Engine { data: e.data, pos: 0, range: 510, offset: 0 }).pull_n(9),
        Engine::start(e.data).range == 510,
{
    reveal(Engine::start);
    reveal(Engine::bypass);
    reveal(Engine::terminate);
    lemma_pulls_keep_the_range(Engine { data: e.data, pos: 0, range: 510, offset: 0 }, 9);
}

proof fn lemma_pulls_keep_the_range(e: Engine, n: nat)
    ensures
        e.pull_n(n).range == e.range,
    decreases n,
{
    if n > 0 {
        lemma_pulls_keep_the_range(e.pull(), (n - 1) as nat);
    }
}

} // verus!
