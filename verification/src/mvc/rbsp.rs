//! Raw byte sequence payload extraction (H.264 section 7.4.1.1): a NAL unit
//! carries a `03` byte after every `00 00` that could be taken for a start
//! code, and the bit reader needs the payload without it.

use vstd::prelude::*;

verus! {

/// The payload of the bytes `e`, when `run` zeros (counted up to 2) stand just
/// before them: a `03` behind two zeros is dropped.
pub open spec fn unescaped(e: Seq<u8>, run: int) -> Seq<u8>
    decreases e.len(),
{
    if e.len() == 0 {
        Seq::empty()
    } else if run >= 2 && e[0] == 3 {
        unescaped(e.drop_first(), 0)
    } else {
        seq![e[0]] + unescaped(
            e.drop_first(),
            if e[0] != 0 {
                0
            } else if run >= 2 {
                2
            } else {
                run + 1
            },
        )
    }
}

/// Strip the emulation-prevention bytes of a NAL unit's payload, the bytes
/// after its header.
pub fn extract_rbsp(ebsp: &[u8]) -> (out: Vec<u8>)
    ensures
        out@ == unescaped(ebsp@, 0),
{
    let n: usize = ebsp.len();
    let mut out: Vec<u8> = Vec::new();
    let mut run: u8 = 0;
    assert(ebsp@.skip(0) =~= ebsp@);
    assert(out@ + unescaped(ebsp@, 0) =~= unescaped(ebsp@, 0));
    for i in 0..n
        invariant
            n == ebsp@.len(),
            run <= 2,
            out@ + unescaped(ebsp@.skip(i as int), run as int) == unescaped(ebsp@, 0),
    {
        let b: u8 = ebsp[i];
        let ghost rest = ebsp@.skip(i as int);
        proof {
            assert(rest[0] == b);
            assert(rest.drop_first() =~= ebsp@.skip(i + 1));
        }
        let ghost was = out@;
        if run >= 2 && b == 3 {
            run = 0;
        } else {
            out.push(b);
            if b != 0 {
                run = 0;
            } else if run < 2 {
                run = run + 1;
            }
            assert(was + (seq![b] + unescaped(ebsp@.skip(i + 1), run as int)) =~= out@ + unescaped(
                ebsp@.skip(i + 1),
                run as int,
            ));
        }
    }
    assert(ebsp@.skip(n as int) =~= Seq::empty());
    assert(out@ + Seq::<u8>::empty() =~= out@);
    out
}

/// The escaped form of a payload, when `run` zeros (counted up to 2) stand just
/// before it: a `03` goes in front of every byte up to 3 behind two zeros.
pub open spec fn escaped(r: Seq<u8>, run: int) -> Seq<u8>
    decreases r.len(),
{
    if r.len() == 0 {
        Seq::empty()
    } else {
        let rest = escaped(
            r.drop_first(),
            if r[0] != 0 {
                0
            } else if run >= 2 {
                1
            } else {
                run + 1
            },
        );
        if run >= 2 && r[0] <= 3 {
            seq![3u8, r[0]] + rest
        } else {
            seq![r[0]] + rest
        }
    }
}

/// What an encoder escapes, extraction gives back.
pub proof fn law_unescape_inverts_escape(r: Seq<u8>, run: int)
    requires
        0 <= run <= 2,
    ensures
        unescaped(escaped(r, run), run) == r,
    decreases r.len(),
{
    if r.len() > 0 {
        let next: int = if r[0] != 0 {
            0
        } else if run >= 2 {
            1
        } else {
            run + 1
        };
        let rest = escaped(r.drop_first(), next);
        law_unescape_inverts_escape(r.drop_first(), next);
        if run >= 2 && r[0] <= 3 {
            let e = seq![3u8, r[0]] + rest;
            assert(e.drop_first() =~= seq![r[0]] + rest);
            assert((seq![r[0]] + rest).drop_first() =~= rest);
            assert(unescaped(e, run) == unescaped(seq![r[0]] + rest, 0));
            assert(unescaped(seq![r[0]] + rest, 0) == seq![r[0]] + unescaped(rest, next));
        } else {
            let e = seq![r[0]] + rest;
            assert(e.drop_first() =~= rest);
            assert(unescaped(e, run) == seq![r[0]] + unescaped(rest, next));
        }
        assert(seq![r[0]] + r.drop_first() =~= r);
    } else {
        assert(r =~= Seq::empty());
    }
}

/// Bytes without two zeros in a row are their own payload.
pub proof fn law_plain_payloads_pass(e: Seq<u8>, run: int)
    requires
        0 <= run <= 1,
        forall|i: int| 0 < i < e.len() ==> !(#[trigger] e[i] == 0 && e[i - 1] == 0),
        run == 1 && e.len() > 0 ==> e[0] != 0,
    ensures
        unescaped(e, run) == e,
    decreases e.len(),
{
    if e.len() > 0 {
        let d = e.drop_first();
        assert forall|i: int| 0 < i < d.len() implies !(#[trigger] d[i] == 0 && d[i - 1] == 0) by {
            assert(d[i] == e[i + 1]);
        }
        if e[0] == 0 && d.len() > 0 {
            assert(d[0] == e[1]);
        }
        law_plain_payloads_pass(
            d,
            if e[0] == 0 {
                1
            } else {
                0
            },
        );
        assert(seq![e[0]] + d =~= e);
    } else {
        assert(e =~= Seq::empty());
    }
}

/// The payload is never longer than the bytes that carry it.
pub proof fn law_payload_is_no_longer(e: Seq<u8>, run: int)
    ensures
        unescaped(e, run).len() <= e.len(),
    decreases e.len(),
{
    if e.len() > 0 {
        let next: int = if e[0] != 0 {
            0
        } else if run >= 2 {
            2
        } else {
            run + 1
        };
        law_payload_is_no_longer(e.drop_first(), next);
        law_payload_is_no_longer(e.drop_first(), 0);
    }
}

} // verus!
