//! Access units: the coded slices of one picture of both views, gathered from
//! NAL units, with the parameter sets that the stream has shown so far.

use crate::mvc::bitstream::{BitReader, Cursor, ReadError};
use crate::mvc::nal::{nal_header, parse_nal_unit_header, NalUnitHeader};
use crate::mvc::pps::{lemma_pps_of, parse_pic_parameter_set, pps_data, pps_of, Pps};
use crate::mvc::rbsp::{extract_rbsp, unescaped};
use crate::mvc::recon::bytes_of;
use crate::mvc::sps::{
    lemma_sps_of, parse_seq_parameter_set_data, parse_subset_sps_rbsp, sps_data, sps_of,
    subset_sps, Sps,
};
use vstd::prelude::*;

verus! {

/// The slices of an access unit by view, without their NAL headers and escapes.
pub struct Au {
    pub base: Vec<Vec<u8>>,
    pub base_idr: bool,
    pub base_idc: u8,
    pub dep: Vec<Vec<u8>>,
    pub dep_idc: u8,
    /// The dependent slices have IDR headers.
    pub dep_idr: bool,
    /// The dependent view only predicts from the base view.
    pub dep_anchor: bool,
    /// The picture parameter sets in force when the views' first slices came.
    pub bpps: Option<Pps>,
    pub dpps: Option<Pps>,
}

/// The slices of an access unit by view.
#[verifier::ext_equal]
pub struct AuData {
    pub base: Seq<Seq<u8>>,
    pub base_idr: bool,
    pub base_idc: u8,
    pub dep: Seq<Seq<u8>>,
    pub dep_idc: u8,
    pub dep_idr: bool,
    pub dep_anchor: bool,
    pub bpps: Option<Pps>,
    pub dpps: Option<Pps>,
}

/// Byte strings.
pub open spec fn strings(v: Seq<Vec<u8>>) -> Seq<Seq<u8>> {
    Seq::new(v.len(), |k: int| v[k]@)
}

impl View for Au {
    type V = AuData;

    open spec fn view(&self) -> AuData {
        AuData {
            base: strings(self.base@),
            base_idr: self.base_idr,
            base_idc: self.base_idc,
            dep: strings(self.dep@),
            dep_idc: self.dep_idc,
            dep_idr: self.dep_idr,
            dep_anchor: self.dep_anchor,
            bpps: self.bpps,
            dpps: self.dpps,
        }
    }
}

/// No slices.
pub open spec fn empty_au() -> AuData {
    AuData {
        base: Seq::empty(),
        base_idr: false,
        base_idc: 0,
        dep: Seq::empty(),
        dep_idc: 0,
        dep_idr: false,
        dep_anchor: false,
        bpps: None,
        dpps: None,
    }
}

/// An optional access unit.
pub open spec fn opt_au(a: Option<Au>) -> Option<AuData> {
    match a {
        Some(u) => Some(u@),
        None => None,
    }
}

/// The access unit, if it has base slices.
pub open spec fn coded(a: Option<AuData>) -> Option<AuData> {
    match a {
        Some(u) if u.base.len() > 0 => Some(u),
        _ => None,
    }
}

/// The access unit under way, or an empty one.
pub open spec fn started(a: Option<AuData>) -> AuData {
    match a {
        Some(u) => u,
        None => empty_au(),
    }
}

/// The slices of a view as slices of bytes.
pub fn slices_of(v: &Vec<Vec<u8>>) -> (r: Vec<&[u8]>)
    ensures
        bytes_of(r@) == strings(v@),
        r@.len() == v@.len(),
{
    let mut r: Vec<&[u8]> = Vec::new();
    let n: usize = v.len();
    for i in 0..n
        invariant
            n == v@.len(),
            r@.len() == i,
            forall|k: int| 0 <= k < i ==> (#[trigger] r@[k])@ == v@[k]@,
    {
        r.push(v[i].as_slice());
    }
    assert(bytes_of(r@) =~= strings(v@));
    r
}

impl Au {
    fn empty() -> (a: Au)
        ensures
            a@ == empty_au(),
    {
        let a = Au {
            base: Vec::new(),
            base_idr: false,
            base_idc: 0,
            dep: Vec::new(),
            dep_idc: 0,
            dep_idr: false,
            dep_anchor: false,
            bpps: None,
            dpps: None,
        };
        assert(a@ =~= empty_au());
        a
    }

    fn coded(a: Option<Au>) -> (r: Option<Au>)
        ensures
            opt_au(r) == coded(opt_au(a)),
    {
        match a {
            Some(u) => if u.base.len() > 0 {
                Some(u)
            } else {
                None
            },
            None => None,
        }
    }

    fn started(a: Option<Au>) -> (r: Au)
        ensures
            r@ == started(opt_au(a)),
    {
        match a {
            Some(u) => u,
            None => Au::empty(),
        }
    }
}

/// Gathers NAL units into access units and keeps the parameter sets.
pub struct AuAssembler {
    pub bsps: Option<Sps>,
    pub bpps: Option<Pps>,
    pub dsps: Option<Sps>,
    pub dpps: Option<Pps>,
    /// The number of the subset sequence parameter set: picture parameter sets
    /// that refer to it belong to the dependent view.
    pub dep_sps_id: Option<u32>,
    pub cur: Option<Au>,
}

/// The parameter sets and the access unit under way.
#[verifier::ext_equal]
pub struct Gathered {
    pub bsps: Option<Sps>,
    pub bpps: Option<Pps>,
    pub dsps: Option<Sps>,
    pub dpps: Option<Pps>,
    pub dep_sps_id: Option<u32>,
    pub cur: Option<AuData>,
}

impl View for AuAssembler {
    type V = Gathered;

    open spec fn view(&self) -> Gathered {
        Gathered {
            bsps: self.bsps,
            bpps: self.bpps,
            dsps: self.dsps,
            dpps: self.dpps,
            dep_sps_id: self.dep_sps_id,
            cur: opt_au(self.cur),
        }
    }
}

/// Nothing seen yet.
pub open spec fn nothing_gathered() -> Gathered {
    Gathered { bsps: None, bpps: None, dsps: None, dpps: None, dep_sps_id: None, cur: None }
}

/// The start of some bytes.
pub open spec fn start_of(d: Seq<u8>) -> Cursor {
    Cursor { data: d, pos: 0, err: None }
}

/// The access unit with another base slice.
pub open spec fn with_base(u: AuData, h: NalUnitHeader, rbsp: Seq<u8>, bpps: Option<Pps>) -> AuData {
    AuData {
        base: u.base.push(rbsp),
        base_idr: h.nal_unit_type == 5,
        base_idc: h.nal_ref_idc,
        bpps: if u.bpps is None {
            bpps
        } else {
            u.bpps
        },
        ..u
    }
}

/// The access unit with another dependent slice.
pub open spec fn with_dep(u: AuData, h: NalUnitHeader, rbsp: Seq<u8>, dpps: Option<Pps>) -> AuData {
    AuData {
        dep: u.dep.push(rbsp),
        dep_idc: h.nal_ref_idc,
        dep_idr: match h.mvc_extension {
            Some(x) => !x.non_idr_flag,
            None => u.dep_idr,
        },
        dep_anchor: match h.mvc_extension {
            Some(x) => x.anchor_pic_flag,
            None => u.dep_anchor,
        },
        dpps: if u.dpps is None {
            dpps
        } else {
            u.dpps
        },
        ..u
    }
}

/// A base slice begins a new access unit: there is none, or it has slices of
/// both views.
pub open spec fn both_views(a: Option<AuData>) -> bool {
    match a {
        Some(u) => u.base.len() > 0 && u.dep.len() > 0,
        None => true,
    }
}

/// The sets after a base sequence parameter set.
pub open spec fn fed_sps(a: Gathered, rbsp: Seq<u8>) -> Result<Gathered, ReadError> {
    let (d, c) = sps_data(start_of(rbsp));
    match c.err {
        Some(e) => Err(e),
        None => Ok(Gathered { bsps: Some(sps_of(d)), ..a }),
    }
}

/// The sets after a subset sequence parameter set.
pub open spec fn fed_subset(a: Gathered, rbsp: Seq<u8>) -> Result<Gathered, ReadError> {
    let (d, c) = subset_sps(start_of(rbsp));
    match c.err {
        Some(e) => Err(e),
        None => {
            let s = sps_of(d.0);
            Ok(Gathered { dsps: Some(s), dep_sps_id: Some(s.seq_parameter_set_id), ..a })
        },
    }
}

/// The sets after a picture parameter set, which belongs to the view whose
/// sequence parameter set it names.
pub open spec fn fed_pps(a: Gathered, rbsp: Seq<u8>) -> Result<Gathered, ReadError> {
    let chroma = match a.bsps {
        Some(s) => s.chroma_format_idc,
        None => 1,
    };
    let (d, c) = pps_data(start_of(rbsp), chroma);
    match c.err {
        Some(e) => Err(e),
        None => {
            let p = pps_of(d);
            if a.dep_sps_id == Some(p.seq_parameter_set_id) {
                Ok(Gathered { dpps: Some(p), ..a })
            } else {
                Ok(Gathered { bpps: Some(p), ..a })
            }
        },
    }
}

/// Nothing is complete, or the sets do not parse.
pub open spec fn only(r: Result<Gathered, ReadError>) -> Result<
    (Gathered, Option<AuData>),
    ReadError,
> {
    match r {
        Err(e) => Err(e),
        Ok(a) => Ok((a, None)),
    }
}

/// What a NAL unit makes of the sets and of the access unit under way, and the
/// access unit that it completes: one with base slices, when a delimiter comes
/// or a base slice that begins a new one. Units whose header does not parse
/// and units of other types change nothing.
#[verifier::opaque]
pub open spec fn fed(a: Gathered, nal: Seq<u8>) -> Result<(Gathered, Option<AuData>), ReadError> {
    match nal_header(nal) {
        Err(_) => Ok((a, None)),
        Ok((h, n)) => {
            let rbsp = unescaped(nal.skip(n as int), 0);
            let t = h.nal_unit_type;
            if t == 9 {
                Ok((Gathered { cur: Some(empty_au()), ..a }, coded(a.cur)))
            } else if t == 7 {
                only(fed_sps(a, rbsp))
            } else if t == 15 {
                only(fed_subset(a, rbsp))
            } else if t == 8 {
                only(fed_pps(a, rbsp))
            } else if t == 5 || t == 1 {
                let fresh = both_views(a.cur);
                let u = if fresh {
                    empty_au()
                } else {
                    started(a.cur)
                };
                Ok(
                    (
                        Gathered { cur: Some(with_base(u, h, rbsp, a.bpps)), ..a },
                        if fresh {
                            coded(a.cur)
                        } else {
                            None
                        },
                    ),
                )
            } else if t == 20 {
                Ok((Gathered { cur: Some(with_dep(started(a.cur), h, rbsp, a.dpps)), ..a }, None))
            } else {
                Ok((a, None))
            }
        },
    }
}

/// Adding a base slice keeps the slices that were there.
proof fn lemma_push_string(v: Seq<Vec<u8>>, s: Vec<u8>)
    ensures
        strings(v.push(s)) == strings(v).push(s@),
{
    assert(strings(v.push(s)) =~= strings(v).push(s@));
}

impl AuAssembler {
    pub fn new() -> (a: AuAssembler)
        ensures
            a@ == nothing_gathered(),
    {
        AuAssembler { bsps: None, bpps: None, dsps: None, dpps: None, dep_sps_id: None, cur: None }
    }

    fn feed_sps(&mut self, rbsp: &[u8]) -> (r: Result<(), ReadError>)
        ensures
            match r {
                Ok(_) => fed_sps(old(self)@, rbsp@) == Ok::<Gathered, ReadError>(final(self)@),
                Err(e) => fed_sps(old(self)@, rbsp@) == Err::<Gathered, ReadError>(e),
            },
    {
        broadcast use lemma_sps_of;

        let mut reader = BitReader::new(rbsp);
        let s = parse_seq_parameter_set_data(&mut reader)?;
        self.bsps = Some(s);
        Ok(())
    }

    fn feed_subset(&mut self, rbsp: &[u8]) -> (r: Result<(), ReadError>)
        ensures
            match r {
                Ok(_) => fed_subset(old(self)@, rbsp@) == Ok::<Gathered, ReadError>(final(self)@),
                Err(e) => fed_subset(old(self)@, rbsp@) == Err::<Gathered, ReadError>(e),
            },
    {
        broadcast use lemma_sps_of;

        let s = parse_subset_sps_rbsp(rbsp)?;
        self.dep_sps_id = Some(s.sps.seq_parameter_set_id);
        self.dsps = Some(s.sps);
        Ok(())
    }

    fn feed_pps(&mut self, rbsp: &[u8]) -> (r: Result<(), ReadError>)
        ensures
            match r {
                Ok(_) => fed_pps(old(self)@, rbsp@) == Ok::<Gathered, ReadError>(final(self)@),
                Err(e) => fed_pps(old(self)@, rbsp@) == Err::<Gathered, ReadError>(e),
            },
    {
        broadcast use lemma_pps_of;

        let chroma: u32 = match &self.bsps {
            Some(s) => s.chroma_format_idc,
            None => 1,
        };
        let mut reader = BitReader::new(rbsp);
        let p = parse_pic_parameter_set(&mut reader, chroma)?;
        let dep: bool = match self.dep_sps_id {
            Some(id) => id == p.seq_parameter_set_id,
            None => false,
        };
        if dep {
            self.dpps = Some(p);
        } else {
            self.bpps = Some(p);
        }
        Ok(())
    }

    fn feed_base(&mut self, h: &NalUnitHeader, rbsp: Vec<u8>) -> (r: Option<Au>)
        ensures
            ({
                let a = old(self)@;
                let fresh = both_views(a.cur);
                &&& final(self)@ == (Gathered {
                    cur: Some(
                        with_base(
                            if fresh {
                                empty_au()
                            } else {
                                started(a.cur)
                            },
                            *h,
                            rbsp@,
                            a.bpps,
                        ),
                    ),
                    ..a
                })
                &&& opt_au(r) == (if fresh {
                    coded(a.cur)
                } else {
                    None
                })
            }),
    {
        let fresh: bool = match &self.cur {
            Some(u) => u.base.len() > 0 && u.dep.len() > 0,
            None => true,
        };
        let cur = self.cur.take();
        let (mut u, done) = if fresh {
            (Au::empty(), Au::coded(cur))
        } else {
            (Au::started(cur), None)
        };
        let ghost was = u@;
        proof {
            lemma_push_string(u.base@, rbsp);
        }
        u.base_idr = h.nal_unit_type == 5;
        u.base_idc = h.nal_ref_idc;
        if u.bpps.is_none() {
            u.bpps = self.bpps;
        }
        u.base.push(rbsp);
        assert(u@ =~= with_base(was, *h, rbsp@, old(self)@.bpps));
        self.cur = Some(u);
        done
    }

    fn feed_dep(&mut self, h: &NalUnitHeader, rbsp: Vec<u8>)
        ensures
            final(self)@ == (Gathered {
                cur: Some(with_dep(started(old(self)@.cur), *h, rbsp@, old(self)@.dpps)),
                ..old(self)@
            }),
    {
        let cur = self.cur.take();
        let mut u = Au::started(cur);
        let ghost was = u@;
        proof {
            lemma_push_string(u.dep@, rbsp);
        }
        u.dep_idc = h.nal_ref_idc;
        match &h.mvc_extension {
            Some(x) => {
                u.dep_idr = !x.non_idr_flag;
                u.dep_anchor = x.anchor_pic_flag;
            },
            None => {},
        }
        if u.dpps.is_none() {
            u.dpps = self.dpps;
        }
        u.dep.push(rbsp);
        assert(u@ =~= with_dep(was, *h, rbsp@, old(self)@.dpps));
        self.cur = Some(u);
    }

    /// Take in a NAL unit; returns the access unit that it completes.
    pub fn feed(&mut self, nal: &[u8]) -> (r: Result<Option<Au>, ReadError>)
        ensures
            match r {
                Ok(u) => fed(old(self)@, nal@) == Ok::<(Gathered, Option<AuData>), ReadError>(
                    (final(self)@, opt_au(u)),
                ),
                Err(e) => fed(old(self)@, nal@) == Err::<(Gathered, Option<AuData>), ReadError>(e),
            },
    {
        proof {
            reveal(fed);
        }
        let (h, used) = match parse_nal_unit_header(nal) {
            Ok(x) => x,
            Err(_) => {
                return Ok(None);
            },
        };
        let n: usize = nal.len();
        let body = vstd::slice::slice_subrange(nal, used, n);
        assert(body@ =~= nal@.skip(used as int));
        let rbsp = extract_rbsp(body);
        let t: u8 = h.nal_unit_type;
        if t == 9 {
            let cur = self.cur.take();
            self.cur = Some(Au::empty());
            return Ok(Au::coded(cur));
        }
        if t == 7 {
            self.feed_sps(rbsp.as_slice())?;
        } else if t == 15 {
            self.feed_subset(rbsp.as_slice())?;
        } else if t == 8 {
            self.feed_pps(rbsp.as_slice())?;
        } else if t == 5 || t == 1 {
            return Ok(self.feed_base(&h, rbsp));
        } else if t == 20 {
            self.feed_dep(&h, rbsp);
        }
        Ok(None)
    }

    /// The last access unit, at the end of the stream.
    pub fn finish(&mut self) -> (r: Option<Au>)
        ensures
            opt_au(r) == coded(old(self)@.cur),
            final(self)@ == (Gathered { cur: None, ..old(self)@ }),
    {
        let cur = self.cur.take();
        Au::coded(cur)
    }
}

} // verus!
