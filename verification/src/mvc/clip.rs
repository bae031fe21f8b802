//! Stereo clips: whole streams of two views, decoded to pairs of frames in
//! display order, and pairs packed side by side.

use crate::mvc::annexb::{
    all_units, law_reader_matches_splitter, nal_units, NalSplitter, Stream,
};
use crate::mvc::bitstream::ReadError;
use crate::mvc::clip::au::{coded, fed, nothing_gathered, strings, Au, AuAssembler, AuData, Gathered};
use crate::mvc::clip::hier::{hier_end, hier_step, unstarted, Hier, HierData};
use crate::mvc::clip::sliding::{no_frames, sliding_step, Sliding, SlidingData};
use crate::mvc::clip::stream::{all_whole, base_env, pairs, pps_in_force, FramePair, Pair, Sets};
use crate::mvc::clip::tally::{
    accounts, all_size, capped, law_clip_is_counted, law_pairs_are_counted,
};
use crate::mvc::clip::view::{header_of, read_header};
use crate::mvc::recon::ReconError;
use vstd::prelude::*;

pub mod au;
pub mod dep_list;
pub mod hier;
pub mod laws;
pub mod order;
pub mod pack;
pub mod sliding;
pub mod stream;
pub mod tally;
pub mod view;

verus! {

/// Why a clip cannot be decoded.
#[derive(Debug, Clone, Copy, PartialEq, Eq)]
pub enum ClipError {
    /// A parameter set or slice header does not parse.
    Read(ReadError),
    /// A frame does not decode.
    Recon(ReconError),
    /// There is no base sequence parameter set (type 7).
    NoBaseSps,
    /// There is no base picture parameter set (type 8).
    NoBasePps,
    /// There is no subset sequence parameter set (type 15): not a stereo stream.
    NoSubsetSps,
    /// There is no dependent picture parameter set.
    NoDependentPps,
    /// A B slice in the base view of a stream that began without any.
    BaseBSlice,
    /// A B slice in the dependent view of a stream that began without any.
    DependentBSlice,
    /// A P frame without a list 0.
    NoList0,
    /// A B frame with an empty list.
    NoReferences,
    /// An access unit without the dependent view.
    NoDependentView,
    /// A list names a frame that is not held.
    MissingReference,
    /// A sequence parameter set gives a field more bits than can be read.
    ParameterRange,
}

impl ClipError {
    /// The message shown to a user.
    pub fn message(&self) -> (s: &'static str)
        ensures
            s@ == (match *self {
                ClipError::Read(ReadError::Truncated) => "ran off the end of the bitstream"@,
                ClipError::Read(ReadError::ExpGolombOverflow) =>
                    "exp-Golomb codeword length exceeds 32 bits"@,
                ClipError::Recon(_) => "a frame does not decode"@,
                ClipError::NoBaseSps => "no base SPS (NAL 7) in stream"@,
                ClipError::NoBasePps => "no base PPS (NAL 8) in stream"@,
                ClipError::NoSubsetSps => "no subset SPS (NAL 15) — not an MVC stream"@,
                ClipError::NoDependentPps => "no dependent PPS in stream"@,
                ClipError::BaseBSlice => "B-slices not supported yet (base view)"@,
                ClipError::DependentBSlice => "B-slices not supported yet (dependent view)"@,
                ClipError::NoList0 => "no L0 for a P frame"@,
                ClipError::NoReferences => "no refs for B"@,
                ClipError::NoDependentView => "no dependent view in an access unit"@,
                ClipError::MissingReference => "a reference frame is missing"@,
                ClipError::ParameterRange => "a field of the SPS is too wide"@,
            }),
    {
        match self {
            ClipError::Read(e) => e.message(),
            ClipError::Recon(_) => "a frame does not decode",
            ClipError::NoBaseSps => "no base SPS (NAL 7) in stream",
            ClipError::NoBasePps => "no base PPS (NAL 8) in stream",
            ClipError::NoSubsetSps => "no subset SPS (NAL 15) — not an MVC stream",
            ClipError::NoDependentPps => "no dependent PPS in stream",
            ClipError::BaseBSlice => "B-slices not supported yet (base view)",
            ClipError::DependentBSlice => "B-slices not supported yet (dependent view)",
            ClipError::NoList0 => "no L0 for a P frame",
            ClipError::NoReferences => "no refs for B",
            ClipError::NoDependentView => "no dependent view in an access unit",
            ClipError::MissingReference => "a reference frame is missing",
            ClipError::ParameterRange => "a field of the SPS is too wide",
        }
    }
}

/// The display size of a decoded clip, and how many pairs it has given.
#[derive(Debug, Clone, Copy, PartialEq, Eq, Structural)]
pub struct ClipInfo {
    pub width: u32,
    pub height: u32,
    pub frames: usize,
}

/// How many access units at most are gathered to find out whether a stream has B
/// frames.
pub const DETECT_CAP: usize = 96;

// ---- what a stream decodes to ----

/// The way a stream is decoded, and how far it has come.
pub enum RouteData {
    Sliding(SlidingData),
    Hier(HierData),
}

/// A stream under way: it is gathered until its kind is known, then decoded.
pub enum PhaseData {
    Detecting(Seq<AuData>),
    Running(Sets, RouteData),
}

/// A clip under way: what has been gathered, and the decoding.
pub struct ClipData {
    pub units: Gathered,
    pub phase: PhaseData,
}

/// A clip of which nothing has come.
pub open spec fn clip_start() -> ClipData {
    ClipData { units: nothing_gathered(), phase: PhaseData::Detecting(Seq::empty()) }
}

/// How many of the access units are IDR ones.
pub open spec fn idr_count(aus: Seq<AuData>) -> nat
    decreases aus.len(),
{
    if aus.len() == 0 {
        0
    } else {
        idr_count(aus.drop_last()) + if aus.last().base_idr {
            1nat
        } else {
            0
        }
    }
}

/// Enough has been gathered to tell the kind of the stream: up to its second IDR
/// frame, or as many access units as are looked at.
pub open spec fn enough(aus: Seq<AuData>) -> bool {
    aus.len() >= DETECT_CAP || (idr_count(aus) >= 2 && aus.last().base_idr)
}

/// The parameter sets of a stream: one of each kind has to be there.
pub open spec fn sets_of(a: Gathered) -> Result<Sets, ClipError> {
    match (a.bsps, a.bpps, a.dsps, a.dpps) {
        (None, _, _, _) => Err(ClipError::NoBaseSps),
        (_, None, _, _) => Err(ClipError::NoBasePps),
        (_, _, None, _) => Err(ClipError::NoSubsetSps),
        (_, _, _, None) => Err(ClipError::NoDependentPps),
        (Some(bsps), Some(bpps), Some(dsps), Some(dpps)) => Ok(Sets { bsps, bpps, dsps, dpps }),
    }
}

/// The base view of an access unit starts with a B slice.
pub open spec fn starts_with_b(au: AuData, sets: Sets) -> bool {
    header_of(au.base[0], base_env(au, sets)) matches Ok(h) && h.fields.slice_type % 5 == 1
}

/// An access unit has B slices in the base view.
pub open spec fn has_b(aus: Seq<AuData>, sets: Sets) -> bool {
    exists|k: int| 0 <= k < aus.len() && starts_with_b(#[trigger] aus[k], sets)
}

/// How a stream that begins with these access units is decoded.
pub open spec fn route_of(aus: Seq<AuData>, sets: Sets) -> Result<RouteData, ClipError> {
    if !has_b(aus, sets) {
        Ok(RouteData::Sliding(no_frames()))
    } else if sets.bsps.log2_max_pic_order_cnt_lsb_minus4 > 27 {
        Err(ClipError::ParameterRange)
    } else {
        Ok(RouteData::Hier(unstarted()))
    }
}

/// The next access unit: the pairs that can be shown, and what is left.
pub open spec fn route_step(r: RouteData, au: AuData, sets: Sets) -> (
    Seq<Pair>,
    Result<RouteData, ClipError>,
) {
    match r {
        RouteData::Sliding(s) => match sliding_step(s, au, sets) {
            Ok((t, p)) => (seq![p], Ok(RouteData::Sliding(t))),
            Err(e) => (Seq::empty(), Err(e)),
        },
        RouteData::Hier(s) => match hier_step(s, au, sets) {
            (out, Ok(t)) => (out, Ok(RouteData::Hier(t))),
            (out, Err(e)) => (out, Err(e)),
        },
    }
}

/// The access units from `i` on, after the pairs in `out`.
pub open spec fn route_run(
    r: RouteData,
    aus: Seq<AuData>,
    i: int,
    sets: Sets,
    out: Seq<Pair>,
) -> (Seq<Pair>, Result<RouteData, ClipError>)
    decreases aus.len() - i,
{
    if i >= aus.len() {
        (out, Ok(r))
    } else {
        match route_step(r, aus[i], sets) {
            (more, Ok(t)) => route_run(t, aus, i + 1, sets, out + more),
            (more, Err(e)) => (out + more, Err(e)),
        }
    }
}

/// Decode the access units gathered so far.
pub open spec fn begun(a: Gathered, aus: Seq<AuData>) -> (
    Seq<Pair>,
    Result<PhaseData, ClipError>,
) {
    match sets_of(a) {
        Err(e) => (Seq::empty(), Err(e)),
        Ok(sets) => match route_of(aus, sets) {
            Err(e) => (Seq::empty(), Err(e)),
            Ok(r) => match route_run(r, aus, 0, sets, Seq::empty()) {
                (out, Ok(t)) => (out, Ok(PhaseData::Running(sets, t))),
                (out, Err(e)) => (out, Err(e)),
            },
        },
    }
}

/// Another access unit is complete.
#[verifier::opaque]
pub open spec fn phase_step(a: Gathered, p: PhaseData, au: AuData) -> (
    Seq<Pair>,
    Result<PhaseData, ClipError>,
) {
    match p {
        PhaseData::Detecting(aus) => if enough(aus.push(au)) {
            begun(a, aus.push(au))
        } else {
            (Seq::empty(), Ok(PhaseData::Detecting(aus.push(au))))
        },
        PhaseData::Running(sets, r) => match route_step(r, au, sets) {
            (out, Ok(t)) => (out, Ok(PhaseData::Running(sets, t))),
            (out, Err(e)) => (out, Err(e)),
        },
    }
}

/// Another NAL unit has come. Empty ones are passed over.
#[verifier::opaque]
pub open spec fn clip_step(c: ClipData, nal: Seq<u8>) -> (
    Seq<Pair>,
    Result<ClipData, ClipError>,
) {
    if nal.len() == 0 {
        (Seq::empty(), Ok(c))
    } else {
        match fed(c.units, nal) {
            Err(e) => (Seq::empty(), Err(ClipError::Read(e))),
            Ok((a, None)) => (Seq::empty(), Ok(ClipData { units: a, ..c })),
            Ok((a, Some(au))) => match phase_step(a, c.phase, au) {
                (out, Ok(p)) => (out, Ok(ClipData { units: a, phase: p })),
                (out, Err(e)) => (out, Err(e)),
            },
        }
    }
}

/// The state after the last access unit, decoded in any case.
#[verifier::opaque]
pub open spec fn last_step(c: ClipData) -> (Seq<Pair>, Result<PhaseData, ClipError>) {
    match (c.phase, coded(c.units.cur)) {
        (PhaseData::Detecting(aus), None) => begun(c.units, aus),
        (PhaseData::Detecting(aus), Some(au)) => begun(c.units, aus.push(au)),
        (PhaseData::Running(sets, r), None) => (Seq::empty(), Ok(c.phase)),
        (PhaseData::Running(sets, r), Some(au)) => phase_step(c.units, c.phase, au),
    }
}

/// What a clip with these sets and this many pairs is.
pub open spec fn info_of(sets: Sets, frames: usize) -> ClipInfo {
    ClipInfo { width: sets.bsps.width, height: sets.bsps.height, frames }
}

/// The end of a decoding.
pub open spec fn phase_end(p: PhaseData) -> (Seq<Pair>, Result<ClipInfo, ClipError>) {
    match p {
        PhaseData::Running(sets, RouteData::Sliding(s)) => (
            Seq::empty(),
            Ok(info_of(sets, s.frames)),
        ),
        PhaseData::Running(sets, RouteData::Hier(s)) => match hier_end(s, sets) {
            (out, Ok(t)) => (out, Ok(info_of(sets, t.frames))),
            (out, Err(e)) => (out, Err(e)),
        },
        PhaseData::Detecting(_) => (Seq::empty(), Err(ClipError::NoBaseSps)),
    }
}

/// The end of a clip: the pairs that are left, and what the clip is.
#[verifier::opaque]
pub open spec fn clip_end(c: ClipData) -> (Seq<Pair>, Result<ClipInfo, ClipError>) {
    match last_step(c) {
        (out, Err(e)) => (out, Err(e)),
        (out, Ok(p)) => match phase_end(p) {
            (more, r) => (out + more, r),
        },
    }
}

/// A clip from its NAL units from `i` on, after the pairs in `out`: all pairs in
/// display order, and what the clip is or why it ends early.
pub open spec fn clip_run(c: ClipData, nals: Seq<Seq<u8>>, i: int, out: Seq<Pair>) -> (
    Seq<Pair>,
    Result<ClipInfo, ClipError>,
)
    decreases nals.len() - i,
{
    if i >= nals.len() {
        match clip_end(c) {
            (more, r) => (out + more, r),
        }
    } else {
        match clip_step(c, nals[i]) {
            (more, Ok(d)) => clip_run(d, nals, i + 1, out + more),
            (more, Err(e)) => (out + more, Err(e)),
        }
    }
}

/// What a stream of NAL units decodes to.
pub open spec fn decoded(nals: Seq<Seq<u8>>) -> (
    Seq<Pair>,
    Result<ClipInfo, ClipError>,
) {
    clip_run(clip_start(), nals, 0, Seq::empty())
}

// ---- decoding ----

enum Route {
    Sliding(Sliding),
    Hier(Hier),
}

enum Phase {
    Detecting(Vec<Au>, usize),
    Running(Sets, Route),
}

/// Decodes a clip from NAL units as they come, so that only a few frames are held
/// at a time.
pub struct ClipDecoder {
    units: AuAssembler,
    phase: Phase,
}

spec fn au_data(v: Seq<Au>) -> Seq<AuData> {
    Seq::new(v.len(), |k: int| v[k]@)
}

spec fn all_coded(v: Seq<Au>) -> bool {
    forall|k: int| 0 <= k < v.len() ==> (#[trigger] v[k])@.base.len() > 0
}

impl Route {
    spec fn data(self) -> RouteData {
        match self {
            Route::Sliding(s) => RouteData::Sliding(s@),
            Route::Hier(s) => RouteData::Hier(s@),
        }
    }

    spec fn wf(self, sets: Sets) -> bool {
        match self {
            Route::Sliding(s) => s.wf(sets),
            Route::Hier(s) => s.wf(sets) && sets.bsps.log2_max_pic_order_cnt_lsb_minus4 <= 27,
        }
    }

    fn step(self, au: Au, sets: &Sets, out: &mut Vec<FramePair>) -> (r: Result<Route, ClipError>)
        requires
            self.wf(*sets),
            au@.base.len() > 0,
        ensures
            ({
                let want = route_step(self.data(), au@, *sets);
                &&& pairs(final(out)@) == pairs(old(out)@) + want.0
                &&& match r {
                    Ok(t) => want.1 == Ok::<RouteData, ClipError>(t.data()) && t.wf(*sets),
                    Err(e) => want.1 == Err::<RouteData, ClipError>(e),
                }
            }),
            all_whole(old(out)@) ==> all_whole(final(out)@),
    {
        let ghost start = pairs(out@);
        assert(start + Seq::<Pair>::empty() =~= start);
        match self {
            Route::Sliding(s) => {
                let mut s = s;
                let ghost was = s@;
                s.step(&au, sets, out)?;
                proof {
                    let p = sliding_step(was, au@, *sets)->Ok_0.1;
                    assert(start.push(p) =~= start + seq![p]);
                }
                Ok(Route::Sliding(s))
            },
            Route::Hier(s) => {
                let mut s = s;
                s.step(au, sets, out)?;
                Ok(Route::Hier(s))
            },
        }
    }
}

impl Phase {
    spec fn data(self) -> PhaseData {
        match self {
            Phase::Detecting(aus, _) => PhaseData::Detecting(au_data(aus@)),
            Phase::Running(sets, r) => PhaseData::Running(sets, r.data()),
        }
    }

    spec fn wf(self) -> bool {
        match self {
            Phase::Detecting(aus, idrs) => all_coded(aus@) && idrs == idr_count(au_data(aus@))
                && idrs <= aus@.len(),
            Phase::Running(sets, r) => r.wf(sets),
        }
    }
}

fn find_sets(a: &AuAssembler) -> (r: Result<Sets, ClipError>)
    ensures
        r == sets_of(a@),
{
    match (a.bsps, a.bpps, a.dsps, a.dpps) {
        (None, _, _, _) => Err(ClipError::NoBaseSps),
        (_, None, _, _) => Err(ClipError::NoBasePps),
        (_, _, None, _) => Err(ClipError::NoSubsetSps),
        (_, _, _, None) => Err(ClipError::NoDependentPps),
        (Some(bsps), Some(bpps), Some(dsps), Some(dpps)) => Ok(Sets { bsps, bpps, dsps, dpps }),
    }
}

fn is_b(au: &Au, sets: &Sets) -> (b: bool)
    requires
        au@.base.len() > 0,
    ensures
        b == starts_with_b(au@, *sets),
{
    let pps = pps_in_force(&au.bpps, &sets.bpps);
    assert(au.base@[0]@ == strings(au.base@)[0]);
    match read_header(au.base[0].as_slice(), au.base_idr, au.base_idc, &sets.bsps, &pps) {
        Ok(h) => h.slice_type % 5 == 1,
        Err(_) => false,
    }
}

fn any_b(aus: &Vec<Au>, sets: &Sets) -> (b: bool)
    requires
        all_coded(aus@),
    ensures
        b == has_b(au_data(aus@), *sets),
{
    let n: usize = aus.len();
    let ghost d = au_data(aus@);
    for i in 0..n
        invariant
            n == aus@.len(),
            d == au_data(aus@),
            all_coded(aus@),
            forall|k: int| 0 <= k < i ==> !starts_with_b(#[trigger] d[k], *sets),
    {
        if is_b(&aus[i], sets) {
            assert(starts_with_b(d[i as int], *sets));
            return true;
        }
    }
    false
}

fn choose_route(aus: &Vec<Au>, sets: &Sets) -> (r: Result<Route, ClipError>)
    requires
        all_coded(aus@),
    ensures
        match r {
            Ok(t) => route_of(au_data(aus@), *sets) == Ok::<RouteData, ClipError>(t.data())
                && t.wf(*sets),
            Err(e) => route_of(au_data(aus@), *sets) == Err::<RouteData, ClipError>(e),
        },
{
    if !any_b(aus, sets) {
        return Ok(Route::Sliding(Sliding::new()));
    }
    if sets.bsps.log2_max_pic_order_cnt_lsb_minus4 > 27 {
        return Err(ClipError::ParameterRange);
    }
    Ok(Route::Hier(Hier::new()))
}

proof fn lemma_route_run(
    r: RouteData,
    aus: Seq<AuData>,
    i: int,
    sets: Sets,
    out: Seq<Pair>,
)
    ensures
        route_run(r, aus, i, sets, out).0 == out + route_run(r, aus, i, sets, Seq::empty()).0,
        route_run(r, aus, i, sets, out).1 == route_run(r, aus, i, sets, Seq::empty()).1,
    decreases aus.len() - i,
{
    let none = Seq::<Pair>::empty();
    if i >= aus.len() {
        assert(out + none =~= out);
    } else {
        match route_step(r, aus[i], sets) {
            (more, Ok(t)) => {
                lemma_route_run(t, aus, i + 1, sets, out + more);
                lemma_route_run(t, aus, i + 1, sets, none + more);
                let rest = route_run(t, aus, i + 1, sets, none).0;
                assert((out + more) + rest =~= out + ((none + more) + rest));
            },
            (more, Err(e)) => {
                assert(out + more =~= out + (none + more));
            },
        }
    }
}

fn begin(units: &AuAssembler, aus: Vec<Au>, out: &mut Vec<FramePair>) -> (r: Result<Phase, ClipError>)
    requires
        all_coded(aus@),
    ensures
        ({
            let want = begun(units@, au_data(aus@));
            &&& pairs(final(out)@) == pairs(old(out)@) + want.0
            &&& match r {
                Ok(p) => want.1 == Ok::<PhaseData, ClipError>(p.data()) && p.wf() && p is Running,
                Err(e) => want.1 == Err::<PhaseData, ClipError>(e),
            }
        }),
        all_whole(old(out)@) ==> all_whole(final(out)@),
{
    let ghost start = pairs(out@);
    let ghost d = au_data(aus@);
    assert(start + Seq::<Pair>::empty() =~= start);
    let sets = find_sets(units)?;
    let mut route = choose_route(&aus, &sets)?;
    proof {
        lemma_route_run(route.data(), d, 0, sets, start);
    }
    let ghost want = route_run(route.data(), d, 0, sets, start);
    let mut rest = aus;
    let n: usize = rest.len();
    let mut i: usize = 0;
    assert(d.skip(0) =~= d);
    while i < n
        invariant
            i <= n,
            n == d.len(),
            d == au_data(aus@),
            start == pairs(old(out)@),
            au_data(rest@) == d.skip(i as int),
            all_coded(rest@),
            all_whole(old(out)@) ==> all_whole(out@),
            route.wf(sets),
            want == route_run(route.data(), d, i as int, sets, pairs(out@)),
            want.0 == start + begun(units@, d).0,
            route_of(d, sets) is Ok,
            sets_of(units@) == Ok::<Sets, ClipError>(sets),
            want.1 == route_run(route_of(d, sets)->Ok_0, d, 0, sets, Seq::empty()).1,
        decreases n - i,
    {
        let ghost before = rest@;
        assert(au_data(rest@).len() == n - i);
        let au = rest.remove(0);
        proof {
            assert(rest@ =~= before.skip(1));
            assert(au@ == d.skip(i as int)[0]);
            assert(au_data(rest@) =~= au_data(before).skip(1));
            assert(d.skip(i as int).skip(1) =~= d.skip(i + 1));
            assert(all_coded(rest@)) by {
                assert forall|k: int| 0 <= k < rest@.len() implies (#[trigger] rest@[k])@.base.len()
                    > 0 by {
                    assert(rest@[k] == before[k + 1]);
                }
            }
            assert(au == before[0]);
        }
        route = route.step(au, &sets, out)?;
        i = i + 1;
    }
    Ok(Phase::Running(sets, route))
}

fn phase_next(units: &AuAssembler, p: Phase, au: Au, out: &mut Vec<FramePair>) -> (r: Result<
    Phase,
    ClipError,
>)
    requires
        p.wf(),
        au@.base.len() > 0,
    ensures
        ({
            let want = phase_step(units@, p.data(), au@);
            &&& pairs(final(out)@) == pairs(old(out)@) + want.0
            &&& match r {
                Ok(q) => want.1 == Ok::<PhaseData, ClipError>(q.data()) && q.wf() && (p is Running
                    ==> q is Running),
                Err(e) => want.1 == Err::<PhaseData, ClipError>(e),
            }
        }),
        all_whole(old(out)@) ==> all_whole(final(out)@),
{
    proof {
        reveal(phase_step);
    }
    match p {
        Phase::Detecting(aus, idrs) => {
            let mut aus = aus;
            let ghost was = aus@;
            let idr: bool = au.base_idr;
            aus.push(au);
            let n: usize = aus.len();
            proof {
                assert(au_data(aus@) =~= au_data(was).push(au@));
                assert(au_data(aus@).drop_last() =~= au_data(was));
                assert(pairs(out@) + Seq::<Pair>::empty() =~= pairs(out@));
            }
            let seen: usize = if idr {
                idrs + 1
            } else {
                idrs
            };
            if n >= DETECT_CAP || (seen >= 2 && idr) {
                begin(units, aus, out)
            } else {
                Ok(Phase::Detecting(aus, seen))
            }
        },
        Phase::Running(sets, route) => {
            let t = route.step(au, &sets, out)?;
            Ok(Phase::Running(sets, t))
        },
    }
}

impl View for ClipDecoder {
    type V = ClipData;

    closed spec fn view(&self) -> ClipData {
        ClipData { units: self.units@, phase: self.phase.data() }
    }
}

impl ClipDecoder {
    #[verifier::type_invariant]
    spec fn inv(self) -> bool {
        self.phase.wf()
    }

    /// A clip of which nothing has come.
    pub fn new() -> (c: ClipDecoder)
        ensures
            c@ == clip_start(),
            accounts(c@, Seq::empty()),
    {
        let aus: Vec<Au> = Vec::new();
        assert(au_data(aus@) =~= Seq::empty());
        ClipDecoder { units: AuAssembler::new(), phase: Phase::Detecting(aus, 0) }
    }

    /// Take in a NAL unit, and append the pairs that can be shown, in display
    /// order. After an error there is no decoder to go on with.
    pub fn push(self, nal: &[u8], out: &mut Vec<FramePair>) -> (r: Result<ClipDecoder, ClipError>)
        ensures
            ({
                let want = clip_step(self@, nal@);
                &&& pairs(final(out)@) == pairs(old(out)@) + want.0
                &&& match r {
                    Ok(c) => want.1 == Ok::<ClipData, ClipError>(c@) && forall|given: Seq<Pair>| #[trigger]
                        accounts(self@, given) ==> accounts(c@, given + want.0),
                    Err(e) => want.1 == Err::<ClipData, ClipError>(e),
                }
            }),
            all_whole(old(out)@) ==> all_whole(final(out)@),
    {
        proof {
            assert forall|given: Seq<Pair>| #[trigger] accounts(self@, given) implies (clip_step(
                self@,
                nal@,
            ) matches (o, Ok(d)) ==> accounts(d, given + o)) by {
                law_pairs_are_counted(self@, nal@, given);
            }
            reveal(clip_step);
            use_type_invariant(&self);
            assert(pairs(out@) + Seq::<Pair>::empty() =~= pairs(out@));
        }
        if nal.len() == 0 {
            return Ok(self);
        }
        let ClipDecoder { units, phase } = self;
        let mut units = units;
        let unit = match units.feed(nal) {
            Ok(u) => u,
            Err(e) => {
                return Err(ClipError::Read(e));
            },
        };
        match unit {
            None => Ok(ClipDecoder { units, phase }),
            Some(au) => {
                proof {
                    lemma_fed_coded(self.units@, nal@);
                }
                let p = phase_next(&units, phase, au, out)?;
                Ok(ClipDecoder { units, phase: p })
            },
        }
    }

    fn last(self, out: &mut Vec<FramePair>) -> (r: Result<Phase, ClipError>)
        ensures
            ({
                let want = last_step(self@);
                &&& pairs(final(out)@) == pairs(old(out)@) + want.0
                &&& match r {
                    Ok(p) => want.1 == Ok::<PhaseData, ClipError>(p.data()) && p.wf() && p is
                        Running,
                    Err(e) => want.1 == Err::<PhaseData, ClipError>(e),
                }
            }),
            all_whole(old(out)@) ==> all_whole(final(out)@),
    {
        proof {
            reveal(last_step);
            use_type_invariant(&self);
            assert(pairs(out@) + Seq::<Pair>::empty() =~= pairs(out@));
        }
        let ClipDecoder { units, phase } = self;
        let mut units = units;
        let ghost g = units@;
        let unit = units.finish();
        proof {
            lemma_begun_frame(g, units@);
            lemma_phase_frame(g, units@);
        }
        match phase {
            Phase::Detecting(aus, idrs) => {
                let mut aus = aus;
                match unit {
                    Some(au) => {
                        let ghost was = aus@;
                        aus.push(au);
                        assert(au_data(aus@) =~= au_data(was).push(au@));
                    },
                    None => {},
                }
                begin(&units, aus, out)
            },
            Phase::Running(sets, route) => match unit {
                Some(au) => phase_next(&units, Phase::Running(sets, route), au, out),
                None => Ok(Phase::Running(sets, route)),
            },
        }
    }

    /// Decode what is left, and append its pairs; says what the clip was.
    pub fn finish(self, out: &mut Vec<FramePair>) -> (r: Result<ClipInfo, ClipError>)
        ensures
            ({
                let want = clip_end(self@);
                &&& pairs(final(out)@) == pairs(old(out)@) + want.0
                &&& r == want.1
                &&& forall|given: Seq<Pair>| #[trigger]
                    accounts(self@, given) ==> (r matches Ok(info) ==> info.frames == capped(
                        (given + want.0).len(),
                    ) && all_size(given + want.0, info.width, info.height))
            }),
            all_whole(old(out)@) ==> all_whole(final(out)@),
    {
        proof {
            assert forall|given: Seq<Pair>| #[trigger] accounts(self@, given) implies (clip_end(
                self@,
            ) matches (o, Ok(info)) ==> info.frames == capped((given + o).len()) && all_size(
                given + o,
                info.width,
                info.height,
            )) by {
                law_pairs_are_counted(self@, Seq::empty(), given);
            }
            reveal(clip_end);
        }
        let ghost start = pairs(out@);
        let p = self.last(out)?;
        let ghost o1 = last_step(self@).0;
        let none = Ghost(Seq::<Pair>::empty());
        assert(start + o1 =~= start + (o1 + none@));
        match p {
            Phase::Running(sets, Route::Sliding(s)) => Ok(
                ClipInfo { width: sets.bsps.width, height: sets.bsps.height, frames: s.frames },
            ),
            Phase::Running(sets, Route::Hier(s)) => {
                let mut s = s;
                let ghost h = s@;
                let r = s.end(&sets, out);
                proof {
                    let o2 = hier_end(h, sets).0;
                    assert((start + o1) + o2 =~= start + (o1 + o2));
                }
                match r {
                    Ok(_) => Ok(
                        ClipInfo {
                            width: sets.bsps.width,
                            height: sets.bsps.height,
                            frames: s.frames,
                        },
                    ),
                    Err(e) => Err(e),
                }
            },
            Phase::Detecting(_, _) => Err(ClipError::NoBaseSps),
        }
    }
}

/// An access unit that is complete has base slices.
proof fn lemma_fed_coded(a: Gathered, nal: Seq<u8>)
    ensures
        fed(a, nal) matches Ok((b, Some(au))) ==> au.base.len() > 0,
{
    reveal(fed);
}

/// Only the parameter sets matter when decoding begins.
proof fn lemma_begun_frame(a: Gathered, b: Gathered)
    requires
        b == (Gathered { cur: None, ..a }),
    ensures
        forall|aus: Seq<AuData>| begun(a, aus) == #[trigger] begun(b, aus),
{
}

proof fn lemma_phase_frame(a: Gathered, b: Gathered)
    requires
        b == (Gathered { cur: None, ..a }),
    ensures
        forall|p: PhaseData, au: AuData| phase_step(a, p, au) == #[trigger] phase_step(b, p, au),
{
    reveal(phase_step);
    lemma_begun_frame(a, b);
}

/// Decode a whole stream: append its pairs in display order, left frame and right
/// frame, and say what the clip is: its size, and how many pairs were appended.
/// The pairs before an error are appended too.
pub fn decode_annex_b(data: &[u8], out: &mut Vec<FramePair>) -> (r: Result<ClipInfo, ClipError>)
    ensures
        pairs(final(out)@) == pairs(old(out)@) + decoded(nal_units(data@)).0,
        r == decoded(nal_units(data@)).1,
        r matches Ok(info) ==> info.frames == final(out)@.len() - old(out)@.len() && forall|k: int|
            old(out)@.len() <= k < final(out)@.len() ==> (#[trigger] final(out)@[k]).width
                == info.width && final(out)@[k].height == info.height,
        all_whole(old(out)@) ==> all_whole(final(out)@),
{
    let ghost nals = nal_units(data@);
    let ghost start = pairs(out@);
    let mut nal = NalSplitter::new(data);
    let mut clip = ClipDecoder::new();
    let ghost want = clip_run(clip_start(), nals, 0, start);
    let ghost mut i: int = 0;
    proof {
        lemma_clip_run(clip_start(), nals, 0, start);
        assert(nals.skip(0) =~= nals);
    }
    loop
        invariant
            0 <= i <= nals.len(),
            nal_units(nal.left()) == nals.skip(i),
            want == clip_run(clip@, nals, i, pairs(out@)),
            want.0 == start + decoded(nals).0,
            want.1 == decoded(nals).1,
            nals == nal_units(data@),
            start == pairs(old(out)@),
            all_whole(old(out)@) ==> all_whole(out@),
        decreases nals.len() - i,
    {
        match nal.next() {
            None => {
                assert(nals.skip(i).len() == 0);
                let r = clip.finish(out);
                proof {
                    law_clip_is_counted(clip_start(), nals, 0, Seq::empty());
                    let all = decoded(nals).0;
                    let n = start.len();
                    assert(pairs(out@).len() == out@.len());
                    assert(n + all.len() == out@.len() && out@.len() == out.len());
                    assert forall|k: int| n <= k < out@.len() implies (#[trigger] out@[k])@
                        == all[k - n] by {
                        assert(pairs(out@)[k] == (start + all)[k]);
                    }
                }
                return r;
            },
            Some(u) => {
                proof {
                    assert(u@ == nals.skip(i)[0]);
                    assert(nals.skip(i).skip(1) =~= nals.skip(i + 1));
                }
                clip = clip.push(u, out)?;
                proof {
                    i = i + 1;
                }
            },
        }
    }
}

proof fn lemma_clip_run(c: ClipData, nals: Seq<Seq<u8>>, i: int, out: Seq<Pair>)
    ensures
        clip_run(c, nals, i, out).0 == out + clip_run(c, nals, i, Seq::empty()).0,
        clip_run(c, nals, i, out).1 == clip_run(c, nals, i, Seq::empty()).1,
    decreases nals.len() - i,
{
    let none = Seq::<Pair>::empty();
    if i >= nals.len() {
        let more = clip_end(c).0;
        assert(out + more =~= out + (none + more));
    } else {
        match clip_step(c, nals[i]) {
            (more, Ok(d)) => {
                lemma_clip_run(d, nals, i + 1, out + more);
                lemma_clip_run(d, nals, i + 1, none + more);
                let rest = clip_run(d, nals, i + 1, none).0;
                assert((out + more) + rest =~= out + ((none + more) + rest));
            },
            (more, Err(e)) => {
                assert(out + more =~= out + (none + more));
            },
        }
    }
}

/// A stream that arrives in pieces, split by [`crate::mvc::annexb::NalReader`],
/// decodes to the same clip as the whole stream at once.
pub proof fn law_pieces_decode_the_same(data: Seq<u8>)
    ensures
        decoded(all_units(Stream { started: false, buf: data })) == decoded(nal_units(data)),
{
    law_reader_matches_splitter(data);
}

} // verus!
