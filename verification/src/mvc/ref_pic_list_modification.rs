//! Reference list modification of a slice header, with the inter-view
//! operations 4 and 5 of MVC (H.264 sections 7.3.3.1 and G.7.3.3.1.1).

use crate::mvc::bitstream::{reads_view, BitReader, Cursor, ReadError};
use vstd::prelude::*;

verus! {

/// One modification of a reference list.
#[derive(Debug, Clone, Copy, PartialEq, Eq, Structural)]
pub enum RefPicListModification {
    /// Operation 0: subtract from the predicted picture number.
    PicNumSub { abs_diff_pic_num_minus1: u32 },
    /// Operation 1: add to the predicted picture number.
    PicNumAdd { abs_diff_pic_num_minus1: u32 },
    /// Operation 2: take a long-term picture by its number.
    LongTerm { long_term_pic_num: u32 },
    /// Operation 4: subtract from the predicted inter-view index.
    InterViewSub { abs_diff_view_idx_minus1: u32 },
    /// Operation 5: add to the predicted inter-view index.
    InterViewAdd { abs_diff_view_idx_minus1: u32 },
}

/// The modifications of both lists; `None` where the slice has no such list.
#[derive(Debug, Clone, PartialEq, Eq)]
pub struct RefPicListModifications {
    pub list0: Option<Vec<RefPicListModification>>,
    pub list1: Option<Vec<RefPicListModification>>,
}

impl Default for RefPicListModifications {
    fn default() -> (r: Self)
        ensures
            r.list0 is None,
            r.list1 is None,
    {
        RefPicListModifications { list0: None, list1: None }
    }
}

/// The modifications of a list.
pub type Mods = Option<Seq<RefPicListModification>>;

/// The modifications of a list, as a sequence.
pub open spec fn mods_of(v: Option<Vec<RefPicListModification>>) -> Mods {
    match v {
        Some(l) => Some(l@),
        None => None,
    }
}

impl View for RefPicListModifications {
    type V = (Mods, Mods);

    open spec fn view(&self) -> (Mods, Mods) {
        (mods_of(self.list0), mods_of(self.list1))
    }
}

/// The kind of a slice.
#[derive(Debug, Clone, Copy, PartialEq, Eq, Structural)]
pub enum SliceKind {
    P,
    Sp,
    B,
    I,
    Si,
}

/// The kind of a slice type number.
pub open spec fn kind_of(slice_type: u32) -> SliceKind {
    let t = slice_type % 5;
    if t == 0 {
        SliceKind::P
    } else if t == 1 {
        SliceKind::B
    } else if t == 2 {
        SliceKind::I
    } else if t == 3 {
        SliceKind::Sp
    } else {
        SliceKind::Si
    }
}

impl SliceKind {
    /// The kind of a slice type number, which counts twice through the five.
    pub fn from_slice_type(slice_type: u32) -> (r: Self)
        ensures
            r == kind_of(slice_type),
    {
        match slice_type % 5 {
            0 => SliceKind::P,
            1 => SliceKind::B,
            2 => SliceKind::I,
            3 => SliceKind::Sp,
            _ => SliceKind::Si,
        }
    }

    /// The slice predicts from list 0.
    pub open spec fn uses_list0(self) -> bool {
        self is P || self is Sp || self is B
    }

    /// The slice predicts from list 0.
    pub fn has_list0(&self) -> (r: bool)
        ensures
            r == self.uses_list0(),
    {
        match self {
            SliceKind::P | SliceKind::Sp | SliceKind::B => true,
            _ => false,
        }
    }

    /// The slice predicts from list 1.
    pub fn has_list1(&self) -> (r: bool)
        ensures
            r == (*self is B),
    {
        match self {
            SliceKind::B => true,
            _ => false,
        }
    }
}

/// Most modifications of a list that are read on after.
pub const MAX_MODIFICATIONS_PER_LIST: usize = 64;

/// The modification of operation `idc` with operand `v`.
pub open spec fn modification(idc: u32, v: u32) -> RefPicListModification {
    if idc == 0 {
        RefPicListModification::PicNumSub { abs_diff_pic_num_minus1: v }
    } else if idc == 1 {
        RefPicListModification::PicNumAdd { abs_diff_pic_num_minus1: v }
    } else if idc == 2 {
        RefPicListModification::LongTerm { long_term_pic_num: v }
    } else if idc == 4 {
        RefPicListModification::InterViewSub { abs_diff_view_idx_minus1: v }
    } else {
        RefPicListModification::InterViewAdd { abs_diff_view_idx_minus1: v }
    }
}

/// Modifications after those in `seen`, up to operation 3 or a reserved one;
/// more than the limit are an error.
pub open spec fn more_mods(c: Cursor, seen: Seq<RefPicListModification>) -> (
    Seq<RefPicListModification>,
    Cursor,
)
    decreases MAX_MODIFICATIONS_PER_LIST + 1 - seen.len(),
{
    if c.err is Some {
        (seen, c)
    } else if seen.len() > MAX_MODIFICATIONS_PER_LIST {
        (seen, c.fail(0, ReadError::ExpGolombOverflow))
    } else {
        let (idc, c1) = c.ue();
        if c1.err is Some || idc == 3 || idc > 5 {
            (seen, c1)
        } else {
            let (v, c2) = c1.ue();
            if c2.err is Some {
                (seen, c2)
            } else {
                more_mods(c2, seen.push(modification(idc, v)))
            }
        }
    }
}

/// The modifications of one list: a flag, then the modifications if it is set.
pub open spec fn list_mods(c: Cursor) -> (Seq<RefPicListModification>, Cursor) {
    let (flag, c1) = c.bit();
    if flag {
        more_mods(c1, Seq::empty())
    } else {
        (Seq::empty(), c1)
    }
}

/// The modifications of a slice of this kind.
#[verifier::opaque]
pub open spec fn slice_mods(c: Cursor, kind: SliceKind) -> ((Mods, Mods), Cursor) {
    let (m0, c1): (Mods, Cursor) = if kind.uses_list0() {
        let (l, d) = list_mods(c);
        (Some(l), d)
    } else {
        (None, c)
    };
    let (m1, c2): (Mods, Cursor) = if kind is B {
        let (l, d) = list_mods(c1);
        (Some(l), d)
    } else {
        (None, c1)
    };
    ((m0, m1), c2)
}

/// Reading on after an error changes nothing.
pub broadcast proof fn lemma_mods_stick(c: Cursor, kind: SliceKind)
    requires
        c.err is Some,
    ensures
        (#[trigger] slice_mods(c, kind)).1 == c,
{
    reveal(slice_mods);
}

fn parse_one_list(reader: &mut BitReader<'_>) -> (r: Result<Vec<RefPicListModification>, ReadError>)
    ensures
        reads_view(r, final(reader)@, list_mods(old(reader)@)),
{
    let ghost whole = list_mods(reader@);
    let flag: bool = reader.read_bit()?;
    let mut mods: Vec<RefPicListModification> = Vec::new();
    if !flag {
        assert(mods@ =~= Seq::empty());
        return Ok(mods);
    }
    loop
        invariant
            whole == list_mods(old(reader)@),
            reader@.err is None,
            mods@.len() <= 65,
            more_mods(reader@, mods@) == whole,
        decreases 65 - mods@.len(),
    {
        if mods.len() > MAX_MODIFICATIONS_PER_LIST {
            return Err(ReadError::ExpGolombOverflow);
        }
        let idc: u32 = reader.read_ue()?;
        if idc == 3 || idc > 5 {
            return Ok(mods);
        }
        let v: u32 = reader.read_ue()?;
        let m = match idc {
            0 => RefPicListModification::PicNumSub { abs_diff_pic_num_minus1: v },
            1 => RefPicListModification::PicNumAdd { abs_diff_pic_num_minus1: v },
            2 => RefPicListModification::LongTerm { long_term_pic_num: v },
            4 => RefPicListModification::InterViewSub { abs_diff_view_idx_minus1: v },
            _ => RefPicListModification::InterViewAdd { abs_diff_view_idx_minus1: v },
        };
        mods.push(m);
    }
}

/// Parse the modifications of a slice of this kind.
pub fn parse_ref_pic_list_modification(reader: &mut BitReader<'_>, kind: SliceKind) -> (r: Result<
    RefPicListModifications,
    ReadError,
>)
    ensures
        reads_view(r, final(reader)@, slice_mods(old(reader)@, kind)),
{
    proof {
        reveal(slice_mods);
    }
    let _aligned: bool = reader.byte_aligned();
    let mut list0: Option<Vec<RefPicListModification>> = None;
    let mut list1: Option<Vec<RefPicListModification>> = None;
    if kind.has_list0() {
        list0 = Some(parse_one_list(reader)?);
    }
    if kind.has_list1() {
        list1 = Some(parse_one_list(reader)?);
    }
    Ok(RefPicListModifications { list0, list1 })
}

} // verus!
