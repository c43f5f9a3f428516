//! Resource addressing: URIs, masks selecting children at one level, and
//! multi-URIs pairing a base URI with a mask.

use vstd::prelude::*;
use crate::discrete::{U3, U4, U6};
use crate::nibble_buf::{NibbleBuf, VluScan, vlu4_scan, vlu4_val};
use crate::vlu4::{Vlu4U32Array, Vlu4U32ArrayIter, clone_u32s, vlu4_seq_parse};

verus! {

/// A resource path: a sequence of small nonnegative integers naming resource
/// levels, with packed fast forms for short paths.
pub enum Uri {
    /// One level of up to 16 children.
    OnePart4(U4),
    /// Two levels of up to 16 children each.
    TwoPart44(U4, U4),
    /// Three levels of up to 16 children each.
    ThreePart444(U4, U4, U4),
    /// Three levels: one of 64, then two of 8.
    FourPart633(U6, U3, U3),
    /// Any depth, vlu4-encoded.
    MultiPart(Vlu4U32Array),
}

impl Uri {
    /// The path levels in order.
    pub open spec fn parts(&self) -> Seq<u32> {
        match self {
            Uri::OnePart4(a) => seq![a.spec_value() as u32],
            Uri::TwoPart44(a, b) => seq![a.spec_value() as u32, b.spec_value() as u32],
            Uri::ThreePart444(a, b, c) => seq![
                a.spec_value() as u32,
                b.spec_value() as u32,
                c.spec_value() as u32,
            ],
            Uri::FourPart633(a, b, c) => seq![
                a.spec_value() as u32,
                b.spec_value() as u32,
                c.spec_value() as u32,
            ],
            Uri::MultiPart(arr) => arr.items(),
        }
    }

    pub open spec fn wf(&self) -> bool {
        match self {
            Uri::OnePart4(a) => a.wf(),
            Uri::TwoPart44(a, b) => a.wf() && b.wf(),
            Uri::ThreePart444(a, b, c) => a.wf() && b.wf() && c.wf(),
            Uri::FourPart633(a, b, c) => a.wf() && b.wf() && c.wf(),
            Uri::MultiPart(arr) => arr.wf(),
        }
    }

    /// The path levels as a vector.
    pub fn parts_vec(&self) -> (r: Vec<u32>)
        requires
            self.wf(),
        ensures
            r@ == self.parts(),
    {
        match self {
            Uri::OnePart4(a) => {
                let mut v: Vec<u32> = Vec::new();
                v.push(a.value() as u32);
                proof {
                    assert(v@ =~= self.parts());
                }
                v
            },
            Uri::TwoPart44(a, b) => {
                let mut v: Vec<u32> = Vec::new();
                v.push(a.value() as u32);
                v.push(b.value() as u32);
                proof {
                    assert(v@ =~= self.parts());
                }
                v
            },
            Uri::ThreePart444(a, b, c) => {
                let mut v: Vec<u32> = Vec::new();
                v.push(a.value() as u32);
                v.push(b.value() as u32);
                v.push(c.value() as u32);
                proof {
                    assert(v@ =~= self.parts());
                }
                v
            },
            Uri::FourPart633(a, b, c) => {
                let mut v: Vec<u32> = Vec::new();
                v.push(a.value() as u32);
                v.push(b.value() as u32);
                v.push(c.value() as u32);
                proof {
                    assert(v@ =~= self.parts());
                }
                v
            },
            Uri::MultiPart(arr) => arr.to_vec(),
        }
    }

    /// Iterate over the path levels.
    pub fn iter(&self) -> (r: UriIter)
        requires
            self.wf(),
        ensures
            r.remaining() == self.parts(),
    {
        UriIter { parts: self.parts_vec(), pos: 0 }
    }
}

/// Yields the levels of a [`Uri`] in order.
pub struct UriIter {
    parts: Vec<u32>,
    pos: usize,
}

impl UriIter {
    /// The levels not yet yielded.
    pub closed spec fn remaining(&self) -> Seq<u32> {
        if self.pos <= self.parts@.len() {
            self.parts@.skip(self.pos as int)
        } else {
            Seq::empty()
        }
    }

    /// Yield the next level, root first.
    pub fn next(&mut self) -> (r: Option<u32>)
        ensures
            old(self).remaining().len() > 0 ==> {
                &&& r == Some::<u32>(old(self).remaining()[0])
                &&& final(self).remaining() == old(self).remaining().skip(1)
            },
            old(self).remaining().len() == 0 ==> {
                &&& r is None
                &&& final(self).remaining() == old(self).remaining()
            },
    {
        if self.pos < self.parts.len() {
            let v = self.parts[self.pos];
            self.pos = self.pos + 1;
            proof {
                assert(self.remaining() =~= old(self).remaining().skip(1));
            }
            Some(v)
        } else {
            None
        }
    }
}

/// The child indices selected by the low `w` bits of a bitfield, scanning
/// positions `p..w`; index `i` is selected when bit `w - 1 - i` of `b` is
/// set, so the most significant bit selects child 0.
pub open spec fn bitfield_indices_from(b: u32, w: int, p: int) -> Seq<u32>
    decreases w - p,
    when 0 <= p <= w <= 32
{
    if p >= w {
        Seq::empty()
    } else {
        let rest = bitfield_indices_from(b, w, p + 1);
        if (b >> ((w - 1 - p) as u32)) & 1 == 1 {
            seq![p as u32] + rest
        } else {
            rest
        }
    }
}

/// The child indices a `w`-bit bitfield selects, in ascending order.
pub open spec fn bitfield_indices(b: u32, w: int) -> Seq<u32> {
    bitfield_indices_from(b, w, 0)
}

/// The number of set bits among the low `w` bits of `b`.
pub open spec fn popcount_low(b: u32, w: int) -> int
    decreases w,
    when 0 <= w <= 32
{
    if w <= 0 {
        0
    } else {
        (((b >> ((w - 1) as u32)) & 1) as int) + popcount_low(b, w - 1)
    }
}

/// A bitfield emits one index per set bit.
pub proof fn lemma_bitfield_indices_len(b: u32, w: int, p: int)
    requires
        0 <= p <= w <= 32,
    ensures
        bitfield_indices_from(b, w, p).len() == popcount_low(b, w - p),
    decreases w - p,
{
    if p < w {
        lemma_bitfield_indices_len(b, w, p + 1);
        let k = (w - 1 - p) as u32;
        assert((b >> k) & 1 == 0 || (b >> k) & 1 == 1) by (bit_vector);
    }
}

/// Every emitted index lies in `p..w`, and they come ascending.
pub proof fn lemma_bitfield_indices_sorted(b: u32, w: int, p: int)
    requires
        0 <= p <= w <= 32,
    ensures
        forall|j: int| 0 <= j < bitfield_indices_from(b, w, p).len() ==> p <= (
        #[trigger] bitfield_indices_from(b, w, p)[j]) < w,
        forall|j1: int, j2: int|
            0 <= j1 < j2 < bitfield_indices_from(b, w, p).len() ==> bitfield_indices_from(
                b,
                w,
                p,
            )[j1] < bitfield_indices_from(b, w, p)[j2],
    decreases w - p,
{
    if p < w {
        lemma_bitfield_indices_sorted(b, w, p + 1);
        let rest = bitfield_indices_from(b, w, p + 1);
        if (b >> ((w - 1 - p) as u32)) & 1 == 1 {
            let s = bitfield_indices_from(b, w, p);
            assert forall|j: int| 0 <= j < s.len() implies p <= #[trigger] s[j] < w by {
                if j > 0 {
                    assert(s[j] == rest[j - 1]);
                }
            }
            assert forall|j1: int, j2: int| 0 <= j1 < j2 < s.len() implies s[j1] < s[j2] by {
                if j1 > 0 {
                    assert(s[j1] == rest[j1 - 1] && s[j2] == rest[j2 - 1]);
                } else {
                    assert(s[j2] == rest[j2 - 1]);
                }
            }
        }
    }
}

/// Law: an index is emitted by a bitfield mask exactly when its bit is set.
/// For `ByBitfield8(b)` the emitted indices are `{ i : (b >> (7 - i)) & 1 == 1 }`,
/// in ascending order.
pub proof fn lemma_bitfield_indices_member(b: u32, w: int, p: int, x: u32)
    requires
        0 <= p <= w <= 32,
    ensures
        bitfield_indices_from(b, w, p).contains(x) <==> (p <= x < w && (b >> ((w - 1 - x)
            as u32)) & 1 == 1),
    decreases w - p,
{
    if p < w {
        lemma_bitfield_indices_member(b, w, p + 1, x);
        let rest = bitfield_indices_from(b, w, p + 1);
        let s = bitfield_indices_from(b, w, p);
        if (b >> ((w - 1 - p) as u32)) & 1 == 1 {
            assert forall|y: u32| rest.contains(y) implies s.contains(y) by {
                let j = choose|j: int| 0 <= j < rest.len() && rest[j] == y;
                assert(s[j + 1] == y);
            }
            if s.contains(x) {
                let j = choose|j: int| 0 <= j < s.len() && s[j] == x;
                if j > 0 {
                    assert(rest[j - 1] == x);
                }
            }
            assert(s[0] == p as u32);
        } else {
            assert(s == rest);
        }
    }
}

/// A mask that selects several child resources at one URI level.
pub enum UriMask {
    /// Bit `7 - i` selects child `i`: most significant bit first.
    ByBitfield8(u8),
    ByBitfield16(u16),
    ByBitfield32(u32),
    /// Explicit child indices in on-wire order.
    ByIndices(Vlu4U32Array),
    /// All children `0..count`.
    All(u32),
}

impl UriMask {
    /// The selected child indices, in emission order.
    pub open spec fn mask_indices(&self) -> Seq<u32> {
        match self {
            UriMask::ByBitfield8(b) => bitfield_indices(*b as u32, 8),
            UriMask::ByBitfield16(b) => bitfield_indices(*b as u32, 16),
            UriMask::ByBitfield32(b) => bitfield_indices(*b, 32),
            UriMask::ByIndices(arr) => arr.items(),
            UriMask::All(n) => Seq::new(*n as nat, |i: int| i as u32),
        }
    }

    /// How many children the mask selects: set bits for bitfields, the index
    /// count for index lists, `n` for `All(n)`.
    pub open spec fn mask_count(&self) -> int {
        match self {
            UriMask::ByBitfield8(b) => popcount_low(*b as u32, 8),
            UriMask::ByBitfield16(b) => popcount_low(*b as u32, 16),
            UriMask::ByBitfield32(b) => popcount_low(*b, 32),
            UriMask::ByIndices(arr) => arr.spec_len(),
            UriMask::All(n) => *n as int,
        }
    }

    pub open spec fn wf(&self) -> bool {
        match self {
            UriMask::ByIndices(arr) => arr.wf(),
            _ => true,
        }
    }

    /// Iterate over the selected indices.
    pub fn iter(&self) -> (r: UriMaskIter)
        requires
            self.wf(),
        ensures
            r.remaining() == self.mask_indices(),
    {
        match self {
            UriMask::ByBitfield8(b) => UriMaskIter::ByBitfield { mask: *b as u32, width: 8, pos: 0 },
            UriMask::ByBitfield16(b) => UriMaskIter::ByBitfield {
                mask: *b as u32,
                width: 16,
                pos: 0,
            },
            UriMask::ByBitfield32(b) => UriMaskIter::ByBitfield { mask: *b, width: 32, pos: 0 },
            UriMask::ByIndices(arr) => UriMaskIter::ByIndices { iter: arr.iter() },
            UriMask::All(n) => UriMaskIter::All { count: *n, pos: 0 },
        }
    }
}

/// The abstract value of a [`UriMask`], for specifications.
pub enum MaskView {
    Bits8(u8),
    Bits16(u16),
    Bits32(u32),
    Indices(Seq<u32>),
    All(u32),
}

/// The indices a mask value selects, in emission order.
pub open spec fn mask_view_indices(mv: MaskView) -> Seq<u32> {
    match mv {
        MaskView::Bits8(b) => bitfield_indices(b as u32, 8),
        MaskView::Bits16(b) => bitfield_indices(b as u32, 16),
        MaskView::Bits32(b) => bitfield_indices(b, 32),
        MaskView::Indices(ix) => ix,
        MaskView::All(n) => Seq::new(n as nat, |i: int| i as u32),
    }
}

/// How many indices a mask value selects: set bits for bitfields, the list
/// length for index lists, `n` for `All(n)`.
pub open spec fn mask_view_count(mv: MaskView) -> int {
    match mv {
        MaskView::Bits8(b) => popcount_low(b as u32, 8),
        MaskView::Bits16(b) => popcount_low(b as u32, 16),
        MaskView::Bits32(b) => popcount_low(b, 32),
        MaskView::Indices(ix) => ix.len() as int,
        MaskView::All(n) => n as int,
    }
}

/// A mask emits exactly as many indices as it counts.
pub proof fn lemma_mask_view_count(mv: MaskView)
    ensures
        mask_view_indices(mv).len() == mask_view_count(mv),
{
    match mv {
        MaskView::Bits8(b) => lemma_bitfield_indices_len(b as u32, 8, 0),
        MaskView::Bits16(b) => lemma_bitfield_indices_len(b as u32, 16, 0),
        MaskView::Bits32(b) => lemma_bitfield_indices_len(b, 32, 0),
        _ => (),
    }
}

/// The byte starting at nibble `p`.
pub open spec fn byte_at(nibs: Seq<u8>, p: int) -> u8 {
    (nibs[p] * 16 + nibs[p + 1]) as u8
}

/// Parse a mask at nibble `pos`: a kind nibble, then the mask body.  Kinds 3,
/// 4 and 7 (64- and 128-bit bitfields, reserved) are not supported.
pub open spec fn mask_parse(nibs: Seq<u8>, pos: int) -> Option<(MaskView, int)> {
    if pos < 0 || pos >= nibs.len() {
        None
    } else {
        let kind = nibs[pos];
        let p = pos + 1;
        if kind == 0 {
            if p + 2 <= nibs.len() {
                Some((MaskView::Bits8(byte_at(nibs, p)), p + 2))
            } else {
                None
            }
        } else if kind == 1 {
            if p + 4 <= nibs.len() {
                Some(
                    (
                        MaskView::Bits16(
                            (byte_at(nibs, p) as int * 256 + byte_at(nibs, p + 2) as int) as u16,
                        ),
                        p + 4,
                    ),
                )
            } else {
                None
            }
        } else if kind == 2 {
            if p + 8 <= nibs.len() {
                Some(
                    (
                        MaskView::Bits32(
                            (byte_at(nibs, p) as int * 0x1000000 + byte_at(nibs, p + 2) as int
                                * 0x10000 + byte_at(nibs, p + 4) as int * 0x100 + byte_at(
                                nibs,
                                p + 6,
                            ) as int) as u32,
                        ),
                        p + 8,
                    ),
                )
            } else {
                None
            }
        } else if kind == 5 {
            match vlu4_scan(nibs, p) {
                VluScan::Done(k) => {
                    let c = vlu4_val(nibs.subrange(p, p + k));
                    match vlu4_seq_parse(nibs, p + k, c as int) {
                        Some((items, end)) => Some((MaskView::Indices(items), end)),
                        None => None,
                    }
                },
                _ => None,
            }
        } else if kind == 6 {
            match vlu4_scan(nibs, p) {
                VluScan::Done(k) => Some(
                    (MaskView::All(vlu4_val(nibs.subrange(p, p + k))), p + k),
                ),
                _ => None,
            }
        } else {
            None
        }
    }
}

impl UriMask {
    /// The abstract value of this mask.
    pub open spec fn view(&self) -> MaskView {
        match self {
            UriMask::ByBitfield8(b) => MaskView::Bits8(*b),
            UriMask::ByBitfield16(b) => MaskView::Bits16(*b),
            UriMask::ByBitfield32(b) => MaskView::Bits32(*b),
            UriMask::ByIndices(arr) => MaskView::Indices(arr.items()),
            UriMask::All(n) => MaskView::All(*n),
        }
    }

    /// A copy of this mask.
    pub fn duplicate(&self) -> (r: UriMask)
        ensures
            r.view() == self.view(),
            r.wf() == self.wf(),
    {
        match self {
            UriMask::ByBitfield8(b) => UriMask::ByBitfield8(*b),
            UriMask::ByBitfield16(b) => UriMask::ByBitfield16(*b),
            UriMask::ByBitfield32(b) => UriMask::ByBitfield32(*b),
            UriMask::ByIndices(arr) => UriMask::ByIndices(arr.duplicate()),
            UriMask::All(n) => UriMask::All(*n),
        }
    }

    /// Read one mask from `rdr`.  `Some` exactly when `mask_parse` succeeds
    /// on the stream; otherwise the returned reader is in its past-end state.
    pub fn new(rdr: NibbleBuf) -> (r: (Option<UriMask>, NibbleBuf))
        requires
            rdr.wf(),
        ensures
            r.1.wf(),
            r.1.data() == rdr.data(),
            rdr.past_end() ==> r.0 is None && r.1.past_end(),
            !rdr.past_end() ==> match mask_parse(rdr.nibbles(), rdr.pos()) {
                Some((mv, end)) => {
                    &&& (r.0 matches Some(m) && m.view() == mv && m.wf())
                    &&& r.1.pos() == end
                    &&& !r.1.past_end()
                },
                None => r.0 is None && r.1.past_end(),
            },
    {
        let mut rdr = rdr;
        let kind = match rdr.get_nibble() {
            Ok(k) => k,
            Err(_) => {
                return (None, rdr);
            },
        };
        if kind == 0 {
            match rdr.get_u8() {
                Ok(b) => (Some(UriMask::ByBitfield8(b)), rdr),
                Err(_) => (None, rdr),
            }
        } else if kind == 1 {
            let b0 = match rdr.get_u8() {
                Ok(b) => b,
                Err(_) => {
                    return (None, rdr);
                },
            };
            let b1 = match rdr.get_u8() {
                Ok(b) => b,
                Err(_) => {
                    return (None, rdr);
                },
            };
            (Some(UriMask::ByBitfield16((b0 as u16) * 256 + (b1 as u16))), rdr)
        } else if kind == 2 {
            let b0 = match rdr.get_u8() {
                Ok(b) => b,
                Err(_) => {
                    return (None, rdr);
                },
            };
            let b1 = match rdr.get_u8() {
                Ok(b) => b,
                Err(_) => {
                    return (None, rdr);
                },
            };
            let b2 = match rdr.get_u8() {
                Ok(b) => b,
                Err(_) => {
                    return (None, rdr);
                },
            };
            let b3 = match rdr.get_u8() {
                Ok(b) => b,
                Err(_) => {
                    return (None, rdr);
                },
            };
            (
                Some(
                    UriMask::ByBitfield32(
                        (b0 as u32) * 0x1000000 + (b1 as u32) * 0x10000 + (b2 as u32) * 0x100 + (
                        b3 as u32),
                    ),
                ),
                rdr,
            )
        } else if kind == 5 {
            let arr = Vlu4U32Array::new(rdr);
            let rest = arr.lookahead();
            if arr.is_past_end() {
                (None, rest)
            } else {
                (Some(UriMask::ByIndices(arr)), rest)
            }
        } else if kind == 6 {
            match rdr.get_vlu4_u32() {
                Ok(n) => (Some(UriMask::All(n)), rdr),
                Err(_) => (None, rdr),
            }
        } else {
            // reserved or unsupported mask kind
            rdr.fuse();
            (None, rdr)
        }
    }
}

/// Yields the indices a [`UriMask`] selects, in order.
pub enum UriMaskIter {
    ByBitfield { mask: u32, width: u32, pos: u32 },
    ByIndices { iter: Vlu4U32ArrayIter },
    All { count: u32, pos: u32 },
}

impl UriMaskIter {
    /// The indices not yet yielded.
    pub open spec fn remaining(&self) -> Seq<u32> {
        match self {
            UriMaskIter::ByBitfield { mask, width, pos } => if *pos <= *width && *width <= 32 {
                bitfield_indices_from(*mask, *width as int, *pos as int)
            } else {
                Seq::empty()
            },
            UriMaskIter::ByIndices { iter } => iter.remaining(),
            UriMaskIter::All { count, pos } => if *pos <= *count {
                Seq::new((*count - *pos) as nat, |i: int| (*pos + i) as u32)
            } else {
                Seq::empty()
            },
        }
    }

    /// Yield the next selected index.
    pub fn next(&mut self) -> (r: Option<u32>)
        ensures
            old(self).remaining().len() > 0 ==> {
                &&& r == Some::<u32>(old(self).remaining()[0])
                &&& final(self).remaining() == old(self).remaining().skip(1)
            },
            old(self).remaining().len() == 0 ==> {
                &&& r is None
                &&& final(self).remaining() == old(self).remaining()
            },
    {
        match self {
            UriMaskIter::ByBitfield { mask, width, pos } => {
                let m: u32 = *mask;
                let w: u32 = *width;
                let p0: u32 = *pos;
                if p0 > w || w > 32 {
                    return None;
                }
                let ghost r0 = bitfield_indices_from(m, w as int, p0 as int);
                let mut p: u32 = p0;
                while p < w && (m >> (w - 1 - p)) & 1 != 1
                    invariant
                        p0 <= p <= w,
                        w <= 32,
                        bitfield_indices_from(m, w as int, p as int) == r0,
                    decreases w - p,
                {
                    p = p + 1;
                }
                if p < w {
                    *pos = p + 1;
                    proof {
                        let s = bitfield_indices_from(m, w as int, p as int);
                        assert(s[0] == p);
                        assert(s.skip(1) =~= bitfield_indices_from(m, w as int, p + 1));
                    }
                    Some(p)
                } else {
                    *pos = p;
                    None
                }
            },
            UriMaskIter::ByIndices { iter } => iter.next(),
            UriMaskIter::All { count, pos } => {
                if *pos < *count {
                    let p: u32 = *pos;
                    *pos = p + 1;
                    proof {
                        assert(old(self).remaining().skip(1) =~= self.remaining());
                    }
                    Some(p)
                } else {
                    None
                }
            },
        }
    }
}


/// Parse `n` (URI, mask) pairs at nibble `pos`: each pair is a vlu4 array of
/// path levels followed by a mask.
pub open spec fn multi_uri_pairs_parse(nibs: Seq<u8>, pos: int, n: int) -> Option<
    (Seq<(Seq<u32>, MaskView)>, int),
>
    decreases n,
    when n >= 0
{
    if n <= 0 {
        Some((Seq::empty(), pos))
    } else {
        match vlu4_scan(nibs, pos) {
            VluScan::Done(k) => {
                let c = vlu4_val(nibs.subrange(pos, pos + k));
                match vlu4_seq_parse(nibs, pos + k, c as int) {
                    Some((parts, p2)) => match mask_parse(nibs, p2) {
                        Some((mv, p3)) => match multi_uri_pairs_parse(nibs, p3, n - 1) {
                            Some((rest, end)) => Some((seq![(parts, mv)] + rest, end)),
                            None => None,
                        },
                        None => None,
                    },
                    None => None,
                }
            },
            _ => None,
        }
    }
}

/// Parse a multi-URI at nibble `pos`: a vlu4 pair count, then that many
/// (URI, mask) pairs.
pub open spec fn multi_uri_parse(nibs: Seq<u8>, pos: int) -> Option<
    (Seq<(Seq<u32>, MaskView)>, int),
> {
    match vlu4_scan(nibs, pos) {
        VluScan::Done(k) => multi_uri_pairs_parse(
            nibs,
            pos + k,
            vlu4_val(nibs.subrange(pos, pos + k)) as int,
        ),
        _ => None,
    }
}

/// Whatever a pair-list parse yields is well sized: every count came from a
/// 32-bit prefix.
pub proof fn lemma_mu_pairs_parse_lens(nibs: Seq<u8>, pos: int, n: int)
    requires
        n >= 0,
        multi_uri_pairs_parse(nibs, pos, n) is Some,
    ensures
        ({
            let pv = multi_uri_pairs_parse(nibs, pos, n)->Some_0.0;
            &&& pv.len() == n
            &&& forall|i: int|
                0 <= i < pv.len() ==> (#[trigger] pv[i]).0.len() < 0x1_0000_0000 && (pv[i].1
                    matches MaskView::Indices(ix) ==> ix.len() < 0x1_0000_0000)
        }),
    decreases n,
{
    if n > 0 {
        if let VluScan::Done(k) = vlu4_scan(nibs, pos) {
            let c = vlu4_val(nibs.subrange(pos, pos + k));
            if let Some((parts, p2)) = vlu4_seq_parse(nibs, pos + k, c as int) {
                crate::vlu4::lemma_vlu4_seq_parse_len(nibs, pos + k, c as int);
                if let Some((mv, p3)) = mask_parse(nibs, p2) {
                    lemma_mu_pairs_parse_lens(nibs, p3, n - 1);
                    let pv = multi_uri_pairs_parse(nibs, pos, n)->Some_0.0;
                    let rest = multi_uri_pairs_parse(nibs, p3, n - 1)->Some_0.0;
                    if mv matches MaskView::Indices(ix) {
                        let p1 = p2 + 1;
                        if let VluScan::Done(k2) = vlu4_scan(nibs, p1) {
                            let c2 = vlu4_val(nibs.subrange(p1, p1 + k2));
                            crate::vlu4::lemma_vlu4_seq_parse_len(nibs, p1 + k2, c2 as int);
                        }
                    }
                    assert forall|i: int| 0 <= i < pv.len() implies (#[trigger] pv[i]).0.len()
                        < 0x1_0000_0000 && (pv[i].1 matches MaskView::Indices(ix) ==> ix.len()
                        < 0x1_0000_0000) by {
                        if i > 0 {
                            assert(pv[i] == rest[i - 1]);
                        } else {
                            assert(pv[0] == (parts, mv));
                        }
                    }
                }
            }
        }
    }
}

/// Whatever a whole multi-URI parse yields is well sized.
pub proof fn lemma_multi_uri_parse_lens(nibs: Seq<u8>, pos: int)
    requires
        multi_uri_parse(nibs, pos) is Some,
    ensures
        ({
            let pv = multi_uri_parse(nibs, pos)->Some_0.0;
            &&& pv.len() < 0x1_0000_0000
            &&& forall|i: int|
                0 <= i < pv.len() ==> (#[trigger] pv[i]).0.len() < 0x1_0000_0000 && (pv[i].1
                    matches MaskView::Indices(ix) ==> ix.len() < 0x1_0000_0000)
        }),
{
    if let VluScan::Done(k) = vlu4_scan(nibs, pos) {
        let c = vlu4_val(nibs.subrange(pos, pos + k));
        lemma_mu_pairs_parse_lens(nibs, pos + k, c as int);
    }
}

impl Uri {
    /// A copy of this URI, in the same packed form.
    pub fn duplicate(&self) -> (r: Uri)
        ensures
            r.parts() == self.parts(),
            r.wf() == self.wf(),
            match self {
                Uri::OnePart4(a) => r == Uri::OnePart4(*a),
                Uri::TwoPart44(a, b) => r == Uri::TwoPart44(*a, *b),
                Uri::ThreePart444(a, b, c) => r == Uri::ThreePart444(*a, *b, *c),
                Uri::FourPart633(a, b, c) => r == Uri::FourPart633(*a, *b, *c),
                Uri::MultiPart(arr) => (r matches Uri::MultiPart(a2) && a2.items() == arr.items()
                    && a2.spec_len() == arr.spec_len() && a2.spec_past_end()
                    == arr.spec_past_end()),
            },
    {
        match self {
            Uri::OnePart4(a) => Uri::OnePart4(*a),
            Uri::TwoPart44(a, b) => Uri::TwoPart44(*a, *b),
            Uri::ThreePart444(a, b, c) => Uri::ThreePart444(*a, *b, *c),
            Uri::FourPart633(a, b, c) => Uri::FourPart633(*a, *b, *c),
            Uri::MultiPart(arr) => Uri::MultiPart(arr.duplicate()),
        }
    }
}

/// The concrete URIs one (base, mask) pair resolves to: the base path with
/// each selected child index appended.
pub open spec fn pair_flat(parts: Seq<u32>, mv: MaskView) -> Seq<Seq<u32>> {
    mask_view_indices(mv).map_values(|i: u32| parts.push(i))
}

/// The concrete URIs a whole pair list resolves to, depth first, in pair
/// order.
pub open spec fn multi_flat(pv: Seq<(Seq<u32>, MaskView)>) -> Seq<Seq<u32>>
    decreases pv.len(),
{
    if pv.len() == 0 {
        Seq::empty()
    } else {
        pair_flat(pv[0].0, pv[0].1) + multi_flat(pv.skip(1))
    }
}

/// The total count the masks of a pair list select.
pub open spec fn mask_count_sum(pv: Seq<(Seq<u32>, MaskView)>) -> int
    decreases pv.len(),
{
    if pv.len() == 0 {
        0
    } else {
        mask_view_count(pv[0].1) + mask_count_sum(pv.skip(1))
    }
}

/// Law: flattening a multi-URI yields exactly the sum of its masks' counts —
/// set bits for bitfield masks, the index count for index lists, and `n` for
/// `All(n)`.
pub proof fn lemma_multi_flat_count(pv: Seq<(Seq<u32>, MaskView)>)
    ensures
        multi_flat(pv).len() == mask_count_sum(pv),
    decreases pv.len(),
{
    if pv.len() > 0 {
        lemma_mask_view_count(pv[0].1);
        lemma_multi_flat_count(pv.skip(1));
    }
}

/// Flattening splits at any pair boundary.
pub proof fn lemma_multi_flat_split(pv: Seq<(Seq<u32>, MaskView)>, i: int)
    requires
        0 <= i <= pv.len(),
    ensures
        multi_flat(pv) == multi_flat(pv.take(i)) + multi_flat(pv.skip(i)),
    decreases i,
{
    if i == 0 {
        assert(pv.skip(0) =~= pv);
        assert(multi_flat(pv.take(0)) + multi_flat(pv) =~= multi_flat(pv));
    } else {
        let t = pv.skip(1);
        lemma_multi_flat_split(t, i - 1);
        assert(pv.take(i).skip(1) =~= t.take(i - 1));
        assert(pv.skip(i) =~= t.skip(i - 1));
        assert(pv.take(i)[0] == pv[0]);
        assert(multi_flat(pv.take(i)) == pair_flat(pv[0].0, pv[0].1) + multi_flat(t.take(i - 1)));
        assert((pair_flat(pv[0].0, pv[0].1) + (multi_flat(t.take(i - 1)) + multi_flat(t.skip(i
            - 1)))) =~= ((pair_flat(pv[0].0, pv[0].1) + multi_flat(t.take(i - 1))) + multi_flat(
        t.skip(i - 1))));
    }
}

/// The views of a sequence of path vectors.
pub open spec fn uri_views(v: Seq<Vec<u32>>) -> Seq<Seq<u32>> {
    v.map_values(|x: Vec<u32>| x@)
}

/// Any combination of resources: a list of (URI, mask) pairs, resolved depth
/// first in pair order.
pub struct MultiUri {
    pairs: Vec<(Uri, UriMask)>,
    declared_len: usize,
    past_end: bool,
    rest: NibbleBuf,
}

impl MultiUri {
    /// The (path, mask) pairs, as abstract values.
    pub closed spec fn pairs_view(&self) -> Seq<(Seq<u32>, MaskView)> {
        self.pairs@.map_values(|p: (Uri, UriMask)| (p.0.parts(), p.1.view()))
    }

    /// The pair count the length prefix declared.
    pub closed spec fn spec_len(&self) -> int {
        self.declared_len as int
    }

    /// Whether parsing ran past the end of the input.
    pub closed spec fn spec_past_end(&self) -> bool {
        self.past_end
    }

    /// Nibble position just past the multi-URI.
    pub closed spec fn rest_pos(&self) -> int {
        self.rest.pos()
    }

    /// The bytes the multi-URI was parsed from.
    pub closed spec fn rest_data(&self) -> Seq<u8> {
        self.rest.data()
    }

    /// The stored continuation reader is well formed.
    pub closed spec fn rest_wf(&self) -> bool {
        self.rest.wf()
    }

    /// Whether the continuation reader already ran past the end.
    pub closed spec fn rest_past_end(&self) -> bool {
        self.rest.past_end()
    }

    /// A reader standing just past this multi-URI, to continue from.
    pub fn rest_reader(&self) -> (r: NibbleBuf)
        requires
            self.rest_wf(),
        ensures
            r.wf(),
            r.data() == self.rest_data(),
            r.pos() == self.rest_pos(),
            r.past_end() == self.rest_past_end(),
    {
        self.rest.fork()
    }

    /// A well-formed multi-URI parsed as many pairs as it declared.
    pub closed spec fn wf(&self) -> bool {
        &&& !self.past_end
        &&& self.pairs@.len() == self.declared_len
        &&& forall|i: int|
            0 <= i < self.pairs@.len() ==> (#[trigger] self.pairs@[i]).0.wf() && self.pairs@[i].1.wf()
    }

    /// Read a pair count and that many (URI, mask) pairs from `rdr`.  `wf`
    /// exactly when the spec parse of the stream succeeds; otherwise the
    /// multi-URI is marked past-end.
    #[verifier::rlimit(100)]
    #[verifier::loop_isolation(false)]
    pub fn new(rdr: NibbleBuf) -> (r: Self)
        requires
            rdr.wf(),
        ensures
            rdr.past_end() ==> r.spec_past_end() && !r.wf(),
            !rdr.past_end() ==> match multi_uri_parse(rdr.nibbles(), rdr.pos()) {
                Some((pv, end)) => {
                    &&& r.wf()
                    &&& !r.spec_past_end()
                    &&& r.pairs_view() == pv
                    &&& r.spec_len() == pv.len()
                    &&& r.rest_pos() == end
                    &&& r.rest_data() == rdr.data()
                    &&& r.rest_wf()
                    &&& !r.rest_past_end()
                },
                None => r.spec_past_end() && !r.wf(),
            },
    {
        let ghost orig = rdr;
        let mut rdr = rdr;
        let ghost data0 = orig.data();
        let ghost nibs = orig.nibbles();
        let count32 = match rdr.get_vlu4_u32() {
            Ok(c) => c,
            Err(_) => {
                return MultiUri { pairs: Vec::new(), declared_len: 0, past_end: true, rest: rdr };
            },
        };
        let count = count32 as usize;
        let ghost pairs_start = rdr.pos();
        let mut pairs: Vec<(Uri, UriMask)> = Vec::new();
        let mut i: usize = 0;
        while i < count
            invariant
                rdr.wf(),
                rdr.data() == data0,
                !rdr.past_end(),
                i <= count,
                pairs@.len() == i,
                forall|j: int|
                    0 <= j < pairs@.len() ==> (#[trigger] pairs@[j]).0.wf() && pairs@[j].1.wf(),
                multi_uri_pairs_parse(nibs, pairs_start, count as int) == match multi_uri_pairs_parse(
                    nibs,
                    rdr.pos(),
                    count - i,
                ) {
                    Some((s, end)) => Some(
                        (pairs@.map_values(|p: (Uri, UriMask)| (p.0.parts(), p.1.view())) + s, end),
                    ),
                    None => None::<(Seq<(Seq<u32>, MaskView)>, int)>,
                },
            decreases count - i,
        {
            let ghost view_pre = pairs@.map_values(|p: (Uri, UriMask)| (p.0.parts(), p.1.view()));
            let arr = Vlu4U32Array::new(rdr);
            let rdr2 = arr.lookahead();
            if arr.is_past_end() {
                return MultiUri { pairs, declared_len: count, past_end: true, rest: rdr2 };
            }
            let (mask_opt, rdr3) = UriMask::new(rdr2);
            match mask_opt {
                Some(m) => {
                    pairs.push((Uri::MultiPart(arr), m));
                    rdr = rdr3;
                    i = i + 1;
                    proof {
                        let view_new = pairs@.map_values(
                            |p: (Uri, UriMask)| (p.0.parts(), p.1.view()),
                        );
                        assert(view_new =~= view_pre.push(
                            (pairs@.last().0.parts(), pairs@.last().1.view()),
                        ));
                        if let Some((s, end)) = multi_uri_pairs_parse(nibs, rdr.pos(), count - i) {
                            assert((view_pre + (seq![view_new.last()] + s)) =~= (view_new + s));
                        }
                    }
                },
                None => {
                    return MultiUri { pairs, declared_len: count, past_end: true, rest: rdr3 };
                },
            }
        }
        proof {
            let view_new = pairs@.map_values(|p: (Uri, UriMask)| (p.0.parts(), p.1.view()));
            assert((view_new + Seq::<(Seq<u32>, MaskView)>::empty()) =~= view_new);
        }
        MultiUri { pairs: pairs, declared_len: count, past_end: false, rest: rdr }
    }

    /// The amount of (URI, mask) pairs.
    pub fn len(&self) -> (r: usize)
        ensures
            r == self.spec_len(),
            self.wf() ==> r == self.pairs_view().len(),
    {
        self.declared_len
    }

    /// Whether parsing ran past the end of the input.
    pub fn is_past_end(&self) -> (r: bool)
        ensures
            r == self.spec_past_end(),
    {
        self.past_end
    }

    /// Iterate over the (URI, mask) pairs.
    pub fn iter(&self) -> (r: MultiUriIter)
        requires
            self.wf(),
        ensures
            r.remaining() == self.pairs_view(),
            r.wf(),
            !r.iter_past_end(),
    {
        let mut copy: Vec<(Uri, UriMask)> = Vec::new();
        let mut i: usize = 0;
        while i < self.pairs.len()
            invariant
                self.wf(),
                i <= self.pairs@.len(),
                copy@.len() == i,
                copy@.map_values(|p: (Uri, UriMask)| (p.0.parts(), p.1.view())) == self.pairs_view().take(i as int),
                forall|j: int|
                    0 <= j < copy@.len() ==> (#[trigger] copy@[j]).0.wf() && copy@[j].1.wf(),
            decreases self.pairs@.len() - i,
        {
            let (u, m) = (self.pairs[i].0.duplicate(), self.pairs[i].1.duplicate());
            copy.push((u, m));
            i = i + 1;
            proof {
                assert(copy@.map_values(|p: (Uri, UriMask)| (p.0.parts(), p.1.view()))
                    =~= self.pairs_view().take(i as int));
            }
        }
        proof {
            assert(copy@.map_values(|p: (Uri, UriMask)| (p.0.parts(), p.1.view()))
                =~= self.pairs_view());
        }
        MultiUriIter { pairs: copy, pos: 0, past_end: false }
    }

    /// A copy of this multi-URI.
    pub fn duplicate(&self) -> (r: Self)
        ensures
            r.pairs_view() == self.pairs_view(),
            r.spec_len() == self.spec_len(),
            r.spec_past_end() == self.spec_past_end(),
            self.wf() ==> r.wf(),
    {
        let mut copy: Vec<(Uri, UriMask)> = Vec::new();
        let mut i: usize = 0;
        while i < self.pairs.len()
            invariant
                i <= self.pairs@.len(),
                copy@.len() == i,
                copy@.map_values(|p: (Uri, UriMask)| (p.0.parts(), p.1.view())) == self.pairs_view().take(i as int),
                forall|j: int|
                    0 <= j < i ==> ((#[trigger] copy@[j]).0.wf() == self.pairs@[j].0.wf()
                        && copy@[j].1.wf() == self.pairs@[j].1.wf()),
            decreases self.pairs@.len() - i,
        {
            let (u, m) = (self.pairs[i].0.duplicate(), self.pairs[i].1.duplicate());
            copy.push((u, m));
            i = i + 1;
            proof {
                assert(copy@.map_values(|p: (Uri, UriMask)| (p.0.parts(), p.1.view()))
                    =~= self.pairs_view().take(i as int));
            }
        }
        proof {
            assert(copy@.map_values(|p: (Uri, UriMask)| (p.0.parts(), p.1.view()))
                =~= self.pairs_view());
        }
        MultiUri {
            pairs: copy,
            declared_len: self.declared_len,
            past_end: self.past_end,
            rest: self.rest.fork(),
        }
    }

    /// Resolve up to `max` concrete URIs, depth first.  The second component
    /// tells whether more than `max` were selected (the rest are not
    /// resolved).
    #[verifier::loop_isolation(false)]
    pub fn flat_uris(&self, max: usize) -> (r: (Vec<Vec<u32>>, bool))
        requires
            self.wf(),
        ensures
            !r.1 ==> uri_views(r.0@) == multi_flat(self.pairs_view()),
            r.1 ==> uri_views(r.0@) == multi_flat(self.pairs_view()).take(max as int),
            r.1 <==> multi_flat(self.pairs_view()).len() > max,
    {
        let ghost pv = self.pairs_view();
        let mut out: Vec<Vec<u32>> = Vec::new();
        let mut i: usize = 0;
        while i < self.pairs.len()
            invariant
                self.wf(),
                i <= self.pairs@.len(),
                out@.len() <= max,
                uri_views(out@) == multi_flat(pv.take(i as int)),
                pv == self.pairs_view(),
            decreases self.pairs@.len() - i,
        {
            let ghost mv = pv[i as int].1;
            let ghost base = pv[i as int].0;
            let parts = self.pairs[i].0.parts_vec();
            let mut mit = self.pairs[i].1.iter();
            proof {
                lemma_multi_flat_split(pv, i as int);
                assert(pv.skip(i as int)[0] == pv[i as int]);
                assert(pv.skip(i as int).skip(1) =~= pv.skip(i + 1));
                assert(multi_flat(pv.skip(i as int)) == pair_flat(base, mv) + multi_flat(
                    pv.skip(i + 1)));
                lemma_multi_flat_split(pv.take(i + 1), i as int);
                assert(pv.take(i + 1).take(i as int) =~= pv.take(i as int));
                assert(pv.take(i + 1).skip(i as int) =~= seq![pv[i as int]]);
                let single = seq![pv[i as int]];
                assert(single.skip(1) =~= Seq::<(Seq<u32>, MaskView)>::empty());
                assert(single[0] == pv[i as int]);
                assert(multi_flat(single) == pair_flat(base, mv) + multi_flat(single.skip(1)));
                assert(pair_flat(base, mv) + Seq::<Seq<u32>>::empty() =~= pair_flat(base, mv));
                assert(multi_flat(pv.take(i + 1)) == multi_flat(pv.take(i as int)) + pair_flat(
                    base, mv));
            }
            let ghost emitted: int = 0;
            let mut emitted_x: Ghost<int> = Ghost(0);
            loop
                invariant
                    self.wf(),
                    pv == self.pairs_view(),
                    i < self.pairs@.len(),
                    parts@ == base,
                    0 <= emitted_x@ <= pair_flat(base, mv).len(),
                    mit.remaining() == mask_view_indices(mv).skip(emitted_x@),
                    out@.len() <= max,
                    uri_views(out@) == multi_flat(pv.take(i as int)) + pair_flat(base, mv).take(
                        emitted_x@),
                    multi_flat(pv.take(i + 1)) == multi_flat(pv.take(i as int)) + pair_flat(
                        base, mv),
                decreases mit.remaining().len(),
            {
                let ghost rem_pre = mit.remaining();
                match mit.next() {
                    Some(idx) => {
                        if out.len() == max {
                            // over the cap: everything resolved so far is a
                            // strict prefix of the full flattening
                            proof {
                                lemma_multi_flat_split(pv, i + 1);
                                assert(pair_flat(base, mv)[emitted_x@] == base.push(idx));
                                assert(multi_flat(pv).len() >= multi_flat(pv.take(i + 1)).len());
                                assert(uri_views(out@) =~= multi_flat(pv).take(max as int));
                            }
                            return (out, true);
                        }
                        let ghost out_pre = out@;
                        let mut u = clone_u32s(&parts);
                        u.push(idx);
                        let ghost uv = u@;
                        out.push(u);
                        proof {
                            emitted_x@ = emitted_x@ + 1;
                            assert(mit.remaining() =~= mask_view_indices(mv).skip(emitted_x@));
                            assert(uv == base.push(idx));
                            assert(pair_flat(base, mv)[emitted_x@ - 1] == base.push(idx));
                            let a = uri_views(out@);
                            let b = multi_flat(pv.take(i as int)) + pair_flat(base, mv).take(
                                emitted_x@);
                            assert(pair_flat(base, mv).take(emitted_x@) =~= pair_flat(
                                base, mv).take(emitted_x@ - 1).push(base.push(idx)));
                            assert forall|j: int| 0 <= j < a.len() implies a[j] == b[j] by {
                                if j < a.len() - 1 {
                                    assert(out@[j] == out_pre[j]);
                                    assert(uri_views(out_pre)[j] == out_pre[j]@);
                                } else {
                                    assert(out@[j] == u);
                                }
                            }
                            assert(a =~= b);
                        }
                    },
                    None => {
                        proof {
                            assert(pair_flat(base, mv).take(emitted_x@) =~= pair_flat(base, mv));
                        }
                        break;
                    },
                }
            }
            i = i + 1;
        }
        proof {
            assert(pv.take(self.pairs@.len() as int) =~= pv);
        }
        (out, false)
    }
}

/// Yields the (URI, mask) pairs of a [`MultiUri`] in order.
pub struct MultiUriIter {
    pairs: Vec<(Uri, UriMask)>,
    pos: usize,
    past_end: bool,
}

impl MultiUriIter {
    /// The pairs not yet yielded, as abstract values.
    pub closed spec fn remaining(&self) -> Seq<(Seq<u32>, MaskView)> {
        if self.pos <= self.pairs@.len() {
            self.pairs@.map_values(|p: (Uri, UriMask)| (p.0.parts(), p.1.view())).skip(
                self.pos as int,
            )
        } else {
            Seq::empty()
        }
    }

    /// All stored pairs are well formed.
    pub closed spec fn wf(&self) -> bool {
        forall|j: int|
            0 <= j < self.pairs@.len() ==> (#[trigger] self.pairs@[j]).0.wf() && self.pairs@[j].1.wf()
    }

    /// Whether the source multi-URI had run past the end.
    pub closed spec fn iter_past_end(&self) -> bool {
        self.past_end
    }

    pub fn is_past_end(&self) -> (r: bool)
        ensures
            r == self.iter_past_end(),
    {
        self.past_end
    }

    /// Yield the next (URI, mask) pair.
    pub fn next(&mut self) -> (r: Option<(Uri, UriMask)>)
        ensures
            final(self).wf() == old(self).wf(),
            final(self).iter_past_end() == old(self).iter_past_end(),
            old(self).remaining().len() > 0 ==> {
                &&& (r matches Some(p) && (p.0.parts(), p.1.view()) == old(self).remaining()[0])
                &&& (old(self).wf() ==> (r matches Some(p) && p.0.wf() && p.1.wf()))
                &&& final(self).remaining() == old(self).remaining().skip(1)
            },
            old(self).remaining().len() == 0 ==> {
                &&& r is None
                &&& final(self).remaining() == old(self).remaining()
            },
    {
        if self.pos < self.pairs.len() {
            let (u, m) = (self.pairs[self.pos].0.duplicate(), self.pairs[self.pos].1.duplicate());
            self.pos = self.pos + 1;
            proof {
                let all = self.pairs@.map_values(|p: (Uri, UriMask)| (p.0.parts(), p.1.view()));
                assert(self.remaining() =~= old(self).remaining().skip(1));
                assert(old(self).remaining()[0] == all[old(self).pos as int]);
            }
            Some((u, m))
        } else {
            None
        }
    }
}

} // verus!
