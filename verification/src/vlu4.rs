//! Length-prefixed sequences in vlu4 form: arrays of numbers and arrays of
//! byte slices.

use vstd::prelude::*;
use crate::nibble_buf::{
    Error, NibbleBuf, NibbleBufMut, VluScan, nibbles_of, vlu4_scan, vlu4_val,
};

verus! {

/// Deep copy of a byte vector.
pub fn clone_bytes(v: &Vec<u8>) -> (r: Vec<u8>)
    ensures
        r@ == v@,
{
    let mut out: Vec<u8> = Vec::new();
    let mut i: usize = 0;
    while i < v.len()
        invariant
            i <= v@.len(),
            out@ == v@.take(i as int),
        decreases v@.len() - i,
    {
        out.push(v[i]);
        i = i + 1;
        proof {
            assert(out@ =~= v@.take(i as int));
        }
    }
    proof {
        assert(out@ =~= v@);
    }
    out
}

/// Deep copy of a number vector.
pub fn clone_u32s(v: &Vec<u32>) -> (r: Vec<u32>)
    ensures
        r@ == v@,
{
    let mut out: Vec<u32> = Vec::new();
    let mut i: usize = 0;
    while i < v.len()
        invariant
            i <= v@.len(),
            out@ == v@.take(i as int),
        decreases v@.len() - i,
    {
        out.push(v[i]);
        i = i + 1;
        proof {
            assert(out@ =~= v@.take(i as int));
        }
    }
    proof {
        assert(out@ =~= v@);
    }
    out
}

/// The views of a sequence of byte vectors.
pub open spec fn slice_views(v: Seq<Vec<u8>>) -> Seq<Seq<u8>> {
    v.map_values(|x: Vec<u8>| x@)
}

/// Parse `n` consecutive vlu4 numbers starting at nibble `pos`; `Some` holds
/// the values and the nibble position after the last one.
pub open spec fn vlu4_seq_parse(nibs: Seq<u8>, pos: int, n: int) -> Option<(Seq<u32>, int)>
    decreases n,
    when n >= 0
{
    if n <= 0 {
        Some((Seq::empty(), pos))
    } else {
        match vlu4_scan(nibs, pos) {
            VluScan::Done(k) => {
                let v = vlu4_val(nibs.subrange(pos, pos + k));
                match vlu4_seq_parse(nibs, pos + k, n - 1) {
                    Some((s, end)) => Some((seq![v] + s, end)),
                    None => None,
                }
            },
            _ => None,
        }
    }
}

/// A successful sequence parse yields exactly `n` values.
pub proof fn lemma_vlu4_seq_parse_len(nibs: Seq<u8>, pos: int, n: int)
    requires
        n >= 0,
        vlu4_seq_parse(nibs, pos, n) is Some,
    ensures
        vlu4_seq_parse(nibs, pos, n)->Some_0.0.len() == n,
    decreases n,
{
    if n > 0 {
        if let VluScan::Done(k) = vlu4_scan(nibs, pos) {
            lemma_vlu4_seq_parse_len(nibs, pos + k, n - 1);
        }
    }
}

/// Serialization to a nibble stream.  `ser_vlu4` appends exactly
/// `ser_vlu4_spec` when it fits; otherwise the writer's past-end flag is set.
pub trait SerializeVlu4 {
    /// The nibbles this value serializes to.
    spec fn ser_vlu4_spec(&self) -> Seq<u8>;

    fn ser_vlu4(&self, wgr: &mut NibbleBufMut)
        requires
            old(wgr).wf(),
        ensures
            final(wgr).wf(),
            final(wgr).cap() == old(wgr).cap(),
            old(wgr).pos() + self.ser_vlu4_spec().len() <= old(wgr).cap() ==> {
                &&& final(wgr).written() == old(wgr).written() + self.ser_vlu4_spec()
                &&& final(wgr).pos() == old(wgr).pos() + self.ser_vlu4_spec().len()
                &&& final(wgr).past_end() == old(wgr).past_end()
            },
            old(wgr).pos() + self.ser_vlu4_spec().len() > old(wgr).cap()
                ==> final(wgr).past_end(),
    ;
}

/// Variable length array of `u32` numbers in vlu4 encoding: a vlu4 count
/// followed by that many vlu4 values.
pub struct Vlu4U32Array {
    items: Vec<u32>,
    declared_len: usize,
    past_end: bool,
    rest: NibbleBuf,
}

impl Vlu4U32Array {
    /// The parsed values.
    pub closed spec fn items(&self) -> Seq<u32> {
        self.items@
    }

    /// The count the length prefix declared.
    pub closed spec fn spec_len(&self) -> int {
        self.declared_len as int
    }

    /// Whether parsing ran past the end of the input.
    pub closed spec fn spec_past_end(&self) -> bool {
        self.past_end
    }

    /// Nibble position just past the array, where reading continues.
    pub closed spec fn rest_pos(&self) -> int {
        self.rest.pos()
    }

    /// The bytes the array was parsed from.
    pub closed spec fn rest_data(&self) -> Seq<u8> {
        self.rest.data()
    }

    /// A well-formed array parsed as many values as it declared.
    pub open spec fn wf(&self) -> bool {
        &&& !self.spec_past_end()
        &&& self.items().len() == self.spec_len()
    }

    /// Read a count and that many values from `rdr`.  The outcome follows the
    /// spec parse of the stream: on any read failure the array is marked
    /// past-end and keeps the values read so far.
    #[verifier::loop_isolation(false)]
    pub fn new(rdr: NibbleBuf) -> (r: Self)
        requires
            rdr.wf(),
        ensures
            rdr.past_end() ==> r.spec_past_end() && !r.wf(),
            !rdr.past_end() ==> match vlu4_scan(rdr.nibbles(), rdr.pos()) {
                VluScan::Done(k) => {
                    let c = vlu4_val(rdr.nibbles().subrange(rdr.pos(), rdr.pos() + k));
                    &&& r.spec_len() == c
                    &&& match vlu4_seq_parse(rdr.nibbles(), rdr.pos() + k, c as int) {
                        Some((items, end)) => {
                            &&& r.items() == items
                            &&& r.wf()
                            &&& r.rest_pos() == end
                            &&& r.rest_data() == rdr.data()
                            &&& r.lookahead_wf()
                            &&& !r.lookahead_past_end()
                        },
                        None => r.spec_past_end(),
                    }
                },
                _ => r.spec_past_end(),
            },
            r.lookahead_wf(),
            r.rest_data() == rdr.data(),
            r.spec_past_end() ==> r.lookahead_past_end(),
    {
        let ghost orig = rdr;
        let mut rdr = rdr;
        let ghost data0 = orig.data();
        let ghost nibs = orig.nibbles();
        let count32 = match rdr.get_vlu4_u32() {
            Ok(c) => c,
            Err(_) => {
                return Vlu4U32Array {
                    items: Vec::new(),
                    declared_len: 0,
                    past_end: true,
                    rest: rdr,
                };
            },
        };
        let count = count32 as usize;
        let ghost items_start = rdr.pos();
        let mut items: Vec<u32> = Vec::new();
        let mut i: usize = 0;
        while i < count
            invariant
                rdr.wf(),
                rdr.data() == data0,
                !rdr.past_end(),
                i <= count,
                items@.len() == i,
                vlu4_seq_parse(nibs, items_start, count as int) == match vlu4_seq_parse(
                    nibs,
                    rdr.pos(),
                    count - i,
                ) {
                    Some((s, end)) => Some((items@ + s, end)),
                    None => None::<(Seq<u32>, int)>,
                },
            decreases count - i,
        {
            let ghost items_pre = items@;
            match rdr.get_vlu4_u32() {
                Ok(v) => {
                    items.push(v);
                    i = i + 1;
                    proof {
                        if let Some((s, end)) = vlu4_seq_parse(nibs, rdr.pos(), count - i) {
                            assert((items_pre + (seq![v] + s)) =~= (items@ + s));
                        }
                    }
                },
                Err(_) => {
                    return Vlu4U32Array { items, declared_len: count, past_end: true, rest: rdr };
                },
            }
        }
        proof {
            assert(vlu4_seq_parse(nibs, rdr.pos(), 0) == Some((Seq::<u32>::empty(), rdr.pos())));
            assert((items@ + Seq::<u32>::empty()) =~= items@);
        }
        Vlu4U32Array { items, declared_len: count, past_end: false, rest: rdr }
    }

    /// The count declared by the length prefix.
    pub fn len(&self) -> (r: usize)
        ensures
            r == self.spec_len(),
    {
        self.declared_len
    }

    /// Whether parsing ran past the end of the input.
    pub fn is_past_end(&self) -> (r: bool)
        ensures
            r == self.spec_past_end(),
    {
        self.past_end
    }

    /// A copy of this array.
    pub fn duplicate(&self) -> (r: Self)
        ensures
            r.items() == self.items(),
            r.spec_len() == self.spec_len(),
            r.spec_past_end() == self.spec_past_end(),
            r.rest_pos() == self.rest_pos(),
            r.rest_data() == self.rest_data(),
            self.lookahead_wf() ==> r.lookahead_wf(),
            r.lookahead_past_end() == self.lookahead_past_end(),
    {
        Vlu4U32Array {
            items: clone_u32s(&self.items),
            declared_len: self.declared_len,
            past_end: self.past_end,
            rest: self.rest.fork(),
        }
    }

    /// Build a number array from owned values.
    pub fn from_items(items: Vec<u32>) -> (r: Self)
        ensures
            r.items() == items@,
            r.spec_len() == items@.len(),
            r.wf(),
    {
        let n = items.len();
        Vlu4U32Array {
            items,
            declared_len: n,
            past_end: false,
            rest: NibbleBuf::new(Vec::new()),
        }
    }

    /// The parsed values as a vector.
    pub fn to_vec(&self) -> (r: Vec<u32>)
        ensures
            r@ == self.items(),
    {
        clone_u32s(&self.items)
    }

    /// Iterate over the parsed values.
    pub fn iter(&self) -> (r: Vlu4U32ArrayIter)
        ensures
            r.remaining() == self.items(),
    {
        Vlu4U32ArrayIter { items: clone_u32s(&self.items), pos: 0 }
    }

    /// Iterate over the parsed values, consuming the array.
    pub fn into_iter(self) -> (r: Vlu4U32ArrayIter)
        ensures
            r.remaining() == self.items(),
    {
        Vlu4U32ArrayIter { items: self.items, pos: 0 }
    }

    /// A reader standing just past this array, to continue from.
    pub fn lookahead(&self) -> (r: NibbleBuf)
        requires
            self.lookahead_wf(),
        ensures
            r.wf(),
            r.data() == self.rest_data(),
            r.pos() == self.rest_pos(),
            r.past_end() == self.lookahead_past_end(),
    {
        self.rest.fork()
    }

    /// The stored continuation reader is well formed.
    pub closed spec fn lookahead_wf(&self) -> bool {
        self.rest.wf()
    }

    /// Whether the continuation reader already ran past the end.
    pub closed spec fn lookahead_past_end(&self) -> bool {
        self.rest.past_end()
    }
}

/// Yields the values of a [`Vlu4U32Array`] in order.
pub struct Vlu4U32ArrayIter {
    items: Vec<u32>,
    pos: usize,
}

impl Vlu4U32ArrayIter {
    /// The values not yet yielded.
    pub closed spec fn remaining(&self) -> Seq<u32> {
        if self.pos <= self.items@.len() {
            self.items@.skip(self.pos as int)
        } else {
            Seq::empty()
        }
    }

    /// Yield the next value, front to back.
    pub fn next(&mut self) -> (r: Option<u32>)
        ensures
            old(self).remaining().len() > 0 ==> {
                &&& r == Some::<u32>(old(self).remaining()[0])
                &&& final(self).remaining() == old(self).remaining().skip(1)
            },
            old(self).remaining().len() == 0 ==> {
                &&& r is None
                &&& final(self).remaining() == old(self).remaining()
            },
    {
        if self.pos < self.items.len() {
            let v = self.items[self.pos];
            self.pos = self.pos + 1;
            proof {
                assert(self.remaining() =~= old(self).remaining().skip(1));
            }
            Some(v)
        } else {
            None
        }
    }
}

/// Parse `n` length-prefixed, byte-aligned slices starting at nibble `pos`:
/// each is a vlu4 byte count, a padding nibble when unaligned, then the
/// bytes.  `Some` holds the slices and the nibble position after the last.
pub open spec fn slice_seq_parse(data: Seq<u8>, pos: int, n: int) -> Option<(Seq<Seq<u8>>, int)>
    decreases n,
    when n >= 0
{
    if n <= 0 {
        Some((Seq::empty(), pos))
    } else {
        let nibs = nibbles_of(data);
        match vlu4_scan(nibs, pos) {
            VluScan::Done(k) => {
                let blen = vlu4_val(nibs.subrange(pos, pos + k)) as int;
                let p1 = pos + k;
                let p2 = if p1 % 2 == 1 { p1 + 1 } else { p1 };
                if (p1 % 2 == 1 ==> p1 < 2 * data.len()) && p2 + 2 * blen <= 2 * data.len() {
                    let bytes = data.subrange(p2 / 2, p2 / 2 + blen);
                    match slice_seq_parse(data, p2 + 2 * blen, n - 1) {
                        Some((s, end)) => Some((seq![bytes] + s, end)),
                        None => None,
                    }
                } else {
                    None
                }
            },
            _ => None,
        }
    }
}

/// Variable size array of byte slices, each aligned to a byte boundary; a
/// 4-bit padding nibble is inserted and skipped where needed before a slice.
pub struct Vlu4SliceArray {
    slices: Vec<Vec<u8>>,
    declared_len: usize,
    past_end: bool,
}

impl Vlu4SliceArray {
    /// The parsed slices.
    pub closed spec fn slices(&self) -> Seq<Seq<u8>> {
        slice_views(self.slices@)
    }

    /// The count the length prefix declared.
    pub closed spec fn spec_len(&self) -> int {
        self.declared_len as int
    }

    /// Whether parsing ran past the end of the input.
    pub closed spec fn spec_past_end(&self) -> bool {
        self.past_end
    }

    /// A well-formed array parsed as many slices as it declared.
    pub open spec fn wf(&self) -> bool {
        &&& !self.spec_past_end()
        &&& self.slices().len() == self.spec_len()
    }

    /// Parse a slice array from `rdr`, advancing it past the array.  Returns
    /// `Ok` exactly when the spec parse of the stream succeeds.
    #[verifier::loop_isolation(false)]
    pub fn des_vlu4(rdr: &mut NibbleBuf) -> (r: Result<Self, Error>)
        requires
            old(rdr).wf(),
        ensures
            final(rdr).wf(),
            final(rdr).data() == old(rdr).data(),
            old(rdr).past_end() ==> r is Err,
            !old(rdr).past_end() ==> match vlu4_scan(old(rdr).nibbles(), old(rdr).pos()) {
                VluScan::Done(k) => {
                    let c = vlu4_val(old(rdr).nibbles().subrange(old(rdr).pos(), old(rdr).pos() + k));
                    match slice_seq_parse(old(rdr).data(), old(rdr).pos() + k, c as int) {
                        Some((slices, end)) => {
                            &&& (r matches Ok(a) && a.slices() == slices && a.spec_len() == c
                                && a.wf())
                            &&& final(rdr).pos() == end
                            &&& !final(rdr).past_end()
                        },
                        None => r is Err,
                    }
                },
                _ => r is Err,
            },
    {
        let ghost data0 = rdr.data();
        let ghost nibs = rdr.nibbles();
        let count32 = match rdr.get_vlu4_u32() {
            Ok(c) => c,
            Err(e) => {
                return Err(e);
            },
        };
        let count = count32 as usize;
        let ghost items_start = rdr.pos();
        let mut slices: Vec<Vec<u8>> = Vec::new();
        let mut i: usize = 0;
        while i < count
            invariant
                rdr.wf(),
                rdr.data() == data0,
                !rdr.past_end(),
                !old(rdr).past_end(),
                i <= count,
                slices@.len() == i,
                slice_seq_parse(data0, items_start, count as int) == match slice_seq_parse(
                    data0,
                    rdr.pos(),
                    count - i,
                ) {
                    Some((s, end)) => Some((
                        slice_views(slices@) + s,
                        end,
                    )),
                    None => None::<(Seq<Seq<u8>>, int)>,
                },
            decreases count - i,
        {
            let ghost slices_pre = slice_views(slices@);
            let slice_len32 = match rdr.get_vlu4_u32() {
                Ok(l) => l,
                Err(e) => {
                    return Err(e);
                },
            };
            let slice_len = slice_len32 as usize;
            if !rdr.is_at_byte_boundary() {
                match rdr.get_nibble() {
                    Ok(_) => (),
                    Err(e) => {
                        return Err(e);
                    },
                }
            }
            let bytes = match rdr.get_slice(slice_len) {
                Ok(b) => b,
                Err(e) => {
                    return Err(e);
                },
            };
            slices.push(bytes);
            i = i + 1;
            proof {
                if let Some((s, end)) = slice_seq_parse(data0, rdr.pos(), count - i) {
                    assert((slices_pre + (seq![bytes@] + s)) =~= (slices@.map_values(
                        |v: Vec<u8>| v@,
                    ) + s));
                }
            }
        }
        proof {
            assert((slice_views(slices@) + Seq::<Seq<u8>>::empty()) =~= slices@
                .map_values(|v: Vec<u8>| v@));
        }
        Ok(Vlu4SliceArray { slices, declared_len: count, past_end: false })
    }

    /// The count declared by the length prefix.
    pub fn len(&self) -> (r: usize)
        ensures
            r == self.spec_len(),
            self.wf() ==> r == self.slices().len(),
    {
        self.declared_len
    }

    /// Build a slice array from owned slices.
    pub fn from_slices(slices: Vec<Vec<u8>>) -> (r: Self)
        ensures
            r.slices() == slice_views(slices@),
            r.spec_len() == slices@.len(),
            r.wf(),
    {
        let n = slices.len();
        Vlu4SliceArray { slices, declared_len: n, past_end: false }
    }

    /// The parsed slices as a vector.
    pub fn to_vec(&self) -> (r: Vec<Vec<u8>>)
        ensures
            slice_views(r@) == self.slices(),
            r@.len() == self.slices().len(),
    {
        let mut out: Vec<Vec<u8>> = Vec::new();
        let mut i: usize = 0;
        while i < self.slices.len()
            invariant
                i <= self.slices@.len(),
                out@.len() == i,
                slice_views(out@) == slice_views(self.slices@).take(i as int),
            decreases self.slices@.len() - i,
        {
            let ghost out_pre = out@;
            let nb = clone_bytes(&self.slices[i]);
            out.push(nb);
            i = i + 1;
            proof {
                let a = slice_views(out@);
                let b = slice_views(self.slices@).take(i as int);
                assert forall|j: int| 0 <= j < i implies a[j] == b[j] by {
                    if j < i - 1 {
                        assert(out@[j] == out_pre[j]);
                        assert(slice_views(out_pre)[j] == out_pre[j]@);
                        assert(slice_views(self.slices@).take(i - 1)[j] == b[j]);
                    } else {
                        assert(out@[j] == nb);
                        assert(b[j] == self.slices@[j]@);
                    }
                }
                assert(a =~= b);
            }
        }
        proof {
            assert(slice_views(out@) =~= slice_views(self.slices@));
        }
        out
    }

    /// Iterate over the parsed slices.
    pub fn iter(&self) -> (r: Vlu4SliceArrayIter)
        ensures
            r.remaining() == self.slices(),
    {
        Vlu4SliceArrayIter { slices: self.to_vec(), pos: 0 }
    }
}

/// Yields the slices of a [`Vlu4SliceArray`] in order.
pub struct Vlu4SliceArrayIter {
    slices: Vec<Vec<u8>>,
    pos: usize,
}

impl Vlu4SliceArrayIter {
    /// The slices not yet yielded.
    pub closed spec fn remaining(&self) -> Seq<Seq<u8>> {
        if self.pos <= self.slices@.len() {
            slice_views(self.slices@).skip(self.pos as int)
        } else {
            Seq::empty()
        }
    }

    /// Yield the next slice, front to back.
    pub fn next(&mut self) -> (r: Option<Vec<u8>>)
        ensures
            old(self).remaining().len() > 0 ==> {
                &&& (r matches Some(v) && v@ == old(self).remaining()[0])
                &&& final(self).remaining() == old(self).remaining().skip(1)
            },
            old(self).remaining().len() == 0 ==> {
                &&& r is None
                &&& final(self).remaining() == old(self).remaining()
            },
    {
        if self.pos < self.slices.len() {
            let v = clone_bytes(&self.slices[self.pos]);
            self.pos = self.pos + 1;
            proof {
                assert(self.remaining() =~= old(self).remaining().skip(1));
            }
            Some(v)
        } else {
            None
        }
    }
}

} // verus!
