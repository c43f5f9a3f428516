//! Nibble-granular buffer reader and writer.
//!
//! A buffer is viewed as a stream of 4-bit nibbles, most significant nibble of
//! each byte first.  Variable length unsigned integers (vlu4) are sequences of
//! nibbles where the top bit of a nibble is a continuation flag and the low
//! three bits carry payload, most significant group first.

use vstd::prelude::*;

verus! {

/// Relies on std's `String::push`: appends the given character.
pub assume_specification[ String::push ](s: &mut String, ch: char)
    ensures
        final(s)@ == old(s)@.push(ch),
;

/// Relies on std's `String::push_str`: appends the given string slice.
pub assume_specification[ String::push_str ](s: &mut String, string: &str)
    ensures
        final(s)@ == old(s)@ + string@,
;

/// Failure modes of the nibble codec.
///
/// Past-end is sticky: once a read runs out of bounds (or a vlu4 number is
/// malformed), `is_past_end` stays set and every later read fails with
/// `OutOfBounds` without moving the position.
#[derive(Copy, Clone, Debug, PartialEq, Eq, Structural)]
pub enum Error {
    /// A read or write ran past the end of the buffer.
    OutOfBounds,
    /// A vlu4 number had its continuation bit set in the 11th nibble.
    MalformedVlu4U32,
    /// A byte-aligned operation was attempted at an odd nibble position.
    UnalignedAccess,
}

/// Most significant nibble of a byte.
pub open spec fn nib_hi(b: u8) -> u8 {
    b / 16
}

/// Least significant nibble of a byte.
pub open spec fn nib_lo(b: u8) -> u8 {
    b % 16
}

/// The nibble stream carried by a byte sequence.
pub open spec fn nibbles_of(bytes: Seq<u8>) -> Seq<u8> {
    Seq::new(
        bytes.len() * 2,
        |i: int| if i % 2 == 0 { nib_hi(bytes[i / 2]) } else { nib_lo(bytes[i / 2]) },
    )
}

/// Result of scanning one vlu4 number in a nibble stream.
pub enum VluScan {
    /// A complete number occupying the given count of nibbles.
    Done(int),
    /// The stream ended before the number did.
    Truncated,
    /// An 11th nibble still had the continuation bit set.
    Malformed,
}

/// Scan one vlu4 number starting at `pos`, with `depth` continuation nibbles
/// already consumed.  At most 11 nibbles form one number.
pub open spec fn vlu4_scan_at(nibs: Seq<u8>, pos: int, depth: int) -> VluScan
    decreases 10 - depth,
    when 0 <= depth <= 10
{
    if pos < 0 || pos >= nibs.len() {
        VluScan::Truncated
    } else if nibs[pos] & 8 == 0 {
        VluScan::Done(1)
    } else if depth == 10 {
        VluScan::Malformed
    } else {
        match vlu4_scan_at(nibs, pos + 1, depth + 1) {
            VluScan::Done(k) => VluScan::Done(k + 1),
            o => o,
        }
    }
}

/// Scan one vlu4 number starting at `pos`.
pub open spec fn vlu4_scan(nibs: Seq<u8>, pos: int) -> VluScan {
    vlu4_scan_at(nibs, pos, 0)
}

/// Value of a digit sequence: three payload bits per nibble, most significant
/// group first, truncated to 32 bits as groups beyond bit 31 are shifted out.
pub open spec fn vlu4_val(digits: Seq<u8>) -> u32
    decreases digits.len(),
{
    if digits.len() == 0 {
        0u32
    } else {
        (((vlu4_val(digits.drop_last()) * 8) % 0x1_0000_0000) + (digits.last() & 7)) as u32
    }
}

/// Continuation-marked digits of `m`, most significant first; empty for 0.
pub open spec fn vlu4_enc_pre(m: int) -> Seq<u8>
    decreases m,
    when m >= 0
{
    if m <= 0 {
        Seq::empty()
    } else {
        vlu4_enc_pre(m / 8).push((m % 8 + 8) as u8)
    }
}

/// The vlu4 encoding of `n`: continuation-marked high groups, then the low
/// group with a clear continuation bit.
pub open spec fn vlu4_enc(n: int) -> Seq<u8> {
    vlu4_enc_pre(n / 8).push((n % 8) as u8)
}

/// Number of nibbles in the vlu4 encoding of `n`.
pub open spec fn vlu4_len(n: int) -> int {
    vlu4_enc(n).len() as int
}

/// Buffer reader that treats input as a stream of nibbles.
pub struct NibbleBuf {
    buf: Vec<u8>,
    // Position in bytes
    idx: usize,
    is_at_byte_boundary: bool,
    is_past_end: bool,
}

impl NibbleBuf {
    /// The underlying bytes.
    pub closed spec fn data(&self) -> Seq<u8> {
        self.buf@
    }

    /// The nibble stream read by this reader.
    pub open spec fn nibbles(&self) -> Seq<u8> {
        nibbles_of(self.data())
    }

    /// Total number of nibbles in the buffer.
    pub open spec fn nib_len(&self) -> int {
        self.data().len() * 2int
    }

    /// Current read position, in nibbles.
    pub closed spec fn pos(&self) -> int {
        if self.is_at_byte_boundary {
            self.idx * 2
        } else {
            self.idx * 2 + 1
        }
    }

    /// Whether a read has already run past the end.
    pub closed spec fn past_end(&self) -> bool {
        self.is_past_end
    }

    /// The byte index the reader stands at.
    pub closed spec fn byte_index(&self) -> int {
        self.idx as int
    }

    /// Whether the reader's state says it stands at a byte boundary.
    pub closed spec fn boundary(&self) -> bool {
        self.is_at_byte_boundary
    }

    /// Representation invariant: positions fit in `usize` arithmetic.
    pub closed spec fn inv(&self) -> bool {
        &&& 2 * self.buf@.len() + 1 <= usize::MAX
        &&& 2 * self.idx + 1 <= usize::MAX
    }

    /// A well-formed reader stands at a position inside its buffer, except
    /// when it is already past the end.
    pub open spec fn wf(&self) -> bool {
        &&& self.inv()
        &&& 0 <= self.pos()
        &&& (self.past_end() || self.pos() <= self.nib_len())
    }

    pub fn new(buf: Vec<u8>) -> (r: Self)
        requires
            2 * buf@.len() + 1 <= usize::MAX,
        ensures
            r.wf(),
            r.data() == buf@,
            r.pos() == 0,
            !r.past_end(),
    {
        NibbleBuf { buf, idx: 0, is_at_byte_boundary: true, is_past_end: false }
    }

    /// Start reading at a nibble offset; an offset beyond the end keeps the
    /// requested position and starts in the past-end state.
    pub fn new_with_offset(buf: Vec<u8>, offset_nibbles: usize) -> (r: Self)
        requires
            2 * buf@.len() + 1 <= usize::MAX,
        ensures
            r.wf(),
            r.data() == buf@,
            r.pos() == offset_nibbles,
            r.past_end() == (offset_nibbles > 2 * buf@.len()),
    {
        let past = offset_nibbles > buf.len() * 2;
        NibbleBuf {
            buf,
            idx: offset_nibbles / 2,
            is_at_byte_boundary: offset_nibbles % 2 == 0,
            is_past_end: past,
        }
    }

    pub fn nibbles_pos(&self) -> (r: usize)
        requires
            self.wf(),
        ensures
            r == self.pos(),
    {
        if self.is_at_byte_boundary {
            self.idx * 2
        } else {
            self.idx * 2 + 1
        }
    }

    pub fn nibbles_left(&self) -> (r: usize)
        requires
            self.wf(),
            self.pos() <= self.nib_len(),
        ensures
            r == self.nib_len() - self.pos(),
    {
        self.buf.len() * 2 - self.nibbles_pos()
    }

    pub fn is_at_end(&self) -> (r: bool)
        requires
            self.wf(),
        ensures
            r == (self.pos() >= self.nib_len()),
    {
        self.idx >= self.buf.len()
    }

    /// True if there was one or more read attempts after reaching the end of
    /// the buffer.
    pub fn is_past_end(&self) -> (r: bool)
        ensures
            r == self.past_end(),
    {
        self.is_past_end
    }

    pub fn is_at_byte_boundary(&self) -> (r: bool)
        ensures
            r == (self.pos() % 2 == 0),
    {
        proof {
            if self.is_at_byte_boundary {
                assert(self.pos() % 2 == 0);
            } else {
                assert(self.pos() % 2 == 1);
            }
        }
        self.is_at_byte_boundary
    }

    /// A second reader over the same bytes, standing at the same position.
    pub fn fork(&self) -> (r: NibbleBuf)
        ensures
            r.data() == self.data(),
            r.pos() == self.pos(),
            r.past_end() == self.past_end(),
            self.wf() ==> r.wf(),
    {
        let mut copy: Vec<u8> = Vec::new();
        let mut i: usize = 0;
        while i < self.buf.len()
            invariant
                i <= self.buf@.len(),
                copy@ == self.buf@.take(i as int),
            decreases self.buf@.len() - i,
        {
            copy.push(self.buf[i]);
            i = i + 1;
            proof {
                assert(copy@ =~= self.buf@.take(i as int));
            }
        }
        proof {
            assert(copy@ =~= self.buf@);
        }
        NibbleBuf {
            buf: copy,
            idx: self.idx,
            is_at_byte_boundary: self.is_at_byte_boundary,
            is_past_end: self.is_past_end,
        }
    }

    /// One nibble as a lowercase hex character.
    fn hex_char(n: u8) -> char {
        if n == 0 {
            '0'
        } else if n == 1 {
            '1'
        } else if n == 2 {
            '2'
        } else if n == 3 {
            '3'
        } else if n == 4 {
            '4'
        } else if n == 5 {
            '5'
        } else if n == 6 {
            '6'
        } else if n == 7 {
            '7'
        } else if n == 8 {
            '8'
        } else if n == 9 {
            '9'
        } else if n == 10 {
            'a'
        } else if n == 11 {
            'b'
        } else if n == 12 {
            'c'
        } else if n == 13 {
            'd'
        } else if n == 14 {
            'e'
        } else {
            'f'
        }
    }

    /// One decimal digit as a character.
    fn dec_char(n: u8) -> char {
        if n == 0 {
            '0'
        } else if n == 1 {
            '1'
        } else if n == 2 {
            '2'
        } else if n == 3 {
            '3'
        } else if n == 4 {
            '4'
        } else if n == 5 {
            '5'
        } else if n == 6 {
            '6'
        } else if n == 7 {
            '7'
        } else if n == 8 {
            '8'
        } else {
            '9'
        }
    }

    /// Render the unread nibbles for humans: the consumed count when any,
    /// then the remaining nibbles in hex, space separated.
    pub fn to_display_string(&self) -> (r: String)
        requires
            self.wf(),
    {
        let mut s = String::new();
        s.push_str("NibbleBuf(");
        let p = self.nibbles_pos();
        if p > 0 {
            s.push('<');
            let mut digits: Vec<u8> = Vec::new();
            let mut n = p;
            loop
                invariant
                    digits@.len() <= 30,
                decreases n,
            {
                if digits.len() >= 30 {
                    break ;
                }
                digits.push((n % 10) as u8);
                n = n / 10;
                if n == 0 {
                    break ;
                }
            }
            let mut i = digits.len();
            while i > 0
                invariant
                    i <= digits@.len(),
                decreases i,
            {
                i = i - 1;
                s.push(Self::dec_char(digits[i]));
            }
            s.push('<');
            s.push(' ');
        }
        let mut rdr = self.fork();
        loop
            invariant
                rdr.wf(),
            decreases rdr.nib_len() - rdr.pos(),
        {
            match rdr.get_nibble() {
                Ok(nib) => {
                    s.push(Self::hex_char(nib));
                    if !rdr.is_at_end() {
                        s.push(' ');
                    }
                },
                Err(_) => {
                    break ;
                },
            }
        }
        s.push(')');
        s
    }

    /// Put this reader into its error state, so that it can be detected later.
    pub fn fuse(&mut self)
        requires
            old(self).wf(),
        ensures
            final(self).wf(),
            final(self).data() == old(self).data(),
            final(self).pos() == final(self).nib_len(),
            final(self).past_end(),
    {
        self.idx = self.buf.len();
        self.is_at_byte_boundary = true;
        self.is_past_end = true;
    }

    /// Read one nibble.  Reading at or past the end fails with `OutOfBounds`,
    /// leaves the position unchanged and sets the sticky past-end flag; once
    /// that flag is set every further read fails the same way.
    pub fn get_nibble(&mut self) -> (r: Result<u8, Error>)
        requires
            old(self).wf(),
        ensures
            final(self).wf(),
            final(self).data() == old(self).data(),
            old(self).past_end() ==> {
                &&& r == Err::<u8, Error>(Error::OutOfBounds)
                &&& *final(self) == *old(self)
            },
            !old(self).past_end() && old(self).pos() < old(self).nib_len() ==> {
                &&& r == Ok::<u8, Error>(old(self).nibbles()[old(self).pos()])
                &&& final(self).pos() == old(self).pos() + 1
                &&& !final(self).past_end()
            },
            !old(self).past_end() && old(self).pos() >= old(self).nib_len() ==> {
                &&& r == Err::<u8, Error>(Error::OutOfBounds)
                &&& final(self).pos() == old(self).pos()
                &&& final(self).past_end()
            },
    {
        if self.is_past_end {
            return Err(Error::OutOfBounds);
        }
        if self.idx >= self.buf.len() {
            self.is_past_end = true;
            return Err(Error::OutOfBounds);
        }
        let val = self.buf[self.idx];
        if self.is_at_byte_boundary {
            self.is_at_byte_boundary = false;
            proof {
                assert((val & 0xf0) >> 4 == val / 16) by (bit_vector);
            }
            Ok((val & 0xf0) >> 4)
        } else {
            self.is_at_byte_boundary = true;
            self.idx = self.idx + 1;
            proof {
                assert(val & 0xf == val % 16) by (bit_vector);
            }
            Ok(val & 0xf)
        }
    }

    /// Read one byte, possibly spanning two adjacent bytes of the buffer.
    pub fn get_u8(&mut self) -> (r: Result<u8, Error>)
        requires
            old(self).wf(),
        ensures
            final(self).wf(),
            final(self).data() == old(self).data(),
            old(self).past_end() ==> {
                &&& r == Err::<u8, Error>(Error::OutOfBounds)
                &&& *final(self) == *old(self)
            },
            !old(self).past_end() && old(self).pos() + 2 <= old(self).nib_len() ==> {
                &&& r == Ok::<u8, Error>(
                    (old(self).nibbles()[old(self).pos()] * 16
                        + old(self).nibbles()[old(self).pos() + 1]) as u8
                )
                &&& final(self).pos() == old(self).pos() + 2
                &&& !final(self).past_end()
            },
            !old(self).past_end() && old(self).pos() + 2 > old(self).nib_len() ==> {
                &&& r == Err::<u8, Error>(Error::OutOfBounds)
                &&& final(self).pos() == old(self).pos()
                &&& final(self).past_end()
            },
    {
        if self.is_past_end {
            return Err(Error::OutOfBounds);
        }
        if self.nibbles_left() < 2 {
            self.is_past_end = true;
            return Err(Error::OutOfBounds);
        }
        if self.is_at_byte_boundary {
            let val = self.buf[self.idx];
            self.idx = self.idx + 1;
            proof {
                assert(val == (val / 16) * 16 + val % 16) by (bit_vector);
            }
            Ok(val)
        } else {
            let msn = self.buf[self.idx];
            self.idx = self.idx + 1;
            let lsn = self.buf[self.idx];
            proof {
                assert((msn << 4) | (lsn >> 4) == ((msn % 16) * 16 + lsn / 16)) by (bit_vector);
            }
            Ok((msn << 4) | (lsn >> 4))
        }
    }

    /// Read one vlu4-encoded `u32`.  On a fresh reader the outcome follows
    /// `vlu4_scan` on the nibble stream: a complete number yields its (32-bit
    /// truncated) value, a truncated stream fails with `OutOfBounds`, and a
    /// continuation bit in the 11th nibble fails with `MalformedVlu4U32`;
    /// both failures leave the reader fused at the end with the past-end
    /// flag set, and a past-end reader fails without moving.
    pub fn get_vlu4_u32(&mut self) -> (r: Result<u32, Error>)
        requires
            old(self).wf(),
        ensures
            final(self).wf(),
            final(self).data() == old(self).data(),
            old(self).past_end() ==> {
                &&& r == Err::<u32, Error>(Error::OutOfBounds)
                &&& *final(self) == *old(self)
            },
            !old(self).past_end() ==> match vlu4_scan(old(self).nibbles(), old(self).pos()) {
                VluScan::Done(k) => {
                    &&& r == Ok::<u32, Error>(
                        vlu4_val(old(self).nibbles().subrange(old(self).pos(), old(self).pos() + k))
                    )
                    &&& final(self).pos() == old(self).pos() + k
                    &&& !final(self).past_end()
                },
                VluScan::Truncated => {
                    &&& r == Err::<u32, Error>(Error::OutOfBounds)
                    &&& final(self).pos() == final(self).nib_len()
                    &&& final(self).past_end()
                },
                VluScan::Malformed => {
                    &&& r == Err::<u32, Error>(Error::MalformedVlu4U32)
                    &&& final(self).pos() == final(self).nib_len()
                    &&& final(self).past_end()
                },
            },
    {
        if self.is_past_end {
            return Err(Error::OutOfBounds);
        }
        let ghost nibs = self.nibbles();
        let ghost start = self.pos();
        let mut num: u32 = 0;
        let mut i: usize = 0;
        loop
            invariant
                self.wf(),
                self.data() == old(self).data(),
                !self.past_end(),
                !old(self).past_end(),
                nibs == old(self).nibbles(),
                start == old(self).pos(),
                0 <= start,
                0 <= i <= 10,
                self.pos() == start + i,
                start + i <= self.nib_len(),
                forall|j: int| 0 <= j < i ==> (#[trigger] nibs[start + j]) & 8 != 0,
                num == (vlu4_val(nibs.subrange(start, start + i)) * 8) % 0x1_0000_0000,
            decreases 10 - i,
        {
            let ghost pre = nibs.subrange(start, start + i);
            let nib = match self.get_nibble() {
                Ok(n) => n,
                Err(e) => {
                    proof {
                        lemma_vlu4_scan_shift(nibs, start, 0, i as int);
                        assert(vlu4_scan_at(nibs, start + i, i as int) == VluScan::Truncated);
                    }
                    self.fuse();
                    return Err(Error::OutOfBounds);
                }
            };
            proof {
                assert(nibs.subrange(start, start + i + 1).drop_last() =~= pre);
                assert(nibs.subrange(start, start + i + 1).last() == nib);
                assert(num % 8 == 0) by {
                    let v = vlu4_val(pre);
                    assert((v * 8) % 0x1_0000_0000 % 8 == 0) by (bit_vector);
                }
                let nib32 = nib as u32;
                assert(num % 8 == 0 ==> (num | (nib32 & 7)) == num + (nib32 & 7) && num + (nib32
                    & 7) <= u32::MAX) by (bit_vector);
                assert((nib32 & 7) == ((nib & 7) as u32)) by (bit_vector)
                    requires
                        nib32 == nib as u32,
                ;
            }
            if i == 10 {
                // maximum 32 bits in 11 nibbles, the 11th nibble must be the last
                if nib & 0b1000 != 0 {
                    proof {
                        lemma_vlu4_scan_shift(nibs, start, 0, 10);
                        assert(vlu4_scan_at(nibs, start + 10, 10) == VluScan::Malformed);
                    }
                    self.fuse();
                    return Err(Error::MalformedVlu4U32);
                }
            }
            num = num | ((nib as u32) & 0b111);
            if nib & 0b1000 == 0 {
                proof {
                    lemma_vlu4_scan_shift(nibs, start, 0, i as int);
                    assert(vlu4_scan_at(nibs, start + i, i as int) == VluScan::Done(1));
                    assert(vlu4_val(nibs.subrange(start, start + i + 1)) == num);
                }
                return Ok(num);
            }
            proof {
                assert(vlu4_val(nibs.subrange(start, start + i + 1)) == num);
                assert(((num as int) * 8) % 0x1_0000_0000 == ((num << 3) as int)) by (bit_vector);
            }
            num = num << 3;
            i = i + 1;
        }
    }

    /// Advance past one vlu4 number without interpreting it.  Unlike
    /// `get_vlu4_u32` this accepts numbers of any length.
    pub fn skip_vlu4_u32(&mut self) -> (r: Result<(), Error>)
        requires
            old(self).wf(),
        ensures
            final(self).wf(),
            final(self).data() == old(self).data(),
            old(self).past_end() ==> {
                &&& r == Err::<(), Error>(Error::OutOfBounds)
                &&& *final(self) == *old(self)
            },
            !old(self).past_end() ==> match vlu4_scan_free(old(self).nibbles(), old(self).pos()) {
                Some(k) => {
                    &&& r == Ok::<(), Error>(())
                    &&& final(self).pos() == old(self).pos() + k
                    &&& !final(self).past_end()
                },
                None => {
                    &&& r == Err::<(), Error>(Error::OutOfBounds)
                    &&& final(self).pos() == final(self).nib_len()
                    &&& final(self).past_end()
                },
            },
    {
        if self.is_past_end {
            return Err(Error::OutOfBounds);
        }
        let ghost nibs = self.nibbles();
        let ghost start = self.pos();
        let mut i: usize = 0;
        loop
            invariant
                self.wf(),
                self.data() == old(self).data(),
                !self.past_end(),
                !old(self).past_end(),
                nibs == old(self).nibbles(),
                start == old(self).pos(),
                0 <= start,
                0 <= i,
                self.pos() == start + i,
                start + i <= self.nib_len(),
                vlu4_scan_free(nibs, start) == match vlu4_scan_free(nibs, start + i) {
                    Some(k) => Some(k + i),
                    None => None::<int>,
                },
            decreases self.nib_len() - self.pos(),
        {
            match self.get_nibble() {
                Ok(nib) => {
                    if nib & 0b1000 == 0 {
                        return Ok(());
                    }
                    i = i + 1;
                }
                Err(_) => {
                    // the reader is already at the end; leave it fused there
                    self.fuse();
                    return Err(Error::OutOfBounds);
                }
            }
        }
    }

    /// Read `len` bytes.  On a fresh reader it fails with `UnalignedAccess`
    /// exactly when called at an odd nibble position, and with `OutOfBounds`
    /// when fewer than `len` bytes remain; a past-end reader always fails
    /// with `OutOfBounds`.
    pub fn get_slice(&mut self, len: usize) -> (r: Result<Vec<u8>, Error>)
        requires
            old(self).wf(),
        ensures
            final(self).wf(),
            final(self).data() == old(self).data(),
            old(self).past_end() ==> {
                &&& r == Err::<Vec<u8>, Error>(Error::OutOfBounds)
                &&& *final(self) == *old(self)
            },
            !old(self).past_end() ==> ((r == Err::<Vec<u8>, Error>(Error::UnalignedAccess)) <==> old(
                self,
            ).pos() % 2 != 0),
            !old(self).past_end() && old(self).pos() % 2 != 0 ==> *final(self) == *old(self),
            !old(self).past_end() && old(self).pos() % 2 == 0 && old(self).pos() + 2 * len > old(
                self,
            ).nib_len() ==> {
                &&& r == Err::<Vec<u8>, Error>(Error::OutOfBounds)
                &&& final(self).pos() == old(self).pos()
                &&& final(self).past_end()
            },
            !old(self).past_end() && old(self).pos() % 2 == 0 && old(self).pos() + 2 * len <= old(
                self,
            ).nib_len() ==> {
                &&& (r matches Ok(v) && v@ == old(self).data().subrange(
                        old(self).pos() / 2,
                        old(self).pos() / 2 + len,
                    ))
                &&& final(self).pos() == old(self).pos() + 2 * len
                &&& !final(self).past_end()
            },
    {
        if self.is_past_end {
            return Err(Error::OutOfBounds);
        }
        if !self.is_at_byte_boundary {
            return Err(Error::UnalignedAccess);
        }
        if len > self.nibbles_left() / 2 {
            self.is_past_end = true;
            return Err(Error::OutOfBounds);
        }
        let ghost start_idx = self.idx as int;
        let mut out: Vec<u8> = Vec::new();
        let mut i: usize = 0;
        while i < len
            invariant
                self.wf(),
                self.is_at_byte_boundary,
                !self.is_past_end,
                self.data() == old(self).data(),
                i <= len,
                self.idx == start_idx + i,
                start_idx + len <= self.buf@.len(),
                2 * start_idx == old(self).pos(),
                out@ == self.data().subrange(start_idx, start_idx + i),
            decreases len - i,
        {
            let b = self.buf[self.idx];
            out.push(b);
            self.idx = self.idx + 1;
            i = i + 1;
            proof {
                assert(out@ =~= self.data().subrange(start_idx, start_idx + i));
            }
        }
        Ok(out)
    }
}

/// Scan one vlu4 number without the 11-nibble cap: the count of nibbles up to
/// and including the first one with a clear continuation bit.
pub open spec fn vlu4_scan_free(nibs: Seq<u8>, pos: int) -> Option<int>
    decreases nibs.len() - pos,
    when pos >= 0
{
    if pos >= nibs.len() {
        None
    } else if nibs[pos] & 8 == 0 {
        Some(1)
    } else {
        match vlu4_scan_free(nibs, pos + 1) {
            Some(k) => Some(k + 1),
            None => None,
        }
    }
}

/// Buffer writer that fills a byte buffer nibble by nibble.
pub struct NibbleBufMut {
    buf: Vec<u8>,
    idx: usize,
    is_at_byte_boundary: bool,
    is_past_end: bool,
}

impl NibbleBufMut {
    /// The underlying bytes, including yet unwritten ones.
    pub closed spec fn data(&self) -> Seq<u8> {
        self.buf@
    }

    /// Capacity in nibbles.
    pub open spec fn cap(&self) -> int {
        self.data().len() * 2int
    }

    /// Current write position, in nibbles.
    pub closed spec fn pos(&self) -> int {
        if self.is_at_byte_boundary {
            self.idx * 2
        } else {
            self.idx * 2 + 1
        }
    }

    /// The nibbles written so far.
    pub open spec fn written(&self) -> Seq<u8> {
        nibbles_of(self.data()).take(self.pos())
    }

    /// Whether a write was dropped for lack of space.
    pub closed spec fn past_end(&self) -> bool {
        self.is_past_end
    }

    /// Representation invariant; the half-filled byte keeps its low nibble
    /// zero so that finishing a nibble never clobbers earlier output.
    pub closed spec fn inv(&self) -> bool {
        &&& self.idx <= self.buf@.len()
        &&& 2 * self.buf@.len() + 1 <= usize::MAX
        &&& (!self.is_at_byte_boundary ==> self.idx < self.buf@.len())
        &&& (!self.is_at_byte_boundary ==> nib_lo(self.buf@[self.idx as int]) == 0)
    }

    /// A well-formed writer stands at a position inside its buffer, and a
    /// half-filled byte keeps its low nibble zero until it is completed.
    pub open spec fn wf(&self) -> bool {
        &&& self.inv()
        &&& 0 <= self.pos() <= self.cap()
        &&& (self.pos() % 2 == 1 ==> self.pos() < self.cap() && nibbles_of(self.data())[self.pos()]
            == 0)
    }

    /// Start writing at the beginning of `buf`; its prior contents are
    /// treated as free space.
    pub fn new(buf: Vec<u8>) -> (r: Self)
        requires
            2 * buf@.len() + 1 <= usize::MAX,
        ensures
            r.wf(),
            r.cap() == 2 * buf@.len(),
            r.pos() == 0,
            r.written() == Seq::<u8>::empty(),
            !r.past_end(),
    {
        NibbleBufMut { buf, idx: 0, is_at_byte_boundary: true, is_past_end: false }
    }

    pub fn nibbles_pos(&self) -> (r: usize)
        requires
            self.wf(),
        ensures
            r == self.pos(),
    {
        if self.is_at_byte_boundary {
            self.idx * 2
        } else {
            self.idx * 2 + 1
        }
    }

    pub fn nibbles_left(&self) -> (r: usize)
        requires
            self.wf(),
        ensures
            r == self.cap() - self.pos(),
    {
        self.buf.len() * 2 - self.nibbles_pos()
    }

    pub fn is_at_end(&self) -> (r: bool)
        requires
            self.wf(),
        ensures
            r == (self.pos() >= self.cap()),
    {
        self.idx >= self.buf.len()
    }

    pub fn is_past_end(&self) -> (r: bool)
        ensures
            r == self.past_end(),
    {
        self.is_past_end
    }

    pub fn is_at_byte_boundary(&self) -> (r: bool)
        ensures
            r == (self.pos() % 2 == 0),
    {
        proof {
            if self.is_at_byte_boundary {
                assert(self.pos() % 2 == 0);
            } else {
                assert(self.pos() % 2 == 1);
            }
        }
        self.is_at_byte_boundary
    }

    /// A copy of the whole underlying buffer, written part first.
    pub fn as_bytes(&self) -> (r: Vec<u8>)
        ensures
            r@ == self.data(),
    {
        let mut out: Vec<u8> = Vec::new();
        let mut i: usize = 0;
        while i < self.buf.len()
            invariant
                i <= self.buf@.len(),
                out@ == self.buf@.take(i as int),
            decreases self.buf@.len() - i,
        {
            out.push(self.buf[i]);
            i = i + 1;
            proof {
                assert(out@ =~= self.buf@.take(i as int));
            }
        }
        proof {
            assert(out@ =~= self.buf@);
        }
        out
    }

    /// Hand back the filled prefix, whole bytes only: a trailing half-written
    /// byte is dropped.
    pub fn finish(self) -> (r: Vec<u8>)
        requires
            self.wf(),
        ensures
            2 * r@.len() == self.pos() - self.pos() % 2,
            nibbles_of(r@) == self.written().take(2 * (self.pos() / 2)),
            r@ == self.data().take(self.pos() / 2),
    {
        let ghost w = self.written();
        let ghost d = self.data();
        let ghost p = self.pos();
        let idx = self.idx;
        let mut buf = self.buf;
        buf.truncate(idx);
        proof {
            assert(buf@ =~= d.take(idx as int));
            assert forall|i: int| 0 <= i < 2 * idx implies nibbles_of(buf@)[i] == nibbles_of(
                d,
            )[i] by {
                assert(buf@[i / 2] == d[i / 2]);
            }
            assert(nibbles_of(buf@) =~= w.take(2 * (p / 2)));
        }
        buf
    }

    /// Write one nibble; when the buffer is full the nibble is dropped and
    /// the past-end flag set.
    pub fn put_nibble(&mut self, nib: u8)
        requires
            old(self).wf(),
        ensures
            final(self).wf(),
            final(self).cap() == old(self).cap(),
            old(self).pos() < old(self).cap() ==> {
                &&& final(self).written() == old(self).written().push(nib & 0xf)
                &&& final(self).pos() == old(self).pos() + 1
                &&& final(self).past_end() == old(self).past_end()
            },
            old(self).pos() >= old(self).cap() ==> {
                &&& final(self).written() == old(self).written()
                &&& final(self).pos() == old(self).pos()
                &&& final(self).past_end()
            },
    {
        if self.idx >= self.buf.len() {
            self.is_past_end = true;
            return;
        }
        let ghost d0 = self.buf@;
        let ghost p0 = self.pos();
        if self.is_at_byte_boundary {
            self.buf[self.idx] = nib << 4;
            self.is_at_byte_boundary = false;
            proof {
                assert(nib_hi(nib << 4) == (nib & 0xf) && nib_lo(nib << 4) == 0) by (bit_vector);
                lemma_written_extend(d0, self.buf@, p0, nib & 0xf);
            }
        } else {
            let cur = self.buf[self.idx];
            self.buf[self.idx] = cur | (nib & 0xf);
            self.is_at_byte_boundary = true;
            self.idx = self.idx + 1;
            proof {
                assert(nib_lo(cur) == 0 ==> nib_hi(cur | (nib & 0xf)) == nib_hi(cur) && nib_lo(
                    cur | (nib & 0xf)) == (nib & 0xf)) by (bit_vector);
                lemma_written_extend(d0, self.buf@, p0, nib & 0xf);
            }
        }
    }

    /// Write one byte as two nibbles, possibly spanning two buffer bytes; a
    /// full buffer drops the byte and sets the past-end flag.
    pub fn put_u8(&mut self, val: u8)
        requires
            old(self).wf(),
        ensures
            final(self).wf(),
            final(self).cap() == old(self).cap(),
            old(self).pos() + 2 <= old(self).cap() ==> {
                &&& final(self).written() == old(self).written() + seq![nib_hi(val), nib_lo(val)]
                &&& final(self).pos() == old(self).pos() + 2
                &&& final(self).past_end() == old(self).past_end()
            },
            old(self).pos() + 2 > old(self).cap() ==> {
                &&& final(self).written() == old(self).written()
                &&& final(self).pos() == old(self).pos()
                &&& final(self).past_end()
            },
    {
        if self.nibbles_left() < 2 {
            self.is_past_end = true;
            return;
        }
        let ghost w0 = self.written();
        proof {
            assert(nib_hi(val) == (((val >> 4) as u8) & 0xf) && nib_lo(val) == (val & 0xf))
                by (bit_vector);
        }
        self.put_nibble(val >> 4);
        self.put_nibble(val);
        proof {
            assert(self.written() =~= w0 + seq![nib_hi(val), nib_lo(val)]);
        }
    }

    /// Overwrite one already-written nibble, for back-patching reserved
    /// header space.
    pub fn set_nibble_at(&mut self, pos: usize, nib: u8)
        requires
            old(self).wf(),
            pos < old(self).pos(),
        ensures
            final(self).wf(),
            final(self).cap() == old(self).cap(),
            final(self).pos() == old(self).pos(),
            final(self).past_end() == old(self).past_end(),
            final(self).written() == old(self).written().update(pos as int, nib & 0xf),
    {
        let ghost d0 = self.buf@;
        let ghost p0 = self.pos();
        let byte = self.buf[pos / 2];
        if pos % 2 == 0 {
            self.buf[pos / 2] = (byte & 0xf) | (nib << 4);
            proof {
                let b2 = (byte & 0xf) | (nib << 4);
                assert(nib_hi(b2) == (nib & 0xf) && nib_lo(b2) == nib_lo(byte)) by (bit_vector)
                    requires
                        b2 == (byte & 0xf) | (nib << 4),
                ;
                lemma_written_update(d0, self.buf@, p0, pos as int, nib & 0xf);
            }
        } else {
            self.buf[pos / 2] = (byte & 0xf0) | (nib & 0xf);
            proof {
                let b2 = (byte & 0xf0) | (nib & 0xf);
                assert(nib_hi(b2) == nib_hi(byte) && nib_lo(b2) == (nib & 0xf)) by (bit_vector)
                    requires
                        b2 == (byte & 0xf0) | (nib & 0xf),
                ;
                lemma_written_update(d0, self.buf@, p0, pos as int, nib & 0xf);
            }
        }
    }

    /// Write `val` in vlu4 form.  When the encoding does not fit in the
    /// remaining space, nothing is written and the past-end flag is set.
    pub fn put_vlu4_u32(&mut self, val: u32)
        requires
            old(self).wf(),
        ensures
            final(self).wf(),
            final(self).cap() == old(self).cap(),
            old(self).pos() + vlu4_len(val as int) <= old(self).cap() ==> {
                &&& final(self).written() == old(self).written() + vlu4_enc(val as int)
                &&& final(self).pos() == old(self).pos() + vlu4_len(val as int)
                &&& final(self).past_end() == old(self).past_end()
            },
            old(self).pos() + vlu4_len(val as int) > old(self).cap() ==> {
                &&& final(self).written() == old(self).written()
                &&& final(self).pos() == old(self).pos()
                &&& final(self).past_end()
            },
    {
        let mut pre: Vec<u8> = Vec::new();
        let mut m: u32 = val / 8;
        while m > 0
            invariant
                vlu4_enc_pre((val / 8) as int) == vlu4_enc_pre(m as int) + pre@.reverse(),
                vlu4_enc_pre((val / 8) as int).len() == vlu4_enc_pre(m as int).len() + pre@.len(),
                forall|j: int| 0 <= j < pre@.len() ==> (#[trigger] pre@[j]) < 16,
            decreases m,
        {
            proof {
                let mi = m as int;
                assert(vlu4_enc_pre(mi) == vlu4_enc_pre(mi / 8).push((mi % 8 + 8) as u8));
                assert((vlu4_enc_pre(mi / 8) + pre@.push((mi % 8 + 8) as u8).reverse()) =~= (
                vlu4_enc_pre(mi) + pre@.reverse()));
            }
            pre.push((m % 8 + 8) as u8);
            m = m / 8;
        }
        proof {
            assert(vlu4_enc_pre((val / 8) as int) =~= pre@.reverse());
            assert(vlu4_enc(val as int).len() == pre@.len() + 1);
            reveal_with_fuel(pow8, 11);
            lemma_vlu4_enc_pre_len((val / 8) as int, 10);
        }
        if self.nibbles_left() < pre.len() + 1 {
            self.is_past_end = true;
            return;
        }
        let ghost w0 = self.written();
        let ghost enc = vlu4_enc(val as int);
        let mut i: usize = pre.len();
        while i > 0
            invariant
                self.wf(),
                self.cap() == old(self).cap(),
                self.past_end() == old(self).past_end(),
                i <= pre@.len(),
                vlu4_enc_pre((val / 8) as int) == pre@.reverse(),
                self.pos() == old(self).pos() + (pre@.len() - i),
                self.pos() + i + 1 <= self.cap(),
                self.written() == w0 + pre@.reverse().take(pre@.len() - i),
                w0 == old(self).written(),
                forall|j: int| 0 <= j < pre@.len() ==> (#[trigger] pre@[j]) < 16,
            decreases i,
        {
            i = i - 1;
            let ghost w1 = self.written();
            self.put_nibble(pre[i]);
            proof {
                let d = pre@[i as int];
                assert(d & 0xf == d) by (bit_vector)
                    requires
                        d < 16,
                ;
                assert(self.written() =~= w0 + pre@.reverse().take(pre@.len() - i));
            }
        }
        let ghost w2 = self.written();
        self.put_nibble((val % 8) as u8);
        proof {
            let last = (val % 8) as u8;
            assert(last & 0xf == last) by (bit_vector)
                requires
                    last == (val % 8) as u8,
            ;
            assert(pre@.reverse().take(pre@.len() as int) =~= pre@.reverse());
            assert(self.written() =~= old(self).written() + vlu4_enc(val as int));
        }
    }
}

/// Law: position tracking.  However many nibbles a reader has consumed, its
/// byte index equals half that count rounded down, and it reports a byte
/// boundary exactly when the count is even.
pub proof fn lemma_position_tracking(r: &NibbleBuf)
    requires
        r.wf(),
    ensures
        r.byte_index() == r.pos() / 2,
        r.boundary() <==> r.pos() % 2 == 0,
{
}

/// Every continuation-marked digit is below 16 and has its top bit set.
pub proof fn lemma_vlu4_enc_pre_digits(m: int)
    requires
        0 <= m,
    ensures
        forall|j: int| 0 <= j < vlu4_enc_pre(m).len() ==> ((#[trigger] vlu4_enc_pre(m)[j]) & 8)
            != 0 && vlu4_enc_pre(m)[j] < 16,
    decreases m,
{
    if m > 0 {
        lemma_vlu4_enc_pre_digits(m / 8);
        let d = (m % 8 + 8) as u8;
        let r = (m % 8) as u8;
        assert(d & 8 != 0 && d < 16) by (bit_vector)
            requires
                r < 8,
                d == r + 8,
        ;
        let s = vlu4_enc_pre(m);
        assert forall|j: int| 0 <= j < s.len() implies ((#[trigger] s[j]) & 8) != 0 && s[j]
            < 16 by {
            if j < s.len() - 1 {
                assert(s[j] == vlu4_enc_pre(m / 8)[j]);
            } else {
                assert(s[j] == d);
            }
        }
    }
}

/// Decoding the continuation-marked digits of `m` gives back `m`.
pub proof fn lemma_vlu4_enc_pre_val(m: int)
    requires
        0 <= m < 0x1_0000_0000,
    ensures
        vlu4_val(vlu4_enc_pre(m)) == m,
    decreases m,
{
    if m > 0 {
        lemma_vlu4_enc_pre_val(m / 8);
        let d = (m % 8 + 8) as u8;
        let r = (m % 8) as u8;
        assert(d & 7 == r) by (bit_vector)
            requires
                r < 8,
                d == r + 8,
        ;
        assert(vlu4_enc_pre(m).drop_last() == vlu4_enc_pre(m / 8));
        assert((m / 8) * 8 + m % 8 == m);
    }
}

/// Decoding the full vlu4 encoding of `n` gives back `n`.
pub proof fn lemma_vlu4_enc_val(n: u32)
    ensures
        vlu4_val(vlu4_enc(n as int)) == n,
{
    lemma_vlu4_enc_pre_val(n as int / 8);
    let d = (n as int % 8) as u8;
    assert(d & 7 == d) by (bit_vector)
        requires
            d < 8,
    ;
    assert(vlu4_enc(n as int).drop_last() == vlu4_enc_pre(n as int / 8));
    assert((n as int / 8) * 8 + n as int % 8 == n as int);
}

/// Law: round trip.  For every `u32`, the stream produced by `put_vlu4_u32`
/// scans as one complete number of exactly `vlu4_len(n)` nibbles, and its
/// value — what `get_vlu4_u32` returns — is `n` again.
pub proof fn lemma_vlu4_round_trip(n: u32, nibs: Seq<u8>, pos: int)
    requires
        0 <= pos,
        pos + vlu4_len(n as int) <= nibs.len(),
        nibs.subrange(pos, pos + vlu4_len(n as int)) == vlu4_enc(n as int),
    ensures
        vlu4_scan(nibs, pos) == VluScan::Done(vlu4_len(n as int)),
        vlu4_val(nibs.subrange(pos, pos + vlu4_len(n as int))) == n,
{
    let l = vlu4_len(n as int);
    let pre_len = l - 1;
    lemma_vlu4_enc_pre_digits(n as int / 8);
    reveal_with_fuel(pow8, 11);
    lemma_vlu4_enc_pre_len(n as int / 8, 10);
    assert forall|j: int| 0 <= j < pre_len implies (#[trigger] nibs[pos + j]) & 8 != 0 by {
        assert(nibs[pos + j] == nibs.subrange(pos, pos + l)[j]);
        assert(vlu4_enc(n as int)[j] == vlu4_enc_pre(n as int / 8)[j]);
    }
    lemma_vlu4_scan_shift(nibs, pos, 0, pre_len);
    let d = (n as int % 8) as u8;
    assert(nibs[pos + pre_len] == vlu4_enc(n as int)[pre_len]);
    assert(d & 8 == 0) by (bit_vector)
        requires
            d < 8,
    ;
    assert(vlu4_scan_at(nibs, pos + pre_len, pre_len) == VluScan::Done(1));
    lemma_vlu4_enc_val(n);
}

/// A completed scan consumed between one nibble and the rest of the stream.
pub proof fn lemma_vlu4_scan_bounds(nibs: Seq<u8>, pos: int, depth: int)
    requires
        0 <= depth <= 10,
    ensures
        vlu4_scan_at(nibs, pos, depth) matches VluScan::Done(k) ==> 1 <= k && 0 <= pos && pos + k
            <= nibs.len(),
    decreases 10 - depth,
{
    if 0 <= pos && pos < nibs.len() && nibs[pos] & 8 != 0 && depth < 10 {
        lemma_vlu4_scan_bounds(nibs, pos + 1, depth + 1);
    }
}

/// Eight to the power `k`.
pub open spec fn pow8(k: nat) -> int
    decreases k,
{
    if k == 0 {
        1
    } else {
        8 * pow8((k - 1) as nat)
    }
}

/// A value below `8^k` has at most `k` continuation-marked digits.
pub proof fn lemma_vlu4_enc_pre_len(m: int, k: nat)
    requires
        0 <= m,
        m < pow8(k),
    ensures
        vlu4_enc_pre(m).len() <= k,
    decreases k,
{
    if m > 0 {
        assert(pow8(k) == 8 * pow8((k - 1) as nat));
        lemma_vlu4_enc_pre_len(m / 8, (k - 1) as nat);
    }
}

/// Appending one nibble: if `d2` differs from `d1` only in the byte holding
/// nibble position `p`, with earlier nibbles kept and nibble `p` now `nib`,
/// the written prefix grows by exactly that nibble.
proof fn lemma_written_extend(d1: Seq<u8>, d2: Seq<u8>, p: int, nib: u8)
    requires
        d1.len() == d2.len(),
        0 <= p < 2 * d1.len(),
        forall|i: int| 0 <= i < d1.len() && i != p / 2 ==> d1[i] == #[trigger] d2[i],
        forall|i: int| 0 <= i < p ==> nibbles_of(d1)[i] == #[trigger] nibbles_of(d2)[i],
        nibbles_of(d2)[p] == nib,
    ensures
        nibbles_of(d2).take(p + 1) == nibbles_of(d1).take(p).push(nib),
{
    assert(nibbles_of(d2).take(p + 1) =~= nibbles_of(d1).take(p).push(nib));
}

/// Patching one nibble below the write position updates exactly that element
/// of the written prefix.
proof fn lemma_written_update(d1: Seq<u8>, d2: Seq<u8>, p: int, at: int, nib: u8)
    requires
        d1.len() == d2.len(),
        0 <= at < p <= 2 * d1.len(),
        forall|i: int| 0 <= i < d1.len() && i != at / 2 ==> d1[i] == #[trigger] d2[i],
        forall|i: int| 0 <= i < 2 * d1.len() && i != at ==> nibbles_of(d1)[i] == #[trigger] nibbles_of(d2)[i],
        nibbles_of(d2)[at] == nib,
    ensures
        nibbles_of(d2).take(p) == nibbles_of(d1).take(p).update(at, nib),
{
    assert(nibbles_of(d2).take(p) =~= nibbles_of(d1).take(p).update(at, nib));
}

/// Scanning from `start` with `i` continuation nibbles already consumed gives
/// the same outcome as the full scan, with the count shifted by `i`.
pub proof fn lemma_vlu4_scan_shift(nibs: Seq<u8>, start: int, depth: int, i: int)
    requires
        0 <= start,
        0 <= depth,
        0 <= i,
        depth + i <= 10,
        start + i <= nibs.len(),
        forall|j: int| 0 <= j < i ==> (#[trigger] nibs[start + j]) & 8 != 0,
    ensures
        vlu4_scan_at(nibs, start, depth) == match vlu4_scan_at(nibs, start + i, depth + i) {
            VluScan::Done(k) => VluScan::Done(k + i),
            o => o,
        },
    decreases i,
{
    if i > 0 {
        assert(nibs[start + 0] & 8 != 0);
        assert forall|j: int| 0 <= j < i - 1 implies (#[trigger] nibs[start + 1 + j]) & 8
            != 0 by {
            assert(nibs[start + (j + 1)] & 8 != 0);
        }
        lemma_vlu4_scan_shift(nibs, start + 1, depth + 1, i - 1);
    }
}

} // verus!
