//! Wire encodings of the addressing structures, with their round trips:
//! what each writer appends is stated as a spec encoding, and parsing an
//! encoding gives back the encoded value.

use vstd::prelude::*;
use crate::nibble_buf::{
    NibbleBuf, NibbleBufMut, VluScan, lemma_vlu4_round_trip, nib_hi, nib_lo, nibbles_of,
    vlu4_enc, vlu4_len, vlu4_scan, vlu4_val,
};
use crate::vlu4::vlu4_seq_parse;
use crate::uri::{
    MaskView, MultiUri, UriMask, byte_at, mask_parse, multi_uri_pairs_parse, multi_uri_parse,
};

verus! {

/// The two nibbles of one byte.
pub open spec fn byte_nibs(b: u8) -> Seq<u8> {
    seq![nib_hi(b), nib_lo(b)]
}

/// The four nibbles of one big-endian `u16`.
pub open spec fn u16_nibs(b: u16) -> Seq<u8> {
    byte_nibs((b / 256) as u8) + byte_nibs((b % 256) as u8)
}

/// The eight nibbles of one big-endian `u32`.
pub open spec fn u32_nibs(b: u32) -> Seq<u8> {
    byte_nibs((b / 0x1000000) as u8) + byte_nibs(((b / 0x10000) % 256) as u8) + byte_nibs(
        ((b / 0x100) % 256) as u8,
    ) + byte_nibs((b % 256) as u8)
}

/// The vlu4 encodings of a number list, concatenated.
pub open spec fn vlu4_seq_enc(items: Seq<u32>) -> Seq<u8>
    decreases items.len(),
{
    if items.len() == 0 {
        Seq::empty()
    } else {
        vlu4_enc(items[0] as int) + vlu4_seq_enc(items.skip(1))
    }
}

/// A whole vlu4 number array: the count, then the items.
pub open spec fn vlu4_arr_enc(items: Seq<u32>) -> Seq<u8> {
    vlu4_enc(items.len() as int) + vlu4_seq_enc(items)
}

/// A mask: its kind nibble, then its body.
pub open spec fn mask_enc(mv: MaskView) -> Seq<u8> {
    match mv {
        MaskView::Bits8(b) => seq![0u8] + byte_nibs(b),
        MaskView::Bits16(b) => seq![1u8] + u16_nibs(b),
        MaskView::Bits32(b) => seq![2u8] + u32_nibs(b),
        MaskView::Indices(ix) => seq![5u8] + vlu4_arr_enc(ix),
        MaskView::All(n) => seq![6u8] + vlu4_enc(n as int),
    }
}

/// The (URI, mask) pairs of a multi-URI, concatenated.
pub open spec fn mu_pairs_enc(pv: Seq<(Seq<u32>, MaskView)>) -> Seq<u8>
    decreases pv.len(),
{
    if pv.len() == 0 {
        Seq::empty()
    } else {
        vlu4_arr_enc(pv[0].0) + mask_enc(pv[0].1) + mu_pairs_enc(pv.skip(1))
    }
}

/// A whole multi-URI: the pair count, then the pairs.
pub open spec fn multi_uri_enc(pv: Seq<(Seq<u32>, MaskView)>) -> Seq<u8> {
    vlu4_enc(pv.len() as int) + mu_pairs_enc(pv)
}

/// Appending one number extends the encoding at the back.
pub proof fn lemma_vlu4_seq_enc_snoc(items: Seq<u32>, x: u32)
    ensures
        vlu4_seq_enc(items.push(x)) == vlu4_seq_enc(items) + vlu4_enc(x as int),
    decreases items.len(),
{
    if items.len() == 0 {
        assert(items.push(x)[0] == x);
        assert(items.push(x).skip(1) =~= Seq::<u32>::empty());
        assert(vlu4_seq_enc(items.push(x)) == vlu4_enc(x as int) + vlu4_seq_enc(
            items.push(x).skip(1),
        ));
        assert(vlu4_enc(x as int) + Seq::<u8>::empty() =~= vlu4_enc(x as int));
        assert(vlu4_seq_enc(items) + vlu4_enc(x as int) =~= vlu4_enc(x as int));
    } else {
        lemma_vlu4_seq_enc_snoc(items.skip(1), x);
        assert(items.push(x).skip(1) =~= items.skip(1).push(x));
        assert(items.push(x)[0] == items[0]);
        assert((vlu4_enc(items[0] as int) + (vlu4_seq_enc(items.skip(1)) + vlu4_enc(x as int)))
            =~= ((vlu4_enc(items[0] as int) + vlu4_seq_enc(items.skip(1))) + vlu4_enc(
            x as int)));
    }
}

/// Parsing the encoding of a number list yields the list.
pub proof fn lemma_vlu4_seq_round_trip(items: Seq<u32>, nibs: Seq<u8>, pos: int)
    requires
        0 <= pos,
        pos + vlu4_seq_enc(items).len() <= nibs.len(),
        nibs.subrange(pos, pos + vlu4_seq_enc(items).len()) == vlu4_seq_enc(items),
    ensures
        vlu4_seq_parse(nibs, pos, items.len() as int) == Some(
            (items, pos + vlu4_seq_enc(items).len()),
        ),
    decreases items.len(),
{
    if items.len() > 0 {
        let e0 = vlu4_enc(items[0] as int);
        let rest = vlu4_seq_enc(items.skip(1));
        assert(vlu4_seq_enc(items) == e0 + rest);
        assert(nibs.subrange(pos, pos + e0.len()) =~= e0) by {
            assert forall|i: int| 0 <= i < e0.len() implies nibs.subrange(pos, pos + e0.len())[i]
                == e0[i] by {
                assert(nibs[pos + i] == vlu4_seq_enc(items)[i]);
            }
        }
        lemma_vlu4_round_trip(items[0], nibs, pos);
        let p1 = pos + e0.len();
        assert(nibs.subrange(p1, p1 + rest.len()) =~= rest) by {
            assert forall|i: int| 0 <= i < rest.len() implies nibs.subrange(
                p1,
                p1 + rest.len(),
            )[i] == rest[i] by {
                assert(nibs[p1 + i] == vlu4_seq_enc(items)[e0.len() + i]);
            }
        }
        lemma_vlu4_seq_round_trip(items.skip(1), nibs, p1);
        assert(vlu4_len(items[0] as int) == e0.len());
        assert(seq![items[0]] + items.skip(1) =~= items);
    }
}

/// Parsing the encoding of a whole number array yields the array.
pub proof fn lemma_vlu4_arr_round_trip(items: Seq<u32>, nibs: Seq<u8>, pos: int)
    requires
        0 <= pos,
        items.len() < 0x1_0000_0000,
        pos + vlu4_arr_enc(items).len() <= nibs.len(),
        nibs.subrange(pos, pos + vlu4_arr_enc(items).len()) == vlu4_arr_enc(items),
    ensures
        ({
            let ce = vlu4_enc(items.len() as int);
            &&& vlu4_scan(nibs, pos) == VluScan::Done(ce.len() as int)
            &&& vlu4_val(nibs.subrange(pos, pos + ce.len())) == items.len()
            &&& vlu4_seq_parse(nibs, pos + ce.len(), items.len() as int) == Some(
                (items, pos + vlu4_arr_enc(items).len()),
            )
        }),
{
    let ce = vlu4_enc(items.len() as int);
    let se = vlu4_seq_enc(items);
    assert(vlu4_arr_enc(items) == ce + se);
    assert(nibs.subrange(pos, pos + ce.len()) =~= ce) by {
        assert forall|i: int| 0 <= i < ce.len() implies nibs.subrange(pos, pos + ce.len())[i]
            == ce[i] by {
            assert(nibs[pos + i] == vlu4_arr_enc(items)[i]);
        }
    }
    lemma_vlu4_round_trip(items.len() as u32, nibs, pos);
    let p1 = pos + ce.len();
    assert(nibs.subrange(p1, p1 + se.len()) =~= se) by {
        assert forall|i: int| 0 <= i < se.len() implies nibs.subrange(p1, p1 + se.len())[i]
            == se[i] by {
            assert(nibs[p1 + i] == vlu4_arr_enc(items)[ce.len() + i]);
        }
    }
    lemma_vlu4_seq_round_trip(items, nibs, p1);
}

/// A nibble-sized value is unchanged by the low-nibble mask.
proof fn lemma_small_nib(n: u8)
    requires
        n < 16,
    ensures
        n & 0xf == n,
{
    assert(n < 16 ==> n & 0xf == n) by (bit_vector);
}

/// A byte round-trips through its two nibbles.
proof fn lemma_byte_nibs(b: u8)
    ensures
        nib_hi(b) * 16 + nib_lo(b) == b,
        nib_hi(b) < 16,
        nib_lo(b) < 16,
{
}

/// Parsing the encoding of a mask yields the mask.
pub proof fn lemma_mask_round_trip(mv: MaskView, nibs: Seq<u8>, pos: int)
    requires
        0 <= pos,
        (mv matches MaskView::Indices(ix) ==> ix.len() < 0x1_0000_0000),
        pos + mask_enc(mv).len() <= nibs.len(),
        nibs.subrange(pos, pos + mask_enc(mv).len()) == mask_enc(mv),
    ensures
        mask_parse(nibs, pos) == Some((mv, pos + mask_enc(mv).len())),
{
    let e = mask_enc(mv);
    assert forall|i: int| 0 <= i < e.len() implies nibs[pos + i] == e[i] by {
        assert(nibs.subrange(pos, pos + e.len())[i] == e[i]);
    }
    assert(nibs[pos] == e[0]) by {
        assert(nibs.subrange(pos, pos + e.len())[0] == e[0]);
    }
    match mv {
        MaskView::Bits8(b) => {
            assert(e[0] == 0u8 && e[1] == nib_hi(b) && e[2] == nib_lo(b)) by {
                assert(e[0] == seq![0u8][0]);
                assert(e[1] == byte_nibs(b)[0] && e[2] == byte_nibs(b)[1]);
            }
            lemma_byte_nibs(b);
            assert(byte_at(nibs, pos + 1) == b);
            assert(e.len() == 3);
        },
        MaskView::Bits16(b) => {
            let hi = (b / 256) as u8;
            let lo = (b % 256) as u8;
            assert(e[1] == nib_hi(hi) && e[2] == nib_lo(hi) && e[3] == nib_hi(lo) && e[4]
                == nib_lo(lo)) by {
                assert(u16_nibs(b)[0] == nib_hi(hi) && u16_nibs(b)[1] == nib_lo(hi) && u16_nibs(
                b)[2] == nib_hi(lo) && u16_nibs(b)[3] == nib_lo(lo));
            }
            lemma_byte_nibs(hi);
            lemma_byte_nibs(lo);
            assert(byte_at(nibs, pos + 1) == hi);
            assert(byte_at(nibs, pos + 3) == lo);
            assert(b / 256 < 256 && b % 256 < 256);
            assert((hi as int) * 256 + (lo as int) == b);
        },
        MaskView::Bits32(b) => {
            let b3 = (b / 0x1000000) as u8;
            let b2 = ((b / 0x10000) % 256) as u8;
            let b1 = ((b / 0x100) % 256) as u8;
            let b0 = (b % 256) as u8;
            assert(e[1] == nib_hi(b3) && e[2] == nib_lo(b3) && e[3] == nib_hi(b2) && e[4]
                == nib_lo(b2) && e[5] == nib_hi(b1) && e[6] == nib_lo(b1) && e[7] == nib_hi(b0)
                && e[8] == nib_lo(b0)) by {
                assert(u32_nibs(b)[0] == nib_hi(b3) && u32_nibs(b)[1] == nib_lo(b3) && u32_nibs(
                b)[2] == nib_hi(b2) && u32_nibs(b)[3] == nib_lo(b2) && u32_nibs(b)[4] == nib_hi(
                b1) && u32_nibs(b)[5] == nib_lo(b1) && u32_nibs(b)[6] == nib_hi(b0) && u32_nibs(
                b)[7] == nib_lo(b0));
            }
            lemma_byte_nibs(b3);
            lemma_byte_nibs(b2);
            lemma_byte_nibs(b1);
            lemma_byte_nibs(b0);
            assert(byte_at(nibs, pos + 1) == b3);
            assert(byte_at(nibs, pos + 3) == b2);
            assert(byte_at(nibs, pos + 5) == b1);
            assert(byte_at(nibs, pos + 7) == b0);
            assert(b / 0x1000000 < 256);
            assert((b3 as int) == b / 0x1000000 && (b2 as int) == (b / 0x10000) % 256 && (
            b1 as int) == (b / 0x100) % 256 && (b0 as int) == b % 256);
            assert(b == (b / 0x1000000) * 0x1000000 + ((b / 0x10000) % 256) * 0x10000 + ((b
                / 0x100) % 256) * 0x100 + b % 256) by (nonlinear_arith);
        },
        MaskView::Indices(ix) => {
            let ae = vlu4_arr_enc(ix);
            assert(nibs.subrange(pos + 1, pos + 1 + ae.len()) =~= ae) by {
                assert forall|i: int| 0 <= i < ae.len() implies nibs.subrange(
                    pos + 1,
                    pos + 1 + ae.len(),
                )[i] == ae[i] by {
                    assert(nibs[pos + 1 + i] == e[1 + i]);
                }
            }
            lemma_vlu4_arr_round_trip(ix, nibs, pos + 1);
        },
        MaskView::All(n) => {
            let ne = vlu4_enc(n as int);
            assert(nibs.subrange(pos + 1, pos + 1 + ne.len()) =~= ne) by {
                assert forall|i: int| 0 <= i < ne.len() implies nibs.subrange(
                    pos + 1,
                    pos + 1 + ne.len(),
                )[i] == ne[i] by {
                    assert(nibs[pos + 1 + i] == e[1 + i]);
                }
            }
            lemma_vlu4_round_trip(n, nibs, pos + 1);
        },
    }
}

/// A multi-URI pair list is well sized when every path list and index list
/// fits a vlu4 count.
pub open spec fn mu_pairs_wf(pv: Seq<(Seq<u32>, MaskView)>) -> bool {
    forall|i: int|
        0 <= i < pv.len() ==> (#[trigger] pv[i]).0.len() < 0x1_0000_0000 && (pv[i].1 matches
        MaskView::Indices(ix) ==> ix.len() < 0x1_0000_0000)
}

/// Parsing the encoding of a pair list yields the pairs.
pub proof fn lemma_mu_pairs_round_trip(pv: Seq<(Seq<u32>, MaskView)>, nibs: Seq<u8>, pos: int)
    requires
        0 <= pos,
        mu_pairs_wf(pv),
        pos + mu_pairs_enc(pv).len() <= nibs.len(),
        nibs.subrange(pos, pos + mu_pairs_enc(pv).len()) == mu_pairs_enc(pv),
    ensures
        multi_uri_pairs_parse(nibs, pos, pv.len() as int) == Some(
            (pv, pos + mu_pairs_enc(pv).len()),
        ),
    decreases pv.len(),
{
    let e = mu_pairs_enc(pv);
    assert forall|i: int| 0 <= i < e.len() implies nibs[pos + i] == e[i] by {
        assert(nibs.subrange(pos, pos + e.len())[i] == e[i]);
    }
    if pv.len() > 0 {
        let ae = vlu4_arr_enc(pv[0].0);
        let me = mask_enc(pv[0].1);
        let rest = mu_pairs_enc(pv.skip(1));
        assert(e == ae + me + rest);
        assert(nibs.subrange(pos, pos + ae.len()) =~= ae) by {
            assert forall|i: int| 0 <= i < ae.len() implies nibs.subrange(pos, pos + ae.len())[i]
                == ae[i] by {
                assert(e[i] == (ae + me)[i]);
            }
        }
        lemma_vlu4_arr_round_trip(pv[0].0, nibs, pos);
        let p1 = pos + ae.len();
        assert(nibs.subrange(p1, p1 + me.len()) =~= me) by {
            assert forall|i: int| 0 <= i < me.len() implies nibs.subrange(p1, p1 + me.len())[i]
                == me[i] by {
                assert(e[ae.len() + i] == (ae + me)[ae.len() + i]);
            }
        }
        lemma_mask_round_trip(pv[0].1, nibs, p1);
        let p2 = p1 + me.len();
        assert(nibs.subrange(p2, p2 + rest.len()) =~= rest) by {
            assert forall|i: int| 0 <= i < rest.len() implies nibs.subrange(
                p2,
                p2 + rest.len(),
            )[i] == rest[i] by {
                assert(nibs[p2 + i] == e[ae.len() + me.len() + i]);
            }
        }
        assert(mu_pairs_wf(pv.skip(1))) by {
            assert forall|i: int| 0 <= i < pv.skip(1).len() implies (#[trigger] pv.skip(1)[i]).0.len()
                < 0x1_0000_0000 && (pv.skip(1)[i].1 matches MaskView::Indices(ix) ==> ix.len()
                < 0x1_0000_0000) by {
                assert(pv.skip(1)[i] == pv[i + 1]);
            }
        }
        lemma_mu_pairs_round_trip(pv.skip(1), nibs, p2);
        assert(seq![pv[0]] + pv.skip(1) =~= pv);
        let ce = vlu4_enc(pv[0].0.len() as int);
        assert(vlu4_seq_parse(nibs, pos + ce.len(), pv[0].0.len() as int) == Some(
            (pv[0].0, pos + ae.len()),
        ));
    }
}

/// Parsing the encoding of a whole multi-URI yields its pairs.
pub proof fn lemma_multi_uri_round_trip(pv: Seq<(Seq<u32>, MaskView)>, nibs: Seq<u8>, pos: int)
    requires
        0 <= pos,
        mu_pairs_wf(pv),
        pv.len() < 0x1_0000_0000,
        pos + multi_uri_enc(pv).len() <= nibs.len(),
        nibs.subrange(pos, pos + multi_uri_enc(pv).len()) == multi_uri_enc(pv),
    ensures
        multi_uri_parse(nibs, pos) == Some((pv, pos + multi_uri_enc(pv).len())),
{
    let ce = vlu4_enc(pv.len() as int);
    let pe = mu_pairs_enc(pv);
    let e = multi_uri_enc(pv);
    assert forall|i: int| 0 <= i < e.len() implies nibs[pos + i] == e[i] by {
        assert(nibs.subrange(pos, pos + e.len())[i] == e[i]);
    }
    assert(nibs.subrange(pos, pos + ce.len()) =~= ce) by {
        assert forall|i: int| 0 <= i < ce.len() implies nibs.subrange(pos, pos + ce.len())[i]
            == ce[i] by {
            assert(nibs[pos + i] == e[i]);
        }
    }
    lemma_vlu4_round_trip(pv.len() as u32, nibs, pos);
    let p1 = pos + ce.len();
    assert(nibs.subrange(p1, p1 + pe.len()) =~= pe) by {
        assert forall|i: int| 0 <= i < pe.len() implies nibs.subrange(p1, p1 + pe.len())[i]
            == pe[i] by {
            assert(nibs[p1 + i] == e[ce.len() + i]);
        }
    }
    lemma_mu_pairs_round_trip(pv, nibs, p1);
}


/// The encoding of a number list splits at any boundary.
pub proof fn lemma_vlu4_seq_enc_split(items: Seq<u32>, i: int)
    requires
        0 <= i <= items.len(),
    ensures
        vlu4_seq_enc(items) == vlu4_seq_enc(items.take(i)) + vlu4_seq_enc(items.skip(i)),
    decreases i,
{
    if i == 0 {
        assert(items.skip(0) =~= items);
        assert(vlu4_seq_enc(items.take(0)) + vlu4_seq_enc(items) =~= vlu4_seq_enc(items));
    } else {
        let t = items.skip(1);
        lemma_vlu4_seq_enc_split(t, i - 1);
        assert(items.take(i).skip(1) =~= t.take(i - 1));
        assert(items.skip(i) =~= t.skip(i - 1));
        assert(items.take(i)[0] == items[0]);
        assert(vlu4_seq_enc(items.take(i)) == vlu4_enc(items[0] as int) + vlu4_seq_enc(
            t.take(i - 1),
        ));
        assert((vlu4_enc(items[0] as int) + (vlu4_seq_enc(t.take(i - 1)) + vlu4_seq_enc(t.skip(
            i - 1)))) =~= ((vlu4_enc(items[0] as int) + vlu4_seq_enc(t.take(i - 1)))
            + vlu4_seq_enc(t.skip(i - 1))));
    }
}

/// Write a whole vlu4 number array: the count, then the items.
#[verifier::loop_isolation(false)]
pub fn put_vlu4_array(wgr: &mut NibbleBufMut, items: &Vec<u32>) 
    requires
        old(wgr).wf(),
        items@.len() < 0x1_0000_0000,
    ensures
        final(wgr).wf(),
        final(wgr).cap() == old(wgr).cap(),
        old(wgr).pos() + vlu4_arr_enc(items@).len() <= old(wgr).cap() ==> {
            &&& final(wgr).written() == old(wgr).written() + vlu4_arr_enc(items@)
            &&& final(wgr).pos() == old(wgr).pos() + vlu4_arr_enc(items@).len()
            &&& final(wgr).past_end() == old(wgr).past_end()
        },
        old(wgr).pos() + vlu4_arr_enc(items@).len() > old(wgr).cap() ==> final(wgr).past_end(),
{
    let ghost w0 = wgr.written();
    let ghost p0 = wgr.pos();
    let ghost e = vlu4_arr_enc(items@);
    let ghost ce = vlu4_enc(items@.len() as int);
    wgr.put_vlu4_u32(items.len() as u32);
    let mut i: usize = 0;
    while i < items.len()
        invariant
            wgr.wf(),
            wgr.cap() == old(wgr).cap(),
            i <= items@.len(),
            p0 + e.len() <= wgr.cap() ==> {
                &&& wgr.written() == w0 + ce + vlu4_seq_enc(items@.take(i as int))
                &&& wgr.pos() == p0 + ce.len() + vlu4_seq_enc(items@.take(i as int)).len()
                &&& wgr.past_end() == old(wgr).past_end()
            },
            (wgr.written() == w0 + ce + vlu4_seq_enc(items@.take(i as int)) && wgr.pos() == p0
                + ce.len() + vlu4_seq_enc(items@.take(i as int)).len() && wgr.past_end() == old(
                wgr,
            ).past_end()) || wgr.past_end(),
        decreases items@.len() - i,
    {
        proof {
            lemma_vlu4_seq_enc_split(items@, i as int);
            lemma_vlu4_seq_enc_split(items@.skip(i as int), 1);
            assert(items@.skip(i as int).take(1) =~= seq![items@[i as int]]);
            assert(items@.skip(i as int).skip(1) =~= items@.skip(i + 1));
            assert(vlu4_seq_enc(seq![items@[i as int]]) =~= vlu4_enc(items@[i as int] as int)) by {
                assert(seq![items@[i as int]].skip(1) =~= Seq::<u32>::empty());
                assert(seq![items@[i as int]][0] == items@[i as int]);
                assert(vlu4_enc(items@[i as int] as int) + Seq::<u8>::empty() =~= vlu4_enc(
                    items@[i as int] as int));
            }
            lemma_vlu4_seq_enc_snoc(items@.take(i as int), items@[i as int]);
            assert(items@.take(i as int).push(items@[i as int]) =~= items@.take(i + 1));
        }
        let ghost wpre = wgr.written();
        wgr.put_vlu4_u32(items[i]);
        proof {
            if wpre == w0 + ce + vlu4_seq_enc(items@.take(i as int)) && !wgr.past_end() {
                assert(wgr.written() =~= w0 + ce + vlu4_seq_enc(items@.take(i + 1)));
            }
            if p0 + e.len() <= wgr.cap() {
                assert(wgr.written() =~= w0 + ce + vlu4_seq_enc(items@.take(i + 1)));
            }
        }
        i = i + 1;
    }
    proof {
        assert(items@.take(items@.len() as int) =~= items@);
        if p0 + e.len() <= wgr.cap() {
            assert(wgr.written() =~= w0 + e);
        }
    }
}

/// Write the nibbles of a byte sequence.
#[verifier::loop_isolation(false)]
pub fn put_bytes(wgr: &mut NibbleBufMut, bytes: &Vec<u8>)
    requires
        old(wgr).wf(),
    ensures
        final(wgr).wf(),
        final(wgr).cap() == old(wgr).cap(),
        old(wgr).pos() + 2 * bytes@.len() <= old(wgr).cap() ==> {
            &&& final(wgr).written() == old(wgr).written() + nibbles_of(bytes@)
            &&& final(wgr).pos() == old(wgr).pos() + 2 * bytes@.len()
            &&& final(wgr).past_end() == old(wgr).past_end()
        },
        old(wgr).pos() + 2 * bytes@.len() > old(wgr).cap() ==> final(wgr).past_end(),
{
    let ghost w0 = wgr.written();
    let ghost p0 = wgr.pos();
    let mut i: usize = 0;
    while i < bytes.len()
        invariant
            wgr.wf(),
            wgr.cap() == old(wgr).cap(),
            i <= bytes@.len(),
            p0 + 2 * bytes@.len() <= wgr.cap() ==> {
                &&& wgr.written() == w0 + nibbles_of(bytes@.take(i as int))
                &&& wgr.pos() == p0 + 2 * i
                &&& wgr.past_end() == old(wgr).past_end()
            },
            (wgr.written() == w0 + nibbles_of(bytes@.take(i as int)) && wgr.pos() == p0 + 2 * i
                && wgr.past_end() == old(wgr).past_end()) || wgr.past_end(),
        decreases bytes@.len() - i,
    {
        proof {
            assert(nibbles_of(bytes@.take(i + 1)) =~= nibbles_of(bytes@.take(i as int)) + seq![
                nib_hi(bytes@[i as int]),
                nib_lo(bytes@[i as int]),
            ]) by {
                assert forall|j: int| 0 <= j < 2 * (i + 1) implies nibbles_of(bytes@.take(i + 1))[j]
                    == (nibbles_of(bytes@.take(i as int)) + seq![
                    nib_hi(bytes@[i as int]),
                    nib_lo(bytes@[i as int]),
                ])[j] by {
                    assert(bytes@.take(i + 1)[j / 2] == bytes@[j / 2]);
                    if j < 2 * i {
                        assert(bytes@.take(i as int)[j / 2] == bytes@[j / 2]);
                    }
                }
            }
        }
        let ghost wpre = wgr.written();
        wgr.put_u8(bytes[i]);
        proof {
            if wpre == w0 + nibbles_of(bytes@.take(i as int)) && !wgr.past_end() {
                assert(wgr.written() =~= w0 + nibbles_of(bytes@.take(i + 1)));
            }
            if p0 + 2 * bytes@.len() <= wgr.cap() {
                assert(wgr.written() =~= w0 + nibbles_of(bytes@.take(i + 1)));
            }
        }
        i = i + 1;
    }
    proof {
        assert(bytes@.take(bytes@.len() as int) =~= bytes@);
    }
}

/// Write one mask: its kind nibble, then its body.
pub fn put_mask(wgr: &mut NibbleBufMut, m: &UriMask)
    requires
        old(wgr).wf(),
        m.wf(),
        (m.view() matches MaskView::Indices(ix) ==> ix.len() < 0x1_0000_0000),
    ensures
        final(wgr).wf(),
        final(wgr).cap() == old(wgr).cap(),
        old(wgr).pos() + mask_enc(m.view()).len() <= old(wgr).cap() ==> {
            &&& final(wgr).written() == old(wgr).written() + mask_enc(m.view())
            &&& final(wgr).pos() == old(wgr).pos() + mask_enc(m.view()).len()
            &&& final(wgr).past_end() == old(wgr).past_end()
        },
        old(wgr).pos() + mask_enc(m.view()).len() > old(wgr).cap() ==> final(wgr).past_end(),
{
    let ghost w0 = wgr.written();
    let ghost e = mask_enc(m.view());
    match m {
        UriMask::ByBitfield8(b) => {
            proof {
                lemma_small_nib(0);
            }
            wgr.put_nibble(0);
            wgr.put_u8(*b);
            proof {
                if old(wgr).pos() + e.len() <= old(wgr).cap() {
                    assert(wgr.written() =~= w0 + e);
                }
            }
        },
        UriMask::ByBitfield16(b) => {
            proof {
                lemma_small_nib(1);
            }
            wgr.put_nibble(1);
            wgr.put_u8((*b / 256) as u8);
            wgr.put_u8((*b % 256) as u8);
            proof {
                if old(wgr).pos() + e.len() <= old(wgr).cap() {
                    assert(wgr.written() =~= w0 + e);
                }
            }
        },
        UriMask::ByBitfield32(b) => {
            proof {
                lemma_small_nib(2);
            }
            wgr.put_nibble(2);
            wgr.put_u8((*b / 0x1000000) as u8);
            wgr.put_u8(((*b / 0x10000) % 256) as u8);
            wgr.put_u8(((*b / 0x100) % 256) as u8);
            wgr.put_u8((*b % 256) as u8);
            proof {
                if old(wgr).pos() + e.len() <= old(wgr).cap() {
                    assert(wgr.written() =~= w0 + e);
                }
            }
        },
        UriMask::ByIndices(arr) => {
            proof {
                lemma_small_nib(5);
            }
            wgr.put_nibble(5);
            let items = arr.to_vec();
            put_vlu4_array(wgr, &items);
            proof {
                assert(e =~= seq![5u8] + vlu4_arr_enc(arr.items()));
                if old(wgr).pos() + e.len() <= old(wgr).cap() {
                    assert(wgr.written() =~= w0 + e);
                }
            }
        },
        UriMask::All(n) => {
            proof {
                lemma_small_nib(6);
            }
            wgr.put_nibble(6);
            wgr.put_vlu4_u32(*n);
            proof {
                if old(wgr).pos() + e.len() <= old(wgr).cap() {
                    assert(wgr.written() =~= w0 + e);
                }
            }
        },
    }
}

/// The encoding of a pair list splits at any boundary.
pub proof fn lemma_mu_pairs_enc_split(pv: Seq<(Seq<u32>, MaskView)>, i: int)
    requires
        0 <= i <= pv.len(),
    ensures
        mu_pairs_enc(pv) == mu_pairs_enc(pv.take(i)) + mu_pairs_enc(pv.skip(i)),
    decreases i,
{
    if i == 0 {
        assert(pv.skip(0) =~= pv);
        assert(mu_pairs_enc(pv.take(0)) + mu_pairs_enc(pv) =~= mu_pairs_enc(pv));
    } else {
        let t = pv.skip(1);
        lemma_mu_pairs_enc_split(t, i - 1);
        assert(pv.take(i).skip(1) =~= t.take(i - 1));
        assert(pv.skip(i) =~= t.skip(i - 1));
        assert(pv.take(i)[0] == pv[0]);
        let h = vlu4_arr_enc(pv[0].0) + mask_enc(pv[0].1);
        assert(mu_pairs_enc(pv.take(i)) == h + mu_pairs_enc(t.take(i - 1)));
        assert((h + (mu_pairs_enc(t.take(i - 1)) + mu_pairs_enc(t.skip(i - 1)))) =~= ((h
            + mu_pairs_enc(t.take(i - 1))) + mu_pairs_enc(t.skip(i - 1))));
    }
}

/// Write one multi-URI: the pair count, then the pairs.
#[verifier::loop_isolation(false)]
pub fn put_multi_uri(wgr: &mut NibbleBufMut, mu: &MultiUri)
    requires
        old(wgr).wf(),
        mu.wf(),
        mu_pairs_wf(mu.pairs_view()),
        mu.pairs_view().len() < 0x1_0000_0000,
    ensures
        final(wgr).wf(),
        final(wgr).cap() == old(wgr).cap(),
        old(wgr).pos() + multi_uri_enc(mu.pairs_view()).len() <= old(wgr).cap() ==> {
            &&& final(wgr).written() == old(wgr).written() + multi_uri_enc(mu.pairs_view())
            &&& final(wgr).pos() == old(wgr).pos() + multi_uri_enc(mu.pairs_view()).len()
            &&& final(wgr).past_end() == old(wgr).past_end()
        },
        old(wgr).pos() + multi_uri_enc(mu.pairs_view()).len() > old(wgr).cap()
            ==> final(wgr).past_end(),
{
    let ghost pv = mu.pairs_view();
    let ghost w0 = wgr.written();
    let ghost p0 = wgr.pos();
    let ghost e = multi_uri_enc(pv);
    let ghost ce = vlu4_enc(pv.len() as int);
    proof {
        assert(e.len() == ce.len() + mu_pairs_enc(pv).len());
    }
    wgr.put_vlu4_u32(mu.len() as u32);
    proof {
        assert(mu_pairs_enc(pv.take(0)) == Seq::<u8>::empty());
        if p0 + e.len() <= wgr.cap() {
            assert(wgr.written() =~= w0 + ce + mu_pairs_enc(pv.take(0)));
        }
        if !wgr.past_end() && wgr.written() == w0 + ce {
            assert(wgr.written() =~= w0 + ce + mu_pairs_enc(pv.take(0)));
        }
    }
    let mut it = mu.iter();
    let ghost total = pv.len();
    let mut i: usize = 0;
    while i < mu.len()
        invariant
            wgr.wf(),
            wgr.cap() == old(wgr).cap(),
            it.wf(),
            i <= pv.len(),
            it.remaining() == pv.skip(i as int),
            p0 + e.len() <= wgr.cap() ==> {
                &&& wgr.written() == w0 + ce + mu_pairs_enc(pv.take(i as int))
                &&& wgr.pos() == p0 + ce.len() + mu_pairs_enc(pv.take(i as int)).len()
                &&& wgr.past_end() == old(wgr).past_end()
            },
            (wgr.written() == w0 + ce + mu_pairs_enc(pv.take(i as int)) && wgr.pos() == p0
                + ce.len() + mu_pairs_enc(pv.take(i as int)).len() && wgr.past_end() == old(
                wgr,
            ).past_end()) || wgr.past_end(),
        decreases pv.len() - i,
    {
        proof {
            lemma_mu_pairs_enc_split(pv, i as int);
            lemma_mu_pairs_enc_split(pv.skip(i as int), 1);
            assert(pv.skip(i as int).take(1) =~= seq![pv[i as int]]);
            assert(pv.skip(i as int).skip(1) =~= pv.skip(i + 1));
            assert(mu_pairs_enc(seq![pv[i as int]]) =~= vlu4_arr_enc(pv[i as int].0) + mask_enc(
                pv[i as int].1)) by {
                assert(seq![pv[i as int]].skip(1) =~= Seq::<(Seq<u32>, MaskView)>::empty());
                assert(seq![pv[i as int]][0] == pv[i as int]);
                assert((vlu4_arr_enc(pv[i as int].0) + mask_enc(pv[i as int].1)) + Seq::<
                    u8,
                >::empty() =~= vlu4_arr_enc(pv[i as int].0) + mask_enc(pv[i as int].1));
            }
            assert(pv.take(i as int).push(pv[i as int]) =~= pv.take(i + 1));
            assert(mu_pairs_enc(pv.take(i + 1)) =~= mu_pairs_enc(pv.take(i as int))
                + vlu4_arr_enc(pv[i as int].0) + mask_enc(pv[i as int].1)) by {
                lemma_mu_pairs_enc_split(pv.take(i + 1), i as int);
                assert(pv.take(i + 1).take(i as int) =~= pv.take(i as int));
                assert(pv.take(i + 1).skip(i as int) =~= seq![pv[i as int]]);
            }
            assert(pv[i as int].0.len() < 0x1_0000_0000 && (pv[i as int].1 matches
            MaskView::Indices(ix) ==> ix.len() < 0x1_0000_0000));
        }
        let pair = match it.next() {
            Some(p) => p,
            None => {
                // cannot happen: the iterator holds exactly `len` pairs
                proof {
                    assert(pv.skip(i as int).len() > 0);
                }
                return ;
            },
        };
        let parts = pair.0.parts_vec();
        let ghost wpre = wgr.written();
        let ghost goodpre = wpre == w0 + ce + mu_pairs_enc(pv.take(i as int));
        put_vlu4_array(wgr, &parts);
        put_mask(wgr, &pair.1);
        proof {
            if p0 + e.len() <= wgr.cap() {
                assert(wgr.written() =~= w0 + ce + mu_pairs_enc(pv.take(i + 1)));
            } else if !wgr.past_end() {
                assert(wgr.written() =~= w0 + ce + mu_pairs_enc(pv.take(i + 1)));
            }
        }
        i = i + 1;
    }
    proof {
        assert(pv.take(pv.len() as int) =~= pv);
        if p0 + e.len() <= wgr.cap() {
            assert(wgr.written() =~= w0 + e);
        }
    }
}


/// One length-prefixed byte slice at nibble `pos`: the vlu4 byte count, a
/// padding nibble when the data would start unaligned, then the bytes.
pub open spec fn slice_item_enc(bytes: Seq<u8>, pos: int) -> Seq<u8> {
    let lenc = vlu4_enc(bytes.len() as int);
    let pad: Seq<u8> = if (pos + lenc.len()) % 2 == 1 {
        seq![0u8]
    } else {
        Seq::empty()
    };
    lenc + pad + nibbles_of(bytes)
}

/// Consecutive slice items starting at nibble `pos`.
pub open spec fn slice_items_enc(sv: Seq<Seq<u8>>, pos: int) -> Seq<u8>
    decreases sv.len(),
{
    if sv.len() == 0 {
        Seq::empty()
    } else {
        let it = slice_item_enc(sv[0], pos);
        it + slice_items_enc(sv.skip(1), pos + it.len())
    }
}

/// A whole slice array at nibble `pos`: the count, then the items.
pub open spec fn slice_arr_enc(sv: Seq<Seq<u8>>, pos: int) -> Seq<u8> {
    let ce = vlu4_enc(sv.len() as int);
    ce + slice_items_enc(sv, pos + ce.len())
}

/// Every slice is short enough for a vlu4 byte count.
pub open spec fn slices_wf(sv: Seq<Seq<u8>>) -> bool {
    forall|i: int| 0 <= i < sv.len() ==> (#[trigger] sv[i]).len() < 0x1_0000_0000
}

/// Nibbles written at an even position determine the underlying bytes.
pub proof fn lemma_bytes_of_nibbles(data: Seq<u8>, q: int, bytes: Seq<u8>)
    requires
        q % 2 == 0,
        0 <= q,
        q + 2 * bytes.len() <= 2 * data.len(),
        nibbles_of(data).subrange(q, q + 2 * bytes.len()) == nibbles_of(bytes),
    ensures
        data.subrange(q / 2, q / 2 + bytes.len()) == bytes,
{
    assert forall|i: int| 0 <= i < bytes.len() implies data.subrange(
        q / 2,
        q / 2 + bytes.len(),
    )[i] == bytes[i] by {
        let d = data[q / 2 + i];
        assert((q + 2 * i) % 2 == 0 && (q + 2 * i) / 2 == q / 2 + i);
        assert(nibbles_of(data)[q + 2 * i] == nib_hi(d));
        assert(nibbles_of(data)[q + 2 * i + 1] == nib_lo(d));
        assert(nibbles_of(data).subrange(q, q + 2 * bytes.len())[2 * i] == nibbles_of(data)[q + 2
            * i]);
        assert(nibbles_of(data).subrange(q, q + 2 * bytes.len())[2 * i + 1] == nibbles_of(
            data,
        )[q + 2 * i + 1]);
        assert(nibbles_of(bytes)[2 * i] == nib_hi(bytes[i]));
        assert(nibbles_of(bytes)[2 * i + 1] == nib_lo(bytes[i]));
        lemma_byte_nibs(d);
        lemma_byte_nibs(bytes[i]);
    }
    assert(data.subrange(q / 2, q / 2 + bytes.len()) =~= bytes);
}

/// Parsing encoded slice items yields the slices.
pub proof fn lemma_slice_items_round_trip(sv: Seq<Seq<u8>>, data: Seq<u8>, pos: int)
    requires
        0 <= pos,
        slices_wf(sv),
        pos + slice_items_enc(sv, pos).len() <= 2 * data.len(),
        nibbles_of(data).subrange(pos, pos + slice_items_enc(sv, pos).len()) == slice_items_enc(
            sv,
            pos,
        ),
    ensures
        crate::vlu4::slice_seq_parse(data, pos, sv.len() as int) == Some(
            (sv, pos + slice_items_enc(sv, pos).len()),
        ),
    decreases sv.len(),
{
    let nibs = nibbles_of(data);
    let e = slice_items_enc(sv, pos);
    assert forall|i: int| 0 <= i < e.len() implies nibs[pos + i] == e[i] by {
        assert(nibs.subrange(pos, pos + e.len())[i] == e[i]);
    }
    if sv.len() > 0 {
        let bytes = sv[0];
        let lenc = vlu4_enc(bytes.len() as int);
        let it = slice_item_enc(bytes, pos);
        let rest = slice_items_enc(sv.skip(1), pos + it.len());
        assert(e == it + rest);
        assert(nibs.subrange(pos, pos + lenc.len()) =~= lenc) by {
            assert forall|i: int| 0 <= i < lenc.len() implies nibs.subrange(
                pos,
                pos + lenc.len(),
            )[i] == lenc[i] by {
                assert(nibs[pos + i] == e[i]);
                assert(e[i] == it[i]);
            }
        }
        lemma_vlu4_round_trip(bytes.len() as u32, nibs, pos);
        let p1 = pos + lenc.len();
        let p2 = if p1 % 2 == 1 { p1 + 1 } else { p1 };
        let padlen: int = if p1 % 2 == 1 { 1 } else { 0 };
        assert(it.len() == lenc.len() + padlen + 2 * bytes.len());
        assert(nibs.subrange(p2, p2 + 2 * bytes.len()) =~= nibbles_of(bytes)) by {
            assert forall|i: int| 0 <= i < 2 * bytes.len() implies nibs.subrange(
                p2,
                p2 + 2 * bytes.len(),
            )[i] == nibbles_of(bytes)[i] by {
                assert(nibs[p2 + i] == e[p2 - pos + i]);
                assert(it[lenc.len() + padlen + i] == nibbles_of(bytes)[i]);
                assert(e[p2 - pos + i] == it[p2 - pos + i]);
            }
        }
        lemma_bytes_of_nibbles(data, p2, bytes);
        assert(nibs.subrange(p2 + 2 * bytes.len(), p2 + 2 * bytes.len() + rest.len())
            =~= rest) by {
            assert forall|i: int| 0 <= i < rest.len() implies nibs.subrange(
                p2 + 2 * bytes.len(),
                p2 + 2 * bytes.len() + rest.len(),
            )[i] == rest[i] by {
                assert(nibs[p2 + 2 * bytes.len() + i] == e[it.len() + i]);
            }
        }
        assert(slices_wf(sv.skip(1))) by {
            assert forall|i: int| 0 <= i < sv.skip(1).len() implies (#[trigger] sv.skip(
                1,
            )[i]).len() < 0x1_0000_0000 by {
                assert(sv.skip(1)[i] == sv[i + 1]);
            }
        }
        lemma_slice_items_round_trip(sv.skip(1), data, p2 + 2 * bytes.len());
        assert(seq![bytes] + sv.skip(1) =~= sv);
        assert(data.subrange(p2 / 2, p2 / 2 + bytes.len() as int) == bytes);
    }
}

/// Parsing a whole encoded slice array yields its count and slices.
pub proof fn lemma_slice_arr_round_trip(sv: Seq<Seq<u8>>, data: Seq<u8>, pos: int)
    requires
        0 <= pos,
        slices_wf(sv),
        sv.len() < 0x1_0000_0000,
        pos + slice_arr_enc(sv, pos).len() <= 2 * data.len(),
        nibbles_of(data).subrange(pos, pos + slice_arr_enc(sv, pos).len()) == slice_arr_enc(
            sv,
            pos,
        ),
    ensures
        ({
            let ce = vlu4_enc(sv.len() as int);
            &&& vlu4_scan(nibbles_of(data), pos) == VluScan::Done(ce.len() as int)
            &&& vlu4_val(nibbles_of(data).subrange(pos, pos + ce.len())) == sv.len()
            &&& crate::vlu4::slice_seq_parse(data, pos + ce.len(), sv.len() as int) == Some(
                (sv, pos + slice_arr_enc(sv, pos).len()),
            )
        }),
{
    let nibs = nibbles_of(data);
    let ce = vlu4_enc(sv.len() as int);
    let e = slice_arr_enc(sv, pos);
    let ie = slice_items_enc(sv, pos + ce.len());
    assert(e == ce + ie);
    assert forall|i: int| 0 <= i < e.len() implies nibs[pos + i] == e[i] by {
        assert(nibs.subrange(pos, pos + e.len())[i] == e[i]);
    }
    assert(nibs.subrange(pos, pos + ce.len()) =~= ce) by {
        assert forall|i: int| 0 <= i < ce.len() implies nibs.subrange(pos, pos + ce.len())[i]
            == ce[i] by {
            assert(nibs[pos + i] == e[i]);
        }
    }
    lemma_vlu4_round_trip(sv.len() as u32, nibs, pos);
    let p1 = pos + ce.len();
    assert(nibs.subrange(p1, p1 + ie.len()) =~= ie) by {
        assert forall|i: int| 0 <= i < ie.len() implies nibs.subrange(p1, p1 + ie.len())[i]
            == ie[i] by {
            assert(nibs[p1 + i] == e[ce.len() + i]);
        }
    }
    lemma_slice_items_round_trip(sv, data, p1);
}

/// The encoding of slice items splits at any boundary.
pub proof fn lemma_slice_items_enc_split(sv: Seq<Seq<u8>>, i: int, pos: int)
    requires
        0 <= i <= sv.len(),
    ensures
        slice_items_enc(sv, pos) == slice_items_enc(sv.take(i), pos) + slice_items_enc(
            sv.skip(i),
            pos + slice_items_enc(sv.take(i), pos).len(),
        ),
    decreases i,
{
    if i == 0 {
        assert(sv.skip(0) =~= sv);
        assert(slice_items_enc(sv.take(0), pos) + slice_items_enc(sv, pos) =~= slice_items_enc(
            sv,
            pos,
        ));
    } else {
        let t = sv.skip(1);
        let it = slice_item_enc(sv[0], pos);
        lemma_slice_items_enc_split(t, i - 1, pos + it.len());
        assert(sv.take(i).skip(1) =~= t.take(i - 1));
        assert(sv.skip(i) =~= t.skip(i - 1));
        assert(sv.take(i)[0] == sv[0]);
        assert(slice_items_enc(sv.take(i), pos) == it + slice_items_enc(
            t.take(i - 1),
            pos + it.len(),
        ));
        assert((it + (slice_items_enc(t.take(i - 1), pos + it.len()) + slice_items_enc(
            t.skip(i - 1),
            pos + it.len() + slice_items_enc(t.take(i - 1), pos + it.len()).len(),
        ))) =~= ((it + slice_items_enc(t.take(i - 1), pos + it.len())) + slice_items_enc(
            t.skip(i - 1),
            pos + it.len() + slice_items_enc(t.take(i - 1), pos + it.len()).len(),
        )));
    }
}

/// One step of the item chain: taking one more slice appends its item.
pub proof fn lemma_slice_items_take_step(sv: Seq<Seq<u8>>, i: int, p1: int)
    requires
        0 <= i < sv.len(),
    ensures
        slice_items_enc(sv.take(i + 1), p1) == slice_items_enc(sv.take(i), p1) + slice_item_enc(
            sv[i],
            p1 + slice_items_enc(sv.take(i), p1).len(),
        ),
        slice_items_enc(sv, p1).len() >= slice_items_enc(sv.take(i + 1), p1).len(),
{
    let pc = p1 + slice_items_enc(sv.take(i), p1).len();
    lemma_slice_items_enc_split(sv, i + 1, p1);
    lemma_slice_items_enc_split(sv.take(i + 1), i, p1);
    assert(sv.take(i + 1).take(i) =~= sv.take(i));
    assert(sv.take(i + 1).skip(i) =~= seq![sv[i]]);
    assert(slice_items_enc(seq![sv[i]], pc) =~= slice_item_enc(sv[i], pc)) by {
        assert(seq![sv[i]].skip(1) =~= Seq::<Seq<u8>>::empty());
        assert(seq![sv[i]][0] == sv[i]);
        assert(slice_items_enc(seq![sv[i]], pc) == slice_item_enc(sv[i], pc) + slice_items_enc(
            seq![sv[i]].skip(1),
            pc + slice_item_enc(sv[i], pc).len(),
        ));
        assert(slice_item_enc(sv[i], pc) + Seq::<u8>::empty() =~= slice_item_enc(sv[i], pc));
    }
}

/// Write a whole slice array: the count, then each slice as a vlu4 byte
/// count, padding to a byte boundary, and the bytes.
#[verifier::rlimit(60)]
#[verifier::loop_isolation(false)]
pub fn put_slice_array(wgr: &mut NibbleBufMut, slices: &Vec<Vec<u8>>)
    requires
        old(wgr).wf(),
        slices_wf(crate::vlu4::slice_views(slices@)),
        slices@.len() < 0x1_0000_0000,
    ensures
        final(wgr).wf(),
        final(wgr).cap() == old(wgr).cap(),
        old(wgr).pos() + slice_arr_enc(crate::vlu4::slice_views(slices@), old(wgr).pos()).len()
            <= old(wgr).cap() ==> {
            &&& final(wgr).written() == old(wgr).written() + slice_arr_enc(
                crate::vlu4::slice_views(slices@),
                old(wgr).pos(),
            )
            &&& final(wgr).pos() == old(wgr).pos() + slice_arr_enc(
                crate::vlu4::slice_views(slices@),
                old(wgr).pos(),
            ).len()
            &&& final(wgr).past_end() == old(wgr).past_end()
        },
        old(wgr).pos() + slice_arr_enc(crate::vlu4::slice_views(slices@), old(wgr).pos()).len()
            > old(wgr).cap() ==> final(wgr).past_end(),
{
    let ghost sv = crate::vlu4::slice_views(slices@);
    let ghost w0 = wgr.written();
    let ghost p0 = wgr.pos();
    let ghost ce = vlu4_enc(sv.len() as int);
    let ghost e = slice_arr_enc(sv, p0);
    let ghost p1 = p0 + ce.len();
    proof {
        assert(e.len() == ce.len() + slice_items_enc(sv, p1).len());
    }
    wgr.put_vlu4_u32(slices.len() as u32);
    proof {
        assert(slice_items_enc(sv.take(0), p1) == Seq::<u8>::empty());
        if p0 + e.len() <= wgr.cap() {
            assert(wgr.written() =~= w0 + ce + slice_items_enc(sv.take(0), p1));
        }
        if !wgr.past_end() && wgr.written() == w0 + ce {
            assert(wgr.written() =~= w0 + ce + slice_items_enc(sv.take(0), p1));
        }
    }
    let mut i: usize = 0;
    while i < slices.len()
        invariant
            wgr.wf(),
            wgr.cap() == old(wgr).cap(),
            i <= sv.len(),
            p0 + e.len() <= wgr.cap() ==> {
                &&& wgr.written() == w0 + ce + slice_items_enc(sv.take(i as int), p1)
                &&& wgr.pos() == p1 + slice_items_enc(sv.take(i as int), p1).len()
                &&& wgr.past_end() == old(wgr).past_end()
            },
            (wgr.written() == w0 + ce + slice_items_enc(sv.take(i as int), p1) && wgr.pos() == p1
                + slice_items_enc(sv.take(i as int), p1).len() && wgr.past_end() == old(
                wgr,
            ).past_end()) || wgr.past_end(),
        decreases sv.len() - i,
    {
        let ghost pref = slice_items_enc(sv.take(i as int), p1);
        let ghost pc = p1 + pref.len();
        proof {
            lemma_slice_items_take_step(sv, i as int, p1);
            lemma_slice_items_enc_split(sv, i as int, p1);
            assert(sv[i as int] == slices@[i as int]@);
        }
        let b = &slices[i];
        let ghost lenc = vlu4_enc(b@.len() as int);
        let ghost wpre = wgr.written();
        wgr.put_vlu4_u32(b.len() as u32);
        let ghost wlen = wgr.written();
        if !wgr.is_at_byte_boundary() {
            proof {
                lemma_small_nib(0);
            }
            wgr.put_nibble(0);
        }
        put_bytes(wgr, b);
        proof {
            let item = slice_item_enc(sv[i as int], pc);
            if p0 + e.len() <= wgr.cap() {
                assert(wgr.written() =~= w0 + ce + slice_items_enc(sv.take(i + 1), p1));
            } else if !wgr.past_end() {
                assert(wgr.written() =~= w0 + ce + slice_items_enc(sv.take(i + 1), p1));
            }
        }
        i = i + 1;
    }
    proof {
        assert(sv.take(sv.len() as int) =~= sv);
        if p0 + e.len() <= wgr.cap() {
            assert(wgr.written() =~= w0 + e);
        }
    }
}


/// The singleton item chain is the item itself.
pub proof fn lemma_slice_item_singleton(b: Seq<u8>, pos: int)
    ensures
        slice_items_enc(seq![b], pos) == slice_item_enc(b, pos),
{
    assert(seq![b].skip(1) =~= Seq::<Seq<u8>>::empty());
    assert(seq![b][0] == b);
    assert(slice_items_enc(seq![b], pos) == slice_item_enc(b, pos) + slice_items_enc(
        seq![b].skip(1),
        pos + slice_item_enc(b, pos).len(),
    ));
    assert(slice_item_enc(b, pos) + Seq::<u8>::empty() =~= slice_item_enc(b, pos));
}

/// Write one length-prefixed, byte-aligned slice.
pub fn put_slice_item(wgr: &mut NibbleBufMut, bytes: &Vec<u8>)
    requires
        old(wgr).wf(),
        bytes@.len() < 0x1_0000_0000,
    ensures
        final(wgr).wf(),
        final(wgr).cap() == old(wgr).cap(),
        old(wgr).pos() + slice_item_enc(bytes@, old(wgr).pos()).len() <= old(wgr).cap() ==> {
            &&& final(wgr).written() == old(wgr).written() + slice_item_enc(
                bytes@,
                old(wgr).pos(),
            )
            &&& final(wgr).pos() == old(wgr).pos() + slice_item_enc(bytes@, old(wgr).pos()).len()
            &&& final(wgr).past_end() == old(wgr).past_end()
        },
        old(wgr).pos() + slice_item_enc(bytes@, old(wgr).pos()).len() > old(wgr).cap()
            ==> final(wgr).past_end(),
{
    let ghost w0 = wgr.written();
    let ghost p0 = wgr.pos();
    let ghost e = slice_item_enc(bytes@, p0);
    wgr.put_vlu4_u32(bytes.len() as u32);
    if !wgr.is_at_byte_boundary() {
        proof {
            lemma_small_nib(0);
        }
        wgr.put_nibble(0);
    }
    put_bytes(wgr, bytes);
    proof {
        if p0 + e.len() <= wgr.cap() {
            assert(wgr.written() =~= w0 + e);
        } else if !wgr.past_end() {
            assert(wgr.written() =~= w0 + e);
        }
    }
}

} // verus!
