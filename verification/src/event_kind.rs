//! Event kinds: the operation a request carries, the results a reply
//! carries, and their payload encodings.

use vstd::prelude::*;
use crate::nibble_buf::{
    Error, NibbleBuf, NibbleBufMut, VluScan, lemma_vlu4_round_trip, nibbles_of, vlu4_enc,
    vlu4_len, vlu4_scan, vlu4_val,
};
use crate::vlu4::{
    Vlu4SliceArray, Vlu4U32Array, clone_bytes, slice_seq_parse, slice_views, vlu4_seq_parse,
};
use crate::serdes::{
    lemma_slice_arr_round_trip, lemma_vlu4_arr_round_trip, put_slice_array, put_vlu4_array,
    slice_arr_enc, slice_item_enc, slice_items_enc, slices_wf, vlu4_arr_enc,
};
use crate::event::XpiError;

verus! {

/// What kind of operation a request asks of the selected resources.
pub enum XpiRequestKind {
    /// Call one or more methods; one argument bundle per callable resource.
    Call { args_set: Vlu4SliceArray },
    /// Chained call; arguments for the outermost function.
    ChainCall { args: Vec<u8> },
    /// Read one or more resources.
    Read,
    /// Write one or more resources; one value per writable resource.
    Write { values: Vlu4SliceArray },
    /// Open one or more streams.
    OpenStreams,
    /// Close one or more streams.
    CloseStreams,
    /// Subscribe to properties or streams, one rate per resource.
    Subscribe { rates: Vlu4U32Array },
    /// Unsubscribe from one or more resources.
    Unsubscribe,
    /// Borrow one or more resources for exclusive use.
    Borrow,
    /// Release previously borrowed resources.
    Release,
    /// Get information about resources.
    GetInfo,
}

/// The results a reply carries, one entry per immediate resource.
pub enum XpiReplyKind {
    /// Result of each call: the serialized return value, or an error.
    CallResults(Vec<Result<Vec<u8>, XpiError>>),
    /// Result of each read: the serialized value, or an error.
    ReadResults(Vec<Result<Vec<u8>, XpiError>>),
    /// Result of each write.
    WriteResults(Vec<Result<(), XpiError>>),
    /// Result of each subscribe or unsubscribe.
    SubscribeResults(Vec<Result<(), XpiError>>),
    /// Result of each borrow.
    BorrowResults(Vec<Result<(), XpiError>>),
    /// Result of each release.
    ReleaseResults(Vec<Result<(), XpiError>>),
    /// Result of each stream open.
    OpenStreamResults(Vec<Result<(), XpiError>>),
    /// Result of each stream close.
    CloseStreamResults(Vec<Result<(), XpiError>>),
    /// Result of each info request.
    InfoResults(Vec<Result<(), XpiError>>),
    /// New elements of streams or changed properties.
    StreamUpdates(Vlu4SliceArray),
}

/// The operation or results an event carries; the direction bit of the
/// header tells the two apart.
pub enum XpiEventKind {
    Request(XpiRequestKind),
    Reply(XpiReplyKind),
}

/// The abstract value of an event kind.
pub enum KindView {
    Call(Seq<Seq<u8>>),
    ChainCall(Seq<u8>),
    Read,
    Write(Seq<Seq<u8>>),
    OpenStreams,
    CloseStreams,
    Subscribe(Seq<u32>),
    Unsubscribe,
    Borrow,
    Release,
    GetInfo,
    CallResults(Seq<Result<Seq<u8>, XpiError>>),
    ReadResults(Seq<Result<Seq<u8>, XpiError>>),
    WriteResults(Seq<Result<(), XpiError>>),
    SubscribeResults(Seq<Result<(), XpiError>>),
    BorrowResults(Seq<Result<(), XpiError>>),
    ReleaseResults(Seq<Result<(), XpiError>>),
    OpenStreamResults(Seq<Result<(), XpiError>>),
    CloseStreamResults(Seq<Result<(), XpiError>>),
    InfoResults(Seq<Result<(), XpiError>>),
    StreamUpdates(Seq<Seq<u8>>),
}

/// The views of a vector of slice results.
pub open spec fn sres_views(v: Seq<Result<Vec<u8>, XpiError>>) -> Seq<Result<Seq<u8>, XpiError>> {
    v.map_values(
        |r: Result<Vec<u8>, XpiError>| match r {
            Ok(b) => Ok(b@),
            Err(e) => Err(e),
        },
    )
}

impl XpiEventKind {
    /// The abstract value of this kind.
    pub open spec fn view(&self) -> KindView {
        match self {
            XpiEventKind::Request(rq) => match rq {
                XpiRequestKind::Call { args_set } => KindView::Call(args_set.slices()),
                XpiRequestKind::ChainCall { args } => KindView::ChainCall(args@),
                XpiRequestKind::Read => KindView::Read,
                XpiRequestKind::Write { values } => KindView::Write(values.slices()),
                XpiRequestKind::OpenStreams => KindView::OpenStreams,
                XpiRequestKind::CloseStreams => KindView::CloseStreams,
                XpiRequestKind::Subscribe { rates } => KindView::Subscribe(rates.items()),
                XpiRequestKind::Unsubscribe => KindView::Unsubscribe,
                XpiRequestKind::Borrow => KindView::Borrow,
                XpiRequestKind::Release => KindView::Release,
                XpiRequestKind::GetInfo => KindView::GetInfo,
            },
            XpiEventKind::Reply(rp) => match rp {
                XpiReplyKind::CallResults(rs) => KindView::CallResults(sres_views(rs@)),
                XpiReplyKind::ReadResults(rs) => KindView::ReadResults(sres_views(rs@)),
                XpiReplyKind::WriteResults(rs) => KindView::WriteResults(rs@),
                XpiReplyKind::SubscribeResults(rs) => KindView::SubscribeResults(rs@),
                XpiReplyKind::BorrowResults(rs) => KindView::BorrowResults(rs@),
                XpiReplyKind::ReleaseResults(rs) => KindView::ReleaseResults(rs@),
                XpiReplyKind::OpenStreamResults(rs) => KindView::OpenStreamResults(rs@),
                XpiReplyKind::CloseStreamResults(rs) => KindView::CloseStreamResults(rs@),
                XpiReplyKind::InfoResults(rs) => KindView::InfoResults(rs@),
                XpiReplyKind::StreamUpdates(s) => KindView::StreamUpdates(s.slices()),
            },
        }
    }

    /// Whether this kind travels in a request.
    pub open spec fn spec_is_request(&self) -> bool {
        self matches XpiEventKind::Request(_)
    }

    /// The 4-bit kind discriminant within its direction.
    pub open spec fn spec_discriminant(&self) -> u8 {
        match self {
            XpiEventKind::Request(rq) => match rq {
                XpiRequestKind::Call { .. } => 0,
                XpiRequestKind::Read => 1,
                XpiRequestKind::Write { .. } => 2,
                XpiRequestKind::OpenStreams => 3,
                XpiRequestKind::CloseStreams => 4,
                XpiRequestKind::Subscribe { .. } => 5,
                XpiRequestKind::Unsubscribe => 6,
                XpiRequestKind::Borrow => 7,
                XpiRequestKind::Release => 8,
                XpiRequestKind::GetInfo => 9,
                XpiRequestKind::ChainCall { .. } => 10,
            },
            XpiEventKind::Reply(rp) => match rp {
                XpiReplyKind::CallResults(_) => 0,
                XpiReplyKind::ReadResults(_) => 1,
                XpiReplyKind::WriteResults(_) => 2,
                XpiReplyKind::SubscribeResults(_) => 3,
                XpiReplyKind::BorrowResults(_) => 4,
                XpiReplyKind::ReleaseResults(_) => 5,
                XpiReplyKind::OpenStreamResults(_) => 6,
                XpiReplyKind::CloseStreamResults(_) => 7,
                XpiReplyKind::InfoResults(_) => 8,
                XpiReplyKind::StreamUpdates(_) => 9,
            },
        }
    }

    pub open spec fn wf(&self) -> bool {
        match self {
            XpiEventKind::Request(rq) => match rq {
                XpiRequestKind::Call { args_set } => args_set.wf() && slices_wf(args_set.slices())
                    && args_set.slices().len() < 0x1_0000_0000,
                XpiRequestKind::ChainCall { args } => args@.len() < 0x1_0000_0000,
                XpiRequestKind::Write { values } => values.wf() && slices_wf(values.slices())
                    && values.slices().len() < 0x1_0000_0000,
                XpiRequestKind::Subscribe { rates } => rates.wf() && rates.items().len()
                    < 0x1_0000_0000,
                _ => true,
            },
            XpiEventKind::Reply(rp) => match rp {
                XpiReplyKind::CallResults(rs) => sres_wf(sres_views(rs@)),
                XpiReplyKind::ReadResults(rs) => sres_wf(sres_views(rs@)),
                XpiReplyKind::WriteResults(rs) => rs@.len() < 0x1_0000_0000,
                XpiReplyKind::SubscribeResults(rs) => rs@.len() < 0x1_0000_0000,
                XpiReplyKind::BorrowResults(rs) => rs@.len() < 0x1_0000_0000,
                XpiReplyKind::ReleaseResults(rs) => rs@.len() < 0x1_0000_0000,
                XpiReplyKind::OpenStreamResults(rs) => rs@.len() < 0x1_0000_0000,
                XpiReplyKind::CloseStreamResults(rs) => rs@.len() < 0x1_0000_0000,
                XpiReplyKind::InfoResults(rs) => rs@.len() < 0x1_0000_0000,
                XpiReplyKind::StreamUpdates(s) => s.wf() && slices_wf(s.slices())
                    && s.slices().len() < 0x1_0000_0000,
            },
        }
    }
}

/// A slice-result vector fit for the wire.
pub open spec fn sres_wf(rs: Seq<Result<Seq<u8>, XpiError>>) -> bool {
    &&& rs.len() < 0x1_0000_0000
    &&& forall|i: int|
        0 <= i < rs.len() ==> ((#[trigger] rs[i]) matches Ok(b) ==> b.len() < 0x1_0000_0000)
}

/// One unit result: the vlu4 code, zero meaning success.
pub open spec fn unit_result_enc(r: Result<(), XpiError>) -> Seq<u8> {
    match r {
        Ok(_) => vlu4_enc(0),
        Err(e) => vlu4_enc(e.spec_code() as int),
    }
}

/// Consecutive unit results.
pub open spec fn unit_results_items_enc(rs: Seq<Result<(), XpiError>>) -> Seq<u8>
    decreases rs.len(),
{
    if rs.len() == 0 {
        Seq::empty()
    } else {
        unit_result_enc(rs[0]) + unit_results_items_enc(rs.skip(1))
    }
}

/// A whole unit-result vector: the count, then the codes.
pub open spec fn unit_results_enc(rs: Seq<Result<(), XpiError>>) -> Seq<u8> {
    vlu4_enc(rs.len() as int) + unit_results_items_enc(rs)
}

/// Parse `n` unit results at nibble `pos`.
pub open spec fn unit_results_parse(nibs: Seq<u8>, pos: int, n: int) -> Option<
    (Seq<Result<(), XpiError>>, int),
>
    decreases n,
    when n >= 0
{
    if n <= 0 {
        Some((Seq::empty(), pos))
    } else {
        match vlu4_scan(nibs, pos) {
            VluScan::Done(k) => {
                let c = vlu4_val(nibs.subrange(pos, pos + k));
                let entry: Option<Result<(), XpiError>> = if c == 0 {
                    Some(Ok(()))
                } else {
                    match XpiError::spec_from_code(c) {
                        Some(e) => Some(Err(e)),
                        None => None,
                    }
                };
                match entry {
                    Some(r) => match unit_results_parse(nibs, pos + k, n - 1) {
                        Some((s, end)) => Some((seq![r] + s, end)),
                        None => None,
                    },
                    None => None,
                }
            },
            _ => None,
        }
    }
}

/// One slice result at nibble `pos`: a zero tag and the slice for success,
/// or the error's vlu4 code.
pub open spec fn sres_item_enc(r: Result<Seq<u8>, XpiError>, pos: int) -> Seq<u8> {
    match r {
        Ok(b) => vlu4_enc(0) + slice_item_enc(b, pos + 1),
        Err(e) => vlu4_enc(e.spec_code() as int),
    }
}

/// Consecutive slice results.
pub open spec fn sres_items_enc(rs: Seq<Result<Seq<u8>, XpiError>>, pos: int) -> Seq<u8>
    decreases rs.len(),
{
    if rs.len() == 0 {
        Seq::empty()
    } else {
        let it = sres_item_enc(rs[0], pos);
        it + sres_items_enc(rs.skip(1), pos + it.len())
    }
}

/// A whole slice-result vector: the count, then the entries.
pub open spec fn sres_enc(rs: Seq<Result<Seq<u8>, XpiError>>, pos: int) -> Seq<u8> {
    let ce = vlu4_enc(rs.len() as int);
    ce + sres_items_enc(rs, pos + ce.len())
}

/// Parse `n` slice results at nibble `pos`.
pub open spec fn sres_parse(data: Seq<u8>, pos: int, n: int) -> Option<
    (Seq<Result<Seq<u8>, XpiError>>, int),
>
    decreases n,
    when n >= 0
{
    if n <= 0 {
        Some((Seq::empty(), pos))
    } else {
        let nibs = nibbles_of(data);
        match vlu4_scan(nibs, pos) {
            VluScan::Done(k) => {
                let c = vlu4_val(nibs.subrange(pos, pos + k));
                if c == 0 {
                    match slice_seq_parse(data, pos + k, 1) {
                        Some((bs, p2)) => match sres_parse(data, p2, n - 1) {
                            Some((s, end)) => Some((seq![Ok(bs[0])] + s, end)),
                            None => None,
                        },
                        None => None,
                    }
                } else {
                    match XpiError::spec_from_code(c) {
                        Some(e) => match sres_parse(data, pos + k, n - 1) {
                            Some((s, end)) => Some((seq![Err(e)] + s, end)),
                            None => None,
                        },
                        None => None,
                    }
                }
            },
            _ => None,
        }
    }
}

/// The kind payload for a given view, at nibble `pos`: argument and value
/// bundles for calls and writes, rates for subscriptions, result vectors for
/// replies, nothing for the rest.
pub open spec fn kind_body_enc(kv: KindView, pos: int) -> Seq<u8> {
    match kv {
        KindView::Call(sv) => slice_arr_enc(sv, pos),
        KindView::ChainCall(b) => slice_item_enc(b, pos),
        KindView::Write(sv) => slice_arr_enc(sv, pos),
        KindView::Subscribe(rates) => vlu4_arr_enc(rates),
        KindView::CallResults(rs) => sres_enc(rs, pos),
        KindView::ReadResults(rs) => sres_enc(rs, pos),
        KindView::WriteResults(rs) => unit_results_enc(rs),
        KindView::SubscribeResults(rs) => unit_results_enc(rs),
        KindView::BorrowResults(rs) => unit_results_enc(rs),
        KindView::ReleaseResults(rs) => unit_results_enc(rs),
        KindView::OpenStreamResults(rs) => unit_results_enc(rs),
        KindView::CloseStreamResults(rs) => unit_results_enc(rs),
        KindView::InfoResults(rs) => unit_results_enc(rs),
        KindView::StreamUpdates(sv) => slice_arr_enc(sv, pos),
        _ => Seq::empty(),
    }
}

/// Parse a kind payload for direction `is_request` and discriminant `disc`
/// at nibble `pos`.
pub open spec fn kind_body_parse(data: Seq<u8>, pos: int, is_request: bool, disc: u8) -> Option<
    (KindView, int),
> {
    let nibs = nibbles_of(data);
    if is_request {
        if disc == 0 || disc == 2 {
            match vlu4_scan(nibs, pos) {
                VluScan::Done(k) => {
                    let c = vlu4_val(nibs.subrange(pos, pos + k));
                    match slice_seq_parse(data, pos + k, c as int) {
                        Some((sv, end)) => Some(
                            (
                                if disc == 0 {
                                    KindView::Call(sv)
                                } else {
                                    KindView::Write(sv)
                                },
                                end,
                            ),
                        ),
                        None => None,
                    }
                },
                _ => None,
            }
        } else if disc == 10 {
            match slice_seq_parse(data, pos, 1) {
                Some((bs, end)) => Some((KindView::ChainCall(bs[0]), end)),
                None => None,
            }
        } else if disc == 5 {
            match vlu4_scan(nibs, pos) {
                VluScan::Done(k) => {
                    let c = vlu4_val(nibs.subrange(pos, pos + k));
                    match vlu4_seq_parse(nibs, pos + k, c as int) {
                        Some((rates, end)) => Some((KindView::Subscribe(rates), end)),
                        None => None,
                    }
                },
                _ => None,
            }
        } else if disc == 1 {
            Some((KindView::Read, pos))
        } else if disc == 3 {
            Some((KindView::OpenStreams, pos))
        } else if disc == 4 {
            Some((KindView::CloseStreams, pos))
        } else if disc == 6 {
            Some((KindView::Unsubscribe, pos))
        } else if disc == 7 {
            Some((KindView::Borrow, pos))
        } else if disc == 8 {
            Some((KindView::Release, pos))
        } else if disc == 9 {
            Some((KindView::GetInfo, pos))
        } else {
            None
        }
    } else {
        if disc == 0 || disc == 1 {
            match vlu4_scan(nibs, pos) {
                VluScan::Done(k) => {
                    let c = vlu4_val(nibs.subrange(pos, pos + k));
                    match sres_parse(data, pos + k, c as int) {
                        Some((rs, end)) => Some(
                            (
                                if disc == 0 {
                                    KindView::CallResults(rs)
                                } else {
                                    KindView::ReadResults(rs)
                                },
                                end,
                            ),
                        ),
                        None => None,
                    }
                },
                _ => None,
            }
        } else if disc == 9 {
            match vlu4_scan(nibs, pos) {
                VluScan::Done(k) => {
                    let c = vlu4_val(nibs.subrange(pos, pos + k));
                    match slice_seq_parse(data, pos + k, c as int) {
                        Some((sv, end)) => Some((KindView::StreamUpdates(sv), end)),
                        None => None,
                    }
                },
                _ => None,
            }
        } else if disc <= 8 {
            match vlu4_scan(nibs, pos) {
                VluScan::Done(k) => {
                    let c = vlu4_val(nibs.subrange(pos, pos + k));
                    match unit_results_parse(nibs, pos + k, c as int) {
                        Some((rs, end)) => Some(
                            (
                                if disc == 2 {
                                    KindView::WriteResults(rs)
                                } else if disc == 3 {
                                    KindView::SubscribeResults(rs)
                                } else if disc == 4 {
                                    KindView::BorrowResults(rs)
                                } else if disc == 5 {
                                    KindView::ReleaseResults(rs)
                                } else if disc == 6 {
                                    KindView::OpenStreamResults(rs)
                                } else if disc == 7 {
                                    KindView::CloseStreamResults(rs)
                                } else {
                                    KindView::InfoResults(rs)
                                },
                                end,
                            ),
                        ),
                        None => None,
                    }
                },
                _ => None,
            }
        } else {
            None
        }
    }
}


/// Taking one more unit result appends its code.
pub proof fn lemma_unit_results_take_step(rs: Seq<Result<(), XpiError>>, i: int)
    requires
        0 <= i < rs.len(),
    ensures
        unit_results_items_enc(rs.take(i + 1)) == unit_results_items_enc(rs.take(i))
            + unit_result_enc(rs[i]),
        unit_results_items_enc(rs).len() >= unit_results_items_enc(rs.take(i + 1)).len(),
    decreases i,
{
    lemma_unit_results_split(rs, i + 1);
    lemma_unit_results_split(rs.take(i + 1), i);
    assert(rs.take(i + 1).take(i) =~= rs.take(i));
    assert(rs.take(i + 1).skip(i) =~= seq![rs[i]]);
    assert(unit_results_items_enc(seq![rs[i]]) =~= unit_result_enc(rs[i])) by {
        assert(seq![rs[i]].skip(1) =~= Seq::<Result<(), XpiError>>::empty());
        assert(seq![rs[i]][0] == rs[i]);
        assert(unit_results_items_enc(seq![rs[i]]) == unit_result_enc(rs[i])
            + unit_results_items_enc(seq![rs[i]].skip(1)));
        assert(unit_result_enc(rs[i]) + Seq::<u8>::empty() =~= unit_result_enc(rs[i]));
    }
}

/// The unit-result chain splits at any boundary.
pub proof fn lemma_unit_results_split(rs: Seq<Result<(), XpiError>>, i: int)
    requires
        0 <= i <= rs.len(),
    ensures
        unit_results_items_enc(rs) == unit_results_items_enc(rs.take(i)) + unit_results_items_enc(
            rs.skip(i),
        ),
    decreases i,
{
    if i == 0 {
        assert(rs.skip(0) =~= rs);
        assert(unit_results_items_enc(rs.take(0)) + unit_results_items_enc(rs)
            =~= unit_results_items_enc(rs));
    } else {
        let t = rs.skip(1);
        lemma_unit_results_split(t, i - 1);
        assert(rs.take(i).skip(1) =~= t.take(i - 1));
        assert(rs.skip(i) =~= t.skip(i - 1));
        assert(rs.take(i)[0] == rs[0]);
        assert(unit_results_items_enc(rs.take(i)) == unit_result_enc(rs[0])
            + unit_results_items_enc(t.take(i - 1)));
        assert((unit_result_enc(rs[0]) + (unit_results_items_enc(t.take(i - 1))
            + unit_results_items_enc(t.skip(i - 1)))) =~= ((unit_result_enc(rs[0])
            + unit_results_items_enc(t.take(i - 1))) + unit_results_items_enc(t.skip(i - 1))));
    }
}

/// Parsing encoded unit results yields them back.
pub proof fn lemma_unit_results_round_trip(rs: Seq<Result<(), XpiError>>, nibs: Seq<u8>, pos: int)
    requires
        0 <= pos,
        pos + unit_results_items_enc(rs).len() <= nibs.len(),
        nibs.subrange(pos, pos + unit_results_items_enc(rs).len()) == unit_results_items_enc(rs),
    ensures
        unit_results_parse(nibs, pos, rs.len() as int) == Some(
            (rs, pos + unit_results_items_enc(rs).len()),
        ),
    decreases rs.len(),
{
    if rs.len() == 0 {
        assert(rs =~= Seq::<Result<(), XpiError>>::empty());
    } else {
        let e0 = unit_result_enc(rs[0]);
        let rest = unit_results_items_enc(rs.skip(1));
        assert(unit_results_items_enc(rs) == e0 + rest);
        let e = unit_results_items_enc(rs);
        assert forall|i: int| 0 <= i < e.len() implies nibs[pos + i] == e[i] by {
            assert(nibs.subrange(pos, pos + e.len())[i] == e[i]);
        }
        assert(nibs.subrange(pos, pos + e0.len()) =~= e0) by {
            assert forall|i: int| 0 <= i < e0.len() implies nibs.subrange(pos, pos + e0.len())[i]
                == e0[i] by {
                assert(nibs[pos + i] == e[i]);
            }
        }
        let code: u32 = match rs[0] {
            Ok(_) => 0,
            Err(er) => er.spec_code(),
        };
        lemma_vlu4_round_trip(code, nibs, pos);
        let p1 = pos + e0.len();
        assert(nibs.subrange(p1, p1 + rest.len()) =~= rest) by {
            assert forall|i: int| 0 <= i < rest.len() implies nibs.subrange(
                p1,
                p1 + rest.len(),
            )[i] == rest[i] by {
                assert(nibs[p1 + i] == e[e0.len() + i]);
            }
        }
        lemma_unit_results_round_trip(rs.skip(1), nibs, p1);
        match rs[0] {
            Ok(u) => {
                assert(rs[0] == Ok::<(), XpiError>(()));
            },
            Err(er) => {
                XpiError::lemma_code_round_trip(er);
                assert(er.spec_code() >= 1);
            },
        }
        assert(seq![rs[0]] + rs.skip(1) =~= rs);
        assert(e0.len() == vlu4_len(match rs[0] {
            Ok(_) => 0int,
            Err(er) => er.spec_code() as int,
        }));
    }
}

/// Write a whole unit-result vector.
#[verifier::loop_isolation(false)]
pub fn put_unit_results(wgr: &mut NibbleBufMut, rs: &Vec<Result<(), XpiError>>)
    requires
        old(wgr).wf(),
        rs@.len() < 0x1_0000_0000,
    ensures
        final(wgr).wf(),
        final(wgr).cap() == old(wgr).cap(),
        old(wgr).pos() + unit_results_enc(rs@).len() <= old(wgr).cap() ==> {
            &&& final(wgr).written() == old(wgr).written() + unit_results_enc(rs@)
            &&& final(wgr).pos() == old(wgr).pos() + unit_results_enc(rs@).len()
            &&& final(wgr).past_end() == old(wgr).past_end()
        },
        old(wgr).pos() + unit_results_enc(rs@).len() > old(wgr).cap() ==> final(wgr).past_end(),
{
    let ghost w0 = wgr.written();
    let ghost p0 = wgr.pos();
    let ghost ce = vlu4_enc(rs@.len() as int);
    let ghost e = unit_results_enc(rs@);
    proof {
        assert(e.len() == ce.len() + unit_results_items_enc(rs@).len());
    }
    wgr.put_vlu4_u32(rs.len() as u32);
    proof {
        assert(unit_results_items_enc(rs@.take(0)) == Seq::<u8>::empty());
        if p0 + e.len() <= wgr.cap() {
            assert(wgr.written() =~= w0 + ce + unit_results_items_enc(rs@.take(0)));
        }
        if !wgr.past_end() && wgr.written() == w0 + ce {
            assert(wgr.written() =~= w0 + ce + unit_results_items_enc(rs@.take(0)));
        }
    }
    let mut i: usize = 0;
    while i < rs.len()
        invariant
            wgr.wf(),
            wgr.cap() == old(wgr).cap(),
            i <= rs@.len(),
            p0 + e.len() <= wgr.cap() ==> {
                &&& wgr.written() == w0 + ce + unit_results_items_enc(rs@.take(i as int))
                &&& wgr.pos() == p0 + ce.len() + unit_results_items_enc(rs@.take(i as int)).len()
                &&& wgr.past_end() == old(wgr).past_end()
            },
            (wgr.written() == w0 + ce + unit_results_items_enc(rs@.take(i as int)) && wgr.pos()
                == p0 + ce.len() + unit_results_items_enc(rs@.take(i as int)).len()
                && wgr.past_end() == old(wgr).past_end()) || wgr.past_end(),
        decreases rs@.len() - i,
    {
        proof {
            lemma_unit_results_take_step(rs@, i as int);
            lemma_unit_results_split(rs@, i as int);
        }
        let code: u32 = match &rs[i] {
            Ok(_) => 0,
            Err(e) => e.code(),
        };
        wgr.put_vlu4_u32(code);
        proof {
            if p0 + e.len() <= wgr.cap() {
                assert(wgr.written() =~= w0 + ce + unit_results_items_enc(rs@.take(i + 1)));
            } else if !wgr.past_end() {
                assert(wgr.written() =~= w0 + ce + unit_results_items_enc(rs@.take(i + 1)));
            }
        }
        i = i + 1;
    }
    proof {
        assert(rs@.take(rs@.len() as int) =~= rs@);
        if p0 + e.len() <= wgr.cap() {
            assert(wgr.written() =~= w0 + e);
        }
    }
}

/// Parse `n` unit results from `rdr`.
#[verifier::loop_isolation(false)]
pub fn parse_unit_results(rdr: &mut NibbleBuf, n: u32) -> (r: Result<
    Vec<Result<(), XpiError>>,
    Error,
>)
    requires
        old(rdr).wf(),
    ensures
        final(rdr).wf(),
        final(rdr).data() == old(rdr).data(),
        old(rdr).past_end() ==> r is Err,
        !old(rdr).past_end() ==> match unit_results_parse(
            old(rdr).nibbles(),
            old(rdr).pos(),
            n as int,
        ) {
            Some((s, end)) => {
                &&& (r matches Ok(v) && v@ == s && v@.len() == n)
                &&& final(rdr).pos() == end
                &&& !final(rdr).past_end()
            },
            None => r is Err,
        },
    {
    if rdr.is_past_end() {
        return Err(Error::OutOfBounds);
    }
    let ghost nibs = old(rdr).nibbles();
    let ghost start = old(rdr).pos();
    let count = n as usize;
    let mut out: Vec<Result<(), XpiError>> = Vec::new();
    let mut i: usize = 0;
    while i < count
        invariant
            rdr.wf(),
            rdr.data() == old(rdr).data(),
            !rdr.past_end(),
            !old(rdr).past_end(),
            i <= count,
            out@.len() == i,
            unit_results_parse(nibs, start, count as int) == match unit_results_parse(
                nibs,
                rdr.pos(),
                count - i,
            ) {
                Some((s, end)) => Some((out@ + s, end)),
                None => None::<(Seq<Result<(), XpiError>>, int)>,
            },
        decreases count - i,
    {
        let ghost out_pre = out@;
        let code = match rdr.get_vlu4_u32() {
            Ok(c) => c,
            Err(e) => {
                return Err(e);
            },
        };
        let entry: Result<(), XpiError> = if code == 0 {
            Ok(())
        } else {
            match XpiError::from_code(code) {
                Some(e) => Err(e),
                None => {
                    return Err(Error::MalformedVlu4U32);
                },
            }
        };
        out.push(entry);
        i = i + 1;
        proof {
            if let Some((s, end)) = unit_results_parse(nibs, rdr.pos(), count - i) {
                assert((out_pre + (seq![entry] + s)) =~= (out@ + s));
            }
        }
    }
    proof {
        assert((out@ + Seq::<Result<(), XpiError>>::empty()) =~= out@);
    }
    Ok(out)
}


/// The slice-result chain splits at any boundary.
pub proof fn lemma_sres_items_split(rs: Seq<Result<Seq<u8>, XpiError>>, i: int, pos: int)
    requires
        0 <= i <= rs.len(),
    ensures
        sres_items_enc(rs, pos) == sres_items_enc(rs.take(i), pos) + sres_items_enc(
            rs.skip(i),
            pos + sres_items_enc(rs.take(i), pos).len(),
        ),
    decreases i,
{
    if i == 0 {
        assert(rs.skip(0) =~= rs);
        assert(sres_items_enc(rs.take(0), pos) + sres_items_enc(rs, pos) =~= sres_items_enc(
            rs,
            pos,
        ));
    } else {
        let t = rs.skip(1);
        let it = sres_item_enc(rs[0], pos);
        lemma_sres_items_split(t, i - 1, pos + it.len());
        assert(rs.take(i).skip(1) =~= t.take(i - 1));
        assert(rs.skip(i) =~= t.skip(i - 1));
        assert(rs.take(i)[0] == rs[0]);
        assert(sres_items_enc(rs.take(i), pos) == it + sres_items_enc(
            t.take(i - 1),
            pos + it.len(),
        ));
        assert((it + (sres_items_enc(t.take(i - 1), pos + it.len()) + sres_items_enc(
            t.skip(i - 1),
            pos + it.len() + sres_items_enc(t.take(i - 1), pos + it.len()).len(),
        ))) =~= ((it + sres_items_enc(t.take(i - 1), pos + it.len())) + sres_items_enc(
            t.skip(i - 1),
            pos + it.len() + sres_items_enc(t.take(i - 1), pos + it.len()).len(),
        )));
    }
}

/// Taking one more slice result appends its entry.
pub proof fn lemma_sres_items_take_step(rs: Seq<Result<Seq<u8>, XpiError>>, i: int, pos: int)
    requires
        0 <= i < rs.len(),
    ensures
        sres_items_enc(rs.take(i + 1), pos) == sres_items_enc(rs.take(i), pos) + sres_item_enc(
            rs[i],
            pos + sres_items_enc(rs.take(i), pos).len(),
        ),
        sres_items_enc(rs, pos).len() >= sres_items_enc(rs.take(i + 1), pos).len(),
{
    let pc = pos + sres_items_enc(rs.take(i), pos).len();
    lemma_sres_items_split(rs, i + 1, pos);
    lemma_sres_items_split(rs.take(i + 1), i, pos);
    assert(rs.take(i + 1).take(i) =~= rs.take(i));
    assert(rs.take(i + 1).skip(i) =~= seq![rs[i]]);
    assert(sres_items_enc(seq![rs[i]], pc) =~= sres_item_enc(rs[i], pc)) by {
        assert(seq![rs[i]].skip(1) =~= Seq::<Result<Seq<u8>, XpiError>>::empty());
        assert(seq![rs[i]][0] == rs[i]);
        assert(sres_items_enc(seq![rs[i]], pc) == sres_item_enc(rs[i], pc) + sres_items_enc(
            seq![rs[i]].skip(1),
            pc + sres_item_enc(rs[i], pc).len(),
        ));
        assert(sres_item_enc(rs[i], pc) + Seq::<u8>::empty() =~= sres_item_enc(rs[i], pc));
    }
}

/// Parsing encoded slice results yields them back.
pub proof fn lemma_sres_items_round_trip(
    rs: Seq<Result<Seq<u8>, XpiError>>,
    data: Seq<u8>,
    pos: int,
)
    requires
        0 <= pos,
        sres_wf(rs),
        pos + sres_items_enc(rs, pos).len() <= 2 * data.len(),
        nibbles_of(data).subrange(pos, pos + sres_items_enc(rs, pos).len()) == sres_items_enc(
            rs,
            pos,
        ),
    ensures
        sres_parse(data, pos, rs.len() as int) == Some((rs, pos + sres_items_enc(rs, pos).len())),
    decreases rs.len(),
{
    let nibs = nibbles_of(data);
    if rs.len() == 0 {
        assert(rs =~= Seq::<Result<Seq<u8>, XpiError>>::empty());
    } else {
        let e0 = sres_item_enc(rs[0], pos);
        let rest = sres_items_enc(rs.skip(1), pos + e0.len());
        let e = sres_items_enc(rs, pos);
        assert(e == e0 + rest);
        assert forall|i: int| 0 <= i < e.len() implies nibs[pos + i] == e[i] by {
            assert(nibs.subrange(pos, pos + e.len())[i] == e[i]);
        }
        let code: u32 = match rs[0] {
            Ok(_) => 0,
            Err(er) => er.spec_code(),
        };
        let ce = vlu4_enc(code as int);
        assert(nibs.subrange(pos, pos + ce.len()) =~= ce) by {
            assert forall|i: int| 0 <= i < ce.len() implies nibs.subrange(pos, pos + ce.len())[i]
                == ce[i] by {
                assert(nibs[pos + i] == e[i]);
                if rs[0] is Ok {
                    assert(e0[i] == (ce + crate::serdes::slice_item_enc(
                        rs[0]->Ok_0,
                        pos + 1,
                    ))[i]);
                }
            }
        }
        lemma_vlu4_round_trip(code, nibs, pos);
        let p1 = pos + ce.len();
        match rs[0] {
            Ok(b) => {
                let ie = crate::serdes::slice_item_enc(b, p1);
                assert(e0 == ce + ie);
                assert(nibs.subrange(p1, p1 + ie.len()) =~= ie) by {
                    assert forall|i: int| 0 <= i < ie.len() implies nibs.subrange(
                        p1,
                        p1 + ie.len(),
                    )[i] == ie[i] by {
                        assert(nibs[p1 + i] == e[ce.len() + i]);
                        assert(e0[ce.len() + i] == (ce + ie)[ce.len() + i]);
                    }
                }
                crate::serdes::lemma_slice_item_singleton(b, p1);
                assert(crate::serdes::slice_items_enc(seq![b], p1) == ie);
                assert(crate::serdes::slices_wf(seq![b])) by {
                    assert(seq![b][0] == b);
                }
                crate::serdes::lemma_slice_items_round_trip(seq![b], data, p1);
                assert(seq![b][0] == b);
            },
            Err(er) => {
                XpiError::lemma_code_round_trip(er);
                assert(er.spec_code() >= 1);
            },
        }
        let p2 = pos + e0.len();
        assert(nibs.subrange(p2, p2 + rest.len()) =~= rest) by {
            assert forall|i: int| 0 <= i < rest.len() implies nibs.subrange(
                p2,
                p2 + rest.len(),
            )[i] == rest[i] by {
                assert(nibs[p2 + i] == e[e0.len() + i]);
            }
        }
        assert(sres_wf(rs.skip(1))) by {
            assert forall|i: int| 0 <= i < rs.skip(1).len() implies ((#[trigger] rs.skip(
                1,
            )[i]) matches Ok(b) ==> b.len() < 0x1_0000_0000) by {
                assert(rs.skip(1)[i] == rs[i + 1]);
            }
        }
        lemma_sres_items_round_trip(rs.skip(1), data, p2);
        assert(seq![rs[0]] + rs.skip(1) =~= rs);
    }
}

/// Write a whole slice-result vector.
#[verifier::rlimit(60)]
#[verifier::loop_isolation(false)]
pub fn put_sres(wgr: &mut NibbleBufMut, rs: &Vec<Result<Vec<u8>, XpiError>>)
    requires
        old(wgr).wf(),
        sres_wf(sres_views(rs@)),
    ensures
        final(wgr).wf(),
        final(wgr).cap() == old(wgr).cap(),
        old(wgr).pos() + sres_enc(sres_views(rs@), old(wgr).pos()).len() <= old(wgr).cap() ==> {
            &&& final(wgr).written() == old(wgr).written() + sres_enc(
                sres_views(rs@),
                old(wgr).pos(),
            )
            &&& final(wgr).pos() == old(wgr).pos() + sres_enc(sres_views(rs@), old(wgr).pos()).len()
            &&& final(wgr).past_end() == old(wgr).past_end()
        },
        old(wgr).pos() + sres_enc(sres_views(rs@), old(wgr).pos()).len() > old(wgr).cap()
            ==> final(wgr).past_end(),
{
    let ghost sv = sres_views(rs@);
    let ghost w0 = wgr.written();
    let ghost p0 = wgr.pos();
    let ghost ce = vlu4_enc(sv.len() as int);
    let ghost e = sres_enc(sv, p0);
    let ghost p1 = p0 + ce.len();
    proof {
        assert(e.len() == ce.len() + sres_items_enc(sv, p1).len());
    }
    wgr.put_vlu4_u32(rs.len() as u32);
    proof {
        assert(sres_items_enc(sv.take(0), p1) == Seq::<u8>::empty());
        if p0 + e.len() <= wgr.cap() {
            assert(wgr.written() =~= w0 + ce + sres_items_enc(sv.take(0), p1));
        }
        if !wgr.past_end() && wgr.written() == w0 + ce {
            assert(wgr.written() =~= w0 + ce + sres_items_enc(sv.take(0), p1));
        }
    }
    let mut i: usize = 0;
    while i < rs.len()
        invariant
            wgr.wf(),
            wgr.cap() == old(wgr).cap(),
            i <= sv.len(),
            p0 + e.len() <= wgr.cap() ==> {
                &&& wgr.written() == w0 + ce + sres_items_enc(sv.take(i as int), p1)
                &&& wgr.pos() == p1 + sres_items_enc(sv.take(i as int), p1).len()
                &&& wgr.past_end() == old(wgr).past_end()
            },
            (wgr.written() == w0 + ce + sres_items_enc(sv.take(i as int), p1) && wgr.pos() == p1
                + sres_items_enc(sv.take(i as int), p1).len() && wgr.past_end() == old(
                wgr,
            ).past_end()) || wgr.past_end(),
        decreases sv.len() - i,
    {
        let ghost pref = sres_items_enc(sv.take(i as int), p1);
        let ghost pc = p1 + pref.len();
        proof {
            lemma_sres_items_take_step(sv, i as int, p1);
            lemma_sres_items_split(sv, i as int, p1);
            assert(sv[i as int] == sres_views(rs@)[i as int]);
        }
        match &rs[i] {
            Ok(b) => {
                proof {
                    assert(sv[i as int] matches Ok(bb) && bb == b@);
                }
                wgr.put_vlu4_u32(0);
                crate::serdes::put_slice_item(wgr, b);
            },
            Err(er) => {
                let c = er.code();
                wgr.put_vlu4_u32(c);
            },
        }
        proof {
            if p0 + e.len() <= wgr.cap() {
                assert(wgr.written() =~= w0 + ce + sres_items_enc(sv.take(i + 1), p1));
            } else if !wgr.past_end() {
                assert(wgr.written() =~= w0 + ce + sres_items_enc(sv.take(i + 1), p1));
            }
        }
        i = i + 1;
    }
    proof {
        assert(sv.take(sv.len() as int) =~= sv);
        if p0 + e.len() <= wgr.cap() {
            assert(wgr.written() =~= w0 + e);
        }
    }
}

/// Parse `n` slice results from `rdr`.
#[verifier::rlimit(100)]
#[verifier::spinoff_prover]
#[verifier::loop_isolation(false)]
pub fn parse_sres(rdr: &mut NibbleBuf, n: u32) -> (r: Result<Vec<Result<Vec<u8>, XpiError>>, Error>)
    requires
        old(rdr).wf(),
    ensures
        final(rdr).wf(),
        final(rdr).data() == old(rdr).data(),
        old(rdr).past_end() ==> r is Err,
        !old(rdr).past_end() ==> match sres_parse(old(rdr).data(), old(rdr).pos(), n as int) {
            Some((s, end)) => {
                &&& (r matches Ok(v) && sres_views(v@) == s && v@.len() == n)
                &&& final(rdr).pos() == end
                &&& !final(rdr).past_end()
            },
            None => r is Err,
        },
{
    if rdr.is_past_end() {
        return Err(Error::OutOfBounds);
    }
    let ghost data0 = old(rdr).data();
    let ghost nibs = old(rdr).nibbles();
    let count = n as usize;
    let mut out: Vec<Result<Vec<u8>, XpiError>> = Vec::new();
    let mut i: usize = 0;
    while i < count
        invariant
            rdr.wf(),
            rdr.data() == data0,
            !rdr.past_end(),
            !old(rdr).past_end(),
            i <= count,
            out@.len() == i,
            sres_parse(data0, old(rdr).pos(), count as int) == match sres_parse(
                data0,
                rdr.pos(),
                count - i,
            ) {
                Some((s, end)) => Some((sres_views(out@) + s, end)),
                None => None::<(Seq<Result<Seq<u8>, XpiError>>, int)>,
            },
        decreases count - i,
    {
        let ghost out_pre = sres_views(out@);
        let ghost pos_h = rdr.pos();
        let tag = match rdr.get_vlu4_u32() {
            Ok(c) => c,
            Err(e) => {
                return Err(e);
            },
        };
        let ghost p1 = rdr.pos();
        if tag == 0 {
            let slice_len = match rdr.get_vlu4_u32() {
                Ok(l) => l,
                Err(e) => {
                    return Err(e);
                },
            };
            if !rdr.is_at_byte_boundary() {
                match rdr.get_nibble() {
                    Ok(_) => (),
                    Err(e) => {
                        return Err(e);
                    },
                }
            }
            let bytes = match rdr.get_slice(slice_len as usize) {
                Ok(b) => b,
                Err(e) => {
                    return Err(e);
                },
            };
            let ghost bv = bytes@;
            out.push(Ok(bytes));
            i = i + 1;
            proof {
                assert(slice_seq_parse(data0, p1, 1) == Some((seq![bv], rdr.pos()))) by {
                    assert(slice_seq_parse(data0, rdr.pos(), 0) == Some(
                        (Seq::<Seq<u8>>::empty(), rdr.pos()),
                    ));
                    assert((seq![bv] + Seq::<Seq<u8>>::empty()) =~= seq![bv]);
                }
                if let Some((s, end)) = sres_parse(data0, rdr.pos(), count - i) {
                    assert(sres_views(out@) =~= out_pre.push(Ok(bv)));
                    assert((out_pre + (seq![Ok::<Seq<u8>, XpiError>(bv)] + s)) =~= (sres_views(
                        out@,
                    ) + s));
                }
            }
        } else {
            let er = match XpiError::from_code(tag) {
                Some(e) => e,
                None => {
                    return Err(Error::MalformedVlu4U32);
                },
            };
            out.push(Err(er));
            i = i + 1;
            proof {
                if let Some((s, end)) = sres_parse(data0, rdr.pos(), count - i) {
                    assert(sres_views(out@) =~= out_pre.push(Err(er)));
                    assert((out_pre + (seq![Err::<Seq<u8>, XpiError>(er)] + s)) =~= (sres_views(
                        out@,
                    ) + s));
                }
            }
        }
    }
    proof {
        assert((sres_views(out@) + Seq::<Result<Seq<u8>, XpiError>>::empty()) =~= sres_views(
            out@,
        ));
    }
    Ok(out)
}


/// Whatever a slice parse yields is well sized: every byte count came from
/// a 32-bit length prefix.
pub proof fn lemma_slice_seq_parse_lens(data: Seq<u8>, pos: int, n: int)
    requires
        n >= 0,
        0 <= pos,
        slice_seq_parse(data, pos, n) is Some,
    ensures
        slices_wf(slice_seq_parse(data, pos, n)->Some_0.0),
        slice_seq_parse(data, pos, n)->Some_0.0.len() == n,
    decreases n,
{
    if n > 0 {
        let nibs = nibbles_of(data);
        crate::nibble_buf::lemma_vlu4_scan_bounds(nibs, pos, 0);
        if let VluScan::Done(k) = vlu4_scan(nibs, pos) {
            let blen = vlu4_val(nibs.subrange(pos, pos + k)) as int;
            let p1 = pos + k;
            let p2 = if p1 % 2 == 1 { p1 + 1 } else { p1 };
            lemma_slice_seq_parse_lens(data, p2 + 2 * blen, n - 1);
            let sv = slice_seq_parse(data, pos, n)->Some_0.0;
            let rest = slice_seq_parse(data, p2 + 2 * blen, n - 1)->Some_0.0;
            assert(p2 + 2 * blen <= 2 * data.len());
            assert(p2 % 2 == 0 && 0 <= p2);
            assert(p2 / 2 + blen <= data.len());
            let bytes = data.subrange(p2 / 2, p2 / 2 + blen);
            assert forall|i: int| 0 <= i < sv.len() implies (#[trigger] sv[i]).len()
                < 0x1_0000_0000 by {
                if i > 0 {
                    assert(sv[i] == rest[i - 1]);
                } else {
                    assert(sv[0] == bytes);
                    assert(bytes.len() == blen);
                }
            }
        }
    }
}

/// A slice parse never moves backwards.
pub proof fn lemma_slice_seq_parse_pos(data: Seq<u8>, pos: int, n: int)
    requires
        n >= 0,
        0 <= pos,
        slice_seq_parse(data, pos, n) is Some,
    ensures
        slice_seq_parse(data, pos, n)->Some_0.1 >= pos,
    decreases n,
{
    if n > 0 {
        let nibs = nibbles_of(data);
        crate::nibble_buf::lemma_vlu4_scan_bounds(nibs, pos, 0);
        if let VluScan::Done(k) = vlu4_scan(nibs, pos) {
            let blen = vlu4_val(nibs.subrange(pos, pos + k)) as int;
            let p1 = pos + k;
            let p2 = if p1 % 2 == 1 { p1 + 1 } else { p1 };
            lemma_slice_seq_parse_pos(data, p2 + 2 * blen, n - 1);
        }
    }
}

/// Whatever a slice-result parse yields is well sized.
pub proof fn lemma_sres_parse_lens(data: Seq<u8>, pos: int, n: int)
    requires
        0 <= n < 0x1_0000_0000,
        0 <= pos,
        sres_parse(data, pos, n) is Some,
    ensures
        sres_wf(sres_parse(data, pos, n)->Some_0.0),
        sres_parse(data, pos, n)->Some_0.0.len() == n,
    decreases n,
{
    if n > 0 {
        let nibs = nibbles_of(data);
        crate::nibble_buf::lemma_vlu4_scan_bounds(nibs, pos, 0);
        if let VluScan::Done(k) = vlu4_scan(nibs, pos) {
            let c = vlu4_val(nibs.subrange(pos, pos + k));
            let rs = sres_parse(data, pos, n)->Some_0.0;
            if c == 0 {
                if let Some((bs, p2)) = slice_seq_parse(data, pos + k, 1) {
                    lemma_slice_seq_parse_lens(data, pos + k, 1);
                    lemma_slice_seq_parse_pos(data, pos + k, 1);
                    lemma_sres_parse_lens(data, p2, n - 1);
                    let rest = sres_parse(data, p2, n - 1)->Some_0.0;
                    assert forall|i: int| 0 <= i < rs.len() implies ((#[trigger] rs[i]) matches Ok(
                        b,
                    ) ==> b.len() < 0x1_0000_0000) by {
                        if i > 0 {
                            assert(rs[i] == rest[i - 1]);
                        } else {
                            assert(rs[0] == Ok::<Seq<u8>, XpiError>(bs[0]));
                        }
                    }
                }
            } else {
                if let Some(e) = XpiError::spec_from_code(c) {
                    if let Some((s2, end)) = sres_parse(data, pos + k, n - 1) {
                        lemma_sres_parse_lens(data, pos + k, n - 1);
                        assert forall|i: int| 0 <= i < rs.len() implies ((#[trigger] rs[i]) matches
                        Ok(b) ==> b.len() < 0x1_0000_0000) by {
                            if i > 0 {
                                assert(rs[i] == s2[i - 1]);
                            }
                        }
                    }
                }
            }
        }
    }
}

/// Write a kind payload.
pub fn put_kind_body(wgr: &mut NibbleBufMut, kind: &XpiEventKind)
    requires
        old(wgr).wf(),
        kind.wf(),
    ensures
        final(wgr).wf(),
        final(wgr).cap() == old(wgr).cap(),
        old(wgr).pos() + kind_body_enc(kind.view(), old(wgr).pos()).len() <= old(wgr).cap() ==> {
            &&& final(wgr).written() == old(wgr).written() + kind_body_enc(
                kind.view(),
                old(wgr).pos(),
            )
            &&& final(wgr).pos() == old(wgr).pos() + kind_body_enc(
                kind.view(),
                old(wgr).pos(),
            ).len()
            &&& final(wgr).past_end() == old(wgr).past_end()
        },
        old(wgr).pos() + kind_body_enc(kind.view(), old(wgr).pos()).len() > old(wgr).cap()
            ==> final(wgr).past_end(),
{
    match kind {
        XpiEventKind::Request(rq) => match rq {
            XpiRequestKind::Call { args_set } => {
                let sv = args_set.to_vec();
                put_slice_array(wgr, &sv);
            },
            XpiRequestKind::ChainCall { args } => {
                crate::serdes::put_slice_item(wgr, args);
            },
            XpiRequestKind::Write { values } => {
                let sv = values.to_vec();
                put_slice_array(wgr, &sv);
            },
            XpiRequestKind::Subscribe { rates } => {
                let items = rates.to_vec();
                put_vlu4_array(wgr, &items);
            },
            _ => (),
        },
        XpiEventKind::Reply(rp) => match rp {
            XpiReplyKind::CallResults(rs) => {
                put_sres(wgr, rs);
            },
            XpiReplyKind::ReadResults(rs) => {
                put_sres(wgr, rs);
            },
            XpiReplyKind::WriteResults(rs) => {
                put_unit_results(wgr, rs);
            },
            XpiReplyKind::SubscribeResults(rs) => {
                put_unit_results(wgr, rs);
            },
            XpiReplyKind::BorrowResults(rs) => {
                put_unit_results(wgr, rs);
            },
            XpiReplyKind::ReleaseResults(rs) => {
                put_unit_results(wgr, rs);
            },
            XpiReplyKind::OpenStreamResults(rs) => {
                put_unit_results(wgr, rs);
            },
            XpiReplyKind::CloseStreamResults(rs) => {
                put_unit_results(wgr, rs);
            },
            XpiReplyKind::InfoResults(rs) => {
                put_unit_results(wgr, rs);
            },
            XpiReplyKind::StreamUpdates(s) => {
                let sv = s.to_vec();
                put_slice_array(wgr, &sv);
            },
        },
    }
}

/// Parse a kind payload for the given direction and discriminant.
pub fn parse_kind_body(rdr: &mut NibbleBuf, is_request: bool, disc: u8) -> (r: Result<
    XpiEventKind,
    Error,
>)
    requires
        old(rdr).wf(),
    ensures
        final(rdr).wf(),
        final(rdr).data() == old(rdr).data(),
        old(rdr).past_end() ==> r is Err,
        !old(rdr).past_end() ==> match kind_body_parse(
            old(rdr).data(),
            old(rdr).pos(),
            is_request,
            disc,
        ) {
            Some((kv, end)) => {
                &&& (r matches Ok(k) && k.view() == kv && k.wf() && k.spec_is_request()
                    == is_request && k.spec_discriminant() == disc)
                &&& final(rdr).pos() == end
                &&& !final(rdr).past_end()
            },
            None => r is Err,
        },
{
    if is_request {
        parse_request_kind_body(rdr, disc)
    } else {
        parse_reply_kind_body(rdr, disc)
    }
}

/// Parse a call or write payload: a slice array of argument bundles.
#[verifier::rlimit(100)]
#[verifier::spinoff_prover]
fn parse_bundle_kind_body(rdr: &mut NibbleBuf, disc: u8) -> (r: Result<XpiEventKind, Error>)
    requires
        old(rdr).wf(),
        disc == 0 || disc == 2,
    ensures
        final(rdr).wf(),
        final(rdr).data() == old(rdr).data(),
        old(rdr).past_end() ==> r is Err,
        !old(rdr).past_end() ==> match kind_body_parse(old(rdr).data(), old(rdr).pos(), true, disc) {
            Some((kv, end)) => {
                &&& (r matches Ok(k) && k.view() == kv && k.wf() && k.spec_is_request()
                    && k.spec_discriminant() == disc)
                &&& final(rdr).pos() == end
                &&& !final(rdr).past_end()
            },
            None => r is Err,
        },
{
    match Vlu4SliceArray::des_vlu4(rdr) {
        Ok(a) => {
            proof {
                let nibs = old(rdr).nibbles();
                if !old(rdr).past_end() {
                    if let VluScan::Done(k) = vlu4_scan(nibs, old(rdr).pos()) {
                        let c = vlu4_val(nibs.subrange(old(rdr).pos(), old(rdr).pos() + k));
                        lemma_slice_seq_parse_lens(old(rdr).data(), old(rdr).pos() + k, c as int);
                    }
                }
            }
            if disc == 0 {
                Ok(XpiEventKind::Request(XpiRequestKind::Call { args_set: a }))
            } else {
                Ok(XpiEventKind::Request(XpiRequestKind::Write { values: a }))
            }
        },
        Err(e) => Err(e),
    }
}

/// Parse a request kind payload.
#[verifier::rlimit(100)]
#[verifier::spinoff_prover]
fn parse_request_kind_body(rdr: &mut NibbleBuf, disc: u8) -> (r: Result<XpiEventKind, Error>)
    requires
        old(rdr).wf(),
    ensures
        final(rdr).wf(),
        final(rdr).data() == old(rdr).data(),
        old(rdr).past_end() ==> r is Err,
        !old(rdr).past_end() ==> match kind_body_parse(old(rdr).data(), old(rdr).pos(), true, disc) {
            Some((kv, end)) => {
                &&& (r matches Ok(k) && k.view() == kv && k.wf() && k.spec_is_request()
                    && k.spec_discriminant() == disc)
                &&& final(rdr).pos() == end
                &&& !final(rdr).past_end()
            },
            None => r is Err,
        },
{
    {
        if rdr.is_past_end() {
            return Err(Error::OutOfBounds);
        }
        if disc == 0 || disc == 2 {
            parse_bundle_kind_body(rdr, disc)
        } else if disc == 10 {
            let ghost p0 = rdr.pos();
            let slice_len = match rdr.get_vlu4_u32() {
                Ok(l) => l,
                Err(e) => {
                    return Err(e);
                },
            };
            if !rdr.is_at_byte_boundary() {
                match rdr.get_nibble() {
                    Ok(_) => (),
                    Err(e) => {
                        return Err(e);
                    },
                }
            }
            let bytes = match rdr.get_slice(slice_len as usize) {
                Ok(b) => b,
                Err(e) => {
                    return Err(e);
                },
            };
            proof {
                assert(slice_seq_parse(old(rdr).data(), p0, 1) == Some((seq![bytes@], rdr.pos())))
                    by {
                    assert(slice_seq_parse(old(rdr).data(), rdr.pos(), 0) == Some(
                        (Seq::<Seq<u8>>::empty(), rdr.pos()),
                    ));
                    assert((seq![bytes@] + Seq::<Seq<u8>>::empty()) =~= seq![bytes@]);
                }
            }
            Ok(XpiEventKind::Request(XpiRequestKind::ChainCall { args: bytes }))
        } else if disc == 5 {
            let fork = rdr.fork();
            let arr = Vlu4U32Array::new(fork);
            if arr.is_past_end() {
                return Err(Error::OutOfBounds);
            }
            let rest = arr.lookahead();
            *rdr = rest;
            Ok(XpiEventKind::Request(XpiRequestKind::Subscribe { rates: arr }))
        } else if disc == 1 {
            Ok(XpiEventKind::Request(XpiRequestKind::Read))
        } else if disc == 3 {
            Ok(XpiEventKind::Request(XpiRequestKind::OpenStreams))
        } else if disc == 4 {
            Ok(XpiEventKind::Request(XpiRequestKind::CloseStreams))
        } else if disc == 6 {
            Ok(XpiEventKind::Request(XpiRequestKind::Unsubscribe))
        } else if disc == 7 {
            Ok(XpiEventKind::Request(XpiRequestKind::Borrow))
        } else if disc == 8 {
            Ok(XpiEventKind::Request(XpiRequestKind::Release))
        } else if disc == 9 {
            Ok(XpiEventKind::Request(XpiRequestKind::GetInfo))
        } else {
            Err(Error::OutOfBounds)
        }
    }
}

/// Parse a reply kind payload.
#[verifier::rlimit(100)]
#[verifier::spinoff_prover]
fn parse_reply_kind_body(rdr: &mut NibbleBuf, disc: u8) -> (r: Result<XpiEventKind, Error>)
    requires
        old(rdr).wf(),
    ensures
        final(rdr).wf(),
        final(rdr).data() == old(rdr).data(),
        old(rdr).past_end() ==> r is Err,
        !old(rdr).past_end() ==> match kind_body_parse(
            old(rdr).data(),
            old(rdr).pos(),
            false,
            disc,
        ) {
            Some((kv, end)) => {
                &&& (r matches Ok(k) && k.view() == kv && k.wf() && !k.spec_is_request()
                    && k.spec_discriminant() == disc)
                &&& final(rdr).pos() == end
                &&& !final(rdr).past_end()
            },
            None => r is Err,
        },
{
    {
        if rdr.is_past_end() {
            return Err(Error::OutOfBounds);
        }
        if disc == 0 || disc == 1 {
            let count = match rdr.get_vlu4_u32() {
                Ok(c) => c,
                Err(e) => {
                    return Err(e);
                },
            };
            let ghost p_after_count = rdr.pos();
            let rs = match parse_sres(rdr, count) {
                Ok(v) => v,
                Err(e) => {
                    return Err(e);
                },
            };
            proof {
                if sres_parse(old(rdr).data(), p_after_count, count as int) is Some {
                    lemma_sres_parse_lens(old(rdr).data(), p_after_count, count as int);
                }
            }
            if disc == 0 {
                Ok(XpiEventKind::Reply(XpiReplyKind::CallResults(rs)))
            } else {
                Ok(XpiEventKind::Reply(XpiReplyKind::ReadResults(rs)))
            }
        } else if disc == 9 {
            match Vlu4SliceArray::des_vlu4(rdr) {
                Ok(a) => {
                    proof {
                        let nibs = old(rdr).nibbles();
                        if let VluScan::Done(k) = vlu4_scan(nibs, old(rdr).pos()) {
                            let c = vlu4_val(nibs.subrange(old(rdr).pos(), old(rdr).pos() + k));
                            lemma_slice_seq_parse_lens(old(rdr).data(), old(rdr).pos() + k,
                                c as int);
                        }
                    }
                    Ok(XpiEventKind::Reply(XpiReplyKind::StreamUpdates(a)))
                },
                Err(e) => Err(e),
            }
        } else if disc <= 8 {
            let count = match rdr.get_vlu4_u32() {
                Ok(c) => c,
                Err(e) => {
                    return Err(e);
                },
            };
            let rs = match parse_unit_results(rdr, count) {
                Ok(v) => v,
                Err(e) => {
                    return Err(e);
                },
            };
            if disc == 2 {
                Ok(XpiEventKind::Reply(XpiReplyKind::WriteResults(rs)))
            } else if disc == 3 {
                Ok(XpiEventKind::Reply(XpiReplyKind::SubscribeResults(rs)))
            } else if disc == 4 {
                Ok(XpiEventKind::Reply(XpiReplyKind::BorrowResults(rs)))
            } else if disc == 5 {
                Ok(XpiEventKind::Reply(XpiReplyKind::ReleaseResults(rs)))
            } else if disc == 6 {
                Ok(XpiEventKind::Reply(XpiReplyKind::OpenStreamResults(rs)))
            } else if disc == 7 {
                Ok(XpiEventKind::Reply(XpiReplyKind::CloseStreamResults(rs)))
            } else {
                Ok(XpiEventKind::Reply(XpiReplyKind::InfoResults(rs)))
            }
        } else {
            Err(Error::OutOfBounds)
        }
    }
}


/// A kind value fit for the wire.
pub open spec fn kind_view_wf(kv: KindView) -> bool {
    match kv {
        KindView::Call(sv) => slices_wf(sv) && sv.len() < 0x1_0000_0000,
        KindView::Write(sv) => slices_wf(sv) && sv.len() < 0x1_0000_0000,
        KindView::StreamUpdates(sv) => slices_wf(sv) && sv.len() < 0x1_0000_0000,
        KindView::ChainCall(b) => b.len() < 0x1_0000_0000,
        KindView::Subscribe(r) => r.len() < 0x1_0000_0000,
        KindView::CallResults(rs) => sres_wf(rs),
        KindView::ReadResults(rs) => sres_wf(rs),
        KindView::WriteResults(rs) => rs.len() < 0x1_0000_0000,
        KindView::SubscribeResults(rs) => rs.len() < 0x1_0000_0000,
        KindView::BorrowResults(rs) => rs.len() < 0x1_0000_0000,
        KindView::ReleaseResults(rs) => rs.len() < 0x1_0000_0000,
        KindView::OpenStreamResults(rs) => rs.len() < 0x1_0000_0000,
        KindView::CloseStreamResults(rs) => rs.len() < 0x1_0000_0000,
        KindView::InfoResults(rs) => rs.len() < 0x1_0000_0000,
        _ => true,
    }
}

/// Parsing an encoded whole slice-result vector yields it back.
proof fn lemma_sres_enc_round_trip(rs: Seq<Result<Seq<u8>, XpiError>>, data: Seq<u8>, pos: int)
    requires
        0 <= pos,
        sres_wf(rs),
        pos + sres_enc(rs, pos).len() <= 2 * data.len(),
        nibbles_of(data).subrange(pos, pos + sres_enc(rs, pos).len()) == sres_enc(rs, pos),
    ensures
        ({
            let ce = vlu4_enc(rs.len() as int);
            &&& vlu4_scan(nibbles_of(data), pos) == VluScan::Done(ce.len() as int)
            &&& vlu4_val(nibbles_of(data).subrange(pos, pos + ce.len())) == rs.len()
            &&& sres_parse(data, pos + ce.len(), rs.len() as int) == Some(
                (rs, pos + sres_enc(rs, pos).len()),
            )
        }),
{
    let nibs = nibbles_of(data);
    let ce = vlu4_enc(rs.len() as int);
    let e = sres_enc(rs, pos);
    let p1 = pos + ce.len();
    let ie = sres_items_enc(rs, p1);
    assert(e == ce + ie);
    assert forall|i: int| 0 <= i < e.len() implies nibs[pos + i] == e[i] by {
        assert(nibs.subrange(pos, pos + e.len())[i] == e[i]);
    }
    assert(nibs.subrange(pos, pos + ce.len()) =~= ce) by {
        assert forall|i: int| 0 <= i < ce.len() implies nibs.subrange(pos, pos + ce.len())[i]
            == ce[i] by {
            assert(nibs[pos + i] == e[i]);
        }
    }
    lemma_vlu4_round_trip(rs.len() as u32, nibs, pos);
    assert(nibs.subrange(p1, p1 + ie.len()) =~= ie) by {
        assert forall|i: int| 0 <= i < ie.len() implies nibs.subrange(p1, p1 + ie.len())[i]
            == ie[i] by {
            assert(nibs[p1 + i] == e[ce.len() + i]);
        }
    }
    lemma_sres_items_round_trip(rs, data, p1);
}

/// Parsing an encoded whole unit-result vector yields it back.
proof fn lemma_unit_results_enc_round_trip(rs: Seq<Result<(), XpiError>>, nibs: Seq<u8>, pos: int)
    requires
        0 <= pos,
        rs.len() < 0x1_0000_0000,
        pos + unit_results_enc(rs).len() <= nibs.len(),
        nibs.subrange(pos, pos + unit_results_enc(rs).len()) == unit_results_enc(rs),
    ensures
        ({
            let ce = vlu4_enc(rs.len() as int);
            &&& vlu4_scan(nibs, pos) == VluScan::Done(ce.len() as int)
            &&& vlu4_val(nibs.subrange(pos, pos + ce.len())) == rs.len()
            &&& unit_results_parse(nibs, pos + ce.len(), rs.len() as int) == Some(
                (rs, pos + unit_results_enc(rs).len()),
            )
        }),
{
    let ce = vlu4_enc(rs.len() as int);
    let e = unit_results_enc(rs);
    let p1 = pos + ce.len();
    let ie = unit_results_items_enc(rs);
    assert(e == ce + ie);
    assert forall|i: int| 0 <= i < e.len() implies nibs[pos + i] == e[i] by {
        assert(nibs.subrange(pos, pos + e.len())[i] == e[i]);
    }
    assert(nibs.subrange(pos, pos + ce.len()) =~= ce) by {
        assert forall|i: int| 0 <= i < ce.len() implies nibs.subrange(pos, pos + ce.len())[i]
            == ce[i] by {
            assert(nibs[pos + i] == e[i]);
        }
    }
    lemma_vlu4_round_trip(rs.len() as u32, nibs, pos);
    assert(nibs.subrange(p1, p1 + ie.len()) =~= ie) by {
        assert forall|i: int| 0 <= i < ie.len() implies nibs.subrange(p1, p1 + ie.len())[i]
            == ie[i] by {
            assert(nibs[p1 + i] == e[ce.len() + i]);
        }
    }
    lemma_unit_results_round_trip(rs, nibs, p1);
}

/// Parsing an encoded kind payload yields its view.
pub proof fn lemma_kind_body_round_trip(kv: KindView, disc: u8, is_request: bool, data: Seq<u8>, pos: int)
    requires
        0 <= pos,
        kind_view_wf(kv),
        disc == crate::event::kind_view_disc(kv),
        is_request == crate::event::kind_view_is_request(kv),
        pos + kind_body_enc(kv, pos).len() <= 2 * data.len(),
        nibbles_of(data).subrange(pos, pos + kind_body_enc(kv, pos).len()) == kind_body_enc(
            kv,
            pos,
        ),
    ensures
        kind_body_parse(data, pos, is_request, disc) == Some(
            (kv, pos + kind_body_enc(kv, pos).len()),
        ),
{
    let nibs = nibbles_of(data);
    match kv {
        KindView::Call(sv) => {
            lemma_slice_arr_round_trip(sv, data, pos);
        },
        KindView::Write(sv) => {
            lemma_slice_arr_round_trip(sv, data, pos);
        },
        KindView::StreamUpdates(sv) => {
            lemma_slice_arr_round_trip(sv, data, pos);
        },
        KindView::ChainCall(b) => {
            crate::serdes::lemma_slice_item_singleton(b, pos);
            assert(crate::serdes::slice_items_enc(seq![b], pos) == kind_body_enc(kv, pos));
            assert(crate::serdes::slices_wf(seq![b])) by {
                assert(seq![b][0] == b);
            }
            crate::serdes::lemma_slice_items_round_trip(seq![b], data, pos);
            assert(seq![b][0] == b);
        },
        KindView::Subscribe(r) => {
            lemma_vlu4_arr_round_trip(r, nibs, pos);
        },
        KindView::CallResults(rs) => {
            lemma_sres_enc_round_trip(rs, data, pos);
        },
        KindView::ReadResults(rs) => {
            lemma_sres_enc_round_trip(rs, data, pos);
        },
        KindView::WriteResults(rs) => {
            lemma_unit_results_enc_round_trip(rs, nibs, pos);
        },
        KindView::SubscribeResults(rs) => {
            lemma_unit_results_enc_round_trip(rs, nibs, pos);
        },
        KindView::BorrowResults(rs) => {
            lemma_unit_results_enc_round_trip(rs, nibs, pos);
        },
        KindView::ReleaseResults(rs) => {
            lemma_unit_results_enc_round_trip(rs, nibs, pos);
        },
        KindView::OpenStreamResults(rs) => {
            lemma_unit_results_enc_round_trip(rs, nibs, pos);
        },
        KindView::CloseStreamResults(rs) => {
            lemma_unit_results_enc_round_trip(rs, nibs, pos);
        },
        KindView::InfoResults(rs) => {
            lemma_unit_results_enc_round_trip(rs, nibs, pos);
        },
        _ => {
            assert(kind_body_enc(kv, pos).len() == 0);
        },
    }
}

} // verus!
