//! The node dispatcher: parse one inbound request, resolve its resource
//! set, batch replies under the link MTU, execute the operations and commit
//! reply events to the outbound queue.

use vstd::prelude::*;
use crate::event::{
    EventView, NodeId, NodeSet, NodeSetView, Priority, XpiEvent, event_enc, rs_flat,
    serialize_event,
};
use crate::uri::uri_views;
use crate::event_kind::{KindView, XpiEventKind, XpiReplyKind, XpiRequestKind};
use crate::event::kind_view_is_request;
use crate::event::XpiError;
use crate::nibble_buf::{NibbleBufMut, nibbles_of};
use crate::outbound::{flatten_frames, lemma_flatten_frames_snoc, queue_bytes, queue_can_grant, queue_commit};
use crate::vlu4::clone_bytes;

verus! {

/// Maximum byte size of one reply event, bounded by the transport.
pub const REPLY_MTU: usize = 64;

/// Resources batched into one reply event, at most.
pub const MAX_REPLY_BATCH_LEN: usize = 16;

/// Reply events emitted for one inbound event, at most.
pub const MAX_REPLY_BATCHES: usize = 8;

/// Frame sync overhead the transport adds, in bytes.
pub const FRAME_OVERHEAD: usize = 5;

/// Nibbles reserved for the reply header fields.
pub const HEADER_NIBBLES: usize = 10;

/// Nibbles reserved for the reply trailer.
pub const TRAILER_NIBBLES: usize = 2;

/// Spare nibbles kept against estimation error.
pub const SPARE_NIBBLES: usize = 10;

/// A serialized size prediction.
#[derive(Copy, Clone, Debug, PartialEq, Eq, Structural)]
pub enum SerDesSize {
    /// Exactly this many nibbles.
    Sized(usize),
    /// No better bound than the remaining budget.
    Unsized,
}

impl SerDesSize {
    /// The most nibbles a value of this size can take from `limit`.
    pub fn upper_bound(&self, limit: usize) -> (r: usize)
        ensures
            r == self.spec_upper_bound(limit),
    {
        match self {
            SerDesSize::Sized(n) => *n,
            SerDesSize::Unsized => limit,
        }
    }

    pub open spec fn spec_upper_bound(&self, limit: usize) -> usize {
        match self {
            SerDesSize::Sized(n) => *n,
            SerDesSize::Unsized => limit,
        }
    }
}

/// How a resource will reply to the current request.
pub enum ReplySizeHint {
    /// The reply is produced in this dispatch pass; `max_size` is the budget
    /// reservation, `raw_size` what a successful result will consume, and
    /// `preliminary` an error already known without dispatching.
    Immediate { max_size: SerDesSize, raw_size: SerDesSize, preliminary: Result<(), XpiError> },
    /// The reply is produced later by a spawned handler.
    Deferred,
}

impl ReplySizeHint {
    pub open spec fn is_immediate(&self) -> bool {
        self matches ReplySizeHint::Immediate { .. }
    }
}

/// What a deferred handler needs to emit its own reply later.
pub struct ClaimToken {
    /// Where the reply must go.
    pub source: NodeId,
    /// The request id the reply must carry.
    pub request_id: u32,
    /// The priority the reply must carry.
    pub priority: Priority,
    /// The resolved resource the handler serves.
    pub uri: Vec<u32>,
}

/// The user-supplied resource table: maps a resolved URI to its
/// capabilities and performs the operations.  The dispatcher calls through
/// this narrow interface only.
pub trait ResourceTable {
    /// The prediction table this node implements: how the resource at `uri`
    /// replies to the operation named by `kind_disc`.  A pure function of
    /// the path and the operation, so size predictions stay stable across
    /// the lookahead and execute passes.
    spec fn hint_spec(uri: Seq<u32>, kind_disc: u8) -> ReplySizeHint;

    /// Predict how the resource at `uri` replies to the operation named by
    /// `kind_disc`, following `hint_spec` exactly.
    fn reply_size_hint(&mut self, uri: &Vec<u32>, kind_disc: u8) -> (r: ReplySizeHint)
        ensures
            r == Self::hint_spec(uri@, kind_disc),
    ;

    /// Synchronously call the method at `uri`; returns the serialized result.
    fn call(&mut self, uri: &Vec<u32>, args: &Vec<u8>) -> Result<Vec<u8>, XpiError>;

    /// Schedule an asynchronous call; the handler replies with the token.
    fn spawn_call(&mut self, uri: &Vec<u32>, args: &Vec<u8>, token: ClaimToken) -> Result<
        (),
        XpiError,
    >;

    /// Read the property at `uri`; returns the serialized value.
    fn read(&mut self, uri: &Vec<u32>) -> Result<Vec<u8>, XpiError>;

    /// Write the property at `uri`.
    fn write(&mut self, uri: &Vec<u32>, value: &Vec<u8>) -> Result<(), XpiError>;

    /// Subscribe, unsubscribe, borrow, release, open or close the resource
    /// at `uri`; `kind_disc` names the operation and `rate` carries the
    /// requested rate descriptor when subscribing.
    fn stream_op(&mut self, uri: &Vec<u32>, kind_disc: u8, rate: Option<u32>) -> Result<
        (),
        XpiError,
    >;
}

/// A reply event is correlated with its inbound event: it goes back to the
/// sender, carries the same request id and priority, and a fresh ttl.
pub open spec fn reply_correlated(v: EventView, ev: &XpiEvent, self_id: NodeId) -> bool {
    &&& v.source == self_id.spec_value()
    &&& v.node_set == NodeSetView::Unicast(ev.source.spec_value())
    &&& v.request_id == ev.request_id
    &&& v.priority == ev.priority
    &&& v.ttl == 15
    &&& !kind_view_is_request(v.kind)
}

/// A committed frame carries exactly the encoding of its reply event, with
/// at most one nibble of padding.
pub open spec fn frame_holds(v: EventView, f: Seq<u8>) -> bool {
    let e = event_enc(v);
    &&& 2 * f.len() == e.len() + e.len() % 2
    &&& nibbles_of(f).take(e.len() as int) == e
}

/// A committed frame is its reply event on the wire: MTU-bounded, exactly
/// the event's encoding plus padding, and parsing it back gives the event.
/// Opaque so that stating it of many frames stays cheap; `reveal` it where
/// the parts are needed.
#[verifier::opaque]
pub open spec fn frame_carries(v: EventView, f: Seq<u8>) -> bool {
    &&& f.len() <= REPLY_MTU
    &&& frame_holds(v, f)
    &&& crate::event::event_parse(f) == Some(v)
}

/// The number of result entries a reply kind carries.
pub open spec fn entries_of(kv: KindView) -> int {
    match kv {
        KindView::CallResults(rs) => rs.len() as int,
        KindView::ReadResults(rs) => rs.len() as int,
        KindView::WriteResults(rs) => rs.len() as int,
        KindView::SubscribeResults(rs) => rs.len() as int,
        KindView::BorrowResults(rs) => rs.len() as int,
        KindView::ReleaseResults(rs) => rs.len() as int,
        KindView::OpenStreamResults(rs) => rs.len() as int,
        KindView::CloseStreamResults(rs) => rs.len() as int,
        KindView::InfoResults(rs) => rs.len() as int,
        _ => 0,
    }
}

/// Total result entries across a sequence of reply events.
pub open spec fn sum_entries(rs: Seq<EventView>) -> int
    decreases rs.len(),
{
    if rs.len() == 0 {
        0
    } else {
        entries_of(rs[0].kind) + sum_entries(rs.skip(1))
    }
}

/// Appending one reply adds its entries.
pub proof fn lemma_sum_entries_snoc(rs: Seq<EventView>, v: EventView)
    ensures
        sum_entries(rs.push(v)) == sum_entries(rs) + entries_of(v.kind),
    decreases rs.len(),
{
    if rs.len() == 0 {
        assert(rs.push(v)[0] == v);
        assert(rs.push(v).skip(1) =~= Seq::<EventView>::empty());
        assert(sum_entries(rs.push(v)) == entries_of(v.kind) + sum_entries(rs.push(v).skip(1)));
    } else {
        lemma_sum_entries_snoc(rs.skip(1), v);
        assert(rs.push(v).skip(1) =~= rs.skip(1).push(v));
        assert(rs.push(v)[0] == rs[0]);
        assert(sum_entries(rs.push(v)) == entries_of(rs[0].kind) + sum_entries(rs.push(v).skip(1)));
    }
}

/// What one dispatch pass emitted.
pub struct DispatchOutcome {
    /// Result entries emitted across all committed replies.
    pub immediate_results: usize,
    /// Deferred handlers spawned.
    pub deferred_spawned: usize,
    /// Reply events committed to the outbound queue.
    pub replies_committed: usize,
    /// Whether resources beyond the batch limits were dropped; the host is
    /// responsible for splitting such requests.
    pub saturated: bool,
    /// The committed reply frames, in order.
    pub frames: Ghost<Seq<Seq<u8>>>,
    /// The reply events the frames carry, in order.
    pub replies: Ghost<Seq<EventView>>,
    /// Per processed resource, in resolution order: its resolved path and
    /// whether the table's hint for it was immediate.
    pub consults: Ghost<Seq<(Seq<u32>, bool)>>,
    /// Per committed reply, the bounds of its slice of `consults`.
    pub spans: Ghost<Seq<(int, int)>>,
}

/// The immediate entries among a consult trace.
pub open spec fn count_immediate(cs: Seq<(Seq<u32>, bool)>) -> int
    decreases cs.len(),
{
    if cs.len() == 0 {
        0
    } else {
        (if cs[0].1 {
            1int
        } else {
            0int
        }) + count_immediate(cs.skip(1))
    }
}

/// Appending one consult adds its flag.
pub proof fn lemma_count_immediate_snoc(cs: Seq<(Seq<u32>, bool)>, c: (Seq<u32>, bool))
    ensures
        count_immediate(cs.push(c)) == count_immediate(cs) + (if c.1 {
            1int
        } else {
            0int
        }),
    decreases cs.len(),
{
    if cs.len() == 0 {
        assert(cs.push(c)[0] == c);
        assert(cs.push(c).skip(1) =~= Seq::<(Seq<u32>, bool)>::empty());
        assert(count_immediate(cs.push(c)) == (if c.1 {
            1int
        } else {
            0int
        }) + count_immediate(cs.push(c).skip(1)));
    } else {
        lemma_count_immediate_snoc(cs.skip(1), c);
        assert(cs.push(c).skip(1) =~= cs.skip(1).push(c));
        assert(cs.push(c)[0] == cs[0]);
        assert(count_immediate(cs.push(c)) == (if cs[0].1 {
            1int
        } else {
            0int
        }) + count_immediate(cs.push(c).skip(1)));
    }
}

/// Counting splits over concatenation.
pub proof fn lemma_count_immediate_concat(a: Seq<(Seq<u32>, bool)>, b: Seq<(Seq<u32>, bool)>)
    ensures
        count_immediate(a + b) == count_immediate(a) + count_immediate(b),
    decreases a.len(),
{
    if a.len() == 0 {
        assert(a + b =~= b);
    } else {
        lemma_count_immediate_concat(a.skip(1), b);
        assert((a + b).skip(1) =~= a.skip(1) + b);
        assert((a + b)[0] == a[0]);
    }
}

/// The `idx`-th result entry of a reply kind equals this error.
pub open spec fn entry_is_err(kv: KindView, idx: int, e: XpiError) -> bool {
    match kv {
        KindView::CallResults(rs) => 0 <= idx < rs.len() && rs[idx] == Err::<Seq<u8>, XpiError>(e),
        KindView::ReadResults(rs) => 0 <= idx < rs.len() && rs[idx] == Err::<Seq<u8>, XpiError>(e),
        KindView::WriteResults(rs) => 0 <= idx < rs.len() && rs[idx] == Err::<(), XpiError>(e),
        KindView::SubscribeResults(rs) => 0 <= idx < rs.len() && rs[idx] == Err::<(), XpiError>(e),
        KindView::BorrowResults(rs) => 0 <= idx < rs.len() && rs[idx] == Err::<(), XpiError>(e),
        KindView::ReleaseResults(rs) => 0 <= idx < rs.len() && rs[idx] == Err::<(), XpiError>(e),
        KindView::OpenStreamResults(rs) => 0 <= idx < rs.len() && rs[idx] == Err::<(), XpiError>(
            e,
        ),
        KindView::CloseStreamResults(rs) => 0 <= idx < rs.len() && rs[idx] == Err::<(), XpiError>(
            e,
        ),
        KindView::InfoResults(rs) => 0 <= idx < rs.len() && rs[idx] == Err::<(), XpiError>(e),
        _ => false,
    }
}

/// The request kinds this dispatcher serves through the resource table; the
/// remaining request kinds are answered with `OperationNotSupported`.
pub open spec fn served_request(ev: &XpiEvent) -> bool {
    match ev.kind {
        XpiEventKind::Request(rq) => !(rq is GetInfo || rq is ChainCall),
        _ => false,
    }
}

/// The error entry the library itself determines for a resource, before any
/// table dispatch: the hint's preliminary error on a served kind, and
/// `OperationNotSupported` on an unserved one.  `None` where the entry's
/// value depends on the table call.
pub open spec fn expected_err(ev: &XpiEvent, h: ReplySizeHint) -> Option<XpiError> {
    if served_request(ev) {
        match h {
            ReplySizeHint::Immediate { preliminary: Err(e), .. } => Some(e),
            _ => None,
        }
    } else {
        if h.is_immediate() {
            Some(XpiError::OperationNotSupported)
        } else {
            None
        }
    }
}

/// Whether a hint's budget reservation can ever fit one reply's nibble
/// budget; only an oversized fixed reservation cannot.
pub open spec fn hint_fits(h: ReplySizeHint) -> bool {
    match h {
        ReplySizeHint::Immediate { max_size: SerDesSize::Sized(n), .. } => n <= (REPLY_MTU
            - FRAME_OVERHEAD) * 2 - HEADER_NIBBLES - TRAILER_NIBBLES - SPARE_NIBBLES,
        _ => true,
    }
}

/// Whether a request kind consumes inbound argument bundles at all: only
/// calls and writes do.
pub open spec fn consumes_bundles(ev: &XpiEvent) -> bool {
    match ev.kind {
        XpiEventKind::Request(XpiRequestKind::Call { .. }) => true,
        XpiEventKind::Request(XpiRequestKind::Write { .. }) => true,
        _ => false,
    }
}

/// Whether a hint is immediate with a good preliminary result.
pub open spec fn hint_is_ok_immediate(h: ReplySizeHint) -> bool {
    h matches ReplySizeHint::Immediate { preliminary: Ok(_), .. }
}

/// How many inbound argument bundles one resource's hint consumes: on a call
/// every deferred or good-immediate hint takes one argument bundle, on a
/// write every good-immediate hint takes one value, and no other request
/// kind consumes any.
pub open spec fn hint_consumes(ev: &XpiEvent, h: ReplySizeHint) -> int {
    match ev.kind {
        XpiEventKind::Request(XpiRequestKind::Call { .. }) => if hint_is_ok_immediate(h) || h
            is Deferred {
            1int
        } else {
            0int
        },
        XpiEventKind::Request(XpiRequestKind::Write { .. }) => if hint_is_ok_immediate(h) {
            1int
        } else {
            0int
        },
        _ => 0int,
    }
}

/// The argument bundles consumed by the first `n` consulted resources: the
/// sum of each one's `hint_consumes` under the table's own hints, in path
/// order.
pub open spec fn consumed_upto<T: ResourceTable>(
    ev: &XpiEvent,
    cs: Seq<(Seq<u32>, bool)>,
    n: int,
) -> int
    decreases n,
{
    if n <= 0 {
        0
    } else {
        consumed_upto::<T>(ev, cs, n - 1) + hint_consumes(
            ev,
            T::hint_spec(cs[n - 1].0, ev.kind.spec_discriminant()),
        )
    }
}

/// The inbound argument bundles a request carries: a call's argument slices
/// or a write's value slices; other kinds carry none.
pub open spec fn inbound_bundles(ev: &XpiEvent) -> int {
    match ev.kind {
        XpiEventKind::Request(XpiRequestKind::Call { args_set }) => args_set.slices().len() as int,
        XpiEventKind::Request(XpiRequestKind::Write { values }) => values.slices().len() as int,
        _ => 0int,
    }
}

/// The consumed count depends only on the first `n` trace entries.
proof fn lemma_consumed_prefix<T: ResourceTable>(
    ev: &XpiEvent,
    a: Seq<(Seq<u32>, bool)>,
    b: Seq<(Seq<u32>, bool)>,
    n: int,
)
    requires
        forall|i: int| 0 <= i < n ==> a[i] == b[i],
    ensures
        consumed_upto::<T>(ev, a, n) == consumed_upto::<T>(ev, b, n),
    decreases n,
{
    if n > 0 {
        lemma_consumed_prefix::<T>(ev, a, b, n - 1);
    }
}

/// One batch advances the consumed count by its own hints' counts.
proof fn lemma_consumed_batch<T: ResourceTable>(
    ev: &XpiEvent,
    cs: Seq<(Seq<u32>, bool)>,
    start: int,
    hs: Seq<ReplySizeHint>,
)
    requires
        0 <= start,
        start + hs.len() <= cs.len(),
        forall|t: int|
            0 <= t < hs.len() ==> #[trigger] hs[t] == T::hint_spec(
                cs[start + t].0,
                ev.kind.spec_discriminant(),
            ),
    ensures
        consumed_upto::<T>(ev, cs, start + hs.len()) == consumed_upto::<T>(ev, cs, start) + (
        match ev.kind {
            XpiEventKind::Request(XpiRequestKind::Call { .. }) => num_consuming(hs),
            XpiEventKind::Request(XpiRequestKind::Write { .. }) => num_ok_immediate(hs),
            _ => 0int,
        }),
    decreases hs.len(),
{
    if hs.len() > 0 {
        let hs0 = hs.take(hs.len() - 1);
        assert forall|t: int| 0 <= t < hs0.len() implies #[trigger] hs0[t] == T::hint_spec(
            cs[start + t].0,
            ev.kind.spec_discriminant(),
        ) by {
            assert(hs0[t] == hs[t]);
        }
        lemma_consumed_batch::<T>(ev, cs, start, hs0);
        assert(hs =~= hs0.push(hs.last()));
        lemma_num_consuming_snoc(hs0, hs.last());
        lemma_num_ok_immediate_snoc(hs0, hs.last());
        assert(hs.last() == T::hint_spec(
            cs[start + hs.len() - 1].0,
            ev.kind.spec_discriminant(),
        ));
    }
}

/// A batch consumes at least nothing and at most one bundle per hint.
proof fn lemma_num_consuming_bounds(hs: Seq<ReplySizeHint>)
    ensures
        0 <= num_consuming(hs) <= hs.len(),
    decreases hs.len(),
{
    if hs.len() > 0 {
        lemma_num_consuming_bounds(hs.skip(1));
    }
}

/// A batch writes at least nothing and at most one value per hint.
proof fn lemma_num_ok_immediate_bounds(hs: Seq<ReplySizeHint>)
    ensures
        0 <= num_ok_immediate(hs) <= hs.len(),
    decreases hs.len(),
{
    if hs.len() > 0 {
        lemma_num_ok_immediate_bounds(hs.skip(1));
    }
}

/// Positionally matching flags and hints count the same, prefix by prefix.
pub proof fn lemma_flags_count_upto(
    cs: Seq<(Seq<u32>, bool)>,
    hs: Seq<ReplySizeHint>,
    t: int,
)
    requires
        0 <= t <= cs.len(),
        cs.len() == hs.len(),
        forall|u: int| 0 <= u < cs.len() ==> (#[trigger] cs[u]).1 == hs[u].is_immediate(),
    ensures
        count_immediate(cs.take(t)) == num_immediate(hs.take(t)),
    decreases t,
{
    if t > 0 {
        lemma_flags_count_upto(cs, hs, t - 1);
        assert(cs.take(t) =~= cs.take(t - 1).push(cs[t - 1]));
        assert(hs.take(t) =~= hs.take(t - 1).push(hs[t - 1]));
        lemma_count_immediate_snoc(cs.take(t - 1), cs[t - 1]);
        lemma_num_immediate_snoc(hs.take(t - 1), hs[t - 1]);
    }
}

/// On an error exit, what reached the queue is still a run of whole,
/// MTU-bounded, correlated reply frames.
pub open spec fn err_commits(
    fs: Seq<Seq<u8>>,
    rs: Seq<EventView>,
    ev: &XpiEvent,
    self_id: NodeId,
    old_queue: Seq<u8>,
    new_queue: Seq<u8>,
) -> bool {
    &&& fs.len() == rs.len()
    &&& new_queue == old_queue + flatten_frames(fs)
    &&& forall|i: int|
        0 <= i < rs.len() ==> reply_correlated(#[trigger] rs[i], ev, self_id) && frame_carries(
            rs[i],
            fs[i],
        )
}


/// The number of immediate hints in a batch.
pub open spec fn num_immediate(hs: Seq<ReplySizeHint>) -> int
    decreases hs.len(),
{
    if hs.len() == 0 {
        0
    } else {
        (if hs[0].is_immediate() {
            1int
        } else {
            0int
        }) + num_immediate(hs.skip(1))
    }
}

/// Appending one hint adds its immediate count.
pub proof fn lemma_num_immediate_snoc(hs: Seq<ReplySizeHint>, h: ReplySizeHint)
    ensures
        num_immediate(hs.push(h)) == num_immediate(hs) + (if h.is_immediate() {
            1int
        } else {
            0int
        }),
    decreases hs.len(),
{
    if hs.len() == 0 {
        assert(hs.push(h)[0] == h);
        assert(hs.push(h).skip(1) =~= Seq::<ReplySizeHint>::empty());
        assert(num_immediate(hs.push(h)) == (if h.is_immediate() {
            1int
        } else {
            0int
        }) + num_immediate(hs.push(h).skip(1)));
    } else {
        lemma_num_immediate_snoc(hs.skip(1), h);
        assert(hs.push(h).skip(1) =~= hs.skip(1).push(h));
        assert(hs.push(h)[0] == hs[0]);
        assert(num_immediate(hs.push(h)) == (if hs[0].is_immediate() {
            1int
        } else {
            0int
        }) + num_immediate(hs.push(h).skip(1)));
    }
}

/// The hints that consume one argument bundle: immediate hints already
/// known good, and deferred hints (their handler gets the bundle).
pub open spec fn num_consuming(hs: Seq<ReplySizeHint>) -> int
    decreases hs.len(),
{
    if hs.len() == 0 {
        0
    } else {
        (if hs[0] matches ReplySizeHint::Immediate { preliminary: Ok(_), .. } || hs[0]
            is Deferred {
            1int
        } else {
            0int
        }) + num_consuming(hs.skip(1))
    }
}

/// The immediate hints whose preliminary result is good: each consumes one
/// value bundle on a write.
pub open spec fn num_ok_immediate(hs: Seq<ReplySizeHint>) -> int
    decreases hs.len(),
{
    if hs.len() == 0 {
        0int
    } else if hs[0] matches ReplySizeHint::Immediate { preliminary: Ok(_), .. } {
        1 + num_ok_immediate(hs.skip(1))
    } else {
        num_ok_immediate(hs.skip(1))
    }
}

/// Appending one hint adds its consuming count.
pub proof fn lemma_num_consuming_snoc(hs: Seq<ReplySizeHint>, h: ReplySizeHint)
    ensures
        num_consuming(hs.push(h)) == num_consuming(hs) + (if h matches ReplySizeHint::Immediate {
            preliminary: Ok(_),
            ..
        } || h is Deferred {
            1int
        } else {
            0int
        }),
    decreases hs.len(),
{
    if hs.len() == 0 {
        assert(hs.push(h)[0] == h);
        assert(hs.push(h).skip(1) =~= Seq::<ReplySizeHint>::empty());
        assert(num_consuming(hs.push(h)) == (if h matches ReplySizeHint::Immediate {
            preliminary: Ok(_),
            ..
        } || h is Deferred {
            1int
        } else {
            0int
        }) + num_consuming(hs.push(h).skip(1)));
    } else {
        lemma_num_consuming_snoc(hs.skip(1), h);
        assert(hs.push(h).skip(1) =~= hs.skip(1).push(h));
        assert(hs.push(h)[0] == hs[0]);
        assert(num_consuming(hs.push(h)) == (if hs[0] matches ReplySizeHint::Immediate {
            preliminary: Ok(_),
            ..
        } || hs[0] is Deferred {
            1int
        } else {
            0int
        }) + num_consuming(hs.push(h).skip(1)));
    }
}

/// Appending one hint adds its good-immediate count.
pub proof fn lemma_num_ok_immediate_snoc(hs: Seq<ReplySizeHint>, h: ReplySizeHint)
    ensures
        num_ok_immediate(hs.push(h)) == num_ok_immediate(hs) + (
        if h matches ReplySizeHint::Immediate { preliminary: Ok(_), .. } {
            1int
        } else {
            0int
        }),
    decreases hs.len(),
{
    if hs.len() == 0 {
        assert(hs.push(h)[0] == h);
        assert(hs.push(h).skip(1) =~= Seq::<ReplySizeHint>::empty());
        if h matches ReplySizeHint::Immediate { preliminary: Ok(_), .. } {
            assert(num_ok_immediate(hs.push(h)) == 1 + num_ok_immediate(hs.push(h).skip(1)));
        } else {
            assert(num_ok_immediate(hs.push(h)) == num_ok_immediate(hs.push(h).skip(1)));
        }
    } else {
        lemma_num_ok_immediate_snoc(hs.skip(1), h);
        assert(hs.push(h).skip(1) =~= hs.skip(1).push(h));
        assert(hs.push(h)[0] == hs[0]);
        if hs[0] matches ReplySizeHint::Immediate { preliminary: Ok(_), .. } {
            assert(num_ok_immediate(hs.push(h)) == 1 + num_ok_immediate(hs.push(h).skip(1)));
        } else {
            assert(num_ok_immediate(hs.push(h)) == num_ok_immediate(hs.push(h).skip(1)));
        }
    }
}

/// A batch has between zero and all-immediate hints.
pub proof fn lemma_num_immediate_le(hs: Seq<ReplySizeHint>)
    ensures
        0 <= num_immediate(hs) <= hs.len(),
    decreases hs.len(),
{
    if hs.len() > 0 {
        lemma_num_immediate_le(hs.skip(1));
    }
}

/// Taking more hints never lowers the immediate count.
pub proof fn lemma_num_immediate_mono(hs: Seq<ReplySizeHint>, a: int, b: int)
    requires
        0 <= a <= b <= hs.len(),
    ensures
        num_immediate(hs.take(a)) <= num_immediate(hs.take(b)),
    decreases b - a,
{
    if a < b {
        lemma_num_immediate_mono(hs, a, b - 1);
        assert(hs.take(b) =~= hs.take(b - 1).push(hs[b - 1]));
        lemma_num_immediate_snoc(hs.take(b - 1), hs[b - 1]);
    }
}

/// Slice results are well sized when every success payload fits a 32-bit
/// length.
pub open spec fn sres_vec_wf(rs: Seq<Result<Vec<u8>, XpiError>>) -> bool {
    forall|i: int|
        0 <= i < rs.len() ==> ((#[trigger] rs[i]) matches Ok(b) ==> b@.len() < 0x1_0000_0000)
}
/// Execute one batch of calls: one result entry per immediate hint, one
/// spawned handler per deferred hint that still has an argument bundle.
/// Argument bundles are consumed one per consuming hint, in order, so later
/// resources keep their alignment; a good immediate hint with the bundles
/// exhausted yields `NoArgumentsProvided`, and a preliminary error is passed
/// through as that resource's entry without any table call.
#[verifier::rlimit(100)]
#[verifier::loop_isolation(false)]
fn run_call_set<T: ResourceTable>(
    table: &mut T,
    uris: &Vec<Vec<u32>>,
    start: usize,
    hints: &Vec<ReplySizeHint>,
    args: &Vec<Vec<u8>>,
    argc: &mut usize,
    ev: &XpiEvent,
) -> (r: (Vec<Result<Vec<u8>, XpiError>>, usize))
    requires
        start + hints@.len() <= uris@.len(),
        *old(argc) <= args@.len(),
    ensures
        r.0@.len() == num_immediate(hints@),
        r.1 <= hints@.len() - num_immediate(hints@),
        sres_vec_wf(r.0@),
        *final(argc) <= args@.len(),
        *final(argc) == vstd::math::min(
            args@.len() as int,
            *old(argc) + num_consuming(hints@),
        ),
        forall|i: int|
            0 <= i < hints@.len() ==> ((#[trigger] hints@[i]) matches ReplySizeHint::Immediate {
                preliminary: Err(e),
                ..
            } ==> r.0@[num_immediate(hints@.take(i))] == Err::<Vec<u8>, XpiError>(e)),
        forall|i: int|
            0 <= i < hints@.len() ==> ((#[trigger] hints@[i]) matches ReplySizeHint::Immediate {
                preliminary: Ok(_),
                ..
            } && *old(argc) + num_consuming(hints@.take(i)) >= args@.len()
                ==> r.0@[num_immediate(hints@.take(i))] == Err::<Vec<u8>, XpiError>(
                XpiError::NoArgumentsProvided,
            )),
{
    let total = uris.len();
    let mut out: Vec<Result<Vec<u8>, XpiError>> = Vec::new();
    let mut spawned: usize = 0;
    let mut i: usize = 0;
    while i < hints.len()
        invariant
            i <= hints@.len(),
            start + hints@.len() <= total && total == uris@.len(),
            out@.len() == num_immediate(hints@.take(i as int)),
            spawned + num_immediate(hints@.take(i as int)) <= i,
            sres_vec_wf(out@),
            *argc <= args@.len(),
            *argc == vstd::math::min(
                args@.len() as int,
                *old(argc) + num_consuming(hints@.take(i as int)),
            ),
            forall|j: int|
                0 <= j < i ==> ((#[trigger] hints@[j]) matches ReplySizeHint::Immediate {
                    preliminary: Err(e),
                    ..
                } ==> out@[num_immediate(hints@.take(j))] == Err::<Vec<u8>, XpiError>(e)),
            forall|j: int|
                0 <= j < i ==> ((#[trigger] hints@[j]) matches ReplySizeHint::Immediate {
                    preliminary: Ok(_),
                    ..
                } && *old(argc) + num_consuming(hints@.take(j)) >= args@.len()
                    ==> out@[num_immediate(hints@.take(j))] == Err::<Vec<u8>, XpiError>(
                    XpiError::NoArgumentsProvided,
                )),
        decreases hints@.len() - i,
    {
        proof {
            assert(hints@.take(i + 1) =~= hints@.take(i as int).push(hints@[i as int]));
            lemma_num_immediate_snoc(hints@.take(i as int), hints@[i as int]);
            lemma_num_consuming_snoc(hints@.take(i as int), hints@[i as int]);
        }
        let ghost out_pre = out@;
        let uri = &uris[start + i];
        match &hints[i] {
            ReplySizeHint::Immediate { preliminary, .. } => {
                match preliminary {
                    Ok(_) => {
                        if *argc < args.len() {
                            let a = &args[*argc];
                            *argc = *argc + 1;
                            match table.call(uri, a) {
                                Ok(bytes) => {
                                    if (bytes.len() as u64) < 0x1_0000_0000u64 {
                                        out.push(Ok(bytes));
                                    } else {
                                        out.push(Err(XpiError::Internal));
                                    }
                                },
                                Err(e) => {
                                    out.push(Err(e));
                                },
                            }
                        } else {
                            out.push(Err(XpiError::NoArgumentsProvided));
                        }
                    },
                    Err(e) => {
                        out.push(Err(*e));
                    },
                }
            },
            ReplySizeHint::Deferred => {
                if *argc < args.len() {
                    let a = clone_bytes(&args[*argc]);
                    *argc = *argc + 1;
                    let token = ClaimToken {
                        source: ev.source,
                        request_id: ev.request_id,
                        priority: ev.priority,
                        uri: crate::vlu4::clone_u32s(uri),
                    };
                    match table.spawn_call(uri, &a, token) {
                        Ok(_) => {
                            if spawned < usize::MAX {
                                spawned = spawned + 1;
                            }
                        },
                        Err(_) => (),
                    }
                }
            },
        }
        i = i + 1;
        proof {
            assert forall|j: int| 0 <= j < i implies ((#[trigger] hints@[j]) matches
            ReplySizeHint::Immediate { preliminary: Err(e), .. } ==> out@[num_immediate(
                hints@.take(j),
            )] == Err::<Vec<u8>, XpiError>(e)) by {
                if j < i - 1 && hints@[j] is Immediate {
                    lemma_num_immediate_le(hints@.take(j));
                    assert(hints@.take(j + 1) =~= hints@.take(j).push(hints@[j]));
                    lemma_num_immediate_snoc(hints@.take(j), hints@[j]);
                    lemma_num_immediate_mono(hints@, j + 1, i - 1);
                    assert(out@[num_immediate(hints@.take(j))] == out_pre[num_immediate(
                        hints@.take(j),
                    )]);
                }
            }
            assert forall|j: int| 0 <= j < i implies ((#[trigger] hints@[j]) matches
            ReplySizeHint::Immediate { preliminary: Ok(_), .. } && *old(argc) + num_consuming(
                hints@.take(j),
            ) >= args@.len() ==> out@[num_immediate(hints@.take(j))] == Err::<Vec<u8>, XpiError>(
                XpiError::NoArgumentsProvided,
            )) by {
                if j < i - 1 && hints@[j] is Immediate {
                    lemma_num_immediate_le(hints@.take(j));
                    assert(hints@.take(j + 1) =~= hints@.take(j).push(hints@[j]));
                    lemma_num_immediate_snoc(hints@.take(j), hints@[j]);
                    lemma_num_immediate_mono(hints@, j + 1, i - 1);
                    assert(out@[num_immediate(hints@.take(j))] == out_pre[num_immediate(
                        hints@.take(j),
                    )]);
                }
            }
        }
    }
    proof {
        assert(hints@.take(hints@.len() as int) =~= hints@);
    }
    (out, spawned)
}

/// Execute one batch of reads: one result entry per immediate hint; a
/// preliminary error is passed through without any table call.
#[verifier::loop_isolation(false)]
fn run_read_set<T: ResourceTable>(
    table: &mut T,
    uris: &Vec<Vec<u32>>,
    start: usize,
    hints: &Vec<ReplySizeHint>,
) -> (r: Vec<Result<Vec<u8>, XpiError>>)
    requires
        start + hints@.len() <= uris@.len(),
    ensures
        r@.len() == num_immediate(hints@),
        sres_vec_wf(r@),
        forall|i: int|
            0 <= i < hints@.len() ==> ((#[trigger] hints@[i]) matches ReplySizeHint::Immediate {
                preliminary: Err(e),
                ..
            } ==> r@[num_immediate(hints@.take(i))] == Err::<Vec<u8>, XpiError>(e)),
{
    let total = uris.len();
    let mut out: Vec<Result<Vec<u8>, XpiError>> = Vec::new();
    let mut i: usize = 0;
    while i < hints.len()
        invariant
            i <= hints@.len(),
            start + hints@.len() <= total && total == uris@.len(),
            out@.len() == num_immediate(hints@.take(i as int)),
            sres_vec_wf(out@),
            forall|j: int|
                0 <= j < i ==> ((#[trigger] hints@[j]) matches ReplySizeHint::Immediate {
                    preliminary: Err(e),
                    ..
                } ==> out@[num_immediate(hints@.take(j))] == Err::<Vec<u8>, XpiError>(e)),
        decreases hints@.len() - i,
    {
        proof {
            assert(hints@.take(i + 1) =~= hints@.take(i as int).push(hints@[i as int]));
            lemma_num_immediate_snoc(hints@.take(i as int), hints@[i as int]);
        }
        let ghost out_pre = out@;
        let uri = &uris[start + i];
        match &hints[i] {
            ReplySizeHint::Immediate { preliminary, .. } => {
                match preliminary {
                    Ok(_) => match table.read(uri) {
                        Ok(bytes) => {
                            if (bytes.len() as u64) < 0x1_0000_0000u64 {
                                out.push(Ok(bytes));
                            } else {
                                out.push(Err(XpiError::Internal));
                            }
                        },
                        Err(e) => {
                            out.push(Err(e));
                        },
                    },
                    Err(e) => {
                        out.push(Err(*e));
                    },
                }
            },
            ReplySizeHint::Deferred => (),
        }
        i = i + 1;
        proof {
            assert forall|j: int| 0 <= j < i implies ((#[trigger] hints@[j]) matches
            ReplySizeHint::Immediate { preliminary: Err(e), .. } ==> out@[num_immediate(
                hints@.take(j),
            )] == Err::<Vec<u8>, XpiError>(e)) by {
                if j < i - 1 && hints@[j] is Immediate {
                    lemma_num_immediate_le(hints@.take(j));
                    assert(hints@.take(j + 1) =~= hints@.take(j).push(hints@[j]));
                    lemma_num_immediate_snoc(hints@.take(j), hints@[j]);
                    lemma_num_immediate_mono(hints@, j + 1, i - 1);
                    assert(out@[num_immediate(hints@.take(j))] == out_pre[num_immediate(
                        hints@.take(j),
                    )]);
                }
            }
        }
    }
    proof {
        assert(hints@.take(hints@.len() as int) =~= hints@);
    }
    out
}

/// Execute one batch of writes: one result entry per immediate hint.  Value
/// bundles are consumed one per good immediate hint, in order; a good hint
/// with the values exhausted yields `NoArgumentsProvided`, and a preliminary
/// error is passed through without any table call.
#[verifier::rlimit(100)]
#[verifier::loop_isolation(false)]
fn run_write_set<T: ResourceTable>(
    table: &mut T,
    uris: &Vec<Vec<u32>>,
    start: usize,
    hints: &Vec<ReplySizeHint>,
    values: &Vec<Vec<u8>>,
    valc: &mut usize,
) -> (r: Vec<Result<(), XpiError>>)
    requires
        start + hints@.len() <= uris@.len(),
        *old(valc) <= values@.len(),
    ensures
        r@.len() == num_immediate(hints@),
        *final(valc) <= values@.len(),
        *final(valc) == vstd::math::min(
            values@.len() as int,
            *old(valc) + num_ok_immediate(hints@),
        ),
        forall|i: int|
            0 <= i < hints@.len() ==> ((#[trigger] hints@[i]) matches ReplySizeHint::Immediate {
                preliminary: Err(e),
                ..
            } ==> r@[num_immediate(hints@.take(i))] == Err::<(), XpiError>(e)),
        forall|i: int|
            0 <= i < hints@.len() ==> ((#[trigger] hints@[i]) matches ReplySizeHint::Immediate {
                preliminary: Ok(_),
                ..
            } && *old(valc) + num_ok_immediate(hints@.take(i)) >= values@.len()
                ==> r@[num_immediate(hints@.take(i))] == Err::<(), XpiError>(
                XpiError::NoArgumentsProvided,
            )),
{
    let total = uris.len();
    let mut out: Vec<Result<(), XpiError>> = Vec::new();
    let mut i: usize = 0;
    while i < hints.len()
        invariant
            i <= hints@.len(),
            start + hints@.len() <= total && total == uris@.len(),
            out@.len() == num_immediate(hints@.take(i as int)),
            *valc <= values@.len(),
            *valc == vstd::math::min(
                values@.len() as int,
                *old(valc) + num_ok_immediate(hints@.take(i as int)),
            ),
            forall|j: int|
                0 <= j < i ==> ((#[trigger] hints@[j]) matches ReplySizeHint::Immediate {
                    preliminary: Err(e),
                    ..
                } ==> out@[num_immediate(hints@.take(j))] == Err::<(), XpiError>(e)),
            forall|j: int|
                0 <= j < i ==> ((#[trigger] hints@[j]) matches ReplySizeHint::Immediate {
                    preliminary: Ok(_),
                    ..
                } && *old(valc) + num_ok_immediate(hints@.take(j)) >= values@.len()
                    ==> out@[num_immediate(hints@.take(j))] == Err::<(), XpiError>(
                    XpiError::NoArgumentsProvided,
                )),
        decreases hints@.len() - i,
    {
        proof {
            assert(hints@.take(i + 1) =~= hints@.take(i as int).push(hints@[i as int]));
            lemma_num_immediate_snoc(hints@.take(i as int), hints@[i as int]);
            lemma_num_ok_immediate_snoc(hints@.take(i as int), hints@[i as int]);
        }
        let ghost out_pre = out@;
        let uri = &uris[start + i];
        match &hints[i] {
            ReplySizeHint::Immediate { preliminary, .. } => {
                match preliminary {
                    Ok(_) => {
                        if *valc < values.len() {
                            let v = &values[*valc];
                            *valc = *valc + 1;
                            out.push(table.write(uri, v));
                        } else {
                            out.push(Err(XpiError::NoArgumentsProvided));
                        }
                    },
                    Err(e) => {
                        out.push(Err(*e));
                    },
                }
            },
            ReplySizeHint::Deferred => (),
        }
        i = i + 1;
        proof {
            assert forall|j: int| 0 <= j < i implies ((#[trigger] hints@[j]) matches
            ReplySizeHint::Immediate { preliminary: Err(e), .. } ==> out@[num_immediate(
                hints@.take(j),
            )] == Err::<(), XpiError>(e)) by {
                if j < i - 1 && hints@[j] is Immediate {
                    lemma_num_immediate_le(hints@.take(j));
                    assert(hints@.take(j + 1) =~= hints@.take(j).push(hints@[j]));
                    lemma_num_immediate_snoc(hints@.take(j), hints@[j]);
                    lemma_num_immediate_mono(hints@, j + 1, i - 1);
                    assert(out@[num_immediate(hints@.take(j))] == out_pre[num_immediate(
                        hints@.take(j),
                    )]);
                }
            }
            assert forall|j: int| 0 <= j < i implies ((#[trigger] hints@[j]) matches
            ReplySizeHint::Immediate { preliminary: Ok(_), .. } && *old(valc) + num_ok_immediate(
                hints@.take(j),
            ) >= values@.len() ==> out@[num_immediate(hints@.take(j))] == Err::<(), XpiError>(
                XpiError::NoArgumentsProvided,
            )) by {
                if j < i - 1 && hints@[j] is Immediate {
                    lemma_num_immediate_le(hints@.take(j));
                    assert(hints@.take(j + 1) =~= hints@.take(j).push(hints@[j]));
                    lemma_num_immediate_snoc(hints@.take(j), hints@[j]);
                    lemma_num_immediate_mono(hints@, j + 1, i - 1);
                    assert(out@[num_immediate(hints@.take(j))] == out_pre[num_immediate(
                        hints@.take(j),
                    )]);
                }
            }
        }
    }
    proof {
        assert(hints@.take(hints@.len() as int) =~= hints@);
    }
    out
}

/// Execute one batch of stream or ownership operations: one unit result per
/// immediate hint; a preliminary error is passed through without any table
/// call, and deferred hints spawn a handler without arguments.  When
/// subscribing, one rate descriptor is handed over per resource, in order.
#[verifier::rlimit(100)]
#[verifier::loop_isolation(false)]
fn run_stream_op_set<T: ResourceTable>(
    table: &mut T,
    uris: &Vec<Vec<u32>>,
    start: usize,
    hints: &Vec<ReplySizeHint>,
    kind_disc: u8,
    rates: &Vec<u32>,
    ev: &XpiEvent,
) -> (r: (Vec<Result<(), XpiError>>, usize))
    requires
        start + hints@.len() <= uris@.len(),
    ensures
        r.0@.len() == num_immediate(hints@),
        r.1 <= hints@.len() - num_immediate(hints@),
        forall|i: int|
            0 <= i < hints@.len() ==> ((#[trigger] hints@[i]) matches ReplySizeHint::Immediate {
                preliminary: Err(e),
                ..
            } ==> r.0@[num_immediate(hints@.take(i))] == Err::<(), XpiError>(e)),
{
    let total = uris.len();
    let mut out: Vec<Result<(), XpiError>> = Vec::new();
    let mut spawned: usize = 0;
    let mut i: usize = 0;
    let empty_args: Vec<u8> = Vec::new();
    while i < hints.len()
        invariant
            i <= hints@.len(),
            start + hints@.len() <= total && total == uris@.len(),
            out@.len() == num_immediate(hints@.take(i as int)),
            spawned + num_immediate(hints@.take(i as int)) <= i,
            forall|j: int|
                0 <= j < i ==> ((#[trigger] hints@[j]) matches ReplySizeHint::Immediate {
                    preliminary: Err(e),
                    ..
                } ==> out@[num_immediate(hints@.take(j))] == Err::<(), XpiError>(e)),
        decreases hints@.len() - i,
    {
        proof {
            assert(hints@.take(i + 1) =~= hints@.take(i as int).push(hints@[i as int]));
            lemma_num_immediate_snoc(hints@.take(i as int), hints@[i as int]);
        }
        let ghost out_pre = out@;
        let uri = &uris[start + i];
        let rate: Option<u32> = if start + i < rates.len() {
            Some(rates[start + i])
        } else {
            None
        };
        match &hints[i] {
            ReplySizeHint::Immediate { preliminary, .. } => {
                match preliminary {
                    Ok(_) => {
                        out.push(table.stream_op(uri, kind_disc, rate));
                    },
                    Err(e) => {
                        out.push(Err(*e));
                    },
                }
            },
            ReplySizeHint::Deferred => {
                let token = ClaimToken {
                    source: ev.source,
                    request_id: ev.request_id,
                    priority: ev.priority,
                    uri: crate::vlu4::clone_u32s(uri),
                };
                match table.spawn_call(uri, &empty_args, token) {
                    Ok(_) => {
                        if spawned < usize::MAX {
                            spawned = spawned + 1;
                        }
                    },
                    Err(_) => (),
                }
            },
        }
        i = i + 1;
        proof {
            assert forall|j: int| 0 <= j < i implies ((#[trigger] hints@[j]) matches
            ReplySizeHint::Immediate { preliminary: Err(e), .. } ==> out@[num_immediate(
                hints@.take(j),
            )] == Err::<(), XpiError>(e)) by {
                if j < i - 1 && hints@[j] is Immediate {
                    lemma_num_immediate_le(hints@.take(j));
                    assert(hints@.take(j + 1) =~= hints@.take(j).push(hints@[j]));
                    lemma_num_immediate_snoc(hints@.take(j), hints@[j]);
                    lemma_num_immediate_mono(hints@, j + 1, i - 1);
                    assert(out@[num_immediate(hints@.take(j))] == out_pre[num_immediate(
                        hints@.take(j),
                    )]);
                }
            }
        }
    }
    proof {
        assert(hints@.take(hints@.len() as int) =~= hints@);
    }
    (out, spawned)
}

/// One unsupported-operation result per immediate hint, for request kinds
/// the dispatcher does not serve.
#[verifier::loop_isolation(false)]
fn run_unsupported_set(hints: &Vec<ReplySizeHint>) -> (r: Vec<Result<(), XpiError>>)
    ensures
        r@.len() == num_immediate(hints@),
        forall|j: int|
            0 <= j < r@.len() ==> #[trigger] r@[j] == Err::<(), XpiError>(
                XpiError::OperationNotSupported,
            ),
{
    let mut out: Vec<Result<(), XpiError>> = Vec::new();
    let mut i: usize = 0;
    while i < hints.len()
        invariant
            i <= hints@.len(),
            out@.len() == num_immediate(hints@.take(i as int)),
            forall|j: int|
                0 <= j < out@.len() ==> #[trigger] out@[j] == Err::<(), XpiError>(
                    XpiError::OperationNotSupported,
                ),
        decreases hints@.len() - i,
    {
        proof {
            assert(hints@.take(i + 1) =~= hints@.take(i as int).push(hints@[i as int]));
            lemma_num_immediate_snoc(hints@.take(i as int), hints@[i as int]);
        }
        match &hints[i] {
            ReplySizeHint::Immediate { .. } => {
                out.push(Err(XpiError::OperationNotSupported));
            },
            ReplySizeHint::Deferred => (),
        }
        i = i + 1;
    }
    proof {
        assert(hints@.take(hints@.len() as int) =~= hints@);
    }
    out
}


/// Lift the per-index error clause of a unit-result batch to the hint
/// table's expected errors.
proof fn lemma_entries_unit(hs: Seq<ReplySizeHint>, rs: Seq<Result<(), XpiError>>, ev: &XpiEvent)
    requires
        served_request(ev),
        rs.len() == num_immediate(hs),
        forall|i: int|
            0 <= i < hs.len() ==> ((#[trigger] hs[i]) matches ReplySizeHint::Immediate {
                preliminary: Err(e),
                ..
            } ==> rs[num_immediate(hs.take(i))] == Err::<(), XpiError>(e)),
    ensures
        forall|t: int|
            0 <= t < hs.len() ==> (expected_err(ev, #[trigger] hs[t]) matches Some(e) ==> 0
                <= num_immediate(hs.take(t)) < rs.len() && rs[num_immediate(hs.take(t))]
                == Err::<(), XpiError>(e)),
{
    assert forall|t: int| 0 <= t < hs.len() implies (expected_err(ev, #[trigger] hs[t]) matches
    Some(e) ==> 0 <= num_immediate(hs.take(t)) < rs.len() && rs[num_immediate(hs.take(t))]
        == Err::<(), XpiError>(e)) by {
        if hs[t] is Immediate {
            lemma_num_immediate_le(hs.take(t));
            assert(hs.take(t + 1) =~= hs.take(t).push(hs[t]));
            lemma_num_immediate_snoc(hs.take(t), hs[t]);
            lemma_num_immediate_mono(hs, t + 1, hs.len() as int);
            assert(hs.take(hs.len() as int) =~= hs);
        }
    }
}

/// Lift the per-index error clause of a slice-result batch to the hint
/// table's expected errors, through the view.
proof fn lemma_entries_sres(
    hs: Seq<ReplySizeHint>,
    rs: Seq<Result<Vec<u8>, XpiError>>,
    ev: &XpiEvent,
)
    requires
        served_request(ev),
        rs.len() == num_immediate(hs),
        forall|i: int|
            0 <= i < hs.len() ==> ((#[trigger] hs[i]) matches ReplySizeHint::Immediate {
                preliminary: Err(e),
                ..
            } ==> rs[num_immediate(hs.take(i))] == Err::<Vec<u8>, XpiError>(e)),
    ensures
        forall|t: int|
            0 <= t < hs.len() ==> (expected_err(ev, #[trigger] hs[t]) matches Some(e) ==> 0
                <= num_immediate(hs.take(t)) < rs.len() && crate::event_kind::sres_views(
                rs,
            )[num_immediate(hs.take(t))] == Err::<Seq<u8>, XpiError>(e)),
{
    assert forall|t: int| 0 <= t < hs.len() implies (expected_err(ev, #[trigger] hs[t]) matches
    Some(e) ==> 0 <= num_immediate(hs.take(t)) < rs.len() && crate::event_kind::sres_views(
        rs,
    )[num_immediate(hs.take(t))] == Err::<Seq<u8>, XpiError>(e)) by {
        if hs[t] is Immediate {
            lemma_num_immediate_le(hs.take(t));
            assert(hs.take(t + 1) =~= hs.take(t).push(hs[t]));
            lemma_num_immediate_snoc(hs.take(t), hs[t]);
            lemma_num_immediate_mono(hs, t + 1, hs.len() as int);
            assert(hs.take(hs.len() as int) =~= hs);
            if let Some(e) = expected_err(ev, hs[t]) {
                let idx = num_immediate(hs.take(t));
                assert(crate::event_kind::sres_views(rs)[idx] == match rs[idx] {
                    Ok(b) => Ok::<Seq<u8>, XpiError>(b@),
                    Err(e2) => Err::<Seq<u8>, XpiError>(e2),
                });
            }
        }
    }
}

/// Lift the all-unsupported clause of an unserved batch to expected errors.
proof fn lemma_entries_unsupported(
    hs: Seq<ReplySizeHint>,
    rs: Seq<Result<(), XpiError>>,
    ev: &XpiEvent,
)
    requires
        !served_request(ev),
        rs.len() == num_immediate(hs),
        forall|j: int|
            0 <= j < rs.len() ==> #[trigger] rs[j] == Err::<(), XpiError>(
                XpiError::OperationNotSupported,
            ),
    ensures
        forall|t: int|
            0 <= t < hs.len() ==> (expected_err(ev, #[trigger] hs[t]) matches Some(e) ==> 0
                <= num_immediate(hs.take(t)) < rs.len() && rs[num_immediate(hs.take(t))]
                == Err::<(), XpiError>(e)),
{
    assert forall|t: int| 0 <= t < hs.len() implies (expected_err(ev, #[trigger] hs[t]) matches
    Some(e) ==> 0 <= num_immediate(hs.take(t)) < rs.len() && rs[num_immediate(hs.take(t))]
        == Err::<(), XpiError>(e)) by {
        if hs[t] is Immediate {
            lemma_num_immediate_le(hs.take(t));
            assert(hs.take(t + 1) =~= hs.take(t).push(hs[t]));
            lemma_num_immediate_snoc(hs.take(t), hs[t]);
            lemma_num_immediate_mono(hs, t + 1, hs.len() as int);
            assert(hs.take(hs.len() as int) =~= hs);
        }
    }
}

/// Lift the argument-exhaustion clause of a slice-result batch through the
/// view: a good immediate hint past the bundle supply yields the
/// `NoArgumentsProvided` entry.
proof fn lemma_exhaust_sres(
    hs: Seq<ReplySizeHint>,
    rs: Seq<Result<Vec<u8>, XpiError>>,
    c0: int,
    bundles: int,
)
    requires
        rs.len() == num_immediate(hs),
        forall|i: int|
            0 <= i < hs.len() ==> ((#[trigger] hs[i]) matches ReplySizeHint::Immediate {
                preliminary: Ok(_),
                ..
            } && c0 + num_consuming(hs.take(i)) >= bundles ==> rs[num_immediate(hs.take(i))]
                == Err::<Vec<u8>, XpiError>(XpiError::NoArgumentsProvided)),
    ensures
        forall|t: int|
            0 <= t < hs.len() ==> (hint_is_ok_immediate(#[trigger] hs[t]) && c0 + num_consuming(
                hs.take(t),
            ) >= bundles ==> 0 <= num_immediate(hs.take(t)) < rs.len()
                && crate::event_kind::sres_views(rs)[num_immediate(hs.take(t))] == Err::<
                Seq<u8>,
                XpiError,
            >(XpiError::NoArgumentsProvided)),
{
    assert forall|t: int| 0 <= t < hs.len() implies (hint_is_ok_immediate(#[trigger] hs[t]) && c0
        + num_consuming(hs.take(t)) >= bundles ==> 0 <= num_immediate(hs.take(t)) < rs.len()
        && crate::event_kind::sres_views(rs)[num_immediate(hs.take(t))] == Err::<Seq<u8>, XpiError>(
        XpiError::NoArgumentsProvided,
    )) by {
        if hs[t] is Immediate {
            lemma_num_immediate_le(hs.take(t));
            assert(hs.take(t + 1) =~= hs.take(t).push(hs[t]));
            lemma_num_immediate_snoc(hs.take(t), hs[t]);
            lemma_num_immediate_mono(hs, t + 1, hs.len() as int);
            assert(hs.take(hs.len() as int) =~= hs);
            let idx = num_immediate(hs.take(t));
            if 0 <= idx < rs.len() {
                assert(crate::event_kind::sres_views(rs)[idx] == match rs[idx] {
                    Ok(b) => Ok::<Seq<u8>, XpiError>(b@),
                    Err(e2) => Err::<Seq<u8>, XpiError>(e2),
                });
            }
        }
    }
}

/// Lift the value-exhaustion clause of a unit-result batch: a good immediate
/// hint past the value supply yields the `NoArgumentsProvided` entry.
proof fn lemma_exhaust_unit(
    hs: Seq<ReplySizeHint>,
    rs: Seq<Result<(), XpiError>>,
    c0: int,
    bundles: int,
)
    requires
        rs.len() == num_immediate(hs),
        forall|i: int|
            0 <= i < hs.len() ==> ((#[trigger] hs[i]) matches ReplySizeHint::Immediate {
                preliminary: Ok(_),
                ..
            } && c0 + num_ok_immediate(hs.take(i)) >= bundles ==> rs[num_immediate(hs.take(i))]
                == Err::<(), XpiError>(XpiError::NoArgumentsProvided)),
    ensures
        forall|t: int|
            0 <= t < hs.len() ==> (hint_is_ok_immediate(#[trigger] hs[t]) && c0
                + num_ok_immediate(hs.take(t)) >= bundles ==> 0 <= num_immediate(hs.take(t))
                < rs.len() && rs[num_immediate(hs.take(t))] == Err::<(), XpiError>(
                XpiError::NoArgumentsProvided,
            )),
{
    assert forall|t: int| 0 <= t < hs.len() implies (hint_is_ok_immediate(#[trigger] hs[t]) && c0
        + num_ok_immediate(hs.take(t)) >= bundles ==> 0 <= num_immediate(hs.take(t)) < rs.len()
        && rs[num_immediate(hs.take(t))] == Err::<(), XpiError>(XpiError::NoArgumentsProvided)) by {
        if hs[t] is Immediate {
            lemma_num_immediate_le(hs.take(t));
            assert(hs.take(t + 1) =~= hs.take(t).push(hs[t]));
            lemma_num_immediate_snoc(hs.take(t), hs[t]);
            lemma_num_immediate_mono(hs, t + 1, hs.len() as int);
            assert(hs.take(hs.len() as int) =~= hs);
        }
    }
}

/// Vector-level well-sizedness carries over to the view.
proof fn lemma_sres_vec_wf_views(rs: Seq<Result<Vec<u8>, XpiError>>)
    requires
        sres_vec_wf(rs),
        rs.len() < 0x1_0000_0000,
    ensures
        crate::event_kind::sres_wf(crate::event_kind::sres_views(rs)),
{
    let vs = crate::event_kind::sres_views(rs);
    assert forall|i: int| 0 <= i < vs.len() implies ((#[trigger] vs[i]) matches Ok(b) ==> b.len()
        < 0x1_0000_0000) by {
        match rs[i] {
            Ok(bv) => {
                assert(vs[i] == Ok::<Seq<u8>, XpiError>(bv@));
            },
            Err(_) => (),
        }
    }
}

/// Execute one batch for the request kind of `ev` and collect its reply
/// kind: one result entry per immediate hint.
#[verifier::rlimit(100)]
fn run_batch<T: ResourceTable>(
    table: &mut T,
    ev: &XpiEvent,
    uris: &Vec<Vec<u32>>,
    batch_start: usize,
    hints: &Vec<ReplySizeHint>,
    args: &Vec<Vec<u8>>,
    argc: &mut usize,
    rates: &Vec<u32>,
    kind_disc: u8,
) -> (r: (XpiReplyKind, usize))
    requires
        batch_start + hints@.len() <= uris@.len(),
        hints@.len() <= MAX_REPLY_BATCH_LEN,
        *old(argc) <= args@.len(),
        ev.kind is Request,
    ensures
        entries_of(XpiEventKind::Reply(r.0).view()) == num_immediate(hints@),
        XpiEventKind::Reply(r.0).wf(),
        *final(argc) <= args@.len(),
        r.1 <= hints@.len() - num_immediate(hints@),
        forall|t: int|
            0 <= t < hints@.len() ==> (expected_err(ev, #[trigger] hints@[t]) matches Some(e)
                ==> entry_is_err(
                XpiEventKind::Reply(r.0).view(),
                num_immediate(hints@.take(t)),
                e,
            )),
        *final(argc) as int == (match ev.kind {
            XpiEventKind::Request(XpiRequestKind::Call { .. }) => vstd::math::min(
                args@.len() as int,
                *old(argc) + num_consuming(hints@),
            ),
            XpiEventKind::Request(XpiRequestKind::Write { .. }) => vstd::math::min(
                args@.len() as int,
                *old(argc) + num_ok_immediate(hints@),
            ),
            _ => *old(argc) as int,
        }),
        ev.kind matches XpiEventKind::Request(XpiRequestKind::Call { .. }) ==> forall|t: int|
            0 <= t < hints@.len() ==> (hint_is_ok_immediate(#[trigger] hints@[t]) && *old(argc)
                + num_consuming(hints@.take(t)) >= args@.len() ==> entry_is_err(
                XpiEventKind::Reply(r.0).view(),
                num_immediate(hints@.take(t)),
                XpiError::NoArgumentsProvided,
            )),
        ev.kind matches XpiEventKind::Request(XpiRequestKind::Write { .. }) ==> forall|t: int|
            0 <= t < hints@.len() ==> (hint_is_ok_immediate(#[trigger] hints@[t]) && *old(argc)
                + num_ok_immediate(hints@.take(t)) >= args@.len() ==> entry_is_err(
                XpiEventKind::Reply(r.0).view(),
                num_immediate(hints@.take(t)),
                XpiError::NoArgumentsProvided,
            )),
{
    proof {
        lemma_num_immediate_le(hints@);
    }
    match &ev.kind {
        XpiEventKind::Request(XpiRequestKind::Call { .. }) => {
            let (res, sp) = run_call_set(table, uris, batch_start, hints, args, argc, ev);
            proof {
                lemma_sres_vec_wf_views(res@);
                lemma_entries_sres(hints@, res@, ev);
                lemma_exhaust_sres(hints@, res@, *old(argc) as int, args@.len() as int);
            }
            (XpiReplyKind::CallResults(res), sp)
        },
        XpiEventKind::Request(XpiRequestKind::Read) => {
            let res = run_read_set(table, uris, batch_start, hints);
            proof {
                lemma_sres_vec_wf_views(res@);
                lemma_entries_sres(hints@, res@, ev);
            }
            (XpiReplyKind::ReadResults(res), 0)
        },
        XpiEventKind::Request(XpiRequestKind::Write { .. }) => {
            let res = run_write_set(table, uris, batch_start, hints, args, argc);
            proof {
                lemma_entries_unit(hints@, res@, ev);
                lemma_exhaust_unit(hints@, res@, *old(argc) as int, args@.len() as int);
            }
            (XpiReplyKind::WriteResults(res), 0)
        },
        XpiEventKind::Request(XpiRequestKind::Subscribe { .. }) => {
            let (res, sp) = run_stream_op_set(table, uris, batch_start, hints, kind_disc, rates,
                ev);
            proof {
                lemma_entries_unit(hints@, res@, ev);
            }
            (XpiReplyKind::SubscribeResults(res), sp)
        },
        XpiEventKind::Request(XpiRequestKind::Unsubscribe) => {
            let (res, _) = run_stream_op_set(table, uris, batch_start, hints, kind_disc, rates,
                ev);
            proof {
                lemma_entries_unit(hints@, res@, ev);
            }
            (XpiReplyKind::SubscribeResults(res), 0)
        },
        XpiEventKind::Request(XpiRequestKind::Borrow) => {
            let (res, _) = run_stream_op_set(table, uris, batch_start, hints, kind_disc, rates,
                ev);
            proof {
                lemma_entries_unit(hints@, res@, ev);
            }
            (XpiReplyKind::BorrowResults(res), 0)
        },
        XpiEventKind::Request(XpiRequestKind::Release) => {
            let (res, _) = run_stream_op_set(table, uris, batch_start, hints, kind_disc, rates,
                ev);
            proof {
                lemma_entries_unit(hints@, res@, ev);
            }
            (XpiReplyKind::ReleaseResults(res), 0)
        },
        XpiEventKind::Request(XpiRequestKind::OpenStreams) => {
            let (res, sp) = run_stream_op_set(table, uris, batch_start, hints, kind_disc, rates,
                ev);
            proof {
                lemma_entries_unit(hints@, res@, ev);
            }
            (XpiReplyKind::OpenStreamResults(res), sp)
        },
        XpiEventKind::Request(XpiRequestKind::CloseStreams) => {
            let (res, _) = run_stream_op_set(table, uris, batch_start, hints, kind_disc, rates,
                ev);
            proof {
                lemma_entries_unit(hints@, res@, ev);
            }
            (XpiReplyKind::CloseStreamResults(res), 0)
        },
        _ => {
            // GetInfo and ChainCall are not served by this dispatcher
            let res = run_unsupported_set(hints);
            proof {
                lemma_entries_unsupported(hints@, res@, ev);
            }
            (XpiReplyKind::InfoResults(res), 0)
        },
    }
}

/// Serialize one reply event into its own MTU-sized frame, padded to whole
/// bytes.
#[verifier::rlimit(100)]
#[verifier::spinoff_prover]
fn build_reply_frame(reply: &XpiEvent) -> (r: Result<Vec<u8>, XpiError>)
    requires
        reply.wf(),
    ensures
        r matches Ok(f) ==> f@.len() <= REPLY_MTU && frame_carries(reply.view(), f@),
        r is Err ==> r == Err::<Vec<u8>, XpiError>(XpiError::Internal),
{
    let mut wgr = NibbleBufMut::new(vec![0u8; REPLY_MTU]);
    serialize_event(reply, &mut wgr);
    if wgr.is_past_end() {
        return Err(XpiError::Internal);
    }
    if !wgr.is_at_byte_boundary() {
        wgr.put_nibble(0);
    }
    proof {
        assert(0u8 & 0xf == 0) by (bit_vector);
    }
    let frame = wgr.finish();
    proof {
        assert(nibbles_of(frame@).take(event_enc(reply.view()).len() as int) =~= event_enc(
            reply.view(),
        ));
        reply.lemma_wf_view();
        assert(nibbles_of(frame@).subrange(0, event_enc(reply.view()).len() as int)
            =~= event_enc(reply.view()));
        crate::event::lemma_event_round_trip(reply.view(), frame@);
        reveal(frame_carries);
        assert(frame_carries(reply.view(), frame@));
    }
    Ok(frame)
}

/// Look one batch ahead: consult the table for each next resource and take
/// it into the batch while its budget reservation fits and the batch is not
/// full.  Deferred hints take no budget.  Returns the batch hints, the new
/// cursor, the immediate count, whether the resource list was exhausted,
/// and the extended consult trace.
#[verifier::rlimit(100)]
#[verifier::loop_isolation(false)]
fn collect_batch<T: ResourceTable>(
    table: &mut T,
    uris: &Vec<Vec<u32>>,
    kind_disc: u8,
    cursor0: usize,
    Ghost(consults0): Ghost<Seq<(Seq<u32>, bool)>>,
) -> (r: (Vec<ReplySizeHint>, usize, usize, bool, Ghost<Seq<(Seq<u32>, bool)>>))
    requires
        cursor0 <= uris@.len(),
        consults0.len() == cursor0,
        forall|i: int| 0 <= i < consults0.len() ==> (#[trigger] consults0[i]).0 == uri_views(
            uris@,
        )[i],
    ensures
        ({
            let (hints, cursor, batch_immediate, ran_out, Ghost(consults)) = r;
            &&& cursor == cursor0 + hints@.len()
            &&& cursor <= uris@.len()
            &&& hints@.len() <= MAX_REPLY_BATCH_LEN
            &&& batch_immediate == num_immediate(hints@)
            &&& batch_immediate <= hints@.len()
            &&& consults.len() == cursor
            &&& consults.subrange(0, cursor0 as int) == consults0
            &&& forall|i: int|
                0 <= i < consults.len() ==> (#[trigger] consults[i]).0 == uri_views(uris@)[i]
            &&& forall|t: int|
                0 <= t < hints@.len() ==> #[trigger] hints@[t] == T::hint_spec(
                    uri_views(uris@)[cursor0 + t],
                    kind_disc,
                )
            &&& forall|j: int|
                cursor0 <= j < cursor ==> (#[trigger] consults[j]).1 == T::hint_spec(
                    uri_views(uris@)[j],
                    kind_disc,
                ).is_immediate()
            &&& count_immediate(consults) == count_immediate(consults0) + num_immediate(hints@)
            &&& count_immediate(consults.subrange(cursor0 as int, cursor as int))
                == num_immediate(hints@)
            &&& (ran_out ==> cursor == uris@.len())
            &&& (!ran_out ==> cursor < uris@.len() || hints@.len() == MAX_REPLY_BATCH_LEN)
            &&& (cursor0 < uris@.len() && hint_fits(
                T::hint_spec(uri_views(uris@)[cursor0 as int], kind_disc),
            ) ==> hints@.len() >= 1)
        }),
{
    let mut hints: Vec<ReplySizeHint> = Vec::new();
    let mut budget: usize = (REPLY_MTU - FRAME_OVERHEAD) * 2 - HEADER_NIBBLES - TRAILER_NIBBLES
        - SPARE_NIBBLES;
    let mut batch_immediate: usize = 0;
    let mut cursor: usize = cursor0;
    let mut ran_out = false;
    let mut consults: Ghost<Seq<(Seq<u32>, bool)>> = Ghost(consults0);
    loop
        invariant
            cursor0 <= cursor <= uris@.len(),
            cursor == cursor0 + hints@.len(),
            hints@.len() <= MAX_REPLY_BATCH_LEN,
            batch_immediate <= hints@.len(),
            batch_immediate == num_immediate(hints@),
            consults@.len() == cursor,
            consults0 == consults@.subrange(0, cursor0 as int),
            forall|i: int|
                0 <= i < consults@.len() ==> (#[trigger] consults@[i]).0 == uri_views(uris@)[i],
            forall|t: int|
                0 <= t < hints@.len() ==> #[trigger] hints@[t] == T::hint_spec(
                    uri_views(uris@)[cursor0 + t],
                    kind_disc,
                ),
            forall|j: int|
                cursor0 <= j < cursor ==> (#[trigger] consults@[j]).1 == T::hint_spec(
                    uri_views(uris@)[j],
                    kind_disc,
                ).is_immediate(),
            count_immediate(consults@) == count_immediate(consults0) + num_immediate(hints@),
            hints@.len() == 0 ==> budget == (REPLY_MTU - FRAME_OVERHEAD) * 2 - HEADER_NIBBLES
                - TRAILER_NIBBLES - SPARE_NIBBLES,
            !ran_out,
        decreases uris@.len() - cursor, MAX_REPLY_BATCH_LEN - hints@.len(),
    {
        if hints.len() >= MAX_REPLY_BATCH_LEN {
            break ;
        }
        if cursor >= uris.len() {
            ran_out = true;
            break ;
        }
        let hint = table.reply_size_hint(&uris[cursor], kind_disc);
        proof {
            lemma_num_immediate_snoc(hints@, hint);
            lemma_count_immediate_snoc(consults@, (uris@[cursor as int]@, hint.is_immediate()));
        }
        let ghost consults_mid = consults@.push((uris@[cursor as int]@, hint.is_immediate()));
        match &hint {
            ReplySizeHint::Immediate { max_size, .. } => {
                let ub = max_size.upper_bound(budget);
                if ub <= budget {
                    budget = budget - ub;
                    hints.push(hint);
                    consults = Ghost(consults_mid);
                    cursor = cursor + 1;
                    batch_immediate = batch_immediate + 1;
                    proof {
                        assert(consults0 =~= consults@.subrange(0, cursor0 as int));
                    }
                } else {
                    // this resource goes into the next batch
                    break ;
                }
            },
            ReplySizeHint::Deferred => {
                hints.push(hint);
                consults = Ghost(consults_mid);
                cursor = cursor + 1;
                proof {
                    assert(consults0 =~= consults@.subrange(0, cursor0 as int));
                }
            },
        }
    }
    proof {
        assert(consults@ =~= consults0 + consults@.subrange(cursor0 as int, cursor as int));
        lemma_count_immediate_concat(
            consults0,
            consults@.subrange(cursor0 as int, cursor as int),
        );
    }
    (hints, cursor, batch_immediate, ran_out, consults)
}

/// Run the batching loop for one inbound request: look ahead, execute,
/// serialize and commit until the resources or the batch limits run out.
/// Emits into the queue exactly the returned frames, each a correlated,
/// MTU-bounded reply; the consult trace records each processed resource.
#[verifier::rlimit(100)]
#[verifier::spinoff_prover]
#[verifier::loop_isolation(false)]
fn dispatch_batches<T: ResourceTable>(
    ev: &XpiEvent,
    self_node_id: NodeId,
    table: &mut T,
    eth_in_prod: &mut bbqueue::Producer<'static, 512>,
    uris: &Vec<Vec<u32>>,
    args: &Vec<Vec<u8>>,
    rates: &Vec<u32>,
    kind_disc: u8,
) -> (r: Result<DispatchOutcome, XpiError>)
    requires
        ev.wf(),
        self_node_id.wf(),
        ev.kind is Request,
        kind_disc == ev.kind.spec_discriminant(),
    ensures
        r matches Ok(out) ==> {
            &&& out.frames@.len() == out.replies@.len()
            &&& out.replies_committed == out.frames@.len()
            &&& forall|i: int|
                0 <= i < out.frames@.len() ==> (#[trigger] out.frames@[i]).len() <= REPLY_MTU
            &&& forall|i: int|
                0 <= i < out.replies@.len() ==> reply_correlated(
                    #[trigger] out.replies@[i],
                    ev,
                    self_node_id,
                )
            &&& forall|i: int|
                0 <= i < out.replies@.len() ==> frame_carries(
                    #[trigger] out.replies@[i],
                    out.frames@[i],
                )
            &&& queue_bytes(*final(eth_in_prod)) == queue_bytes(*old(eth_in_prod))
                + flatten_frames(out.frames@)
            &&& out.immediate_results == sum_entries(out.replies@)
            &&& out.consults@.len() <= uris@.len()
            &&& forall|i: int|
                0 <= i < out.consults@.len() ==> (#[trigger] out.consults@[i]).0 == uri_views(
                    uris@,
                )[i]
            &&& out.immediate_results == count_immediate(out.consults@)
            &&& (out.saturated <==> out.consults@.len() < uris@.len())
            &&& out.spans@.len() == out.replies@.len()
            &&& forall|k: int|
                0 <= k < out.spans@.len() ==> 0 <= (#[trigger] out.spans@[k]).0 <= out.spans@[k].1
                    <= out.consults@.len()
            &&& forall|k: int|
                0 < k < out.spans@.len() ==> (#[trigger] out.spans@[k]).0 >= out.spans@[k - 1].1
            &&& forall|k: int|
                0 <= k < out.spans@.len() ==> entries_of(out.replies@[k].kind) == count_immediate(
                    out.consults@.subrange((#[trigger] out.spans@[k]).0, out.spans@[k].1),
                )
            &&& forall|k: int|
                0 <= k < out.replies@.len() ==> entries_of((#[trigger] out.replies@[k]).kind) >= 1
            &&& forall|i: int|
                0 <= i < out.consults@.len() ==> (#[trigger] out.consults@[i]).1 == T::hint_spec(
                    out.consults@[i].0,
                    kind_disc,
                ).is_immediate()
            &&& out.deferred_spawned + count_immediate(out.consults@) <= out.consults@.len()
            &&& forall|k: int, j: int|
                #![trigger out.spans@[k], out.consults@[j]]
                0 <= k < out.spans@.len() && out.spans@[k].0 <= j < out.spans@[k].1 ==> (
                expected_err(ev, T::hint_spec(out.consults@[j].0, kind_disc)) matches Some(e)
                    ==> entry_is_err(
                    out.replies@[k].kind,
                    count_immediate(out.consults@.subrange(out.spans@[k].0, j)),
                    e,
                ))
            &&& forall|k: int, j: int|
                #![trigger out.spans@[k], out.consults@[j]]
                0 <= k < out.spans@.len() && out.spans@[k].0 <= j < out.spans@[k].1 ==> (
                consumes_bundles(ev) && hint_is_ok_immediate(
                    T::hint_spec(out.consults@[j].0, kind_disc),
                ) && consumed_upto::<T>(ev, out.consults@, j) >= args@.len() ==> entry_is_err(
                    out.replies@[k].kind,
                    count_immediate(out.consults@.subrange(out.spans@[k].0, j)),
                    XpiError::NoArgumentsProvided,
                ))
            &&& ((forall|i: int|
                0 <= i < uris@.len() ==> hint_fits(
                    #[trigger] T::hint_spec(uri_views(uris@)[i], kind_disc),
                )) && out.saturated ==> out.consults@.len() >= MAX_REPLY_BATCHES)
            &&& (uris@.len() == 0 ==> out.replies_committed == 0 && out.frames@.len() == 0)
        },
        uris@.len() == 0 ==> r is Ok,
        r is Err ==> (r == Err::<DispatchOutcome, XpiError>(XpiError::InternalQueueError) || r
            == Err::<DispatchOutcome, XpiError>(XpiError::Internal)),
        r is Err ==> exists|fs: Seq<Seq<u8>>, rs: Seq<EventView>|
            #[trigger] err_commits(
                fs,
                rs,
                ev,
                self_node_id,
                queue_bytes(*old(eth_in_prod)),
                queue_bytes(*final(eth_in_prod)),
            ),
{
    let mut argc: usize = 0;
    let mut cursor: usize = 0;
    let mut immediate_results: usize = 0;
    let mut deferred_spawned: usize = 0;
    let mut replies_committed: usize = 0;
    let mut frames: Ghost<Seq<Seq<u8>>> = Ghost(Seq::empty());
    let mut replies: Ghost<Seq<EventView>> = Ghost(Seq::empty());
    let mut consults: Ghost<Seq<(Seq<u32>, bool)>> = Ghost(Seq::empty());
    let mut spans: Ghost<Seq<(int, int)>> = Ghost(Seq::empty());
    let mut batch_no: usize = 0;
    let mut run_out = false;
    let mut stalled = false;
    while batch_no < MAX_REPLY_BATCHES && !run_out && !stalled
        invariant
            ev.wf(),
            self_node_id.wf(),
            ev.kind is Request,
            argc <= args@.len(),
            argc as int == vstd::math::min(
                args@.len() as int,
                consumed_upto::<T>(ev, consults@, cursor as int),
            ),
            cursor <= uris@.len(),
            cursor <= batch_no * MAX_REPLY_BATCH_LEN,
            batch_no <= MAX_REPLY_BATCHES,
            frames@.len() == replies@.len(),
            replies_committed == frames@.len(),
            replies_committed <= batch_no,
            immediate_results <= batch_no * MAX_REPLY_BATCH_LEN,
            forall|i: int| 0 <= i < frames@.len() ==> (#[trigger] frames@[i]).len() <= REPLY_MTU,
            forall|i: int|
                0 <= i < replies@.len() ==> reply_correlated(
                    #[trigger] replies@[i],
                    ev,
                    self_node_id,
                ),
            forall|i: int|
                0 <= i < replies@.len() ==> frame_carries(#[trigger] replies@[i], frames@[i]),
            queue_bytes(*eth_in_prod) == queue_bytes(*old(eth_in_prod)) + flatten_frames(
                frames@,
            ),
            immediate_results == sum_entries(replies@),
            consults@.len() == cursor,
            forall|i: int|
                0 <= i < consults@.len() ==> (#[trigger] consults@[i]).0 == uri_views(uris@)[i],
            immediate_results == count_immediate(consults@),
            spans@.len() == replies@.len(),
            forall|k: int|
                0 <= k < spans@.len() ==> 0 <= (#[trigger] spans@[k]).0 <= spans@[k].1
                    <= consults@.len(),
            forall|k: int| 0 < k < spans@.len() ==> (#[trigger] spans@[k]).0 >= spans@[k - 1].1,
            spans@.len() > 0 ==> spans@.last().1 <= cursor,
            forall|k: int|
                0 <= k < spans@.len() ==> entries_of(replies@[k].kind) == count_immediate(
                    consults@.subrange((#[trigger] spans@[k]).0, spans@[k].1),
                ),
            forall|k: int|
                0 <= k < replies@.len() ==> entries_of((#[trigger] replies@[k]).kind) >= 1,
            forall|i: int|
                0 <= i < consults@.len() ==> (#[trigger] consults@[i]).1 == T::hint_spec(
                    consults@[i].0,
                    kind_disc,
                ).is_immediate(),
            deferred_spawned + count_immediate(consults@) <= cursor,
            forall|k: int, j: int|
                #![trigger spans@[k], consults@[j]]
                0 <= k < spans@.len() && spans@[k].0 <= j < spans@[k].1 ==> (expected_err(
                    ev,
                    T::hint_spec(consults@[j].0, kind_disc),
                ) matches Some(e) ==> entry_is_err(
                    replies@[k].kind,
                    count_immediate(consults@.subrange(spans@[k].0, j)),
                    e,
                )),
            forall|k: int, j: int|
                #![trigger spans@[k], consults@[j]]
                0 <= k < spans@.len() && spans@[k].0 <= j < spans@[k].1 ==> (consumes_bundles(ev)
                    && hint_is_ok_immediate(T::hint_spec(consults@[j].0, kind_disc))
                    && consumed_upto::<T>(ev, consults@, j) >= args@.len() ==> entry_is_err(
                    replies@[k].kind,
                    count_immediate(consults@.subrange(spans@[k].0, j)),
                    XpiError::NoArgumentsProvided,
                )),
            (forall|i: int|
                0 <= i < uris@.len() ==> hint_fits(
                    #[trigger] T::hint_spec(uri_views(uris@)[i], kind_disc),
                )) && !run_out ==> cursor >= batch_no,
            run_out ==> cursor == uris@.len(),
            stalled ==> cursor == uris@.len() || !(forall|i: int|
                0 <= i < uris@.len() ==> hint_fits(
                    #[trigger] T::hint_spec(uri_views(uris@)[i], kind_disc),
                )),
            uris@.len() == 0 ==> frames@.len() == 0,
        decreases MAX_REPLY_BATCHES - batch_no,
    {
        // phase one: look ahead and size the batch
        let batch_start = cursor;
        let ghost consults_pre = consults@;
        let (hints, new_cursor, batch_immediate, ran_out, new_consults) = collect_batch(
            table,
            &uris,
            kind_disc,
            cursor,
            consults,
        );
        cursor = new_cursor;
        consults = new_consults;
        run_out = ran_out;
        proof {
            // the trace only grew: its prefix, and every fact over it, carry
            assert forall|i: int| 0 <= i < batch_start implies consults@[i] == consults_pre[i] by {
                assert(consults_pre[i] == consults@.subrange(0, batch_start as int)[i]);
            }
            assert forall|i: int| 0 <= i < consults@.len() implies (#[trigger] consults@[i]).1
                == T::hint_spec(consults@[i].0, kind_disc).is_immediate() by {
                if i >= batch_start {
                    assert(consults@[i].0 == uri_views(uris@)[i]);
                }
            }
            assert forall|k: int, j: int|
                #![trigger spans@[k], consults@[j]]
                0 <= k < spans@.len() && spans@[k].0 <= j < spans@[k].1 implies (
            consults@.subrange(spans@[k].0, j) == consults_pre.subrange(spans@[k].0, j)
                && consults@.subrange(spans@[k].0, spans@[k].1) == consults_pre.subrange(
                spans@[k].0,
                spans@[k].1,
            ) && consults@[j] == consults_pre[j]) by {
                assert(consults@.subrange(spans@[k].0, j) =~= consults_pre.subrange(
                    spans@[k].0,
                    j,
                ));
                assert(consults@.subrange(spans@[k].0, spans@[k].1) =~= consults_pre.subrange(
                    spans@[k].0,
                    spans@[k].1,
                ));
            }
            assert forall|j: int| 0 <= j <= batch_start implies consumed_upto::<T>(
                ev,
                consults@,
                j,
            ) == consumed_upto::<T>(ev, consults_pre, j) by {
                lemma_consumed_prefix::<T>(ev, consults@, consults_pre, j);
            }
        }
        if hints.len() == 0 {
            // nothing fits or nothing is left: stop batching
            proof {
                if forall|i: int|
                    0 <= i < uris@.len() ==> hint_fits(
                        #[trigger] T::hint_spec(uri_views(uris@)[i], kind_disc),
                    ) {
                    if !run_out {
                        assert(cursor < uris@.len());
                        assert(hint_fits(T::hint_spec(uri_views(uris@)[cursor as int], kind_disc)));
                    }
                }
            }
            stalled = true;
            batch_no = batch_no + 1;
            continue ;
        }
        // phase two: reserve outbound space before executing anything
        if !queue_can_grant(eth_in_prod, REPLY_MTU) {
            proof {
                assert(err_commits(
                    frames@,
                    replies@,
                    ev,
                    self_node_id,
                    queue_bytes(*old(eth_in_prod)),
                    queue_bytes(*eth_in_prod),
                ));
            }
            return Err(XpiError::InternalQueueError);
        }
        // phase three: execute and collect the result vector
        let ghost argc_before = argc;
        let (reply_kind, sp) = run_batch(table, ev, &uris, batch_start, &hints, &args, &mut argc,
            &rates, kind_disc);
        deferred_spawned = if deferred_spawned <= usize::MAX - sp {
            deferred_spawned + sp
        } else {
            deferred_spawned
        };
        proof {
            // the batch's hints are the table's own, so the consumed count
            // composes across the batch boundary
            assert forall|u: int| 0 <= u < hints@.len() implies #[trigger] hints@[u]
                == T::hint_spec(consults@[batch_start + u].0, ev.kind.spec_discriminant()) by {
                assert(hints@[u] == T::hint_spec(uri_views(uris@)[batch_start + u], kind_disc));
                assert(consults@[batch_start + u].0 == uri_views(uris@)[batch_start + u]);
            }
            lemma_consumed_batch::<T>(ev, consults@, batch_start as int, hints@);
            lemma_num_consuming_bounds(hints@);
            lemma_num_ok_immediate_bounds(hints@);
        }
        let reply = XpiEvent {
            source: self_node_id,
            node_set: NodeSet::Unicast(ev.source),
            resource_set: ev.resource_set.duplicate(),
            request_id: ev.request_id,
            priority: ev.priority,
            ttl: 15,
            kind: XpiEventKind::Reply(reply_kind),
        };
        if batch_immediate > 0 {
            // phase four: serialize and commit the exact written length
            let frame = match build_reply_frame(&reply) {
                Ok(f) => f,
                Err(e) => {
                    proof {
                        assert(err_commits(
                            frames@,
                            replies@,
                            ev,
                            self_node_id,
                            queue_bytes(*old(eth_in_prod)),
                            queue_bytes(*eth_in_prod),
                        ));
                    }
                    return Err(e);
                },
            };
            if !queue_commit(eth_in_prod, &frame) {
                proof {
                    assert(err_commits(
                        frames@,
                        replies@,
                        ev,
                        self_node_id,
                        queue_bytes(*old(eth_in_prod)),
                        queue_bytes(*eth_in_prod),
                    ));
                }
                return Err(XpiError::InternalQueueError);
            }
            proof {
                lemma_flatten_frames_snoc(frames@, frame@);
                lemma_sum_entries_snoc(replies@, reply.view());
            }
            frames = Ghost(frames@.push(frame@));
            replies = Ghost(replies@.push(reply.view()));
            spans = Ghost(spans@.push((batch_start as int, cursor as int)));
            replies_committed = replies_committed + 1;
            proof {
                // the fresh span's entries follow the batch's hint table
                assert(reply.kind == XpiEventKind::Reply(reply_kind));
                let bflags = consults@.subrange(batch_start as int, cursor as int);
                assert forall|u: int| 0 <= u < bflags.len() implies (#[trigger] bflags[u]).1
                    == hints@[u].is_immediate() by {
                    assert(bflags[u] == consults@[batch_start + u]);
                    assert(consults@[batch_start + u].0 == uri_views(uris@)[batch_start + u]);
                }
                assert forall|j: int| batch_start <= j < cursor implies (expected_err(
                    ev,
                    T::hint_spec((#[trigger] consults@[j]).0, kind_disc),
                ) matches Some(e) ==> entry_is_err(
                    reply.view().kind,
                    count_immediate(consults@.subrange(batch_start as int, j)),
                    e,
                )) by {
                    let t = j - batch_start;
                    assert(consults@[j].0 == uri_views(uris@)[j]);
                    assert(hints@[t] == T::hint_spec(uri_views(uris@)[j], kind_disc));
                    lemma_flags_count_upto(bflags, hints@, t);
                    assert(consults@.subrange(batch_start as int, j) =~= bflags.take(t));
                }
                assert forall|j: int| batch_start <= j < cursor implies (consumes_bundles(ev)
                    && hint_is_ok_immediate(
                    T::hint_spec((#[trigger] consults@[j]).0, kind_disc),
                ) && consumed_upto::<T>(ev, consults@, j) >= args@.len() ==> entry_is_err(
                    reply.view().kind,
                    count_immediate(consults@.subrange(batch_start as int, j)),
                    XpiError::NoArgumentsProvided,
                )) by {
                    let t = j - batch_start;
                    assert(consults@[j].0 == uri_views(uris@)[j]);
                    assert(hints@[t] == T::hint_spec(uri_views(uris@)[j], kind_disc));
                    lemma_flags_count_upto(bflags, hints@, t);
                    assert(consults@.subrange(batch_start as int, j) =~= bflags.take(t));
                    assert forall|u: int| 0 <= u < hints@.take(t).len() implies #[trigger] hints@
                        .take(t)[u] == T::hint_spec(
                        consults@[batch_start + u].0,
                        ev.kind.spec_discriminant(),
                    ) by {
                        assert(hints@.take(t)[u] == hints@[u]);
                        assert(hints@[u] == T::hint_spec(
                            uri_views(uris@)[batch_start + u],
                            kind_disc,
                        ));
                        assert(consults@[batch_start + u].0 == uri_views(uris@)[batch_start + u]);
                    }
                    lemma_consumed_batch::<T>(ev, consults@, batch_start as int, hints@.take(t));
                    lemma_num_consuming_bounds(hints@.take(t));
                    lemma_num_ok_immediate_bounds(hints@.take(t));
                    if consumes_bundles(ev) && hint_is_ok_immediate(
                        T::hint_spec(consults@[j].0, kind_disc),
                    ) && consumed_upto::<T>(ev, consults@, j) >= args@.len() {
                        assert(argc_before as int == vstd::math::min(
                            args@.len() as int,
                            consumed_upto::<T>(ev, consults@, batch_start as int),
                        ));
                        if ev.kind matches XpiEventKind::Request(XpiRequestKind::Call { .. }) {
                            assert(argc_before + num_consuming(hints@.take(t)) >= args@.len());
                        } else {
                            assert(argc_before + num_ok_immediate(hints@.take(t))
                                >= args@.len());
                        }
                        assert(entry_is_err(
                            XpiEventKind::Reply(reply_kind).view(),
                            num_immediate(hints@.take(t)),
                            XpiError::NoArgumentsProvided,
                        ));
                    }
                }
            }
            let batch_entries = match &reply.kind {
                XpiEventKind::Reply(XpiReplyKind::CallResults(rs)) => rs.len(),
                XpiEventKind::Reply(XpiReplyKind::ReadResults(rs)) => rs.len(),
                XpiEventKind::Reply(XpiReplyKind::WriteResults(rs)) => rs.len(),
                XpiEventKind::Reply(XpiReplyKind::SubscribeResults(rs)) => rs.len(),
                XpiEventKind::Reply(XpiReplyKind::BorrowResults(rs)) => rs.len(),
                XpiEventKind::Reply(XpiReplyKind::ReleaseResults(rs)) => rs.len(),
                XpiEventKind::Reply(XpiReplyKind::OpenStreamResults(rs)) => rs.len(),
                XpiEventKind::Reply(XpiReplyKind::CloseStreamResults(rs)) => rs.len(),
                XpiEventKind::Reply(XpiReplyKind::InfoResults(rs)) => rs.len(),
                _ => 0,
            };
            proof {
                lemma_num_immediate_le(hints@);
            }
            immediate_results = immediate_results + batch_entries;
        }
        batch_no = batch_no + 1;
    }
    let saturated = cursor < uris.len();
    Ok(
        DispatchOutcome {
            immediate_results,
            deferred_spawned,
            replies_committed,
            saturated,
            frames,
            replies,
            consults,
            spans,
        },
    )
}

/// Dispatch one inbound event: resolve its resource set, batch replies
/// under the reply MTU, execute the operations through the resource table,
/// and commit the reply events to the outbound queue.  After a successful
/// dispatch with committed replies the host must wake the link task.
///
/// An inbound event that carries a reply kind is dropped without effect.
/// A call or write whose good immediate hint falls beyond the supplied
/// argument bundles is answered with `NoArgumentsProvided` in its entry.
/// Queue exhaustion surfaces as `InternalQueueError`; a reply that cannot
/// fit its own frame surfaces as `Internal`; either way the replies already
/// committed stay committed and nothing further is, as the error clause
/// states.
#[verifier::rlimit(100)]
#[verifier::spinoff_prover]
#[verifier::loop_isolation(false)]
pub fn xpi_dispatch<T: ResourceTable>(
    ev: &XpiEvent,
    self_node_id: NodeId,
    table: &mut T,
    eth_in_prod: &mut bbqueue::Producer<'static, 512>,
) -> (r: Result<DispatchOutcome, XpiError>)
    requires
        ev.wf(),
        self_node_id.wf(),
    ensures
        r matches Ok(out) ==> {
            &&& out.frames@.len() == out.replies@.len()
            &&& out.replies_committed == out.frames@.len()
            &&& forall|i: int|
                0 <= i < out.frames@.len() ==> (#[trigger] out.frames@[i]).len() <= REPLY_MTU
            &&& forall|i: int|
                0 <= i < out.replies@.len() ==> reply_correlated(
                    #[trigger] out.replies@[i],
                    ev,
                    self_node_id,
                )
            &&& forall|i: int|
                0 <= i < out.replies@.len() ==> frame_carries(
                    #[trigger] out.replies@[i],
                    out.frames@[i],
                )
            &&& queue_bytes(*final(eth_in_prod)) == queue_bytes(*old(eth_in_prod))
                + flatten_frames(out.frames@)
            &&& out.immediate_results == sum_entries(out.replies@)
            &&& out.consults@.len() <= rs_flat(ev.resource_set.view()).len()
            &&& forall|i: int|
                0 <= i < out.consults@.len() ==> (#[trigger] out.consults@[i]).0 == rs_flat(
                    ev.resource_set.view(),
                )[i]
            &&& out.immediate_results == count_immediate(out.consults@)
            &&& (ev.kind matches XpiEventKind::Request(_) ==> (out.saturated <==> out.consults@.len()
                < rs_flat(ev.resource_set.view()).len()))
            &&& out.spans@.len() == out.replies@.len()
            &&& forall|k: int|
                0 <= k < out.spans@.len() ==> 0 <= (#[trigger] out.spans@[k]).0 <= out.spans@[k].1
                    <= out.consults@.len()
            &&& forall|k: int|
                0 < k < out.spans@.len() ==> (#[trigger] out.spans@[k]).0 >= out.spans@[k - 1].1
            &&& forall|k: int|
                0 <= k < out.spans@.len() ==> entries_of(out.replies@[k].kind) == count_immediate(
                    out.consults@.subrange((#[trigger] out.spans@[k]).0, out.spans@[k].1),
                )
            &&& forall|k: int|
                0 <= k < out.replies@.len() ==> entries_of((#[trigger] out.replies@[k]).kind) >= 1
            &&& forall|i: int|
                0 <= i < out.consults@.len() ==> (#[trigger] out.consults@[i]).1 == T::hint_spec(
                    out.consults@[i].0,
                    ev.kind.spec_discriminant(),
                ).is_immediate()
            &&& out.deferred_spawned + count_immediate(out.consults@) <= out.consults@.len()
            &&& forall|k: int, j: int|
                #![trigger out.spans@[k], out.consults@[j]]
                0 <= k < out.spans@.len() && out.spans@[k].0 <= j < out.spans@[k].1 ==> (
                expected_err(ev, T::hint_spec(out.consults@[j].0, ev.kind.spec_discriminant()))
                    matches Some(e) ==> entry_is_err(
                    out.replies@[k].kind,
                    count_immediate(out.consults@.subrange(out.spans@[k].0, j)),
                    e,
                ))
            &&& forall|k: int, j: int|
                #![trigger out.spans@[k], out.consults@[j]]
                0 <= k < out.spans@.len() && out.spans@[k].0 <= j < out.spans@[k].1 ==> (
                consumes_bundles(ev) && hint_is_ok_immediate(
                    T::hint_spec(out.consults@[j].0, ev.kind.spec_discriminant()),
                ) && consumed_upto::<T>(ev, out.consults@, j) >= inbound_bundles(ev)
                    ==> entry_is_err(
                    out.replies@[k].kind,
                    count_immediate(out.consults@.subrange(out.spans@[k].0, j)),
                    XpiError::NoArgumentsProvided,
                ))
            &&& ((ev.kind is Request && forall|i: int|
                0 <= i < rs_flat(ev.resource_set.view()).len() ==> hint_fits(
                    #[trigger] T::hint_spec(
                        rs_flat(ev.resource_set.view())[i],
                        ev.kind.spec_discriminant(),
                    ),
                )) && out.saturated ==> out.consults@.len() >= MAX_REPLY_BATCHES)
        },
        ev.kind matches XpiEventKind::Reply(_) ==> (r matches Ok(out) && out.replies_committed == 0
            && out.frames@.len() == 0 && queue_bytes(*final(eth_in_prod)) == queue_bytes(
            *old(eth_in_prod),
        )),
        ev.kind matches XpiEventKind::Request(_) && rs_flat(ev.resource_set.view()).len() == 0
            ==> (r matches Ok(out) && out.replies_committed == 0 && out.frames@.len() == 0
            && queue_bytes(*final(eth_in_prod)) == queue_bytes(*old(eth_in_prod))),
        r is Err ==> (r == Err::<DispatchOutcome, XpiError>(XpiError::InternalQueueError) || r
            == Err::<DispatchOutcome, XpiError>(XpiError::Internal)),
        r is Err ==> exists|fs: Seq<Seq<u8>>, rs: Seq<EventView>|
            #[trigger] err_commits(
                fs,
                rs,
                ev,
                self_node_id,
                queue_bytes(*old(eth_in_prod)),
                queue_bytes(*final(eth_in_prod)),
            ),
{
    match &ev.kind {
        XpiEventKind::Request(_) => (),
        XpiEventKind::Reply(_) => {
            // inbound replies are not requests: drop without effect
            proof {
                assert(queue_bytes(*eth_in_prod) =~= queue_bytes(*old(eth_in_prod))
                    + flatten_frames(Seq::<Seq<u8>>::empty()));
            }
            return Ok(
                DispatchOutcome {
                    immediate_results: 0,
                    deferred_spawned: 0,
                    replies_committed: 0,
                    saturated: false,
                    frames: Ghost(Seq::empty()),
                    replies: Ghost(Seq::empty()),
                    consults: Ghost(Seq::empty()),
                    spans: Ghost(Seq::empty()),
                },
            );
        },
    }
    let kind_disc: u8 = match &ev.kind {
        XpiEventKind::Request(rq) => match rq {
            XpiRequestKind::Call { .. } => 0,
            XpiRequestKind::Read => 1,
            XpiRequestKind::Write { .. } => 2,
            XpiRequestKind::OpenStreams => 3,
            XpiRequestKind::CloseStreams => 4,
            XpiRequestKind::Subscribe { .. } => 5,
            XpiRequestKind::Unsubscribe => 6,
            XpiRequestKind::Borrow => 7,
            XpiRequestKind::Release => 8,
            XpiRequestKind::GetInfo => 9,
            XpiRequestKind::ChainCall { .. } => 10,
        },
        XpiEventKind::Reply(_) => 0,
    };
    // argument bundles for calls and values for writes
    let args: Vec<Vec<u8>> = match &ev.kind {
        XpiEventKind::Request(XpiRequestKind::Call { args_set }) => args_set.to_vec(),
        XpiEventKind::Request(XpiRequestKind::Write { values }) => values.to_vec(),
        _ => Vec::new(),
    };
    // one rate descriptor per resource when subscribing
    let rates: Vec<u32> = match &ev.kind {
        XpiEventKind::Request(XpiRequestKind::Subscribe { rates }) => rates.to_vec(),
        _ => Vec::new(),
    };
    // resolve up to one more resource than the batch limits allow, to
    // detect saturation
    let cap: usize = MAX_REPLY_BATCH_LEN * MAX_REPLY_BATCHES;
    let (uris, more) = ev.resource_set.flat_uris(cap + 1);
    let ghost flat = rs_flat(ev.resource_set.view());
    proof {
        assert(kind_disc == ev.kind.spec_discriminant());
        assert(args@.len() == inbound_bundles(ev));
    }
    let out = match dispatch_batches(ev, self_node_id, table, eth_in_prod, &uris, &args, &rates,
        kind_disc) {
        Ok(o) => o,
        Err(e) => {
            proof {
                assert(uris@.len() > 0);
                if rs_flat(ev.resource_set.view()).len() == 0 {
                    assert(uri_views(uris@).len() == uris@.len());
                }
            }
            return Err(e);
        },
    };
    let saturated = more || out.saturated;
    proof {
        if more {
            assert(uri_views(uris@).len() == uris@.len());
            assert(flat.len() > (cap + 1) as int);
        } else {
            assert(uri_views(uris@).len() == flat.len());
        }
        assert forall|i: int| 0 <= i < out.consults@.len() implies (#[trigger] out.consults@[i]).0
            == flat[i] by {
            if more {
                assert(uri_views(uris@)[i] == flat.take((cap + 1) as int)[i]);
            }
        }
        if forall|i: int|
            0 <= i < flat.len() ==> hint_fits(
                #[trigger] T::hint_spec(flat[i], ev.kind.spec_discriminant()),
            ) {
            assert forall|i: int| 0 <= i < uris@.len() implies hint_fits(
                #[trigger] T::hint_spec(uri_views(uris@)[i], kind_disc),
            ) by {
                if more {
                    assert(uri_views(uris@)[i] == flat.take((cap + 1) as int)[i]);
                } else {
                    assert(uri_views(uris@)[i] == flat[i]);
                }
                assert(hint_fits(T::hint_spec(flat[i], ev.kind.spec_discriminant())));
            }
        }
        if flat.len() == 0 {
            assert(out.frames@.len() == 0);
            assert(queue_bytes(*eth_in_prod) =~= queue_bytes(*old(eth_in_prod)) + flatten_frames(
                out.frames@,
            ));
        }
    }
    Ok(
        DispatchOutcome {
            immediate_results: out.immediate_results,
            deferred_spawned: out.deferred_spawned,
            replies_committed: out.replies_committed,
            saturated,
            frames: out.frames,
            replies: out.replies,
            consults: out.consults,
            spans: out.spans,
        },
    )
}

} // verus!
