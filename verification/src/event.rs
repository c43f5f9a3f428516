//! The event model: node addressing, error codes, priorities and the packed
//! 32-bit event header.

use vstd::prelude::*;
use crate::discrete::{U3, U4, U6};
use crate::nibble_buf::{NibbleBuf, NibbleBufMut, VluScan, nibbles_of, vlu4_enc, vlu4_len, vlu4_scan, vlu4_val};
use crate::vlu4::{SerializeVlu4, Vlu4SliceArray, Vlu4U32Array, vlu4_seq_parse};
use crate::uri::{
    MaskView, MultiUri, Uri, UriMask, mask_parse, multi_uri_pairs_parse, multi_uri_parse,
    multi_flat,
};
use crate::serdes::{
    lemma_multi_uri_round_trip, lemma_vlu4_arr_round_trip, mu_pairs_wf, multi_uri_enc, put_multi_uri,
    put_vlu4_array, vlu4_arr_enc,
};
use crate::event_kind::{
    KindView, XpiEventKind, XpiReplyKind, XpiRequestKind, kind_body_enc, kind_body_parse,
    parse_kind_body, put_kind_body,
};

verus! {

/// Protocol-level failures carried inside reply vectors, vlu4-encoded by
/// their code.
#[derive(Copy, Clone, Debug, PartialEq, Eq, Structural)]
pub enum XpiError {
    /// No response was received in time.
    Timeout,
    /// Node reboot was detected before it was able to answer.
    DeviceRebooted,
    /// The message was dropped because more important data needed the space.
    PriorityLoss,
    /// Rejected by the rate shaper to protect channel bandwidth.
    ShaperReject,
    /// The resource is already borrowed by someone else.
    ResourceIsAlreadyBorrowed,
    /// Unsubscribing twice from a resource.
    AlreadyUnsubscribed,
    /// Opening a stream twice.
    StreamIsAlreadyOpen,
    /// Closing a stream twice.
    StreamIsAlreadyClosed,
    /// The operation does not apply to this resource.
    OperationNotSupported,
    /// No resource exists at the given path.
    BadUri,
    /// A call was addressed at a resource that is not a method.
    NotAMethod,
    /// A call or write came without its argument bundle.
    NoArgumentsProvided,
    /// An internal implementation error.
    Internal,
    /// The outbound queue could not supply a reply buffer.
    InternalQueueError,
}

impl XpiError {
    /// The wire code of this error.
    pub open spec fn spec_code(&self) -> u32 {
        match self {
            XpiError::Timeout => 1,
            XpiError::DeviceRebooted => 2,
            XpiError::PriorityLoss => 3,
            XpiError::ShaperReject => 4,
            XpiError::ResourceIsAlreadyBorrowed => 5,
            XpiError::AlreadyUnsubscribed => 6,
            XpiError::StreamIsAlreadyOpen => 7,
            XpiError::StreamIsAlreadyClosed => 8,
            XpiError::OperationNotSupported => 9,
            XpiError::BadUri => 10,
            XpiError::NotAMethod => 11,
            XpiError::NoArgumentsProvided => 12,
            XpiError::Internal => 13,
            XpiError::InternalQueueError => 14,
        }
    }

    pub fn code(&self) -> (r: u32)
        ensures
            r == self.spec_code(),
            1 <= r <= 14,
    {
        match self {
            XpiError::Timeout => 1,
            XpiError::DeviceRebooted => 2,
            XpiError::PriorityLoss => 3,
            XpiError::ShaperReject => 4,
            XpiError::ResourceIsAlreadyBorrowed => 5,
            XpiError::AlreadyUnsubscribed => 6,
            XpiError::StreamIsAlreadyOpen => 7,
            XpiError::StreamIsAlreadyClosed => 8,
            XpiError::OperationNotSupported => 9,
            XpiError::BadUri => 10,
            XpiError::NotAMethod => 11,
            XpiError::NoArgumentsProvided => 12,
            XpiError::Internal => 13,
            XpiError::InternalQueueError => 14,
        }
    }

    /// The error a wire code names, for codes `1..=14`.
    pub open spec fn spec_from_code(code: u32) -> Option<XpiError> {
        if code == 1 {
            Some(XpiError::Timeout)
        } else if code == 2 {
            Some(XpiError::DeviceRebooted)
        } else if code == 3 {
            Some(XpiError::PriorityLoss)
        } else if code == 4 {
            Some(XpiError::ShaperReject)
        } else if code == 5 {
            Some(XpiError::ResourceIsAlreadyBorrowed)
        } else if code == 6 {
            Some(XpiError::AlreadyUnsubscribed)
        } else if code == 7 {
            Some(XpiError::StreamIsAlreadyOpen)
        } else if code == 8 {
            Some(XpiError::StreamIsAlreadyClosed)
        } else if code == 9 {
            Some(XpiError::OperationNotSupported)
        } else if code == 10 {
            Some(XpiError::BadUri)
        } else if code == 11 {
            Some(XpiError::NotAMethod)
        } else if code == 12 {
            Some(XpiError::NoArgumentsProvided)
        } else if code == 13 {
            Some(XpiError::Internal)
        } else if code == 14 {
            Some(XpiError::InternalQueueError)
        } else {
            None
        }
    }

    pub fn from_code(code: u32) -> (r: Option<XpiError>)
        ensures
            r == XpiError::spec_from_code(code),
    {
        if code == 1 {
            Some(XpiError::Timeout)
        } else if code == 2 {
            Some(XpiError::DeviceRebooted)
        } else if code == 3 {
            Some(XpiError::PriorityLoss)
        } else if code == 4 {
            Some(XpiError::ShaperReject)
        } else if code == 5 {
            Some(XpiError::ResourceIsAlreadyBorrowed)
        } else if code == 6 {
            Some(XpiError::AlreadyUnsubscribed)
        } else if code == 7 {
            Some(XpiError::StreamIsAlreadyOpen)
        } else if code == 8 {
            Some(XpiError::StreamIsAlreadyClosed)
        } else if code == 9 {
            Some(XpiError::OperationNotSupported)
        } else if code == 10 {
            Some(XpiError::BadUri)
        } else if code == 11 {
            Some(XpiError::NotAMethod)
        } else if code == 12 {
            Some(XpiError::NoArgumentsProvided)
        } else if code == 13 {
            Some(XpiError::Internal)
        } else if code == 14 {
            Some(XpiError::InternalQueueError)
        } else {
            None
        }
    }

    /// Codes and errors correspond one to one.
    pub proof fn lemma_code_round_trip(e: XpiError)
        ensures
            XpiError::spec_from_code(e.spec_code()) == Some(e),
    {
    }
}

impl SerializeVlu4 for XpiError {
    /// An error serializes as the vlu4 encoding of its code.
    open spec fn ser_vlu4_spec(&self) -> Seq<u8> {
        vlu4_enc(self.spec_code() as int)
    }

    fn ser_vlu4(&self, wgr: &mut NibbleBufMut) {
        let c = self.code();
        wgr.put_vlu4_u32(c);
    }
}

/// Failure reasons of the earlier, transport-level error surface; each
/// corresponds to the protocol error with the same name.
#[derive(Copy, Clone, Debug, PartialEq, Eq, Structural)]
pub enum FailReason {
    Timeout,
    DeviceRebooted,
    PriorityLoss,
    ShaperReject,
    ResourceIsAlreadyBorrowed,
    AlreadyUnsubscribed,
    StreamIsAlreadyOpen,
    StreamIsAlreadyClosed,
    OperationNotSupported,
}

/// Event parsing failures.  Malformed events are dropped; these never travel
/// on the wire.
#[derive(Copy, Clone, Debug, PartialEq, Eq, Structural)]
pub enum XpiVlu4Error {
    /// The nibble reader failed: out of bounds, malformed vlu4 or unaligned.
    NibbleBuf(crate::nibble_buf::Error),
    /// A header or body field used a reserved discriminant.
    ReservedDiscriminant,
    /// The event kind is not known.
    UnknownKind,
    /// A mask used a reserved or unsupported form.
    UriMaskReserved,
    /// The buffer ended inside the fixed header.
    TruncatedHeader,
    /// Internal error.
    InternalError,
}

/// Unique node id on a link: `1..=127`, `0` is reserved.
#[derive(Copy, Clone, Debug, PartialEq, Eq, Structural)]
pub struct NodeId(u8);

impl NodeId {
    pub closed spec fn spec_value(&self) -> u8 {
        self.0
    }

    pub open spec fn wf(&self) -> bool {
        1 <= self.spec_value() <= 127
    }

    /// Accepts exactly `1..=127`.
    pub fn new(id: u8) -> (r: Option<NodeId>)
        ensures
            1 <= id <= 127 ==> (r matches Some(n) && n.spec_value() == id && n.wf()),
            !(1 <= id <= 127) ==> r is None,
    {
        if 1 <= id && id <= 127 {
            Some(NodeId(id))
        } else {
            None
        }
    }

    pub fn value(&self) -> (r: u8)
        ensures
            r == self.spec_value(),
    {
        self.0
    }
}

/// Delivery class and urgency: levels `1..=4`, higher meaning a higher
/// chance of delivery.  Lossless failures surface as errors rather than
/// silent drops.
#[derive(Copy, Clone, Debug, PartialEq, Eq, Structural)]
pub enum Priority {
    Lossy(u8),
    Lossless(u8),
}

impl Priority {
    pub open spec fn wf(&self) -> bool {
        match self {
            Priority::Lossy(l) => 1 <= *l <= 4,
            Priority::Lossless(l) => 1 <= *l <= 4,
        }
    }

    /// The 3-bit wire form: `0b000..0b011` lossy levels 1 to 4, `0b100..0b111`
    /// lossless levels 1 to 4.
    pub open spec fn spec_bits(&self) -> u8 {
        match self {
            Priority::Lossy(l) => (*l - 1) as u8,
            Priority::Lossless(l) => (*l + 3) as u8,
        }
    }

    pub fn bits(&self) -> (r: u8)
        requires
            self.wf(),
        ensures
            r == self.spec_bits(),
            r <= 7,
    {
        match self {
            Priority::Lossy(l) => *l - 1,
            Priority::Lossless(l) => *l + 3,
        }
    }

    /// The priority a 3-bit wire form names.
    pub open spec fn spec_from_bits(b: u8) -> Priority {
        if b < 4 {
            Priority::Lossy((b + 1) as u8)
        } else {
            Priority::Lossless((b - 3) as u8)
        }
    }

    pub fn from_bits(b: u8) -> (r: Priority)
        requires
            b <= 7,
        ensures
            r == Priority::spec_from_bits(b),
            r.wf(),
    {
        if b < 4 {
            Priority::Lossy(b + 1)
        } else {
            Priority::Lossless(b - 3)
        }
    }

    /// Wire bits and priorities correspond one to one.
    pub proof fn lemma_bits_round_trip(p: Priority)
        requires
            p.wf(),
        ensures
            Priority::spec_from_bits(p.spec_bits()) == p,
    {
    }
}

/// Global type id from the registry.
#[derive(Copy, Clone, Debug, PartialEq, Eq, Structural)]
pub struct GlobalTypeId {
    /// Globally unique identifier of a type or trait.
    pub id: u32,
}

/// A registry type id together with the version bound a node must satisfy.
#[derive(Copy, Clone, Debug, PartialEq, Eq, Structural)]
pub struct GlobalTypeIdBound {
    /// Globally unique identifier of the trait.
    pub unique_id: GlobalTypeId,
    /// Major version to match.
    pub semver_req_major: u32,
}

/// Destination selector of an event.
pub enum NodeSet {
    /// One specific node.
    Unicast(NodeId),
    /// Every node implementing all the listed registry traits, named by id.
    Multicast { traits: Vlu4U32Array },
    /// Every node on the link.
    Broadcast,
}

/// The abstract value of a [`NodeSet`].
pub enum NodeSetView {
    Unicast(u8),
    Multicast(Seq<u32>),
    Broadcast,
}

impl NodeSet {
    pub open spec fn view(&self) -> NodeSetView {
        match self {
            NodeSet::Unicast(n) => NodeSetView::Unicast(n.spec_value()),
            NodeSet::Multicast { traits } => NodeSetView::Multicast(traits.items()),
            NodeSet::Broadcast => NodeSetView::Broadcast,
        }
    }

    pub open spec fn wf(&self) -> bool {
        match self {
            NodeSet::Unicast(n) => n.wf(),
            NodeSet::Multicast { traits } => traits.wf() && traits.items().len() < 0x1_0000_0000,
            _ => true,
        }
    }

    /// A copy of this node set.
    pub fn duplicate(&self) -> (r: NodeSet)
        ensures
            r.view() == self.view(),
            r.wf() == self.wf(),
            r.spec_discriminant() == self.spec_discriminant(),
            r.spec_payload() == self.spec_payload(),
    {
        match self {
            NodeSet::Unicast(n) => NodeSet::Unicast(*n),
            NodeSet::Multicast { traits } => NodeSet::Multicast { traits: traits.duplicate() },
            NodeSet::Broadcast => NodeSet::Broadcast,
        }
    }

    /// The 2-bit node-set discriminant.
    pub open spec fn spec_discriminant(&self) -> u8 {
        match self {
            NodeSet::Unicast(_) => 0,
            NodeSet::Multicast { .. } => 1,
            NodeSet::Broadcast => 2,
        }
    }

    /// The 7-bit header payload: the destination id for unicast, zero
    /// otherwise.
    pub open spec fn spec_payload(&self) -> u8 {
        match self {
            NodeSet::Unicast(n) => n.spec_value(),
            _ => 0,
        }
    }
}

/// The packed 32-bit header as eight nibbles: reserved zeros and priority,
/// then addressing and direction bits, the source id, the node-set
/// discriminant and payload, the resource-set discriminant and the kind
/// discriminant.
pub open spec fn header_nibs(
    prio_bits: u8,
    is_unicast: bool,
    is_request: bool,
    source: u8,
    ns_disc: u8,
    ns_payload: u8,
    rs_disc: u8,
    kind_disc: u8,
) -> Seq<u8> {
    seq![
        (prio_bits / 4) as u8,
        ((prio_bits % 4) * 4 + (if is_unicast { 2u8 } else { 0u8 }) + (if is_request { 1u8 } else {
            0u8
        })) as u8,
        (source / 16) as u8,
        (source % 16) as u8,
        (ns_disc * 4 + ns_payload / 32) as u8,
        ((ns_payload / 2) % 16) as u8,
        ((ns_payload % 2) * 8 + rs_disc) as u8,
        kind_disc,
    ]
}

/// Write the packed header.
pub fn put_header(
    wgr: &mut NibbleBufMut,
    prio_bits: u8,
    is_unicast: bool,
    is_request: bool,
    source: u8,
    ns_disc: u8,
    ns_payload: u8,
    rs_disc: u8,
    kind_disc: u8,
)
    requires
        old(wgr).wf(),
        prio_bits <= 7,
        source <= 127,
        ns_disc <= 2,
        ns_payload <= 127,
        rs_disc <= 7,
        kind_disc <= 15,
    ensures
        final(wgr).wf(),
        final(wgr).cap() == old(wgr).cap(),
        old(wgr).pos() + 8 <= old(wgr).cap() ==> {
            &&& final(wgr).written() == old(wgr).written() + header_nibs(
                prio_bits,
                is_unicast,
                is_request,
                source,
                ns_disc,
                ns_payload,
                rs_disc,
                kind_disc,
            )
            &&& final(wgr).pos() == old(wgr).pos() + 8
            &&& final(wgr).past_end() == old(wgr).past_end()
        },
        old(wgr).pos() + 8 > old(wgr).cap() ==> final(wgr).past_end(),
{
    let ghost w0 = wgr.written();
    wgr.put_nibble(prio_bits / 4);
    wgr.put_nibble(
        (prio_bits % 4) * 4 + (if is_unicast { 2 } else { 0 }) + (if is_request { 1 } else { 0 }),
    );
    wgr.put_nibble(source / 16);
    wgr.put_nibble(source % 16);
    wgr.put_nibble(ns_disc * 4 + ns_payload / 32);
    wgr.put_nibble((ns_payload / 2) % 16);
    wgr.put_nibble((ns_payload % 2) * 8 + rs_disc);
    wgr.put_nibble(kind_disc);
    proof {
        let h = header_nibs(
            prio_bits,
            is_unicast,
            is_request,
            source,
            ns_disc,
            ns_payload,
            rs_disc,
            kind_disc,
        );
        assert forall|i: int| 0 <= i < 8 implies h[i] < 16 by {}
        assert forall|i: int| 0 <= i < 8 implies (h[i] & 0xf) == h[i] by {
            let x = h[i];
            assert(x < 16 ==> (x & 0xf) == x) by (bit_vector);
        }
        if old(wgr).pos() + 8 <= old(wgr).cap() {
            assert(wgr.written() =~= w0 + h);
        }
    }
}

/// The header fields recovered from eight nibbles, when the reserved bits
/// are zero and no reserved discriminant is used: priority bits, unicast and
/// request flags, source, node-set discriminant and payload, resource-set
/// and kind discriminants.
pub open spec fn header_parse(nibs: Seq<u8>) -> Option<(u8, bool, bool, u8, u8, u8, u8, u8)> {
    if nibs.len() < 8 {
        None
    } else if nibs[0] > 1 || nibs[2] > 7 {
        None
    } else {
        let prio_bits = (nibs[0] * 4 + nibs[1] / 4) as u8;
        let is_unicast = (nibs[1] / 2) % 2 == 1;
        let is_request = nibs[1] % 2 == 1;
        let source = (nibs[2] * 16 + nibs[3]) as u8;
        let ns_disc = (nibs[4] / 4) as u8;
        let ns_payload = ((nibs[4] % 4) * 32 + nibs[5] * 2 + nibs[6] / 8) as u8;
        let rs_disc = (nibs[6] % 8) as u8;
        let kind_disc = nibs[7];
        if ns_disc == 3 {
            None
        } else {
            Some((prio_bits, is_unicast, is_request, source, ns_disc, ns_payload, rs_disc,
            kind_disc))
        }
    }
}

/// The packed header decodes to the fields it was packed from.
#[verifier::rlimit(50)]
pub proof fn lemma_header_round_trip(
    prio_bits: u8,
    is_unicast: bool,
    is_request: bool,
    source: u8,
    ns_disc: u8,
    ns_payload: u8,
    rs_disc: u8,
    kind_disc: u8,
    nibs: Seq<u8>,
)
    requires
        prio_bits <= 7,
        source <= 127,
        ns_disc <= 2,
        ns_payload <= 127,
        rs_disc <= 7,
        kind_disc <= 15,
        nibs.len() >= 8,
        nibs.subrange(0, 8) == header_nibs(
            prio_bits,
            is_unicast,
            is_request,
            source,
            ns_disc,
            ns_payload,
            rs_disc,
            kind_disc,
        ),
    ensures
        header_parse(nibs) == Some(
            (prio_bits, is_unicast, is_request, source, ns_disc, ns_payload, rs_disc, kind_disc),
        ),
{
    let h = header_nibs(
        prio_bits,
        is_unicast,
        is_request,
        source,
        ns_disc,
        ns_payload,
        rs_disc,
        kind_disc,
    );
    assert forall|i: int| 0 <= i < 8 implies nibs[i] == h[i] by {
        assert(nibs.subrange(0, 8)[i] == nibs[i]);
    }
}


/// The abstract value of a single URI, keeping its packed form.
pub enum UriView {
    One(u8),
    Two(u8, u8),
    Three(u8, u8, u8),
    Four(u8, u8, u8),
    Multi(Seq<u32>),
}

/// The path levels a URI value names.
pub open spec fn uri_view_parts(uv: UriView) -> Seq<u32> {
    match uv {
        UriView::One(a) => seq![a as u32],
        UriView::Two(a, b) => seq![a as u32, b as u32],
        UriView::Three(a, b, c) => seq![a as u32, b as u32, c as u32],
        UriView::Four(a, b, c) => seq![a as u32, b as u32, c as u32],
        UriView::Multi(parts) => parts,
    }
}

/// The abstract value of a resource set.
pub enum RsView {
    /// One resource.
    Single(UriView),
    /// A set of (URI, mask) pairs.
    Multi(Seq<(Seq<u32>, MaskView)>),
}

/// The concrete URIs a resource set selects, in order.
pub open spec fn rs_flat(rv: RsView) -> Seq<Seq<u32>> {
    match rv {
        RsView::Single(uv) => seq![uri_view_parts(uv)],
        RsView::Multi(pv) => multi_flat(pv),
    }
}

/// A resource-set value fit for the wire.
pub open spec fn rs_view_wf(rv: RsView) -> bool {
    match rv {
        RsView::Single(uv) => match uv {
            UriView::One(a) => a <= 15,
            UriView::Two(a, b) => a <= 15 && b <= 15,
            UriView::Three(a, b, c) => a <= 15 && b <= 15 && c <= 15,
            UriView::Four(a, b, c) => a <= 63 && b <= 7 && c <= 7,
            UriView::Multi(parts) => parts.len() < 0x1_0000_0000,
        },
        RsView::Multi(pv) => mu_pairs_wf(pv) && pv.len() < 0x1_0000_0000,
    }
}

/// The set of resources an event addresses: one URI in one of its packed
/// forms, or a whole multi-URI.
pub enum XpiResourceSet {
    Uri(Uri),
    MultiUri(MultiUri),
}

impl XpiResourceSet {
    /// The abstract value of this resource set.
    pub open spec fn view(&self) -> RsView {
        match self {
            XpiResourceSet::Uri(u) => RsView::Single(
                match u {
                    Uri::OnePart4(a) => UriView::One(a.spec_value()),
                    Uri::TwoPart44(a, b) => UriView::Two(a.spec_value(), b.spec_value()),
                    Uri::ThreePart444(a, b, c) => UriView::Three(
                        a.spec_value(),
                        b.spec_value(),
                        c.spec_value(),
                    ),
                    Uri::FourPart633(a, b, c) => UriView::Four(
                        a.spec_value(),
                        b.spec_value(),
                        c.spec_value(),
                    ),
                    Uri::MultiPart(arr) => UriView::Multi(arr.items()),
                },
            ),
            XpiResourceSet::MultiUri(mu) => RsView::Multi(mu.pairs_view()),
        }
    }

    pub open spec fn wf(&self) -> bool {
        &&& match self {
            XpiResourceSet::Uri(u) => u.wf(),
            XpiResourceSet::MultiUri(mu) => mu.wf(),
        }
        &&& rs_view_wf(self.view())
    }

    /// The 3-bit resource-set discriminant of the packed header.
    pub open spec fn spec_discriminant(&self) -> u8 {
        match self {
            XpiResourceSet::Uri(u) => match u {
                Uri::OnePart4(_) => 0,
                Uri::TwoPart44(_, _) => 1,
                Uri::ThreePart444(_, _, _) => 2,
                Uri::FourPart633(_, _, _) => 3,
                Uri::MultiPart(_) => 4,
            },
            XpiResourceSet::MultiUri(_) => 5,
        }
    }

    /// Resolve up to `max` concrete URIs this set selects, in order; the
    /// second component tells whether more than `max` were selected.
    pub fn flat_uris(&self, max: usize) -> (r: (Vec<Vec<u32>>, bool))
        requires
            self.wf(),
            max >= 1,
        ensures
            !r.1 ==> crate::uri::uri_views(r.0@) == rs_flat(self.view()),
            r.1 ==> crate::uri::uri_views(r.0@) == rs_flat(self.view()).take(max as int),
            r.1 <==> rs_flat(self.view()).len() > max,
    {
        match self {
            XpiResourceSet::Uri(u) => {
                let mut out: Vec<Vec<u32>> = Vec::new();
                out.push(u.parts_vec());
                proof {
                    assert(crate::uri::uri_views(out@) =~= rs_flat(self.view()));
                }
                (out, false)
            },
            XpiResourceSet::MultiUri(mu) => mu.flat_uris(max),
        }
    }

    /// A copy of this resource set.
    pub fn duplicate(&self) -> (r: XpiResourceSet)
        ensures
            r.view() == self.view(),
            self.wf() ==> r.wf(),
            r.spec_discriminant() == self.spec_discriminant(),
    {
        match self {
            XpiResourceSet::Uri(u) => XpiResourceSet::Uri(u.duplicate()),
            XpiResourceSet::MultiUri(mu) => XpiResourceSet::MultiUri(mu.duplicate()),
        }
    }
}

/// The resource-set body for a given view: packed nibbles for single URIs, a
/// vlu4 array for general paths, the full pair encoding for multi-URIs.
pub open spec fn rs_body_enc(rv: RsView) -> Seq<u8> {
    match rv {
        RsView::Single(uv) => match uv {
            UriView::One(a) => seq![a],
            UriView::Two(a, b) => seq![a, b],
            UriView::Three(a, b, c) => seq![a, b, c],
            UriView::Four(a, b, c) => seq![
                (a / 4) as u8,
                ((a % 4) * 4 + b / 2) as u8,
                ((b % 2) * 8 + c) as u8,
            ],
            UriView::Multi(parts) => vlu4_arr_enc(parts),
        },
        RsView::Multi(pv) => multi_uri_enc(pv),
    }
}

/// Parse a resource-set body for discriminant `disc` at nibble `pos`.
pub open spec fn rs_body_parse(nibs: Seq<u8>, pos: int, disc: u8) -> Option<(RsView, int)> {
    if disc == 0 {
        if 0 <= pos && pos + 1 <= nibs.len() {
            Some((RsView::Single(UriView::One(nibs[pos])), pos + 1))
        } else {
            None
        }
    } else if disc == 1 {
        if 0 <= pos && pos + 2 <= nibs.len() {
            Some((RsView::Single(UriView::Two(nibs[pos], nibs[pos + 1])), pos + 2))
        } else {
            None
        }
    } else if disc == 2 {
        if 0 <= pos && pos + 3 <= nibs.len() {
            Some(
                (RsView::Single(UriView::Three(nibs[pos], nibs[pos + 1], nibs[pos + 2])), pos + 3),
            )
        } else {
            None
        }
    } else if disc == 3 {
        if 0 <= pos && pos + 3 <= nibs.len() {
            Some(
                (
                    RsView::Single(
                        UriView::Four(
                            (nibs[pos] * 4 + nibs[pos + 1] / 4) as u8,
                            ((nibs[pos + 1] % 4) * 2 + nibs[pos + 2] / 8) as u8,
                            (nibs[pos + 2] % 8) as u8,
                        ),
                    ),
                    pos + 3,
                ),
            )
        } else {
            None
        }
    } else if disc == 4 {
        match vlu4_scan(nibs, pos) {
            VluScan::Done(k) => {
                let c = vlu4_val(nibs.subrange(pos, pos + k));
                match vlu4_seq_parse(nibs, pos + k, c as int) {
                    Some((parts, end)) => Some((RsView::Single(UriView::Multi(parts)), end)),
                    None => None,
                }
            },
            _ => None,
        }
    } else if disc == 5 {
        match multi_uri_parse(nibs, pos) {
            Some((pv, end)) => Some((RsView::Multi(pv), end)),
            None => None,
        }
    } else {
        None
    }
}

/// Parsing an encoded resource-set body yields its view.
pub proof fn lemma_rs_body_round_trip(rv: RsView, disc: u8, nibs: Seq<u8>, pos: int)
    requires
        0 <= pos,
        rs_view_wf(rv),
        match rv {
            RsView::Single(uv) => match uv {
                UriView::One(_) => disc == 0,
                UriView::Two(_, _) => disc == 1,
                UriView::Three(_, _, _) => disc == 2,
                UriView::Four(_, _, _) => disc == 3,
                UriView::Multi(_) => disc == 4,
            },
            RsView::Multi(_) => disc == 5,
        },
        pos + rs_body_enc(rv).len() <= nibs.len(),
        nibs.subrange(pos, pos + rs_body_enc(rv).len()) == rs_body_enc(rv),
    ensures
        rs_body_parse(nibs, pos, disc) == Some((rv, pos + rs_body_enc(rv).len())),
{
    let e = rs_body_enc(rv);
    assert forall|i: int| 0 <= i < e.len() implies nibs[pos + i] == e[i] by {
        assert(nibs.subrange(pos, pos + e.len())[i] == e[i]);
    }
    match rv {
        RsView::Single(uv) => match uv {
            UriView::One(a) => {
                assert(nibs[pos] == e[0]) by {
                    assert(nibs.subrange(pos, pos + e.len())[0] == e[0]);
                }
            },
            UriView::Two(a, b) => {
                assert(nibs[pos] == e[0]) by {
                    assert(nibs.subrange(pos, pos + e.len())[0] == e[0]);
                }
            },
            UriView::Three(a, b, c) => {
                assert(nibs[pos] == e[0]) by {
                    assert(nibs.subrange(pos, pos + e.len())[0] == e[0]);
                }
            },
            UriView::Four(a, b, c) => {
                assert(nibs[pos] == e[0]) by {
                    assert(nibs.subrange(pos, pos + e.len())[0] == e[0]);
                }
                assert((a / 4) * 4 + ((a % 4) * 4 + b / 2) / 4 == a);
                assert((((a % 4) * 4 + b / 2) % 4) * 2 + ((b % 2) * 8 + c) / 8 == b);
                assert(((b % 2) * 8 + c) % 8 == c);
            },
            UriView::Multi(parts) => {
                lemma_vlu4_arr_round_trip(parts, nibs, pos);
            },
        },
        RsView::Multi(pv) => {
            lemma_multi_uri_round_trip(pv, nibs, pos);
        },
    }
}


/// Write the resource-set body of `rs`.
pub fn put_rs_body(wgr: &mut NibbleBufMut, rs: &XpiResourceSet)
    requires
        old(wgr).wf(),
        rs.wf(),
    ensures
        final(wgr).wf(),
        final(wgr).cap() == old(wgr).cap(),
        old(wgr).pos() + rs_body_enc(rs.view()).len() <= old(wgr).cap() ==> {
            &&& final(wgr).written() == old(wgr).written() + rs_body_enc(rs.view())
            &&& final(wgr).pos() == old(wgr).pos() + rs_body_enc(rs.view()).len()
            &&& final(wgr).past_end() == old(wgr).past_end()
        },
        old(wgr).pos() + rs_body_enc(rs.view()).len() > old(wgr).cap() ==> final(wgr).past_end(),
{
    let ghost w0 = wgr.written();
    let ghost e = rs_body_enc(rs.view());
    match rs {
        XpiResourceSet::Uri(u) => match u {
            Uri::OnePart4(a) => {
                wgr.put_nibble(a.value());
                proof {
                    let x = a.spec_value();
                    assert(x & 0xf == x) by (bit_vector)
                        requires
                            x < 16,
                    ;
                    if old(wgr).pos() + e.len() <= old(wgr).cap() {
                        assert(wgr.written() =~= w0 + e);
                    }
                }
            },
            Uri::TwoPart44(a, b) => {
                wgr.put_nibble(a.value());
                wgr.put_nibble(b.value());
                proof {
                    let x = a.spec_value();
                    let y = b.spec_value();
                    assert(x & 0xf == x && y & 0xf == y) by (bit_vector)
                        requires
                            x < 16,
                            y < 16,
                    ;
                    if old(wgr).pos() + e.len() <= old(wgr).cap() {
                        assert(wgr.written() =~= w0 + e);
                    }
                }
            },
            Uri::ThreePart444(a, b, c) => {
                wgr.put_nibble(a.value());
                wgr.put_nibble(b.value());
                wgr.put_nibble(c.value());
                proof {
                    let x = a.spec_value();
                    let y = b.spec_value();
                    let z = c.spec_value();
                    assert(x & 0xf == x && y & 0xf == y && z & 0xf == z) by (bit_vector)
                        requires
                            x < 16,
                            y < 16,
                            z < 16,
                    ;
                    if old(wgr).pos() + e.len() <= old(wgr).cap() {
                        assert(wgr.written() =~= w0 + e);
                    }
                }
            },
            Uri::FourPart633(a, b, c) => {
                let av = a.value();
                let bv = b.value();
                let cv = c.value();
                wgr.put_nibble(av / 4);
                wgr.put_nibble((av % 4) * 4 + bv / 2);
                wgr.put_nibble((bv % 2) * 8 + cv);
                proof {
                    let n0 = (a.spec_value() / 4) as u8;
                    let n1 = ((a.spec_value() % 4) * 4 + b.spec_value() / 2) as u8;
                    let n2 = ((b.spec_value() % 2) * 8 + c.spec_value()) as u8;
                    assert(n0 & 0xf == n0 && n1 & 0xf == n1 && n2 & 0xf == n2) by (bit_vector)
                        requires
                            n0 < 16,
                            n1 < 16,
                            n2 < 16,
                    ;
                    if old(wgr).pos() + e.len() <= old(wgr).cap() {
                        assert(wgr.written() =~= w0 + e);
                    }
                }
            },
            Uri::MultiPart(arr) => {
                let items = arr.to_vec();
                put_vlu4_array(wgr, &items);
            },
        },
        XpiResourceSet::MultiUri(mu) => {
            put_multi_uri(wgr, mu);
        },
    }
}

/// The whole event an `XpiEvent` stands for, as abstract values.
pub struct EventView {
    pub source: u8,
    pub node_set: NodeSetView,
    pub resource_set: RsView,
    pub request_id: u32,
    pub priority: Priority,
    pub ttl: u8,
    pub kind: KindView,
}

/// A single protocol message: a request to, or a reply from, a set of
/// resources on a set of nodes.
pub struct XpiEvent {
    /// The node that sent the event; never zero.
    pub source: NodeId,
    /// The nodes the event addresses.
    pub node_set: NodeSet,
    /// The resources the operation applies to.
    pub resource_set: XpiResourceSet,
    /// Correlates replies with requests.
    pub request_id: u32,
    /// Delivery class and urgency.
    pub priority: Priority,
    /// Hop budget; decremented on each hop.
    pub ttl: u8,
    /// The operation or the results.
    pub kind: XpiEventKind,
}

impl XpiEvent {
    /// The abstract value of this event.
    pub open spec fn view(&self) -> EventView {
        EventView {
            source: self.source.spec_value(),
            node_set: self.node_set.view(),
            resource_set: self.resource_set.view(),
            request_id: self.request_id,
            priority: self.priority,
            ttl: self.ttl,
            kind: self.kind.view(),
        }
    }

    pub open spec fn wf(&self) -> bool {
        &&& self.source.wf()
        &&& self.node_set.wf()
        &&& self.resource_set.wf()
        &&& self.priority.wf()
        &&& self.ttl <= 15
        &&& self.kind.wf()
    }
}

/// The nibble stream of a whole event: the packed header, the multicast
/// trait list when present, the resource-set body, the request id, the ttl
/// nibble, and the kind payload.
pub open spec fn event_enc(v: EventView) -> Seq<u8> {
    let h = header_nibs(
        v.priority.spec_bits(),
        v.node_set is Unicast,
        v.kind is Call || v.kind is ChainCall || v.kind is Read || v.kind is Write || v.kind
            is OpenStreams || v.kind is CloseStreams || v.kind is Subscribe || v.kind
            is Unsubscribe || v.kind is Borrow || v.kind is Release || v.kind is GetInfo,
        v.source,
        match v.node_set {
            NodeSetView::Unicast(_) => 0,
            NodeSetView::Multicast(_) => 1,
            NodeSetView::Broadcast => 2,
        },
        match v.node_set {
            NodeSetView::Unicast(d) => d,
            _ => 0,
        },
        rs_view_disc(v.resource_set),
        kind_view_disc(v.kind),
    );
    let mc: Seq<u8> = match v.node_set {
        NodeSetView::Multicast(ts) => vlu4_arr_enc(ts),
        _ => Seq::empty(),
    };
    let rb = rs_body_enc(v.resource_set);
    let rq = vlu4_enc(v.request_id as int);
    let pre = h + mc + rb + rq + seq![v.ttl];
    pre + kind_body_enc(v.kind, pre.len() as int)
}

/// The resource-set discriminant of a view.
pub open spec fn rs_view_disc(rv: RsView) -> u8 {
    match rv {
        RsView::Single(uv) => match uv {
            UriView::One(_) => 0,
            UriView::Two(_, _) => 1,
            UriView::Three(_, _, _) => 2,
            UriView::Four(_, _, _) => 3,
            UriView::Multi(_) => 4,
        },
        RsView::Multi(_) => 5,
    }
}

/// The kind discriminant of a view, within its direction.
pub open spec fn kind_view_disc(kv: KindView) -> u8 {
    match kv {
        KindView::Call(_) => 0,
        KindView::Read => 1,
        KindView::Write(_) => 2,
        KindView::OpenStreams => 3,
        KindView::CloseStreams => 4,
        KindView::Subscribe(_) => 5,
        KindView::Unsubscribe => 6,
        KindView::Borrow => 7,
        KindView::Release => 8,
        KindView::GetInfo => 9,
        KindView::ChainCall(_) => 10,
        KindView::CallResults(_) => 0,
        KindView::ReadResults(_) => 1,
        KindView::WriteResults(_) => 2,
        KindView::SubscribeResults(_) => 3,
        KindView::BorrowResults(_) => 4,
        KindView::ReleaseResults(_) => 5,
        KindView::OpenStreamResults(_) => 6,
        KindView::CloseStreamResults(_) => 7,
        KindView::InfoResults(_) => 8,
        KindView::StreamUpdates(_) => 9,
    }
}

/// Whether a kind view is a request.
pub open spec fn kind_view_is_request(kv: KindView) -> bool {
    kv is Call || kv is ChainCall || kv is Read || kv is Write || kv is OpenStreams || kv
        is CloseStreams || kv is Subscribe || kv is Unsubscribe || kv is Borrow || kv is Release
        || kv is GetInfo
}

/// Parse a whole event from a byte frame.  Trailing padding after the kind
/// payload is ignored.  A zero source id, a zero unicast destination, or any
/// reserved discriminant makes the frame invalid.
pub open spec fn event_parse(data: Seq<u8>) -> Option<EventView> {
    let nibs = nibbles_of(data);
    match header_parse(nibs) {
        Some((prio_bits, is_unicast, is_request, source, ns_disc, ns_payload, rs_disc,
        kind_disc)) => {
            if source == 0 || (ns_disc == 0 && ns_payload == 0) {
                None
            } else {
                let mc: Option<(NodeSetView, int)> = if ns_disc == 1 {
                    match vlu4_scan(nibs, 8) {
                        VluScan::Done(k) => {
                            let c = vlu4_val(nibs.subrange(8, 8 + k));
                            match vlu4_seq_parse(nibs, 8 + k, c as int) {
                                Some((ts, end)) => Some((NodeSetView::Multicast(ts), end)),
                                None => None,
                            }
                        },
                        _ => None,
                    }
                } else if ns_disc == 0 {
                    Some((NodeSetView::Unicast(ns_payload), 8))
                } else {
                    Some((NodeSetView::Broadcast, 8))
                };
                match mc {
                    Some((nsv, p1)) => match rs_body_parse(nibs, p1, rs_disc) {
                        Some((rv, p2)) => match vlu4_scan(nibs, p2) {
                            VluScan::Done(k2) => {
                                let rq = vlu4_val(nibs.subrange(p2, p2 + k2));
                                let p3 = p2 + k2;
                                if p3 < nibs.len() {
                                    let ttl = nibs[p3];
                                    match kind_body_parse(data, p3 + 1, is_request, kind_disc) {
                                        Some((kv, _)) => Some(
                                            EventView {
                                                source,
                                                node_set: nsv,
                                                resource_set: rv,
                                                request_id: rq,
                                                priority: Priority::spec_from_bits(prio_bits),
                                                ttl,
                                                kind: kv,
                                            },
                                        ),
                                        None => None,
                                    }
                                } else {
                                    None
                                }
                            },
                            _ => None,
                        },
                        None => None,
                    },
                    None => None,
                }
            }
        },
        None => None,
    }
}


/// Serialize a whole event at the start of a frame writer.  When it does
/// not fit, the writer's past-end flag is set and the frame must be
/// discarded.
#[verifier::rlimit(100)]
pub fn serialize_event(ev: &XpiEvent, wgr: &mut NibbleBufMut)
    requires
        old(wgr).wf(),
        old(wgr).pos() == 0,
        ev.wf(),
    ensures
        final(wgr).wf(),
        final(wgr).cap() == old(wgr).cap(),
        event_enc(ev.view()).len() <= old(wgr).cap() ==> {
            &&& final(wgr).written() == event_enc(ev.view())
            &&& final(wgr).pos() == event_enc(ev.view()).len()
            &&& final(wgr).past_end() == old(wgr).past_end()
        },
        event_enc(ev.view()).len() > old(wgr).cap() ==> final(wgr).past_end(),
{
    let ghost v = ev.view();
    let ghost e = event_enc(v);
    let ghost h = header_nibs(
        v.priority.spec_bits(),
        v.node_set is Unicast,
        kind_view_is_request(v.kind),
        v.source,
        match v.node_set {
            NodeSetView::Unicast(_) => 0,
            NodeSetView::Multicast(_) => 1,
            NodeSetView::Broadcast => 2,
        },
        match v.node_set {
            NodeSetView::Unicast(d) => d,
            _ => 0,
        },
        rs_view_disc(v.resource_set),
        kind_view_disc(v.kind),
    );
    let ghost mc: Seq<u8> = match v.node_set {
        NodeSetView::Multicast(ts) => vlu4_arr_enc(ts),
        _ => Seq::empty(),
    };
    let ghost rb = rs_body_enc(v.resource_set);
    let ghost rq = vlu4_enc(v.request_id as int);
    let ghost pre = h + mc + rb + rq + seq![v.ttl];
    proof {
        assert(e == pre + kind_body_enc(v.kind, pre.len() as int));
    }
    let prio_bits = ev.priority.bits();
    let is_unicast = matches!(ev.node_set, NodeSet::Unicast(_));
    let is_request = matches!(ev.kind, XpiEventKind::Request(_));
    let ns_disc: u8 = match &ev.node_set {
        NodeSet::Unicast(_) => 0,
        NodeSet::Multicast { .. } => 1,
        NodeSet::Broadcast => 2,
    };
    let ns_payload: u8 = match &ev.node_set {
        NodeSet::Unicast(n) => n.value(),
        _ => 0,
    };
    let rs_disc: u8 = match &ev.resource_set {
        XpiResourceSet::Uri(u) => match u {
            Uri::OnePart4(_) => 0,
            Uri::TwoPart44(_, _) => 1,
            Uri::ThreePart444(_, _, _) => 2,
            Uri::FourPart633(_, _, _) => 3,
            Uri::MultiPart(_) => 4,
        },
        XpiResourceSet::MultiUri(_) => 5,
    };
    let kind_disc: u8 = match &ev.kind {
        XpiEventKind::Request(rq2) => match rq2 {
            XpiRequestKind::Call { .. } => 0,
            XpiRequestKind::Read => 1,
            XpiRequestKind::Write { .. } => 2,
            XpiRequestKind::OpenStreams => 3,
            XpiRequestKind::CloseStreams => 4,
            XpiRequestKind::Subscribe { .. } => 5,
            XpiRequestKind::Unsubscribe => 6,
            XpiRequestKind::Borrow => 7,
            XpiRequestKind::Release => 8,
            XpiRequestKind::GetInfo => 9,
            XpiRequestKind::ChainCall { .. } => 10,
        },
        XpiEventKind::Reply(rp) => match rp {
            XpiReplyKind::CallResults(_) => 0,
            XpiReplyKind::ReadResults(_) => 1,
            XpiReplyKind::WriteResults(_) => 2,
            XpiReplyKind::SubscribeResults(_) => 3,
            XpiReplyKind::BorrowResults(_) => 4,
            XpiReplyKind::ReleaseResults(_) => 5,
            XpiReplyKind::OpenStreamResults(_) => 6,
            XpiReplyKind::CloseStreamResults(_) => 7,
            XpiReplyKind::InfoResults(_) => 8,
            XpiReplyKind::StreamUpdates(_) => 9,
        },
    };
    put_header(wgr, prio_bits, is_unicast, is_request, ev.source.value(), ns_disc, ns_payload,
        rs_disc, kind_disc);
    match &ev.node_set {
        NodeSet::Multicast { traits } => {
            let items = traits.to_vec();
            put_vlu4_array(wgr, &items);
        },
        _ => (),
    }
    put_rs_body(wgr, &ev.resource_set);
    wgr.put_vlu4_u32(ev.request_id);
    wgr.put_nibble(ev.ttl);
    proof {
        let t = v.ttl;
        assert(t & 0xf == t) by (bit_vector)
            requires
                t < 16,
        ;
        if e.len() <= old(wgr).cap() {
            assert(wgr.written() =~= pre);
        } else if !wgr.past_end() {
            assert(wgr.written() =~= pre);
        }
    }
    put_kind_body(wgr, &ev.kind);
    proof {
        if e.len() <= old(wgr).cap() {
            assert(wgr.written() =~= e);
        } else if !wgr.past_end() {
            assert(wgr.written() =~= e);
        }
    }
}

/// Parse a resource-set body for discriminant `disc` from `rdr`.
pub fn parse_rs_body(rdr: &mut NibbleBuf, disc: u8) -> (r: Result<
    XpiResourceSet,
    crate::nibble_buf::Error,
>)
    requires
        old(rdr).wf(),
    ensures
        final(rdr).wf(),
        final(rdr).data() == old(rdr).data(),
        old(rdr).past_end() ==> r is Err,
        !old(rdr).past_end() ==> match rs_body_parse(old(rdr).nibbles(), old(rdr).pos(), disc) {
            Some((rv, end)) => {
                &&& (r matches Ok(rs) && rs.view() == rv && rs.wf() && rs.spec_discriminant()
                    == disc)
                &&& final(rdr).pos() == end
                &&& !final(rdr).past_end()
            },
            None => r is Err,
        },
{
    if disc <= 3 {
        parse_rs_packed(rdr, disc)
    } else if disc == 4 {
        parse_rs_multipart(rdr)
    } else if disc == 5 {
        parse_rs_multiuri(rdr)
    } else {
        Err(crate::nibble_buf::Error::OutOfBounds)
    }
}

/// Parse a general vlu4 path as a resource set.
fn parse_rs_multipart(rdr: &mut NibbleBuf) -> (r: Result<
    XpiResourceSet,
    crate::nibble_buf::Error,
>)
    requires
        old(rdr).wf(),
    ensures
        final(rdr).wf(),
        final(rdr).data() == old(rdr).data(),
        old(rdr).past_end() ==> r is Err,
        !old(rdr).past_end() ==> match rs_body_parse(old(rdr).nibbles(), old(rdr).pos(), 4) {
            Some((rv, end)) => {
                &&& (r matches Ok(rs) && rs.view() == rv && rs.wf() && rs.spec_discriminant()
                    == 4)
                &&& final(rdr).pos() == end
                &&& !final(rdr).past_end()
            },
            None => r is Err,
        },
{
    let fork = rdr.fork();
    let arr = Vlu4U32Array::new(fork);
    if arr.is_past_end() {
        return Err(crate::nibble_buf::Error::OutOfBounds);
    }
    let rest = arr.lookahead();
    *rdr = rest;
    Ok(XpiResourceSet::Uri(Uri::MultiPart(arr)))
}

/// Parse a multi-URI as a resource set.
#[verifier::rlimit(100)]
fn parse_rs_multiuri(rdr: &mut NibbleBuf) -> (r: Result<
    XpiResourceSet,
    crate::nibble_buf::Error,
>)
    requires
        old(rdr).wf(),
    ensures
        final(rdr).wf(),
        final(rdr).data() == old(rdr).data(),
        old(rdr).past_end() ==> r is Err,
        !old(rdr).past_end() ==> match rs_body_parse(old(rdr).nibbles(), old(rdr).pos(), 5) {
            Some((rv, end)) => {
                &&& (r matches Ok(rs) && rs.view() == rv && rs.wf() && rs.spec_discriminant()
                    == 5)
                &&& final(rdr).pos() == end
                &&& !final(rdr).past_end()
            },
            None => r is Err,
        },
{
    let fork = rdr.fork();
    let mu = MultiUri::new(fork);
    if mu.is_past_end() {
        return Err(crate::nibble_buf::Error::OutOfBounds);
    }
    proof {
        crate::uri::lemma_multi_uri_parse_lens(old(rdr).nibbles(), old(rdr).pos());
        let pv = multi_uri_parse(old(rdr).nibbles(), old(rdr).pos())->Some_0.0;
        assert(mu.pairs_view() == pv);
        assert(mu_pairs_wf(pv));
        assert(rs_view_wf(RsView::Multi(pv)));
    }
    let rest = mu.rest_reader();
    *rdr = rest;
    Ok(XpiResourceSet::MultiUri(mu))
}

/// Parse one of the packed single-URI forms.
#[verifier::rlimit(100)]
fn parse_rs_packed(rdr: &mut NibbleBuf, disc: u8) -> (r: Result<
    XpiResourceSet,
    crate::nibble_buf::Error,
>)
    requires
        old(rdr).wf(),
        disc <= 3,
    ensures
        final(rdr).wf(),
        final(rdr).data() == old(rdr).data(),
        old(rdr).past_end() ==> r is Err,
        !old(rdr).past_end() ==> match rs_body_parse(old(rdr).nibbles(), old(rdr).pos(), disc) {
            Some((rv, end)) => {
                &&& (r matches Ok(rs) && rs.view() == rv && rs.wf() && rs.spec_discriminant()
                    == disc)
                &&& final(rdr).pos() == end
                &&& !final(rdr).past_end()
            },
            None => r is Err,
        },
{
    let ghost nibs = old(rdr).nibbles();
    if disc == 0 {
        let n0 = match rdr.get_nibble() {
            Ok(n) => n,
            Err(e) => {
                return Err(e);
            },
        };
        proof {
            lemma_nibble_small(old(rdr).data(), old(rdr).pos());
        }
        match U4::new(n0) {
            Some(a) => Ok(XpiResourceSet::Uri(Uri::OnePart4(a))),
            None => Err(crate::nibble_buf::Error::OutOfBounds),
        }
    } else if disc == 1 {
        let n0 = match rdr.get_nibble() {
            Ok(n) => n,
            Err(e) => {
                return Err(e);
            },
        };
        let n1 = match rdr.get_nibble() {
            Ok(n) => n,
            Err(e) => {
                return Err(e);
            },
        };
        proof {
            lemma_nibble_small(old(rdr).data(), old(rdr).pos());
            lemma_nibble_small(old(rdr).data(), old(rdr).pos() + 1);
        }
        match (U4::new(n0), U4::new(n1)) {
            (Some(a), Some(b)) => Ok(XpiResourceSet::Uri(Uri::TwoPart44(a, b))),
            _ => Err(crate::nibble_buf::Error::OutOfBounds),
        }
    } else if disc == 2 {
        let n0 = match rdr.get_nibble() {
            Ok(n) => n,
            Err(e) => {
                return Err(e);
            },
        };
        let n1 = match rdr.get_nibble() {
            Ok(n) => n,
            Err(e) => {
                return Err(e);
            },
        };
        let n2 = match rdr.get_nibble() {
            Ok(n) => n,
            Err(e) => {
                return Err(e);
            },
        };
        proof {
            lemma_nibble_small(old(rdr).data(), old(rdr).pos());
            lemma_nibble_small(old(rdr).data(), old(rdr).pos() + 1);
            lemma_nibble_small(old(rdr).data(), old(rdr).pos() + 2);
        }
        match (U4::new(n0), U4::new(n1), U4::new(n2)) {
            (Some(a), Some(b), Some(c)) => Ok(XpiResourceSet::Uri(Uri::ThreePart444(a, b, c))),
            _ => Err(crate::nibble_buf::Error::OutOfBounds),
        }
    } else if disc == 3 {
        let n0 = match rdr.get_nibble() {
            Ok(n) => n,
            Err(e) => {
                return Err(e);
            },
        };
        let n1 = match rdr.get_nibble() {
            Ok(n) => n,
            Err(e) => {
                return Err(e);
            },
        };
        let n2 = match rdr.get_nibble() {
            Ok(n) => n,
            Err(e) => {
                return Err(e);
            },
        };
        proof {
            lemma_nibble_small(old(rdr).data(), old(rdr).pos());
            lemma_nibble_small(old(rdr).data(), old(rdr).pos() + 1);
            lemma_nibble_small(old(rdr).data(), old(rdr).pos() + 2);
        }
        let av = n0 * 4 + n1 / 4;
        let bv = (n1 % 4) * 2 + n2 / 8;
        let cv = n2 % 8;
        match (U6::new(av), U3::new(bv), U3::new(cv)) {
            (Some(a), Some(b), Some(c)) => Ok(XpiResourceSet::Uri(Uri::FourPart633(a, b, c))),
            _ => Err(crate::nibble_buf::Error::OutOfBounds),
        }
    } else {
        Err(crate::nibble_buf::Error::OutOfBounds)
    }
}

/// A value of the nibble stream is always below 16.
pub proof fn lemma_nibble_small(data: Seq<u8>, pos: int)
    requires
        0 <= pos < nibbles_of(data).len(),
    ensures
        nibbles_of(data)[pos] < 16,
{
    let b = data[pos / 2];
    assert(b / 16 < 16 && b % 16 < 16);
}

/// Parse a whole event from a byte frame; `Ok` exactly when the frame is a
/// valid event per `event_parse`.
#[verifier::rlimit(100)]
pub fn parse_event(data: Vec<u8>) -> (r: Result<XpiEvent, XpiVlu4Error>)
    requires
        2 * data@.len() + 1 <= usize::MAX,
    ensures
        match event_parse(data@) {
            Some(v) => r matches Ok(e) && e.view() == v && e.wf(),
            None => r is Err,
        },
{
    let ghost nibs = nibbles_of(data@);
    let mut rdr = NibbleBuf::new(data);
    let mut h0: u8 = 0;
    let mut h1: u8 = 0;
    let mut h2: u8 = 0;
    let mut h3: u8 = 0;
    let mut h4: u8 = 0;
    let mut h5: u8 = 0;
    let mut h6: u8 = 0;
    let mut h7: u8 = 0;
    if rdr.nibbles_left() < 8 {
        return Err(XpiVlu4Error::TruncatedHeader);
    }
    let r0 = rdr.get_nibble();
    let r1 = rdr.get_nibble();
    let r2 = rdr.get_nibble();
    let r3 = rdr.get_nibble();
    let r4 = rdr.get_nibble();
    let r5 = rdr.get_nibble();
    let r6 = rdr.get_nibble();
    let r7 = rdr.get_nibble();
    match (r0, r1, r2, r3, r4, r5, r6, r7) {
        (Ok(a0), Ok(a1), Ok(a2), Ok(a3), Ok(a4), Ok(a5), Ok(a6), Ok(a7)) => {
            h0 = a0;
            h1 = a1;
            h2 = a2;
            h3 = a3;
            h4 = a4;
            h5 = a5;
            h6 = a6;
            h7 = a7;
        },
        _ => {
            return Err(XpiVlu4Error::TruncatedHeader);
        },
    }
    proof {
        lemma_nibble_small(rdr.data(), 0);
        lemma_nibble_small(rdr.data(), 1);
        lemma_nibble_small(rdr.data(), 2);
        lemma_nibble_small(rdr.data(), 3);
        lemma_nibble_small(rdr.data(), 4);
        lemma_nibble_small(rdr.data(), 5);
        lemma_nibble_small(rdr.data(), 6);
        lemma_nibble_small(rdr.data(), 7);
    }
    if h0 > 1 || h2 > 7 {
        return Err(XpiVlu4Error::ReservedDiscriminant);
    }
    let prio_bits = h0 * 4 + h1 / 4;
    let is_unicast = (h1 / 2) % 2 == 1;
    let is_request = h1 % 2 == 1;
    let source = h2 * 16 + h3;
    let ns_disc = h4 / 4;
    let ns_payload = (h4 % 4) * 32 + h5 * 2 + h6 / 8;
    let rs_disc = h6 % 8;
    let kind_disc = h7;
    if ns_disc == 3 {
        return Err(XpiVlu4Error::ReservedDiscriminant);
    }
    if source == 0 || (ns_disc == 0 && ns_payload == 0) {
        return Err(XpiVlu4Error::ReservedDiscriminant);
    }
    let source_id = match NodeId::new(source) {
        Some(n) => n,
        None => {
            return Err(XpiVlu4Error::InternalError);
        },
    };
    let node_set: NodeSet = if ns_disc == 0 {
        match NodeId::new(ns_payload) {
            Some(d) => NodeSet::Unicast(d),
            None => {
                return Err(XpiVlu4Error::InternalError);
            },
        }
    } else if ns_disc == 1 {
        let fork = rdr.fork();
        let arr = Vlu4U32Array::new(fork);
        if arr.is_past_end() {
            return Err(XpiVlu4Error::NibbleBuf(crate::nibble_buf::Error::OutOfBounds));
        }
        let rest = arr.lookahead();
        rdr = rest;
        NodeSet::Multicast { traits: arr }
    } else {
        NodeSet::Broadcast
    };
    let resource_set = match parse_rs_body(&mut rdr, rs_disc) {
        Ok(rs) => rs,
        Err(e) => {
            return Err(XpiVlu4Error::NibbleBuf(e));
        },
    };
    let request_id = match rdr.get_vlu4_u32() {
        Ok(q) => q,
        Err(e) => {
            return Err(XpiVlu4Error::NibbleBuf(e));
        },
    };
    let ttl = match rdr.get_nibble() {
        Ok(t) => t,
        Err(e) => {
            return Err(XpiVlu4Error::NibbleBuf(e));
        },
    };
    proof {
        lemma_nibble_small(rdr.data(), rdr.pos() - 1);
    }
    let kind = match crate::event_kind::parse_kind_body(&mut rdr, is_request, kind_disc) {
        Ok(k) => k,
        Err(e) => {
            return Err(XpiVlu4Error::NibbleBuf(e));
        },
    };
    let priority = Priority::from_bits(prio_bits);
    Ok(
        XpiEvent {
            source: source_id,
            node_set,
            resource_set,
            request_id,
            priority,
            ttl,
            kind,
        },
    )
}


/// An event value every field of which fits its wire form.
pub open spec fn event_view_wf(v: EventView) -> bool {
    &&& 1 <= v.source <= 127
    &&& match v.node_set {
        NodeSetView::Unicast(d) => 1 <= d <= 127,
        NodeSetView::Multicast(ts) => ts.len() < 0x1_0000_0000,
        NodeSetView::Broadcast => true,
    }
    &&& v.priority.wf()
    &&& v.ttl <= 15
    &&& rs_view_wf(v.resource_set)
    &&& crate::event_kind::kind_view_wf(v.kind)
}

/// A well-formed event round-trips through its wire form.
impl XpiEvent {
    /// A well-formed event has a well-formed view.
    pub proof fn lemma_wf_view(&self)
        requires
            self.wf(),
        ensures
            event_view_wf(self.view()),
    {
    }
}

/// A segment of the encoded prefix is a subrange of the stream.
proof fn lemma_enc_segment(nibs: Seq<u8>, e: Seq<u8>, off: int, seg: Seq<u8>)
    requires
        0 <= off,
        off + seg.len() <= e.len(),
        e.len() <= nibs.len(),
        nibs.subrange(0, e.len() as int) == e,
        forall|i: int| 0 <= i < seg.len() ==> e[off + i] == #[trigger] seg[i],
    ensures
        nibs.subrange(off, off + seg.len()) == seg,
{
    assert forall|i: int| 0 <= i < seg.len() implies nibs.subrange(off, off + seg.len())[i]
        == seg[i] by {
        assert(nibs[off + i] == nibs.subrange(0, e.len() as int)[off + i]);
    }
    assert(nibs.subrange(off, off + seg.len()) =~= seg);
}

/// Law: round trip.  Parsing a frame that carries the encoding of a
/// well-formed event — exactly, padded to whole bytes — yields that event
/// back, every field of it.
#[verifier::rlimit(100)]
#[verifier::spinoff_prover]
pub proof fn lemma_event_round_trip(v: EventView, data: Seq<u8>)
    requires
        event_view_wf(v),
        2 * data.len() == event_enc(v).len() + event_enc(v).len() % 2,
        nibbles_of(data).subrange(0, event_enc(v).len() as int) == event_enc(v),
    ensures
        event_parse(data) == Some(v),
{
    let nibs = nibbles_of(data);
    let e = event_enc(v);
    let is_request = kind_view_is_request(v.kind);
    let ns_disc: u8 = match v.node_set {
        NodeSetView::Unicast(_) => 0,
        NodeSetView::Multicast(_) => 1,
        NodeSetView::Broadcast => 2,
    };
    let ns_payload: u8 = match v.node_set {
        NodeSetView::Unicast(d) => d,
        _ => 0,
    };
    let rs_disc = rs_view_disc(v.resource_set);
    let kind_disc = kind_view_disc(v.kind);
    let h = header_nibs(
        v.priority.spec_bits(),
        v.node_set is Unicast,
        is_request,
        v.source,
        ns_disc,
        ns_payload,
        rs_disc,
        kind_disc,
    );
    let mc: Seq<u8> = match v.node_set {
        NodeSetView::Multicast(ts) => crate::serdes::vlu4_arr_enc(ts),
        _ => Seq::empty(),
    };
    let rb = rs_body_enc(v.resource_set);
    let rq = vlu4_enc(v.request_id as int);
    let pre = h + mc + rb + rq + seq![v.ttl];
    let kb = crate::event_kind::kind_body_enc(v.kind, pre.len() as int);
    assert(e == pre + kb);
    assert forall|i: int| 0 <= i < e.len() implies nibs[i] == e[i] by {
        assert(nibs.subrange(0, e.len() as int)[i] == e[i]);
    }
    assert forall|i: int| 0 <= i < 8 implies e[0 + i] == #[trigger] h[i] by {
        assert(e[i] == pre[i]);
        assert(pre[i] == (h + mc)[i]);
    }
    lemma_enc_segment(nibs, e, 0, h);
    assert(nibs.subrange(0, 8) == h);
    assert(v.priority.spec_bits() <= 7);
    lemma_header_round_trip(
        v.priority.spec_bits(),
        v.node_set is Unicast,
        is_request,
        v.source,
        ns_disc,
        ns_payload,
        rs_disc,
        kind_disc,
        nibs,
    );
    Priority::lemma_bits_round_trip(v.priority);
    let p1 = 8 + mc.len() as int;
    if v.node_set is Multicast {
        let ts = v.node_set->Multicast_0;
        assert forall|i: int| 0 <= i < mc.len() implies e[8 + i] == #[trigger] mc[i] by {
            assert(e[8 + i] == pre[8 + i]);
            assert(pre[8 + i] == (h + mc)[8 + i]);
        }
        lemma_enc_segment(nibs, e, 8, mc);
        crate::serdes::lemma_vlu4_arr_round_trip(ts, nibs, 8);
    }
    assert forall|i: int| 0 <= i < rb.len() implies e[p1 + i] == #[trigger] rb[i] by {
        assert(e[p1 + i] == pre[p1 + i]);
        assert(pre[p1 + i] == ((h + mc) + rb)[p1 + i]);
    }
    lemma_enc_segment(nibs, e, p1, rb);
    lemma_rs_body_round_trip(v.resource_set, rs_disc, nibs, p1);
    let p2 = p1 + rb.len() as int;
    assert forall|i: int| 0 <= i < rq.len() implies e[p2 + i] == #[trigger] rq[i] by {
        assert(e[p2 + i] == pre[p2 + i]);
        assert(pre[p2 + i] == (((h + mc) + rb) + rq)[p2 + i]);
    }
    lemma_enc_segment(nibs, e, p2, rq);
    crate::nibble_buf::lemma_vlu4_round_trip(v.request_id, nibs, p2);
    let p3 = p2 + rq.len() as int;
    assert(nibs[p3] == v.ttl) by {
        assert(nibs[p3] == e[p3]);
        assert(e[p3] == pre[p3]);
        assert(pre[p3] == seq![v.ttl][0]);
    }
    let p4 = p3 + 1;
    assert(pre.len() == p4);
    assert forall|i: int| 0 <= i < kb.len() implies e[p4 + i] == #[trigger] kb[i] by {
        assert(e[p4 + i] == (pre + kb)[p4 + i]);
    }
    lemma_enc_segment(nibs, e, p4, kb);
    crate::event_kind::lemma_kind_body_round_trip(v.kind, kind_disc, is_request, data, p4);
    assert(p3 < nibs.len());
    assert(event_parse(data) == Some(v)) by {
        let parsed = event_parse(data)->Some_0;
        assert(event_parse(data) is Some);
        assert(parsed.source == v.source);
        assert(parsed.node_set == v.node_set);
        assert(parsed.resource_set == v.resource_set);
        assert(parsed.request_id == v.request_id);
        assert(parsed.priority == v.priority);
        assert(parsed.ttl == v.ttl);
        assert(parsed.kind == v.kind);
    }
}

} // verus!
