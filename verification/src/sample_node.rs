//! The bridge node's resource table: a digit property, a synchronous
//! point-sum method and a deferred variant of it.
//!
//! The resource tree is `/1` (a writable and readable digit), `/5` (the
//! synchronous `sync` method over two points) and `/6` (the same method,
//! answered by a deferred handler).

use vstd::prelude::*;
use crate::dispatch::{ClaimToken, ReplySizeHint, ResourceTable, SerDesSize, REPLY_MTU};
use crate::event::{
    EventView, NodeId, NodeSet, NodeSetView, Priority, XpiError, XpiEvent, XpiResourceSet,
    event_enc, event_parse, serialize_event,
};
use crate::event_kind::{KindView, XpiEventKind, XpiReplyKind};
use crate::discrete::U4;
use crate::nibble_buf::{NibbleBufMut, nibbles_of};
use crate::outbound::{queue_bytes, queue_commit};
use crate::point::{Point, sync};
use crate::uri::Uri;
use crate::vlu4::clone_bytes;

verus! {

/// A deferred call waiting for its handler to run.
pub struct PendingCall {
    pub token: ClaimToken,
    pub args: Vec<u8>,
}

/// The bridge node's state: the digit shown on its display and the deferred
/// calls not yet answered.
pub struct BridgeNode {
    /// The digit property at `/1`.
    pub digit: u8,
    /// Deferred calls whose handlers have not run yet.
    pub pending: Vec<PendingCall>,
}

impl BridgeNode {
    pub fn new() -> (r: BridgeNode)
        ensures
            r.digit == 0,
            r.pending@.len() == 0,
    {
        BridgeNode { digit: 0, pending: Vec::new() }
    }

    /// The size and validity prediction of this node's resource tree, as a
    /// table: `/1` serves reads and writes, `/5` serves calls, `/6` defers
    /// calls; a call at `/1` is `NotAMethod`, unknown paths are `BadUri`,
    /// the root serves nothing.
    pub open spec fn spec_size_hint(uri: Seq<u32>, kind_disc: u8) -> ReplySizeHint {
        if uri == seq![1u32] {
            if kind_disc == 2 {
                ReplySizeHint::Immediate {
                    max_size: SerDesSize::Sized(3),
                    raw_size: SerDesSize::Sized(0),
                    preliminary: Ok(()),
                }
            } else if kind_disc == 1 {
                ReplySizeHint::Immediate {
                    max_size: SerDesSize::Sized(5),
                    raw_size: SerDesSize::Sized(2),
                    preliminary: Ok(()),
                }
            } else if kind_disc == 0 {
                ReplySizeHint::Immediate {
                    max_size: SerDesSize::Sized(2),
                    raw_size: SerDesSize::Sized(0),
                    preliminary: Err(XpiError::NotAMethod),
                }
            } else {
                ReplySizeHint::Immediate {
                    max_size: SerDesSize::Sized(2),
                    raw_size: SerDesSize::Sized(0),
                    preliminary: Err(XpiError::OperationNotSupported),
                }
            }
        } else if uri == seq![5u32] {
            if kind_disc == 0 {
                ReplySizeHint::Immediate {
                    max_size: SerDesSize::Sized(11),
                    raw_size: SerDesSize::Sized(8),
                    preliminary: Ok(()),
                }
            } else {
                ReplySizeHint::Immediate {
                    max_size: SerDesSize::Sized(2),
                    raw_size: SerDesSize::Sized(0),
                    preliminary: Err(XpiError::OperationNotSupported),
                }
            }
        } else if uri == seq![6u32] {
            if kind_disc == 0 {
                ReplySizeHint::Deferred
            } else {
                ReplySizeHint::Immediate {
                    max_size: SerDesSize::Sized(2),
                    raw_size: SerDesSize::Sized(0),
                    preliminary: Err(XpiError::OperationNotSupported),
                }
            }
        } else if uri.len() == 0 {
            ReplySizeHint::Immediate {
                max_size: SerDesSize::Sized(2),
                raw_size: SerDesSize::Sized(0),
                preliminary: Err(XpiError::OperationNotSupported),
            }
        } else {
            ReplySizeHint::Immediate {
                max_size: SerDesSize::Sized(2),
                raw_size: SerDesSize::Sized(0),
                preliminary: Err(XpiError::BadUri),
            }
        }
    }

    /// Size and validity prediction for one resolved URI, following
    /// `spec_size_hint` exactly.
    pub fn dispatch_size_hint(&self, uri: &Vec<u32>, kind_disc: u8) -> (r: ReplySizeHint)
        ensures
            r == BridgeNode::spec_size_hint(uri@, kind_disc),
    {
        proof {
            if uri@.len() == 1 {
                if uri@[0] == 1 {
                    assert(uri@ =~= seq![1u32]);
                } else if uri@[0] == 5 {
                    assert(uri@ =~= seq![5u32]);
                } else if uri@[0] == 6 {
                    assert(uri@ =~= seq![6u32]);
                }
            }
        }
        if uri.len() == 1 && uri[0] == 1 {
            if kind_disc == 2 {
                // write /1
                ReplySizeHint::Immediate {
                    max_size: SerDesSize::Sized(3),
                    raw_size: SerDesSize::Sized(0),
                    preliminary: Ok(()),
                }
            } else if kind_disc == 1 {
                // read /1
                ReplySizeHint::Immediate {
                    max_size: SerDesSize::Sized(5),
                    raw_size: SerDesSize::Sized(2),
                    preliminary: Ok(()),
                }
            } else if kind_disc == 0 {
                ReplySizeHint::Immediate {
                    max_size: SerDesSize::Sized(2),
                    raw_size: SerDesSize::Sized(0),
                    preliminary: Err(XpiError::NotAMethod),
                }
            } else {
                ReplySizeHint::Immediate {
                    max_size: SerDesSize::Sized(2),
                    raw_size: SerDesSize::Sized(0),
                    preliminary: Err(XpiError::OperationNotSupported),
                }
            }
        } else if uri.len() == 1 && uri[0] == 5 {
            if kind_disc == 0 {
                // call /5: a point result is eight nibbles plus framing
                ReplySizeHint::Immediate {
                    max_size: SerDesSize::Sized(11),
                    raw_size: SerDesSize::Sized(8),
                    preliminary: Ok(()),
                }
            } else {
                ReplySizeHint::Immediate {
                    max_size: SerDesSize::Sized(2),
                    raw_size: SerDesSize::Sized(0),
                    preliminary: Err(XpiError::OperationNotSupported),
                }
            }
        } else if uri.len() == 1 && uri[0] == 6 {
            if kind_disc == 0 {
                ReplySizeHint::Deferred
            } else {
                ReplySizeHint::Immediate {
                    max_size: SerDesSize::Sized(2),
                    raw_size: SerDesSize::Sized(0),
                    preliminary: Err(XpiError::OperationNotSupported),
                }
            }
        } else if uri.len() == 0 {
            ReplySizeHint::Immediate {
                max_size: SerDesSize::Sized(2),
                raw_size: SerDesSize::Sized(0),
                preliminary: Err(XpiError::OperationNotSupported),
            }
        } else {
            ReplySizeHint::Immediate {
                max_size: SerDesSize::Sized(2),
                raw_size: SerDesSize::Sized(0),
                preliminary: Err(XpiError::BadUri),
            }
        }
    }

    /// Perform one method call: `/5` sums two points from the argument
    /// bundle and returns the serialized sum; `/1` is a property, `/6` is
    /// reached through `spawn_call` only, and no other path exists.
    pub fn dispatch_call(&mut self, uri: &Vec<u32>, args: &Vec<u8>) -> (r: Result<
        Vec<u8>,
        XpiError,
    >)
        ensures
            old(self).digit == final(self).digit,
            final(self).pending@ == old(self).pending@,
            uri@ == seq![5u32] && args@.len() >= 8 ==> (r matches Ok(b) && b@
                == crate::point::point_bytes(
                Point {
                    x: (((args@[0] + args@[1] * 256) + (args@[4] + args@[5] * 256))
                        % 0x10000) as u16,
                    y: (((args@[2] + args@[3] * 256) + (args@[6] + args@[7] * 256))
                        % 0x10000) as u16,
                },
            )),
            uri@ == seq![5u32] && args@.len() < 8 ==> r == Err::<Vec<u8>, XpiError>(
                XpiError::NoArgumentsProvided,
            ),
            uri@ == seq![1u32] ==> r == Err::<Vec<u8>, XpiError>(XpiError::NotAMethod),
            uri@ == seq![6u32] ==> r == Err::<Vec<u8>, XpiError>(XpiError::Internal),
            !(uri@ == seq![1u32] || uri@ == seq![5u32] || uri@ == seq![6u32]) ==> r == Err::<
                Vec<u8>,
                XpiError,
            >(XpiError::BadUri),
    {
        proof {
            if uri@.len() == 1 {
                if uri@[0] == 1 {
                    assert(uri@ =~= seq![1u32]);
                } else if uri@[0] == 5 {
                    assert(uri@ =~= seq![5u32]);
                } else if uri@[0] == 6 {
                    assert(uri@ =~= seq![6u32]);
                }
            }
        }
        if uri.len() == 1 && uri[0] == 5 {
            let p1 = match Point::des_bytes(args, 0) {
                Some(p) => p,
                None => {
                    return Err(XpiError::NoArgumentsProvided);
                },
            };
            let p2 = match Point::des_bytes(args, 4) {
                Some(p) => p,
                None => {
                    return Err(XpiError::NoArgumentsProvided);
                },
            };
            let s = sync(p1, p2);
            let mut out: Vec<u8> = Vec::new();
            s.ser_bytes(&mut out);
            proof {
                assert(crate::point::point_bytes(p1) == args@.subrange(0, 4));
                assert(crate::point::point_bytes(p2) == args@.subrange(4, 8));
                assert(args@[0] == crate::point::point_bytes(p1)[0]);
                assert(args@[1] == crate::point::point_bytes(p1)[1]);
                assert(args@[2] == crate::point::point_bytes(p1)[2]);
                assert(args@[3] == crate::point::point_bytes(p1)[3]);
                assert(args@[4] == crate::point::point_bytes(p2)[0]);
                assert(args@[5] == crate::point::point_bytes(p2)[1]);
                assert(args@[6] == crate::point::point_bytes(p2)[2]);
                assert(args@[7] == crate::point::point_bytes(p2)[3]);
                assert(p1.x == args@[0] + args@[1] * 256);
                assert(p1.y == args@[2] + args@[3] * 256);
                assert(p2.x == args@[4] + args@[5] * 256);
                assert(p2.y == args@[6] + args@[7] * 256);
            }
            Ok(out)
        } else if uri.len() == 1 && uri[0] == 1 {
            Err(XpiError::NotAMethod)
        } else if uri.len() == 1 && uri[0] == 6 {
            // deferred resources are invoked through spawn_call
            Err(XpiError::Internal)
        } else {
            Err(XpiError::BadUri)
        }
    }

    /// Read one property: `/1` yields the digit as one byte.
    pub fn dispatch_read(&mut self, uri: &Vec<u32>) -> (r: Result<Vec<u8>, XpiError>)
        ensures
            final(self).digit == old(self).digit,
            final(self).pending@ == old(self).pending@,
            uri@ == seq![1u32] ==> (r matches Ok(b) && b@ == seq![old(self).digit]),
            uri@ == seq![5u32] || uri@ == seq![6u32] ==> r == Err::<Vec<u8>, XpiError>(
                XpiError::NotAMethod,
            ),
            !(uri@ == seq![1u32] || uri@ == seq![5u32] || uri@ == seq![6u32]) ==> r == Err::<
                Vec<u8>,
                XpiError,
            >(XpiError::BadUri),
    {
        proof {
            if uri@.len() == 1 {
                if uri@[0] == 1 {
                    assert(uri@ =~= seq![1u32]);
                } else if uri@[0] == 5 {
                    assert(uri@ =~= seq![5u32]);
                } else if uri@[0] == 6 {
                    assert(uri@ =~= seq![6u32]);
                }
            }
        }
        if uri.len() == 1 && uri[0] == 1 {
            let mut out: Vec<u8> = Vec::new();
            out.push(self.digit);
            proof {
                assert(out@ =~= seq![self.digit]);
            }
            Ok(out)
        } else if uri.len() == 1 && (uri[0] == 5 || uri[0] == 6) {
            Err(XpiError::NotAMethod)
        } else {
            Err(XpiError::BadUri)
        }
    }

    /// Write one property: `/1` takes the digit from the first value byte.
    pub fn dispatch_write(&mut self, uri: &Vec<u32>, value: &Vec<u8>) -> (r: Result<
        (),
        XpiError,
    >)
        ensures
            final(self).pending@ == old(self).pending@,
            uri@ == seq![1u32] && value@.len() >= 1 ==> r is Ok && final(self).digit
                == value@[0],
            uri@ == seq![1u32] && value@.len() == 0 ==> r == Err::<(), XpiError>(
                XpiError::NoArgumentsProvided,
            ),
            uri@ == seq![5u32] || uri@ == seq![6u32] ==> r == Err::<(), XpiError>(
                XpiError::NotAMethod,
            ),
            !(uri@ == seq![1u32] || uri@ == seq![5u32] || uri@ == seq![6u32]) ==> r == Err::<
                (),
                XpiError,
            >(XpiError::BadUri),
            !(uri@ == seq![1u32]) ==> final(self).digit == old(self).digit,
    {
        proof {
            if uri@.len() == 1 {
                if uri@[0] == 1 {
                    assert(uri@ =~= seq![1u32]);
                } else if uri@[0] == 5 {
                    assert(uri@ =~= seq![5u32]);
                } else if uri@[0] == 6 {
                    assert(uri@ =~= seq![6u32]);
                }
            }
        }
        if uri.len() == 1 && uri[0] == 1 {
            if value.len() >= 1 {
                self.digit = value[0];
                Ok(())
            } else {
                Err(XpiError::NoArgumentsProvided)
            }
        } else if uri.len() == 1 && (uri[0] == 5 || uri[0] == 6) {
            Err(XpiError::NotAMethod)
        } else {
            Err(XpiError::BadUri)
        }
    }

    /// Run one pending deferred handler, if any: it computes the sum and
    /// emits one reply event carrying exactly one result, correlated by the
    /// claim token: same request id and priority, back to the token's
    /// source.
    pub fn run_one_deferred(
        &mut self,
        self_node_id: NodeId,
        eth_in_prod: &mut bbqueue::Producer<'static, 512>,
    ) -> (r: Result<bool, XpiError>)
        requires
            self_node_id.wf(),
        ensures
            old(self).pending@.len() == 0 ==> (r matches Ok(emitted) && !emitted),
            r matches Ok(emitted) && !emitted ==> {
                &&& queue_bytes(*final(eth_in_prod)) == queue_bytes(*old(eth_in_prod))
                &&& old(self).pending@.len() == 0
                &&& final(self).pending@ == old(self).pending@
                &&& final(self).digit == old(self).digit
            },
            r matches Ok(emitted) && emitted ==> {
                &&& old(self).pending@.len() > 0
                &&& final(self).pending@ == old(self).pending@.drop_last()
                &&& exists|f: Seq<u8>, v: EventView|
                    #[trigger] deferred_reply_emitted(
                        f,
                        v,
                        old(self).pending@.last().token.source.spec_value(),
                        old(self).pending@.last().token.request_id,
                        old(self).pending@.last().token.priority,
                        deferred_call_entry(old(self).pending@.last().args@),
                        self_node_id,
                        queue_bytes(*old(eth_in_prod)),
                        queue_bytes(*final(eth_in_prod)),
                    )
            },
            r is Err ==> {
                &&& queue_bytes(*final(eth_in_prod)) == queue_bytes(*old(eth_in_prod))
                &&& old(self).pending@.len() > 0
                &&& final(self).pending@ == old(self).pending@.drop_last()
            },
            old(self).pending@.len() > 0 && !old(
                self,
            ).pending@.last().token.spec_token_wf() ==> r == Err::<bool, XpiError>(
                XpiError::Internal,
            ),
    {
        let pc = match self.pending.pop() {
            Some(pc) => pc,
            None => {
                return Ok(false);
            },
        };
        if !pc.token.token_wf() {
            return Err(XpiError::Internal);
        }
        let result: Result<Vec<u8>, XpiError> = {
            let p1 = Point::des_bytes(&pc.args, 0);
            let p2 = Point::des_bytes(&pc.args, 4);
            match (p1, p2) {
                (Some(a), Some(b)) => {
                    let s = sync(a, b);
                    let mut out: Vec<u8> = Vec::new();
                    s.ser_bytes(&mut out);
                    proof {
                        let args = pc.args@;
                        assert(crate::point::point_bytes(a) == args.subrange(0, 4));
                        assert(crate::point::point_bytes(b) == args.subrange(4, 8));
                        assert(args[0] == crate::point::point_bytes(a)[0]);
                        assert(args[1] == crate::point::point_bytes(a)[1]);
                        assert(args[2] == crate::point::point_bytes(a)[2]);
                        assert(args[3] == crate::point::point_bytes(a)[3]);
                        assert(args[4] == crate::point::point_bytes(b)[0]);
                        assert(args[5] == crate::point::point_bytes(b)[1]);
                        assert(args[6] == crate::point::point_bytes(b)[2]);
                        assert(args[7] == crate::point::point_bytes(b)[3]);
                        assert(a.x == args[0] + args[1] * 256);
                        assert(a.y == args[2] + args[3] * 256);
                        assert(b.x == args[4] + args[5] * 256);
                        assert(b.y == args[6] + args[7] * 256);
                        assert(out@ == deferred_call_entry(args)->Ok_0);
                    }
                    Ok(out)
                },
                _ => Err(XpiError::NoArgumentsProvided),
            }
        };
        proof {
            assert(result matches Ok(b2) ==> Ok::<Seq<u8>, XpiError>(b2@) == deferred_call_entry(
                pc.args@,
            ));
            assert(result is Err ==> deferred_call_entry(pc.args@) == Err::<Seq<u8>, XpiError>(
                XpiError::NoArgumentsProvided,
            ));
        }
        let mut results: Vec<Result<Vec<u8>, XpiError>> = Vec::new();
        results.push(result);
        let one = match U4::new(6) {
            Some(u) => u,
            None => {
                return Err(XpiError::Internal);
            },
        };
        let reply = XpiEvent {
            source: self_node_id,
            node_set: NodeSet::Unicast(pc.token.source),
            resource_set: XpiResourceSet::Uri(Uri::OnePart4(one)),
            request_id: pc.token.request_id,
            priority: pc.token.priority,
            ttl: 15,
            kind: XpiEventKind::Reply(XpiReplyKind::CallResults(results)),
        };
        let mut wgr = NibbleBufMut::new(vec![0u8; REPLY_MTU]);
        serialize_event(&reply, &mut wgr);
        if wgr.is_past_end() {
            return Err(XpiError::Internal);
        }
        if !wgr.is_at_byte_boundary() {
            wgr.put_nibble(0);
        }
        proof {
            assert(0u8 & 0xf == 0) by (bit_vector);
        }
        let frame = wgr.finish();
        if !queue_commit(eth_in_prod, &frame) {
            return Err(XpiError::InternalQueueError);
        }
        proof {
            reply.lemma_wf_view();
            assert(nibbles_of(frame@).subrange(0, event_enc(reply.view()).len() as int)
                =~= event_enc(reply.view()));
            crate::event::lemma_event_round_trip(reply.view(), frame@);
            assert(deferred_reply_emitted(
                frame@,
                reply.view(),
                old(self).pending@.last().token.source.spec_value(),
                old(self).pending@.last().token.request_id,
                old(self).pending@.last().token.priority,
                deferred_call_entry(old(self).pending@.last().args@),
                self_node_id,
                queue_bytes(*old(eth_in_prod)),
                queue_bytes(*eth_in_prod),
            ));
        }
        Ok(true)
    }
}

/// The single result entry a deferred call handler computes from its stored
/// argument bundle: the serialized point sum when two points are there, the
/// missing-arguments error otherwise.
pub open spec fn deferred_call_entry(args: Seq<u8>) -> Result<Seq<u8>, XpiError> {
    if args.len() >= 8 {
        Ok(
            crate::point::point_bytes(
                Point {
                    x: (((args[0] + args[1] * 256) + (args[4] + args[5] * 256)) % 0x10000) as u16,
                    y: (((args[2] + args[3] * 256) + (args[6] + args[7] * 256)) % 0x10000) as u16,
                },
            ),
        )
    } else {
        Err(XpiError::NoArgumentsProvided)
    }
}

/// A frame `f` carries exactly one reply event `v` that answers a deferred
/// call: one result entry with the given value, addressed back to the
/// claimant with the claimed request id and priority.
pub open spec fn deferred_reply_emitted(
    f: Seq<u8>,
    v: EventView,
    dest: u8,
    request_id: u32,
    priority: Priority,
    entry: Result<Seq<u8>, XpiError>,
    self_id: NodeId,
    old_queue: Seq<u8>,
    new_queue: Seq<u8>,
) -> bool {
    &&& new_queue == old_queue + f
    &&& f.len() <= REPLY_MTU
    &&& event_parse(f) == Some(v)
    &&& v.source == self_id.spec_value()
    &&& v.node_set == NodeSetView::Unicast(dest)
    &&& v.request_id == request_id
    &&& v.priority == priority
    &&& v.ttl == 15
    &&& (v.kind matches KindView::CallResults(rs) && rs.len() == 1 && rs[0] == entry)
}

impl ClaimToken {
    /// A token whose fields can travel in a reply header.
    pub open spec fn spec_token_wf(&self) -> bool {
        self.source.wf() && self.priority.wf()
    }

    pub fn token_wf(&self) -> (r: bool)
        ensures
            r == self.spec_token_wf(),
    {
        let sv = self.source.value();
        let pok = match self.priority {
            Priority::Lossy(l) => 1 <= l && l <= 4,
            Priority::Lossless(l) => 1 <= l && l <= 4,
        };
        1 <= sv && sv <= 127 && pok
    }
}

impl ResourceTable for BridgeNode {
    open spec fn hint_spec(uri: Seq<u32>, kind_disc: u8) -> ReplySizeHint {
        BridgeNode::spec_size_hint(uri, kind_disc)
    }

    fn reply_size_hint(&mut self, uri: &Vec<u32>, kind_disc: u8) -> (r: ReplySizeHint)
        ensures
            r == <BridgeNode as ResourceTable>::hint_spec(uri@, kind_disc),
    {
        self.dispatch_size_hint(uri, kind_disc)
    }

    fn call(&mut self, uri: &Vec<u32>, args: &Vec<u8>) -> Result<Vec<u8>, XpiError> {
        self.dispatch_call(uri, args)
    }

    fn spawn_call(&mut self, uri: &Vec<u32>, args: &Vec<u8>, token: ClaimToken) -> Result<
        (),
        XpiError,
    > {
        if self.pending.len() < 64 {
            self.pending.push(PendingCall { token, args: clone_bytes(args) });
            Ok(())
        } else {
            Err(XpiError::Internal)
        }
    }

    fn read(&mut self, uri: &Vec<u32>) -> Result<Vec<u8>, XpiError> {
        self.dispatch_read(uri)
    }

    fn write(&mut self, uri: &Vec<u32>, value: &Vec<u8>) -> Result<(), XpiError> {
        self.dispatch_write(uri, value)
    }

    fn stream_op(&mut self, uri: &Vec<u32>, kind_disc: u8, rate: Option<u32>) -> Result<
        (),
        XpiError,
    > {
        // this node has no streams or borrowable cells; the rate is unused
        if uri.len() == 1 && (uri[0] == 1 || uri[0] == 5 || uri[0] == 6) {
            Err(XpiError::OperationNotSupported)
        } else {
            Err(XpiError::BadUri)
        }
    }
}

} // verus!
