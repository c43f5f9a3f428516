use xpi_vlu4::BridgeNode;
use xpi_vlu4::MultiUri;
use xpi_vlu4::NibbleBuf;
use xpi_vlu4::NibbleBufMut;
use xpi_vlu4::NodeId;
use xpi_vlu4::NodeSet;
use xpi_vlu4::Point;
use xpi_vlu4::Priority;
use xpi_vlu4::U4;
use xpi_vlu4::Uri;
use xpi_vlu4::Vlu4SliceArray;
use xpi_vlu4::Vlu4U32Array;
use xpi_vlu4::XpiError;
use xpi_vlu4::XpiEvent;
use xpi_vlu4::XpiEventKind;
use xpi_vlu4::XpiReplyKind;
use xpi_vlu4::XpiRequestKind;
use xpi_vlu4::XpiResourceSet;
use xpi_vlu4::parse_event;
use xpi_vlu4::serialize_event;
use xpi_vlu4::xpi_dispatch;

fn new_queue() -> (
    bbqueue::Producer<'static, 512>,
    bbqueue::Consumer<'static, 512>,
) {
    let bb: &'static bbqueue::BBBuffer<512> = Box::leak(Box::new(bbqueue::BBBuffer::new()));
    bb.try_split().unwrap()
}

fn drain(cons: &mut bbqueue::Consumer<'static, 512>) -> Vec<u8> {
    match cons.read() {
        Ok(g) => {
            let v = g.buf().to_vec();
            let n = v.len();
            g.release(n);
            v
        }
        Err(_) => Vec::new(),
    }
}

fn point_args(x1: u16, y1: u16, x2: u16, y2: u16) -> Vec<u8> {
    let mut v = Vec::new();
    Point::new(x1, y1).ser_bytes(&mut v);
    Point::new(x2, y2).ser_bytes(&mut v);
    v
}

fn call_event(rs: XpiResourceSet, args: Vec<Vec<u8>>) -> XpiEvent {
    XpiEvent {
        source: NodeId::new(33).unwrap(),
        node_set: NodeSet::Unicast(NodeId::new(44).unwrap()),
        resource_set: rs,
        request_id: 27,
        priority: Priority::Lossy(1),
        ttl: 15,
        kind: XpiEventKind::Request(XpiRequestKind::Call {
            args_set: Vlu4SliceArray::from_slices(args),
        }),
    }
}

#[test]
fn single_call_happy_path() {
    // one Call of /5 with two points; one reply with their sum
    let (mut prod, mut cons) = new_queue();
    let mut node = BridgeNode::new();
    let ev = call_event(
        XpiResourceSet::Uri(Uri::OnePart4(U4::new(5).unwrap())),
        vec![point_args(10, 20, 5, 7)],
    );
    let out = xpi_dispatch(&ev, NodeId::new(44).unwrap(), &mut node, &mut prod).unwrap();
    assert_eq!(out.replies_committed, 1);
    assert_eq!(out.immediate_results, 1);
    assert!(!out.saturated);
    let frame = drain(&mut cons);
    assert!(frame.len() <= 64);
    let reply = parse_event(frame).unwrap();
    assert_eq!(reply.source.value(), 44);
    match &reply.node_set {
        NodeSet::Unicast(dst) => assert_eq!(dst.value(), 33),
        _ => panic!("expected unicast reply"),
    }
    assert_eq!(reply.request_id, 27);
    assert!(matches!(reply.priority, Priority::Lossy(1)));
    match &reply.kind {
        XpiEventKind::Reply(XpiReplyKind::CallResults(rs)) => {
            assert_eq!(rs.len(), 1);
            let mut expected = Vec::new();
            Point::new(15, 27).ser_bytes(&mut expected);
            assert_eq!(rs[0], Ok(expected));
        }
        _ => panic!("expected call results"),
    }
}

#[test]
fn bad_uri_call() {
    // a Call of /99 yields a single BadUri entry
    let (mut prod, mut cons) = new_queue();
    let mut node = BridgeNode::new();
    let ev = call_event(
        XpiResourceSet::Uri(Uri::MultiPart(Vlu4U32Array::from_items(vec![99]))),
        vec![point_args(1, 2, 3, 4)],
    );
    let out = xpi_dispatch(&ev, NodeId::new(44).unwrap(), &mut node, &mut prod).unwrap();
    assert_eq!(out.replies_committed, 1);
    let reply = parse_event(drain(&mut cons)).unwrap();
    match &reply.kind {
        XpiEventKind::Reply(XpiReplyKind::CallResults(rs)) => {
            assert_eq!(rs.as_slice(), &[Err(XpiError::BadUri)]);
        }
        _ => panic!("expected call results"),
    }
}

#[test]
fn call_batch_with_not_a_method() {
    // a multi-URI selecting /5 then /1 with Call: one Ok, one NotAMethod
    let (mut prod, mut cons) = new_queue();
    let mut node = BridgeNode::new();
    // one pair: empty base URI, indices [5, 1]
    let mu = MultiUri::new(NibbleBuf::new(vec![0x10, 0x52, 0x51]));
    let ev = call_event(
        XpiResourceSet::MultiUri(mu),
        vec![point_args(1, 2, 3, 4), point_args(9, 9, 9, 9)],
    );
    let out = xpi_dispatch(&ev, NodeId::new(44).unwrap(), &mut node, &mut prod).unwrap();
    assert_eq!(out.replies_committed, 1);
    assert_eq!(out.immediate_results, 2);
    let reply = parse_event(drain(&mut cons)).unwrap();
    match &reply.kind {
        XpiEventKind::Reply(XpiReplyKind::CallResults(rs)) => {
            assert_eq!(rs.len(), 2);
            let mut expected = Vec::new();
            Point::new(4, 6).ser_bytes(&mut expected);
            assert_eq!(rs[0], Ok(expected));
            assert_eq!(rs[1], Err(XpiError::NotAMethod));
        }
        _ => panic!("expected call results"),
    }
}

#[test]
fn call_args_exhausted() {
    // two method selections but a single argument bundle: the second call
    // entry reports NoArgumentsProvided
    let (mut prod, mut cons) = new_queue();
    let mut node = BridgeNode::new();
    // one pair: empty base URI, indices [5, 5]
    let mu = MultiUri::new(NibbleBuf::new(vec![0x10, 0x52, 0x55]));
    let ev = call_event(XpiResourceSet::MultiUri(mu), vec![point_args(1, 2, 3, 4)]);
    let out = xpi_dispatch(&ev, NodeId::new(44).unwrap(), &mut node, &mut prod).unwrap();
    assert_eq!(out.replies_committed, 1);
    assert_eq!(out.immediate_results, 2);
    let reply = parse_event(drain(&mut cons)).unwrap();
    match &reply.kind {
        XpiEventKind::Reply(XpiReplyKind::CallResults(rs)) => {
            assert_eq!(rs.len(), 2);
            let mut expected = Vec::new();
            Point::new(4, 6).ser_bytes(&mut expected);
            assert_eq!(rs[0], Ok(expected));
            assert_eq!(rs[1], Err(XpiError::NoArgumentsProvided));
        }
        _ => panic!("expected call results"),
    }
}

#[test]
fn write_values_exhausted() {
    // a write with no value bundles reports NoArgumentsProvided
    let (mut prod, mut cons) = new_queue();
    let mut node = BridgeNode::new();
    let ev = XpiEvent {
        source: NodeId::new(33).unwrap(),
        node_set: NodeSet::Unicast(NodeId::new(44).unwrap()),
        resource_set: XpiResourceSet::Uri(Uri::OnePart4(U4::new(1).unwrap())),
        request_id: 5,
        priority: Priority::Lossless(2),
        ttl: 15,
        kind: XpiEventKind::Request(XpiRequestKind::Write {
            values: Vlu4SliceArray::from_slices(Vec::new()),
        }),
    };
    let out = xpi_dispatch(&ev, NodeId::new(44).unwrap(), &mut node, &mut prod).unwrap();
    assert_eq!(out.replies_committed, 1);
    let reply = parse_event(drain(&mut cons)).unwrap();
    match &reply.kind {
        XpiEventKind::Reply(XpiReplyKind::WriteResults(rs)) => {
            assert_eq!(rs.as_slice(), &[Err(XpiError::NoArgumentsProvided)]);
        }
        _ => panic!("expected write results"),
    }
}

#[test]
fn write_then_read_digit() {
    // Write 7 into /1, then Read /1 gives the written value back
    let (mut prod, mut cons) = new_queue();
    let mut node = BridgeNode::new();
    let rs = XpiResourceSet::Uri(Uri::OnePart4(U4::new(1).unwrap()));
    let write_ev = XpiEvent {
        source: NodeId::new(33).unwrap(),
        node_set: NodeSet::Unicast(NodeId::new(44).unwrap()),
        resource_set: rs,
        request_id: 5,
        priority: Priority::Lossless(2),
        ttl: 15,
        kind: XpiEventKind::Request(XpiRequestKind::Write {
            values: Vlu4SliceArray::from_slices(vec![vec![7u8]]),
        }),
    };
    let out = xpi_dispatch(&write_ev, NodeId::new(44).unwrap(), &mut node, &mut prod).unwrap();
    assert_eq!(out.replies_committed, 1);
    let reply = parse_event(drain(&mut cons)).unwrap();
    match &reply.kind {
        XpiEventKind::Reply(XpiReplyKind::WriteResults(rs)) => {
            assert_eq!(rs.as_slice(), &[Ok(())]);
        }
        _ => panic!("expected write results"),
    }
    assert_eq!(node.digit, 7);

    let read_ev = XpiEvent {
        source: NodeId::new(33).unwrap(),
        node_set: NodeSet::Unicast(NodeId::new(44).unwrap()),
        resource_set: XpiResourceSet::Uri(Uri::OnePart4(U4::new(1).unwrap())),
        request_id: 6,
        priority: Priority::Lossless(2),
        ttl: 15,
        kind: XpiEventKind::Request(XpiRequestKind::Read),
    };
    let out = xpi_dispatch(&read_ev, NodeId::new(44).unwrap(), &mut node, &mut prod).unwrap();
    assert_eq!(out.replies_committed, 1);
    let reply = parse_event(drain(&mut cons)).unwrap();
    match &reply.kind {
        XpiEventKind::Reply(XpiReplyKind::ReadResults(rs)) => {
            assert_eq!(rs.as_slice(), &[Ok(vec![7u8])]);
        }
        _ => panic!("expected read results"),
    }
}

#[test]
fn deferred_call() {
    // a Call of /6 commits nothing; the spawned handler replies later with
    // the same request id
    let (mut prod, mut cons) = new_queue();
    let mut node = BridgeNode::new();
    let ev = call_event(
        XpiResourceSet::Uri(Uri::OnePart4(U4::new(6).unwrap())),
        vec![point_args(2, 3, 4, 5)],
    );
    let out = xpi_dispatch(&ev, NodeId::new(44).unwrap(), &mut node, &mut prod).unwrap();
    assert_eq!(out.replies_committed, 0);
    assert_eq!(out.immediate_results, 0);
    assert_eq!(out.deferred_spawned, 1);
    assert!(drain(&mut cons).is_empty());

    let emitted = node
        .run_one_deferred(NodeId::new(44).unwrap(), &mut prod)
        .unwrap();
    assert!(emitted);
    let reply = parse_event(drain(&mut cons)).unwrap();
    assert_eq!(reply.request_id, 27);
    assert_eq!(reply.source.value(), 44);
    match &reply.kind {
        XpiEventKind::Reply(XpiReplyKind::CallResults(rs)) => {
            let mut expected = Vec::new();
            Point::new(6, 8).ser_bytes(&mut expected);
            assert_eq!(rs.as_slice(), &[Ok(expected)]);
        }
        _ => panic!("expected call results"),
    }
}

#[test]
fn mtu_split_many_calls() {
    // 16 immediate calls of /5 split across several replies, all Ok, same
    // request id; the per-reply budget admits 8 point results
    let (mut prod, mut cons) = new_queue();
    let mut node = BridgeNode::new();
    let mut wgr = NibbleBufMut::new(vec![0u8; 24]);
    wgr.put_nibble(1); // one pair
    wgr.put_nibble(0); // empty base URI
    wgr.put_nibble(5); // mask kind: by indices
    wgr.put_vlu4_u32(16);
    for _ in 0..16 {
        wgr.put_nibble(5);
    }
    if !wgr.is_at_byte_boundary() {
        wgr.put_nibble(0);
    }
    let mu = MultiUri::new(NibbleBuf::new(wgr.finish()));
    let mut args = Vec::new();
    for _ in 0..16 {
        args.push(point_args(1, 1, 2, 2));
    }
    let ev = call_event(XpiResourceSet::MultiUri(mu), args);
    let out = xpi_dispatch(&ev, NodeId::new(44).unwrap(), &mut node, &mut prod).unwrap();
    assert_eq!(out.immediate_results, 16);
    assert_eq!(out.replies_committed, 2);
    assert!(!out.saturated);
    // the first committed reply parses and carries the shared request id
    let bytes = drain(&mut cons);
    assert!(!bytes.is_empty());
    let reply = parse_event(bytes).unwrap();
    assert_eq!(reply.request_id, 27);
    match &reply.kind {
        XpiEventKind::Reply(XpiReplyKind::CallResults(rs)) => {
            assert_eq!(rs.len(), 8);
            for r in rs {
                let mut expected = Vec::new();
                Point::new(3, 3).ser_bytes(&mut expected);
                assert_eq!(r, &Ok(expected));
            }
        }
        _ => panic!("expected call results"),
    }
}

#[test]
fn saturation_drops_extras() {
    // a mask selecting two hundred children exceeds the batch limits: the
    // extras are dropped and the outcome says so
    let (mut prod, mut _cons) = new_queue();
    let mut node = BridgeNode::new();
    let mut wgr = NibbleBufMut::new(vec![0u8; 8]);
    wgr.put_nibble(1); // one pair
    wgr.put_nibble(0); // empty base URI
    wgr.put_nibble(6); // mask kind: all children
    wgr.put_vlu4_u32(200);
    if !wgr.is_at_byte_boundary() {
        wgr.put_nibble(0);
    }
    let mu = MultiUri::new(NibbleBuf::new(wgr.finish()));
    let ev = call_event(XpiResourceSet::MultiUri(mu), Vec::new());
    let out = xpi_dispatch(&ev, NodeId::new(44).unwrap(), &mut node, &mut prod).unwrap();
    assert!(out.saturated);
    assert_eq!(out.replies_committed, 8);
    // child 6 defers and emits no entry; every other consulted child
    // produces exactly one entry
    assert_eq!(out.immediate_results, 127);
}

#[test]
fn event_round_trip() {
    // serialize a request event and parse it back unchanged
    let ev = call_event(
        XpiResourceSet::Uri(Uri::OnePart4(U4::new(5).unwrap())),
        vec![point_args(10, 20, 5, 7)],
    );
    let mut wgr = NibbleBufMut::new(vec![0u8; 64]);
    serialize_event(&ev, &mut wgr);
    assert!(!wgr.is_past_end());
    if !wgr.is_at_byte_boundary() {
        wgr.put_nibble(0);
    }
    let back = parse_event(wgr.finish()).unwrap();
    assert_eq!(back.source.value(), 33);
    match &back.node_set {
        NodeSet::Unicast(d) => assert_eq!(d.value(), 44),
        _ => panic!("expected unicast"),
    }
    assert_eq!(back.request_id, 27);
    assert!(matches!(back.priority, Priority::Lossy(1)));
    assert_eq!(back.ttl, 15);
    match &back.kind {
        XpiEventKind::Request(XpiRequestKind::Call { args_set }) => {
            assert_eq!(args_set.to_vec(), vec![point_args(10, 20, 5, 7)]);
        }
        _ => panic!("expected a call"),
    }
}

#[test]
fn error_codes_round_trip() {
    let all = [
        XpiError::Timeout,
        XpiError::DeviceRebooted,
        XpiError::PriorityLoss,
        XpiError::ShaperReject,
        XpiError::ResourceIsAlreadyBorrowed,
        XpiError::AlreadyUnsubscribed,
        XpiError::StreamIsAlreadyOpen,
        XpiError::StreamIsAlreadyClosed,
        XpiError::OperationNotSupported,
        XpiError::BadUri,
        XpiError::NotAMethod,
        XpiError::NoArgumentsProvided,
        XpiError::Internal,
        XpiError::InternalQueueError,
    ];
    for (i, e) in all.iter().enumerate() {
        assert_eq!(e.code() as usize, i + 1);
        assert_eq!(XpiError::from_code(e.code()), Some(*e));
    }
    assert_eq!(XpiError::from_code(0), None);
    assert_eq!(XpiError::from_code(15), None);
}

#[test]
fn subscribe_unsupported() {
    // the bridge node has no streams: Subscribe yields an error entry
    let (mut prod, mut cons) = new_queue();
    let mut node = BridgeNode::new();
    let ev = XpiEvent {
        source: NodeId::new(33).unwrap(),
        node_set: NodeSet::Unicast(NodeId::new(44).unwrap()),
        resource_set: XpiResourceSet::Uri(Uri::OnePart4(U4::new(1).unwrap())),
        request_id: 9,
        priority: Priority::Lossy(1),
        ttl: 15,
        kind: XpiEventKind::Request(XpiRequestKind::Subscribe {
            rates: Vlu4U32Array::from_items(vec![10]),
        }),
    };
    let out = xpi_dispatch(&ev, NodeId::new(44).unwrap(), &mut node, &mut prod).unwrap();
    assert_eq!(out.replies_committed, 1);
    let reply = parse_event(drain(&mut cons)).unwrap();
    match &reply.kind {
        XpiEventKind::Reply(XpiReplyKind::SubscribeResults(rs)) => {
            assert_eq!(rs.as_slice(), &[Err(XpiError::OperationNotSupported)]);
        }
        _ => panic!("expected subscribe results"),
    }
}
