//! The outbound byte queue: reply frames are committed to a bounded
//! single-producer queue that the link task drains.

use vstd::prelude::*;

verus! {

/// bbqueue's producer half, declared for use in signatures.
#[verifier::external_type_specification]
#[verifier::external_body]
pub struct ExBBProducer<'a, const N: usize>(bbqueue::Producer<'a, N>);

/// The bytes this producer has committed, in order, since the queue was
/// split; the consumer half reads them in the same order.
pub uninterp spec fn queue_bytes(p: bbqueue::Producer<'static, 512>) -> Seq<u8>;

/// Relies on bbqueue's `Producer::grant_exact` and `GrantW::commit`: on
/// success the frame's bytes are appended, in order, to what the consumer
/// half will read; on failure (no contiguous room) nothing changes.
#[verifier::external_body]
pub fn queue_commit(prod: &mut bbqueue::Producer<'static, 512>, frame: &Vec<u8>) -> (r: bool)
    ensures
        r ==> queue_bytes(*final(prod)) == queue_bytes(*old(prod)) + frame@,
        !r ==> queue_bytes(*final(prod)) == queue_bytes(*old(prod)),
{
    match prod.grant_exact(frame.len()) {
        Ok(mut g) => {
            g.buf().copy_from_slice(frame.as_slice());
            g.commit(frame.len());
            true
        },
        Err(_) => false,
    }
}

/// Relies on bbqueue's `Producer::grant_exact`: a grant dropped without an
/// explicit commit commits nothing, so probing for room leaves the committed
/// bytes unchanged either way.
#[verifier::external_body]
pub fn queue_can_grant(prod: &mut bbqueue::Producer<'static, 512>, sz: usize) -> (r: bool)
    ensures
        queue_bytes(*final(prod)) == queue_bytes(*old(prod)),
{
    prod.grant_exact(sz).is_ok()
}

/// The committed frames laid end to end.
pub open spec fn flatten_frames(frames: Seq<Seq<u8>>) -> Seq<u8>
    decreases frames.len(),
{
    if frames.len() == 0 {
        Seq::empty()
    } else {
        frames[0] + flatten_frames(frames.skip(1))
    }
}

/// Appending one frame extends the flattening at the back.
pub proof fn lemma_flatten_frames_snoc(frames: Seq<Seq<u8>>, f: Seq<u8>)
    ensures
        flatten_frames(frames.push(f)) == flatten_frames(frames) + f,
    decreases frames.len(),
{
    if frames.len() == 0 {
        assert(frames.push(f)[0] == f);
        assert(frames.push(f).skip(1) =~= Seq::<Seq<u8>>::empty());
        assert(flatten_frames(frames.push(f)) == f + flatten_frames(frames.push(f).skip(1)));
        assert(f + Seq::<u8>::empty() =~= f);
        assert(flatten_frames(frames) + f =~= f);
    } else {
        lemma_flatten_frames_snoc(frames.skip(1), f);
        assert(frames.push(f).skip(1) =~= frames.skip(1).push(f));
        assert(frames.push(f)[0] == frames[0]);
        assert((frames[0] + (flatten_frames(frames.skip(1)) + f)) =~= ((frames[0]
            + flatten_frames(frames.skip(1))) + f));
    }
}

} // verus!
