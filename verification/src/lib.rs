//! Nibble-granular xPI wire protocol: codec, addressing, events and a node
//! dispatcher that batches replies under a link MTU.

use vstd::prelude::*;

mod discrete;
mod nibble_buf;
mod vlu4;
mod uri;
mod event;
mod serdes;
mod event_kind;
mod outbound;
mod dispatch;
mod point;
mod sample_node;
mod node_info;

pub use discrete::U3;
pub use discrete::U4;
pub use discrete::U6;
pub use discrete::U7Sp1;
pub use nibble_buf::NibbleBuf;
pub use nibble_buf::Error;
pub use nibble_buf::nibbles_of;
pub use nibble_buf::vlu4_enc;
pub use nibble_buf::vlu4_len;
pub use nibble_buf::NibbleBufMut;
pub use vlu4::SerializeVlu4;
pub use vlu4::Vlu4U32Array;
pub use vlu4::Vlu4U32ArrayIter;
pub use vlu4::Vlu4SliceArray;
pub use vlu4::Vlu4SliceArrayIter;
pub use uri::Uri;
pub use uri::UriIter;
pub use uri::UriMask;
pub use uri::UriMaskIter;
pub use uri::bitfield_indices;
pub use uri::popcount_low;
pub use uri::MaskView;
pub use uri::MultiUri;
pub use uri::MultiUriIter;
pub use uri::mask_view_indices;
pub use uri::mask_view_count;
pub use uri::multi_flat;
pub use uri::mask_count_sum;
pub use uri::pair_flat;
pub use event::XpiError;
pub use event::FailReason;
pub use event::XpiVlu4Error;
pub use event::NodeId;
pub use event::Priority;
pub use event::GlobalTypeId;
pub use event::GlobalTypeIdBound;
pub use event::NodeSet;
pub use event::NodeSetView;
pub use serdes::vlu4_seq_enc;
pub use serdes::vlu4_arr_enc;
pub use serdes::mask_enc;
pub use serdes::multi_uri_enc;
pub use serdes::mu_pairs_enc;
pub use event_kind::XpiRequestKind;
pub use event_kind::XpiReplyKind;
pub use event_kind::XpiEventKind;
pub use event_kind::KindView;
pub use event::XpiResourceSet;
pub use event::RsView;
pub use event::UriView;
pub use event::rs_flat;
pub use event::uri_view_parts;
pub use event::XpiEvent;
pub use event::EventView;
pub use event::event_enc;
pub use event::event_parse;
pub use event::serialize_event;
pub use event::parse_event;
pub use event::put_header;
pub use event::header_nibs;
pub use event::header_parse;
pub use event::event_view_wf;
pub use event::lemma_event_round_trip;
pub use event_kind::kind_view_wf;
pub use outbound::queue_bytes;
pub use outbound::queue_commit;
pub use outbound::queue_can_grant;
pub use outbound::flatten_frames;
pub use dispatch::SerDesSize;
pub use dispatch::ReplySizeHint;
pub use dispatch::ClaimToken;
pub use dispatch::ResourceTable;
pub use dispatch::DispatchOutcome;
pub use dispatch::reply_correlated;
pub use dispatch::frame_holds;
pub use dispatch::entries_of;
pub use dispatch::sum_entries;
pub use dispatch::frame_carries;
pub use dispatch::err_commits;
pub use dispatch::entry_is_err;
pub use dispatch::consumes_bundles;
pub use dispatch::hint_is_ok_immediate;
pub use dispatch::hint_consumes;
pub use dispatch::consumed_upto;
pub use dispatch::inbound_bundles;
pub use dispatch::served_request;
pub use dispatch::expected_err;
pub use dispatch::hint_fits;
pub use dispatch::count_immediate;
pub use dispatch::num_immediate;
pub use dispatch::num_consuming;
pub use dispatch::num_ok_immediate;
pub use sample_node::deferred_reply_emitted;
pub use sample_node::deferred_call_entry;
pub use dispatch::REPLY_MTU;
pub use dispatch::MAX_REPLY_BATCH_LEN;
pub use dispatch::MAX_REPLY_BATCHES;
pub use dispatch::xpi_dispatch;
pub use point::Point;
pub use point::point_bytes;
pub use point::sync;
pub use sample_node::BridgeNode;
pub use sample_node::PendingCall;
pub use node_info::NodeInfo;
pub use node_info::PlatformInfo;
pub use node_info::HeartbeatInfo;
pub use node_info::NodeHealthStatus;
pub use node_info::Rate;
pub use node_info::RatesInfo;
pub use node_info::ResourceInfo;
pub use node_info::XpiBroadcast;

verus! {

} // verus!
