//! The decisions of the stream driver: which payloads become commits to
//! process, and when the stream is over.

use vstd::prelude::*;

use crate::firehose::frames::{frame_spec, Frame, FrameKind};
use crate::firehose::handler::{Commit, CommitView, ContentId, RepoOp};

verus! {

/// What decoding bytes as a commit message body gives.
pub uninterp spec fn dagcbor_commit(body: Seq<u8>) -> Option<CommitView>;

/// Relies on serde_ipld_dagcbor::from_slice decoding a commit of atrium_api's
/// subscribeRepos schema: its repository, operations and block archive.
#[verifier::external_body]
fn decode_commit(body: &[u8]) -> (r: Option<Commit>)
    ensures
        match r {
            Some(c) => dagcbor_commit(body@) == Some(c@),
            None => dagcbor_commit(body@) is None,
        },
{
    let c = serde_ipld_dagcbor::from_slice::<atrium_api::com::atproto::sync::subscribe_repos::Commit>(body).ok()?;
    let ops = c.ops.iter().map(|op| RepoOp {
        action: op.action.clone(),
        path: op.path.clone(),
        cid: op.cid.as_ref().map(|l| ContentId { bytes: l.0.to_bytes(), text: l.0.to_string() }),
    }).collect();
    Some(Commit { repo: c.repo.as_str().to_string(), ops, blocks: c.blocks.clone() })
}

/// The message type of repository commits.
pub open spec fn commit_tag() -> Seq<char> {
    "#commit"@
}

/// The commit a payload carries: a well-formed message frame tagged as a
/// commit whose body decodes; `None` for anything else.
pub open spec fn payload_commit(payload: Seq<u8>) -> Option<CommitView> {
    match frame_spec(payload) {
        Ok(f) => if f.kind == FrameKind::Message && f.type_tag == Some(commit_tag()) {
            dagcbor_commit(f.body)
        } else {
            None
        },
        Err(_) => None,
    }
}

/// The view of an optional commit.
pub open spec fn commit_opt_view(c: Option<Commit>) -> Option<CommitView> {
    match c {
        Some(c) => Some(c@),
        None => None,
    }
}

/// The commit a transport payload carries, if any.
pub fn commit_from_payload(payload: &[u8]) -> (r: Option<Commit>)
    ensures
        commit_opt_view(r) == payload_commit(payload@),
{
    let frame = match Frame::try_from(payload) {
        Err(_) => return None,
        Ok(f) => f,
    };
    let is_commit = match &frame.type_tag {
        Some(t) => *t == String::from_str("#commit"),
        None => false,
    };
    if frame.kind == FrameKind::Message && is_commit {
        decode_commit(frame.body.as_slice())
    } else {
        None
    }
}

/// Where the driver stands.
#[derive(Debug, Clone, Copy, PartialEq, Eq, Structural)]
pub enum DriverState {
    Connecting,
    Streaming,
    Terminated,
}

/// What the transport reports.
#[derive(Debug, Clone)]
pub enum TransportEvent {
    /// The connection is open.
    Connected,
    /// A binary payload arrived.
    Binary(Vec<u8>),
    /// A payload of another kind arrived.
    Other,
    /// The connection closed or failed.
    Closed,
}

/// The next state after an event: connecting turns to streaming once
/// connected; only the transport closing ends the stream.
pub open spec fn next_state(state: DriverState, event: TransportEvent) -> DriverState {
    match (state, event) {
        (DriverState::Terminated, _) => DriverState::Terminated,
        (_, TransportEvent::Closed) => DriverState::Terminated,
        (DriverState::Connecting, TransportEvent::Connected) => DriverState::Streaming,
        (s, _) => s,
    }
}

/// The commit to dispatch after an event: the one a binary payload carries
/// while streaming; none otherwise.
pub open spec fn dispatched(state: DriverState, event: TransportEvent) -> Option<CommitView> {
    match (state, event) {
        (DriverState::Streaming, TransportEvent::Binary(p)) => payload_commit(p@),
        _ => None,
    }
}

/// One step of the driver: its next state, and the commit to hand to
/// processing, if any. A payload that does not decode changes nothing.
pub fn step(state: DriverState, event: &TransportEvent) -> (r: (DriverState, Option<Commit>))
    ensures
        r.0 == next_state(state, *event),
        commit_opt_view(r.1) == dispatched(state, *event),
{
    match state {
        DriverState::Terminated => (DriverState::Terminated, None),
        DriverState::Connecting => match event {
            TransportEvent::Closed => (DriverState::Terminated, None),
            TransportEvent::Connected => (DriverState::Streaming, None),
            _ => (DriverState::Connecting, None),
        },
        DriverState::Streaming => match event {
            TransportEvent::Closed => (DriverState::Terminated, None),
            TransportEvent::Binary(p) => (DriverState::Streaming, commit_from_payload(p.as_slice())),
            _ => (DriverState::Streaming, None),
        },
    }
}

} // verus!
