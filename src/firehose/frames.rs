//! Stream frames: a DAG-CBOR header value followed by a DAG-CBOR body value,
//! one frame per transport payload.

use vstd::prelude::*;

use ipld_core::ipld::Ipld;

verus! {

/// Whether a frame carries a message or reports an error.
#[derive(Debug, Clone, Copy, PartialEq, Eq, Structural)]
pub enum FrameKind {
    Message,
    Error,
}

/// One decoded frame. `header` and `body` are the payload's two encoded
/// values, in order.
#[derive(Debug)]
pub struct Frame {
    pub kind: FrameKind,
    /// The message type, e.g. `#commit`; present only on message frames.
    pub type_tag: Option<String>,
    pub header: Vec<u8>,
    pub body: Vec<u8>,
}

/// A payload that is not a well-formed frame.
#[derive(Debug, Clone, Copy, PartialEq, Eq, Structural)]
pub struct MalformedFrame;

/// A frame over character and byte sequences.
pub struct FrameView {
    pub kind: FrameKind,
    pub type_tag: Option<Seq<char>>,
    pub header: Seq<u8>,
    pub body: Seq<u8>,
}

impl View for Frame {
    type V = FrameView;

    open spec fn view(&self) -> FrameView {
        FrameView {
            kind: self.kind,
            type_tag: match self.type_tag {
                Some(t) => Some(t@),
                None => None,
            },
            header: self.header@,
            body: self.body@,
        }
    }
}

/// How many leading bytes the first DAG-CBOR value of `bytes` takes, or
/// `None` when no value decodes there.
pub uninterp spec fn dagcbor_item_len(bytes: Seq<u8>) -> Option<nat>;

/// What decoding `bytes` as one DAG-CBOR value gives for a frame header: for
/// a map, its integer `op` entry and its string `t` entry where present;
/// `None` when the bytes do not decode to a map.
pub uninterp spec fn dagcbor_frame_header(bytes: Seq<u8>) -> Option<(Option<i128>, Option<Seq<char>>)>;

/// Relies on serde_ipld_dagcbor::de::from_reader_once, which decodes one value
/// and leaves the reader just past it: the number of bytes that value took.
#[verifier::external_body]
fn dagcbor_value_len(bytes: &[u8]) -> (r: Option<usize>)
    ensures
        match r {
            Some(n) => dagcbor_item_len(bytes@) == Some(n as nat) && n <= bytes@.len(),
            None => dagcbor_item_len(bytes@) is None,
        },
{
    let mut cursor = std::io::Cursor::new(bytes);
    serde_ipld_dagcbor::de::from_reader_once::<Ipld, _>(&mut cursor).ok()?;
    Some(cursor.position() as usize)
}

/// Relies on serde_ipld_dagcbor::from_slice decoding the bytes as one value:
/// the `op` and `t` entries of the map it holds.
#[verifier::external_body]
fn decode_frame_header(bytes: &[u8]) -> (r: Option<(Option<i128>, Option<String>)>)
    ensures
        match r {
            Some((op, Some(t))) => dagcbor_frame_header(bytes@) == Some((op, Some(t@))),
            Some((op, None)) => dagcbor_frame_header(bytes@) == Some((op, None::<Seq<char>>)),
            None => dagcbor_frame_header(bytes@) is None,
        },
{
    match serde_ipld_dagcbor::from_slice::<Ipld>(bytes) {
        Ok(Ipld::Map(map)) => Some((
            match map.get("op") { Some(Ipld::Integer(i)) => Some(*i), _ => None },
            match map.get("t") { Some(Ipld::String(s)) => Some(s.clone()), _ => None },
        )),
        _ => None,
    }
}

/// How a payload decodes: the header is the first value, the body the rest,
/// which must be exactly one value; header `op` 1 marks a message (with its
/// `t` tag), -1 an error.
pub open spec fn frame_spec(payload: Seq<u8>) -> Result<FrameView, MalformedFrame> {
    match dagcbor_item_len(payload) {
        None => Err(MalformedFrame),
        Some(n) => {
            let header = payload.take(n as int);
            let body = payload.skip(n as int);
            if n >= payload.len() || dagcbor_item_len(body) != Some(body.len()) {
                Err(MalformedFrame)
            } else {
                match dagcbor_frame_header(header) {
                    Some((Some(op), t)) => if op == 1 {
                        Ok(FrameView { kind: FrameKind::Message, type_tag: t, header, body })
                    } else if op == -1 {
                        Ok(FrameView { kind: FrameKind::Error, type_tag: None, header, body })
                    } else {
                        Err(MalformedFrame)
                    },
                    _ => Err(MalformedFrame),
                }
            }
        },
    }
}

/// The bytes of a frame: its header followed by its body.
pub open spec fn frame_bytes(f: FrameView) -> Seq<u8> {
    f.header + f.body
}

/// Decoding keeps every byte: a decoded frame's header and body, put back
/// together, are the payload it came from.
pub proof fn lemma_frame_round_trip(payload: Seq<u8>)
    requires
        frame_spec(payload) is Ok,
    ensures
        frame_bytes(frame_spec(payload)->Ok_0) == payload,
{
    let n = dagcbor_item_len(payload)->Some_0;
    assert(payload.take(n as int) + payload.skip(n as int) =~= payload);
}

impl Frame {
    /// Decodes one transport payload.
    pub fn try_from(payload: &[u8]) -> (r: Result<Frame, MalformedFrame>)
        ensures
            match (r, frame_spec(payload@)) {
                (Ok(f), Ok(v)) => f@ == v,
                (Err(_), Err(_)) => true,
                _ => false,
            },
    {
        let n = match dagcbor_value_len(payload) {
            None => return Err(MalformedFrame),
            Some(n) => n,
        };
        if n >= payload.len() {
            return Err(MalformedFrame);
        }
        let header = vstd::slice::slice_to_vec(&payload[0..n]);
        let body = vstd::slice::slice_to_vec(&payload[n..payload.len()]);
        assert(header@ =~= payload@.take(n as int));
        assert(body@ =~= payload@.skip(n as int));
        match dagcbor_value_len(body.as_slice()) {
            Some(m) => {
                if m != body.len() {
                    return Err(MalformedFrame);
                }
            },
            None => return Err(MalformedFrame),
        }
        match decode_frame_header(header.as_slice()) {
            Some((Some(op), t)) => {
                if op == 1 {
                    Ok(Frame { kind: FrameKind::Message, type_tag: t, header, body })
                } else if op == -1 {
                    Ok(Frame { kind: FrameKind::Error, type_tag: None, header, body })
                } else {
                    Err(MalformedFrame)
                }
            },
            _ => Err(MalformedFrame),
        }
    }

    /// The payload this frame encodes: its header followed by its body.
    pub fn to_bytes(&self) -> (r: Vec<u8>)
        ensures
            r@ == frame_bytes(self@),
    {
        let mut r = vstd::slice::slice_to_vec(self.header.as_slice());
        let mut body = vstd::slice::slice_to_vec(self.body.as_slice());
        r.append(&mut body);
        r
    }
}

} // verus!
