use std::collections::BTreeMap;

use ipld_core::cid::Cid;
use ipld_core::ipld::Ipld;
use sha2::{Digest, Sha256};

use music_feed::firehose::frames::{Frame, FrameKind, MalformedFrame};
use music_feed::firehose::handler::{
    commit_events, handle_commit, Block, Commit, CommitError, ContentId, PostEvent, RepoOp,
};
use music_feed::firehose::subscription::{commit_from_payload, step, DriverState, TransportEvent};
use music_feed::ingest::{process_commit, Store};
use music_feed::models::posts::Post;

fn cbor(v: &Ipld) -> Vec<u8> {
    serde_ipld_dagcbor::to_vec(v).unwrap()
}

fn map(entries: Vec<(&str, Ipld)>) -> Ipld {
    Ipld::Map(entries.into_iter().map(|(k, v)| (k.to_string(), v)).collect::<BTreeMap<_, _>>())
}

fn text(s: &str) -> Ipld {
    Ipld::String(s.to_string())
}

fn cid_of(data: &[u8]) -> Vec<u8> {
    let mut b = vec![0x01, 0x71, 0x12, 0x20];
    b.extend_from_slice(&Sha256::digest(data));
    b
}

fn content_id(bytes: &[u8]) -> ContentId {
    ContentId { bytes: bytes.to_vec(), text: Cid::try_from(bytes).unwrap().to_string() }
}

fn push_varint(mut n: usize, out: &mut Vec<u8>) {
    loop {
        let byte = (n & 0x7f) as u8;
        n >>= 7;
        if n == 0 {
            out.push(byte);
            break;
        }
        out.push(byte | 0x80);
    }
}

fn car(blocks: &[(Vec<u8>, Vec<u8>)]) -> Vec<u8> {
    let header = cbor(&map(vec![("roots", Ipld::List(vec![])), ("version", Ipld::Integer(1))]));
    let mut out = Vec::new();
    push_varint(header.len(), &mut out);
    out.extend_from_slice(&header);
    for (cid, data) in blocks {
        push_varint(cid.len() + data.len(), &mut out);
        out.extend_from_slice(cid);
        out.extend_from_slice(data);
    }
    out
}

fn post_record(body: &str) -> Vec<u8> {
    cbor(&map(vec![
        ("$type", text("app.bsky.feed.post")),
        ("text", text(body)),
        ("createdAt", text("2024-01-01T00:00:00.000Z")),
    ]))
}

fn op(action: &str, path: &str, cid: Option<&[u8]>) -> RepoOp {
    RepoOp { action: action.to_string(), path: path.to_string(), cid: cid.map(content_id) }
}

fn header(op: i128, tag: Option<&str>) -> Vec<u8> {
    let mut entries = vec![("op", Ipld::Integer(op))];
    if let Some(t) = tag {
        entries.push(("t", text(t)));
    }
    cbor(&map(entries))
}

#[test]
fn frame_decodes_and_reencodes_byte_for_byte() {
    let head = header(1, Some("#commit"));
    let body = cbor(&map(vec![("seq", Ipld::Integer(5))]));
    let payload = [head.clone(), body.clone()].concat();
    let frame = Frame::try_from(&payload).unwrap();
    assert_eq!(FrameKind::Message, frame.kind);
    assert_eq!(Some("#commit".to_string()), frame.type_tag);
    assert_eq!(head, frame.header);
    assert_eq!(body, frame.body);
    assert_eq!(payload, frame.to_bytes());
}

#[test]
fn error_frame_has_no_tag() {
    let payload = [header(-1, None), cbor(&map(vec![("error", text("FutureCursor"))]))].concat();
    let frame = Frame::try_from(&payload).unwrap();
    assert_eq!(FrameKind::Error, frame.kind);
    assert_eq!(None, frame.type_tag);
    assert_eq!(payload, frame.to_bytes());
}

#[test]
fn truncated_header_is_malformed() {
    let head = header(1, Some("#commit"));
    let payload = [head.clone(), cbor(&Ipld::Integer(1))].concat();
    for k in 0..head.len() {
        assert_eq!(MalformedFrame, Frame::try_from(&payload[..k]).unwrap_err());
    }
}

#[test]
fn frames_without_a_whole_body_or_known_op_are_malformed() {
    let head = header(1, Some("#commit"));
    assert!(Frame::try_from(&head).is_err());
    let two_bodies = [head.clone(), cbor(&Ipld::Integer(1)), cbor(&Ipld::Integer(2))].concat();
    assert!(Frame::try_from(&two_bodies).is_err());
    let unknown_op = [header(2, Some("#commit")), cbor(&Ipld::Integer(1))].concat();
    assert!(Frame::try_from(&unknown_op).is_err());
    let not_a_map = [cbor(&Ipld::Integer(1)), cbor(&Ipld::Integer(1))].concat();
    assert!(Frame::try_from(&not_a_map).is_err());
}

#[test]
fn created_record_is_decoded_from_the_archive() {
    let record = post_record("listen https://open.spotify.com/track/abc");
    let cid = cid_of(&record);
    let commit = Commit {
        repo: "did:plc:abc".to_string(),
        ops: vec![op("create", "app.bsky.feed.post/rk1", Some(&cid))],
        blocks: car(&[(cid.clone(), record)]),
    };
    let events = handle_commit(&commit).unwrap();
    assert_eq!(1, events.len());
    match &events[0] {
        PostEvent::Create(p) => {
            assert_eq!("listen https://open.spotify.com/track/abc", p.record.text);
            assert_eq!("2024-01-01T00:00:00.000Z", p.record.created_at);
            assert_eq!("at://did:plc:abc/app.bsky.feed.post/rk1", p.uri);
            assert_eq!("rk1", p.post_id);
            assert_eq!("did:plc:abc", p.author);
            assert_eq!(cid, p.cid.bytes);
        }
        PostEvent::Delete(_) => panic!("expected a create"),
    }
}

#[test]
fn missing_record_fails_the_whole_commit() {
    let record = post_record("first");
    let cid = cid_of(&record);
    let absent = cid_of(b"not in the archive");
    let commit = Commit {
        repo: "did:plc:abc".to_string(),
        ops: vec![
            op("create", "app.bsky.feed.post/rk1", Some(&cid)),
            op("create", "app.bsky.feed.post/rk2", Some(&absent)),
            op("delete", "app.bsky.feed.post/rk3", None),
        ],
        blocks: car(&[(cid.clone(), record)]),
    };
    assert_eq!(CommitError::RecordNotFound, handle_commit(&commit).unwrap_err());
}

#[test]
fn corrupt_archive_and_malformed_record() {
    let commit = Commit {
        repo: "did:plc:abc".to_string(),
        ops: vec![op("create", "app.bsky.feed.post/rk1", Some(&cid_of(b"x")))],
        blocks: vec![0xff, 0x00, 0x13],
    };
    assert_eq!(CommitError::ArchiveCorrupt, handle_commit(&commit).unwrap_err());

    let not_a_post = cbor(&Ipld::Integer(5));
    let cid = cid_of(&not_a_post);
    let commit = Commit {
        repo: "did:plc:abc".to_string(),
        ops: vec![op("create", "app.bsky.feed.post/rk1", Some(&cid))],
        blocks: car(&[(cid.clone(), not_a_post)]),
    };
    assert_eq!(CommitError::RecordMalformed, handle_commit(&commit).unwrap_err());
}

#[test]
fn wrong_hash_in_archive_is_corrupt() {
    let record = post_record("hello");
    let cid = cid_of(b"something else");
    let commit = Commit {
        repo: "did:plc:abc".to_string(),
        ops: vec![op("create", "app.bsky.feed.post/rk1", Some(&cid))],
        blocks: car(&[(cid.clone(), record)]),
    };
    assert_eq!(CommitError::ArchiveCorrupt, handle_commit(&commit).unwrap_err());
}

#[test]
fn deletes_need_no_archive_and_other_ops_are_ignored() {
    let commit = Commit {
        repo: "did:plc:abc".to_string(),
        ops: vec![
            op("create", "app.bsky.feed.like/rk0", Some(&cid_of(b"x"))),
            op("update", "app.bsky.feed.post/rk1", Some(&cid_of(b"y"))),
            op("delete", "app.bsky.feed.post/rk2", None),
            op("delete", "nocollection", None),
        ],
        blocks: vec![0xff],
    };
    let events = handle_commit(&commit).unwrap();
    assert_eq!(1, events.len());
    match &events[0] {
        PostEvent::Delete(p) => {
            assert_eq!("at://did:plc:abc/app.bsky.feed.post/rk2", p.uri);
            assert_eq!("rk2", p.post_id);
            assert_eq!("did:plc:abc", p.author);
        }
        PostEvent::Create(_) => panic!("expected a delete"),
    }
}

#[test]
fn first_matching_block_is_used() {
    let commit = Commit {
        repo: "did:plc:abc".to_string(),
        ops: vec![RepoOp {
            action: "create".to_string(),
            path: "app.bsky.feed.post/rk1".to_string(),
            cid: Some(ContentId { bytes: vec![1, 2], text: "b12".to_string() }),
        }],
        blocks: vec![],
    };
    let blocks = vec![
        Block { cid: vec![1], data: post_record("short id") },
        Block { cid: vec![1, 2], data: post_record("first") },
        Block { cid: vec![1, 2], data: post_record("second") },
    ];
    let events = commit_events(&commit, &blocks).unwrap();
    match &events[0] {
        PostEvent::Create(p) => assert_eq!("first", p.record.text),
        PostEvent::Delete(_) => panic!("expected a create"),
    }
}

fn commit_body(cid: &[u8], blocks: Vec<u8>) -> Vec<u8> {
    let link = Ipld::Link(Cid::try_from(cid).unwrap());
    cbor(&map(vec![
        ("blobs", Ipld::List(vec![])),
        ("blocks", Ipld::Bytes(blocks)),
        ("commit", link.clone()),
        (
            "ops",
            Ipld::List(vec![map(vec![
                ("action", text("create")),
                ("path", text("app.bsky.feed.post/rk1")),
                ("cid", link),
            ])]),
        ),
        ("rebase", Ipld::Bool(false)),
        ("repo", text("did:plc:abc")),
        ("rev", text("3jzfcijpj2z2a")),
        ("seq", Ipld::Integer(1)),
        ("time", text("2024-01-01T00:00:00.000Z")),
        ("tooBig", Ipld::Bool(false)),
    ]))
}

#[test]
fn commit_payload_decodes_to_a_commit() {
    let record = post_record("hi");
    let cid = cid_of(&record);
    let blocks = car(&[(cid.clone(), record)]);
    let payload = [header(1, Some("#commit")), commit_body(&cid, blocks.clone())].concat();
    let commit = commit_from_payload(&payload).unwrap();
    assert_eq!("did:plc:abc", commit.repo);
    assert_eq!(1, commit.ops.len());
    assert_eq!("create", commit.ops[0].action);
    assert_eq!("app.bsky.feed.post/rk1", commit.ops[0].path);
    assert_eq!(cid, commit.ops[0].cid.as_ref().unwrap().bytes);
    assert_eq!(Cid::try_from(cid.as_slice()).unwrap().to_string(), commit.ops[0].cid.as_ref().unwrap().text);
    assert_eq!(blocks, commit.blocks);

    let other = [header(1, Some("#identity")), commit_body(&cid, vec![])].concat();
    assert!(commit_from_payload(&other).is_none());
}

#[test]
fn driver_steps() {
    let (s, c) = step(DriverState::Connecting, &TransportEvent::Connected);
    assert_eq!(DriverState::Streaming, s);
    assert!(c.is_none());
    let (s, c) = step(DriverState::Streaming, &TransportEvent::Binary(vec![0xff]));
    assert_eq!(DriverState::Streaming, s);
    assert!(c.is_none());
    let (s, _) = step(DriverState::Streaming, &TransportEvent::Other);
    assert_eq!(DriverState::Streaming, s);
    let (s, _) = step(DriverState::Streaming, &TransportEvent::Closed);
    assert_eq!(DriverState::Terminated, s);
    let (s, _) = step(DriverState::Connecting, &TransportEvent::Closed);
    assert_eq!(DriverState::Terminated, s);
    let (s, _) = step(DriverState::Terminated, &TransportEvent::Connected);
    assert_eq!(DriverState::Terminated, s);

    let record = post_record("hi");
    let cid = cid_of(&record);
    let payload = [header(1, Some("#commit")), commit_body(&cid, car(&[(cid.clone(), record)]))].concat();
    let (s, c) = step(DriverState::Streaming, &TransportEvent::Binary(payload));
    assert_eq!(DriverState::Streaming, s);
    assert_eq!("did:plc:abc", c.unwrap().repo);
}

#[test]
fn create_then_delete_end_to_end() {
    let record = post_record("check https://open.spotify.com/album/abc123?si=xyz");
    let cid = cid_of(&record);
    let create = Commit {
        repo: "did:plc:abc".to_string(),
        ops: vec![op("create", "app.bsky.feed.post/rk1", Some(&cid))],
        blocks: car(&[(cid.clone(), record)]),
    };
    let mut store = Store::new();
    process_commit(&mut store, &create, 10).unwrap();
    assert_eq!(1, store.posts.len());
    assert_eq!(1, store.links.len());
    assert_eq!("at://did:plc:abc/app.bsky.feed.post/rk1", store.posts.rows[0].uri);
    assert_eq!(content_id(&cid).text, store.posts.rows[0].cid);
    assert_eq!("https://open.spotify.com/album/abc123", store.links.rows[0].url);

    let delete = Commit {
        repo: "did:plc:abc".to_string(),
        ops: vec![op("delete", "app.bsky.feed.post/rk1", None)],
        blocks: vec![],
    };
    process_commit(&mut store, &delete, 20).unwrap();
    assert_eq!(0, store.posts.len());
    assert_eq!(1, store.links.len());
    assert_eq!(1, store.links.rows[0].count);
    assert!(Post::get_all(&store.posts, 10).is_empty());
}

#[test]
fn post_without_links_is_not_stored_and_failed_commit_changes_nothing() {
    let record = post_record("no links here");
    let cid = cid_of(&record);
    let commit = Commit {
        repo: "did:plc:abc".to_string(),
        ops: vec![op("create", "app.bsky.feed.post/rk1", Some(&cid))],
        blocks: car(&[(cid.clone(), record)]),
    };
    let mut store = Store::new();
    process_commit(&mut store, &commit, 10).unwrap();
    assert_eq!(0, store.posts.len());
    assert_eq!(0, store.links.len());

    let linked = post_record("https://open.spotify.com/track/t1");
    let linked_cid = cid_of(&linked);
    let failing = Commit {
        repo: "did:plc:abc".to_string(),
        ops: vec![
            op("create", "app.bsky.feed.post/rk1", Some(&linked_cid)),
            op("create", "app.bsky.feed.post/rk2", Some(&cid_of(b"absent"))),
        ],
        blocks: car(&[(linked_cid.clone(), linked)]),
    };
    assert_eq!(Err(CommitError::RecordNotFound), process_commit(&mut store, &failing, 10));
    assert_eq!(0, store.posts.len());
    assert_eq!(0, store.links.len());
}

fn framed_block(cid: &[u8], data: &[u8], len: usize) -> Vec<u8> {
    let header = cbor(&map(vec![("roots", Ipld::List(vec![])), ("version", Ipld::Integer(1))]));
    let mut out = Vec::new();
    push_varint(header.len(), &mut out);
    out.extend_from_slice(&header);
    push_varint(len, &mut out);
    out.extend_from_slice(cid);
    out.extend_from_slice(data);
    out
}

fn commit_with_blocks(blocks: Vec<u8>) -> Commit {
    Commit {
        repo: "did:plc:abc".to_string(),
        ops: vec![op("create", "app.bsky.feed.post/rk1", Some(&cid_of(b"x")))],
        blocks,
    }
}

#[test]
fn unusual_framings_are_corrupt_not_fatal() {
    let data = post_record("hello");
    // content id of version 2
    let mut v2 = cid_of(&data);
    v2[0] = 0x02;
    let archive = framed_block(&v2, &data, v2.len() + data.len());
    assert_eq!(CommitError::ArchiveCorrupt, handle_commit(&commit_with_blocks(archive)).unwrap_err());
    // digest size of 300 bytes
    let big = vec![0x01, 0x71, 0x12, 0xac, 0x02];
    let archive = framed_block(&big, &data, big.len() + data.len());
    assert_eq!(CommitError::ArchiveCorrupt, handle_commit(&commit_with_blocks(archive)).unwrap_err());
    // digest size of 100 bytes
    let wide = vec![0x01, 0x71, 0x12, 0x64];
    let archive = framed_block(&wide, &[0u8; 120], wide.len() + 120);
    assert_eq!(CommitError::ArchiveCorrupt, handle_commit(&commit_with_blocks(archive)).unwrap_err());
    // block length shorter than its content id
    let cid = cid_of(&data);
    let archive = framed_block(&cid, &data, 3);
    assert_eq!(CommitError::ArchiveCorrupt, handle_commit(&commit_with_blocks(archive)).unwrap_err());
    // a version 2 header
    let mut archive = vec![0x0a, 0xa1, 0x67, 0x76, 0x65, 0x72, 0x73, 0x69, 0x6f, 0x6e, 0x02];
    archive.extend_from_slice(&[0u8; 40]);
    assert_eq!(CommitError::ArchiveCorrupt, handle_commit(&commit_with_blocks(archive)).unwrap_err());
    // a block running past the end of the archive
    let mut archive = car(&[(cid.clone(), data.clone())]);
    archive.pop();
    assert_eq!(CommitError::ArchiveCorrupt, handle_commit(&commit_with_blocks(archive)).unwrap_err());
}

#[test]
fn archive_with_a_root_is_read() {
    let record = post_record("rooted");
    let cid = cid_of(&record);
    let root = Ipld::Link(Cid::try_from(cid.as_slice()).unwrap());
    let header = cbor(&map(vec![("roots", Ipld::List(vec![root])), ("version", Ipld::Integer(1))]));
    let mut archive = Vec::new();
    push_varint(header.len(), &mut archive);
    archive.extend_from_slice(&header);
    push_varint(cid.len() + record.len(), &mut archive);
    archive.extend_from_slice(&cid);
    archive.extend_from_slice(&record);
    let commit = Commit {
        repo: "did:plc:abc".to_string(),
        ops: vec![op("create", "app.bsky.feed.post/rk1", Some(&cid))],
        blocks: archive,
    };
    let events = handle_commit(&commit).unwrap();
    match &events[0] {
        PostEvent::Create(p) => assert_eq!("rooted", p.record.text),
        PostEvent::Delete(_) => panic!("expected a create"),
    }
}
