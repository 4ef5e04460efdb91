//! Turning one repository commit into post notifications.

use vstd::prelude::*;
use vstd::string::*;

use crate::firehose::car::{car_framing_ok, check_car_framing};
use crate::text::{bytes_eq, find_char, first_index, substring};

verus! {

/// A content identifier: its binary form and its canonical text form.
#[derive(Debug, Clone)]
pub struct ContentId {
    pub bytes: Vec<u8>,
    pub text: String,
}

/// One operation of a commit: `action` is `create`, `update` or `delete`;
/// `path` is `<collection>/<record key>`.
#[derive(Debug, Clone)]
pub struct RepoOp {
    pub action: String,
    pub path: String,
    pub cid: Option<ContentId>,
}

/// A repository commit as carried by the stream.
#[derive(Debug, Clone)]
pub struct Commit {
    /// The author's repository, e.g. `did:plc:asdfghjkl`.
    pub repo: String,
    pub ops: Vec<RepoOp>,
    /// The block archive holding the records that the operations refer to.
    pub blocks: Vec<u8>,
}

/// The fields of a post record that the feed reads.
#[derive(Debug, Clone)]
pub struct PostRecord {
    pub text: String,
    pub created_at: String,
}

/// One entry of a block archive.
#[derive(Debug, Clone)]
pub struct Block {
    pub cid: Vec<u8>,
    pub data: Vec<u8>,
}

/// A post that was created.
#[derive(Debug, Clone)]
pub struct OnPostCreateParams {
    pub record: PostRecord,
    /// The full uri, e.g. `at://did:plc:asdfghjkl/app.bsky.feed.post/qwertyuiop`.
    pub uri: String,
    /// The record key, e.g. `qwertyuiop`.
    pub post_id: String,
    /// The author's repository, e.g. `did:plc:asdfghjkl`.
    pub author: String,
    pub cid: ContentId,
}

/// A post that was deleted.
#[derive(Debug, Clone)]
pub struct OnPostDeleteParams {
    pub uri: String,
    pub post_id: String,
    pub author: String,
}

/// A notification raised by a commit.
#[derive(Debug, Clone)]
pub enum PostEvent {
    Create(OnPostCreateParams),
    Delete(OnPostDeleteParams),
}

/// Why a commit could not be processed.
#[derive(Debug, Clone, Copy, PartialEq, Eq, Structural)]
pub enum CommitError {
    /// The block archive could not be read.
    ArchiveCorrupt,
    /// A created record is missing from the block archive.
    RecordNotFound,
    /// A created record does not decode as a post.
    RecordMalformed,
}

/// A notification over character and byte sequences.
pub enum PostEventView {
    Create {
        uri: Seq<char>,
        post_id: Seq<char>,
        author: Seq<char>,
        cid: Seq<u8>,
        cid_text: Seq<char>,
        text: Seq<char>,
        created_at: Seq<char>,
    },
    Delete { uri: Seq<char>, post_id: Seq<char>, author: Seq<char> },
}

impl View for PostEvent {
    type V = PostEventView;

    open spec fn view(&self) -> PostEventView {
        match self {
            PostEvent::Create(p) => PostEventView::Create {
                uri: p.uri@,
                post_id: p.post_id@,
                author: p.author@,
                cid: p.cid.bytes@,
                cid_text: p.cid.text@,
                text: p.record.text@,
                created_at: p.record.created_at@,
            },
            PostEvent::Delete(p) => PostEventView::Delete {
                uri: p.uri@,
                post_id: p.post_id@,
                author: p.author@,
            },
        }
    }
}

/// An operation over character and byte sequences.
pub struct RepoOpView {
    pub action: Seq<char>,
    pub path: Seq<char>,
    pub cid: Option<(Seq<u8>, Seq<char>)>,
}

impl View for RepoOp {
    type V = RepoOpView;

    open spec fn view(&self) -> RepoOpView {
        RepoOpView {
            action: self.action@,
            path: self.path@,
            cid: match self.cid {
                Some(c) => Some((c.bytes@, c.text@)),
                None => None,
            },
        }
    }
}

/// A commit over character and byte sequences.
pub struct CommitView {
    pub repo: Seq<char>,
    pub ops: Seq<RepoOpView>,
    pub blocks: Seq<u8>,
}

impl View for Commit {
    type V = CommitView;

    open spec fn view(&self) -> CommitView {
        CommitView { repo: self.repo@, ops: self.ops@.map_values(|op: RepoOp| op@), blocks: self.blocks@ }
    }
}

/// The entries of an archive as (content id, bytes) pairs.
pub open spec fn blocks_view(blocks: Seq<Block>) -> Seq<(Seq<u8>, Seq<u8>)> {
    blocks.map_values(|b: Block| (b.cid@, b.data@))
}

/// The views of a sequence of notifications.
pub open spec fn events_view(events: Seq<PostEvent>) -> Seq<PostEventView> {
    events.map_values(|e: PostEvent| e@)
}

/// What the block archive reader yields for an archive whose framing is plain
/// (`car_framing_ok`): its entries in order, or `None` when the archive is
/// otherwise malformed or a block fails its hash check. An archive whose
/// framing is not plain is never handed to the reader and counts as corrupt.
pub uninterp spec fn car_blocks(archive: Seq<u8>) -> Option<Seq<(Seq<u8>, Seq<u8>)>>;

/// What decoding bytes as a post record yields: its text and creation time.
pub uninterp spec fn dagcbor_post_record(bytes: Seq<u8>) -> Option<(Seq<char>, Seq<char>)>;

/// Relies on rs_car::car_read_all with block hash validation on: the blocks of
/// the archive in order, or an error. It is driven by
/// futures::executor::block_on; reading from a byte slice never waits.
/// The reader panics on some malformed framings (a content id version other
/// than 0 or 1, a digest longer than 255 bytes or than its 64-byte buffer, a
/// block shorter than its content id, and the size arithmetic of version 2
/// archives); `car_framing_ok` leaves all of those out.
#[verifier::external_body]
fn read_car(archive: &[u8]) -> (r: Option<Vec<Block>>)
    requires
        car_framing_ok(archive@),
    ensures
        match r {
            Some(v) => car_blocks(archive@) == Some(blocks_view(v@)),
            None => car_blocks(archive@) is None,
        },
{
    let mut reader = archive;
    let (items, _) = futures::executor::block_on(rs_car::car_read_all(&mut reader, true)).ok()?;
    Some(items.into_iter().map(|(cid, data)| Block { cid: cid.to_bytes(), data }).collect())
}

/// Relies on serde_ipld_dagcbor::from_slice decoding a post record of
/// atrium_api: its text and creation time.
#[verifier::external_body]
fn decode_post_record(bytes: &[u8]) -> (r: Option<PostRecord>)
    ensures
        match r {
            Some(p) => dagcbor_post_record(bytes@) == Some((p.text@, p.created_at@)),
            None => dagcbor_post_record(bytes@) is None,
        },
{
    let record = serde_ipld_dagcbor::from_slice::<atrium_api::app::bsky::feed::post::Record>(bytes).ok()?;
    Some(PostRecord { text: record.text.clone(), created_at: record.created_at.as_str().to_string() })
}

/// The collection of posts.
pub open spec fn post_collection() -> Seq<char> {
    "app.bsky.feed.post"@
}

/// The path is `<post collection>/<record key>`.
pub open spec fn is_post_path(path: Seq<char>) -> bool {
    let i = first_index(path, '/');
    i < path.len() && path.take(i) == post_collection()
}

/// The record key of a path: what follows its first `/`.
pub open spec fn record_key(path: Seq<char>) -> Seq<char> {
    path.skip(first_index(path, '/') + 1)
}

/// The full uri of a record: `at://<repo>/<path>`.
pub open spec fn record_uri(repo: Seq<char>, path: Seq<char>) -> Seq<char> {
    "at://"@ + repo + "/"@ + path
}

/// Index of the first entry whose content id is `cid` (its length if none).
pub open spec fn block_index(blocks: Seq<(Seq<u8>, Seq<u8>)>, cid: Seq<u8>) -> int
    decreases blocks.len(),
{
    if blocks.len() == 0 {
        0
    } else if blocks[0].0 == cid {
        0
    } else {
        1 + block_index(blocks.drop_first(), cid)
    }
}

/// The operation creates a post.
pub open spec fn creates_post(op: RepoOp) -> bool {
    is_post_path(op.path@) && op.action@ == "create"@
}

/// The notification that one operation raises, if any.
pub open spec fn op_event(
    repo: Seq<char>,
    op: RepoOp,
    blocks: Seq<(Seq<u8>, Seq<u8>)>,
) -> Result<Option<PostEventView>, CommitError> {
    if !is_post_path(op.path@) {
        Ok(None)
    } else if op.action@ == "create"@ {
        match op.cid {
            None => Err(CommitError::RecordNotFound),
            Some(c) => {
                let k = block_index(blocks, c.bytes@);
                if k == blocks.len() {
                    Err(CommitError::RecordNotFound)
                } else {
                    match dagcbor_post_record(blocks[k].1) {
                        None => Err(CommitError::RecordMalformed),
                        Some(rec) => Ok(
                            Some(
                                PostEventView::Create {
                                    uri: record_uri(repo, op.path@),
                                    post_id: record_key(op.path@),
                                    author: repo,
                                    cid: c.bytes@,
                                    cid_text: c.text@,
                                    text: rec.0,
                                    created_at: rec.1,
                                },
                            ),
                        ),
                    }
                }
            },
        }
    } else if op.action@ == "delete"@ {
        Ok(
            Some(
                PostEventView::Delete {
                    uri: record_uri(repo, op.path@),
                    post_id: record_key(op.path@),
                    author: repo,
                },
            ),
        )
    } else {
        Ok(None)
    }
}

/// The notifications of the first `n` operations, in order, or the error of
/// the first operation that fails.
pub open spec fn ops_events(
    repo: Seq<char>,
    ops: Seq<RepoOp>,
    blocks: Seq<(Seq<u8>, Seq<u8>)>,
    n: int,
) -> Result<Seq<PostEventView>, CommitError>
    decreases n,
{
    if n <= 0 {
        Ok(Seq::empty())
    } else {
        match ops_events(repo, ops, blocks, n - 1) {
            Err(e) => Err(e),
            Ok(evs) => match op_event(repo, ops[n - 1], blocks) {
                Err(e) => Err(e),
                Ok(None) => Ok(evs),
                Ok(Some(ev)) => Ok(evs.push(ev)),
            },
        }
    }
}

/// The notifications of a whole commit, given the entries of its archive.
pub open spec fn commit_events_spec(
    commit: Commit,
    blocks: Seq<(Seq<u8>, Seq<u8>)>,
) -> Result<Seq<PostEventView>, CommitError> {
    ops_events(commit.repo@, commit.ops@, blocks, commit.ops@.len() as int)
}

/// Some operation of the commit creates a post, so its archive must be read.
pub open spec fn needs_blocks(commit: Commit) -> bool {
    exists|i: int| 0 <= i < commit.ops@.len() && creates_post(#[trigger] commit.ops@[i])
}

/// The outcome of processing a commit: the archive is read only when a post
/// is created, an archive whose framing is not plain counts as corrupt, and a
/// failure anywhere leaves no notification at all.
pub open spec fn commit_outcome(commit: Commit) -> Result<Seq<PostEventView>, CommitError> {
    if needs_blocks(commit) {
        if !car_framing_ok(commit.blocks@) {
            Err(CommitError::ArchiveCorrupt)
        } else {
            match car_blocks(commit.blocks@) {
                None => Err(CommitError::ArchiveCorrupt),
                Some(b) => commit_events_spec(commit, b),
            }
        }
    } else {
        commit_events_spec(commit, Seq::empty())
    }
}

/// The view of a processing result.
pub open spec fn result_view(r: Result<Vec<PostEvent>, CommitError>) -> Result<Seq<PostEventView>, CommitError> {
    match r {
        Ok(v) => Ok(events_view(v@)),
        Err(e) => Err(e),
    }
}

proof fn lemma_block_index(blocks: Seq<(Seq<u8>, Seq<u8>)>, cid: Seq<u8>, k: int)
    requires
        0 <= k <= blocks.len(),
        forall|j: int| 0 <= j < k ==> blocks[j].0 != cid,
        k < blocks.len() ==> blocks[k].0 == cid,
    ensures
        block_index(blocks, cid) == k,
    decreases k,
{
    if blocks.len() > 0 && k > 0 {
        assert forall|j: int| 0 <= j < k - 1 implies blocks.drop_first()[j].0 != cid by {
            assert(blocks.drop_first()[j] == blocks[j + 1]);
        }
        lemma_block_index(blocks.drop_first(), cid, k - 1);
    }
}

/// Once an operation fails, every longer prefix of the commit fails with its error.
proof fn lemma_ops_events_err(
    repo: Seq<char>,
    ops: Seq<RepoOp>,
    blocks: Seq<(Seq<u8>, Seq<u8>)>,
    n: int,
    m: int,
)
    requires
        0 <= n <= m,
        ops_events(repo, ops, blocks, n) is Err,
    ensures
        ops_events(repo, ops, blocks, m) == ops_events(repo, ops, blocks, n),
    decreases m - n,
{
    if m > n {
        lemma_ops_events_err(repo, ops, blocks, n, m - 1);
    }
}

/// An operation that creates a post whose record is not among the archive's
/// entries fails the whole commit with `RecordNotFound`, so that none of the
/// commit's notifications, earlier or later, is raised.
pub proof fn lemma_missing_record_fails_commit(commit: Commit, blocks: Seq<(Seq<u8>, Seq<u8>)>, k: int)
    requires
        0 <= k < commit.ops@.len(),
        creates_post(commit.ops@[k]),
        match commit.ops@[k].cid {
            Some(c) => forall|j: int| 0 <= j < blocks.len() ==> blocks[j].0 != c.bytes@,
            None => true,
        },
        ops_events(commit.repo@, commit.ops@, blocks, k) is Ok,
    ensures
        commit_events_spec(commit, blocks) == Err::<Seq<PostEventView>, CommitError>(CommitError::RecordNotFound),
{
    match commit.ops@[k].cid {
        Some(c) => lemma_block_index(blocks, c.bytes@, blocks.len() as int),
        None => {},
    }
    lemma_ops_events_err(commit.repo@, commit.ops@, blocks, k + 1, commit.ops@.len() as int);
}

/// Position of the first block whose content id is `cid`.
fn find_block(blocks: &Vec<Block>, cid: &Vec<u8>) -> (r: usize)
    ensures
        r as int == block_index(blocks_view(blocks@), cid@),
        r <= blocks@.len(),
{
    let ghost bv = blocks_view(blocks@);
    let mut i: usize = 0;
    while i < blocks.len()
        invariant
            bv == blocks_view(blocks@),
            bv.len() == blocks@.len(),
            i <= blocks@.len(),
            forall|j: int| 0 <= j < i ==> bv[j].0 != cid@,
        decreases blocks@.len() - i,
    {
        if bytes_eq(blocks[i].cid.as_slice(), cid.as_slice()) {
            proof {
                lemma_block_index(bv, cid@, i as int);
            }
            return i;
        }
        i += 1;
    }
    proof {
        lemma_block_index(bv, cid@, i as int);
    }
    i
}

/// Builds `at://<repo>/<path>`.
fn make_record_uri(repo: &String, path: &String) -> (r: String)
    ensures
        r@ == record_uri(repo@, path@),
{
    let mut r = String::from_str("at://");
    r.append(repo.as_str());
    r.append("/");
    r.append(path.as_str());
    r
}

/// Whether the operation's path names a post, and where its first `/` is.
fn post_path_split(path: &String) -> (r: (bool, usize))
    ensures
        r.0 == is_post_path(path@),
        r.1 as int == first_index(path@, '/'),
        r.1 <= path@.len(),
{
    let i = find_char(path.as_str(), '/');
    if i == path.as_str().unicode_len() {
        return (false, i);
    }
    let collection = substring(path.as_str(), 0, i);
    let expected = String::from_str("app.bsky.feed.post");
    (collection == expected, i)
}

/// The notification that one operation raises, if any.
fn op_event_exec(repo: &String, op: &RepoOp, blocks: &Vec<Block>) -> (r: Result<Option<PostEvent>, CommitError>)
    ensures
        match (r, op_event(repo@, *op, blocks_view(blocks@))) {
            (Ok(Some(e)), Ok(Some(v))) => e@ == v,
            (Ok(None), Ok(None)) => true,
            (Err(e), Err(f)) => e == f,
            _ => false,
        },
{
    let (is_post, i) = post_path_split(&op.path);
    if !is_post {
        return Ok(None);
    }
    let n = op.path.as_str().unicode_len();
    if op.action == String::from_str("create") {
        match &op.cid {
            None => Err(CommitError::RecordNotFound),
            Some(c) => {
                let k = find_block(blocks, &c.bytes);
                if k == blocks.len() {
                    return Err(CommitError::RecordNotFound);
                }
                assert(blocks_view(blocks@)[k as int].1 == blocks@[k as int].data@);
                match decode_post_record(blocks[k].data.as_slice()) {
                    None => Err(CommitError::RecordMalformed),
                    Some(record) => {
                        let params = OnPostCreateParams {
                            record,
                            uri: make_record_uri(repo, &op.path),
                            post_id: substring(op.path.as_str(), i + 1, n),
                            author: repo.clone(),
                            cid: ContentId { bytes: vstd::slice::slice_to_vec(c.bytes.as_slice()), text: c.text.clone() },
                        };
                        Ok(Some(PostEvent::Create(params)))
                    },
                }
            },
        }
    } else if op.action == String::from_str("delete") {
        let params = OnPostDeleteParams {
            uri: make_record_uri(repo, &op.path),
            post_id: substring(op.path.as_str(), i + 1, n),
            author: repo.clone(),
        };
        Ok(Some(PostEvent::Delete(params)))
    } else {
        Ok(None)
    }
}

/// The notifications of a commit given the entries of its block archive, in
/// the order of its operations; the first failing operation fails the whole
/// commit.
pub fn commit_events(commit: &Commit, blocks: &Vec<Block>) -> (r: Result<Vec<PostEvent>, CommitError>)
    ensures
        result_view(r) == commit_events_spec(*commit, blocks_view(blocks@)),
{
    let ghost bv = blocks_view(blocks@);
    let mut events: Vec<PostEvent> = Vec::new();
    assert(events_view(events@) =~= Seq::<PostEventView>::empty());
    let mut i: usize = 0;
    while i < commit.ops.len()
        invariant
            bv == blocks_view(blocks@),
            i <= commit.ops@.len(),
            ops_events(commit.repo@, commit.ops@, bv, i as int) == Ok::<Seq<PostEventView>, CommitError>(
                events_view(events@),
            ),
        decreases commit.ops@.len() - i,
    {
        let r = op_event_exec(&commit.repo, &commit.ops[i], blocks);
        match r {
            Err(e) => {
                proof {
                    lemma_ops_events_err(commit.repo@, commit.ops@, bv, i + 1, commit.ops@.len() as int);
                }
                return Err(e);
            },
            Ok(None) => {},
            Ok(Some(ev)) => {
                let ghost before = events@;
                events.push(ev);
                assert(events_view(events@) =~= events_view(before).push(ev@));
            },
        }
        i += 1;
    }
    Ok(events)
}

/// Whether some operation of the commit creates a post.
fn has_post_create(commit: &Commit) -> (r: bool)
    ensures
        r == needs_blocks(*commit),
{
    let mut i: usize = 0;
    while i < commit.ops.len()
        invariant
            i <= commit.ops@.len(),
            forall|j: int| 0 <= j < i ==> !creates_post(#[trigger] commit.ops@[j]),
        decreases commit.ops@.len() - i,
    {
        let (is_post, _) = post_path_split(&commit.ops[i].path);
        if is_post && commit.ops[i].action == String::from_str("create") {
            assert(creates_post(commit.ops@[i as int]));
            return true;
        }
        i += 1;
    }
    false
}

/// Processes one commit: the notifications of its post operations in order,
/// or the first error, with no notification from a commit that fails.
/// The block archive is read only when some operation creates a post.
pub fn handle_commit(commit: &Commit) -> (r: Result<Vec<PostEvent>, CommitError>)
    ensures
        result_view(r) == commit_outcome(*commit),
{
    if has_post_create(commit) {
        if !check_car_framing(commit.blocks.as_slice()) {
            return Err(CommitError::ArchiveCorrupt);
        }
        match read_car(commit.blocks.as_slice()) {
            None => Err(CommitError::ArchiveCorrupt),
            Some(blocks) => commit_events(commit, &blocks),
        }
    } else {
        let blocks: Vec<Block> = Vec::new();
        assert(blocks_view(blocks@) =~= Seq::empty());
        commit_events(commit, &blocks)
    }
}

} // verus!
