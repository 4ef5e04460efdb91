//! The table of matched posts, kept in feed order: newest first, ties broken
//! by uri, descending.

use vstd::prelude::*;
use vstd::string::*;

use crate::text::{lemma_str_lt_total, lemma_str_lt_transitive, str_less, str_lt};

verus! {

/// A stored post.
#[derive(Debug, Clone)]
pub struct Post {
    /// The full uri, e.g. `at://did:plc:asdfghjkl/app.bsky.feed.post/qwertyuiop`.
    pub uri: String,
    /// The record's content id, in text form.
    pub cid: String,
    /// When the post was indexed, in microseconds since the Unix epoch.
    pub indexed_at: i64,
}

/// A stored post over character sequences.
pub struct PostView {
    pub uri: Seq<char>,
    pub cid: Seq<char>,
    pub indexed_at: i64,
}

impl View for Post {
    type V = PostView;

    open spec fn view(&self) -> PostView {
        PostView { uri: self.uri@, cid: self.cid@, indexed_at: self.indexed_at }
    }
}

/// The views of a sequence of posts.
pub open spec fn posts_view(s: Seq<Post>) -> Seq<PostView> {
    s.map_values(|p: Post| p@)
}

/// `a` comes before `b` in feed order: it is newer, or as new with a greater uri.
pub open spec fn precedes(a: PostView, b: PostView) -> bool {
    a.indexed_at > b.indexed_at || (a.indexed_at == b.indexed_at && str_lt(b.uri, a.uri))
}

/// Every post comes before the ones after it.
pub open spec fn feed_ordered(s: Seq<PostView>) -> bool {
    forall|i: int, j: int| 0 <= i < j < s.len() ==> precedes(#[trigger] s[i], #[trigger] s[j])
}

/// No two posts share a uri.
pub open spec fn uris_unique(s: Seq<PostView>) -> bool {
    forall|i: int, j: int|
        0 <= i < s.len() && 0 <= j < s.len() && i != j ==> #[trigger] s[i].uri != #[trigger] s[j].uri
}

/// Index of the post with this uri, or the length when there is none.
pub open spec fn uri_index(s: Seq<PostView>, uri: Seq<char>) -> int
    decreases s.len(),
{
    if s.len() == 0 {
        0
    } else if s[0].uri == uri {
        0
    } else {
        1 + uri_index(s.drop_first(), uri)
    }
}

/// Where a new post goes: before the first post that does not precede it.
pub open spec fn insert_index(s: Seq<PostView>, p: PostView) -> int
    decreases s.len(),
{
    if s.len() == 0 {
        0
    } else if !precedes(s[0], p) {
        0
    } else {
        1 + insert_index(s.drop_first(), p)
    }
}

/// Index of the first post indexed before `time`, or the length when there is none.
pub open spec fn first_older(s: Seq<PostView>, time: i64) -> int
    decreases s.len(),
{
    if s.len() == 0 {
        0
    } else if s[0].indexed_at < time {
        0
    } else {
        1 + first_older(s.drop_first(), time)
    }
}

/// The feed-order point `(time, uri)` comes before the post `p`: `p` is
/// older, or as old with a smaller uri.
pub open spec fn point_precedes(time: i64, uri: Seq<char>, p: PostView) -> bool {
    time > p.indexed_at || (time == p.indexed_at && str_lt(p.uri, uri))
}

/// Index of the first post that the point `(time, uri)` comes before, or the
/// length when there is none.
pub open spec fn first_after(s: Seq<PostView>, time: i64, uri: Seq<char>) -> int
    decreases s.len(),
{
    if s.len() == 0 {
        0
    } else if point_precedes(time, uri, s[0]) {
        0
    } else {
        1 + first_after(s.drop_first(), time, uri)
    }
}

/// The first `limit` posts, in feed order, of those that come after the
/// point `(time, uri)`.
pub open spec fn newest_after(s: Seq<PostView>, limit: int, time: i64, uri: Seq<char>) -> Seq<PostView> {
    newest(s.skip(first_after(s, time, uri)), limit)
}

/// The table after storing a post: unchanged when its uri is already there
/// (the first write wins), else with the post in its place in feed order.
pub open spec fn upsert_post(s: Seq<PostView>, uri: Seq<char>, cid: Seq<char>, now: i64) -> Seq<PostView> {
    if uri_index(s, uri) < s.len() {
        s
    } else {
        let p = PostView { uri, cid, indexed_at: now };
        s.insert(insert_index(s, p), p)
    }
}

/// The table after deleting the post with this uri, if there is one.
pub open spec fn delete_post(s: Seq<PostView>, uri: Seq<char>) -> Seq<PostView> {
    let k = uri_index(s, uri);
    if k < s.len() {
        s.remove(k)
    } else {
        s
    }
}

/// The first `limit` posts in feed order.
pub open spec fn newest(s: Seq<PostView>, limit: int) -> Seq<PostView> {
    if limit < s.len() {
        s.take(limit)
    } else {
        s
    }
}

/// The first `limit` posts, in feed order, of those indexed before `time`.
pub open spec fn newest_before(s: Seq<PostView>, limit: int, time: i64) -> Seq<PostView> {
    newest(s.skip(first_older(s, time)), limit)
}

/// The stored posts, in feed order.
pub struct PostTable {
    pub rows: Vec<Post>,
}

impl View for PostTable {
    type V = Seq<PostView>;

    open spec fn view(&self) -> Seq<PostView> {
        posts_view(self.rows@)
    }
}

/// The rows are in feed order and their uris are unique.
pub open spec fn posts_wf(s: Seq<PostView>) -> bool {
    feed_ordered(s) && uris_unique(s)
}

impl PostTable {
    /// The rows are in feed order and their uris are unique.
    pub open spec fn wf(&self) -> bool {
        posts_wf(self@)
    }

    /// An empty table.
    pub fn new() -> (r: PostTable)
        ensures
            r.wf(),
            r@ == Seq::<PostView>::empty(),
    {
        let r = PostTable { rows: Vec::new() };
        assert(r@ =~= Seq::<PostView>::empty());
        r
    }

    /// The number of stored posts.
    pub fn len(&self) -> (r: usize)
        ensures
            r == self@.len(),
    {
        self.rows.len()
    }
}

proof fn lemma_uri_index(s: Seq<PostView>, uri: Seq<char>, k: int)
    requires
        0 <= k <= s.len(),
        forall|j: int| 0 <= j < k ==> s[j].uri != uri,
        k < s.len() ==> s[k].uri == uri,
    ensures
        uri_index(s, uri) == k,
    decreases k,
{
    if s.len() > 0 && k > 0 {
        assert forall|j: int| 0 <= j < k - 1 implies s.drop_first()[j].uri != uri by {
            assert(s.drop_first()[j] == s[j + 1]);
        }
        lemma_uri_index(s.drop_first(), uri, k - 1);
    }
}

proof fn lemma_insert_index(s: Seq<PostView>, p: PostView, k: int)
    requires
        0 <= k <= s.len(),
        forall|j: int| 0 <= j < k ==> precedes(s[j], p),
        k < s.len() ==> !precedes(s[k], p),
    ensures
        insert_index(s, p) == k,
    decreases k,
{
    if s.len() > 0 && k > 0 {
        assert forall|j: int| 0 <= j < k - 1 implies precedes(s.drop_first()[j], p) by {
            assert(s.drop_first()[j] == s[j + 1]);
        }
        lemma_insert_index(s.drop_first(), p, k - 1);
    }
}

proof fn lemma_first_older(s: Seq<PostView>, time: i64, k: int)
    requires
        0 <= k <= s.len(),
        forall|j: int| 0 <= j < k ==> s[j].indexed_at >= time,
        k < s.len() ==> s[k].indexed_at < time,
    ensures
        first_older(s, time) == k,
    decreases k,
{
    if s.len() > 0 && k > 0 {
        assert forall|j: int| 0 <= j < k - 1 implies s.drop_first()[j].indexed_at >= time by {
            assert(s.drop_first()[j] == s[j + 1]);
        }
        lemma_first_older(s.drop_first(), time, k - 1);
    }
}

/// `k` is the first post that the point comes before.
pub proof fn lemma_first_after(s: Seq<PostView>, time: i64, uri: Seq<char>, k: int)
    requires
        0 <= k <= s.len(),
        forall|j: int| 0 <= j < k ==> !point_precedes(time, uri, s[j]),
        k < s.len() ==> point_precedes(time, uri, s[k]),
    ensures
        first_after(s, time, uri) == k,
    decreases k,
{
    if s.len() > 0 && k > 0 {
        assert forall|j: int| 0 <= j < k - 1 implies !point_precedes(time, uri, s.drop_first()[j]) by {
            assert(s.drop_first()[j] == s[j + 1]);
        }
        lemma_first_after(s.drop_first(), time, uri, k - 1);
    }
}

/// Feed order is transitive.
proof fn lemma_precedes_transitive(a: PostView, b: PostView, c: PostView)
    requires
        precedes(a, b),
        precedes(b, c),
    ensures
        precedes(a, c),
{
    if a.indexed_at == b.indexed_at && b.indexed_at == c.indexed_at {
        lemma_str_lt_transitive(c.uri, b.uri, a.uri);
    }
}

/// Of two posts with distinct uris, one precedes the other.
proof fn lemma_precedes_total(a: PostView, b: PostView)
    requires
        a.uri != b.uri,
    ensures
        precedes(a, b) || precedes(b, a),
{
    lemma_str_lt_total(a.uri, b.uri);
}

/// Storing a post keeps the table well formed.
proof fn lemma_upsert_wf(s: Seq<PostView>, uri: Seq<char>, cid: Seq<char>, now: i64)
    requires
        posts_wf(s),
    ensures
        posts_wf(upsert_post(s, uri, cid, now)),
{
    if uri_index(s, uri) >= s.len() {
        let p = PostView { uri, cid, indexed_at: now };
        let i = insert_index(s, p);
        lemma_insert_index_bounds(s, p);
        lemma_uri_absent(s, uri);
        let t = s.insert(i, p);
        assert forall|j: int| 0 <= j < i implies precedes(s[j], p) by {
            lemma_insert_index_prefix(s, p, j);
        }
        assert forall|j: int| i <= j < s.len() implies precedes(p, s[j]) by {
            lemma_insert_index_at(s, p);
            lemma_precedes_total(p, s[i]);
            if j > i {
                lemma_precedes_transitive(p, s[i], s[j]);
            }
        }
        assert forall|a: int, b: int| 0 <= a < b < t.len() implies precedes(#[trigger] t[a], #[trigger] t[b]) by {
            if b < i {
            } else if b == i {
            } else if a < i {
                lemma_precedes_transitive(s[a], p, s[b - 1]);
            } else if a == i {
            } else {
            }
        }
    }
}

proof fn lemma_insert_index_bounds(s: Seq<PostView>, p: PostView)
    ensures
        0 <= insert_index(s, p) <= s.len(),
    decreases s.len(),
{
    if s.len() > 0 {
        lemma_insert_index_bounds(s.drop_first(), p);
    }
}

proof fn lemma_insert_index_prefix(s: Seq<PostView>, p: PostView, j: int)
    requires
        0 <= j < insert_index(s, p),
        insert_index(s, p) <= s.len(),
    ensures
        precedes(s[j], p),
    decreases s.len(),
{
    if j > 0 {
        lemma_insert_index_bounds(s.drop_first(), p);
        lemma_insert_index_prefix(s.drop_first(), p, j - 1);
        assert(s.drop_first()[j - 1] == s[j]);
    }
}

proof fn lemma_insert_index_at(s: Seq<PostView>, p: PostView)
    requires
        insert_index(s, p) < s.len(),
    ensures
        !precedes(s[insert_index(s, p)], p),
    decreases s.len(),
{
    if s.len() > 0 && precedes(s[0], p) {
        let k = insert_index(s.drop_first(), p);
        assert(insert_index(s, p) == k + 1);
        lemma_insert_index_bounds(s.drop_first(), p);
        lemma_insert_index_at(s.drop_first(), p);
        assert(s.drop_first()[k] == s[k + 1]);
    }
}

proof fn lemma_uri_absent(s: Seq<PostView>, uri: Seq<char>)
    requires
        uri_index(s, uri) >= s.len(),
    ensures
        forall|j: int| 0 <= j < s.len() ==> s[j].uri != uri,
    decreases s.len(),
{
    if s.len() > 0 {
        lemma_uri_absent(s.drop_first(), uri);
        assert forall|j: int| 0 <= j < s.len() implies s[j].uri != uri by {
            if j > 0 {
                assert(s.drop_first()[j - 1] == s[j]);
            }
        }
    }
}

/// Deleting a post keeps the table well formed.
proof fn lemma_delete_wf(s: Seq<PostView>, uri: Seq<char>)
    requires
        posts_wf(s),
    ensures
        posts_wf(delete_post(s, uri)),
{
    let k = uri_index(s, uri);
    lemma_uri_index_bounds(s, uri);
    if k < s.len() {
        let t = s.remove(k);
        assert forall|a: int, b: int| 0 <= a < b < t.len() implies precedes(#[trigger] t[a], #[trigger] t[b]) by {
            let a2 = if a < k { a } else { a + 1 };
            let b2 = if b < k { b } else { b + 1 };
            assert(t[a] == s[a2] && t[b] == s[b2]);
        }
        assert forall|a: int, b: int|
            0 <= a < t.len() && 0 <= b < t.len() && a != b implies #[trigger] t[a].uri != #[trigger] t[b].uri by {
            let a2 = if a < k { a } else { a + 1 };
            let b2 = if b < k { b } else { b + 1 };
            assert(t[a] == s[a2] && t[b] == s[b2]);
        }
    }
}

proof fn lemma_uri_index_bounds(s: Seq<PostView>, uri: Seq<char>)
    ensures
        0 <= uri_index(s, uri) <= s.len(),
    decreases s.len(),
{
    if s.len() > 0 {
        lemma_uri_index_bounds(s.drop_first(), uri);
    }
}

/// Position of the row with this uri, or the number of rows.
fn find_uri(rows: &Vec<Post>, uri: &str) -> (r: usize)
    ensures
        r as int == uri_index(posts_view(rows@), uri@),
        r <= rows@.len(),
{
    let ghost v = posts_view(rows@);
    let mut i: usize = 0;
    while i < rows.len()
        invariant
            v == posts_view(rows@),
            v.len() == rows@.len(),
            i <= rows@.len(),
            forall|j: int| 0 <= j < i ==> v[j].uri != uri@,
        decreases rows@.len() - i,
    {
        if rows[i].uri.as_str().unicode_len() == uri.unicode_len() && !str_less(rows[i].uri.as_str(), uri)
            && !str_less(uri, rows[i].uri.as_str()) {
            proof {
                lemma_str_lt_total(rows@[i as int].uri@, uri@);
                lemma_uri_index(v, uri@, i as int);
            }
            return i;
        }
        proof {
            lemma_str_lt_total(rows@[i as int].uri@, uri@);
        }
        i += 1;
    }
    proof {
        lemma_uri_index(v, uri@, i as int);
    }
    i
}

/// Whether `a` comes before `b` in feed order.
fn post_precedes(a: &Post, b: &Post) -> (r: bool)
    ensures
        r == precedes(a@, b@),
{
    a.indexed_at > b.indexed_at || (a.indexed_at == b.indexed_at && str_less(b.uri.as_str(), a.uri.as_str()))
}

/// Whether the point `(time, uri)` comes before `p` in feed order.
fn point_before(time: i64, uri: &str, p: &Post) -> (r: bool)
    ensures
        r == point_precedes(time, uri@, p@),
{
    time > p.indexed_at || (time == p.indexed_at && str_less(p.uri.as_str(), uri))
}

/// A copy of a stored post.
fn copy_post(p: &Post) -> (r: Post)
    ensures
        r@ == p@,
{
    Post { uri: p.uri.clone(), cid: p.cid.clone(), indexed_at: p.indexed_at }
}

/// Copies of the rows from `start`, at most `limit` of them.
fn copy_rows(rows: &Vec<Post>, start: usize, limit: usize) -> (r: Vec<Post>)
    requires
        start <= rows@.len(),
    ensures
        posts_view(r@) == newest(posts_view(rows@).skip(start as int), limit as int),
{
    let ghost src = posts_view(rows@).skip(start as int);
    let end = if limit < rows.len() - start { start + limit } else { rows.len() };
    let mut r: Vec<Post> = Vec::new();
    let mut i: usize = start;
    while i < end
        invariant
            start <= i <= end <= rows@.len(),
            src == posts_view(rows@).skip(start as int),
            posts_view(r@) =~= src.take(i - start),
        decreases end - i,
    {
        let p = copy_post(&rows[i]);
        let ghost before = r@;
        r.push(p);
        assert(posts_view(r@) =~= posts_view(before).push(p@));
        assert(src[i - start] == rows@[i as int]@);
        assert(src.take(i + 1 - start) =~= src.take(i - start).push(src[i - start]));
        i += 1;
    }
    assert(posts_view(r@) =~= newest(src, limit as int));
    r
}

impl Post {
    /// Stores a post indexed at `now`; a post whose uri is already stored is
    /// left as it is.
    pub fn create(table: &mut PostTable, uri: &str, cid: String, now: i64)
        requires
            old(table).wf(),
        ensures
            final(table).wf(),
            final(table)@ == upsert_post(old(table)@, uri@, cid@, now),
    {
        let ghost s = table@;
        proof {
            lemma_upsert_wf(s, uri@, cid@, now);
        }
        let k = find_uri(&table.rows, uri);
        if k < table.rows.len() {
            return;
        }
        let post = Post { uri: String::from_str(uri), cid, indexed_at: now };
        let ghost p = post@;
        let mut i: usize = 0;
        while i < table.rows.len() && post_precedes(&table.rows[i], &post)
            invariant
                s == table@,
                s.len() == table.rows@.len(),
                i <= s.len(),
                forall|j: int| 0 <= j < i ==> precedes(s[j], p),
                p == post@,
            decreases s.len() - i,
        {
            assert(s[i as int] == table.rows@[i as int]@);
            i += 1;
        }
        if i < table.rows.len() {
            assert(s[i as int] == table.rows@[i as int]@);
        }
        proof {
            lemma_insert_index(s, p, i as int);
        }
        table.rows.insert(i, post);
        assert(table@ =~= s.insert(i as int, p));
    }

    /// Deletes the post with this uri; nothing happens when there is none.
    pub fn delete(table: &mut PostTable, uri: &str)
        requires
            old(table).wf(),
        ensures
            final(table).wf(),
            final(table)@ == delete_post(old(table)@, uri@),
    {
        let ghost s = table@;
        proof {
            lemma_delete_wf(s, uri@);
        }
        let k = find_uri(&table.rows, uri);
        if k < table.rows.len() {
            table.rows.remove(k);
            assert(table@ =~= s.remove(k as int));
        }
    }

    /// The newest `limit` posts, in feed order.
    pub fn get_all(table: &PostTable, limit: u8) -> (r: Vec<Post>)
        ensures
            posts_view(r@) == newest(table@, limit as int),
    {
        assert(table@.skip(0) =~= table@);
        copy_rows(&table.rows, 0, limit as usize)
    }

    /// The newest `limit` posts that come after the point `(time, uri)` in
    /// feed order.
    pub fn get_all_before(table: &PostTable, limit: u8, time: i64, uri: &str) -> (r: Vec<Post>)
        ensures
            posts_view(r@) == newest_after(table@, limit as int, time, uri@),
    {
        let ghost v = table@;
        let mut i: usize = 0;
        while i < table.rows.len() && !point_before(time, uri, &table.rows[i])
            invariant
                v == table@,
                v.len() == table.rows@.len(),
                i <= v.len(),
                forall|j: int| 0 <= j < i ==> !point_precedes(time, uri@, v[j]),
            decreases v.len() - i,
        {
            assert(v[i as int] == table.rows@[i as int]@);
            i += 1;
        }
        if i < table.rows.len() {
            assert(v[i as int] == table.rows@[i as int]@);
        }
        proof {
            lemma_first_after(v, time, uri@, i as int);
        }
        copy_rows(&table.rows, i, limit as usize)
    }

    /// The newest `limit` posts indexed before `time`, in feed order.
    pub fn get_all_where_time_under(table: &PostTable, limit: u8, time: i64) -> (r: Vec<Post>)
        ensures
            posts_view(r@) == newest_before(table@, limit as int, time),
    {
        let ghost v = table@;
        let mut i: usize = 0;
        while i < table.rows.len() && table.rows[i].indexed_at >= time
            invariant
                v == table@,
                v.len() == table.rows@.len(),
                i <= v.len(),
                forall|j: int| 0 <= j < i ==> v[j].indexed_at >= time,
            decreases v.len() - i,
        {
            i += 1;
        }
        proof {
            lemma_first_older(v, time, i as int);
        }
        copy_rows(&table.rows, i, limit as usize)
    }
}

} // verus!
