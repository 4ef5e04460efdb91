//! Feed algorithms: which names are served, and the page that each returns.

use vstd::prelude::*;

use crate::cursor::{cursor_text, decode_cursor, encode_cursor, lemma_cursor_round_trip, parse_cursor};
use crate::models::posts::{
    lemma_first_after, newest, newest_after, point_precedes, posts_view,
    posts_wf, precedes, Post, PostTable, PostView,
};
use crate::text::{lemma_str_lt_irreflexive, lemma_str_lt_total};

verus! {

/// The names of the served feeds.
pub open spec fn algorithm_names() -> Seq<Seq<char>> {
    seq!["music"@, "spotify"@]
}

/// The names of the served feeds.
pub fn list() -> (r: Vec<&'static str>)
    ensures
        r@.len() == algorithm_names().len(),
        forall|i: int| 0 <= i < r@.len() ==> (#[trigger] r@[i])@ == algorithm_names()[i],
{
    let mut r: Vec<&'static str> = Vec::new();
    r.push("music");
    r.push("spotify");
    r
}

/// The query of a feed page.
#[derive(Debug, Clone)]
pub struct FeedParams {
    /// The `at://` uri of the feed generator record.
    pub feed: String,
    /// Where the previous page ended.
    pub cursor: Option<String>,
    /// How many posts to return; 20 when absent.
    pub limit: Option<u8>,
}

/// One page of a feed.
#[derive(Debug, Clone)]
pub struct FeedOutput {
    /// Where the next page starts; absent once the posts run out.
    pub cursor: Option<String>,
    /// The uris of the page's posts, in feed order.
    pub feed: Vec<String>,
}

/// Why a feed request is refused.
#[derive(Debug, Clone, Copy, PartialEq, Eq, Structural)]
pub enum FeedError {
    /// The feed uri does not parse.
    UnparsableFeed,
    /// The feed names no algorithm of this service.
    UnsupportedAlgorithm,
    /// The limit is not between 1 and 100.
    InvalidLimit,
}

impl FeedError {
    /// A human-readable description of the error.
    pub fn message(&self) -> (r: &'static str)
        ensures
            r@ == match self {
                FeedError::UnparsableFeed => "Could not parse feed"@,
                FeedError::UnsupportedAlgorithm => "Usupported algorithm"@,
                FeedError::InvalidLimit => "Limit must be between 1 and 100"@,
            },
    {
        match self {
            FeedError::UnparsableFeed => "Could not parse feed",
            FeedError::UnsupportedAlgorithm => "Usupported algorithm",
            FeedError::InvalidLimit => "Limit must be between 1 and 100",
        }
    }
}

/// The page size asked for: 20 when absent.
pub open spec fn page_limit(limit: Option<u8>) -> int {
    match limit {
        Some(l) => l as int,
        None => 20,
    }
}

/// A limit is acceptable when absent or between 1 and 100.
pub open spec fn limit_ok(limit: Option<u8>) -> bool {
    match limit {
        Some(l) => 1 <= l <= 100,
        None => true,
    }
}

/// The view of an optional cursor.
pub open spec fn cursor_view(cursor: Option<String>) -> Option<Seq<char>> {
    match cursor {
        Some(c) => Some(c@),
        None => None,
    }
}

/// The posts of a page: the newest `limit`, or, when the cursor reads as a
/// point, the newest `limit` that come after that point in feed order. An
/// unreadable cursor counts as none.
pub open spec fn page_for(posts: Seq<PostView>, cursor: Option<Seq<char>>, limit: int) -> Seq<PostView> {
    match cursor {
        Some(c) => match parse_cursor(c) {
            Some((t, u)) => newest_after(posts, limit, t, u),
            None => newest(posts, limit),
        },
        None => newest(posts, limit),
    }
}

/// The posts of the page that a query asks for.
pub open spec fn page_posts(posts: Seq<PostView>, params: FeedParams) -> Seq<PostView> {
    page_for(posts, cursor_view(params.cursor), page_limit(params.limit))
}

/// The next cursor of a page: the point of its last post (its time, then its
/// uri) when the page is full, absent when it is shorter than the limit.
pub open spec fn next_cursor(page: Seq<PostView>, limit: int) -> Option<Seq<char>> {
    if page.len() > 0 && page.len() == limit {
        Some(cursor_text(page.last().indexed_at, page.last().uri))
    } else {
        None
    }
}

/// The view of a page's next cursor.
pub open spec fn output_cursor(out: FeedOutput) -> Option<Seq<char>> {
    match out.cursor {
        Some(c) => Some(c@),
        None => None,
    }
}

/// The page is `page`: its uris in order, and its next cursor.
pub open spec fn output_is(out: FeedOutput, page: Seq<PostView>, limit: int) -> bool {
    &&& out.feed@.len() == page.len()
    &&& forall|i: int| 0 <= i < page.len() ==> (#[trigger] out.feed@[i])@ == page[i].uri
    &&& output_cursor(out) == next_cursor(page, limit)
}

/// The music feed's page for a query whose limit is acceptable.
pub fn music(posts: &PostTable, params: &FeedParams) -> (r: FeedOutput)
    requires
        limit_ok(params.limit),
    ensures
        output_is(r, page_posts(posts@, *params), page_limit(params.limit)),
{
    let limit: u8 = match params.limit {
        Some(l) => l,
        None => 20,
    };
    let point = match &params.cursor {
        Some(c) => decode_cursor(c.as_str()),
        None => None,
    };
    let page = match point {
        Some((t, u)) => Post::get_all_before(posts, limit, t, u.as_str()),
        None => Post::get_all(posts, limit),
    };
    let ghost pv = posts_view(page@);
    assert(pv == page_posts(posts@, *params));
    let mut feed: Vec<String> = Vec::new();
    let mut i: usize = 0;
    while i < page.len()
        invariant
            i <= page@.len(),
            pv == posts_view(page@),
            feed@.len() == i,
            forall|j: int| 0 <= j < i ==> (#[trigger] feed@[j])@ == pv[j].uri,
        decreases page@.len() - i,
    {
        feed.push(page[i].uri.clone());
        i += 1;
    }
    let n = page.len();
    let cursor = if n > 0 && n == limit as usize {
        assert(pv.last() == page@[n - 1]@);
        Some(encode_cursor(page[n - 1].indexed_at, page[n - 1].uri.as_str()))
    } else {
        None
    };
    FeedOutput { cursor, feed }
}

/// Whether a name is one of the served feeds.
pub fn is_algorithm(name: &str) -> (r: bool)
    ensures
        r == algorithm_names().contains(name@),
{
    let names = list();
    let target = String::from_str(name);
    let mut i: usize = 0;
    while i < names.len()
        invariant
            i <= names@.len(),
            names@.len() == algorithm_names().len(),
            forall|j: int| 0 <= j < names@.len() ==> (#[trigger] names@[j])@ == algorithm_names()[j],
            forall|j: int| 0 <= j < i ==> algorithm_names()[j] != name@,
            target@ == name@,
        decreases names@.len() - i,
    {
        if String::from_str(names[i]) == target {
            assert(algorithm_names()[i as int] == name@);
            return true;
        }
        i += 1;
    }
    assert(!algorithm_names().contains(name@));
    false
}

/// What a feed request returns: the page of the named feed, or the reason
/// it is refused.
pub open spec fn feed_result(name: Seq<char>, posts: Seq<PostView>, params: FeedParams) -> Result<Seq<PostView>, FeedError> {
    if !algorithm_names().contains(name) {
        Err(FeedError::UnsupportedAlgorithm)
    } else if !limit_ok(params.limit) {
        Err(FeedError::InvalidLimit)
    } else {
        Ok(page_posts(posts, params))
    }
}

/// The result matches `feed_result`: the same error, or the same page.
pub open spec fn feed_outcome(r: Result<FeedOutput, FeedError>, expected: Result<Seq<PostView>, FeedError>, limit: Option<u8>) -> bool {
    match (r, expected) {
        (Ok(out), Ok(page)) => output_is(out, page, page_limit(limit)),
        (Err(e), Err(f)) => e == f,
        _ => false,
    }
}

/// The page of the feed called `name`.
pub fn feed(name: &str, posts: &PostTable, params: &FeedParams) -> (r: Result<FeedOutput, FeedError>)
    ensures
        feed_outcome(r, feed_result(name@, posts@, *params), params.limit),
{
    if !is_algorithm(name) {
        return Err(FeedError::UnsupportedAlgorithm);
    }
    match params.limit {
        Some(l) => {
            if l < 1 || l > 100 {
                return Err(FeedError::InvalidLimit);
            }
        },
        None => {},
    }
    Ok(music(posts, params))
}

/// The run of at most `limit` posts of the table from index `k` on.
pub open spec fn run(posts: Seq<PostView>, k: int, limit: int) -> Seq<PostView> {
    newest(posts.skip(k), limit)
}

/// The posts that following the cursors yields, page after page, from the
/// page of `cursor` on, for at most `fuel` more pages.
pub open spec fn walk(posts: Seq<PostView>, limit: int, cursor: Option<Seq<char>>, fuel: nat) -> Seq<PostView>
    decreases fuel,
{
    let page = page_for(posts, cursor, limit);
    match next_cursor(page, limit) {
        Some(c) => if fuel > 0 {
            page + walk(posts, limit, Some(c), (fuel - 1) as nat)
        } else {
            page
        },
        None => page,
    }
}

/// The page after a full run is the run that follows it: the cursor of the
/// run's last post leads exactly past that post, even when other posts share
/// its time.
pub proof fn lemma_next_page(posts: Seq<PostView>, k: int, limit: int)
    requires
        posts_wf(posts),
        1 <= limit,
        0 <= k,
        k + limit <= posts.len(),
    ensures
        next_cursor(run(posts, k, limit), limit) is Some,
        page_for(posts, next_cursor(run(posts, k, limit), limit), limit) == run(posts, k + limit, limit),
{
    let page = run(posts, k, limit);
    assert(page =~= posts.subrange(k, k + limit));
    let last = posts[k + limit - 1];
    assert(page.last() == last);
    lemma_cursor_round_trip(last.indexed_at, last.uri);
    assert forall|j: int| 0 <= j < k + limit implies !point_precedes(last.indexed_at, last.uri, posts[j]) by {
        if j < k + limit - 1 {
            assert(precedes(posts[j], posts[k + limit - 1]));
            lemma_str_lt_total(posts[j].uri, last.uri);
        } else {
            lemma_str_lt_irreflexive(last.uri);
        }
    }
    if k + limit < posts.len() {
        assert(precedes(posts[k + limit - 1], posts[k + limit]));
    }
    lemma_first_after(posts, last.indexed_at, last.uri, k + limit);
}

/// Following the cursors from the page of `cursor`, which is the run from
/// `k`, yields every post from `k` on, in feed order.
proof fn lemma_walk_from(posts: Seq<PostView>, limit: int, cursor: Option<Seq<char>>, k: int, fuel: nat)
    requires
        posts_wf(posts),
        1 <= limit,
        0 <= k <= posts.len(),
        fuel >= posts.len() - k,
        page_for(posts, cursor, limit) == run(posts, k, limit),
    ensures
        walk(posts, limit, cursor, fuel) == posts.skip(k),
    decreases posts.len() - k,
{
    let page = run(posts, k, limit);
    if k + limit <= posts.len() {
        lemma_next_page(posts, k, limit);
        let c = next_cursor(page, limit);
        lemma_walk_from(posts, limit, c, k + limit, (fuel - 1) as nat);
        assert(page =~= posts.subrange(k, k + limit));
        assert(posts.skip(k) =~= page + posts.skip(k + limit));
    } else {
        assert(page =~= posts.skip(k));
    }
}

/// Paging through the feed from the first page, and on with each returned
/// cursor, yields every post of the table exactly once, in feed order.
pub proof fn lemma_pages_cover_feed(posts: Seq<PostView>, limit: int)
    requires
        posts_wf(posts),
        1 <= limit,
    ensures
        walk(posts, limit, None, posts.len()) == posts,
{
    assert(posts.skip(0) =~= posts);
    lemma_walk_from(posts, limit, None, 0, posts.len());
}

} // verus!
