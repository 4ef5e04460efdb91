//! Applying post notifications to the stored posts and links.

use vstd::prelude::*;

use crate::firehose::handler::{
    commit_outcome, handle_commit, Commit, CommitError, OnPostCreateParams, OnPostDeleteParams, PostEvent,
    PostEventView,
};
use crate::link_finder::{get_music_links, links_view, spotify_links, LinkView};
use crate::models::links::{upsert_link, Link, LinkRow, LinkTable};
use crate::models::posts::{delete_post, upsert_post, Post, PostTable, PostView};

verus! {

/// Everything the ingestion side stores.
pub struct Store {
    pub posts: PostTable,
    pub links: LinkTable,
}

/// The stored state over sequences.
pub struct StoreView {
    pub posts: Seq<PostView>,
    pub links: Seq<LinkRow>,
}

impl View for Store {
    type V = StoreView;

    open spec fn view(&self) -> StoreView {
        StoreView { posts: self.posts@, links: self.links@ }
    }
}

impl Store {
    /// Both tables are well formed.
    pub open spec fn wf(&self) -> bool {
        self.posts.wf() && self.links.wf()
    }

    /// An empty store.
    pub fn new() -> (r: Store)
        ensures
            r.wf(),
            r@.posts.len() == 0,
            r@.links.len() == 0,
    {
        Store { posts: PostTable::new(), links: LinkTable::new() }
    }
}

/// The link table after a sighting of each of the first `n` links, in order.
pub open spec fn record_links(s: Seq<LinkRow>, links: Seq<LinkView>, n: int, now: i64) -> Seq<LinkRow>
    decreases n,
{
    if n <= 0 {
        s
    } else {
        let prev = record_links(s, links, n - 1, now);
        upsert_link(prev, links[n - 1].link, links[n - 1].kind, links[n - 1].site, now)
    }
}

/// The store after a created post whose text holds `links`: nothing when it
/// holds none; else the post is stored and each link sighted.
pub open spec fn post_created(s: StoreView, uri: Seq<char>, cid: Seq<char>, links: Seq<LinkView>, now: i64) -> StoreView {
    if links.len() == 0 {
        s
    } else {
        StoreView {
            posts: upsert_post(s.posts, uri, cid, now),
            links: record_links(s.links, links, links.len() as int, now),
        }
    }
}

/// The store after one notification.
pub open spec fn apply_event_spec(s: StoreView, ev: PostEventView, now: i64) -> StoreView {
    match ev {
        PostEventView::Create { uri, cid_text, text, .. } => post_created(s, uri, cid_text, spotify_links(text), now),
        PostEventView::Delete { uri, .. } => StoreView { posts: delete_post(s.posts, uri), links: s.links },
    }
}

/// The store after the first `n` notifications, in order.
pub open spec fn apply_events_spec(s: StoreView, evs: Seq<PostEventView>, n: int, now: i64) -> StoreView
    decreases n,
{
    if n <= 0 {
        s
    } else {
        apply_event_spec(apply_events_spec(s, evs, n - 1, now), evs[n - 1], now)
    }
}

/// The store after a commit: unchanged when the commit fails.
pub open spec fn commit_applied(s: StoreView, commit: Commit, now: i64) -> StoreView {
    match commit_outcome(commit) {
        Ok(evs) => apply_events_spec(s, evs, evs.len() as int, now),
        Err(_) => s,
    }
}

/// Stores a created post and its links, when its text holds any.
pub fn on_post_create(store: &mut Store, params: &OnPostCreateParams, now: i64)
    requires
        old(store).wf(),
    ensures
        final(store).wf(),
        final(store)@ == post_created(
            old(store)@,
            params.uri@,
            params.cid.text@,
            spotify_links(params.record.text@),
            now,
        ),
{
    let links = get_music_links(params.record.text.as_str());
    let ghost lv = links_view(links@);
    if links.len() == 0 {
        return;
    }
    Post::create(&mut store.posts, params.uri.as_str(), params.cid.text.clone(), now);
    let ghost start = store.links@;
    let mut i: usize = 0;
    while i < links.len()
        invariant
            store.posts.wf(),
            store.links.wf(),
            lv == links_view(links@),
            i <= links@.len(),
            store.posts@ == upsert_post(old(store)@.posts, params.uri@, params.cid.text@, now),
            start == old(store)@.links,
            store.links@ == record_links(start, lv, i as int, now),
        decreases links@.len() - i,
    {
        Link::create(&mut store.links, &links[i], now);
        i += 1;
    }
}

/// Deletes a post; its links stay.
pub fn on_post_delete(store: &mut Store, params: &OnPostDeleteParams)
    requires
        old(store).wf(),
    ensures
        final(store).wf(),
        final(store)@ == (StoreView { posts: delete_post(old(store)@.posts, params.uri@), links: old(store)@.links }),
{
    Post::delete(&mut store.posts, params.uri.as_str());
}

/// Applies one notification.
pub fn apply_event(store: &mut Store, event: &PostEvent, now: i64)
    requires
        old(store).wf(),
    ensures
        final(store).wf(),
        final(store)@ == apply_event_spec(old(store)@, event@, now),
{
    match event {
        PostEvent::Create(p) => on_post_create(store, p, now),
        PostEvent::Delete(p) => on_post_delete(store, p),
    }
}

/// Processes a commit and applies its notifications in order; a commit that
/// fails changes nothing and its error is returned.
pub fn process_commit(store: &mut Store, commit: &Commit, now: i64) -> (r: Result<(), CommitError>)
    requires
        old(store).wf(),
    ensures
        final(store).wf(),
        final(store)@ == commit_applied(old(store)@, *commit, now),
        r is Err <==> commit_outcome(*commit) is Err,
        match (r, commit_outcome(*commit)) {
            (Err(e), Err(f)) => e == f,
            _ => true,
        },
{
    let events = match handle_commit(commit) {
        Err(e) => return Err(e),
        Ok(events) => events,
    };
    let ghost evs = crate::firehose::handler::events_view(events@);
    let ghost s0 = store@;
    let mut i: usize = 0;
    while i < events.len()
        invariant
            store.wf(),
            i <= events@.len(),
            evs == crate::firehose::handler::events_view(events@),
            commit_outcome(*commit) == Ok::<Seq<PostEventView>, CommitError>(evs),
            s0 == old(store)@,
            store@ == apply_events_spec(s0, evs, i as int, now),
        decreases events@.len() - i,
    {
        apply_event(store, &events[i], now);
        i += 1;
    }
    Ok(())
}

/// The uri that a notification is about.
pub open spec fn event_uri(ev: PostEventView) -> Seq<char> {
    match ev {
        PostEventView::Create { uri, .. } => uri,
        PostEventView::Delete { uri, .. } => uri,
    }
}

/// The links found in a created post's text; none for a deletion.
pub open spec fn event_links(ev: PostEventView) -> Seq<LinkView> {
    match ev {
        PostEventView::Create { text, .. } => spotify_links(text),
        PostEventView::Delete { .. } => Seq::empty(),
    }
}

/// Into an empty store, a commit that creates one post whose text holds one
/// link stores exactly that post and that link; a later commit that deletes
/// the same uri removes the post and leaves the link.
pub proof fn lemma_create_then_delete(create: Commit, delete: Commit, now1: i64, now2: i64)
    requires
        commit_outcome(create) is Ok,
        commit_outcome(create)->Ok_0.len() == 1,
        commit_outcome(create)->Ok_0[0] is Create,
        event_links(commit_outcome(create)->Ok_0[0]).len() == 1,
        commit_outcome(delete) is Ok,
        commit_outcome(delete)->Ok_0.len() == 1,
        commit_outcome(delete)->Ok_0[0] is Delete,
        event_uri(commit_outcome(delete)->Ok_0[0]) == event_uri(commit_outcome(create)->Ok_0[0]),
    ensures
        ({
            let empty = StoreView { posts: Seq::empty(), links: Seq::empty() };
            let uri = event_uri(commit_outcome(create)->Ok_0[0]);
            let link = event_links(commit_outcome(create)->Ok_0[0])[0];
            let s1 = commit_applied(empty, create, now1);
            let s2 = commit_applied(s1, delete, now2);
            &&& s1.posts.len() == 1
            &&& s1.posts[0].uri == uri
            &&& s1.links.len() == 1
            &&& s1.links[0].url == link.link
            &&& s1.links[0].count == 1
            &&& s2.posts.len() == 0
            &&& s2.links == s1.links
        }),
{
    let empty = StoreView { posts: Seq::<PostView>::empty(), links: Seq::<LinkRow>::empty() };
    let ev1 = commit_outcome(create)->Ok_0[0];
    let ev2 = commit_outcome(delete)->Ok_0[0];
    let links = event_links(ev1);
    assert(apply_events_spec(empty, commit_outcome(create)->Ok_0, 0, now1) == empty);
    let s1 = commit_applied(empty, create, now1);
    assert(s1 == apply_event_spec(empty, ev1, now1));
    assert(record_links(empty.links, links, 0, now1) == empty.links);
    assert(s1.links.len() == 1);
    assert(s1.posts.len() == 1);
    assert(apply_events_spec(s1, commit_outcome(delete)->Ok_0, 0, now2) == s1);
    let s2 = commit_applied(s1, delete, now2);
    assert(s2 == apply_event_spec(s1, ev2, now2));
}

} // verus!
