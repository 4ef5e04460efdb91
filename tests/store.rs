use music_feed::algos::{feed, list, FeedError, FeedParams};
use music_feed::link_finder::{Kind, Link as FoundLink, Site};
use music_feed::models::links::{Link, LinkTable};
use music_feed::models::posts::{Post, PostTable};
use music_feed::server::{describe_feed_generator, get_feed_skeleton, service_endpoint, Config};

fn found(url: &str, kind: Kind, site: Site) -> FoundLink {
    FoundLink { link: url.to_string(), kind, site }
}

fn count_of(table: &LinkTable, url: &str) -> i64 {
    table.rows.iter().filter(|l| l.url == url).map(|l| l.count).sum()
}

#[test]
fn test_count_defaults_to_1() {
    let mut table = LinkTable::new();

    Link::create(&mut table, &found("test", Kind::Track, Site::Bandcamp), 1);

    assert_eq!(1, table.rows[0].count);
}

#[test]
fn test_count_increases_if_duplicate_url() {
    let mut table = LinkTable::new();

    Link::create(&mut table, &found("test", Kind::Track, Site::Bandcamp), 1);
    Link::create(&mut table, &found("test", Kind::Album, Site::Spotify), 2);

    assert_eq!(2, count_of(&table, "test"));
}

#[test]
fn test_count_doesnt_increase_if_url_is_different() {
    let mut table = LinkTable::new();

    Link::create(&mut table, &found("test", Kind::Track, Site::Bandcamp), 1);
    Link::create(&mut table, &found("other", Kind::Track, Site::Bandcamp), 2);

    assert_eq!(1, count_of(&table, "test"));
}

#[test]
fn first_sighting_decides_kind_and_site() {
    let mut table = LinkTable::new();
    Link::create(&mut table, &found("u", Kind::Track, Site::Spotify), 5);
    Link::create(&mut table, &found("u", Kind::Album, Site::Bandcamp), 9);
    assert_eq!(1, table.len());
    assert_eq!("u", table.rows[0].url);
    assert_eq!(2, table.rows[0].count);
    assert_eq!(Kind::Track, table.rows[0].kind);
    assert_eq!(Site::Spotify, table.rows[0].site);
    assert_eq!(5, table.rows[0].created_at);
}

#[test]
fn storing_a_post_twice_keeps_the_first() {
    let mut table = PostTable::new();
    Post::create(&mut table, "at://a", "cid1".to_string(), 1);
    Post::create(&mut table, "at://a", "cid2".to_string(), 2);
    assert_eq!(1, table.len());
    assert_eq!("cid1", table.rows[0].cid);
    assert_eq!(1, table.rows[0].indexed_at);
    Post::delete(&mut table, "at://a");
    assert_eq!(0, table.len());
    Post::delete(&mut table, "at://a");
    assert_eq!(0, table.len());
}

#[test]
fn posts_are_kept_newest_first_then_by_uri() {
    let mut table = PostTable::new();
    Post::create(&mut table, "at://b", "c".to_string(), 5);
    Post::create(&mut table, "at://a", "c".to_string(), 7);
    Post::create(&mut table, "at://c", "c".to_string(), 5);
    Post::create(&mut table, "at://d", "c".to_string(), 1);
    let uris: Vec<String> = Post::get_all(&table, 10).into_iter().map(|p| p.uri).collect();
    assert_eq!(vec!["at://a", "at://c", "at://b", "at://d"], uris);
    let older: Vec<String> = Post::get_all_where_time_under(&table, 10, 5).into_iter().map(|p| p.uri).collect();
    assert_eq!(vec!["at://d"], older);
    assert_eq!(2, Post::get_all(&table, 2).len());
}

fn config() -> Config {
    Config {
        service_did: "did:web:feed.example".to_string(),
        publisher_did: "did:plc:publisher".to_string(),
        hostname: "feed.example".to_string(),
    }
}

fn params(feed: &str, cursor: Option<&str>, limit: Option<u8>) -> FeedParams {
    FeedParams { feed: feed.to_string(), cursor: cursor.map(|c| c.to_string()), limit }
}

#[test]
fn pages_follow_the_cursor() {
    let mut table = PostTable::new();
    Post::create(&mut table, "at://p1", "c1".to_string(), 1);
    Post::create(&mut table, "at://p3", "c3".to_string(), 3);
    Post::create(&mut table, "at://p2", "c2".to_string(), 2);
    let uri = "at://did:plc:publisher/app.bsky.feed.generator/music";

    let first = get_feed_skeleton(&config(), &table, &params(uri, None, Some(2))).unwrap();
    assert_eq!(vec!["at://p3", "at://p2"], first.feed);
    assert_eq!(Some("2::at://p2".to_string()), first.cursor);
    assert!(first.cursor.as_deref().unwrap().starts_with("2::"));

    let second = get_feed_skeleton(&config(), &table, &params(uri, first.cursor.as_deref(), Some(2))).unwrap();
    assert_eq!(vec!["at://p1"], second.feed);
    assert_eq!(None, second.cursor);

    let third = get_feed_skeleton(&config(), &table, &params(uri, Some("1::at://p1"), Some(2))).unwrap();
    assert!(third.feed.is_empty());
    assert_eq!(None, third.cursor);
}

#[test]
fn default_limit_is_twenty() {
    let mut table = PostTable::new();
    for i in 0..25 {
        Post::create(&mut table, &format!("at://p{i}"), "c".to_string(), i);
    }
    let out = feed("music", &table, &params("", None, None)).unwrap();
    assert_eq!(20, out.feed.len());
    assert_eq!(Some("5::at://p5".to_string()), out.cursor);
}

#[test]
fn skeleton_requests_are_validated() {
    let table = PostTable::new();
    let err = |feed: &str, limit: Option<u8>| get_feed_skeleton(&config(), &table, &params(feed, None, limit)).unwrap_err();
    assert_eq!(FeedError::UnparsableFeed, err("music", None));
    assert_eq!(FeedError::UnsupportedAlgorithm, err("at://did:plc:other/app.bsky.feed.generator/music", None));
    assert_eq!(FeedError::UnsupportedAlgorithm, err("at://did:plc:publisher/app.bsky.feed.post/music", None));
    assert_eq!(FeedError::UnsupportedAlgorithm, err("at://did:plc:publisher/app.bsky.feed.generator/jazz", None));
    assert_eq!(FeedError::InvalidLimit, err("at://did:plc:publisher/app.bsky.feed.generator/music", Some(0)));
    assert_eq!(FeedError::InvalidLimit, err("at://did:plc:publisher/app.bsky.feed.generator/music", Some(101)));
    assert_eq!("Usupported algorithm", FeedError::UnsupportedAlgorithm.message());
    let ok = get_feed_skeleton(&config(), &table, &params("at://did:plc:publisher/app.bsky.feed.generator/spotify", None, Some(100))).unwrap();
    assert!(ok.feed.is_empty());
    assert_eq!(None, ok.cursor);
}

#[test]
fn described_feeds_and_endpoint() {
    assert_eq!(vec!["music", "spotify"], list());
    assert_eq!(
        vec![
            "at://did:plc:publisher/app.bsky.feed.generator/music",
            "at://did:plc:publisher/app.bsky.feed.generator/spotify",
        ],
        describe_feed_generator(&config())
    );
    assert_eq!("https://feed.example", service_endpoint(&config()));
}

#[test]
fn pages_keep_posts_that_share_a_time() {
    let mut table = PostTable::new();
    Post::create(&mut table, "at://a", "c".to_string(), 5);
    Post::create(&mut table, "at://b", "c".to_string(), 5);
    Post::create(&mut table, "at://c", "c".to_string(), 1);
    let mut seen: Vec<String> = Vec::new();
    let mut cursor: Option<String> = None;
    let mut pages = 0;
    loop {
        let out = feed("music", &table, &params("", cursor.as_deref(), Some(1))).unwrap();
        seen.extend(out.feed);
        pages += 1;
        match out.cursor {
            Some(c) => cursor = Some(c),
            None => break,
        }
        assert!(pages < 10);
    }
    assert_eq!(vec!["at://b", "at://a", "at://c"], seen);

    let before = Post::get_all_before(&table, 10, 5, "at://b");
    assert_eq!(vec!["at://a".to_string(), "at://c".to_string()], before.into_iter().map(|p| p.uri).collect::<Vec<_>>());
    let unreadable = feed("music", &table, &params("", Some("soon"), Some(1))).unwrap();
    assert_eq!(vec!["at://b"], unreadable.feed);
}
