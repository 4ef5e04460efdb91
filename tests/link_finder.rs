use music_feed::link_finder::{get_links, get_music_links, links_from_captures, Kind, Link, Site};

fn matches(result: &Link, link: &str, kind: Kind) -> bool {
    result.link == link && result.kind == kind && result.site == Site::Spotify
}

#[test]
fn test_basic() {
    let links = get_links("https://open.spotify.com/album/someidhere?si=withthetrackingnonsense lsfadlsl https://open.spotify.com/playlist/anotherid?si=morenonsense ljsfaljksadflj https://open.spotify.com/playlist/myplaylistidhere?si=woo&pi=yea ljksasd https://open.spotify.com/track/finallyatrackid?si=yeapppp");

    assert_eq!(4, links.len());

    matches(
        &links[0],
        "https://open.spotify.com/album/someidhere",
        Kind::Album,
    );
    matches(
        &links[1],
        "https://open.spotify.com/playlist/anotherid",
        Kind::Playlist,
    );
    matches(
        &links[2],
        "https://open.spotify.com/playlist/myplaylistidhere",
        Kind::Playlist,
    );
    matches(
        &links[3],
        "https://open.spotify.com/track/finallytrackid",
        Kind::Track,
    );
}

#[test]
fn test_nothing() {
    let links = get_links("nothing to find here");

    assert_eq!(0, links.len());
}

#[test]
fn found_links_strip_query_strings() {
    let links = get_links("https://open.spotify.com/album/someidhere?si=withthetrackingnonsense lsfadlsl https://open.spotify.com/playlist/anotherid?si=morenonsense https://open.spotify.com/track/finallyatrackid?si=yeapppp");
    assert_eq!(3, links.len());
    assert!(matches(&links[0], "https://open.spotify.com/album/someidhere", Kind::Album));
    assert!(matches(&links[1], "https://open.spotify.com/playlist/anotherid", Kind::Playlist));
    assert!(matches(&links[2], "https://open.spotify.com/track/finallyatrackid", Kind::Track));
}

#[test]
fn album_and_track_in_one_text() {
    let links = get_music_links("check https://open.spotify.com/album/abc123?si=xyz and https://open.spotify.com/track/def456");
    assert_eq!(2, links.len());
    assert!(matches(&links[0], "https://open.spotify.com/album/abc123", Kind::Album));
    assert!(matches(&links[1], "https://open.spotify.com/track/def456", Kind::Track));
}

#[test]
fn empty_text_has_no_links() {
    assert!(get_music_links("").is_empty());
    assert!(get_music_links("nothing to find here").is_empty());
}

#[test]
fn other_hosts_are_not_links() {
    assert!(get_links("https://open.example.com/album/abc123").is_empty());
    assert!(get_links("https://open.spotify.com/artist/abc123").is_empty());
}

#[test]
fn duplicate_links_are_each_found() {
    let links = get_links("https://open.spotify.com/track/a1 https://open.spotify.com/track/a1");
    assert_eq!(2, links.len());
    assert_eq!(links[0].link, links[1].link);
}

#[test]
fn captures_become_links_in_order() {
    let captures = vec![
        ("https://x/track/1".to_string(), "track".to_string()),
        ("https://x/video/2".to_string(), "video".to_string()),
        ("https://x/playlist/3".to_string(), "playlist".to_string()),
    ];
    let links = links_from_captures(&captures, Site::Bandcamp);
    assert_eq!(2, links.len());
    assert_eq!("https://x/track/1", links[0].link);
    assert_eq!(Kind::Track, links[0].kind);
    assert_eq!(Site::Bandcamp, links[0].site);
    assert_eq!(Kind::Playlist, links[1].kind);
}
