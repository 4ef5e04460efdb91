use music_feed::atproto::{AtUri, AtUriError};
use music_feed::cursor::{decode_cursor, encode_cursor};

#[test]
fn record_uri_splits_into_parts() {
    let uri = AtUri::from_str("at://did:plc:abc/app.bsky.feed.generator/music").ok().unwrap();
    assert_eq!("did:plc:abc", uri.did);
    assert_eq!("app.bsky.feed.generator", uri.collection);
    assert_eq!("music", uri.rkey);
    assert_eq!("at://did:plc:abc/app.bsky.feed.generator/music", uri.to_string());
}

#[test]
fn record_key_keeps_later_slashes() {
    let uri = AtUri::from_str("at://did:plc:abc/coll/a/b").ok().unwrap();
    assert_eq!("coll", uri.collection);
    assert_eq!("a/b", uri.rkey);
}

#[test]
fn record_uri_errors() {
    assert!(matches!(AtUri::from_str("https://did:plc:abc/x/y"), Err(AtUriError::MissingScheme)));
    assert!(matches!(AtUri::from_str("at://did:web:abc/x/y"), Err(AtUriError::NotPlcDid)));
    assert!(matches!(AtUri::from_str("at://did:plc:abc"), Err(AtUriError::MissingPath)));
    assert!(matches!(AtUri::from_str("at://did:plc:abc/x"), Err(AtUriError::MissingPath)));
    assert_eq!("record uri must start with \"at://\"", AtUriError::MissingScheme.message());
}

#[test]
fn cursor_round_trip() {
    assert_eq!("1700000000000000::at://p", encode_cursor(1_700_000_000_000_000, "at://p"));
    assert_eq!("-5::at://did:plc:x/a/b", encode_cursor(-5, "at://did:plc:x/a/b"));
    let (t, u) = decode_cursor(&encode_cursor(-5, "at://did:plc:x/a/b")).unwrap();
    assert_eq!(-5, t);
    assert_eq!("at://did:plc:x/a/b", u);
    let (t, u) = decode_cursor("+7::").unwrap();
    assert_eq!(7, t);
    assert_eq!("", u);
    assert!(decode_cursor("7").is_none());
    assert!(decode_cursor("7:x").is_none());
    assert!(decode_cursor("abc::at://p").is_none());
    assert!(decode_cursor("").is_none());
    assert!(decode_cursor("99999999999999999999::at://p").is_none());
}
