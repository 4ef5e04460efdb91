//! Finding music links in post text.

use vstd::prelude::*;
use vstd::string::*;

verus! {

/// What a music link points at.
#[derive(Debug, Clone, Copy, PartialEq, Eq, Structural)]
pub enum Kind {
    Track,
    Playlist,
    Album,
}

/// The site a music link belongs to.
#[derive(Debug, Clone, Copy, PartialEq, Eq, Structural)]
pub enum Site {
    Spotify,
    Soundclound,
    Bandcamp,
}

/// A link found in a text.
#[derive(Debug, Clone)]
pub struct Link {
    pub link: String,
    pub kind: Kind,
    pub site: Site,
}

/// A found link over character sequences.
pub struct LinkView {
    pub link: Seq<char>,
    pub kind: Kind,
    pub site: Site,
}

impl View for Link {
    type V = LinkView;

    open spec fn view(&self) -> LinkView {
        LinkView { link: self.link@, kind: self.kind, site: self.site }
    }
}

/// The views of a sequence of links.
pub open spec fn links_view(links: Seq<Link>) -> Seq<LinkView> {
    links.map_values(|l: Link| l@)
}

/// The pattern of Spotify links: the item kind is the first group, and the
/// match ends with the item id, before any query string.
pub const SPOTIFY_PATTERN: &'static str = "https?://open\\.spotify\\.com/(album|playlist|track)/([a-zA-Z0-9]+)";

/// What a regular expression finds in a text: for each successive
/// non-overlapping match, leftmost first, the whole match and its first
/// group; `None` when the pattern does not compile.
pub uninterp spec fn regex_captures(pattern: Seq<char>, text: Seq<char>) -> Option<Seq<(Seq<char>, Seq<char>)>>;

/// Relies on regex::Regex::new and regex::Regex::captures_iter: the whole
/// match and the first group of each match, in order.
#[verifier::external_body]
fn find_captures(pattern: &str, text: &str) -> (r: Option<Vec<(String, String)>>)
    ensures
        match r {
            Some(v) => regex_captures(pattern@, text@) == Some(
                v@.map_values(|c: (String, String)| (c.0@, c.1@)),
            ),
            None => regex_captures(pattern@, text@) is None,
        },
{
    let re = regex::Regex::new(pattern).ok()?;
    Some(re.captures_iter(text).map(|c| (
        c.get(0).map_or("", |m| m.as_str()).to_string(),
        c.get(1).map_or("", |m| m.as_str()).to_string(),
    )).collect())
}

/// The kind that an item-kind token names.
pub open spec fn kind_of(token: Seq<char>) -> Option<Kind> {
    if token == "album"@ {
        Some(Kind::Album)
    } else if token == "playlist"@ {
        Some(Kind::Playlist)
    } else if token == "track"@ {
        Some(Kind::Track)
    } else {
        None
    }
}

/// The links that the first `n` captures give: one per capture whose kind
/// token is known, in order.
pub open spec fn captured_links(caps: Seq<(Seq<char>, Seq<char>)>, site: Site, n: int) -> Seq<LinkView>
    decreases n,
{
    if n <= 0 {
        Seq::empty()
    } else {
        let prev = captured_links(caps, site, n - 1);
        match kind_of(caps[n - 1].1) {
            Some(kind) => prev.push(LinkView { link: caps[n - 1].0, kind, site }),
            None => prev,
        }
    }
}

/// The links that the Spotify pattern finds in a text.
pub open spec fn spotify_links(text: Seq<char>) -> Seq<LinkView> {
    match regex_captures(SPOTIFY_PATTERN@, text) {
        Some(caps) => captured_links(caps, Site::Spotify, caps.len() as int),
        None => Seq::empty(),
    }
}

/// The kind that an item-kind token names.
pub fn parse_kind(token: &String) -> (r: Option<Kind>)
    ensures
        r == kind_of(token@),
{
    if *token == String::from_str("album") {
        Some(Kind::Album)
    } else if *token == String::from_str("playlist") {
        Some(Kind::Playlist)
    } else if *token == String::from_str("track") {
        Some(Kind::Track)
    } else {
        None
    }
}

/// Turns pattern captures (whole match, kind token) into links of `site`,
/// in order, skipping a capture whose kind token is unknown.
pub fn links_from_captures(captures: &Vec<(String, String)>, site: Site) -> (r: Vec<Link>)
    ensures
        links_view(r@) == captured_links(
            captures@.map_values(|c: (String, String)| (c.0@, c.1@)),
            site,
            captures@.len() as int,
        ),
{
    let ghost caps = captures@.map_values(|c: (String, String)| (c.0@, c.1@));
    let mut links: Vec<Link> = Vec::new();
    assert(links_view(links@) =~= Seq::<LinkView>::empty());
    let mut i: usize = 0;
    while i < captures.len()
        invariant
            caps == captures@.map_values(|c: (String, String)| (c.0@, c.1@)),
            i <= captures@.len(),
            links_view(links@) == captured_links(caps, site, i as int),
        decreases captures@.len() - i,
    {
        let (full, token) = &captures[i];
        assert(caps[i as int] == (full@, token@));
        match parse_kind(token) {
            Some(kind) => {
                let ghost before = links@;
                links.push(Link { link: full.clone(), kind, site });
                assert(links_view(links@) =~= links_view(before).push(LinkView { link: full@, kind, site }));
            },
            None => {},
        }
        i += 1;
    }
    links
}

/// The Spotify links in a text, in order of appearance.
pub fn get_links(text: &str) -> (r: Vec<Link>)
    ensures
        links_view(r@) == spotify_links(text@),
{
    match find_captures(SPOTIFY_PATTERN, text) {
        Some(captures) => links_from_captures(&captures, Site::Spotify),
        None => {
            let r: Vec<Link> = Vec::new();
            assert(links_view(r@) =~= Seq::<LinkView>::empty());
            r
        },
    }
}

/// The music links of every supported site in a text: the sites' results
/// concatenated in a fixed order.
pub fn get_music_links(text: &str) -> (r: Vec<Link>)
    ensures
        links_view(r@) == spotify_links(text@),
{
    get_links(text)
}

} // verus!
