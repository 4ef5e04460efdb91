//! The table of found links, one row per url, counting its sightings.

use vstd::prelude::*;

use crate::link_finder::{Kind, Link as FoundLink, Site};

verus! {

/// A stored link.
#[derive(Debug, Clone)]
pub struct Link {
    pub url: String,
    pub kind: Kind,
    pub site: Site,
    /// When the url was first seen, in microseconds since the Unix epoch.
    pub created_at: i64,
    /// How many times the url has been seen.
    pub count: i64,
}

/// A stored link over character sequences.
pub struct LinkRow {
    pub url: Seq<char>,
    pub kind: Kind,
    pub site: Site,
    pub created_at: i64,
    pub count: i64,
}

impl View for Link {
    type V = LinkRow;

    open spec fn view(&self) -> LinkRow {
        LinkRow {
            url: self.url@,
            kind: self.kind,
            site: self.site,
            created_at: self.created_at,
            count: self.count,
        }
    }
}

/// The views of a sequence of stored links.
pub open spec fn link_rows(s: Seq<Link>) -> Seq<LinkRow> {
    s.map_values(|l: Link| l@)
}

/// Urls are unique and every count is at least one.
pub open spec fn links_wf(s: Seq<LinkRow>) -> bool {
    &&& forall|i: int, j: int|
        0 <= i < s.len() && 0 <= j < s.len() && i != j ==> #[trigger] s[i].url != #[trigger] s[j].url
    &&& forall|i: int| 0 <= i < s.len() ==> #[trigger] s[i].count >= 1
}

/// Index of the row with this url, or the length when there is none.
pub open spec fn url_index(s: Seq<LinkRow>, url: Seq<char>) -> int
    decreases s.len(),
{
    if s.len() == 0 {
        0
    } else if s[0].url == url {
        0
    } else {
        1 + url_index(s.drop_first(), url)
    }
}

/// One more sighting; the count stays at its largest value once there.
pub open spec fn bump(count: i64) -> i64 {
    if count < i64::MAX {
        (count + 1) as i64
    } else {
        count
    }
}

/// The table after a sighting of `url`: a known url has its count raised and
/// keeps its first kind and site; a new url is appended with a count of one.
pub open spec fn upsert_link(s: Seq<LinkRow>, url: Seq<char>, kind: Kind, site: Site, now: i64) -> Seq<LinkRow> {
    let k = url_index(s, url);
    if k < s.len() {
        s.update(k, LinkRow { count: bump(s[k].count), ..s[k] })
    } else {
        s.push(LinkRow { url, kind, site, created_at: now, count: 1 })
    }
}

/// The stored links.
pub struct LinkTable {
    pub rows: Vec<Link>,
}

impl View for LinkTable {
    type V = Seq<LinkRow>;

    open spec fn view(&self) -> Seq<LinkRow> {
        link_rows(self.rows@)
    }
}

impl LinkTable {
    /// Urls are unique and every count is at least one.
    pub open spec fn wf(&self) -> bool {
        links_wf(self@)
    }

    /// An empty table.
    pub fn new() -> (r: LinkTable)
        ensures
            r.wf(),
            r@ == Seq::<LinkRow>::empty(),
    {
        let r = LinkTable { rows: Vec::new() };
        assert(r@ =~= Seq::<LinkRow>::empty());
        r
    }

    /// The number of stored links.
    pub fn len(&self) -> (r: usize)
        ensures
            r == self@.len(),
    {
        self.rows.len()
    }
}

pub proof fn lemma_url_index(s: Seq<LinkRow>, url: Seq<char>, k: int)
    requires
        0 <= k <= s.len(),
        forall|j: int| 0 <= j < k ==> s[j].url != url,
        k < s.len() ==> s[k].url == url,
    ensures
        url_index(s, url) == k,
    decreases k,
{
    if s.len() > 0 && k > 0 {
        assert forall|j: int| 0 <= j < k - 1 implies s.drop_first()[j].url != url by {
            assert(s.drop_first()[j] == s[j + 1]);
        }
        lemma_url_index(s.drop_first(), url, k - 1);
    }
}

proof fn lemma_url_index_bounds(s: Seq<LinkRow>, url: Seq<char>)
    ensures
        0 <= url_index(s, url) <= s.len(),
    decreases s.len(),
{
    if s.len() > 0 {
        lemma_url_index_bounds(s.drop_first(), url);
    }
}

/// Every row before `url_index` has another url.
proof fn lemma_url_index_prefix(s: Seq<LinkRow>, url: Seq<char>)
    ensures
        forall|j: int| 0 <= j < url_index(s, url) && j < s.len() ==> s[j].url != url,
        url_index(s, url) < s.len() ==> s[url_index(s, url)].url == url,
    decreases s.len(),
{
    lemma_url_index_bounds(s, url);
    if s.len() > 0 && s[0].url != url {
        lemma_url_index_prefix(s.drop_first(), url);
        lemma_url_index_bounds(s.drop_first(), url);
        assert forall|j: int| 0 <= j < url_index(s, url) && j < s.len() implies s[j].url != url by {
            if j > 0 {
                assert(s.drop_first()[j - 1] == s[j]);
            }
        }
        if url_index(s, url) < s.len() {
            assert(s.drop_first()[url_index(s, url) - 1] == s[url_index(s, url)]);
        }
    }
}

/// A sighting keeps the table well formed.
pub proof fn lemma_upsert_link_wf(s: Seq<LinkRow>, url: Seq<char>, kind: Kind, site: Site, now: i64)
    requires
        links_wf(s),
    ensures
        links_wf(upsert_link(s, url, kind, site, now)),
{
    lemma_url_index_prefix(s, url);
    lemma_url_index_bounds(s, url);
    let t = upsert_link(s, url, kind, site, now);
    if url_index(s, url) == s.len() {
        assert forall|i: int, j: int|
            0 <= i < t.len() && 0 <= j < t.len() && i != j implies #[trigger] t[i].url != #[trigger] t[j].url by {
            if i < s.len() && j < s.len() {
                assert(t[i] == s[i] && t[j] == s[j]);
            }
        }
    }
}

impl Link {
    /// Records a sighting of a found link at time `now`.
    pub fn create(table: &mut LinkTable, link: &FoundLink, now: i64)
        requires
            old(table).wf(),
        ensures
            final(table).wf(),
            final(table)@ == upsert_link(old(table)@, link.link@, link.kind, link.site, now),
    {
        let ghost s = table@;
        proof {
            lemma_upsert_link_wf(s, link.link@, link.kind, link.site, now);
        }
        let mut i: usize = 0;
        while i < table.rows.len() && !(table.rows[i].url == link.link)
            invariant
                s == table@,
                s.len() == table.rows@.len(),
                i <= s.len(),
                forall|j: int| 0 <= j < i ==> s[j].url != link.link@,
            decreases s.len() - i,
        {
            assert(s[i as int] == table.rows@[i as int]@);
            i += 1;
        }
        if i < table.rows.len() {
            assert(s[i as int] == table.rows@[i as int]@);
            proof {
                lemma_url_index(s, link.link@, i as int);
            }
            let old_row = &table.rows[i];
            let count = if old_row.count < i64::MAX {
                old_row.count + 1
            } else {
                old_row.count
            };
            let row = Link {
                url: old_row.url.clone(),
                kind: old_row.kind,
                site: old_row.site,
                created_at: old_row.created_at,
                count,
            };
            table.rows.set(i, row);
            assert(table@ =~= s.update(i as int, LinkRow { count: bump(s[i as int].count), ..s[i as int] }));
            return;
        }
        proof {
            lemma_url_index(s, link.link@, i as int);
        }
        let row = Link { url: link.link.clone(), kind: link.kind, site: link.site, created_at: now, count: 1 };
        table.rows.push(row);
        assert(table@ =~= s.push(LinkRow { url: link.link@, kind: link.kind, site: link.site, created_at: now, count: 1 }));
    }
}

impl Link {
    /// Puts back a row kept from an earlier run: it is added when its url is
    /// not stored yet and its count is at least one, and `true` is returned;
    /// otherwise nothing changes and `false` is returned.
    pub fn load(table: &mut LinkTable, row: Link) -> (r: bool)
        requires
            old(table).wf(),
        ensures
            final(table).wf(),
            r == (url_index(old(table)@, row.url@) == old(table)@.len() && row.count >= 1),
            r ==> final(table)@ == old(table)@.push(row@),
            !r ==> final(table)@ == old(table)@,
    {
        let ghost s = table@;
        let mut i: usize = 0;
        while i < table.rows.len() && !(table.rows[i].url == row.url)
            invariant
                s == table@,
                s.len() == table.rows@.len(),
                i <= s.len(),
                forall|j: int| 0 <= j < i ==> s[j].url != row.url@,
            decreases s.len() - i,
        {
            assert(s[i as int] == table.rows@[i as int]@);
            i += 1;
        }
        if i < table.rows.len() {
            assert(s[i as int] == table.rows@[i as int]@);
        }
        proof {
            lemma_url_index(s, row.url@, i as int);
        }
        if i < table.rows.len() || row.count < 1 {
            return false;
        }
        let ghost rv = row@;
        table.rows.push(row);
        assert(table@ =~= s.push(rv));
        assert(links_wf(table@)) by {
            let t = table@;
            assert forall|a: int, b: int|
                0 <= a < t.len() && 0 <= b < t.len() && a != b implies #[trigger] t[a].url != #[trigger] t[b].url by {
                if a < s.len() && b < s.len() {
                    assert(t[a] == s[a] && t[b] == s[b]);
                }
            }
        }
        true
    }
}

/// Seeing one url twice in a table that lacked it leaves exactly one row for
/// it, with a count of two and the kind, site and time of the first sighting.
pub proof fn lemma_link_first_write_wins(
    s: Seq<LinkRow>,
    url: Seq<char>,
    kind1: Kind,
    site1: Site,
    now1: i64,
    kind2: Kind,
    site2: Site,
    now2: i64,
)
    requires
        links_wf(s),
        forall|i: int| 0 <= i < s.len() ==> #[trigger] s[i].url != url,
    ensures
        ({
            let t = upsert_link(upsert_link(s, url, kind1, site1, now1), url, kind2, site2, now2);
            &&& t.len() == s.len() + 1
            &&& t.take(s.len() as int) == s
            &&& t[s.len() as int] == LinkRow { url, kind: kind1, site: site1, created_at: now1, count: 2 }
            &&& forall|i: int| 0 <= i < t.len() && #[trigger] t[i].url == url ==> i == s.len()
        }),
{
    lemma_url_index(s, url, s.len() as int);
    let t1 = upsert_link(s, url, kind1, site1, now1);
    lemma_url_index(t1, url, s.len() as int);
    let t = upsert_link(t1, url, kind2, site2, now2);
    assert(t.take(s.len() as int) =~= s);
}

} // verus!
