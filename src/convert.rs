//! Converting an RSS channel to JSON Feed 1.1 and to Atom 1.0.
use vstd::prelude::*;
use crate::collect::views;
use crate::date::{opt_string_view, reformat_rfc2822_as_rfc3339, rfc3339_of_rfc2822};
use crate::feed::{page_file_name, page_file_name_spec, push_chars, trim_end_slashes, trim_end_slashes_exec, Channel, Item, ItemView};
use crate::text::{chars_of, text_of};

verus! {

/// A JSON Feed author.
#[derive(Debug, Clone)]
pub struct JsonAuthor {
    pub name: String,
}

/// One JSON Feed item.
#[derive(Debug, Clone)]
pub struct JsonFeedItem {
    pub id: String,
    pub url: Option<String>,
    pub title: Option<String>,
    pub content_html: Option<String>,
    pub date_published: Option<String>,
    pub author: Option<JsonAuthor>,
}

/// A JSON Feed 1.1 document.
#[derive(Debug, Clone)]
pub struct JsonFeed {
    pub version: String,
    pub title: String,
    pub home_page_url: Option<String>,
    pub feed_url: Option<String>,
    pub description: Option<String>,
    pub next_url: Option<String>,
    pub items: Vec<JsonFeedItem>,
}

/// The view of an optional string slice.
pub open spec fn opt_str_view(o: Option<&str>) -> Option<Seq<char>> {
    match o {
        Some(s) => Some(s@),
        None => None,
    }
}

/// The identifier of an item: its guid, else its link, else its title, else
/// empty.
pub open spec fn entry_id(it: ItemView) -> Seq<char> {
    match it.guid {
        Some(g) => g.0,
        None => match it.link {
            Some(l) => l,
            None => match it.title {
                Some(t) => t,
                None => Seq::empty(),
            },
        },
    }
}

/// An item's publication date in RFC 3339, where it reads as RFC 2822.
pub open spec fn rfc3339_date(it: ItemView) -> Option<Seq<char>> {
    match it.pub_date {
        Some(d) => rfc3339_of_rfc2822(d),
        None => None,
    }
}

/// `j` is the JSON Feed item of the RSS item `it`.
pub open spec fn json_item_ok(j: JsonFeedItem, it: ItemView) -> bool {
    &&& j.id@ == entry_id(it)
    &&& opt_string_view(j.url) == it.link
    &&& opt_string_view(j.title) == it.title
    &&& opt_string_view(j.content_html) == it.description
    &&& opt_string_view(j.date_published) == rfc3339_date(it)
    &&& match j.author {
        Some(a) => it.author == Some(a.name@),
        None => it.author is None,
    }
}

/// `f` is the JSON Feed of `ch`, with the given feed and next-page URLs.
pub open spec fn json_feed_ok(f: JsonFeed, ch: Channel, feed_url: Option<Seq<char>>, next_url: Option<Seq<char>>) -> bool {
    &&& f.version@ == "https://jsonfeed.org/version/1.1"@
    &&& f.title@ == ch.title@
    &&& opt_string_view(f.home_page_url) == Some(ch.link@)
    &&& opt_string_view(f.feed_url) == feed_url
    &&& opt_string_view(f.description) == Some(ch.description@)
    &&& opt_string_view(f.next_url) == next_url
    &&& f.items@.len() == ch.items@.len()
    &&& forall|i: int| 0 <= i < f.items@.len() ==> json_item_ok(#[trigger] f.items@[i], ch.items@[i]@)
}

fn clone_opt(o: &Option<String>) -> (r: Option<String>)
    ensures
        opt_string_view(r) == opt_string_view(*o),
{
    match o {
        Some(s) => Some(s.clone()),
        None => None,
    }
}

fn owned_opt(o: Option<&str>) -> (r: Option<String>)
    ensures
        opt_string_view(r) == opt_str_view(o),
{
    match o {
        Some(s) => Some(s.to_owned()),
        None => None,
    }
}

/// The identifier of an item: its guid, else its link, else its title.
pub fn item_id(item: &Item) -> (r: String)
    ensures
        r@ == entry_id(item@),
{
    match &item.guid {
        Some(g) => g.value.clone(),
        None => match &item.link {
            Some(l) => l.clone(),
            None => match &item.title {
                Some(t) => t.clone(),
                None => String::new(),
            },
        },
    }
}

/// An item's publication date in RFC 3339.
fn item_rfc3339_date(item: &Item) -> (r: Option<String>)
    ensures
        opt_string_view(r) == rfc3339_date(item@),
{
    match &item.pub_date {
        Some(d) => reformat_rfc2822_as_rfc3339(d.as_str()),
        None => None,
    }
}

/// The JSON Feed item of an RSS item.
pub fn json_item(item: &Item) -> (r: JsonFeedItem)
    ensures
        json_item_ok(r, item@),
{
    JsonFeedItem {
        id: item_id(item),
        url: clone_opt(&item.link),
        title: clone_opt(&item.title),
        content_html: clone_opt(&item.description),
        date_published: item_rfc3339_date(item),
        author: match &item.author {
            Some(a) => Some(JsonAuthor { name: a.clone() }),
            None => None,
        },
    }
}

/// Converts an RSS channel to a JSON Feed 1.1 document.
pub fn rss_to_json_feed(channel: &Channel, feed_url: Option<&str>, next_url: Option<&str>) -> (r: JsonFeed)
    ensures
        json_feed_ok(r, *channel, opt_str_view(feed_url), opt_str_view(next_url)),
{
    let mut items: Vec<JsonFeedItem> = Vec::new();
    let mut i: usize = 0;
    while i < channel.items.len()
        invariant
            i <= channel.items@.len(),
            items@.len() == i,
            forall|k: int| 0 <= k < i ==> json_item_ok(#[trigger] items@[k], channel.items@[k]@),
        decreases channel.items@.len() - i,
    {
        items.push(json_item(&channel.items[i]));
        i = i + 1;
    }
    JsonFeed {
        version: "https://jsonfeed.org/version/1.1".to_owned(),
        title: channel.title.clone(),
        home_page_url: Some(channel.link.clone()),
        feed_url: owned_opt(feed_url),
        description: Some(channel.description.clone()),
        next_url: owned_opt(next_url),
        items,
    }
}

/// The RSS item that a JSON Feed item reads back as: its id as guid, its
/// url as link, its title, and its HTML content as description.
pub open spec fn item_from_json(j: JsonFeedItem) -> ItemView {
    ItemView {
        title: opt_string_view(j.title),
        link: opt_string_view(j.url),
        description: opt_string_view(j.content_html),
        guid: Some((j.id@, false)),
        pub_date: None,
        author: match j.author {
            Some(a) => Some(a.name@),
            None => None,
        },
    }
}

/// Reading the JSON Feed of a channel back as RSS items keeps every item's
/// identifier (guid, else link, else title), title, link and content.
pub proof fn lemma_json_round_trip(ch: Channel, f: JsonFeed, feed_url: Option<Seq<char>>, next_url: Option<Seq<char>>)
    requires
        json_feed_ok(f, ch, feed_url, next_url),
    ensures
        f.items@.len() == ch.items@.len(),
        forall|i: int| 0 <= i < f.items@.len() ==> {
            let back = item_from_json(#[trigger] f.items@[i]);
            let orig = ch.items@[i]@;
            &&& entry_id(back) == entry_id(orig)
            &&& back.title == orig.title
            &&& back.link == orig.link
            &&& back.description == orig.description
            &&& back.author == orig.author
        },
{
    assert forall|i: int| 0 <= i < f.items@.len() implies {
        let back = item_from_json(#[trigger] f.items@[i]);
        let orig = ch.items@[i]@;
        &&& entry_id(back) == entry_id(orig)
        &&& back.title == orig.title
        &&& back.link == orig.link
        &&& back.description == orig.description
        &&& back.author == orig.author
    } by {
        assert(json_item_ok(f.items@[i], ch.items@[i]@));
    }
}

/// An Atom link: its target and its relation.
#[derive(Debug, Clone)]
pub struct AtomLink {
    pub href: String,
    pub rel: String,
}

/// One Atom entry; its content, when present, is HTML.
#[derive(Debug, Clone)]
pub struct AtomEntry {
    pub id: String,
    pub title: String,
    pub links: Vec<AtomLink>,
    pub content: Option<String>,
    /// The update time, in RFC 3339.
    pub updated: Option<String>,
}

/// An Atom 1.0 feed.
#[derive(Debug, Clone)]
pub struct AtomFeed {
    pub id: String,
    pub title: String,
    pub links: Vec<AtomLink>,
    pub subtitle: Option<String>,
    pub entries: Vec<AtomEntry>,
}

/// `l` links to `href` with relation `rel`.
pub open spec fn link_is(l: AtomLink, href: Seq<char>, rel: Seq<char>) -> bool {
    l.href@ == href && l.rel@ == rel
}

/// `e` is the Atom entry of the RSS item `it`.
pub open spec fn atom_entry_ok(e: AtomEntry, it: ItemView) -> bool {
    &&& e.id@ == entry_id(it)
    &&& e.title@ == match it.title {
        Some(t) => t,
        None => Seq::empty(),
    }
    &&& match it.link {
        Some(l) => e.links@.len() == 1 && link_is(e.links@[0], l, "alternate"@),
        None => e.links@.len() == 0,
    }
    &&& opt_string_view(e.content) == it.description
    &&& opt_string_view(e.updated) == rfc3339_date(it)
}

/// `f` is the Atom feed of `ch`: its title, its link (when non-empty) as an
/// alternate link and as id (else the title as id), its description (when
/// non-empty) as subtitle, and one entry per item.
pub open spec fn atom_feed_ok(f: AtomFeed, ch: Channel) -> bool {
    &&& f.title@ == ch.title@
    &&& if ch.link@.len() > 0 {
        f.links@.len() == 1 && link_is(f.links@[0], ch.link@, "alternate"@) && f.id@ == ch.link@
    } else {
        f.links@.len() == 0 && f.id@ == ch.title@
    }
    &&& opt_string_view(f.subtitle) == if ch.description@.len() > 0 { Some(ch.description@) } else { None }
    &&& f.entries@.len() == ch.items@.len()
    &&& forall|i: int| 0 <= i < f.entries@.len() ==> atom_entry_ok(#[trigger] f.entries@[i], ch.items@[i]@)
}

/// The Atom entry of an RSS item.
pub fn atom_entry(item: &Item) -> (r: AtomEntry)
    ensures
        atom_entry_ok(r, item@),
{
    let mut links: Vec<AtomLink> = Vec::new();
    match &item.link {
        Some(l) => links.push(AtomLink { href: l.clone(), rel: "alternate".to_owned() }),
        None => {},
    }
    AtomEntry {
        id: item_id(item),
        title: match &item.title {
            Some(t) => t.clone(),
            None => String::new(),
        },
        links,
        content: clone_opt(&item.description),
        updated: item_rfc3339_date(item),
    }
}

/// Converts an RSS channel to an Atom 1.0 feed.
pub fn rss_to_atom(channel: &Channel) -> (r: AtomFeed)
    ensures
        atom_feed_ok(r, *channel),
{
    let mut entries: Vec<AtomEntry> = Vec::new();
    let mut i: usize = 0;
    while i < channel.items.len()
        invariant
            i <= channel.items@.len(),
            entries@.len() == i,
            forall|k: int| 0 <= k < i ==> atom_entry_ok(#[trigger] entries@[k], channel.items@[k]@),
        decreases channel.items@.len() - i,
    {
        entries.push(atom_entry(&channel.items[i]));
        i = i + 1;
    }
    let mut links: Vec<AtomLink> = Vec::new();
    let id = if channel.link.as_str().is_empty() {
        channel.title.clone()
    } else {
        links.push(AtomLink { href: channel.link.clone(), rel: "alternate".to_owned() });
        channel.link.clone()
    };
    let subtitle = if channel.description.as_str().is_empty() {
        None
    } else {
        Some(channel.description.clone())
    };
    AtomFeed { id, title: channel.title.clone(), links, subtitle, entries }
}

/// The URL of page `idx` of a paginated set of feed files named after `stem`
/// and `ext`.
pub open spec fn page_url_spec(site_url: Seq<char>, stem: Seq<char>, ext: Seq<char>, idx: nat) -> Seq<char> {
    trim_end_slashes(site_url) + seq!['/'] + page_file_name_spec(stem, ext, idx)
}

/// The URL of page `idx` (from 0) of the feed files `stem.ext`,
/// `stem2.ext`, ... under the site URL.
pub fn page_url(site_url: &str, stem: &str, ext: &str, idx: usize) -> (r: String)
    requires
        idx < usize::MAX,
    ensures
        r@ == page_url_spec(site_url@, stem@, ext@, idx as nat),
{
    let mut out = trim_end_slashes_exec(site_url);
    out.push('/');
    let name = page_file_name(stem, ext, idx);
    let v = chars_of(name.as_str());
    push_chars(&mut out, &v);
    assert(out@ =~= page_url_spec(site_url@, stem@, ext@, idx as nat));
    text_of(out.as_slice())
}

/// The Atom feed of page `page_idx` of `total_pages` pages: the channel's
/// Atom feed, plus links to itself (`self`, also its id), to the next page
/// (`next`, unless it is the last) and to the previous one (`prev`, unless it
/// is the first), the pages named `atom.xml`, `atom2.xml`, ...
pub fn rss_to_atom_page(channel: &Channel, site_url: &str, page_idx: usize, total_pages: usize) -> (r: AtomFeed)
    requires
        page_idx < total_pages,
    ensures
        ({
            let a = seq!['a', 't', 'o', 'm'];
            let x = seq!['x', 'm', 'l'];
            let base = if channel.link@.len() > 0 { 1int } else { 0int };
            let has_next = page_idx + 1 < total_pages;
            let has_prev = page_idx > 0;
            &&& r.title@ == channel.title@
            &&& r.id@ == page_url_spec(site_url@, a, x, page_idx as nat)
            &&& opt_string_view(r.subtitle) == if channel.description@.len() > 0 { Some(channel.description@) } else { None }
            &&& r.entries@.len() == channel.items@.len()
            &&& forall|i: int| 0 <= i < r.entries@.len() ==> atom_entry_ok(#[trigger] r.entries@[i], channel.items@[i]@)
            &&& r.links@.len() == base + 1 + (if has_next { 1int } else { 0 }) + (if has_prev { 1int } else { 0 })
            &&& channel.link@.len() > 0 ==> link_is(r.links@[0], channel.link@, "alternate"@)
            &&& link_is(r.links@[base], page_url_spec(site_url@, a, x, page_idx as nat), "self"@)
            &&& has_next ==> link_is(r.links@[base + 1], page_url_spec(site_url@, a, x, (page_idx + 1) as nat), "next"@)
            &&& has_prev ==> link_is(
                r.links@[base + 1 + (if has_next { 1int } else { 0 })],
                page_url_spec(site_url@, a, x, (page_idx - 1) as nat),
                "prev"@,
            )
        }),
{
    let mut feed = rss_to_atom(channel);
    proof {
        reveal_strlit("atom");
        reveal_strlit("xml");
    }
    let self_url = page_url(site_url, "atom", "xml", page_idx);
    assert("atom"@ =~= seq!['a', 't', 'o', 'm']);
    assert("xml"@ =~= seq!['x', 'm', 'l']);
    feed.links.push(AtomLink { href: self_url.clone(), rel: "self".to_owned() });
    if page_idx + 1 < total_pages {
        let next = page_url(site_url, "atom", "xml", page_idx + 1);
        feed.links.push(AtomLink { href: next, rel: "next".to_owned() });
    }
    if page_idx > 0 {
        let prev = page_url(site_url, "atom", "xml", page_idx - 1);
        feed.links.push(AtomLink { href: prev, rel: "prev".to_owned() });
    }
    feed.id = self_url;
    feed
}

/// The JSON Feed of page `page_idx` of `total_pages` pages: the channel's
/// JSON Feed with its own URL as `feed_url` and, unless it is the last page,
/// the next page's URL as `next_url`, the pages named `feed.json`,
/// `feed2.json`, ...
pub fn rss_to_json_feed_page(channel: &Channel, site_url: &str, page_idx: usize, total_pages: usize) -> (r: JsonFeed)
    requires
        page_idx < total_pages,
    ensures
        json_feed_ok(
            r,
            *channel,
            Some(page_url_spec(site_url@, seq!['f', 'e', 'e', 'd'], seq!['j', 's', 'o', 'n'], page_idx as nat)),
            if page_idx + 1 < total_pages {
                Some(page_url_spec(site_url@, seq!['f', 'e', 'e', 'd'], seq!['j', 's', 'o', 'n'], (page_idx + 1) as nat))
            } else {
                None
            },
        ),
{
    proof {
        reveal_strlit("feed");
        reveal_strlit("json");
    }
    assert("feed"@ =~= seq!['f', 'e', 'e', 'd']);
    assert("json"@ =~= seq!['j', 's', 'o', 'n']);
    let self_url = page_url(site_url, "feed", "json", page_idx);
    if page_idx + 1 < total_pages {
        let next = page_url(site_url, "feed", "json", page_idx + 1);
        rss_to_json_feed(channel, Some(self_url.as_str()), Some(next.as_str()))
    } else {
        rss_to_json_feed(channel, Some(self_url.as_str()), None)
    }
}

} // verus!
