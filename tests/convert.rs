use mdbook_rss_feed::{
    paginate, rss_to_atom, rss_to_atom_page, rss_to_json_feed, rss_to_json_feed_page, Channel, Guid, Item,
};

fn item(title: Option<&str>, link: Option<&str>, guid: Option<&str>) -> Item {
    Item {
        title: title.map(|s| s.to_string()),
        link: link.map(|s| s.to_string()),
        description: Some("<p>d</p>".to_string()),
        guid: guid.map(|g| Guid { value: g.to_string(), permalink: true }),
        pub_date: Some("Fri, 5 Jan 2024 00:00:00 +0000".to_string()),
        author: Some("Ann".to_string()),
    }
}

fn channel(items: Vec<Item>) -> Channel {
    Channel {
        title: "Book".to_string(),
        link: "https://e.com/".to_string(),
        description: "Desc".to_string(),
        generator: None,
        items,
    }
}

#[test]
fn json_feed_maps_fields_and_ids() {
    let ch = channel(vec![
        item(Some("A"), Some("https://e.com/a.html"), Some("g1")),
        item(Some("B"), Some("https://e.com/b.html"), None),
        item(Some("C"), None, None),
        item(None, None, None),
    ]);
    let f = rss_to_json_feed(&ch, Some("https://e.com/feed.json"), None);
    assert_eq!(f.version, "https://jsonfeed.org/version/1.1");
    assert_eq!(f.title, "Book");
    assert_eq!(f.home_page_url.as_deref(), Some("https://e.com/"));
    assert_eq!(f.feed_url.as_deref(), Some("https://e.com/feed.json"));
    assert_eq!(f.next_url, None);
    let ids: Vec<&str> = f.items.iter().map(|i| i.id.as_str()).collect();
    assert_eq!(ids, vec!["g1", "https://e.com/b.html", "C", ""]);
    assert_eq!(f.items[0].title.as_deref(), Some("A"));
    assert_eq!(f.items[0].content_html.as_deref(), Some("<p>d</p>"));
    assert_eq!(f.items[0].date_published.as_deref(), Some("2024-01-05T00:00:00+00:00"));
    assert_eq!(f.items[0].author.as_ref().unwrap().name, "Ann");
}

#[test]
fn json_round_trip_keeps_identity() {
    let ch = channel(vec![item(Some("Title ü"), Some("https://e.com/x.html"), Some("https://e.com/x.html"))]);
    let f = rss_to_json_feed(&ch, None, None);
    assert_eq!(f.items[0].id, "https://e.com/x.html");
    assert_eq!(f.items[0].title.as_deref(), Some("Title ü"));
    assert_eq!(f.items[0].url.as_deref(), Some("https://e.com/x.html"));
}

#[test]
fn empty_channel_converts_to_empty_feeds() {
    let ch = channel(vec![]);
    assert_eq!(rss_to_json_feed(&ch, None, None).items.len(), 0);
    assert_eq!(rss_to_atom(&ch).entries.len(), 0);
}

#[test]
fn atom_feed_maps_fields() {
    let mut it = item(Some("A"), Some("https://e.com/a.html"), Some("g1"));
    it.pub_date = Some("not a date".to_string());
    let ch = channel(vec![it, item(None, None, None)]);
    let a = rss_to_atom(&ch);
    assert_eq!(a.title, "Book");
    assert_eq!(a.id, "https://e.com/");
    assert_eq!(a.links.len(), 1);
    assert_eq!(a.links[0].href, "https://e.com/");
    assert_eq!(a.subtitle.as_deref(), Some("Desc"));
    assert_eq!(a.entries[0].id, "g1");
    assert_eq!(a.entries[0].title, "A");
    assert_eq!(a.entries[0].links[0].href, "https://e.com/a.html");
    assert_eq!(a.entries[0].content.as_deref(), Some("<p>d</p>"));
    assert_eq!(a.entries[0].updated, None);
    assert_eq!(a.entries[1].title, "");
    assert!(a.entries[1].links.is_empty());
    assert_eq!(a.entries[1].updated.as_deref(), Some("2024-01-05T00:00:00+00:00"));
}

#[test]
fn atom_without_link_uses_title_as_id() {
    let mut ch = channel(vec![]);
    ch.link = String::new();
    ch.description = String::new();
    let a = rss_to_atom(&ch);
    assert_eq!(a.id, "Book");
    assert!(a.links.is_empty());
    assert_eq!(a.subtitle, None);
}

#[test]
fn atom_pages_are_linked() {
    let ch = channel(vec![]);
    let first = rss_to_atom_page(&ch, "https://e.com/", 0, 3);
    assert_eq!(first.id, "https://e.com/atom.xml");
    let rels: Vec<(&str, &str)> = first.links.iter().map(|l| (l.rel.as_str(), l.href.as_str())).collect();
    assert_eq!(
        rels,
        vec![("alternate", "https://e.com/"), ("self", "https://e.com/atom.xml"), ("next", "https://e.com/atom2.xml")]
    );
    let mid = rss_to_atom_page(&ch, "https://e.com", 1, 3);
    let rels: Vec<&str> = mid.links.iter().map(|l| l.rel.as_str()).collect();
    assert_eq!(rels, vec!["alternate", "self", "next", "prev"]);
    assert_eq!(mid.links[3].href, "https://e.com/atom.xml");
    let last = rss_to_atom_page(&ch, "https://e.com", 2, 3);
    let rels: Vec<&str> = last.links.iter().map(|l| l.rel.as_str()).collect();
    assert_eq!(rels, vec!["alternate", "self", "prev"]);
    assert_eq!(last.links[2].href, "https://e.com/atom2.xml");
}

#[test]
fn json_pages_name_next_page() {
    let ch = channel(vec![]);
    let f = rss_to_json_feed_page(&ch, "https://e.com", 0, 2);
    assert_eq!(f.feed_url.as_deref(), Some("https://e.com/feed.json"));
    assert_eq!(f.next_url.as_deref(), Some("https://e.com/feed2.json"));
    let g = rss_to_json_feed_page(&ch, "https://e.com", 1, 2);
    assert_eq!(g.feed_url.as_deref(), Some("https://e.com/feed2.json"));
    assert_eq!(g.next_url, None);
}

#[test]
fn pagination_covers_items_in_order() {
    let items: Vec<Item> = (0..7).map(|i| item(Some(&format!("T{}", i)), None, None)).collect();
    let pages = paginate(items, "B", "https://e.com", "D", "gen", 3, true);
    let counts: Vec<usize> = pages.iter().map(|p| p.channel.items.len()).collect();
    assert_eq!(counts, vec![3, 3, 1]);
    let titles: Vec<String> =
        pages.iter().flat_map(|p| p.channel.items.iter().map(|i| i.title.clone().unwrap())).collect();
    assert_eq!(titles, vec!["T0", "T1", "T2", "T3", "T4", "T5", "T6"]);
    assert_eq!(pages[2].filename, "rss3.xml");
    assert_eq!(pages[1].channel.link, "https://e.com/");
    assert_eq!(pages[1].channel.generator.as_deref(), Some("gen"));
}
