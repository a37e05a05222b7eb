use mdbook_rss_feed::paths::relative_to;
use mdbook_rss_feed::{
    build_feed, format_pub_date, collect_articles, is_chapter_path, link_for, page_file_name, parse_date, parse_markdown_file,
    split_front_matter, SourceFile, Stamp,
};

fn file(path: &str, text: &str, modified: Option<Stamp>) -> SourceFile {
    SourceFile { path: path.to_string(), text: text.to_string(), modified }
}

fn stamp(secs: i64) -> Stamp {
    Stamp { secs, nanos: 0 }
}

#[test]
fn scenario_single_dated_document() {
    let files = vec![file(
        "/book/src/hello.md",
        "---\ndate: \"2024-01-05\"\ntitle: \"Hello\"\n---\n# Hi\n\nWorld content...\n",
        Some(stamp(1)),
    )];
    let result = build_feed("/book/src", &files, "Book", "https://example.com/", "Desc", false, 0, false);
    assert_eq!(result.pages.len(), 1);
    let page = &result.pages[0];
    assert_eq!(page.filename, "rss.xml");
    assert_eq!(page.channel.items.len(), 1);
    let item = &page.channel.items[0];
    assert_eq!(item.title.as_deref(), Some("Hello"));
    let preview = item.description.clone().unwrap();
    // Smart punctuation is on: "..." renders as an ellipsis.
    assert_eq!(preview, "<p>World content\u{2026}</p>");
    assert!(!preview.contains("Hi"));
    assert_eq!(item.link.as_deref(), Some("https://example.com/hello.html"));
    assert_eq!(item.guid.as_ref().unwrap().value, "https://example.com/hello.html");
    assert!(item.guid.as_ref().unwrap().permalink);
    assert_eq!(item.pub_date.as_deref(), Some("Fri, 5 Jan 2024 00:00:00 +0000"));
    assert_eq!(page.channel.link, "https://example.com/");
    assert_eq!(page.channel.title, "Book");
    assert_eq!(page.channel.description, "Desc");
    assert_eq!(page.channel.generator.as_deref(), Some("mdbook-rss-feed 1.0.0"));
}

#[test]
fn scenario_five_documents_paginated() {
    let files: Vec<SourceFile> = (0..5)
        .map(|i| file(&format!("/src/ch{}.md", i), &format!("---\ntitle: T{}\ndate: 2024-01-0{}\n---\nbody\n", i, i + 1), None))
        .collect();
    let result = build_feed("/src", &files, "B", "https://x.org", "D", false, 2, true);
    let counts: Vec<usize> = result.pages.iter().map(|p| p.channel.items.len()).collect();
    assert_eq!(counts, vec![2, 2, 1]);
    let names: Vec<&str> = result.pages.iter().map(|p| p.filename.as_str()).collect();
    assert_eq!(names, vec!["rss.xml", "rss2.xml", "rss3.xml"]);
    let titles: Vec<String> =
        result.pages.iter().flat_map(|p| p.channel.items.iter().map(|i| i.title.clone().unwrap())).collect();
    assert_eq!(titles, vec!["T4", "T3", "T2", "T1", "T0"]);
}

#[test]
fn scenario_no_metadata_block() {
    let a = parse_markdown_file("/src", "/src/notes/intro.md", "Just text\nmore\n", Some(stamp(42)));
    assert_eq!(a.fm.title, "intro");
    assert_eq!(a.fm.date, Some(stamp(42)));
    assert_eq!(a.fm.author, None);
    assert_eq!(a.content, "Just text\nmore\n");
    assert_eq!(a.fm.description.as_deref(), Some("Just text\nmore\n"));
    assert_eq!(a.path, "notes/intro.md");
}

#[test]
fn empty_yaml_title_falls_back_to_stem() {
    let a = parse_markdown_file("/src", "/src/page.md", "---\ntitle: \"\"\n---\nx\n", None);
    assert_eq!(a.fm.title, "page");
    assert!(!a.fm.title.is_empty());
}

#[test]
fn malformed_metadata_falls_back() {
    let a = parse_markdown_file("/src", "/src/a.md", "---\ntitle: [unclosed\n---\nbody\n", Some(stamp(7)));
    assert_eq!(a.fm.title, "a");
    assert_eq!(a.fm.date, Some(stamp(7)));
    assert_eq!(a.fm.description.as_deref(), Some("body\n"));
}

#[test]
fn metadata_fields_are_read() {
    let a = parse_markdown_file(
        "/src",
        "/src/a.md",
        "---\ntitle: T\nauthor: Ann\ndescription: Short\ndate: 2024-03-01T12:00:00+02:00\nextra: [1, 2]\n---\nbody\n",
        Some(stamp(7)),
    );
    assert_eq!(a.fm.title, "T");
    assert_eq!(a.fm.author.as_deref(), Some("Ann"));
    assert_eq!(a.fm.description.as_deref(), Some("Short"));
    assert_eq!(a.fm.date, Some(stamp(1709287200)));
    assert_eq!(a.content, "body\n");
}

#[test]
fn unparseable_date_is_absent() {
    let a = parse_markdown_file("/src", "/src/a.md", "---\ntitle: T\ndate: yesterday\n---\nb\n", Some(stamp(7)));
    assert_eq!(a.fm.date, None);
}

#[test]
fn front_matter_split_keeps_body_lines() {
    let (yaml, body) = split_front_matter("---\r\ntitle: A\r\n---\r\nline1\r\nline2");
    assert_eq!(yaml, "title: A\n");
    assert_eq!(body, "line1\nline2\n");
    let (yaml, body) = split_front_matter("---\ntitle: A\n");
    assert_eq!(yaml, "title: A\n");
    assert_eq!(body, "\n");
    let (yaml, body) = split_front_matter("");
    assert_eq!(yaml, "");
    assert_eq!(body, "\n");
}

#[test]
fn dateless_documents_sort_last_in_walk_order() {
    let files = vec![
        file("/s/u1.md", "---\ntitle: U1\n---\nx\n", None),
        file("/s/d1.md", "---\ntitle: D1\ndate: 2020-01-01\n---\nx\n", None),
        file("/s/u2.md", "---\ntitle: U2\n---\nx\n", None),
        file("/s/d2.md", "---\ntitle: D2\ndate: 2021-01-01\n---\nx\n", None),
        file("/s/u3.md", "---\ntitle: U3\n---\nx\n", None),
        file("/s/d3.md", "---\ntitle: D3\ndate: 2020-01-01\n---\nx\n", None),
    ];
    let arts = collect_articles("/s", &files);
    let titles: Vec<&str> = arts.iter().map(|a| a.fm.title.as_str()).collect();
    assert_eq!(titles, vec!["D2", "D1", "D3", "U1", "U2", "U3"]);
}

#[test]
fn collector_filters_files() {
    let files = vec![
        file("/s/SUMMARY.md", "x", None),
        file("/s/summary.MD", "x", None),
        file("/s/notes.txt", "x", None),
        file("/s/a.MARKDOWN", "x", None),
        file("/s/b.md", "x", None),
        file("/s/.md", "x", None),
    ];
    let arts = collect_articles("/s", &files);
    let paths: Vec<&str> = arts.iter().map(|a| a.path.as_str()).collect();
    assert_eq!(paths, vec!["a.MARKDOWN", "b.md"]);
    assert!(is_chapter_path("x/y.Md"));
    assert!(!is_chapter_path("x/Summary.md"));
    assert!(!is_chapter_path("x/"));
}

#[test]
fn links_are_html_with_forward_slashes() {
    assert_eq!(link_for("https://e.com//", "a\\b\\c.md"), "https://e.com/a/b/c.html");
    assert_eq!(link_for("https://e.com", "guide/README.md"), "https://e.com/guide/index.html");
    assert_eq!(link_for("https://e.com", "README.md"), "https://e.com/index.html");
    assert_eq!(link_for("https://e.com", "x/long.markdown"), "https://e.com/x/long.html");
    let l = link_for("https://e.com", "dir\\sub\\page.md");
    assert!(!l.contains('\\'));
    assert!(l.ends_with(".html"));
}

#[test]
fn page_file_names() {
    assert_eq!(page_file_name("rss", "xml", 0), "rss.xml");
    assert_eq!(page_file_name("rss", "xml", 1), "rss2.xml");
    assert_eq!(page_file_name("atom", "xml", 9), "atom10.xml");
    assert_eq!(page_file_name("feed", "json", 122), "feed123.json");
}

#[test]
fn dates_parse_in_both_formats() {
    assert_eq!(parse_date("2024-01-05"), Some(stamp(1704412800)));
    assert_eq!(parse_date("2024-01-05T00:00:00Z"), Some(stamp(1704412800)));
    assert_eq!(parse_date("2024-01-05T00:00:00.5Z"), Some(Stamp { secs: 1704412800, nanos: 500_000_000 }));
    assert_eq!(parse_date("05/01/2024"), None);
    assert_eq!(parse_date(""), None);
}

#[test]
fn single_page_when_items_fit_or_unpaginated() {
    let files: Vec<SourceFile> =
        (0..3).map(|i| file(&format!("/s/c{}.md", i), "---\ntitle: T\n---\nb\n", None)).collect();
    assert_eq!(build_feed("/s", &files, "B", "u", "d", false, 3, true).pages.len(), 1);
    assert_eq!(build_feed("/s", &files, "B", "u", "d", false, 1, false).pages.len(), 1);
    assert_eq!(build_feed("/s", &files, "B", "u", "d", false, 0, true).pages.len(), 1);
    let empty: Vec<SourceFile> = Vec::new();
    let r = build_feed("/s", &empty, "B", "u", "d", false, 2, true);
    assert_eq!(r.pages.len(), 1);
    assert_eq!(r.pages[0].channel.items.len(), 0);
}

#[test]
fn publication_dates_are_rfc2822_within_range() {
    assert_eq!(format_pub_date(stamp(0)).as_deref(), Some("Thu, 1 Jan 1970 00:00:00 +0000"));
    assert_eq!(format_pub_date(stamp(253402300799)).as_deref(), Some("Fri, 31 Dec 9999 23:59:59 +0000"));
    assert_eq!(format_pub_date(stamp(253402300800)), None);
    assert_eq!(format_pub_date(stamp(-62167219201)), None);
}

#[test]
fn paths_are_made_relative_to_the_root() {
    assert_eq!(relative_to("/book/src/a/b.md", "/book/src"), "a/b.md");
    assert_eq!(relative_to("/book/src/a/b.md", "/book/src/"), "a/b.md");
    assert_eq!(relative_to("/book/srcx/b.md", "/book/src"), "/book/srcx/b.md");
    assert_eq!(relative_to("b.md", ""), "b.md");
}
