use mdbook_rss_feed::{html_first_paragraphs, make_preview, strip_leading_boilerplate, utf8_prefix};

#[test]
fn boilerplate_is_cut_after_first_blank_line_following_heading() {
    assert_eq!(strip_leading_boilerplate("# Title\n- toc\n\nReal text\n"), "Real text\n");
    assert_eq!(strip_leading_boilerplate("intro\n\n# H\nx\n\nafter"), "after");
    assert_eq!(strip_leading_boilerplate("no heading\n\ntext"), "no heading\n\ntext");
    assert_eq!(strip_leading_boilerplate("# H\n"), "# H\n");
    assert_eq!(strip_leading_boilerplate("# H\n   "), "");
    assert_eq!(strip_leading_boilerplate(""), "");
}

#[test]
fn prefix_counts_characters() {
    assert_eq!(utf8_prefix("héllo", 2), "hé");
    assert_eq!(utf8_prefix("é", 5), "é");
    assert_eq!(utf8_prefix("abc", 0), "");
    assert_eq!(utf8_prefix("日本語", 3), "日本語");
}

#[test]
fn paragraphs_are_selected_and_bounded() {
    let html = "<h1>x</h1><p>a</p><p>b</p><p>c</p><p>d</p>";
    assert_eq!(html_first_paragraphs(html, 3, 800), "<p>a</p><p>b</p><p>c</p>");
    assert_eq!(html_first_paragraphs("<h1>only</h1>", 3, 800), "<h1>only</h1>");
    assert_eq!(html_first_paragraphs("<p>abcdef</p>", 3, 5), "<p>ab");
    assert_eq!(html_first_paragraphs("<p>unclosed", 3, 800), "<p>unclosed");
    assert_eq!(html_first_paragraphs("<p>é</p>", 1, 4), "<p>é");
}

#[test]
fn short_preview_never_exceeds_limit() {
    let body = format!("{}\n", "word ".repeat(2000));
    let p = make_preview(&body, &None, false);
    assert!(p.chars().count() <= 800);
    assert!(p.starts_with("<p>word"));
}

#[test]
fn full_preview_renders_whole_body() {
    let p = make_preview("# T\n\ntext\n", &None, true);
    assert_eq!(p, "<h1>T</h1>\n<p>text</p>\n");
}

#[test]
fn description_wins_only_over_a_short_body() {
    let d = Some("From *desc*".to_string());
    assert_eq!(make_preview("tiny", &d, false), "<p>From <em>desc</em></p>");
    let long = "x".repeat(100);
    assert_eq!(make_preview(&long, &d, false), format!("<p>{}</p>", long));
    assert_eq!(make_preview("tiny", &None, false), "<p>tiny</p>");
}

#[test]
fn empty_body_gives_empty_preview() {
    assert_eq!(make_preview("", &None, false), "");
    assert_eq!(make_preview("", &None, true), "");
}
