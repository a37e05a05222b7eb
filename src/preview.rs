//! Preview extraction: leading-boilerplate removal, character-bounded
//! prefixes, paragraph selection from rendered HTML, and the preview policy.
use vstd::prelude::*;
use crate::date::opt_string_view;
use crate::text::{all_space, chars_of, is_space, skip_space, space, text_of, trim, trim_spec};

verus! {

/// Index of the next `'\n'` at or after `i`, or `s.len()`.
pub open spec fn line_end(s: Seq<char>, i: int) -> int
    decreases s.len() - i,
{
    if i < 0 || i >= s.len() {
        s.len() as int
    } else if s[i] == '\n' {
        i
    } else {
        line_end(s, i + 1)
    }
}

/// A heading line: its first non-whitespace character is `#`.
pub open spec fn is_heading(line: Seq<char>) -> bool {
    skip_space(line, 0) < line.len() && line[skip_space(line, 0)] == '#'
}

/// Where the preview text starts when the lines of `s` from offset `i` on are
/// scanned, `seen` telling whether a heading line came before `i`: just past
/// the first blank line that follows a heading, or 0 when there is none.
pub open spec fn boilerplate_cut_from(s: Seq<char>, i: int, seen: bool) -> int
    decreases s.len() + 1 - i via boilerplate_cut_decreases
{
    if i < 0 || i >= s.len() {
        0
    } else {
        let e = line_end(s, i);
        let line = s.subrange(i, e);
        if seen && all_space(line) {
            if e < s.len() { e + 1 } else { s.len() as int }
        } else {
            boilerplate_cut_from(s, e + 1, seen || is_heading(line))
        }
    }
}

#[via_fn]
proof fn boilerplate_cut_decreases(s: Seq<char>, i: int, seen: bool) {
    if 0 <= i < s.len() {
        lemma_line_end(s, i);
    }
}

/// Offset at which the preview text of `s` starts.
pub open spec fn boilerplate_cut(s: Seq<char>) -> int {
    boilerplate_cut_from(s, 0, false)
}

pub proof fn lemma_line_end(s: Seq<char>, i: int)
    requires
        0 <= i <= s.len(),
    ensures
        i <= line_end(s, i) <= s.len(),
        line_end(s, i) < s.len() ==> s[line_end(s, i)] == '\n',
        forall|k: int| i <= k < line_end(s, i) ==> #[trigger] s[k] != '\n',
    decreases s.len() - i,
{
    if i < s.len() && s[i] != '\n' {
        lemma_line_end(s, i + 1);
    }
}

pub proof fn lemma_cut_bounds(s: Seq<char>, i: int, seen: bool)
    requires
        0 <= i,
    ensures
        0 <= boilerplate_cut_from(s, i, seen) <= s.len(),
    decreases s.len() + 1 - i,
{
    if i < s.len() {
        lemma_line_end(s, i);
        let e = line_end(s, i);
        if !(seen && all_space(s.subrange(i, e))) {
            lemma_cut_bounds(s, e + 1, seen || is_heading(s.subrange(i, e)));
        }
    }
}

/// `skip_space(s, j)` is `m` when `s[j..m]` is whitespace and `m` ends the
/// run.
proof fn lemma_skip_space_at(s: Seq<char>, j: int, m: int)
    requires
        0 <= j <= m <= s.len(),
        forall|k: int| j <= k < m ==> is_space(#[trigger] s[k]),
        m < s.len() ==> !is_space(s[m]),
    ensures
        skip_space(s, j) == m,
    decreases m - j,
{
    if j < m {
        lemma_skip_space_at(s, j + 1, m);
    }
}

/// Scans the line `v[i..e]`: returns whether it is blank and whether it is a
/// heading line.
fn classify_line(v: &[char], i: usize, e: usize) -> (r: (bool, bool))
    requires
        i <= e <= v@.len(),
    ensures
        r.0 == all_space(v@.subrange(i as int, e as int)),
        r.1 == is_heading(v@.subrange(i as int, e as int)),
{
    let ghost line = v@.subrange(i as int, e as int);
    let mut k = i;
    while k < e && space(v[k])
        invariant
            i <= k <= e <= v@.len(),
            forall|t: int| i <= t < k ==> is_space(#[trigger] v@[t]),
        decreases e - k,
    {
        k = k + 1;
    }
    proof {
        assert forall|t: int| 0 <= t < k - i implies is_space(#[trigger] line[t]) by {
            assert(line[t] == v@[t + i]);
        }
        lemma_skip_space_at(line, 0, k - i);
        if k == e {
            assert(all_space(line));
        } else {
            assert(line[k - i] == v@[k as int]);
            assert(!all_space(line));
        }
    }
    (k == e, k < e && v[k] == '#')
}

/// Drops leading boilerplate (a table of contents, a title block): once a
/// heading line has been seen, everything up to and including the first
/// blank line after it. Without such a blank line, `md` is returned whole.
pub fn strip_leading_boilerplate(md: &str) -> (r: &str)
    ensures
        r@ == md@.subrange(boilerplate_cut(md@), md@.len() as int),
{
    let v = chars_of(md);
    let n = v.len();
    let mut i: usize = 0;
    let mut seen = false;
    let mut cut: usize = 0;
    while i < n
        invariant_except_break
            cut == 0,
        invariant
            n == v@.len(),
            v@ == md@,
            i <= n,
            boilerplate_cut_from(v@, i as int, seen) == boilerplate_cut(v@),
        ensures
            cut as int == boilerplate_cut(v@),
        decreases n - i,
    {
        let mut e = i;
        while e < n && v[e] != '\n'
            invariant
                i <= e <= n,
                n == v@.len(),
                line_end(v@, e as int) == line_end(v@, i as int),
            decreases n - e,
        {
            e = e + 1;
        }
        assert(line_end(v@, e as int) == e);
        let (blank, heading) = classify_line(v.as_slice(), i, e);
        assert(boilerplate_cut_from(v@, i as int, seen) == if seen && blank {
            if e < n { e + 1 } else { n as int }
        } else {
            boilerplate_cut_from(v@, e + 1, seen || heading)
        });
        if seen && blank {
            cut = if e < n { e + 1 } else { n };
            break;
        }
        seen = seen || heading;
        i = if e < n { e + 1 } else { n };
    }
    proof {
        lemma_cut_bounds(v@, 0, false);
    }
    md.substring_char(cut, n)
}

/// At most the first `max_chars` characters of `s`, never splitting a character.
pub fn utf8_prefix(s: &str, max_chars: usize) -> (r: &str)
    ensures
        r@ == s@.subrange(0, if max_chars < s@.len() { max_chars as int } else { s@.len() as int }),
{
    let n = s.unicode_len();
    let k = if max_chars < n { max_chars } else { n };
    s.substring_char(0, k)
}

/// `<p`, which opens a paragraph element (or any tag whose name starts with `p`).
pub open spec fn open_tag() -> Seq<char> {
    seq!['<', 'p']
}

/// `</p>`, which closes a paragraph element.
pub open spec fn close_tag() -> Seq<char> {
    seq!['<', '/', 'p', '>']
}

/// `pat` occurs in `h` at offset `i`.
pub open spec fn occurs_at(h: Seq<char>, pat: Seq<char>, i: int) -> bool {
    0 <= i && i + pat.len() <= h.len() && h.subrange(i, i + pat.len()) == pat
}

/// Offset of the first occurrence of `pat` in `h` at or after `i`, or -1.
pub open spec fn find_from(h: Seq<char>, pat: Seq<char>, i: int) -> int
    decreases h.len() + 1 - i,
{
    if i < 0 || i + pat.len() > h.len() {
        -1
    } else if occurs_at(h, pat, i) {
        i
    } else {
        find_from(h, pat, i + 1)
    }
}

/// The next `left` paragraph elements of `h` from offset `start` on, each
/// from its `<p` up to and including the first `</p>` after it, joined.
pub open spec fn paragraphs_from(h: Seq<char>, start: int, left: nat) -> Seq<char>
    decreases left,
{
    if left == 0 {
        Seq::empty()
    } else {
        let p = find_from(h, open_tag(), start);
        let c = find_from(h, close_tag(), p);
        if p < 0 || c < 0 {
            Seq::empty()
        } else {
            h.subrange(p, c + 4) + paragraphs_from(h, c + 4, (left - 1) as nat)
        }
    }
}

/// The first `n` characters of `s`, or all of it when it is shorter.
pub open spec fn take_chars(s: Seq<char>, n: int) -> Seq<char> {
    if n < s.len() { s.subrange(0, n) } else { s }
}

/// At most `max_paragraphs` leading paragraph elements of `html` (or all of
/// `html` when it holds none), cut to `max_chars` characters.
pub open spec fn first_paragraphs_spec(html: Seq<char>, max_paragraphs: nat, max_chars: nat) -> Seq<char> {
    let ps = paragraphs_from(html, 0, max_paragraphs);
    take_chars(if ps.len() == 0 { html } else { ps }, max_chars as int)
}

proof fn lemma_find_from(h: Seq<char>, pat: Seq<char>, i: int)
    requires
        0 <= i,
    ensures
        find_from(h, pat, i) == -1 || (i <= find_from(h, pat, i) && occurs_at(h, pat, find_from(h, pat, i))),
    decreases h.len() + 1 - i,
{
    if i + pat.len() <= h.len() && !occurs_at(h, pat, i) {
        lemma_find_from(h, pat, i + 1);
    }
}

/// Whether `pat` occurs in `v` at offset `i`.
fn occurs_at_exec(v: &Vec<char>, pat: &Vec<char>, i: usize) -> (r: bool)
    requires
        i + pat@.len() <= v@.len(),
    ensures
        r == occurs_at(v@, pat@, i as int),
{
    let n = v.len();
    let mut k: usize = 0;
    while k < pat.len()
        invariant
            n == v@.len(),
            i + pat@.len() <= v@.len(),
            k <= pat@.len(),
            forall|t: int| 0 <= t < k ==> v@[i + t] == #[trigger] pat@[t],
        decreases pat@.len() - k,
    {
        if v[i + k] != pat[k] {
            proof {
                assert(v@.subrange(i as int, i + pat@.len())[k as int] == v@[i + k]);
            }
            return false;
        }
        k = k + 1;
    }
    proof {
        assert(v@.subrange(i as int, i + pat@.len()) =~= pat@);
    }
    true
}

/// Offset of the first occurrence of `pat` in `v` at or after `i`, if any.
fn find_from_exec(v: &Vec<char>, pat: &Vec<char>, i: usize) -> (r: Option<usize>)
    requires
        pat@.len() > 0,
    ensures
        match r {
            Some(k) => k as int == find_from(v@, pat@, i as int),
            None => find_from(v@, pat@, i as int) == -1,
        },
{
    if pat.len() > v.len() {
        return None;
    }
    let n = v.len();
    let last = n - pat.len();
    let mut k = i;
    while k <= last
        invariant
            n == v@.len(),
            pat@.len() > 0,
            last + pat@.len() == v@.len(),
            i <= k,
            find_from(v@, pat@, k as int) == find_from(v@, pat@, i as int),
        decreases last + 1 - k,
    {
        if occurs_at_exec(v, pat, k) {
            return Some(k);
        }
        k = k + 1;
    }
    None
}

/// Collects up to `max_paragraphs` leading `<p ...>...</p>` blocks of `html`
/// (found by a literal scan), or the whole of `html` when there are none,
/// and cuts the result to at most `max_chars` characters.
pub fn html_first_paragraphs(html: &str, max_paragraphs: usize, max_chars: usize) -> (r: String)
    ensures
        r@ == first_paragraphs_spec(html@, max_paragraphs as nat, max_chars as nat),
        r@.len() <= max_chars,
{
    let v = chars_of(html);
    let open: Vec<char> = vec!['<', 'p'];
    let close: Vec<char> = vec!['<', '/', 'p', '>'];
    assert(open@ =~= open_tag());
    assert(close@ =~= close_tag());
    let n = v.len();
    let mut out: Vec<char> = Vec::new();
    let mut start: usize = 0;
    let mut count: usize = 0;
    let mut stop = false;
    while count < max_paragraphs && !stop
        invariant
            v@ == html@,
            n == v@.len(),
            open@ == open_tag(),
            close@ == close_tag(),
            count <= max_paragraphs,
            out@ + paragraphs_from(v@, start as int, (max_paragraphs - count) as nat)
                == paragraphs_from(v@, 0, max_paragraphs as nat),
            stop ==> paragraphs_from(v@, start as int, (max_paragraphs - count) as nat) =~= Seq::<char>::empty(),
        decreases max_paragraphs - count + (if stop { 0int } else { 1int }),
    {
        let ghost left = (max_paragraphs - count) as nat;
        match find_from_exec(&v, &open, start) {
            None => {
                stop = true;
            },
            Some(p) => {
                match find_from_exec(&v, &close, p) {
                    None => {
                        stop = true;
                    },
                    Some(c) => {
                        proof {
                            lemma_find_from(v@, open_tag(), start as int);
                            lemma_find_from(v@, close_tag(), p as int);
                        }
                        assert(c + 4 <= n);
                        let ghost before = out@;
                        let end = c + 4;
                        let mut k = p;
                        while k < end
                            invariant
                                p <= k <= end,
                                end <= v@.len(),
                                out@ == before + v@.subrange(p as int, k as int),
                            decreases end - k,
                        {
                            out.push(v[k]);
                            assert(v@.subrange(p as int, k + 1) =~= v@.subrange(p as int, k as int).push(v@[k as int]));
                            k = k + 1;
                        }
                        assert(paragraphs_from(v@, start as int, left) == v@.subrange(p as int, end as int)
                            + paragraphs_from(v@, end as int, (left - 1) as nat));
                        assert(before + (v@.subrange(p as int, end as int) + paragraphs_from(v@, end as int, (left - 1) as nat))
                            =~= out@ + paragraphs_from(v@, end as int, (left - 1) as nat));
                        start = end;
                        count = count + 1;
                    },
                }
            },
        }
    }
    proof {
        assert(paragraphs_from(v@, start as int, (max_paragraphs - count) as nat) =~= Seq::<char>::empty());
        assert(out@ + Seq::<char>::empty() =~= out@);
    }
    assert(out@ == paragraphs_from(html@, 0, max_paragraphs as nat));
    let mut result = if out.len() == 0 { v } else { out };
    let ghost whole = result@;
    if max_chars < result.len() {
        result.truncate(max_chars);
    }
    assert(result@ =~= take_chars(whole, max_chars as int));
    text_of(result.as_slice())
}

/// The HTML that pulldown-cmark renders for the Markdown text `md`, with
/// every extension switched on.
pub uninterp spec fn html_of(md: Seq<char>) -> Seq<char>;

/// Relies on `pulldown_cmark::Parser::new_ext` with `Options::all()` and
/// `pulldown_cmark::html::push_html`: the HTML depends on the text alone, and
/// empty text yields no events, hence no HTML.
#[verifier::external_body]
fn markdown_to_html(md: &str) -> (r: String)
    ensures
        r@ == html_of(md@),
        md@.len() == 0 ==> r@.len() == 0,
{
    let mut html = String::new();
    let parser = pulldown_cmark::Parser::new_ext(md, pulldown_cmark::Options::all());
    pulldown_cmark::html::push_html(&mut html, parser);
    html
}

/// Minimum length (in characters) of a trimmed body for it to be preferred
/// over a user-supplied description.
pub const MIN_BODY_PREVIEW_CHARS: usize = 80;

/// Number of Markdown characters considered for a shortened preview.
pub const PREVIEW_MD_SLICE_CHARS: usize = 4000;

/// Number of paragraph elements kept in a shortened preview.
pub const PREVIEW_PARAGRAPHS: usize = 3;

/// Maximum length (in characters) of a shortened preview.
pub const PREVIEW_MAX_CHARS: usize = 800;

/// The Markdown a shortened preview is made from: the trimmed body when it is
/// long enough or there is no description, else the description.
pub open spec fn preview_source(body: Seq<char>, description: Option<Seq<char>>) -> Seq<char> {
    let t = trim_spec(body);
    if t.len() >= MIN_BODY_PREVIEW_CHARS || description is None {
        t
    } else {
        description->Some_0
    }
}

/// The Markdown slice that a shortened preview renders: the preview source
/// without leading boilerplate, cut to its first characters.
pub open spec fn preview_markdown(body: Seq<char>, description: Option<Seq<char>>) -> Seq<char> {
    let s = preview_source(body, description);
    take_chars(s.subrange(boilerplate_cut(s), s.len() as int), PREVIEW_MD_SLICE_CHARS as int)
}

/// The preview of a chapter: its whole body rendered in full-preview mode,
/// else the first paragraphs of the rendered preview Markdown, bounded.
pub open spec fn preview_spec(body: Seq<char>, description: Option<Seq<char>>, full_preview: bool) -> Seq<char> {
    if full_preview {
        html_of(body)
    } else {
        first_paragraphs_spec(
            html_of(preview_markdown(body, description)),
            PREVIEW_PARAGRAPHS as nat,
            PREVIEW_MAX_CHARS as nat,
        )
    }
}

/// The HTML preview of a chapter with Markdown `body` and an optional
/// user-supplied `description`.
pub fn make_preview(body: &str, description: &Option<String>, full_preview: bool) -> (r: String)
    ensures
        r@ == preview_spec(body@, opt_string_view(*description), full_preview),
        !full_preview ==> r@.len() <= PREVIEW_MAX_CHARS,
        !full_preview ==> preview_markdown(body@, opt_string_view(*description)).len() <= PREVIEW_MD_SLICE_CHARS,
        body@.len() == 0 && (full_preview || *description is None) ==> r@.len() == 0,
{
    if full_preview {
        return markdown_to_html(body);
    }
    let trimmed = trim(body);
    let source: &str = match description {
        Some(d) => if trimmed.unicode_len() >= MIN_BODY_PREVIEW_CHARS { trimmed } else { d.as_str() },
        None => trimmed,
    };
    let stripped = strip_leading_boilerplate(source);
    let slice = utf8_prefix(stripped, PREVIEW_MD_SLICE_CHARS);
    proof {
        lemma_cut_bounds(source@, 0, false);
    }
    assert(slice@ == preview_markdown(body@, opt_string_view(*description)));
    let html = markdown_to_html(slice);
    proof {
        if body@.len() == 0 {
            assert(trim_spec(body@) =~= Seq::<char>::empty());
            if description is None {
                assert(slice@.len() == 0);
                assert(paragraphs_from(html@, 0, 3) =~= Seq::<char>::empty());
            }
        }
    }
    html_first_paragraphs(html.as_str(), PREVIEW_PARAGRAPHS, PREVIEW_MAX_CHARS)
}

/// A shortened preview holds at most `PREVIEW_MAX_CHARS` characters, and is
/// rendered from at most `PREVIEW_MD_SLICE_CHARS` characters of Markdown.
pub proof fn lemma_preview_bounded(body: Seq<char>, description: Option<Seq<char>>)
    ensures
        preview_spec(body, description, false).len() <= PREVIEW_MAX_CHARS,
        preview_markdown(body, description).len() <= PREVIEW_MD_SLICE_CHARS,
{
    let s = preview_source(body, description);
    lemma_cut_bounds(s, 0, false);
}

} // verus!
