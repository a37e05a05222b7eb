//! The feed assembler: one RSS item per chapter, and the items split into
//! feed pages.
use vstd::prelude::*;
use crate::collect::{chapters, collect_articles, newest_first, views, ArticleView, SourceFile};
use crate::date::{format_pub_date, opt_string_view, pub_date_text};
use crate::front_matter::Article;
use crate::paths::{last_index_exec, last_index_of, lemma_last_index_of, stem_of};
use crate::preview::{make_preview, preview_spec};
use crate::text::{chars_of, text_of};

verus! {

/// An item's globally unique identifier, and whether it is a permalink.
#[derive(Debug, Clone)]
pub struct Guid {
    pub value: String,
    pub permalink: bool,
}

/// One RSS 2.0 item.
#[derive(Debug, Clone)]
pub struct Item {
    pub title: Option<String>,
    pub link: Option<String>,
    pub description: Option<String>,
    pub guid: Option<Guid>,
    pub pub_date: Option<String>,
    pub author: Option<String>,
}

/// The content of an `Item`.
pub struct ItemView {
    pub title: Option<Seq<char>>,
    pub link: Option<Seq<char>>,
    pub description: Option<Seq<char>>,
    pub guid: Option<(Seq<char>, bool)>,
    pub pub_date: Option<Seq<char>>,
    pub author: Option<Seq<char>>,
}

impl View for Item {
    type V = ItemView;

    open spec fn view(&self) -> ItemView {
        ItemView {
            title: opt_string_view(self.title),
            link: opt_string_view(self.link),
            description: opt_string_view(self.description),
            guid: match self.guid {
                Some(g) => Some((g.value@, g.permalink)),
                None => None,
            },
            pub_date: opt_string_view(self.pub_date),
            author: opt_string_view(self.author),
        }
    }
}

/// One RSS 2.0 channel.
#[derive(Debug, Clone)]
pub struct Channel {
    pub title: String,
    pub link: String,
    pub description: String,
    pub generator: Option<String>,
    pub items: Vec<Item>,
}

/// One feed file: its name and its channel.
pub struct FeedPage {
    pub filename: String,
    pub channel: Channel,
}

/// The feed pages built for a book.
pub struct BuildResult {
    pub pages: Vec<FeedPage>,
}

/// `p` with each backslash turned into a slash.
pub open spec fn slashed(p: Seq<char>) -> Seq<char> {
    Seq::new(p.len(), |i: int| if p[i] == '\\' { '/' } else { p[i] })
}

/// `s` without its trailing slashes.
pub open spec fn trim_end_slashes(s: Seq<char>) -> Seq<char>
    decreases s.len(),
{
    if s.len() > 0 && s.last() == '/' {
        trim_end_slashes(s.drop_last())
    } else {
        s
    }
}

pub open spec fn readme() -> Seq<char> {
    seq!['R', 'E', 'A', 'D', 'M', 'E']
}

pub open spec fn index_html() -> Seq<char> {
    seq!['i', 'n', 'd', 'e', 'x', '.', 'h', 't', 'm', 'l']
}

pub open spec fn dot_html() -> Seq<char> {
    seq!['.', 'h', 't', 'm', 'l']
}

/// The page path of a chapter path: slashes for backslashes, the extension
/// of the file name replaced by `.html`, and a `README` page named
/// `index.html`.
pub open spec fn html_path(p: Seq<char>) -> Seq<char> {
    let q = slashed(p);
    let l = last_index_of(q, '/');
    let dir = q.subrange(0, l + 1);
    let stem = stem_of(q.subrange(l + 1, q.len() as int));
    if stem == readme() {
        dir + index_html()
    } else {
        dir + stem + dot_html()
    }
}

/// The absolute link of the page of a chapter: the site URL without its
/// trailing slashes, one slash, and the page path.
pub open spec fn link_spec(site_url: Seq<char>, path: Seq<char>) -> Seq<char> {
    trim_end_slashes(site_url) + seq!['/'] + html_path(path)
}

/// Appends the characters of `v` to `out`.
pub(crate) fn push_chars(out: &mut Vec<char>, v: &Vec<char>)
    ensures
        final(out)@ == old(out)@ + v@,
{
    let ghost start = old(out)@;
    let mut k: usize = 0;
    while k < v.len()
        invariant
            k <= v@.len(),
            out@ == start + v@.subrange(0, k as int),
        decreases v@.len() - k,
    {
        out.push(v[k]);
        assert(v@.subrange(0, k + 1) =~= v@.subrange(0, k as int).push(v@[k as int]));
        k = k + 1;
    }
    assert(v@.subrange(0, v@.len() as int) =~= v@);
}

/// Appends `v[from..to]` to `out`.
fn push_range(out: &mut Vec<char>, v: &Vec<char>, from: usize, to: usize)
    requires
        from <= to <= v@.len(),
    ensures
        final(out)@ == old(out)@ + v@.subrange(from as int, to as int),
{
    let ghost start = old(out)@;
    let mut k = from;
    while k < to
        invariant
            from <= k <= to <= v@.len(),
            out@ == start + v@.subrange(from as int, k as int),
        decreases to - k,
    {
        out.push(v[k]);
        assert(v@.subrange(from as int, k + 1) =~= v@.subrange(from as int, k as int).push(v@[k as int]));
        k = k + 1;
    }
}

/// `s` without its trailing slashes.
pub(crate) fn trim_end_slashes_exec(s: &str) -> (r: Vec<char>)
    ensures
        r@ == trim_end_slashes(s@),
{
    let mut v = chars_of(s);
    while v.len() > 0 && v[v.len() - 1] == '/'
        invariant
            trim_end_slashes(v@) == trim_end_slashes(s@),
        decreases v@.len(),
    {
        v.pop();
    }
    v
}

/// The absolute link of the page of the chapter at `path`.
pub fn link_for(site_url: &str, path: &str) -> (r: String)
    ensures
        r@ == link_spec(site_url@, path@),
{
    let p = chars_of(path);
    let mut q: Vec<char> = Vec::new();
    let mut k: usize = 0;
    while k < p.len()
        invariant
            k <= p@.len(),
            q@ == slashed(p@).subrange(0, k as int),
        decreases p@.len() - k,
    {
        q.push(if p[k] == '\\' { '/' } else { p[k] });
        assert(slashed(p@).subrange(0, k + 1) =~= slashed(p@).subrange(0, k as int).push(slashed(p@)[k as int]));
        k = k + 1;
    }
    assert(slashed(p@).subrange(0, p@.len() as int) =~= slashed(p@));
    let ghost qs = slashed(path@);
    proof {
        lemma_last_index_of(qs, '/');
    }
    let start = match last_index_exec(&q, '/') {
        Some(l) => l + 1,
        None => 0,
    };
    let mut out = trim_end_slashes_exec(site_url);
    out.push('/');
    push_range(&mut out, &q, 0, start);
    let mut name: Vec<char> = Vec::new();
    push_range(&mut name, &q, start, q.len());
    assert(name@ =~= qs.subrange(start as int, qs.len() as int));
    let stem = crate::paths::file_stem(&name);
    let readme_v: Vec<char> = vec!['R', 'E', 'A', 'D', 'M', 'E'];
    assert(readme_v@ =~= readme());
    if same_chars(&stem, &readme_v) {
        let index_v: Vec<char> = vec!['i', 'n', 'd', 'e', 'x', '.', 'h', 't', 'm', 'l'];
        assert(index_v@ =~= index_html());
        push_chars(&mut out, &index_v);
    } else {
        let html_v: Vec<char> = vec!['.', 'h', 't', 'm', 'l'];
        assert(html_v@ =~= dot_html());
        push_chars(&mut out, &stem);
        push_chars(&mut out, &html_v);
    }
    assert(out@ =~= link_spec(site_url@, path@));
    text_of(out.as_slice())
}

/// Whether `a` and `b` hold the same characters.
fn same_chars(a: &Vec<char>, b: &Vec<char>) -> (r: bool)
    ensures
        r == (a@ == b@),
{
    if a.len() != b.len() {
        return false;
    }
    let mut i: usize = 0;
    while i < a.len()
        invariant
            a@.len() == b@.len(),
            i <= a@.len(),
            forall|k: int| 0 <= k < i ==> a@[k] == b@[k],
        decreases a@.len() - i,
    {
        if a[i] != b[i] {
            return false;
        }
        i = i + 1;
    }
    assert(a@ =~= b@);
    true
}

/// The item of a chapter: its title, the link of its page (also its
/// permalink guid), its preview as description, its date as RFC 2822 where
/// that format can hold it, and its author.
pub open spec fn item_spec(a: ArticleView, site_url: Seq<char>, full_preview: bool) -> ItemView {
    let link = link_spec(site_url, a.path);
    ItemView {
        title: Some(a.fm.title),
        link: Some(link),
        description: Some(preview_spec(a.content, a.fm.description, full_preview)),
        guid: Some((link, true)),
        pub_date: match a.fm.date {
            Some(d) => pub_date_text(d),
            None => None,
        },
        author: a.fm.author,
    }
}

/// The feed item of one chapter.
pub fn build_item(article: &Article, site_url: &str, full_preview: bool) -> (r: Item)
    ensures
        r@ == item_spec(article@, site_url@, full_preview),
{
    let link = link_for(site_url, article.path.as_str());
    let preview = make_preview(article.content.as_str(), &article.fm.description, full_preview);
    let pub_date = match article.fm.date {
        Some(d) => format_pub_date(d),
        None => None,
    };
    let author = match &article.fm.author {
        Some(a) => Some(a.clone()),
        None => None,
    };
    Item {
        title: Some(article.fm.title.clone()),
        link: Some(link.clone()),
        description: Some(preview),
        guid: Some(Guid { value: link, permalink: true }),
        pub_date,
        author,
    }
}

/// A chapter's link has no backslash when the site URL has none, ends in
/// `.html`, and ends in `/index.html` (or is `index.html` after the site
/// URL) when the chapter's file stem is `README`.
pub proof fn lemma_link_shape(site_url: Seq<char>, path: Seq<char>)
    requires
        forall|i: int| 0 <= i < site_url.len() ==> site_url[i] != '\\',
    ensures
        ({
            let l = link_spec(site_url, path);
            &&& forall|i: int| 0 <= i < l.len() ==> #[trigger] l[i] != '\\'
            &&& l.len() >= 5 && l.subrange(l.len() - 5, l.len() as int) == dot_html()
            &&& stem_of(slashed(path).subrange(last_index_of(slashed(path), '/') + 1, path.len() as int)) == readme()
                ==> l.len() >= 11 && l.subrange(l.len() - 11, l.len() as int) == seq!['/'] + index_html()
        }),
{
    let q = slashed(path);
    let l = link_spec(site_url, path);
    lemma_last_index_of(q, '/');
    lemma_trim_end_slashes(site_url);
    let t = trim_end_slashes(site_url);
    let i = last_index_of(q, '/');
    let dir = q.subrange(0, i + 1);
    let stem = stem_of(q.subrange(i + 1, q.len() as int));
    crate::paths::lemma_last_index_of(q.subrange(i + 1, q.len() as int), '.');
    let name = q.subrange(i + 1, q.len() as int);
    let tail = if stem == readme() { index_html() } else { stem + dot_html() };
    assert(l =~= t + seq!['/'] + dir + tail);
    assert forall|k: int| 0 <= k < tail.len() implies #[trigger] tail[k] != '\\' by {
        if stem != readme() && k < stem.len() {
            assert(stem[k] == name[k]);
            assert(name[k] == q[i + 1 + k]);
        }
    }
    assert forall|k: int| 0 <= k < l.len() implies #[trigger] l[k] != '\\' by {
        if k < t.len() {
            assert(l[k] == t[k]);
            assert(t[k] == site_url[k]);
        } else if k == t.len() {
            assert(l[k] == '/');
        } else if k < t.len() + 1 + dir.len() {
            assert(l[k] == dir[k - t.len() - 1]);
            assert(dir[k - t.len() - 1] == q[k - t.len() - 1]);
        } else {
            assert(l[k] == tail[k - t.len() - 1 - dir.len()]);
        }
    }
    if stem == readme() {
        assert(l.subrange(l.len() - 5, l.len() as int) =~= dot_html());
        if i >= 0 {
            assert(l.subrange(l.len() - 11, l.len() as int) =~= seq!['/'] + index_html());
        } else {
            assert(dir.len() == 0);
            assert(l.subrange(l.len() - 11, l.len() as int) =~= seq!['/'] + index_html());
        }
    } else {
        assert(l.subrange(l.len() - 5, l.len() as int) =~= dot_html());
    }
}

proof fn lemma_trim_end_slashes(s: Seq<char>)
    ensures
        trim_end_slashes(s).len() <= s.len(),
        forall|k: int| 0 <= k < trim_end_slashes(s).len() ==> trim_end_slashes(s)[k] == s[k],
    decreases s.len(),
{
    if s.len() > 0 && s.last() == '/' {
        lemma_trim_end_slashes(s.drop_last());
        assert forall|k: int| 0 <= k < trim_end_slashes(s).len() implies trim_end_slashes(s)[k] == s[k] by {
            assert(s.drop_last()[k] == s[k]);
        }
    }
}

/// The decimal digit `d`.
pub open spec fn digit(d: nat) -> char {
    if d == 0 { '0' } else if d == 1 { '1' } else if d == 2 { '2' } else if d == 3 { '3' }
    else if d == 4 { '4' } else if d == 5 { '5' } else if d == 6 { '6' } else if d == 7 { '7' }
    else if d == 8 { '8' } else { '9' }
}

/// The decimal numeral of `n`, without leading zeros.
pub open spec fn decimal(n: nat) -> Seq<char>
    decreases n,
{
    if n < 10 {
        seq![digit(n)]
    } else {
        decimal(n / 10).push(digit(n % 10))
    }
}

fn digit_exec(d: usize) -> (r: char)
    requires
        d < 10,
    ensures
        r == digit(d as nat),
{
    if d == 0 { '0' } else if d == 1 { '1' } else if d == 2 { '2' } else if d == 3 { '3' }
    else if d == 4 { '4' } else if d == 5 { '5' } else if d == 6 { '6' } else if d == 7 { '7' }
    else if d == 8 { '8' } else { '9' }
}

/// The decimal numeral of `n`.
pub fn decimal_exec(n: usize) -> (r: Vec<char>)
    ensures
        r@ == decimal(n as nat),
    decreases n,
{
    if n < 10 {
        vec![digit_exec(n)]
    } else {
        let mut v = decimal_exec(n / 10);
        v.push(digit_exec(n % 10));
        v
    }
}

/// The file name of page `idx` (from 0) of a paginated set: `stem.ext` for
/// the first page, `stemN.ext` with the page number N for the others.
pub open spec fn page_file_name_spec(stem: Seq<char>, ext: Seq<char>, idx: nat) -> Seq<char> {
    if idx == 0 {
        stem + seq!['.'] + ext
    } else {
        stem + decimal(idx + 1) + seq!['.'] + ext
    }
}

/// The file name of page `idx` (from 0): `stem.ext`, then `stem2.ext`,
/// `stem3.ext`, and so on.
pub fn page_file_name(stem: &str, ext: &str, idx: usize) -> (r: String)
    requires
        idx < usize::MAX,
    ensures
        r@ == page_file_name_spec(stem@, ext@, idx as nat),
{
    let mut out = chars_of(stem);
    if idx > 0 {
        let num = decimal_exec(idx + 1);
        push_chars(&mut out, &num);
    }
    out.push('.');
    let e = chars_of(ext);
    push_chars(&mut out, &e);
    text_of(out.as_slice())
}

/// All items go into one page: pagination is off, the page size is zero, or
/// the items fit in one page.
pub open spec fn single_page(n: int, max_items: int, paginated: bool) -> bool {
    !paginated || max_items == 0 || n <= max_items
}

/// The number of pages for `n` items.
pub open spec fn page_count(n: int, max_items: int, paginated: bool) -> int {
    if single_page(n, max_items, paginated) {
        1
    } else {
        (n + max_items - 1) / max_items
    }
}

/// The items of page `i`: all of them on a single page, else those from
/// `i * max_items` up to `(i + 1) * max_items` or the end.
pub open spec fn page_items(s: Seq<ItemView>, max_items: int, paginated: bool, i: int) -> Seq<ItemView> {
    if single_page(s.len() as int, max_items, paginated) {
        s
    } else {
        let a = i * max_items;
        s.subrange(a, if a + max_items < s.len() { a + max_items } else { s.len() as int })
    }
}

/// The channel holds the given metadata and items; its link is the site URL
/// with exactly one trailing slash.
pub open spec fn channel_ok(
    c: Channel,
    title: Seq<char>,
    site_url: Seq<char>,
    description: Seq<char>,
    generator: Seq<char>,
    items: Seq<ItemView>,
) -> bool {
    &&& c.title@ == title
    &&& c.link@ == trim_end_slashes(site_url) + seq!['/']
    &&& c.description@ == description
    &&& opt_string_view(c.generator) == Some(generator)
    &&& views(c.items@) == items
}

/// The pages split `items` as the pagination policy says, named `rss.xml`,
/// `rss2.xml`, and so on, each with the shared channel metadata.
pub open spec fn pages_ok(
    pages: Seq<FeedPage>,
    items: Seq<ItemView>,
    title: Seq<char>,
    site_url: Seq<char>,
    description: Seq<char>,
    generator: Seq<char>,
    max_items: int,
    paginated: bool,
) -> bool {
    &&& pages.len() == page_count(items.len() as int, max_items, paginated)
    &&& forall|i: int| 0 <= i < pages.len() ==> {
        &&& (#[trigger] pages[i]).filename@ == page_file_name_spec(seq!['r', 's', 's'], seq!['x', 'm', 'l'], i as nat)
        &&& channel_ok(pages[i].channel, title, site_url, description, generator, page_items(items, max_items, paginated, i))
    }
}

fn make_channel(title: &str, link: &Vec<char>, description: &str, generator: &str, items: Vec<Item>) -> (r: Channel)
    ensures
        r.title@ == title@,
        r.link@ == link@,
        r.description@ == description@,
        opt_string_view(r.generator) == Some(generator@),
        r.items@ == items@,
{
    Channel {
        title: title.to_owned(),
        link: text_of(link.as_slice()),
        description: description.to_owned(),
        generator: Some(generator.to_owned()),
        items,
    }
}

proof fn lemma_ceil(n: int, m: int, k: int)
    requires
        m > 0,
        (k - 1) * m < n <= k * m,
    ensures
        (n + m - 1) / m == k,
{
    assert((k - 1) * m + m == k * m) by (nonlinear_arith);
    let q = (n + m - 1) / m;
    assert(k * m <= n + m - 1 < (k + 1) * m) by (nonlinear_arith)
        requires (k - 1) * m < n <= k * m, m > 0;
    vstd::arithmetic::div_mod::lemma_div_pos_is_pos(0, m);
    vstd::arithmetic::div_mod::lemma_fundamental_div_mod(n + m - 1, m);
    assert(q == k) by (nonlinear_arith)
        requires
            m > 0,
            n + m - 1 == m * q + (n + m - 1) % m,
            0 <= (n + m - 1) % m < m,
            k * m <= n + m - 1 < (k + 1) * m;
}

/// Splits `items` into feed pages: one page `rss.xml` with all of them when
/// pagination is off, `max_items` is zero or they fit; else pages of
/// `max_items` items (the last may hold fewer) named `rss.xml`, `rss2.xml`,
/// `rss3.xml`, and so on, in order.
pub fn paginate(
    items: Vec<Item>,
    title: &str,
    site_url: &str,
    description: &str,
    generator: &str,
    max_items: usize,
    paginated: bool,
) -> (r: Vec<FeedPage>)
    ensures
        pages_ok(r@, views(items@), title@, site_url@, description@, generator@, max_items as int, paginated),
{
    let ghost all = views(items@);
    let n = items.len();
    let mut link = trim_end_slashes_exec(site_url);
    link.push('/');
    assert(link@ =~= trim_end_slashes(site_url@) + seq!['/']);
    let mut pages: Vec<FeedPage> = Vec::new();
    if !paginated || max_items == 0 || n <= max_items {
        let filename = page_file_name("rss", "xml", 0);
        proof {
            reveal_strlit("rss");
            reveal_strlit("xml");
        }
        assert(filename@ =~= page_file_name_spec(seq!['r', 's', 's'], seq!['x', 'm', 'l'], 0));
        let channel = make_channel(title, &link, description, generator, items);
        pages.push(FeedPage { filename, channel });
        return pages;
    }
    let mut rest = items;
    let mut idx: usize = 0;
    let ghost mut start: int = 0;
    while rest.len() > 0
        invariant
            n == all.len(),
            max_items > 0,
            paginated,
            n > max_items,
            start == idx * max_items || (start == n && n <= idx * max_items),
            idx > 0 ==> (idx - 1) * max_items < n,
            idx <= n,
            start <= n,
            rest@.len() == n - start,
            views(rest@) == all.subrange(start, n as int),
            link@ == trim_end_slashes(site_url@) + seq!['/'],
            pages@.len() == idx,
            forall|i: int| 0 <= i < idx ==> {
                &&& (#[trigger] pages@[i]).filename@ == page_file_name_spec(seq!['r', 's', 's'], seq!['x', 'm', 'l'], i as nat)
                &&& channel_ok(pages@[i].channel, title@, site_url@, description@, generator@, page_items(all, max_items as int, paginated, i))
            },
        decreases rest@.len(),
    {
        assert(start == idx * max_items);
        assert(idx < n) by (nonlinear_arith)
            requires
                start == idx * max_items,
                start < n,
                max_items > 0;
        let ghost old_rest = rest@;
        let tail = if rest.len() > max_items { rest.split_off(max_items) } else { Vec::new() };
        let ghost end: int = if start + max_items < n { start + max_items } else { n as int };
        assert(views(rest@) =~= all.subrange(start, end));
        assert forall|k: int| 0 <= k < tail@.len() implies #[trigger] views(tail@)[k] == all.subrange(end, n as int)[k] by {
            assert(tail@[k] == old_rest[max_items + k]);
            assert(views(old_rest)[max_items + k] == old_rest[max_items + k]@);
        }
        assert(views(tail@) =~= all.subrange(end, n as int));
        let filename = page_file_name("rss", "xml", idx);
        proof {
            reveal_strlit("rss");
            reveal_strlit("xml");
        }
        let channel = make_channel(title, &link, description, generator, rest);
        assert(page_items(all, max_items as int, paginated, idx as int) == all.subrange(start, end));
        pages.push(FeedPage { filename, channel });
        rest = tail;
        proof {
            assert((idx + 1) * max_items == idx * max_items + max_items) by (nonlinear_arith);
            start = if start + max_items < n { start + max_items } else { n as int };
        }
        idx = idx + 1;
        assert(idx <= n) by (nonlinear_arith)
            requires
                idx >= 1,
                (idx - 1) * max_items < n,
                max_items > 0;
    }
    proof {
        lemma_ceil(n as int, max_items as int, idx as int);
    }
    pages
}

/// The items of pages `0..k`, joined in page order.
pub open spec fn joined_pages(items: Seq<ItemView>, max_items: int, paginated: bool, k: nat) -> Seq<ItemView>
    decreases k,
{
    if k == 0 {
        Seq::empty()
    } else {
        joined_pages(items, max_items, paginated, (k - 1) as nat) + page_items(items, max_items, paginated, k - 1)
    }
}

proof fn lemma_joined_prefix(items: Seq<ItemView>, max_items: int, k: nat)
    requires
        max_items > 0,
        items.len() > max_items,
        (k - 1) * max_items < items.len() || k == 0,
    ensures
        joined_pages(items, max_items, true, k) == items.subrange(
            0,
            if k * max_items < items.len() { k * max_items } else { items.len() as int },
        ),
    decreases k,
{
    if k == 0 {
        assert(items.subrange(0, 0) =~= Seq::<ItemView>::empty());
    } else {
        let j = (k - 1) as nat;
        assert(k * max_items == j * max_items + max_items) by (nonlinear_arith)
            requires j == k - 1;
        if j > 0 {
            assert((j - 1) * max_items < items.len()) by (nonlinear_arith)
                requires (k - 1) * max_items < items.len(), j == k - 1, max_items > 0;
        }
        lemma_joined_prefix(items, max_items, j);
        let a = j * max_items;
        assert(a < items.len());
        let b = if a + max_items < items.len() { a + max_items } else { items.len() as int };
        assert(items.subrange(0, a) + items.subrange(a, b) =~= items.subrange(0, b));
    }
}

/// Pagination with page size `max_items > 0` over `n > 0` items makes
/// `ceil(n / max_items)` pages; page `i` holds the items from
/// `i * max_items` up to `min((i + 1) * max_items, n)`; and the pages joined
/// in order give back all the items in their order.
pub proof fn lemma_pagination(items: Seq<ItemView>, max_items: int)
    requires
        max_items > 0,
        items.len() > 0,
    ensures
        page_count(items.len() as int, max_items, true) == (items.len() + max_items - 1) / max_items,
        forall|i: int| 0 <= i < page_count(items.len() as int, max_items, true) ==>
            #[trigger] page_items(items, max_items, true, i) == items.subrange(
                i * max_items,
                if (i + 1) * max_items < items.len() { (i + 1) * max_items } else { items.len() as int },
            ),
        joined_pages(items, max_items, true, page_count(items.len() as int, max_items, true) as nat) == items,
{
    let n = items.len() as int;
    if n <= max_items {
        lemma_ceil(n, max_items, 1);
        assert forall|i: int| 0 <= i < page_count(n, max_items, true) implies
            #[trigger] page_items(items, max_items, true, i) == items.subrange(
                i * max_items,
                if (i + 1) * max_items < n { (i + 1) * max_items } else { n },
            ) by {
            assert(i == 0);
            assert(items.subrange(0, n) =~= items);
        }
        assert(joined_pages(items, max_items, true, 0) == Seq::<ItemView>::empty());
        assert(page_items(items, max_items, true, 0) == items);
        assert(joined_pages(items, max_items, true, 1) == Seq::<ItemView>::empty() + items);
        assert(Seq::<ItemView>::empty() + items =~= items);
    } else {
        let c = (n + max_items - 1) / max_items;
        assert forall|i: int| 0 <= i < c implies
            #[trigger] page_items(items, max_items, true, i) == items.subrange(
                i * max_items,
                if (i + 1) * max_items < n { (i + 1) * max_items } else { n },
            ) by {
            assert((i + 1) * max_items == i * max_items + max_items) by (nonlinear_arith);
        }
        vstd::arithmetic::div_mod::lemma_fundamental_div_mod(n + max_items - 1, max_items);
        let r = (n + max_items - 1) % max_items;
        assert(c >= 1 && (c - 1) * max_items < n && n <= c * max_items) by (nonlinear_arith)
            requires
                n + max_items - 1 == max_items * c + r,
                0 <= r < max_items,
                n > max_items,
                max_items > 0;
        lemma_joined_prefix(items, max_items, c as nat);
        assert(items.subrange(0, n) =~= items);
    }
}

/// The items of the articles `s`, in order.
pub open spec fn items_of(s: Seq<ArticleView>, site_url: Seq<char>, full_preview: bool) -> Seq<ItemView> {
    Seq::new(s.len(), |i: int| item_spec(s[i], site_url, full_preview))
}

/// The generator named in every channel.
pub open spec fn generator_name() -> Seq<char> {
    "mdbook-rss-feed 1.0.0"@
}

/// Builds the feed pages of a book from the files under its source root:
/// its chapters newest first, one item each, split into pages.
pub fn build_feed(
    root: &str,
    files: &Vec<SourceFile>,
    title: &str,
    site_url: &str,
    description: &str,
    full_preview: bool,
    max_items: usize,
    paginated: bool,
) -> (r: BuildResult)
    ensures
        pages_ok(
            r.pages@,
            items_of(newest_first(chapters(root@, views(files@))), site_url@, full_preview),
            title@,
            site_url@,
            description@,
            generator_name(),
            max_items as int,
            paginated,
        ),
{
    let articles = collect_articles(root, files);
    let ghost av = views(articles@);
    let mut items: Vec<Item> = Vec::new();
    let mut i: usize = 0;
    while i < articles.len()
        invariant
            i <= articles@.len(),
            av == views(articles@),
            items@.len() == i,
            views(items@) == items_of(av.subrange(0, i as int), site_url@, full_preview),
        decreases articles@.len() - i,
    {
        assert(av[i as int] == articles@[i as int]@);
        let item = build_item(&articles[i], site_url, full_preview);
        let ghost prev = items@;
        items.push(item);
        assert forall|k: int| 0 <= k <= i implies #[trigger] views(items@)[k]
            == items_of(av.subrange(0, i + 1), site_url@, full_preview)[k] by {
            if k < i {
                assert(items@[k] == prev[k]);
                assert(views(prev)[k] == items_of(av.subrange(0, i as int), site_url@, full_preview)[k]);
            }
        }
        assert(views(items@) =~= items_of(av.subrange(0, i + 1), site_url@, full_preview));
        i = i + 1;
    }
    assert(av.subrange(0, articles@.len() as int) =~= av);
    let pages = paginate(items, title, site_url, description, "mdbook-rss-feed 1.0.0", max_items, paginated);
    BuildResult { pages }
}

} // verus!
