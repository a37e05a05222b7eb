//! Collecting chapters: which files are chapters, and their newest-first order.
use vstd::prelude::*;
use crate::date::{date_le, date_le_exec, Stamp};
use crate::front_matter::{body_of, front_matter_of, parse_markdown_file, Article, FrontMatterView};
use crate::paths::{extension_of, file_extension, file_name, file_name_of, is_file_name, stem_of, strip_root, valid_file_path};

verus! {

/// A file found under the source root: its path, its text and its
/// modification time.
pub struct SourceFile {
    pub path: String,
    pub text: String,
    pub modified: Option<Stamp>,
}

/// The content of a `SourceFile`.
pub struct SourceFileView {
    pub path: Seq<char>,
    pub text: Seq<char>,
    pub modified: Option<Stamp>,
}

impl View for SourceFile {
    type V = SourceFileView;

    open spec fn view(&self) -> SourceFileView {
        SourceFileView { path: self.path@, text: self.text@, modified: self.modified }
    }
}

/// The content of an `Article`.
pub struct ArticleView {
    pub fm: FrontMatterView,
    pub content: Seq<char>,
    pub path: Seq<char>,
}

impl View for Article {
    type V = ArticleView;

    open spec fn view(&self) -> ArticleView {
        ArticleView { fm: self.fm@, content: self.content@, path: self.path@ }
    }
}

/// The views of a sequence of values.
pub open spec fn views<T: View>(s: Seq<T>) -> Seq<T::V> {
    Seq::new(s.len(), |k: int| s[k]@)
}

/// `c` with an ASCII capital letter lowered.
pub open spec fn ascii_lower(c: char) -> int {
    if 'A' <= c && c <= 'Z' { (c as u32) + 32 } else { c as u32 as int }
}

/// `a` and `b` are equal but for the case of ASCII letters.
pub open spec fn eq_ignore_ascii_case(a: Seq<char>, b: Seq<char>) -> bool {
    a.len() == b.len() && forall|i: int| 0 <= i < a.len() ==> ascii_lower(#[trigger] a[i]) == ascii_lower(b[i])
}

/// A chapter file: a Markdown extension (`md` or `markdown`, in any case),
/// and not the table of contents `SUMMARY.md` (in any case).
pub open spec fn is_chapter(path: Seq<char>) -> bool {
    let name = file_name_of(path);
    &&& valid_file_path(path)
    &&& extension_of(name) is Some
    &&& (eq_ignore_ascii_case(extension_of(name)->Some_0, seq!['m', 'd'])
        || eq_ignore_ascii_case(extension_of(name)->Some_0, seq!['m', 'a', 'r', 'k', 'd', 'o', 'w', 'n']))
    &&& !eq_ignore_ascii_case(name, seq!['S', 'U', 'M', 'M', 'A', 'R', 'Y', '.', 'm', 'd'])
}

/// The article parsed from a chapter file.
pub open spec fn article_of(root: Seq<char>, f: SourceFileView) -> ArticleView {
    ArticleView {
        fm: front_matter_of(f.text, stem_of(file_name_of(f.path)), f.modified),
        content: body_of(f.text),
        path: strip_root(f.path, root),
    }
}

/// The articles of the chapter files among `fs`, in the order of `fs`.
pub open spec fn chapters(root: Seq<char>, fs: Seq<SourceFileView>) -> Seq<ArticleView>
    decreases fs.len(),
{
    if fs.len() == 0 {
        Seq::empty()
    } else if is_chapter(fs.last().path) {
        chapters(root, fs.drop_last()).push(article_of(root, fs.last()))
    } else {
        chapters(root, fs.drop_last())
    }
}

/// `a` is strictly older than `b`, absent dates oldest.
pub open spec fn date_lt(a: Option<Stamp>, b: Option<Stamp>) -> bool {
    !date_le(b, a)
}

/// Index of the first article of `s` at or after `j` that is strictly older
/// than `d`, or `s.len()`.
pub open spec fn first_older(s: Seq<ArticleView>, d: Option<Stamp>, j: int) -> int
    decreases s.len() - j,
{
    if j < 0 || j >= s.len() {
        s.len() as int
    } else if date_lt(s[j].fm.date, d) {
        j
    } else {
        first_older(s, d, j + 1)
    }
}

/// `s` ordered newest first, stably: each article in turn goes after every
/// article that is not older than it.
pub open spec fn newest_first(s: Seq<ArticleView>) -> Seq<ArticleView>
    decreases s.len(),
{
    if s.len() == 0 {
        Seq::empty()
    } else {
        let r = newest_first(s.drop_last());
        r.insert(first_older(r, s.last().fm.date, 0), s.last())
    }
}

/// The articles of `s` without a date, in the order of `s`.
pub open spec fn dateless(s: Seq<ArticleView>) -> Seq<ArticleView>
    decreases s.len(),
{
    if s.len() == 0 {
        Seq::empty()
    } else if s.last().fm.date is None {
        dateless(s.drop_last()).push(s.last())
    } else {
        dateless(s.drop_last())
    }
}

/// Number of articles of `s` with a date.
pub open spec fn dated_count(s: Seq<ArticleView>) -> nat
    decreases s.len(),
{
    if s.len() == 0 {
        0
    } else if s.last().fm.date is None {
        dated_count(s.drop_last())
    } else {
        dated_count(s.drop_last()) + 1
    }
}

proof fn lemma_first_older(s: Seq<ArticleView>, d: Option<Stamp>, j: int)
    requires
        0 <= j <= s.len(),
    ensures
        j <= first_older(s, d, j) <= s.len(),
        forall|k: int| j <= k < first_older(s, d, j) ==> !date_lt(#[trigger] s[k].fm.date, d),
        first_older(s, d, j) < s.len() ==> date_lt(s[first_older(s, d, j)].fm.date, d),
    decreases s.len() - j,
{
    if j < s.len() && !date_lt(s[j].fm.date, d) {
        lemma_first_older(s, d, j + 1);
    }
}

/// Ordering a sequence newest first keeps its length, orders it by date from
/// newest to oldest, puts the dated articles first, and leaves the dateless
/// ones in their original order after them.
pub proof fn lemma_newest_first(s: Seq<ArticleView>)
    ensures
        newest_first(s).len() == s.len(),
        dated_count(s) <= s.len(),
        forall|i: int, j: int| 0 <= i < j < s.len() ==>
            date_le(#[trigger] newest_first(s)[j].fm.date, #[trigger] newest_first(s)[i].fm.date),
        forall|i: int| 0 <= i < dated_count(s) ==> (#[trigger] newest_first(s)[i]).fm.date is Some,
        newest_first(s).subrange(dated_count(s) as int, s.len() as int) == dateless(s),
    decreases s.len(),
{
    if s.len() > 0 {
        let p = s.drop_last();
        let x = s.last();
        lemma_newest_first(p);
        let r = newest_first(p);
        let m = dated_count(p) as int;
        let j = first_older(r, x.fm.date, 0);
        lemma_first_older(r, x.fm.date, 0);
        let r2 = r.insert(j, x);
        assert(newest_first(s) == r2);
        assert forall|i: int, k: int| 0 <= i < k < s.len() implies
            date_le(#[trigger] r2[k].fm.date, #[trigger] r2[i].fm.date) by {
            if i < j && k < j {
                assert(r2[i] == r[i] && r2[k] == r[k]);
            } else if i < j && k == j {
                assert(r2[i] == r[i]);
            } else if i < j {
                assert(r2[i] == r[i] && r2[k] == r[k - 1]);
                if j < r.len() {
                    assert(date_le(r[k - 1].fm.date, r[j].fm.date));
                }
            } else if i == j {
                assert(r2[k] == r[k - 1]);
                assert(date_le(r[k - 1].fm.date, r[j].fm.date));
            } else {
                assert(r2[i] == r[i - 1] && r2[k] == r[k - 1]);
            }
        }
        if x.fm.date is None {
            assert(j == r.len()) by {
                if j < r.len() {
                    assert(date_lt(r[j].fm.date, x.fm.date));
                }
            }
            assert(r2.subrange(m, s.len() as int) =~= r.subrange(m, p.len() as int).push(x));
        } else {
            assert(j <= m) by {
                if j > m {
                    assert(r.subrange(m, p.len() as int)[0] == r[m]);
                    assert(dateless(p).len() > 0 ==> dateless(p)[0].fm.date is None) by {
                        lemma_dateless(p);
                    }
                    assert(!date_lt(r[m].fm.date, x.fm.date));
                }
            }
            assert(r2.subrange(m + 1, s.len() as int) =~= r.subrange(m, p.len() as int));
            assert forall|i: int| 0 <= i < m + 1 implies (#[trigger] r2[i]).fm.date is Some by {
                if i < j {
                    assert(r2[i] == r[i]);
                } else if i > j {
                    assert(r2[i] == r[i - 1]);
                }
            }
        }
    }
}

/// Every article of `dateless(s)` lacks a date.
pub proof fn lemma_dateless(s: Seq<ArticleView>)
    ensures
        forall|i: int| 0 <= i < dateless(s).len() ==> (#[trigger] dateless(s)[i]).fm.date is None,
    decreases s.len(),
{
    if s.len() > 0 {
        lemma_dateless(s.drop_last());
    }
}

/// Whether `a` and `b` are equal but for the case of ASCII letters.
fn eq_ignore_case_exec(a: &Vec<char>, b: &Vec<char>) -> (r: bool)
    ensures
        r == eq_ignore_ascii_case(a@, b@),
{
    if a.len() != b.len() {
        return false;
    }
    let mut i: usize = 0;
    while i < a.len()
        invariant
            a@.len() == b@.len(),
            i <= a@.len(),
            forall|k: int| 0 <= k < i ==> ascii_lower(#[trigger] a@[k]) == ascii_lower(b@[k]),
        decreases a@.len() - i,
    {
        let x = a[i];
        let y = b[i];
        let lx: u32 = if 'A' <= x && x <= 'Z' { (x as u32) + 32 } else { x as u32 };
        let ly: u32 = if 'A' <= y && y <= 'Z' { (y as u32) + 32 } else { y as u32 };
        if lx != ly {
            return false;
        }
        i = i + 1;
    }
    true
}

/// Whether the file at `path` is a chapter: a Markdown file other than the
/// table of contents.
pub fn is_chapter_path(path: &str) -> (r: bool)
    ensures
        r == is_chapter(path@),
{
    let name = file_name(path);
    if !is_file_name(&name) {
        return false;
    }
    let md: Vec<char> = vec!['m', 'd'];
    let markdown: Vec<char> = vec!['m', 'a', 'r', 'k', 'd', 'o', 'w', 'n'];
    let summary: Vec<char> = vec!['S', 'U', 'M', 'M', 'A', 'R', 'Y', '.', 'm', 'd'];
    assert(md@ =~= seq!['m', 'd']);
    assert(markdown@ =~= seq!['m', 'a', 'r', 'k', 'd', 'o', 'w', 'n']);
    assert(summary@ =~= seq!['S', 'U', 'M', 'M', 'A', 'R', 'Y', '.', 'm', 'd']);
    let markdown_ext = match file_extension(&name) {
        Some(ext) => eq_ignore_case_exec(&ext, &md) || eq_ignore_case_exec(&ext, &markdown),
        None => false,
    };
    markdown_ext && !eq_ignore_case_exec(&name, &summary)
}

/// The chapters among `files`, parsed, newest first: dated chapters by date
/// from newest to oldest, then the undated ones; chapters with equal dates,
/// and the undated ones, keep the order of `files`.
pub fn collect_articles(root: &str, files: &Vec<SourceFile>) -> (r: Vec<Article>)
    ensures
        views(r@) == newest_first(chapters(root@, views(files@))),
{
    let mut out: Vec<Article> = Vec::new();
    let mut i: usize = 0;
    while i < files.len()
        invariant
            i <= files@.len(),
            views(out@) == newest_first(chapters(root@, views(files@).subrange(0, i as int))),
        decreases files@.len() - i,
    {
        let ghost fs = views(files@).subrange(0, i + 1);
        assert(fs.drop_last() =~= views(files@).subrange(0, i as int));
        assert(fs.last() == files@[i as int]@);
        let f = &files[i];
        if is_chapter_path(f.path.as_str()) {
            let a = parse_markdown_file(root, f.path.as_str(), f.text.as_str(), f.modified);
            let ghost r = views(out@);
            assert(a@ == article_of(root@, f@));
            let mut j: usize = 0;
            while j < out.len() && date_le_exec(a.fm.date, out[j].fm.date)
                invariant
                    j <= out@.len(),
                    r == views(out@),
                    first_older(r, a.fm.date, j as int) == first_older(r, a.fm.date, 0),
                decreases out@.len() - j,
            {
                assert(r[j as int] == out@[j as int]@);
                j = j + 1;
            }
            proof {
                if j < out.len() {
                    assert(r[j as int] == out@[j as int]@);
                }
            }
            let ghost av = a@;
            out.insert(j, a);
            assert(views(out@) =~= r.insert(j as int, av));
            proof {
                let c = chapters(root@, fs);
                assert(c == chapters(root@, fs.drop_last()).push(av));
                assert(c.drop_last() =~= chapters(root@, fs.drop_last()));
                assert(c.last() == av);
                assert(newest_first(c) == r.insert(first_older(r, av.fm.date, 0), av));
            }
        } else {
            assert(chapters(root@, fs) == chapters(root@, fs.drop_last()));
        }
        i = i + 1;
    }
    assert(views(files@).subrange(0, files@.len() as int) =~= views(files@));
    out
}

/// Undated chapters come after every dated one, in the order in which
/// `files` lists them, and all chapters are ordered newest first.
pub proof fn lemma_collect_order(root: Seq<char>, files: Seq<SourceFileView>)
    ensures
        ({
            let r = newest_first(chapters(root, files));
            let n = r.len() as int;
            &&& forall|i: int, j: int| 0 <= i < j < n && (#[trigger] r[i]).fm.date is None
                ==> (#[trigger] r[j]).fm.date is None
            &&& forall|i: int, j: int| 0 <= i < j < n ==> date_le(#[trigger] r[j].fm.date, #[trigger] r[i].fm.date)
            &&& exists|m: int| 0 <= m <= n && #[trigger] r.subrange(m, n) == dateless(chapters(root, files))
                && forall|i: int| 0 <= i < m ==> (#[trigger] r[i]).fm.date is Some
        }),
{
    let s = chapters(root, files);
    lemma_newest_first(s);
    lemma_dateless(s);
    let r = newest_first(s);
    let m = dated_count(s) as int;
    assert(r.subrange(m, r.len() as int) == dateless(s));
    assert forall|i: int, j: int| 0 <= i < j < r.len() && (#[trigger] r[i]).fm.date is None
        implies (#[trigger] r[j]).fm.date is None by {
        assert(r.subrange(m, r.len() as int)[j - m] == r[j]);
    }
}

} // verus!
