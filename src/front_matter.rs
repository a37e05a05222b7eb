//! Front matter: splitting a chapter into its `---` metadata block and its
//! body, reading the metadata, and the defaults used when there is none.
use vstd::prelude::*;
use crate::date::{date_of_text, opt_string_view, parse_date, Stamp};
use crate::lines::{lines_of, split_lines, views_of};
use crate::paths::{file_name, file_name_of, file_stem, last_index_of, lemma_last_index_of, relative_to, stem_of, strip_root, valid_file_path};
use crate::text::{chars_of, lemma_skip_space_back_bounds, skip_space_back_exec, skip_space_exec, text_of, trim, trim_spec};

verus! {

/// Parsed metadata of one chapter.
#[derive(Debug, Clone)]
pub struct FrontMatter {
    pub title: String,
    pub date: Option<Stamp>,
    pub author: Option<String>,
    pub description: Option<String>,
}

/// The content of a `FrontMatter`.
pub struct FrontMatterView {
    pub title: Seq<char>,
    pub date: Option<Stamp>,
    pub author: Option<Seq<char>>,
    pub description: Option<Seq<char>>,
}

impl View for FrontMatter {
    type V = FrontMatterView;

    open spec fn view(&self) -> FrontMatterView {
        FrontMatterView {
            title: self.title@,
            date: self.date,
            author: opt_string_view(self.author),
            description: opt_string_view(self.description),
        }
    }
}

/// A chapter: its metadata, its Markdown body and its path relative to the
/// source root.
#[derive(Debug)]
pub struct Article {
    pub fm: FrontMatter,
    pub content: String,
    pub path: String,
}

/// What a YAML document holds under a key.
pub enum ScalarView {
    /// The document is not YAML.
    Unparsed,
    /// The document is no mapping, or lacks the key.
    Absent,
    Null,
    Text(Seq<char>),
    /// A number, a boolean, a sequence, a mapping or a tagged value.
    Other,
}

/// What a YAML document holds under a key, as read from it.
pub enum YamlScalar {
    Unparsed,
    Absent,
    Null,
    Text(String),
    Other,
}

impl View for YamlScalar {
    type V = ScalarView;

    open spec fn view(&self) -> ScalarView {
        match self {
            YamlScalar::Unparsed => ScalarView::Unparsed,
            YamlScalar::Absent => ScalarView::Absent,
            YamlScalar::Null => ScalarView::Null,
            YamlScalar::Text(s) => ScalarView::Text(s@),
            YamlScalar::Other => ScalarView::Other,
        }
    }
}

/// What serde_yaml reads under `key` in the YAML document `doc`.
pub uninterp spec fn yaml_scalar(doc: Seq<char>, key: Seq<char>) -> ScalarView;

/// Relies on `serde_yaml::from_str::<serde_yaml::Value>` and
/// `serde_yaml::Value::get`: the value under `key`, told apart by variant.
#[verifier::external_body]
fn yaml_lookup(doc: &str, key: &str) -> (r: YamlScalar)
    ensures
        r@ == yaml_scalar(doc@, key@),
{
    match serde_yaml::from_str::<serde_yaml::Value>(doc) {
        Err(_) => YamlScalar::Unparsed,
        Ok(v) => match v.get(key) {
            None => YamlScalar::Absent,
            Some(serde_yaml::Value::Null) => YamlScalar::Null,
            Some(serde_yaml::Value::String(s)) => YamlScalar::Text(s.clone()),
            Some(_) => YamlScalar::Other,
        },
    }
}

/// An optional text field is well-formed: absent, null or a string.
pub open spec fn field_ok(v: ScalarView) -> bool {
    !(v is Unparsed) && !(v is Other)
}

/// The text of an optional field.
pub open spec fn field_text(v: ScalarView) -> Option<Seq<char>> {
    match v {
        ScalarView::Text(t) => Some(t),
        _ => None,
    }
}

/// The metadata block `y` reads as front matter: a non-empty `title` string,
/// and `date`, `author` and `description` each absent, null or a string.
pub open spec fn meta_valid(y: Seq<char>) -> bool {
    &&& yaml_scalar(y, "title"@) is Text
    &&& yaml_scalar(y, "title"@)->Text_0.len() > 0
    &&& field_ok(yaml_scalar(y, "date"@))
    &&& field_ok(yaml_scalar(y, "author"@))
    &&& field_ok(yaml_scalar(y, "description"@))
}

/// A line that delimits the metadata block: `---` with optional surrounding
/// whitespace.
pub open spec fn is_delim(line: Seq<char>) -> bool {
    trim_spec(line) == seq!['-', '-', '-']
}

/// Index of the first delimiter line of `ls` at or after `k`, or `ls.len()`.
pub open spec fn close_index(ls: Seq<Seq<char>>, k: int) -> int
    decreases ls.len() - k,
{
    if k < 0 || k >= ls.len() {
        ls.len() as int
    } else if is_delim(ls[k]) {
        k
    } else {
        close_index(ls, k + 1)
    }
}

/// Each line of `ls` followed by a newline.
pub open spec fn with_newlines(ls: Seq<Seq<char>>) -> Seq<char>
    decreases ls.len(),
{
    if ls.len() == 0 {
        Seq::empty()
    } else {
        with_newlines(ls.drop_last()) + ls.last() + seq!['\n']
    }
}

/// The text opens with a metadata block: its first line is a delimiter.
pub open spec fn has_block(ls: Seq<Seq<char>>) -> bool {
    ls.len() > 0 && is_delim(ls[0])
}

/// The metadata block of `text`: the lines between the opening delimiter and
/// the next one (or the end), each newline-terminated; empty without a block.
pub open spec fn yaml_block(text: Seq<char>) -> Seq<char> {
    let ls = lines_of(text);
    if has_block(ls) {
        with_newlines(ls.subrange(1, close_index(ls, 1)))
    } else {
        Seq::empty()
    }
}

/// The lines of `text` after its metadata block, or all of them without one.
pub open spec fn body_lines(text: Seq<char>) -> Seq<Seq<char>> {
    let ls = lines_of(text);
    if has_block(ls) {
        let c = close_index(ls, 1);
        if c < ls.len() {
            ls.subrange(c + 1, ls.len() as int)
        } else {
            Seq::empty()
        }
    } else {
        ls
    }
}

/// The body of `text`: its body lines joined by newlines, with a final newline.
pub open spec fn body_of(text: Seq<char>) -> Seq<char> {
    let b = body_lines(text);
    if b.len() == 0 {
        seq!['\n']
    } else {
        with_newlines(b)
    }
}

/// The front matter of a chapter with the given text, file stem and file
/// modification time: read from its metadata block where that is well-formed,
/// else the stem as title, the modification time as date, no author, and the
/// body as description.
pub open spec fn front_matter_of(text: Seq<char>, stem: Seq<char>, modified: Option<Stamp>) -> FrontMatterView {
    let y = yaml_block(text);
    if trim_spec(y).len() > 0 && meta_valid(y) {
        FrontMatterView {
            title: yaml_scalar(y, "title"@)->Text_0,
            date: match yaml_scalar(y, "date"@) {
                ScalarView::Text(t) => date_of_text(t),
                _ => None,
            },
            author: field_text(yaml_scalar(y, "author"@)),
            description: field_text(yaml_scalar(y, "description"@)),
        }
    } else {
        FrontMatterView { title: stem, date: modified, author: None, description: Some(body_of(text)) }
    }
}

/// Whether the line is a metadata delimiter.
fn is_delim_exec(line: &Vec<char>) -> (r: bool)
    ensures
        r == is_delim(line@),
{
    let a = skip_space_exec(line.as_slice(), 0);
    let b = skip_space_back_exec(line.as_slice(), line.len());
    proof {
        lemma_skip_space_back_bounds(line@, line@.len() as int);
    }
    let r = a < b && b - a == 3 && line[a] == '-' && line[a + 1] == '-' && line[a + 2] == '-';
    proof {
        let t = trim_spec(line@);
        if r {
            assert(t =~= seq!['-', '-', '-']);
        } else if t == seq!['-', '-', '-'] {
            assert(t.len() == 3);
            assert(a < b);
            assert(t[0] == line@[a as int] && t[1] == line@[a + 1] && t[2] == line@[a + 2]);
        }
    }
    r
}

/// Appends each line of `ls[from..to]` and a newline to `out`.
fn push_lines(out: &mut Vec<char>, ls: &Vec<Vec<char>>, from: usize, to: usize)
    requires
        from <= to <= ls@.len(),
    ensures
        final(out)@ == old(out)@ + with_newlines(views_of(ls@).subrange(from as int, to as int)),
{
    let ghost start = old(out)@;
    let mut k = from;
    assert(views_of(ls@).subrange(from as int, from as int) =~= Seq::<Seq<char>>::empty());
    assert(start + Seq::<char>::empty() =~= start);
    while k < to
        invariant
            from <= k <= to <= ls@.len(),
            out@ == start + with_newlines(views_of(ls@).subrange(from as int, k as int)),
        decreases to - k,
    {
        let ghost prev = out@;
        let line = &ls[k];
        let mut j: usize = 0;
        while j < line.len()
            invariant
                j <= line@.len(),
                out@ == prev + line@.subrange(0, j as int),
            decreases line@.len() - j,
        {
            out.push(line[j]);
            assert(line@.subrange(0, j + 1) =~= line@.subrange(0, j as int).push(line@[j as int]));
            j = j + 1;
        }
        out.push('\n');
        proof {
            let sub = views_of(ls@).subrange(from as int, k + 1);
            assert(sub.drop_last() =~= views_of(ls@).subrange(from as int, k as int));
            assert(sub.last() == line@);
            assert(line@.subrange(0, line@.len() as int) =~= line@);
            assert(out@ =~= start + with_newlines(sub));
        }
        k = k + 1;
    }
}

/// Splits a chapter's text into its metadata block and its body.
pub fn split_front_matter(text: &str) -> (r: (String, String))
    ensures
        r.0@ == yaml_block(text@),
        r.1@ == body_of(text@),
{
    let v = chars_of(text);
    let ls = split_lines(&v);
    let ghost lv = lines_of(text@);
    assert(views_of(ls@) == lv);
    let n = ls.len();
    let mut yaml: Vec<char> = Vec::new();
    let mut body: Vec<char> = Vec::new();
    let opened = n > 0 && is_delim_exec(&ls[0]);
    if opened {
        assert(views_of(ls@)[0] == ls@[0]@);
        let mut c: usize = 1;
        while c < n && !is_delim_exec(&ls[c])
            invariant
                1 <= c <= n,
                n == lv.len(),
                views_of(ls@) == lv,
                close_index(lv, c as int) == close_index(lv, 1),
            decreases n - c,
        {
            assert(views_of(ls@)[c as int] == ls@[c as int]@);
            c = c + 1;
        }
        proof {
            if c < n {
                assert(views_of(ls@)[c as int] == ls@[c as int]@);
            }
        }
        push_lines(&mut yaml, &ls, 1, c);
        if c < n {
            push_lines(&mut body, &ls, c + 1, n);
        }
    } else {
        push_lines(&mut body, &ls, 0, n);
        assert(lv.subrange(0, n as int) =~= lv);
    }
    assert(yaml@ =~= yaml_block(text@));
    if body.len() == 0 {
        proof {
            let b = body_lines(text@);
            if b.len() > 0 {
                lemma_with_newlines_nonempty(b);
            }
        }
        body.push('\n');
        assert(body@ =~= seq!['\n']);
    } else {
        proof {
            if body_lines(text@).len() == 0 {
                assert(body@ =~= with_newlines(Seq::<Seq<char>>::empty()));
            }
        }
    }
    (text_of(yaml.as_slice()), text_of(body.as_slice()))
}

proof fn lemma_with_newlines_nonempty(ls: Seq<Seq<char>>)
    requires
        ls.len() > 0,
    ensures
        with_newlines(ls).len() > 0,
{
    assert(with_newlines(ls) == with_newlines(ls.drop_last()) + ls.last() + seq!['\n']);
}

/// Whether an optional field is absent, null or a string.
fn scalar_ok(v: &YamlScalar) -> (r: bool)
    ensures
        r == field_ok(v@),
{
    match v {
        YamlScalar::Unparsed => false,
        YamlScalar::Other => false,
        _ => true,
    }
}

/// The text of an optional field.
fn scalar_text(v: YamlScalar) -> (r: Option<String>)
    ensures
        opt_string_view(r) == field_text(v@),
{
    match v {
        YamlScalar::Text(t) => Some(t),
        _ => None,
    }
}

/// Reads the metadata block `yaml`; `None` when it is blank or not
/// well-formed front matter.
pub fn read_front_matter(yaml: &str) -> (r: Option<FrontMatter>)
    ensures
        match r {
            Some(fm) => {
                &&& trim_spec(yaml@).len() > 0 && meta_valid(yaml@)
                &&& fm.title@ == yaml_scalar(yaml@, "title"@)->Text_0
                &&& fm.date == match yaml_scalar(yaml@, "date"@) {
                    ScalarView::Text(t) => date_of_text(t),
                    _ => None,
                }
                &&& opt_string_view(fm.author) == field_text(yaml_scalar(yaml@, "author"@))
                &&& opt_string_view(fm.description) == field_text(yaml_scalar(yaml@, "description"@))
            },
            None => !(trim_spec(yaml@).len() > 0 && meta_valid(yaml@)),
        },
{
    if trim(yaml).is_empty() {
        return None;
    }
    let title = match yaml_lookup(yaml, "title") {
        YamlScalar::Text(t) => if t.as_str().is_empty() { None } else { Some(t) },
        _ => None,
    };
    let date = yaml_lookup(yaml, "date");
    let author = yaml_lookup(yaml, "author");
    let description = yaml_lookup(yaml, "description");
    match title {
        None => None,
        Some(t) => {
            if !scalar_ok(&date) || !scalar_ok(&author) || !scalar_ok(&description) {
                return None;
            }
            let d = match date {
                YamlScalar::Text(x) => parse_date(x.as_str()),
                _ => None,
            };
            Some(FrontMatter { title: t, date: d, author: scalar_text(author), description: scalar_text(description) })
        },
    }
}

/// Parses one chapter, given its path, the source root, its text and its
/// modification time (the date when the metadata gives none).
pub fn parse_markdown_file(root: &str, path: &str, text: &str, modified: Option<Stamp>) -> (r: Article)
    requires
        valid_file_path(path@),
    ensures
        r.fm@ == front_matter_of(text@, stem_of(file_name_of(path@)), modified),
        r.content@ == body_of(text@),
        r.path@ == strip_root(path@, root@),
        r.fm.title@.len() > 0,
{
    let (yaml, content) = split_front_matter(text);
    let fm = match read_front_matter(yaml.as_str()) {
        Some(fm) => fm,
        None => {
            let name = file_name(path);
            let stem = file_stem(&name);
            proof {
                lemma_stem_nonempty(name@);
            }
            FrontMatter {
                title: text_of(stem.as_slice()),
                date: modified,
                author: None,
                description: Some(content.clone()),
            }
        },
    };
    let rel = relative_to(path, root);
    Article { fm, content, path: rel }
}

/// The stem of a non-empty file name is not empty.
pub proof fn lemma_stem_nonempty(name: Seq<char>)
    requires
        name.len() > 0,
    ensures
        stem_of(name).len() > 0,
{
    lemma_last_index_of(name, '.');
}

/// Every chapter's front matter has a title: a parsed title is non-empty by
/// the rules of `meta_valid`, and the fallback title is the file's stem.
pub proof fn lemma_title_nonempty(text: Seq<char>, path: Seq<char>, modified: Option<Stamp>)
    requires
        valid_file_path(path),
    ensures
        front_matter_of(text, stem_of(file_name_of(path)), modified).title.len() > 0,
{
    lemma_stem_nonempty(file_name_of(path));
}

} // verus!
