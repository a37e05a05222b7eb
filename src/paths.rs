//! Slash-separated paths: file names, stems, extensions and root-relative
//! paths, as `std::path::Path` reads them on Unix.
use vstd::prelude::*;
use crate::text::chars_of;

verus! {

/// Index of the last `c` in `s`, or -1.
pub open spec fn last_index_of(s: Seq<char>, c: char) -> int
    decreases s.len(),
{
    if s.len() == 0 {
        -1
    } else if s.last() == c {
        s.len() - 1
    } else {
        last_index_of(s.drop_last(), c)
    }
}

pub proof fn lemma_last_index_of(s: Seq<char>, c: char)
    ensures
        -1 <= last_index_of(s, c) < s.len(),
        last_index_of(s, c) >= 0 ==> s[last_index_of(s, c)] == c,
        forall|k: int| last_index_of(s, c) < k < s.len() ==> #[trigger] s[k] != c,
    decreases s.len(),
{
    if s.len() > 0 && s.last() != c {
        lemma_last_index_of(s.drop_last(), c);
        assert forall|k: int| last_index_of(s, c) < k < s.len() implies #[trigger] s[k] != c by {
            if k < s.len() - 1 {
                assert(s.drop_last()[k] == s[k]);
            }
        }
    }
}

/// The last component of `p`: what follows its last `/`.
pub open spec fn file_name_of(p: Seq<char>) -> Seq<char> {
    p.subrange(last_index_of(p, '/') + 1, p.len() as int)
}

/// `p` names a file: its last component is neither empty, `.` nor `..`.
pub open spec fn valid_file_path(p: Seq<char>) -> bool {
    let n = file_name_of(p);
    n.len() > 0 && n != seq!['.'] && n != seq!['.', '.']
}

/// The stem of a file name: what precedes its last `.`, unless that dot
/// starts the name or there is none.
pub open spec fn stem_of(name: Seq<char>) -> Seq<char> {
    let d = last_index_of(name, '.');
    if d <= 0 {
        name
    } else {
        name.subrange(0, d)
    }
}

/// The extension of a file name: what follows its last `.`, when that dot
/// does not start the name.
pub open spec fn extension_of(name: Seq<char>) -> Option<Seq<char>> {
    let d = last_index_of(name, '.');
    if d <= 0 {
        None
    } else {
        Some(name.subrange(d + 1, name.len() as int))
    }
}

/// Index of the first character of `s` at or after `i` that is not `/`.
pub open spec fn skip_slashes(s: Seq<char>, i: int) -> int
    decreases s.len() - i,
{
    if i < 0 || i >= s.len() {
        s.len() as int
    } else if s[i] == '/' {
        skip_slashes(s, i + 1)
    } else {
        i
    }
}

/// `root` is a leading run of whole components of `path`.
pub open spec fn is_root_of(path: Seq<char>, root: Seq<char>) -> bool {
    let k = root.len() as int;
    &&& k > 0
    &&& k <= path.len()
    &&& path.subrange(0, k) == root
    &&& (k == path.len() || root.last() == '/' || path[k] == '/')
}

/// `path` relative to `root`: without `root` and the slashes after it when
/// `root` leads it, else `path` as it is.
pub open spec fn strip_root(path: Seq<char>, root: Seq<char>) -> Seq<char> {
    if is_root_of(path, root) {
        path.subrange(skip_slashes(path, root.len() as int), path.len() as int)
    } else {
        path
    }
}

/// Index of the last `c` in `v`, if any.
pub fn last_index_exec(v: &Vec<char>, c: char) -> (r: Option<usize>)
    ensures
        match r {
            Some(k) => k as int == last_index_of(v@, c),
            None => last_index_of(v@, c) == -1,
        },
{
    let mut k = v.len();
    assert(v@.subrange(0, k as int) =~= v@);
    while k > 0 && v[k - 1] != c
        invariant
            k <= v@.len(),
            last_index_of(v@.subrange(0, k as int), c) == last_index_of(v@, c),
        decreases k,
    {
        assert(v@.subrange(0, k as int).drop_last() =~= v@.subrange(0, k - 1));
        k = k - 1;
    }
    if k == 0 {
        None
    } else {
        Some(k - 1)
    }
}

/// The characters of `v` from `from` on.
fn tail_of(v: &Vec<char>, from: usize) -> (r: Vec<char>)
    requires
        from <= v@.len(),
    ensures
        r@ == v@.subrange(from as int, v@.len() as int),
{
    let mut r: Vec<char> = Vec::new();
    let mut k = from;
    while k < v.len()
        invariant
            from <= k <= v@.len(),
            r@ == v@.subrange(from as int, k as int),
        decreases v@.len() - k,
    {
        r.push(v[k]);
        assert(v@.subrange(from as int, k + 1) =~= v@.subrange(from as int, k as int).push(v@[k as int]));
        k = k + 1;
    }
    r
}

/// The last component of `path`.
pub fn file_name(path: &str) -> (r: Vec<char>)
    ensures
        r@ == file_name_of(path@),
{
    let v = chars_of(path);
    proof {
        lemma_last_index_of(v@, '/');
    }
    match last_index_exec(&v, '/') {
        Some(k) => tail_of(&v, k + 1),
        None => tail_of(&v, 0),
    }
}

/// The stem of a file name.
pub fn file_stem(name: &Vec<char>) -> (r: Vec<char>)
    ensures
        r@ == stem_of(name@),
{
    proof {
        lemma_last_index_of(name@, '.');
    }
    let mut r = name.clone();
    assert(r@ == name@);
    match last_index_exec(name, '.') {
        Some(d) => {
            if d > 0 {
                r.truncate(d);
            }
        },
        None => {},
    }
    r
}

/// The extension of a file name, if it has one.
pub fn file_extension(name: &Vec<char>) -> (r: Option<Vec<char>>)
    ensures
        match r {
            Some(e) => extension_of(name@) == Some(e@),
            None => extension_of(name@) is None,
        },
{
    proof {
        lemma_last_index_of(name@, '.');
    }
    let n = name.len();
    match last_index_exec(name, '.') {
        Some(d) => {
            if d > 0 {
                Some(tail_of(name, d + 1))
            } else {
                None
            }
        },
        None => None,
    }
}

/// Whether `name` is a file name: neither empty, `.` nor `..`.
pub fn is_file_name(name: &Vec<char>) -> (r: bool)
    ensures
        r == (name@.len() > 0 && name@ != seq!['.'] && name@ != seq!['.', '.']),
{
    let n = name.len();
    if n == 0 {
        return false;
    }
    let dot = n == 1 && name[0] == '.';
    let dots = n == 2 && name[0] == '.' && name[1] == '.';
    proof {
        if n == 1 && name@ == seq!['.'] {
            assert(name@[0] == '.');
        }
        if dot {
            assert(name@ =~= seq!['.']);
        }
        if n == 2 && name@ == seq!['.', '.'] {
            assert(name@[0] == '.' && name@[1] == '.');
        }
        if dots {
            assert(name@ =~= seq!['.', '.']);
        }
    }
    !dot && !dots
}

/// `path` relative to `root`.
pub fn relative_to(path: &str, root: &str) -> (r: String)
    ensures
        r@ == strip_root(path@, root@),
{
    let p = chars_of(path);
    let q = chars_of(root);
    let n = p.len();
    let k = q.len();
    let mut leads = k > 0 && k <= n;
    let mut j: usize = 0;
    while leads && j < k
        invariant
            n == p@.len(),
            k == q@.len(),
            j <= k,
            leads ==> 0 < k <= n,
            leads ==> forall|t: int| 0 <= t < j ==> p@[t] == q@[t],
            !leads ==> !is_root_of(p@, q@),
        decreases k - j,
    {
        if p[j] != q[j] {
            proof {
                if k <= n && p@.subrange(0, k as int) == q@ {
                    assert(p@.subrange(0, k as int)[j as int] == p@[j as int]);
                }
            }
            leads = false;
        }
        j = j + 1;
    }
    if leads {
        assert(p@.subrange(0, k as int) =~= q@);
        leads = k == n || q[k - 1] == '/' || p[k] == '/';
    }
    if !leads {
        return path.to_owned();
    }
    let mut a = k;
    while a < n && p[a] == '/'
        invariant
            k <= a <= n,
            n == p@.len(),
            skip_slashes(p@, a as int) == skip_slashes(p@, k as int),
        decreases n - a,
    {
        a = a + 1;
    }
    path.substring_char(a, n).to_owned()
}

} // verus!
