//! Splitting text into lines the way `str::lines` does.
use vstd::prelude::*;
use crate::preview::{lemma_line_end, line_end};

verus! {

/// `line` without one trailing carriage return.
pub open spec fn strip_cr(line: Seq<char>) -> Seq<char> {
    if line.len() > 0 && line.last() == '\r' {
        line.drop_last()
    } else {
        line
    }
}

/// The lines of `s`: split at each `'\n'`, a `'\r'` before it dropped, and
/// no empty line after a final `'\n'`.
pub open spec fn lines_of(s: Seq<char>) -> Seq<Seq<char>>
    decreases s.len() via lines_of_decreases
{
    if s.len() == 0 {
        Seq::empty()
    } else {
        let e = line_end(s, 0);
        if e < s.len() {
            seq![strip_cr(s.subrange(0, e))] + lines_of(s.subrange(e + 1, s.len() as int))
        } else {
            seq![s]
        }
    }
}

#[via_fn]
proof fn lines_of_decreases(s: Seq<char>) {
    if s.len() > 0 {
        lemma_line_end(s, 0);
    }
}

/// `line_end` read inside a suffix of `s` is `line_end` in `s`, shifted.
pub proof fn lemma_line_end_shift(s: Seq<char>, i: int, j: int)
    requires
        0 <= i <= j <= s.len(),
    ensures
        line_end(s.subrange(i, s.len() as int), j - i) == line_end(s, j) - i,
    decreases s.len() - j,
{
    let t = s.subrange(i, s.len() as int);
    if j < s.len() {
        assert(t[j - i] == s[j]);
        if s[j] != '\n' {
            lemma_line_end_shift(s, i, j + 1);
        }
    }
}

/// The view of each line of `r`.
pub open spec fn views_of(r: Seq<Vec<char>>) -> Seq<Seq<char>> {
    Seq::new(r.len(), |k: int| r[k]@)
}

/// The lines of `v`, each as a character vector.
pub fn split_lines(v: &Vec<char>) -> (r: Vec<Vec<char>>)
    ensures
        views_of(r@) == lines_of(v@),
{
    let n = v.len();
    let mut r: Vec<Vec<char>> = Vec::new();
    let mut i: usize = 0;
    proof {
        assert(v@.subrange(0, n as int) =~= v@);
        assert(views_of(r@) + lines_of(v@) =~= lines_of(v@));
    }
    while i < n
        invariant
            n == v@.len(),
            i <= n,
            views_of(r@) + lines_of(v@.subrange(i as int, n as int)) == lines_of(v@),
        decreases n - i,
    {
        let ghost rest = v@.subrange(i as int, n as int);
        let mut e = i;
        let mut line: Vec<char> = Vec::new();
        while e < n && v[e] != '\n'
            invariant
                i <= e <= n,
                n == v@.len(),
                line_end(v@, e as int) == line_end(v@, i as int),
                line@ == v@.subrange(i as int, e as int),
            decreases n - e,
        {
            line.push(v[e]);
            assert(v@.subrange(i as int, e + 1) =~= v@.subrange(i as int, e as int).push(v@[e as int]));
            e = e + 1;
        }
        proof {
            lemma_line_end_shift(v@, i as int, i as int);
            assert(line_end(v@, e as int) == e);
            assert(line_end(rest, 0) == e - i);
            assert(rest.subrange(0, e - i) =~= line@);
        }
        let ghost before = views_of(r@);
        if e < n {
            if line.len() > 0 && line[line.len() - 1] == '\r' {
                line.pop();
            }
            assert(rest.subrange(e - i + 1, rest.len() as int) =~= v@.subrange(e + 1, n as int));
            assert(lines_of(rest) == seq![line@] + lines_of(v@.subrange(e + 1, n as int)));
            r.push(line);
            assert(views_of(r@) =~= before.push(line@));
            assert(before + lines_of(rest) =~= views_of(r@) + lines_of(v@.subrange(e + 1, n as int)));
            i = e + 1;
        } else {
            assert(line@ =~= rest);
            assert(lines_of(rest) == seq![line@]);
            r.push(line);
            assert(views_of(r@) =~= before.push(line@));
            assert(v@.subrange(n as int, n as int) =~= Seq::<char>::empty());
            assert(before + lines_of(rest) =~= views_of(r@) + lines_of(v@.subrange(n as int, n as int)));
            i = n;
        }
    }
    proof {
        assert(v@.subrange(n as int, n as int) =~= Seq::<char>::empty());
        assert(views_of(r@) + Seq::<Seq<char>>::empty() =~= views_of(r@));
    }
    r
}

} // verus!
