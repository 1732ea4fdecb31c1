//! Primitives over character sequences: literal matching, searching,
//! slicing, concatenation and repetition, plus the conversions between
//! `&str` / `String` and `Vec<char>` that the pipeline works on.
use vstd::prelude::*;
use vstd::string::StrSliceExecFns;

verus! {

/// One Unicode white-space character: the set that the header
/// classification and the value trimming of the colour pass go by.
pub open spec fn ws_char(c: char) -> bool {
    c == ' ' || c == '\t' || c == '\n' || c == '\u{b}' || c == '\u{c}' || c == '\r' || c
        == '\u{85}' || c == '\u{a0}' || c == '\u{1680}' || (0x2000 <= c as u32 && c as u32
        <= 0x200a) || c == '\u{2028}' || c == '\u{2029}' || c == '\u{202f}' || c == '\u{205f}' || c
        == '\u{3000}'
}

pub fn is_ws(c: char) -> (b: bool)
    ensures
        b == ws_char(c),
{
    c == ' ' || c == '\t' || c == '\n' || c == '\u{b}' || c == '\u{c}' || c == '\r' || c
        == '\u{85}' || c == '\u{a0}' || c == '\u{1680}' || (0x2000 <= c as u32 && c as u32
        <= 0x200a) || c == '\u{2028}' || c == '\u{2029}' || c == '\u{202f}' || c == '\u{205f}' || c
        == '\u{3000}'
}

/// A vector holding the single character `c`.
pub fn cvec(c: char) -> (r: Vec<char>)
    ensures
        r@ == seq![c],
{
    let mut r: Vec<char> = Vec::new();
    r.push(c);
    proof {
        assert(r@ =~= seq![c]);
    }
    r
}

/// Does `pat` occur in `s` starting exactly at index `i`?
pub open spec fn matches_at(s: Seq<char>, i: int, pat: Seq<char>) -> bool {
    0 <= i && i + pat.len() <= s.len() && s.subrange(i, i + pat.len() as int) == pat
}

/// Index of the leftmost occurrence of `pat` in `s` at or after `i`.
pub open spec fn find_from(s: Seq<char>, i: int, pat: Seq<char>) -> Option<int>
    decreases s.len() - i,
{
    if i < 0 || i > s.len() {
        None
    } else if matches_at(s, i, pat) {
        Some(i)
    } else if i == s.len() {
        None
    } else {
        find_from(s, i + 1, pat)
    }
}

/// `pat` repeated `n` times.
pub open spec fn repeat_seq(pat: Seq<char>, n: int) -> Seq<char>
    decreases n,
{
    if n <= 0 {
        Seq::empty()
    } else {
        repeat_seq(pat, n - 1) + pat
    }
}

/// Length of the run of copies of `c` in `s` starting at `i`.
pub open spec fn run_len(s: Seq<char>, i: int, c: char) -> int
    decreases s.len() - i,
{
    if i < 0 || i >= s.len() || s[i] != c {
        0
    } else {
        1 + run_len(s, i + 1, c)
    }
}

/// The views of a sequence of character vectors.
pub open spec fn views_of(ls: Seq<Vec<char>>) -> Seq<Seq<char>> {
    ls.map_values(|l: Vec<char>| l@)
}

pub fn eq_at(s: &Vec<char>, i: usize, pat: &Vec<char>) -> (b: bool)
    requires
        i + pat@.len() <= s@.len(),
    ensures
        b == matches_at(s@, i as int, pat@),
{
    let n = s.len();
    let mut j: usize = 0;
    while j < pat.len()
        invariant
            0 <= j <= pat@.len(),
            i + pat@.len() <= s@.len(),
            n == s@.len(),
            forall|k: int| 0 <= k < j ==> s@[i + k] == pat@[k],
        decreases pat@.len() - j,
    {
        if s[i + j] != pat[j] {
            assert(s@.subrange(i as int, i + pat@.len()) != pat@) by {
                assert(s@.subrange(i as int, i + pat@.len())[j as int] != pat@[j as int]);
            }
            return false;
        }
        j += 1;
    }
    proof {
        assert(s@.subrange(i as int, i + pat@.len()) =~= pat@);
    }
    true
}

pub fn find_from_v(s: &Vec<char>, from: usize, pat: &Vec<char>) -> (r: Option<usize>)
    requires
        from <= s@.len(),
    ensures
        match r {
            Some(j) => from <= j && find_from(s@, from as int, pat@) == Some(j as int)
                && matches_at(s@, j as int, pat@),
            None => find_from(s@, from as int, pat@) is None,
        },
{
    let mut j: usize = from;
    loop
        invariant
            from <= j <= s@.len(),
            find_from(s@, from as int, pat@) == find_from(s@, j as int, pat@),
        decreases s@.len() - j,
    {
        if s.len() - j >= pat.len() {
            if eq_at(s, j, pat) {
                return Some(j);
            }
        }
        if j == s.len() {
            return None;
        }
        j += 1;
    }
}

pub fn subvec(s: &Vec<char>, a: usize, b: usize) -> (r: Vec<char>)
    requires
        a <= b <= s@.len(),
    ensures
        r@ == s@.subrange(a as int, b as int),
{
    let mut r: Vec<char> = Vec::new();
    let mut i: usize = a;
    while i < b
        invariant
            a <= i <= b <= s@.len(),
            r@ == s@.subrange(a as int, i as int),
        decreases b - i,
    {
        r.push(s[i]);
        proof {
            assert(s@.subrange(a as int, i + 1) =~= s@.subrange(a as int, i as int).push(
                s@[i as int],
            ));
        }
        i += 1;
    }
    r
}

pub fn append_vec(dst: &mut Vec<char>, src: &Vec<char>)
    ensures
        final(dst)@ == old(dst)@ + src@,
{
    let mut i: usize = 0;
    while i < src.len()
        invariant
            0 <= i <= src@.len(),
            dst@ == old(dst)@ + src@.subrange(0, i as int),
        decreases src@.len() - i,
    {
        dst.push(src[i]);
        proof {
            assert(old(dst)@ + src@.subrange(0, i + 1) =~= (old(dst)@ + src@.subrange(
                0,
                i as int,
            )).push(src@[i as int]));
        }
        i += 1;
    }
    proof {
        assert(src@.subrange(0, src@.len() as int) =~= src@);
    }
}

pub fn repeat_vec(pat: &Vec<char>, n: usize) -> (r: Vec<char>)
    ensures
        r@ == repeat_seq(pat@, n as int),
{
    let mut r: Vec<char> = Vec::new();
    let mut i: usize = 0;
    while i < n
        invariant
            0 <= i <= n,
            r@ == repeat_seq(pat@, i as int),
        decreases n - i,
    {
        append_vec(&mut r, pat);
        i += 1;
    }
    r
}

pub fn run_count(s: &Vec<char>, from: usize, c: char) -> (n: usize)
    requires
        from <= s@.len(),
    ensures
        n == run_len(s@, from as int, c),
        from + n <= s@.len(),
{
    let mut i: usize = from;
    while i < s.len() && s[i] == c
        invariant
            from <= i <= s@.len(),
            run_len(s@, from as int, c) == i - from + run_len(s@, i as int, c),
        decreases s@.len() - i,
    {
        i += 1;
    }
    i - from
}

/// The characters of a string slice, in order.
pub fn str_to_chars(s: &str) -> (r: Vec<char>)
    ensures
        r@ == s@,
{
    let n = s.unicode_len();
    let mut r: Vec<char> = Vec::new();
    let mut i: usize = 0;
    while i < n
        invariant
            n == s@.len(),
            0 <= i <= n,
            r@ == s@.subrange(0, i as int),
        decreases n - i,
    {
        let c = s.get_char(i);
        r.push(c);
        proof {
            assert(s@.subrange(0, i + 1) =~= s@.subrange(0, i as int).push(s@[i as int]));
        }
        i += 1;
    }
    proof {
        assert(s@.subrange(0, s@.len() as int) =~= s@);
    }
    r
}

pub fn copy_vec(s: &Vec<char>) -> (r: Vec<char>)
    ensures
        r@ == s@,
{
    let r = subvec(s, 0, s.len());
    proof {
        assert(s@.subrange(0, s@.len() as int) =~= s@);
    }
    r
}

/// Every occurrence of `pat`, found left to right without overlap, is
/// replaced by `rep`; the search continues after the replaced occurrence.
pub open spec fn replace_lit(s: Seq<char>, pat: Seq<char>, rep: Seq<char>) -> Seq<char>
    decreases s.len(),
{
    if pat.len() == 0 {
        s
    } else {
        match find_from(s, 0, pat) {
            None => s,
            Some(j) => if 0 <= j && j + pat.len() <= s.len() {
                s.subrange(0, j) + rep + replace_lit(
                    s.subrange(j + pat.len() as int, s.len() as int),
                    pat,
                    rep,
                )
            } else {
                s
            },
        }
    }
}

pub fn replace_lit_v(s: &Vec<char>, pat: &Vec<char>, rep: &Vec<char>) -> (r: Vec<char>)
    ensures
        r@ == replace_lit(s@, pat@, rep@),
    decreases s@.len(),
{
    let n = s.len();
    if pat.len() == 0 {
        return copy_vec(s);
    }
    match find_from_v(s, 0, pat) {
        None => copy_vec(s),
        Some(j) => {
            assert(j + pat@.len() <= n);
            let mut r = subvec(s, 0, j);
            append_vec(&mut r, rep);
            let suffix = subvec(s, j + pat.len(), s.len());
            let rest = replace_lit_v(&suffix, pat, rep);
            append_vec(&mut r, &rest);
            r
        },
    }
}

/// Lazy pair rewriting, the shared shape of the inline-code, italic, bold
/// and strikethrough substitutions: the leftmost `open` delimiter is paired
/// with the nearest following `close` delimiter, the span between them is
/// wrapped in `pre` .. `post`, and the search continues after `close`.  An
/// `open` with no following `close` matches nothing.
pub open spec fn pair_replace(
    s: Seq<char>,
    open_pat: Seq<char>,
    close_pat: Seq<char>,
    pre: Seq<char>,
    post: Seq<char>,
) -> Seq<char>
    decreases s.len(),
{
    if open_pat.len() == 0 || close_pat.len() == 0 {
        s
    } else {
        match find_from(s, 0, open_pat) {
            None => s,
            Some(j) => if 0 <= j && j + open_pat.len() <= s.len() {
                match find_from(s, j + open_pat.len() as int, close_pat) {
                    None => s,
                    Some(k) => if j + open_pat.len() <= k && k + close_pat.len() <= s.len() {
                        s.subrange(0, j) + pre + s.subrange(j + open_pat.len() as int, k) + post
                            + pair_replace(
                            s.subrange(k + close_pat.len() as int, s.len() as int),
                            open_pat,
                            close_pat,
                            pre,
                            post,
                        )
                    } else {
                        s
                    },
                }
            } else {
                s
            },
        }
    }
}

pub fn pair_replace_v(
    s: &Vec<char>,
    open_pat: &Vec<char>,
    close_pat: &Vec<char>,
    pre: &Vec<char>,
    post: &Vec<char>,
) -> (r: Vec<char>)
    ensures
        r@ == pair_replace(s@, open_pat@, close_pat@, pre@, post@),
    decreases s@.len(),
{
    let n = s.len();
    if open_pat.len() == 0 || close_pat.len() == 0 {
        return copy_vec(s);
    }
    match find_from_v(s, 0, open_pat) {
        None => copy_vec(s),
        Some(j) => {
            assert(j + open_pat@.len() <= n);
            match find_from_v(s, j + open_pat.len(), close_pat) {
                None => copy_vec(s),
                Some(k) => {
                    assert(k + close_pat@.len() <= n);
                    let mut r = subvec(s, 0, j);
                    append_vec(&mut r, pre);
                    let inner = subvec(s, j + open_pat.len(), k);
                    append_vec(&mut r, &inner);
                    append_vec(&mut r, post);
                    let suffix = subvec(s, k + close_pat.len(), s.len());
                    let rest = pair_replace_v(&suffix, open_pat, close_pat, pre, post);
                    append_vec(&mut r, &rest);
                    r
                },
            }
        },
    }
}

/// Number of occurrences of `pat` in `s`, counted as the replacement
/// passes find them: leftmost first, continuing after each occurrence.
pub open spec fn count_occ(s: Seq<char>, pat: Seq<char>) -> int
    decreases s.len(),
{
    if pat.len() == 0 {
        0
    } else {
        match find_from(s, 0, pat) {
            None => 0,
            Some(j) => if 0 <= j && j + pat.len() <= s.len() {
                1 + count_occ(s.subrange(j + pat.len() as int, s.len() as int), pat)
            } else {
                0
            },
        }
    }
}

pub proof fn lemma_find_some(s: Seq<char>, i: int, pat: Seq<char>, j: int)
    requires
        find_from(s, i, pat) == Some(j),
    ensures
        i <= j,
        matches_at(s, j, pat),
    decreases s.len() - i,
{
    if i < 0 || i > s.len() {
    } else if matches_at(s, i, pat) {
    } else if i == s.len() {
    } else {
        lemma_find_some(s, i + 1, pat, j);
    }
}

pub proof fn lemma_find_at(s: Seq<char>, i: int, pat: Seq<char>, j: int)
    requires
        0 <= i <= j,
        matches_at(s, j, pat),
        forall|q: int| i <= q < j ==> !matches_at(s, q, pat),
    ensures
        find_from(s, i, pat) == Some(j),
    decreases j - i,
{
    if i == j {
    } else {
        lemma_find_at(s, i + 1, pat, j);
    }
}

/// Relies on std's `FromIterator<char> for String`: collecting the
/// characters of a vector yields the string of exactly those characters,
/// in order.
#[verifier::external_body]
pub fn chars_to_string(v: &Vec<char>) -> (r: String)
    ensures
        r@ == v@,
{
    v.iter().collect()
}

} // verus!
