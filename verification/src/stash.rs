//! The code stasher and the stash restorer.  A fenced region whose
//! `{code}` and `{/code}` markers each stand alone on a line is wrapped
//! in a fixed `<pre>` container, appended to a FIFO stash, and replaced
//! in the text by one placeholder token; after the structural and inline
//! passes the tokens are replaced by the stashed entries in order.
use vstd::prelude::*;
use crate::text::append_vec;
use crate::text::copy_vec;
use crate::text::eq_at;
use crate::text::count_occ;
use crate::text::find_from;
use crate::text::find_from_v;
use crate::text::lemma_find_at;
use crate::text::lemma_find_some;
use crate::text::matches_at;
use crate::text::str_to_chars;
use crate::text::subvec;
use crate::text::views_of;

verus! {

/// The placeholder standing in for one stashed code block.  The string
/// has no meaning; it is chosen so as not to occur in escaped markup.
pub open spec fn token() -> Seq<char> {
    "gPvErkJM67vL"@
}

pub open spec fn pre_open() -> Seq<char> {
    "<pre class=\"loom_code loom_code_cs\">"@
}

pub open spec fn pre_close() -> Seq<char> {
    "</pre>"@
}

/// The stashed form of one code region's inner text.
pub open spec fn wrap_code(code: Seq<char>) -> Seq<char> {
    pre_open() + code + pre_close()
}

/// Length of the line break at `i`: `\n` or `\r\n` or a lone `\r`,
/// preferred in that order; `0` when `i` holds no line break.
pub open spec fn nl_len(s: Seq<char>, i: int) -> int {
    if 0 <= i < s.len() && s[i] == '\n' {
        1
    } else if 0 <= i < s.len() && s[i] == '\r' {
        if i + 1 < s.len() && s[i + 1] == '\n' {
            2
        } else {
            1
        }
    } else {
        0
    }
}

/// A fenced region may start at `p`: either the text itself starts with
/// the `{code}` marker line (only when `caret_ok`, at the very start of
/// the text), or a line break at `p` is followed by it.  The marker line
/// must end in a line break; the result is the index where the inner
/// text begins.
pub open spec fn start_inner(s: Seq<char>, p: int, caret_ok: bool) -> Option<int> {
    let after = if caret_ok && p == 0 && matches_at(s, 0, "{code}"@) {
        Some("{code}"@.len() as int)
    } else if nl_len(s, p) > 0 && matches_at(s, p + nl_len(s, p), "{code}"@) {
        Some(p + nl_len(s, p) + "{code}"@.len())
    } else {
        None
    };
    match after {
        None => None,
        Some(a) => if nl_len(s, a) > 0 {
            Some(a + nl_len(s, a))
        } else {
            None
        },
    }
}

/// A fenced region whose inner text ends at `e` closes there: a line
/// break, the `{/code}` marker, and a line break or the end of the text.
/// The result is the index just past the whole region.
pub open spec fn close_end(s: Seq<char>, e: int) -> Option<int> {
    if nl_len(s, e) > 0 && matches_at(s, e + nl_len(s, e), "{/code}"@) {
        let g = e + nl_len(s, e) + "{/code}"@.len();
        if g == s.len() {
            Some(g)
        } else if nl_len(s, g) > 0 {
            Some(g + nl_len(s, g))
        } else {
            None
        }
    } else {
        None
    }
}

/// The leftmost possible region start at or after `p`, with the index
/// where its inner text begins.
pub open spec fn find_start(s: Seq<char>, p: int, caret_ok: bool) -> Option<(int, int)>
    decreases s.len() - p,
{
    if p < 0 || p > s.len() {
        None
    } else {
        match start_inner(s, p, caret_ok) {
            Some(c) => Some((p, c)),
            None => if p == s.len() {
                None
            } else {
                find_start(s, p + 1, caret_ok)
            },
        }
    }
}

/// The nearest region close at or after `e`, with the index just past
/// the region.
pub open spec fn find_close(s: Seq<char>, e: int) -> Option<(int, int)>
    decreases s.len() - e,
{
    if e < 0 || e > s.len() {
        None
    } else {
        match close_end(s, e) {
            Some(end) => Some((e, end)),
            None => if e == s.len() {
                None
            } else {
                find_close(s, e + 1)
            },
        }
    }
}

/// The stashing pass: the leftmost fenced region is stashed and replaced
/// by the token, and the search continues after it; `caret_ok` says
/// whether a marker line at the very start of the text counts (it no
/// longer does once some prefix has been consumed).  A region start with
/// no close anywhere after it matches nothing.
pub open spec fn stash_from(s: Seq<char>, caret_ok: bool) -> (Seq<char>, Seq<Seq<char>>)
    decreases s.len(),
{
    match find_start(s, 0, caret_ok) {
        None => (s, Seq::empty()),
        Some((p, c)) => match find_close(s, c) {
            None => (s, Seq::empty()),
            Some((e, end)) => if 0 <= p <= c <= e && e < end <= s.len() {
                let rest = stash_from(s.subrange(end, s.len() as int), false);
                (
                    s.subrange(0, p) + token() + rest.0,
                    seq![wrap_code(s.subrange(c, e))] + rest.1,
                )
            } else {
                (s, Seq::empty())
            },
        },
    }
}

/// The stashing pass over the whole escaped text.
pub open spec fn stash_text(s: Seq<char>) -> (Seq<char>, Seq<Seq<char>>) {
    stash_from(s, true)
}

fn nl_len_v(s: &Vec<char>, i: usize) -> (k: usize)
    requires
        i <= s@.len(),
    ensures
        k == nl_len(s@, i as int),
        i + k <= s@.len(),
{
    if i < s.len() && s[i] == '\n' {
        1
    } else if i < s.len() && s[i] == '\r' {
        if i + 1 < s.len() && s[i + 1] == '\n' {
            2
        } else {
            1
        }
    } else {
        0
    }
}

fn start_inner_v(s: &Vec<char>, p: usize, caret_ok: bool, open_pat: &Vec<char>) -> (r: Option<
    usize,
>)
    requires
        p <= s@.len(),
        open_pat@ == "{code}"@,
    ensures
        match r {
            Some(c) => start_inner(s@, p as int, caret_ok) == Some(c as int) && p <= c <= s@.len(),
            None => start_inner(s@, p as int, caret_ok) is None,
        },
{
    let n = s.len();
    let after: Option<usize> = if caret_ok && p == 0 && n >= open_pat.len() && eq_at(
        s,
        0,
        open_pat,
    ) {
        Some(open_pat.len())
    } else {
        let k = nl_len_v(s, p);
        if k > 0 && n - (p + k) >= open_pat.len() && eq_at(s, p + k, open_pat) {
            Some(p + k + open_pat.len())
        } else {
            None
        }
    };
    match after {
        None => None,
        Some(a) => {
            let k2 = nl_len_v(s, a);
            if k2 > 0 {
                Some(a + k2)
            } else {
                None
            }
        },
    }
}

fn close_end_v(s: &Vec<char>, e: usize, close_pat: &Vec<char>) -> (r: Option<usize>)
    requires
        e <= s@.len(),
        close_pat@ == "{/code}"@,
    ensures
        match r {
            Some(end) => close_end(s@, e as int) == Some(end as int) && e < end <= s@.len(),
            None => close_end(s@, e as int) is None,
        },
{
    let n = s.len();
    let k = nl_len_v(s, e);
    if k > 0 && n - (e + k) >= close_pat.len() && eq_at(s, e + k, close_pat) {
        let g = e + k + close_pat.len();
        if g == n {
            Some(g)
        } else {
            let k3 = nl_len_v(s, g);
            if k3 > 0 {
                Some(g + k3)
            } else {
                None
            }
        }
    } else {
        None
    }
}

fn find_start_v(s: &Vec<char>, caret_ok: bool, open_pat: &Vec<char>) -> (r: Option<(usize, usize)>)
    requires
        open_pat@ == "{code}"@,
    ensures
        match r {
            Some(pc) => find_start(s@, 0, caret_ok) == Some((pc.0 as int, pc.1 as int)) && pc.0
                <= pc.1 <= s@.len(),
            None => find_start(s@, 0, caret_ok) is None,
        },
{
    let mut p: usize = 0;
    loop
        invariant
            0 <= p <= s@.len(),
            open_pat@ == "{code}"@,
            find_start(s@, 0, caret_ok) == find_start(s@, p as int, caret_ok),
        ensures
            match find_start(s@, 0, caret_ok) {
                Some(pc) => 0 <= pc.0 <= s@.len() && 0 <= pc.1 <= s@.len(),
                None => true,
            },
        decreases s@.len() - p,
    {
        match start_inner_v(s, p, caret_ok, open_pat) {
            Some(c) => {
                assert(find_start(s@, p as int, caret_ok) == Some((p as int, c as int)));
                return Some((p, c));
            },
            None => {
                if p == s.len() {
                    return None;
                }
                p += 1;
            },
        }
    }
}

fn find_close_v(s: &Vec<char>, e0: usize, close_pat: &Vec<char>) -> (r: Option<(usize, usize)>)
    requires
        e0 <= s@.len(),
        close_pat@ == "{/code}"@,
    ensures
        match r {
            Some(ee) => find_close(s@, e0 as int) == Some((ee.0 as int, ee.1 as int)) && e0 <= ee.0
                && ee.0 < ee.1 <= s@.len(),
            None => find_close(s@, e0 as int) is None,
        },
{
    let mut e: usize = e0;
    loop
        invariant
            e0 <= e <= s@.len(),
            close_pat@ == "{/code}"@,
            find_close(s@, e0 as int) == find_close(s@, e as int),
        decreases s@.len() - e,
    {
        match close_end_v(s, e, close_pat) {
            Some(end) => {
                assert(find_close(s@, e as int) == Some((e as int, end as int)));
                return Some((e, end));
            },
            None => {
                if e == s.len() {
                    return None;
                }
                e += 1;
            },
        }
    }
}

fn wrap_code_v(code: &Vec<char>) -> (r: Vec<char>)
    ensures
        r@ == wrap_code(code@),
{
    let mut r = str_to_chars("<pre class=\"loom_code loom_code_cs\">");
    append_vec(&mut r, code);
    let close = str_to_chars("</pre>");
    append_vec(&mut r, &close);
    r
}

pub fn stash_v(s: &Vec<char>, caret_ok: bool) -> (r: (Vec<char>, Vec<Vec<char>>))
    ensures
        r.0@ == stash_from(s@, caret_ok).0,
        views_of(r.1@) == stash_from(s@, caret_ok).1,
    decreases s@.len(),
{
    proof {
        assert(views_of(Seq::<Vec<char>>::empty()) =~= Seq::<Seq<char>>::empty());
    }
    let open_pat = str_to_chars("{code}");
    let close_pat = str_to_chars("{/code}");
    match find_start_v(s, caret_ok, &open_pat) {
        None => (copy_vec(s), Vec::new()),
        Some((p, c)) => {
            match find_close_v(s, c, &close_pat) {
                None => (copy_vec(s), Vec::new()),
                Some((e, end)) => {
                    let code = subvec(s, c, e);
                    let entry = wrap_code_v(&code);
                    let suffix = subvec(s, end, s.len());
                    let (t_rest, mut q_rest) = stash_v(&suffix, false);
                    let mut t = subvec(s, 0, p);
                    let tok = str_to_chars("gPvErkJM67vL");
                    append_vec(&mut t, &tok);
                    append_vec(&mut t, &t_rest);
                    let mut q: Vec<Vec<char>> = Vec::new();
                    q.push(entry);
                    q.append(&mut q_rest);
                    proof {
                        assert(views_of(q@) =~= seq![wrap_code(s@.subrange(c as int, e as int))]
                            + stash_from(suffix@, false).1);
                    }
                    (t, q)
                },
            }
        },
    }
}

/// The restorer: the text is split on the token and reassembled with the
/// stashed entries interleaved in order.  A token beyond the last stash
/// entry is replaced by the empty string; entries beyond the last token
/// are dropped.
pub open spec fn restore_from(s: Seq<char>, q: Seq<Seq<char>>) -> Seq<char>
    decreases s.len(),
{
    let entry = if q.len() > 0 {
        q[0]
    } else {
        Seq::empty()
    };
    let qrest = if q.len() > 0 {
        q.drop_first()
    } else {
        q
    };
    match find_from(s, 0, token()) {
        None => s + entry,
        Some(j) => if 0 <= j && j + token().len() <= s.len() && token().len() >= 1 {
            s.subrange(0, j) + entry + restore_from(
                s.subrange(j + token().len(), s.len() as int),
                qrest,
            )
        } else {
            s + entry
        },
    }
}

pub fn restore_v(s: &Vec<char>, q: &Vec<Vec<char>>, qi: usize) -> (r: Vec<char>)
    requires
        qi <= q@.len(),
    ensures
        r@ == restore_from(s@, views_of(q@).skip(qi as int)),
    decreases s@.len(),
{
    let ghost qs = views_of(q@).skip(qi as int);
    let n = s.len();
    let tok = str_to_chars("gPvErkJM67vL");
    let entry: Vec<char> = if qi < q.len() {
        proof {
            assert(qs[0] == views_of(q@)[qi as int]);
            assert(views_of(q@)[qi as int] == q@[qi as int]@);
        }
        copy_vec(&q[qi])
    } else {
        proof {
            assert(qs.len() == 0);
        }
        Vec::new()
    };
    match find_from_v(s, 0, &tok) {
        None => {
            let mut r = copy_vec(s);
            append_vec(&mut r, &entry);
            r
        },
        Some(j) => {
            assert(j + tok@.len() <= n);
            if tok.len() >= 1 {
                let mut r = subvec(s, 0, j);
                append_vec(&mut r, &entry);
                let suffix = subvec(s, j + tok.len(), s.len());
                let qi2 = if qi < q.len() {
                    proof {
                        assert(qs.drop_first() =~= views_of(q@).skip(qi + 1));
                    }
                    qi + 1
                } else {
                    qi
                };
                let rest = restore_v(&suffix, q, qi2);
                append_vec(&mut r, &rest);
                r
            } else {
                let mut r = copy_vec(s);
                append_vec(&mut r, &entry);
                r
            }
        },
    }
}

// ---------------------------------------------------------------------
// Laws of the stash.
// ---------------------------------------------------------------------
proof fn lemma_token_head()
    ensures
        token().len() == 12,
        token()[0] == 'g',
        forall|k: int| 1 <= k < 12 ==> token()[k] != 'g',
{
    reveal_strlit("gPvErkJM67vL");
}

/// In `a + token() + b`, the first token occurrence is exactly the one
/// in the middle, provided `a` is free of the token: the token starts
/// with its only `g`, so no occurrence can straddle the boundary.
proof fn lemma_first_token(a: Seq<char>, b: Seq<char>)
    requires
        forall|q: int| !matches_at(a, q, token()),
    ensures
        find_from(a + token() + b, 0, token()) == Some(a.len() as int),
        matches_at(a + token() + b, a.len() as int, token()),
{
    lemma_token_head();
    let s = a + token() + b;
    assert(matches_at(s, a.len() as int, token())) by {
        assert(s.subrange(a.len() as int, (a.len() + 12) as int) =~= token());
    }
    assert forall|q: int| 0 <= q < a.len() implies !matches_at(s, q, token()) by {
        if matches_at(s, q, token()) {
            if q + 12 <= a.len() {
                assert(a.subrange(q, q + 12) =~= s.subrange(q, q + 12));
                assert(matches_at(a, q, token()));
            } else {
                let off = a.len() - q;
                assert(s.subrange(q, q + 12)[off] == s[a.len() as int]);
                assert(s[a.len() as int] == token()[0]);
                assert(token()[off] == 'g');
            }
        }
    }
    lemma_find_at(s, 0, token(), a.len() as int);
}

proof fn lemma_find_start_inv(s: Seq<char>, p0: int, caret_ok: bool, p: int, c: int)
    requires
        0 <= p0,
        find_start(s, p0, caret_ok) == Some((p, c)),
    ensures
        p0 <= p,
        start_inner(s, p, caret_ok) == Some(c),
    decreases s.len() - p0,
{
    if p0 > s.len() {
    } else if start_inner(s, p0, caret_ok) is Some {
    } else if p0 == s.len() {
    } else {
        lemma_find_start_inv(s, p0 + 1, caret_ok, p, c);
    }
}

proof fn lemma_find_close_inv(s: Seq<char>, e0: int, e: int, end: int)
    requires
        0 <= e0,
        find_close(s, e0) == Some((e, end)),
    ensures
        e0 <= e,
        close_end(s, e) == Some(end),
        e < end <= s.len(),
    decreases s.len() - e0,
{
    if e0 > s.len() {
    } else if close_end(s, e0) is Some {
    } else if e0 == s.len() {
    } else {
        lemma_find_close_inv(s, e0 + 1, e, end);
    }
}

/// Stash integrity, stashing side: on text free of the placeholder
/// token, the pass leaves exactly one token occurrence per stashed
/// entry, so the placeholders and the stash stay in step.
pub proof fn lemma_stash_token_count(s: Seq<char>, caret_ok: bool)
    requires
        forall|q: int| !matches_at(s, q, token()),
    ensures
        count_occ(stash_from(s, caret_ok).0, token()) == stash_from(s, caret_ok).1.len(),
    decreases s.len(),
{
    lemma_token_head();
    let fs = find_start(s, 0, caret_ok);
    match fs {
        None => {
            lemma_count_zero(s);
        },
        Some((p, c)) => {
            lemma_find_start_inv(s, 0, caret_ok, p, c);
            let fc = find_close(s, c);
            match fc {
                None => {
                    lemma_count_zero(s);
                },
                Some((e, end)) => {
                    lemma_find_close_inv(s, c, e, end);
                    let tail = s.subrange(end, s.len() as int);
                    lemma_no_token_sub(s, end, s.len() as int);
                    lemma_stash_token_count(tail, false);
                    let a = s.subrange(0, p);
                    lemma_no_token_sub(s, 0, p);
                    let rest = stash_from(tail, false);
                    lemma_count_concat_token(a, rest.0);
                },
            }
        },
    }
}

/// Occurrences within a slice are occurrences of the whole.
proof fn lemma_no_token_sub(s: Seq<char>, x: int, y: int)
    requires
        0 <= x <= y <= s.len(),
        forall|q: int| !matches_at(s, q, token()),
    ensures
        forall|q: int| !matches_at(s.subrange(x, y), q, token()),
{
    assert forall|q: int| !matches_at(s.subrange(x, y), q, token()) by {
        if matches_at(s.subrange(x, y), q, token()) {
            assert(s.subrange(x, y).subrange(q, q + token().len() as int) =~= s.subrange(
                x + q,
                x + q + token().len(),
            ));
            assert(matches_at(s, x + q, token()));
        }
    }
}

proof fn lemma_count_zero(s: Seq<char>)
    requires
        forall|q: int| !matches_at(s, q, token()),
    ensures
        count_occ(s, token()) == 0,
{
    lemma_token_head();
    let f = find_from(s, 0, token());
    match f {
        None => {},
        Some(j) => {
            lemma_find_some(s, 0, token(), j);
        },
    }
}

proof fn lemma_count_concat_token(a: Seq<char>, b: Seq<char>)
    requires
        forall|q: int| !matches_at(a, q, token()),
    ensures
        count_occ(a + token() + b, token()) == 1 + count_occ(b, token()),
{
    lemma_token_head();
    lemma_first_token(a, b);
    let s = a + token() + b;
    assert(s.subrange((a.len() + 12) as int, s.len() as int) =~= b);
}

/// Stash integrity, restoring side: with the one token occurrence in the
/// text and the one stashed entry, restoring yields exactly the text
/// with the entry in place of the token.
pub proof fn lemma_restore_single(a: Seq<char>, b: Seq<char>, entry: Seq<char>)
    requires
        forall|q: int| !matches_at(a, q, token()),
        forall|q: int| !matches_at(b, q, token()),
    ensures
        restore_from(a + token() + b, seq![entry]) == a + entry + b,
{
    lemma_token_head();
    lemma_first_token(a, b);
    let s = a + token() + b;
    assert(s.subrange(0, a.len() as int) =~= a);
    assert(s.subrange((a.len() + 12) as int, s.len() as int) =~= b);
    let q1 = seq![entry];
    assert(q1.drop_first() =~= Seq::<Seq<char>>::empty());
    assert(restore_from(b, Seq::<Seq<char>>::empty()) == b + Seq::<char>::empty()) by {
        let f = find_from(b, 0, token());
        match f {
            None => {},
            Some(j) => {
                lemma_find_some(b, 0, token(), j);
            },
        }
    }
    assert(b + Seq::<char>::empty() =~= b);
    assert(restore_from(s, q1) == s.subrange(0, a.len() as int) + entry + restore_from(
        s.subrange((a.len() + 12) as int, s.len() as int),
        q1.drop_first(),
    ));
}

} // verus!
