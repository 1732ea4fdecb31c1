//! The inline transformer: whole-text substitutions applied to the block
//! parser's output, in a fixed order.  The italic, bold and strikethrough
//! passes are instances of the generic pair rewriting of `text`; this
//! module holds the passes with a shape of their own: the block-quote
//! folding, the colour span, and the link pass.
use vstd::prelude::*;
use crate::text::append_vec;
use crate::text::copy_vec;
use crate::text::cvec;
use crate::text::eq_at;
use crate::text::find_from;
use crate::text::find_from_v;
use crate::text::is_ws;
use crate::text::matches_at;
use crate::text::str_to_chars;
use crate::text::subvec;
use crate::text::ws_char;

verus! {

// ---------------------------------------------------------------------
// White-space trimming, as the colour pass needs it.
// ---------------------------------------------------------------------
/// The first index at or after `i` holding no white space.
pub open spec fn skip_ws(s: Seq<char>, i: int) -> int
    decreases s.len() - i,
{
    if i < 0 {
        0
    } else if i >= s.len() {
        s.len() as int
    } else if ws_char(s[i]) {
        skip_ws(s, i + 1)
    } else {
        i
    }
}

pub open spec fn trim_end(s: Seq<char>) -> Seq<char>
    decreases s.len(),
{
    if s.len() > 0 && ws_char(s[s.len() - 1]) {
        trim_end(s.subrange(0, s.len() - 1))
    } else {
        s
    }
}

/// `s` with white space removed from both ends.
pub open spec fn trim(s: Seq<char>) -> Seq<char> {
    trim_end(s.subrange(skip_ws(s, 0), s.len() as int))
}

pub fn skip_ws_v(s: &Vec<char>, i: usize) -> (r: usize)
    requires
        i <= s@.len(),
    ensures
        r == skip_ws(s@, i as int),
        i <= r <= s@.len(),
{
    let mut j: usize = i;
    while j < s.len() && is_ws(s[j])
        invariant
            i <= j <= s@.len(),
            skip_ws(s@, i as int) == skip_ws(s@, j as int),
        decreases s@.len() - j,
    {
        j += 1;
    }
    j
}

fn trim_end_v(s: Vec<char>) -> (r: Vec<char>)
    ensures
        r@ == trim_end(s@),
{
    let mut r = s;
    let ghost s0 = r@;
    while r.len() > 0 && is_ws(r[r.len() - 1])
        invariant
            trim_end(r@) == trim_end(s0),
        decreases r@.len(),
    {
        let _ = r.pop();
    }
    r
}

pub fn trim_v(s: &Vec<char>, a: usize, b: usize) -> (r: Vec<char>)
    requires
        a <= b <= s@.len(),
    ensures
        r@ == trim(s@.subrange(a as int, b as int)),
{
    let part = subvec(s, a, b);
    let lo = skip_ws_v(&part, 0);
    let part2 = subvec(&part, lo, part.len());
    trim_end_v(part2)
}

// ---------------------------------------------------------------------
// Block-quote folding: a `{quote}` marker line and its `{/quote}` close,
// as the block parser has rendered them, are rewrapped into a nested
// blockquote.  The marker must stand at the very start of the text or
// directly after a `>`; that `>` is kept in front of the replacement.
// ---------------------------------------------------------------------
/// A fold may open at `p`: the result gives where the quoted span begins
/// and whether a leading `>` was consumed.
pub open spec fn qopen_at(s: Seq<char>, p: int, at_start: bool) -> Option<(int, bool)> {
    if at_start && p == 0 && matches_at(s, 0, "{quote}<br>"@) {
        Some(("{quote}<br>"@.len() as int, false))
    } else if 0 <= p < s.len() && s[p] == '>' && matches_at(s, p + 1, "{quote}<br>"@) {
        Some((p + 1 + "{quote}<br>"@.len(), true))
    } else {
        None
    }
}

pub open spec fn find_qopen(s: Seq<char>, p: int, at_start: bool) -> Option<(int, int, bool)>
    decreases s.len() - p,
{
    if p < 0 || p > s.len() {
        None
    } else {
        match qopen_at(s, p, at_start) {
            Some((cs, gt)) => Some((p, cs, gt)),
            None => if p == s.len() {
                None
            } else {
                find_qopen(s, p + 1, at_start)
            },
        }
    }
}

/// The block-quote folding pass.  `at_start` says whether a marker at
/// the very start of the text still counts; it no longer does once a
/// fold has been rewritten.
pub open spec fn quote_fold(s: Seq<char>, at_start: bool) -> Seq<char>
    decreases s.len(),
{
    match find_qopen(s, 0, at_start) {
        None => s,
        Some((p, cs, gt)) => match find_from(s, cs, ">{/quote}<br>"@) {
            None => s,
            Some(k) => if 0 <= p <= cs <= k && 1 <= cs && k + ">{/quote}<br>"@.len() <= s.len() {
                s.subrange(0, p) + (if gt {
                    ">"@
                } else {
                    Seq::<char>::empty()
                }) + "<br><blockquote>"@ + s.subrange(cs, k) + "></blockquote><br>"@ + quote_fold(
                    s.subrange(k + ">{/quote}<br>"@.len(), s.len() as int),
                    false,
                )
            } else {
                s
            },
        },
    }
}

fn qopen_at_v(s: &Vec<char>, p: usize, at_start: bool, marker: &Vec<char>) -> (r: Option<(
    usize,
    bool,
)>)
    requires
        p <= s@.len(),
        marker@ == "{quote}<br>"@,
    ensures
        match r {
            Some(cg) => qopen_at(s@, p as int, at_start) == Some((cg.0 as int, cg.1)) && p <= cg.0
                <= s@.len() && 1 <= cg.0,
            None => qopen_at(s@, p as int, at_start) is None,
        },
{
    let n = s.len();
    if at_start && p == 0 && n >= marker.len() && eq_at(s, 0, marker) {
        assert(marker@.len() >= 1) by {
            reveal_strlit("{quote}<br>");
        }
        Some((marker.len(), false))
    } else if p < n && s[p] == '>' && n - (p + 1) >= marker.len() && eq_at(s, p + 1, marker) {
        Some((p + 1 + marker.len(), true))
    } else {
        None
    }
}

fn find_qopen_v(s: &Vec<char>, at_start: bool, marker: &Vec<char>) -> (r: Option<(
    usize,
    usize,
    bool,
)>)
    requires
        marker@ == "{quote}<br>"@,
    ensures
        match r {
            Some(pcg) => find_qopen(s@, 0, at_start) == Some((pcg.0 as int, pcg.1 as int, pcg.2))
                && pcg.0 <= pcg.1 <= s@.len() && 1 <= pcg.1,
            None => find_qopen(s@, 0, at_start) is None,
        },
{
    let mut p: usize = 0;
    loop
        invariant
            0 <= p <= s@.len(),
            marker@ == "{quote}<br>"@,
            find_qopen(s@, 0, at_start) == find_qopen(s@, p as int, at_start),
        decreases s@.len() - p,
    {
        match qopen_at_v(s, p, at_start, marker) {
            Some((cs, gt)) => {
                return Some((p, cs, gt));
            },
            None => {
                if p == s.len() {
                    return None;
                }
                p += 1;
            },
        }
    }
}

pub fn quote_fold_v(s: &Vec<char>, at_start: bool) -> (r: Vec<char>)
    ensures
        r@ == quote_fold(s@, at_start),
    decreases s@.len(),
{
    let marker = str_to_chars("{quote}<br>");
    let close_pat = str_to_chars(">{/quote}<br>");
    match find_qopen_v(s, at_start, &marker) {
        None => copy_vec(s),
        Some((p, cs, gt)) => {
            match find_from_v(s, cs, &close_pat) {
                None => copy_vec(s),
                Some(k) => {
                    let n = s.len();
                    assert(k + close_pat@.len() <= n);
                    let mut r = subvec(s, 0, p);
                    if gt {
                        let gtc = str_to_chars(">");
                        append_vec(&mut r, &gtc);
                    }
                    let pre = str_to_chars("<br><blockquote>");
                    append_vec(&mut r, &pre);
                    let inner = subvec(s, cs, k);
                    append_vec(&mut r, &inner);
                    let post = str_to_chars("></blockquote><br>");
                    append_vec(&mut r, &post);
                    let suffix = subvec(s, k + close_pat.len(), s.len());
                    let rest = quote_fold_v(&suffix, false);
                    append_vec(&mut r, &rest);
                    r
                },
            }
        },
    }
}

// ---------------------------------------------------------------------
// Colour spans: `&color(v){text}` — with the ampersand already escaped —
// with one value or two comma-separated values becomes a `<span>` with an
// inline colour (and background colour) style.
// ---------------------------------------------------------------------
/// After a closing parenthesis at `k`, only white space may stand before
/// a `{`, and a `}` must follow somewhere after it.
pub open spec fn brace_ok(s: Seq<char>, k: int) -> bool {
    let p = skip_ws(s, k + 1);
    p < s.len() && s[p] == '{' && find_from(s, p + 1, seq!['}']) is Some
}

pub open spec fn find_cparen(s: Seq<char>, k: int) -> Option<int>
    decreases s.len() - k,
{
    if k < 0 || k >= s.len() {
        None
    } else if s[k] == ')' && brace_ok(s, k) {
        Some(k)
    } else {
        find_cparen(s, k + 1)
    }
}

/// The span and the two trimmed groups of a colour call whose marker
/// stands at `j`: the value list between the parentheses and the content
/// between the braces, together with the index just past the match.
pub open spec fn color_match(s: Seq<char>, j: int) -> Option<(int, Seq<char>, Seq<char>)> {
    let a = j + "&amp;color("@.len();
    match find_cparen(s, a) {
        None => None,
        Some(k) => {
            let p = skip_ws(s, k + 1);
            match find_from(s, p + 1, seq!['}']) {
                None => None,
                Some(m) => Some((m + 1, trim(s.subrange(a, k)), trim(s.subrange(p + 1, m)))),
            }
        },
    }
}

pub open spec fn find_color(s: Seq<char>, j: int) -> Option<(int, int, Seq<char>, Seq<char>)>
    decreases s.len() - j,
{
    if j < 0 || j > s.len() {
        None
    } else {
        let cm = if matches_at(s, j, "&amp;color("@) {
            color_match(s, j)
        } else {
            None
        };
        match cm {
            Some((e, g1, g2)) => Some((j, e, g1, g2)),
            None => if j == s.len() {
                None
            } else {
                find_color(s, j + 1)
            },
        }
    }
}

/// The inline style of a colour span: one value gives a colour, a
/// comma-separated list gives a colour and a background colour, each
/// value trimmed.
pub open spec fn style_of(g1: Seq<char>) -> Seq<char> {
    match find_from(g1, 0, seq![',']) {
        None => "color: "@ + g1 + ";"@,
        Some(ci) => {
            let e2 = match find_from(g1, ci + 1, seq![',']) {
                Some(c2) => c2,
                None => g1.len() as int,
            };
            "color: "@ + trim(g1.subrange(0, ci)) + ";background-color: "@ + trim(
                g1.subrange(ci + 1, e2),
            ) + ";"@
        },
    }
}

pub open spec fn color_pass(s: Seq<char>) -> Seq<char>
    decreases s.len(),
{
    match find_color(s, 0) {
        None => s,
        Some((j, e, g1, g2)) => if 0 <= j < e <= s.len() {
            s.subrange(0, j) + "<span style=\""@ + style_of(g1) + "\">"@ + g2 + "</span>"@
                + color_pass(s.subrange(e, s.len() as int))
        } else {
            s
        },
    }
}

fn brace_ok_v(s: &Vec<char>, k: usize) -> (b: bool)
    requires
        k < s@.len(),
    ensures
        b == brace_ok(s@, k as int),
{
    let n = s.len();
    let p = skip_ws_v(s, k + 1);
    if p < s.len() && s[p] == '{' {
        let rb = cvec('}');
        match find_from_v(s, p + 1, &rb) {
            Some(_) => true,
            None => false,
        }
    } else {
        false
    }
}

fn find_cparen_v(s: &Vec<char>, k0: usize) -> (r: Option<usize>)
    requires
        k0 <= s@.len(),
    ensures
        match r {
            Some(k) => find_cparen(s@, k0 as int) == Some(k as int) && k0 <= k < s@.len()
                && brace_ok(s@, k as int),
            None => find_cparen(s@, k0 as int) is None,
        },
{
    let mut k: usize = k0;
    loop
        invariant
            k0 <= k <= s@.len(),
            find_cparen(s@, k0 as int) == find_cparen(s@, k as int),
        decreases s@.len() - k,
    {
        if k >= s.len() {
            return None;
        }
        if s[k] == ')' && brace_ok_v(s, k) {
            return Some(k);
        }
        k += 1;
    }
}

fn style_of_v(g1: &Vec<char>) -> (r: Vec<char>)
    ensures
        r@ == style_of(g1@),
{
    let comma = cvec(',');
    match find_from_v(g1, 0, &comma) {
        None => {
            let mut r = str_to_chars("color: ");
            append_vec(&mut r, g1);
            let sc = str_to_chars(";");
            append_vec(&mut r, &sc);
            r
        },
        Some(ci) => {
            let n1 = g1.len();
            assert(ci + 1 <= n1);
            let e2 = match find_from_v(g1, ci + 1, &comma) {
                Some(c2) => c2,
                None => g1.len(),
            };
            let mut r = str_to_chars("color: ");
            let s0 = trim_v(g1, 0, ci);
            append_vec(&mut r, &s0);
            let mid = str_to_chars(";background-color: ");
            append_vec(&mut r, &mid);
            let s1 = trim_v(g1, ci + 1, e2);
            append_vec(&mut r, &s1);
            let sc = str_to_chars(";");
            append_vec(&mut r, &sc);
            r
        },
    }
}

fn color_match_v(s: &Vec<char>, j: usize, marker: &Vec<char>) -> (r: Option<(
    usize,
    Vec<char>,
    Vec<char>,
)>)
    requires
        marker@ == "&amp;color("@,
        matches_at(s@, j as int, marker@),
    ensures
        match r {
            Some(egg) => color_match(s@, j as int) == Some((egg.0 as int, egg.1@, egg.2@)) && j
                < egg.0 <= s@.len(),
            None => color_match(s@, j as int) is None,
        },
{
    let n = s.len();
    assert(j + marker@.len() <= n);
    let a = j + marker.len();
    match find_cparen_v(s, a) {
        None => None,
        Some(k) => {
            let p = skip_ws_v(s, k + 1);
            assert(p < n);
            let rb = cvec('}');
            match find_from_v(s, p + 1, &rb) {
                None => None,
                Some(m) => {
                    let g1 = trim_v(s, a, k);
                    let g2 = trim_v(s, p + 1, m);
                    Some((m + 1, g1, g2))
                },
            }
        },
    }
}

fn find_color_v(s: &Vec<char>, marker: &Vec<char>) -> (r: Option<(usize, usize, Vec<char>, Vec<
    char,
>)>)
    requires
        marker@ == "&amp;color("@,
    ensures
        match r {
            Some(m) => find_color(s@, 0) == Some((m.0 as int, m.1 as int, m.2@, m.3@)) && m.0 < m.1
                <= s@.len(),
            None => find_color(s@, 0) is None,
        },
{
    let n = s.len();
    let mut j: usize = 0;
    loop
        invariant
            0 <= j <= s@.len(),
            n == s@.len(),
            marker@ == "&amp;color("@,
            find_color(s@, 0) == find_color(s@, j as int),
        decreases s@.len() - j,
    {
        if n - j >= marker.len() && eq_at(s, j, marker) {
            match color_match_v(s, j, marker) {
                Some((e, g1, g2)) => {
                    return Some((j, e, g1, g2));
                },
                None => {
                    if j == n {
                        return None;
                    }
                    j += 1;
                },
            }
        } else {
            if j == n {
                return None;
            }
            j += 1;
        }
    }
}

pub fn color_pass_v(s: &Vec<char>) -> (r: Vec<char>)
    ensures
        r@ == color_pass(s@),
    decreases s@.len(),
{
    let marker = str_to_chars("&amp;color(");
    match find_color_v(s, &marker) {
        None => copy_vec(s),
        Some((j, e, g1, g2)) => {
            let mut r = subvec(s, 0, j);
            let pre = str_to_chars("<span style=\"");
            append_vec(&mut r, &pre);
            let style = style_of_v(&g1);
            append_vec(&mut r, &style);
            let mid = str_to_chars("\">");
            append_vec(&mut r, &mid);
            append_vec(&mut r, &g2);
            let post = str_to_chars("</span>");
            append_vec(&mut r, &post);
            let suffix = subvec(s, e, s.len());
            let rest = color_pass_v(&suffix);
            append_vec(&mut r, &rest);
            r
        },
    }
}

// ---------------------------------------------------------------------
// Links: a bare `http(s)://` URL, or a named link `[[label>url]]` /
// `[[label:url]]` (the `>` of the wrapper arriving escaped), becomes an
// anchor that opens in a new tab; the text is the label when one is
// given, else the URL itself.
// ---------------------------------------------------------------------
/// A character that may stand in a URL: an ASCII letter, digit or
/// underscore, or one of a fixed set of symbols.
pub open spec fn url_char(c: char) -> bool {
    (0x30 <= c as u32 && c as u32 <= 0x39) || (0x41 <= c as u32 && c as u32 <= 0x5a) || (0x61
        <= c as u32 && c as u32 <= 0x7a) || c == '_' || c == '!' || c == '?' || c == '/' || c == '+'
        || c == '-' || c == '~' || c == '=' || c == ';' || c == '.' || c == ',' || c == '*' || c
        == '&' || c == '@' || c == '#' || c == '$' || c == '%' || c == '(' || c == ')' || c == '\''
}

fn is_url_char(c: char) -> (b: bool)
    ensures
        b == url_char(c),
{
    (0x30 <= c as u32 && c as u32 <= 0x39) || (0x41 <= c as u32 && c as u32 <= 0x5a) || (0x61
        <= c as u32 && c as u32 <= 0x7a) || c == '_' || c == '!' || c == '?' || c == '/' || c == '+'
        || c == '-' || c == '~' || c == '=' || c == ';' || c == '.' || c == ',' || c == '*' || c
        == '&' || c == '@' || c == '#' || c == '$' || c == '%' || c == '(' || c == ')' || c == '\''
}

pub open spec fn url_run(s: Seq<char>, i: int) -> int
    decreases s.len() - i,
{
    if i < 0 || i >= s.len() || !url_char(s[i]) {
        0
    } else {
        1 + url_run(s, i + 1)
    }
}

fn url_run_v(s: &Vec<char>, from: usize) -> (n: usize)
    requires
        from <= s@.len(),
    ensures
        n == url_run(s@, from as int),
        from + n <= s@.len(),
{
    let mut i: usize = from;
    while i < s.len() && is_url_char(s[i])
        invariant
            from <= i <= s@.len(),
            url_run(s@, from as int) == i - from + url_run(s@, i as int),
        decreases s@.len() - i,
    {
        i += 1;
    }
    i - from
}

/// Where the URL starting at `i` ends: a scheme followed by at least one
/// URL character; the result is the index just past the last of them.
pub open spec fn url_end_at(s: Seq<char>, i: int) -> Option<int> {
    let sl = if matches_at(s, i, "https://"@) {
        "https://"@.len() as int
    } else if matches_at(s, i, "http://"@) {
        "http://"@.len() as int
    } else {
        0
    };
    if sl == 0 {
        None
    } else if url_run(s, i + sl) >= 1 {
        Some(i + sl + url_run(s, i + sl))
    } else {
        None
    }
}

fn url_end_at_v(s: &Vec<char>, i: usize, https_pat: &Vec<char>, http_pat: &Vec<char>) -> (r: Option<
    usize,
>)
    requires
        i <= s@.len(),
        https_pat@ == "https://"@,
        http_pat@ == "http://"@,
    ensures
        match r {
            Some(e) => url_end_at(s@, i as int) == Some(e as int) && i < e <= s@.len(),
            None => url_end_at(s@, i as int) is None,
        },
{
    let n = s.len();
    let sl: usize = if n - i >= https_pat.len() && eq_at(s, i, https_pat) {
        https_pat.len()
    } else if n - i >= http_pat.len() && eq_at(s, i, http_pat) {
        assert(!matches_at(s@, i as int, "https://"@)) by {
            reveal_strlit("https://");
            reveal_strlit("http://");
            if matches_at(s@, i as int, "https://"@) {
                assert(s@.subrange(i as int, i + "https://"@.len())[4] == s@[i + 4]);
                assert(s@.subrange(i as int, i + "http://"@.len())[4] == s@[i + 4]);
            }
        }
        http_pat.len()
    } else {
        proof {
            reveal_strlit("https://");
            reveal_strlit("http://");
        }
        0
    };
    if sl == 0 {
        None
    } else {
        let run = url_run_v(s, i + sl);
        if run >= 1 {
            proof {
                reveal_strlit("https://");
                reveal_strlit("http://");
            }
            Some(i + sl + run)
        } else {
            None
        }
    }
}

/// The lazy search for the end of a link label: the shortest non-empty
/// run of non-bracket characters after `[[` that is followed by an
/// escaped `>` or a `:` and then a URL.  The result gives the index past
/// the label and the index where the URL starts.
pub open spec fn find_label_end(s: Seq<char>, ls: int, q: int) -> Option<(int, int)>
    decreases s.len() - q,
{
    if q < 1 || q > s.len() || q < ls + 1 {
        None
    } else if s[q - 1] == '[' || s[q - 1] == ']' {
        None
    } else if matches_at(s, q, "&gt;"@) && url_end_at(s, q + "&gt;"@.len()) is Some {
        Some((q, q + "&gt;"@.len() as int))
    } else if q < s.len() && s[q] == ':' && url_end_at(s, q + 1) is Some {
        Some((q, q + 1))
    } else if q >= s.len() {
        None
    } else {
        find_label_end(s, ls, q + 1)
    }
}

fn find_label_end_v(
    s: &Vec<char>,
    ls: usize,
    gt_pat: &Vec<char>,
    https_pat: &Vec<char>,
    http_pat: &Vec<char>,
) -> (r: Option<(usize, usize)>)
    requires
        ls <= s@.len(),
        gt_pat@ == "&gt;"@,
        https_pat@ == "https://"@,
        http_pat@ == "http://"@,
    ensures
        match r {
            Some(lu) => find_label_end(s@, ls as int, ls + 1) == Some((lu.0 as int, lu.1 as int))
                && ls < lu.0 <= s@.len() && lu.0 <= lu.1 <= s@.len(),
            None => find_label_end(s@, ls as int, ls + 1) is None,
        },
{
    let n = s.len();
    if ls >= n {
        return None;
    }
    let mut q: usize = ls + 1;
    loop
        invariant
            ls + 1 <= q,
            q <= s@.len() + 1,
            n == s@.len(),
            gt_pat@ == "&gt;"@,
            https_pat@ == "https://"@,
            http_pat@ == "http://"@,
            find_label_end(s@, ls as int, (ls + 1) as int) == find_label_end(
                s@,
                ls as int,
                q as int,
            ),
        decreases s@.len() + 1 - q,
    {
        if q > n {
            return None;
        }
        if s[q - 1] == '[' || s[q - 1] == ']' {
            return None;
        }
        if n - q >= gt_pat.len() && eq_at(s, q, gt_pat) {
            match url_end_at_v(s, q + gt_pat.len(), https_pat, http_pat) {
                Some(_) => {
                    return Some((q, q + gt_pat.len()));
                },
                None => {},
            }
        }
        if q < n && s[q] == ':' {
            match url_end_at_v(s, q + 1, https_pat, http_pat) {
                Some(_) => {
                    return Some((q, q + 1));
                },
                None => {},
            }
        }
        if q >= n {
            return None;
        }
        q += 1;
    }
}

/// The span and parts of a link match at `p`: the index past the match
/// (a directly following `]]` is consumed), the URL, and the anchor
/// text.
pub open spec fn bare_url_match(s: Seq<char>, p: int) -> Option<(int, Seq<char>, Seq<char>)> {
    match url_end_at(s, p) {
        None => None,
        Some(ue) => Some(
            (
                if matches_at(s, ue, "]]"@) {
                    ue + "]]"@.len() as int
                } else {
                    ue
                },
                s.subrange(p, ue),
                s.subrange(p, ue),
            ),
        ),
    }
}

pub open spec fn url_match_at(s: Seq<char>, p: int) -> Option<(int, Seq<char>, Seq<char>)> {
    if matches_at(s, p, "[["@) {
        match find_label_end(s, p + "[["@.len(), p + "[["@.len() + 1) {
            Some((le, us)) => match url_end_at(s, us) {
                Some(ue) => Some(
                    (
                        if matches_at(s, ue, "]]"@) {
                            ue + "]]"@.len() as int
                        } else {
                            ue
                        },
                        s.subrange(us, ue),
                        s.subrange(p + "[["@.len(), le),
                    ),
                ),
                None => None,
            },
            None => bare_url_match(s, p),
        }
    } else {
        bare_url_match(s, p)
    }
}

pub open spec fn find_url(s: Seq<char>, p: int) -> Option<(int, int, Seq<char>, Seq<char>)>
    decreases s.len() - p,
{
    if p < 0 || p > s.len() {
        None
    } else {
        match url_match_at(s, p) {
            Some((e, h, t)) => Some((p, e, h, t)),
            None => if p == s.len() {
                None
            } else {
                find_url(s, p + 1)
            },
        }
    }
}

/// The link pass over the whole text.
pub open spec fn url_pass(s: Seq<char>) -> Seq<char>
    decreases s.len(),
{
    match find_url(s, 0) {
        None => s,
        Some((p, e, h, t)) => if 0 <= p < e <= s.len() {
            s.subrange(0, p) + "<a href=\""@ + h
                + "\" target=\"_blank\" rel=\"noopener noreferrer\" class=\"loom-link-another\">"@ + t
                + "</a>"@ + url_pass(s.subrange(e, s.len() as int))
        } else {
            s
        },
    }
}

struct UrlPats {
    gt: Vec<char>,
    https: Vec<char>,
    http: Vec<char>,
    open_br: Vec<char>,
    close_br: Vec<char>,
}

impl UrlPats {
    spec fn wf(&self) -> bool {
        self.gt@ == "&gt;"@ && self.https@ == "https://"@ && self.http@ == "http://"@
            && self.open_br@ == "[["@ && self.close_br@ == "]]"@
    }

    fn make() -> (r: UrlPats)
        ensures
            r.wf(),
    {
        UrlPats {
            gt: str_to_chars("&gt;"),
            https: str_to_chars("https://"),
            http: str_to_chars("http://"),
            open_br: str_to_chars("[["),
            close_br: str_to_chars("]]"),
        }
    }
}

fn url_match_at_v(s: &Vec<char>, p: usize, pats: &UrlPats) -> (r: Option<(
    usize,
    Vec<char>,
    Vec<char>,
)>)
    requires
        p <= s@.len(),
        pats.wf(),
    ensures
        match r {
            Some(m) => url_match_at(s@, p as int) == Some((m.0 as int, m.1@, m.2@)) && p < m.0
                <= s@.len(),
            None => url_match_at(s@, p as int) is None,
        },
{
    let n = s.len();
    if n - p >= pats.open_br.len() && eq_at(s, p, &pats.open_br) {
        let ls = p + pats.open_br.len();
        match find_label_end_v(s, ls, &pats.gt, &pats.https, &pats.http) {
            Some((le, us)) => {
                match url_end_at_v(s, us, &pats.https, &pats.http) {
                    Some(ue) => {
                        let e = if n - ue >= pats.close_br.len() && eq_at(s, ue, &pats.close_br) {
                            ue + pats.close_br.len()
                        } else {
                            ue
                        };
                        let h = subvec(s, us, ue);
                        let t = subvec(s, ls, le);
                        proof {
                            reveal_strlit("[[");
                        }
                        Some((e, h, t))
                    },
                    None => None,
                }
            },
            None => bare_url_match_v(s, p, pats),
        }
    } else {
        bare_url_match_v(s, p, pats)
    }
}

fn bare_url_match_v(s: &Vec<char>, p: usize, pats: &UrlPats) -> (r: Option<(
    usize,
    Vec<char>,
    Vec<char>,
)>)
    requires
        p <= s@.len(),
        pats.wf(),
    ensures
        match r {
            Some(m) => bare_url_match(s@, p as int) == Some((m.0 as int, m.1@, m.2@)) && p < m.0
                <= s@.len(),
            None => bare_url_match(s@, p as int) is None,
        },
{
    let n = s.len();
    match url_end_at_v(s, p, &pats.https, &pats.http) {
        None => None,
        Some(ue) => {
            let e = if n - ue >= pats.close_br.len() && eq_at(s, ue, &pats.close_br) {
                ue + pats.close_br.len()
            } else {
                ue
            };
            let h = subvec(s, p, ue);
            let t = subvec(s, p, ue);
            Some((e, h, t))
        },
    }
}

fn find_url_v(s: &Vec<char>, pats: &UrlPats) -> (r: Option<(usize, usize, Vec<char>, Vec<char>)>)
    requires
        pats.wf(),
    ensures
        match r {
            Some(m) => find_url(s@, 0) == Some((m.0 as int, m.1 as int, m.2@, m.3@)) && m.0 < m.1
                <= s@.len(),
            None => find_url(s@, 0) is None,
        },
{
    let mut p: usize = 0;
    loop
        invariant
            0 <= p <= s@.len(),
            pats.wf(),
            find_url(s@, 0) == find_url(s@, p as int),
        decreases s@.len() - p,
    {
        match url_match_at_v(s, p, pats) {
            Some((e, h, t)) => {
                return Some((p, e, h, t));
            },
            None => {
                if p == s.len() {
                    return None;
                }
                p += 1;
            },
        }
    }
}

pub fn url_pass_v(s: &Vec<char>) -> (r: Vec<char>)
    ensures
        r@ == url_pass(s@),
    decreases s@.len(),
{
    let pats = UrlPats::make();
    match find_url_v(s, &pats) {
        None => copy_vec(s),
        Some((p, e, h, t)) => {
            let mut r = subvec(s, 0, p);
            let pre = str_to_chars("<a href=\"");
            append_vec(&mut r, &pre);
            append_vec(&mut r, &h);
            let mid = str_to_chars(
                "\" target=\"_blank\" rel=\"noopener noreferrer\" class=\"loom-link-another\">",
            );
            append_vec(&mut r, &mid);
            append_vec(&mut r, &t);
            let post = str_to_chars("</a>");
            append_vec(&mut r, &post);
            let suffix = subvec(s, e, s.len());
            let rest = url_pass_v(&suffix);
            append_vec(&mut r, &rest);
            r
        },
    }
}

} // verus!
