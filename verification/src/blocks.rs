//! The block parser: a line-oriented state machine.  The text is split
//! into lines, each line is classified into a block status by its leading
//! syntax, and HTML is emitted per line together with the open/close
//! markup of the transitions between statuses.
use vstd::prelude::*;
use crate::text::append_vec;
use crate::text::cvec;
use crate::text::find_from;
use crate::text::find_from_v;
use crate::text::matches_at;
use crate::text::pair_replace;
use crate::text::pair_replace_v;
use crate::text::repeat_seq;
use crate::text::repeat_vec;
use crate::text::run_len;
use crate::text::run_count;
use crate::text::str_to_chars;
use crate::text::subvec;
use crate::text::views_of;
use crate::text::ws_char;
use crate::text::is_ws;

verus! {

/// The classification of one input line, the state of the block parser.
/// List statuses carry the nesting level derived from the marker run.
#[derive(PartialEq, Eq, Structural, Clone, Copy)]
pub enum Status {
    Neutral,
    Table,
    List(usize),
    OrderedList(usize),
    Quote,
    Header,
}

// ---------------------------------------------------------------------
// Splitting the text into lines: lines end at `\n`, and a `\r` directly
// before the `\n` is not part of the line; a final line without a line
// break is kept as it stands, and a trailing line break opens no line.
// ---------------------------------------------------------------------
pub open spec fn strip_cr(l: Seq<char>) -> Seq<char> {
    if l.len() > 0 && l[l.len() - 1] == '\r' {
        l.subrange(0, l.len() - 1)
    } else {
        l
    }
}

pub open spec fn lines_from(s: Seq<char>, i: int) -> Seq<Seq<char>>
    decreases s.len() - i,
{
    if i < 0 || i >= s.len() {
        Seq::empty()
    } else {
        match find_from(s, i, seq!['\n']) {
            None => seq![s.subrange(i, s.len() as int)],
            Some(j) => if i <= j < s.len() {
                seq![strip_cr(s.subrange(i, j))] + lines_from(s, j + 1)
            } else {
                seq![s.subrange(i, s.len() as int)]
            },
        }
    }
}

pub open spec fn lines_of(s: Seq<char>) -> Seq<Seq<char>> {
    lines_from(s, 0)
}

fn strip_cr_v(l: Vec<char>) -> (r: Vec<char>)
    ensures
        r@ == strip_cr(l@),
{
    let mut l = l;
    let ghost l0 = l@;
    if l.len() > 0 && l[l.len() - 1] == '\r' {
        let _ = l.pop();
        proof {
            assert(l@ =~= strip_cr(l0));
        }
    }
    l
}

pub fn split_lines_v(s: &Vec<char>) -> (r: Vec<Vec<char>>)
    ensures
        views_of(r@) == lines_of(s@),
{
    let nl = cvec('\n');
    let mut r: Vec<Vec<char>> = Vec::new();
    let mut i: usize = 0;
    while i < s.len()
        invariant
            0 <= i <= s@.len(),
            nl@ == seq!['\n'],
            views_of(r@) + lines_from(s@, i as int) == lines_of(s@),
        decreases s@.len() - i,
    {
        match find_from_v(s, i, &nl) {
            Some(j) => {
                let seg = subvec(s, i, j);
                let line = strip_cr_v(seg);
                proof {
                    assert(views_of(r@.push(line)) =~= views_of(r@).push(line@));
                    assert(lines_from(s@, i as int) == seq![strip_cr(s@.subrange(i as int, j as int))]
                        + lines_from(s@, j + 1));
                    assert(views_of(r@).push(line@) + lines_from(s@, j + 1) =~= views_of(r@) + (seq![
                        line@,
                    ] + lines_from(s@, j + 1)));
                }
                r.push(line);
                i = j + 1;
            },
            None => {
                let line = subvec(s, i, s.len());
                proof {
                    assert(views_of(r@.push(line)) =~= views_of(r@).push(line@));
                    assert(lines_from(s@, i as int) == seq![s@.subrange(i as int, s@.len() as int)]);
                    assert(views_of(r@).push(line@) =~= views_of(r@) + seq![line@]);
                }
                r.push(line);
                i = s.len();
            },
        }
    }
    proof {
        assert(views_of(r@) + lines_from(s@, i as int) =~= views_of(r@));
    }
    r
}

// ---------------------------------------------------------------------
// Line classification, in fixed precedence order: table, unordered list,
// ordered list, single-line quote, header, else neutral.
// ---------------------------------------------------------------------
/// A table line starts with `|` and ends with `|` or `|h`.
pub open spec fn is_table_line(l: Seq<char>) -> bool {
    l.len() >= 2 && l[0] == '|' && (l[l.len() - 1] == '|' || (l.len() >= 3 && l[l.len() - 1] == 'h'
        && l[l.len() - 2] == '|'))
}

/// A header row is marked by a trailing `h` on the line.
pub open spec fn hrow(l: Seq<char>) -> bool {
    l.len() > 0 && l[l.len() - 1] == 'h'
}

pub open spec fn table_inner(l: Seq<char>) -> Seq<char> {
    if hrow(l) {
        l.subrange(1, l.len() - 2)
    } else {
        l.subrange(1, l.len() - 1)
    }
}

/// A list line is a run of markers followed by at least one character;
/// a line of two or more bare markers counts as the shorter run followed
/// by one literal marker character.
pub open spec fn is_marker_line(l: Seq<char>, m: char) -> bool {
    run_len(l, 0, m) >= 1 && (run_len(l, 0, m) < l.len() || run_len(l, 0, m) >= 2)
}

pub open spec fn marker_level(l: Seq<char>, m: char) -> int {
    if run_len(l, 0, m) < l.len() {
        run_len(l, 0, m)
    } else {
        run_len(l, 0, m) - 1
    }
}

pub open spec fn marker_content(l: Seq<char>, m: char) -> Seq<char> {
    if run_len(l, 0, m) < l.len() {
        l.subrange(run_len(l, 0, m), l.len() as int)
    } else {
        seq![m]
    }
}

pub open spec fn is_quote_line(l: Seq<char>) -> bool {
    matches_at(l, 0, "&gt;"@)
}

pub open spec fn quote_content(l: Seq<char>) -> Seq<char> {
    l.subrange("&gt;"@.len() as int, l.len() as int)
}

/// A header line is one to six stars followed by a white-space character.
pub open spec fn is_header_line(l: Seq<char>) -> bool {
    1 <= run_len(l, 0, '*') <= 6 && run_len(l, 0, '*') < l.len() && ws_char(l[run_len(l, 0, '*')])
}

pub open spec fn classify(l: Seq<char>) -> Status {
    if is_table_line(l) {
        Status::Table
    } else if is_marker_line(l, '-') {
        Status::List(marker_level(l, '-') as usize)
    } else if is_marker_line(l, '+') {
        Status::OrderedList(marker_level(l, '+') as usize)
    } else if is_quote_line(l) {
        Status::Quote
    } else if is_header_line(l) {
        Status::Header
    } else {
        Status::Neutral
    }
}

fn is_table_line_v(l: &Vec<char>) -> (b: bool)
    ensures
        b == is_table_line(l@),
{
    l.len() >= 2 && l[0] == '|' && (l[l.len() - 1] == '|' || (l.len() >= 3 && l[l.len() - 1] == 'h'
        && l[l.len() - 2] == '|'))
}

fn is_marker_line_v(l: &Vec<char>, m: char) -> (b: bool)
    ensures
        b == is_marker_line(l@, m),
{
    let rn = run_count(l, 0, m);
    rn >= 1 && (rn < l.len() || rn >= 2)
}

pub fn classify_v(l: &Vec<char>) -> (st: Status)
    ensures
        st == classify(l@),
{
    if is_table_line_v(l) {
        Status::Table
    } else if is_marker_line_v(l, '-') {
        let rn = run_count(l, 0, '-');
        if rn < l.len() {
            Status::List(rn)
        } else {
            Status::List(rn - 1)
        }
    } else if is_marker_line_v(l, '+') {
        let rn = run_count(l, 0, '+');
        if rn < l.len() {
            Status::OrderedList(rn)
        } else {
            Status::OrderedList(rn - 1)
        }
    } else {
        let gt = str_to_chars("&gt;");
        if l.len() >= gt.len() && crate::text::eq_at(l, 0, &gt) {
            Status::Quote
        } else {
            let rn = run_count(l, 0, '*');
            if 1 <= rn && rn <= 6 && rn < l.len() && is_ws(l[rn]) {
                Status::Header
            } else {
                Status::Neutral
            }
        }
    }
}

// ---------------------------------------------------------------------
// Emission: the markup that closes the previous status, then the markup
// of the current line.
// ---------------------------------------------------------------------
/// The inline-code substitution, applied to each raw line before it is
/// classified: `{code}` .. `{/code}` within a line becomes an inline
/// `<code>` wrapper, with no stashing involved.
pub open spec fn code_pre() -> Seq<char> {
    "<code class=\"prettyprint prettyprinted\" style><span class=\"typ\">"@
}

pub open spec fn code_post() -> Seq<char> {
    "</span></code>"@
}

pub open spec fn inline_code_line(l: Seq<char>) -> Seq<char> {
    pair_replace(l, "{code}"@, "{/code}"@, code_pre(), code_post())
}

pub fn inline_code_line_v(l: &Vec<char>) -> (r: Vec<char>)
    ensures
        r@ == inline_code_line(l@),
{
    let open_pat = str_to_chars("{code}");
    let close_pat = str_to_chars("{/code}");
    let pre = str_to_chars("<code class=\"prettyprint prettyprinted\" style><span class=\"typ\">");
    let post = str_to_chars("</span></code>");
    pair_replace_v(l, &open_pat, &close_pat, &pre, &post)
}

/// What closes the previous status when the classification changes.
/// Leaving a list for a shallower list of the same kind closes only the
/// difference in levels; leaving it for anything else closes every level.
pub open spec fn closing_html(prev: Status, curr: Status) -> Seq<char> {
    if prev == curr {
        Seq::empty()
    } else {
        match prev {
            Status::Table => "</tbody></table>"@,
            Status::List(p) => match curr {
                Status::List(l) => if l < p {
                    repeat_seq("</li></ul>"@, p - l)
                } else {
                    Seq::empty()
                },
                _ => repeat_seq("</li></ul>"@, p as int),
            },
            Status::OrderedList(p) => match curr {
                Status::OrderedList(l) => if l < p {
                    repeat_seq("</li></ol>"@, p - l)
                } else {
                    Seq::empty()
                },
                _ => repeat_seq("</li></ol>"@, p as int),
            },
            Status::Quote => "</blockquote>"@,
            _ => Seq::empty(),
        }
    }
}

pub fn closing_v(prev: Status, curr: Status) -> (r: Vec<char>)
    ensures
        r@ == closing_html(prev, curr),
{
    if prev == curr {
        Vec::new()
    } else {
        match prev {
            Status::Table => str_to_chars("</tbody></table>"),
            Status::List(p) => {
                let pat = str_to_chars("</li></ul>");
                match curr {
                    Status::List(l) => if l < p {
                        repeat_vec(&pat, p - l)
                    } else {
                        Vec::new()
                    },
                    _ => repeat_vec(&pat, p),
                }
            },
            Status::OrderedList(p) => {
                let pat = str_to_chars("</li></ol>");
                match curr {
                    Status::OrderedList(l) => if l < p {
                        repeat_vec(&pat, p - l)
                    } else {
                        Vec::new()
                    },
                    _ => repeat_vec(&pat, p),
                }
            },
            Status::Quote => str_to_chars("</blockquote>"),
            _ => Vec::new(),
        }
    }
}

// ---------------------------------------------------------------------
// Table rows.
// ---------------------------------------------------------------------
pub open spec fn split_cells_from(s: Seq<char>, i: int) -> Seq<Seq<char>>
    decreases s.len() - i,
{
    if i < 0 || i > s.len() {
        Seq::empty()
    } else {
        match find_from(s, i, seq!['|']) {
            None => seq![s.subrange(i, s.len() as int)],
            Some(j) => if i <= j < s.len() {
                seq![s.subrange(i, j)] + split_cells_from(s, j + 1)
            } else {
                seq![s.subrange(i, s.len() as int)]
            },
        }
    }
}

/// One table cell: every cell of a header row, and any cell prefixed with
/// `~` (prefix stripped), becomes a header cell; the rest are data cells.
pub open spec fn cell_html(c: Seq<char>, header_row: bool) -> Seq<char> {
    if header_row {
        "<th>"@ + c + "</th>"@
    } else if c.len() > 0 && c[0] == '~' {
        "<th>"@ + c.subrange(1, c.len() as int) + "</th>"@
    } else {
        "<td>"@ + c + "</td>"@
    }
}

pub open spec fn cells_html_from(cells: Seq<Seq<char>>, i: int, header_row: bool) -> Seq<char>
    decreases cells.len() - i,
{
    if i < 0 || i >= cells.len() {
        Seq::empty()
    } else {
        cell_html(cells[i], header_row) + cells_html_from(cells, i + 1, header_row)
    }
}

pub open spec fn table_row_html(l: Seq<char>) -> Seq<char> {
    "<tr>"@ + cells_html_from(split_cells_from(table_inner(l), 0), 0, hrow(l)) + "</tr>"@
}

fn split_cells_v(s: &Vec<char>) -> (r: Vec<Vec<char>>)
    ensures
        views_of(r@) == split_cells_from(s@, 0),
{
    let bar = cvec('|');
    let n = s.len();
    let mut r: Vec<Vec<char>> = Vec::new();
    let mut i: usize = 0;
    loop
        invariant_except_break
            views_of(r@) + split_cells_from(s@, i as int) == split_cells_from(s@, 0),
        invariant
            0 <= i <= s@.len(),
            n == s@.len(),
            bar@ == seq!['|'],
        ensures
            views_of(r@) == split_cells_from(s@, 0),
        decreases s@.len() - i,
    {
        match find_from_v(s, i, &bar) {
            Some(j) => {
                let c = subvec(s, i, j);
                proof {
                    assert(views_of(r@.push(c)) =~= views_of(r@).push(c@));
                    assert(split_cells_from(s@, i as int) == seq![s@.subrange(i as int, j as int)]
                        + split_cells_from(s@, j + 1));
                    assert(views_of(r@).push(c@) + split_cells_from(s@, j + 1) =~= views_of(r@) + (
                    seq![c@] + split_cells_from(s@, j + 1)));
                }
                r.push(c);
                i = j + 1;
            },
            None => {
                let c = subvec(s, i, s.len());
                proof {
                    assert(views_of(r@.push(c)) =~= views_of(r@).push(c@));
                    assert(split_cells_from(s@, i as int) == seq![s@.subrange(
                        i as int,
                        s@.len() as int,
                    )]);
                    assert(views_of(r@).push(c@) =~= views_of(r@) + seq![c@]);
                }
                r.push(c);
                break ;
            },
        }
    }
    r
}

fn cell_html_v(c: &Vec<char>, header_row: bool) -> (r: Vec<char>)
    ensures
        r@ == cell_html(c@, header_row),
{
    if header_row {
        let mut r = str_to_chars("<th>");
        append_vec(&mut r, c);
        let close = str_to_chars("</th>");
        append_vec(&mut r, &close);
        r
    } else if c.len() > 0 && c[0] == '~' {
        let mut r = str_to_chars("<th>");
        let rest = subvec(c, 1, c.len());
        append_vec(&mut r, &rest);
        let close = str_to_chars("</th>");
        append_vec(&mut r, &close);
        r
    } else {
        let mut r = str_to_chars("<td>");
        append_vec(&mut r, c);
        let close = str_to_chars("</td>");
        append_vec(&mut r, &close);
        r
    }
}

fn table_row_v(l: &Vec<char>) -> (r: Vec<char>)
    requires
        is_table_line(l@),
    ensures
        r@ == table_row_html(l@),
{
    let header_row = l.len() > 0 && l[l.len() - 1] == 'h';
    let inner = if header_row {
        subvec(l, 1, l.len() - 2)
    } else {
        subvec(l, 1, l.len() - 1)
    };
    let cells = split_cells_v(&inner);
    let mut r = str_to_chars("<tr>");
    let ghost cs = split_cells_from(table_inner(l@), 0);
    let mut k: usize = 0;
    while k < cells.len()
        invariant
            0 <= k <= cells@.len(),
            cs == views_of(cells@),
            header_row == hrow(l@),
            r@ + cells_html_from(cs, k as int, hrow(l@)) == "<tr>"@ + cells_html_from(
                cs,
                0,
                hrow(l@),
            ),
        decreases cells@.len() - k,
    {
        let piece = cell_html_v(&cells[k], header_row);
        proof {
            assert(cs[k as int] == cells@[k as int]@);
            assert(cells_html_from(cs, k as int, hrow(l@)) == cell_html(cs[k as int], hrow(l@))
                + cells_html_from(cs, k + 1, hrow(l@)));
            assert((r@ + piece@) + cells_html_from(cs, k + 1, hrow(l@)) =~= r@ + (piece@
                + cells_html_from(cs, k + 1, hrow(l@))));
        }
        append_vec(&mut r, &piece);
        k += 1;
    }
    proof {
        assert(r@ + cells_html_from(cs, k as int, hrow(l@)) =~= r@);
    }
    let close = str_to_chars("</tr>");
    append_vec(&mut r, &close);
    r
}

// ---------------------------------------------------------------------
// Per-line content.
// ---------------------------------------------------------------------
pub open spec fn digit_char(n: int) -> char {
    if n == 1 {
        '1'
    } else if n == 2 {
        '2'
    } else if n == 3 {
        '3'
    } else if n == 4 {
        '4'
    } else if n == 5 {
        '5'
    } else {
        '6'
    }
}

/// A header line becomes `<hN>content</hN>`, `N` the star count.
pub open spec fn header_html(l: Seq<char>) -> Seq<char> {
    "<h"@ + seq![digit_char(run_len(l, 0, '*'))] + ">"@ + l.subrange(
        run_len(l, 0, '*') + 1,
        l.len() as int,
    ) + "</h"@ + seq![digit_char(run_len(l, 0, '*'))] + ">"@
}

/// The markup that a line contributes under its classification, including
/// the opening markup of a container that is just being entered.
pub open spec fn content_html(prev: Status, curr: Status, l: Seq<char>) -> Seq<char> {
    match curr {
        Status::Table => (if prev != Status::Table {
            "<table><tbody>"@
        } else {
            Seq::empty()
        }) + table_row_html(l),
        Status::List(lv) => (match prev {
            Status::List(p) => if lv > p {
                repeat_seq("<ul><li>"@, lv - p)
            } else if lv == p {
                "</li><li>"@
            } else {
                "<li>"@
            },
            _ => "<ul><li>"@,
        }) + marker_content(l, '-'),
        Status::OrderedList(lv) => (match prev {
            Status::OrderedList(p) => if lv > p {
                repeat_seq("<ol><li>"@, lv - p)
            } else if lv == p {
                "</li><li>"@
            } else {
                "<li>"@
            },
            _ => "<ol><li>"@,
        }) + marker_content(l, '+'),
        Status::Quote => (if prev != Status::Quote {
            "<blockquote>"@
        } else {
            Seq::empty()
        }) + quote_content(l) + "<br>"@,
        Status::Header => header_html(l),
        Status::Neutral => l + "<br>"@,
    }
}

fn marker_content_v(l: &Vec<char>, m: char) -> (r: Vec<char>)
    requires
        is_marker_line(l@, m),
    ensures
        r@ == marker_content(l@, m),
{
    let rn = run_count(l, 0, m);
    if rn < l.len() {
        subvec(l, rn, l.len())
    } else {
        cvec(m)
    }
}

fn header_html_v(l: &Vec<char>) -> (r: Vec<char>)
    requires
        is_header_line(l@),
    ensures
        r@ == header_html(l@),
{
    let rn = run_count(l, 0, '*');
    let d: char = if rn == 1 {
        '1'
    } else if rn == 2 {
        '2'
    } else if rn == 3 {
        '3'
    } else if rn == 4 {
        '4'
    } else if rn == 5 {
        '5'
    } else {
        '6'
    };
    let mut r = str_to_chars("<h");
    let dv = cvec(d);
    append_vec(&mut r, &dv);
    let gtv = str_to_chars(">");
    append_vec(&mut r, &gtv);
    let body = subvec(l, rn + 1, l.len());
    append_vec(&mut r, &body);
    let cl = str_to_chars("</h");
    append_vec(&mut r, &cl);
    append_vec(&mut r, &dv);
    append_vec(&mut r, &gtv);
    r
}

pub fn content_v(prev: Status, curr: Status, l: &Vec<char>) -> (r: Vec<char>)
    requires
        curr == classify(l@),
    ensures
        r@ == content_html(prev, curr, l@),
{
    match curr {
        Status::Table => {
            let mut r = if prev != Status::Table {
                str_to_chars("<table><tbody>")
            } else {
                Vec::new()
            };
            let row = table_row_v(l);
            append_vec(&mut r, &row);
            r
        },
        Status::List(lv) => {
            let mut r = match prev {
                Status::List(p) => if lv > p {
                    let pat = str_to_chars("<ul><li>");
                    repeat_vec(&pat, lv - p)
                } else if lv == p {
                    str_to_chars("</li><li>")
                } else {
                    str_to_chars("<li>")
                },
                _ => str_to_chars("<ul><li>"),
            };
            let body = marker_content_v(l, '-');
            append_vec(&mut r, &body);
            r
        },
        Status::OrderedList(lv) => {
            let mut r = match prev {
                Status::OrderedList(p) => if lv > p {
                    let pat = str_to_chars("<ol><li>");
                    repeat_vec(&pat, lv - p)
                } else if lv == p {
                    str_to_chars("</li><li>")
                } else {
                    str_to_chars("<li>")
                },
                _ => str_to_chars("<ol><li>"),
            };
            let body = marker_content_v(l, '+');
            append_vec(&mut r, &body);
            r
        },
        Status::Quote => {
            let mut r = if prev != Status::Quote {
                str_to_chars("<blockquote>")
            } else {
                Vec::new()
            };
            let gt = str_to_chars("&gt;");
            let body = subvec(l, gt.len(), l.len());
            append_vec(&mut r, &body);
            let br = str_to_chars("<br>");
            append_vec(&mut r, &br);
            r
        },
        Status::Header => header_html_v(l),
        Status::Neutral => {
            let mut r = crate::text::copy_vec(l);
            let br = str_to_chars("<br>");
            append_vec(&mut r, &br);
            r
        },
    }
}

// ---------------------------------------------------------------------
// The walk over all lines.  The previous status starts neutral; after the
// last line whatever container is still open is closed as if a trailing
// neutral line followed.
// ---------------------------------------------------------------------
pub open spec fn blocks_from(lines: Seq<Seq<char>>, i: int, prev: Status) -> Seq<char>
    decreases lines.len() - i,
{
    if i < 0 || i >= lines.len() {
        closing_html(prev, Status::Neutral)
    } else {
        let l = inline_code_line(lines[i]);
        let st = classify(l);
        closing_html(prev, st) + content_html(prev, st, l) + blocks_from(lines, i + 1, st)
    }
}

/// The whole block-parser output for the given lines.
pub open spec fn blocks_html(lines: Seq<Seq<char>>) -> Seq<char> {
    blocks_from(lines, 0, Status::Neutral)
}

pub fn blocks_v(lines: &Vec<Vec<char>>) -> (r: Vec<char>)
    ensures
        r@ == blocks_html(views_of(lines@)),
{
    let ghost ls = views_of(lines@);
    let mut out: Vec<char> = Vec::new();
    let mut prev = Status::Neutral;
    let mut i: usize = 0;
    while i < lines.len()
        invariant
            0 <= i <= lines@.len(),
            ls == views_of(lines@),
            out@ + blocks_from(ls, i as int, prev) == blocks_html(ls),
        decreases lines@.len() - i,
    {
        proof {
            assert(ls[i as int] == lines@[i as int]@);
        }
        let l2 = inline_code_line_v(&lines[i]);
        let st = classify_v(&l2);
        let closing = closing_v(prev, st);
        let content = content_v(prev, st, &l2);
        proof {
            assert(blocks_from(ls, i as int, prev) == closing_html(prev, st) + content_html(
                prev,
                st,
                l2@,
            ) + blocks_from(ls, i + 1, st));
            assert(((out@ + closing@) + content@) + blocks_from(ls, i + 1, st) =~= out@ + (
            (closing_html(prev, st) + content_html(prev, st, l2@)) + blocks_from(ls, i + 1, st)));
        }
        append_vec(&mut out, &closing);
        append_vec(&mut out, &content);
        prev = st;
        i += 1;
    }
    let fin = closing_v(prev, Status::Neutral);
    append_vec(&mut out, &fin);
    proof {
        assert(blocks_from(ls, i as int, prev) == closing_html(prev, Status::Neutral));
    }
    out
}

// ---------------------------------------------------------------------
// Laws of the state machine.
// ---------------------------------------------------------------------
/// A completely empty line is neutral and, with no container open,
/// contributes exactly the literal `<br>` and nothing else: as the sole
/// line of a document the block parser emits precisely `<br>`.
pub proof fn lemma_empty_line_br()
    ensures
        classify(inline_code_line(Seq::<char>::empty())) == Status::Neutral,
        blocks_html(seq![Seq::<char>::empty()]) == "<br>"@,
{
    reveal_strlit("{code}");
    reveal_strlit("{/code}");
    reveal_strlit("&gt;");
    let e = Seq::<char>::empty();
    assert(inline_code_line(e) == e);
    assert(!is_quote_line(e));
    assert(classify(e) == Status::Neutral);
    let lines = seq![e];
    assert(lines[0] == e);
    assert(blocks_from(lines, 1, Status::Neutral) == closing_html(
        Status::Neutral,
        Status::Neutral,
    ));
    assert(content_html(Status::Neutral, Status::Neutral, e) == e + "<br>"@);
    assert(blocks_html(lines) =~= "<br>"@);
}

/// How many `<ul><li>` units one transition opens and how many
/// `</li></ul>` units it closes, read off the definitions of
/// `content_html` and `closing_html`.
pub open spec fn ul_opens(prev: Status, curr: Status) -> int {
    match curr {
        Status::List(lv) => match prev {
            Status::List(p) => if lv > p {
                lv - p
            } else {
                0
            },
            _ => 1,
        },
        _ => 0,
    }
}

pub open spec fn ul_closes(prev: Status, curr: Status) -> int {
    if prev == curr {
        0
    } else {
        match prev {
            Status::List(p) => match curr {
                Status::List(l) => if l < p {
                    p - l
                } else {
                    0
                },
                _ => p as int,
            },
            _ => 0,
        }
    }
}

pub open spec fn ul_opens_from(lines: Seq<Seq<char>>, i: int, prev: Status) -> int
    decreases lines.len() - i,
{
    if i < 0 || i >= lines.len() {
        0
    } else {
        let st = classify(inline_code_line(lines[i]));
        ul_opens(prev, st) + ul_opens_from(lines, i + 1, st)
    }
}

pub open spec fn ul_closes_from(lines: Seq<Seq<char>>, i: int, prev: Status) -> int
    decreases lines.len() - i,
{
    if i < 0 || i >= lines.len() {
        ul_closes(prev, Status::Neutral)
    } else {
        let st = classify(inline_code_line(lines[i]));
        ul_closes(prev, st) + ul_closes_from(lines, i + 1, st)
    }
}

/// Every entry into an unordered list from outside one happens at level
/// one.  (The classification of a deeper first line still opens only a
/// single list, and the later close would then outrun the opens.)
pub open spec fn ul_entries_ok(lines: Seq<Seq<char>>, i: int, prev: Status) -> bool
    decreases lines.len() - i,
{
    if i < 0 || i >= lines.len() {
        true
    } else {
        let st = classify(inline_code_line(lines[i]));
        (match (prev, st) {
            (Status::List(_), _) => true,
            (_, Status::List(lv)) => lv == 1,
            _ => true,
        }) && ul_entries_ok(lines, i + 1, st)
    }
}

pub open spec fn ul_depth(st: Status) -> int {
    match st {
        Status::List(p) => p as int,
        _ => 0,
    }
}

proof fn lemma_ul_balance_from(lines: Seq<Seq<char>>, i: int, prev: Status)
    requires
        ul_entries_ok(lines, i, prev),
    ensures
        ul_closes_from(lines, i, prev) == ul_opens_from(lines, i, prev) + ul_depth(prev),
    decreases lines.len() - i,
{
    if i < 0 || i >= lines.len() {
    } else {
        let st = classify(inline_code_line(lines[i]));
        lemma_ul_balance_from(lines, i + 1, st);
    }
}

/// List nesting symmetry: over any document whose unordered lists are
/// entered at level one, the walk opens exactly as many `<ul><li>` units
/// as it closes `</li></ul>` units, the trailing close after the last
/// line included; at each step the open depth equals the current level.
pub proof fn lemma_ul_balance(lines: Seq<Seq<char>>)
    requires
        ul_entries_ok(lines, 0, Status::Neutral),
    ensures
        ul_closes_from(lines, 0, Status::Neutral) == ul_opens_from(lines, 0, Status::Neutral),
{
    lemma_ul_balance_from(lines, 0, Status::Neutral);
}

} // verus!
