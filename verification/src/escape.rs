//! The escaper: the first stage of the pipeline.  Every `<`, `>`, `&`,
//! `"`, `'` and backtick of the raw input is replaced by its HTML entity
//! in a single left-to-right scan; every other character passes through.
//! All later stages operate on the escaped text and treat the entity
//! forms as the literal characters of their own syntax.
use vstd::prelude::*;
use crate::text::append_vec;
use crate::text::str_to_chars;

verus! {

/// What one character of the raw input becomes.
pub open spec fn esc_char(c: char) -> Seq<char> {
    if c == '<' {
        "&lt;"@
    } else if c == '>' {
        "&gt;"@
    } else if c == '&' {
        "&amp;"@
    } else if c == '"' {
        "&quot;"@
    } else if c == '\'' {
        "&#x27;"@
    } else if c == '`' {
        "&#x60;"@
    } else {
        seq![c]
    }
}

pub open spec fn escape_from(s: Seq<char>, i: int) -> Seq<char>
    decreases s.len() - i,
{
    if i < 0 || i >= s.len() {
        Seq::empty()
    } else {
        esc_char(s[i]) + escape_from(s, i + 1)
    }
}

/// The escaped form of the whole text.
pub open spec fn escape_text(s: Seq<char>) -> Seq<char> {
    escape_from(s, 0)
}

fn esc_char_v(c: char) -> (r: Vec<char>)
    ensures
        r@ == esc_char(c),
{
    if c == '<' {
        str_to_chars("&lt;")
    } else if c == '>' {
        str_to_chars("&gt;")
    } else if c == '&' {
        str_to_chars("&amp;")
    } else if c == '"' {
        str_to_chars("&quot;")
    } else if c == '\'' {
        str_to_chars("&#x27;")
    } else if c == '`' {
        str_to_chars("&#x60;")
    } else {
        let mut r: Vec<char> = Vec::new();
        r.push(c);
        proof {
            assert(r@ =~= seq![c]);
        }
        r
    }
}

pub fn escape_vec(s: &Vec<char>) -> (r: Vec<char>)
    ensures
        r@ == escape_text(s@),
{
    let mut r: Vec<char> = Vec::new();
    let mut i: usize = s.len();
    while i > 0
        invariant
            0 <= i <= s@.len(),
            r@ == escape_from(s@, i as int),
        decreases i,
    {
        i -= 1;
        let mut piece = esc_char_v(s[i]);
        append_vec(&mut piece, &r);
        r = piece;
    }
    r
}

/// The characters that the escaper eliminates: after escaping, none of
/// them occurs anywhere in the text.  (The ampersand is not among them:
/// it survives as the head of each entity.)
pub open spec fn eliminated(c: char) -> bool {
    c == '<' || c == '>' || c == '"' || c == '\'' || c == '`'
}

proof fn lemma_escape_from_eliminates(s: Seq<char>, i: int)
    ensures
        forall|k: int|
            0 <= k < escape_from(s, i).len() ==> !eliminated(#[trigger] escape_from(s, i)[k]),
    decreases s.len() - i,
{
    reveal_strlit("&lt;");
    reveal_strlit("&gt;");
    reveal_strlit("&amp;");
    reveal_strlit("&quot;");
    reveal_strlit("&#x27;");
    reveal_strlit("&#x60;");
    if i < 0 || i >= s.len() {
    } else {
        lemma_escape_from_eliminates(s, i + 1);
        assert forall|k: int|
            0 <= k < escape_from(s, i).len() implies !eliminated(
            #[trigger] escape_from(s, i)[k],
        ) by {
            let head = esc_char(s[i]);
            if k < head.len() {
                assert(escape_from(s, i)[k] == head[k]);
            } else {
                assert(escape_from(s, i)[k] == escape_from(s, i + 1)[k - head.len()]);
            }
        }
    }
}

/// Escaping is total: whatever the input, the escaped text is free of
/// `<`, `>`, `"`, `'` and backtick, so none of those characters of the
/// input can reach the structural passes unescaped.
pub proof fn lemma_escape_eliminates(s: Seq<char>)
    ensures
        forall|k: int|
            0 <= k < escape_text(s).len() ==> !eliminated(#[trigger] escape_text(s)[k]),
{
    lemma_escape_from_eliminates(s, 0);
}

} // verus!
