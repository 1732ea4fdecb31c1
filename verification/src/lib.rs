//! Converter from a wiki-style lightweight markup to an HTML fragment.
//!
//! The pipeline runs in five stages over the whole text: a global HTML
//! escape, extraction of fenced code blocks into a stash, a line-oriented
//! block-level state machine, a fixed sequence of whole-text inline
//! substitutions, and finally re-insertion of the stashed code.  The
//! conversion is total: no input fails, and malformed markup degrades
//! into plain (escaped) text rather than aborting.
use vstd::prelude::*;

pub mod blocks;
pub mod escape;
pub mod inline;
pub mod stash;
pub mod text;

use crate::blocks::blocks_html;
use crate::blocks::blocks_v;
use crate::blocks::lines_of;
use crate::blocks::split_lines_v;
use crate::escape::escape_text;
use crate::escape::escape_vec;
use crate::inline::color_pass;
use crate::inline::color_pass_v;
use crate::inline::quote_fold;
use crate::inline::quote_fold_v;
use crate::inline::url_pass;
use crate::inline::url_pass_v;
use crate::stash::restore_from;
use crate::stash::restore_v;
use crate::stash::stash_text;
use crate::stash::stash_v;
use crate::text::chars_to_string;
use crate::text::pair_replace;
use crate::text::pair_replace_v;
use crate::text::replace_lit;
use crate::text::replace_lit_v;
use crate::text::str_to_chars;
use crate::text::views_of;

verus! {

/// Three escaped apostrophes: the italic delimiter.  The inline passes
/// run on escaped text, so emphasis is keyed off the apostrophe entity,
/// never a raw quote character.
pub open spec fn apos3() -> Seq<char> {
    "&#x27;&#x27;&#x27;"@
}

/// Two escaped apostrophes: the bold delimiter.  Italics are folded
/// first, so a triple delimiter is never consumed as two bold markers.
pub open spec fn apos2() -> Seq<char> {
    "&#x27;&#x27;"@
}

/// The whole conversion: escape, stash fenced code, parse blocks line by
/// line, apply the inline substitutions in their fixed order, and put
/// the stashed code back in place of the placeholder tokens.
pub open spec fn render(s: Seq<char>) -> Seq<char> {
    let stashed = stash_text(escape_text(s));
    let body = blocks_html(lines_of(stashed.0));
    let folded = quote_fold(body, true);
    let italic = pair_replace(folded, apos3(), apos3(), "<i>"@, "</i>"@);
    let bold = pair_replace(italic, apos2(), apos2(), "<b>"@, "</b>"@);
    let struck = pair_replace(bold, "%%"@, "%%"@, "<strike>"@, "</strike>"@);
    let linked = url_pass(color_pass(struck));
    let broken = replace_lit(linked, "&amp;br;"@, "<br>"@);
    restore_from(broken, stashed.1)
}

/// Converts one markup document to an HTML fragment.
pub fn parse(text: &str) -> (res: String)
    ensures
        res@ == render(text@),
{
    let chars = str_to_chars(text);
    let escaped = escape_vec(&chars);
    let (stashed_text, stash_q) = stash_v(&escaped, true);
    let line_vec = split_lines_v(&stashed_text);
    let body = blocks_v(&line_vec);
    let folded = quote_fold_v(&body, true);
    let a3 = str_to_chars("&#x27;&#x27;&#x27;");
    let i_pre = str_to_chars("<i>");
    let i_post = str_to_chars("</i>");
    let italic = pair_replace_v(&folded, &a3, &a3, &i_pre, &i_post);
    let a2 = str_to_chars("&#x27;&#x27;");
    let b_pre = str_to_chars("<b>");
    let b_post = str_to_chars("</b>");
    let bold = pair_replace_v(&italic, &a2, &a2, &b_pre, &b_post);
    let pct = str_to_chars("%%");
    let s_pre = str_to_chars("<strike>");
    let s_post = str_to_chars("</strike>");
    let struck = pair_replace_v(&bold, &pct, &pct, &s_pre, &s_post);
    let colored = color_pass_v(&struck);
    let linked = url_pass_v(&colored);
    let br_pat = str_to_chars("&amp;br;");
    let br_rep = str_to_chars("<br>");
    let broken = replace_lit_v(&linked, &br_pat, &br_rep);
    proof {
        assert(views_of(stash_q@).skip(0) =~= views_of(stash_q@));
    }
    let restored = restore_v(&broken, &stash_q, 0);
    chars_to_string(&restored)
}

} // verus!
