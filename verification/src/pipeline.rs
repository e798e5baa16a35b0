//! The whole markup-to-plaintext pipeline around the extraction engine: the
//! complexity guard that rejects pathological inputs before any parsing, the
//! sentinel messages the two safety nets substitute for output, the
//! paragraph split, and the column-name detection for batch schemas.

use vstd::prelude::*;
use crate::text::{
    count_occ, count_pat, str_chars, chars_to_string, trim, trim_chars, split_sep, split_pat,
    join_sep, join_strings, str_eq_str, contains_sub, contains_pat,
};
use crate::digits::dec_digits;
use crate::extract::{Node, ext_flat, extract_text_from_nodes};
use crate::templates::{expand_templates, expand_common_templates};
use crate::scrub::{scrub_media, remove_image_fragments};
use crate::sections::{prune_sections, remove_empty_sections};

verus! {

/// The pre-parse complexity check: many table rows combined with many
/// templates or many media embeds.
pub open spec fn too_complex(s: Seq<char>) -> bool {
    let rows = count_occ(s, "|-"@);
    let tpls = count_occ(s, "{{"@);
    let media = count_occ(s, "[[Файл:"@) + count_occ(s, "[[File:"@);
    rows > 50 && (tpls > 200 || media > 50)
}

/// Decides, by plain substring counting, whether a document is too complex
/// to hand to the parser.
pub fn is_too_complex(wikitext: &str) -> (r: bool)
    ensures
        r == too_complex(wikitext@),
{
    proof {
        reveal_strlit("|-");
        reveal_strlit("{{");
        reveal_strlit("[[Файл:");
        reveal_strlit("[[File:");
    }
    let v = str_chars(wikitext);
    let rows = count_pat(&v, "|-");
    let tpls = count_pat(&v, "{{");
    let media_ru = count_pat(&v, "[[Файл:");
    let media_en = count_pat(&v, "[[File:");
    rows > 50 && (tpls > 200 || (media_ru as u128 + media_en as u128) > 50)
}

/// The sentinel text substituted for a document the complexity guard
/// rejects.
pub fn complexity_skip_message() -> (r: String)
    ensures
        r@ == "[Article skipped: contains complex nested structures that cause parsing issues]"@,
{
    String::from_str("[Article skipped: contains complex nested structures that cause parsing issues]")
}

/// The sentinel text substituted when a parse exceeds its time budget.
pub open spec fn timeout_message(secs: nat) -> Seq<char> {
    "[Article skipped: parsing timeout after "@ + dec_digits(secs) + " seconds]"@
}

/// Builds the timeout sentinel for the given budget.
pub fn timeout_skip_message(timeout_secs: u64) -> (r: String)
    ensures
        r@ == timeout_message(timeout_secs as nat),
{
    let mut r = String::from_str("[Article skipped: parsing timeout after ");
    let ds = crate::digits::render_u64(timeout_secs);
    let dstr = chars_to_string(&ds);
    r.append(dstr.as_str());
    r.append(" seconds]");
    r
}

/// The non-empty trimmed paragraphs among the split pieces.
pub open spec fn paragraph_seq(pieces: Seq<Seq<char>>) -> Seq<Seq<char>>
    decreases pieces.len(),
{
    if pieces.len() == 0 {
        Seq::empty()
    } else {
        let rest = paragraph_seq(pieces.drop_first());
        if trim(pieces[0]).len() > 0 {
            seq![trim(pieces[0])] + rest
        } else {
            rest
        }
    }
}

/// Splits cleaned text on blank-line separators into trimmed, non-empty
/// paragraphs.
pub fn split_paragraphs(text: &str) -> (r: Vec<String>)
    ensures
        r.deep_view() == paragraph_seq(split_sep(text@, "\n\n"@)),
{
    proof {
        reveal_strlit("\n\n");
    }
    let v = str_chars(text);
    let pieces = split_pat(&v, "\n\n");
    let ghost dv = pieces.deep_view();
    let mut out: Vec<String> = Vec::new();
    let mut i: usize = 0;
    proof {
        assert(dv.skip(0) =~= dv);
        assert(paragraph_seq(dv) =~~= out.deep_view() + paragraph_seq(dv.skip(0)));
    }
    while i < pieces.len()
        invariant
            i <= pieces@.len(),
            dv == pieces.deep_view(),
            paragraph_seq(dv) =~= out.deep_view() + paragraph_seq(dv.skip(i as int)),
        decreases pieces@.len() - i,
    {
        proof {
            assert(dv.skip(i as int)[0] == dv[i as int]);
            assert(dv.skip(i as int).drop_first() =~= dv.skip(i as int + 1));
            assert(dv[i as int] =~= pieces@[i as int]@);
        }
        let t = trim_chars(&pieces[i]);
        if t.len() > 0 {
            let ghost outpre = out.deep_view();
            let p = chars_to_string(&t);
            out.push(p);
            proof {
                assert(out.deep_view() =~~= outpre.push(trim(dv[i as int])));
            }
        }
        i = i + 1;
    }
    proof {
        assert(paragraph_seq(dv.skip(i as int)).len() == 0);
        assert(out.deep_view() =~= paragraph_seq(dv));
    }
    out
}

/// Everything after the parse: extraction, template expansion, the residue
/// scrub, the paragraph split, section pruning, and the final join.
pub open spec fn plaintext_of(ns: Seq<Node>, skip_lists: bool) -> Seq<char> {
    let extracted = ext_flat(ns, skip_lists);
    let expanded = expand_templates(extracted);
    let cleaned = scrub_media(expanded);
    let paragraphs = paragraph_seq(split_sep(cleaned, "\n\n"@));
    join_sep(prune_sections(paragraphs), "\n\n"@)
}

/// Turns a parsed node tree into clean, paragraph-structured plain text.
pub fn extract_plaintext(nodes: &Vec<Node>, skip_lists: bool) -> (r: String)
    ensures
        r@ == plaintext_of(nodes@, skip_lists),
{
    let extracted = extract_text_from_nodes(nodes, skip_lists);
    let expanded = expand_common_templates(extracted.as_str());
    let cleaned = remove_image_fragments(expanded.as_str());
    let paragraphs = split_paragraphs(cleaned.as_str());
    let pslice = paragraphs.as_slice();
    let pruned = remove_empty_sections(pslice);
    proof {
        assert(pslice.deep_view() =~~= paragraphs.deep_view());
    }
    join_strings(&pruned, "\n\n")
}

/// What `str::to_lowercase` returns: a function of the characters alone.
pub uninterp spec fn lower_of(s: Seq<char>) -> Seq<char>;

/// Relies on `str::to_lowercase`: the result depends on the characters
/// alone.
#[verifier::external_body]
fn to_lower(s: &str) -> (r: String)
    ensures
        r@ == lower_of(s@),
{
    s.to_lowercase()
}

/// One of the names equals the candidate.
pub open spec fn contains_name(names: Seq<Seq<char>>, cand: Seq<char>) -> bool {
    exists|i: int| 0 <= i < names.len() && names[i] == cand
}

fn find_name(names: &Vec<String>, cand: &str) -> (r: bool)
    ensures
        r == contains_name(names.deep_view(), cand@),
{
    let ghost dv = names.deep_view();
    let mut i: usize = 0;
    while i < names.len()
        invariant
            i <= names@.len(),
            dv == names.deep_view(),
            forall|j: int| 0 <= j < i ==> dv[j] != cand@,
        decreases names@.len() - i,
    {
        proof {
            assert(dv[i as int] == names@[i as int]@);
        }
        if str_eq_str(names[i].as_str(), cand) {
            return true;
        }
        i = i + 1;
    }
    false
}

/// The first name whose lowercase form contains `text`, if any.
pub open spec fn first_textlike(names: Seq<Seq<char>>) -> Option<Seq<char>>
    decreases names.len(),
{
    if names.len() == 0 {
        None
    } else if contains_sub(lower_of(names[0]), "text"@) {
        Some(names[0])
    } else {
        first_textlike(names.drop_first())
    }
}

/// The text column of a batch schema: one of the known candidate names when
/// present, otherwise the first column whose lowercase name contains `text`.
pub open spec fn detect_text_column_spec(names: Seq<Seq<char>>) -> Option<Seq<char>> {
    if contains_name(names, "text"@) {
        Some("text"@)
    } else if contains_name(names, "content"@) {
        Some("content"@)
    } else if contains_name(names, "official_text"@) {
        Some("official_text"@)
    } else if contains_name(names, "clone_text"@) {
        Some("clone_text"@)
    } else {
        first_textlike(names)
    }
}

/// Detects the text column among the given column names.
pub fn detect_text_column(names: &Vec<String>) -> (r: Option<String>)
    ensures
        match r {
            Some(name) => detect_text_column_spec(names.deep_view()) == Some(name@),
            None => detect_text_column_spec(names.deep_view()) is None,
        },
{
    let ghost dv = names.deep_view();
    if find_name(names, "text") {
        return Some(String::from_str("text"));
    }
    if find_name(names, "content") {
        return Some(String::from_str("content"));
    }
    if find_name(names, "official_text") {
        return Some(String::from_str("official_text"));
    }
    if find_name(names, "clone_text") {
        return Some(String::from_str("clone_text"));
    }
    let mut i: usize = 0;
    proof {
        assert(dv.skip(0) =~= dv);
    }
    while i < names.len()
        invariant
            i <= names@.len(),
            dv == names.deep_view(),
            detect_text_column_spec(dv) == first_textlike(dv),
            first_textlike(dv) == first_textlike(dv.skip(i as int)),
        decreases names@.len() - i,
    {
        proof {
            assert(dv.skip(i as int)[0] == dv[i as int]);
            assert(dv.skip(i as int).drop_first() =~= dv.skip(i as int + 1));
            assert(dv[i as int] == names@[i as int]@);
        }
        let lowered = to_lower(names[i].as_str());
        let lv = str_chars(lowered.as_str());
        proof {
            reveal_strlit("text");
        }
        if contains_pat(&lv, "text") {
            return Some(names[i].clone());
        }
        i = i + 1;
    }
    proof {
        assert(first_textlike(dv.skip(i as int)) is None);
    }
    None
}

/// The page-id column of a batch schema.
pub open spec fn detect_pageid_column_spec(names: Seq<Seq<char>>) -> Option<Seq<char>> {
    if contains_name(names, "page_id"@) {
        Some("page_id"@)
    } else if contains_name(names, "pageid"@) {
        Some("pageid"@)
    } else {
        None
    }
}

/// Detects the page-id column among the given column names.
pub fn detect_pageid_column(names: &Vec<String>) -> (r: Option<String>)
    ensures
        match r {
            Some(name) => detect_pageid_column_spec(names.deep_view()) == Some(name@),
            None => detect_pageid_column_spec(names.deep_view()) is None,
        },
{
    if find_name(names, "page_id") {
        return Some(String::from_str("page_id"));
    }
    if find_name(names, "pageid") {
        return Some(String::from_str("pageid"));
    }
    None
}

/// The title column of a batch schema.
pub open spec fn detect_title_column_spec(names: Seq<Seq<char>>) -> Option<Seq<char>> {
    if contains_name(names, "page_title"@) {
        Some("page_title"@)
    } else if contains_name(names, "title"@) {
        Some("title"@)
    } else {
        None
    }
}

/// Detects the title column among the given column names.
pub fn detect_title_column(names: &Vec<String>) -> (r: Option<String>)
    ensures
        match r {
            Some(name) => detect_title_column_spec(names.deep_view()) == Some(name@),
            None => detect_title_column_spec(names.deep_view()) is None,
        },
{
    if find_name(names, "page_title") {
        return Some(String::from_str("page_title"));
    }
    if find_name(names, "title") {
        return Some(String::from_str("title"));
    }
    None
}

} // verus!
