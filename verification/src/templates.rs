//! Expansion of the known date and numeral microformat templates: four fixed
//! substitution passes, each applied once, left to right.

use vstd::prelude::*;
use crate::rewrite::{Rule, rewrite, rewrite_chars};
use crate::text::{str_chars, chars_to_string};

verus! {

/// The four template passes in their fixed order: dates, bare years, bare
/// numbers, then the one-pipe catch-all.
pub open spec fn expand_templates(s: Seq<char>) -> Seq<char> {
    rewrite(
        Rule::SimpleTpl,
        rewrite(Rule::NumTpl, rewrite(Rule::YearTpl, rewrite(Rule::DateTpl, s))),
    )
}

/// Expands the known date and numeral templates in the extracted text.
pub fn expand_common_templates(text: &str) -> (r: String)
    ensures
        r@ == expand_templates(text@),
{
    let v = str_chars(text);
    let v = rewrite_chars(Rule::DateTpl, &v);
    let v = rewrite_chars(Rule::YearTpl, &v);
    let v = rewrite_chars(Rule::NumTpl, &v);
    let v = rewrite_chars(Rule::SimpleTpl, &v);
    chars_to_string(&v)
}

} // verus!
