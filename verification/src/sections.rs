//! The section pruner: a structural heading whose section never got any
//! content is dropped from the paragraph sequence.

use vstd::prelude::*;
use crate::text::{has_prefix, str_eq_str, str_starts_with};

verus! {

/// A paragraph that is a bare structural section name, or a category marker.
pub open spec fn is_structural_heading(p: Seq<char>) -> bool {
    ||| p == "Население"@
    ||| p == "Примечания"@
    ||| p == "Литература"@
    ||| p == "Ссылки"@
    ||| p == "Категория"@
    ||| p == "См. также"@
    ||| p == "Источники"@
    ||| has_prefix(p, "Категория:"@)
}

/// Executable test for a structural heading paragraph.
pub fn structural_heading(p: &str) -> (r: bool)
    ensures
        r == is_structural_heading(p@),
{
    str_eq_str(p, "Население") || str_eq_str(p, "Примечания") || str_eq_str(p, "Литература")
        || str_eq_str(p, "Ссылки") || str_eq_str(p, "Категория") || str_eq_str(p, "См. также")
        || str_eq_str(p, "Источники") || str_starts_with(p, "Категория:")
}

/// The paragraphs that survive pruning: a structural heading is kept only
/// when a following paragraph exists and is not itself a structural heading;
/// every other paragraph passes through.
pub open spec fn prune_sections(ps: Seq<Seq<char>>) -> Seq<Seq<char>>
    decreases ps.len(),
{
    if ps.len() == 0 {
        Seq::empty()
    } else {
        let rest = prune_sections(ps.drop_first());
        let keep = !is_structural_heading(ps[0]) || (ps.len() >= 2 && !is_structural_heading(
            ps[1],
        ));
        if keep {
            seq![ps[0]] + rest
        } else {
            rest
        }
    }
}

/// Removes structural headings whose section never got any content.
pub fn remove_empty_sections(paragraphs: &[String]) -> (r: Vec<String>)
    ensures
        r.deep_view() == prune_sections(paragraphs.deep_view()),
{
    let ghost dv = paragraphs.deep_view();
    let mut out: Vec<String> = Vec::new();
    let mut i: usize = 0;
    proof {
        assert(dv.skip(0) =~= dv);
        assert(prune_sections(dv) =~~= out.deep_view() + prune_sections(dv.skip(0)));
    }
    while i < paragraphs.len()
        invariant
            i <= paragraphs@.len(),
            dv == paragraphs.deep_view(),
            prune_sections(dv) =~= out.deep_view() + prune_sections(dv.skip(i as int)),
        decreases paragraphs@.len() - i,
    {
        proof {
            assert(dv.skip(i as int)[0] == dv[i as int]);
            assert(dv.skip(i as int).drop_first() =~= dv.skip(i as int + 1));
            assert(dv[i as int] == paragraphs@[i as int]@);
            if i + 1 < paragraphs@.len() {
                assert(dv.skip(i as int)[1] == dv[i as int + 1]);
                assert(dv[i as int + 1] == paragraphs@[i as int + 1]@);
            }
        }
        let heading = structural_heading(paragraphs[i].as_str());
        let keep = if !heading {
            true
        } else if i + 1 < paragraphs.len() {
            !structural_heading(paragraphs[i + 1].as_str())
        } else {
            false
        };
        if keep {
            let ghost outpre = out.deep_view();
            out.push(paragraphs[i].clone());
            proof {
                assert(out.deep_view() =~~= outpre.push(dv[i as int]));
            }
        }
        i = i + 1;
    }
    proof {
        assert(prune_sections(dv.skip(i as int)).len() == 0);
        assert(out.deep_view() =~= prune_sections(dv));
    }
    out
}

} // verus!
