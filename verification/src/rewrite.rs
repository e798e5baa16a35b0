//! A single left-to-right rewriting pass over a character sequence: at each
//! position the active rule either matches a span and substitutes its
//! replacement, or the character is copied unchanged.  All the brace, template
//! and media-link patterns of the pipeline are rules of this shape, each with
//! an explicitly bounded repetition, so no pass can backtrack or blow up on
//! adversarial input.

use vstd::prelude::*;
use crate::text::{has_prefix, prefix_at, copy_range};
use crate::digits::{is_digit, digits_val, dec_digits, digits_value, render_u64};

verus! {

/// The character classes that bounded repetitions range over.
#[derive(Clone, Copy)]
pub enum CharClass {
    /// ASCII decimal digit.
    Digit,
    /// Any character but `{` and `}`.
    NotBrace,
    /// Any character but `}`.
    NotRBrace,
    /// Any character but `]`.
    NotRBracket,
    /// Any character but `|`, `{` and `}`.
    NotPipeBrace,
    /// A newline.
    Newline,
    /// A whitespace character.
    Space,
}

/// Membership in a character class.
pub open spec fn in_class(cl: CharClass, c: char) -> bool {
    match cl {
        CharClass::Digit => is_digit(c),
        CharClass::NotBrace => c != '{' && c != '}',
        CharClass::NotRBrace => c != '}',
        CharClass::NotRBracket => c != ']',
        CharClass::NotPipeBrace => c != '|' && c != '{' && c != '}',
        CharClass::Newline => c == '\n',
        CharClass::Space => crate::text::is_ws(c),
    }
}

/// Executable membership test.
pub fn class_char(cl: CharClass, c: char) -> (r: bool)
    ensures
        r == in_class(cl, c),
{
    match cl {
        CharClass::Digit => crate::digits::digit_char(c),
        CharClass::NotBrace => c != '{' && c != '}',
        CharClass::NotRBrace => c != '}',
        CharClass::NotRBracket => c != ']',
        CharClass::NotPipeBrace => c != '|' && c != '{' && c != '}',
        CharClass::Newline => c == '\n',
        CharClass::Space => crate::text::ws_char(c),
    }
}

/// The length of the longest prefix of `s` inside the class.
pub open spec fn run_len(cl: CharClass, s: Seq<char>) -> nat
    decreases s.len(),
{
    if s.len() > 0 && in_class(cl, s[0]) {
        1 + run_len(cl, s.drop_first())
    } else {
        0
    }
}

/// What the run length means position by position.
pub proof fn lemma_run_props(cl: CharClass, s: Seq<char>)
    ensures
        run_len(cl, s) <= s.len(),
        forall|j: int| 0 <= j < run_len(cl, s) ==> in_class(cl, s[j]),
        run_len(cl, s) < s.len() ==> !in_class(cl, s[run_len(cl, s) as int]),
    decreases s.len(),
{
    if s.len() > 0 && in_class(cl, s[0]) {
        lemma_run_props(cl, s.drop_first());
        let t = s.drop_first();
        assert forall|j: int| 0 <= j < run_len(cl, s) implies in_class(cl, s[j]) by {
            if j > 0 {
                assert(t[j - 1] == s[j]);
            }
        }
        if run_len(cl, s) < s.len() {
            assert(t[run_len(cl, s) - 1] == s[run_len(cl, s) as int]);
        }
    }
}

/// Counts the class run starting at position `i`.
pub fn run_at(v: &Vec<char>, i: usize, cl: CharClass) -> (r: usize)
    requires
        i <= v@.len(),
    ensures
        r == run_len(cl, v@.skip(i as int)),
        i + r <= v@.len(),
{
    let mut j: usize = i;
    proof {
        assert(v@.skip(i as int).skip(0) =~= v@.skip(i as int));
    }
    while j < v.len() && class_char(cl, v[j])
        invariant
            i <= j <= v@.len(),
            run_len(cl, v@.skip(i as int)) == (j - i) + run_len(cl, v@.skip(j as int)),
        decreases v@.len() - j,
    {
        proof {
            assert(v@.skip(j as int)[0] == v@[j as int]);
            assert(v@.skip(j as int).drop_first() =~= v@.skip(j as int + 1));
        }
        j = j + 1;
    }
    proof {
        if j < v@.len() {
            assert(v@.skip(j as int)[0] == v@[j as int]);
        }
        assert(run_len(cl, v@.skip(j as int)) == 0);
    }
    j - i
}

/// The rewriting rules of the pipeline.
#[derive(Clone, Copy)]
pub enum Rule {
    /// `{{СС3|d.m.y}}` becomes the spelled-out date.
    DateTpl,
    /// `{{год|YYY(Y)}}` becomes the year digits.
    YearTpl,
    /// `{{num|N}}` becomes the digits.
    NumTpl,
    /// `{{Name|Value}}` with plain name and value becomes the value.
    SimpleTpl,
    /// A non-nested `{{...}}` span is removed.
    InnerTpl,
    /// A `{{...}}` span with at most 500 non-`}` content characters is removed.
    ComplexTpl,
    /// A lone `{` or `}` is removed.
    OrphanBrace,
    /// A complete `[[Файл:...]]` or `[[File:...]]` embed is removed.
    MediaLink,
    /// A run of three or more newlines collapses to exactly two.
    NewlineRun,
}

/// The month names the date template spells, in genitive form.
pub open spec fn month_name(m: nat) -> Seq<char> {
    if m == 1 {
        "января"@
    } else if m == 2 {
        "февраля"@
    } else if m == 3 {
        "марта"@
    } else if m == 4 {
        "апреля"@
    } else if m == 5 {
        "мая"@
    } else if m == 6 {
        "июня"@
    } else if m == 7 {
        "июля"@
    } else if m == 8 {
        "августа"@
    } else if m == 9 {
        "сентября"@
    } else if m == 10 {
        "октября"@
    } else if m == 11 {
        "ноября"@
    } else if m == 12 {
        "декабря"@
    } else {
        Seq::empty()
    }
}

/// The month number a `u32` parse of the digits yields: saturation or any
/// other failure degrades to zero.
pub open spec fn month_num(mon: Seq<char>) -> nat {
    if digits_val(mon) > u32::MAX {
        0
    } else {
        digits_val(mon)
    }
}

/// What the date template rewrites to: a spelled-out month when the number is
/// in range, otherwise the numeric value is reproduced between the dots.
pub open spec fn date_replacement(day: Seq<char>, mon: Seq<char>, year: Seq<char>) -> Seq<char> {
    let mv = month_num(mon);
    if 1 <= mv <= 12 {
        day + seq![' '] + month_name(mv) + seq![' '] + year
    } else {
        day + seq!['.'] + dec_digits(mv) + seq!['.'] + year
    }
}

/// Matches `{{СС3|day.month.year}}` at the head of `s`.
pub open spec fn date_match(s: Seq<char>) -> Option<(nat, Seq<char>)> {
    let p = "{{СС3|"@;
    if has_prefix(s, p) {
        let a = p.len() as int;
        let d1 = run_len(CharClass::Digit, s.skip(a)) as int;
        if d1 >= 1 && a + d1 < s.len() && s[a + d1] == '.' {
            let b = a + d1 + 1;
            let d2 = run_len(CharClass::Digit, s.skip(b)) as int;
            if d2 >= 1 && b + d2 < s.len() && s[b + d2] == '.' {
                let c = b + d2 + 1;
                let d3 = run_len(CharClass::Digit, s.skip(c)) as int;
                let e = c + d3;
                if d3 >= 1 && e + 2 <= s.len() && s[e] == '}' && s[e + 1] == '}' {
                    Some(
                        (
                            (e + 2) as nat,
                            date_replacement(
                                s.subrange(a, a + d1),
                                s.subrange(b, b + d2),
                                s.subrange(c, c + d3),
                            ),
                        ),
                    )
                } else {
                    None
                }
            } else {
                None
            }
        } else {
            None
        }
    } else {
        None
    }
}

/// Matches `{{год|YYY(Y)}}` at the head of `s`: exactly three or four digits.
pub open spec fn year_match(s: Seq<char>) -> Option<(nat, Seq<char>)> {
    let p = "{{год|"@;
    if has_prefix(s, p) {
        let a = p.len() as int;
        let d = run_len(CharClass::Digit, s.skip(a)) as int;
        if (d == 3 || d == 4) && a + d + 2 <= s.len() && s[a + d] == '}' && s[a + d + 1] == '}' {
            Some(((a + d + 2) as nat, s.subrange(a, a + d)))
        } else {
            None
        }
    } else {
        None
    }
}

/// Matches `{{num|N}}` at the head of `s`.
pub open spec fn num_match(s: Seq<char>) -> Option<(nat, Seq<char>)> {
    let p = "{{num|"@;
    if has_prefix(s, p) {
        let a = p.len() as int;
        let d = run_len(CharClass::Digit, s.skip(a)) as int;
        if d >= 1 && a + d + 2 <= s.len() && s[a + d] == '}' && s[a + d + 1] == '}' {
            Some(((a + d + 2) as nat, s.subrange(a, a + d)))
        } else {
            None
        }
    } else {
        None
    }
}

/// Matches `{{Name|Value}}` at the head of `s`, where neither part holds a
/// pipe or a brace; the value is kept.
pub open spec fn simple_match(s: Seq<char>) -> Option<(nat, Seq<char>)> {
    if s.len() >= 2 && s[0] == '{' && s[1] == '{' {
        let n1 = run_len(CharClass::NotPipeBrace, s.skip(2)) as int;
        if n1 >= 1 && 2 + n1 < s.len() && s[2 + n1] == '|' {
            let b = 3 + n1;
            let n2 = run_len(CharClass::NotPipeBrace, s.skip(b)) as int;
            if n2 >= 1 && b + n2 + 2 <= s.len() && s[b + n2] == '}' && s[b + n2 + 1] == '}' {
                Some(((b + n2 + 2) as nat, s.subrange(b, b + n2)))
            } else {
                None
            }
        } else {
            None
        }
    } else {
        None
    }
}

/// Matches an innermost `{{...}}` span: no brace in the content.
pub open spec fn inner_match(s: Seq<char>) -> Option<(nat, Seq<char>)> {
    if s.len() >= 2 && s[0] == '{' && s[1] == '{' {
        let n = run_len(CharClass::NotBrace, s.skip(2)) as int;
        if 2 + n + 2 <= s.len() && s[2 + n] == '}' && s[2 + n + 1] == '}' {
            Some(((n + 4) as nat, Seq::empty()))
        } else {
            None
        }
    } else {
        None
    }
}

/// Matches a remaining `{{...}}` span whose content, free of `}`, is capped at
/// 500 characters.
pub open spec fn complex_match(s: Seq<char>) -> Option<(nat, Seq<char>)> {
    if s.len() >= 2 && s[0] == '{' && s[1] == '{' {
        let n = run_len(CharClass::NotRBrace, s.skip(2)) as int;
        if n <= 500 && 2 + n + 2 <= s.len() && s[2 + n] == '}' && s[2 + n + 1] == '}' {
            Some(((n + 4) as nat, Seq::empty()))
        } else {
            None
        }
    } else {
        None
    }
}

/// Matches a lone brace.
pub open spec fn orphan_match(s: Seq<char>) -> Option<(nat, Seq<char>)> {
    if s.len() >= 1 && (s[0] == '{' || s[0] == '}') {
        Some((1nat, Seq::empty()))
    } else {
        None
    }
}

/// Matches a complete media embed after its marker, content capped at 500
/// non-`]` characters.
pub open spec fn media_tail(s: Seq<char>, a: int) -> Option<(nat, Seq<char>)> {
    let n = run_len(CharClass::NotRBracket, s.skip(a)) as int;
    if n <= 500 && a + n + 2 <= s.len() && s[a + n] == ']' && s[a + n + 1] == ']' {
        Some(((a + n + 2) as nat, Seq::empty()))
    } else {
        None
    }
}

/// Matches `[[Файл:...]]` or `[[File:...]]` at the head of `s`.
pub open spec fn media_match(s: Seq<char>) -> Option<(nat, Seq<char>)> {
    let p1 = "[[Файл:"@;
    let p2 = "[[File:"@;
    if has_prefix(s, p1) {
        media_tail(s, p1.len() as int)
    } else if has_prefix(s, p2) {
        media_tail(s, p2.len() as int)
    } else {
        None
    }
}

/// Matches a run of three or more newlines, which collapses to exactly two.
pub open spec fn newline_match(s: Seq<char>) -> Option<(nat, Seq<char>)> {
    let n = run_len(CharClass::Newline, s);
    if n >= 3 {
        Some((n, "\n\n"@))
    } else {
        None
    }
}

/// What the given rule matches at the head of `s`.
pub open spec fn rule_match(r: Rule, s: Seq<char>) -> Option<(nat, Seq<char>)> {
    match r {
        Rule::DateTpl => date_match(s),
        Rule::YearTpl => year_match(s),
        Rule::NumTpl => num_match(s),
        Rule::SimpleTpl => simple_match(s),
        Rule::InnerTpl => inner_match(s),
        Rule::ComplexTpl => complex_match(s),
        Rule::OrphanBrace => orphan_match(s),
        Rule::MediaLink => media_match(s),
        Rule::NewlineRun => newline_match(s),
    }
}

/// Appends all characters of `src` to `dst`.
pub fn push_all(dst: &mut Vec<char>, src: &Vec<char>)
    ensures
        final(dst)@ == old(dst)@ + src@,
{
    let mut i: usize = 0;
    proof {
        assert(dst@ =~= old(dst)@ + src@.subrange(0, 0));
    }
    while i < src.len()
        invariant
            i <= src@.len(),
            dst@ == old(dst)@ + src@.subrange(0, i as int),
        decreases src@.len() - i,
    {
        dst.push(src[i]);
        proof {
            assert(dst@ =~= old(dst)@ + src@.subrange(0, i as int + 1));
        }
        i = i + 1;
    }
    proof {
        assert(src@.subrange(0, src@.len() as int) =~= src@);
    }
}

/// The month name for a number between one and twelve.
fn month_str(m: u64) -> (r: &'static str)
    requires
        1 <= m <= 12,
    ensures
        r@ == month_name(m as nat),
{
    if m == 1 {
        "января"
    } else if m == 2 {
        "февраля"
    } else if m == 3 {
        "марта"
    } else if m == 4 {
        "апреля"
    } else if m == 5 {
        "мая"
    } else if m == 6 {
        "июня"
    } else if m == 7 {
        "июля"
    } else if m == 8 {
        "августа"
    } else if m == 9 {
        "сентября"
    } else if m == 10 {
        "октября"
    } else if m == 11 {
        "ноября"
    } else {
        "декабря"
    }
}

/// Matches the date template at position `i`.
#[verifier::rlimit(50)]
fn date_at(v: &Vec<char>, i: usize) -> (m: Option<(usize, Vec<char>)>)
    requires
        i <= v@.len(),
    ensures
        match m {
            Some(p) => date_match(v@.skip(i as int)) == Some((p.0 as nat, p.1@)) && 1 <= p.0 && i
                + p.0 <= v@.len(),
            None => date_match(v@.skip(i as int)) is None,
        },
{
    let n = v.len();
    let ghost s = v@.skip(i as int);
    let pat = "{{СС3|";
    if !prefix_at(v, i, pat) {
        return None;
    }
    let plen = pat.unicode_len();
    let a = i + plen;
    proof {
        assert(v@.skip(a as int) =~= s.skip(plen as int));
    }
    let d1 = run_at(v, a, CharClass::Digit);
    proof {
        if a + d1 < v@.len() {
            assert(s[(plen + d1) as int] == v@[(a + d1) as int]);
        }
    }
    if !(d1 >= 1 && a + d1 < n && v[a + d1] == '.') {
        return None;
    }
    let b = a + d1 + 1;
    proof {
        assert(v@.skip(b as int) =~= s.skip((plen + d1 + 1) as int));
    }
    let d2 = run_at(v, b, CharClass::Digit);
    proof {
        if b + d2 < v@.len() {
            assert(s[(plen + d1 + 1 + d2) as int] == v@[(b + d2) as int]);
        }
    }
    if !(d2 >= 1 && b + d2 < n && v[b + d2] == '.') {
        return None;
    }
    let c = b + d2 + 1;
    proof {
        assert(v@.skip(c as int) =~= s.skip((plen + d1 + d2 + 2) as int));
    }
    let d3 = run_at(v, c, CharClass::Digit);
    let e = c + d3;
    proof {
        if e < v@.len() {
            assert(s[(plen + d1 + d2 + d3 + 2) as int] == v@[e as int]);
        }
        if e + 1 < v@.len() {
            assert(s[(plen + d1 + d2 + d3 + 3) as int] == v@[(e + 1) as int]);
        }
    }
    if !(d3 >= 1 && n - e >= 2 && v[e] == '}' && v[e + 1] == '}') {
        return None;
    }
    proof {
        lemma_run_props(CharClass::Digit, v@.skip(b as int));
        assert forall|j: int| b <= j < b + d2 implies is_digit(v@[j]) by {
            assert(v@.skip(b as int)[j - b] == v@[j]);
        }
    }
    let (mval, over) = digits_value(v, b, b + d2);
    let day = copy_range(v, a, a + d1);
    let year = copy_range(v, c, c + d3);
    let ghost mon = v@.subrange(b as int, (b + d2) as int);
    let ghost dayg = v@.subrange(a as int, (a + d1) as int);
    let ghost yearg = v@.subrange(c as int, (c + d3) as int);
    let mut rep: Vec<char> = Vec::new();
    if !over && 1 <= mval && mval <= 12 {
        push_all(&mut rep, &day);
        rep.push(' ');
        let msc = crate::text::str_chars(month_str(mval));
        push_all(&mut rep, &msc);
        rep.push(' ');
        push_all(&mut rep, &year);
        proof {
            assert(month_num(mon) == mval);
            assert(rep@ =~= date_replacement(dayg, mon, yearg));
        }
    } else {
        let mv: u64 = if over {
            0
        } else {
            mval
        };
        push_all(&mut rep, &day);
        rep.push('.');
        let dsc = render_u64(mv);
        push_all(&mut rep, &dsc);
        rep.push('.');
        push_all(&mut rep, &year);
        proof {
            assert(month_num(mon) == mv);
            assert(rep@ =~= date_replacement(dayg, mon, yearg));
        }
    }
    proof {
        assert(dayg =~= s.subrange(plen as int, (plen + d1) as int));
        assert(mon =~= s.subrange((plen + d1 + 1) as int, (plen + d1 + 1 + d2) as int));
        assert(yearg =~= s.subrange((plen + d1 + d2 + 2) as int, (plen + d1 + d2 + d3 + 2) as int));
    }
    Some((plen + d1 + d2 + d3 + 4, rep))
}

/// Matches the year or the number template at position `i`; the two differ
/// only in their marker and the digit counts they accept.
fn digits_tpl_at(v: &Vec<char>, i: usize, year_rule: bool) -> (m: Option<(usize, Vec<char>)>)
    requires
        i <= v@.len(),
    ensures
        match m {
            Some(p) => (if year_rule {
                year_match(v@.skip(i as int))
            } else {
                num_match(v@.skip(i as int))
            }) == Some((p.0 as nat, p.1@)) && 1 <= p.0 && i + p.0 <= v@.len(),
            None => (if year_rule {
                year_match(v@.skip(i as int))
            } else {
                num_match(v@.skip(i as int))
            }) is None,
        },
{
    let n = v.len();
    let ghost s = v@.skip(i as int);
    let pat = if year_rule {
        "{{год|"
    } else {
        "{{num|"
    };
    if !prefix_at(v, i, pat) {
        return None;
    }
    let plen = pat.unicode_len();
    let a = i + plen;
    proof {
        assert(v@.skip(a as int) =~= s.skip(plen as int));
    }
    let d = run_at(v, a, CharClass::Digit);
    let e = a + d;
    proof {
        if e < v@.len() {
            assert(s[(plen + d) as int] == v@[e as int]);
        }
        if e + 1 < v@.len() {
            assert(s[(plen + d + 1) as int] == v@[(e + 1) as int]);
        }
    }
    let count_ok = if year_rule {
        d == 3 || d == 4
    } else {
        d >= 1
    };
    if count_ok && n - e >= 2 && v[e] == '}' && v[e + 1] == '}' {
        let rep = copy_range(v, a, e);
        proof {
            assert(rep@ =~= s.subrange(plen as int, (plen + d) as int));
        }
        Some((plen + d + 2, rep))
    } else {
        None
    }
}

/// Matches the plain one-pipe template at position `i`.
fn simple_at(v: &Vec<char>, i: usize) -> (m: Option<(usize, Vec<char>)>)
    requires
        i <= v@.len(),
    ensures
        match m {
            Some(p) => simple_match(v@.skip(i as int)) == Some((p.0 as nat, p.1@)) && 1 <= p.0 && i
                + p.0 <= v@.len(),
            None => simple_match(v@.skip(i as int)) is None,
        },
{
    let n = v.len();
    let ghost s = v@.skip(i as int);
    proof {
        if i < v@.len() {
            assert(s[0] == v@[i as int]);
        }
        if i + 1 < v@.len() {
            assert(s[1] == v@[(i + 1) as int]);
        }
    }
    if !(n - i >= 2 && v[i] == '{' && v[i + 1] == '{') {
        return None;
    }
    let a = i + 2;
    proof {
        assert(v@.skip(a as int) =~= s.skip(2));
    }
    let n1 = run_at(v, a, CharClass::NotPipeBrace);
    proof {
        if a + n1 < v@.len() {
            assert(s[(2 + n1) as int] == v@[(a + n1) as int]);
        }
    }
    if !(n1 >= 1 && a + n1 < n && v[a + n1] == '|') {
        return None;
    }
    let b = a + n1 + 1;
    proof {
        assert(v@.skip(b as int) =~= s.skip((3 + n1) as int));
    }
    let n2 = run_at(v, b, CharClass::NotPipeBrace);
    let e = b + n2;
    proof {
        if e < v@.len() {
            assert(s[(3 + n1 + n2) as int] == v@[e as int]);
        }
        if e + 1 < v@.len() {
            assert(s[(3 + n1 + n2 + 1) as int] == v@[(e + 1) as int]);
        }
    }
    if n2 >= 1 && n - e >= 2 && v[e] == '}' && v[e + 1] == '}' {
        let rep = copy_range(v, b, e);
        proof {
            assert(rep@ =~= s.subrange((3 + n1) as int, (3 + n1 + n2) as int));
        }
        Some((n1 + n2 + 5, rep))
    } else {
        None
    }
}

/// Matches a brace span at position `i`: the innermost form when `inner` is
/// set, otherwise the capped catch-all form.
fn braces_at(v: &Vec<char>, i: usize, inner: bool) -> (m: Option<(usize, Vec<char>)>)
    requires
        i <= v@.len(),
    ensures
        match m {
            Some(p) => (if inner {
                inner_match(v@.skip(i as int))
            } else {
                complex_match(v@.skip(i as int))
            }) == Some((p.0 as nat, p.1@)) && 1 <= p.0 && i + p.0 <= v@.len(),
            None => (if inner {
                inner_match(v@.skip(i as int))
            } else {
                complex_match(v@.skip(i as int))
            }) is None,
        },
{
    let n = v.len();
    let ghost s = v@.skip(i as int);
    proof {
        if i < v@.len() {
            assert(s[0] == v@[i as int]);
        }
        if i + 1 < v@.len() {
            assert(s[1] == v@[(i + 1) as int]);
        }
    }
    if !(n - i >= 2 && v[i] == '{' && v[i + 1] == '{') {
        return None;
    }
    let a = i + 2;
    proof {
        assert(v@.skip(a as int) =~= s.skip(2));
    }
    let cl = if inner {
        CharClass::NotBrace
    } else {
        CharClass::NotRBrace
    };
    let run = run_at(v, a, cl);
    let e = a + run;
    proof {
        if e < v@.len() {
            assert(s[(2 + run) as int] == v@[e as int]);
        }
        if e + 1 < v@.len() {
            assert(s[(2 + run + 1) as int] == v@[(e + 1) as int]);
        }
    }
    let cap_ok = if inner {
        true
    } else {
        run <= 500
    };
    if cap_ok && n - e >= 2 && v[e] == '}' && v[e + 1] == '}' {
        Some((run + 4, Vec::new()))
    } else {
        None
    }
}

/// Matches a lone brace at position `i`.
fn orphan_at(v: &Vec<char>, i: usize) -> (m: Option<(usize, Vec<char>)>)
    requires
        i < v@.len(),
    ensures
        match m {
            Some(p) => orphan_match(v@.skip(i as int)) == Some((p.0 as nat, p.1@)) && 1 <= p.0 && i
                + p.0 <= v@.len(),
            None => orphan_match(v@.skip(i as int)) is None,
        },
{
    let ghost s = v@.skip(i as int);
    proof {
        assert(s[0] == v@[i as int]);
    }
    if v[i] == '{' || v[i] == '}' {
        Some((1, Vec::new()))
    } else {
        None
    }
}

/// Matches the closing of a media embed whose marker ends at `a`.
fn media_close(v: &Vec<char>, i: usize, a: usize) -> (m: Option<(usize, Vec<char>)>)
    requires
        i <= a <= v@.len(),
    ensures
        match m {
            Some(p) => media_tail(v@.skip(i as int), a - i) == Some((p.0 as nat, p.1@)) && 1 <= p.0
                && i + p.0 <= v@.len(),
            None => media_tail(v@.skip(i as int), a - i) is None,
        },
{
    let n = v.len();
    let ghost s = v@.skip(i as int);
    proof {
        assert(v@.skip(a as int) =~= s.skip((a - i) as int));
    }
    let run = run_at(v, a, CharClass::NotRBracket);
    let e = a + run;
    proof {
        if e < v@.len() {
            assert(s[(a - i + run) as int] == v@[e as int]);
        }
        if e + 1 < v@.len() {
            assert(s[(a - i + run + 1) as int] == v@[(e + 1) as int]);
        }
    }
    if run <= 500 && n - e >= 2 && v[e] == ']' && v[e + 1] == ']' {
        Some((a - i + run + 2, Vec::new()))
    } else {
        None
    }
}

/// Matches a media embed at position `i`.
fn media_at(v: &Vec<char>, i: usize) -> (m: Option<(usize, Vec<char>)>)
    requires
        i <= v@.len(),
    ensures
        match m {
            Some(p) => media_match(v@.skip(i as int)) == Some((p.0 as nat, p.1@)) && 1 <= p.0 && i
                + p.0 <= v@.len(),
            None => media_match(v@.skip(i as int)) is None,
        },
{
    let n = v.len();
    let p1 = "[[Файл:";
    let p2 = "[[File:";
    if prefix_at(v, i, p1) {
        let plen = p1.unicode_len();
        proof {
            assert(i + plen <= n);
        }
        media_close(v, i, i + plen)
    } else if prefix_at(v, i, p2) {
        let plen = p2.unicode_len();
        proof {
            assert(i + plen <= n);
        }
        media_close(v, i, i + plen)
    } else {
        None
    }
}

/// Matches a newline run of three or more at position `i`.
fn newline_at(v: &Vec<char>, i: usize) -> (m: Option<(usize, Vec<char>)>)
    requires
        i <= v@.len(),
    ensures
        match m {
            Some(p) => newline_match(v@.skip(i as int)) == Some((p.0 as nat, p.1@)) && 1 <= p.0 && i
                + p.0 <= v@.len(),
            None => newline_match(v@.skip(i as int)) is None,
        },
{
    let run = run_at(v, i, CharClass::Newline);
    if run >= 3 {
        let rep = crate::text::str_chars("\n\n");
        Some((run, rep))
    } else {
        None
    }
}

/// Matches the given rule at position `i`.
pub fn match_at(rule: Rule, v: &Vec<char>, i: usize) -> (m: Option<(usize, Vec<char>)>)
    requires
        i < v@.len(),
    ensures
        match m {
            Some(p) => rule_match(rule, v@.skip(i as int)) == Some((p.0 as nat, p.1@)) && 1 <= p.0
                && i + p.0 <= v@.len(),
            None => rule_match(rule, v@.skip(i as int)) is None,
        },
{
    match rule {
        Rule::DateTpl => date_at(v, i),
        Rule::YearTpl => digits_tpl_at(v, i, true),
        Rule::NumTpl => digits_tpl_at(v, i, false),
        Rule::SimpleTpl => simple_at(v, i),
        Rule::InnerTpl => braces_at(v, i, true),
        Rule::ComplexTpl => braces_at(v, i, false),
        Rule::OrphanBrace => orphan_at(v, i),
        Rule::MediaLink => media_at(v, i),
        Rule::NewlineRun => newline_at(v, i),
    }
}

/// One left-to-right pass: at each position the rule's match is replaced and
/// skipped, or the character is copied.
pub open spec fn rewrite(r: Rule, s: Seq<char>) -> Seq<char>
    decreases s.len(),
{
    if s.len() == 0 {
        Seq::empty()
    } else {
        match rule_match(r, s) {
            Some(m) => {
                let step = if m.0 < 1 {
                    1int
                } else if m.0 > s.len() {
                    s.len() as int
                } else {
                    m.0 as int
                };
                m.1 + rewrite(r, s.skip(step))
            },
            None => seq![s[0]] + rewrite(r, s.drop_first()),
        }
    }
}

/// Applies one rewriting pass of the rule over the whole text.
pub fn rewrite_chars(rule: Rule, v: &Vec<char>) -> (r: Vec<char>)
    ensures
        r@ == rewrite(rule, v@),
{
    let mut out: Vec<char> = Vec::new();
    let mut i: usize = 0;
    proof {
        assert(v@.skip(0) =~= v@);
    }
    while i < v.len()
        invariant
            i <= v@.len(),
            rewrite(rule, v@) == out@ + rewrite(rule, v@.skip(i as int)),
        decreases v@.len() - i,
    {
        let ghost s = v@.skip(i as int);
        let ghost pre = out@;
        match match_at(rule, v, i) {
            Some((mlen, rep)) => {
                proof {
                    let m = rule_match(rule, s)->Some_0;
                    assert(m.0 == mlen as nat && m.1 == rep@);
                    assert(s.skip(mlen as int) =~= v@.skip((i + mlen) as int));
                    assert(rewrite(rule, s) == rep@ + rewrite(rule, v@.skip((i + mlen) as int)));
                }
                push_all(&mut out, &rep);
                proof {
                    assert(rewrite(rule, v@) =~= out@ + rewrite(
                        rule,
                        v@.skip((i + mlen) as int),
                    ));
                }
                i = i + mlen;
            },
            None => {
                proof {
                    assert(s[0] == v@[i as int]);
                    assert(s.drop_first() =~= v@.skip(i as int + 1));
                    assert(rewrite(rule, s) == seq![s[0]] + rewrite(rule, v@.skip(i as int + 1)));
                }
                out.push(v[i]);
                proof {
                    assert(rewrite(rule, v@) =~= out@ + rewrite(rule, v@.skip(i as int + 1)));
                }
                i = i + 1;
            },
        }
    }
    proof {
        assert(v@.skip(i as int).len() == 0);
        assert(out@ + rewrite(rule, v@.skip(i as int)) =~= out@);
    }
    out
}

} // verus!
