//! Elementary operations on character sequences: conversions between `String`
//! and `Vec<char>`, whitespace trimming, prefix tests, substring search and
//! non-overlapping occurrence counting.

use vstd::prelude::*;

verus! {

/// A whitespace character, as Rust's `char::is_whitespace` classifies them.
pub open spec fn is_ws(c: char) -> bool {
    ||| c == ' '
    ||| c == '\t'
    ||| c == '\n'
    ||| c == '\u{0b}'
    ||| c == '\u{0c}'
    ||| c == '\r'
    ||| c == '\u{85}'
    ||| c == '\u{a0}'
    ||| c == '\u{1680}'
    ||| ('\u{2000}' <= c && c <= '\u{200a}')
    ||| c == '\u{2028}'
    ||| c == '\u{2029}'
    ||| c == '\u{202f}'
    ||| c == '\u{205f}'
    ||| c == '\u{3000}'
}

/// Executable whitespace test.
pub fn ws_char(c: char) -> (r: bool)
    ensures
        r == is_ws(c),
{
    c == ' ' || c == '\t' || c == '\n' || c == '\u{0b}' || c == '\u{0c}' || c == '\r'
        || c == '\u{85}' || c == '\u{a0}' || c == '\u{1680}'
        || ('\u{2000}' <= c && c <= '\u{200a}') || c == '\u{2028}' || c == '\u{2029}'
        || c == '\u{202f}' || c == '\u{205f}' || c == '\u{3000}'
}

/// Relies on `str::chars` (collected into a vector): the characters of the
/// string, in order.
#[verifier::external_body]
pub fn str_chars(s: &str) -> (r: Vec<char>)
    ensures
        r@ == s@,
{
    s.chars().collect()
}

/// Relies on `String::push`: appends one character at the end.
#[verifier::external_body]
pub fn push_char(s: &mut String, c: char)
    ensures
        final(s)@ == old(s)@.push(c),
{
    s.push(c);
}

/// Builds the string holding exactly the given characters.
pub fn chars_to_string(v: &Vec<char>) -> (r: String)
    ensures
        r@ == v@,
{
    let mut r = String::new();
    let mut i: usize = 0;
    while i < v.len()
        invariant
            i <= v@.len(),
            r@ == v@.subrange(0, i as int),
        decreases v@.len() - i,
    {
        push_char(&mut r, v[i]);
        i = i + 1;
        proof {
            assert(r@ =~= v@.subrange(0, i as int));
        }
    }
    proof {
        assert(v@.subrange(0, v@.len() as int) =~= v@);
    }
    r
}

/// The sequence without its leading whitespace.
pub open spec fn trim_start(s: Seq<char>) -> Seq<char>
    decreases s.len(),
{
    if s.len() > 0 && is_ws(s[0]) {
        trim_start(s.drop_first())
    } else {
        s
    }
}

/// The sequence without its trailing whitespace.
pub open spec fn trim_end(s: Seq<char>) -> Seq<char>
    decreases s.len(),
{
    if s.len() > 0 && is_ws(s.last()) {
        trim_end(s.drop_last())
    } else {
        s
    }
}

/// The sequence without leading and trailing whitespace, as `str::trim`.
pub open spec fn trim(s: Seq<char>) -> Seq<char> {
    trim_end(trim_start(s))
}

/// Trims whitespace from both ends.
pub fn trim_chars(v: &Vec<char>) -> (r: Vec<char>)
    ensures
        r@ == trim(v@),
{
    let mut a: usize = 0;
    proof {
        assert(v@.skip(0) =~= v@);
    }
    while a < v.len() && ws_char(v[a])
        invariant
            a <= v@.len(),
            trim_start(v@) == trim_start(v@.skip(a as int)),
        decreases v@.len() - a,
    {
        proof {
            assert(v@.skip(a as int)[0] == v@[a as int]);
            assert(v@.skip(a as int).drop_first() =~= v@.skip(a as int + 1));
        }
        a = a + 1;
    }
    proof {
        if a < v@.len() {
            assert(v@.skip(a as int)[0] == v@[a as int]);
        }
        assert(trim_start(v@) == v@.skip(a as int));
    }
    let mut b: usize = v.len();
    while b > a && ws_char(v[b - 1])
        invariant
            a <= b <= v@.len(),
            trim_start(v@) == v@.skip(a as int),
            trim(v@) == trim_end(v@.subrange(a as int, b as int)),
        decreases b,
    {
        proof {
            let u = v@.subrange(a as int, b as int);
            assert(u.last() == v@[b - 1]);
            assert(u.drop_last() =~= v@.subrange(a as int, b as int - 1));
        }
        b = b - 1;
    }
    proof {
        let u = v@.subrange(a as int, b as int);
        if b > a {
            assert(u.last() == v@[b - 1]);
        }
        assert(trim(v@) == v@.subrange(a as int, b as int));
    }
    let mut r: Vec<char> = Vec::new();
    let mut i: usize = a;
    while i < b
        invariant
            a <= i <= b <= v@.len(),
            r@ == v@.subrange(a as int, i as int),
        decreases b - i,
    {
        r.push(v[i]);
        proof {
            assert(r@ =~= v@.subrange(a as int, i as int + 1));
        }
        i = i + 1;
    }
    proof {
        assert(r@ == trim(v@));
    }
    r
}

/// `p` is a prefix of `s`.
pub open spec fn has_prefix(s: Seq<char>, p: Seq<char>) -> bool {
    p.len() <= s.len() && s.subrange(0, p.len() as int) == p
}

/// Tests whether the pattern occurs in `v` starting at position `i`.
pub fn prefix_at(v: &Vec<char>, i: usize, pat: &str) -> (r: bool)
    requires
        i <= v@.len(),
    ensures
        r == has_prefix(v@.skip(i as int), pat@),
{
    let plen = pat.unicode_len();
    if v.len() - i < plen {
        proof {
            assert(!has_prefix(v@.skip(i as int), pat@));
        }
        return false;
    }
    let n = v.len();
    let mut j: usize = 0;
    while j < plen
        invariant
            j <= plen,
            plen == pat@.len(),
            n == v@.len(),
            i <= v@.len(),
            v@.len() - i >= plen,
            forall|k: int| 0 <= k < j ==> v@.skip(i as int)[k] == pat@[k],
        decreases plen - j,
    {
        if v[i + j] != pat.get_char(j) {
            proof {
                assert(v@.skip(i as int)[j as int] == v@[i + j]);
                assert(!has_prefix(v@.skip(i as int), pat@)) by {
                    if has_prefix(v@.skip(i as int), pat@) {
                        assert(v@.skip(i as int).subrange(0, pat@.len() as int)[j as int]
                            == pat@[j as int]);
                    }
                }
            }
            return false;
        }
        proof {
            assert(v@.skip(i as int)[j as int] == v@[i + j]);
        }
        j = j + 1;
    }
    proof {
        assert(v@.skip(i as int).subrange(0, pat@.len() as int) =~= pat@);
    }
    true
}

/// Compares two strings character by character.
pub fn str_eq_str(a: &str, b: &str) -> (r: bool)
    ensures
        r == (a@ == b@),
{
    let al = a.unicode_len();
    let bl = b.unicode_len();
    if al != bl {
        return false;
    }
    let mut j: usize = 0;
    while j < al
        invariant
            j <= al,
            al == a@.len(),
            al == b@.len(),
            forall|k: int| 0 <= k < j ==> a@[k] == b@[k],
        decreases al - j,
    {
        if a.get_char(j) != b.get_char(j) {
            return false;
        }
        j = j + 1;
    }
    proof {
        assert(a@ =~= b@);
    }
    true
}

/// Tests whether `p` is a prefix of `s`.
pub fn str_starts_with(s: &str, p: &str) -> (r: bool)
    ensures
        r == has_prefix(s@, p@),
{
    let sl = s.unicode_len();
    let pl = p.unicode_len();
    if sl < pl {
        return false;
    }
    let mut j: usize = 0;
    while j < pl
        invariant
            j <= pl,
            pl == p@.len(),
            sl == s@.len(),
            pl <= sl,
            forall|k: int| 0 <= k < j ==> s@[k] == p@[k],
        decreases pl - j,
    {
        if s.get_char(j) != p.get_char(j) {
            proof {
                assert(!has_prefix(s@, p@)) by {
                    if has_prefix(s@, p@) {
                        assert(s@.subrange(0, p@.len() as int)[j as int] == p@[j as int]);
                    }
                }
            }
            return false;
        }
        j = j + 1;
    }
    proof {
        assert(s@.subrange(0, p@.len() as int) =~= p@);
    }
    true
}

/// The position of the first occurrence of `p` in `s`, if any.
pub open spec fn find_sub(s: Seq<char>, p: Seq<char>) -> Option<int>
    decreases s.len(),
{
    if has_prefix(s, p) {
        Some(0int)
    } else if s.len() == 0 {
        None
    } else {
        match find_sub(s.drop_first(), p) {
            Some(i) => Some(i + 1),
            None => None,
        }
    }
}

/// `p` occurs somewhere in `s`.
pub open spec fn contains_sub(s: Seq<char>, p: Seq<char>) -> bool {
    find_sub(s, p) is Some
}

/// What a successful search means: a match at the found position, none earlier.
pub proof fn lemma_find_sub_some(s: Seq<char>, p: Seq<char>)
    requires
        find_sub(s, p) is Some,
    ensures
        ({
            let i = find_sub(s, p)->Some_0;
            &&& 0 <= i
            &&& i + p.len() <= s.len()
            &&& has_prefix(s.skip(i), p)
            &&& forall|j: int| 0 <= j < i ==> !has_prefix(s.skip(j), p)
        }),
    decreases s.len(),
{
    let i = find_sub(s, p)->Some_0;
    if has_prefix(s, p) {
        assert(s.skip(0) =~= s);
    } else {
        lemma_find_sub_some(s.drop_first(), p);
        let t = s.drop_first();
        let k = find_sub(t, p)->Some_0;
        assert(t.skip(k) =~= s.skip(k + 1));
        assert forall|j: int| 0 <= j < i implies !has_prefix(s.skip(j), p) by {
            if j == 0 {
                assert(s.skip(0) =~= s);
            } else {
                assert(t.skip(j - 1) =~= s.skip(j));
            }
        }
    }
}

/// A match at `i` with none earlier is what the search finds.
pub proof fn lemma_find_sub_at(s: Seq<char>, p: Seq<char>, i: int)
    requires
        p.len() >= 1,
        0 <= i <= s.len(),
        has_prefix(s.skip(i), p),
        forall|j: int| 0 <= j < i ==> !has_prefix(s.skip(j), p),
    ensures
        find_sub(s, p) == Some(i),
    decreases i,
{
    if i == 0 {
        assert(s.skip(0) =~= s);
    } else {
        assert(!has_prefix(s, p)) by {
            assert(s.skip(0) =~= s);
        }
        let t = s.drop_first();
        assert(t.skip(i - 1) =~= s.skip(i));
        assert forall|j: int| 0 <= j < i - 1 implies !has_prefix(t.skip(j), p) by {
            assert(t.skip(j) =~= s.skip(j + 1));
        }
        lemma_find_sub_at(t, p, i - 1);
    }
}

/// No match at any position means the search fails.
pub proof fn lemma_find_sub_none(s: Seq<char>, p: Seq<char>)
    requires
        p.len() >= 1,
        forall|j: int| 0 <= j < s.len() ==> !has_prefix(s.skip(j), p),
    ensures
        find_sub(s, p) is None,
    decreases s.len(),
{
    assert(s.skip(0) =~= s);
    if s.len() > 0 {
        let t = s.drop_first();
        assert forall|j: int| 0 <= j < t.len() implies !has_prefix(t.skip(j), p) by {
            assert(t.skip(j) =~= s.skip(j + 1));
        }
        lemma_find_sub_none(t, p);
    }
}

/// Finds the first occurrence of the pattern at or after position `from`.
pub fn find_from(v: &Vec<char>, from: usize, pat: &str) -> (r: Option<usize>)
    requires
        from <= v@.len(),
        pat@.len() >= 1,
    ensures
        match r {
            Some(i) => from <= i && i <= v@.len() && find_sub(v@.skip(from as int), pat@)
                == Some(i - from),
            None => find_sub(v@.skip(from as int), pat@) is None,
        },
{
    let mut i: usize = from;
    while i < v.len()
        invariant
            from <= i <= v@.len(),
            pat@.len() >= 1,
            forall|j: int| from <= j < i ==> !has_prefix(v@.skip(j), pat@),
        decreases v@.len() - i,
    {
        if prefix_at(v, i, pat) {
            proof {
                let s = v@.skip(from as int);
                assert(s.skip(i - from) =~= v@.skip(i as int));
                assert forall|j: int| 0 <= j < i - from implies !has_prefix(s.skip(j), pat@) by {
                    assert(s.skip(j) =~= v@.skip(from + j));
                }
                lemma_find_sub_at(s, pat@, i - from);
            }
            return Some(i);
        }
        i = i + 1;
    }
    proof {
        let s = v@.skip(from as int);
        assert forall|j: int| 0 <= j < s.len() implies !has_prefix(s.skip(j), pat@) by {
            assert(s.skip(j) =~= v@.skip(from + j));
        }
        lemma_find_sub_none(s, pat@);
    }
    None
}

/// Tests whether the pattern occurs anywhere in `v`.
pub fn contains_pat(v: &Vec<char>, pat: &str) -> (r: bool)
    requires
        pat@.len() >= 1,
    ensures
        r == contains_sub(v@, pat@),
{
    let r = find_from(v, 0, pat);
    proof {
        assert(v@.skip(0) =~= v@);
    }
    r.is_some()
}

/// Copies the characters of `v` between positions `a` and `b`.
pub fn copy_range(v: &Vec<char>, a: usize, b: usize) -> (r: Vec<char>)
    requires
        a <= b <= v@.len(),
    ensures
        r@ == v@.subrange(a as int, b as int),
{
    let mut r: Vec<char> = Vec::new();
    let mut i: usize = a;
    while i < b
        invariant
            a <= i <= b <= v@.len(),
            r@ == v@.subrange(a as int, i as int),
        decreases b - i,
    {
        r.push(v[i]);
        proof {
            assert(r@ =~= v@.subrange(a as int, i as int + 1));
        }
        i = i + 1;
    }
    r
}

/// The pieces of `s` between non-overlapping occurrences of `sep`, as
/// `str::split` yields them.
pub open spec fn split_sep(s: Seq<char>, sep: Seq<char>) -> Seq<Seq<char>>
    decreases s.len(),
    when sep.len() >= 1
    via split_sep_decreases
{
    match find_sub(s, sep) {
        Some(i) => seq![s.subrange(0, i)] + split_sep(s.skip(i + sep.len()), sep),
        None => seq![s],
    }
}

#[via_fn]
proof fn split_sep_decreases(s: Seq<char>, sep: Seq<char>) {
    match find_sub(s, sep) {
        Some(i) => {
            lemma_find_sub_some(s, sep);
        },
        None => {},
    }
}

/// Splits on every occurrence of the separator.
pub fn split_pat(v: &Vec<char>, sep: &str) -> (r: Vec<Vec<char>>)
    requires
        sep@.len() >= 1,
    ensures
        r.deep_view() == split_sep(v@, sep@),
        r@.len() >= 1,
{
    let seplen = sep.unicode_len();
    let mut pieces: Vec<Vec<char>> = Vec::new();
    let mut pos: usize = 0;
    proof {
        assert(v@.skip(0) =~= v@);
        assert(split_sep(v@, sep@) =~~= pieces.deep_view() + split_sep(v@.skip(0), sep@));
    }
    loop
        invariant
            pos <= v@.len(),
            seplen == sep@.len(),
            seplen >= 1,
            split_sep(v@, sep@) =~= pieces.deep_view() + split_sep(v@.skip(pos as int), sep@),
        decreases v@.len() - pos,
    {
        match find_from(v, pos, sep) {
            Some(i) => {
                proof {
                    let s = v@.skip(pos as int);
                    lemma_find_sub_some(s, sep@);
                    assert(i + seplen <= v.len());
                    assert(s.subrange(0, i - pos) =~= v@.subrange(pos as int, i as int));
                    assert(s.skip(i - pos + seplen) =~= v@.skip(i + seplen));
                }
                let piece = copy_range(v, pos, i);
                let ghost old_dv = pieces.deep_view();
                pieces.push(piece);
                proof {
                    assert(pieces.deep_view() =~~= old_dv.push(v@.subrange(pos as int, i as int)));
                }
                pos = i + seplen;
            },
            None => {
                let piece = copy_range(v, pos, v.len());
                proof {
                    assert(v@.subrange(pos as int, v@.len() as int) =~= v@.skip(pos as int));
                }
                let ghost old_dv = pieces.deep_view();
                pieces.push(piece);
                proof {
                    assert(pieces.deep_view() =~~= old_dv.push(v@.skip(pos as int)));
                    assert(split_sep(v@, sep@) =~= pieces.deep_view());
                }
                return pieces;
            },
        }
    }
}

/// The pieces joined with the separator between each adjacent pair.
pub open spec fn join_sep(ps: Seq<Seq<char>>, sep: Seq<char>) -> Seq<char>
    decreases ps.len(),
{
    if ps.len() == 0 {
        Seq::empty()
    } else if ps.len() == 1 {
        ps[0]
    } else {
        ps[0] + sep + join_sep(ps.drop_first(), sep)
    }
}

/// Joining after appending one more piece appends the separator and the piece.
pub proof fn lemma_join_snoc(ps: Seq<Seq<char>>, x: Seq<char>, sep: Seq<char>)
    ensures
        join_sep(ps.push(x), sep) == if ps.len() == 0 {
            x
        } else {
            join_sep(ps, sep) + sep + x
        },
    decreases ps.len(),
{
    let q = ps.push(x);
    if ps.len() == 0 {
        assert(q.len() == 1);
        assert(join_sep(q, sep) == q[0]);
    } else {
        assert(q.len() >= 2);
        assert(q[0] == ps[0]);
        assert(q.drop_first() =~= ps.drop_first().push(x));
        lemma_join_snoc(ps.drop_first(), x, sep);
        if ps.len() == 1 {
            assert(ps.drop_first().len() == 0);
            assert(join_sep(q, sep) == ps[0] + sep + x);
            assert(join_sep(ps, sep) == ps[0]);
        } else {
            assert(join_sep(q, sep) == ps[0] + sep + (join_sep(ps.drop_first(), sep) + sep + x));
            assert(join_sep(ps, sep) + sep + x =~= ps[0] + sep + (join_sep(ps.drop_first(), sep)
                + sep + x));
        }
    }
}

/// Joins character-sequence pieces with the separator.
pub fn join_lines(ls: &Vec<Vec<char>>, sep: &str) -> (r: Vec<char>)
    ensures
        r@ == join_sep(ls.deep_view(), sep@),
{
    let mut r: Vec<char> = Vec::new();
    let mut i: usize = 0;
    while i < ls.len()
        invariant
            i <= ls@.len(),
            r@ == join_sep(ls.deep_view().take(i as int), sep@),
        decreases ls@.len() - i,
    {
        if i > 0 {
            let sv = str_chars(sep);
            let mut k: usize = 0;
            while k < sv.len()
                invariant
                    k <= sv@.len(),
                    sv@ == sep@,
                    r@ == join_sep(ls.deep_view().take(i as int), sep@) + sep@.subrange(
                        0,
                        k as int,
                    ),
                decreases sv@.len() - k,
            {
                r.push(sv[k]);
                proof {
                    assert(r@ =~= join_sep(ls.deep_view().take(i as int), sep@) + sep@.subrange(
                        0,
                        k as int + 1,
                    ));
                }
                k = k + 1;
            }
            proof {
                assert(sep@.subrange(0, sep@.len() as int) =~= sep@);
            }
        }
        let line = &ls[i];
        let mut k: usize = 0;
        let ghost base = r@;
        while k < line.len()
            invariant
                k <= line@.len(),
                r@ == base + line@.subrange(0, k as int),
            decreases line@.len() - k,
        {
            r.push(line[k]);
            proof {
                assert(r@ =~= base + line@.subrange(0, k as int + 1));
            }
            k = k + 1;
        }
        proof {
            assert(line@.subrange(0, line@.len() as int) =~= line@);
            let dv = ls.deep_view();
            assert(dv.take(i as int).push(dv[i as int]) =~= dv.take(i as int + 1));
            lemma_join_snoc(dv.take(i as int), dv[i as int], sep@);
            if i == 0 {
                assert(r@ =~= dv[0]);
            }
        }
        i = i + 1;
    }
    proof {
        assert(ls.deep_view().take(ls@.len() as int) =~= ls.deep_view());
    }
    r
}

/// Joins strings with the separator.
pub fn join_strings(ps: &Vec<String>, sep: &str) -> (r: String)
    ensures
        r@ == join_sep(ps.deep_view(), sep@),
{
    let mut r = String::new();
    let mut i: usize = 0;
    while i < ps.len()
        invariant
            i <= ps@.len(),
            r@ == join_sep(ps.deep_view().take(i as int), sep@),
        decreases ps@.len() - i,
    {
        if i > 0 {
            r.append(sep);
        }
        r.append(ps[i].as_str());
        proof {
            let dv = ps.deep_view();
            assert(dv.take(i as int).push(dv[i as int]) =~= dv.take(i as int + 1));
            lemma_join_snoc(dv.take(i as int), dv[i as int], sep@);
            if i == 0 {
                assert(r@ =~= dv[0]);
            }
        }
        i = i + 1;
    }
    proof {
        assert(ps.deep_view().take(ps@.len() as int) =~= ps.deep_view());
    }
    r
}

/// How many non-overlapping occurrences of `p` the left-to-right scan sees.
pub open spec fn count_occ(s: Seq<char>, p: Seq<char>) -> nat
    decreases s.len(),
{
    if p.len() == 0 || s.len() < p.len() {
        0
    } else if has_prefix(s, p) {
        1 + count_occ(s.skip(p.len() as int), p)
    } else {
        count_occ(s.drop_first(), p)
    }
}

/// Counts non-overlapping occurrences of the pattern, as `str::matches` does.
pub fn count_pat(v: &Vec<char>, pat: &str) -> (r: usize)
    requires
        pat@.len() >= 1,
    ensures
        r == count_occ(v@, pat@),
{
    let plen = pat.unicode_len();
    let mut cnt: usize = 0;
    let mut i: usize = 0;
    proof {
        assert(v@.skip(0) =~= v@);
    }
    while i < v.len()
        invariant
            i <= v@.len(),
            plen == pat@.len(),
            plen >= 1,
            cnt <= i,
            cnt + count_occ(v@.skip(i as int), pat@) == count_occ(v@, pat@),
        decreases v@.len() - i,
    {
        let ghost s = v@.skip(i as int);
        if prefix_at(v, i, pat) {
            proof {
                assert(s.skip(plen as int) =~= v@.skip(i + plen));
            }
            cnt = cnt + 1;
            i = i + plen;
        } else {
            proof {
                if s.len() >= plen {
                    assert(s.drop_first() =~= v@.skip(i as int + 1));
                } else {
                    assert(count_occ(s, pat@) == 0);
                    assert(v@.skip(i as int + 1).len() < plen);
                    assert(count_occ(v@.skip(i as int + 1), pat@) == 0);
                }
            }
            i = i + 1;
        }
    }
    proof {
        assert(v@.skip(i as int).len() == 0);
    }
    cnt
}

} // verus!
