//! The residue scrubber: removes leftover brace and image markup that the
//! parser still emits as text fragments, and normalizes blank lines.  Every
//! pattern uses an explicitly bounded repetition, so no step can blow up on
//! adversarially nested input.

use vstd::prelude::*;
use crate::rewrite::{
    CharClass, Rule, in_class, run_len, run_at, rewrite, rewrite_chars, lemma_run_props,
    newline_match,
};
use crate::text::{
    has_prefix, prefix_at, trim, trim_chars, split_sep, split_pat, join_sep, join_lines, str_chars,
    chars_to_string, copy_range,
};

verus! {

/// Collapsing blank lines: every run of three or more newlines becomes two.
pub open spec fn collapse(s: Seq<char>) -> Seq<char> {
    rewrite(Rule::NewlineRun, s)
}

/// A sequence of `k` newline characters.
pub open spec fn nlseq(k: nat) -> Seq<char> {
    Seq::new(k, |i: int| '\n')
}

proof fn lemma_nlseq_run(k: nat, u: Seq<char>)
    requires
        u.len() == 0 || u[0] != '\n',
    ensures
        run_len(CharClass::Newline, nlseq(k) + u) == k,
    decreases k,
{
    let s = nlseq(k) + u;
    if k == 0 {
        assert(s =~= u);
        if u.len() > 0 {
            assert(!in_class(CharClass::Newline, s[0]));
        }
    } else {
        assert(s[0] == '\n');
        assert(s.drop_first() =~= nlseq((k - 1) as nat) + u);
        lemma_nlseq_run((k - 1) as nat, u);
    }
}

/// A run of newlines at the head of the text collapses to exactly two when it
/// has three or more, and is kept as it is otherwise.
pub proof fn lemma_collapse_run(k: nat, u: Seq<char>)
    requires
        u.len() == 0 || u[0] != '\n',
    ensures
        collapse(nlseq(k) + u) == (if k >= 3 {
            nlseq(2)
        } else {
            nlseq(k)
        }) + collapse(u),
    decreases k,
{
    reveal_strlit("\n\n");
    let s = nlseq(k) + u;
    lemma_nlseq_run(k, u);
    if k >= 3 {
        assert(s.skip(k as int) =~= u);
        assert("\n\n"@ =~= nlseq(2));
        assert(collapse(s) =~= nlseq(2) + collapse(u));
    } else if k == 0 {
        assert(s =~= u);
        assert(nlseq(0) + collapse(u) =~= collapse(u));
    } else {
        assert(s[0] == '\n');
        assert(s.drop_first() =~= nlseq((k - 1) as nat) + u);
        lemma_collapse_run((k - 1) as nat, u);
        assert(collapse(s) =~= nlseq(k) + collapse(u));
    }
}

proof fn lemma_collapse_head(u: Seq<char>)
    requires
        u.len() == 0 || u[0] != '\n',
    ensures
        collapse(u).len() == 0 || collapse(u)[0] != '\n',
{
    if u.len() > 0 {
        assert(run_len(CharClass::Newline, u) == 0);
        assert(collapse(u) == seq![u[0]] + collapse(u.drop_first()));
        assert(collapse(u)[0] == u[0]);
    }
}

/// Collapsing distributes over a cut after a non-newline character: the scan
/// never carries a newline run across such a boundary.
pub proof fn lemma_collapse_concat(a: Seq<char>, v: Seq<char>)
    requires
        a.len() == 0 || a.last() != '\n',
    ensures
        collapse(a + v) == collapse(a) + collapse(v),
    decreases a.len(),
{
    reveal_strlit("\n\n");
    let s = a + v;
    if a.len() == 0 {
        assert(s =~= v);
        assert(collapse(a).len() == 0);
        assert(collapse(a) + collapse(v) =~= collapse(v));
    } else {
        let r = run_len(CharClass::Newline, a);
        lemma_run_props(CharClass::Newline, a);
        assert(r < a.len()) by {
            if r == a.len() {
                assert(in_class(CharClass::Newline, a[a.len() - 1]));
            }
        }
        assert(run_len(CharClass::Newline, s) == r) by {
            let ar = a.skip(r as int);
            assert(nlseq(r) + ar =~= a) by {
                assert(forall|j: int|
                    0 <= j < r ==> in_class(CharClass::Newline, a[j]) && a[j] == '\n');
            }
            assert((nlseq(r) + ar) + v =~= nlseq(r) + (ar + v));
            assert(ar[0] == a[r as int]);
            assert((ar + v)[0] == a[r as int] && a[r as int] != '\n');
            lemma_nlseq_run(r, ar + v);
        }
        if r >= 3 {
            assert(s.skip(r as int) =~= a.skip(r as int) + v);
            assert(a.skip(r as int).len() > 0 && a.skip(r as int).last() == a.last());
            lemma_collapse_concat(a.skip(r as int), v);
            assert(s.len() > 0);
            let ar = a.skip(r as int);
            assert(nlseq(r) + ar =~= a) by {
                assert(forall|j: int|
                    0 <= j < r ==> in_class(CharClass::Newline, a[j]) && a[j] == '\n');
            }
            assert(ar.len() == 0 || ar[0] != '\n');
            lemma_collapse_run(r, ar);
            assert("\n\n"@ =~= nlseq(2));
            assert(collapse(s) == nlseq(2) + (collapse(ar) + collapse(v)));
            assert(collapse(a) + collapse(v) =~= nlseq(2) + (collapse(ar) + collapse(v)));
        } else {
            assert(newline_match(s) is None);
            assert(newline_match(a) is None);
            assert(s[0] == a[0]);
            assert(s.drop_first() =~= a.drop_first() + v);
            if a.len() > 1 {
                assert(a.drop_first().last() == a.last());
            }
            lemma_collapse_concat(a.drop_first(), v);
            assert(collapse(s) == seq![a[0]] + (collapse(a.drop_first()) + collapse(v)));
            assert(collapse(a) + collapse(v) =~= seq![a[0]] + (collapse(a.drop_first()) + collapse(
            v)));
        }
    }
}

/// A run of three or more newlines anywhere in the text, bounded by
/// non-newline characters or the text's ends, collapses to exactly two.
pub proof fn lemma_collapse_run_anywhere(a: Seq<char>, k: nat, u: Seq<char>)
    requires
        a.len() == 0 || a.last() != '\n',
        u.len() == 0 || u[0] != '\n',
        k >= 3,
    ensures
        collapse(a + nlseq(k) + u) == collapse(a) + nlseq(2) + collapse(u),
{
    assert(a + nlseq(k) + u =~= a + (nlseq(k) + u));
    lemma_collapse_concat(a, nlseq(k) + u);
    lemma_collapse_run(k, u);
    assert(collapse(a) + (nlseq(2) + collapse(u)) =~= collapse(a) + nlseq(2) + collapse(u));
}

/// Collapsing blank lines is idempotent: a collapsed text collapses to
/// itself.
pub proof fn lemma_collapse_idempotent(s: Seq<char>)
    ensures
        collapse(collapse(s)) == collapse(s),
    decreases s.len(),
{
    if s.len() == 0 {
        assert(collapse(s).len() == 0);
    } else {
        let r = run_len(CharClass::Newline, s);
        lemma_run_props(CharClass::Newline, s);
        if r == 0 {
            assert(s[0] != '\n');
            let t = s.drop_first();
            let cs = collapse(s);
            assert(cs == seq![s[0]] + collapse(t));
            assert(cs[0] == s[0]);
            assert(run_len(CharClass::Newline, cs) == 0);
            assert(cs.drop_first() =~= collapse(t));
            lemma_collapse_idempotent(t);
            assert(collapse(cs) == seq![cs[0]] + collapse(collapse(t)));
            assert(collapse(cs) =~= cs);
        } else {
            let u = s.skip(r as int);
            assert(nlseq(r) + u =~= s) by {
                assert(forall|j: int|
                    0 <= j < r ==> in_class(CharClass::Newline, s[j]) && s[j] == '\n');
            }
            assert(u.len() == 0 || u[0] != '\n') by {
                if r < s.len() {
                    assert(!in_class(CharClass::Newline, s[r as int]));
                }
            }
            let b: nat = if r >= 3 {
                2
            } else {
                r
            };
            lemma_collapse_run(r, u);
            lemma_collapse_head(u);
            lemma_collapse_run(b, collapse(u));
            lemma_collapse_idempotent(u);
            assert(collapse(s) == nlseq(b) + collapse(u));
            assert(collapse(collapse(s)) == nlseq(b) + collapse(u));
        }
    }
}

/// Collapses every run of three or more newlines to exactly two.
pub fn collapse_newlines(text: &str) -> (r: String)
    ensures
        r@ == collapse(text@),
{
    let v = str_chars(text);
    let c = rewrite_chars(Rule::NewlineRun, &v);
    chars_to_string(&c)
}

/// The iterated innermost-template strip: up to `k` rounds, stopping early
/// once a round no longer changes the length.
pub open spec fn strip_rounds(s: Seq<char>, k: nat) -> Seq<char>
    decreases k,
{
    if k == 0 {
        s
    } else {
        let t = rewrite(Rule::InnerTpl, s);
        if t.len() == s.len() {
            t
        } else {
            strip_rounds(t, (k - 1) as nat)
        }
    }
}

fn strip_rounds_exec(v: &Vec<char>, k: usize) -> (r: Vec<char>)
    ensures
        r@ == strip_rounds(v@, k as nat),
    decreases k,
{
    if k == 0 {
        let r = copy_range(v, 0, v.len());
        proof {
            assert(v@.subrange(0, v@.len() as int) =~= v@);
        }
        r
    } else {
        let t = rewrite_chars(Rule::InnerTpl, v);
        if t.len() == v.len() {
            t
        } else {
            strip_rounds_exec(&t, k - 1)
        }
    }
}

/// A keyword followed by a pipe opens the tail, and what follows is capped at
/// 200 characters.
pub open spec fn kw_pipe(u: Seq<char>, kp: Seq<char>) -> bool {
    has_prefix(u, kp) && u.len() <= kp.len() + 200
}

/// Whether `rest` is at most `k + cap`, free of overflow.
fn len_within(rest: usize, k: usize, cap: usize) -> (b: bool)
    ensures
        b == (rest <= k + cap),
{
    (rest as u128) <= (k as u128) + (cap as u128)
}

fn kw_pipe_at(t: &Vec<char>, a: usize, kp: &str) -> (r: bool)
    requires
        a <= t@.len(),
    ensures
        r == kw_pipe(t@.skip(a as int), kp@),
{
    let kl = kp.unicode_len();
    prefix_at(t, a, kp) && len_within(t.len() - a, kl, 200)
}

/// The position keywords an image-parameter line may carry, each with its
/// following pipe.
pub open spec fn pos_keyword_tail(u: Seq<char>) -> bool {
    ||| kw_pipe(u, "мини|"@)
    ||| kw_pipe(u, "thumb|"@)
    ||| kw_pipe(u, "миниатюра|"@)
    ||| kw_pipe(u, "left|"@)
    ||| kw_pipe(u, "right|"@)
    ||| kw_pipe(u, "center|"@)
    ||| kw_pipe(u, "слева|"@)
    ||| kw_pipe(u, "справа|"@)
    ||| kw_pipe(u, "центр|"@)
}

/// A line that is an image size-position-caption parameter: digits, `px|`, a
/// position keyword, a pipe and a capped caption.
pub open spec fn image_param_line(l: Seq<char>) -> bool {
    let t = trim(l);
    let d = run_len(CharClass::Digit, t) as int;
    let pp = "px|"@;
    d >= 1 && has_prefix(t.skip(d), pp) && pos_keyword_tail(t.skip(d + pp.len()))
}

fn image_param_line_exec(l: &Vec<char>) -> (r: bool)
    ensures
        r == image_param_line(l@),
{
    let t = trim_chars(l);
    let tn = t.len();
    proof {
        assert(t@.skip(0) =~= t@);
    }
    let d = run_at(&t, 0, CharClass::Digit);
    if d < 1 {
        return false;
    }
    let pp = "px|";
    if !prefix_at(&t, d, pp) {
        return false;
    }
    let a = d + pp.unicode_len();
    proof {
        assert(t@.skip(d as int).skip("px|"@.len() as int) =~= t@.skip((d as int)
            + "px|"@.len() as int));
    }
    kw_pipe_at(&t, a, "мини|") || kw_pipe_at(&t, a, "thumb|") || kw_pipe_at(&t, a, "миниатюра|")
        || kw_pipe_at(&t, a, "left|") || kw_pipe_at(&t, a, "right|") || kw_pipe_at(
        &t,
        a,
        "center|",
    ) || kw_pipe_at(&t, a, "слева|") || kw_pipe_at(&t, a, "справа|") || kw_pipe_at(&t, a, "центр|")
}

/// The optional position keyword of a size-position fragment line, then a
/// capped remainder.
pub open spec fn frag_pos_tail(r: Seq<char>) -> bool {
    ||| (has_prefix(r, "слева"@) && r.len() <= "слева"@.len() + 200)
    ||| (has_prefix(r, "справа"@) && r.len() <= "справа"@.len() + 200)
    ||| (has_prefix(r, "центр"@) && r.len() <= "центр"@.len() + 200)
    ||| r.len() <= 200
}

/// A fragment line of the shape size, `px|мини|`, optional position, capped
/// remainder.
pub open spec fn frag_size_pos(l: Seq<char>) -> bool {
    let w = run_len(CharClass::Space, l) as int;
    let u = l.skip(w);
    let d = run_len(CharClass::Digit, u) as int;
    let mp = "px|мини|"@;
    d >= 1 && has_prefix(u.skip(d), mp) && frag_pos_tail(u.skip(d + mp.len()))
}

/// A fragment line of the shape `альт=`, a capped stretch, `|мини|`, a capped
/// remainder.
pub open spec fn frag_alt(l: Seq<char>) -> bool {
    let w = run_len(CharClass::Space, l) as int;
    let u = l.skip(w);
    let ap = "альт="@;
    let mp = "|мини|"@;
    has_prefix(u, ap) && exists|x: int|
        0 <= x <= 100 && ap.len() + x <= u.len() && #[trigger] has_prefix(u.skip(ap.len() + x), mp)
            && u.len() - (ap.len() + x) <= mp.len() + 200
}

/// A fragment line that is exactly a size and `px|мини`.
pub open spec fn frag_bare(l: Seq<char>) -> bool {
    let w = run_len(CharClass::Space, l) as int;
    let u = l.skip(w);
    let d = run_len(CharClass::Digit, u) as int;
    let mp = "px|мини"@;
    d >= 1 && u.len() == d + mp.len() && has_prefix(u.skip(d), mp)
}

/// Any of the standalone image-parameter fragment shapes.
pub open spec fn frag_line(l: Seq<char>) -> bool {
    frag_size_pos(l) || frag_alt(l) || frag_bare(l)
}

fn frag_size_pos_exec(l: &Vec<char>, w: usize) -> (r: bool)
    requires
        w <= l@.len(),
        w == run_len(CharClass::Space, l@),
    ensures
        r == frag_size_pos(l@),
{
    let n = l.len();
    let ghost u = l@.skip(w as int);
    let d = run_at(l, w, CharClass::Digit);
    if d < 1 {
        return false;
    }
    let dd = w + d;
    proof {
        assert(u.skip(d as int) =~= l@.skip(dd as int));
    }
    let mp = "px|мини|";
    if !prefix_at(l, dd, mp) {
        return false;
    }
    let ml = mp.unicode_len();
    let a = dd + ml;
    proof {
        assert(u.skip((d as int) + "px|мини|"@.len() as int) =~= l@.skip(a as int));
    }
    let c1 = prefix_at(l, a, "слева") && len_within(n - a, "слева".unicode_len(), 200);
    let c2 = prefix_at(l, a, "справа") && len_within(n - a, "справа".unicode_len(), 200);
    let c3 = prefix_at(l, a, "центр") && len_within(n - a, "центр".unicode_len(), 200);
    let c4 = n - a <= 200;
    c1 || c2 || c3 || c4
}

fn frag_alt_exec(l: &Vec<char>, w: usize) -> (r: bool)
    requires
        w <= l@.len(),
        w == run_len(CharClass::Space, l@),
    ensures
        r == frag_alt(l@),
{
    let ghost u = l@.skip(w as int);
    let ap = "альт=";
    if !prefix_at(l, w, ap) {
        return false;
    }
    let al = ap.unicode_len();
    let mp = "|мини|";
    let ml = mp.unicode_len();
    let n = l.len();
    let base = w + al;
    proof {
        assert(base <= n);
    }
    let mut x: usize = 0;
    while x <= 100 && x <= n - base
        invariant
            w <= l@.len(),
            n == l@.len(),
            w == run_len(CharClass::Space, l@),
            base == w + "альт="@.len(),
            base <= n,
            ml == "|мини|"@.len(),
            u == l@.skip(w as int),
            has_prefix(u, "альт="@),
            forall|y: int|
                0 <= y < x ==> !("альт="@.len() + y <= u.len() && #[trigger] has_prefix(
                    u.skip("альт="@.len() + y),
                    "|мини|"@,
                ) && u.len() - ("альт="@.len() + y) <= "|мини|"@.len() + 200),
        decreases 101 - x,
    {
        proof {
            assert(u.skip("альт="@.len() + x) =~= l@.skip((base + x) as int));
        }
        if prefix_at(l, base + x, "|мини|") && len_within(n - (base + x), ml, 200) {
            proof {
                assert(has_prefix(l@.skip((base + x) as int), "|мини|"@));
                assert(frag_alt(l@)) by {
                    assert(u.skip("альт="@.len() + (x as int)) =~= l@.skip((base + x) as int));
                    assert(0 <= x as int <= 100);
                    assert("альт="@.len() + (x as int) <= u.len());
                    assert(has_prefix(u.skip("альт="@.len() + (x as int)), "|мини|"@));
                    assert(u.len() - ("альт="@.len() + (x as int)) <= "|мини|"@.len() + 200);
                }
            }
            return true;
        }
        x = x + 1;
    }
    proof {
        assert forall|y: int|
            0 <= y <= 100 implies !("альт="@.len() + y <= u.len() && #[trigger] has_prefix(
            u.skip("альт="@.len() + y),
            "|мини|"@,
        ) && u.len() - ("альт="@.len() + y) <= "|мини|"@.len() + 200) by {
            if y >= x {
                assert(y > n - base);
                assert("альт="@.len() + y > u.len());
            }
        }
    }
    false
}

fn frag_bare_exec(l: &Vec<char>, w: usize) -> (r: bool)
    requires
        w <= l@.len(),
        w == run_len(CharClass::Space, l@),
    ensures
        r == frag_bare(l@),
{
    let n = l.len();
    let ghost u = l@.skip(w as int);
    let d = run_at(l, w, CharClass::Digit);
    if d < 1 {
        return false;
    }
    let dd = w + d;
    proof {
        assert(u.skip(d as int) =~= l@.skip(dd as int));
    }
    let mp = "px|мини";
    let ml = mp.unicode_len();
    n - dd == ml && prefix_at(l, dd, mp)
}

fn frag_line_exec(l: &Vec<char>) -> (r: bool)
    ensures
        r == frag_line(l@),
{
    let w = run_at(l, 0, CharClass::Space);
    proof {
        assert(l@.skip(0) =~= l@);
    }
    frag_size_pos_exec(l, w) || frag_alt_exec(l, w) || frag_bare_exec(l, w)
}

/// A line without its trailing carriage return, as `str::lines` yields it.
pub open spec fn strip_cr(l: Seq<char>) -> Seq<char> {
    if l.len() > 0 && l.last() == '\r' {
        l.drop_last()
    } else {
        l
    }
}

/// The lines of the text, as `str::lines` yields them: split on newlines,
/// carriage returns stripped, no final empty line after a trailing newline.
pub open spec fn lines_of(s: Seq<char>) -> Seq<Seq<char>> {
    let p = split_sep(s, "\n"@);
    let q = if p.len() > 0 && p.last().len() == 0 {
        p.drop_last()
    } else {
        p
    };
    Seq::new(q.len(), |i: int| strip_cr(q[i]))
}

fn lines_of_exec(v: &Vec<char>) -> (r: Vec<Vec<char>>)
    ensures
        r.deep_view() == lines_of(v@),
{
    proof {
        reveal_strlit("\n");
    }
    let mut p = split_pat(v, "\n");
    let ghost p0 = p.deep_view();
    if p[p.len() - 1].len() == 0 {
        proof {
            assert(p.deep_view().last() =~= p@.last()@);
        }
        p.pop();
        proof {
            assert(p.deep_view() =~~= p0.drop_last());
        }
    }
    let ghost q = p.deep_view();
    let mut out: Vec<Vec<char>> = Vec::new();
    let mut i: usize = 0;
    while i < p.len()
        invariant
            i <= p@.len(),
            q == p.deep_view(),
            out@.len() == i,
            forall|k: int| 0 <= k < i ==> out.deep_view()[k] == strip_cr(q[k]),
        decreases p@.len() - i,
    {
        let li = &p[i];
        let stripped = if li.len() > 0 && li[li.len() - 1] == '\r' {
            copy_range(li, 0, li.len() - 1)
        } else {
            copy_range(li, 0, li.len())
        };
        proof {
            assert(q[i as int] =~= li@);
            if li@.len() > 0 && li@.last() == '\r' {
                assert(stripped@ =~= strip_cr(li@));
            } else {
                assert(stripped@ =~= li@);
            }
        }
        let ghost outpre = out.deep_view();
        out.push(stripped);
        proof {
            assert(out.deep_view() =~~= outpre.push(stripped@));
        }
        i = i + 1;
    }
    proof {
        assert(out.deep_view() =~~= lines_of(v@));
    }
    out
}

/// The lines kept by the image-parameter filter: a matching line is dropped
/// with its separator.
pub open spec fn keep_image_lines(ls: Seq<Seq<char>>) -> Seq<Seq<char>>
    decreases ls.len(),
{
    if ls.len() == 0 {
        Seq::empty()
    } else {
        let rest = keep_image_lines(ls.drop_first());
        if image_param_line(ls[0]) {
            rest
        } else {
            seq![ls[0]] + rest
        }
    }
}

fn keep_image_lines_exec(ls: &Vec<Vec<char>>) -> (r: Vec<Vec<char>>)
    ensures
        r.deep_view() == keep_image_lines(ls.deep_view()),
{
    let ghost dv = ls.deep_view();
    let mut out: Vec<Vec<char>> = Vec::new();
    let mut i: usize = 0;
    proof {
        assert(dv.skip(0) =~= dv);
        assert(keep_image_lines(dv) =~~= out.deep_view() + keep_image_lines(dv.skip(0)));
    }
    while i < ls.len()
        invariant
            i <= ls@.len(),
            dv == ls.deep_view(),
            keep_image_lines(dv) =~= out.deep_view() + keep_image_lines(dv.skip(i as int)),
        decreases ls@.len() - i,
    {
        proof {
            assert(dv.skip(i as int)[0] == dv[i as int]);
            assert(dv.skip(i as int).drop_first() =~= dv.skip(i as int + 1));
            assert(dv[i as int] =~= ls@[i as int]@);
        }
        let li = &ls[i];
        if !image_param_line_exec(li) {
            let c = copy_range(li, 0, li.len());
            proof {
                assert(c@ =~= li@);
            }
            let ghost outpre = out.deep_view();
            out.push(c);
            proof {
                assert(out.deep_view() =~~= outpre.push(li@));
                assert(out.deep_view() + keep_image_lines(dv.skip(i as int + 1)) =~= outpre + (
                seq![dv[i as int]] + keep_image_lines(dv.skip(i as int + 1))));
            }
        }
        i = i + 1;
    }
    proof {
        assert(keep_image_lines(dv.skip(i as int)).len() == 0);
        assert(out.deep_view() =~= keep_image_lines(dv));
    }
    out
}

/// The lines after the fragment pass: a matching line keeps its place but
/// loses its content.
pub open spec fn clear_frag_lines(ls: Seq<Seq<char>>) -> Seq<Seq<char>>
    decreases ls.len(),
{
    if ls.len() == 0 {
        Seq::empty()
    } else {
        let head: Seq<char> = if frag_line(ls[0]) {
            Seq::empty()
        } else {
            ls[0]
        };
        seq![head] + clear_frag_lines(ls.drop_first())
    }
}

fn clear_frag_lines_exec(ls: &Vec<Vec<char>>) -> (r: Vec<Vec<char>>)
    ensures
        r.deep_view() == clear_frag_lines(ls.deep_view()),
{
    let ghost dv = ls.deep_view();
    let mut out: Vec<Vec<char>> = Vec::new();
    let mut i: usize = 0;
    proof {
        assert(dv.skip(0) =~= dv);
        assert(clear_frag_lines(dv) =~~= out.deep_view() + clear_frag_lines(dv.skip(0)));
    }
    while i < ls.len()
        invariant
            i <= ls@.len(),
            dv == ls.deep_view(),
            clear_frag_lines(dv) =~= out.deep_view() + clear_frag_lines(dv.skip(i as int)),
        decreases ls@.len() - i,
    {
        proof {
            assert(dv.skip(i as int)[0] == dv[i as int]);
            assert(dv.skip(i as int).drop_first() =~= dv.skip(i as int + 1));
            assert(dv[i as int] =~= ls@[i as int]@);
        }
        let li = &ls[i];
        let ghost outpre = out.deep_view();
        if frag_line_exec(li) {
            out.push(Vec::new());
            proof {
                assert(out.deep_view() =~~= outpre.push(Seq::<char>::empty()));
            }
        } else {
            let c = copy_range(li, 0, li.len());
            proof {
                assert(c@ =~= li@);
            }
            out.push(c);
            proof {
                assert(out.deep_view() =~~= outpre.push(li@));
            }
        }
        i = i + 1;
    }
    proof {
        assert(clear_frag_lines(dv.skip(i as int)).len() == 0);
        assert(out.deep_view() =~= clear_frag_lines(dv));
    }
    out
}

/// The image-residue scrub: complete media embeds removed, image-parameter
/// lines dropped, standalone fragment lines cleared, blank lines collapsed.
pub open spec fn scrub_media(s: Seq<char>) -> Seq<char> {
    let s1 = rewrite(Rule::MediaLink, s);
    let s2 = join_sep(keep_image_lines(lines_of(s1)), "\n"@);
    let s3 = join_sep(clear_frag_lines(split_sep(s2, "\n"@)), "\n"@);
    collapse(s3)
}

fn scrub_media_chars(v: &Vec<char>) -> (r: Vec<char>)
    ensures
        r@ == scrub_media(v@),
{
    proof {
        reveal_strlit("\n");
    }
    let s1 = rewrite_chars(Rule::MediaLink, v);
    let ln = lines_of_exec(&s1);
    let kept = keep_image_lines_exec(&ln);
    let s2 = join_lines(&kept, "\n");
    let sp = split_pat(&s2, "\n");
    let cl = clear_frag_lines_exec(&sp);
    let s3 = join_lines(&cl, "\n");
    rewrite_chars(Rule::NewlineRun, &s3)
}

/// Removes image markup fragments that leak through extraction.
pub fn remove_image_fragments(text: &str) -> (r: String)
    ensures
        r@ == scrub_media(text@),
{
    let v = str_chars(text);
    let c = scrub_media_chars(&v);
    chars_to_string(&c)
}

/// The whole residue scrub: iterated innermost-template strip, the capped
/// catch-all strip, orphan brace removal, then the image-residue scrub.
pub open spec fn clean_spec(s: Seq<char>) -> Seq<char> {
    scrub_media(rewrite(Rule::OrphanBrace, rewrite(Rule::ComplexTpl, strip_rounds(s, 10))))
}

/// Cleans leftover template and image markup out of extracted text.
pub fn clean_text(text: &str) -> (r: String)
    ensures
        r@ == clean_spec(text@),
{
    let v = str_chars(text);
    let sr = strip_rounds_exec(&v, 10);
    let c1 = rewrite_chars(Rule::ComplexTpl, &sr);
    let c2 = rewrite_chars(Rule::OrphanBrace, &c1);
    let c3 = scrub_media_chars(&c2);
    chars_to_string(&c3)
}

} // verus!

