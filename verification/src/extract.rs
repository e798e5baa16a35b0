//! The extraction engine: a total recursive walk of a parsed markup node
//! tree that accumulates flowing text in a pending paragraph buffer and
//! flushes it into completed paragraphs at the boundaries that headings and
//! paragraph breaks create.

use vstd::prelude::*;
use crate::text::{
    has_prefix, trim, trim_chars, contains_sub, contains_pat, prefix_at, copy_range, str_chars,
    chars_to_string,
};
use crate::rewrite::push_all;

verus! {

/// One node of a parsed markup document.  Container kinds own their child
/// nodes; list kinds own one node sequence per item; emphasis kinds carry the
/// raw slice of the document their span covers, delimiters included.
pub enum Node {
    /// Plain text.
    Text { value: String },
    /// A bold span; `raw` is the document slice, `'''` delimiters included.
    Bold { raw: String },
    /// An italic span; `raw` is the document slice, `''` delimiters included.
    Italic { raw: String },
    /// A bold-italic span; `raw` is the document slice with its delimiters.
    BoldItalic { raw: String },
    /// An internal link; the children are its display text.
    Link { text: Vec<Node> },
    /// An external link; the children are its display text.
    ExternalLink { nodes: Vec<Node> },
    /// A section heading.
    Heading { nodes: Vec<Node> },
    /// An explicit paragraph boundary.
    ParagraphBreak,
    /// A bulleted list.
    UnorderedList { items: Vec<Vec<Node>> },
    /// A numbered list.
    OrderedList { items: Vec<Vec<Node>> },
    /// A definition list.
    DefinitionList { items: Vec<Vec<Node>> },
    /// Preformatted text.
    Preformatted { nodes: Vec<Node> },
    /// An HTML-style tag with its content.
    Tag { name: String, nodes: Vec<Node> },
    /// A template invocation; contributes nothing.
    Template,
    /// A table; contributes nothing.
    Table,
    /// An image; contributes nothing.
    Image,
    /// A category marker; contributes nothing.
    Category,
    /// A comment; contributes nothing.
    Comment,
    /// A magic word; contributes nothing.
    MagicWord,
    /// A redirect marker; contributes nothing.
    Redirect,
    /// A template parameter; contributes nothing.
    Parameter,
    /// A character entity; contributes nothing.
    CharacterEntity,
    /// A lone start tag; contributes nothing.
    StartTag,
    /// A lone end tag; contributes nothing.
    EndTag,
    /// A horizontal divider; contributes nothing.
    HorizontalDivider,
}

/// `p` is a suffix of `s`.
pub open spec fn has_suffix(s: Seq<char>, p: Seq<char>) -> bool {
    p.len() <= s.len() && s.subrange(s.len() - p.len(), s.len() as int) == p
}

/// Removes the prefix `p` as often as it occurs, as `str::trim_start_matches`.
pub open spec fn strip_prefix_rep(s: Seq<char>, p: Seq<char>) -> Seq<char>
    decreases s.len(),
{
    if p.len() >= 1 && has_prefix(s, p) {
        strip_prefix_rep(s.skip(p.len() as int), p)
    } else {
        s
    }
}

/// Removes the suffix `p` as often as it occurs, as `str::trim_end_matches`.
pub open spec fn strip_suffix_rep(s: Seq<char>, p: Seq<char>) -> Seq<char>
    decreases s.len(),
{
    if p.len() >= 1 && has_suffix(s, p) {
        strip_suffix_rep(s.take(s.len() - p.len()), p)
    } else {
        s
    }
}

/// Strips emphasis delimiters from both ends, longest first, so that no
/// partial delimiter survives: five quotes, then three, then two.
pub open spec fn strip_emphasis(s: Seq<char>) -> Seq<char> {
    let s5 = strip_suffix_rep(strip_prefix_rep(s, "'''''"@), "'''''"@);
    let s3 = strip_suffix_rep(strip_prefix_rep(s5, "'''"@), "'''"@);
    strip_suffix_rep(strip_prefix_rep(s3, "''"@), "''"@)
}

/// Removes the leading repetitions of the pattern.
fn strip_prefix_rep_chars(v: &Vec<char>, pat: &str) -> (r: Vec<char>)
    requires
        pat@.len() >= 1,
    ensures
        r@ == strip_prefix_rep(v@, pat@),
{
    let plen = pat.unicode_len();
    let n = v.len();
    let mut pos: usize = 0;
    proof {
        assert(v@.skip(0) =~= v@);
    }
    while prefix_at(v, pos, pat)
        invariant
            pos <= v@.len(),
            n == v@.len(),
            plen == pat@.len(),
            plen >= 1,
            strip_prefix_rep(v@, pat@) == strip_prefix_rep(v@.skip(pos as int), pat@),
        decreases v@.len() - pos,
    {
        proof {
            assert(v@.skip(pos as int).skip(plen as int) =~= v@.skip((pos + plen) as int));
        }
        pos = pos + plen;
    }
    proof {
        assert(strip_prefix_rep(v@.skip(pos as int), pat@) == v@.skip(pos as int));
    }
    copy_range(v, pos, v.len())
}

/// Removes the trailing repetitions of the pattern.
fn strip_suffix_rep_chars(v: &Vec<char>, pat: &str) -> (r: Vec<char>)
    requires
        pat@.len() >= 1,
    ensures
        r@ == strip_suffix_rep(v@, pat@),
{
    let plen = pat.unicode_len();
    let mut end: usize = v.len();
    proof {
        assert(v@.take(v@.len() as int) =~= v@);
    }
    loop
        invariant
            end <= v@.len(),
            plen == pat@.len(),
            plen >= 1,
            strip_suffix_rep(v@, pat@) == strip_suffix_rep(v@.take(end as int), pat@),
        decreases end,
    {
        let ghost u = v@.take(end as int);
        if end >= plen && prefix_at(v, end - plen, pat) {
            proof {
                assert(has_suffix(u, pat@)) by {
                    assert(v@.skip((end - plen) as int).subrange(0, plen as int) =~= u.subrange(
                        u.len() - pat@.len(),
                        u.len() as int,
                    ));
                }
                assert(u.take(u.len() - pat@.len()) =~= v@.take((end - plen) as int));
            }
            end = end - plen;
        } else {
            proof {
                if end >= plen && has_suffix(u, pat@) {
                    assert(v@.skip((end - plen) as int).subrange(0, plen as int) =~= u.subrange(
                        u.len() - pat@.len(),
                        u.len() as int,
                    ));
                    assert(has_prefix(v@.skip((end - plen) as int), pat@));
                }
                assert(!has_suffix(u, pat@));
                assert(strip_suffix_rep(u, pat@) == u);
            }
            return copy_range(v, 0, end);
        }
    }
}

/// Strips the emphasis delimiters from a raw emphasis span.
pub fn strip_emph_chars(v: &Vec<char>) -> (r: Vec<char>)
    ensures
        r@ == strip_emphasis(v@),
{
    proof {
        reveal_strlit("'''''");
        reveal_strlit("'''");
        reveal_strlit("''");
    }
    let s = strip_prefix_rep_chars(v, "'''''");
    let s = strip_suffix_rep_chars(&s, "'''''");
    let s = strip_prefix_rep_chars(&s, "'''");
    let s = strip_suffix_rep_chars(&s, "'''");
    let s = strip_prefix_rep_chars(&s, "''");
    let s = strip_suffix_rep_chars(&s, "''");
    s
}

/// The state the walk threads along: completed text and the pending buffer.
pub open spec fn ext_finish(st: (Seq<char>, Seq<char>)) -> Seq<char> {
    if trim(st.1).len() > 0 {
        st.0 + trim(st.1)
    } else {
        st.0
    }
}

/// The full extraction of a node sequence, started from an empty state:
/// completed paragraphs followed by the trimmed remainder of the pending
/// buffer.
pub open spec fn ext_flat(ns: Seq<Node>, skip_lists: bool) -> Seq<char>
    decreases ns, 1int,
{
    ext_finish(ext_nodes(ns, skip_lists, Seq::empty(), Seq::empty()))
}

/// Walks a node sequence, threading the accumulator state left to right.
pub open spec fn ext_nodes(ns: Seq<Node>, skip_lists: bool, text: Seq<char>, pending: Seq<char>) -> (
    Seq<char>,
    Seq<char>,
)
    decreases ns, 0int,
{
    if ns.len() == 0 {
        (text, pending)
    } else {
        let st = ext_node(ns[0], skip_lists, text, pending);
        ext_nodes(ns.drop_first(), skip_lists, st.0, st.1)
    }
}

/// Walks the items of a list: each item's trimmed text, when non-empty, is
/// appended to the pending buffer followed by a single space.
pub open spec fn ext_items(items: Seq<Vec<Node>>, skip_lists: bool, pending: Seq<char>) -> Seq<
    char,
>
    decreases items, 0int,
{
    if items.len() == 0 {
        pending
    } else {
        let it = trim(ext_flat(items[0]@, skip_lists));
        let p2 = if it.len() > 0 {
            pending + it + seq![' ']
        } else {
            pending
        };
        ext_items(items.drop_first(), skip_lists, p2)
    }
}

/// What one node contributes to the accumulator state.
pub open spec fn ext_node(n: Node, skip_lists: bool, text: Seq<char>, pending: Seq<char>) -> (
    Seq<char>,
    Seq<char>,
)
    decreases n, 2int,
{
    match n {
        Node::Text { value } => (text, pending + value@),
        Node::Bold { raw } => (text, pending + strip_emphasis(raw@)),
        Node::Italic { raw } => (text, pending + strip_emphasis(raw@)),
        Node::BoldItalic { raw } => (text, pending + strip_emphasis(raw@)),
        Node::Link { text: children } => {
            let d = ext_flat(children@, skip_lists);
            if contains_sub(d, "Файл:"@) || contains_sub(d, "File:"@) {
                (text, pending)
            } else {
                (text, pending + d)
            }
        },
        Node::ExternalLink { nodes } => {
            let d = ext_flat(nodes@, skip_lists);
            if has_prefix(d, "http://"@) || has_prefix(d, "https://"@) {
                (text, pending)
            } else {
                (text, pending + d)
            }
        },
        Node::Heading { nodes } => {
            let h = trim(ext_flat(nodes@, skip_lists));
            let flushed = if pending.len() > 0 {
                text + trim(pending) + "\n\n"@
            } else {
                text
            };
            (flushed + h + "\n\n"@, Seq::empty())
        },
        Node::ParagraphBreak => {
            if trim(pending).len() > 0 {
                (text + trim(pending) + "\n\n"@, Seq::empty())
            } else {
                (text, pending)
            }
        },
        Node::UnorderedList { items } => {
            if skip_lists {
                (text, pending)
            } else {
                (text, ext_items(items@, skip_lists, pending))
            }
        },
        Node::OrderedList { items } => {
            if skip_lists {
                (text, pending)
            } else {
                (text, ext_items(items@, skip_lists, pending))
            }
        },
        Node::DefinitionList { items } => {
            if skip_lists {
                (text, pending)
            } else {
                (text, ext_items(items@, skip_lists, pending))
            }
        },
        Node::Preformatted { nodes } => (text, pending + ext_flat(nodes@, skip_lists)),
        Node::Tag { name, nodes } => {
            if name@ == "ref"@ {
                (text, pending)
            } else {
                (text, pending + ext_flat(nodes@, skip_lists))
            }
        },
        _ => (text, pending),
    }
}

/// Appends two newline characters, the paragraph separator.
fn push_sep(dst: &mut Vec<char>)
    ensures
        final(dst)@ == old(dst)@ + "\n\n"@,
{
    proof {
        reveal_strlit("\n\n");
    }
    dst.push('\n');
    dst.push('\n');
    proof {
        assert(final(dst)@ =~= old(dst)@ + "\n\n"@);
    }
}

/// Walks a node sequence, updating the accumulator state in place.
fn ext_nodes_exec(ns: &Vec<Node>, skip_lists: bool, text: &mut Vec<char>, pending: &mut Vec<char>)
    ensures
        (final(text)@, final(pending)@) == ext_nodes(ns@, skip_lists, old(text)@, old(pending)@),
    decreases ns@, 0int,
{
    let mut i: usize = 0;
    proof {
        assert(ns@.skip(0) =~= ns@);
    }
    while i < ns.len()
        invariant
            i <= ns@.len(),
            ext_nodes(ns@, skip_lists, old(text)@, old(pending)@) == ext_nodes(
                ns@.skip(i as int),
                skip_lists,
                text@,
                pending@,
            ),
        decreases ns@.len() - i,
    {
        proof {
            assert(ns@.skip(i as int)[0] == ns@[i as int]);
            assert(ns@.skip(i as int).drop_first() =~= ns@.skip(i as int + 1));
        }
        ext_node_exec(&ns[i], skip_lists, text, pending);
        i = i + 1;
    }
}

/// The full extraction of a node sequence from an empty state.
fn ext_flat_exec(ns: &Vec<Node>, skip_lists: bool) -> (r: Vec<char>)
    ensures
        r@ == ext_flat(ns@, skip_lists),
    decreases ns@, 1int,
{
    let mut text: Vec<char> = Vec::new();
    let mut pending: Vec<char> = Vec::new();
    ext_nodes_exec(ns, skip_lists, &mut text, &mut pending);
    let p = trim_chars(&pending);
    if p.len() > 0 {
        push_all(&mut text, &p);
    }
    text
}

/// Walks the items of a list.
fn ext_items_exec(items: &Vec<Vec<Node>>, skip_lists: bool, pending: &mut Vec<char>)
    ensures
        final(pending)@ == ext_items(items@, skip_lists, old(pending)@),
    decreases items@, 2int,
{
    let mut j: usize = 0;
    proof {
        assert(items@.skip(0) =~= items@);
    }
    while j < items.len()
        invariant
            j <= items@.len(),
            ext_items(items@, skip_lists, old(pending)@) == ext_items(
                items@.skip(j as int),
                skip_lists,
                pending@,
            ),
        decreases items@.len() - j,
    {
        proof {
            assert(items@.skip(j as int)[0] == items@[j as int]);
            assert(items@.skip(j as int).drop_first() =~= items@.skip(j as int + 1));
        }
        let ghost prev = pending@;
        let it = ext_flat_exec(&items[j], skip_lists);
        let t = trim_chars(&it);
        if t.len() > 0 {
            push_all(pending, &t);
            pending.push(' ');
        }
        proof {
            let itv = trim(ext_flat(items@[j as int]@, skip_lists));
            if itv.len() > 0 {
                assert(pending@ =~= prev + itv + seq![' ']);
            }
        }
        j = j + 1;
    }
}

/// What one node contributes, applied in place.
fn ext_node_exec(n: &Node, skip_lists: bool, text: &mut Vec<char>, pending: &mut Vec<char>)
    ensures
        (final(text)@, final(pending)@) == ext_node(*n, skip_lists, old(text)@, old(pending)@),
    decreases *n, 2int,
{
    match n {
        Node::Text { value } => {
            let vc = str_chars(value.as_str());
            push_all(pending, &vc);
        },
        Node::Bold { raw } => {
            let rc = str_chars(raw.as_str());
            let stripped = strip_emph_chars(&rc);
            push_all(pending, &stripped);
        },
        Node::Italic { raw } => {
            let rc = str_chars(raw.as_str());
            let stripped = strip_emph_chars(&rc);
            push_all(pending, &stripped);
        },
        Node::BoldItalic { raw } => {
            let rc = str_chars(raw.as_str());
            let stripped = strip_emph_chars(&rc);
            push_all(pending, &stripped);
        },
        Node::Link { text: children } => {
            let d = ext_flat_exec(children, skip_lists);
            proof {
                reveal_strlit("Файл:");
                reveal_strlit("File:");
            }
            if !contains_pat(&d, "Файл:") && !contains_pat(&d, "File:") {
                push_all(pending, &d);
            }
        },
        Node::ExternalLink { nodes } => {
            let d = ext_flat_exec(nodes, skip_lists);
            proof {
                reveal_strlit("http://");
                reveal_strlit("https://");
                assert(d@.skip(0) =~= d@);
            }
            if !prefix_at(&d, 0, "http://") && !prefix_at(&d, 0, "https://") {
                push_all(pending, &d);
            }
        },
        Node::Heading { nodes } => {
            let h = ext_flat_exec(nodes, skip_lists);
            let ht = trim_chars(&h);
            if pending.len() > 0 {
                let pt = trim_chars(pending);
                push_all(text, &pt);
                push_sep(text);
                pending.clear();
            }
            push_all(text, &ht);
            push_sep(text);
        },
        Node::ParagraphBreak => {
            let pt = trim_chars(pending);
            if pt.len() > 0 {
                push_all(text, &pt);
                push_sep(text);
                pending.clear();
            }
        },
        Node::UnorderedList { items } => {
            if !skip_lists {
                ext_items_exec(items, skip_lists, pending);
            }
        },
        Node::OrderedList { items } => {
            if !skip_lists {
                ext_items_exec(items, skip_lists, pending);
            }
        },
        Node::DefinitionList { items } => {
            if !skip_lists {
                ext_items_exec(items, skip_lists, pending);
            }
        },
        Node::Preformatted { nodes } => {
            let d = ext_flat_exec(nodes, skip_lists);
            push_all(pending, &d);
        },
        Node::Tag { name, nodes } => {
            let rf = String::from_str("ref");
            if !name.eq(&rf) {
                let d = ext_flat_exec(nodes, skip_lists);
                push_all(pending, &d);
            }
        },
        _ => {
        },
    }
}

proof fn lemma_no_prefix_at(s: Seq<char>, p: Seq<char>, j: int)
    requires
        0 <= j < p.len(),
        j < s.len(),
        s[j] != p[j],
    ensures
        !has_prefix(s, p),
{
    if has_prefix(s, p) {
        assert(s.subrange(0, p.len() as int)[j] == p[j]);
    }
}

proof fn lemma_no_suffix_at(s: Seq<char>, p: Seq<char>, j: int)
    requires
        0 <= j < p.len(),
        s.len() >= p.len(),
        s[s.len() - p.len() + j] != p[j],
    ensures
        !has_suffix(s, p),
{
    if has_suffix(s, p) {
        assert(s.subrange(s.len() - p.len(), s.len() as int)[j] == p[j]);
    }
}

proof fn lemma_strip_prefix_exact(w: Seq<char>, p: Seq<char>)
    requires
        p.len() >= 1,
        w.len() == 0 || w[0] != p[0],
    ensures
        strip_prefix_rep(p + w, p) == w,
{
    let s = p + w;
    assert(has_prefix(s, p)) by {
        assert(s.subrange(0, p.len() as int) =~= p);
    }
    assert(s.skip(p.len() as int) =~= w);
    if w.len() > 0 {
        lemma_no_prefix_at(w, p, 0);
    }
    assert(!has_prefix(w, p));
    assert(strip_prefix_rep(s, p) == strip_prefix_rep(w, p));
    assert(strip_prefix_rep(w, p) == w);
}

proof fn lemma_strip_suffix_exact(w: Seq<char>, p: Seq<char>)
    requires
        p.len() >= 1,
        w.len() == 0 || w.last() != p.last(),
    ensures
        strip_suffix_rep(w + p, p) == w,
{
    let s = w + p;
    assert(has_suffix(s, p)) by {
        assert(s.subrange(s.len() - p.len(), s.len() as int) =~= p);
    }
    assert(s.take(s.len() - p.len()) =~= w);
    if w.len() >= p.len() {
        lemma_no_suffix_at(w, p, p.len() - 1);
    }
    assert(!has_suffix(w, p));
    assert(strip_suffix_rep(s, p) == strip_suffix_rep(w, p));
    assert(strip_suffix_rep(w, p) == w);
}

/// Emphasis delimiters around a span that itself neither starts nor ends
/// with a quote are stripped exactly: the bold, italic and bold-italic
/// wrappings all yield the bare span.
pub proof fn lemma_strip_emphasis_delimiters(w: Seq<char>)
    requires
        w.len() > 0,
        w[0] != '\'',
        w.last() != '\'',
    ensures
        strip_emphasis("'''''"@ + w + "'''''"@) == w,
        strip_emphasis("'''"@ + w + "'''"@) == w,
        strip_emphasis("''"@ + w + "''"@) == w,
{
    reveal_strlit("'''''");
    reveal_strlit("'''");
    reveal_strlit("''");
    let q5 = "'''''"@;
    let q3 = "'''"@;
    let q2 = "''"@;
    // the bold-italic wrapping: the five-quote passes strip it bare
    let s5 = q5 + w + q5;
    assert(s5 =~= q5 + (w + q5));
    assert((w + q5)[0] == w[0]);
    lemma_strip_prefix_exact(w + q5, q5);
    lemma_strip_suffix_exact(w, q5);
    assert(strip_emphasis(s5) == w) by {
        lemma_no_prefix_at(w, q3, 0);
        if w.len() >= q3.len() {
            lemma_no_suffix_at(w, q3, 2);
        }
        lemma_no_prefix_at(w, q2, 0);
        if w.len() >= q2.len() {
            lemma_no_suffix_at(w, q2, 1);
        }
    }
    // the bold wrapping: the five-quote passes see the span's own edge
    let s3 = q3 + w + q3;
    assert(s3[3] == w[0]);
    lemma_no_prefix_at(s3, q5, 3);
    assert(s3[s3.len() - 4] == w.last());
    lemma_no_suffix_at(s3, q5, 1);
    assert(s3 =~= q3 + (w + q3));
    assert((w + q3)[0] == w[0]);
    lemma_strip_prefix_exact(w + q3, q3);
    lemma_strip_suffix_exact(w, q3);
    assert(strip_emphasis(s3) == w) by {
        lemma_no_prefix_at(w, q2, 0);
        if w.len() >= q2.len() {
            lemma_no_suffix_at(w, q2, 1);
        }
    }
    // the italic wrapping: only the two-quote passes fire
    let s2 = q2 + w + q2;
    assert(s2[2] == w[0]);
    lemma_no_prefix_at(s2, q5, 2);
    assert(s2[s2.len() - 3] == w.last());
    lemma_no_suffix_at(s2, q5, 2);
    lemma_no_prefix_at(s2, q3, 2);
    lemma_no_suffix_at(s2, q3, 0);
    assert(s2 =~= q2 + (w + q2));
    assert((w + q2)[0] == w[0]);
    lemma_strip_prefix_exact(w + q2, q2);
    lemma_strip_suffix_exact(w, q2);
    assert(strip_emphasis(s2) == w);
}

/// A heading always flushes: a non-empty pending paragraph followed by a
/// heading yields two separate paragraphs — the pending text, trimmed and
/// closed with a blank line, then the heading's own trimmed text as its own
/// paragraph — and the pending buffer is left empty.
pub proof fn lemma_heading_flushes(
    nodes: Vec<Node>,
    skip_lists: bool,
    text: Seq<char>,
    pending: Seq<char>,
)
    requires
        pending.len() > 0,
    ensures
        ext_node(Node::Heading { nodes }, skip_lists, text, pending).0 =~= text + trim(pending)
            + "\n\n"@ + trim(ext_flat(nodes@, skip_lists)) + "\n\n"@,
        ext_node(Node::Heading { nodes }, skip_lists, text, pending).1 == Seq::<char>::empty(),
{
}

/// A link whose display text contains a media-caption marker is omitted
/// entirely: it changes neither the finished text nor the pending paragraph.
pub proof fn lemma_media_caption_link_dropped(
    children: Vec<Node>,
    skip_lists: bool,
    text: Seq<char>,
    pending: Seq<char>,
)
    requires
        contains_sub(ext_flat(children@, skip_lists), "Файл:"@) || contains_sub(
            ext_flat(children@, skip_lists),
            "File:"@,
        ),
    ensures
        ext_node(Node::Link { text: children }, skip_lists, text, pending) == (text, pending),
{
}

/// With list skipping on, a list of any kind contributes nothing to either
/// part of the state.
pub proof fn lemma_lists_skipped(items: Vec<Vec<Node>>, text: Seq<char>, pending: Seq<char>)
    ensures
        ext_node(Node::UnorderedList { items }, true, text, pending) == (text, pending),
        ext_node(Node::OrderedList { items }, true, text, pending) == (text, pending),
        ext_node(Node::DefinitionList { items }, true, text, pending) == (text, pending),
{
}

/// Extracts plain paragraph text from a node sequence: paragraphs are
/// separated by blank lines, in source order.
pub fn extract_text_from_nodes(nodes: &Vec<Node>, skip_lists: bool) -> (r: String)
    ensures
        r@ == ext_flat(nodes@, skip_lists),
{
    let v = ext_flat_exec(nodes, skip_lists);
    chars_to_string(&v)
}

} // verus!
