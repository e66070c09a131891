//! The text of a node of the document, in the several ways the converter
//! reads it: with inline Markdown marks, as a heading, as a table cell, and
//! the language named by a code block's classes.
use vstd::prelude::*;
use crate::dom::{
    attr_of, compile_selector, element_first_match, is_element, lemma_nodes_view, name_of,
    node_at, node_view, nodes_view, select_first_below, selector_parses, HtmlNode, KindView,
    NodeKind, NodeView,
};
use crate::pattern::{apply_regex, collapse_whitespace, collapse_ws, replace_or_keep};
use crate::text::{
    char_is_alphanumeric, chars_eq, contains, contains_str, copy_chars, eq_str, words, words_of, find, find_chars, is_alphanumeric, join, join_chars, lit,
    lowercase, push_chars, push_str, subvec, to_lowercase, trim, trim_chars, views,
};

verus! {

/// The pattern of citation marks such as `[1]`, `[16]`, `[note 4]` and `[ ]`.
pub const CITATION: &'static str = "\\[\\s*(?:note\\s+)?[\\w\\d]+\\s*\\]|\\[\\s*\\]";

/// Whether a node is an element named `s`.
pub open spec fn named(n: NodeView, s: Seq<char>) -> bool {
    is_element(n) && name_of(n) == s
}

// ---------------------------------------------------------------------------
// All text below a node (`ElementRef::text`)
// ---------------------------------------------------------------------------

/// The text nodes of a subtree, concatenated in document order.
pub open spec fn text_of(n: NodeView) -> Seq<char>
    decreases n,
{
    match n.kind {
        KindView::Text(t) => t,
        _ => texts_of(n.children),
    }
}

pub open spec fn texts_of(cs: Seq<NodeView>) -> Seq<char>
    decreases cs,
{
    if cs.len() == 0 {
        seq![]
    } else {
        texts_of(cs.drop_last()) + text_of(cs.last())
    }
}

/// Appends the text nodes of the subtree at `n` to `out`.
pub fn push_text_of(n: &HtmlNode, out: &mut Vec<char>)
    ensures
        final(out)@ == old(out)@ + text_of(node_view(*n)),
    decreases *n,
{
    match &n.kind {
        NodeKind::Text(t) => {
            push_chars(out, t);
            return ;
        },
        _ => {},
    }
    let ghost cv = nodes_view(n.children@);
    proof {
        lemma_nodes_view(n.children@);
        assert(text_of(node_view(*n)) == texts_of(cv));
    }
    let len = n.children.len();
    let mut i: usize = 0;
    let ghost start = out@;
    assert(cv.take(0) =~= seq![]);
    while i < len
        invariant
            len == n.children.len(),
            i <= len,
            cv == nodes_view(n.children@),
            cv.len() == len,
            forall|k: int| 0 <= k < len ==> #[trigger] cv[k] == node_view(n.children@[k]),
            out@ == start + texts_of(cv.take(i as int)),
        decreases len - i,
    {
        assert(cv.take(i + 1).drop_last() =~= cv.take(i as int));
        push_text_of(&n.children[i], out);
        i = i + 1;
        assert(out@ =~= start + texts_of(cv.take(i as int)));
    }
    assert(cv.take(len as int) =~= cv);
}

// ---------------------------------------------------------------------------
// Text with inline marks (`collect_text`, `get_text`)
// ---------------------------------------------------------------------------

/// Elements whose content never counts as text.
pub open spec fn is_invisible(name: Seq<char>) -> bool {
    name == "script"@ || name == "style"@ || name == "noscript"@ || name == "iframe"@ || name
        == "svg"@ || name == "canvas"@
}

pub fn invisible(name: &Vec<char>) -> (r: bool)
    ensures
        r == is_invisible(name@),
{
    eq_str(name, "script") || eq_str(name, "style") || eq_str(name, "noscript") || eq_str(
        name,
        "iframe",
    ) || eq_str(name, "svg") || eq_str(name, "canvas")
}

/// `s` between `mark` and `mark`, or nothing when `s` is empty.
pub open spec fn wrapped(mark: Seq<char>, s: Seq<char>) -> Seq<char> {
    if s.len() > 0 {
        mark + s + mark
    } else {
        seq![]
    }
}

/// What a child node adds to the text of its parent, named `parent`: text
/// as it stands, a line break as a space, bold and italic runs and inline
/// code marked, and nothing from scripts, styles and the like.
pub open spec fn collected_piece(c: NodeView, parent: Seq<char>) -> Seq<char>
    decreases c,
{
    match c.kind {
        KindView::Text(t) => t,
        KindView::Element { name, .. } => {
            if is_invisible(name) {
                seq![]
            } else if name == "br"@ {
                seq![' ']
            } else if name == "strong"@ || name == "b"@ {
                wrapped("**"@, trim(collected_seq(c.children, name)))
            } else if name == "em"@ || name == "i"@ {
                wrapped("*"@, trim(collected_seq(c.children, name)))
            } else if name == "code"@ {
                if parent == "pre"@ {
                    seq![]
                } else {
                    wrapped("`"@, trim(text_of(c)))
                }
            } else {
                collected_seq(c.children, name)
            }
        },
        KindView::Other => seq![],
    }
}

pub open spec fn collected_seq(cs: Seq<NodeView>, parent: Seq<char>) -> Seq<char>
    decreases cs,
{
    if cs.len() == 0 {
        seq![]
    } else {
        collected_seq(cs.drop_last(), parent) + collected_piece(cs.last(), parent)
    }
}

proof fn lemma_collected_seq_append(a: Seq<NodeView>, b: Seq<NodeView>, parent: Seq<char>)
    ensures
        collected_seq(a + b, parent) == collected_seq(a, parent) + collected_seq(b, parent),
    decreases b.len(),
{
    if b.len() == 0 {
        assert(a + b =~= a);
    } else {
        lemma_collected_seq_append(a, b.drop_last(), parent);
        assert((a + b).drop_last() =~= a + b.drop_last());
    }
}

/// A line break separates the text around it by one space: the text
/// collected from children around a `br` element is the text of the
/// children before it, a space, and the text of the children after it.
pub proof fn law_line_break_is_a_space(cs: Seq<NodeView>, i: int, parent: Seq<char>)
    requires
        0 <= i < cs.len(),
        named(cs[i], "br"@),
    ensures
        collected_seq(cs, parent) == collected_seq(cs.take(i), parent) + seq![' ']
            + collected_seq(cs.skip(i + 1), parent),
{
    reveal_strlit("br");
    reveal_strlit("script");
    reveal_strlit("style");
    reveal_strlit("noscript");
    reveal_strlit("iframe");
    reveal_strlit("svg");
    reveal_strlit("canvas");
    let one = seq![cs[i]];
    assert(cs =~= cs.take(i) + one + cs.skip(i + 1));
    lemma_collected_seq_append(cs.take(i) + one, cs.skip(i + 1), parent);
    lemma_collected_seq_append(cs.take(i), one, parent);
    assert(one.drop_last() =~= Seq::<NodeView>::empty());
    assert(one.last() == cs[i]);
    assert(collected_seq(one.drop_last(), parent) =~= Seq::<char>::empty());
    assert(collected_seq(one, parent) =~= collected_piece(cs[i], parent));
    let name = name_of(cs[i]);
    assert(name.len() == 2);
    assert(name != "script"@ && name != "style"@ && name != "noscript"@ && name != "iframe"@
        && name != "svg"@ && name != "canvas"@) by {
        assert("script"@.len() == 6);
        assert("style"@.len() == 5);
        assert("noscript"@.len() == 8);
        assert("iframe"@.len() == 6);
        assert("svg"@.len() == 3);
        assert("canvas"@.len() == 6);
    }
    assert(!is_invisible(name));
    assert(collected_piece(cs[i], parent) == seq![' ']);
}

/// The text of an element, child by child (`collect_text`).
pub open spec fn collected(n: NodeView) -> Seq<char> {
    collected_seq(n.children, name_of(n))
}

/// `get_text`: the collected text trimmed, its whitespace runs collapsed to
/// one space, and citation marks removed.
pub open spec fn get_text(n: NodeView) -> Seq<char> {
    apply_regex(CITATION@, collapse_ws(trim(collected(n))), seq![])
}

fn push_wrapped(out: &mut Vec<char>, mark: &str, s: &Vec<char>)
    ensures
        final(out)@ == old(out)@ + wrapped(mark@, s@),
{
    if s.len() > 0 {
        push_str(out, mark);
        push_chars(out, s);
        push_str(out, mark);
    } else {
        assert(old(out)@ + wrapped(mark@, s@) =~= old(out)@);
    }
}

/// Appends the text of the children of `n` to `out`, `parent` being the name
/// of `n` (`collect_text`).
pub fn collect_text(n: &HtmlNode, parent: &Vec<char>, out: &mut Vec<char>)
    ensures
        final(out)@ == old(out)@ + collected_seq(node_view(*n).children, parent@),
    decreases *n,
{
    let ghost cv = nodes_view(n.children@);
    proof {
        lemma_nodes_view(n.children@);
        assert(node_view(*n).children == cv);
    }
    let len = n.children.len();
    let mut i: usize = 0;
    let ghost start = out@;
    assert(cv.take(0) =~= seq![]);
    while i < len
        invariant
            len == n.children.len(),
            i <= len,
            cv == nodes_view(n.children@),
            cv.len() == len,
            forall|k: int| 0 <= k < len ==> #[trigger] cv[k] == node_view(n.children@[k]),
            out@ == start + collected_seq(cv.take(i as int), parent@),
        decreases len - i,
    {
        assert(cv.take(i + 1).drop_last() =~= cv.take(i as int));
        assert(cv.take(i + 1).last() == cv[i as int]);
        let c = &n.children[i];
        let ghost before = out@;
        let ghost cview = node_view(*c);
        match &c.kind {
            NodeKind::Text(t) => {
                push_chars(out, t);
            },
            NodeKind::Element { name, .. } => {
                proof {
                    lemma_nodes_view(c.children@);
                }
                if invisible(name) {
                } else if eq_str(name, "br") {
                    out.push(' ');
                } else if eq_str(name, "strong") || eq_str(name, "b") {
                    let mut inner: Vec<char> = Vec::new();
                    collect_text(c, name, &mut inner);
                    let inner = trim_chars(&inner);
                    push_wrapped(out, "**", &inner);
                } else if eq_str(name, "em") || eq_str(name, "i") {
                    let mut inner: Vec<char> = Vec::new();
                    collect_text(c, name, &mut inner);
                    let inner = trim_chars(&inner);
                    push_wrapped(out, "*", &inner);
                } else if eq_str(name, "code") {
                    if eq_str(parent, "pre") {
                    } else {
                        let mut t: Vec<char> = Vec::new();
                        push_text_of(c, &mut t);
                        let t = trim_chars(&t);
                        push_wrapped(out, "`", &t);
                    }
                } else {
                    collect_text(c, name, out);
                }
            },
            NodeKind::Other => {},
        }
        assert(out@ =~= before + collected_piece(cview, parent@)) by {
            reveal_strlit(" ");
        }
        i = i + 1;
        assert(out@ =~= start + collected_seq(cv.take(i as int), parent@));
    }
    assert(cv.take(len as int) =~= cv);
}

/// The text of an element with inline marks, trimmed, whitespace runs
/// collapsed and citation marks removed.
pub fn get_text_of(n: &HtmlNode) -> (r: Vec<char>)
    ensures
        r@ == get_text(node_view(*n)),
{
    let mut raw: Vec<char> = Vec::new();
    let empty: Vec<char> = Vec::new();
    let parent = match n.element_name() {
        Some(name) => name,
        None => &empty,
    };
    collect_text(n, parent, &mut raw);
    let t = trim_chars(&raw);
    let t = collapse_whitespace(&t);
    proof {
        reveal_strlit("");
    }
    let r = replace_or_keep(CITATION, &t, "");
    assert(""@ =~= Seq::<char>::empty());
    r
}

// ---------------------------------------------------------------------------
// Heading text (`get_heading_text`)
// ---------------------------------------------------------------------------

/// A link to edit a section: an `a` whose `href` holds `action=edit`, or
/// whose text, trimmed, is `edit`.
pub open spec fn is_edit_link(n: NodeView) -> bool {
    &&& named(n, "a"@)
    &&& (match attr_of(n, "href"@) {
        Some(h) => contains(h, "action=edit"@),
        None => false,
    } || trim(text_of(n)) == "edit"@)
}

/// The trimmed text nodes of a subtree that are neither empty nor an edit
/// label, leaving out everything inside an edit link.
pub open spec fn heading_parts(n: NodeView) -> Seq<Seq<char>>
    decreases n,
{
    match n.kind {
        KindView::Text(t) => {
            let u = trim(t);
            if u.len() > 0 && u != "edit"@ && u != "[edit]"@ {
                seq![u]
            } else {
                seq![]
            }
        },
        _ => if is_edit_link(n) {
            seq![]
        } else {
            heading_parts_seq(n.children)
        },
    }
}

pub open spec fn heading_parts_seq(cs: Seq<NodeView>) -> Seq<Seq<char>>
    decreases cs,
{
    if cs.len() == 0 {
        seq![]
    } else {
        heading_parts_seq(cs.drop_last()) + heading_parts(cs.last())
    }
}

/// Words with every word that repeats the one just before it left out.
pub open spec fn dedup_adjacent(ws: Seq<Seq<char>>) -> Seq<Seq<char>>
    decreases ws.len(),
{
    if ws.len() == 0 {
        seq![]
    } else if ws.len() > 1 && ws.last() == ws[ws.len() - 2] {
        dedup_adjacent(ws.drop_last())
    } else {
        dedup_adjacent(ws.drop_last()).push(ws.last())
    }
}

/// The text of a heading: the words of its parts, a word that repeats the
/// word before it left out, joined by single spaces.
pub open spec fn heading_text(n: NodeView) -> Seq<char> {
    join(dedup_adjacent(words(join(heading_parts(n), " "@))), " "@)
}

fn edit_link(n: &HtmlNode) -> (r: bool)
    ensures
        r == is_edit_link(node_view(*n)),
{
    if !n.is_named("a") {
        return false;
    }
    let by_href = match n.attr("href") {
        Some(h) => contains_str(h, "action=edit"),
        None => false,
    };
    if by_href {
        return true;
    }
    let mut text: Vec<char> = Vec::new();
    push_text_of(n, &mut text);
    assert(text@ =~= text_of(node_view(*n)));
    eq_str(&trim_chars(&text), "edit")
}

fn push_heading_parts(n: &HtmlNode, parts: &mut Vec<Vec<char>>)
    ensures
        views(final(parts)) == views(old(parts)) + heading_parts(node_view(*n)),
    decreases *n,
{
    let ghost start = views(parts);
    match &n.kind {
        NodeKind::Text(t) => {
            let u = trim_chars(t);
            if u.len() > 0 && !eq_str(&u, "edit") && !eq_str(&u, "[edit]") {
                parts.push(u);
                assert(views(parts) =~= start + seq![u@]);
            } else {
                assert(views(parts) =~= start + Seq::<Seq<char>>::empty());
            }
            return ;
        },
        _ => {},
    }
    if edit_link(n) {
        assert(views(parts) =~= start + Seq::<Seq<char>>::empty());
        return ;
    }
    let ghost cv = nodes_view(n.children@);
    proof {
        lemma_nodes_view(n.children@);
        assert(heading_parts(node_view(*n)) == heading_parts_seq(cv));
    }
    let len = n.children.len();
    let mut i: usize = 0;
    assert(cv.take(0) =~= seq![]);
    assert(views(parts) =~= start + heading_parts_seq(cv.take(0)));
    while i < len
        invariant
            len == n.children.len(),
            i <= len,
            cv == nodes_view(n.children@),
            cv.len() == len,
            forall|k: int| 0 <= k < len ==> #[trigger] cv[k] == node_view(n.children@[k]),
            views(parts) == start + heading_parts_seq(cv.take(i as int)),
        decreases len - i,
    {
        assert(cv.take(i + 1).drop_last() =~= cv.take(i as int));
        push_heading_parts(&n.children[i], parts);
        i = i + 1;
        assert(views(parts) =~= start + heading_parts_seq(cv.take(i as int)));
    }
    assert(cv.take(len as int) =~= cv);
}

/// The text of a heading without its edit links, with a word that repeats
/// the word before it left out.
pub fn get_heading_text(n: &HtmlNode) -> (r: Vec<char>)
    ensures
        r@ == heading_text(node_view(*n)),
{
    let mut parts: Vec<Vec<char>> = Vec::new();
    assert(views(&parts) =~= seq![]);
    push_heading_parts(n, &mut parts);
    assert(views(&parts) =~= heading_parts(node_view(*n)));
    let t = join_chars(&parts, " ");
    let ws = words_of(&t);
    let ghost wv = views(&ws);
    let mut kept: Vec<Vec<char>> = Vec::new();
    let len = ws.len();
    let mut i: usize = 0;
    assert(wv.take(0) =~= seq![]);
    while i < len
        invariant
            len == ws.len(),
            i <= len,
            wv == views(&ws),
            wv.len() == len,
            views(&kept) == dedup_adjacent(wv.take(i as int)),
        decreases len - i,
    {
        let ghost before = views(&kept);
        assert(wv.take(i + 1).drop_last() =~= wv.take(i as int));
        assert(wv.take(i + 1).last() == ws@[i as int]@);
        if i > 0 && chars_eq(&ws[i], &ws[i - 1]) {
            assert(wv.take(i + 1)[i - 1] == ws@[i - 1]@);
            assert(views(&kept) =~= dedup_adjacent(wv.take(i + 1)));
        } else {
            if i > 0 {
                assert(wv.take(i + 1)[i - 1] == ws@[i - 1]@);
            }
            kept.push(copy_chars(&ws[i]));
            assert(views(&kept) =~= before.push(ws@[i as int]@));
            assert(views(&kept) =~= dedup_adjacent(wv.take(i + 1)));
        }
        i = i + 1;
    }
    assert(wv.take(len as int) =~= wv);
    join_chars(&kept, " ")
}

// ---------------------------------------------------------------------------
// Text of a table cell
// ---------------------------------------------------------------------------

/// Elements whose text does not belong to the cell that holds them: the
/// parts of a nested table, and scripts and styles.
pub open spec fn is_table_part(name: Seq<char>) -> bool {
    name == "table"@ || name == "tbody"@ || name == "thead"@ || name == "tfoot"@ || name == "tr"@
        || name == "td"@ || name == "th"@
}

pub open spec fn is_script_part(name: Seq<char>) -> bool {
    name == "script"@ || name == "style"@ || name == "noscript"@
}

pub fn table_part(name: &Vec<char>) -> (r: bool)
    ensures
        r == (is_table_part(name@) || is_script_part(name@)),
{
    eq_str(name, "table") || eq_str(name, "tbody") || eq_str(name, "thead") || eq_str(name, "tfoot")
        || eq_str(name, "tr") || eq_str(name, "td") || eq_str(name, "th") || eq_str(name, "script")
        || eq_str(name, "style") || eq_str(name, "noscript")
}

/// An element below a cell whose text is left out of the cell's text.
pub open spec fn hides_text(m: NodeView) -> bool {
    is_element(m) && (is_table_part(name_of(m)) || is_script_part(name_of(m)))
}

/// The trimmed, non-empty texts below `m` in document order, leaving out
/// every text that lies inside a nested table (or a script or style) below
/// the cell. `hidden` says whether an element between the cell and `m`
/// already hides text; `is_cell` whether `m` is the cell itself.
pub open spec fn cell_parts(m: NodeView, hidden: bool, is_cell: bool) -> Seq<Seq<char>>
    decreases m,
{
    cell_parts_seq(m.children, hidden || (!is_cell && hides_text(m)))
}

/// The texts of a run of siblings whose parent hides text when `hidden`.
pub open spec fn cell_parts_seq(cs: Seq<NodeView>, hidden: bool) -> Seq<Seq<char>>
    decreases cs,
{
    if cs.len() == 0 {
        seq![]
    } else {
        cell_parts_seq(cs.drop_last(), hidden) + match cs.last().kind {
            KindView::Text(t) => if !hidden && trim(t).len() > 0 {
                seq![trim(t)]
            } else {
                seq![]
            },
            _ => cell_parts(cs.last(), hidden, false),
        }
    }
}

/// The text of a table cell: its texts joined by spaces, citation marks
/// removed, trimmed, whitespace runs collapsed; text of a table nested in
/// the cell is left out.
pub open spec fn cell_text(cell: NodeView) -> Seq<char> {
    collapse_ws(trim(apply_regex(CITATION@, join(cell_parts(cell, false, true), " "@), seq![])))
}

fn push_cell_parts(m: &HtmlNode, hidden: bool, is_cell: bool, parts: &mut Vec<Vec<char>>)
    ensures
        views(final(parts)) == views(old(parts)) + cell_parts(node_view(*m), hidden, is_cell),
    decreases *m,
{
    let ghost start = views(parts);
    let ghost mv = node_view(*m);
    let inner = hidden || (!is_cell && match m.element_name() {
        Some(name) => table_part(name),
        None => false,
    });
    let ghost cv = nodes_view(m.children@);
    proof {
        lemma_nodes_view(m.children@);
        assert(mv.children == cv);
        assert(inner == (hidden || (!is_cell && hides_text(mv))));
    }
    let len = m.children.len();
    let mut i: usize = 0;
    assert(cv.take(0) =~= seq![]);
    assert(views(parts) =~= start + cell_parts_seq(cv.take(0), inner));
    while i < len
        invariant
            len == m.children.len(),
            i <= len,
            cv == nodes_view(m.children@),
            cv.len() == len,
            forall|k: int| 0 <= k < len ==> #[trigger] cv[k] == node_view(m.children@[k]),
            views(parts) == start + cell_parts_seq(cv.take(i as int), inner),
        decreases len - i,
    {
        assert(cv.take(i + 1).drop_last() =~= cv.take(i as int));
        assert(cv.take(i + 1).last() == cv[i as int]);
        let c = &m.children[i];
        let ghost before = views(parts);
        match &c.kind {
            NodeKind::Text(t) => {
                let u = trim_chars(t);
                if !inner && u.len() > 0 {
                    parts.push(u);
                    assert(views(parts) =~= before + seq![u@]);
                } else {
                    assert(views(parts) =~= before + Seq::<Seq<char>>::empty());
                }
            },
            _ => {
                push_cell_parts(c, inner, false, parts);
            },
        }
        i = i + 1;
        assert(views(parts) =~= start + cell_parts_seq(cv.take(i as int), inner));
    }
    assert(cv.take(len as int) =~= cv);
}

/// The text of a table cell, without the text of tables nested in it.
pub fn get_cell_text(cell: &HtmlNode) -> (r: Vec<char>)
    ensures
        r@ == cell_text(node_view(*cell)),
{
    let mut parts: Vec<Vec<char>> = Vec::new();
    assert(views(&parts) =~= seq![]);
    push_cell_parts(cell, false, true, &mut parts);
    assert(views(&parts) =~= cell_parts(node_view(*cell), false, true));
    let t = join_chars(&parts, " ");
    proof {
        reveal_strlit("");
    }
    let t = replace_or_keep(CITATION, &t, "");
    assert(""@ =~= Seq::<char>::empty());
    let t = trim_chars(&t);
    collapse_whitespace(&t)
}

// ---------------------------------------------------------------------------
// Language of a code block (`get_lang`)
// ---------------------------------------------------------------------------

/// The index of the first character at or after `i` that is not
/// alphanumeric, or the length of `s`.
pub open spec fn alnum_end(s: Seq<char>, i: int) -> int
    decreases s.len() - i,
{
    if 0 <= i < s.len() && is_alphanumeric(s[i]) {
        alnum_end(s, i + 1)
    } else {
        i
    }
}

/// The language named in `class` by the first of `prefixes` that occurs in
/// it: the alphanumeric run after that prefix, lowercased.
pub open spec fn lang_in(class: Seq<char>, prefixes: Seq<Seq<char>>) -> Option<Seq<char>>
    decreases prefixes.len(),
{
    if prefixes.len() == 0 {
        None
    } else {
        match find(class, prefixes[0]) {
            Some(pos) => {
                let start = pos + prefixes[0].len();
                Some(lowercase(class.subrange(start, alnum_end(class, start))))
            },
            None => lang_in(class, prefixes.drop_first()),
        }
    }
}

pub open spec fn code_prefixes() -> Seq<Seq<char>> {
    seq!["language-"@, "lang-"@, "prism-language-"@, "hljs-"@]
}

pub open spec fn pre_prefixes() -> Seq<Seq<char>> {
    seq!["language-"@, "lang-"@]
}

/// The first `code` element below the `pre` element `n`, as `scraper`
/// selects it in the document `html`.
pub open spec fn first_code(html: Seq<char>, n: NodeView) -> Option<NodeView> {
    if selector_parses("code"@) && n.pos <= usize::MAX {
        match element_first_match(html, n.pos as usize, "code"@) {
            Some(p) => node_at(n, p as nat),
            None => None,
        }
    } else {
        None
    }
}

/// `get_lang`: the language named by the classes of the first `code`
/// element inside, else by the classes of the element itself, else empty.
pub open spec fn lang_of(html: Seq<char>, n: NodeView) -> Seq<char> {
    let from_code = match first_code(html, n) {
        Some(code) => match attr_of(code, "class"@) {
            Some(class) => lang_in(class, code_prefixes()),
            None => None,
        },
        None => None,
    };
    match from_code {
        Some(l) => l,
        None => match attr_of(n, "class"@) {
            Some(class) => match lang_in(class, pre_prefixes()) {
                Some(l) => l,
                None => seq![],
            },
            None => seq![],
        },
    }
}

fn alnum_end_exec(s: &Vec<char>, start: usize) -> (r: usize)
    requires
        start <= s.len(),
    ensures
        start <= r <= s.len(),
        r == alnum_end(s@, start as int),
{
    let mut i = start;
    while i < s.len() && char_is_alphanumeric(s[i])
        invariant
            start <= i <= s.len(),
            alnum_end(s@, start as int) == alnum_end(s@, i as int),
        decreases s.len() - i,
    {
        i = i + 1;
    }
    i
}

/// The language after `prefix` in `class`, when `prefix` occurs in it.
fn lang_after(class: &Vec<char>, prefix: &str) -> (r: Option<Vec<char>>)
    ensures
        r matches Some(l) ==> find(class@, prefix@) matches Some(pos) && l@ == lowercase(
            class@.subrange(pos + prefix@.len(), alnum_end(class@, pos + prefix@.len())),
        ),
        r is None ==> find(class@, prefix@) is None,
{
    let p = lit(prefix);
    match find_chars(class, &p) {
        Some(pos) => {
            proof {
                crate::text::lemma_find_from_occurs(class@, p@, 0);
                assert(crate::text::occurs_at(class@, p@, pos as int));
                assert(pos + p.len() <= class.len());
            }
            let start = pos + p.len();
            let end = alnum_end_exec(class, start);
            let run = subvec(class, start, end);
            Some(to_lowercase(&run))
        },
        None => None,
    }
}

fn lang_in_code_class(class: &Vec<char>) -> (r: Option<Vec<char>>)
    ensures
        r matches Some(l) ==> lang_in(class@, code_prefixes()) == Some(l@),
        r is None ==> lang_in(class@, code_prefixes()) is None,
{
    let ghost ps = code_prefixes();
    let ghost p1 = ps.drop_first();
    let ghost p2 = p1.drop_first();
    let ghost p3 = p2.drop_first();
    assert(p1 =~= seq!["lang-"@, "prism-language-"@, "hljs-"@]);
    assert(p2 =~= seq!["prism-language-"@, "hljs-"@]);
    assert(p3 =~= seq!["hljs-"@]);
    assert(p3.drop_first() =~= Seq::<Seq<char>>::empty());
    assert(lang_in(class@, p3.drop_first()) is None);
    match lang_after(class, "language-") {
        Some(l) => return Some(l),
        None => {},
    }
    assert(lang_in(class@, ps) == lang_in(class@, p1));
    match lang_after(class, "lang-") {
        Some(l) => return Some(l),
        None => {},
    }
    assert(lang_in(class@, p1) == lang_in(class@, p2));
    match lang_after(class, "prism-language-") {
        Some(l) => return Some(l),
        None => {},
    }
    assert(lang_in(class@, p2) == lang_in(class@, p3));
    lang_after(class, "hljs-")
}

fn lang_in_pre_class(class: &Vec<char>) -> (r: Option<Vec<char>>)
    ensures
        r matches Some(l) ==> lang_in(class@, pre_prefixes()) == Some(l@),
        r is None ==> lang_in(class@, pre_prefixes()) is None,
{
    let ghost ps = pre_prefixes();
    let ghost p1 = ps.drop_first();
    assert(p1 =~= seq!["lang-"@]);
    assert(p1.drop_first() =~= Seq::<Seq<char>>::empty());
    assert(lang_in(class@, p1.drop_first()) is None);
    match lang_after(class, "language-") {
        Some(l) => return Some(l),
        None => {},
    }
    assert(lang_in(class@, ps) == lang_in(class@, p1));
    lang_after(class, "lang-")
}

/// `get_lang` of the element `n` of the document `html`.
pub fn get_lang(html: &Vec<char>, n: &HtmlNode) -> (r: Vec<char>)
    ensures
        r@ == lang_of(html@, node_view(*n)),
{
    let code: Option<&HtmlNode> = match compile_selector("code") {
        Some(sel) => match select_first_below(html, n.pos, &sel) {
            Some(p) => n.find_pos(p),
            None => None,
        },
        None => None,
    };
    let from_code = match code {
        Some(c) => match c.attr("class") {
            Some(class) => lang_in_code_class(class),
            None => None,
        },
        None => None,
    };
    match from_code {
        Some(l) => l,
        None => match n.attr("class") {
            Some(class) => match lang_in_pre_class(class) {
                Some(l) => l,
                None => Vec::new(),
            },
            None => Vec::new(),
        },
    }
}

} // verus!
