//! HTML to Markdown conversion: cleaning, choosing the content root,
//! extracting Markdown items, deduplicating and laying them out.
use vstd::prelude::*;
use crate::content::{
    get_cell_text, get_heading_text, get_lang, get_text, get_text_of, heading_text, lang_of,
    cell_text, named,
};
use crate::dedup::{deduplicate_content, deduplicated};
use crate::dom::{
    compile_selector, document_first_match, document_html, document_tree, fragment_selected_html,
    is_element, lemma_nodes_view, name_of, node_at, node_view, nodes_view, parse_document_tree,
    select_first_in_document, select_html_in_fragment, serialize_document, selector_parses,
    attr_of, HtmlNode, NodeView,
};
use crate::error::{is_invalid_url_error, Error};
use crate::pattern::{apply_regex, replace_or_keep};
use crate::text::{
    chars_eq, chars_of, copy_chars, eq_str, join, join_chars, lines, lines_of, lit, push_chars,
    push_str, remove_all, remove_all_chars, repeat, repeat_str, starts_with, starts_with_str,
    string_of, trim, trim_chars, utf8_len, utf8_len_of, views,
};
use crate::urls::{join_url, parse_url, url_join, url_parse};

verus! {

/// Converts HTML to Markdown, resolving links against a base URL.
pub struct Converter {
    base_url: String,
    verbose: bool,
}

impl Converter {
    /// The base URL, as it was given.
    pub closed spec fn base(&self) -> Seq<char> {
        self.base_url@
    }

    pub closed spec fn is_verbose(&self) -> bool {
        self.verbose
    }

    /// Whether the converter reports its progress.
    pub fn verbose(&self) -> (r: bool)
        ensures
            r == self.is_verbose(),
    {
        self.verbose
    }
}

/// `Converter::new` and `Converter::with_verbose` give a converter for a base
/// URL that `url` accepts, and otherwise an invalid-URL error that names the
/// base URL and the variant of the refusal.
pub open spec fn made_converter(base: Seq<char>, verbose: bool, r: Result<Converter, Error>) -> bool {
    match url_parse(base) {
        Ok(_) => r matches Ok(c) && c.base() == base && c.is_verbose() == verbose,
        Err(variant) => r matches Err(e) && is_invalid_url_error(e, base, variant),
    }
}

// ---------------------------------------------------------------------------
// Links (`resolve_url`)
// ---------------------------------------------------------------------------

/// `resolve_url`: script and mail links give nothing, fragment links stay
/// as they are, other references are joined to the base URL when `url` can.
pub open spec fn resolved(base: Seq<char>, href: Seq<char>) -> Seq<char> {
    if starts_with(href, "javascript:"@) || starts_with(href, "mailto:"@) {
        seq![]
    } else if starts_with(href, "#"@) {
        href
    } else {
        match url_join(base, href) {
            Some(u) => u,
            None => href,
        }
    }
}

// ---------------------------------------------------------------------------
// Extraction (`extract_recursive`)
// ---------------------------------------------------------------------------

/// Elements that are left out with all they hold.
pub open spec fn is_skipped(name: Seq<char>) -> bool {
    name == "script"@ || name == "style"@ || name == "noscript"@ || name == "iframe"@ || name
        == "svg"@ || name == "canvas"@ || name == "nav"@ || name == "header"@ || name == "footer"@
}

/// The level of a heading element, 0 for other elements.
pub open spec fn heading_level(name: Seq<char>) -> nat {
    if name == "h1"@ {
        1
    } else if name == "h2"@ {
        2
    } else if name == "h3"@ {
        3
    } else if name == "h4"@ {
        4
    } else if name == "h5"@ {
        5
    } else if name == "h6"@ {
        6
    } else {
        0
    }
}

/// Elements that flow inside a line of text.
pub open spec fn is_inline(name: Seq<char>) -> bool {
    ||| name == "a"@
    ||| name == "span"@
    ||| name == "strong"@
    ||| name == "b"@
    ||| name == "em"@
    ||| name == "i"@
    ||| name == "code"@
    ||| name == "small"@
    ||| name == "sup"@
    ||| name == "sub"@
    ||| name == "abbr"@
    ||| name == "cite"@
    ||| name == "time"@
    ||| name == "mark"@
    ||| name == "kbd"@
    ||| name == "br"@
    ||| name == "img"@
    ||| name == "button"@
    ||| name == "label"@
    ||| name == "input"@
    ||| name == "select"@
    ||| name == "wbr"@
}

/// Some child is an element that does not flow inside a line.
pub open spec fn has_block_child(cs: Seq<NodeView>) -> bool
    decreases cs.len(),
{
    cs.len() > 0 && (has_block_child(cs.drop_last()) || (is_element(cs.last()) && !is_inline(
        name_of(cs.last()),
    )))
}

/// Elements whose presence in a cell makes its table a layout table.
pub open spec fn is_layout_block(c: NodeView) -> bool {
    is_element(c) && (name_of(c) == "table"@ || name_of(c) == "div"@ || name_of(c) == "section"@
        || name_of(c) == "article"@ || name_of(c) == "main"@)
}

pub open spec fn has_layout_block(cs: Seq<NodeView>) -> bool
    decreases cs.len(),
{
    cs.len() > 0 && (has_layout_block(cs.drop_last()) || is_layout_block(cs.last()))
}

pub open spec fn is_cell(c: NodeView) -> bool {
    named(c, "td"@) || named(c, "th"@)
}

/// Some cell of the row holds a layout block.
pub open spec fn row_is_layout(cs: Seq<NodeView>) -> bool
    decreases cs.len(),
{
    cs.len() > 0 && (row_is_layout(cs.drop_last()) || (is_cell(cs.last()) && has_layout_block(
        cs.last().children,
    )))
}

/// The non-empty texts of the cells of a row.
pub open spec fn cell_texts(cs: Seq<NodeView>) -> Seq<Seq<char>>
    decreases cs.len(),
{
    if cs.len() == 0 {
        seq![]
    } else {
        cell_texts(cs.drop_last()) + if is_cell(cs.last()) && trim(cell_text(cs.last())).len() > 0 {
            seq![trim(cell_text(cs.last()))]
        } else {
            seq![]
        }
    }
}

/// The list items of a list, each as `- text`.
pub open spec fn li_items(cs: Seq<NodeView>) -> Seq<Seq<char>>
    decreases cs.len(),
{
    if cs.len() == 0 {
        seq![]
    } else {
        li_items(cs.drop_last()) + if named(cs.last(), "li"@) && trim(get_text(cs.last())).len()
            > 0 {
            seq!["- "@ + trim(get_text(cs.last()))]
        } else {
            seq![]
        }
    }
}

/// Each line quoted.
pub open spec fn quoted(ls: Seq<Seq<char>>) -> Seq<Seq<char>> {
    ls.map_values(|l: Seq<char>| "> "@ + l)
}

/// The Markdown items of an element of the document `html`, links resolved
/// against `base`.
pub open spec fn extract(base: Seq<char>, html: Seq<char>, n: NodeView) -> Seq<Seq<char>>
    decreases n,
{
    let name = name_of(n);
    if !is_element(n) || is_skipped(name) {
        seq![]
    } else if heading_level(name) > 0 {
        let t = trim(heading_text(n));
        if t.len() > 0 {
            seq![repeat("#"@, heading_level(name)) + " "@ + t]
        } else {
            seq![]
        }
    } else if name == "p"@ {
        let t = trim(get_text(n));
        if t.len() > 0 && utf8_len(t) > 1 {
            seq![t]
        } else {
            seq![]
        }
    } else if name == "blockquote"@ {
        let t = trim(get_text(n));
        if t.len() > 0 {
            quoted(lines(t))
        } else {
            seq![]
        }
    } else if name == "pre"@ {
        let code = trim(get_text(n));
        if code.len() > 0 {
            seq!["```"@ + lang_of(html, n) + "\n"@ + code + "\n```"@]
        } else {
            seq![]
        }
    } else if name == "ul"@ || name == "ol"@ {
        li_items(n.children)
    } else if name == "table"@ {
        table_items(base, html, n.children)
    } else if name == "a"@ {
        match attr_of(n, "href"@) {
            Some(href) => {
                let t = trim(get_text(n));
                let u = resolved(base, href);
                if t.len() > 0 && t != u {
                    seq!["["@ + t + "]("@ + u + ")"@]
                } else if starts_with(u, "http"@) {
                    seq![u]
                } else {
                    seq![]
                }
            },
            None => seq![],
        }
    } else if name == "img"@ {
        match attr_of(n, "src"@) {
            Some(src) => {
                let alt = match attr_of(n, "alt"@) {
                    Some(a) => a,
                    None => "image"@,
                };
                seq!["!["@ + alt + "]("@ + resolved(base, src) + ")"@]
            },
            None => seq![],
        }
    } else if name == "br"@ {
        seq![seq![]]
    } else if name == "hr"@ {
        seq!["---"@]
    } else if name == "tbody"@ || name == "thead"@ || name == "tfoot"@ || name == "tr"@ {
        extract_seq(base, html, n.children)
    } else if has_block_child(n.children) {
        extract_seq(base, html, n.children)
    } else {
        let t = trim(get_text(n));
        if t.len() > 0 && utf8_len(t) > 2 {
            seq![t]
        } else {
            seq![]
        }
    }
}

/// The items of the element children, in order.
pub open spec fn extract_seq(base: Seq<char>, html: Seq<char>, cs: Seq<NodeView>) -> Seq<
    Seq<char>,
>
    decreases cs,
{
    if cs.len() == 0 {
        seq![]
    } else {
        extract_seq(base, html, cs.drop_last()) + if is_element(cs.last()) {
            extract(base, html, cs.last())
        } else {
            seq![]
        }
    }
}

/// The items of the rows of a table: those directly in it and those in its
/// `tbody`, `thead` and `tfoot` sections.
pub open spec fn table_items(base: Seq<char>, html: Seq<char>, cs: Seq<NodeView>) -> Seq<
    Seq<char>,
>
    decreases cs,
{
    if cs.len() == 0 {
        seq![]
    } else {
        table_items(base, html, cs.drop_last()) + if named(cs.last(), "tbody"@) || named(
            cs.last(),
            "thead"@,
        ) || named(cs.last(), "tfoot"@) {
            rows_items(base, html, cs.last().children)
        } else if named(cs.last(), "tr"@) {
            row_items(base, html, cs.last())
        } else {
            seq![]
        }
    }
}

/// The items of the rows of a table section.
pub open spec fn rows_items(base: Seq<char>, html: Seq<char>, cs: Seq<NodeView>) -> Seq<
    Seq<char>,
>
    decreases cs,
{
    if cs.len() == 0 {
        seq![]
    } else {
        rows_items(base, html, cs.drop_last()) + if named(cs.last(), "tr"@) {
            row_items(base, html, cs.last())
        } else {
            seq![]
        }
    }
}

/// The items of a row: those of each cell of a layout row, else the
/// non-empty cell texts joined by ` | `.
pub open spec fn row_items(base: Seq<char>, html: Seq<char>, r: NodeView) -> Seq<Seq<char>>
    decreases r,
{
    if row_is_layout(r.children) {
        cells_items(base, html, r.children)
    } else {
        let texts = cell_texts(r.children);
        if texts.len() > 0 {
            seq![join(texts, " | "@)]
        } else {
            seq![]
        }
    }
}

pub open spec fn cells_items(base: Seq<char>, html: Seq<char>, cs: Seq<NodeView>) -> Seq<
    Seq<char>,
>
    decreases cs,
{
    if cs.len() == 0 {
        seq![]
    } else {
        cells_items(base, html, cs.drop_last()) + if is_cell(cs.last()) {
            extract(base, html, cs.last())
        } else {
            seq![]
        }
    }
}

fn skipped(name: &Vec<char>) -> (r: bool)
    ensures
        r == is_skipped(name@),
{
    eq_str(name, "script") || eq_str(name, "style") || eq_str(name, "noscript") || eq_str(
        name,
        "iframe",
    ) || eq_str(name, "svg") || eq_str(name, "canvas") || eq_str(name, "nav") || eq_str(
        name,
        "header",
    ) || eq_str(name, "footer")
}

fn level_of(name: &Vec<char>) -> (r: usize)
    ensures
        r == heading_level(name@),
{
    if eq_str(name, "h1") {
        1
    } else if eq_str(name, "h2") {
        2
    } else if eq_str(name, "h3") {
        3
    } else if eq_str(name, "h4") {
        4
    } else if eq_str(name, "h5") {
        5
    } else if eq_str(name, "h6") {
        6
    } else {
        0
    }
}

fn inline(name: &Vec<char>) -> (r: bool)
    ensures
        r == is_inline(name@),
{
    eq_str(name, "a") || eq_str(name, "span") || eq_str(name, "strong") || eq_str(name, "b")
        || eq_str(name, "em") || eq_str(name, "i") || eq_str(name, "code") || eq_str(name, "small")
        || eq_str(name, "sup") || eq_str(name, "sub") || eq_str(name, "abbr") || eq_str(name, "cite")
        || eq_str(name, "time") || eq_str(name, "mark") || eq_str(name, "kbd") || eq_str(name, "br")
        || eq_str(name, "img") || eq_str(name, "button") || eq_str(name, "label") || eq_str(
        name,
        "input",
    ) || eq_str(name, "select") || eq_str(name, "wbr")
}

fn block_child(cs: &Vec<HtmlNode>) -> (r: bool)
    ensures
        r == has_block_child(nodes_view(cs@)),
{
    let ghost cv = nodes_view(cs@);
    proof {
        lemma_nodes_view(cs@);
    }
    let n = cs.len();
    let mut i: usize = 0;
    assert(cv.take(0) =~= seq![]);
    while i < n
        invariant
            n == cs.len(),
            i <= n,
            cv == nodes_view(cs@),
            cv.len() == n,
            forall|k: int| 0 <= k < n ==> #[trigger] cv[k] == node_view(cs@[k]),
            !has_block_child(cv.take(i as int)),
        decreases n - i,
    {
        assert(cv.take(i + 1).drop_last() =~= cv.take(i as int));
        assert(cv.take(i + 1).last() == cv[i as int]);
        match cs[i].element_name() {
            Some(name) => {
                if !inline(name) {
                    proof {
                        lemma_has_block_prefix(cv, i as int + 1);
                    }
                    return true;
                }
            },
            None => {},
        }
        i = i + 1;
    }
    assert(cv.take(n as int) =~= cv);
    false
}

proof fn lemma_has_block_prefix(cs: Seq<NodeView>, k: int)
    requires
        0 <= k <= cs.len(),
        has_block_child(cs.take(k)),
    ensures
        has_block_child(cs),
    decreases cs.len() - k,
{
    if k < cs.len() {
        assert(cs.take(k + 1).drop_last() =~= cs.take(k));
        lemma_has_block_prefix(cs, k + 1);
    } else {
        assert(cs.take(k) =~= cs);
    }
}

proof fn lemma_layout_prefix(cs: Seq<NodeView>, k: int)
    requires
        0 <= k <= cs.len(),
        has_layout_block(cs.take(k)),
    ensures
        has_layout_block(cs),
    decreases cs.len() - k,
{
    if k < cs.len() {
        assert(cs.take(k + 1).drop_last() =~= cs.take(k));
        lemma_layout_prefix(cs, k + 1);
    } else {
        assert(cs.take(k) =~= cs);
    }
}

proof fn lemma_row_layout_prefix(cs: Seq<NodeView>, k: int)
    requires
        0 <= k <= cs.len(),
        row_is_layout(cs.take(k)),
    ensures
        row_is_layout(cs),
    decreases cs.len() - k,
{
    if k < cs.len() {
        assert(cs.take(k + 1).drop_last() =~= cs.take(k));
        lemma_row_layout_prefix(cs, k + 1);
    } else {
        assert(cs.take(k) =~= cs);
    }
}

fn layout_block(cs: &Vec<HtmlNode>) -> (r: bool)
    ensures
        r == has_layout_block(nodes_view(cs@)),
{
    let ghost cv = nodes_view(cs@);
    proof {
        lemma_nodes_view(cs@);
    }
    let n = cs.len();
    let mut i: usize = 0;
    assert(cv.take(0) =~= seq![]);
    while i < n
        invariant
            n == cs.len(),
            i <= n,
            cv == nodes_view(cs@),
            cv.len() == n,
            forall|k: int| 0 <= k < n ==> #[trigger] cv[k] == node_view(cs@[k]),
            !has_layout_block(cv.take(i as int)),
        decreases n - i,
    {
        assert(cv.take(i + 1).drop_last() =~= cv.take(i as int));
        assert(cv.take(i + 1).last() == cv[i as int]);
        let c = &cs[i];
        if c.is_named("table") || c.is_named("div") || c.is_named("section") || c.is_named(
            "article",
        ) || c.is_named("main") {
            proof {
                lemma_layout_prefix(cv, i as int + 1);
            }
            return true;
        }
        i = i + 1;
    }
    assert(cv.take(n as int) =~= cv);
    false
}

fn cell(c: &HtmlNode) -> (r: bool)
    ensures
        r == is_cell(node_view(*c)),
{
    c.is_named("td") || c.is_named("th")
}

fn layout_row(cs: &Vec<HtmlNode>) -> (r: bool)
    ensures
        r == row_is_layout(nodes_view(cs@)),
{
    let ghost cv = nodes_view(cs@);
    proof {
        lemma_nodes_view(cs@);
    }
    let n = cs.len();
    let mut i: usize = 0;
    assert(cv.take(0) =~= seq![]);
    while i < n
        invariant
            n == cs.len(),
            i <= n,
            cv == nodes_view(cs@),
            cv.len() == n,
            forall|k: int| 0 <= k < n ==> #[trigger] cv[k] == node_view(cs@[k]),
            !row_is_layout(cv.take(i as int)),
        decreases n - i,
    {
        assert(cv.take(i + 1).drop_last() =~= cv.take(i as int));
        assert(cv.take(i + 1).last() == cv[i as int]);
        let c = &cs[i];
        proof {
            lemma_nodes_view(c.children@);
        }
        if cell(c) && layout_block(&c.children) {
            assert(node_view(*c).children == nodes_view(c.children@));
            proof {
                lemma_row_layout_prefix(cv, i as int + 1);
            }
            return true;
        }
        assert(node_view(*c).children == nodes_view(c.children@));
        i = i + 1;
    }
    assert(cv.take(n as int) =~= cv);
    false
}

fn push_cell_texts(cs: &Vec<HtmlNode>, texts: &mut Vec<Vec<char>>)
    ensures
        views(final(texts)) == views(old(texts)) + cell_texts(nodes_view(cs@)),
{
    let ghost cv = nodes_view(cs@);
    let ghost start = views(texts);
    proof {
        lemma_nodes_view(cs@);
    }
    let n = cs.len();
    let mut i: usize = 0;
    assert(cv.take(0) =~= seq![]);
    assert(views(texts) =~= start + cell_texts(cv.take(0)));
    while i < n
        invariant
            n == cs.len(),
            i <= n,
            cv == nodes_view(cs@),
            cv.len() == n,
            forall|k: int| 0 <= k < n ==> #[trigger] cv[k] == node_view(cs@[k]),
            views(texts) == start + cell_texts(cv.take(i as int)),
        decreases n - i,
    {
        assert(cv.take(i + 1).drop_last() =~= cv.take(i as int));
        assert(cv.take(i + 1).last() == cv[i as int]);
        let c = &cs[i];
        let ghost before = views(texts);
        if cell(c) {
            let t = trim_chars(&get_cell_text(c));
            if t.len() > 0 {
                texts.push(t);
                assert(views(texts) =~= before + seq![t@]);
            } else {
                assert(views(texts) =~= before + Seq::<Seq<char>>::empty());
            }
        } else {
            assert(views(texts) =~= before + Seq::<Seq<char>>::empty());
        }
        i = i + 1;
        assert(views(texts) =~= start + cell_texts(cv.take(i as int)));
    }
    assert(cv.take(n as int) =~= cv);
}

fn push_li_items(cs: &Vec<HtmlNode>, items: &mut Vec<Vec<char>>)
    ensures
        views(final(items)) == views(old(items)) + li_items(nodes_view(cs@)),
{
    let ghost cv = nodes_view(cs@);
    let ghost start = views(items);
    proof {
        lemma_nodes_view(cs@);
    }
    let n = cs.len();
    let mut i: usize = 0;
    assert(cv.take(0) =~= seq![]);
    assert(views(items) =~= start + li_items(cv.take(0)));
    while i < n
        invariant
            n == cs.len(),
            i <= n,
            cv == nodes_view(cs@),
            cv.len() == n,
            forall|k: int| 0 <= k < n ==> #[trigger] cv[k] == node_view(cs@[k]),
            views(items) == start + li_items(cv.take(i as int)),
        decreases n - i,
    {
        assert(cv.take(i + 1).drop_last() =~= cv.take(i as int));
        assert(cv.take(i + 1).last() == cv[i as int]);
        let c = &cs[i];
        let ghost before = views(items);
        if c.is_named("li") {
            let t = trim_chars(&get_text_of(c));
            if t.len() > 0 {
                let mut line = lit("- ");
                push_chars(&mut line, &t);
                items.push(line);
                assert(views(items) =~= before + seq![line@]);
            } else {
                assert(views(items) =~= before + Seq::<Seq<char>>::empty());
            }
        } else {
            assert(views(items) =~= before + Seq::<Seq<char>>::empty());
        }
        i = i + 1;
        assert(views(items) =~= start + li_items(cv.take(i as int)));
    }
    assert(cv.take(n as int) =~= cv);
}

fn push_quoted(ls: &Vec<Vec<char>>, items: &mut Vec<Vec<char>>)
    ensures
        views(final(items)) == views(old(items)) + quoted(views(ls)),
{
    let ghost start = views(items);
    let ghost lv = views(ls);
    let n = ls.len();
    let mut i: usize = 0;
    assert(views(items) =~= start + quoted(lv.take(0)));
    while i < n
        invariant
            n == ls.len(),
            i <= n,
            lv == views(ls),
            views(items) == start + quoted(lv.take(i as int)),
        decreases n - i,
    {
        let mut line = lit("> ");
        push_chars(&mut line, &ls[i]);
        let ghost before = views(items);
        items.push(line);
        assert(views(items) =~= before.push(line@));
        i = i + 1;
        assert(quoted(lv.take(i as int)) =~= quoted(lv.take(i - 1)).push("> "@ + lv[i - 1]));
        assert(views(items) =~= start + quoted(lv.take(i as int)));
    }
    assert(lv.take(n as int) =~= lv);
}

impl Converter {
    /// The target of a link or image reference: nothing for script and mail
    /// links, a fragment as it is, anything else joined to the base URL.
    pub fn resolve_url(&self, href: &Vec<char>) -> (r: Vec<char>)
        ensures
            r@ == resolved(self.base(), href@),
    {
        if starts_with_str(href, "javascript:") || starts_with_str(href, "mailto:") {
            return Vec::new();
        }
        if starts_with_str(href, "#") {
            return copy_chars(href);
        }
        match join_url(self.base_url.as_str(), href) {
            Some(u) => u,
            None => copy_chars(href),
        }
    }

    /// Appends the Markdown items of `element` to `items` (`extract_recursive`).
    pub fn extract_recursive(&self, html: &Vec<char>, element: &HtmlNode, items: &mut Vec<Vec<char>>)
        ensures
            views(final(items)) == views(old(items)) + extract(self.base(), html@, node_view(*element)),
        decreases *element,
    {
        let ghost nv = node_view(*element);
        let ghost start = views(items);
        let ghost base = self.base();
        proof {
            lemma_nodes_view(element.children@);
            assert(nv.children == nodes_view(element.children@));
        }
        let name = match element.element_name() {
            Some(name) => name,
            None => {
                assert(views(items) =~= start + Seq::<Seq<char>>::empty());
                return ;
            },
        };
        if skipped(name) {
            assert(views(items) =~= start + Seq::<Seq<char>>::empty());
            return ;
        }
        let level = level_of(name);
        if level > 0 {
            let t = trim_chars(&get_heading_text(element));
            if t.len() > 0 {
                let mut line = repeat_str("#", level);
                push_str(&mut line, " ");
                push_chars(&mut line, &t);
                items.push(line);
                assert(views(items) =~= start + seq![line@]);
            } else {
                assert(views(items) =~= start + Seq::<Seq<char>>::empty());
            }
        } else if eq_str(name, "p") {
            let t = trim_chars(&get_text_of(element));
            if t.len() > 0 && utf8_len_of(&t) > 1 {
                let ghost tv = t@;
                items.push(t);
                assert(views(items) =~= start + seq![tv]);
            } else {
                assert(views(items) =~= start + Seq::<Seq<char>>::empty());
            }
        } else if eq_str(name, "blockquote") {
            let t = trim_chars(&get_text_of(element));
            if t.len() > 0 {
                let ls = lines_of(&t);
                push_quoted(&ls, items);
            } else {
                assert(views(items) =~= start + Seq::<Seq<char>>::empty());
            }
        } else if eq_str(name, "pre") {
            let code = trim_chars(&get_text_of(element));
            if code.len() > 0 {
                let lang = get_lang(html, element);
                let mut block = lit("```");
                push_chars(&mut block, &lang);
                push_str(&mut block, "\n");
                push_chars(&mut block, &code);
                push_str(&mut block, "\n```");
                items.push(block);
                assert(views(items) =~= start + seq![block@]);
            } else {
                assert(views(items) =~= start + Seq::<Seq<char>>::empty());
            }
        } else if eq_str(name, "ul") || eq_str(name, "ol") {
            push_li_items(&element.children, items);
        } else if eq_str(name, "table") {
            self.table_items_exec(html, &element.children, items);
        } else if eq_str(name, "a") {
            match element.attr("href") {
                Some(href) => {
                    let t = trim_chars(&get_text_of(element));
                    let u = self.resolve_url(href);
                    if t.len() > 0 && !chars_eq(&t, &u) {
                        let mut link = lit("[");
                        push_chars(&mut link, &t);
                        push_str(&mut link, "](");
                        push_chars(&mut link, &u);
                        push_str(&mut link, ")");
                        items.push(link);
                        assert(views(items) =~= start + seq![link@]);
                    } else if starts_with_str(&u, "http") {
                        let ghost uv = u@;
                        items.push(u);
                        assert(views(items) =~= start + seq![uv]);
                    } else {
                        assert(views(items) =~= start + Seq::<Seq<char>>::empty());
                    }
                },
                None => {
                    assert(views(items) =~= start + Seq::<Seq<char>>::empty());
                },
            }
        } else if eq_str(name, "img") {
            match element.attr("src") {
                Some(src) => {
                    let alt = match element.attr("alt") {
                        Some(a) => copy_chars(a),
                        None => lit("image"),
                    };
                    let u = self.resolve_url(src);
                    let mut image = lit("![");
                    push_chars(&mut image, &alt);
                    push_str(&mut image, "](");
                    push_chars(&mut image, &u);
                    push_str(&mut image, ")");
                    items.push(image);
                    assert(views(items) =~= start + seq![image@]);
                },
                None => {
                    assert(views(items) =~= start + Seq::<Seq<char>>::empty());
                },
            }
        } else if eq_str(name, "br") {
            let empty: Vec<char> = Vec::new();
            items.push(empty);
            assert(views(items) =~= start + seq![Seq::<char>::empty()]);
        } else if eq_str(name, "hr") {
            let rule = lit("---");
            items.push(rule);
            assert(views(items) =~= start + seq![rule@]);
        } else if eq_str(name, "tbody") || eq_str(name, "thead") || eq_str(name, "tfoot") || eq_str(
            name,
            "tr",
        ) {
            self.extract_children(html, &element.children, items);
        } else if block_child(&element.children) {
            self.extract_children(html, &element.children, items);
        } else {
            let t = trim_chars(&get_text_of(element));
            if t.len() > 0 && utf8_len_of(&t) > 2 {
                let ghost tv = t@;
                items.push(t);
                assert(views(items) =~= start + seq![tv]);
            } else {
                assert(views(items) =~= start + Seq::<Seq<char>>::empty());
            }
        }
    }

    /// Appends the items of the element children (`child_elements`, each
    /// through `extract_recursive`).
    fn extract_children(&self, html: &Vec<char>, cs: &Vec<HtmlNode>, items: &mut Vec<Vec<char>>)
        ensures
            views(final(items)) == views(old(items)) + extract_seq(self.base(), html@, nodes_view(cs@)),
        decreases *cs,
    {
        let ghost cv = nodes_view(cs@);
        let ghost start = views(items);
        proof {
            lemma_nodes_view(cs@);
        }
        let n = cs.len();
        let mut i: usize = 0;
        assert(cv.take(0) =~= seq![]);
        assert(views(items) =~= start + extract_seq(self.base(), html@, cv.take(0)));
        while i < n
            invariant
                n == cs.len(),
                i <= n,
                cv == nodes_view(cs@),
                cv.len() == n,
                forall|k: int| 0 <= k < n ==> #[trigger] cv[k] == node_view(cs@[k]),
                views(items) == start + extract_seq(self.base(), html@, cv.take(i as int)),
            decreases n - i,
        {
            assert(cv.take(i + 1).drop_last() =~= cv.take(i as int));
            assert(cv.take(i + 1).last() == cv[i as int]);
            let c = &cs[i];
            let ghost before = views(items);
            if c.is_element() {
                self.extract_recursive(html, c, items);
            } else {
                assert(views(items) =~= before + Seq::<Seq<char>>::empty());
            }
            i = i + 1;
            assert(views(items) =~= start + extract_seq(self.base(), html@, cv.take(i as int)));
        }
        assert(cv.take(n as int) =~= cv);
    }

    fn table_items_exec(&self, html: &Vec<char>, cs: &Vec<HtmlNode>, items: &mut Vec<Vec<char>>)
        ensures
            views(final(items)) == views(old(items)) + table_items(self.base(), html@, nodes_view(cs@)),
        decreases *cs,
    {
        let ghost cv = nodes_view(cs@);
        let ghost start = views(items);
        proof {
            lemma_nodes_view(cs@);
        }
        let n = cs.len();
        let mut i: usize = 0;
        assert(cv.take(0) =~= seq![]);
        assert(views(items) =~= start + table_items(self.base(), html@, cv.take(0)));
        while i < n
            invariant
                n == cs.len(),
                i <= n,
                cv == nodes_view(cs@),
                cv.len() == n,
                forall|k: int| 0 <= k < n ==> #[trigger] cv[k] == node_view(cs@[k]),
                views(items) == start + table_items(self.base(), html@, cv.take(i as int)),
            decreases n - i,
        {
            assert(cv.take(i + 1).drop_last() =~= cv.take(i as int));
            assert(cv.take(i + 1).last() == cv[i as int]);
            let c = &cs[i];
            let ghost before = views(items);
            proof {
                lemma_nodes_view(c.children@);
                assert(node_view(*c).children == nodes_view(c.children@));
            }
            if c.is_named("tbody") || c.is_named("thead") || c.is_named("tfoot") {
                self.rows_items_exec(html, &c.children, items);
            } else if c.is_named("tr") {
                self.row_items_exec(html, c, items);
            } else {
                assert(views(items) =~= before + Seq::<Seq<char>>::empty());
            }
            i = i + 1;
            assert(views(items) =~= start + table_items(self.base(), html@, cv.take(i as int)));
        }
        assert(cv.take(n as int) =~= cv);
    }

    fn rows_items_exec(&self, html: &Vec<char>, cs: &Vec<HtmlNode>, items: &mut Vec<Vec<char>>)
        ensures
            views(final(items)) == views(old(items)) + rows_items(self.base(), html@, nodes_view(cs@)),
        decreases *cs,
    {
        let ghost cv = nodes_view(cs@);
        let ghost start = views(items);
        proof {
            lemma_nodes_view(cs@);
        }
        let n = cs.len();
        let mut i: usize = 0;
        assert(cv.take(0) =~= seq![]);
        assert(views(items) =~= start + rows_items(self.base(), html@, cv.take(0)));
        while i < n
            invariant
                n == cs.len(),
                i <= n,
                cv == nodes_view(cs@),
                cv.len() == n,
                forall|k: int| 0 <= k < n ==> #[trigger] cv[k] == node_view(cs@[k]),
                views(items) == start + rows_items(self.base(), html@, cv.take(i as int)),
            decreases n - i,
        {
            assert(cv.take(i + 1).drop_last() =~= cv.take(i as int));
            assert(cv.take(i + 1).last() == cv[i as int]);
            let c = &cs[i];
            let ghost before = views(items);
            if c.is_named("tr") {
                self.row_items_exec(html, c, items);
            } else {
                assert(views(items) =~= before + Seq::<Seq<char>>::empty());
            }
            i = i + 1;
            assert(views(items) =~= start + rows_items(self.base(), html@, cv.take(i as int)));
        }
        assert(cv.take(n as int) =~= cv);
    }

    fn row_items_exec(&self, html: &Vec<char>, row: &HtmlNode, items: &mut Vec<Vec<char>>)
        ensures
            views(final(items)) == views(old(items)) + row_items(self.base(), html@, node_view(*row)),
        decreases *row,
    {
        let ghost start = views(items);
        proof {
            lemma_nodes_view(row.children@);
            assert(node_view(*row).children == nodes_view(row.children@));
        }
        if layout_row(&row.children) {
            self.cells_items_exec(html, &row.children, items);
        } else {
            let mut texts: Vec<Vec<char>> = Vec::new();
            assert(views(&texts) =~= seq![]);
            push_cell_texts(&row.children, &mut texts);
            assert(views(&texts) =~= crate::converter::cell_texts(nodes_view(row.children@)));
            if texts.len() > 0 {
                let line = join_chars(&texts, " | ");
                items.push(line);
                assert(views(items) =~= start + seq![line@]);
            } else {
                assert(views(items) =~= start + Seq::<Seq<char>>::empty());
            }
        }
    }

    fn cells_items_exec(&self, html: &Vec<char>, cs: &Vec<HtmlNode>, items: &mut Vec<Vec<char>>)
        ensures
            views(final(items)) == views(old(items)) + cells_items(self.base(), html@, nodes_view(cs@)),
        decreases *cs,
    {
        let ghost cv = nodes_view(cs@);
        let ghost start = views(items);
        proof {
            lemma_nodes_view(cs@);
        }
        let n = cs.len();
        let mut i: usize = 0;
        assert(cv.take(0) =~= seq![]);
        assert(views(items) =~= start + cells_items(self.base(), html@, cv.take(0)));
        while i < n
            invariant
                n == cs.len(),
                i <= n,
                cv == nodes_view(cs@),
                cv.len() == n,
                forall|k: int| 0 <= k < n ==> #[trigger] cv[k] == node_view(cs@[k]),
                views(items) == start + cells_items(self.base(), html@, cv.take(i as int)),
            decreases n - i,
        {
            assert(cv.take(i + 1).drop_last() =~= cv.take(i as int));
            assert(cv.take(i + 1).last() == cv[i as int]);
            let c = &cs[i];
            let ghost before = views(items);
            if cell(c) {
                self.extract_recursive(html, c, items);
            } else {
                assert(views(items) =~= before + Seq::<Seq<char>>::empty());
            }
            i = i + 1;
            assert(views(items) =~= start + cells_items(self.base(), html@, cv.take(i as int)));
        }
        assert(cv.take(n as int) =~= cv);
    }

    /// `extract_content`: the Markdown items of an element.
    pub fn extract_content(&self, html: &Vec<char>, element: &HtmlNode) -> (r: Vec<Vec<char>>)
        ensures
            views(&r) == extract(self.base(), html@, node_view(*element)),
    {
        let mut items: Vec<Vec<char>> = Vec::new();
        assert(views(&items) =~= seq![]);
        self.extract_recursive(html, element, &mut items);
        assert(views(&items) =~= extract(self.base(), html@, node_view(*element)));
        items
    }
}

// ---------------------------------------------------------------------------
// Cleaning (`preprocess`)
// ---------------------------------------------------------------------------

/// Each of `parts`, in order, removed from `h` wherever it occurs.
pub open spec fn remove_each(h: Seq<char>, parts: Seq<Seq<char>>) -> Seq<char>
    decreases parts.len(),
{
    if parts.len() == 0 {
        h
    } else {
        remove_each(remove_all(h, parts[0]), parts.drop_first())
    }
}

/// The HTML of every element that `selector` selects in `h` (read as a
/// fragment) removed from `h`; `h` itself when the selector does not parse.
pub open spec fn strip_selected(h: Seq<char>, selector: Seq<char>) -> Seq<char> {
    if selector_parses(selector) {
        remove_each(h, fragment_selected_html(h, selector))
    } else {
        h
    }
}

/// Every selector of `selectors`, in order, stripped from `h`.
pub open spec fn strip_all(h: Seq<char>, selectors: Seq<Seq<char>>) -> Seq<char>
    decreases selectors.len(),
{
    if selectors.len() == 0 {
        h
    } else {
        strip_all(strip_selected(h, selectors[0]), selectors.drop_first())
    }
}

/// The patterns of scripts, styles, `noscript`, `iframe` and `svg` elements and
/// of comments.
pub open spec fn noise_patterns() -> Seq<Seq<char>> {
    seq![
        "<script[^>]*>[\\s\\S]*?</script>"@,
        "<style[^>]*>[\\s\\S]*?</style>"@,
        "<noscript[^>]*>[\\s\\S]*?</noscript>"@,
        "<iframe[^>]*>[\\s\\S]*?</iframe>"@,
        "<svg[^>]*>[\\s\\S]*?</svg>"@,
        "<!--[\\s\\S]*?-->"@,
    ]
}

/// Every pattern of `patterns`, in order, removed from `h`.
pub open spec fn remove_patterns(h: Seq<char>, patterns: Seq<Seq<char>>) -> Seq<char>
    decreases patterns.len(),
{
    if patterns.len() == 0 {
        h
    } else {
        remove_patterns(apply_regex(patterns[0], h, seq![]), patterns.drop_first())
    }
}

/// The selectors of navigation, header, footer and aside elements, of
/// elements whose class or role marks them as interface chrome, and of
/// Wikipedia's editing and reference apparatus.
pub open spec fn chrome_selectors() -> Seq<Seq<char>> {
    seq![
        "nav"@, "header"@, "footer"@, "aside"@, "menu"@,
        "[class*='nav']"@, "[class*='header']"@, "[class*='footer']"@,
        "[class*='sidebar']"@, "[class*='toolbar']"@, "[class*='breadcrumb']"@,
        "[class*='cookie']"@, "[class*='banner']"@, "[class*='alert']"@,
        "[class*='notification']"@, "[class*='modal']"@, "[class*='overlay']"@,
        "[class*='popup']"@, "[class*='toast']"@, "[class*='skip']"@,
        "[role='navigation']"@, "[role='banner']"@, "[role='contentinfo']"@,
        ".mw-editsection"@, ".mw-jump-link"@, ".catlinks"@, ".navbox"@,
        ".reflist"@, ".refbegin"@, "#toc"@, ".toc"@, ".infobox"@,
        ".sidebar"@, ".hatnote"@, ".mw-references-wrap"@,
    ]
}

/// `preprocess`: the document serialized again, the noise patterns removed,
/// then the chrome selectors stripped.
pub open spec fn preprocessed(html: Seq<char>) -> Seq<char> {
    strip_all(remove_patterns(document_html(html), noise_patterns()), chrome_selectors())
}

fn strip_selected_exec(h: Vec<char>, selector: &str) -> (r: Vec<char>)
    ensures
        r@ == strip_selected(h@, selector@),
{
    let sel = match compile_selector(selector) {
        Some(sel) => sel,
        None => return h,
    };
    let parts = select_html_in_fragment(&h, &sel);
    let ghost pv = views(&parts);
    let ghost h0 = h@;
    let mut h = h;
    let n = parts.len();
    let mut i: usize = 0;
    assert(pv.skip(0) =~= pv);
    while i < n
        invariant
            n == parts.len(),
            i <= n,
            pv == views(&parts),
            remove_each(h0, pv) == remove_each(h@, pv.skip(i as int)),
        decreases n - i,
    {
        assert(pv.skip(i as int)[0] == pv[i as int]);
        assert(pv.skip(i as int).drop_first() =~= pv.skip(i + 1));
        h = remove_all_chars(&h, &parts[i]);
        i = i + 1;
    }
    assert(pv.skip(n as int).len() == 0);
    h
}

impl Converter {
    /// `preprocess`: removes scripts, styles, comments and interface chrome.
    pub fn preprocess(&self, html: &Vec<char>) -> (r: Vec<char>)
        ensures
            r@ == preprocessed(html@),
    {
        proof {
            reveal_strlit("");
        }
        assert(""@ =~= Seq::<char>::empty());
        let patterns: [&str; 6] = [
            "<script[^>]*>[\\s\\S]*?</script>",
            "<style[^>]*>[\\s\\S]*?</style>",
            "<noscript[^>]*>[\\s\\S]*?</noscript>",
            "<iframe[^>]*>[\\s\\S]*?</iframe>",
            "<svg[^>]*>[\\s\\S]*?</svg>",
            "<!--[\\s\\S]*?-->",
        ];
        let ghost ps = noise_patterns();
        assert(patterns@.map_values(|s: &str| s@) =~= ps);
        let mut h = serialize_document(html);
        let ghost h0 = h@;
        let mut i: usize = 0;
        assert(ps.skip(0) =~= ps);
        while i < 6
            invariant
                i <= 6,
                ps == noise_patterns(),
                patterns@.map_values(|s: &str| s@) == ps,
                ""@ == Seq::<char>::empty(),
                remove_patterns(h0, ps) == remove_patterns(h@, ps.skip(i as int)),
            decreases 6 - i,
        {
            assert(ps.skip(i as int)[0] == ps[i as int]);
            assert(ps[i as int] == patterns@[i as int]@);
            assert(ps.skip(i as int).drop_first() =~= ps.skip(i + 1));
            h = replace_or_keep(patterns[i], &h, "");
            i = i + 1;
        }
        assert(ps.skip(6).len() == 0);
        let selectors: [&str; 35] = [
            "nav", "header", "footer", "aside", "menu",
            "[class*='nav']", "[class*='header']", "[class*='footer']",
            "[class*='sidebar']", "[class*='toolbar']", "[class*='breadcrumb']",
            "[class*='cookie']", "[class*='banner']", "[class*='alert']",
            "[class*='notification']", "[class*='modal']", "[class*='overlay']",
            "[class*='popup']", "[class*='toast']", "[class*='skip']",
            "[role='navigation']", "[role='banner']", "[role='contentinfo']",
            ".mw-editsection", ".mw-jump-link", ".catlinks", ".navbox",
            ".reflist", ".refbegin", "#toc", ".toc", ".infobox",
            ".sidebar", ".hatnote", ".mw-references-wrap",
        ];
        let ghost ss = chrome_selectors();
        assert(selectors@.map_values(|s: &str| s@) =~= ss);
        let ghost h1 = h@;
        let mut j: usize = 0;
        assert(ss.skip(0) =~= ss);
        while j < 35
            invariant
                j <= 35,
                ss == chrome_selectors(),
                selectors@.map_values(|s: &str| s@) == ss,
                strip_all(h1, ss) == strip_all(h@, ss.skip(j as int)),
            decreases 35 - j,
        {
            assert(ss.skip(j as int)[0] == ss[j as int]);
            assert(ss[j as int] == selectors@[j as int]@);
            assert(ss.skip(j as int).drop_first() =~= ss.skip(j + 1));
            h = strip_selected_exec(h, selectors[j]);
            j = j + 1;
        }
        assert(ss.skip(35).len() == 0);
        h
    }
}

// ---------------------------------------------------------------------------
// The content root (`select_one`)
// ---------------------------------------------------------------------------

/// The node of `tree` that `scraper` selects first in `html` with `selector`.
pub open spec fn first_match_node(html: Seq<char>, tree: NodeView, selector: Seq<char>) -> Option<NodeView> {
    if selector_parses(selector) {
        match document_first_match(html, selector) {
            Some(p) => node_at(tree, p as nat),
            None => None,
        }
    } else {
        None
    }
}

/// The match of the first of `selectors` that matches.
pub open spec fn first_of(html: Seq<char>, tree: NodeView, selectors: Seq<Seq<char>>) -> Option<NodeView>
    decreases selectors.len(),
{
    if selectors.len() == 0 {
        None
    } else {
        match first_match_node(html, tree, selectors[0]) {
            Some(n) => Some(n),
            None => first_of(html, tree, selectors.drop_first()),
        }
    }
}

/// The content areas tried in turn, the specific before the broad.
pub open spec fn root_selectors() -> Seq<Seq<char>> {
    seq![
        "article.markdown-body"@, "#readme"@, ".markdown-body"@, "#mw-content-text"@,
        ".mw-parser-output"@, "article"@, "#main-content"@, "#content"@,
        "[role='main']"@, "main"@, "body"@,
    ]
}

/// The first element of the document that a selector selects, if the
/// selector parses.
fn select_one<'a>(html: &Vec<char>, tree: &'a HtmlNode, selector: &str) -> (r: Option<&'a HtmlNode>)
    ensures
        match r {
            Some(n) => first_match_node(html@, node_view(*tree), selector@) == Some(node_view(*n)),
            None => first_match_node(html@, node_view(*tree), selector@) is None,
        },
{
    match compile_selector(selector) {
        Some(sel) => match select_first_in_document(html, &sel) {
            Some(p) => tree.find_pos(p),
            None => None,
        },
        None => None,
    }
}

fn select_root<'a>(html: &Vec<char>, tree: &'a HtmlNode) -> (r: Option<&'a HtmlNode>)
    ensures
        match r {
            Some(n) => first_of(html@, node_view(*tree), root_selectors()) == Some(node_view(*n)),
            None => first_of(html@, node_view(*tree), root_selectors()) is None,
        },
{
    let selectors: [&str; 11] = [
        "article.markdown-body", "#readme", ".markdown-body", "#mw-content-text",
        ".mw-parser-output", "article", "#main-content", "#content",
        "[role='main']", "main", "body",
    ];
    let ghost ss = root_selectors();
    let ghost tv = node_view(*tree);
    assert(selectors@.map_values(|s: &str| s@) =~= ss);
    let mut i: usize = 0;
    assert(ss.skip(0) =~= ss);
    while i < 11
        invariant
            i <= 11,
            ss == root_selectors(),
            tv == node_view(*tree),
            selectors@.map_values(|s: &str| s@) == ss,
            first_of(html@, tv, ss) == first_of(html@, tv, ss.skip(i as int)),
        decreases 11 - i,
    {
        assert(ss.skip(i as int)[0] == ss[i as int]);
        assert(ss[i as int] == selectors@[i as int]@);
        assert(ss.skip(i as int).drop_first() =~= ss.skip(i + 1));
        match select_one(html, tree, selectors[i]) {
            Some(n) => return Some(n),
            None => {},
        }
        i = i + 1;
    }
    assert(ss.skip(11).len() == 0);
    None
}

// ---------------------------------------------------------------------------
// Conversion
// ---------------------------------------------------------------------------

/// What `convert` makes of a page: the page cleaned and parsed again, the
/// first content area found, its items deduplicated and laid out; empty when
/// there is no content area.
pub open spec fn converted(base: Seq<char>, html: Seq<char>) -> Seq<char> {
    let cleaned = preprocessed(html);
    match document_tree(cleaned) {
        Some(tree) => match first_of(cleaned, tree, root_selectors()) {
            Some(root) => deduplicated(extract(base, cleaned, root)),
            None => seq![],
        },
        None => seq![],
    }
}

impl Converter {
    /// A converter for pages at `base_url`, which must be a URL.
    pub fn new(base_url: &str) -> (r: Result<Converter, Error>)
        ensures
            made_converter(base_url@, false, r),
    {
        Converter::with_verbose(base_url, false)
    }

    /// A converter for pages at `base_url` that reports its progress when
    /// `verbose` holds.
    pub fn with_verbose(base_url: &str, verbose: bool) -> (r: Result<Converter, Error>)
        ensures
            made_converter(base_url@, verbose, r),
    {
        match parse_url(base_url) {
            Ok(_) => Ok(Converter { base_url: base_url.to_string(), verbose }),
            Err(failure) => Err(Error::from_url_failure(base_url, failure)),
        }
    }

    /// Converts an HTML page to Markdown.
    pub fn convert(&self, html: &str) -> (r: Result<String, Error>)
        ensures
            match r {
                Ok(s) => s@ == converted(self.base(), html@),
                Err(_) => false,
            },
    {
        let page = chars_of(html);
        let cleaned = self.preprocess(&page);
        let tree = match parse_document_tree(&cleaned) {
            Some(t) => t,
            None => return Ok(String::new()),
        };
        let root = match select_root(&cleaned, &tree) {
            Some(r) => r,
            None => return Ok(String::new()),
        };
        let content = self.extract_content(&cleaned, root);
        let deduped = deduplicate_content(&content);
        Ok(string_of(&deduped))
    }
}


/// The Markdown of a page never starts or ends with whitespace.
pub proof fn law_output_trimmed(base: Seq<char>, html: Seq<char>)
    ensures
        trim(converted(base, html)) == converted(base, html),
{
    let out = converted(base, html);
    if out.len() == 0 {
        assert(trim(out) =~= out);
    } else {
        let cleaned = preprocessed(html);
        let tree = document_tree(cleaned)->0;
        let root = first_of(cleaned, tree, root_selectors())->0;
        let items = extract(base, cleaned, root);
        crate::text::lemma_trim_idempotent(crate::dedup::format_fold(
            crate::dedup::dedup_fold(items).0,
        ).0);
    }
}

// ---------------------------------------------------------------------------
// Laws of extraction and of the content root
// ---------------------------------------------------------------------------

proof fn lemma_hashes(k: nat)
    ensures
        repeat("#"@, k).len() == k,
        forall|i: int| 0 <= i < k ==> repeat("#"@, k)[i] == '#',
    decreases k,
{
    reveal_strlit("#");
    if k > 0 {
        lemma_hashes((k - 1) as nat);
        assert(repeat("#"@, k) == repeat("#"@, (k - 1) as nat) + "#"@);
    }
}

proof fn lemma_heading_name_level(name: Seq<char>, d: char)
    requires
        name == seq!['h', d],
        49 <= (d as u32) <= 54,
    ensures
        !is_skipped(name),
        heading_level(name) == (d as u32) - 48,
{
    reveal_strlit("h1");
    reveal_strlit("h2");
    reveal_strlit("h3");
    reveal_strlit("h4");
    reveal_strlit("h5");
    reveal_strlit("h6");
    reveal_strlit("script");
    reveal_strlit("style");
    reveal_strlit("noscript");
    reveal_strlit("iframe");
    reveal_strlit("svg");
    reveal_strlit("canvas");
    reveal_strlit("nav");
    reveal_strlit("header");
    reveal_strlit("footer");
    assert(name.len() == 2);
    assert(name[1] == d);
    if d == '1' {
        assert(name =~= "h1"@);
    } else if d == '2' {
        assert(name =~= "h2"@);
        assert(name[1] != "h1"@[1]);
    } else if d == '3' {
        assert(name =~= "h3"@);
        assert(name[1] != "h1"@[1] && name[1] != "h2"@[1]);
    } else if d == '4' {
        assert(name =~= "h4"@);
        assert(name[1] != "h1"@[1] && name[1] != "h2"@[1] && name[1] != "h3"@[1]);
    } else if d == '5' {
        assert(name =~= "h5"@);
        assert(name[1] != "h1"@[1] && name[1] != "h2"@[1] && name[1] != "h3"@[1] && name[1]
            != "h4"@[1]);
    } else {
        assert(name =~= "h6"@);
        assert(name[1] != "h1"@[1] && name[1] != "h2"@[1] && name[1] != "h3"@[1] && name[1]
            != "h4"@[1] && name[1] != "h5"@[1]);
    }
}

/// A heading `hN`, N from 1 to 6, whose text is not blank gives exactly one
/// item: N `#` characters, one space, then the heading's text; the number of
/// `#` is the digit of the tag's name.
pub proof fn law_heading_level(base: Seq<char>, html: Seq<char>, n: NodeView, d: char)
    requires
        is_element(n),
        name_of(n) == seq!['h', d],
        49 <= (d as u32) <= 54,
        trim(heading_text(n)).len() > 0,
    ensures
        extract(base, html, n).len() == 1,
        extract(base, html, n)[0].len() == (d as u32 - 48) + 1 + trim(heading_text(n)).len(),
        forall|i: int| 0 <= i < (d as u32 - 48) ==> #[trigger] extract(base, html, n)[0][i] == '#',
        extract(base, html, n)[0][d as u32 - 48] == ' ',
        extract(base, html, n)[0].skip(d as u32 - 48 + 1) == trim(heading_text(n)),
{
    reveal_strlit(" ");
    let k = (d as u32 - 48) as nat;
    lemma_heading_name_level(name_of(n), d);
    lemma_hashes(k);
    let t = trim(heading_text(n));
    let item = repeat("#"@, k) + " "@ + t;
    assert(extract(base, html, n) == seq![item]);
    assert(item.skip(k + 1 as int) =~= t);
}

/// A table's section: `thead`, `tbody` or `tfoot`.
pub open spec fn is_table_section(c: NodeView) -> bool {
    named(c, "thead"@) || named(c, "tbody"@) || named(c, "tfoot"@)
}

proof fn lemma_table_items_append(base: Seq<char>, html: Seq<char>, a: Seq<NodeView>, b: Seq<NodeView>)
    ensures
        table_items(base, html, a + b) == table_items(base, html, a) + table_items(base, html, b),
    decreases b.len(),
{
    if b.len() == 0 {
        assert(a + b =~= a);
    } else {
        lemma_table_items_append(base, html, a, b.drop_last());
        assert((a + b).drop_last() =~= a + b.drop_last());
    }
}

proof fn lemma_table_items_without_sections(base: Seq<char>, html: Seq<char>, cs: Seq<NodeView>)
    requires
        forall|j: int| 0 <= j < cs.len() ==> !is_table_section(#[trigger] cs[j]),
    ensures
        table_items(base, html, cs) == rows_items(base, html, cs),
    decreases cs.len(),
{
    if cs.len() > 0 {
        lemma_table_items_without_sections(base, html, cs.drop_last());
        assert(!is_table_section(cs[cs.len() - 1]));
    }
}

proof fn lemma_table_name(name: Seq<char>)
    requires
        name == "table"@,
    ensures
        !is_skipped(name),
        heading_level(name) == 0,
        name != "p"@ && name != "blockquote"@ && name != "pre"@ && name != "ul"@ && name != "ol"@,
{
    reveal_strlit("table");
    reveal_strlit("h1");
    reveal_strlit("h2");
    reveal_strlit("h3");
    reveal_strlit("h4");
    reveal_strlit("h5");
    reveal_strlit("h6");
    reveal_strlit("script");
    reveal_strlit("style");
    reveal_strlit("noscript");
    reveal_strlit("iframe");
    reveal_strlit("svg");
    reveal_strlit("canvas");
    reveal_strlit("nav");
    reveal_strlit("header");
    reveal_strlit("footer");
    reveal_strlit("p");
    reveal_strlit("blockquote");
    reveal_strlit("pre");
    reveal_strlit("ul");
    reveal_strlit("ol");
    assert(name.len() == 5);
    assert(name[0] != "style"@[0]);
}

/// The sections of a table are transparent: replacing a `thead`, `tbody` or
/// `tfoot` of a table by the rows it holds leaves the table's items as they
/// are. So every row of every section contributes, in document order,
/// exactly as a row placed directly in the table.
pub proof fn law_table_sections_transparent(base: Seq<char>, html: Seq<char>, t: NodeView, i: int)
    requires
        named(t, "table"@),
        0 <= i < t.children.len(),
        is_table_section(t.children[i]),
        forall|j: int|
            0 <= j < t.children[i].children.len() ==> !is_table_section(
                #[trigger] t.children[i].children[j],
            ),
    ensures
        extract(base, html, t) == extract(
            base,
            html,
            NodeView {
                kind: t.kind,
                pos: t.pos,
                children: t.children.take(i) + t.children[i].children + t.children.skip(i + 1),
            },
        ),
{
    let cs = t.children;
    let sec = cs[i];
    let flat = cs.take(i) + sec.children + cs.skip(i + 1);
    let t2 = NodeView { kind: t.kind, pos: t.pos, children: flat };
    lemma_table_name(name_of(t));
    assert(extract(base, html, t) == table_items(base, html, cs));
    assert(extract(base, html, t2) == table_items(base, html, flat));
    let one = seq![sec];
    assert(cs =~= cs.take(i) + one + cs.skip(i + 1));
    lemma_table_items_append(base, html, cs.take(i) + one, cs.skip(i + 1));
    lemma_table_items_append(base, html, cs.take(i), one);
    lemma_table_items_append(base, html, cs.take(i) + sec.children, cs.skip(i + 1));
    lemma_table_items_append(base, html, cs.take(i), sec.children);
    assert(one.drop_last() =~= Seq::<NodeView>::empty());
    assert(one.last() == sec);
    assert(table_items(base, html, one.drop_last()) =~= Seq::<Seq<char>>::empty());
    assert(table_items(base, html, one) =~= rows_items(base, html, sec.children));
    lemma_table_items_without_sections(base, html, sec.children);
}

proof fn lemma_first_of_at(html: Seq<char>, tree: NodeView, ss: Seq<Seq<char>>, k: int, m: NodeView)
    requires
        0 <= k < ss.len(),
        forall|j: int| 0 <= j < k ==> first_match_node(html, tree, #[trigger] ss[j]) is None,
        first_match_node(html, tree, ss[k]) == Some(m),
    ensures
        first_of(html, tree, ss) == Some(m),
    decreases k,
{
    if k > 0 {
        assert(first_match_node(html, tree, ss[0]) is None);
        let rest = ss.drop_first();
        assert forall|j: int| 0 <= j < k - 1 implies first_match_node(html, tree, #[trigger] rest[j])
            is None by {
            assert(rest[j] == ss[j + 1]);
        }
        assert(rest[k - 1] == ss[k]);
        lemma_first_of_at(html, tree, rest, k - 1, m);
    }
}

/// The content root is the first `main` element when the cleaned page has
/// one and none of the more specific content areas (`article.markdown-body`,
/// `#readme`, `.markdown-body`, `#mw-content-text`, `.mw-parser-output`,
/// `article`, `#main-content`, `#content`, `[role='main']`) is found: the
/// Markdown is then made from that element alone, not from the body.
pub proof fn law_main_before_body(base: Seq<char>, html: Seq<char>, tree: NodeView, m: NodeView)
    requires
        document_tree(preprocessed(html)) == Some(tree),
        first_match_node(preprocessed(html), tree, "article.markdown-body"@) is None,
        first_match_node(preprocessed(html), tree, "#readme"@) is None,
        first_match_node(preprocessed(html), tree, ".markdown-body"@) is None,
        first_match_node(preprocessed(html), tree, "#mw-content-text"@) is None,
        first_match_node(preprocessed(html), tree, ".mw-parser-output"@) is None,
        first_match_node(preprocessed(html), tree, "article"@) is None,
        first_match_node(preprocessed(html), tree, "#main-content"@) is None,
        first_match_node(preprocessed(html), tree, "#content"@) is None,
        first_match_node(preprocessed(html), tree, "[role='main']"@) is None,
        first_match_node(preprocessed(html), tree, "main"@) == Some(m),
    ensures
        converted(base, html) == deduplicated(extract(base, preprocessed(html), m)),
{
    let h = preprocessed(html);
    let ss = root_selectors();
    assert(ss[0] == "article.markdown-body"@);
    assert(ss[1] == "#readme"@);
    assert(ss[2] == ".markdown-body"@);
    assert(ss[3] == "#mw-content-text"@);
    assert(ss[4] == ".mw-parser-output"@);
    assert(ss[5] == "article"@);
    assert(ss[6] == "#main-content"@);
    assert(ss[7] == "#content"@);
    assert(ss[8] == "[role='main']"@);
    assert(ss[9] == "main"@);
    assert forall|j: int| 0 <= j < 9 implies first_match_node(h, tree, #[trigger] ss[j]) is None by {
        if j == 0 {
        } else if j == 1 {
        } else if j == 2 {
        } else if j == 3 {
        } else if j == 4 {
        } else if j == 5 {
        } else if j == 6 {
        } else if j == 7 {
        } else {
        }
    }
    lemma_first_of_at(h, tree, ss, 9, m);
}

proof fn lemma_strip_all_from(h: Seq<char>, ss: Seq<Seq<char>>, j: int)
    requires
        0 <= j < ss.len(),
    ensures
        strip_all(h, ss.skip(j)) == strip_all(strip_selected(h, ss[j]), ss.skip(j + 1)),
{
    assert(ss.skip(j)[0] == ss[j]);
    assert(ss.skip(j).drop_first() =~= ss.skip(j + 1));
}

/// Cleaning cuts out, one tag after another, the HTML of every `nav`,
/// `header`, `footer`, `aside` and `menu` element of the page, right after
/// scripts, styles and comments are removed and before the elements marked
/// as interface chrome by class or role.
pub proof fn law_layout_tags_are_stripped(html: Seq<char>)
    ensures
        preprocessed(html) == strip_all(
            strip_selected(
                strip_selected(
                    strip_selected(
                        strip_selected(
                            strip_selected(
                                remove_patterns(document_html(html), noise_patterns()),
                                "nav"@,
                            ),
                            "header"@,
                        ),
                        "footer"@,
                    ),
                    "aside"@,
                ),
                "menu"@,
            ),
            chrome_selectors().skip(5),
        ),
{
    let cs = chrome_selectors();
    let h0 = remove_patterns(document_html(html), noise_patterns());
    assert(cs[0] == "nav"@);
    assert(cs[1] == "header"@);
    assert(cs[2] == "footer"@);
    assert(cs[3] == "aside"@);
    assert(cs[4] == "menu"@);
    assert(cs.skip(0) =~= cs);
    lemma_strip_all_from(h0, cs, 0);
    let h1 = strip_selected(h0, "nav"@);
    lemma_strip_all_from(h1, cs, 1);
    let h2 = strip_selected(h1, "header"@);
    lemma_strip_all_from(h2, cs, 2);
    let h3 = strip_selected(h2, "footer"@);
    lemma_strip_all_from(h3, cs, 3);
    let h4 = strip_selected(h3, "aside"@);
    lemma_strip_all_from(h4, cs, 4);
}

} // verus!
