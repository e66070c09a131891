//! The HTML document as a tree of plain values, and the calls into the
//! `scraper` crate that parse, select and serialize.
use vstd::prelude::*;
use crate::text::{copy_chars, eq_str, string_of, views};
use ::scraper::{ElementRef, Html, Node, Selector};

verus! {

/// An attribute of an element: its qualified name and its value.
pub struct Attr {
    pub prefix: Option<Vec<char>>,
    pub ns: Vec<char>,
    pub local: Vec<char>,
    pub value: Vec<char>,
}

/// What a node of the document is.
pub enum NodeKind {
    Element { name: Vec<char>, attrs: Vec<Attr> },
    Text(Vec<char>),
    /// The document itself, a doctype, a comment or a processing instruction.
    Other,
}

/// A node of the document in pre-order, with its depth (the root has depth 0).
pub struct FlatNode {
    pub depth: usize,
    pub kind: NodeKind,
}

/// A node of the document with its children; `pos` is its index in the
/// pre-order walk of the whole document.
pub struct HtmlNode {
    pub kind: NodeKind,
    pub pos: usize,
    pub children: Vec<HtmlNode>,
}

pub type AttrView = (Option<Seq<char>>, Seq<char>, Seq<char>, Seq<char>);

pub enum KindView {
    Element { name: Seq<char>, attrs: Seq<AttrView> },
    Text(Seq<char>),
    Other,
}

pub struct NodeView {
    pub kind: KindView,
    pub pos: nat,
    pub children: Seq<NodeView>,
}

pub open spec fn attr_view(a: Attr) -> AttrView {
    (
        match a.prefix {
            Some(p) => Some(p@),
            None => None,
        },
        a.ns@,
        a.local@,
        a.value@,
    )
}

pub open spec fn kind_view(k: NodeKind) -> KindView {
    match k {
        NodeKind::Element { name, attrs } => KindView::Element {
            name: name@,
            attrs: attrs@.map_values(|a: Attr| attr_view(a)),
        },
        NodeKind::Text(t) => KindView::Text(t@),
        NodeKind::Other => KindView::Other,
    }
}

pub open spec fn flat_view(f: Seq<FlatNode>) -> Seq<(nat, KindView)> {
    f.map_values(|n: FlatNode| (n.depth as nat, kind_view(n.kind)))
}

pub open spec fn node_view(n: HtmlNode) -> NodeView
    decreases n,
{
    NodeView { kind: kind_view(n.kind), pos: n.pos as nat, children: nodes_view(n.children@) }
}

pub open spec fn nodes_view(s: Seq<HtmlNode>) -> Seq<NodeView>
    decreases s,
{
    if s.len() == 0 {
        seq![]
    } else {
        nodes_view(s.drop_last()).push(node_view(s.last()))
    }
}

pub proof fn lemma_nodes_view(s: Seq<HtmlNode>)
    ensures
        nodes_view(s).len() == s.len(),
        forall|i: int| 0 <= i < s.len() ==> #[trigger] nodes_view(s)[i] == node_view(s[i]),
    decreases s.len(),
{
    if s.len() > 0 {
        lemma_nodes_view(s.drop_last());
        assert forall|i: int| 0 <= i < s.len() implies #[trigger] nodes_view(s)[i] == node_view(
            s[i],
        ) by {
            if i < s.len() - 1 {
                assert(s.drop_last()[i] == s[i]);
            }
        }
    }
}

// ---------------------------------------------------------------------------
// Node accessors
// ---------------------------------------------------------------------------

/// The local name of an element; empty for other nodes.
pub open spec fn name_of(n: NodeView) -> Seq<char> {
    match n.kind {
        KindView::Element { name, .. } => name,
        _ => seq![],
    }
}

pub open spec fn is_element(n: NodeView) -> bool {
    n.kind is Element
}

/// `Element::attr`: the value of the first attribute without prefix or
/// namespace whose local name is `key`.
pub open spec fn attr_in(attrs: Seq<AttrView>, key: Seq<char>) -> Option<Seq<char>>
    decreases attrs.len(),
{
    if attrs.len() == 0 {
        None
    } else if attrs[0].0 is None && attrs[0].1.len() == 0 && attrs[0].2 == key {
        Some(attrs[0].3)
    } else {
        attr_in(attrs.drop_first(), key)
    }
}

pub open spec fn attr_of(n: NodeView, key: Seq<char>) -> Option<Seq<char>> {
    match n.kind {
        KindView::Element { attrs, .. } => attr_in(attrs, key),
        _ => None,
    }
}

impl HtmlNode {
    /// Whether the node is an element named `s`.
    pub fn is_named(&self, s: &str) -> (r: bool)
        ensures
            r == (is_element(node_view(*self)) && name_of(node_view(*self)) == s@),
    {
        match &self.kind {
            NodeKind::Element { name, .. } => eq_str(name, s),
            _ => false,
        }
    }

    pub fn is_element(&self) -> (r: bool)
        ensures
            r == is_element(node_view(*self)),
    {
        match &self.kind {
            NodeKind::Element { .. } => true,
            _ => false,
        }
    }

    /// The local name of an element; `None` for other nodes.
    pub fn element_name(&self) -> (r: Option<&Vec<char>>)
        ensures
            r matches Some(v) ==> is_element(node_view(*self)) && v@ == name_of(node_view(*self)),
            r is None ==> !is_element(node_view(*self)),
    {
        match &self.kind {
            NodeKind::Element { name, .. } => Some(name),
            _ => None,
        }
    }

    /// The value of the attribute `key`, if the element has it.
    pub fn attr(&self, key: &str) -> (r: Option<&Vec<char>>)
        ensures
            r matches Some(v) ==> attr_of(node_view(*self), key@) == Some(v@),
            r is None ==> attr_of(node_view(*self), key@) is None,
    {
        match &self.kind {
            NodeKind::Element { attrs, .. } => {
                let n = attrs.len();
                let mut i: usize = 0;
                let ghost av = attrs@.map_values(|a: Attr| attr_view(a));
                assert(av.skip(0) =~= av);
                assert(attr_of(node_view(*self), key@) == attr_in(av, key@));
                while i < n
                    invariant
                        n == attrs.len(),
                        i <= n,
                        av == attrs@.map_values(|a: Attr| attr_view(a)),
                        attr_of(node_view(*self), key@) == attr_in(av, key@),
                        attr_in(av, key@) == attr_in(av.skip(i as int), key@),
                    decreases n - i,
                {
                    let a = &attrs[i];
                    assert(av.skip(i as int)[0] == av[i as int]);
                    assert(av[i as int] == attr_view(*a));
                    assert(av.skip(i as int).len() > 0);
                    if a.prefix.is_none() && a.ns.len() == 0 && eq_str(&a.local, key) {
                        return Some(&a.value);
                    }
                    assert(av.skip(i as int).drop_first() =~= av.skip(i + 1));
                    i = i + 1;
                }
                None
            },
            _ => None,
        }
    }
}

// ---------------------------------------------------------------------------
// Building the tree from the pre-order walk
// ---------------------------------------------------------------------------

pub open spec fn default_node() -> NodeView {
    NodeView { kind: KindView::Other, pos: 0, children: seq![] }
}

/// The node whose pre-order entry is at `i`, and the index just past its
/// subtree: its children are the entries that follow at one level deeper.
pub open spec fn build_node(f: Seq<(nat, KindView)>, i: int) -> (NodeView, int)
    decreases f.len() - i, 0int,
{
    if 0 <= i < f.len() {
        let (cs, j) = build_children(f, i + 1, f[i].0 + 1);
        (NodeView { kind: f[i].1, pos: i as nat, children: cs }, j)
    } else {
        (default_node(), i + 1)
    }
}

/// The nodes at depth `d` that follow one another from `i` on, and the index
/// of the first entry that is not one of them or their descendants.
pub open spec fn build_children(f: Seq<(nat, KindView)>, i: int, d: nat) -> (Seq<NodeView>, int)
    decreases f.len() - i, 1int,
{
    if 0 <= i < f.len() && f[i].0 == d {
        let (n, j) = build_node(f, i);
        if i < j <= f.len() {
            let (cs, k) = build_children(f, j, d);
            (seq![n] + cs, k)
        } else {
            (seq![n], j)
        }
    } else {
        (seq![], i)
    }
}

/// The tree of a pre-order walk: the node of its first entry.
pub open spec fn tree_of(f: Seq<(nat, KindView)>) -> Option<NodeView> {
    if f.len() == 0 {
        None
    } else {
        Some(build_node(f, 0).0)
    }
}

fn copy_attr(a: &Attr) -> (r: Attr)
    ensures
        attr_view(r) == attr_view(*a),
{
    Attr {
        prefix: match &a.prefix {
            Some(p) => Some(copy_chars(p)),
            None => None,
        },
        ns: copy_chars(&a.ns),
        local: copy_chars(&a.local),
        value: copy_chars(&a.value),
    }
}

fn copy_kind(k: &NodeKind) -> (r: NodeKind)
    ensures
        kind_view(r) == kind_view(*k),
{
    match k {
        NodeKind::Element { name, attrs } => {
            let mut out: Vec<Attr> = Vec::new();
            let n = attrs.len();
            let mut i: usize = 0;
            while i < n
                invariant
                    n == attrs.len(),
                    i <= n,
                    out@.len() == i,
                    out@.map_values(|a: Attr| attr_view(a)) == attrs@.take(i as int).map_values(
                        |a: Attr| attr_view(a),
                    ),
                decreases n - i,
            {
                let c = copy_attr(&attrs[i]);
                let ghost prev = out@;
                out.push(c);
                proof {
                    assert(attrs@.take(i + 1) =~= attrs@.take(i as int).push(attrs@[i as int]));
                    assert(out@ =~= prev.push(c));
                    let f = |a: Attr| attr_view(a);
                    assert(prev.map_values(f) =~= attrs@.take(i as int).map_values(f));
                    assert(out@.map_values(f) =~= attrs@.take(i + 1).map_values(f)) by {
                        assert forall|k: int| 0 <= k < i + 1 implies out@.map_values(f)[k]
                            == attrs@.take(i + 1).map_values(f)[k] by {
                            if k < i {
                                assert(out@[k] == prev[k]);
                                assert(prev.map_values(f)[k] == attrs@.take(i as int).map_values(
                                    f,
                                )[k]);
                            }
                        }
                    }
                }
                i = i + 1;
            }
            assert(attrs@.take(n as int) =~= attrs@);
            let r = NodeKind::Element { name: copy_chars(name), attrs: out };
            assert(kind_view(r) == kind_view(*k));
            r
        },
        NodeKind::Text(t) => NodeKind::Text(copy_chars(t)),
        NodeKind::Other => NodeKind::Other,
    }
}

fn build_node_exec(f: &Vec<FlatNode>, i: usize) -> (r: (HtmlNode, usize))
    requires
        i < f.len(),
    ensures
        (node_view(r.0), r.1 as int) == build_node(flat_view(f@), i as int),
        i < r.1 <= f.len(),
    decreases f.len() - i, 0int,
{
    let ghost fv = flat_view(f@);
    let kind = copy_kind(&f[i].kind);
    let d = f[i].depth;
    let (children, j) = if d < usize::MAX {
        build_children_exec(f, i + 1, d + 1)
    } else {
        assert(build_children(fv, i + 1, (d + 1) as nat) == (Seq::<NodeView>::empty(), i + 1))
            by {
            if i + 1 < fv.len() {
                assert(fv[i + 1].0 <= usize::MAX);
            }
        }
        (Vec::new(), i + 1)
    };
    let node = HtmlNode { kind, pos: i, children };
    proof {
        assert(nodes_view(node.children@) == build_children(fv, i + 1, fv[i as int].0 + 1).0);
    }
    (node, j)
}

fn build_children_exec(f: &Vec<FlatNode>, i0: usize, d: usize) -> (r: (Vec<HtmlNode>, usize))
    requires
        i0 <= f.len(),
    ensures
        (nodes_view(r.0@), r.1 as int) == build_children(flat_view(f@), i0 as int, d as nat),
        i0 <= r.1 <= f.len(),
    decreases f.len() - i0, 1int,
{
    let ghost fv = flat_view(f@);
    let mut out: Vec<HtmlNode> = Vec::new();
    let mut i = i0;
    proof {
        lemma_build_bounds(fv, i0 as int, d as nat);
        assert(nodes_view(out@) =~= seq![]);
        assert(nodes_view(out@) + build_children(fv, i as int, d as nat).0 =~= build_children(
            fv,
            i as int,
            d as nat,
        ).0);
    }
    loop
        invariant
            i0 <= i <= f.len(),
            fv == flat_view(f@),
            build_children(fv, i0 as int, d as nat) == (
                nodes_view(out@) + build_children(fv, i as int, d as nat).0,
                build_children(fv, i as int, d as nat).1,
            ),
            build_children(fv, i as int, d as nat).1 <= f.len(),
            i <= build_children(fv, i as int, d as nat).1,
        decreases f.len() - i,
    {
        if i < f.len() && f[i].depth == d {
            let (n, j) = build_node_exec(f, i);
            proof {
                lemma_build_bounds(fv, j as int, d as nat);
            }
            let ghost rest = build_children(fv, j as int, d as nat);
            let ghost before = nodes_view(out@);
            let ghost before_vec = out@;
            out.push(n);
            proof {
                assert(out@.drop_last() =~= before_vec);
                assert(nodes_view(out@) == before.push(node_view(n)));
                assert(before + (seq![node_view(n)] + rest.0) =~= before.push(node_view(n))
                    + rest.0);
            }
            i = j;
        } else {
            assert(build_children(fv, i as int, d as nat) == (Seq::<NodeView>::empty(), i as int));
            assert(nodes_view(out@) + Seq::<NodeView>::empty() =~= nodes_view(out@));
            return (out, i);
        }
    }
}

pub proof fn lemma_build_bounds(f: Seq<(nat, KindView)>, i: int, d: nat)
    requires
        0 <= i <= f.len(),
    ensures
        i <= build_children(f, i, d).1 <= f.len(),
    decreases f.len() - i, 1int,
{
    if 0 <= i < f.len() && f[i].0 == d {
        lemma_build_node_bounds(f, i);
        let (n, j) = build_node(f, i);
        if i < j <= f.len() {
            lemma_build_bounds(f, j, d);
        }
    }
}

pub proof fn lemma_build_node_bounds(f: Seq<(nat, KindView)>, i: int)
    requires
        0 <= i < f.len(),
    ensures
        i < build_node(f, i).1 <= f.len(),
    decreases f.len() - i, 0int,
{
    lemma_build_bounds(f, i + 1, f[i].0 + 1);
}

/// The tree of a pre-order walk.
pub fn tree_of_flat(f: &Vec<FlatNode>) -> (r: Option<HtmlNode>)
    ensures
        r matches Some(n) ==> tree_of(flat_view(f@)) == Some(node_view(n)),
        r is None ==> tree_of(flat_view(f@)) is None,
{
    if f.len() == 0 {
        None
    } else {
        let (n, _) = build_node_exec(f, 0);
        Some(n)
    }
}

// ---------------------------------------------------------------------------
// Finding a node by its position
// ---------------------------------------------------------------------------

/// The node of the subtree at `n` whose pre-order position is `p`.
pub open spec fn node_at(n: NodeView, p: nat) -> Option<NodeView>
    decreases n,
{
    if n.pos == p {
        Some(n)
    } else {
        nodes_at(n.children, p)
    }
}

pub open spec fn nodes_at(cs: Seq<NodeView>, p: nat) -> Option<NodeView>
    decreases cs,
{
    if cs.len() == 0 {
        None
    } else {
        match nodes_at(cs.drop_last(), p) {
            Some(x) => Some(x),
            None => node_at(cs.last(), p),
        }
    }
}

impl HtmlNode {
    /// The node of this subtree whose pre-order position is `p`.
    pub fn find_pos(&self, p: usize) -> (r: Option<&HtmlNode>)
        ensures
            r matches Some(x) ==> node_at(node_view(*self), p as nat) == Some(node_view(*x)),
            r is None ==> node_at(node_view(*self), p as nat) is None,
        decreases *self,
    {
        if self.pos == p {
            return Some(self);
        }
        assert(node_view(*self).children == nodes_view(self.children@));
        assert(node_view(*self).pos != p);
        let n = self.children.len();
        let mut i: usize = 0;
        proof {
            lemma_nodes_view(self.children@);
            assert(nodes_view(self.children@).take(0) =~= seq![]);
        }
        while i < n
            invariant
                n == self.children.len(),
                i <= n,
                nodes_view(self.children@).len() == n,
                node_view(*self).children == nodes_view(self.children@),
                node_view(*self).pos != p as nat,
                forall|k: int| 0 <= k < n ==> #[trigger] nodes_view(self.children@)[k] == node_view(
                    self.children@[k],
                ),
                nodes_at(nodes_view(self.children@).take(i as int), p as nat) is None,
            decreases n - i,
        {
            let ghost cv = nodes_view(self.children@);
            assert(cv.take(i + 1).drop_last() =~= cv.take(i as int));
            assert(cv.take(i + 1).last() == cv[i as int]);
            match self.children[i].find_pos(p) {
                Some(x) => {
                    proof {
                        assert(cv[i as int] == node_view(self.children@[i as int]));
                        assert(node_at(cv[i as int], p as nat) == Some(node_view(*x)));
                        assert(nodes_at(cv.take(i + 1), p as nat) == Some(node_view(*x)));
                        lemma_nodes_at_prefix(cv, i as int + 1, p as nat);
                        assert(node_at(node_view(*self), p as nat) == nodes_at(cv, p as nat));
                    }
                    return Some(x);
                },
                None => {},
            }
            i = i + 1;
        }
        proof {
            assert(nodes_view(self.children@).take(n as int) =~= nodes_view(self.children@));
        }
        None
    }
}

/// A match in a prefix of the children is the match of all of them.
pub proof fn lemma_nodes_at_prefix(cs: Seq<NodeView>, k: int, p: nat)
    requires
        0 <= k <= cs.len(),
        nodes_at(cs.take(k), p) is Some,
    ensures
        nodes_at(cs, p) == nodes_at(cs.take(k), p),
    decreases cs.len() - k,
{
    if k < cs.len() {
        assert(cs.take(k + 1).drop_last() =~= cs.take(k));
        lemma_nodes_at_prefix(cs, k + 1, p);
    } else {
        assert(cs.take(k) =~= cs);
    }
}

// ---------------------------------------------------------------------------
// The calls into `scraper`
// ---------------------------------------------------------------------------

#[verifier::external_type_specification]
#[verifier::external_body]
pub struct ExSelector(Selector);

/// A CSS selector that `scraper` has parsed, with the text it was parsed from.
pub struct CssSelector {
    sel: Selector,
    source: Vec<char>,
}

impl CssSelector {
    pub closed spec fn source(&self) -> Seq<char> {
        self.source@
    }
}

/// Names whether `scraper::Selector::parse` accepts a selector.
pub uninterp spec fn selector_parses(selector: Seq<char>) -> bool;

/// Names the pre-order walk of the document that `scraper::Html::parse_document`
/// builds from a text: each node with its depth.
pub uninterp spec fn document_walk(html: Seq<char>) -> Seq<(nat, KindView)>;

/// Names the position, in that walk, of the first element that
/// `scraper::Html::select` yields for a selector.
pub uninterp spec fn document_first_match(html: Seq<char>, selector: Seq<char>) -> Option<usize>;

/// Names the position, in that walk, of the first element that
/// `scraper::ElementRef::select` yields below the node at position `scope`.
pub uninterp spec fn element_first_match(html: Seq<char>, scope: usize, selector: Seq<char>) -> Option<usize>;

/// Names the serialization (`ElementRef::html`) of the root element of the
/// parsed document.
pub uninterp spec fn document_html(html: Seq<char>) -> Seq<char>;

/// Names the serializations (`ElementRef::html`) of the elements that
/// `Html::select` yields, in order, on the fragment that
/// `Html::parse_fragment` builds from a text.
pub uninterp spec fn fragment_selected_html(html: Seq<char>, selector: Seq<char>) -> Seq<Seq<char>>;

/// Names the texts (`ElementRef::text`, concatenated) of the elements that
/// `Html::select` yields, in order, on the fragment that
/// `Html::parse_fragment` builds from a text.
pub uninterp spec fn fragment_selected_text(html: Seq<char>, selector: Seq<char>) -> Seq<Seq<char>>;

/// Calls `scraper::Selector::parse`: it succeeds exactly when the selector
/// parses, and the result remembers its source.
#[verifier::external_body]
pub(crate) fn compile_selector(selector: &str) -> (r: Option<CssSelector>)
    ensures
        r is Some <==> selector_parses(selector@),
        r matches Some(c) ==> c.source() == selector@,
{
    Selector::parse(selector).ok().map(
        |sel| CssSelector { sel, source: selector.chars().collect() },
    )
}

/// Calls `scraper::Html::parse_document` and walks the tree it built in
/// pre-order (`descendants` of the root), handing out each node's depth and
/// kind; the result is named `document_walk`.
#[verifier::external_body]
pub(crate) fn parse_document_walk(html: &str) -> (r: Vec<FlatNode>)
    ensures
        flat_view(r@) == document_walk(html@),
{
    let doc = Html::parse_document(html);
    let cs = |s: &str| s.chars().collect::<Vec<char>>();
    doc.tree.root().descendants().map(|n| FlatNode { depth: n.ancestors().count(), kind: match n.value() {
        Node::Element(e) => NodeKind::Element { name: cs(e.name()), attrs: e.attrs.iter().map(|(k, v)|
            Attr { prefix: k.prefix.as_deref().map(cs), ns: cs(&k.ns), local: cs(&k.local), value: cs(v) }).collect() },
        Node::Text(t) => NodeKind::Text(cs(t)),
        _ => NodeKind::Other,
    } }).collect()
}

/// Calls `scraper::Html::parse_document`, then `Html::select` with the
/// selector, and hands out the pre-order position of the first element
/// selected; the result is named `document_first_match`.
#[verifier::external_body]
pub(crate) fn select_first_in_document(html: &Vec<char>, selector: &CssSelector) -> (r: Option<usize>)
    ensures
        r == document_first_match(html@, selector.source()),
{
    let doc = Html::parse_document(&html.iter().collect::<String>());
    let el = doc.select(&selector.sel).next()?;
    doc.tree.root().descendants().position(|n| n.id() == el.id())
}

/// Calls `scraper::Html::parse_document`, then `ElementRef::select` from the
/// element at pre-order position `scope`, and hands out the pre-order position
/// of the first element selected; the result is named `element_first_match`.
#[verifier::external_body]
pub(crate) fn select_first_below(html: &Vec<char>, scope: usize, selector: &CssSelector) -> (r: Option<usize>)
    ensures
        r == element_first_match(html@, scope, selector.source()),
{
    let doc = Html::parse_document(&html.iter().collect::<String>());
    let at = doc.tree.root().descendants().nth(scope).and_then(ElementRef::wrap)?;
    let el = at.select(&selector.sel).next()?;
    doc.tree.root().descendants().position(|n| n.id() == el.id())
}

/// Calls `scraper::Html::parse_document`, then `root_element().html()`; the
/// result is named `document_html`.
#[verifier::external_body]
pub(crate) fn serialize_document(html: &Vec<char>) -> (r: Vec<char>)
    ensures
        r@ == document_html(html@),
{
    let doc = Html::parse_document(&html.iter().collect::<String>());
    doc.root_element().html().chars().collect()
}

/// Calls `scraper::Html::parse_fragment`, then `Html::select`, and hands out
/// `html()` of each element selected; the result is named
/// `fragment_selected_html`.
#[verifier::external_body]
pub(crate) fn select_html_in_fragment(html: &Vec<char>, selector: &CssSelector) -> (r: Vec<Vec<char>>)
    ensures
        views(&r) == fragment_selected_html(html@, selector.source()),
{
    let frag = Html::parse_fragment(&html.iter().collect::<String>());
    frag.select(&selector.sel).map(|e| e.html().chars().collect()).collect()
}

/// Calls `scraper::Html::parse_fragment`, then `Html::select`, and hands out
/// the text (`ElementRef::text`, concatenated) of each element selected; the
/// result is named `fragment_selected_text`.
#[verifier::external_body]
pub(crate) fn select_text_in_fragment(html: &Vec<char>, selector: &CssSelector) -> (r: Vec<Vec<char>>)
    ensures
        views(&r) == fragment_selected_text(html@, selector.source()),
{
    let frag = Html::parse_fragment(&html.iter().collect::<String>());
    frag.select(&selector.sel).map(|e| e.text().collect::<String>().chars().collect()).collect()
}

/// The tree that `scraper` parses from a document.
pub open spec fn document_tree(html: Seq<char>) -> Option<NodeView> {
    tree_of(document_walk(html))
}

/// Parses a document into its tree.
pub fn parse_document_tree(html: &Vec<char>) -> (r: Option<HtmlNode>)
    ensures
        r matches Some(n) ==> document_tree(html@) == Some(node_view(n)),
        r is None ==> document_tree(html@) is None,
{
    let text = string_of(html);
    let walk = parse_document_walk(text.as_str());
    tree_of_flat(&walk)
}

} // verus!
