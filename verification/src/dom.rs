//! HTML documents as plain values: what `tl` parses, and the queries the page scrapers make of a
//! parsed page (the first or every descendant matching a simple selector, an element's text and
//! its attributes).
use vstd::prelude::*;

use crate::tagger::opt_view;
use crate::text::{str_eq, utf8_len};

verus! {

#[verifier::external_type_specification]
#[verifier::external_body]
pub struct ExHtmlParseError(tl::ParseError);

#[verifier::external_type_specification]
#[verifier::external_body]
pub struct ExHtmlDomNode<'a>(tl::Node<'a>);

#[verifier::external_type_specification]
#[verifier::external_body]
pub struct ExHtmlParser<'a>(tl::Parser<'a>);

/// A node of an HTML document.
pub enum HtmlNode {
    /// An element: its tag name, its attributes (name, and value where it has one), the names
    /// listed in its `class` attribute, and its child nodes.
    Tag {
        name: String,
        attributes: Vec<(String, Option<String>)>,
        classes: Vec<String>,
        children: Vec<HtmlNode>,
    },
    /// Text between elements, as written (entities are not decoded).
    Text(String),
    /// A comment.
    Comment,
}

/// A node as plain values.
pub enum HtmlView {
    Tag {
        name: Seq<char>,
        attributes: Seq<(Seq<char>, Option<Seq<char>>)>,
        classes: Seq<Seq<char>>,
        children: Seq<HtmlView>,
    },
    Text(Seq<char>),
    Comment,
}

pub open spec fn attributes_view(a: Seq<(String, Option<String>)>) -> Seq<(Seq<char>, Option<Seq<char>>)> {
    a.map_values(|e: (String, Option<String>)| (e.0@, opt_view(e.1)))
}

pub open spec fn html_view(n: HtmlNode) -> HtmlView
    decreases n,
{
    match n {
        HtmlNode::Tag { name, attributes, classes, children } => HtmlView::Tag {
            name: name@,
            attributes: attributes_view(attributes@),
            classes: classes@.map_values(|c: String| c@),
            children: html_views(children@),
        },
        HtmlNode::Text(t) => HtmlView::Text(t@),
        HtmlNode::Comment => HtmlView::Comment,
    }
}

pub open spec fn html_views(s: Seq<HtmlNode>) -> Seq<HtmlView>
    decreases s,
{
    if s.len() == 0 {
        Seq::empty()
    } else {
        seq![html_view(s[0])] + html_views(s.skip(1))
    }
}

/// The views of a list of nodes are the nodes' views, one for one.
pub proof fn lemma_html_views(s: Seq<HtmlNode>)
    ensures
        html_views(s).len() == s.len(),
        forall|i: int| 0 <= i < s.len() ==> #[trigger] html_views(s)[i] == html_view(s[i]),
    decreases s.len(),
{
    if s.len() > 0 {
        lemma_html_views(s.skip(1));
        assert forall|i: int| 0 <= i < s.len() implies #[trigger] html_views(s)[i] == html_view(s[i]) by {
            if i > 0 {
                assert(html_views(s)[i] == html_views(s.skip(1))[i - 1]);
                assert(s.skip(1)[i - 1] == s[i]);
            }
        }
    }
}

/// The views of the nodes that a list of references points to.
pub open spec fn ref_views(s: Seq<&HtmlNode>) -> Seq<HtmlView> {
    s.map_values(|r: &HtmlNode| html_view(*r))
}

/// Whether `tl` can parse the text: it refuses a text longer than `u32::MAX` bytes.
pub open spec fn html_parses(text: Seq<char>) -> bool {
    utf8_len(text) <= 0xffff_ffff
}

/// The nodes, each with its descendants, that `tl`'s query selector `selector` yields over the
/// whole document parsed from `text`, in the order it yields them.
pub uninterp spec fn html_selected(text: Seq<char>, selector: Seq<char>) -> Seq<HtmlView>;

/// Converts a `tl` node and its descendants, field by field. A child handle of a parsed element
/// always resolves in its parser (`tl`'s own `inner_text` relies on the same).
#[verifier::external_body]
fn html_from_node<'a>(n: &tl::Node<'a>, p: &tl::Parser<'a>) -> HtmlNode {
    match n {
        tl::Node::Tag(t) => HtmlNode::Tag {
            name: t.name().as_utf8_str().into_owned(),
            attributes: t.attributes().iter().map(|(k, v)| (k.into_owned(), v.map(|v| v.into_owned()))).collect(),
            classes: t.attributes().class_iter().into_iter().flatten().map(|c| c.to_owned()).collect(),
            children: t.children().top().iter().map(|h| html_from_node(h.get(p).unwrap(), p)).collect(),
        },
        tl::Node::Raw(b) => HtmlNode::Text(b.as_utf8_str().into_owned()),
        tl::Node::Comment(_) => HtmlNode::Comment,
    }
}

/// `tl::parse` with default options, then `VDom::query_selector(selector)`: the nodes it yields,
/// converted, in its order (none where the selector does not parse).
#[verifier::external_body]
pub(crate) fn select_in_html(text: &str, selector: &str) -> (r: Result<Vec<HtmlNode>, tl::ParseError>)
    ensures
        r is Ok <==> html_parses(text@),
        r matches Ok(v) ==> html_views(v@) == html_selected(text@, selector@),
{
    let dom = tl::parse(text, tl::ParserOptions::default())?;
    let p = dom.parser();
    Ok(dom.query_selector(selector).into_iter().flatten().map(|h| html_from_node(h.get(p).unwrap(), p)).collect())
}

/// A simple query selector: an element name (`a`), a class (`.score`), or both (`article.article`).
#[derive(Clone, Copy)]
pub enum HtmlSelector {
    Tag(&'static str),
    Class(&'static str),
    TagClass(&'static str, &'static str),
}

/// Whether `n` is an element that the selector names.
pub open spec fn selector_matches(n: HtmlView, sel: HtmlSelector) -> bool {
    match n {
        HtmlView::Tag { name, classes, .. } => match sel {
            HtmlSelector::Tag(t) => name == t@,
            HtmlSelector::Class(c) => classes.contains(c@),
            HtmlSelector::TagClass(t, c) => name == t@ && classes.contains(c@),
        },
        _ => false,
    }
}

/// The nodes of a list of nodes and of their descendants, in document order (each node before its
/// descendants, and those before the node's later siblings), that the selector names.
pub open spec fn select(nodes: Seq<HtmlView>, sel: HtmlSelector) -> Seq<HtmlView>
    decreases nodes,
{
    if nodes.len() == 0 {
        Seq::empty()
    } else {
        let n = nodes[0];
        let here = if selector_matches(n, sel) { seq![n] } else { Seq::empty() };
        match n {
            HtmlView::Tag { children, .. } => here + select(children, sel) + select(nodes.skip(1), sel),
            _ => here + select(nodes.skip(1), sel),
        }
    }
}

/// The child nodes of an element; none for other nodes.
pub open spec fn children_of(n: HtmlView) -> Seq<HtmlView> {
    match n {
        HtmlView::Tag { children, .. } => children,
        _ => Seq::empty(),
    }
}

/// The descendants of `n` that the selector names, in document order.
pub open spec fn select_within(n: HtmlView, sel: HtmlSelector) -> Seq<HtmlView> {
    select(children_of(n), sel)
}

/// The first descendant of `n` that the selector names.
pub open spec fn first_within(n: HtmlView, sel: HtmlSelector) -> Option<HtmlView> {
    let s = select_within(n, sel);
    if s.len() > 0 {
        Some(s[0])
    } else {
        None
    }
}

/// The text of a node and its descendants, without markup: text nodes in document order.
pub open spec fn inner_text(n: HtmlView) -> Seq<char>
    decreases n,
{
    match n {
        HtmlView::Tag { children, .. } => texts(children),
        HtmlView::Text(t) => t,
        HtmlView::Comment => Seq::empty(),
    }
}

pub open spec fn texts(nodes: Seq<HtmlView>) -> Seq<char>
    decreases nodes,
{
    if nodes.len() == 0 {
        Seq::empty()
    } else {
        inner_text(nodes[0]) + texts(nodes.skip(1))
    }
}

/// The value of the first attribute named `key`, where it has a value.
pub open spec fn attribute_in(attrs: Seq<(Seq<char>, Option<Seq<char>>)>, key: Seq<char>) -> Option<Seq<char>>
    decreases attrs.len(),
{
    if attrs.len() == 0 {
        None
    } else if attrs[0].0 == key {
        attrs[0].1
    } else {
        attribute_in(attrs.skip(1), key)
    }
}

/// The value of the attribute `key` of an element; `None` for other nodes.
pub open spec fn attribute_of(n: HtmlView, key: Seq<char>) -> Option<Seq<char>> {
    match n {
        HtmlView::Tag { attributes, .. } => attribute_in(attributes, key),
        _ => None,
    }
}

/// Selecting in two lists of nodes one after the other selects in the joined list.
pub proof fn lemma_select_add(a: Seq<HtmlView>, b: Seq<HtmlView>, sel: HtmlSelector)
    ensures
        select(a + b, sel) == select(a, sel) + select(b, sel),
    decreases a.len(),
{
    if a.len() == 0 {
        assert(a + b =~= b);
    } else {
        assert((a + b)[0] == a[0]);
        assert((a + b).skip(1) =~= a.skip(1) + b);
        lemma_select_add(a.skip(1), b, sel);
    }
}

/// The text of two lists of nodes one after the other is the text of the joined list.
pub proof fn lemma_texts_add(a: Seq<HtmlView>, b: Seq<HtmlView>)
    ensures
        texts(a + b) == texts(a) + texts(b),
    decreases a.len(),
{
    if a.len() == 0 {
        assert(a + b =~= b);
    } else {
        assert((a + b)[0] == a[0]);
        assert((a + b).skip(1) =~= a.skip(1) + b);
        lemma_texts_add(a.skip(1), b);
    }
}

/// The selected nodes of a single node: itself where it matches, then those among its descendants.
pub proof fn lemma_select_one(n: HtmlView, sel: HtmlSelector)
    ensures
        select(seq![n], sel) == (if selector_matches(n, sel) { seq![n] } else { Seq::empty() })
            + select(children_of(n), sel),
{
    assert(seq![n].skip(1) =~= Seq::<HtmlView>::empty());
    assert(seq![n][0] == n);
    assert(select(Seq::<HtmlView>::empty(), sel) =~= Seq::<HtmlView>::empty());
    let here = if selector_matches(n, sel) { seq![n] } else { Seq::empty() };
    assert(here + select(children_of(n), sel) + Seq::<HtmlView>::empty() =~= here + select(children_of(n), sel));
    assert(here + Seq::<HtmlView>::empty() =~= here);
}

fn selector_matches_exec(n: &HtmlNode, sel: HtmlSelector) -> (r: bool)
    ensures
        r == selector_matches(html_view(*n), sel),
{
    match n {
        HtmlNode::Tag { name, classes, .. } => {
            let ghost cv = classes@.map_values(|c: String| c@);
            match sel {
                HtmlSelector::Tag(t) => str_eq(name.as_str(), t),
                HtmlSelector::Class(c) => has_class(classes, c),
                HtmlSelector::TagClass(t, c) => str_eq(name.as_str(), t) && has_class(classes, c),
            }
        },
        _ => false,
    }
}

fn has_class(classes: &Vec<String>, c: &str) -> (r: bool)
    ensures
        r == classes@.map_values(|s: String| s@).contains(c@),
{
    let ghost cv = classes@.map_values(|s: String| s@);
    let mut i: usize = 0;
    while i < classes.len()
        invariant
            i <= classes@.len(),
            cv == classes@.map_values(|s: String| s@),
            forall|j: int| 0 <= j < i ==> cv[j] != c@,
        decreases classes@.len() - i,
    {
        if str_eq(classes[i].as_str(), c) {
            assert(cv[i as int] == c@);
            return true;
        }
        i = i + 1;
    }
    false
}

/// Appends to `out` the nodes among `nodes` and their descendants that the selector names, in
/// document order.
fn select_into<'a>(nodes: &'a Vec<HtmlNode>, sel: HtmlSelector, out: &mut Vec<&'a HtmlNode>)
    ensures
        ref_views(final(out)@) == ref_views(old(out)@) + select(html_views(nodes@), sel),
    decreases nodes@,
{
    proof {
        lemma_html_views(nodes@);
    }
    let ghost v = html_views(nodes@);
    let ghost out0 = ref_views(out@);
    let mut i: usize = 0;
    assert(v.take(0) =~= Seq::<HtmlView>::empty());
    assert(out0 + Seq::<HtmlView>::empty() =~= out0);
    while i < nodes.len()
        invariant
            i <= nodes@.len(),
            v == html_views(nodes@),
            v.len() == nodes@.len(),
            forall|k: int| 0 <= k < nodes@.len() ==> #[trigger] v[k] == html_view(nodes@[k]),
            ref_views(out@) == out0 + select(v.take(i as int), sel),
        decreases nodes@.len() - i,
    {
        let n = &nodes[i];
        let ghost nv = html_view(*n);
        proof {
            assert(v.take(i + 1) =~= v.take(i as int) + seq![nv]);
            lemma_select_add(v.take(i as int), seq![nv], sel);
            lemma_select_one(nv, sel);
        }
        let ghost before = ref_views(out@);
        if selector_matches_exec(n, sel) {
            out.push(n);
            assert(ref_views(out@) =~= before + seq![nv]);
        } else {
            assert(ref_views(out@) =~= before + Seq::<HtmlView>::empty());
        }
        let ghost mid = ref_views(out@);
        match n {
            HtmlNode::Tag { children, .. } => {
                proof {
                    assert(decreases_to!(nodes@ => nodes@[i as int]));
                }
                select_into(children, sel, out);
                assert(children_of(nv) == html_views(children@));
            },
            _ => {
                assert(children_of(nv) =~= Seq::<HtmlView>::empty());
                assert(select(Seq::<HtmlView>::empty(), sel) =~= Seq::<HtmlView>::empty());
                assert(ref_views(out@) =~= mid + Seq::<HtmlView>::empty());
            },
        }
        i = i + 1;
    }
    assert(v.take(nodes@.len() as int) =~= v);
}

/// The descendants of `n` that the selector names, in document order (`query_selector` on an
/// element: its descendants, not itself).
pub fn select_within_exec<'a>(n: &'a HtmlNode, sel: HtmlSelector) -> (r: Vec<&'a HtmlNode>)
    ensures
        ref_views(r@) == select_within(html_view(*n), sel),
{
    let mut out: Vec<&'a HtmlNode> = Vec::new();
    match n {
        HtmlNode::Tag { children, .. } => {
            select_into(children, sel, &mut out);
            assert(ref_views(Seq::<&HtmlNode>::empty()) =~= Seq::<HtmlView>::empty());
            assert(Seq::<HtmlView>::empty() + select(html_views(children@), sel) =~= select(
                html_views(children@),
                sel,
            ));
        },
        _ => {
            assert(ref_views(out@) =~= Seq::<HtmlView>::empty());
        },
    }
    out
}

/// The first descendant of `n` that the selector names.
pub fn find_first<'a>(n: &'a HtmlNode, sel: HtmlSelector) -> (r: Option<&'a HtmlNode>)
    ensures
        match (r, first_within(html_view(*n), sel)) {
            (Some(x), Some(y)) => html_view(*x) == y,
            (None, None) => true,
            _ => false,
        },
{
    let all = select_within_exec(n, sel);
    if all.len() > 0 {
        assert(ref_views(all@)[0] == html_view(*all@[0]));
        Some(all[0])
    } else {
        None
    }
}

fn texts_into(nodes: &Vec<HtmlNode>, out: &mut String)
    ensures
        final(out)@ == old(out)@ + texts(html_views(nodes@)),
    decreases nodes@,
{
    proof {
        lemma_html_views(nodes@);
    }
    let ghost v = html_views(nodes@);
    let ghost s0 = out@;
    let mut i: usize = 0;
    assert(v.take(0) =~= Seq::<HtmlView>::empty());
    assert(s0 + Seq::<char>::empty() =~= s0);
    while i < nodes.len()
        invariant
            i <= nodes@.len(),
            v == html_views(nodes@),
            v.len() == nodes@.len(),
            forall|k: int| 0 <= k < nodes@.len() ==> #[trigger] v[k] == html_view(nodes@[k]),
            out@ == s0 + texts(v.take(i as int)),
        decreases nodes@.len() - i,
    {
        let n = &nodes[i];
        let ghost nv = html_view(*n);
        proof {
            assert(v.take(i + 1) =~= v.take(i as int) + seq![nv]);
            lemma_texts_add(v.take(i as int), seq![nv]);
            assert(seq![nv].skip(1) =~= Seq::<HtmlView>::empty());
            assert(seq![nv][0] == nv);
            assert(texts(Seq::<HtmlView>::empty()) =~= Seq::<char>::empty());
            assert(texts(seq![nv]) =~= inner_text(nv));
        }
        let ghost before = out@;
        match n {
            HtmlNode::Tag { children, .. } => {
                proof {
                    assert(decreases_to!(nodes@ => nodes@[i as int]));
                }
                texts_into(children, out);
            },
            HtmlNode::Text(t) => {
                crate::text::push_str(out, t.as_str());
            },
            HtmlNode::Comment => {
                assert(out@ =~= before + Seq::<char>::empty());
            },
        }
        assert(out@ =~= s0 + texts(v.take(i + 1)));
        i = i + 1;
    }
    assert(v.take(nodes@.len() as int) =~= v);
}

/// The text of a node and its descendants, without markup (`inner_text`).
pub fn inner_text_exec(n: &HtmlNode) -> (r: String)
    ensures
        r@ == inner_text(html_view(*n)),
{
    match n {
        HtmlNode::Tag { children, .. } => {
            let mut s = String::new();
            texts_into(children, &mut s);
            assert(s@ =~= texts(html_views(children@)));
            s
        },
        HtmlNode::Text(t) => t.clone(),
        HtmlNode::Comment => String::new(),
    }
}

/// The value of the attribute `key` of an element, where it has one.
pub fn get_attribute(n: &HtmlNode, key: &str) -> (r: Option<String>)
    ensures
        opt_view(r) == attribute_of(html_view(*n), key@),
{
    match n {
        HtmlNode::Tag { attributes, .. } => {
            let ghost av = attributes_view(attributes@);
            let mut i: usize = 0;
            assert(av.skip(0) =~= av);
            assert(attribute_of(html_view(*n), key@) == attribute_in(av, key@));
            while i < attributes.len()
                invariant
                    attribute_of(html_view(*n), key@) == attribute_in(av, key@),
                    i <= attributes@.len(),
                    av == attributes_view(attributes@),
                    attribute_in(av.skip(i as int), key@) == attribute_in(av, key@),
                decreases attributes@.len() - i,
            {
                let ghost rest = av.skip(i as int);
                assert(rest.len() > 0);
                assert(rest[0] == (attributes@[i as int].0@, opt_view(attributes@[i as int].1)));
                if str_eq(attributes[i].0.as_str(), key) {
                    let r = match &attributes[i].1 {
                        Some(v) => Some(v.clone()),
                        None => None,
                    };
                    assert(opt_view(r) == rest[0].1);
                    assert(attribute_in(rest, key@) == rest[0].1);
                    return r;
                }
                assert(rest.skip(1) =~= av.skip(i + 1));
                i = i + 1;
            }
            None
        },
        _ => None,
    }
}

} // verus!
