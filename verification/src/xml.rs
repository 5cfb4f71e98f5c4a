//! XML documents as plain values: what `roxmltree` parses.
use vstd::prelude::*;

verus! {

#[verifier::external_type_specification]
#[verifier::external_body]
pub struct ExXmlNode<'a, 'input: 'a>(roxmltree::Node<'a, 'input>);

/// A node of an XML document: whether it is an element, its tag name (empty for other nodes), its
/// text (for an element, the text of a first child that is text) and its children.
pub struct XmlNode {
    pub is_element: bool,
    pub name: String,
    pub text: Option<String>,
    pub children: Vec<XmlNode>,
}

/// A node as plain values.
pub struct XmlView {
    pub is_element: bool,
    pub name: Seq<char>,
    pub text: Option<Seq<char>>,
    pub children: Seq<XmlView>,
}

pub open spec fn xml_view(n: XmlNode) -> XmlView
    decreases n,
{
    XmlView {
        is_element: n.is_element,
        name: n.name@,
        text: crate::tagger::opt_view(n.text),
        children: xml_views(n.children@),
    }
}

pub open spec fn xml_views(s: Seq<XmlNode>) -> Seq<XmlView>
    decreases s,
{
    if s.len() == 0 {
        Seq::empty()
    } else {
        seq![xml_view(s[0])] + xml_views(s.skip(1))
    }
}

pub proof fn lemma_xml_views(s: Seq<XmlNode>)
    ensures
        xml_views(s).len() == s.len(),
        forall|i: int| 0 <= i < s.len() ==> #[trigger] xml_views(s)[i] == xml_view(s[i]),
    decreases s.len(),
{
    if s.len() > 0 {
        lemma_xml_views(s.skip(1));
        assert forall|i: int| 0 <= i < s.len() implies #[trigger] xml_views(s)[i] == xml_view(s[i]) by {
            if i > 0 {
                assert(xml_views(s)[i] == xml_views(s.skip(1))[i - 1]);
                assert(s.skip(1)[i - 1] == s[i]);
            }
        }
    }
}

/// Whether `roxmltree` parses the text as an XML document.
pub uninterp spec fn xml_parses(text: Seq<char>) -> bool;

/// The root element of the document `roxmltree` parses the text as.
pub uninterp spec fn xml_root_of(text: Seq<char>) -> XmlView;

/// Converts a `roxmltree` node and its descendants, field by field.
#[verifier::external_body]
fn xml_from_node(n: roxmltree::Node) -> XmlNode {
    XmlNode {
        is_element: n.is_element(),
        name: n.tag_name().name().to_owned(),
        text: n.text().map(|t| t.to_owned()),
        children: n.children().map(xml_from_node).collect(),
    }
}

/// `roxmltree::Document::parse`, and the document's root element, converted.
#[verifier::external_body]
pub(crate) fn parse_xml(text: &str) -> (r: Result<XmlNode, roxmltree::Error>)
    ensures
        r is Ok <==> xml_parses(text@),
        r matches Ok(root) ==> xml_view(root) == xml_root_of(text@),
{
    match roxmltree::Document::parse(text) {
        Ok(doc) => Ok(xml_from_node(doc.root_element())),
        Err(e) => Err(e),
    }
}

} // verus!
