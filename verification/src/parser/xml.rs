//! The markup as plain records, read by the XML reader.

use vstd::prelude::*;
use crate::text::to_owned_string;

verus! {

/// An attribute of an element: namespace URI, local name, value.
#[derive(Debug, Clone, PartialEq)]
pub struct XmlAttribute {
    pub namespace: Option<String>,
    pub name: String,
    pub value: String,
}

/// A namespace in scope at an element: its prefix (none for the default) and URI.
#[derive(Debug, Clone, PartialEq)]
pub struct XmlNamespace {
    pub prefix: Option<String>,
    pub uri: String,
}

/// A node of the document: elements carry a tag name, attributes and
/// namespaces; other nodes (text, comments, ...) only their position.
#[derive(Debug, Clone, PartialEq)]
pub struct XmlRecord {
    /// Local tag name; empty exactly for a node that is not an element.
    pub name: String,
    /// Index of the parent record; none for the document root.
    pub parent: Option<usize>,
    /// Byte range of the node in the source text.
    pub start: usize,
    pub end: usize,
    pub attributes: Vec<XmlAttribute>,
    pub namespaces: Vec<XmlNamespace>,
}

impl XmlAttribute {
    /// An attribute record made from borrowed strings.
    pub fn new(namespace: Option<&str>, name: &str, value: &str) -> (a: XmlAttribute)
        ensures
            a.name@ == name@,
            a.value@ == value@,
            match namespace {
                Some(u) => a.namespace is Some && a.namespace->0@ == u@,
                None => a.namespace is None,
            },
    {
        let namespace = match namespace {
            Some(u) => Some(to_owned_string(u)),
            None => None,
        };
        XmlAttribute { namespace, name: to_owned_string(name), value: to_owned_string(value) }
    }
}

impl XmlNamespace {
    /// A namespace record made from borrowed strings.
    pub fn new(prefix: Option<&str>, uri: &str) -> (n: XmlNamespace)
        ensures
            n.uri@ == uri@,
            match prefix {
                Some(p) => n.prefix is Some && n.prefix->0@ == p@,
                None => n.prefix is None,
            },
    {
        let prefix = match prefix {
            Some(p) => Some(to_owned_string(p)),
            None => None,
        };
        XmlNamespace { prefix, uri: to_owned_string(uri) }
    }
}

impl XmlRecord {
    /// Whether the record is an element: elements, and only they, have a name.
    pub open spec fn spec_is_element(&self) -> bool {
        self.name@.len() > 0
    }

    #[verifier::when_used_as_spec(spec_is_element)]
    pub fn is_element(&self) -> (b: bool)
        ensures
            b == self.spec_is_element(),
    {
        self.name.as_str().unicode_len() > 0
    }
}

/// All nodes of a document in document order, the document root first;
/// record `i` is the node the reader numbers `i`, so a parent comes before
/// its children.
#[derive(Debug, Clone, PartialEq)]
pub struct XmlDocument {
    pub nodes: Vec<XmlRecord>,
}

/// What the XML reader makes of a text: its nodes, or its error message.
pub uninterp spec fn xml_document(text: Seq<char>) -> Result<XmlDocument, Seq<char>>;

/// Calls `roxmltree::Document::parse` and copies every node, in document
/// order, into a record; on failure, the reader's error message. The result
/// is named `xml_document`.
#[verifier::external_body]
pub(crate) fn read_xml(text: &str) -> (res: Result<XmlDocument, String>)
    ensures
        xml_document(text@) == match res {
            Ok(d) => Ok::<XmlDocument, Seq<char>>(d),
            Err(e) => Err::<XmlDocument, Seq<char>>(e@),
        },
{
    let doc = roxmltree::Document::parse(text).map_err(|e| e.to_string())?;
    Ok(XmlDocument { nodes: doc.descendants().map(|n| XmlRecord {
        name: n.tag_name().name().into(),
        parent: n.parent().map(|p| p.id().get_usize()), start: n.range().start, end: n.range().end,
        attributes: n.attributes().map(|a| XmlAttribute::new(a.namespace(), a.name(), a.value())).collect(),
        namespaces: n.namespaces().map(|s| XmlNamespace::new(s.name(), s.uri())).collect(),
    }).collect() })
}

} // verus!
