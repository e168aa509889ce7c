//! The XML a part is written in, as the rest of the library reads it.
//!
//! A part is parsed by roxmltree, and what the parse found is taken into a
//! [`XmlDoc`] of plain values: every node in document order, with its kind,
//! its parent, its local name, the bytes of the part it spans, its text, and
//! its attributes with the bytes they span. Everything the readers ask of a
//! part, the direct children of one name and the text beneath an element, is
//! a question about that model.
//!
//! A re-serialising tool writes every element with a namespace prefix, so only
//! the local name is compared; and an entity reference splits an element's
//! text into several nodes, so only their concatenation is the text.
//!
//! A parse that reports a byte range not falling on whole characters of the
//! part, or an attribute value not between its quotes, is refused.

use roxmltree::{Document, NodeId, NodeType};
use vstd::prelude::*;
use vstd::utf8::encode_utf8;

use crate::bytes::{at_char_boundary, boundaries, byte_len};
use crate::text::{chars_of, push_char, seq_eq};

verus! {

#[verifier::external_type_specification]
#[verifier::external_body]
pub struct ExDocument<'input>(Document<'input>);

/// One attribute as a parse reports it: its local name, its value with the
/// entities resolved, the bytes of the part the whole attribute and its
/// value (without the quotes) span, and whether it is in a namespace.
pub type RawAttr = (Seq<char>, Seq<char>, int, int, int, int, bool);

/// One namespace binding as a parse reports it: its prefix, none for the
/// default namespace, and its URI.
pub type RawNamespace = (Option<Seq<char>>, Seq<char>);

/// One node as a parse reports it: its kind (0 the document, 1 an element,
/// 2 a processing instruction, 3 a comment, 4 text), its parent's place, its
/// local name, the bytes it spans, its text, its attributes, and the
/// namespaces in scope on it.
pub type RawNode = (int, Option<int>, Seq<char>, int, int, Option<Seq<char>>, Seq<RawAttr>, Seq<RawNamespace>);

/// What roxmltree's `Document::parse` makes of `text`: every node in document
/// order, or the message its error displays.
pub uninterp spec fn roxml_parsed(text: Seq<char>) -> Result<Seq<RawNode>, Seq<char>>;

/// What a parsed document holds, node by node in the order of their ids.
pub uninterp spec fn document_nodes(doc: Document) -> Seq<RawNode>;

/// Whether bytes `a..b` of `text` are a run of its whole characters.
pub open spec fn span_fits(text: Seq<char>, a: int, b: int) -> bool {
    0 <= a <= b && at_char_boundary(text, a) && at_char_boundary(text, b)
}

/// Whether an attribute's value lies between two like quotes in the bytes
/// of `text`, as a value does.
pub open spec fn value_quoted(text: Seq<char>, a: RawAttr) -> bool {
    let b = encode_utf8(text);
    &&& 1 <= a.4 <= a.5 < b.len()
    &&& (b[a.4 - 1] == 0x22u8 || b[a.4 - 1] == 0x27u8)
    &&& b[a.5] == b[a.4 - 1]
}

/// Whether an attribute's bytes, and its value's, are runs of whole
/// characters of `text`, the value's between its quotes.
pub open spec fn attr_fits(text: Seq<char>, a: RawAttr) -> bool {
    span_fits(text, a.2, a.3) && span_fits(text, a.4, a.5) && value_quoted(text, a)
}

/// Whether a node's bytes, and each of its attributes', are runs of whole
/// characters of `text`.
pub open spec fn node_fits(text: Seq<char>, n: RawNode) -> bool {
    span_fits(text, n.3, n.4) && forall|k: int| 0 <= k < n.6.len() ==> attr_fits(text, #[trigger] n.6[k])
}

/// Whether every node of `nodes` sits on whole characters of `text`.
pub open spec fn ranges_fit(text: Seq<char>, nodes: Seq<RawNode>) -> bool {
    forall|i: int| 0 <= i < nodes.len() ==> node_fits(text, #[trigger] nodes[i])
}

/// The message a part is refused with where the parse reports a byte range
/// that is not where the text puts what it covers.
pub open spec fn split_range_message() -> Seq<char> {
    "a byte range the parse reports does not match the text"@
}

/// What a part is read as: what roxmltree makes of `text`, refused where a
/// byte range it reports for a node, an attribute or an attribute's value
/// does not fall on whole characters of `text`, or a value's does not lie
/// between its quotes. roxmltree counts an attribute's name and the spacing
/// round its `=` in bounded fields, so the value range it reports past a very
/// long name or very wide spacing is not the value's.
#[verifier::opaque]
pub open spec fn parsed_xml(text: Seq<char>) -> Result<Seq<RawNode>, Seq<char>> {
    match roxml_parsed(text) {
        Ok(nodes) => if ranges_fit(text, nodes) {
            Ok(nodes)
        } else {
            Err(split_range_message())
        },
        Err(m) => Err(m),
    }
}

/// Whether the parse of `text` found `nodes`.
pub open spec fn parses_to(text: Seq<char>, nodes: Seq<RawNode>) -> bool {
    parsed_xml(text) == Ok::<Seq<RawNode>, Seq<char>>(nodes)
}

/// Whether the parse of `text` failed with `message`.
pub open spec fn fails_with(text: Seq<char>, message: Seq<char>) -> bool {
    parsed_xml(text) == Err::<Seq<RawNode>, Seq<char>>(message)
}

/// `roxmltree::Document::parse`. What the document holds is what the parse
/// of `text` gives, a document parsed always has a root element, and a
/// failure carries the message its error displays. Nothing is said of where
/// the byte ranges it reports fall: the library checks them itself.
#[verifier::external_body]
fn parse_document(text: &str) -> (doc: Result<Document<'_>, String>)
    ensures
        doc is Ok <==> roxml_parsed(text@) is Ok,
        doc matches Ok(d) ==> (roxml_parsed(text@) matches Ok(s) && s == document_nodes(d)),
        doc matches Ok(d) ==> root_element(document_nodes(d)) is Some,
        doc matches Err(m) ==> (roxml_parsed(text@) matches Err(e) && e == m@),
{
    Document::parse(text).map_err(|err| err.to_string())
}

/// `Document::descendants` counted: every node of the document, the root
/// among them.
#[verifier::external_body]
fn node_count(doc: &Document) -> (n: usize)
    ensures
        n == document_nodes(*doc).len(),
{
    doc.descendants().count()
}

/// `Node::node_type` of the node with id `i`, by the number its kind is
/// modelled with.
#[verifier::external_body]
fn node_kind(doc: &Document, i: usize) -> (kind: u8)
    requires
        i < document_nodes(*doc).len(),
    ensures
        kind as int == document_nodes(*doc)[i as int].0,
{
    match doc.get_node(NodeId::new(i as u32)).unwrap().node_type() {
        NodeType::Root => 0,
        NodeType::Element => 1,
        NodeType::PI => 2,
        NodeType::Comment => 3,
        NodeType::Text => 4,
    }
}

/// `Node::parent` of the node with id `i`, by its id.
#[verifier::external_body]
fn node_parent(doc: &Document, i: usize) -> (parent: Option<usize>)
    requires
        i < document_nodes(*doc).len(),
    ensures
        match parent {
            Some(p) => document_nodes(*doc)[i as int].1 == Some(p as int),
            None => document_nodes(*doc)[i as int].1 is None,
        },
{
    doc.get_node(NodeId::new(i as u32)).unwrap().parent().map(|p| p.id().get_usize())
}

/// `Node::tag_name().name()` of the node with id `i`: its local name.
#[verifier::external_body]
fn node_name(doc: &Document, i: usize) -> (name: String)
    requires
        i < document_nodes(*doc).len(),
    ensures
        name@ == document_nodes(*doc)[i as int].2,
{
    doc.get_node(NodeId::new(i as u32)).unwrap().tag_name().name().to_string()
}

/// `Node::range` of the node with id `i`.
#[verifier::external_body]
fn node_range(doc: &Document, i: usize) -> (range: (usize, usize))
    requires
        i < document_nodes(*doc).len(),
    ensures
        range.0 as int == document_nodes(*doc)[i as int].3,
        range.1 as int == document_nodes(*doc)[i as int].4,
{
    let range = doc.get_node(NodeId::new(i as u32)).unwrap().range();
    (range.start, range.end)
}

/// `Node::text` of the node with id `i`.
#[verifier::external_body]
fn node_text(doc: &Document, i: usize) -> (text: Option<String>)
    requires
        i < document_nodes(*doc).len(),
    ensures
        match text {
            Some(t) => document_nodes(*doc)[i as int].5 == Some(t@),
            None => document_nodes(*doc)[i as int].5 is None,
        },
{
    doc.get_node(NodeId::new(i as u32)).unwrap().text().map(|t| t.to_string())
}

/// `Node::attributes` of the node with id `i`, counted.
#[verifier::external_body]
fn attribute_count(doc: &Document, i: usize) -> (n: usize)
    requires
        i < document_nodes(*doc).len(),
    ensures
        n == document_nodes(*doc)[i as int].6.len(),
{
    doc.get_node(NodeId::new(i as u32)).unwrap().attributes().len()
}

/// `Node::namespaces` of the node with id `i`, counted.
#[verifier::external_body]
fn namespace_count(doc: &Document, i: usize) -> (n: usize)
    requires
        i < document_nodes(*doc).len(),
    ensures
        n == document_nodes(*doc)[i as int].7.len(),
{
    doc.get_node(NodeId::new(i as u32)).unwrap().namespaces().len()
}

/// The namespace at place `j` among those of the node with id `i`:
/// `Namespace::name` and `Namespace::uri`.
#[verifier::external_body]
fn namespace_at(doc: &Document, i: usize, j: usize) -> (ns: (Option<String>, String))
    requires
        i < document_nodes(*doc).len(),
        j < document_nodes(*doc)[i as int].7.len(),
    ensures
        match ns.0 {
            Some(p) => document_nodes(*doc)[i as int].7[j as int].0 == Some(p@),
            None => document_nodes(*doc)[i as int].7[j as int].0 is None,
        },
        ns.1@ == document_nodes(*doc)[i as int].7[j as int].1,
{
    let node = doc.get_node(NodeId::new(i as u32)).unwrap();
    let ns = node.namespaces().nth(j).unwrap();
    (ns.name().map(|p| p.to_string()), ns.uri().to_string())
}

/// The attribute at place `j` of the node with id `i`: `Attribute::name`,
/// `Attribute::value`, `Attribute::range`, `Attribute::range_value` and
/// whether `Attribute::namespace` names one.
#[verifier::external_body]
fn attribute_at(doc: &Document, i: usize, j: usize) -> (attr: (String, String, usize, usize, usize, usize, bool))
    requires
        i < document_nodes(*doc).len(),
        j < document_nodes(*doc)[i as int].6.len(),
    ensures
        attr.0@ == document_nodes(*doc)[i as int].6[j as int].0,
        attr.1@ == document_nodes(*doc)[i as int].6[j as int].1,
        attr.2 as int == document_nodes(*doc)[i as int].6[j as int].2,
        attr.3 as int == document_nodes(*doc)[i as int].6[j as int].3,
        attr.4 as int == document_nodes(*doc)[i as int].6[j as int].4,
        attr.5 as int == document_nodes(*doc)[i as int].6[j as int].5,
        attr.6 == document_nodes(*doc)[i as int].6[j as int].6,
{
    let node = doc.get_node(NodeId::new(i as u32)).unwrap();
    let a = node.attributes().nth(j).unwrap();
    let (range, value) = (a.range(), a.range_value());
    let qualified = a.namespace().is_some();
    (a.name().to_string(), a.value().to_string(), range.start, range.end, value.start, value.end, qualified)
}

/// One attribute of an element.
#[derive(Debug, Clone)]
pub struct XmlAttr {
    /// The local name.
    pub name: String,
    /// The value, its entities resolved.
    pub value: String,
    /// Where the whole attribute starts in the part.
    pub start: usize,
    /// Where the whole attribute ends.
    pub end: usize,
    /// Where its value starts, inside the quotes.
    pub value_start: usize,
    /// Where its value ends, before the closing quote.
    pub value_end: usize,
    /// Whether it is in a namespace, as `r:id` is.
    pub qualified: bool,
}

/// One node of a part.
#[derive(Debug, Clone)]
pub struct XmlNode {
    /// 0 the document, 1 an element, 2 a processing instruction, 3 a comment,
    /// 4 text.
    pub kind: u8,
    /// The parent's place among the nodes.
    pub parent: Option<usize>,
    /// The local name of an element; empty for anything else.
    pub name: String,
    /// Where the node starts in the part.
    pub start: usize,
    /// Where it ends.
    pub end: usize,
    /// Its text.
    pub text: Option<String>,
    /// Its attributes, in the order it carries them.
    pub attributes: Vec<XmlAttr>,
    /// The namespaces in scope on it: each prefix, none for the default
    /// namespace, and its URI.
    pub namespaces: Vec<(Option<String>, String)>,
}

/// A parsed part: every node, in document order.
#[derive(Debug, Clone)]
pub struct XmlDoc {
    pub nodes: Vec<XmlNode>,
}

impl XmlAttr {
    pub open spec fn raw(&self) -> RawAttr {
        (
            self.name@,
            self.value@,
            self.start as int,
            self.end as int,
            self.value_start as int,
            self.value_end as int,
            self.qualified,
        )
    }
}

/// A namespace binding as the rules read it.
pub open spec fn raw_namespace(n: (Option<String>, String)) -> RawNamespace {
    (
        match n.0 {
            Some(p) => Some(p@),
            None => None,
        },
        n.1@,
    )
}

impl XmlNode {
    pub open spec fn raw(&self) -> RawNode {
        (
            self.kind as int,
            match self.parent {
                Some(p) => Some(p as int),
                None => None,
            },
            self.name@,
            self.start as int,
            self.end as int,
            match self.text {
                Some(t) => Some(t@),
                None => None,
            },
            self.attributes@.map_values(|a: XmlAttr| a.raw()),
            self.namespaces@.map_values(|n: (Option<String>, String)| raw_namespace(n)),
        )
    }
}

impl View for XmlDoc {
    type V = Seq<RawNode>;

    open spec fn view(&self) -> Seq<RawNode> {
        self.nodes@.map_values(|n: XmlNode| n.raw())
    }
}

impl XmlDoc {
    /// Parse `text` with roxmltree and take what it found, refusing a parse
    /// that reports a byte range not falling on whole characters of `text`.
    pub fn parse(text: &str) -> (doc: Result<XmlDoc, String>)
        ensures
            match doc {
                Ok(d) => parses_to(text@, d@) && root_element(d@) is Some && ranges_fit(text@, d@),
                Err(m) => fails_with(text@, m@),
            },
    {
        proof {
            reveal(parsed_xml);
        }
        let document = match parse_document(text) {
            Ok(d) => d,
            Err(m) => return Err(m),
        };
        let n = node_count(&document);
        let mut nodes: Vec<XmlNode> = Vec::new();
        let mut i: usize = 0;
        while i < n
            invariant
                n == document_nodes(document).len(),
                i <= n,
                nodes@.len() == i,
                forall|k: int| 0 <= k < i ==> (#[trigger] nodes@[k]).raw() == document_nodes(document)[k],
            decreases n - i,
        {
            let count = attribute_count(&document, i);
            let mut attributes: Vec<XmlAttr> = Vec::new();
            let mut j: usize = 0;
            while j < count
                invariant
                    n == document_nodes(document).len(),
                    i < n,
                    count == document_nodes(document)[i as int].6.len(),
                    j <= count,
                    attributes@.len() == j,
                    forall|k: int| 0 <= k < j ==> (#[trigger] attributes@[k]).raw()
                        == document_nodes(document)[i as int].6[k],
                decreases count - j,
            {
                let (name, value, start, end, value_start, value_end, qualified) = attribute_at(
                    &document,
                    i,
                    j,
                );
                attributes.push(XmlAttr { name, value, start, end, value_start, value_end, qualified });
                j = j + 1;
            }
            let bound = namespace_count(&document, i);
            let mut namespaces: Vec<(Option<String>, String)> = Vec::new();
            let mut j: usize = 0;
            while j < bound
                invariant
                    n == document_nodes(document).len(),
                    i < n,
                    bound == document_nodes(document)[i as int].7.len(),
                    j <= bound,
                    namespaces@.len() == j,
                    forall|k: int| 0 <= k < j ==> raw_namespace(#[trigger] namespaces@[k])
                        == document_nodes(document)[i as int].7[k],
                decreases bound - j,
            {
                namespaces.push(namespace_at(&document, i, j));
                j = j + 1;
            }
            let (start, end) = node_range(&document, i);
            let node = XmlNode {
                kind: node_kind(&document, i),
                parent: node_parent(&document, i),
                name: node_name(&document, i),
                start,
                end,
                text: node_text(&document, i),
                attributes,
                namespaces,
            };
            assert(node.attributes@.map_values(|a: XmlAttr| a.raw()) =~= document_nodes(document)[i as int].6);
            assert(node.namespaces@.map_values(|n: (Option<String>, String)| raw_namespace(n))
                =~= document_nodes(document)[i as int].7);
            nodes.push(node);
            i = i + 1;
        }
        let doc = XmlDoc { nodes };
        assert(doc@ =~= document_nodes(document));
        if !spans_fit(&doc, text) {
            return Err(String::from_str("a byte range the parse reports does not match the text"));
        }
        Ok(doc)
    }
}

/// Whether bytes `a..b` are a run of whole characters of `text`, read off
/// the marks `boundaries` puts on its bytes.
fn span_ok(marks: &Vec<bool>, text: &str, a: usize, b: usize) -> (ok: bool)
    requires
        marks@.len() == byte_len(text@) + 1,
        forall|c: int| 0 <= c < marks@.len() ==> (#[trigger] marks@[c] <==> at_char_boundary(text@, c)),
        forall|c: int| at_char_boundary(text@, c) ==> 0 <= c < marks@.len(),
    ensures
        ok == span_fits(text@, a as int, b as int),
{
    a <= b && b < marks.len() && marks[a] && marks[b]
}

/// Whether every byte range `doc` reports, of a node, an attribute or an
/// attribute's value, is a run of whole characters of `text`.
fn spans_fit(doc: &XmlDoc, text: &str) -> (fit: bool)
    ensures
        fit == ranges_fit(text@, doc@),
{
    let marks = boundaries(text);
    let bytes = text.as_bytes();
    let mut i: usize = 0;
    while i < doc.nodes.len()
        invariant
            marks@.len() == byte_len(text@) + 1,
            forall|c: int| 0 <= c < marks@.len() ==> (#[trigger] marks@[c] <==> at_char_boundary(text@, c)),
            forall|c: int| at_char_boundary(text@, c) ==> 0 <= c < marks@.len(),
            bytes@ == encode_utf8(text@),
            i <= doc.nodes@.len(),
            forall|k: int| 0 <= k < i ==> node_fits(text@, #[trigger] doc@[k]),
        decreases doc.nodes@.len() - i,
    {
        let node = &doc.nodes[i];
        assert(doc@[i as int] == node.raw());
        if !span_ok(&marks, text, node.start, node.end) {
            return false;
        }
        let mut j: usize = 0;
        while j < node.attributes.len()
            invariant
                marks@.len() == byte_len(text@) + 1,
                forall|c: int| 0 <= c < marks@.len() ==> (#[trigger] marks@[c] <==> at_char_boundary(text@, c)),
                forall|c: int| at_char_boundary(text@, c) ==> 0 <= c < marks@.len(),
                bytes@ == encode_utf8(text@),
                i < doc.nodes@.len(),
                *node == doc.nodes@[i as int],
                j <= node.attributes@.len(),
                forall|k: int| 0 <= k < j ==> attr_fits(text@, #[trigger] node.attributes@[k].raw()),
            decreases node.attributes@.len() - j,
        {
            let a = &node.attributes[j];
            let quoted = 1 <= a.value_start && a.value_start <= a.value_end && a.value_end < bytes.len() && (
            bytes[a.value_start - 1] == 0x22u8 || bytes[a.value_start - 1] == 0x27u8) && bytes[a.value_end]
                == bytes[a.value_start - 1];
            if !span_ok(&marks, text, a.start, a.end) || !span_ok(&marks, text, a.value_start, a.value_end)
                || !quoted {
                assert(doc@[i as int].6[j as int] == a.raw());
                return false;
            }
            j = j + 1;
        }
        assert(node_fits(text@, doc@[i as int])) by {
            assert forall|k: int| 0 <= k < doc@[i as int].6.len() implies attr_fits(text@, #[trigger] doc@[i as int].6[k]) by {
                assert(doc@[i as int].6[k] == node.attributes@[k].raw());
            }
        }
        i = i + 1;
    }
    true
}


/// Whether node `j` lies beneath node `p`: its chain of parents, each before
/// the one it holds, reaches `p`.
pub open spec fn descends(s: Seq<RawNode>, j: int, p: int) -> bool
    decreases j,
{
    if j <= p || j >= s.len() || p < 0 {
        false
    } else {
        match s[j].1 {
            Some(q) => q == p || (p < q && q < j && descends(s, q, p)),
            None => false,
        }
    }
}

/// Where the run of nodes from `j` that lie beneath `p` ends.
pub open spec fn run_end(s: Seq<RawNode>, p: int, j: int) -> int
    decreases s.len() - j,
{
    if 0 <= j < s.len() && descends(s, j, p) {
        run_end(s, p, j + 1)
    } else {
        j
    }
}

/// Where the nodes beneath `p`, which follow it in document order, end.
pub open spec fn subtree_end(s: Seq<RawNode>, p: int) -> int {
    run_end(s, p, p + 1)
}

/// Whether node `j` is an element directly under `p`, called `name` where a
/// name is asked for.
pub open spec fn child_matches(s: Seq<RawNode>, p: int, j: int, name: Option<Seq<char>>) -> bool {
    &&& 0 <= j < s.len()
    &&& s[j].1 == Some(p)
    &&& s[j].0 == 1
    &&& (name matches Some(n) ==> s[j].2 == n)
}

/// The elements directly under `p` among the nodes `from..to`, in order.
pub open spec fn children_in(
    s: Seq<RawNode>,
    p: int,
    name: Option<Seq<char>>,
    from: int,
    to: int,
) -> Seq<int>
    decreases to - from,
{
    if to <= from {
        Seq::empty()
    } else {
        let rest = children_in(s, p, name, from, to - 1);
        if child_matches(s, p, to - 1, name) {
            rest.push(to - 1)
        } else {
            rest
        }
    }
}

/// The elements directly under `p`, called `name` where a name is asked
/// for, in document order.
pub open spec fn children(s: Seq<RawNode>, p: int, name: Option<Seq<char>>) -> Seq<int> {
    children_in(s, p, name, p + 1, subtree_end(s, p))
}

/// The first element directly under `p` called `name`.
pub open spec fn first_child(s: Seq<RawNode>, p: int, name: Seq<char>) -> Option<int> {
    let c = children(s, p, Some(name));
    if c.len() > 0 {
        Some(c[0])
    } else {
        None
    }
}

/// The first element a part holds directly under the document, from `j` on.
pub open spec fn root_from(s: Seq<RawNode>, j: int) -> Option<int>
    decreases s.len() - j,
{
    if j < 0 || j >= s.len() {
        None
    } else if s[j].1 == Some(0int) && s[j].0 == 1 {
        Some(j)
    } else {
        root_from(s, j + 1)
    }
}

/// The root element of a part.
pub open spec fn root_element(s: Seq<RawNode>) -> Option<int> {
    root_from(s, 1)
}

/// The root element of a part is an element directly under the document.
pub proof fn lemma_root_is_element(s: Seq<RawNode>)
    ensures
        root_element(s) matches Some(r) ==> 1 <= r < s.len() && s[r].0 == 1 && s[r].1 == Some(0int),
{
    lemma_root_from(s, 1);
}

proof fn lemma_root_from(s: Seq<RawNode>, j: int)
    ensures
        root_from(s, j) matches Some(r) ==> j <= r < s.len() && s[r].0 == 1 && s[r].1 == Some(0int),
    decreases s.len() - j,
{
    if 0 <= j < s.len() && !(s[j].1 == Some(0int) && s[j].0 == 1) {
        lemma_root_from(s, j + 1);
    }
}

/// The first of `a`, from `k` on, called `name` and in no namespace, which
/// is what roxmltree's `Node::attribute` looks for when given a bare name.
pub open spec fn find_attr_from(a: Seq<RawAttr>, name: Seq<char>, k: int) -> Option<int>
    decreases a.len() - k,
{
    if k < 0 || k >= a.len() {
        None
    } else if a[k].0 == name && !a[k].6 {
        Some(k)
    } else {
        find_attr_from(a, name, k + 1)
    }
}

/// The first of `a`, from `k` on, whose local name is `name`, whatever its
/// namespace.
pub open spec fn find_local_attr_from(a: Seq<RawAttr>, name: Seq<char>, k: int) -> Option<int>
    decreases a.len() - k,
{
    if k < 0 || k >= a.len() {
        None
    } else if a[k].0 == name {
        Some(k)
    } else {
        find_local_attr_from(a, name, k + 1)
    }
}

/// The value of node `i`'s attribute whose local name is `name`, whatever
/// its namespace.
pub open spec fn local_attribute(s: Seq<RawNode>, i: int, name: Seq<char>) -> Option<Seq<char>> {
    match find_local_attr_from(s[i].6, name, 0) {
        Some(k) => Some(s[i].6[k].1),
        None => None,
    }
}

/// The value of node `i`'s attribute called `name` in no namespace.
pub open spec fn attribute(s: Seq<RawNode>, i: int, name: Seq<char>) -> Option<Seq<char>> {
    match find_attr_from(s[i].6, name, 0) {
        Some(k) => Some(s[i].6[k].1),
        None => None,
    }
}

/// The text a node contributes: its own, where it is text.
pub open spec fn text_piece(n: RawNode) -> Seq<char> {
    if n.0 == 4 {
        match n.5 {
            Some(t) => t,
            None => Seq::empty(),
        }
    } else {
        Seq::empty()
    }
}

/// The text of the nodes `from..to`, in document order.
pub open spec fn texts_in(s: Seq<RawNode>, from: int, to: int) -> Seq<char>
    decreases to - from,
{
    if to <= from {
        Seq::empty()
    } else {
        texts_in(s, from, to - 1) + text_piece(s[to - 1])
    }
}

/// Everything `p` holds as text, in document order: every text node at or
/// beneath it, because an entity reference splits text in two and both
/// halves are the text.
pub open spec fn text_of(s: Seq<RawNode>, p: int) -> Seq<char> {
    texts_in(s, p, subtree_end(s, p))
}

pub proof fn lemma_run_end_bounds(s: Seq<RawNode>, p: int, j: int)
    requires
        0 <= j,
    ensures
        j <= run_end(s, p, j),
        run_end(s, p, j) <= s.len() || run_end(s, p, j) == j,
    decreases s.len() - j,
{
    if 0 <= j < s.len() && descends(s, j, p) {
        lemma_run_end_bounds(s, p, j + 1);
    }
}

impl XmlDoc {
    /// Whether node `j` lies beneath node `p`.
    pub fn descends(&self, j: usize, p: usize) -> (yes: bool)
        ensures
            yes == descends(self@, j as int, p as int),
    {
        let n = self.nodes.len();
        if j >= n {
            return false;
        }
        let mut cur = j;
        loop
            invariant
                n == self@.len(),
                cur <= j < n,
                descends(self@, j as int, p as int) == descends(self@, cur as int, p as int),
            decreases cur,
        {
            if cur <= p {
                return false;
            }
            assert(self@[cur as int] == self.nodes@[cur as int].raw());
            match self.nodes[cur].parent {
                Some(q) => {
                    if q == p {
                        return true;
                    } else if p < q && q < cur {
                        cur = q;
                    } else {
                        return false;
                    }
                },
                None => return false,
            }
        }
    }

    /// Where the nodes beneath `p` end.
    pub fn subtree_end(&self, p: usize) -> (end: usize)
        requires
            p < self@.len(),
        ensures
            end == subtree_end(self@, p as int),
            p < end <= self@.len(),
    {
        let n = self.nodes.len();
        let mut j = p + 1;
        while j < n && self.descends(j, p)
            invariant
                n == self@.len(),
                p < j <= n,
                subtree_end(self@, p as int) == run_end(self@, p as int, j as int),
            decreases n - j,
        {
            j = j + 1;
        }
        j
    }

    /// The elements directly under `p`, called `name` where one is given, in
    /// document order.
    #[verifier::loop_isolation(false)]
    pub fn children(&self, p: usize, name: Option<&str>) -> (found: Vec<usize>)
        requires
            p < self@.len(),
        ensures
            found@.map_values(|j: usize| j as int) == children(
                self@,
                p as int,
                match name {
                    Some(n) => Some(n@),
                    None => None,
                },
            ),
            forall|k: int| 0 <= k < found@.len() ==> p < #[trigger] found@[k] < self@.len(),
    {
        let ghost wanted = match name {
            Some(n) => Some(n@),
            None => None::<Seq<char>>,
        };
        let end = self.subtree_end(p);
        let mut found: Vec<usize> = Vec::new();
        let mut j = p + 1;
        while j < end
            invariant
                p < j <= end <= self@.len(),
                end == subtree_end(self@, p as int),
                found@.map_values(|j: usize| j as int) == children_in(self@, p as int, wanted, p + 1, j as int),
                forall|k: int| 0 <= k < found@.len() ==> p < #[trigger] found@[k] < j,
            decreases end - j,
        {
            assert(self@[j as int] == self.nodes@[j as int].raw());
            let node = &self.nodes[j];
            let matches = node.parent == Some(p) && node.kind == 1 && match name {
                Some(n) => crate::text::str_eq(node.name.as_str(), n),
                None => true,
            };
            let ghost before = found@;
            if matches {
                found.push(j);
                assert(found@.map_values(|j: usize| j as int) =~= before.map_values(
                    |j: usize| j as int,
                ).push(j as int));
            } else {
                assert(found@ == before);
            }
            j = j + 1;
            assert(found@.map_values(|j: usize| j as int) =~= children_in(self@, p as int, wanted, p + 1, j as int));
        }
        found
    }

    /// The first element directly under `p` called `name`.
    pub fn first_child(&self, p: usize, name: &str) -> (found: Option<usize>)
        requires
            p < self@.len(),
        ensures
            match found {
                Some(j) => first_child(self@, p as int, name@) == Some(j as int) && p < j
                    < self@.len(),
                None => first_child(self@, p as int, name@) is None,
            },
    {
        let all = self.children(p, Some(name));
        if all.len() > 0 {
            assert(all@.map_values(|j: usize| j as int)[0] == all@[0] as int);
            Some(all[0])
        } else {
            None
        }
    }

    /// The root element of the part.
    pub fn root_element(&self) -> (root: Option<usize>)
        ensures
            match root {
                Some(j) => root_element(self@) == Some(j as int) && j < self@.len(),
                None => root_element(self@) is None,
            },
    {
        let n = self.nodes.len();
        let mut j: usize = 1;
        while j < n
            invariant
                n == self@.len(),
                1 <= j,
                root_element(self@) == root_from(self@, j as int),
            decreases n - j,
        {
            assert(self@[j as int] == self.nodes@[j as int].raw());
            if self.nodes[j].parent == Some(0) && self.nodes[j].kind == 1 {
                return Some(j);
            }
            j = j + 1;
        }
        None
    }

    /// The value of node `i`'s attribute called `name`.
    pub fn attribute(&self, i: usize, name: &str) -> (value: Option<&str>)
        requires
            i < self@.len(),
        ensures
            match value {
                Some(v) => attribute(self@, i as int, name@) == Some(v@),
                None => attribute(self@, i as int, name@) is None,
            },
    {
        assert(self@[i as int] == self.nodes@[i as int].raw());
        let attrs = &self.nodes[i].attributes;
        let ghost raw = self@[i as int].6;
        assert(raw == attrs@.map_values(|a: XmlAttr| a.raw()));
        let mut k: usize = 0;
        while k < attrs.len()
            invariant
                raw == attrs@.map_values(|a: XmlAttr| a.raw()),
                raw == self@[i as int].6,
                k <= attrs@.len(),
                find_attr_from(raw, name@, 0) == find_attr_from(raw, name@, k as int),
            decreases attrs@.len() - k,
        {
            assert(raw[k as int] == attrs@[k as int].raw());
            if !attrs[k].qualified && crate::text::str_eq(attrs[k].name.as_str(), name) {
                return Some(attrs[k].value.as_str());
            }
            k = k + 1;
        }
        None
    }

    /// The place among node `i`'s attributes of the one called `name`.
    pub fn attribute_index(&self, i: usize, name: &str) -> (index: Option<usize>)
        requires
            i < self@.len(),
        ensures
            match index {
                Some(k) => find_attr_from(self@[i as int].6, name@, 0) == Some(k as int) && k
                    < self@[i as int].6.len(),
                None => find_attr_from(self@[i as int].6, name@, 0) is None,
            },
    {
        assert(self@[i as int] == self.nodes@[i as int].raw());
        let attrs = &self.nodes[i].attributes;
        let ghost raw = self@[i as int].6;
        let mut k: usize = 0;
        while k < attrs.len()
            invariant
                raw == attrs@.map_values(|a: XmlAttr| a.raw()),
                raw == self@[i as int].6,
                k <= attrs@.len(),
                find_attr_from(raw, name@, 0) == find_attr_from(raw, name@, k as int),
            decreases attrs@.len() - k,
        {
            assert(raw[k as int] == attrs@[k as int].raw());
            if !attrs[k].qualified && crate::text::str_eq(attrs[k].name.as_str(), name) {
                return Some(k);
            }
            k = k + 1;
        }
        None
    }

    /// The place among node `i`'s attributes of the first whose local name
    /// is `name`, whatever its namespace.
    pub fn local_attribute_index(&self, i: usize, name: &str) -> (index: Option<usize>)
        requires
            i < self@.len(),
        ensures
            match index {
                Some(k) => find_local_attr_from(self@[i as int].6, name@, 0) == Some(k as int) && k
                    < self@[i as int].6.len(),
                None => find_local_attr_from(self@[i as int].6, name@, 0) is None,
            },
    {
        assert(self@[i as int] == self.nodes@[i as int].raw());
        let attrs = &self.nodes[i].attributes;
        let ghost raw = self@[i as int].6;
        let mut k: usize = 0;
        while k < attrs.len()
            invariant
                raw == attrs@.map_values(|a: XmlAttr| a.raw()),
                raw == self@[i as int].6,
                k <= attrs@.len(),
                find_local_attr_from(raw, name@, 0) == find_local_attr_from(raw, name@, k as int),
            decreases attrs@.len() - k,
        {
            assert(raw[k as int] == attrs@[k as int].raw());
            if crate::text::str_eq(attrs[k].name.as_str(), name) {
                return Some(k);
            }
            k = k + 1;
        }
        None
    }

    /// The value of node `i`'s attribute whose local name is `name`, whatever
    /// its namespace.
    pub fn local_attribute(&self, i: usize, name: &str) -> (value: Option<&str>)
        requires
            i < self@.len(),
        ensures
            match value {
                Some(v) => local_attribute(self@, i as int, name@) == Some(v@),
                None => local_attribute(self@, i as int, name@) is None,
            },
    {
        assert(self@[i as int] == self.nodes@[i as int].raw());
        let attrs = &self.nodes[i].attributes;
        let ghost raw = self@[i as int].6;
        let mut k: usize = 0;
        while k < attrs.len()
            invariant
                raw == attrs@.map_values(|a: XmlAttr| a.raw()),
                raw == self@[i as int].6,
                k <= attrs@.len(),
                find_local_attr_from(raw, name@, 0) == find_local_attr_from(raw, name@, k as int),
            decreases attrs@.len() - k,
        {
            assert(raw[k as int] == attrs@[k as int].raw());
            if crate::text::str_eq(attrs[k].name.as_str(), name) {
                return Some(attrs[k].value.as_str());
            }
            k = k + 1;
        }
        None
    }

    /// Everything node `p` holds as text, in document order.
    pub fn text_of(&self, p: usize) -> (text: String)
        requires
            p < self@.len(),
        ensures
            text@ == text_of(self@, p as int),
    {
        let end = self.subtree_end(p);
        let mut text = String::new();
        let mut j = p;
        while j < end
            invariant
                p <= j <= end <= self@.len(),
                end == subtree_end(self@, p as int),
                text@ == texts_in(self@, p as int, j as int),
            decreases end - j,
        {
            assert(self@[j as int] == self.nodes@[j as int].raw());
            let node = &self.nodes[j];
            if node.kind == 4 {
                match &node.text {
                    Some(t) => text.append(t.as_str()),
                    None => {},
                }
            }
            j = j + 1;
            assert(text@ =~= texts_in(self@, p as int, j as int));
        }
        text
    }

    /// The kind of node `i`.
    pub fn kind(&self, i: usize) -> (kind: u8)
        requires
            i < self@.len(),
        ensures
            kind as int == self@[i as int].0,
    {
        assert(self@[i as int] == self.nodes@[i as int].raw());
        self.nodes[i].kind
    }

    /// Whether node `i` sits directly under node `p`.
    pub fn parent_is(&self, i: usize, p: usize) -> (yes: bool)
        requires
            i < self@.len(),
        ensures
            yes == (self@[i as int].1 == Some(p as int)),
    {
        assert(self@[i as int] == self.nodes@[i as int].raw());
        self.nodes[i].parent == Some(p)
    }

    /// Whether node `i` is an element called `name`.
    pub fn is_element_named(&self, i: usize, name: &str) -> (yes: bool)
        requires
            i < self@.len(),
        ensures
            yes == (self@[i as int].0 == 1 && self@[i as int].2 == name@),
    {
        assert(self@[i as int] == self.nodes@[i as int].raw());
        self.nodes[i].kind == 1 && crate::text::str_eq(self.nodes[i].name.as_str(), name)
    }

    /// The local name of node `i`.
    pub fn name(&self, i: usize) -> (name: &str)
        requires
            i < self@.len(),
        ensures
            name@ == self@[i as int].2,
    {
        assert(self@[i as int] == self.nodes@[i as int].raw());
        self.nodes[i].name.as_str()
    }

    /// The bytes node `i` spans.
    pub fn range(&self, i: usize) -> (range: (usize, usize))
        requires
            i < self@.len(),
        ensures
            range.0 as int == self@[i as int].3,
            range.1 as int == self@[i as int].4,
    {
        assert(self@[i as int] == self.nodes@[i as int].raw());
        (self.nodes[i].start, self.nodes[i].end)
    }
}

/// The last node directly under `p` of any kind, among the nodes `from..to`.
pub open spec fn last_child_in(s: Seq<RawNode>, p: int, from: int, to: int) -> Option<int>
    decreases to - from,
{
    if to <= from {
        None
    } else if s[to - 1].1 == Some(p) {
        Some(to - 1)
    } else {
        last_child_in(s, p, from, to - 1)
    }
}

/// The last node directly under `p`, of any kind: element, text, comment or
/// processing instruction.
pub open spec fn last_child(s: Seq<RawNode>, p: int) -> Option<int> {
    last_child_in(s, p, p + 1, subtree_end(s, p))
}

impl XmlDoc {
    /// The last node directly under `p`, of any kind.
    pub fn last_child(&self, p: usize) -> (found: Option<usize>)
        requires
            p < self@.len(),
        ensures
            match found {
                Some(j) => last_child(self@, p as int) == Some(j as int) && j < self@.len(),
                None => last_child(self@, p as int) is None,
            },
    {
        let end = self.subtree_end(p);
        let mut j = end;
        while j > p + 1
            invariant
                p + 1 <= j <= end <= self@.len(),
                end == subtree_end(self@, p as int),
                last_child(self@, p as int) == last_child_in(self@, p as int, p + 1, j as int),
            decreases j,
        {
            assert(self@[j - 1] == self.nodes@[j - 1].raw());
            if self.nodes[j - 1].parent == Some(p) {
                return Some(j - 1);
            }
            j = j - 1;
        }
        None
    }

    /// How many attributes node `i` carries.
    pub fn attribute_count(&self, i: usize) -> (n: usize)
        requires
            i < self@.len(),
        ensures
            n == self@[i as int].6.len(),
    {
        assert(self@[i as int] == self.nodes@[i as int].raw());
        self.nodes[i].attributes.len()
    }

    /// The local name of node `i`'s attribute at place `k`.
    pub fn attribute_name(&self, i: usize, k: usize) -> (name: &str)
        requires
            i < self@.len(),
            k < self@[i as int].6.len(),
        ensures
            name@ == self@[i as int].6[k as int].0,
    {
        assert(self@[i as int] == self.nodes@[i as int].raw());
        assert(self@[i as int].6[k as int] == self.nodes@[i as int].attributes@[k as int].raw());
        self.nodes[i].attributes[k].name.as_str()
    }

    /// The bytes node `i`'s attribute at place `k` spans, whole and its value.
    pub fn attribute_span(&self, i: usize, k: usize) -> (span: (usize, usize, usize, usize))
        requires
            i < self@.len(),
            k < self@[i as int].6.len(),
        ensures
            span.0 as int == self@[i as int].6[k as int].2,
            span.1 as int == self@[i as int].6[k as int].3,
            span.2 as int == self@[i as int].6[k as int].4,
            span.3 as int == self@[i as int].6[k as int].5,
    {
        assert(self@[i as int] == self.nodes@[i as int].raw());
        assert(self@[i as int].6[k as int] == self.nodes@[i as int].attributes@[k as int].raw());
        let a = &self.nodes[i].attributes[k];
        (a.start, a.end, a.value_start, a.value_end)
    }
}

/// Text as XML character data: the three characters that would otherwise be
/// markup escaped, and a carriage return too, which a reader would otherwise
/// turn into a line feed.
pub open spec fn escaped(text: Seq<char>) -> Seq<char>
    decreases text.len(),
{
    if text.len() == 0 {
        Seq::empty()
    } else {
        escaped(text.drop_last()) + escape_char(text.last())
    }
}

/// One character as XML character data.
pub open spec fn escape_char(c: char) -> Seq<char> {
    if c == '&' {
        "&amp;"@
    } else if c == '<' {
        "&lt;"@
    } else if c == '>' {
        "&gt;"@
    } else if c == '\r' {
        "&#13;"@
    } else {
        seq![c]
    }
}

/// Text as XML character data.
pub fn escape(text: &str) -> (escaped_text: String)
    ensures
        escaped_text@ == escaped(text@),
{
    let t = chars_of(text);
    let mut out = String::new();
    let mut i: usize = 0;
    while i < t.len()
        invariant
            i <= t@.len(),
            t@ == text@,
            out@ == escaped(t@.take(i as int)),
        decreases t@.len() - i,
    {
        let c = t[i];
        assert(t@.take(i + 1).drop_last() =~= t@.take(i as int));
        if c == '&' {
            out.append("&amp;");
        } else if c == '<' {
            out.append("&lt;");
        } else if c == '>' {
            out.append("&gt;");
        } else if c == '\r' {
            out.append("&#13;");
        } else {
            push_char(&mut out, c);
        }
        i = i + 1;
        assert(out@ =~= escaped(t@.take(i as int)));
    }
    assert(t@.take(t@.len() as int) =~= t@);
    out
}

} // verus!
