//! Read-only access to `content.xml`.
//!
//! The XML text is parsed by `roxmltree`; its node tree is handed to the library as a
//! flat list of [`XmlNode`]s in document order, each naming its parent by index (the
//! root node is index 0). The readers below give attributes the semantics the document
//! format relies on: a string attribute that is present but empty stays `""` (only a
//! missing attribute takes the fallback), while a numeric attribute that is missing, empty
//! or unparsable takes the fallback.

use vstd::prelude::*;
use crate::model::SpecAttr;
use crate::num::{
    parse_i32, parse_i64, parse_num, spec_parse_i32, spec_parse_i64, spec_parse_num, Num,
};
use crate::text::str_eq;

verus! {

/// One attribute: its local name and its value.
#[derive(Debug)]
pub struct XmlAttribute {
    pub name: String,
    pub value: String,
}

/// One node of the XML tree.
#[derive(Debug)]
pub struct XmlNode {
    pub is_element: bool,
    pub is_text: bool,
    /// Local tag name of an element ("" for other nodes).
    pub name: String,
    /// Text of a text node (CDATA included).
    pub text: String,
    /// Index of the parent node (the root node names itself).
    pub parent: usize,
    pub attributes: Vec<XmlAttribute>,
}

pub struct SpecXmlNode {
    pub is_element: bool,
    pub is_text: bool,
    pub name: Seq<char>,
    pub text: Seq<char>,
    pub parent: int,
    pub attributes: Seq<SpecAttr>,
}

impl View for XmlAttribute {
    type V = SpecAttr;

    open spec fn view(&self) -> SpecAttr {
        SpecAttr { name: self.name@, value: self.value@ }
    }
}

impl View for XmlNode {
    type V = SpecXmlNode;

    open spec fn view(&self) -> SpecXmlNode {
        SpecXmlNode {
            is_element: self.is_element,
            is_text: self.is_text,
            name: self.name@,
            text: self.text@,
            parent: self.parent as int,
            attributes: self.attributes@.map_values(|a: XmlAttribute| a@),
        }
    }
}

pub open spec fn nodes_view(v: Seq<XmlNode>) -> Seq<SpecXmlNode> {
    v.map_values(|n: XmlNode| n@)
}

/// The node list `roxmltree` builds for an XML text, or its error message.
pub uninterp spec fn xml_document_nodes(text: Seq<char>) -> Result<Seq<SpecXmlNode>, Seq<char>>;

/// Calls `roxmltree::Document::parse` and lists the document's nodes in document order
/// (`Document::descendants`), each with its kind, local name, text, parent index and
/// attributes (local name and value). The result is the same for the same text.
#[verifier::external_body]
pub(crate) fn parse_xml(text: &str) -> (r: Result<Vec<XmlNode>, String>)
    ensures
        match r {
            Ok(v) => xml_document_nodes(text@) == Ok::<Seq<SpecXmlNode>, Seq<char>>(nodes_view(v@)),
            Err(e) => xml_document_nodes(text@) == Err::<Seq<SpecXmlNode>, Seq<char>>(e@),
        },
{
    let doc = match roxmltree::Document::parse(text) {
        Ok(d) => d,
        Err(e) => return Err(e.to_string()),
    };
    Ok(doc.descendants().map(|n| XmlNode {
        is_element: n.is_element(),
        is_text: n.is_text(),
        name: n.tag_name().name().to_string(),
        text: n.text().unwrap_or("").to_string(),
        parent: n.parent().map_or(0, |p| p.id().get_usize()),
        attributes: n.attributes().map(|a| XmlAttribute { name: a.name().to_string(), value: a.value().to_string() }).collect(),
    }).collect())
}

// ---------------------------------------------------------------------------
// Attributes
// ---------------------------------------------------------------------------

/// The value of the first attribute named `name`.
pub open spec fn attr_lookup(attrs: Seq<SpecAttr>, name: Seq<char>) -> Option<Seq<char>>
    decreases attrs.len(),
{
    if attrs.len() == 0 {
        None
    } else if attrs[0].name == name {
        Some(attrs[0].value)
    } else {
        attr_lookup(attrs.drop_first(), name)
    }
}

pub open spec fn spec_attr_opt(n: SpecXmlNode, name: Seq<char>) -> Option<Seq<char>> {
    attr_lookup(n.attributes, name)
}

pub open spec fn spec_attr_str(n: SpecXmlNode, name: Seq<char>, fallback: Seq<char>) -> Seq<char> {
    match spec_attr_opt(n, name) {
        Some(v) => v,
        None => fallback,
    }
}

pub open spec fn spec_attr_num(n: SpecXmlNode, name: Seq<char>, fallback: Num) -> Num {
    match spec_attr_num_opt(n, name) {
        Some(v) => v,
        None => fallback,
    }
}

pub open spec fn spec_attr_num_opt(n: SpecXmlNode, name: Seq<char>) -> Option<Num> {
    match spec_attr_opt(n, name) {
        Some(v) => spec_parse_num(v),
        None => None,
    }
}

pub open spec fn spec_attr_i64(n: SpecXmlNode, name: Seq<char>, fallback: i64) -> i64 {
    match spec_attr_opt(n, name) {
        Some(v) => match spec_parse_i64(v) {
            Some(x) => x,
            None => fallback,
        },
        None => fallback,
    }
}

pub open spec fn spec_attr_i32_opt(n: SpecXmlNode, name: Seq<char>) -> Option<i32> {
    match spec_attr_opt(n, name) {
        Some(v) => spec_parse_i32(v),
        None => None,
    }
}

pub open spec fn spec_attr_i32(n: SpecXmlNode, name: Seq<char>, fallback: i32) -> i32 {
    match spec_attr_i32_opt(n, name) {
        Some(x) => x,
        None => fallback,
    }
}

pub open spec fn spec_attr_bool(n: SpecXmlNode, name: Seq<char>) -> bool {
    spec_attr_opt(n, name) == Some("true"@)
}

/// Index of the first attribute of node `i` named `name`.
fn attr_index(nodes: &Vec<XmlNode>, i: usize, name: &str) -> (r: Option<usize>)
    requires
        i < nodes.len(),
    ensures
        match r {
            Some(k) => k < nodes@[i as int].attributes.len() && spec_attr_opt(
                nodes@[i as int]@,
                name@,
            ) == Some(nodes@[i as int].attributes@[k as int].value@),
            None => spec_attr_opt(nodes@[i as int]@, name@) is None,
        },
{
    let attrs = &nodes[i].attributes;
    let ghost all = nodes@[i as int]@.attributes;
    let mut k: usize = 0;
    assert(all.skip(0) =~= all);
    while k < attrs.len()
        invariant
            i < nodes.len(),
            attrs == &nodes@[i as int].attributes,
            all == nodes@[i as int]@.attributes,
            k <= attrs.len(),
            all == attrs@.map_values(|a: XmlAttribute| a@),
            attr_lookup(all, name@) == attr_lookup(all.skip(k as int), name@),
        decreases attrs.len() - k,
    {
        assert(all.skip(k as int)[0] == all[k as int]);
        assert(all.skip(k as int).drop_first() =~= all.skip(k + 1));
        if str_eq(attrs[k].name.as_str(), name) {
            assert(all[k as int] == attrs@[k as int]@);
            assert(all.skip(k as int)[0].name == name@);
            assert(attr_lookup(all.skip(k as int), name@) == Some(all[k as int].value));
            assert(nodes@[i as int]@.attributes == all);
            assert(k < nodes@[i as int].attributes.len());
            return Some(k);
        }
        k = k + 1;
    }
    assert(all.skip(k as int) =~= Seq::<SpecAttr>::empty());
    None
}

/// A node's attribute value, or `None` if the attribute is absent.
pub fn attr_opt<'a>(nodes: &'a Vec<XmlNode>, i: usize, name: &str) -> (r: Option<&'a str>)
    requires
        i < nodes.len(),
    ensures
        match r {
            Some(s) => spec_attr_opt(nodes@[i as int]@, name@) == Some(s@),
            None => spec_attr_opt(nodes@[i as int]@, name@) is None,
        },
{
    match attr_index(nodes, i, name) {
        Some(k) => Some(nodes[i].attributes[k].value.as_str()),
        None => None,
    }
}

/// True when the attribute is present at all (regardless of value).
pub fn attr_present(nodes: &Vec<XmlNode>, i: usize, name: &str) -> (r: bool)
    requires
        i < nodes.len(),
    ensures
        r == spec_attr_opt(nodes@[i as int]@, name@) is Some,
{
    attr_index(nodes, i, name).is_some()
}

/// String attribute: present gives its value (even when empty); missing gives `fallback`.
pub fn attr_str(nodes: &Vec<XmlNode>, i: usize, name: &str, fallback: &str) -> (r: String)
    requires
        i < nodes.len(),
    ensures
        r@ == spec_attr_str(nodes@[i as int]@, name@, fallback@),
{
    match attr_opt(nodes, i, name) {
        Some(s) => String::from_str(s),
        None => String::from_str(fallback),
    }
}

/// Optional string attribute: `None` only when absent.
pub fn attr_str_opt(nodes: &Vec<XmlNode>, i: usize, name: &str) -> (r: Option<String>)
    requires
        i < nodes.len(),
    ensures
        match r {
            Some(s) => spec_attr_opt(nodes@[i as int]@, name@) == Some(s@),
            None => spec_attr_opt(nodes@[i as int]@, name@) is None,
        },
{
    match attr_opt(nodes, i, name) {
        Some(s) => Some(String::from_str(s)),
        None => None,
    }
}

/// Decimal attribute: missing, empty or unparsable gives `fallback`.
pub fn attr_f64(nodes: &Vec<XmlNode>, i: usize, name: &str, fallback: Num) -> (r: Num)
    requires
        i < nodes.len(),
    ensures
        r == spec_attr_num(nodes@[i as int]@, name@, fallback),
{
    match attr_f64_opt(nodes, i, name) {
        Some(v) => v,
        None => fallback,
    }
}

/// Optional decimal attribute: `None` when missing, empty or unparsable.
pub fn attr_f64_opt(nodes: &Vec<XmlNode>, i: usize, name: &str) -> (r: Option<Num>)
    requires
        i < nodes.len(),
    ensures
        r == spec_attr_num_opt(nodes@[i as int]@, name@),
{
    match attr_opt(nodes, i, name) {
        Some(s) => parse_num(s),
        None => None,
    }
}

/// `i64` attribute: missing, empty or invalid gives `fallback`.
pub fn attr_i64(nodes: &Vec<XmlNode>, i: usize, name: &str, fallback: i64) -> (r: i64)
    requires
        i < nodes.len(),
    ensures
        r == spec_attr_i64(nodes@[i as int]@, name@, fallback),
{
    match attr_opt(nodes, i, name) {
        Some(s) => match parse_i64(s) {
            Some(x) => x,
            None => fallback,
        },
        None => fallback,
    }
}

/// `i32` attribute: missing, empty or invalid gives `fallback`.
pub fn attr_i32(nodes: &Vec<XmlNode>, i: usize, name: &str, fallback: i32) -> (r: i32)
    requires
        i < nodes.len(),
    ensures
        r == spec_attr_i32(nodes@[i as int]@, name@, fallback),
{
    match attr_i32_opt(nodes, i, name) {
        Some(x) => x,
        None => fallback,
    }
}

/// Optional `i32`: `None` when missing, empty or invalid.
pub fn attr_i32_opt(nodes: &Vec<XmlNode>, i: usize, name: &str) -> (r: Option<i32>)
    requires
        i < nodes.len(),
    ensures
        r == spec_attr_i32_opt(nodes@[i as int]@, name@),
{
    match attr_opt(nodes, i, name) {
        Some(s) => parse_i32(s),
        None => None,
    }
}

/// Boolean attribute: true only when the value is exactly "true".
pub fn attr_bool(nodes: &Vec<XmlNode>, i: usize, name: &str) -> (r: bool)
    requires
        i < nodes.len(),
    ensures
        r == spec_attr_bool(nodes@[i as int]@, name@),
{
    proof {
        reveal_strlit("true");
    }
    match attr_opt(nodes, i, name) {
        Some(s) => str_eq(s, "true"),
        None => false,
    }
}

// ---------------------------------------------------------------------------
// Children
// ---------------------------------------------------------------------------

/// Node `j` is an element child of node `p`.
pub open spec fn is_element_child(nodes: Seq<SpecXmlNode>, p: int, j: int) -> bool {
    p < j < nodes.len() && nodes[j].parent == p && nodes[j].is_element
}

/// The element children of `p` among the nodes before `k`, in document order.
pub open spec fn element_children_below(nodes: Seq<SpecXmlNode>, p: int, k: int) -> Seq<int>
    decreases k - p,
{
    if k <= p + 1 {
        Seq::empty()
    } else {
        let prev = element_children_below(nodes, p, k - 1);
        if is_element_child(nodes, p, k - 1) {
            prev.push(k - 1)
        } else {
            prev
        }
    }
}

/// All element children of `p`, in document order.
pub open spec fn element_children(nodes: Seq<SpecXmlNode>, p: int) -> Seq<int> {
    element_children_below(nodes, p, nodes.len() as int)
}

/// The element children of `p` named `name`, in document order.
pub open spec fn named_children(nodes: Seq<SpecXmlNode>, p: int, name: Seq<char>) -> Seq<int> {
    element_children(nodes, p).filter(|j: int| nodes[j].name == name)
}

/// The first element child of `p` named `name`.
pub open spec fn spec_first_child_element(nodes: Seq<SpecXmlNode>, p: int, name: Seq<char>) -> Option<int> {
    let c = named_children(nodes, p, name);
    if c.len() > 0 {
        Some(c[0])
    } else {
        None
    }
}

/// Concatenated text of the text children of `p` among the nodes before `k`.
pub open spec fn text_below(nodes: Seq<SpecXmlNode>, p: int, k: int) -> Seq<char>
    decreases k - p,
{
    if k <= p + 1 {
        Seq::empty()
    } else {
        let prev = text_below(nodes, p, k - 1);
        if nodes[k - 1].parent == p && nodes[k - 1].is_text {
            prev + nodes[k - 1].text
        } else {
            prev
        }
    }
}

/// The text content of a node: the concatenation of its text (and CDATA) children.
pub open spec fn spec_node_text(nodes: Seq<SpecXmlNode>, p: int) -> Seq<char> {
    text_below(nodes, p, nodes.len() as int)
}

/// All element children of node `p`, in document order.
pub fn element_children_exec(nodes: &Vec<XmlNode>, p: usize) -> (r: Vec<usize>)
    requires
        p < nodes.len(),
    ensures
        r@.map_values(|j: usize| j as int) == element_children(nodes_view(nodes@), p as int),
        forall|k: int| 0 <= k < r.len() ==> p < #[trigger] r@[k] < nodes.len(),
{
    let ghost nv = nodes_view(nodes@);
    let mut out: Vec<usize> = Vec::new();
    let mut j = p + 1;
    assert(out@.map_values(|j: usize| j as int) =~= element_children_below(nv, p as int, j as int));
    while j < nodes.len()
        invariant
            p < j <= nodes.len(),
            nv == nodes_view(nodes@),
            out@.map_values(|j: usize| j as int) == element_children_below(nv, p as int, j as int),
            forall|k: int| 0 <= k < out.len() ==> p < #[trigger] out@[k] < j,
        decreases nodes.len() - j,
    {
        if nodes[j].parent == p && nodes[j].is_element {
            out.push(j);
        }
        j = j + 1;
        assert(out@.map_values(|j: usize| j as int) =~= element_children_below(nv, p as int, j as int));
    }
    out
}

/// All immediate child elements of `p` with the given tag name, in document order.
pub fn child_elements(nodes: &Vec<XmlNode>, p: usize, name: &str) -> (r: Vec<usize>)
    requires
        p < nodes.len(),
    ensures
        r@.map_values(|j: usize| j as int) == named_children(nodes_view(nodes@), p as int, name@),
        forall|k: int| 0 <= k < r.len() ==> p < #[trigger] r@[k] < nodes.len(),
{
    let ghost nv = nodes_view(nodes@);
    let all = element_children_exec(nodes, p);
    let ghost alls = all@.map_values(|j: usize| j as int);
    let mut out: Vec<usize> = Vec::new();
    let mut k: usize = 0;
    while k < all.len()
        invariant
            k <= all.len(),
            nv == nodes_view(nodes@),
            alls == all@.map_values(|j: usize| j as int),
            forall|m: int| 0 <= m < all.len() ==> p < #[trigger] all@[m] < nodes.len(),
            out@.map_values(|j: usize| j as int) == alls.take(k as int).filter(
                |j: int| nv[j].name == name@,
            ),
            forall|m: int| 0 <= m < out.len() ==> p < #[trigger] out@[m] < nodes.len(),
        decreases all.len() - k,
    {
        let j = all[k];
        assert(alls.take(k + 1).drop_last() =~= alls.take(k as int));
        reveal_with_fuel(Seq::<_>::filter, 1);
        if str_eq(nodes[j].name.as_str(), name) {
            out.push(j);
        }
        k = k + 1;
        assert(out@.map_values(|j: usize| j as int) =~= alls.take(k as int).filter(
            |j: int| nv[j].name == name@,
        ));
    }
    assert(alls.take(all.len() as int) =~= alls);
    out
}

/// First immediate child element of `p` with the given tag name.
pub fn first_child_element(nodes: &Vec<XmlNode>, p: usize, name: &str) -> (r: Option<usize>)
    requires
        p < nodes.len(),
    ensures
        match r {
            Some(j) => spec_first_child_element(nodes_view(nodes@), p as int, name@) == Some(
                j as int,
            ) && j < nodes.len(),
            None => spec_first_child_element(nodes_view(nodes@), p as int, name@) is None,
        },
{
    let c = child_elements(nodes, p, name);
    if c.len() > 0 {
        Some(c[0])
    } else {
        None
    }
}

/// Number of immediate child elements (ignoring text and whitespace nodes).
pub fn element_child_count(nodes: &Vec<XmlNode>, p: usize) -> (r: usize)
    requires
        p < nodes.len(),
    ensures
        r == element_children(nodes_view(nodes@), p as int).len(),
{
    element_children_exec(nodes, p).len()
}

/// The text content of a node: the concatenation of its text (and CDATA) children.
pub fn node_text(nodes: &Vec<XmlNode>, p: usize) -> (r: String)
    requires
        p < nodes.len(),
    ensures
        r@ == spec_node_text(nodes_view(nodes@), p as int),
{
    let ghost nv = nodes_view(nodes@);
    let mut out = String::new();
    let mut j = p + 1;
    while j < nodes.len()
        invariant
            p < j <= nodes.len(),
            nv == nodes_view(nodes@),
            out@ == text_below(nv, p as int, j as int),
        decreases nodes.len() - j,
    {
        if nodes[j].parent == p && nodes[j].is_text {
            out.append(nodes[j].text.as_str());
        }
        j = j + 1;
    }
    out
}

} // verus!
