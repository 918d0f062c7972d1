//! The document model: a tree of nodes, each with a tag, attributes and
//! children, as a scan report presents it. The tree is built from raw markup
//! by an outside parser behind `parse_document`; everything that walks or
//! reads the tree is verified against the spec-level mirror `NodeV`.

use vstd::prelude::*;

verus! {

/// One attribute of a node: a name and its value.
pub struct Attr {
    pub name: String,
    pub value: String,
}

/// Spec-level mirror of `Attr`.
pub ghost struct AttrV {
    pub name: Seq<char>,
    pub value: Seq<char>,
}

impl View for Attr {
    type V = AttrV;

    open spec fn view(&self) -> AttrV {
        AttrV { name: self.name@, value: self.value@ }
    }
}

/// One node of a parsed document: element or not, its tag name (empty when
/// not an element), its attributes, and its child nodes in document order.
pub struct XmlNode {
    pub is_element: bool,
    pub tag: String,
    pub attrs: Vec<Attr>,
    pub children: Vec<XmlNode>,
}

/// Spec-level mirror of `XmlNode`.
pub ghost struct NodeV {
    pub is_element: bool,
    pub tag: Seq<char>,
    pub attrs: Seq<AttrV>,
    pub children: Seq<NodeV>,
}

/// A placeholder node, never reached by the view of a real tree.
pub open spec fn blank_node() -> NodeV {
    NodeV {
        is_element: false,
        tag: Seq::empty(),
        attrs: Seq::empty(),
        children: Seq::empty(),
    }
}

/// The spec-level value of a node tree.
pub open spec fn node_view(n: XmlNode) -> NodeV
    decreases n,
{
    NodeV {
        is_element: n.is_element,
        tag: n.tag@,
        attrs: n.attrs@.map_values(|a: Attr| a@),
        children: Seq::new(
            n.children@.len(),
            |i: int|
                if 0 <= i < n.children@.len() {
                    node_view(n.children@[i])
                } else {
                    blank_node()
                },
        ),
    }
}

impl View for XmlNode {
    type V = NodeV;

    open spec fn view(&self) -> NodeV {
        node_view(*self)
    }
}

/// Value of the first attribute named `name`, searching from position `i`.
pub open spec fn attr_search(attrs: Seq<AttrV>, name: Seq<char>, i: int) -> Option<Seq<char>>
    decreases attrs.len() - i,
{
    if i < 0 || i >= attrs.len() {
        None
    } else if attrs[i].name == name {
        Some(attrs[i].value)
    } else {
        attr_search(attrs, name, i + 1)
    }
}

/// Value of the node's attribute named `name`, if any.
pub open spec fn attr_of(n: NodeV, name: Seq<char>) -> Option<Seq<char>> {
    attr_search(n.attrs, name, 0)
}

/// The node is an element with tag name `t`.
pub open spec fn has_tag(n: NodeV, t: Seq<char>) -> bool {
    n.is_element && n.tag == t
}

/// The node is an element with tag `t` that also carries the attribute
/// `req` asks for, if it asks for one.
pub open spec fn node_matches(n: NodeV, t: Seq<char>, req: Option<Seq<char>>) -> bool {
    has_tag(n, t) && (req is None || attr_of(n, req->0) is Some)
}

/// First node in the subtree of `n` (itself included), in document order,
/// that matches tag `t` and the optional required attribute.
pub open spec fn find_desc(n: NodeV, t: Seq<char>, req: Option<Seq<char>>) -> Option<NodeV>
    decreases n, 0int,
{
    if node_matches(n, t, req) {
        Some(n)
    } else {
        find_desc_list(n.children, 0, t, req)
    }
}

/// First match within the subtrees of `ns[i..]`, in order.
pub open spec fn find_desc_list(
    ns: Seq<NodeV>,
    i: int,
    t: Seq<char>,
    req: Option<Seq<char>>,
) -> Option<NodeV>
    decreases ns, ns.len() - i,
{
    if i < 0 || i >= ns.len() {
        None
    } else {
        match find_desc(ns[i], t, req) {
            Some(m) => Some(m),
            None => find_desc_list(ns, i + 1, t, req),
        }
    }
}

/// All `name` attribute values in the subtree of `n` (itself included),
/// in document order.
pub open spec fn names_in(n: NodeV) -> Seq<Seq<char>>
    decreases n, 0int,
{
    (match attr_of(n, "name"@) {
        Some(v) => seq![v],
        None => Seq::empty(),
    }) + names_in_list(n.children, 0)
}

/// All `name` attribute values in the subtrees of `ns[i..]`.
pub open spec fn names_in_list(ns: Seq<NodeV>, i: int) -> Seq<Seq<char>>
    decreases ns, ns.len() - i,
{
    if i < 0 || i >= ns.len() {
        Seq::empty()
    } else {
        names_in(ns[i]) + names_in_list(ns, i + 1)
    }
}

/// All elements tagged `host` in the subtree of `n` (itself included),
/// in document order.
pub open spec fn hosts_in(n: NodeV) -> Seq<NodeV>
    decreases n, 0int,
{
    (if has_tag(n, "host"@) {
        seq![n]
    } else {
        Seq::empty()
    }) + hosts_in_list(n.children, 0)
}

/// All elements tagged `host` in the subtrees of `ns[i..]`.
pub open spec fn hosts_in_list(ns: Seq<NodeV>, i: int) -> Seq<NodeV>
    decreases ns, ns.len() - i,
{
    if i < 0 || i >= ns.len() {
        Seq::empty()
    } else {
        hosts_in(ns[i]) + hosts_in_list(ns, i + 1)
    }
}

/// What `find_desc` returns always matches what was asked for.
pub proof fn lemma_find_desc_matches(n: NodeV, t: Seq<char>, req: Option<Seq<char>>)
    ensures
        find_desc(n, t, req) is Some ==> node_matches(find_desc(n, t, req)->0, t, req),
    decreases n, 0int,
{
    if !node_matches(n, t, req) {
        lemma_find_desc_list_matches(n.children, 0, t, req);
    }
}

/// What `find_desc_list` returns always matches what was asked for.
pub proof fn lemma_find_desc_list_matches(
    ns: Seq<NodeV>,
    i: int,
    t: Seq<char>,
    req: Option<Seq<char>>,
)
    ensures
        find_desc_list(ns, i, t, req) is Some ==> node_matches(
            find_desc_list(ns, i, t, req)->0,
            t,
            req,
        ),
    decreases ns, ns.len() - i,
{
    if 0 <= i < ns.len() {
        lemma_find_desc_matches(ns[i], t, req);
        lemma_find_desc_list_matches(ns, i + 1, t, req);
    }
}

/// Character-for-character string equality.
pub fn str_eq(a: &str, b: &str) -> (r: bool)
    ensures
        r == (a@ == b@),
{
    let la = a.unicode_len();
    let lb = b.unicode_len();
    if la != lb {
        return false;
    }
    let mut i: usize = 0;
    while i < la
        invariant
            0 <= i <= la,
            la == a@.len(),
            la == b@.len(),
            forall|j: int| 0 <= j < i ==> a@[j] == b@[j],
        decreases la - i,
    {
        if a.get_char(i) != b.get_char(i) {
            return false;
        }
        i += 1;
    }
    proof {
        assert(a@ =~= b@);
    }
    true
}

/// Look up an attribute of the node by name.
pub fn attr_of_node<'a>(n: &'a XmlNode, name: &str) -> (r: Option<&'a String>)
    ensures
        match r {
            Some(v) => attr_of(n@, name@) == Some(v@),
            None => attr_of(n@, name@) is None,
        },
{
    let mut i: usize = 0;
    while i < n.attrs.len()
        invariant
            0 <= i <= n.attrs.len(),
            n@.attrs.len() == n.attrs@.len(),
            forall|j: int| 0 <= j < n.attrs@.len() ==> n@.attrs[j] == n.attrs@[j]@,
            attr_of(n@, name@) == attr_search(n@.attrs, name@, i as int),
        decreases n.attrs.len() - i,
    {
        if str_eq(n.attrs[i].name.as_str(), name) {
            return Some(&n.attrs[i].value);
        }
        i += 1;
    }
    None
}

/// Whether the node is an element tagged `t`.
pub fn node_has_tag(n: &XmlNode, t: &str) -> (r: bool)
    ensures
        r == has_tag(n@, t@),
{
    n.is_element && str_eq(n.tag.as_str(), t)
}

/// Find the first matching descendant (the node itself included) in
/// document order: an element tagged `t`, carrying the attribute named by
/// `req` when one is asked for.
pub fn find_desc_node<'a>(n: &'a XmlNode, t: &str, req: Option<&str>) -> (r: Option<&'a XmlNode>)
    ensures
        match r {
            Some(m) => find_desc(n@, t@, opt_view(req)) == Some(m@),
            None => find_desc(n@, t@, opt_view(req)) is None,
        },
    decreases *n,
{
    let tag_ok = node_has_tag(n, t);
    let matched = tag_ok && (match req {
        None => true,
        Some(a) => attr_of_node(n, a).is_some(),
    });
    if matched {
        return Some(n);
    }
    assert(!node_matches(n@, t@, opt_view(req)));
    let mut i: usize = 0;
    while i < n.children.len()
        invariant
            0 <= i <= n.children.len(),
            n@.children.len() == n.children@.len(),
            forall|j: int| 0 <= j < n.children@.len() ==> n@.children[j] == n.children@[j]@,
            find_desc(n@, t@, opt_view(req)) == find_desc_list(n@.children, i as int, t@, opt_view(req)),
        decreases n.children.len() - i,
    {
        match find_desc_node(&n.children[i], t, req) {
            Some(m) => {
                return Some(m);
            },
            None => {},
        }
        i += 1;
    }
    None
}

/// Spec view of an optional attribute-name argument.
pub open spec fn opt_view(req: Option<&str>) -> Option<Seq<char>> {
    match req {
        Some(s) => Some(s@),
        None => None,
    }
}

/// The views of a sequence of borrowed nodes.
pub open spec fn views_of_refs(s: Seq<&XmlNode>) -> Seq<NodeV> {
    s.map_values(|m: &XmlNode| node_view(*m))
}

/// Collect every `host` element of the subtree of `n`, in document order.
pub fn collect_hosts<'a>(n: &'a XmlNode, out: &mut Vec<&'a XmlNode>)
    ensures
        views_of_refs(final(out)@) == views_of_refs(old(out)@) + hosts_in(n@),
    decreases *n,
{
    if node_has_tag(n, "host") {
        out.push(n);
        proof {
            assert(views_of_refs(out@) =~= views_of_refs(old(out)@) + seq![n@]);
        }
    } else {
        proof {
            assert(views_of_refs(out@) =~= views_of_refs(old(out)@) + Seq::<NodeV>::empty());
        }
    }
    let ghost base = views_of_refs(old(out)@) + (if has_tag(n@, "host"@) {
        seq![n@]
    } else {
        Seq::<NodeV>::empty()
    });
    let mut i: usize = 0;
    while i < n.children.len()
        invariant
            0 <= i <= n.children.len(),
            n@.children.len() == n.children@.len(),
            forall|j: int| 0 <= j < n.children@.len() ==> n@.children[j] == n.children@[j]@,
            views_of_refs(out@) + hosts_in_list(n@.children, i as int) == base + hosts_in_list(
                n@.children,
                0,
            ),
        decreases n.children.len() - i,
    {
        collect_hosts(&n.children[i], out);
        i += 1;
    }
    proof {
        assert(hosts_in_list(n@.children, n@.children.len() as int) =~= Seq::<NodeV>::empty());
        assert(views_of_refs(out@) + Seq::<NodeV>::empty() =~= views_of_refs(out@));
        assert(base + hosts_in_list(n@.children, 0) =~= views_of_refs(old(out)@) + hosts_in(n@));
    }
}

/// Collect every `name` attribute value of the subtree of `n`, in document
/// order.
pub fn collect_names(n: &XmlNode, out: &mut Vec<String>)
    ensures
        final(out)@.map_values(|s: String| s@) == old(out)@.map_values(|s: String| s@) + names_in(
            n@,
        ),
    decreases *n,
{
    match attr_of_node(n, "name") {
        Some(v) => {
            out.push(v.clone());
            proof {
                assert(out@.map_values(|s: String| s@) =~= old(out)@.map_values(|s: String| s@)
                    + seq![v@]);
            }
        },
        None => {
            proof {
                assert(out@.map_values(|s: String| s@) =~= old(out)@.map_values(|s: String| s@)
                    + Seq::<Seq<char>>::empty());
            }
        },
    }
    let ghost base = old(out)@.map_values(|s: String| s@) + (match attr_of(n@, "name"@) {
        Some(v) => seq![v],
        None => Seq::<Seq<char>>::empty(),
    });
    let mut i: usize = 0;
    while i < n.children.len()
        invariant
            0 <= i <= n.children.len(),
            n@.children.len() == n.children@.len(),
            forall|j: int| 0 <= j < n.children@.len() ==> n@.children[j] == n.children@[j]@,
            out@.map_values(|s: String| s@) + names_in_list(n@.children, i as int) == base
                + names_in_list(n@.children, 0),
        decreases n.children.len() - i,
    {
        collect_names(&n.children[i], out);
        i += 1;
    }
    proof {
        assert(names_in_list(n@.children, n@.children.len() as int) =~= Seq::<Seq<char>>::empty());
        assert(out@.map_values(|s: String| s@) + Seq::<Seq<char>>::empty() =~= out@.map_values(
            |s: String| s@,
        ));
        assert(base + names_in_list(n@.children, 0) =~= old(out)@.map_values(|s: String| s@)
            + names_in(n@));
    }
}

#[verifier::external_type_specification]
#[verifier::external_body]
pub struct ExNode<'a, 'input: 'a>(roxmltree::Node<'a, 'input>);

/// The tree that parsing a given text yields, when parsing succeeds: the
/// outside parser's result depends on the text alone.
pub uninterp spec fn xml_doc(text: Seq<char>) -> Option<NodeV>;

/// Relies on roxmltree::Document::parse_with_options: builds the document
/// tree for the text, or reports a syntax diagnostic; the tree is a function
/// of the text alone. DTDs are allowed and the node limit is the tool's
/// fixed parsing bound.
#[verifier::external_body]
pub(crate) fn parse_document(content: &str) -> (r: Result<XmlNode, String>)
    ensures
        match r {
            Ok(root) => xml_doc(content@) == Some(node_view(root)),
            Err(_) => xml_doc(content@) is None,
        },
{
    let mut options = roxmltree::ParsingOptions::default();
    options.allow_dtd = true;
    options.nodes_limit = 100000;
    match roxmltree::Document::parse_with_options(content, options) {
        Ok(doc) => Ok(convert_node(doc.root())),
        Err(e) => Err(e.to_string()),
    }
}

/// Conversion step of `parse_document`: relies on roxmltree's node
/// accessors (is_element, tag_name, attributes, children) to copy one node
/// and, recursively, its children into the library's tree, field for field.
/// Tag and attribute names are the nodes' local names, as the scan report
/// schema carries no namespaces.
#[verifier::external_body]
fn convert_node(n: roxmltree::Node<'_, '_>) -> XmlNode {
    XmlNode {
        is_element: n.is_element(),
        tag: n.tag_name().name().to_string(),
        attrs: n.attributes().map(
            |a| Attr { name: a.name().to_string(), value: a.value().to_string() },
        ).collect(),
        children: n.children().map(convert_node).collect(),
    }
}

} // verus!
