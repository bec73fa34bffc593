//! The document tree.

use vstd::prelude::*;
use crate::chars::{distinct, keep_first, lemma_distinct, split_words, string_views, words};
use crate::strmap::StrMap;

verus! {

/// The attributes of an element, by name.
pub type AttrMap = StrMap<String>;

/// A node of the document tree with its children in source order.
#[derive(Debug)]
pub struct Node {
    pub children: Vec<Node>,
    pub node_type: NodeType,
}

#[derive(Debug)]
pub enum NodeType {
    Text(String),
    Element(ElementData),
}

#[derive(Debug)]
pub struct ElementData {
    pub tag_name: String,
    pub attributes: AttrMap,
}

/// The attributes with what each of their values holds.
pub open spec fn attribute_views(attrs: Map<Seq<char>, String>) -> Map<Seq<char>, Seq<char>> {
    attrs.map_values(|v: String| v@)
}

/// An element as a value.
pub struct ElementView {
    pub tag_name: Seq<char>,
    pub attributes: Map<Seq<char>, Seq<char>>,
}

pub enum NodeTypeView {
    Text(Seq<char>),
    Element(ElementView),
}

/// A node as a value, with its children as a sequence.
pub struct NodeView {
    pub children: Seq<NodeView>,
    pub node_type: NodeTypeView,
}

impl View for ElementData {
    type V = ElementView;

    open spec fn view(&self) -> ElementView {
        ElementView { tag_name: self.tag_name@, attributes: attribute_views(self.attributes@) }
    }
}

impl View for NodeType {
    type V = NodeTypeView;

    open spec fn view(&self) -> NodeTypeView {
        match *self {
            NodeType::Text(text) => NodeTypeView::Text(text@),
            NodeType::Element(element) => NodeTypeView::Element(element@),
        }
    }
}

impl View for Node {
    type V = NodeView;

    open spec fn view(&self) -> NodeView
        decreases self, 0int,
    {
        NodeView {
            children: node_views(self.children@, self.children@.len() as int),
            node_type: self.node_type@,
        }
    }
}

/// The views of the first `k` of `nodes`, in their order.
pub open spec fn node_views(nodes: Seq<Node>, k: int) -> Seq<NodeView>
    decreases nodes, k,
{
    if k <= 0 || k > nodes.len() {
        Seq::empty()
    } else {
        node_views(nodes, k - 1).push(nodes[k - 1]@)
    }
}

/// The views of all of `nodes`, in their order.
pub open spec fn all_node_views(nodes: Seq<Node>) -> Seq<NodeView> {
    node_views(nodes, nodes.len() as int)
}

/// [`node_views`] holds one view for each node, at the place of the node.
pub(crate) proof fn lemma_node_views(nodes: Seq<Node>, k: int)
    requires
        0 <= k <= nodes.len(),
    ensures
        node_views(nodes, k).len() == k,
        forall|j: int|
            #![trigger node_views(nodes, k)[j]]
            #![trigger nodes[j]]
            0 <= j < k ==> node_views(nodes, k)[j] == nodes[j]@,
    decreases k,
{
    if k > 0 {
        lemma_node_views(nodes, k - 1);
        assert(node_views(nodes, k) == node_views(nodes, k - 1).push(nodes[k - 1]@));
    } else {
        assert(node_views(nodes, k) == Seq::<NodeView>::empty());
    }
}

/// The views of some nodes with one more are their views with the view
/// of that one more.
pub(crate) proof fn lemma_node_views_push(nodes: Seq<Node>, node: Node)
    ensures
        all_node_views(nodes.push(node)) == all_node_views(nodes).push(node@),
{
    let more = nodes.push(node);
    lemma_node_views(nodes, nodes.len() as int);
    lemma_node_views(more, more.len() as int);
    assert forall|j: int| 0 <= j < more.len() implies all_node_views(more)[j] == all_node_views(
        nodes,
    ).push(node@)[j] by {
        if j < nodes.len() {
            assert(more[j] == nodes[j]);
        }
    }
    assert(all_node_views(more) =~= all_node_views(nodes).push(node@));
}

impl ElementData {
    /// The classes of the element: the words of its `class` attribute, each
    /// at its first place only; none where it has no such attribute.
    pub open spec fn class_list(&self) -> Seq<Seq<char>> {
        if self.attributes@.dom().contains("class"@) {
            distinct(words(self.attributes@["class"@]@))
        } else {
            Seq::empty()
        }
    }

    /// The words of the `class` attribute as `class` itself writes them:
    /// in order, and as often as they are written.
    pub open spec fn class_words(&self) -> Seq<Seq<char>> {
        if self.attributes@.dom().contains("class"@) {
            words(self.attributes@["class"@]@)
        } else {
            Seq::empty()
        }
    }

    /// The value of the `id` attribute, if the element has one.
    pub fn id(&self) -> (r: Option<&String>)
        ensures
            r is Some <==> self.attributes@.dom().contains("id"@),
            r matches Some(s) ==> *s == self.attributes@["id"@],
    {
        self.attributes.get("id")
    }

    /// The set of classes of the element: each word of the `class`
    /// attribute once, in the order in which the words first occur.
    pub fn classes(&self) -> (r: Vec<String>)
        ensures
            string_views(r@) == self.class_list(),
            string_views(r@).no_duplicates(),
            forall|class: Seq<char>|
                #[trigger] string_views(r@).contains(class) <==> self.class_words().contains(class),
    {
        proof {
            lemma_distinct(self.class_words());
        }
        match self.attributes.get("class") {
            Some(list) => keep_first(split_words(list.as_str())),
            None => {
                let r: Vec<String> = Vec::new();
                assert(string_views(r@) =~= Seq::<Seq<char>>::empty());
                r
            },
        }
    }
}

/// A text leaf.
pub fn text_node(text: String) -> (node: Node)
    ensures
        node.children@.len() == 0,
        node.node_type == NodeType::Text(text),
{
    Node { children: Vec::new(), node_type: NodeType::Text(text) }
}

/// An element with the given tag name, attributes and children.
pub fn element_node(name: String, attrs: AttrMap, children: Vec<Node>) -> (node: Node)
    ensures
        node.children == children,
        node.node_type == NodeType::Element(ElementData { tag_name: name, attributes: attrs }),
{
    Node {
        children: children,
        node_type: NodeType::Element(ElementData { tag_name: name, attributes: attrs }),
    }
}

} // verus!
