//! The document model: a flat arena of nodes. Index 0 is a synthetic root
//! element; every other node records its parent, and a parent always precedes
//! its children, so index order is document (pre-)order.

use vstd::prelude::*;

verus! {

/// Payload of a node: an element with its lowercased tag and ordered
/// attributes, or a run of raw text.
pub enum NodeData {
    Element { tag: String, attrs: Vec<(String, String)> },
    Text { content: String },
}

/// Ghost mirror of `NodeData`.
#[verifier::ext_equal]
pub enum NodeDataV {
    Element { tag: Seq<char>, attrs: Seq<(Seq<char>, Seq<char>)> },
    Text { content: Seq<char> },
}

pub struct Node {
    pub parent: Option<usize>,
    pub data: NodeData,
    pub children: Vec<usize>,
}

/// Ghost mirror of `Node`.
#[verifier::ext_equal]
pub struct NodeV {
    pub parent: Option<usize>,
    pub data: NodeDataV,
    pub children: Seq<usize>,
}

pub struct Document {
    pub nodes: Vec<Node>,
}

/// Ghost mirror of `Document`.
#[verifier::ext_equal]
pub struct DocV {
    pub nodes: Seq<NodeV>,
}

impl View for NodeData {
    type V = NodeDataV;

    open spec fn view(&self) -> NodeDataV {
        match self {
            NodeData::Element { tag, attrs } => NodeDataV::Element {
                tag: tag@,
                attrs: attrs@.map_values(|p: (String, String)| (p.0@, p.1@)),
            },
            NodeData::Text { content } => NodeDataV::Text { content: content@ },
        }
    }
}

impl View for Node {
    type V = NodeV;

    open spec fn view(&self) -> NodeV {
        NodeV { parent: self.parent, data: self.data@, children: self.children@ }
    }
}

impl View for Document {
    type V = DocV;

    open spec fn view(&self) -> DocV {
        DocV { nodes: self.nodes@.map_values(|n: Node| n@) }
    }
}

/// The tag of an element node, empty for text nodes and for the root.
pub open spec fn tag_of(d: DocV, i: int) -> Seq<char> {
    match d.nodes[i].data {
        NodeDataV::Element { tag, .. } => tag,
        NodeDataV::Text { .. } => Seq::empty(),
    }
}

/// The attribute pairs of an element node.
pub open spec fn attrs_of(d: DocV, i: int) -> Seq<(Seq<char>, Seq<char>)> {
    match d.nodes[i].data {
        NodeDataV::Element { attrs, .. } => attrs,
        NodeDataV::Text { .. } => Seq::empty(),
    }
}

/// Structural soundness of one node: the synthetic root is the only node
/// without a parent, parents precede and children follow their node, parents
/// are elements, and text nodes have no children.
pub open spec fn wf_node(d: DocV, i: int) -> bool {
    let n = d.nodes[i];
    &&& (i == 0 ==> n.parent is None)
    &&& (i != 0 ==> (n.parent matches Some(p) && p < i && d.nodes[p as int].data is Element))
    &&& (forall|k: int|
        0 <= k < n.children.len() ==> i < #[trigger] n.children[k] < d.nodes.len())
    &&& (n.data is Text ==> n.children.len() == 0)
}

/// Structural soundness of a document: a synthetic root element at index 0
/// and a sound node at every index.
pub open spec fn wf_doc(d: DocV) -> bool {
    &&& d.nodes.len() >= 1
    &&& d.nodes[0].data is Element
    &&& forall|i: int| 0 <= i < d.nodes.len() ==> wf_node(d, i)
}

impl Document {
    /// A document holding only the synthetic root element.
    pub fn empty() -> (d: Document)
        ensures
            d@ == empty_doc(),
            wf_doc(d@),
    {
        let root = Node {
            parent: None,
            data: NodeData::Element { tag: String::new(), attrs: Vec::new() },
            children: Vec::new(),
        };
        let mut nodes: Vec<Node> = Vec::new();
        nodes.push(root);
        let d = Document { nodes };
        proof {
            assert(d@.nodes =~~= empty_doc().nodes);
            assert(wf_node(d@, 0));
        }
        d
    }
}

/// The ghost document holding only the synthetic root element.
pub open spec fn empty_doc() -> DocV {
    DocV {
        nodes: seq![
            NodeV {
                parent: None,
                data: NodeDataV::Element { tag: Seq::empty(), attrs: Seq::empty() },
                children: Seq::empty(),
            },
        ],
    }
}

/// Appends a node under parent `p`: the node is placed at the next index and
/// recorded among `p`'s children.
pub open spec fn append_node(d: DocV, p: usize, data: NodeDataV) -> DocV {
    let idx = d.nodes.len() as usize;
    let parent = d.nodes[p as int];
    let with_child = d.nodes.update(
        p as int,
        NodeV { parent: parent.parent, data: parent.data, children: parent.children.push(idx) },
    );
    DocV {
        nodes: with_child.push(NodeV { parent: Some(p), data, children: Seq::empty() }),
    }
}

/// Appending under a sound element parent keeps the document sound.
pub proof fn lemma_append_wf(d: DocV, p: usize, data: NodeDataV)
    requires
        wf_doc(d),
        p < d.nodes.len(),
        d.nodes[p as int].data is Element,
        d.nodes.len() < usize::MAX,
    ensures
        wf_doc(append_node(d, p, data)),
        append_node(d, p, data).nodes.len() == d.nodes.len() + 1,
        forall|q: int|
            0 <= q < d.nodes.len() ==> #[trigger] append_node(d, p, data).nodes[q].data
                == d.nodes[q].data,
        tag_of(append_node(d, p, data), d.nodes.len() as int) == match data {
            NodeDataV::Element { tag, .. } => tag,
            NodeDataV::Text { .. } => Seq::<char>::empty(),
        },
{
    let d2 = append_node(d, p, data);
    let idx = d.nodes.len() as int;
    assert forall|i: int| 0 <= i < d2.nodes.len() implies wf_node(d2, i) by {
        assert(wf_node(d, if i < idx { i } else { 0 }));
        if i == idx {
            assert(d2.nodes[i].parent == Some(p));
            assert(d2.nodes[p as int].data == d.nodes[p as int].data);
        } else if i == p {
            assert(wf_node(d, p as int));
            assert(forall|k: int|
                0 <= k < d2.nodes[i].children.len() ==> i < #[trigger] d2.nodes[i].children[k]
                    < d2.nodes.len());
        } else {
            assert(wf_node(d, i));
            assert(d2.nodes[i] == d.nodes[i]);
        }
    }
}

} // verus!
