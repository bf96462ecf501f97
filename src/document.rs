use vstd::prelude::*;
use crate::css::Selector;

verus! {

/// What a node of the markup tree is.
#[derive(Debug)]
pub enum NodeKind {
    /// A tag, described by the selector of its name, classes and id.
    Element(Selector),
    /// A run of text.
    Text(String),
}

/// A node of the tree and the position of its parent.
#[derive(Debug)]
pub struct DomNode {
    pub parent: Option<usize>,
    pub kind: NodeKind,
}

/// A markup tree stored in document order: every node comes after its
/// parent, and siblings come in the order they appear in the document.
#[derive(Debug)]
pub struct Document {
    pub nodes: Vec<DomNode>,
}

impl Document {
    pub open spec fn wf(&self) -> bool {
        forall|i: int|
            0 <= i < self.nodes@.len() ==> match #[trigger] self.nodes@[i].parent {
                Some(p) => p < i,
                None => true,
            }
    }

    pub open spec fn parents(&self) -> Seq<Option<usize>> {
        self.nodes@.map_values(|n: DomNode| n.parent)
    }

    /// The text of each text node.
    pub open spec fn texts(&self) -> Seq<Option<Seq<char>>> {
        self.nodes@.map_values(
            |n: DomNode|
                match n.kind {
                    NodeKind::Text(t) => Some(t@),
                    NodeKind::Element(_) => None,
                },
        )
    }

    pub fn new() -> (r: Document)
        ensures
            r.wf(),
            r.nodes@.len() == 0,
    {
        Document { nodes: Vec::new() }
    }

    pub fn len(&self) -> (r: usize)
        ensures
            r == self.nodes@.len(),
    {
        self.nodes.len()
    }

    fn add(&mut self, parent: Option<usize>, kind: NodeKind) -> (r: usize)
        requires
            old(self).wf(),
            parent matches Some(p) ==> p < old(self).nodes@.len(),
        ensures
            final(self).wf(),
            r == old(self).nodes@.len(),
            final(self).nodes@ == old(self).nodes@.push(DomNode { parent, kind }),
    {
        let r = self.nodes.len();
        self.nodes.push(DomNode { parent, kind });
        r
    }

    /// Appends an element as the last node, under `parent`; returns its
    /// position.
    pub fn add_element(&mut self, parent: Option<usize>, selector: Selector) -> (r: usize)
        requires
            old(self).wf(),
            parent matches Some(p) ==> p < old(self).nodes@.len(),
        ensures
            final(self).wf(),
            r == old(self).nodes@.len(),
            final(self).nodes@ == old(self).nodes@.push(DomNode { parent, kind: NodeKind::Element(selector) }),
    {
        self.add(parent, NodeKind::Element(selector))
    }

    /// Appends a text run as the last node, under `parent`; returns its
    /// position.
    pub fn add_text(&mut self, parent: Option<usize>, text: String) -> (r: usize)
        requires
            old(self).wf(),
            parent matches Some(p) ==> p < old(self).nodes@.len(),
        ensures
            final(self).wf(),
            r == old(self).nodes@.len(),
            final(self).nodes@ == old(self).nodes@.push(DomNode { parent, kind: NodeKind::Text(text) }),
    {
        self.add(parent, NodeKind::Text(text))
    }
}

} // verus!
