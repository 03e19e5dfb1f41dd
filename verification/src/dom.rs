//! The styled document tree that box generation reads.
//!
//! A document is a tree of immutable nodes behind shared handles. Each node
//! carries the identifier the document gave it, the style the cascade resolved
//! for it (if the cascade has run over it) and its children in document order.

use crate::style::ComputedValues;
use crate::style::Display;
use std::rc::Rc;
use vstd::prelude::*;

verus! {

/// What one node of the styled document holds.
#[derive(Debug)]
pub struct Node {
    /// The identifier the document gave this node.
    pub id: u64,
    /// The cascade's result for this node; `None` until the cascade has run.
    pub computed_values: Option<ComputedValues>,
    /// The child nodes, in document order.
    pub children: Vec<NodeRef>,
}

/// A shared, read-only handle to a node of the styled document.
///
/// Cloning a handle is cheap and yields a handle to the very same node. In
/// specifications two handles are equal when the nodes behind them are; the
/// `id` of a node is what tells two alike nodes apart.
#[derive(Debug)]
pub struct NodeRef(pub Rc<Node>);

/// `Rc::clone` on a node handle. Trusted: the returned handle points at the
/// same allocation as `node`, hence stands for the same node value.
#[verifier::external_body]
fn share(node: &Rc<Node>) -> (handle: Rc<Node>)
    ensures
        handle == *node,
{
    Rc::clone(node)
}

impl NodeRef {
    /// The node's identifier.
    pub open spec fn node_id(self) -> u64 {
        self.0.id
    }

    /// The node's children, in document order.
    pub open spec fn child_nodes(self) -> Seq<NodeRef> {
        self.0.children@
    }

    /// The node's resolved `display`, if the node has a resolved style.
    pub open spec fn display(self) -> Option<Display> {
        match self.0.computed_values {
            Some(values) => Some(values.display),
            None => None,
        }
    }

    /// Whether the node generates a box of its own: it has a resolved style
    /// and its `display` is not `none`.
    pub open spec fn generates_box(self) -> bool {
        self.display() is Some && self.display() != Some(Display::NoBox)
    }

    /// Whether this node and every node below it has a resolved style.
    pub open spec fn styled(self) -> bool
        decreases self,
    {
        &&& self.0.computed_values is Some
        &&& forall|i: int|
            0 <= i < self.child_nodes().len() ==> (#[trigger] self.child_nodes()[i]).styled()
    }

    /// The node that `path` leads to from this node: the path lists, from
    /// this node downwards, the position of the child to step to. The empty
    /// path leads to this node itself; a path that steps to a child that is
    /// not there leads nowhere.
    pub open spec fn descendant(self, path: Seq<int>) -> Option<NodeRef>
        decreases path.len(),
    {
        if path.len() == 0 {
            Some(self)
        } else if 0 <= path[0] < self.child_nodes().len() {
            self.child_nodes()[path[0]].descendant(path.drop_first())
        } else {
            None
        }
    }

    /// Whether the node that `path` leads to from this node is displayed:
    /// the path leads to a node, and that node and every node on the way to
    /// it, this node included, generates a box.
    pub open spec fn displayed_at(self, path: Seq<int>) -> bool
        decreases path.len(),
    {
        &&& self.generates_box()
        &&& path.len() > 0 ==> {
            &&& 0 <= path[0] < self.child_nodes().len()
            &&& self.child_nodes()[path[0]].displayed_at(path.drop_first())
        }
    }

    /// Whether no two nodes at or below this node have the same identifier.
    pub open spec fn distinct_ids(self) -> bool {
        forall|first: Seq<int>, second: Seq<int>|
            first != second ==> match (
                #[trigger] self.descendant(first),
                #[trigger] self.descendant(second),
            ) {
                (Some(one), Some(other)) => one.node_id() != other.node_id(),
                _ => true,
            }
    }

    /// Makes a node and returns the handle to it.
    pub fn new(id: u64, computed_values: Option<ComputedValues>, children: Vec<NodeRef>) -> (node:
        NodeRef)
        ensures
            node.0.id == id,
            node.0.computed_values == computed_values,
            node.0.children == children,
    {
        NodeRef(Rc::new(Node { id, computed_values, children }))
    }

    /// The node's identifier.
    pub fn id(&self) -> (id: u64)
        ensures
            id == self.node_id(),
    {
        self.0.id
    }

    /// The style the cascade resolved for this node, if it has run.
    pub fn computed_values(&self) -> (values: &Option<ComputedValues>)
        ensures
            *values == self.0.computed_values,
    {
        &self.0.computed_values
    }

    /// The node's children, in document order.
    pub fn children(&self) -> (children: &Vec<NodeRef>)
        ensures
            children@ == self.child_nodes(),
    {
        &self.0.children
    }

    /// Tells whether this node and every node below it has a resolved style.
    pub fn is_styled(&self) -> (styled: bool)
        ensures
            styled == self.styled(),
        decreases *self,
    {
        if self.0.computed_values.is_none() {
            return false;
        }
        let children = self.children();
        let mut i: usize = 0;
        while i < children.len()
            invariant
                i <= children.len(),
                children@ == self.child_nodes(),
                self.0.computed_values is Some,
                forall|j: int| 0 <= j < i ==> (#[trigger] self.child_nodes()[j]).styled(),
            decreases children.len() - i,
        {
            if !children[i].is_styled() {
                return false;
            }
            i += 1;
        }
        true
    }
}

impl Clone for NodeRef {
    /// Another handle to the same node.
    fn clone(&self) -> (handle: Self)
        ensures
            handle == *self,
    {
        NodeRef(share(&self.0))
    }
}

} // verus!
