//! Layout boxes and their construction from a styled document.

pub mod dump;
pub mod grouping;
pub mod model;
pub mod origins;

use crate::dom::NodeRef;
use crate::layout::model::box_around;
use crate::layout::model::child_boxes;
use crate::layout::model::generated_box;
use crate::layout::model::lemma_child_boxes_none_anonymous;
use crate::layout::model::lemma_wrap_push_inline;
use crate::layout::model::lemma_wrap_push_other;
use crate::layout::model::BoxTree;
use crate::style::Display;
use vstd::prelude::*;

verus! {

/// Takes a node of the styled document and builds the layout tree of it and
/// its children.
///
/// The node and everything below it must have a resolved style. The result is
/// `None` exactly when the node's `display` is `none`; nothing below such a
/// node is visited. Otherwise it is the box tree that the node generates: a
/// block or inline box for the node, the boxes of its block children directly
/// below it, and the boxes of its inline children in its inline container.
///
/// Known limitation: a block box below an inline box is appended to the
/// inline box as it is; the inline box is not split around it.
pub fn build_layout_tree(node: NodeRef) -> (tree: Option<LayoutBox>)
    requires
        node.styled(),
    ensures
        tree is None <==> node.display() == Some(Display::NoBox),
        match tree {
            Some(layout_box) => generated_box(node) == Some(layout_box@),
            None => generated_box(node) is None,
        },
    decreases node,
{
    let display = node.computed_values().as_ref().expect(
        "layout called on a node that has not yet acquired computed values",
    ).display;
    let mut layout_box = match display {
        Display::Block => LayoutBox::new(BoxType::Block(node.clone())),
        Display::Inline => LayoutBox::new(BoxType::Inline(node.clone())),
        Display::NoBox => {
            return None;
        },
    };

    let children = node.children();
    let mut i: usize = 0;
    while i < children.len()
        invariant
            i <= children.len(),
            children@ == node.child_nodes(),
            node.styled(),
            node.display() == Some(display),
            display != Display::NoBox,
            layout_box@ == box_around(node, child_boxes(node, i as int)),
        decreases children.len() - i,
    {
        let child = &children[i];
        assert(child.styled());
        let child_display = child.computed_values().as_ref().expect(
            "layout called on a node that has not yet acquired computed values",
        ).display;
        proof {
            lemma_child_boxes_none_anonymous(node, i as int);
        }
        match child_display {
            Display::Block => match build_layout_tree(child.clone()) {
                Some(child_box) => {
                    proof {
                        lemma_wrap_push_other(child_boxes(node, i as int), child_box@);
                    }
                    layout_box.push_child(child_box)
                },
                None => {},
            },
            Display::Inline => match build_layout_tree(child.clone()) {
                Some(child_box) => {
                    proof {
                        if display == Display::Block {
                            lemma_wrap_push_inline(
                                layout_box@,
                                child_boxes(node, i as int),
                                child_box@,
                            );
                        }
                    }
                    layout_box.get_inline_container().push_child(child_box)
                },
                None => {},
            },
            Display::NoBox => {},
        }
        i += 1;
    }
    Some(layout_box)
}

/// A rectangle: the position of its origin and its extent, in layout units.
#[derive(Clone, Copy, Debug, PartialEq, Eq, Structural)]
pub struct Rect {
    pub x: i32,
    pub y: i32,
    pub width: i32,
    pub height: i32,
}

/// The thickness of the four edges around a box, in layout units.
#[derive(Clone, Copy, Debug, PartialEq, Eq, Structural)]
pub struct EdgeSizes {
    pub left: i32,
    pub right: i32,
    pub top: i32,
    pub bottom: i32,
}

/// The geometry of a box: its content area and the edges around it.
#[derive(Clone, Copy, Debug, PartialEq, Eq, Structural)]
pub struct Dimensions {
    /// Position and size of the content area, relative to the document origin.
    pub content: Rect,
    pub padding: EdgeSizes,
    pub border: EdgeSizes,
    pub margin: EdgeSizes,
}

impl Rect {
    /// The rectangle at the origin with no extent.
    pub open spec fn zero() -> Rect {
        Rect { x: 0, y: 0, width: 0, height: 0 }
    }
}

impl EdgeSizes {
    /// Edges of no thickness.
    pub open spec fn zero() -> EdgeSizes {
        EdgeSizes { left: 0, right: 0, top: 0, bottom: 0 }
    }
}

impl Dimensions {
    /// The geometry of a box that has not been measured: everything zero.
    pub open spec fn zero() -> Dimensions {
        Dimensions {
            content: Rect::zero(),
            padding: EdgeSizes::zero(),
            border: EdgeSizes::zero(),
            margin: EdgeSizes::zero(),
        }
    }
}

impl Default for Rect {
    fn default() -> (rect: Rect)
        ensures
            rect == Rect::zero(),
    {
        Rect { x: 0, y: 0, width: 0, height: 0 }
    }
}

impl Default for EdgeSizes {
    fn default() -> (edges: EdgeSizes)
        ensures
            edges == EdgeSizes::zero(),
    {
        EdgeSizes { left: 0, right: 0, top: 0, bottom: 0 }
    }
}

impl Default for Dimensions {
    fn default() -> (dimensions: Dimensions)
        ensures
            dimensions == Dimensions::zero(),
    {
        Dimensions {
            content: Rect::default(),
            padding: EdgeSizes::default(),
            border: EdgeSizes::default(),
            margin: EdgeSizes::default(),
        }
    }
}

/// The kind of a layout box. Block and inline boxes refer back to the node
/// that generated them; an anonymous box has no node.
#[derive(Debug)]
pub enum BoxType {
    Block(NodeRef),
    Inline(NodeRef),
    Anonymous,
}

impl BoxType {
    /// The node that a box of this kind was generated for, if there is one.
    pub open spec fn origin(self) -> Option<NodeRef> {
        match self {
            BoxType::Block(node) => Some(node),
            BoxType::Inline(node) => Some(node),
            BoxType::Anonymous => None,
        }
    }

    /// Whether two kinds carry the same tag, whatever nodes they refer to.
    pub open spec fn same_kind_as(self, other: BoxType) -> bool {
        match self {
            BoxType::Block(_) => other is Block,
            BoxType::Inline(_) => other is Inline,
            BoxType::Anonymous => other is Anonymous,
        }
    }

    /// Compares the tags of two kinds; the nodes they refer to play no part.
    pub fn same_kind(&self, other: &BoxType) -> (same: bool)
        ensures
            same == self.same_kind_as(*other),
    {
        match (self, other) {
            (BoxType::Block(_), BoxType::Block(_)) => true,
            (BoxType::Inline(_), BoxType::Inline(_)) => true,
            (BoxType::Anonymous, BoxType::Anonymous) => true,
            _ => false,
        }
    }
}

impl Clone for BoxType {
    fn clone(&self) -> (kind: Self)
        ensures
            kind == *self,
    {
        match self {
            BoxType::Block(node) => BoxType::Block(node.clone()),
            BoxType::Inline(node) => BoxType::Inline(node.clone()),
            BoxType::Anonymous => BoxType::Anonymous,
        }
    }
}

/// A node of the layout box tree. It owns its children.
#[derive(Debug)]
pub struct LayoutBox {
    dimensions: Dimensions,
    box_type: BoxType,
    children: Vec<LayoutBox>,
}

impl View for LayoutBox {
    type V = BoxTree;

    closed spec fn view(&self) -> BoxTree {
        self.model()
    }
}

impl Clone for LayoutBox {
    /// A deep copy: a tree of its own that equals this one box for box.
    fn clone(&self) -> (copy: Self)
        ensures
            copy@ == self@,
        decreases *self,
    {
        let mut children: Vec<LayoutBox> = Vec::new();
        let mut i: usize = 0;
        while i < self.children.len()
            invariant
                i <= self.children.len(),
                children@.len() == i,
                forall|j: int| 0 <= j < i ==> (#[trigger] children@[j])@ == self.children@[j]@,
            decreases self.children.len() - i,
        {
            children.push(self.children[i].clone());
            i += 1;
        }
        let copy = LayoutBox {
            dimensions: self.dimensions,
            box_type: self.box_type.clone(),
            children,
        };
        proof {
            self.lemma_view();
            copy.lemma_view();
            assert(copy@.children =~= self@.children);
        }
        copy
    }
}

impl LayoutBox {
    /// This box and everything below it as a value.
    spec fn model(self) -> BoxTree
        decreases self,
    {
        BoxTree {
            box_type: self.box_type,
            dimensions: self.dimensions,
            children: Seq::new(
                self.children@.len(),
                |i: int|
                    if 0 <= i < self.children@.len() {
                        self.children@[i].model()
                    } else {
                        arbitrary()
                    },
            ),
        }
    }

    /// How the view of a box is made of its fields.
    proof fn lemma_view(self)
        ensures
            self@.box_type == self.box_type,
            self@.dimensions == self.dimensions,
            self@.children.len() == self.children@.len(),
            forall|i: int|
                #![trigger self@.children[i]]
                #![trigger self.children@[i]]
                0 <= i < self.children@.len() ==> self@.children[i] == self.children@[i]@,
    {
    }

    /// A box of the given kind with zeroed geometry and no children.
    pub fn new(box_type: BoxType) -> (layout_box: LayoutBox)
        ensures
            layout_box@ == BoxTree::fresh(box_type),
    {
        let layout_box = LayoutBox {
            box_type,
            dimensions: Default::default(),
            children: Vec::new(),
        };
        assert(layout_box@.children =~= Seq::empty());
        layout_box
    }

    /// The kind of this box.
    pub fn box_type(&self) -> (box_type: &BoxType)
        ensures
            *box_type == self@.box_type,
    {
        &self.box_type
    }

    /// The geometry of this box.
    pub fn dimensions(&self) -> (dimensions: &Dimensions)
        ensures
            *dimensions == self@.dimensions,
    {
        &self.dimensions
    }

    /// The children of this box, in document order.
    pub fn children(&self) -> (children: &Vec<LayoutBox>)
        ensures
            children@.len() == self@.children.len(),
            forall|i: int| 0 <= i < children@.len() ==> (#[trigger] children@[i])@ == self@.children[i],
    {
        &self.children
    }

    /// Replaces the geometry of this box; its kind and children stay.
    pub fn set_dimensions(&mut self, dimensions: Dimensions)
        ensures
            final(self)@ == (BoxTree { dimensions, ..old(self)@ }),
    {
        self.dimensions = dimensions;
        assert(self@.children =~= old(self)@.children);
    }

    /// The child at `index`, to measure it in place. Whatever is done to the
    /// child, the kind and geometry of this box and its other children stay.
    pub fn child_mut(&mut self, index: usize) -> (child: &mut LayoutBox)
        requires
            index < old(self)@.children.len(),
        ensures
            child@ == old(self)@.children[index as int],
            final(self)@ == (BoxTree {
                children: old(self)@.children.update(index as int, final(child)@),
                ..old(self)@
            }),
    {
        proof {
            self.lemma_view();
            let before = *self;
            assert forall|after: LayoutBox, inner: LayoutBox|
                #![trigger after@, inner@]
                after.box_type == before.box_type && after.dimensions == before.dimensions
                    && after.children@ == before.children@.update(
                    index as int,
                    inner,
                ) implies after@ == (BoxTree {
                children: before@.children.update(index as int, inner@),
                ..before@
            }) by {
                after.lemma_view();
                assert(after@.children =~= before@.children.update(index as int, inner@));
            }
        }
        &mut self.children[index]
    }

    /// Appends `child` as the last child of this box.
    fn push_child(&mut self, child: LayoutBox)
        ensures
            final(self)@ == old(self)@.with_child(child@),
    {
        self.children.push(child);
        assert(self@.children =~= old(self)@.children.push(child@));
    }

    /// If a block box contains inline children, an anonymous box must be used
    /// to contain them.
    ///
    /// If this box is already an inline or anonymous box, it contains its
    /// inline children itself. Otherwise its last child does if that is an
    /// anonymous box; if it is not, a new anonymous box is appended for them.
    pub fn get_inline_container(&mut self) -> (container: &mut LayoutBox)
        ensures
            container@ == old(self)@.inline_container(),
            final(self)@ == old(self)@.with_inline_container(final(container)@),
    {
        match self.box_type {
            BoxType::Inline(_) | BoxType::Anonymous => {
                return self;
            },
            BoxType::Block(_) => {
                let reuse = match self.children.last() {
                    Some(last_child) => {
                        proof {
                            last_child.lemma_view();
                        }
                        last_child.box_type.same_kind(&BoxType::Anonymous)
                    },
                    None => false,
                };
                proof {
                    self.lemma_view();
                }
                assert(reuse == old(self)@.ends_in_anonymous());
                if !reuse {
                    self.push_child(LayoutBox::new(BoxType::Anonymous));
                }
                proof {
                    self.lemma_view();
                }
                let last = self.children.len() - 1;
                proof {
                    let before = *self;
                    assert forall|after: LayoutBox, inner: LayoutBox|
                        #![trigger after@, inner@]
                        after.box_type == before.box_type && after.dimensions == before.dimensions
                            && after.children@ == before.children@.update(
                            last as int,
                            inner,
                        ) implies after@ == old(self)@.with_inline_container(inner@) by {
                        after.lemma_view();
                        assert(after@.children =~= old(self)@.with_inline_container(
                            inner@,
                        ).children);
                    }
                }
                &mut self.children[last]
            },
        }
    }
}

} // verus!
