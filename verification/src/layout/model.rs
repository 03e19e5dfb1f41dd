//! The mathematical model of a layout box tree, and the box tree that a styled
//! document generates.

use crate::dom::NodeRef;
use crate::layout::BoxType;
use crate::layout::Dimensions;
use crate::style::Display;
use vstd::prelude::*;

verus! {

/// A layout box as a value: its kind, its geometry and its children in
/// document order.
pub struct BoxTree {
    pub box_type: BoxType,
    pub dimensions: Dimensions,
    pub children: Seq<BoxTree>,
}

impl BoxTree {
    /// A box of the given kind with zeroed geometry and no children.
    pub open spec fn fresh(box_type: BoxType) -> BoxTree {
        BoxTree { box_type, dimensions: Dimensions::zero(), children: Seq::empty() }
    }

    /// An anonymous box with zeroed geometry around `children`.
    pub open spec fn anonymous(children: Seq<BoxTree>) -> BoxTree {
        BoxTree { box_type: BoxType::Anonymous, dimensions: Dimensions::zero(), children }
    }

    /// This box with `child` appended as its last child.
    pub open spec fn with_child(self, child: BoxTree) -> BoxTree {
        BoxTree { children: self.children.push(child), ..self }
    }

    /// Whether the last child of this box is an anonymous box.
    pub open spec fn ends_in_anonymous(self) -> bool {
        self.children.len() > 0 && self.children.last().box_type is Anonymous
    }

    /// The box that takes the inline-level children of this box: the box
    /// itself unless it is a block box; for a block box its last child if that
    /// is anonymous, else a new empty anonymous box.
    pub open spec fn inline_container(self) -> BoxTree {
        if !(self.box_type is Block) {
            self
        } else if self.ends_in_anonymous() {
            self.children.last()
        } else {
            BoxTree::fresh(BoxType::Anonymous)
        }
    }

    /// This box with `child` appended to its inline container.
    pub open spec fn with_inline_child(self, child: BoxTree) -> BoxTree {
        self.with_inline_container(self.inline_container().with_child(child))
    }

    /// This box once its inline container has become `container`.
    pub open spec fn with_inline_container(self, container: BoxTree) -> BoxTree {
        if !(self.box_type is Block) {
            container
        } else if self.ends_in_anonymous() {
            BoxTree { children: self.children.update(self.children.len() - 1, container), ..self }
        } else {
            self.with_child(container)
        }
    }
}

/// The number of inline boxes at the end of `boxes`: the length of the
/// longest suffix of `boxes` that holds inline boxes only.
pub open spec fn trailing_inline_run(boxes: Seq<BoxTree>) -> nat
    decreases boxes.len(),
{
    if boxes.len() > 0 && boxes.last().box_type is Inline {
        1 + trailing_inline_run(boxes.drop_last())
    } else {
        0
    }
}

/// `boxes` with each maximal run of consecutive inline boxes gathered, in
/// place, into one anonymous box around the run. A box that is not inline
/// stays where it is.
///
/// Read from the end: when `boxes` ends in an inline run, the result is what
/// comes before that run, wrapped, followed by one anonymous box that holds
/// the run; otherwise it is what comes before the last box, wrapped, followed
/// by that box.
pub open spec fn wrap_inline_runs(boxes: Seq<BoxTree>) -> Seq<BoxTree>
    decreases boxes.len(),
    via wrap_inline_runs_decreases
{
    let run = trailing_inline_run(boxes);
    if boxes.len() == 0 {
        Seq::empty()
    } else if run == 0 {
        wrap_inline_runs(boxes.drop_last()).push(boxes.last())
    } else {
        wrap_inline_runs(boxes.take(boxes.len() - run)).push(
            BoxTree::anonymous(boxes.skip(boxes.len() - run)),
        )
    }
}

#[via_fn]
proof fn wrap_inline_runs_decreases(boxes: Seq<BoxTree>) {
    lemma_trailing_inline_run_bounded(boxes);
}

/// An inline run at the end of a sequence is no longer than the sequence.
pub proof fn lemma_trailing_inline_run_bounded(boxes: Seq<BoxTree>)
    ensures
        trailing_inline_run(boxes) <= boxes.len(),
    decreases boxes.len(),
{
    if boxes.len() > 0 && boxes.last().box_type is Inline {
        lemma_trailing_inline_run_bounded(boxes.drop_last());
    }
}

/// The children of the box that `node` generates, given the boxes that the
/// children of `node` generate: an inline box takes them as they are, a block
/// box takes them with every inline run wrapped in an anonymous box.
pub open spec fn arranged(node: NodeRef, boxes: Seq<BoxTree>) -> Seq<BoxTree> {
    if node.display() == Some(Display::Block) {
        wrap_inline_runs(boxes)
    } else {
        boxes
    }
}

/// The kind of the box that `node` generates.
pub open spec fn generated_kind(node: NodeRef) -> BoxType {
    if node.display() == Some(Display::Block) {
        BoxType::Block(node)
    } else {
        BoxType::Inline(node)
    }
}

/// The box that `node` generates, given the boxes that its children
/// generate: a block or inline box for the node, with zeroed geometry.
pub open spec fn box_around(node: NodeRef, boxes: Seq<BoxTree>) -> BoxTree {
    BoxTree {
        box_type: generated_kind(node),
        dimensions: Dimensions::zero(),
        children: arranged(node, boxes),
    }
}

/// The boxes that the first `count` children of `node` generate, in document
/// order. A child that generates no box leaves no trace.
pub open spec fn child_boxes(node: NodeRef, count: int) -> Seq<BoxTree>
    decreases node, count,
{
    if count <= 0 || count > node.child_nodes().len() {
        Seq::empty()
    } else {
        let before = child_boxes(node, count - 1);
        match generated_box(node.child_nodes()[count - 1]) {
            Some(child_box) => before.push(child_box),
            None => before,
        }
    }
}

/// The box tree that `node` generates: none when its `display` is `none` (or
/// unresolved), else the box of the node around the boxes of its children.
pub open spec fn generated_box(node: NodeRef) -> Option<BoxTree>
    decreases node, node.child_nodes().len() + 1,
{
    if node.generates_box() {
        Some(box_around(node, child_boxes(node, node.child_nodes().len() as int)))
    } else {
        None
    }
}

/// No box in `boxes` is anonymous.
pub open spec fn none_anonymous(boxes: Seq<BoxTree>) -> bool {
    forall|i: int| 0 <= i < boxes.len() ==> !((#[trigger] boxes[i]).box_type is Anonymous)
}

/// The boxes that children generate are block or inline boxes.
pub proof fn lemma_child_boxes_none_anonymous(node: NodeRef, count: int)
    ensures
        none_anonymous(child_boxes(node, count)),
    decreases count,
{
    if 0 < count <= node.child_nodes().len() {
        lemma_child_boxes_none_anonymous(node, count - 1);
        let child = node.child_nodes()[count - 1];
        assert(generated_box(child) matches Some(child_box) ==> !(child_box.box_type
            is Anonymous));
    }
}

/// Wrapping after appending a box that is not inline is appending it after
/// wrapping.
pub proof fn lemma_wrap_push_other(boxes: Seq<BoxTree>, next: BoxTree)
    requires
        !(next.box_type is Inline),
    ensures
        wrap_inline_runs(boxes.push(next)) == wrap_inline_runs(boxes).push(next),
{
    assert(boxes.push(next).drop_last() =~= boxes);
}

/// Wrapping after appending an inline box is appending it, after wrapping, to
/// the inline container of the block box that holds the wrapped boxes.
pub proof fn lemma_wrap_push_inline(parent: BoxTree, boxes: Seq<BoxTree>, next: BoxTree)
    requires
        parent.box_type is Block,
        parent.children == wrap_inline_runs(boxes),
        none_anonymous(boxes),
        next.box_type is Inline,
    ensures
        parent.with_inline_child(next) == (BoxTree {
            children: wrap_inline_runs(boxes.push(next)),
            ..parent
        }),
{
    let longer = boxes.push(next);
    let run = trailing_inline_run(boxes);
    let start = boxes.len() - run;
    lemma_trailing_inline_run_bounded(boxes);
    assert(longer.drop_last() =~= boxes);
    assert(trailing_inline_run(longer) == run + 1);
    assert(longer.take(start) =~= boxes.take(start));
    assert(longer.skip(start) =~= boxes.skip(start).push(next));
    if run == 0 {
        assert(boxes.take(start) =~= boxes);
        assert(boxes.skip(start).push(next) =~= Seq::<BoxTree>::empty().push(next));
        assert(!parent.ends_in_anonymous());
    } else {
        assert(parent.ends_in_anonymous());
        assert(parent.with_inline_child(next).children =~= wrap_inline_runs(longer));
    }
}

} // verus!
