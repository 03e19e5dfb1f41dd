//! What holds of the shape of every generated box tree: how block, inline and
//! anonymous boxes nest, and that fresh boxes carry no geometry yet.

use crate::dom::NodeRef;
use crate::layout::model::box_around;
use crate::layout::model::child_boxes;
use crate::layout::model::generated_box;
use crate::layout::model::lemma_child_boxes_none_anonymous;
use crate::layout::model::lemma_trailing_inline_run_bounded;
use crate::layout::model::none_anonymous;
use crate::layout::model::trailing_inline_run;
use crate::layout::model::wrap_inline_runs;
use crate::layout::model::BoxTree;
use crate::layout::Dimensions;
use crate::style::Display;
use vstd::prelude::*;

verus! {

impl BoxTree {
    /// Whether this box and every box below it has zeroed geometry.
    pub open spec fn zeroed(self) -> bool
        decreases self,
    {
        &&& self.dimensions == Dimensions::zero()
        &&& forall|i: int|
            0 <= i < self.children.len() ==> (#[trigger] self.children[i]).zeroed()
    }

    /// Whether every anonymous box below this box is the child of a block box.
    pub open spec fn anonymous_only_under_block(self) -> bool
        decreases self,
    {
        forall|i: int|
            0 <= i < self.children.len() ==> {
                &&& (#[trigger] self.children[i]).box_type is Anonymous ==> self.box_type is Block
                &&& self.children[i].anonymous_only_under_block()
            }
    }

    /// Whether the children of this box are what its kind admits:
    /// - a block box holds block and anonymous boxes, no two anonymous boxes
    ///   next to each other;
    /// - an anonymous box holds inline boxes, at least one;
    /// - an inline box holds block and inline boxes.
    pub open spec fn children_fit(self) -> bool {
        if self.box_type is Block {
            &&& forall|i: int|
                0 <= i < self.children.len() ==> !((#[trigger] self.children[i]).box_type is Inline)
            &&& forall|i: int|
                0 <= i < self.children.len() - 1 ==> !((#[trigger] self.children[i]).box_type
                    is Anonymous && self.children[i + 1].box_type is Anonymous)
        } else if self.box_type is Anonymous {
            &&& self.children.len() > 0
            &&& forall|i: int|
                0 <= i < self.children.len() ==> (#[trigger] self.children[i]).box_type is Inline
        } else {
            forall|i: int|
                0 <= i < self.children.len() ==> !((#[trigger] self.children[i]).box_type
                    is Anonymous)
        }
    }

    /// Whether inline content is coalesced throughout this tree: the children
    /// of this box and of every box below it fit its kind.
    pub open spec fn coalesced(self) -> bool
        decreases self,
    {
        &&& self.children_fit()
        &&& forall|i: int|
            0 <= i < self.children.len() ==> (#[trigger] self.children[i]).coalesced()
    }
}

/// Every box of `boxes` is zeroed and coalesced.
pub open spec fn all_sound(boxes: Seq<BoxTree>) -> bool {
    forall|i: int|
        0 <= i < boxes.len() ==> (#[trigger] boxes[i]).zeroed() && boxes[i].coalesced()
}

/// What wrapping does to a sequence of block and inline boxes: the result
/// ends in an anonymous box exactly when the sequence ends in an inline box,
/// it holds no inline box, no two anonymous boxes next to each other, and its
/// boxes are as sound as those of the sequence.
pub proof fn lemma_wrap_inline_runs_shape(boxes: Seq<BoxTree>)
    requires
        none_anonymous(boxes),
    ensures
        ({
            let wrapped = wrap_inline_runs(boxes);
            &&& wrapped.len() > 0 <==> boxes.len() > 0
            &&& boxes.len() > 0 ==> (wrapped.last().box_type is Anonymous <==> boxes.last().box_type
                is Inline)
            &&& forall|i: int| 0 <= i < wrapped.len() ==> !((#[trigger] wrapped[i]).box_type is Inline)
            &&& forall|i: int|
                0 <= i < wrapped.len() - 1 ==> !((#[trigger] wrapped[i]).box_type is Anonymous
                    && wrapped[i + 1].box_type is Anonymous)
            &&& all_sound(boxes) ==> all_sound(wrapped)
        }),
    decreases boxes.len(),
{
    let run = trailing_inline_run(boxes);
    let wrapped = wrap_inline_runs(boxes);
    lemma_trailing_inline_run_bounded(boxes);
    if boxes.len() == 0 {
    } else if run == 0 {
        lemma_wrap_inline_runs_shape(boxes.drop_last());
    } else {
        let start = boxes.len() - run;
        let before = boxes.take(start);
        let inline_run = boxes.skip(start);
        lemma_trailing_inline_run_covers(boxes);
        lemma_wrap_inline_runs_shape(before);
        let wrapper = BoxTree::anonymous(inline_run);
        if all_sound(boxes) {
            assert(wrapper.zeroed() && wrapper.coalesced()) by {
                assert forall|i: int| 0 <= i < inline_run.len() implies (#[trigger] inline_run[i]).zeroed()
                    && inline_run[i].coalesced() && inline_run[i].box_type is Inline by {
                    assert(inline_run[i] == boxes[start + i]);
                }
            }
        }
        assert(wrapper.children.len() > 0);
        if before.len() > 0 {
            assert(before.last() == boxes[start - 1]);
        }
    }
}

/// The inline run at the end of a sequence holds inline boxes only, and the
/// box before it, if there is one, is not inline.
pub proof fn lemma_trailing_inline_run_covers(boxes: Seq<BoxTree>)
    ensures
        trailing_inline_run(boxes) <= boxes.len(),
        forall|i: int|
            boxes.len() - trailing_inline_run(boxes) <= i < boxes.len() ==> (#[trigger] boxes[i]).box_type
                is Inline,
        trailing_inline_run(boxes) < boxes.len() ==> !(boxes[boxes.len() - trailing_inline_run(
            boxes,
        ) - 1].box_type is Inline),
    decreases boxes.len(),
{
    if boxes.len() > 0 && boxes.last().box_type is Inline {
        let shorter = boxes.drop_last();
        lemma_trailing_inline_run_covers(shorter);
        assert forall|i: int|
            boxes.len() - trailing_inline_run(boxes) <= i < boxes.len() implies (#[trigger] boxes[i]).box_type
            is Inline by {
            if i < shorter.len() {
                assert(boxes[i] == shorter[i]);
            }
        }
        if trailing_inline_run(boxes) < boxes.len() {
            let before = boxes.len() - trailing_inline_run(boxes) - 1;
            assert(boxes[before] == shorter[before]);
        }
    }
}

/// `boxes` with every anonymous box replaced, in place, by its children.
pub open spec fn unwrapped(boxes: Seq<BoxTree>) -> Seq<BoxTree>
    decreases boxes.len(),
{
    if boxes.len() == 0 {
        Seq::empty()
    } else if boxes.last().box_type is Anonymous {
        unwrapped(boxes.drop_last()) + boxes.last().children
    } else {
        unwrapped(boxes.drop_last()).push(boxes.last())
    }
}

/// Wrapping loses nothing and moves nothing: taking the anonymous boxes away
/// again gives back the block and inline boxes that were wrapped, in their
/// order.
pub proof fn lemma_wrap_inline_runs_unwraps(boxes: Seq<BoxTree>)
    requires
        none_anonymous(boxes),
    ensures
        unwrapped(wrap_inline_runs(boxes)) == boxes,
    decreases boxes.len(),
{
    let run = trailing_inline_run(boxes);
    lemma_trailing_inline_run_bounded(boxes);
    if boxes.len() == 0 {
    } else if run == 0 {
        let shorter = boxes.drop_last();
        lemma_wrap_inline_runs_unwraps(shorter);
        assert(wrap_inline_runs(shorter).push(boxes.last()).drop_last() =~= wrap_inline_runs(
            shorter,
        ));
        assert(shorter.push(boxes.last()) =~= boxes);
    } else {
        let start = boxes.len() - run;
        let before = boxes.take(start);
        let inline_run = boxes.skip(start);
        lemma_wrap_inline_runs_unwraps(before);
        assert(wrap_inline_runs(before).push(BoxTree::anonymous(inline_run)).drop_last()
            =~= wrap_inline_runs(before));
        assert(before + inline_run =~= boxes);
    }
}

/// The boxes that the children of a node generate are zeroed and coalesced.
proof fn lemma_child_boxes_sound(node: NodeRef, count: int)
    ensures
        all_sound(child_boxes(node, count)),
    decreases node, count,
{
    if 0 < count <= node.child_nodes().len() {
        lemma_child_boxes_sound(node, count - 1);
        lemma_generated_box_sound(node.child_nodes()[count - 1]);
    }
}

/// The box tree that a node generates is zeroed and coalesced, and its root
/// is not anonymous.
proof fn lemma_generated_box_sound(node: NodeRef)
    ensures
        generated_box(node) matches Some(tree) ==> tree.zeroed() && tree.coalesced() && !(tree.box_type
            is Anonymous),
    decreases node, node.child_nodes().len() + 1,
{
    if node.generates_box() {
        let boxes = child_boxes(node, node.child_nodes().len() as int);
        lemma_child_boxes_sound(node, node.child_nodes().len() as int);
        lemma_child_boxes_none_anonymous(node, node.child_nodes().len() as int);
        if node.display() == Some(Display::Block) {
            lemma_wrap_inline_runs_shape(boxes);
        }
        let tree = box_around(node, boxes);
        assert(all_sound(tree.children));
        assert(tree.children_fit());
    }
}

/// Every freshly generated box has zeroed geometry: the content rectangle and
/// all edges of the root and of every box below it are zero.
pub proof fn lemma_generated_box_is_zeroed(node: NodeRef)
    ensures
        generated_box(node) matches Some(tree) ==> tree.zeroed(),
{
    lemma_generated_box_sound(node);
}

/// In a generated tree inline content is coalesced: under a block box every
/// maximal run of inline-level children sits in one anonymous box, so that a
/// block box holds block and anonymous boxes only and never two anonymous
/// boxes in a row, and an anonymous box holds inline boxes only and is never
/// empty. The root of a generated tree is a block or an inline box.
pub proof fn lemma_generated_box_is_coalesced(node: NodeRef)
    ensures
        generated_box(node) matches Some(tree) ==> tree.coalesced() && !(tree.box_type is Anonymous),
{
    lemma_generated_box_sound(node);
}

/// In a coalesced tree the parent of every anonymous box is a block box.
pub proof fn lemma_coalesced_keeps_anonymous_under_block(tree: BoxTree)
    requires
        tree.coalesced(),
    ensures
        tree.anonymous_only_under_block(),
    decreases tree,
{
    assert forall|i: int| 0 <= i < tree.children.len() implies {
        &&& (#[trigger] tree.children[i]).box_type is Anonymous ==> tree.box_type is Block
        &&& tree.children[i].anonymous_only_under_block()
    } by {
        lemma_coalesced_keeps_anonymous_under_block(tree.children[i]);
    }
}

/// In a generated tree the parent of every anonymous box is a block box,
/// never an inline box or another anonymous box, and the root is not
/// anonymous.
pub proof fn lemma_anonymous_parent_is_block(node: NodeRef)
    ensures
        generated_box(node) matches Some(tree) ==> tree.anonymous_only_under_block() && !(tree.box_type
            is Anonymous),
{
    lemma_generated_box_sound(node);
    if let Some(tree) = generated_box(node) {
        lemma_coalesced_keeps_anonymous_under_block(tree);
    }
}

} // verus!
