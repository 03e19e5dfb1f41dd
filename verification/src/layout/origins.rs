//! Which nodes of the styled document the boxes of a generated tree stand
//! for: exactly the displayed ones, each once, in document order.

use crate::dom::NodeRef;
use crate::layout::model::child_boxes;
use crate::layout::model::generated_box;
use crate::layout::model::lemma_trailing_inline_run_bounded;
use crate::layout::model::trailing_inline_run;
use crate::layout::model::wrap_inline_runs;
use crate::layout::model::BoxTree;
use crate::style::Display;
use vstd::prelude::*;

verus! {

impl BoxTree {
    /// The node of this box, if it has one, as a sequence of at most one node.
    pub open spec fn own_origin(self) -> Seq<NodeRef> {
        match self.box_type.origin() {
            Some(node) => seq![node],
            None => Seq::empty(),
        }
    }

    /// The nodes that the block and inline boxes of this tree were generated
    /// for, in document order: the node of a box comes before the nodes of the
    /// boxes below it, and siblings come left to right.
    pub open spec fn origins(self) -> Seq<NodeRef>
        decreases self,
    {
        self.own_origin() + origins_among(self.children)
    }

    /// The number of block and inline boxes in this tree.
    pub open spec fn node_box_count(self) -> nat
        decreases self,
    {
        self.own_origin().len() + node_box_count_among(self.children)
    }
}

/// The origins of the trees of `boxes`, one tree after the other.
pub open spec fn origins_among(boxes: Seq<BoxTree>) -> Seq<NodeRef>
    decreases boxes,
{
    if boxes.len() == 0 {
        Seq::empty()
    } else {
        origins_among(boxes.drop_last()) + boxes.last().origins()
    }
}

/// The number of block and inline boxes in the trees of `boxes`.
pub open spec fn node_box_count_among(boxes: Seq<BoxTree>) -> nat
    decreases boxes,
{
    if boxes.len() == 0 {
        0
    } else {
        node_box_count_among(boxes.drop_last()) + boxes.last().node_box_count()
    }
}

/// A tree has as many origins as it has block and inline boxes.
pub proof fn lemma_origins_len(tree: BoxTree)
    ensures
        tree.origins().len() == tree.node_box_count(),
    decreases tree,
{
    lemma_origins_among_len(tree.children);
}

/// Trees have as many origins as they have block and inline boxes.
pub proof fn lemma_origins_among_len(boxes: Seq<BoxTree>)
    ensures
        origins_among(boxes).len() == node_box_count_among(boxes),
    decreases boxes,
{
    if boxes.len() > 0 {
        lemma_origins_among_len(boxes.drop_last());
        lemma_origins_len(boxes.last());
    }
}

/// The origins of two sequences of trees, one after the other, are the
/// origins of the first followed by those of the second.
pub proof fn lemma_origins_among_add(first: Seq<BoxTree>, second: Seq<BoxTree>)
    ensures
        origins_among(first + second) == origins_among(first) + origins_among(second),
    decreases second.len(),
{
    if second.len() == 0 {
        assert(first + second =~= first);
        assert(origins_among(first) + origins_among(second) =~= origins_among(first));
    } else {
        lemma_origins_among_add(first, second.drop_last());
        assert((first + second).drop_last() =~= first + second.drop_last());
        assert((first + second).last() == second.last());
        assert(origins_among(first + second) =~= origins_among(first) + origins_among(second));
    }
}

/// Wrapping inline runs in anonymous boxes neither adds nor removes an
/// origin, nor changes their order.
pub proof fn lemma_wrap_keeps_origins(boxes: Seq<BoxTree>)
    ensures
        origins_among(wrap_inline_runs(boxes)) == origins_among(boxes),
    decreases boxes.len(),
{
    let run = trailing_inline_run(boxes);
    lemma_trailing_inline_run_bounded(boxes);
    if boxes.len() == 0 {
    } else if run == 0 {
        let shorter = boxes.drop_last();
        lemma_wrap_keeps_origins(shorter);
        let wrapped = wrap_inline_runs(shorter).push(boxes.last());
        assert(wrapped.drop_last() =~= wrap_inline_runs(shorter));
    } else {
        let start = boxes.len() - run;
        let before = boxes.take(start);
        let inline_run = boxes.skip(start);
        lemma_wrap_keeps_origins(before);
        let wrapper = BoxTree::anonymous(inline_run);
        let wrapped = wrap_inline_runs(before).push(wrapper);
        assert(wrapped.drop_last() =~= wrap_inline_runs(before));
        assert(wrapper.origins() =~= origins_among(inline_run));
        lemma_origins_among_add(before, inline_run);
        assert(before + inline_run =~= boxes);
    }
}

/// `path` with one more step in front: first to the child at `position`,
/// then along `path`.
pub open spec fn through_child(position: int, path: Seq<int>) -> Seq<int> {
    seq![position] + path
}

/// Each of `paths` with the step to the child at `position` in front.
pub open spec fn paths_through_child(position: int, paths: Seq<Seq<int>>) -> Seq<Seq<int>> {
    Seq::new(paths.len(), |i: int| through_child(position, paths[i]))
}

/// The paths that lead from `node` to the displayed nodes at and below it, in
/// document order: none when `node` generates no box, else the empty path
/// followed by the displayed paths through each child in turn.
pub open spec fn displayed_paths(node: NodeRef) -> Seq<Seq<int>>
    decreases node, node.child_nodes().len() + 1,
{
    if node.generates_box() {
        seq![Seq::<int>::empty()] + displayed_paths_below(node, node.child_nodes().len() as int)
    } else {
        Seq::empty()
    }
}

/// The displayed paths from `node` through its first `count` children, in
/// document order.
pub open spec fn displayed_paths_below(node: NodeRef, count: int) -> Seq<Seq<int>>
    decreases node, count,
{
    if count <= 0 || count > node.child_nodes().len() {
        Seq::empty()
    } else {
        displayed_paths_below(node, count - 1) + paths_through_child(
            count - 1,
            displayed_paths(node.child_nodes()[count - 1]),
        )
    }
}

/// The nodes that `paths` lead to from `node`, path by path.
pub open spec fn nodes_at(node: NodeRef, paths: Seq<Seq<int>>) -> Seq<NodeRef> {
    Seq::new(paths.len(), |i: int| node.descendant(paths[i]).unwrap())
}

/// A path is among the paths through a child exactly when it starts with the
/// step to that child and goes on as one of the paths.
proof fn lemma_paths_through_child_contains(position: int, paths: Seq<Seq<int>>, path: Seq<int>)
    ensures
        paths_through_child(position, paths).contains(path) <==> path.len() > 0 && path[0]
            == position && paths.contains(path.drop_first()),
{
    let longer = paths_through_child(position, paths);
    if longer.contains(path) {
        let i = choose|i: int| 0 <= i < longer.len() && longer[i] == path;
        assert(path.drop_first() =~= paths[i]);
    }
    if path.len() > 0 && path[0] == position && paths.contains(path.drop_first()) {
        let i = choose|i: int| 0 <= i < paths.len() && paths[i] == path.drop_first();
        assert(longer[i] =~= path);
    }
}

/// A path is in the concatenation of two sequences exactly when it is in one
/// of them.
proof fn lemma_add_contains(first: Seq<Seq<int>>, second: Seq<Seq<int>>, path: Seq<int>)
    ensures
        (first + second).contains(path) <==> first.contains(path) || second.contains(path),
{
    let both = first + second;
    if both.contains(path) {
        let i = choose|i: int| 0 <= i < both.len() && both[i] == path;
        if i < first.len() {
            assert(first[i] == path);
        } else {
            assert(second[i - first.len()] == path);
        }
    }
    if first.contains(path) {
        let i = choose|i: int| 0 <= i < first.len() && first[i] == path;
        assert(both[i] == path);
    }
    if second.contains(path) {
        let i = choose|i: int| 0 <= i < second.len() && second[i] == path;
        assert(both[first.len() + i] == path);
    }
}

/// A path is among the displayed paths through the first `count` children of
/// a node exactly when it steps to one of them and is displayed from there.
proof fn lemma_displayed_paths_below_exact(node: NodeRef, count: int, path: Seq<int>)
    requires
        0 <= count <= node.child_nodes().len(),
    ensures
        displayed_paths_below(node, count).contains(path) <==> path.len() > 0 && 0 <= path[0]
            < count && node.child_nodes()[path[0]].displayed_at(path.drop_first()),
    decreases node, count,
{
    if count > 0 {
        let child = node.child_nodes()[count - 1];
        lemma_displayed_paths_below_exact(node, count - 1, path);
        lemma_displayed_paths_exact(child, path.drop_first());
        lemma_paths_through_child_contains(count - 1, displayed_paths(child), path);
        lemma_add_contains(
            displayed_paths_below(node, count - 1),
            paths_through_child(count - 1, displayed_paths(child)),
            path,
        );
    }
}

/// The displayed paths of a node are exactly the paths along which every
/// node generates a box: a path is among them if and only if the node it
/// leads to is displayed.
pub proof fn lemma_displayed_paths_exact(node: NodeRef, path: Seq<int>)
    ensures
        displayed_paths(node).contains(path) <==> node.displayed_at(path),
    decreases node, node.child_nodes().len() + 1,
{
    if node.generates_box() {
        let count = node.child_nodes().len() as int;
        let root = seq![Seq::<int>::empty()];
        lemma_displayed_paths_below_exact(node, count, path);
        lemma_add_contains(root, displayed_paths_below(node, count), path);
        if path.len() == 0 {
            assert(root[0] =~= path);
        }
    }
}

/// No node at or below a node that generates no box is displayed, whatever
/// its own `display` says: if `hidden` leads from `root` to a node whose
/// `display` is `none`, no path that starts with `hidden` is displayed.
pub proof fn lemma_nothing_displayed_below_hidden(root: NodeRef, hidden: Seq<int>, below: Seq<int>)
    requires
        root.descendant(hidden) matches Some(node) && !node.generates_box(),
    ensures
        !root.displayed_at(hidden + below),
        !displayed_paths(root).contains(hidden + below),
    decreases hidden.len(),
{
    let path = hidden + below;
    if hidden.len() > 0 {
        let child = root.child_nodes()[hidden[0]];
        assert(path[0] == hidden[0]);
        assert(path.drop_first() =~= hidden.drop_first() + below);
        lemma_nothing_displayed_below_hidden(child, hidden.drop_first(), below);
    }
    lemma_displayed_paths_exact(root, path);
}

/// A displayed path leads to a node, and that node generates a box.
pub proof fn lemma_displayed_path_leads_to_node(root: NodeRef, path: Seq<int>)
    requires
        root.displayed_at(path),
    ensures
        root.descendant(path) matches Some(node) && node.generates_box(),
    decreases path.len(),
{
    if path.len() > 0 {
        lemma_displayed_path_leads_to_node(root.child_nodes()[path[0]], path.drop_first());
    }
}

/// The displayed paths through the first `count` children of a node are all
/// different.
proof fn lemma_displayed_paths_below_distinct(node: NodeRef, count: int)
    requires
        0 <= count <= node.child_nodes().len(),
    ensures
        displayed_paths_below(node, count).no_duplicates(),
    decreases node, count,
{
    if count > 0 {
        let child = node.child_nodes()[count - 1];
        let before = displayed_paths_below(node, count - 1);
        let paths = displayed_paths(child);
        let through = paths_through_child(count - 1, paths);
        lemma_displayed_paths_below_distinct(node, count - 1);
        lemma_displayed_paths_distinct(child);
        assert forall|i: int, j: int|
            0 <= i < through.len() && 0 <= j < through.len() && i != j implies through[i]
            != through[j] by {
            assert(through[i].drop_first() =~= paths[i]);
            assert(through[j].drop_first() =~= paths[j]);
        }
        assert forall|i: int, j: int| 0 <= i < before.len() && 0 <= j < through.len() implies before[i]
            != through[j] by {
            lemma_displayed_paths_below_exact(node, count - 1, before[i]);
            assert(before.contains(before[i]));
            assert(through[j][0] == count - 1);
        }
        vstd::seq_lib::lemma_no_dup_in_concat(before, through);
    }
}

/// A node has each of its displayed paths once.
pub proof fn lemma_displayed_paths_distinct(node: NodeRef)
    ensures
        displayed_paths(node).no_duplicates(),
    decreases node, node.child_nodes().len() + 1,
{
    if node.generates_box() {
        let count = node.child_nodes().len() as int;
        let root = seq![Seq::<int>::empty()];
        let below = displayed_paths_below(node, count);
        lemma_displayed_paths_below_distinct(node, count);
        assert forall|i: int, j: int| 0 <= i < root.len() && 0 <= j < below.len() implies root[i]
            != below[j] by {
            lemma_displayed_paths_below_exact(node, count, below[j]);
            assert(below.contains(below[j]));
        }
        vstd::seq_lib::lemma_no_dup_in_concat(root, below);
    }
}

/// The nodes that two sequences of paths lead to, one after the other.
proof fn lemma_nodes_at_add(node: NodeRef, first: Seq<Seq<int>>, second: Seq<Seq<int>>)
    ensures
        nodes_at(node, first + second) == nodes_at(node, first) + nodes_at(node, second),
{
    assert(nodes_at(node, first + second) =~= nodes_at(node, first) + nodes_at(node, second));
}

/// Paths through a child lead where the paths lead from the child.
proof fn lemma_nodes_at_through_child(node: NodeRef, position: int, paths: Seq<Seq<int>>)
    requires
        0 <= position < node.child_nodes().len(),
    ensures
        nodes_at(node, paths_through_child(position, paths)) == nodes_at(
            node.child_nodes()[position],
            paths,
        ),
{
    let through = paths_through_child(position, paths);
    let child = node.child_nodes()[position];
    assert forall|i: int| 0 <= i < paths.len() implies node.descendant(through[i])
        == child.descendant(paths[i]) by {
        assert(through[i].drop_first() =~= paths[i]);
    }
    assert(nodes_at(node, through) =~= nodes_at(child, paths));
}

/// The boxes of the first `count` children of a node stand for the nodes at
/// the displayed paths through those children.
proof fn lemma_child_boxes_origins(node: NodeRef, count: int)
    requires
        0 <= count <= node.child_nodes().len(),
    ensures
        origins_among(child_boxes(node, count)) == nodes_at(
            node,
            displayed_paths_below(node, count),
        ),
    decreases node, count,
{
    if count > 0 {
        let child = node.child_nodes()[count - 1];
        let before = child_boxes(node, count - 1);
        let paths = displayed_paths(child);
        lemma_child_boxes_origins(node, count - 1);
        lemma_generated_box_origins(child);
        lemma_nodes_at_add(
            node,
            displayed_paths_below(node, count - 1),
            paths_through_child(count - 1, paths),
        );
        lemma_nodes_at_through_child(node, count - 1, paths);
        match generated_box(child) {
            Some(child_box) => {
                assert(before.push(child_box).drop_last() =~= before);
            },
            None => {
                assert(origins_among(before) + nodes_at(child, paths) =~= origins_among(before));
            },
        }
    } else {
        assert(nodes_at(node, displayed_paths_below(node, count)) =~= Seq::empty());
    }
}

/// The block and inline boxes of a generated tree stand for the displayed
/// nodes, each for one, in document order: the origins of the tree are the
/// nodes at the displayed paths of the node it was generated for. A node that
/// generates no box has no displayed path.
pub proof fn lemma_generated_box_origins(node: NodeRef)
    ensures
        match generated_box(node) {
            Some(tree) => tree.origins() == nodes_at(node, displayed_paths(node)),
            None => displayed_paths(node).len() == 0,
        },
    decreases node, node.child_nodes().len() + 1,
{
    if node.generates_box() {
        let count = node.child_nodes().len() as int;
        let boxes = child_boxes(node, count);
        let root = seq![Seq::<int>::empty()];
        lemma_child_boxes_origins(node, count);
        if node.display() == Some(Display::Block) {
            lemma_wrap_keeps_origins(boxes);
        }
        lemma_nodes_at_add(node, root, displayed_paths_below(node, count));
        assert(nodes_at(node, root) =~= seq![node]);
    }
}

/// Where identifiers tell the nodes of a document apart, no box of the
/// generated tree stands for a node whose `display` is `none`, nor for any
/// node below such a node, whatever the `display` of that node.
pub proof fn lemma_hidden_nodes_have_no_box(root: NodeRef, hidden: Seq<int>, below: Seq<int>)
    requires
        root.distinct_ids(),
        root.descendant(hidden) matches Some(node) && !node.generates_box(),
        root.descendant(hidden + below) is Some,
    ensures
        generated_box(root) matches Some(tree) ==> forall|i: int|
            0 <= i < tree.origins().len() ==> (#[trigger] tree.origins()[i]).node_id()
                != root.descendant(hidden + below).unwrap().node_id(),
{
    if let Some(tree) = generated_box(root) {
        let paths = displayed_paths(root);
        lemma_generated_box_origins(root);
        lemma_nothing_displayed_below_hidden(root, hidden, below);
        assert forall|i: int| 0 <= i < tree.origins().len() implies (#[trigger] tree.origins()[i]).node_id()
            != root.descendant(hidden + below).unwrap().node_id() by {
            assert(paths.contains(paths[i]));
            lemma_displayed_paths_exact(root, paths[i]);
            lemma_displayed_path_leads_to_node(root, paths[i]);
            assert(tree.origins()[i] == root.descendant(paths[i]).unwrap());
        }
    }
}

/// The positions, as paths from `node`, of the nodes at and below `node`
/// that are displayed.
pub open spec fn displayed_positions(node: NodeRef) -> Set<Seq<int>> {
    Set::new(|path: Seq<int>| node.displayed_at(path))
}

/// A generated tree has as many block and inline boxes as there are
/// displayed nodes at and below the node it was generated for: nodes whose
/// own `display` is not `none` and that do not lie below a node whose
/// `display` is `none`.
pub proof fn lemma_generated_box_count(node: NodeRef)
    ensures
        displayed_positions(node).finite(),
        generated_box(node) matches Some(tree) ==> tree.node_box_count() == displayed_positions(
            node,
        ).len(),
        generated_box(node) is None ==> displayed_positions(node).len() == 0,
{
    let paths = displayed_paths(node);
    assert(paths.to_set() =~= displayed_positions(node)) by {
        assert forall|path: Seq<int>| paths.to_set().contains(path) == displayed_positions(
            node,
        ).contains(path) by {
            lemma_displayed_paths_exact(node, path);
        }
    }
    vstd::seq_lib::seq_to_set_is_finite(paths);
    lemma_displayed_paths_distinct(node);
    paths.unique_seq_to_set();
    lemma_generated_box_origins(node);
    if let Some(tree) = generated_box(node) {
        lemma_origins_len(tree);
    }
}

} // verus!
