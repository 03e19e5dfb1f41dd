use kosmonaut::dom::NodeRef;
use kosmonaut::layout::build_layout_tree;
use kosmonaut::layout::BoxType;
use kosmonaut::layout::Dimensions;
use kosmonaut::layout::EdgeSizes;
use kosmonaut::layout::LayoutBox;
use kosmonaut::layout::Rect;
use kosmonaut::style::ComputedValues;
use kosmonaut::style::Display;

fn node(id: u64, display: Display, children: Vec<NodeRef>) -> NodeRef {
    NodeRef::new(id, Some(ComputedValues { display }), children)
}

fn block(id: u64, children: Vec<NodeRef>) -> NodeRef {
    node(id, Display::Block, children)
}

fn inline(id: u64, children: Vec<NodeRef>) -> NodeRef {
    node(id, Display::Inline, children)
}

fn hidden(id: u64, children: Vec<NodeRef>) -> NodeRef {
    node(id, Display::NoBox, children)
}

/// A box tree written down by kind and node id, to compare whole trees.
#[derive(Debug, PartialEq, Eq)]
enum Shape {
    Block(u64, Vec<Shape>),
    Inline(u64, Vec<Shape>),
    Anonymous(Vec<Shape>),
}

fn shape(layout_box: &LayoutBox) -> Shape {
    let children: Vec<Shape> = layout_box.children().iter().map(shape).collect();
    match layout_box.box_type() {
        BoxType::Block(node) => Shape::Block(node.id(), children),
        BoxType::Inline(node) => Shape::Inline(node.id(), children),
        BoxType::Anonymous => Shape::Anonymous(children),
    }
}

fn build(root: NodeRef) -> LayoutBox {
    assert!(root.is_styled());
    build_layout_tree(root).expect("the root generates a box")
}

fn origin_ids(layout_box: &LayoutBox, ids: &mut Vec<u64>) {
    match layout_box.box_type() {
        BoxType::Block(node) => ids.push(node.id()),
        BoxType::Inline(node) => ids.push(node.id()),
        BoxType::Anonymous => {}
    }
    for child in layout_box.children() {
        origin_ids(child, ids);
    }
}

fn anonymous_boxes_sit_under_blocks(layout_box: &LayoutBox) -> bool {
    layout_box.children().iter().all(|child| {
        let fits = !matches!(child.box_type(), BoxType::Anonymous)
            || matches!(layout_box.box_type(), BoxType::Block(_));
        fits && anonymous_boxes_sit_under_blocks(child)
    })
}

fn all_dimensions_zero(layout_box: &LayoutBox) -> bool {
    let zero_edges = EdgeSizes { left: 0, right: 0, top: 0, bottom: 0 };
    let zero = Dimensions {
        content: Rect { x: 0, y: 0, width: 0, height: 0 },
        padding: zero_edges,
        border: zero_edges,
        margin: zero_edges,
    };
    *layout_box.dimensions() == zero && layout_box.children().iter().all(all_dimensions_zero)
}

/// A document with every arrangement at once: hidden subtrees with displayed
/// descendants, inline runs cut by blocks, blocks inside inline nodes.
fn mixed_document() -> NodeRef {
    block(
        1,
        vec![
            inline(2, vec![inline(3, vec![]), block(4, vec![inline(5, vec![])])]),
            hidden(6, vec![block(7, vec![inline(8, vec![])]), inline(9, vec![])]),
            inline(10, vec![]),
            block(11, vec![hidden(12, vec![]), inline(13, vec![]), block(14, vec![])]),
            inline(15, vec![hidden(16, vec![inline(17, vec![])])]),
        ],
    )
}

#[test]
fn display_none_root_yields_no_box() {
    let root = hidden(1, vec![]);
    assert!(root.is_styled());
    assert!(build_layout_tree(root).is_none());
}

#[test]
fn display_none_root_elides_displayed_descendants() {
    let root = hidden(1, vec![block(2, vec![inline(3, vec![])]), inline(4, vec![])]);
    assert!(root.is_styled());
    assert!(build_layout_tree(root).is_none());
}

#[test]
fn display_none_subtree_leaves_no_box_behind() {
    let root = block(
        1,
        vec![hidden(2, vec![block(3, vec![inline(4, vec![])]), inline(5, vec![])]), block(6, vec![])],
    );
    let tree = build(root);
    assert_eq!(shape(&tree), Shape::Block(1, vec![Shape::Block(6, vec![])]));
    let mut ids = Vec::new();
    origin_ids(&tree, &mut ids);
    for elided in [2, 3, 4, 5] {
        assert!(!ids.contains(&elided));
    }
}

#[test]
fn boxes_stand_for_the_displayed_nodes_in_document_order() {
    let tree = build(mixed_document());
    let mut ids = Vec::new();
    origin_ids(&tree, &mut ids);
    assert_eq!(ids, vec![1, 2, 3, 4, 5, 10, 11, 13, 14, 15]);
}

#[test]
fn block_and_inline_box_count_equals_displayed_node_count() {
    let tree = build(mixed_document());
    let mut ids = Vec::new();
    origin_ids(&tree, &mut ids);
    // Of the 17 nodes, 6, 12 and 16 are hidden and 7, 8, 9 and 17 lie below a hidden node.
    assert_eq!(ids.len(), 10);
}

#[test]
fn mixed_document_builds_to_the_expected_tree() {
    let tree = build(mixed_document());
    assert_eq!(
        shape(&tree),
        Shape::Block(
            1,
            vec![
                Shape::Anonymous(vec![
                    Shape::Inline(
                        2,
                        vec![
                            Shape::Inline(3, vec![]),
                            Shape::Block(4, vec![Shape::Anonymous(vec![Shape::Inline(5, vec![])])]),
                        ],
                    ),
                    Shape::Inline(10, vec![]),
                ]),
                Shape::Block(
                    11,
                    vec![Shape::Anonymous(vec![Shape::Inline(13, vec![])]), Shape::Block(14, vec![])],
                ),
                Shape::Anonymous(vec![Shape::Inline(15, vec![])]),
            ],
        )
    );
}

#[test]
fn every_anonymous_box_has_a_block_parent() {
    let tree = build(mixed_document());
    assert!(!matches!(tree.box_type(), BoxType::Anonymous));
    assert!(anonymous_boxes_sit_under_blocks(&tree));
}

#[test]
fn inline_runs_are_coalesced_but_not_across_a_block() {
    let root = block(
        1,
        vec![inline(2, vec![]), inline(3, vec![]), block(4, vec![]), inline(5, vec![])],
    );
    let tree = build(root);
    assert_eq!(tree.children().len(), 3);
    assert_eq!(
        shape(&tree),
        Shape::Block(
            1,
            vec![
                Shape::Anonymous(vec![Shape::Inline(2, vec![]), Shape::Inline(3, vec![])]),
                Shape::Block(4, vec![]),
                Shape::Anonymous(vec![Shape::Inline(5, vec![])]),
            ],
        )
    );
}

#[test]
fn inline_root_without_children_is_a_single_inline_box() {
    let tree = build(inline(1, vec![]));
    assert_eq!(shape(&tree), Shape::Inline(1, vec![]));
    assert_eq!(tree.children().len(), 0);
}

#[test]
fn block_with_only_a_hidden_child_has_no_children() {
    let tree = build(block(1, vec![hidden(2, vec![])]));
    assert_eq!(shape(&tree), Shape::Block(1, vec![]));
    assert_eq!(tree.children().len(), 0);
}

#[test]
fn freshly_built_boxes_have_zero_dimensions() {
    let tree = build(mixed_document());
    assert!(all_dimensions_zero(&tree));
    let dimensions = tree.dimensions();
    assert_eq!(dimensions.content, Rect { x: 0, y: 0, width: 0, height: 0 });
    assert_eq!(dimensions.padding, EdgeSizes { left: 0, right: 0, top: 0, bottom: 0 });
    assert_eq!(dimensions.border, EdgeSizes { left: 0, right: 0, top: 0, bottom: 0 });
    assert_eq!(dimensions.margin, EdgeSizes { left: 0, right: 0, top: 0, bottom: 0 });
}

#[test]
fn two_spans_and_a_div_under_a_div() {
    let root = block(1, vec![inline(2, vec![]), inline(3, vec![]), block(4, vec![])]);
    let tree = build(root);
    assert_eq!(
        shape(&tree),
        Shape::Block(
            1,
            vec![
                Shape::Anonymous(vec![Shape::Inline(2, vec![]), Shape::Inline(3, vec![])]),
                Shape::Block(4, vec![]),
            ],
        )
    );
}

#[test]
fn block_child_of_an_inline_box_is_appended_directly() {
    // Known limitation: the inline box is not split around the block box.
    let root = inline(1, vec![inline(2, vec![]), block(3, vec![]), inline(4, vec![])]);
    let tree = build(root);
    assert_eq!(
        shape(&tree),
        Shape::Inline(
            1,
            vec![Shape::Inline(2, vec![]), Shape::Block(3, vec![]), Shape::Inline(4, vec![])],
        )
    );
}

#[test]
fn inline_children_of_an_inline_box_need_no_anonymous_box() {
    let tree = build(inline(1, vec![inline(2, vec![]), inline(3, vec![])]));
    assert_eq!(
        shape(&tree),
        Shape::Inline(1, vec![Shape::Inline(2, vec![]), Shape::Inline(3, vec![])])
    );
}

#[test]
fn a_hidden_sibling_does_not_cut_an_inline_run() {
    let root = block(1, vec![inline(2, vec![]), hidden(3, vec![]), inline(4, vec![])]);
    let tree = build(root);
    assert_eq!(
        shape(&tree),
        Shape::Block(
            1,
            vec![Shape::Anonymous(vec![Shape::Inline(2, vec![]), Shape::Inline(4, vec![])])],
        )
    );
}

#[test]
fn blocks_only_need_no_anonymous_box() {
    let tree = build(block(1, vec![block(2, vec![]), block(3, vec![])]));
    assert_eq!(
        shape(&tree),
        Shape::Block(1, vec![Shape::Block(2, vec![]), Shape::Block(3, vec![])])
    );
}

#[test]
fn an_inline_run_after_a_block_opens_a_new_anonymous_box() {
    let root = block(
        1,
        vec![
            block(2, vec![]),
            inline(3, vec![]),
            block(4, vec![]),
            block(5, vec![]),
            inline(6, vec![]),
            inline(7, vec![]),
        ],
    );
    let tree = build(root);
    assert_eq!(
        shape(&tree),
        Shape::Block(
            1,
            vec![
                Shape::Block(2, vec![]),
                Shape::Anonymous(vec![Shape::Inline(3, vec![])]),
                Shape::Block(4, vec![]),
                Shape::Block(5, vec![]),
                Shape::Anonymous(vec![Shape::Inline(6, vec![]), Shape::Inline(7, vec![])]),
            ],
        )
    );
}

#[test]
fn an_unstyled_node_below_a_hidden_node_leaves_the_document_unstyled() {
    let unstyled = NodeRef::new(3, None, vec![]);
    let root = block(1, vec![hidden(2, vec![unstyled])]);
    assert!(!root.is_styled());
}

#[test]
fn is_styled_needs_every_node_styled() {
    assert!(mixed_document().is_styled());
    assert!(!NodeRef::new(1, None, vec![]).is_styled());
    let deep = block(1, vec![inline(2, vec![block(3, vec![NodeRef::new(4, None, vec![])])])]);
    assert!(!deep.is_styled());
    let unstyled_root = NodeRef::new(1, None, vec![block(2, vec![])]);
    assert!(!unstyled_root.is_styled());
}

#[test]
fn measuring_a_deep_copy_leaves_the_copied_tree_alone() {
    let built = build(mixed_document());
    let mut copy = built.clone();
    assert_eq!(shape(&copy), shape(&built));
    let measured = Dimensions {
        content: Rect { x: 10, y: 20, width: 300, height: 40 },
        padding: EdgeSizes { left: 1, right: 2, top: 3, bottom: 4 },
        border: EdgeSizes { left: 5, right: 6, top: 7, bottom: 8 },
        margin: EdgeSizes { left: 9, right: 10, top: 11, bottom: 12 },
    };
    copy.set_dimensions(measured);
    copy.child_mut(0).set_dimensions(measured);
    copy.child_mut(1).child_mut(0).set_dimensions(measured);
    assert_eq!(*copy.dimensions(), measured);
    assert_eq!(*copy.children()[0].dimensions(), measured);
    assert_eq!(*copy.children()[1].children()[0].dimensions(), measured);
    assert!(all_dimensions_zero(&built));
    assert_eq!(shape(&copy), shape(&built));
}

#[test]
fn measuring_a_box_keeps_its_kind_and_children() {
    let mut tree = build(block(1, vec![inline(2, vec![]), block(3, vec![])]));
    let before = shape(&tree);
    let measured = Dimensions {
        content: Rect { x: -4, y: 7, width: 640, height: 480 },
        padding: EdgeSizes { left: 0, right: 0, top: 0, bottom: 0 },
        border: EdgeSizes { left: 1, right: 1, top: 1, bottom: 1 },
        margin: EdgeSizes { left: 8, right: 8, top: 8, bottom: 8 },
    };
    tree.child_mut(1).set_dimensions(measured);
    assert_eq!(shape(&tree), before);
    assert_eq!(*tree.children()[1].dimensions(), measured);
    assert_eq!(*tree.children()[0].dimensions(), Dimensions::default());
    assert_eq!(*tree.dimensions(), Dimensions::default());
}

#[test]
fn new_box_is_empty_and_zeroed() {
    let fresh = LayoutBox::new(BoxType::Anonymous);
    assert!(matches!(fresh.box_type(), BoxType::Anonymous));
    assert_eq!(fresh.children().len(), 0);
    assert_eq!(*fresh.dimensions(), Dimensions::default());
    assert!(all_dimensions_zero(&fresh));
}

#[test]
fn defaults_are_zero() {
    assert_eq!(Rect::default(), Rect { x: 0, y: 0, width: 0, height: 0 });
    assert_eq!(EdgeSizes::default(), EdgeSizes { left: 0, right: 0, top: 0, bottom: 0 });
    let dimensions = Dimensions::default();
    assert_eq!(dimensions.content, Rect::default());
    assert_eq!(dimensions.padding, EdgeSizes::default());
    assert_eq!(dimensions.border, EdgeSizes::default());
    assert_eq!(dimensions.margin, EdgeSizes::default());
}

#[test]
fn kind_equality_compares_tags_only() {
    let one = BoxType::Block(block(1, vec![]));
    let other = BoxType::Block(inline(2, vec![inline(3, vec![])]));
    assert!(one.same_kind(&other));
    assert!(BoxType::Anonymous.same_kind(&BoxType::Anonymous));
    assert!(BoxType::Inline(inline(1, vec![])).same_kind(&BoxType::Inline(inline(9, vec![]))));
    assert!(!one.same_kind(&BoxType::Inline(block(1, vec![]))));
    assert!(!one.same_kind(&BoxType::Anonymous));
    assert!(!BoxType::Anonymous.same_kind(&BoxType::Inline(inline(1, vec![]))));
}

#[test]
fn cloned_kind_refers_to_the_same_node() {
    let kind = BoxType::Inline(inline(42, vec![block(43, vec![])]));
    match kind.clone() {
        BoxType::Inline(node) => {
            assert_eq!(node.id(), 42);
            assert_eq!(node.children().len(), 1);
            assert_eq!(node.children()[0].id(), 43);
        }
        _ => panic!("the copy of an inline kind is an inline kind"),
    }
    assert!(matches!(BoxType::Anonymous.clone(), BoxType::Anonymous));
}

#[test]
fn cloned_handle_points_at_the_same_node() {
    let first = block(7, vec![inline(8, vec![]), hidden(9, vec![])]);
    let handle = first.clone();
    assert_eq!(handle.id(), 7);
    assert_eq!(*handle.computed_values(), Some(ComputedValues { display: Display::Block }));
    assert_eq!(handle.children().len(), 2);
    assert_eq!(handle.children()[0].id(), 8);
    assert_eq!(handle.children()[1].id(), 9);
    assert!(std::rc::Rc::ptr_eq(&first.0, &handle.0));
}

#[test]
fn boxes_refer_back_to_the_nodes_of_the_document() {
    let span = inline(2, vec![]);
    let root = block(1, vec![span.clone()]);
    let tree = build(root.clone());
    match tree.box_type() {
        BoxType::Block(node) => assert!(std::rc::Rc::ptr_eq(&node.0, &root.0)),
        _ => panic!("a block node generates a block box"),
    }
    match tree.children()[0].children()[0].box_type() {
        BoxType::Inline(node) => assert!(std::rc::Rc::ptr_eq(&node.0, &span.0)),
        _ => panic!("an inline node generates an inline box"),
    }
}

#[test]
fn display_tells_none_apart() {
    assert!(Display::NoBox.is_no_box());
    assert!(!Display::Block.is_no_box());
    assert!(!Display::Inline.is_no_box());
}
