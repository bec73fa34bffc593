//! What holds of every box tree and of every layout.

use vstd::prelude::*;
use crate::css::px;
use crate::layout::{
    block_start, box_tree, child_boxes, hidden, layout, layout_block, layout_children, layout_text,
    margin_box_height, prop_px, with_height, BoxType, BoxView, Dimensions, LayoutBox, LayoutError,
};
use crate::style::StyledNode;

verus! {

/// Whether the box `b` is `tree` or one of the boxes below it.
pub open spec fn occurs_in<'a>(b: BoxView<'a>, tree: BoxView<'a>) -> bool
    decreases tree,
{
    b == tree || exists|i: int|
        0 <= i < tree.children.len() && occurs_in(b, #[trigger] tree.children[i])
}

/// Whether `node` is `root`, or is reached from `root` by going from a node
/// to one of its children that is not hidden, step after step.
pub open spec fn shown_below(node: StyledNode, root: StyledNode) -> bool
    decreases root,
{
    node == root || exists|i: int|
        0 <= i < root.children@.len() && !hidden(#[trigger] root.children@[i]) && shown_below(
            node,
            root.children@[i],
        )
}

/// Each of the boxes made for the children of `s` is the box tree of a
/// child that is not hidden.
proof fn lemma_child_boxes_source<'a>(s: &'a StyledNode<'a>, k: int, i: int) -> (m: int)
    requires
        0 <= k <= s.children@.len(),
        0 <= i < child_boxes(s, k).len(),
    ensures
        0 <= m < k,
        !hidden(s.children@[m]),
        child_boxes(s, k)[i] == box_tree(&s.children@[m]),
    decreases k,
{
    if k <= 0 {
        assert(child_boxes(s, k) == Seq::<BoxView>::empty());
        0
    } else if hidden(s.children@[k - 1]) {
        assert(child_boxes(s, k) == child_boxes(s, k - 1));
        lemma_child_boxes_source(s, k - 1, i)
    } else {
        assert(child_boxes(s, k) == child_boxes(s, k - 1).push(box_tree(&s.children@[k - 1])));
        if i < child_boxes(s, k - 1).len() {
            lemma_child_boxes_source(s, k - 1, i)
        } else {
            k - 1
        }
    }
}

/// A hidden node, and whatever lies below it, gets no box.
///
/// Every box of the box tree of `root` stands for a node that is reached
/// from `root` without passing through a hidden node, and none but the
/// box of `root` itself stands for a hidden node. So the nodes below a
/// hidden node get no box, be their own display what it may.
pub proof fn lemma_hidden_nodes_get_no_box<'a>(root: &'a StyledNode<'a>, b: BoxView<'a>)
    requires
        occurs_in(b, box_tree(root)),
    ensures
        shown_below(*b.styled_node, *root),
        b == box_tree(root) || !hidden(*b.styled_node),
    decreases root,
{
    let tree = box_tree(root);
    assert(tree.styled_node == root);
    assert(tree.children == child_boxes(root, root.children@.len() as int));
    if b != tree {
        let i = choose|i: int| 0 <= i < tree.children.len() && occurs_in(b, #[trigger] tree.children[i]);
        let m = lemma_child_boxes_source(root, root.children@.len() as int, i);
        let child = &root.children@[m];
        lemma_hidden_nodes_get_no_box(child, b);
        assert(box_tree(child).styled_node == child);
        assert(!hidden(root.children@[m]) && shown_below(*b.styled_node, root.children@[m]));
    }
}

/// Whether `a` and `b` are the same tree of boxes but for the dimensions:
/// box for box of the same kind and for the same styled node.
pub open spec fn same_shape<'a>(a: BoxView<'a>, b: BoxView<'a>) -> bool
    decreases a,
{
    &&& a.box_type == b.box_type
    &&& a.styled_node == b.styled_node
    &&& a.children.len() == b.children.len()
    &&& forall|i: int|
        0 <= i < a.children.len() ==> same_shape(#[trigger] a.children[i], b.children[i])
}

/// A box that is not laid out is left as it is, so it has its own shape.
proof fn lemma_same_shape_reflexive<'a>(b: BoxView<'a>)
    ensures
        same_shape(b, b),
    decreases b,
{
    assert forall|i: int| 0 <= i < b.children.len() implies same_shape(
        #[trigger] b.children[i],
        b.children[i],
    ) by {
        lemma_same_shape_reflexive(b.children[i]);
    }
}

/// The layout gives a tree its dimensions and nothing else: what comes
/// out has the boxes that went in, each of its kind and for its styled
/// node.
pub proof fn lemma_layout_keeps_shape<'a>(b: BoxView<'a>, parent: Dimensions, done: BoxView<'a>)
    requires
        layout(b, parent) == Ok::<BoxView<'a>, LayoutError>(done),
    ensures
        same_shape(done, b),
    decreases b,
{
    if b.box_type == BoxType::BlockNode {
        let start = block_start(b, parent)->Ok_0;
        let n = b.children.len() as int;
        let (out, height) = layout_children(b.children, start, n)->Ok_0;
        assert(layout_block(b, parent) == Ok::<BoxView<'a>, LayoutError>(done));
        assert(done.children == out);
        lemma_layout_children(b.children, start, n, out, height);
        assert forall|i: int| 0 <= i < done.children.len() implies same_shape(
            #[trigger] done.children[i],
            b.children[i],
        ) by {
            let child = b.children[i];
            lemma_layout_keeps_shape(child, with_height(start, stacked_height(out, i) as i64), out[i]);
        }
    } else if b.box_type == BoxType::TextNode {
        assert(layout_text(b, parent) == Ok::<BoxView<'a>, LayoutError>(done));
        assert(done.children == b.children);
        lemma_same_shape_reflexive(b);
    } else {
        lemma_same_shape_reflexive(b);
    }
}

/// Whether the box `b` is one of the boxes below `tree`.
pub open spec fn occurs_below<'a>(b: BoxView<'a>, tree: BoxView<'a>) -> bool {
    exists|i: int| 0 <= i < tree.children.len() && occurs_in(b, #[trigger] tree.children[i])
}

/// None of the boxes below the box of `root` stands for a hidden node.
proof fn lemma_boxes_below_are_shown<'a>(root: &'a StyledNode<'a>, b: BoxView<'a>)
    requires
        occurs_below(b, box_tree(root)),
    ensures
        !hidden(*b.styled_node),
{
    let tree = box_tree(root);
    assert(tree.children == child_boxes(root, root.children@.len() as int));
    let i = choose|i: int| 0 <= i < tree.children.len() && occurs_in(b, #[trigger] tree.children[i]);
    let m = lemma_child_boxes_source(root, root.children@.len() as int, i);
    let child = &root.children@[m];
    lemma_hidden_nodes_get_no_box(child, b);
    assert(box_tree(child).styled_node == child);
}

/// A box of one tree has its like, a box of the same kind and for the same
/// styled node, at the same place in every tree of the same shape.
proof fn lemma_like_box<'a>(a: BoxView<'a>, b: BoxView<'a>, x: BoxView<'a>) -> (y: BoxView<'a>)
    requires
        same_shape(a, b),
        occurs_in(x, a),
    ensures
        occurs_in(y, b),
        y.styled_node == x.styled_node,
        y.box_type == x.box_type,
        x != a ==> occurs_below(y, b),
    decreases a,
{
    if x == a {
        b
    } else {
        let i = choose|i: int| 0 <= i < a.children.len() && occurs_in(x, #[trigger] a.children[i]);
        let y = lemma_like_box(a.children[i], b.children[i], x);
        assert(occurs_in(y, b.children[i]));
        y
    }
}

/// A hidden node, and whatever lies below it, has no box in the layout.
///
/// Every box of the laid-out tree of `root` stands for a node that is
/// reached from `root` without passing through a hidden node, and none
/// but the box at the root stands for a hidden node.
pub proof fn lemma_layout_shows_no_hidden_node<'a>(
    root: &'a StyledNode<'a>,
    viewport: Dimensions,
    done: BoxView<'a>,
    b: BoxView<'a>,
)
    requires
        layout(box_tree(root), viewport) == Ok::<BoxView<'a>, LayoutError>(done),
        occurs_in(b, done),
    ensures
        shown_below(*b.styled_node, *root),
        b == done || !hidden(*b.styled_node),
{
    lemma_layout_keeps_shape(box_tree(root), viewport, done);
    let like = lemma_like_box(done, box_tree(root), b);
    lemma_hidden_nodes_get_no_box(root, like);
    if b != done {
        lemma_boxes_below_are_shown(root, like);
    }
}

/// The sum of the heights of the margin boxes of the first `k` of `boxes`.
pub open spec fn stacked_height(boxes: Seq<BoxView>, k: int) -> int
    decreases k,
{
    if k <= 0 || k > boxes.len() {
        0
    } else {
        stacked_height(boxes, k - 1) + margin_box_height(boxes[k - 1].dimensions)
    }
}

/// The declared distance from the top of the margin box to the top of the
/// content.
pub open spec fn top_offsets(s: StyledNode) -> int {
    prop_px(s.properties@, "margin-top"@) + prop_px(s.properties@, "border-top"@) + prop_px(
        s.properties@,
        "padding-top"@,
    )
}

/// The stacked height of some boxes does not depend on the boxes after
/// them.
proof fn lemma_stacked_height_prefix(boxes: Seq<BoxView>, more: Seq<BoxView>, k: int)
    requires
        0 <= k <= boxes.len() <= more.len(),
        forall|j: int| 0 <= j < boxes.len() ==> boxes[j] == more[j],
    ensures
        stacked_height(boxes, k) == stacked_height(more, k),
    decreases k,
{
    if k > 0 {
        lemma_stacked_height_prefix(boxes, more, k - 1);
    }
}

/// What laying out children one below the other comes to: each child is
/// laid out in the block as high as the children before it have made it,
/// and the block ends as high as all of them together.
pub proof fn lemma_layout_children<'a>(
    children: Seq<BoxView<'a>>,
    start: Dimensions,
    k: int,
    out: Seq<BoxView<'a>>,
    height: i64,
)
    requires
        0 <= k <= children.len(),
        layout_children(children, start, k) == Ok::<(Seq<BoxView<'a>>, i64), LayoutError>(
            (out, height),
        ),
    ensures
        out.len() == k,
        height == stacked_height(out, k),
        forall|j: int|
            0 <= j < k ==> layout(#[trigger] children[j], with_height(start, stacked_height(out, j) as i64))
                == Ok::<BoxView<'a>, LayoutError>(out[j]) && i64::MIN <= stacked_height(out, j)
                <= i64::MAX,
    decreases k,
{
    if k <= 0 {
        assert(out == Seq::<BoxView<'a>>::empty());
    } else {
        let (before, h) = layout_children(children, start, k - 1)->Ok_0;
        let child = layout(children[k - 1], with_height(start, h))->Ok_0;
        assert(out == before.push(child));
        lemma_layout_children(children, start, k - 1, before, h);
        lemma_stacked_height_prefix(before, out, k - 1);
        assert forall|j: int| 0 <= j < k implies layout(
            #[trigger] children[j],
            with_height(start, stacked_height(out, j) as i64),
        ) == Ok::<BoxView<'a>, LayoutError>(out[j]) && i64::MIN <= stacked_height(out, j)
            <= i64::MAX by {
            if j < k - 1 {
                lemma_stacked_height_prefix(before, out, j);
                assert(out[j] == before[j]);
            }
        }
    }
}

/// Children are stacked from top to bottom.
///
/// In a block that was laid out, the content of child `k`, if it is a block
/// or a text box, starts below the content top of the block by the heights
/// of the margin boxes of the children before it, and by its own declared
/// top margin, border and padding. A block child has these as its top
/// edges; a text box is placed by them and then keeps no vertical edges.
/// Inline and anonymous children are not placed at all.
pub proof fn lemma_children_stack<'a>(b: BoxView<'a>, parent: Dimensions, done: BoxView<'a>, k: int)
    requires
        layout_block(b, parent) == Ok::<BoxView<'a>, LayoutError>(done),
        0 <= k < b.children.len(),
        b.children[k].box_type == BoxType::BlockNode || b.children[k].box_type == BoxType::TextNode,
    ensures
        done.children.len() == b.children.len(),
        done.children[k].dimensions.content.y == done.dimensions.content.y + stacked_height(
            done.children,
            k,
        ) + top_offsets(*b.children[k].styled_node),
        b.children[k].box_type == BoxType::BlockNode ==> top_offsets(*b.children[k].styled_node)
            == done.children[k].dimensions.margin.top + done.children[k].dimensions.border.top
            + done.children[k].dimensions.padding.top,
{
    let start = block_start(b, parent)->Ok_0;
    let (out, height) = layout_children(b.children, start, b.children.len() as int)->Ok_0;
    assert(done.children == out);
    lemma_layout_children(b.children, start, b.children.len() as int, out, height);
    let seen = with_height(start, stacked_height(out, k) as i64);
    assert(layout(b.children[k], seen) == Ok::<BoxView<'a>, LayoutError>(out[k]));
    if b.children[k].box_type == BoxType::BlockNode {
        assert(layout(b.children[k], seen) == layout_block(b.children[k], seen));
    } else {
        assert(layout(b.children[k], seen) == layout_text(b.children[k], seen));
    }
}

/// A declared height replaces the height that the children add up to.
///
/// A block that was laid out is as high as its declared height says, be
/// its children what they may; without a declared height it is as high as
/// the margin boxes of its children together.
pub proof fn lemma_block_height<'a>(b: BoxView<'a>, parent: Dimensions, done: BoxView<'a>)
    requires
        layout_block(b, parent) == Ok::<BoxView<'a>, LayoutError>(done),
    ensures
        done.children.len() == b.children.len(),
        b.styled_node.properties@.dom().contains("height"@) ==> done.dimensions.content.height == px(
            b.styled_node.properties@["height"@],
        ),
        !b.styled_node.properties@.dom().contains("height"@) ==> done.dimensions.content.height
            == stacked_height(done.children, done.children.len() as int),
{
    let start = block_start(b, parent)->Ok_0;
    let (out, height) = layout_children(b.children, start, b.children.len() as int)->Ok_0;
    lemma_layout_children(b.children, start, b.children.len() as int, out, height);
}

/// Laying out the first `k` children of a block again, after they were laid
/// out in it, gives the same again, provided that it does so for each
/// child.
proof fn lemma_children_settled<'a>(
    children: Seq<BoxView<'a>>,
    done: Seq<BoxView<'a>>,
    start: Dimensions,
    k: int,
)
    requires
        0 <= k <= children.len(),
        done.len() == children.len(),
        forall|j: int|
            0 <= j < k ==> layout(#[trigger] done[j], with_height(start, stacked_height(done, j) as i64))
                == Ok::<BoxView<'a>, LayoutError>(done[j]) && i64::MIN <= stacked_height(done, j)
                <= i64::MAX,
        i64::MIN <= stacked_height(done, k) <= i64::MAX,
    ensures
        layout_children(done, start, k) == Ok::<(Seq<BoxView<'a>>, i64), LayoutError>(
            (done.take(k), stacked_height(done, k) as i64),
        ),
    decreases k,
{
    if k <= 0 {
        assert(done.take(k) =~= Seq::<BoxView<'a>>::empty());
    } else {
        lemma_children_settled(children, done, start, k - 1);
        assert(done.take(k) =~= done.take(k - 1).push(done[k - 1]));
    }
}

/// Laying out what is laid out already changes nothing.
///
/// Where a box was laid out in a container, laying out the result in the
/// same container gives that same result again.
pub proof fn lemma_layout_settles<'a>(b: BoxView<'a>, parent: Dimensions, done: BoxView<'a>)
    requires
        layout(b, parent) == Ok::<BoxView<'a>, LayoutError>(done),
    ensures
        layout(done, parent) == Ok::<BoxView<'a>, LayoutError>(done),
    decreases b,
{
    if b.box_type == BoxType::BlockNode {
        let start = block_start(b, parent)->Ok_0;
        let n = b.children.len() as int;
        let (out, height) = layout_children(b.children, start, n)->Ok_0;
        assert(layout_block(b, parent) == Ok::<BoxView<'a>, LayoutError>(done));
        assert(done.children == out);
        lemma_layout_children(b.children, start, n, out, height);
        assert(block_start(done, parent) == Ok::<Dimensions, LayoutError>(start));
        assert forall|j: int| 0 <= j < n implies layout(
            #[trigger] out[j],
            with_height(start, stacked_height(out, j) as i64),
        ) == Ok::<BoxView<'a>, LayoutError>(out[j]) && i64::MIN <= stacked_height(out, j)
            <= i64::MAX by {
            let child = b.children[j];
            lemma_layout_settles(child, with_height(start, stacked_height(out, j) as i64), out[j]);
        }
        lemma_children_settled(b.children, out, start, n);
        assert(out.take(n) =~= out);
        assert(layout_block(done, parent) == Ok::<BoxView<'a>, LayoutError>(done));
    } else if b.box_type == BoxType::TextNode {
        assert(layout_text(b, parent) == Ok::<BoxView<'a>, LayoutError>(done));
        assert(layout_text(done, parent) == Ok::<BoxView<'a>, LayoutError>(done));
    }
}

/// The layout is a function of the styled tree and the viewport: two
/// layouts of one styled tree in one viewport are the same, box for box
/// and number for number.
pub proof fn lemma_layout_is_determined<'a>(
    node: &'a StyledNode<'a>,
    viewport: Dimensions,
    first: LayoutBox<'a>,
    second: LayoutBox<'a>,
)
    requires
        layout(box_tree(node), viewport) == Ok::<BoxView<'a>, LayoutError>(first@),
        layout(box_tree(node), viewport) == Ok::<BoxView<'a>, LayoutError>(second@),
    ensures
        first@ == second@,
{
}

} // verus!
