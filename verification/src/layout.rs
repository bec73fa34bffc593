//! The box tree and the dimension solver.
//!
//! Widths and positions are resolved from the root down, heights from the
//! leaves up, in one recursive pass. All lengths, declared and computed,
//! are whole numbers of thousandths of a pixel.

use vstd::prelude::*;
use crate::css::{is_auto, px, Value, UNITS_PER_PIXEL};
use crate::dom::NodeType;
use crate::style::{display_of, Display, StyledNode};

verus! {

/// Why a layout pass stopped.
#[derive(Clone, Copy, Debug, PartialEq, Eq, Structural)]
pub enum LayoutError {
    /// A box was asked for a node whose display is `none`.
    DisplayNone,
    /// The height of a text box was asked for a node that is not text.
    NotText,
    /// A computed length is not one that `i64` can hold.
    /// This includes the unbounded line count of text in a container of
    /// width zero.
    Overflow,
}

/// A rectangle, in thousandths of a pixel.
#[derive(Clone, Copy, Debug, PartialEq, Eq, Structural)]
pub struct Rect {
    pub x: i64,
    pub y: i64,
    pub width: i64,
    pub height: i64,
}

/// The sizes of a band around a rectangle, in thousandths of a pixel.
#[derive(Clone, Copy, Debug, PartialEq, Eq, Structural)]
pub struct EdgeSizes {
    pub top: i64,
    pub bottom: i64,
    pub left: i64,
    pub right: i64,
}

/// The content rectangle of a box and the three bands around it.
#[derive(Clone, Copy, Debug, PartialEq, Eq, Structural)]
pub struct Dimensions {
    pub content: Rect,
    pub padding: EdgeSizes,
    pub border: EdgeSizes,
    pub margin: EdgeSizes,
}

#[derive(Clone, Copy, Debug, PartialEq, Eq, Structural)]
pub enum BoxType {
    BlockNode,
    InlineNode,
    TextNode,
    AnonymousBlock,
}

/// A box of the layout tree. It refers to the styled node it was made for.
#[derive(Debug)]
pub struct LayoutBox<'a> {
    pub dimensions: Dimensions,
    pub box_type: BoxType,
    pub styled_node: &'a StyledNode<'a>,
    pub children: Vec<LayoutBox<'a>>,
}

/// A layout box as a value: its fields, with the children as a sequence.
pub struct BoxView<'a> {
    pub dimensions: Dimensions,
    pub box_type: BoxType,
    pub styled_node: &'a StyledNode<'a>,
    pub children: Seq<BoxView<'a>>,
}

impl<'a> View for LayoutBox<'a> {
    type V = BoxView<'a>;

    open spec fn view(&self) -> BoxView<'a>
        decreases self, 0int,
    {
        BoxView {
            dimensions: self.dimensions,
            box_type: self.box_type,
            styled_node: self.styled_node,
            children: box_views(self.children@, self.children@.len() as int),
        }
    }
}

/// The views of the first `k` of `boxes`, in their order.
pub open spec fn box_views<'a>(boxes: Seq<LayoutBox<'a>>, k: int) -> Seq<BoxView<'a>>
    decreases boxes, k,
{
    if k <= 0 || k > boxes.len() {
        Seq::empty()
    } else {
        box_views(boxes, k - 1).push(boxes[k - 1]@)
    }
}

/// [`box_views`] holds one view for each box, at the place of the box.
pub(crate) proof fn lemma_box_views<'a>(boxes: Seq<LayoutBox<'a>>, k: int)
    requires
        0 <= k <= boxes.len(),
    ensures
        box_views(boxes, k).len() == k,
        forall|j: int|
            #![trigger box_views(boxes, k)[j]]
            #![trigger boxes[j]]
            0 <= j < k ==> box_views(boxes, k)[j] == boxes[j]@,
    decreases k,
{
    if k > 0 {
        lemma_box_views(boxes, k - 1);
        assert(box_views(boxes, k) == box_views(boxes, k - 1).push(boxes[k - 1]@));
    } else {
        assert(box_views(boxes, k) == Seq::<BoxView>::empty());
    }
}

/// Whether `v` is a length that `i64` can hold.
pub open spec fn fits(v: int) -> bool {
    i64::MIN <= v <= i64::MAX
}

/// The length declared for `name`, zero where nothing is declared.
pub open spec fn prop_px(props: Map<Seq<char>, Value>, name: Seq<char>) -> int {
    if props.dom().contains(name) {
        px(props[name])
    } else {
        0
    }
}

/// Whether `name` is declared as the keyword `auto`.
pub open spec fn prop_auto(props: Map<Seq<char>, Value>, name: Seq<char>) -> bool {
    props.dom().contains(name) && is_auto(props[name])
}

/// Whether the width is `auto`, which it also is where none is declared.
pub open spec fn width_auto(props: Map<Seq<char>, Value>) -> bool {
    !props.dom().contains("width"@) || is_auto(props["width"@])
}

/// The horizontal sizes of a box.
pub struct HorizontalSizes {
    pub width: int,
    pub margin_left: int,
    pub margin_right: int,
    pub border_left: int,
    pub border_right: int,
    pub padding_left: int,
    pub padding_right: int,
}

/// What is left of the container's width once the declared horizontal sizes
/// are taken from it. It is negative where the box overflows its container.
pub open spec fn underflow(props: Map<Seq<char>, Value>, parent_width: int) -> int {
    parent_width - (prop_px(props, "margin-left"@) + prop_px(props, "margin-right"@) + prop_px(
        props,
        "border-left"@,
    ) + prop_px(props, "border-right"@) + prop_px(props, "padding-left"@) + prop_px(
        props,
        "padding-right"@,
    ) + prop_px(props, "width"@))
}

/// The horizontal sizes of a block in a container of width `parent_width`.
///
/// With a fixed width that overflows the container, an `auto` margin counts
/// as zero. After that:
/// - no `auto` at all: the right margin takes up the underflow;
/// - one `auto` margin: it becomes the underflow;
/// - both margins `auto`: they share the underflow, the left margin taking
///   half of it rounded down and the right margin the rest;
/// - width `auto`: `auto` margins are zero and the width becomes the
///   underflow, or zero with the deficit added to the right margin.
pub open spec fn resolve_width(props: Map<Seq<char>, Value>, parent_width: int) -> HorizontalSizes {
    let u = underflow(props, parent_width);
    let left = prop_px(props, "margin-left"@);
    let right = prop_px(props, "margin-right"@);
    let left_auto = prop_auto(props, "margin-left"@) && u >= 0;
    let right_auto = prop_auto(props, "margin-right"@) && u >= 0;
    let (width, margin_left, margin_right) = if width_auto(props) {
        if u >= 0 {
            (u, left, right)
        } else {
            (0, left, right + u)
        }
    } else if left_auto && right_auto {
        (prop_px(props, "width"@), u / 2, u - u / 2)
    } else if left_auto {
        (prop_px(props, "width"@), u, right)
    } else if right_auto {
        (prop_px(props, "width"@), left, u)
    } else {
        (prop_px(props, "width"@), left, right + u)
    };
    HorizontalSizes {
        width,
        margin_left,
        margin_right,
        border_left: prop_px(props, "border-left"@),
        border_right: prop_px(props, "border-right"@),
        padding_left: prop_px(props, "padding-left"@),
        padding_right: prop_px(props, "padding-right"@),
    }
}

/// The width of the margin box that the sizes in `h` make up.
pub open spec fn margin_box_width(h: HorizontalSizes) -> int {
    h.margin_left + h.border_left + h.padding_left + h.width + h.padding_right + h.border_right
        + h.margin_right
}

/// The horizontal sizes that `d` holds.
pub open spec fn horizontal_of(d: Dimensions) -> HorizontalSizes {
    HorizontalSizes {
        width: d.content.width as int,
        margin_left: d.margin.left as int,
        margin_right: d.margin.right as int,
        border_left: d.border.left as int,
        border_right: d.border.right as int,
        padding_left: d.padding.left as int,
        padding_right: d.padding.right as int,
    }
}

/// The margin box of a block fills its container.
///
/// Whatever is declared and however wide the container is, the resolved
/// width, padding, borders and margins add up to the width of the
/// container.
pub proof fn lemma_margin_box_fills_container(props: Map<Seq<char>, Value>, parent_width: int)
    ensures
        margin_box_width(resolve_width(props, parent_width)) == parent_width,
{
}

/// Whether all the sizes in `h` are lengths that `i64` can hold.
pub open spec fn horizontal_fits(h: HorizontalSizes) -> bool {
    &&& fits(h.width)
    &&& fits(h.margin_left)
    &&& fits(h.margin_right)
    &&& fits(h.border_left)
    &&& fits(h.border_right)
    &&& fits(h.padding_left)
    &&& fits(h.padding_right)
}

/// `d` with its horizontal sizes replaced by those in `h`.
pub open spec fn with_horizontal(d: Dimensions, h: HorizontalSizes) -> Dimensions {
    Dimensions {
        content: Rect { width: h.width as i64, ..d.content },
        padding: EdgeSizes { left: h.padding_left as i64, right: h.padding_right as i64, ..d.padding },
        border: EdgeSizes { left: h.border_left as i64, right: h.border_right as i64, ..d.border },
        margin: EdgeSizes { left: h.margin_left as i64, right: h.margin_right as i64, ..d.margin },
    }
}

/// Narrows a wide intermediate result to a length.
fn narrow(v: i128) -> (r: Result<i64, LayoutError>)
    ensures
        fits(v as int) ==> r == Ok::<i64, LayoutError>(v as i64),
        !fits(v as int) ==> r == Err::<i64, LayoutError>(LayoutError::Overflow),
{
    if v < i64::MIN as i128 || v > i64::MAX as i128 {
        Err(LayoutError::Overflow)
    } else {
        Ok(v as i64)
    }
}

/// The sizes and the place that the position step gives a box.
pub struct Placement {
    pub x: int,
    pub y: int,
    pub margin_top: int,
    pub margin_bottom: int,
    pub border_top: int,
    pub border_bottom: int,
    pub padding_top: int,
    pub padding_bottom: int,
}

/// Where a box with the horizontal sizes of `d` goes in its container.
///
/// The box is placed below what the container holds so far: the
/// container's content height is read as it stands when the box is placed.
pub open spec fn resolve_position(
    props: Map<Seq<char>, Value>,
    parent: Dimensions,
    d: Dimensions,
) -> Placement {
    Placement {
        x: parent.content.x + d.margin.left + d.border.left + d.padding.left,
        y: parent.content.height + parent.content.y + prop_px(props, "margin-top"@) + prop_px(
            props,
            "border-top"@,
        ) + prop_px(props, "padding-top"@),
        margin_top: prop_px(props, "margin-top"@),
        margin_bottom: prop_px(props, "margin-bottom"@),
        border_top: prop_px(props, "border-top"@),
        border_bottom: prop_px(props, "border-bottom"@),
        padding_top: prop_px(props, "padding-top"@),
        padding_bottom: prop_px(props, "padding-bottom"@),
    }
}

/// Whether the place in `p` is one that `i64` can hold.
pub open spec fn placement_fits(p: Placement) -> bool {
    fits(p.x) && fits(p.y)
}

/// `d` with its vertical edges and the corner of its content replaced by
/// those in `p`.
pub open spec fn with_placement(d: Dimensions, p: Placement) -> Dimensions {
    Dimensions {
        content: Rect { x: p.x as i64, y: p.y as i64, ..d.content },
        padding: EdgeSizes { top: p.padding_top as i64, bottom: p.padding_bottom as i64, ..d.padding },
        border: EdgeSizes { top: p.border_top as i64, bottom: p.border_bottom as i64, ..d.border },
        margin: EdgeSizes { top: p.margin_top as i64, bottom: p.margin_bottom as i64, ..d.margin },
    }
}

/// `d` with the content height replaced.
pub open spec fn with_height(d: Dimensions, height: i64) -> Dimensions {
    Dimensions { content: Rect { height, ..d.content }, ..d }
}

/// `d` with the declared height, if one is declared. A declared height
/// replaces the content height whatever it was.
pub open spec fn with_declared_height(props: Map<Seq<char>, Value>, d: Dimensions) -> Dimensions {
    if props.dom().contains("height"@) {
        with_height(d, px(props["height"@]) as i64)
    } else {
        d
    }
}

/// The height of the margin box of `d`.
pub open spec fn margin_box_height(d: Dimensions) -> int {
    d.content.height + d.padding.top + d.padding.bottom + d.border.top + d.border.bottom
        + d.margin.top + d.margin.bottom
}

/// `d` as wide as the content of its container, with no horizontal edges.
pub open spec fn with_text_width(d: Dimensions, parent: Dimensions) -> Dimensions {
    Dimensions {
        content: Rect { width: parent.content.width, ..d.content },
        padding: EdgeSizes { left: 0, right: 0, ..d.padding },
        border: EdgeSizes { left: 0, right: 0, ..d.border },
        margin: EdgeSizes { left: 0, right: 0, ..d.margin },
    }
}

/// The text of the document node that `s` was made for, if that node is
/// a text node.
pub open spec fn node_text(s: StyledNode) -> Option<Seq<char>> {
    match s.html_node.node_type {
        NodeType::Text(t) => Some(t@),
        NodeType::Element(_) => None,
    }
}

/// The declared font size, twelve pixels where none is declared.
pub open spec fn font_size(props: Map<Seq<char>, Value>) -> int {
    if props.dom().contains("font-size"@) {
        px(props["font-size"@])
    } else {
        12 * UNITS_PER_PIXEL
    }
}

/// The least whole number that is not below the quotient of `a` by `b`.
pub open spec fn ceil_div(a: int, b: int) -> int
    recommends
        b != 0,
{
    if b > 0 {
        -((-a) / b)
    } else {
        -(a / (-b))
    }
}

/// The estimated number of lines that a text of `len` characters fills in a
/// container of the given width, taking a character to be half as wide as
/// the font is high: the quotient of `len * (font / 2)` by `width`, rounded
/// up. An empty extent fills no line; any other extent in a container of
/// width zero fills no finite number of lines.
///
/// This only reserves room. Painting wraps the text on its own account and
/// may break the lines elsewhere.
pub open spec fn line_count(len: int, font: int, width: int) -> Option<int> {
    if len * font == 0 {
        Some(0)
    } else if width == 0 {
        None
    } else {
        Some(ceil_div(len * font, 2 * width))
    }
}

/// The estimated height of a text: one line more than [`line_count`],
/// each as high as the font.
pub open spec fn text_height(len: int, font: int, width: int) -> Option<int> {
    match line_count(len, font, width) {
        Some(n) => Some((n + 1) * font),
        None => None,
    }
}

/// The height that a text box for `s` gets in the container `parent`, or
/// why it gets none.
pub open spec fn text_box_height(s: StyledNode, parent: Dimensions) -> Result<i64, LayoutError> {
    match node_text(s) {
        None => Err(LayoutError::NotText),
        Some(t) => match text_height(
            t.len() as int,
            font_size(s.properties@),
            parent.content.width as int,
        ) {
            Some(h) => if fits(h) {
                Ok(h as i64)
            } else {
                Err(LayoutError::Overflow)
            },
            None => Err(LayoutError::Overflow),
        },
    }
}

/// `d` with the given content height and no vertical edges.
pub open spec fn with_text_height(d: Dimensions, height: i64) -> Dimensions {
    Dimensions {
        content: Rect { height, ..d.content },
        padding: EdgeSizes { top: 0, bottom: 0, ..d.padding },
        border: EdgeSizes { top: 0, bottom: 0, ..d.border },
        margin: EdgeSizes { top: 0, bottom: 0, ..d.margin },
    }
}

/// Rounding up a quotient, from the quotient and remainder of the
/// magnitudes.
proof fn lemma_ceil_div_by_magnitudes(a: int, b: int, am: int, bm: int)
    requires
        a != 0,
        b != 0,
        am == (if a < 0 { -a } else { a }),
        bm == (if b < 0 { -b } else { b }),
    ensures
        ceil_div(a, b) == (if (a > 0) == (b > 0) {
            if am % bm != 0 {
                am / bm + 1
            } else {
                am / bm
            }
        } else {
            -(am / bm)
        }),
{
    let q = am / bm;
    let r = am % bm;
    vstd::arithmetic::div_mod::lemma_fundamental_div_mod(am, bm);
    vstd::arithmetic::div_mod::lemma_mod_pos_bound(am, bm);
    assert(am == bm * q + r);
    if (a > 0) == (b > 0) {
        // The quotient of the negated magnitude is wanted.
        if r == 0 {
            assert(-am == (-q) * bm + 0) by (nonlinear_arith)
                requires
                    am == bm * q + r,
                    r == 0,
            ;
            vstd::arithmetic::div_mod::lemma_fundamental_div_mod_converse(-am, bm, -q, 0);
        } else {
            assert(-am == (-q - 1) * bm + (bm - r)) by (nonlinear_arith)
                requires
                    am == bm * q + r,
            ;
            vstd::arithmetic::div_mod::lemma_fundamental_div_mod_converse(-am, bm, -q - 1, bm - r);
        }
    }
}

/// A product with a factor beyond the range of `i64` is beyond it too,
/// unless the other factor is zero.
proof fn lemma_product_out_of_range(n: int, f: int)
    requires
        n > 0x8000_0000_0000_0000 || n < -0x8000_0000_0000_0000,
        f != 0,
    ensures
        !fits(n * f),
{
    assert(n * f > 0x8000_0000_0000_0000 || n * f < -0x8000_0000_0000_0000) by (nonlinear_arith)
        requires
            n > 0x8000_0000_0000_0000 || n < -0x8000_0000_0000_0000,
            f != 0,
    ;
}

/// The magnitude of a length.
fn magnitude(v: i64) -> (m: u128)
    ensures
        m == (if v < 0 { -(v as int) } else { v as int }),
        m <= 0x8000_0000_0000_0000,
{
    if v < 0 {
        (-(v as i128)) as u128
    } else {
        v as u128
    }
}

/// The estimated height of a text of `len` characters in a font of size
/// `font`, in a container of width `width`.
pub fn estimate_text_height(len: usize, font: i64, width: i64) -> (r: Result<i64, LayoutError>)
    ensures
        r == (match text_height(len as int, font as int, width as int) {
            Some(h) => if fits(h) {
                Ok::<i64, LayoutError>(h as i64)
            } else {
                Err::<i64, LayoutError>(LayoutError::Overflow)
            },
            None => Err::<i64, LayoutError>(LayoutError::Overflow),
        }),
{
    if len == 0 || font == 0 {
        assert(len * font == 0) by (nonlinear_arith)
            requires
                len == 0 || font == 0,
        ;
        assert((0 + 1) * font == font) by (nonlinear_arith);
        return Ok(font);
    }
    assert(len * font != 0) by (nonlinear_arith)
        requires
            len != 0,
            font != 0,
    ;
    if width == 0 {
        return Err(LayoutError::Overflow);
    }
    let font_mag: u128 = magnitude(font);
    let width_mag: u128 = magnitude(width);
    assert(0 < len * font_mag <= 0xffff_ffff_ffff_ffff * 0x8000_0000_0000_0000) by (nonlinear_arith)
        requires
            0 < len <= 0xffff_ffff_ffff_ffff,
            0 < font_mag <= 0x8000_0000_0000_0000,
    ;
    let a: u128 = (len as u128) * font_mag;
    let b: u128 = 2 * width_mag;
    let q: u128 = a / b;
    let rem: u128 = a % b;
    let same_sign = (font > 0) == (width > 0);
    let ghost lines_spec = ceil_div(len * font, 2 * width);
    proof {
        assert(a == (if len * font < 0 { -(len * font) } else { len * font }) && ((len * font > 0)
            == (font > 0))) by (nonlinear_arith)
            requires
                len > 0,
                font != 0,
                a == len * font_mag,
                font_mag == (if font < 0 { -(font as int) } else { font as int }),
        ;
        lemma_ceil_div_by_magnitudes(len * font, 2 * width, a as int, b as int);
        vstd::arithmetic::div_mod::lemma_div_pos_is_pos(a as int, b as int);
        assert(q <= a) by {
            vstd::arithmetic::div_mod::lemma_fundamental_div_mod(a as int, b as int);
            vstd::arithmetic::div_mod::lemma_mod_pos_bound(a as int, b as int);
            assert(b * q >= q) by (nonlinear_arith)
                requires
                    b >= 1,
                    q >= 0,
            ;
        }
    }
    if q > 0x1_0000_0000_0000_0000 {
        proof {
            lemma_product_out_of_range(lines_spec + 1, font as int);
        }
        return Err(LayoutError::Overflow);
    }
    let lines: i128 = if same_sign {
        if rem != 0 {
            q as i128 + 1
        } else {
            q as i128
        }
    } else {
        -(q as i128)
    };
    assert(lines == lines_spec);
    let n: i128 = lines + 1;
    if n > 0x8000_0000_0000_0000 || n < -0x8000_0000_0000_0000 {
        proof {
            lemma_product_out_of_range(n as int, font as int);
        }
        return Err(LayoutError::Overflow);
    }
    assert(-0x4000_0000_0000_0000_0000_0000_0000_0000 <= n * font
        <= 0x4000_0000_0000_0000_0000_0000_0000_0000) by (nonlinear_arith)
        requires
            -0x8000_0000_0000_0000 <= n <= 0x8000_0000_0000_0000,
            -0x8000_0000_0000_0000 <= font <= 0x8000_0000_0000_0000,
    ;
    let h: i128 = n * (font as i128);
    narrow(h)
}

/// The text box `b` laid out in the container `parent`: as wide as the
/// container, placed like a block, and as high as its text is estimated
/// to be.
pub open spec fn layout_text<'a>(b: BoxView<'a>, parent: Dimensions) -> Result<BoxView<'a>, LayoutError> {
    let d1 = with_text_width(b.dimensions, parent);
    let p = resolve_position(b.styled_node.properties@, parent, d1);
    if !placement_fits(p) {
        Err(LayoutError::Overflow)
    } else {
        match text_box_height(*b.styled_node, parent) {
            Err(e) => Err(e),
            Ok(h) => Ok(BoxView { dimensions: with_text_height(with_placement(d1, p), h), ..b }),
        }
    }
}

/// The dimensions of the block `b` in the container `parent` before any of
/// its children is laid out: width and place resolved, content height zero.
pub open spec fn block_start(b: BoxView, parent: Dimensions) -> Result<Dimensions, LayoutError> {
    let props = b.styled_node.properties@;
    let h = resolve_width(props, parent.content.width as int);
    if !horizontal_fits(h) {
        Err(LayoutError::Overflow)
    } else {
        let d1 = with_horizontal(b.dimensions, h);
        let p = resolve_position(props, parent, d1);
        if !placement_fits(p) {
            Err(LayoutError::Overflow)
        } else {
            Ok(with_height(with_placement(d1, p), 0))
        }
    }
}

/// The box `b` laid out in the container `parent`, or the first failure on
/// the way: a block by [`layout_block`], a text box by [`layout_text`].
/// Inline and anonymous boxes are left as they are.
pub open spec fn layout<'a>(b: BoxView<'a>, parent: Dimensions) -> Result<BoxView<'a>, LayoutError>
    decreases b, 1int,
{
    match b.box_type {
        BoxType::BlockNode => layout_block(b, parent),
        BoxType::TextNode => layout_text(b, parent),
        BoxType::InlineNode | BoxType::AnonymousBlock => Ok(b),
    }
}

/// The block `b` laid out in the container `parent`.
///
/// A block resolves its width and its place, then lays out its children in
/// order, each in the block's own dimensions as they stand at that moment,
/// and grows by the margin box of each; a declared height then replaces
/// what has accumulated.
pub open spec fn layout_block<'a>(b: BoxView<'a>, parent: Dimensions) -> Result<BoxView<'a>, LayoutError>
    decreases b, 0int,
{
    match block_start(b, parent) {
        Err(e) => Err(e),
        Ok(start) => match layout_children(b.children, start, b.children.len() as int) {
            Err(e) => Err(e),
            Ok((children, height)) => Ok(
                BoxView {
                    dimensions: with_declared_height(
                        b.styled_node.properties@,
                        with_height(start, height),
                    ),
                    children,
                    ..b
                },
            ),
        },
    }
}

/// The first `k` of `children` laid out one below the other in a block
/// whose dimensions are `start`, with the content height that the block
/// has reached after them.
pub open spec fn layout_children<'a>(children: Seq<BoxView<'a>>, start: Dimensions, k: int) -> Result<
    (Seq<BoxView<'a>>, i64),
    LayoutError,
>
    decreases children, k,
{
    if k <= 0 || k > children.len() {
        Ok((Seq::empty(), 0i64))
    } else {
        match layout_children(children, start, k - 1) {
            Err(e) => Err(e),
            Ok((before, height)) => match layout(children[k - 1], with_height(start, height)) {
                Err(e) => Err(e),
                Ok(child) => if fits(height + margin_box_height(child.dimensions)) {
                    Ok((before.push(child), (height + margin_box_height(child.dimensions)) as i64))
                } else {
                    Err(LayoutError::Overflow)
                },
            },
        }
    }
}

/// A rectangle at the origin with no extent.
pub open spec fn zero_rect() -> Rect {
    Rect { x: 0, y: 0, width: 0, height: 0 }
}

pub open spec fn zero_edges() -> EdgeSizes {
    EdgeSizes { top: 0, bottom: 0, left: 0, right: 0 }
}

/// The dimensions of a box that has not been laid out.
pub open spec fn zero_dimensions() -> Dimensions {
    Dimensions {
        content: zero_rect(),
        padding: zero_edges(),
        border: zero_edges(),
        margin: zero_edges(),
    }
}

/// The dimensions of a viewport of the given width, in thousandths of a
/// pixel: at the origin, with no height and no edges.
pub open spec fn viewport_dimensions(width: i64) -> Dimensions {
    Dimensions { content: Rect { width, ..zero_rect() }, ..zero_dimensions() }
}

/// Whether `s` is left out of the layout.
pub open spec fn hidden(s: StyledNode) -> bool {
    display_of(s.properties@) == Display::Hidden
}

/// The kind of box made for `s`: a text box for a text node whatever its
/// display, else a block or an inline box as its display says.
pub open spec fn box_kind(s: StyledNode) -> BoxType {
    if node_text(s) is Some {
        BoxType::TextNode
    } else if display_of(s.properties@) == Display::Block {
        BoxType::BlockNode
    } else {
        BoxType::InlineNode
    }
}

/// The box tree of the styled tree below `s`, not laid out: a box for `s`
/// with, below it, the box trees of those children of `s` that are not
/// hidden, in their order. Nothing below a hidden node gets a box.
pub open spec fn box_tree<'a>(s: &'a StyledNode<'a>) -> BoxView<'a>
    decreases s, 0int,
{
    BoxView {
        dimensions: zero_dimensions(),
        box_type: box_kind(*s),
        styled_node: s,
        children: child_boxes(s, s.children@.len() as int),
    }
}

/// The box trees of those among the first `k` children of `s` that are
/// not hidden, in their order.
pub open spec fn child_boxes<'a>(s: &'a StyledNode<'a>, k: int) -> Seq<BoxView<'a>>
    decreases s.children@, k,
{
    if k <= 0 || k > s.children@.len() {
        Seq::empty()
    } else if hidden(s.children@[k - 1]) {
        child_boxes(s, k - 1)
    } else {
        child_boxes(s, k - 1).push(box_tree(&s.children@[k - 1]))
    }
}

impl Default for Rect {
    fn default() -> (r: Rect)
        ensures
            r == zero_rect(),
    {
        Rect { x: 0, y: 0, width: 0, height: 0 }
    }
}

impl Default for EdgeSizes {
    fn default() -> (e: EdgeSizes)
        ensures
            e == zero_edges(),
    {
        EdgeSizes { top: 0, bottom: 0, left: 0, right: 0 }
    }
}

impl Default for Dimensions {
    fn default() -> (d: Dimensions)
        ensures
            d == zero_dimensions(),
    {
        Dimensions {
            content: Rect::default(),
            padding: EdgeSizes::default(),
            border: EdgeSizes::default(),
            margin: EdgeSizes::default(),
        }
    }
}

/// A rectangle whose corner and sides are whole numbers of any size.
pub struct Extent {
    pub x: int,
    pub y: int,
    pub width: int,
    pub height: int,
}

/// The rectangle `r` as an extent.
pub open spec fn extent_of(r: Rect) -> Extent {
    Extent { x: r.x as int, y: r.y as int, width: r.width as int, height: r.height as int }
}

/// `e` moved outward on each side by what `edges` holds for that side.
pub open spec fn grow(e: Extent, edges: EdgeSizes) -> Extent {
    Extent {
        x: e.x - edges.left,
        y: e.y - edges.top,
        width: e.width + edges.left + edges.right,
        height: e.height + edges.top + edges.bottom,
    }
}

/// Whether `e` is a rectangle that `Rect` can hold.
pub open spec fn extent_fits(e: Extent) -> bool {
    fits(e.x) && fits(e.y) && fits(e.width) && fits(e.height)
}

/// The content of `d` with its padding around it.
pub open spec fn padding_extent(d: Dimensions) -> Extent {
    grow(extent_of(d.content), d.padding)
}

/// The content of `d` with its padding and border around it.
pub open spec fn border_extent(d: Dimensions) -> Extent {
    grow(padding_extent(d), d.border)
}

/// The content of `d` with its padding, border and margin around it.
pub open spec fn margin_extent(d: Dimensions) -> Extent {
    grow(border_extent(d), d.margin)
}

/// The corner and the sides of a rectangle while it is being grown.
struct Wide {
    x: i128,
    y: i128,
    width: i128,
    height: i128,
}

impl Wide {
    spec fn extent(self) -> Extent {
        Extent {
            x: self.x as int,
            y: self.y as int,
            width: self.width as int,
            height: self.height as int,
        }
    }

    /// Whether the rectangle is still far from the limits of `i128`.
    spec fn within(self, bound: int) -> bool {
        &&& -bound <= self.x <= bound
        &&& -bound <= self.y <= bound
        &&& -bound <= self.width <= bound
        &&& -bound <= self.height <= bound
    }

    fn of(r: &Rect) -> (w: Wide)
        ensures
            w.extent() == extent_of(*r),
            w.within(0x8000_0000_0000_0000),
    {
        Wide { x: r.x as i128, y: r.y as i128, width: r.width as i128, height: r.height as i128 }
    }

    fn grown(&self, edges: &EdgeSizes, Ghost(bound): Ghost<int>) -> (w: Wide)
        requires
            self.within(bound),
            0 <= bound <= 0x1_0000_0000_0000_0000_0000,
        ensures
            w.extent() == grow(self.extent(), *edges),
            w.within(bound + 0x1_0000_0000_0000_0000),
    {
        Wide {
            x: self.x - edges.left as i128,
            y: self.y - edges.top as i128,
            width: self.width + edges.left as i128 + edges.right as i128,
            height: self.height + edges.top as i128 + edges.bottom as i128,
        }
    }

    fn narrowed(&self) -> (r: Option<Rect>)
        ensures
            extent_fits(self.extent()) ==> (r matches Some(rect) && extent_of(rect) == self.extent()),
            !extent_fits(self.extent()) ==> r is None,
    {
        match (narrow(self.x), narrow(self.y), narrow(self.width), narrow(self.height)) {
            (Ok(x), Ok(y), Ok(width), Ok(height)) => Some(Rect { x, y, width, height }),
            _ => None,
        }
    }
}

impl Rect {
    /// The rectangle moved outward on each side by what `edges` holds for
    /// that side, if it is one that `Rect` can hold.
    pub fn expanded_by(&self, edges: &EdgeSizes) -> (r: Option<Rect>)
        ensures
            extent_fits(grow(extent_of(*self), *edges)) ==> (r matches Some(rect) && extent_of(rect)
                == grow(extent_of(*self), *edges)),
            !extent_fits(grow(extent_of(*self), *edges)) ==> r is None,
    {
        Wide::of(self).grown(edges, Ghost(0x8000_0000_0000_0000)).narrowed()
    }
}

impl Dimensions {
    /// The content with the padding around it, if it is a rectangle that
    /// `Rect` can hold.
    pub fn padding_box(&self) -> (r: Option<Rect>)
        ensures
            extent_fits(padding_extent(*self)) ==> (r matches Some(rect) && extent_of(rect)
                == padding_extent(*self)),
            !extent_fits(padding_extent(*self)) ==> r is None,
    {
        self.content.expanded_by(&self.padding)
    }

    /// The content with the padding and the border around it, if it is a
    /// rectangle that `Rect` can hold.
    pub fn border_box(&self) -> (r: Option<Rect>)
        ensures
            extent_fits(border_extent(*self)) ==> (r matches Some(rect) && extent_of(rect)
                == border_extent(*self)),
            !extent_fits(border_extent(*self)) ==> r is None,
    {
        Wide::of(&self.content).grown(&self.padding, Ghost(0x8000_0000_0000_0000)).grown(
            &self.border,
            Ghost(0x2_0000_0000_0000_0000),
        ).narrowed()
    }

    /// The content with the padding, the border and the margin around it,
    /// if it is a rectangle that `Rect` can hold.
    pub fn margin_box(&self) -> (r: Option<Rect>)
        ensures
            extent_fits(margin_extent(*self)) ==> (r matches Some(rect) && extent_of(rect)
                == margin_extent(*self)),
            !extent_fits(margin_extent(*self)) ==> r is None,
    {
        Wide::of(&self.content).grown(&self.padding, Ghost(0x8000_0000_0000_0000)).grown(
            &self.border,
            Ghost(0x2_0000_0000_0000_0000),
        ).grown(&self.margin, Ghost(0x3_0000_0000_0000_0000)).narrowed()
    }

    /// The dimensions of a viewport of the given width, in thousandths of
    /// a pixel.
    pub fn viewport(width: i64) -> (d: Dimensions)
        ensures
            d == viewport_dimensions(width),
    {
        Dimensions {
            content: Rect { x: 0, y: 0, width, height: 0 },
            padding: EdgeSizes::default(),
            border: EdgeSizes::default(),
            margin: EdgeSizes::default(),
        }
    }
}

impl<'a> LayoutBox<'a> {
    /// A box for `styled_node` that has no children and is not laid out.
    /// There is none for a hidden node.
    pub fn new(styled_node: &'a StyledNode<'a>) -> (r: Result<LayoutBox<'a>, LayoutError>)
        ensures
            hidden(*styled_node) ==> r == Err::<LayoutBox<'a>, LayoutError>(LayoutError::DisplayNone),
            !hidden(*styled_node) ==> (r matches Ok(b) && b.dimensions == zero_dimensions()
                && b.box_type == box_kind(*styled_node) && b.styled_node == styled_node
                && b.children@.len() == 0),
    {
        let is_text = match &styled_node.html_node.node_type {
            NodeType::Text(_) => true,
            NodeType::Element(_) => false,
        };
        let box_type = match styled_node.get_display() {
            Display::Hidden => {
                return Err(LayoutError::DisplayNone);
            },
            Display::Block => if is_text {
                BoxType::TextNode
            } else {
                BoxType::BlockNode
            },
            Display::Inline => if is_text {
                BoxType::TextNode
            } else {
                BoxType::InlineNode
            },
        };
        Ok(
            LayoutBox {
                dimensions: Dimensions::default(),
                box_type: box_type,
                styled_node: styled_node,
                children: Vec::new(),
            },
        )
    }

    /// The text of the box, if it is the box of a text node.
    pub fn get_text(&self) -> (r: Option<&String>)
        ensures
            match self.styled_node.html_node.node_type {
                NodeType::Text(t) => r == Some(&t),
                NodeType::Element(_) => r is None,
            },
    {
        match &self.styled_node.html_node.node_type {
            NodeType::Text(to_write) => Some(to_write),
            _ => None,
        }
    }

    /// The length declared for `name`, zero where nothing is declared.
    fn declared_px(&self, name: &str) -> (r: i64)
        ensures
            r == prop_px(self.styled_node.properties@, name@),
    {
        match self.styled_node.get_property(name) {
            Some(v) => v.to_px(),
            None => 0,
        }
    }

    /// Whether `name` is declared as the keyword `auto`.
    fn declared_auto(&self, name: &str) -> (r: bool)
        ensures
            r == prop_auto(self.styled_node.properties@, name@),
    {
        match self.styled_node.get_property(name) {
            Some(v) => v.is_auto(),
            None => false,
        }
    }

    /// Resolves the width and the horizontal margins, borders and padding
    /// of a block against the width of its container.
    ///
    /// Fails, leaving the box as it was, exactly when one of the resolved
    /// sizes is not a length that `i64` can hold. Otherwise the margin box
    /// is exactly as wide as the content of the container.
    #[verifier::rlimit(40)]
    pub fn compute_block_width(&mut self, dim_parent: &Dimensions) -> (r: Result<(), LayoutError>)
        ensures
            final(self).box_type == old(self).box_type,
            final(self).styled_node == old(self).styled_node,
            final(self).children == old(self).children,
            ({
                let h = resolve_width(old(self).styled_node.properties@, dim_parent.content.width as int);
                match r {
                    Ok(()) => horizontal_fits(h) && final(self).dimensions == with_horizontal(
                        old(self).dimensions,
                        h,
                    ),
                    Err(e) => e == LayoutError::Overflow && !horizontal_fits(h) && final(self).dimensions
                        == old(self).dimensions,
                }
            }),
            r is Ok ==> margin_box_width(horizontal_of(final(self).dimensions))
                == dim_parent.content.width,
    {
        let ghost props = self.styled_node.properties@;
        proof {
            lemma_margin_box_fills_container(props, dim_parent.content.width as int);
        }
        let width_is_auto = match self.styled_node.get_property("width") {
            Some(v) => v.is_auto(),
            None => true,
        };
        let width: i64 = self.declared_px("width");
        let left: i64 = self.declared_px("margin-left");
        let right: i64 = self.declared_px("margin-right");
        let border_left: i64 = self.declared_px("border-left");
        let border_right: i64 = self.declared_px("border-right");
        let padding_left: i64 = self.declared_px("padding-left");
        let padding_right: i64 = self.declared_px("padding-right");

        let total: i128 = left as i128 + right as i128 + border_left as i128 + border_right as i128
            + padding_left as i128 + padding_right as i128 + width as i128;
        let underflow: i128 = dim_parent.content.width as i128 - total;
        assert(underflow == self::underflow(props, dim_parent.content.width as int));

        let left_auto = self.declared_auto("margin-left") && underflow >= 0;
        let right_auto = self.declared_auto("margin-right") && underflow >= 0;

        let (w, ml, mr): (i128, i128, i128) = if width_is_auto {
            if underflow >= 0 {
                (underflow, left as i128, right as i128)
            } else {
                (0, left as i128, right as i128 + underflow)
            }
        } else if left_auto && right_auto {
            (width as i128, underflow / 2, underflow - underflow / 2)
        } else if left_auto {
            (width as i128, underflow, right as i128)
        } else if right_auto {
            (width as i128, left as i128, underflow)
        } else {
            (width as i128, left as i128, right as i128 + underflow)
        };
        let ghost h = resolve_width(props, dim_parent.content.width as int);
        assert(h.width == w && h.margin_left == ml && h.margin_right == mr);

        let w = narrow(w)?;
        let ml = narrow(ml)?;
        let mr = narrow(mr)?;

        self.dimensions.content.width = w;
        self.dimensions.padding.left = padding_left;
        self.dimensions.padding.right = padding_right;
        self.dimensions.border.left = border_left;
        self.dimensions.border.right = border_right;
        self.dimensions.margin.left = ml;
        self.dimensions.margin.right = mr;
        assert(self.dimensions == with_horizontal(old(self).dimensions, h));
        assert(horizontal_of(self.dimensions) == h);
        Ok(())
    }

    /// Sets the vertical margins, borders and padding of the box and
    /// places its content below what the container holds so far.
    ///
    /// Fails, leaving the box as it was, exactly when the place is not one
    /// that `i64` can hold.
    pub fn compute_block_position(&mut self, dim_parent: &Dimensions) -> (r: Result<(), LayoutError>)
        ensures
            final(self).box_type == old(self).box_type,
            final(self).styled_node == old(self).styled_node,
            final(self).children == old(self).children,
            ({
                let p = resolve_position(
                    old(self).styled_node.properties@,
                    *dim_parent,
                    old(self).dimensions,
                );
                match r {
                    Ok(()) => placement_fits(p) && final(self).dimensions == with_placement(
                        old(self).dimensions,
                        p,
                    ),
                    Err(e) => e == LayoutError::Overflow && !placement_fits(p) && final(self).dimensions
                        == old(self).dimensions,
                }
            }),
    {
        let margin_top: i64 = self.declared_px("margin-top");
        let margin_bottom: i64 = self.declared_px("margin-bottom");
        let border_top: i64 = self.declared_px("border-top");
        let border_bottom: i64 = self.declared_px("border-bottom");
        let padding_top: i64 = self.declared_px("padding-top");
        let padding_bottom: i64 = self.declared_px("padding-bottom");

        let x: i128 = dim_parent.content.x as i128 + self.dimensions.margin.left as i128
            + self.dimensions.border.left as i128 + self.dimensions.padding.left as i128;
        let y: i128 = dim_parent.content.height as i128 + dim_parent.content.y as i128
            + margin_top as i128 + border_top as i128 + padding_top as i128;
        let x = narrow(x)?;
        let y = narrow(y)?;

        self.dimensions.margin.top = margin_top;
        self.dimensions.margin.bottom = margin_bottom;
        self.dimensions.border.top = border_top;
        self.dimensions.border.bottom = border_bottom;
        self.dimensions.padding.top = padding_top;
        self.dimensions.padding.bottom = padding_bottom;
        self.dimensions.content.x = x;
        self.dimensions.content.y = y;
        Ok(())
    }

    /// Replaces the content height by the declared height, if one is
    /// declared.
    pub fn compute_block_height(&mut self)
        ensures
            final(self).box_type == old(self).box_type,
            final(self).styled_node == old(self).styled_node,
            final(self).children == old(self).children,
            final(self).dimensions == with_declared_height(
                old(self).styled_node.properties@,
                old(self).dimensions,
            ),
    {
        if let Some(h) = self.styled_node.get_property("height") {
            self.dimensions.content.height = h.to_px();
        }
    }

    /// Makes a text box as wide as the content of its container.
    pub fn compute_text_width(&mut self, dim_parent: &Dimensions)
        ensures
            final(self).box_type == old(self).box_type,
            final(self).styled_node == old(self).styled_node,
            final(self).children == old(self).children,
            final(self).dimensions == with_text_width(old(self).dimensions, *dim_parent),
    {
        self.dimensions.content.width = dim_parent.content.width;
        self.dimensions.padding.left = 0;
        self.dimensions.padding.right = 0;
        self.dimensions.border.left = 0;
        self.dimensions.border.right = 0;
        self.dimensions.margin.left = 0;
        self.dimensions.margin.right = 0;
    }

    /// Gives a text box its estimated height and takes its vertical edges
    /// away.
    ///
    /// Fails, leaving the box as it was, where the node is not a text node
    /// and where the estimate is not a length that `i64` can hold.
    pub fn compute_text_height(&mut self, dim_parent: &Dimensions) -> (r: Result<(), LayoutError>)
        ensures
            final(self).box_type == old(self).box_type,
            final(self).styled_node == old(self).styled_node,
            final(self).children == old(self).children,
            match text_box_height(*old(self).styled_node, *dim_parent) {
                Ok(h) => r == Ok::<(), LayoutError>(()) && final(self).dimensions == with_text_height(
                    old(self).dimensions,
                    h,
                ),
                Err(e) => r == Err::<(), LayoutError>(e) && final(self).dimensions == old(
                    self,
                ).dimensions,
            },
    {
        let font: i64 = match self.styled_node.get_property("font-size") {
            Some(v) => v.to_px(),
            None => 12 * UNITS_PER_PIXEL,
        };
        match &self.styled_node.html_node.node_type {
            NodeType::Text(text) => {
                let len: usize = text.as_str().unicode_len();
                let height = estimate_text_height(len, font, dim_parent.content.width)?;
                self.dimensions.content.height = height;
                self.dimensions.padding.top = 0;
                self.dimensions.padding.bottom = 0;
                self.dimensions.border.top = 0;
                self.dimensions.border.bottom = 0;
                self.dimensions.margin.top = 0;
                self.dimensions.margin.bottom = 0;
                Ok(())
            },
            NodeType::Element(_) => Err(LayoutError::NotText),
        }
    }

    /// The height of the margin box.
    fn margin_box_height(&self) -> (h: i128)
        ensures
            h == margin_box_height(self.dimensions),
    {
        let d = &self.dimensions;
        d.content.height as i128 + d.padding.top as i128 + d.padding.bottom as i128
            + d.border.top as i128 + d.border.bottom as i128 + d.margin.top as i128
            + d.margin.bottom as i128
    }

    /// Lays out a text box in its container.
    pub fn compute_text_dimensions(&mut self, dim_parent: &Dimensions) -> (r: Result<(), LayoutError>)
        ensures
            final(self).box_type == old(self).box_type,
            final(self).styled_node == old(self).styled_node,
            final(self).children == old(self).children,
            match r {
                Ok(()) => layout_text(old(self)@, *dim_parent) == Ok::<BoxView, LayoutError>(
                    final(self)@,
                ),
                Err(e) => layout_text(old(self)@, *dim_parent) == Err::<BoxView, LayoutError>(e),
            },
    {
        self.compute_text_width(dim_parent);
        self.compute_block_position(dim_parent)?;
        self.compute_text_height(dim_parent)?;
        Ok(())
    }

    /// Lays out a block and the boxes below it in its container.
    pub fn compute_block_dimensions(&mut self, dim_parent: &Dimensions) -> (r: Result<(), LayoutError>)
        ensures
            final(self).box_type == old(self).box_type,
            final(self).styled_node == old(self).styled_node,
            final(self).children@.len() == old(self).children@.len(),
            match r {
                Ok(()) => layout_block(old(self)@, *dim_parent) == Ok::<BoxView, LayoutError>(
                    final(self)@,
                ),
                Err(e) => layout_block(old(self)@, *dim_parent) == Err::<BoxView, LayoutError>(e),
            },
        decreases *old(self), 0int,
    {
        self.compute_block_width(dim_parent)?;
        self.compute_block_position(dim_parent)?;
        self.dimensions.content.height = 0;
        let ghost before = old(self)@.children;
        let ghost start = self.dimensions;
        let ghost mut done: Seq<BoxView> = Seq::empty();
        let n: usize = self.children.len();
        proof {
            lemma_view_fields(*old(self));
            assert(block_start(old(self)@, *dim_parent) == Ok::<Dimensions, LayoutError>(start));
            assert(layout_children(before, start, 0) == Ok::<(Seq<BoxView>, i64), LayoutError>(
                (done, 0i64),
            ));
        }
        let mut i: usize = 0;
        while i < n
            invariant
                i <= n,
                n == self.children@.len(),
                n == old(self).children@.len(),
                before.len() == n,
                before == old(self)@.children,
                block_start(old(self)@, *dim_parent) == Ok::<Dimensions, LayoutError>(start),
                forall|j: int| 0 <= j < n ==> before[j] == (#[trigger] old(self).children@[j])@,
                self.box_type == old(self).box_type,
                self.styled_node == old(self).styled_node,
                self.dimensions == with_height(start, self.dimensions.content.height),
                forall|j: int| i <= j < n ==> self.children@[j] == old(self).children@[j],
                done.len() == i,
                forall|j: int| 0 <= j < i ==> done[j] == (#[trigger] self.children@[j])@,
                layout_children(before, start, i as int) == Ok::<(Seq<BoxView>, i64), LayoutError>(
                    (done, self.dimensions.content.height),
                ),
            decreases n - i,
        {
            let containing: Dimensions = self.dimensions;
            let ghost child_before = self.children@[i as int];
            assert(before[i as int] == child_before@);
            match self.children[i].compute_dimensions(&containing) {
                Ok(()) => {},
                Err(e) => {
                    proof {
                        assert(layout_children(before, start, i + 1) == Err::<
                            (Seq<BoxView>, i64),
                            LayoutError,
                        >(e));
                        lemma_layout_children_fails_on(before, start, i + 1, n as int, e);
                    }
                    return Err(e);
                },
            }
            let grown: i128 = self.dimensions.content.height as i128 + self.children[i].margin_box_height();
            match narrow(grown) {
                Ok(h) => {
                    self.dimensions.content.height = h;
                },
                Err(e) => {
                    proof {
                        assert(layout_children(before, start, i + 1) == Err::<
                            (Seq<BoxView>, i64),
                            LayoutError,
                        >(e));
                        lemma_layout_children_fails_on(before, start, i + 1, n as int, e);
                    }
                    return Err(e);
                },
            }
            proof {
                done = done.push(self.children@[i as int]@);
            }
            i += 1;
        }
        self.compute_block_height();
        proof {
            lemma_view_fields(*self);
            assert forall|j: int| 0 <= j < n implies self@.children[j] == done[j] by {
                let child = self.children@[j];
            }
            assert(self@.children =~= done);
        }
        Ok(())
    }

    /// Lays out the box and the boxes below it in the container
    /// `dim_parent`.
    ///
    /// On success the box is what [`layout`] makes of it. On failure the
    /// error is the first one that [`layout`] meets; the boxes reached
    /// before it keep what they were given.
    pub fn compute_dimensions(&mut self, dim_parent: &Dimensions) -> (r: Result<(), LayoutError>)
        ensures
            final(self).box_type == old(self).box_type,
            final(self).styled_node == old(self).styled_node,
            final(self).children@.len() == old(self).children@.len(),
            match r {
                Ok(()) => layout(old(self)@, *dim_parent) == Ok::<BoxView, LayoutError>(final(self)@),
                Err(e) => layout(old(self)@, *dim_parent) == Err::<BoxView, LayoutError>(e),
            },
        decreases *old(self), 1int,
    {
        match self.box_type {
            BoxType::BlockNode => self.compute_block_dimensions(dim_parent),
            BoxType::InlineNode => Ok(()),
            BoxType::TextNode => self.compute_text_dimensions(dim_parent),
            BoxType::AnonymousBlock => Ok(()),
        }
    }
}

/// Builds the box tree of the styled tree below `node` without laying it
/// out. There is none where `node` itself is hidden.
pub fn build_box_tree<'a>(node: &'a StyledNode<'a>) -> (r: Result<LayoutBox<'a>, LayoutError>)
    ensures
        hidden(*node) ==> r == Err::<LayoutBox<'a>, LayoutError>(LayoutError::DisplayNone),
        !hidden(*node) ==> (r matches Ok(b) && b@ == box_tree(node)),
    decreases node,
{
    let mut ret = LayoutBox::new(node)?;
    let n: usize = node.children.len();
    let mut i: usize = 0;
    while i < n
        invariant
            i <= n,
            n == node.children@.len(),
            !hidden(*node),
            ret.dimensions == zero_dimensions(),
            ret.box_type == box_kind(*node),
            ret.styled_node == node,
            box_views(ret.children@, ret.children@.len() as int) == child_boxes(node, i as int),
        decreases n - i,
    {
        let style_child = &node.children[i];
        match style_child.get_display() {
            Display::Hidden => {},
            _ => {
                match build_box_tree(style_child) {
                    Ok(child) => {
                        let ghost before = ret.children@;
                        ret.children.push(child);
                        proof {
                            lemma_box_views(before, before.len() as int);
                            lemma_box_views(ret.children@, ret.children@.len() as int);
                            assert(box_views(ret.children@, ret.children@.len() as int)
                                =~= box_views(before, before.len() as int).push(child@));
                        }
                    },
                    Err(e) => {
                        return Err(e);
                    },
                }
            },
        }
        i += 1;
    }
    Ok(ret)
}

/// Builds the box tree of the styled tree below `node` and lays it out in
/// the viewport `viewport`.
///
/// There is no box tree where `node` itself is hidden. Otherwise the
/// result is what [`layout`] makes of [`box_tree`] in `viewport`, and the
/// error is the one that [`layout`] stops with.
pub fn build_layout_tree<'a>(node: &'a StyledNode<'a>, viewport: &Dimensions) -> (r: Result<
    LayoutBox<'a>,
    LayoutError,
>)
    ensures
        hidden(*node) ==> r == Err::<LayoutBox<'a>, LayoutError>(LayoutError::DisplayNone),
        !hidden(*node) ==> match r {
            Ok(b) => layout(box_tree(node), *viewport) == Ok::<BoxView, LayoutError>(b@),
            Err(e) => layout(box_tree(node), *viewport) == Err::<BoxView, LayoutError>(e),
        },
{
    let mut ret = build_box_tree(node)?;
    ret.compute_dimensions(viewport)?;
    Ok(ret)
}

/// The view of a box holds the fields of the box, and the views of its
/// children in their order.
pub(crate) proof fn lemma_view_fields(b: LayoutBox)
    ensures
        b@.dimensions == b.dimensions,
        b@.box_type == b.box_type,
        b@.styled_node == b.styled_node,
        b@.children.len() == b.children@.len(),
        forall|j: int| 0 <= j < b.children@.len() ==> b@.children[j] == (#[trigger] b.children@[j])@,
{
    lemma_box_views(b.children@, b.children@.len() as int);
}

/// Once a child has failed, laying out more of the children fails in the
/// same way.
proof fn lemma_layout_children_fails_on<'a>(
    children: Seq<BoxView<'a>>,
    start: Dimensions,
    k: int,
    n: int,
    e: LayoutError,
)
    requires
        0 < k <= n <= children.len(),
        layout_children(children, start, k) == Err::<(Seq<BoxView<'a>>, i64), LayoutError>(e),
    ensures
        layout_children(children, start, n) == Err::<(Seq<BoxView<'a>>, i64), LayoutError>(e),
    decreases n - k,
{
    if k < n {
        lemma_layout_children_fails_on(children, start, k, n - 1, e);
    }
}

} // verus!
