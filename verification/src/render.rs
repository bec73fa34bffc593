//! Turning a laid-out box tree into a list of paint commands.
//!
//! Nothing is drawn here. The list says what to draw and where, in the
//! order in which it is to be drawn; drawing it is left to the caller.

use vstd::prelude::*;
use crate::chars::string_views;
use crate::css::UNITS_PER_PIXEL;
use crate::dom::NodeType;
use crate::layout::{
    fits, font_size, lemma_view_fields, node_text, BoxType, BoxView, LayoutBox, Rect,
};

verus! {

/// Why no paint commands could be listed.
#[derive(Clone, Copy, Debug, PartialEq, Eq, Structural)]
pub enum RenderError {
    /// A text box stands for a node that is not text.
    NotText,
    /// The font is less than two pixels high, so that a character has no
    /// width.
    FontTooSmall,
    /// A line of text would be placed where `i64` cannot reach.
    Overflow,
}

/// One thing to draw.
#[derive(Debug, PartialEq, Eq)]
pub enum PaintCommand {
    /// A filled rectangle with a border.
    Area(Rect),
    /// One line of text with the place of its start.
    TextLine { text: String, x: i64, y: i64 },
}

/// A paint command as a value.
pub enum PaintView {
    Area(Rect),
    TextLine { text: Seq<char>, x: i64, y: i64 },
}

impl View for PaintCommand {
    type V = PaintView;

    open spec fn view(&self) -> PaintView {
        match *self {
            PaintCommand::Area(rect) => PaintView::Area(rect),
            PaintCommand::TextLine { text, x, y } => PaintView::TextLine { text: text@, x, y },
        }
    }
}

/// What each of the commands is, in their order.
pub open spec fn command_views(v: Seq<PaintCommand>) -> Seq<PaintView> {
    Seq::new(v.len(), |i: int| v[i]@)
}

/// The lines into which `textwrap` breaks `text` for lines of `width`
/// columns.
pub uninterp spec fn wrapped(text: Seq<char>, width: usize) -> Seq<Seq<char>>;

/// Calls `textwrap::wrap_iter` and collects the lines it yields. Trusted:
/// the lines depend on the text and the width alone; they are given the
/// name [`wrapped`].
#[verifier::external_body]
fn wrap_lines(text: &str, width: usize) -> (lines: Vec<String>)
    ensures
        string_views(lines@) == wrapped(text@, width),
{
    textwrap::wrap_iter(text, width).map(|line| line.into_owned()).collect()
}

/// The number of characters taken to fit on a line of the given width in
/// a font of size `font`: the whole pixels of the width by the whole
/// pixels of the width of a character, which is half as wide as the font
/// is high. A negative width holds none.
pub open spec fn per_line(width: i64, font: i64) -> usize
    recommends
        font >= 2 * UNITS_PER_PIXEL,
{
    let room = if width < 0 {
        0
    } else {
        width as int / UNITS_PER_PIXEL as int
    };
    let char_width = (font as int / 2) / UNITS_PER_PIXEL as int;
    if room / char_width > usize::MAX {
        usize::MAX
    } else {
        (room / char_width) as usize
    }
}

/// The number of characters taken to fit on a line. There is none for a
/// font of less than two pixels, in which a character has no whole pixel
/// of width.
pub fn chars_per_line(width: i64, font: i64) -> (r: Option<usize>)
    ensures
        font < 2 * UNITS_PER_PIXEL ==> r is None,
        font >= 2 * UNITS_PER_PIXEL ==> r == Some(per_line(width, font)),
{
    if font < 2 * UNITS_PER_PIXEL {
        return None;
    }
    let room: u64 = if width < 0 {
        0
    } else {
        (width / UNITS_PER_PIXEL) as u64
    };
    let char_width: u64 = ((font / 2) / UNITS_PER_PIXEL) as u64;
    let n: u64 = room / char_width;
    if n > usize::MAX as u64 {
        Some(usize::MAX)
    } else {
        Some(n as usize)
    }
}

/// Whether each of `count` lines, the first at `y` and each `font` below
/// the one before, is placed where `i64` can reach.
pub open spec fn lines_fit(count: int, y: i64, font: i64) -> bool {
    forall|i: int| 0 <= i < count ==> fits(#[trigger] (y + i * font))
}

/// The commands for `lines`, the first at `(x, y)` and each `font` below
/// the one before.
pub open spec fn placed(lines: Seq<Seq<char>>, x: i64, y: i64, font: i64) -> Result<
    Seq<PaintView>,
    RenderError,
> {
    if lines_fit(lines.len() as int, y, font) {
        Ok(Seq::new(lines.len(), |i: int| PaintView::TextLine { text: lines[i], x, y: (y + i * font) as i64 }))
    } else {
        Err(RenderError::Overflow)
    }
}

/// Lists the commands that draw `lines` one below the other, the first at
/// `(x, y)` and each `font` below the one before.
pub fn place_lines(lines: Vec<String>, x: i64, y: i64, font: i64) -> (r: Result<
    Vec<PaintCommand>,
    RenderError,
>)
    ensures
        match r {
            Ok(v) => placed(string_views(lines@), x, y, font) == Ok::<Seq<PaintView>, RenderError>(
                command_views(v@),
            ),
            Err(e) => placed(string_views(lines@), x, y, font) == Err::<Seq<PaintView>, RenderError>(
                e,
            ),
        },
{
    let ghost texts = string_views(lines@);
    let n: usize = lines.len();
    let mut out: Vec<PaintCommand> = Vec::new();
    let mut i: usize = 0;
    while i < n
        invariant
            i <= n,
            n == lines@.len(),
            texts == string_views(lines@),
            out@.len() == i,
            lines_fit(i as int, y, font),
            forall|j: int|
                0 <= j < i ==> (#[trigger] out@[j])@ == (PaintView::TextLine {
                    text: texts[j],
                    x,
                    y: (y + j * font) as i64,
                }),
        decreases n - i,
    {
        assert(-0x8000_0000_0000_0000_0000_0000_0000_0000 + 0x8000_0000_0000_0000 <= i * font
            <= 0x8000_0000_0000_0000_0000_0000_0000_0000 - 0x8000_0000_0000_0000)
            by (nonlinear_arith)
            requires
                0 <= i <= 0xffff_ffff_ffff_ffff,
                -0x8000_0000_0000_0000 <= font <= 0x7fff_ffff_ffff_ffff,
        ;
        let line_y: i128 = y as i128 + (i as i128) * (font as i128);
        if line_y < i64::MIN as i128 || line_y > i64::MAX as i128 {
            assert(!fits(y + i * font));
            return Err(RenderError::Overflow);
        }
        let text = lines[i].clone();
        out.push(PaintCommand::TextLine { text, x, y: line_y as i64 });
        i += 1;
    }
    assert(command_views(out@) =~= placed(texts, x, y, font)->Ok_0);
    Ok(out)
}

/// The command for a box that is not a text box: its content rectangle.
pub open spec fn paint_area(b: BoxView) -> Seq<PaintView> {
    seq![PaintView::Area(b.dimensions.content)]
}

/// The commands for a text box: the lines into which its text is broken
/// for the width of its content, the first at the corner of the content.
///
/// The width in characters is found from the content width here, while
/// the layout reserved the height from the width of the container, so the
/// lines drawn need not fill the height reserved.
pub open spec fn paint_text(b: BoxView) -> Result<Seq<PaintView>, RenderError> {
    match node_text(*b.styled_node) {
        None => Err(RenderError::NotText),
        Some(text) => {
            let font = font_size(b.styled_node.properties@) as i64;
            if font < 2 * UNITS_PER_PIXEL {
                Err(RenderError::FontTooSmall)
            } else {
                placed(
                    wrapped(text, per_line(b.dimensions.content.width, font)),
                    b.dimensions.content.x,
                    b.dimensions.content.y,
                    font,
                )
            }
        },
    }
}

/// The commands for the box itself, without the boxes below it.
pub open spec fn paint_own(b: BoxView) -> Result<Seq<PaintView>, RenderError> {
    if b.box_type == BoxType::TextNode {
        paint_text(b)
    } else {
        Ok(paint_area(b))
    }
}

/// The commands for the box `b` and the boxes below it: those of the box
/// itself, then those of its children in their order.
pub open spec fn paint(b: BoxView) -> Result<Seq<PaintView>, RenderError>
    decreases b, 0int,
{
    match paint_own(b) {
        Err(e) => Err(e),
        Ok(own) => match paint_all(b.children, b.children.len() as int) {
            Err(e) => Err(e),
            Ok(below) => Ok(own + below),
        },
    }
}

/// The commands for the first `k` of `boxes`, box after box.
pub open spec fn paint_all(boxes: Seq<BoxView>, k: int) -> Result<Seq<PaintView>, RenderError>
    decreases boxes, k,
{
    if k <= 0 || k > boxes.len() {
        Ok(Seq::empty())
    } else {
        match paint_all(boxes, k - 1) {
            Err(e) => Err(e),
            Ok(before) => match paint(boxes[k - 1]) {
                Err(e) => Err(e),
                Ok(items) => Ok(before + items),
            },
        }
    }
}

/// Once a box has failed, listing more of the boxes fails in the same way.
proof fn lemma_paint_all_fails_on(boxes: Seq<BoxView>, k: int, n: int, e: RenderError)
    requires
        0 < k <= n <= boxes.len(),
        paint_all(boxes, k) == Err::<Seq<PaintView>, RenderError>(e),
    ensures
        paint_all(boxes, n) == Err::<Seq<PaintView>, RenderError>(e),
    decreases n - k,
{
    if k < n {
        lemma_paint_all_fails_on(boxes, k, n - 1, e);
    }
}

/// Lists the command that draws the content rectangle of a box.
pub fn render_area(layout_box: &LayoutBox) -> (r: Vec<PaintCommand>)
    ensures
        command_views(r@) == paint_area(layout_box@),
{
    let mut out: Vec<PaintCommand> = Vec::new();
    out.push(PaintCommand::Area(layout_box.dimensions.content));
    proof {
        lemma_view_fields(*layout_box);
        assert(command_views(out@) =~= paint_area(layout_box@));
    }
    out
}

/// Lists the commands that draw the text of a text box, line by line.
pub fn render_text(layout_box: &LayoutBox) -> (r: Result<Vec<PaintCommand>, RenderError>)
    ensures
        match r {
            Ok(v) => paint_text(layout_box@) == Ok::<Seq<PaintView>, RenderError>(command_views(v@)),
            Err(e) => paint_text(layout_box@) == Err::<Seq<PaintView>, RenderError>(e),
        },
{
    proof {
        lemma_view_fields(*layout_box);
    }
    let font: i64 = match layout_box.styled_node.get_property("font-size") {
        Some(v) => v.to_px(),
        None => 12 * UNITS_PER_PIXEL,
    };
    match &layout_box.styled_node.html_node.node_type {
        NodeType::Text(to_write) => {
            match chars_per_line(layout_box.dimensions.content.width, font) {
                None => Err(RenderError::FontTooSmall),
                Some(width) => {
                    let lines = wrap_lines(to_write.as_str(), width);
                    place_lines(
                        lines,
                        layout_box.dimensions.content.x,
                        layout_box.dimensions.content.y,
                        font,
                    )
                },
            }
        },
        NodeType::Element(_) => Err(RenderError::NotText),
    }
}

/// Appends the commands for `layout_box` and the boxes below it to `out`.
pub fn render_box(layout_box: &LayoutBox, out: &mut Vec<PaintCommand>) -> (r: Result<(), RenderError>)
    ensures
        match r {
            Ok(()) => paint(layout_box@) is Ok && command_views(final(out)@) == command_views(
                old(out)@,
            ) + paint(layout_box@)->Ok_0,
            Err(e) => paint(layout_box@) == Err::<Seq<PaintView>, RenderError>(e),
        },
    decreases layout_box,
{
    proof {
        lemma_view_fields(*layout_box);
    }
    let mut own = match layout_box.box_type {
        BoxType::TextNode => render_text(layout_box)?,
        _ => render_area(layout_box),
    };
    let ghost start = command_views(out@);
    let ghost own_views = command_views(own@);
    assert(paint_own(layout_box@) == Ok::<Seq<PaintView>, RenderError>(own_views));
    out.append(&mut own);
    assert(command_views(out@) =~= start + own_views);
    let n: usize = layout_box.children.len();
    let mut i: usize = 0;
    let ghost mut below: Seq<PaintView> = Seq::empty();
    assert(start + own_views + below =~= start + own_views);
    while i < n
        invariant
            i <= n,
            n == layout_box.children@.len(),
            layout_box@.children.len() == n,
            forall|j: int| 0 <= j < n ==> layout_box@.children[j] == (#[trigger] layout_box.children@[j])@,
            paint_own(layout_box@) == Ok::<Seq<PaintView>, RenderError>(own_views),
            paint_all(layout_box@.children, i as int) == Ok::<Seq<PaintView>, RenderError>(below),
            command_views(out@) == start + own_views + below,
        decreases n - i,
    {
        let ghost before = command_views(out@);
        let child = &layout_box.children[i];
        assert(layout_box@.children[i as int] == child@);
        match render_box(child, out) {
            Ok(()) => {},
            Err(e) => {
                proof {
                    assert(paint_all(layout_box@.children, i + 1) == Err::<
                        Seq<PaintView>,
                        RenderError,
                    >(e));
                    lemma_paint_all_fails_on(layout_box@.children, i + 1, n as int, e);
                }
                return Err(e);
            },
        }
        proof {
            let items = paint(child@)->Ok_0;
            assert(start + own_views + (below + items) =~= before + items);
            below = below + items;
        }
        i += 1;
    }
    assert(start + (own_views + below) =~= start + own_views + below);
    Ok(())
}

/// Lists the commands that draw the box tree `layout_tree`, in the order
/// in which they are to be drawn: each box before the boxes below it, and
/// the children of a box in their order.
pub fn display_list(layout_tree: &LayoutBox) -> (r: Result<Vec<PaintCommand>, RenderError>)
    ensures
        match r {
            Ok(v) => paint(layout_tree@) == Ok::<Seq<PaintView>, RenderError>(command_views(v@)),
            Err(e) => paint(layout_tree@) == Err::<Seq<PaintView>, RenderError>(e),
        },
{
    let mut out: Vec<PaintCommand> = Vec::new();
    assert(command_views(out@) =~= Seq::<PaintView>::empty());
    render_box(layout_tree, &mut out)?;
    assert(Seq::<PaintView>::empty() + paint(layout_tree@)->Ok_0 =~= paint(layout_tree@)->Ok_0);
    Ok(out)
}

} // verus!
