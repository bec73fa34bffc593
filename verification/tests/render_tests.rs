use minibrowser::css::{Declaration, Rule, Selector, SimpleSelector, StyleSheet, Unit, Value};
use minibrowser::dom::{element_node, text_node, AttrMap};
use minibrowser::layout::{build_layout_tree, Dimensions, LayoutBox, Rect};
use minibrowser::render::{
    chars_per_line, display_list, place_lines, render_text, PaintCommand, RenderError,
};
use minibrowser::style::build_style_tree;

fn block_rule(tag: &str, declarations: Vec<(&str, Value)>) -> Rule {
    let mut all = vec![Declaration { name: "display".to_string(), value: Value::Keyword("block".to_string()) }];
    for (name, value) in declarations {
        all.push(Declaration { name: name.to_string(), value });
    }
    Rule {
        selectors: vec![Selector::Simple(SimpleSelector {
            tag_name: Some(tag.to_string()),
            id: None,
            classes: Vec::new(),
        })],
        declarations: all,
    }
}

/// The number of units of length in a pixel.
const PX: i64 = minibrowser::css::UNITS_PER_PIXEL;

/// A line of text at a place given in thousandths of a pixel.
fn raw_line(text: &str, x: i64, y: i64) -> PaintCommand {
    PaintCommand::TextLine { text: text.to_string(), x, y }
}

/// A line of text at a place given in pixels.
fn line(text: &str, x: i64, y: i64) -> PaintCommand {
    raw_line(text, x * PX, y * PX)
}

/// A rectangle given in pixels.
fn area(x: i64, y: i64, width: i64, height: i64) -> PaintCommand {
    PaintCommand::Area(Rect { x: x * PX, y: y * PX, width: width * PX, height: height * PX })
}

fn pixels(n: i64) -> Value {
    Value::Length(n * PX, Unit::Px)
}

#[test]
fn characters_on_a_line() {
    assert_eq!(chars_per_line(100 * PX, 12 * PX), Some(16));
    assert_eq!(chars_per_line(100 * PX, 13 * PX), Some(16));
    assert_eq!(chars_per_line(100_900, 13_999), Some(16));
    assert_eq!(chars_per_line(100 * PX, 14 * PX), Some(14));
    assert_eq!(chars_per_line(5 * PX, 12 * PX), Some(0));
    assert_eq!(chars_per_line(-100 * PX, 12 * PX), Some(0));
    assert_eq!(chars_per_line(100 * PX, 2 * PX), Some(100));
    assert_eq!(chars_per_line(100 * PX, 1_999), None);
    assert_eq!(chars_per_line(100 * PX, PX), None);
    assert_eq!(chars_per_line(100 * PX, 0), None);
    assert_eq!(chars_per_line(100 * PX, -12 * PX), None);
}

#[test]
fn lines_are_placed_one_below_the_other() {
    let lines = vec!["a".to_string(), "bc".to_string(), "".to_string()];
    assert_eq!(
        place_lines(lines, 5, 100, 12),
        Ok(vec![raw_line("a", 5, 100), raw_line("bc", 5, 112), raw_line("", 5, 124)])
    );
    assert_eq!(place_lines(vec![], 5, i64::MAX, 12), Ok(vec![]));
    assert_eq!(place_lines(vec!["a".to_string()], 0, i64::MAX, 12), Ok(vec![raw_line("a", 0, i64::MAX)]));
    assert_eq!(
        place_lines(vec!["a".to_string(), "b".to_string()], 0, i64::MAX, 12),
        Err(RenderError::Overflow)
    );
    assert_eq!(
        place_lines(vec!["a".to_string(), "b".to_string()], 0, i64::MIN, -1),
        Err(RenderError::Overflow)
    );
}

#[test]
fn boxes_are_listed_before_the_boxes_below_them() {
    let doc = element_node(
        "body".to_string(),
        AttrMap::new(),
        vec![
            element_node(
                "p".to_string(),
                AttrMap::new(),
                vec![text_node("Concurrency without data races.".to_string())],
            ),
            element_node("q".to_string(), AttrMap::new(), vec![]),
        ],
    );
    let sheet = StyleSheet {
        rules: vec![
            block_rule("body", vec![("margin-left", pixels(10))]),
            block_rule("p", vec![("width", pixels(120))]),
            block_rule("q", vec![("height", pixels(9))]),
        ],
    };
    let styled = build_style_tree(&doc, &sheet);
    let tree = build_layout_tree(&styled, &Dimensions::viewport(400 * PX)).unwrap();
    let list = display_list(&tree).unwrap();
    // the text box is 120 wide: twenty characters of width six to a line.
    // Its height was reserved for 31 * 6 / 120 lines, rounded up, and one more: 3 * 12.
    assert_eq!(
        list,
        vec![
            area(10, 0, 390, 45),
            area(10, 0, 120, 36),
            line("Concurrency without", 10, 0),
            line("data races.", 10, 12),
            area(10, 36, 390, 9),
        ]
    );
}

fn text_box_commands(text: &str, width: i64, font: Option<i64>) -> Result<Vec<PaintCommand>, RenderError> {
    let doc = text_node(text.to_string());
    let sheet = StyleSheet { rules: vec![] };
    let mut styled = build_style_tree(&doc, &sheet);
    if let Some(size) = font {
        styled.properties.insert("font-size".to_string(), Value::Length(size, Unit::Px));
    }
    let mut made = LayoutBox::new(&styled).unwrap();
    made.dimensions.content = Rect { x: 3 * PX, y: 4 * PX, width, height: 0 };
    render_text(&made)
}

#[test]
fn text_is_broken_into_lines() {
    assert_eq!(
        text_box_commands("foo bar baz", 30 * PX, None),
        Ok(vec![line("foo", 3, 4), line("bar", 3, 16), line("baz", 3, 28)])
    );
    assert_eq!(text_box_commands("foo bar baz", 60 * PX, None), Ok(vec![line("foo bar", 3, 4), line("baz", 3, 16)]));
    assert_eq!(text_box_commands("foo bar baz", 600 * PX, None), Ok(vec![line("foo bar baz", 3, 4)]));
    assert_eq!(text_box_commands("foo", 0, None), Ok(vec![line("f", 3, 4), line("o", 3, 16), line("o", 3, 28)]));
    assert_eq!(
        text_box_commands("foo bar baz", 100 * PX, Some(40 * PX)),
        Ok(vec![line("foo", 3, 4), line("bar", 3, 44), line("baz", 3, 84)])
    );
    // a font of ten and a half pixels: five whole pixels to a character, lines 10.5 apart
    assert_eq!(
        text_box_commands("foo bar baz", 35 * PX, Some(10_500)),
        Ok(vec![raw_line("foo bar", 3_000, 4_000), raw_line("baz", 3_000, 14_500)])
    );
    assert_eq!(text_box_commands("", 100 * PX, None), Ok(vec![]));
}

#[test]
fn a_font_without_width_is_refused() {
    assert_eq!(text_box_commands("foo", 100 * PX, Some(PX)), Err(RenderError::FontTooSmall));
    assert_eq!(text_box_commands("foo", 100 * PX, Some(1_999)), Err(RenderError::FontTooSmall));
    assert_eq!(text_box_commands("foo", 100 * PX, Some(-4 * PX)), Err(RenderError::FontTooSmall));
}

#[test]
fn text_of_an_element_is_refused() {
    let doc = element_node("p".to_string(), AttrMap::new(), vec![]);
    let sheet = StyleSheet { rules: vec![] };
    let styled = build_style_tree(&doc, &sheet);
    let made = LayoutBox::new(&styled).unwrap();
    assert_eq!(render_text(&made), Err(RenderError::NotText));
    assert_eq!(display_list(&made), Ok(vec![PaintCommand::Area(Rect { x: 0, y: 0, width: 0, height: 0 })]));
}
