use minibrowser::css::{Declaration, Rule, Selector, SimpleSelector, StyleSheet, Unit, Value};
use minibrowser::dom::{element_node, text_node, AttrMap, Node};
use minibrowser::layout::{build_layout_tree, BoxType, Dimensions, LayoutError};
use minibrowser::style::build_style_tree;

/// The number of units of length in a pixel.
const PX: i64 = minibrowser::css::UNITS_PER_PIXEL;

fn tag_rule(tag: &str, declarations: Vec<(&str, Value)>) -> Rule {
    Rule {
        selectors: vec![Selector::Simple(SimpleSelector {
            tag_name: Some(tag.to_string()),
            id: None,
            classes: Vec::new(),
        })],
        declarations: declarations
            .into_iter()
            .map(|(name, value)| Declaration { name: name.to_string(), value })
            .collect(),
    }
}

fn px(n: i64) -> Value {
    Value::Length(n * PX, Unit::Px)
}

fn keyword(k: &str) -> Value {
    Value::Keyword(k.to_string())
}

fn element(tag: &str, children: Vec<Node>) -> Node {
    element_node(tag.to_string(), AttrMap::new(), children)
}

#[test]
fn auto_width_fills_the_container() {
    let doc = element("div", vec![]);
    let sheet = StyleSheet {
        rules: vec![tag_rule(
            "div",
            vec![
                ("display", keyword("block")),
                ("width", keyword("auto")),
                ("margin-left", keyword("auto")),
                ("margin-right", keyword("auto")),
            ],
        )],
    };
    let styled = build_style_tree(&doc, &sheet);
    let tree = build_layout_tree(&styled, &Dimensions::viewport(400 * PX)).unwrap();
    assert_eq!(tree.box_type, BoxType::BlockNode);
    assert_eq!(tree.dimensions.content.width, 400 * PX);
    assert_eq!(tree.dimensions.margin.left, 0);
    assert_eq!(tree.dimensions.margin.right, 0);
}

#[test]
fn auto_left_margin_takes_the_underflow() {
    let doc = element("div", vec![]);
    let sheet = StyleSheet {
        rules: vec![tag_rule(
            "div",
            vec![
                ("display", keyword("block")),
                ("width", px(100)),
                ("margin-left", keyword("auto")),
                ("margin-right", px(0)),
            ],
        )],
    };
    let styled = build_style_tree(&doc, &sheet);
    let tree = build_layout_tree(&styled, &Dimensions::viewport(400 * PX)).unwrap();
    assert_eq!(tree.dimensions.content.width, 100 * PX);
    assert_eq!(tree.dimensions.margin.left, 300 * PX);
    assert_eq!(tree.dimensions.margin.right, 0);
    assert_eq!(tree.dimensions.content.x, 300 * PX);
}

#[test]
fn block_height_is_the_sum_of_its_children() {
    let doc = element("body", vec![element("a", vec![]), element("b", vec![]), element("c", vec![])]);
    let sheet = StyleSheet {
        rules: vec![
            tag_rule("body", vec![("display", keyword("block"))]),
            tag_rule("a", vec![("display", keyword("block")), ("height", px(10))]),
            tag_rule("b", vec![("display", keyword("block")), ("height", px(20))]),
            tag_rule("c", vec![("display", keyword("block")), ("height", px(30))]),
        ],
    };
    let styled = build_style_tree(&doc, &sheet);
    let tree = build_layout_tree(&styled, &Dimensions::viewport(400 * PX)).unwrap();
    assert_eq!(tree.dimensions.content.height, 60 * PX);
    assert_eq!(tree.children[0].dimensions.content.y, 0);
    assert_eq!(tree.children[1].dimensions.content.y, 10 * PX);
    assert_eq!(tree.children[2].dimensions.content.y, 30 * PX);
}

#[test]
fn declared_height_replaces_the_sum() {
    let doc = element("body", vec![element("a", vec![]), element("b", vec![]), element("c", vec![])]);
    let sheet = StyleSheet {
        rules: vec![
            tag_rule("body", vec![("display", keyword("block")), ("height", px(5))]),
            tag_rule("a", vec![("display", keyword("block")), ("height", px(10))]),
            tag_rule("b", vec![("display", keyword("block")), ("height", px(20))]),
            tag_rule("c", vec![("display", keyword("block")), ("height", px(30))]),
        ],
    };
    let styled = build_style_tree(&doc, &sheet);
    let tree = build_layout_tree(&styled, &Dimensions::viewport(400 * PX)).unwrap();
    assert_eq!(tree.dimensions.content.height, 5 * PX);
    assert_eq!(tree.children[2].dimensions.content.y, 30 * PX);
}

#[test]
fn body_paragraph_text_end_to_end() {
    let doc = element("body", vec![element("p", vec![text_node("text".to_string())])]);
    let sheet = StyleSheet {
        rules: vec![
            tag_rule(
                "body",
                vec![
                    ("display", keyword("block")),
                    ("width", px(100)),
                    ("margin-left", keyword("auto")),
                    ("margin-right", keyword("auto")),
                ],
            ),
            tag_rule("p", vec![("display", keyword("block")), ("height", px(20))]),
        ],
    };
    let styled = build_style_tree(&doc, &sheet);
    let tree = build_layout_tree(&styled, &Dimensions::viewport(400 * PX)).unwrap();
    assert_eq!(tree.dimensions.content.width, 100 * PX);
    assert_eq!(tree.dimensions.margin.left, 150 * PX);
    assert_eq!(tree.dimensions.margin.right, 150 * PX);
    let p = &tree.children[0];
    assert_eq!(p.box_type, BoxType::BlockNode);
    assert_eq!(p.dimensions.content.height, 20 * PX);
    let text = &p.children[0];
    assert_eq!(text.box_type, BoxType::TextNode);
    // four characters of width six in a line of a hundred: one line, and one to spare
    assert_eq!(text.dimensions.content.height, 24 * PX);
    assert_eq!(text.get_text(), Some(&"text".to_string()));
}

#[test]
fn hidden_root_has_no_box() {
    let doc = element("body", vec![]);
    let sheet = StyleSheet { rules: vec![tag_rule("body", vec![("display", keyword("none"))])] };
    let styled = build_style_tree(&doc, &sheet);
    let r = build_layout_tree(&styled, &Dimensions::viewport(400 * PX));
    assert_eq!(r.err(), Some(LayoutError::DisplayNone));
}
