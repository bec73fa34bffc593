use minibrowser::css::{Declaration, Rule, Selector, SimpleSelector, StyleSheet, Unit, Value};
use minibrowser::dom::{element_node, text_node, AttrMap, Node};
use minibrowser::layout::{
    build_box_tree, build_layout_tree, estimate_text_height, BoxType, Dimensions, EdgeSizes,
    LayoutBox, LayoutError, Rect,
};
use minibrowser::style::build_style_tree;

/// The number of units of length in a pixel.
const PX: i64 = minibrowser::css::UNITS_PER_PIXEL;

fn rule_for(tag: &str, declarations: Vec<(&str, Value)>) -> Rule {
    Rule {
        selectors: vec![Selector::Simple(SimpleSelector {
            tag_name: Some(tag.to_string()),
            id: None,
            classes: Vec::new(),
        })],
        declarations: declarations
            .into_iter()
            .map(|(name, value)| Declaration { name: name.to_string(), value })
            .collect(),
    }
}

/// A length of `n` pixels.
fn len(n: i64) -> Value {
    Value::Length(n * PX, Unit::Px)
}

/// A length of `n` thousandths of a pixel.
fn raw(n: i64) -> Value {
    Value::Length(n, Unit::Px)
}

fn word(k: &str) -> Value {
    Value::Keyword(k.to_string())
}

fn node(tag: &str, children: Vec<Node>) -> Node {
    element_node(tag.to_string(), AttrMap::new(), children)
}

/// The dimensions of a single block with the given declarations in a viewport of width 400.
fn block_in_400(declarations: Vec<(&str, Value)>) -> Result<Dimensions, LayoutError> {
    let doc = node("div", vec![]);
    let mut all = vec![("display", word("block"))];
    all.extend(declarations);
    let sheet = StyleSheet { rules: vec![rule_for("div", all)] };
    let styled = build_style_tree(&doc, &sheet);
    build_layout_tree(&styled, &Dimensions::viewport(400 * PX)).map(|b| b.dimensions)
}

#[test]
fn overconstrained_box_gives_the_slack_to_the_right_margin() {
    let d = block_in_400(vec![
        ("width", len(100)),
        ("margin-left", len(10)),
        ("margin-right", len(20)),
        ("padding-left", len(1)),
        ("padding-right", len(2)),
        ("border-left", len(3)),
        ("border-right", len(4)),
    ])
    .unwrap();
    // underflow = 400 - 140 = 260
    assert_eq!(d.content.width, 100 * PX);
    assert_eq!(d.margin.left, 10 * PX);
    assert_eq!(d.margin.right, 280 * PX);
    assert_eq!(d.padding.left, 1 * PX);
    assert_eq!(d.padding.right, 2 * PX);
    assert_eq!(d.border.left, 3 * PX);
    assert_eq!(d.border.right, 4 * PX);
    assert_eq!(d.content.x, 14 * PX);
}

#[test]
fn auto_right_margin_takes_the_underflow() {
    let d = block_in_400(vec![("width", len(100)), ("margin-left", len(30)), ("margin-right", word("auto"))])
        .unwrap();
    assert_eq!(d.margin.left, 30 * PX);
    assert_eq!(d.margin.right, 270 * PX);
}

#[test]
fn two_auto_margins_halve_the_underflow() {
    let d = block_in_400(vec![("width", len(101)), ("margin-left", word("auto")), ("margin-right", word("auto"))])
        .unwrap();
    // underflow = 299 pixels, and each margin gets 149.5
    assert_eq!(d.content.width, 101 * PX);
    assert_eq!(d.margin.left, 149_500);
    assert_eq!(d.margin.right, 149_500);
    // an underflow of an odd number of thousandths: the left margin takes the lower half,
    // the right margin the rest
    let d = block_in_400(vec![("width", raw(99_001)), ("margin-left", word("auto")), ("margin-right", word("auto"))])
        .unwrap();
    assert_eq!(d.content.width, 99_001);
    assert_eq!(d.margin.left, 150_499);
    assert_eq!(d.margin.right, 150_500);
    assert_eq!(d.margin_box().unwrap().width, 400 * PX);
}

#[test]
fn margin_box_fills_the_container() {
    let cases: Vec<Vec<(&str, Value)>> = vec![
        vec![],
        vec![("width", raw(99_001)), ("margin-left", word("auto")), ("margin-right", word("auto"))],
        vec![("width", len(501)), ("margin-left", word("auto")), ("margin-right", word("auto"))],
        vec![("width", len(7)), ("margin-left", word("auto")), ("padding-left", len(3))],
        vec![("width", len(7)), ("margin-right", word("auto")), ("border-right", len(3))],
        vec![("width", len(7)), ("margin-left", len(-5)), ("margin-right", len(11))],
        vec![("margin-left", len(300)), ("margin-right", word("auto")), ("padding-right", len(200))],
        vec![("width", word("auto")), ("border-left", len(13))],
    ];
    for declarations in cases {
        let d = block_in_400(declarations).unwrap();
        assert_eq!(
            d.margin.left + d.border.left + d.padding.left + d.content.width + d.padding.right
                + d.border.right + d.margin.right,
            400 * PX
        );
    }
}

#[test]
fn fixed_width_that_overflows_zeroes_auto_margins() {
    let d = block_in_400(vec![("width", len(500)), ("margin-left", word("auto")), ("margin-right", word("auto"))])
        .unwrap();
    assert_eq!(d.content.width, 500 * PX);
    assert_eq!(d.margin.left, 0);
    assert_eq!(d.margin.right, -100 * PX);
}

#[test]
fn auto_width_takes_what_the_edges_leave() {
    let d = block_in_400(vec![("margin-left", len(50)), ("padding-right", len(25)), ("margin-right", word("auto"))])
        .unwrap();
    assert_eq!(d.content.width, 325 * PX);
    assert_eq!(d.margin.left, 50 * PX);
    assert_eq!(d.margin.right, 0);
}

#[test]
fn auto_width_that_overflows_is_zero() {
    let d = block_in_400(vec![("margin-left", len(300)), ("margin-right", len(200))]).unwrap();
    assert_eq!(d.content.width, 0);
    assert_eq!(d.margin.left, 300 * PX);
    assert_eq!(d.margin.right, 100 * PX);
}

#[test]
fn width_without_declarations_is_the_container() {
    let d = block_in_400(vec![]).unwrap();
    assert_eq!(d.content, Rect { x: 0, y: 0, width: 400 * PX, height: 0 });
    assert_eq!(d.margin, EdgeSizes { top: 0, bottom: 0, left: 0, right: 0 });
}

#[test]
fn a_margin_beyond_the_range_stops_the_layout() {
    // the right margin takes up the underflow and stays in range
    let r = block_in_400(vec![("width", len(-10)), ("margin-right", raw(i64::MAX))]);
    assert_eq!(r.map(|d| d.margin.right), Ok(410 * PX));
    let r = block_in_400(vec![("width", raw(i64::MIN)), ("margin-left", raw(i64::MIN))]);
    assert_eq!(r.err(), Some(LayoutError::Overflow));
    let r = block_in_400(vec![("margin-top", raw(i64::MAX)), ("padding-top", raw(1))]);
    assert_eq!(r.err(), Some(LayoutError::Overflow));
}

#[test]
fn children_stack_below_each_other() {
    let doc = node("body", vec![node("a", vec![]), node("b", vec![]), node("c", vec![])]);
    let sheet = StyleSheet {
        rules: vec![
            rule_for("body", vec![("display", word("block")), ("padding-top", len(7)), ("margin-left", len(5))]),
            rule_for(
                "a",
                vec![("display", word("block")), ("height", len(10)), ("margin-top", len(1)), ("margin-bottom", len(2))],
            ),
            rule_for(
                "b",
                vec![("display", word("block")), ("height", len(20)), ("border-top", len(3)), ("padding-bottom", len(4))],
            ),
            rule_for(
                "c",
                vec![("display", word("block")), ("height", len(30)), ("padding-top", len(5)), ("margin-top", len(6))],
            ),
        ],
    };
    let styled = build_style_tree(&doc, &sheet);
    let mut viewport = Dimensions::viewport(400 * PX);
    viewport.content.y = 100 * PX;
    let tree = build_layout_tree(&styled, &viewport).unwrap();
    assert_eq!(tree.dimensions.content.y, 107 * PX);
    assert_eq!(tree.dimensions.content.x, 5 * PX);
    assert_eq!(tree.dimensions.content.width, 395 * PX);
    let a = &tree.children[0].dimensions;
    let b = &tree.children[1].dimensions;
    let c = &tree.children[2].dimensions;
    // margin boxes: a = 10 + 1 + 2 = 13, b = 20 + 3 + 4 = 27, c = 30 + 5 + 6 = 41
    assert_eq!(a.content.y, (107 + 1) * PX);
    assert_eq!(b.content.y, (107 + 13 + 3) * PX);
    assert_eq!(c.content.y, (107 + 13 + 27 + 5 + 6) * PX);
    assert_eq!(a.content.x, 5 * PX);
    assert_eq!(tree.dimensions.content.height, 81 * PX);
    assert_eq!(a.margin_box().unwrap().height, 13 * PX);
    assert_eq!(b.margin_box().unwrap().height, 27 * PX);
    assert_eq!(c.margin_box().unwrap().height, 41 * PX);
}

#[test]
fn hidden_subtrees_get_no_box() {
    let doc = node(
        "body",
        vec![
            node("a", vec![]),
            node("gone", vec![node("b", vec![text_node("x".to_string())])]),
            node("c", vec![node("gone", vec![]), node("a", vec![])]),
        ],
    );
    let sheet = StyleSheet {
        rules: vec![
            rule_for("body", vec![("display", word("block"))]),
            rule_for("a", vec![("display", word("block"))]),
            rule_for("b", vec![("display", word("block"))]),
            rule_for("gone", vec![("display", word("none"))]),
        ],
    };
    let styled = build_style_tree(&doc, &sheet);
    let tree = build_box_tree(&styled).unwrap();
    assert_eq!(tree.children.len(), 2);
    assert_eq!(tree.children[0].box_type, BoxType::BlockNode);
    assert!(std::ptr::eq(tree.children[0].styled_node, &styled.children[0]));
    assert_eq!(tree.children[0].children.len(), 0);
    assert_eq!(tree.children[1].box_type, BoxType::InlineNode);
    assert!(std::ptr::eq(tree.children[1].styled_node, &styled.children[2]));
    assert_eq!(tree.children[1].children.len(), 1);
    assert!(std::ptr::eq(tree.children[1].children[0].styled_node, &styled.children[2].children[1]));
    assert_eq!(tree.dimensions, Dimensions::default());
}

#[test]
fn inline_boxes_are_left_alone() {
    let doc = node("body", vec![node("span", vec![node("a", vec![])]), node("a", vec![])]);
    let sheet = StyleSheet {
        rules: vec![
            rule_for("body", vec![("display", word("block"))]),
            rule_for("span", vec![("width", len(10)), ("height", len(10)), ("margin-top", len(10))]),
            rule_for("a", vec![("display", word("block")), ("height", len(8))]),
        ],
    };
    let styled = build_style_tree(&doc, &sheet);
    let tree = build_layout_tree(&styled, &Dimensions::viewport(400 * PX)).unwrap();
    let span = &tree.children[0];
    assert_eq!(span.box_type, BoxType::InlineNode);
    assert_eq!(span.dimensions, Dimensions::default());
    assert_eq!(span.children[0].dimensions, Dimensions::default());
    assert_eq!(tree.children[1].dimensions.content.y, 0);
    assert_eq!(tree.dimensions.content.height, 8 * PX);
}

#[test]
fn layout_is_the_same_every_time() {
    let doc = node("body", vec![node("a", vec![text_node("some text to measure".to_string())])]);
    let sheet = StyleSheet {
        rules: vec![
            rule_for("body", vec![("display", word("block")), ("margin-left", word("auto")), ("width", len(77))]),
            rule_for("a", vec![("display", word("block")), ("padding-top", len(3))]),
        ],
    };
    let styled = build_style_tree(&doc, &sheet);
    let first = build_layout_tree(&styled, &Dimensions::viewport(400 * PX)).unwrap();
    let second = build_layout_tree(&styled, &Dimensions::viewport(400 * PX)).unwrap();
    fn dims(b: &LayoutBox, out: &mut Vec<Dimensions>) {
        out.push(b.dimensions);
        for c in &b.children {
            dims(c, out);
        }
    }
    let (mut one, mut two) = (Vec::new(), Vec::new());
    dims(&first, &mut one);
    dims(&second, &mut two);
    assert_eq!(one.len(), 3);
    assert_eq!(one, two);
    // laying out what is laid out already changes nothing
    let mut again = first;
    again.compute_dimensions(&Dimensions::viewport(400 * PX)).unwrap();
    let mut three = Vec::new();
    dims(&again, &mut three);
    assert_eq!(one, three);
}

#[test]
fn text_height_estimate() {
    assert_eq!(estimate_text_height(10, 12, 100), Ok(24));
    assert_eq!(estimate_text_height(100, 12, 100), Ok(84));
    assert_eq!(estimate_text_height(101, 12, 100), Ok(96));
    assert_eq!(estimate_text_height(1, 1, 1000), Ok(2));
    assert_eq!(estimate_text_height(0, 12, 100), Ok(12));
    assert_eq!(estimate_text_height(0, 12, 0), Ok(12));
    assert_eq!(estimate_text_height(5, 0, 100), Ok(0));
    assert_eq!(estimate_text_height(5, 0, 0), Ok(0));
    assert_eq!(estimate_text_height(5, 12, 0), Err(LayoutError::Overflow));
    assert_eq!(estimate_text_height(usize::MAX, i64::MAX, 1), Err(LayoutError::Overflow));
    // a quotient below zero rounds up towards zero
    assert_eq!(estimate_text_height(10, 12, -100), Ok(12));
    assert_eq!(estimate_text_height(100, 12, -100), Ok(-60));
    assert_eq!(estimate_text_height(10, -12, -100), Ok(-24));
}

#[test]
fn text_box_takes_the_width_of_its_container() {
    let doc = node("p", vec![text_node("0123456789".to_string())]);
    let sheet = StyleSheet {
        rules: vec![rule_for(
            "p",
            vec![("display", word("block")), ("width", len(30)), ("margin-left", len(4)), ("font-size", len(20))],
        )],
    };
    let styled = build_style_tree(&doc, &sheet);
    let tree = build_layout_tree(&styled, &Dimensions::viewport(400 * PX)).unwrap();
    let text = &tree.children[0];
    assert_eq!(text.box_type, BoxType::TextNode);
    // the text node has no properties of its own: font 12, ten characters of width 6 in 30
    assert_eq!(text.dimensions.content, Rect { x: 4 * PX, y: 0, width: 30 * PX, height: 36 * PX });
    assert_eq!(tree.dimensions.content.height, 36 * PX);
}

#[test]
fn text_box_over_an_element_is_refused() {
    let doc = node("p", vec![]);
    let sheet = StyleSheet { rules: vec![] };
    let styled = build_style_tree(&doc, &sheet);
    let mut made = LayoutBox::new(&styled).unwrap();
    assert_eq!(made.box_type, BoxType::InlineNode);
    assert_eq!(made.get_text(), None);
    made.box_type = BoxType::TextNode;
    assert_eq!(made.compute_text_height(&Dimensions::viewport(400 * PX)), Err(LayoutError::NotText));
    // the height step fails and leaves the box as it was
    assert_eq!(made.dimensions, Dimensions::default());
    assert_eq!(made.compute_dimensions(&Dimensions::viewport(400 * PX)), Err(LayoutError::NotText));
    made.box_type = BoxType::AnonymousBlock;
    let before = made.dimensions;
    assert_eq!(made.compute_dimensions(&Dimensions::viewport(400 * PX)), Ok(()));
    assert_eq!(made.dimensions, before);
}

#[test]
fn boxes_around_the_content() {
    let d = Dimensions {
        content: Rect { x: 100, y: 200, width: 30, height: 40 },
        padding: EdgeSizes { top: 1, bottom: 2, left: 3, right: 4 },
        border: EdgeSizes { top: 10, bottom: 20, left: 30, right: 40 },
        margin: EdgeSizes { top: 100, bottom: 200, left: 300, right: 400 },
    };
    assert_eq!(d.padding_box(), Some(Rect { x: 97, y: 199, width: 37, height: 43 }));
    assert_eq!(d.border_box(), Some(Rect { x: 67, y: 189, width: 107, height: 73 }));
    assert_eq!(d.margin_box(), Some(Rect { x: -233, y: 89, width: 807, height: 373 }));
    assert_eq!(
        d.content.expanded_by(&EdgeSizes { top: -1, bottom: 0, left: 0, right: -30 }),
        Some(Rect { x: 100, y: 201, width: 0, height: 39 })
    );
    let far = Dimensions {
        content: Rect { x: i64::MIN, y: 0, width: 0, height: 0 },
        padding: EdgeSizes { top: 0, bottom: 0, left: 1, right: 0 },
        border: EdgeSizes { top: 0, bottom: 0, left: -1, right: 0 },
        margin: EdgeSizes { top: 0, bottom: 0, left: 0, right: 0 },
    };
    assert_eq!(far.padding_box(), None);
    assert_eq!(far.border_box(), Some(Rect { x: i64::MIN, y: 0, width: 0, height: 0 }));
}
