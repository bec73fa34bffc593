use minibrowser::css::{Declaration, Rule, Selector, SimpleSelector, StyleSheet, Unit, Value};
use minibrowser::dom::{element_node, text_node, AttrMap, ElementData, Node, NodeType};
use minibrowser::strmap::StrMap;
use minibrowser::style::{
    build_style_tree, get_matching_properties, get_matching_rules, selectors_match_node,
    simple_selector_matches_node, Display,
};

fn selector(tag: Option<&str>, id: Option<&str>, classes: &[&str]) -> SimpleSelector {
    SimpleSelector {
        tag_name: tag.map(|t| t.to_string()),
        id: id.map(|i| i.to_string()),
        classes: classes.iter().map(|c| c.to_string()).collect(),
    }
}

fn rule(sel: SimpleSelector, declarations: Vec<(&str, Value)>) -> Rule {
    Rule {
        selectors: vec![Selector::Simple(sel)],
        declarations: declarations
            .into_iter()
            .map(|(name, value)| Declaration { name: name.to_string(), value })
            .collect(),
    }
}

fn keyword(k: &str) -> Value {
    Value::Keyword(k.to_string())
}

fn attrs(pairs: &[(&str, &str)]) -> AttrMap {
    let mut map = AttrMap::new();
    for (k, v) in pairs {
        map.insert(k.to_string(), v.to_string());
    }
    map
}

fn element_data(tag: &str, pairs: &[(&str, &str)]) -> ElementData {
    ElementData { tag_name: tag.to_string(), attributes: attrs(pairs) }
}

fn styled_display(value: Option<Value>) -> Display {
    let doc = element_node("p".to_string(), AttrMap::new(), vec![]);
    let declarations = match value {
        Some(v) => vec![("display", v)],
        None => vec![],
    };
    let sheet = StyleSheet { rules: vec![rule(selector(Some("p"), None, &[]), declarations)] };
    let styled = build_style_tree(&doc, &sheet);
    styled.get_display()
}

#[test]
fn display_block_for_the_keyword_block() {
    assert_eq!(styled_display(Some(keyword("block"))), Display::Block);
}

#[test]
fn display_hidden_for_the_keyword_none() {
    assert_eq!(styled_display(Some(keyword("none"))), Display::Hidden);
}

#[test]
fn display_inline_for_any_other_value() {
    assert_eq!(styled_display(Some(keyword("inline"))), Display::Inline);
    assert_eq!(styled_display(Some(keyword("flex"))), Display::Inline);
    assert_eq!(styled_display(Some(keyword("Block"))), Display::Inline);
    assert_eq!(styled_display(Some(Value::Length(3, Unit::Px))), Display::Inline);
}

#[test]
fn display_inline_where_none_is_declared() {
    assert_eq!(styled_display(None), Display::Inline);
}

#[test]
fn map_keeps_the_last_value_of_a_name() {
    let mut map: StrMap<i64> = StrMap::new();
    assert_eq!(map.get("a"), None);
    map.insert("a".to_string(), 1);
    map.insert("b".to_string(), 2);
    map.insert("a".to_string(), 3);
    assert_eq!(map.get("a"), Some(&3));
    assert_eq!(map.get("b"), Some(&2));
    assert_eq!(map.get("c"), None);
    assert_eq!(map.get(""), None);
}

#[test]
fn id_and_classes_are_read_from_the_attributes() {
    let elem = element_data("p", &[("id", "main"), ("class", "  note \t big\nnote ")]);
    assert_eq!(elem.id(), Some(&"main".to_string()));
    assert_eq!(elem.classes(), vec!["note".to_string(), "big".to_string()]);
    let twice = element_data("p", &[("class", "a  b\ta")]);
    assert_eq!(twice.classes(), vec!["a".to_string(), "b".to_string()]);
    let bare = element_data("p", &[]);
    assert_eq!(bare.id(), None);
    assert_eq!(bare.classes(), Vec::<String>::new());
    let blank = element_data("p", &[("class", "   ")]);
    assert_eq!(blank.classes(), Vec::<String>::new());
}

#[test]
fn selector_matches_on_tag_id_and_classes() {
    let elem = element_data("p", &[("id", "main"), ("class", "note big")]);
    assert!(simple_selector_matches_node(&selector(None, None, &[]), &elem));
    assert!(simple_selector_matches_node(&selector(Some("p"), None, &[]), &elem));
    assert!(!simple_selector_matches_node(&selector(Some("pp"), None, &[]), &elem));
    assert!(!simple_selector_matches_node(&selector(Some("div"), None, &[]), &elem));
    assert!(simple_selector_matches_node(&selector(None, Some("main"), &[]), &elem));
    assert!(!simple_selector_matches_node(&selector(None, Some("other"), &[]), &elem));
    assert!(simple_selector_matches_node(&selector(None, None, &["big", "note"]), &elem));
    assert!(!simple_selector_matches_node(&selector(None, None, &["big", "small"]), &elem));
    assert!(!simple_selector_matches_node(&selector(None, None, &["note big"]), &elem));
    assert!(simple_selector_matches_node(&selector(Some("p"), Some("main"), &["note"]), &elem));
    assert!(!simple_selector_matches_node(&selector(Some("p"), Some("main"), &["x"]), &elem));
}

#[test]
fn selector_with_an_id_does_not_match_an_element_without_one() {
    let elem = element_data("p", &[]);
    assert!(!simple_selector_matches_node(&selector(None, Some("main"), &[]), &elem));
    assert!(!simple_selector_matches_node(&selector(None, None, &["note"]), &elem));
}

#[test]
fn a_rule_matches_if_any_of_its_selectors_does() {
    let elem = element_data("p", &[]);
    let none: Vec<Selector> = vec![];
    assert!(!selectors_match_node(&none, &elem));
    let some = vec![
        Selector::Simple(selector(Some("div"), None, &[])),
        Selector::Simple(selector(Some("p"), None, &[])),
    ];
    assert!(selectors_match_node(&some, &elem));
    let other = vec![Selector::Simple(selector(Some("div"), None, &[]))];
    assert!(!selectors_match_node(&other, &elem));
}

#[test]
fn the_later_rule_wins_whatever_the_selectors() {
    let elem = element_data("p", &[("id", "main")]);
    let sheet = StyleSheet {
        rules: vec![
            rule(selector(None, Some("main"), &[]), vec![("color", keyword("red")), ("width", keyword("auto"))]),
            rule(selector(Some("div"), None, &[]), vec![("color", keyword("green"))]),
            rule(selector(Some("p"), None, &[]), vec![("color", keyword("blue")), ("color", keyword("black"))]),
        ],
    };
    let matching = get_matching_rules(&elem, &sheet);
    assert_eq!(matching.len(), 2);
    assert!(std::ptr::eq(matching[0], &sheet.rules[0]));
    assert!(std::ptr::eq(matching[1], &sheet.rules[2]));
    let props = get_matching_properties(&elem, &sheet);
    assert_eq!(props.get("color"), Some(&keyword("black")));
    assert_eq!(props.get("width"), Some(&keyword("auto")));
    assert_eq!(props.get("height"), None);
}

fn shape(node: &Node) -> String {
    let own = match &node.node_type {
        NodeType::Text(t) => format!("'{}'", t),
        NodeType::Element(e) => e.tag_name.clone(),
    };
    let below: Vec<String> = node.children.iter().map(shape).collect();
    format!("{}[{}]", own, below.join(","))
}

#[test]
fn styled_tree_has_the_shape_of_the_document() {
    let doc = element_node(
        "body".to_string(),
        AttrMap::new(),
        vec![
            element_node("p".to_string(), AttrMap::new(), vec![text_node("hello".to_string())]),
            element_node("div".to_string(), AttrMap::new(), vec![]),
        ],
    );
    let sheet = StyleSheet {
        rules: vec![
            rule(selector(Some("p"), None, &[]), vec![("display", keyword("none"))]),
            rule(selector(Some("div"), None, &[]), vec![("display", keyword("block"))]),
        ],
    };
    let styled = build_style_tree(&doc, &sheet);
    assert_eq!(shape(styled.html_node), "body[p['hello'[]],div[]]");
    assert_eq!(styled.children.len(), 2);
    assert_eq!(styled.get_property("display"), None);
    let p = &styled.children[0];
    assert_eq!(shape(p.html_node), "p['hello'[]]");
    assert_eq!(p.get_display(), Display::Hidden);
    // the text below a hidden node is still styled, with no properties
    assert_eq!(p.children.len(), 1);
    assert_eq!(p.children[0].get_property("display"), None);
    assert_eq!(p.children[0].get_display(), Display::Inline);
    assert_eq!(styled.children[1].get_display(), Display::Block);
}

#[test]
fn value_in_pixels() {
    assert_eq!(Value::Length(42, Unit::Px).to_px(), 42);
    assert_eq!(Value::Length(-7, Unit::Px).to_px(), -7);
    assert_eq!(keyword("auto").to_px(), 0);
    assert!(keyword("auto").is_auto());
    assert!(!keyword("Auto").is_auto());
    assert!(!Value::Length(0, Unit::Px).is_auto());
    assert_eq!(keyword("a").clone(), keyword("a"));
    assert_ne!(keyword("a"), keyword("b"));
    assert_ne!(Value::Length(1, Unit::Px), Value::Length(2, Unit::Px));
}

#[test]
fn each_class_is_kept_once() {
    let list: Vec<String> = ["b", "a", "b", "c", "a", "b"].iter().map(|s| s.to_string()).collect();
    assert_eq!(minibrowser::chars::keep_first(list), vec!["b".to_string(), "a".to_string(), "c".to_string()]);
    assert_eq!(minibrowser::chars::keep_first(vec![]), Vec::<String>::new());
    let elem = element_data("p", &[("class", "x y x")]);
    assert!(simple_selector_matches_node(&selector(None, None, &["x", "y", "x"]), &elem));
}

#[test]
fn numbers_in_decimal() {
    assert_eq!(minibrowser::chars::int_text(0), "0");
    assert_eq!(minibrowser::chars::int_text(7), "7");
    assert_eq!(minibrowser::chars::int_text(-7), "-7");
    assert_eq!(minibrowser::chars::int_text(1005), "1005");
    assert_eq!(minibrowser::chars::int_text(i64::MAX), "9223372036854775807");
    assert_eq!(minibrowser::chars::int_text(i64::MIN), "-9223372036854775808");
    assert_eq!(minibrowser::chars::digits_text(u64::MAX), "18446744073709551615");
}
