use minibrowser::css::{self, Color, Selector, Unit, Value};
use minibrowser::dom::{Node, NodeType};
use minibrowser::html;

fn sheet(text: &str) -> Option<css::StyleSheet> {
    let mut source = text.to_string();
    css::parse(&mut source)
}

fn outline(node: &Node) -> String {
    let own = match &node.node_type {
        NodeType::Text(t) => format!("'{}'", t),
        NodeType::Element(e) => e.tag_name.clone(),
    };
    let below: Vec<String> = node.children.iter().map(outline).collect();
    format!("{}[{}]", own, below.join(","))
}

#[test]
fn style_sheet_with_two_rules() {
    let mut source = "\nbody {\n  background-color:#80abAA;\n  letter-spacing:10.5px;\n}\np {\n  font-style:italic;\n  font-family:times;\n}\n"
        .to_string();
    let parsed = css::parse(&mut source).unwrap();
    assert_eq!(source, "");
    assert_eq!(parsed.rules.len(), 2);
    let body = &parsed.rules[0];
    assert_eq!(body.selectors.len(), 1);
    let Selector::Simple(sel) = &body.selectors[0];
    assert_eq!(sel.tag_name, Some("body".to_string()));
    assert_eq!(sel.id, None);
    assert!(sel.classes.is_empty());
    assert_eq!(body.declarations.len(), 2);
    assert_eq!(body.declarations[0].name, "background-color");
    assert_eq!(body.declarations[0].value, Value::Color(Color { r: 0x80, g: 0xab, b: 0xaa }));
    assert_eq!(body.declarations[1].name, "letter-spacing");
    assert_eq!(body.declarations[1].value, Value::Length(10_500, Unit::Px));
    let p = &parsed.rules[1];
    assert_eq!(p.declarations[0].name, "font-style");
    assert_eq!(p.declarations[0].value, Value::Keyword("italic".to_string()));
    assert_eq!(p.declarations[1].value, Value::Keyword("times".to_string()));
}

#[test]
fn empty_style_sheet() {
    assert_eq!(sheet("").unwrap().rules.len(), 0);
    assert_eq!(sheet(" \n\t ").unwrap().rules.len(), 0);
}

#[test]
fn selectors_of_each_kind() {
    let parsed = sheet("#main, .note ,p div{}").unwrap();
    assert_eq!(parsed.rules.len(), 1);
    let sels = &parsed.rules[0].selectors;
    assert_eq!(sels.len(), 4);
    let Selector::Simple(a) = &sels[0];
    assert_eq!((a.tag_name.clone(), a.id.clone(), a.classes.clone()), (None, Some("main".to_string()), vec![]));
    let Selector::Simple(b) = &sels[1];
    assert_eq!((b.tag_name.clone(), b.id.clone(), b.classes.clone()), (None, None, vec!["note".to_string()]));
    let Selector::Simple(c) = &sels[2];
    assert_eq!(c.tag_name, Some("p".to_string()));
    let Selector::Simple(d) = &sels[3];
    assert_eq!(d.tag_name, Some("div".to_string()));
    assert!(parsed.rules[0].declarations.is_empty());
}

#[test]
fn rule_without_selectors() {
    let parsed = sheet("{a:b;}").unwrap();
    assert_eq!(parsed.rules[0].selectors.len(), 0);
    assert_eq!(parsed.rules[0].declarations.len(), 1);
}

#[test]
fn lengths_are_read_in_thousandths() {
    let parsed =
        sheet("p{a:0px;b:12px;c:7.px;d:3.99em;e:0.5px;f:1.0625px;g:0.0009px;h:9223372036854775.807px;}").unwrap();
    let values: Vec<&Value> = parsed.rules[0].declarations.iter().map(|d| &d.value).collect();
    assert_eq!(values[0], &Value::Length(0, Unit::Px));
    assert_eq!(values[1], &Value::Length(12_000, Unit::Px));
    assert_eq!(values[2], &Value::Length(7_000, Unit::Px));
    assert_eq!(values[3], &Value::Length(3_990, Unit::Px));
    assert_eq!(values[4], &Value::Length(500, Unit::Px));
    assert_eq!(values[5], &Value::Length(1_062, Unit::Px));
    assert_eq!(values[6], &Value::Length(0, Unit::Px));
    assert_eq!(values[7], &Value::Length(i64::MAX, Unit::Px));
}

#[test]
fn malformed_lengths_are_refused() {
    assert!(sheet("p{a:9223372036854775.808px;}").is_none());
    assert!(sheet("p{a:9223372036854776px;}").is_none());
    assert!(sheet("p{a:99999999999999999999999999px;}").is_none());
    assert!(sheet("p{a:1.2.3px;}").is_none());
    assert!(sheet("p{a:1-2px;}").is_none());
    assert!(sheet("p{a:10 px;}").is_none());
    assert!(sheet("p{a:10;}").is_none());
    assert!(sheet("p{a:10px").is_none());
    assert!(sheet("p{a:1e5px;}").is_none());
}

#[test]
fn colours_are_three_channels() {
    let parsed = sheet("p{a:#000000;b:#ffFFff;c:#+a0b+F;}").unwrap();
    let values: Vec<&Value> = parsed.rules[0].declarations.iter().map(|d| &d.value).collect();
    assert_eq!(values[0], &Value::Color(Color { r: 0, g: 0, b: 0 }));
    assert_eq!(values[1], &Value::Color(Color { r: 255, g: 255, b: 255 }));
    assert_eq!(values[2], &Value::Color(Color { r: 10, g: 11, b: 15 }));
}

#[test]
fn malformed_colours_are_refused() {
    assert!(sheet("p{a:#12345;}").is_none());
    assert!(sheet("p{a:#12345g;}").is_none());
    assert!(sheet("p{a:#-12345;}").is_none());
    assert!(sheet("p{a:#1+2345;}").is_none());
    assert!(sheet("p{a:#").is_none());
}

#[test]
fn malformed_declarations_are_refused_and_leave_the_source() {
    let mut source = "p{color: red;}".to_string();
    assert!(css::parse(&mut source).is_none());
    assert_eq!(source, "p{color: red;}");
    assert!(sheet("p{color:red}").is_none());
    assert!(sheet("p{color red;}").is_none());
    assert!(sheet("p{color:red;").is_none());
    assert!(sheet("p{color:").is_none());
    assert!(sheet("p").is_none());
    assert!(sheet("p,{}").is_none());
    assert!(sheet("*{}").is_none());
    assert!(sheet("p{;}").is_none());
}

#[test]
fn spaces_and_stray_semicolons_in_a_block() {
    let parsed = sheet("p { a :b ;;c:d; }").unwrap();
    let decls = &parsed.rules[0].declarations;
    assert_eq!(decls.len(), 2);
    assert_eq!(decls[0].name, "a");
    assert_eq!(decls[0].value, Value::Keyword("b".to_string()));
    assert_eq!(decls[1].name, "c");
}

#[test]
fn markup_with_elements_text_and_attributes() {
    let source = "<body><p toto = \"tutu\"  tata=\"lol\" >\n  test text node\n</p><dummy> other </dummy></body>";
    let nodes = html::parse(source.to_string()).unwrap();
    assert_eq!(nodes.len(), 1);
    assert_eq!(outline(&nodes[0]), "body[p['\n  test text node\n'[]],dummy[' other '[]]]");
    match &nodes[0].children[0].node_type {
        NodeType::Element(e) => {
            assert_eq!(e.attributes.get("toto"), Some(&"tutu".to_string()));
            assert_eq!(e.attributes.get("tata"), Some(&"lol".to_string()));
            assert_eq!(e.attributes.get("titi"), None);
        },
        NodeType::Text(_) => panic!("an element was expected"),
    }
}

#[test]
fn markup_of_several_nodes() {
    let nodes = html::parse("one<a></a>two<b></ b>".to_string()).unwrap();
    let outlines: Vec<String> = nodes.iter().map(outline).collect();
    assert_eq!(outlines, vec!["'one'[]", "a[]", "'two'[]", "b[]"]);
    assert_eq!(html::parse("".to_string()).unwrap().len(), 0);
}

#[test]
fn markup_stops_at_a_closing_tag_that_closes_nothing() {
    let nodes = html::parse("text</p>more".to_string()).unwrap();
    assert_eq!(nodes.len(), 1);
    assert_eq!(outline(&nodes[0]), "'text'[]");
}

#[test]
fn a_repeated_attribute_keeps_its_last_value() {
    let nodes = html::parse("<p a=\"1\" a=\"2\"></p>".to_string()).unwrap();
    match &nodes[0].node_type {
        NodeType::Element(e) => assert_eq!(e.attributes.get("a"), Some(&"2".to_string())),
        NodeType::Text(_) => panic!("an element was expected"),
    }
}

#[test]
fn malformed_markup_is_refused() {
    assert!(html::parse("<p>".to_string()).is_none());
    assert!(html::parse("<p></q>".to_string()).is_none());
    assert!(html::parse("<p></p".to_string()).is_none());
    assert!(html::parse("<p></p >".to_string()).is_none());
    assert!(html::parse("<p a></p>".to_string()).is_none());
    assert!(html::parse("<p a=b></p>".to_string()).is_none());
    assert!(html::parse("<p a=\"b c\"></p>".to_string()).is_none());
    assert!(html::parse("<p".to_string()).is_none());
    assert!(html::parse("<".to_string()).is_none());
}
