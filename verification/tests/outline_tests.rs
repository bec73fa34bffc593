use minibrowser::css::{self, Value, Unit};
use minibrowser::dom::{element_node, text_node, AttrMap};
use minibrowser::html;
use minibrowser::style::build_style_tree;

#[test]
fn outline_of_a_document() {
    let nodes = html::parse("<body><p toto = \"tutu\"  tata=\"lol\" toto=\"titi\">hello</p><br></br></body>".to_string())
        .unwrap();
    assert_eq!(nodes[0].outline(), "body ()\n    p (tata=lol, toto=titi)\n        hello\n    br ()\n");
}

#[test]
fn outline_shortens_long_text() {
    let long = "0123456789".repeat(6);
    assert_eq!(text_node(long).outline(), format!("{}\n", "0123456789".repeat(5)));
    let fifty = "é".repeat(50);
    assert_eq!(text_node(fifty.clone()).outline(), format!("{}\n", fifty));
    let more = "é".repeat(51);
    assert_eq!(text_node(more).outline(), format!("{}\n", fifty));
    assert_eq!(text_node(String::new()).outline(), "\n");
}

#[test]
fn outline_of_a_styled_tree() {
    let doc = element_node(
        "body".to_string(),
        AttrMap::new(),
        vec![element_node("p".to_string(), AttrMap::new(), vec![text_node("hi".to_string())])],
    );
    let mut source =
        "body{background-color:#80abAA;width:-;width:10.5px;} p{font-style:ita\"lic;margin:0px;}".to_string();
    let sheet = css::parse(&mut source).unwrap();
    let styled = build_style_tree(&doc, &sheet);
    assert_eq!(
        styled.outline(),
        "body (background-color=Color(Color { r: 128, g: 171, b: 170 }), width=Length(10.5, Px))\n    p (font-style=Keyword(\"ita\\\"lic\"), margin=Length(0.0, Px))\n        hi\n"
    );
}

#[test]
fn outline_shows_negative_and_large_lengths() {
    let doc = element_node("p".to_string(), AttrMap::new(), vec![]);
    let sheet = css::StyleSheet { rules: vec![] };
    let mut styled = build_style_tree(&doc, &sheet);
    styled.properties.insert("a".to_string(), Value::Length(i64::MIN, Unit::Px));
    styled.properties.insert("b".to_string(), Value::Length(i64::MAX, Unit::Px));
    styled.properties.insert("c".to_string(), Value::Length(-1, Unit::Px));
    styled.properties.insert("d".to_string(), Value::Length(12_000, Unit::Px));
    styled.properties.insert("e".to_string(), Value::Length(-1_250, Unit::Px));
    styled.properties.insert("f".to_string(), Value::Length(100_070, Unit::Px));
    assert_eq!(
        styled.outline(),
        "p (a=Length(-9223372036854775.808, Px), b=Length(9223372036854775.807, Px), c=Length(-0.001, Px), d=Length(12.0, Px), e=Length(-1.25, Px), f=Length(100.07, Px))\n"
    );
}
