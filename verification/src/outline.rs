//! Trees written out as indented outlines, one node to a line.

use vstd::prelude::*;
use crate::chars::{
    decimal_text, digit, digit_char, digits_of, digits_text, distance, int_text, push_char, quoted,
    quoted_text,
};
use crate::css::Value;
use crate::dom::{Node, NodeType};
use crate::strmap::{is_live, StrMap};
use crate::style::StyledNode;

verus! {

/// The first fifty characters of `text`, or all of it where it has no
/// more.
pub open spec fn shortened(text: Seq<char>) -> Seq<char> {
    if text.len() > 50 {
        text.take(50)
    } else {
        text
    }
}

/// The digits for `f` thousandths after a decimal point: as many as it
/// takes, and at least one.
pub open spec fn fraction_text(f: int) -> Seq<char>
    recommends
        0 <= f < 1000,
{
    if f % 100 == 0 {
        seq![digit_char(f / 100)]
    } else if f % 10 == 0 {
        seq![digit_char(f / 100), digit_char(f / 10 % 10)]
    } else {
        seq![digit_char(f / 100), digit_char(f / 10 % 10), digit_char(f % 10)]
    }
}

/// A length of `n` thousandths of a pixel written in pixels, as a decimal
/// number with a point.
pub open spec fn length_text(n: int) -> Seq<char> {
    let m = if n < 0 {
        -n
    } else {
        n
    };
    (if n < 0 {
        seq!['-']
    } else {
        Seq::empty()
    }) + digits_of(m / 1000) + seq!['.'] + fraction_text(m % 1000)
}

/// A value as it is shown in an outline.
pub open spec fn value_text(v: Value) -> Seq<char> {
    match v {
        Value::Keyword(k) => "Keyword("@ + quoted(k@) + ")"@,
        Value::Length(n, _) => "Length("@ + length_text(n as int) + ", Px)"@,
        Value::Color(c) => "Color(Color { r: "@ + decimal_text(c.r as int) + ", g: "@ + decimal_text(
            c.g as int,
        ) + ", b: "@ + decimal_text(c.b as int) + " })"@,
    }
}

/// `before` with one more `name=value`, after `, ` where something stands
/// before it.
pub open spec fn with_entry(before: Seq<char>, name: Seq<char>, value: Seq<char>) -> Seq<char> {
    (if before.len() == 0 {
        before
    } else {
        before + ", "@
    }) + name + "="@ + value
}

/// Those of the first `k` attributes that count, each as `name=value`, in
/// their order and with `, ` between them.
pub open spec fn attributes_listed(entries: Seq<(String, String)>, k: int) -> Seq<char>
    decreases k,
{
    if k <= 0 || k > entries.len() {
        Seq::empty()
    } else if !is_live(entries, k - 1) {
        attributes_listed(entries, k - 1)
    } else {
        with_entry(attributes_listed(entries, k - 1), entries[k - 1].0@, entries[k - 1].1@)
    }
}

/// Those of the first `k` properties that count, each as `name=value`, in
/// their order and with `, ` between them.
pub open spec fn properties_listed(entries: Seq<(String, Value)>, k: int) -> Seq<char>
    decreases k,
{
    if k <= 0 || k > entries.len() {
        Seq::empty()
    } else if !is_live(entries, k - 1) {
        properties_listed(entries, k - 1)
    } else {
        with_entry(properties_listed(entries, k - 1), entries[k - 1].0@, value_text(entries[k - 1].1))
    }
}

/// The attributes of an element as they are shown in an outline.
pub open spec fn attributes_text(attributes: StrMap<String>) -> Seq<char> {
    attributes_listed(attributes.entries@, attributes.entries@.len() as int)
}

/// The properties of a styled node as they are shown in an outline.
pub open spec fn properties_text(properties: StrMap<Value>) -> Seq<char> {
    properties_listed(properties.entries@, properties.entries@.len() as int)
}

/// The line for a document node: its text, shortened, or its tag name
/// with its attributes in brackets.
pub open spec fn node_line(node: Node, prefix: Seq<char>) -> Seq<char> {
    match node.node_type {
        NodeType::Text(text) => prefix + shortened(text@) + "\n"@,
        NodeType::Element(element) => prefix + element.tag_name@ + " ("@ + attributes_text(
            element.attributes,
        ) + ")\n"@,
    }
}

/// The outline of the tree below `node`: the line of the node after
/// `prefix`, then the outlines of its children, indented by four more
/// spaces.
pub open spec fn node_outline(node: Node, prefix: Seq<char>) -> Seq<char>
    decreases node, 0int,
{
    node_line(node, prefix) + nodes_outline(node.children@, node.children@.len() as int, prefix + "    "@)
}

/// The outlines of the first `k` of `nodes`, one after the other.
pub open spec fn nodes_outline(nodes: Seq<Node>, k: int, prefix: Seq<char>) -> Seq<char>
    decreases nodes, k,
{
    if k <= 0 || k > nodes.len() {
        Seq::empty()
    } else {
        nodes_outline(nodes, k - 1, prefix) + node_outline(nodes[k - 1], prefix)
    }
}

/// The line for a styled node: the text of a text node, shortened, or the
/// tag name of an element with its computed properties in brackets.
pub open spec fn styled_line(node: StyledNode, prefix: Seq<char>) -> Seq<char> {
    match node.html_node.node_type {
        NodeType::Text(text) => prefix + shortened(text@) + "\n"@,
        NodeType::Element(element) => prefix + element.tag_name@ + " ("@ + properties_text(
            node.properties,
        ) + ")\n"@,
    }
}

/// The outline of the styled tree below `node`.
pub open spec fn styled_outline(node: StyledNode, prefix: Seq<char>) -> Seq<char>
    decreases node, 0int,
{
    styled_line(node, prefix) + styled_nodes_outline(
        node.children@,
        node.children@.len() as int,
        prefix + "    "@,
    )
}

/// The outlines of the first `k` of `nodes`, one after the other.
pub open spec fn styled_nodes_outline(nodes: Seq<StyledNode>, k: int, prefix: Seq<char>) -> Seq<char>
    decreases nodes, k,
{
    if k <= 0 || k > nodes.len() {
        Seq::empty()
    } else {
        styled_nodes_outline(nodes, k - 1, prefix) + styled_outline(nodes[k - 1], prefix)
    }
}

/// The first fifty characters of `text`.
fn shorten(text: &String) -> (r: &str)
    ensures
        r@ == shortened(text@),
{
    let all = text.as_str();
    if all.unicode_len() > 50 {
        all.substring_char(0, 50)
    } else {
        all
    }
}

/// Writes a length in pixels, as a decimal number with a point.
fn show_length(n: i64) -> (r: String)
    ensures
        r@ == length_text(n as int),
{
    let m: u64 = distance(n);
    let mut r = String::new();
    if n < 0 {
        push_char(&mut r, '-');
    }
    r.append(digits_text(m / 1000).as_str());
    push_char(&mut r, '.');
    let f: u64 = m % 1000;
    let ghost before = r@;
    push_char(&mut r, digit((f / 100) as u8));
    if f % 100 != 0 {
        push_char(&mut r, digit((f / 10 % 10) as u8));
        if f % 10 != 0 {
            push_char(&mut r, digit((f % 10) as u8));
        }
    }
    assert(r@ =~= before + fraction_text(f as int));
    assert(r@ =~= length_text(n as int));
    r
}

/// Writes a value as it is shown in an outline.
fn show_value(v: &Value) -> (r: String)
    ensures
        r@ == value_text(*v),
{
    match v {
        Value::Keyword(k) => {
            let mut r = String::from_str("Keyword(");
            r.append(quoted_text(k.as_str()).as_str());
            r.append(")");
            r
        },
        Value::Length(n, _) => {
            let mut r = String::from_str("Length(");
            r.append(show_length(*n).as_str());
            r.append(", Px)");
            r
        },
        Value::Color(c) => {
            let mut r = String::from_str("Color(Color { r: ");
            r.append(int_text(c.r as i64).as_str());
            r.append(", g: ");
            r.append(int_text(c.g as i64).as_str());
            r.append(", b: ");
            r.append(int_text(c.b as i64).as_str());
            r.append(" })");
            r
        },
    }
}

/// Writes the attributes of an element as they are shown in an outline.
fn show_attributes(attributes: &StrMap<String>) -> (r: String)
    ensures
        r@ == attributes_text(*attributes),
{
    let mut r = String::new();
    let n: usize = attributes.entries.len();
    let mut i: usize = 0;
    while i < n
        invariant
            i <= n,
            n == attributes.entries@.len(),
            r@ == attributes_listed(attributes.entries@, i as int),
        decreases n - i,
    {
        let ghost before = r@;
        if attributes.counts(i) {
            if r.as_str().unicode_len() != 0 {
                r.append(", ");
            }
            r.append(attributes.entries[i].0.as_str());
            r.append("=");
            r.append(attributes.entries[i].1.as_str());
            assert(r@ =~= with_entry(before, attributes.entries@[i as int].0@, attributes.entries@[i as int].1@));
        }
        i += 1;
    }
    r
}

/// Writes the properties of a styled node as they are shown in an
/// outline.
fn show_properties(properties: &StrMap<Value>) -> (r: String)
    ensures
        r@ == properties_text(*properties),
{
    let mut r = String::new();
    let n: usize = properties.entries.len();
    let mut i: usize = 0;
    while i < n
        invariant
            i <= n,
            n == properties.entries@.len(),
            r@ == properties_listed(properties.entries@, i as int),
        decreases n - i,
    {
        let ghost before = r@;
        if properties.counts(i) {
            if r.as_str().unicode_len() != 0 {
                r.append(", ");
            }
            r.append(properties.entries[i].0.as_str());
            r.append("=");
            r.append(show_value(&properties.entries[i].1).as_str());
            assert(r@ =~= with_entry(before, properties.entries@[i as int].0@, value_text(properties.entries@[i as int].1)));
        }
        i += 1;
    }
    r
}

/// `prefix` with four more spaces.
fn deeper(prefix: &str) -> (r: String)
    ensures
        r@ == prefix@ + "    "@,
{
    let mut r = String::from_str(prefix);
    r.append("    ");
    r
}

/// Appends the outline of the tree below `node` to `out`.
fn write_node(node: &Node, prefix: &str, out: &mut String)
    ensures
        final(out)@ == old(out)@ + node_outline(*node, prefix@),
    decreases node,
{
    out.append(prefix);
    match &node.node_type {
        NodeType::Text(text) => {
            out.append(shorten(text));
            out.append("\n");
        },
        NodeType::Element(element) => {
            out.append(element.tag_name.as_str());
            out.append(" (");
            out.append(show_attributes(&element.attributes).as_str());
            out.append(")\n");
        },
    }
    assert(out@ =~= old(out)@ + node_line(*node, prefix@));
    let inner = deeper(prefix);
    let ghost start = out@;
    let n: usize = node.children.len();
    let mut i: usize = 0;
    assert(start + nodes_outline(node.children@, 0, inner@) =~= start);
    while i < n
        invariant
            i <= n,
            n == node.children@.len(),
            out@ == start + nodes_outline(node.children@, i as int, inner@),
        decreases n - i,
    {
        let ghost before = out@;
        write_node(&node.children[i], inner.as_str(), out);
        assert(out@ =~= start + nodes_outline(node.children@, i + 1, inner@)) by {
            assert(nodes_outline(node.children@, i + 1, inner@) == nodes_outline(
                node.children@,
                i as int,
                inner@,
            ) + node_outline(node.children@[i as int], inner@));
        }
        i += 1;
    }
    assert(out@ =~= old(out)@ + node_outline(*node, prefix@));
}

/// Appends the outline of the styled tree below `node` to `out`.
fn write_styled(node: &StyledNode, prefix: &str, out: &mut String)
    ensures
        final(out)@ == old(out)@ + styled_outline(*node, prefix@),
    decreases node,
{
    out.append(prefix);
    match &node.html_node.node_type {
        NodeType::Text(text) => {
            out.append(shorten(text));
            out.append("\n");
        },
        NodeType::Element(element) => {
            out.append(element.tag_name.as_str());
            out.append(" (");
            out.append(show_properties(&node.properties).as_str());
            out.append(")\n");
        },
    }
    assert(out@ =~= old(out)@ + styled_line(*node, prefix@));
    let inner = deeper(prefix);
    let ghost start = out@;
    let n: usize = node.children.len();
    let mut i: usize = 0;
    assert(start + styled_nodes_outline(node.children@, 0, inner@) =~= start);
    while i < n
        invariant
            i <= n,
            n == node.children@.len(),
            out@ == start + styled_nodes_outline(node.children@, i as int, inner@),
        decreases n - i,
    {
        write_styled(&node.children[i], inner.as_str(), out);
        assert(out@ =~= start + styled_nodes_outline(node.children@, i + 1, inner@)) by {
            assert(styled_nodes_outline(node.children@, i + 1, inner@) == styled_nodes_outline(
                node.children@,
                i as int,
                inner@,
            ) + styled_outline(node.children@[i as int], inner@));
        }
        i += 1;
    }
    assert(out@ =~= old(out)@ + styled_outline(*node, prefix@));
}

impl Node {
    /// The tree below the node as an outline: a line for each node, a text
    /// by its first fifty characters and an element by its tag name and
    /// attributes, the children of a node indented by four spaces.
    pub fn outline(&self) -> (r: String)
        ensures
            r@ == node_outline(*self, Seq::empty()),
    {
        let mut out = String::new();
        let prefix = String::new();
        write_node(self, prefix.as_str(), &mut out);
        assert(Seq::<char>::empty() + node_outline(*self, Seq::empty()) =~= node_outline(
            *self,
            Seq::empty(),
        ));
        out
    }
}

impl<'a> StyledNode<'a> {
    /// The styled tree below the node as an outline: a line for each
    /// node, a text by its first fifty characters and an element by its tag
    /// name and computed properties, the children of a node indented by
    /// four spaces.
    pub fn outline(&self) -> (r: String)
        ensures
            r@ == styled_outline(*self, Seq::empty()),
    {
        let mut out = String::new();
        let prefix = String::new();
        write_styled(self, prefix.as_str(), &mut out);
        assert(Seq::<char>::empty() + styled_outline(*self, Seq::empty()) =~= styled_outline(
            *self,
            Seq::empty(),
        ));
        out
    }
}

} // verus!
