//! Reading a document tree from markup.
//!
//! The markup is a sequence of nodes. A node is a run of text, or an
//! element: an opening tag with attributes, the nodes inside, and a closing
//! tag of the same name. Names and attribute values are runs of
//! alphanumeric characters.

use vstd::prelude::*;
use crate::css::{after_spaces, extend};
use crate::dom::{
    all_node_views, attribute_views, element_node, lemma_node_views_push, text_node, AttrMap,
    ElementView, Node, NodeTypeView, NodeView,
};
use crate::scan::{span, CharClass, Cursor};
use crate::strmap::StrMap;

verus! {

/// A name at the start of `s` after white space, and what follows it.
pub open spec fn parsed_name(s: Seq<char>) -> (Seq<char>, Seq<char>) {
    let s1 = after_spaces(s);
    let n = span(s1, CharClass::Alphanumeric) as int;
    (s1.take(n), s1.skip(n))
}

/// An attribute at the start of `s`, and what follows it: a name, `=`, and
/// a value between double quotes, with white space between them as one
/// likes.
pub open spec fn parsed_attribute(s: Seq<char>) -> Option<((Seq<char>, Seq<char>), Seq<char>)> {
    let (name, s1) = parsed_name(s);
    let s2 = after_spaces(s1);
    if s2.len() == 0 || s2[0] != '=' {
        None
    } else {
        let s3 = after_spaces(s2.drop_first());
        if s3.len() == 0 || s3[0] != '"' {
            None
        } else {
            let (value, s4) = parsed_name(s3.drop_first());
            let s5 = after_spaces(s4);
            if s5.len() == 0 || s5[0] != '"' {
                None
            } else {
                Some(((name, value), s5.drop_first()))
            }
        }
    }
}

/// The attributes of an opening tag at the start of `s`, up to and with
/// the closing `>`, written into `found`, and what follows them. Of two
/// attributes of one name the later stays.
pub open spec fn parsed_attributes(s: Seq<char>, found: Map<Seq<char>, Seq<char>>) -> Option<
    (Map<Seq<char>, Seq<char>>, Seq<char>),
>
    decreases s.len(),
{
    let s1 = after_spaces(s);
    if s1.len() > 0 && s1[0] == '>' {
        Some((found, s1.drop_first()))
    } else {
        match parsed_attribute(s1) {
            None => None,
            Some(((name, value), s2)) => if s2.len() < s.len() {
                parsed_attributes(s2, found.insert(name, value))
            } else {
                None
            },
        }
    }
}

/// A run of text at the start of `s`, up to the first `<`, and what
/// follows it.
pub open spec fn parsed_text(s: Seq<char>) -> (NodeView, Seq<char>) {
    let n = span(s, CharClass::TextChar) as int;
    (NodeView { children: Seq::empty(), node_type: NodeTypeView::Text(s.take(n)) }, s.skip(n))
}

/// Whether `s` starts with `</`.
pub open spec fn at_closing_tag(s: Seq<char>) -> bool {
    s.len() >= 2 && s[0] == '<' && s[1] == '/'
}

/// The nodes at the start of `s`, up to the end of `s` or to a closing tag,
/// and what follows them.
pub open spec fn parsed_nodes(s: Seq<char>) -> Option<(Seq<NodeView>, Seq<char>)>
    decreases s.len(), 2int,
{
    if s.len() == 0 || at_closing_tag(s) {
        Some((Seq::empty(), s))
    } else {
        match parsed_node(s) {
            None => None,
            Some((node, s1)) => if s1.len() < s.len() {
                extend(seq![node], parsed_nodes(s1))
            } else {
                None
            },
        }
    }
}

/// The node at the start of `s`, and what follows it: an element where
/// `s` starts with `<`, else a run of text.
pub open spec fn parsed_node(s: Seq<char>) -> Option<(NodeView, Seq<char>)>
    decreases s.len(), 1int,
{
    if s.len() > 0 && s[0] == '<' {
        parsed_element(s)
    } else {
        Some(parsed_text(s))
    }
}

/// The element at the start of `s`, and what follows it.
pub open spec fn parsed_element(s: Seq<char>) -> Option<(NodeView, Seq<char>)>
    decreases s.len(), 0int,
{
    if s.len() == 0 {
        None
    } else {
        let (tag, s1) = parsed_name(s.drop_first());
        match parsed_attributes(s1, Map::empty()) {
            None => None,
            Some((attributes, s2)) => if s2.len() < s.len() {
                match parsed_nodes(s2) {
                    None => None,
                    Some((children, s3)) => {
                        let (closing, s4) = parsed_name(s3.skip(2));
                        if at_closing_tag(s3) && closing == tag && s4.len() > 0 && s4[0] == '>' {
                            Some(
                                (
                                    NodeView {
                                        children,
                                        node_type: NodeTypeView::Element(
                                            ElementView { tag_name: tag, attributes },
                                        ),
                                    },
                                    s4.drop_first(),
                                ),
                            )
                        } else {
                            None
                        }
                    },
                }
            } else {
                None
            },
        }
    }
}

/// The state of reading markup.
struct Parser {
    source: Cursor,
}

impl Parser {
    /// Whether nothing is left to read.
    fn eof(&self) -> (r: bool)
        requires
            self.source.wf(),
        ensures
            r == (self.source.rest().len() == 0),
    {
        self.source.eof()
    }

    /// Steps over white space.
    fn consume_spaces(&mut self)
        requires
            old(self).source.wf(),
        ensures
            final(self).source.wf(),
            final(self).source.rest() == after_spaces(old(self).source.rest()),
            final(self).source.rest().len() <= old(self).source.rest().len(),
    {
        self.source.skip_while(CharClass::Whitespace);
    }

    /// Reads a name, after white space.
    fn extract_name(&mut self) -> (r: String)
        requires
            old(self).source.wf(),
        ensures
            final(self).source.wf(),
            (r@, final(self).source.rest()) == parsed_name(old(self).source.rest()),
            final(self).source.rest().len() <= old(self).source.rest().len(),
    {
        self.consume_spaces();
        self.source.take_while(CharClass::Alphanumeric)
    }

    /// Reads an attribute.
    fn extract_attribute(&mut self) -> (r: Option<(String, String)>)
        requires
            old(self).source.wf(),
        ensures
            final(self).source.wf(),
            match r {
                Some((name, value)) => parsed_attribute(old(self).source.rest()) == Some(
                    ((name@, value@), final(self).source.rest()),
                ) && final(self).source.rest().len() < old(self).source.rest().len(),
                None => parsed_attribute(old(self).source.rest()) is None,
            },
    {
        let name_attr = self.extract_name();
        self.consume_spaces();
        if !self.source.eat('=') {
            return None;
        }
        self.consume_spaces();
        if !self.source.eat('"') {
            return None;
        }
        let value = self.extract_name();
        self.consume_spaces();
        if !self.source.eat('"') {
            return None;
        }
        Some((name_attr, value))
    }

    /// Reads the attributes of an opening tag, up to and with its `>`.
    fn extract_attributes(&mut self) -> (r: Option<AttrMap>)
        requires
            old(self).source.wf(),
        ensures
            final(self).source.wf(),
            match r {
                Some(attrs) => parsed_attributes(old(self).source.rest(), Map::empty()) == Some(
                    (attribute_views(attrs@), final(self).source.rest()),
                ) && final(self).source.rest().len() < old(self).source.rest().len(),
                None => parsed_attributes(old(self).source.rest(), Map::empty()) is None,
            },
    {
        let ghost s0 = self.source.rest();
        let mut attrs: AttrMap = StrMap::new();
        assert(attribute_views(attrs@) =~= Map::<Seq<char>, Seq<char>>::empty());
        loop
            invariant
                self.source.wf(),
                s0 == old(self).source.rest(),
                self.source.rest().len() <= s0.len(),
                parsed_attributes(s0, Map::empty()) == parsed_attributes(
                    self.source.rest(),
                    attribute_views(attrs@),
                ),
            decreases self.source.rest().len(),
        {
            self.consume_spaces();
            if self.source.eat('>') {
                return Some(attrs);
            }
            match self.extract_attribute() {
                None => {
                    return None;
                },
                Some((attr, val)) => {
                    let ghost before = attribute_views(attrs@);
                    attrs.insert(attr, val);
                    assert(attribute_views(attrs@) =~= before.insert(attr@, val@));
                },
            }
        }
    }

    /// Reads an element. The next character is taken to be its `<`.
    fn parse_element(&mut self) -> (r: Option<Node>)
        requires
            old(self).source.wf(),
        ensures
            final(self).source.wf(),
            match r {
                Some(node) => parsed_element(old(self).source.rest()) == Some(
                    (node@, final(self).source.rest()),
                ) && final(self).source.rest().len() < old(self).source.rest().len(),
                None => parsed_element(old(self).source.rest()) is None,
            },
        decreases old(self).source.rest().len(), 0int,
    {
        if self.source.eof() {
            return None;
        }
        self.source.bump();
        let tag_name = self.extract_name();
        let attributes = self.extract_attributes()?;
        let children = self.parse_nodes()?;
        let ghost s3 = self.source.rest();
        if !self.source.eat('<') {
            return None;
        }
        if !self.source.eat('/') {
            return None;
        }
        assert(self.source.rest() =~= s3.skip(2));
        let closing = self.extract_name();
        if !crate::chars::str_eq(closing.as_str(), tag_name.as_str()) {
            return None;
        }
        if !self.source.eat('>') {
            return None;
        }
        let node = element_node(tag_name, attributes, children);
        proof {
            assert(node@.children == all_node_views(children@));
        }
        Some(node)
    }

    /// Reads a run of text, up to the next `<`.
    fn parse_text(&mut self) -> (r: Node)
        requires
            old(self).source.wf(),
        ensures
            final(self).source.wf(),
            (r@, final(self).source.rest()) == parsed_text(old(self).source.rest()),
            final(self).source.rest().len() == old(self).source.rest().len() - span(
                old(self).source.rest(),
                CharClass::TextChar,
            ),
    {
        let text = self.source.take_while(CharClass::TextChar);
        let node = text_node(text);
        proof {
            assert(node@.children =~= Seq::<NodeView>::empty());
        }
        node
    }

    /// Reads a node.
    fn parse_node(&mut self) -> (r: Option<Node>)
        requires
            old(self).source.wf(),
        ensures
            final(self).source.wf(),
            match r {
                Some(node) => parsed_node(old(self).source.rest()) == Some(
                    (node@, final(self).source.rest()),
                ) && final(self).source.rest().len() <= old(self).source.rest().len() && (old(
                    self,
                ).source.rest().len() > 0 ==> final(self).source.rest().len() < old(
                    self,
                ).source.rest().len()),
                None => parsed_node(old(self).source.rest()) is None,
            },
        decreases old(self).source.rest().len(), 1int,
    {
        match self.source.peek() {
            Some('<') => self.parse_element(),
            Some(c) => {
                assert(span(self.source.rest(), CharClass::TextChar) >= 1);
                Some(self.parse_text())
            },
            None => Some(self.parse_text()),
        }
    }

    /// Reads nodes up to the end of the markup or to a closing tag.
    fn parse_nodes(&mut self) -> (r: Option<Vec<Node>>)
        requires
            old(self).source.wf(),
        ensures
            final(self).source.wf(),
            match r {
                Some(nodes) => parsed_nodes(old(self).source.rest()) == Some(
                    (all_node_views(nodes@), final(self).source.rest()),
                ) && final(self).source.rest().len() <= old(self).source.rest().len(),
                None => parsed_nodes(old(self).source.rest()) is None,
            },
        decreases old(self).source.rest().len(), 2int,
    {
        let ghost s0 = self.source.rest();
        let mut nodes: Vec<Node> = Vec::new();
        proof {
            assert(all_node_views(nodes@) =~= Seq::<NodeView>::empty());
            match parsed_nodes(s0) {
                None => {},
                Some((items, rest)) => {
                    assert(Seq::<NodeView>::empty() + items =~= items);
                },
            }
        }
        loop
            invariant
                self.source.wf(),
                s0 == old(self).source.rest(),
                self.source.rest().len() <= s0.len(),
                parsed_nodes(s0) == extend(all_node_views(nodes@), parsed_nodes(self.source.rest())),
            decreases self.source.rest().len(),
        {
            let ghost done = all_node_views(nodes@);
            let at_end = match self.source.peek() {
                None => true,
                Some(c) => c == '<' && self.source.peek_second() == Some('/'),
            };
            if at_end {
                proof {
                    assert(done + Seq::<NodeView>::empty() =~= done);
                }
                return Some(nodes);
            }
            match self.parse_node() {
                None => {
                    return None;
                },
                Some(node) => {
                    proof {
                        crate::css::lemma_extend_twice(
                            done,
                            seq![node@],
                            parsed_nodes(self.source.rest()),
                        );
                        lemma_node_views_push(nodes@, node);
                        assert(done.push(node@) =~= done + seq![node@]);
                    }
                    nodes.push(node);
                },
            }
        }
    }
}

/// Reads the nodes that `source` starts with. What follows them, which can
/// only be a closing tag that closes nothing, is left unread.
pub fn parse(source: String) -> (r: Option<Vec<Node>>)
    ensures
        match r {
            Some(nodes) => parsed_nodes(source@) matches Some((views, _)) && views == all_node_views(
                nodes@,
            ),
            None => parsed_nodes(source@) is None,
        },
{
    let mut parser = Parser { source: Cursor::new(source.as_str()) };
    parser.parse_nodes()
}

} // verus!
