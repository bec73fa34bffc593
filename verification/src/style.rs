//! The cascade: which declarations apply to which element.
//!
//! The cascade is flat. Every rule with a matching selector contributes its
//! declarations in the order of the style sheet, and the last declaration of
//! a property wins. Selectors carry no weight, and nothing is inherited.

use vstd::prelude::*;
use crate::chars::{contains_string, str_eq, string_views};
use crate::css::{Declaration, Rule, Selector, SimpleSelector, StyleSheet, Value};
use crate::dom::{ElementData, Node, NodeType};
use crate::strmap::StrMap;

verus! {

/// The computed properties of a node, by name.
pub type Properties = StrMap<Value>;

/// A document node together with its computed properties. The styled tree
/// has the shape of the document tree.
#[derive(Debug)]
pub struct StyledNode<'a> {
    pub html_node: &'a Node,
    pub properties: Properties,
    pub children: Vec<StyledNode<'a>>,
}

/// How a node takes part in the layout.
#[derive(Clone, Copy, Debug, PartialEq, Eq, Structural)]
pub enum Display {
    Inline,
    Block,
    /// The node and everything below it is left out of the layout.
    Hidden,
}

/// The display that a set of computed properties asks for: `Block` for the
/// keyword `block`, `Hidden` for the keyword `none`, and `Inline` for
/// every other value and where `display` is not declared.
pub open spec fn display_of(props: Map<Seq<char>, Value>) -> Display {
    if props.dom().contains("display"@) {
        match props["display"@] {
            Value::Keyword(k) => if k@ == "block"@ {
                Display::Block
            } else if k@ == "none"@ {
                Display::Hidden
            } else {
                Display::Inline
            },
            _ => Display::Inline,
        }
    } else {
        Display::Inline
    }
}

/// Whether `sel` matches `elem`: each part that the selector names is found
/// on the element.
pub open spec fn simple_selector_matches(sel: SimpleSelector, elem: ElementData) -> bool {
    &&& sel.tag_name matches Some(tag) ==> tag@ == elem.tag_name@
    &&& sel.id matches Some(id) ==> elem.attributes@.dom().contains("id"@)
        && elem.attributes@["id"@]@ == id@
    &&& forall|k: int|
        0 <= k < sel.classes@.len() ==> elem.class_list().contains((#[trigger] sel.classes@[k])@)
}

pub open spec fn selector_matches(sel: Selector, elem: ElementData) -> bool {
    match sel {
        Selector::Simple(simple) => simple_selector_matches(simple, elem),
    }
}

/// Whether one of `selectors` matches `elem`.
pub open spec fn any_selector_matches(selectors: Seq<Selector>, elem: ElementData) -> bool {
    exists|k: int| 0 <= k < selectors.len() && selector_matches(#[trigger] selectors[k], elem)
}

/// The rules among `rules` that match `elem`, in their order.
pub open spec fn matching_rules(rules: Seq<Rule>, elem: ElementData) -> Seq<Rule>
    decreases rules.len(),
{
    if rules.len() == 0 {
        Seq::empty()
    } else if any_selector_matches(rules.last().selectors@, elem) {
        matching_rules(rules.drop_last(), elem).push(rules.last())
    } else {
        matching_rules(rules.drop_last(), elem)
    }
}

/// `base` after the declarations `decls` were written into it in order.
pub open spec fn declare(base: Map<Seq<char>, Value>, decls: Seq<Declaration>) -> Map<
    Seq<char>,
    Value,
>
    decreases decls.len(),
{
    if decls.len() == 0 {
        base
    } else {
        declare(base, decls.drop_last()).insert(decls.last().name@, decls.last().value)
    }
}

/// `base` after the declarations of each of `rules` were written into it,
/// rule after rule.
pub open spec fn declare_all(base: Map<Seq<char>, Value>, rules: Seq<Rule>) -> Map<Seq<char>, Value>
    decreases rules.len(),
{
    if rules.len() == 0 {
        base
    } else {
        declare(declare_all(base, rules.drop_last()), rules.last().declarations@)
    }
}

/// The computed properties of the element `elem` under the rules `rules`.
pub open spec fn cascade(rules: Seq<Rule>, elem: ElementData) -> Map<Seq<char>, Value> {
    declare_all(Map::empty(), matching_rules(rules, elem))
}

/// The insertions that the declarations `decls` make after `base`, one
/// for each declaration and in their order.
pub open spec fn declared(base: Seq<(String, Value)>, decls: Seq<Declaration>) -> Seq<
    (String, Value),
>
    decreases decls.len(),
{
    if decls.len() == 0 {
        base
    } else {
        declared(base, decls.drop_last()).push((decls.last().name, decls.last().value))
    }
}

/// The insertions that the declarations of each of `rules` make after
/// `base`, rule after rule.
pub open spec fn declared_all(base: Seq<(String, Value)>, rules: Seq<Rule>) -> Seq<(String, Value)>
    decreases rules.len(),
{
    if rules.len() == 0 {
        base
    } else {
        declared(declared_all(base, rules.drop_last()), rules.last().declarations@)
    }
}

/// The insertions by which the computed properties of `elem` come about:
/// one for each declaration of each matching rule, in the order of the
/// style sheet.
pub open spec fn cascade_entries(rules: Seq<Rule>, elem: ElementData) -> Seq<(String, Value)> {
    declared_all(Seq::empty(), matching_rules(rules, elem))
}

/// The insertions by which the computed properties of a node come about:
/// those of the cascade for an element, none for a text node.
pub open spec fn computed_entries(node: Node, sheet: StyleSheet) -> Seq<(String, Value)> {
    match node.node_type {
        NodeType::Element(elem) => cascade_entries(sheet.rules@, elem),
        NodeType::Text(_) => Seq::empty(),
    }
}

/// The computed properties of a node: the cascade for an element, nothing
/// for a text node.
pub open spec fn computed_properties(node: Node, sheet: StyleSheet) -> Map<Seq<char>, Value> {
    match node.node_type {
        NodeType::Element(elem) => cascade(sheet.rules@, elem),
        NodeType::Text(_) => Map::empty(),
    }
}

/// Whether `styled` is the styled tree of `node` under `sheet`: it has the
/// shape of the document tree below `node`, and each of its nodes refers
/// to its document node and holds that node's computed properties, written
/// into it in the order of the style sheet.
pub open spec fn is_style_tree(styled: StyledNode, node: Node, sheet: StyleSheet) -> bool
    decreases styled,
{
    &&& *styled.html_node == node
    &&& styled.properties@ == computed_properties(node, sheet)
    &&& styled.properties.entries@ == computed_entries(node, sheet)
    &&& styled.children@.len() == node.children@.len()
    &&& forall|i: int|
        0 <= i < styled.children@.len() ==> is_style_tree(
            #[trigger] styled.children@[i],
            node.children@[i],
            sheet,
        )
}

/// Whether `name` is declared as the keyword `keyword`.
pub open spec fn declares_keyword(
    props: Map<Seq<char>, Value>,
    name: Seq<char>,
    keyword: Seq<char>,
) -> bool {
    props.dom().contains(name) && match props[name] {
        Value::Keyword(k) => k@ == keyword,
        _ => false,
    }
}

/// The display is `Block` exactly where `display` is the keyword `block`,
/// `Hidden` exactly where it is the keyword `none`, and `Inline` in every
/// other case, that of no `display` at all among them.
pub proof fn lemma_display_cases(props: Map<Seq<char>, Value>)
    ensures
        display_of(props) == Display::Block <==> declares_keyword(props, "display"@, "block"@),
        display_of(props) == Display::Hidden <==> declares_keyword(props, "display"@, "none"@),
        display_of(props) == Display::Inline <==> !declares_keyword(props, "display"@, "block"@)
            && !declares_keyword(props, "display"@, "none"@),
{
    reveal_strlit("block");
    reveal_strlit("none");
    assert("block"@.len() != "none"@.len());
}

/// A name that none of the declarations carries keeps what it was bound
/// to.
pub proof fn lemma_declare_other_names(
    base: Map<Seq<char>, Value>,
    decls: Seq<Declaration>,
    name: Seq<char>,
)
    requires
        forall|e: int| 0 <= e < decls.len() ==> (#[trigger] decls[e]).name@ != name,
    ensures
        declare(base, decls).dom().contains(name) == base.dom().contains(name),
        declare(base, decls)[name] == base[name],
    decreases decls.len(),
{
    if decls.len() > 0 {
        let t = decls.drop_last();
        assert forall|e: int| 0 <= e < t.len() implies (#[trigger] t[e]).name@ != name by {
            assert(t[e] == decls[e]);
        }
        lemma_declare_other_names(base, t, name);
    }
}

/// Within one list of declarations, the last declaration of a name is the
/// one that stays.
pub proof fn lemma_last_declaration_stays(base: Map<Seq<char>, Value>, decls: Seq<Declaration>, d: int)
    requires
        0 <= d < decls.len(),
        forall|e: int| d < e < decls.len() ==> (#[trigger] decls[e]).name@ != decls[d].name@,
    ensures
        declare(base, decls).dom().contains(decls[d].name@),
        declare(base, decls)[decls[d].name@] == decls[d].value,
    decreases decls.len(),
{
    if d < decls.len() - 1 {
        let t = decls.drop_last();
        assert(t[d] == decls[d]);
        assert forall|e: int| d < e < t.len() implies (#[trigger] t[e]).name@ != t[d].name@ by {
            assert(t[e] == decls[e]);
        }
        lemma_last_declaration_stays(base, t, d);
        assert(decls.last() == decls[decls.len() - 1]);
    }
}

/// The last matching rule that declares a property decides it.
///
/// Let rule `j` match the element and its declaration `d` be its last one
/// for some property. If no matching rule after `j` declares that property,
/// the element's computed value of the property is the value of that
/// declaration, whatever earlier rules declare and whatever the selectors
/// of the rules are.
pub proof fn lemma_later_rule_wins(rules: Seq<Rule>, elem: ElementData, j: int, d: int)
    requires
        0 <= j < rules.len(),
        any_selector_matches(rules[j].selectors@, elem),
        0 <= d < rules[j].declarations@.len(),
        forall|e: int|
            d < e < rules[j].declarations@.len() ==> (#[trigger] rules[j].declarations@[e]).name@
                != rules[j].declarations@[d].name@,
        forall|k: int, e: int|
            j < k < rules.len() && any_selector_matches(rules[k].selectors@, elem) && 0 <= e
                < rules[k].declarations@.len() ==> (#[trigger] rules[k].declarations@[e]).name@
                != rules[j].declarations@[d].name@,
    ensures
        cascade(rules, elem).dom().contains(rules[j].declarations@[d].name@),
        cascade(rules, elem)[rules[j].declarations@[d].name@] == rules[j].declarations@[d].value,
    decreases rules.len(),
{
    let name = rules[j].declarations@[d].name@;
    let last = rules.last();
    let earlier = rules.drop_last();
    let base = declare_all(Map::empty(), matching_rules(earlier, elem));
    if j == rules.len() - 1 {
        let found = matching_rules(earlier, elem).push(last);
        assert(matching_rules(rules, elem) == found);
        assert(found.drop_last() =~= matching_rules(earlier, elem));
        assert(found.last() == last);
        lemma_last_declaration_stays(base, last.declarations@, d);
    } else {
        assert(earlier[j] == rules[j]);
        assert forall|k: int, e: int|
            j < k < earlier.len() && any_selector_matches(earlier[k].selectors@, elem) && 0 <= e
                < earlier[k].declarations@.len() implies (#[trigger] earlier[k].declarations@[e]).name@
            != name by {
            assert(earlier[k] == rules[k]);
        }
        lemma_later_rule_wins(earlier, elem, j, d);
        if any_selector_matches(last.selectors@, elem) {
            let found = matching_rules(earlier, elem).push(last);
            assert(matching_rules(rules, elem) == found);
            assert(found.drop_last() =~= matching_rules(earlier, elem));
            assert(found.last() == last);
            assert(last == rules[rules.len() - 1]);
            lemma_declare_other_names(base, last.declarations@, name);
        }
    }
}

/// Whether one of `decls` declares the property `name`.
pub open spec fn declares(decls: Seq<Declaration>, name: Seq<char>) -> bool {
    exists|d: int| 0 <= d < decls.len() && (#[trigger] decls[d]).name@ == name
}

/// Whether one of `rules` declares the property `name`.
pub open spec fn some_rule_declares(rules: Seq<Rule>, name: Seq<char>) -> bool {
    exists|j: int| 0 <= j < rules.len() && declares((#[trigger] rules[j]).declarations@, name)
}

/// Whether one of the rules among `rules` that match `elem` declares the
/// property `name`.
pub open spec fn declared_for(rules: Seq<Rule>, elem: ElementData, name: Seq<char>) -> bool {
    exists|j: int|
        0 <= j < rules.len() && any_selector_matches((#[trigger] rules[j]).selectors@, elem)
            && declares(rules[j].declarations@, name)
}

/// After declarations were written, a name is bound exactly if it was
/// bound before or one of the declarations carries it.
proof fn lemma_declare_binds(base: Map<Seq<char>, Value>, decls: Seq<Declaration>, name: Seq<char>)
    ensures
        declare(base, decls).dom().contains(name) <==> (base.dom().contains(name) || declares(
            decls,
            name,
        )),
    decreases decls.len(),
{
    if decls.len() > 0 {
        let t = decls.drop_last();
        lemma_declare_binds(base, t, name);
        if declares(t, name) {
            let d = choose|d: int| 0 <= d < t.len() && (#[trigger] t[d]).name@ == name;
            assert(decls[d] == t[d]);
        }
        if declares(decls, name) {
            let d = choose|d: int| 0 <= d < decls.len() && (#[trigger] decls[d]).name@ == name;
            if d < t.len() {
                assert(t[d] == decls[d]);
            }
        }
        if decls.last().name@ == name {
            assert(decls[decls.len() - 1].name@ == name);
        }
    }
}

/// After the declarations of some rules were written, a name is bound
/// exactly if it was bound before or one of the rules declares it.
proof fn lemma_declare_all_binds(base: Map<Seq<char>, Value>, rules: Seq<Rule>, name: Seq<char>)
    ensures
        declare_all(base, rules).dom().contains(name) <==> (base.dom().contains(name)
            || some_rule_declares(rules, name)),
    decreases rules.len(),
{
    if rules.len() > 0 {
        let t = rules.drop_last();
        lemma_declare_all_binds(base, t, name);
        lemma_declare_binds(declare_all(base, t), rules.last().declarations@, name);
        if some_rule_declares(t, name) {
            let j = choose|j: int|
                0 <= j < t.len() && declares((#[trigger] t[j]).declarations@, name);
            assert(rules[j] == t[j]);
        }
        if some_rule_declares(rules, name) {
            let j = choose|j: int|
                0 <= j < rules.len() && declares((#[trigger] rules[j]).declarations@, name);
            if j < t.len() {
                assert(t[j] == rules[j]);
            }
        }
        if declares(rules.last().declarations@, name) {
            assert(declares(rules[rules.len() - 1].declarations@, name));
        }
    }
}

/// One of the matching rules declares a name exactly if one of the rules
/// both matches and declares it.
proof fn lemma_matching_rule_declares(rules: Seq<Rule>, elem: ElementData, name: Seq<char>)
    ensures
        some_rule_declares(matching_rules(rules, elem), name) <==> declared_for(rules, elem, name),
    decreases rules.len(),
{
    if rules.len() > 0 {
        let t = rules.drop_last();
        let last = rules.last();
        let found = matching_rules(rules, elem);
        let before = matching_rules(t, elem);
        lemma_matching_rule_declares(t, elem, name);
        if declared_for(t, elem, name) {
            let j = choose|j: int|
                0 <= j < t.len() && any_selector_matches((#[trigger] t[j]).selectors@, elem)
                    && declares(t[j].declarations@, name);
            assert(rules[j] == t[j]);
        }
        if declared_for(rules, elem, name) {
            let j = choose|j: int|
                0 <= j < rules.len() && any_selector_matches((#[trigger] rules[j]).selectors@, elem)
                    && declares(rules[j].declarations@, name);
            if j < t.len() {
                assert(t[j] == rules[j]);
            }
        }
        if any_selector_matches(last.selectors@, elem) {
            assert(found == before.push(last));
            if some_rule_declares(before, name) {
                let j = choose|j: int|
                    0 <= j < before.len() && declares((#[trigger] before[j]).declarations@, name);
                assert(found[j] == before[j]);
            }
            if some_rule_declares(found, name) {
                let j = choose|j: int|
                    0 <= j < found.len() && declares((#[trigger] found[j]).declarations@, name);
                if j < before.len() {
                    assert(before[j] == found[j]);
                } else {
                    assert(found[j] == last);
                    assert(rules[rules.len() - 1] == last);
                }
            }
            if declares(last.declarations@, name) {
                assert(found[before.len() as int] == last);
                assert(rules[rules.len() - 1] == last);
            }
        } else {
            assert(found == before);
        }
    }
}

/// An element has a computed value for a property exactly if one of the
/// rules that match it declares the property.
pub proof fn lemma_bound_iff_declared(rules: Seq<Rule>, elem: ElementData, name: Seq<char>)
    ensures
        cascade(rules, elem).dom().contains(name) <==> declared_for(rules, elem, name),
{
    lemma_declare_all_binds(Map::empty(), matching_rules(rules, elem), name);
    lemma_matching_rule_declares(rules, elem, name);
}

impl<'a> StyledNode<'a> {
    /// The computed value of the property `prop`, if the node has one.
    pub fn get_property(&self, prop: &str) -> (r: Option<&Value>)
        ensures
            r is Some <==> self.properties@.dom().contains(prop@),
            r matches Some(v) ==> *v == self.properties@[prop@],
    {
        self.properties.get(prop)
    }

    /// How the node takes part in the layout.
    pub fn get_display(&self) -> (d: Display)
        ensures
            d == display_of(self.properties@),
    {
        match self.get_property("display") {
            Some(Value::Keyword(val)) => {
                if str_eq(val.as_str(), "block") {
                    Display::Block
                } else if str_eq(val.as_str(), "none") {
                    Display::Hidden
                } else {
                    Display::Inline
                }
            },
            _ => Display::Inline,
        }
    }
}

/// Whether the selector `sel` matches the element `node`.
pub fn simple_selector_matches_node(sel: &SimpleSelector, node: &ElementData) -> (r: bool)
    ensures
        r == simple_selector_matches(*sel, *node),
{
    if let Some(tag) = &sel.tag_name {
        if !str_eq(node.tag_name.as_str(), tag.as_str()) {
            return false;
        }
    }
    if let Some(id) = &sel.id {
        match node.id() {
            Some(node_id) => {
                if !str_eq(node_id.as_str(), id.as_str()) {
                    return false;
                }
            },
            None => {
                return false;
            },
        }
    }
    let classes = node.classes();
    let mut k: usize = 0;
    while k < sel.classes.len()
        invariant
            k <= sel.classes.len(),
            string_views(classes@) == node.class_list(),
            forall|j: int|
                0 <= j < k ==> node.class_list().contains((#[trigger] sel.classes@[j])@),
        decreases sel.classes.len() - k,
    {
        if !contains_string(&classes, sel.classes[k].as_str()) {
            return false;
        }
        k += 1;
    }
    true
}

/// Whether one of the selectors `selectors` matches the element `node`.
pub fn selectors_match_node(selectors: &Vec<Selector>, node: &ElementData) -> (r: bool)
    ensures
        r == any_selector_matches(selectors@, *node),
{
    let mut k: usize = 0;
    while k < selectors.len()
        invariant
            k <= selectors.len(),
            forall|j: int| 0 <= j < k ==> !selector_matches(#[trigger] selectors@[j], *node),
        decreases selectors.len() - k,
    {
        let res = match &selectors[k] {
            Selector::Simple(simple) => simple_selector_matches_node(simple, node),
        };
        if res {
            return true;
        }
        k += 1;
    }
    false
}

/// What each of the references refers to, in their order.
pub open spec fn referents<T>(refs: Seq<&T>) -> Seq<T> {
    Seq::new(refs.len(), |i: int| *refs[i])
}

/// The rules of `sheet` that match the element `node`, in the order of the
/// style sheet.
pub fn get_matching_rules<'a>(node: &ElementData, sheet: &'a StyleSheet) -> (r: Vec<&'a Rule>)
    ensures
        referents(r@) == matching_rules(sheet.rules@, *node),
{
    let mut found: Vec<&'a Rule> = Vec::new();
    let mut k: usize = 0;
    assert(sheet.rules@.take(0) =~= Seq::<Rule>::empty());
    assert(referents(found@) =~= Seq::<Rule>::empty());
    while k < sheet.rules.len()
        invariant
            k <= sheet.rules.len(),
            referents(found@) == matching_rules(sheet.rules@.take(k as int), *node),
        decreases sheet.rules.len() - k,
    {
        let rule = &sheet.rules[k];
        let ghost before = found@;
        proof {
            assert(sheet.rules@.take(k + 1).drop_last() =~= sheet.rules@.take(k as int));
            assert(sheet.rules@.take(k + 1).last() == *rule);
        }
        if selectors_match_node(&rule.selectors, node) {
            found.push(rule);
            assert(referents(found@) =~= referents(before).push(*rule));
        }
        k += 1;
    }
    assert(sheet.rules@.take(k as int) =~= sheet.rules@);
    found
}

/// The computed properties of the element `node` under `sheet`.
pub fn get_matching_properties(node: &ElementData, sheet: &StyleSheet) -> (r: Properties)
    ensures
        r@ == cascade(sheet.rules@, *node),
        r.entries@ == cascade_entries(sheet.rules@, *node),
{
    let matching = get_matching_rules(node, sheet);
    let ghost rules = referents(matching@);
    let mut props: Properties = StrMap::new();
    let mut k: usize = 0;
    assert(rules.take(0) =~= Seq::<Rule>::empty());
    while k < matching.len()
        invariant
            k <= matching.len(),
            rules == referents(matching@),
            props@ == declare_all(Map::empty(), rules.take(k as int)),
            props.entries@ == declared_all(Seq::empty(), rules.take(k as int)),
        decreases matching.len() - k,
    {
        let rule = matching[k];
        let ghost base = props@;
        let ghost base_entries = props.entries@;
        proof {
            assert(rules.take(k + 1).drop_last() =~= rules.take(k as int));
            assert(rules.take(k + 1).last() == *rule);
            assert(rule.declarations@.take(0) =~= Seq::<Declaration>::empty());
        }
        let mut d: usize = 0;
        while d < rule.declarations.len()
            invariant
                d <= rule.declarations.len(),
                props@ == declare(base, rule.declarations@.take(d as int)),
                props.entries@ == declared(base_entries, rule.declarations@.take(d as int)),
            decreases rule.declarations.len() - d,
        {
            let declaration = &rule.declarations[d];
            proof {
                assert(rule.declarations@.take(d + 1).drop_last() =~= rule.declarations@.take(
                    d as int,
                ));
                assert(rule.declarations@.take(d + 1).last() == *declaration);
            }
            props.insert(declaration.name.clone(), declaration.value.clone());
            d += 1;
        }
        assert(rule.declarations@.take(d as int) =~= rule.declarations@);
        k += 1;
    }
    assert(rules.take(k as int) =~= rules);
    props
}

/// Builds the styled tree of the document tree below `html_node`.
pub fn build_style_tree<'a>(html_node: &'a Node, sheet: &'a StyleSheet) -> (styled: StyledNode<'a>)
    ensures
        is_style_tree(styled, *html_node, *sheet),
    decreases html_node,
{
    let properties = match &html_node.node_type {
        NodeType::Element(element_data) => get_matching_properties(element_data, sheet),
        NodeType::Text(_) => StrMap::new(),
    };
    let mut children: Vec<StyledNode<'a>> = Vec::new();
    let mut i: usize = 0;
    while i < html_node.children.len()
        invariant
            i <= html_node.children.len(),
            children@.len() == i,
            forall|j: int|
                0 <= j < i ==> is_style_tree(#[trigger] children@[j], html_node.children@[j], *sheet),
        decreases html_node.children.len() - i,
    {
        let child = build_style_tree(&html_node.children[i], sheet);
        children.push(child);
        i += 1;
    }
    StyledNode { html_node, properties, children }
}

} // verus!
