//! Style sheets: rules, selectors, declarations and values.

use vstd::prelude::*;
use crate::chars::string_views;
use crate::scan::{lemma_span_bound, span, CharClass, Cursor};

verus! {

/// An ordered list of rules. Later rules win over earlier ones.
#[derive(Debug)]
pub struct StyleSheet {
    pub rules: Vec<Rule>,
}

/// A rule applies its declarations to every element that one of its
/// selectors matches.
#[derive(Debug)]
pub struct Rule {
    pub selectors: Vec<Selector>,
    pub declarations: Vec<Declaration>,
}

#[derive(Debug)]
pub enum Selector {
    Simple(SimpleSelector),
}

/// A selector on the tag name, the `id` attribute and the classes of an
/// element. An absent part places no demand on the element.
#[derive(Debug)]
pub struct SimpleSelector {
    pub tag_name: Option<String>,
    pub id: Option<String>,
    pub classes: Vec<String>,
}

#[derive(Debug)]
pub struct Declaration {
    pub name: String,
    pub value: Value,
}

/// The unit of a length. Only CSS pixels are defined.
#[derive(Clone, Copy, Debug, PartialEq, Eq, Structural)]
pub enum Unit {
    Px,
}

#[derive(Clone, Copy, Debug, PartialEq, Eq, Structural)]
pub struct Color {
    pub r: u8,
    pub g: u8,
    pub b: u8,
}

/// The number of units of length that make up a pixel. Lengths are whole
/// numbers of thousandths of a pixel, so that `10.5px` is a length.
pub const UNITS_PER_PIXEL: i64 = 1000;

/// The value of a declaration.
#[derive(Debug)]
pub enum Value {
    Keyword(String),
    /// A length: its amount in thousandths of the unit, and the unit.
    Length(i64, Unit),
    Color(Color),
}

/// A value as it is written, character for character.
pub enum ValueView {
    Keyword(Seq<char>),
    Length(i64, Unit),
    Color(Color),
}

impl View for Value {
    type V = ValueView;

    open spec fn view(&self) -> ValueView {
        match *self {
            Value::Keyword(k) => ValueView::Keyword(k@),
            Value::Length(n, unit) => ValueView::Length(n, unit),
            Value::Color(c) => ValueView::Color(c),
        }
    }
}

pub struct DeclarationView {
    pub name: Seq<char>,
    pub value: ValueView,
}

impl View for Declaration {
    type V = DeclarationView;

    open spec fn view(&self) -> DeclarationView {
        DeclarationView { name: self.name@, value: self.value@ }
    }
}

pub struct SimpleSelectorView {
    pub tag_name: Option<Seq<char>>,
    pub id: Option<Seq<char>>,
    pub classes: Seq<Seq<char>>,
}

/// What an optional string holds.
pub open spec fn option_view(s: Option<String>) -> Option<Seq<char>> {
    match s {
        Some(text) => Some(text@),
        None => None,
    }
}

impl View for SimpleSelector {
    type V = SimpleSelectorView;

    open spec fn view(&self) -> SimpleSelectorView {
        SimpleSelectorView {
            tag_name: option_view(self.tag_name),
            id: option_view(self.id),
            classes: string_views(self.classes@),
        }
    }
}

pub enum SelectorView {
    Simple(SimpleSelectorView),
}

impl View for Selector {
    type V = SelectorView;

    open spec fn view(&self) -> SelectorView {
        match *self {
            Selector::Simple(simple) => SelectorView::Simple(simple@),
        }
    }
}

pub struct RuleView {
    pub selectors: Seq<SelectorView>,
    pub declarations: Seq<DeclarationView>,
}

/// What each of the selectors is, in their order.
pub open spec fn selector_views(v: Seq<Selector>) -> Seq<SelectorView> {
    Seq::new(v.len(), |i: int| v[i]@)
}

/// What each of the declarations is, in their order.
pub open spec fn declaration_views(v: Seq<Declaration>) -> Seq<DeclarationView> {
    Seq::new(v.len(), |i: int| v[i]@)
}

/// What each of the rules is, in their order.
pub open spec fn rule_views(v: Seq<Rule>) -> Seq<RuleView> {
    Seq::new(v.len(), |i: int| v[i]@)
}

impl View for Rule {
    type V = RuleView;

    open spec fn view(&self) -> RuleView {
        RuleView {
            selectors: selector_views(self.selectors@),
            declarations: declaration_views(self.declarations@),
        }
    }
}

impl View for StyleSheet {
    type V = Seq<RuleView>;

    open spec fn view(&self) -> Seq<RuleView> {
        rule_views(self.rules@)
    }
}

/// The length a value stands for, in thousandths of a pixel: the amount
/// of a length, and zero for every keyword and colour.
pub open spec fn px(v: Value) -> int {
    match v {
        Value::Length(n, _) => n as int,
        _ => 0,
    }
}

/// Whether a value is the keyword `auto`.
pub open spec fn is_auto(v: Value) -> bool {
    v matches Value::Keyword(k) && k@ == "auto"@
}

impl Value {
    /// The length this value stands for, in thousandths of a pixel.
    pub fn to_px(&self) -> (r: i64)
        ensures
            r == px(*self),
    {
        match self {
            Value::Length(x, _) => *x,
            _ => 0,
        }
    }

    /// Whether this value is the keyword `auto`.
    pub fn is_auto(&self) -> (r: bool)
        ensures
            r == is_auto(*self),
    {
        match self {
            Value::Keyword(k) => crate::chars::str_eq(k.as_str(), "auto"),
            _ => false,
        }
    }
}

impl Clone for Value {
    fn clone(&self) -> (r: Value)
        ensures
            r == *self,
    {
        match self {
            Value::Keyword(k) => Value::Keyword(k.clone()),
            Value::Length(n, u) => Value::Length(*n, *u),
            Value::Color(c) => Value::Color(*c),
        }
    }
}

impl PartialEq for Value {
    fn eq(&self, other: &Value) -> (r: bool) {
        match (self, other) {
            (Value::Keyword(a), Value::Keyword(b)) => *a == *b,
            (Value::Length(a, u), Value::Length(b, v)) => *a == *b && *u == *v,
            (Value::Color(a), Value::Color(b)) => *a == *b,
            _ => false,
        }
    }
}

impl vstd::std_specs::cmp::PartialEqSpecImpl for Value {
    open spec fn obeys_eq_spec() -> bool {
        true
    }

    /// Two values are equal when they are of the same kind and hold the
    /// same characters, amount and unit, or colour.
    open spec fn eq_spec(&self, other: &Value) -> bool {
        match (*self, *other) {
            (Value::Keyword(a), Value::Keyword(b)) => a@ == b@,
            (Value::Length(a, u), Value::Length(b, v)) => a == b && u == v,
            (Value::Color(a), Value::Color(b)) => a == b,
            _ => false,
        }
    }
}

/// `s` without the white space it starts with.
pub open spec fn after_spaces(s: Seq<char>) -> Seq<char> {
    s.skip(span(s, CharClass::Whitespace) as int)
}

/// The value of a hexadecimal digit.
pub open spec fn hex_value(c: char) -> Option<int> {
    if '0' <= c <= '9' {
        Some(c as int - '0' as int)
    } else if 'a' <= c <= 'f' {
        Some(c as int - 'a' as int + 10)
    } else if 'A' <= c <= 'F' {
        Some(c as int - 'A' as int + 10)
    } else {
        None
    }
}

/// A colour channel written as the two characters `high` and `low`: two
/// hexadecimal digits, or a plus sign and one hexadecimal digit.
pub open spec fn parsed_channel(high: char, low: char) -> Option<u8> {
    match (hex_value(high), hex_value(low)) {
        (Some(h), Some(l)) => Some((16 * h + l) as u8),
        (None, Some(l)) => if high == '+' {
            Some(l as u8)
        } else {
            None
        },
        _ => None,
    }
}

/// A colour at the start of `s`, and what follows it: a `#` and three
/// channels.
pub open spec fn parsed_color(s: Seq<char>) -> Option<(ValueView, Seq<char>)> {
    if s.len() >= 7 && s[0] == '#' {
        match (parsed_channel(s[1], s[2]), parsed_channel(s[3], s[4]), parsed_channel(s[5], s[6])) {
            (Some(r), Some(g), Some(b)) => Some((ValueView::Color(Color { r, g, b }), s.skip(7))),
            _ => None,
        }
    } else {
        None
    }
}

/// The number that decimal digits stand for.
pub open spec fn decimal_value(digits: Seq<char>) -> int
    decreases digits.len(),
{
    if digits.len() == 0 {
        0
    } else {
        10 * decimal_value(digits.drop_last()) + (digits.last() as int - '0' as int)
    }
}

/// Whether `number` is written as a decimal number: digits, at least one,
/// which a point and further digits may follow.
pub open spec fn is_decimal(number: Seq<char>) -> bool {
    let whole = span(number, CharClass::Digit) as int;
    whole >= 1 && (whole == number.len() || (number[whole] == '.' && span(
        number.skip(whole + 1),
        CharClass::Digit,
    ) == number.len() - whole - 1))
}

/// The digit at place `i` of `digits`, zero where there is none.
pub open spec fn digit_at(digits: Seq<char>, i: int) -> int {
    if 0 <= i < digits.len() {
        digits[i] as int - '0' as int
    } else {
        0
    }
}

/// The thousandths that the digits after a decimal point stand for. The
/// first three digits count; what follows them is dropped.
pub open spec fn thousandths(digits: Seq<char>) -> int {
    100 * digit_at(digits, 0) + 10 * digit_at(digits, 1) + digit_at(digits, 2)
}

/// The digits that follow the point of a decimal number, none where it
/// has no point.
pub open spec fn fraction_digits(number: Seq<char>) -> Seq<char> {
    let whole = span(number, CharClass::Digit) as int;
    if whole < number.len() {
        number.skip(whole + 1)
    } else {
        Seq::empty()
    }
}

/// The decimal number `number` in thousandths.
pub open spec fn amount_of(number: Seq<char>) -> int {
    decimal_value(number.take(span(number, CharClass::Digit) as int)) * 1000 + thousandths(
        fraction_digits(number),
    )
}

/// A length at the start of `s`, and what follows it.
///
/// The number reaches up to the first alphabetic character; the unit is
/// the run of alphabetic characters from there, and something must follow
/// it. The length is the number in thousandths, which `i64` must be able
/// to hold. Whatever the unit says, the length is in pixels.
pub open spec fn parsed_length(s: Seq<char>) -> Option<(ValueView, Seq<char>)> {
    let n = span(s, CharClass::NotAlphabetic) as int;
    let number = s.take(n);
    let unit = span(s.skip(n), CharClass::Alphabetic) as int;
    if n < s.len() && is_decimal(number) && amount_of(number) <= i64::MAX && n + unit < s.len() {
        Some((ValueView::Length(amount_of(number) as i64, Unit::Px), s.skip(n + unit)))
    } else {
        None
    }
}

/// A keyword at the start of `s`, and what follows it: everything up to
/// the first semicolon or white space.
pub open spec fn parsed_keyword(s: Seq<char>) -> (ValueView, Seq<char>) {
    let n = span(s, CharClass::KeywordChar) as int;
    (ValueView::Keyword(s.take(n)), s.skip(n))
}

/// Steps over white space.
fn consume_spaces(source: &mut Cursor)
    requires
        old(source).wf(),
    ensures
        final(source).wf(),
        final(source).rest() == after_spaces(old(source).rest()),
        final(source).rest().len() <= old(source).rest().len(),
{
    source.skip_while(CharClass::Whitespace);
}

/// Reads the alphanumeric characters that come next.
fn parse_identifier(source: &mut Cursor) -> (r: String)
    requires
        old(source).wf(),
    ensures
        final(source).wf(),
        r@ == old(source).rest().take(span(old(source).rest(), CharClass::Alphanumeric) as int),
        final(source).rest() == old(source).rest().skip(
            span(old(source).rest(), CharClass::Alphanumeric) as int,
        ),
        final(source).rest().len() == old(source).rest().len() - span(
            old(source).rest(),
            CharClass::Alphanumeric,
        ),
{
    source.take_while(CharClass::Alphanumeric)
}

/// Reads the name of a declaration: everything up to the first colon or
/// white space.
fn parse_declaration_name(source: &mut Cursor) -> (r: String)
    requires
        old(source).wf(),
    ensures
        final(source).wf(),
        r@ == old(source).rest().take(span(old(source).rest(), CharClass::NameChar) as int),
        final(source).rest() == old(source).rest().skip(
            span(old(source).rest(), CharClass::NameChar) as int,
        ),
{
    source.take_while(CharClass::NameChar)
}

/// Reads a keyword.
fn parse_keyword_value(source: &mut Cursor) -> (r: Value)
    requires
        old(source).wf(),
    ensures
        final(source).wf(),
        (r@, final(source).rest()) == parsed_keyword(old(source).rest()),
        final(source).rest().len() <= old(source).rest().len(),
{
    let value_str = source.take_while(CharClass::KeywordChar);
    Value::Keyword(value_str)
}

/// The value of the hexadecimal digit `c`.
fn hex_digit(c: char) -> (r: Option<u8>)
    ensures
        match hex_value(c) {
            Some(v) => r == Some(v as u8) && 0 <= v < 16,
            None => r is None,
        },
{
    if '0' <= c && c <= '9' {
        Some((c as u32 - '0' as u32) as u8)
    } else if 'a' <= c && c <= 'f' {
        Some((c as u32 - 'a' as u32 + 10) as u8)
    } else if 'A' <= c && c <= 'F' {
        Some((c as u32 - 'A' as u32 + 10) as u8)
    } else {
        None
    }
}

/// Reads one colour channel.
fn parse_channel(source: &mut Cursor) -> (r: Option<u8>)
    requires
        old(source).wf(),
    ensures
        final(source).wf(),
        r is Some ==> old(source).rest().len() >= 2 && r == parsed_channel(
            old(source).rest()[0],
            old(source).rest()[1],
        ) && final(source).rest() == old(source).rest().skip(2),
        r is None ==> old(source).rest().len() < 2 || parsed_channel(
            old(source).rest()[0],
            old(source).rest()[1],
        ) is None,
{
    let high = match source.peek() {
        Some(c) => c,
        None => {
            return None;
        },
    };
    let low = match source.peek_second() {
        Some(c) => c,
        None => {
            return None;
        },
    };
    let value: u8 = match (hex_digit(high), hex_digit(low)) {
        (Some(h), Some(l)) => 16 * h + l,
        (None, Some(l)) => if high == '+' {
            l
        } else {
            return None;
        },
        _ => {
            return None;
        },
    };
    source.bump();
    source.bump();
    assert(source.rest() =~= old(source).rest().skip(2));
    Some(value)
}

/// Reads a colour.
fn parse_color(source: &mut Cursor) -> (r: Option<Value>)
    requires
        old(source).wf(),
    ensures
        final(source).wf(),
        match r {
            Some(v) => parsed_color(old(source).rest()) == Some((v@, final(source).rest()))
                && final(source).rest().len() < old(source).rest().len(),
            None => parsed_color(old(source).rest()) is None,
        },
{
    let ghost s = source.rest();
    if !source.eat('#') {
        return None;
    }
    let r = parse_channel(source)?;
    let g = parse_channel(source)?;
    let b = parse_channel(source)?;
    proof {
        assert(s.drop_first().skip(2).skip(2).skip(2) =~= s.skip(7));
        assert(s.drop_first()[0] == s[1] && s.drop_first()[1] == s[2]);
        assert(s.drop_first().skip(2)[0] == s[3] && s.drop_first().skip(2)[1] == s[4]);
        assert(s.drop_first().skip(2).skip(2)[0] == s[5] && s.drop_first().skip(2).skip(2)[1] == s[6]);
    }
    Some(Value::Color(Color { r, g, b }))
}

/// Digits stand for a number that is not negative, and more digits for
/// no smaller one.
proof fn lemma_decimal_value_grows(digits: Seq<char>, k: int)
    requires
        0 <= k <= digits.len(),
        forall|j: int| 0 <= j < digits.len() ==> '0' <= #[trigger] digits[j] <= '9',
    ensures
        0 <= decimal_value(digits.take(k)) <= decimal_value(digits),
    decreases digits.len() - k,
{
    if k == digits.len() {
        assert(digits.take(k) =~= digits);
        lemma_decimal_value_nonnegative(digits);
    } else {
        let t = digits.drop_last();
        assert(t.take(k) =~= digits.take(k));
        assert forall|j: int| 0 <= j < t.len() implies '0' <= #[trigger] t[j] <= '9' by {
            assert(t[j] == digits[j]);
        }
        lemma_decimal_value_grows(t, k);
        assert('0' <= digits[digits.len() - 1] <= '9');
    }
}

proof fn lemma_decimal_value_nonnegative(digits: Seq<char>)
    requires
        forall|j: int| 0 <= j < digits.len() ==> '0' <= #[trigger] digits[j] <= '9',
    ensures
        0 <= decimal_value(digits),
    decreases digits.len(),
{
    if digits.len() > 0 {
        let t = digits.drop_last();
        assert forall|j: int| 0 <= j < t.len() implies '0' <= #[trigger] t[j] <= '9' by {
            assert(t[j] == digits[j]);
        }
        lemma_decimal_value_nonnegative(t);
        assert('0' <= digits[digits.len() - 1] <= '9');
    }
}

/// The characters within a span are of its kind.
proof fn lemma_span_members(s: Seq<char>, class: CharClass, j: int)
    requires
        0 <= j < span(s, class),
    ensures
        j < s.len(),
        crate::scan::in_class(class, s[j]),
    decreases j,
{
    if j > 0 {
        lemma_span_members(s.drop_first(), class, j - 1);
    }
}

/// The number that the digits `digits` stand for, if `i64` can hold it.
fn decimal(digits: &String) -> (r: Option<i64>)
    requires
        forall|j: int| 0 <= j < digits@.len() ==> '0' <= #[trigger] digits@[j] <= '9',
    ensures
        decimal_value(digits@) <= i64::MAX ==> r == Some(decimal_value(digits@) as i64),
        decimal_value(digits@) > i64::MAX ==> r is None,
{
    let chars = crate::chars::to_chars(digits.as_str());
    let mut value: i64 = 0;
    let mut i: usize = 0;
    assert(chars@.take(0) =~= Seq::<char>::empty());
    while i < chars.len()
        invariant
            i <= chars.len(),
            chars@ == digits@,
            forall|j: int| 0 <= j < chars@.len() ==> '0' <= #[trigger] chars@[j] <= '9',
            value == decimal_value(chars@.take(i as int)),
            0 <= value,
        decreases chars.len() - i,
    {
        let digit: i64 = (chars[i] as u32 - '0' as u32) as i64;
        proof {
            assert(chars@.take(i + 1).drop_last() =~= chars@.take(i as int));
            assert(chars@.take(i + 1).last() == chars@[i as int]);
            lemma_decimal_value_grows(chars@, i + 1);
        }
        if value > (i64::MAX - digit) / 10 {
            return None;
        }
        value = 10 * value + digit;
        i += 1;
    }
    assert(chars@.take(i as int) =~= chars@);
    Some(value)
}

/// The thousandths that the digits `digits` stand for after a decimal
/// point.
fn fraction(digits: &String) -> (r: i64)
    requires
        forall|j: int| 0 <= j < digits@.len() ==> '0' <= #[trigger] digits@[j] <= '9',
    ensures
        r == thousandths(digits@),
        0 <= r <= 999,
{
    let chars = crate::chars::to_chars(digits.as_str());
    let mut value: i64 = 0;
    if chars.len() > 0 {
        assert('0' <= chars@[0] <= '9');
        value = value + 100 * ((chars[0] as u32 - '0' as u32) as i64);
    }
    if chars.len() > 1 {
        assert('0' <= chars@[1] <= '9');
        value = value + 10 * ((chars[1] as u32 - '0' as u32) as i64);
    }
    if chars.len() > 2 {
        assert('0' <= chars@[2] <= '9');
        value = value + ((chars[2] as u32 - '0' as u32) as i64);
    }
    value
}

/// Reads a length.
fn parse_length(source: &mut Cursor) -> (r: Option<Value>)
    requires
        old(source).wf(),
    ensures
        final(source).wf(),
        match r {
            Some(v) => parsed_length(old(source).rest()) == Some((v@, final(source).rest()))
                && final(source).rest().len() <= old(source).rest().len(),
            None => parsed_length(old(source).rest()) is None,
        },
{
    let ghost s = source.rest();
    let number = source.take_while(CharClass::NotAlphabetic);
    if source.eof() {
        return None;
    }
    let mut inner = Cursor::new(number.as_str());
    let whole = inner.take_while(CharClass::Digit);
    proof {
        lemma_span_bound(number@, CharClass::Digit);
        assert forall|j: int| 0 <= j < whole@.len() implies '0' <= #[trigger] whole@[j] <= '9' by {
            lemma_span_members(number@, CharClass::Digit, j);
        }
    }
    if whole.as_str().unicode_len() == 0 {
        return None;
    }
    let ghost w = span(number@, CharClass::Digit) as int;
    assert(whole@.len() == w);
    assert(inner.rest().len() == number@.len() - w);
    let mut after_point = String::new();
    if !inner.eof() {
        assert(inner.rest()[0] == number@[w]);
        if !inner.eat('.') {
            return None;
        }
        let ghost rest = number@.skip(w + 1);
        assert(inner.rest() =~= rest);
        after_point = inner.take_while(CharClass::Digit);
        proof {
            lemma_span_bound(rest, CharClass::Digit);
            assert forall|j: int| 0 <= j < after_point@.len() implies '0'
                <= #[trigger] after_point@[j] <= '9' by {
                lemma_span_members(rest, CharClass::Digit, j);
            }
        }
        if !inner.eof() {
            return None;
        }
        assert(after_point@ =~= rest);
    }
    assert(is_decimal(number@));
    assert(after_point@ == fraction_digits(number@));
    let part: i64 = fraction(&after_point);
    proof {
        lemma_decimal_value_nonnegative(whole@);
    }
    let amount: i64 = match decimal(&whole) {
        None => {
            return None;
        },
        Some(units) => {
            let wide: i128 = units as i128 * 1000 + part as i128;
            if wide > i64::MAX as i128 {
                return None;
            }
            wide as i64
        },
    };
    source.skip_while(CharClass::Alphabetic);
    if source.eof() {
        return None;
    }
    proof {
        let n = span(s, CharClass::NotAlphabetic) as int;
        assert(s.skip(n).skip(span(s.skip(n), CharClass::Alphabetic) as int) =~= s.skip(
            n + span(s.skip(n), CharClass::Alphabetic),
        ));
    }
    Some(Value::Length(amount, Unit::Px))
}

/// A declaration at the start of `s`, and what follows it: a name, a
/// colon, a value and a semicolon. White space may stand before the colon
/// and before the semicolon, but not after the colon. A value that starts
/// with `#` is a colour, one that starts with a digit is a length, and
/// any other is a keyword.
pub open spec fn parsed_declaration(s: Seq<char>) -> Option<(DeclarationView, Seq<char>)> {
    let n = span(s, CharClass::NameChar) as int;
    let s1 = after_spaces(s.skip(n));
    if s1.len() < 2 || s1[0] != ':' {
        None
    } else {
        let s2 = s1.drop_first();
        let value = if s2[0] == '#' {
            parsed_color(s2)
        } else if '0' <= s2[0] <= '9' {
            parsed_length(s2)
        } else {
            Some(parsed_keyword(s2))
        };
        match value {
            None => None,
            Some((v, s3)) => {
                let s4 = after_spaces(s3);
                if s4.len() > 0 && s4[0] == ';' {
                    Some((DeclarationView { name: s.take(n), value: v }, s4.drop_first()))
                } else {
                    None
                }
            },
        }
    }
}

/// `tail` with `prefix` put before the items it holds.
pub open spec fn extend<T>(prefix: Seq<T>, tail: Option<(Seq<T>, Seq<char>)>) -> Option<
    (Seq<T>, Seq<char>),
> {
    match tail {
        None => None,
        Some((items, rest)) => Some((prefix + items, rest)),
    }
}

pub(crate) proof fn lemma_extend_twice<T>(a: Seq<T>, b: Seq<T>, tail: Option<(Seq<T>, Seq<char>)>)
    ensures
        extend(a, extend(b, tail)) == extend(a + b, tail),
{
    match tail {
        None => {},
        Some((items, rest)) => {
            assert(a + (b + items) =~= (a + b) + items);
        },
    }
}

/// The declarations of a rule at the start of `s`, up to and with the
/// closing brace, and what follows it. A semicolon may stand before a
/// declaration.
pub open spec fn parsed_declarations(s: Seq<char>) -> Option<(Seq<DeclarationView>, Seq<char>)>
    decreases s.len(),
{
    let s1 = after_spaces(s);
    if s1.len() == 0 {
        None
    } else if s1[0] == '}' {
        Some((Seq::empty(), s1.drop_first()))
    } else {
        let s2 = if s1[0] == ';' {
            s1.drop_first()
        } else {
            s1
        };
        match parsed_declaration(s2) {
            None => None,
            Some((d, s3)) => if s3.len() < s.len() {
                extend(seq![d], parsed_declarations(s3))
            } else {
                None
            },
        }
    }
}

/// A selector at the start of `s`, and what follows it: `#` and an id,
/// `.` and a class, or a tag name that starts with an alphabetic
/// character.
pub open spec fn parsed_selector(s: Seq<char>) -> Option<(SelectorView, Seq<char>)> {
    if s.len() == 0 {
        None
    } else if s[0] == '#' || s[0] == '.' {
        let t = s.drop_first();
        let n = span(t, CharClass::Alphanumeric) as int;
        let simple = if s[0] == '#' {
            SimpleSelectorView { tag_name: None, id: Some(t.take(n)), classes: Seq::empty() }
        } else {
            SimpleSelectorView { tag_name: None, id: None, classes: seq![t.take(n)] }
        };
        Some((SelectorView::Simple(simple), t.skip(n)))
    } else if crate::chars::alphabetic(s[0]) {
        let n = span(s, CharClass::Alphanumeric) as int;
        Some(
            (
                SelectorView::Simple(
                    SimpleSelectorView { tag_name: Some(s.take(n)), id: None, classes: Seq::empty() },
                ),
                s.skip(n),
            ),
        )
    } else {
        None
    }
}

/// The selectors of a rule at the start of `s`, up to and with the
/// opening brace, and what follows it. A comma may stand before a
/// selector.
pub open spec fn parsed_selectors(s: Seq<char>) -> Option<(Seq<SelectorView>, Seq<char>)>
    decreases s.len(),
{
    let s1 = after_spaces(s);
    if s1.len() == 0 {
        None
    } else if s1[0] == '{' {
        Some((Seq::empty(), s1.drop_first()))
    } else {
        let s2 = if s1[0] == ',' {
            after_spaces(s1.drop_first())
        } else {
            s1
        };
        match parsed_selector(s2) {
            None => None,
            Some((sel, s3)) => if s3.len() < s.len() {
                extend(seq![sel], parsed_selectors(s3))
            } else {
                None
            },
        }
    }
}

/// `tail` with `prefix` put before it.
pub open spec fn prepend<T>(prefix: Seq<T>, tail: Option<Seq<T>>) -> Option<Seq<T>> {
    match tail {
        None => None,
        Some(items) => Some(prefix + items),
    }
}

/// The rules that `s` is made of, if it is made of rules: each a list of
/// selectors and a block of declarations, with white space between them
/// as one likes.
pub open spec fn parsed_rules(s: Seq<char>) -> Option<Seq<RuleView>>
    decreases s.len(),
{
    let s1 = after_spaces(s);
    if s1.len() == 0 {
        Some(Seq::empty())
    } else {
        match parsed_selectors(s1) {
            None => None,
            Some((selectors, s2)) => match parsed_declarations(s2) {
                None => None,
                Some((declarations, s3)) => if s3.len() < s.len() {
                    prepend(seq![RuleView { selectors, declarations }], parsed_rules(s3))
                } else {
                    None
                },
            },
        }
    }
}

/// Reads a declaration.
fn parse_declaration(source: &mut Cursor) -> (r: Option<Declaration>)
    requires
        old(source).wf(),
    ensures
        final(source).wf(),
        match r {
            Some(d) => parsed_declaration(old(source).rest()) == Some((d@, final(source).rest()))
                && final(source).rest().len() < old(source).rest().len(),
            None => parsed_declaration(old(source).rest()) is None,
        },
{
    let ghost s = source.rest();
    let name = parse_declaration_name(source);
    proof {
        lemma_span_bound(s, CharClass::NameChar);
    }
    consume_spaces(source);
    let ghost s1 = source.rest();
    if !source.eat(':') {
        return None;
    }
    let first = match source.peek() {
        Some(c) => c,
        None => {
            return None;
        },
    };
    let value = if first == '#' {
        parse_color(source)?
    } else if '0' <= first && first <= '9' {
        parse_length(source)?
    } else {
        parse_keyword_value(source)
    };
    consume_spaces(source);
    if !source.eat(';') {
        return None;
    }
    Some(Declaration { name, value })
}

/// Reads the declarations of a rule, up to and with the closing brace.
fn parse_declarations(source: &mut Cursor) -> (r: Option<Vec<Declaration>>)
    requires
        old(source).wf(),
    ensures
        final(source).wf(),
        match r {
            Some(v) => parsed_declarations(old(source).rest()) == Some(
                (declaration_views(v@), final(source).rest()),
            ) && final(source).rest().len() < old(source).rest().len(),
            None => parsed_declarations(old(source).rest()) is None,
        },
{
    let ghost s0 = source.rest();
    let mut declarations: Vec<Declaration> = Vec::new();
    assert(declaration_views(declarations@) =~= Seq::<DeclarationView>::empty());
    proof {
        match parsed_declarations(s0) {
            None => {},
            Some((items, rest)) => {
                assert(Seq::<DeclarationView>::empty() + items =~= items);
            },
        }
    }
    loop
        invariant
            source.wf(),
            s0 == old(source).rest(),
            source.rest().len() <= s0.len(),
            parsed_declarations(s0) == extend(
                declaration_views(declarations@),
                parsed_declarations(source.rest()),
            ),
        decreases source.rest().len(),
    {
        let ghost done = declaration_views(declarations@);
        consume_spaces(source);
        match source.peek() {
            None => {
                return None;
            },
            Some(c) => {
                if c == '}' {
                    source.bump();
                    proof {
                        assert(done + Seq::<DeclarationView>::empty() =~= done);
                    }
                    return Some(declarations);
                }
                if c == ';' {
                    source.bump();
                }
            },
        }
        match parse_declaration(source) {
            None => {
                return None;
            },
            Some(d) => {
                proof {
                    lemma_extend_twice(done, seq![d@], parsed_declarations(source.rest()));
                    assert(declaration_views(declarations@.push(d)) =~= done + seq![d@]);
                }
                declarations.push(d);
            },
        }
    }
}

/// Reads a selector.
fn parse_selector(source: &mut Cursor) -> (r: Option<Selector>)
    requires
        old(source).wf(),
    ensures
        final(source).wf(),
        match r {
            Some(sel) => parsed_selector(old(source).rest()) == Some((sel@, final(source).rest()))
                && final(source).rest().len() < old(source).rest().len(),
            None => parsed_selector(old(source).rest()) is None,
        },
{
    let mut selector = SimpleSelector { tag_name: None, id: None, classes: Vec::new() };
    assert(string_views(selector.classes@) =~= Seq::<Seq<char>>::empty());
    match source.peek() {
        None => {
            return None;
        },
        Some(c) => {
            if c == '#' {
                source.bump();
                selector.id = Some(parse_identifier(source));
            } else if c == '.' {
                source.bump();
                let class = parse_identifier(source);
                selector.classes.push(class);
                assert(string_views(selector.classes@) =~= seq![class@]);
            } else if crate::chars::is_alphabetic(c) {
                assert(span(source.rest(), CharClass::Alphanumeric) >= 1);
                selector.tag_name = Some(parse_identifier(source));
            } else {
                return None;
            }
        },
    }
    Some(Selector::Simple(selector))
}

/// Reads the selectors of a rule, up to and with the opening brace.
fn parse_selectors(source: &mut Cursor) -> (r: Option<Vec<Selector>>)
    requires
        old(source).wf(),
    ensures
        final(source).wf(),
        match r {
            Some(v) => parsed_selectors(old(source).rest()) == Some(
                (selector_views(v@), final(source).rest()),
            ) && final(source).rest().len() < old(source).rest().len(),
            None => parsed_selectors(old(source).rest()) is None,
        },
{
    let ghost s0 = source.rest();
    let mut selectors: Vec<Selector> = Vec::new();
    assert(selector_views(selectors@) =~= Seq::<SelectorView>::empty());
    proof {
        match parsed_selectors(s0) {
            None => {},
            Some((items, rest)) => {
                assert(Seq::<SelectorView>::empty() + items =~= items);
            },
        }
    }
    loop
        invariant
            source.wf(),
            s0 == old(source).rest(),
            source.rest().len() <= s0.len(),
            parsed_selectors(s0) == extend(selector_views(selectors@), parsed_selectors(source.rest())),
        decreases source.rest().len(),
    {
        let ghost done = selector_views(selectors@);
        consume_spaces(source);
        match source.peek() {
            None => {
                return None;
            },
            Some(c) => {
                if c == '{' {
                    source.bump();
                    proof {
                        assert(done + Seq::<SelectorView>::empty() =~= done);
                    }
                    return Some(selectors);
                }
                if c == ',' {
                    source.bump();
                    consume_spaces(source);
                }
            },
        }
        match parse_selector(source) {
            None => {
                return None;
            },
            Some(sel) => {
                proof {
                    lemma_extend_twice(done, seq![sel@], parsed_selectors(source.rest()));
                    assert(selector_views(selectors@.push(sel)) =~= done + seq![sel@]);
                }
                selectors.push(sel);
            },
        }
    }
}

/// Reads the rules that `source` is made of.
fn parse_rules(source: &mut Cursor) -> (r: Option<Vec<Rule>>)
    requires
        old(source).wf(),
    ensures
        final(source).wf(),
        match r {
            Some(v) => parsed_rules(old(source).rest()) == Some(rule_views(v@)),
            None => parsed_rules(old(source).rest()) is None,
        },
{
    let ghost s0 = source.rest();
    let mut rules: Vec<Rule> = Vec::new();
    assert(rule_views(rules@) =~= Seq::<RuleView>::empty());
    proof {
        match parsed_rules(s0) {
            None => {},
            Some(items) => {
                assert(Seq::<RuleView>::empty() + items =~= items);
            },
        }
    }
    loop
        invariant
            source.wf(),
            s0 == old(source).rest(),
            parsed_rules(s0) == prepend(rule_views(rules@), parsed_rules(source.rest())),
        decreases source.rest().len(),
    {
        let ghost done = rule_views(rules@);
        consume_spaces(source);
        if source.eof() {
            proof {
                assert(done + Seq::<RuleView>::empty() =~= done);
            }
            return Some(rules);
        }
        let selectors = parse_selectors(source)?;
        let declarations = parse_declarations(source)?;
        let rule = Rule { selectors, declarations };
        proof {
            match parsed_rules(source.rest()) {
                None => {},
                Some(items) => {
                    assert(done + (seq![rule@] + items) =~= (done + seq![rule@]) + items);
                },
            }
            assert(rule_views(rules@.push(rule)) =~= done + seq![rule@]);
        }
        rules.push(rule);
    }
}

/// Reads a style sheet from `source`.
///
/// Where `source` is made of rules, they are returned and `source` is left
/// empty. Where it is not, nothing is returned and `source` is left as
/// it was.
pub fn parse(source: &mut String) -> (r: Option<StyleSheet>)
    ensures
        match r {
            Some(sheet) => parsed_rules(old(source)@) == Some(sheet@) && final(source)@
                == Seq::<char>::empty(),
            None => parsed_rules(old(source)@) is None && final(source)@ == old(source)@,
        },
{
    let mut cursor = Cursor::new(source.as_str());
    let rules = parse_rules(&mut cursor)?;
    *source = String::new();
    Some(StyleSheet { rules })
}

} // verus!
