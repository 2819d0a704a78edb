//! Rendering of filter expressions as SQL.
//!
//! A dataset takes its filter as a SQL string that it parses and binds itself.
//! Only the expressions below are rendered; everything else is left to the
//! engine that asks.

use crate::expr::{self, Expr, ExprView, Operator};
use crate::float::{self, Worth};
use crate::meaning;
use crate::scalar::{Scalar, ScalarView};
use crate::sql;
use crate::text::{self, decimal_text, integral_text};
use arrow::datatypes::{ArrowPrimitiveType, Float64Type};
use vstd::prelude::*;
use vstd::string::*;

verus! {

/// The spelling that the standard library gives a finite double which is not
/// an integer, by what the double is worth.
pub uninterp spec fn shortest_spelling(units: int) -> Seq<char>;

/// Whether a text is digits with one point among them, behind a minus or not.
pub open spec fn is_fraction(text: Seq<char>) -> bool {
    exists|point: int| #[trigger] is_point(text, point)
}

/// Whether the character at `point` is the point of a text that is otherwise
/// digits, behind a minus or not, and digits stand on both sides of it.
pub open spec fn is_point(text: Seq<char>, point: int) -> bool {
    let first: int = if text.len() > 0 && text[0] == '-' { 1 } else { 0 };
    &&& first < point < text.len() - 1
    &&& text[point] == '.'
    &&& forall|i: int| first <= i < text.len() && i != point ==> '0' <= #[trigger] text[i] <= '9'
}

/// `ToString` of a finite double that is not an integer. What it gives is a
/// function of what the double is worth. It is written with digits and one
/// point, behind a minus or not, and never with an exponent.
#[verifier::external_body]
fn shortest_text(bits: u64) -> (text: String)
    requires
        float::is_finite_64(bits),
        !float::is_integral_64(bits),
    ensures
        text@ == shortest_spelling(float::units_64(bits)),
        is_fraction(text@),
{
    <Float64Type as ArrowPrimitiveType>::Native::from_bits(bits).to_string()
}

/// The characters of a text that may be missing.
pub open spec fn text_view(text: Option<String>) -> Option<Seq<char>> {
    match text {
        Some(t) => Some(t@),
        None => None,
    }
}

/// The SQL spelling of an operator.
pub open spec fn operator_spelling(op: Operator) -> Option<Seq<char>> {
    match op {
        Operator::Eq => Some("="@),
        Operator::NotEq => Some("!="@),
        Operator::Lt => Some("<"@),
        Operator::LtEq => Some("<="@),
        Operator::Gt => Some(">"@),
        Operator::GtEq => Some(">="@),
        Operator::And => Some("AND"@),
        Operator::Or => Some("OR"@),
        Operator::Plus => Some("+"@),
        Operator::Minus => Some("-"@),
        Operator::Multiply => Some("*"@),
        Operator::Divide => Some("/"@),
        Operator::Modulo => Some("%"@),
        _ => None,
    }
}

/// The SQL spelling of an operator; `None` for one that is not rendered.
pub fn render_operator(op: Operator) -> (spelling: Option<&'static str>)
    ensures
        match spelling {
            Some(s) => operator_spelling(op) == Some(s@),
            None => operator_spelling(op) is None,
        },
{
    match op {
        Operator::Eq => Some("="),
        Operator::NotEq => Some("!="),
        Operator::Lt => Some("<"),
        Operator::LtEq => Some("<="),
        Operator::Gt => Some(">"),
        Operator::GtEq => Some(">="),
        Operator::And => Some("AND"),
        Operator::Or => Some("OR"),
        Operator::Plus => Some("+"),
        Operator::Minus => Some("-"),
        Operator::Multiply => Some("*"),
        Operator::Divide => Some("/"),
        Operator::Modulo => Some("%"),
        _ => None,
    }
}

/// Whether a character may begin an identifier.
pub open spec fn begins_identifier(c: char) -> bool {
    'a' <= c <= 'z' || 'A' <= c <= 'Z' || c == '_'
}

/// Whether a character may stand in an identifier.
pub open spec fn continues_identifier(c: char) -> bool {
    begins_identifier(c) || '0' <= c <= '9'
}

/// Whether a name can be written without quotes.
pub open spec fn is_identifier(name: Seq<char>) -> bool {
    &&& name.len() > 0
    &&& begins_identifier(name[0])
    &&& forall|i: int| 0 <= i < name.len() ==> continues_identifier(#[trigger] name[i])
}

fn may_begin(c: char) -> (begins: bool)
    ensures
        begins == begins_identifier(c),
{
    ('a' <= c && c <= 'z') || ('A' <= c && c <= 'Z') || c == '_'
}

/// Renders a column reference, rejecting names that would need quoting.
pub fn render_identifier(name: &str) -> (identifier: Option<String>)
    ensures
        text_view(identifier) == if is_identifier(name@) {
            Some(name@)
        } else {
            None
        },
{
    let mut first = true;
    for c in iter: name.chars()
        invariant
            iter.seq() == name@,
            first == (iter.index() == 0),
            !first ==> begins_identifier(name@[0]),
            forall|i: int| 0 <= i < iter.index() ==> continues_identifier(#[trigger] name@[i]),
    {
        assert(c == name@[iter.index()]);
        if !(may_begin(c) || (!first && '0' <= c && c <= '9')) {
            return None;
        }
        first = false;
    }
    if first {
        None
    } else {
        Some(name.to_owned())
    }
}

/// A text with every quote doubled.
pub open spec fn doubled_quotes(text: Seq<char>) -> Seq<char>
    decreases text.len(),
{
    if text.len() == 0 {
        Seq::empty()
    } else {
        let rest = doubled_quotes(text.drop_last());
        if text.last() == '\'' {
            rest.push('\'').push('\'')
        } else {
            rest.push(text.last())
        }
    }
}

/// The SQL spelling of a string literal.
pub open spec fn quoted(text: Seq<char>) -> Seq<char> {
    seq!['\''] + doubled_quotes(text) + seq!['\'']
}

/// Renders a string literal: in quotes, with every quote inside doubled.
pub fn render_string(value: &str) -> (literal: String)
    ensures
        literal@ == quoted(value@),
{
    let mut literal = String::new();
    literal.push('\'');
    for c in iter: value.chars()
        invariant
            iter.seq() == value@,
            literal@ == seq!['\''] + doubled_quotes(value@.take(iter.index())),
    {
        assert(c == value@[iter.index()]);
        assert(value@.take(iter.index() + 1).drop_last() == value@.take(iter.index()));
        literal.push(c);
        if c == '\'' {
            literal.push(c);
        }
    }
    assert(value@.take(value@.len() as int) == value@);
    literal.push('\'');
    literal
}

/// The SQL spelling of a number: an integral one keeps one decimal place, and
/// one that is not finite has none.
pub open spec fn float_spelling(negative: bool, worth: Worth) -> Option<Seq<char>> {
    match worth {
        Worth::Finite(units) => Some(
            if float::integral_units(units) {
                text::integral_spelling(negative, units)
            } else {
                shortest_spelling(units)
            },
        ),
        _ => None,
    }
}

/// Renders a double; `None` for one that is not finite.
pub fn render_float(bits: u64) -> (literal: Option<String>)
    ensures
        text_view(literal) == float_spelling(float::negative_64(bits), float::worth_64(bits)),
        sql::number_is_word(float::worth_64(bits)),
{
    if float::is_nan(bits) || float::is_infinite(bits) {
        return None;
    }
    if float::floor_saturating(bits).integral {
        Some(integral_text(bits))
    } else {
        let text = shortest_text(bits);
        proof {
            sql::lemma_fraction_is_word(text@);
        }
        Some(text)
    }
}

/// The SQL spelling of a literal.
pub open spec fn literal_spelling(value: ScalarView) -> Option<Seq<char>> {
    match value {
        ScalarView::Boolean(Some(v)) => Some(
            if v {
                "true"@
            } else {
                "false"@
            },
        ),
        ScalarView::Int8(Some(v)) => Some(text::decimal(v as int)),
        ScalarView::Int16(Some(v)) => Some(text::decimal(v as int)),
        ScalarView::Int32(Some(v)) => Some(text::decimal(v as int)),
        ScalarView::Int64(Some(v)) => Some(text::decimal(v as int)),
        ScalarView::UInt8(Some(v)) => Some(text::decimal(v as int)),
        ScalarView::UInt16(Some(v)) => Some(text::decimal(v as int)),
        ScalarView::UInt32(Some(v)) => Some(text::decimal(v as int)),
        ScalarView::UInt64(Some(v)) => Some(text::decimal(v as int)),
        ScalarView::Float32(Some(bits)) => float_spelling(
            float::negative_32(bits),
            float::worth_32(bits),
        ),
        ScalarView::Float64(Some(bits)) => float_spelling(
            float::negative_64(bits),
            float::worth_64(bits),
        ),
        ScalarView::Utf8(Some(text))
        | ScalarView::LargeUtf8(Some(text))
        | ScalarView::Utf8View(Some(text)) => Some(quoted(text)),
        ScalarView::Float16(_) | ScalarView::Decimal128(..) | ScalarView::Other(_) => None,
        _ => Some("NULL"@),
    }
}

/// Renders a literal, restricted to the kinds that are spelled alike
/// everywhere: half precision, temporal and decimal literals are not rendered.
/// A null is spelled alike whatever its kind.
pub fn render_literal(value: &Scalar) -> (literal: Option<String>)
    ensures
        text_view(literal) == literal_spelling(value@),
        sql::numbers_are_words(ExprView::Literal(value@)),
{
    match value {
        Scalar::Boolean(Some(v)) => Some(
            if *v {
                "true".to_owned()
            } else {
                "false".to_owned()
            },
        ),
        Scalar::Int8(Some(v)) => Some(decimal_text(*v as i128)),
        Scalar::Int16(Some(v)) => Some(decimal_text(*v as i128)),
        Scalar::Int32(Some(v)) => Some(decimal_text(*v as i128)),
        Scalar::Int64(Some(v)) => Some(decimal_text(*v as i128)),
        Scalar::UInt8(Some(v)) => Some(decimal_text(*v as i128)),
        Scalar::UInt16(Some(v)) => Some(decimal_text(*v as i128)),
        Scalar::UInt32(Some(v)) => Some(decimal_text(*v as i128)),
        Scalar::UInt64(Some(v)) => Some(decimal_text(*v as i128)),
        Scalar::Float32(Some(bits)) => render_float(float::widen_32(*bits)),
        Scalar::Float64(Some(bits)) => render_float(*bits),
        Scalar::Utf8(Some(text)) | Scalar::LargeUtf8(Some(text)) | Scalar::Utf8View(Some(text)) => {
            Some(render_string(text.as_str()))
        },
        Scalar::Float16(_) | Scalar::Decimal128(..) | Scalar::Other(_) => None,
        _ => Some("NULL".to_owned()),
    }
}

/// Texts one after another with a separator between them.
pub open spec fn joined(parts: Seq<Seq<char>>, separator: Seq<char>) -> Seq<char>
    decreases parts.len(),
{
    if parts.len() == 0 {
        Seq::empty()
    } else if parts.len() == 1 {
        parts[0]
    } else {
        joined(parts.drop_last(), separator) + separator + parts.last()
    }
}

/// Joins texts with a separator between them.
fn join(parts: &[String], separator: &str) -> (text: String)
    ensures
        text@ == joined(expr::texts(parts@), separator@),
{
    let mut text = String::new();
    for i in 0..parts.len()
        invariant
            text@ == joined(expr::texts(parts@).take(i as int), separator@),
    {
        assert(expr::texts(parts@).take(i + 1).drop_last() == expr::texts(parts@).take(i as int));
        if i > 0 {
            text.append(separator);
        }
        text.append(parts[i].as_str());
    }
    assert(expr::texts(parts@).take(parts@.len() as int) == expr::texts(parts@));
    text
}

/// The SQL spelling of all of a list of filters at once.
pub open spec fn conjunction(filters: Seq<Seq<char>>) -> Option<Seq<char>> {
    if filters.len() == 0 {
        None
    } else {
        Some(joined(filters, " AND "@))
    }
}

/// Combines rendered filters into a single filter; `None` where there are none.
pub fn combine_lance_filters(filters: &[String]) -> (combined: Option<String>)
    ensures
        text_view(combined) == conjunction(expr::texts(filters@)),
{
    if filters.len() == 0 {
        None
    } else if filters.len() == 1 {
        Some(filters[0].clone())
    } else {
        Some(join(filters, " AND "))
    }
}

/// The word in front of a negated predicate.
pub open spec fn negation(negated: bool) -> Seq<char> {
    if negated {
        "NOT "@
    } else {
        ""@
    }
}

/// A text between two others, where there is one.
pub open spec fn enclosed(
    before: Seq<char>,
    text: Option<Seq<char>>,
    after: Seq<char>,
) -> Option<Seq<char>> {
    match text {
        Some(t) => Some(before + t + after),
        None => None,
    }
}

/// The SQL of an operator between two operands, where all of them have one.
pub open spec fn operation(
    left: Option<Seq<char>>,
    op: Option<Seq<char>>,
    right: Option<Seq<char>>,
) -> Option<Seq<char>> {
    match (left, op, right) {
        (Some(l), Some(o), Some(r)) => Some("("@ + l + " "@ + o + " "@ + r + ")"@),
        _ => None,
    }
}

/// The SQL of a range predicate, where all its parts have one.
pub open spec fn range(
    value: Option<Seq<char>>,
    negated: bool,
    low: Option<Seq<char>>,
    high: Option<Seq<char>>,
) -> Option<Seq<char>> {
    match (value, low, high) {
        (Some(v), Some(l), Some(h)) => Some(
            "("@ + v + " "@ + negation(negated) + "BETWEEN "@ + l + " AND "@ + h + ")"@,
        ),
        _ => None,
    }
}

/// The SQL of membership in a list, where the value and every item have one.
pub open spec fn membership(
    value: Option<Seq<char>>,
    negated: bool,
    items: Seq<Option<Seq<char>>>,
) -> Option<Seq<char>> {
    match (value, all_present(items)) {
        (Some(v), Some(parts)) => Some(
            "("@ + v + " "@ + negation(negated) + "IN ("@ + joined(parts, ", "@) + "))"@,
        ),
        _ => None,
    }
}

/// The SQL of a pattern predicate, where its parts have one.
pub open spec fn matching(
    value: Option<Seq<char>>,
    negated: bool,
    case_insensitive: bool,
    pattern: Option<Seq<char>>,
) -> Option<Seq<char>> {
    let word = if case_insensitive { "ILIKE"@ } else { "LIKE"@ };
    match (value, pattern) {
        (Some(v), Some(p)) => Some("("@ + v + " "@ + negation(negated) + word + " "@ + p + ")"@),
        _ => None,
    }
}

/// The texts of a list, where none is missing.
pub open spec fn all_present(list: Seq<Option<Seq<char>>>) -> Option<Seq<Seq<char>>> {
    if forall|i: int| 0 <= i < list.len() ==> (#[trigger] list[i]) is Some {
        Some(list.map_values(|text: Option<Seq<char>>| text->0))
    } else {
        None
    }
}

/// The SQL spelling of an expression; `None` where it or a part of it has none.
pub open spec fn spelling(expr: ExprView) -> Option<Seq<char>>
    decreases expr,
{
    match expr {
        ExprView::Column(column) => if is_identifier(column.name) {
            Some(column.name)
        } else {
            None
        },
        ExprView::Literal(value) => literal_spelling(value),
        ExprView::BinaryExpr { left, op, right } => operation(
            spelling(*left),
            operator_spelling(op),
            spelling(*right),
        ),
        ExprView::Not(inner) => enclosed("(NOT "@, spelling(*inner), ")"@),
        ExprView::Negative(inner) => enclosed("(- "@, spelling(*inner), ")"@),
        ExprView::IsNull(inner) => enclosed("("@, spelling(*inner), " IS NULL)"@),
        ExprView::IsNotNull(inner) => enclosed("("@, spelling(*inner), " IS NOT NULL)"@),
        ExprView::IsTrue(inner) => enclosed("("@, spelling(*inner), " IS TRUE)"@),
        ExprView::IsFalse(inner) => enclosed("("@, spelling(*inner), " IS FALSE)"@),
        ExprView::IsNotTrue(inner) => enclosed("("@, spelling(*inner), " IS NOT TRUE)"@),
        ExprView::IsNotFalse(inner) => enclosed("("@, spelling(*inner), " IS NOT FALSE)"@),
        ExprView::Between { expr, negated, low, high } => range(
            spelling(*expr),
            negated,
            spelling(*low),
            spelling(*high),
        ),
        ExprView::InList { expr, list, negated } => membership(
            spelling(*expr),
            negated,
            spellings(list),
        ),
        ExprView::Like { negated, expr, pattern, escape_char, case_insensitive } => if escape_char
            is Some {
            None
        } else {
            matching(spelling(*expr), negated, case_insensitive, spelling(*pattern))
        },
        _ => None,
    }
}

/// The SQL spelling of each of a list of expressions.
pub open spec fn spellings(list: Seq<ExprView>) -> Seq<Option<Seq<char>>>
    decreases list,
{
    if list.len() == 0 {
        Seq::empty()
    } else {
        spellings(list.drop_last()).push(spelling(list.last()))
    }
}

/// Each item of a list has its own place among the spellings.
pub proof fn lemma_spellings(list: Seq<ExprView>)
    ensures
        spellings(list).len() == list.len(),
        forall|i: int| 0 <= i < list.len() ==> #[trigger] spellings(list)[i] == spelling(list[i]),
    decreases list.len(),
{
    if list.len() > 0 {
        lemma_spellings(list.drop_last());
    }
}

fn enclose(before: &str, text: &Option<String>, after: &str) -> (whole: Option<String>)
    ensures
        text_view(whole) == enclosed(before@, text_view(*text), after@),
{
    match text {
        Some(text) => {
            let mut whole = before.to_owned();
            whole.append(text.as_str());
            whole.append(after);
            Some(whole)
        },
        None => None,
    }
}

fn operate(left: &Option<String>, op: Operator, right: &Option<String>) -> (filter: Option<String>)
    ensures
        text_view(filter) == operation(
            text_view(*left),
            operator_spelling(op),
            text_view(*right),
        ),
{
    match (left, render_operator(op), right) {
        (Some(left), Some(op), Some(right)) => {
            let mut filter = "(".to_owned();
            filter.append(left.as_str());
            filter.append(" ");
            filter.append(op);
            filter.append(" ");
            filter.append(right.as_str());
            filter.append(")");
            Some(filter)
        },
        _ => None,
    }
}

/// A value, and the word in front of a negated predicate on it.
fn predicate(value: &str, negated: bool) -> (filter: String)
    ensures
        filter@ == "("@ + value@ + " "@ + negation(negated),
{
    let mut filter = "(".to_owned();
    filter.append(value);
    filter.append(" ");
    filter.append(
        if negated {
            "NOT "
        } else {
            ""
        },
    );
    filter
}

fn bound(
    value: &Option<String>,
    negated: bool,
    low: &Option<String>,
    high: &Option<String>,
) -> (filter: Option<String>)
    ensures
        text_view(filter) == range(
            text_view(*value),
            negated,
            text_view(*low),
            text_view(*high),
        ),
{
    match (value, low, high) {
        (Some(value), Some(low), Some(high)) => {
            let mut filter = predicate(value.as_str(), negated);
            filter.append("BETWEEN ");
            filter.append(low.as_str());
            filter.append(" AND ");
            filter.append(high.as_str());
            filter.append(")");
            Some(filter)
        },
        _ => None,
    }
}

fn enlist(value: &str, negated: bool, items: &[String]) -> (filter: String)
    ensures
        filter@ == "("@ + value@ + " "@ + negation(negated) + "IN ("@ + joined(
            expr::texts(items@),
            ", "@,
        ) + "))"@,
{
    let mut filter = predicate(value, negated);
    filter.append("IN (");
    filter.append(join(items, ", ").as_str());
    filter.append("))");
    filter
}

fn compare_pattern(
    value: &Option<String>,
    negated: bool,
    case_insensitive: bool,
    pattern: &Option<String>,
) -> (filter: Option<String>)
    ensures
        text_view(filter) == matching(
            text_view(*value),
            negated,
            case_insensitive,
            text_view(*pattern),
        ),
{
    match (value, pattern) {
        (Some(value), Some(pattern)) => {
            let mut filter = predicate(value.as_str(), negated);
            filter.append(
                if case_insensitive {
                    "ILIKE"
                } else {
                    "LIKE"
                },
            );
            filter.append(" ");
            filter.append(pattern.as_str());
            filter.append(")");
            Some(filter)
        },
        _ => None,
    }
}

/// Renders an expression as a filter; `None` where the dataset cannot be asked
/// to evaluate it. A reader of the filter finds the expression again.
pub fn to_lance_filter(expr: &Expr) -> (filter: Option<String>)
    ensures
        text_view(filter) == spelling(expr@),
        filter is Some ==> sql::numbers_are_words(expr@),
        filter matches Some(text) ==> sql::read_filter(text@) == Some(
            (sql::tree(expr@), Seq::<char>::empty()),
        ),
        filter is Some ==> meaning::understood(sql::tree(expr@)) == meaning::said(expr@),
{
    let filter = render(expr);
    proof {
        if filter is Some {
            sql::law_filter_reads_back(expr@, Seq::empty());
            meaning::law_rendered_filter_is_understood(expr@, Seq::empty());
            assert(filter->0@ + Seq::<char>::empty() == filter->0@);
        }
    }
    filter
}

fn render(expr: &Expr) -> (filter: Option<String>)
    ensures
        text_view(filter) == spelling(expr@),
        filter is Some ==> sql::numbers_are_words(expr@),
    decreases expr,
{
    match expr {
        Expr::Column(column) => render_identifier(column.name.as_str()),
        Expr::Literal(value) => render_literal(value),
        Expr::BinaryExpr { left, op, right } => operate(&render(left), *op, &render(right)),
        Expr::Not(inner) => enclose("(NOT ", &render(inner), ")"),
        Expr::Negative(inner) => enclose("(- ", &render(inner), ")"),
        Expr::IsNull(inner) => enclose("(", &render(inner), " IS NULL)"),
        Expr::IsNotNull(inner) => enclose("(", &render(inner), " IS NOT NULL)"),
        Expr::IsTrue(inner) => enclose("(", &render(inner), " IS TRUE)"),
        Expr::IsFalse(inner) => enclose("(", &render(inner), " IS FALSE)"),
        Expr::IsNotTrue(inner) => enclose("(", &render(inner), " IS NOT TRUE)"),
        Expr::IsNotFalse(inner) => enclose("(", &render(inner), " IS NOT FALSE)"),
        Expr::Between { expr, negated, low, high } => bound(
            &render(expr),
            *negated,
            &render(low),
            &render(high),
        ),
        Expr::InList { expr: value, list, negated } => {
            let items = render_all(list);
            let value = render(value);
            assert(expr@->InList_list == expr::views(list@));
            match (value, items) {
                (Some(value), Some(items)) => {
                    proof {
                        sql::lemma_all_numbers(expr::views(list@), 0);
                    }
                    Some(enlist(value.as_str(), *negated, items.as_slice()))
                },
                _ => None,
            }
        },
        Expr::Like { negated, expr, pattern, escape_char, case_insensitive } => {
            if escape_char.is_some() {
                return None;
            }
            compare_pattern(&render(expr), *negated, *case_insensitive, &render(pattern))
        },
        _ => None,
    }
}

/// Renders every expression of a list; `None` where one of them has no SQL.
fn render_all(list: &Vec<Expr>) -> (items: Option<Vec<String>>)
    ensures
        match items {
            Some(items) => all_present(spellings(expr::views(list@))) == Some(
                expr::texts(items@),
            ),
            None => all_present(spellings(expr::views(list@))) is None,
        },
        items is Some ==> forall|i: int|
            0 <= i < list@.len() ==> sql::numbers_are_words(#[trigger] expr::views(list@)[i]),
    decreases list,
{
    let ghost parts = spellings(expr::views(list@));
    proof {
        lemma_spellings(expr::views(list@));
    }
    let mut items: Vec<String> = Vec::new();
    for i in 0..list.len()
        invariant
            parts == spellings(expr::views(list@)),
            parts.len() == list@.len(),
            forall|j: int| 0 <= j < list@.len() ==> #[trigger] parts[j] == spelling(list@[j]@),
            items@.len() == i,
            forall|j: int| 0 <= j < i ==> parts[j] == Some((#[trigger] items@[j])@),
            forall|j: int|
                0 <= j < i ==> sql::numbers_are_words(#[trigger] expr::views(list@)[j]),
    {
        assert(decreases_to!(list => list@[i as int]));
        let item = render(&list[i]);
        assert(parts[i as int] == text_view(item));
        match item {
            Some(text) => items.push(text),
            None => {
                return None;
            },
        }
    }
    assert(forall|j: int| 0 <= j < parts.len() ==> parts[j] == Some(items@[j]@));
    assert(parts.map_values(|text: Option<Seq<char>>| text->0) == expr::texts(items@));
    Some(items)
}

/// What stands in front of the quote that ends a string literal, with doubled
/// quotes read as one, and what stands behind it; `None` where no quote ends
/// the literal.
pub open spec fn string_body(text: Seq<char>) -> Option<(Seq<char>, Seq<char>)>
    decreases text.len(),
{
    if text.len() == 0 {
        None
    } else if text[0] != '\'' {
        match string_body(text.skip(1)) {
            Some((body, rest)) => Some((seq![text[0]] + body, rest)),
            None => None,
        }
    } else if text.len() > 1 && text[1] == '\'' {
        match string_body(text.skip(2)) {
            Some((body, rest)) => Some((seq!['\''] + body, rest)),
            None => None,
        }
    } else {
        Some((Seq::empty(), text.skip(1)))
    }
}

/// The string that a text begins with, as SQL reads it, and the rest of the
/// text; `None` where the text does not begin with a string.
pub open spec fn read_string(text: Seq<char>) -> Option<(Seq<char>, Seq<char>)> {
    if text.len() > 0 && text[0] == '\'' {
        string_body(text.skip(1))
    } else {
        None
    }
}

proof fn lemma_doubled_quotes_concat(a: Seq<char>, b: Seq<char>)
    ensures
        doubled_quotes(a + b) == doubled_quotes(a) + doubled_quotes(b),
    decreases b.len(),
{
    if b.len() == 0 {
        assert(a + b == a);
    } else {
        lemma_doubled_quotes_concat(a, b.drop_last());
        assert((a + b).drop_last() == a + b.drop_last());
    }
}

proof fn lemma_string_body(text: Seq<char>, rest: Seq<char>)
    requires
        rest.len() == 0 || rest[0] != '\'',
    ensures
        string_body(doubled_quotes(text) + seq!['\''] + rest) == Some((text, rest)),
    decreases text.len(),
{
    let whole = doubled_quotes(text) + seq!['\''] + rest;
    if text.len() == 0 {
        assert(whole.skip(1) == rest);
    } else {
        let tail = text.skip(1);
        assert(text == seq![text[0]] + tail);
        lemma_doubled_quotes_concat(seq![text[0]], tail);
        lemma_string_body(tail, rest);
        let remaining = doubled_quotes(tail) + seq!['\''] + rest;
        reveal_with_fuel(doubled_quotes, 2);
        assert(seq![text[0]].drop_last() == Seq::<char>::empty());
        if text[0] == '\'' {
            assert(doubled_quotes(seq![text[0]]) == seq!['\'', '\'']);
            assert(whole.skip(2) == remaining);
        } else {
            assert(doubled_quotes(seq![text[0]]) == seq![text[0]]);
            assert(whole.skip(1) == remaining);
        }
    }
}

/// A rendered string literal reads back as the string it was made of, and ends
/// where it was meant to end, whatever the string holds and whatever stands
/// behind the literal.
pub proof fn law_string_reads_back(text: Seq<char>, rest: Seq<char>)
    requires
        rest.len() == 0 || rest[0] != '\'',
    ensures
        read_string(quoted(text) + rest) == Some((text, rest)),
{
    lemma_string_body(text, rest);
    assert((quoted(text) + rest).skip(1) == doubled_quotes(text) + seq!['\''] + rest);
}

/// A filter is rendered only with every part of it: where a part has no SQL
/// spelling, neither has the whole.
pub proof fn law_no_part_is_dropped(expr: ExprView)
    ensures
        spelling(expr) is Some ==> match expr {
            ExprView::BinaryExpr { left, right, .. } => spelling(*left) is Some && spelling(
                *right,
            ) is Some,
            ExprView::Not(inner)
            | ExprView::Negative(inner)
            | ExprView::IsNull(inner)
            | ExprView::IsNotNull(inner)
            | ExprView::IsTrue(inner)
            | ExprView::IsFalse(inner)
            | ExprView::IsNotTrue(inner)
            | ExprView::IsNotFalse(inner) => spelling(*inner) is Some,
            ExprView::Between { expr, low, high, .. } => spelling(*expr) is Some && spelling(
                *low,
            ) is Some && spelling(*high) is Some,
            ExprView::InList { expr, list, .. } => spelling(*expr) is Some && forall|i: int|
                0 <= i < list.len() ==> spelling(#[trigger] list[i]) is Some,
            ExprView::Like { expr, pattern, .. } => spelling(*expr) is Some && spelling(
                *pattern,
            ) is Some,
            _ => true,
        },
{
    if spelling(expr) is Some {
        if let ExprView::InList { list, .. } = expr {
            lemma_spellings(list);
            assert forall|i: int| 0 <= i < list.len() implies spelling(
                #[trigger] list[i],
            ) is Some by {
                assert(spellings(list)[i] is Some);
            }
        }
    }
}

} // verus!
