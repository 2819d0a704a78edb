//! Reading rendered filters back.
//!
//! A reader of the SQL that filters are rendered as, and the law that it finds
//! the filter again in what was rendered, whatever stands behind it.

use crate::expr::{ExprView, Operator};
use crate::filter;
use crate::float::{self, Worth};
use crate::scalar::ScalarView;
use crate::text;
use vstd::prelude::*;

verus! {

/// What a reader makes of SQL. Names, numbers and the like stay words.
pub enum SqlTree {
    Word(Seq<char>),
    Text(Seq<char>),
    Operation { left: Box<SqlTree>, op: Seq<char>, right: Box<SqlTree> },
    Not(Box<SqlTree>),
    Negative(Box<SqlTree>),
    IsNull(Box<SqlTree>),
    IsNotNull(Box<SqlTree>),
    IsTrue(Box<SqlTree>),
    IsFalse(Box<SqlTree>),
    IsNotTrue(Box<SqlTree>),
    IsNotFalse(Box<SqlTree>),
    Between { value: Box<SqlTree>, negated: bool, low: Box<SqlTree>, high: Box<SqlTree> },
    InList { value: Box<SqlTree>, negated: bool, items: Seq<SqlTree> },
    Like { value: Box<SqlTree>, negated: bool, case_insensitive: bool, pattern: Box<SqlTree> },
}

/// Whether a character ends a word.
pub open spec fn is_delimiter(c: char) -> bool {
    c == ' ' || c == ')' || c == ','
}

/// Whether a text is one word.
pub open spec fn is_word(word: Seq<char>) -> bool {
    &&& word.len() > 0
    &&& word[0] != '('
    &&& word[0] != '\''
    &&& forall|i: int| 0 <= i < word.len() ==> !is_delimiter(#[trigger] word[i])
}

/// How many characters stand in front of the first that ends a word.
pub open spec fn word_length(text: Seq<char>) -> nat
    decreases text.len(),
{
    if text.len() == 0 || is_delimiter(text[0]) {
        0
    } else {
        1 + word_length(text.skip(1))
    }
}

/// Whether a text begins with another.
pub open spec fn begins_with(text: Seq<char>, prefix: Seq<char>) -> bool {
    text.len() >= prefix.len() && text.take(prefix.len() as int) == prefix
}

/// The rest of a text that begins with another.
pub open spec fn behind(text: Seq<char>, prefix: Seq<char>) -> Seq<char> {
    text.skip(prefix.len() as int)
}

/// Reads one expression, and gives the text behind it. `depth` bounds how deep
/// expressions may stand in one another.
pub open spec fn read(text: Seq<char>, depth: nat) -> Option<(SqlTree, Seq<char>)>
    decreases depth, 0nat,
{
    if depth == 0 || text.len() == 0 {
        None
    } else if text[0] == '\'' {
        match filter::read_string(text) {
            Some((body, rest)) => Some((SqlTree::Text(body), rest)),
            None => None,
        }
    } else if text[0] == '(' {
        read_compound(text.skip(1), (depth - 1) as nat)
    } else if word_length(text) > 0 {
        let n = word_length(text) as int;
        Some((SqlTree::Word(text.take(n)), text.skip(n)))
    } else {
        None
    }
}

/// Reads what stands behind an opening bracket.
pub open spec fn read_compound(text: Seq<char>, depth: nat) -> Option<(SqlTree, Seq<char>)>
    decreases depth, 4nat,
{
    match read_last(text, "NOT "@, depth) {
        Some((inner, rest)) => Some((SqlTree::Not(Box::new(inner)), rest)),
        None => match read_last(text, "- "@, depth) {
            Some((inner, rest)) => Some((SqlTree::Negative(Box::new(inner)), rest)),
            None => match read(text, depth) {
                Some((value, rest)) if begins_with(rest, " "@) => read_suffix(
                    value,
                    behind(rest, " "@),
                    depth,
                ),
                _ => None,
            },
        },
    }
}

/// Reads an expression between a given text and a closing bracket.
pub open spec fn read_last(
    text: Seq<char>,
    before: Seq<char>,
    depth: nat,
) -> Option<(SqlTree, Seq<char>)>
    decreases depth, 1nat,
{
    if begins_with(text, before) {
        match read(behind(text, before), depth) {
            Some((inner, rest)) if begins_with(rest, ")"@) => Some((inner, behind(rest, ")"@))),
            _ => None,
        }
    } else {
        None
    }
}

/// Whether a text begins like a predicate other than a test.
pub open spec fn is_predicate(text: Seq<char>) -> bool {
    ||| begins_with(text, "BETWEEN "@)
    ||| begins_with(text, "IN ("@)
    ||| begins_with(text, "LIKE "@)
    ||| begins_with(text, "ILIKE "@)
}

/// Reads what stands behind a value and a space.
pub open spec fn read_suffix(
    value: SqlTree,
    text: Seq<char>,
    depth: nat,
) -> Option<(SqlTree, Seq<char>)>
    decreases depth, 3nat,
{
    let value = Box::new(value);
    if begins_with(text, "IS NULL)"@) {
        Some((SqlTree::IsNull(value), behind(text, "IS NULL)"@)))
    } else if begins_with(text, "IS NOT NULL)"@) {
        Some((SqlTree::IsNotNull(value), behind(text, "IS NOT NULL)"@)))
    } else if begins_with(text, "IS TRUE)"@) {
        Some((SqlTree::IsTrue(value), behind(text, "IS TRUE)"@)))
    } else if begins_with(text, "IS FALSE)"@) {
        Some((SqlTree::IsFalse(value), behind(text, "IS FALSE)"@)))
    } else if begins_with(text, "IS NOT TRUE)"@) {
        Some((SqlTree::IsNotTrue(value), behind(text, "IS NOT TRUE)"@)))
    } else if begins_with(text, "IS NOT FALSE)"@) {
        Some((SqlTree::IsNotFalse(value), behind(text, "IS NOT FALSE)"@)))
    } else if begins_with(text, "NOT "@) {
        read_predicate(value, true, behind(text, "NOT "@), depth)
    } else if is_predicate(text) {
        read_predicate(value, false, text, depth)
    } else {
        let op = text.take(word_length(text) as int);
        match read_last(text, op + " "@, depth) {
            Some((right, rest)) => Some(
                (SqlTree::Operation { left: value, op, right: Box::new(right) }, rest),
            ),
            None => None,
        }
    }
}

/// Reads a predicate on a value.
pub open spec fn read_predicate(
    value: Box<SqlTree>,
    negated: bool,
    text: Seq<char>,
    depth: nat,
) -> Option<(SqlTree, Seq<char>)>
    decreases depth, 2nat,
{
    if begins_with(text, "BETWEEN "@) {
        match read(behind(text, "BETWEEN "@), depth) {
            Some((low, rest)) => match read_last(rest, " AND "@, depth) {
                Some((high, rest)) => Some(
                    (
                        SqlTree::Between {
                            value,
                            negated,
                            low: Box::new(low),
                            high: Box::new(high),
                        },
                        rest,
                    ),
                ),
                None => None,
            },
            None => None,
        }
    } else if begins_with(text, "IN ("@) {
        match read_items(behind(text, "IN ("@), depth) {
            Some((items, rest)) => Some((SqlTree::InList { value, negated, items }, rest)),
            None => None,
        }
    } else if begins_with(text, "LIKE "@) {
        match read_last(text, "LIKE "@, depth) {
            Some((pattern, rest)) => Some(
                (
                    SqlTree::Like {
                        value,
                        negated,
                        case_insensitive: false,
                        pattern: Box::new(pattern),
                    },
                    rest,
                ),
            ),
            None => None,
        }
    } else {
        match read_last(text, "ILIKE "@, depth) {
            Some((pattern, rest)) => Some(
                (
                    SqlTree::Like {
                        value,
                        negated,
                        case_insensitive: true,
                        pattern: Box::new(pattern),
                    },
                    rest,
                ),
            ),
            None => None,
        }
    }
}

/// Reads the items of a list up to the brackets that close it.
pub open spec fn read_items(text: Seq<char>, depth: nat) -> Option<(Seq<SqlTree>, Seq<char>)>
    decreases depth, 1nat,
{
    if begins_with(text, "))"@) {
        Some((Seq::empty(), behind(text, "))"@)))
    } else if depth == 0 {
        None
    } else {
        match read(text, depth) {
            Some((item, rest)) => if begins_with(rest, "))"@) {
                Some((seq![item], behind(rest, "))"@)))
            } else if begins_with(rest, ", "@) {
                match read_items(behind(rest, ", "@), (depth - 1) as nat) {
                    Some((items, rest)) => Some((seq![item] + items, rest)),
                    None => None,
                }
            } else {
                None
            },
            None => None,
        }
    }
}

/// What a rendered expression is to a reader.
pub open spec fn tree(expr: ExprView) -> SqlTree
    decreases expr,
{
    match expr {
        ExprView::Literal(ScalarView::Utf8(Some(text)))
        | ExprView::Literal(ScalarView::LargeUtf8(Some(text)))
        | ExprView::Literal(ScalarView::Utf8View(Some(text))) => SqlTree::Text(text),
        ExprView::BinaryExpr { left, op, right } => SqlTree::Operation {
            left: Box::new(tree(*left)),
            op: filter::operator_spelling(op)->0,
            right: Box::new(tree(*right)),
        },
        ExprView::Not(inner) => SqlTree::Not(Box::new(tree(*inner))),
        ExprView::Negative(inner) => SqlTree::Negative(Box::new(tree(*inner))),
        ExprView::IsNull(inner) => SqlTree::IsNull(Box::new(tree(*inner))),
        ExprView::IsNotNull(inner) => SqlTree::IsNotNull(Box::new(tree(*inner))),
        ExprView::IsTrue(inner) => SqlTree::IsTrue(Box::new(tree(*inner))),
        ExprView::IsFalse(inner) => SqlTree::IsFalse(Box::new(tree(*inner))),
        ExprView::IsNotTrue(inner) => SqlTree::IsNotTrue(Box::new(tree(*inner))),
        ExprView::IsNotFalse(inner) => SqlTree::IsNotFalse(Box::new(tree(*inner))),
        ExprView::Between { expr, negated, low, high } => SqlTree::Between {
            value: Box::new(tree(*expr)),
            negated,
            low: Box::new(tree(*low)),
            high: Box::new(tree(*high)),
        },
        ExprView::InList { expr, list, negated } => SqlTree::InList {
            value: Box::new(tree(*expr)),
            negated,
            items: trees(list),
        },
        ExprView::Like { negated, expr, pattern, case_insensitive, .. } => SqlTree::Like {
            value: Box::new(tree(*expr)),
            negated,
            case_insensitive,
            pattern: Box::new(tree(*pattern)),
        },
        _ => SqlTree::Word(filter::spelling(expr)->0),
    }
}

/// What each of a list of rendered expressions is to a reader.
pub open spec fn trees(list: Seq<ExprView>) -> Seq<SqlTree>
    decreases list,
{
    if list.len() == 0 {
        Seq::empty()
    } else {
        trees(list.drop_last()).push(tree(list.last()))
    }
}

/// The characters of the words and signs between the parts of an expression.
proof fn lemma_signs()
    ensures
        "NOT "@ == seq!['N', 'O', 'T', ' '],
        "- "@ == seq!['-', ' '],
        " "@ == seq![' '],
        ")"@ == seq![')'],
        "IS NULL)"@ == seq!['I', 'S', ' ', 'N', 'U', 'L', 'L', ')'],
        "IS NOT NULL)"@ == seq!['I', 'S', ' ', 'N', 'O', 'T', ' ', 'N', 'U', 'L', 'L', ')'],
        "IS TRUE)"@ == seq!['I', 'S', ' ', 'T', 'R', 'U', 'E', ')'],
        "IS FALSE)"@ == seq!['I', 'S', ' ', 'F', 'A', 'L', 'S', 'E', ')'],
        "IS NOT TRUE)"@ == seq!['I', 'S', ' ', 'N', 'O', 'T', ' ', 'T', 'R', 'U', 'E', ')'],
        "IS NOT FALSE)"@ == seq!['I', 'S', ' ', 'N', 'O', 'T', ' ', 'F', 'A', 'L', 'S', 'E', ')'],
        "BETWEEN "@ == seq!['B', 'E', 'T', 'W', 'E', 'E', 'N', ' '],
        "IN ("@ == seq!['I', 'N', ' ', '('],
        "LIKE "@ == seq!['L', 'I', 'K', 'E', ' '],
        "ILIKE "@ == seq!['I', 'L', 'I', 'K', 'E', ' '],
        " AND "@ == seq![' ', 'A', 'N', 'D', ' '],
        "))"@ == seq![')', ')'],
        ", "@ == seq![',', ' '],
        "("@ == seq!['('],
        "(NOT "@ == seq!['(', 'N', 'O', 'T', ' '],
        "(- "@ == seq!['(', '-', ' '],
        " IS NULL)"@ == seq![' ', 'I', 'S', ' ', 'N', 'U', 'L', 'L', ')'],
        " IS NOT NULL)"@ == seq![' ', 'I', 'S', ' ', 'N', 'O', 'T', ' ', 'N', 'U', 'L', 'L', ')'],
        " IS TRUE)"@ == seq![' ', 'I', 'S', ' ', 'T', 'R', 'U', 'E', ')'],
        " IS FALSE)"@ == seq![' ', 'I', 'S', ' ', 'F', 'A', 'L', 'S', 'E', ')'],
        " IS NOT TRUE)"@ == seq![' ', 'I', 'S', ' ', 'N', 'O', 'T', ' ', 'T', 'R', 'U', 'E', ')'],
        " IS NOT FALSE)"@ == seq![' ', 'I', 'S', ' ', 'N', 'O', 'T', ' ', 'F', 'A', 'L', 'S', 'E', ')'],
        ""@ == Seq::<char>::empty(),
        "LIKE"@ == seq!['L', 'I', 'K', 'E'],
        "ILIKE"@ == seq!['I', 'L', 'I', 'K', 'E'],
{
    reveal_strlit("NOT ");
    reveal_strlit("- ");
    reveal_strlit(" ");
    reveal_strlit(")");
    reveal_strlit("IS NULL)");
    reveal_strlit("IS NOT NULL)");
    reveal_strlit("IS TRUE)");
    reveal_strlit("IS FALSE)");
    reveal_strlit("IS NOT TRUE)");
    reveal_strlit("IS NOT FALSE)");
    reveal_strlit("BETWEEN ");
    reveal_strlit("IN (");
    reveal_strlit("LIKE ");
    reveal_strlit("ILIKE ");
    reveal_strlit(" AND ");
    reveal_strlit("))");
    reveal_strlit(", ");
    reveal_strlit("(");
    reveal_strlit("(NOT ");
    reveal_strlit("(- ");
    reveal_strlit(" IS NULL)");
    reveal_strlit(" IS NOT NULL)");
    reveal_strlit(" IS TRUE)");
    reveal_strlit(" IS FALSE)");
    reveal_strlit(" IS NOT TRUE)");
    reveal_strlit(" IS NOT FALSE)");
    reveal_strlit("");
    reveal_strlit("LIKE");
    reveal_strlit("ILIKE");
    assert("NOT "@ =~= seq!['N', 'O', 'T', ' ']);
    assert("- "@ =~= seq!['-', ' ']);
    assert(" "@ =~= seq![' ']);
    assert(")"@ =~= seq![')']);
    assert("IS NULL)"@ =~= seq!['I', 'S', ' ', 'N', 'U', 'L', 'L', ')']);
    assert("IS NOT NULL)"@ =~= seq!['I', 'S', ' ', 'N', 'O', 'T', ' ', 'N', 'U', 'L', 'L', ')']);
    assert("IS TRUE)"@ =~= seq!['I', 'S', ' ', 'T', 'R', 'U', 'E', ')']);
    assert("IS FALSE)"@ =~= seq!['I', 'S', ' ', 'F', 'A', 'L', 'S', 'E', ')']);
    assert("IS NOT TRUE)"@ =~= seq!['I', 'S', ' ', 'N', 'O', 'T', ' ', 'T', 'R', 'U', 'E', ')']);
    assert("IS NOT FALSE)"@ =~= seq!['I', 'S', ' ', 'N', 'O', 'T', ' ', 'F', 'A', 'L', 'S', 'E', ')']);
    assert("BETWEEN "@ =~= seq!['B', 'E', 'T', 'W', 'E', 'E', 'N', ' ']);
    assert("IN ("@ =~= seq!['I', 'N', ' ', '(']);
    assert("LIKE "@ =~= seq!['L', 'I', 'K', 'E', ' ']);
    assert("ILIKE "@ =~= seq!['I', 'L', 'I', 'K', 'E', ' ']);
    assert(" AND "@ =~= seq![' ', 'A', 'N', 'D', ' ']);
    assert("))"@ =~= seq![')', ')']);
    assert(", "@ =~= seq![',', ' ']);
    assert("("@ =~= seq!['(']);
    assert("(NOT "@ =~= seq!['(', 'N', 'O', 'T', ' ']);
    assert("(- "@ =~= seq!['(', '-', ' ']);
    assert(" IS NULL)"@ =~= seq![' ', 'I', 'S', ' ', 'N', 'U', 'L', 'L', ')']);
    assert(" IS NOT NULL)"@ =~= seq![' ', 'I', 'S', ' ', 'N', 'O', 'T', ' ', 'N', 'U', 'L', 'L', ')']);
    assert(" IS TRUE)"@ =~= seq![' ', 'I', 'S', ' ', 'T', 'R', 'U', 'E', ')']);
    assert(" IS FALSE)"@ =~= seq![' ', 'I', 'S', ' ', 'F', 'A', 'L', 'S', 'E', ')']);
    assert(" IS NOT TRUE)"@ =~= seq![' ', 'I', 'S', ' ', 'N', 'O', 'T', ' ', 'T', 'R', 'U', 'E', ')']);
    assert(" IS NOT FALSE)"@ =~= seq![' ', 'I', 'S', ' ', 'N', 'O', 'T', ' ', 'F', 'A', 'L', 'S', 'E', ')']);
    assert(""@ =~= Seq::<char>::empty());
    assert("LIKE"@ =~= seq!['L', 'I', 'K', 'E']);
    assert("ILIKE"@ =~= seq!['I', 'L', 'I', 'K', 'E']);
}

/// The characters of the words that are literals, and of the operators.
proof fn lemma_words()
    ensures
        is_word("NULL"@),
        is_word("true"@),
        is_word("false"@),
        forall|op: Operator|
            #![trigger filter::operator_spelling(op)]
            filter::operator_spelling(op) matches Some(sign) ==> is_word(sign) && sign[0] != 'I'
                && sign[0] != 'N' && sign[0] != 'B' && sign[0] != 'L',
{
    reveal_strlit("NULL");
    reveal_strlit("true");
    reveal_strlit("false");
    reveal_strlit("=");
    reveal_strlit("!=");
    reveal_strlit("<");
    reveal_strlit("<=");
    reveal_strlit(">");
    reveal_strlit(">=");
    reveal_strlit("AND");
    reveal_strlit("OR");
    reveal_strlit("+");
    reveal_strlit("-");
    reveal_strlit("*");
    reveal_strlit("/");
    reveal_strlit("%");
}

/// Whether a text can stand behind an expression.
pub open spec fn may_follow(rest: Seq<char>) -> bool {
    rest.len() == 0 || is_delimiter(rest[0])
}

proof fn lemma_word_length(word: Seq<char>, rest: Seq<char>)
    requires
        forall|i: int| 0 <= i < word.len() ==> !is_delimiter(#[trigger] word[i]),
        may_follow(rest),
    ensures
        word_length(word + rest) == word.len(),
    decreases word.len(),
{
    if word.len() == 0 {
        assert(word + rest == rest);
    } else {
        let tail = word.skip(1);
        assert((word + rest).skip(1) == tail + rest);
        assert forall|i: int| 0 <= i < tail.len() implies !is_delimiter(#[trigger] tail[i]) by {
            assert(tail[i] == word[i + 1]);
        }
        lemma_word_length(tail, rest);
        assert(!is_delimiter(word[0]));
    }
}

proof fn lemma_read_word(word: Seq<char>, rest: Seq<char>, depth: nat)
    requires
        is_word(word),
        may_follow(rest),
        depth > 0,
    ensures
        read(word + rest, depth) == Some((SqlTree::Word(word), rest)),
{
    lemma_word_length(word, rest);
    assert((word + rest)[0] == word[0]);
    assert((word + rest).take(word.len() as int) == word);
    assert((word + rest).skip(word.len() as int) == rest);
}

proof fn lemma_begins(prefix: Seq<char>, rest: Seq<char>)
    ensures
        begins_with(prefix + rest, prefix),
        behind(prefix + rest, prefix) == rest,
{
    assert((prefix + rest).take(prefix.len() as int) == prefix);
    assert((prefix + rest).skip(prefix.len() as int) == rest);
}

proof fn lemma_differs(text: Seq<char>, prefix: Seq<char>, i: int)
    requires
        0 <= i < prefix.len(),
        i < text.len() ==> text[i] != prefix[i],
    ensures
        !begins_with(text, prefix),
{
    if begins_with(text, prefix) {
        assert(text.take(prefix.len() as int)[i] == text[i]);
    }
}

/// A word and a space in front of a text do not open a bracket that is closed
/// behind one expression, where the text is another word and a space.
proof fn lemma_not_last(
    first: Seq<char>,
    word: Seq<char>,
    next: Seq<char>,
    rest: Seq<char>,
    depth: nat,
)
    requires
        first.len() > 0,
        first[0] == '(' || first[0] == '\'' || is_word(first),
        is_word(word),
        is_word(next),
        depth > 0,
    ensures
        read_last(first + (" "@ + (next + (" "@ + rest))), word + " "@, depth) is None,
{
    lemma_signs();
    let text = first + (" "@ + (next + (" "@ + rest)));
    let prefix = word + " "@;
    if begins_with(text, prefix) {
        assert(text[0] == first[0]);
        assert(text.take(prefix.len() as int)[0] == word[0]);
        let remaining = behind(text, prefix);
        assert(text == word + (" "@ + remaining)) by {
            assert(text == text.take(prefix.len() as int) + remaining);
        }
        lemma_word_length(word, " "@ + remaining);
        lemma_word_length(first, " "@ + (next + (" "@ + rest)));
        assert(first.len() == word.len());
        assert(remaining == next + (" "@ + rest));
        lemma_read_word(next, " "@ + rest, depth);
        lemma_differs(" "@ + rest, ")"@, 0);
    }
}

/// Reads a compound that begins with a value.
proof fn lemma_read_compound(
    value: Seq<char>,
    found: SqlTree,
    next: Seq<char>,
    rest: Seq<char>,
    depth: nat,
)
    requires
        value.len() > 0,
        value[0] == '(' || value[0] == '\'' || is_word(value),
        is_word(next),
        depth > 0,
        read(value + (" "@ + (next + (" "@ + rest))), depth) == Some(
            (found, " "@ + (next + (" "@ + rest))),
        ),
    ensures
        read_compound(value + (" "@ + (next + (" "@ + rest))), depth) == read_suffix(
            found,
            next + (" "@ + rest),
            depth,
        ),
{
    lemma_signs();
    let suffix = next + (" "@ + rest);
    assert("NOT "@ == seq!['N', 'O', 'T'] + " "@);
    assert("- "@ == seq!['-'] + " "@);
    lemma_not_last(value, seq!['N', 'O', 'T'], next, rest, depth);
    lemma_not_last(value, seq!['-'], next, rest, depth);
    lemma_begins(" "@, suffix);
}

/// Digits with a point among them are one word.
pub proof fn lemma_fraction_is_word(text: Seq<char>)
    requires
        filter::is_fraction(text),
    ensures
        is_word(text),
{
    let point = choose|point: int| #[trigger] filter::is_point(text, point);
    assert forall|i: int| 0 <= i < text.len() implies !is_delimiter(#[trigger] text[i]) by {
        if i == point {
            assert(text[i] == '.');
        } else if i > 0 || text[0] != '-' {
            assert('0' <= text[i] <= '9');
        }
    }
}

/// Whether the spelling that the standard library gives a number is one word,
/// where the number is spelled by it.
pub open spec fn number_is_word(worth: Worth) -> bool {
    worth matches Worth::Finite(units) ==> (!float::integral_units(units) ==> is_word(
        filter::shortest_spelling(units),
    ))
}

/// Whether every number of an expression that the standard library spells is
/// spelled as one word.
pub open spec fn numbers_are_words(expr: ExprView) -> bool
    decreases expr, 0nat,
{
    match expr {
        ExprView::Literal(ScalarView::Float32(Some(bits))) => number_is_word(float::worth_32(bits)),
        ExprView::Literal(ScalarView::Float64(Some(bits))) => number_is_word(float::worth_64(bits)),
        ExprView::BinaryExpr { left, right, .. } => numbers_are_words(*left) && numbers_are_words(
            *right,
        ),
        ExprView::Not(inner)
        | ExprView::Negative(inner)
        | ExprView::IsNull(inner)
        | ExprView::IsNotNull(inner)
        | ExprView::IsTrue(inner)
        | ExprView::IsFalse(inner)
        | ExprView::IsNotTrue(inner)
        | ExprView::IsNotFalse(inner) => numbers_are_words(*inner),
        ExprView::Between { expr, low, high, .. } => numbers_are_words(*expr) && numbers_are_words(
            *low,
        ) && numbers_are_words(*high),
        ExprView::InList { expr, list, .. } => numbers_are_words(*expr) && all_numbers_are_words(
            list,
            0,
        ),
        ExprView::Like { expr, pattern, .. } => numbers_are_words(*expr) && numbers_are_words(
            *pattern,
        ),
        _ => true,
    }
}

/// Whether every number of the expressions from place `i` on is spelled as one
/// word.
pub open spec fn all_numbers_are_words(list: Seq<ExprView>, i: int) -> bool
    decreases list, list.len() - i,
{
    if 0 <= i < list.len() {
        numbers_are_words(list[i]) && all_numbers_are_words(list, i + 1)
    } else {
        true
    }
}

/// A depth that is enough to read an expression.
pub open spec fn depth_of(expr: ExprView) -> nat
    decreases expr, 0nat,
{
    match expr {
        ExprView::BinaryExpr { left, right, .. } => 1 + depth_of(*left) + depth_of(*right),
        ExprView::Not(inner)
        | ExprView::Negative(inner)
        | ExprView::IsNull(inner)
        | ExprView::IsNotNull(inner)
        | ExprView::IsTrue(inner)
        | ExprView::IsFalse(inner)
        | ExprView::IsNotTrue(inner)
        | ExprView::IsNotFalse(inner) => 1 + depth_of(*inner),
        ExprView::Between { expr, low, high, .. } => 1 + depth_of(*expr) + depth_of(*low)
            + depth_of(*high),
        ExprView::InList { expr, list, .. } => 1 + depth_of(*expr) + depth_of_all(list, 0),
        ExprView::Like { expr, pattern, .. } => 1 + depth_of(*expr) + depth_of(*pattern),
        _ => 1,
    }
}

/// A depth that is enough to read the expressions from place `i` on.
pub open spec fn depth_of_all(list: Seq<ExprView>, i: int) -> nat
    decreases list, list.len() - i,
{
    if 0 <= i < list.len() {
        1 + depth_of(list[i]) + depth_of_all(list, i + 1)
    } else {
        0
    }
}

/// Whether an expression is rendered in brackets.
pub open spec fn is_compound(expr: ExprView) -> bool {
    !(expr is Column) && !(expr is Literal)
}

proof fn lemma_decimal_is_word(value: int)
    ensures
        is_word(text::decimal(value)),
{
    text::lemma_numeral_reads_back(text::magnitude(value));
    if value < 0 {
        let decimal = text::decimal(value);
        let numeral = text::numeral((-value) as nat);
        assert(decimal[0] == '-');
        assert forall|i: int| 0 <= i < decimal.len() implies !is_delimiter(#[trigger] decimal[i]) by {
            if i > 0 {
                assert(decimal[i] == numeral[i - 1]);
            }
        }
    }
}

proof fn lemma_integral_is_word(negative: bool, units: int)
    ensures
        is_word(text::integral_spelling(negative, units)),
{
    let n = text::magnitude(units) / float::one();
    text::lemma_numeral_reads_back(n);
    let numeral = text::numeral(n);
    let spelling = text::integral_spelling(negative, units);
    let start = if negative { 1int } else { 0int };
    assert forall|i: int| 0 <= i < spelling.len() implies !is_delimiter(#[trigger] spelling[i]) by {
        if start <= i < start + numeral.len() {
            assert(spelling[i] == numeral[i - start]);
        }
    }
    if negative {
        assert(spelling[0] == '-');
    } else {
        assert(spelling[0] == numeral[0]);
        assert('0' <= numeral[0] <= '9');
    }
}

/// A rendered atom is a word or a string.
proof fn lemma_atom(expr: ExprView)
    requires
        filter::spelling(expr) is Some,
        numbers_are_words(expr),
        !is_compound(expr),
    ensures
        match tree(expr) {
            SqlTree::Word(word) => is_word(word) && filter::spelling(expr) == Some(word),
            SqlTree::Text(body) => filter::spelling(expr) == Some(filter::quoted(body)),
            _ => false,
        },
{
    lemma_words();
    match expr {
        ExprView::Column(column) => {
            let name = column.name;
            assert forall|i: int| 0 <= i < name.len() implies !is_delimiter(#[trigger] name[i]) by {
                assert(filter::continues_identifier(name[i]));
            }
        },
        ExprView::Literal(value) => {
            match value {
                ScalarView::Int8(Some(v)) => lemma_decimal_is_word(v as int),
                ScalarView::Int16(Some(v)) => lemma_decimal_is_word(v as int),
                ScalarView::Int32(Some(v)) => lemma_decimal_is_word(v as int),
                ScalarView::Int64(Some(v)) => lemma_decimal_is_word(v as int),
                ScalarView::UInt8(Some(v)) => lemma_decimal_is_word(v as int),
                ScalarView::UInt16(Some(v)) => lemma_decimal_is_word(v as int),
                ScalarView::UInt32(Some(v)) => lemma_decimal_is_word(v as int),
                ScalarView::UInt64(Some(v)) => lemma_decimal_is_word(v as int),
                ScalarView::Float32(Some(bits)) => {
                    if let Worth::Finite(units) = float::worth_32(bits) {
                        lemma_integral_is_word(float::negative_32(bits), units);
                    }
                },
                ScalarView::Float64(Some(bits)) => {
                    if let Worth::Finite(units) = float::worth_64(bits) {
                        lemma_integral_is_word(float::negative_64(bits), units);
                    }
                },
                _ => {},
            }
        },
        _ => {},
    }
}

/// How a rendered expression begins.
proof fn lemma_beginning(expr: ExprView)
    requires
        filter::spelling(expr) is Some,
        numbers_are_words(expr),
    ensures
        ({
            let spelling = filter::spelling(expr)->0;
            &&& spelling.len() > 0
            &&& spelling[0] == '(' || spelling[0] == '\'' || is_word(spelling)
        }),
{
    if is_compound(expr) {
        lemma_signs();
    } else {
        lemma_atom(expr);
    }
}

proof fn lemma_read_atom(expr: ExprView, rest: Seq<char>, depth: nat)
    requires
        filter::spelling(expr) is Some,
        numbers_are_words(expr),
        !is_compound(expr),
        may_follow(rest),
        depth > 0,
    ensures
        read(filter::spelling(expr)->0 + rest, depth) == Some((tree(expr), rest)),
{
    lemma_atom(expr);
    match tree(expr) {
        SqlTree::Word(word) => lemma_read_word(word, rest, depth),
        SqlTree::Text(body) => {
            filter::law_string_reads_back(body, rest);
            assert((filter::quoted(body) + rest)[0] == '\'');
        },
        _ => {},
    }
}

/// Reads an expression between a given text and a closing bracket.
proof fn lemma_read_last(
    before: Seq<char>,
    inner: Seq<char>,
    found: SqlTree,
    rest: Seq<char>,
    depth: nat,
)
    requires
        read(inner + (")"@ + rest), depth) == Some((found, ")"@ + rest)),
    ensures
        read_last(before + (inner + (")"@ + rest)), before, depth) == Some((found, rest)),
{
    lemma_begins(before, inner + (")"@ + rest));
    lemma_begins(")"@, rest);
}

/// Reads a test of a value.
proof fn lemma_read_test(value: SqlTree, rest: Seq<char>, depth: nat)
    ensures
        read_suffix(value, "IS NULL)"@ + rest, depth) == Some(
            (SqlTree::IsNull(Box::new(value)), rest),
        ),
        read_suffix(value, "IS NOT NULL)"@ + rest, depth) == Some(
            (SqlTree::IsNotNull(Box::new(value)), rest),
        ),
        read_suffix(value, "IS TRUE)"@ + rest, depth) == Some(
            (SqlTree::IsTrue(Box::new(value)), rest),
        ),
        read_suffix(value, "IS FALSE)"@ + rest, depth) == Some(
            (SqlTree::IsFalse(Box::new(value)), rest),
        ),
        read_suffix(value, "IS NOT TRUE)"@ + rest, depth) == Some(
            (SqlTree::IsNotTrue(Box::new(value)), rest),
        ),
        read_suffix(value, "IS NOT FALSE)"@ + rest, depth) == Some(
            (SqlTree::IsNotFalse(Box::new(value)), rest),
        ),
{
    lemma_signs();
    lemma_begins("IS NULL)"@, rest);
    let not_null = "IS NOT NULL)"@ + rest;
    lemma_begins("IS NOT NULL)"@, rest);
    lemma_differs(not_null, "IS NULL)"@, 4);
    let is_true = "IS TRUE)"@ + rest;
    lemma_begins("IS TRUE)"@, rest);
    lemma_differs(is_true, "IS NULL)"@, 3);
    lemma_differs(is_true, "IS NOT NULL)"@, 3);
    let is_false = "IS FALSE)"@ + rest;
    lemma_begins("IS FALSE)"@, rest);
    lemma_differs(is_false, "IS NULL)"@, 3);
    lemma_differs(is_false, "IS NOT NULL)"@, 3);
    lemma_differs(is_false, "IS TRUE)"@, 3);
    let not_true = "IS NOT TRUE)"@ + rest;
    lemma_begins("IS NOT TRUE)"@, rest);
    lemma_differs(not_true, "IS NULL)"@, 4);
    lemma_differs(not_true, "IS NOT NULL)"@, 7);
    lemma_differs(not_true, "IS TRUE)"@, 3);
    lemma_differs(not_true, "IS FALSE)"@, 3);
    let not_false = "IS NOT FALSE)"@ + rest;
    lemma_begins("IS NOT FALSE)"@, rest);
    lemma_differs(not_false, "IS NULL)"@, 4);
    lemma_differs(not_false, "IS NOT NULL)"@, 7);
    lemma_differs(not_false, "IS TRUE)"@, 3);
    lemma_differs(not_false, "IS FALSE)"@, 3);
    lemma_differs(not_false, "IS NOT TRUE)"@, 7);
}

/// What does not begin with the word of a test is no test.
proof fn lemma_no_test(text: Seq<char>)
    requires
        text.len() > 1,
        text[0] != 'I' || text[1] != 'S',
    ensures
        !begins_with(text, "IS NULL)"@),
        !begins_with(text, "IS NOT NULL)"@),
        !begins_with(text, "IS TRUE)"@),
        !begins_with(text, "IS FALSE)"@),
        !begins_with(text, "IS NOT TRUE)"@),
        !begins_with(text, "IS NOT FALSE)"@),
{
    lemma_signs();
    let i = if text[0] != 'I' { 0int } else { 1int };
    lemma_differs(text, "IS NULL)"@, i);
    lemma_differs(text, "IS NOT NULL)"@, i);
    lemma_differs(text, "IS TRUE)"@, i);
    lemma_differs(text, "IS FALSE)"@, i);
    lemma_differs(text, "IS NOT TRUE)"@, i);
    lemma_differs(text, "IS NOT FALSE)"@, i);
}

/// A predicate is read as one, with or without the word in front of it.
proof fn lemma_read_predicate(value: SqlTree, negated: bool, text: Seq<char>, depth: nat)
    requires
        is_predicate(text),
    ensures
        read_suffix(value, filter::negation(negated) + text, depth) == read_predicate(
            Box::new(value),
            negated,
            text,
            depth,
        ),
{
    lemma_signs();
    let first = text[0];
    assert(text.len() > 3 && (first == 'B' || (first == 'I' && text[1] != 'S') || first == 'L')) by {
        if begins_with(text, "BETWEEN "@) {
            assert(text.take(8)[0] == first);
        } else if begins_with(text, "IN ("@) {
            assert(text.take(4)[0] == first);
            assert(text.take(4)[1] == text[1]);
        } else if begins_with(text, "LIKE "@) {
            assert(text.take(5)[0] == first);
        } else {
            assert(text.take(6)[0] == first);
            assert(text.take(6)[1] == text[1]);
        }
    }
    let whole = filter::negation(negated) + text;
    if negated {
        lemma_no_test(whole);
        lemma_begins("NOT "@, text);
    } else {
        assert(whole == text);
        lemma_no_test(text);
        lemma_differs(text, "NOT "@, 0);
    }
}

/// Reads an expression in brackets that begins with a value.
proof fn lemma_enter(
    value: Seq<char>,
    found: SqlTree,
    next: Seq<char>,
    more: Seq<char>,
    depth: nat,
)
    requires
        value.len() > 0,
        value[0] == '(' || value[0] == '\'' || is_word(value),
        is_word(next),
        depth > 0,
        read(value + (" "@ + (next + (" "@ + more))), depth) == Some(
            (found, " "@ + (next + (" "@ + more))),
        ),
    ensures
        read("("@ + (value + (" "@ + (next + (" "@ + more)))), depth + 1) == read_suffix(
            found,
            next + (" "@ + more),
            depth,
        ),
{
    lemma_signs();
    let inside = value + (" "@ + (next + (" "@ + more)));
    assert(("("@ + inside).skip(1) == inside);
    lemma_read_compound(value, found, next, more, depth);
}

proof fn lemma_joined_front(parts: Seq<Seq<char>>, separator: Seq<char>)
    requires
        parts.len() > 1,
    ensures
        filter::joined(parts, separator) == parts[0] + separator + filter::joined(
            parts.skip(1),
            separator,
        ),
    decreases parts.len(),
{
    reveal_with_fuel(filter::joined, 2);
    let rest = parts.skip(1);
    if parts.len() > 2 {
        let front = parts.drop_last();
        lemma_joined_front(front, separator);
        assert(front.skip(1) == rest.drop_last());
        assert(rest.last() == parts.last());
    } else {
        assert(parts.drop_last().len() == 1);
    }
}

proof fn lemma_trees(list: Seq<ExprView>)
    ensures
        trees(list).len() == list.len(),
        forall|i: int| 0 <= i < list.len() ==> #[trigger] trees(list)[i] == tree(list[i]),
    decreases list.len(),
{
    if list.len() > 0 {
        lemma_trees(list.drop_last());
    }
}

/// What stands behind an item of a list.
proof fn lemma_list_signs(first: Seq<char>, rest: Seq<char>)
    requires
        first.len() > 0,
        first[0] == '(' || first[0] == '\'' || is_word(first),
    ensures
        may_follow("))"@ + rest),
        may_follow(", "@ + rest),
        !begins_with(first + rest, "))"@),
        !begins_with(", "@ + rest, "))"@),
{
    lemma_signs();
    assert(!is_word(first) || !is_delimiter(first[0]));
    lemma_differs(first + rest, "))"@, 0);
    lemma_differs(", "@ + rest, "))"@, 0);
}

/// Reads one item of a list and those behind it.
proof fn lemma_read_item(
    item: Seq<char>,
    found: SqlTree,
    more: Seq<SqlTree>,
    following: Seq<char>,
    rest: Seq<char>,
    depth: nat,
)
    requires
        depth > 0,
        item.len() > 0,
        item[0] == '(' || item[0] == '\'' || is_word(item),
        read(item + (", "@ + following), depth) == Some((found, ", "@ + following)),
        read_items(following, (depth - 1) as nat) == Some((more, rest)),
    ensures
        read_items(item + (", "@ + following), depth) == Some((seq![found] + more, rest)),
{
    lemma_list_signs(item, ", "@ + following);
    lemma_list_signs(item, following);
    lemma_begins(", "@, following);
}

/// Reads the last item of a list.
proof fn lemma_read_last_item(item: Seq<char>, found: SqlTree, rest: Seq<char>, depth: nat)
    requires
        depth > 0,
        item.len() > 0,
        item[0] == '(' || item[0] == '\'' || is_word(item),
        read(item + ("))"@ + rest), depth) == Some((found, "))"@ + rest)),
    ensures
        read_items(item + ("))"@ + rest), depth) == Some((seq![found], rest)),
{
    lemma_list_signs(item, "))"@ + rest);
    lemma_begins("))"@, rest);
}

/// Reads the items of a list from place `i` on.
proof fn lemma_read_items(list: Seq<ExprView>, i: int, rest: Seq<char>, depth: nat)
    requires
        filter::all_present(filter::spellings(list)) is Some,
        all_numbers_are_words(list, i),
        0 <= i < list.len(),
        depth >= depth_of_all(list, i),
    ensures
        read_items(
            filter::joined(filter::all_present(filter::spellings(list))->0.skip(i), ", "@) + ("))"@
                + rest),
            depth,
        ) == Some((trees(list).skip(i), rest)),
    decreases list, list.len() - i,
{
    filter::lemma_spellings(list);
    lemma_trees(list);
    let parts = filter::all_present(filter::spellings(list))->0;
    let items = parts.skip(i);
    assert(filter::spellings(list)[i] is Some);
    let item = filter::spelling(list[i])->0;
    assert(parts[i] == item);
    assert(items[0] == item);
    lemma_beginning(list[i]);
    if i == list.len() - 1 {
        lemma_list_signs(item, rest);
        lemma_read(list[i], "))"@ + rest, depth);
        lemma_read_last_item(item, tree(list[i]), rest, depth);
        assert(filter::joined(items, ", "@) == item);
        assert(trees(list).skip(i) == seq![tree(list[i])]);
    } else {
        lemma_joined_front(items, ", "@);
        assert(items.skip(1) == parts.skip(i + 1));
        let remaining = filter::joined(parts.skip(i + 1), ", "@);
        let following = remaining + ("))"@ + rest);
        assert(item + ", "@ + remaining + ("))"@ + rest) == item + (", "@ + following));
        lemma_list_signs(item, following);
        lemma_read(list[i], ", "@ + following, depth);
        lemma_read_items(list, i + 1, rest, (depth - 1) as nat);
        lemma_read_item(
            item,
            tree(list[i]),
            trees(list).skip(i + 1),
            following,
            rest,
            depth,
        );
        assert(trees(list).skip(i) == seq![tree(list[i])] + trees(list).skip(i + 1));
    }
}

/// Reads a test in brackets.
proof fn lemma_read_tested(
    value: Seq<char>,
    found: SqlTree,
    sign: Seq<char>,
    spaced: Seq<char>,
    rest: Seq<char>,
    depth: nat,
)
    requires
        value.len() > 0,
        value[0] == '(' || value[0] == '\'' || is_word(value),
        depth > 0,
        sign.len() > 3,
        sign.take(3) == seq!['I', 'S', ' '],
        spaced == " "@ + sign,
        read(value + (spaced + rest), depth) == Some((found, spaced + rest)),
    ensures
        read("("@ + value + spaced + rest, depth + 1) == read_suffix(found, sign + rest, depth),
{
    lemma_signs();
    let next = seq!['I', 'S'];
    let more = sign.skip(3) + rest;
    assert(sign == sign.take(3) + sign.skip(3));
    assert(sign + rest == next + (" "@ + more));
    assert(spaced + rest == " "@ + (next + (" "@ + more)));
    assert("("@ + value + spaced + rest == "("@ + (value + (" "@ + (next + (" "@ + more)))));
    lemma_enter(value, found, next, more, depth);
}

/// Reads a predicate in brackets.
proof fn lemma_read_predicated(
    value: Seq<char>,
    found: SqlTree,
    negated: bool,
    word: Seq<char>,
    more: Seq<char>,
    depth: nat,
)
    requires
        value.len() > 0,
        value[0] == '(' || value[0] == '\'' || is_word(value),
        depth > 0,
        is_word(word),
        is_predicate(word + (" "@ + more)),
        read(value + (" "@ + (filter::negation(negated) + (word + (" "@ + more)))), depth) == Some(
            (found, " "@ + (filter::negation(negated) + (word + (" "@ + more)))),
        ),
    ensures
        read(
            "("@ + (value + (" "@ + (filter::negation(negated) + (word + (" "@ + more))))),
            depth + 1,
        ) == read_predicate(Box::new(found), negated, word + (" "@ + more), depth),
{
    lemma_signs();
    let predicate = word + (" "@ + more);
    let suffix = filter::negation(negated) + predicate;
    if negated {
        let next = seq!['N', 'O', 'T'];
        assert(suffix == next + (" "@ + predicate));
        lemma_enter(value, found, next, predicate, depth);
    } else {
        assert(suffix == predicate);
        lemma_enter(value, found, word, more, depth);
    }
    lemma_read_predicate(found, negated, predicate, depth);
}

/// Reads an operation in brackets.
proof fn lemma_read_operation(
    value: Seq<char>,
    found: SqlTree,
    op: Operator,
    right: Seq<char>,
    found_right: SqlTree,
    rest: Seq<char>,
    depth: nat,
)
    requires
        value.len() > 0,
        value[0] == '(' || value[0] == '\'' || is_word(value),
        depth > 0,
        filter::operator_spelling(op) is Some,
        read(
            value + (" "@ + (filter::operator_spelling(op)->0 + (" "@ + (right + (")"@ + rest))))),
            depth,
        ) == Some(
            (found, " "@ + (filter::operator_spelling(op)->0 + (" "@ + (right + (")"@ + rest))))),
        ),
        read(right + (")"@ + rest), depth) == Some((found_right, ")"@ + rest)),
    ensures
        read(
            "("@ + (value + (" "@ + (filter::operator_spelling(op)->0 + (" "@ + (right + (")"@
                + rest)))))),
            depth + 1,
        ) == Some(
            (
                SqlTree::Operation {
                    left: Box::new(found),
                    op: filter::operator_spelling(op)->0,
                    right: Box::new(found_right),
                },
                rest,
            ),
        ),
{
    lemma_signs();
    lemma_words();
    let sign = filter::operator_spelling(op)->0;
    let more = right + (")"@ + rest);
    let text = sign + (" "@ + more);
    lemma_enter(value, found, sign, more, depth);
    assert(text[0] == sign[0]);
    lemma_no_test(text);
    lemma_differs(text, "NOT "@, 0);
    lemma_differs(text, "BETWEEN "@, 0);
    lemma_differs(text, "IN ("@, 0);
    lemma_differs(text, "LIKE "@, 0);
    lemma_differs(text, "ILIKE "@, 0);
    lemma_word_length(sign, " "@ + more);
    assert(text.take(sign.len() as int) == sign);
    assert(text == (sign + " "@) + more);
    lemma_read_last(sign + " "@, right, found_right, rest, depth);
}

/// What stands behind a part of a rendered expression can stand there.
proof fn lemma_follow(rest: Seq<char>)
    ensures
        may_follow(" "@ + rest),
        may_follow(")"@ + rest),
        may_follow(" AND "@ + rest),
        may_follow(" IS NULL)"@ + rest),
        may_follow(" IS NOT NULL)"@ + rest),
        may_follow(" IS TRUE)"@ + rest),
        may_follow(" IS FALSE)"@ + rest),
        may_follow(" IS NOT TRUE)"@ + rest),
        may_follow(" IS NOT FALSE)"@ + rest),
{
    lemma_signs();
}

proof fn lemma_test_signs()
    ensures
        forall|sign: Seq<char>| #[trigger]
            is_test_sign(sign) ==> sign.len() > 3 && sign.take(3) == seq!['I', 'S', ' '],
        " IS NULL)"@ == " "@ + "IS NULL)"@,
        " IS NOT NULL)"@ == " "@ + "IS NOT NULL)"@,
        " IS TRUE)"@ == " "@ + "IS TRUE)"@,
        " IS FALSE)"@ == " "@ + "IS FALSE)"@,
        " IS NOT TRUE)"@ == " "@ + "IS NOT TRUE)"@,
        " IS NOT FALSE)"@ == " "@ + "IS NOT FALSE)"@,
{
    lemma_signs();
    assert forall|sign: Seq<char>| #[trigger] is_test_sign(sign) implies sign.len() > 3
        && sign.take(3) == seq!['I', 'S', ' '] by {
        assert(sign.take(3) =~= seq!['I', 'S', ' ']);
    }
}

/// Whether a text is the end of a test in brackets.
spec fn is_test_sign(sign: Seq<char>) -> bool {
    ||| sign == "IS NULL)"@
    ||| sign == "IS NOT NULL)"@
    ||| sign == "IS TRUE)"@
    ||| sign == "IS FALSE)"@
    ||| sign == "IS NOT TRUE)"@
    ||| sign == "IS NOT FALSE)"@
}

/// Reads a range predicate.
proof fn lemma_predicate_between(
    value: SqlTree,
    negated: bool,
    low: Seq<char>,
    found_low: SqlTree,
    high: Seq<char>,
    found_high: SqlTree,
    rest: Seq<char>,
    depth: nat,
)
    requires
        read(low + (" AND "@ + (high + (")"@ + rest))), depth) == Some(
            (found_low, " AND "@ + (high + (")"@ + rest))),
        ),
        read(high + (")"@ + rest), depth) == Some((found_high, ")"@ + rest)),
    ensures
        ({
            let text = "BETWEEN "@ + (low + (" AND "@ + (high + (")"@ + rest))));
            &&& is_predicate(text)
            &&& read_predicate(Box::new(value), negated, text, depth) == Some(
                (
                    SqlTree::Between {
                        value: Box::new(value),
                        negated,
                        low: Box::new(found_low),
                        high: Box::new(found_high),
                    },
                    rest,
                ),
            )
        }),
{
    lemma_begins("BETWEEN "@, low + (" AND "@ + (high + (")"@ + rest))));
    lemma_read_last(" AND "@, high, found_high, rest, depth);
}

/// Reads a pattern predicate.
#[verifier::spinoff_prover]
#[verifier::rlimit(30)]
proof fn lemma_predicate_like(
    value: SqlTree,
    negated: bool,
    case_insensitive: bool,
    pattern: Seq<char>,
    found: SqlTree,
    rest: Seq<char>,
    depth: nat,
)
    requires
        read(pattern + (")"@ + rest), depth) == Some((found, ")"@ + rest)),
    ensures
        ({
            let sign = if case_insensitive { "ILIKE "@ } else { "LIKE "@ };
            let text = sign + (pattern + (")"@ + rest));
            &&& is_predicate(text)
            &&& read_predicate(Box::new(value), negated, text, depth) == Some(
                (
                    SqlTree::Like {
                        value: Box::new(value),
                        negated,
                        case_insensitive,
                        pattern: Box::new(found),
                    },
                    rest,
                ),
            )
        }),
{
    let sign = if case_insensitive { "ILIKE "@ } else { "LIKE "@ };
    let text = sign + (pattern + (")"@ + rest));
    lemma_begins(sign, pattern + (")"@ + rest));
    lemma_read_last(sign, pattern, found, rest, depth);
    lemma_signs();
    lemma_differs(text, "BETWEEN "@, 0);
    if case_insensitive {
        lemma_differs(text, "IN ("@, 1);
        lemma_differs(text, "LIKE "@, 0);
    } else {
        lemma_differs(text, "IN ("@, 0);
    }
}

/// Reads membership in a list.
proof fn lemma_predicate_in_list(
    value: SqlTree,
    negated: bool,
    text: Seq<char>,
    items: Seq<SqlTree>,
    rest: Seq<char>,
    depth: nat,
)
    requires
        read_items(text, depth) == Some((items, rest)),
    ensures
        is_predicate("IN ("@ + text),
        read_predicate(Box::new(value), negated, "IN ("@ + text, depth) == Some(
            (SqlTree::InList { value: Box::new(value), negated, items }, rest),
        ),
{
    lemma_begins("IN ("@, text);
    lemma_signs();
    lemma_differs("IN ("@ + text, "BETWEEN "@, 0);
}

/// The words that predicates begin with, and the signs that they are part of.
proof fn lemma_predicate_words(more: Seq<char>)
    ensures
        is_word(seq!['B', 'E', 'T', 'W', 'E', 'E', 'N']),
        is_word(seq!['I', 'N']),
        is_word("LIKE"@),
        is_word("ILIKE"@),
        seq!['B', 'E', 'T', 'W', 'E', 'E', 'N'] + (" "@ + more) == "BETWEEN "@ + more,
        seq!['I', 'N'] + (" "@ + (seq!['('] + more)) == "IN ("@ + more,
        "LIKE"@ + (" "@ + more) == "LIKE "@ + more,
        "ILIKE"@ + (" "@ + more) == "ILIKE "@ + more,
{
    lemma_signs();
}

proof fn lemma_between_text(
    v: Seq<char>,
    negation: Seq<char>,
    l: Seq<char>,
    h: Seq<char>,
    rest: Seq<char>,
)
    ensures
        ("("@ + v + " "@ + negation + "BETWEEN "@ + l + " AND "@ + h + ")"@) + rest == "("@ + (v + (
        " "@ + (negation + ("BETWEEN "@ + (l + (" AND "@ + (h + (")"@ + rest)))))))),
{
}

proof fn lemma_like_text(
    v: Seq<char>,
    negation: Seq<char>,
    word: Seq<char>,
    p: Seq<char>,
    rest: Seq<char>,
)
    ensures
        ("("@ + v + " "@ + negation + word + " "@ + p + ")"@) + rest == "("@ + (v + (" "@ + (negation
            + (word + (" "@ + (p + (")"@ + rest))))))),
{
}

proof fn lemma_read_not(inner: Seq<char>, found: SqlTree, rest: Seq<char>, depth: nat)
    requires
        read(inner + (")"@ + rest), depth) == Some((found, ")"@ + rest)),
    ensures
        read("(NOT "@ + inner + ")"@ + rest, depth + 1) == Some(
            (SqlTree::Not(Box::new(found)), rest),
        ),
{
    let text = "(NOT "@ + inner + ")"@ + rest;
    assert(text.len() > 0 && text[0] == '(' && text.skip(1) == "NOT "@ + (inner + (")"@
        + rest))) by {
        lemma_signs();
    }
    lemma_read_last("NOT "@, inner, found, rest, depth);
}

proof fn lemma_read_negative(inner: Seq<char>, found: SqlTree, rest: Seq<char>, depth: nat)
    requires
        read(inner + (")"@ + rest), depth) == Some((found, ")"@ + rest)),
    ensures
        read("(- "@ + inner + ")"@ + rest, depth + 1) == Some(
            (SqlTree::Negative(Box::new(found)), rest),
        ),
{
    let text = "(- "@ + inner + ")"@ + rest;
    assert(text.len() > 0 && text[0] == '(' && text.skip(1) == "- "@ + (inner + (")"@ + rest))) by {
        lemma_signs();
    }
    assert(!begins_with(text.skip(1), "NOT "@)) by {
        lemma_signs();
        lemma_differs(text.skip(1), "NOT "@, 0);
    }
    lemma_read_last("- "@, inner, found, rest, depth);
    assert(read_last(text.skip(1), "NOT "@, depth) is None);
    assert(read_compound(text.skip(1), depth) == Some((SqlTree::Negative(Box::new(found)), rest)));
}

/// A reader finds a rendered expression again.
proof fn lemma_read(expr: ExprView, rest: Seq<char>, depth: nat)
    requires
        filter::spelling(expr) is Some,
        numbers_are_words(expr),
        may_follow(rest),
        depth >= depth_of(expr),
    ensures
        read(filter::spelling(expr)->0 + rest, depth) == Some((tree(expr), rest)),
    decreases expr, 1int,
{
    if !is_compound(expr) {
        lemma_read_atom(expr, rest, depth);
    } else {
        let inside = (depth - 1) as nat;
        match expr {
            ExprView::BinaryExpr { .. } => lemma_read_binary(expr, rest, inside),
            ExprView::Not(_) | ExprView::Negative(_) => lemma_read_prefixed(expr, rest, inside),
            ExprView::Between { .. } => lemma_read_between(expr, rest, inside),
            ExprView::InList { .. } => lemma_read_in_list(expr, rest, inside),
            ExprView::Like { .. } => lemma_read_like(expr, rest, inside),
            _ => lemma_read_is(expr, rest, inside),
        }
    }
}

proof fn lemma_read_binary(expr: ExprView, rest: Seq<char>, depth: nat)
    requires
        expr is BinaryExpr,
        filter::spelling(expr) is Some,
        numbers_are_words(expr),
        depth + 1 >= depth_of(expr),
    ensures
        read(filter::spelling(expr)->0 + rest, depth + 1) == Some((tree(expr), rest)),
    decreases expr, 0int,
{
    if let ExprView::BinaryExpr { left, op, right } = expr {
        let l = filter::spelling(*left)->0;
        let r = filter::spelling(*right)->0;
        let sign = filter::operator_spelling(op)->0;
        let closing = ")"@ + rest;
        let following = " "@ + (sign + (" "@ + (r + closing)));
        assert(filter::spelling(expr)->0 + rest == "("@ + (l + following));
        lemma_follow(sign + (" "@ + (r + closing)));
        lemma_follow(rest);
        lemma_beginning(*left);
        lemma_read(*left, following, depth);
        lemma_read(*right, closing, depth);
        lemma_read_operation(l, tree(*left), op, r, tree(*right), rest, depth);
    }
}

proof fn lemma_read_prefixed(expr: ExprView, rest: Seq<char>, depth: nat)
    requires
        expr is Not || expr is Negative,
        filter::spelling(expr) is Some,
        numbers_are_words(expr),
        depth + 1 >= depth_of(expr),
    ensures
        read(filter::spelling(expr)->0 + rest, depth + 1) == Some((tree(expr), rest)),
    decreases expr, 0int,
{
    lemma_follow(rest);
    match expr {
        ExprView::Not(inner) => {
            lemma_read(*inner, ")"@ + rest, depth);
            lemma_read_not(filter::spelling(*inner)->0, tree(*inner), rest, depth);
        },
        ExprView::Negative(inner) => {
            lemma_read(*inner, ")"@ + rest, depth);
            lemma_read_negative(filter::spelling(*inner)->0, tree(*inner), rest, depth);
        },
        _ => {},
    }
}

proof fn lemma_read_is(expr: ExprView, rest: Seq<char>, depth: nat)
    requires
        is_compound(expr),
        !(expr is BinaryExpr),
        !(expr is Not),
        !(expr is Negative),
        !(expr is Between),
        !(expr is InList),
        !(expr is Like),
        filter::spelling(expr) is Some,
        numbers_are_words(expr),
        depth + 1 >= depth_of(expr),
    ensures
        read(filter::spelling(expr)->0 + rest, depth + 1) == Some((tree(expr), rest)),
    decreases expr, 0int,
{
    let (inner, sign, spaced) = match expr {
        ExprView::IsNull(inner) => (*inner, "IS NULL)"@, " IS NULL)"@),
        ExprView::IsNotNull(inner) => (*inner, "IS NOT NULL)"@, " IS NOT NULL)"@),
        ExprView::IsTrue(inner) => (*inner, "IS TRUE)"@, " IS TRUE)"@),
        ExprView::IsFalse(inner) => (*inner, "IS FALSE)"@, " IS FALSE)"@),
        ExprView::IsNotTrue(inner) => (*inner, "IS NOT TRUE)"@, " IS NOT TRUE)"@),
        ExprView::IsNotFalse(inner) => (*inner, "IS NOT FALSE)"@, " IS NOT FALSE)"@),
        _ => arbitrary(),
    };
    let x = filter::spelling(inner)->0;
    assert(filter::spelling(expr)->0 + rest == "("@ + x + spaced + rest);
    lemma_follow(rest);
    lemma_beginning(inner);
    lemma_read(inner, spaced + rest, depth);
    lemma_test_signs();
    assert(is_test_sign(sign));
    lemma_read_tested(x, tree(inner), sign, spaced, rest, depth);
    lemma_read_test(tree(inner), rest, depth);
}

proof fn lemma_read_between(expr: ExprView, rest: Seq<char>, depth: nat)
    requires
        expr is Between,
        filter::spelling(expr) is Some,
        numbers_are_words(expr),
        depth + 1 >= depth_of(expr),
    ensures
        read(filter::spelling(expr)->0 + rest, depth + 1) == Some((tree(expr), rest)),
    decreases expr, 0int,
{
    if let ExprView::Between { expr: value, negated, low, high } = expr {
        let v = filter::spelling(*value)->0;
        let l = filter::spelling(*low)->0;
        let h = filter::spelling(*high)->0;
        let word = seq!['B', 'E', 'T', 'W', 'E', 'E', 'N'];
        let closing = ")"@ + rest;
        let upper = " AND "@ + (h + closing);
        let more = l + upper;
        let predicate = word + (" "@ + more);
        let following = " "@ + (filter::negation(negated) + predicate);
        lemma_predicate_words(more);
        lemma_between_text(v, filter::negation(negated), l, h, rest);
        lemma_follow(filter::negation(negated) + predicate);
        lemma_follow(h + closing);
        lemma_follow(rest);
        lemma_beginning(*value);
        lemma_read(*value, following, depth);
        lemma_read(*low, upper, depth);
        lemma_read(*high, closing, depth);
        lemma_predicate_between(
            tree(*value),
            negated,
            l,
            tree(*low),
            h,
            tree(*high),
            rest,
            depth,
        );
        lemma_read_predicated(v, tree(*value), negated, word, more, depth);
    }
}

proof fn lemma_read_like(expr: ExprView, rest: Seq<char>, depth: nat)
    requires
        expr is Like,
        filter::spelling(expr) is Some,
        numbers_are_words(expr),
        depth + 1 >= depth_of(expr),
    ensures
        read(filter::spelling(expr)->0 + rest, depth + 1) == Some((tree(expr), rest)),
    decreases expr, 0int,
{
    if let ExprView::Like { negated, expr: value, pattern, case_insensitive, .. } = expr {
        let v = filter::spelling(*value)->0;
        let p = filter::spelling(*pattern)->0;
        let word = if case_insensitive { "ILIKE"@ } else { "LIKE"@ };
        let more = p + (")"@ + rest);
        let predicate = word + (" "@ + more);
        let following = " "@ + (filter::negation(negated) + predicate);
        lemma_predicate_words(more);
        lemma_like_text(v, filter::negation(negated), word, p, rest);
        lemma_follow(filter::negation(negated) + predicate);
        lemma_follow(rest);
        lemma_beginning(*value);
        lemma_read(*value, following, depth);
        lemma_read(*pattern, ")"@ + rest, depth);
        lemma_predicate_like(
            tree(*value),
            negated,
            case_insensitive,
            p,
            tree(*pattern),
            rest,
            depth,
        );
        lemma_read_predicated(v, tree(*value), negated, word, more, depth);
    }
}

proof fn lemma_read_in_list(expr: ExprView, rest: Seq<char>, depth: nat)
    requires
        expr is InList,
        filter::spelling(expr) is Some,
        numbers_are_words(expr),
        depth + 1 >= depth_of(expr),
    ensures
        read(filter::spelling(expr)->0 + rest, depth + 1) == Some((tree(expr), rest)),
    decreases expr, 0int,
{
    if let ExprView::InList { expr: value, list, negated } = expr {
        let v = filter::spelling(*value)->0;
        let parts = filter::all_present(filter::spellings(list))->0;
        let word = seq!['I', 'N'];
        let items = filter::joined(parts, ", "@) + ("))"@ + rest);
        let more = seq!['('] + items;
        let predicate = word + (" "@ + more);
        let following = " "@ + (filter::negation(negated) + predicate);
        lemma_predicate_words(items);
        assert(filter::spelling(expr)->0 + rest == "("@ + (v + following));
        lemma_follow(filter::negation(negated) + predicate);
        lemma_beginning(*value);
        lemma_read(*value, following, depth);
        filter::lemma_spellings(list);
        lemma_trees(list);
        if list.len() == 0 {
            assert(items == "))"@ + rest);
            lemma_begins("))"@, rest);
            assert(trees(list) == Seq::<SqlTree>::empty());
        } else {
            lemma_read_items(list, 0, rest, depth);
            assert(parts.skip(0) == parts);
            assert(trees(list).skip(0) == trees(list));
        }
        lemma_predicate_in_list(tree(*value), negated, items, trees(list), rest, depth);
        lemma_read_predicated(v, tree(*value), negated, word, more, depth);
    }
}

/// A rendered expression is at least as long as it is deep.
proof fn lemma_depth(expr: ExprView)
    requires
        filter::spelling(expr) is Some,
        numbers_are_words(expr),
    ensures
        depth_of(expr) <= filter::spelling(expr)->0.len(),
    decreases expr, 0int,
{
    lemma_signs();
    filter::law_no_part_is_dropped(expr);
    match expr {
        ExprView::BinaryExpr { left, right, .. } => {
            lemma_depth(*left);
            lemma_depth(*right);
        },
        ExprView::Not(inner)
        | ExprView::Negative(inner)
        | ExprView::IsNull(inner)
        | ExprView::IsNotNull(inner)
        | ExprView::IsTrue(inner)
        | ExprView::IsFalse(inner)
        | ExprView::IsNotTrue(inner)
        | ExprView::IsNotFalse(inner) => {
            lemma_depth(*inner);
        },
        ExprView::Between { expr: value, low, high, .. } => {
            lemma_depth(*value);
            lemma_depth(*low);
            lemma_depth(*high);
        },
        ExprView::InList { expr: value, list, .. } => {
            lemma_depth(*value);
            lemma_depth_of_items(list, 0, ", "@);
            let parts = filter::all_present(filter::spellings(list))->0;
            assert(parts.skip(0) == parts);
        },
        ExprView::Like { expr: value, pattern, .. } => {
            lemma_depth(*value);
            lemma_depth(*pattern);
        },
        _ => {
            lemma_beginning(expr);
        },
    }
}

proof fn lemma_depth_of_items(list: Seq<ExprView>, i: int, separator: Seq<char>)
    requires
        filter::all_present(filter::spellings(list)) is Some,
        all_numbers_are_words(list, i),
        0 <= i <= list.len(),
        separator.len() > 0,
    ensures
        depth_of_all(list, i) <= filter::joined(
            filter::all_present(filter::spellings(list))->0.skip(i),
            separator,
        ).len() + 1,
    decreases list, list.len() - i,
{
    if i < list.len() {
        filter::lemma_spellings(list);
        let parts = filter::all_present(filter::spellings(list))->0;
        let items = parts.skip(i);
        assert(filter::spellings(list)[i] is Some);
        assert(items[0] == filter::spelling(list[i])->0);
        lemma_depth(list[i]);
        lemma_depth_of_items(list, i + 1, separator);
        assert(items.skip(1) == parts.skip(i + 1));
        if i < list.len() - 1 {
            lemma_joined_front(items, separator);
        } else {
            assert(depth_of_all(list, i + 1) == 0);
        }
    }
}

/// Reads one expression, and gives the text behind it.
pub open spec fn read_filter(text: Seq<char>) -> Option<(SqlTree, Seq<char>)> {
    read(text, text.len())
}

/// A reader of a rendered filter finds the filter again, and where it ends,
/// whatever can stand behind it. The numbers that the standard library spells
/// have to be spelled as one word, as they are in every filter that is rendered.
pub proof fn law_filter_reads_back(expr: ExprView, rest: Seq<char>)
    requires
        filter::spelling(expr) is Some,
        numbers_are_words(expr),
        may_follow(rest),
    ensures
        read_filter(filter::spelling(expr)->0 + rest) == Some((tree(expr), rest)),
{
    lemma_depth(expr);
    lemma_read(expr, rest, (filter::spelling(expr)->0 + rest).len());
}

/// Two filters with the same SQL are the same to a reader.
pub proof fn law_same_sql_same_filter(a: ExprView, b: ExprView)
    requires
        filter::spelling(a) is Some,
        filter::spelling(a) == filter::spelling(b),
        numbers_are_words(a),
        numbers_are_words(b),
    ensures
        tree(a) == tree(b),
{
    law_filter_reads_back(a, Seq::empty());
    law_filter_reads_back(b, Seq::empty());
}

/// Different operators have different signs.
#[verifier::spinoff_prover]
pub proof fn law_operators_differ(a: Operator, b: Operator)
    requires
        filter::operator_spelling(a) is Some,
        filter::operator_spelling(a) == filter::operator_spelling(b),
    ensures
        a == b,
{
    reveal_strlit("=");
    reveal_strlit("!=");
    reveal_strlit("<");
    reveal_strlit("<=");
    reveal_strlit(">");
    reveal_strlit(">=");
    reveal_strlit("AND");
    reveal_strlit("OR");
    reveal_strlit("+");
    reveal_strlit("-");
    reveal_strlit("*");
    reveal_strlit("/");
    reveal_strlit("%");
    assert("="@.len() == 1 && "="@[0] == '=');
    assert("!="@.len() == 2 && "!="@[0] == '!');
    assert("<"@.len() == 1 && "<"@[0] == '<');
    assert("<="@.len() == 2 && "<="@[0] == '<');
    assert(">"@.len() == 1 && ">"@[0] == '>');
    assert(">="@.len() == 2 && ">="@[0] == '>');
    assert("AND"@.len() == 3);
    assert("OR"@.len() == 2 && "OR"@[0] == 'O');
    assert("+"@.len() == 1 && "+"@[0] == '+');
    assert("-"@.len() == 1 && "-"@[0] == '-');
    assert("*"@.len() == 1 && "*"@[0] == '*');
    assert("/"@.len() == 1 && "/"@[0] == '/');
    assert("%"@.len() == 1 && "%"@[0] == '%');
}

/// Reads up to `count` filters with a conjunction between them, to the end of
/// the text.
pub open spec fn read_conjunction(text: Seq<char>, depth: nat, count: nat) -> Option<Seq<SqlTree>>
    decreases count,
{
    if count == 0 {
        None
    } else {
        match read(text, depth) {
            Some((found, rest)) => if rest.len() == 0 {
                Some(seq![found])
            } else if begins_with(rest, " AND "@) {
                match read_conjunction(behind(rest, " AND "@), depth, (count - 1) as nat) {
                    Some(more) => Some(seq![found] + more),
                    None => None,
                }
            } else {
                None
            },
            None => None,
        }
    }
}

/// One filter in front of others.
proof fn lemma_read_conjunction_front(
    text: Seq<char>,
    found: SqlTree,
    following: Seq<char>,
    more: Seq<SqlTree>,
    depth: nat,
    count: nat,
)
    requires
        count > 0,
        read(text, depth) == Some((found, " AND "@ + following)),
        read_conjunction(following, depth, (count - 1) as nat) == Some(more),
    ensures
        read_conjunction(text, depth, count) == Some(seq![found] + more),
{
    lemma_begins(" AND "@, following);
    assert((" AND "@ + following).len() > 0) by {
        lemma_signs();
    }
}

#[verifier::spinoff_prover]
#[verifier::rlimit(30)]
proof fn lemma_read_conjunction(filters: Seq<ExprView>, i: int, depth: nat)
    requires
        filter::all_present(filter::spellings(filters)) is Some,
        all_numbers_are_words(filters, i),
        0 <= i < filters.len(),
        depth >= depth_of_all(filters, i),
    ensures
        read_conjunction(
            filter::joined(filter::all_present(filter::spellings(filters))->0.skip(i), " AND "@),
            depth,
            (filters.len() - i) as nat,
        ) == Some(trees(filters).skip(i)),
    decreases filters.len() - i,
{
    filter::lemma_spellings(filters);
    lemma_trees(filters);
    let parts = filter::all_present(filter::spellings(filters))->0;
    let items = parts.skip(i);
    assert(filter::spellings(filters)[i] is Some);
    assert(parts[i] == filter::spelling(filters[i])->0);
    assert(items[0] == parts[i]);
    if i == filters.len() - 1 {
        let text = filter::joined(items, " AND "@);
        assert(text == parts[i] + Seq::<char>::empty());
        lemma_read(filters[i], Seq::empty(), depth);
        assert(trees(filters).skip(i) == seq![tree(filters[i])]);
    } else {
        lemma_joined_front(items, " AND "@);
        assert(items.skip(1) == parts.skip(i + 1));
        let following = filter::joined(parts.skip(i + 1), " AND "@);
        lemma_follow(following);
        assert(filter::joined(items, " AND "@) == parts[i] + (" AND "@ + following));
        lemma_read(filters[i], " AND "@ + following, depth);
        lemma_read_conjunction(filters, i + 1, depth);
        lemma_read_conjunction_front(
            filter::joined(items, " AND "@),
            tree(filters[i]),
            following,
            trees(filters).skip(i + 1),
            depth,
            (filters.len() - i) as nat,
        );
        assert(trees(filters).skip(i) == seq![tree(filters[i])] + trees(filters).skip(i + 1));
    }
}

/// A reader of combined filters finds exactly the filters that were combined,
/// in their order.
pub proof fn law_combined_filters_read_back(filters: Seq<ExprView>)
    requires
        filters.len() > 0,
        forall|i: int| 0 <= i < filters.len() ==> filter::spelling(#[trigger] filters[i]) is Some,
        forall|i: int| 0 <= i < filters.len() ==> numbers_are_words(#[trigger] filters[i]),
    ensures
        ({
            let texts = filters.map_values(|filter: ExprView| filter::spelling(filter)->0);
            let combined = filter::conjunction(texts)->0;
            read_conjunction(combined, combined.len() + 1, filters.len()) == Some(
                filters.map_values(|filter: ExprView| tree(filter)),
            )
        }),
{
    filter::lemma_spellings(filters);
    lemma_trees(filters);
    lemma_all_numbers(filters, 0);
    lemma_signs();
    let texts = filters.map_values(|filter: ExprView| filter::spelling(filter)->0);
    let parts = filter::all_present(filter::spellings(filters))->0;
    assert forall|i: int| 0 <= i < filters.len() implies (#[trigger] filter::spellings(
        filters,
    )[i]) is Some by {
        assert(filter::spelling(filters[i]) is Some);
    }
    assert(parts == texts);
    assert(parts.skip(0) == parts);
    assert(trees(filters) == filters.map_values(|filter: ExprView| tree(filter)));
    assert(trees(filters).skip(0) == trees(filters));
    lemma_depth_of_items(filters, 0, " AND "@);
    lemma_read_conjunction(filters, 0, filter::joined(parts, " AND "@).len() + 1);
}

/// What holds of each expression of a list holds of the list.
pub proof fn lemma_all_numbers(list: Seq<ExprView>, i: int)
    requires
        0 <= i,
        forall|j: int| 0 <= j < list.len() ==> numbers_are_words(#[trigger] list[j]),
    ensures
        all_numbers_are_words(list, i),
    decreases list.len() - i,
{
    if i < list.len() {
        lemma_all_numbers(list, i + 1);
    }
}

} // verus!
