//! What a reader of a rendered filter understands.
//!
//! [`crate::sql`] finds the words of a rendered filter again; here the words are
//! understood as what they stand for: operators as operators, numbers as
//! numbers, truth values as truth values. The laws say that what is understood
//! is what the expression says, and which expressions are rendered.

use crate::expr::{ExprView, Operator};
use crate::filter;
use crate::float::{self, Worth};
use crate::numeric_coercion as rewrite;
use crate::scalar::ScalarView;
use crate::sql::{self, SqlTree};
use crate::text;
use vstd::arithmetic::div_mod::*;
use vstd::arithmetic::power2::*;
use vstd::prelude::*;

verus! {

/// What a reader understands.
pub enum Sentence {
    Null,
    Truth(bool),
    Integer(int),
    /// A number with a decimal point: its sign, what stands in front of the
    /// point, and the digits behind it.
    Decimal { negative: bool, whole: int, places: Seq<char> },
    Name(Seq<char>),
    Text(Seq<char>),
    Operation { left: Box<Sentence>, op: Option<Operator>, right: Box<Sentence> },
    Not(Box<Sentence>),
    Negative(Box<Sentence>),
    IsNull(Box<Sentence>),
    IsNotNull(Box<Sentence>),
    IsTrue(Box<Sentence>),
    IsFalse(Box<Sentence>),
    IsNotTrue(Box<Sentence>),
    IsNotFalse(Box<Sentence>),
    Between { value: Box<Sentence>, negated: bool, low: Box<Sentence>, high: Box<Sentence> },
    InList { value: Box<Sentence>, negated: bool, items: Seq<Sentence> },
    Like { value: Box<Sentence>, negated: bool, case_insensitive: bool, pattern: Box<Sentence> },
}

/// Whether a word is a number: it begins with a digit or a minus.
pub open spec fn is_number_word(word: Seq<char>) -> bool {
    word.len() > 0 && (word[0] == '-' || '0' <= word[0] <= '9')
}

/// What stands in front of the first point of a text.
pub open spec fn before_point(text: Seq<char>) -> Seq<char>
    decreases text.len(),
{
    if text.len() == 0 || text[0] == '.' {
        Seq::empty()
    } else {
        seq![text[0]] + before_point(text.skip(1))
    }
}

/// What a word stands for.
pub open spec fn read_word(word: Seq<char>) -> Sentence {
    if word == seq!['N', 'U', 'L', 'L'] {
        Sentence::Null
    } else if word == seq!['t', 'r', 'u', 'e'] {
        Sentence::Truth(true)
    } else if word == seq!['f', 'a', 'l', 's', 'e'] {
        Sentence::Truth(false)
    } else if !is_number_word(word) {
        Sentence::Name(word)
    } else {
        let negative = word[0] == '-';
        let digits = if negative { word.skip(1) } else { word };
        let whole = before_point(digits);
        if whole.len() == digits.len() {
            Sentence::Integer(text::integer_of(word))
        } else {
            Sentence::Decimal {
                negative,
                whole: text::number_of(whole),
                places: digits.skip(whole.len() as int + 1),
            }
        }
    }
}

/// The operator that a sign stands for.
pub open spec fn read_operator(sign: Seq<char>) -> Option<Operator> {
    if sign == seq!['='] {
        Some(Operator::Eq)
    } else if sign == seq!['!', '='] {
        Some(Operator::NotEq)
    } else if sign == seq!['<'] {
        Some(Operator::Lt)
    } else if sign == seq!['<', '='] {
        Some(Operator::LtEq)
    } else if sign == seq!['>'] {
        Some(Operator::Gt)
    } else if sign == seq!['>', '='] {
        Some(Operator::GtEq)
    } else if sign == seq!['A', 'N', 'D'] {
        Some(Operator::And)
    } else if sign == seq!['O', 'R'] {
        Some(Operator::Or)
    } else if sign == seq!['+'] {
        Some(Operator::Plus)
    } else if sign == seq!['-'] {
        Some(Operator::Minus)
    } else if sign == seq!['*'] {
        Some(Operator::Multiply)
    } else if sign == seq!['/'] {
        Some(Operator::Divide)
    } else if sign == seq!['%'] {
        Some(Operator::Modulo)
    } else {
        None
    }
}

/// What a reader understands of what it has read.
pub open spec fn understood(tree: SqlTree) -> Sentence
    decreases tree,
{
    match tree {
        SqlTree::Word(word) => read_word(word),
        SqlTree::Text(text) => Sentence::Text(text),
        SqlTree::Operation { left, op, right } => Sentence::Operation {
            left: Box::new(understood(*left)),
            op: read_operator(op),
            right: Box::new(understood(*right)),
        },
        SqlTree::Not(inner) => Sentence::Not(Box::new(understood(*inner))),
        SqlTree::Negative(inner) => Sentence::Negative(Box::new(understood(*inner))),
        SqlTree::IsNull(inner) => Sentence::IsNull(Box::new(understood(*inner))),
        SqlTree::IsNotNull(inner) => Sentence::IsNotNull(Box::new(understood(*inner))),
        SqlTree::IsTrue(inner) => Sentence::IsTrue(Box::new(understood(*inner))),
        SqlTree::IsFalse(inner) => Sentence::IsFalse(Box::new(understood(*inner))),
        SqlTree::IsNotTrue(inner) => Sentence::IsNotTrue(Box::new(understood(*inner))),
        SqlTree::IsNotFalse(inner) => Sentence::IsNotFalse(Box::new(understood(*inner))),
        SqlTree::Between { value, negated, low, high } => Sentence::Between {
            value: Box::new(understood(*value)),
            negated,
            low: Box::new(understood(*low)),
            high: Box::new(understood(*high)),
        },
        SqlTree::InList { value, negated, items } => Sentence::InList {
            value: Box::new(understood(*value)),
            negated,
            items: all_understood(items),
        },
        SqlTree::Like { value, negated, case_insensitive, pattern } => Sentence::Like {
            value: Box::new(understood(*value)),
            negated,
            case_insensitive,
            pattern: Box::new(understood(*pattern)),
        },
    }
}

/// What a reader understands of each of a list.
pub open spec fn all_understood(trees: Seq<SqlTree>) -> Seq<Sentence>
    decreases trees,
{
    if trees.len() == 0 {
        Seq::empty()
    } else {
        all_understood(trees.drop_last()).push(understood(trees.last()))
    }
}

/// What a finite number says: an integral one its sign, its value and one
/// decimal place; of another, whatever the spelling of the standard library
/// says.
pub open spec fn number_said(negative: bool, worth: Worth) -> Sentence {
    match worth {
        Worth::Finite(units) => if units % (float::one() as int) == 0 {
            Sentence::Decimal {
                negative,
                whole: (if units < 0 { -units } else { units }) / (float::one() as int),
                places: seq!['0'],
            }
        } else {
            read_word(filter::shortest_spelling(units))
        },
        _ => Sentence::Null,
    }
}

/// What a literal says.
pub open spec fn literal_said(value: ScalarView) -> Sentence {
    match value {
        ScalarView::Boolean(Some(truth)) => Sentence::Truth(truth),
        ScalarView::Int8(Some(v)) => Sentence::Integer(v as int),
        ScalarView::Int16(Some(v)) => Sentence::Integer(v as int),
        ScalarView::Int32(Some(v)) => Sentence::Integer(v as int),
        ScalarView::Int64(Some(v)) => Sentence::Integer(v as int),
        ScalarView::UInt8(Some(v)) => Sentence::Integer(v as int),
        ScalarView::UInt16(Some(v)) => Sentence::Integer(v as int),
        ScalarView::UInt32(Some(v)) => Sentence::Integer(v as int),
        ScalarView::UInt64(Some(v)) => Sentence::Integer(v as int),
        ScalarView::Float32(Some(bits)) => number_said(
            float::negative_32(bits),
            float::worth_32(bits),
        ),
        ScalarView::Float64(Some(bits)) => number_said(
            float::negative_64(bits),
            float::worth_64(bits),
        ),
        ScalarView::Utf8(Some(text))
        | ScalarView::LargeUtf8(Some(text))
        | ScalarView::Utf8View(Some(text)) => Sentence::Text(text),
        _ => Sentence::Null,
    }
}

/// What an expression says. A name says what it says as a word.
pub open spec fn said(expr: ExprView) -> Sentence
    decreases expr,
{
    match expr {
        ExprView::Column(column) => read_word(column.name),
        ExprView::Literal(value) => literal_said(value),
        ExprView::BinaryExpr { left, op, right } => Sentence::Operation {
            left: Box::new(said(*left)),
            op: Some(op),
            right: Box::new(said(*right)),
        },
        ExprView::Not(inner) => Sentence::Not(Box::new(said(*inner))),
        ExprView::Negative(inner) => Sentence::Negative(Box::new(said(*inner))),
        ExprView::IsNull(inner) => Sentence::IsNull(Box::new(said(*inner))),
        ExprView::IsNotNull(inner) => Sentence::IsNotNull(Box::new(said(*inner))),
        ExprView::IsTrue(inner) => Sentence::IsTrue(Box::new(said(*inner))),
        ExprView::IsFalse(inner) => Sentence::IsFalse(Box::new(said(*inner))),
        ExprView::IsNotTrue(inner) => Sentence::IsNotTrue(Box::new(said(*inner))),
        ExprView::IsNotFalse(inner) => Sentence::IsNotFalse(Box::new(said(*inner))),
        ExprView::Between { expr, negated, low, high } => Sentence::Between {
            value: Box::new(said(*expr)),
            negated,
            low: Box::new(said(*low)),
            high: Box::new(said(*high)),
        },
        ExprView::InList { expr, list, negated } => Sentence::InList {
            value: Box::new(said(*expr)),
            negated,
            items: all_said(list),
        },
        ExprView::Like { negated, expr, pattern, case_insensitive, .. } => Sentence::Like {
            value: Box::new(said(*expr)),
            negated,
            case_insensitive,
            pattern: Box::new(said(*pattern)),
        },
        _ => Sentence::Null,
    }
}

/// What each of a list of expressions says.
pub open spec fn all_said(list: Seq<ExprView>) -> Seq<Sentence>
    decreases list,
{
    if list.len() == 0 {
        Seq::empty()
    } else {
        all_said(list.drop_last()).push(said(list.last()))
    }
}

/// The characters of the words that are literals, and of the operators.
proof fn lemma_words()
    ensures
        "NULL"@ == seq!['N', 'U', 'L', 'L'],
        "true"@ == seq!['t', 'r', 'u', 'e'],
        "false"@ == seq!['f', 'a', 'l', 's', 'e'],
{
    reveal_strlit("NULL");
    reveal_strlit("true");
    reveal_strlit("false");
    assert("NULL"@ =~= seq!['N', 'U', 'L', 'L']);
    assert("true"@ =~= seq!['t', 'r', 'u', 'e']);
    assert("false"@ =~= seq!['f', 'a', 'l', 's', 'e']);
}

/// Whether an operator has a sign: a comparison, an arithmetic operator, or one
/// that joins two truth values.
pub open spec fn is_rendered_operator(op: Operator) -> bool {
    match op {
        Operator::Eq
        | Operator::NotEq
        | Operator::Lt
        | Operator::LtEq
        | Operator::Gt
        | Operator::GtEq
        | Operator::And
        | Operator::Or
        | Operator::Plus
        | Operator::Minus
        | Operator::Multiply
        | Operator::Divide
        | Operator::Modulo => true,
        _ => false,
    }
}

/// The sign of an operator stands for that operator and for no other, and the
/// operators that have a sign are the comparisons, the arithmetic ones, and the
/// two that join truth values.
pub proof fn law_signs_stand_for_operators(op: Operator)
    ensures
        filter::operator_spelling(op) matches Some(sign) ==> read_operator(sign) == Some(op),
        filter::operator_spelling(op) is Some <==> is_rendered_operator(op),
{
    reveal_strlit("=");
    reveal_strlit("!=");
    reveal_strlit("<");
    reveal_strlit("<=");
    reveal_strlit(">");
    reveal_strlit(">=");
    reveal_strlit("AND");
    reveal_strlit("OR");
    reveal_strlit("+");
    reveal_strlit("-");
    reveal_strlit("*");
    reveal_strlit("/");
    reveal_strlit("%");
    assert("="@ =~= seq!['=']);
    assert("!="@ =~= seq!['!', '=']);
    assert("<"@ =~= seq!['<']);
    assert("<="@ =~= seq!['<', '=']);
    assert(">"@ =~= seq!['>']);
    assert(">="@ =~= seq!['>', '=']);
    assert("AND"@ =~= seq!['A', 'N', 'D']);
    assert("OR"@ =~= seq!['O', 'R']);
    assert("+"@ =~= seq!['+']);
    assert("-"@ =~= seq!['-']);
    assert("*"@ =~= seq!['*']);
    assert("/"@ =~= seq!['/']);
    assert("%"@ =~= seq!['%']);
    if let Some(sign) = filter::operator_spelling(op) {
        lemma_read_operator(sign);
    }
}

/// Signs are told apart by their length and their first character.
proof fn lemma_read_operator(sign: Seq<char>)
    requires
        0 < sign.len() <= 3,
    ensures
        sign.len() == 1 ==> read_operator(sign) == (if sign[0] == '=' {
            Some(Operator::Eq)
        } else if sign[0] == '<' {
            Some(Operator::Lt)
        } else if sign[0] == '>' {
            Some(Operator::Gt)
        } else if sign[0] == '+' {
            Some(Operator::Plus)
        } else if sign[0] == '-' {
            Some(Operator::Minus)
        } else if sign[0] == '*' {
            Some(Operator::Multiply)
        } else if sign[0] == '/' {
            Some(Operator::Divide)
        } else if sign[0] == '%' {
            Some(Operator::Modulo)
        } else {
            None
        }),
        sign == seq!['!', '='] ==> read_operator(sign) == Some(Operator::NotEq),
        sign == seq!['<', '='] ==> read_operator(sign) == Some(Operator::LtEq),
        sign == seq!['>', '='] ==> read_operator(sign) == Some(Operator::GtEq),
        sign == seq!['A', 'N', 'D'] ==> read_operator(sign) == Some(Operator::And),
        sign == seq!['O', 'R'] ==> read_operator(sign) == Some(Operator::Or),
{
    if sign.len() == 1 {
        assert(sign =~= seq![sign[0]]);
        assert(seq!['='][0] == '=' && seq!['<'][0] == '<' && seq!['>'][0] == '>');
        assert(seq!['+'][0] == '+' && seq!['-'][0] == '-' && seq!['*'][0] == '*');
        assert(seq!['/'][0] == '/' && seq!['%'][0] == '%');
    } else if sign == seq!['!', '='] {
        assert(sign.len() == 2 && sign[0] == '!');
        assert(seq!['<', '='][0] == '<' && seq!['>', '='][0] == '>' && seq!['O', 'R'][0] == 'O');
    } else if sign == seq!['<', '='] {
        assert(sign.len() == 2 && sign[0] == '<');
        assert(seq!['!', '='][0] == '!' && seq!['>', '='][0] == '>' && seq!['O', 'R'][0] == 'O');
    } else if sign == seq!['>', '='] {
        assert(sign.len() == 2 && sign[0] == '>');
        assert(seq!['!', '='][0] == '!' && seq!['<', '='][0] == '<' && seq!['O', 'R'][0] == 'O');
    } else if sign == seq!['O', 'R'] {
        assert(sign.len() == 2 && sign[0] == 'O');
        assert(seq!['!', '='][0] == '!' && seq!['<', '='][0] == '<' && seq!['>', '='][0] == '>');
    }
}

/// Where there is no point, all of a text stands in front of one; where digits
/// stand in front of a point, they are what does.
proof fn lemma_before_point(digits: Seq<char>, rest: Seq<char>)
    requires
        forall|i: int| 0 <= i < digits.len() ==> (#[trigger] digits[i]) != '.',
        rest.len() == 0 || rest[0] == '.',
    ensures
        before_point(digits + rest) == digits,
    decreases digits.len(),
{
    let whole = digits + rest;
    if digits.len() > 0 {
        let tail = digits.skip(1);
        assert forall|i: int| 0 <= i < tail.len() implies (#[trigger] tail[i]) != '.' by {
            assert(tail[i] == digits[i + 1]);
        }
        lemma_before_point(tail, rest);
        assert(whole.skip(1) == tail + rest);
        assert(seq![digits[0]] + tail == digits);
    } else {
        assert(whole == rest);
    }
}

/// A word that begins with a digit or a minus is none of the words that are
/// literals.
proof fn lemma_number_word(word: Seq<char>)
    requires
        is_number_word(word),
    ensures
        word != seq!['N', 'U', 'L', 'L'],
        word != seq!['t', 'r', 'u', 'e'],
        word != seq!['f', 'a', 'l', 's', 'e'],
{
    assert(seq!['N', 'U', 'L', 'L'][0] == 'N');
    assert(seq!['t', 'r', 'u', 'e'][0] == 't');
    assert(seq!['f', 'a', 'l', 's', 'e'][0] == 'f');
}

/// The spelling of an integer stands for it.
proof fn lemma_integer_is_read(value: int)
    ensures
        read_word(text::decimal(value)) == Sentence::Integer(value),
{
    let word = text::decimal(value);
    let n = if value < 0 { (-value) as nat } else { value as nat };
    let digits = text::numeral(n);
    text::lemma_numeral_reads_back(n);
    text::law_integer_reads_back(value);
    assert(digits[0] != '-');
    if value < 0 {
        assert(word[0] == '-');
        assert(word.skip(1) == digits);
    }
    lemma_number_word(word);
    lemma_before_point(digits, Seq::empty());
    assert(digits + Seq::<char>::empty() == digits);
}

/// The spelling of an integral number stands for it.
proof fn lemma_integral_is_read(negative: bool, units: int)
    requires
        float::integral_units(units),
    ensures
        read_word(text::integral_spelling(negative, units)) == number_said(
            negative,
            Worth::Finite(units),
        ),
{
    let word = text::integral_spelling(negative, units);
    let n = text::magnitude(units) / float::one();
    let digits = text::numeral(n);
    lemma_pow2_pos(1074);
    lemma_div_pos_is_pos(text::magnitude(units) as int, float::one() as int);
    text::lemma_numeral_reads_back(n);
    assert(digits[0] != '-');
    let body = digits + seq!['.', '0'];
    if negative {
        assert(word[0] == '-');
        assert(word.skip(1) == body);
    } else {
        assert(word == body);
        assert(word[0] == digits[0]);
    }
    lemma_number_word(word);
    lemma_before_point(digits, seq!['.', '0']);
    assert(body.skip(digits.len() as int + 1) == seq!['0']);
}

/// What is understood of a rendered literal.
proof fn lemma_literal_is_understood(value: ScalarView)
    requires
        filter::literal_spelling(value) is Some,
    ensures
        understood(sql::tree(ExprView::Literal(value))) == literal_said(value),
{
    lemma_words();
    match value {
        ScalarView::Int8(Some(v)) => lemma_integer_is_read(v as int),
        ScalarView::Int16(Some(v)) => lemma_integer_is_read(v as int),
        ScalarView::Int32(Some(v)) => lemma_integer_is_read(v as int),
        ScalarView::Int64(Some(v)) => lemma_integer_is_read(v as int),
        ScalarView::UInt8(Some(v)) => lemma_integer_is_read(v as int),
        ScalarView::UInt16(Some(v)) => lemma_integer_is_read(v as int),
        ScalarView::UInt32(Some(v)) => lemma_integer_is_read(v as int),
        ScalarView::UInt64(Some(v)) => lemma_integer_is_read(v as int),
        ScalarView::Float32(Some(bits)) => {
            if let Worth::Finite(units) = float::worth_32(bits) {
                if float::integral_units(units) {
                    lemma_integral_is_read(float::negative_32(bits), units);
                }
            }
        },
        ScalarView::Float64(Some(bits)) => {
            if let Worth::Finite(units) = float::worth_64(bits) {
                if float::integral_units(units) {
                    lemma_integral_is_read(float::negative_64(bits), units);
                }
            }
        },
        ScalarView::Boolean(Some(truth)) => {
            assert(seq!['N', 'U', 'L', 'L'].len() == 4 && seq!['N', 'U', 'L', 'L'][0] == 'N');
            assert(seq!['t', 'r', 'u', 'e'].len() == 4 && seq!['t', 'r', 'u', 'e'][0] == 't');
            assert(seq!['f', 'a', 'l', 's', 'e'].len() == 5);
        },
        _ => {},
    }
}

/// What a reader understands of the trees of a rendered expression is what the
/// expression says.
proof fn lemma_tree_is_understood(expr: ExprView)
    requires
        filter::spelling(expr) is Some,
    ensures
        understood(sql::tree(expr)) == said(expr),
    decreases expr, 0nat,
{
    match expr {
        ExprView::Literal(value) => lemma_literal_is_understood(value),
        ExprView::BinaryExpr { left, op, right } => {
            lemma_tree_is_understood(*left);
            lemma_tree_is_understood(*right);
            law_signs_stand_for_operators(op);
        },
        ExprView::Not(inner)
        | ExprView::Negative(inner)
        | ExprView::IsNull(inner)
        | ExprView::IsNotNull(inner)
        | ExprView::IsTrue(inner)
        | ExprView::IsFalse(inner)
        | ExprView::IsNotTrue(inner)
        | ExprView::IsNotFalse(inner) => {
            lemma_tree_is_understood(*inner);
        },
        ExprView::Between { expr: value, low, high, .. } => {
            lemma_tree_is_understood(*value);
            lemma_tree_is_understood(*low);
            lemma_tree_is_understood(*high);
        },
        ExprView::InList { expr: value, list, .. } => {
            lemma_tree_is_understood(*value);
            filter::lemma_spellings(list);
            assert forall|i: int| 0 <= i < list.len() implies filter::spelling(
                #[trigger] list[i],
            ) is Some by {
                assert(filter::spellings(list)[i] is Some);
            }
            lemma_trees_are_understood(list);
        },
        ExprView::Like { expr: value, pattern, .. } => {
            lemma_tree_is_understood(*value);
            lemma_tree_is_understood(*pattern);
        },
        _ => {},
    }
}

proof fn lemma_trees_are_understood(list: Seq<ExprView>)
    requires
        forall|i: int| 0 <= i < list.len() ==> filter::spelling(#[trigger] list[i]) is Some,
    ensures
        all_understood(sql::trees(list)) == all_said(list),
    decreases list, 1nat,
{
    if list.len() > 0 {
        let front = list.drop_last();
        assert forall|i: int| 0 <= i < front.len() implies filter::spelling(
            #[trigger] front[i],
        ) is Some by {
            assert(front[i] == list[i]);
        }
        lemma_trees_are_understood(front);
        assert(list.last() == list[list.len() - 1]);
        lemma_tree_is_understood(list.last());
        assert(sql::trees(list).drop_last() == sql::trees(front));
        assert(sql::trees(list).last() == sql::tree(list.last()));
    }
}

/// What a reader understands of a rendered filter is what the expression says,
/// with every operator, every number, every text and every negation in its
/// place, whatever can stand behind the filter.
pub proof fn law_rendered_filter_is_understood(expr: ExprView, rest: Seq<char>)
    requires
        filter::spelling(expr) is Some,
        sql::numbers_are_words(expr),
        sql::may_follow(rest),
    ensures
        match sql::read_filter(filter::spelling(expr)->0 + rest) {
            Some((tree, left)) => understood(tree) == said(expr) && left == rest,
            None => false,
        },
{
    sql::law_filter_reads_back(expr, rest);
    lemma_tree_is_understood(expr);
}

/// A rendered integer literal of any integer type is a word that spells its
/// value in decimal digits, behind a minus if it is negative and not otherwise.
pub proof fn law_integer_literal_reads_back(value: ScalarView, number: int)
    requires
        rewrite::integer_value(value) == Some(number),
    ensures
        filter::literal_spelling(value) matches Some(word) && {
            &&& text::integer_of(word) == number
            &&& word.len() > 0
            &&& (word[0] == '-') == (number < 0)
            &&& forall|i: int|
                (if number < 0 {
                    1int
                } else {
                    0int
                }) <= i < word.len() ==> '0' <= #[trigger] word[i] <= '9'
            &&& sql::tree(ExprView::Literal(value)) == SqlTree::Word(word)
        },
{
    text::law_integer_reads_back(number);
    let n = if number < 0 { (-number) as nat } else { number as nat };
    text::lemma_numeral_reads_back(n);
    if number < 0 {
        let word = text::decimal(number);
        assert forall|i: int| 1 <= i < word.len() implies '0' <= #[trigger] word[i] <= '9' by {
            assert(word[i] == text::numeral(n)[i - 1]);
        }
    }
}

/// A name that is none of the three words that are literals is understood as
/// that name, and so is the column that it names.
pub proof fn law_name_is_understood(expr: ExprView)
    requires
        expr is Column,
        filter::spelling(expr) is Some,
        expr->Column_0.name != "NULL"@,
        expr->Column_0.name != "true"@,
        expr->Column_0.name != "false"@,
    ensures
        filter::spelling(expr) == Some(expr->Column_0.name),
        said(expr) == Sentence::Name(expr->Column_0.name),
{
    lemma_words();
}

/// Whether a character is a letter, as names can have.
pub open spec fn is_letter(c: char) -> bool {
    'a' <= c <= 'z' || 'A' <= c <= 'Z'
}

/// Whether a literal is rendered: a number of an integer type, a finite one in
/// single or double precision, a truth value or a text, or a null of one of
/// these types or of none.
pub open spec fn is_rendered_literal(value: ScalarView) -> bool {
    match value {
        ScalarView::Float16(_) | ScalarView::Decimal128(..) | ScalarView::Other(_) => false,
        ScalarView::Float32(Some(bits)) => float::exponent_32(bits) < 0xff,
        ScalarView::Float64(Some(bits)) => float::exponent_64(bits) < 0x7ff,
        _ => true,
    }
}

/// Which expressions are rendered: columns whose names are letters, digits and
/// underscores and do not begin with a digit, the literals that are spelled
/// alike everywhere, and what is made of rendered parts with operators that
/// have a sign, tests, ranges, lists and patterns without an escape character.
pub proof fn law_which_expressions_are_rendered(expr: ExprView)
    ensures
        filter::spelling(expr) is Some <==> match expr {
            ExprView::Column(column) => {
                &&& column.name.len() > 0
                &&& is_letter(column.name[0]) || column.name[0] == '_'
                &&& forall|i: int|
                    0 <= i < column.name.len() ==> {
                        let c = #[trigger] column.name[i];
                        is_letter(c) || c == '_' || '0' <= c <= '9'
                    }
            },
            ExprView::Literal(value) => is_rendered_literal(value),
            ExprView::BinaryExpr { left, op, right } => {
                &&& is_rendered_operator(op)
                &&& filter::spelling(*left) is Some
                &&& filter::spelling(*right) is Some
            },
            ExprView::Not(inner)
            | ExprView::Negative(inner)
            | ExprView::IsNull(inner)
            | ExprView::IsNotNull(inner)
            | ExprView::IsTrue(inner)
            | ExprView::IsFalse(inner)
            | ExprView::IsNotTrue(inner)
            | ExprView::IsNotFalse(inner) => filter::spelling(*inner) is Some,
            ExprView::Between { expr, low, high, .. } => {
                &&& filter::spelling(*expr) is Some
                &&& filter::spelling(*low) is Some
                &&& filter::spelling(*high) is Some
            },
            ExprView::InList { expr, list, .. } => {
                &&& filter::spelling(*expr) is Some
                &&& forall|i: int|
                    0 <= i < list.len() ==> filter::spelling(#[trigger] list[i]) is Some
            },
            ExprView::Like { expr, pattern, escape_char, .. } => {
                &&& escape_char is None
                &&& filter::spelling(*expr) is Some
                &&& filter::spelling(*pattern) is Some
            },
            _ => false,
        },
{
    match expr {
        ExprView::Column(column) => {
            if filter::is_identifier(column.name) {
                assert forall|i: int| 0 <= i < column.name.len() implies {
                    let c = #[trigger] column.name[i];
                    is_letter(c) || c == '_' || '0' <= c <= '9'
                } by {
                    assert(filter::continues_identifier(column.name[i]));
                }
            }
        },
        ExprView::BinaryExpr { op, .. } => law_signs_stand_for_operators(op),
        ExprView::InList { list, .. } => {
            filter::lemma_spellings(list);
            if filter::spelling(expr) is Some {
                assert forall|i: int| 0 <= i < list.len() implies filter::spelling(
                    #[trigger] list[i],
                ) is Some by {
                    assert(filter::spellings(list)[i] is Some);
                }
            }
            if forall|i: int|
                0 <= i < list.len() ==> filter::spelling(#[trigger] list[i]) is Some {
                assert forall|i: int| 0 <= i < list.len() implies (#[trigger] filter::spellings(
                    list,
                )[i]) is Some by {
                    assert(filter::spelling(list[i]) is Some);
                }
            }
        },
        _ => {},
    }
}

/// Filters combine to one that stands for all of them: none for none, a single
/// one as it is, and more with `AND` between each and the next.
pub proof fn law_filters_combine(filters: Seq<Seq<char>>, last: Seq<char>)
    ensures
        filter::conjunction(Seq::empty()) is None,
        filter::conjunction(seq![last]) == Some(last),
        filters.len() > 0 ==> filter::conjunction(filters.push(last)) == Some(
            filter::conjunction(filters)->0 + seq![' ', 'A', 'N', 'D', ' '] + last,
        ),
{
    reveal_strlit(" AND ");
    assert(" AND "@ =~= seq![' ', 'A', 'N', 'D', ' ']);
    assert(filters.push(last).drop_last() == filters);
}

} // verus!
