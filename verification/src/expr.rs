//! Filter expressions.

use crate::scalar::{Scalar, ScalarView};
use crate::value_type::ValueType;
use vstd::prelude::*;

verus! {

/// A binary operator.
#[derive(Clone, Copy, Debug, PartialEq, Eq, Structural)]
pub enum Operator {
    Eq,
    NotEq,
    Lt,
    LtEq,
    Gt,
    GtEq,
    Plus,
    Minus,
    Multiply,
    Divide,
    Modulo,
    And,
    Or,
    IsDistinctFrom,
    IsNotDistinctFrom,
    RegexMatch,
    RegexIMatch,
    RegexNotMatch,
    RegexNotIMatch,
    LikeMatch,
    ILikeMatch,
    NotLikeMatch,
    NotILikeMatch,
    BitwiseAnd,
    BitwiseOr,
    BitwiseXor,
    BitwiseShiftRight,
    BitwiseShiftLeft,
    StringConcat,
    AtArrow,
    ArrowAt,
    Arrow,
    LongArrow,
    HashArrow,
    HashLongArrow,
    AtAt,
    IntegerDivide,
    HashMinus,
    AtQuestion,
    Question,
    QuestionAnd,
    QuestionPipe,
    Colon,
}

impl Operator {
    /// Whether this is one of the six comparisons.
    pub open spec fn is_comparison(self) -> bool {
        ||| self == Operator::Eq
        ||| self == Operator::NotEq
        ||| self == Operator::Lt
        ||| self == Operator::LtEq
        ||| self == Operator::Gt
        ||| self == Operator::GtEq
    }

    /// The operator that holds of `b` and `a` where this one holds of `a` and
    /// `b`, if there is one.
    pub open spec fn mirrored(self) -> Option<Operator> {
        match self {
            Operator::Eq
            | Operator::NotEq
            | Operator::IsDistinctFrom
            | Operator::IsNotDistinctFrom => Some(self),
            Operator::Lt => Some(Operator::Gt),
            Operator::LtEq => Some(Operator::GtEq),
            Operator::Gt => Some(Operator::Lt),
            Operator::GtEq => Some(Operator::LtEq),
            Operator::AtArrow => Some(Operator::ArrowAt),
            Operator::ArrowAt => Some(Operator::AtArrow),
            _ => None,
        }
    }

    /// The operator for the operands in the other order.
    pub fn swap(&self) -> (swapped: Option<Operator>)
        ensures
            swapped == self.mirrored(),
    {
        match *self {
            Operator::Eq
            | Operator::NotEq
            | Operator::IsDistinctFrom
            | Operator::IsNotDistinctFrom => Some(*self),
            Operator::Lt => Some(Operator::Gt),
            Operator::LtEq => Some(Operator::GtEq),
            Operator::Gt => Some(Operator::Lt),
            Operator::GtEq => Some(Operator::LtEq),
            Operator::AtArrow => Some(Operator::ArrowAt),
            Operator::ArrowAt => Some(Operator::AtArrow),
            _ => None,
        }
    }
}

/// A reference to a top-level column.
#[derive(Debug, PartialEq)]
pub struct Column {
    /// The parts of the table reference in front of the name; empty where the
    /// name stands alone.
    pub qualifier: Vec<String>,
    pub name: String,
}

/// A filter expression.
#[derive(Debug, PartialEq)]
pub enum Expr {
    Column(Column),
    Literal(Scalar),
    BinaryExpr { left: Box<Expr>, op: Operator, right: Box<Expr> },
    Not(Box<Expr>),
    Negative(Box<Expr>),
    IsNull(Box<Expr>),
    IsNotNull(Box<Expr>),
    IsTrue(Box<Expr>),
    IsFalse(Box<Expr>),
    IsNotTrue(Box<Expr>),
    IsNotFalse(Box<Expr>),
    Between { expr: Box<Expr>, negated: bool, low: Box<Expr>, high: Box<Expr> },
    InList { expr: Box<Expr>, list: Vec<Expr>, negated: bool },
    Like {
        negated: bool,
        expr: Box<Expr>,
        pattern: Box<Expr>,
        escape_char: Option<char>,
        case_insensitive: bool,
    },
    Cast { expr: Box<Expr>, target: ValueType },
    TryCast { expr: Box<Expr>, target: ValueType },
    /// Every other expression, which only its owner can look into.
    Other {
        /// The number by which its owner finds the expression again.
        id: u64,
        /// The type that the dataset gives the expression, where it refers to
        /// a nested field.
        field_type: Option<ValueType>,
    },
}

/// What a column reference is.
pub struct ColumnView {
    pub qualifier: Seq<Seq<char>>,
    pub name: Seq<char>,
}

/// What a filter expression is.
pub enum ExprView {
    Column(ColumnView),
    Literal(ScalarView),
    BinaryExpr { left: Box<ExprView>, op: Operator, right: Box<ExprView> },
    Not(Box<ExprView>),
    Negative(Box<ExprView>),
    IsNull(Box<ExprView>),
    IsNotNull(Box<ExprView>),
    IsTrue(Box<ExprView>),
    IsFalse(Box<ExprView>),
    IsNotTrue(Box<ExprView>),
    IsNotFalse(Box<ExprView>),
    Between { expr: Box<ExprView>, negated: bool, low: Box<ExprView>, high: Box<ExprView> },
    InList { expr: Box<ExprView>, list: Seq<ExprView>, negated: bool },
    Like {
        negated: bool,
        expr: Box<ExprView>,
        pattern: Box<ExprView>,
        escape_char: Option<char>,
        case_insensitive: bool,
    },
    Cast { expr: Box<ExprView>, target: ValueType },
    TryCast { expr: Box<ExprView>, target: ValueType },
    Other { id: u64, field_type: Option<ValueType> },
}

/// The characters of each of a list of strings.
pub open spec fn texts(list: Seq<String>) -> Seq<Seq<char>> {
    list.map_values(|text: String| text@)
}

impl View for Column {
    type V = ColumnView;

    open spec fn view(&self) -> ColumnView {
        ColumnView { qualifier: texts(self.qualifier@), name: self.name@ }
    }
}

impl View for Expr {
    type V = ExprView;

    open spec fn view(&self) -> ExprView {
        self.shape()
    }
}

impl Expr {
    /// What this expression is.
    pub open spec fn shape(self) -> ExprView
        decreases self,
    {
        match self {
            Expr::Column(column) => ExprView::Column(column@),
            Expr::Literal(value) => ExprView::Literal(value@),
            Expr::BinaryExpr { left, op, right } => ExprView::BinaryExpr {
                left: Box::new((*left).shape()),
                op,
                right: Box::new((*right).shape()),
            },
            Expr::Not(inner) => ExprView::Not(Box::new((*inner).shape())),
            Expr::Negative(inner) => ExprView::Negative(Box::new((*inner).shape())),
            Expr::IsNull(inner) => ExprView::IsNull(Box::new((*inner).shape())),
            Expr::IsNotNull(inner) => ExprView::IsNotNull(Box::new((*inner).shape())),
            Expr::IsTrue(inner) => ExprView::IsTrue(Box::new((*inner).shape())),
            Expr::IsFalse(inner) => ExprView::IsFalse(Box::new((*inner).shape())),
            Expr::IsNotTrue(inner) => ExprView::IsNotTrue(Box::new((*inner).shape())),
            Expr::IsNotFalse(inner) => ExprView::IsNotFalse(Box::new((*inner).shape())),
            Expr::Between { expr, negated, low, high } => ExprView::Between {
                expr: Box::new((*expr).shape()),
                negated,
                low: Box::new((*low).shape()),
                high: Box::new((*high).shape()),
            },
            Expr::InList { expr, list, negated } => ExprView::InList {
                expr: Box::new((*expr).shape()),
                list: Seq::new(
                    list@.len(),
                    |i: int|
                        if 0 <= i < list@.len() {
                            list@[i].shape()
                        } else {
                            arbitrary()
                        },
                ),
                negated,
            },
            Expr::Like { negated, expr, pattern, escape_char, case_insensitive } => ExprView::Like {
                negated,
                expr: Box::new((*expr).shape()),
                pattern: Box::new((*pattern).shape()),
                escape_char,
                case_insensitive,
            },
            Expr::Cast { expr, target } => ExprView::Cast { expr: Box::new((*expr).shape()), target },
            Expr::TryCast { expr, target } => ExprView::TryCast {
                expr: Box::new((*expr).shape()),
                target,
            },
            Expr::Other { id, field_type } => ExprView::Other { id, field_type },
        }
    }
}

/// What each of a list of expressions is.
pub open spec fn views(list: Seq<Expr>) -> Seq<ExprView> {
    list.map_values(|item: Expr| item@)
}

fn clone_type(value_type: &Option<ValueType>) -> (copy: Option<ValueType>)
    ensures
        copy == *value_type,
{
    match value_type {
        Some(t) => Some(t.clone()),
        None => None,
    }
}

impl Clone for Column {
    fn clone(&self) -> (copy: Self)
        ensures
            copy@ == self@,
    {
        let mut qualifier: Vec<String> = Vec::new();
        for i in 0..self.qualifier.len()
            invariant
                qualifier@ == self.qualifier@.take(i as int),
        {
            qualifier.push(self.qualifier[i].clone());
        }
        assert(qualifier@ == self.qualifier@);
        Column { qualifier, name: self.name.clone() }
    }
}

impl Clone for Expr {
    fn clone(&self) -> (copy: Self)
        ensures
            copy@ == self@,
        decreases self,
    {
        match self {
            Expr::Column(column) => Expr::Column(column.clone()),
            Expr::Literal(value) => Expr::Literal(value.clone()),
            Expr::BinaryExpr { left, op, right } => Expr::BinaryExpr {
                left: Box::new((**left).clone()),
                op: *op,
                right: Box::new((**right).clone()),
            },
            Expr::Not(inner) => Expr::Not(Box::new((**inner).clone())),
            Expr::Negative(inner) => Expr::Negative(Box::new((**inner).clone())),
            Expr::IsNull(inner) => Expr::IsNull(Box::new((**inner).clone())),
            Expr::IsNotNull(inner) => Expr::IsNotNull(Box::new((**inner).clone())),
            Expr::IsTrue(inner) => Expr::IsTrue(Box::new((**inner).clone())),
            Expr::IsFalse(inner) => Expr::IsFalse(Box::new((**inner).clone())),
            Expr::IsNotTrue(inner) => Expr::IsNotTrue(Box::new((**inner).clone())),
            Expr::IsNotFalse(inner) => Expr::IsNotFalse(Box::new((**inner).clone())),
            Expr::Between { expr, negated, low, high } => Expr::Between {
                expr: Box::new((**expr).clone()),
                negated: *negated,
                low: Box::new((**low).clone()),
                high: Box::new((**high).clone()),
            },
            Expr::InList { expr, list, negated } => {
                let mut copies: Vec<Expr> = Vec::new();
                for i in 0..list.len()
                    invariant
                        copies@.len() == i,
                        forall|j: int| 0 <= j < i ==> (#[trigger] copies@[j])@ == list@[j]@,
                        self matches Expr::InList { list: l, .. } && l == list,
                {
                    let item = &list[i];
                    assert(decreases_to!(self => list@[i as int]));
                    let copy = item.clone();
                    copies.push(copy);
                }
                let copy = Expr::InList {
                    expr: Box::new((**expr).clone()),
                    list: copies,
                    negated: *negated,
                };
                assert(copy@->InList_list =~= self@->InList_list);
                copy
            },
            Expr::Like { negated, expr, pattern, escape_char, case_insensitive } => Expr::Like {
                negated: *negated,
                expr: Box::new((**expr).clone()),
                pattern: Box::new((**pattern).clone()),
                escape_char: *escape_char,
                case_insensitive: *case_insensitive,
            },
            Expr::Cast { expr, target } => Expr::Cast {
                expr: Box::new((**expr).clone()),
                target: target.clone(),
            },
            Expr::TryCast { expr, target } => Expr::TryCast {
                expr: Box::new((**expr).clone()),
                target: target.clone(),
            },
            Expr::Other { id, field_type } => Expr::Other {
                id: *id,
                field_type: clone_type(field_type),
            },
        }
    }
}

/// Swapping the operands twice gives the operator back; a comparison of equality
/// or distinctness is its own swap, the orders and the two containments swap
/// with each other, and no other operator has a swap.
pub proof fn law_swapped_operators(op: Operator)
    ensures
        op.mirrored() matches Some(swapped) ==> swapped.mirrored() == Some(op),
        op == Operator::Eq || op == Operator::NotEq || op == Operator::IsDistinctFrom || op
            == Operator::IsNotDistinctFrom ==> op.mirrored() == Some(op),
        Operator::Lt.mirrored() == Some(Operator::Gt),
        Operator::LtEq.mirrored() == Some(Operator::GtEq),
        Operator::AtArrow.mirrored() == Some(Operator::ArrowAt),
        op.mirrored() is Some <==> op.is_comparison() || op == Operator::IsDistinctFrom || op
            == Operator::IsNotDistinctFrom || op == Operator::AtArrow || op == Operator::ArrowAt,
        op.is_comparison() <==> match op {
            Operator::Eq
            | Operator::NotEq
            | Operator::Lt
            | Operator::LtEq
            | Operator::Gt
            | Operator::GtEq => true,
            _ => false,
        },
{
}

/// Expressions that are the same to a reader are made alike, of parts that are
/// the same to a reader: no part is left out of what an expression is.
pub proof fn law_expressions_are_all_their_parts(a: Expr, b: Expr)
    requires
        a@ == b@,
    ensures
        match (a, b) {
            (Expr::Column(x), Expr::Column(y)) => {
                &&& x.name@ == y.name@
                &&& x.qualifier@.len() == y.qualifier@.len()
                &&& forall|i: int|
                    0 <= i < x.qualifier@.len() ==> (#[trigger] x.qualifier@[i])@
                        == y.qualifier@[i]@
            },
            (Expr::Literal(x), Expr::Literal(y)) => x@ == y@,
            (
                Expr::BinaryExpr { left: l, op: o, right: r },
                Expr::BinaryExpr { left, op, right },
            ) => l@ == left@ && o == op && r@ == right@,
            (Expr::Not(x), Expr::Not(y))
            | (Expr::Negative(x), Expr::Negative(y))
            | (Expr::IsNull(x), Expr::IsNull(y))
            | (Expr::IsNotNull(x), Expr::IsNotNull(y))
            | (Expr::IsTrue(x), Expr::IsTrue(y))
            | (Expr::IsFalse(x), Expr::IsFalse(y))
            | (Expr::IsNotTrue(x), Expr::IsNotTrue(y))
            | (Expr::IsNotFalse(x), Expr::IsNotFalse(y)) => x@ == y@,
            (
                Expr::Between { expr: e, negated: n, low: l, high: h },
                Expr::Between { expr, negated, low, high },
            ) => e@ == expr@ && n == negated && l@ == low@ && h@ == high@,
            (
                Expr::InList { expr: e, list: l, negated: n },
                Expr::InList { expr, list, negated },
            ) => {
                &&& e@ == expr@ && n == negated
                &&& l@.len() == list@.len()
                &&& forall|i: int| 0 <= i < l@.len() ==> (#[trigger] l@[i])@ == list@[i]@
            },
            (
                Expr::Like { negated: n, expr: e, pattern: p, escape_char: c, case_insensitive: i },
                Expr::Like { negated, expr, pattern, escape_char, case_insensitive },
            ) => n == negated && e@ == expr@ && p@ == pattern@ && c == escape_char && i
                == case_insensitive,
            (Expr::Cast { expr: e, target: t }, Expr::Cast { expr, target })
            | (Expr::TryCast { expr: e, target: t }, Expr::TryCast { expr, target }) => e@ == expr@
                && t == target,
            (Expr::Other { id: x, field_type: t }, Expr::Other { id, field_type }) => x == id && t
                == field_type,
            _ => false,
        },
{
    if let (Expr::Column(x), Expr::Column(y)) = (a, b) {
        assert(x@.qualifier == y@.qualifier);
        assert(texts(x.qualifier@).len() == texts(y.qualifier@).len());
        assert forall|i: int| 0 <= i < x.qualifier@.len() implies (#[trigger] x.qualifier@[i])@
            == y.qualifier@[i]@ by {
            assert(texts(x.qualifier@)[i] == texts(y.qualifier@)[i]);
        }
    }
    if let (Expr::InList { list: l, .. }, Expr::InList { list, .. }) = (a, b) {
        let p = a@->InList_list;
        let q = b@->InList_list;
        assert(p.len() == l@.len() && q.len() == list@.len());
        assert forall|i: int| 0 <= i < l@.len() implies (#[trigger] l@[i])@ == list@[i]@ by {
            assert(p[i] == q[i]);
        }
    }
}

} // verus!
