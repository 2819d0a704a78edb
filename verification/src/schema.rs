//! The columns of a dataset.

use crate::expr::{Expr, ExprView};
use crate::text::{self, decimal_text};
use crate::value_type::ValueType;
use vstd::prelude::*;
use vstd::string::*;

verus! {

/// A top-level column and its type.
#[derive(Debug, PartialEq)]
pub struct Field {
    pub name: String,
    pub value_type: ValueType,
}

impl Clone for Field {
    fn clone(&self) -> (copy: Self)
        ensures
            copy == *self,
    {
        Field { name: self.name.clone(), value_type: self.value_type.clone() }
    }
}

/// The columns of a dataset.
#[derive(Debug, PartialEq)]
pub struct Schema {
    pub fields: Vec<Field>,
}

impl Clone for Schema {
    fn clone(&self) -> (copy: Self)
        ensures
            copy.fields@ == self.fields@,
    {
        let mut fields: Vec<Field> = Vec::new();
        for i in 0..self.fields.len()
            invariant
                fields@ == self.fields@.take(i as int),
        {
            fields.push(self.fields[i].clone());
        }
        assert(fields@ == self.fields@);
        Schema { fields }
    }
}

/// A projection asked for a column that is not there.
#[derive(Debug, Clone, Copy, PartialEq, Eq)]
pub struct ProjectionError {
    /// The index that was asked for.
    pub index: usize,
    /// How many columns there are.
    pub fields: usize,
}

impl ProjectionError {
    /// What is wrong, in words.
    pub fn message(&self) -> (message: String)
        ensures
            message@ == "project index "@ + text::decimal(self.index as int)
                + " out of bounds, max field "@ + text::decimal(self.fields as int),
    {
        let mut message = "project index ".to_owned();
        message.append(decimal_text(self.index as i128).as_str());
        message.append(" out of bounds, max field ");
        message.append(decimal_text(self.fields as i128).as_str());
        message
    }
}

/// The fields at a list of indices.
pub open spec fn picked(fields: Seq<Field>, indices: Seq<usize>) -> Seq<Field> {
    indices.map_values(|i: usize| fields[i as int])
}

/// Whether `i` is the first place of a list of indices that no field stands at.
pub open spec fn is_first_missing(fields: Seq<Field>, indices: Seq<usize>, i: int) -> bool {
    &&& 0 <= i < indices.len()
    &&& indices[i] >= fields.len()
    &&& forall|j: int| 0 <= j < i ==> (#[trigger] indices[j]) < fields.len()
}

/// The type of the first of `fields` that has the name.
pub open spec fn field_type(fields: Seq<Field>, name: Seq<char>) -> Option<ValueType>
    decreases fields.len(),
{
    if fields.len() == 0 {
        None
    } else if fields[0].name@ == name {
        Some(fields[0].value_type)
    } else {
        field_type(fields.skip(1), name)
    }
}

impl Schema {
    /// The type of an expression that refers to a column or to a nested field
    /// of the dataset; `None` for every other expression.
    pub open spec fn column_type(self, expr: ExprView) -> Option<ValueType> {
        match expr {
            ExprView::Column(column) => field_type(self.fields@, column.name),
            ExprView::Other { field_type, .. } => field_type,
            _ => None,
        }
    }

    /// The columns at a list of indices; the first index that is out of bounds
    /// is an error.
    pub fn project(&self, indices: &Vec<usize>) -> (projected: Result<Schema, ProjectionError>)
        ensures
            match projected {
                Ok(schema) => {
                    &&& forall|i: int|
                        0 <= i < indices@.len() ==> (#[trigger] indices@[i]) < self.fields@.len()
                    &&& schema.fields@ == picked(self.fields@, indices@)
                },
                Err(error) => {
                    &&& error.fields == self.fields@.len()
                    &&& exists|i: int| #[trigger]
                        is_first_missing(self.fields@, indices@, i) && error.index == indices@[i]
                },
            },
    {
        let mut fields: Vec<Field> = Vec::new();
        for i in 0..indices.len()
            invariant
                forall|j: int| 0 <= j < i ==> (#[trigger] indices@[j]) < self.fields@.len(),
                fields@ == picked(self.fields@, indices@.take(i as int)),
        {
            let index: usize = indices[i];
            if index >= self.fields.len() {
                assert(is_first_missing(self.fields@, indices@, i as int));
                return Err(ProjectionError { index, fields: self.fields.len() });
            }
            fields.push(self.fields[index].clone());
            assert(fields@ == picked(self.fields@, indices@.take(i + 1)));
        }
        assert(indices@.take(indices@.len() as int) == indices@);
        Ok(Schema { fields })
    }
}

/// A column has the type of the first field with its name, and none only where
/// no field has its name; the qualifier in front of the name does not matter.
pub proof fn law_column_has_the_type_of_its_field(schema: Schema, column: ExprView)
    requires
        column is Column,
    ensures
        match schema.column_type(column) {
            Some(value_type) => exists|i: int|
                0 <= i < schema.fields@.len() && (#[trigger] schema.fields@[i]).value_type
                    == value_type && schema.fields@[i].name@ == column->Column_0.name && forall|
                    j: int,
                |
                    0 <= j < i ==> (#[trigger] schema.fields@[j]).name@ != column->Column_0.name,
            None => forall|i: int|
                0 <= i < schema.fields@.len() ==> (#[trigger] schema.fields@[i]).name@
                    != column->Column_0.name,
        },
{
    let _ = lemma_field_type(schema.fields@, column->Column_0.name);
}

/// The place of the first field with a name.
proof fn lemma_field_type(fields: Seq<Field>, name: Seq<char>) -> (place: int)
    ensures
        match field_type(fields, name) {
            Some(value_type) => {
                &&& 0 <= place < fields.len()
                &&& fields[place].value_type == value_type
                &&& fields[place].name@ == name
                &&& forall|j: int| 0 <= j < place ==> (#[trigger] fields[j]).name@ != name
            },
            None => forall|i: int|
                0 <= i < fields.len() ==> (#[trigger] fields[i]).name@ != name,
        },
    decreases fields.len(),
{
    if fields.len() == 0 {
        0
    } else if fields[0].name@ == name {
        0
    } else {
        let rest = fields.skip(1);
        let place = lemma_field_type(rest, name);
        assert(forall|j: int| 0 < j < fields.len() ==> #[trigger] fields[j] == rest[j - 1]);
        place + 1
    }
}

/// Nothing but a column, or a nested field that the dataset knows, has a type.
pub proof fn law_only_columns_have_types(schema: Schema, expr: ExprView)
    ensures
        !(expr is Column) ==> schema.column_type(expr) == match expr {
            ExprView::Other { field_type, .. } => field_type,
            _ => None,
        },
{
}

/// A projection that fails names the first index that no field stands at.
pub proof fn law_first_missing_index(fields: Seq<Field>, indices: Seq<usize>, i: int, j: int)
    requires
        is_first_missing(fields, indices, i),
    ensures
        0 <= i < indices.len(),
        fields.len() <= indices[i],
        0 <= j < i ==> indices[j] < fields.len(),
{
}

/// The type of the column or nested field that an expression refers to.
pub fn resolve_column_type(expr: &Expr, schema: &Schema) -> (value_type: Option<ValueType>)
    ensures
        value_type == schema.column_type(expr@),
{
    match expr {
        Expr::Column(column) => {
            assert(schema.fields@.skip(0) == schema.fields@);
            for i in 0..schema.fields.len()
                invariant
                    expr@ == ExprView::Column(column@),
                    field_type(schema.fields@, column.name@) == field_type(
                        schema.fields@.skip(i as int),
                        column.name@,
                    ),
            {
                if schema.fields[i].name == column.name {
                    return Some(schema.fields[i].value_type.clone());
                }
                assert(schema.fields@.skip(i as int).skip(1) == schema.fields@.skip(i + 1));
            }
            None
        },
        Expr::Other { field_type, .. } => match field_type {
            Some(value_type) => Some(value_type.clone()),
            None => None,
        },
        _ => None,
    }
}

} // verus!
