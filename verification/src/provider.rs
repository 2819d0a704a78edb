//! The table that a dataset is to a query engine.
//!
//! A scan reads only the columns that the query asks for, hands the filters
//! that the dataset understands to it, and spreads the fragments of the
//! dataset over the partitions of the plan.

use crate::expr::{self, Expr, ExprView};
use crate::filter::{self, combine_lance_filters, to_lance_filter};
use crate::meaning;
use crate::options::LanceReadOptions;
use crate::schema::{self, Field, ProjectionError, Schema};
use crate::sql;
use crate::value_type::ValueType;
use vstd::prelude::*;
use vstd::string::*;

verus! {

/// The width that `DataType::primitive_width` gives a type, in bytes.
pub uninterp spec fn primitive_width(arrow_type: arrow_schema::DataType) -> Option<usize>;

/// `DataType::primitive_width`: the width of a value in bytes, for the types
/// that have one. What it gives is a function of the type.
#[verifier::external_body]
fn arrow_width(arrow_type: &arrow_schema::DataType) -> (width: Option<usize>)
    ensures
        width == primitive_width(*arrow_type),
{
    arrow_type.primitive_width()
}

/// How many bits a value of a type takes; `None` where that depends on the
/// value, where the type has no values, and where it is more than a `u128`
/// holds.
pub open spec fn bit_width(value_type: ValueType) -> Option<int>
    decreases value_type,
{
    match value_type {
        ValueType::Null => Some(0),
        ValueType::Boolean => Some(1),
        ValueType::Int8 | ValueType::UInt8 => Some(8),
        ValueType::Int16 | ValueType::UInt16 | ValueType::Float16 => Some(16),
        ValueType::Int32 | ValueType::UInt32 | ValueType::Float32 => Some(32),
        ValueType::Int64 | ValueType::UInt64 | ValueType::Float64 => Some(64),
        ValueType::Decimal128(..) => Some(128),
        ValueType::Utf8 | ValueType::LargeUtf8 | ValueType::Utf8View => None,
        ValueType::FixedSizeBinary(size) => repeated_width(Some(8), size),
        ValueType::FixedSizeList(item, size) => repeated_width(bit_width(*item), size),
        ValueType::Other(arrow_type) => width_of_bytes(primitive_width(arrow_type)),
    }
}

/// How many bits so many values take that take `item` bits each.
pub open spec fn repeated_width(item: Option<int>, size: i32) -> Option<int> {
    match item {
        Some(bits) if size >= 0 && bits * size <= u128::MAX => Some(bits * size),
        _ => None,
    }
}

/// How many bits so many bytes are.
pub open spec fn width_of_bytes(bytes: Option<usize>) -> Option<int> {
    match bytes {
        Some(bytes) => Some(8 * bytes),
        None => None,
    }
}

/// What a width is.
pub open spec fn width_view(width: Option<u128>) -> Option<int> {
    match width {
        Some(bits) => Some(bits as int),
        None => None,
    }
}

/// How many bits so many bytes are.
pub fn bytes_in_bits(bytes: Option<usize>) -> (bits: Option<u128>)
    ensures
        width_view(bits) == width_of_bytes(bytes),
{
    match bytes {
        Some(bytes) => Some(8 * bytes as u128),
        None => None,
    }
}

/// How many bits so many values take that take `item` bits each.
fn repeat_width(item: Option<u128>, size: i32) -> (bits: Option<u128>)
    ensures
        width_view(bits) == repeated_width(width_view(item), size),
{
    match item {
        Some(bits) => {
            if size >= 0 {
                bits.checked_mul(size as u128)
            } else {
                None
            }
        },
        None => None,
    }
}

/// How many bits a value of a type takes.
pub fn width_in_bits(value_type: &ValueType) -> (bits: Option<u128>)
    ensures
        width_view(bits) == bit_width(*value_type),
    decreases value_type,
{
    match value_type {
        ValueType::Null => Some(0),
        ValueType::Boolean => Some(1),
        ValueType::Int8 | ValueType::UInt8 => Some(8),
        ValueType::Int16 | ValueType::UInt16 | ValueType::Float16 => Some(16),
        ValueType::Int32 | ValueType::UInt32 | ValueType::Float32 => Some(32),
        ValueType::Int64 | ValueType::UInt64 | ValueType::Float64 => Some(64),
        ValueType::Decimal128(..) => Some(128),
        ValueType::Utf8 | ValueType::LargeUtf8 | ValueType::Utf8View => None,
        ValueType::FixedSizeBinary(size) => repeat_width(Some(8), *size),
        ValueType::FixedSizeList(item, size) => repeat_width(width_in_bits(item), *size),
        ValueType::Other(arrow_type) => bytes_in_bits(arrow_width(arrow_type)),
    }
}

/// Whether a width is less than another; every width is less than none.
pub open spec fn is_narrower(a: Option<int>, b: Option<int>) -> bool {
    match (a, b) {
        (Some(a), Some(b)) => a < b,
        (Some(_), None) => true,
        (None, _) => false,
    }
}

fn narrower(a: Option<u128>, b: Option<u128>) -> (less: bool)
    ensures
        less == is_narrower(width_view(a), width_view(b)),
{
    match (a, b) {
        (Some(a), Some(b)) => a < b,
        (Some(_), None) => true,
        (None, _) => false,
    }
}

/// Whether a scan makes a column from its options rather than from the
/// dataset, so that the column must not be asked of the dataset.
pub open spec fn is_metadata_column(name: Seq<char>) -> bool {
    ||| name == "_rowid"@
    ||| name == "_rowaddr"@
    ||| name == "_distance"@
    ||| name == "_score"@
}

fn is_metadata(name: &String) -> (metadata: bool)
    ensures
        metadata == is_metadata_column(name@),
{
    *name == "_rowid".to_owned() || *name == "_rowaddr".to_owned() || *name
        == "_distance".to_owned() || *name == "_score".to_owned()
}

/// The names of the fields that the dataset itself holds.
pub open spec fn dataset_columns(fields: Seq<Field>) -> Seq<Seq<char>>
    decreases fields.len(),
{
    if fields.len() == 0 {
        Seq::empty()
    } else {
        let rest = dataset_columns(fields.drop_last());
        if is_metadata_column(fields.last().name@) {
            rest
        } else {
            rest.push(fields.last().name@)
        }
    }
}

/// Whether a field is the first of the narrowest that the dataset itself holds.
pub open spec fn is_narrowest(fields: Seq<Field>, i: int) -> bool {
    &&& 0 <= i < fields.len()
    &&& !is_metadata_column(fields[i].name@)
    &&& forall|j: int|
        0 <= j < fields.len() && !is_metadata_column((#[trigger] fields[j]).name@)
            ==> !is_narrower(bit_width(fields[j].value_type), bit_width(fields[i].value_type))
    &&& forall|j: int|
        0 <= j < i && !is_metadata_column((#[trigger] fields[j]).name@) ==> is_narrower(
            bit_width(fields[i].value_type),
            bit_width(fields[j].value_type),
        )
}

/// Whether `columns` are the columns that a scan has to read: those of the
/// output that the dataset holds, or, where there are none, the narrowest
/// column of the dataset.
pub open spec fn are_scan_columns(
    columns: Seq<Seq<char>>,
    output: Seq<Field>,
    table: Seq<Field>,
) -> bool {
    if dataset_columns(output).len() > 0 {
        columns == dataset_columns(output)
    } else if dataset_columns(table).len() > 0 {
        exists|i: int| #[trigger] is_narrowest(table, i) && columns == seq![table[i].name@]
    } else {
        columns.len() == 0
    }
}

proof fn lemma_dataset_columns_empty(fields: Seq<Field>, n: int)
    requires
        0 <= n <= fields.len(),
    ensures
        dataset_columns(fields.take(n)).len() == 0 <==> forall|j: int|
            0 <= j < n ==> is_metadata_column((#[trigger] fields[j]).name@),
    decreases n,
{
    if n > 0 {
        lemma_dataset_columns_empty(fields, n - 1);
        assert(fields.take(n).drop_last() == fields.take(n - 1));
        assert(fields.take(n).last() == fields[n - 1]);
    }
}

/// The dataset columns that a scan has to read for an output.
///
/// An empty output, which is what a bare row count asks for, still has to read
/// something, so the narrowest available column is used.
pub fn scan_columns(output: &Schema, table: &Schema) -> (columns: Vec<String>)
    ensures
        are_scan_columns(expr::texts(columns@), output.fields@, table.fields@),
{
    let mut columns: Vec<String> = Vec::new();
    for i in 0..output.fields.len()
        invariant
            expr::texts(columns@) == dataset_columns(output.fields@.take(i as int)),
    {
        assert(output.fields@.take(i + 1).drop_last() == output.fields@.take(i as int));
        let name = &output.fields[i].name;
        if !is_metadata(name) {
            columns.push(name.clone());
        }
        assert(expr::texts(columns@) == dataset_columns(output.fields@.take(i + 1)));
    }
    assert(output.fields@.take(output.fields@.len() as int) == output.fields@);
    assert(expr::texts(columns@).len() == columns@.len());
    if columns.len() > 0 {
        return columns;
    }
    let mut narrowest: Option<usize> = None;
    let mut width: Option<u128> = None;
    for i in 0..table.fields.len()
        invariant
            match narrowest {
                Some(k) => {
                    &&& is_narrowest(table.fields@.take(i as int), k as int)
                    &&& k < i
                    &&& width_view(width) == bit_width(table.fields@[k as int].value_type)
                },
                None => forall|j: int|
                    0 <= j < i ==> is_metadata_column((#[trigger] table.fields@[j]).name@),
            },
    {
        let ghost before = table.fields@.take(i as int);
        let ghost after = table.fields@.take(i + 1);
        assert(forall|j: int| 0 <= j < i ==> after[j] == #[trigger] before[j]);
        assert(after[i as int] == table.fields@[i as int]);
        let field = &table.fields[i];
        if !is_metadata(&field.name) {
            let bits = width_in_bits(&field.value_type);
            if narrowest.is_none() || narrower(bits, width) {
                narrowest = Some(i);
                width = bits;
                assert(is_narrowest(after, i as int));
            } else {
                assert(is_narrowest(after, narrowest->0 as int));
            }
        } else if narrowest.is_some() {
            assert(is_narrowest(after, narrowest->0 as int));
        }
    }
    proof {
        lemma_dataset_columns_empty(table.fields@, table.fields@.len() as int);
        assert(table.fields@.take(table.fields@.len() as int) == table.fields@);
    }
    if let Some(k) = narrowest {
        columns.push(table.fields[k].name.clone());
        assert(expr::texts(columns@) == seq![table.fields@[k as int].name@]);
    }
    columns
}

/// Whether a scan is one partition over the whole dataset: where nothing is to
/// be gained from more, and for a vector search, whose globally nearest rows
/// cannot be assembled from scans of parts.
pub open spec fn is_one_scan(
    fragments: nat,
    target_partitions: usize,
    is_vector_search: bool,
) -> bool {
    is_vector_search || target_partitions <= 1 || fragments <= 1
}

/// How many partitions a scan over more than one partition has.
pub open spec fn partition_count(fragments: nat, target_partitions: usize) -> int {
    if target_partitions <= fragments {
        target_partitions as int
    } else {
        fragments as int
    }
}

/// Every `count`th of the fragments, in order, beginning with the one at `k`.
pub open spec fn share<F>(fragments: Seq<F>, count: int, k: int) -> Seq<F>
    decreases fragments.len(),
{
    if fragments.len() == 0 {
        Seq::empty()
    } else {
        let rest = share(fragments.drop_last(), count, k);
        if (fragments.len() - 1) % count == k {
            rest.push(fragments.last())
        } else {
            rest
        }
    }
}

/// The fragments of each partition; an empty list stands for the whole
/// dataset.
pub open spec fn partitioning<F>(
    fragments: Seq<F>,
    target_partitions: usize,
    is_vector_search: bool,
) -> Seq<Seq<F>> {
    if is_one_scan(fragments.len(), target_partitions, is_vector_search) {
        seq![Seq::empty()]
    } else {
        let count = partition_count(fragments.len(), target_partitions);
        Seq::new(count as nat, |k: int| share(fragments, count, k))
    }
}

/// The contents of each of a list of vectors.
pub open spec fn contents<F>(vectors: Seq<Vec<F>>) -> Seq<Seq<F>> {
    vectors.map_values(|vector: Vec<F>| vector@)
}

/// Assigns the fragments of a dataset to partitions.
pub fn partition_fragments<F>(
    fragments: Vec<F>,
    target_partitions: usize,
    is_vector_search: bool,
) -> (partitions: Vec<Vec<F>>)
    ensures
        contents(partitions@) == partitioning(fragments@, target_partitions, is_vector_search),
        is_vector_search || target_partitions <= 1 || fragments@.len() <= 1 ==> partitions@.len()
            == 1 && partitions@[0]@ == Seq::<F>::empty(),
        !is_vector_search && target_partitions > 1 && fragments@.len() > 1 ==> partitions@.len()
            == if target_partitions < fragments@.len() {
            target_partitions as nat
        } else {
            fragments@.len()
        },
{
    let mut partitions: Vec<Vec<F>> = Vec::new();
    if is_vector_search || target_partitions <= 1 || fragments.len() <= 1 {
        partitions.push(Vec::new());
        return partitions;
    }
    let count: usize = if target_partitions <= fragments.len() {
        target_partitions
    } else {
        fragments.len()
    };
    for k in 0..count
        invariant
            partitions@.len() == k,
            forall|j: int| 0 <= j < k ==> (#[trigger] partitions@[j])@ == Seq::<F>::empty(),
    {
        partitions.push(Vec::new());
    }
    let ghost all = fragments@;
    let mut index: usize = 0;
    for fragment in iter: fragments
        invariant
            iter.seq() == all,
            all.len() <= usize::MAX,
            index == iter.index(),
            1 < count,
            partitions@.len() == count,
            forall|k: int|
                0 <= k < count ==> (#[trigger] partitions@[k])@ == share(
                    all.take(iter.index()),
                    count as int,
                    k,
                ),
    {
        assert(all.take(iter.index() + 1).drop_last() == all.take(iter.index()));
        assert(fragment == all.take(iter.index() + 1).last());
        let k: usize = index % count;
        partitions[k].push(fragment);
        index = index + 1;
    }
    assert(all.take(all.len() as int) == all);
    assert(contents(partitions@) == partitioning(all, target_partitions, is_vector_search));
    partitions
}

proof fn lemma_place(j: int, l: int, count: int, k: int, n: int)
    by (nonlinear_arith)
    requires
        0 <= j < l,
        0 <= k < count,
        (l - 1) * count + k < n,
    ensures
        0 <= j * count + k < n,
{
}

proof fn lemma_share<F>(fragments: Seq<F>, count: int, k: int)
    requires
        0 <= k < count,
    ensures
        (share(fragments, count, k).len() - 1) * count + k < fragments.len(),
        fragments.len() <= share(fragments, count, k).len() * count + k,
        forall|j: int|
            0 <= j < share(fragments, count, k).len() ==> #[trigger] share(fragments, count, k)[j]
                == fragments[j * count + k],
    decreases fragments.len(),
{
    if fragments.len() > 0 {
        let front = fragments.drop_last();
        let n = front.len() as int;
        let rest = share(front, count, k);
        let l = rest.len() as int;
        lemma_share(front, count, k);
        if n % count == k {
            assert(n == l * count + k) by (nonlinear_arith)
                requires
                    n % count == k,
                    0 <= k < count,
                    (l - 1) * count + k < n,
                    n <= l * count + k,
            ;
            assert((l + 1) * count == l * count + count) by (nonlinear_arith);
        } else {
            assert(n != l * count + k) by (nonlinear_arith)
                requires
                    n % count != k,
                    0 <= k < count,
            ;
        }
        assert forall|j: int| 0 <= j < share(fragments, count, k).len() implies #[trigger] share(
            fragments,
            count,
            k,
        )[j] == fragments[j * count + k] by {
            if j < l {
                assert(share(fragments, count, k)[j] == rest[j]);
                lemma_place(j, l, count, k, n);
            }
        }
    } else {
        assert((0 - 1) * count + k < 0) by (nonlinear_arith)
            requires
                k < count,
        ;
    }
}

/// The fragment at place `j` of a partition is the one at place
/// `j * count + k` of the dataset: fragments go round the partitions in turn.
pub proof fn law_fragments_go_round<F>(
    fragments: Seq<F>,
    target_partitions: usize,
    is_vector_search: bool,
    k: int,
    j: int,
)
    requires
        !is_vector_search,
        target_partitions > 1,
        fragments.len() > 1,
        0 <= k < partitioning(fragments, target_partitions, is_vector_search).len(),
        0 <= j < partitioning(fragments, target_partitions, is_vector_search)[k].len(),
    ensures
        ({
            let partitions = partitioning(fragments, target_partitions, is_vector_search);
            &&& j * partitions.len() + k < fragments.len()
            &&& partitions[k][j] == fragments[j * partitions.len() + k]
        }),
{
    let count = partition_count(fragments.len(), target_partitions);
    lemma_share(fragments, count, k);
    assert(share(fragments, count, k)[j] == fragments[j * count + k]);
    lemma_place(
        j,
        share(fragments, count, k).len() as int,
        count,
        k,
        fragments.len() as int,
    );
}

/// Every fragment of the dataset is in the partition that its place says, so
/// no fragment is left out, and with the places that fragments go to, none is
/// scanned twice.
pub proof fn law_every_fragment_is_scanned<F>(
    fragments: Seq<F>,
    target_partitions: usize,
    is_vector_search: bool,
    i: int,
)
    requires
        !is_vector_search,
        target_partitions > 1,
        fragments.len() > 1,
        0 <= i < fragments.len(),
    ensures
        ({
            let partitions = partitioning(fragments, target_partitions, is_vector_search);
            let count = partitions.len() as int;
            &&& 0 <= i % count < count
            &&& 0 <= i / count < partitions[i % count].len()
            &&& partitions[i % count][i / count] == fragments[i]
        }),
{
    let count = partition_count(fragments.len(), target_partitions);
    let k = i % count;
    let j = i / count;
    lemma_share(fragments, count, k);
    let l = share(fragments, count, k).len() as int;
    assert(0 <= j < l && j * count + k == i && 0 <= k < count) by (nonlinear_arith)
        requires
            count > 0,
            k == i % count,
            j == i / count,
            0 <= i < fragments.len(),
            fragments.len() <= l * count + k,
    ;
    assert(share(fragments, count, k)[j] == fragments[j * count + k]);
}

/// In a scan over more than one partition no partition is empty, so none of
/// them stands for the whole dataset.
pub proof fn law_no_partition_is_empty<F>(
    fragments: Seq<F>,
    target_partitions: usize,
    is_vector_search: bool,
    k: int,
)
    requires
        !is_vector_search,
        target_partitions > 1,
        fragments.len() > 1,
        0 <= k < partitioning(fragments, target_partitions, is_vector_search).len(),
    ensures
        partitioning(fragments, target_partitions, is_vector_search).len() > 1,
        partitioning(fragments, target_partitions, is_vector_search)[k].len() > 0,
{
    let count = partition_count(fragments.len(), target_partitions);
    lemma_share(fragments, count, k);
    assert(0 * count == 0);
}

/// The partitions of a scan hold as many fragments each, give or take one.
pub proof fn law_partitions_are_even<F>(
    fragments: Seq<F>,
    target_partitions: usize,
    is_vector_search: bool,
    k: int,
    m: int,
)
    requires
        0 <= k < partitioning(fragments, target_partitions, is_vector_search).len(),
        0 <= m < partitioning(fragments, target_partitions, is_vector_search).len(),
    ensures
        partitioning(fragments, target_partitions, is_vector_search)[k].len() <= partitioning(
            fragments,
            target_partitions,
            is_vector_search,
        )[m].len() + 1,
{
    if !is_one_scan(fragments.len(), target_partitions, is_vector_search) {
        let count = partition_count(fragments.len(), target_partitions);
        lemma_share(fragments, count, k);
        lemma_share(fragments, count, m);
        let a = share(fragments, count, k).len() as int;
        let b = share(fragments, count, m).len() as int;
        let n = fragments.len() as int;
        assert(a <= b + 1) by (nonlinear_arith)
            requires
                0 <= k < count,
                0 <= m < count,
                (a - 1) * count + k < n,
                n <= b * count + m,
        ;
    }
}

/// A vector search has exactly one partition, and it is the empty list that
/// stands for the whole dataset, however many fragments there are and however
/// many partitions are asked for: the nearest rows of all cannot be put together
/// from the nearest rows of each part.
pub proof fn law_vector_search_is_one_scan<F>(fragments: Seq<F>, target_partitions: usize)
    ensures
        partitioning(fragments, target_partitions, true).len() == 1,
        partitioning(fragments, target_partitions, true)[0].len() == 0,
{
}

/// Every other scan has as many partitions as are asked for, but no more than
/// there are fragments; where that is one or none, it is one scan of the whole
/// dataset.
pub proof fn law_scan_has_the_partitions_asked_for<F>(fragments: Seq<F>, target_partitions: usize)
    ensures
        ({
            let partitions = partitioning(fragments, target_partitions, false);
            if target_partitions <= 1 || fragments.len() <= 1 {
                partitions.len() == 1 && partitions[0].len() == 0
            } else {
                &&& partitions.len() <= target_partitions
                &&& partitions.len() <= fragments.len()
                &&& partitions.len() == target_partitions || partitions.len() == fragments.len()
            }
        }),
{
}

/// Whether a name is one of the columns that a scan makes itself.
pub open spec fn is_made_by_scan(name: Seq<char>) -> bool {
    name == "_rowid"@ || name == "_rowaddr"@ || name == "_distance"@ || name == "_score"@
}

proof fn lemma_dataset_columns(fields: Seq<Field>)
    ensures
        dataset_columns(fields) == fields.map_values(|field: Field| field.name@).filter(
            |name: Seq<char>| !is_made_by_scan(name),
        ),
    decreases fields.len(),
{
    let names = fields.map_values(|field: Field| field.name@);
    reveal(Seq::filter);
    if fields.len() > 0 {
        lemma_dataset_columns(fields.drop_last());
        assert(names.drop_last() == fields.drop_last().map_values(|field: Field| field.name@));
        assert(names.last() == fields.last().name@);
    }
}

/// A scan reads the columns of its output, in their order, without those that
/// it makes itself. Where that leaves none, it reads the first of the narrowest
/// columns of the dataset, and nothing only where the dataset has no column.
pub proof fn law_scan_reads_its_output(
    columns: Seq<Seq<char>>,
    output: Seq<Field>,
    table: Seq<Field>,
)
    requires
        are_scan_columns(columns, output, table),
    ensures
        ({
            let wanted = output.map_values(|field: Field| field.name@).filter(
                |name: Seq<char>| !is_made_by_scan(name),
            );
            if wanted.len() > 0 {
                columns == wanted
            } else if exists|i: int|
                0 <= i < table.len() && !is_made_by_scan((#[trigger] table[i]).name@) {
                &&& columns.len() == 1
                &&& exists|i: int|
                    0 <= i < table.len() && (#[trigger] table[i]).name@ == columns[0]
                        && !is_made_by_scan(columns[0]) && (forall|j: int|
                        #![trigger table[j]]
                        0 <= j < table.len() && !is_made_by_scan(table[j].name@) ==> match (
                            bit_width(table[i].value_type),
                            bit_width(table[j].value_type),
                        ) {
                            (Some(a), Some(b)) => if j < i {
                                a < b
                            } else {
                                a <= b
                            },
                            (Some(_), None) => true,
                            (None, Some(_)) => false,
                            (None, None) => i <= j,
                        })
            } else {
                columns.len() == 0
            }
        }),
{
    lemma_dataset_columns(output);
    lemma_dataset_columns_empty(table, table.len() as int);
    assert(table.take(table.len() as int) == table);
    if dataset_columns(output).len() == 0 {
        if exists|i: int| 0 <= i < table.len() && !is_made_by_scan((#[trigger] table[i]).name@) {
            let some = choose|i: int|
                0 <= i < table.len() && !is_made_by_scan((#[trigger] table[i]).name@);
            assert(!is_metadata_column(table[some].name@));
            let i = choose|i: int| #[trigger]
                is_narrowest(table, i) && columns == seq![table[i].name@];
            assert(table[i].name@ == columns[0]);
            assert forall|j: int|
                #![trigger table[j]]
                0 <= j < table.len() && !is_made_by_scan(table[j].name@) implies match (
                bit_width(table[i].value_type),
                bit_width(table[j].value_type),
            ) {
                (Some(a), Some(b)) => if j < i {
                    a < b
                } else {
                    a <= b
                },
                (Some(_), None) => true,
                (None, Some(_)) => false,
                (None, None) => i <= j,
            } by {
                assert(!is_metadata_column(table[j].name@));
            }
        }
    }
}

/// A value of an integer type takes as many bits as it takes to tell its values
/// apart, a floating point number as many as the unsigned integer of its bits, a
/// truth value one and a null none; so many values take so many times as much,
/// and what has no width of its own makes nothing that has one.
pub proof fn law_widths(value_type: ValueType, size: i32)
    ensures
        value_type.is_integer() ==> (bit_width(value_type) matches Some(bits) && bits >= 0
            && vstd::arithmetic::power2::pow2(bits as nat) == value_type.greatest()
            - value_type.least() + 1),
        bit_width(ValueType::Float16) == bit_width(ValueType::UInt16),
        bit_width(ValueType::Float32) == bit_width(ValueType::UInt32),
        bit_width(ValueType::Float64) == bit_width(ValueType::UInt64),
        bit_width(ValueType::Boolean) == Some(1int),
        bit_width(ValueType::Null) == Some(0int),
        bit_width(ValueType::Decimal128(38, 0)) == Some(128int),
        value_type is Decimal128 ==> bit_width(value_type) == bit_width(
            ValueType::Decimal128(38, 0),
        ),
        value_type.is_text() ==> bit_width(value_type) is None,
        bit_width(ValueType::FixedSizeList(Box::new(value_type), size)) == match bit_width(
            value_type,
        ) {
            Some(bits) if size >= 0 && size * bits <= u128::MAX => Some(size * bits),
            _ => None,
        },
        bit_width(ValueType::FixedSizeBinary(size)) == bit_width(
            ValueType::FixedSizeList(Box::new(ValueType::UInt8), size),
        ),
        value_type matches ValueType::Other(arrow_type) ==> match primitive_width(arrow_type) {
            Some(bytes) => bit_width(value_type) matches Some(bits) && bits == bytes * 8,
            None => bit_width(value_type) is None,
        },
{
    vstd::arithmetic::power2::lemma2_to64();
    vstd::arithmetic::power2::lemma2_to64_rest();
    reveal_with_fuel(bit_width, 2);
    if let Some(bits) = bit_width(value_type) {
        vstd::arithmetic::mul::lemma_mul_is_commutative(bits, size as int);
    }
}

/// A table backed by a dataset.
#[derive(Debug)]
pub struct LanceTableProvider<D> {
    pub uri: String,
    /// The columns that a scan of the dataset with these options gives.
    pub schema: Schema,
    pub dataset: D,
    pub read_options: LanceReadOptions,
}

/// What a scan asks of the dataset.
#[derive(Debug)]
pub struct LanceScanConfig {
    pub columns: Vec<String>,
    pub filter: Option<String>,
    pub limit: Option<usize>,
    pub options: LanceReadOptions,
}

/// A planned scan.
#[derive(Debug)]
pub struct LanceScan<F> {
    /// The columns that come out.
    pub output: Schema,
    pub config: LanceScanConfig,
    /// The fragments of each partition; an empty list stands for the whole
    /// dataset.
    pub partitions: Vec<Vec<F>>,
}

/// What becomes of a filter that is offered to a table.
#[derive(Debug, Clone, Copy, PartialEq, Eq)]
pub enum FilterPushDown {
    /// The dataset does not see the filter.
    Unsupported,
    /// The dataset evaluates the filter, and the engine evaluates it again, so
    /// that a difference in SQL semantics cannot produce a wrong answer.
    Inexact,
}

/// Whether a dataset, asked about a filter, may give a verdict.
pub open spec fn may_answer<A: Fn(&str) -> bool>(
    accepts: A,
    filter: Seq<char>,
    verdict: bool,
) -> bool {
    exists|text: &str| text@ == filter && #[trigger] call_ensures(accepts, (text,), verdict)
}

/// Whether a filter may come out as pushed down, or as not: a filter with an
/// SQL spelling is pushed down exactly where the dataset accepts the spelling,
/// and one without never is.
pub open spec fn may_push<A: Fn(&str) -> bool>(
    accepts: A,
    expr: ExprView,
    pushed: bool,
) -> bool {
    match filter::spelling(expr) {
        Some(text) => may_answer(accepts, text, pushed),
        None => !pushed,
    }
}

/// Whether `pushed` may be what comes out of a list of filters.
pub open spec fn may_push_all<A: Fn(&str) -> bool>(
    accepts: A,
    filters: Seq<ExprView>,
    pushed: Seq<bool>,
) -> bool {
    &&& pushed.len() == filters.len()
    &&& forall|i: int|
        0 <= i < filters.len() ==> may_push(accepts, #[trigger] filters[i], pushed[i])
}

/// The SQL of the filters that are pushed down.
pub open spec fn pushed_filters(filters: Seq<ExprView>, pushed: Seq<bool>) -> Seq<Seq<char>>
    decreases filters.len(),
{
    if filters.len() == 0 {
        Seq::empty()
    } else {
        let rest = pushed_filters(filters.drop_last(), pushed);
        match filter::spelling(filters.last()) {
            Some(text) if pushed[filters.len() - 1] => rest.push(text),
            _ => rest,
        }
    }
}

/// Whether every number of the filters that are pushed down is spelled as one
/// word.
pub open spec fn pushed_numbers_are_words(filters: Seq<ExprView>, pushed: Seq<bool>) -> bool {
    forall|i: int|
        0 <= i < filters.len() && pushed[i] ==> sql::numbers_are_words(#[trigger] filters[i])
}

/// Renders an expression as a filter that the dataset accepts. `accepts` has
/// the dataset parse a filter and bind it to its columns, and so has the final
/// word.
pub fn lance_filter<A: Fn(&str) -> bool>(expr: &Expr, accepts: &A) -> (filter: Option<String>)
    requires
        forall|text: &str| #[trigger] call_requires(*accepts, (text,)),
    ensures
        may_push(*accepts, expr@, filter is Some),
        filter is Some ==> filter::spelling(expr@) == Some(filter->0@),
        filter is Some ==> sql::numbers_are_words(expr@),
        filter matches Some(text) ==> sql::read_filter(text@) == Some(
            (sql::tree(expr@), Seq::<char>::empty()),
        ),
        filter is Some ==> meaning::understood(sql::tree(expr@)) == meaning::said(expr@),
{
    match to_lance_filter(expr) {
        Some(filter) => {
            if accepts(filter.as_str()) {
                Some(filter)
            } else {
                None
            }
        },
        None => None,
    }
}

/// What becomes of each of a list of filters.
pub fn supports_filters_pushdown<A: Fn(&str) -> bool>(
    filters: &Vec<Expr>,
    accepts: &A,
) -> (support: Vec<FilterPushDown>)
    requires
        forall|text: &str| #[trigger] call_requires(*accepts, (text,)),
    ensures
        may_push_all(
            *accepts,
            expr::views(filters@),
            support@.map_values(|s: FilterPushDown| s is Inexact),
        ),
{
    let mut support: Vec<FilterPushDown> = Vec::new();
    for i in 0..filters.len()
        invariant
            forall|text: &str| #[trigger] call_requires(*accepts, (text,)),
            support@.len() == i,
            forall|j: int|
                0 <= j < i ==> may_push(
                    *accepts,
                    #[trigger] filters@[j]@,
                    support@[j] is Inexact,
                ),
    {
        if lance_filter(&filters[i], accepts).is_some() {
            support.push(FilterPushDown::Inexact);
        } else {
            support.push(FilterPushDown::Unsupported);
        }
    }
    support
}

impl<D> LanceTableProvider<D> {
    /// The table of a dataset once it has been opened and asked for the columns
    /// that a scan with these options gives.
    pub fn try_open<E>(
        uri: &str,
        read_options: LanceReadOptions,
        opened: Result<(D, Schema), E>,
    ) -> (provider: Result<Self, E>)
        ensures
            match opened {
                Ok((dataset, schema)) => provider matches Ok(p) && p.uri@ == uri@ && p.schema
                    == schema && p.dataset == dataset && p.read_options == read_options,
                Err(error) => provider == Err::<Self, E>(error),
            },
    {
        match opened {
            Ok((dataset, schema)) => Ok(
                LanceTableProvider { uri: uri.to_owned(), schema, dataset, read_options },
            ),
            Err(error) => Err(error),
        }
    }

    /// Where the dataset is.
    pub fn uri(&self) -> (uri: &str)
        ensures
            uri@ == self.uri@,
    {
        self.uri.as_str()
    }

    /// The columns that come out of a scan with a projection.
    pub open spec fn output_fields(&self, projection: Option<&Vec<usize>>) -> Seq<Field> {
        match projection {
            Some(indices) => schema::picked(self.schema.fields@, indices@),
            None => self.schema.fields@,
        }
    }

    /// Plans a scan of the columns at `projection`, or of all of them.
    pub fn scan<F, A: Fn(&str) -> bool>(
        &self,
        projection: Option<&Vec<usize>>,
        filters: &Vec<Expr>,
        limit: Option<usize>,
        fragments: Vec<F>,
        target_partitions: usize,
        accepts: &A,
    ) -> (scan: Result<LanceScan<F>, ProjectionError>)
        requires
            forall|text: &str| #[trigger] call_requires(*accepts, (text,)),
        ensures
            match scan {
                Ok(scan) => {
                    &&& projection matches Some(indices) ==> forall|i: int|
                        0 <= i < indices@.len() ==> (#[trigger] indices@[i])
                            < self.schema.fields@.len()
                    &&& scan.output.fields@ == self.output_fields(projection)
                    &&& are_scan_columns(
                        expr::texts(scan.config.columns@),
                        self.output_fields(projection),
                        self.schema.fields@,
                    )
                    &&& exists|pushed: Seq<bool>| #[trigger]
                        may_push_all(*accepts, expr::views(filters@), pushed)
                            && pushed_numbers_are_words(expr::views(filters@), pushed)
                            && filter::text_view(scan.config.filter) == filter::conjunction(
                            pushed_filters(expr::views(filters@), pushed),
                        )
                    &&& scan.config.limit == limit
                    &&& scan.config.options@ == self.read_options@
                    &&& contents(scan.partitions@) == partitioning(
                        fragments@,
                        target_partitions,
                        self.read_options.nearest is Some,
                    )
                    &&& self.read_options.nearest is Some ==> scan.partitions@.len() == 1
                        && scan.partitions@[0]@ == Seq::<F>::empty()
                },
                Err(error) => {
                    &&& error.fields == self.schema.fields@.len()
                    &&& projection matches Some(indices) && exists|i: int| #[trigger]
                        schema::is_first_missing(self.schema.fields@, indices@, i) && error.index
                            == indices@[i]
                },
            },
    {
        let output = match projection {
            Some(indices) => match self.schema.project(indices) {
                Ok(schema) => schema,
                Err(error) => {
                    return Err(error);
                },
            },
            None => self.schema.clone(),
        };
        let columns = scan_columns(&output, &self.schema);
        let mut pushed: Vec<String> = Vec::new();
        let ghost mut verdicts: Seq<bool> = Seq::empty();
        for i in 0..filters.len()
            invariant
                forall|text: &str| #[trigger] call_requires(*accepts, (text,)),
                may_push_all(*accepts, expr::views(filters@.take(i as int)), verdicts),
                pushed_numbers_are_words(expr::views(filters@.take(i as int)), verdicts),
                expr::texts(pushed@) == pushed_filters(
                    expr::views(filters@.take(i as int)),
                    verdicts,
                ),
        {
            let filter = lance_filter(&filters[i], accepts);
            let ghost earlier = expr::views(filters@.take(i as int));
            let ghost later = expr::views(filters@.take(i + 1));
            let ghost answer = filter is Some;
            assert(later.drop_last() == earlier);
            assert(later.last() == filters@[i as int]@);
            proof {
                lemma_pushed_filters_prefix(earlier, verdicts, answer);
                verdicts = verdicts.push(answer);
            }
            if let Some(filter) = filter {
                pushed.push(filter);
            }
            assert(expr::texts(pushed@) == pushed_filters(later, verdicts));
            assert(forall|j: int| 0 <= j < i ==> #[trigger] later[j] == earlier[j]);
        }
        assert(filters@.take(filters@.len() as int) == filters@);
        let config = LanceScanConfig {
            columns,
            filter: combine_lance_filters(pushed.as_slice()),
            limit,
            options: self.read_options.clone(),
        };
        let partitions = partition_fragments(
            fragments,
            target_partitions,
            self.read_options.nearest.is_some(),
        );
        Ok(LanceScan { output, config, partitions })
    }
}

/// Only the first verdicts, one for each filter, matter.
proof fn lemma_pushed_filters_prefix(filters: Seq<ExprView>, pushed: Seq<bool>, more: bool)
    requires
        filters.len() <= pushed.len(),
    ensures
        pushed_filters(filters, pushed.push(more)) == pushed_filters(filters, pushed),
    decreases filters.len(),
{
    if filters.len() > 0 {
        lemma_pushed_filters_prefix(filters.drop_last(), pushed, more);
    }
}

/// The filter of a scan is made of the query's own filters and of nothing else:
/// each of its parts is the SQL of a filter that is pushed down, and each
/// filter that is pushed down is one of its parts.
pub proof fn law_pushed_filters_are_the_querys(filters: Seq<ExprView>, pushed: Seq<bool>)
    requires
        pushed.len() == filters.len(),
    ensures
        forall|text: Seq<char>| #[trigger]
            pushed_filters(filters, pushed).contains(text) <==> exists|i: int|
                0 <= i < filters.len() && pushed[i] && #[trigger] filter::spelling(filters[i])
                    == Some(text),
{
    lemma_pushed_filters(filters, pushed);
}

proof fn lemma_pushed_filters(filters: Seq<ExprView>, pushed: Seq<bool>)
    requires
        filters.len() <= pushed.len(),
    ensures
        forall|text: Seq<char>| #[trigger]
            pushed_filters(filters, pushed).contains(text) <==> exists|i: int|
                0 <= i < filters.len() && pushed[i] && #[trigger] filter::spelling(filters[i])
                    == Some(text),
    decreases filters.len(),
{
    if filters.len() > 0 {
        let front = filters.drop_last();
        let last = filters.len() - 1;
        lemma_pushed_filters(front, pushed);
        let rest = pushed_filters(front, pushed);
        let whole = pushed_filters(filters, pushed);
        assert forall|text: Seq<char>| #[trigger] whole.contains(text) implies exists|i: int|
            0 <= i < filters.len() && pushed[i] && #[trigger] filter::spelling(filters[i]) == Some(
                text,
            ) by {
            let at = whole.index_of(text);
            assert(whole[at] == text);
            if at < rest.len() {
                assert(rest[at] == text);
                assert(rest.contains(text));
                let i = choose|i: int|
                    0 <= i < front.len() && pushed[i] && #[trigger] filter::spelling(front[i])
                        == Some(text);
                assert(filter::spelling(filters[i]) == Some(text));
            } else {
                assert(filter::spelling(filters[last]) == Some(text));
            }
        }
        assert forall|text: Seq<char>|
            (exists|i: int|
                0 <= i < filters.len() && pushed[i] && #[trigger] filter::spelling(filters[i])
                    == Some(text)) implies #[trigger] whole.contains(text) by {
            let i = choose|i: int|
                0 <= i < filters.len() && pushed[i] && #[trigger] filter::spelling(filters[i])
                    == Some(text);
            if i < last {
                assert(filter::spelling(front[i]) == Some(text));
                assert(rest.contains(text));
                let at = rest.index_of(text);
                assert(whole[at] == text);
            } else {
                assert(whole.last() == text);
            }
        }
    }
}

/// A filter is pushed down only where the dataset was asked about its SQL and
/// accepted it, and is left to the engine only where it has no SQL, or the
/// dataset was asked about it and refused it.
pub proof fn law_the_dataset_has_the_final_word<A: Fn(&str) -> bool>(
    accepts: A,
    filters: Seq<ExprView>,
    pushed: Seq<bool>,
    i: int,
)
    requires
        may_push_all(accepts, filters, pushed),
        0 <= i < filters.len(),
    ensures
        pushed.len() == filters.len(),
        pushed[i] ==> filter::spelling(filters[i]) is Some,
        filter::spelling(filters[i]) matches Some(sql) ==> exists|text: &str|
            text@ == sql && #[trigger] call_ensures(accepts, (text,), pushed[i]),
{
    assert(may_push(accepts, filters[i], pushed[i]));
}

/// How many of the first `n` filters are pushed down.
pub open spec fn pushed_before(pushed: Seq<bool>, n: int) -> int
    decreases n,
{
    if n <= 0 {
        0
    } else {
        pushed_before(pushed, n - 1) + if pushed[n - 1] {
            1int
        } else {
            0int
        }
    }
}

/// The filters that are pushed down stand in the filter of a scan in the order
/// of the query, each once.
pub proof fn law_pushed_filters_keep_their_order(
    filters: Seq<ExprView>,
    pushed: Seq<bool>,
    i: int,
)
    requires
        filters.len() <= pushed.len(),
        0 <= i < filters.len(),
        forall|j: int|
            0 <= j < filters.len() && pushed[j] ==> filter::spelling(#[trigger] filters[j]) is Some,
    ensures
        pushed_filters(filters, pushed).len() == pushed_before(pushed, filters.len() as int),
        pushed[i] ==> {
            &&& 0 <= pushed_before(pushed, i) < pushed_filters(filters, pushed).len()
            &&& Some(pushed_filters(filters, pushed)[pushed_before(pushed, i)])
                == filter::spelling(filters[i])
        },
{
    lemma_pushed_places(filters, pushed, i);
}

proof fn lemma_pushed_places(filters: Seq<ExprView>, pushed: Seq<bool>, i: int)
    requires
        filters.len() <= pushed.len(),
        forall|j: int|
            0 <= j < filters.len() && pushed[j] ==> filter::spelling(#[trigger] filters[j]) is Some,
    ensures
        pushed_filters(filters, pushed).len() == pushed_before(pushed, filters.len() as int),
        pushed_before(pushed, i) >= 0,
        0 <= i < filters.len() && pushed[i] ==> {
            &&& pushed_before(pushed, i) < pushed_filters(filters, pushed).len()
            &&& Some(pushed_filters(filters, pushed)[pushed_before(pushed, i)])
                == filter::spelling(filters[i])
        },
    decreases filters.len(), i,
{
    if filters.len() > 0 {
        let front = filters.drop_last();
        let last = filters.len() - 1;
        assert forall|j: int| 0 <= j < front.len() && pushed[j] implies filter::spelling(
            #[trigger] front[j],
        ) is Some by {
            assert(front[j] == filters[j]);
        }
        lemma_pushed_places(front, pushed, i);
        assert(filters.last() == filters[last]);
    } else if i > 0 {
        lemma_pushed_places(filters, pushed, i - 1);
    }
}

/// What comes out of a scan with a projection is the column at each index of
/// the projection, in its order; without one, every column.
pub proof fn law_projection_picks_columns<D>(
    provider: LanceTableProvider<D>,
    indices: Vec<usize>,
    i: int,
)
    requires
        0 <= i < indices@.len(),
    ensures
        provider.output_fields(None) == provider.schema.fields@,
        provider.output_fields(Some(&indices)).len() == indices@.len(),
        provider.output_fields(Some(&indices))[i] == provider.schema.fields@[indices@[i] as int],
{
}

} // verus!
