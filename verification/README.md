# sail_lance

A Lance dataset as a data source of a DataFusion query engine, with the logic of
the data source verified by Verus.

| Module | What it decides | What is proved of it |
| --- | --- | --- |
| `numeric_coercion` | Comparisons, ranges and lists of number columns against floating point literals are rewritten so that the column stays bare | `semantics`: the rewritten filter says of every row what the filter with the folded literals says of it; over a single precision column, a range is excepted if a bound without a cast is rounded |
| `filter` | Filters are rendered as SQL for the dataset's parser | `sql`: a reader of the SQL finds the filter again |
| `provider` | Columns, filter and partitions of a scan | every fragment is scanned once, partitions are even and never empty, the filter is made of the query's own filters |
| `sink`, `transfer` | What a write does about an existing dataset, and how rows are handed to the writer | success means that every row was written; a failed input fails the writer before its channel closes |
| `bridge` | How a batch crosses between two Arrow versions | a batch without columns keeps its number of rows |

Floating point numbers are bit patterns, worth a whole number of units of
2^-1074; `float` has their arithmetic.

`src/` is the verified library. `app/` is the code around it: the traits of the
engine, the reads and writes of datasets, and the conversions between the
engine's types and the library's. `tests/` runs the library, with DataFusion as
the judge of rewritten filters.

Literals behind casts are folded by DataFusion's own cast, but only where that
is known not to panic: `cast::castable` says where. What it leaves out need not
panic: some can, such as a dictionary whose keys are not integers, bytes of the
wrong length, or an instant so far off that a time zone takes it out of range;
others are not looked into, such as casts to structures or from one kind of list
to another. Such a cast is left alone, and so is the filter around it.

What is trusted rather than proved: that `ScalarValue::cast_to` is a function of
its arguments and does not panic on what is castable, what
`ScalarValue::try_new_null` gives for the types that have literals of their own,
and that it gives one and the same null for each of the others that has one,
`ScalarValue::data_type` and `DecimalType::is_valid_decimal_precision`, the
reading of `ScalarValue` and `DataType` variants, `DataType::primitive_width`,
that the standard library spells a fractional number with digits and one point
and alike each time, `String::push`, and the `Clone` implementations of the two
outside types.
