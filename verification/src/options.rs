//! Read and write options.

use vstd::prelude::*;

verus! {

/// The state of a dataset that a read goes back to.
#[derive(Debug, PartialEq)]
pub enum DatasetRef {
    /// A version number.
    Version(u64),
    /// A tag name.
    Tag(String),
}

/// A vector search.
#[derive(Debug, PartialEq)]
pub struct NearestOptions {
    /// The vector column.
    pub column: String,
    /// The query vector: the bits of single precision numbers.
    pub query: Vec<u32>,
    /// How many neighbours to find.
    pub k: usize,
    /// How many partitions of the vector index to search.
    pub nprobes: Option<usize>,
    /// How many times as many candidates to rank again by their true distance.
    pub refine_factor: Option<u32>,
    /// Whether the vector index is used.
    pub use_index: Option<bool>,
}

/// The options of a read; what is missing is left to the dataset's defaults.
#[derive(Debug, PartialEq)]
pub struct LanceReadOptions {
    /// The state to read; the latest where there is none.
    pub version: Option<DatasetRef>,
    /// How many rows a batch of the scan has.
    pub batch_size: Option<usize>,
    /// Whether the row ids are read too.
    pub with_row_id: bool,
    pub nearest: Option<NearestOptions>,
}

/// What a vector search is.
pub struct NearestView {
    pub column: Seq<char>,
    pub query: Seq<u32>,
    pub k: usize,
    pub nprobes: Option<usize>,
    pub refine_factor: Option<u32>,
    pub use_index: Option<bool>,
}

/// What a state of a dataset is.
pub enum DatasetRefView {
    Version(u64),
    Tag(Seq<char>),
}

/// What the options of a read are.
pub struct ReadOptionsView {
    pub version: Option<DatasetRefView>,
    pub batch_size: Option<usize>,
    pub with_row_id: bool,
    pub nearest: Option<NearestView>,
}

impl View for DatasetRef {
    type V = DatasetRefView;

    open spec fn view(&self) -> DatasetRefView {
        match self {
            DatasetRef::Version(version) => DatasetRefView::Version(*version),
            DatasetRef::Tag(tag) => DatasetRefView::Tag(tag@),
        }
    }
}

impl View for NearestOptions {
    type V = NearestView;

    open spec fn view(&self) -> NearestView {
        NearestView {
            column: self.column@,
            query: self.query@,
            k: self.k,
            nprobes: self.nprobes,
            refine_factor: self.refine_factor,
            use_index: self.use_index,
        }
    }
}

impl View for LanceReadOptions {
    type V = ReadOptionsView;

    open spec fn view(&self) -> ReadOptionsView {
        ReadOptionsView {
            version: match self.version {
                Some(version) => Some(version@),
                None => None,
            },
            batch_size: self.batch_size,
            with_row_id: self.with_row_id,
            nearest: match self.nearest {
                Some(nearest) => Some(nearest@),
                None => None,
            },
        }
    }
}

/// Whether two states of a dataset are the same.
pub open spec fn same_state(a: DatasetRef, b: DatasetRef) -> bool {
    match (a, b) {
        (DatasetRef::Version(a), DatasetRef::Version(b)) => a == b,
        (DatasetRef::Tag(a), DatasetRef::Tag(b)) => a@ == b@,
        _ => false,
    }
}

/// Whether two vector searches are the same in every part.
pub open spec fn same_search(a: NearestOptions, b: NearestOptions) -> bool {
    &&& a.column@ == b.column@
    &&& a.query@ == b.query@
    &&& a.k == b.k
    &&& a.nprobes == b.nprobes
    &&& a.refine_factor == b.refine_factor
    &&& a.use_index == b.use_index
}

/// Whether two options of a read are the same in every part.
pub open spec fn same_options(a: LanceReadOptions, b: LanceReadOptions) -> bool {
    &&& match (a.version, b.version) {
        (Some(a), Some(b)) => same_state(a, b),
        (None, None) => true,
        _ => false,
    }
    &&& a.batch_size == b.batch_size
    &&& a.with_row_id == b.with_row_id
    &&& match (a.nearest, b.nearest) {
        (Some(a), Some(b)) => same_search(a, b),
        (None, None) => true,
        _ => false,
    }
}

/// Options of a read that are the same to a reader are the same in every part:
/// no part is left out of what they are.
pub proof fn law_read_options_are_all_their_parts(a: LanceReadOptions, b: LanceReadOptions)
    ensures
        a@ == b@ <==> same_options(a, b),
{
}

impl Clone for DatasetRef {
    fn clone(&self) -> (copy: Self)
        ensures
            copy@ == self@,
            same_state(copy, *self),
    {
        match self {
            DatasetRef::Version(version) => DatasetRef::Version(*version),
            DatasetRef::Tag(tag) => DatasetRef::Tag(tag.clone()),
        }
    }
}

impl Clone for NearestOptions {
    fn clone(&self) -> (copy: Self)
        ensures
            copy@ == self@,
            same_search(copy, *self),
    {
        NearestOptions {
            column: self.column.clone(),
            query: self.query.clone(),
            k: self.k,
            nprobes: self.nprobes,
            refine_factor: self.refine_factor,
            use_index: self.use_index,
        }
    }
}

impl Clone for LanceReadOptions {
    fn clone(&self) -> (copy: Self)
        ensures
            copy@ == self@,
            same_options(copy, *self),
    {
        LanceReadOptions {
            version: match &self.version {
                Some(version) => Some(version.clone()),
                None => None,
            },
            batch_size: self.batch_size,
            with_row_id: self.with_row_id,
            nearest: match &self.nearest {
                Some(nearest) => Some(nearest.clone()),
                None => None,
            },
        }
    }
}

/// What a write does about a dataset that is already there.
#[derive(Debug, Clone, Copy, PartialEq, Eq)]
pub enum LanceWriteMode {
    Append,
    Overwrite,
    ErrorIfExists,
    IgnoreIfExists,
}

/// The options of a write; what is missing is left to the dataset's defaults.
#[derive(Debug, PartialEq)]
pub struct LanceWriteOptions {
    pub max_rows_per_file: Option<usize>,
    pub max_rows_per_group: Option<usize>,
    pub max_bytes_per_file: Option<usize>,
    pub file_format_version: Option<String>,
    /// Whether rows keep their ids when files are compacted.
    pub enable_stable_row_ids: Option<bool>,
}

} // verus!
