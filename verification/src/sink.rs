//! The write into a dataset.
//!
//! A write is one transaction: the rows of the input go to the writer batch by
//! batch, and the writer commits them when the input ends. Where the input
//! fails, the writer is failed too, so that it commits nothing.

use crate::options::{LanceWriteMode, LanceWriteOptions};
use vstd::prelude::*;
use vstd::string::*;

verus! {

/// How the dataset writer treats what is already there.
#[derive(Debug, Clone, Copy, PartialEq, Eq)]
pub enum WriteMode {
    Create,
    Append,
    Overwrite,
}

/// The parameters of the dataset writer that the options of a write decide.
/// `V` is a file format version.
#[derive(Debug, PartialEq)]
pub struct WriteParams<V> {
    pub mode: WriteMode,
    pub max_rows_per_file: usize,
    pub max_rows_per_group: usize,
    pub max_bytes_per_file: usize,
    pub data_storage_version: Option<V>,
    pub enable_stable_row_ids: bool,
}

/// The dataset writer's own defaults for what the options leave open.
#[derive(Debug, Clone, Copy, PartialEq, Eq)]
pub struct WriteDefaults {
    pub max_rows_per_file: usize,
    pub max_rows_per_group: usize,
    pub max_bytes_per_file: usize,
    pub enable_stable_row_ids: bool,
}

/// Writes a stream of batches into a dataset in one transaction. `S` is the
/// schema of the stream.
#[derive(Debug)]
pub struct LanceDataSink<S> {
    pub uri: String,
    pub mode: LanceWriteMode,
    pub options: LanceWriteOptions,
    pub schema: S,
}

/// What an option is, or what stands in for it where it is not set.
pub open spec fn option_or<T>(option: Option<T>, default: T) -> T {
    match option {
        Some(value) => value,
        None => default,
    }
}

/// The name of a write mode.
pub open spec fn mode_name(mode: LanceWriteMode) -> Seq<char> {
    match mode {
        LanceWriteMode::Append => "Append"@,
        LanceWriteMode::Overwrite => "Overwrite"@,
        LanceWriteMode::ErrorIfExists => "ErrorIfExists"@,
        LanceWriteMode::IgnoreIfExists => "IgnoreIfExists"@,
    }
}

/// The complaint about a file format version.
pub open spec fn bad_version(version: Seq<char>, reason: Seq<char>) -> Seq<char> {
    "unsupported Lance file format version '"@ + version + "': "@ + reason
}

/// What the parameters of a write are, given what the version parser made of
/// the version, if there is one: its complaint, or parameters in which every
/// option that is set has its value and every other its default.
pub open spec fn settled_params<V>(
    options: LanceWriteOptions,
    mode: WriteMode,
    defaults: WriteDefaults,
    parsed: Option<Result<V, Seq<char>>>,
) -> Result<WriteParams<V>, Seq<char>> {
    match parsed {
        Some(Err(reason)) => Err(bad_version(options.file_format_version->0@, reason)),
        _ => Ok(
            WriteParams {
                mode,
                max_rows_per_file: option_or(options.max_rows_per_file, defaults.max_rows_per_file),
                max_rows_per_group: option_or(
                    options.max_rows_per_group,
                    defaults.max_rows_per_group,
                ),
                max_bytes_per_file: option_or(
                    options.max_bytes_per_file,
                    defaults.max_bytes_per_file,
                ),
                data_storage_version: match parsed {
                    Some(Ok(version)) => Some(version),
                    _ => None,
                },
                enable_stable_row_ids: option_or(
                    options.enable_stable_row_ids,
                    defaults.enable_stable_row_ids,
                ),
            },
        ),
    }
}

/// The value of a result, or the characters of its complaint.
pub open spec fn result_view<T>(result: Result<T, String>) -> Result<T, Seq<char>> {
    match result {
        Ok(value) => Ok(value),
        Err(message) => Err(message@),
    }
}

/// Whether `parsed` may be what the version parser makes of a version.
pub open spec fn may_parse<V, P: Fn(&str) -> Result<V, String>>(
    parse: P,
    version: Option<String>,
    parsed: Option<Result<V, Seq<char>>>,
) -> bool {
    match version {
        Some(version) => exists|text: &str, result: Result<V, String>|
            text@ == version@ && #[trigger] call_ensures(parse, (text,), result) && parsed == Some(
                result_view(result),
            ),
        None => parsed is None,
    }
}

/// Whether the version parser may give a result for the text of a version.
pub open spec fn may_read<V, P: Fn(&str) -> Result<V, String>>(
    parse: P,
    version: Seq<char>,
    result: Result<V, Seq<char>>,
) -> bool {
    exists|text: &str, given: Result<V, String>|
        text@ == version && #[trigger] call_ensures(parse, (text,), given) && match (
            given,
            result,
        ) {
            (Ok(a), Ok(b)) => a == b,
            (Err(a), Err(b)) => a@ == b,
            _ => false,
        }
}

/// Whether parameters have the mode that they are for, and of every option that
/// needs no parser its value where it is set, and the default where it is not.
pub open spec fn has_options<V>(
    params: WriteParams<V>,
    options: LanceWriteOptions,
    mode: WriteMode,
    defaults: WriteDefaults,
) -> bool {
    &&& params.mode == mode
    &&& match options.max_rows_per_file {
        Some(rows) => params.max_rows_per_file == rows,
        None => params.max_rows_per_file == defaults.max_rows_per_file,
    }
    &&& match options.max_rows_per_group {
        Some(rows) => params.max_rows_per_group == rows,
        None => params.max_rows_per_group == defaults.max_rows_per_group,
    }
    &&& match options.max_bytes_per_file {
        Some(bytes) => params.max_bytes_per_file == bytes,
        None => params.max_bytes_per_file == defaults.max_bytes_per_file,
    }
    &&& match options.enable_stable_row_ids {
        Some(enable) => params.enable_stable_row_ids == enable,
        None => params.enable_stable_row_ids == defaults.enable_stable_row_ids,
    }
}

/// In every write mode, a version that the parser accepts is the version of the
/// parameters, and each other option that is set has its value in them, whatever
/// the mode and the other options are; a version that the parser refuses fails
/// the write, with the version and the parser's reason, and nothing else does.
pub proof fn law_options_reach_the_writer<V>(
    options: LanceWriteOptions,
    mode: WriteMode,
    defaults: WriteDefaults,
    parsed: Option<Result<V, Seq<char>>>,
)
    ensures
        match (settled_params(options, mode, defaults, parsed), parsed) {
            (Ok(params), Some(Ok(version))) => {
                &&& params.data_storage_version == Some(version)
                &&& has_options(params, options, mode, defaults)
            },
            (Ok(params), None) => {
                &&& params.data_storage_version is None
                &&& has_options(params, options, mode, defaults)
            },
            (Err(message), Some(Err(reason))) => message
                == "unsupported Lance file format version '"@ + options.file_format_version->0@
                + "': "@ + reason,
            _ => false,
        },
{
}

/// What the version parser is asked is the version of the options, and it is
/// asked exactly where there is one.
pub proof fn law_the_version_is_parsed<V, P: Fn(&str) -> Result<V, String>>(
    parse: P,
    version: Option<String>,
    parsed: Option<Result<V, Seq<char>>>,
)
    requires
        may_parse(parse, version, parsed),
    ensures
        match (version, parsed) {
            (Some(version), Some(result)) => may_read(parse, version@, result),
            (None, None) => true,
            _ => false,
        },
{
    if let Some(version) = version {
        let (text, result): (&str, Result<V, String>) = choose|
            text: &str,
            result: Result<V, String>,
        |
            text@ == version@ && #[trigger] call_ensures(parse, (text,), result) && parsed == Some(
                result_view(result),
            );
        assert(call_ensures(parse, (text,), result));
    }
}

/// The parameters of two writes with the same options and the same version
/// differ in their mode and in nothing else.
pub proof fn law_the_mode_changes_nothing_else<V>(
    options: LanceWriteOptions,
    a: WriteMode,
    b: WriteMode,
    defaults: WriteDefaults,
    parsed: Option<Result<V, Seq<char>>>,
)
    ensures
        match (
            settled_params(options, a, defaults, parsed),
            settled_params(options, b, defaults, parsed),
        ) {
            (Ok(p), Ok(q)) => p.mode == a && p == (WriteParams { mode: a, ..q }),
            (Err(p), Err(q)) => p == q,
            _ => false,
        },
{
}

fn value_or(option: Option<usize>, default: usize) -> (value: usize)
    ensures
        value == option_or(option, default),
{
    match option {
        Some(value) => value,
        None => default,
    }
}

impl<S> LanceDataSink<S> {
    pub fn new(
        uri: String,
        mode: LanceWriteMode,
        options: LanceWriteOptions,
        schema: S,
    ) -> (sink: Self)
        ensures
            sink == (LanceDataSink { uri, mode, options, schema }),
    {
        LanceDataSink { uri, mode, options, schema }
    }

    /// The schema of the stream.
    pub fn schema(&self) -> (schema: &S)
        ensures
            *schema == self.schema,
    {
        &self.schema
    }

    /// The parameters of the write. `parse` reads a file format version; it is
    /// called only where the options name one.
    pub fn write_params<V, P: Fn(&str) -> Result<V, String>>(
        &self,
        mode: WriteMode,
        defaults: &WriteDefaults,
        parse: &P,
    ) -> (params: Result<WriteParams<V>, String>)
        requires
            forall|text: &str| #[trigger] call_requires(*parse, (text,)),
        ensures
            exists|parsed: Option<Result<V, Seq<char>>>| #[trigger]
                may_parse(*parse, self.options.file_format_version, parsed) && result_view(params)
                    == settled_params(self.options, mode, *defaults, parsed),
            params matches Ok(p) ==> has_options(p, self.options, mode, *defaults),
            match (params, self.options.file_format_version) {
                (Ok(p), None) => p.data_storage_version is None,
                (Ok(p), Some(version)) => p.data_storage_version matches Some(v) && may_read(
                    *parse,
                    version@,
                    Ok::<V, Seq<char>>(v),
                ),
                (Err(_), None) => false,
                (Err(message), Some(version)) => exists|reason: Seq<char>| #[trigger]
                    may_read(*parse, version@, Err::<V, Seq<char>>(reason)) && message@
                        == "unsupported Lance file format version '"@ + version@ + "': "@ + reason,
            },
    {
        let mut data_storage_version: Option<V> = None;
        let ghost mut parsed: Option<Result<V, Seq<char>>> = None;
        if let Some(version) = &self.options.file_format_version {
            let result = parse(version.as_str());
            proof {
                parsed = Some(result_view(result));
            }
            assert(may_parse(*parse, self.options.file_format_version, parsed));
            match result {
                Ok(version) => {
                    assert(may_read(
                        *parse,
                        self.options.file_format_version->0@,
                        Ok::<V, Seq<char>>(version),
                    ));
                    data_storage_version = Some(version);
                },
                Err(reason) => {
                    assert(may_read(
                        *parse,
                        self.options.file_format_version->0@,
                        Err::<V, Seq<char>>(reason@),
                    ));
                    let mut message = "unsupported Lance file format version '".to_owned();
                    message.append(version.as_str());
                    message.append("': ");
                    message.append(reason.as_str());
                    return Err(message);
                },
            }
        }
        assert(may_parse(*parse, self.options.file_format_version, parsed));
        Ok(
            WriteParams {
                mode,
                max_rows_per_file: value_or(
                    self.options.max_rows_per_file,
                    defaults.max_rows_per_file,
                ),
                max_rows_per_group: value_or(
                    self.options.max_rows_per_group,
                    defaults.max_rows_per_group,
                ),
                max_bytes_per_file: value_or(
                    self.options.max_bytes_per_file,
                    defaults.max_bytes_per_file,
                ),
                data_storage_version,
                enable_stable_row_ids: match self.options.enable_stable_row_ids {
                    Some(enable) => enable,
                    None => defaults.enable_stable_row_ids,
                },
            },
        )
    }

    /// One line about this sink.
    pub fn describe(&self) -> (line: String)
        ensures
            line@ == "LanceDataSink: uri="@ + self.uri@ + ", mode="@ + mode_name(self.mode),
            match self.mode {
                LanceWriteMode::Append => mode_name(self.mode) == "Append"@,
                LanceWriteMode::Overwrite => mode_name(self.mode) == "Overwrite"@,
                LanceWriteMode::ErrorIfExists => mode_name(self.mode) == "ErrorIfExists"@,
                LanceWriteMode::IgnoreIfExists => mode_name(self.mode) == "IgnoreIfExists"@,
            },
    {
        let mut line = "LanceDataSink: uri=".to_owned();
        line.append(self.uri.as_str());
        line.append(", mode=");
        line.append(
            match self.mode {
                LanceWriteMode::Append => "Append",
                LanceWriteMode::Overwrite => "Overwrite",
                LanceWriteMode::ErrorIfExists => "ErrorIfExists",
                LanceWriteMode::IgnoreIfExists => "IgnoreIfExists",
            },
        );
        line
    }
}

/// What came of opening a dataset. `E` is what went wrong.
#[derive(Debug)]
pub enum Opened<E> {
    Found,
    NotFound,
    Failed(E),
}

/// Whether a dataset exists, given what came of opening it.
pub fn dataset_exists<E>(opened: Opened<E>) -> (exists: Result<bool, E>)
    ensures
        exists == match opened {
            Opened::Found => Ok::<bool, E>(true),
            Opened::NotFound => Ok(false),
            Opened::Failed(error) => Err(error),
        },
{
    match opened {
        Opened::Found => Ok(true),
        Opened::NotFound => Ok(false),
        Opened::Failed(error) => Err(error),
    }
}

/// Whether a write mode depends on whether the dataset exists.
pub open spec fn depends_on_dataset(mode: LanceWriteMode) -> bool {
    !(mode is Overwrite)
}

/// Whether a write has to find out whether its dataset exists.
pub fn asks_for_dataset(mode: LanceWriteMode) -> (asks: bool)
    ensures
        asks == depends_on_dataset(mode),
        asks <==> mode != LanceWriteMode::Overwrite,
{
    match mode {
        LanceWriteMode::Overwrite => false,
        _ => true,
    }
}

/// What stands in the way of a write. `E` is what goes wrong outside.
#[derive(Debug, PartialEq)]
pub enum ModeError<E> {
    /// The dataset must not exist, and it does.
    Exists(String),
    /// Whether the dataset exists could not be found out.
    Unknown(E),
}

/// The complaint about a dataset that must not exist.
pub open spec fn already_exists(uri: Seq<char>) -> Seq<char> {
    "Lance dataset already exists: "@ + uri
}

/// Resolves a write mode against the dataset that is already there: `None`
/// where the write must be skipped entirely. Whether the dataset exists is
/// looked at only where the mode depends on it.
pub fn resolve_write_mode<E>(
    uri: &str,
    mode: LanceWriteMode,
    exists: Result<bool, E>,
) -> (resolved: Result<Option<WriteMode>, ModeError<E>>)
    ensures
        match (mode, exists) {
            (LanceWriteMode::Overwrite, _) => resolved == Ok::<Option<WriteMode>, ModeError<E>>(
                Some(WriteMode::Overwrite),
            ),
            (_, Err(error)) => resolved == Err::<Option<WriteMode>, ModeError<E>>(
                ModeError::Unknown(error),
            ),
            (_, Ok(false)) => resolved == Ok::<Option<WriteMode>, ModeError<E>>(
                Some(WriteMode::Create),
            ),
            (LanceWriteMode::Append, Ok(true)) => resolved == Ok::<
                Option<WriteMode>,
                ModeError<E>,
            >(Some(WriteMode::Append)),
            (LanceWriteMode::ErrorIfExists, Ok(true)) => resolved matches Err(
                ModeError::Exists(message),
            ) && message@ == already_exists(uri@) && message@ == "Lance dataset already exists: "@
                + uri@,
            (LanceWriteMode::IgnoreIfExists, Ok(true)) => resolved == Ok::<
                Option<WriteMode>,
                ModeError<E>,
            >(None),
        },
        // A dataset is created only where there is none, and replaced only
        // where that is what was asked for.
        resolved == Ok::<Option<WriteMode>, ModeError<E>>(Some(WriteMode::Create)) ==> exists
            == Ok::<bool, E>(false),
        resolved == Ok::<Option<WriteMode>, ModeError<E>>(Some(WriteMode::Append)) ==> exists
            == Ok::<bool, E>(true),
        resolved == Ok::<Option<WriteMode>, ModeError<E>>(Some(WriteMode::Overwrite)) ==> mode
            == LanceWriteMode::Overwrite,
{
    if let LanceWriteMode::Overwrite = mode {
        return Ok(Some(WriteMode::Overwrite));
    }
    match exists {
        Err(error) => Err(ModeError::Unknown(error)),
        Ok(false) => Ok(Some(WriteMode::Create)),
        Ok(true) => match mode {
            LanceWriteMode::Overwrite => Ok(Some(WriteMode::Overwrite)),
            LanceWriteMode::Append => Ok(Some(WriteMode::Append)),
            LanceWriteMode::ErrorIfExists => {
                let mut message = "Lance dataset already exists: ".to_owned();
                message.append(uri);
                Err(ModeError::Exists(message))
            },
            LanceWriteMode::IgnoreIfExists => Ok(None),
        },
    }
}

/// What the writer is told about an input that failed.
pub fn input_failed(error: &str) -> (message: String)
    ensures
        message@ == "the input of the Lance write failed: "@ + error@,
{
    let mut message = "the input of the Lance write failed: ".to_owned();
    message.append(error);
    message
}

} // verus!
