//! Writes.

use sail_lance::options::{LanceWriteMode, LanceWriteOptions};
use sail_lance::sink::{
    asks_for_dataset, dataset_exists, input_failed, resolve_write_mode, LanceDataSink, ModeError,
    Opened, WriteDefaults, WriteMode, WriteParams,
};
use sail_lance::transfer::{
    begin, stopped_early, Begun, Transfer, TransferAction, TransferEvent, WriteError,
};

type Outcome = Result<u64, WriteError<&'static str, &'static str, &'static str>>;

const DEFAULTS: WriteDefaults = WriteDefaults {
    max_rows_per_file: 1024,
    max_rows_per_group: 64,
    max_bytes_per_file: 4096,
    enable_stable_row_ids: false,
};

fn no_options() -> LanceWriteOptions {
    LanceWriteOptions {
        max_rows_per_file: None,
        max_rows_per_group: None,
        max_bytes_per_file: None,
        file_format_version: None,
        enable_stable_row_ids: None,
    }
}

fn sink(options: LanceWriteOptions) -> LanceDataSink<&'static str> {
    LanceDataSink::new("/data/t.lance".to_string(), LanceWriteMode::Append, options, "schema")
}

fn parse(version: &str) -> Result<u32, String> {
    match version {
        "2.1" => Ok(21),
        _ => Err("no such version".to_string()),
    }
}

#[test]
fn defaults_stand_in_for_options() {
    assert_eq!(
        sink(no_options()).write_params(WriteMode::Create, &DEFAULTS, &parse),
        Ok(WriteParams {
            mode: WriteMode::Create,
            max_rows_per_file: 1024,
            max_rows_per_group: 64,
            max_bytes_per_file: 4096,
            data_storage_version: None,
            enable_stable_row_ids: false,
        })
    );
}

#[test]
fn options_come_before_defaults() {
    let options = LanceWriteOptions {
        max_rows_per_file: Some(1),
        max_rows_per_group: Some(2),
        max_bytes_per_file: Some(3),
        file_format_version: Some("2.1".to_string()),
        enable_stable_row_ids: Some(true),
    };
    assert_eq!(
        sink(options).write_params(WriteMode::Overwrite, &DEFAULTS, &parse),
        Ok(WriteParams {
            mode: WriteMode::Overwrite,
            max_rows_per_file: 1,
            max_rows_per_group: 2,
            max_bytes_per_file: 3,
            data_storage_version: Some(21),
            enable_stable_row_ids: true,
        })
    );
}

#[test]
fn an_unknown_version_is_an_error() {
    let options = LanceWriteOptions {
        file_format_version: Some("9".to_string()),
        ..no_options()
    };
    assert_eq!(
        sink(options).write_params(WriteMode::Create, &DEFAULTS, &parse),
        Err("unsupported Lance file format version '9': no such version".to_string())
    );
}

#[test]
fn a_sink_describes_itself() {
    for mode in [
        LanceWriteMode::Append,
        LanceWriteMode::Overwrite,
        LanceWriteMode::ErrorIfExists,
        LanceWriteMode::IgnoreIfExists,
    ] {
        let sink = LanceDataSink::new("u".to_string(), mode, no_options(), 5);
        assert_eq!(sink.describe(), format!("LanceDataSink: uri=u, mode={mode:?}"));
        assert_eq!(*sink.schema(), 5);
    }
}

#[test]
fn write_modes_are_resolved() {
    let resolve = |mode, exists| resolve_write_mode::<&str>("/t", mode, exists);
    assert_eq!(
        resolve(LanceWriteMode::Overwrite, Ok(true)),
        Ok(Some(WriteMode::Overwrite))
    );
    assert_eq!(
        resolve(LanceWriteMode::Overwrite, Err("down")),
        Ok(Some(WriteMode::Overwrite))
    );
    assert_eq!(resolve(LanceWriteMode::Append, Ok(true)), Ok(Some(WriteMode::Append)));
    assert_eq!(resolve(LanceWriteMode::Append, Ok(false)), Ok(Some(WriteMode::Create)));
    assert_eq!(
        resolve(LanceWriteMode::ErrorIfExists, Ok(true)),
        Err(ModeError::Exists("Lance dataset already exists: /t".to_string()))
    );
    assert_eq!(
        resolve(LanceWriteMode::ErrorIfExists, Ok(false)),
        Ok(Some(WriteMode::Create))
    );
    assert_eq!(resolve(LanceWriteMode::IgnoreIfExists, Ok(true)), Ok(None));
    assert_eq!(
        resolve(LanceWriteMode::IgnoreIfExists, Ok(false)),
        Ok(Some(WriteMode::Create))
    );
    assert_eq!(
        resolve(LanceWriteMode::Append, Err("down")),
        Err(ModeError::Unknown("down"))
    );
    assert!(!asks_for_dataset(LanceWriteMode::Overwrite));
    assert!(asks_for_dataset(LanceWriteMode::Append));
    assert!(asks_for_dataset(LanceWriteMode::ErrorIfExists));
    assert!(asks_for_dataset(LanceWriteMode::IgnoreIfExists));
}

#[test]
fn a_dataset_exists_where_it_opens() {
    assert_eq!(dataset_exists::<&str>(Opened::Found), Ok(true));
    assert_eq!(dataset_exists::<&str>(Opened::NotFound), Ok(false));
    assert_eq!(dataset_exists(Opened::Failed("down")), Err("down"));
}

#[test]
fn a_skipped_write_touches_nothing() {
    assert!(matches!(begin::<&str>(None), Begun::Skipped { rows: 0 }));
}

fn started() -> Transfer<&'static str> {
    match begin(Some(WriteMode::Append)) {
        Begun::Started { mode: WriteMode::Append, transfer } => transfer,
        _ => unreachable!(),
    }
}

/// Carries out a write whose input gives `batches` and then ends, or fails,
/// and whose writer takes `capacity` messages.
fn write(
    batches: &[usize],
    failure: Option<&'static str>,
    capacity: usize,
    written: Result<Result<(), &'static str>, &'static str>,
) -> (Vec<TransferAction>, Outcome) {
    let mut transfer = started();
    let mut input = batches.iter();
    let mut taken = 0;
    let mut actions = vec![];
    let mut action = TransferAction::Pull;
    while action != TransferAction::Close {
        let event = match action {
            TransferAction::Pull => match (input.next(), failure) {
                (Some(rows), _) => TransferEvent::Batch { rows: *rows },
                (None, Some(error)) => TransferEvent::InputFailed(error),
                (None, None) => TransferEvent::EndOfInput,
            },
            _ => {
                taken += 1;
                if taken <= capacity {
                    TransferEvent::Sent
                } else {
                    TransferEvent::SendFailed
                }
            }
        };
        action = transfer.advance(event);
        actions.push(action);
    }
    (actions, transfer.finish(written))
}

#[test]
fn a_write_counts_its_rows() {
    let (actions, outcome) = write(&[3, 0, 4], None, 9, Ok(Ok(())));
    assert_eq!(outcome, Ok(7));
    let sent = actions.iter().filter(|action| **action == TransferAction::Send).count();
    assert_eq!(sent, 3);
    assert_eq!(write(&[], None, 9, Ok(Ok(()))).1, Ok(0));
}

#[test]
fn a_failed_input_fails_the_writer_before_the_channel_closes() {
    let (actions, outcome) = write(&[3], Some("bad input"), 9, Ok(Ok(())));
    assert_eq!(
        actions,
        [
            TransferAction::Send,
            TransferAction::Pull,
            TransferAction::FailWriter,
            TransferAction::Close,
        ]
    );
    assert_eq!(outcome, Err(WriteError::Input("bad input")));
    // Even where the writer has its own error, or is gone.
    let (_, outcome) = write(&[3], Some("bad input"), 1, Ok(Err("aborted")));
    assert_eq!(outcome, Err(WriteError::Input("bad input")));
}

#[test]
fn a_lost_writer_fails_the_write() {
    let (actions, outcome) = write(&[3, 4, 5], None, 1, Ok(Err("disk full")));
    assert_eq!(outcome, Err(WriteError::Writer("disk full")));
    assert_eq!(actions.last(), Some(&TransferAction::Close));
    let (_, outcome) = write(&[3, 4, 5], None, 1, Ok(Ok(())));
    assert_eq!(outcome, Err(WriteError::StoppedEarly));
    let (_, outcome) = write(&[3], None, 9, Err("panicked"));
    assert_eq!(outcome, Err(WriteError::Join("panicked")));
    let (_, outcome) = write(&[3], None, 9, Ok(Err("disk full")));
    assert_eq!(outcome, Err(WriteError::Writer("disk full")));
}

#[test]
fn complaints_have_their_wording() {
    assert_eq!(
        input_failed("connection reset"),
        "the input of the Lance write failed: connection reset"
    );
    assert_eq!(
        stopped_early("/t"),
        "the Lance writer for /t stopped before all rows were written"
    );
}
