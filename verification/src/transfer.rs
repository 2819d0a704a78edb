//! The hand-over of an input to a dataset writer, step by step.
//!
//! The writer runs on its own and takes batches from a channel. What is to be
//! done next, and what the whole write comes to, is decided here: the caller
//! carries out one action after another and says what came of it.

use crate::sink::WriteMode;
use vstd::prelude::*;
use vstd::string::*;

verus! {

/// What comes next in a hand-over.
#[derive(Debug, Clone, Copy, PartialEq, Eq)]
pub enum TransferState {
    /// The next batch of the input.
    Pulling,
    /// What came of handing a batch to the writer.
    Sending,
    /// What came of failing the writer.
    Failing,
    /// Nothing: the channel is closed, and the writer comes to its end.
    Closing,
}

/// What came of an action. `E` is what goes wrong with the input.
#[derive(Debug)]
pub enum TransferEvent<E> {
    /// The input gave a batch.
    Batch { rows: usize },
    /// The input has no more batches.
    EndOfInput,
    /// The input failed.
    InputFailed(E),
    /// The writer took what it was sent.
    Sent,
    /// The writer is gone.
    SendFailed,
}

/// What to do next.
#[derive(Debug, Clone, Copy, PartialEq, Eq)]
pub enum TransferAction {
    /// Ask the input for its next batch.
    Pull,
    /// Hand the batch to the writer.
    Send,
    /// Hand the writer an error, so that it aborts. To close the channel
    /// instead would look like the end of the input, and the writer would
    /// commit the rows it has received.
    FailWriter,
    /// Close the channel and wait for the writer.
    Close,
}

/// How far a hand-over has come.
#[derive(Debug)]
pub struct Transfer<E> {
    pub state: TransferState,
    /// The rows of the batches that the input has given.
    pub rows: u64,
    /// What went wrong with the input.
    pub input_error: Option<E>,
    /// Whether the writer was gone before the input ended.
    pub stopped_early: bool,
}

/// Why a write fails. `E` is what goes wrong with the input, `W` with the
/// writer, and `J` with waiting for the writer.
#[derive(Debug, PartialEq)]
pub enum WriteError<E, W, J> {
    Join(J),
    Input(E),
    Writer(W),
    /// The writer ended without an error before it had all rows.
    StoppedEarly,
}

/// A write that is about to begin.
#[derive(Debug)]
pub enum Begun<E> {
    /// There is nothing to do, and the input is not touched.
    Skipped { rows: u64 },
    Started { mode: WriteMode, transfer: Transfer<E> },
}

/// The hand-over before its first action, which is to pull.
pub open spec fn initial<E>() -> Transfer<E> {
    Transfer { state: TransferState::Pulling, rows: 0, input_error: None, stopped_early: false }
}

/// Begins a write whose mode has been resolved. A write without a mode leaves
/// the dataset untouched, consumes nothing and has written no rows.
pub fn begin<E>(mode: Option<WriteMode>) -> (begun: Begun<E>)
    ensures
        begun == match mode {
            Some(mode) => Begun::Started { mode, transfer: initial::<E>() },
            None => Begun::Skipped { rows: 0 },
        },
        begun matches Begun::Started { mode: started, transfer } ==> mode == Some(started)
            && transfer.state is Pulling && transfer.rows == 0 && transfer.input_error is None
            && !transfer.stopped_early,
        begun matches Begun::Skipped { rows } ==> mode is None && rows == 0,
{
    match mode {
        Some(mode) => Begun::Started {
            mode,
            transfer: Transfer {
                state: TransferState::Pulling,
                rows: 0,
                input_error: None,
                stopped_early: false,
            },
        },
        None => Begun::Skipped { rows: 0 },
    }
}

impl<E> Transfer<E> {
    /// Whether an event can come of the last action, and the rows can be
    /// counted.
    pub open spec fn expects(self, event: TransferEvent<E>) -> bool {
        match event {
            TransferEvent::Batch { rows } => self.state is Pulling && self.rows + rows <= u64::MAX,
            TransferEvent::EndOfInput => self.state is Pulling,
            TransferEvent::InputFailed(_) => self.state is Pulling,
            TransferEvent::Sent => self.state is Sending || self.state is Failing,
            TransferEvent::SendFailed => self.state is Sending || self.state is Failing,
        }
    }

    /// The hand-over after an event.
    pub open spec fn after(self, event: TransferEvent<E>) -> Transfer<E> {
        match event {
            TransferEvent::Batch { rows } => Transfer {
                state: TransferState::Sending,
                rows: (self.rows + rows) as u64,
                ..self
            },
            TransferEvent::EndOfInput => Transfer { state: TransferState::Closing, ..self },
            TransferEvent::InputFailed(error) => Transfer {
                state: TransferState::Failing,
                input_error: Some(error),
                ..self
            },
            TransferEvent::Sent => Transfer {
                state: if self.state is Sending {
                    TransferState::Pulling
                } else {
                    TransferState::Closing
                },
                ..self
            },
            TransferEvent::SendFailed => Transfer {
                state: TransferState::Closing,
                stopped_early: self.stopped_early || self.state is Sending,
                ..self
            },
        }
    }

    /// What is to be done once an event has come.
    pub open spec fn action(self, event: TransferEvent<E>) -> TransferAction {
        match self.after(event).state {
            TransferState::Pulling => TransferAction::Pull,
            TransferState::Sending => TransferAction::Send,
            TransferState::Failing => TransferAction::FailWriter,
            TransferState::Closing => TransferAction::Close,
        }
    }

    /// What the write comes to once the channel is closed and the writer has
    /// come to its end.
    pub open spec fn outcome<W, J>(
        self,
        written: Result<Result<(), W>, J>,
    ) -> Result<u64, WriteError<E, W, J>> {
        match (written, self.input_error) {
            (Err(error), _) => Err(WriteError::Join(error)),
            (Ok(_), Some(error)) => Err(WriteError::Input(error)),
            (Ok(Err(error)), None) => Err(WriteError::Writer(error)),
            (Ok(Ok(())), None) => if self.stopped_early {
                Err(WriteError::StoppedEarly)
            } else {
                Ok(self.rows)
            },
        }
    }

    /// Takes what came of the last action and says what to do next.
    pub fn advance(&mut self, event: TransferEvent<E>) -> (action: TransferAction)
        requires
            old(self).expects(event),
        ensures
            *final(self) == old(self).after(event),
            action == old(self).action(event),
    {
        match event {
            TransferEvent::Batch { rows } => {
                self.rows = self.rows + rows as u64;
                self.state = TransferState::Sending;
                TransferAction::Send
            },
            TransferEvent::EndOfInput => {
                self.state = TransferState::Closing;
                TransferAction::Close
            },
            TransferEvent::InputFailed(error) => {
                self.input_error = Some(error);
                self.state = TransferState::Failing;
                TransferAction::FailWriter
            },
            TransferEvent::Sent => match self.state {
                TransferState::Sending => {
                    self.state = TransferState::Pulling;
                    TransferAction::Pull
                },
                _ => {
                    self.state = TransferState::Closing;
                    TransferAction::Close
                },
            },
            TransferEvent::SendFailed => {
                if let TransferState::Sending = self.state {
                    self.stopped_early = true;
                }
                self.state = TransferState::Closing;
                TransferAction::Close
            },
        }
    }

    /// What the write comes to, given what came of waiting for the writer: the
    /// rows written, or the error that tells most.
    pub fn finish<W, J>(
        self,
        written: Result<Result<(), W>, J>,
    ) -> (rows: Result<u64, WriteError<E, W, J>>)
        requires
            self.state is Closing,
        ensures
            rows == self.outcome(written),
    {
        match written {
            Err(error) => Err(WriteError::Join(error)),
            Ok(written) => {
                if let Some(error) = self.input_error {
                    return Err(WriteError::Input(error));
                }
                if let Err(error) = written {
                    return Err(WriteError::Writer(error));
                }
                if self.stopped_early {
                    return Err(WriteError::StoppedEarly);
                }
                Ok(self.rows)
            },
        }
    }
}

/// The complaint about a writer that ended too soon.
pub fn stopped_early(uri: &str) -> (message: String)
    ensures
        message@ == "the Lance writer for "@ + uri@
            + " stopped before all rows were written"@,
{
    let mut message = "the Lance writer for ".to_owned();
    message.append(uri);
    message.append(" stopped before all rows were written");
    message
}

/// The hand-over after a list of events; `None` where one of them cannot come
/// when it does.
pub open spec fn run<E>(events: Seq<TransferEvent<E>>) -> Option<Transfer<E>>
    decreases events.len(),
{
    if events.len() == 0 {
        Some(initial())
    } else {
        match run(events.drop_last()) {
            Some(transfer) if transfer.expects(events.last()) => Some(
                transfer.after(events.last()),
            ),
            _ => None,
        }
    }
}

/// The rows of all batches among a list of events.
pub open spec fn total_rows<E>(events: Seq<TransferEvent<E>>) -> int
    decreases events.len(),
{
    if events.len() == 0 {
        0
    } else {
        total_rows(events.drop_last()) + match events.last() {
            TransferEvent::Batch { rows } => rows as int,
            _ => 0,
        }
    }
}

/// What is done about each of a list of events.
pub open spec fn actions<E>(events: Seq<TransferEvent<E>>) -> Seq<TransferAction>
    decreases events.len(),
{
    if events.len() == 0 {
        Seq::empty()
    } else {
        actions(events.drop_last()).push(run(events.drop_last())->0.action(events.last()))
    }
}

/// What holds of a hand-over at every step.
proof fn lemma_run<E>(events: Seq<TransferEvent<E>>)
    requires
        run(events) is Some,
    ensures
        ({
            let transfer = run(events)->0;
            &&& transfer.rows == total_rows(events)
            &&& actions(events).len() == events.len()
            &&& forall|i: int|
                0 <= i < events.len() && (#[trigger] events[i]) is InputFailed
                    ==> transfer.input_error == Some(events[i]->InputFailed_0)
            &&& transfer.input_error is Some ==> exists|i: int|
                0 <= i < events.len() && (#[trigger] events[i]) is InputFailed
            &&& transfer.input_error is Some ==> transfer.state is Failing
                || transfer.state is Closing
            &&& transfer.state is Failing ==> transfer.input_error is Some
            &&& transfer.stopped_early ==> transfer.state is Closing
            &&& transfer.stopped_early ==> exists|i: int|
                0 <= i < events.len() && (#[trigger] events[i]) is SendFailed
            &&& !(transfer.state is Closing) ==> forall|i: int|
                0 <= i < events.len() ==> !((#[trigger] actions(events)[i]) is Close)
            &&& !(transfer.state is Closing) ==> forall|i: int|
                0 <= i < events.len() ==> !((#[trigger] events[i]) is SendFailed)
            &&& transfer.state is Closing ==> events.len() > 0 && (events.last() is EndOfInput
                || transfer.input_error is Some || transfer.stopped_early)
            &&& transfer.state is Closing && transfer.input_error is None
                && !transfer.stopped_early ==> forall|i: int|
                0 <= i < events.len() ==> !((#[trigger] events[i]) is SendFailed)
        }),
    decreases events.len(),
{
    if events.len() > 0 {
        let front = events.drop_last();
        lemma_run(front);
        let before = run(front)->0;
        let last = events.last();
        assert(events == front.push(last));
        assert(forall|i: int| 0 <= i < front.len() ==> events[i] == #[trigger] front[i]);
        assert(events[events.len() - 1] == last);
        assert(forall|i: int|
            0 <= i < front.len() ==> actions(events)[i] == #[trigger] actions(front)[i]);
        let after = run(events)->0;
        if after.input_error is Some && before.input_error is Some {
            let i = choose|i: int| 0 <= i < front.len() && (#[trigger] front[i]) is InputFailed;
            assert(events[i] is InputFailed);
        }
        if after.stopped_early && before.stopped_early {
            let i = choose|i: int| 0 <= i < front.len() && (#[trigger] front[i]) is SendFailed;
            assert(events[i] is SendFailed);
        }
    }
}

/// A write that succeeds has written every row that the input gave: the input
/// came to its end, nothing went wrong with it, and the writer took every
/// batch.
pub proof fn law_success_writes_every_row<E, W, J>(
    events: Seq<TransferEvent<E>>,
    written: Result<Result<(), W>, J>,
)
    requires
        run(events) is Some,
        run(events)->0.state is Closing,
        run(events)->0.outcome(written) is Ok,
    ensures
        run(events)->0.outcome(written)->Ok_0 == total_rows(events),
        events.len() > 0 && events.last() is EndOfInput,
        forall|i: int| 0 <= i < events.len() ==> !((#[trigger] events[i]) is InputFailed),
        forall|i: int| 0 <= i < events.len() ==> !((#[trigger] events[i]) is SendFailed),
        written matches Ok(Ok(())),
{
    lemma_run(events);
}

/// A write whose input fails never succeeds, and the input's own error comes
/// out, unless the writer could not even be waited for.
pub proof fn law_failed_input_fails_the_write<E, W, J>(
    events: Seq<TransferEvent<E>>,
    at: int,
    written: Result<Result<(), W>, J>,
)
    requires
        run(events) is Some,
        run(events)->0.state is Closing,
        0 <= at < events.len(),
        events[at] is InputFailed,
    ensures
        run(events)->0.outcome(written) == match written {
            Ok(_) => Err::<u64, WriteError<E, W, J>>(
                WriteError::Input(events[at]->InputFailed_0),
            ),
            Err(error) => Err(WriteError::Join(error)),
        },
{
    lemma_run(events);
}

/// Where the input fails, the writer is failed before its channel is closed,
/// so it never takes the failure for the end of the input.
pub proof fn law_writer_is_failed_before_close<E>(events: Seq<TransferEvent<E>>, at: int)
    requires
        run(events) is Some,
        0 <= at < events.len(),
        events[at] is InputFailed,
    ensures
        actions(events).len() == events.len(),
        actions(events)[at] is FailWriter,
        forall|i: int| 0 <= i <= at ==> !((#[trigger] actions(events)[i]) is Close),
    decreases events.len(),
{
    lemma_run(events);
    let front = events.drop_last();
    lemma_run(front);
    assert(forall|i: int|
        0 <= i < front.len() ==> actions(events)[i] == #[trigger] actions(front)[i]);
    if at < front.len() {
        assert(front[at] == events[at]);
        law_writer_is_failed_before_close(front, at);
    }
}

/// Every batch that the input gives is handed to the writer, in the order of
/// the input, and nothing else is.
pub proof fn law_every_batch_is_handed_over<E>(events: Seq<TransferEvent<E>>, at: int)
    requires
        run(events) is Some,
        0 <= at < events.len(),
    ensures
        actions(events).len() == events.len(),
        actions(events)[at] is Send <==> events[at] is Batch,
    decreases events.len(),
{
    lemma_run(events);
    let front = events.drop_last();
    lemma_run(front);
    assert(forall|i: int|
        0 <= i < front.len() ==> actions(events)[i] == #[trigger] actions(front)[i]);
    if at < front.len() {
        assert(front[at] == events[at]);
        law_every_batch_is_handed_over(front, at);
    }
}

/// A writer that is gone before it has every batch fails the write: either
/// with its own error, or because it ended too soon.
pub proof fn law_lost_writer_fails_the_write<E, W, J>(
    events: Seq<TransferEvent<E>>,
    at: int,
    written: Result<Result<(), W>, J>,
)
    requires
        run(events) is Some,
        run(events)->0.state is Closing,
        0 <= at < events.len(),
        events[at] is SendFailed,
    ensures
        run(events)->0.outcome(written) is Err,
{
    lemma_run(events);
}

/// What each event leads to: a batch is sent, the end of the input closes the
/// channel, a failed input fails the writer, a writer that is gone closes the
/// channel, and where the writer took what it was sent, the next batch is pulled
/// if it was a batch, and the channel is closed if it was a failure.
pub proof fn law_what_each_event_leads_to<E>(events: Seq<TransferEvent<E>>, at: int)
    requires
        run(events) is Some,
        0 <= at < events.len(),
    ensures
        actions(events).len() == events.len(),
        match events[at] {
            TransferEvent::Batch { .. } => actions(events)[at] == TransferAction::Send,
            TransferEvent::EndOfInput => actions(events)[at] == TransferAction::Close,
            TransferEvent::InputFailed(_) => actions(events)[at] == TransferAction::FailWriter,
            TransferEvent::SendFailed => actions(events)[at] == TransferAction::Close,
            TransferEvent::Sent => {
                &&& at > 0
                &&& events[at - 1] is Batch ==> actions(events)[at] == TransferAction::Pull
                &&& events[at - 1] is InputFailed ==> actions(events)[at] == TransferAction::Close
                &&& events[at - 1] is Batch || events[at - 1] is InputFailed
            },
        },
    decreases events.len(),
{
    lemma_run(events);
    let front = events.drop_last();
    lemma_run(front);
    assert(forall|i: int|
        0 <= i < front.len() ==> actions(events)[i] == #[trigger] actions(front)[i]);
    assert(forall|i: int| 0 <= i < front.len() ==> events[i] == #[trigger] front[i]);
    if at < front.len() {
        law_what_each_event_leads_to(front, at);
        assert(at > 0 ==> events[at - 1] == front[at - 1]);
    } else if front.len() > 0 {
        lemma_last_state(front);
        assert(events[at - 1] == front.last());
    }
}

/// The state that the last event leaves behind.
proof fn lemma_last_state<E>(events: Seq<TransferEvent<E>>)
    requires
        run(events) is Some,
        events.len() > 0,
    ensures
        run(events)->0.state is Sending <==> events.last() is Batch,
        run(events)->0.state is Failing <==> events.last() is InputFailed,
        run(events)->0.state is Pulling ==> events.last() is Sent,
{
}

/// What may come next: at the beginning and after a pull, a batch whose rows can
/// be counted, the end of the input or its failure, and nothing else; after a
/// batch or a failure went to the writer, that it was taken or that the writer
/// is gone, and nothing else; and nothing once the channel is to be closed.
pub proof fn law_what_may_come_next<E>(events: Seq<TransferEvent<E>>, next: TransferEvent<E>)
    requires
        run(events) is Some,
    ensures
        run(events.push(next)) is Some <==> {
            let pulls = events.len() == 0 || actions(events).last() is Pull;
            let sends = events.len() > 0 && (actions(events).last() is Send || actions(
                events,
            ).last() is FailWriter);
            match next {
                TransferEvent::Batch { rows } => pulls && total_rows(events) + rows <= u64::MAX,
                TransferEvent::EndOfInput | TransferEvent::InputFailed(_) => pulls,
                TransferEvent::Sent | TransferEvent::SendFailed => sends,
            }
        },
{
    lemma_run(events);
    assert(events.push(next).drop_last() == events);
}

/// Where nothing goes wrong, the write succeeds with the rows of every batch:
/// the input came to its end, no event was a failure, and the writer ended
/// well.
pub proof fn law_write_succeeds<E, W, J>(events: Seq<TransferEvent<E>>)
    requires
        run(events) is Some,
        events.len() > 0,
        events.last() is EndOfInput,
    ensures
        run(events)->0.state is Closing,
        run(events)->0.outcome::<W, J>(Ok(Ok(()))) matches Ok(rows) && rows == total_rows(events),
{
    lemma_run(events);
    let front = events.drop_last();
    lemma_run(front);
}

/// The error that tells most comes out: that the writer could not be waited for
/// before any other; without a failed input, the writer's own error before that
/// it ended too soon; and that it ended too soon where it was gone before it had
/// every batch and reported no error.
pub proof fn law_which_error_comes_out<E, W, J>(
    events: Seq<TransferEvent<E>>,
    join: J,
    writer: W,
    at: int,
)
    requires
        run(events) is Some,
        run(events)->0.state is Closing,
        forall|i: int| 0 <= i < events.len() ==> !((#[trigger] events[i]) is InputFailed),
    ensures
        run(events)->0.outcome::<W, J>(Err(join)) == Err::<u64, WriteError<E, W, J>>(
            WriteError::Join(join),
        ),
        run(events)->0.outcome::<W, J>(Ok(Err(writer))) == Err::<u64, WriteError<E, W, J>>(
            WriteError::Writer(writer),
        ),
        0 <= at < events.len() && events[at] is SendFailed ==> run(events)->0.outcome::<W, J>(
            Ok(Ok(())),
        ) == Err::<u64, WriteError<E, W, J>>(WriteError::StoppedEarly),
{
    lemma_run(events);
}

} // verus!
