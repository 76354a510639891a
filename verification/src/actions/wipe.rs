//! The wipe engine: one scheme, driven over one device.
//!
//! A run asks for the operator's consent, then takes the stages of the scheme
//! in order. Each stage is written from the first byte of the device to the
//! last, block by block, and read back where the verification level asks for
//! it. The first failure ends the run, and so does the operator, who is asked
//! before every block whether the run is to stop.
//!
//! What a run asks of the device and what it tells the session are both kept
//! as histories, and the contracts here say exactly what the two histories
//! hold when a run ends, for each way in which it can end.

use crate::sanitization::stage::block_count;
use crate::sanitization::stage::block_length;
use crate::sanitization::stage::block_start;
use crate::sanitization::stage::filled_buffer;
use crate::sanitization::stage::lemma_block_count;
use crate::sanitization::stage::lemma_block_length;
use crate::sanitization::stage::stage_block;
use crate::sanitization::Scheme;
use crate::sanitization::Stage;
use crate::storage::StorageAccess;
use crate::storage::StorageCall;
use crate::storage::StorageError;
use crate::storage::TracedAccess;
use vstd::prelude::*;
use vstd::slice::slice_subrange;

verus! {

/// Which stages are read back after they were written.
#[derive(Debug, Clone, Copy, PartialEq, Eq, Structural)]
pub enum Verify {
    /// None.
    No,
    /// The last one.
    Last,
    /// Every one.
    All,
}

/// What one run is to do. It does not change while the run lasts.
#[derive(Debug, Clone)]
pub struct WipeTask {
    pub scheme: Scheme,
    pub verification: Verify,
    pub total_size: u64,
    pub block_size: usize,
}

/// How far a run has come.
#[derive(Debug, Clone, Copy, PartialEq, Eq, Structural)]
pub struct WipeState {
    /// The stage that is being worked on; the number of stages once all are done.
    pub stage: usize,
    /// Whether that stage is being read back, rather than written.
    pub verifying: bool,
    /// The number of blocks finished in the present pass.
    pub block: u64,
    /// The number of bytes finished in the present pass.
    pub position: u64,
    /// The number of stages of the scheme.
    pub stage_count: usize,
    /// The number of bytes of the device.
    pub total_size: u64,
}

impl Default for WipeState {
    fn default() -> (state: Self)
        ensures
            state == (WipeState {
                stage: 0,
                verifying: false,
                block: 0,
                position: 0,
                stage_count: 0,
                total_size: 0,
            }),
    {
        WipeState {
            stage: 0,
            verifying: false,
            block: 0,
            position: 0,
            stage_count: 0,
            total_size: 0,
        }
    }
}

/// Why a run failed.
#[derive(Debug)]
pub enum WipeError {
    /// The task asks for blocks of no bytes.
    BlockSize,
    /// The device could not be opened. No run ends so: a run starts on a
    /// device that is open. It is for the caller that has to tell the session
    /// why no run was made.
    Open(StorageError),
    /// The device could not be set to its first byte.
    Seek(StorageError),
    /// A block could not be written.
    Write(StorageError),
    /// What was written could not be forced to the medium.
    Flush(StorageError),
    /// A block could not be read back.
    Read(StorageError),
    /// The byte at `offset` was not read back as it was written.
    Mismatch { offset: u64 },
    /// The operator interrupted the run.
    Interrupted,
}

/// What a run tells its session.
#[derive(Debug)]
pub enum WipeEvent {
    Started,
    StageStarted { index: usize },
    Progress { bytes_written: u64 },
    StageCompleted { index: usize },
    VerificationStarted,
    VerificationProgress { bytes_verified: u64 },
    VerificationMismatch { offset: u64 },
    VerificationCompleted,
    Completed,
    Fatal { error: WipeError },
}

/// How a run ended.
#[derive(Debug, Clone, Copy, PartialEq, Eq, Structural)]
pub enum WipeOutcome {
    /// Every stage was written and, where asked for, read back.
    Completed,
    /// The operator declined; the device was not touched.
    Aborted,
    /// The run met a failure and stopped there.
    Failed,
}

/// One event, with the progress that the session was shown along with it.
pub struct Notice {
    pub task: WipeTask,
    pub state: WipeState,
    pub event: WipeEvent,
}

/// One question for consent, with the answer that it got.
pub struct Consent {
    pub device_id: Seq<char>,
    pub scheme_id: Seq<char>,
    pub auto_confirm: bool,
    pub given: bool,
}

/// The operator's side of a run: it gives or withholds consent, and is told
/// of every event as it happens.
pub trait WipeSession {
    /// Asks whether `device_id` may be wiped with the scheme `scheme_id`.
    fn confirm(&mut self, device_id: &str, scheme_id: &str, auto_confirm: bool) -> bool;

    /// Takes one event, with the task and the progress so far.
    fn handle(&mut self, task: &WipeTask, state: &WipeState, event: WipeEvent);

    /// Whether the operator has asked for the run to stop. A run asks before
    /// every block.
    fn interrupted(&mut self) -> bool;
}

/// A session together with the history of what passed through it.
///
/// Every question and every event goes through a method of this type, and
/// each method adds exactly its own entry to the history. The history costs
/// nothing when the program runs.
pub struct TracedSession<S: WipeSession> {
    session: S,
    notices: Ghost<Seq<Notice>>,
    answers: Ghost<Seq<Consent>>,
    polls: Ghost<Seq<bool>>,
}

impl<S: WipeSession> TracedSession<S> {
    /// Every event handed to the session, in order.
    pub closed spec fn notices(&self) -> Seq<Notice> {
        self.notices@
    }

    /// Every question for consent put to the session, with its answer, in
    /// order.
    pub closed spec fn answers(&self) -> Seq<Consent> {
        self.answers@
    }

    /// Every answer that the session gave when asked whether the run is to
    /// stop, in order.
    pub closed spec fn polls(&self) -> Seq<bool> {
        self.polls@
    }

    /// The session itself.
    pub closed spec fn inner(&self) -> S {
        self.session
    }

    /// Takes a session that has seen nothing yet.
    pub fn new(session: S) -> (traced: Self)
        ensures
            traced.inner() == session,
            traced.notices() == Seq::<Notice>::empty(),
            traced.answers() == Seq::<Consent>::empty(),
            traced.polls() == Seq::<bool>::empty(),
    {
        TracedSession {
            session,
            notices: Ghost(Seq::empty()),
            answers: Ghost(Seq::empty()),
            polls: Ghost(Seq::empty()),
        }
    }

    /// Gives the session back.
    pub fn into_inner(self) -> (session: S)
        ensures
            session == self.inner(),
    {
        self.session
    }

    /// Asks the session for consent.
    pub fn confirm(&mut self, device_id: &str, scheme_id: &str, auto_confirm: bool) -> (confirmed:
        bool)
        ensures
            final(self).answers() == old(self).answers().push(
                Consent {
                    device_id: device_id@,
                    scheme_id: scheme_id@,
                    auto_confirm,
                    given: confirmed,
                },
            ),
            final(self).notices() == old(self).notices(),
            final(self).polls() == old(self).polls(),
    {
        let confirmed = self.session.confirm(device_id, scheme_id, auto_confirm);
        self.answers = Ghost(
            self.answers@.push(
                Consent {
                    device_id: device_id@,
                    scheme_id: scheme_id@,
                    auto_confirm,
                    given: confirmed,
                },
            ),
        );
        confirmed
    }

    /// Hands one event to the session.
    pub fn handle(&mut self, task: &WipeTask, state: &WipeState, event: WipeEvent)
        ensures
            final(self).notices() == old(self).notices().push(Notice { task: *task, state: *state, event }),
            final(self).answers() == old(self).answers(),
            final(self).polls() == old(self).polls(),
    {
        self.notices = Ghost(self.notices@.push(Notice { task: *task, state: *state, event }));
        self.session.handle(task, state, event);
    }

    /// Asks the session whether the run is to stop.
    pub fn interrupted(&mut self) -> (stop: bool)
        ensures
            final(self).polls() == old(self).polls().push(stop),
            final(self).notices() == old(self).notices(),
            final(self).answers() == old(self).answers(),
    {
        let stop = self.session.interrupted();
        self.polls = Ghost(self.polls@.push(stop));
        stop
    }
}

/// The failure of the device that `error` holds, if it holds one.
pub open spec fn storage_failure(error: WipeError) -> Option<StorageError> {
    match error {
        WipeError::BlockSize => None,
        WipeError::Open(failure) => Some(failure),
        WipeError::Seek(failure) => Some(failure),
        WipeError::Write(failure) => Some(failure),
        WipeError::Flush(failure) => Some(failure),
        WipeError::Read(failure) => Some(failure),
        WipeError::Mismatch { offset } => None,
        WipeError::Interrupted => None,
    }
}

/// The failures that a device has reported once a run has ended as `result`
/// says, where it had reported `before`: one more where the run failed with a
/// failure of the device, which is then the failure that the device reported.
pub open spec fn failures_after(before: Seq<StorageError>, result: Result<(), WipeError>) -> Seq<
    StorageError,
> {
    match result {
        Ok(_) => before,
        Err(error) => match storage_failure(error) {
            Some(failure) => before.push(failure),
            None => before,
        },
    }
}

/// Whether byte `at` of `expected` is missing from `actual` or differs there.
pub open spec fn differs_at(expected: Seq<u8>, actual: Seq<u8>, at: int) -> bool {
    0 <= at < expected.len() && (at >= actual.len() || expected[at] != actual[at])
}

/// Whether `at` is the first place at which `actual` fails to show `expected`.
pub open spec fn is_first_mismatch(expected: Seq<u8>, actual: Seq<u8>, at: int) -> bool {
    &&& differs_at(expected, actual, at)
    &&& forall|before: int| 0 <= before < at ==> !differs_at(expected, actual, before)
}

/// The first place at which `actual` does not show what `expected` holds: a
/// byte that differs, or the end of `actual` where that comes before the end of
/// `expected`. Nothing where `actual` begins with all of `expected`.
pub fn first_difference(expected: &[u8], actual: &[u8]) -> (at: Option<usize>)
    ensures
        match at {
            Some(index) => is_first_mismatch(expected@, actual@, index as int),
            None => forall|i: int| 0 <= i < expected@.len() ==> !differs_at(expected@, actual@, i),
        },
{
    let mut index: usize = 0;
    while index < expected.len()
        invariant
            index <= expected@.len(),
            forall|i: int| 0 <= i < index ==> !differs_at(expected@, actual@, i),
        decreases expected@.len() - index,
    {
        if index >= actual.len() || expected[index] != actual[index] {
            return Some(index);
        }
        index = index + 1;
    }
    None
}

/// Whether the histories of answers `before` and `after` a run differ by one
/// question for consent: the one whether `device_id` may be wiped with the
/// scheme `scheme_id`.
pub open spec fn consent_asked(
    before: Seq<Consent>,
    after: Seq<Consent>,
    device_id: Seq<char>,
    scheme_id: Seq<char>,
) -> bool {
    &&& after.len() == before.len() + 1
    &&& after.drop_last() == before
    &&& after.last().device_id == device_id
    &&& after.last().scheme_id == scheme_id
    &&& !after.last().auto_confirm
}

/// Whether the operator was asked and withheld consent.
pub open spec fn declined(auto_confirm: bool, answers: Seq<Consent>) -> bool {
    !auto_confirm && answers.len() > 0 && !answers.last().given
}

/// `count` times the answer that a run may go on.
pub open spec fn quiet(count: nat) -> Seq<bool> {
    Seq::new(count, |i: int| false)
}

/// The request that sets the device to its first byte.
pub open spec fn seek_call(done: bool) -> StorageCall {
    StorageCall::Seek { offset: 0, done }
}

/// The request made for block `index` of a pass when all goes well: the block
/// is written, or it is read back as it was written.
pub open spec fn block_call(
    stage: Stage,
    total_size: nat,
    block_size: nat,
    verifying: bool,
    index: nat,
) -> StorageCall {
    if verifying {
        StorageCall::Read {
            length: block_length(total_size, block_size, index),
            data: Some(stage_block(stage, total_size, block_size, index)),
        }
    } else {
        StorageCall::Write { data: stage_block(stage, total_size, block_size, index), done: true }
    }
}

/// The requests made for the first `blocks` blocks of a pass when all goes well.
pub open spec fn pass_calls(
    stage: Stage,
    total_size: nat,
    block_size: nat,
    verifying: bool,
    blocks: nat,
) -> Seq<StorageCall>
    decreases blocks,
{
    if blocks == 0 {
        Seq::empty()
    } else {
        pass_calls(stage, total_size, block_size, verifying, (blocks - 1) as nat).push(
            block_call(stage, total_size, block_size, verifying, (blocks - 1) as nat),
        )
    }
}

impl WipeTask {
    /// A task for `scheme` over a device of `total_size` bytes.
    pub fn new(scheme: Scheme, verification: Verify, total_size: u64, block_size: usize) -> (task:
        Self)
        ensures
            task.scheme == scheme,
            task.verification == verification,
            task.total_size == total_size,
            task.block_size == block_size,
    {
        WipeTask { scheme, verification, total_size, block_size }
    }

    /// The stages of the task, in order.
    pub open spec fn stages(&self) -> Seq<Stage> {
        self.scheme.stages@
    }

    /// The number of blocks of every pass.
    pub open spec fn blocks(&self) -> nat {
        block_count(self.total_size as nat, self.block_size as nat)
    }

    /// Whether stage `index` is read back.
    pub open spec fn verifies(&self, index: nat) -> bool {
        match self.verification {
            Verify::No => false,
            Verify::Last => index + 1 == self.stages().len(),
            Verify::All => true,
        }
    }

    /// The progress of a run that has finished `blocks` blocks of a pass of
    /// stage `index`.
    pub open spec fn snapshot(&self, index: nat, verifying: bool, blocks: nat) -> WipeState {
        WipeState {
            stage: index as usize,
            verifying,
            block: blocks as u64,
            position: block_start(self.total_size as nat, self.block_size as nat, blocks) as u64,
            stage_count: self.stages().len() as usize,
            total_size: self.total_size,
        }
    }

    /// The requests for the first `blocks` blocks of a pass of stage `index`.
    pub open spec fn pass(&self, index: nat, verifying: bool, blocks: nat) -> Seq<StorageCall> {
        pass_calls(
            self.stages()[index as int],
            self.total_size as nat,
            self.block_size as nat,
            verifying,
            blocks,
        )
    }

    /// The requests of the write pass of stage `index`: to the first byte,
    /// every block in order, then a flush.
    pub open spec fn written(&self, index: nat) -> Seq<StorageCall> {
        (seq![seek_call(true)] + self.pass(index, false, self.blocks())).push(
            StorageCall::Flush { done: true },
        )
    }

    /// The requests of the read-back of stage `index`: to the first byte, then
    /// every block in order, each read as it was written.
    pub open spec fn verified(&self, index: nat) -> Seq<StorageCall> {
        seq![seek_call(true)] + self.pass(index, true, self.blocks())
    }

    /// The requests of stage `index`: its write pass, and right after it its
    /// read-back where the stage is read back.
    pub open spec fn stage_calls(&self, index: nat) -> Seq<StorageCall> {
        if self.verifies(index) {
            self.written(index) + self.verified(index)
        } else {
            self.written(index)
        }
    }

    /// The requests of the first `stages` stages, stage after stage.
    pub open spec fn calls_through(&self, stages: nat) -> Seq<StorageCall>
        decreases stages,
    {
        if stages == 0 {
            Seq::empty()
        } else {
            self.calls_through((stages - 1) as nat) + self.stage_calls((stages - 1) as nat)
        }
    }

    /// Everything a run that completes asks of the device.
    pub open spec fn wipe_calls(&self) -> Seq<StorageCall> {
        self.calls_through(self.stages().len())
    }

    /// The event that reports block number `blocks` of a pass as finished.
    pub open spec fn progress_notice(&self, index: nat, verifying: bool, blocks: nat) -> Notice {
        let bytes = block_start(self.total_size as nat, self.block_size as nat, blocks) as u64;
        Notice { task: *self,
            state: self.snapshot(index, verifying, blocks),
            event: if verifying {
                WipeEvent::VerificationProgress { bytes_verified: bytes }
            } else {
                WipeEvent::Progress { bytes_written: bytes }
            },
        }
    }

    /// The progress events of the first `blocks` blocks of a pass.
    pub open spec fn progress(&self, index: nat, verifying: bool, blocks: nat) -> Seq<Notice>
        decreases blocks,
    {
        if blocks == 0 {
            Seq::empty()
        } else {
            self.progress(index, verifying, (blocks - 1) as nat).push(
                self.progress_notice(index, verifying, blocks),
            )
        }
    }

    /// The events of the write pass of stage `index`, from its start to its
    /// completion.
    pub open spec fn written_notices(&self, index: nat) -> Seq<Notice> {
        (seq![
            Notice { task: *self,
                state: self.snapshot(index, false, 0),
                event: WipeEvent::StageStarted { index: index as usize },
            },
        ] + self.progress(index, false, self.blocks())).push(
            Notice { task: *self,
                state: self.snapshot(index, false, self.blocks()),
                event: WipeEvent::StageCompleted { index: index as usize },
            },
        )
    }

    /// The events of the read-back of stage `index`, from its start to its
    /// completion.
    pub open spec fn verified_notices(&self, index: nat) -> Seq<Notice> {
        (seq![
            Notice { task: *self, state: self.snapshot(index, true, 0), event: WipeEvent::VerificationStarted },
        ] + self.progress(index, true, self.blocks())).push(
            Notice { task: *self,
                state: self.snapshot(index, true, self.blocks()),
                event: WipeEvent::VerificationCompleted,
            },
        )
    }

    /// The events of stage `index`.
    pub open spec fn stage_notices(&self, index: nat) -> Seq<Notice> {
        if self.verifies(index) {
            self.written_notices(index) + self.verified_notices(index)
        } else {
            self.written_notices(index)
        }
    }

    /// The events from the start of a run through its first `stages` stages.
    pub open spec fn notices_through(&self, stages: nat) -> Seq<Notice>
        decreases stages,
    {
        if stages == 0 {
            seq![Notice { task: *self, state: self.snapshot(0, false, 0), event: WipeEvent::Started }]
        } else {
            self.notices_through((stages - 1) as nat) + self.stage_notices((stages - 1) as nat)
        }
    }

    /// Everything a run that completes tells its session.
    pub open spec fn wipe_notices(&self) -> Seq<Notice> {
        self.notices_through(self.stages().len()).push(
            Notice { task: *self,
                state: self.snapshot(self.stages().len(), false, 0),
                event: WipeEvent::Completed,
            },
        )
    }

    /// Whether `error` can be what stops a pass that has finished `blocks`
    /// blocks: a seek fails before the first block, a flush after the last
    /// block written, and a block fails while there is one left.
    pub open spec fn failure_fits(&self, verifying: bool, blocks: nat, error: WipeError) -> bool {
        match error {
            WipeError::BlockSize => false,
            WipeError::Open(_) => false,
            WipeError::Seek(_) => blocks == 0,
            WipeError::Write(_) => !verifying && blocks < self.blocks(),
            WipeError::Flush(_) => !verifying && blocks == self.blocks(),
            WipeError::Read(_) => verifying && blocks < self.blocks(),
            WipeError::Mismatch { offset } => verifying && blocks < self.blocks(),
            WipeError::Interrupted => blocks < self.blocks(),
        }
    }

    /// The requests of a pass that went well before the one that `error`
    /// speaks of.
    pub open spec fn attempt(&self, index: nat, verifying: bool, blocks: nat, error: WipeError) -> Seq<
        StorageCall,
    > {
        if error is Seek {
            Seq::empty()
        } else {
            seq![seek_call(true)] + self.pass(index, verifying, blocks)
        }
    }

    /// Whether `call` is the request that `error` speaks of, made for block
    /// `blocks` of stage `index`, with an end that is not the good one.
    pub open spec fn failing_call(&self, index: nat, blocks: nat, error: WipeError, call: StorageCall) -> bool {
        let total = self.total_size as nat;
        let size = self.block_size as nat;
        let expected = stage_block(self.stages()[index as int], total, size, blocks);
        match error {
            WipeError::BlockSize => false,
            WipeError::Open(_) => false,
            WipeError::Seek(_) => call == seek_call(false),
            WipeError::Write(_) => call == (StorageCall::Write { data: expected, done: false }),
            WipeError::Flush(_) => call == (StorageCall::Flush { done: false }),
            WipeError::Read(_) => call == (StorageCall::Read {
                length: block_length(total, size, blocks),
                data: None,
            }),
            WipeError::Mismatch { offset } => {
                &&& call matches StorageCall::Read { length, data: Some(delivered) }
                &&& length == block_length(total, size, blocks)
                &&& delivered.len() <= length
                &&& is_first_mismatch(expected, delivered, offset - block_start(total, size, blocks))
            },
            WipeError::Interrupted => false,
        }
    }

    /// Whether the requests `calls` are those of a run that stopped with
    /// `error` at block `blocks` of stage `index`, after the requests `good`
    /// had gone well. An interruption comes between two requests, and nothing
    /// follows it. Every other stop comes with one more request, the one that
    /// `error` speaks of.
    pub open spec fn stopped_after(
        &self,
        index: nat,
        blocks: nat,
        error: WipeError,
        good: Seq<StorageCall>,
        calls: Seq<StorageCall>,
    ) -> bool {
        if error is Interrupted {
            calls == good
        } else {
            &&& calls.len() > 0
            &&& calls.drop_last() == good
            &&& self.failing_call(index, blocks, error, calls.last())
        }
    }

    /// The answers of the session to the question whether to stop, asked
    /// before every block of a pass that finished `blocks` blocks and ended as
    /// `result` says. All of them are no but the last of a pass that was
    /// interrupted.
    pub open spec fn pass_polls(&self, blocks: nat, result: Result<(), WipeError>) -> Seq<bool> {
        match result {
            Ok(_) => quiet(self.blocks()),
            Err(error) => match error {
                WipeError::BlockSize => Seq::empty(),
                WipeError::Open(_) => Seq::empty(),
                WipeError::Seek(_) => Seq::empty(),
                WipeError::Flush(_) => quiet(blocks),
                WipeError::Interrupted => quiet(blocks).push(true),
                WipeError::Write(_) => quiet(blocks + 1),
                WipeError::Read(_) => quiet(blocks + 1),
                WipeError::Mismatch { offset } => quiet(blocks + 1),
            },
        }
    }

    /// The answers to the question whether to stop that are given in stage
    /// `index`, where the stage ended as `result` says and left the progress
    /// `state`.
    pub open spec fn stage_polls(&self, index: nat, state: WipeState, result: Result<(), WipeError>) -> Seq<
        bool,
    > {
        match result {
            Ok(_) => if self.verifies(index) {
                quiet(self.blocks()) + quiet(self.blocks())
            } else {
                quiet(self.blocks())
            },
            Err(error) => if state.verifying {
                quiet(self.blocks()) + self.pass_polls(state.block as nat, result)
            } else {
                self.pass_polls(state.block as nat, result)
            },
        }
    }

    /// The answers to the question whether to stop that are given in the
    /// first `stages` stages, where all of them go well.
    pub open spec fn polls_through(&self, stages: nat) -> Seq<bool>
        decreases stages,
    {
        if stages == 0 {
            Seq::empty()
        } else {
            self.polls_through((stages - 1) as nat) + self.stage_polls(
                (stages - 1) as nat,
                self.snapshot(stages, false, 0),
                Ok(()),
            )
        }
    }

    /// The answers to the question whether to stop that are given in a run
    /// that ended as `result` says and left the progress `state`.
    pub open spec fn run_polls(&self, state: WipeState, result: Result<(), WipeError>) -> Seq<bool> {
        match result {
            Ok(_) => self.polls_through(self.stages().len()),
            Err(error) => if error is BlockSize {
                Seq::empty()
            } else {
                self.polls_through(state.stage as nat) + self.stage_polls(
                    state.stage as nat,
                    state,
                    result,
                )
            },
        }
    }

    /// The requests of stage `index` that went well before the failure.
    pub open spec fn calls_before_failure(
        &self,
        index: nat,
        verifying: bool,
        blocks: nat,
        error: WipeError,
    ) -> Seq<StorageCall> {
        if verifying {
            self.written(index) + self.attempt(index, true, blocks, error)
        } else {
            self.attempt(index, false, blocks, error)
        }
    }

    /// The event that names the byte that was not read back as written, where
    /// that is what `error` speaks of.
    pub open spec fn mismatch_notices(&self, state: WipeState, error: WipeError) -> Seq<Notice> {
        match error {
            WipeError::Mismatch { offset } => seq![
                Notice { task: *self, state, event: WipeEvent::VerificationMismatch { offset } },
            ],
            _ => Seq::empty(),
        }
    }

    /// The events of stage `index` up to the failure.
    pub open spec fn notices_before_failure(
        &self,
        index: nat,
        verifying: bool,
        blocks: nat,
        error: WipeError,
    ) -> Seq<Notice> {
        if verifying {
            self.written_notices(index) + seq![
                Notice { task: *self,
                    state: self.snapshot(index, true, 0),
                    event: WipeEvent::VerificationStarted,
                },
            ] + self.progress(index, true, blocks) + self.mismatch_notices(
                self.snapshot(index, true, blocks),
                error,
            )
        } else {
            seq![
                Notice { task: *self,
                    state: self.snapshot(index, false, 0),
                    event: WipeEvent::StageStarted { index: index as usize },
                },
            ] + self.progress(index, false, blocks)
        }
    }

    /// What holds when a stage has failed with `error`.
    ///
    /// `calls_before` and `notices_before` are the histories as they stood when
    /// the stage began, `calls` and `notices` as they stand at the failure.
    /// `state` names the stage, the pass and the number of blocks finished in
    /// it. All requests but the last went well and are those of a run without
    /// failure; the last is the one that `error` speaks of.
    pub open spec fn failed(
        &self,
        state: WipeState,
        error: WipeError,
        calls_before: Seq<StorageCall>,
        notices_before: Seq<Notice>,
        calls: Seq<StorageCall>,
        notices: Seq<Notice>,
    ) -> bool {
        let index = state.stage as nat;
        let blocks = state.block as nat;
        &&& self.block_size > 0
        &&& index < self.stages().len()
        &&& state == self.snapshot(index, state.verifying, blocks)
        &&& self.failure_fits(state.verifying, blocks, error)
        &&& state.verifying ==> self.verifies(index)
        &&& self.stopped_after(
            index,
            blocks,
            error,
            calls_before + self.calls_before_failure(index, state.verifying, blocks, error),
            calls,
        )
        &&& notices == notices_before + self.notices_before_failure(
            index,
            state.verifying,
            blocks,
            error,
        )
    }

    /// What holds when a run has failed with `error`, before the session is
    /// told of the failure itself.
    ///
    /// `before` is the progress and `calls_before` and `notices_before` are the
    /// histories as the run found them; `state`, `calls` and `notices` are what
    /// it leaves. A task with blocks of no bytes fails at once and changes
    /// nothing. Any other failure comes in some stage, after the stages before
    /// it have gone well.
    pub open spec fn run_failed(
        &self,
        before: WipeState,
        state: WipeState,
        error: WipeError,
        calls_before: Seq<StorageCall>,
        notices_before: Seq<Notice>,
        calls: Seq<StorageCall>,
        notices: Seq<Notice>,
    ) -> bool {
        if error is BlockSize {
            &&& self.block_size == 0
            &&& state == before
            &&& calls == calls_before
            &&& notices == notices_before
        } else {
            self.failed(
                state,
                error,
                calls_before + self.calls_through(state.stage as nat),
                notices_before + self.notices_through(state.stage as nat),
                calls,
                notices,
            )
        }
    }

    /// Whether stage `index` is read back.
    fn verifies_stage(&self, index: usize) -> (verifies: bool)
        requires
            index < self.scheme.stages.len(),
        ensures
            verifies == self.verifies(index as nat),
    {
        match self.verification {
            Verify::No => false,
            Verify::Last => index + 1 == self.scheme.stages.len(),
            Verify::All => true,
        }
    }

    /// The write pass of stage `index`.
    fn fill<A: StorageAccess, S: WipeSession>(
        &self,
        index: usize,
        access: &mut TracedAccess<A>,
        state: &mut WipeState,
        session: &mut TracedSession<S>,
    ) -> (result: Result<(), WipeError>)
        requires
            self.block_size > 0,
            index < self.scheme.stages.len(),
            *old(state) == self.snapshot(index as nat, false, 0),
        ensures
            final(session).answers() == old(session).answers(),
            final(access).failures() == failures_after(old(access).failures(), result),
            final(session).polls() == old(session).polls() + self.pass_polls(
                final(state).block as nat,
                result,
            ),
            match result {
                Ok(()) => {
                    &&& *final(state) == self.snapshot(index as nat, false, self.blocks())
                    &&& final(access).calls() == old(access).calls() + self.written(index as nat)
                    &&& final(session).notices() == old(session).notices() + self.progress(
                        index as nat,
                        false,
                        self.blocks(),
                    )
                },
                Err(error) => {
                    let blocks = final(state).block as nat;
                    &&& *final(state) == self.snapshot(index as nat, false, blocks)
                    &&& self.failure_fits(false, blocks, error)
                    &&& self.stopped_after(
                        index as nat,
                        blocks,
                        error,
                        old(access).calls() + self.attempt(index as nat, false, blocks, error),
                        final(access).calls(),
                    )
                    &&& final(session).notices() == old(session).notices() + self.progress(
                        index as nat,
                        false,
                        blocks,
                    )
                },
            },
    {
        let stage = self.scheme.stages[index];
        let ghost total = self.total_size as nat;
        let ghost size = self.block_size as nat;
        let ghost place = index as nat;
        let ghost calls_before = access.calls();
        let ghost notices_before = session.notices();
        proof {
            lemma_block_count(total, size, 0);
            assert(0 * size == 0) by (nonlinear_arith);
        }
        match access.seek(0) {
            Err(error) => {
                proof {
                    assert(access.calls().drop_last() =~= calls_before + Seq::<StorageCall>::empty());
                    assert(notices_before =~= notices_before + self.progress(place, false, 0));
                    assert(session.polls() =~= session.polls() + Seq::<bool>::empty());
                }
                return Err(WipeError::Seek(error));
            },
            Ok(_) => {},
        }
        let mut stream = stage.stream(self.total_size, self.block_size);
        proof {
            assert(access.calls() =~= calls_before + (seq![seek_call(true)] + self.pass(
                place,
                false,
                0,
            )));
            assert(notices_before =~= notices_before + self.progress(place, false, 0));
            assert(session.polls() =~= session.polls() + quiet(0));
        }
        loop
            invariant_except_break
                !stream.exhausted(),
            invariant
                self.block_size > 0,
                index < self.scheme.stages.len(),
                stage == self.stages()[index as int],
                total == self.total_size as nat,
                size == self.block_size as nat,
                place == index as nat,
                calls_before == old(access).calls(),
                notices_before == old(session).notices(),
                stream.wf(),
                stream.stage() == stage,
                stream.total_size() == total,
                stream.block_size() == size,
                stream.produced() == state.block,
                state.block <= self.blocks(),
                *state == self.snapshot(place, false, state.block as nat),
                access.calls() == calls_before + (seq![seek_call(true)] + self.pass(
                    place,
                    false,
                    state.block as nat,
                )),
                session.notices() == notices_before + self.progress(
                    place,
                    false,
                    state.block as nat,
                ),
                session.answers() == old(session).answers(),
                access.failures() == old(access).failures(),
                session.polls() == old(session).polls() + quiet(state.block as nat),
            ensures
                state.block == self.blocks(),
            decreases self.blocks() - state.block,
        {
            let ghost done = state.block as nat;
            let ghost calls_here = access.calls();
            stream.advance();
            match stream.get() {
                None => {
                    break ;
                },
                Some(chunk) => {
                    proof {
                        lemma_block_count(total, size, done);
                        lemma_block_length(total, size, done);
                        assert(done < total) by (nonlinear_arith)
                            requires
                                done * size < total,
                                size > 0,
                        ;
                    }
                    if session.interrupted() {
                        proof {
                            assert(session.polls() =~= old(session).polls() + quiet(done).push(
                                true,
                            ));
                        }
                        return Err(WipeError::Interrupted);
                    }
                    proof {
                        assert(session.polls() =~= old(session).polls() + quiet(done + 1));
                    }
                    match access.write(chunk) {
                        Err(error) => {
                            proof {
                                assert(access.calls().drop_last() =~= calls_here);
                            }
                            return Err(WipeError::Write(error));
                        },
                        Ok(_) => {},
                    }
                    state.block = state.block + 1;
                    state.position = state.position + chunk.len() as u64;
                    session.handle(
                        self,
                        state,
                        WipeEvent::Progress { bytes_written: state.position },
                    );
                    proof {
                        lemma_block_count(total, size, done + 1);
                        assert(access.calls() =~= calls_before + (seq![seek_call(true)] + self.pass(
                            place,
                            false,
                            done + 1,
                        )));
                        assert(session.notices() =~= notices_before + self.progress(
                            place,
                            false,
                            done + 1,
                        ));
                    }
                },
            }
        }
        let ghost calls_here = access.calls();
        match access.flush() {
            Err(error) => {
                proof {
                    assert(access.calls().drop_last() =~= calls_here);
                }
                Err(WipeError::Flush(error))
            },
            Ok(_) => {
                proof {
                    assert(access.calls() =~= calls_before + self.written(place));
                }
                Ok(())
            },
        }
    }

    /// The read-back of stage `index`.
    fn verify<A: StorageAccess, S: WipeSession>(
        &self,
        index: usize,
        access: &mut TracedAccess<A>,
        state: &mut WipeState,
        session: &mut TracedSession<S>,
    ) -> (result: Result<(), WipeError>)
        requires
            self.block_size > 0,
            index < self.scheme.stages.len(),
            *old(state) == self.snapshot(index as nat, true, 0),
        ensures
            final(session).answers() == old(session).answers(),
            final(access).failures() == failures_after(old(access).failures(), result),
            final(session).polls() == old(session).polls() + self.pass_polls(
                final(state).block as nat,
                result,
            ),
            match result {
                Ok(()) => {
                    &&& *final(state) == self.snapshot(index as nat, true, self.blocks())
                    &&& final(access).calls() == old(access).calls() + self.verified(index as nat)
                    &&& final(session).notices() == old(session).notices() + self.progress(
                        index as nat,
                        true,
                        self.blocks(),
                    )
                },
                Err(error) => {
                    let blocks = final(state).block as nat;
                    &&& *final(state) == self.snapshot(index as nat, true, blocks)
                    &&& self.failure_fits(true, blocks, error)
                    &&& self.stopped_after(
                        index as nat,
                        blocks,
                        error,
                        old(access).calls() + self.attempt(index as nat, true, blocks, error),
                        final(access).calls(),
                    )
                    &&& final(session).notices() == old(session).notices() + self.progress(
                        index as nat,
                        true,
                        blocks,
                    ) + self.mismatch_notices(*final(state), error)
                },
            },
    {
        let stage = self.scheme.stages[index];
        let ghost total = self.total_size as nat;
        let ghost size = self.block_size as nat;
        let ghost place = index as nat;
        let ghost calls_before = access.calls();
        let ghost notices_before = session.notices();
        proof {
            lemma_block_count(total, size, 0);
            assert(0 * size == 0) by (nonlinear_arith);
        }
        match access.seek(0) {
            Err(error) => {
                proof {
                    assert(access.calls().drop_last() =~= calls_before + Seq::<StorageCall>::empty());
                    assert(notices_before =~= notices_before + self.progress(place, true, 0)
                        + Seq::<Notice>::empty());
                    assert(session.polls() =~= session.polls() + Seq::<bool>::empty());
                }
                return Err(WipeError::Seek(error));
            },
            Ok(_) => {},
        }
        let mut stream = stage.stream(self.total_size, self.block_size);
        let mut buffer = filled_buffer(0, self.block_size);
        proof {
            assert(access.calls() =~= calls_before + (seq![seek_call(true)] + self.pass(
                place,
                true,
                0,
            )));
            assert(notices_before =~= notices_before + self.progress(place, true, 0));
            assert(session.polls() =~= session.polls() + quiet(0));
        }
        loop
            invariant_except_break
                !stream.exhausted(),
            invariant
                self.block_size > 0,
                index < self.scheme.stages.len(),
                stage == self.stages()[index as int],
                total == self.total_size as nat,
                size == self.block_size as nat,
                place == index as nat,
                calls_before == old(access).calls(),
                notices_before == old(session).notices(),
                buffer@.len() == size,
                stream.wf(),
                stream.stage() == stage,
                stream.total_size() == total,
                stream.block_size() == size,
                stream.produced() == state.block,
                state.block <= self.blocks(),
                *state == self.snapshot(place, true, state.block as nat),
                access.calls() == calls_before + (seq![seek_call(true)] + self.pass(
                    place,
                    true,
                    state.block as nat,
                )),
                session.notices() == notices_before + self.progress(
                    place,
                    true,
                    state.block as nat,
                ),
                session.answers() == old(session).answers(),
                access.failures() == old(access).failures(),
                session.polls() == old(session).polls() + quiet(state.block as nat),
            ensures
                state.block == self.blocks(),
            decreases self.blocks() - state.block,
        {
            let ghost done = state.block as nat;
            let ghost calls_here = access.calls();
            let ghost notices_here = session.notices();
            stream.advance();
            match stream.get() {
                None => {
                    break ;
                },
                Some(chunk) => {
                    proof {
                        lemma_block_count(total, size, done);
                        lemma_block_length(total, size, done);
                        assert(done < total) by (nonlinear_arith)
                            requires
                                done * size < total,
                                size > 0,
                        ;
                    }
                    if session.interrupted() {
                        proof {
                            assert(session.polls() =~= old(session).polls() + quiet(done).push(
                                true,
                            ));
                            assert(notices_here =~= notices_here + Seq::<Notice>::empty());
                        }
                        return Err(WipeError::Interrupted);
                    }
                    proof {
                        assert(session.polls() =~= old(session).polls() + quiet(done + 1));
                    }
                    let length = chunk.len();
                    let (window, _) = buffer.as_mut_slice().split_at_mut(length);
                    let outcome = access.read(window);
                    let count = match outcome {
                        Err(error) => {
                            proof {
                                assert(access.calls().drop_last() =~= calls_here);
                                assert(notices_here =~= notices_here + Seq::<Notice>::empty());
                            }
                            return Err(WipeError::Read(error));
                        },
                        Ok(count) => count,
                    };
                    let ghost delivered = access.calls().last()->Read_data->0;
                    assert(buffer@.len() == size);
                    assert(buffer@.subrange(0, count as int) =~= delivered);
                    let found = first_difference(
                        chunk,
                        slice_subrange(buffer.as_slice(), 0, count),
                    );
                    match found {
                        Some(at) => {
                            let offset = state.position + at as u64;
                            session.handle(
                                self,
                                state,
                                WipeEvent::VerificationMismatch { offset },
                            );
                            proof {
                                assert(access.calls().drop_last() =~= calls_here);
                                assert(session.notices() =~= notices_here + seq![
                                    Notice { task: *self,
                                        state: *state,
                                        event: WipeEvent::VerificationMismatch { offset },
                                    },
                                ]);
                            }
                            return Err(WipeError::Mismatch { offset });
                        },
                        None => {},
                    }
                    proof {
                        if chunk@.len() > 0 {
                            assert(!differs_at(chunk@, delivered, chunk@.len() - 1));
                        }
                        assert forall|i: int| 0 <= i < chunk@.len() implies chunk@[i]
                            == delivered[i] by {
                            assert(!differs_at(chunk@, delivered, i));
                        }
                        assert(delivered =~= chunk@);
                    }
                    state.block = state.block + 1;
                    state.position = state.position + length as u64;
                    session.handle(
                        self,
                        state,
                        WipeEvent::VerificationProgress { bytes_verified: state.position },
                    );
                    proof {
                        lemma_block_count(total, size, done + 1);
                        assert(access.calls() =~= calls_before + (seq![seek_call(true)] + self.pass(
                            place,
                            true,
                            done + 1,
                        )));
                        assert(session.notices() =~= notices_before + self.progress(
                            place,
                            true,
                            done + 1,
                        ));
                    }
                },
            }
        }
        proof {
            assert(access.calls() =~= calls_before + self.verified(place));
        }
        Ok(())
    }

    /// Stage `index`: its write pass, then its read-back where it has one.
    fn run_stage<A: StorageAccess, S: WipeSession>(
        &self,
        index: usize,
        access: &mut TracedAccess<A>,
        state: &mut WipeState,
        session: &mut TracedSession<S>,
    ) -> (result: Result<(), WipeError>)
        requires
            self.block_size > 0,
            index < self.scheme.stages.len(),
            *old(state) == self.snapshot(index as nat, false, 0),
        ensures
            final(session).answers() == old(session).answers(),
            final(access).failures() == failures_after(old(access).failures(), result),
            final(session).polls() == old(session).polls() + self.stage_polls(
                index as nat,
                *final(state),
                result,
            ),
            match result {
                Ok(()) => {
                    &&& final(access).calls() == old(access).calls() + self.stage_calls(
                        index as nat,
                    )
                    &&& final(session).notices() == old(session).notices() + self.stage_notices(
                        index as nat,
                    )
                },
                Err(error) => {
                    &&& final(state).stage == index
                    &&& self.failed(
                        *final(state),
                        error,
                        old(access).calls(),
                        old(session).notices(),
                        final(access).calls(),
                        final(session).notices(),
                    )
                },
            },
    {
        let ghost place = index as nat;
        let ghost calls_before = access.calls();
        let ghost notices_before = session.notices();
        let ghost polls_before = session.polls();
        proof {
            lemma_block_count(self.total_size as nat, self.block_size as nat, 0);
            assert(0 * (self.block_size as nat) == 0) by (nonlinear_arith);
        }
        session.handle(self, state, WipeEvent::StageStarted { index });
        match self.fill(index, access, state, session) {
            Err(error) => {
                proof {
                    let blocks = state.block as nat;
                    assert(session.notices() =~= notices_before + self.notices_before_failure(
                        place,
                        false,
                        blocks,
                        error,
                    ));
                }
                return Err(error);
            },
            Ok(_) => {},
        }
        session.handle(self, state, WipeEvent::StageCompleted { index });
        proof {
            assert(session.notices() =~= notices_before + self.written_notices(place));
        }
        if self.verifies_stage(index) {
            state.verifying = true;
            state.block = 0;
            state.position = 0;
            session.handle(self, state, WipeEvent::VerificationStarted);
            let ghost calls_written = access.calls();
            match self.verify(index, access, state, session) {
                Err(error) => {
                    proof {
                        let blocks = state.block as nat;
                        assert(calls_written + self.attempt(place, true, blocks, error)
                            =~= calls_before + self.calls_before_failure(
                            place,
                            true,
                            blocks,
                            error,
                        ));
                        assert(session.polls() =~= polls_before + self.stage_polls(
                            place,
                            *state,
                            Err(error),
                        ));
                        assert(session.notices() =~= notices_before + self.notices_before_failure(
                            place,
                            true,
                            blocks,
                            error,
                        ));
                    }
                    return Err(error);
                },
                Ok(_) => {},
            }
            session.handle(self, state, WipeEvent::VerificationCompleted);
            proof {
                assert(access.calls() =~= calls_before + self.stage_calls(place));
                assert(session.notices() =~= notices_before + self.stage_notices(place));
                assert(session.polls() =~= polls_before + self.stage_polls(place, *state, Ok(())));
            }
        }
        Ok(())
    }

    /// A run to which the operator has consented, short of telling the
    /// session of a failure.
    fn run_confirmed<A: StorageAccess, S: WipeSession>(
        &self,
        access: &mut TracedAccess<A>,
        state: &mut WipeState,
        session: &mut TracedSession<S>,
    ) -> (result: Result<(), WipeError>)
        ensures
            final(session).answers() == old(session).answers(),
            final(access).failures() == failures_after(old(access).failures(), result),
            final(session).polls() == old(session).polls() + self.run_polls(*final(state), result),
            match result {
                Ok(()) => {
                    &&& self.block_size > 0
                    &&& *final(state) == self.snapshot(self.stages().len(), false, 0)
                    &&& final(access).calls() == old(access).calls() + self.wipe_calls()
                    &&& final(session).notices() == old(session).notices() + self.wipe_notices()
                },
                Err(error) => self.run_failed(
                    *old(state),
                    *final(state),
                    error,
                    old(access).calls(),
                    old(session).notices(),
                    final(access).calls(),
                    final(session).notices(),
                ),
            },
    {
        if self.block_size == 0 {
            proof {
                assert(session.polls() =~= session.polls() + Seq::<bool>::empty());
            }
            return Err(WipeError::BlockSize);
        }
        let count = self.scheme.stages.len();
        let ghost polls_before = session.polls();
        let ghost calls_before = access.calls();
        let ghost notices_before = session.notices();
        proof {
            lemma_block_count(self.total_size as nat, self.block_size as nat, 0);
            assert(0 * (self.block_size as nat) == 0) by (nonlinear_arith);
        }
        *state =
        WipeState {
            stage: 0,
            verifying: false,
            block: 0,
            position: 0,
            stage_count: count,
            total_size: self.total_size,
        };
        session.handle(self, state, WipeEvent::Started);
        let mut index: usize = 0;
        proof {
            assert(access.calls() =~= calls_before + self.calls_through(0));
            assert(session.notices() =~= notices_before + self.notices_through(0));
            assert(session.polls() =~= polls_before + self.polls_through(0));
        }
        while index < count
            invariant
                self.block_size > 0,
                count == self.scheme.stages.len(),
                index <= count,
                calls_before == old(access).calls(),
                notices_before == old(session).notices(),
                polls_before == old(session).polls(),
                *state == self.snapshot(index as nat, false, 0),
                access.calls() == calls_before + self.calls_through(index as nat),
                session.notices() == notices_before + self.notices_through(index as nat),
                session.answers() == old(session).answers(),
                access.failures() == old(access).failures(),
                session.polls() == old(session).polls() + self.polls_through(index as nat),
            decreases count - index,
        {
            match self.run_stage(index, access, state, session) {
                Err(error) => {
                    proof {
                        assert(session.polls() =~= polls_before + self.run_polls(
                            *state,
                            Err(error),
                        ));
                    }
                    return Err(error);
                },
                Ok(_) => {},
            }
            proof {
                assert(session.polls() =~= polls_before + self.polls_through(index as nat + 1));
            }
            index = index + 1;
            *state =
            WipeState {
                stage: index,
                verifying: false,
                block: 0,
                position: 0,
                stage_count: count,
                total_size: self.total_size,
            };
            proof {
                assert(access.calls() =~= calls_before + self.calls_through(index as nat));
                assert(session.notices() =~= notices_before + self.notices_through(index as nat));
            }
        }
        session.handle(self, state, WipeEvent::Completed);
        proof {
            assert(session.notices() =~= notices_before + self.wipe_notices());
        }
        Ok(())
    }

    /// Runs the task on the device behind `access`.
    ///
    /// Unless `auto_confirm` is set, the session is first asked whether
    /// `device_id` may be wiped; when it declines, the run is aborted and
    /// nothing is asked of the device. Otherwise the stages are taken in order,
    /// and the run completes when every request has gone well and every block
    /// read back was the block written. It fails at the first request that does
    /// not go well, and then the last thing the session is told is the failure.
    /// Before every block the session is asked whether the run is to stop; when
    /// it is, the run is aborted where it stands, with the progress as it is.
    pub fn run<A: StorageAccess, S: WipeSession>(
        &self,
        device_id: &str,
        auto_confirm: bool,
        access: &mut TracedAccess<A>,
        state: &mut WipeState,
        session: &mut TracedSession<S>,
    ) -> (outcome: WipeOutcome)
        ensures
            auto_confirm ==> final(session).answers() == old(session).answers(),
            !auto_confirm ==> consent_asked(
                old(session).answers(),
                final(session).answers(),
                device_id@,
                self.scheme.id@,
            ),
            declined(auto_confirm, final(session).answers()) ==> {
                &&& outcome is Aborted
                &&& final(access).calls() == old(access).calls()
                &&& final(access).failures() == old(access).failures()
                &&& final(session).notices() == old(session).notices()
                &&& final(session).polls() == old(session).polls()
                &&& *final(state) == *old(state)
            },
            !declined(auto_confirm, final(session).answers()) ==> match outcome {
                WipeOutcome::Completed => {
                    &&& self.block_size > 0
                    &&& *final(state) == self.snapshot(self.stages().len(), false, 0)
                    &&& final(access).calls() == old(access).calls() + self.wipe_calls()
                    &&& final(access).failures() == old(access).failures()
                    &&& final(session).notices() == old(session).notices() + self.wipe_notices()
                    &&& final(session).polls() == old(session).polls() + self.polls_through(
                        self.stages().len(),
                    )
                },
                WipeOutcome::Failed => {
                    &&& final(session).notices().len() > 0
                    &&& final(session).notices().last().task == *self
                    &&& final(session).notices().last().state == *final(state)
                    &&& final(session).notices().last().event matches WipeEvent::Fatal { error }
                    &&& !(error is Interrupted)
                    &&& final(access).failures() == failures_after(
                        old(access).failures(),
                        Err(error),
                    )
                    &&& final(session).polls() == old(session).polls() + self.run_polls(
                        *final(state),
                        Err(error),
                    )
                    &&& self.run_failed(
                        *old(state),
                        *final(state),
                        error,
                        old(access).calls(),
                        old(session).notices(),
                        final(access).calls(),
                        final(session).notices().drop_last(),
                    )
                },
                WipeOutcome::Aborted => {
                    &&& final(access).failures() == old(access).failures()
                    &&& final(session).polls() == old(session).polls() + self.run_polls(
                        *final(state),
                        Err(WipeError::Interrupted),
                    )
                    &&& self.run_failed(
                        *old(state),
                        *final(state),
                        WipeError::Interrupted,
                        old(access).calls(),
                        old(session).notices(),
                        final(access).calls(),
                        final(session).notices(),
                    )
                },
            },
    {
        if !auto_confirm {
            let ghost answers_before = session.answers();
            let confirmed = session.confirm(device_id, self.scheme.id.as_str(), auto_confirm);
            proof {
                assert(session.answers().drop_last() =~= answers_before);
            }
            if !confirmed {
                return WipeOutcome::Aborted;
            }
        }
        match self.run_confirmed(access, state, session) {
            Ok(_) => WipeOutcome::Completed,
            Err(error) => match error {
                WipeError::Interrupted => WipeOutcome::Aborted,
                error => {
                    let ghost notices_here = session.notices();
                    session.handle(self, state, WipeEvent::Fatal { error });
                    proof {
                        assert(session.notices().drop_last() =~= notices_here);
                    }
                    WipeOutcome::Failed
                },
            },
        }
    }
}

} // verus!
