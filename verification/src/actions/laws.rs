//! What the histories of a run amount to.
//!
//! The engine's contracts say which requests a run makes and which events it
//! reports. The laws here draw from them what an operator relies on: what a
//! device holds after a run, which stages are read back and when, and how a
//! byte that was not read back as written shows.

use crate::actions::wipe::pass_calls;
use crate::actions::wipe::seek_call;
use crate::actions::wipe::Notice;
use crate::actions::wipe::Verify;
use crate::actions::wipe::WipeError;
use crate::actions::wipe::WipeEvent;
use crate::actions::wipe::WipeState;
use crate::actions::wipe::WipeTask;
use crate::sanitization::stage::block_count;
use crate::sanitization::stage::block_length;
use crate::sanitization::stage::block_start;
use crate::sanitization::stage::lemma_block_count;
use crate::sanitization::stage::lemma_block_length;
use crate::sanitization::stage::lemma_stage_block_len;
use crate::sanitization::stage::stage_block;
use crate::sanitization::stage::stream_bytes;
use crate::sanitization::stage::stream_prefix;
use crate::sanitization::Stage;
use crate::storage::StorageCall;
use vstd::prelude::*;

verus! {

/// A device that keeps every byte it is given: its bytes, and the offset that
/// it stands at.
pub struct Medium {
    pub bytes: Seq<u8>,
    pub cursor: nat,
}

/// The medium after one request that ended as `call` says. A write that went
/// well and fits puts its bytes at the offset and moves past them; a seek that
/// went well moves to its offset; a read moves past what it delivered.
pub open spec fn apply(medium: Medium, call: StorageCall) -> Medium {
    match call {
        StorageCall::Position { offset } => medium,
        StorageCall::Seek { offset, done } => if done {
            Medium { bytes: medium.bytes, cursor: offset as nat }
        } else {
            medium
        },
        StorageCall::Read { length, data } => match data {
            Some(delivered) => Medium {
                bytes: medium.bytes,
                cursor: medium.cursor + delivered.len(),
            },
            None => medium,
        },
        StorageCall::Write { data, done } => if done && medium.cursor + data.len()
            <= medium.bytes.len() {
            Medium {
                bytes: medium.bytes.take(medium.cursor as int) + data + medium.bytes.skip(
                    (medium.cursor + data.len()) as int,
                ),
                cursor: medium.cursor + data.len(),
            }
        } else {
            medium
        },
        StorageCall::Flush { done } => medium,
    }
}

/// The medium after the requests `calls`, in order.
pub open spec fn replay(medium: Medium, calls: Seq<StorageCall>) -> Medium
    decreases calls.len(),
{
    if calls.len() == 0 {
        medium
    } else {
        apply(replay(medium, calls.drop_last()), calls.last())
    }
}

/// Whether none of the requests `calls` is a read.
pub open spec fn reads_nothing(calls: Seq<StorageCall>) -> bool {
    forall|i: int| 0 <= i < calls.len() ==> !(#[trigger] calls[i] is Read)
}

/// The bytes that the reads among `calls` delivered, in order.
pub open spec fn read_back(calls: Seq<StorageCall>) -> Seq<u8>
    decreases calls.len(),
{
    if calls.len() == 0 {
        Seq::empty()
    } else {
        match calls.last() {
            StorageCall::Read { length, data: Some(delivered) } => read_back(calls.drop_last())
                + delivered,
            _ => read_back(calls.drop_last()),
        }
    }
}

/// The number of events among `notices` that name a byte not read back as
/// written.
pub open spec fn mismatches(notices: Seq<Notice>) -> nat
    decreases notices.len(),
{
    if notices.len() == 0 {
        0
    } else {
        mismatches(notices.drop_last()) + (if notices.last().event is VerificationMismatch {
            1nat
        } else {
            0nat
        })
    }
}

proof fn lemma_replay_push(medium: Medium, calls: Seq<StorageCall>, call: StorageCall)
    ensures
        replay(medium, calls.push(call)) == apply(replay(medium, calls), call),
{
    assert(calls.push(call).drop_last() =~= calls);
}

proof fn lemma_replay_concat(medium: Medium, first: Seq<StorageCall>, second: Seq<StorageCall>)
    ensures
        replay(medium, first + second) == replay(replay(medium, first), second),
    decreases second.len(),
{
    if second.len() == 0 {
        assert(first + second =~= first);
    } else {
        lemma_replay_concat(medium, first, second.drop_last());
        assert((first + second).drop_last() =~= first + second.drop_last());
    }
}

proof fn lemma_replay_keeps_length(medium: Medium, calls: Seq<StorageCall>)
    ensures
        replay(medium, calls).bytes.len() == medium.bytes.len(),
    decreases calls.len(),
{
    if calls.len() > 0 {
        lemma_replay_keeps_length(medium, calls.drop_last());
    }
}

proof fn lemma_replay_writes(
    stage: Stage,
    total_size: nat,
    block_size: nat,
    medium: Medium,
    blocks: nat,
)
    requires
        block_size > 0,
        medium.bytes.len() == total_size,
        medium.cursor == 0,
        blocks <= block_count(total_size, block_size),
    ensures
        replay(medium, pass_calls(stage, total_size, block_size, false, blocks)).cursor
            == block_start(total_size, block_size, blocks),
        replay(medium, pass_calls(stage, total_size, block_size, false, blocks)).bytes.len()
            == total_size,
        replay(medium, pass_calls(stage, total_size, block_size, false, blocks)).bytes.take(
            block_start(total_size, block_size, blocks) as int,
        ) == stream_prefix(stage, total_size, block_size, blocks),
    decreases blocks,
{
    let after = replay(medium, pass_calls(stage, total_size, block_size, false, blocks));
    if blocks == 0 {
        assert(0 * block_size == 0) by (nonlinear_arith);
        assert(after.bytes.take(0) =~= Seq::<u8>::empty());
    } else {
        let before = (blocks - 1) as nat;
        let earlier = pass_calls(stage, total_size, block_size, false, before);
        let block = stage_block(stage, total_size, block_size, before);
        lemma_replay_writes(stage, total_size, block_size, medium, before);
        lemma_replay_push(medium, earlier, StorageCall::Write { data: block, done: true });
        lemma_block_length(total_size, block_size, before);
        lemma_block_count(total_size, block_size, before);
        lemma_stage_block_len(stage, total_size, block_size, before);
        let mid = replay(medium, earlier);
        let start = block_start(total_size, block_size, before) as int;
        assert(mid.cursor + block.len() <= mid.bytes.len());
        assert(after.bytes.take(start + block.len()) =~= mid.bytes.take(start) + block);
    }
}

proof fn lemma_replay_reads(
    stage: Stage,
    total_size: nat,
    block_size: nat,
    medium: Medium,
    blocks: nat,
)
    ensures
        replay(medium, pass_calls(stage, total_size, block_size, true, blocks)).bytes
            == medium.bytes,
    decreases blocks,
{
    if blocks > 0 {
        let before = (blocks - 1) as nat;
        lemma_replay_reads(stage, total_size, block_size, medium, before);
        lemma_replay_push(
            medium,
            pass_calls(stage, total_size, block_size, true, before),
            StorageCall::Read {
                length: block_length(total_size, block_size, before),
                data: Some(stage_block(stage, total_size, block_size, before)),
            },
        );
    }
}

proof fn lemma_replay_one(medium: Medium, call: StorageCall)
    ensures
        replay(medium, seq![call]) == apply(medium, call),
{
    assert(seq![call] =~= Seq::<StorageCall>::empty().push(call));
    lemma_replay_push(medium, Seq::empty(), call);
}

/// After the write pass of a stage the medium holds the stream of that stage,
/// whatever it held before.
pub proof fn lemma_write_pass_overwrites(task: WipeTask, index: nat, medium: Medium)
    requires
        task.block_size > 0,
        index < task.stages().len(),
        medium.bytes.len() == task.total_size,
    ensures
        replay(medium, task.written(index)).bytes == stream_bytes(
            task.stages()[index as int],
            task.total_size as nat,
            task.block_size as nat,
        ),
{
    let total = task.total_size as nat;
    let size = task.block_size as nat;
    let stage = task.stages()[index as int];
    let count = task.blocks();
    let pass = task.pass(index, false, count);
    let rewound = Medium { bytes: medium.bytes, cursor: 0 };
    lemma_replay_push(medium, seq![seek_call(true)] + pass, StorageCall::Flush { done: true });
    lemma_replay_concat(medium, seq![seek_call(true)], pass);
    lemma_replay_one(medium, seek_call(true));
    lemma_replay_writes(stage, total, size, rewound, count);
    lemma_block_count(total, size, count);
    let after = replay(rewound, pass);
    assert(after.bytes.take(total as int) =~= after.bytes);
}

/// A read-back changes nothing on the medium.
pub proof fn lemma_read_back_changes_nothing(task: WipeTask, index: nat, medium: Medium)
    requires
        index < task.stages().len(),
    ensures
        replay(medium, task.verified(index)).bytes == medium.bytes,
{
    let pass = task.pass(index, true, task.blocks());
    lemma_replay_concat(medium, seq![seek_call(true)], pass);
    lemma_replay_one(medium, seek_call(true));
    lemma_replay_reads(
        task.stages()[index as int],
        task.total_size as nat,
        task.block_size as nat,
        Medium { bytes: medium.bytes, cursor: 0 },
        task.blocks(),
    );
}

/// Scheme ordering. On a device that keeps what it is given, the first
/// `stages` stages of a run leave the stream of the last of them and nothing
/// of the stages before it: each stage overwrites the one before. After a
/// whole run the device holds the stream of the last stage of the scheme.
pub proof fn lemma_last_stage_remains(task: WipeTask, stages: nat, medium: Medium)
    requires
        task.block_size > 0,
        0 < stages <= task.stages().len(),
        medium.bytes.len() == task.total_size,
    ensures
        replay(medium, task.calls_through(stages)).bytes == stream_bytes(
            task.stages()[stages - 1],
            task.total_size as nat,
            task.block_size as nat,
        ),
        stages == task.stages().len() ==> replay(medium, task.wipe_calls()).bytes == stream_bytes(
            task.stages().last(),
            task.total_size as nat,
            task.block_size as nat,
        ),
{
    let index = (stages - 1) as nat;
    let earlier = task.calls_through(index);
    let reached = replay(medium, earlier);
    lemma_replay_keeps_length(medium, earlier);
    lemma_replay_concat(medium, earlier, task.stage_calls(index));
    lemma_write_pass_overwrites(task, index, reached);
    if task.verifies(index) {
        let written = replay(reached, task.written(index));
        lemma_replay_concat(reached, task.written(index), task.verified(index));
        lemma_read_back_changes_nothing(task, index, written);
    }
}

proof fn lemma_write_pass_reads_nothing(
    stage: Stage,
    total_size: nat,
    block_size: nat,
    blocks: nat,
)
    ensures
        reads_nothing(pass_calls(stage, total_size, block_size, false, blocks)),
    decreases blocks,
{
    if blocks > 0 {
        lemma_write_pass_reads_nothing(stage, total_size, block_size, (blocks - 1) as nat);
    }
}

/// A stage that is not read back receives no read: its requests are a seek,
/// its writes and a flush.
pub proof fn lemma_unverified_stage_is_not_read(task: WipeTask, index: nat)
    requires
        index < task.stages().len(),
        !task.verifies(index),
    ensures
        task.stage_calls(index) == task.written(index),
        reads_nothing(task.stage_calls(index)),
{
    lemma_write_pass_reads_nothing(
        task.stages()[index as int],
        task.total_size as nat,
        task.block_size as nat,
        task.blocks(),
    );
}

/// Verify = Last. Only the last stage is read back: every stage before it
/// receives no read at all, and the last is read back right after it was
/// written.
pub proof fn lemma_verify_last(task: WipeTask, index: nat)
    requires
        task.verification == Verify::Last,
        index < task.stages().len(),
    ensures
        index + 1 < task.stages().len() ==> reads_nothing(task.stage_calls(index)),
        index + 1 == task.stages().len() ==> task.stage_calls(index) == task.written(index)
            + task.verified(index),
{
    if index + 1 < task.stages().len() {
        lemma_unverified_stage_is_not_read(task, index);
    }
}

/// Verify = No. No stage is read back: the first stages of a run make no
/// read, however many are taken, and so a whole run makes none.
pub proof fn lemma_verify_no(task: WipeTask, stages: nat)
    requires
        task.verification == Verify::No,
        stages <= task.stages().len(),
    ensures
        reads_nothing(task.calls_through(stages)),
        stages == task.stages().len() ==> reads_nothing(task.wipe_calls()),
    decreases stages,
{
    if stages > 0 {
        lemma_verify_no(task, (stages - 1) as nat);
        lemma_unverified_stage_is_not_read(task, (stages - 1) as nat);
    }
}

proof fn lemma_read_back_push(calls: Seq<StorageCall>, call: StorageCall)
    ensures
        read_back(calls.push(call)) == (match call {
            StorageCall::Read { length, data: Some(delivered) } => read_back(calls) + delivered,
            _ => read_back(calls),
        }),
{
    assert(calls.push(call).drop_last() =~= calls);
}

proof fn lemma_read_back_concat(first: Seq<StorageCall>, second: Seq<StorageCall>)
    ensures
        read_back(first + second) == read_back(first) + read_back(second),
    decreases second.len(),
{
    if second.len() == 0 {
        assert(first + second =~= first);
        assert(read_back(first) + read_back(second) =~= read_back(first));
    } else {
        lemma_read_back_concat(first, second.drop_last());
        assert((first + second).drop_last() =~= first + second.drop_last());
        match second.last() {
            StorageCall::Read { length, data: Some(delivered) } => {
                assert(read_back(first + second) =~= read_back(first) + read_back(second));
            },
            _ => {},
        }
    }
}

proof fn lemma_read_back_of_pass(stage: Stage, total_size: nat, block_size: nat, blocks: nat)
    ensures
        read_back(pass_calls(stage, total_size, block_size, true, blocks)) == stream_prefix(
            stage,
            total_size,
            block_size,
            blocks,
        ),
    decreases blocks,
{
    if blocks > 0 {
        let before = (blocks - 1) as nat;
        lemma_read_back_of_pass(stage, total_size, block_size, before);
        lemma_read_back_push(
            pass_calls(stage, total_size, block_size, true, before),
            StorageCall::Read {
                length: block_length(total_size, block_size, before),
                data: Some(stage_block(stage, total_size, block_size, before)),
            },
        );
    }
}

/// The read-back of a stage is full: what its reads deliver is the whole
/// stream of the stage, from the first byte to the last.
pub proof fn lemma_read_back_is_full(task: WipeTask, index: nat)
    requires
        index < task.stages().len(),
    ensures
        read_back(task.verified(index)) == stream_bytes(
            task.stages()[index as int],
            task.total_size as nat,
            task.block_size as nat,
        ),
{
    let pass = task.pass(index, true, task.blocks());
    lemma_read_back_concat(seq![seek_call(true)], pass);
    assert(seq![seek_call(true)] =~= Seq::<StorageCall>::empty().push(seek_call(true)));
    lemma_read_back_push(Seq::empty(), seek_call(true));
    assert(read_back(seq![seek_call(true)]) =~= Seq::<u8>::empty());
    assert(read_back(seq![seek_call(true)]) + read_back(pass) =~= read_back(pass));
    lemma_read_back_of_pass(
        task.stages()[index as int],
        task.total_size as nat,
        task.block_size as nat,
        task.blocks(),
    );
}

/// Verify = All. Every stage is followed at once by its full read-back: the
/// requests through a stage are those before it, then its write pass, then its
/// read-back, and only then does the next stage begin.
pub proof fn lemma_verify_all(task: WipeTask, index: nat)
    requires
        task.verification == Verify::All,
        index < task.stages().len(),
    ensures
        task.calls_through(index + 1) == task.calls_through(index) + task.written(index)
            + task.verified(index),
        task.notices_through(index + 1) == task.notices_through(index) + task.written_notices(
            index,
        ) + task.verified_notices(index),
        read_back(task.verified(index)) == stream_bytes(
            task.stages()[index as int],
            task.total_size as nat,
            task.block_size as nat,
        ),
{
    lemma_read_back_is_full(task, index);
    assert(task.calls_through(index + 1) =~= task.calls_through(index) + task.written(index)
        + task.verified(index));
    assert(task.notices_through(index + 1) =~= task.notices_through(index)
        + task.written_notices(index) + task.verified_notices(index));
}

proof fn lemma_mismatches_push(notices: Seq<Notice>, notice: Notice)
    ensures
        mismatches(notices.push(notice)) == mismatches(notices) + (if notice.event
            is VerificationMismatch {
            1nat
        } else {
            0nat
        }),
{
    assert(notices.push(notice).drop_last() =~= notices);
}

proof fn lemma_mismatches_concat(first: Seq<Notice>, second: Seq<Notice>)
    ensures
        mismatches(first + second) == mismatches(first) + mismatches(second),
    decreases second.len(),
{
    if second.len() == 0 {
        assert(first + second =~= first);
    } else {
        lemma_mismatches_concat(first, second.drop_last());
        assert((first + second).drop_last() =~= first + second.drop_last());
    }
}

proof fn lemma_mismatches_one(notice: Notice)
    ensures
        mismatches(seq![notice]) == (if notice.event is VerificationMismatch {
            1nat
        } else {
            0nat
        }),
{
    assert(seq![notice] =~= Seq::<Notice>::empty().push(notice));
    lemma_mismatches_push(Seq::empty(), notice);
}

proof fn lemma_progress_names_no_mismatch(
    task: WipeTask,
    index: nat,
    verifying: bool,
    blocks: nat,
)
    ensures
        mismatches(task.progress(index, verifying, blocks)) == 0,
    decreases blocks,
{
    if blocks > 0 {
        lemma_progress_names_no_mismatch(task, index, verifying, (blocks - 1) as nat);
        lemma_mismatches_push(
            task.progress(index, verifying, (blocks - 1) as nat),
            task.progress_notice(index, verifying, blocks),
        );
    }
}

proof fn lemma_written_names_no_mismatch(task: WipeTask, index: nat)
    ensures
        mismatches(task.written_notices(index)) == 0,
{
    let started = Notice { task,
        state: task.snapshot(index, false, 0),
        event: WipeEvent::StageStarted { index: index as usize },
    };
    let completed = Notice { task,
        state: task.snapshot(index, false, task.blocks()),
        event: WipeEvent::StageCompleted { index: index as usize },
    };
    let progress = task.progress(index, false, task.blocks());
    lemma_mismatches_push(seq![started] + progress, completed);
    lemma_mismatches_concat(seq![started], progress);
    lemma_mismatches_one(started);
    lemma_progress_names_no_mismatch(task, index, false, task.blocks());
}

proof fn lemma_verified_names_no_mismatch(task: WipeTask, index: nat)
    ensures
        mismatches(task.verified_notices(index)) == 0,
{
    let started = Notice { task,
        state: task.snapshot(index, true, 0),
        event: WipeEvent::VerificationStarted,
    };
    let completed = Notice { task,
        state: task.snapshot(index, true, task.blocks()),
        event: WipeEvent::VerificationCompleted,
    };
    let progress = task.progress(index, true, task.blocks());
    lemma_mismatches_push(seq![started] + progress, completed);
    lemma_mismatches_concat(seq![started], progress);
    lemma_mismatches_one(started);
    lemma_progress_names_no_mismatch(task, index, true, task.blocks());
}

/// Stages that go well report no byte as not read back as written, and
/// neither does a run that completes.
pub proof fn lemma_good_stages_name_no_mismatch(task: WipeTask, stages: nat)
    ensures
        mismatches(task.notices_through(stages)) == 0,
        stages == task.stages().len() ==> mismatches(task.wipe_notices()) == 0,
    decreases stages,
{
    if stages == 0 {
        lemma_mismatches_one(
            Notice { task, state: task.snapshot(0, false, 0), event: WipeEvent::Started },
        );
    } else {
        let index = (stages - 1) as nat;
        lemma_good_stages_name_no_mismatch(task, index);
        lemma_mismatches_concat(task.notices_through(index), task.stage_notices(index));
        lemma_written_names_no_mismatch(task, index);
        if task.verifies(index) {
            lemma_mismatches_concat(task.written_notices(index), task.verified_notices(index));
            lemma_verified_names_no_mismatch(task, index);
        }
    }
    let all = task.stages().len();
    if stages == all {
        lemma_mismatches_push(
            task.notices_through(all),
            Notice { task, state: task.snapshot(all, false, 0), event: WipeEvent::Completed },
        );
    }
}

/// Mismatch propagation. When a run fails because a byte was not read back as
/// it was written, the failing read is the last request made of the device,
/// so no further block is processed; every request before it went well; and
/// the run has reported exactly one mismatch, as the last event before the
/// failure itself, naming the first byte that was not confirmed.
pub proof fn lemma_mismatch_is_reported_once(
    task: WipeTask,
    before: WipeState,
    state: WipeState,
    offset: u64,
    calls_before: Seq<StorageCall>,
    notices_before: Seq<Notice>,
    calls: Seq<StorageCall>,
    notices: Seq<Notice>,
)
    requires
        task.run_failed(
            before,
            state,
            WipeError::Mismatch { offset },
            calls_before,
            notices_before,
            calls,
            notices,
        ),
    ensures
        state.verifying,
        calls.len() > 0,
        calls.last() is Read,
        calls.drop_last() == calls_before + task.calls_through(state.stage as nat) + task.written(
            state.stage as nat,
        ) + (seq![seek_call(true)] + task.pass(state.stage as nat, true, state.block as nat)),
        notices.len() > 0,
        notices.last() == (Notice { task, state, event: WipeEvent::VerificationMismatch { offset } }),
        mismatches(notices) == mismatches(notices_before) + 1,
        block_start(task.total_size as nat, task.block_size as nat, state.block as nat) <= offset
            < block_start(task.total_size as nat, task.block_size as nat, state.block as nat + 1),
{
    let error = WipeError::Mismatch { offset };
    let index = state.stage as nat;
    let blocks = state.block as nat;
    let total = task.total_size as nat;
    let size = task.block_size as nat;
    let named = Notice { task, state, event: WipeEvent::VerificationMismatch { offset } };
    let started = Notice { task,
        state: task.snapshot(index, true, 0),
        event: WipeEvent::VerificationStarted,
    };
    let good = notices_before + task.notices_through(index) + task.written_notices(index)
        + seq![started] + task.progress(index, true, blocks);
    assert(calls.drop_last() =~= calls_before + task.calls_through(index) + task.written(index)
        + (seq![seek_call(true)] + task.pass(index, true, blocks)));
    assert(notices =~= good.push(named));
    lemma_mismatches_push(good, named);
    lemma_mismatches_concat(
        notices_before + task.notices_through(index) + task.written_notices(index) + seq![started],
        task.progress(index, true, blocks),
    );
    lemma_mismatches_concat(
        notices_before + task.notices_through(index) + task.written_notices(index),
        seq![started],
    );
    lemma_mismatches_concat(
        notices_before + task.notices_through(index),
        task.written_notices(index),
    );
    lemma_mismatches_concat(notices_before, task.notices_through(index));
    lemma_mismatches_one(started);
    lemma_progress_names_no_mismatch(task, index, true, blocks);
    lemma_written_names_no_mismatch(task, index);
    lemma_good_stages_name_no_mismatch(task, index);
    lemma_stage_block_len(task.stages()[index as int], total, size, blocks);
    lemma_block_length(total, size, blocks);
}

} // verus!
