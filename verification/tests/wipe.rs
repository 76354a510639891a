use lethe::actions::{
    TracedSession, Verify, WipeError, WipeEvent, WipeOutcome, WipeSession, WipeState, WipeTask,
};
use lethe::sanitization::{Scheme, Stage};
use lethe::storage::{StorageAccess, StorageError, TracedAccess};

/// A device in memory that counts what is asked of it and can be made to fail.
struct Disk {
    bytes: Vec<u8>,
    cursor: usize,
    seeks: usize,
    writes: Vec<usize>,
    reads: Vec<usize>,
    flushes: usize,
    fail_write_at: Option<usize>,
    fail_read_at: Option<usize>,
    fail_seek_at: Option<usize>,
    fail_flush_at: Option<usize>,
    corrupt_read: Option<(usize, usize)>,
    short_read_at: Option<usize>,
}

impl Disk {
    fn new(size: usize) -> Disk {
        Disk {
            bytes: (0..size).map(|x| (x % 251) as u8 | 1).collect(),
            cursor: 0,
            seeks: 0,
            writes: Vec::new(),
            reads: Vec::new(),
            flushes: 0,
            fail_write_at: None,
            fail_read_at: None,
            fail_seek_at: None,
            fail_flush_at: None,
            corrupt_read: None,
            short_read_at: None,
        }
    }
}

impl StorageAccess for Disk {
    fn position(&mut self) -> Result<u64, StorageError> {
        Ok(self.cursor as u64)
    }

    fn seek(&mut self, position: u64) -> Result<u64, StorageError> {
        if self.fail_seek_at == Some(self.seeks) {
            self.seeks += 1;
            return Err(StorageError::BadBlock);
        }
        self.seeks += 1;
        self.cursor = position as usize;
        Ok(position)
    }

    fn read(&mut self, buffer: &mut [u8]) -> Result<usize, StorageError> {
        let number = self.reads.len();
        self.reads.push(buffer.len());
        if self.fail_read_at == Some(number) {
            return Err(StorageError::BadBlock);
        }
        let mut count = buffer.len().min(self.bytes.len() - self.cursor);
        if self.short_read_at == Some(number) {
            count -= 1;
        }
        buffer[..count].copy_from_slice(&self.bytes[self.cursor..self.cursor + count]);
        if let Some((at, byte)) = self.corrupt_read {
            if at == number {
                buffer[byte] ^= 0x40;
            }
        }
        self.cursor += count;
        Ok(count)
    }

    fn write(&mut self, data: &[u8]) -> Result<(), StorageError> {
        let number = self.writes.len();
        self.writes.push(data.len());
        if self.fail_write_at == Some(number) {
            return Err(StorageError::BadBlock);
        }
        self.bytes[self.cursor..self.cursor + data.len()].copy_from_slice(data);
        self.cursor += data.len();
        Ok(())
    }

    fn flush(&mut self) -> Result<(), StorageError> {
        self.flushes += 1;
        if self.fail_flush_at == Some(self.flushes - 1) {
            return Err(StorageError::Other(std::io::Error::from_raw_os_error(28)));
        }
        Ok(())
    }
}

/// A session that answers as told and keeps what it hears.
struct Recorder {
    consent: bool,
    stop_at: Option<usize>,
    polls: usize,
    asked: Vec<(String, String, bool)>,
    heard: Vec<String>,
    states: Vec<WipeState>,
}

impl Recorder {
    fn new(consent: bool) -> Recorder {
        Recorder {
            consent,
            stop_at: None,
            polls: 0,
            asked: Vec::new(),
            heard: Vec::new(),
            states: Vec::new(),
        }
    }
}

impl WipeSession for Recorder {
    fn confirm(&mut self, device_id: &str, scheme_id: &str, auto_confirm: bool) -> bool {
        self.asked.push((device_id.to_string(), scheme_id.to_string(), auto_confirm));
        self.consent
    }

    fn interrupted(&mut self) -> bool {
        self.polls += 1;
        self.stop_at == Some(self.polls - 1)
    }

    fn handle(&mut self, _task: &WipeTask, state: &WipeState, event: WipeEvent) {
        self.states.push(*state);
        self.heard.push(match event {
            WipeEvent::Started => "started".to_string(),
            WipeEvent::StageStarted { index } => format!("stage {} started", index),
            WipeEvent::Progress { bytes_written } => format!("written {}", bytes_written),
            WipeEvent::StageCompleted { index } => format!("stage {} completed", index),
            WipeEvent::VerificationStarted => "verification started".to_string(),
            WipeEvent::VerificationProgress { bytes_verified } => {
                format!("verified {}", bytes_verified)
            }
            WipeEvent::VerificationMismatch { offset } => format!("mismatch at {}", offset),
            WipeEvent::VerificationCompleted => "verification completed".to_string(),
            WipeEvent::Completed => "completed".to_string(),
            WipeEvent::Fatal { error } => match error {
                WipeError::BlockSize => "fatal: block size".to_string(),
                WipeError::Open(e) => format!("fatal: open: {}", e.message()),
                WipeError::Seek(e) => format!("fatal: seek: {}", e.message()),
                WipeError::Write(e) => format!("fatal: write: {}", e.message()),
                WipeError::Flush(e) => format!("fatal: flush: {}", e.message()),
                WipeError::Read(e) => format!("fatal: read: {}", e.message()),
                WipeError::Mismatch { offset } => format!("fatal: mismatch at {}", offset),
                WipeError::Interrupted => "fatal: interrupted".to_string(),
            },
        });
    }
}

fn scheme(id: &str, stages: Vec<Stage>) -> Scheme {
    Scheme { id: id.to_string(), description: format!("{} for tests", id), stages }
}

fn run(
    task: &WipeTask,
    disk: Disk,
    consent: bool,
    auto_confirm: bool,
) -> (WipeOutcome, Disk, Recorder, WipeState) {
    run_until(task, disk, consent, auto_confirm, None)
}

fn run_until(
    task: &WipeTask,
    disk: Disk,
    consent: bool,
    auto_confirm: bool,
    stop_at: Option<usize>,
) -> (WipeOutcome, Disk, Recorder, WipeState) {
    let mut access = TracedAccess::new(disk);
    let mut recorder = Recorder::new(consent);
    recorder.stop_at = stop_at;
    let mut session = TracedSession::new(recorder);
    let mut state = WipeState::default();
    let outcome = task.run("/dev/test", auto_confirm, &mut access, &mut state, &mut session);
    (outcome, access.into_inner(), session.into_inner(), state)
}

fn expected_bytes(stage: &Stage, size: u64, block: usize) -> Vec<u8> {
    let mut all: Vec<u8> = Vec::new();
    let mut stream = stage.stream(size, block);
    while let Some(chunk) = stream.next() {
        all.extend_from_slice(chunk);
    }
    all
}

#[test]
fn zero_scheme_verified_last_end_to_end() {
    let task = WipeTask::new(scheme("zero", vec![Stage::zero()]), Verify::Last, 10245, 256);
    let (outcome, disk, session, state) = run(&task, Disk::new(10245), true, false);

    assert_eq!(outcome, WipeOutcome::Completed);
    assert_eq!(disk.writes.len(), 41);
    assert!(disk.writes[..40].iter().all(|n| *n == 256));
    assert_eq!(disk.writes[40], 5);
    assert_eq!(disk.reads.len(), 41);
    assert!(disk.reads[..40].iter().all(|n| *n == 256));
    assert_eq!(disk.reads[40], 5);
    assert!(disk.bytes.iter().all(|b| *b == 0x00));
    assert_eq!(disk.seeks, 2);
    assert_eq!(disk.flushes, 1);
    assert_eq!(session.asked, vec![("/dev/test".to_string(), "zero".to_string(), false)]);

    assert_eq!(session.heard.len(), 1 + 1 + 41 + 1 + 1 + 41 + 1 + 1);
    assert_eq!(session.heard[0], "started");
    assert_eq!(session.heard[1], "stage 0 started");
    assert_eq!(session.heard[2], "written 256");
    assert_eq!(session.heard[42], "written 10245");
    assert_eq!(session.heard[43], "stage 0 completed");
    assert_eq!(session.heard[44], "verification started");
    assert_eq!(session.heard[45], "verified 256");
    assert_eq!(session.heard[85], "verified 10245");
    assert_eq!(session.heard[86], "verification completed");
    assert_eq!(session.heard[87], "completed");

    assert_eq!(
        state,
        WipeState {
            stage: 1,
            verifying: false,
            block: 0,
            position: 0,
            stage_count: 1,
            total_size: 10245
        }
    );
    assert_eq!(
        session.states[42],
        WipeState {
            stage: 0,
            verifying: false,
            block: 41,
            position: 10245,
            stage_count: 1,
            total_size: 10245
        }
    );
    assert_eq!(
        session.states[45],
        WipeState {
            stage: 0,
            verifying: true,
            block: 1,
            position: 256,
            stage_count: 1,
            total_size: 10245
        }
    );
}

#[test]
fn three_passes_leave_the_last_pattern() {
    let stages = vec![Stage::zero(), Stage::one(), Stage::random_with_seed(42)];
    let task = WipeTask::new(scheme("dod", stages), Verify::No, 1000, 64);
    let (outcome, disk, session, _) = run(&task, Disk::new(1000), true, true);

    assert_eq!(outcome, WipeOutcome::Completed);
    assert_eq!(disk.bytes, expected_bytes(&Stage::random_with_seed(42), 1000, 64));
    assert_eq!(disk.writes.len(), 3 * 16);
    assert_eq!(disk.reads.len(), 0);
    assert_eq!(disk.seeks, 3);
    assert_eq!(disk.flushes, 3);
    assert!(session.asked.is_empty());
    let order: Vec<&String> =
        session.heard.iter().filter(|e| e.starts_with("stage")).collect();
    assert_eq!(
        order,
        vec![
            "stage 0 started",
            "stage 0 completed",
            "stage 1 started",
            "stage 1 completed",
            "stage 2 started",
            "stage 2 completed"
        ]
    );
}

#[test]
fn verify_last_reads_back_the_final_stage_only() {
    let stages = vec![Stage::zero(), Stage::one(), Stage::random_with_seed(7)];
    let task = WipeTask::new(scheme("dod", stages), Verify::Last, 1000, 64);
    let (outcome, disk, session, _) = run(&task, Disk::new(1000), true, true);

    assert_eq!(outcome, WipeOutcome::Completed);
    assert_eq!(disk.writes.len(), 48);
    assert_eq!(disk.reads.len(), 16);
    let started = session.heard.iter().position(|e| e == "verification started").unwrap();
    let last_stage = session.heard.iter().position(|e| e == "stage 2 completed").unwrap();
    assert_eq!(started, last_stage + 1);
    assert_eq!(session.heard.iter().filter(|e| *e == "verification started").count(), 1);
}

#[test]
fn verify_all_reads_back_every_stage_before_the_next() {
    let stages = vec![Stage::zero(), Stage::random_with_seed(9)];
    let task = WipeTask::new(scheme("gost", stages), Verify::All, 300, 128);
    let (outcome, disk, session, _) = run(&task, Disk::new(300), true, true);

    assert_eq!(outcome, WipeOutcome::Completed);
    assert_eq!(disk.writes, vec![128, 128, 44, 128, 128, 44]);
    assert_eq!(disk.reads, vec![128, 128, 44, 128, 128, 44]);
    assert_eq!(
        session.heard,
        vec![
            "started",
            "stage 0 started",
            "written 128",
            "written 256",
            "written 300",
            "stage 0 completed",
            "verification started",
            "verified 128",
            "verified 256",
            "verified 300",
            "verification completed",
            "stage 1 started",
            "written 128",
            "written 256",
            "written 300",
            "stage 1 completed",
            "verification started",
            "verified 128",
            "verified 256",
            "verified 300",
            "verification completed",
            "completed"
        ]
    );
}

#[test]
fn one_differing_byte_fails_the_run_once() {
    let task = WipeTask::new(scheme("one", vec![Stage::one()]), Verify::Last, 1000, 100);
    let mut disk = Disk::new(1000);
    disk.corrupt_read = Some((3, 17));
    let (outcome, disk, session, state) = run(&task, disk, true, true);

    assert_eq!(outcome, WipeOutcome::Failed);
    assert_eq!(disk.reads.len(), 4);
    assert_eq!(session.heard.iter().filter(|e| e.starts_with("mismatch")).count(), 1);
    let count = session.heard.len();
    assert_eq!(session.heard[count - 2], "mismatch at 317");
    assert_eq!(session.heard[count - 1], "fatal: mismatch at 317");
    assert_eq!(session.heard[count - 3], "verified 300");
    assert_eq!(state.stage, 0);
    assert!(state.verifying);
    assert_eq!(state.block, 3);
    assert_eq!(state.position, 300);
}

#[test]
fn short_read_counts_as_a_mismatch_at_the_first_missing_byte() {
    let task = WipeTask::new(scheme("zero", vec![Stage::zero()]), Verify::All, 250, 100);
    let mut disk = Disk::new(250);
    disk.short_read_at = Some(1);
    let (outcome, disk, session, _) = run(&task, disk, true, true);

    assert_eq!(outcome, WipeOutcome::Failed);
    assert_eq!(disk.reads, vec![100, 100]);
    assert_eq!(session.heard.last().unwrap(), "fatal: mismatch at 199");
}

#[test]
fn declining_touches_nothing() {
    let task = WipeTask::new(scheme("zero", vec![Stage::zero()]), Verify::Last, 512, 64);
    let (outcome, disk, session, state) = run(&task, Disk::new(512), false, false);

    assert_eq!(outcome, WipeOutcome::Aborted);
    assert_eq!(disk.writes.len(), 0);
    assert_eq!(disk.reads.len(), 0);
    assert_eq!(disk.seeks, 0);
    assert_eq!(disk.flushes, 0);
    assert_eq!(disk.bytes, Disk::new(512).bytes);
    assert!(session.heard.is_empty());
    assert_eq!(session.asked.len(), 1);
    assert_eq!(state, WipeState::default());
}

#[test]
fn auto_confirm_does_not_ask() {
    let task = WipeTask::new(scheme("zero", vec![Stage::zero()]), Verify::No, 512, 64);
    let (outcome, disk, session, _) = run(&task, Disk::new(512), false, true);

    assert_eq!(outcome, WipeOutcome::Completed);
    assert!(session.asked.is_empty());
    assert!(disk.bytes.iter().all(|b| *b == 0));
}

#[test]
fn failed_write_stops_the_run_where_it_stands() {
    let stages = vec![Stage::zero(), Stage::one()];
    let task = WipeTask::new(scheme("two", stages), Verify::All, 1000, 100);
    let mut disk = Disk::new(1000);
    disk.fail_write_at = Some(12);
    let (outcome, disk, session, state) = run(&task, disk, true, true);

    assert_eq!(outcome, WipeOutcome::Failed);
    assert_eq!(disk.writes.len(), 13);
    assert_eq!(disk.reads.len(), 10);
    assert_eq!(session.heard.last().unwrap(), "fatal: write: bad block");
    assert_eq!(session.heard[session.heard.len() - 2], "written 200");
    assert_eq!(state.stage, 1);
    assert!(!state.verifying);
    assert_eq!(state.block, 2);
    assert_eq!(state.position, 200);
    assert!(disk.bytes[..200].iter().all(|b| *b == 0xff));
    assert!(disk.bytes[200..].iter().all(|b| *b == 0x00));
}

#[test]
fn failed_read_and_failed_seek_are_fatal() {
    let task = WipeTask::new(scheme("zero", vec![Stage::zero()]), Verify::Last, 300, 100);
    let mut disk = Disk::new(300);
    disk.fail_read_at = Some(0);
    let (outcome, disk, session, _) = run(&task, disk, true, true);
    assert_eq!(outcome, WipeOutcome::Failed);
    assert_eq!(disk.reads.len(), 1);
    assert_eq!(session.heard.last().unwrap(), "fatal: read: bad block");

    let mut disk = Disk::new(300);
    disk.fail_seek_at = Some(0);
    let (outcome, disk, session, _) = run(&task, disk, true, true);
    assert_eq!(outcome, WipeOutcome::Failed);
    assert_eq!(disk.writes.len(), 0);
    assert_eq!(session.heard, vec!["started", "stage 0 started", "fatal: seek: bad block"]);
}

#[test]
fn blocks_of_no_bytes_are_refused_before_the_device_is_touched() {
    let task = WipeTask::new(scheme("zero", vec![Stage::zero()]), Verify::Last, 300, 0);
    let (outcome, disk, session, state) = run(&task, Disk::new(300), true, true);

    assert_eq!(outcome, WipeOutcome::Failed);
    assert_eq!(disk.seeks + disk.writes.len() + disk.reads.len() + disk.flushes, 0);
    assert_eq!(session.heard, vec!["fatal: block size"]);
    assert_eq!(state, WipeState::default());
}

#[test]
fn empty_device_and_empty_scheme_complete() {
    let task = WipeTask::new(scheme("zero", vec![Stage::zero()]), Verify::All, 0, 64);
    let (outcome, disk, session, _) = run(&task, Disk::new(0), true, true);
    assert_eq!(outcome, WipeOutcome::Completed);
    assert_eq!(disk.writes.len(), 0);
    assert_eq!(disk.reads.len(), 0);
    assert_eq!(disk.seeks, 2);
    assert_eq!(
        session.heard,
        vec![
            "started",
            "stage 0 started",
            "stage 0 completed",
            "verification started",
            "verification completed",
            "completed"
        ]
    );

    let task = WipeTask::new(scheme("none", vec![]), Verify::All, 100, 64);
    let (outcome, disk, session, _) = run(&task, Disk::new(100), true, true);
    assert_eq!(outcome, WipeOutcome::Completed);
    assert_eq!(disk.seeks, 0);
    assert_eq!(session.heard, vec!["started", "completed"]);
}

#[test]
fn failed_flush_fails_the_stage_before_it_is_reported_complete() {
    let stages = vec![Stage::zero(), Stage::one()];
    let task = WipeTask::new(scheme("two", stages), Verify::All, 300, 100);
    let mut disk = Disk::new(300);
    disk.fail_flush_at = Some(1);
    let (outcome, disk, session, state) = run(&task, disk, true, true);

    assert_eq!(outcome, WipeOutcome::Failed);
    assert_eq!(disk.writes.len(), 6);
    assert_eq!(disk.reads.len(), 3);
    assert_eq!(disk.flushes, 2);
    assert_eq!(session.heard.last().unwrap(), "fatal: flush: other i/o error");
    assert_eq!(session.heard[session.heard.len() - 2], "written 300");
    assert!(!session.heard.contains(&"stage 1 completed".to_string()));
    assert_eq!(state.stage, 1);
    assert_eq!(state.block, 3);
    assert_eq!(state.position, 300);
}

#[test]
fn seek_before_the_read_back_may_fail_too() {
    let task = WipeTask::new(scheme("zero", vec![Stage::zero()]), Verify::Last, 300, 100);
    let mut disk = Disk::new(300);
    disk.fail_seek_at = Some(1);
    let (outcome, disk, session, state) = run(&task, disk, true, true);

    assert_eq!(outcome, WipeOutcome::Failed);
    assert_eq!(disk.writes.len(), 3);
    assert_eq!(disk.reads.len(), 0);
    let count = session.heard.len();
    assert_eq!(session.heard[count - 1], "fatal: seek: bad block");
    assert_eq!(session.heard[count - 2], "verification started");
    assert!(state.verifying);
    assert_eq!(state.block, 0);
}

#[test]
fn interruption_aborts_between_two_blocks() {
    let stages = vec![Stage::zero(), Stage::one()];
    let task = WipeTask::new(scheme("two", stages), Verify::All, 300, 100);
    let (outcome, disk, session, state) = run_until(&task, Disk::new(300), true, true, Some(7));

    assert_eq!(outcome, WipeOutcome::Aborted);
    assert_eq!(session.polls, 8);
    assert_eq!(disk.writes.len(), 4);
    assert_eq!(disk.reads.len(), 3);
    assert_eq!(session.heard.last().unwrap(), "written 100");
    assert!(!session.heard.iter().any(|e| e.starts_with("fatal")));
    assert_eq!(
        state,
        WipeState {
            stage: 1,
            verifying: false,
            block: 1,
            position: 100,
            stage_count: 2,
            total_size: 300
        }
    );
    assert!(disk.bytes[..100].iter().all(|b| *b == 0xff));
    assert!(disk.bytes[100..].iter().all(|b| *b == 0x00));
}

#[test]
fn interruption_before_the_first_block_leaves_the_device_as_it_was() {
    let task = WipeTask::new(scheme("zero", vec![Stage::zero()]), Verify::Last, 300, 100);
    let (outcome, disk, session, state) = run_until(&task, Disk::new(300), true, true, Some(0));

    assert_eq!(outcome, WipeOutcome::Aborted);
    assert_eq!(disk.writes.len(), 0);
    assert_eq!(disk.seeks, 1);
    assert_eq!(disk.bytes, Disk::new(300).bytes);
    assert_eq!(session.heard, vec!["started", "stage 0 started"]);
    assert_eq!(state.block, 0);
}

#[test]
fn interruption_during_the_read_back_stops_it() {
    let task = WipeTask::new(scheme("zero", vec![Stage::zero()]), Verify::Last, 300, 100);
    let (outcome, disk, session, state) = run_until(&task, Disk::new(300), true, true, Some(4));

    assert_eq!(outcome, WipeOutcome::Aborted);
    assert_eq!(disk.writes.len(), 3);
    assert_eq!(disk.reads.len(), 1);
    assert_eq!(session.heard.last().unwrap(), "verified 100");
    assert!(state.verifying);
    assert_eq!(state.block, 1);
}

#[test]
fn a_run_asks_before_every_block_whether_to_stop() {
    let stages = vec![Stage::zero(), Stage::one()];
    let task = WipeTask::new(scheme("two", stages), Verify::Last, 300, 100);
    let (outcome, _, session, _) = run(&task, Disk::new(300), true, true);
    assert_eq!(outcome, WipeOutcome::Completed);
    assert_eq!(session.polls, 9);
}
