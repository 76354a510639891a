//! Storage on Unix: how failures of the system are told apart, and what has
//! to be unmounted before a device is opened.

pub mod linux;

use crate::storage::StorageError;
use crate::storage::StorageRef;
use vstd::prelude::*;

verus! {

/// The error number that the system gave with a failure, if it gave one.
pub uninterp spec fn os_error_code(error: std::io::Error) -> Option<i32>;

/// `std::io::Error::raw_os_error`.
///
/// Believed: the number depends on the error alone.
#[verifier::external_body]
fn raw_os_error(error: &std::io::Error) -> (code: Option<i32>)
    ensures
        code == os_error_code(*error),
{
    error.raw_os_error()
}

/// `libc::EIO`: the number by which this system reports an input/output
/// error. Nothing is claimed of the number: it differs between systems.
#[verifier::external_body]
fn io_error_number() -> i32 {
    libc::EIO
}

/// `libc::ESPIPE`: the number by which this system reports an illegal seek.
/// Nothing is claimed of the number: it differs between systems.
#[verifier::external_body]
fn illegal_seek_number() -> i32 {
    libc::ESPIPE
}

/// Whether a failure with the error number `code` is a failure of the
/// medium, on a system that numbers input/output errors `io_error` and
/// illegal seeks `illegal_seek`.
pub fn is_medium_failure(code: Option<i32>, io_error: i32, illegal_seek: i32) -> (failed: bool)
    ensures
        failed == (code == Some(io_error) || code == Some(illegal_seek)),
{
    match code {
        Some(number) => number == io_error || number == illegal_seek,
        None => false,
    }
}

/// The storage failure that the failure `err` of the system stands for,
/// where the system gave the error number `code` with it and numbers
/// input/output errors `io_error` and illegal seeks `illegal_seek`: a bad
/// block for either of the two, and the failure itself in every other case.
pub open spec fn classification(
    err: std::io::Error,
    code: Option<i32>,
    io_error: i32,
    illegal_seek: i32,
) -> StorageError {
    if code == Some(io_error) || code == Some(illegal_seek) {
        StorageError::BadBlock
    } else {
        StorageError::Other(err)
    }
}

impl StorageError {
    /// The storage failure that the failure `err` stands for, where `code` is
    /// the error number that came with it and `io_error` and `illegal_seek`
    /// are the numbers of the system for the two failures of the medium.
    pub fn classified(err: std::io::Error, code: Option<i32>, io_error: i32, illegal_seek: i32) -> (error:
        StorageError)
        ensures
            error == classification(err, code, io_error, illegal_seek),
            (code == Some(io_error) || code == Some(illegal_seek)) ==> error is BadBlock,
            !(code == Some(io_error) || code == Some(illegal_seek)) ==> error
                == StorageError::Other(err),
    {
        if is_medium_failure(code, io_error, illegal_seek) {
            StorageError::BadBlock
        } else {
            StorageError::Other(err)
        }
    }

    /// The storage failure that a failure of the system stands for: a bad
    /// block where the system reported an input/output error or an illegal
    /// seek, and the failure itself in every other case. The two numbers are
    /// those of the system that the program is built for; `classified` says
    /// what comes back for each of them.
    pub fn from(err: std::io::Error) -> (error: StorageError)
        ensures
            error is BadBlock || error == StorageError::Other(err),
            os_error_code(err) is None ==> error == StorageError::Other(err),
    {
        let code = raw_os_error(&err);
        StorageError::classified(err, code, io_error_number(), illegal_seek_number())
    }
}

/// One file system to take off before a device is opened.
#[derive(Debug, Clone)]
pub struct Unmount {
    /// Where the file system is mounted.
    pub target: String,
    /// Whether the device may be opened only if this succeeds.
    pub required: bool,
}

/// Whether the opening of a device may go on after the step `step` of its
/// plan: the step has done its work, or the device can be opened without it.
pub fn may_go_on(step: &Unmount, succeeded: bool) -> (go_on: bool)
    ensures
        go_on == (succeeded || !step.required),
{
    succeeded || !step.required
}

/// The mount points of the first `count` of `children` that are mounted, in
/// order, each of them required.
pub open spec fn child_unmounts(children: Seq<StorageRef>, count: nat) -> Seq<(Seq<char>, bool)>
    decreases count,
{
    if count == 0 {
        Seq::empty()
    } else {
        let before = child_unmounts(children, (count - 1) as nat);
        match children[count - 1].details.mount_point {
            Some(target) => before.push((target@, true)),
            None => before,
        }
    }
}

/// What has to be unmounted before `device` is opened, in order: the file
/// systems on its partitions, and then its own. Every one of them must be off
/// before the device is opened.
pub open spec fn unmount_plan(device: StorageRef) -> Seq<(Seq<char>, bool)> {
    let children = child_unmounts(device.children@, device.children@.len());
    match device.details.mount_point {
        Some(target) => children.push((target@, true)),
        None => children,
    }
}

/// What `plan` holds, as plain values.
pub open spec fn unmounts_view(plan: Seq<Unmount>) -> Seq<(Seq<char>, bool)> {
    Seq::new(plan.len(), |i: int| (plan[i].target@, plan[i].required))
}

impl StorageRef {
    /// The file systems to unmount before this device is opened, in the
    /// order in which to do it.
    pub fn unmounts(&self) -> (plan: Vec<Unmount>)
        ensures
            unmounts_view(plan@) == unmount_plan(*self),
    {
        let mut plan: Vec<Unmount> = Vec::new();
        let mut index: usize = 0;
        while index < self.children.len()
            invariant
                index <= self.children@.len(),
                unmounts_view(plan@) == child_unmounts(self.children@, index as nat),
            decreases self.children@.len() - index,
        {
            let ghost before = plan@;
            match &self.children[index].details.mount_point {
                Some(target) => {
                    plan.push(Unmount { target: target.clone(), required: true });
                    assert(unmounts_view(plan@) =~= unmounts_view(before).push((target@, true)));
                },
                None => {},
            }
            index = index + 1;
        }
        let ghost before = plan@;
        match &self.details.mount_point {
            Some(target) => {
                plan.push(Unmount { target: target.clone(), required: true });
                assert(unmounts_view(plan@) =~= unmounts_view(before).push((target@, true)));
            },
            None => {},
        }
        plan
    }
}

} // verus!
