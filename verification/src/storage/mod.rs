//! The storage side of a wipe: what a device is, and what the engine may ask of it.

pub mod nix;

pub use nix::linux::is_trim_supported;
pub use nix::linux::unmount_succeeded;
pub use nix::is_medium_failure;
pub use nix::may_go_on;
pub use nix::linux::build_device_info;
pub use nix::linux::resolve_fs_label;
pub use nix::linux::resolve_mount_point;
pub use nix::linux::LabelLink;
pub use nix::linux::UnreadableLink;
pub use nix::linux::BlockInfo;
pub use nix::Unmount;

use vstd::prelude::*;

verus! {

/// The kind of a storage device.
#[derive(Clone, Copy, Debug, PartialEq, Eq, Structural)]
#[allow(dead_code)]
pub enum StorageType {
    Unknown,
    File,
    Partition,
    Fixed,
    Removable,
    CD,
    Network,
    RAID,
    Other,
}

/// The printed name of a storage type: the name of its variant.
pub open spec fn storage_type_name(t: StorageType) -> Seq<char> {
    match t {
        StorageType::Unknown => "Unknown"@,
        StorageType::File => "File"@,
        StorageType::Partition => "Partition"@,
        StorageType::Fixed => "Fixed"@,
        StorageType::Removable => "Removable"@,
        StorageType::CD => "CD"@,
        StorageType::Network => "Network"@,
        StorageType::RAID => "RAID"@,
        StorageType::Other => "Other"@,
    }
}

impl StorageType {
    /// The name under which the type is shown to an operator.
    pub fn name(&self) -> (text: String)
        ensures
            text@ == storage_type_name(*self),
    {
        match self {
            StorageType::Unknown => "Unknown".to_owned(),
            StorageType::File => "File".to_owned(),
            StorageType::Partition => "Partition".to_owned(),
            StorageType::Fixed => "Fixed".to_owned(),
            StorageType::Removable => "Removable".to_owned(),
            StorageType::CD => "CD".to_owned(),
            StorageType::Network => "Network".to_owned(),
            StorageType::RAID => "RAID".to_owned(),
            StorageType::Other => "Other".to_owned(),
        }
    }
}

/// A snapshot of a device's properties, taken when the devices were listed.
#[derive(Debug, Clone)]
pub struct StorageDetails {
    pub size: u64,
    pub block_size: usize,
    pub storage_type: StorageType,
    pub mount_point: Option<String>,
    pub label: Option<String>,
}

impl StorageDetails {
    /// Whether a handle on the device may be set to the absolute offset
    /// `offset`: no further than the end of the device.
    pub fn reaches(&self, offset: u64) -> (within: bool)
        ensures
            within == (offset <= self.size),
    {
        offset <= self.size
    }
}

impl Default for StorageDetails {
    fn default() -> (details: Self)
        ensures
            details.size == 0,
            details.block_size == 0,
            details.storage_type == StorageType::Unknown,
            details.mount_point is None,
            details.label is None,
    {
        StorageDetails {
            size: 0,
            block_size: 0,
            storage_type: StorageType::Unknown,
            mount_point: None,
            label: None,
        }
    }
}

/// A device and, below it, its partitions.
#[derive(Debug)]
pub struct StorageRef {
    pub id: String,
    pub details: StorageDetails,
    pub children: Vec<StorageRef>,
}

/// A device and its partitions as plain values.
pub struct DeviceView {
    pub id: Seq<char>,
    pub size: u64,
    pub block_size: usize,
    pub storage_type: StorageType,
    pub mount_point: Option<Seq<char>>,
    pub label: Option<Seq<char>>,
    pub children: Seq<DeviceView>,
}

/// A text that may be missing, as plain values.
pub open spec fn text_view(text: Option<String>) -> Option<Seq<char>> {
    match text {
        Some(text) => Some(text@),
        None => None,
    }
}

/// `devices` as plain values.
pub open spec fn devices_view(devices: Seq<StorageRef>) -> Seq<DeviceView>
    decreases devices,
{
    if devices.len() == 0 {
        Seq::empty()
    } else {
        devices_view(devices.drop_last()).push(devices.last().view())
    }
}

impl StorageRef {
    /// The device as plain values.
    pub open spec fn view(&self) -> DeviceView
        decreases self,
    {
        DeviceView {
            id: self.id@,
            size: self.details.size,
            block_size: self.details.block_size,
            storage_type: self.details.storage_type,
            mount_point: text_view(self.details.mount_point),
            label: text_view(self.details.label),
            children: devices_view(self.children@),
        }
    }
}

/// One request made of a storage handle, with what came of it.
#[allow(inconsistent_fields)]
pub enum StorageCall {
    /// The current offset was asked for; `offset` is what the handle gave,
    /// or nothing where it failed.
    Position { offset: Option<u64> },
    /// The handle was asked to move to `offset`; `done` tells whether it did.
    Seek { offset: u64, done: bool },
    /// Up to `length` bytes were asked for. `data` holds the bytes that were
    /// delivered, or nothing where the read failed.
    Read { length: nat, data: Option<Seq<u8>> },
    /// `data` was handed over to be written; `done` tells whether it was.
    Write { data: Seq<u8>, done: bool },
    /// Buffered state was forced out; `done` tells whether that succeeded.
    Flush { done: bool },
}

#[verifier::external_type_specification]
#[verifier::external_body]
pub struct ExIoError(std::io::Error);

/// The failures a storage handle reports.
#[derive(Debug)]
pub enum StorageError {
    /// The medium failed under a read, a write or a seek.
    BadBlock,
    /// Any other failure of the operating system.
    Other(std::io::Error),
}

/// What an operator is told of a storage failure.
pub open spec fn storage_error_message(error: StorageError) -> Seq<char> {
    match error {
        StorageError::BadBlock => "bad block"@,
        StorageError::Other(_) => "other i/o error"@,
    }
}

impl StorageError {
    /// The failure in words.
    pub fn message(&self) -> (text: String)
        ensures
            text@ == storage_error_message(*self),
    {
        match self {
            StorageError::BadBlock => "bad block".to_owned(),
            StorageError::Other(_) => "other i/o error".to_owned(),
        }
    }
}

/// Positioned access to the raw bytes of one device, opened so that nothing
/// stands between a write and the medium.
///
/// A read may deliver fewer bytes than the buffer holds. A write takes the
/// whole buffer or fails.
pub trait StorageAccess {
    /// The current absolute offset.
    fn position(&mut self) -> Result<u64, StorageError>;

    /// Moves to the absolute offset `position`.
    fn seek(&mut self, position: u64) -> Result<u64, StorageError>;

    /// Reads into `buffer` from the current offset and says how many bytes came.
    ///
    /// The one clause tells the verifier what the language already holds every
    /// implementation to: a slice keeps its length.
    fn read(&mut self, buffer: &mut [u8]) -> (result: Result<usize, StorageError>)
        ensures
            final(buffer)@.len() == old(buffer)@.len(),
    ;

    /// Writes all of `data` at the current offset.
    fn write(&mut self, data: &[u8]) -> Result<(), StorageError>;

    /// Forces what is still buffered to the medium.
    fn flush(&mut self) -> Result<(), StorageError>;
}

/// A storage handle together with the history of what was asked of it.
///
/// The handle itself is out of reach: every request goes through a method of
/// this type, and each method adds exactly its own request to the history. The
/// history costs nothing when the program runs.
pub struct TracedAccess<A: StorageAccess> {
    access: A,
    calls: Ghost<Seq<StorageCall>>,
    failures: Ghost<Seq<StorageError>>,
}

/// The failure with which a request ended, if it failed.
pub open spec fn failure_of<T>(result: Result<T, StorageError>) -> Option<StorageError> {
    match result {
        Ok(_) => None,
        Err(failure) => Some(failure),
    }
}

/// The failures reported so far once a request has ended with `failure`,
/// where `before` had been reported.
pub open spec fn with_failure(before: Seq<StorageError>, failure: Option<StorageError>) -> Seq<
    StorageError,
> {
    match failure {
        Some(failure) => before.push(failure),
        None => before,
    }
}

impl<A: StorageAccess> TracedAccess<A> {
    /// Every request made through this value, in order.
    pub closed spec fn calls(&self) -> Seq<StorageCall> {
        self.calls@
    }

    /// Every failure that the handle has reported, in order.
    pub closed spec fn failures(&self) -> Seq<StorageError> {
        self.failures@
    }

    /// The handle itself.
    pub closed spec fn inner(&self) -> A {
        self.access
    }

    /// Takes a handle of which nothing has been asked yet.
    pub fn new(access: A) -> (traced: Self)
        ensures
            traced.inner() == access,
            traced.calls() == Seq::<StorageCall>::empty(),
            traced.failures() == Seq::<StorageError>::empty(),
    {
        TracedAccess { access, calls: Ghost(Seq::empty()), failures: Ghost(Seq::empty()) }
    }

    /// Gives the handle back.
    pub fn into_inner(self) -> (access: A)
        ensures
            access == self.inner(),
    {
        self.access
    }

    /// The current absolute offset.
    pub fn position(&mut self) -> (result: Result<u64, StorageError>)
        ensures
            final(self).calls() == old(self).calls().push(
                StorageCall::Position {
                    offset: match result {
                        Ok(offset) => Some(offset),
                        Err(_) => None,
                    },
                },
            ),
            final(self).failures() == with_failure(old(self).failures(), failure_of(result)),
    {
        let result = self.access.position();
        self.failures = Ghost(with_failure(self.failures@, failure_of(result)));
        self.calls = Ghost(
            self.calls@.push(
                StorageCall::Position {
                    offset: match result {
                        Ok(offset) => Some(offset),
                        Err(_) => None,
                    },
                },
            ),
        );
        result
    }

    /// Moves to the absolute offset `position`.
    pub fn seek(&mut self, position: u64) -> (result: Result<u64, StorageError>)
        ensures
            final(self).calls() == old(self).calls().push(
                StorageCall::Seek { offset: position, done: result is Ok },
            ),
            final(self).failures() == with_failure(old(self).failures(), failure_of(result)),
    {
        let result = self.access.seek(position);
        self.failures = Ghost(with_failure(self.failures@, failure_of(result)));
        self.calls = Ghost(
            self.calls@.push(StorageCall::Seek { offset: position, done: result is Ok }),
        );
        result
    }

    /// Reads into `buffer` from the current offset and says how many bytes
    /// came. A handle that claims more than the buffer holds is taken to have
    /// filled the buffer.
    pub fn read(&mut self, buffer: &mut [u8]) -> (result: Result<usize, StorageError>)
        ensures
            final(buffer)@.len() == old(buffer)@.len(),
            result matches Ok(count) ==> count <= old(buffer)@.len(),
            final(self).calls() == old(self).calls().push(
                StorageCall::Read {
                    length: old(buffer)@.len(),
                    data: match result {
                        Ok(count) => Some(final(buffer)@.take(count as int)),
                        Err(_) => None,
                    },
                },
            ),
            final(self).failures() == with_failure(old(self).failures(), failure_of(result)),
    {
        let length = buffer.len();
        let result = match self.access.read(buffer) {
            Ok(count) => if count <= length {
                Ok(count)
            } else {
                Ok(length)
            },
            Err(error) => Err(error),
        };
        self.failures = Ghost(with_failure(self.failures@, failure_of(result)));
        self.calls = Ghost(
            self.calls@.push(
                StorageCall::Read {
                    length: length as nat,
                    data: match result {
                        Ok(count) => Some(buffer@.take(count as int)),
                        Err(_) => None,
                    },
                },
            ),
        );
        result
    }

    /// Writes all of `data` at the current offset, or fails.
    pub fn write(&mut self, data: &[u8]) -> (result: Result<(), StorageError>)
        ensures
            final(self).calls() == old(self).calls().push(
                StorageCall::Write { data: data@, done: result is Ok },
            ),
            final(self).failures() == with_failure(old(self).failures(), failure_of(result)),
    {
        let result = self.access.write(data);
        self.failures = Ghost(with_failure(self.failures@, failure_of(result)));
        self.calls = Ghost(
            self.calls@.push(StorageCall::Write { data: data@, done: result is Ok }),
        );
        result
    }

    /// Forces what is still buffered to the medium.
    pub fn flush(&mut self) -> (result: Result<(), StorageError>)
        ensures
            final(self).calls() == old(self).calls().push(
                StorageCall::Flush { done: result is Ok },
            ),
            final(self).failures() == with_failure(old(self).failures(), failure_of(result)),
    {
        let result = self.access.flush();
        self.failures = Ghost(with_failure(self.failures@, failure_of(result)));
        self.calls = Ghost(self.calls@.push(StorageCall::Flush { done: result is Ok }));
        result
    }
}

/// A device that can be opened for raw access.
pub trait StorageDevice {
    type Access: StorageAccess;

    /// Opens the device, after whatever has to happen first.
    fn access(&self) -> Result<Self::Access, StorageError>;
}

/// The host system, as the place where devices are found.
pub struct System {}

} // verus!
