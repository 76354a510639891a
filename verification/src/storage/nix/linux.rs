//! Storage on Linux: what the system's answers mean.

use crate::storage::devices_view;
use crate::storage::text_view;
use crate::storage::DeviceView;
use crate::storage::StorageDetails;
use crate::storage::StorageRef;
use crate::storage::StorageType;
use crate::storage::System;
use vstd::prelude::*;
use vstd::slice::slice_subrange;
use vstd::slice::slice_to_vec;
use vstd::string::StringExecFns;
use vstd::string::StringSliceAdditionalSpecFns;

verus! {

/// Whether the device behind a descriptor takes discard requests. None does.
pub fn is_trim_supported(_fd: i32) -> (supported: bool)
    ensures
        !supported,
{
    false
}

/// Whether a request to unmount has done its work: the system reported
/// success, or it reported that there was nothing to unmount, with the error
/// number `not_found` for a path that does not exist or the error number
/// `not_mounted` for a path on which nothing is mounted.
pub fn unmount_succeeded(
    status: i32,
    os_error: Option<i32>,
    not_found: i32,
    not_mounted: i32,
) -> (succeeded: bool)
    ensures
        succeeded == (status == 0 || os_error == Some(not_found) || os_error == Some(
            not_mounted,
        )),
{
    if status == 0 {
        true
    } else {
        match os_error {
            Some(number) => number == not_found || number == not_mounted,
            None => false,
        }
    }
}

/// The number of bytes in which the system counts the size of a device.
pub const SYSFS_BLOCK_SIZE: u64 = 512;

/// What the system tells of one block device. A value that could not be had
/// is missing.
#[derive(Debug)]
pub struct BlockInfo {
    /// The name of the device, below `/dev`.
    pub name: Option<String>,
    /// Whether a device stands behind the entry.
    pub has_device: bool,
    /// Whether the device is part of another.
    pub has_parent: bool,
    /// Whether the device can be taken out: 1 where it can.
    pub removable: Option<u8>,
    /// The size of the device, counted in units of `SYSFS_BLOCK_SIZE` bytes.
    pub sectors: Option<u64>,
    /// The block size that the system prefers for the device.
    pub block_size: Option<usize>,
    /// Where the device is mounted, if it is.
    pub mount_point: Option<String>,
    /// The label of the file system on the device, if it has one.
    pub label: Option<String>,
    /// The partitions of the device.
    pub children: Vec<BlockInfo>,
}

/// The device that `block` describes, or nothing where a value is missing
/// that a device cannot be listed without: its name, its block size, its size,
/// or, for a whole device, whether it can be taken out. A device whose size
/// in bytes is beyond what can be counted is not listed either. Partitions
/// that cannot be listed are left out of the device.
pub open spec fn device_info(block: BlockInfo) -> Option<DeviceView>
    decreases block,
{
    if block.name is None || block.block_size is None || block.sectors is None || (
    !block.has_parent && block.removable is None) || block.sectors.unwrap() * SYSFS_BLOCK_SIZE
        > u64::MAX {
        None
    } else {
        Some(
            DeviceView {
                id: "/dev/"@ + block.name.unwrap()@,
                size: (block.sectors.unwrap() * SYSFS_BLOCK_SIZE) as u64,
                block_size: block.block_size.unwrap(),
                storage_type: if block.has_parent {
                    StorageType::Partition
                } else if block.removable.unwrap() == 1 {
                    StorageType::Removable
                } else {
                    StorageType::Fixed
                },
                mount_point: text_view(block.mount_point),
                label: text_view(block.label),
                children: devices_info(block.children@),
            },
        )
    }
}

/// The devices that `blocks` describe, in order, without those that cannot
/// be listed.
pub open spec fn devices_info(blocks: Seq<BlockInfo>) -> Seq<DeviceView>
    decreases blocks,
{
    if blocks.len() == 0 {
        Seq::empty()
    } else {
        let before = devices_info(blocks.drop_last());
        match device_info(blocks.last()) {
            Some(device) => before.push(device),
            None => before,
        }
    }
}

/// The device that the system's description `block` stands for, with its
/// partitions.
pub fn build_device_info(block: &BlockInfo) -> (device: Option<StorageRef>)
    ensures
        match device {
            Some(found) => device_info(*block) == Some(found@),
            None => device_info(*block) is None,
        },
    decreases block,
{
    let name = match &block.name {
        Some(name) => name,
        None => {
            return None;
        },
    };
    let device_path = "/dev/".to_owned().concat(name.as_str());

    let mut children: Vec<StorageRef> = Vec::new();
    let mut index: usize = 0;
    proof {
        assert(block.children@.take(0) =~= Seq::<BlockInfo>::empty());
    }
    while index < block.children.len()
        invariant
            index <= block.children@.len(),
            devices_view(children@) == devices_info(block.children@.take(index as int)),
        decreases block.children@.len() - index,
    {
        let ghost before = children@;
        proof {
            let next = block.children@.take(index + 1);
            assert(next.drop_last() =~= block.children@.take(index as int));
            assert(next.last() == block.children@[index as int]);
        }
        match build_device_info(&block.children[index]) {
            Some(child) => {
                children.push(child);
                assert(children@.drop_last() =~= before);
            },
            None => {},
        }
        index = index + 1;
    }
    proof {
        assert(block.children@.take(index as int) =~= block.children@);
    }

    let block_size = match block.block_size {
        Some(size) => size,
        None => {
            return None;
        },
    };
    let storage_type = if block.has_parent {
        StorageType::Partition
    } else {
        match block.removable {
            None => {
                return None;
            },
            Some(removable) => if removable == 1 {
                StorageType::Removable
            } else {
                StorageType::Fixed
            },
        }
    };
    let sectors = match block.sectors {
        Some(sectors) => sectors,
        None => {
            return None;
        },
    };
    let size = match sectors.checked_mul(SYSFS_BLOCK_SIZE) {
        Some(size) => size,
        None => {
            return None;
        },
    };
    let mount_point = match &block.mount_point {
        Some(target) => Some(target.clone()),
        None => None,
    };
    let label = match &block.label {
        Some(label) => Some(label.clone()),
        None => None,
    };
    let details = StorageDetails { size, block_size, storage_type, mount_point, label };
    Some(StorageRef { id: device_path, details, children })
}

/// The entries among the first `count` of `blocks` behind which a device
/// stands.
pub open spec fn with_device(blocks: Seq<BlockInfo>, count: nat) -> Seq<BlockInfo>
    decreases count,
{
    if count == 0 {
        Seq::empty()
    } else {
        let before = with_device(blocks, (count - 1) as nat);
        if blocks[count - 1].has_device {
            before.push(blocks[count - 1])
        } else {
            before
        }
    }
}

/// Whether `first` comes before `second` in the order of texts: byte is held
/// against byte, the first difference decides, and a text comes before every
/// text that continues it.
pub open spec fn bytes_precede(first: Seq<u8>, second: Seq<u8>) -> bool
    decreases first.len(),
{
    if second.len() == 0 {
        false
    } else if first.len() == 0 {
        true
    } else if first[0] != second[0] {
        first[0] < second[0]
    } else {
        bytes_precede(first.skip(1), second.skip(1))
    }
}

/// Whether the text `first` comes before the text `second`.
pub fn precedes(first: &str, second: &str) -> (before: bool)
    ensures
        before == bytes_precede(first.spec_bytes(), second.spec_bytes()),
{
    let left = first.as_bytes();
    let right = second.as_bytes();
    let mut at: usize = 0;
    proof {
        assert(left@.skip(0) =~= left@);
        assert(right@.skip(0) =~= right@);
    }
    loop
        invariant
            at <= left@.len(),
            at <= right@.len(),
            left@ == first.spec_bytes(),
            right@ == second.spec_bytes(),
            bytes_precede(left@, right@) == bytes_precede(
                left@.skip(at as int),
                right@.skip(at as int),
            ),
        decreases left@.len() - at,
    {
        if at >= right.len() {
            return false;
        }
        if at >= left.len() {
            return true;
        }
        if left[at] != right[at] {
            return left[at] < right[at];
        }
        proof {
            assert(left@.skip(at as int).skip(1) =~= left@.skip(at + 1));
            assert(right@.skip(at as int).skip(1) =~= right@.skip(at + 1));
        }
        at = at + 1;
    }
}

/// The name of a device as the bytes by which devices are ordered.
pub open spec fn id_bytes(device: DeviceView) -> Seq<u8> {
    vstd::utf8::encode_utf8(device.id)
}

/// Where a device named `id` goes into the ordered list `devices`: behind
/// every device that it does not come before.
pub open spec fn place_of(devices: Seq<DeviceView>, id: Seq<u8>) -> nat
    decreases devices.len(),
{
    if devices.len() == 0 {
        0
    } else if bytes_precede(id, id_bytes(devices[0])) {
        0
    } else {
        1 + place_of(devices.skip(1), id)
    }
}

/// `devices` ordered by name. Devices of the same name keep their order.
pub open spec fn sorted_by_id(devices: Seq<DeviceView>) -> Seq<DeviceView>
    decreases devices.len(),
{
    if devices.len() == 0 {
        Seq::empty()
    } else {
        let before = sorted_by_id(devices.drop_last());
        before.insert(place_of(before, id_bytes(devices.last())) as int, devices.last())
    }
}

/// Whether no device of `devices` comes before one that stands before it.
pub open spec fn ordered_by_id(devices: Seq<DeviceView>) -> bool {
    forall|i: int, j: int|
        0 <= i < j < devices.len() ==> !bytes_precede(
            id_bytes(#[trigger] devices[j]),
            id_bytes(#[trigger] devices[i]),
        )
}

/// Plain values of a list of devices, place by place.
pub proof fn lemma_devices_view(devices: Seq<StorageRef>)
    ensures
        devices_view(devices).len() == devices.len(),
        forall|i: int| 0 <= i < devices.len() ==> #[trigger] devices_view(devices)[i] == devices[i]@,
    decreases devices.len(),
{
    if devices.len() > 0 {
        lemma_devices_view(devices.drop_last());
    }
}

proof fn lemma_place_of(devices: Seq<DeviceView>, id: Seq<u8>)
    ensures
        place_of(devices, id) <= devices.len(),
        forall|i: int|
            0 <= i < place_of(devices, id) ==> !bytes_precede(id, id_bytes(#[trigger] devices[i])),
        place_of(devices, id) < devices.len() ==> bytes_precede(
            id,
            id_bytes(devices[place_of(devices, id) as int]),
        ),
    decreases devices.len(),
{
    if devices.len() > 0 && !bytes_precede(id, id_bytes(devices[0])) {
        let rest = devices.skip(1);
        lemma_place_of(rest, id);
        assert forall|i: int| 0 <= i < place_of(devices, id) implies !bytes_precede(
            id,
            id_bytes(#[trigger] devices[i]),
        ) by {
            if i > 0 {
                assert(devices[i] == rest[i - 1]);
            }
        }
        if place_of(devices, id) < devices.len() {
            assert(devices[place_of(devices, id) as int] == rest[place_of(rest, id) as int]);
        }
    }
}

proof fn lemma_precede_is_strict(text: Seq<u8>)
    ensures
        !bytes_precede(text, text),
    decreases text.len(),
{
    if text.len() > 0 {
        lemma_precede_is_strict(text.skip(1));
    }
}

proof fn lemma_precede_chain(first: Seq<u8>, second: Seq<u8>, third: Seq<u8>)
    requires
        bytes_precede(first, second),
        bytes_precede(second, third),
    ensures
        bytes_precede(first, third),
    decreases first.len(),
{
    if first.len() > 0 && first[0] == second[0] && second[0] == third[0] {
        lemma_precede_chain(first.skip(1), second.skip(1), third.skip(1));
    }
}

/// The order of names is what `sorted_by_id` arranges: in its result no
/// device comes before one that stands before it, and every device of the
/// list is still there, as often as before.
pub proof fn lemma_sorted_is_ordered(devices: Seq<DeviceView>)
    ensures
        ordered_by_id(sorted_by_id(devices)),
        sorted_by_id(devices).to_multiset() == devices.to_multiset(),
    decreases devices.len(),
{
    if devices.len() == 0 {
        assert(devices =~= Seq::<DeviceView>::empty());
    } else {
        let last = devices.last();
        let id = id_bytes(last);
        let before = sorted_by_id(devices.drop_last());
        let place = place_of(before, id) as int;
        let after = before.insert(place, last);
        lemma_sorted_is_ordered(devices.drop_last());
        lemma_place_of(before, id);
        assert forall|i: int, j: int| 0 <= i < j < after.len() implies !bytes_precede(
            id_bytes(#[trigger] after[j]),
            id_bytes(#[trigger] after[i]),
        ) by {
            if j == place {
                assert(after[i] == before[i]);
            } else if i == place {
                assert(after[j] == before[j - 1]);
                assert(place < before.len());
                if bytes_precede(id_bytes(after[j]), id) {
                    lemma_precede_chain(id_bytes(after[j]), id, id_bytes(before[place]));
                    if j - 1 == place {
                        lemma_precede_is_strict(id_bytes(before[place]));
                    } else {
                        assert(!bytes_precede(id_bytes(before[j - 1]), id_bytes(before[place])));
                    }
                    assert(false);
                }
            } else {
                let from = if i < place {
                    i
                } else {
                    i - 1
                };
                let to = if j < place {
                    j
                } else {
                    j - 1
                };
                assert(after[i] == before[from] && after[j] == before[to]);
            }
        }
        vstd::seq_lib::to_multiset_insert(before, place, last);
        vstd::seq_lib::to_multiset_build(devices.drop_last(), last);
        assert(devices =~= devices.drop_last().push(last));
        assert(after.to_multiset() =~= devices.to_multiset());
    }
}

impl System {
    /// The devices among the entries `blocks` of the system's list of block
    /// devices: every entry behind which a device stands and that can be
    /// listed, ordered by name.
    pub fn enumerate_storage_devices(blocks: &Vec<BlockInfo>) -> (devices: Vec<StorageRef>)
        ensures
            devices_view(devices@) == sorted_by_id(
                devices_info(with_device(blocks@, blocks@.len())),
            ),
    {
        let mut devices: Vec<StorageRef> = Vec::new();
        let mut index: usize = 0;
        while index < blocks.len()
            invariant
                index <= blocks@.len(),
                devices_view(devices@) == sorted_by_id(
                    devices_info(with_device(blocks@, index as nat)),
                ),
            decreases blocks@.len() - index,
        {
            if blocks[index].has_device {
                proof {
                    let chosen = with_device(blocks@, index as nat);
                    assert(chosen.push(blocks@[index as int]).drop_last() =~= chosen);
                }
                match build_device_info(&blocks[index]) {
                    Some(device) => {
                        let ghost listed = devices_info(with_device(blocks@, index as nat));
                        let ghost before = devices@;
                        let ghost id = id_bytes(device@);
                        proof {
                            lemma_devices_view(before);
                            assert(listed.push(device@).drop_last() =~= listed);
                            assert(devices_view(before).skip(0) =~= devices_view(before));
                        }
                        let mut place: usize = 0;
                        while place < devices.len() && !precedes(
                            device.id.as_str(),
                            devices[place].id.as_str(),
                        )
                            invariant
                                place <= devices@.len(),
                                devices@ == before,
                                id == id_bytes(device@),
                                devices_view(before).len() == before.len(),
                                forall|i: int|
                                    0 <= i < before.len() ==> #[trigger] devices_view(before)[i]
                                        == before[i]@,
                                place_of(devices_view(before), id) == place + place_of(
                                    devices_view(before).skip(place as int),
                                    id,
                                ),
                            decreases devices@.len() - place,
                        {
                            proof {
                                let rest = devices_view(before).skip(place as int);
                                assert(rest[0] == before[place as int]@);
                                assert(rest.skip(1) =~= devices_view(before).skip(place + 1));
                            }
                            place = place + 1;
                        }
                        proof {
                            let rest = devices_view(before).skip(place as int);
                            if place < before.len() {
                                assert(rest[0] == before[place as int]@);
                            }
                            assert(place_of(devices_view(before), id) == place);
                        }
                        let ghost added = device@;
                        devices.insert(place, device);
                        proof {
                            lemma_devices_view(devices@);
                            assert(devices_view(devices@) =~= devices_view(before).insert(
                                place as int,
                                added,
                            ));
                        }
                    },
                    None => {},
                }
            }
            index = index + 1;
        }
        devices
    }
}

/// Whether `byte` separates the words of a line: a space, a tab, or one of
/// the bytes that end or break a line. The table of mounts is read as ASCII:
/// the system writes a blank inside a name as an escape, and no other white
/// space parts words here.
pub open spec fn is_blank(byte: u8) -> bool {
    byte == 0x20 || (0x09 <= byte <= 0x0d)
}

/// Where the line that holds place `from` of `text` ends: at the next line
/// feed, or at the end of the text.
pub open spec fn line_end(text: Seq<u8>, from: int) -> int
    decreases text.len() - from,
{
    if from < 0 || from >= text.len() || text[from] == 0x0a {
        from
    } else {
        line_end(text, from + 1)
    }
}

/// Where the next word starts: the first place from `from` on, before `end`,
/// that holds no blank; `end` where there is none.
pub open spec fn word_start(text: Seq<u8>, from: int, end: int) -> int
    decreases end - from,
{
    if from < 0 || from >= end || from >= text.len() || !is_blank(text[from]) {
        from
    } else {
        word_start(text, from + 1, end)
    }
}

/// Where the word that starts at `from` ends: the first place from `from`
/// on, before `end`, that holds a blank; `end` where there is none.
pub open spec fn word_end(text: Seq<u8>, from: int, end: int) -> int
    decreases end - from,
{
    if from < 0 || from >= end || from >= text.len() || is_blank(text[from]) {
        from
    } else {
        word_end(text, from + 1, end)
    }
}

/// Where `device` is mounted according to the lines of the table `mounts`
/// from place `from` on.
///
/// Each line of the table names a device and, as its second word, the place
/// where it is mounted. Words are parted by ASCII blanks. The first line whose first word is `device` decides;
/// it gives nothing where it has no second word. Empty lines are passed over.
pub open spec fn mount_point_from(mounts: Seq<u8>, device: Seq<u8>, from: int) -> Option<Seq<u8>>
    decreases mounts.len() - from,
{
    if from < 0 || from >= mounts.len() {
        None
    } else {
        let end = line_end(mounts, from);
        let first = word_start(mounts, from, end);
        let first_end = word_end(mounts, first, end);
        let second = word_start(mounts, first_end, end);
        let second_end = word_end(mounts, second, end);
        if first < first_end && mounts.subrange(first, first_end) == device {
            if second < second_end {
                Some(mounts.subrange(second, second_end))
            } else {
                None
            }
        } else if end < from || end >= mounts.len() {
            None
        } else {
            mount_point_from(mounts, device, end + 1)
        }
    }
}

fn find_line_end(text: &[u8], from: usize) -> (end: usize)
    requires
        from <= text@.len(),
    ensures
        end == line_end(text@, from as int),
        from <= end <= text@.len(),
{
    let mut at: usize = from;
    while at < text.len() && text[at] != 0x0a
        invariant
            from <= at <= text@.len(),
            line_end(text@, from as int) == line_end(text@, at as int),
        decreases text@.len() - at,
    {
        at = at + 1;
    }
    at
}

fn find_word_start(text: &[u8], from: usize, end: usize) -> (start: usize)
    requires
        from <= end <= text@.len(),
    ensures
        start == word_start(text@, from as int, end as int),
        from <= start <= end,
{
    let mut at: usize = from;
    while at < end && (text[at] == 0x20 || (0x09 <= text[at] && text[at] <= 0x0d))
        invariant
            from <= at <= end <= text@.len(),
            word_start(text@, from as int, end as int) == word_start(
                text@,
                at as int,
                end as int,
            ),
        decreases end - at,
    {
        at = at + 1;
    }
    at
}

fn find_word_end(text: &[u8], from: usize, end: usize) -> (stop: usize)
    requires
        from <= end <= text@.len(),
    ensures
        stop == word_end(text@, from as int, end as int),
        from <= stop <= end,
{
    let mut at: usize = from;
    while at < end && !(text[at] == 0x20 || (0x09 <= text[at] && text[at] <= 0x0d))
        invariant
            from <= at <= end <= text@.len(),
            word_end(text@, from as int, end as int) == word_end(text@, at as int, end as int),
        decreases end - at,
    {
        at = at + 1;
    }
    at
}

/// Whether two runs of bytes are the same.
fn same_bytes(first: &[u8], second: &[u8]) -> (same: bool)
    ensures
        same == (first@ == second@),
{
    if first.len() != second.len() {
        return false;
    }
    let mut at: usize = 0;
    while at < first.len()
        invariant
            at <= first@.len(),
            first@.len() == second@.len(),
            forall|i: int| 0 <= i < at ==> first@[i] == second@[i],
        decreases first@.len() - at,
    {
        if first[at] != second[at] {
            return false;
        }
        at = at + 1;
    }
    assert(first@ =~= second@);
    true
}

/// Where the device `path` is mounted, according to the table of mounts
/// `mounts` as the system prints it; nothing where the table does not name
/// the device.
pub fn resolve_mount_point(mounts: &[u8], path: &[u8]) -> (found: Option<Vec<u8>>)
    ensures
        match found {
            Some(target) => mount_point_from(mounts@, path@, 0) == Some(target@),
            None => mount_point_from(mounts@, path@, 0) is None,
        },
{
    let mut line: usize = 0;
    while line < mounts.len()
        invariant
            line <= mounts@.len(),
            mount_point_from(mounts@, path@, 0) == mount_point_from(mounts@, path@, line as int),
        decreases mounts@.len() - line,
    {
        let end = find_line_end(mounts, line);
        let first = find_word_start(mounts, line, end);
        let first_end = find_word_end(mounts, first, end);
        if first < first_end && same_bytes(slice_subrange(mounts, first, first_end), path) {
            let second = find_word_start(mounts, first_end, end);
            let second_end = find_word_end(mounts, second, end);
            if second < second_end {
                return Some(slice_to_vec(slice_subrange(mounts, second, second_end)));
            } else {
                return None;
            }
        }
        if end < mounts.len() {
            line = end + 1;
        } else {
            line = end;
        }
    }
    None
}

/// One entry of the directory in which the system lists file systems by
/// their labels: a link, named by the label, to the device.
#[derive(Debug)]
pub struct LabelLink {
    /// The label, where it is text.
    pub label: Option<String>,
    /// The name of the device that the link leads to, where the link could be
    /// read.
    pub device: Option<String>,
}

/// A link that could not be read, by its place among the links.
#[derive(Debug, Clone, Copy, PartialEq, Eq, Structural)]
pub struct UnreadableLink {
    pub index: usize,
}

/// The label of the device named `name` according to the links from place
/// `from` on: the label of the first link that leads to the device, nothing
/// where no link does. A link that could not be read ends the search with a
/// failure that names it.
pub open spec fn label_from(links: Seq<LabelLink>, name: Seq<char>, from: int) -> Result<
    Option<Seq<char>>,
    UnreadableLink,
>
    decreases links.len() - from,
{
    if from < 0 || from >= links.len() {
        Ok(None)
    } else {
        match links[from].device {
            None => Err(UnreadableLink { index: from as usize }),
            Some(device) => if device@ == name {
                Ok(text_view(links[from].label))
            } else {
                label_from(links, name, from + 1)
            },
        }
    }
}

/// The label of the file system on the device named `name`, according to
/// the links `links`.
pub fn resolve_fs_label(links: &Vec<LabelLink>, name: &str) -> (found: Result<
    Option<String>,
    UnreadableLink,
>)
    ensures
        match found {
            Ok(label) => label_from(links@, name@, 0) == Ok::<Option<Seq<char>>, UnreadableLink>(
                text_view(label),
            ),
            Err(failure) => label_from(links@, name@, 0) == Err::<
                Option<Seq<char>>,
                UnreadableLink,
            >(failure),
        },
{
    let wanted = name.to_owned();
    let mut index: usize = 0;
    while index < links.len()
        invariant
            index <= links@.len(),
            wanted@ == name@,
            label_from(links@, name@, 0) == label_from(links@, name@, index as int),
        decreases links@.len() - index,
    {
        match &links[index].device {
            None => {
                return Err(UnreadableLink { index });
            },
            Some(device) => {
                if *device == wanted {
                    return match &links[index].label {
                        Some(label) => Ok(Some(label.clone())),
                        None => Ok(None),
                    };
                }
            },
        }
        index = index + 1;
    }
    Ok(None)
}

} // verus!
