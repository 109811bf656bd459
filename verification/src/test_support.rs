//! Builders of UDisks2 objects, for checking the listing and format rules on
//! fixed sets of objects.
use vstd::prelude::*;
use vstd::utf8::encode_utf8;

use crate::services::objects::{BlockProperties, DriveProperties, ManagedObject};
use crate::text::{opt_view, str_equal};

verus! {

/// The object path of the block device `name`.
pub open spec fn block_object_path(name: Seq<char>) -> Seq<char> {
    "/org/freedesktop/UDisks2/block_devices/"@ + name
}

/// The object path of the drive `name`.
pub open spec fn drive_object_path(name: Seq<char>) -> Seq<char> {
    "/org/freedesktop/UDisks2/drives/"@ + name
}

/// A device path as UDisks2 stores it: UTF-8 bytes ended by a NUL.
pub open spec fn device_bytes(dev: Seq<char>) -> Seq<u8> {
    encode_utf8(dev).push(0)
}

/// The first position of an object at `path`, or `-1`.
pub open spec fn index_of_path(objs: Seq<ManagedObject>, path: Seq<char>) -> int
    decreases objs.len(),
{
    if objs.len() == 0 {
        -1
    } else {
        let r = index_of_path(objs.drop_last(), path);
        if r >= 0 {
            r
        } else if objs.last().path@ == path {
            objs.len() - 1
        } else {
            -1
        }
    }
}

/// Where an object at `path` lands when it is put into `objs`: in place of
/// the one already there, else at the end.
pub open spec fn slot_for(objs: Seq<ManagedObject>, path: Seq<char>) -> int {
    if index_of_path(objs, path) >= 0 {
        index_of_path(objs, path)
    } else {
        objs.len() as int
    }
}

fn text(s: &str) -> (r: String)
    ensures
        r@ == s@,
{
    String::from_str(s)
}

fn concat(a: &str, b: &str) -> (r: String)
    ensures
        r@ == a@ + b@,
{
    let mut r = String::from_str(a);
    r.append(b);
    r
}

fn device_value(dev: &str) -> (r: Vec<u8>)
    ensures
        r@ == device_bytes(dev@),
{
    let mut bytes = dev.as_bytes_vec();
    bytes.push(0);
    bytes
}

/// Puts `obj` into `managed`: in place of the object at the same path, else at the end.
fn put_object(managed: &mut Vec<ManagedObject>, obj: ManagedObject)
    ensures
        final(managed)@.len() == if index_of_path(old(managed)@, obj.path@) >= 0 {
            old(managed)@.len()
        } else {
            old(managed)@.len() + 1
        },
        final(managed)@[slot_for(old(managed)@, obj.path@)] == obj,
        forall|i: int|
            0 <= i < old(managed)@.len() && i != slot_for(old(managed)@, obj.path@)
                ==> #[trigger] final(managed)@[i] == old(managed)@[i],
{
    let ghost start = managed@;
    let mut found: Option<usize> = None;
    let mut i: usize = 0;
    while i < managed.len() && found.is_none()
        invariant
            managed@ == start,
            i <= managed.len(),
            match found {
                Some(j) => j < managed.len() && index_of_path(start, obj.path@) == j as int,
                None => index_of_path(managed@.take(i as int), obj.path@) == -1,
            },
        decreases managed.len() - i,
    {
        assert(managed@.take(i + 1).drop_last() =~= managed@.take(i as int));
        if str_equal(managed[i].path.as_str(), obj.path.as_str()) {
            proof {
                lemma_index_of_path_extend(managed@, obj.path@, i as int);
            }
            found = Some(i);
        }
        i = i + 1;
    }
    match found {
        Some(j) => {
            managed.set(j, obj);
        },
        None => {
            assert(managed@.take(managed.len() as int) =~= managed@);
            managed.push(obj);
        },
    }
}

proof fn lemma_index_of_path_extend(objs: Seq<ManagedObject>, path: Seq<char>, i: int)
    requires
        0 <= i < objs.len(),
        index_of_path(objs.take(i), path) == -1,
        objs[i].path@ == path,
    ensures
        index_of_path(objs, path) == i,
    decreases objs.len(),
{
    if objs.len() == i + 1 {
        assert(objs.drop_last() =~= objs.take(i));
    } else {
        let d = objs.drop_last();
        assert(d.take(i) =~= objs.take(i));
        lemma_index_of_path_extend(d, path, i);
    }
}

/// Builds a block device object.
pub struct BlockBuilder {
    props: BlockProperties,
    is_partition: bool,
}

impl BlockBuilder {
    pub closed spec fn props(self) -> BlockProperties {
        self.props
    }

    pub closed spec fn is_partition(self) -> bool {
        self.is_partition
    }

    /// A whole disk `/dev/{name}` of 60 GB belonging to drive `drive_name`:
    /// not system, not ignored, partitionable and writable.
    pub fn whole_disk(name: &str, drive_name: &str) -> (r: Self)
        ensures
            r.props().hint_system == Some(false),
            r.props().hint_ignore == Some(false),
            r.props().hint_partitionable == Some(true),
            r.props().read_only == Some(false),
            opt_view(r.props().drive) == Some(drive_object_path(drive_name@)),
            r.props().size == Some(60_000_000_000u64),
            r.props().id_label is None,
            r.props().id_type is None,
            r.props().preferred_device matches Some(v) && v@ == device_bytes("/dev/"@ + name@),
            r.props().device is None,
            !r.is_partition(),
    {
        let dev = concat("/dev/", name);
        let props = BlockProperties {
            hint_system: Some(false),
            hint_ignore: Some(false),
            hint_partitionable: Some(true),
            read_only: Some(false),
            drive: Some(concat("/org/freedesktop/UDisks2/drives/", drive_name)),
            size: Some(60_000_000_000u64),
            id_label: None,
            id_type: None,
            preferred_device: Some(device_value(dev.as_str())),
            device: None,
        };
        BlockBuilder { props, is_partition: false }
    }

    /// Like `whole_disk`, but a partition.
    pub fn partition(name: &str, drive_name: &str) -> (r: Self)
        ensures
            r.props().hint_system == Some(false),
            r.props().hint_ignore == Some(false),
            r.props().hint_partitionable == Some(true),
            r.props().read_only == Some(false),
            opt_view(r.props().drive) == Some(drive_object_path(drive_name@)),
            r.props().size == Some(60_000_000_000u64),
            r.props().id_label is None,
            r.props().id_type is None,
            r.props().preferred_device matches Some(v) && v@ == device_bytes("/dev/"@ + name@),
            r.props().device is None,
            r.is_partition(),
    {
        let mut b = Self::whole_disk(name, drive_name);
        b.is_partition = true;
        b
    }

    pub fn hint_system(self, value: bool) -> (r: Self)
        ensures
            r.props() == (BlockProperties { hint_system: Some(value), ..self.props() }),
            r.is_partition() == self.is_partition(),
    {
        let mut b = self;
        b.props.hint_system = Some(value);
        b
    }

    pub fn hint_ignore(self, value: bool) -> (r: Self)
        ensures
            r.props() == (BlockProperties { hint_ignore: Some(value), ..self.props() }),
            r.is_partition() == self.is_partition(),
    {
        let mut b = self;
        b.props.hint_ignore = Some(value);
        b
    }

    pub fn hint_partitionable(self, value: bool) -> (r: Self)
        ensures
            r.props() == (BlockProperties { hint_partitionable: Some(value), ..self.props() }),
            r.is_partition() == self.is_partition(),
    {
        let mut b = self;
        b.props.hint_partitionable = Some(value);
        b
    }

    pub fn read_only(self, value: bool) -> (r: Self)
        ensures
            r.props() == (BlockProperties { read_only: Some(value), ..self.props() }),
            r.is_partition() == self.is_partition(),
    {
        let mut b = self;
        b.props.read_only = Some(value);
        b
    }

    /// Drops `PreferredDevice` and gives `Device` the path `dev`.
    pub fn device_instead_of_preferred(self, dev: &str) -> (r: Self)
        ensures
            r.props().preferred_device is None,
            r.props().device matches Some(v) && v@ == device_bytes(dev@),
            r.props().hint_system == self.props().hint_system,
            r.props().hint_ignore == self.props().hint_ignore,
            r.props().hint_partitionable == self.props().hint_partitionable,
            r.props().read_only == self.props().read_only,
            r.props().drive == self.props().drive,
            r.props().size == self.props().size,
            r.props().id_label == self.props().id_label,
            r.props().id_type == self.props().id_type,
            r.is_partition() == self.is_partition(),
    {
        let mut b = self;
        b.props.preferred_device = None;
        b.props.device = Some(device_value(dev));
        b
    }

    /// Puts the block object `block_devices/{block_name}` into `managed`,
    /// with the Partition interface when it is a partition.
    pub fn insert_into(self, managed: &mut Vec<ManagedObject>, block_name: &str)
        ensures
            ({
                let p = block_object_path(block_name@);
                let k = slot_for(old(managed)@, p);
                &&& final(managed)@.len() == if index_of_path(old(managed)@, p) >= 0 {
                    old(managed)@.len()
                } else {
                    old(managed)@.len() + 1
                }
                &&& final(managed)@[k].path@ == p
                &&& final(managed)@[k].has_partition_interface == self.is_partition()
                &&& final(managed)@[k].block == Some(self.props())
                &&& final(managed)@[k].drive is None
                &&& forall|i: int|
                    0 <= i < old(managed)@.len() && i != k ==> #[trigger] final(managed)@[i]
                        == old(managed)@[i]
            }),
    {
        let obj = ManagedObject {
            path: concat("/org/freedesktop/UDisks2/block_devices/", block_name),
            has_partition_interface: self.is_partition,
            block: Some(self.props),
            drive: None,
        };
        put_object(managed, obj);
    }
}

/// Builds a drive object.
pub struct DriveBuilder {
    removable: bool,
    vendor: String,
    model: String,
}

impl DriveBuilder {
    pub closed spec fn removable_view(self) -> bool {
        self.removable
    }

    pub closed spec fn vendor_view(self) -> Seq<char> {
        self.vendor@
    }

    pub closed spec fn model_view(self) -> Seq<char> {
        self.model@
    }

    /// A removable Kingston DataTraveler 3.0.
    pub fn removable(_name: &str) -> (r: Self)
        ensures
            r.removable_view(),
            r.vendor_view() == "Kingston"@,
            r.model_view() == "DataTraveler 3.0"@,
    {
        DriveBuilder { removable: true, vendor: text("Kingston"), model: text("DataTraveler 3.0") }
    }

    /// A fixed internal WDC disk.
    pub fn fixed(_name: &str) -> (r: Self)
        ensures
            !r.removable_view(),
            r.vendor_view() == "WDC"@,
            r.model_view() == "Internal"@,
    {
        DriveBuilder { removable: false, vendor: text("WDC"), model: text("Internal") }
    }

    /// Puts the drive object `drives/{drive_name}` into `managed`.
    pub fn insert_into(self, managed: &mut Vec<ManagedObject>, drive_name: &str)
        ensures
            ({
                let p = drive_object_path(drive_name@);
                let k = slot_for(old(managed)@, p);
                &&& final(managed)@.len() == if index_of_path(old(managed)@, p) >= 0 {
                    old(managed)@.len()
                } else {
                    old(managed)@.len() + 1
                }
                &&& final(managed)@[k].path@ == p
                &&& !final(managed)@[k].has_partition_interface
                &&& final(managed)@[k].block is None
                &&& final(managed)@[k].drive matches Some(d) && d.removable == Some(
                    self.removable_view(),
                ) && opt_view(d.vendor) == Some(self.vendor_view()) && opt_view(d.model) == Some(
                    self.model_view(),
                )
                &&& forall|i: int|
                    0 <= i < old(managed)@.len() && i != k ==> #[trigger] final(managed)@[i]
                        == old(managed)@[i]
            }),
    {
        let obj = ManagedObject {
            path: concat("/org/freedesktop/UDisks2/drives/", drive_name),
            has_partition_interface: false,
            block: None,
            drive: Some(
                DriveProperties {
                    removable: Some(self.removable),
                    vendor: Some(self.vendor),
                    model: Some(self.model),
                },
            ),
        };
        put_object(managed, obj);
    }
}

} // verus!
