//! The UDisks2 objects (the reply of `GetManagedObjects`) as plain values:
//! for each object, the interfaces and properties that the library reads.
//! A property that is missing or does not hold a value of the expected
//! D-Bus type is `None`.
use vstd::prelude::*;

use crate::text::opt_view;

verus! {

/// Properties of the `org.freedesktop.UDisks2.Block` interface.
#[derive(Clone, Debug)]
pub struct BlockProperties {
    pub hint_system: Option<bool>,
    pub hint_ignore: Option<bool>,
    pub hint_partitionable: Option<bool>,
    pub read_only: Option<bool>,
    /// The `Drive` property, when it holds an object path.
    pub drive: Option<String>,
    pub size: Option<u64>,
    pub id_label: Option<String>,
    pub id_type: Option<String>,
    /// The bytes of `PreferredDevice`, when it holds a byte array.
    pub preferred_device: Option<Vec<u8>>,
    /// The bytes of `Device`, when it holds a byte array.
    pub device: Option<Vec<u8>>,
}

/// Properties of the `org.freedesktop.UDisks2.Drive` interface.
#[derive(Clone, Debug)]
pub struct DriveProperties {
    pub removable: Option<bool>,
    pub vendor: Option<String>,
    pub model: Option<String>,
}

/// One managed object: its path and the interfaces the library reads.
#[derive(Clone, Debug)]
pub struct ManagedObject {
    pub path: String,
    /// Whether the object has the `org.freedesktop.UDisks2.Partition` interface.
    pub has_partition_interface: bool,
    pub block: Option<BlockProperties>,
    pub drive: Option<DriveProperties>,
}

/// A boolean property, or `default` when it is absent.
pub open spec fn flag_or(o: Option<bool>, default: bool) -> bool {
    match o {
        Some(b) => b,
        None => default,
    }
}

/// The `Drive` object path of a block object, when it has one.
pub open spec fn block_drive_path(o: ManagedObject) -> Option<Seq<char>> {
    match o.block {
        Some(b) => opt_view(b.drive),
        None => None,
    }
}

} // verus!
