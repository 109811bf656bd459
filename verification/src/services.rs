//! What the library decides about UDisks2: filesystem types, the calls of a
//! format, and which block devices are offered as removable drives.
pub mod format;
pub mod objects;
pub mod udisks;

pub use format::{
    partition_name_for_create, step_failure_context, FilesystemType, FormatService, FormatStep,
};
pub use objects::{BlockProperties, DriveProperties, ManagedObject};
pub use udisks::{combine_vendor_model, UDisksService};
