//! A removable drive: a whole physical disk, not one of its partitions.
use vstd::prelude::*;

use crate::ordering::{views, TextKeyed};
use crate::text::{chars_of, opt_view, trim_str, trimmed};

verus! {

/// A removable disk as UDisks2 describes it.
#[derive(Clone, Debug)]
pub struct Drive {
    /// The device's file name, such as `sdd`.
    pub path: String,
    /// The device file, such as `/dev/sdd`.
    pub device_path: String,
    /// Size in bytes.
    pub size: u64,
    pub label: Option<String>,
    pub model: Option<String>,
    pub id_type: Option<String>,
    pub is_removable: bool,
    pub mount_points: Vec<String>,
    /// The UDisks2 block device object.
    pub object_path: String,
    /// The UDisks2 drive object the block device belongs to (used to find its partitions).
    pub drive_object_path: String,
}

/// A drive with its texts as views.
pub struct DriveView {
    pub path: Seq<char>,
    pub device_path: Seq<char>,
    pub size: u64,
    pub label: Option<Seq<char>>,
    pub model: Option<Seq<char>>,
    pub id_type: Option<Seq<char>>,
    pub is_removable: bool,
    pub mount_points: Seq<Seq<char>>,
    pub object_path: Seq<char>,
    pub drive_object_path: Seq<char>,
}

impl View for Drive {
    type V = DriveView;

    open spec fn view(&self) -> DriveView {
        DriveView {
            path: self.path@,
            device_path: self.device_path@,
            size: self.size,
            label: opt_view(self.label),
            model: opt_view(self.model),
            id_type: opt_view(self.id_type),
            is_removable: self.is_removable,
            mount_points: views(self.mount_points@),
            object_path: self.object_path@,
            drive_object_path: self.drive_object_path@,
        }
    }
}

impl TextKeyed for Drive {
    open spec fn key(&self) -> Seq<char> {
        self.path@
    }

    fn key_chars(&self) -> (r: Vec<char>) {
        chars_of(self.path.as_str())
    }
}

/// The name shown for a drive: its model when that is not blank (trimmed),
/// else its label, else its device name.
pub open spec fn display_name_view(d: DriveView) -> Seq<char> {
    match d.model {
        Some(m) if trimmed(m).len() > 0 => trimmed(m),
        _ => match d.label {
            Some(l) => l,
            None => d.path,
        },
    }
}

/// The unit a size is shown in.
#[derive(Clone, Copy, Debug, PartialEq, Eq, Structural)]
pub enum SizeUnit {
    Gigabytes,
    Megabytes,
    Kilobytes,
    Bytes,
}

/// The largest unit (of 1024 bytes, 1024² or 1024³ bytes) that fits in `size`
/// at least once; bytes below one kilobyte.
pub open spec fn size_unit_for(size: u64) -> SizeUnit {
    if size >= 1024 * 1024 * 1024 {
        SizeUnit::Gigabytes
    } else if size >= 1024 * 1024 {
        SizeUnit::Megabytes
    } else if size >= 1024 {
        SizeUnit::Kilobytes
    } else {
        SizeUnit::Bytes
    }
}

impl SizeUnit {
    pub open spec fn divisor_view(self) -> u64 {
        match self {
            SizeUnit::Gigabytes => 1073741824u64,
            SizeUnit::Megabytes => 1048576u64,
            SizeUnit::Kilobytes => 1024u64,
            SizeUnit::Bytes => 1u64,
        }
    }

    /// Bytes per unit.
    pub fn divisor(&self) -> (r: u64)
        ensures
            r == self.divisor_view(),
    {
        match self {
            SizeUnit::Gigabytes => 1024 * 1024 * 1024,
            SizeUnit::Megabytes => 1024 * 1024,
            SizeUnit::Kilobytes => 1024,
            SizeUnit::Bytes => 1,
        }
    }

    /// The unit's suffix in the size text.
    pub fn suffix(&self) -> (r: &'static str)
        ensures
            r@ == (match self {
                SizeUnit::Gigabytes => "GB"@,
                SizeUnit::Megabytes => "MB"@,
                SizeUnit::Kilobytes => "KB"@,
                SizeUnit::Bytes => "B"@,
            }),
    {
        match self {
            SizeUnit::Gigabytes => "GB",
            SizeUnit::Megabytes => "MB",
            SizeUnit::Kilobytes => "KB",
            SizeUnit::Bytes => "B",
        }
    }
}

impl Drive {
    /// The unit the drive's size is shown in.
    pub fn size_unit(&self) -> (r: SizeUnit)
        ensures
            r == size_unit_for(self.size),
    {
        if self.size >= 1024 * 1024 * 1024 {
            SizeUnit::Gigabytes
        } else if self.size >= 1024 * 1024 {
            SizeUnit::Megabytes
        } else if self.size >= 1024 {
            SizeUnit::Kilobytes
        } else {
            SizeUnit::Bytes
        }
    }

    /// The name shown for the drive: the model (trimmed) when not blank, else
    /// the label, else the device name.
    pub fn display_name(&self) -> (r: String)
        ensures
            r@ == display_name_view(self@),
    {
        if let Some(model) = &self.model {
            let t = trim_str(model.as_str());
            if t.unicode_len() > 0 {
                return t;
            }
        }
        match &self.label {
            Some(l) => l.clone(),
            None => self.path.clone(),
        }
    }
}

} // verus!
