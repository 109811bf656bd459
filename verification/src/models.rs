//! The removable drives the user can pick.
pub mod drive;

pub use drive::{Drive, DriveView, SizeUnit};
