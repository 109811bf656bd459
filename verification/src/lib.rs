//! The decisions and text rules of a removable-drive formatter: which drives
//! are offered, how a volume label is checked, which UDisks2 calls a format
//! makes, and how errors and environment problems are explained to the user.
pub mod text;
pub mod ordering;
pub mod services;
pub mod label_validation;
pub mod format_errors;
pub mod models;
pub mod environment;
pub mod updater;
pub mod window_state;
pub mod test_support;
