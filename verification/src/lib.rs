//! System utilities: fixed-capacity maps, reference counting and boxes with
//! allocation policies, borrow flags, error wrappers and parsers of system
//! information files.
pub mod borrow;
pub mod boxed;
pub mod common;
pub mod map;
pub mod one_error;
pub mod rc;
pub mod text;
pub mod sysinfo;
