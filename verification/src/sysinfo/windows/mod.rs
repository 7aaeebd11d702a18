//! The decisions of the Windows readers: which drives a drive mask names, how the answers
//! of the volume and space queries make a disk, how the process query is retried and its
//! entries walked, and how processes are named. The system calls themselves are made by
//! the caller, which hands their answers over as plain values.
pub mod cpu;
pub mod disk;
pub mod memory;
pub mod network;
pub mod process;
pub mod text;
