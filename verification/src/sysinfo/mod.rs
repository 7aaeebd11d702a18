//! Readers of system information: disks, memory, processes, users, CPUs and
//! network interfaces. The files of the operating system are read by the caller;
//! the functions here parse their contents.
pub mod cpu;
pub mod disk;
pub mod error;
pub mod procfs;
pub mod memory;
pub mod network;
pub mod process;
pub mod user;
pub mod windows;
