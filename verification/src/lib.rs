//! Core of a Linux network monitor: packet parsing, socket ownership, traffic
//! accounting, process blocking and the state behind the user interface.
//!
//! Nothing in this crate performs I/O. Whatever is read from the kernel, the
//! file system, a child process or the clock comes in as a plain value, and
//! whatever has to be sent or drawn goes out as one. Times are nanoseconds of
//! a monotonic clock.

pub mod aggregator;
pub mod capture;
pub mod collections;
pub mod controller;
pub mod net;
pub mod number;
pub mod resolver;
pub mod sort;
pub mod table;
pub mod text;
pub mod text_laws;
pub mod ui;
