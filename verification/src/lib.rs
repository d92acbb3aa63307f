//! Zenith: the logic of a lightweight Linux system monitor.
//!
//! - [`text`]: lines, whitespace tokens, trimming, prefixes over characters.
//! - [`number`]: decimal parsing (`u64`, `u32`, `i32`) and formatting.
//! - [`procfs`]: the formats of `/proc/stat`, `/proc/meminfo`, `/proc/loadavg`
//!   and a process's `cmdline`, `comm` and `status` files.
//! - [`snapshot`]: process ranking, CPU usage between samples, memory figures,
//!   process details, and the rows the view shows.
//! - [`ui`]: the interactive view's state and what each key or click does.
//!
//! Reading the files, drawing the terminal and sending signals are left to
//! the program that uses the library.
pub mod text;
pub mod number;
pub mod procfs;
pub mod snapshot;
pub mod ui;
