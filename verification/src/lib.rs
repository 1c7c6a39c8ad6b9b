//! The local control layer of the companion service: a guard that keeps
//! paths inside a sandbox root, a recursive copy, the classification of a
//! child process's output, and the startup of that child.
//!
//! Nothing here touches the disk, the console or a process. Each part decides
//! on plain values; the program around the library reads, writes and spawns.
pub mod classifier;
pub mod config;
pub mod copier;
pub mod disk;
pub mod error;
pub mod path;
pub mod path_guard;
pub mod relay;
pub mod severity;
pub mod supervisor;
pub mod text;
