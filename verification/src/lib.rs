//! A manager for `omp` child processes: what it decides, apart from running them.
//!
//! The manager starts omp processes that serve a web interface, keeps track of the ports that
//! they listen on and of the sessions and workspaces that they belong to, and runs omp commands
//! that install, remove and list packages. This library takes what was read from the
//! environment, the file system, the sockets and the processes as plain values and tells what
//! is to be done:
//!
//! - [`manager`] is the state of the manager and its operations, on top of [`sessions`].
//! - [`omp_binary`], [`extension`] and [`search_path`] find the binary, its extension and the
//!   search path for child processes; [`launch`] puts them together.
//! - [`shell`] and [`packages`] read what commands wrote, [`endpoint`] waits for a process.
//! - [`windows`], [`posix`], [`location`] and [`platform`] hold the rules for paths.
//! - [`text`] and [`json`] are what the others are written with.
//!
//! Proof functions whose names begin with `law_` state what holds across operations.
pub mod endpoint;
pub mod extension;
pub mod json;
pub mod launch;
pub mod location;
pub mod manager;
pub mod omp_binary;
pub mod packages;
pub mod platform;
pub mod posix;
pub mod search_path;
pub mod sessions;
pub mod shell;
pub mod text;
pub mod windows;
