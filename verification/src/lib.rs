//! A local control plane for QEMU-backed virtual machines.
//!
//! The library owns the catalog of named disks, machines and snapshots,
//! derives every on-disk location from a root directory, decides whether a
//! resource is in use from a captured process table, guards concurrent
//! invocations with per-resource advisory file locks, assembles the command
//! lines handed to the hypervisor and to the login client, and persists the
//! catalog as a structured, human-editable document.
//!
//! All input and output stays outside: callers read files, capture the
//! process table and spawn the assembled commands, then hand the results
//! back in as plain values.

mod codec;
mod command;
mod disk;
mod error;
mod library;
mod lock;
mod machine;
mod num;
pub mod paths;
mod scan;
mod snapshot;
mod state;
mod text;

pub use disk::Disk;
pub use disk::DiskV;
pub use error::Error;
pub use library::lemma_library_save_load_roundtrip;
pub use library::Library;
pub use lock::acquire_blocking;
pub use lock::acquire_exclusive;
pub use lock::LockHandle;
pub use machine::Machine;
pub use machine::MachineV;
pub use snapshot::Snapshot;
pub use snapshot::SnapshotV;
pub use state::lemma_add_add_remove;
pub use state::lemma_save_load_roundtrip;
pub use state::State;
pub use text::str_eq;
