use vstd::prelude::*;

verus! {

use vstd::string::StringExecFns;

/// Every failure the library reports.
///
/// Callers that perform input and output construct `Io`, `MissingEnvVar` and
/// `InvalidPath` for failures met at the boundary; the catalog and lock
/// operations construct the remaining variants exactly as their contracts
/// state.
#[derive(Debug)]
pub enum Error {
    /// A filesystem or lock-file operation failed; the message is the
    /// underlying description.
    Io { message: String },
    /// A path cannot be represented as portable text (here: it contains a
    /// nul character, which no operating-system path may hold).
    InvalidPath { path: String },
    /// A required environment variable is unset.
    MissingEnvVar { name: String },
    /// The persisted state document is malformed.
    Deserialization,
    /// No disk of this name is registered.
    InvalidDisk { name: String },
    /// A disk of this name is already registered.
    DiskExists { name: String },
    /// The disk's image is referenced by a running process.
    DiskInUse { name: String },
    /// No running process references the disk's image.
    DiskNotInUse { name: String },
    /// No machine of this name is registered.
    InvalidMachine { name: String },
    /// A machine of this name is already registered.
    MachineExists { name: String },
    /// The machine's image is referenced by a running process.
    MachineInUse { name: String },
    /// No running process references the machine's image.
    MachineNotInUse { name: String },
    /// No snapshot of this name is registered.
    InvalidSnapshot { name: String },
    /// A snapshot of this name is already registered.
    SnapshotExists { name: String },
    /// The snapshot's image is referenced by a running process.
    SnapshotInUse { name: String },
    /// No running process references the snapshot's image.
    SnapshotNotInUse { name: String },
    /// The exclusive lock on this lock file could not be claimed without
    /// blocking, usually because another live invocation holds it:
    /// distinct from the liveness probe's in-use signal.
    ResourceClaimed { path: String },
    /// An unclassified failure.
    Unknown,
}

impl Error {
    /// The human-readable description of the failed precondition.
    pub open spec fn message_spec(&self) -> Seq<char> {
        match self {
            Error::Io { message } => "io error: "@ + message@,
            Error::InvalidPath { path } => "invalid path: "@ + path@,
            Error::MissingEnvVar { name } => "missing environment variable: "@ + name@,
            Error::Deserialization => "deserialization error"@,
            Error::InvalidDisk { name } => "invalid disk: "@ + name@,
            Error::DiskExists { name } => "disk exists: "@ + name@,
            Error::DiskInUse { name } => "disk in use: "@ + name@,
            Error::DiskNotInUse { name } => "disk not in use: "@ + name@,
            Error::InvalidMachine { name } => "invalid machine: "@ + name@,
            Error::MachineExists { name } => "machine exists: "@ + name@,
            Error::MachineInUse { name } => "machine in use: "@ + name@,
            Error::MachineNotInUse { name } => "machine not in use: "@ + name@,
            Error::InvalidSnapshot { name } => "invalid snapshot: "@ + name@,
            Error::SnapshotExists { name } => "snapshot exists: "@ + name@,
            Error::SnapshotInUse { name } => "snapshot in use: "@ + name@,
            Error::SnapshotNotInUse { name } => "snapshot not in use: "@ + name@,
            Error::ResourceClaimed { path } => "resource claimed: "@ + path@,
            Error::Unknown => "unknown error"@,
        }
    }

    /// Renders [`Self::message_spec`].
    pub fn message(&self) -> (r: String)
        ensures
            r@ == self.message_spec(),
    {
        match self {
            Error::Io { message } => {
                let mut s = "io error: ".to_owned();
                s.append(message.as_str());
                s
            },
            Error::InvalidPath { path } => {
                let mut s = "invalid path: ".to_owned();
                s.append(path.as_str());
                s
            },
            Error::MissingEnvVar { name } => {
                let mut s = "missing environment variable: ".to_owned();
                s.append(name.as_str());
                s
            },
            Error::Deserialization => "deserialization error".to_owned(),
            Error::InvalidDisk { name } => {
                let mut s = "invalid disk: ".to_owned();
                s.append(name.as_str());
                s
            },
            Error::DiskExists { name } => {
                let mut s = "disk exists: ".to_owned();
                s.append(name.as_str());
                s
            },
            Error::DiskInUse { name } => {
                let mut s = "disk in use: ".to_owned();
                s.append(name.as_str());
                s
            },
            Error::DiskNotInUse { name } => {
                let mut s = "disk not in use: ".to_owned();
                s.append(name.as_str());
                s
            },
            Error::InvalidMachine { name } => {
                let mut s = "invalid machine: ".to_owned();
                s.append(name.as_str());
                s
            },
            Error::MachineExists { name } => {
                let mut s = "machine exists: ".to_owned();
                s.append(name.as_str());
                s
            },
            Error::MachineInUse { name } => {
                let mut s = "machine in use: ".to_owned();
                s.append(name.as_str());
                s
            },
            Error::MachineNotInUse { name } => {
                let mut s = "machine not in use: ".to_owned();
                s.append(name.as_str());
                s
            },
            Error::InvalidSnapshot { name } => {
                let mut s = "invalid snapshot: ".to_owned();
                s.append(name.as_str());
                s
            },
            Error::SnapshotExists { name } => {
                let mut s = "snapshot exists: ".to_owned();
                s.append(name.as_str());
                s
            },
            Error::SnapshotInUse { name } => {
                let mut s = "snapshot in use: ".to_owned();
                s.append(name.as_str());
                s
            },
            Error::SnapshotNotInUse { name } => {
                let mut s = "snapshot not in use: ".to_owned();
                s.append(name.as_str());
                s
            },
            Error::ResourceClaimed { path } => {
                let mut s = "resource claimed: ".to_owned();
                s.append(path.as_str());
                s
            },
            Error::Unknown => "unknown error".to_owned(),
        }
    }
}

} // verus!
