//! The resource registry and state store: the catalog of disks, machines
//! and snapshots, keyed by unique name, with its persistence, its liveness
//! decisions over a captured process table, and the command lines its
//! operations hand to the hypervisor.
//!
//! Re-adding a name that is already registered fails with the matching
//! `<Kind>Exists` error and changes nothing; removal is catalog-only and
//! never touches the underlying image file.

use vstd::prelude::*;
use crate::codec;
use crate::command;
use crate::disk::Disk;
use crate::disk::DiskV;
use crate::error::Error;
use crate::machine::Machine;
use crate::machine::MachineV;
use crate::paths;
use crate::scan;
use crate::snapshot::Snapshot;
use crate::snapshot::SnapshotV;
use crate::text;

verus! {

/// Some registered disk carries this name.
pub open spec fn has_disk(ds: Seq<DiskV>, name: Seq<char>) -> bool {
    exists|i: int| 0 <= i < ds.len() && (#[trigger] ds[i]).name == name
}

pub open spec fn has_machine(ms: Seq<MachineV>, name: Seq<char>) -> bool {
    exists|i: int| 0 <= i < ms.len() && (#[trigger] ms[i]).name == name
}

pub open spec fn has_snapshot(ns: Seq<SnapshotV>, name: Seq<char>) -> bool {
    exists|i: int| 0 <= i < ns.len() && (#[trigger] ns[i]).name == name
}

/// The registered disk of this name; meaningful under uniqueness.
pub open spec fn disk_named(ds: Seq<DiskV>, name: Seq<char>) -> DiskV {
    ds[choose|i: int| 0 <= i < ds.len() && (#[trigger] ds[i]).name == name]
}

pub open spec fn machine_named(ms: Seq<MachineV>, name: Seq<char>) -> MachineV {
    ms[choose|i: int| 0 <= i < ms.len() && (#[trigger] ms[i]).name == name]
}

pub open spec fn snapshot_named(ns: Seq<SnapshotV>, name: Seq<char>) -> SnapshotV {
    ns[choose|i: int| 0 <= i < ns.len() && (#[trigger] ns[i]).name == name]
}

/// Every key of the map equals the name of its descriptor, so a map is a
/// sequence whose names never repeat.
pub open spec fn unique_disks(ds: Seq<DiskV>) -> bool {
    forall|i: int, j: int| 0 <= i < j < ds.len() ==> (#[trigger] ds[i]).name != (#[trigger] ds[j]).name
}

pub open spec fn unique_machines(ms: Seq<MachineV>) -> bool {
    forall|i: int, j: int| 0 <= i < j < ms.len() ==> (#[trigger] ms[i]).name != (#[trigger] ms[j]).name
}

pub open spec fn unique_snapshots(ns: Seq<SnapshotV>) -> bool {
    forall|i: int, j: int| 0 <= i < j < ns.len() ==> (#[trigger] ns[i]).name != (#[trigger] ns[j]).name
}

/// The document parses and yields a catalog whose names are unique per
/// kind: exactly the documents the state store accepts.
pub open spec fn well_formed_doc(t: Seq<char>) -> bool {
    match codec::parse_doc(t) {
        None => false,
        Some(p) => unique_disks(p.0) && unique_machines(p.1) && unique_snapshots(p.2),
    }
}

/// The catalog of one root directory, mirrored to one persisted document.
pub struct State {
    path: String,
    disks: Vec<Disk>,
    machines: Vec<Machine>,
    snapshots: Vec<Snapshot>,
}

impl State {
    /// The root directory every location is derived from.
    pub closed spec fn root(&self) -> Seq<char> {
        self.path@
    }

    /// The registered disks, in registration order.
    pub closed spec fn disks_seq(&self) -> Seq<DiskV> {
        codec::disk_views(self.disks@)
    }

    pub closed spec fn machines_seq(&self) -> Seq<MachineV> {
        codec::machine_views(self.machines@)
    }

    pub closed spec fn snapshots_seq(&self) -> Seq<SnapshotV> {
        codec::snapshot_views(self.snapshots@)
    }

    /// Names are unique within each kind of resource.
    pub open spec fn wf(&self) -> bool {
        unique_disks(self.disks_seq()) && unique_machines(self.machines_seq())
            && unique_snapshots(self.snapshots_seq())
    }

    /// The persisted document of this catalog.
    pub open spec fn doc(&self) -> Seq<char> {
        codec::render_doc(self.disks_seq(), self.machines_seq(), self.snapshots_seq())
    }

    /// Loads the catalog rooted at `path` from the state document's text,
    /// or starts a fresh, empty catalog when no document exists yet.
    /// Callers read the document file and create the directory skeleton;
    /// a malformed document, including one with a repeated name, fails
    /// with `Deserialization`.
    pub fn load(path: String, text: Option<&str>) -> (r: Result<State, Error>)
        ensures
            match r {
                Ok(st) => st.wf() && st.root() == path@ && (match text {
                    None => st.disks_seq() =~= Seq::<DiskV>::empty() && st.machines_seq()
                        =~= Seq::<MachineV>::empty() && st.snapshots_seq()
                        =~= Seq::<SnapshotV>::empty(),
                    Some(t) => codec::parse_doc(t@) == Some(
                        (st.disks_seq(), st.machines_seq(), st.snapshots_seq()),
                    ) && well_formed_doc(t@),
                }),
                Err(e) => e matches Error::Deserialization && (match text {
                    None => false,
                    Some(t) => !well_formed_doc(t@),
                }),
            },
    {
        match text {
            None => {
                let st = State {
                    path,
                    disks: Vec::new(),
                    machines: Vec::new(),
                    snapshots: Vec::new(),
                };
                proof {
                    assert(st.disks_seq() =~= Seq::<DiskV>::empty());
                    assert(st.machines_seq() =~= Seq::<MachineV>::empty());
                    assert(st.snapshots_seq() =~= Seq::<SnapshotV>::empty());
                }
                Ok(st)
            },
            Some(t) => {
                let cs = text::chars_of(t);
                match codec::scan_catalog(&cs) {
                    None => Err(Error::Deserialization),
                    Some((disks, machines, snapshots)) => {
                        if !disks_unique(&disks) {
                            return Err(Error::Deserialization);
                        }
                        if !machines_unique(&machines) {
                            return Err(Error::Deserialization);
                        }
                        if !snapshots_unique(&snapshots) {
                            return Err(Error::Deserialization);
                        }
                        Ok(State { path, disks, machines, snapshots })
                    },
                }
            },
        }
    }

    /// Renders the catalog as the text of the state document; callers
    /// overwrite the document file with it.
    pub fn save(&self) -> (r: String)
        ensures
            r@ == self.doc(),
    {
        let cs = codec::render_catalog(&self.disks, &self.machines, &self.snapshots);
        text::string_of(&cs)
    }

    /// Whether a running process references the image of the disk called
    /// `name`, judged against the captured process table `table`; fails
    /// with `InvalidDisk` exactly when no such disk is registered.
    pub fn disk_in_use(&self, name: &str, table: &str) -> (r: Result<bool, Error>)
        ensures
            match r {
                Ok(b) => has_disk(self.disks_seq(), name@) && b == scan::table_mentions(
                    table@,
                    paths::disk_path_spec(self.root(), name@),
                ),
                Err(e) => (e matches Error::InvalidDisk { name: n } && n@ == name@) && !has_disk(
                    self.disks_seq(),
                    name@,
                ),
            },
    {
        match find_disk(&self.disks, name) {
            None => Err(Error::InvalidDisk { name: name.to_owned() }),
            Some(_) => {
                let p = paths::disk_path(self.path.as_str(), name);
                let t = text::chars_of(table);
                let n = text::chars_of(p.as_str());
                Ok(scan::contains_chars(&t, &n))
            },
        }
    }

    /// Whether a running process references the image of the machine
    /// called `name`; fails with `InvalidMachine` exactly when no such
    /// machine is registered.
    pub fn machine_in_use(&self, name: &str, table: &str) -> (r: Result<bool, Error>)
        ensures
            match r {
                Ok(b) => has_machine(self.machines_seq(), name@) && b == scan::table_mentions(
                    table@,
                    paths::machine_path_spec(self.root(), name@),
                ),
                Err(e) => (e matches Error::InvalidMachine { name: n } && n@ == name@)
                    && !has_machine(self.machines_seq(), name@),
            },
    {
        match find_machine(&self.machines, name) {
            None => Err(Error::InvalidMachine { name: name.to_owned() }),
            Some(_) => {
                let p = paths::machine_path(self.path.as_str(), name);
                let t = text::chars_of(table);
                let n = text::chars_of(p.as_str());
                Ok(scan::contains_chars(&t, &n))
            },
        }
    }

    /// Whether a running process references the overlay image of the
    /// snapshot called `name`; fails with `InvalidSnapshot` exactly when
    /// no such snapshot is registered.
    pub fn snapshot_in_use(&self, name: &str, table: &str) -> (r: Result<bool, Error>)
        ensures
            match r {
                Ok(b) => has_snapshot(self.snapshots_seq(), name@) && b == scan::table_mentions(
                    table@,
                    paths::snapshot_path_spec(self.root(), name@),
                ),
                Err(e) => (e matches Error::InvalidSnapshot { name: n } && n@ == name@)
                    && !has_snapshot(self.snapshots_seq(), name@),
            },
    {
        match find_snapshot(&self.snapshots, name) {
            None => Err(Error::InvalidSnapshot { name: name.to_owned() }),
            Some(_) => {
                let p = paths::snapshot_path(self.path.as_str(), name);
                let t = text::chars_of(table);
                let n = text::chars_of(p.as_str());
                Ok(scan::contains_chars(&t, &n))
            },
        }
    }

    /// Registers a disk and yields the image-creation command for its
    /// fresh image; fails with `DiskExists` exactly when the name is
    /// already registered, changing nothing.
    pub fn add_disk(&mut self, name: &str, size: usize) -> (r: Result<Vec<String>, Error>)
        requires
            old(self).wf(),
        ensures
            final(self).wf(),
            final(self).root() == old(self).root(),
            final(self).machines_seq() == old(self).machines_seq(),
            final(self).snapshots_seq() == old(self).snapshots_seq(),
            match r {
                Ok(cmd) => !has_disk(old(self).disks_seq(), name@) && final(self).disks_seq()
                    == old(self).disks_seq().push(DiskV { name: name@, size: size as nat })
                    && command::args_views(cmd@) == command::imager_create_args(
                    paths::disk_path_spec(old(self).root(), name@),
                    size as nat,
                ),
                Err(e) => (e matches Error::DiskExists { name: n } && n@ == name@) && has_disk(
                    old(self).disks_seq(),
                    name@,
                ) && *final(self) == *old(self),
            },
    {
        match find_disk(&self.disks, name) {
            Some(_) => Err(Error::DiskExists { name: name.to_owned() }),
            None => {
                let d = Disk { name: name.to_owned(), size };
                proof {
                    assert(codec::disk_views(self.disks@.push(d)) =~= codec::disk_views(
                        self.disks@,
                    ).push(d@));
                }
                self.disks.push(d);
                let image = paths::disk_path(self.path.as_str(), name);
                let cmd = command::build_imager_create(&image, size);
                Ok(cmd)
            },
        }
    }

    /// The descriptor of the disk called `name`; fails with `InvalidDisk`
    /// exactly when it is not registered.
    pub fn get_disk(&self, name: &str) -> (r: Result<&Disk, Error>)
        requires
            self.wf(),
        ensures
            match r {
                Ok(d) => has_disk(self.disks_seq(), name@) && d@ == disk_named(
                    self.disks_seq(),
                    name@,
                ) && d@.name == name@,
                Err(e) => (e matches Error::InvalidDisk { name: n } && n@ == name@) && !has_disk(
                    self.disks_seq(),
                    name@,
                ),
            },
    {
        match find_disk(&self.disks, name) {
            None => Err(Error::InvalidDisk { name: name.to_owned() }),
            Some(i) => {
                proof {
                    let k = choose|k: int|
                        0 <= k < self.disks_seq().len() && (#[trigger] self.disks_seq()[
                            k
                        ]).name == name@;
                    assert(k == i as int);
                }
                Ok(&self.disks[i])
            },
        }
    }

    /// Unregisters the disk called `name`; fails with `InvalidDisk` when
    /// it is absent and with `DiskInUse` when the captured process table
    /// reports its image in use — either failure changes nothing. Removal
    /// is catalog-only: the image file stays behind.
    pub fn remove_disk(&mut self, name: &str, table: &str) -> (r: Result<(), Error>)
        requires
            old(self).wf(),
        ensures
            final(self).wf(),
            final(self).root() == old(self).root(),
            final(self).machines_seq() == old(self).machines_seq(),
            final(self).snapshots_seq() == old(self).snapshots_seq(),
            match r {
                Ok(()) => has_disk(old(self).disks_seq(), name@) && !scan::table_mentions(
                    table@,
                    paths::disk_path_spec(old(self).root(), name@),
                ) && !has_disk(final(self).disks_seq(), name@) && (forall|n: Seq<char>|
                    n != name@ ==> has_disk(final(self).disks_seq(), n) == has_disk(
                        old(self).disks_seq(),
                        n,
                    )) && (forall|d: DiskV|
                    d.name != name@ ==> final(self).disks_seq().contains(d) == old(self).disks_seq().contains(d)) && final(self).disks_seq().len() == old(self).disks_seq().len() - 1,
                Err(e) => *final(self) == *old(self) && ((e matches Error::InvalidDisk {
                    name: n,
                } && n@ == name@ && !has_disk(old(self).disks_seq(), name@)) || (
                e matches Error::DiskInUse { name: n } && n@ == name@ && has_disk(
                    old(self).disks_seq(),
                    name@,
                ) && scan::table_mentions(
                    table@,
                    paths::disk_path_spec(old(self).root(), name@),
                ))),
            },
    {
        match find_disk(&self.disks, name) {
            None => Err(Error::InvalidDisk { name: name.to_owned() }),
            Some(i) => {
                let p = paths::disk_path(self.path.as_str(), name);
                let t = text::chars_of(table);
                let n = text::chars_of(p.as_str());
                if scan::contains_chars(&t, &n) {
                    return Err(Error::DiskInUse { name: name.to_owned() });
                }
                proof {
                    lemma_remove_disk_at(self.disks_seq(), i as int, name@);
                    assert(codec::disk_views(self.disks@.remove(i as int)) =~= codec::disk_views(
                        self.disks@,
                    ).remove(i as int));
                }
                self.disks.remove(i);
                Ok(())
            },
        }
    }

    /// Registers a machine and yields the image-creation command for its
    /// fresh image; fails with `MachineExists` exactly when the name is
    /// already registered, changing nothing.
    pub fn add_machine(&mut self, name: &str, port: u16, size: usize) -> (r: Result<
        Vec<String>,
        Error,
    >)
        requires
            old(self).wf(),
        ensures
            final(self).wf(),
            final(self).root() == old(self).root(),
            final(self).disks_seq() == old(self).disks_seq(),
            final(self).snapshots_seq() == old(self).snapshots_seq(),
            match r {
                Ok(cmd) => !has_machine(old(self).machines_seq(), name@) && final(self).machines_seq() == old(self).machines_seq().push(
                    MachineV { name: name@, port: port as nat, size: size as nat },
                ) && command::args_views(cmd@) == command::imager_create_args(
                    paths::machine_path_spec(old(self).root(), name@),
                    size as nat,
                ),
                Err(e) => (e matches Error::MachineExists { name: n } && n@ == name@)
                    && has_machine(old(self).machines_seq(), name@) && *final(self) == *old(self),
            },
    {
        match find_machine(&self.machines, name) {
            Some(_) => Err(Error::MachineExists { name: name.to_owned() }),
            None => {
                let m = Machine { name: name.to_owned(), port, size };
                proof {
                    assert(codec::machine_views(self.machines@.push(m)) =~= codec::machine_views(
                        self.machines@,
                    ).push(m@));
                }
                self.machines.push(m);
                let image = paths::machine_path(self.path.as_str(), name);
                let cmd = command::build_imager_create(&image, size);
                Ok(cmd)
            },
        }
    }

    /// The descriptor of the machine called `name`; fails with
    /// `InvalidMachine` exactly when it is not registered.
    pub fn get_machine(&self, name: &str) -> (r: Result<&Machine, Error>)
        requires
            self.wf(),
        ensures
            match r {
                Ok(m) => has_machine(self.machines_seq(), name@) && m@ == machine_named(
                    self.machines_seq(),
                    name@,
                ) && m@.name == name@,
                Err(e) => (e matches Error::InvalidMachine { name: n } && n@ == name@)
                    && !has_machine(self.machines_seq(), name@),
            },
    {
        match find_machine(&self.machines, name) {
            None => Err(Error::InvalidMachine { name: name.to_owned() }),
            Some(i) => {
                proof {
                    let k = choose|k: int|
                        0 <= k < self.machines_seq().len() && (#[trigger] self.machines_seq()[
                            k
                        ]).name == name@;
                    assert(k == i as int);
                }
                Ok(&self.machines[i])
            },
        }
    }

    /// Unregisters the machine called `name`; fails with `InvalidMachine`
    /// when it is absent and with `MachineInUse` when the captured
    /// process table reports its image in use — either failure changes
    /// nothing.
    pub fn remove_machine(&mut self, name: &str, table: &str) -> (r: Result<(), Error>)
        requires
            old(self).wf(),
        ensures
            final(self).wf(),
            final(self).root() == old(self).root(),
            final(self).disks_seq() == old(self).disks_seq(),
            final(self).snapshots_seq() == old(self).snapshots_seq(),
            match r {
                Ok(()) => has_machine(old(self).machines_seq(), name@) && !scan::table_mentions(
                    table@,
                    paths::machine_path_spec(old(self).root(), name@),
                ) && !has_machine(final(self).machines_seq(), name@) && (forall|n: Seq<char>|
                    n != name@ ==> has_machine(final(self).machines_seq(), n) == has_machine(
                        old(self).machines_seq(),
                        n,
                    )) && (forall|m: MachineV|
                    m.name != name@ ==> final(self).machines_seq().contains(m) == old(self).machines_seq().contains(m)) && final(self).machines_seq().len() == old(self).machines_seq().len() - 1,
                Err(e) => *final(self) == *old(self) && ((e matches Error::InvalidMachine {
                    name: n,
                } && n@ == name@ && !has_machine(old(self).machines_seq(), name@)) || (
                e matches Error::MachineInUse { name: n } && n@ == name@ && has_machine(
                    old(self).machines_seq(),
                    name@,
                ) && scan::table_mentions(
                    table@,
                    paths::machine_path_spec(old(self).root(), name@),
                ))),
            },
    {
        match find_machine(&self.machines, name) {
            None => Err(Error::InvalidMachine { name: name.to_owned() }),
            Some(i) => {
                let p = paths::machine_path(self.path.as_str(), name);
                let t = text::chars_of(table);
                let n = text::chars_of(p.as_str());
                if scan::contains_chars(&t, &n) {
                    return Err(Error::MachineInUse { name: name.to_owned() });
                }
                proof {
                    lemma_remove_machine_at(self.machines_seq(), i as int, name@);
                    assert(codec::machine_views(self.machines@.remove(i as int))
                        =~= codec::machine_views(self.machines@).remove(i as int));
                }
                self.machines.remove(i);
                Ok(())
            },
        }
    }

    /// Registers a snapshot of the machine called `base`, copying the
    /// base's port and size, and yields the image-creation command for
    /// the copy-on-write overlay backed by the base's current image.
    /// Fails with `SnapshotExists` when the name is already registered
    /// and with `InvalidMachine` when the base is absent — either failure
    /// changes nothing.
    pub fn add_snapshot(&mut self, name: &str, base: &str) -> (r: Result<Vec<String>, Error>)
        requires
            old(self).wf(),
        ensures
            final(self).wf(),
            final(self).root() == old(self).root(),
            final(self).disks_seq() == old(self).disks_seq(),
            final(self).machines_seq() == old(self).machines_seq(),
            match r {
                Ok(cmd) => !has_snapshot(old(self).snapshots_seq(), name@) && has_machine(
                    old(self).machines_seq(),
                    base@,
                ) && final(self).snapshots_seq() == old(self).snapshots_seq().push(
                    SnapshotV {
                        name: name@,
                        base: base@,
                        port: machine_named(old(self).machines_seq(), base@).port,
                        size: machine_named(old(self).machines_seq(), base@).size,
                    },
                ) && command::args_views(cmd@) == command::imager_overlay_args(
                    paths::machine_path_spec(old(self).root(), base@),
                    paths::snapshot_path_spec(old(self).root(), name@),
                ),
                Err(e) => *final(self) == *old(self) && ((e matches Error::SnapshotExists {
                    name: n,
                } && n@ == name@ && has_snapshot(old(self).snapshots_seq(), name@)) || (
                e matches Error::InvalidMachine { name: n } && n@ == base@ && !has_snapshot(
                    old(self).snapshots_seq(),
                    name@,
                ) && !has_machine(old(self).machines_seq(), base@))),
            },
    {
        match find_snapshot(&self.snapshots, name) {
            Some(_) => Err(Error::SnapshotExists { name: name.to_owned() }),
            None => {
                let m = match self.get_machine(base) {
                    Err(e) => {
                        return Err(e);
                    },
                    Ok(m) => m,
                };
                let n = Snapshot {
                    name: name.to_owned(),
                    base: base.to_owned(),
                    port: m.port,
                    size: m.size,
                };
                proof {
                    assert(codec::snapshot_views(self.snapshots@.push(n))
                        =~= codec::snapshot_views(self.snapshots@).push(n@));
                }
                self.snapshots.push(n);
                let base_image = paths::machine_path(self.path.as_str(), base);
                let overlay = paths::snapshot_path(self.path.as_str(), name);
                let cmd = command::build_imager_overlay(&base_image, &overlay);
                Ok(cmd)
            },
        }
    }

    /// The descriptor of the snapshot called `name`; fails with
    /// `InvalidSnapshot` exactly when it is not registered.
    pub fn get_snapshot(&self, name: &str) -> (r: Result<&Snapshot, Error>)
        requires
            self.wf(),
        ensures
            match r {
                Ok(n) => has_snapshot(self.snapshots_seq(), name@) && n@ == snapshot_named(
                    self.snapshots_seq(),
                    name@,
                ) && n@.name == name@,
                Err(e) => (e matches Error::InvalidSnapshot { name: n } && n@ == name@)
                    && !has_snapshot(self.snapshots_seq(), name@),
            },
    {
        match find_snapshot(&self.snapshots, name) {
            None => Err(Error::InvalidSnapshot { name: name.to_owned() }),
            Some(i) => {
                proof {
                    let k = choose|k: int|
                        0 <= k < self.snapshots_seq().len() && (#[trigger] self.snapshots_seq()[
                            k
                        ]).name == name@;
                    assert(k == i as int);
                }
                Ok(&self.snapshots[i])
            },
        }
    }

    /// Unregisters the snapshot called `name`; fails with
    /// `InvalidSnapshot` when it is absent and with `SnapshotInUse` when
    /// the captured process table reports its overlay in use — either
    /// failure changes nothing.
    pub fn remove_snapshot(&mut self, name: &str, table: &str) -> (r: Result<(), Error>)
        requires
            old(self).wf(),
        ensures
            final(self).wf(),
            final(self).root() == old(self).root(),
            final(self).disks_seq() == old(self).disks_seq(),
            final(self).machines_seq() == old(self).machines_seq(),
            match r {
                Ok(()) => has_snapshot(old(self).snapshots_seq(), name@) && !scan::table_mentions(
                    table@,
                    paths::snapshot_path_spec(old(self).root(), name@),
                ) && !has_snapshot(final(self).snapshots_seq(), name@) && (forall|n: Seq<char>|
                    n != name@ ==> has_snapshot(final(self).snapshots_seq(), n) == has_snapshot(
                        old(self).snapshots_seq(),
                        n,
                    )) && (forall|m: SnapshotV|
                    m.name != name@ ==> final(self).snapshots_seq().contains(m) == old(self).snapshots_seq().contains(m)) && final(self).snapshots_seq().len() == old(self).snapshots_seq().len() - 1,
                Err(e) => *final(self) == *old(self) && ((e matches Error::InvalidSnapshot {
                    name: n,
                } && n@ == name@ && !has_snapshot(old(self).snapshots_seq(), name@)) || (
                e matches Error::SnapshotInUse { name: n } && n@ == name@ && has_snapshot(
                    old(self).snapshots_seq(),
                    name@,
                ) && scan::table_mentions(
                    table@,
                    paths::snapshot_path_spec(old(self).root(), name@),
                ))),
            },
    {
        match find_snapshot(&self.snapshots, name) {
            None => Err(Error::InvalidSnapshot { name: name.to_owned() }),
            Some(i) => {
                let p = paths::snapshot_path(self.path.as_str(), name);
                let t = text::chars_of(table);
                let n = text::chars_of(p.as_str());
                if scan::contains_chars(&t, &n) {
                    return Err(Error::SnapshotInUse { name: name.to_owned() });
                }
                proof {
                    lemma_remove_snapshot_at(self.snapshots_seq(), i as int, name@);
                    assert(codec::snapshot_views(self.snapshots@.remove(i as int))
                        =~= codec::snapshot_views(self.snapshots@).remove(i as int));
                }
                self.snapshots.remove(i);
                Ok(())
            },
        }
    }

    /// Assembles the full hypervisor command line that runs the machine
    /// (or, with `snapshot`, the snapshot) called `name`: the fixed
    /// template around its image and port, one secondary drive per listed
    /// disk, and the optional boot image. Fails with the matching
    /// not-found error when the name is absent, with `InvalidDisk` when a
    /// listed disk is unregistered, and with `DiskInUse` when the
    /// captured process table reports a listed disk's image in use — all
    /// before anything could be spawned. Callers spawn the result;
    /// `runner` is the platform's hypervisor executable and `uefi` the
    /// firmware path from the environment.
    pub fn start(
        &self,
        name: &str,
        cores: usize,
        ram: usize,
        snapshot: bool,
        disks: &Vec<String>,
        iso: Option<&String>,
        runner: &str,
        uefi: &str,
        table: &str,
    ) -> (r: Result<Vec<String>, Error>)
        requires
            self.wf(),
        ensures
            ({
                let names = command::args_views(disks@);
                let found = if snapshot {
                    has_snapshot(self.snapshots_seq(), name@)
                } else {
                    has_machine(self.machines_seq(), name@)
                };
                let image = if snapshot {
                    paths::snapshot_path_spec(self.root(), name@)
                } else {
                    paths::machine_path_spec(self.root(), name@)
                };
                let port = if snapshot {
                    snapshot_named(self.snapshots_seq(), name@).port
                } else {
                    machine_named(self.machines_seq(), name@).port
                };
                let isov = match iso {
                    None => None::<Seq<char>>,
                    Some(p) => Some(p@),
                };
                match r {
                    Ok(cmd) => found && (forall|i: int|
                        0 <= i < names.len() ==> has_disk(self.disks_seq(), #[trigger] names[i])
                            && !scan::table_mentions(
                            table@,
                            paths::disk_path_spec(self.root(), names[i]),
                        )) && command::args_views(cmd@) == command::hypervisor_base_args(
                        runner@,
                        uefi@,
                        image,
                        port,
                        cores as nat,
                        ram as nat,
                    ) + drives_for(self.root(), names) + command::cdrom_args(isov),
                    Err(e) => (snapshot && (e matches Error::InvalidSnapshot { name: n } && n@
                        == name@ && !found)) || (!snapshot && (e matches Error::InvalidMachine {
                        name: n,
                    } && n@ == name@ && !found)) || (found && (e matches Error::InvalidDisk {
                        name: n,
                    } && exists|i: int|
                        0 <= i < names.len() && #[trigger] names[i] == n@ && !has_disk(
                            self.disks_seq(),
                            names[i],
                        ) && (forall|j: int|
                            0 <= j < i ==> has_disk(self.disks_seq(), #[trigger] names[j])
                                && !scan::table_mentions(
                                table@,
                                paths::disk_path_spec(self.root(), names[j]),
                            )))) || (found && (e matches Error::DiskInUse { name: n } && exists|
                        i: int,
                    |
                        0 <= i < names.len() && #[trigger] names[i] == n@ && has_disk(
                            self.disks_seq(),
                            names[i],
                        ) && scan::table_mentions(
                            table@,
                            paths::disk_path_spec(self.root(), names[i]),
                        ) && (forall|j: int|
                            0 <= j < i ==> has_disk(self.disks_seq(), #[trigger] names[j])
                                && !scan::table_mentions(
                                table@,
                                paths::disk_path_spec(self.root(), names[j]),
                            )))),
                }
            }),
    {
        let image: String;
        let port: u16;
        if snapshot {
            match self.get_snapshot(name) {
                Err(e) => {
                    return Err(e);
                },
                Ok(sn) => {
                    port = sn.port;
                    image = paths::snapshot_path(self.path.as_str(), name);
                },
            }
        } else {
            match self.get_machine(name) {
                Err(e) => {
                    return Err(e);
                },
                Ok(m) => {
                    port = m.port;
                    image = paths::machine_path(self.path.as_str(), name);
                },
            }
        }
        let mut cmd = command::build_hypervisor_base(runner, uefi, &image, port, cores, ram);
        proof {
            assert(command::args_views(disks@).take(0) =~= Seq::<Seq<char>>::empty());
            assert(command::args_views(cmd@) + drives_for(
                self.root(),
                command::args_views(disks@).take(0),
            ) =~= command::args_views(cmd@));
        }
        let ghost base = command::args_views(cmd@);
        let mut i: usize = 0;
        while i < disks.len()
            invariant
                self.wf(),
                i <= disks.len(),
                snapshot ==> has_snapshot(self.snapshots_seq(), name@) && port as nat
                    == snapshot_named(self.snapshots_seq(), name@).port && image@
                    == paths::snapshot_path_spec(self.root(), name@),
                !snapshot ==> has_machine(self.machines_seq(), name@) && port as nat
                    == machine_named(self.machines_seq(), name@).port && image@
                    == paths::machine_path_spec(self.root(), name@),
                base == command::hypervisor_base_args(
                    runner@,
                    uefi@,
                    image@,
                    port as nat,
                    cores as nat,
                    ram as nat,
                ),
                command::args_views(cmd@) == base + drives_for(
                    self.root(),
                    command::args_views(disks@).take(i as int),
                ),
                forall|j: int|
                    0 <= j < i ==> has_disk(
                        self.disks_seq(),
                        #[trigger] command::args_views(disks@)[j],
                    ) && !scan::table_mentions(
                        table@,
                        paths::disk_path_spec(self.root(), command::args_views(disks@)[j]),
                    ),
            decreases disks.len() - i,
        {
            let dn = &disks[i];
            proof {
                assert(command::args_views(disks@)[i as int] == disks@[i as int]@);
            }
            match self.disk_in_use(dn.as_str(), table) {
                Err(e) => {
                    return Err(e);
                },
                Ok(true) => {
                    return Err(Error::DiskInUse { name: dn.clone() });
                },
                Ok(false) => {
                    let dp = paths::disk_path(self.path.as_str(), dn.as_str());
                    proof {
                        lemma_drives_for_take(
                            self.root(),
                            command::args_views(disks@),
                            i as int,
                        );
                        assert(base + drives_for(
                            self.root(),
                            command::args_views(disks@).take(i as int),
                        ) + command::drive_args(dp@) =~= base + (drives_for(
                            self.root(),
                            command::args_views(disks@).take(i as int),
                        ) + command::drive_args(dp@)));
                    }
                    command::push_drive_args(&mut cmd, &dp);
                    i = i + 1;
                },
            }
        }
        proof {
            assert(command::args_views(disks@).take(disks@.len() as int) =~= command::args_views(
                disks@,
            ));
        }
        command::push_cdrom_args(&mut cmd, iso);
        Ok(cmd)
    }

    /// Assembles the termination command for the running machine (or,
    /// with `snapshot`, snapshot) called `name`: `kill` of the process id
    /// parsed as the second whitespace-delimited field of the first
    /// process-table line that references the resource's image. Fails
    /// with the matching not-found error when the name is absent and with
    /// the matching not-in-use error when no table line references the
    /// image or the referencing line carries no second field.
    pub fn stop(&self, name: &str, snapshot: bool, table: &str) -> (r: Result<Vec<String>, Error>)
        requires
            self.wf(),
        ensures
            ({
                let found = if snapshot {
                    has_snapshot(self.snapshots_seq(), name@)
                } else {
                    has_machine(self.machines_seq(), name@)
                };
                let image = if snapshot {
                    paths::snapshot_path_spec(self.root(), name@)
                } else {
                    paths::machine_path_spec(self.root(), name@)
                };
                let ls = scan::lines(table@);
                let pid_opt = match scan::first_line_with(ls, image) {
                    None => None::<Seq<char>>,
                    Some(ix) => scan::second_token(ls[ix]),
                };
                match r {
                    Ok(cmd) => found && (pid_opt matches Some(pid) && command::args_views(cmd@)
                        == command::kill_args(pid)),
                    Err(e) => (snapshot && (e matches Error::InvalidSnapshot { name: n } && n@
                        == name@ && !found)) || (!snapshot && (e matches Error::InvalidMachine {
                        name: n,
                    } && n@ == name@ && !found)) || (snapshot && (
                    e matches Error::SnapshotNotInUse { name: n } && n@ == name@ && found
                        && pid_opt is None)) || (!snapshot && (e matches Error::MachineNotInUse {
                        name: n,
                    } && n@ == name@ && found && pid_opt is None)),
                }
            }),
    {
        let image: String;
        if snapshot {
            match self.get_snapshot(name) {
                Err(e) => {
                    return Err(e);
                },
                Ok(_) => {
                    image = paths::snapshot_path(self.path.as_str(), name);
                },
            }
        } else {
            match self.get_machine(name) {
                Err(e) => {
                    return Err(e);
                },
                Ok(_) => {
                    image = paths::machine_path(self.path.as_str(), name);
                },
            }
        }
        let tv = text::chars_of(table);
        let lsv = scan::split_lines(&tv);
        let pv = text::chars_of(image.as_str());
        let ix = match scan::find_line_with(&lsv, &pv) {
            None => {
                if snapshot {
                    return Err(Error::SnapshotNotInUse { name: name.to_owned() });
                } else {
                    return Err(Error::MachineNotInUse { name: name.to_owned() });
                }
            },
            Some(ix) => ix,
        };
        proof {
            assert(scan::lines_view(lsv@)[ix as int] == lsv@[ix as int]@);
        }
        match scan::second_field(&lsv[ix]) {
            None => {
                if snapshot {
                    Err(Error::SnapshotNotInUse { name: name.to_owned() })
                } else {
                    Err(Error::MachineNotInUse { name: name.to_owned() })
                }
            },
            Some(t) => {
                let pid = text::string_of(&t);
                Ok(command::build_kill(&pid))
            },
        }
    }

    /// Assembles the login-client command line for the machine (or, with
    /// `snapshot`, snapshot) called `name`, forwarding to its port;
    /// `username` is the login name, already resolved by the caller.
    /// Fails with the matching not-found error when the name is absent.
    pub fn connect(&self, name: &str, username: &String, forward_keys: bool, snapshot: bool) -> (r:
        Result<Vec<String>, Error>)
        requires
            self.wf(),
        ensures
            ({
                let found = if snapshot {
                    has_snapshot(self.snapshots_seq(), name@)
                } else {
                    has_machine(self.machines_seq(), name@)
                };
                let port = if snapshot {
                    snapshot_named(self.snapshots_seq(), name@).port
                } else {
                    machine_named(self.machines_seq(), name@).port
                };
                match r {
                    Ok(cmd) => found && command::args_views(cmd@) == command::ssh_args(
                        port,
                        username@,
                        forward_keys,
                    ),
                    Err(e) => !found && ((snapshot && (e matches Error::InvalidSnapshot {
                        name: n,
                    } && n@ == name@)) || (!snapshot && (e matches Error::InvalidMachine {
                        name: n,
                    } && n@ == name@))),
                }
            }),
    {
        let port: u16;
        if snapshot {
            match self.get_snapshot(name) {
                Err(e) => {
                    return Err(e);
                },
                Ok(sn) => {
                    port = sn.port;
                },
            }
        } else {
            match self.get_machine(name) {
                Err(e) => {
                    return Err(e);
                },
                Ok(m) => {
                    port = m.port;
                },
            }
        }
        Ok(command::build_ssh(port, username, forward_keys))
    }

    /// The registered disks. Callers must not assume a stable order.
    pub fn disks(&self) -> (r: Vec<Disk>)
        ensures
            codec::disk_views(r@) == self.disks_seq(),
    {
        let mut out: Vec<Disk> = Vec::new();
        let mut i: usize = 0;
        while i < self.disks.len()
            invariant
                i <= self.disks.len(),
                out@.len() == i,
                forall|j: int| 0 <= j < i ==> out@[j] == self.disks@[j],
            decreases self.disks.len() - i,
        {
            out.push(self.disks[i].clone());
            i = i + 1;
        }
        proof {
            assert(out@ =~= self.disks@);
        }
        out
    }

    /// The registered machines. Callers must not assume a stable order.
    pub fn machines(&self) -> (r: Vec<Machine>)
        ensures
            codec::machine_views(r@) == self.machines_seq(),
    {
        let mut out: Vec<Machine> = Vec::new();
        let mut i: usize = 0;
        while i < self.machines.len()
            invariant
                i <= self.machines.len(),
                out@.len() == i,
                forall|j: int| 0 <= j < i ==> out@[j] == self.machines@[j],
            decreases self.machines.len() - i,
        {
            out.push(self.machines[i].clone());
            i = i + 1;
        }
        proof {
            assert(out@ =~= self.machines@);
        }
        out
    }

    /// The registered snapshots. Callers must not assume a stable order.
    pub fn snapshots(&self) -> (r: Vec<Snapshot>)
        ensures
            codec::snapshot_views(r@) == self.snapshots_seq(),
    {
        let mut out: Vec<Snapshot> = Vec::new();
        let mut i: usize = 0;
        while i < self.snapshots.len()
            invariant
                i <= self.snapshots.len(),
                out@.len() == i,
                forall|j: int| 0 <= j < i ==> out@[j] == self.snapshots@[j],
            decreases self.snapshots.len() - i,
        {
            out.push(self.snapshots[i].clone());
            i = i + 1;
        }
        proof {
            assert(out@ =~= self.snapshots@);
        }
        out
    }
}

/// Law: the state round-trip. Saving any well-formed catalog and loading
/// the resulting document back reproduces exactly the registered disks,
/// machines and snapshots, names and attributes alike.
pub proof fn lemma_save_load_roundtrip(s: &State)
    requires
        s.wf(),
    ensures
        codec::parse_doc(s.doc()) == Some((s.disks_seq(), s.machines_seq(), s.snapshots_seq())),
        well_formed_doc(s.doc()),
{
    assert(codec::disks_bounded(s.disks_seq()));
    assert(codec::machines_bounded(s.machines_seq()));
    assert(codec::snapshots_bounded(s.snapshots_seq()));
    codec::lemma_doc_roundtrip(s.disks_seq(), s.machines_seq(), s.snapshots_seq());
}

/// Removing the unique carrier of a name keeps the names unique and
/// unregisters exactly that name.
pub proof fn lemma_remove_disk_at(ds: Seq<DiskV>, i: int, name: Seq<char>)
    requires
        unique_disks(ds),
        0 <= i < ds.len(),
        ds[i].name == name,
    ensures
        unique_disks(ds.remove(i)),
        !has_disk(ds.remove(i), name),
        forall|n: Seq<char>| n != name ==> has_disk(ds.remove(i), n) == has_disk(ds, n),
        forall|d: DiskV| d.name != name ==> ds.remove(i).contains(d) == ds.contains(d),
{
    let r = ds.remove(i);
    assert forall|j: int| 0 <= j < r.len() implies (#[trigger] r[j]).name != name by {
        if j < i {
            assert(r[j] == ds[j]);
        } else {
            assert(r[j] == ds[j + 1]);
        }
    }
    assert forall|n: Seq<char>| n != name implies has_disk(r, n) == has_disk(ds, n) by {
        if has_disk(r, n) {
            let j = choose|j: int| 0 <= j < r.len() && (#[trigger] r[j]).name == n;
            if j < i {
                assert(ds[j].name == n);
            } else {
                assert(ds[j + 1].name == n);
            }
        }
        if has_disk(ds, n) {
            let j = choose|j: int| 0 <= j < ds.len() && (#[trigger] ds[j]).name == n;
            if j < i {
                assert(r[j] == ds[j]);
            } else {
                assert(j > i);
                assert(r[j - 1] == ds[j]);
            }
        }
    }
    assert forall|d: DiskV| d.name != name implies r.contains(d) == ds.contains(d) by {
        if r.contains(d) {
            let j = choose|j: int| 0 <= j < r.len() && r[j] == d;
            if j < i {
                assert(ds[j] == d);
            } else {
                assert(ds[j + 1] == d);
            }
        }
        if ds.contains(d) {
            let j = choose|j: int| 0 <= j < ds.len() && ds[j] == d;
            if j < i {
                assert(r[j] == ds[j]);
            } else {
                assert(j != i);
                assert(r[j - 1] == ds[j]);
            }
        }
    }
}

pub proof fn lemma_remove_machine_at(ms: Seq<MachineV>, i: int, name: Seq<char>)
    requires
        unique_machines(ms),
        0 <= i < ms.len(),
        ms[i].name == name,
    ensures
        unique_machines(ms.remove(i)),
        !has_machine(ms.remove(i), name),
        forall|n: Seq<char>| n != name ==> has_machine(ms.remove(i), n) == has_machine(ms, n),
        forall|m: MachineV| m.name != name ==> ms.remove(i).contains(m) == ms.contains(m),
{
    let r = ms.remove(i);
    assert forall|j: int| 0 <= j < r.len() implies (#[trigger] r[j]).name != name by {
        if j < i {
            assert(r[j] == ms[j]);
        } else {
            assert(r[j] == ms[j + 1]);
        }
    }
    assert forall|n: Seq<char>| n != name implies has_machine(r, n) == has_machine(ms, n) by {
        if has_machine(r, n) {
            let j = choose|j: int| 0 <= j < r.len() && (#[trigger] r[j]).name == n;
            if j < i {
                assert(ms[j].name == n);
            } else {
                assert(ms[j + 1].name == n);
            }
        }
        if has_machine(ms, n) {
            let j = choose|j: int| 0 <= j < ms.len() && (#[trigger] ms[j]).name == n;
            if j < i {
                assert(r[j] == ms[j]);
            } else {
                assert(j > i);
                assert(r[j - 1] == ms[j]);
            }
        }
    }
    assert forall|m: MachineV| m.name != name implies r.contains(m) == ms.contains(m) by {
        if r.contains(m) {
            let j = choose|j: int| 0 <= j < r.len() && r[j] == m;
            if j < i {
                assert(ms[j] == m);
            } else {
                assert(ms[j + 1] == m);
            }
        }
        if ms.contains(m) {
            let j = choose|j: int| 0 <= j < ms.len() && ms[j] == m;
            if j < i {
                assert(r[j] == ms[j]);
            } else {
                assert(j != i);
                assert(r[j - 1] == ms[j]);
            }
        }
    }
}

proof fn lemma_remove_snapshot_at(ns: Seq<SnapshotV>, i: int, name: Seq<char>)
    requires
        unique_snapshots(ns),
        0 <= i < ns.len(),
        ns[i].name == name,
    ensures
        unique_snapshots(ns.remove(i)),
        !has_snapshot(ns.remove(i), name),
        forall|n: Seq<char>| n != name ==> has_snapshot(ns.remove(i), n) == has_snapshot(ns, n),
        forall|m: SnapshotV| m.name != name ==> ns.remove(i).contains(m) == ns.contains(m),
{
    let r = ns.remove(i);
    assert forall|j: int| 0 <= j < r.len() implies (#[trigger] r[j]).name != name by {
        if j < i {
            assert(r[j] == ns[j]);
        } else {
            assert(r[j] == ns[j + 1]);
        }
    }
    assert forall|n: Seq<char>| n != name implies has_snapshot(r, n) == has_snapshot(ns, n) by {
        if has_snapshot(r, n) {
            let j = choose|j: int| 0 <= j < r.len() && (#[trigger] r[j]).name == n;
            if j < i {
                assert(ns[j].name == n);
            } else {
                assert(ns[j + 1].name == n);
            }
        }
        if has_snapshot(ns, n) {
            let j = choose|j: int| 0 <= j < ns.len() && (#[trigger] ns[j]).name == n;
            if j < i {
                assert(r[j] == ns[j]);
            } else {
                assert(j > i);
                assert(r[j - 1] == ns[j]);
            }
        }
    }
    assert forall|m: SnapshotV| m.name != name implies r.contains(m) == ns.contains(m) by {
        if r.contains(m) {
            let j = choose|j: int| 0 <= j < r.len() && r[j] == m;
            if j < i {
                assert(ns[j] == m);
            } else {
                assert(ns[j + 1] == m);
            }
        }
        if ns.contains(m) {
            let j = choose|j: int| 0 <= j < ns.len() && ns[j] == m;
            if j < i {
                assert(r[j] == ns[j]);
            } else {
                assert(j != i);
                assert(r[j - 1] == ns[j]);
            }
        }
    }
}

/// Finds the position of the disk called `name`.
fn find_disk(v: &Vec<Disk>, name: &str) -> (r: Option<usize>)
    ensures
        match r {
            Some(i) => i < v.len() && codec::disk_views(v@)[i as int].name == name@,
            None => !has_disk(codec::disk_views(v@), name@),
        },
{
    let mut i: usize = 0;
    while i < v.len()
        invariant
            i <= v.len(),
            forall|j: int| 0 <= j < i ==> (#[trigger] codec::disk_views(v@)[j]).name != name@,
        decreases v.len() - i,
    {
        if text::str_eq(v[i].name.as_str(), name) {
            return Some(i);
        }
        i = i + 1;
    }
    None
}

fn find_machine(v: &Vec<Machine>, name: &str) -> (r: Option<usize>)
    ensures
        match r {
            Some(i) => i < v.len() && codec::machine_views(v@)[i as int].name == name@,
            None => !has_machine(codec::machine_views(v@), name@),
        },
{
    let mut i: usize = 0;
    while i < v.len()
        invariant
            i <= v.len(),
            forall|j: int| 0 <= j < i ==> (#[trigger] codec::machine_views(v@)[j]).name != name@,
        decreases v.len() - i,
    {
        if text::str_eq(v[i].name.as_str(), name) {
            return Some(i);
        }
        i = i + 1;
    }
    None
}

fn find_snapshot(v: &Vec<Snapshot>, name: &str) -> (r: Option<usize>)
    ensures
        match r {
            Some(i) => i < v.len() && codec::snapshot_views(v@)[i as int].name == name@,
            None => !has_snapshot(codec::snapshot_views(v@), name@),
        },
{
    let mut i: usize = 0;
    while i < v.len()
        invariant
            i <= v.len(),
            forall|j: int| 0 <= j < i ==> (#[trigger] codec::snapshot_views(v@)[j]).name != name@,
        decreases v.len() - i,
    {
        if text::str_eq(v[i].name.as_str(), name) {
            return Some(i);
        }
        i = i + 1;
    }
    None
}

/// Law: for distinct names, registering `a` and then `b` and then
/// removing `a`'s name — the exact catalog transitions `add_disk` and
/// `remove_disk` promise — leaves `b` registered and retrievable with its
/// original descriptor, while `a`'s name is no longer registered.
pub proof fn lemma_add_add_remove(ds: Seq<DiskV>, a: DiskV, b: DiskV)
    requires
        unique_disks(ds),
        a.name != b.name,
        !has_disk(ds, a.name),
        !has_disk(ds, b.name),
    ensures
        ({
            let after = ds.push(a).push(b).remove(ds.len() as int);
            has_disk(after, b.name) && disk_named(after, b.name) == b && !has_disk(after, a.name)
        }),
{
    let grown = ds.push(a).push(b);
    let after = grown.remove(ds.len() as int);
    assert(after.len() == ds.len() + 1);
    assert(after[ds.len() as int] == grown[ds.len() as int + 1]);
    assert(after[ds.len() as int] == b);
    assert(has_disk(after, b.name));
    assert forall|j: int| 0 <= j < after.len() implies (#[trigger] after[j]).name != a.name by {
        if j < ds.len() {
            assert(after[j] == ds[j]);
        } else {
            assert(after[j] == b);
        }
    }
    let k = choose|k: int| 0 <= k < after.len() && (#[trigger] after[k]).name == b.name;
    if k < ds.len() {
        assert(after[k] == ds[k]);
        assert(has_disk(ds, b.name));
    }
    assert(k == ds.len());
}

/// The drive arguments attaching, in order, the disks named in `names`.
pub open spec fn drives_for(root: Seq<char>, names: Seq<Seq<char>>) -> Seq<Seq<char>>
    decreases names.len(),
{
    if names.len() == 0 {
        Seq::<Seq<char>>::empty()
    } else {
        command::drive_args(paths::disk_path_spec(root, names[0])) + drives_for(
            root,
            names.drop_first(),
        )
    }
}

pub proof fn lemma_drives_for_take(root: Seq<char>, names: Seq<Seq<char>>, i: int)
    requires
        0 <= i < names.len(),
    ensures
        drives_for(root, names.take(i + 1)) == drives_for(root, names.take(i)) + command::drive_args(
            paths::disk_path_spec(root, names[i]),
        ),
    decreases i,
{
    let a = names.take(i + 1);
    let b = names.take(i);
    if i == 0 {
        assert(b =~= Seq::<Seq<char>>::empty());
        assert(a =~= seq![names[0]]);
        assert(a.drop_first() =~= Seq::<Seq<char>>::empty());
        assert(drives_for(root, a) =~= command::drive_args(paths::disk_path_spec(root, names[0]))
            + drives_for(root, a.drop_first()));
        assert(drives_for(root, b) + command::drive_args(paths::disk_path_spec(root, names[0]))
            =~= command::drive_args(paths::disk_path_spec(root, names[0])));
    } else {
        lemma_drives_for_take(root, names.drop_first(), i - 1);
        assert(a[0] == names[0]);
        assert(b[0] == names[0]);
        assert(a.drop_first() =~= names.drop_first().take(i));
        assert(b.drop_first() =~= names.drop_first().take(i - 1));
        assert(names.drop_first()[i - 1] == names[i]);
        assert(drives_for(root, b) + command::drive_args(paths::disk_path_spec(root, names[i]))
            =~= command::drive_args(paths::disk_path_spec(root, names[0])) + (drives_for(
            root,
            names.drop_first().take(i - 1),
        ) + command::drive_args(paths::disk_path_spec(root, names[i]))));
    }
}

/// Decides [`unique_disks`] of the views of `v`.
pub(crate) fn disks_unique(v: &Vec<Disk>) -> (r: bool)
    ensures
        r == unique_disks(codec::disk_views(v@)),
{
    let ghost ds = codec::disk_views(v@);
    let mut i: usize = 1;
    while i < v.len()
        invariant
            1 <= i || v.len() == 0,
            i <= v.len() || v.len() == 0,
            ds == codec::disk_views(v@),
            forall|a: int, b: int|
                0 <= a < b < i && b < ds.len() ==> (#[trigger] ds[a]).name != (
                #[trigger] ds[b]).name,
        decreases v.len() - i,
    {
        let mut j: usize = 0;
        while j < i
            invariant
                j <= i < v.len(),
                ds == codec::disk_views(v@),
                forall|a: int| 0 <= a < j ==> (#[trigger] ds[a]).name != ds[i as int].name,
            decreases i - j,
        {
            let same = text::str_eq(v[j].name.as_str(), v[i].name.as_str());
            proof {
                assert(ds[j as int] == v@[j as int]@);
                assert(ds[i as int] == v@[i as int]@);
            }
            if same {
                return false;
            }
            j = j + 1;
        }
        i = i + 1;
    }
    true
}

pub(crate) fn machines_unique(v: &Vec<Machine>) -> (r: bool)
    ensures
        r == unique_machines(codec::machine_views(v@)),
{
    let ghost ms = codec::machine_views(v@);
    let mut i: usize = 1;
    while i < v.len()
        invariant
            1 <= i || v.len() == 0,
            i <= v.len() || v.len() == 0,
            ms == codec::machine_views(v@),
            forall|a: int, b: int|
                0 <= a < b < i && b < ms.len() ==> (#[trigger] ms[a]).name != (
                #[trigger] ms[b]).name,
        decreases v.len() - i,
    {
        let mut j: usize = 0;
        while j < i
            invariant
                j <= i < v.len(),
                ms == codec::machine_views(v@),
                forall|a: int| 0 <= a < j ==> (#[trigger] ms[a]).name != ms[i as int].name,
            decreases i - j,
        {
            let same = text::str_eq(v[j].name.as_str(), v[i].name.as_str());
            proof {
                assert(ms[j as int] == v@[j as int]@);
                assert(ms[i as int] == v@[i as int]@);
            }
            if same {
                return false;
            }
            j = j + 1;
        }
        i = i + 1;
    }
    true
}

pub(crate) fn snapshots_unique(v: &Vec<Snapshot>) -> (r: bool)
    ensures
        r == unique_snapshots(codec::snapshot_views(v@)),
{
    let ghost ns = codec::snapshot_views(v@);
    let mut i: usize = 1;
    while i < v.len()
        invariant
            1 <= i || v.len() == 0,
            i <= v.len() || v.len() == 0,
            ns == codec::snapshot_views(v@),
            forall|a: int, b: int|
                0 <= a < b < i && b < ns.len() ==> (#[trigger] ns[a]).name != (
                #[trigger] ns[b]).name,
        decreases v.len() - i,
    {
        let mut j: usize = 0;
        while j < i
            invariant
                j <= i < v.len(),
                ns == codec::snapshot_views(v@),
                forall|a: int| 0 <= a < j ==> (#[trigger] ns[a]).name != ns[i as int].name,
            decreases i - j,
        {
            let same = text::str_eq(v[j].name.as_str(), v[i].name.as_str());
            proof {
                assert(ns[j as int] == v@[j as int]@);
                assert(ns[i as int] == v@[i as int]@);
            }
            if same {
                return false;
            }
            j = j + 1;
        }
        i = i + 1;
    }
    true
}

} // verus!
