//! The older revision of the resource registry, kept alongside the state
//! store: disks and machines only, with parallel backup catalogs.
//!
//! Its policies differ from [`crate::state::State`]'s in one deliberate
//! way: re-adding a name that is already registered is a silent no-op
//! that leaves the original descriptor unchanged, instead of an error.

use vstd::prelude::*;
use crate::codec;
use crate::command;
use crate::disk::Disk;
use crate::disk::DiskV;
use crate::error::Error;
use crate::machine::Machine;
use crate::machine::MachineV;
use crate::paths;
use crate::scan;
use crate::state::has_disk;
use crate::state::has_machine;
use crate::state::disk_named;
use crate::state::machine_named;
use crate::state::disks_unique;
use crate::state::machines_unique;
use crate::state::unique_disks;
use crate::state::unique_machines;
use crate::text;

verus! {

/// The catalog of one root directory: disks and machines with their
/// backup records.
pub struct Library {
    path: String,
    disks: Vec<Disk>,
    disk_backups: Vec<Disk>,
    machines: Vec<Machine>,
    machine_backups: Vec<Machine>,
}

impl Library {
    /// The root directory every location is derived from.
    pub closed spec fn root(&self) -> Seq<char> {
        self.path@
    }

    pub closed spec fn disks_seq(&self) -> Seq<DiskV> {
        codec::disk_views(self.disks@)
    }

    pub closed spec fn machines_seq(&self) -> Seq<MachineV> {
        codec::machine_views(self.machines@)
    }

    /// The recorded disk backups, one per backed-up name.
    pub closed spec fn disk_backups_seq(&self) -> Seq<DiskV> {
        codec::disk_views(self.disk_backups@)
    }

    pub closed spec fn machine_backups_seq(&self) -> Seq<MachineV> {
        codec::machine_views(self.machine_backups@)
    }

    /// Names are unique within each catalog.
    pub open spec fn wf(&self) -> bool {
        unique_disks(self.disks_seq()) && unique_machines(self.machines_seq()) && unique_disks(
            self.disk_backups_seq(),
        ) && unique_machines(self.machine_backups_seq())
    }

    /// The persisted document of this library.
    pub open spec fn doc(&self) -> Seq<char> {
        codec::render_library_doc(
            self.disks_seq(),
            self.disk_backups_seq(),
            self.machines_seq(),
            self.machine_backups_seq(),
        )
    }

    /// Loads the library rooted at `path` from the library document's
    /// text, or starts a fresh, empty library when no document exists
    /// yet. Callers read the document file and create the directory
    /// skeleton; a malformed document, including one with a repeated
    /// name, fails with `Deserialization`.
    pub fn load(path: String, text: Option<&str>) -> (r: Result<Library, Error>)
        ensures
            match r {
                Ok(lib) => lib.wf() && lib.root() == path@ && (match text {
                    None => lib.disks_seq() =~= Seq::<DiskV>::empty() && lib.disk_backups_seq()
                        =~= Seq::<DiskV>::empty() && lib.machines_seq()
                        =~= Seq::<MachineV>::empty() && lib.machine_backups_seq()
                        =~= Seq::<MachineV>::empty(),
                    Some(t) => codec::parse_library_doc(t@) == Some(
                        (
                            lib.disks_seq(),
                            lib.disk_backups_seq(),
                            lib.machines_seq(),
                            lib.machine_backups_seq(),
                        ),
                    ) && well_formed_library_doc(t@),
                }),
                Err(e) => e matches Error::Deserialization && (match text {
                    None => false,
                    Some(t) => !well_formed_library_doc(t@),
                }),
            },
    {
        match text {
            None => Ok(Library::new(path)),
            Some(t) => {
                let cs = text::chars_of(t);
                match codec::scan_library_catalog(&cs) {
                    None => Err(Error::Deserialization),
                    Some((disks, disk_backups, machines, machine_backups)) => {
                        if !disks_unique(&disks) {
                            return Err(Error::Deserialization);
                        }
                        if !disks_unique(&disk_backups) {
                            return Err(Error::Deserialization);
                        }
                        if !machines_unique(&machines) {
                            return Err(Error::Deserialization);
                        }
                        if !machines_unique(&machine_backups) {
                            return Err(Error::Deserialization);
                        }
                        Ok(Library { path, disks, disk_backups, machines, machine_backups })
                    },
                }
            },
        }
    }

    /// Renders the library as the text of the library document; callers
    /// overwrite the document file with it.
    pub fn save(&self) -> (r: String)
        ensures
            r@ == self.doc(),
    {
        let cs = codec::render_library_catalog(
            &self.disks,
            &self.disk_backups,
            &self.machines,
            &self.machine_backups,
        );
        text::string_of(&cs)
    }

    /// A fresh, empty library rooted at `path`; callers create the
    /// directory skeleton.
    pub fn new(path: String) -> (r: Library)
        ensures
            r.wf(),
            r.root() == path@,
            r.disks_seq() =~= Seq::<DiskV>::empty(),
            r.machines_seq() =~= Seq::<MachineV>::empty(),
            r.disk_backups_seq() =~= Seq::<DiskV>::empty(),
            r.machine_backups_seq() =~= Seq::<MachineV>::empty(),
    {
        let r = Library {
            path,
            disks: Vec::new(),
            disk_backups: Vec::new(),
            machines: Vec::new(),
            machine_backups: Vec::new(),
        };
        proof {
            assert(r.disks_seq() =~= Seq::<DiskV>::empty());
            assert(r.machines_seq() =~= Seq::<MachineV>::empty());
            assert(r.disk_backups_seq() =~= Seq::<DiskV>::empty());
            assert(r.machine_backups_seq() =~= Seq::<MachineV>::empty());
        }
        r
    }

    /// Whether a running process references the image of the disk called
    /// `name`; fails with `InvalidDisk` exactly when it is unregistered.
    pub fn disk_in_use(&self, name: &str, table: &str) -> (r: Result<bool, Error>)
        ensures
            match r {
                Ok(b) => has_disk(self.disks_seq(), name@) && b == scan::table_mentions(
                    table@,
                    paths::disk_path_spec(self.root(), name@),
                ),
                Err(e) => (e matches Error::InvalidDisk { name: n } && n@ == name@) && !has_disk(
                    self.disks_seq(),
                    name@,
                ),
            },
    {
        match find_disk(&self.disks, name) {
            None => Err(Error::InvalidDisk { name: name.to_owned() }),
            Some(_) => {
                let p = paths::disk_path(self.path.as_str(), name);
                let t = text::chars_of(table);
                let n = text::chars_of(p.as_str());
                Ok(scan::contains_chars(&t, &n))
            },
        }
    }

    /// Whether a running process references the image of the machine
    /// called `name`; fails with `InvalidMachine` exactly when it is
    /// unregistered.
    pub fn machine_in_use(&self, name: &str, table: &str) -> (r: Result<bool, Error>)
        ensures
            match r {
                Ok(b) => has_machine(self.machines_seq(), name@) && b == scan::table_mentions(
                    table@,
                    paths::machine_path_spec(self.root(), name@),
                ),
                Err(e) => (e matches Error::InvalidMachine { name: n } && n@ == name@)
                    && !has_machine(self.machines_seq(), name@),
            },
    {
        match find_machine(&self.machines, name) {
            None => Err(Error::InvalidMachine { name: name.to_owned() }),
            Some(_) => {
                let p = paths::machine_path(self.path.as_str(), name);
                let t = text::chars_of(table);
                let n = text::chars_of(p.as_str());
                Ok(scan::contains_chars(&t, &n))
            },
        }
    }

    /// Registers a disk and yields the image-creation command for its
    /// fresh image. Re-adding a registered name is a silent no-op: it
    /// yields no command and leaves the original descriptor unchanged.
    pub fn add_disk(&mut self, name: &str, size: usize) -> (r: Result<
        Option<Vec<String>>,
        Error,
    >)
        requires
            old(self).wf(),
        ensures
            final(self).wf(),
            final(self).root() == old(self).root(),
            final(self).machines_seq() == old(self).machines_seq(),
            final(self).disk_backups_seq() == old(self).disk_backups_seq(),
            final(self).machine_backups_seq() == old(self).machine_backups_seq(),
            match r {
                Ok(cmd) => match cmd {
                    None => has_disk(old(self).disks_seq(), name@) && *final(self) == *old(self),
                    Some(c) => !has_disk(old(self).disks_seq(), name@) && final(self).disks_seq()
                        == old(self).disks_seq().push(DiskV { name: name@, size: size as nat })
                        && command::args_views(c@) == command::imager_create_args(
                        paths::disk_path_spec(old(self).root(), name@),
                        size as nat,
                    ),
                },
                Err(_) => false,
            },
    {
        match find_disk(&self.disks, name) {
            Some(_) => Ok(None),
            None => {
                let d = Disk { name: name.to_owned(), size };
                proof {
                    assert(codec::disk_views(self.disks@.push(d)) =~= codec::disk_views(
                        self.disks@,
                    ).push(d@));
                }
                self.disks.push(d);
                let image = paths::disk_path(self.path.as_str(), name);
                let cmd = command::build_imager_create(&image, size);
                Ok(Some(cmd))
            },
        }
    }

    /// The descriptor of the disk called `name`; fails with `InvalidDisk`
    /// exactly when it is unregistered.
    pub fn get_disk(&self, name: &str) -> (r: Result<&Disk, Error>)
        requires
            self.wf(),
        ensures
            match r {
                Ok(d) => has_disk(self.disks_seq(), name@) && d@ == disk_named(
                    self.disks_seq(),
                    name@,
                ) && d@.name == name@,
                Err(e) => (e matches Error::InvalidDisk { name: n } && n@ == name@) && !has_disk(
                    self.disks_seq(),
                    name@,
                ),
            },
    {
        match find_disk(&self.disks, name) {
            None => Err(Error::InvalidDisk { name: name.to_owned() }),
            Some(i) => {
                proof {
                    let k = choose|k: int|
                        0 <= k < self.disks_seq().len() && (#[trigger] self.disks_seq()[
                            k
                        ]).name == name@;
                    assert(k == i as int);
                }
                Ok(&self.disks[i])
            },
        }
    }

    /// Unregisters the disk called `name`; fails with `InvalidDisk` when
    /// it is absent and with `DiskInUse` when the captured process table
    /// reports its image in use — either failure changes nothing.
    pub fn remove_disk(&mut self, name: &str, table: &str) -> (r: Result<(), Error>)
        requires
            old(self).wf(),
        ensures
            final(self).wf(),
            final(self).root() == old(self).root(),
            final(self).machines_seq() == old(self).machines_seq(),
            final(self).disk_backups_seq() == old(self).disk_backups_seq(),
            final(self).machine_backups_seq() == old(self).machine_backups_seq(),
            match r {
                Ok(()) => has_disk(old(self).disks_seq(), name@) && !scan::table_mentions(
                    table@,
                    paths::disk_path_spec(old(self).root(), name@),
                ) && !has_disk(final(self).disks_seq(), name@) && (forall|n: Seq<char>|
                    n != name@ ==> has_disk(final(self).disks_seq(), n) == has_disk(
                        old(self).disks_seq(),
                        n,
                    )) && (forall|d: DiskV|
                    d.name != name@ ==> final(self).disks_seq().contains(d) == old(self).disks_seq().contains(d)),
                Err(e) => *final(self) == *old(self) && ((e matches Error::InvalidDisk {
                    name: n,
                } && n@ == name@ && !has_disk(old(self).disks_seq(), name@)) || (
                e matches Error::DiskInUse { name: n } && n@ == name@ && has_disk(
                    old(self).disks_seq(),
                    name@,
                ) && scan::table_mentions(
                    table@,
                    paths::disk_path_spec(old(self).root(), name@),
                ))),
            },
    {
        match find_disk(&self.disks, name) {
            None => Err(Error::InvalidDisk { name: name.to_owned() }),
            Some(i) => {
                let p = paths::disk_path(self.path.as_str(), name);
                let t = text::chars_of(table);
                let n = text::chars_of(p.as_str());
                if scan::contains_chars(&t, &n) {
                    return Err(Error::DiskInUse { name: name.to_owned() });
                }
                proof {
                    crate::state::lemma_remove_disk_at(self.disks_seq(), i as int, name@);
                    assert(codec::disk_views(self.disks@.remove(i as int)) =~= codec::disk_views(
                        self.disks@,
                    ).remove(i as int));
                }
                self.disks.remove(i);
                Ok(())
            },
        }
    }

    /// Registers a machine and yields the image-creation command for its
    /// fresh image. Re-adding a registered name is a silent no-op.
    pub fn add_machine(&mut self, name: &str, port: u16, size: usize) -> (r: Result<
        Option<Vec<String>>,
        Error,
    >)
        requires
            old(self).wf(),
        ensures
            final(self).wf(),
            final(self).root() == old(self).root(),
            final(self).disks_seq() == old(self).disks_seq(),
            final(self).disk_backups_seq() == old(self).disk_backups_seq(),
            final(self).machine_backups_seq() == old(self).machine_backups_seq(),
            match r {
                Ok(cmd) => match cmd {
                    None => has_machine(old(self).machines_seq(), name@) && *final(self) == *old(self),
                    Some(c) => !has_machine(old(self).machines_seq(), name@) && final(self).machines_seq() == old(self).machines_seq().push(
                        MachineV { name: name@, port: port as nat, size: size as nat },
                    ) && command::args_views(c@) == command::imager_create_args(
                        paths::machine_path_spec(old(self).root(), name@),
                        size as nat,
                    ),
                },
                Err(_) => false,
            },
    {
        match find_machine(&self.machines, name) {
            Some(_) => Ok(None),
            None => {
                let m = Machine { name: name.to_owned(), port, size };
                proof {
                    assert(codec::machine_views(self.machines@.push(m)) =~= codec::machine_views(
                        self.machines@,
                    ).push(m@));
                }
                self.machines.push(m);
                let image = paths::machine_path(self.path.as_str(), name);
                let cmd = command::build_imager_create(&image, size);
                Ok(Some(cmd))
            },
        }
    }

    /// The descriptor of the machine called `name`; fails with
    /// `InvalidMachine` exactly when it is unregistered.
    pub fn get_machine(&self, name: &str) -> (r: Result<&Machine, Error>)
        requires
            self.wf(),
        ensures
            match r {
                Ok(m) => has_machine(self.machines_seq(), name@) && m@ == machine_named(
                    self.machines_seq(),
                    name@,
                ) && m@.name == name@,
                Err(e) => (e matches Error::InvalidMachine { name: n } && n@ == name@)
                    && !has_machine(self.machines_seq(), name@),
            },
    {
        match find_machine(&self.machines, name) {
            None => Err(Error::InvalidMachine { name: name.to_owned() }),
            Some(i) => {
                proof {
                    let k = choose|k: int|
                        0 <= k < self.machines_seq().len() && (#[trigger] self.machines_seq()[
                            k
                        ]).name == name@;
                    assert(k == i as int);
                }
                Ok(&self.machines[i])
            },
        }
    }

    /// Unregisters the machine called `name`; fails with `InvalidMachine`
    /// when it is absent and with `MachineInUse` when the captured
    /// process table reports its image in use — either failure changes
    /// nothing.
    pub fn remove_machine(&mut self, name: &str, table: &str) -> (r: Result<(), Error>)
        requires
            old(self).wf(),
        ensures
            final(self).wf(),
            final(self).root() == old(self).root(),
            final(self).disks_seq() == old(self).disks_seq(),
            final(self).disk_backups_seq() == old(self).disk_backups_seq(),
            final(self).machine_backups_seq() == old(self).machine_backups_seq(),
            match r {
                Ok(()) => has_machine(old(self).machines_seq(), name@) && !scan::table_mentions(
                    table@,
                    paths::machine_path_spec(old(self).root(), name@),
                ) && !has_machine(final(self).machines_seq(), name@) && (forall|n: Seq<char>|
                    n != name@ ==> has_machine(final(self).machines_seq(), n) == has_machine(
                        old(self).machines_seq(),
                        n,
                    )) && (forall|m: MachineV|
                    m.name != name@ ==> final(self).machines_seq().contains(m) == old(self).machines_seq().contains(m)),
                Err(e) => *final(self) == *old(self) && ((e matches Error::InvalidMachine {
                    name: n,
                } && n@ == name@ && !has_machine(old(self).machines_seq(), name@)) || (
                e matches Error::MachineInUse { name: n } && n@ == name@ && has_machine(
                    old(self).machines_seq(),
                    name@,
                ) && scan::table_mentions(
                    table@,
                    paths::machine_path_spec(old(self).root(), name@),
                ))),
            },
    {
        match find_machine(&self.machines, name) {
            None => Err(Error::InvalidMachine { name: name.to_owned() }),
            Some(i) => {
                let p = paths::machine_path(self.path.as_str(), name);
                let t = text::chars_of(table);
                let n = text::chars_of(p.as_str());
                if scan::contains_chars(&t, &n) {
                    return Err(Error::MachineInUse { name: name.to_owned() });
                }
                proof {
                    crate::state::lemma_remove_machine_at(self.machines_seq(), i as int, name@);
                    assert(codec::machine_views(self.machines@.remove(i as int))
                        =~= codec::machine_views(self.machines@).remove(i as int));
                }
                self.machines.remove(i);
                Ok(())
            },
        }
    }

    /// Records a backup of the disk called `name` — the current live
    /// descriptor, replacing any earlier backup record of that name while
    /// every other backup record stays — and yields the source and
    /// destination paths of the copy the caller performs; fails with
    /// `InvalidDisk` when the source is unregistered.
    pub fn backup_disk(&mut self, name: &str) -> (r: Result<(String, String), Error>)
        requires
            old(self).wf(),
        ensures
            final(self).wf(),
            final(self).root() == old(self).root(),
            final(self).disks_seq() == old(self).disks_seq(),
            final(self).machines_seq() == old(self).machines_seq(),
            final(self).machine_backups_seq() == old(self).machine_backups_seq(),
            match r {
                Ok(p) => has_disk(old(self).disks_seq(), name@) && p.0@ == paths::disk_path_spec(
                    old(self).root(),
                    name@,
                ) && p.1@ == paths::backup_path_spec(old(self).root(), name@) && has_disk(
                    final(self).disk_backups_seq(),
                    name@,
                ) && disk_named(final(self).disk_backups_seq(), name@) == disk_named(
                    old(self).disks_seq(),
                    name@,
                ) && (forall|n: Seq<char>|
                    n != name@ ==> has_disk(final(self).disk_backups_seq(), n) == has_disk(
                        old(self).disk_backups_seq(),
                        n,
                    )) && (forall|x: DiskV|
                    x.name != name@ ==> final(self).disk_backups_seq().contains(x) == old(
                        self,
                    ).disk_backups_seq().contains(x)),
                Err(e) => *final(self) == *old(self) && (e matches Error::InvalidDisk { name: n }
                    && n@ == name@) && !has_disk(old(self).disks_seq(), name@),
            },
    {
        let d = match self.get_disk(name) {
            Err(e) => {
                return Err(e);
            },
            Ok(d) => d.clone(),
        };
        match find_disk(&self.disk_backups, name) {
            Some(i) => {
                proof {
                    crate::state::lemma_remove_disk_at(self.disk_backups_seq(), i as int, name@);
                    assert(codec::disk_views(self.disk_backups@.remove(i as int))
                        =~= codec::disk_views(self.disk_backups@).remove(i as int));
                }
                self.disk_backups.remove(i);
            },
            None => {},
        }
        let ghost mid = codec::disk_views(self.disk_backups@);
        let ghost dv = d@;
        proof {
            assert(codec::disk_views(self.disk_backups@.push(d)) =~= codec::disk_views(
                self.disk_backups@,
            ).push(d@));
            lemma_push_disk_other(mid, dv);
        }
        self.disk_backups.push(d);
        proof {
            let bs = codec::disk_views(self.disk_backups@);
            assert(bs[bs.len() - 1] == dv);
            assert(has_disk(bs, name@));
            let k = choose|k: int| 0 <= k < bs.len() && (#[trigger] bs[k]).name == name@;
            if k < bs.len() - 1 {
                assert(bs[k] == mid[k]);
                assert(has_disk(mid, name@));
            }
            assert(disk_named(bs, name@) == dv);
        }
        let src = paths::disk_path(self.path.as_str(), name);
        let dst = paths::backup_path(self.path.as_str(), name);
        Ok((src, dst))
    }

    /// Records a backup of the machine called `name` — the current live
    /// descriptor, replacing any earlier backup record of that name while
    /// every other backup record stays — and yields the source and
    /// destination paths of the copy the caller performs; fails with
    /// `InvalidMachine` when the source is unregistered.
    pub fn backup_machine(&mut self, name: &str) -> (r: Result<(String, String), Error>)
        requires
            old(self).wf(),
        ensures
            final(self).wf(),
            final(self).root() == old(self).root(),
            final(self).disks_seq() == old(self).disks_seq(),
            final(self).machines_seq() == old(self).machines_seq(),
            final(self).disk_backups_seq() == old(self).disk_backups_seq(),
            match r {
                Ok(p) => has_machine(old(self).machines_seq(), name@) && p.0@
                    == paths::machine_path_spec(old(self).root(), name@) && p.1@
                    == paths::backup_path_spec(old(self).root(), name@) && has_machine(
                    final(self).machine_backups_seq(),
                    name@,
                ) && machine_named(final(self).machine_backups_seq(), name@) == machine_named(
                    old(self).machines_seq(),
                    name@,
                ) && (forall|n: Seq<char>|
                    n != name@ ==> has_machine(final(self).machine_backups_seq(), n)
                        == has_machine(old(self).machine_backups_seq(), n)) && (forall|
                    x: MachineV,
                |
                    x.name != name@ ==> final(self).machine_backups_seq().contains(x) == old(
                        self,
                    ).machine_backups_seq().contains(x)),
                Err(e) => *final(self) == *old(self) && (e matches Error::InvalidMachine {
                    name: n,
                } && n@ == name@) && !has_machine(old(self).machines_seq(), name@),
            },
    {
        let m = match self.get_machine(name) {
            Err(e) => {
                return Err(e);
            },
            Ok(m) => m.clone(),
        };
        match find_machine(&self.machine_backups, name) {
            Some(i) => {
                proof {
                    crate::state::lemma_remove_machine_at(
                        self.machine_backups_seq(),
                        i as int,
                        name@,
                    );
                    assert(codec::machine_views(self.machine_backups@.remove(i as int))
                        =~= codec::machine_views(self.machine_backups@).remove(i as int));
                }
                self.machine_backups.remove(i);
            },
            None => {},
        }
        let ghost mid = codec::machine_views(self.machine_backups@);
        let ghost mv = m@;
        proof {
            assert(codec::machine_views(self.machine_backups@.push(m)) =~= codec::machine_views(
                self.machine_backups@,
            ).push(m@));
            lemma_push_machine_other(mid, mv);
        }
        self.machine_backups.push(m);
        proof {
            let bs = codec::machine_views(self.machine_backups@);
            assert(bs[bs.len() - 1] == mv);
            assert(has_machine(bs, name@));
            let k = choose|k: int| 0 <= k < bs.len() && (#[trigger] bs[k]).name == name@;
            if k < bs.len() - 1 {
                assert(bs[k] == mid[k]);
                assert(has_machine(mid, name@));
            }
            assert(machine_named(bs, name@) == mv);
        }
        let src = paths::machine_path(self.path.as_str(), name);
        let dst = paths::backup_path(self.path.as_str(), name);
        Ok((src, dst))
    }

    /// The registered disks. Callers must not assume a stable order.
    pub fn disks(&self) -> (r: Vec<Disk>)
        ensures
            codec::disk_views(r@) == self.disks_seq(),
    {
        let mut out: Vec<Disk> = Vec::new();
        let mut i: usize = 0;
        while i < self.disks.len()
            invariant
                i <= self.disks.len(),
                out@.len() == i,
                forall|j: int| 0 <= j < i ==> out@[j] == self.disks@[j],
            decreases self.disks.len() - i,
        {
            out.push(self.disks[i].clone());
            i = i + 1;
        }
        proof {
            assert(out@ =~= self.disks@);
        }
        out
    }

    /// The registered machines. Callers must not assume a stable order.
    pub fn machines(&self) -> (r: Vec<Machine>)
        ensures
            codec::machine_views(r@) == self.machines_seq(),
    {
        let mut out: Vec<Machine> = Vec::new();
        let mut i: usize = 0;
        while i < self.machines.len()
            invariant
                i <= self.machines.len(),
                out@.len() == i,
                forall|j: int| 0 <= j < i ==> out@[j] == self.machines@[j],
            decreases self.machines.len() - i,
        {
            out.push(self.machines[i].clone());
            i = i + 1;
        }
        proof {
            assert(out@ =~= self.machines@);
        }
        out
    }

    /// Assembles the full hypervisor command line that runs the machine
    /// called `name`, with one secondary drive per listed disk and the
    /// optional boot image, failing before anything could be spawned when
    /// the machine is absent, a listed disk is unregistered, or a listed
    /// disk's image is in use.
    pub fn start(
        &self,
        name: &str,
        cores: usize,
        ram: usize,
        disks: &Vec<String>,
        iso: Option<&String>,
        runner: &str,
        uefi: &str,
        table: &str,
    ) -> (r: Result<Vec<String>, Error>)
        requires
            self.wf(),
        ensures
            ({
                let names = command::args_views(disks@);
                let found = has_machine(self.machines_seq(), name@);
                let image = paths::machine_path_spec(self.root(), name@);
                let port = machine_named(self.machines_seq(), name@).port;
                let isov = match iso {
                    None => None::<Seq<char>>,
                    Some(p) => Some(p@),
                };
                match r {
                    Ok(cmd) => found && (forall|i: int|
                        0 <= i < names.len() ==> has_disk(self.disks_seq(), #[trigger] names[i])
                            && !scan::table_mentions(
                            table@,
                            paths::disk_path_spec(self.root(), names[i]),
                        )) && command::args_views(cmd@) == command::hypervisor_base_args(
                        runner@,
                        uefi@,
                        image,
                        port,
                        cores as nat,
                        ram as nat,
                    ) + crate::state::drives_for(self.root(), names) + command::cdrom_args(isov),
                    Err(e) => ((e matches Error::InvalidMachine { name: n } && n@ == name@
                        && !found)) || (found && (e matches Error::InvalidDisk { name: n }
                        && exists|i: int|
                        0 <= i < names.len() && #[trigger] names[i] == n@ && !has_disk(
                            self.disks_seq(),
                            names[i],
                        ) && (forall|j: int|
                            0 <= j < i ==> has_disk(self.disks_seq(), #[trigger] names[j])
                                && !scan::table_mentions(
                                table@,
                                paths::disk_path_spec(self.root(), names[j]),
                            )))) || (found && (e matches Error::DiskInUse { name: n } && exists|
                        i: int,
                    |
                        0 <= i < names.len() && #[trigger] names[i] == n@ && has_disk(
                            self.disks_seq(),
                            names[i],
                        ) && scan::table_mentions(
                            table@,
                            paths::disk_path_spec(self.root(), names[i]),
                        ) && (forall|j: int|
                            0 <= j < i ==> has_disk(self.disks_seq(), #[trigger] names[j])
                                && !scan::table_mentions(
                                table@,
                                paths::disk_path_spec(self.root(), names[j]),
                            )))),
                }
            }),
    {
        let port: u16 = match self.get_machine(name) {
            Err(e) => {
                return Err(e);
            },
            Ok(m) => m.port,
        };
        let image = paths::machine_path(self.path.as_str(), name);
        let mut cmd = command::build_hypervisor_base(runner, uefi, &image, port, cores, ram);
        proof {
            assert(command::args_views(disks@).take(0) =~= Seq::<Seq<char>>::empty());
            assert(command::args_views(cmd@) + crate::state::drives_for(
                self.root(),
                command::args_views(disks@).take(0),
            ) =~= command::args_views(cmd@));
        }
        let ghost base = command::args_views(cmd@);
        let mut i: usize = 0;
        while i < disks.len()
            invariant
                self.wf(),
                i <= disks.len(),
                has_machine(self.machines_seq(), name@),
                port as nat == machine_named(self.machines_seq(), name@).port,
                image@ == paths::machine_path_spec(self.root(), name@),
                base == command::hypervisor_base_args(
                    runner@,
                    uefi@,
                    image@,
                    port as nat,
                    cores as nat,
                    ram as nat,
                ),
                command::args_views(cmd@) == base + crate::state::drives_for(
                    self.root(),
                    command::args_views(disks@).take(i as int),
                ),
                forall|j: int|
                    0 <= j < i ==> has_disk(
                        self.disks_seq(),
                        #[trigger] command::args_views(disks@)[j],
                    ) && !scan::table_mentions(
                        table@,
                        paths::disk_path_spec(self.root(), command::args_views(disks@)[j]),
                    ),
            decreases disks.len() - i,
        {
            let dn = &disks[i];
            proof {
                assert(command::args_views(disks@)[i as int] == disks@[i as int]@);
            }
            match self.disk_in_use(dn.as_str(), table) {
                Err(e) => {
                    return Err(e);
                },
                Ok(true) => {
                    return Err(Error::DiskInUse { name: dn.clone() });
                },
                Ok(false) => {
                    let dp = paths::disk_path(self.path.as_str(), dn.as_str());
                    proof {
                        crate::state::lemma_drives_for_take(
                            self.root(),
                            command::args_views(disks@),
                            i as int,
                        );
                        assert(base + crate::state::drives_for(
                            self.root(),
                            command::args_views(disks@).take(i as int),
                        ) + command::drive_args(dp@) =~= base + (crate::state::drives_for(
                            self.root(),
                            command::args_views(disks@).take(i as int),
                        ) + command::drive_args(dp@)));
                    }
                    command::push_drive_args(&mut cmd, &dp);
                    i = i + 1;
                },
            }
        }
        proof {
            assert(command::args_views(disks@).take(disks@.len() as int) =~= command::args_views(
                disks@,
            ));
        }
        command::push_cdrom_args(&mut cmd, iso);
        Ok(cmd)
    }

    /// Assembles the termination command for the running machine called
    /// `name`: `kill` of the process id parsed from the first
    /// process-table line that references its image. Fails with
    /// `InvalidMachine` when the name is absent and with
    /// `MachineNotInUse` when no table line references the image or the
    /// referencing line carries no second field.
    pub fn stop(&self, name: &str, table: &str) -> (r: Result<Vec<String>, Error>)
        requires
            self.wf(),
        ensures
            ({
                let found = has_machine(self.machines_seq(), name@);
                let image = paths::machine_path_spec(self.root(), name@);
                let ls = scan::lines(table@);
                let pid_opt = match scan::first_line_with(ls, image) {
                    None => None::<Seq<char>>,
                    Some(ix) => scan::second_token(ls[ix]),
                };
                match r {
                    Ok(cmd) => found && (pid_opt matches Some(pid) && command::args_views(cmd@)
                        == command::kill_args(pid)),
                    Err(e) => ((e matches Error::InvalidMachine { name: n } && n@ == name@
                        && !found)) || ((e matches Error::MachineNotInUse { name: n } && n@
                        == name@ && found && pid_opt is None)),
                }
            }),
    {
        match self.get_machine(name) {
            Err(e) => {
                return Err(e);
            },
            Ok(_) => {},
        }
        let image = paths::machine_path(self.path.as_str(), name);
        let tv = text::chars_of(table);
        let lsv = scan::split_lines(&tv);
        let pv = text::chars_of(image.as_str());
        let ix = match scan::find_line_with(&lsv, &pv) {
            None => {
                return Err(Error::MachineNotInUse { name: name.to_owned() });
            },
            Some(ix) => ix,
        };
        proof {
            assert(scan::lines_view(lsv@)[ix as int] == lsv@[ix as int]@);
        }
        match scan::second_field(&lsv[ix]) {
            None => Err(Error::MachineNotInUse { name: name.to_owned() }),
            Some(t) => {
                let pid = text::string_of(&t);
                Ok(command::build_kill(&pid))
            },
        }
    }

    /// Assembles the login-client command line for the machine called
    /// `name`, forwarding to its port; `username` is the login name,
    /// already resolved by the caller. Fails with `InvalidMachine`
    /// exactly when the name is absent.
    pub fn connect(&self, name: &str, username: &String, forward_keys: bool) -> (r: Result<
        Vec<String>,
        Error,
    >)
        requires
            self.wf(),
        ensures
            match r {
                Ok(cmd) => has_machine(self.machines_seq(), name@) && command::args_views(cmd@)
                    == command::ssh_args(
                    machine_named(self.machines_seq(), name@).port,
                    username@,
                    forward_keys,
                ),
                Err(e) => (e matches Error::InvalidMachine { name: n } && n@ == name@)
                    && !has_machine(self.machines_seq(), name@),
            },
    {
        let port: u16 = match self.get_machine(name) {
            Err(e) => {
                return Err(e);
            },
            Ok(m) => m.port,
        };
        Ok(command::build_ssh(port, username, forward_keys))
    }
}

/// The document parses and yields a library whose names are unique per
/// catalog: exactly the documents the library accepts.
pub open spec fn well_formed_library_doc(t: Seq<char>) -> bool {
    match codec::parse_library_doc(t) {
        None => false,
        Some(p) => unique_disks(p.0) && unique_disks(p.1) && unique_machines(p.2)
            && unique_machines(p.3),
    }
}

/// Law: the library round-trip. Saving any well-formed library and
/// loading the resulting document back reproduces exactly the registered
/// disks and machines and their backup records.
pub proof fn lemma_library_save_load_roundtrip(l: &Library)
    requires
        l.wf(),
    ensures
        codec::parse_library_doc(l.doc()) == Some(
            (l.disks_seq(), l.disk_backups_seq(), l.machines_seq(), l.machine_backups_seq()),
        ),
        well_formed_library_doc(l.doc()),
{
    assert(codec::disks_bounded(l.disks_seq()));
    assert(codec::disks_bounded(l.disk_backups_seq()));
    assert(codec::machines_bounded(l.machines_seq()));
    assert(codec::machines_bounded(l.machine_backups_seq()));
    codec::lemma_library_doc_roundtrip(
        l.disks_seq(),
        l.disk_backups_seq(),
        l.machines_seq(),
        l.machine_backups_seq(),
    );
}

/// Recording one more disk leaves every other name and entry as it was.
proof fn lemma_push_disk_other(ds: Seq<DiskV>, d: DiskV)
    ensures
        forall|n: Seq<char>| n != d.name ==> has_disk(ds.push(d), n) == has_disk(ds, n),
        forall|x: DiskV| x.name != d.name ==> ds.push(d).contains(x) == ds.contains(x),
{
    assert forall|n: Seq<char>| n != d.name implies has_disk(ds.push(d), n) == has_disk(ds, n) by {
        if has_disk(ds.push(d), n) {
            let i = choose|i: int|
                0 <= i < ds.push(d).len() && (#[trigger] ds.push(d)[i]).name == n;
            assert(i < ds.len());
            assert(ds[i].name == n);
        }
        if has_disk(ds, n) {
            let i = choose|i: int| 0 <= i < ds.len() && (#[trigger] ds[i]).name == n;
            assert(ds.push(d)[i].name == n);
        }
    }
    assert forall|x: DiskV| x.name != d.name implies ds.push(d).contains(x) == ds.contains(x) by {
        if ds.push(d).contains(x) {
            let i = choose|i: int| 0 <= i < ds.push(d).len() && ds.push(d)[i] == x;
            assert(i < ds.len());
            assert(ds[i] == x);
        }
        if ds.contains(x) {
            let i = choose|i: int| 0 <= i < ds.len() && ds[i] == x;
            assert(ds.push(d)[i] == x);
        }
    }
}

/// Recording one more machine leaves every other name and entry as it
/// was.
proof fn lemma_push_machine_other(ms: Seq<MachineV>, m: MachineV)
    ensures
        forall|n: Seq<char>| n != m.name ==> has_machine(ms.push(m), n) == has_machine(ms, n),
        forall|x: MachineV| x.name != m.name ==> ms.push(m).contains(x) == ms.contains(x),
{
    assert forall|n: Seq<char>| n != m.name implies has_machine(ms.push(m), n) == has_machine(
        ms,
        n,
    ) by {
        if has_machine(ms.push(m), n) {
            let i = choose|i: int|
                0 <= i < ms.push(m).len() && (#[trigger] ms.push(m)[i]).name == n;
            assert(i < ms.len());
            assert(ms[i].name == n);
        }
        if has_machine(ms, n) {
            let i = choose|i: int| 0 <= i < ms.len() && (#[trigger] ms[i]).name == n;
            assert(ms.push(m)[i].name == n);
        }
    }
    assert forall|x: MachineV| x.name != m.name implies ms.push(m).contains(x) == ms.contains(
        x,
    ) by {
        if ms.push(m).contains(x) {
            let i = choose|i: int| 0 <= i < ms.push(m).len() && ms.push(m)[i] == x;
            assert(i < ms.len());
            assert(ms[i] == x);
        }
        if ms.contains(x) {
            let i = choose|i: int| 0 <= i < ms.len() && ms[i] == x;
            assert(ms.push(m)[i] == x);
        }
    }
}

/// Finds the position of the disk called `name`.
fn find_disk(v: &Vec<Disk>, name: &str) -> (r: Option<usize>)
    ensures
        match r {
            Some(i) => i < v.len() && codec::disk_views(v@)[i as int].name == name@,
            None => !has_disk(codec::disk_views(v@), name@),
        },
{
    let mut i: usize = 0;
    while i < v.len()
        invariant
            i <= v.len(),
            forall|j: int| 0 <= j < i ==> (#[trigger] codec::disk_views(v@)[j]).name != name@,
        decreases v.len() - i,
    {
        if text::str_eq(v[i].name.as_str(), name) {
            return Some(i);
        }
        i = i + 1;
    }
    None
}

fn find_machine(v: &Vec<Machine>, name: &str) -> (r: Option<usize>)
    ensures
        match r {
            Some(i) => i < v.len() && codec::machine_views(v@)[i as int].name == name@,
            None => !has_machine(codec::machine_views(v@), name@),
        },
{
    let mut i: usize = 0;
    while i < v.len()
        invariant
            i <= v.len(),
            forall|j: int| 0 <= j < i ==> (#[trigger] codec::machine_views(v@)[j]).name != name@,
        decreases v.len() - i,
    {
        if text::str_eq(v[i].name.as_str(), name) {
            return Some(i);
        }
        i = i + 1;
    }
    None
}

} // verus!
