use rhea::Error;
use rhea::Library;
use rhea::State;

const NO_PROCS: &str = "";

fn fresh() -> State {
    State::load("/r".to_string(), None).unwrap()
}

#[test]
fn add_then_get_disk() {
    let mut st = fresh();
    let cmd = st.add_disk("d1", 20).unwrap();
    assert_eq!(
        cmd,
        vec![
            "qemu-img".to_string(),
            "create".to_string(),
            "-f".to_string(),
            "qcow2".to_string(),
            "/r/disks/d1.qcow2".to_string(),
            "20G".to_string(),
        ]
    );
    let d = st.get_disk("d1").unwrap();
    assert_eq!(d.name, "d1");
    assert_eq!(d.size, 20);
}

#[test]
fn distinct_add_add_remove_keeps_other() {
    let mut st = fresh();
    st.add_disk("a", 1).unwrap();
    st.add_disk("b", 2).unwrap();
    st.remove_disk("a", NO_PROCS).unwrap();
    let b = st.get_disk("b").unwrap();
    assert_eq!(b.name, "b");
    assert_eq!(b.size, 2);
    assert!(matches!(st.get_disk("a"), Err(Error::InvalidDisk { .. })));
}

#[test]
fn state_readd_fails_and_keeps_original() {
    let mut st = fresh();
    st.add_disk("d1", 20).unwrap();
    let r = st.add_disk("d1", 99);
    assert!(matches!(r, Err(Error::DiskExists { .. })));
    assert_eq!(st.get_disk("d1").unwrap().size, 20);
    assert_eq!(st.disks().len(), 1);

    st.add_machine("m1", 8192, 64).unwrap();
    let r = st.add_machine("m1", 1, 1);
    assert!(matches!(r, Err(Error::MachineExists { .. })));
    let m = st.get_machine("m1").unwrap();
    assert_eq!(m.port, 8192);
    assert_eq!(m.size, 64);
}

#[test]
fn library_readd_is_noop_keeping_original() {
    let mut lib = Library::new("/r".to_string());
    assert!(lib.add_disk("d1", 20).unwrap().is_some());
    assert!(lib.add_disk("d1", 99).unwrap().is_none());
    assert_eq!(lib.get_disk("d1").unwrap().size, 20);
    assert_eq!(lib.disks().len(), 1);

    assert!(lib.add_machine("m1", 8192, 64).unwrap().is_some());
    assert!(lib.add_machine("m1", 1, 1).unwrap().is_none());
    assert_eq!(lib.get_machine("m1").unwrap().port, 8192);
    assert_eq!(lib.machines().len(), 1);
}

#[test]
fn remove_in_use_fails_and_keeps_catalog() {
    let mut st = fresh();
    st.add_disk("d1", 20).unwrap();
    let table = "root 4242 qemu-system-aarch64 -drive file=/r/disks/d1.qcow2,x\n";
    assert_eq!(st.disk_in_use("d1", table).unwrap(), true);
    let r = st.remove_disk("d1", table);
    assert!(matches!(r, Err(Error::DiskInUse { .. })));
    assert_eq!(st.get_disk("d1").unwrap().size, 20);
    assert_eq!(st.disks().len(), 1);
}

#[test]
fn remove_idle_then_remove_again_not_found() {
    let mut st = fresh();
    st.add_disk("d1", 20).unwrap();
    assert_eq!(st.disk_in_use("d1", NO_PROCS).unwrap(), false);
    st.remove_disk("d1", NO_PROCS).unwrap();
    assert!(st.disks().is_empty());
    let r = st.remove_disk("d1", NO_PROCS);
    assert!(matches!(r, Err(Error::InvalidDisk { .. })));
}

#[test]
fn in_use_requires_registration() {
    let st = fresh();
    assert!(matches!(
        st.disk_in_use("nope", NO_PROCS),
        Err(Error::InvalidDisk { .. })
    ));
    assert!(matches!(
        st.machine_in_use("nope", NO_PROCS),
        Err(Error::InvalidMachine { .. })
    ));
    assert!(matches!(
        st.snapshot_in_use("nope", NO_PROCS),
        Err(Error::InvalidSnapshot { .. })
    ));
}

#[test]
fn in_use_matches_exact_path_only() {
    let mut st = fresh();
    st.add_disk("d1", 20).unwrap();
    let other = "root 1 qemu -drive file=/r/disks/d2.qcow2\n";
    assert_eq!(st.disk_in_use("d1", other).unwrap(), false);
    let longer = "root 1 qemu -drive file=/r/disks/d1.qcow2.bak\n";
    assert_eq!(st.disk_in_use("d1", longer).unwrap(), true);
}

#[test]
fn machine_remove_in_use_and_idle() {
    let mut st = fresh();
    st.add_machine("vm1", 8192, 64).unwrap();
    let table = "user 7 qemu-system /r/machines/vm1.qcow2\n";
    assert!(matches!(
        st.remove_machine("vm1", table),
        Err(Error::MachineInUse { .. })
    ));
    st.remove_machine("vm1", NO_PROCS).unwrap();
    assert!(matches!(
        st.get_machine("vm1"),
        Err(Error::InvalidMachine { .. })
    ));
}

#[test]
fn snapshot_remove_and_errors() {
    let mut st = fresh();
    st.add_machine("vm1", 8192, 64).unwrap();
    st.add_snapshot("s1", "vm1").unwrap();
    assert!(matches!(
        st.add_snapshot("s1", "vm1"),
        Err(Error::SnapshotExists { .. })
    ));
    let table = "u 9 qemu /r/snapshots/s1.qcow2\n";
    assert!(matches!(
        st.remove_snapshot("s1", table),
        Err(Error::SnapshotInUse { .. })
    ));
    st.remove_snapshot("s1", "").unwrap();
    assert!(matches!(
        st.get_snapshot("s1"),
        Err(Error::InvalidSnapshot { .. })
    ));
}

#[test]
fn library_backup_records_descriptor() {
    let mut lib = Library::new("/r".to_string());
    assert!(matches!(
        lib.backup_disk("d1"),
        Err(Error::InvalidDisk { .. })
    ));
    lib.add_disk("d1", 20).unwrap();
    let (src, dst) = lib.backup_disk("d1").unwrap();
    assert_eq!(src, "/r/disks/d1.qcow2");
    assert_eq!(dst, "/r/backups/d1.qcow2");
    lib.add_machine("m1", 2222, 8).unwrap();
    let (msrc, mdst) = lib.backup_machine("m1").unwrap();
    assert_eq!(msrc, "/r/machines/m1.qcow2");
    assert_eq!(mdst, "/r/backups/m1.qcow2");
}

#[test]
fn describe_renders_descriptors() {
    let mut st = fresh();
    st.add_disk("d1", 20).unwrap();
    st.add_machine("vm1", 8192, 64).unwrap();
    st.add_snapshot("s1", "vm1").unwrap();
    assert_eq!(st.get_disk("d1").unwrap().describe(), "d1 (size: 20)");
    assert_eq!(
        st.get_machine("vm1").unwrap().describe(),
        "vm1 (port: 8192, size: 64)"
    );
    assert_eq!(
        st.get_snapshot("s1").unwrap().describe(),
        "s1 (base: vm1, port: 8192, size: 64)"
    );
}

#[test]
fn error_messages_describe_the_failed_precondition() {
    let mut st = fresh();
    st.add_disk("d1", 20).unwrap();
    let e = st.add_disk("d1", 20).unwrap_err();
    assert_eq!(e.message(), "disk exists: d1");
    let e = st.get_disk("nope").unwrap_err();
    assert_eq!(e.message(), "invalid disk: nope");
    let table = "x 1 /r/disks/d1.qcow2\n";
    let e = st.remove_disk("d1", table).unwrap_err();
    assert_eq!(e.message(), "disk in use: d1");
    let e = st.add_snapshot("s", "ghost").unwrap_err();
    assert_eq!(e.message(), "invalid machine: ghost");
    match State::load("/r".to_string(), Some("garbage")) {
        Err(e) => assert_eq!(e.message(), "deserialization error"),
        Ok(_) => panic!("garbage was accepted"),
    }
}
