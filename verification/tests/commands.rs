use rhea::Error;
use rhea::State;

const RUNNER: &str = "qemu-system-aarch64";
const UEFI: &str = "/firmware/uefi.fd";
const NO_PROCS: &str = "";

fn fresh() -> State {
    State::load("/r".to_string(), None).unwrap()
}

fn owned(parts: &[&str]) -> Vec<String> {
    parts.iter().map(|p| p.to_string()).collect()
}

#[test]
fn start_assembles_full_command() {
    let mut st = fresh();
    st.add_machine("vm1", 8192, 64).unwrap();
    st.add_disk("d1", 20).unwrap();
    let iso = "/isos/install.iso".to_string();
    let disks = vec!["d1".to_string()];
    let cmd = st
        .start("vm1", 4, 8, false, &disks, Some(&iso), RUNNER, UEFI, NO_PROCS)
        .unwrap();
    assert_eq!(
        cmd,
        owned(&[
            "qemu-system-aarch64",
            "-M",
            "virt,highmem=on",
            "-accel",
            "hvf",
            "-cpu",
            "host",
            "-smp",
            "4",
            "-m",
            "8G",
            "-bios",
            "/firmware/uefi.fd",
            "-drive",
            "file=/r/machines/vm1.qcow2,if=none,cache=writethrough,id=hd0",
            "-device",
            "virtio-gpu-pci",
            "-device",
            "virtio-blk-device,drive=hd0",
            "-net",
            "user,hostfwd=tcp::8192-:22",
            "-net",
            "nic",
            "-nographic",
            "-drive",
            "file=/r/disks/d1.qcow2,format=qcow2,media=disk",
            "-cdrom",
            "/isos/install.iso",
        ])
    );
}

#[test]
fn start_with_disk_in_use_fails_before_spawn() {
    let mut st = fresh();
    st.add_machine("vm1", 8192, 64).unwrap();
    st.add_disk("d1", 20).unwrap();
    let table = "user 31337 qemu-system-aarch64 -drive file=/r/disks/d1.qcow2,format=qcow2\n";
    let disks = vec!["d1".to_string()];
    let r = st.start("vm1", 4, 4, false, &disks, None, RUNNER, UEFI, table);
    assert!(matches!(r, Err(Error::DiskInUse { .. })));
}

#[test]
fn start_with_unknown_pieces_fails() {
    let mut st = fresh();
    st.add_machine("vm1", 8192, 64).unwrap();
    let disks = vec!["ghost".to_string()];
    assert!(matches!(
        st.start("vm1", 4, 4, false, &disks, None, RUNNER, UEFI, NO_PROCS),
        Err(Error::InvalidDisk { .. })
    ));
    let none = vec![];
    assert!(matches!(
        st.start("nope", 4, 4, false, &none, None, RUNNER, UEFI, NO_PROCS),
        Err(Error::InvalidMachine { .. })
    ));
    assert!(matches!(
        st.start("nope", 4, 4, true, &none, None, RUNNER, UEFI, NO_PROCS),
        Err(Error::InvalidSnapshot { .. })
    ));
}

#[test]
fn start_snapshot_uses_overlay_and_copied_port() {
    let mut st = fresh();
    st.add_machine("vm1", 8192, 64).unwrap();
    st.add_snapshot("s1", "vm1").unwrap();
    let none = vec![];
    let cmd = st
        .start("s1", 2, 2, true, &none, None, RUNNER, UEFI, NO_PROCS)
        .unwrap();
    assert_eq!(cmd[14], "file=/r/snapshots/s1.qcow2,if=none,cache=writethrough,id=hd0");
    assert_eq!(cmd[20], "user,hostfwd=tcp::8192-:22");
}

#[test]
fn snapshot_creation_copies_base_and_builds_overlay() {
    let mut st = fresh();
    st.add_machine("vm1", 8192, 64).unwrap();
    let cmd = st.add_snapshot("s1", "vm1").unwrap();
    assert_eq!(
        cmd,
        owned(&[
            "qemu-img",
            "create",
            "-f",
            "qcow2",
            "-b",
            "/r/machines/vm1.qcow2",
            "-F",
            "qcow2",
            "/r/snapshots/s1.qcow2",
        ])
    );
    let s = st.get_snapshot("s1").unwrap();
    assert_eq!(s.port, 8192);
    assert_eq!(s.size, 64);
    assert_eq!(s.base, "vm1");
}

#[test]
fn snapshot_of_missing_base_registers_nothing() {
    let mut st = fresh();
    let r = st.add_snapshot("s1", "ghost");
    assert!(matches!(r, Err(Error::InvalidMachine { .. })));
    assert!(st.snapshots().is_empty());
    assert!(matches!(
        st.get_snapshot("s1"),
        Err(Error::InvalidSnapshot { .. })
    ));
}

#[test]
fn stop_parses_pid_from_first_matching_line() {
    let mut st = fresh();
    st.add_machine("vm1", 8192, 64).unwrap();
    let table = "root 100 something-else\n\
                 alice 4242 qemu-system-aarch64 -drive file=/r/machines/vm1.qcow2,x\n\
                 alice 9999 qemu-system-aarch64 -drive file=/r/machines/vm1.qcow2,x\n";
    let cmd = st.stop("vm1", false, table).unwrap();
    assert_eq!(cmd, owned(&["kill", "4242"]));
}

#[test]
fn stop_idle_machine_reports_not_in_use() {
    let mut st = fresh();
    st.add_machine("vm1", 8192, 64).unwrap();
    assert!(matches!(
        st.stop("vm1", false, NO_PROCS),
        Err(Error::MachineNotInUse { .. })
    ));
    st.add_snapshot("s1", "vm1").unwrap();
    assert!(matches!(
        st.stop("s1", true, NO_PROCS),
        Err(Error::SnapshotNotInUse { .. })
    ));
    assert!(matches!(
        st.stop("ghost", false, NO_PROCS),
        Err(Error::InvalidMachine { .. })
    ));
}

#[test]
fn connect_builds_login_command() {
    let mut st = fresh();
    st.add_machine("vm1", 8192, 64).unwrap();
    let user = "alice".to_string();
    let cmd = st.connect("vm1", &user, false, false).unwrap();
    assert_eq!(cmd, owned(&["ssh", "-p 8192", "alice@localhost"]));
    let cmd = st.connect("vm1", &user, true, false).unwrap();
    assert_eq!(cmd, owned(&["ssh", "-A", "-p 8192", "alice@localhost"]));
    assert!(matches!(
        st.connect("ghost", &user, false, false),
        Err(Error::InvalidMachine { .. })
    ));
}

#[test]
fn library_start_stop_connect() {
    let mut lib = rhea::Library::new("/r".to_string());
    lib.add_machine("vm1", 2222, 16).unwrap();
    let none = vec![];
    let cmd = lib
        .start("vm1", 1, 1, &none, None, RUNNER, UEFI, NO_PROCS)
        .unwrap();
    assert_eq!(cmd[0], "qemu-system-aarch64");
    assert_eq!(cmd[20], "user,hostfwd=tcp::2222-:22");
    let table = "bob 77 qemu /r/machines/vm1.qcow2\n";
    assert_eq!(lib.stop("vm1", table).unwrap(), owned(&["kill", "77"]));
    let user = "bob".to_string();
    assert_eq!(
        lib.connect("vm1", &user, false).unwrap(),
        owned(&["ssh", "-p 2222", "bob@localhost"])
    );
}
