use rhea::paths;
use rhea::str_eq;

#[test]
fn image_lock_and_backup_paths() {
    assert_eq!(paths::state_path("/r"), "/r/state.toml");
    assert_eq!(paths::process_lock_path("/r"), "/r/.proc.lock");
    assert_eq!(paths::disk_dir_path("/r"), "/r/disks");
    assert_eq!(paths::disk_path("/r", "d1"), "/r/disks/d1.qcow2");
    assert_eq!(paths::machine_dir_path("/r"), "/r/machines");
    assert_eq!(paths::machine_path("/r", "vm1"), "/r/machines/vm1.qcow2");
    assert_eq!(paths::snapshot_dir_path("/r"), "/r/snapshots");
    assert_eq!(paths::snapshot_path("/r", "s1"), "/r/snapshots/s1.qcow2");
    assert_eq!(paths::lock_dir_path("/r"), "/r/locks");
    assert_eq!(paths::resource_lock_path("/r", "d1"), "/r/locks/d1.lock");
    assert_eq!(paths::backup_dir_path("/r"), "/r/backups");
    assert_eq!(paths::backup_path("/r", "d1"), "/r/backups/d1.qcow2");
}

#[test]
fn paths_are_pure_in_name_and_root() {
    assert_eq!(
        paths::disk_path("/somewhere/else", "a b c"),
        "/somewhere/else/disks/a b c.qcow2"
    );
    assert_eq!(paths::disk_path("", ""), "/disks/.qcow2");
}

#[test]
fn portability_check() {
    assert!(paths::is_portable("/r/disks/d1.qcow2"));
    assert!(!paths::is_portable("/r/di\0sks"));
    assert!(paths::is_portable(""));
}

#[test]
fn str_eq_compares_contents() {
    assert!(str_eq("abc", "abc"));
    assert!(!str_eq("abc", "abd"));
    assert!(!str_eq("abc", "ab"));
    assert!(str_eq("", ""));
}
