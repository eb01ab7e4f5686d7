use rhea::acquire_blocking;
use rhea::acquire_exclusive;
use rhea::Error;
use rhea::LockHandle;

#[test]
fn exclusive_claim_blocks_second_claim_until_release() {
    let path = "/tmp/rhea_test_excl.lock".to_string();
    let mut first = acquire_exclusive(&path).unwrap();
    let second = acquire_exclusive(&path);
    assert!(matches!(second, Err(Error::ResourceClaimed { .. })));
    first.unlock().unwrap();
    let third = acquire_exclusive(&path).unwrap();
    drop(third);
}

#[test]
fn dropping_the_guard_releases_the_claim() {
    let path = "/tmp/rhea_test_drop.lock".to_string();
    {
        let guard = acquire_exclusive(&path).unwrap();
        drop(guard);
    }
    let again = acquire_exclusive(&path).unwrap();
    drop(again);
}

#[test]
fn clean_release_leaves_reusable_lock_file() {
    let path = "/tmp/rhea_test_reuse.lock".to_string();
    for _ in 0..3 {
        let mut h = acquire_exclusive(&path).unwrap();
        h.unlock().unwrap();
    }
}

#[test]
fn blocking_probe_lock_round_trip() {
    let path = "/tmp/rhea_test_probe.lock".to_string();
    let mut h = acquire_blocking(&path).unwrap();
    let contender = acquire_exclusive(&path);
    assert!(matches!(contender, Err(Error::ResourceClaimed { .. })));
    h.unlock().unwrap();
}

#[test]
fn open_without_locking_owns_nothing() {
    let path = "/tmp/rhea_test_open.lock".to_string();
    let handle = LockHandle::open(&path).unwrap();
    let mut other = acquire_exclusive(&path).unwrap();
    other.unlock().unwrap();
    drop(handle);
}

#[test]
fn nul_in_lock_path_is_invalid() {
    let path = "/tmp/rhea\0bad.lock".to_string();
    assert!(matches!(
        acquire_exclusive(&path),
        Err(Error::InvalidPath { .. })
    ));
    assert!(matches!(
        acquire_blocking(&path),
        Err(Error::InvalidPath { .. })
    ));
}
