//! The lock manager: advisory, per-resource exclusivity through on-disk
//! lock files. A blocking acquire serializes process-table probes across
//! invocations; a non-blocking acquire claims a resource for the scope of
//! one run. Releasing leaves a clean lock file behind, so a past clean
//! release never blocks a later acquisition.
//!
//! The file locking itself comes from the `fslock` crate; everything
//! Verus believes about it is stated on the four trusted wrappers below
//! and checked by nobody but the reader.

use vstd::prelude::*;
use crate::error::Error;
use crate::paths;

verus! {

#[verifier::external_type_specification]
#[verifier::external_body]
pub struct ExLockFile(fslock::LockFile);

/// One handle on one lock file. `held` mirrors whether this handle
/// currently owns the lock: the trusted wrappers keep it in step with the
/// handle's state inside `fslock`, whose locking calls panic when a
/// handle that already owns the lock locks again (and the reverse for
/// unlocking) — the mirror is what lets every caller rule those calls
/// out.
pub struct LockHandle {
    file: fslock::LockFile,
    held: bool,
}

impl LockHandle {
    /// This handle owns the lock.
    pub closed spec fn held(&self) -> bool {
        self.held
    }

    /// Opens (creating it if absent) the lock file at `path`, owning
    /// nothing yet; fails with `InvalidPath` when the path holds a nul
    /// character, which no operating-system path may.
    pub fn open(path: &String) -> (r: Result<LockHandle, Error>)
        ensures
            r matches Ok(h) ==> !h.held(),
            !paths::portable(path@) ==> (r matches Err(Error::InvalidPath { path: p }) && p@
                == path@),
            r matches Err(Error::InvalidPath { path: p }) ==> (p@ == path@ && !paths::portable(
                path@,
            )),
            r matches Err(e) ==> (e matches Error::InvalidPath { .. } || e matches Error::Io {
                ..
            }),
    {
        if !paths::is_portable(path.as_str()) {
            return Err(Error::InvalidPath { path: path.clone() });
        }
        match open_raw(path) {
            Ok(f) => Ok(LockHandle { file: f, held: false }),
            Err(m) => Err(Error::Io { message: m }),
        }
    }

    /// Takes the lock, blocking while another live holder exists.
    pub fn lock(&mut self) -> (r: Result<(), Error>)
        requires
            !old(self).held(),
        ensures
            r is Ok ==> final(self).held(),
            r is Err ==> !final(self).held() && r matches Err(Error::Io { .. }),
    {
        match lock_raw(self) {
            Ok(()) => Ok(()),
            Err(m) => Err(Error::Io { message: m }),
        }
    }

    /// Tries to take the lock without blocking; `Ok(false)` reports only
    /// that the lock was not acquired — usually because another live
    /// holder owns it, but also when the attempt was interrupted.
    pub fn try_lock(&mut self) -> (r: Result<bool, Error>)
        requires
            !old(self).held(),
        ensures
            r matches Ok(b) ==> final(self).held() == b,
            r is Err ==> !final(self).held() && r matches Err(Error::Io { .. }),
    {
        match try_lock_raw(self) {
            Ok(b) => Ok(b),
            Err(m) => Err(Error::Io { message: m }),
        }
    }

    /// Releases the lock. The handle owns nothing afterwards even on
    /// failure, and a failure is reported, never swallowed.
    pub fn unlock(&mut self) -> (r: Result<(), Error>)
        requires
            old(self).held(),
        ensures
            !final(self).held(),
            r is Err ==> r matches Err(Error::Io { .. }),
    {
        match unlock_raw(self) {
            Ok(()) => Ok(()),
            Err(m) => Err(Error::Io { message: m }),
        }
    }
}

/// Relies on `fslock::LockFile::open`: opens, creating it when absent,
/// the lock file at `path`, owning no lock yet. It panics on a path with
/// an interior nul character, which the requires rules out.
#[verifier::external_body]
fn open_raw(path: &String) -> (r: Result<fslock::LockFile, String>)
    requires
        paths::portable(path@),
{
    match fslock::LockFile::open(path) {
        Ok(f) => Ok(f),
        Err(e) => Err(format!("{}", e)),
    }
}

/// Relies on `fslock::LockFile::lock`: blocks until the handle owns the
/// lock. It panics when this handle already owns it, which the requires
/// rules out; the mirror field records the outcome.
#[verifier::external_body]
fn lock_raw(h: &mut LockHandle) -> (r: Result<(), String>)
    requires
        !old(h).held(),
    ensures
        r is Ok ==> final(h).held(),
        r is Err ==> !final(h).held(),
{
    match h.file.lock() {
        Ok(()) => {
            h.held = true;
            Ok(())
        },
        Err(e) => Err(format!("{}", e)),
    }
}

/// Relies on `fslock::LockFile::try_lock`: takes the lock and reports
/// `true`, or reports `false` without blocking when it did not — when
/// another live holder owns the lock, or when the attempt was
/// interrupted. It panics when this handle already owns it, which the
/// requires rules out; the mirror field records the outcome.
#[verifier::external_body]
fn try_lock_raw(h: &mut LockHandle) -> (r: Result<bool, String>)
    requires
        !old(h).held(),
    ensures
        r matches Ok(b) ==> final(h).held() == b,
        r is Err ==> !final(h).held(),
{
    match h.file.try_lock() {
        Ok(b) => {
            h.held = b;
            Ok(b)
        },
        Err(e) => Err(format!("{}", e)),
    }
}

/// Relies on `fslock::LockFile::unlock`: releases the lock and truncates
/// the lock file, leaving it clean. It panics when this handle does not
/// own the lock, which the requires rules out; the handle owns nothing
/// afterwards even when the release reports a failure.
#[verifier::external_body]
fn unlock_raw(h: &mut LockHandle) -> (r: Result<(), String>)
    requires
        old(h).held(),
    ensures
        !final(h).held(),
{
    h.held = false;
    match h.file.unlock() {
        Ok(()) => Ok(()),
        Err(e) => Err(format!("{}", e)),
    }
}

/// Claims exclusive use of the resource behind `lock_path` for the scope
/// of the current operation, without blocking: the claim holds until the
/// returned guard is unlocked or dropped. An attempt that does not take
/// the lock — usually because a live holder elsewhere owns it — fails
/// with `ResourceClaimed`, which is distinct from the liveness probe's
/// in-use signal.
pub fn acquire_exclusive(lock_path: &String) -> (r: Result<LockHandle, Error>)
    ensures
        r matches Ok(h) ==> h.held(),
        !paths::portable(lock_path@) ==> (r matches Err(Error::InvalidPath { path: p }) && p@
            == lock_path@),
        r matches Err(Error::InvalidPath { path: p }) ==> (p@ == lock_path@ && !paths::portable(
            lock_path@,
        )),
        r matches Err(Error::ResourceClaimed { path: p }) ==> (p@ == lock_path@),
        r matches Err(e) ==> (e matches Error::InvalidPath { .. } || e matches Error::Io { .. }
            || e matches Error::ResourceClaimed { .. }),
{
    let mut h = match LockHandle::open(lock_path) {
        Ok(h) => h,
        Err(e) => {
            return Err(e);
        },
    };
    match h.try_lock() {
        Ok(true) => Ok(h),
        Ok(false) => Err(Error::ResourceClaimed { path: lock_path.clone() }),
        Err(e) => Err(e),
    }
}

/// Takes the host-wide probe lock, blocking until it is free: the caller
/// captures the process table while holding it and releases it right
/// after, exactly as every invocation of the tool does.
pub fn acquire_blocking(lock_path: &String) -> (r: Result<LockHandle, Error>)
    ensures
        r matches Ok(h) ==> h.held(),
        !paths::portable(lock_path@) ==> (r matches Err(Error::InvalidPath { path: p }) && p@
            == lock_path@),
        r matches Err(Error::InvalidPath { path: p }) ==> (p@ == lock_path@ && !paths::portable(
            lock_path@,
        )),
        r matches Err(e) ==> (e matches Error::InvalidPath { .. } || e matches Error::Io { .. }),
{
    let mut h = match LockHandle::open(lock_path) {
        Ok(h) => h,
        Err(e) => {
            return Err(e);
        },
    };
    match h.lock() {
        Ok(()) => Ok(h),
        Err(e) => Err(e),
    }
}

} // verus!
