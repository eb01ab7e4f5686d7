//! The path deriver: pure functions mapping the root directory and a
//! resource name to every on-disk location the tool touches. No input or
//! output happens here, only path arithmetic over plain text.

use vstd::prelude::*;
use crate::text;

verus! {

use vstd::string::StringExecFns;

/// A path can be handed to the operating system only when it holds no nul
/// character.
pub open spec fn portable(s: Seq<char>) -> bool {
    forall|i: int| 0 <= i < s.len() ==> s[i] != '\0'
}

/// Checks that `s` holds no nul character.
pub fn is_portable(s: &str) -> (r: bool)
    ensures
        r == portable(s@),
{
    let cs = text::chars_of(s);
    let mut i: usize = 0;
    while i < cs.len()
        invariant
            i <= cs.len(),
            cs@ == s@,
            forall|j: int| 0 <= j < i ==> s@[j] != '\0',
        decreases cs.len() - i,
    {
        if cs[i] == '\0' {
            return false;
        }
        i = i + 1;
    }
    true
}

pub open spec fn state_path_spec(root: Seq<char>) -> Seq<char> {
    root + "/state.toml"@
}

/// The persisted state document sits directly under the root directory.
pub fn state_path(root: &str) -> (r: String)
    ensures
        r@ == state_path_spec(root@),
{
    let mut s = root.to_owned();
    s.append("/state.toml");
    s
}

pub open spec fn process_lock_path_spec(root: Seq<char>) -> Seq<char> {
    root + "/.proc.lock"@
}

/// The host-wide lock file that serializes process-table probes.
pub fn process_lock_path(root: &str) -> (r: String)
    ensures
        r@ == process_lock_path_spec(root@),
{
    let mut s = root.to_owned();
    s.append("/.proc.lock");
    s
}

pub open spec fn disk_dir_spec(root: Seq<char>) -> Seq<char> {
    root + "/disks"@
}

pub fn disk_dir_path(root: &str) -> (r: String)
    ensures
        r@ == disk_dir_spec(root@),
{
    let mut s = root.to_owned();
    s.append("/disks");
    s
}

pub open spec fn disk_path_spec(root: Seq<char>, name: Seq<char>) -> Seq<char> {
    root + "/disks/"@ + name + ".qcow2"@
}

/// The image file of the disk called `name`.
pub fn disk_path(root: &str, name: &str) -> (r: String)
    ensures
        r@ == disk_path_spec(root@, name@),
{
    let mut s = root.to_owned();
    s.append("/disks/");
    s.append(name);
    s.append(".qcow2");
    s
}

pub open spec fn machine_dir_spec(root: Seq<char>) -> Seq<char> {
    root + "/machines"@
}

pub fn machine_dir_path(root: &str) -> (r: String)
    ensures
        r@ == machine_dir_spec(root@),
{
    let mut s = root.to_owned();
    s.append("/machines");
    s
}

pub open spec fn machine_path_spec(root: Seq<char>, name: Seq<char>) -> Seq<char> {
    root + "/machines/"@ + name + ".qcow2"@
}

/// The image file of the machine called `name`.
pub fn machine_path(root: &str, name: &str) -> (r: String)
    ensures
        r@ == machine_path_spec(root@, name@),
{
    let mut s = root.to_owned();
    s.append("/machines/");
    s.append(name);
    s.append(".qcow2");
    s
}

pub open spec fn snapshot_dir_spec(root: Seq<char>) -> Seq<char> {
    root + "/snapshots"@
}

pub fn snapshot_dir_path(root: &str) -> (r: String)
    ensures
        r@ == snapshot_dir_spec(root@),
{
    let mut s = root.to_owned();
    s.append("/snapshots");
    s
}

pub open spec fn snapshot_path_spec(root: Seq<char>, name: Seq<char>) -> Seq<char> {
    root + "/snapshots/"@ + name + ".qcow2"@
}

/// The overlay image file of the snapshot called `name`.
pub fn snapshot_path(root: &str, name: &str) -> (r: String)
    ensures
        r@ == snapshot_path_spec(root@, name@),
{
    let mut s = root.to_owned();
    s.append("/snapshots/");
    s.append(name);
    s.append(".qcow2");
    s
}

pub open spec fn lock_dir_spec(root: Seq<char>) -> Seq<char> {
    root + "/locks"@
}

pub fn lock_dir_path(root: &str) -> (r: String)
    ensures
        r@ == lock_dir_spec(root@),
{
    let mut s = root.to_owned();
    s.append("/locks");
    s
}

pub open spec fn resource_lock_path_spec(root: Seq<char>, name: Seq<char>) -> Seq<char> {
    root + "/locks/"@ + name + ".lock"@
}

/// The per-resource lock file backing an exclusive claim on `name`.
pub fn resource_lock_path(root: &str, name: &str) -> (r: String)
    ensures
        r@ == resource_lock_path_spec(root@, name@),
{
    let mut s = root.to_owned();
    s.append("/locks/");
    s.append(name);
    s.append(".lock");
    s
}

pub open spec fn backup_dir_spec(root: Seq<char>) -> Seq<char> {
    root + "/backups"@
}

pub fn backup_dir_path(root: &str) -> (r: String)
    ensures
        r@ == backup_dir_spec(root@),
{
    let mut s = root.to_owned();
    s.append("/backups");
    s
}

pub open spec fn backup_path_spec(root: Seq<char>, name: Seq<char>) -> Seq<char> {
    root + "/backups/"@ + name + ".qcow2"@
}

/// The backup copy of the image of the resource called `name`.
pub fn backup_path(root: &str, name: &str) -> (r: String)
    ensures
        r@ == backup_path_spec(root@, name@),
{
    let mut s = root.to_owned();
    s.append("/backups/");
    s.append(name);
    s.append(".qcow2");
    s
}

} // verus!
