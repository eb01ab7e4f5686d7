//! Assembles, as pure data, every command line the tool hands to the
//! outside world: the hypervisor's image tool, the hypervisor itself, the
//! login client and the signal sender. Callers spawn the returned vector
//! as a process whose program is the first element.

use vstd::prelude::*;
use crate::num;
use crate::text;

verus! {

use vstd::string::StringExecFns;

/// The character sequences of a vector of argument strings.
pub open spec fn args_views(a: Seq<String>) -> Seq<Seq<char>> {
    a.map_values(|s: String| s@)
}

/// `<n>G`: a size in gigabytes as the hypervisor's tools expect it.
pub open spec fn giga_spec(n: nat) -> Seq<char> {
    num::dec_rep(n) + "G"@
}

fn giga(n: usize) -> (r: String)
    ensures
        r@ == giga_spec(n as nat),
{
    let digits = num::u64_to_dec(n as u64);
    let mut s = text::string_of(&digits);
    s.append("G");
    s
}

fn dec_string(n: u64) -> (r: String)
    ensures
        r@ == num::dec_rep(n as nat),
{
    let digits = num::u64_to_dec(n);
    text::string_of(&digits)
}

/// `qemu-img create -f qcow2 <image> <size>G`.
pub open spec fn imager_create_args(image: Seq<char>, size: nat) -> Seq<Seq<char>> {
    seq!["qemu-img"@, "create"@, "-f"@, "qcow2"@, image, giga_spec(size)]
}

/// Builds the image-creation command for a fresh image.
pub fn build_imager_create(image: &String, size: usize) -> (r: Vec<String>)
    ensures
        args_views(r@) == imager_create_args(image@, size as nat),
{
    let mut v: Vec<String> = Vec::new();
    v.push("qemu-img".to_owned());
    v.push("create".to_owned());
    v.push("-f".to_owned());
    v.push("qcow2".to_owned());
    v.push(image.clone());
    v.push(giga(size));
    proof {
        assert(args_views(v@) =~= imager_create_args(image@, size as nat));
    }
    v
}

/// `qemu-img create -f qcow2 -b <base> -F qcow2 <overlay>`: a
/// copy-on-write overlay whose backing file is `base`.
pub open spec fn imager_overlay_args(base: Seq<char>, overlay: Seq<char>) -> Seq<Seq<char>> {
    seq!["qemu-img"@, "create"@, "-f"@, "qcow2"@, "-b"@, base, "-F"@, "qcow2"@, overlay]
}

/// Builds the image-creation command for a snapshot overlay.
pub fn build_imager_overlay(base: &String, overlay: &String) -> (r: Vec<String>)
    ensures
        args_views(r@) == imager_overlay_args(base@, overlay@),
{
    let mut v: Vec<String> = Vec::new();
    v.push("qemu-img".to_owned());
    v.push("create".to_owned());
    v.push("-f".to_owned());
    v.push("qcow2".to_owned());
    v.push("-b".to_owned());
    v.push(base.clone());
    v.push("-F".to_owned());
    v.push("qcow2".to_owned());
    v.push(overlay.clone());
    proof {
        assert(args_views(v@) =~= imager_overlay_args(base@, overlay@));
    }
    v
}

/// The fixed front of the hypervisor command line: machine type,
/// acceleration, CPU, topology, firmware, the primary drive, devices and
/// host-port forwarding to the descriptor's port.
pub open spec fn hypervisor_base_args(
    runner: Seq<char>,
    uefi: Seq<char>,
    image: Seq<char>,
    port: nat,
    cores: nat,
    ram: nat,
) -> Seq<Seq<char>> {
    seq![
        runner,
        "-M"@,
        "virt,highmem=on"@,
        "-accel"@,
        "hvf"@,
        "-cpu"@,
        "host"@,
        "-smp"@,
        num::dec_rep(cores),
        "-m"@,
        giga_spec(ram),
        "-bios"@,
        uefi,
        "-drive"@,
        "file="@ + image + ",if=none,cache=writethrough,id=hd0"@,
        "-device"@,
        "virtio-gpu-pci"@,
        "-device"@,
        "virtio-blk-device,drive=hd0"@,
        "-net"@,
        "user,hostfwd=tcp::"@ + num::dec_rep(port) + "-:22"@,
        "-net"@,
        "nic"@,
        "-nographic"@,
    ]
}

/// The two arguments attaching one secondary disk.
pub open spec fn drive_args(image: Seq<char>) -> Seq<Seq<char>> {
    seq!["-drive"@, "file="@ + image + ",format=qcow2,media=disk"@]
}

/// The two arguments attaching an optional boot image.
pub open spec fn cdrom_args(iso: Option<Seq<char>>) -> Seq<Seq<char>> {
    match iso {
        None => Seq::<Seq<char>>::empty(),
        Some(p) => seq!["-cdrom"@, p],
    }
}

/// Builds the fixed front of the hypervisor command line.
pub fn build_hypervisor_base(
    runner: &str,
    uefi: &str,
    image: &String,
    port: u16,
    cores: usize,
    ram: usize,
) -> (r: Vec<String>)
    ensures
        args_views(r@) == hypervisor_base_args(
            runner@,
            uefi@,
            image@,
            port as nat,
            cores as nat,
            ram as nat,
        ),
{
    let mut v: Vec<String> = Vec::new();
    v.push(runner.to_owned());
    v.push("-M".to_owned());
    v.push("virt,highmem=on".to_owned());
    v.push("-accel".to_owned());
    v.push("hvf".to_owned());
    v.push("-cpu".to_owned());
    v.push("host".to_owned());
    v.push("-smp".to_owned());
    v.push(dec_string(cores as u64));
    v.push("-m".to_owned());
    v.push(giga(ram));
    v.push("-bios".to_owned());
    v.push(uefi.to_owned());
    v.push("-drive".to_owned());
    let mut primary = "file=".to_owned();
    primary.append(image.as_str());
    primary.append(",if=none,cache=writethrough,id=hd0");
    v.push(primary);
    v.push("-device".to_owned());
    v.push("virtio-gpu-pci".to_owned());
    v.push("-device".to_owned());
    v.push("virtio-blk-device,drive=hd0".to_owned());
    v.push("-net".to_owned());
    let mut fwd = "user,hostfwd=tcp::".to_owned();
    let port_digits = num::u64_to_dec(port as u64);
    let port_str = text::string_of(&port_digits);
    fwd.append(port_str.as_str());
    fwd.append("-:22");
    v.push(fwd);
    v.push("-net".to_owned());
    v.push("nic".to_owned());
    v.push("-nographic".to_owned());
    proof {
        assert(args_views(v@) =~= hypervisor_base_args(
            runner@,
            uefi@,
            image@,
            port as nat,
            cores as nat,
            ram as nat,
        ));
    }
    v
}

/// Appends the two arguments attaching one secondary disk.
pub fn push_drive_args(v: &mut Vec<String>, image: &String)
    ensures
        args_views(final(v)@) == args_views(old(v)@) + drive_args(image@),
{
    v.push("-drive".to_owned());
    let mut arg = "file=".to_owned();
    arg.append(image.as_str());
    arg.append(",format=qcow2,media=disk");
    v.push(arg);
    proof {
        assert(args_views(v@) =~= args_views(old(v)@) + drive_args(image@));
    }
}

/// Appends the two arguments attaching the boot image, when one is given.
pub fn push_cdrom_args(v: &mut Vec<String>, iso: Option<&String>)
    ensures
        args_views(final(v)@) == args_views(old(v)@) + cdrom_args(
            match iso {
                None => None,
                Some(p) => Some(p@),
            },
        ),
{
    match iso {
        None => {
            proof {
                assert(args_views(v@) =~= args_views(old(v)@) + cdrom_args(None));
            }
        },
        Some(p) => {
            v.push("-cdrom".to_owned());
            v.push(p.clone());
            proof {
                assert(args_views(v@) =~= args_views(old(v)@) + cdrom_args(Some(p@)));
            }
        },
    }
}

/// `ssh [-A] -p <port> <user>@localhost`: the login-client command line.
/// The port flag and its value travel as one argument, exactly as the
/// tool has always passed them.
pub open spec fn ssh_args(port: nat, user: Seq<char>, forward_keys: bool) -> Seq<Seq<char>> {
    let fwd: Seq<Seq<char>> = if forward_keys {
        seq!["-A"@]
    } else {
        Seq::<Seq<char>>::empty()
    };
    seq!["ssh"@] + fwd + seq!["-p "@ + num::dec_rep(port), user + "@localhost"@]
}

/// Builds the login-client command line.
pub fn build_ssh(port: u16, user: &String, forward_keys: bool) -> (r: Vec<String>)
    ensures
        args_views(r@) == ssh_args(port as nat, user@, forward_keys),
{
    let mut v: Vec<String> = Vec::new();
    v.push("ssh".to_owned());
    if forward_keys {
        v.push("-A".to_owned());
    }
    let mut port_arg = "-p ".to_owned();
    let port_digits = num::u64_to_dec(port as u64);
    let port_str = text::string_of(&port_digits);
    port_arg.append(port_str.as_str());
    v.push(port_arg);
    let mut target = user.clone();
    target.append("@localhost");
    v.push(target);
    proof {
        assert(args_views(v@) =~= ssh_args(port as nat, user@, forward_keys));
    }
    v
}

/// `kill <pid>`: the termination signal for a running instance.
pub open spec fn kill_args(pid: Seq<char>) -> Seq<Seq<char>> {
    seq!["kill"@, pid]
}

/// Builds the termination command.
pub fn build_kill(pid: &String) -> (r: Vec<String>)
    ensures
        args_views(r@) == kill_args(pid@),
{
    let mut v: Vec<String> = Vec::new();
    v.push("kill".to_owned());
    v.push(pid.clone());
    proof {
        assert(args_views(v@) =~= kill_args(pid@));
    }
    v
}

} // verus!
