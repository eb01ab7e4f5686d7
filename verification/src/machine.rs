use vstd::prelude::*;
use crate::num;
use crate::text;

verus! {

use vstd::string::StringExecFns;

/// One bootable virtual machine image. `port` is the host-side TCP port
/// forwarded to the guest's SSH port; `size` is in gigabytes.
#[derive(Debug)]
pub struct Machine {
    pub name: String,
    pub port: u16,
    pub size: usize,
}

/// The mathematical content of a [`Machine`].
pub struct MachineV {
    pub name: Seq<char>,
    pub port: nat,
    pub size: nat,
}

impl View for Machine {
    type V = MachineV;

    open spec fn view(&self) -> MachineV {
        MachineV { name: self.name@, port: self.port as nat, size: self.size as nat }
    }
}

impl Machine {
    /// `<name> (port: <port>, size: <size>)`: the one-line human
    /// rendering.
    pub fn describe(&self) -> (r: String)
        ensures
            r@ == self.name@ + " (port: "@ + num::dec_rep(self.port as nat) + ", size: "@
                + num::dec_rep(self.size as nat) + ")"@,
    {
        let mut s = self.name.clone();
        s.append(" (port: ");
        let pd = num::u64_to_dec(self.port as u64);
        let ps = text::string_of(&pd);
        s.append(ps.as_str());
        s.append(", size: ");
        let sd = num::u64_to_dec(self.size as u64);
        let ss = text::string_of(&sd);
        s.append(ss.as_str());
        s.append(")");
        s
    }
}

impl Clone for Machine {
    fn clone(&self) -> (r: Self)
        ensures
            r == *self,
    {
        Machine { name: self.name.clone(), port: self.port, size: self.size }
    }
}

} // verus!
