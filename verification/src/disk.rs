use vstd::prelude::*;
use crate::num;
use crate::text;

verus! {

use vstd::string::StringExecFns;

/// One virtual block device image, keyed by its unique name; `size` is in
/// gigabytes.
#[derive(Debug)]
pub struct Disk {
    pub name: String,
    pub size: usize,
}

/// The mathematical content of a [`Disk`].
pub struct DiskV {
    pub name: Seq<char>,
    pub size: nat,
}

impl View for Disk {
    type V = DiskV;

    open spec fn view(&self) -> DiskV {
        DiskV { name: self.name@, size: self.size as nat }
    }
}

impl Disk {
    /// `<name> (size: <size>)`: the one-line human rendering.
    pub fn describe(&self) -> (r: String)
        ensures
            r@ == self.name@ + " (size: "@ + num::dec_rep(self.size as nat) + ")"@,
    {
        let mut s = self.name.clone();
        s.append(" (size: ");
        let digits = num::u64_to_dec(self.size as u64);
        let ds = text::string_of(&digits);
        s.append(ds.as_str());
        s.append(")");
        s
    }
}

impl Clone for Disk {
    fn clone(&self) -> (r: Self)
        ensures
            r == *self,
    {
        Disk { name: self.name.clone(), size: self.size }
    }
}

} // verus!
