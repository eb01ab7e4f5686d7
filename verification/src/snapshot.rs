use vstd::prelude::*;
use crate::num;
use crate::text;

verus! {

use vstd::string::StringExecFns;

/// A copy-on-write overlay image whose backing file is the image of the
/// machine named `base` at creation time. `port` and `size` are copied from
/// the base machine when the snapshot is registered.
#[derive(Debug)]
pub struct Snapshot {
    pub name: String,
    pub base: String,
    pub port: u16,
    pub size: usize,
}

/// The mathematical content of a [`Snapshot`].
pub struct SnapshotV {
    pub name: Seq<char>,
    pub base: Seq<char>,
    pub port: nat,
    pub size: nat,
}

impl View for Snapshot {
    type V = SnapshotV;

    open spec fn view(&self) -> SnapshotV {
        SnapshotV {
            name: self.name@,
            base: self.base@,
            port: self.port as nat,
            size: self.size as nat,
        }
    }
}

impl Snapshot {
    /// `<name> (base: <base>, port: <port>, size: <size>)`: the one-line
    /// human rendering.
    pub fn describe(&self) -> (r: String)
        ensures
            r@ == self.name@ + " (base: "@ + self.base@ + ", port: "@ + num::dec_rep(
                self.port as nat,
            ) + ", size: "@ + num::dec_rep(self.size as nat) + ")"@,
    {
        let mut s = self.name.clone();
        s.append(" (base: ");
        s.append(self.base.as_str());
        s.append(", port: ");
        let pd = num::u64_to_dec(self.port as u64);
        let ps = text::string_of(&pd);
        s.append(ps.as_str());
        s.append(", size: ");
        let sd = num::u64_to_dec(self.size as u64);
        let ss = text::string_of(&sd);
        s.append(ss.as_str());
        s.append(")");
        s
    }
}

impl Clone for Snapshot {
    fn clone(&self) -> (r: Self)
        ensures
            r == *self,
    {
        Snapshot {
            name: self.name.clone(),
            base: self.base.clone(),
            port: self.port,
            size: self.size,
        }
    }
}

} // verus!
