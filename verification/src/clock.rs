//! Versions of a buffer.

use vstd::prelude::*;

verus! {

/// A version of a buffer: for each replica, the number of its last edit that the version
/// holds. A replica past the end has made no edit yet.
#[derive(Debug)]
pub struct Global {
    pub values: Vec<u32>,
}

impl View for Global {
    type V = Seq<u32>;

    open spec fn view(&self) -> Seq<u32> {
        self.values@
    }
}

/// The last edit of `replica` that `version` holds, 0 where it holds none.
pub open spec fn last_edit(version: Seq<u32>, replica: int) -> u32 {
    if 0 <= replica < version.len() {
        version[replica]
    } else {
        0
    }
}

/// Whether version `a` holds an edit that version `b` does not hold.
pub open spec fn changed_since(a: Seq<u32>, b: Seq<u32>) -> bool {
    exists|replica: int| last_edit(a, replica) > #[trigger] last_edit(b, replica)
}

impl Global {
    /// The version of a buffer without edits.
    pub fn new() -> (version: Self)
        ensures
            version@ == Seq::<u32>::empty(),
    {
        Global { values: Vec::new() }
    }

    /// Whether this version holds an edit that `other` does not hold.
    pub fn changed_since(&self, other: &Global) -> (changed: bool)
        ensures
            changed == changed_since(self@, other@),
    {
        let mut replica: usize = 0;
        while replica < self.values.len()
            invariant
                replica <= self.values.len(),
                forall|r: int|
                    0 <= r < replica ==> last_edit(self@, r) <= #[trigger] last_edit(other@, r),
            decreases self.values.len() - replica,
        {
            let theirs: u32 = if replica < other.values.len() {
                other.values[replica]
            } else {
                0
            };
            if self.values[replica] > theirs {
                assert(last_edit(self@, replica as int) > last_edit(other@, replica as int));
                return true;
            }
            replica = replica + 1;
        }
        false
    }
}

impl Clone for Global {
    fn clone(&self) -> (copy: Self)
        ensures
            copy@ == self@,
    {
        Global { values: self.values.clone() }
    }
}

} // verus!
