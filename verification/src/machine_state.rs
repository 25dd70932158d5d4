//! What a machine remembers between runs.
use crate::pairs::{has_distinct_keys, keys_distinct};
use vstd::prelude::*;

verus! {

/// No two entries of a port table have the same name: the table is a map.
pub open spec fn names_distinct(ports: Seq<(Seq<char>, i32)>) -> bool {
    forall|i: int, j: int|
        0 <= i < j < ports.len() ==> (#[trigger] ports[i]).0 != (#[trigger] ports[j]).0
}

/// The durable record of one working directory. Both tables are maps, kept as vectors
/// of pairs: in a well-formed state no key stands twice.
#[derive(Debug, PartialEq, Clone)]
pub struct MachineState {
    /// Reserved for the identities of containers.
    pub containers: Vec<(String, String)>,
    /// The port that each placeholder name stands for.
    pub ports: Vec<(String, i32)>,
}

impl MachineState {
    /// Both tables are maps: no container key and no port name stands twice.
    pub open spec fn wf(&self) -> bool {
        &&& keys_distinct(self.containers.deep_view())
        &&& names_distinct(self.ports.deep_view())
    }

    /// Tests whether the state is well formed.
    pub fn is_well_formed(&self) -> (r: bool)
        ensures
            r == self.wf(),
    {
        if !has_distinct_keys(&self.containers) {
            return false;
        }
        let mut j: usize = 0;
        while j < self.ports.len()
            invariant
                j <= self.ports.len(),
                forall|a: int, b: int|
                    0 <= a < b < j ==> (#[trigger] self.ports.deep_view()[a]).0 != (
                    #[trigger] self.ports.deep_view()[b]).0,
            decreases self.ports.len() - j,
        {
            let mut i: usize = 0;
            while i < j
                invariant
                    i <= j < self.ports.len(),
                    forall|a: int| 0 <= a < i ==> (#[trigger] self.ports.deep_view()[a]).0
                        != self.ports.deep_view()[j as int].0,
                decreases j - i,
            {
                if self.ports[i].0 == self.ports[j].0 {
                    assert(self.ports.deep_view()[i as int].0
                        == self.ports.deep_view()[j as int].0);
                    return false;
                }
                i += 1;
            }
            j += 1;
        }
        true
    }

    /// The state of a directory that has none yet: no container and no port.
    pub fn empty() -> (state: MachineState)
        ensures
            state.containers@.len() == 0,
            state.ports@.len() == 0,
            state.wf(),
    {
        MachineState { containers: Vec::new(), ports: Vec::new() }
    }

    /// Prepares the state for a run: in clean mode every port is forgotten, so that all
    /// are assigned anew; the containers stay. Without clean mode nothing changes.
    pub fn begin_run(&mut self, clean_mode: bool)
        ensures
            final(self).containers == old(self).containers,
            clean_mode ==> final(self).ports@.len() == 0,
            !clean_mode ==> final(self).ports == old(self).ports,
            old(self).wf() ==> final(self).wf(),
    {
        if clean_mode {
            self.ports = Vec::new();
        }
    }
}

} // verus!
