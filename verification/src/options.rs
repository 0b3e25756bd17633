use vstd::prelude::*;

use crate::bytes::copy_bytes;
use crate::paths::{join_path, join_spec};

verus! {

/// The run's configuration: whether to descend into subdirectories,
/// the keep-priority extensions in order, the optional move
/// destination, and the directory under scrutiny.
pub struct Options {
    pub recursive: bool,
    pub keep: Vec<Vec<u8>>,
    pub move_to: Option<Vec<u8>>,
    pub in_dir: Vec<u8>,
}

impl Options {
    /// The configuration for a subdirectory visit: both the input
    /// directory and the move destination (when one is configured)
    /// gain the subdirectory name, so a recursive run recreates the
    /// relative structure under the destination; everything else is
    /// carried over unchanged.
    pub fn clone_with_subdir(&self, subdir: &Vec<u8>) -> (r: Options)
        ensures
            r.recursive == self.recursive,
            r.keep@.len() == self.keep@.len(),
            forall|t: int| 0 <= t < self.keep@.len() ==> (#[trigger] r.keep@[t])@ == self.keep@[t]@,
            r.in_dir@ == join_spec(self.in_dir@, subdir@),
            (r.move_to is Some) == (self.move_to is Some),
            self.move_to matches Some(m) ==> r.move_to matches Some(rm) && rm@ == join_spec(
                m@,
                subdir@,
            ),
    {
        let mut keep2: Vec<Vec<u8>> = Vec::new();
        let mut i: usize = 0;
        while i < self.keep.len()
            invariant
                i <= self.keep@.len(),
                keep2@.len() == i,
                forall|t: int| 0 <= t < i ==> (#[trigger] keep2@[t])@ == self.keep@[t]@,
            decreases self.keep@.len() - i,
        {
            keep2.push(copy_bytes(&self.keep[i]));
            i += 1;
        }
        let move2: Option<Vec<u8>> = match &self.move_to {
            Some(m) => Some(join_path(m, subdir)),
            None => None,
        };
        Options {
            recursive: self.recursive,
            keep: keep2,
            move_to: move2,
            in_dir: join_path(&self.in_dir, subdir),
        }
    }
}

} // verus!
