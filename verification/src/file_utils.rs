//! The decision half of the text-file heuristic.  Reading the leading chunk
//! of a file is I/O and stays with the caller; judging the bytes is pure.

use vstd::prelude::*;

verus! {

pub struct FileUtils;

impl FileUtils {
    /// A leading chunk holding a null byte marks the file as binary.
    pub fn chunk_has_null(chunk: &Vec<u8>) -> (r: bool)
        ensures
            r == chunk@.contains(0u8),
    {
        let mut i: usize = 0;
        while i < chunk.len()
            invariant
                0 <= i <= chunk@.len(),
                forall|j: int| 0 <= j < i ==> chunk@[j] != 0u8,
            decreases chunk.len() - i,
        {
            if chunk[i] == 0u8 {
                return true;
            }
            i += 1;
        }
        false
    }
}

} // verus!
