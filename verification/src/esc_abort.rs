//! Interrupting a running task with Esc. Putting the terminal into raw
//! input mode and reading stdin are the host's work; spotting the key is
//! decided here.
use vstd::prelude::*;

verus! {

/// The byte the Esc key sends.
pub const ESC: u8 = 0x1b;

/// Whether `buf` holds the Esc byte anywhere.
pub fn contains_esc(buf: &[u8]) -> (r: bool)
    ensures
        r == buf@.contains(ESC),
{
    let mut i: usize = 0;
    while i < buf.len()
        invariant
            i <= buf.len(),
            forall|j: int| 0 <= j < i ==> buf@[j] != ESC,
        decreases buf.len() - i,
    {
        if buf[i] == ESC {
            return true;
        }
        i = i + 1;
    }
    false
}

} // verus!
