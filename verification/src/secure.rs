//! A storage for sensitive bytes that can be wiped with a fixed pattern.
//!
//! The wipe overwrites every byte with `0x55`, so a buffer that held a
//! password can be cleared on every exit path before it is given back to
//! the allocator.

use vstd::prelude::*;

verus! {

/// The pattern a wiped buffer is filled with.
pub const WIPE_PATTERN: u8 = 0x55;

/// A byte buffer for sensitive data; `wipe` overwrites all of it.
///
/// The wipe would best run as a release action in `Drop`, so that no
/// caller has to remember it; Verus, however, accepts a `Drop` body only
/// when it provably never unwinds, and the byte-store operation the
/// verified vector API offers carries no such guarantee. So the wipe is
/// a verified method here, and the process-facing buffers keep their
/// drop-time erasure in the unverified C-interop layer beside `main`.
pub struct Secure {
    data: Vec<u8>,
}

impl Secure {
    /// Wrap a buffer of sensitive bytes.
    pub fn new(value: Vec<u8>) -> (s: Secure)
        ensures
            s@ == value@,
    {
        Secure { data: value }
    }

    /// The bytes currently held.
    pub fn get(&self) -> (v: &Vec<u8>)
        ensures
            v@ == self@,
    {
        &self.data
    }

    /// Overwrite every byte with the fixed wipe pattern.
    pub fn wipe(&mut self)
        ensures
            final(self)@.len() == old(self)@.len(),
            forall|i: int| 0 <= i < final(self)@.len() ==> final(self)@[i] == WIPE_PATTERN,
    {
        let n = self.data.len();
        let mut i: usize = 0;
        while i < n
            invariant
                i <= n,
                self.data.len() == n,
                forall|k: int| 0 <= k < i ==> self.data@[k] == WIPE_PATTERN,
            decreases n - i,
        {
            self.data.set(i, WIPE_PATTERN);
            i += 1;
        }
    }
}

impl View for Secure {
    type V = Seq<u8>;

    closed spec fn view(&self) -> Seq<u8> {
        self.data@
    }
}

} // verus!
