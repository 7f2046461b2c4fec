//! Finds DXBC shader containers in a module's memory, patches them and keeps
//! their checksums in step.
pub mod args;
pub mod bytes;
pub mod dxcontainer;
pub mod error;
pub mod floats;
pub mod memory;
pub mod patcher;
pub mod process;
pub mod tray;

use vstd::prelude::*;

verus! {

use crate::error::Error;

/// Rewrites the bytes of one shader container.
///
/// `spec_patch` says what an implementation does with the data it is handed
/// and the checksum stored in the container's header: the data it leaves, and
/// the flag it returns or the error it fails with. The data keeps its length,
/// as any rewrite of a slice in place does. An implementation that does not
/// define `spec_patch` promises nothing known of its result.
pub trait BinaryPatcher {
    closed spec fn spec_patch(&self, data: Seq<u8>, checksum: u128) -> (Seq<u8>, Result<bool, Error>) {
        arbitrary()
    }

    fn patch(&self, data: &mut [u8], checksum: u128) -> (r: Result<bool, Error>)
        ensures
            final(data)@.len() == old(data)@.len(),
            final(data)@ == self.spec_patch(old(data)@, checksum).0,
            r == self.spec_patch(old(data)@, checksum).1,
    ;
}

} // verus!
