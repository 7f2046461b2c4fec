//! The errors of the library.
use vstd::prelude::*;

verus! {

/// What can go wrong while reading, patching or writing back a module's memory.
#[derive(Debug, PartialEq, Eq)]
pub enum Error {
    /// A Win32 call failed with this error code.
    WinSafe(u32),
    /// An NT API call failed with this `NTSTATUS`.
    NtApi(i32),
    /// A memory query was asked for an address past the end of the module.
    AddressBeyondModule,
    /// Only the first number of bytes were read out of the second.
    PartialMemoryRead(usize, usize),
    /// A file system operation failed; the text describes the failure.
    FS(String),
    /// A replacement changed the length of the data it was applied to.
    ReplLenChange,
    /// No process with this executable name was found.
    ProcessNotFound(String),
    /// No module with this name was found in the process with this PID.
    ModuleNotFound(String, u32),
    /// The gamma given for patching was not greater than zero.
    NonPositiveGamma,
    /// The pattern searcher could not be built from the patterns.
    PatternBuild,
}

} // verus!
