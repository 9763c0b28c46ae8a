use vstd::prelude::*;

verus! {

/// Why a read, a write or a text transfer against a target process failed.
/// Codes are the operating system's own, kept verbatim.
#[derive(Debug, Clone, Copy, PartialEq, Eq, Structural)]
pub enum MemoryError {
    /// The system refused the rights that the operation needs.
    Capability { code: u32 },
    /// The target address is unmapped, protected or otherwise invalid.
    Address { code: u32 },
    /// The system reported success but moved fewer bytes than asked for.
    Partial { transferred: usize, requested: usize },
    /// Malformed input to a text decode, such as an odd byte count.
    Encoding,
    /// A pointer chain of depth zero was asked for.
    InvalidDepth,
    /// A query that cannot fail under normal operation failed.
    Environment { code: u32 },
}

/// Why a process could not be opened.
#[derive(Debug, Clone, Copy, PartialEq, Eq, Structural)]
pub enum OpenError {
    /// The system refused a handle with the requested rights.
    Denied { code: u32 },
    /// The handle was granted but its primary module could not be resolved.
    BaseAddress { code: u32 },
    /// The module listing succeeded but reported no module at all.
    NoModules,
}

} // verus!
