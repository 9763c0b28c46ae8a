//! Inspection and mutation of another process's memory: the decisions and
//! encodings behind opening a process, chasing pointer chains through its
//! address space and transferring wide-character text, proved correct.
//! The operating-system calls themselves are made by the caller.

mod bytes;
mod chase;
mod error;
mod process;

pub use bytes::{check_text_len, encode_windows_string, read_ptr, read_windows_string};
pub use chase::{ChaseStep, PointerChase};
pub use error::{MemoryError, OpenError};
pub use process::{
    find_by_suffix, image_name, name_ends_with, open_begin, open_next, pids_from_buffer, readable_candidates, transfer_outcome,
    OpenAction, SysReply,
};
