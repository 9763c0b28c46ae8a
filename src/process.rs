use vstd::prelude::*;
use crate::error::{MemoryError, OpenError};
use vstd::seq_lib::lemma_seq_contains_after_push;

verus! {

/// The reply of one system call: whether it reported success, the value it
/// produced (a byte count or an address), and the last error code.
#[derive(Debug, Clone, Copy, PartialEq, Eq, Structural)]
pub struct SysReply {
    pub ok: bool,
    pub value: u64,
    pub code: u32,
}

/// What the caller must do next while opening a process.
#[derive(Debug, Clone, Copy, PartialEq, Eq, Structural)]
pub enum OpenAction {
    /// Request a handle to `pid` with query, read and write rights.
    RequestHandle { pid: u32 },
    /// List the modules of the process into room for a single module handle;
    /// the reply's value is the number of bytes the system wrote.
    ListModules,
    /// Ask the load information of the first module; the reply's value is
    /// its base address.
    QueryModule,
    /// The process is open and its primary module is loaded at `base_address`.
    Opened { base_address: u64 },
    /// Opening failed; the caller releases any handle it already holds.
    Failed { error: OpenError },
}

impl OpenAction {
    /// Whether this action waits on a system reply.
    pub open spec fn is_pending(self) -> bool {
        match self {
            OpenAction::RequestHandle { .. } | OpenAction::ListModules | OpenAction::QueryModule => true,
            _ => false,
        }
    }
}

/// The decision that follows `reply` while `pending` is outstanding.
pub open spec fn open_next_spec(pending: OpenAction, reply: SysReply) -> OpenAction {
    match pending {
        OpenAction::RequestHandle { .. } => if reply.ok {
            OpenAction::ListModules
        } else {
            OpenAction::Failed { error: OpenError::Denied { code: reply.code } }
        },
        OpenAction::ListModules => if !reply.ok {
            OpenAction::Failed { error: OpenError::BaseAddress { code: reply.code } }
        } else if reply.value == 0 {
            OpenAction::Failed { error: OpenError::NoModules }
        } else {
            OpenAction::QueryModule
        },
        _ => if reply.ok {
            OpenAction::Opened { base_address: reply.value }
        } else {
            OpenAction::Failed { error: OpenError::BaseAddress { code: reply.code } }
        },
    }
}

/// The first step of opening `pid`.
pub fn open_begin(pid: u32) -> (r: OpenAction)
    ensures
        r == (OpenAction::RequestHandle { pid }),
{
    OpenAction::RequestHandle { pid }
}

/// Decides the next step of opening a process from the reply to `pending`.
/// A refused handle is `Denied`; a failed module listing or module query is
/// `BaseAddress` with the same kind of code; an empty listing is `NoModules`.
pub fn open_next(pending: OpenAction, reply: SysReply) -> (r: OpenAction)
    requires
        pending.is_pending(),
    ensures
        r == open_next_spec(pending, reply),
{
    match pending {
        OpenAction::RequestHandle { .. } => {
            if reply.ok {
                OpenAction::ListModules
            } else {
                OpenAction::Failed { error: OpenError::Denied { code: reply.code } }
            }
        },
        OpenAction::ListModules => {
            if !reply.ok {
                OpenAction::Failed { error: OpenError::BaseAddress { code: reply.code } }
            } else if reply.value == 0 {
                OpenAction::Failed { error: OpenError::NoModules }
            } else {
                OpenAction::QueryModule
            }
        },
        _ => {
            if reply.ok {
                OpenAction::Opened { base_address: reply.value }
            } else {
                OpenAction::Failed { error: OpenError::BaseAddress { code: reply.code } }
            }
        },
    }
}

/// The process identifiers that an enumeration wrote into `buffer`, given
/// the byte count `bytes_written` that the system reported, and whether the
/// buffer was filled completely (so that more processes may exist).
pub fn pids_from_buffer(buffer: Vec<u32>, bytes_written: u32) -> (r: (Vec<u32>, bool))
    ensures
        ({
            let n = bytes_written as int / 4;
            let kept = if n < buffer@.len() { n } else { buffer@.len() as int };
            &&& r.0@ == buffer@.take(kept)
            &&& r.1 == (n == buffer@.len())
        }),
{
    let n: u32 = bytes_written / 4;
    let filled = n as usize == buffer.len();
    let mut pids = buffer;
    pids.truncate(n as usize);
    (pids, filled)
}

/// The identifiers worth trying to open, in enumeration order: the first
/// occurrence of each identifier other than the idle pseudo-process `0`.
pub open spec fn candidates_spec(pids: Seq<u32>) -> Seq<u32>
    decreases pids.len(),
{
    if pids.len() == 0 {
        Seq::empty()
    } else {
        let before = candidates_spec(pids.drop_last());
        let p = pids.last();
        if p == 0 || before.contains(p) {
            before
        } else {
            before.push(p)
        }
    }
}

/// No two entries of `s` are equal.
pub open spec fn all_distinct(s: Seq<u32>) -> bool {
    forall|i: int, j: int| 0 <= i < j < s.len() ==> s[i] != s[j]
}

/// Filters an enumeration down to the identifiers that opening is tried on.
pub fn readable_candidates(pids: &[u32]) -> (r: Vec<u32>)
    ensures
        r@ == candidates_spec(pids@),
{
    let mut r: Vec<u32> = Vec::new();
    let mut i: usize = 0;
    while i < pids.len()
        invariant
            i <= pids@.len(),
            r@ == candidates_spec(pids@.take(i as int)),
        decreases pids@.len() - i,
    {
        let p = pids[i];
        let mut seen = false;
        let mut j: usize = 0;
        while j < r.len()
            invariant
                j <= r@.len(),
                seen == r@.take(j as int).contains(p),
            decreases r@.len() - j,
        {
            assert(r@.take(j + 1) =~= r@.take(j as int).push(r@[j as int]));
            proof {
                lemma_seq_contains_after_push(r@.take(j as int), r@[j as int], p);
            }
            if r[j] == p {
                seen = true;
            }
            j = j + 1;
        }
        assert(r@.take(r@.len() as int) =~= r@);
        assert(pids@.take(i + 1).drop_last() =~= pids@.take(i as int));
        if p != 0 && !seen {
            r.push(p);
        }
        i = i + 1;
    }
    assert(pids@.take(pids@.len() as int) =~= pids@);
    r
}

/// An enumeration filtered for opening never holds the idle pseudo-process
/// and never holds the same identifier twice, and it keeps every other
/// identifier that the enumeration reported.
pub proof fn lemma_candidates_distinct(pids: Seq<u32>)
    ensures
        !candidates_spec(pids).contains(0),
        all_distinct(candidates_spec(pids)),
        forall|p: u32| pids.contains(p) && p != 0 <==> #[trigger] candidates_spec(pids).contains(p),
    decreases pids.len(),
{
    if pids.len() > 0 {
        let rest = pids.drop_last();
        lemma_candidates_distinct(rest);
        let before = candidates_spec(rest);
        let p = pids.last();
        assert(pids =~= rest.push(p));
        assert forall|q: u32| pids.contains(q) && q != 0 <==> #[trigger] candidates_spec(pids).contains(q) by {
            lemma_seq_contains_after_push(rest, p, q);
            lemma_seq_contains_after_push(before, p, q);
        }
        if !(p == 0 || before.contains(p)) {
            let after = before.push(p);
            assert forall|i: int, j: int| 0 <= i < j < after.len() implies after[i] != after[j] by {
                if j == before.len() {
                    assert(before[i] == after[i]);
                }
            }
        }
    }
}

/// The outcome of one read or write of `requested` bytes: the system's
/// success flag, the byte count it reported moving, and its last error code.
/// A failed call is an address error with that code; a call that moved fewer
/// bytes than asked for is a partial transfer, never data that was not read.
pub fn transfer_outcome(ok: bool, transferred: usize, requested: usize, code: u32) -> (r: Result<
    (),
    MemoryError,
>)
    ensures
        !ok ==> r == Err::<(), MemoryError>(MemoryError::Address { code }),
        ok && transferred == requested ==> r == Ok::<(), MemoryError>(()),
        ok && transferred != requested ==> r == Err::<(), MemoryError>(
            MemoryError::Partial { transferred, requested },
        ),
{
    if !ok {
        Err(MemoryError::Address { code })
    } else if transferred != requested {
        Err(MemoryError::Partial { transferred, requested })
    } else {
        Ok(())
    }
}

/// The image path that a name query wrote into `buffer`, given the number of
/// characters `written` that it reported. A query that wrote nothing failed,
/// which cannot happen on a handle that was opened with query rights.
pub fn image_name(buffer: Vec<u16>, written: u32, code: u32) -> (r: Result<Vec<u16>, MemoryError>)
    ensures
        written == 0 ==> r == Err::<Vec<u16>, MemoryError>(MemoryError::Environment { code }),
        written != 0 ==> r is Ok && r->Ok_0@ == buffer@.take(
            if written < buffer@.len() { written as int } else { buffer@.len() as int },
        ),
{
    if written == 0 {
        Err(MemoryError::Environment { code })
    } else {
        let mut name = buffer;
        name.truncate(written as usize);
        Ok(name)
    }
}

/// `name` ends with `suffix`.
pub open spec fn has_suffix(name: Seq<u16>, suffix: Seq<u16>) -> bool {
    suffix.len() <= name.len() && name.subrange(name.len() - suffix.len(), name.len() as int)
        == suffix
}

/// Whether the image path `name` ends with `suffix`, unit for unit.
pub fn name_ends_with(name: &[u16], suffix: &[u16]) -> (r: bool)
    ensures
        r == has_suffix(name@, suffix@),
{
    if suffix.len() > name.len() {
        return false;
    }
    let offset = name.len() - suffix.len();
    assert(name@.len() <= usize::MAX);
    let mut i: usize = 0;
    while i < suffix.len()
        invariant
            offset == name@.len() - suffix@.len(),
            suffix@.len() <= name@.len() <= usize::MAX,
            i <= suffix@.len(),
            forall|j: int| 0 <= j < i ==> name@[offset + j] == suffix@[j],
        decreases suffix@.len() - i,
    {
        if name[offset + i] != suffix[i] {
            assert(name@.subrange(offset as int, name@.len() as int)[i as int] != suffix@[i as int]);
            return false;
        }
        i = i + 1;
    }
    assert(name@.subrange(offset as int, name@.len() as int) =~= suffix@);
    true
}

/// The position of the first image path in `names` that ends with `suffix`,
/// or `None` when no path does.
pub fn find_by_suffix(names: &Vec<Vec<u16>>, suffix: &[u16]) -> (r: Option<usize>)
    ensures
        r is None ==> forall|k: int| 0 <= k < names@.len() ==> !has_suffix(#[trigger] names@[k]@, suffix@),
        r is Some ==> ({
            let k = r->Some_0 as int;
            &&& 0 <= k < names@.len()
            &&& has_suffix(names@[k]@, suffix@)
            &&& forall|m: int| 0 <= m < k ==> !has_suffix(#[trigger] names@[m]@, suffix@)
        }),
{
    let mut k: usize = 0;
    while k < names.len()
        invariant
            k <= names@.len(),
            forall|m: int| 0 <= m < k ==> !has_suffix(#[trigger] names@[m]@, suffix@),
        decreases names@.len() - k,
    {
        if name_ends_with(names[k].as_slice(), suffix) {
            return Some(k);
        }
        k = k + 1;
    }
    None
}

} // verus!
