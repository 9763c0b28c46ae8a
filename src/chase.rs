use vstd::prelude::*;
use crate::bytes::{le_value, read_ptr};
use crate::error::MemoryError;

verus! {

/// A pointer chain being resolved in a target process: the address whose
/// 8-byte pointer is read next, and how many dereferences remain (at least
/// one). The caller performs each read and hands the outcome to `advance`.
#[derive(Debug, Clone, Copy, PartialEq, Eq, Structural)]
pub struct PointerChase {
    address: u64,
    remaining: u8,
}

/// What follows one dereference of a pointer chain.
#[derive(Debug, Clone, Copy, PartialEq, Eq, Structural)]
pub enum ChaseStep {
    /// More dereferences remain; read at the chase's next address.
    Continue(PointerChase),
    /// The address obtained by the final dereference.
    Done(u64),
    /// A read failed; the rest of the chain is abandoned.
    Failed(MemoryError),
}

/// The pointer that 8 bytes read from the target hold.
pub open spec fn pointer_of(b: [u8; 8]) -> u64 {
    le_value(b@) as u64
}

impl PointerChase {
    /// The address read next.
    pub closed spec fn next_address(self) -> u64 {
        self.address
    }

    /// The dereferences that remain, including the next one.
    pub closed spec fn steps_left(self) -> nat {
        self.remaining as nat
    }

    pub closed spec fn wf(self) -> bool {
        self.remaining >= 1
    }

    /// The chase of `depth` dereferences starting at `start`, or
    /// `InvalidDepth` when `depth` is zero: a chain never returns its start.
    pub fn new(start: u64, depth: u8) -> (r: Result<PointerChase, MemoryError>)
        ensures
            depth == 0 <==> r == Err::<PointerChase, MemoryError>(MemoryError::InvalidDepth),
            depth != 0 ==> r == Ok::<PointerChase, MemoryError>(started(start, depth)),
            depth != 0 ==> r->Ok_0.wf() && r->Ok_0.next_address() == start
                && r->Ok_0.steps_left() == depth,
    {
        if depth == 0 {
            Err(MemoryError::InvalidDepth)
        } else {
            Ok(PointerChase { address: start, remaining: depth })
        }
    }

    /// The address whose pointer the caller reads next.
    pub fn next_read(&self) -> (r: u64)
        ensures
            r == self.next_address(),
    {
        self.address
    }

    /// Takes the outcome of reading 8 bytes at `next_address()`. A failed
    /// read ends the chase with that error; otherwise the bytes are decoded
    /// little-endian and are either the result, on the last dereference, or
    /// the next address.
    pub fn advance(self, read: Result<[u8; 8], MemoryError>) -> (r: ChaseStep)
        requires
            self.wf(),
        ensures
            r == advance_spec(self, read),
            r is Continue ==> r->Continue_0.wf(),
            read is Ok && self.steps_left() > 1 ==> r is Continue
                && r->Continue_0.next_address() == pointer_of(read->Ok_0)
                && r->Continue_0.steps_left() == self.steps_left() - 1,
    {
        match read {
            Err(e) => ChaseStep::Failed(e),
            Ok(b) => {
                let value = read_ptr(b.as_slice());
                if self.remaining == 1 {
                    ChaseStep::Done(value)
                } else {
                    ChaseStep::Continue(PointerChase { address: value, remaining: self.remaining - 1 })
                }
            },
        }
    }
}

/// One dereference of a chase, as `advance` performs it.
pub open spec fn advance_spec(c: PointerChase, read: Result<[u8; 8], MemoryError>) -> ChaseStep {
    match read {
        Err(e) => ChaseStep::Failed(e),
        Ok(b) => if c.steps_left() == 1 {
            ChaseStep::Done(pointer_of(b))
        } else {
            ChaseStep::Continue(continued(pointer_of(b), c.steps_left() - 1))
        },
    }
}

/// The chase that reads next at `address` with `steps` dereferences left.
pub closed spec fn continued(address: u64, steps: int) -> PointerChase {
    PointerChase { address, remaining: steps as u8 }
}

/// The chase of `depth` dereferences that starts at `start`.
pub closed spec fn started(start: u64, depth: u8) -> PointerChase {
    PointerChase { address: start, remaining: depth }
}

/// A chain of one dereference reads 8 bytes at its start and returns them
/// as a little-endian pointer.
pub proof fn lemma_chase_depth_one(start: u64, b: [u8; 8])
    ensures
        started(start, 1).wf(),
        started(start, 1).next_address() == start,
        advance_spec(started(start, 1), Ok(b)) == ChaseStep::Done(pointer_of(b)),
{
}

/// A chain of two dereferences applies the one-dereference rule twice: it
/// reads at its start, then at the pointer found there, and returns the
/// pointer found at that second address.
pub proof fn lemma_chase_depth_two(start: u64, b1: [u8; 8], b2: [u8; 8])
    ensures
        started(start, 2).wf(),
        started(start, 2).next_address() == start,
        ({
            let s = advance_spec(started(start, 2), Ok(b1));
            &&& s is Continue
            &&& s->Continue_0.wf()
            &&& s->Continue_0.next_address() == pointer_of(b1)
            &&& advance_spec(s->Continue_0, Ok(b2)) == ChaseStep::Done(pointer_of(b2))
        }),
{
}

/// The step reached by feeding the successful reads `reads`, in order, to
/// the chase `c`, stopping early where the chase ends.
pub open spec fn run_spec(c: PointerChase, reads: Seq<[u8; 8]>) -> ChaseStep
    decreases reads.len(),
{
    if reads.len() == 0 {
        ChaseStep::Continue(c)
    } else {
        match advance_spec(c, Ok(reads[0])) {
            ChaseStep::Continue(next) => run_spec(next, reads.drop_first()),
            other => other,
        }
    }
}

/// A chase dereferences exactly as many times as it has steps left: fed
/// fewer successful reads, it continues at the pointer that the last read
/// found (or where it stood, before any read); fed exactly that many, it
/// ends on the pointer that the last read found.
pub proof fn lemma_chase_runs_steps(c: PointerChase, reads: Seq<[u8; 8]>)
    requires
        c.wf(),
        reads.len() <= c.steps_left(),
    ensures
        reads.len() == c.steps_left() ==> run_spec(c, reads) == ChaseStep::Done(
            pointer_of(reads.last()),
        ),
        reads.len() < c.steps_left() ==> ({
            let s = run_spec(c, reads);
            &&& s is Continue
            &&& s->Continue_0.wf()
            &&& s->Continue_0.steps_left() == c.steps_left() - reads.len()
            &&& s->Continue_0.next_address() == if reads.len() == 0 {
                c.next_address()
            } else {
                pointer_of(reads.last())
            }
        }),
    decreases reads.len(),
{
    if reads.len() > 0 && c.steps_left() > 1 {
        let next = continued(pointer_of(reads[0]), c.steps_left() - 1);
        let rest = reads.drop_first();
        lemma_chase_runs_steps(next, rest);
        if rest.len() > 0 {
            assert(rest.last() == reads.last());
        }
    }
}

/// A chain of `depth` dereferences from `start`, fed `depth` successful
/// reads, ends on the pointer that its last read found.
pub proof fn lemma_chase_depth(start: u64, depth: u8, reads: Seq<[u8; 8]>)
    requires
        depth >= 1,
        reads.len() == depth,
    ensures
        run_spec(started(start, depth), reads) == ChaseStep::Done(pointer_of(reads.last())),
{
    lemma_chase_runs_steps(started(start, depth), reads);
}

} // verus!
