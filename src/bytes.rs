use vstd::prelude::*;
use crate::error::MemoryError;

verus! {

/// The unsigned number that `b` spells in little-endian order:
/// `b[0] + 256 * b[1] + 256^2 * b[2] + ...`.
pub open spec fn le_value(b: Seq<u8>) -> nat
    decreases b.len(),
{
    if b.len() == 0 {
        0
    } else {
        b[0] as nat + 256 * le_value(b.drop_first())
    }
}

/// `256^n`.
pub open spec fn pow256(n: nat) -> nat
    decreases n,
{
    if n == 0 {
        1
    } else {
        256 * pow256((n - 1) as nat)
    }
}

/// Powers of 256 grow with the exponent.
proof fn lemma_pow256_monotone(m: nat, n: nat)
    requires
        m <= n,
    ensures
        pow256(m) <= pow256(n),
    decreases n,
{
    if m < n {
        lemma_pow256_monotone(m, (n - 1) as nat);
    }
}

/// A little-endian number of `n` bytes is below `256^n`.
pub proof fn lemma_le_value_bound(b: Seq<u8>)
    ensures
        le_value(b) < pow256(b.len()),
    decreases b.len(),
{
    if b.len() > 0 {
        lemma_le_value_bound(b.drop_first());
        let rest = le_value(b.drop_first());
        let p = pow256((b.len() - 1) as nat);
        let d = b[0] as nat;
        assert(d + 256 * rest < 256 * p) by (nonlinear_arith)
            requires
                rest < p,
                d < 256,
        ;
    }
}

/// Decodes a pointer-sized value stored in little-endian byte order.
pub fn read_ptr(bytes: &[u8]) -> (r: u64)
    requires
        bytes@.len() == 8,
    ensures
        r as nat == le_value(bytes@),
{
    let mut x: u64 = 0;
    let mut i: usize = 8;
    while i > 0
        invariant
            bytes@.len() == 8,
            i <= 8,
            x as nat == le_value(bytes@.subrange(i as int, 8)),
        decreases i,
    {
        i = i - 1;
        let ghost tail = bytes@.subrange(i as int, 8);
        assert(tail.drop_first() =~= bytes@.subrange(i + 1, 8));
        proof {
            lemma_le_value_bound(tail);
        }
        proof {
            lemma_pow256_monotone(tail.len(), 8);
            reveal_with_fuel(pow256, 9);
        }
        x = x * 256 + bytes[i] as u64;
    }
    assert(bytes@.subrange(0, 8) =~= bytes@);
    x
}

/// The 16-bit code units that `b` holds, two bytes each in little-endian
/// order; a trailing odd byte belongs to no unit.
pub open spec fn wide_units(b: Seq<u8>) -> Seq<u16> {
    Seq::new(b.len() / 2, |i: int| (b[2 * i] as int + 256 * (b[2 * i + 1] as int)) as u16)
}

/// `t` is the text that `units` hold: the units before the first zero unit,
/// or all of them when none is zero.
pub open spec fn is_text_of(t: Seq<u16>, units: Seq<u16>) -> bool {
    &&& t.len() <= units.len()
    &&& t == units.take(t.len() as int)
    &&& forall|j: int| 0 <= j < t.len() ==> t[j] != 0
    &&& t.len() < units.len() ==> units[t.len() as int] == 0
}

/// The bytes that store the null-terminated wide text `t`: each unit as two
/// little-endian bytes, then a zero unit.
pub open spec fn encoded(t: Seq<u16>) -> Seq<u8> {
    Seq::new(
        2 * t.len() + 2,
        |i: int|
            if i / 2 < t.len() {
                if i % 2 == 0 {
                    (t[i / 2] % 256) as u8
                } else {
                    (t[i / 2] / 256) as u8
                }
            } else {
                0u8
            },
    )
}

/// Checks a request to read wide text of `max_bytes` bytes before anything
/// is read: an odd byte count cannot hold whole 16-bit units.
pub fn check_text_len(max_bytes: usize) -> (r: Result<(), MemoryError>)
    ensures
        max_bytes % 2 == 1 ==> r == Err::<(), MemoryError>(MemoryError::Encoding),
        max_bytes % 2 == 0 ==> r == Ok::<(), MemoryError>(()),
{
    if max_bytes % 2 == 1 {
        Err(MemoryError::Encoding)
    } else {
        Ok(())
    }
}

/// Decodes wide text read from a target: the 16-bit units that `bytes` hold,
/// up to and excluding the first zero unit, or all of them when no zero unit
/// is present. An odd byte count is an encoding error.
pub fn read_windows_string(bytes: &[u8]) -> (r: Result<Vec<u16>, MemoryError>)
    ensures
        bytes@.len() % 2 == 1 <==> r == Err::<Vec<u16>, MemoryError>(MemoryError::Encoding),
        bytes@.len() % 2 == 0 ==> r is Ok && is_text_of(r->Ok_0@, wide_units(bytes@)),
{
    if bytes.len() % 2 == 1 {
        return Err(MemoryError::Encoding);
    }
    let ghost units = wide_units(bytes@);
    let mut text: Vec<u16> = Vec::new();
    let mut i: usize = 0;
    while i < bytes.len() / 2
        invariant
            bytes@.len() % 2 == 0,
            units == wide_units(bytes@),
            i <= units.len(),
            text@ == units.take(i as int),
            forall|j: int| 0 <= j < i ==> units[j] != 0,
        ensures
            is_text_of(text@, units),
        decreases units.len() - i,
    {
        let unit: u16 = bytes[2 * i] as u16 + 256 * (bytes[2 * i + 1] as u16);
        assert(unit == units[i as int]);
        if unit == 0 {
            break;
        }
        text.push(unit);
        assert(text@ =~= units.take(i + 1));
        i = i + 1;
    }
    Ok(text)
}

/// Encodes `text` as the bytes of a null-terminated wide string, ready to be
/// written into a target: two little-endian bytes per unit, then two zeros.
pub fn encode_windows_string(text: &[u16]) -> (r: Vec<u8>)
    requires
        2 * text@.len() + 2 <= usize::MAX,
    ensures
        r@ == encoded(text@),
{
    let mut out: Vec<u8> = Vec::new();
    let mut i: usize = 0;
    while i < text.len()
        invariant
            i <= text@.len(),
            out@ == encoded(text@).take(2 * i),
            2 * text@.len() + 2 <= usize::MAX,
        decreases text@.len() - i,
    {
        let u = text[i];
        out.push((u % 256) as u8);
        out.push((u / 256) as u8);
        assert(out@ =~= encoded(text@).take(2 * i + 2));
        i = i + 1;
    }
    out.push(0);
    out.push(0);
    assert(out@ =~= encoded(text@));
    out
}

/// Text round trip: decoding the encoding of a text without zero units gives
/// back exactly that text, and the encoding is two bytes per unit plus a
/// two-byte terminator.
pub proof fn lemma_text_round_trip(t: Seq<u16>)
    requires
        forall|j: int| 0 <= j < t.len() ==> t[j] != 0,
    ensures
        encoded(t).len() == 2 * t.len() + 2,
        is_text_of(t, wide_units(encoded(t))),
{
    let b = encoded(t);
    let u = wide_units(b);
    assert forall|j: int| 0 <= j < t.len() implies u[j] == t[j] by {
        assert(b[2 * j] == (t[j] % 256) as u8);
        assert(b[2 * j + 1] == (t[j] / 256) as u8);
    }
    assert(u[t.len() as int] == 0);
    assert(t =~= u.take(t.len() as int));
}

/// Decoding is total over even buffers: where no unit is zero, the decoded
/// text is the whole buffer rather than a failure.
pub proof fn lemma_text_without_terminator(t: Seq<u16>, units: Seq<u16>)
    requires
        forall|j: int| 0 <= j < units.len() ==> units[j] != 0,
        is_text_of(t, units),
    ensures
        t == units,
{
    assert(t =~= units);
}

} // verus!
