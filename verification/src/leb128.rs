//! Unsigned LEB128 integers, as the column header and the row format write
//! their counts and lengths: seven bits per byte, least significant group
//! first, the high bit set on every byte but the last.

use vstd::prelude::*;

verus! {

/// What stands at a position of a byte sequence, read as an unsigned LEB128
/// integer of at most 64 bits.
#[derive(Clone, Copy, Debug, PartialEq, Eq, Structural)]
pub enum Leb128 {
    /// A whole integer, and the number of bytes that encode it.
    Value { value: u64, len: usize },
    /// The sequence ends before the integer does.
    Incomplete,
    /// The integer does not fit 64 bits.
    Overflow,
}

/// The weight of the `k`-th group of seven bits: 128 to the power `k`.
pub open spec fn weight(k: nat) -> nat
    decreases k,
{
    if k == 0 {
        1
    } else {
        128 * weight((k - 1) as nat)
    }
}

/// Reads on from the `k`-th byte of the integer that starts at `pos`, the
/// groups before it adding up to `acc`.
pub open spec fn leb128_from(bytes: Seq<u8>, pos: int, k: nat, acc: nat) -> Leb128
    decreases 10 - k,
{
    if k >= 10 {
        Leb128::Overflow
    } else if pos + k >= bytes.len() {
        Leb128::Incomplete
    } else {
        let byte = bytes[pos + k];
        let payload = (byte % 128) as nat;
        if k == 9 && (payload > 1 || byte >= 128) {
            Leb128::Overflow
        } else if byte < 128 {
            Leb128::Value { value: (acc + payload * weight(k)) as u64, len: (k + 1) as usize }
        } else {
            leb128_from(bytes, pos, k + 1, acc + payload * weight(k))
        }
    }
}

/// The integer that starts at `pos`.
pub open spec fn leb128(bytes: Seq<u8>, pos: int) -> Leb128 {
    leb128_from(bytes, pos, 0, 0)
}

/// The weights of the ten groups that a 64-bit integer can take.
pub proof fn lemma_weights()
    ensures
        weight(0) == 1,
        weight(1) == 0x80,
        weight(2) == 0x4000,
        weight(3) == 0x20_0000,
        weight(4) == 0x1000_0000,
        weight(5) == 0x8_0000_0000,
        weight(6) == 0x400_0000_0000,
        weight(7) == 0x2_0000_0000_0000,
        weight(8) == 0x100_0000_0000_0000,
        weight(9) == 0x8000_0000_0000_0000,
{
    reveal_with_fuel(weight, 11);
}

/// A whole integer lies inside the sequence and takes one to ten bytes.
pub proof fn lemma_leb128_bounds(bytes: Seq<u8>, pos: int, k: nat, acc: nat)
    requires
        0 <= pos,
    ensures
        leb128_from(bytes, pos, k, acc) matches Leb128::Value { len, .. } ==> k < len <= 10 && pos
            + len <= bytes.len(),
    decreases 10 - k,
{
    if k < 10 && pos + k < bytes.len() && bytes[pos + k] >= 128 && !(k == 9) {
        lemma_leb128_bounds(bytes, pos, k + 1, acc + ((bytes[pos + k] % 128) as nat) * weight(k));
    }
}

/// Reading a prefix of a sequence gives the same as reading the whole
/// sequence, unless the prefix is too short to tell.
pub proof fn lemma_leb128_prefix(bytes: Seq<u8>, n: int, pos: int, k: nat, acc: nat)
    requires
        0 <= pos,
        0 <= n <= bytes.len(),
    ensures
        leb128_from(bytes.take(n), pos, k, acc) != Leb128::Incomplete ==> leb128_from(
            bytes.take(n),
            pos,
            k,
            acc,
        ) == leb128_from(bytes, pos, k, acc),
        leb128_from(bytes, pos, k, acc) matches Leb128::Value { len, .. } ==> (pos + len <= n
            ==> leb128_from(bytes.take(n), pos, k, acc) == leb128_from(bytes, pos, k, acc)),
    decreases 10 - k,
{
    let short = bytes.take(n);
    if k < 10 && pos + k < bytes.len() {
        let byte = bytes[pos + k];
        let payload = (byte % 128) as nat;
        if pos + k < n {
            assert(short[pos + k] == byte);
        }
        if !(k == 9 && (payload > 1 || byte >= 128)) && byte >= 128 {
            lemma_leb128_prefix(bytes, n, pos, k + 1, acc + payload * weight(k));
            lemma_leb128_bounds(bytes, pos, k + 1, acc + payload * weight(k));
        }
    }
}

/// Reads the unsigned LEB128 integer that starts at `pos`.
pub fn read_leb128(bytes: &[u8], pos: usize) -> (r: Leb128)
    ensures
        r == leb128(bytes@, pos as int),
        r matches Leb128::Value { len, .. } ==> 1 <= len <= 10 && pos + len <= bytes@.len(),
{
    if pos > bytes.len() {
        return Leb128::Incomplete;
    }
    let mut k: usize = 0;
    let mut acc: u64 = 0;
    let mut unit: u64 = 1;
    proof {
        lemma_weights();
        lemma_leb128_bounds(bytes@, pos as int, 0, 0);
    }
    while k < 10
        invariant
            k <= 10,
            pos <= bytes@.len(),
            unit == weight(k as nat) || k == 10,
            acc < weight(k as nat) || k == 10,
            leb128_from(bytes@, pos as int, k as nat, acc as nat) == leb128(bytes@, pos as int),
            leb128(bytes@, pos as int) matches Leb128::Value { len, .. } ==> 1 <= len <= 10 && pos
                + len <= bytes@.len(),
        decreases 10 - k,
    {
        if k >= bytes.len() - pos {
            return Leb128::Incomplete;
        }
        let byte: u8 = bytes[pos + k];
        let payload: u64 = (byte % 128) as u64;
        if k == 9 && (payload > 1 || byte >= 128) {
            return Leb128::Overflow;
        }
        proof {
            lemma_weights();
            reveal_with_fuel(weight, 2);
            assert(payload * unit <= 127 * unit) by (nonlinear_arith)
                requires
                    payload <= 127,
            ;
            if k == 9 {
                assert(payload * unit <= unit) by (nonlinear_arith)
                    requires
                        payload <= 1,
                ;
            }
            assert(weight((k + 1) as nat) == 128 * weight(k as nat));
        }
        acc = acc + payload * unit;
        if byte < 128 {
            return Leb128::Value { value: acc, len: k + 1 };
        }
        if k < 9 {
            unit = unit * 128;
        }
        k = k + 1;
    }
    Leb128::Overflow
}

} // verus!
