//! Little-endian byte encoding of element values and single-bit access within bytes.

use vstd::prelude::*;
use vstd::arithmetic::div_mod::{lemma_div_denominator, lemma_mod_breakdown};

verus! {

/// `256^k`.
pub open spec fn byte_scale(k: nat) -> nat
    decreases k,
{
    if k == 0 {
        1
    } else {
        256 * byte_scale((k - 1) as nat)
    }
}

/// Little-endian value of the `w` bytes of `bytes` starting at `off`.
pub open spec fn le_value(bytes: Seq<u8>, off: int, w: nat) -> nat
    decreases w,
{
    if w == 0 {
        0
    } else {
        bytes[off] as nat + 256 * le_value(bytes, off + 1, (w - 1) as nat)
    }
}

/// Byte `k` of the little-endian encoding of `v`.
pub open spec fn le_byte(v: nat, k: nat) -> u8 {
    ((v / byte_scale(k)) % 256) as u8
}

/// `bytes` with the `w` bytes at `off` replaced by the little-endian encoding of `v`
/// (the low `w` bytes of `v`).
pub open spec fn le_write(bytes: Seq<u8>, off: int, w: nat, v: nat) -> Seq<u8> {
    Seq::new(
        bytes.len(),
        |k: int|
            if off <= k < off + w {
                le_byte(v, (k - off) as nat)
            } else {
                bytes[k]
            },
    )
}

/// Bit `j` (0 = least significant) of byte `b`.
pub open spec fn bit_of(b: u8, j: nat) -> bool {
    (b >> (j as u8)) & 1u8 == 1u8
}

/// `b` with bit `j` set to `value`.
pub open spec fn with_bit(b: u8, j: nat, value: bool) -> u8 {
    if value {
        b | (1u8 << (j as u8))
    } else {
        b & !(1u8 << (j as u8))
    }
}

/// `256^k` for the element widths in bytes.
pub proof fn lemma_byte_scale_values()
    ensures
        byte_scale(0) == 1,
        byte_scale(1) == 256,
        byte_scale(2) == 0x1_0000,
        byte_scale(3) == 0x100_0000,
        byte_scale(4) == 0x1_0000_0000,
        byte_scale(5) == 0x100_0000_0000,
        byte_scale(6) == 0x1_0000_0000_0000,
        byte_scale(7) == 0x100_0000_0000_0000,
        byte_scale(8) == 0x1_0000_0000_0000_0000,
        byte_scale(16) == 0x1_0000_0000_0000_0000_0000_0000_0000_0000,
{
    reveal_with_fuel(byte_scale, 17);
}

/// `256^k` is positive.
pub proof fn lemma_byte_scale_pos(k: nat)
    ensures
        byte_scale(k) >= 1,
    decreases k,
{
    if k > 0 {
        lemma_byte_scale_pos((k - 1) as nat);
    }
}

/// `256^k` grows with `k`.
pub proof fn lemma_byte_scale_mono(a: nat, b: nat)
    requires
        a <= b,
    ensures
        byte_scale(a) <= byte_scale(b),
    decreases b,
{
    if a < b {
        lemma_byte_scale_mono(a, (b - 1) as nat);
        lemma_byte_scale_pos((b - 1) as nat);
    }
}

/// A `w`-byte little-endian value is below `256^w`.
pub proof fn lemma_le_value_bound(bytes: Seq<u8>, off: int, w: nat)
    ensures
        le_value(bytes, off, w) < byte_scale(w),
    decreases w,
{
    if w > 0 {
        lemma_le_value_bound(bytes, off + 1, (w - 1) as nat);
    }
}

/// The value only depends on the bytes it covers.
pub proof fn lemma_le_value_frame(b1: Seq<u8>, b2: Seq<u8>, off: int, w: nat)
    requires
        forall|k: int| off <= k < off + w ==> b1[k] == b2[k],
    ensures
        le_value(b1, off, w) == le_value(b2, off, w),
    decreases w,
{
    if w > 0 {
        lemma_le_value_frame(b1, b2, off + 1, (w - 1) as nat);
    }
}

/// Bytes holding the little-endian encoding of `v` read back as `v mod 256^w`.
pub proof fn lemma_le_value_of_encoding(bytes: Seq<u8>, off: int, w: nat, v: nat)
    requires
        forall|k: nat| k < w ==> #[trigger] bytes[off + k] == le_byte(v, k),
    ensures
        le_value(bytes, off, w) == v % byte_scale(w),
    decreases w,
{
    if w > 0 {
        let v2 = v / 256;
        assert forall|k: nat| k < (w - 1) as nat implies #[trigger] bytes[(off + 1) + k] == le_byte(
            v2,
            k,
        ) by {
            assert(bytes[off + (k + 1) as nat] == le_byte(v, (k + 1) as nat));
            assert(off + (k + 1) as nat == (off + 1) + k);
            lemma_byte_scale_pos(k);
            lemma_div_denominator(v as int, 256, byte_scale(k) as int);
            assert(byte_scale((k + 1) as nat) == 256 * byte_scale(k));
        }
        lemma_le_value_of_encoding(bytes, off + 1, (w - 1) as nat, v2);
        assert(bytes[off + 0nat] == le_byte(v, 0));
        assert(off + 0nat == off);
        assert(byte_scale(0) == 1);
        assert(v / 1 == v);
        assert(0 <= v % 256 < 256);
        assert(le_byte(v, 0) as nat == v % 256);
        let s1 = byte_scale((w - 1) as nat);
        lemma_byte_scale_pos((w - 1) as nat);
        lemma_mod_breakdown(v as int, 256, s1 as int);
        assert(byte_scale(w) == 256 * s1);
        assert(le_value(bytes, off, w) == bytes[off] as nat + 256 * le_value(
            bytes,
            off + 1,
            (w - 1) as nat,
        ));
        assert(le_value(bytes, off + 1, (w - 1) as nat) == v2 % s1);
        assert(v % (256 * s1) == 256 * ((v / 256) % s1) + v % 256);
    }
}

/// Reading back a write gives the value truncated to the written width.
pub proof fn lemma_le_write_read(bytes: Seq<u8>, off: int, w: nat, v: nat)
    requires
        0 <= off,
        off + w <= bytes.len(),
    ensures
        le_value(le_write(bytes, off, w, v), off, w) == v % byte_scale(w),
{
    let b = le_write(bytes, off, w, v);
    assert forall|k: nat| k < w implies #[trigger] b[off + k] == le_byte(v, k) by {
        assert((off + k - off) as nat == k);
    }
    lemma_le_value_of_encoding(b, off, w, v);
}

/// A write leaves values in disjoint byte ranges unchanged.
pub proof fn lemma_le_write_other(bytes: Seq<u8>, off: int, w: nat, v: nat, off2: int, w2: nat)
    requires
        0 <= off2,
        off2 + w2 <= bytes.len(),
        off2 + w2 <= off || off + w <= off2,
    ensures
        le_value(le_write(bytes, off, w, v), off2, w2) == le_value(bytes, off2, w2),
{
    lemma_le_value_frame(le_write(bytes, off, w, v), bytes, off2, w2);
}

/// Read `w <= 8` little-endian bytes at `off`.
pub fn read_le(bytes: &Vec<u8>, off: usize, w: usize) -> (r: u64)
    requires
        w <= 8,
        off + w <= bytes.len(),
    ensures
        r == le_value(bytes@, off as int, w as nat),
{
    let mut acc: u64 = 0;
    let mut k: usize = w;
    proof {
        lemma_byte_scale_values();
    }
    while k > 0
        invariant
            w <= 8,
            off + w <= bytes.len(),
            k <= w,
            acc == le_value(bytes@, off + k, (w - k) as nat),
            acc < byte_scale((w - k) as nat),
            byte_scale(7) == 0x100_0000_0000_0000,
        decreases k,
    {
        proof {
            lemma_byte_scale_mono((w - k) as nat, 7);
        }
        let b = bytes[off + k - 1];
        assert(acc * 256 + b < 0x1_0000_0000_0000_0000) by (nonlinear_arith)
            requires
                acc < 0x100_0000_0000_0000,
                b < 256,
        ;
        acc = acc * 256 + b as u64;
        k = k - 1;
        proof {
            assert(le_value(bytes@, off + k, (w - k) as nat) == bytes@[off + k] as nat + 256
                * le_value(bytes@, off + k + 1, (w - k - 1) as nat));
            lemma_le_value_bound(bytes@, off + k, (w - k) as nat);
        }
    }
    acc
}

/// Write the low `w <= 8` bytes of `v` little-endian at `off`.
pub fn write_le(bytes: &mut Vec<u8>, off: usize, w: usize, v: u64)
    requires
        w <= 8,
        off + w <= old(bytes).len(),
    ensures
        final(bytes)@ == le_write(old(bytes)@, off as int, w as nat, v as nat),
{
    let ghost start = bytes@;
    let mut x: u64 = v;
    let mut k: usize = 0;
    assert(byte_scale(0) == 1);
    while k < w
        invariant
            off + w <= start.len(),
            off + w <= bytes.len(),
            k <= w,
            bytes@.len() == start.len(),
            x == v as nat / byte_scale(k as nat),
            forall|j: int|
                0 <= j < start.len() ==> #[trigger] bytes@[j] == (if off <= j < off + k {
                    le_byte(v as nat, (j - off) as nat)
                } else {
                    start[j]
                }),
        decreases w - k,
    {
        bytes.set(off + k, (x % 256) as u8);
        proof {
            lemma_byte_scale_pos(k as nat);
            lemma_div_denominator(v as int, byte_scale(k as nat) as int, 256);
            assert(byte_scale((k + 1) as nat) == byte_scale(k as nat) * 256);
        }
        x = x / 256;
        k = k + 1;
    }
    assert(bytes@ =~= le_write(start, off as int, w as nat, v as nat));
}

/// Bit facts for single-bit reads and writes within a byte.
pub proof fn lemma_with_bit(b: u8, j: nat, value: bool, k: nat)
    requires
        j < 8,
        k < 8,
    ensures
        bit_of(with_bit(b, j, value), j) == value,
        k != j ==> bit_of(with_bit(b, j, value), k) == bit_of(b, k),
{
    let jj = j as u8;
    let kk = k as u8;
    assert(((b | (1u8 << jj)) >> jj) & 1u8 == 1u8) by (bit_vector)
        requires
            jj < 8,
    ;
    assert(((b & !(1u8 << jj)) >> jj) & 1u8 != 1u8) by (bit_vector)
        requires
            jj < 8,
    ;
    assert(kk != jj ==> ((b | (1u8 << jj)) >> kk) & 1u8 == (b >> kk) & 1u8) by (bit_vector)
        requires
            jj < 8,
            kk < 8,
    ;
    assert(kk != jj ==> ((b & !(1u8 << jj)) >> kk) & 1u8 == (b >> kk) & 1u8) by (bit_vector)
        requires
            jj < 8,
            kk < 8,
    ;
}

} // verus!
