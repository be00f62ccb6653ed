//! Integer multiply, divide and multiply-add helpers, including the widening forms.

use vstd::prelude::*;
use vstd::arithmetic::div_mod::lemma_fundamental_div_mod_converse_div;
use crate::arith::{
    lemma_element_step, lemma_read_frame, lemma_sew_modulus_values, lemma_slot_arith,
    lemma_value_unchanged, read_element_u64, sew_mask, sew_modulus, sign_extend, signed_of,
    src_ok, src_value, unchanged_outside, write_element_u64,
};
use crate::bytes::{byte_scale, lemma_byte_scale_values};
use crate::carry::{lemma_and_mask, lemma_wrap_mod};
use crate::load::{lemma_snapshot_bit, mask_bit, snapshot_mask, snapshot_spec};
use crate::register_file::{element, VectorRegisterFile};
use crate::state::{lemma_vl_bound, VectorState};
use crate::types::{lemma_vreg_index_bound, ExecutionError, OpSrc, VReg, Vlmul, Vsew};

verus! {

broadcast use lemma_vreg_index_bound;

/// Quotient of `x / d` rounded toward zero.
pub open spec fn div_trunc(x: int, d: int) -> int {
    let q = abs(x) / abs(d);
    if (x < 0) != (d < 0) {
        -q
    } else {
        q
    }
}

/// Remainder of `x / d` rounded toward zero; it has the sign of `x`.
pub open spec fn rem_trunc(x: int, d: int) -> int {
    if x < 0 {
        -(abs(x) % abs(d))
    } else {
        abs(x) % abs(d)
    }
}

/// `|x|`.
pub open spec fn abs(x: int) -> int {
    if x < 0 {
        -x
    } else {
        x
    }
}

/// The low SEW bits of a possibly negative number below `2^64` in magnitude, read as unsigned.
pub proof fn lemma_low_bits_signed(q: int, u: u64, mask: u64, sew: Vsew)
    requires
        -0x1_0000_0000_0000_0000 < q < 0x1_0000_0000_0000_0000,
        u as int == (if q < 0 {
            q + 0x1_0000_0000_0000_0000
        } else {
            q
        }),
        mask == sew_modulus(sew) - 1,
    ensures
        (u & mask) as int == q % (sew_modulus(sew) as int),
{
    lemma_and_mask(u, mask, sew);
    let k: int = if q < 0 {
        1
    } else {
        0
    };
    lemma_wrap_mod(q, u as int, k, sew);
}

/// Bounds of a sign-extended SEW value.
pub proof fn lemma_signed_bounds(v: nat, sew: Vsew)
    ensures
        -(sew_modulus(sew) as int) / 2 <= signed_of(v, sew) < (sew_modulus(sew) as int) / 2,
{
    lemma_sew_modulus_values(sew);
}

/// High half (upper SEW bits of the `2*SEW` product) of `signed(a) * signed(b)`.
pub fn mulh_ss(a: u64, b: u64, sew: Vsew) -> (r: u64)
    ensures
        r as int == ((signed_of(a as nat, sew) * signed_of(b as nat, sew)) / (sew_modulus(
            sew,
        ) as int)) % (sew_modulus(sew) as int),
{
    let sa = sign_extend(a, sew);
    let sb = sign_extend(b, sew);
    proof {
        lemma_signed_bounds(a as nat, sew);
        lemma_signed_bounds(b as nat, sew);
        lemma_sew_modulus_values(sew);
    }
    let ghost m: int = sew_modulus(sew) as int;
    assert(sa * sb <= (m / 2) * (m / 2) && sa * sb >= -(m / 2) * (m / 2)) by (nonlinear_arith)
        requires
            -(m / 2) <= sa < m / 2,
            -(m / 2) <= sb < m / 2,
            m >= 2,
    ;
    assert(0 <= m / 2 <= 0x8000_0000_0000_0000);
    assert((m / 2) * (m / 2) <= 0x4000_0000_0000_0000_0000_0000_0000_0000) by (nonlinear_arith)
        requires
            0 <= m / 2 <= 0x8000_0000_0000_0000,
    ;
    assert(-0x4000_0000_0000_0000_0000_0000_0000_0000 <= (sa as int) * (sb as int)
        <= 0x4000_0000_0000_0000_0000_0000_0000_0000) by (nonlinear_arith);
    let product = (sa as i128) * (sb as i128);
    let q = product >> sew.bits_width();
    proof {
        lemma_shift_floor(product, sew);
        lemma_fundamental_div_mod_converse_div(product as int, m, q as int, product - q * m);
        assert(-0x1_0000_0000_0000_0000 < q < 0x1_0000_0000_0000_0000) by (nonlinear_arith)
            requires
                q == (product as int) / m,
                -(m / 2) * (m / 2) <= product <= (m / 2) * (m / 2),
                m >= 256,
                m <= 0x1_0000_0000_0000_0000,
        {
            assert((m / 2) * (m / 2) <= (m / 2) * m);
        }
    }
    let high = #[verifier::truncate] (q as u64);
    assert(-0x1_0000_0000_0000_0000 < q < 0x1_0000_0000_0000_0000 ==> (q as u64) as int == (if q
        < 0 {
        q + 0x1_0000_0000_0000_0000
    } else {
        q as int
    })) by (bit_vector);
    let mask = sew_mask(sew);
    proof {
        lemma_low_bits_signed(q as int, high, mask, sew);
    }
    high & mask
}

/// `q = x >> SEW` is the floor of `x / 2^SEW`.
pub proof fn lemma_shift_floor(x: i128, sew: Vsew)
    ensures
        (x >> sew.bits()) * (sew_modulus(sew) as int) <= x < (x >> sew.bits()) * (sew_modulus(
            sew,
        ) as int) + sew_modulus(sew),
{
    lemma_sew_modulus_values(sew);
    match sew {
        Vsew::E8 => {
            assert((x >> 8u32) * 0x100 <= x && x < (x >> 8u32) * 0x100 + 0x100) by (bit_vector);
            assert(x >> 8u32 == x >> (8nat as u32));
        },
        Vsew::E16 => {
            assert((x >> 16u32) * 0x1_0000 <= x && x < (x >> 16u32) * 0x1_0000 + 0x1_0000)
                by (bit_vector);
            assert(x >> 16u32 == x >> (16nat as u32));
        },
        Vsew::E32 => {
            assert((x >> 32u32) * 0x1_0000_0000 <= x && x < (x >> 32u32) * 0x1_0000_0000
                + 0x1_0000_0000) by (bit_vector);
            assert(x >> 32u32 == x >> (32nat as u32));
        },
        Vsew::E64 => {
            assert((x >> 64u32) * 0x1_0000_0000_0000_0000 <= x && x < (x >> 64u32)
                * 0x1_0000_0000_0000_0000 + 0x1_0000_0000_0000_0000) by (bit_vector);
            assert(x >> 64u32 == x >> (64nat as u32));
        },
    }
}

/// `q = x >> SEW` is the floor of `x / 2^SEW` (unsigned).
pub proof fn lemma_shift_floor_unsigned(x: u128, sew: Vsew)
    ensures
        (x >> sew.bits()) * sew_modulus(sew) <= x < (x >> sew.bits()) * sew_modulus(sew)
            + sew_modulus(sew),
{
    lemma_sew_modulus_values(sew);
    match sew {
        Vsew::E8 => {
            assert((x >> 8u32) * 0x100 <= x && x < (x >> 8u32) * 0x100 + 0x100) by (bit_vector);
            assert(x >> 8u32 == x >> (8nat as u32));
        },
        Vsew::E16 => {
            assert((x >> 16u32) * 0x1_0000 <= x && x < (x >> 16u32) * 0x1_0000 + 0x1_0000)
                by (bit_vector);
            assert(x >> 16u32 == x >> (16nat as u32));
        },
        Vsew::E32 => {
            assert((x >> 32u32) * 0x1_0000_0000 <= x && x < (x >> 32u32) * 0x1_0000_0000
                + 0x1_0000_0000) by (bit_vector);
            assert(x >> 32u32 == x >> (32nat as u32));
        },
        Vsew::E64 => {
            assert((x >> 64u32) * 0x1_0000_0000_0000_0000 <= x && x < (x >> 64u32)
                * 0x1_0000_0000_0000_0000 + 0x1_0000_0000_0000_0000) by (bit_vector);
            assert(x >> 64u32 == x >> (64nat as u32));
        },
    }
}

/// High half (upper SEW bits of the `2*SEW` product) of the unsigned product of the low SEW bits
/// of `a` and `b`.
pub fn mulhu_uu(a: u64, b: u64, sew: Vsew) -> (r: u64)
    ensures
        r as int == ((a as nat % sew_modulus(sew)) * (b as nat % sew_modulus(sew))) / sew_modulus(
            sew,
        ),
{
    proof {
        lemma_sew_modulus_values(sew);
    }
    let ghost m: int = sew_modulus(sew) as int;
    let mask = sew_mask(sew);
    let ua = a & mask;
    let ub = b & mask;
    proof {
        lemma_and_mask(a, mask, sew);
        lemma_and_mask(b, mask, sew);
    }
    assert((ua as int) * (ub as int) < 0x1_0000_0000_0000_0000_0000_0000_0000_0000)
        by (nonlinear_arith);
    let product = (ua as u128) * (ub as u128);
    let q = product >> sew.bits_width();
    proof {
        lemma_shift_floor_unsigned(product, sew);
        lemma_fundamental_div_mod_converse_div(product as int, m, q as int, product - q * m);
        assert(q < m) by (nonlinear_arith)
            requires
                q * m <= product,
                product == (ua as int) * (ub as int),
                0 <= ua < m,
                0 <= ub < m,
                m > 0,
        {
            if q >= m {
                assert(q * m >= m * m);
                assert((ua as int) * (ub as int) < m * m);
            }
        }
    }
    let high = #[verifier::truncate] (q as u64);
    proof {
        lemma_and_mask(high, mask, sew);
    }
    high & mask
}

/// High half of `signed(a) * unsigned(b)`, with `a` read as a signed and `b` as an unsigned SEW
/// value.
pub fn mulhsu_su(a: u64, b: u64, sew: Vsew) -> (r: u64)
    ensures
        r as int == ((signed_of(a as nat, sew) * (b as nat % sew_modulus(sew)) as int) / (
        sew_modulus(sew) as int)) % (sew_modulus(sew) as int),
{
    proof {
        lemma_sew_modulus_values(sew);
        lemma_signed_bounds(a as nat, sew);
    }
    let ghost m: int = sew_modulus(sew) as int;
    let mask = sew_mask(sew);
    let sa = sign_extend(a, sew);
    let ub = b & mask;
    proof {
        lemma_and_mask(b, mask, sew);
    }
    assert(-0x8000_0000_0000_0000_0000_0000_0000_0000 < (sa as int) * (ub as int)
        < 0x8000_0000_0000_0000_0000_0000_0000_0000) by (nonlinear_arith);
    let product = (sa as i128) * (ub as i128);
    let q = product >> sew.bits_width();
    proof {
        lemma_shift_floor(product, sew);
        lemma_fundamental_div_mod_converse_div(product as int, m, q as int, product - q * m);
        assert(-m <= q < m) by (nonlinear_arith)
            requires
                q * m <= product < q * m + m,
                product == (sa as int) * (ub as int),
                -(m / 2) <= sa < m / 2,
                0 <= ub < m,
                m >= 2,
        {
            assert((sa as int) * (ub as int) < (m / 2) * m);
            assert((sa as int) * (ub as int) >= -(m / 2) * m);
        }
    }
    let high = #[verifier::truncate] (q as u64);
    assert(-0x1_0000_0000_0000_0000 < q < 0x1_0000_0000_0000_0000 ==> (q as u64) as int == (if q
        < 0 {
        q + 0x1_0000_0000_0000_0000
    } else {
        q as int
    })) by (bit_vector);
    proof {
        lemma_low_bits_signed(q as int, high, mask, sew);
    }
    high & mask
}

/// The truncating quotient of two `i64` values fits in an `i64` unless it is `MIN / -1`, and the
/// remainder is smaller than the divisor.
pub proof fn lemma_quotient_fits(x: int, d: int)
    requires
        -0x8000_0000_0000_0000 <= x < 0x8000_0000_0000_0000,
        -0x8000_0000_0000_0000 <= d < 0x8000_0000_0000_0000,
        d != 0,
    ensures
        !(x == -0x8000_0000_0000_0000 && d == -1) ==> -0x8000_0000_0000_0000 <= div_trunc(x, d)
            < 0x8000_0000_0000_0000,
        abs(x) % abs(d) < abs(d),
        abs(x) % abs(d) <= abs(x),
        0 <= abs(x) % abs(d),
{
    let ax = abs(x);
    let ad = abs(d);
    assert(ax / ad <= ax) by {
        vstd::arithmetic::div_mod::lemma_div_is_ordered_by_denominator(ax, 1, ad);
    }
    if ad >= 2 {
        vstd::arithmetic::div_mod::lemma_div_is_ordered_by_denominator(ax, 2, ad);
    }
    assert(0 <= ax % ad < ad);
    vstd::arithmetic::div_mod::lemma_mod_decreases(ax as nat, ad as nat);
}

/// Signed SEW-wide division rounding toward zero: all ones for a zero divisor, and the
/// overflowing `MIN / -1` gives `MIN`.
#[verifier::spinoff_prover]
pub fn sdiv(a: u64, b: u64, sew: Vsew) -> (r: u64)
    ensures
        signed_of(b as nat, sew) == 0 ==> r == sew_modulus(sew) - 1,
        signed_of(b as nat, sew) != 0 ==> r as int == div_trunc(
            signed_of(a as nat, sew),
            signed_of(b as nat, sew),
        ) % (sew_modulus(sew) as int),
{
    let sa = sign_extend(a, sew);
    let sb = sign_extend(b, sew);
    if sb == 0 {
        return sew_mask(sew);
    }
    proof {
        lemma_quotient_fits(sa as int, sb as int);
    }
    let q: i64 = match sa.checked_div(sb) {
        Some(q) => q,
        None => i64::MIN,
    };
    proof {
        lemma_sew_modulus_values(sew);
        if sa == i64::MIN && sb == -1 {
            assert(abs(sa as int) == 0x8000_0000_0000_0000 && abs(sb as int) == 1);
            assert(0x8000_0000_0000_0000int / 1int == 0x8000_0000_0000_0000);
            assert(div_trunc(sa as int, sb as int) == 0x8000_0000_0000_0000);
            lemma_wrap_mod(0x8000_0000_0000_0000, q as int, -1, sew);
        } else {
            assert(q as int == div_trunc(sa as int, sb as int));
        }
    }
    let u = #[verifier::truncate] (q as u64);
    assert((q as u64) as int == (if q < 0 {
        q + 0x1_0000_0000_0000_0000
    } else {
        q as int
    })) by (bit_vector);
    let mask = sew_mask(sew);
    proof {
        lemma_low_bits_signed(q as int, u, mask, sew);
    }
    u & mask
}

/// Signed SEW-wide remainder of the division rounding toward zero: the dividend for a zero
/// divisor, and zero for the overflowing `MIN % -1`.
#[verifier::spinoff_prover]
pub fn srem(a: u64, b: u64, sew: Vsew) -> (r: u64)
    ensures
        signed_of(b as nat, sew) == 0 ==> r == a as nat % sew_modulus(sew),
        signed_of(b as nat, sew) != 0 ==> r as int == rem_trunc(
            signed_of(a as nat, sew),
            signed_of(b as nat, sew),
        ) % (sew_modulus(sew) as int),
{
    let sa = sign_extend(a, sew);
    let sb = sign_extend(b, sew);
    let mask = sew_mask(sew);
    if sb == 0 {
        proof {
            lemma_and_mask(a, mask, sew);
        }
        return a & mask;
    }
    proof {
        lemma_quotient_fits(sa as int, sb as int);
    }
    let q: i64 = match sa.checked_rem(sb) {
        Some(q) => q,
        None => 0,
    };
    proof {
        lemma_sew_modulus_values(sew);
        assert(q as int == rem_trunc(sa as int, sb as int));
    }
    let u = #[verifier::truncate] (q as u64);
    assert((q as u64) as int == (if q < 0 {
        q + 0x1_0000_0000_0000_0000
    } else {
        q as int
    })) by (bit_vector);
    proof {
        lemma_low_bits_signed(q as int, u, mask, sew);
    }
    u & mask
}

/// Whether a widening operation is representable: `2 * SEW <= ELEN`.
pub fn widening_eew_supported(sew: Vsew, elen: u32) -> (r: bool)
    ensures
        r == (2 * sew.bits() <= elen),
{
    sew.bits_width() as u32 * 2 <= elen
}

/// Registers of the destination group of a widening operation (`EMUL = 2 * LMUL`, at least one
/// register); `None` when EMUL would exceed 8.
pub open spec fn widened_regs(vlmul: Vlmul) -> Option<nat> {
    match vlmul {
        Vlmul::M8 => None,
        Vlmul::M4 => Some(8),
        Vlmul::M2 => Some(4),
        Vlmul::M1 => Some(2),
        _ => Some(1),
    }
}

/// Destination register count of a widening operation, `max(1, 2 * LMUL)`, or `None` when
/// `2 * LMUL` leaves the legal range `[1/8, 8]`.
pub fn widening_dest_register_count(vlmul: Vlmul) -> (r: Option<u8>)
    ensures
        r matches Some(n) ==> widened_regs(vlmul) == Some(n as nat),
        r is None ==> widened_regs(vlmul) is None,
{
    let (lmul_num, lmul_den) = vlmul.as_fraction();
    let emul_num = match 2u8.checked_mul(lmul_num) {
        Some(n) => n,
        None => {
            return None;
        },
    };
    let emul_den = lmul_den;
    let g = if emul_num < emul_den {
        emul_num
    } else {
        emul_den
    };
    let n = emul_num / g;
    let d = emul_den / g;
    proof {
        match vlmul {
            Vlmul::M1 => {
                assert(emul_num == 2 && emul_den == 1 && g == 1 && n == 2 && d == 1);
            },
            Vlmul::M2 => {
                assert(emul_num == 4 && emul_den == 1 && g == 1 && n == 4 && d == 1);
            },
            Vlmul::M4 => {
                assert(emul_num == 8 && emul_den == 1 && g == 1 && n == 8 && d == 1);
            },
            Vlmul::M8 => {
                assert(emul_num == 16 && emul_den == 1 && g == 1 && n == 16 && d == 1);
            },
            Vlmul::Mf2 => {
                assert(emul_num == 2 && emul_den == 2 && g == 2 && n == 1 && d == 1);
            },
            Vlmul::Mf4 => {
                assert(emul_num == 2);
                assert(emul_den == 4);
                assert(g == 2);
                assert(n == 1);
                assert(d == 2) by (nonlinear_arith)
                    requires
                        d == emul_den / g,
                        emul_den == 4,
                        g == 2,
                ;
            },
            Vlmul::Mf8 => {
                assert(emul_num == 2 && emul_den == 8 && g == 2 && n == 1);
                assert(d == 4) by (nonlinear_arith)
                    requires
                        d == emul_den / g,
                        emul_den == 8,
                        g == 2,
                ;
            },
        }
    }
    let legal = (n == 1 && d == 8) || (n == 1 && d == 4) || (n == 1 && d == 2) || (n == 1 && d
        == 1) || (n == 2 && d == 1) || (n == 4 && d == 1) || (n == 8 && d == 1);
    if !legal {
        return None;
    }
    Some(
        if d > 1 {
            1
        } else {
            n
        },
    )
}

/// Check that the narrower source group `[vs, vs + src_group_regs)` of a widening instruction
/// overlaps its destination `[vd, vd + dest_group_regs)` only in the legal way: not at all, or,
/// when the source EMUL is at least one register, exactly in the destination's highest-numbered
/// registers. Otherwise an illegal instruction at `old_pc`.
pub fn check_no_widening_overlap(
    old_pc: u64,
    vd: VReg,
    vs: VReg,
    dest_group_regs: u8,
    src_group_regs: u8,
) -> (r: Result<(), ExecutionError>)
    requires
        dest_group_regs >= 1,
        src_group_regs >= 1,
    ensures
        r is Ok <==> ({
            let vd_end = vd.index() + dest_group_regs;
            let vs_end = vs.index() + src_group_regs;
            ||| vs.index() >= vd_end
            ||| vd.index() >= vs_end
            ||| (dest_group_regs > src_group_regs && vs.index() + src_group_regs == vd_end)
        }),
        r is Err ==> r == Err::<(), ExecutionError>(
            ExecutionError::IllegalInstruction { address: old_pc },
        ),
{
    let dest = dest_group_regs as u16;
    let src = src_group_regs as u16;
    let vd_start = vd.to_bits() as u16;
    let vd_end = vd_start + dest;
    let vs_start = vs.to_bits() as u16;
    let vs_end = vs_start + src;
    if vs_start >= vd_end || vd_start >= vs_end {
        return Ok(());
    }
    if dest > src && vs_start + src == vd_end {
        return Ok(());
    }
    Err(ExecutionError::IllegalInstruction { address: old_pc })
}

/// Read element `elem_i` of width `2 * SEW` of the widened group based at `base_reg`.
pub fn read_wide_element_u64(
    vregs: &VectorRegisterFile,
    base_reg: VReg,
    elem_i: u16,
    sew: Vsew,
) -> (r: u64)
    requires
        vregs.wf(),
        sew.bytes() <= 4,
        base_reg.index() * vregs.vlenb_spec() + (elem_i + 1) * (2 * sew.bytes()) <= 32
            * vregs.vlenb_spec(),
    ensures
        r == element(vregs@, vregs.vlenb_spec(), base_reg.index(), elem_i as nat, 2 * sew.bytes()),
{
    proof {
        vregs.lemma_wf();
        lemma_slot_arith(elem_i as nat, 0, 2 * sew.bytes());
    }
    let w = 2 * sew.bytes_width() as usize;
    let l = vregs.vlenb() as usize;
    let base = base_reg.to_bits() as usize;
    assert(base * l <= 31 * 8192) by (nonlinear_arith)
        requires
            base < 32,
            l <= 8192,
    ;
    assert(elem_i as usize * w <= 65535 * 8) by (nonlinear_arith)
        requires
            w <= 8,
    ;
    let off = base * l + elem_i as usize * w;
    vregs.read_bytes(off, w)
}

/// Write the low `2 * SEW` bits of `value` into element `elem_i` of the widened group based at
/// `base_reg`.
pub fn write_wide_element_u64(
    vregs: &mut VectorRegisterFile,
    base_reg: VReg,
    elem_i: u16,
    sew: Vsew,
    value: u64,
)
    requires
        old(vregs).wf(),
        sew.bytes() <= 4,
        base_reg.index() * old(vregs).vlenb_spec() + (elem_i + 1) * (2 * sew.bytes()) <= 32 * old(
            vregs,
        ).vlenb_spec(),
    ensures
        final(vregs).wf(),
        final(vregs).vlenb_spec() == old(vregs).vlenb_spec(),
        final(vregs)@ == crate::register_file::with_element(
            old(vregs)@,
            old(vregs).vlenb_spec(),
            base_reg.index(),
            elem_i as nat,
            2 * sew.bytes(),
            value as nat,
        ),
{
    proof {
        vregs.lemma_wf();
        lemma_slot_arith(elem_i as nat, 0, 2 * sew.bytes());
    }
    let w = 2 * sew.bytes_width() as usize;
    let l = vregs.vlenb() as usize;
    let base = base_reg.to_bits() as usize;
    assert(base * l <= 31 * 8192) by (nonlinear_arith)
        requires
            base < 32,
            l <= 8192,
    ;
    assert(elem_i as usize * w <= 65535 * 8) by (nonlinear_arith)
        requires
            w <= 8,
    ;
    let off = base * l + elem_i as usize * w;
    vregs.write_bytes(off, w, value);
}

/// A source operand of a widening operation: a register group of `vl` elements of width `w`
/// that ends before the destination's region or starts at least `vl * w` bytes into it (which
/// covers disjoint groups and the legal overlap with the destination's highest registers).
pub open spec fn wide_src_ok(s: VectorState, vd: VReg, src: OpSrc, w: nat) -> bool {
    match src {
        OpSrc::Vreg(r) => {
            &&& s.group_fits(r, w)
            &&& (r.index() * s.vlenb() + s.vl * w <= vd.index() * s.vlenb() || vd.index()
                * s.vlenb() + s.vl * w <= r.index() * s.vlenb())
        },
        OpSrc::Scalar(_) => true,
    }
}

/// Element `i` of the `2 * SEW` wide `vd` after a widening operation.
pub open spec fn widen_post<F: Fn(u64, u64, Vsew) -> u64>(
    old: VectorState,
    new: VectorState,
    vd: VReg,
    vs2: VReg,
    src: OpSrc,
    vm: bool,
    sew: Vsew,
    op: F,
    i: nat,
) -> bool {
    let w = sew.bytes();
    let a = element(old.regs@, old.vlenb(), vs2.index(), i, w);
    let b = src_value(old, src, i, w);
    let d = element(new.regs@, old.vlenb(), vd.index(), i, 2 * w);
    if old.is_active(vm, i) {
        exists|r: u64|
            #[trigger] call_ensures(op, (a as u64, b as u64, sew), r) && d == r as nat % byte_scale(
                2 * w,
            )
    } else {
        d == element(old.regs@, old.vlenb(), vd.index(), i, 2 * w)
    }
}

/// Width in bytes of a multiply-add destination element: `2 * SEW` when `wide`.
pub open spec fn dest_width(sew: Vsew, wide: bool) -> nat {
    if wide {
        2 * sew.bytes()
    } else {
        sew.bytes()
    }
}

/// Element `i` of `vd` after a multiply-add: `op(vd[i], a[i], src[i], sew)` for an active
/// element, where `vd` is `2 * SEW` wide when `wide`.
pub open spec fn muladd_post<F: Fn(u64, u64, u64, Vsew) -> u64>(
    old: VectorState,
    new: VectorState,
    vd: VReg,
    a_src: OpSrc,
    src: OpSrc,
    vm: bool,
    sew: Vsew,
    op: F,
    wide: bool,
    i: nat,
) -> bool {
    let w = sew.bytes();
    let dw = dest_width(sew, wide);
    let acc = element(old.regs@, old.vlenb(), vd.index(), i, dw);
    let a = src_value(old, a_src, i, w);
    let b = src_value(old, src, i, w);
    let d = element(new.regs@, old.vlenb(), vd.index(), i, dw);
    if old.is_active(vm, i) {
        exists|r: u64|
            #[trigger] call_ensures(op, (acc as u64, a as u64, b as u64, sew), r) && d == r as nat
                % byte_scale(dw)
    } else {
        d == element(old.regs@, old.vlenb(), vd.index(), i, dw)
    }
}

/// Operands of a multiply-add are usable: same-width operands are `vd`'s group or disjoint from
/// it, widening ones satisfy `wide_src_ok`.
pub open spec fn muladd_operands_ok(
    s: VectorState,
    vd: VReg,
    a_src: OpSrc,
    src: OpSrc,
    sew: Vsew,
    wide: bool,
) -> bool {
    let w = sew.bytes();
    if wide {
        &&& w <= 4
        &&& vd.index() * s.vlenb() + s.vl * (2 * w) <= 32 * s.vlenb()
        &&& wide_src_ok(s, vd, a_src, w)
        &&& wide_src_ok(s, vd, src, w)
    } else {
        &&& s.group_fits(vd, w)
        &&& src_ok(s, vd, a_src, w)
        &&& src_ok(s, vd, src, w)
    }
}

/// The element-wise multiply-add loop shared by the single-width and widening forms.
fn execute_muladd<F>(
    state: &mut VectorState,
    vd: VReg,
    a_src: OpSrc,
    src: OpSrc,
    vm: bool,
    sew: Vsew,
    op: F,
    wide: bool,
) where F: Fn(u64, u64, u64, Vsew) -> u64
    requires
        old(state).wf(),
        muladd_operands_ok(*old(state), vd, a_src, src, sew, wide),
        forall|acc: u64, a: u64, b: u64| #[trigger] op.requires((acc, a, b, sew)),
    ensures
        final(state).same_config(*old(state)),
        final(state).vs_dirty,
        final(state).vstart == 0,
        unchanged_outside(
            old(state).regs@,
            final(state).regs@,
            (vd.index() * old(state).vlenb()) as int,
            (vd.index() * old(state).vlenb() + old(state).vl * dest_width(sew, wide)) as int,
        ),
        forall|i: nat|
            i < old(state).vl ==> #[trigger] muladd_post(
                *old(state),
                *final(state),
                vd,
                a_src,
                src,
                vm,
                sew,
                op,
                wide,
                i,
            ),
{
    let ghost s0 = *state;
    let ghost l = s0.vlenb();
    let ghost w = sew.bytes();
    let ghost dw = dest_width(sew, wide);
    let ghost r0 = vd.index() * l;
    let vl = state.vl;
    let vstart = state.vstart;
    proof {
        lemma_vl_bound(s0);
        s0.regs.lemma_wf();
    }
    let mask_buf = snapshot_mask(&state.regs, vm, vl);
    let mut i: u32 = if (vstart as u32) < vl {
        vstart as u32
    } else {
        vl
    };
    while i < vl
        invariant
            s0.wf(),
            l == s0.vlenb(),
            w == sew.bytes(),
            dw == dest_width(sew, wide),
            dw == (if wide {
                2 * w
            } else {
                w
            }),
            r0 == vd.index() * l,
            r0 + vl * dw <= 32 * l,
            vl == s0.vl,
            vstart == s0.vstart,
            vl <= 8 * l,
            vl <= 65536,
            muladd_operands_ok(s0, vd, a_src, src, sew, wide),
            forall|acc: u64, a: u64, b: u64| #[trigger] op.requires((acc, a, b, sew)),
            mask_buf@ == snapshot_spec(s0.regs@, l, vm, vl as nat),
            state.same_config(s0),
            state.vs_dirty == s0.vs_dirty,
            state.vstart == s0.vstart,
            i <= vl,
            i < vl ==> vstart <= i,
            unchanged_outside(s0.regs@, state.regs@, r0 as int, (r0 + i * dw) as int),
            forall|j: nat|
                j < i ==> #[trigger] muladd_post(s0, *state, vd, a_src, src, vm, sew, op, wide, j),
        decreases vl - i,
    {
        let ghost cur = *state;
        proof {
            s0.regs.lemma_wf();
            lemma_snapshot_bit(s0.regs@, l, vm, vl as nat, i as nat);
            lemma_slot_arith(i as nat, vl as nat, w);
            lemma_slot_arith(i as nat, vl as nat, dw);
            assert(i * (2 * w) == 2 * (i * w)) by (nonlinear_arith);
        }
        let active = mask_bit(&mask_buf, i as u16);
        assert(active == s0.is_active(vm, i as nat));
        if active {
            let acc = if wide {
                proof {
                    lemma_value_unchanged(
                        s0.regs@,
                        cur.regs@,
                        r0 as int,
                        (r0 + i * dw) as int,
                        (r0 + i * dw) as int,
                        dw,
                    );
                }
                read_wide_element_u64(&state.regs, vd, i as u16, sew)
            } else {
                proof {
                    lemma_value_unchanged(
                        s0.regs@,
                        cur.regs@,
                        r0 as int,
                        (r0 + i * dw) as int,
                        (r0 + i * dw) as int,
                        dw,
                    );
                }
                read_element_u64(&state.regs, vd, i as u16, sew)
            };
            let a = match a_src {
                OpSrc::Vreg(a_reg) => {
                    proof {
                        if wide {
                            lemma_value_unchanged(
                                s0.regs@,
                                cur.regs@,
                                r0 as int,
                                (r0 + i * dw) as int,
                                (a_reg.index() * l + i * w) as int,
                                w,
                            );
                        } else {
                            lemma_read_frame(
                                s0.regs@,
                                cur.regs@,
                                l,
                                vd.index(),
                                i * w,
                                a_reg.index(),
                                i as nat,
                                w,
                                vl as nat,
                            );
                        }
                    }
                    read_element_u64(&state.regs, a_reg, i as u16, sew)
                },
                OpSrc::Scalar(val) => val,
            };
            let b = match src {
                OpSrc::Vreg(b_reg) => {
                    proof {
                        if wide {
                            lemma_value_unchanged(
                                s0.regs@,
                                cur.regs@,
                                r0 as int,
                                (r0 + i * dw) as int,
                                (b_reg.index() * l + i * w) as int,
                                w,
                            );
                        } else {
                            lemma_read_frame(
                                s0.regs@,
                                cur.regs@,
                                l,
                                vd.index(),
                                i * w,
                                b_reg.index(),
                                i as nat,
                                w,
                                vl as nat,
                            );
                        }
                    }
                    read_element_u64(&state.regs, b_reg, i as u16, sew)
                },
                OpSrc::Scalar(val) => val,
            };
            assert(a == src_value(s0, a_src, i as nat, w));
            assert(b == src_value(s0, src, i as nat, w));
            let result = op(acc, a, b, sew);
            if wide {
                write_wide_element_u64(&mut state.regs, vd, i as u16, sew, result);
            } else {
                write_element_u64(&mut state.regs, vd, i as u16, sew, result);
            }
            proof {
                lemma_element_step(
                    s0.regs@,
                    cur.regs@,
                    state.regs@,
                    l,
                    vd.index(),
                    i as nat,
                    dw,
                    vl as nat,
                    true,
                    result as nat,
                );
                assert(call_ensures(op, (acc, a, b, sew), result));
                assert(muladd_post(s0, *state, vd, a_src, src, vm, sew, op, wide, i as nat));
            }
        } else {
            proof {
                lemma_element_step(
                    s0.regs@,
                    cur.regs@,
                    state.regs@,
                    l,
                    vd.index(),
                    i as nat,
                    dw,
                    vl as nat,
                    false,
                    0,
                );
            }
        }
        proof {
            assert forall|j: nat| j < i + 1 implies #[trigger] muladd_post(
                s0,
                *state,
                vd,
                a_src,
                src,
                vm,
                sew,
                op,
                wide,
                j,
            ) by {
                if j < i {
                    assert(muladd_post(s0, cur, vd, a_src, src, vm, sew, op, wide, j));
                }
            }
        }
        i = i + 1;
    }
    let ghost fin = *state;
    state.mark_vs_dirty();
    state.reset_vstart();
    proof {
        assert forall|j: nat| j < vl implies #[trigger] muladd_post(
            s0,
            *state,
            vd,
            a_src,
            src,
            vm,
            sew,
            op,
            wide,
            j,
        ) by {
            assert(muladd_post(s0, fin, vd, a_src, src, vm, sew, op, wide, j));
        }
    }
}

/// Execute a single-width multiply or divide over `vstart..vl`: each active element `i` of `vd`
/// becomes `op(vs2[i], src[i], sew)` truncated to SEW; inactive and tail elements are left
/// undisturbed. Marks the vector state dirty and resets `vstart`.
pub fn execute_arith_op<F>(
    state: &mut VectorState,
    vd: VReg,
    vs2: VReg,
    src: OpSrc,
    vm: bool,
    sew: Vsew,
    op: F,
) where F: Fn(u64, u64, Vsew) -> u64
    requires
        old(state).wf(),
        old(state).group_fits(vd, sew.bytes()),
        old(state).group_fits(vs2, sew.bytes()),
        old(state).same_or_disjoint(vd, vs2, sew.bytes()),
        src_ok(*old(state), vd, src, sew.bytes()),
        forall|a: u64, b: u64| #[trigger] op.requires((a, b, sew)),
    ensures
        final(state).same_config(*old(state)),
        final(state).vs_dirty,
        final(state).vstart == 0,
        unchanged_outside(
            old(state).regs@,
            final(state).regs@,
            (vd.index() * old(state).vlenb()) as int,
            (vd.index() * old(state).vlenb() + old(state).vl * sew.bytes()) as int,
        ),
        forall|i: nat|
            i < old(state).vl ==> #[trigger] crate::arith::binop_element_post(
                *old(state),
                *final(state),
                vd,
                vs2,
                src,
                vm,
                sew,
                op,
                i,
            ),
{
    crate::arith::execute_arith_op(state, vd, vs2, src, vm, sew, op)
}

/// Execute a single-width multiply-add whose first multiplier is the register group `a_reg`:
/// each active element `i` of `vd` becomes `op(vd[i], a_reg[i], src[i], sew)` truncated to SEW.
/// Inactive and tail elements are left undisturbed. Marks the vector state dirty and resets
/// `vstart`.
pub fn execute_muladd_op<F>(
    state: &mut VectorState,
    vd: VReg,
    a_reg: VReg,
    src: OpSrc,
    vm: bool,
    sew: Vsew,
    op: F,
) where F: Fn(u64, u64, u64, Vsew) -> u64
    requires
        old(state).wf(),
        muladd_operands_ok(*old(state), vd, OpSrc::Vreg(a_reg), src, sew, false),
        forall|acc: u64, a: u64, b: u64| #[trigger] op.requires((acc, a, b, sew)),
    ensures
        final(state).same_config(*old(state)),
        final(state).vs_dirty,
        final(state).vstart == 0,
        unchanged_outside(
            old(state).regs@,
            final(state).regs@,
            (vd.index() * old(state).vlenb()) as int,
            (vd.index() * old(state).vlenb() + old(state).vl * dest_width(sew, false)) as int,
        ),
        forall|i: nat|
            i < old(state).vl ==> #[trigger] muladd_post(
                *old(state),
                *final(state),
                vd,
                OpSrc::Vreg(a_reg),
                src,
                vm,
                sew,
                op,
                false,
                i,
            ),
{
    execute_muladd(state, vd, OpSrc::Vreg(a_reg), src, vm, sew, op, false)
}

/// Execute a single-width multiply-add whose first multiplier is `scalar`: each active
/// element `i` of `vd` becomes `op(vd[i], scalar, src[i], sew)` truncated to SEW.
/// Inactive and tail elements are left undisturbed. Marks the vector state dirty and resets
/// `vstart`.
pub fn execute_muladd_scalar_op<F>(
    state: &mut VectorState,
    vd: VReg,
    scalar: u64,
    src: OpSrc,
    vm: bool,
    sew: Vsew,
    op: F,
) where F: Fn(u64, u64, u64, Vsew) -> u64
    requires
        old(state).wf(),
        muladd_operands_ok(*old(state), vd, OpSrc::Scalar(scalar), src, sew, false),
        forall|acc: u64, a: u64, b: u64| #[trigger] op.requires((acc, a, b, sew)),
    ensures
        final(state).same_config(*old(state)),
        final(state).vs_dirty,
        final(state).vstart == 0,
        unchanged_outside(
            old(state).regs@,
            final(state).regs@,
            (vd.index() * old(state).vlenb()) as int,
            (vd.index() * old(state).vlenb() + old(state).vl * dest_width(sew, false)) as int,
        ),
        forall|i: nat|
            i < old(state).vl ==> #[trigger] muladd_post(
                *old(state),
                *final(state),
                vd,
                OpSrc::Scalar(scalar),
                src,
                vm,
                sew,
                op,
                false,
                i,
            ),
{
    execute_muladd(state, vd, OpSrc::Scalar(scalar), src, vm, sew, op, false)
}

/// Execute a widening multiply-add whose first multiplier is the register group `a_reg`:
/// each active `2 * SEW` wide element `i` of `vd` becomes `op(vd[i], a_reg[i], src[i], sew)`
/// truncated to `2 * SEW`.
/// Inactive and tail elements are left undisturbed. Marks the vector state dirty and resets
/// `vstart`.
pub fn execute_widening_muladd_op<F>(
    state: &mut VectorState,
    vd: VReg,
    a_reg: VReg,
    src: OpSrc,
    vm: bool,
    sew: Vsew,
    op: F,
) where F: Fn(u64, u64, u64, Vsew) -> u64
    requires
        old(state).wf(),
        muladd_operands_ok(*old(state), vd, OpSrc::Vreg(a_reg), src, sew, true),
        forall|acc: u64, a: u64, b: u64| #[trigger] op.requires((acc, a, b, sew)),
    ensures
        final(state).same_config(*old(state)),
        final(state).vs_dirty,
        final(state).vstart == 0,
        unchanged_outside(
            old(state).regs@,
            final(state).regs@,
            (vd.index() * old(state).vlenb()) as int,
            (vd.index() * old(state).vlenb() + old(state).vl * dest_width(sew, true)) as int,
        ),
        forall|i: nat|
            i < old(state).vl ==> #[trigger] muladd_post(
                *old(state),
                *final(state),
                vd,
                OpSrc::Vreg(a_reg),
                src,
                vm,
                sew,
                op,
                true,
                i,
            ),
{
    execute_muladd(state, vd, OpSrc::Vreg(a_reg), src, vm, sew, op, true)
}

/// Execute a widening multiply-add whose first multiplier is `scalar`: each active
/// `2 * SEW` wide element `i` of `vd` becomes `op(vd[i], scalar, src[i], sew)` truncated to
/// `2 * SEW`.
/// Inactive and tail elements are left undisturbed. Marks the vector state dirty and resets
/// `vstart`.
pub fn execute_widening_muladd_scalar_op<F>(
    state: &mut VectorState,
    vd: VReg,
    scalar: u64,
    src: OpSrc,
    vm: bool,
    sew: Vsew,
    op: F,
) where F: Fn(u64, u64, u64, Vsew) -> u64
    requires
        old(state).wf(),
        muladd_operands_ok(*old(state), vd, OpSrc::Scalar(scalar), src, sew, true),
        forall|acc: u64, a: u64, b: u64| #[trigger] op.requires((acc, a, b, sew)),
    ensures
        final(state).same_config(*old(state)),
        final(state).vs_dirty,
        final(state).vstart == 0,
        unchanged_outside(
            old(state).regs@,
            final(state).regs@,
            (vd.index() * old(state).vlenb()) as int,
            (vd.index() * old(state).vlenb() + old(state).vl * dest_width(sew, true)) as int,
        ),
        forall|i: nat|
            i < old(state).vl ==> #[trigger] muladd_post(
                *old(state),
                *final(state),
                vd,
                OpSrc::Scalar(scalar),
                src,
                vm,
                sew,
                op,
                true,
                i,
            ),
{
    execute_muladd(state, vd, OpSrc::Scalar(scalar), src, vm, sew, op, true)
}

/// Execute a widening operation over `vstart..vl`: each active `2 * SEW` wide element `i` of `vd`
/// becomes `op(vs2[i], src[i], sew)` truncated to `2 * SEW`; inactive and tail elements are left
/// undisturbed. Marks the vector state dirty and resets `vstart`.
pub fn execute_widening_op<F>(
    state: &mut VectorState,
    vd: VReg,
    vs2: VReg,
    src: OpSrc,
    vm: bool,
    sew: Vsew,
    op: F,
) where F: Fn(u64, u64, Vsew) -> u64
    requires
        old(state).wf(),
        sew.bytes() <= 4,
        vd.index() * old(state).vlenb() + old(state).vl * (2 * sew.bytes()) <= 32 * old(
            state,
        ).vlenb(),
        wide_src_ok(*old(state), vd, OpSrc::Vreg(vs2), sew.bytes()),
        wide_src_ok(*old(state), vd, src, sew.bytes()),
        forall|a: u64, b: u64| #[trigger] op.requires((a, b, sew)),
    ensures
        final(state).same_config(*old(state)),
        final(state).vs_dirty,
        final(state).vstart == 0,
        unchanged_outside(
            old(state).regs@,
            final(state).regs@,
            (vd.index() * old(state).vlenb()) as int,
            (vd.index() * old(state).vlenb() + old(state).vl * (2 * sew.bytes())) as int,
        ),
        forall|i: nat|
            i < old(state).vl ==> #[trigger] widen_post(
                *old(state),
                *final(state),
                vd,
                vs2,
                src,
                vm,
                sew,
                op,
                i,
            ),
{
    let ghost s0 = *state;
    let ghost l = s0.vlenb();
    let ghost w = sew.bytes();
    let ghost dw = 2 * w;
    let ghost r0 = vd.index() * l;
    let vl = state.vl;
    let vstart = state.vstart;
    proof {
        lemma_vl_bound(s0);
        s0.regs.lemma_wf();
    }
    let mask_buf = snapshot_mask(&state.regs, vm, vl);
    let mut i: u32 = if (vstart as u32) < vl {
        vstart as u32
    } else {
        vl
    };
    while i < vl
        invariant
            s0.wf(),
            l == s0.vlenb(),
            w == sew.bytes(),
            w <= 4,
            dw == 2 * w,
            r0 == vd.index() * l,
            r0 + vl * dw <= 32 * l,
            vl == s0.vl,
            vstart == s0.vstart,
            vl <= 8 * l,
            vl <= 65536,
            wide_src_ok(s0, vd, OpSrc::Vreg(vs2), w),
            wide_src_ok(s0, vd, src, w),
            forall|a: u64, b: u64| #[trigger] op.requires((a, b, sew)),
            mask_buf@ == snapshot_spec(s0.regs@, l, vm, vl as nat),
            state.same_config(s0),
            state.vs_dirty == s0.vs_dirty,
            state.vstart == s0.vstart,
            i <= vl,
            i < vl ==> vstart <= i,
            unchanged_outside(s0.regs@, state.regs@, r0 as int, (r0 + i * dw) as int),
            forall|j: nat|
                j < i ==> #[trigger] widen_post(s0, *state, vd, vs2, src, vm, sew, op, j),
        decreases vl - i,
    {
        let ghost cur = *state;
        proof {
            s0.regs.lemma_wf();
            lemma_snapshot_bit(s0.regs@, l, vm, vl as nat, i as nat);
            lemma_slot_arith(i as nat, vl as nat, w);
            lemma_slot_arith(i as nat, vl as nat, dw);
            assert(i * (2 * w) == 2 * (i * w)) by (nonlinear_arith);
        }
        let active = mask_bit(&mask_buf, i as u16);
        assert(active == s0.is_active(vm, i as nat));
        if active {
            proof {
                lemma_value_unchanged(
                    s0.regs@,
                    cur.regs@,
                    r0 as int,
                    (r0 + i * dw) as int,
                    (vs2.index() * l + i * w) as int,
                    w,
                );
            }
            let a = read_element_u64(&state.regs, vs2, i as u16, sew);
            let b = match src {
                OpSrc::Vreg(vs1) => {
                    proof {
                        lemma_value_unchanged(
                            s0.regs@,
                            cur.regs@,
                            r0 as int,
                            (r0 + i * dw) as int,
                            (vs1.index() * l + i * w) as int,
                            w,
                        );
                    }
                    read_element_u64(&state.regs, vs1, i as u16, sew)
                },
                OpSrc::Scalar(val) => val,
            };
            assert(b == src_value(s0, src, i as nat, w));
            let result = op(a, b, sew);
            write_wide_element_u64(&mut state.regs, vd, i as u16, sew, result);
            proof {
                lemma_element_step(
                    s0.regs@,
                    cur.regs@,
                    state.regs@,
                    l,
                    vd.index(),
                    i as nat,
                    dw,
                    vl as nat,
                    true,
                    result as nat,
                );
                assert(call_ensures(op, (a, b, sew), result));
                assert(widen_post(s0, *state, vd, vs2, src, vm, sew, op, i as nat));
            }
        } else {
            proof {
                lemma_element_step(
                    s0.regs@,
                    cur.regs@,
                    state.regs@,
                    l,
                    vd.index(),
                    i as nat,
                    dw,
                    vl as nat,
                    false,
                    0,
                );
            }
        }
        proof {
            assert forall|j: nat| j < i + 1 implies #[trigger] widen_post(
                s0,
                *state,
                vd,
                vs2,
                src,
                vm,
                sew,
                op,
                j,
            ) by {
                if j < i {
                    assert(widen_post(s0, cur, vd, vs2, src, vm, sew, op, j));
                }
            }
        }
        i = i + 1;
    }
    let ghost fin = *state;
    state.mark_vs_dirty();
    state.reset_vstart();
    proof {
        assert forall|j: nat| j < vl implies #[trigger] widen_post(
            s0,
            *state,
            vd,
            vs2,
            src,
            vm,
            sew,
            op,
            j,
        ) by {
            assert(widen_post(s0, fin, vd, vs2, src, vm, sew, op, j));
        }
    }
}

} // verus!
