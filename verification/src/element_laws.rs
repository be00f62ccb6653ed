//! Laws of the element operations: how the results of the integer, compare, multiply and
//! mask-logical operations relate to their operands and to each other, for every input.

use vstd::prelude::*;
use crate::arith::{lemma_sew_modulus_values, sew_modulus, signed_of};
use crate::arith_instructions::{compare_value, int_op_value, IntCompare, IntOp};
use crate::mask_instructions::{mask_logical_value, MaskLogicalOp};
use crate::muldiv::abs;
use crate::muldiv_instructions::{
    muladd_value, muldiv_value, widening_mul_value, widening_muladd_value, MulAddOp,
    MulDivOp, WideningMulAddOp, WideningMulOp,
};
use crate::types::Vsew;

verus! {

/// `vand`, `vor` and `vxor` work bit by bit: bit `i` of the AND is set exactly when both operand
/// bits are, of the OR when either is, of the XOR when exactly one is; and the AND and the OR
/// of two values add up to their sum.
pub proof fn lemma_bitwise_ops(a: u64, b: u64, sew: Vsew, i: u64)
    requires
        i < 64,
    ensures
        0 <= int_op_value(IntOp::And, a, b, sew) <= u64::MAX,
        0 <= int_op_value(IntOp::Or, a, b, sew) <= u64::MAX,
        0 <= int_op_value(IntOp::Xor, a, b, sew) <= u64::MAX,
        ((int_op_value(IntOp::And, a, b, sew) as u64 >> i) & 1 == 1) == ((a >> i) & 1 == 1 && (b
            >> i) & 1 == 1),
        ((int_op_value(IntOp::Or, a, b, sew) as u64 >> i) & 1 == 1) == ((a >> i) & 1 == 1 || (b
            >> i) & 1 == 1),
        ((int_op_value(IntOp::Xor, a, b, sew) as u64 >> i) & 1 == 1) == (((a >> i) & 1 == 1) != ((b
            >> i) & 1 == 1)),
        int_op_value(IntOp::And, a, b, sew) + int_op_value(IntOp::Or, a, b, sew) == a + b,
{
    assert((((a & b) >> i) & 1 == 1 <==> ((a >> i) & 1 == 1 && (b >> i) & 1 == 1)) && (((a | b)
        >> i) & 1 == 1 <==> ((a >> i) & 1 == 1 || (b >> i) & 1 == 1)) && (((a ^ b) >> i) & 1 == 1
        <==> ((a >> i) & 1 == 1) != ((b >> i) & 1 == 1)) && (a & b) + (a | b) == a + b)
        by (bit_vector)
        requires
            i < 64,
    ;
}

/// `vadd`, `vsub` and `vrsub` before truncation: adding and subtracting the same operand differ
/// by twice it, the reversed subtraction is the negated subtraction, addition commutes and
/// adding zero changes nothing.
pub proof fn lemma_add_sub_ops(a: u64, b: u64, sew: Vsew)
    ensures
        int_op_value(IntOp::Add, a, b, sew) - int_op_value(IntOp::Sub, a, b, sew) == 2 * b,
        int_op_value(IntOp::Rsub, a, b, sew) == -int_op_value(IntOp::Sub, a, b, sew),
        int_op_value(IntOp::Add, a, b, sew) == int_op_value(IntOp::Add, b, a, sew),
        int_op_value(IntOp::Add, a, 0, sew) == a,
        int_op_value(IntOp::Sub, a, a, sew) == 0,
{
}

/// `vminu`/`vmaxu` and `vmin`/`vmax` pick one operand each, together both: the minimum is at
/// most and the maximum at least each operand, compared at SEW bits unsigned or signed.
pub proof fn lemma_min_max_ops(a: u64, b: u64, sew: Vsew)
    ensures
        ({
            let m = sew_modulus(sew);
            let lo = int_op_value(IntOp::Minu, a, b, sew);
            let hi = int_op_value(IntOp::Maxu, a, b, sew);
            &&& (lo as u64) as nat % m + (hi as u64) as nat % m == a as nat % m + b as nat % m
            &&& lo == a || lo == b
            &&& hi == a || hi == b
            &&& (lo as u64) as nat % m <= a as nat % m
            &&& (lo as u64) as nat % m <= b as nat % m
            &&& (hi as u64) as nat % m >= a as nat % m
            &&& (hi as u64) as nat % m >= b as nat % m
        }),
        ({
            let lo = int_op_value(IntOp::Min, a, b, sew);
            let hi = int_op_value(IntOp::Max, a, b, sew);
            &&& signed_of((lo as u64) as nat, sew) + signed_of((hi as u64) as nat, sew) == signed_of(
                a as nat,
                sew,
            ) + signed_of(b as nat, sew)
            &&& lo == a || lo == b
            &&& hi == a || hi == b
            &&& signed_of((lo as u64) as nat, sew) <= signed_of(a as nat, sew)
            &&& signed_of((lo as u64) as nat, sew) <= signed_of(b as nat, sew)
            &&& signed_of((hi as u64) as nat, sew) >= signed_of(a as nat, sew)
            &&& signed_of((hi as u64) as nat, sew) >= signed_of(b as nat, sew)
        }),
{
    let m = sew_modulus(sew);
    if a as nat % m <= b as nat % m {
        assert(int_op_value(IntOp::Minu, a, b, sew) == a as int);
    } else {
        assert(int_op_value(IntOp::Minu, a, b, sew) == b as int);
    }
    if a as nat % m >= b as nat % m {
        assert(int_op_value(IntOp::Maxu, a, b, sew) == a as int);
    } else {
        assert(int_op_value(IntOp::Maxu, a, b, sew) == b as int);
    }
    if signed_of(a as nat, sew) <= signed_of(b as nat, sew) {
        assert(int_op_value(IntOp::Min, a, b, sew) == a as int);
    } else {
        assert(int_op_value(IntOp::Min, a, b, sew) == b as int);
    }
    if signed_of(a as nat, sew) >= signed_of(b as nat, sew) {
        assert(int_op_value(IntOp::Max, a, b, sew) == a as int);
    } else {
        assert(int_op_value(IntOp::Max, a, b, sew) == b as int);
    }
}

/// The compares are one order seen from each side: `<=` is not `>`, `<` is `<=` without `==`,
/// swapping the operands turns `<` into `>`, `==` is reflexive and symmetric and `!=` its
/// negation; for operands whose SEW sign bits are clear the signed and unsigned compares agree.
pub proof fn lemma_compare_relations(a: u64, b: u64, sew: Vsew)
    ensures
        compare_value(IntCompare::Leu, a, b, sew) == !compare_value(IntCompare::Gtu, a, b, sew),
        compare_value(IntCompare::Le, a, b, sew) == !compare_value(IntCompare::Gt, a, b, sew),
        compare_value(IntCompare::Ltu, a, b, sew) == (compare_value(IntCompare::Leu, a, b, sew)
            && !compare_value(IntCompare::Eq, a, b, sew)),
        compare_value(IntCompare::Lt, a, b, sew) == (compare_value(IntCompare::Le, a, b, sew)
            && !compare_value(IntCompare::Eq, a, b, sew)),
        compare_value(IntCompare::Ltu, a, b, sew) == compare_value(IntCompare::Gtu, b, a, sew),
        compare_value(IntCompare::Lt, a, b, sew) == compare_value(IntCompare::Gt, b, a, sew),
        compare_value(IntCompare::Ne, a, b, sew) == !compare_value(IntCompare::Eq, a, b, sew),
        compare_value(IntCompare::Eq, a, b, sew) == compare_value(IntCompare::Eq, b, a, sew),
        compare_value(IntCompare::Eq, a, a, sew),
        compare_value(IntCompare::Leu, a, a, sew),
        compare_value(IntCompare::Le, a, a, sew),
        !compare_value(IntCompare::Ltu, a, a, sew),
        !compare_value(IntCompare::Lt, a, a, sew),
        compare_value(IntCompare::Ltu, a, b, sew) || compare_value(IntCompare::Eq, a, b, sew)
            || compare_value(IntCompare::Gtu, a, b, sew),
        compare_value(IntCompare::Eq, a, b, sew) <==> a as nat % sew_modulus(sew) == b as nat
            % sew_modulus(sew),
        a as nat % sew_modulus(sew) < sew_modulus(sew) / 2 && b as nat % sew_modulus(sew)
            < sew_modulus(sew) / 2 ==> compare_value(IntCompare::Lt, a, b, sew) == compare_value(
            IntCompare::Ltu,
            a,
            b,
            sew,
        ),
{
    lemma_sew_modulus_values(sew);
    let m = sew_modulus(sew);
    let ua = a as nat % m;
    let ub = b as nat % m;
    // equal readings at SEW bits are equal signed readings, and the signed reading is a
    // monotone shift of the unsigned one on each half
    assert(ua == ub ==> signed_of(a as nat, sew) == signed_of(b as nat, sew));
    assert(signed_of(a as nat, sew) == signed_of(b as nat, sew) ==> ua == ub);
}

/// The mask-register logical operations are the Boolean connectives: OR is the negation of NOR
/// and holds whenever AND does, AND and OR absorb `true` and `false` as they must, XOR is OR
/// without AND, and the negated forms negate (`vmnand`, `vmxnor`) or complement the second
/// operand (`vmandn`, `vmorn`).
pub proof fn lemma_mask_logical_ops(a: bool, b: bool)
    ensures
        mask_logical_value(MaskLogicalOp::Or, a, b) == !mask_logical_value(MaskLogicalOp::Nor, a, b),
        mask_logical_value(MaskLogicalOp::And, a, b) ==> mask_logical_value(MaskLogicalOp::Or, a, b),
        mask_logical_value(MaskLogicalOp::Or, a, true),
        mask_logical_value(MaskLogicalOp::Or, a, false) == a,
        !mask_logical_value(MaskLogicalOp::And, a, false),
        mask_logical_value(MaskLogicalOp::And, a, true) == a,
        mask_logical_value(MaskLogicalOp::Xor, a, b) == (mask_logical_value(MaskLogicalOp::Or, a, b)
            && !mask_logical_value(MaskLogicalOp::And, a, b)),
        mask_logical_value(MaskLogicalOp::Nand, a, b) == !mask_logical_value(MaskLogicalOp::And, a, b),
        mask_logical_value(MaskLogicalOp::Xnor, a, b) == !mask_logical_value(MaskLogicalOp::Xor, a, b),
        mask_logical_value(MaskLogicalOp::Andn, a, b) == mask_logical_value(MaskLogicalOp::And, a, !b),
        mask_logical_value(MaskLogicalOp::Orn, a, b) == mask_logical_value(MaskLogicalOp::Or, a, !b),
        mask_logical_value(MaskLogicalOp::Or, a, b) == mask_logical_value(MaskLogicalOp::Or, b, a),
        mask_logical_value(MaskLogicalOp::And, a, b) == mask_logical_value(MaskLogicalOp::And, b, a),
{
}

/// The shifts move bits by the shift operand taken modulo SEW (`k`): bit `i` of `vsll`'s result
/// is bit `i - k` of the operand (clear below `k`), bit `i` of `vsrl`'s is bit `i + k` of the
/// operand's low SEW bits (clear past the top), and bit `i` of `vsra`'s is bit `i + k` of the
/// operand's signed reading, its sign bit past the top.
pub proof fn lemma_shift_ops(a: u64, b: u64, sew: Vsew, i: u64)
    requires
        i < 64,
    ensures
        ({
            let k = (b as nat % sew.bits()) as u64;
            let sll = int_op_value(IntOp::Sll, a, b, sew) as u64;
            let srl = int_op_value(IntOp::Srl, a, b, sew) as u64;
            let sra = int_op_value(IntOp::Sra, a, b, sew) as u64;
            let ua = (a as nat % sew_modulus(sew)) as u64;
            let sa = signed_of(a as nat, sew) as i64 as u64;
            &&& i >= k ==> (sll >> i) & 1 == (a >> ((i - k) as u64)) & 1
            &&& i < k ==> (sll >> i) & 1 == 0
            &&& i + k < 64 ==> (srl >> i) & 1 == (ua >> ((i + k) as u64)) & 1
            &&& i + k >= 64 ==> (srl >> i) & 1 == 0
            &&& i + k < 64 ==> (sra >> i) & 1 == (sa >> ((i + k) as u64)) & 1
            &&& i + k >= 64 ==> (sra >> i) & 1 == (sa >> 63u64) & 1
        }),
{
    let k = (b as nat % sew.bits()) as u64;
    assert(k < 64);
    let ua = (a as nat % sew_modulus(sew)) as u64;
    let sa = signed_of(a as nat, sew) as i64;
    assert((i >= k ==> ((a << k) >> i) & 1 == (a >> ((i - k) as u64)) & 1) && (i < k ==> ((a << k) >> i)
        & 1 == 0) && (i + k < 64 ==> ((ua >> k) >> i) & 1 == (ua >> ((i + k) as u64)) & 1) && (i + k >= 64
        ==> ((ua >> k) >> i) & 1 == 0) && (i + k < 64 ==> (((sa >> k) as u64) >> i) & 1 == ((
    sa as u64) >> ((i + k) as u64)) & 1) && (i + k >= 64 ==> (((sa >> k) as u64) >> i) & 1 == ((sa as u64)
        >> 63u64) & 1)) by (bit_vector)
        requires
            i < 64,
            k < 64,
    ;
}

/// The signed reading of the low SEW bits agrees with the value modulo `2^SEW`, and equals the
/// unsigned reading when the sign bit is clear.
proof fn lemma_signed_mod(v: u64, sew: Vsew)
    ensures
        signed_of(v as nat, sew) % (sew_modulus(sew) as int) == v as nat % sew_modulus(sew),
        v as nat % sew_modulus(sew) < sew_modulus(sew) / 2 ==> signed_of(v as nat, sew) == v as nat
            % sew_modulus(sew),
{
    lemma_sew_modulus_values(sew);
    let m = sew_modulus(sew) as int;
    let u = (v as nat % sew_modulus(sew)) as int;
    if u >= m / 2 {
        vstd::arithmetic::div_mod::lemma_mod_sub_multiples_vanish(u, m);
        vstd::arithmetic::div_mod::lemma_small_mod(u as nat, m as nat);
    } else {
        vstd::arithmetic::div_mod::lemma_small_mod(u as nat, m as nat);
    }
}

/// The widening products: `vwmulsu` (signed `vs2`, unsigned operand) agrees with `vwmul` when the
/// operand's sign bit is clear and with `vwmulu` when the `vs2` element's is; `vwmul` and
/// `vwmulu` commute; multiplying by one gives the element's signed or unsigned reading.
pub proof fn lemma_widening_mul_ops(a: u64, b: u64, sew: Vsew)
    ensures
        b as nat % sew_modulus(sew) < sew_modulus(sew) / 2 ==> widening_mul_value(
            WideningMulOp::Mulsu,
            a,
            b,
            sew,
        ) == widening_mul_value(WideningMulOp::Mul, a, b, sew),
        a as nat % sew_modulus(sew) < sew_modulus(sew) / 2 ==> widening_mul_value(
            WideningMulOp::Mulsu,
            a,
            b,
            sew,
        ) == widening_mul_value(WideningMulOp::Mulu, a, b, sew),
        widening_mul_value(WideningMulOp::Mul, a, b, sew) == widening_mul_value(
            WideningMulOp::Mul,
            b,
            a,
            sew,
        ),
        widening_mul_value(WideningMulOp::Mulu, a, b, sew) == widening_mul_value(
            WideningMulOp::Mulu,
            b,
            a,
            sew,
        ),
        widening_mul_value(WideningMulOp::Mulu, a, 1, sew) == a as nat % sew_modulus(sew),
        widening_mul_value(WideningMulOp::Mulsu, a, 1, sew) == signed_of(a as nat, sew),
        0 <= widening_mul_value(WideningMulOp::Mulu, a, b, sew) < sew_modulus(sew) * sew_modulus(
            sew,
        ),
{
    lemma_sew_modulus_values(sew);
    lemma_signed_mod(a, sew);
    lemma_signed_mod(b, sew);
    lemma_signed_mod(1, sew);
    let m = sew_modulus(sew) as int;
    let ua = (a as nat % sew_modulus(sew)) as int;
    let ub = (b as nat % sew_modulus(sew)) as int;
    let sa = signed_of(a as nat, sew);
    let sb = signed_of(b as nat, sew);
    assert(sa * sb == sb * sa && ua * ub == ub * ua) by (nonlinear_arith);
    assert(0 <= ua * ub < m * m) by (nonlinear_arith)
        requires
            0 <= ua < m,
            0 <= ub < m,
    ;
    assert(sa * 1 == sa && ua * 1 == ua);
}

/// The high-half multiplies are the widening products shifted down by SEW bits, and the low
/// SEW bits of `vmul` are those of every widening product.
pub proof fn lemma_high_low_halves(a: u64, b: u64, sew: Vsew)
    ensures
        ({
            let m = sew_modulus(sew) as int;
            &&& muldiv_value(MulDivOp::Mulhu, a, b, sew) == widening_mul_value(
                WideningMulOp::Mulu,
                a,
                b,
                sew,
            ) / m
            &&& muldiv_value(MulDivOp::Mulh, a, b, sew) == widening_mul_value(
                WideningMulOp::Mul,
                a,
                b,
                sew,
            ) / m
            &&& muldiv_value(MulDivOp::Mulhsu, a, b, sew) == widening_mul_value(
                WideningMulOp::Mulsu,
                a,
                b,
                sew,
            ) / m
            &&& muldiv_value(MulDivOp::Mul, a, b, sew) % m == widening_mul_value(
                WideningMulOp::Mulu,
                a,
                b,
                sew,
            ) % m
            &&& muldiv_value(MulDivOp::Mul, a, b, sew) % m == widening_mul_value(
                WideningMulOp::Mul,
                a,
                b,
                sew,
            ) % m
            &&& muldiv_value(MulDivOp::Mul, a, b, sew) % m == widening_mul_value(
                WideningMulOp::Mulsu,
                a,
                b,
                sew,
            ) % m
        }),
{
    lemma_sew_modulus_values(sew);
    lemma_signed_mod(a, sew);
    lemma_signed_mod(b, sew);
    let m = sew_modulus(sew) as int;
    let ua = (a as nat % sew_modulus(sew)) as int;
    let ub = (b as nat % sew_modulus(sew)) as int;
    let sa = signed_of(a as nat, sew);
    let sb = signed_of(b as nat, sew);
    assert(ua == (a as int) % m);
    assert(ub == (b as int) % m);
    vstd::arithmetic::div_mod::lemma_mul_mod_noop(a as int, b as int, m);
    vstd::arithmetic::div_mod::lemma_mul_mod_noop(sa, sb, m);
    vstd::arithmetic::div_mod::lemma_mul_mod_noop(sa, ub, m);
    vstd::arithmetic::div_mod::lemma_small_mod(ub as nat, m as nat);
    assert(ub % m == ub);
}

/// Division and remainder: for a nonzero divisor the quotient times the divisor plus the
/// remainder is the dividend, the remainder is smaller than the divisor and (signed) has the
/// dividend's sign; a zero divisor gives a quotient of all ones and the dividend as remainder.
pub proof fn lemma_divide_ops(a: u64, b: u64, sew: Vsew)
    ensures
        ({
            let m = sew_modulus(sew) as int;
            let ua = (a as nat % sew_modulus(sew)) as int;
            let ub = (b as nat % sew_modulus(sew)) as int;
            let sa = signed_of(a as nat, sew);
            let sb = signed_of(b as nat, sew);
            let qu = muldiv_value(MulDivOp::Divu, a, b, sew);
            let ru = muldiv_value(MulDivOp::Remu, a, b, sew);
            let q = muldiv_value(MulDivOp::Div, a, b, sew);
            let r = muldiv_value(MulDivOp::Rem, a, b, sew);
            &&& ub != 0 ==> qu * ub + ru == ua && 0 <= ru < ub
            &&& ub == 0 ==> qu == m - 1 && ru == ua
            &&& sb != 0 ==> q * sb + r == sa && abs(r) < abs(sb) && (r == 0 || (r < 0) == (sa < 0))
            &&& sb == 0 ==> q == m - 1 && r == ua
        }),
{
    lemma_sew_modulus_values(sew);
    lemma_signed_mod(b, sew);
    let m = sew_modulus(sew) as int;
    let ua = (a as nat % sew_modulus(sew)) as int;
    let ub = (b as nat % sew_modulus(sew)) as int;
    let sa = signed_of(a as nat, sew);
    let sb = signed_of(b as nat, sew);
    if ub != 0 {
        vstd::arithmetic::div_mod::lemma_fundamental_div_mod(ua, ub);
        assert((ua / ub) * ub == ub * (ua / ub)) by (nonlinear_arith);
    }
    if sb != 0 {
        crate::laws::lemma_signed_division(sa, sb);
    }
    assert(sb == 0 <==> ub == 0) by {
        if ub != 0 && sb == 0 {
            assert(ub >= m / 2);
        }
    }
}

/// The multiply-adds: `vmacc` and `vnmsac` move the destination by the same product in opposite
/// directions, that product is the `vmul` product, and `vmadd`/`vnmsub` are `vmacc`/`vnmsac`
/// with the destination and the addend exchanged.
pub proof fn lemma_muladd_ops(acc: u64, a: u64, b: u64, sew: Vsew)
    ensures
        muladd_value(MulAddOp::Macc, acc, a, b) + muladd_value(MulAddOp::Nmsac, acc, a, b) == 2
            * acc,
        muladd_value(MulAddOp::Macc, acc, a, b) - acc == muldiv_value(MulDivOp::Mul, a, b, sew),
        muladd_value(MulAddOp::Madd, acc, a, b) == muladd_value(MulAddOp::Macc, b, a, acc),
        muladd_value(MulAddOp::Nmsub, acc, a, b) == muladd_value(MulAddOp::Nmsac, b, a, acc),
{
    assert(a * acc == acc * a && a * b == a * b) by (nonlinear_arith);
}

/// The widening multiply-adds add the matching widening product to the destination:
/// `vwmaccu` the unsigned one, `vwmacc` the signed one, `vwmaccsu` the product of the signed
/// multiplier and the unsigned `vs2` element, `vwmaccus` that of the signed `vs2` element and the
/// unsigned multiplier.
pub proof fn lemma_widening_muladd_ops(acc: u64, a: u64, b: u64, sew: Vsew)
    ensures
        widening_muladd_value(WideningMulAddOp::Maccu, acc, a, b, sew) - acc == widening_mul_value(
            WideningMulOp::Mulu,
            a,
            b,
            sew,
        ),
        widening_muladd_value(WideningMulAddOp::Macc, acc, a, b, sew) - acc == widening_mul_value(
            WideningMulOp::Mul,
            a,
            b,
            sew,
        ),
        widening_muladd_value(WideningMulAddOp::Maccsu, acc, a, b, sew) - acc
            == widening_mul_value(WideningMulOp::Mulsu, a, b, sew),
        widening_muladd_value(WideningMulAddOp::Maccus, acc, a, b, sew) - acc
            == widening_mul_value(WideningMulOp::Mulsu, b, a, sew),
{
    let ua = (a as nat % sew_modulus(sew)) as int;
    let sb = signed_of(b as nat, sew);
    assert(ua * sb == sb * ua) by (nonlinear_arith);
}

} // verus!
