//! Integer multiply, divide and multiply-add instructions: the element operations and the
//! legality checks an instruction goes through before its operation runs.

use vstd::prelude::*;
use crate::arith::{
    binop_element_post, check_vreg_group_alignment, lemma_sew_modulus_values, sew_mask,
    sew_modulus, sign_extend, signed_of, src_value, unchanged_outside,
};
use crate::arith_instructions::{aligned, int_instruction_legal, operand_source, operand_src, Operand};
use crate::bytes::byte_scale;
use crate::carry::{lemma_and_mask, lemma_wrap_mod};
use crate::grouping::{lemma_sew_group_fits, lemma_sew_groups_same_or_disjoint, lemma_widened_group};
use crate::muldiv::{
    check_no_widening_overlap, div_trunc, execute_arith_op, execute_muladd_op,
    execute_muladd_scalar_op, execute_widening_muladd_op, execute_widening_muladd_scalar_op,
    execute_widening_op, muladd_post, mulh_ss, mulhsu_su, mulhu_uu, rem_trunc, sdiv, srem,
    wide_src_ok, widen_post, widened_regs, widening_dest_register_count, widening_eew_supported,
};
use crate::register_file::element;
use crate::state::VectorState;
use crate::types::{ExecutionError, OpSrc, VReg, Vsew, Vtype};

verus! {

/// Element operation of a single-width multiply or divide instruction (`vmul`, `vmulh`,
/// `vmulhu`, `vmulhsu`, `vdivu`, `vdiv`, `vremu`, `vrem`).
#[derive(Clone, Copy, Debug, PartialEq, Eq, Structural)]
pub enum MulDivOp {
    Mul,
    Mulh,
    Mulhu,
    Mulhsu,
    Divu,
    Div,
    Remu,
    Rem,
}

/// Whether `op` is a high-half multiply.
pub open spec fn is_high_half(op: MulDivOp) -> bool {
    op == MulDivOp::Mulh || op == MulDivOp::Mulhu || op == MulDivOp::Mulhsu
}

/// Value of `op` on the element `a` of `vs2` and the operand `b`, both taken at SEW bits
/// (unsigned, or two's complement where the operation is signed); its low SEW bits are the
/// result. A zero divisor gives all ones for a quotient and the dividend for a remainder.
pub open spec fn muldiv_value(op: MulDivOp, a: u64, b: u64, sew: Vsew) -> int {
    let m = sew_modulus(sew) as int;
    let ua = (a as nat % sew_modulus(sew)) as int;
    let ub = (b as nat % sew_modulus(sew)) as int;
    let sa = signed_of(a as nat, sew);
    let sb = signed_of(b as nat, sew);
    match op {
        MulDivOp::Mul => a * b,
        MulDivOp::Mulh => (sa * sb) / m,
        MulDivOp::Mulhu => (ua * ub) / m,
        MulDivOp::Mulhsu => (sa * ub) / m,
        MulDivOp::Divu => if ub == 0 {
            m - 1
        } else {
            ua / ub
        },
        MulDivOp::Div => if sb == 0 {
            m - 1
        } else {
            div_trunc(sa, sb)
        },
        MulDivOp::Remu => if ub == 0 {
            ua
        } else {
            ua % ub
        },
        MulDivOp::Rem => if sb == 0 {
            ua
        } else {
            rem_trunc(sa, sb)
        },
    }
}

/// Reduction modulo `2^64` keeps the residue modulo `2^SEW`.
pub proof fn lemma_mod_word(x: int, sew: Vsew)
    ensures
        (x % 0x1_0000_0000_0000_0000) % (sew_modulus(sew) as int) == x % (sew_modulus(
            sew,
        ) as int),
{
    vstd::arithmetic::div_mod::lemma_fundamental_div_mod(x, 0x1_0000_0000_0000_0000);
    let k = x / 0x1_0000_0000_0000_0000;
    lemma_wrap_mod(x, x % 0x1_0000_0000_0000_0000, -k, sew);
}

/// Apply `op` to `a` and `b` at element width `sew`; the low SEW bits of the result are the
/// element result.
pub fn apply_muldiv(op: MulDivOp, a: u64, b: u64, sew: Vsew) -> (r: u64)
    ensures
        r as int % (sew_modulus(sew) as int) == muldiv_value(op, a, b, sew) % (sew_modulus(
            sew,
        ) as int),
{
    proof {
        lemma_sew_modulus_values(sew);
    }
    let m: Ghost<int> = Ghost(sew_modulus(sew) as int);
    match op {
        MulDivOp::Mul => {
            let r = a.wrapping_mul(b);
            proof {
                lemma_mod_word(a * b, sew);
            }
            r
        },
        MulDivOp::Mulh => mulh_ss(a, b, sew),
        MulDivOp::Mulhu => {
            let r = mulhu_uu(a, b, sew);
            proof {
                assert(r < m@) by (nonlinear_arith)
                    requires
                        r as int == ((a as nat % sew_modulus(sew)) * (b as nat % sew_modulus(sew)))
                            / sew_modulus(sew),
                        m@ == sew_modulus(sew),
                        m@ >= 1,
                        (a as nat % sew_modulus(sew)) < m@,
                        (b as nat % sew_modulus(sew)) < m@,
                ;
                vstd::arithmetic::div_mod::lemma_small_mod(r as nat, m@ as nat);
            }
            r
        },
        MulDivOp::Mulhsu => mulhsu_su(a, b, sew),
        MulDivOp::Divu => {
            let mask = sew_mask(sew);
            proof {
                lemma_and_mask(a, mask, sew);
                lemma_and_mask(b, mask, sew);
            }
            let dividend = a & mask;
            let divisor = b & mask;
            let r = match dividend.checked_div(divisor) {
                Some(q) => q,
                None => mask,
            };
            proof {
                if divisor != 0 {
                    assert(r <= dividend) by (nonlinear_arith)
                        requires
                            r == dividend / divisor,
                            divisor > 0,
                    ;
                    vstd::arithmetic::div_mod::lemma_small_mod(r as nat, m@ as nat);
                }
            }
            r
        },
        MulDivOp::Div => sdiv(a, b, sew),
        MulDivOp::Remu => {
            let mask = sew_mask(sew);
            proof {
                lemma_and_mask(a, mask, sew);
                lemma_and_mask(b, mask, sew);
            }
            let dividend = a & mask;
            let divisor = b & mask;
            let r = if divisor == 0 {
                dividend
            } else {
                dividend % divisor
            };
            proof {
                vstd::arithmetic::div_mod::lemma_small_mod(dividend as nat, m@ as nat);
                if divisor != 0 {
                    assert(r < divisor);
                    vstd::arithmetic::div_mod::lemma_small_mod(r as nat, m@ as nat);
                }
            }
            r
        },
        MulDivOp::Rem => {
            let r = srem(a, b, sew);
            proof {
                if signed_of(b as nat, sew) == 0 {
                    vstd::arithmetic::div_mod::lemma_mod_twice(a as int, m@);
                }
            }
            r
        },
    }
}

/// The element width `2 * SEW` of a widening result (for `SEW <= 32`).
pub open spec fn wide_sew(sew: Vsew) -> Vsew {
    match sew {
        Vsew::E8 => Vsew::E16,
        Vsew::E16 => Vsew::E32,
        _ => Vsew::E64,
    }
}

/// Element operation of a widening multiply instruction (`vwmulu`, `vwmulsu`, `vwmul`).
#[derive(Clone, Copy, Debug, PartialEq, Eq, Structural)]
pub enum WideningMulOp {
    Mulu,
    Mulsu,
    Mul,
}

/// Product of the element `a` of `vs2` and the operand `b` at SEW bits (both unsigned, `a`
/// signed and `b` unsigned, or both signed); its low `2 * SEW` bits are the result.
pub open spec fn widening_mul_value(op: WideningMulOp, a: u64, b: u64, sew: Vsew) -> int {
    let ua = (a as nat % sew_modulus(sew)) as int;
    let ub = (b as nat % sew_modulus(sew)) as int;
    let sa = signed_of(a as nat, sew);
    let sb = signed_of(b as nat, sew);
    match op {
        WideningMulOp::Mulu => ua * ub,
        WideningMulOp::Mulsu => sa * ub,
        WideningMulOp::Mul => sa * sb,
    }
}

/// A product formed from operands taken modulo `2^64` agrees with the exact product modulo
/// `2^(2 * SEW)`.
pub proof fn lemma_wrapped_product(x: int, y: int, xu: u64, yu: u64, sew: Vsew)
    requires
        xu as int == x || xu as int == x + 0x1_0000_0000_0000_0000,
        yu as int == y || yu as int == y + 0x1_0000_0000_0000_0000,
    ensures
        (xu.wrapping_mul(yu) as int) % (sew_modulus(sew) as int) == (x * y) % (sew_modulus(
            sew,
        ) as int),
{
    let big: int = 0x1_0000_0000_0000_0000;
    lemma_mod_word(xu * yu, sew);
    let kx: int = if xu as int == x {
        0
    } else {
        1
    };
    let ky: int = if yu as int == y {
        0
    } else {
        1
    };
    assert(xu * yu == x * y + (kx * y + ky * x + kx * ky * big) * big) by (nonlinear_arith)
        requires
            xu as int == x + kx * big,
            yu as int == y + ky * big,
    ;
    lemma_wrap_mod(x * y, xu * yu, kx * y + ky * x + kx * ky * big, sew);
}

/// Apply widening multiply `op` to `a` and `b` at element width `sew <= 32`; the low `2 * SEW`
/// bits of the result are the element result.
pub fn apply_widening_mul(op: WideningMulOp, a: u64, b: u64, sew: Vsew) -> (r: u64)
    requires
        sew.bytes() <= 4,
    ensures
        r as int % (sew_modulus(wide_sew(sew)) as int) == widening_mul_value(op, a, b, sew) % (
        sew_modulus(wide_sew(sew)) as int),
{
    proof {
        lemma_sew_modulus_values(sew);
        lemma_sew_modulus_values(wide_sew(sew));
    }
    let mask = sew_mask(sew);
    proof {
        lemma_and_mask(a, mask, sew);
        lemma_and_mask(b, mask, sew);
    }
    match op {
        WideningMulOp::Mulu => {
            let r = (a & mask).wrapping_mul(b & mask);
            proof {
                lemma_wrapped_product(
                    (a & mask) as int,
                    (b & mask) as int,
                    a & mask,
                    b & mask,
                    wide_sew(sew),
                );
            }
            r
        },
        WideningMulOp::Mulsu => {
            let sa = sign_extend(a, sew);
            let ub = b & mask;
            let sau = sa as u64;
            proof {
                crate::arith_instructions::lemma_i64_as_u64(sa);
                lemma_wrapped_product(sa as int, ub as int, sau, ub, wide_sew(sew));
            }
            sau.wrapping_mul(ub)
        },
        WideningMulOp::Mul => {
            let sa = sign_extend(a, sew);
            let sb = sign_extend(b, sew);
            let sau = sa as u64;
            let sbu = sb as u64;
            proof {
                crate::arith_instructions::lemma_i64_as_u64(sa);
                crate::arith_instructions::lemma_i64_as_u64(sb);
                lemma_wrapped_product(sa as int, sb as int, sau, sbu, wide_sew(sew));
            }
            sau.wrapping_mul(sbu)
        },
    }
}

/// Element operation of a single-width multiply-add instruction (`vmacc`, `vnmsac`, `vmadd`,
/// `vnmsub`).
#[derive(Clone, Copy, Debug, PartialEq, Eq, Structural)]
pub enum MulAddOp {
    Macc,
    Nmsac,
    Madd,
    Nmsub,
}

/// Value of `op` on the destination element `acc`, the multiplier `a` (element of `vs1` or the
/// scalar) and the element `b` of `vs2`; its low SEW bits are the result.
pub open spec fn muladd_value(op: MulAddOp, acc: u64, a: u64, b: u64) -> int {
    match op {
        MulAddOp::Macc => acc + a * b,
        MulAddOp::Nmsac => acc - a * b,
        MulAddOp::Madd => a * acc + b,
        MulAddOp::Nmsub => b - a * acc,
    }
}

/// Apply multiply-add `op`; the low SEW bits of the result are the element result.
pub fn apply_muladd(op: MulAddOp, acc: u64, a: u64, b: u64, sew: Vsew) -> (r: u64)
    ensures
        r as int % (sew_modulus(sew) as int) == muladd_value(op, acc, a, b) % (sew_modulus(
            sew,
        ) as int),
{
    let big: Ghost<int> = Ghost(0x1_0000_0000_0000_0000int);
    match op {
        MulAddOp::Macc => {
            let p = a.wrapping_mul(b);
            let r = acc.wrapping_add(p);
            proof {
                let kp = (a * b) / big@;
                vstd::arithmetic::div_mod::lemma_fundamental_div_mod(a * b, big@);
                let kr: int = if acc + p > u64::MAX {
                    1
                } else {
                    0
                };
                assert(r == acc + a * b - (kp + kr) * big@) by (nonlinear_arith)
                    requires
                        p as int == (a * b) % big@,
                        a * b == big@ * kp + (a * b) % big@,
                        r as int == acc + p - kr * big@,
                ;
                lemma_wrap_mod(acc + a * b, r as int, -(kp + kr), sew);
            }
            r
        },
        MulAddOp::Nmsac => {
            let p = a.wrapping_mul(b);
            let r = acc.wrapping_sub(p);
            proof {
                let kp = (a * b) / big@;
                vstd::arithmetic::div_mod::lemma_fundamental_div_mod(a * b, big@);
                let kr: int = if acc - p < 0 {
                    1
                } else {
                    0
                };
                assert(r == acc - a * b + (kp + kr) * big@) by (nonlinear_arith)
                    requires
                        p as int == (a * b) % big@,
                        a * b == big@ * kp + (a * b) % big@,
                        r as int == acc - p + kr * big@,
                ;
                lemma_wrap_mod(acc - a * b, r as int, kp + kr, sew);
            }
            r
        },
        MulAddOp::Madd => {
            let p = a.wrapping_mul(acc);
            let r = p.wrapping_add(b);
            proof {
                let kp = (a * acc) / big@;
                vstd::arithmetic::div_mod::lemma_fundamental_div_mod(a * acc, big@);
                let kr: int = if p + b > u64::MAX {
                    1
                } else {
                    0
                };
                assert(r == a * acc + b - (kp + kr) * big@) by (nonlinear_arith)
                    requires
                        p as int == (a * acc) % big@,
                        a * acc == big@ * kp + (a * acc) % big@,
                        r as int == p + b - kr * big@,
                ;
                lemma_wrap_mod(a * acc + b, r as int, -(kp + kr), sew);
            }
            r
        },
        MulAddOp::Nmsub => {
            let p = a.wrapping_mul(acc);
            let r = b.wrapping_sub(p);
            proof {
                let kp = (a * acc) / big@;
                vstd::arithmetic::div_mod::lemma_fundamental_div_mod(a * acc, big@);
                let kr: int = if b - p < 0 {
                    1
                } else {
                    0
                };
                assert(r == b - a * acc + (kp + kr) * big@) by (nonlinear_arith)
                    requires
                        p as int == (a * acc) % big@,
                        a * acc == big@ * kp + (a * acc) % big@,
                        r as int == b - p + kr * big@,
                ;
                lemma_wrap_mod(b - a * acc, r as int, kp + kr, sew);
            }
            r
        },
    }
}

/// Element operation of a widening multiply-add instruction (`vwmaccu`, `vwmacc`, `vwmaccsu`,
/// `vwmaccus`).
#[derive(Clone, Copy, Debug, PartialEq, Eq, Structural)]
pub enum WideningMulAddOp {
    Maccu,
    Macc,
    Maccsu,
    Maccus,
}

/// The `2 * SEW` wide destination element `acc` plus the product of the multiplier `a`
/// (element of `vs1` or the scalar) and the element `b` of `vs2`, taken at SEW bits unsigned
/// or signed as `op` says (`Maccsu`: `a` signed, `b` unsigned; `Maccus`: `a` unsigned, `b`
/// signed); its low `2 * SEW` bits are the result.
pub open spec fn widening_muladd_value(op: WideningMulAddOp, acc: u64, a: u64, b: u64, sew: Vsew) -> int {
    let ua = (a as nat % sew_modulus(sew)) as int;
    let ub = (b as nat % sew_modulus(sew)) as int;
    let sa = signed_of(a as nat, sew);
    let sb = signed_of(b as nat, sew);
    match op {
        WideningMulAddOp::Maccu => acc + ua * ub,
        WideningMulAddOp::Macc => acc + sa * sb,
        WideningMulAddOp::Maccsu => acc + sa * ub,
        WideningMulAddOp::Maccus => acc + ua * sb,
    }
}

/// Apply widening multiply-add `op` at element width `sew <= 32`; the low `2 * SEW` bits of
/// the result are the element result.
pub fn apply_widening_muladd(op: WideningMulAddOp, acc: u64, a: u64, b: u64, sew: Vsew) -> (r: u64)
    requires
        sew.bytes() <= 4,
    ensures
        r as int % (sew_modulus(wide_sew(sew)) as int) == widening_muladd_value(op, acc, a, b, sew)
            % (sew_modulus(wide_sew(sew)) as int),
{
    let product = match op {
        WideningMulAddOp::Maccu => apply_widening_mul(WideningMulOp::Mulu, a, b, sew),
        WideningMulAddOp::Macc => apply_widening_mul(WideningMulOp::Mul, a, b, sew),
        WideningMulAddOp::Maccsu => apply_widening_mul(WideningMulOp::Mulsu, a, b, sew),
        WideningMulAddOp::Maccus => apply_widening_mul(WideningMulOp::Mulsu, b, a, sew),
    };
    let r = acc.wrapping_add(product);
    proof {
        let wsew = wide_sew(sew);
        let m2 = sew_modulus(wsew) as int;
        lemma_sew_modulus_values(wsew);
        let pv: int = match op {
            WideningMulAddOp::Maccu => widening_mul_value(WideningMulOp::Mulu, a, b, sew),
            WideningMulAddOp::Macc => widening_mul_value(WideningMulOp::Mul, a, b, sew),
            WideningMulAddOp::Maccsu => widening_mul_value(WideningMulOp::Mulsu, a, b, sew),
            WideningMulAddOp::Maccus => widening_mul_value(WideningMulOp::Mulsu, b, a, sew),
        };
        assert(product as int % m2 == pv % m2);
        assert(acc + pv == widening_muladd_value(op, acc, a, b, sew)) by (nonlinear_arith)
            requires
                op == WideningMulAddOp::Maccus ==> pv == signed_of(b as nat, sew) * (
                (a as nat % sew_modulus(sew)) as int),
                op != WideningMulAddOp::Maccus ==> acc + pv == widening_muladd_value(
                    op,
                    acc,
                    a,
                    b,
                    sew,
                ),
                op == WideningMulAddOp::Maccus ==> widening_muladd_value(op, acc, a, b, sew) == acc
                    + (a as nat % sew_modulus(sew)) as int * signed_of(b as nat, sew),
        ;
        let kr: int = if acc + product > u64::MAX {
            1
        } else {
            0
        };
        assert(r as int == acc + product - kr * 0x1_0000_0000_0000_0000);
        lemma_wrap_mod(acc + product, r as int, -kr, wsew);
        vstd::arithmetic::div_mod::lemma_add_mod_noop(acc as int, product as int, m2);
        vstd::arithmetic::div_mod::lemma_add_mod_noop(acc as int, pv, m2);
    }
    r
}

/// A single-width multiply or divide instruction is legal in `s`: as `int_instruction_legal`
/// asks, and a high-half multiply at SEW = 64 only where the full vector extension is
/// implemented (`full_v`).
pub open spec fn muldiv_instruction_legal(
    s: VectorState,
    op: MulDivOp,
    vd: VReg,
    vs2: VReg,
    operand: Operand,
    vm: bool,
    full_v: bool,
) -> bool {
    &&& int_instruction_legal(s, vd, vs2, operand, vm)
    &&& !(is_high_half(op) && !full_v && s.vtype->Some_0.vsew == Vsew::E64)
}

/// Element `i` of `vd` after a single-width multiply or divide instruction.
pub open spec fn muldiv_element_post(
    old: VectorState,
    new: VectorState,
    op: MulDivOp,
    vd: VReg,
    vs2: VReg,
    src: OpSrc,
    vm: bool,
    sew: Vsew,
    i: nat,
) -> bool {
    let w = sew.bytes();
    let a = element(old.regs@, old.vlenb(), vs2.index(), i, w);
    let b = src_value(old, src, i, w);
    let d = element(new.regs@, old.vlenb(), vd.index(), i, w);
    if old.is_active(vm, i) {
        d == muldiv_value(op, a as u64, b as u64, sew) % (sew_modulus(sew) as int)
    } else {
        d == element(old.regs@, old.vlenb(), vd.index(), i, w)
    }
}

/// Execute a single-width multiply or divide instruction (`vmul`, `vmulh`, `vmulhu`, `vmulhsu`,
/// `vdivu`, `vdiv`, `vremu`, `vrem` in their `.vv` and `.vx` forms): an illegal instruction,
/// leaving the state as it is, unless `muldiv_instruction_legal`; then each active element `i`
/// of `vd` becomes the low SEW bits of `muldiv_value` on `vs2[i]` and `operand[i]`, inactive and
/// tail elements are left undisturbed, the state is marked dirty and `vstart` reset.
pub fn execute_muldiv_instruction(
    state: &mut VectorState,
    old_pc: u64,
    op: MulDivOp,
    vd: VReg,
    vs2: VReg,
    operand: Operand,
    vm: bool,
    full_v: bool,
) -> (r: Result<(), ExecutionError>)
    requires
        old(state).wf(),
    ensures
        final(state).wf(),
        !muldiv_instruction_legal(*old(state), op, vd, vs2, operand, vm, full_v) ==> r == Err::<
            (),
            ExecutionError,
        >(ExecutionError::IllegalInstruction { address: old_pc }) && *final(state) == *old(state),
        muldiv_instruction_legal(*old(state), op, vd, vs2, operand, vm, full_v) ==> {
            let s = *old(state);
            let sew = s.vtype->Some_0.vsew;
            &&& r == Ok::<(), ExecutionError>(())
            &&& final(state).same_config(s)
            &&& final(state).vs_dirty
            &&& final(state).vstart == 0
            &&& unchanged_outside(
                s.regs@,
                final(state).regs@,
                (vd.index() * s.vlenb()) as int,
                (vd.index() * s.vlenb() + s.vl * sew.bytes()) as int,
            )
            &&& forall|i: nat|
                i < s.vl ==> #[trigger] muldiv_element_post(
                    s,
                    *final(state),
                    op,
                    vd,
                    vs2,
                    operand_src(operand),
                    vm,
                    sew,
                    i,
                )
        },
{
    if !state.vector_allowed {
        return Err(ExecutionError::IllegalInstruction { address: old_pc });
    }
    let vtype = match state.vtype {
        Some(vt) => vt,
        None => {
            return Err(ExecutionError::IllegalInstruction { address: old_pc });
        },
    };
    let high_half = match op {
        MulDivOp::Mulh | MulDivOp::Mulhu | MulDivOp::Mulhsu => true,
        _ => false,
    };
    if high_half && !full_v && vtype.vsew == Vsew::E64 {
        return Err(ExecutionError::IllegalInstruction { address: old_pc });
    }
    let group_regs = vtype.vlmul.register_count();
    match check_vreg_group_alignment(old_pc, vd, group_regs) {
        Ok(()) => {},
        Err(e) => {
            return Err(e);
        },
    }
    match check_vreg_group_alignment(old_pc, vs2, group_regs) {
        Ok(()) => {},
        Err(e) => {
            return Err(e);
        },
    }
    if let Operand::Vector(vs1) = operand {
        match check_vreg_group_alignment(old_pc, vs1, group_regs) {
            Ok(()) => {},
            Err(e) => {
                return Err(e);
            },
        }
    }
    if !vm && vd.to_bits() == 0 {
        return Err(ExecutionError::IllegalInstruction { address: old_pc });
    }
    let sew = vtype.vsew;
    let src = operand_source(operand);
    let ghost s0 = *state;
    proof {
        lemma_sew_group_fits(s0, vtype, vd);
        lemma_sew_group_fits(s0, vtype, vs2);
        lemma_sew_groups_same_or_disjoint(s0, vtype, vd, vs2);
        if let Operand::Vector(vs1) = operand {
            lemma_sew_group_fits(s0, vtype, vs1);
            lemma_sew_groups_same_or_disjoint(s0, vtype, vd, vs1);
        }
    }
    let alu = |a: u64, b: u64, sew: Vsew| -> (r: u64)
        ensures
            r as int % (sew_modulus(sew) as int) == muldiv_value(op, a, b, sew) % (sew_modulus(
                sew,
            ) as int),
        { apply_muldiv(op, a, b, sew) };
    execute_arith_op(state, vd, vs2, src, vm, sew, alu);
    proof {
        assert forall|i: nat| i < s0.vl implies #[trigger] muldiv_element_post(
            s0,
            *state,
            op,
            vd,
            vs2,
            src,
            vm,
            sew,
            i,
        ) by {
            assert(binop_element_post(s0, *state, vd, vs2, src, vm, sew, alu, i));
        }
    }
    Ok(())
}

/// A narrower source group `[vs, vs + src)` may overlap the wider destination group
/// `[vd, vd + dest)` of a widening instruction only as its highest-numbered part, and only when
/// the source `LMUL` is at least one (`dest > src`).
pub open spec fn widening_overlap_ok(vd: VReg, vs: VReg, dest: nat, src: nat) -> bool {
    ||| vs.index() >= vd.index() + dest
    ||| vd.index() >= vs.index() + src
    ||| (dest > src && vs.index() + src == vd.index() + dest)
}

/// A widening instruction writing `vd` from the sources `vs2` and `operand` is legal in `s`:
/// vector instructions are allowed, `vtype` is legal, `2 * SEW <= ELEN`, `2 * LMUL <= 8`, `vd` is
/// aligned to its `max(1, 2 * LMUL)` registers and the sources to `LMUL` registers, a masked
/// instruction does not write `v0`, and each source group overlaps the destination at most as
/// `widening_overlap_ok` allows.
pub open spec fn widening_instruction_legal(
    s: VectorState,
    vd: VReg,
    vs2: VReg,
    operand: Operand,
    vm: bool,
) -> bool {
    &&& s.vector_allowed
    &&& s.vtype matches Some(vt) && {
        let g = vt.vlmul.regs();
        &&& 2 * vt.vsew.bits() <= s.elen
        &&& widened_regs(vt.vlmul) matches Some(dest) && {
            &&& aligned(vd, dest)
            &&& aligned(vs2, g)
            &&& (operand matches Operand::Vector(r) ==> aligned(r, g))
            &&& (vm || vd.index() != 0)
            &&& widening_overlap_ok(vd, vs2, dest, g)
            &&& (operand matches Operand::Vector(r) ==> widening_overlap_ok(vd, r, dest, g))
        }
    }
}

/// A source group allowed next to a widening destination holds its elements apart from the
/// destination elements not yet written when they are read.
pub proof fn lemma_wide_src_ok(s: VectorState, vt: Vtype, vd: VReg, r: VReg, dest: nat)
    requires
        s.wf(),
        s.vtype == Some(vt),
        vt.vsew.bits() <= 32,
        widened_regs(vt.vlmul) == Some(dest),
        aligned(vd, dest),
        aligned(r, vt.vlmul.regs()),
        widening_overlap_ok(vd, r, dest, vt.vlmul.regs()),
    ensures
        wide_src_ok(s, vd, OpSrc::Vreg(r), vt.vsew.bytes()),
        vd.index() * s.vlenb() + s.vl * (2 * vt.vsew.bytes()) <= 32 * s.vlenb(),
{
    let g = vt.vlmul.regs();
    let l = s.vlenb();
    let w = vt.vsew.bytes();
    lemma_widened_group(s, vt);
    lemma_sew_group_fits(s, vt, r);
    assert(s.vl * w <= s.vl * (2 * w)) by (nonlinear_arith);
    assert(vd.index() * l + dest * l <= 32 * l) by (nonlinear_arith)
        requires
            vd.index() + dest <= 32,
    ;
    if r.index() >= vd.index() + dest {
        assert(vd.index() * l + dest * l <= r.index() * l) by (nonlinear_arith)
            requires
                r.index() >= vd.index() + dest,
        ;
    } else if vd.index() >= r.index() + g {
        assert(r.index() * l + g * l <= vd.index() * l) by (nonlinear_arith)
            requires
                vd.index() >= r.index() + g,
        ;
    } else {
        assert(dest == 2 * g);
        assert(vd.index() * l + g * l == r.index() * l) by (nonlinear_arith)
            requires
                r.index() == vd.index() + g,
        ;
    }
}

/// Element `i` of the `2 * SEW` wide `vd` after a widening multiply instruction.
pub open spec fn widening_element_post(
    old: VectorState,
    new: VectorState,
    op: WideningMulOp,
    vd: VReg,
    vs2: VReg,
    src: OpSrc,
    vm: bool,
    sew: Vsew,
    i: nat,
) -> bool {
    let w = sew.bytes();
    let a = element(old.regs@, old.vlenb(), vs2.index(), i, w);
    let b = src_value(old, src, i, w);
    let d = element(new.regs@, old.vlenb(), vd.index(), i, 2 * w);
    if old.is_active(vm, i) {
        d == widening_mul_value(op, a as u64, b as u64, sew) % (sew_modulus(wide_sew(sew)) as int)
    } else {
        d == element(old.regs@, old.vlenb(), vd.index(), i, 2 * w)
    }
}

/// Execute a widening multiply instruction (`vwmulu`, `vwmulsu`, `vwmul` in their `.vv` and
/// `.vx` forms): an illegal instruction, leaving the state as it is, unless
/// `widening_instruction_legal`; then each active `2 * SEW` wide element `i` of `vd` becomes the
/// low `2 * SEW` bits of the product of `vs2[i]` and `operand[i]`, inactive and tail elements are
/// left undisturbed, the state is marked dirty and `vstart` reset.
pub fn execute_widening_mul_instruction(
    state: &mut VectorState,
    old_pc: u64,
    op: WideningMulOp,
    vd: VReg,
    vs2: VReg,
    operand: Operand,
    vm: bool,
) -> (r: Result<(), ExecutionError>)
    requires
        old(state).wf(),
    ensures
        final(state).wf(),
        !widening_instruction_legal(*old(state), vd, vs2, operand, vm) ==> r == Err::<
            (),
            ExecutionError,
        >(ExecutionError::IllegalInstruction { address: old_pc }) && *final(state) == *old(state),
        widening_instruction_legal(*old(state), vd, vs2, operand, vm) ==> {
            let s = *old(state);
            let sew = s.vtype->Some_0.vsew;
            &&& r == Ok::<(), ExecutionError>(())
            &&& final(state).same_config(s)
            &&& final(state).vs_dirty
            &&& final(state).vstart == 0
            &&& unchanged_outside(
                s.regs@,
                final(state).regs@,
                (vd.index() * s.vlenb()) as int,
                (vd.index() * s.vlenb() + s.vl * (2 * sew.bytes())) as int,
            )
            &&& forall|i: nat|
                i < s.vl ==> #[trigger] widening_element_post(
                    s,
                    *final(state),
                    op,
                    vd,
                    vs2,
                    operand_src(operand),
                    vm,
                    sew,
                    i,
                )
        },
{
    if !state.vector_allowed {
        return Err(ExecutionError::IllegalInstruction { address: old_pc });
    }
    let vtype = match state.vtype {
        Some(vt) => vt,
        None => {
            return Err(ExecutionError::IllegalInstruction { address: old_pc });
        },
    };
    if !widening_eew_supported(vtype.vsew, state.elen) {
        return Err(ExecutionError::IllegalInstruction { address: old_pc });
    }
    let group_regs = vtype.vlmul.register_count();
    let dest_group_regs = match widening_dest_register_count(vtype.vlmul) {
        Some(n) => n,
        None => {
            return Err(ExecutionError::IllegalInstruction { address: old_pc });
        },
    };
    proof {
        crate::laws::lemma_widened_regs(vtype.vlmul);
    }
    match check_vreg_group_alignment(old_pc, vd, dest_group_regs) {
        Ok(()) => {},
        Err(e) => {
            return Err(e);
        },
    }
    match check_vreg_group_alignment(old_pc, vs2, group_regs) {
        Ok(()) => {},
        Err(e) => {
            return Err(e);
        },
    }
    if let Operand::Vector(vs1) = operand {
        match check_vreg_group_alignment(old_pc, vs1, group_regs) {
            Ok(()) => {},
            Err(e) => {
                return Err(e);
            },
        }
    }
    if !vm && vd.to_bits() == 0 {
        return Err(ExecutionError::IllegalInstruction { address: old_pc });
    }
    match check_no_widening_overlap(old_pc, vd, vs2, dest_group_regs, group_regs) {
        Ok(()) => {},
        Err(e) => {
            return Err(e);
        },
    }
    if let Operand::Vector(vs1) = operand {
        match check_no_widening_overlap(old_pc, vd, vs1, dest_group_regs, group_regs) {
            Ok(()) => {},
            Err(e) => {
                return Err(e);
            },
        }
    }
    let sew = vtype.vsew;
    let src = operand_source(operand);
    let ghost s0 = *state;
    proof {
        assert(sew.bits() <= 32);
        lemma_wide_src_ok(s0, vtype, vd, vs2, dest_group_regs as nat);
        if let Operand::Vector(vs1) = operand {
            lemma_wide_src_ok(s0, vtype, vd, vs1, dest_group_regs as nat);
        }
        lemma_sew_modulus_values(sew);
        lemma_sew_modulus_values(wide_sew(sew));
        assert(byte_scale(2 * sew.bytes()) == sew_modulus(wide_sew(sew)));
    }
    let alu = |a: u64, b: u64, sew: Vsew| -> (r: u64)
        requires
            sew.bytes() <= 4,
        ensures
            r as int % (sew_modulus(wide_sew(sew)) as int) == widening_mul_value(op, a, b, sew) % (
            sew_modulus(wide_sew(sew)) as int),
        { apply_widening_mul(op, a, b, sew) };
    execute_widening_op(state, vd, vs2, src, vm, sew, alu);
    proof {
        assert forall|i: nat| i < s0.vl implies #[trigger] widening_element_post(
            s0,
            *state,
            op,
            vd,
            vs2,
            src,
            vm,
            sew,
            i,
        ) by {
            assert(widen_post(s0, *state, vd, vs2, src, vm, sew, alu, i));
        }
    }
    Ok(())
}

/// The operand a multiplier source stands for in the legality conditions: a register group,
/// or a scalar.
pub open spec fn multiplier_operand(multiplier: OpSrc) -> Operand {
    match multiplier {
        OpSrc::Vreg(r) => Operand::Vector(r),
        OpSrc::Scalar(x) => Operand::Scalar(x),
    }
}

/// Element `i` of `vd` after a single-width multiply-add instruction.
pub open spec fn muladd_element_post(
    old: VectorState,
    new: VectorState,
    op: MulAddOp,
    vd: VReg,
    multiplier: OpSrc,
    vs2: VReg,
    vm: bool,
    sew: Vsew,
    i: nat,
) -> bool {
    let w = sew.bytes();
    let acc = element(old.regs@, old.vlenb(), vd.index(), i, w);
    let a = src_value(old, multiplier, i, w);
    let b = element(old.regs@, old.vlenb(), vs2.index(), i, w);
    let d = element(new.regs@, old.vlenb(), vd.index(), i, w);
    if old.is_active(vm, i) {
        d == muladd_value(op, acc as u64, a as u64, b as u64) % (sew_modulus(sew) as int)
    } else {
        d == element(old.regs@, old.vlenb(), vd.index(), i, w)
    }
}

/// Execute a single-width multiply-add instruction (`vmacc`, `vnmsac`, `vmadd`, `vnmsub` in
/// their `.vv` and `.vx` forms, the multiplier being `vs1` or the scalar): an illegal
/// instruction, leaving the state as it is, unless `int_instruction_legal` holds for the
/// multiplier as the operand; then each active element `i` of `vd` becomes the low SEW bits of
/// `muladd_value` on `vd[i]`, the multiplier and `vs2[i]`, inactive and tail elements are left
/// undisturbed, the state is marked dirty and `vstart` reset.
pub fn execute_muladd_instruction(
    state: &mut VectorState,
    old_pc: u64,
    op: MulAddOp,
    vd: VReg,
    multiplier: OpSrc,
    vs2: VReg,
    vm: bool,
) -> (r: Result<(), ExecutionError>)
    requires
        old(state).wf(),
    ensures
        final(state).wf(),
        !int_instruction_legal(*old(state), vd, vs2, multiplier_operand(multiplier), vm) ==> r
            == Err::<(), ExecutionError>(ExecutionError::IllegalInstruction { address: old_pc })
            && *final(state) == *old(state),
        int_instruction_legal(*old(state), vd, vs2, multiplier_operand(multiplier), vm) ==> {
            let s = *old(state);
            let sew = s.vtype->Some_0.vsew;
            &&& r == Ok::<(), ExecutionError>(())
            &&& final(state).same_config(s)
            &&& final(state).vs_dirty
            &&& final(state).vstart == 0
            &&& unchanged_outside(
                s.regs@,
                final(state).regs@,
                (vd.index() * s.vlenb()) as int,
                (vd.index() * s.vlenb() + s.vl * sew.bytes()) as int,
            )
            &&& forall|i: nat|
                i < s.vl ==> #[trigger] muladd_element_post(
                    s,
                    *final(state),
                    op,
                    vd,
                    multiplier,
                    vs2,
                    vm,
                    sew,
                    i,
                )
        },
{
    if !state.vector_allowed {
        return Err(ExecutionError::IllegalInstruction { address: old_pc });
    }
    let vtype = match state.vtype {
        Some(vt) => vt,
        None => {
            return Err(ExecutionError::IllegalInstruction { address: old_pc });
        },
    };
    let group_regs = vtype.vlmul.register_count();
    match check_vreg_group_alignment(old_pc, vd, group_regs) {
        Ok(()) => {},
        Err(e) => {
            return Err(e);
        },
    }
    match check_vreg_group_alignment(old_pc, vs2, group_regs) {
        Ok(()) => {},
        Err(e) => {
            return Err(e);
        },
    }
    if let OpSrc::Vreg(vs1) = multiplier {
        match check_vreg_group_alignment(old_pc, vs1, group_regs) {
            Ok(()) => {},
            Err(e) => {
                return Err(e);
            },
        }
    }
    if !vm && vd.to_bits() == 0 {
        return Err(ExecutionError::IllegalInstruction { address: old_pc });
    }
    let sew = vtype.vsew;
    let ghost s0 = *state;
    proof {
        lemma_sew_group_fits(s0, vtype, vd);
        lemma_sew_group_fits(s0, vtype, vs2);
        lemma_sew_groups_same_or_disjoint(s0, vtype, vd, vs2);
        if let OpSrc::Vreg(vs1) = multiplier {
            lemma_sew_group_fits(s0, vtype, vs1);
            lemma_sew_groups_same_or_disjoint(s0, vtype, vd, vs1);
        }
        lemma_sew_modulus_values(sew);
        assert(byte_scale(sew.bytes()) == sew_modulus(sew));
    }
    let alu = |acc: u64, a: u64, b: u64, sew: Vsew| -> (r: u64)
        ensures
            r as int % (sew_modulus(sew) as int) == muladd_value(op, acc, a, b) % (sew_modulus(
                sew,
            ) as int),
        { apply_muladd(op, acc, a, b, sew) };
    match multiplier {
        OpSrc::Vreg(vs1) => execute_muladd_op(state, vd, vs1, OpSrc::Vreg(vs2), vm, sew, alu),
        OpSrc::Scalar(x) => execute_muladd_scalar_op(state, vd, x, OpSrc::Vreg(vs2), vm, sew, alu),
    }
    proof {
        assert forall|i: nat| i < s0.vl implies #[trigger] muladd_element_post(
            s0,
            *state,
            op,
            vd,
            multiplier,
            vs2,
            vm,
            sew,
            i,
        ) by {
            assert(muladd_post(s0, *state, vd, multiplier, OpSrc::Vreg(vs2), vm, sew, alu, false, i));
        }
    }
    Ok(())
}

/// Element `i` of the `2 * SEW` wide `vd` after a widening multiply-add instruction.
pub open spec fn widening_muladd_element_post(
    old: VectorState,
    new: VectorState,
    op: WideningMulAddOp,
    vd: VReg,
    multiplier: OpSrc,
    vs2: VReg,
    vm: bool,
    sew: Vsew,
    i: nat,
) -> bool {
    let w = sew.bytes();
    let acc = element(old.regs@, old.vlenb(), vd.index(), i, 2 * w);
    let a = src_value(old, multiplier, i, w);
    let b = element(old.regs@, old.vlenb(), vs2.index(), i, w);
    let d = element(new.regs@, old.vlenb(), vd.index(), i, 2 * w);
    if old.is_active(vm, i) {
        d == widening_muladd_value(op, acc as u64, a as u64, b as u64, sew) % (sew_modulus(
            wide_sew(sew),
        ) as int)
    } else {
        d == element(old.regs@, old.vlenb(), vd.index(), i, 2 * w)
    }
}

/// Execute a widening multiply-add instruction (`vwmaccu`, `vwmacc`, `vwmaccsu` in their `.vv`
/// and `.vx` forms and `vwmaccus.vx`, the multiplier being `vs1` or the scalar): an illegal
/// instruction, leaving the state as it is, unless `widening_instruction_legal` holds for the
/// multiplier as the operand; then each active `2 * SEW` wide element `i` of `vd` becomes the
/// low `2 * SEW` bits of `widening_muladd_value` on `vd[i]`, the multiplier and `vs2[i]`,
/// inactive and tail elements are left undisturbed, the state is marked dirty and `vstart`
/// reset.
pub fn execute_widening_muladd_instruction(
    state: &mut VectorState,
    old_pc: u64,
    op: WideningMulAddOp,
    vd: VReg,
    multiplier: OpSrc,
    vs2: VReg,
    vm: bool,
) -> (r: Result<(), ExecutionError>)
    requires
        old(state).wf(),
    ensures
        final(state).wf(),
        !widening_instruction_legal(*old(state), vd, vs2, multiplier_operand(multiplier), vm)
            ==> r == Err::<(), ExecutionError>(ExecutionError::IllegalInstruction { address: old_pc })
            && *final(state) == *old(state),
        widening_instruction_legal(*old(state), vd, vs2, multiplier_operand(multiplier), vm) ==> {
            let s = *old(state);
            let sew = s.vtype->Some_0.vsew;
            &&& r == Ok::<(), ExecutionError>(())
            &&& final(state).same_config(s)
            &&& final(state).vs_dirty
            &&& final(state).vstart == 0
            &&& unchanged_outside(
                s.regs@,
                final(state).regs@,
                (vd.index() * s.vlenb()) as int,
                (vd.index() * s.vlenb() + s.vl * (2 * sew.bytes())) as int,
            )
            &&& forall|i: nat|
                i < s.vl ==> #[trigger] widening_muladd_element_post(
                    s,
                    *final(state),
                    op,
                    vd,
                    multiplier,
                    vs2,
                    vm,
                    sew,
                    i,
                )
        },
{
    if !state.vector_allowed {
        return Err(ExecutionError::IllegalInstruction { address: old_pc });
    }
    let vtype = match state.vtype {
        Some(vt) => vt,
        None => {
            return Err(ExecutionError::IllegalInstruction { address: old_pc });
        },
    };
    if !widening_eew_supported(vtype.vsew, state.elen) {
        return Err(ExecutionError::IllegalInstruction { address: old_pc });
    }
    let group_regs = vtype.vlmul.register_count();
    let dest_group_regs = match widening_dest_register_count(vtype.vlmul) {
        Some(n) => n,
        None => {
            return Err(ExecutionError::IllegalInstruction { address: old_pc });
        },
    };
    proof {
        crate::laws::lemma_widened_regs(vtype.vlmul);
    }
    match check_vreg_group_alignment(old_pc, vd, dest_group_regs) {
        Ok(()) => {},
        Err(e) => {
            return Err(e);
        },
    }
    match check_vreg_group_alignment(old_pc, vs2, group_regs) {
        Ok(()) => {},
        Err(e) => {
            return Err(e);
        },
    }
    if let OpSrc::Vreg(vs1) = multiplier {
        match check_vreg_group_alignment(old_pc, vs1, group_regs) {
            Ok(()) => {},
            Err(e) => {
                return Err(e);
            },
        }
    }
    if !vm && vd.to_bits() == 0 {
        return Err(ExecutionError::IllegalInstruction { address: old_pc });
    }
    match check_no_widening_overlap(old_pc, vd, vs2, dest_group_regs, group_regs) {
        Ok(()) => {},
        Err(e) => {
            return Err(e);
        },
    }
    if let OpSrc::Vreg(vs1) = multiplier {
        match check_no_widening_overlap(old_pc, vd, vs1, dest_group_regs, group_regs) {
            Ok(()) => {},
            Err(e) => {
                return Err(e);
            },
        }
    }
    let sew = vtype.vsew;
    let ghost s0 = *state;
    proof {
        assert(sew.bits() <= 32);
        lemma_wide_src_ok(s0, vtype, vd, vs2, dest_group_regs as nat);
        if let OpSrc::Vreg(vs1) = multiplier {
            lemma_wide_src_ok(s0, vtype, vd, vs1, dest_group_regs as nat);
        }
        lemma_sew_modulus_values(sew);
        lemma_sew_modulus_values(wide_sew(sew));
        assert(byte_scale(2 * sew.bytes()) == sew_modulus(wide_sew(sew)));
    }
    let alu = |acc: u64, a: u64, b: u64, sew: Vsew| -> (r: u64)
        requires
            sew.bytes() <= 4,
        ensures
            r as int % (sew_modulus(wide_sew(sew)) as int) == widening_muladd_value(
                op,
                acc,
                a,
                b,
                sew,
            ) % (sew_modulus(wide_sew(sew)) as int),
        { apply_widening_muladd(op, acc, a, b, sew) };
    match multiplier {
        OpSrc::Vreg(vs1) => execute_widening_muladd_op(
            state,
            vd,
            vs1,
            OpSrc::Vreg(vs2),
            vm,
            sew,
            alu,
        ),
        OpSrc::Scalar(x) => execute_widening_muladd_scalar_op(
            state,
            vd,
            x,
            OpSrc::Vreg(vs2),
            vm,
            sew,
            alu,
        ),
    }
    proof {
        assert forall|i: nat| i < s0.vl implies #[trigger] widening_muladd_element_post(
            s0,
            *state,
            op,
            vd,
            multiplier,
            vs2,
            vm,
            sew,
            i,
        ) by {
            assert(muladd_post(s0, *state, vd, multiplier, OpSrc::Vreg(vs2), vm, sew, alu, true, i));
        }
    }
    Ok(())
}

} // verus!
