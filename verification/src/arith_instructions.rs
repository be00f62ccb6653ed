//! Single-width integer arithmetic and compare instructions: the element operations and the
//! legality checks an instruction goes through before its operation runs.

use vstd::prelude::*;
use crate::arith::{
    binop_element_post, check_mask_dest_overlap, check_vreg_group_alignment, compare_bit_post,
    execute_arith_op, execute_compare_op, lemma_sew_modulus_values, mask_dest_ok, sew_mask,
    sew_modulus, sign_extend, signed_of, src_value, unchanged_outside,
};
use crate::carry::{lemma_and_mask, lemma_wrap_mod};
use crate::grouping::{lemma_sew_group_fits, lemma_sew_groups_same_or_disjoint};
use crate::register_file::{element, mask_bit_of};
use crate::state::VectorState;
use crate::types::{ExecutionError, OpSrc, VReg, Vsew, Vtype};

verus! {

/// Element operation of a single-width integer instruction (`vadd`, `vsub`, `vrsub`, `vand`,
/// `vor`, `vxor`, `vsll`, `vsrl`, `vsra`, `vminu`, `vmin`, `vmaxu`, `vmax`).
#[derive(Clone, Copy, Debug, PartialEq, Eq, Structural)]
pub enum IntOp {
    Add,
    Sub,
    Rsub,
    And,
    Or,
    Xor,
    Sll,
    Srl,
    Sra,
    Minu,
    Min,
    Maxu,
    Max,
}

/// Relation of an integer compare instruction (`vmseq`, `vmsne`, `vmsltu`, `vmslt`, `vmsleu`,
/// `vmsle`, `vmsgtu`, `vmsgt`).
#[derive(Clone, Copy, Debug, PartialEq, Eq, Structural)]
pub enum IntCompare {
    Eq,
    Ne,
    Ltu,
    Lt,
    Leu,
    Le,
    Gtu,
    Gt,
}

/// Shift amount: the low `log2(SEW)` bits of `b`.
pub open spec fn shift_amount(b: u64, sew: Vsew) -> u64 {
    (b as nat % sew.bits()) as u64
}

/// Value of `op` on the element `a` of `vs2` and the operand `b`; its low SEW bits are the
/// result.
pub open spec fn int_op_value(op: IntOp, a: u64, b: u64, sew: Vsew) -> int {
    let m = sew_modulus(sew);
    match op {
        IntOp::Add => a + b,
        IntOp::Sub => a - b,
        IntOp::Rsub => b - a,
        IntOp::And => (a & b) as int,
        IntOp::Or => (a | b) as int,
        IntOp::Xor => (a ^ b) as int,
        IntOp::Sll => (a << shift_amount(b, sew)) as int,
        IntOp::Srl => (((a as nat % m) as u64) >> shift_amount(b, sew)) as int,
        IntOp::Sra => ((signed_of(a as nat, sew) as i64) >> shift_amount(b, sew)) as int,
        IntOp::Minu => if a as nat % m <= b as nat % m {
            a as int
        } else {
            b as int
        },
        IntOp::Min => if signed_of(a as nat, sew) <= signed_of(b as nat, sew) {
            a as int
        } else {
            b as int
        },
        IntOp::Maxu => if a as nat % m >= b as nat % m {
            a as int
        } else {
            b as int
        },
        IntOp::Max => if signed_of(a as nat, sew) >= signed_of(b as nat, sew) {
            a as int
        } else {
            b as int
        },
    }
}

/// Outcome of compare `op` on the element `a` of `vs2` and the operand `b`, both taken at SEW
/// bits (unsigned, or two's complement for the signed relations).
pub open spec fn compare_value(op: IntCompare, a: u64, b: u64, sew: Vsew) -> bool {
    let m = sew_modulus(sew);
    let ua = a as nat % m;
    let ub = b as nat % m;
    let sa = signed_of(a as nat, sew);
    let sb = signed_of(b as nat, sew);
    match op {
        IntCompare::Eq => ua == ub,
        IntCompare::Ne => ua != ub,
        IntCompare::Ltu => ua < ub,
        IntCompare::Lt => sa < sb,
        IntCompare::Leu => ua <= ub,
        IntCompare::Le => sa <= sb,
        IntCompare::Gtu => ua > ub,
        IntCompare::Gt => sa > sb,
    }
}

/// The shift amount mask `SEW - 1` selects `b mod SEW`.
pub proof fn lemma_shift_mask(b: u64, sew: Vsew)
    ensures
        b & ((sew.bits() - 1) as u64) == shift_amount(b, sew),
        shift_amount(b, sew) < 64,
{
    match sew {
        Vsew::E8 => {
            assert(b & 7u64 == b % 8) by (bit_vector);
        },
        Vsew::E16 => {
            assert(b & 15u64 == b % 16) by (bit_vector);
        },
        Vsew::E32 => {
            assert(b & 31u64 == b % 32) by (bit_vector);
        },
        Vsew::E64 => {
            assert(b & 63u64 == b % 64) by (bit_vector);
        },
    }
}

/// Reading a signed 64-bit value as unsigned adds `2^64` to a negative one.
pub proof fn lemma_i64_as_u64(x: i64)
    ensures
        (x as u64) as int == if x < 0 {
            x + 0x1_0000_0000_0000_0000
        } else {
            x as int
        },
{
    assert((x as u64) as int == if x < 0 {
        x + 0x1_0000_0000_0000_0000
    } else {
        x as int
    }) by (bit_vector);
}

/// Apply `op` to `a` and `b` at element width `sew`; the low SEW bits of the result are the
/// element result.
pub fn apply_int_op(op: IntOp, a: u64, b: u64, sew: Vsew) -> (r: u64)
    ensures
        r as int % (sew_modulus(sew) as int) == int_op_value(op, a, b, sew) % (sew_modulus(
            sew,
        ) as int),
{
    proof {
        lemma_sew_modulus_values(sew);
        lemma_shift_mask(b, sew);
    }
    let shamt_mask = (sew.bits_width() - 1) as u64;
    match op {
        IntOp::Add => {
            let r = a.wrapping_add(b);
            proof {
                if a + b > u64::MAX {
                    lemma_wrap_mod(a + b, r as int, -1, sew);
                } else {
                    lemma_wrap_mod(a + b, r as int, 0, sew);
                }
            }
            r
        },
        IntOp::Sub => {
            let r = a.wrapping_sub(b);
            proof {
                if a - b < 0 {
                    lemma_wrap_mod(a - b, r as int, 1, sew);
                } else {
                    lemma_wrap_mod(a - b, r as int, 0, sew);
                }
            }
            r
        },
        IntOp::Rsub => {
            let r = b.wrapping_sub(a);
            proof {
                if b - a < 0 {
                    lemma_wrap_mod(b - a, r as int, 1, sew);
                } else {
                    lemma_wrap_mod(b - a, r as int, 0, sew);
                }
            }
            r
        },
        IntOp::And => a & b,
        IntOp::Or => a | b,
        IntOp::Xor => a ^ b,
        IntOp::Sll => a << (b & shamt_mask),
        IntOp::Srl => {
            let mask = sew_mask(sew);
            proof {
                lemma_and_mask(a, mask, sew);
            }
            (a & mask) >> (b & shamt_mask)
        },
        IntOp::Sra => {
            let signed = sign_extend(a, sew);
            let shifted = signed >> (b & shamt_mask);
            let r = shifted as u64;
            proof {
                lemma_i64_as_u64(shifted);
                if shifted < 0 {
                    lemma_wrap_mod(shifted as int, r as int, 1, sew);
                } else {
                    lemma_wrap_mod(shifted as int, r as int, 0, sew);
                }
            }
            r
        },
        IntOp::Minu => {
            let mask = sew_mask(sew);
            proof {
                lemma_and_mask(a, mask, sew);
                lemma_and_mask(b, mask, sew);
            }
            if a & mask <= b & mask {
                a
            } else {
                b
            }
        },
        IntOp::Min => {
            if sign_extend(a, sew) <= sign_extend(b, sew) {
                a
            } else {
                b
            }
        },
        IntOp::Maxu => {
            let mask = sew_mask(sew);
            proof {
                lemma_and_mask(a, mask, sew);
                lemma_and_mask(b, mask, sew);
            }
            if a & mask >= b & mask {
                a
            } else {
                b
            }
        },
        IntOp::Max => {
            if sign_extend(a, sew) >= sign_extend(b, sew) {
                a
            } else {
                b
            }
        },
    }
}

/// Compare `a` and `b` at element width `sew` with relation `op`.
pub fn apply_compare(op: IntCompare, a: u64, b: u64, sew: Vsew) -> (r: bool)
    ensures
        r == compare_value(op, a, b, sew),
{
    let mask = sew_mask(sew);
    proof {
        lemma_and_mask(a, mask, sew);
        lemma_and_mask(b, mask, sew);
    }
    match op {
        IntCompare::Eq => (a & mask) == (b & mask),
        IntCompare::Ne => (a & mask) != (b & mask),
        IntCompare::Ltu => (a & mask) < (b & mask),
        IntCompare::Lt => sign_extend(a, sew) < sign_extend(b, sew),
        IntCompare::Leu => (a & mask) <= (b & mask),
        IntCompare::Le => sign_extend(a, sew) <= sign_extend(b, sew),
        IntCompare::Gtu => (a & mask) > (b & mask),
        IntCompare::Gt => sign_extend(a, sew) > sign_extend(b, sew),
    }
}

/// Second operand of a single-width instruction as encoded: a vector register group (`.vv`), a
/// scalar register value sign-extended to 64 bits (`.vx`), a 5-bit signed immediate (`.vi`), or
/// the 5-bit unsigned immediate of the shift instructions.
#[derive(Clone, Copy, Debug)]
pub enum Operand {
    Vector(VReg),
    Scalar(u64),
    Immediate(i8),
    ShiftImmediate(u8),
}

/// The operand source an operand reads: the group, or the scalar it stands for (an immediate
/// sign-extended, a shift immediate zero-extended).
pub open spec fn operand_src(operand: Operand) -> OpSrc {
    match operand {
        Operand::Vector(r) => OpSrc::Vreg(r),
        Operand::Scalar(x) => OpSrc::Scalar(x),
        Operand::Immediate(i) => OpSrc::Scalar((i as i64) as u64),
        Operand::ShiftImmediate(u) => OpSrc::Scalar(u as u64),
    }
}

/// See `operand_src`.
pub fn operand_source(operand: Operand) -> (r: OpSrc)
    ensures
        r == operand_src(operand),
{
    match operand {
        Operand::Vector(r) => OpSrc::Vreg(r),
        Operand::Scalar(x) => OpSrc::Scalar(x),
        Operand::Immediate(i) => OpSrc::Scalar((i as i64) as u64),
        Operand::ShiftImmediate(u) => OpSrc::Scalar(u as u64),
    }
}

/// Register `r` starts a group of `g` registers aligned to `g` inside `v0..v31`.
pub open spec fn aligned(r: VReg, g: nat) -> bool {
    r.index() % g == 0 && r.index() + g <= 32
}

/// A single-width integer instruction writing `vd` from `vs2` and `operand` is legal in `s`:
/// vector instructions are allowed, `vtype` is legal, `vd`, `vs2` and a vector operand are
/// aligned to `LMUL` registers, and a masked instruction does not write `v0`.
pub open spec fn int_instruction_legal(
    s: VectorState,
    vd: VReg,
    vs2: VReg,
    operand: Operand,
    vm: bool,
) -> bool {
    &&& s.vector_allowed
    &&& s.vtype matches Some(vt) && {
        let g = vt.vlmul.regs();
        &&& aligned(vd, g)
        &&& aligned(vs2, g)
        &&& (operand matches Operand::Vector(r) ==> aligned(r, g))
    }
    &&& (vm || vd.index() != 0)
}

/// Element `i` of `vd` after a single-width integer instruction: for an active element the low
/// SEW bits of `int_op_value`, otherwise the old value.
pub open spec fn int_element_post(
    old: VectorState,
    new: VectorState,
    op: IntOp,
    vd: VReg,
    vs2: VReg,
    src: OpSrc,
    vm: bool,
    sew: Vsew,
    i: nat,
) -> bool {
    let w = sew.bytes();
    let a = element(old.regs@, old.vlenb(), vs2.index(), i, w);
    let b = src_value(old, src, i, w);
    let d = element(new.regs@, old.vlenb(), vd.index(), i, w);
    if old.is_active(vm, i) {
        d == int_op_value(op, a as u64, b as u64, sew) % (sew_modulus(sew) as int)
    } else {
        d == element(old.regs@, old.vlenb(), vd.index(), i, w)
    }
}

/// Execute a single-width integer instruction (`vadd`, `vsub`, `vrsub`, `vand`, `vor`, `vxor`,
/// `vsll`, `vsrl`, `vsra`, `vminu`, `vmin`, `vmaxu`, `vmax` in their `.vv`, `.vx` and `.vi`
/// forms): an illegal instruction, leaving the state as it is, unless `int_instruction_legal`;
/// then each active element `i` of `vd` (in `vstart..vl`, enabled by the mask) becomes
/// `op(vs2[i], operand[i])` at SEW bits, inactive and tail elements are left undisturbed, the
/// state is marked dirty and `vstart` reset.
pub fn execute_int_instruction(
    state: &mut VectorState,
    old_pc: u64,
    op: IntOp,
    vd: VReg,
    vs2: VReg,
    operand: Operand,
    vm: bool,
) -> (r: Result<(), ExecutionError>)
    requires
        old(state).wf(),
    ensures
        final(state).wf(),
        !int_instruction_legal(*old(state), vd, vs2, operand, vm) ==> r == Err::<
            (),
            ExecutionError,
        >(ExecutionError::IllegalInstruction { address: old_pc }) && *final(state) == *old(state),
        int_instruction_legal(*old(state), vd, vs2, operand, vm) ==> {
            let s = *old(state);
            let sew = s.vtype->Some_0.vsew;
            let w = sew.bytes();
            &&& r == Ok::<(), ExecutionError>(())
            &&& final(state).same_config(s)
            &&& final(state).vs_dirty
            &&& final(state).vstart == 0
            &&& unchanged_outside(
                s.regs@,
                final(state).regs@,
                (vd.index() * s.vlenb()) as int,
                (vd.index() * s.vlenb() + s.vl * w) as int,
            )
            &&& forall|i: nat|
                i < s.vl ==> #[trigger] int_element_post(
                    s,
                    *final(state),
                    op,
                    vd,
                    vs2,
                    operand_src(operand),
                    vm,
                    sew,
                    i,
                )
        },
{
    if !state.vector_allowed {
        return Err(ExecutionError::IllegalInstruction { address: old_pc });
    }
    let vtype = match state.vtype {
        Some(vt) => vt,
        None => {
            return Err(ExecutionError::IllegalInstruction { address: old_pc });
        },
    };
    let group_regs = vtype.vlmul.register_count();
    match check_vreg_group_alignment(old_pc, vd, group_regs) {
        Ok(()) => {},
        Err(e) => {
            return Err(e);
        },
    }
    match check_vreg_group_alignment(old_pc, vs2, group_regs) {
        Ok(()) => {},
        Err(e) => {
            return Err(e);
        },
    }
    if let Operand::Vector(vs1) = operand {
        match check_vreg_group_alignment(old_pc, vs1, group_regs) {
            Ok(()) => {},
            Err(e) => {
                return Err(e);
            },
        }
    }
    if !vm && vd.to_bits() == 0 {
        return Err(ExecutionError::IllegalInstruction { address: old_pc });
    }
    let sew = vtype.vsew;
    let src = operand_source(operand);
    let ghost s0 = *state;
    proof {
        lemma_sew_group_fits(s0, vtype, vd);
        lemma_sew_group_fits(s0, vtype, vs2);
        lemma_sew_groups_same_or_disjoint(s0, vtype, vd, vs2);
        if let Operand::Vector(vs1) = operand {
            lemma_sew_group_fits(s0, vtype, vs1);
            lemma_sew_groups_same_or_disjoint(s0, vtype, vd, vs1);
        }
    }
    let alu = |a: u64, b: u64, sew: Vsew| -> (r: u64)
        ensures
            r as int % (sew_modulus(sew) as int) == int_op_value(op, a, b, sew) % (sew_modulus(
                sew,
            ) as int),
        { apply_int_op(op, a, b, sew) };
    execute_arith_op(state, vd, vs2, src, vm, sew, alu);
    proof {
        assert forall|i: nat| i < s0.vl implies #[trigger] int_element_post(
            s0,
            *state,
            op,
            vd,
            vs2,
            src,
            vm,
            sew,
            i,
        ) by {
            assert(binop_element_post(s0, *state, vd, vs2, src, vm, sew, alu, i));
        }
    }
    Ok(())
}

/// A mask destination `vd` overlaps the `g`-register source group based at `src` at most in
/// the group's lowest-numbered register.
pub open spec fn mask_overlap_ok(vd: VReg, src: VReg, g: nat) -> bool {
    !(g > 1 && src.index() < vd.index() && vd.index() < src.index() + g)
}

/// An aligned source group that a mask destination overlaps at most in its lowest register
/// shares no byte with the destination, unless the destination is its base register.
pub proof fn lemma_mask_dest_from_check(s: VectorState, vt: Vtype, vd: VReg, src: VReg)
    requires
        s.wf(),
        s.vtype == Some(vt),
        aligned(src, vt.vlmul.regs()),
        mask_overlap_ok(vd, src, vt.vlmul.regs()),
    ensures
        mask_dest_ok(s, vd, src, vt.vsew.bytes()),
        s.group_fits(src, vt.vsew.bytes()),
{
    let g = vt.vlmul.regs();
    let l = s.vlenb();
    lemma_sew_group_fits(s, vt, src);
    if vd.index() < src.index() {
        assert(vd.index() * l + l <= src.index() * l) by (nonlinear_arith)
            requires
                vd.index() + 1 <= src.index(),
        ;
    } else if vd.index() > src.index() {
        assert(vd.index() >= src.index() + g);
        assert(src.index() * l + g * l <= vd.index() * l) by (nonlinear_arith)
            requires
                src.index() + g <= vd.index(),
        ;
    }
}

/// An integer compare instruction writing mask register `vd` from `vs2` and `operand` is legal
/// in `s`: vector instructions are allowed, `vtype` is legal, `vs2` and a vector operand are
/// aligned to `LMUL` registers, and `vd` overlaps each source group at most in its
/// lowest-numbered register.
pub open spec fn compare_instruction_legal(
    s: VectorState,
    vd: VReg,
    vs2: VReg,
    operand: Operand,
) -> bool {
    &&& s.vector_allowed
    &&& s.vtype matches Some(vt) && {
        let g = vt.vlmul.regs();
        &&& aligned(vs2, g)
        &&& mask_overlap_ok(vd, vs2, g)
        &&& (operand matches Operand::Vector(r) ==> aligned(r, g) && mask_overlap_ok(vd, r, g))
    }
}

/// Mask bit `i` of `vd` after an integer compare instruction: for an active element the
/// outcome of `compare_value`, otherwise the old bit.
pub open spec fn compare_element_post(
    old: VectorState,
    new: VectorState,
    op: IntCompare,
    vd: VReg,
    vs2: VReg,
    src: OpSrc,
    vm: bool,
    sew: Vsew,
    i: nat,
) -> bool {
    let w = sew.bytes();
    let a = element(old.regs@, old.vlenb(), vs2.index(), i, w);
    let b = src_value(old, src, i, w);
    let d = mask_bit_of(new.regs@, old.vlenb(), vd.index(), i);
    if old.is_active(vm, i) {
        d == compare_value(op, a as u64, b as u64, sew)
    } else {
        d == mask_bit_of(old.regs@, old.vlenb(), vd.index(), i)
    }
}

/// Execute an integer compare instruction (`vmseq`, `vmsne`, `vmsltu`, `vmslt`, `vmsleu`,
/// `vmsle`, `vmsgtu`, `vmsgt` in their `.vv`, `.vx` and `.vi` forms): an illegal instruction,
/// leaving the state as it is, unless `compare_instruction_legal`; then each active bit `i` of
/// `vd` becomes the outcome of the compare of `vs2[i]` with `operand[i]`, inactive bits and bits
/// from `vl` on are left undisturbed, the state is marked dirty and `vstart` reset.
pub fn execute_compare_instruction(
    state: &mut VectorState,
    old_pc: u64,
    op: IntCompare,
    vd: VReg,
    vs2: VReg,
    operand: Operand,
    vm: bool,
) -> (r: Result<(), ExecutionError>)
    requires
        old(state).wf(),
    ensures
        final(state).wf(),
        !compare_instruction_legal(*old(state), vd, vs2, operand) ==> r == Err::<
            (),
            ExecutionError,
        >(ExecutionError::IllegalInstruction { address: old_pc }) && *final(state) == *old(state),
        compare_instruction_legal(*old(state), vd, vs2, operand) ==> {
            let s = *old(state);
            let l = s.vlenb();
            let sew = s.vtype->Some_0.vsew;
            &&& r == Ok::<(), ExecutionError>(())
            &&& final(state).same_config(s)
            &&& final(state).vs_dirty
            &&& final(state).vstart == 0
            &&& unchanged_outside(
                s.regs@,
                final(state).regs@,
                (vd.index() * l) as int,
                (vd.index() * l + l) as int,
            )
            &&& forall|i: nat|
                i < s.vl ==> #[trigger] compare_element_post(
                    s,
                    *final(state),
                    op,
                    vd,
                    vs2,
                    operand_src(operand),
                    vm,
                    sew,
                    i,
                )
            &&& forall|i: nat|
                s.vl <= i < 8 * l ==> #[trigger] mask_bit_of(final(state).regs@, l, vd.index(), i)
                    == mask_bit_of(s.regs@, l, vd.index(), i)
        },
{
    if !state.vector_allowed {
        return Err(ExecutionError::IllegalInstruction { address: old_pc });
    }
    let vtype = match state.vtype {
        Some(vt) => vt,
        None => {
            return Err(ExecutionError::IllegalInstruction { address: old_pc });
        },
    };
    let group_regs = vtype.vlmul.register_count();
    match check_vreg_group_alignment(old_pc, vs2, group_regs) {
        Ok(()) => {},
        Err(e) => {
            return Err(e);
        },
    }
    if let Operand::Vector(vs1) = operand {
        match check_vreg_group_alignment(old_pc, vs1, group_regs) {
            Ok(()) => {},
            Err(e) => {
                return Err(e);
            },
        }
    }
    match check_mask_dest_overlap(old_pc, vd, vs2, group_regs) {
        Ok(()) => {},
        Err(e) => {
            return Err(e);
        },
    }
    if let Operand::Vector(vs1) = operand {
        match check_mask_dest_overlap(old_pc, vd, vs1, group_regs) {
            Ok(()) => {},
            Err(e) => {
                return Err(e);
            },
        }
    }
    let sew = vtype.vsew;
    let src = operand_source(operand);
    let ghost s0 = *state;
    proof {
        lemma_mask_dest_from_check(s0, vtype, vd, vs2);
        if let Operand::Vector(vs1) = operand {
            lemma_mask_dest_from_check(s0, vtype, vd, vs1);
        }
    }
    let relation = |a: u64, b: u64, sew: Vsew| -> (r: bool)
        ensures
            r == compare_value(op, a, b, sew),
        { apply_compare(op, a, b, sew) };
    execute_compare_op(state, vd, vs2, src, vm, sew, relation);
    proof {
        assert forall|i: nat| i < s0.vl implies #[trigger] compare_element_post(
            s0,
            *state,
            op,
            vd,
            vs2,
            src,
            vm,
            sew,
            i,
        ) by {
            assert(compare_bit_post(s0, *state, vd, vs2, src, vm, sew, relation, i));
        }
    }
    Ok(())
}

} // verus!
