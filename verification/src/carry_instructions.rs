//! Add-with-carry and subtract-with-borrow instructions: the legality checks an instruction
//! goes through before its operation runs.

use vstd::prelude::*;
use crate::arith::{check_mask_dest_overlap, check_vreg_group_alignment, unchanged_outside};
use crate::arith_instructions::{
    aligned, compare_instruction_legal, lemma_mask_dest_from_check, operand_source, operand_src,
    Operand,
};
use crate::carry::{
    adc_value, bit_post, data_post, execute_carry_add, execute_carry_add_mask, execute_carry_sub,
    execute_carry_sub_mask, madc_bit, msbc_bit, sbc_value,
};
use crate::grouping::{lemma_sew_group_fits, lemma_sew_groups_same_or_disjoint};
use crate::register_file::mask_bit_of;
use crate::state::VectorState;
use crate::types::{ExecutionError, OpSrc, VReg, Vsew};

verus! {

/// Data-producing carry instruction: `vadc` adds, `vsbc` subtracts, both with mask bit `i` of
/// `v0` as carry or borrow.
#[derive(Clone, Copy, Debug, PartialEq, Eq, Structural)]
pub enum CarryDataOp {
    Adc,
    Sbc,
}

/// Mask-producing carry instruction: `vmadc` writes the carry-out of the sum, `vmsbc` the
/// borrow-out of the difference.
#[derive(Clone, Copy, Debug, PartialEq, Eq, Structural)]
pub enum CarryMaskOp {
    Madc,
    Msbc,
}

/// A data-producing carry instruction is legal in `s`: vector instructions are allowed, `vtype`
/// is legal, `vd`, `vs2` and a vector operand are aligned to `LMUL` registers, and `vd` is not
/// `v0`, which holds the carries.
pub open spec fn carry_data_legal(s: VectorState, vd: VReg, vs2: VReg, operand: Operand) -> bool {
    &&& s.vector_allowed
    &&& s.vtype matches Some(vt) && {
        let g = vt.vlmul.regs();
        &&& aligned(vd, g)
        &&& aligned(vs2, g)
        &&& (operand matches Operand::Vector(r) ==> aligned(r, g))
    }
    &&& vd.index() != 0
}

/// Value of element `i` of a data-producing carry instruction before truncation to SEW.
pub open spec fn carry_data_value(
    s: VectorState,
    op: CarryDataOp,
    vs2: VReg,
    src: OpSrc,
    sew: Vsew,
    i: nat,
) -> int {
    match op {
        CarryDataOp::Adc => adc_value(s, vs2, src, true, sew, i),
        CarryDataOp::Sbc => sbc_value(s, vs2, src, true, sew, i),
    }
}

/// Execute `vadc` or `vsbc` (`.vvm`, `.vxm` and, for `vadc`, `.vim`): an illegal instruction,
/// leaving the state as it is, unless `carry_data_legal`; then every element `i` of `vd` from
/// `vstart` to `vl` becomes `carry_data_value` truncated to SEW, the elements before `vstart`
/// and from `vl` on are left undisturbed, the state is marked dirty and `vstart` reset.
pub fn execute_carry_data_instruction(
    state: &mut VectorState,
    old_pc: u64,
    op: CarryDataOp,
    vd: VReg,
    vs2: VReg,
    operand: Operand,
) -> (r: Result<(), ExecutionError>)
    requires
        old(state).wf(),
    ensures
        final(state).wf(),
        !carry_data_legal(*old(state), vd, vs2, operand) ==> r == Err::<(), ExecutionError>(
            ExecutionError::IllegalInstruction { address: old_pc },
        ) && *final(state) == *old(state),
        carry_data_legal(*old(state), vd, vs2, operand) ==> {
            let s = *old(state);
            let sew = s.vtype->Some_0.vsew;
            &&& r == Ok::<(), ExecutionError>(())
            &&& final(state).same_config(s)
            &&& final(state).vs_dirty
            &&& final(state).vstart == 0
            &&& unchanged_outside(
                s.regs@,
                final(state).regs@,
                (vd.index() * s.vlenb()) as int,
                (vd.index() * s.vlenb() + s.vl * sew.bytes()) as int,
            )
            &&& forall|i: nat|
                i < s.vl ==> #[trigger] data_post(
                    s,
                    *final(state),
                    vd,
                    sew,
                    i,
                    carry_data_value(s, op, vs2, operand_src(operand), sew, i),
                )
        },
{
    if !state.vector_allowed {
        return Err(ExecutionError::IllegalInstruction { address: old_pc });
    }
    let vtype = match state.vtype {
        Some(vt) => vt,
        None => {
            return Err(ExecutionError::IllegalInstruction { address: old_pc });
        },
    };
    let group_regs = vtype.vlmul.register_count();
    match check_vreg_group_alignment(old_pc, vd, group_regs) {
        Ok(()) => {},
        Err(e) => {
            return Err(e);
        },
    }
    match check_vreg_group_alignment(old_pc, vs2, group_regs) {
        Ok(()) => {},
        Err(e) => {
            return Err(e);
        },
    }
    if let Operand::Vector(vs1) = operand {
        match check_vreg_group_alignment(old_pc, vs1, group_regs) {
            Ok(()) => {},
            Err(e) => {
                return Err(e);
            },
        }
    }
    if vd.to_bits() == 0 {
        return Err(ExecutionError::IllegalInstruction { address: old_pc });
    }
    let sew = vtype.vsew;
    let src = operand_source(operand);
    let ghost s0 = *state;
    proof {
        lemma_sew_group_fits(s0, vtype, vd);
        lemma_sew_group_fits(s0, vtype, vs2);
        lemma_sew_groups_same_or_disjoint(s0, vtype, vd, vs2);
        if let Operand::Vector(vs1) = operand {
            lemma_sew_group_fits(s0, vtype, vs1);
            lemma_sew_groups_same_or_disjoint(s0, vtype, vd, vs1);
        }
    }
    match op {
        CarryDataOp::Adc => execute_carry_add::<true>(state, vd, vs2, src, sew),
        CarryDataOp::Sbc => execute_carry_sub(state, vd, vs2, src, sew),
    }
    Ok(())
}

/// Mask bit `i` of a mask-producing carry instruction: the carry-out or borrow-out, with
/// mask bit `i` of `v0` taken in when `with_carry`.
pub open spec fn carry_mask_bit(
    s: VectorState,
    op: CarryMaskOp,
    with_carry: bool,
    vs2: VReg,
    src: OpSrc,
    sew: Vsew,
    i: nat,
) -> bool {
    match op {
        CarryMaskOp::Madc => madc_bit(s, vs2, src, with_carry, sew, i),
        CarryMaskOp::Msbc => msbc_bit(s, vs2, src, with_carry, sew, i),
    }
}

/// Execute `vmadc` or `vmsbc` (`.vvm`, `.vxm`, `.vim` with the carry of `v0` when `with_carry`;
/// `.vv`, `.vx`, `.vi` without): an illegal instruction, leaving the state as it is, unless the
/// checks of a compare instruction pass (`compare_instruction_legal`); then every bit `i` of
/// `vd` from `vstart` to `vl` becomes `carry_mask_bit`, the bits before `vstart` and from `vl`
/// on are left undisturbed, the state is marked dirty and `vstart` reset.
pub fn execute_carry_mask_instruction(
    state: &mut VectorState,
    old_pc: u64,
    op: CarryMaskOp,
    with_carry: bool,
    vd: VReg,
    vs2: VReg,
    operand: Operand,
) -> (r: Result<(), ExecutionError>)
    requires
        old(state).wf(),
    ensures
        final(state).wf(),
        !compare_instruction_legal(*old(state), vd, vs2, operand) ==> r == Err::<
            (),
            ExecutionError,
        >(ExecutionError::IllegalInstruction { address: old_pc }) && *final(state) == *old(state),
        compare_instruction_legal(*old(state), vd, vs2, operand) ==> {
            let s = *old(state);
            let l = s.vlenb();
            let sew = s.vtype->Some_0.vsew;
            &&& r == Ok::<(), ExecutionError>(())
            &&& final(state).same_config(s)
            &&& final(state).vs_dirty
            &&& final(state).vstart == 0
            &&& unchanged_outside(
                s.regs@,
                final(state).regs@,
                (vd.index() * l) as int,
                (vd.index() * l + l) as int,
            )
            &&& forall|i: nat|
                i < s.vl ==> #[trigger] bit_post(
                    s,
                    *final(state),
                    vd,
                    i,
                    carry_mask_bit(s, op, with_carry, vs2, operand_src(operand), sew, i),
                )
            &&& forall|i: nat|
                s.vl <= i < 8 * l ==> #[trigger] mask_bit_of(final(state).regs@, l, vd.index(), i)
                    == mask_bit_of(s.regs@, l, vd.index(), i)
        },
{
    if !state.vector_allowed {
        return Err(ExecutionError::IllegalInstruction { address: old_pc });
    }
    let vtype = match state.vtype {
        Some(vt) => vt,
        None => {
            return Err(ExecutionError::IllegalInstruction { address: old_pc });
        },
    };
    let group_regs = vtype.vlmul.register_count();
    match check_vreg_group_alignment(old_pc, vs2, group_regs) {
        Ok(()) => {},
        Err(e) => {
            return Err(e);
        },
    }
    if let Operand::Vector(vs1) = operand {
        match check_vreg_group_alignment(old_pc, vs1, group_regs) {
            Ok(()) => {},
            Err(e) => {
                return Err(e);
            },
        }
    }
    match check_mask_dest_overlap(old_pc, vd, vs2, group_regs) {
        Ok(()) => {},
        Err(e) => {
            return Err(e);
        },
    }
    if let Operand::Vector(vs1) = operand {
        match check_mask_dest_overlap(old_pc, vd, vs1, group_regs) {
            Ok(()) => {},
            Err(e) => {
                return Err(e);
            },
        }
    }
    let sew = vtype.vsew;
    let src = operand_source(operand);
    let ghost s0 = *state;
    proof {
        lemma_mask_dest_from_check(s0, vtype, vd, vs2);
        if let Operand::Vector(vs1) = operand {
            lemma_mask_dest_from_check(s0, vtype, vd, vs1);
        }
    }
    match op {
        CarryMaskOp::Madc => {
            if with_carry {
                execute_carry_add_mask::<true>(state, vd, vs2, src, sew);
            } else {
                execute_carry_add_mask::<false>(state, vd, vs2, src, sew);
            }
        },
        CarryMaskOp::Msbc => {
            if with_carry {
                execute_carry_sub_mask::<true>(state, vd, vs2, src, sew);
            } else {
                execute_carry_sub_mask::<false>(state, vd, vs2, src, sew);
            }
        },
    }
    proof {
        assert forall|i: nat| i < s0.vl implies #[trigger] bit_post(
            s0,
            *state,
            vd,
            i,
            carry_mask_bit(s0, op, with_carry, vs2, src, sew, i),
        ) by {
            match op {
                CarryMaskOp::Madc => {
                    assert(bit_post(s0, *state, vd, i, madc_bit(s0, vs2, src, with_carry, sew, i)));
                },
                CarryMaskOp::Msbc => {
                    assert(bit_post(s0, *state, vd, i, msbc_bit(s0, vs2, src, with_carry, sew, i)));
                },
            }
        }
    }
    Ok(())
}

} // verus!
