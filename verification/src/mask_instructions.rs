//! Mask instructions: the legality checks a mask instruction goes through before its operation
//! runs, and the bitwise operations of the mask-register logical instructions.

use vstd::prelude::*;
use crate::arith::unchanged_outside;
use crate::arith_instructions::aligned;
use crate::grouping::lemma_sew_group_fits;
use crate::mask::{
    active_set_count, enabled_set_count, execute_mask_logical_op, execute_vcpop, execute_vfirst,
    execute_vid, execute_viota, execute_vmsbf, execute_vmsif, execute_vmsof, first_bit_post,
    iota_post, logical_bit_post, mask_enabled, sbf_bit, sif_bit, sof_bit, vid_post,
};
use crate::register_file::mask_bit_of;
use crate::state::{lemma_vl_bound, VectorState};
use crate::types::{ExecutionError, VReg};

verus! {

/// Bitwise operation of a mask-register logical instruction (`vmandn`, `vmand`, `vmor`,
/// `vmxor`, `vmorn`, `vmnand`, `vmnor`, `vmxnor`).
#[derive(Clone, Copy, Debug, PartialEq, Eq, Structural)]
pub enum MaskLogicalOp {
    Andn,
    And,
    Or,
    Xor,
    Orn,
    Nand,
    Nor,
    Xnor,
}

/// Result bit of `op` on bit `a` of `vs2` and bit `b` of `vs1`.
pub open spec fn mask_logical_value(op: MaskLogicalOp, a: bool, b: bool) -> bool {
    match op {
        MaskLogicalOp::Andn => a && !b,
        MaskLogicalOp::And => a && b,
        MaskLogicalOp::Or => a || b,
        MaskLogicalOp::Xor => a != b,
        MaskLogicalOp::Orn => a || !b,
        MaskLogicalOp::Nand => !(a && b),
        MaskLogicalOp::Nor => !(a || b),
        MaskLogicalOp::Xnor => a == b,
    }
}

/// See `mask_logical_value`.
pub fn apply_mask_logical(op: MaskLogicalOp, a: bool, b: bool) -> (r: bool)
    ensures
        r == mask_logical_value(op, a, b),
{
    match op {
        MaskLogicalOp::Andn => a && !b,
        MaskLogicalOp::And => a && b,
        MaskLogicalOp::Or => a || b,
        MaskLogicalOp::Xor => a != b,
        MaskLogicalOp::Orn => a || !b,
        MaskLogicalOp::Nand => !(a && b),
        MaskLogicalOp::Nor => !(a || b),
        MaskLogicalOp::Xnor => a == b,
    }
}

/// Any mask instruction needs vector instructions allowed and a legal `vtype`.
pub open spec fn mask_instruction_allowed(s: VectorState) -> bool {
    s.vector_allowed && s.vtype is Some
}

/// Mask bit `i` of `vd` after a mask-register logical instruction: `op` on the old bits of
/// `vs2` and `vs1` from `vstart` to `vl`, the old bit elsewhere.
pub open spec fn mask_logical_post(
    old: VectorState,
    new: VectorState,
    op: MaskLogicalOp,
    vd: VReg,
    vs2: VReg,
    vs1: VReg,
    i: nat,
) -> bool {
    let l = old.vlenb();
    let d = mask_bit_of(new.regs@, l, vd.index(), i);
    if old.vstart <= i < old.vl {
        d == mask_logical_value(
            op,
            mask_bit_of(old.regs@, l, vs2.index(), i),
            mask_bit_of(old.regs@, l, vs1.index(), i),
        )
    } else {
        d == mask_bit_of(old.regs@, l, vd.index(), i)
    }
}

/// Execute a mask-register logical instruction: an illegal instruction, leaving the state as it
/// is, unless `mask_instruction_allowed`; then `mask_logical_post` holds of every bit of `vd`,
/// the other registers are unchanged, the state is marked dirty and `vstart` reset. `vd` may be
/// either source.
pub fn execute_mask_logical_instruction(
    state: &mut VectorState,
    old_pc: u64,
    op: MaskLogicalOp,
    vd: VReg,
    vs2: VReg,
    vs1: VReg,
) -> (r: Result<(), ExecutionError>)
    requires
        old(state).wf(),
    ensures
        final(state).wf(),
        !mask_instruction_allowed(*old(state)) ==> r == Err::<(), ExecutionError>(
            ExecutionError::IllegalInstruction { address: old_pc },
        ) && *final(state) == *old(state),
        mask_instruction_allowed(*old(state)) ==> {
            let s = *old(state);
            let l = s.vlenb();
            &&& r == Ok::<(), ExecutionError>(())
            &&& final(state).same_config(s)
            &&& final(state).vs_dirty
            &&& final(state).vstart == 0
            &&& unchanged_outside(
                s.regs@,
                final(state).regs@,
                (vd.index() * l) as int,
                (vd.index() * l + l) as int,
            )
            &&& forall|i: nat|
                i < 8 * l ==> #[trigger] mask_logical_post(s, *final(state), op, vd, vs2, vs1, i)
        },
{
    if !state.vector_allowed || state.vtype.is_none() {
        return Err(ExecutionError::IllegalInstruction { address: old_pc });
    }
    let ghost s0 = *state;
    let logic = |a: bool, b: bool| -> (r: bool)
        ensures
            r == mask_logical_value(op, a, b),
        { apply_mask_logical(op, a, b) };
    execute_mask_logical_op(state, vd, vs2, vs1, logic);
    proof {
        assert forall|i: nat| i < 8 * s0.vlenb() implies #[trigger] mask_logical_post(
            s0,
            *state,
            op,
            vd,
            vs2,
            vs1,
            i,
        ) by {
            assert(logical_bit_post(s0, *state, vd, vs2, vs1, logic, i));
        }
    }
    Ok(())
}

/// Execute `vcpop.m`: an illegal instruction, leaving the state as it is, unless
/// `mask_instruction_allowed`; then the number of active elements whose bit in `vs2` is set,
/// with the registers unchanged, the state marked dirty and `vstart` reset.
pub fn execute_vcpop_instruction(state: &mut VectorState, old_pc: u64, vs2: VReg, vm: bool) -> (r:
    Result<u32, ExecutionError>)
    requires
        old(state).wf(),
    ensures
        final(state).wf(),
        !mask_instruction_allowed(*old(state)) ==> r == Err::<u32, ExecutionError>(
            ExecutionError::IllegalInstruction { address: old_pc },
        ) && *final(state) == *old(state),
        mask_instruction_allowed(*old(state)) ==> {
            &&& r == Ok::<u32, ExecutionError>(
                active_set_count(*old(state), vs2, vm, old(state).vl as nat) as u32,
            )
            &&& final(state).same_config(*old(state))
            &&& final(state).regs == old(state).regs
            &&& final(state).vs_dirty
            &&& final(state).vstart == 0
        },
{
    if !state.vector_allowed || state.vtype.is_none() {
        return Err(ExecutionError::IllegalInstruction { address: old_pc });
    }
    let count = execute_vcpop(state, vs2, vm);
    Ok(count)
}

/// Execute `vfirst.m`: an illegal instruction, leaving the state as it is, unless
/// `mask_instruction_allowed`; then the index of the lowest-numbered element below `vl`
/// (searched from element 0) enabled by the mask whose bit in `vs2` is set, or `-1` when there
/// is none, with the registers unchanged, the state marked dirty and `vstart` reset.
pub fn execute_vfirst_instruction(state: &mut VectorState, old_pc: u64, vs2: VReg, vm: bool) -> (r:
    Result<i64, ExecutionError>)
    requires
        old(state).wf(),
    ensures
        final(state).wf(),
        !mask_instruction_allowed(*old(state)) ==> r == Err::<i64, ExecutionError>(
            ExecutionError::IllegalInstruction { address: old_pc },
        ) && *final(state) == *old(state),
        mask_instruction_allowed(*old(state)) ==> {
            let s = *old(state);
            &&& r is Ok
            &&& (r->Ok_0 == -1 <==> enabled_set_count(s, vs2, vm, s.vl as nat) == 0)
            &&& (r->Ok_0 != -1 ==> {
                let k = r->Ok_0;
                &&& 0 <= k < s.vl
                &&& mask_enabled(s, vm, k as nat)
                &&& mask_bit_of(s.regs@, s.vlenb(), vs2.index(), k as nat)
                &&& enabled_set_count(s, vs2, vm, k as nat) == 0
            })
            &&& final(state).same_config(s)
            &&& final(state).regs == s.regs
            &&& final(state).vs_dirty
            &&& final(state).vstart == 0
        },
{
    if !state.vector_allowed || state.vtype.is_none() {
        return Err(ExecutionError::IllegalInstruction { address: old_pc });
    }
    let first = execute_vfirst(state, vs2, vm);
    Ok(first)
}

/// Which of `vmsbf.m`, `vmsof.m`, `vmsif.m`.
#[derive(Clone, Copy, Debug, PartialEq, Eq, Structural)]
pub enum FirstBitOp {
    SetBeforeFirst,
    SetOnlyFirst,
    SetIncludingFirst,
}

/// Result bit `i` of the instruction `op`.
pub open spec fn first_bit_value(s: VectorState, op: FirstBitOp, vs2: VReg, vm: bool, i: nat) -> bool {
    match op {
        FirstBitOp::SetBeforeFirst => sbf_bit(s, vs2, vm, i),
        FirstBitOp::SetOnlyFirst => sof_bit(s, vs2, vm, i),
        FirstBitOp::SetIncludingFirst => sif_bit(s, vs2, vm, i),
    }
}

/// `vmsbf.m`, `vmsof.m` and `vmsif.m` are legal in `s`: `mask_instruction_allowed`, `vstart` is
/// zero, `vd` is not `vs2`, and a masked instruction does not write `v0`.
pub open spec fn first_bit_legal(s: VectorState, vd: VReg, vs2: VReg, vm: bool) -> bool {
    &&& mask_instruction_allowed(s)
    &&& s.vstart == 0
    &&& vd.index() != vs2.index()
    &&& (vm || vd.index() != 0)
}

/// Execute `vmsbf.m`, `vmsof.m` or `vmsif.m`: an illegal instruction, leaving the state as it
/// is, unless `first_bit_legal`; then every bit `i < vl` of `vd` enabled by the mask becomes
/// `first_bit_value`, the other bits of `vd` and the other registers are unchanged, and the
/// state is marked dirty.
pub fn execute_first_bit_instruction(
    state: &mut VectorState,
    old_pc: u64,
    op: FirstBitOp,
    vd: VReg,
    vs2: VReg,
    vm: bool,
) -> (r: Result<(), ExecutionError>)
    requires
        old(state).wf(),
    ensures
        final(state).wf(),
        !first_bit_legal(*old(state), vd, vs2, vm) ==> r == Err::<(), ExecutionError>(
            ExecutionError::IllegalInstruction { address: old_pc },
        ) && *final(state) == *old(state),
        first_bit_legal(*old(state), vd, vs2, vm) ==> {
            let s = *old(state);
            let l = s.vlenb();
            &&& r == Ok::<(), ExecutionError>(())
            &&& final(state).same_config(s)
            &&& final(state).vs_dirty
            &&& final(state).vstart == 0
            &&& unchanged_outside(
                s.regs@,
                final(state).regs@,
                (vd.index() * l) as int,
                (vd.index() * l + l) as int,
            )
            &&& forall|i: nat|
                i < 8 * l ==> #[trigger] first_bit_post(
                    s,
                    *final(state),
                    vd,
                    vm,
                    s.vl as nat,
                    i,
                    first_bit_value(s, op, vs2, vm, i),
                )
        },
{
    if !state.vector_allowed || state.vtype.is_none() {
        return Err(ExecutionError::IllegalInstruction { address: old_pc });
    }
    if state.vstart != 0 {
        return Err(ExecutionError::IllegalInstruction { address: old_pc });
    }
    if vd.to_bits() == vs2.to_bits() {
        return Err(ExecutionError::IllegalInstruction { address: old_pc });
    }
    if !vm && vd.to_bits() == 0 {
        return Err(ExecutionError::IllegalInstruction { address: old_pc });
    }
    let ghost s0 = *state;
    proof {
        lemma_vl_bound(s0);
        s0.regs.lemma_wf();
    }
    let vl = state.vl;
    match op {
        FirstBitOp::SetBeforeFirst => execute_vmsbf(state, vd, vs2, vm, vl),
        FirstBitOp::SetOnlyFirst => execute_vmsof(state, vd, vs2, vm, vl),
        FirstBitOp::SetIncludingFirst => execute_vmsif(state, vd, vs2, vm, vl),
    }
    proof {
        assert forall|i: nat| i < 8 * s0.vlenb() implies #[trigger] first_bit_post(
            s0,
            *state,
            vd,
            vm,
            s0.vl as nat,
            i,
            first_bit_value(s0, op, vs2, vm, i),
        ) by {
            match op {
                FirstBitOp::SetBeforeFirst => {
                    assert(first_bit_post(s0, *state, vd, vm, vl as nat, i, sbf_bit(s0, vs2, vm, i)));
                },
                FirstBitOp::SetOnlyFirst => {
                    assert(first_bit_post(s0, *state, vd, vm, vl as nat, i, sof_bit(s0, vs2, vm, i)));
                },
                FirstBitOp::SetIncludingFirst => {
                    assert(first_bit_post(s0, *state, vd, vm, vl as nat, i, sif_bit(s0, vs2, vm, i)));
                },
            }
        }
    }
    Ok(())
}

/// `viota.m` is legal in `s`: `mask_instruction_allowed`, `vstart` is zero, `vd` is aligned to
/// `LMUL` registers, its group does not contain `vs2`, and a masked instruction does not write
/// `v0`.
pub open spec fn viota_legal(s: VectorState, vd: VReg, vs2: VReg, vm: bool) -> bool {
    &&& s.vector_allowed
    &&& s.vtype matches Some(vt) && {
        let g = vt.vlmul.regs();
        &&& s.vstart == 0
        &&& aligned(vd, g)
        &&& !(vd.index() <= vs2.index() && vs2.index() < vd.index() + g)
        &&& (vm || vd.index() != 0)
    }
}

/// Execute `viota.m`: an illegal instruction, leaving the state as it is, unless `viota_legal`;
/// then `iota_post` holds of every element `i < vl` of `vd`, the registers outside `vd`'s
/// elements are unchanged, the state is marked dirty and `vstart` reset.
pub fn execute_viota_instruction(
    state: &mut VectorState,
    old_pc: u64,
    vd: VReg,
    vs2: VReg,
    vm: bool,
) -> (r: Result<(), ExecutionError>)
    requires
        old(state).wf(),
    ensures
        final(state).wf(),
        !viota_legal(*old(state), vd, vs2, vm) ==> r == Err::<(), ExecutionError>(
            ExecutionError::IllegalInstruction { address: old_pc },
        ) && *final(state) == *old(state),
        viota_legal(*old(state), vd, vs2, vm) ==> {
            let s = *old(state);
            let sew = s.vtype->Some_0.vsew;
            &&& r == Ok::<(), ExecutionError>(())
            &&& final(state).same_config(s)
            &&& final(state).vs_dirty
            &&& final(state).vstart == 0
            &&& unchanged_outside(
                s.regs@,
                final(state).regs@,
                (vd.index() * s.vlenb()) as int,
                (vd.index() * s.vlenb() + s.vl * sew.bytes()) as int,
            )
            &&& forall|i: nat|
                i < s.vl ==> #[trigger] iota_post(s, *final(state), vd, vs2, vm, s.vl as nat, sew, i)
        },
{
    if !state.vector_allowed {
        return Err(ExecutionError::IllegalInstruction { address: old_pc });
    }
    let vtype = match state.vtype {
        Some(vt) => vt,
        None => {
            return Err(ExecutionError::IllegalInstruction { address: old_pc });
        },
    };
    if state.vstart != 0 {
        return Err(ExecutionError::IllegalInstruction { address: old_pc });
    }
    let group_regs = vtype.vlmul.register_count();
    let vd_idx = vd.to_bits();
    if vd_idx % group_regs != 0 || vd_idx as u16 + group_regs as u16 > 32 {
        return Err(ExecutionError::IllegalInstruction { address: old_pc });
    }
    let vd_start = vd_idx as u32;
    let vs2_start = vs2.to_bits() as u32;
    if vd_start < vs2_start + 1 && vs2_start < vd_start + group_regs as u32 {
        return Err(ExecutionError::IllegalInstruction { address: old_pc });
    }
    if !vm && vd_idx == 0 {
        return Err(ExecutionError::IllegalInstruction { address: old_pc });
    }
    let sew = vtype.vsew;
    let vl = state.vl;
    let ghost s0 = *state;
    proof {
        lemma_vl_bound(s0);
        s0.regs.lemma_wf();
        lemma_sew_group_fits(s0, vtype, vd);
    }
    execute_viota(state, vd, vs2, vm, vl, sew);
    Ok(())
}

/// `vid.v` is legal in `s`: `mask_instruction_allowed`, `vd` is aligned to `LMUL` registers,
/// and a masked instruction does not write `v0`.
pub open spec fn vid_legal(s: VectorState, vd: VReg, vm: bool) -> bool {
    &&& s.vector_allowed
    &&& s.vtype matches Some(vt) && aligned(vd, vt.vlmul.regs())
    &&& (vm || vd.index() != 0)
}

/// Execute `vid.v`: an illegal instruction, leaving the state as it is, unless `vid_legal`;
/// then `vid_post` holds of every element `i < vl` of `vd`, the registers outside `vd`'s
/// elements are unchanged, the state is marked dirty and `vstart` reset.
pub fn execute_vid_instruction(state: &mut VectorState, old_pc: u64, vd: VReg, vm: bool) -> (r:
    Result<(), ExecutionError>)
    requires
        old(state).wf(),
    ensures
        final(state).wf(),
        !vid_legal(*old(state), vd, vm) ==> r == Err::<(), ExecutionError>(
            ExecutionError::IllegalInstruction { address: old_pc },
        ) && *final(state) == *old(state),
        vid_legal(*old(state), vd, vm) ==> {
            let s = *old(state);
            let sew = s.vtype->Some_0.vsew;
            &&& r == Ok::<(), ExecutionError>(())
            &&& final(state).same_config(s)
            &&& final(state).vs_dirty
            &&& final(state).vstart == 0
            &&& unchanged_outside(
                s.regs@,
                final(state).regs@,
                (vd.index() * s.vlenb()) as int,
                (vd.index() * s.vlenb() + s.vl * sew.bytes()) as int,
            )
            &&& forall|i: nat| i < s.vl ==> #[trigger] vid_post(s, *final(state), vd, vm, sew, i)
        },
{
    if !state.vector_allowed {
        return Err(ExecutionError::IllegalInstruction { address: old_pc });
    }
    let vtype = match state.vtype {
        Some(vt) => vt,
        None => {
            return Err(ExecutionError::IllegalInstruction { address: old_pc });
        },
    };
    let group_regs = vtype.vlmul.register_count();
    let vd_idx = vd.to_bits();
    if vd_idx % group_regs != 0 || vd_idx as u16 + group_regs as u16 > 32 {
        return Err(ExecutionError::IllegalInstruction { address: old_pc });
    }
    if !vm && vd_idx == 0 {
        return Err(ExecutionError::IllegalInstruction { address: old_pc });
    }
    let sew = vtype.vsew;
    proof {
        lemma_sew_group_fits(*state, vtype, vd);
    }
    execute_vid(state, vd, vm, sew);
    Ok(())
}

} // verus!
