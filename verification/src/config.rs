//! `vsetvl`, `vsetvli` and `vsetivli`: choosing `vtype` and `vl`.

use vstd::prelude::*;
use crate::state::{compute_vl, VectorState};
use crate::types::{vtype_of_raw, ExecutionError, Vtype};

verus! {

/// `VLMAX` of a `vtype` for the state's register width.
pub open spec fn vlmax_of(s: VectorState, vt: Vtype) -> nat {
    vt.vlmul.max_len(s.vlen(), vt.vsew)
}

/// `min(a, b)`.
pub open spec fn min_nat(a: nat, b: nat) -> nat {
    if a <= b {
        a
    } else {
        b
    }
}

/// The `(vtype, vl)` chosen by `vsetvl`/`vsetvli` with destination `rd`, source `rs1` (register
/// numbers) holding `rs1_value`, and the decoded new `vtype` (`None` when the requested `vtype`
/// is not supported):
/// - unsupported `vtype`: `vtype` illegal and `vl = 0`;
/// - `rs1 != x0`: `AVL` is the whole of `rs1_value` and `vl = min(AVL, VLMAX)`;
/// - `rs1 = x0`, `rd != x0`: `vl = VLMAX`;
/// - `rs1 = x0`, `rd = x0`: `vl` is kept (`min(vl, VLMAX)`) when `VLMAX` does not change, else
///   `vtype` becomes illegal and `vl = 0`.
pub open spec fn vsetvl_config(
    s: VectorState,
    rd: u8,
    rs1: u8,
    rs1_value: u64,
    new_vtype: Option<Vtype>,
) -> (Option<Vtype>, nat) {
    match new_vtype {
        None => (None, 0),
        Some(vt) => {
            let vlmax = vlmax_of(s, vt);
            if rs1 != 0 {
                (Some(vt), min_nat(rs1_value as nat, vlmax))
            } else if rd != 0 {
                (Some(vt), vlmax)
            } else {
                let old_vlmax = match s.vtype {
                    Some(o) => vlmax_of(s, o),
                    None => 0,
                };
                if vlmax != old_vlmax {
                    (None, 0)
                } else {
                    (Some(vt), min_nat(s.vl as nat, vlmax))
                }
            }
        },
    }
}

/// What an applied configuration leaves of the rest of the state.
pub open spec fn config_applied(old: VectorState, new: VectorState, vtype: Option<Vtype>, vl: nat) -> bool {
    &&& new.wf()
    &&& new.vtype == vtype
    &&& new.vl == vl
    &&& new.vs_dirty
    &&& new.vstart == 0
    &&& new.regs == old.regs
    &&& new.vxrm == old.vxrm
    &&& new.vxsat == old.vxsat
    &&& new.vector_allowed == old.vector_allowed
    &&& new.elen == old.elen
}

/// Set `vtype` and `vl` as `vsetvl_config` says for an already decoded `vtype` and return the
/// value for `rd` (the new `vl`). When vector instructions are not allowed the state is
/// unchanged and the instruction at `old_pc` is illegal.
pub fn configure_vsetvl(
    state: &mut VectorState,
    old_pc: u64,
    rd: u8,
    rs1: u8,
    rs1_value: u64,
    new_vtype: Option<Vtype>,
) -> (r: Result<u64, ExecutionError>)
    requires
        old(state).wf(),
        new_vtype matches Some(vt) ==> vt.legal(old(state).elen as nat, old(state).vlen()),
    ensures
        !old(state).vector_allowed ==> r == Err::<u64, ExecutionError>(
            ExecutionError::IllegalInstruction { address: old_pc },
        ) && *final(state) == *old(state),
        old(state).vector_allowed ==> {
            let cfg = vsetvl_config(*old(state), rd, rs1, rs1_value, new_vtype);
            &&& config_applied(*old(state), *final(state), cfg.0, cfg.1)
            &&& r == Ok::<u64, ExecutionError>(cfg.1 as u64)
        },
{
    if !state.vector_allowed {
        return Err(ExecutionError::IllegalInstruction { address: old_pc });
    }
    let new_vtype = match new_vtype {
        Some(vt) => vt,
        None => {
            state.vtype = None;
            state.vl = 0;
            state.mark_vs_dirty();
            state.reset_vstart();
            return Ok(0);
        },
    };
    let vlmax = state.vlmax_for_vtype(new_vtype);
    let new_vl = if rs1 != 0 {
        // `VLMAX` fits in 32 bits, so saturating `AVL` there keeps `min(AVL, VLMAX)`
        let avl: u32 = if rs1_value > 0xffff_ffff {
            0xffff_ffff
        } else {
            rs1_value as u32
        };
        compute_vl(avl, vlmax)
    } else if rd != 0 {
        vlmax
    } else {
        let current_vl = state.vl;
        let old_vlmax = match state.vtype {
            Some(old_vtype) => state.vlmax_for_vtype(old_vtype),
            None => 0,
        };
        if vlmax != old_vlmax {
            state.vtype = None;
            state.vl = 0;
            state.mark_vs_dirty();
            state.reset_vstart();
            return Ok(0);
        }
        compute_vl(current_vl, vlmax)
    };
    state.vtype = Some(new_vtype);
    state.vl = new_vl;
    state.mark_vs_dirty();
    state.reset_vstart();
    Ok(new_vl as u64)
}

/// `vsetivli` for an already decoded `vtype`: `AVL` is the 5-bit immediate `uimm`;
/// `vl = min(AVL, VLMAX)` for a supported `vtype`, otherwise `vtype` becomes illegal and
/// `vl = 0`. Returns the value for `rd` (the new `vl`). When vector instructions are not allowed
/// the state is unchanged and the instruction at `old_pc` is illegal.
pub fn configure_vsetivli(
    state: &mut VectorState,
    old_pc: u64,
    uimm: u8,
    new_vtype: Option<Vtype>,
) -> (r: Result<u64, ExecutionError>)
    requires
        old(state).wf(),
        new_vtype matches Some(vt) ==> vt.legal(old(state).elen as nat, old(state).vlen()),
    ensures
        !old(state).vector_allowed ==> r == Err::<u64, ExecutionError>(
            ExecutionError::IllegalInstruction { address: old_pc },
        ) && *final(state) == *old(state),
        old(state).vector_allowed ==> {
            let cfg: (Option<Vtype>, nat) = match new_vtype {
                Some(vt) => (Some(vt), min_nat(uimm as nat, vlmax_of(*old(state), vt))),
                None => (None, 0),
            };
            &&& config_applied(*old(state), *final(state), cfg.0, cfg.1)
            &&& r == Ok::<u64, ExecutionError>(cfg.1 as u64)
        },
{
    if !state.vector_allowed {
        return Err(ExecutionError::IllegalInstruction { address: old_pc });
    }
    let rd_value = match new_vtype {
        Some(new_vtype) => {
            let vlmax = state.vlmax_for_vtype(new_vtype);
            let new_vl = compute_vl(uimm as u32, vlmax);
            state.vtype = Some(new_vtype);
            state.vl = new_vl;
            new_vl as u64
        },
        None => {
            state.vtype = None;
            state.vl = 0;
            0
        },
    };
    state.mark_vs_dirty();
    state.reset_vstart();
    Ok(rd_value)
}

/// The `vtype` a raw value requests of the state's implementation (`ELEN`, `VLEN`).
pub open spec fn requested_vtype(s: VectorState, vtype_raw: u64) -> Option<Vtype> {
    vtype_of_raw(vtype_raw as nat, s.elen as nat, s.vlen())
}

/// Decode the raw `vtype` value for the state's `ELEN` and `VLEN`.
fn decode_vtype(state: &VectorState, vtype_raw: u64) -> (r: Option<Vtype>)
    requires
        state.wf(),
    ensures
        r == requested_vtype(*state, vtype_raw),
        r matches Some(vt) ==> vt.legal(state.elen as nat, state.vlen()),
{
    proof {
        state.regs.lemma_wf();
    }
    Vtype::from_raw(vtype_raw, state.elen, state.regs.vlenb() * 8)
}

/// Apply `vsetvli` / `vsetvl` with the raw `vtype` value (the immediate of `vsetvli`, the value
/// of `rs2` for `vsetvl`): it is decoded for the state's `ELEN` and `VLEN` (an unsupported value
/// makes `vtype` illegal), then `vtype` and `vl` are set as `vsetvl_config` says and the new `vl`
/// is returned for `rd`. When vector instructions are not allowed the state is unchanged and the
/// instruction at `old_pc` is illegal.
pub fn apply_vsetvl(
    state: &mut VectorState,
    old_pc: u64,
    rd: u8,
    rs1: u8,
    rs1_value: u64,
    vtype_raw: u64,
) -> (r: Result<u64, ExecutionError>)
    requires
        old(state).wf(),
    ensures
        !old(state).vector_allowed ==> r == Err::<u64, ExecutionError>(
            ExecutionError::IllegalInstruction { address: old_pc },
        ) && *final(state) == *old(state),
        old(state).vector_allowed ==> {
            let cfg = vsetvl_config(
                *old(state),
                rd,
                rs1,
                rs1_value,
                requested_vtype(*old(state), vtype_raw),
            );
            &&& config_applied(*old(state), *final(state), cfg.0, cfg.1)
            &&& r == Ok::<u64, ExecutionError>(cfg.1 as u64)
        },
{
    let new_vtype = decode_vtype(state, vtype_raw);
    configure_vsetvl(state, old_pc, rd, rs1, rs1_value, new_vtype)
}

/// Apply `vsetivli` with its raw 10-bit `vtypei` immediate: it is decoded for the state's `ELEN`
/// and `VLEN` (an unsupported value makes `vtype` illegal); `AVL` is the 5-bit immediate `uimm`
/// and `vl = min(AVL, VLMAX)`. Returns the new `vl` for `rd`. When vector instructions are not
/// allowed the state is unchanged and the instruction at `old_pc` is illegal.
pub fn apply_vsetivli(state: &mut VectorState, old_pc: u64, uimm: u8, vtypei: u16) -> (r: Result<
    u64,
    ExecutionError,
>)
    requires
        old(state).wf(),
    ensures
        !old(state).vector_allowed ==> r == Err::<u64, ExecutionError>(
            ExecutionError::IllegalInstruction { address: old_pc },
        ) && *final(state) == *old(state),
        old(state).vector_allowed ==> {
            let cfg: (Option<Vtype>, nat) = match requested_vtype(*old(state), vtypei as u64) {
                Some(vt) => (Some(vt), min_nat(uimm as nat, vlmax_of(*old(state), vt))),
                None => (None, 0),
            };
            &&& config_applied(*old(state), *final(state), cfg.0, cfg.1)
            &&& r == Ok::<u64, ExecutionError>(cfg.1 as u64)
        },
{
    let new_vtype = decode_vtype(state, vtypei as u64);
    configure_vsetivli(state, old_pc, uimm, new_vtype)
}

} // verus!
