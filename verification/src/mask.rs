//! Mask-register instructions: logical ops, `vcpop`, `vfirst`, `vmsbf`/`vmsof`/`vmsif`,
//! `viota` and `vid`.

use vstd::prelude::*;
use crate::arith::{
    lemma_element_step, lemma_mask_step, lemma_sew_modulus_values, lemma_slot_arith,
    sew_modulus, unchanged_outside, write_element_u64, write_mask_bit,
};
use crate::load::{lemma_snapshot_bit, mask_bit, mask_bit_spec, snapshot_mask, snapshot_spec};
use crate::register_file::{element, mask_bit_of};
use crate::state::{lemma_vl_bound, VectorState};
use crate::types::{lemma_vreg_index_bound, VReg, Vsew};

verus! {

broadcast use lemma_vreg_index_bound;

/// Element `i` is enabled by the execution mask: unmasked, or mask bit `i` of `v0` is set.
pub open spec fn mask_enabled(s: VectorState, vm: bool, i: nat) -> bool {
    vm || mask_bit_of(s.regs@, s.vlenb(), 0, i)
}

/// Number of elements `j < n` that are active (in `[vstart, vl)` and enabled) and whose bit in
/// `vs2` is set.
pub open spec fn active_set_count(s: VectorState, vs2: VReg, vm: bool, n: nat) -> nat
    decreases n,
{
    if n == 0 {
        0
    } else {
        active_set_count(s, vs2, vm, (n - 1) as nat) + if s.is_active(vm, (n - 1) as nat)
            && mask_bit_of(s.regs@, s.vlenb(), vs2.index(), (n - 1) as nat) {
            1nat
        } else {
            0nat
        }
    }
}

/// Number of elements `j < n` that are enabled by the mask and whose bit in `vs2` is set
/// (`vstart` plays no part).
pub open spec fn enabled_set_count(s: VectorState, vs2: VReg, vm: bool, n: nat) -> nat
    decreases n,
{
    if n == 0 {
        0
    } else {
        enabled_set_count(s, vs2, vm, (n - 1) as nat) + if mask_enabled(s, vm, (n - 1) as nat)
            && mask_bit_of(s.regs@, s.vlenb(), vs2.index(), (n - 1) as nat) {
            1nat
        } else {
            0nat
        }
    }
}

/// Some element `j < n` is enabled and has its bit in `vs2` set.
pub open spec fn seen_set_bit(s: VectorState, vs2: VReg, vm: bool, n: nat) -> bool {
    enabled_set_count(s, vs2, vm, n) > 0
}

/// A mask bit of register `r` read from a copy of that register.
pub proof fn lemma_copy_bit(regs: Seq<u8>, vlenb: nat, r: nat, copy: Seq<u8>, i: nat)
    requires
        r < 32,
        regs.len() == 32 * vlenb,
        i < 8 * vlenb,
        copy == regs.subrange((r * vlenb) as int, ((r + 1) * vlenb) as int),
    ensures
        mask_bit_spec(copy, i) == mask_bit_of(regs, vlenb, r, i),
{
    assert((r + 1) * vlenb == r * vlenb + vlenb) by (nonlinear_arith);
    assert(r * vlenb + vlenb <= 32 * vlenb) by (nonlinear_arith)
        requires
            r < 32,
    ;
    assert(i / 8 < vlenb);
}

/// Mask bit `i` of `vd` after a bitwise operation on mask registers over `vstart..vl`.
pub open spec fn logical_bit_post<F: Fn(bool, bool) -> bool>(
    old: VectorState,
    new: VectorState,
    vd: VReg,
    vs2: VReg,
    vs1: VReg,
    op: F,
    i: nat,
) -> bool {
    let l = old.vlenb();
    let d = mask_bit_of(new.regs@, l, vd.index(), i);
    if old.vstart <= i < old.vl {
        exists|r: bool|
            #[trigger] call_ensures(
                op,
                (mask_bit_of(old.regs@, l, vs2.index(), i), mask_bit_of(old.regs@, l, vs1.index(), i)),
                r,
            ) && d == r
    } else {
        d == mask_bit_of(old.regs@, l, vd.index(), i)
    }
}

/// Execute a mask-register logical operation: bit `i` of `vd` becomes `op(vs2[i], vs1[i])` for
/// every `i` in `vstart..vl`; the other bits of `vd` are left undisturbed. Both sources are copied
/// before writing, so `vd` may be either of them. Marks the vector state dirty and resets
/// `vstart`.
pub fn execute_mask_logical_op<F>(state: &mut VectorState, vd: VReg, vs2: VReg, vs1: VReg, op: F)
    where F: Fn(bool, bool) -> bool
    requires
        old(state).wf(),
        forall|a: bool, b: bool| #[trigger] op.requires((a, b)),
    ensures
        final(state).same_config(*old(state)),
        final(state).vs_dirty,
        final(state).vstart == 0,
        unchanged_outside(
            old(state).regs@,
            final(state).regs@,
            (vd.index() * old(state).vlenb()) as int,
            (vd.index() * old(state).vlenb() + old(state).vlenb()) as int,
        ),
        forall|i: nat|
            i < 8 * old(state).vlenb() ==> #[trigger] logical_bit_post(
                *old(state),
                *final(state),
                vd,
                vs2,
                vs1,
                op,
                i,
            ),
{
    let ghost s0 = *state;
    let ghost l = s0.vlenb();
    let ghost r0 = vd.index() * l;
    let vl = state.vl;
    let vstart = state.vstart;
    proof {
        lemma_vl_bound(s0);
        s0.regs.lemma_wf();
        assert(vd.index() * l + l <= 32 * l) by (nonlinear_arith)
            requires
                vd.index() < 32,
        ;
    }
    let vs2_snap = state.regs.get(vs2);
    let vs1_snap = state.regs.get(vs1);
    let mut i: u32 = if (vstart as u32) < vl {
        vstart as u32
    } else {
        vl
    };
    while i < vl
        invariant
            s0.wf(),
            l == s0.vlenb(),
            s0.regs@.len() == 32 * l,
            r0 == vd.index() * l,
            r0 + l <= 32 * l,
            vl == s0.vl,
            vstart == s0.vstart,
            vl <= 8 * l,
            vl <= 65536,
            forall|a: bool, b: bool| #[trigger] op.requires((a, b)),
            vs2_snap@ == s0.regs@.subrange(
                (vs2.index() * l) as int,
                ((vs2.index() + 1) * l) as int,
            ),
            vs1_snap@ == s0.regs@.subrange(
                (vs1.index() * l) as int,
                ((vs1.index() + 1) * l) as int,
            ),
            state.same_config(s0),
            state.vs_dirty == s0.vs_dirty,
            state.vstart == s0.vstart,
            i <= vl,
            i < vl ==> vstart <= i,
            unchanged_outside(s0.regs@, state.regs@, r0 as int, (r0 + (i + 7) / 8) as int),
            forall|j: nat|
                i <= j < 8 * l ==> #[trigger] mask_bit_of(state.regs@, l, vd.index(), j)
                    == mask_bit_of(s0.regs@, l, vd.index(), j),
            forall|j: nat|
                j < i ==> #[trigger] logical_bit_post(s0, *state, vd, vs2, vs1, op, j),
        decreases vl - i,
    {
        let ghost cur = *state;
        proof {
            lemma_copy_bit(s0.regs@, l, vs2.index(), vs2_snap@, i as nat);
            lemma_copy_bit(s0.regs@, l, vs1.index(), vs1_snap@, i as nat);
        }
        let a = mask_bit(&vs2_snap, i as u16);
        let b = mask_bit(&vs1_snap, i as u16);
        let out = op(a, b);
        write_mask_bit(&mut state.regs, vd, i as u16, out);
        proof {
            lemma_mask_step(s0.regs@, cur.regs@, state.regs@, l, vd.index(), i as nat, true, out);
            assert(call_ensures(op, (a, b), out));
            assert forall|j: nat| j < i + 1 implies #[trigger] logical_bit_post(
                s0,
                *state,
                vd,
                vs2,
                vs1,
                op,
                j,
            ) by {
                if j < i {
                    assert(logical_bit_post(s0, cur, vd, vs2, vs1, op, j));
                }
            }
        }
        i = i + 1;
    }
    let ghost fin = *state;
    state.mark_vs_dirty();
    state.reset_vstart();
    proof {
        assert forall|j: nat| j < 8 * l implies #[trigger] logical_bit_post(
            s0,
            *state,
            vd,
            vs2,
            vs1,
            op,
            j,
        ) by {
            if j < i {
                assert(logical_bit_post(s0, fin, vd, vs2, vs1, op, j));
            }
        }
        assert((i + 7) / 8 <= l);
    }
}

/// The first `vstart` elements are never counted.
pub proof fn lemma_count_below_vstart(s: VectorState, vs2: VReg, vm: bool, n: nat)
    requires
        n <= s.vstart,
    ensures
        active_set_count(s, vs2, vm, n) == 0,
    decreases n,
{
    if n > 0 {
        lemma_count_below_vstart(s, vs2, vm, (n - 1) as nat);
    }
}

/// A count over the first `n` elements is at most `n`.
pub proof fn lemma_count_bound(s: VectorState, vs2: VReg, vm: bool, n: nat)
    ensures
        active_set_count(s, vs2, vm, n) <= n,
        enabled_set_count(s, vs2, vm, n) <= n,
    decreases n,
{
    if n > 0 {
        lemma_count_bound(s, vs2, vm, (n - 1) as nat);
    }
}

/// `vcpop.m`: the number of active elements (in `vstart..vl`, enabled by the mask) whose bit in
/// `vs2` is set. Marks the vector state dirty and resets `vstart`; registers are unchanged.
pub fn execute_vcpop(state: &mut VectorState, vs2: VReg, vm: bool) -> (r: u32)
    requires
        old(state).wf(),
    ensures
        r == active_set_count(*old(state), vs2, vm, old(state).vl as nat),
        final(state).same_config(*old(state)),
        final(state).regs == old(state).regs,
        final(state).vs_dirty,
        final(state).vstart == 0,
{
    let ghost s0 = *state;
    let ghost l = s0.vlenb();
    let vl = state.vl;
    let vstart = state.vstart;
    proof {
        lemma_vl_bound(s0);
        s0.regs.lemma_wf();
    }
    let mask_buf = snapshot_mask(&state.regs, vm, vl);
    let vs2_reg = state.regs.get(vs2);
    let mut count: u32 = 0;
    let mut i: u32 = if (vstart as u32) < vl {
        vstart as u32
    } else {
        vl
    };
    proof {
        lemma_count_below_vstart(s0, vs2, vm, i as nat);
    }
    while i < vl
        invariant
            s0.wf(),
            *state == s0,
            l == s0.vlenb(),
            s0.regs@.len() == 32 * l,
            vl == s0.vl,
            vstart == s0.vstart,
            vl <= 8 * l,
            vl <= 65536,
            mask_buf@ == snapshot_spec(s0.regs@, l, vm, vl as nat),
            vs2_reg@ == s0.regs@.subrange(
                (vs2.index() * l) as int,
                ((vs2.index() + 1) * l) as int,
            ),
            i <= vl,
            i < vl ==> vstart <= i,
            count == active_set_count(s0, vs2, vm, i as nat),
        decreases vl - i,
    {
        proof {
            lemma_snapshot_bit(s0.regs@, l, vm, vl as nat, i as nat);
            lemma_copy_bit(s0.regs@, l, vs2.index(), vs2_reg@, i as nat);
            lemma_count_bound(s0, vs2, vm, i as nat);
        }
        if mask_bit(&mask_buf, i as u16) {
            if mask_bit(&vs2_reg, i as u16) {
                count = count + 1;
            }
        }
        i = i + 1;
    }
    state.mark_vs_dirty();
    state.reset_vstart();
    count
}

/// `vfirst.m`: the index of the lowest-numbered element below `vl` that is enabled by the mask
/// and whose bit in `vs2` is set, or `-1` when there is none; the search starts at element 0,
/// whatever `vstart` is. Marks the vector state dirty and resets `vstart`; registers are
/// unchanged.
pub fn execute_vfirst(state: &mut VectorState, vs2: VReg, vm: bool) -> (r: i64)
    requires
        old(state).wf(),
    ensures
        r == -1 <==> enabled_set_count(*old(state), vs2, vm, old(state).vl as nat) == 0,
        r != -1 ==> {
            &&& 0 <= r < old(state).vl
            &&& mask_enabled(*old(state), vm, r as nat)
            &&& mask_bit_of(old(state).regs@, old(state).vlenb(), vs2.index(), r as nat)
            &&& enabled_set_count(*old(state), vs2, vm, r as nat) == 0
        },
        final(state).same_config(*old(state)),
        final(state).regs == old(state).regs,
        final(state).vs_dirty,
        final(state).vstart == 0,
{
    let ghost s0 = *state;
    let ghost l = s0.vlenb();
    let vl = state.vl;
    proof {
        lemma_vl_bound(s0);
        s0.regs.lemma_wf();
    }
    let mask_buf = snapshot_mask(&state.regs, vm, vl);
    let vs2_reg = state.regs.get(vs2);
    let mut result: i64 = -1;
    let mut i: u32 = 0;
    while i < vl
        invariant_except_break
            enabled_set_count(s0, vs2, vm, i as nat) == 0,
            result == -1,
        invariant
            s0.wf(),
            *state == s0,
            l == s0.vlenb(),
            s0.regs@.len() == 32 * l,
            vl == s0.vl,
            vl <= 8 * l,
            vl <= 65536,
            mask_buf@ == snapshot_spec(s0.regs@, l, vm, vl as nat),
            vs2_reg@ == s0.regs@.subrange(
                (vs2.index() * l) as int,
                ((vs2.index() + 1) * l) as int,
            ),
            i <= vl,
        ensures
            result == -1 ==> enabled_set_count(s0, vs2, vm, vl as nat) == 0,
            result != -1 ==> {
                &&& 0 <= result < vl
                &&& mask_enabled(s0, vm, result as nat)
                &&& mask_bit_of(s0.regs@, l, vs2.index(), result as nat)
                &&& enabled_set_count(s0, vs2, vm, result as nat) == 0
            },
        decreases vl - i,
    {
        proof {
            lemma_snapshot_bit(s0.regs@, l, vm, vl as nat, i as nat);
            lemma_copy_bit(s0.regs@, l, vs2.index(), vs2_reg@, i as nat);
        }
        if mask_bit(&mask_buf, i as u16) && mask_bit(&vs2_reg, i as u16) {
            result = i as i64;
            break;
        }
        i = i + 1;
    }
    proof {
        if result != -1 {
            lemma_count_monotone(s0, vs2, vm, (result + 1) as nat, vl as nat);
        }
    }
    state.mark_vs_dirty();
    state.reset_vstart();
    result
}

/// Counts only grow with the number of elements considered.
pub proof fn lemma_count_monotone(s: VectorState, vs2: VReg, vm: bool, a: nat, b: nat)
    requires
        a <= b,
    ensures
        active_set_count(s, vs2, vm, a) <= active_set_count(s, vs2, vm, b),
        enabled_set_count(s, vs2, vm, a) <= enabled_set_count(s, vs2, vm, b),
    decreases b,
{
    if a < b {
        lemma_count_monotone(s, vs2, vm, a, (b - 1) as nat);
    }
}

/// `vmsbf.m` result bit for element `i`: no enabled set bit before `i` and bit `i` clear.
pub open spec fn sbf_bit(s: VectorState, vs2: VReg, vm: bool, i: nat) -> bool {
    !seen_set_bit(s, vs2, vm, i) && !mask_bit_of(s.regs@, s.vlenb(), vs2.index(), i)
}

/// `vmsof.m` result bit for element `i`: bit `i` is the first enabled set bit.
pub open spec fn sof_bit(s: VectorState, vs2: VReg, vm: bool, i: nat) -> bool {
    !seen_set_bit(s, vs2, vm, i) && mask_bit_of(s.regs@, s.vlenb(), vs2.index(), i)
}

/// `vmsif.m` result bit for element `i`: no enabled set bit before `i`.
pub open spec fn sif_bit(s: VectorState, vs2: VReg, vm: bool, i: nat) -> bool {
    !seen_set_bit(s, vs2, vm, i)
}

/// Mask bit `i` of `vd` after a set-before/only/including-first operation over `0..vl`.
pub open spec fn first_bit_post(
    old: VectorState,
    new: VectorState,
    vd: VReg,
    vm: bool,
    vl: nat,
    i: nat,
    value: bool,
) -> bool {
    let d = mask_bit_of(new.regs@, old.vlenb(), vd.index(), i);
    if i < vl && mask_enabled(old, vm, i) {
        d == value
    } else {
        d == mask_bit_of(old.regs@, old.vlenb(), vd.index(), i)
    }
}

/// `vmsbf.m`: for each element `i < vl` enabled by the mask, bit `i` of `vd` becomes
/// set when no enabled element before `i` has its `vs2` bit set and bit `i` of `vs2`
/// is clear (set-before-first). Disabled and tail bits are left undisturbed.
/// `vstart` is taken to be zero and is left as it is; marks the vector state dirty.
pub fn execute_vmsbf(state: &mut VectorState, vd: VReg, vs2: VReg, vm: bool, vl: u32)
    requires
        old(state).wf(),
        vl <= 8 * old(state).vlenb(),
    ensures
        final(state).same_config(*old(state)),
        final(state).vs_dirty,
        final(state).vstart == old(state).vstart,
        unchanged_outside(
            old(state).regs@,
            final(state).regs@,
            (vd.index() * old(state).vlenb()) as int,
            (vd.index() * old(state).vlenb() + old(state).vlenb()) as int,
        ),
        forall|i: nat|
            i < 8 * old(state).vlenb() ==> #[trigger] first_bit_post(
                *old(state),
                *final(state),
                vd,
                vm,
                vl as nat,
                i,
                sbf_bit(*old(state), vs2, vm, i),
            ),
{
    let ghost s0 = *state;
    let ghost l = s0.vlenb();
    let ghost r0 = vd.index() * l;
    proof {
        lemma_vl_bound(s0);
        s0.regs.lemma_wf();
        assert(vd.index() * l + l <= 32 * l) by (nonlinear_arith)
            requires
                vd.index() < 32,
        ;
    }
    let mask_buf = snapshot_mask(&state.regs, vm, vl);
    let vs2_snap = state.regs.get(vs2);
    let mut found_first = false;
    let mut i: u32 = 0;
    while i < vl
        invariant
            s0.wf(),
            l == s0.vlenb(),
            s0.regs@.len() == 32 * l,
            r0 == vd.index() * l,
            r0 + l <= 32 * l,
            vl <= 8 * l,
            l <= 8192,
            mask_buf@ == snapshot_spec(s0.regs@, l, vm, vl as nat),
            vs2_snap@ == s0.regs@.subrange(
                (vs2.index() * l) as int,
                ((vs2.index() + 1) * l) as int,
            ),
            state.same_config(s0),
            state.vs_dirty == s0.vs_dirty,
            state.vstart == s0.vstart,
            i <= vl,
            found_first == seen_set_bit(s0, vs2, vm, i as nat),
            unchanged_outside(s0.regs@, state.regs@, r0 as int, (r0 + (i + 7) / 8) as int),
            forall|j: nat|
                i <= j < 8 * l ==> #[trigger] mask_bit_of(state.regs@, l, vd.index(), j)
                    == mask_bit_of(s0.regs@, l, vd.index(), j),
            forall|j: nat|
                j < i ==> #[trigger] first_bit_post(
                    s0,
                    *state,
                    vd,
                    vm,
                    vl as nat,
                    j,
                    sbf_bit(s0, vs2, vm, j),
                ),
        decreases vl - i,
    {
        let ghost cur = *state;
        proof {
            lemma_snapshot_bit(s0.regs@, l, vm, vl as nat, i as nat);
            lemma_copy_bit(s0.regs@, l, vs2.index(), vs2_snap@, i as nat);
        }
        if mask_bit(&mask_buf, i as u16) {
            let vs2_bit = mask_bit(&vs2_snap, i as u16);
            let result = !found_first && !vs2_bit;
            if vs2_bit {
                found_first = true;
            }
            write_mask_bit(&mut state.regs, vd, i as u16, result);
            proof {
                lemma_mask_step(
                    s0.regs@,
                    cur.regs@,
                    state.regs@,
                    l,
                    vd.index(),
                    i as nat,
                    true,
                    result,
                );
            }
        } else {
            proof {
                lemma_mask_step(
                    s0.regs@,
                    cur.regs@,
                    state.regs@,
                    l,
                    vd.index(),
                    i as nat,
                    false,
                    false,
                );
            }
        }
        proof {
            assert forall|j: nat| j < i + 1 implies #[trigger] first_bit_post(
                s0,
                *state,
                vd,
                vm,
                vl as nat,
                j,
                sbf_bit(s0, vs2, vm, j),
            ) by {
                if j < i {
                    assert(first_bit_post(s0, cur, vd, vm, vl as nat, j, sbf_bit(s0, vs2, vm, j)));
                }
            }
        }
        i = i + 1;
    }
    let ghost fin = *state;
    state.mark_vs_dirty();
    proof {
        assert forall|j: nat| j < 8 * l implies #[trigger] first_bit_post(
            s0,
            *state,
            vd,
            vm,
            vl as nat,
            j,
            sbf_bit(s0, vs2, vm, j),
        ) by {
            if j < vl {
                assert(first_bit_post(s0, fin, vd, vm, vl as nat, j, sbf_bit(s0, vs2, vm, j)));
            }
        }
        assert((i + 7) / 8 <= l);
    }
}

/// `vmsof.m`: for each element `i < vl` enabled by the mask, bit `i` of `vd` becomes
/// set only when bit `i` of `vs2` is the first enabled set bit (set-only-first). Disabled and tail bits are left undisturbed.
/// `vstart` is taken to be zero and is left as it is; marks the vector state dirty.
pub fn execute_vmsof(state: &mut VectorState, vd: VReg, vs2: VReg, vm: bool, vl: u32)
    requires
        old(state).wf(),
        vl <= 8 * old(state).vlenb(),
    ensures
        final(state).same_config(*old(state)),
        final(state).vs_dirty,
        final(state).vstart == old(state).vstart,
        unchanged_outside(
            old(state).regs@,
            final(state).regs@,
            (vd.index() * old(state).vlenb()) as int,
            (vd.index() * old(state).vlenb() + old(state).vlenb()) as int,
        ),
        forall|i: nat|
            i < 8 * old(state).vlenb() ==> #[trigger] first_bit_post(
                *old(state),
                *final(state),
                vd,
                vm,
                vl as nat,
                i,
                sof_bit(*old(state), vs2, vm, i),
            ),
{
    let ghost s0 = *state;
    let ghost l = s0.vlenb();
    let ghost r0 = vd.index() * l;
    proof {
        lemma_vl_bound(s0);
        s0.regs.lemma_wf();
        assert(vd.index() * l + l <= 32 * l) by (nonlinear_arith)
            requires
                vd.index() < 32,
        ;
    }
    let mask_buf = snapshot_mask(&state.regs, vm, vl);
    let vs2_snap = state.regs.get(vs2);
    let mut found_first = false;
    let mut i: u32 = 0;
    while i < vl
        invariant
            s0.wf(),
            l == s0.vlenb(),
            s0.regs@.len() == 32 * l,
            r0 == vd.index() * l,
            r0 + l <= 32 * l,
            vl <= 8 * l,
            l <= 8192,
            mask_buf@ == snapshot_spec(s0.regs@, l, vm, vl as nat),
            vs2_snap@ == s0.regs@.subrange(
                (vs2.index() * l) as int,
                ((vs2.index() + 1) * l) as int,
            ),
            state.same_config(s0),
            state.vs_dirty == s0.vs_dirty,
            state.vstart == s0.vstart,
            i <= vl,
            found_first == seen_set_bit(s0, vs2, vm, i as nat),
            unchanged_outside(s0.regs@, state.regs@, r0 as int, (r0 + (i + 7) / 8) as int),
            forall|j: nat|
                i <= j < 8 * l ==> #[trigger] mask_bit_of(state.regs@, l, vd.index(), j)
                    == mask_bit_of(s0.regs@, l, vd.index(), j),
            forall|j: nat|
                j < i ==> #[trigger] first_bit_post(
                    s0,
                    *state,
                    vd,
                    vm,
                    vl as nat,
                    j,
                    sof_bit(s0, vs2, vm, j),
                ),
        decreases vl - i,
    {
        let ghost cur = *state;
        proof {
            lemma_snapshot_bit(s0.regs@, l, vm, vl as nat, i as nat);
            lemma_copy_bit(s0.regs@, l, vs2.index(), vs2_snap@, i as nat);
        }
        if mask_bit(&mask_buf, i as u16) {
            let vs2_bit = mask_bit(&vs2_snap, i as u16);
            let result = !found_first && vs2_bit;
            if vs2_bit && !found_first {
                found_first = true;
            }
            write_mask_bit(&mut state.regs, vd, i as u16, result);
            proof {
                lemma_mask_step(
                    s0.regs@,
                    cur.regs@,
                    state.regs@,
                    l,
                    vd.index(),
                    i as nat,
                    true,
                    result,
                );
            }
        } else {
            proof {
                lemma_mask_step(
                    s0.regs@,
                    cur.regs@,
                    state.regs@,
                    l,
                    vd.index(),
                    i as nat,
                    false,
                    false,
                );
            }
        }
        proof {
            assert forall|j: nat| j < i + 1 implies #[trigger] first_bit_post(
                s0,
                *state,
                vd,
                vm,
                vl as nat,
                j,
                sof_bit(s0, vs2, vm, j),
            ) by {
                if j < i {
                    assert(first_bit_post(s0, cur, vd, vm, vl as nat, j, sof_bit(s0, vs2, vm, j)));
                }
            }
        }
        i = i + 1;
    }
    let ghost fin = *state;
    state.mark_vs_dirty();
    proof {
        assert forall|j: nat| j < 8 * l implies #[trigger] first_bit_post(
            s0,
            *state,
            vd,
            vm,
            vl as nat,
            j,
            sof_bit(s0, vs2, vm, j),
        ) by {
            if j < vl {
                assert(first_bit_post(s0, fin, vd, vm, vl as nat, j, sof_bit(s0, vs2, vm, j)));
            }
        }
        assert((i + 7) / 8 <= l);
    }
}

/// `vmsif.m`: for each element `i < vl` enabled by the mask, bit `i` of `vd` becomes
/// set when no enabled element before `i` has its `vs2` bit set (set-including-first). Disabled and tail bits are left undisturbed.
/// `vstart` is taken to be zero and is left as it is; marks the vector state dirty.
pub fn execute_vmsif(state: &mut VectorState, vd: VReg, vs2: VReg, vm: bool, vl: u32)
    requires
        old(state).wf(),
        vl <= 8 * old(state).vlenb(),
    ensures
        final(state).same_config(*old(state)),
        final(state).vs_dirty,
        final(state).vstart == old(state).vstart,
        unchanged_outside(
            old(state).regs@,
            final(state).regs@,
            (vd.index() * old(state).vlenb()) as int,
            (vd.index() * old(state).vlenb() + old(state).vlenb()) as int,
        ),
        forall|i: nat|
            i < 8 * old(state).vlenb() ==> #[trigger] first_bit_post(
                *old(state),
                *final(state),
                vd,
                vm,
                vl as nat,
                i,
                sif_bit(*old(state), vs2, vm, i),
            ),
{
    let ghost s0 = *state;
    let ghost l = s0.vlenb();
    let ghost r0 = vd.index() * l;
    proof {
        lemma_vl_bound(s0);
        s0.regs.lemma_wf();
        assert(vd.index() * l + l <= 32 * l) by (nonlinear_arith)
            requires
                vd.index() < 32,
        ;
    }
    let mask_buf = snapshot_mask(&state.regs, vm, vl);
    let vs2_snap = state.regs.get(vs2);
    let mut found_first = false;
    let mut i: u32 = 0;
    while i < vl
        invariant
            s0.wf(),
            l == s0.vlenb(),
            s0.regs@.len() == 32 * l,
            r0 == vd.index() * l,
            r0 + l <= 32 * l,
            vl <= 8 * l,
            l <= 8192,
            mask_buf@ == snapshot_spec(s0.regs@, l, vm, vl as nat),
            vs2_snap@ == s0.regs@.subrange(
                (vs2.index() * l) as int,
                ((vs2.index() + 1) * l) as int,
            ),
            state.same_config(s0),
            state.vs_dirty == s0.vs_dirty,
            state.vstart == s0.vstart,
            i <= vl,
            found_first == seen_set_bit(s0, vs2, vm, i as nat),
            unchanged_outside(s0.regs@, state.regs@, r0 as int, (r0 + (i + 7) / 8) as int),
            forall|j: nat|
                i <= j < 8 * l ==> #[trigger] mask_bit_of(state.regs@, l, vd.index(), j)
                    == mask_bit_of(s0.regs@, l, vd.index(), j),
            forall|j: nat|
                j < i ==> #[trigger] first_bit_post(
                    s0,
                    *state,
                    vd,
                    vm,
                    vl as nat,
                    j,
                    sif_bit(s0, vs2, vm, j),
                ),
        decreases vl - i,
    {
        let ghost cur = *state;
        proof {
            lemma_snapshot_bit(s0.regs@, l, vm, vl as nat, i as nat);
            lemma_copy_bit(s0.regs@, l, vs2.index(), vs2_snap@, i as nat);
        }
        if mask_bit(&mask_buf, i as u16) {
            let vs2_bit = mask_bit(&vs2_snap, i as u16);
            let result = !found_first;
            if vs2_bit {
                found_first = true;
            }
            write_mask_bit(&mut state.regs, vd, i as u16, result);
            proof {
                lemma_mask_step(
                    s0.regs@,
                    cur.regs@,
                    state.regs@,
                    l,
                    vd.index(),
                    i as nat,
                    true,
                    result,
                );
            }
        } else {
            proof {
                lemma_mask_step(
                    s0.regs@,
                    cur.regs@,
                    state.regs@,
                    l,
                    vd.index(),
                    i as nat,
                    false,
                    false,
                );
            }
        }
        proof {
            assert forall|j: nat| j < i + 1 implies #[trigger] first_bit_post(
                s0,
                *state,
                vd,
                vm,
                vl as nat,
                j,
                sif_bit(s0, vs2, vm, j),
            ) by {
                if j < i {
                    assert(first_bit_post(s0, cur, vd, vm, vl as nat, j, sif_bit(s0, vs2, vm, j)));
                }
            }
        }
        i = i + 1;
    }
    let ghost fin = *state;
    state.mark_vs_dirty();
    proof {
        assert forall|j: nat| j < 8 * l implies #[trigger] first_bit_post(
            s0,
            *state,
            vd,
            vm,
            vl as nat,
            j,
            sif_bit(s0, vs2, vm, j),
        ) by {
            if j < vl {
                assert(first_bit_post(s0, fin, vd, vm, vl as nat, j, sif_bit(s0, vs2, vm, j)));
            }
        }
        assert((i + 7) / 8 <= l);
    }
}

/// Element `i` of `vd` after `viota.m` over `0..vl`.
pub open spec fn iota_post(old: VectorState, new: VectorState, vd: VReg, vs2: VReg, vm: bool, vl: nat, sew: Vsew, i: nat) -> bool {
    let d = element(new.regs@, old.vlenb(), vd.index(), i, sew.bytes());
    if i < vl && mask_enabled(old, vm, i) {
        d == enabled_set_count(old, vs2, vm, i) % sew_modulus(sew)
    } else {
        d == element(old.regs@, old.vlenb(), vd.index(), i, sew.bytes())
    }
}

/// `viota.m`: each element `i < vl` of `vd` enabled by the mask becomes the number of enabled
/// elements `j < i` whose bit in `vs2` is set, truncated to SEW. Disabled elements are left
/// undisturbed. `vstart` is taken to be zero. Marks the vector state dirty and resets `vstart`.
pub fn execute_viota(state: &mut VectorState, vd: VReg, vs2: VReg, vm: bool, vl: u32, sew: Vsew)
    requires
        old(state).wf(),
        vl <= 8 * old(state).vlenb(),
        vd.index() * old(state).vlenb() + vl * sew.bytes() <= 32 * old(state).vlenb(),
    ensures
        final(state).same_config(*old(state)),
        final(state).vs_dirty,
        final(state).vstart == 0,
        unchanged_outside(
            old(state).regs@,
            final(state).regs@,
            (vd.index() * old(state).vlenb()) as int,
            (vd.index() * old(state).vlenb() + vl * sew.bytes()) as int,
        ),
        forall|i: nat|
            i < vl ==> #[trigger] iota_post(*old(state), *final(state), vd, vs2, vm, vl as nat, sew, i),
{
    let ghost s0 = *state;
    let ghost l = s0.vlenb();
    let ghost w = sew.bytes();
    let ghost r0 = vd.index() * l;
    proof {
        lemma_vl_bound(s0);
        s0.regs.lemma_wf();
        lemma_sew_modulus_values(sew);
    }
    let mask_buf = snapshot_mask(&state.regs, vm, vl);
    let vs2_snap = state.regs.get(vs2);
    let mut prefix_count: u64 = 0;
    let mut i: u32 = 0;
    while i < vl
        invariant
            s0.wf(),
            l == s0.vlenb(),
            s0.regs@.len() == 32 * l,
            w == sew.bytes(),
            r0 == vd.index() * l,
            r0 + vl * w <= 32 * l,
            vl <= 8 * l,
            l <= 8192,
            mask_buf@ == snapshot_spec(s0.regs@, l, vm, vl as nat),
            vs2_snap@ == s0.regs@.subrange(
                (vs2.index() * l) as int,
                ((vs2.index() + 1) * l) as int,
            ),
            state.same_config(s0),
            state.vs_dirty == s0.vs_dirty,
            state.vstart == s0.vstart,
            i <= vl,
            prefix_count == enabled_set_count(s0, vs2, vm, i as nat),
            unchanged_outside(s0.regs@, state.regs@, r0 as int, (r0 + i * w) as int),
            forall|j: nat|
                j < i ==> #[trigger] iota_post(s0, *state, vd, vs2, vm, vl as nat, sew, j),
        decreases vl - i,
    {
        let ghost cur = *state;
        proof {
            lemma_snapshot_bit(s0.regs@, l, vm, vl as nat, i as nat);
            lemma_copy_bit(s0.regs@, l, vs2.index(), vs2_snap@, i as nat);
            lemma_slot_arith(i as nat, vl as nat, w);
            lemma_count_bound(s0, vs2, vm, i as nat);
        }
        if mask_bit(&mask_buf, i as u16) {
            write_element_u64(&mut state.regs, vd, i as u16, sew, prefix_count);
            proof {
                lemma_element_step(
                    s0.regs@,
                    cur.regs@,
                    state.regs@,
                    l,
                    vd.index(),
                    i as nat,
                    w,
                    vl as nat,
                    true,
                    prefix_count as nat,
                );
            }
            if mask_bit(&vs2_snap, i as u16) {
                prefix_count = prefix_count + 1;
            }
        } else {
            proof {
                lemma_element_step(
                    s0.regs@,
                    cur.regs@,
                    state.regs@,
                    l,
                    vd.index(),
                    i as nat,
                    w,
                    vl as nat,
                    false,
                    0,
                );
            }
        }
        proof {
            assert forall|j: nat| j < i + 1 implies #[trigger] iota_post(
                s0,
                *state,
                vd,
                vs2,
                vm,
                vl as nat,
                sew,
                j,
            ) by {
                if j < i {
                    assert(iota_post(s0, cur, vd, vs2, vm, vl as nat, sew, j));
                }
            }
        }
        i = i + 1;
    }
    let ghost fin = *state;
    state.mark_vs_dirty();
    state.reset_vstart();
    proof {
        assert forall|j: nat| j < vl implies #[trigger] iota_post(
            s0,
            *state,
            vd,
            vs2,
            vm,
            vl as nat,
            sew,
            j,
        ) by {
            assert(iota_post(s0, fin, vd, vs2, vm, vl as nat, sew, j));
        }
    }
}

/// Element `i` of `vd` after `vid.v`.
pub open spec fn vid_post(old: VectorState, new: VectorState, vd: VReg, vm: bool, sew: Vsew, i: nat) -> bool {
    let d = element(new.regs@, old.vlenb(), vd.index(), i, sew.bytes());
    if old.is_active(vm, i) {
        d == i % sew_modulus(sew)
    } else {
        d == element(old.regs@, old.vlenb(), vd.index(), i, sew.bytes())
    }
}

/// `vid.v`: each active element `i` (in `vstart..vl`, enabled by the mask) of `vd` becomes `i`,
/// truncated to SEW; the others are left undisturbed. Marks the vector state dirty and resets
/// `vstart`.
pub fn execute_vid(state: &mut VectorState, vd: VReg, vm: bool, sew: Vsew)
    requires
        old(state).wf(),
        old(state).group_fits(vd, sew.bytes()),
    ensures
        final(state).same_config(*old(state)),
        final(state).vs_dirty,
        final(state).vstart == 0,
        unchanged_outside(
            old(state).regs@,
            final(state).regs@,
            (vd.index() * old(state).vlenb()) as int,
            (vd.index() * old(state).vlenb() + old(state).vl * sew.bytes()) as int,
        ),
        forall|i: nat|
            i < old(state).vl ==> #[trigger] vid_post(*old(state), *final(state), vd, vm, sew, i),
{
    let ghost s0 = *state;
    let ghost l = s0.vlenb();
    let ghost w = sew.bytes();
    let ghost r0 = vd.index() * l;
    let vl = state.vl;
    let vstart = state.vstart;
    proof {
        lemma_vl_bound(s0);
        s0.regs.lemma_wf();
    }
    let mask_buf = snapshot_mask(&state.regs, vm, vl);
    let mut i: u32 = if (vstart as u32) < vl {
        vstart as u32
    } else {
        vl
    };
    while i < vl
        invariant
            s0.wf(),
            l == s0.vlenb(),
            w == sew.bytes(),
            r0 == vd.index() * l,
            vl == s0.vl,
            vstart == s0.vstart,
            vl <= 8 * l,
            vl <= 65536,
            s0.group_fits(vd, w),
            mask_buf@ == snapshot_spec(s0.regs@, l, vm, vl as nat),
            state.same_config(s0),
            state.vs_dirty == s0.vs_dirty,
            state.vstart == s0.vstart,
            i <= vl,
            i < vl ==> vstart <= i,
            unchanged_outside(s0.regs@, state.regs@, r0 as int, (r0 + i * w) as int),
            forall|j: nat| j < i ==> #[trigger] vid_post(s0, *state, vd, vm, sew, j),
        decreases vl - i,
    {
        let ghost cur = *state;
        proof {
            s0.regs.lemma_wf();
            lemma_snapshot_bit(s0.regs@, l, vm, vl as nat, i as nat);
            lemma_slot_arith(i as nat, vl as nat, w);
        }
        let active = mask_bit(&mask_buf, i as u16);
        if active {
            write_element_u64(&mut state.regs, vd, i as u16, sew, i as u64);
            proof {
                lemma_element_step(
                    s0.regs@,
                    cur.regs@,
                    state.regs@,
                    l,
                    vd.index(),
                    i as nat,
                    w,
                    vl as nat,
                    true,
                    i as nat,
                );
            }
        } else {
            proof {
                lemma_element_step(
                    s0.regs@,
                    cur.regs@,
                    state.regs@,
                    l,
                    vd.index(),
                    i as nat,
                    w,
                    vl as nat,
                    false,
                    0,
                );
            }
        }
        proof {
            assert forall|j: nat| j < i + 1 implies #[trigger] vid_post(s0, *state, vd, vm, sew, j) by {
                if j < i {
                    assert(vid_post(s0, cur, vd, vm, sew, j));
                }
            }
        }
        i = i + 1;
    }
    let ghost fin = *state;
    state.mark_vs_dirty();
    state.reset_vstart();
    proof {
        assert forall|j: nat| j < vl implies #[trigger] vid_post(s0, *state, vd, vm, sew, j) by {
            assert(vid_post(s0, fin, vd, vm, sew, j));
        }
    }
}

} // verus!
