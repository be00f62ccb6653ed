//! Single-width integer arithmetic and compare helpers, and element / mask-bit access.

use vstd::prelude::*;
use crate::bytes::{
    byte_scale, le_value, le_write, lemma_byte_scale_values, lemma_le_value_frame,
    lemma_le_write_other, lemma_le_write_read, lemma_with_bit,
};
use crate::load::{lemma_snapshot_bit, mask_bit, mask_bit_spec, snapshot_mask, snapshot_spec};
use crate::register_file::{element, mask_bit_of, with_element, with_mask_bit, VectorRegisterFile};
use crate::state::{lemma_vl_bound, VectorState};
use crate::types::{lemma_vreg_index_bound, ExecutionError, OpSrc, VReg, Vsew};

verus! {

broadcast use lemma_vreg_index_bound;

/// `2^SEW`.
pub open spec fn sew_modulus(sew: Vsew) -> nat {
    byte_scale(sew.bytes())
}

/// The low `SEW` bits of `v` read as a two's complement number.
pub open spec fn signed_of(v: nat, sew: Vsew) -> int {
    let m = v % sew_modulus(sew);
    if m >= sew_modulus(sew) / 2 {
        m - sew_modulus(sew)
    } else {
        m as int
    }
}

/// `2^SEW` for each element width.
pub proof fn lemma_sew_modulus_values(sew: Vsew)
    ensures
        sew_modulus(sew) == match sew {
            Vsew::E8 => 0x100nat,
            Vsew::E16 => 0x1_0000nat,
            Vsew::E32 => 0x1_0000_0000nat,
            Vsew::E64 => 0x1_0000_0000_0000_0000nat,
        },
{
    lemma_byte_scale_values();
}

/// Bytes outside `[lo, hi)` are equal and the lengths agree.
pub open spec fn unchanged_outside(old: Seq<u8>, new: Seq<u8>, lo: int, hi: int) -> bool {
    &&& new.len() == old.len()
    &&& forall|k: int| 0 <= k < old.len() && !(lo <= k < hi) ==> #[trigger] new[k] == old[k]
}

/// Value of the second operand for element `i`.
pub open spec fn src_value(s: VectorState, src: OpSrc, i: nat, w: nat) -> nat {
    match src {
        OpSrc::Vreg(r) => element(s.regs@, s.vlenb(), r.index(), i, w),
        OpSrc::Scalar(v) => v as nat,
    }
}

/// The register operands of `src` fit and are the destination's group or disjoint from it.
pub open spec fn src_ok(s: VectorState, vd: VReg, src: OpSrc, w: nat) -> bool {
    match src {
        OpSrc::Vreg(r) => s.group_fits(r, w) && s.same_or_disjoint(vd, r, w),
        OpSrc::Scalar(_) => true,
    }
}

/// A mask destination `vd` and a source group `src` of `vl` elements of width `w`: either `vd`
/// is the source's base register or `vd`'s register shares no byte with the source elements.
pub open spec fn mask_dest_ok(s: VectorState, vd: VReg, src: VReg, w: nat) -> bool {
    ||| vd.index() == src.index()
    ||| vd.index() * s.vlenb() + s.vlenb() <= src.index() * s.vlenb()
    ||| src.index() * s.vlenb() + s.vl * w <= vd.index() * s.vlenb()
}

/// `mask_dest_ok` for the second operand when it is a register group.
pub open spec fn mask_src_ok(s: VectorState, vd: VReg, src: OpSrc, w: nat) -> bool {
    match src {
        OpSrc::Vreg(r) => s.group_fits(r, w) && mask_dest_ok(s, vd, r, w),
        OpSrc::Scalar(_) => true,
    }
}

/// Element `i` of `vd` after an element-wise binary operation: for an active element some result
/// of `op` on the operands, truncated to SEW; otherwise the old value.
pub open spec fn binop_element_post<F: Fn(u64, u64, Vsew) -> u64>(
    old: VectorState,
    new: VectorState,
    vd: VReg,
    vs2: VReg,
    src: OpSrc,
    vm: bool,
    sew: Vsew,
    op: F,
    i: nat,
) -> bool {
    let w = sew.bytes();
    let a = element(old.regs@, old.vlenb(), vs2.index(), i, w);
    let b = src_value(old, src, i, w);
    let d = element(new.regs@, old.vlenb(), vd.index(), i, w);
    if old.is_active(vm, i) {
        exists|r: u64| #[trigger] call_ensures(op, (a as u64, b as u64, sew), r) && d == r as nat % sew_modulus(sew)
    } else {
        d == element(old.regs@, old.vlenb(), vd.index(), i, w)
    }
}

/// Mask bit `i` of `vd` after a compare: for an active element some result of `op` on the
/// operands; otherwise the old bit.
pub open spec fn compare_bit_post<F: Fn(u64, u64, Vsew) -> bool>(
    old: VectorState,
    new: VectorState,
    vd: VReg,
    vs2: VReg,
    src: OpSrc,
    vm: bool,
    sew: Vsew,
    op: F,
    i: nat,
) -> bool {
    let w = sew.bytes();
    let a = element(old.regs@, old.vlenb(), vs2.index(), i, w);
    let b = src_value(old, src, i, w);
    let d = mask_bit_of(new.regs@, old.vlenb(), vd.index(), i);
    if old.is_active(vm, i) {
        exists|r: bool| #[trigger] call_ensures(op, (a as u64, b as u64, sew), r) && d == r
    } else {
        d == mask_bit_of(old.regs@, old.vlenb(), vd.index(), i)
    }
}

/// Element slot arithmetic: slot `i` of width `w` ends at `(i + 1) * w`, inside `n` slots when
/// `i < n`, and every earlier slot ends before it starts.
pub proof fn lemma_slot_arith(i: nat, n: nat, w: nat)
    ensures
        (i + 1) * w == i * w + w,
        i < n ==> i * w + w <= n * w,
        forall|j: nat| j < i ==> #[trigger] (j * w) + w <= i * w,
{
    assert((i + 1) * w == i * w + w) by (nonlinear_arith);
    if i < n {
        assert(i * w + w <= n * w) by (nonlinear_arith)
            requires
                i < n,
        ;
    }
    assert forall|j: nat| j < i implies #[trigger] (j * w) + w <= i * w by {
        assert(j * w + w <= i * w) by (nonlinear_arith)
            requires
                j < i,
        ;
    }
}

/// One step of a loop writing elements `0, 1, ...` of a group in order: what writing (or
/// skipping) element `i` does to the bytes and to the elements before it.
pub proof fn lemma_element_step(
    old: Seq<u8>,
    cur: Seq<u8>,
    new: Seq<u8>,
    vlenb: nat,
    base: nat,
    i: nat,
    w: nat,
    n: nat,
    written: bool,
    v: nat,
)
    requires
        base * vlenb + n * w <= cur.len(),
        i < n,
        unchanged_outside(old, cur, (base * vlenb) as int, (base * vlenb + i * w) as int),
        new == (if written {
            with_element(cur, vlenb, base, i, w, v)
        } else {
            cur
        }),
    ensures
        unchanged_outside(old, new, (base * vlenb) as int, (base * vlenb + (i + 1) * w) as int),
        forall|j: nat|
            j < i ==> #[trigger] element(new, vlenb, base, j, w) == element(
                cur,
                vlenb,
                base,
                j,
                w,
            ),
        written ==> element(new, vlenb, base, i, w) == v % byte_scale(w),
        !written ==> element(new, vlenb, base, i, w) == element(old, vlenb, base, i, w),
{
    lemma_slot_arith(i, n, w);
    let off = (base * vlenb + i * w) as int;
    if written {
        lemma_le_write_read(cur, off, w, v);
        assert forall|j: nat| j < i implies #[trigger] element(new, vlenb, base, j, w) == element(
            cur,
            vlenb,
            base,
            j,
            w,
        ) by {
            lemma_le_write_other(cur, off, w, v, (base * vlenb + j * w) as int, w);
        }
    } else {
        lemma_le_value_frame(cur, old, off, w);
    }
}

/// One step of a loop writing mask bits `0, 1, ...` of register `vd` in order.
pub proof fn lemma_mask_step(
    old: Seq<u8>,
    cur: Seq<u8>,
    new: Seq<u8>,
    vlenb: nat,
    vd: nat,
    i: nat,
    written: bool,
    value: bool,
)
    requires
        vd < 32,
        cur.len() == 32 * vlenb,
        i < 8 * vlenb,
        unchanged_outside(old, cur, (vd * vlenb) as int, (vd * vlenb + (i + 7) / 8) as int),
        forall|j: nat| i <= j < 8 * vlenb ==> #[trigger] mask_bit_of(cur, vlenb, vd, j) == mask_bit_of(old, vlenb, vd, j),
        new == (if written {
            with_mask_bit(cur, vlenb, vd, i, value)
        } else {
            cur
        }),
    ensures
        unchanged_outside(old, new, (vd * vlenb) as int, (vd * vlenb + (i + 8) / 8) as int),
        forall|j: nat|
            j < 8 * vlenb && j != i ==> #[trigger] mask_bit_of(new, vlenb, vd, j) == mask_bit_of(
                cur,
                vlenb,
                vd,
                j,
            ),
        written ==> mask_bit_of(new, vlenb, vd, i) == value,
        !written ==> mask_bit_of(new, vlenb, vd, i) == mask_bit_of(old, vlenb, vd, i),
{
    assert(vd * vlenb + vlenb <= 32 * vlenb) by (nonlinear_arith)
        requires
            vd < 32,
    ;
    if written {
        let k = (vd * vlenb + i / 8) as int;
        assert forall|j: nat| j < 8 * vlenb && j != i implies #[trigger] mask_bit_of(
            new,
            vlenb,
            vd,
            j,
        ) == mask_bit_of(cur, vlenb, vd, j) by {
            if j / 8 == i / 8 {
                lemma_with_bit(cur[k], i % 8, value, j % 8);
            }
        }
        lemma_with_bit(cur[k], i % 8, value, i % 8);
    }
}

/// A source element read during an in-order loop over the destination still holds its value
/// from before the loop: the source is the destination group itself (element `i` not yet
/// written) or a disjoint group.
pub proof fn lemma_read_frame(
    old: Seq<u8>,
    cur: Seq<u8>,
    vlenb: nat,
    dest: nat,
    dest_done: int,
    src: nat,
    i: nat,
    w: nat,
    n: nat,
)
    requires
        unchanged_outside(old, cur, (dest * vlenb) as int, (dest * vlenb + dest_done) as int),
        dest_done <= i * w || src != dest,
        i < n,
        src * vlenb + n * w <= old.len(),
        src == dest || src * vlenb + n * w <= dest * vlenb || dest * vlenb + n * w <= src
            * vlenb,
        dest_done <= n * w,
    ensures
        element(cur, vlenb, src, i, w) == element(old, vlenb, src, i, w),
{
    lemma_slot_arith(i, n, w);
    lemma_le_value_frame(cur, old, (src * vlenb + i * w) as int, w);
}

/// A value whose bytes lie outside the range a loop has written so far is unchanged.
pub proof fn lemma_value_unchanged(old: Seq<u8>, cur: Seq<u8>, lo: int, hi: int, off: int, w: nat)
    requires
        unchanged_outside(old, cur, lo, hi),
        0 <= off,
        off + w <= old.len(),
        off + w <= lo || hi <= off,
    ensures
        le_value(cur, off, w) == le_value(old, off, w),
{
    lemma_le_value_frame(cur, old, off, w);
}

/// Check that `vreg` is aligned to `group_regs` and the group fits in `v0..v31`; otherwise an
/// illegal instruction at `old_pc`.
pub fn check_vreg_group_alignment(old_pc: u64, vreg: VReg, group_regs: u8) -> (r: Result<
    (),
    ExecutionError,
>)
    requires
        group_regs >= 1,
    ensures
        r is Ok <==> (vreg.index() % (group_regs as nat) == 0 && vreg.index() + group_regs <= 32),
        r is Err ==> r == Err::<(), ExecutionError>(
            ExecutionError::IllegalInstruction { address: old_pc },
        ),
{
    let vreg_idx = vreg.to_bits();
    if vreg_idx % group_regs != 0 || vreg_idx as u16 + group_regs as u16 > 32 {
        return Err(ExecutionError::IllegalInstruction { address: old_pc });
    }
    Ok(())
}

/// Check that a mask destination `vd` overlaps a multi-register source group based at
/// `src_base` at most in the group's lowest-numbered register.
pub fn check_mask_dest_overlap(old_pc: u64, vd: VReg, src_base: VReg, group_regs: u8) -> (r:
    Result<(), ExecutionError>)
    requires
        group_regs >= 1,
    ensures
        r is Err <==> (group_regs > 1 && src_base.index() < vd.index() && vd.index()
            < src_base.index() + group_regs),
        r is Err ==> r == Err::<(), ExecutionError>(
            ExecutionError::IllegalInstruction { address: old_pc },
        ),
{
    if group_regs > 1 {
        let vd_idx = vd.to_bits();
        let src = src_base.to_bits();
        if vd_idx > src && (vd_idx as u16) < src as u16 + group_regs as u16 {
            return Err(ExecutionError::IllegalInstruction { address: old_pc });
        }
    }
    Ok(())
}

/// Read element `elem_i` (SEW wide, zero-extended) of the group based at `base_reg`.
pub fn read_element_u64(vregs: &VectorRegisterFile, base_reg: VReg, elem_i: u16, sew: Vsew) -> (r:
    u64)
    requires
        vregs.wf(),
        base_reg.index() * vregs.vlenb_spec() + (elem_i + 1) * sew.bytes() <= 32
            * vregs.vlenb_spec(),
    ensures
        r == element(vregs@, vregs.vlenb_spec(), base_reg.index(), elem_i as nat, sew.bytes()),
{
    proof {
        vregs.lemma_wf();
        lemma_slot_arith(elem_i as nat, 0, sew.bytes());
    }
    let w = sew.bytes_width() as usize;
    let l = vregs.vlenb() as usize;
    let base = base_reg.to_bits() as usize;
    assert(base * l <= 31 * 8192) by (nonlinear_arith)
        requires
            base < 32,
            l <= 8192,
    ;
    assert(elem_i as usize * w <= 65535 * 8) by (nonlinear_arith)
        requires
            w <= 8,
    ;
    let off = base * l + elem_i as usize * w;
    vregs.read_bytes(off, w)
}

/// Write the low SEW bits of `value` into element `elem_i` of the group based at `base_reg`.
pub fn write_element_u64(
    vregs: &mut VectorRegisterFile,
    base_reg: VReg,
    elem_i: u16,
    sew: Vsew,
    value: u64,
)
    requires
        old(vregs).wf(),
        base_reg.index() * old(vregs).vlenb_spec() + (elem_i + 1) * sew.bytes() <= 32 * old(
            vregs,
        ).vlenb_spec(),
    ensures
        final(vregs).wf(),
        final(vregs).vlenb_spec() == old(vregs).vlenb_spec(),
        final(vregs)@ == with_element(
            old(vregs)@,
            old(vregs).vlenb_spec(),
            base_reg.index(),
            elem_i as nat,
            sew.bytes(),
            value as nat,
        ),
{
    proof {
        vregs.lemma_wf();
        lemma_slot_arith(elem_i as nat, 0, sew.bytes());
    }
    let w = sew.bytes_width() as usize;
    let l = vregs.vlenb() as usize;
    let base = base_reg.to_bits() as usize;
    assert(base * l <= 31 * 8192) by (nonlinear_arith)
        requires
            base < 32,
            l <= 8192,
    ;
    assert(elem_i as usize * w <= 65535 * 8) by (nonlinear_arith)
        requires
            w <= 8,
    ;
    let off = base * l + elem_i as usize * w;
    vregs.write_bytes(off, w, value);
}

/// Set mask bit `elem_i` of register `vd` to `result`; every other bit is kept.
pub fn write_mask_bit(vregs: &mut VectorRegisterFile, vd: VReg, elem_i: u16, result: bool)
    requires
        old(vregs).wf(),
        elem_i < 8 * old(vregs).vlenb_spec(),
    ensures
        final(vregs).wf(),
        final(vregs).vlenb_spec() == old(vregs).vlenb_spec(),
        final(vregs)@ == with_mask_bit(
            old(vregs)@,
            old(vregs).vlenb_spec(),
            vd.index(),
            elem_i as nat,
            result,
        ),
{
    proof {
        vregs.lemma_wf();
    }
    let l = vregs.vlenb() as usize;
    let base = vd.to_bits() as usize;
    assert(base * l + l <= 32 * l) by (nonlinear_arith)
        requires
            base < 32,
    ;
    let k = base * l + (elem_i / 8) as usize;
    let bit_idx = (elem_i % 8) as u8;
    let b = vregs.read_byte(k);
    let nb = if result {
        b | (1u8 << bit_idx)
    } else {
        b & !(1u8 << bit_idx)
    };
    vregs.write_byte(k, nb);
}

/// Execute a single-width element-wise operation over `vstart..vl`: each active element `i` of
/// `vd` becomes `op(vs2[i], src[i], sew)` truncated to SEW, where `src[i]` is element `i` of the
/// `vs1` group or the scalar. Inactive and tail elements are left undisturbed. Marks the vector
/// state dirty and resets `vstart`.
pub fn execute_arith_op<F>(
    state: &mut VectorState,
    vd: VReg,
    vs2: VReg,
    src: OpSrc,
    vm: bool,
    sew: Vsew,
    op: F,
) where F: Fn(u64, u64, Vsew) -> u64
    requires
        old(state).wf(),
        old(state).group_fits(vd, sew.bytes()),
        old(state).group_fits(vs2, sew.bytes()),
        old(state).same_or_disjoint(vd, vs2, sew.bytes()),
        src_ok(*old(state), vd, src, sew.bytes()),
        forall|a: u64, b: u64| #[trigger] op.requires((a, b, sew)),
    ensures
        final(state).same_config(*old(state)),
        final(state).vs_dirty,
        final(state).vstart == 0,
        unchanged_outside(
            old(state).regs@,
            final(state).regs@,
            (vd.index() * old(state).vlenb()) as int,
            (vd.index() * old(state).vlenb() + old(state).vl * sew.bytes()) as int,
        ),
        forall|i: nat|
            i < old(state).vl ==> #[trigger] binop_element_post(
                *old(state),
                *final(state),
                vd,
                vs2,
                src,
                vm,
                sew,
                op,
                i,
            ),
{
    let ghost s0 = *state;
    let ghost l = s0.vlenb();
    let ghost w = sew.bytes();
    let ghost r0 = vd.index() * l;
    let vl = state.vl;
    let vstart = state.vstart;
    proof {
        lemma_vl_bound(s0);
        s0.regs.lemma_wf();
    }
    let mask_buf = snapshot_mask(&state.regs, vm, vl);
    let mut i: u32 = if (vstart as u32) < vl {
        vstart as u32
    } else {
        vl
    };
    while i < vl
        invariant
            s0.wf(),
            l == s0.vlenb(),
            w == sew.bytes(),
            r0 == vd.index() * l,
            vl == s0.vl,
            vstart == s0.vstart,
            vl <= 8 * l,
            vl <= 65536,
            s0.group_fits(vd, w),
            s0.group_fits(vs2, w),
            s0.same_or_disjoint(vd, vs2, w),
            src_ok(s0, vd, src, w),
            forall|a: u64, b: u64| #[trigger] op.requires((a, b, sew)),
            mask_buf@ == snapshot_spec(s0.regs@, l, vm, vl as nat),
            state.same_config(s0),
            state.vs_dirty == s0.vs_dirty,
            state.vstart == s0.vstart,
            i <= vl,
            i < vl ==> vstart <= i,
            unchanged_outside(s0.regs@, state.regs@, (r0) as int, (r0 + i * w) as int),
            forall|j: nat|
                j < i ==> #[trigger] binop_element_post(s0, *state, vd, vs2, src, vm, sew, op, j),
        decreases vl - i,
    {
        let ghost cur = *state;
        proof {
            s0.regs.lemma_wf();
            lemma_snapshot_bit(s0.regs@, l, vm, vl as nat, i as nat);
            lemma_slot_arith(i as nat, vl as nat, w);
        }
        let active = mask_bit(&mask_buf, i as u16);
        assert(active == s0.is_active(vm, i as nat));
        if active {
            proof {
                lemma_read_frame(
                    s0.regs@,
                    cur.regs@,
                    l,
                    vd.index(),
                    i * w,
                    vs2.index(),
                    i as nat,
                    w,
                    vl as nat,
                );
            }
            let a = read_element_u64(&state.regs, vs2, i as u16, sew);
            let b = match src {
                OpSrc::Vreg(vs1) => {
                    proof {
                        lemma_read_frame(
                            s0.regs@,
                            cur.regs@,
                            l,
                            vd.index(),
                            i * w,
                            vs1.index(),
                            i as nat,
                            w,
                            vl as nat,
                        );
                    }
                    read_element_u64(&state.regs, vs1, i as u16, sew)
                },
                OpSrc::Scalar(val) => val,
            };
            assert(b == src_value(s0, src, i as nat, w));
            let result = op(a, b, sew);
            write_element_u64(&mut state.regs, vd, i as u16, sew, result);
            proof {
                lemma_element_step(
                    s0.regs@,
                    cur.regs@,
                    state.regs@,
                    l,
                    vd.index(),
                    i as nat,
                    w,
                    vl as nat,
                    true,
                    result as nat,
                );
                assert(call_ensures(op, (a, b, sew), result));
                assert(binop_element_post(s0, *state, vd, vs2, src, vm, sew, op, i as nat));
            }
        } else {
            proof {
                lemma_element_step(
                    s0.regs@,
                    cur.regs@,
                    state.regs@,
                    l,
                    vd.index(),
                    i as nat,
                    w,
                    vl as nat,
                    false,
                    0,
                );
            }
        }
        proof {
            assert forall|j: nat| j < i + 1 implies #[trigger] binop_element_post(
                s0,
                *state,
                vd,
                vs2,
                src,
                vm,
                sew,
                op,
                j,
            ) by {
                if j < i {
                    assert(binop_element_post(s0, cur, vd, vs2, src, vm, sew, op, j));
                }
            }
        }
        i = i + 1;
    }
    let ghost fin = *state;
    state.mark_vs_dirty();
    state.reset_vstart();
    proof {
        assert forall|j: nat| j < vl implies #[trigger] binop_element_post(
            s0,
            *state,
            vd,
            vs2,
            src,
            vm,
            sew,
            op,
            j,
        ) by {
            if j < i {
                assert(binop_element_post(s0, fin, vd, vs2, src, vm, sew, op, j));
            }
        }
    }
}

/// Execute a single-width element-wise compare over `vstart..vl`, writing one result bit per
/// element into mask register `vd`: each active bit `i` becomes `op(vs2[i], src[i], sew)`;
/// inactive bits and bits `>= vl` are left undisturbed. Marks the vector state dirty and resets
/// `vstart`.
pub fn execute_compare_op<F>(
    state: &mut VectorState,
    vd: VReg,
    vs2: VReg,
    src: OpSrc,
    vm: bool,
    sew: Vsew,
    op: F,
) where F: Fn(u64, u64, Vsew) -> bool
    requires
        old(state).wf(),
        old(state).group_fits(vs2, sew.bytes()),
        mask_dest_ok(*old(state), vd, vs2, sew.bytes()),
        mask_src_ok(*old(state), vd, src, sew.bytes()),
        forall|a: u64, b: u64| #[trigger] op.requires((a, b, sew)),
    ensures
        final(state).same_config(*old(state)),
        final(state).vs_dirty,
        final(state).vstart == 0,
        unchanged_outside(
            old(state).regs@,
            final(state).regs@,
            (vd.index() * old(state).vlenb()) as int,
            (vd.index() * old(state).vlenb() + old(state).vlenb()) as int,
        ),
        forall|i: nat|
            i < old(state).vl ==> #[trigger] compare_bit_post(
                *old(state),
                *final(state),
                vd,
                vs2,
                src,
                vm,
                sew,
                op,
                i,
            ),
        forall|i: nat|
            old(state).vl <= i < 8 * old(state).vlenb() ==> #[trigger] mask_bit_of(
                final(state).regs@,
                old(state).vlenb(),
                vd.index(),
                i,
            ) == mask_bit_of(old(state).regs@, old(state).vlenb(), vd.index(), i),
{
    let ghost s0 = *state;
    let ghost l = s0.vlenb();
    let ghost w = sew.bytes();
    let ghost r0 = vd.index() * l;
    let vl = state.vl;
    let vstart = state.vstart;
    proof {
        lemma_vl_bound(s0);
        s0.regs.lemma_wf();
        assert(vd.index() * l + l <= 32 * l) by (nonlinear_arith)
            requires
                vd.index() < 32,
        ;
    }
    let mask_buf = snapshot_mask(&state.regs, vm, vl);
    let mut i: u32 = if (vstart as u32) < vl {
        vstart as u32
    } else {
        vl
    };
    while i < vl
        invariant
            s0.wf(),
            l == s0.vlenb(),
            s0.regs@.len() == 32 * l,
            w == sew.bytes(),
            r0 == vd.index() * l,
            r0 + l <= 32 * l,
            vl == s0.vl,
            vstart == s0.vstart,
            vl <= 8 * l,
            vl <= 65536,
            s0.group_fits(vs2, w),
            mask_dest_ok(s0, vd, vs2, w),
            mask_src_ok(s0, vd, src, w),
            forall|a: u64, b: u64| #[trigger] op.requires((a, b, sew)),
            mask_buf@ == snapshot_spec(s0.regs@, l, vm, vl as nat),
            state.same_config(s0),
            state.vs_dirty == s0.vs_dirty,
            state.vstart == s0.vstart,
            i <= vl,
            i < vl ==> vstart <= i,
            unchanged_outside(s0.regs@, state.regs@, r0 as int, (r0 + (i + 7) / 8) as int),
            forall|j: nat|
                i <= j < 8 * l ==> #[trigger] mask_bit_of(state.regs@, l, vd.index(), j)
                    == mask_bit_of(s0.regs@, l, vd.index(), j),
            forall|j: nat|
                j < i ==> #[trigger] compare_bit_post(s0, *state, vd, vs2, src, vm, sew, op, j),
        decreases vl - i,
    {
        let ghost cur = *state;
        proof {
            s0.regs.lemma_wf();
            lemma_snapshot_bit(s0.regs@, l, vm, vl as nat, i as nat);
            lemma_slot_arith(i as nat, vl as nat, w);
        }
        let active = mask_bit(&mask_buf, i as u16);
        assert(active == s0.is_active(vm, i as nat));
        if active {
            proof {
                assert(i * w >= (i + 7) / 8) by (nonlinear_arith)
                    requires
                        w >= 1,
                ;
                lemma_value_unchanged(
                    s0.regs@,
                    cur.regs@,
                    r0 as int,
                    (r0 + (i + 7) / 8) as int,
                    (vs2.index() * l + i * w) as int,
                    w,
                );
            }
            let a = read_element_u64(&state.regs, vs2, i as u16, sew);
            let b = match src {
                OpSrc::Vreg(vs1) => {
                    proof {
                        lemma_value_unchanged(
                            s0.regs@,
                            cur.regs@,
                            r0 as int,
                            (r0 + (i + 7) / 8) as int,
                            (vs1.index() * l + i * w) as int,
                            w,
                        );
                    }
                    read_element_u64(&state.regs, vs1, i as u16, sew)
                },
                OpSrc::Scalar(val) => val,
            };
            assert(b == src_value(s0, src, i as nat, w));
            let result = op(a, b, sew);
            write_mask_bit(&mut state.regs, vd, i as u16, result);
            proof {
                lemma_mask_step(
                    s0.regs@,
                    cur.regs@,
                    state.regs@,
                    l,
                    vd.index(),
                    i as nat,
                    true,
                    result,
                );
                assert(call_ensures(op, (a, b, sew), result));
                assert(compare_bit_post(s0, *state, vd, vs2, src, vm, sew, op, i as nat));
            }
        } else {
            proof {
                lemma_mask_step(
                    s0.regs@,
                    cur.regs@,
                    state.regs@,
                    l,
                    vd.index(),
                    i as nat,
                    false,
                    false,
                );
            }
        }
        proof {
            assert forall|j: nat| j < i + 1 implies #[trigger] compare_bit_post(
                s0,
                *state,
                vd,
                vs2,
                src,
                vm,
                sew,
                op,
                j,
            ) by {
                if j < i {
                    assert(compare_bit_post(s0, cur, vd, vs2, src, vm, sew, op, j));
                }
            }
        }
        i = i + 1;
    }
    let ghost fin = *state;
    state.mark_vs_dirty();
    state.reset_vstart();
    proof {
        assert forall|j: nat| j < vl implies #[trigger] compare_bit_post(
            s0,
            *state,
            vd,
            vs2,
            src,
            vm,
            sew,
            op,
            j,
        ) by {
            if j < i {
                assert(compare_bit_post(s0, fin, vd, vs2, src, vm, sew, op, j));
            }
        }
        assert((i + 7) / 8 <= l);
    }
}

/// Sign-extend the low SEW bits of `val` to an `i64`: the result lies in
/// `[-2^(SEW-1), 2^(SEW-1))`, its low SEW bits are those of `val` (so only they matter), and at
/// SEW = 64 it is `val` read as signed.
pub fn sign_extend(val: u64, sew: Vsew) -> (r: i64)
    ensures
        r == signed_of(val as nat, sew),
        -((sew_modulus(sew) / 2) as int) <= r < (sew_modulus(sew) / 2) as int,
        (r as u64) as nat % sew_modulus(sew) == val as nat % sew_modulus(sew),
        sew == Vsew::E64 ==> r == val as i64,
{
    proof {
        lemma_sew_modulus_values(sew);
    }
    let shift: u32 = 64 - sew.bits_width() as u32;
    let v = val as i64;
    let r = (v << shift) >> shift;
    match sew {
        Vsew::E8 => {
            assert(((v << 56u32) >> 56u32) == (if val % 256 >= 128 {
                (val % 256) as int - 256
            } else {
                (val % 256) as int
            }) && (((v << 56u32) >> 56u32) as u64) % 256 == val % 256) by (bit_vector)
                requires
                    v == val as i64,
            ;
        },
        Vsew::E16 => {
            assert(((v << 48u32) >> 48u32) == (if val % 0x1_0000 >= 0x8000 {
                (val % 0x1_0000) as int - 0x1_0000
            } else {
                (val % 0x1_0000) as int
            }) && (((v << 48u32) >> 48u32) as u64) % 0x1_0000 == val % 0x1_0000) by (bit_vector)
                requires
                    v == val as i64,
            ;
        },
        Vsew::E32 => {
            assert(((v << 32u32) >> 32u32) == (if val % 0x1_0000_0000 >= 0x8000_0000 {
                (val % 0x1_0000_0000) as int - 0x1_0000_0000
            } else {
                (val % 0x1_0000_0000) as int
            }) && (((v << 32u32) >> 32u32) as u64) % 0x1_0000_0000 == val % 0x1_0000_0000) by (bit_vector)
                requires
                    v == val as i64,
            ;
        },
        Vsew::E64 => {
            assert(((v << 0u32) >> 0u32) == v) by (bit_vector);
            assert(v == (if val >= 0x8000_0000_0000_0000 {
                val - 0x1_0000_0000_0000_0000
            } else {
                val as int
            }) && v as u64 == val) by (bit_vector)
                requires
                    v == val as i64,
            ;
        },
    }
    r
}

/// `2^SEW - 1`: all SEW bits set.
pub fn sew_mask(sew: Vsew) -> (r: u64)
    ensures
        r == sew_modulus(sew) - 1,
{
    proof {
        lemma_sew_modulus_values(sew);
    }
    assert(1u64 << 8u8 == 0x100) by (bit_vector);
    assert(1u64 << 16u8 == 0x1_0000) by (bit_vector);
    assert(1u64 << 32u8 == 0x1_0000_0000) by (bit_vector);
    if sew.bits_width() as u32 == 64 {
        u64::MAX
    } else {
        (1u64 << sew.bits_width()) - 1
    }
}

} // verus!
