//! Vector load instructions: the legality checks an instruction goes through before its loads
//! run, and whole-register and mask loads.

use vstd::prelude::*;
use crate::arith::unchanged_outside;
use crate::state::{lemma_vl_bound, VectorState};
use crate::grouping::{
    emul_den, emul_num, emul_register_count, emul_regs, eew_of, lemma_aligned_group_fits, lemma_aligned_groups,
    lemma_emul_exact, lemma_emul_group_holds_vl, lemma_emul_of_sew,
};
use crate::load::{
    check_register_group_alignment, execute_indexed_load, execute_strided_load,
    execute_unit_stride_load, field_base, groups_overlap, index_slots_read_first, indexed_addr,
    indexed_load_overlap_allowed, indexed_overlap_allowed_spec, mask_bytes, slot_start,
    streamed_load_done, strided_addr, unit_load_done, validate_segment_registers, VirtualMemory,
};
use crate::types::{Eew, ExecutionError, Nf, VReg, Vsew, Vtype};

verus! {

/// The overlap rule of non-segment indexed loads keeps every index element intact until it is
/// read: when the data group (`LMUL` registers of width SEW) and the index group
/// (`max(1, EMUL)` registers of width `index_eew`) are aligned and their overlap is one the rule
/// allows, no data element written before index element `j` shares a byte with it.
#[verifier::spinoff_prover]
pub proof fn lemma_indexed_overlap_rule_keeps_indices(
    s: VectorState,
    vt: Vtype,
    vd: VReg,
    vs2: VReg,
    index_eew: Eew,
    ir: nat,
)
    requires
        s.wf(),
        s.vtype == Some(vt),
        emul_regs(vt.vlmul, index_eew, vt.vsew) == Some(ir),
        vd.index() % vt.vlmul.regs() == 0,
        vs2.index() % ir == 0,
        indexed_overlap_allowed_spec(
            vd.index(),
            vt.vlmul.regs(),
            vs2.index(),
            ir,
            index_eew,
            vt.vsew,
            vt.vlmul,
        ),
    ensures
        index_slots_read_first(
            vd,
            vt.vlmul.regs(),
            vt.vsew.bytes(),
            1,
            vs2,
            index_eew.bytes(),
            s.vl as nat,
            s.vlenb(),
        ),
{
    let l = s.vlenb();
    let sw = vt.vsew.bytes();
    let iw = index_eew.bytes();
    let dr = vt.vlmul.regs();
    let n = s.vl as nat;
    let a = vd.index();
    let b = vs2.index();
    lemma_emul_of_sew(vt.vlmul, vt.vsew, eew_of(vt.vsew));
    lemma_emul_group_holds_vl(s, vt, eew_of(vt.vsew), dr);
    lemma_emul_group_holds_vl(s, vt, index_eew, ir);
    lemma_emul_exact(vt.vlmul, index_eew, vt.vsew);
    assert(n * sw <= dr * l);
    assert(n * iw <= ir * l);
    assert forall|j: nat, f: nat| j < n && f < 1 implies #[trigger] slot_start(
        vd,
        f,
        dr,
        l,
        j,
        sw,
    ) + sw <= b * l + (j + 1) * iw || b * l + n * iw <= slot_start(vd, f, dr, l, j, sw) by {
        assert(f == 0);
        assert(slot_start(vd, f, dr, l, j, sw) == a * l + j * sw);
        assert(j * sw + sw == (j + 1) * sw) by (nonlinear_arith);
        assert((j + 1) * sw <= n * sw) by (nonlinear_arith)
            requires
                j + 1 <= n,
        ;
        assert((j + 1) * iw <= n * iw) by (nonlinear_arith)
            requires
                j + 1 <= n,
        ;
        if !(a < b + ir && b < a + dr) {
            if b >= a + dr {
                assert((a + dr) * l <= b * l) by (nonlinear_arith)
                    requires
                        b >= a + dr,
                ;
                assert((a + dr) * l == a * l + dr * l) by (nonlinear_arith);
            } else {
                assert((b + ir) * l <= a * l) by (nonlinear_arith)
                    requires
                        a >= b + ir,
                ;
                assert((b + ir) * l == b * l + ir * l) by (nonlinear_arith);
                assert(j * sw >= 0) by (nonlinear_arith);
            }
        } else if sw == iw {
            lemma_emul_of_sew(vt.vlmul, vt.vsew, index_eew);
            assert(ir == dr);
            lemma_aligned_groups(a, b, dr);
        } else if sw < iw {
            assert(a == b);
            assert((j + 1) * sw <= (j + 1) * iw) by (nonlinear_arith)
                requires
                    sw < iw,
            ;
        } else {
            let num = vt.vlmul.num();
            let den = vt.vlmul.den();
            let sb = vt.vsew.bits();
            let ib = index_eew.bits();
            assert(ib * num >= sb * den);
            assert(ib < sb);
            assert(den == 1) by (nonlinear_arith)
                requires
                    ib * num >= sb * den,
                    ib < sb,
                    num == 1 || den == 1,
                    den >= 1,
                    num >= 1,
            ;
            assert(dr == num);
            assert(emul_num(vt.vlmul, index_eew) == ib * num);
            assert(emul_den(vt.vlmul, vt.vsew) == sb * den);
            assert(sb * den == sb) by (nonlinear_arith)
                requires
                    den == 1,
            ;
            assert(ib * num >= sb);
            let nn = (ib * num) as int;
            assert(nn % (sb as int) == 0);
            assert(ir == nn / (sb as int));
            vstd::arithmetic::div_mod::lemma_fundamental_div_mod(nn, sb as int);
            assert(ir * sb == ib * num) by (nonlinear_arith)
                requires
                    nn == (sb as int) * (nn / (sb as int)) + nn % (sb as int),
                    nn % (sb as int) == 0,
                    ir == nn / (sb as int),
                    nn == ib * num,
            ;
            assert(ir * sw == iw * dr) by (nonlinear_arith)
                requires
                    ir * sb == ib * num,
                    sb == 8 * sw,
                    ib == 8 * iw,
                    dr == num,
            ;
            assert(a + dr == b + ir);
            assert(sw * (n * sw - n * iw) <= sw * (dr * l - ir * l)) by (nonlinear_arith)
                requires
                    n * sw <= dr * l,
                    ir * sw == iw * dr,
                    sw > iw,
            ;
            assert(n * sw - n * iw <= dr * l - ir * l) by (nonlinear_arith)
                requires
                    sw * (n * sw - n * iw) <= sw * (dr * l - ir * l),
                    sw > 0,
            ;
            assert((j + 1) * sw - (j + 1) * iw <= n * sw - n * iw) by (nonlinear_arith)
                requires
                    j + 1 <= n,
                    sw > iw,
            ;
            assert(a * l + dr * l == b * l + ir * l) by (nonlinear_arith)
                requires
                    a + dr == b + ir,
            ;
        }
    }
}

/// The error of an instruction that is illegal in the current state.
pub open spec fn illegal(old_pc: u64) -> Result<(), ExecutionError> {
    Err(ExecutionError::IllegalInstruction { address: old_pc })
}

/// `Some(g)`, the register count of each destination field group, when a unit-stride or strided
/// (segment) load of `nf` fields of width `eew` into `vd` is legal in `s`: vector instructions
/// are allowed, `vtype` is legal, `EMUL = (EEW / SEW) * LMUL` lies in `[1/8, 8]`, `vd` is
/// aligned to the group size, the `nf` field groups fit in `v0..v31`, and a masked load does not
/// write `v0`. `None` when the load is an illegal instruction.
pub open spec fn strided_load_groups(s: VectorState, vd: VReg, vm: bool, eew: Eew, nf: nat) -> Option<
    nat,
> {
    if !s.vector_allowed {
        None
    } else {
        match s.vtype {
            None => None,
            Some(vt) => match emul_regs(vt.vlmul, eew, vt.vsew) {
                None => None,
                Some(g) => if vd.index() % g == 0 && vd.index() + nf * g <= 32 && (vm || vd.index()
                    != 0) {
                    Some(g)
                } else {
                    None
                },
            },
        }
    }
}

/// The destination field group count of a unit-stride or strided load, after the checks that
/// make the instruction legal; the illegal-instruction error otherwise.
fn strided_load_checks(state: &VectorState, old_pc: u64, vd: VReg, vm: bool, eew: Eew, nf: Nf) -> (r:
    Result<u8, ExecutionError>)
    requires
        state.wf(),
    ensures
        match strided_load_groups(*state, vd, vm, eew, nf.count()) {
            None => r == Err::<u8, ExecutionError>(
                ExecutionError::IllegalInstruction { address: old_pc },
            ),
            Some(g) => {
                &&& r == Ok::<u8, ExecutionError>(g as u8)
                &&& g == (g as u8) as nat
                &&& 1 <= g <= 8
                &&& state.vl * eew.bytes() <= g * state.vlenb()
            },
        },
{
    if !state.vector_allowed {
        return Err(ExecutionError::IllegalInstruction { address: old_pc });
    }
    let vtype = match state.vtype {
        Some(vt) => vt,
        None => {
            return Err(ExecutionError::IllegalInstruction { address: old_pc });
        },
    };
    let group_regs = match emul_register_count(vtype.vlmul, eew, vtype.vsew) {
        Some(g) => g,
        None => {
            return Err(ExecutionError::IllegalInstruction { address: old_pc });
        },
    };
    proof {
        lemma_emul_group_holds_vl(*state, vtype, eew, group_regs as nat);
    }
    match validate_segment_registers(old_pc, vd, vm, group_regs, nf) {
        Ok(()) => Ok(group_regs),
        Err(e) => Err(e),
    }
}

/// Execute a unit-stride load instruction (`vle`, `vleff`, and with `nf > 1` the segment forms
/// `vlseg`, `vlsegff`): an illegal instruction, leaving the state as it is, unless
/// `strided_load_groups` gives the destination group size; then the load runs as
/// `unit_load_done` describes.
pub fn execute_unit_stride_instruction<const FAULT_ONLY_FIRST: bool, M: VirtualMemory>(
    state: &mut VectorState,
    memory: &M,
    old_pc: u64,
    vd: VReg,
    vm: bool,
    base: u64,
    eew: Eew,
    nf: Nf,
) -> (r: Result<(), ExecutionError>)
    requires
        old(state).wf(),
    ensures
        final(state).wf(),
        match strided_load_groups(*old(state), vd, vm, eew, nf.count()) {
            None => r == illegal(old_pc) && *final(state) == *old(state),
            Some(g) => unit_load_done(
                *old(state),
                *final(state),
                r,
                memory,
                base,
                vd,
                g,
                eew.bytes(),
                nf.count(),
                vm,
                FAULT_ONLY_FIRST,
            ),
        },
{
    let group_regs = match strided_load_checks(state, old_pc, vd, vm, eew, nf) {
        Ok(g) => g,
        Err(e) => {
            return Err(e);
        },
    };
    execute_unit_stride_load::<FAULT_ONLY_FIRST, M>(state, memory, vd, vm, base, eew, group_regs, nf)
}

/// Execute a strided load instruction (`vlse`, and with `nf > 1` the segment form `vlsseg`)
/// with the signed byte stride `stride`: an illegal instruction, leaving the state as it is,
/// unless `strided_load_groups` gives the destination group size; then the load runs as
/// `streamed_load_done` describes for addresses `base + i * stride + f * w`.
pub fn execute_strided_instruction<M: VirtualMemory>(
    state: &mut VectorState,
    memory: &M,
    old_pc: u64,
    vd: VReg,
    vm: bool,
    base: u64,
    stride: i64,
    eew: Eew,
    nf: Nf,
) -> (r: Result<(), ExecutionError>)
    requires
        old(state).wf(),
    ensures
        final(state).wf(),
        match strided_load_groups(*old(state), vd, vm, eew, nf.count()) {
            None => r == illegal(old_pc) && *final(state) == *old(state),
            Some(g) => streamed_load_done(
                *old(state),
                *final(state),
                r,
                memory,
                strided_addr(base, stride, eew.bytes()),
                vd,
                g,
                eew.bytes(),
                nf.count(),
                vm,
            ),
        },
{
    let group_regs = match strided_load_checks(state, old_pc, vd, vm, eew, nf) {
        Ok(g) => g,
        Err(e) => {
            return Err(e);
        },
    };
    execute_strided_load(state, memory, vd, vm, base, stride, eew, group_regs, nf)
}

/// `Some((data_regs, index_regs))` when a non-segment indexed load (`vluxei`, `vloxei`) into
/// `vd` with index group `vs2` of width `index_eew` is legal in `s`: vector instructions are
/// allowed, `vtype` is legal, the index `EMUL = (EEW / SEW) * LMUL` lies in `[1/8, 8]`, both
/// groups are aligned and fit in `v0..v31`, their overlap is one the overlap rule allows, and a
/// masked load does not write `v0`. The data group has `LMUL` registers. `None` when the load is
/// an illegal instruction.
pub open spec fn indexed_load_groups(
    s: VectorState,
    vd: VReg,
    vs2: VReg,
    vm: bool,
    index_eew: Eew,
) -> Option<(nat, nat)> {
    if !s.vector_allowed {
        None
    } else {
        match s.vtype {
            None => None,
            Some(vt) => match emul_regs(vt.vlmul, index_eew, vt.vsew) {
                None => None,
                Some(ir) => {
                    let dr = vt.vlmul.regs();
                    if vd.index() % dr == 0 && vd.index() + dr <= 32 && vs2.index() % ir == 0
                        && vs2.index() + ir <= 32 && indexed_overlap_allowed_spec(
                        vd.index(),
                        dr,
                        vs2.index(),
                        ir,
                        index_eew,
                        vt.vsew,
                        vt.vlmul,
                    ) && (vm || vd.index() != 0) {
                        Some((dr, ir))
                    } else {
                        None
                    }
                },
            },
        }
    }
}

/// Addresses of an indexed load: `base` plus the zero-extended element `i` of the index group
/// `vs2` of width `index_eew`, plus `f` times the data width SEW.
pub open spec fn indexed_load_addr(s: VectorState, vs2: VReg, index_eew: Eew, base: u64) -> spec_fn(
    nat,
    nat,
) -> u64 {
    let sew = match s.vtype {
        Some(vt) => vt.vsew,
        None => Vsew::E8,
    };
    indexed_addr(s.regs@, s.vlenb(), vs2, index_eew.bytes(), base, sew.bytes())
}

/// Execute a non-segment indexed load instruction (`vluxei`, `vloxei`; ordered and unordered
/// forms behave alike): an illegal instruction, leaving the state as it is, unless
/// `indexed_load_groups` accepts the operands; then SEW-wide data is loaded as
/// `streamed_load_done` describes, element `i` from `base` plus index element `i`.
pub fn execute_indexed_instruction<M: VirtualMemory>(
    state: &mut VectorState,
    memory: &M,
    old_pc: u64,
    vd: VReg,
    vs2: VReg,
    vm: bool,
    base: u64,
    index_eew: Eew,
) -> (r: Result<(), ExecutionError>)
    requires
        old(state).wf(),
    ensures
        final(state).wf(),
        match indexed_load_groups(*old(state), vd, vs2, vm, index_eew) {
            None => r == illegal(old_pc) && *final(state) == *old(state),
            Some((dr, _ir)) => streamed_load_done(
                *old(state),
                *final(state),
                r,
                memory,
                indexed_load_addr(*old(state), vs2, index_eew, base),
                vd,
                dr,
                old(state).vtype->Some_0.vsew.bytes(),
                1,
                vm,
            ),
        },
{
    if !state.vector_allowed {
        return Err(ExecutionError::IllegalInstruction { address: old_pc });
    }
    let vtype = match state.vtype {
        Some(vt) => vt,
        None => {
            return Err(ExecutionError::IllegalInstruction { address: old_pc });
        },
    };
    let data_group_regs = vtype.vlmul.register_count();
    let index_group_regs = match emul_register_count(vtype.vlmul, index_eew, vtype.vsew) {
        Some(g) => g,
        None => {
            return Err(ExecutionError::IllegalInstruction { address: old_pc });
        },
    };
    match check_register_group_alignment(old_pc, vd, data_group_regs) {
        Ok(()) => {},
        Err(e) => {
            return Err(e);
        },
    }
    match check_register_group_alignment(old_pc, vs2, index_group_regs) {
        Ok(()) => {},
        Err(e) => {
            return Err(e);
        },
    }
    if !indexed_load_overlap_allowed(
        vd,
        data_group_regs,
        vs2,
        index_group_regs,
        index_eew,
        vtype.vsew,
        vtype.vlmul,
    ) {
        return Err(ExecutionError::IllegalInstruction { address: old_pc });
    }
    if !vm && groups_overlap(vd, data_group_regs, VReg::v0(), 1) {
        return Err(ExecutionError::IllegalInstruction { address: old_pc });
    }
    let data_eew = vtype.vsew.as_eew();
    proof {
        let s = *state;
        let l = s.vlenb();
        lemma_emul_of_sew(vtype.vlmul, vtype.vsew, data_eew);
        lemma_emul_group_holds_vl(s, vtype, data_eew, data_group_regs as nat);
        lemma_emul_group_holds_vl(s, vtype, index_eew, index_group_regs as nat);
        lemma_indexed_overlap_rule_keeps_indices(
            s,
            vtype,
            vd,
            vs2,
            index_eew,
            index_group_regs as nat,
        );
        assert(vs2.index() * l + s.vl * index_eew.bytes() <= 32 * l) by (nonlinear_arith)
            requires
                s.vl * index_eew.bytes() <= index_group_regs * l,
                vs2.index() + index_group_regs <= 32,
        ;
    }
    execute_indexed_load(
        state,
        memory,
        vd,
        vs2,
        vm,
        base,
        data_eew,
        index_eew,
        data_group_regs,
        Nf::N1,
    )
}

/// Field group `f` of a segment destination based at `vd` with `dr`-register groups shares no
/// register with the index group `[vs2, vs2 + ir)`.
pub open spec fn field_clear_of_index(vd: VReg, dr: nat, f: nat, vs2: VReg, ir: nat) -> bool {
    field_base(vd, f, dr) + dr <= vs2.index() || vs2.index() + ir <= field_base(vd, f, dr)
}

/// When no field group of the data destination shares a register with the index group, no data
/// element touches an index element.
pub proof fn lemma_disjoint_fields_keep_indices(
    vd: VReg,
    dr: nat,
    sw: nat,
    nf: nat,
    vs2: VReg,
    ir: nat,
    iw: nat,
    n: nat,
    l: nat,
)
    requires
        n * sw <= dr * l,
        n * iw <= ir * l,
        forall|f: nat| f < nf ==> #[trigger] field_clear_of_index(vd, dr, f, vs2, ir),
    ensures
        index_slots_read_first(vd, dr, sw, nf, vs2, iw, n, l),
{
    let b = vs2.index();
    assert forall|j: nat, f: nat| j < n && f < nf implies #[trigger] slot_start(
        vd,
        f,
        dr,
        l,
        j,
        sw,
    ) + sw <= b * l + (j + 1) * iw || b * l + n * iw <= slot_start(vd, f, dr, l, j, sw) by {
        let a = field_base(vd, f, dr);
        assert(field_clear_of_index(vd, dr, f, vs2, ir));
        assert(slot_start(vd, f, dr, l, j, sw) == a * l + j * sw);
        assert(j * sw + sw <= n * sw) by (nonlinear_arith)
            requires
                j + 1 <= n,
        ;
        assert(j * sw >= 0) by (nonlinear_arith);
        assert((j + 1) * iw >= 0) by (nonlinear_arith);
        if a + dr <= b {
            assert(a * l + dr * l <= b * l) by (nonlinear_arith)
                requires
                    a + dr <= b,
            ;
        } else {
            assert(b * l + ir * l <= a * l) by (nonlinear_arith)
                requires
                    b + ir <= a,
            ;
        }
    }
}

/// `Some((data_regs, index_regs))` when an indexed segment load (`vluxseg`, `vloxseg`) of `nf`
/// fields into `vd` with index group `vs2` of width `index_eew` is legal in `s`: vector
/// instructions are allowed, `vtype` is legal, the index `EMUL` lies in `[1/8, 8]`, `vd` is
/// aligned to `LMUL` registers and the `nf` field groups fit in `v0..v31`, a masked load does not
/// write `v0`, the index group is aligned and fits, and no field group shares a register with
/// the index group. `None` when the load is an illegal instruction.
pub open spec fn indexed_segment_load_groups(
    s: VectorState,
    vd: VReg,
    vs2: VReg,
    vm: bool,
    index_eew: Eew,
    nf: nat,
) -> Option<(nat, nat)> {
    if !s.vector_allowed {
        None
    } else {
        match s.vtype {
            None => None,
            Some(vt) => match emul_regs(vt.vlmul, index_eew, vt.vsew) {
                None => None,
                Some(ir) => {
                    let dr = vt.vlmul.regs();
                    if vd.index() % dr == 0 && vd.index() + nf * dr <= 32 && (vm || vd.index()
                        != 0) && vs2.index() % ir == 0 && vs2.index() + ir <= 32 && (forall|f: nat|
                        f < nf ==> #[trigger] field_clear_of_index(vd, dr, f, vs2, ir)) {
                        Some((dr, ir))
                    } else {
                        None
                    }
                },
            },
        }
    }
}

/// Execute an indexed segment load instruction (`vluxseg`, `vloxseg`): an illegal instruction,
/// leaving the state as it is, unless `indexed_segment_load_groups` accepts the operands; then
/// the `nf` SEW-wide fields of each element are loaded as `streamed_load_done` describes, from
/// `base` plus index element `i` plus `f` times SEW.
pub fn execute_indexed_segment_instruction<M: VirtualMemory>(
    state: &mut VectorState,
    memory: &M,
    old_pc: u64,
    vd: VReg,
    vs2: VReg,
    vm: bool,
    base: u64,
    index_eew: Eew,
    nf: Nf,
) -> (r: Result<(), ExecutionError>)
    requires
        old(state).wf(),
    ensures
        final(state).wf(),
        match indexed_segment_load_groups(*old(state), vd, vs2, vm, index_eew, nf.count()) {
            None => r == illegal(old_pc) && *final(state) == *old(state),
            Some((dr, _ir)) => streamed_load_done(
                *old(state),
                *final(state),
                r,
                memory,
                indexed_load_addr(*old(state), vs2, index_eew, base),
                vd,
                dr,
                old(state).vtype->Some_0.vsew.bytes(),
                nf.count(),
                vm,
            ),
        },
{
    if !state.vector_allowed {
        return Err(ExecutionError::IllegalInstruction { address: old_pc });
    }
    let vtype = match state.vtype {
        Some(vt) => vt,
        None => {
            return Err(ExecutionError::IllegalInstruction { address: old_pc });
        },
    };
    let data_group_regs = vtype.vlmul.register_count();
    let index_group_regs = match emul_register_count(vtype.vlmul, index_eew, vtype.vsew) {
        Some(g) => g,
        None => {
            return Err(ExecutionError::IllegalInstruction { address: old_pc });
        },
    };
    match validate_segment_registers(old_pc, vd, vm, data_group_regs, nf) {
        Ok(()) => {},
        Err(e) => {
            return Err(e);
        },
    }
    match check_register_group_alignment(old_pc, vs2, index_group_regs) {
        Ok(()) => {},
        Err(e) => {
            return Err(e);
        },
    }
    let nfields = nf.fields_per_segment();
    let mut f: u8 = 0;
    while f < nfields
        invariant
            *state == *old(state),
            state.wf(),
            state.vector_allowed,
            state.vtype == Some(vtype),
            emul_regs(vtype.vlmul, index_eew, vtype.vsew) == Some(index_group_regs as nat),
            data_group_regs == vtype.vlmul.regs(),
            nfields == nf.count(),
            f <= nfields,
            vd.index() + nf.count() * data_group_regs <= 32,
            data_group_regs >= 1,
            index_group_regs >= 1,
            forall|f2: nat|
                f2 < f ==> #[trigger] field_clear_of_index(
                    vd,
                    data_group_regs as nat,
                    f2,
                    vs2,
                    index_group_regs as nat,
                ),
        decreases nfields - f,
    {
        assert(vd.index() + f * data_group_regs + data_group_regs <= 32) by (nonlinear_arith)
            requires
                f < nfields,
                vd.index() + nfields * data_group_regs <= 32,
        ;
        let field_vd = VReg::from_bits(vd.to_bits() + f * data_group_regs).unwrap();
        if groups_overlap(field_vd, data_group_regs, vs2, index_group_regs) {
            assert(!field_clear_of_index(
                vd,
                data_group_regs as nat,
                f as nat,
                vs2,
                index_group_regs as nat,
            ));
            return Err(ExecutionError::IllegalInstruction { address: old_pc });
        }
        f = f + 1;
    }
    let data_eew = vtype.vsew.as_eew();
    proof {
        let s = *state;
        let l = s.vlenb();
        lemma_emul_of_sew(vtype.vlmul, vtype.vsew, data_eew);
        lemma_emul_group_holds_vl(s, vtype, data_eew, data_group_regs as nat);
        lemma_emul_group_holds_vl(s, vtype, index_eew, index_group_regs as nat);
        lemma_disjoint_fields_keep_indices(
            vd,
            data_group_regs as nat,
            vtype.vsew.bytes(),
            nf.count(),
            vs2,
            index_group_regs as nat,
            index_eew.bytes(),
            s.vl as nat,
            l,
        );
        assert(vs2.index() * l + s.vl * index_eew.bytes() <= 32 * l) by (nonlinear_arith)
            requires
                s.vl * index_eew.bytes() <= index_group_regs * l,
                vs2.index() + index_group_regs <= 32,
        ;
    }
    execute_indexed_load(
        state,
        memory,
        vd,
        vs2,
        vm,
        base,
        data_eew,
        index_eew,
        data_group_regs,
        nf,
    )
}

/// The first register `k < n` of a whole-register load from `base` whose read of `l` bytes at
/// `base + k * l` fails.
pub open spec fn first_bad_register<M: VirtualMemory>(mem: &M, base: u64, l: nat, n: nat) -> Option<
    nat,
>
    decreases n,
{
    if n == 0 {
        None
    } else {
        match first_bad_register(mem, base, l, (n - 1) as nat) {
            Some(k) => Some(k),
            None => if mem.read_spec((base + (n - 1) * l) as u64, l as u32) is Err {
                Some((n - 1) as nat)
            } else {
                None
            },
        }
    }
}

/// Registers `vd + k` for `k < n` hold the `l` bytes read at `base + k * l`, and no byte outside
/// them differs between `old` and `new`.
pub open spec fn whole_registers_loaded<M: VirtualMemory>(
    old: Seq<u8>,
    new: Seq<u8>,
    mem: &M,
    base: u64,
    l: nat,
    vd: VReg,
    n: nat,
) -> bool {
    &&& unchanged_outside(old, new, (vd.index() * l) as int, ((vd.index() + n) * l) as int)
    &&& forall|k: nat|
        k < n ==> (#[trigger] mem.read_spec((base + k * l) as u64, l as u32) matches Ok(bytes)
            && new.subrange(((vd.index() + k) * l) as int, ((vd.index() + k + 1) * l) as int)
            == bytes@)
}

/// Execute a whole-register load (`vl<nreg>r`): `nreg` registers from `vd` on are read from
/// `base`, `VLENB` bytes each, ignoring `vtype`, `vl`, `vstart` and the mask. An illegal
/// instruction, leaving the state as it is, when vector instructions are not allowed or `vd` is
/// not a multiple of `nreg`. When the read of register `k` fails, registers before it are loaded
/// and the error is returned; when `k > 0` the state is marked dirty and `vstart` reset. A load
/// without a failure marks the state dirty and resets `vstart`. A legal instruction needs the
/// address of its last register, `base + (nreg - 1) * VLENB`, to fit in 64 bits.
pub fn execute_whole_register_load<M: VirtualMemory>(
    state: &mut VectorState,
    memory: &M,
    old_pc: u64,
    vd: VReg,
    nreg: u8,
    base: u64,
) -> (r: Result<(), ExecutionError>)
    requires
        old(state).wf(),
        nreg == 1 || nreg == 2 || nreg == 4 || nreg == 8,
        old(state).vector_allowed && vd.index() % (nreg as nat) == 0 ==> base + (nreg - 1) * old(
            state,
        ).vlenb() <= u64::MAX,
    ensures
        final(state).wf(),
        !old(state).vector_allowed || vd.index() % (nreg as nat) != 0 ==> r == illegal(old_pc)
            && *final(state) == *old(state),
        old(state).vector_allowed && vd.index() % (nreg as nat) == 0 ==> {
            let s = *old(state);
            let l = s.vlenb();
            let bad = first_bad_register(memory, base, l, nreg as nat);
            let stop = match bad {
                Some(k) => k,
                None => nreg as nat,
            };
            &&& final(state).same_config(s)
            &&& whole_registers_loaded(s.regs@, final(state).regs@, memory, base, l, vd, stop)
            &&& match bad {
                None => {
                    &&& r == Ok::<(), ExecutionError>(())
                    &&& final(state).vs_dirty
                    &&& final(state).vstart == 0
                },
                Some(k) => {
                    &&& r == Err::<(), ExecutionError>(
                        ExecutionError::MemoryAccess(
                            memory.read_spec((base + k * l) as u64, l as u32)->Err_0,
                        ),
                    )
                    &&& if k > 0 {
                        final(state).vs_dirty && final(state).vstart == 0
                    } else {
                        final(state).vs_dirty == s.vs_dirty && final(state).vstart == s.vstart
                    }
                },
            }
        },
{
    let ghost s0 = *state;
    if !state.vector_allowed {
        return Err(ExecutionError::IllegalInstruction { address: old_pc });
    }
    if vd.to_bits() % nreg != 0 {
        return Err(ExecutionError::IllegalInstruction { address: old_pc });
    }
    let ghost l = s0.vlenb();
    let vlenb = state.regs.vlenb();
    proof {
        lemma_aligned_group_fits(vd.index(), nreg as nat);
        s0.regs.lemma_wf();
    }
    let mut reg_off: u8 = 0;
    while reg_off < nreg
        invariant
            s0 == *old(state),
            s0.wf(),
            s0.vector_allowed,
            l == s0.vlenb(),
            vlenb == l,
            s0.regs@.len() == 32 * l,
            nreg == 1 || nreg == 2 || nreg == 4 || nreg == 8,
            vd.index() + nreg <= 32,
            vd.index() % (nreg as nat) == 0,
            base + (nreg - 1) * l <= u64::MAX,
            reg_off <= nreg,
            state.same_config(s0),
            state.vs_dirty == s0.vs_dirty,
            state.vstart == s0.vstart,
            first_bad_register(memory, base, l, reg_off as nat) is None,
            whole_registers_loaded(s0.regs@, state.regs@, memory, base, l, vd, reg_off as nat),
        decreases nreg - reg_off,
    {
        assert(reg_off * l <= (nreg - 1) * l) by (nonlinear_arith)
            requires
                reg_off < nreg,
        ;
        let addr = base + reg_off as u64 * vlenb as u64;
        let reg = VReg::from_bits(vd.to_bits() + reg_off).unwrap();
        match memory.read_slice(addr, vlenb) {
            Ok(bytes) => {
                let ghost cur = state.regs@;
                state.regs.set(reg, &bytes);
                proof {
                    let k0 = reg_off as nat;
                    assert(reg.index() == vd.index() + k0);
                    assert(cur.len() == 32 * l);
                    assert((vd.index() + k0) * l == vd.index() * l + k0 * l) by (nonlinear_arith);
                    assert((vd.index() + k0 + 1) * l == vd.index() * l + k0 * l + l)
                        by (nonlinear_arith);
                    assert((vd.index() + k0 + 1) * l <= 32 * l) by (nonlinear_arith)
                        requires
                            vd.index() + k0 + 1 <= 32,
                    ;
                    assert(state.regs@.subrange(
                        ((vd.index() + k0) * l) as int,
                        ((vd.index() + k0 + 1) * l) as int,
                    ) =~= bytes@);
                    assert forall|k: nat| k < k0 + 1 implies (#[trigger] memory.read_spec(
                        (base + k * l) as u64,
                        l as u32,
                    ) matches Ok(b) && state.regs@.subrange(
                        ((vd.index() + k) * l) as int,
                        ((vd.index() + k + 1) * l) as int,
                    ) == b@) by {
                        if k < k0 {
                            assert((vd.index() + k + 1) * l <= (vd.index() + k0) * l)
                                by (nonlinear_arith)
                                requires
                                    k < k0,
                            ;
                            assert(0 <= (vd.index() + k) * l <= (vd.index() + k + 1) * l)
                                by (nonlinear_arith);
                            assert(state.regs@.subrange(
                                ((vd.index() + k) * l) as int,
                                ((vd.index() + k + 1) * l) as int,
                            ) =~= cur.subrange(
                                ((vd.index() + k) * l) as int,
                                ((vd.index() + k + 1) * l) as int,
                            ));
                        }
                    }
                    assert(first_bad_register(memory, base, l, (reg_off + 1) as nat) is None);
                }
            },
            Err(e) => {
                proof {
                    assert(first_bad_register(memory, base, l, (reg_off + 1) as nat) == Some(
                        reg_off as nat,
                    ));
                    lemma_bad_register_stays(
                        memory,
                        base,
                        l,
                        (reg_off + 1) as nat,
                        nreg as nat,
                    );
                }
                if reg_off > 0 {
                    state.mark_vs_dirty();
                    state.reset_vstart();
                }
                return Err(ExecutionError::MemoryAccess(e));
            },
        }
        reg_off = reg_off + 1;
    }
    state.mark_vs_dirty();
    state.reset_vstart();
    Ok(())
}

/// Once a failing register is found among the first `k`, it stays the first among more.
pub proof fn lemma_bad_register_stays<M: VirtualMemory>(mem: &M, base: u64, l: nat, k: nat, n: nat)
    requires
        k <= n,
        first_bad_register(mem, base, l, k) is Some,
    ensures
        first_bad_register(mem, base, l, n) == first_bad_register(mem, base, l, k),
    decreases n,
{
    if k < n {
        lemma_bad_register_stays(mem, base, l, k, (n - 1) as nat);
    }
}

/// Execute a mask load (`vlm.v`): the `ceil(vl / 8)` bytes at `base` are copied into the first
/// bytes of `vd`, unmasked and whatever `vstart` is. An illegal instruction, leaving the state as
/// it is, when vector instructions are not allowed. When `vl` is zero nothing is read; a failed
/// read returns its error and leaves the state as it is; otherwise the state is marked dirty and
/// `vstart` reset.
pub fn execute_mask_load<M: VirtualMemory>(
    state: &mut VectorState,
    memory: &M,
    old_pc: u64,
    vd: VReg,
    base: u64,
) -> (r: Result<(), ExecutionError>)
    requires
        old(state).wf(),
    ensures
        final(state).wf(),
        !old(state).vector_allowed ==> r == illegal(old_pc) && *final(state) == *old(state),
        old(state).vector_allowed ==> {
            let s = *old(state);
            let l = s.vlenb();
            let n = mask_bytes(s.vl as nat);
            let lo = (vd.index() * l) as int;
            if n == 0 {
                &&& r == Ok::<(), ExecutionError>(())
                &&& final(state).same_config(s)
                &&& final(state).regs == s.regs
                &&& final(state).vs_dirty
                &&& final(state).vstart == 0
            } else {
                match memory.read_spec(base, n as u32) {
                    Err(e) => r == Err::<(), ExecutionError>(ExecutionError::MemoryAccess(e))
                        && *final(state) == s,
                    Ok(bytes) => {
                        &&& r == Ok::<(), ExecutionError>(())
                        &&& final(state).same_config(s)
                        &&& unchanged_outside(s.regs@, final(state).regs@, lo, lo + n)
                        &&& final(state).regs@.subrange(lo, lo + n) == bytes@
                        &&& final(state).vs_dirty
                        &&& final(state).vstart == 0
                    },
                }
            }
        },
{
    let ghost s0 = *state;
    if !state.vector_allowed {
        return Err(ExecutionError::IllegalInstruction { address: old_pc });
    }
    proof {
        lemma_vl_bound(s0);
        s0.regs.lemma_wf();
    }
    let ghost l = s0.vlenb();
    let vl = state.vl;
    let byte_count = ((vl as u64 + 7) / 8) as u32;
    assert(byte_count == mask_bytes(vl as nat));
    if byte_count > 0 {
        let bytes = match memory.read_slice(base, byte_count) {
            Ok(b) => b,
            Err(e) => {
                return Err(ExecutionError::MemoryAccess(e));
            },
        };
        let start = vd.to_bits() as usize * state.regs.vlenb() as usize;
        let ghost lo = start as int;
        assert(start + byte_count as usize <= 32 * l) by (nonlinear_arith)
            requires
                start == vd.index() * l,
                vd.index() < 32,
                byte_count <= l,
        ;
        let mut k: usize = 0;
        while k < byte_count as usize
            invariant
                s0 == *old(state),
                s0.regs@.len() == 32 * l,
                l == s0.vlenb(),
                l <= 8192,
                lo == start,
                start == vd.index() * l,
                start + byte_count <= 32 * l,
                bytes@.len() == byte_count,
                k <= byte_count,
                state.same_config(s0),
                state.vs_dirty == s0.vs_dirty,
                state.vstart == s0.vstart,
                unchanged_outside(s0.regs@, state.regs@, lo, lo + k),
                forall|j: int| 0 <= j < k ==> #[trigger] state.regs@[lo + j] == bytes@[j],
            decreases byte_count - k,
        {
            state.regs.write_byte(start + k, bytes[k]);
            k = k + 1;
        }
        proof {
            assert(state.regs@.subrange(lo, lo + byte_count) =~= bytes@) by {
                assert forall|j: int| 0 <= j < byte_count implies state.regs@.subrange(
                    lo,
                    lo + byte_count,
                )[j] == bytes@[j] by {
                    assert(state.regs@[lo + j] == bytes@[j]);
                }
            }
        }
    }
    state.mark_vs_dirty();
    state.reset_vstart();
    Ok(())
}

} // verus!
