//! Vector loads: register-group checks, mask handling and the unit-stride, strided and indexed
//! (segment) loads.

use vstd::prelude::*;
use crate::arith::{lemma_slot_arith, unchanged_outside};
use crate::bytes::{
    bit_of, byte_scale, le_value, lemma_le_value_bound, lemma_le_value_frame, lemma_le_write_other,
    lemma_le_write_read, read_le,
};
use crate::register_file::{element, mask_bit_of, with_element, VectorRegisterFile};
use crate::state::{lemma_vl_bound, VectorState};
use crate::types::{
    lemma_vreg_index_bound, Eew, ExecutionError, Nf, VReg, VirtualMemoryError, Vlmul, Vsew,
};

verus! {

broadcast use lemma_vreg_index_bound;

/// Mask bit `i` of a mask byte array; `false` past its end.
pub open spec fn mask_bit_spec(mask: Seq<u8>, i: nat) -> bool {
    i / 8 < mask.len() && bit_of(mask[(i / 8) as int], i % 8)
}

/// Number of bytes holding `vl` mask bits.
pub open spec fn mask_bytes(vl: nat) -> nat {
    (vl + 7) / 8
}

/// The mask snapshot taken by masked operations: all ones when unmasked, otherwise the bytes of
/// `v0` covering `vl` bits followed by zeros.
pub open spec fn snapshot_spec(regs: Seq<u8>, vlenb: nat, vm: bool, vl: nat) -> Seq<u8> {
    if vm {
        Seq::new(vlenb, |_k: int| 0xffu8)
    } else {
        Seq::new(vlenb, |k: int| if k < mask_bytes(vl) { regs[k] } else { 0u8 })
    }
}

/// Whether mask bit `i` is set in the mask byte slice (bit `i % 8` of byte `i / 8`); `false` for
/// any `i` outside the slice.
pub fn mask_bit(mask: &Vec<u8>, i: u16) -> (r: bool)
    ensures
        r == mask_bit_spec(mask@, i as nat),
{
    let byte_idx = (i / 8) as usize;
    if byte_idx < mask.len() {
        let b = mask[byte_idx];
        let j = (i % 8) as u8;
        (b >> j) & 1 == 1
    } else {
        false
    }
}

/// Copy the mask bytes covering `vl` elements out of `v0`; when `vm` is set every bit is one.
pub fn snapshot_mask(vregs: &VectorRegisterFile, vm: bool, vl: u32) -> (r: Vec<u8>)
    requires
        vregs.wf(),
        vl <= 8 * vregs.vlenb_spec(),
    ensures
        r@ == snapshot_spec(vregs@, vregs.vlenb_spec(), vm, vl as nat),
{
    proof {
        vregs.lemma_wf();
    }
    let l = vregs.vlenb() as usize;
    let n = ((vl as usize) + 7) / 8;
    let mut buf: Vec<u8> = Vec::new();
    let mut k: usize = 0;
    while k < l
        invariant
            vregs.wf(),
            l == vregs.vlenb_spec(),
            vregs@.len() == 32 * l,
            n == mask_bytes(vl as nat),
            n <= l,
            k <= l,
            buf@.len() == k,
            forall|j: int|
                0 <= j < k ==> #[trigger] buf@[j] == snapshot_spec(
                    vregs@,
                    l as nat,
                    vm,
                    vl as nat,
                )[j],
        decreases l - k,
    {
        let b = if vm {
            0xffu8
        } else if k < n {
            vregs.read_byte(k)
        } else {
            0u8
        };
        buf.push(b);
        k = k + 1;
    }
    assert(buf@ =~= snapshot_spec(vregs@, l as nat, vm, vl as nat));
    buf
}

/// The snapshot's bit `i` is the operation's mask for element `i < vl`.
pub proof fn lemma_snapshot_bit(regs: Seq<u8>, vlenb: nat, vm: bool, vl: nat, i: nat)
    requires
        i < vl,
        vl <= 8 * vlenb,
        regs.len() >= vlenb,
    ensures
        mask_bit_spec(snapshot_spec(regs, vlenb, vm, vl), i) == (vm || mask_bit_of(
            regs,
            vlenb,
            0,
            i,
        )),
{
    let s = snapshot_spec(regs, vlenb, vm, vl);
    assert(i / 8 < vlenb);
    assert(i / 8 < mask_bytes(vl));
    assert(0 * vlenb + i / 8 == i / 8);
    if vm {
        let j = (i % 8) as u8;
        assert((0xffu8 >> j) & 1u8 == 1u8) by (bit_vector)
            requires
                j < 8,
        ;
    }
}

/// Whether register groups `[a, a + a_regs)` and `[b, b + b_regs)` share a register.
pub fn groups_overlap(a: VReg, a_regs: u8, b: VReg, b_regs: u8) -> (r: bool)
    ensures
        r == (a.index() < b.index() + b_regs && b.index() < a.index() + a_regs),
{
    let a = a.to_bits() as u16;
    let b = b.to_bits() as u16;
    a < b + b_regs as u16 && b < a + a_regs as u16
}

/// Whether a non-segment indexed load's data group `[vd, vd + data_regs)` (EEW = SEW) may overlap
/// its index group `[vs2, vs2 + index_regs)` (EEW = `index_eew`): always when they are disjoint;
/// when they overlap, only for equal EEWs, for a narrower data EEW when `vd == vs2`, and for a
/// wider data EEW when the index EMUL is at least one register and both groups end at the same
/// register.
pub open spec fn indexed_overlap_allowed_spec(
    vd: nat,
    data_regs: nat,
    vs2: nat,
    index_regs: nat,
    index_eew: Eew,
    sew: Vsew,
    vlmul: Vlmul,
) -> bool {
    if !(vd < vs2 + index_regs && vs2 < vd + data_regs) {
        true
    } else if sew.bytes() == index_eew.bytes() {
        true
    } else if sew.bytes() < index_eew.bytes() {
        vd == vs2
    } else {
        &&& index_eew.bits() * vlmul.num() >= sew.bits() * vlmul.den()
        &&& vd + data_regs == vs2 + index_regs
    }
}

/// See `indexed_overlap_allowed_spec`.
pub fn indexed_load_overlap_allowed(
    vd: VReg,
    data_regs: u8,
    vs2: VReg,
    index_regs: u8,
    index_eew: Eew,
    sew: Vsew,
    vlmul: Vlmul,
) -> (r: bool)
    ensures
        r == indexed_overlap_allowed_spec(
            vd.index(),
            data_regs as nat,
            vs2.index(),
            index_regs as nat,
            index_eew,
            sew,
            vlmul,
        ),
{
    if !groups_overlap(vd, data_regs, vs2, index_regs) {
        return true;
    }
    let data_bytes = sew.bytes_width();
    let index_bytes = index_eew.bytes_width();
    if data_bytes == index_bytes {
        true
    } else if data_bytes < index_bytes {
        vd.to_bits() == vs2.to_bits()
    } else {
        let (lmul_num, lmul_den) = vlmul.as_fraction();
        assert(lmul_num <= 8 && lmul_den <= 8);
        let sew_bits = sew.bits_width() as u16;
        let index_bits = index_eew.bits_width() as u16;
        assert(sew_bits * lmul_den as u16 <= 64 * 8) by (nonlinear_arith)
            requires
                sew_bits <= 64,
                lmul_den <= 8,
        ;
        assert(index_bits * lmul_num as u16 <= 64 * 8) by (nonlinear_arith)
            requires
                index_bits <= 64,
                lmul_num <= 8,
        ;
        let index_emul_at_least_one = index_bits * lmul_num as u16 >= sew_bits
            * lmul_den as u16;
        index_emul_at_least_one && vd.to_bits() as u16 + data_regs as u16 == vs2.to_bits() as u16
            + index_regs as u16
    }
}

/// Check that `vd` is aligned to `group_regs` and the group fits in `v0..v31`; otherwise an
/// illegal instruction at `old_pc`.
pub fn check_register_group_alignment(old_pc: u64, vd: VReg, group_regs: u8) -> (r: Result<
    (),
    ExecutionError,
>)
    requires
        group_regs >= 1,
    ensures
        r is Ok <==> (vd.index() % (group_regs as nat) == 0 && vd.index() + group_regs <= 32),
        r is Err ==> r == Err::<(), ExecutionError>(
            ExecutionError::IllegalInstruction { address: old_pc },
        ),
{
    let vd = vd.to_bits();
    if vd % group_regs != 0 || vd as u16 + group_regs as u16 > 32 {
        return Err(ExecutionError::IllegalInstruction { address: old_pc });
    }
    Ok(())
}

/// Validate the register layout of a segment load: `vd` is aligned to `group_regs`, all `nf`
/// field groups fit in `v0..v31`, and a masked load does not write `v0`. Otherwise an illegal
/// instruction at `old_pc`.
pub fn validate_segment_registers(
    old_pc: u64,
    vd: VReg,
    vm: bool,
    group_regs: u8,
    nf: Nf,
) -> (r: Result<(), ExecutionError>)
    requires
        group_regs >= 1,
    ensures
        r is Ok <==> ({
            &&& vd.index() % (group_regs as nat) == 0
            &&& vd.index() + nf.count() * group_regs <= 32
            &&& (vm || vd.index() != 0)
        }),
        r is Err ==> r == Err::<(), ExecutionError>(
            ExecutionError::IllegalInstruction { address: old_pc },
        ),
{
    let group_regs = group_regs as u32;
    let nf = nf.fields_per_segment() as u32;
    let vd_idx = vd.to_bits() as u32;
    assert(nf * group_regs <= 8 * 255) by (nonlinear_arith)
        requires
            nf <= 8,
            group_regs <= 255,
    ;
    if vd_idx % group_regs != 0 || vd_idx + nf * group_regs > 32 {
        return Err(ExecutionError::IllegalInstruction { address: old_pc });
    }
    if !vm && vd_idx == 0 {
        return Err(ExecutionError::IllegalInstruction { address: old_pc });
    }
    Ok(())
}

/// Memory that vector loads read from.
///
/// `read_spec` is the outcome a read of `len` bytes at `addr` has on the current memory: the
/// bytes, or the error the read reports. `read_slice` performs that read.
pub trait VirtualMemory {
    /// The `len` bytes at `addr`, or the error a read of them reports.
    spec fn read_spec(&self, addr: u64, len: u32) -> Result<Vec<u8>, VirtualMemoryError>;

    /// Read `len` bytes at `addr`.
    fn read_slice(&self, addr: u64, len: u32) -> (r: Result<Vec<u8>, VirtualMemoryError>)
        ensures
            r == self.read_spec(addr, len),
            r matches Ok(bytes) ==> bytes@.len() == len,
    ;
}

/// Little-endian value of the `w` bytes at `addr`, or the read's error.
pub open spec fn mem_value<M: VirtualMemory>(mem: &M, addr: u64, w: nat) -> Result<
    nat,
    VirtualMemoryError,
> {
    match mem.read_spec(addr, w as u32) {
        Ok(bytes) => Ok(le_value(bytes@, 0, w)),
        Err(e) => Err(e),
    }
}

/// The value of a successful read (zero otherwise).
pub open spec fn ok_value(r: Result<nat, VirtualMemoryError>) -> nat {
    match r {
        Ok(v) => v,
        Err(_) => 0,
    }
}

/// Read an `eew`-wide little-endian value from memory at `addr`.
pub fn read_mem_element<M: VirtualMemory>(memory: &M, addr: u64, eew: Eew) -> (r: Result<
    u64,
    VirtualMemoryError,
>)
    ensures
        match r {
            Ok(v) => mem_value(memory, addr, eew.bytes()) == Ok::<nat, VirtualMemoryError>(
                v as nat,
            ),
            Err(e) => mem_value(memory, addr, eew.bytes()) == Err::<nat, VirtualMemoryError>(e),
        },
{
    let w = eew.bytes_width();
    match memory.read_slice(addr, w as u32) {
        Ok(source) => Ok(read_le(&source, 0, w as usize)),
        Err(err) => Err(err),
    }
}

/// Read element `elem_i` (of width `eew`, zero-extended) of the group based at `base_reg`.
pub fn read_group_element(vregs: &VectorRegisterFile, base_reg: VReg, elem_i: u16, eew: Eew) -> (r:
    u64)
    requires
        vregs.wf(),
        base_reg.index() * vregs.vlenb_spec() + (elem_i + 1) * eew.bytes() <= 32
            * vregs.vlenb_spec(),
    ensures
        r == element(vregs@, vregs.vlenb_spec(), base_reg.index(), elem_i as nat, eew.bytes()),
{
    proof {
        vregs.lemma_wf();
        lemma_slot_arith(elem_i as nat, 0, eew.bytes());
    }
    let w = eew.bytes_width() as usize;
    let l = vregs.vlenb() as usize;
    let base = base_reg.to_bits() as usize;
    assert(base * l <= 31 * 8192) by (nonlinear_arith)
        requires
            base < 32,
            l <= 8192,
    ;
    assert(elem_i as usize * w <= 65535 * 8) by (nonlinear_arith)
        requires
            w <= 8,
    ;
    vregs.read_bytes(base * l + elem_i as usize * w, w)
}

/// Write the low `eew` bytes of `value` into element `elem_i` of the group based at `base_reg`.
pub fn write_group_element(
    vregs: &mut VectorRegisterFile,
    base_reg: VReg,
    elem_i: u16,
    eew: Eew,
    value: u64,
)
    requires
        old(vregs).wf(),
        base_reg.index() * old(vregs).vlenb_spec() + (elem_i + 1) * eew.bytes() <= 32 * old(
            vregs,
        ).vlenb_spec(),
    ensures
        final(vregs).wf(),
        final(vregs).vlenb_spec() == old(vregs).vlenb_spec(),
        final(vregs)@ == with_element(
            old(vregs)@,
            old(vregs).vlenb_spec(),
            base_reg.index(),
            elem_i as nat,
            eew.bytes(),
            value as nat,
        ),
{
    proof {
        vregs.lemma_wf();
        lemma_slot_arith(elem_i as nat, 0, eew.bytes());
    }
    let w = eew.bytes_width() as usize;
    let l = vregs.vlenb() as usize;
    let base = base_reg.to_bits() as usize;
    assert(base * l <= 31 * 8192) by (nonlinear_arith)
        requires
            base < 32,
            l <= 8192,
    ;
    assert(elem_i as usize * w <= 65535 * 8) by (nonlinear_arith)
        requires
            w <= 8,
    ;
    vregs.write_bytes(base * l + elem_i as usize * w, w, value);
}

/// First register of field `f` of a segment destination based at `vd` with `g`-register groups.
pub open spec fn field_base(vd: VReg, f: nat, g: nat) -> nat {
    vd.index() + f * g
}

/// The first field `< k` of element `i` whose read fails.
pub open spec fn first_bad_field<M: VirtualMemory>(
    mem: &M,
    addr: spec_fn(nat, nat) -> u64,
    w: nat,
    i: nat,
    k: nat,
) -> Option<nat>
    decreases k,
{
    if k == 0 {
        None
    } else {
        match first_bad_field(mem, addr, w, i, (k - 1) as nat) {
            Some(f) => Some(f),
            None => if mem_value(mem, addr(i, (k - 1) as nat), w) is Err {
                Some((k - 1) as nat)
            } else {
                None
            },
        }
    }
}

/// The first active element `< n` one of whose `nf` fields fails to read.
pub open spec fn first_bad_elem<M: VirtualMemory>(
    s: VectorState,
    vm: bool,
    mem: &M,
    addr: spec_fn(nat, nat) -> u64,
    w: nat,
    nf: nat,
    n: nat,
) -> Option<nat>
    decreases n,
{
    if n == 0 {
        None
    } else {
        match first_bad_elem(s, vm, mem, addr, w, nf, (n - 1) as nat) {
            Some(j) => Some(j),
            None => if s.is_active(vm, (n - 1) as nat) && first_bad_field(
                mem,
                addr,
                w,
                (n - 1) as nat,
                nf,
            ) is Some {
                Some((n - 1) as nat)
            } else {
                None
            },
        }
    }
}

/// The error of a failing field read.
pub open spec fn field_error<M: VirtualMemory>(
    mem: &M,
    addr: spec_fn(nat, nat) -> u64,
    w: nat,
    i: nat,
    f: nat,
) -> VirtualMemoryError {
    match mem_value(mem, addr(i, f), w) {
        Err(e) => e,
        Ok(_) => VirtualMemoryError { address: 0 },
    }
}

/// Element `i` of field `f` of a load's destination in `regs`: the loaded value when `written`,
/// else the value it had in `old`.
pub open spec fn load_elem_post<M: VirtualMemory>(
    old: VectorState,
    regs: Seq<u8>,
    mem: &M,
    addr: spec_fn(nat, nat) -> u64,
    vd: VReg,
    g: nat,
    w: nat,
    i: nat,
    f: nat,
    written: bool,
) -> bool {
    let d = element(regs, old.vlenb(), field_base(vd, f, g), i, w);
    if written {
        d == ok_value(mem_value(mem, addr(i, f), w))
    } else {
        d == element(old.regs@, old.vlenb(), field_base(vd, f, g), i, w)
    }
}

/// Every element slot of every field of a load's destination is as `load_elem_post` says, with
/// `written` telling which (element, field) pairs have been loaded.
#[verifier::opaque]
pub open spec fn load_regs_ok<M: VirtualMemory>(
    old: VectorState,
    regs: Seq<u8>,
    mem: &M,
    addr: spec_fn(nat, nat) -> u64,
    vd: VReg,
    g: nat,
    w: nat,
    nf: nat,
    written: spec_fn(nat, nat) -> bool,
) -> bool {
    forall|i: nat, f: nat|
        #![trigger element(regs, old.vlenb(), field_base(vd, f, g), i, w)]
        f < nf && (i + 1) * w <= g * old.vlenb() ==> load_elem_post(
            old,
            regs,
            mem,
            addr,
            vd,
            g,
            w,
            i,
            f,
            written(i, f),
        )
}

/// Loading one more (element, field) pair keeps `load_regs_ok` and the frame.
pub proof fn lemma_load_write_step<M: VirtualMemory>(
    old: VectorState,
    cur: Seq<u8>,
    mem: &M,
    addr: spec_fn(nat, nat) -> u64,
    vd: VReg,
    g: nat,
    w: nat,
    nf: nat,
    written: spec_fn(nat, nat) -> bool,
    written2: spec_fn(nat, nat) -> bool,
    i: nat,
    f: nat,
    v: nat,
)
    requires
        old.regs.wf(),
        cur.len() == old.regs@.len(),
        vd.index() + nf * g <= 32,
        f < nf,
        (i + 1) * w <= g * old.vlenb(),
        load_regs_ok(old, cur, mem, addr, vd, g, w, nf, written),
        unchanged_outside(
            old.regs@,
            cur,
            (vd.index() * old.vlenb()) as int,
            ((vd.index() + nf * g) * old.vlenb()) as int,
        ),
        mem_value(mem, addr(i, f), w) == Ok::<nat, VirtualMemoryError>(v),
        v < byte_scale(w),
        forall|j: nat, f2: nat| #[trigger] written2(j, f2) == (written(j, f2) || (j == i && f2 == f)),
    ensures
        load_regs_ok(
            old,
            with_element(cur, old.vlenb(), field_base(vd, f, g), i, w, v),
            mem,
            addr,
            vd,
            g,
            w,
            nf,
            written2,
        ),
        unchanged_outside(
            old.regs@,
            with_element(cur, old.vlenb(), field_base(vd, f, g), i, w, v),
            (vd.index() * old.vlenb()) as int,
            ((vd.index() + nf * g) * old.vlenb()) as int,
        ),
{
    reveal(load_regs_ok);
    let l = old.vlenb();
    old.regs.lemma_wf();
    let new = with_element(cur, l, field_base(vd, f, g), i, w, v);
    lemma_field_fits(vd.index(), g, l, w, f, nf, i);
    let off = (field_base(vd, f, g) * l + i * w) as int;
    lemma_le_write_read(cur, off, w, v);
    vstd::arithmetic::div_mod::lemma_small_mod(v, byte_scale(w));
    assert forall|j: nat, f2: nat|
        f2 < nf && (j + 1) * w <= g * l implies #[trigger] load_elem_post(
        old,
        new,
        mem,
        addr,
        vd,
        g,
        w,
        j,
        f2,
        written2(j, f2),
    ) by {
        assert(element(cur, l, field_base(vd, f2, g), j, w) == element(
            cur,
            l,
            field_base(vd, f2, g),
            j,
            w,
        ));
        assert(load_elem_post(old, cur, mem, addr, vd, g, w, j, f2, written(j, f2)));
        if j != i || f2 != f {
            lemma_field_slots_disjoint(vd.index(), g, l, w, f, i, f2, j);
            lemma_field_fits(vd.index(), g, l, w, f2, nf, j);
            lemma_le_write_other(cur, off, w, v, (field_base(vd, f2, g) * l + j * w) as int, w);
        }
    }
    assert((vd.index() + nf * g) * l <= 32 * l) by (nonlinear_arith)
        requires
            vd.index() + nf * g <= 32,
    ;
    assert(vd.index() * l <= field_base(vd, f, g) * l) by (nonlinear_arith);
}

/// Before a load writes anything its destination is as `load_regs_ok` says for a `written`
/// predicate that holds of no element below `vstart`.
pub proof fn lemma_load_nothing_written<M: VirtualMemory>(
    old: VectorState,
    mem: &M,
    addr: spec_fn(nat, nat) -> u64,
    vd: VReg,
    g: nat,
    w: nat,
    nf: nat,
    written: spec_fn(nat, nat) -> bool,
)
    requires
        forall|j: nat, f: nat| !#[trigger] written(j, f),
    ensures
        load_regs_ok(old, old.regs@, mem, addr, vd, g, w, nf, written),
{
    reveal(load_regs_ok);
}

/// A load that writes nothing more keeps `load_regs_ok` under an equivalent `written` predicate.
pub proof fn lemma_load_same_written<M: VirtualMemory>(
    old: VectorState,
    regs: Seq<u8>,
    mem: &M,
    addr: spec_fn(nat, nat) -> u64,
    vd: VReg,
    g: nat,
    w: nat,
    nf: nat,
    written: spec_fn(nat, nat) -> bool,
    written2: spec_fn(nat, nat) -> bool,
)
    requires
        load_regs_ok(old, regs, mem, addr, vd, g, w, nf, written),
        forall|j: nat, f2: nat|
            f2 < nf && (j + 1) * w <= g * old.vlenb() ==> #[trigger] written2(j, f2) == written(
                j,
                f2,
            ),
    ensures
        load_regs_ok(old, regs, mem, addr, vd, g, w, nf, written2),
{
    reveal(load_regs_ok);
    assert forall|j: nat, f2: nat|
        f2 < nf && (j + 1) * w <= g * old.vlenb() implies #[trigger] load_elem_post(
        old,
        regs,
        mem,
        addr,
        vd,
        g,
        w,
        j,
        f2,
        written2(j, f2),
    ) by {
        assert(element(regs, old.vlenb(), field_base(vd, f2, g), j, w) == element(
            regs,
            old.vlenb(),
            field_base(vd, f2, g),
            j,
            w,
        ));
        assert(load_elem_post(old, regs, mem, addr, vd, g, w, j, f2, written(j, f2)));
    }
}

/// Element `i` of field `f < nf` lies within the destination's register groups.
pub proof fn lemma_field_fits(vd: nat, g: nat, l: nat, w: nat, f: nat, nf: nat, i: nat)
    requires
        f < nf,
        vd + nf * g <= 32,
        (i + 1) * w <= g * l,
    ensures
        (vd + f * g) * l + (i + 1) * w <= (vd + nf * g) * l,
        (vd + nf * g) * l <= 32 * l,
        vd + f * g + g <= 32,
        (vd + f * g) * l + i * w + w <= (vd + nf * g) * l,
        vd * l <= (vd + f * g) * l,
{
    assert((vd + f * g) * l + g * l <= (vd + nf * g) * l) by (nonlinear_arith)
        requires
            f < nf,
    ;
    assert((vd + nf * g) * l <= 32 * l) by (nonlinear_arith)
        requires
            vd + nf * g <= 32,
    ;
    assert(vd + f * g + g <= vd + nf * g) by (nonlinear_arith)
        requires
            f < nf,
    ;
    lemma_slot_arith(i, 0, w);
    assert(vd * l <= (vd + f * g) * l) by (nonlinear_arith);
}

/// Address of field `f` of element `i` of a unit-stride segment load:
/// `base + i * nf * w + f * w`, wrapping.
pub open spec fn unit_stride_addr(base: u64, nf: nat, w: nat) -> spec_fn(nat, nat) -> u64 {
    |i: nat, f: nat| ((base + i * (nf * w) + f * w) % 0x1_0000_0000_0000_0000) as u64
}

/// Distinct element slots of a segment destination's fields do not share bytes.
pub proof fn lemma_field_slots_disjoint(
    vd: nat,
    g: nat,
    l: nat,
    w: nat,
    f1: nat,
    i1: nat,
    f2: nat,
    i2: nat,
)
    requires
        f1 != f2 || i1 != i2,
        (i1 + 1) * w <= g * l,
        (i2 + 1) * w <= g * l,
    ensures
        (vd + f1 * g) * l + i1 * w + w <= (vd + f2 * g) * l + i2 * w || (vd + f2 * g) * l + i2 * w
            + w <= (vd + f1 * g) * l + i1 * w,
{
    lemma_slot_arith(i1, 0, w);
    lemma_slot_arith(i2, 0, w);
    if f1 == f2 {
        if i1 < i2 {
            lemma_slot_arith(i2, 0, w);
        } else {
            lemma_slot_arith(i1, 0, w);
        }
    } else if f1 < f2 {
        assert((vd + f1 * g) * l + g * l <= (vd + f2 * g) * l) by (nonlinear_arith)
            requires
                f1 < f2,
        ;
    } else {
        assert((vd + f2 * g) * l + g * l <= (vd + f1 * g) * l) by (nonlinear_arith)
            requires
                f2 < f1,
        ;
    }
}

/// Once a failing field is found among the first `k`, it stays the first among more.
pub proof fn lemma_bad_field_stays<M: VirtualMemory>(
    mem: &M,
    addr: spec_fn(nat, nat) -> u64,
    w: nat,
    i: nat,
    k: nat,
    n: nat,
)
    requires
        k <= n,
        first_bad_field(mem, addr, w, i, k) is Some,
    ensures
        first_bad_field(mem, addr, w, i, n) == first_bad_field(mem, addr, w, i, k),
    decreases n,
{
    if k < n {
        lemma_bad_field_stays(mem, addr, w, i, k, (n - 1) as nat);
    }
}

/// Once a failing element is found among the first `k`, it stays the first among more.
pub proof fn lemma_bad_elem_stays<M: VirtualMemory>(
    s: VectorState,
    vm: bool,
    mem: &M,
    addr: spec_fn(nat, nat) -> u64,
    w: nat,
    nf: nat,
    k: nat,
    n: nat,
)
    requires
        k <= n,
        first_bad_elem(s, vm, mem, addr, w, nf, k) is Some,
    ensures
        first_bad_elem(s, vm, mem, addr, w, nf, n) == first_bad_elem(s, vm, mem, addr, w, nf, k),
    decreases n,
{
    if k < n {
        lemma_bad_elem_stays(s, vm, mem, addr, w, nf, k, (n - 1) as nat);
    }
}

/// No element below `vstart` is active, so none of them fails.
pub proof fn lemma_bad_elem_below_vstart<M: VirtualMemory>(
    s: VectorState,
    vm: bool,
    mem: &M,
    addr: spec_fn(nat, nat) -> u64,
    w: nat,
    nf: nat,
    n: nat,
)
    requires
        n <= s.vstart,
    ensures
        first_bad_elem(s, vm, mem, addr, w, nf, n) is None,
    decreases n,
{
    if n > 0 {
        lemma_bad_elem_below_vstart(s, vm, mem, addr, w, nf, (n - 1) as nat);
    }
}

/// `wrapping_add` is addition modulo `2^64`.
pub proof fn lemma_wrapping_add(x: u64, y: u64)
    ensures
        x.wrapping_add(y) as int == (x + y) % 0x1_0000_0000_0000_0000,
{
    if x + y > u64::MAX {
        assert((x + y) % 0x1_0000_0000_0000_0000 == x + y - 0x1_0000_0000_0000_0000);
    } else {
        assert((x + y) % 0x1_0000_0000_0000_0000 == x + y);
    }
}

/// Adding modulo `2^64` in two steps is adding once.
pub proof fn lemma_add_mod_twice(x: int, y: int, z: int)
    ensures
        ((x + y) % 0x1_0000_0000_0000_0000 + z) % 0x1_0000_0000_0000_0000 == (x + y + z)
            % 0x1_0000_0000_0000_0000,
{
    vstd::arithmetic::div_mod::lemma_add_mod_noop(x + y, z, 0x1_0000_0000_0000_0000);
    vstd::arithmetic::div_mod::lemma_mod_twice(z, 0x1_0000_0000_0000_0000);
    vstd::arithmetic::div_mod::lemma_add_mod_noop(x + y, z, 0x1_0000_0000_0000_0000);
    vstd::arithmetic::div_mod::lemma_mod_mod(x + y, 0x1_0000_0000_0000_0000, 1);
}

/// Which (element, field) pairs a load has written once it has gone through the elements below
/// `i` and the fields below `f` of element `i`.
pub open spec fn seg_written(s: VectorState, vm: bool, i: nat, f: nat) -> spec_fn(nat, nat) -> bool {
    |j: nat, f2: nat| s.is_active(vm, j) && (j < i || (j == i && f2 < f))
}

/// Which (element, field) pairs a unit-stride load has loaded once it has gone through the
/// elements below `stop`.
pub open spec fn unit_written(s: VectorState, vm: bool, stop: nat) -> spec_fn(nat, nat) -> bool {
    |i: nat, f: nat| s.is_active(vm, i) && i < stop
}

/// The register-file part of a load's outcome.
pub open spec fn load_frame_ok<M: VirtualMemory>(
    old: VectorState,
    new: VectorState,
    mem: &M,
    addr: spec_fn(nat, nat) -> u64,
    vd: VReg,
    g: nat,
    w: nat,
    nf: nat,
    written: spec_fn(nat, nat) -> bool,
) -> bool {
    &&& new.regs.wf()
    &&& new.regs.vlenb_spec() == old.regs.vlenb_spec()
    &&& new.vtype == old.vtype
    &&& new.vxrm == old.vxrm
    &&& new.vxsat == old.vxsat
    &&& new.vector_allowed == old.vector_allowed
    &&& new.elen == old.elen
    &&& unchanged_outside(
        old.regs@,
        new.regs@,
        (vd.index() * old.vlenb()) as int,
        ((vd.index() + nf * g) * old.vlenb()) as int,
    )
    &&& load_regs_ok(old, new.regs@, mem, addr, vd, g, w, nf, written)
}

/// Read the `nf` fields of element `i` at `elem_base + f * w` (wrapping), stopping at the first
/// failing field, whose index and error are returned.
fn read_segment_fields<M: VirtualMemory>(
    memory: &M,
    elem_base: u64,
    eew: Eew,
    nfields: u8,
    Ghost(addr): Ghost<spec_fn(nat, nat) -> u64>,
    Ghost(i): Ghost<nat>,
) -> (r: Result<Vec<u64>, (u8, VirtualMemoryError)>)
    requires
        1 <= nfields <= 8,
        forall|f: nat|
            f < nfields ==> #[trigger] addr(i, f) as int == (elem_base + f * eew.bytes())
                % 0x1_0000_0000_0000_0000,
    ensures
        match r {
            Ok(buf) => {
                &&& buf@.len() == nfields
                &&& first_bad_field(memory, addr, eew.bytes(), i, nfields as nat) is None
                &&& forall|f: nat|
                    f < nfields ==> mem_value(memory, addr(i, f), eew.bytes()) == Ok::<
                        nat,
                        VirtualMemoryError,
                    >(#[trigger] buf@[f as int] as nat)
                &&& forall|f: nat| f < nfields ==> #[trigger] buf@[f as int] < byte_scale(eew.bytes())
            },
            Err((f, e)) => {
                &&& first_bad_field(memory, addr, eew.bytes(), i, nfields as nat) == Some(f as nat)
                &&& e == field_error(memory, addr, eew.bytes(), i, f as nat)
                &&& f < nfields
            },
        },
{
    let ghost w = eew.bytes();
    let elem_bytes = eew.bytes_width();
    let mut field_buf: Vec<u64> = Vec::new();
    let mut f: u8 = 0;
    while f < nfields
        invariant
            1 <= nfields <= 8,
            w == eew.bytes(),
            elem_bytes == w,
            w <= 8,
            f <= nfields,
            forall|f2: nat|
                f2 < nfields ==> #[trigger] addr(i, f2) as int == (elem_base + f2 * w)
                    % 0x1_0000_0000_0000_0000,
            field_buf@.len() == f,
            first_bad_field(memory, addr, w, i, f as nat) is None,
            forall|f2: nat|
                f2 < f ==> mem_value(memory, addr(i, f2), w) == Ok::<nat, VirtualMemoryError>(
                    #[trigger] field_buf@[f2 as int] as nat,
                ),
            forall|f2: nat| f2 < f ==> #[trigger] field_buf@[f2 as int] < byte_scale(w),
        decreases nfields - f,
    {
        assert(f * elem_bytes <= 64) by (nonlinear_arith)
            requires
                f <= 8,
                elem_bytes <= 8,
        ;
        let a = elem_base.wrapping_add((f * elem_bytes) as u64);
        proof {
            lemma_wrapping_add(elem_base, (f * elem_bytes) as u64);
            assert(a == addr(i, f as nat));
        }
        match read_mem_element(memory, a, eew) {
            Ok(data) => {
                proof {
                    let bytes = memory.read_spec(a, w as u32);
                    lemma_le_value_bound(bytes->Ok_0@, 0, w);
                }
                field_buf.push(data);
            },
            Err(mem_err) => {
                proof {
                    assert(first_bad_field(memory, addr, w, i, (f + 1) as nat) == Some(f as nat));
                    lemma_bad_field_stays(memory, addr, w, i, (f + 1) as nat, nfields as nat);
                }
                return Err((f, mem_err));
            },
        }
        f = f + 1;
    }
    Ok(field_buf)
}

/// Write the `nf` loaded fields of element `i` into the destination's field groups.
fn write_segment_fields<M: VirtualMemory>(
    state: &mut VectorState,
    vd: VReg,
    group_regs: u8,
    i: u32,
    eew: Eew,
    buf: &Vec<u64>,
    Ghost(s0): Ghost<VectorState>,
    Ghost(memory): Ghost<&M>,
    Ghost(addr): Ghost<spec_fn(nat, nat) -> u64>,
    Ghost(vm): Ghost<bool>,
)
    requires
        s0.wf(),
        old(state).same_config(s0),
        group_regs >= 1,
        1 <= buf@.len() <= 8,
        vd.index() + buf@.len() * group_regs <= 32,
        (i + 1) * eew.bytes() <= group_regs * s0.vlenb(),
        i < 65536,
        s0.is_active(vm, i as nat),
        forall|f: nat|
            f < buf@.len() ==> mem_value(memory, addr(i as nat, f), eew.bytes()) == Ok::<
                nat,
                VirtualMemoryError,
            >(#[trigger] buf@[f as int] as nat),
        forall|f: nat| f < buf@.len() ==> #[trigger] buf@[f as int] < byte_scale(eew.bytes()),
        unchanged_outside(
            s0.regs@,
            old(state).regs@,
            (vd.index() * s0.vlenb()) as int,
            ((vd.index() + buf@.len() * group_regs) * s0.vlenb()) as int,
        ),
        load_regs_ok(
            s0,
            old(state).regs@,
            memory,
            addr,
            vd,
            group_regs as nat,
            eew.bytes(),
            buf@.len(),
            seg_written(s0, vm, i as nat, 0),
        ),
    ensures
        final(state).same_config(s0),
        final(state).vs_dirty == old(state).vs_dirty,
        final(state).vstart == old(state).vstart,
        unchanged_outside(
            s0.regs@,
            final(state).regs@,
            (vd.index() * s0.vlenb()) as int,
            ((vd.index() + buf@.len() * group_regs) * s0.vlenb()) as int,
        ),
        load_regs_ok(
            s0,
            final(state).regs@,
            memory,
            addr,
            vd,
            group_regs as nat,
            eew.bytes(),
            buf@.len(),
            seg_written(s0, vm, i as nat, buf@.len()),
        ),
{
    let ghost l = s0.vlenb();
    let ghost w = eew.bytes();
    let ghost g = group_regs as nat;
    let ghost nfc = buf@.len();
    let n = buf.len();
    let nfields = n as u8;
    assert(nfields as nat == buf@.len());
    let mut f: u8 = 0;
    while f < nfields
        invariant
            s0.wf(),
            l == s0.vlenb(),
            w == eew.bytes(),
            g == group_regs,
            g >= 1,
            nfields == nfc,
            nfc == buf@.len(),
            1 <= nfc <= 8,
            vd.index() + nfc * g <= 32,
            (i + 1) * w <= g * l,
            i < 65536,
            f <= nfields,
            state.same_config(s0),
            state.vs_dirty == old(state).vs_dirty,
            state.vstart == old(state).vstart,
            s0.is_active(vm, i as nat),
            forall|f2: nat|
                f2 < nfc ==> mem_value(memory, addr(i as nat, f2), w) == Ok::<
                    nat,
                    VirtualMemoryError,
                >(#[trigger] buf@[f2 as int] as nat),
            forall|f2: nat| f2 < nfc ==> #[trigger] buf@[f2 as int] < byte_scale(w),
            unchanged_outside(
                s0.regs@,
                state.regs@,
                (vd.index() * l) as int,
                ((vd.index() + nfc * g) * l) as int,
            ),
            load_regs_ok(
                s0,
                state.regs@,
                memory,
                addr,
                vd,
                g,
                w,
                nfc,
                seg_written(s0, vm, i as nat, f as nat),
            ),
        decreases nfields - f,
    {
        proof {
            lemma_field_fits(vd.index(), g, l, w, f as nat, nfc, i as nat);
        }
        let field_reg = VReg::from_bits(vd.to_bits() + f * group_regs).unwrap();
        let ghost cur = state.regs@;
        let v = buf[f as usize];
        proof {
            assert(mem_value(memory, addr(i as nat, f as nat), w) == Ok::<nat, VirtualMemoryError>(
                buf@[f as int] as nat,
            ));
            assert(buf@[f as int] < byte_scale(w));
        }
        write_group_element(&mut state.regs, field_reg, i as u16, eew, v);
        proof {
            lemma_load_write_step(
                s0,
                cur,
                memory,
                addr,
                vd,
                g,
                w,
                nfc,
                seg_written(s0, vm, i as nat, f as nat),
                seg_written(s0, vm, i as nat, (f + 1) as nat),
                i as nat,
                f as nat,
                v as nat,
            );
        }
        f = f + 1;
    }
}

/// Load all fields of active element `i` of a unit-stride load, or report the first failing
/// field's error leaving the state unchanged.
fn load_unit_element<M: VirtualMemory>(
    state: &mut VectorState,
    memory: &M,
    vd: VReg,
    base: u64,
    eew: Eew,
    group_regs: u8,
    nfields: u8,
    segment_stride: u64,
    i: u32,
    Ghost(s0): Ghost<VectorState>,
    Ghost(vm): Ghost<bool>,
) -> (r: Result<(), VirtualMemoryError>)
    requires
        s0.wf(),
        old(state).same_config(s0),
        group_regs >= 1,
        1 <= nfields <= 8,
        segment_stride == nfields * eew.bytes(),
        vd.index() + nfields * group_regs <= 32,
        (i + 1) * eew.bytes() <= group_regs * s0.vlenb(),
        i < 65536,
        s0.is_active(vm, i as nat),
        first_bad_elem(
            s0,
            vm,
            memory,
            unit_stride_addr(base, nfields as nat, eew.bytes()),
            eew.bytes(),
            nfields as nat,
            i as nat,
        ) is None,
        unchanged_outside(
            s0.regs@,
            old(state).regs@,
            (vd.index() * s0.vlenb()) as int,
            ((vd.index() + nfields * group_regs) * s0.vlenb()) as int,
        ),
        load_regs_ok(
            s0,
            old(state).regs@,
            memory,
            unit_stride_addr(base, nfields as nat, eew.bytes()),
            vd,
            group_regs as nat,
            eew.bytes(),
            nfields as nat,
            unit_written(s0, vm, i as nat),
        ),
    ensures
        ({
            let addr = unit_stride_addr(base, nfields as nat, eew.bytes());
            match r {
                Ok(()) => {
                    &&& final(state).same_config(s0)
                    &&& final(state).vs_dirty == old(state).vs_dirty
                    &&& final(state).vstart == old(state).vstart
                    &&& first_bad_elem(
                        s0,
                        vm,
                        memory,
                        addr,
                        eew.bytes(),
                        nfields as nat,
                        (i + 1) as nat,
                    ) is None
                    &&& unchanged_outside(
                        s0.regs@,
                        final(state).regs@,
                        (vd.index() * s0.vlenb()) as int,
                        ((vd.index() + nfields * group_regs) * s0.vlenb()) as int,
                    )
                    &&& load_regs_ok(
                        s0,
                        final(state).regs@,
                        memory,
                        addr,
                        vd,
                        group_regs as nat,
                        eew.bytes(),
                        nfields as nat,
                        unit_written(s0, vm, (i + 1) as nat),
                    )
                },
                Err(e) => {
                    &&& *final(state) == *old(state)
                    &&& first_bad_elem(
                        s0,
                        vm,
                        memory,
                        addr,
                        eew.bytes(),
                        nfields as nat,
                        (i + 1) as nat,
                    ) == Some(i as nat)
                    &&& first_bad_field(memory, addr, eew.bytes(), i as nat, nfields as nat) matches Some(
                        f,
                    ) && e == field_error(memory, addr, eew.bytes(), i as nat, f)
                },
            }
        }),
{
    let ghost w = eew.bytes();
    let ghost nfc = nfields as nat;
    let ghost g = group_regs as nat;
    let ghost addr = unit_stride_addr(base, nfc, w);
    assert((i as nat) * (nfc * w) <= 65535 * 64) by (nonlinear_arith)
        requires
            i < 65536,
            nfc <= 8,
            w <= 8,
    ;
    let elem_base = base.wrapping_add(i as u64 * segment_stride);
    proof {
        lemma_wrapping_add(base, (i as u64 * segment_stride) as u64);
        assert forall|f: nat| f < nfields implies #[trigger] addr(i as nat, f) as int == (elem_base
            + f * w) % 0x1_0000_0000_0000_0000 by {
            lemma_add_mod_twice(base as int, ((i as nat) * (nfc * w)) as int, (f * w) as int);
        }
    }
    match read_segment_fields(memory, elem_base, eew, nfields, Ghost(addr), Ghost(i as nat)) {
        Ok(field_buf) => {
            proof {
                lemma_load_same_written(
                    s0,
                    state.regs@,
                    memory,
                    addr,
                    vd,
                    g,
                    w,
                    nfc,
                    unit_written(s0, vm, i as nat),
                    seg_written(s0, vm, i as nat, 0),
                );
            }
            write_segment_fields::<M>(
                state,
                vd,
                group_regs,
                i,
                eew,
                &field_buf,
                Ghost(s0),
                Ghost(memory),
                Ghost(addr),
                Ghost(vm),
            );
            proof {
                lemma_load_same_written(
                    s0,
                    state.regs@,
                    memory,
                    addr,
                    vd,
                    g,
                    w,
                    nfc,
                    seg_written(s0, vm, i as nat, nfc),
                    unit_written(s0, vm, (i + 1) as nat),
                );
            }
            Ok(())
        },
        Err((f, mem_err)) => {
            Err(mem_err)
        },
    }
}

/// Outcome of a unit-stride (segment) load, fault-only-first when `fault_only_first`: field `f`
/// of element `i` comes from `base + i * nf * w + f * w` (wrapping); every field of an element is
/// read before any is written. At the first active element `j` one of whose fields fails to
/// read, elements before `j` are loaded and `j` and later ones are not; with fault-only-first and
/// `j > 0`, `vl` becomes `j` and the load succeeds; otherwise the read's error is returned, and
/// when `j > vstart` the state is marked dirty and `vstart` becomes `j`. A load without a failure
/// marks the state dirty and resets `vstart`.
pub open spec fn unit_load_done<M: VirtualMemory>(
    old: VectorState,
    new: VectorState,
    r: Result<(), ExecutionError>,
    memory: &M,
    base: u64,
    vd: VReg,
    g: nat,
    w: nat,
    nf: nat,
    vm: bool,
    fault_only_first: bool,
) -> bool {
    let addr = unit_stride_addr(base, nf, w);
    let bad = first_bad_elem(old, vm, memory, addr, w, nf, old.vl as nat);
    let stop = match bad {
        Some(j) => j,
        None => old.vl as nat,
    };
    &&& load_frame_ok(old, new, memory, addr, vd, g, w, nf, unit_written(old, vm, stop))
    &&& match bad {
        None => {
            &&& r == Ok::<(), ExecutionError>(())
            &&& new.vl == old.vl
            &&& new.vstart == 0
            &&& new.vs_dirty
        },
        Some(j) => if fault_only_first && j > 0 {
            &&& r == Ok::<(), ExecutionError>(())
            &&& new.vl == j
            &&& new.vstart == 0
            &&& new.vs_dirty
        } else {
            &&& first_bad_field(memory, addr, w, j, nf) matches Some(f) && r == Err::<
                (),
                ExecutionError,
            >(ExecutionError::MemoryAccess(field_error(memory, addr, w, j, f)))
            &&& new.vl == old.vl
            &&& if j > old.vstart {
                new.vs_dirty && new.vstart == j
            } else {
                new.vs_dirty == old.vs_dirty && new.vstart == old.vstart
            }
        },
    }
}

/// Execute a unit-stride (segment) load, fault-only-first when `FAULT_ONLY_FIRST`.
///
/// Field `f` of element `i` is read from `base + i * nf * w + f * w` (wrapping) and written to
/// element `i` of the group based at `vd + f * group_regs`, for every active element `i` (in
/// `vstart..vl`, enabled by the mask); the outcome is as `unit_load_done` describes.
#[verifier::rlimit(100)]
#[verifier::spinoff_prover]
pub fn execute_unit_stride_load<const FAULT_ONLY_FIRST: bool, M: VirtualMemory>(
    state: &mut VectorState,
    memory: &M,
    vd: VReg,
    vm: bool,
    base: u64,
    eew: Eew,
    group_regs: u8,
    nf: Nf,
) -> (r: Result<(), ExecutionError>)
    requires
        old(state).wf(),
        group_regs >= 1,
        vd.index() + nf.count() * group_regs <= 32,
        old(state).vl * eew.bytes() <= group_regs * old(state).vlenb(),
    ensures
        final(state).wf(),
        unit_load_done(
            *old(state),
            *final(state),
            r,
            memory,
            base,
            vd,
            group_regs as nat,
            eew.bytes(),
            nf.count(),
            vm,
            FAULT_ONLY_FIRST,
        ),
{
    let ghost s0 = *state;
    let ghost l = s0.vlenb();
    let ghost w = eew.bytes();
    let ghost g = group_regs as nat;
    let ghost nfc = nf.count();
    let ghost addr = unit_stride_addr(base, nfc, w);
    let vl = state.vl;
    let vstart = state.vstart;
    let elem_bytes = eew.bytes_width();
    let nfields = nf.fields_per_segment();
    let segment_stride: u64 = nfields as u64 * elem_bytes as u64;
    proof {
        lemma_vl_bound(s0);
        s0.regs.lemma_wf();
    }
    let mask_buf = snapshot_mask(&state.regs, vm, vl);
    let mut i: u32 = if (vstart as u32) < vl {
        vstart as u32
    } else {
        vl
    };
    proof {
        lemma_bad_elem_below_vstart(s0, vm, memory, addr, w, nfc, i as nat);
        assert forall|j: nat, f: nat| !#[trigger] unit_written(s0, vm, i as nat)(j, f) by {}
        lemma_load_nothing_written(
            s0,
            memory,
            addr,
            vd,
            g,
            w,
            nfc,
            unit_written(s0, vm, i as nat),
        );
    }
    while i < vl
        invariant
            s0 == *old(state),
            s0.wf(),
            l == s0.vlenb(),
            s0.regs@.len() == 32 * l,
            w == eew.bytes(),
            g == group_regs,
            g >= 1,
            nfc == nf.count(),
            nfields == nfc,
            elem_bytes == w,
            segment_stride == nfc * w,
            addr == unit_stride_addr(base, nfc, w),
            vd.index() + nfc * g <= 32,
            vl * w <= g * l,
            vl == s0.vl,
            vstart == s0.vstart,
            vl <= 8 * l,
            vl <= 65536,
            mask_buf@ == snapshot_spec(s0.regs@, l, vm, vl as nat),
            state.same_config(s0),
            state.vs_dirty == s0.vs_dirty,
            state.vstart == s0.vstart,
            i <= vl,
            i < vl ==> vstart <= i,
            first_bad_elem(s0, vm, memory, addr, w, nfc, i as nat) is None,
            unchanged_outside(
                s0.regs@,
                state.regs@,
                (vd.index() * l) as int,
                ((vd.index() + nfc * g) * l) as int,
            ),
            load_regs_ok(s0, state.regs@, memory, addr, vd, g, w, nfc, unit_written(s0, vm, i as nat)),
        decreases vl - i,
    {
        proof {
            lemma_snapshot_bit(s0.regs@, l, vm, vl as nat, i as nat);
            lemma_slot_arith(i as nat, vl as nat, w);
        }
        let active = vm || mask_bit(&mask_buf, i as u16);
        assert(active == s0.is_active(vm, i as nat));
        if active {
            match load_unit_element(
                state,
                memory,
                vd,
                base,
                eew,
                group_regs,
                nfields,
                segment_stride,
                i,
                Ghost(s0),
                Ghost(vm),
            ) {
                Ok(()) => {},
                Err(mem_err) => {
                    proof {
                        lemma_bad_elem_stays(
                            s0,
                            vm,
                            memory,
                            addr,
                            w,
                            nfc,
                            (i + 1) as nat,
                            vl as nat,
                        );
                    }
                    if FAULT_ONLY_FIRST && i > 0 {
                        state.vl = i;
                        state.mark_vs_dirty();
                        state.reset_vstart();
                        return Ok(());
                    }
                    if i > vstart as u32 {
                        state.mark_vs_dirty();
                        state.vstart = i as u16;
                    }
                    return Err(ExecutionError::MemoryAccess(mem_err));
                },
            }
        } else {
            proof {
                lemma_load_same_written(
                    s0,
                    state.regs@,
                    memory,
                    addr,
                    vd,
                    g,
                    w,
                    nfc,
                    unit_written(s0, vm, i as nat),
                    unit_written(s0, vm, (i + 1) as nat),
                );
            }
        }
        i = i + 1;
    }
    state.mark_vs_dirty();
    state.reset_vstart();
    Ok(())
}


/// First byte of element `i` of field `f` of a segment destination.
pub open spec fn slot_start(vd: VReg, f: nat, g: nat, l: nat, i: nat, w: nat) -> int {
    (field_base(vd, f, g) * l + i * w) as int
}

/// The first failing field of element `j`, or `nf` when none fails.
pub open spec fn bad_field<M: VirtualMemory>(
    mem: &M,
    addr: spec_fn(nat, nat) -> u64,
    w: nat,
    j: nat,
    nf: nat,
) -> nat {
    match first_bad_field(mem, addr, w, j, nf) {
        Some(f) => f,
        None => nf,
    }
}

/// Outcome of a load that reads and writes the fields of each active element one at a time
/// (strided and indexed loads): everything up to the first failing (element, field) pair is
/// loaded; a failure returns its error and, when anything of the instruction was committed
/// (a field of that element, or an earlier element past `vstart`), marks the state dirty and
/// sets `vstart` to the failing element; without a failure the state is marked dirty and
/// `vstart` reset.
pub open spec fn streamed_load_done<M: VirtualMemory>(
    old: VectorState,
    new: VectorState,
    r: Result<(), ExecutionError>,
    mem: &M,
    addr: spec_fn(nat, nat) -> u64,
    vd: VReg,
    g: nat,
    w: nat,
    nf: nat,
    vm: bool,
) -> bool {
    match first_bad_elem(old, vm, mem, addr, w, nf, old.vl as nat) {
        None => {
            &&& load_frame_ok(old, new, mem, addr, vd, g, w, nf, seg_written(old, vm, old.vl as nat, 0))
            &&& r == Ok::<(), ExecutionError>(())
            &&& new.vl == old.vl
            &&& new.vstart == 0
            &&& new.vs_dirty
        },
        Some(j) => {
            let f = bad_field(mem, addr, w, j, nf);
            &&& load_frame_ok(old, new, mem, addr, vd, g, w, nf, seg_written(old, vm, j, f))
            &&& r == Err::<(), ExecutionError>(
                ExecutionError::MemoryAccess(field_error(mem, addr, w, j, f)),
            )
            &&& new.vl == old.vl
            &&& if f > 0 || j > old.vstart {
                new.vs_dirty && new.vstart == j
            } else {
                new.vs_dirty == old.vs_dirty && new.vstart == old.vstart
            }
        },
    }
}

/// Read and write the `nf` fields of active element `i` one at a time (field `f` from
/// `elem_base + f * w`, wrapping), stopping at the first failing field, whose index and error
/// are returned. Bytes in `[lo, hi)`, which no field slot of element `i` touches, are kept.
fn load_fields_streaming<M: VirtualMemory>(
    state: &mut VectorState,
    memory: &M,
    vd: VReg,
    group_regs: u8,
    i: u32,
    eew: Eew,
    nfields: u8,
    elem_base: u64,
    Ghost(s0): Ghost<VectorState>,
    Ghost(addr): Ghost<spec_fn(nat, nat) -> u64>,
    Ghost(vm): Ghost<bool>,
    Ghost(lo): Ghost<int>,
    Ghost(hi): Ghost<int>,
) -> (r: Result<(), (u8, VirtualMemoryError)>)
    requires
        s0.wf(),
        old(state).same_config(s0),
        group_regs >= 1,
        1 <= nfields <= 8,
        vd.index() + nfields * group_regs <= 32,
        (i + 1) * eew.bytes() <= group_regs * s0.vlenb(),
        i < 65536,
        s0.is_active(vm, i as nat),
        0 <= lo,
        hi <= 32 * s0.vlenb(),
        forall|f: nat|
            f < nfields ==> #[trigger] addr(i as nat, f) as int == (elem_base + f * eew.bytes())
                % 0x1_0000_0000_0000_0000,
        forall|f: nat|
            f < nfields ==> #[trigger] slot_start(
                vd,
                f,
                group_regs as nat,
                s0.vlenb(),
                i as nat,
                eew.bytes(),
            ) + eew.bytes() <= lo || hi <= slot_start(
                vd,
                f,
                group_regs as nat,
                s0.vlenb(),
                i as nat,
                eew.bytes(),
            ),
        unchanged_outside(
            s0.regs@,
            old(state).regs@,
            (vd.index() * s0.vlenb()) as int,
            ((vd.index() + nfields * group_regs) * s0.vlenb()) as int,
        ),
        load_regs_ok(
            s0,
            old(state).regs@,
            memory,
            addr,
            vd,
            group_regs as nat,
            eew.bytes(),
            nfields as nat,
            seg_written(s0, vm, i as nat, 0),
        ),
    ensures
        final(state).same_config(s0),
        final(state).vs_dirty == old(state).vs_dirty,
        final(state).vstart == old(state).vstart,
        unchanged_outside(
            s0.regs@,
            final(state).regs@,
            (vd.index() * s0.vlenb()) as int,
            ((vd.index() + nfields * group_regs) * s0.vlenb()) as int,
        ),
        forall|k: int| lo <= k < hi ==> #[trigger] final(state).regs@[k] == old(state).regs@[k],
        match r {
            Ok(()) => {
                &&& first_bad_field(memory, addr, eew.bytes(), i as nat, nfields as nat) is None
                &&& load_regs_ok(
                    s0,
                    final(state).regs@,
                    memory,
                    addr,
                    vd,
                    group_regs as nat,
                    eew.bytes(),
                    nfields as nat,
                    seg_written(s0, vm, i as nat, nfields as nat),
                )
            },
            Err((f, e)) => {
                &&& f < nfields
                &&& first_bad_field(memory, addr, eew.bytes(), i as nat, nfields as nat) == Some(
                    f as nat,
                )
                &&& e == field_error(memory, addr, eew.bytes(), i as nat, f as nat)
                &&& load_regs_ok(
                    s0,
                    final(state).regs@,
                    memory,
                    addr,
                    vd,
                    group_regs as nat,
                    eew.bytes(),
                    nfields as nat,
                    seg_written(s0, vm, i as nat, f as nat),
                )
            },
        },
{
    let ghost l = s0.vlenb();
    let ghost w = eew.bytes();
    let ghost g = group_regs as nat;
    let ghost nfc = nfields as nat;
    let ghost start = state.regs@;
    let elem_bytes = eew.bytes_width();
    let mut f: u8 = 0;
    while f < nfields
        invariant
            s0.wf(),
            l == s0.vlenb(),
            w == eew.bytes(),
            elem_bytes == w,
            w <= 8,
            g == group_regs,
            g >= 1,
            nfc == nfields,
            1 <= nfc <= 8,
            vd.index() + nfc * g <= 32,
            (i + 1) * w <= g * l,
            i < 65536,
            f <= nfields,
            0 <= lo,
            hi <= 32 * l,
            start == old(state).regs@,
            state.same_config(s0),
            state.vs_dirty == old(state).vs_dirty,
            state.vstart == old(state).vstart,
            s0.is_active(vm, i as nat),
            forall|f2: nat|
                f2 < nfields ==> #[trigger] addr(i as nat, f2) as int == (elem_base + f2 * w)
                    % 0x1_0000_0000_0000_0000,
            forall|f2: nat|
                f2 < nfields ==> #[trigger] slot_start(vd, f2, g, l, i as nat, w) + w <= lo || hi
                    <= slot_start(vd, f2, g, l, i as nat, w),
            first_bad_field(memory, addr, w, i as nat, f as nat) is None,
            unchanged_outside(
                s0.regs@,
                state.regs@,
                (vd.index() * l) as int,
                ((vd.index() + nfc * g) * l) as int,
            ),
            forall|k: int| lo <= k < hi ==> #[trigger] state.regs@[k] == start[k],
            load_regs_ok(
                s0,
                state.regs@,
                memory,
                addr,
                vd,
                g,
                w,
                nfc,
                seg_written(s0, vm, i as nat, f as nat),
            ),
        decreases nfields - f,
    {
        assert(f * elem_bytes <= 64) by (nonlinear_arith)
            requires
                f <= 8,
                elem_bytes <= 8,
        ;
        let a = elem_base.wrapping_add((f * elem_bytes) as u64);
        proof {
            lemma_wrapping_add(elem_base, (f * elem_bytes) as u64);
            assert(a == addr(i as nat, f as nat));
        }
        match read_mem_element(memory, a, eew) {
            Ok(data) => {
                proof {
                    let bytes = memory.read_spec(a, w as u32);
                    lemma_le_value_bound(bytes->Ok_0@, 0, w);
                    lemma_field_fits(vd.index(), g, l, w, f as nat, nfc, i as nat);
                }
                let field_reg = VReg::from_bits(vd.to_bits() + f * group_regs).unwrap();
                let ghost cur = state.regs@;
                write_group_element(&mut state.regs, field_reg, i as u16, eew, data);
                proof {
                    lemma_load_write_step(
                        s0,
                        cur,
                        memory,
                        addr,
                        vd,
                        g,
                        w,
                        nfc,
                        seg_written(s0, vm, i as nat, f as nat),
                        seg_written(s0, vm, i as nat, (f + 1) as nat),
                        i as nat,
                        f as nat,
                        data as nat,
                    );
                    let off = slot_start(vd, f as nat, g, l, i as nat, w);
                    assert(off + w <= lo || hi <= off);
                    s0.regs.lemma_wf();
                    assert(field_reg.index() == vd.index() + f * g);
                    assert(cur.len() == 32 * l);
                    assert forall|k: int| lo <= k < hi implies #[trigger] state.regs@[k]
                        == start[k] by {
                        assert(state.regs@[k] == cur[k]);
                    }
                }
            },
            Err(mem_err) => {
                proof {
                    assert(first_bad_field(memory, addr, w, i as nat, (f + 1) as nat) == Some(
                        f as nat,
                    ));
                    lemma_bad_field_stays(memory, addr, w, i as nat, (f + 1) as nat, nfc);
                }
                return Err((f, mem_err));
            },
        }
        f = f + 1;
    }
    Ok(())
}

/// Address of field `f` of element `i` of a strided (segment) load:
/// `base + i * stride + f * w`, wrapping.
pub open spec fn strided_addr(base: u64, stride: i64, w: nat) -> spec_fn(nat, nat) -> u64 {
    |i: nat, f: nat| ((base + i * stride + f * w) % 0x1_0000_0000_0000_0000) as u64
}

/// Adding the 64-bit image of `i * stride` and then `f * w` modulo `2^64` is adding
/// `i * stride + f * w` modulo `2^64`.
pub proof fn lemma_strided_offset(base: int, i: int, stride: int, stride_u: int, c: int)
    requires
        stride_u == stride || stride_u == stride + 0x1_0000_0000_0000_0000,
    ensures
        ((base + (i * stride_u) % 0x1_0000_0000_0000_0000) % 0x1_0000_0000_0000_0000 + c)
            % 0x1_0000_0000_0000_0000 == (base + i * stride + c) % 0x1_0000_0000_0000_0000,
{
    let m: int = 0x1_0000_0000_0000_0000;
    let b = i * stride_u;
    lemma_add_mod_twice(base, b % m, c);
    vstd::arithmetic::div_mod::lemma_add_mod_noop(base + c, b, m);
    vstd::arithmetic::div_mod::lemma_add_mod_noop(base + c, b % m, m);
    vstd::arithmetic::div_mod::lemma_mod_twice(b, m);
    assert(base + b % m + c == (base + c) + b % m);
    assert((base + b % m + c) % m == (base + c + b) % m);
    if stride_u != stride {
        assert(b == i * stride + m * i) by (nonlinear_arith)
            requires
                b == i * stride_u,
                stride_u == stride + m,
        ;
        vstd::arithmetic::div_mod::lemma_mod_multiples_vanish(i, base + c + i * stride, m);
        assert(base + c + b == m * i + (base + c + i * stride));
    }
    assert(base + c + i * stride == base + i * stride + c);
}

/// Load the fields of active element `i` of a strided load, field by field, from
/// `base + i * stride + f * w`; report the first failing field and its error.
fn load_strided_element<M: VirtualMemory>(
    state: &mut VectorState,
    memory: &M,
    vd: VReg,
    base: u64,
    stride: i64,
    stride_u: u64,
    eew: Eew,
    group_regs: u8,
    nfields: u8,
    i: u32,
    Ghost(s0): Ghost<VectorState>,
    Ghost(vm): Ghost<bool>,
) -> (r: Result<(), (u8, VirtualMemoryError)>)
    requires
        s0.wf(),
        old(state).same_config(s0),
        group_regs >= 1,
        1 <= nfields <= 8,
        vd.index() + nfields * group_regs <= 32,
        (i + 1) * eew.bytes() <= group_regs * s0.vlenb(),
        i < 65536,
        stride_u == stride || stride_u == stride + 0x1_0000_0000_0000_0000,
        s0.is_active(vm, i as nat),
        first_bad_elem(
            s0,
            vm,
            memory,
            strided_addr(base, stride, eew.bytes()),
            eew.bytes(),
            nfields as nat,
            i as nat,
        ) is None,
        unchanged_outside(
            s0.regs@,
            old(state).regs@,
            (vd.index() * s0.vlenb()) as int,
            ((vd.index() + nfields * group_regs) * s0.vlenb()) as int,
        ),
        load_regs_ok(
            s0,
            old(state).regs@,
            memory,
            strided_addr(base, stride, eew.bytes()),
            vd,
            group_regs as nat,
            eew.bytes(),
            nfields as nat,
            seg_written(s0, vm, i as nat, 0),
        ),
    ensures
        ({
            let l = s0.vlenb();
            let w = eew.bytes();
            let g = group_regs as nat;
            let nfc = nfields as nat;
            let addr = strided_addr(base, stride, w);
            &&& final(state).same_config(s0)
            &&& final(state).vs_dirty == old(state).vs_dirty
            &&& final(state).vstart == old(state).vstart
            &&& unchanged_outside(
                s0.regs@,
                final(state).regs@,
                (vd.index() * l) as int,
                ((vd.index() + nfc * g) * l) as int,
            )
            &&& match r {
                Ok(()) => {
                    &&& first_bad_elem(s0, vm, memory, addr, w, nfc, (i + 1) as nat) is None
                    &&& load_regs_ok(
                        s0,
                        final(state).regs@,
                        memory,
                        addr,
                        vd,
                        g,
                        w,
                        nfc,
                        seg_written(s0, vm, (i + 1) as nat, 0),
                    )
                },
                Err((f, e)) => {
                    &&& first_bad_elem(s0, vm, memory, addr, w, nfc, (i + 1) as nat) == Some(
                        i as nat,
                    )
                    &&& bad_field(memory, addr, w, i as nat, nfc) == f
                    &&& e == field_error(memory, addr, w, i as nat, f as nat)
                    &&& load_regs_ok(
                        s0,
                        final(state).regs@,
                        memory,
                        addr,
                        vd,
                        g,
                        w,
                        nfc,
                        seg_written(s0, vm, i as nat, f as nat),
                    )
                },
            }
        }),
{
    let ghost l = s0.vlenb();
    let ghost w = eew.bytes();
    let ghost g = group_regs as nat;
    let ghost nfc = nfields as nat;
    let ghost addr = strided_addr(base, stride, w);
    let off = (i as u64).wrapping_mul(stride_u);
    let elem_base = base.wrapping_add(off);
    proof {
        lemma_wrapping_add(base, off);
        assert forall|f: nat| f < nfields implies #[trigger] addr(i as nat, f) as int == (elem_base
            + f * w) % 0x1_0000_0000_0000_0000 by {
            lemma_strided_offset(base as int, i as int, stride as int, stride_u as int, (f * w) as int);
        }
        assert forall|f: nat| f < nfields implies #[trigger] slot_start(vd, f, g, l, i as nat, w) + w
            <= 0 || 0 <= slot_start(vd, f, g, l, i as nat, w) by {}
    }
    let r = load_fields_streaming(
        state,
        memory,
        vd,
        group_regs,
        i,
        eew,
        nfields,
        elem_base,
        Ghost(s0),
        Ghost(addr),
        Ghost(vm),
        Ghost(0int),
        Ghost(0int),
    );
    proof {
        match r {
            Ok(()) => {
                lemma_load_same_written(
                    s0,
                    state.regs@,
                    memory,
                    addr,
                    vd,
                    g,
                    w,
                    nfc,
                    seg_written(s0, vm, i as nat, nfc),
                    seg_written(s0, vm, (i + 1) as nat, 0),
                );
            },
            Err((f, e)) => {
                assert(first_bad_elem(s0, vm, memory, addr, w, nfc, (i + 1) as nat) == Some(
                    i as nat,
                ));
            },
        }
    }
    r
}

/// Execute a strided (segment) load.
///
/// Field `f` of element `i` is read from `base + i * stride + f * w` (wrapping) and written to
/// element `i` of the group based at `vd + f * group_regs`, for every active element `i` (in
/// `vstart..vl`, enabled by the mask), field by field; the outcome is as
/// `streamed_load_done` describes.
#[verifier::rlimit(100)]
#[verifier::spinoff_prover]
pub fn execute_strided_load<M: VirtualMemory>(
    state: &mut VectorState,
    memory: &M,
    vd: VReg,
    vm: bool,
    base: u64,
    stride: i64,
    eew: Eew,
    group_regs: u8,
    nf: Nf,
) -> (r: Result<(), ExecutionError>)
    requires
        old(state).wf(),
        group_regs >= 1,
        vd.index() + nf.count() * group_regs <= 32,
        old(state).vl * eew.bytes() <= group_regs * old(state).vlenb(),
    ensures
        final(state).wf(),
        streamed_load_done(
            *old(state),
            *final(state),
            r,
            memory,
            strided_addr(base, stride, eew.bytes()),
            vd,
            group_regs as nat,
            eew.bytes(),
            nf.count(),
            vm,
        ),
{
    let ghost s0 = *state;
    let ghost l = s0.vlenb();
    let ghost w = eew.bytes();
    let ghost g = group_regs as nat;
    let ghost nfc = nf.count();
    let ghost addr = strided_addr(base, stride, w);
    let vl = state.vl;
    let vstart = state.vstart;
    let nfields = nf.fields_per_segment();
    let stride_u: u64 = if stride >= 0 {
        stride as u64
    } else {
        u64::MAX - ((-(stride + 1)) as u64)
    };
    proof {
        lemma_vl_bound(s0);
        s0.regs.lemma_wf();
    }
    let mask_buf = snapshot_mask(&state.regs, vm, vl);
    let mut i: u32 = if (vstart as u32) < vl {
        vstart as u32
    } else {
        vl
    };
    proof {
        lemma_bad_elem_below_vstart(s0, vm, memory, addr, w, nfc, i as nat);
        assert forall|j: nat, f: nat| !#[trigger] seg_written(s0, vm, i as nat, 0)(j, f) by {}
        lemma_load_nothing_written(s0, memory, addr, vd, g, w, nfc, seg_written(s0, vm, i as nat, 0));
    }
    while i < vl
        invariant
            s0 == *old(state),
            s0.wf(),
            l == s0.vlenb(),
            s0.regs@.len() == 32 * l,
            w == eew.bytes(),
            g == group_regs,
            g >= 1,
            nfc == nf.count(),
            nfields == nfc,
            stride_u == stride || stride_u == stride + 0x1_0000_0000_0000_0000,
            addr == strided_addr(base, stride, w),
            vd.index() + nfc * g <= 32,
            vl * w <= g * l,
            vl == s0.vl,
            vstart == s0.vstart,
            vl <= 8 * l,
            vl <= 65536,
            mask_buf@ == snapshot_spec(s0.regs@, l, vm, vl as nat),
            state.same_config(s0),
            state.vs_dirty == s0.vs_dirty,
            state.vstart == s0.vstart,
            i <= vl,
            i < vl ==> vstart <= i,
            first_bad_elem(s0, vm, memory, addr, w, nfc, i as nat) is None,
            unchanged_outside(
                s0.regs@,
                state.regs@,
                (vd.index() * l) as int,
                ((vd.index() + nfc * g) * l) as int,
            ),
            load_regs_ok(s0, state.regs@, memory, addr, vd, g, w, nfc, seg_written(s0, vm, i as nat, 0)),
        decreases vl - i,
    {
        proof {
            lemma_snapshot_bit(s0.regs@, l, vm, vl as nat, i as nat);
            lemma_slot_arith(i as nat, vl as nat, w);
        }
        let active = vm || mask_bit(&mask_buf, i as u16);
        assert(active == s0.is_active(vm, i as nat));
        if active {
            match load_strided_element(
                state,
                memory,
                vd,
                base,
                stride,
                stride_u,
                eew,
                group_regs,
                nfields,
                i,
                Ghost(s0),
                Ghost(vm),
            ) {
                Ok(()) => {},
                Err((f, mem_err)) => {
                    proof {
                        lemma_bad_elem_stays(
                            s0,
                            vm,
                            memory,
                            addr,
                            w,
                            nfc,
                            (i + 1) as nat,
                            vl as nat,
                        );
                    }
                    if f > 0 || i > vstart as u32 {
                        state.mark_vs_dirty();
                        state.vstart = i as u16;
                    }
                    return Err(ExecutionError::MemoryAccess(mem_err));
                },
            }
        } else {
            proof {
                lemma_load_same_written(
                    s0,
                    state.regs@,
                    memory,
                    addr,
                    vd,
                    g,
                    w,
                    nfc,
                    seg_written(s0, vm, i as nat, 0),
                    seg_written(s0, vm, (i + 1) as nat, 0),
                );
            }
        }
        i = i + 1;
    }
    state.mark_vs_dirty();
    state.reset_vstart();
    Ok(())
}

/// Address of field `f` of element `i` of an indexed (segment) load: `base` plus element `i`
/// (of `iw` bytes, zero-extended) of the index group based at `vs2` in `regs`, plus `f * w`,
/// wrapping.
pub open spec fn indexed_addr(
    regs: Seq<u8>,
    l: nat,
    vs2: VReg,
    iw: nat,
    base: u64,
    w: nat,
) -> spec_fn(nat, nat) -> u64 {
    |i: nat, f: nat|
        ((base + element(regs, l, vs2.index(), i, iw) + f * w) % 0x1_0000_0000_0000_0000) as u64
}

/// No field slot of element `j < n` of the data destination touches the index slots of the
/// later elements `j + 1 .. n` of the index group: every index is still as it was when it is
/// read. Destinations that do not overlap the index group, and the overlaps the vector register
/// overlap rules allow, meet it.
pub open spec fn index_slots_read_first(
    vd: VReg,
    g: nat,
    w: nat,
    nf: nat,
    vs2: VReg,
    iw: nat,
    n: nat,
    l: nat,
) -> bool {
    forall|j: nat, f: nat|
        j < n && f < nf ==> #[trigger] slot_start(vd, f, g, l, j, w) + w <= vs2.index() * l + (j
            + 1) * iw || vs2.index() * l + n * iw <= slot_start(vd, f, g, l, j, w)
}

/// Load the fields of active element `i` of an indexed load, field by field, from
/// `base + offset + f * w` where the offset is element `i` of the index group; report the first
/// failing field and its error.
fn load_indexed_element<M: VirtualMemory>(
    state: &mut VectorState,
    memory: &M,
    vd: VReg,
    vs2: VReg,
    base: u64,
    data_eew: Eew,
    index_eew: Eew,
    data_group_regs: u8,
    nfields: u8,
    i: u32,
    Ghost(s0): Ghost<VectorState>,
    Ghost(vm): Ghost<bool>,
) -> (r: Result<(), (u8, VirtualMemoryError)>)
    requires
        s0.wf(),
        old(state).same_config(s0),
        data_group_regs >= 1,
        1 <= nfields <= 8,
        vd.index() + nfields * data_group_regs <= 32,
        s0.vl * data_eew.bytes() <= data_group_regs * s0.vlenb(),
        vs2.index() * s0.vlenb() + s0.vl * index_eew.bytes() <= 32 * s0.vlenb(),
        index_slots_read_first(
            vd,
            data_group_regs as nat,
            data_eew.bytes(),
            nfields as nat,
            vs2,
            index_eew.bytes(),
            s0.vl as nat,
            s0.vlenb(),
        ),
        i < s0.vl,
        i < 65536,
        s0.is_active(vm, i as nat),
        first_bad_elem(
            s0,
            vm,
            memory,
            indexed_addr(s0.regs@, s0.vlenb(), vs2, index_eew.bytes(), base, data_eew.bytes()),
            data_eew.bytes(),
            nfields as nat,
            i as nat,
        ) is None,
        unchanged_outside(
            s0.regs@,
            old(state).regs@,
            (vd.index() * s0.vlenb()) as int,
            ((vd.index() + nfields * data_group_regs) * s0.vlenb()) as int,
        ),
        forall|k: int|
            vs2.index() * s0.vlenb() + i * index_eew.bytes() <= k < vs2.index() * s0.vlenb() + s0.vl
                * index_eew.bytes() ==> #[trigger] old(state).regs@[k] == s0.regs@[k],
        load_regs_ok(
            s0,
            old(state).regs@,
            memory,
            indexed_addr(s0.regs@, s0.vlenb(), vs2, index_eew.bytes(), base, data_eew.bytes()),
            vd,
            data_group_regs as nat,
            data_eew.bytes(),
            nfields as nat,
            seg_written(s0, vm, i as nat, 0),
        ),
    ensures
        ({
            let l = s0.vlenb();
            let w = data_eew.bytes();
            let iw = index_eew.bytes();
            let g = data_group_regs as nat;
            let nfc = nfields as nat;
            let addr = indexed_addr(s0.regs@, l, vs2, iw, base, w);
            &&& final(state).same_config(s0)
            &&& final(state).vs_dirty == old(state).vs_dirty
            &&& final(state).vstart == old(state).vstart
            &&& unchanged_outside(
                s0.regs@,
                final(state).regs@,
                (vd.index() * l) as int,
                ((vd.index() + nfc * g) * l) as int,
            )
            &&& match r {
                Ok(()) => {
                    &&& first_bad_elem(s0, vm, memory, addr, w, nfc, (i + 1) as nat) is None
                    &&& forall|k: int|
                        vs2.index() * l + (i + 1) * iw <= k < vs2.index() * l + s0.vl * iw
                            ==> #[trigger] final(state).regs@[k] == s0.regs@[k]
                    &&& load_regs_ok(
                        s0,
                        final(state).regs@,
                        memory,
                        addr,
                        vd,
                        g,
                        w,
                        nfc,
                        seg_written(s0, vm, (i + 1) as nat, 0),
                    )
                },
                Err((f, e)) => {
                    &&& first_bad_elem(s0, vm, memory, addr, w, nfc, (i + 1) as nat) == Some(
                        i as nat,
                    )
                    &&& bad_field(memory, addr, w, i as nat, nfc) == f
                    &&& e == field_error(memory, addr, w, i as nat, f as nat)
                    &&& load_regs_ok(
                        s0,
                        final(state).regs@,
                        memory,
                        addr,
                        vd,
                        g,
                        w,
                        nfc,
                        seg_written(s0, vm, i as nat, f as nat),
                    )
                },
            }
        }),
{
    let ghost l = s0.vlenb();
    let ghost w = data_eew.bytes();
    let ghost iw = index_eew.bytes();
    let ghost g = data_group_regs as nat;
    let ghost nfc = nfields as nat;
    let ghost addr = indexed_addr(s0.regs@, l, vs2, iw, base, w);
    let ghost ilo: int = (vs2.index() * l) as int;
    let ghost vl = s0.vl;
    proof {
        s0.regs.lemma_wf();
        lemma_slot_arith(i as nat, vl as nat, w);
        lemma_slot_arith(i as nat, vl as nat, iw);
        lemma_slot_arith((i + 1) as nat, vl as nat, iw);
    }
    let offset = read_group_element(&state.regs, vs2, i as u16, index_eew);
    let elem_addr = base.wrapping_add(offset);
    proof {
        lemma_le_value_frame(state.regs@, s0.regs@, ilo + i * iw, iw);
        assert(offset == element(s0.regs@, l, vs2.index(), i as nat, iw));
        lemma_wrapping_add(base, offset);
        assert forall|f: nat| f < nfields implies #[trigger] addr(i as nat, f) as int == (elem_addr
            + f * w) % 0x1_0000_0000_0000_0000 by {
            lemma_add_mod_twice(base as int, offset as int, (f * w) as int);
        }
        assert forall|f: nat| f < nfields implies #[trigger] slot_start(vd, f, g, l, i as nat, w)
            + w <= ilo + (i + 1) * iw || ilo + vl * iw <= slot_start(vd, f, g, l, i as nat, w) by {}
    }
    let ghost before = state.regs@;
    let r = load_fields_streaming(
        state,
        memory,
        vd,
        data_group_regs,
        i,
        data_eew,
        nfields,
        elem_addr,
        Ghost(s0),
        Ghost(addr),
        Ghost(vm),
        Ghost(ilo + (i + 1) * iw),
        Ghost(ilo + vl * iw),
    );
    proof {
        match r {
            Ok(()) => {
                lemma_load_same_written(
                    s0,
                    state.regs@,
                    memory,
                    addr,
                    vd,
                    g,
                    w,
                    nfc,
                    seg_written(s0, vm, i as nat, nfc),
                    seg_written(s0, vm, (i + 1) as nat, 0),
                );
                assert forall|k: int|
                    ilo + (i + 1) * iw <= k < ilo + vl * iw implies #[trigger] state.regs@[k]
                    == s0.regs@[k] by {
                    assert(state.regs@[k] == before[k]);
                }
            },
            Err((f, e)) => {
                assert(first_bad_elem(s0, vm, memory, addr, w, nfc, (i + 1) as nat) == Some(
                    i as nat,
                ));
            },
        }
    }
    r
}

/// Execute an indexed (unordered or ordered, segment) load.
///
/// For every active element `i` (in `vstart..vl`, enabled by the mask) the zero-extended
/// element `i` of width `index_eew` of the group based at `vs2` is an offset; field `f` is read
/// from `base + offset + f * w` (wrapping) and written to element `i` of the group based at
/// `vd + f * data_group_regs`, field by field; the outcome is as `streamed_load_done` describes.
#[verifier::rlimit(100)]
#[verifier::spinoff_prover]
pub fn execute_indexed_load<M: VirtualMemory>(
    state: &mut VectorState,
    memory: &M,
    vd: VReg,
    vs2: VReg,
    vm: bool,
    base: u64,
    data_eew: Eew,
    index_eew: Eew,
    data_group_regs: u8,
    nf: Nf,
) -> (r: Result<(), ExecutionError>)
    requires
        old(state).wf(),
        data_group_regs >= 1,
        vd.index() + nf.count() * data_group_regs <= 32,
        old(state).vl * data_eew.bytes() <= data_group_regs * old(state).vlenb(),
        old(state).group_fits(vs2, index_eew.bytes()),
        index_slots_read_first(
            vd,
            data_group_regs as nat,
            data_eew.bytes(),
            nf.count(),
            vs2,
            index_eew.bytes(),
            old(state).vl as nat,
            old(state).vlenb(),
        ),
    ensures
        final(state).wf(),
        streamed_load_done(
            *old(state),
            *final(state),
            r,
            memory,
            indexed_addr(
                old(state).regs@,
                old(state).vlenb(),
                vs2,
                index_eew.bytes(),
                base,
                data_eew.bytes(),
            ),
            vd,
            data_group_regs as nat,
            data_eew.bytes(),
            nf.count(),
            vm,
        ),
{
    let ghost s0 = *state;
    let ghost l = s0.vlenb();
    let ghost w = data_eew.bytes();
    let ghost iw = index_eew.bytes();
    let ghost g = data_group_regs as nat;
    let ghost nfc = nf.count();
    let ghost addr = indexed_addr(s0.regs@, l, vs2, iw, base, w);
    let ghost ilo: int = (vs2.index() * l) as int;
    let vl = state.vl;
    let vstart = state.vstart;
    let nfields = nf.fields_per_segment();
    proof {
        lemma_vl_bound(s0);
        s0.regs.lemma_wf();
    }
    let mask_buf = snapshot_mask(&state.regs, vm, vl);
    let mut i: u32 = if (vstart as u32) < vl {
        vstart as u32
    } else {
        vl
    };
    proof {
        lemma_bad_elem_below_vstart(s0, vm, memory, addr, w, nfc, i as nat);
        assert forall|j: nat, f: nat| !#[trigger] seg_written(s0, vm, i as nat, 0)(j, f) by {}
        lemma_load_nothing_written(s0, memory, addr, vd, g, w, nfc, seg_written(s0, vm, i as nat, 0));
    }
    while i < vl
        invariant
            s0 == *old(state),
            s0.wf(),
            l == s0.vlenb(),
            s0.regs@.len() == 32 * l,
            w == data_eew.bytes(),
            iw == index_eew.bytes(),
            g == data_group_regs,
            g >= 1,
            nfc == nf.count(),
            nfields == nfc,
            ilo == vs2.index() * l,
            addr == indexed_addr(s0.regs@, l, vs2, iw, base, w),
            vd.index() + nfc * g <= 32,
            vl * w <= g * l,
            ilo + vl * iw <= 32 * l,
            index_slots_read_first(vd, g, w, nfc, vs2, iw, vl as nat, l),
            vl == s0.vl,
            vstart == s0.vstart,
            vl <= 8 * l,
            vl <= 65536,
            mask_buf@ == snapshot_spec(s0.regs@, l, vm, vl as nat),
            state.same_config(s0),
            state.vs_dirty == s0.vs_dirty,
            state.vstart == s0.vstart,
            i <= vl,
            i < vl ==> vstart <= i,
            first_bad_elem(s0, vm, memory, addr, w, nfc, i as nat) is None,
            unchanged_outside(
                s0.regs@,
                state.regs@,
                (vd.index() * l) as int,
                ((vd.index() + nfc * g) * l) as int,
            ),
            forall|k: int|
                ilo + i * iw <= k < ilo + vl * iw ==> #[trigger] state.regs@[k] == s0.regs@[k],
            load_regs_ok(s0, state.regs@, memory, addr, vd, g, w, nfc, seg_written(s0, vm, i as nat, 0)),
        decreases vl - i,
    {
        proof {
            lemma_snapshot_bit(s0.regs@, l, vm, vl as nat, i as nat);
        }
        let active = vm || mask_bit(&mask_buf, i as u16);
        assert(active == s0.is_active(vm, i as nat));
        if active {
            match load_indexed_element(
                state,
                memory,
                vd,
                vs2,
                base,
                data_eew,
                index_eew,
                data_group_regs,
                nfields,
                i,
                Ghost(s0),
                Ghost(vm),
            ) {
                Ok(()) => {},
                Err((f, mem_err)) => {
                    proof {
                        lemma_bad_elem_stays(
                            s0,
                            vm,
                            memory,
                            addr,
                            w,
                            nfc,
                            (i + 1) as nat,
                            vl as nat,
                        );
                    }
                    if f > 0 || i > vstart as u32 {
                        state.mark_vs_dirty();
                        state.vstart = i as u16;
                    }
                    return Err(ExecutionError::MemoryAccess(mem_err));
                },
            }
        } else {
            proof {
                lemma_load_same_written(
                    s0,
                    state.regs@,
                    memory,
                    addr,
                    vd,
                    g,
                    w,
                    nfc,
                    seg_written(s0, vm, i as nat, 0),
                    seg_written(s0, vm, (i + 1) as nat, 0),
                );
                lemma_slot_arith((i + 1) as nat, vl as nat, iw);
            }
        }
        i = i + 1;
    }
    state.mark_vs_dirty();
    state.reset_vstart();
    Ok(())
}

} // verus!
