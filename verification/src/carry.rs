//! Add-with-carry and subtract-with-borrow helpers (`vadc`, `vsbc`, `vmadc`, `vmsbc`).

use vstd::prelude::*;
use vstd::arithmetic::div_mod::lemma_mod_multiples_vanish;
use crate::arith::{
    lemma_element_step, lemma_mask_step, lemma_read_frame, lemma_sew_modulus_values,
    lemma_slot_arith, lemma_value_unchanged, mask_dest_ok, mask_src_ok, read_element_u64,
    sew_mask, sew_modulus, src_ok, src_value, unchanged_outside, write_element_u64,
    write_mask_bit,
};
use crate::bytes::{bit_of, lemma_byte_scale_values};
use crate::load::mask_bit;
use crate::register_file::{element, mask_bit_of, VectorRegisterFile};
use crate::state::{lemma_vl_bound, VectorState};
use crate::types::{lemma_vreg_index_bound, OpSrc, VReg, Vsew};

verus! {

broadcast use lemma_vreg_index_bound;

/// Carry (or borrow) input of element `i`: mask bit `i` of `v0` when `with_carry`, else zero.
pub open spec fn carry_in(s: VectorState, with_carry: bool, i: nat) -> nat {
    if with_carry && mask_bit_of(s.regs@, s.vlenb(), 0, i) {
        1
    } else {
        0
    }
}

/// `vs2[i] + src[i] + carry` for element `i`.
pub open spec fn adc_value(
    s: VectorState,
    vs2: VReg,
    src: OpSrc,
    with_carry: bool,
    sew: Vsew,
    i: nat,
) -> int {
    (element(s.regs@, s.vlenb(), vs2.index(), i, sew.bytes()) + src_value(s, src, i, sew.bytes())
        + carry_in(s, with_carry, i)) as int
}

/// `vs2[i] - src[i] - borrow` for element `i`.
pub open spec fn sbc_value(
    s: VectorState,
    vs2: VReg,
    src: OpSrc,
    with_borrow: bool,
    sew: Vsew,
    i: nat,
) -> int {
    element(s.regs@, s.vlenb(), vs2.index(), i, sew.bytes()) - src_value(s, src, i, sew.bytes())
        - carry_in(s, with_borrow, i)
}

/// Element `i` of `vd` after an unmasked data operation over `vstart..vl`: `value mod 2^SEW` from
/// `vstart` on, the old element before it.
pub open spec fn data_post(
    old: VectorState,
    new: VectorState,
    vd: VReg,
    sew: Vsew,
    i: nat,
    value: int,
) -> bool {
    let d = element(new.regs@, old.vlenb(), vd.index(), i, sew.bytes());
    if old.vstart <= i {
        d == value % (sew_modulus(sew) as int)
    } else {
        d == element(old.regs@, old.vlenb(), vd.index(), i, sew.bytes())
    }
}

/// Mask bit `i` of `vd` after an unmasked mask-producing operation over `vstart..vl`.
pub open spec fn bit_post(old: VectorState, new: VectorState, vd: VReg, i: nat, value: bool) -> bool {
    let d = mask_bit_of(new.regs@, old.vlenb(), vd.index(), i);
    if old.vstart <= i {
        d == value
    } else {
        d == mask_bit_of(old.regs@, old.vlenb(), vd.index(), i)
    }
}

/// Carry-out of `vs2[i] + src[i] + carry` at SEW bits.
pub open spec fn madc_bit(
    s: VectorState,
    vs2: VReg,
    src: OpSrc,
    with_carry: bool,
    sew: Vsew,
    i: nat,
) -> bool {
    element(s.regs@, s.vlenb(), vs2.index(), i, sew.bytes()) % sew_modulus(sew) + src_value(
        s,
        src,
        i,
        sew.bytes(),
    ) % sew_modulus(sew) + carry_in(s, with_carry, i) >= sew_modulus(sew)
}

/// Borrow-out of `vs2[i] - src[i] - borrow` at SEW bits: `vs2[i] < src[i] + borrow`.
pub open spec fn msbc_bit(
    s: VectorState,
    vs2: VReg,
    src: OpSrc,
    with_borrow: bool,
    sew: Vsew,
    i: nat,
) -> bool {
    element(s.regs@, s.vlenb(), vs2.index(), i, sew.bytes()) % sew_modulus(sew) < src_value(
        s,
        src,
        i,
        sew.bytes(),
    ) % sew_modulus(sew) + carry_in(s, with_borrow, i)
}

/// `x & (2^SEW - 1)` is `x mod 2^SEW`.
pub proof fn lemma_and_mask(x: u64, mask: u64, sew: Vsew)
    requires
        mask == sew_modulus(sew) - 1,
    ensures
        (x & mask) as nat == x as nat % sew_modulus(sew),
{
    lemma_sew_modulus_values(sew);
    match sew {
        Vsew::E8 => {
            assert(x & 0xff == x % 0x100) by (bit_vector);
        },
        Vsew::E16 => {
            assert(x & 0xffff == x % 0x1_0000) by (bit_vector);
        },
        Vsew::E32 => {
            assert(x & 0xffff_ffff == x % 0x1_0000_0000) by (bit_vector);
        },
        Vsew::E64 => {
            assert(x & 0xffff_ffff_ffff_ffff == x) by (bit_vector);
        },
    }
}

/// Bit `SEW` of a sum below `2^(SEW+1)` tells whether the sum reaches `2^SEW`.
pub proof fn lemma_carry_out_bit(sum: u128, sew: Vsew)
    requires
        sum < 2 * sew_modulus(sew),
    ensures
        ((sum >> sew.bits()) & 1 != 0) == (sum >= sew_modulus(sew)),
{
    lemma_sew_modulus_values(sew);
    match sew {
        Vsew::E8 => {
            assert(sum < 0x200 ==> (((sum >> 8u128) & 1 != 0) == (sum >= 0x100))) by (bit_vector);
        },
        Vsew::E16 => {
            assert(sum < 0x2_0000 ==> (((sum >> 16u128) & 1 != 0) == (sum >= 0x1_0000)))
                by (bit_vector);
        },
        Vsew::E32 => {
            assert(sum < 0x2_0000_0000 ==> (((sum >> 32u128) & 1 != 0) == (sum
                >= 0x1_0000_0000))) by (bit_vector);
        },
        Vsew::E64 => {
            assert(sum < 0x2_0000_0000_0000_0000 ==> (((sum >> 64u128) & 1 != 0) == (sum
                >= 0x1_0000_0000_0000_0000))) by (bit_vector);
        },
    }
}

/// A value congruent to `x` modulo `2^64` is congruent to it modulo `2^SEW`.
pub proof fn lemma_wrap_mod(x: int, r: int, k: int, sew: Vsew)
    requires
        r == x + k * 0x1_0000_0000_0000_0000,
    ensures
        r % (sew_modulus(sew) as int) == x % (sew_modulus(sew) as int),
{
    lemma_sew_modulus_values(sew);
    let m = sew_modulus(sew) as int;
    let q: int = 0x1_0000_0000_0000_0000int / m;
    assert(q * m == 0x1_0000_0000_0000_0000);
    assert(k * 0x1_0000_0000_0000_0000 == m * (k * q)) by (nonlinear_arith)
        requires
            q * m == 0x1_0000_0000_0000_0000,
    ;
    lemma_mod_multiples_vanish(k * q, x, m);
}

/// Carry-in or borrow-in for element `i`: mask bit `i` of `v0` as `0` or `1`.
pub fn carry_bit(vregs: &VectorRegisterFile, i: u16) -> (r: u64)
    requires
        vregs.wf(),
        i < 8 * vregs.vlenb_spec(),
    ensures
        r == (if mask_bit_of(vregs@, vregs.vlenb_spec(), 0, i as nat) {
            1u64
        } else {
            0u64
        }),
{
    let v0 = vregs.get(VReg::v0());
    proof {
        vregs.lemma_wf();
        assert(v0@[(i / 8) as int] == vregs@[(0 * vregs.vlenb_spec() + i / 8) as int]);
    }
    if mask_bit(&v0, i) {
        1
    } else {
        0
    }
}

/// Execute an element-wise add-with-carry over `vstart..vl`, writing SEW-wide results into `vd`. Element `i` becomes
/// `vs2[i] + src[i] + carry` truncated to SEW, where the carry is mask bit `i` of `v0` when
/// `WITH_CARRY` and zero otherwise.
/// Every element of `vstart..vl` is processed (no execution mask); the others keep their value.
/// Marks the vector state dirty and resets `vstart`.
pub fn execute_carry_add<const WITH_CARRY: bool>(state: &mut VectorState, vd: VReg, vs2: VReg, src: OpSrc, sew: Vsew)
    requires
        old(state).wf(),
        old(state).group_fits(vd, sew.bytes()),
        old(state).group_fits(vs2, sew.bytes()),
        old(state).same_or_disjoint(vd, vs2, sew.bytes()),
        src_ok(*old(state), vd, src, sew.bytes()),
        WITH_CARRY ==> vd.index() != 0,
    ensures
        final(state).same_config(*old(state)),
        final(state).vs_dirty,
        final(state).vstart == 0,
        unchanged_outside(
            old(state).regs@,
            final(state).regs@,
            (vd.index() * old(state).vlenb()) as int,
            (vd.index() * old(state).vlenb() + old(state).vl * sew.bytes()) as int,
        ),
        forall|i: nat|
            i < old(state).vl ==> #[trigger] data_post(
                *old(state),
                *final(state),
                vd,
                sew,
                i,
                adc_value(*old(state), vs2, src, WITH_CARRY, sew, i),
            ),
{
    let ghost s0 = *state;
    let ghost l = s0.vlenb();
    let ghost w = sew.bytes();
    let ghost r0 = vd.index() * l;
    let vl = state.vl;
    let vstart = state.vstart;
    proof {
        lemma_vl_bound(s0);
        s0.regs.lemma_wf();
    }
    let mut i: u32 = if (vstart as u32) < vl {
        vstart as u32
    } else {
        vl
    };
    while i < vl
        invariant
            s0.wf(),
            l == s0.vlenb(),
            w == sew.bytes(),
            r0 == vd.index() * l,
            vl == s0.vl,
            vstart == s0.vstart,
            vl <= 8 * l,
            vl <= 65536,
            s0.group_fits(vd, w),
            s0.group_fits(vs2, w),
            s0.same_or_disjoint(vd, vs2, w),
            src_ok(s0, vd, src, w),
            WITH_CARRY ==> vd.index() != 0,
            state.same_config(s0),
            state.vs_dirty == s0.vs_dirty,
            state.vstart == s0.vstart,
            i <= vl,
            i < vl ==> vstart <= i,
            unchanged_outside(s0.regs@, state.regs@, r0 as int, (r0 + i * w) as int),
            forall|j: nat|
                j < i ==> #[trigger] data_post(
                    s0,
                    *state,
                    vd,
                    sew,
                    j,
                    adc_value(s0, vs2, src, WITH_CARRY, sew, j),
                ),
        decreases vl - i,
    {
        let ghost cur = *state;
        proof {
            s0.regs.lemma_wf();
            lemma_slot_arith(i as nat, vl as nat, w);
            lemma_read_frame(
                s0.regs@,
                cur.regs@,
                l,
                vd.index(),
                i * w,
                vs2.index(),
                i as nat,
                w,
                vl as nat,
            );
        }
        let a = read_element_u64(&state.regs, vs2, i as u16, sew);
        let b = match src {
            OpSrc::Vreg(vs1) => {
                proof {
                    lemma_read_frame(
                        s0.regs@,
                        cur.regs@,
                        l,
                        vd.index(),
                        i * w,
                        vs1.index(),
                        i as nat,
                        w,
                        vl as nat,
                    );
                }
                read_element_u64(&state.regs, vs1, i as u16, sew)
            },
            OpSrc::Scalar(val) => val,
        };
        assert(b == src_value(s0, src, i as nat, w));
        let c: u64 = if WITH_CARRY {
            proof {
                assert(i / 8 < l);
                assert(vd.index() * l >= l) by (nonlinear_arith)
                    requires
                        vd.index() >= 1,
                ;
                assert(0 * l + i / 8 == i / 8);
                assert(cur.regs@[(i / 8) as int] == s0.regs@[(i / 8) as int]);
            }
            carry_bit(&state.regs, i as u16)
        } else {
            0
        };
        assert(c == carry_in(s0, WITH_CARRY, i as nat));
        let result = a.wrapping_add(b).wrapping_add(c);
        proof {
            let x = a as int + b as int + c as int;
            let k: int = if a as int + b as int > u64::MAX as int {
                if (a.wrapping_add(b)) as int + c as int > u64::MAX as int { -2 } else { -1 }
            } else if a as int + b as int + c as int > u64::MAX as int {
                -1
            } else {
                0
            };
            assert(result as int == x + k * 0x1_0000_0000_0000_0000);
            lemma_wrap_mod(x, result as int, k, sew);
        }
        write_element_u64(&mut state.regs, vd, i as u16, sew, result);
        proof {
            lemma_element_step(
                s0.regs@,
                cur.regs@,
                state.regs@,
                l,
                vd.index(),
                i as nat,
                w,
                vl as nat,
                true,
                result as nat,
            );
            assert forall|j: nat| j < i + 1 implies #[trigger] data_post(
                s0,
                *state,
                vd,
                sew,
                j,
                adc_value(s0, vs2, src, WITH_CARRY, sew, j),
            ) by {
                if j < i {
                    assert(data_post(
                        s0,
                        cur,
                        vd,
                        sew,
                        j,
                        adc_value(s0, vs2, src, WITH_CARRY, sew, j),
                    ));
                }
            }
        }
        i = i + 1;
    }
    let ghost fin = *state;
    state.mark_vs_dirty();
    state.reset_vstart();
    proof {
        assert forall|j: nat| j < vl implies #[trigger] data_post(
            s0,
            *state,
            vd,
            sew,
            j,
            adc_value(s0, vs2, src, WITH_CARRY, sew, j),
        ) by {
            if j < i {
                assert(data_post(
                    s0,
                    fin,
                    vd,
                    sew,
                    j,
                    adc_value(s0, vs2, src, WITH_CARRY, sew, j),
                ));
            } else {
                assert(j < vstart);
                lemma_slot_arith(j, vl as nat, w);
                lemma_value_unchanged(
                    s0.regs@,
                    fin.regs@,
                    r0 as int,
                    (r0 + i * w) as int,
                    (r0 + j * w) as int,
                    w,
                );
            }
        }
    }
}

/// Execute an element-wise subtract-with-borrow over `vstart..vl`, writing SEW-wide results into `vd`. Element `i` becomes
/// `vs2[i] - src[i] - borrow` truncated to SEW, where the borrow is mask bit `i` of `v0`.
/// Every element of `vstart..vl` is processed (no execution mask); the others keep their value.
/// Marks the vector state dirty and resets `vstart`.
pub fn execute_carry_sub(state: &mut VectorState, vd: VReg, vs2: VReg, src: OpSrc, sew: Vsew)
    requires
        old(state).wf(),
        old(state).group_fits(vd, sew.bytes()),
        old(state).group_fits(vs2, sew.bytes()),
        old(state).same_or_disjoint(vd, vs2, sew.bytes()),
        src_ok(*old(state), vd, src, sew.bytes()),
        vd.index() != 0,
    ensures
        final(state).same_config(*old(state)),
        final(state).vs_dirty,
        final(state).vstart == 0,
        unchanged_outside(
            old(state).regs@,
            final(state).regs@,
            (vd.index() * old(state).vlenb()) as int,
            (vd.index() * old(state).vlenb() + old(state).vl * sew.bytes()) as int,
        ),
        forall|i: nat|
            i < old(state).vl ==> #[trigger] data_post(
                *old(state),
                *final(state),
                vd,
                sew,
                i,
                sbc_value(*old(state), vs2, src, true, sew, i),
            ),
{
    let ghost s0 = *state;
    let ghost l = s0.vlenb();
    let ghost w = sew.bytes();
    let ghost r0 = vd.index() * l;
    let vl = state.vl;
    let vstart = state.vstart;
    proof {
        lemma_vl_bound(s0);
        s0.regs.lemma_wf();
    }
    let mut i: u32 = if (vstart as u32) < vl {
        vstart as u32
    } else {
        vl
    };
    while i < vl
        invariant
            s0.wf(),
            l == s0.vlenb(),
            w == sew.bytes(),
            r0 == vd.index() * l,
            vl == s0.vl,
            vstart == s0.vstart,
            vl <= 8 * l,
            vl <= 65536,
            s0.group_fits(vd, w),
            s0.group_fits(vs2, w),
            s0.same_or_disjoint(vd, vs2, w),
            src_ok(s0, vd, src, w),
            vd.index() != 0,
            state.same_config(s0),
            state.vs_dirty == s0.vs_dirty,
            state.vstart == s0.vstart,
            i <= vl,
            i < vl ==> vstart <= i,
            unchanged_outside(s0.regs@, state.regs@, r0 as int, (r0 + i * w) as int),
            forall|j: nat|
                j < i ==> #[trigger] data_post(
                    s0,
                    *state,
                    vd,
                    sew,
                    j,
                    sbc_value(s0, vs2, src, true, sew, j),
                ),
        decreases vl - i,
    {
        let ghost cur = *state;
        proof {
            s0.regs.lemma_wf();
            lemma_slot_arith(i as nat, vl as nat, w);
            lemma_read_frame(
                s0.regs@,
                cur.regs@,
                l,
                vd.index(),
                i * w,
                vs2.index(),
                i as nat,
                w,
                vl as nat,
            );
        }
        let a = read_element_u64(&state.regs, vs2, i as u16, sew);
        let b = match src {
            OpSrc::Vreg(vs1) => {
                proof {
                    lemma_read_frame(
                        s0.regs@,
                        cur.regs@,
                        l,
                        vd.index(),
                        i * w,
                        vs1.index(),
                        i as nat,
                        w,
                        vl as nat,
                    );
                }
                read_element_u64(&state.regs, vs1, i as u16, sew)
            },
            OpSrc::Scalar(val) => val,
        };
        assert(b == src_value(s0, src, i as nat, w));
        let c: u64 = if true {
            proof {
                assert(i / 8 < l);
                assert(vd.index() * l >= l) by (nonlinear_arith)
                    requires
                        vd.index() >= 1,
                ;
                assert(0 * l + i / 8 == i / 8);
                assert(cur.regs@[(i / 8) as int] == s0.regs@[(i / 8) as int]);
            }
            carry_bit(&state.regs, i as u16)
        } else {
            0
        };
        assert(c == carry_in(s0, true, i as nat));
        let result = a.wrapping_sub(b).wrapping_sub(c);
        proof {
            let x = a as int - b as int - c as int;
            let k: int = if (a as int) < (b as int) {
                if (a.wrapping_sub(b) as int) < (c as int) { 2 } else { 1 }
            } else if (a as int - b as int) < (c as int) {
                1
            } else {
                0
            };
            assert(result as int == x + k * 0x1_0000_0000_0000_0000);
            lemma_wrap_mod(x, result as int, k, sew);
        }
        write_element_u64(&mut state.regs, vd, i as u16, sew, result);
        proof {
            lemma_element_step(
                s0.regs@,
                cur.regs@,
                state.regs@,
                l,
                vd.index(),
                i as nat,
                w,
                vl as nat,
                true,
                result as nat,
            );
            assert forall|j: nat| j < i + 1 implies #[trigger] data_post(
                s0,
                *state,
                vd,
                sew,
                j,
                sbc_value(s0, vs2, src, true, sew, j),
            ) by {
                if j < i {
                    assert(data_post(
                        s0,
                        cur,
                        vd,
                        sew,
                        j,
                        sbc_value(s0, vs2, src, true, sew, j),
                    ));
                }
            }
        }
        i = i + 1;
    }
    let ghost fin = *state;
    state.mark_vs_dirty();
    state.reset_vstart();
    proof {
        assert forall|j: nat| j < vl implies #[trigger] data_post(
            s0,
            *state,
            vd,
            sew,
            j,
            sbc_value(s0, vs2, src, true, sew, j),
        ) by {
            if j < i {
                assert(data_post(
                    s0,
                    fin,
                    vd,
                    sew,
                    j,
                    sbc_value(s0, vs2, src, true, sew, j),
                ));
            } else {
                assert(j < vstart);
                lemma_slot_arith(j, vl as nat, w);
                lemma_value_unchanged(
                    s0.regs@,
                    fin.regs@,
                    r0 as int,
                    (r0 + i * w) as int,
                    (r0 + j * w) as int,
                    w,
                );
            }
        }
    }
}

/// Execute an element-wise add-with-carry over `vstart..vl`, writing the carry-out as one mask bit per
/// element into `vd`: bit `i` becomes whether `vs2[i] + src[i] + carry` (SEW-wide
/// unsigned) reaches `2^SEW`, where the carry is mask bit `i` of `v0` when
/// `WITH_CARRY` and zero otherwise. Every element of `vstart..vl` is processed (no execution mask);
/// the other bits of `vd` keep their value. Marks the vector state dirty and resets `vstart`.
pub fn execute_carry_add_mask<const WITH_CARRY: bool>(
    state: &mut VectorState,
    vd: VReg,
    vs2: VReg,
    src: OpSrc,
    sew: Vsew,
)
    requires
        old(state).wf(),
        old(state).group_fits(vs2, sew.bytes()),
        mask_dest_ok(*old(state), vd, vs2, sew.bytes()),
        mask_src_ok(*old(state), vd, src, sew.bytes()),
    ensures
        final(state).same_config(*old(state)),
        final(state).vs_dirty,
        final(state).vstart == 0,
        unchanged_outside(
            old(state).regs@,
            final(state).regs@,
            (vd.index() * old(state).vlenb()) as int,
            (vd.index() * old(state).vlenb() + old(state).vlenb()) as int,
        ),
        forall|i: nat|
            i < old(state).vl ==> #[trigger] bit_post(
                *old(state),
                *final(state),
                vd,
                i,
                madc_bit(*old(state), vs2, src, WITH_CARRY, sew, i),
            ),
        forall|i: nat|
            old(state).vl <= i < 8 * old(state).vlenb() ==> #[trigger] mask_bit_of(
                final(state).regs@,
                old(state).vlenb(),
                vd.index(),
                i,
            ) == mask_bit_of(old(state).regs@, old(state).vlenb(), vd.index(), i),
{
    let ghost s0 = *state;
    let ghost l = s0.vlenb();
    let ghost w = sew.bytes();
    let ghost r0 = vd.index() * l;
    let vl = state.vl;
    let vstart = state.vstart;
    proof {
        lemma_vl_bound(s0);
        s0.regs.lemma_wf();
        lemma_sew_modulus_values(sew);
        assert(vd.index() * l + l <= 32 * l) by (nonlinear_arith)
            requires
                vd.index() < 32,
        ;
    }
    let mask = sew_mask(sew);
    let mut i: u32 = if (vstart as u32) < vl {
        vstart as u32
    } else {
        vl
    };
    while i < vl
        invariant
            s0.wf(),
            l == s0.vlenb(),
            s0.regs@.len() == 32 * l,
            w == sew.bytes(),
            r0 == vd.index() * l,
            r0 + l <= 32 * l,
            vl == s0.vl,
            vstart == s0.vstart,
            vl <= 8 * l,
            vl <= 65536,
            mask == sew_modulus(sew) - 1,
            s0.group_fits(vs2, w),
            mask_dest_ok(s0, vd, vs2, w),
            mask_src_ok(s0, vd, src, w),
            state.same_config(s0),
            state.vs_dirty == s0.vs_dirty,
            state.vstart == s0.vstart,
            i <= vl,
            i < vl ==> vstart <= i,
            unchanged_outside(s0.regs@, state.regs@, r0 as int, (r0 + (i + 7) / 8) as int),
            forall|j: nat|
                i <= j < 8 * l ==> #[trigger] mask_bit_of(state.regs@, l, vd.index(), j)
                    == mask_bit_of(s0.regs@, l, vd.index(), j),
            forall|j: nat|
                j < i ==> #[trigger] bit_post(
                    s0,
                    *state,
                    vd,
                    j,
                    madc_bit(s0, vs2, src, WITH_CARRY, sew, j),
                ),
        decreases vl - i,
    {
        let ghost cur = *state;
        proof {
            s0.regs.lemma_wf();
            lemma_slot_arith(i as nat, vl as nat, w);
            assert(i * w >= (i + 7) / 8) by (nonlinear_arith)
                requires
                    w >= 1,
            ;
            lemma_value_unchanged(
                s0.regs@,
                cur.regs@,
                r0 as int,
                (r0 + (i + 7) / 8) as int,
                (vs2.index() * l + i * w) as int,
                w,
            );
        }
        let a = read_element_u64(&state.regs, vs2, i as u16, sew);
        let b = match src {
            OpSrc::Vreg(vs1) => {
                proof {
                    lemma_value_unchanged(
                        s0.regs@,
                        cur.regs@,
                        r0 as int,
                        (r0 + (i + 7) / 8) as int,
                        (vs1.index() * l + i * w) as int,
                        w,
                    );
                }
                read_element_u64(&state.regs, vs1, i as u16, sew)
            },
            OpSrc::Scalar(val) => val,
        };
        assert(b == src_value(s0, src, i as nat, w));
        let c: u64 = if WITH_CARRY {
            proof {
                assert(i / 8 < l);
                assert(0 * l + i / 8 == i / 8);
                if vd.index() == 0 {
                    assert(mask_bit_of(cur.regs@, l, 0, i as nat) == mask_bit_of(
                        s0.regs@,
                        l,
                        0,
                        i as nat,
                    ));
                } else {
                    assert(vd.index() * l >= l) by (nonlinear_arith)
                        requires
                            vd.index() >= 1,
                    ;
                    assert(cur.regs@[(i / 8) as int] == s0.regs@[(i / 8) as int]);
                }
            }
            carry_bit(&state.regs, i as u16)
        } else {
            0
        };
        assert(c == carry_in(s0, WITH_CARRY, i as nat));
        proof {
            lemma_and_mask(a, mask, sew);
            lemma_and_mask(b, mask, sew);
        }
        let sum: u128 = (a & mask) as u128 + (b & mask) as u128 + c as u128;
        proof {
            lemma_carry_out_bit(sum, sew);
        }
        let out = (sum >> sew.bits_width()) & 1 != 0;
        assert(out == madc_bit(s0, vs2, src, WITH_CARRY, sew, i as nat));
        write_mask_bit(&mut state.regs, vd, i as u16, out);
        proof {
            lemma_mask_step(s0.regs@, cur.regs@, state.regs@, l, vd.index(), i as nat, true, out);
            assert forall|j: nat| j < i + 1 implies #[trigger] bit_post(
                s0,
                *state,
                vd,
                j,
                madc_bit(s0, vs2, src, WITH_CARRY, sew, j),
            ) by {
                if j < i {
                    assert(bit_post(s0, cur, vd, j, madc_bit(s0, vs2, src, WITH_CARRY, sew, j)));
                }
            }
        }
        i = i + 1;
    }
    let ghost fin = *state;
    state.mark_vs_dirty();
    state.reset_vstart();
    proof {
        assert forall|j: nat| j < vl implies #[trigger] bit_post(
            s0,
            *state,
            vd,
            j,
            madc_bit(s0, vs2, src, WITH_CARRY, sew, j),
        ) by {
            assert(bit_post(s0, fin, vd, j, madc_bit(s0, vs2, src, WITH_CARRY, sew, j)));
        }
        assert((i + 7) / 8 <= l);
    }
}

/// Execute an element-wise subtract-with-borrow over `vstart..vl`, writing the borrow-out as one mask bit per
/// element into `vd`: bit `i` becomes whether `vs2[i] < src[i] + borrow` (SEW-wide
/// unsigned), where the borrow is mask bit `i` of `v0` when
/// `WITH_BORROW` and zero otherwise. Every element of `vstart..vl` is processed (no execution mask);
/// the other bits of `vd` keep their value. Marks the vector state dirty and resets `vstart`.
pub fn execute_carry_sub_mask<const WITH_BORROW: bool>(
    state: &mut VectorState,
    vd: VReg,
    vs2: VReg,
    src: OpSrc,
    sew: Vsew,
)
    requires
        old(state).wf(),
        old(state).group_fits(vs2, sew.bytes()),
        mask_dest_ok(*old(state), vd, vs2, sew.bytes()),
        mask_src_ok(*old(state), vd, src, sew.bytes()),
    ensures
        final(state).same_config(*old(state)),
        final(state).vs_dirty,
        final(state).vstart == 0,
        unchanged_outside(
            old(state).regs@,
            final(state).regs@,
            (vd.index() * old(state).vlenb()) as int,
            (vd.index() * old(state).vlenb() + old(state).vlenb()) as int,
        ),
        forall|i: nat|
            i < old(state).vl ==> #[trigger] bit_post(
                *old(state),
                *final(state),
                vd,
                i,
                msbc_bit(*old(state), vs2, src, WITH_BORROW, sew, i),
            ),
        forall|i: nat|
            old(state).vl <= i < 8 * old(state).vlenb() ==> #[trigger] mask_bit_of(
                final(state).regs@,
                old(state).vlenb(),
                vd.index(),
                i,
            ) == mask_bit_of(old(state).regs@, old(state).vlenb(), vd.index(), i),
{
    let ghost s0 = *state;
    let ghost l = s0.vlenb();
    let ghost w = sew.bytes();
    let ghost r0 = vd.index() * l;
    let vl = state.vl;
    let vstart = state.vstart;
    proof {
        lemma_vl_bound(s0);
        s0.regs.lemma_wf();
        lemma_sew_modulus_values(sew);
        assert(vd.index() * l + l <= 32 * l) by (nonlinear_arith)
            requires
                vd.index() < 32,
        ;
    }
    let mask = sew_mask(sew);
    let mut i: u32 = if (vstart as u32) < vl {
        vstart as u32
    } else {
        vl
    };
    while i < vl
        invariant
            s0.wf(),
            l == s0.vlenb(),
            s0.regs@.len() == 32 * l,
            w == sew.bytes(),
            r0 == vd.index() * l,
            r0 + l <= 32 * l,
            vl == s0.vl,
            vstart == s0.vstart,
            vl <= 8 * l,
            vl <= 65536,
            mask == sew_modulus(sew) - 1,
            s0.group_fits(vs2, w),
            mask_dest_ok(s0, vd, vs2, w),
            mask_src_ok(s0, vd, src, w),
            state.same_config(s0),
            state.vs_dirty == s0.vs_dirty,
            state.vstart == s0.vstart,
            i <= vl,
            i < vl ==> vstart <= i,
            unchanged_outside(s0.regs@, state.regs@, r0 as int, (r0 + (i + 7) / 8) as int),
            forall|j: nat|
                i <= j < 8 * l ==> #[trigger] mask_bit_of(state.regs@, l, vd.index(), j)
                    == mask_bit_of(s0.regs@, l, vd.index(), j),
            forall|j: nat|
                j < i ==> #[trigger] bit_post(
                    s0,
                    *state,
                    vd,
                    j,
                    msbc_bit(s0, vs2, src, WITH_BORROW, sew, j),
                ),
        decreases vl - i,
    {
        let ghost cur = *state;
        proof {
            s0.regs.lemma_wf();
            lemma_slot_arith(i as nat, vl as nat, w);
            assert(i * w >= (i + 7) / 8) by (nonlinear_arith)
                requires
                    w >= 1,
            ;
            lemma_value_unchanged(
                s0.regs@,
                cur.regs@,
                r0 as int,
                (r0 + (i + 7) / 8) as int,
                (vs2.index() * l + i * w) as int,
                w,
            );
        }
        let a = read_element_u64(&state.regs, vs2, i as u16, sew);
        let b = match src {
            OpSrc::Vreg(vs1) => {
                proof {
                    lemma_value_unchanged(
                        s0.regs@,
                        cur.regs@,
                        r0 as int,
                        (r0 + (i + 7) / 8) as int,
                        (vs1.index() * l + i * w) as int,
                        w,
                    );
                }
                read_element_u64(&state.regs, vs1, i as u16, sew)
            },
            OpSrc::Scalar(val) => val,
        };
        assert(b == src_value(s0, src, i as nat, w));
        let c: u64 = if WITH_BORROW {
            proof {
                assert(i / 8 < l);
                assert(0 * l + i / 8 == i / 8);
                if vd.index() == 0 {
                    assert(mask_bit_of(cur.regs@, l, 0, i as nat) == mask_bit_of(
                        s0.regs@,
                        l,
                        0,
                        i as nat,
                    ));
                } else {
                    assert(vd.index() * l >= l) by (nonlinear_arith)
                        requires
                            vd.index() >= 1,
                    ;
                    assert(cur.regs@[(i / 8) as int] == s0.regs@[(i / 8) as int]);
                }
            }
            carry_bit(&state.regs, i as u16)
        } else {
            0
        };
        assert(c == carry_in(s0, WITH_BORROW, i as nat));
        proof {
            lemma_and_mask(a, mask, sew);
            lemma_and_mask(b, mask, sew);
        }
        let a_m = (a & mask) as u128;
        let rhs = (b & mask) as u128 + c as u128;
        let out = a_m < rhs;
        assert(out == msbc_bit(s0, vs2, src, WITH_BORROW, sew, i as nat));
        write_mask_bit(&mut state.regs, vd, i as u16, out);
        proof {
            lemma_mask_step(s0.regs@, cur.regs@, state.regs@, l, vd.index(), i as nat, true, out);
            assert forall|j: nat| j < i + 1 implies #[trigger] bit_post(
                s0,
                *state,
                vd,
                j,
                msbc_bit(s0, vs2, src, WITH_BORROW, sew, j),
            ) by {
                if j < i {
                    assert(bit_post(s0, cur, vd, j, msbc_bit(s0, vs2, src, WITH_BORROW, sew, j)));
                }
            }
        }
        i = i + 1;
    }
    let ghost fin = *state;
    state.mark_vs_dirty();
    state.reset_vstart();
    proof {
        assert forall|j: nat| j < vl implies #[trigger] bit_post(
            s0,
            *state,
            vd,
            j,
            msbc_bit(s0, vs2, src, WITH_BORROW, sew, j),
        ) by {
            assert(bit_post(s0, fin, vd, j, msbc_bit(s0, vs2, src, WITH_BORROW, sew, j)));
        }
        assert((i + 7) / 8 <= l);
    }
}

} // verus!
