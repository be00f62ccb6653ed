//! Properties that hold across the operations of the library, stated over the spec functions
//! their contracts use.

use vstd::prelude::*;
use crate::arith::{lemma_sew_modulus_values, sew_modulus, signed_of};
use crate::bytes::{byte_scale, lemma_le_write_other, lemma_le_write_read};
use crate::register_file::{element, mask_bit_of, with_element, with_mask_bit};
use crate::arith::src_value;
use crate::carry::{adc_value, carry_in, madc_bit, msbc_bit, sbc_value};
use crate::config::{min_nat, vlmax_of, vsetvl_config};
use crate::load::{mask_bit_spec, snapshot_spec};
use crate::mask::{
    active_set_count, enabled_set_count, lemma_count_monotone, mask_enabled, sbf_bit, sif_bit,
    sof_bit,
};
use crate::muldiv::{abs, div_trunc, rem_trunc, widened_regs};
use crate::state::VectorState;
use crate::types::{OpSrc, VReg, Vlmul, Vsew, Vtype};

verus! {

/// Reading an element back after writing it gives the written value truncated to the element
/// width, and every element slot that does not share a byte with it keeps its value.
pub proof fn lemma_element_write_read(
    regs: Seq<u8>,
    l: nat,
    base: nat,
    i: nat,
    w: nat,
    v: nat,
    base2: nat,
    i2: nat,
    w2: nat,
)
    requires
        base * l + (i + 1) * w <= regs.len(),
        base2 * l + (i2 + 1) * w2 <= regs.len(),
        base2 * l + (i2 + 1) * w2 <= base * l + i * w || base * l + (i + 1) * w <= base2 * l + i2
            * w2,
    ensures
        element(with_element(regs, l, base, i, w, v), l, base, i, w) == v % byte_scale(w),
        element(with_element(regs, l, base, i, w, v), l, base2, i2, w2) == element(
            regs,
            l,
            base2,
            i2,
            w2,
        ),
{
    assert((i + 1) * w == i * w + w) by (nonlinear_arith);
    assert((i2 + 1) * w2 == i2 * w2 + w2) by (nonlinear_arith);
    lemma_le_write_read(regs, (base * l + i * w) as int, w, v);
    lemma_le_write_other(
        regs,
        (base * l + i * w) as int,
        w,
        v,
        (base2 * l + i2 * w2) as int,
        w2,
    );
}

/// Writing a mask bit sets exactly that bit: it reads back as written, and every other bit of
/// the register file keeps its value.
pub proof fn lemma_mask_bit_write_read(
    regs: Seq<u8>,
    l: nat,
    r: nat,
    i: nat,
    value: bool,
    r2: nat,
    i2: nat,
)
    requires
        r * l + i / 8 < regs.len(),
        r2 * l + i2 / 8 < regs.len(),
        l >= 1,
        i < 8 * l,
        i2 < 8 * l,
    ensures
        mask_bit_of(with_mask_bit(regs, l, r, i, value), l, r, i) == value,
        (r2 != r || i2 != i) ==> mask_bit_of(with_mask_bit(regs, l, r, i, value), l, r2, i2)
            == mask_bit_of(regs, l, r2, i2),
{
    let k = (r * l + i / 8) as int;
    let k2 = (r2 * l + i2 / 8) as int;
    let b = regs[k];
    crate::bytes::lemma_with_bit(b, i % 8, value, i % 8);
    if r2 != r || i2 != i {
        if k2 == k {
            assert(r2 == r && i2 / 8 == i / 8) by (nonlinear_arith)
                requires
                    r * l + i / 8 == r2 * l + i2 / 8,
                    i / 8 < l,
                    i2 / 8 < l,
            ;
            assert(i2 % 8 != i % 8);
            crate::bytes::lemma_with_bit(b, i % 8, value, i2 % 8);
        }
    }
}

/// The two's complement reading of the low SEW bits lies in `[-2^(SEW-1), 2^(SEW-1))` and is
/// congruent to the value modulo `2^SEW`.
pub proof fn lemma_signed_of_range(v: nat, sew: Vsew)
    ensures
        -(sew_modulus(sew) as int) / 2 <= signed_of(v, sew) < (sew_modulus(sew) as int) / 2,
        (signed_of(v, sew) - v) % (sew_modulus(sew) as int) == 0,
{
    lemma_sew_modulus_values(sew);
    let m = sew_modulus(sew) as int;
    vstd::arithmetic::div_mod::lemma_fundamental_div_mod(v as int, m);
    let q = (v as int) / m;
    if (v as int) % m >= m / 2 {
        vstd::arithmetic::div_mod::lemma_mod_multiples_vanish(-(q + 1), 0, m);
        assert(signed_of(v, sew) - v == m * (-(q + 1))) by (nonlinear_arith)
            requires
                signed_of(v, sew) == (v as int) % m - m,
                v as int == m * q + (v as int) % m,
        ;
    } else {
        vstd::arithmetic::div_mod::lemma_mod_multiples_vanish(-q, 0, m);
        assert(signed_of(v, sew) - v == m * (-q)) by (nonlinear_arith)
            requires
                signed_of(v, sew) == (v as int) % m,
                v as int == m * q + (v as int) % m,
        ;
    }
}

/// Sign extension reads only the low SEW bits: clearing the bits above them (`val & sew_mask`)
/// leaves the signed reading unchanged.
pub proof fn lemma_sign_extend_low_bits(val: u64, sew: Vsew)
    ensures
        signed_of((val & ((sew_modulus(sew) - 1) as u64)) as nat, sew) == signed_of(val as nat, sew),
{
    lemma_sew_modulus_values(sew);
    assert((val & 0xff) % 0x100 == val % 0x100 && (val & 0xffff) % 0x1_0000 == val % 0x1_0000
        && (val & 0xffff_ffff) % 0x1_0000_0000 == val % 0x1_0000_0000 && (val
        & 0xffff_ffff_ffff_ffff) == val) by (bit_vector);
}

/// Truncating signed division and its remainder: `x == q * d + r`, `|r| < |d|`, and a nonzero
/// remainder has the sign of the dividend.
pub proof fn lemma_signed_division(x: int, d: int)
    requires
        d != 0,
    ensures
        div_trunc(x, d) * d + rem_trunc(x, d) == x,
        abs(rem_trunc(x, d)) < abs(d),
        rem_trunc(x, d) == 0 || ((rem_trunc(x, d) < 0) == (x < 0)),
{
    let ax = abs(x);
    let ad = abs(d);
    vstd::arithmetic::div_mod::lemma_fundamental_div_mod(ax, ad);
    let q = ax / ad;
    let r = ax % ad;
    assert(0 <= r < ad);
    if x < 0 {
        if d < 0 {
            assert(div_trunc(x, d) * d == -(ad * q)) by (nonlinear_arith)
                requires
                    div_trunc(x, d) == q,
                    d == -ad,
            ;
        } else {
            assert(div_trunc(x, d) * d == -(ad * q)) by (nonlinear_arith)
                requires
                    div_trunc(x, d) == -q,
                    d == ad,
            ;
        }
    } else {
        if d < 0 {
            assert(div_trunc(x, d) * d == ad * q) by (nonlinear_arith)
                requires
                    div_trunc(x, d) == -q,
                    d == -ad,
            ;
        } else {
            assert(div_trunc(x, d) * d == ad * q) by (nonlinear_arith)
                requires
                    div_trunc(x, d) == q,
                    d == ad,
            ;
        }
    }
}

/// Signed overflow: dividing the most negative SEW-bit number by `-1` gives that number back
/// (as SEW bits) with a zero remainder.
pub proof fn lemma_signed_division_overflow(sew: Vsew)
    ensures
        ({
            let m = sew_modulus(sew) as int;
            let min = (m / 2) as nat;
            let minus_one = (m - 1) as nat;
            &&& signed_of(min, sew) == -(m / 2)
            &&& signed_of(minus_one, sew) == -1
            &&& div_trunc(-(m / 2), -1) % m == m / 2
            &&& rem_trunc(-(m / 2), -1) % m == 0
        }),
{
    lemma_sew_modulus_values(sew);
    let m = sew_modulus(sew) as int;
    assert(abs(-(m / 2)) / abs(-1) == m / 2);
    assert(abs(-(m / 2)) % abs(-1) == 0);
}

/// `vl = min(AVL, VLMAX)` meets the three constraints on `vl`: it is `AVL` when
/// `AVL <= VLMAX`, lies in `[ceil(AVL / 2), VLMAX]` when `AVL < 2 * VLMAX`, and is `VLMAX` when
/// `AVL >= 2 * VLMAX`.
pub proof fn lemma_vl_choice(avl: nat, vlmax: nat)
    ensures
        avl <= vlmax ==> min_nat(avl, vlmax) == avl,
        avl < 2 * vlmax ==> (avl + 1) / 2 <= min_nat(avl, vlmax) <= vlmax,
        avl >= 2 * vlmax ==> min_nat(avl, vlmax) == vlmax,
{
}

/// With a source register (`rs1 != x0`) and a supported `vtype`, `vsetvl` picks
/// `vl = min(AVL, VLMAX)` with `AVL` the whole requested length.
pub proof fn lemma_vsetvl_with_avl(s: VectorState, rd: u8, rs1: u8, rs1_value: u64, vt: Vtype)
    requires
        rs1 != 0,
    ensures
        ({
            let avl = rs1_value as nat;
            let vlmax = vlmax_of(s, vt);
            let (vtype, vl) = vsetvl_config(s, rd, rs1, rs1_value, Some(vt));
            &&& vtype == Some(vt)
            &&& vl == min_nat(avl, vlmax)
            &&& vl <= vlmax
            &&& vl <= avl
            &&& avl <= vlmax ==> vl == avl
            &&& avl >= 2 * vlmax ==> vl == vlmax
        }),
{
}

/// Destination groups of widening operations: with a source `LMUL >= 1` the destination has
/// twice as many registers as the source; with a fractional source `LMUL` both occupy one
/// register. So the destination is larger than the source exactly when `LMUL >= 1`.
pub proof fn lemma_widened_regs(vlmul: Vlmul)
    ensures
        widened_regs(vlmul) matches Some(n) ==> {
            &&& vlmul.den() == 1 ==> n == 2 * vlmul.regs()
            &&& vlmul.den() > 1 ==> n == 1 && vlmul.regs() == 1
            &&& (n > vlmul.regs()) == (vlmul.den() == 1)
        },
        widened_regs(vlmul) is None <==> vlmul == Vlmul::M8,
{
}

/// The results of set-before-first, set-including-first and set-only-first agree: the only-first
/// bit is the including-first bit without the before-first bit, and before-first implies
/// including-first.
pub proof fn lemma_first_bit_relations(s: VectorState, vs2: VReg, vm: bool, i: nat)
    ensures
        sof_bit(s, vs2, vm, i) == (sif_bit(s, vs2, vm, i) && !sbf_bit(s, vs2, vm, i)),
        sbf_bit(s, vs2, vm, i) ==> sif_bit(s, vs2, vm, i),
        sbf_bit(s, vs2, vm, i) ==> !sof_bit(s, vs2, vm, i),
{
}

/// With `vstart` zero, `vcpop.m` over the first `n <= vl` elements counts what `viota.m` writes
/// to element `n`: the enabled elements before `n` whose bit in `vs2` is set.
pub proof fn lemma_vcpop_prefix_is_iota(s: VectorState, vs2: VReg, vm: bool, n: nat)
    requires
        s.vstart == 0,
        n <= s.vl,
    ensures
        active_set_count(s, vs2, vm, n) == enabled_set_count(s, vs2, vm, n),
    decreases n,
{
    if n > 0 {
        lemma_vcpop_prefix_is_iota(s, vs2, vm, (n - 1) as nat);
    }
}

/// The element `vfirst.m` finds (enabled, its `vs2` bit set, no enabled set bit before it) is
/// the one bit `vmsof.m` sets: every other enabled element below `vl` gets a clear bit.
pub proof fn lemma_vfirst_is_only_first(s: VectorState, vs2: VReg, vm: bool, k: nat, j: nat)
    requires
        k < s.vl,
        mask_enabled(s, vm, k),
        mask_bit_of(s.regs@, s.vlenb(), vs2.index(), k),
        enabled_set_count(s, vs2, vm, k) == 0,
        j < s.vl,
        mask_enabled(s, vm, j),
        j != k,
    ensures
        sof_bit(s, vs2, vm, k),
        !sof_bit(s, vs2, vm, j),
{
    if j < k {
        lemma_count_monotone(s, vs2, vm, j + 1, k);
    } else {
        lemma_count_monotone(s, vs2, vm, k + 1, j);
    }
}

/// `vadc` and `vmadc` split the same sum: the SEW-bit data result plus the carry-out times
/// `2^SEW` is `vs2[i] + src[i] + carry` (operands taken at SEW bits).
pub proof fn lemma_add_with_carry_split(
    s: VectorState,
    vs2: VReg,
    src: OpSrc,
    with_carry: bool,
    sew: Vsew,
    i: nat,
)
    ensures
        ({
            let m = sew_modulus(sew) as int;
            let a = element(s.regs@, s.vlenb(), vs2.index(), i, sew.bytes()) as int;
            let b = src_value(s, src, i, sew.bytes()) as int;
            adc_value(s, vs2, src, with_carry, sew, i) % m + (if madc_bit(
                s,
                vs2,
                src,
                with_carry,
                sew,
                i,
            ) {
                m
            } else {
                0
            }) == a % m + b % m + carry_in(s, with_carry, i)
        }),
{
    lemma_sew_modulus_values(sew);
    let m = sew_modulus(sew) as int;
    let a = element(s.regs@, s.vlenb(), vs2.index(), i, sew.bytes()) as int;
    let b = src_value(s, src, i, sew.bytes()) as int;
    let c = carry_in(s, with_carry, i) as int;
    let t = a % m + b % m + c;
    assert(0 <= t < 2 * m);
    vstd::arithmetic::div_mod::lemma_fundamental_div_mod(b, m);
    vstd::arithmetic::div_mod::lemma_fundamental_div_mod(a, m);
    let qa = a / m;
    let qb = b / m;
    assert(a + b + c == m * (qa + qb) + t) by (nonlinear_arith)
        requires
            a == m * qa + a % m,
            b == m * qb + b % m,
            t == a % m + b % m + c,
    ;
    vstd::arithmetic::div_mod::lemma_mod_multiples_vanish(qa + qb, t, m);
    if t >= m {
        vstd::arithmetic::div_mod::lemma_mod_multiples_vanish(1, t - m, m);
        vstd::arithmetic::div_mod::lemma_small_mod((t - m) as nat, m as nat);
    } else {
        vstd::arithmetic::div_mod::lemma_small_mod(t as nat, m as nat);
    }
}

/// `vsbc` and `vmsbc` split the same difference: the SEW-bit data result minus the borrow-out
/// times `2^SEW` is `vs2[i] - src[i] - borrow` (operands taken at SEW bits).
pub proof fn lemma_subtract_with_borrow_split(
    s: VectorState,
    vs2: VReg,
    src: OpSrc,
    with_borrow: bool,
    sew: Vsew,
    i: nat,
)
    ensures
        ({
            let m = sew_modulus(sew) as int;
            let a = element(s.regs@, s.vlenb(), vs2.index(), i, sew.bytes()) as int;
            let b = src_value(s, src, i, sew.bytes()) as int;
            sbc_value(s, vs2, src, with_borrow, sew, i) % m - (if msbc_bit(
                s,
                vs2,
                src,
                with_borrow,
                sew,
                i,
            ) {
                m
            } else {
                0
            }) == a % m - b % m - carry_in(s, with_borrow, i)
        }),
{
    lemma_sew_modulus_values(sew);
    let m = sew_modulus(sew) as int;
    let a = element(s.regs@, s.vlenb(), vs2.index(), i, sew.bytes()) as int;
    let b = src_value(s, src, i, sew.bytes()) as int;
    let c = carry_in(s, with_borrow, i) as int;
    let t = a % m - b % m - c;
    assert(-m <= t < m);
    vstd::arithmetic::div_mod::lemma_fundamental_div_mod(b, m);
    vstd::arithmetic::div_mod::lemma_fundamental_div_mod(a, m);
    let qa = a / m;
    let qb = b / m;
    assert(a - b - c == m * (qa - qb) + t) by (nonlinear_arith)
        requires
            a == m * qa + a % m,
            b == m * qb + b % m,
            t == a % m - b % m - c,
    ;
    vstd::arithmetic::div_mod::lemma_mod_multiples_vanish(qa - qb, t, m);
    if t < 0 {
        vstd::arithmetic::div_mod::lemma_mod_multiples_vanish(-1, t + m, m);
        vstd::arithmetic::div_mod::lemma_small_mod((t + m) as nat, m as nat);
    } else {
        vstd::arithmetic::div_mod::lemma_small_mod(t as nat, m as nat);
    }
}

/// An unmasked snapshot reads every mask bit of the register as set.
pub proof fn lemma_unmasked_snapshot_all_set(regs: Seq<u8>, l: nat, vl: nat, i: nat)
    requires
        i < 8 * l,
    ensures
        mask_bit_spec(snapshot_spec(regs, l, true, vl), i),
{
    let b: u8 = 0xff;
    let j = (i % 8) as u8;
    assert((b >> j) & 1u8 == 1u8) by (bit_vector)
        requires
            j < 8,
            b == 0xff,
    ;
}

} // verus!
