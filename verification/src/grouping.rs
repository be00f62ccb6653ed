//! Register grouping: how many registers an operand group of a given element width spans
//! under the current `vtype`, and the facts that make aligned groups hold `vl` elements.

use vstd::prelude::*;
use crate::state::VectorState;
use crate::types::{Eew, VReg, Vlmul, Vsew, Vtype};

verus! {

/// Numerator of `EMUL = (EEW / SEW) * LMUL` as the fraction `(EEW * num) / (SEW * den)`.
pub open spec fn emul_num(vlmul: Vlmul, eew: Eew) -> nat {
    eew.bits() * vlmul.num()
}

/// Denominator of `EMUL = (EEW / SEW) * LMUL`.
pub open spec fn emul_den(vlmul: Vlmul, sew: Vsew) -> nat {
    sew.bits() * vlmul.den()
}

/// Registers of one group of a memory operand of width `eew`: `max(1, EMUL)`, or `None` when
/// `EMUL` lies outside `[1/8, 8]`.
pub open spec fn emul_regs(vlmul: Vlmul, eew: Eew, sew: Vsew) -> Option<nat> {
    let n = emul_num(vlmul, eew);
    let d = emul_den(vlmul, sew);
    if 8 * n < d || n > 8 * d {
        None
    } else if n >= d {
        Some(n / d)
    } else {
        Some(1)
    }
}

/// The powers of two from `8` to `512`.
pub open spec fn is_emul_term(x: nat) -> bool {
    ||| x == 8
    ||| x == 16
    ||| x == 32
    ||| x == 64
    ||| x == 128
    ||| x == 256
    ||| x == 512
}

/// Both terms of the `EMUL` fraction are powers of two, so a numerator at least the denominator
/// is a multiple of it.
pub proof fn lemma_emul_exact(vlmul: Vlmul, eew: Eew, sew: Vsew)
    ensures
        emul_num(vlmul, eew) >= emul_den(vlmul, sew) ==> emul_num(vlmul, eew) % emul_den(
            vlmul,
            sew,
        ) == 0,
        is_emul_term(emul_den(vlmul, sew)),
        is_emul_term(emul_num(vlmul, eew)),
{
    let n = emul_num(vlmul, eew);
    let d = emul_den(vlmul, sew);
    assert(is_emul_term(n));
    assert(is_emul_term(d));
    assert(forall|a: nat, b: nat|
        is_emul_term(a) && is_emul_term(b) && a >= b ==> #[trigger] (a % b) == 0);
}

/// Register count of a memory operand group of width `eew` under `vlmul` and `sew`:
/// `max(1, (EEW / SEW) * LMUL)`, or `None` when that `EMUL` is outside `[1/8, 8]`.
pub fn emul_register_count(vlmul: Vlmul, eew: Eew, sew: Vsew) -> (r: Option<u8>)
    ensures
        r matches Some(g) ==> emul_regs(vlmul, eew, sew) == Some(g as nat) && 1 <= g <= 8,
        r is None <==> emul_regs(vlmul, eew, sew) is None,
{
    let (lmul_num, lmul_den) = vlmul.as_fraction();
    assert(lmul_num <= 8 && lmul_den <= 8);
    let eew_bits = eew.bits_width() as u16;
    let sew_bits = sew.bits_width() as u16;
    assert(eew_bits <= 64 && sew_bits <= 64);
    assert(eew_bits * lmul_num as u16 <= 512 && sew_bits * lmul_den as u16 <= 512)
        by (nonlinear_arith)
        requires
            eew_bits <= 64,
            sew_bits <= 64,
            lmul_num <= 8,
            lmul_den <= 8,
    ;
    let n = eew_bits * lmul_num as u16;
    let d = sew_bits * lmul_den as u16;
    assert(n == emul_num(vlmul, eew) && d == emul_den(vlmul, sew));
    proof {
        lemma_emul_exact(vlmul, eew, sew);
    }
    if 8 * n < d || n > 8 * d {
        None
    } else if n >= d {
        assert(1 <= n / d <= 8) by (nonlinear_arith)
            requires
                n <= 8 * d,
                n >= d,
                d > 0,
        ;
        Some((n / d) as u8)
    } else {
        Some(1)
    }
}

/// A memory operand group of `emul_regs` registers holds the `vl` elements of its width: with
/// `vl <= VLMAX = LMUL * VLEN / SEW`, `vl * EEW <= max(1, EMUL) * VLEN`.
pub proof fn lemma_emul_group_holds_vl(s: VectorState, vt: Vtype, eew: Eew, g: nat)
    requires
        s.wf(),
        s.vtype == Some(vt),
        emul_regs(vt.vlmul, eew, vt.vsew) == Some(g),
    ensures
        s.vl * eew.bytes() <= g * s.vlenb(),
        1 <= g <= 8,
{
    let l = s.vlenb();
    let n = emul_num(vt.vlmul, eew);
    let d = emul_den(vt.vlmul, vt.vsew);
    let num = vt.vlmul.num();
    let den = vt.vlmul.den();
    let sb = vt.vsew.bits();
    let eb = eew.bits();
    let vl = s.vl as nat;
    lemma_emul_exact(vt.vlmul, eew, vt.vsew);
    crate::state::lemma_vl_bound(s);
    assert(l >= 1);
    assert(vl <= (8 * l * num) / (sb * den));
    assert(sb * den > 0);
    vstd::arithmetic::div_mod::lemma_fundamental_div_mod((8 * l * num) as int, (sb * den) as int);
    let q = (8 * l * num) / (sb * den);
    assert(vl * (sb * den) <= q * (sb * den)) by (nonlinear_arith)
        requires
            vl <= q,
    ;
    vstd::arithmetic::div_mod::lemma_mod_pos_bound((8 * l * num) as int, (sb * den) as int);
    assert(q * (sb * den) <= 8 * l * num) by (nonlinear_arith)
        requires
            8 * l * num == (sb * den) * q + (8 * l * num) % (sb * den),
            (8 * l * num) % (sb * den) >= 0,
    ;
    assert(vl * d * eb <= 8 * l * n) by (nonlinear_arith)
        requires
            vl * (sb * den) <= 8 * l * num,
            d == sb * den,
            n == eb * num,
    ;
    assert(eb == 8 * eew.bytes());
    if n >= d {
        let k = n / d;
        vstd::arithmetic::div_mod::lemma_fundamental_div_mod(n as int, d as int);
        assert(n == d * k);
        assert(vl * eb <= 8 * l * k) by (nonlinear_arith)
            requires
                vl * d * eb <= 8 * l * n,
                n == d * k,
                d > 0,
        ;
        assert(vl * eew.bytes() <= k * l) by (nonlinear_arith)
            requires
                vl * eb <= 8 * l * k,
                eb == 8 * eew.bytes(),
        ;
        assert(k <= 8) by (nonlinear_arith)
            requires
                n <= 8 * d,
                n == d * k,
                d > 0,
        ;
    } else {
        assert(8 * l * n < 8 * l * d) by (nonlinear_arith)
            requires
                n < d,
                l >= 1,
        ;
        assert(vl * eb < 8 * l) by (nonlinear_arith)
            requires
                vl * d * eb < 8 * l * d,
                d > 0,
        ;
        assert(vl * eew.bytes() <= l) by (nonlinear_arith)
            requires
                vl * eb < 8 * l,
                eb == 8 * eew.bytes(),
        ;
    }
}

/// The data group of an operand of width SEW has `LMUL` registers (at least one).
pub proof fn lemma_emul_of_sew(vlmul: Vlmul, sew: Vsew, eew: Eew)
    requires
        eew.bits() == sew.bits(),
    ensures
        emul_regs(vlmul, eew, sew) == Some(vlmul.regs()),
{
    lemma_emul_exact(vlmul, eew, sew);
    let sb = sew.bits();
    assert(sb >= 8);
    vstd::arithmetic::div_mod::lemma_div_multiples_vanish(vlmul.num() as int, sb as int);
    assert(emul_num(vlmul, eew) == sb * vlmul.num());
    assert(emul_den(vlmul, sew) == sb * vlmul.den());
    assert(vlmul.num() == 1 || vlmul.den() == 1);
    assert(sb * vlmul.num() <= 8 * (sb * vlmul.den())) by (nonlinear_arith)
        requires
            vlmul.num() <= 8,
            vlmul.den() >= 1,
            sb >= 8,
    ;
    assert(8 * (sb * vlmul.num()) >= sb * vlmul.den()) by (nonlinear_arith)
        requires
            vlmul.num() >= 1,
            vlmul.den() <= 8,
            sb >= 8,
    ;
    if vlmul.den() > 1 {
        assert(sb * vlmul.num() < sb * vlmul.den()) by (nonlinear_arith)
            requires
                vlmul.num() == 1,
                vlmul.den() > 1,
                sb >= 8,
        ;
    }
}

/// Two groups of `g` registers based at multiples of `g` either coincide or share no register.
pub proof fn lemma_aligned_groups(a: nat, b: nat, g: nat)
    requires
        g >= 1,
        a % g == 0,
        b % g == 0,
        a < b + g,
        b < a + g,
    ensures
        a == b,
{
    vstd::arithmetic::div_mod::lemma_fundamental_div_mod(a as int, g as int);
    vstd::arithmetic::div_mod::lemma_fundamental_div_mod(b as int, g as int);
    let qa = a / g;
    let qb = b / g;
    assert(qa == qb) by (nonlinear_arith)
        requires
            a == g * qa,
            b == g * qb,
            a < b + g,
            b < a + g,
            g >= 1,
    ;
}

/// An `Eew` of the same width as `sew`.
pub open spec fn eew_of(sew: Vsew) -> Eew {
    match sew {
        Vsew::E8 => Eew::E8,
        Vsew::E16 => Eew::E16,
        Vsew::E32 => Eew::E32,
        Vsew::E64 => Eew::E64,
    }
}

/// An `n`-register group based at a multiple of `n` (a power of two up to 8) fits in
/// `v0..v31`.
pub proof fn lemma_aligned_group_fits(vd: nat, n: nat)
    requires
        n == 1 || n == 2 || n == 4 || n == 8,
        vd < 32,
        vd % n == 0,
    ensures
        vd + n <= 32,
{
}

/// A group of `LMUL` registers (at least one) that fits in `v0..v31` holds the `vl` elements of
/// width SEW.
pub proof fn lemma_sew_group_fits(s: VectorState, vt: Vtype, r: VReg)
    requires
        s.wf(),
        s.vtype == Some(vt),
        r.index() + vt.vlmul.regs() <= 32,
    ensures
        s.group_fits(r, vt.vsew.bytes()),
        s.vl * vt.vsew.bytes() <= vt.vlmul.regs() * s.vlenb(),
{
    lemma_emul_of_sew(vt.vlmul, vt.vsew, eew_of(vt.vsew));
    lemma_emul_group_holds_vl(s, vt, eew_of(vt.vsew), vt.vlmul.regs());
    let l = s.vlenb();
    assert(r.index() * l + vt.vlmul.regs() * l <= 32 * l) by (nonlinear_arith)
        requires
            r.index() + vt.vlmul.regs() <= 32,
    ;
}

/// Two `LMUL`-register groups aligned to their size are the same group or hold disjoint bytes.
pub proof fn lemma_sew_groups_same_or_disjoint(s: VectorState, vt: Vtype, a: VReg, b: VReg)
    requires
        s.wf(),
        s.vtype == Some(vt),
        a.index() % vt.vlmul.regs() == 0,
        b.index() % vt.vlmul.regs() == 0,
        a.index() + vt.vlmul.regs() <= 32,
        b.index() + vt.vlmul.regs() <= 32,
    ensures
        s.same_or_disjoint(a, b, vt.vsew.bytes()),
{
    let g = vt.vlmul.regs();
    let l = s.vlenb();
    lemma_sew_group_fits(s, vt, a);
    if a.index() != b.index() {
        if a.index() < b.index() + g && b.index() < a.index() + g {
            lemma_aligned_groups(a.index(), b.index(), g);
        }
        if a.index() + g <= b.index() {
            assert(a.index() * l + g * l <= b.index() * l) by (nonlinear_arith)
                requires
                    a.index() + g <= b.index(),
            ;
        } else {
            assert(b.index() * l + g * l <= a.index() * l) by (nonlinear_arith)
                requires
                    b.index() + g <= a.index(),
            ;
        }
    }
}

/// An `Eew` of twice the width of `sew` (for `SEW <= 32`).
pub open spec fn double_eew(sew: Vsew) -> Eew {
    match sew {
        Vsew::E8 => Eew::E16,
        Vsew::E16 => Eew::E32,
        _ => Eew::E64,
    }
}

/// The destination group of a widening operation is the group of an operand of width
/// `2 * SEW`: `max(1, 2 * LMUL)` registers, none when `LMUL = 8`. With `LMUL >= 1` it has
/// twice the registers of a source group, otherwise one, like the source group; and it holds
/// the `vl` elements of width `2 * SEW`.
pub proof fn lemma_widened_group(s: VectorState, vt: Vtype)
    requires
        s.wf(),
        s.vtype == Some(vt),
        vt.vsew.bits() <= 32,
    ensures
        emul_regs(vt.vlmul, double_eew(vt.vsew), vt.vsew) == crate::muldiv::widened_regs(
            vt.vlmul,
        ),
        crate::muldiv::widened_regs(vt.vlmul) matches Some(dest) ==> {
            &&& s.vl * (2 * vt.vsew.bytes()) <= dest * s.vlenb()
            &&& vt.vlmul.den() == 1 ==> dest == 2 * vt.vlmul.regs()
            &&& vt.vlmul.den() > 1 ==> dest == 1 && vt.vlmul.regs() == 1
        },
{
    let sb = vt.vsew.bits();
    let e = double_eew(vt.vsew);
    assert(e.bits() == 2 * sb);
    assert(e.bytes() == 2 * vt.vsew.bytes());
    let n = emul_num(vt.vlmul, e);
    let d = emul_den(vt.vlmul, vt.vsew);
    assert(sb >= 8);
    match vt.vlmul {
        Vlmul::M1 => {
            assert(n == 2 * sb && d == sb);
            vstd::arithmetic::div_mod::lemma_div_multiples_vanish(2, sb as int);
            assert((sb * 2) / sb == 2);
            assert(n / d == 2);
        },
        Vlmul::M2 => {
            assert(n == 4 * sb && d == sb);
            vstd::arithmetic::div_mod::lemma_div_multiples_vanish(4, sb as int);
            assert(n / d == 4);
        },
        Vlmul::M4 => {
            assert(n == 8 * sb && d == sb);
            vstd::arithmetic::div_mod::lemma_div_multiples_vanish(8, sb as int);
            assert(n / d == 8);
        },
        Vlmul::M8 => {
            assert(n == 16 * sb && d == sb);
        },
        Vlmul::Mf2 => {
            assert(n == 2 * sb && d == 2 * sb);
            vstd::arithmetic::div_mod::lemma_div_multiples_vanish(1, (2 * sb) as int);
            assert(n / d == 1);
        },
        Vlmul::Mf4 => {
            assert(vt.vlmul.num() == 1 && vt.vlmul.den() == 4);
            assert(n == e.bits() * 1);
            assert(d == sb * 4);
        },
        Vlmul::Mf8 => {
            assert(vt.vlmul.num() == 1 && vt.vlmul.den() == 8);
            assert(n == e.bits() * 1);
            assert(d == sb * 8);
        },
    }
    if let Some(dest) = crate::muldiv::widened_regs(vt.vlmul) {
        lemma_emul_group_holds_vl(s, vt, e, dest);
    }
}

} // verus!
