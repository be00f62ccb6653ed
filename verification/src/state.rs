//! Architectural vector state: the register file and the vector CSRs.

use vstd::prelude::*;
use crate::register_file::{mask_bit_of, valid_vlenb, VectorRegisterFile};
use crate::types::{lemma_vreg_index_bound, VReg, Vtype};

verus! {

broadcast use lemma_vreg_index_bound;

/// Vector register state of a hart.
///
/// `vector_allowed` reflects whether vector instructions are currently permitted (the `VS`
/// field of the status registers is not `Off`); `vs_dirty` records that the vector state has been
/// modified (`VS = Dirty`).
#[derive(Clone, Debug)]
pub struct VectorState {
    pub regs: VectorRegisterFile,
    pub vl: u32,
    pub vstart: u16,
    pub vtype: Option<Vtype>,
    pub vxrm: u8,
    pub vxsat: bool,
    pub vs_dirty: bool,
    pub vector_allowed: bool,
    pub elen: u32,
}

/// Allowed element lengths: `ELEN` in bits, at most 64 so an element fits a `u64`.
pub open spec fn valid_elen(elen: nat) -> bool {
    elen == 8 || elen == 16 || elen == 32 || elen == 64
}

impl VectorState {
    /// `VLEN` in bits.
    pub open spec fn vlen(&self) -> nat {
        self.regs.vlenb_spec() * 8
    }

    /// Register width in bytes.
    pub open spec fn vlenb(&self) -> nat {
        self.regs.vlenb_spec()
    }

    /// The architectural invariants: `ELEN <= VLEN`, `vl <= VLMAX` of the current `vtype` (and
    /// `vl == 0` while `vtype` is illegal), `vxrm` is a 2-bit value.
    pub open spec fn wf(&self) -> bool {
        &&& self.regs.wf()
        &&& valid_elen(self.elen as nat)
        &&& self.elen <= self.vlen()
        &&& self.vxrm < 4
        &&& match self.vtype {
            None => self.vl == 0,
            Some(vt) => {
                &&& vt.legal(self.elen as nat, self.vlen())
                &&& self.vl <= vt.vlmul.max_len(self.vlen(), vt.vsew)
            },
        }
    }

    /// Whether element `i` takes part in a (possibly masked) operation: it lies in
    /// `[vstart, vl)` and, when `vm` is false, mask bit `i` of `v0` is set.
    pub open spec fn is_active(&self, vm: bool, i: nat) -> bool {
        &&& self.vstart <= i < self.vl
        &&& (vm || mask_bit_of(self.regs@, self.vlenb(), 0, i))
    }

    /// The `vl` elements of width `w` of the group based at `base` lie inside the register file.
    pub open spec fn group_fits(&self, base: VReg, w: nat) -> bool {
        base.index() * self.vlenb() + self.vl * w <= 32 * self.vlenb()
    }

    /// The `vl`-element regions of width `w` of groups `a` and `b` are the same group or do not
    /// share any byte.
    pub open spec fn same_or_disjoint(&self, a: VReg, b: VReg, w: nat) -> bool {
        ||| a.index() == b.index()
        ||| a.index() * self.vlenb() + self.vl * w <= b.index() * self.vlenb()
        ||| b.index() * self.vlenb() + self.vl * w <= a.index() * self.vlenb()
    }

    /// The CSRs other than `vstart` and the dirty flag are those of `old`; the register width too.
    pub open spec fn same_config(&self, old: VectorState) -> bool {
        &&& self.regs.wf()
        &&& self.regs.vlenb_spec() == old.regs.vlenb_spec()
        &&& self.vl == old.vl
        &&& self.vtype == old.vtype
        &&& self.vxrm == old.vxrm
        &&& self.vxsat == old.vxsat
        &&& self.vector_allowed == old.vector_allowed
        &&& self.elen == old.elen
    }

    /// Reset state: `vtype` illegal, `vl = 0`, `vstart = 0`, `vxrm = 0`, `vxsat = 0`, zeroed
    /// registers, vector instructions allowed and state clean.
    pub fn new(vlen: u32, elen: u32) -> (r: Self)
        requires
            valid_vlenb(vlen as nat / 8),
            vlen % 8 == 0,
            valid_elen(elen as nat),
            elen <= vlen,
        ensures
            r.wf(),
            r.vlen() == vlen,
            r.elen == elen,
            r.vtype is None,
            r.vl == 0,
            r.vstart == 0,
            r.vxrm == 0,
            !r.vxsat,
            !r.vs_dirty,
            r.vector_allowed,
            r.regs@ == Seq::new(32 * (vlen as nat / 8), |_k: int| 0u8),
    {
        VectorState {
            regs: VectorRegisterFile::new(vlen),
            vl: 0,
            vstart: 0,
            vtype: None,
            vxrm: 0,
            vxsat: false,
            vs_dirty: false,
            vector_allowed: true,
            elen,
        }
    }

    /// Put the vector CSRs in their recommended reset configuration: `vtype.vill = 1` (no legal
    /// `vtype`), `vl = 0`; `vstart`, `vxrm` and `vxsat` are zeroed. Registers are kept.
    pub fn initialize_vector_state(&mut self)
        requires
            old(self).wf(),
        ensures
            final(self).wf(),
            final(self).vtype is None,
            final(self).vl == 0,
            final(self).vstart == 0,
            final(self).vxrm == 0,
            !final(self).vxsat,
            final(self).regs == old(self).regs,
            final(self).vs_dirty == old(self).vs_dirty,
            final(self).vector_allowed == old(self).vector_allowed,
            final(self).elen == old(self).elen,
    {
        self.vtype = None;
        self.vl = 0;
        self.vstart = 0;
        self.vxrm = 0;
        self.vxsat = false;
    }

    /// `vcsr`: `vxrm` in bits `[2:1]`, `vxsat` in bit `0`.
    pub fn vcsr(&self) -> (r: u8)
        requires
            self.vxrm < 4,
        ensures
            r == self.vxrm * 2 + (if self.vxsat { 1nat } else { 0nat }),
    {
        self.vxrm * 2 + if self.vxsat {
            1
        } else {
            0
        }
    }

    /// Mark the vector state as modified.
    pub fn mark_vs_dirty(&mut self)
        ensures
            final(self).vs_dirty,
            final(self).regs == old(self).regs,
            final(self).vl == old(self).vl,
            final(self).vstart == old(self).vstart,
            final(self).vtype == old(self).vtype,
            final(self).vxrm == old(self).vxrm,
            final(self).vxsat == old(self).vxsat,
            final(self).vector_allowed == old(self).vector_allowed,
            final(self).elen == old(self).elen,
    {
        self.vs_dirty = true;
    }

    /// Reset `vstart` to zero, as every vector instruction does when it completes.
    pub fn reset_vstart(&mut self)
        ensures
            final(self).vstart == 0,
            final(self).regs == old(self).regs,
            final(self).vl == old(self).vl,
            final(self).vs_dirty == old(self).vs_dirty,
            final(self).vtype == old(self).vtype,
            final(self).vxrm == old(self).vxrm,
            final(self).vxsat == old(self).vxsat,
            final(self).vector_allowed == old(self).vector_allowed,
            final(self).elen == old(self).elen,
    {
        self.vstart = 0;
    }

    /// `VLMAX` of `vtype` for this register width.
    pub fn vlmax_for_vtype(&self, vtype: Vtype) -> (r: u32)
        requires
            self.regs.wf(),
        ensures
            r == vtype.vlmul.max_len(self.vlen(), vtype.vsew),
    {
        proof {
            self.regs.lemma_wf();
        }
        vtype.vlmul.vlmax(self.regs.vlenb() * 8, vtype.vsew)
    }
}

/// `vl` never exceeds `VLEN` (so every mask bit of `vl` elements fits in one register).
pub proof fn lemma_vl_bound(s: VectorState)
    requires
        s.wf(),
    ensures
        s.vl <= s.vlen(),
        s.vlen() <= 65536,
        s.vlenb() >= 1,
{
    s.regs.lemma_wf();
    if let Some(vt) = s.vtype {
        let v = s.vlen();
        let n = vt.vlmul.num();
        let d = vt.vlmul.den();
        let b = vt.vsew.bits();
        assert(1 <= n <= 8 && 1 <= d && 8 <= b);
        assert((v * n) / (b * d) <= v) by (nonlinear_arith)
            requires
                1 <= n <= 8,
                1 <= d,
                8 <= b,
        {
            assert(b * d >= 8);
            assert(v * n <= v * 8);
            assert((v * n) / (b * d) <= (v * n) / 8) by {
                vstd::arithmetic::div_mod::lemma_div_is_ordered_by_denominator(
                    (v * n) as int,
                    8,
                    (b * d) as int,
                );
            }
        }
    }
}

/// `vl` for an application vector length `avl`: `min(AVL, VLMAX)`.
pub fn compute_vl(avl: u32, vlmax: u32) -> (r: u32)
    ensures
        r == if avl <= vlmax {
            avl
        } else {
            vlmax
        },
{
    if avl <= vlmax {
        avl
    } else {
        vlmax
    }
}

} // verus!
