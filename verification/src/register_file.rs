//! The vector register file: 32 registers of `VLEN` bits, stored as one byte array.
//!
//! Register `r` occupies bytes `[r * VLENB, (r + 1) * VLENB)`. Element `i` of an `w`-byte wide
//! register group whose base register is `b` occupies bytes `[b * VLENB + i * w, .. + w)`, which
//! is register `b + i / (VLENB / w)` at byte offset `(i % (VLENB / w)) * w` since `w` divides
//! `VLENB`. Elements are little-endian. Mask bit `i` of register `r` is bit `i % 8` of byte
//! `r * VLENB + i / 8`.

use vstd::prelude::*;
use crate::bytes::{bit_of, le_value, le_write, read_le, with_bit, write_le};
use crate::types::{lemma_vreg_index_bound, VReg};

verus! {

broadcast use lemma_vreg_index_bound;

/// Allowed register widths in bytes (`VLEN / 8` for `VLEN` in `8..=65536`, a power of two).
pub open spec fn valid_vlenb(n: nat) -> bool {
    ||| n == 1
    ||| n == 2
    ||| n == 4
    ||| n == 8
    ||| n == 16
    ||| n == 32
    ||| n == 64
    ||| n == 128
    ||| n == 256
    ||| n == 512
    ||| n == 1024
    ||| n == 2048
    ||| n == 4096
    ||| n == 8192
}

/// Value of element `i` (of `w` bytes) of the register group based at register `base`.
pub open spec fn element(regs: Seq<u8>, vlenb: nat, base: nat, i: nat, w: nat) -> nat {
    le_value(regs, (base * vlenb + i * w) as int, w)
}

/// Mask bit `i` of register `reg`.
pub open spec fn mask_bit_of(regs: Seq<u8>, vlenb: nat, reg: nat, i: nat) -> bool {
    bit_of(regs[(reg * vlenb + i / 8) as int], i % 8)
}

/// `regs` with element `i` (of `w` bytes) of the group based at `base` set to the low `w` bytes
/// of `v`.
pub open spec fn with_element(regs: Seq<u8>, vlenb: nat, base: nat, i: nat, w: nat, v: nat) -> Seq<
    u8,
> {
    le_write(regs, (base * vlenb + i * w) as int, w, v)
}

/// `regs` with mask bit `i` of register `reg` set to `value`.
pub open spec fn with_mask_bit(regs: Seq<u8>, vlenb: nat, reg: nat, i: nat, value: bool) -> Seq<
    u8,
> {
    let k = (reg * vlenb + i / 8) as int;
    regs.update(k, with_bit(regs[k], i % 8, value))
}

/// Element-wise vector register file.
#[derive(Clone, Debug)]
pub struct VectorRegisterFile {
    vlenb: u32,
    bytes: Vec<u8>,
}

impl View for VectorRegisterFile {
    type V = Seq<u8>;

    closed spec fn view(&self) -> Seq<u8> {
        self.bytes@
    }
}

impl VectorRegisterFile {
    /// Register width in bytes (`VLEN / 8`).
    pub closed spec fn vlenb_spec(&self) -> nat {
        self.vlenb as nat
    }

    /// The byte array holds exactly 32 registers of an allowed width.
    pub closed spec fn wf(&self) -> bool {
        &&& valid_vlenb(self.vlenb as nat)
        &&& self.bytes@.len() == 32 * self.vlenb
    }

    /// What `wf` means for the view.
    pub proof fn lemma_wf(&self)
        requires
            self.wf(),
        ensures
            valid_vlenb(self.vlenb_spec()),
            self@.len() == 32 * self.vlenb_spec(),
    {
    }

    /// A zeroed register file with `VLEN = vlen` bits.
    pub fn new(vlen: u32) -> (r: Self)
        requires
            valid_vlenb(vlen as nat / 8),
            vlen % 8 == 0,
        ensures
            r.wf(),
            r.vlenb_spec() == vlen / 8,
            r@ == Seq::new(32 * (vlen as nat / 8), |_k: int| 0u8),
    {
        let vlenb = vlen / 8;
        let total = 32 * vlenb as usize;
        let mut bytes: Vec<u8> = Vec::new();
        while bytes.len() < total
            invariant
                bytes.len() <= total,
                forall|k: int| 0 <= k < bytes.len() ==> bytes@[k] == 0u8,
            decreases total - bytes.len(),
        {
            bytes.push(0);
        }
        let r = VectorRegisterFile { vlenb, bytes };
        assert(r@ =~= Seq::new(32 * (vlen as nat / 8), |_k: int| 0u8));
        r
    }

    /// Register width in bytes.
    pub fn vlenb(&self) -> (r: u32)
        requires
            self.wf(),
        ensures
            r == self.vlenb_spec(),
            1 <= r <= 8192,
    {
        self.vlenb
    }

    /// Copy of the bytes of register `index`.
    pub fn get(&self, index: VReg) -> (r: Vec<u8>)
        requires
            self.wf(),
        ensures
            r@ == self@.subrange(
                (index.index() * self.vlenb_spec()) as int,
                ((index.index() + 1) * self.vlenb_spec()) as int,
            ),
    {
        let l = self.vlenb as usize;
        let start = index.to_bits() as usize * l;
        proof {
            assert(index.index() * self.vlenb_spec() + self.vlenb_spec() <= 32 * self.vlenb_spec())
                by (nonlinear_arith)
                requires
                    index.index() < 32,
            ;
            assert((index.index() + 1) * self.vlenb_spec() == index.index() * self.vlenb_spec()
                + self.vlenb_spec()) by (nonlinear_arith);
        }
        let mut out: Vec<u8> = Vec::new();
        let mut k: usize = 0;
        while k < l
            invariant
                self.wf(),
                l == self.vlenb_spec(),
                start + l <= self@.len(),
                k <= l,
                out@ == self@.subrange(start as int, (start + k) as int),
            decreases l - k,
        {
            out.push(self.bytes[start + k]);
            k = k + 1;
            assert(out@ =~= self@.subrange(start as int, (start + k) as int));
        }
        out
    }

    /// Overwrite register `index` with `data`.
    pub fn set(&mut self, index: VReg, data: &Vec<u8>)
        requires
            old(self).wf(),
            data@.len() == old(self).vlenb_spec(),
        ensures
            final(self).wf(),
            final(self).vlenb_spec() == old(self).vlenb_spec(),
            final(self)@ == Seq::new(
                old(self)@.len(),
                |k: int|
                    if index.index() * old(self).vlenb_spec() <= k < (index.index() + 1) * old(
                        self,
                    ).vlenb_spec() {
                        data@[k - index.index() * old(self).vlenb_spec()]
                    } else {
                        old(self)@[k]
                    },
            ),
    {
        let ghost start_bytes = self.bytes@;
        let l = self.vlenb as usize;
        let start = index.to_bits() as usize * l;
        proof {
            assert(index.index() * self.vlenb_spec() + self.vlenb_spec() <= 32 * self.vlenb_spec())
                by (nonlinear_arith)
                requires
                    index.index() < 32,
            ;
            assert((index.index() + 1) * self.vlenb_spec() == index.index() * self.vlenb_spec()
                + self.vlenb_spec()) by (nonlinear_arith);
        }
        let mut k: usize = 0;
        while k < l
            invariant
                l == old(self).vlenb_spec(),
                self.vlenb == old(self).vlenb,
                data@.len() == l,
                start == index.index() * l,
                start + l <= start_bytes.len(),
                start + l <= self.bytes.len(),
                self.bytes@.len() == start_bytes.len(),
                start_bytes == old(self)@,
                k <= l,
                forall|j: int|
                    0 <= j < start_bytes.len() ==> #[trigger] self.bytes@[j] == (if start <= j
                        < start + k {
                        data@[j - start]
                    } else {
                        start_bytes[j]
                    }),
            decreases l - k,
        {
            self.bytes.set(start + k, data[k]);
            k = k + 1;
        }
        assert(self@ =~= Seq::new(
            old(self)@.len(),
            |k: int|
                if index.index() * old(self).vlenb_spec() <= k < (index.index() + 1) * old(
                    self,
                ).vlenb_spec() {
                    data@[k - index.index() * old(self).vlenb_spec()]
                } else {
                    old(self)@[k]
                },
        ));
    }

    /// Read `w <= 8` little-endian bytes at byte offset `off`.
    pub fn read_bytes(&self, off: usize, w: usize) -> (r: u64)
        requires
            self.wf(),
            w <= 8,
            off + w <= self@.len(),
        ensures
            r == le_value(self@, off as int, w as nat),
    {
        read_le(&self.bytes, off, w)
    }

    /// Write the low `w <= 8` bytes of `v` little-endian at byte offset `off`.
    pub fn write_bytes(&mut self, off: usize, w: usize, v: u64)
        requires
            old(self).wf(),
            w <= 8,
            off + w <= old(self)@.len(),
        ensures
            final(self).wf(),
            final(self).vlenb_spec() == old(self).vlenb_spec(),
            final(self)@ == le_write(old(self)@, off as int, w as nat, v as nat),
    {
        write_le(&mut self.bytes, off, w, v);
    }

    /// Read one byte.
    pub fn read_byte(&self, off: usize) -> (r: u8)
        requires
            self.wf(),
            off < self@.len(),
        ensures
            r == self@[off as int],
    {
        self.bytes[off]
    }

    /// Write one byte.
    pub fn write_byte(&mut self, off: usize, b: u8)
        requires
            old(self).wf(),
            off < old(self)@.len(),
        ensures
            final(self).wf(),
            final(self).vlenb_spec() == old(self).vlenb_spec(),
            final(self)@ == old(self)@.update(off as int, b),
    {
        self.bytes.set(off, b);
    }
}

} // verus!
