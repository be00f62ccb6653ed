//! Vector configuration types: registers, element widths, register grouping and `vtype`.

use vstd::prelude::*;

verus! {

/// A vector register `v0`..`v31`, identified by its 5-bit encoding.
#[derive(Clone, Copy, Debug, PartialEq, Eq, Structural)]
pub struct VReg {
    bits: u8,
}

impl VReg {
    #[verifier::type_invariant]
    spec fn encoding_in_range(self) -> bool {
        self.bits < 32
    }

    /// Register number in `0..32`.
    pub closed spec fn index(self) -> nat {
        if self.bits < 32 {
            self.bits as nat
        } else {
            0
        }
    }

    /// Create a vector register from its 5-bit encoding; `None` for encodings `>= 32`.
    pub fn from_bits(bits: u8) -> (r: Option<VReg>)
        ensures
            (bits < 32) <==> r is Some,
            r matches Some(v) ==> v.index() == bits,
    {
        if bits < 32 {
            Some(VReg { bits })
        } else {
            None
        }
    }

    /// The 5-bit encoding of this register.
    pub fn to_bits(self) -> (r: u8)
        ensures
            r == self.index(),
            r < 32,
    {
        proof {
            use_type_invariant(&self);
        }
        self.bits
    }

    /// The mask register `v0`.
    pub fn v0() -> (r: VReg)
        ensures
            r.index() == 0,
    {
        VReg { bits: 0 }
    }
}

/// Every register number is below 32.
pub broadcast proof fn lemma_vreg_index_bound(v: VReg)
    ensures
        #[trigger] v.index() < 32,
{
}

/// Selected element width (SEW).
#[derive(Clone, Copy, Debug, PartialEq, Eq, Structural)]
pub enum Vsew {
    E8,
    E16,
    E32,
    E64,
}

impl Vsew {
    /// Width in bits.
    pub open spec fn bits(self) -> nat {
        match self {
            Vsew::E8 => 8,
            Vsew::E16 => 16,
            Vsew::E32 => 32,
            Vsew::E64 => 64,
        }
    }

    /// Width in bytes.
    pub open spec fn bytes(self) -> nat {
        match self {
            Vsew::E8 => 1,
            Vsew::E16 => 2,
            Vsew::E32 => 4,
            Vsew::E64 => 8,
        }
    }

    /// Element width in bits.
    pub fn bits_width(self) -> (r: u8)
        ensures
            r == self.bits(),
    {
        match self {
            Vsew::E8 => 8,
            Vsew::E16 => 16,
            Vsew::E32 => 32,
            Vsew::E64 => 64,
        }
    }

    /// Element width in bytes.
    pub fn bytes_width(self) -> (r: u8)
        ensures
            r == self.bytes(),
    {
        match self {
            Vsew::E8 => 1,
            Vsew::E16 => 2,
            Vsew::E32 => 4,
            Vsew::E64 => 8,
        }
    }

    /// The memory element width equal to this element width.
    pub fn as_eew(self) -> (r: Eew)
        ensures
            r.bits() == self.bits(),
            r.bytes() == self.bytes(),
    {
        match self {
            Vsew::E8 => Eew::E8,
            Vsew::E16 => Eew::E16,
            Vsew::E32 => Eew::E32,
            Vsew::E64 => Eew::E64,
        }
    }

    /// The width encoded by the low three bits of `bits` (the `vsew` field of `vtype`);
    /// `None` for the reserved encodings.
    pub fn from_bits(bits: u8) -> (r: Option<Vsew>)
        ensures
            r == vsew_of_bits((bits % 8) as nat),
    {
        match bits % 8 {
            0 => Some(Vsew::E8),
            1 => Some(Vsew::E16),
            2 => Some(Vsew::E32),
            3 => Some(Vsew::E64),
            _ => None,
        }
    }
}

/// Decoding of the 3-bit `vsew` field: `0..=3` are 8, 16, 32 and 64 bits, the rest reserved.
pub open spec fn vsew_of_bits(b: nat) -> Option<Vsew> {
    if b == 0 {
        Some(Vsew::E8)
    } else if b == 1 {
        Some(Vsew::E16)
    } else if b == 2 {
        Some(Vsew::E32)
    } else if b == 3 {
        Some(Vsew::E64)
    } else {
        None
    }
}

/// Decoding of the 3-bit `vlmul` field, a signed power of two: `0..=3` are LMUL 1, 2, 4, 8;
/// `5, 6, 7` are 1/8, 1/4, 1/2; `4` is reserved.
pub open spec fn vlmul_of_bits(b: nat) -> Option<Vlmul> {
    if b == 0 {
        Some(Vlmul::M1)
    } else if b == 1 {
        Some(Vlmul::M2)
    } else if b == 2 {
        Some(Vlmul::M4)
    } else if b == 3 {
        Some(Vlmul::M8)
    } else if b == 5 {
        Some(Vlmul::Mf8)
    } else if b == 6 {
        Some(Vlmul::Mf4)
    } else if b == 7 {
        Some(Vlmul::Mf2)
    } else {
        None
    }
}

/// Effective element width of a vector memory operation.
#[derive(Clone, Copy, Debug, PartialEq, Eq, Structural)]
pub enum Eew {
    E8,
    E16,
    E32,
    E64,
}

impl Eew {
    /// Width in bits.
    pub open spec fn bits(self) -> nat {
        match self {
            Eew::E8 => 8,
            Eew::E16 => 16,
            Eew::E32 => 32,
            Eew::E64 => 64,
        }
    }

    /// Width in bytes.
    pub open spec fn bytes(self) -> nat {
        match self {
            Eew::E8 => 1,
            Eew::E16 => 2,
            Eew::E32 => 4,
            Eew::E64 => 8,
        }
    }

    /// Element width in bits.
    pub fn bits_width(self) -> (r: u8)
        ensures
            r == self.bits(),
    {
        match self {
            Eew::E8 => 8,
            Eew::E16 => 16,
            Eew::E32 => 32,
            Eew::E64 => 64,
        }
    }

    /// Element width in bytes.
    pub fn bytes_width(self) -> (r: u8)
        ensures
            r == self.bytes(),
    {
        match self {
            Eew::E8 => 1,
            Eew::E16 => 2,
            Eew::E32 => 4,
            Eew::E64 => 8,
        }
    }
}

/// Register group multiplier (LMUL).
#[derive(Clone, Copy, Debug, PartialEq, Eq, Structural)]
pub enum Vlmul {
    M1,
    M2,
    M4,
    M8,
    Mf8,
    Mf4,
    Mf2,
}

impl Vlmul {
    /// Numerator of LMUL as a fraction.
    pub open spec fn num(self) -> nat {
        match self {
            Vlmul::M2 => 2,
            Vlmul::M4 => 4,
            Vlmul::M8 => 8,
            _ => 1,
        }
    }

    /// Denominator of LMUL as a fraction.
    pub open spec fn den(self) -> nat {
        match self {
            Vlmul::Mf8 => 8,
            Vlmul::Mf4 => 4,
            Vlmul::Mf2 => 2,
            _ => 1,
        }
    }

    /// Registers occupied by one register group: `max(1, LMUL)`.
    pub open spec fn regs(self) -> nat {
        self.num()
    }

    /// `VLMAX = LMUL * VLEN / SEW`, rounded down.
    pub open spec fn max_len(self, vlen: nat, sew: Vsew) -> nat {
        (vlen * self.num()) / (sew.bits() * self.den())
    }

    /// LMUL as a `(numerator, denominator)` pair.
    pub fn as_fraction(self) -> (r: (u8, u8))
        ensures
            r.0 == self.num(),
            r.1 == self.den(),
    {
        match self {
            Vlmul::Mf8 => (1, 8),
            Vlmul::Mf4 => (1, 4),
            Vlmul::Mf2 => (1, 2),
            Vlmul::M1 => (1, 1),
            Vlmul::M2 => (2, 1),
            Vlmul::M4 => (4, 1),
            Vlmul::M8 => (8, 1),
        }
    }

    /// Number of registers in one register group.
    pub fn register_count(self) -> (r: u8)
        ensures
            r == self.regs(),
            1 <= r <= 8,
    {
        match self {
            Vlmul::M2 => 2,
            Vlmul::M4 => 4,
            Vlmul::M8 => 8,
            _ => 1,
        }
    }

    /// The multiplier encoded by the low three bits of `bits` (the `vlmul` field of `vtype`);
    /// `None` for the reserved encoding.
    pub fn from_bits(bits: u8) -> (r: Option<Vlmul>)
        ensures
            r == vlmul_of_bits((bits % 8) as nat),
    {
        match bits % 8 {
            0 => Some(Vlmul::M1),
            1 => Some(Vlmul::M2),
            2 => Some(Vlmul::M4),
            3 => Some(Vlmul::M8),
            5 => Some(Vlmul::Mf8),
            6 => Some(Vlmul::Mf4),
            7 => Some(Vlmul::Mf2),
            _ => None,
        }
    }

    /// `VLMAX` for a `vlen`-bit register and element width `sew`.
    pub fn vlmax(self, vlen: u32, sew: Vsew) -> (r: u32)
        requires
            vlen <= 65536,
        ensures
            r == self.max_len(vlen as nat, sew),
    {
        let sew_bits = sew.bits_width() as u32;
        match self {
            Vlmul::M1 => vlen / sew_bits,
            Vlmul::M2 => (vlen * 2) / sew_bits,
            Vlmul::M4 => (vlen * 4) / sew_bits,
            Vlmul::M8 => (vlen * 8) / sew_bits,
            Vlmul::Mf2 => vlen / (sew_bits * 2),
            Vlmul::Mf4 => vlen / (sew_bits * 4),
            Vlmul::Mf8 => vlen / (sew_bits * 8),
        }
    }
}

/// Number of fields per segment of a segment load (1..=8).
#[derive(Clone, Copy, Debug, PartialEq, Eq, Structural)]
pub enum Nf {
    N1,
    N2,
    N3,
    N4,
    N5,
    N6,
    N7,
    N8,
}

impl Nf {
    /// Fields per segment.
    pub open spec fn count(self) -> nat {
        match self {
            Nf::N1 => 1,
            Nf::N2 => 2,
            Nf::N3 => 3,
            Nf::N4 => 4,
            Nf::N5 => 5,
            Nf::N6 => 6,
            Nf::N7 => 7,
            Nf::N8 => 8,
        }
    }

    /// `Some` for `1..=8`.
    pub fn new(nf: u8) -> (r: Option<Nf>)
        ensures
            (1 <= nf <= 8) <==> r is Some,
            r matches Some(n) ==> n.count() == nf,
    {
        match nf {
            1 => Some(Nf::N1),
            2 => Some(Nf::N2),
            3 => Some(Nf::N3),
            4 => Some(Nf::N4),
            5 => Some(Nf::N5),
            6 => Some(Nf::N6),
            7 => Some(Nf::N7),
            8 => Some(Nf::N8),
            _ => None,
        }
    }

    /// Fields per segment.
    pub fn fields_per_segment(self) -> (r: u8)
        ensures
            r == self.count(),
            1 <= r <= 8,
    {
        match self {
            Nf::N1 => 1,
            Nf::N2 => 2,
            Nf::N3 => 3,
            Nf::N4 => 4,
            Nf::N5 => 5,
            Nf::N6 => 6,
            Nf::N7 => 7,
            Nf::N8 => 8,
        }
    }
}

/// Decoded `vtype`: element width, grouping and the tail/mask agnostic policies.
#[derive(Clone, Copy, Debug, PartialEq, Eq, Structural)]
pub struct Vtype {
    pub vma: bool,
    pub vta: bool,
    pub vsew: Vsew,
    pub vlmul: Vlmul,
}

impl Vtype {
    /// What a successful decode guarantees: `SEW <= ELEN` and `VLMAX >= 1`.
    pub open spec fn legal(self, elen: nat, vlen: nat) -> bool {
        &&& self.vsew.bits() <= elen
        &&& self.vlmul.max_len(vlen, self.vsew) >= 1
    }

    /// Decode a raw `vtype` value for an implementation with the given `ELEN` and `VLEN`:
    /// `vlmul` in bits `[2:0]`, `vsew` in `[5:3]`, `vta` in bit 6, `vma` in bit 7, and every
    /// higher bit (`vill` among them) zero. `None` when a higher bit is set, an encoding is
    /// reserved, `SEW > ELEN`, or `VLMAX` would be zero.
    pub fn from_raw(raw: u64, elen: u32, vlen: u32) -> (r: Option<Vtype>)
        requires
            vlen <= 65536,
        ensures
            r == vtype_of_raw(raw as nat, elen as nat, vlen as nat),
    {
        if raw >= 256 {
            return None;
        }
        let lmul_bits = (raw % 8) as u8;
        let sew_bits = ((raw / 8) % 8) as u8;
        let vta = (raw / 64) % 2 == 1;
        let vma = (raw / 128) % 2 == 1;
        assert(lmul_bits % 8 == lmul_bits && sew_bits % 8 == sew_bits);
        let vlmul = match Vlmul::from_bits(lmul_bits) {
            Some(v) => v,
            None => {
                return None;
            },
        };
        let vsew = match Vsew::from_bits(sew_bits) {
            Some(v) => v,
            None => {
                return None;
            },
        };
        if vsew.bits_width() as u32 > elen {
            return None;
        }
        if vlmul.vlmax(vlen, vsew) == 0 {
            return None;
        }
        Some(Vtype { vma, vta, vsew, vlmul })
    }
}

/// The `vtype` a raw value encodes, as `Vtype::from_raw` describes.
pub open spec fn vtype_of_raw(raw: nat, elen: nat, vlen: nat) -> Option<Vtype> {
    if raw >= 256 {
        None
    } else {
        match (vlmul_of_bits(raw % 8), vsew_of_bits((raw / 8) % 8)) {
            (Some(vlmul), Some(vsew)) => {
                let vt = Vtype {
                    vma: (raw / 128) % 2 == 1,
                    vta: (raw / 64) % 2 == 1,
                    vsew,
                    vlmul,
                };
                if vt.legal(elen, vlen) {
                    Some(vt)
                } else {
                    None
                }
            },
            _ => None,
        }
    }
}

/// Source of the second operand of an element-wise operation.
#[derive(Clone, Copy, Debug)]
pub enum OpSrc {
    /// Vector-vector: base register of the source group.
    Vreg(VReg),
    /// Vector-scalar: a scalar (sign- or zero-extended to 64 bits).
    Scalar(u64),
}

/// Error reported by a memory implementation.
#[derive(Clone, Copy, Debug, PartialEq, Eq, Structural)]
pub struct VirtualMemoryError {
    /// Address of the access that failed.
    pub address: u64,
}

/// Error of an instruction's execution.
#[derive(Clone, Copy, Debug, PartialEq, Eq, Structural)]
pub enum ExecutionError {
    /// The instruction at `address` is illegal in the current state.
    IllegalInstruction { address: u64 },
    /// A memory access failed.
    MemoryAccess(VirtualMemoryError),
}

} // verus!
