//! Zicsr access to the vector CSRs: which CSR numbers are vector CSRs, and how a write is
//! sanitized (WARL) and mirrored between `vcsr` and `vxsat`/`vxrm`.

use vstd::prelude::*;
use crate::state::VectorState;

verus! {

/// The vector CSRs.
#[derive(Clone, Copy, Debug, PartialEq, Eq, Structural)]
pub enum VectorCsr {
    Vstart,
    Vxsat,
    Vxrm,
    Vcsr,
    Vl,
    Vtype,
    Vlenb,
}

/// The vector CSR with number `index`, if any.
pub open spec fn vector_csr_of(index: u16) -> Option<VectorCsr> {
    if index == 0x008 {
        Some(VectorCsr::Vstart)
    } else if index == 0x009 {
        Some(VectorCsr::Vxsat)
    } else if index == 0x00A {
        Some(VectorCsr::Vxrm)
    } else if index == 0x00F {
        Some(VectorCsr::Vcsr)
    } else if index == 0xC20 {
        Some(VectorCsr::Vl)
    } else if index == 0xC21 {
        Some(VectorCsr::Vtype)
    } else if index == 0xC22 {
        Some(VectorCsr::Vlenb)
    } else {
        None
    }
}

/// The CSR number of `csr`.
pub open spec fn csr_number(csr: VectorCsr) -> u16 {
    match csr {
        VectorCsr::Vstart => 0x008,
        VectorCsr::Vxsat => 0x009,
        VectorCsr::Vxrm => 0x00A,
        VectorCsr::Vcsr => 0x00F,
        VectorCsr::Vl => 0xC20,
        VectorCsr::Vtype => 0xC21,
        VectorCsr::Vlenb => 0xC22,
    }
}

impl VectorCsr {
    /// The vector CSR with number `index`, if any.
    pub fn from_csr_index(index: u16) -> (r: Option<VectorCsr>)
        ensures
            r == vector_csr_of(index),
    {
        match index {
            0x008 => Some(VectorCsr::Vstart),
            0x009 => Some(VectorCsr::Vxsat),
            0x00A => Some(VectorCsr::Vxrm),
            0x00F => Some(VectorCsr::Vcsr),
            0xC20 => Some(VectorCsr::Vl),
            0xC21 => Some(VectorCsr::Vtype),
            0xC22 => Some(VectorCsr::Vlenb),
            _ => None,
        }
    }

    /// The CSR number of this CSR.
    pub fn to_csr_index(self) -> (r: u16)
        ensures
            r == csr_number(self),
    {
        match self {
            VectorCsr::Vstart => 0x008,
            VectorCsr::Vxsat => 0x009,
            VectorCsr::Vxrm => 0x00A,
            VectorCsr::Vcsr => 0x00F,
            VectorCsr::Vl => 0xC20,
            VectorCsr::Vtype => 0xC21,
            VectorCsr::Vlenb => 0xC22,
        }
    }
}

/// A refused CSR access.
#[derive(Clone, Copy, Debug, PartialEq, Eq, Structural)]
pub enum CsrError {
    /// `vl`, `vtype` and `vlenb` cannot be written by Zicsr instructions.
    ReadOnly { csr_index: u16 },
}

/// The value a Zicsr write of `value` leaves in `csr` (WARL): `vstart` saturates at `2^16 - 1`,
/// `vxsat` keeps bit 0, `vxrm` bits `[1:0]`, `vcsr` bits `[2:0]`.
pub open spec fn sanitized_csr_value(csr: VectorCsr, value: u64) -> u64 {
    match csr {
        VectorCsr::Vstart => if value <= 0xffff {
            value
        } else {
            0xffff
        },
        VectorCsr::Vxsat => value % 2,
        VectorCsr::Vxrm => value % 4,
        VectorCsr::Vcsr => value % 8,
        _ => value,
    }
}

/// Whether `csr` is read-only to Zicsr instructions.
pub open spec fn csr_read_only(csr: VectorCsr) -> bool {
    csr == VectorCsr::Vl || csr == VectorCsr::Vtype || csr == VectorCsr::Vlenb
}

/// The value Zicsr reads from a writable vector CSR of `s`: `vcsr` is `vxrm` in bits `[2:1]` and
/// `vxsat` in bit 0.
pub open spec fn csr_value(s: VectorState, csr: VectorCsr) -> nat {
    let sat: nat = if s.vxsat {
        1
    } else {
        0
    };
    match csr {
        VectorCsr::Vstart => s.vstart as nat,
        VectorCsr::Vxsat => sat,
        VectorCsr::Vxrm => s.vxrm as nat,
        VectorCsr::Vcsr => (s.vxrm * 2 + sat) as nat,
        _ => 0,
    }
}

/// `new` is `old` after a Zicsr write of `value` to the writable CSR `csr`: the sanitized value
/// lands in `csr` (for `vcsr`: in `vxsat` and `vxrm`), everything else is kept.
pub open spec fn csr_written(old: VectorState, new: VectorState, csr: VectorCsr, value: u64) -> bool {
    let v = sanitized_csr_value(csr, value);
    &&& new.regs == old.regs
    &&& new.vl == old.vl
    &&& new.vtype == old.vtype
    &&& new.vs_dirty == old.vs_dirty
    &&& new.vector_allowed == old.vector_allowed
    &&& new.elen == old.elen
    &&& new.vstart == (if csr == VectorCsr::Vstart {
        v as u16
    } else {
        old.vstart
    })
    &&& new.vxsat == (if csr == VectorCsr::Vxsat || csr == VectorCsr::Vcsr {
        v % 2 == 1
    } else {
        old.vxsat
    })
    &&& new.vxrm == (if csr == VectorCsr::Vxrm {
        v as u8
    } else if csr == VectorCsr::Vcsr {
        (v / 2) as u8
    } else {
        old.vxrm
    })
}

/// Write `write_value` to the CSR numbered `csr_index` from a Zicsr instruction.
///
/// Not a vector CSR: `Ok(None)` and nothing changes. `vl`, `vtype`, `vlenb`: refused as
/// read-only, nothing changes. Otherwise the value is sanitized (`sanitized_csr_value`), stored,
/// and returned: writing `vxsat` or `vxrm` shows in the matching bits of `vcsr`, writing `vcsr`
/// sets `vxsat` from its bit 0 and `vxrm` from its bits `[2:1]`, and nothing else changes.
pub fn write_vector_csr(state: &mut VectorState, csr_index: u16, write_value: u64) -> (r: Result<
    Option<u64>,
    CsrError,
>)
    requires
        old(state).wf(),
    ensures
        final(state).wf(),
        vector_csr_of(csr_index) is None ==> r == Ok::<Option<u64>, CsrError>(None) && *final(state)
            == *old(state),
        vector_csr_of(csr_index) is Some && csr_read_only(vector_csr_of(csr_index)->Some_0) ==> r
            == Err::<Option<u64>, CsrError>(CsrError::ReadOnly { csr_index }) && *final(state)
            == *old(state),
        vector_csr_of(csr_index) is Some && !csr_read_only(vector_csr_of(csr_index)->Some_0) ==> {
            let csr = vector_csr_of(csr_index)->Some_0;
            &&& r == Ok::<Option<u64>, CsrError>(Some(sanitized_csr_value(csr, write_value)))
            &&& csr_written(*old(state), *final(state), csr, write_value)
        },
{
    let csr = match VectorCsr::from_csr_index(csr_index) {
        Some(c) => c,
        None => {
            return Ok(None);
        },
    };
    match csr {
        VectorCsr::Vstart => {
            let v: u64 = if write_value <= 0xffff {
                write_value
            } else {
                0xffff
            };
            state.vstart = v as u16;
            Ok(Some(v))
        },
        VectorCsr::Vxsat => {
            let v: u64 = write_value & 1;
            proof {
                assert(write_value & 1 == write_value % 2) by (bit_vector);
            }
            state.vxsat = v == 1;
            Ok(Some(v))
        },
        VectorCsr::Vxrm => {
            let v: u64 = write_value & 3;
            proof {
                assert(write_value & 3 == write_value % 4) by (bit_vector);
            }
            state.vxrm = v as u8;
            Ok(Some(v))
        },
        VectorCsr::Vcsr => {
            let v: u64 = write_value & 7;
            proof {
                assert(write_value & 7 == write_value % 8) by (bit_vector);
            }
            state.vxsat = v % 2 == 1;
            state.vxrm = (v / 2) as u8;
            Ok(Some(v))
        },
        VectorCsr::Vl | VectorCsr::Vtype | VectorCsr::Vlenb => Err(
            CsrError::ReadOnly { csr_index },
        ),
    }
}

/// A Zicsr write of `value` to a writable vector CSR reads back as its sanitized value; a
/// write to `vxsat` or `vxrm` keeps the other's field of `vcsr`, and a write to `vcsr` reads back
/// through `vxsat` and `vxrm` as its bit 0 and its bits `[2:1]`.
pub proof fn lemma_csr_write_read(old: VectorState, new: VectorState, csr: VectorCsr, value: u64)
    requires
        old.wf(),
        !csr_read_only(csr),
        csr_written(old, new, csr, value),
    ensures
        csr_value(new, csr) == sanitized_csr_value(csr, value),
        csr == VectorCsr::Vxsat ==> csr_value(new, VectorCsr::Vxrm) == csr_value(old, VectorCsr::Vxrm),
        csr == VectorCsr::Vxrm ==> csr_value(new, VectorCsr::Vxsat) == csr_value(old, VectorCsr::Vxsat),
        csr == VectorCsr::Vcsr ==> {
            &&& csr_value(new, VectorCsr::Vxsat) == value % 2
            &&& csr_value(new, VectorCsr::Vxrm) == (value / 2) % 4
        },
{
    assert((value % 8) % 2 == value % 2 && (value % 8) / 2 == (value / 2) % 4 && value % 2 < 2
        && value % 4 < 4 && value % 8 < 8) by (bit_vector);
    assert(((value % 8) / 2) * 2 + (value % 8) % 2 == value % 8) by (bit_vector);
}

} // verus!
