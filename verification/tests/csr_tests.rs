use riscv_vector::csr::{write_vector_csr, CsrError, VectorCsr};
use riscv_vector::state::VectorState;

#[test]
fn csr_numbers_round_trip() {
    let all = [
        (0x008, VectorCsr::Vstart),
        (0x009, VectorCsr::Vxsat),
        (0x00A, VectorCsr::Vxrm),
        (0x00F, VectorCsr::Vcsr),
        (0xC20, VectorCsr::Vl),
        (0xC21, VectorCsr::Vtype),
        (0xC22, VectorCsr::Vlenb),
    ];
    for (index, csr) in all {
        assert_eq!(VectorCsr::from_csr_index(index), Some(csr));
        assert_eq!(csr.to_csr_index(), index);
    }
    assert_eq!(VectorCsr::from_csr_index(0x300), None);
    assert_eq!(VectorCsr::from_csr_index(0x00B), None);
}

#[test]
fn vxsat_and_vxrm_writes_mirror_into_vcsr() {
    let mut s = VectorState::new(128, 64);
    assert_eq!(write_vector_csr(&mut s, 0x00A, 0b1110), Ok(Some(0b10)));
    assert_eq!(s.vxrm, 2);
    assert!(!s.vxsat);
    assert_eq!(s.vcsr(), 0b100);
    assert_eq!(write_vector_csr(&mut s, 0x009, 0xff), Ok(Some(1)));
    assert!(s.vxsat);
    assert_eq!(s.vxrm, 2);
    assert_eq!(s.vcsr(), 0b101);
}

#[test]
fn vcsr_write_sets_vxsat_and_vxrm() {
    let mut s = VectorState::new(128, 64);
    assert_eq!(write_vector_csr(&mut s, 0x00F, 0xfb), Ok(Some(0b011)));
    assert!(s.vxsat);
    assert_eq!(s.vxrm, 1);
    assert_eq!(s.vcsr(), 0b011);
}

#[test]
fn vstart_write_saturates() {
    let mut s = VectorState::new(128, 64);
    assert_eq!(write_vector_csr(&mut s, 0x008, 7), Ok(Some(7)));
    assert_eq!(s.vstart, 7);
    assert_eq!(write_vector_csr(&mut s, 0x008, 0x1_0000), Ok(Some(0xffff)));
    assert_eq!(s.vstart, 0xffff);
}

#[test]
fn read_only_and_foreign_csrs() {
    let mut s = VectorState::new(128, 64);
    for index in [0xC20u16, 0xC21, 0xC22] {
        assert_eq!(write_vector_csr(&mut s, index, 1), Err(CsrError::ReadOnly { csr_index: index }));
    }
    assert_eq!(write_vector_csr(&mut s, 0x300, 1), Ok(None));
    assert_eq!(s.vstart, 0);
    assert_eq!(s.vxrm, 0);
    assert!(!s.vxsat);
}
