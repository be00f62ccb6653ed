use riscv_vector::state::VectorState;
use riscv_vector::types::{VReg, Vlmul, Vsew, Vtype};

#[test]
fn new_state_is_reset_configuration() {
    let s = VectorState::new(256, 32);
    assert_eq!(s.vtype, None);
    assert_eq!(s.vl, 0);
    assert_eq!(s.vstart, 0);
    assert_eq!(s.vxrm, 0);
    assert!(!s.vxsat);
    assert!(s.vector_allowed);
    assert!(!s.vs_dirty);
    assert_eq!(s.regs.vlenb(), 32);
    assert_eq!(s.elen, 32);
}

#[test]
fn initialize_resets_csrs_and_keeps_registers() {
    let mut s = VectorState::new(128, 64);
    s.vtype = Some(Vtype { vma: true, vta: true, vsew: Vsew::E8, vlmul: Vlmul::M1 });
    s.vl = 5;
    s.vstart = 2;
    s.vxrm = 3;
    s.vxsat = true;
    s.regs.write_byte(17, 0xab);
    s.initialize_vector_state();
    assert_eq!(s.vtype, None);
    assert_eq!(s.vl, 0);
    assert_eq!(s.vstart, 0);
    assert_eq!(s.vxrm, 0);
    assert!(!s.vxsat);
    assert_eq!(s.regs.read_byte(17), 0xab);
}

#[test]
fn vcsr_packs_vxrm_and_vxsat() {
    let mut s = VectorState::new(128, 64);
    s.vxrm = 2;
    s.vxsat = true;
    assert_eq!(s.vcsr(), 0b101);
    s.vxsat = false;
    assert_eq!(s.vcsr(), 0b100);
}

#[test]
fn vlmax_for_vtype_values() {
    let s = VectorState::new(512, 64);
    assert_eq!(s.vlmax_for_vtype(Vtype { vma: false, vta: false, vsew: Vsew::E64, vlmul: Vlmul::M8 }), 64);
    assert_eq!(s.vlmax_for_vtype(Vtype { vma: false, vta: false, vsew: Vsew::E8, vlmul: Vlmul::Mf4 }), 16);
}

#[test]
fn mark_dirty_and_reset_vstart() {
    let mut s = VectorState::new(128, 64);
    s.vstart = 9;
    s.mark_vs_dirty();
    assert!(s.vs_dirty);
    assert_eq!(s.vstart, 9);
    s.reset_vstart();
    assert_eq!(s.vstart, 0);
}

#[test]
fn register_get_set_whole_register() {
    let mut s = VectorState::new(128, 64);
    let data: Vec<u8> = (0..16u8).collect();
    s.regs.set(VReg::from_bits(7).unwrap(), &data);
    assert_eq!(s.regs.get(VReg::from_bits(7).unwrap()), data);
    assert_eq!(s.regs.get(VReg::from_bits(6).unwrap()), vec![0u8; 16]);
    assert_eq!(s.regs.read_bytes(7 * 16 + 2, 2), 0x0302);
}
