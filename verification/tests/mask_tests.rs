use riscv_vector::arith::read_element_u64;
use riscv_vector::mask::{
    execute_mask_logical_op, execute_vcpop, execute_vfirst, execute_vid, execute_viota,
    execute_vmsbf, execute_vmsif, execute_vmsof,
};
use riscv_vector::state::VectorState;
use riscv_vector::types::{VReg, Vlmul, Vsew, Vtype};

fn vreg(n: u8) -> VReg {
    VReg::from_bits(n).unwrap()
}

fn configured(vlen: u32, sew: Vsew, vlmul: Vlmul, vl: u32) -> VectorState {
    let mut s = VectorState::new(vlen, 64);
    s.vtype = Some(Vtype { vma: false, vta: false, vsew: sew, vlmul });
    s.vl = vl;
    s
}

fn set_byte(s: &mut VectorState, reg: u8, k: usize, b: u8) {
    let off = reg as usize * s.regs.vlenb() as usize + k;
    s.regs.write_byte(off, b);
}

fn byte(s: &VectorState, reg: u8, k: usize) -> u8 {
    s.regs.read_byte(reg as usize * s.regs.vlenb() as usize + k)
}

#[test]
fn mask_logical_and_with_prestart_and_tail_undisturbed() {
    let mut s = configured(128, Vsew::E8, Vlmul::M1, 6);
    s.vstart = 2;
    set_byte(&mut s, 2, 0, 0b1111_0110);
    set_byte(&mut s, 3, 0, 0b0101_1100);
    set_byte(&mut s, 1, 0, 0b1100_0011);
    execute_mask_logical_op(&mut s, vreg(1), vreg(2), vreg(3), |a: bool, b: bool| a && b);
    // bits 0,1 (prestart) and 6,7 (tail) keep 1,1 and 1,1; bits 2..6 are 2&3 = 0b0101
    assert_eq!(byte(&s, 1, 0), 0b1101_0111);
    assert_eq!(s.vstart, 0);
    assert!(s.vs_dirty);
}

#[test]
fn mask_logical_destination_may_overlap_sources() {
    let mut s = configured(128, Vsew::E8, Vlmul::M1, 8);
    set_byte(&mut s, 2, 0, 0b1010_1010);
    set_byte(&mut s, 3, 0, 0b1100_1100);
    execute_mask_logical_op(&mut s, vreg(2), vreg(2), vreg(3), |a: bool, b: bool| a ^ b);
    assert_eq!(byte(&s, 2, 0), 0b0110_0110);
}

#[test]
fn vcpop_counts_active_set_bits() {
    let mut s = configured(128, Vsew::E8, Vlmul::M1, 10);
    set_byte(&mut s, 2, 0, 0b1011_0110);
    set_byte(&mut s, 2, 1, 0b0000_1111);
    // bits 8 and 9 counted, 10 and 11 beyond vl
    assert_eq!(execute_vcpop(&mut s, vreg(2), true), 7);
    assert!(s.vs_dirty);
    // masked: v0 enables even elements only
    set_byte(&mut s, 0, 0, 0b0101_0101);
    set_byte(&mut s, 0, 1, 0b0000_0101);
    assert_eq!(execute_vcpop(&mut s, vreg(2), false), 3);
}

#[test]
fn vcpop_skips_elements_below_vstart() {
    let mut s = configured(128, Vsew::E8, Vlmul::M1, 8);
    set_byte(&mut s, 2, 0, 0b1111_1111);
    s.vstart = 3;
    assert_eq!(execute_vcpop(&mut s, vreg(2), true), 5);
    assert_eq!(s.vstart, 0);
}

#[test]
fn vfirst_finds_lowest_active_set_bit() {
    let mut s = configured(128, Vsew::E8, Vlmul::M1, 16);
    set_byte(&mut s, 2, 1, 0b0010_0100);
    assert_eq!(execute_vfirst(&mut s, vreg(2), true), 10);
    // masked off element 10: next is 13
    set_byte(&mut s, 0, 0, 0xff);
    set_byte(&mut s, 0, 1, 0b1111_1011);
    assert_eq!(execute_vfirst(&mut s, vreg(2), false), 13);
}

#[test]
fn vfirst_none_is_minus_one() {
    let mut s = configured(128, Vsew::E8, Vlmul::M1, 8);
    set_byte(&mut s, 2, 1, 0xff);
    assert_eq!(execute_vfirst(&mut s, vreg(2), true), -1);
    assert_eq!(execute_vcpop(&mut s, vreg(2), true), 0);
}

#[test]
fn set_before_including_only_first() {
    let mut s = configured(128, Vsew::E8, Vlmul::M1, 8);
    set_byte(&mut s, 2, 0, 0b0001_0100);
    set_byte(&mut s, 1, 1, 0xaa);
    execute_vmsbf(&mut s, vreg(1), vreg(2), true, 8);
    assert_eq!(byte(&s, 1, 0), 0b0000_0011);
    assert_eq!(byte(&s, 1, 1), 0xaa);
    execute_vmsif(&mut s, vreg(3), vreg(2), true, 8);
    assert_eq!(byte(&s, 3, 0), 0b0000_0111);
    execute_vmsof(&mut s, vreg(4), vreg(2), true, 8);
    assert_eq!(byte(&s, 4, 0), 0b0000_0100);
    assert!(s.vs_dirty);
}

#[test]
fn set_first_without_any_set_bit() {
    let mut s = configured(128, Vsew::E8, Vlmul::M1, 8);
    execute_vmsbf(&mut s, vreg(1), vreg(2), true, 8);
    assert_eq!(byte(&s, 1, 0), 0xff);
    execute_vmsif(&mut s, vreg(3), vreg(2), true, 8);
    assert_eq!(byte(&s, 3, 0), 0xff);
    execute_vmsof(&mut s, vreg(4), vreg(2), true, 8);
    assert_eq!(byte(&s, 4, 0), 0x00);
}

#[test]
fn set_first_masked_ignores_disabled_bits() {
    let mut s = configured(128, Vsew::E8, Vlmul::M1, 8);
    // vs2 bits 1 and 4; element 1 disabled
    set_byte(&mut s, 2, 0, 0b0001_0010);
    set_byte(&mut s, 0, 0, 0b1111_1101);
    set_byte(&mut s, 1, 0, 0b0000_0010);
    execute_vmsbf(&mut s, vreg(1), vreg(2), false, 8);
    // bit 1 undisturbed (was 1); bits 0,2,3 set; 4.. clear
    assert_eq!(byte(&s, 1, 0), 0b0000_1111);
    execute_vmsof(&mut s, vreg(3), vreg(2), false, 8);
    assert_eq!(byte(&s, 3, 0), 0b0001_0000);
}

#[test]
fn viota_prefix_counts() {
    let mut s = configured(128, Vsew::E8, Vlmul::M1, 6);
    set_byte(&mut s, 2, 0, 0b0010_1101);
    execute_viota(&mut s, vreg(4), vreg(2), true, 6, Vsew::E8);
    let got: Vec<u64> = (0..6).map(|i| read_element_u64(&s.regs, vreg(4), i, Vsew::E8)).collect();
    assert_eq!(got, vec![0, 1, 1, 2, 3, 3]);
    assert_eq!(s.vstart, 0);
    assert!(s.vs_dirty);
}

#[test]
fn viota_masked_counts_only_enabled() {
    let mut s = configured(128, Vsew::E16, Vlmul::M1, 4);
    set_byte(&mut s, 2, 0, 0b0000_1111);
    set_byte(&mut s, 0, 0, 0b0000_1101);
    for i in 0..4u16 {
        riscv_vector::arith::write_element_u64(&mut s.regs, vreg(4), i, Vsew::E16, 99);
    }
    execute_viota(&mut s, vreg(4), vreg(2), false, 4, Vsew::E16);
    let got: Vec<u64> = (0..4).map(|i| read_element_u64(&s.regs, vreg(4), i, Vsew::E16)).collect();
    assert_eq!(got, vec![0, 99, 1, 2]);
}

#[test]
fn viota_wraps_at_sew() {
    let mut s = configured(2048, Vsew::E8, Vlmul::M2, 260);
    for k in 0..33usize {
        set_byte(&mut s, 8, k, 0xff);
    }
    execute_viota(&mut s, vreg(4), vreg(8), true, 260, Vsew::E8);
    assert_eq!(read_element_u64(&s.regs, vreg(4), 255, Vsew::E8), 255);
    assert_eq!(read_element_u64(&s.regs, vreg(4), 256, Vsew::E8), 0);
    assert_eq!(read_element_u64(&s.regs, vreg(4), 259, Vsew::E8), 3);
}

#[test]
fn vid_writes_indices() {
    let mut s = configured(128, Vsew::E32, Vlmul::M2, 6);
    s.vstart = 1;
    riscv_vector::arith::write_element_u64(&mut s.regs, vreg(2), 0, Vsew::E32, 77);
    riscv_vector::arith::write_element_u64(&mut s.regs, vreg(2), 6, Vsew::E32, 88);
    execute_vid(&mut s, vreg(2), true, Vsew::E32);
    let got: Vec<u64> = (0..7).map(|i| read_element_u64(&s.regs, vreg(2), i, Vsew::E32)).collect();
    assert_eq!(got, vec![77, 1, 2, 3, 4, 5, 88]);
    assert_eq!(s.vstart, 0);
}

#[test]
fn only_first_is_including_first_without_before_first() {
    for pattern in [0u8, 1, 0b0110_0000, 0b1000_0000, 0b0101_1010, 0xff] {
        let mut s = configured(128, Vsew::E8, Vlmul::M1, 8);
        set_byte(&mut s, 2, 0, pattern);
        execute_vmsbf(&mut s, vreg(4), vreg(2), true, 8);
        execute_vmsif(&mut s, vreg(5), vreg(2), true, 8);
        execute_vmsof(&mut s, vreg(6), vreg(2), true, 8);
        let sbf = byte(&s, 4, 0);
        let sif = byte(&s, 5, 0);
        let sof = byte(&s, 6, 0);
        assert_eq!(sof, sif & !sbf);
        assert_eq!(sbf & !sif, 0);
    }
}

#[test]
fn vfirst_searches_from_element_zero_whatever_vstart() {
    let mut s = configured(128, Vsew::E8, Vlmul::M1, 16);
    set_byte(&mut s, 2, 0, 0b0000_0100);
    s.vstart = 5;
    // the only set bit, element 2, lies below vstart and is still found
    assert_eq!(execute_vfirst(&mut s, vreg(2), true), 2);
    assert_eq!(s.vstart, 0);
    // vcpop counts from vstart only
    s.vstart = 5;
    assert_eq!(execute_vcpop(&mut s, vreg(2), true), 0);
}
