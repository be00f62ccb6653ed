use riscv_vector::arith::{read_element_u64, write_element_u64};
use riscv_vector::carry::{
    carry_bit, execute_carry_add, execute_carry_add_mask, execute_carry_sub,
    execute_carry_sub_mask,
};
use riscv_vector::state::VectorState;
use riscv_vector::types::{OpSrc, VReg, Vlmul, Vsew, Vtype};

fn vreg(n: u8) -> VReg {
    VReg::from_bits(n).unwrap()
}

fn configured(vlen: u32, sew: Vsew, vlmul: Vlmul, vl: u32) -> VectorState {
    let mut s = VectorState::new(vlen, 64);
    s.vtype = Some(Vtype { vma: false, vta: false, vsew: sew, vlmul });
    s.vl = vl;
    s
}

fn fill(s: &mut VectorState, reg: u8, sew: Vsew, values: &[u64]) {
    for (i, v) in values.iter().enumerate() {
        write_element_u64(&mut s.regs, vreg(reg), i as u16, sew, *v);
    }
}

fn elements(s: &VectorState, reg: u8, sew: Vsew, n: u16) -> Vec<u64> {
    (0..n).map(|i| read_element_u64(&s.regs, vreg(reg), i, sew)).collect()
}

fn mask_byte(s: &VectorState, reg: u8) -> u8 {
    s.regs.read_byte(reg as usize * s.regs.vlenb() as usize)
}

#[test]
fn carry_bit_reads_v0() {
    let mut s = configured(128, Vsew::E8, Vlmul::M1, 8);
    s.regs.write_byte(1, 0b0000_0100);
    assert_eq!(carry_bit(&s.regs, 10), 1);
    assert_eq!(carry_bit(&s.regs, 9), 0);
}

#[test]
fn vadc_adds_carry_in_and_wraps() {
    let mut s = configured(128, Vsew::E8, Vlmul::M1, 4);
    fill(&mut s, 2, Vsew::E8, &[0xff, 0x10, 0x7f, 0x00]);
    fill(&mut s, 3, Vsew::E8, &[0x01, 0x20, 0x80, 0x00]);
    s.regs.write_byte(0, 0b0000_1010);
    execute_carry_add::<true>(&mut s, vreg(1), vreg(2), OpSrc::Vreg(vreg(3)), Vsew::E8);
    assert_eq!(elements(&s, 1, Vsew::E8, 4), vec![0x00, 0x31, 0xff, 0x01]);
    assert!(s.vs_dirty);
    assert_eq!(s.vstart, 0);
}

#[test]
fn vadc_without_carry_is_plain_add() {
    let mut s = configured(128, Vsew::E16, Vlmul::M1, 2);
    fill(&mut s, 2, Vsew::E16, &[0xffff, 7]);
    s.regs.write_byte(0, 0xff);
    execute_carry_add::<false>(&mut s, vreg(1), vreg(2), OpSrc::Scalar(2), Vsew::E16);
    assert_eq!(elements(&s, 1, Vsew::E16, 2), vec![1, 9]);
}

#[test]
fn vsbc_subtracts_borrow_in() {
    let mut s = configured(128, Vsew::E8, Vlmul::M1, 3);
    fill(&mut s, 2, Vsew::E8, &[5, 0, 10]);
    s.regs.write_byte(0, 0b0000_0101);
    execute_carry_sub(&mut s, vreg(1), vreg(2), OpSrc::Scalar(1), Vsew::E8);
    assert_eq!(elements(&s, 1, Vsew::E8, 3), vec![3, 0xff, 8]);
}

#[test]
fn vadc_respects_vstart() {
    let mut s = configured(128, Vsew::E8, Vlmul::M1, 3);
    fill(&mut s, 2, Vsew::E8, &[1, 1, 1]);
    fill(&mut s, 1, Vsew::E8, &[9, 9, 9]);
    s.vstart = 1;
    execute_carry_add::<true>(&mut s, vreg(1), vreg(2), OpSrc::Scalar(1), Vsew::E8);
    assert_eq!(elements(&s, 1, Vsew::E8, 3), vec![9, 2, 2]);
}

#[test]
fn vmadc_carry_out_bits() {
    let mut s = configured(128, Vsew::E8, Vlmul::M1, 4);
    fill(&mut s, 2, Vsew::E8, &[0xff, 0xfe, 0x80, 0x01]);
    fill(&mut s, 3, Vsew::E8, &[0x01, 0x01, 0x80, 0x01]);
    s.regs.write_byte(0, 0b0000_0010);
    s.regs.write_byte(16, 0xf0);
    execute_carry_add_mask::<true>(&mut s, vreg(1), vreg(2), OpSrc::Vreg(vreg(3)), Vsew::E8);
    // 0xff+1 carries; 0xfe+1+1 carries; 0x80+0x80 carries; 1+1 does not; tail bits kept
    assert_eq!(mask_byte(&s, 1), 0xf7);
    execute_carry_add_mask::<false>(&mut s, vreg(4), vreg(2), OpSrc::Vreg(vreg(3)), Vsew::E8);
    assert_eq!(mask_byte(&s, 4), 0b0000_0101);
}

#[test]
fn vmsbc_borrow_out_bits() {
    let mut s = configured(128, Vsew::E16, Vlmul::M1, 4);
    fill(&mut s, 2, Vsew::E16, &[5, 5, 0, 0xffff]);
    s.regs.write_byte(0, 0b0000_0010);
    execute_carry_sub_mask::<true>(&mut s, vreg(1), vreg(2), OpSrc::Scalar(5), Vsew::E16);
    // 5-5 no borrow; 5-5-1 borrows; 0-5 borrows; 0xffff-5 no borrow
    assert_eq!(mask_byte(&s, 1) & 0x0f, 0b0110);
    execute_carry_sub_mask::<false>(&mut s, vreg(3), vreg(2), OpSrc::Scalar(5), Vsew::E16);
    assert_eq!(mask_byte(&s, 3) & 0x0f, 0b0100);
}

#[test]
fn vadc_and_vmadc_split_the_sum() {
    let a: [u64; 3] = [0xf0, 0x0f, 0xff];
    let b: [u64; 3] = [0x20, 0x01, 0xff];
    let mut s = configured(128, Vsew::E8, Vlmul::M1, 3);
    fill(&mut s, 2, Vsew::E8, &a);
    fill(&mut s, 3, Vsew::E8, &b);
    s.regs.write_byte(0, 0b0000_0101);
    execute_carry_add::<true>(&mut s, vreg(4), vreg(2), OpSrc::Vreg(vreg(3)), Vsew::E8);
    execute_carry_add_mask::<true>(&mut s, vreg(5), vreg(2), OpSrc::Vreg(vreg(3)), Vsew::E8);
    let data = elements(&s, 4, Vsew::E8, 3);
    let carries = mask_byte(&s, 5);
    for i in 0..3 {
        let cin = ((0b101u64) >> i) & 1;
        let cout = ((carries >> i) & 1) as u64;
        assert_eq!(data[i] + cout * 256, a[i] + b[i] + cin);
    }
}

#[test]
fn vsbc_and_vmsbc_split_the_difference() {
    let a: [u64; 3] = [0x10, 0x00, 0x05];
    let b: [u64; 3] = [0x20, 0x00, 0x04];
    let mut s = configured(128, Vsew::E8, Vlmul::M1, 3);
    fill(&mut s, 2, Vsew::E8, &a);
    fill(&mut s, 3, Vsew::E8, &b);
    s.regs.write_byte(0, 0b0000_0110);
    execute_carry_sub(&mut s, vreg(4), vreg(2), OpSrc::Vreg(vreg(3)), Vsew::E8);
    execute_carry_sub_mask::<true>(&mut s, vreg(5), vreg(2), OpSrc::Vreg(vreg(3)), Vsew::E8);
    let data = elements(&s, 4, Vsew::E8, 3);
    let borrows = mask_byte(&s, 5);
    for i in 0..3 {
        let bin = ((0b110i64) >> i) & 1;
        let bout = ((borrows >> i) & 1) as i64;
        assert_eq!(data[i] as i64 - bout * 256, a[i] as i64 - b[i] as i64 - bin);
    }
    assert_eq!(borrows & 0b111, 0b011);
}
