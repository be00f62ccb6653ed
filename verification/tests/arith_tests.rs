use riscv_vector::arith::{
    check_mask_dest_overlap, check_vreg_group_alignment, execute_arith_op, execute_compare_op,
    read_element_u64, sew_mask, sign_extend, write_element_u64, write_mask_bit,
};
use riscv_vector::register_file::VectorRegisterFile;
use riscv_vector::state::VectorState;
use riscv_vector::types::{ExecutionError, OpSrc, VReg, Vlmul, Vsew, Vtype};

fn vreg(n: u8) -> VReg {
    VReg::from_bits(n).unwrap()
}

fn configured(vlen: u32, sew: Vsew, vlmul: Vlmul, vl: u32) -> VectorState {
    let mut s = VectorState::new(vlen, 64);
    s.vtype = Some(Vtype { vma: false, vta: false, vsew: sew, vlmul });
    s.vl = vl;
    s
}

fn mask_bit_of(regs: &VectorRegisterFile, reg: u8, i: u16) -> bool {
    let off = reg as usize * regs.vlenb() as usize + (i / 8) as usize;
    (regs.read_byte(off) >> (i % 8)) & 1 == 1
}

#[test]
fn sign_extend_values() {
    assert_eq!(sign_extend(0x80, Vsew::E8), -128);
    assert_eq!(sign_extend(0x7f, Vsew::E8), 127);
    assert_eq!(sign_extend(0x1234_ff80, Vsew::E8), -128);
    assert_eq!(sign_extend(0xffff_ffff, Vsew::E32), -1);
    assert_eq!(sign_extend(0x8000, Vsew::E16), -32768);
    assert_eq!(sign_extend(u64::MAX, Vsew::E64), -1);
    assert_eq!(sign_extend(5, Vsew::E64), 5);
}

#[test]
fn sew_mask_values() {
    assert_eq!(sew_mask(Vsew::E8), 0xff);
    assert_eq!(sew_mask(Vsew::E16), 0xffff);
    assert_eq!(sew_mask(Vsew::E32), 0xffff_ffff);
    assert_eq!(sew_mask(Vsew::E64), u64::MAX);
}

#[test]
fn vreg_group_alignment() {
    assert_eq!(check_vreg_group_alignment(0x100, vreg(4), 4), Ok(()));
    assert_eq!(check_vreg_group_alignment(0x100, vreg(24), 8), Ok(()));
    assert_eq!(
        check_vreg_group_alignment(0x100, vreg(2), 4),
        Err(ExecutionError::IllegalInstruction { address: 0x100 })
    );
    assert_eq!(
        check_vreg_group_alignment(0x40, vreg(28), 8),
        Err(ExecutionError::IllegalInstruction { address: 0x40 })
    );
    assert_eq!(check_vreg_group_alignment(0x100, vreg(31), 1), Ok(()));
}

#[test]
fn mask_dest_overlap_rules() {
    // vd is the group's base register: allowed
    assert_eq!(check_mask_dest_overlap(8, vreg(4), vreg(4), 4), Ok(()));
    // vd outside the group: allowed
    assert_eq!(check_mask_dest_overlap(8, vreg(8), vreg(4), 4), Ok(()));
    // vd inside the group past its base: illegal
    assert_eq!(
        check_mask_dest_overlap(8, vreg(5), vreg(4), 4),
        Err(ExecutionError::IllegalInstruction { address: 8 })
    );
    // single-register groups never conflict
    assert_eq!(check_mask_dest_overlap(8, vreg(5), vreg(5), 1), Ok(()));
}

#[test]
fn element_write_read_back_truncates() {
    let mut regs = VectorRegisterFile::new(128);
    write_element_u64(&mut regs, vreg(3), 2, Vsew::E16, 0x1_2345);
    assert_eq!(read_element_u64(&regs, vreg(3), 2, Vsew::E16), 0x2345);
    // neighbours untouched
    assert_eq!(read_element_u64(&regs, vreg(3), 1, Vsew::E16), 0);
    assert_eq!(read_element_u64(&regs, vreg(3), 3, Vsew::E16), 0);
    // little-endian layout: element 2 of e16 is bytes 4 and 5 of v3
    let base = 3 * 16;
    assert_eq!(regs.read_byte(base + 4), 0x45);
    assert_eq!(regs.read_byte(base + 5), 0x23);
    // elements past the first register of a group continue in the next register
    write_element_u64(&mut regs, vreg(4), 9, Vsew::E32, 0xdead_beef);
    assert_eq!(read_element_u64(&regs, vreg(5), 5, Vsew::E32), 0xdead_beef);
}

#[test]
fn mask_bit_write_only_touches_target() {
    let mut regs = VectorRegisterFile::new(128);
    write_mask_bit(&mut regs, vreg(1), 9, true);
    assert!(mask_bit_of(&regs, 1, 9));
    assert!(!mask_bit_of(&regs, 1, 8));
    assert!(!mask_bit_of(&regs, 1, 10));
    write_mask_bit(&mut regs, vreg(1), 8, true);
    write_mask_bit(&mut regs, vreg(1), 9, false);
    assert!(!mask_bit_of(&regs, 1, 9));
    assert!(mask_bit_of(&regs, 1, 8));
}

#[test]
fn arith_add_scalar_wraps_at_sew() {
    let mut s = configured(128, Vsew::E32, Vlmul::M1, 4);
    for (i, v) in [1u64, 2, 3, 0xffff_ffff].iter().enumerate() {
        write_element_u64(&mut s.regs, vreg(2), i as u16, Vsew::E32, *v);
    }
    execute_arith_op(&mut s, vreg(1), vreg(2), OpSrc::Scalar(1), true, Vsew::E32, |a: u64, b: u64, _sew: Vsew| a.wrapping_add(b));
    let got: Vec<u64> = (0..4).map(|i| read_element_u64(&s.regs, vreg(1), i, Vsew::E32)).collect();
    assert_eq!(got, vec![2, 3, 4, 0]);
    assert!(s.vs_dirty);
    assert_eq!(s.vstart, 0);
}

#[test]
fn arith_masked_leaves_inactive_elements() {
    let mut s = configured(128, Vsew::E8, Vlmul::M1, 4);
    // mask bits 0 and 2 set
    s.regs.write_byte(0, 0b0101);
    for i in 0..4u16 {
        write_element_u64(&mut s.regs, vreg(2), i, Vsew::E8, 10 + i as u64);
        write_element_u64(&mut s.regs, vreg(3), i, Vsew::E8, 0x77);
    }
    // tail element stays too
    write_element_u64(&mut s.regs, vreg(3), 4, Vsew::E8, 0x55);
    execute_arith_op(&mut s, vreg(3), vreg(2), OpSrc::Scalar(5), false, Vsew::E8, |a: u64, b: u64, _sew: Vsew| a.wrapping_sub(b));
    let got: Vec<u64> = (0..5).map(|i| read_element_u64(&s.regs, vreg(3), i, Vsew::E8)).collect();
    assert_eq!(got, vec![5, 0x77, 7, 0x77, 0x55]);
}

#[test]
fn arith_respects_vstart() {
    let mut s = configured(128, Vsew::E16, Vlmul::M1, 4);
    s.vstart = 2;
    for i in 0..4u16 {
        write_element_u64(&mut s.regs, vreg(2), i, Vsew::E16, 100);
        write_element_u64(&mut s.regs, vreg(4), i, Vsew::E16, 3);
    }
    execute_arith_op(&mut s, vreg(6), vreg(2), OpSrc::Vreg(vreg(4)), true, Vsew::E16, |a: u64, b: u64, _sew: Vsew| a * b);
    let got: Vec<u64> = (0..4).map(|i| read_element_u64(&s.regs, vreg(6), i, Vsew::E16)).collect();
    assert_eq!(got, vec![0, 0, 300, 300]);
    assert_eq!(s.vstart, 0);
}

#[test]
fn compare_writes_mask_bits_and_keeps_tail() {
    let mut s = configured(128, Vsew::E8, Vlmul::M1, 4);
    for (i, v) in [1u64, 5, 5, 9].iter().enumerate() {
        write_element_u64(&mut s.regs, vreg(2), i as u16, Vsew::E8, *v);
    }
    // tail bits 4..8 of v1 set beforehand
    s.regs.write_byte(16, 0xf0);
    execute_compare_op(&mut s, vreg(1), vreg(2), OpSrc::Scalar(5), true, Vsew::E8, |a: u64, b: u64, _sew: Vsew| a == b);
    assert_eq!(s.regs.read_byte(16), 0xf6);
    assert!(s.vs_dirty);
}

#[test]
fn compare_signed_less_than() {
    let mut s = configured(128, Vsew::E8, Vlmul::M1, 3);
    for (i, v) in [0x80u64, 0x01, 0xff].iter().enumerate() {
        write_element_u64(&mut s.regs, vreg(2), i as u16, Vsew::E8, *v);
    }
    execute_compare_op(&mut s, vreg(1), vreg(2), OpSrc::Scalar(0), true, Vsew::E8, |a: u64, b: u64, sew: Vsew| sign_extend(a, sew) < sign_extend(b, sew));
    assert!(mask_bit_of(&s.regs, 1, 0));
    assert!(!mask_bit_of(&s.regs, 1, 1));
    assert!(mask_bit_of(&s.regs, 1, 2));
}

#[test]
fn sign_extend_reads_only_low_bits() {
    for sew in [Vsew::E8, Vsew::E16, Vsew::E32, Vsew::E64] {
        let mask = sew_mask(sew);
        let half = ((mask >> 1) as i64) + 1;
        for val in [0u64, 1, 0x7f, 0x80, 0xff, 0x1234_5678_9abc_def0, u64::MAX, 0x8000_0000_0000_0000] {
            let r = sign_extend(val, sew);
            assert_eq!(r, sign_extend(val & mask, sew));
            assert!(-half <= r && (r < half || sew == Vsew::E64));
            assert_eq!((r as u64) & mask, val & mask);
        }
    }
    assert_eq!(sign_extend(0x8000_0000_0000_0000, Vsew::E64), i64::MIN);
}
