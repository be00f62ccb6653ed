use riscv_vector::arith::{read_element_u64, write_element_u64};
use riscv_vector::muldiv::{
    check_no_widening_overlap, execute_muladd_op, execute_muladd_scalar_op,
    execute_widening_muladd_op, execute_widening_muladd_scalar_op, execute_widening_op, mulh_ss,
    mulhsu_su, mulhu_uu, read_wide_element_u64, sdiv, srem, widening_dest_register_count,
    widening_eew_supported, write_wide_element_u64,
};
use riscv_vector::register_file::VectorRegisterFile;
use riscv_vector::state::VectorState;
use riscv_vector::types::{ExecutionError, OpSrc, VReg, Vlmul, Vsew, Vtype};

fn vreg(n: u8) -> VReg {
    VReg::from_bits(n).unwrap()
}

fn configured(vlen: u32, sew: Vsew, vlmul: Vlmul, vl: u32) -> VectorState {
    let mut s = VectorState::new(vlen, 64);
    s.vtype = Some(Vtype { vma: false, vta: false, vsew: sew, vlmul });
    s.vl = vl;
    s
}

#[test]
fn mulh_signed_signed() {
    assert_eq!(mulh_ss(0x80, 0x80, Vsew::E8), 0x40);
    assert_eq!(mulh_ss(0x80, 0x7f, Vsew::E8), 0xc0);
    assert_eq!(mulh_ss(u64::MAX, u64::MAX, Vsew::E64), 0);
    assert_eq!(mulh_ss(i64::MIN as u64, i64::MIN as u64, Vsew::E64), 0x4000_0000_0000_0000);
    assert_eq!(mulh_ss(0xffff_ffff, 2, Vsew::E32), 0xffff_ffff);
}

#[test]
fn mulh_unsigned_unsigned() {
    assert_eq!(mulhu_uu(0xff, 0xff, Vsew::E8), 0xfe);
    assert_eq!(mulhu_uu(u64::MAX, u64::MAX, Vsew::E64), 0xffff_ffff_ffff_fffe);
    assert_eq!(mulhu_uu(0x1_0000_0002, 0x1_0000_0003, Vsew::E32), 0);
}

#[test]
fn mulh_signed_unsigned() {
    assert_eq!(mulhsu_su(0xff, 0xff, Vsew::E8), 0xff);
    assert_eq!(mulhsu_su(u64::MAX, 2, Vsew::E64), u64::MAX);
    assert_eq!(mulhsu_su(2, u64::MAX, Vsew::E64), 1);
    assert_eq!(mulhsu_su(0x7fff, 0xffff, Vsew::E16), 0x7ffe);
}

#[test]
fn signed_divide_rounds_toward_zero() {
    assert_eq!(sdiv(7, 2, Vsew::E8), 3);
    assert_eq!(sdiv(0xf9, 2, Vsew::E8), 0xfd);
    assert_eq!(sdiv(7, 0xfe, Vsew::E8), 0xfd);
    assert_eq!(sdiv(0xf9, 0xfe, Vsew::E8), 3);
}

#[test]
fn signed_divide_by_zero_is_all_ones() {
    assert_eq!(sdiv(42, 0, Vsew::E8), 0xff);
    assert_eq!(sdiv(42, 0x100, Vsew::E8), 0xff);
    assert_eq!(sdiv(42, 0, Vsew::E64), u64::MAX);
    assert_eq!(srem(0x1234, 0, Vsew::E8), 0x34);
    assert_eq!(srem(42, 0, Vsew::E64), 42);
}

#[test]
fn signed_divide_overflow() {
    assert_eq!(sdiv(0x80, 0xff, Vsew::E8), 0x80);
    assert_eq!(srem(0x80, 0xff, Vsew::E8), 0);
    assert_eq!(sdiv(i64::MIN as u64, u64::MAX, Vsew::E64), i64::MIN as u64);
    assert_eq!(srem(i64::MIN as u64, u64::MAX, Vsew::E64), 0);
    assert_eq!(sdiv(0x8000_0000, 0xffff_ffff, Vsew::E32), 0x8000_0000);
}

#[test]
fn signed_remainder_has_dividend_sign() {
    assert_eq!(srem(0xf9, 2, Vsew::E8), 0xff);
    assert_eq!(srem(7, 0xfe, Vsew::E8), 1);
    assert_eq!(srem(0xf9, 0xfe, Vsew::E8), 0xff);
    // quotient * divisor + remainder == dividend (as SEW bits)
    for (a, b) in [(0xf9u64, 2u64), (7, 0xfe), (100, 7), (0x81, 0x03)] {
        let q = sdiv(a, b, Vsew::E8);
        let r = srem(a, b, Vsew::E8);
        assert_eq!((q.wrapping_mul(b).wrapping_add(r)) & 0xff, a);
    }
}

#[test]
fn widening_support_and_register_counts() {
    assert!(widening_eew_supported(Vsew::E32, 64));
    assert!(!widening_eew_supported(Vsew::E64, 64));
    assert!(!widening_eew_supported(Vsew::E32, 32));
    assert_eq!(widening_dest_register_count(Vlmul::M1), Some(2));
    assert_eq!(widening_dest_register_count(Vlmul::M4), Some(8));
    assert_eq!(widening_dest_register_count(Vlmul::M8), None);
    assert_eq!(widening_dest_register_count(Vlmul::Mf2), Some(1));
    assert_eq!(widening_dest_register_count(Vlmul::Mf8), Some(1));
}

#[test]
fn widening_overlap_rules() {
    // source in the highest-numbered part of the destination group: allowed
    assert_eq!(check_no_widening_overlap(4, vreg(4), vreg(6), 4, 2), Ok(()));
    // source in the lowest-numbered part: illegal
    assert_eq!(
        check_no_widening_overlap(4, vreg(4), vreg(4), 4, 2),
        Err(ExecutionError::IllegalInstruction { address: 4 })
    );
    // disjoint groups: allowed
    assert_eq!(check_no_widening_overlap(4, vreg(4), vreg(8), 4, 2), Ok(()));
    // fractional source (one register each): any overlap is illegal
    assert_eq!(
        check_no_widening_overlap(4, vreg(3), vreg(3), 1, 1),
        Err(ExecutionError::IllegalInstruction { address: 4 })
    );
}

#[test]
fn wide_element_round_trip() {
    let mut regs = VectorRegisterFile::new(128);
    write_wide_element_u64(&mut regs, vreg(2), 3, Vsew::E16, 0x1_2345_6789);
    assert_eq!(read_wide_element_u64(&regs, vreg(2), 3, Vsew::E16), 0x2345_6789);
    assert_eq!(read_element_u64(&regs, vreg(2), 6, Vsew::E16), 0x6789);
    assert_eq!(read_element_u64(&regs, vreg(2), 7, Vsew::E16), 0x2345);
}

#[test]
fn widening_multiply() {
    let mut s = configured(128, Vsew::E8, Vlmul::M1, 4);
    for (i, v) in [200u64, 100, 3, 255].iter().enumerate() {
        write_element_u64(&mut s.regs, vreg(8), i as u16, Vsew::E8, *v);
    }
    execute_widening_op(&mut s, vreg(2), vreg(8), OpSrc::Scalar(2), true, Vsew::E8, |a: u64, b: u64, _sew: Vsew| (a & 0xff) * (b & 0xff));
    let got: Vec<u64> = (0..4).map(|i| read_wide_element_u64(&s.regs, vreg(2), i, Vsew::E8)).collect();
    assert_eq!(got, vec![400, 200, 6, 510]);
    assert!(s.vs_dirty);
    assert_eq!(s.vstart, 0);
}

#[test]
fn multiply_accumulate() {
    let mut s = configured(128, Vsew::E16, Vlmul::M1, 3);
    for (i, (d, a)) in [(1u64, 10u64), (2, 20), (3, 30)].iter().enumerate() {
        write_element_u64(&mut s.regs, vreg(1), i as u16, Vsew::E16, *d);
        write_element_u64(&mut s.regs, vreg(2), i as u16, Vsew::E16, *a);
    }
    execute_muladd_op(&mut s, vreg(1), vreg(2), OpSrc::Scalar(2), true, Vsew::E16, |acc: u64, a: u64, b: u64, _sew: Vsew| acc.wrapping_add(a.wrapping_mul(b)));
    let got: Vec<u64> = (0..3).map(|i| read_element_u64(&s.regs, vreg(1), i, Vsew::E16)).collect();
    assert_eq!(got, vec![21, 42, 63]);
}

#[test]
fn multiply_accumulate_scalar_masked() {
    let mut s = configured(128, Vsew::E16, Vlmul::M1, 3);
    s.regs.write_byte(0, 0b101);
    for (i, b) in [1u64, 2, 3].iter().enumerate() {
        write_element_u64(&mut s.regs, vreg(3), i as u16, Vsew::E16, *b);
        write_element_u64(&mut s.regs, vreg(1), i as u16, Vsew::E16, 50);
    }
    execute_muladd_scalar_op(&mut s, vreg(1), 3, OpSrc::Vreg(vreg(3)), false, Vsew::E16, |_acc: u64, a: u64, b: u64, _sew: Vsew| a.wrapping_mul(b));
    let got: Vec<u64> = (0..3).map(|i| read_element_u64(&s.regs, vreg(1), i, Vsew::E16)).collect();
    assert_eq!(got, vec![3, 50, 9]);
}

#[test]
fn widening_multiply_accumulate() {
    let mut s = configured(128, Vsew::E8, Vlmul::M1, 2);
    write_wide_element_u64(&mut s.regs, vreg(4), 0, Vsew::E8, 1000);
    write_element_u64(&mut s.regs, vreg(8), 0, Vsew::E8, 200);
    write_element_u64(&mut s.regs, vreg(8), 1, Vsew::E8, 255);
    execute_widening_muladd_op(&mut s, vreg(4), vreg(8), OpSrc::Scalar(200), true, Vsew::E8, |acc: u64, a: u64, b: u64, _sew: Vsew| acc + (a & 0xff) * (b & 0xff));
    assert_eq!(read_wide_element_u64(&s.regs, vreg(4), 0, Vsew::E8), 41000);
    assert_eq!(read_wide_element_u64(&s.regs, vreg(4), 1, Vsew::E8), 51000);
    execute_widening_muladd_scalar_op(&mut s, vreg(4), 2, OpSrc::Vreg(vreg(8)), true, Vsew::E8, |acc: u64, a: u64, b: u64, _sew: Vsew| acc.wrapping_add(a * (b & 0xff)));
    assert_eq!(read_wide_element_u64(&s.regs, vreg(4), 0, Vsew::E8), 41400);
    assert_eq!(read_wide_element_u64(&s.regs, vreg(4), 1, Vsew::E8), 51510);
}
