use riscv_vector::arith::{read_element_u64, write_element_u64, write_mask_bit};
use riscv_vector::arith_instructions::{
    apply_compare, apply_int_op, execute_compare_instruction, execute_int_instruction, IntCompare,
    IntOp, Operand,
};
use riscv_vector::carry_instructions::{
    execute_carry_data_instruction, execute_carry_mask_instruction, CarryDataOp, CarryMaskOp,
};
use riscv_vector::mask_instructions::{
    apply_mask_logical, execute_first_bit_instruction, execute_mask_logical_instruction,
    execute_vcpop_instruction, execute_vfirst_instruction, execute_vid_instruction,
    execute_viota_instruction, FirstBitOp, MaskLogicalOp,
};
use riscv_vector::muldiv_instructions::{
    apply_muladd, apply_muldiv, apply_widening_mul, apply_widening_muladd,
    execute_muladd_instruction, execute_muldiv_instruction, execute_widening_mul_instruction,
    execute_widening_muladd_instruction, MulAddOp, MulDivOp, WideningMulAddOp, WideningMulOp,
};
use riscv_vector::register_file::VectorRegisterFile;
use riscv_vector::state::VectorState;
use riscv_vector::types::{ExecutionError, OpSrc, VReg, Vlmul, Vsew, Vtype};

const PC: u64 = 0x4000;

fn vreg(n: u8) -> VReg {
    VReg::from_bits(n).unwrap()
}

fn illegal() -> ExecutionError {
    ExecutionError::IllegalInstruction { address: PC }
}

fn configured(sew: Vsew, vlmul: Vlmul, vl: u32) -> VectorState {
    let mut s = VectorState::new(128, 64);
    s.vtype = Some(Vtype { vma: false, vta: false, vsew: sew, vlmul });
    s.vl = vl;
    s
}

fn fill(s: &mut VectorState, reg: u8, sew: Vsew, values: &[u64]) {
    for (i, v) in values.iter().enumerate() {
        write_element_u64(&mut s.regs, vreg(reg), i as u16, sew, *v);
    }
}

fn elems(s: &VectorState, reg: u8, sew: Vsew, n: u16) -> Vec<u64> {
    (0..n).map(|i| read_element_u64(&s.regs, vreg(reg), i, sew)).collect()
}

fn bit(regs: &VectorRegisterFile, reg: u8, i: u16) -> bool {
    let off = reg as usize * regs.vlenb() as usize + (i / 8) as usize;
    (regs.read_byte(off) >> (i % 8)) & 1 == 1
}

fn set_mask(s: &mut VectorState, reg: u8, bits: &[bool]) {
    for (i, b) in bits.iter().enumerate() {
        write_mask_bit(&mut s.regs, vreg(reg), i as u16, *b);
    }
}

#[test]
fn int_op_element_values() {
    assert_eq!(apply_int_op(IntOp::Add, 0xff, 0x02, Vsew::E8) & 0xff, 0x01);
    assert_eq!(apply_int_op(IntOp::Sub, 0x01, 0x02, Vsew::E8) & 0xff, 0xff);
    assert_eq!(apply_int_op(IntOp::Rsub, 0x01, 0x05, Vsew::E16) & 0xffff, 4);
    // shift amounts are taken modulo SEW
    assert_eq!(apply_int_op(IntOp::Sll, 1, 9, Vsew::E8) & 0xff, 2);
    assert_eq!(apply_int_op(IntOp::Sra, 0x80, 1, Vsew::E8) & 0xff, 0xc0);
    assert_eq!(apply_int_op(IntOp::Srl, 0x80, 1, Vsew::E8) & 0xff, 0x40);
    assert_eq!(apply_int_op(IntOp::Min, 0xff, 0x01, Vsew::E8) & 0xff, 0xff);
    assert_eq!(apply_int_op(IntOp::Minu, 0xff, 0x01, Vsew::E8) & 0xff, 0x01);
    assert_eq!(apply_int_op(IntOp::Max, 0xff, 0x01, Vsew::E8) & 0xff, 0x01);
    assert_eq!(apply_int_op(IntOp::Maxu, 0xff, 0x01, Vsew::E8) & 0xff, 0xff);
    assert_eq!(apply_int_op(IntOp::Xor, 0xf0, 0xff, Vsew::E8) & 0xff, 0x0f);
}

#[test]
fn compare_signed_and_unsigned() {
    assert!(apply_compare(IntCompare::Lt, 0xff, 0x01, Vsew::E8));
    assert!(!apply_compare(IntCompare::Ltu, 0xff, 0x01, Vsew::E8));
    assert!(apply_compare(IntCompare::Eq, 0x1ff, 0xff, Vsew::E8));
    assert!(apply_compare(IntCompare::Gtu, 0x8000, 0x7fff, Vsew::E16));
    assert!(!apply_compare(IntCompare::Gt, 0x8000, 0x7fff, Vsew::E16));
    assert!(apply_compare(IntCompare::Le, 5, 5, Vsew::E32));
}

#[test]
fn vadd_vv_writes_active_elements() {
    let mut s = configured(Vsew::E8, Vlmul::M1, 4);
    fill(&mut s, 2, Vsew::E8, &[1, 2, 3, 0xff, 9]);
    fill(&mut s, 3, Vsew::E8, &[10, 20, 30, 2, 9]);
    fill(&mut s, 1, Vsew::E8, &[0, 0, 0, 0, 0x55]);
    let r = execute_int_instruction(&mut s, PC, IntOp::Add, vreg(1), vreg(2), Operand::Vector(vreg(3)), true);
    assert_eq!(r, Ok(()));
    // the tail element 4 is left as it was
    assert_eq!(elems(&s, 1, Vsew::E8, 5), vec![11, 22, 33, 1, 0x55]);
    assert!(s.vs_dirty);
    assert_eq!(s.vstart, 0);
}

#[test]
fn vadd_vi_masked_skips_inactive() {
    let mut s = configured(Vsew::E16, Vlmul::M1, 3);
    fill(&mut s, 4, Vsew::E16, &[100, 200, 300]);
    fill(&mut s, 5, Vsew::E16, &[7, 7, 7]);
    set_mask(&mut s, 0, &[true, false, true]);
    let r = execute_int_instruction(&mut s, PC, IntOp::Add, vreg(5), vreg(4), Operand::Immediate(-1), false);
    assert_eq!(r, Ok(()));
    assert_eq!(elems(&s, 5, Vsew::E16, 3), vec![99, 7, 299]);
}

#[test]
fn int_instruction_illegal_cases() {
    // masked write to v0
    let mut s = configured(Vsew::E8, Vlmul::M1, 4);
    let before = s.clone();
    assert_eq!(
        execute_int_instruction(&mut s, PC, IntOp::Add, vreg(0), vreg(2), Operand::Scalar(1), false),
        Err(illegal())
    );
    assert_eq!(s.regs.read_byte(0), before.regs.read_byte(0));
    assert!(!s.vs_dirty);
    // misaligned destination group at LMUL = 2
    let mut s = configured(Vsew::E8, Vlmul::M2, 4);
    assert_eq!(
        execute_int_instruction(&mut s, PC, IntOp::Add, vreg(3), vreg(2), Operand::Scalar(1), true),
        Err(illegal())
    );
    // no legal vtype
    let mut s = VectorState::new(128, 64);
    assert_eq!(
        execute_int_instruction(&mut s, PC, IntOp::Add, vreg(1), vreg(2), Operand::Scalar(1), true),
        Err(illegal())
    );
    // vector instructions not allowed
    let mut s = configured(Vsew::E8, Vlmul::M1, 4);
    s.vector_allowed = false;
    assert_eq!(
        execute_int_instruction(&mut s, PC, IntOp::Add, vreg(1), vreg(2), Operand::Scalar(1), true),
        Err(illegal())
    );
}

#[test]
fn vmslt_vx_writes_mask_bits() {
    let mut s = configured(Vsew::E8, Vlmul::M1, 4);
    fill(&mut s, 2, Vsew::E8, &[0xff, 0x01, 0x05, 0x80]);
    let r = execute_compare_instruction(&mut s, PC, IntCompare::Lt, vreg(1), vreg(2), Operand::Scalar(2), true);
    assert_eq!(r, Ok(()));
    assert_eq!(
        (0..4).map(|i| bit(&s.regs, 1, i)).collect::<Vec<_>>(),
        vec![true, true, false, true]
    );
    // destination inside a multi-register source group past its base register
    let mut s = configured(Vsew::E8, Vlmul::M2, 4);
    assert_eq!(
        execute_compare_instruction(&mut s, PC, IntCompare::Lt, vreg(3), vreg(2), Operand::Scalar(2), true),
        Err(illegal())
    );
}

#[test]
fn muldiv_element_values() {
    // high half of the signed product -1 * -1 = 1 is 0
    assert_eq!(apply_muldiv(MulDivOp::Mulh, 0xff, 0xff, Vsew::E8) & 0xff, 0);
    // high half of the unsigned product 0xff * 0xff = 0xfe01
    assert_eq!(apply_muldiv(MulDivOp::Mulhu, 0xff, 0xff, Vsew::E8) & 0xff, 0xfe);
    // signed -1 times unsigned 255 = -255 = 0xff01 at 16 bits
    assert_eq!(apply_muldiv(MulDivOp::Mulhsu, 0xff, 0xff, Vsew::E8) & 0xff, 0xff);
    assert_eq!(apply_muldiv(MulDivOp::Mul, 0x10, 0x11, Vsew::E8) & 0xff, 0x10);
    // division by zero
    assert_eq!(apply_muldiv(MulDivOp::Divu, 7, 0, Vsew::E8) & 0xff, 0xff);
    assert_eq!(apply_muldiv(MulDivOp::Div, 7, 0, Vsew::E16) & 0xffff, 0xffff);
    assert_eq!(apply_muldiv(MulDivOp::Remu, 7, 0, Vsew::E8) & 0xff, 7);
    assert_eq!(apply_muldiv(MulDivOp::Rem, 0xf9, 0, Vsew::E8) & 0xff, 0xf9);
    // signed overflow: MIN / -1 = MIN, MIN % -1 = 0
    assert_eq!(apply_muldiv(MulDivOp::Div, 0x80, 0xff, Vsew::E8) & 0xff, 0x80);
    assert_eq!(apply_muldiv(MulDivOp::Rem, 0x80, 0xff, Vsew::E8) & 0xff, 0);
    // truncating division: -7 / 2 = -3, -7 % 2 = -1
    assert_eq!(apply_muldiv(MulDivOp::Div, 0xf9, 2, Vsew::E8) & 0xff, 0xfd);
    assert_eq!(apply_muldiv(MulDivOp::Rem, 0xf9, 2, Vsew::E8) & 0xff, 0xff);
    assert_eq!(apply_muldiv(MulDivOp::Mulh, u64::MAX, 2, Vsew::E64), u64::MAX);
}

#[test]
fn vdivu_vv_and_high_half_gate() {
    let mut s = configured(Vsew::E32, Vlmul::M1, 4);
    fill(&mut s, 2, Vsew::E32, &[100, 7, 0xffff_ffff, 5]);
    fill(&mut s, 3, Vsew::E32, &[7, 0, 2, 5]);
    let r = execute_muldiv_instruction(&mut s, PC, MulDivOp::Divu, vreg(4), vreg(2), Operand::Vector(vreg(3)), true, true);
    assert_eq!(r, Ok(()));
    assert_eq!(elems(&s, 4, Vsew::E32, 4), vec![14, 0xffff_ffff, 0x7fff_ffff, 1]);
    // vmulh at SEW = 64 needs the full vector extension
    let mut s = configured(Vsew::E64, Vlmul::M1, 2);
    assert_eq!(
        execute_muldiv_instruction(&mut s, PC, MulDivOp::Mulh, vreg(4), vreg(2), Operand::Scalar(3), true, false),
        Err(illegal())
    );
    assert_eq!(
        execute_muldiv_instruction(&mut s, PC, MulDivOp::Mulh, vreg(4), vreg(2), Operand::Scalar(3), true, true),
        Ok(())
    );
    // a plain multiply at SEW = 64 is fine without it
    let mut s = configured(Vsew::E64, Vlmul::M1, 2);
    assert_eq!(
        execute_muldiv_instruction(&mut s, PC, MulDivOp::Mul, vreg(4), vreg(2), Operand::Scalar(3), true, false),
        Ok(())
    );
}

#[test]
fn widening_multiply_values() {
    assert_eq!(apply_widening_mul(WideningMulOp::Mulu, 0xff, 0xff, Vsew::E8) & 0xffff, 0xfe01);
    assert_eq!(apply_widening_mul(WideningMulOp::Mul, 0xff, 0xff, Vsew::E8) & 0xffff, 1);
    // signed -1 times unsigned 255
    assert_eq!(apply_widening_mul(WideningMulOp::Mulsu, 0xff, 0xff, Vsew::E8) & 0xffff, 0xff01);
}

#[test]
fn vwmul_vx_writes_double_width() {
    let mut s = configured(Vsew::E8, Vlmul::M1, 4);
    fill(&mut s, 2, Vsew::E8, &[0x80, 2, 0xff, 100]);
    let r = execute_widening_mul_instruction(&mut s, PC, WideningMulOp::Mul, vreg(4), vreg(2), Operand::Scalar(0xff), true);
    assert_eq!(r, Ok(()));
    // -128 * -1, 2 * -1, -1 * -1, 100 * -1
    assert_eq!(elems(&s, 4, Vsew::E16, 4), vec![128, 0xfffe, 1, 0xff9c]);
    // the destination group needs 2 * LMUL registers, aligned
    let mut s = configured(Vsew::E8, Vlmul::M1, 4);
    assert_eq!(
        execute_widening_mul_instruction(&mut s, PC, WideningMulOp::Mul, vreg(5), vreg(2), Operand::Scalar(1), true),
        Err(illegal())
    );
    // 2 * SEW above ELEN
    let mut s = configured(Vsew::E64, Vlmul::M1, 2);
    assert_eq!(
        execute_widening_mul_instruction(&mut s, PC, WideningMulOp::Mul, vreg(4), vreg(2), Operand::Scalar(1), true),
        Err(illegal())
    );
    // a source overlapping the destination's lowest register at LMUL = 1
    let mut s = configured(Vsew::E8, Vlmul::M1, 4);
    assert_eq!(
        execute_widening_mul_instruction(&mut s, PC, WideningMulOp::Mul, vreg(4), vreg(4), Operand::Scalar(1), true),
        Err(illegal())
    );
}

#[test]
fn multiply_add_values() {
    assert_eq!(apply_muladd(MulAddOp::Macc, 1, 3, 4, Vsew::E8) & 0xff, 13);
    assert_eq!(apply_muladd(MulAddOp::Nmsac, 1, 3, 4, Vsew::E8) & 0xff, 0xf5);
    assert_eq!(apply_muladd(MulAddOp::Madd, 2, 3, 4, Vsew::E8) & 0xff, 10);
    assert_eq!(apply_muladd(MulAddOp::Nmsub, 2, 3, 4, Vsew::E8) & 0xff, 0xfe);
    assert_eq!(apply_widening_muladd(WideningMulAddOp::Maccu, 1, 0xff, 0xff, Vsew::E8) & 0xffff, 0xfe02);
    assert_eq!(apply_widening_muladd(WideningMulAddOp::Macc, 1, 0xff, 0xff, Vsew::E8) & 0xffff, 2);
    assert_eq!(apply_widening_muladd(WideningMulAddOp::Maccsu, 0, 0xff, 2, Vsew::E8) & 0xffff, 0xfffe);
    assert_eq!(apply_widening_muladd(WideningMulAddOp::Maccus, 0, 0xff, 0xfe, Vsew::E8) & 0xffff, 0xfe02);
}

#[test]
fn vmacc_vv_and_vx_accumulate() {
    let mut s = configured(Vsew::E16, Vlmul::M1, 3);
    fill(&mut s, 1, Vsew::E16, &[10, 20, 30]);
    fill(&mut s, 2, Vsew::E16, &[2, 3, 4]);
    fill(&mut s, 3, Vsew::E16, &[5, 6, 0xffff]);
    let r = execute_muladd_instruction(&mut s, PC, MulAddOp::Macc, vreg(1), OpSrc::Vreg(vreg(3)), vreg(2), true);
    assert_eq!(r, Ok(()));
    assert_eq!(elems(&s, 1, Vsew::E16, 3), vec![20, 38, 26]);
    let r = execute_muladd_instruction(&mut s, PC, MulAddOp::Madd, vreg(1), OpSrc::Scalar(2), vreg(2), true);
    assert_eq!(r, Ok(()));
    // 2 * vd + vs2
    assert_eq!(elems(&s, 1, Vsew::E16, 3), vec![42, 79, 56]);
    let mut s = configured(Vsew::E16, Vlmul::M2, 3);
    assert_eq!(
        execute_muladd_instruction(&mut s, PC, MulAddOp::Macc, vreg(2), OpSrc::Vreg(vreg(5)), vreg(4), true),
        Err(illegal())
    );
}

#[test]
fn vwmacc_vx_accumulates_double_width() {
    let mut s = configured(Vsew::E8, Vlmul::M1, 2);
    fill(&mut s, 4, Vsew::E16, &[1000, 0xffff]);
    fill(&mut s, 2, Vsew::E8, &[0xff, 3]);
    let r = execute_widening_muladd_instruction(&mut s, PC, WideningMulAddOp::Macc, vreg(4), OpSrc::Scalar(0xfe), vreg(2), true);
    assert_eq!(r, Ok(()));
    // 1000 + (-2) * (-1), -1 + (-2) * 3
    assert_eq!(elems(&s, 4, Vsew::E16, 2), vec![1002, 0xfff9]);
    let mut s = configured(Vsew::E64, Vlmul::M1, 2);
    assert_eq!(
        execute_widening_muladd_instruction(&mut s, PC, WideningMulAddOp::Macc, vreg(4), OpSrc::Scalar(1), vreg(2), true),
        Err(illegal())
    );
}

#[test]
fn vadc_takes_carry_from_v0() {
    let mut s = configured(Vsew::E8, Vlmul::M1, 4);
    fill(&mut s, 2, Vsew::E8, &[0xff, 1, 2, 3]);
    set_mask(&mut s, 0, &[true, false, true, false]);
    let r = execute_carry_data_instruction(&mut s, PC, CarryDataOp::Adc, vreg(1), vreg(2), Operand::Scalar(1));
    assert_eq!(r, Ok(()));
    assert_eq!(elems(&s, 1, Vsew::E8, 4), vec![1, 2, 4, 4]);
    let r = execute_carry_data_instruction(&mut s, PC, CarryDataOp::Sbc, vreg(3), vreg(2), Operand::Immediate(1));
    assert_eq!(r, Ok(()));
    assert_eq!(elems(&s, 3, Vsew::E8, 4), vec![0xfd, 0, 0, 2]);
    // v0 holds the carries and cannot be the destination
    assert_eq!(
        execute_carry_data_instruction(&mut s, PC, CarryDataOp::Adc, vreg(0), vreg(2), Operand::Scalar(1)),
        Err(illegal())
    );
}

#[test]
fn vmadc_and_vmsbc_write_carry_out() {
    let mut s = configured(Vsew::E8, Vlmul::M1, 4);
    fill(&mut s, 2, Vsew::E8, &[0xff, 0xfe, 0, 5]);
    set_mask(&mut s, 0, &[false, true, true, false]);
    let r = execute_carry_mask_instruction(&mut s, PC, CarryMaskOp::Madc, true, vreg(1), vreg(2), Operand::Scalar(1));
    assert_eq!(r, Ok(()));
    assert_eq!((0..4).map(|i| bit(&s.regs, 1, i)).collect::<Vec<_>>(), vec![true, true, false, false]);
    let r = execute_carry_mask_instruction(&mut s, PC, CarryMaskOp::Madc, false, vreg(1), vreg(2), Operand::Scalar(1));
    assert_eq!(r, Ok(()));
    assert_eq!((0..4).map(|i| bit(&s.regs, 1, i)).collect::<Vec<_>>(), vec![true, false, false, false]);
    let r = execute_carry_mask_instruction(&mut s, PC, CarryMaskOp::Msbc, true, vreg(3), vreg(2), Operand::Scalar(5));
    assert_eq!(r, Ok(()));
    assert_eq!((0..4).map(|i| bit(&s.regs, 3, i)).collect::<Vec<_>>(), vec![false, false, true, false]);
}

#[test]
fn mask_logical_values() {
    let cases = [(false, false), (false, true), (true, false), (true, true)];
    let expect = |op: MaskLogicalOp| cases.iter().map(|&(a, b)| apply_mask_logical(op, a, b)).collect::<Vec<_>>();
    assert_eq!(expect(MaskLogicalOp::Andn), vec![false, false, true, false]);
    assert_eq!(expect(MaskLogicalOp::Orn), vec![true, false, true, true]);
    assert_eq!(expect(MaskLogicalOp::Nand), vec![true, true, true, false]);
    assert_eq!(expect(MaskLogicalOp::Nor), vec![true, false, false, false]);
    assert_eq!(expect(MaskLogicalOp::Xnor), vec![true, false, false, true]);
    assert_eq!(expect(MaskLogicalOp::Xor), vec![false, true, true, false]);
}

#[test]
fn vmand_mm_over_body_only() {
    let mut s = configured(Vsew::E8, Vlmul::M1, 3);
    set_mask(&mut s, 2, &[true, true, false, true]);
    set_mask(&mut s, 3, &[true, false, true, true]);
    set_mask(&mut s, 4, &[false, false, false, true]);
    let r = execute_mask_logical_instruction(&mut s, PC, MaskLogicalOp::And, vreg(4), vreg(2), vreg(3));
    assert_eq!(r, Ok(()));
    // bit 3 is past vl and stays set
    assert_eq!((0..4).map(|i| bit(&s.regs, 4, i)).collect::<Vec<_>>(), vec![true, false, false, true]);
    let mut s = VectorState::new(128, 64);
    assert_eq!(
        execute_mask_logical_instruction(&mut s, PC, MaskLogicalOp::And, vreg(4), vreg(2), vreg(3)),
        Err(illegal())
    );
}

#[test]
fn vcpop_and_vfirst_instructions() {
    let mut s = configured(Vsew::E8, Vlmul::M1, 8);
    set_mask(&mut s, 2, &[false, false, true, false, true, true, false, true]);
    set_mask(&mut s, 0, &[true, true, false, true, true, false, true, true]);
    assert_eq!(execute_vcpop_instruction(&mut s, PC, vreg(2), true), Ok(4));
    assert_eq!(execute_vcpop_instruction(&mut s, PC, vreg(2), false), Ok(2));
    assert_eq!(execute_vfirst_instruction(&mut s, PC, vreg(2), true), Ok(2));
    assert_eq!(execute_vfirst_instruction(&mut s, PC, vreg(2), false), Ok(4));
    assert_eq!(execute_vfirst_instruction(&mut s, PC, vreg(5), true), Ok(-1));
    let mut s = VectorState::new(128, 64);
    assert_eq!(execute_vcpop_instruction(&mut s, PC, vreg(2), true), Err(illegal()));
    assert_eq!(execute_vfirst_instruction(&mut s, PC, vreg(2), true), Err(illegal()));
}

#[test]
fn set_first_family() {
    let src = [false, false, true, false, true, false];
    let run = |op: FirstBitOp| {
        let mut s = configured(Vsew::E8, Vlmul::M1, 6);
        set_mask(&mut s, 2, &src);
        assert_eq!(execute_first_bit_instruction(&mut s, PC, op, vreg(1), vreg(2), true), Ok(()));
        (0..6).map(|i| bit(&s.regs, 1, i)).collect::<Vec<_>>()
    };
    assert_eq!(run(FirstBitOp::SetBeforeFirst), vec![true, true, false, false, false, false]);
    assert_eq!(run(FirstBitOp::SetIncludingFirst), vec![true, true, true, false, false, false]);
    assert_eq!(run(FirstBitOp::SetOnlyFirst), vec![false, false, true, false, false, false]);
    let mut s = configured(Vsew::E8, Vlmul::M1, 6);
    assert_eq!(
        execute_first_bit_instruction(&mut s, PC, FirstBitOp::SetBeforeFirst, vreg(2), vreg(2), true),
        Err(illegal())
    );
    s.vstart = 1;
    assert_eq!(
        execute_first_bit_instruction(&mut s, PC, FirstBitOp::SetBeforeFirst, vreg(1), vreg(2), true),
        Err(illegal())
    );
    s.vstart = 0;
    assert_eq!(
        execute_first_bit_instruction(&mut s, PC, FirstBitOp::SetBeforeFirst, vreg(0), vreg(2), false),
        Err(illegal())
    );
}

#[test]
fn viota_and_vid_instructions() {
    let mut s = configured(Vsew::E8, Vlmul::M1, 6);
    set_mask(&mut s, 2, &[true, false, true, true, false, true]);
    assert_eq!(execute_viota_instruction(&mut s, PC, vreg(4), vreg(2), true), Ok(()));
    assert_eq!(elems(&s, 4, Vsew::E8, 6), vec![0, 1, 1, 2, 3, 3]);
    assert_eq!(execute_vid_instruction(&mut s, PC, vreg(5), true), Ok(()));
    assert_eq!(elems(&s, 5, Vsew::E8, 6), vec![0, 1, 2, 3, 4, 5]);
    // viota's destination group must not contain vs2
    let mut s = configured(Vsew::E8, Vlmul::M2, 6);
    assert_eq!(execute_viota_instruction(&mut s, PC, vreg(4), vreg(5), true), Err(illegal()));
    assert_eq!(execute_vid_instruction(&mut s, PC, vreg(5), true), Err(illegal()));
    s.vstart = 2;
    assert_eq!(execute_viota_instruction(&mut s, PC, vreg(4), vreg(2), true), Err(illegal()));
}

#[test]
fn vcpop_of_prefix_matches_viota() {
    let bits = [true, true, false, true, false, true, true, false];
    let mut s = configured(Vsew::E8, Vlmul::M1, 8);
    set_mask(&mut s, 2, &bits);
    assert_eq!(execute_viota_instruction(&mut s, PC, vreg(4), vreg(2), true), Ok(()));
    let iota = elems(&s, 4, Vsew::E8, 8);
    for n in 0..8u32 {
        let mut p = configured(Vsew::E8, Vlmul::M1, n);
        set_mask(&mut p, 2, &bits);
        assert_eq!(execute_vcpop_instruction(&mut p, PC, vreg(2), true), Ok(iota[n as usize] as u32));
    }
}

#[test]
fn vfirst_index_is_the_vmsof_bit() {
    let bits = [false, false, false, true, false, true, false, true];
    let mut s = configured(Vsew::E8, Vlmul::M1, 8);
    set_mask(&mut s, 2, &bits);
    let first = execute_vfirst_instruction(&mut s, PC, vreg(2), true).unwrap();
    assert_eq!(first, 3);
    assert_eq!(execute_first_bit_instruction(&mut s, PC, FirstBitOp::SetOnlyFirst, vreg(1), vreg(2), true), Ok(()));
    let set: Vec<u16> = (0..8).filter(|&i| bit(&s.regs, 1, i)).collect();
    assert_eq!(set, vec![first as u16]);
}
