use riscv_vector::arith::{read_element_u64, write_element_u64};
use riscv_vector::load::VirtualMemory;
use riscv_vector::grouping::emul_register_count;
use riscv_vector::load_instructions::{
    execute_indexed_instruction, execute_indexed_segment_instruction,
    execute_mask_load, execute_strided_instruction, execute_unit_stride_instruction,
    execute_whole_register_load,
};
use riscv_vector::state::VectorState;
use riscv_vector::types::{
    Eew, ExecutionError, Nf, VReg, VirtualMemoryError, Vlmul, Vsew, Vtype,
};

fn vreg(n: u8) -> VReg {
    VReg::from_bits(n).unwrap()
}

fn configured(vlen: u32, sew: Vsew, vlmul: Vlmul, vl: u32) -> VectorState {
    let mut s = VectorState::new(vlen, 64);
    s.vtype = Some(Vtype { vma: false, vta: false, vsew: sew, vlmul });
    s.vl = vl;
    s
}

/// Memory holding `bytes` at `[start, start + bytes.len())`; any other access fails.
struct RangeMemory {
    start: u64,
    bytes: Vec<u8>,
}

impl RangeMemory {
    fn read(&self, addr: u64, len: u32) -> Result<Vec<u8>, VirtualMemoryError> {
        let end = addr.checked_add(len as u64);
        match end {
            Some(end) if addr >= self.start && end <= self.start + self.bytes.len() as u64 => {
                let off = (addr - self.start) as usize;
                Ok(self.bytes[off..off + len as usize].to_vec())
            }
            _ => Err(VirtualMemoryError { address: addr }),
        }
    }
}

impl VirtualMemory for RangeMemory {
    fn read_spec(&self, addr: u64, len: u32) -> Result<Vec<u8>, VirtualMemoryError> {
        self.read(addr, len)
    }

    fn read_slice(&self, addr: u64, len: u32) -> Result<Vec<u8>, VirtualMemoryError> {
        self.read(addr, len)
    }
}

fn counting_memory(start: u64, n: usize) -> RangeMemory {
    RangeMemory { start, bytes: (0..n).map(|k| (k as u8).wrapping_add(1)).collect() }
}

fn illegal(pc: u64) -> Result<(), ExecutionError> {
    Err(ExecutionError::IllegalInstruction { address: pc })
}

#[test]
fn emul_register_counts() {
    // EMUL = (16 / 8) * 1 = 2
    assert_eq!(emul_register_count(Vlmul::M1, Eew::E16, Vsew::E8), Some(2));
    // EMUL = (32 / 32) * 2 = 2
    assert_eq!(emul_register_count(Vlmul::M2, Eew::E32, Vsew::E32), Some(2));
    // EMUL = (8 / 16) * 1/2 = 1/4: one register
    assert_eq!(emul_register_count(Vlmul::Mf2, Eew::E8, Vsew::E16), Some(1));
    // EMUL = (64 / 8) * 8 = 64: illegal
    assert_eq!(emul_register_count(Vlmul::M8, Eew::E64, Vsew::E8), None);
    // EMUL = (8 / 64) * 1/8 = 1/64: illegal
    assert_eq!(emul_register_count(Vlmul::Mf8, Eew::E8, Vsew::E64), None);
    // EMUL = (64 / 8) * 1 = 8: legal
    assert_eq!(emul_register_count(Vlmul::M1, Eew::E64, Vsew::E8), Some(8));
}

#[test]
fn unit_stride_instruction_checks() {
    let mem = counting_memory(0x1000, 64);
    let nf1 = Nf::new(1).unwrap();
    // vector instructions disabled
    let mut s = configured(128, Vsew::E8, Vlmul::M1, 4);
    s.vector_allowed = false;
    assert_eq!(execute_unit_stride_instruction::<false, RangeMemory>(&mut s, &mem, 0x40, vreg(2), true, 0x1000, Eew::E8, nf1), illegal(0x40));
    // illegal vtype
    let mut s = VectorState::new(128, 64);
    assert_eq!(execute_unit_stride_instruction::<false, RangeMemory>(&mut s, &mem, 0x40, vreg(2), true, 0x1000, Eew::E8, nf1), illegal(0x40));
    // EEW=16 with SEW=8, LMUL=2: EMUL = 4, v2 misaligned
    let mut s = configured(128, Vsew::E8, Vlmul::M2, 4);
    assert_eq!(execute_unit_stride_instruction::<false, RangeMemory>(&mut s, &mem, 0x40, vreg(2), true, 0x1000, Eew::E16, nf1), illegal(0x40));
    assert!(!s.vs_dirty);
    // masked load into v0
    let mut s = configured(128, Vsew::E8, Vlmul::M1, 4);
    assert_eq!(execute_unit_stride_instruction::<false, RangeMemory>(&mut s, &mem, 0x40, vreg(0), false, 0x1000, Eew::E8, nf1), illegal(0x40));
}

#[test]
fn unit_stride_instruction_loads() {
    let mem = counting_memory(0x1000, 64);
    let mut s = configured(128, Vsew::E8, Vlmul::M1, 4);
    // EEW=16 with SEW=8, LMUL=1: EMUL = 2, v4 is aligned
    let r = execute_unit_stride_instruction::<false, RangeMemory>(&mut s, &mem, 0x40, vreg(4), true, 0x1000, Eew::E16, Nf::new(1).unwrap());
    assert_eq!(r, Ok(()));
    let got: Vec<u64> = (0..4).map(|i| read_element_u64(&s.regs, vreg(4), i, Vsew::E16)).collect();
    assert_eq!(got, vec![0x0201, 0x0403, 0x0605, 0x0807]);
    assert!(s.vs_dirty);
}

#[test]
fn segment_instruction_rejects_groups_past_v31() {
    let mem = counting_memory(0x1000, 64);
    let mut s = configured(128, Vsew::E8, Vlmul::M2, 4);
    // 3 fields of 2 registers from v28 need v28..v34
    assert_eq!(execute_unit_stride_instruction::<true, RangeMemory>(&mut s, &mem, 0x44, vreg(28), true, 0x1000, Eew::E8, Nf::new(3).unwrap()), illegal(0x44));
    let r = execute_unit_stride_instruction::<true, RangeMemory>(&mut s, &mem, 0x44, vreg(26), true, 0x1000, Eew::E8, Nf::new(3).unwrap());
    assert_eq!(r, Ok(()));
    assert_eq!(read_element_u64(&s.regs, vreg(30), 1, Vsew::E8), 6);
}

#[test]
fn strided_instruction_loads() {
    let mem = counting_memory(0x1000, 64);
    let mut s = configured(128, Vsew::E16, Vlmul::M1, 3);
    let r = execute_strided_instruction(&mut s, &mem, 0x48, vreg(1), true, 0x1000, 10, Eew::E8, Nf::new(1).unwrap());
    assert_eq!(r, Ok(()));
    let got: Vec<u64> = (0..3).map(|i| read_element_u64(&s.regs, vreg(1), i, Vsew::E8)).collect();
    assert_eq!(got, vec![1, 11, 21]);
    // EMUL = (64 / 16) * 8 = 32: illegal
    let mut s = configured(128, Vsew::E16, Vlmul::M8, 3);
    assert_eq!(execute_strided_instruction(&mut s, &mem, 0x48, vreg(0), true, 0x1000, 10, Eew::E64, Nf::new(1).unwrap()), illegal(0x48));
}

#[test]
fn indexed_instruction_overlap_checks() {
    let mem = counting_memory(0x1000, 64);
    // SEW=32, LMUL=4: data group 4 registers; index EEW=16: EMUL 2
    let mut s = configured(128, Vsew::E32, Vlmul::M4, 4);
    // index group v8..v10 overlaps the data group v8..v12 at its low end: not allowed
    assert_eq!(execute_indexed_instruction(&mut s, &mem, 0x4c, vreg(8), vreg(8), true, 0x1000, Eew::E16), illegal(0x4c));
    // misaligned index group
    assert_eq!(execute_indexed_instruction(&mut s, &mem, 0x4c, vreg(4), vreg(17), true, 0x1000, Eew::E16), illegal(0x4c));
}

#[test]
fn indexed_instruction_with_allowed_overlap_reads_every_index() {
    let mem = counting_memory(0x1000, 64);
    // SEW=32, LMUL=4 (v8..v12), index EEW=16 in v10..v12: the groups end together
    let mut s = configured(128, Vsew::E32, Vlmul::M4, 16);
    let offsets: Vec<u64> = (0..16u64).map(|i| (i * 4) % 60).collect();
    for (i, off) in offsets.iter().enumerate() {
        write_element_u64(&mut s.regs, vreg(10), i as u16, Vsew::E16, *off);
    }
    let r = execute_indexed_instruction(&mut s, &mem, 0x4c, vreg(8), vreg(10), true, 0x1000, Eew::E16);
    assert_eq!(r, Ok(()));
    for (i, off) in offsets.iter().enumerate() {
        let b = *off as u32 + 1;
        let expected = (b | ((b + 1) << 8) | ((b + 2) << 16) | ((b + 3) << 24)) as u64;
        assert_eq!(read_element_u64(&s.regs, vreg(8), i as u16, Vsew::E32), expected);
    }
}

#[test]
fn indexed_segment_instruction() {
    let mem = counting_memory(0x1000, 64);
    let mut s = configured(128, Vsew::E8, Vlmul::M1, 2);
    for (i, off) in [4u64, 0].iter().enumerate() {
        write_element_u64(&mut s.regs, vreg(9), i as u16, Vsew::E8, *off);
    }
    // field groups v8 and v9: the second is the index group
    assert_eq!(execute_indexed_segment_instruction(&mut s, &mem, 0x50, vreg(8), vreg(9), true, 0x1000, Eew::E8, Nf::new(2).unwrap()), illegal(0x50));
    let r = execute_indexed_segment_instruction(&mut s, &mem, 0x50, vreg(2), vreg(9), true, 0x1000, Eew::E8, Nf::new(2).unwrap());
    assert_eq!(r, Ok(()));
    assert_eq!(read_element_u64(&s.regs, vreg(2), 0, Vsew::E8), 5);
    assert_eq!(read_element_u64(&s.regs, vreg(3), 0, Vsew::E8), 6);
    assert_eq!(read_element_u64(&s.regs, vreg(2), 1, Vsew::E8), 1);
    assert_eq!(read_element_u64(&s.regs, vreg(3), 1, Vsew::E8), 2);
}

#[test]
fn whole_register_load() {
    let mem = counting_memory(0x2000, 64);
    let mut s = VectorState::new(128, 64);
    s.vstart = 3;
    assert_eq!(execute_whole_register_load(&mut s, &mem, 0x54, vreg(3), 2, 0x2000), illegal(0x54));
    let r = execute_whole_register_load(&mut s, &mem, 0x54, vreg(4), 4, 0x2000);
    assert_eq!(r, Ok(()));
    assert_eq!(s.regs.get(vreg(4)), (1..=16u8).collect::<Vec<u8>>());
    assert_eq!(s.regs.get(vreg(7)), (49..=64u8).collect::<Vec<u8>>());
    assert_eq!(s.vstart, 0);
    assert!(s.vs_dirty);
}

#[test]
fn whole_register_load_fault_after_first_register() {
    let mem = counting_memory(0x2000, 20);
    let mut s = VectorState::new(128, 64);
    s.vstart = 3;
    let r = execute_whole_register_load(&mut s, &mem, 0x54, vreg(2), 2, 0x2000);
    assert_eq!(r, Err(ExecutionError::MemoryAccess(VirtualMemoryError { address: 0x2010 })));
    assert_eq!(s.regs.get(vreg(2)), (1..=16u8).collect::<Vec<u8>>());
    assert_eq!(s.regs.get(vreg(3)), vec![0u8; 16]);
    assert_eq!(s.vstart, 0);
    assert!(s.vs_dirty);
    // a fault on the first register leaves the state untouched
    let mut s = VectorState::new(128, 64);
    s.vstart = 3;
    let r = execute_whole_register_load(&mut s, &mem, 0x54, vreg(2), 2, 0x3000);
    assert_eq!(r, Err(ExecutionError::MemoryAccess(VirtualMemoryError { address: 0x3000 })));
    assert_eq!(s.vstart, 3);
    assert!(!s.vs_dirty);
}

#[test]
fn mask_load() {
    let mem = counting_memory(0x3000, 8);
    let mut s = configured(128, Vsew::E8, Vlmul::M1, 10);
    s.regs.write_byte(5 * 16 + 2, 0xaa);
    let r = execute_mask_load(&mut s, &mem, 0x58, vreg(5), 0x3000);
    assert_eq!(r, Ok(()));
    assert_eq!(s.regs.read_byte(5 * 16), 1);
    assert_eq!(s.regs.read_byte(5 * 16 + 1), 2);
    assert_eq!(s.regs.read_byte(5 * 16 + 2), 0xaa);
    assert!(s.vs_dirty);
    // vl = 0 reads nothing, even from unmapped memory
    let mut s = VectorState::new(128, 64);
    assert_eq!(execute_mask_load(&mut s, &mem, 0x58, vreg(5), 0x9000), Ok(()));
    // failed read
    let mut s = configured(128, Vsew::E8, Vlmul::M1, 10);
    assert_eq!(
        execute_mask_load(&mut s, &mem, 0x58, vreg(5), 0x3007),
        Err(ExecutionError::MemoryAccess(VirtualMemoryError { address: 0x3007 }))
    );
    assert!(!s.vs_dirty);
}
