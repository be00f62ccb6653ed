use riscv_vector::arith::{read_element_u64, write_element_u64};
use riscv_vector::load::{
    check_register_group_alignment, execute_indexed_load, execute_strided_load,
    execute_unit_stride_load, groups_overlap, indexed_load_overlap_allowed, mask_bit,
    read_group_element, read_mem_element, snapshot_mask, validate_segment_registers,
    write_group_element, VirtualMemory,
};
use riscv_vector::state::VectorState;
use riscv_vector::types::{
    Eew, ExecutionError, Nf, VReg, VirtualMemoryError, Vlmul, Vsew, Vtype,
};

fn vreg(n: u8) -> VReg {
    VReg::from_bits(n).unwrap()
}

fn configured(vlen: u32, sew: Vsew, vlmul: Vlmul, vl: u32) -> VectorState {
    let mut s = VectorState::new(vlen, 64);
    s.vtype = Some(Vtype { vma: false, vta: false, vsew: sew, vlmul });
    s.vl = vl;
    s
}

/// Memory holding `bytes` at `[start, start + bytes.len())`; any other access fails.
struct TestMemory {
    start: u64,
    bytes: Vec<u8>,
}

impl TestMemory {
    fn read(&self, addr: u64, len: u32) -> Result<Vec<u8>, VirtualMemoryError> {
        let end = addr.checked_add(len as u64);
        match end {
            Some(end) if addr >= self.start && end <= self.start + self.bytes.len() as u64 => {
                let off = (addr - self.start) as usize;
                Ok(self.bytes[off..off + len as usize].to_vec())
            }
            _ => Err(VirtualMemoryError { address: addr }),
        }
    }
}

impl VirtualMemory for TestMemory {
    fn read_spec(&self, addr: u64, len: u32) -> Result<Vec<u8>, VirtualMemoryError> {
        self.read(addr, len)
    }

    fn read_slice(&self, addr: u64, len: u32) -> Result<Vec<u8>, VirtualMemoryError> {
        self.read(addr, len)
    }
}

fn memory(start: u64, n: usize) -> TestMemory {
    TestMemory { start, bytes: (0..n).map(|k| (k as u8).wrapping_add(1)).collect() }
}

fn elements(s: &VectorState, reg: u8, sew: Vsew, n: u16) -> Vec<u64> {
    (0..n).map(|i| read_element_u64(&s.regs, vreg(reg), i, sew)).collect()
}

#[test]
fn mask_bit_reads_lsb_first_and_false_past_end() {
    let mask = vec![0b0000_0101u8, 0b1000_0000];
    assert!(mask_bit(&mask, 0));
    assert!(!mask_bit(&mask, 1));
    assert!(mask_bit(&mask, 2));
    assert!(mask_bit(&mask, 15));
    assert!(!mask_bit(&mask, 16));
    assert!(!mask_bit(&mask, 1000));
}

#[test]
fn snapshot_mask_unmasked_is_all_ones() {
    let mut s = configured(128, Vsew::E8, Vlmul::M1, 10);
    s.regs.write_byte(0, 0x0f);
    s.regs.write_byte(1, 0xff);
    s.regs.write_byte(2, 0xff);
    let all = snapshot_mask(&s.regs, true, 10);
    assert_eq!(all, vec![0xffu8; 16]);
    for i in 0..128u16 {
        assert!(mask_bit(&all, i));
    }
    let masked = snapshot_mask(&s.regs, false, 10);
    // bytes covering 10 bits are copied, the rest are zero
    assert_eq!(masked[0], 0x0f);
    assert_eq!(masked[1], 0xff);
    assert_eq!(masked[2], 0);
}

#[test]
fn groups_overlap_cases() {
    assert!(groups_overlap(vreg(4), 4, vreg(6), 2));
    assert!(groups_overlap(vreg(6), 2, vreg(4), 4));
    assert!(!groups_overlap(vreg(4), 2, vreg(6), 2));
    assert!(!groups_overlap(vreg(6), 2, vreg(4), 2));
}

#[test]
fn indexed_overlap_rules() {
    // disjoint groups are always allowed
    assert!(indexed_load_overlap_allowed(vreg(8), 2, vreg(4), 4, Eew::E32, Vsew::E16, Vlmul::M2));
    // equal EEW: allowed
    assert!(indexed_load_overlap_allowed(vreg(16), 2, vreg(16), 2, Eew::E32, Vsew::E32, Vlmul::M2));
    // narrower data: allowed only from the index base
    assert!(indexed_load_overlap_allowed(vreg(4), 2, vreg(4), 4, Eew::E32, Vsew::E16, Vlmul::M2));
    assert!(!indexed_load_overlap_allowed(vreg(6), 2, vreg(4), 4, Eew::E32, Vsew::E16, Vlmul::M2));
    // wider data with index EMUL >= 1: the groups must end together
    assert!(indexed_load_overlap_allowed(vreg(8), 4, vreg(10), 2, Eew::E16, Vsew::E32, Vlmul::M4));
    assert!(!indexed_load_overlap_allowed(vreg(8), 4, vreg(8), 2, Eew::E16, Vsew::E32, Vlmul::M4));
    // wider data with fractional index EMUL: never
    assert!(!indexed_load_overlap_allowed(vreg(8), 1, vreg(8), 1, Eew::E8, Vsew::E32, Vlmul::M1));
}

#[test]
fn register_group_alignment_and_segments() {
    assert_eq!(check_register_group_alignment(0x10, vreg(8), 4), Ok(()));
    assert_eq!(
        check_register_group_alignment(0x10, vreg(6), 4),
        Err(ExecutionError::IllegalInstruction { address: 0x10 })
    );
    let nf3 = Nf::new(3).unwrap();
    assert_eq!(validate_segment_registers(0x20, vreg(8), true, 2, nf3), Ok(()));
    assert_eq!(validate_segment_registers(0x20, vreg(26), true, 2, nf3), Ok(()));
    // 28 + 3 * 2 > 32
    assert_eq!(
        validate_segment_registers(0x20, vreg(28), true, 2, nf3),
        Err(ExecutionError::IllegalInstruction { address: 0x20 })
    );
    // masked load into v0
    assert_eq!(
        validate_segment_registers(0x20, vreg(0), false, 1, nf3),
        Err(ExecutionError::IllegalInstruction { address: 0x20 })
    );
    assert_eq!(validate_segment_registers(0x20, vreg(0), true, 1, nf3), Ok(()));
    // misaligned base
    assert_eq!(
        validate_segment_registers(0x20, vreg(3), true, 2, nf3),
        Err(ExecutionError::IllegalInstruction { address: 0x20 })
    );
}

#[test]
fn mem_and_group_elements() {
    let mem = memory(0x100, 16);
    assert_eq!(read_mem_element(&mem, 0x100, Eew::E32), Ok(0x0403_0201));
    assert_eq!(read_mem_element(&mem, 0x10e, Eew::E16), Ok(0x100f));
    assert_eq!(
        read_mem_element(&mem, 0x10f, Eew::E16),
        Err(VirtualMemoryError { address: 0x10f })
    );
    let mut s = configured(128, Vsew::E8, Vlmul::M1, 0);
    write_group_element(&mut s.regs, vreg(3), 5, Eew::E16, 0xabcd);
    assert_eq!(read_group_element(&s.regs, vreg(3), 5, Eew::E16), 0xabcd);
    assert_eq!(read_element_u64(&s.regs, vreg(3), 10, Vsew::E8), 0xcd);
    write_group_element(&mut s.regs, vreg(3), 9, Eew::E16, 0x1234);
    assert_eq!(read_element_u64(&s.regs, vreg(4), 1, Vsew::E16), 0x1234);
}

#[test]
fn unit_stride_load() {
    let mem = memory(0x1000, 64);
    let mut s = configured(128, Vsew::E16, Vlmul::M1, 4);
    let r = execute_unit_stride_load::<false, TestMemory>(&mut s, &mem, vreg(2), true, 0x1000, Eew::E16, 1, Nf::new(1).unwrap());
    assert_eq!(r, Ok(()));
    assert_eq!(elements(&s, 2, Vsew::E16, 4), vec![0x0201, 0x0403, 0x0605, 0x0807]);
    assert!(s.vs_dirty);
    assert_eq!(s.vstart, 0);
}

#[test]
fn unit_stride_segment_load() {
    let mem = memory(0x1000, 64);
    let mut s = configured(128, Vsew::E8, Vlmul::M1, 3);
    let r = execute_unit_stride_load::<false, TestMemory>(&mut s, &mem, vreg(4), true, 0x1000, Eew::E8, 1, Nf::new(2).unwrap());
    assert_eq!(r, Ok(()));
    assert_eq!(elements(&s, 4, Vsew::E8, 3), vec![1, 3, 5]);
    assert_eq!(elements(&s, 5, Vsew::E8, 3), vec![2, 4, 6]);
}

#[test]
fn unit_stride_fault_sets_vstart() {
    // memory holds 5 bytes: element 2 (bytes 4..6) fails
    let mem = memory(0x1000, 5);
    let mut s = configured(128, Vsew::E16, Vlmul::M1, 4);
    let r = execute_unit_stride_load::<false, TestMemory>(&mut s, &mem, vreg(2), true, 0x1000, Eew::E16, 1, Nf::new(1).unwrap());
    assert_eq!(r, Err(ExecutionError::MemoryAccess(VirtualMemoryError { address: 0x1004 })));
    assert_eq!(elements(&s, 2, Vsew::E16, 4), vec![0x0201, 0x0403, 0, 0]);
    assert_eq!(s.vstart, 2);
    assert!(s.vs_dirty);
    assert_eq!(s.vl, 4);
}

#[test]
fn unit_stride_fault_at_vstart_leaves_state() {
    let mem = memory(0x1000, 4);
    let mut s = configured(128, Vsew::E16, Vlmul::M1, 4);
    s.vstart = 2;
    let r = execute_unit_stride_load::<false, TestMemory>(&mut s, &mem, vreg(2), true, 0x1000, Eew::E16, 1, Nf::new(1).unwrap());
    assert_eq!(r, Err(ExecutionError::MemoryAccess(VirtualMemoryError { address: 0x1004 })));
    assert_eq!(s.vstart, 2);
    assert!(!s.vs_dirty);
}

#[test]
fn segment_fault_writes_no_field_of_failing_element() {
    // element 1's second field (byte 3) is missing
    let mem = memory(0x1000, 3);
    let mut s = configured(128, Vsew::E8, Vlmul::M1, 2);
    let r = execute_unit_stride_load::<false, TestMemory>(&mut s, &mem, vreg(4), true, 0x1000, Eew::E8, 1, Nf::new(2).unwrap());
    assert_eq!(r, Err(ExecutionError::MemoryAccess(VirtualMemoryError { address: 0x1003 })));
    assert_eq!(elements(&s, 4, Vsew::E8, 2), vec![1, 0]);
    assert_eq!(elements(&s, 5, Vsew::E8, 2), vec![2, 0]);
    assert_eq!(s.vstart, 1);
}

#[test]
fn fault_only_first_truncates_vl() {
    let mem = memory(0x1000, 5);
    let mut s = configured(128, Vsew::E16, Vlmul::M1, 4);
    let r = execute_unit_stride_load::<true, TestMemory>(&mut s, &mem, vreg(2), true, 0x1000, Eew::E16, 1, Nf::new(1).unwrap());
    assert_eq!(r, Ok(()));
    assert_eq!(s.vl, 2);
    assert_eq!(s.vstart, 0);
    assert!(s.vs_dirty);
    assert_eq!(elements(&s, 2, Vsew::E16, 2), vec![0x0201, 0x0403]);
}

#[test]
fn fault_only_first_at_element_zero_traps() {
    let mem = memory(0x2000, 16);
    let mut s = configured(128, Vsew::E16, Vlmul::M1, 4);
    let r = execute_unit_stride_load::<true, TestMemory>(&mut s, &mem, vreg(2), true, 0x1000, Eew::E16, 1, Nf::new(1).unwrap());
    assert_eq!(r, Err(ExecutionError::MemoryAccess(VirtualMemoryError { address: 0x1000 })));
    assert_eq!(s.vl, 4);
    assert_eq!(s.vstart, 0);
    assert!(!s.vs_dirty);
}

#[test]
fn masked_load_skips_inactive_elements() {
    // element 2 would fault, but it is masked off
    let mem = memory(0x1000, 4);
    let mut s = configured(128, Vsew::E8, Vlmul::M1, 4);
    s.regs.write_byte(0, 0b0000_1011);
    for i in 0..4u16 {
        write_element_u64(&mut s.regs, vreg(2), i, Vsew::E8, 0xee);
    }
    let r = execute_unit_stride_load::<false, TestMemory>(&mut s, &mem, vreg(2), false, 0x1000, Eew::E8, 1, Nf::new(1).unwrap());
    assert_eq!(r, Ok(()));
    assert_eq!(elements(&s, 2, Vsew::E8, 4), vec![1, 2, 0xee, 4]);
}

#[test]
fn strided_load() {
    let mem = memory(0x1000, 64);
    let mut s = configured(128, Vsew::E8, Vlmul::M1, 4);
    let r = execute_strided_load(&mut s, &mem, vreg(2), true, 0x1000, 3, Eew::E8, 1, Nf::new(1).unwrap());
    assert_eq!(r, Ok(()));
    assert_eq!(elements(&s, 2, Vsew::E8, 4), vec![1, 4, 7, 10]);
}

#[test]
fn strided_load_negative_stride() {
    let mem = memory(0x1000, 64);
    let mut s = configured(128, Vsew::E16, Vlmul::M1, 3);
    let r = execute_strided_load(&mut s, &mem, vreg(2), true, 0x1010, -4, Eew::E16, 1, Nf::new(1).unwrap());
    assert_eq!(r, Ok(()));
    // bytes at 0x1010, 0x100c, 0x1008
    assert_eq!(elements(&s, 2, Vsew::E16, 3), vec![0x1211, 0x0e0d, 0x0a09]);
}

#[test]
fn strided_segment_fault_in_later_field_marks_progress() {
    // element 0 field 0 at 0x1000 is readable, field 1 at 0x1001 is not
    let mem = memory(0x1000, 1);
    let mut s = configured(128, Vsew::E8, Vlmul::M1, 2);
    let r = execute_strided_load(&mut s, &mem, vreg(4), true, 0x1000, 8, Eew::E8, 1, Nf::new(2).unwrap());
    assert_eq!(r, Err(ExecutionError::MemoryAccess(VirtualMemoryError { address: 0x1001 })));
    // field 0 of element 0 was written before the fault
    assert_eq!(read_element_u64(&s.regs, vreg(4), 0, Vsew::E8), 1);
    assert_eq!(s.vstart, 0);
    assert!(s.vs_dirty);
}

#[test]
fn strided_fault_on_first_field_of_vstart_element() {
    let mem = memory(0x1000, 1);
    let mut s = configured(128, Vsew::E8, Vlmul::M1, 2);
    let r = execute_strided_load(&mut s, &mem, vreg(4), true, 0x2000, 8, Eew::E8, 1, Nf::new(2).unwrap());
    assert_eq!(r, Err(ExecutionError::MemoryAccess(VirtualMemoryError { address: 0x2000 })));
    assert!(!s.vs_dirty);
    assert_eq!(s.vstart, 0);
}

#[test]
fn indexed_load() {
    let mem = memory(0x1000, 64);
    let mut s = configured(128, Vsew::E8, Vlmul::M1, 3);
    for (i, off) in [0u64, 8, 4].iter().enumerate() {
        write_element_u64(&mut s.regs, vreg(8), i as u16, Vsew::E16, *off);
    }
    let r = execute_indexed_load(&mut s, &mem, vreg(2), vreg(8), true, 0x1000, Eew::E8, Eew::E16, 1, Nf::new(1).unwrap());
    assert_eq!(r, Ok(()));
    assert_eq!(elements(&s, 2, Vsew::E8, 3), vec![1, 9, 5]);
}

#[test]
fn indexed_segment_load_and_fault() {
    let mem = memory(0x1000, 16);
    let mut s = configured(128, Vsew::E8, Vlmul::M1, 3);
    for (i, off) in [2u64, 14, 0].iter().enumerate() {
        write_element_u64(&mut s.regs, vreg(8), i as u16, Vsew::E8, *off);
    }
    let r = execute_indexed_load(&mut s, &mem, vreg(2), vreg(8), true, 0x1000, Eew::E16, Eew::E8, 1, Nf::new(2).unwrap());
    // element 1: field 0 at 0x100e is readable, field 1 at 0x1010 is not
    assert_eq!(r, Err(ExecutionError::MemoryAccess(VirtualMemoryError { address: 0x1010 })));
    assert_eq!(read_element_u64(&s.regs, vreg(2), 0, Vsew::E16), 0x0403);
    assert_eq!(read_element_u64(&s.regs, vreg(3), 0, Vsew::E16), 0x0605);
    assert_eq!(read_element_u64(&s.regs, vreg(2), 1, Vsew::E16), 0x100f);
    assert_eq!(read_element_u64(&s.regs, vreg(3), 1, Vsew::E16), 0);
    assert_eq!(s.vstart, 1);
    assert!(s.vs_dirty);
}

#[test]
fn indexed_load_with_same_width_overlap() {
    let mem = memory(0x1000, 64);
    let mut s = configured(128, Vsew::E8, Vlmul::M1, 3);
    for (i, off) in [5u64, 1, 3].iter().enumerate() {
        write_element_u64(&mut s.regs, vreg(8), i as u16, Vsew::E8, *off);
    }
    let r = execute_indexed_load(&mut s, &mem, vreg(8), vreg(8), true, 0x1000, Eew::E8, Eew::E8, 1, Nf::new(1).unwrap());
    assert_eq!(r, Ok(()));
    assert_eq!(elements(&s, 8, Vsew::E8, 3), vec![6, 2, 4]);
}
