use riscv_vector::config::{apply_vsetivli, apply_vsetvl, configure_vsetivli, configure_vsetvl};
use riscv_vector::state::{compute_vl, VectorState};
use riscv_vector::types::{ExecutionError, Vlmul, Vsew, Vtype};

fn vt(sew: Vsew, vlmul: Vlmul) -> Vtype {
    Vtype { vma: false, vta: true, vsew: sew, vlmul }
}

#[test]
fn compute_vl_is_min_of_avl_and_vlmax() {
    assert_eq!(compute_vl(5, 16), 5);
    assert_eq!(compute_vl(16, 16), 16);
    assert_eq!(compute_vl(17, 16), 16);
    assert_eq!(compute_vl(0, 16), 0);
}

#[test]
fn vl_choice_meets_spec_constraints() {
    for vlmax in [1u32, 4, 16, 64] {
        for avl in 0..(3 * vlmax) {
            let vl = compute_vl(avl, vlmax);
            if avl <= vlmax {
                assert_eq!(vl, avl);
            }
            if avl < 2 * vlmax {
                assert!((avl + 1) / 2 <= vl && vl <= vlmax);
            } else {
                assert_eq!(vl, vlmax);
            }
        }
    }
}

#[test]
fn vsetvl_with_avl_register() {
    let mut s = VectorState::new(128, 64);
    let r = configure_vsetvl(&mut s, 0x1000, 5, 6, 10, Some(vt(Vsew::E32, Vlmul::M2)));
    // VLMAX = 128 * 2 / 32 = 8
    assert_eq!(r, Ok(8));
    assert_eq!(s.vl, 8);
    assert_eq!(s.vtype, Some(vt(Vsew::E32, Vlmul::M2)));
    assert!(s.vs_dirty);
    assert_eq!(s.vstart, 0);
    let r = configure_vsetvl(&mut s, 0x1000, 5, 6, 3, Some(vt(Vsew::E32, Vlmul::M2)));
    assert_eq!(r, Ok(3));
}

#[test]
fn vsetvl_avl_is_the_whole_register() {
    let mut s = VectorState::new(128, 64);
    // an AVL above 32 bits is still at least VLMAX
    let r = configure_vsetvl(&mut s, 0, 1, 1, 0x1_0000_0000, Some(vt(Vsew::E8, Vlmul::M1)));
    assert_eq!(r, Ok(16));
    let r = configure_vsetvl(&mut s, 0, 1, 1, 0x1_0000_0002, Some(vt(Vsew::E8, Vlmul::M1)));
    assert_eq!(r, Ok(16));
    let r = configure_vsetvl(&mut s, 0, 1, 1, u64::MAX, Some(vt(Vsew::E8, Vlmul::M1)));
    assert_eq!(r, Ok(16));
    let r = configure_vsetvl(&mut s, 0, 1, 1, 0xffff_ffff, Some(vt(Vsew::E8, Vlmul::M1)));
    assert_eq!(r, Ok(16));
    let r = configure_vsetvl(&mut s, 0, 1, 1, 9, Some(vt(Vsew::E8, Vlmul::M1)));
    assert_eq!(r, Ok(9));
}

#[test]
fn vsetvl_rs1_zero_rd_nonzero_sets_vlmax() {
    let mut s = VectorState::new(256, 64);
    let r = configure_vsetvl(&mut s, 0, 3, 0, 0, Some(vt(Vsew::E16, Vlmul::M4)));
    assert_eq!(r, Ok(64));
    assert_eq!(s.vl, 64);
}

#[test]
fn vsetvl_both_zero_keeps_vl_when_vlmax_unchanged() {
    let mut s = VectorState::new(128, 64);
    configure_vsetvl(&mut s, 0, 1, 1, 5, Some(vt(Vsew::E8, Vlmul::M1))).unwrap();
    // e16 with m2 has the same VLMAX (16) as e8 with m1
    let r = configure_vsetvl(&mut s, 0, 0, 0, 0, Some(vt(Vsew::E16, Vlmul::M2)));
    assert_eq!(r, Ok(5));
    assert_eq!(s.vl, 5);
    assert_eq!(s.vtype, Some(vt(Vsew::E16, Vlmul::M2)));
}

#[test]
fn vsetvl_both_zero_with_vlmax_change_sets_vill() {
    let mut s = VectorState::new(128, 64);
    configure_vsetvl(&mut s, 0, 1, 1, 5, Some(vt(Vsew::E8, Vlmul::M1))).unwrap();
    let r = configure_vsetvl(&mut s, 0, 0, 0, 0, Some(vt(Vsew::E32, Vlmul::M1)));
    assert_eq!(r, Ok(0));
    assert_eq!(s.vtype, None);
    assert_eq!(s.vl, 0);
}

#[test]
fn vsetvl_unsupported_vtype_sets_vill() {
    let mut s = VectorState::new(128, 64);
    configure_vsetvl(&mut s, 0, 1, 1, 5, Some(vt(Vsew::E8, Vlmul::M1))).unwrap();
    s.vstart = 3;
    let r = configure_vsetvl(&mut s, 0, 1, 1, 5, None);
    assert_eq!(r, Ok(0));
    assert_eq!(s.vtype, None);
    assert_eq!(s.vl, 0);
    assert_eq!(s.vstart, 0);
    assert!(s.vs_dirty);
}

#[test]
fn vsetvl_when_vector_disallowed_is_illegal() {
    let mut s = VectorState::new(128, 64);
    s.vector_allowed = false;
    let r = configure_vsetvl(&mut s, 0x2000, 1, 1, 5, Some(vt(Vsew::E8, Vlmul::M1)));
    assert_eq!(r, Err(ExecutionError::IllegalInstruction { address: 0x2000 }));
    assert_eq!(s.vl, 0);
    assert!(!s.vs_dirty);
    let r = configure_vsetivli(&mut s, 0x2004, 3, Some(vt(Vsew::E8, Vlmul::M1)));
    assert_eq!(r, Err(ExecutionError::IllegalInstruction { address: 0x2004 }));
}

#[test]
fn vsetivli_uses_immediate_avl() {
    let mut s = VectorState::new(128, 64);
    assert_eq!(configure_vsetivli(&mut s, 0, 31, Some(vt(Vsew::E8, Vlmul::M1))), Ok(16));
    assert_eq!(configure_vsetivli(&mut s, 0, 7, Some(vt(Vsew::E8, Vlmul::M1))), Ok(7));
    assert_eq!(s.vl, 7);
    assert_eq!(configure_vsetivli(&mut s, 0, 7, None), Ok(0));
    assert_eq!(s.vtype, None);
}

/// `vlmul` in bits [2:0], `vsew` in [5:3], `vta` in bit 6, `vma` in bit 7.
fn raw(sew_bits: u64, lmul_bits: u64, vta: bool, vma: bool) -> u64 {
    lmul_bits | (sew_bits << 3) | ((vta as u64) << 6) | ((vma as u64) << 7)
}

#[test]
fn vsetvl_decodes_raw_vtype() {
    let mut s = VectorState::new(128, 64);
    // e32, m2, tail agnostic: VLMAX = 8
    let r = apply_vsetvl(&mut s, 0, 5, 6, 10, raw(2, 1, true, false));
    assert_eq!(r, Ok(8));
    assert_eq!(s.vtype, Some(Vtype { vma: false, vta: true, vsew: Vsew::E32, vlmul: Vlmul::M2 }));
    // AVL above 32 bits
    let r = apply_vsetvl(&mut s, 0, 5, 6, 1 << 32, raw(0, 0, false, false));
    assert_eq!(r, Ok(16));
    // vill set: vtype illegal, vl 0
    let r = apply_vsetvl(&mut s, 0, 5, 6, 10, 1 << 63);
    assert_eq!(r, Ok(0));
    assert_eq!(s.vtype, None);
    assert_eq!(s.vl, 0);
    // reserved vlmul encoding 4
    let r = apply_vsetvl(&mut s, 0, 5, 6, 10, raw(0, 4, false, false));
    assert_eq!(r, Ok(0));
    assert_eq!(s.vtype, None);
    // SEW above ELEN
    let mut s = VectorState::new(128, 32);
    let r = apply_vsetvl(&mut s, 0, 5, 6, 10, raw(3, 0, false, false));
    assert_eq!(r, Ok(0));
    assert_eq!(s.vtype, None);
    s.vector_allowed = false;
    assert_eq!(
        apply_vsetvl(&mut s, 0x40, 5, 6, 10, raw(0, 0, false, false)),
        Err(ExecutionError::IllegalInstruction { address: 0x40 })
    );
}

#[test]
fn vsetivli_decodes_raw_vtype() {
    let mut s = VectorState::new(128, 64);
    // e16, mf2: VLMAX = 128 / 16 / 2 = 4
    assert_eq!(apply_vsetivli(&mut s, 0, 31, raw(1, 7, false, true) as u16), Ok(4));
    assert_eq!(s.vtype, Some(Vtype { vma: true, vta: false, vsew: Vsew::E16, vlmul: Vlmul::Mf2 }));
    assert_eq!(apply_vsetivli(&mut s, 0, 3, raw(1, 7, false, true) as u16), Ok(3));
    // bits above bit 7 set
    assert_eq!(apply_vsetivli(&mut s, 0, 3, 0x100), Ok(0));
    assert_eq!(s.vtype, None);
}
