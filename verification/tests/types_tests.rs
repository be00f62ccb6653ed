use riscv_vector::types::{Eew, Nf, VReg, Vlmul, Vsew, Vtype};

#[test]
fn vtype_from_raw_decodes_fields() {
    // vma=1, vta=1, vsew=001 (e16), vlmul=010 (m4)
    let vt = Vtype::from_raw(0b1100_1010, 64, 128).unwrap();
    assert_eq!(vt.vsew, Vsew::E16);
    assert_eq!(vt.vlmul, Vlmul::M4);
    assert!(vt.vta);
    assert!(vt.vma);
    // vsew=010 (e32), vlmul=110 (mf4): VLMAX = 128 / (32 * 4) = 1
    let vt = Vtype::from_raw(0b0001_0110, 64, 128).unwrap();
    assert_eq!(vt.vsew, Vsew::E32);
    assert_eq!(vt.vlmul, Vlmul::Mf4);
    assert!(!vt.vta);
    assert!(!vt.vma);
}

#[test]
fn vtype_from_raw_rejects_high_bits_and_vill() {
    assert_eq!(Vtype::from_raw(0x100, 64, 128), None);
    assert_eq!(Vtype::from_raw(1u64 << 63, 64, 128), None);
}

#[test]
fn vtype_from_raw_rejects_reserved_encodings() {
    // vlmul = 100 is reserved
    assert_eq!(Vtype::from_raw(0b0000_0100, 64, 128), None);
    // vsew = 100 is reserved
    assert_eq!(Vtype::from_raw(0b0010_0000, 64, 128), None);
}

#[test]
fn vtype_from_raw_rejects_sew_above_elen() {
    // e64 with ELEN = 32
    assert_eq!(Vtype::from_raw(0b0001_1000, 32, 128), None);
    assert!(Vtype::from_raw(0b0001_1000, 64, 128).is_some());
}

#[test]
fn vtype_from_raw_rejects_zero_vlmax() {
    // e64 with LMUL = 1/8 at VLEN = 128: 128 / (64 * 8) = 0
    assert_eq!(Vtype::from_raw(0b0001_1101, 64, 128), None);
    // e8 with LMUL = 1/8: 128 / 64 = 2
    assert!(Vtype::from_raw(0b0000_0101, 64, 128).is_some());
}

#[test]
fn vsew_and_vlmul_from_bits() {
    assert_eq!(Vsew::from_bits(3), Some(Vsew::E64));
    assert_eq!(Vsew::from_bits(5), None);
    assert_eq!(Vsew::from_bits(8 + 1), Some(Vsew::E16));
    assert_eq!(Vlmul::from_bits(7), Some(Vlmul::Mf2));
    assert_eq!(Vlmul::from_bits(4), None);
}

#[test]
fn vlmul_vlmax_values() {
    assert_eq!(Vlmul::M1.vlmax(128, Vsew::E8), 16);
    assert_eq!(Vlmul::M8.vlmax(128, Vsew::E8), 128);
    assert_eq!(Vlmul::M2.vlmax(256, Vsew::E32), 16);
    assert_eq!(Vlmul::Mf2.vlmax(128, Vsew::E16), 4);
    assert_eq!(Vlmul::Mf8.vlmax(128, Vsew::E64), 0);
}

#[test]
fn vlmul_fraction_and_register_count() {
    assert_eq!(Vlmul::M4.as_fraction(), (4, 1));
    assert_eq!(Vlmul::Mf4.as_fraction(), (1, 4));
    assert_eq!(Vlmul::M8.register_count(), 8);
    assert_eq!(Vlmul::Mf2.register_count(), 1);
}

#[test]
fn vreg_from_bits_range() {
    assert_eq!(VReg::from_bits(31).unwrap().to_bits(), 31);
    assert!(VReg::from_bits(32).is_none());
    assert_eq!(VReg::v0().to_bits(), 0);
}

#[test]
fn nf_new_range() {
    assert!(Nf::new(0).is_none());
    assert_eq!(Nf::new(1).unwrap().fields_per_segment(), 1);
    assert_eq!(Nf::new(8).unwrap().fields_per_segment(), 8);
    assert!(Nf::new(9).is_none());
}

#[test]
fn eew_widths() {
    assert_eq!(Eew::E8.bytes_width(), 1);
    assert_eq!(Eew::E64.bits_width(), 64);
    assert_eq!(Vsew::E32.bytes_width(), 4);
}
