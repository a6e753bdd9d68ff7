use prada::architecture::{
    pack_address, subarrayid_to_subarray_address, u64_to_string, PRADAArchitecture, RowAddress,
    SubarrayId, NR_SUBARRAYS, ROWS_PER_SUBARRAY, ROW_ID_BITMASK, SUBARRAY_ID_BITMASK,
};

#[test]
fn architecture_new_keeps_dimensions() {
    let arch = PRADAArchitecture::new(128, 512);
    assert_eq!(arch.nr_subarrays, 128);
    assert_eq!(arch.rows_per_subarray, 512);
}

#[test]
fn constants_are_consistent() {
    assert_eq!(NR_SUBARRAYS, 128);
    assert_eq!(ROWS_PER_SUBARRAY, 512);
    assert_eq!(SUBARRAY_ID_BITMASK, 0b1_111_111_000_000_000);
    assert_eq!(ROW_ID_BITMASK, 0b0_000_000_111_111_111);
    assert_eq!(1u64 << 9, ROWS_PER_SUBARRAY);
}

#[test]
fn address_round_trip() {
    // for all sub < S, local < R: extracting gives back what was packed
    for &(sub, local) in &[(0u64, 0u64), (0, 511), (3, 77), (64, 1), (127, 511)] {
        let addr = pack_address(SubarrayId(sub), local);
        assert_eq!(addr.get_subarray_id(), SubarrayId(sub));
        assert_eq!(addr.get_local_row(), local);
        assert_eq!(addr.0, sub * ROWS_PER_SUBARRAY + local);
    }
}

#[test]
fn subarray_base_address() {
    assert_eq!(subarrayid_to_subarray_address(SubarrayId(0)).0, 0);
    assert_eq!(subarrayid_to_subarray_address(SubarrayId(3)).0, 3 * 512);
    assert_eq!(subarrayid_to_subarray_address(SubarrayId(127)).0, 127 * 512);
}

#[test]
fn partner_involution() {
    // for all id < S: partner(partner(id)) == id and partner(id) != id
    for id in 0..NR_SUBARRAYS {
        let s = SubarrayId(id);
        let p = s.get_partner_subarray();
        assert_ne!(p, s);
        assert_eq!(p.get_partner_subarray(), s);
    }
    assert_eq!(SubarrayId(0).get_partner_subarray(), SubarrayId(1));
    assert_eq!(SubarrayId(1).get_partner_subarray(), SubarrayId(0));
    assert_eq!(SubarrayId(6).get_partner_subarray(), SubarrayId(7));
}

#[test]
fn reprojection_keeps_local_row() {
    let addr = pack_address(SubarrayId(5), 200);
    let moved = addr.local_rowaddress_to_subarray_id(SubarrayId(9));
    assert_eq!(moved.get_subarray_id(), SubarrayId(9));
    assert_eq!(moved.get_local_row(), 200);
}

#[test]
fn decimal_rendering() {
    assert_eq!(u64_to_string(0), "0");
    assert_eq!(u64_to_string(7), "7");
    assert_eq!(u64_to_string(10), "10");
    assert_eq!(u64_to_string(120), "120");
    assert_eq!(u64_to_string(98765), "98765");
}

#[test]
fn address_rendering() {
    assert_eq!(RowAddress(3 * 512 + 77).render(), "3.77");
    assert_eq!(RowAddress(0).render(), "0.0");
    assert_eq!(RowAddress(511).render(), "0.511");
    assert_eq!(SubarrayId(42).render(), "42");
}

#[test]
fn row_address_from_u64() {
    let a: RowAddress = RowAddress::from(1234u64);
    assert_eq!(a.0, 1234);
}
