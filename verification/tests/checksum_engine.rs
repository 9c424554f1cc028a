use gateway_proxy::checksum;

#[test]
fn checksum_of_empty_is_all_ones() {
    assert_eq!(checksum(&[]), 0xFFFF);
}

#[test]
fn checksum_sums_big_endian_words() {
    // 0x0001 + 0xf203 = 0xf204; complement is 0x0dfb.
    assert_eq!(checksum(&[0x00, 0x01, 0xf2, 0x03]), 0x0dfb);
}

#[test]
fn checksum_odd_byte_is_high_half() {
    // A lone 0x01 contributes 0x0100; complement is 0xfeff.
    assert_eq!(checksum(&[0x01]), 0xfeff);
}

#[test]
fn checksum_folds_carries() {
    // 0xffff + 0x0001 = 0x10000 folds to 0x0001; complement is 0xfffe.
    assert_eq!(checksum(&[0xff, 0xff, 0x00, 0x01]), 0xfffe);
}

#[test]
fn checksum_verification_identity() {
    // Zero the checksum field, compute, write the result back: the
    // recomputed complemented checksum over the patched buffer is zero,
    // i.e. the folded one's-complement sum is 0xFFFF.
    let mut b = vec![
        0x45, 0x00, 0x00, 0x3c, 0x1c, 0x46, 0x40, 0x00, 0x40, 0x06, 0x00, 0x00, 0xac, 0x10,
        0x0a, 0x63, 0xac, 0x10, 0x0a, 0x0c,
    ];
    let c = checksum(&b);
    b[10] = (c >> 8) as u8;
    b[11] = (c & 0xff) as u8;
    assert_eq!(checksum(&b), 0);
}

#[test]
fn checksum_verification_identity_odd_length() {
    let mut b = vec![0x12, 0x34, 0x00, 0x00, 0x56, 0x78, 0x9a];
    let c = checksum(&b);
    b[2] = (c >> 8) as u8;
    b[3] = (c & 0xff) as u8;
    assert_eq!(checksum(&b), 0);
}
