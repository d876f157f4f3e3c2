use remote_logger::frame::{decode_length, encode_length, LengthWidth};

#[test]
fn lengths_are_big_endian() {
    assert_eq!(encode_length(LengthWidth::U64, 0x0102_0304), vec![0, 0, 0, 0, 1, 2, 3, 4]);
    assert_eq!(
        encode_length(LengthWidth::U128, 0x0102_0304),
        vec![0, 0, 0, 0, 0, 0, 0, 0, 0, 0, 0, 0, 1, 2, 3, 4]
    );
}

#[test]
fn the_length_zero_is_all_zeros() {
    assert_eq!(encode_length(LengthWidth::U64, 0), vec![0; 8]);
    assert_eq!(encode_length(LengthWidth::U128, 0), vec![0; 16]);
}

#[test]
fn lengths_read_back() {
    for width in [LengthWidth::U64, LengthWidth::U128] {
        for len in [0, 1, 255, 256, 65_535, 65_536, 0xffff_ffff, usize::MAX] {
            let prefix = encode_length(width, len);
            assert_eq!(prefix.len(), width.size());
            assert_eq!(decode_length(width, &prefix), len);
        }
    }
}

#[test]
fn a_length_is_cut_down_to_the_size_of_a_usize() {
    let mut prefix = vec![0; 16];
    prefix[0] = 1;
    prefix[15] = 7;
    assert_eq!(decode_length(LengthWidth::U128, &prefix), 7);
    assert_eq!(decode_length(LengthWidth::U128, &vec![0xff; 16]), usize::MAX);
}

#[test]
fn every_prefix_is_the_one_of_its_length() {
    let prefix = vec![0, 0, 0, 0, 0x12, 0x34, 0x56, 0x78];
    let len = decode_length(LengthWidth::U64, &prefix);
    assert_eq!(len, 0x1234_5678);
    assert_eq!(encode_length(LengthWidth::U64, len), prefix);
}

#[test]
fn lengths_are_eight_bytes_wide_by_default() {
    assert_eq!(LengthWidth::default(), LengthWidth::U64);
    assert_eq!(LengthWidth::default().size(), 8);
    assert_eq!(LengthWidth::U128.size(), 16);
}
