use data_engine_columnar::arrow_utils::fill_bit_range_unchecked;

fn fill_ranges() {
    let mut buffer: Vec<u8> = vec![0; 8];

    fill_bit_range_unchecked(&mut buffer, 0, 1);
    assert_eq!(vec![0x01, 0, 0, 0, 0, 0, 0, 0], buffer);

    fill_bit_range_unchecked(&mut buffer, 0, 2);
    assert_eq!(vec![0x03, 0, 0, 0, 0, 0, 0, 0], buffer);

    fill_bit_range_unchecked(&mut buffer, 7, 8);
    assert_eq!(vec![0x83, 0, 0, 0, 0, 0, 0, 0], buffer);

    fill_bit_range_unchecked(&mut buffer, 8, 17);
    assert_eq!(vec![0x83, 0xFF, 0x01, 0, 0, 0, 0, 0], buffer);

    fill_bit_range_unchecked(&mut buffer, 25, 26);
    assert_eq!(vec![0x83, 0xFF, 0x01, 0x02, 0, 0, 0, 0], buffer);

    fill_bit_range_unchecked(&mut buffer, 33, 35);
    assert_eq!(vec![0x83, 0xFF, 0x01, 0x02, 0x06, 0, 0, 0], buffer);

    fill_bit_range_unchecked(&mut buffer, 41, 63);
    assert_eq!(vec![0x83, 0xFF, 0x01, 0x02, 0x06, 0xFE, 0xFF, 0x7F], buffer);
}

#[test]
fn arrow_utils_test_fill_bit_range_unchecked() {
    fill_ranges();
}

#[test]
fn arrow_helpers_test_fill_bit_range_unchecked() {
    fill_ranges();
}
