use dns_codec::{get_bit_position, set_bit_position, DnsParser};

#[test]
fn dns_test_get_bit_position() {
    let mut test_value = 0;
    set_bit_position(0, 2, &mut test_value, 3);
    // Two highest bits should be set
    assert_eq!(test_value, 0b1100000000000000u16);
    let data = get_bit_position(0, 2, &test_value);
    assert_eq!(data, 3);
    // 9 from the left not the right
    set_bit_position(9, 1, &mut test_value, 1);
    let test_bool = get_bit_position(9, 1, &test_value) == 1;
    assert!(test_bool);
    assert_eq!(test_value, 0b1100000001000000u16);
}

#[test]
fn mod_test_get_bit_position() {
    let mut test_value = 0;
    DnsParser::set_bit_position(0, 2, &mut test_value, 3);
    // Two highest bits should be set
    assert_eq!(test_value, 0b1100000000000000u16);
    let data = DnsParser::get_bit_position(0, 2, &test_value);
    assert_eq!(data, 3);
    // 9 from the left not the right
    DnsParser::set_bit_position(9, 1, &mut test_value, 1);
    let test_bool = DnsParser::get_bit_position(9, 1, &test_value) == 1;
    assert!(test_bool);
    assert_eq!(test_value, 0b1100000001000000u16);
}

#[test]
fn extract_after_pack_gives_value_modulo_field_size() {
    for position in 0u8..16 {
        for length in 1u8..=(16 - position) {
            for value in [0u16, 1, 5, 0x1f, 0xabcd, 0xffff] {
                let mut word = 0u16;
                set_bit_position(position, length, &mut word, value);
                let expected = if length == 16 { value } else { value % (1u16 << length) };
                assert_eq!(get_bit_position(position, length, &word), expected);
            }
        }
    }
}

#[test]
fn pack_replaces_only_its_field() {
    let mut word = 0xffffu16;
    set_bit_position(1, 4, &mut word, 0);
    assert_eq!(word, 0b1000_0111_1111_1111);
    set_bit_position(12, 4, &mut word, 0x13);
    assert_eq!(word, 0b1000_0111_1111_0011);
}

#[test]
fn whole_word_and_empty_fields() {
    let mut word = 0u16;
    set_bit_position(0, 16, &mut word, 0xbeef);
    assert_eq!(word, 0xbeef);
    assert_eq!(get_bit_position(0, 16, &word), 0xbeef);
    set_bit_position(3, 0, &mut word, 0xffff);
    assert_eq!(word, 0xbeef);
    assert_eq!(get_bit_position(3, 0, &word), 0);
}
