use trustzone_m::hash::hash_vector_name;

#[test]
fn hash_of_the_catalog_check_input() {
    assert_eq!(hash_vector_name("123456789"), 0x765E_7680);
}

#[test]
fn hash_of_the_empty_name() {
    assert_eq!(hash_vector_name(""), 0xFFFF_FFFF);
}

#[test]
fn hash_of_known_names() {
    assert_eq!(hash_vector_name("write_thing"), 0xF7C8_FBB0);
    assert_eq!(hash_vector_name("read_thing"), 0xEAB2_C8E5);
    assert_eq!(hash_vector_name("return_5"), 0xBB8A_65F0);
    assert_eq!(hash_vector_name("double"), 0xA32D_2E61);
    assert_eq!(hash_vector_name("a"), 0x579B_24DF);
}

#[test]
fn hash_covers_the_utf8_bytes_of_the_name() {
    assert_eq!(hash_vector_name("\u{e9}"), 0x9D38_B2F9);
}

#[test]
fn hash_is_deterministic() {
    let names = ["", "a", "write_thing", "read_thing", "blink_led_with_uart"];
    for name in names {
        let owned = String::from(name);
        assert_eq!(hash_vector_name(name), hash_vector_name(name));
        assert_eq!(hash_vector_name(name), hash_vector_name(owned.as_str()));
    }
}

#[test]
fn hash_is_not_the_identity_on_lengths() {
    assert_ne!(hash_vector_name("ab"), hash_vector_name("ba"));
    assert_ne!(hash_vector_name("a"), 1);
}

fn checksum_by_division(bytes: &[u8]) -> u32 {
    let mut register: u32 = 0;
    for byte in bytes {
        register ^= (*byte as u32) << 24;
        for _ in 0..8 {
            register = if register & 0x8000_0000 != 0 {
                (register << 1) ^ 0x04C1_1DB7
            } else {
                register << 1
            };
        }
    }
    register ^ 0xFFFF_FFFF
}

#[test]
fn hash_is_the_checksum_as_it_is_defined_bit_by_bit() {
    let mut names = vec![
        String::new(),
        String::from("a"),
        String::from("123456789"),
        String::from("write_thing"),
        String::from("blink_led_with_uart"),
        String::from("r\u{e9}sum\u{e9}_\u{4e16}\u{754c}_\u{1F600}"),
        String::from("\0"),
        String::from("\0\0\0\0"),
    ];
    let mut long = String::new();
    for index in 0..300u32 {
        long.push(char::from_u32(0x20 + index % 0x5F).unwrap());
        names.push(long.clone());
    }
    for name in &names {
        assert_eq!(hash_vector_name(name), checksum_by_division(name.as_bytes()));
    }
    assert_eq!(checksum_by_division(b"123456789"), 0x765E_7680);
    assert_eq!(checksum_by_division(b""), 0xFFFF_FFFF);
}
