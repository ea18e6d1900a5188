use datacode::{decode, encode, DecodeError};

fn sample(len: usize, seed: u8) -> Vec<u8> {
    let mut bytes = Vec::with_capacity(len);
    let mut x = seed;
    for i in 0..len {
        x = x.wrapping_mul(37).wrapping_add(101).wrapping_add(i as u8);
        bytes.push(x);
    }
    bytes
}

fn scalar_values(text: &str) -> Vec<u32> {
    text.chars().map(u32::from).collect()
}

#[test]
fn empty_input_gives_empty_output() {
    assert_eq!(encode(&[]), "");
    assert_eq!(encode(&[]).chars().count(), 0);
    assert_eq!(decode(""), Ok(vec![]));
}

#[test]
fn singleton_has_tag_and_low_byte() {
    assert_eq!(scalar_values(&encode(&[0])), vec![0x1FF00]);
    assert_eq!(scalar_values(&encode(&[0x5A])), vec![0x1FF5A]);
    assert_eq!(scalar_values(&encode(&[255])), vec![0x1FFFF]);
}

#[test]
fn pair_has_tag_high_then_low_byte() {
    assert_eq!(scalar_values(&encode(&[0, 0])), vec![0x40000]);
    assert_eq!(scalar_values(&encode(&[0x34, 0x12])), vec![0x41234]);
    assert_eq!(scalar_values(&encode(&[255, 1])), vec![0x401FF]);
    assert_eq!(scalar_values(&encode(&[1, 255])), vec![0x4FF01]);
    assert_eq!(scalar_values(&encode(&[255, 255, 255])), vec![0x4FFFF, 0x1FFFF]);
}

#[test]
fn groups_keep_their_order() {
    assert_eq!(
        scalar_values(&encode(&[1, 2, 3, 4, 5])),
        vec![0x40201, 0x40403, 0x1FF05]
    );
    assert_eq!(
        scalar_values(&encode(&[1, 2, 3, 4, 5, 6])),
        vec![0x40201, 0x40403, 0x40605]
    );
}

#[test]
fn every_single_byte_round_trips() {
    for b in 0..=255u8 {
        let text = encode(&[b]);
        assert_eq!(scalar_values(&text), vec![0x1FF00 + u32::from(b)]);
        assert_eq!(decode(&text), Ok(vec![b]));
    }
}

#[test]
fn every_pair_of_bytes_round_trips() {
    for b0 in 0..=255u8 {
        for b1 in 0..=255u8 {
            let text = encode(&[b0, b1]);
            assert_eq!(
                scalar_values(&text),
                vec![0x40000 + 256 * u32::from(b1) + u32::from(b0)]
            );
            assert_eq!(decode(&text), Ok(vec![b0, b1]));
        }
    }
}

#[test]
fn longer_inputs_round_trip() {
    for len in 0..40usize {
        for seed in [0u8, 1, 77, 255] {
            let bytes = sample(len, seed);
            assert_eq!(decode(&encode(&bytes)), Ok(bytes));
        }
    }
    let bytes = sample(4097, 9);
    assert_eq!(decode(&encode(&bytes)), Ok(bytes));
}

#[test]
fn encoded_length_is_half_rounded_up() {
    let expected = [0usize, 1, 1, 2, 2, 3, 3, 4, 4, 5];
    for (len, want) in expected.iter().enumerate() {
        assert_eq!(encode(&sample(len, 3)).chars().count(), *want);
    }
    assert_eq!(encode(&sample(1000, 3)).chars().count(), 500);
    assert_eq!(encode(&sample(1001, 3)).chars().count(), 501);
}

#[test]
fn encoded_code_points_lie_in_exactly_one_range() {
    for len in 0..33usize {
        let bytes = sample(len, 200);
        let values = scalar_values(&encode(&bytes));
        for (i, v) in values.iter().enumerate() {
            let pair = (0x40000..=0x4FFFF).contains(v);
            let singleton = (0x1FF00..=0x1FFFF).contains(v);
            assert!(pair != singleton);
            assert_eq!(pair, 2 * i + 1 < len);
            assert_eq!(singleton, 2 * i + 1 == len);
        }
    }
}

#[test]
fn decode_takes_low_byte_first() {
    assert_eq!(decode("\u{41234}"), Ok(vec![0x34, 0x12]));
    assert_eq!(decode("\u{4FF01}"), Ok(vec![1, 255]));
    assert_eq!(decode("\u{1FF5A}"), Ok(vec![0x5A]));
}

#[test]
fn decode_accepts_singletons_anywhere() {
    assert_eq!(decode("\u{1FF01}\u{40302}"), Ok(vec![1, 2, 3]));
    assert_eq!(decode("\u{1FF01}\u{1FF02}\u{1FF03}"), Ok(vec![1, 2, 3]));
    assert_eq!(
        decode("\u{40201}\u{1FF03}\u{40504}\u{1FF06}"),
        Ok(vec![1, 2, 3, 4, 5, 6])
    );
}

#[test]
fn decode_rejects_the_neighbours_of_both_ranges() {
    assert_eq!(decode("\u{3FFFF}"), Err("invalid character `\u{3FFFF}`".to_string()));
    assert_eq!(decode("\u{50000}"), Err("invalid character `\u{50000}`".to_string()));
    assert_eq!(decode("\u{1FEFF}"), Err("invalid character `\u{1FEFF}`".to_string()));
    assert_eq!(decode("\u{20000}"), Err("invalid character `\u{20000}`".to_string()));
    assert_eq!(decode("\u{0}"), Err("invalid character `\u{0}`".to_string()));
    assert_eq!(decode("\u{10FFFF}"), Err("invalid character `\u{10FFFF}`".to_string()));
}

#[test]
fn decode_reports_the_first_invalid_character() {
    assert_eq!(decode("hello"), Err("invalid character `h`".to_string()));
    assert_eq!(decode("xy"), Err("invalid character `x`".to_string()));
    assert_eq!(decode("yx"), Err("invalid character `y`".to_string()));
    assert_eq!(
        decode("\u{40000}\u{1FF00}a\u{40000}b"),
        Err("invalid character `a`".to_string())
    );
    assert_eq!(
        decode("\u{40000}\u{40000}\u{40000}z"),
        Err("invalid character `z`".to_string())
    );
}

#[test]
fn decode_keeps_nothing_of_a_refused_text() {
    let result = decode("\u{40201}\u{40403} ");
    assert!(result.is_err());
    assert_eq!(result, Err("invalid character ` `".to_string()));
}

#[test]
fn error_message_names_the_character() {
    assert_eq!(DecodeError::InvalidCharacter('h').message(), "invalid character `h`");
    assert_eq!(DecodeError::InvalidCharacter('`').message(), "invalid character ```");
    assert_eq!(
        DecodeError::InvalidCharacter('\u{50000}').message(),
        "invalid character `\u{50000}`"
    );
    assert_eq!(
        DecodeError::InvalidCharacter('a'),
        DecodeError::InvalidCharacter('a')
    );
    assert_ne!(
        DecodeError::InvalidCharacter('a'),
        DecodeError::InvalidCharacter('b')
    );
}
