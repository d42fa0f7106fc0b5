use geohash::alphabet::{BASE32_CODES, DECODER, NOT_A_SYMBOL};
use geohash::bits::deinterleave;
use geohash::codec::MAX_LEN;
use geohash::coord::AXIS_STEPS;
use geohash::error::HASH_TOO_LONG;
use geohash::{decode, decode_bbox, encode, valid_length, Coord, GeohashError, Rect};

const HALF: i64 = 0x8000_0000;

#[test]
fn alphabet_is_digits_and_letters_without_a_i_l_o() {
    let symbols: String = BASE32_CODES.iter().collect();
    assert_eq!(symbols, "0123456789bcdefghjkmnpqrstuvwxyz");
    assert_eq!(BASE32_CODES[0], '0');
    assert_eq!(BASE32_CODES[31], 'z');
}

#[test]
fn decoder_is_the_inverse_of_the_alphabet() {
    for (value, symbol) in BASE32_CODES.iter().enumerate() {
        assert_eq!(DECODER[*symbol as usize] as usize, value);
    }
    let mut symbols = 0;
    for byte in 0..256usize {
        let value = DECODER[byte];
        if value == NOT_A_SYMBOL {
            continue;
        }
        symbols += 1;
        assert!(value < 32);
        assert_eq!(BASE32_CODES[value as usize] as usize, byte);
    }
    assert_eq!(symbols, 32);
}

#[test]
fn decoder_refuses_the_letters_left_out() {
    for byte in [b'a', b'i', b'l', b'o', b'A', b'Z', b' ', b'-', 0u8, 0x7f, 0x80, 0xff] {
        assert_eq!(DECODER[byte as usize], NOT_A_SYMBOL);
    }
}

#[test]
fn encode_corners_of_the_grid() {
    assert_eq!(encode(Coord { x: 0, y: 0 }, 12).unwrap(), "000000000000");
    assert_eq!(
        encode(Coord { x: AXIS_STEPS - 1, y: AXIS_STEPS - 1 }, 12).unwrap(),
        "zzzzzzzzzzzz"
    );
    assert_eq!(encode(Coord { x: HALF, y: HALF }, 1).unwrap(), "s");
    assert_eq!(encode(Coord { x: HALF, y: HALF }, 12).unwrap(), "s00000000000");
    assert_eq!(encode(Coord { x: HALF - 1, y: HALF - 1 }, 12).unwrap(), "7zzzzzzzzzzz");
}

#[test]
fn encode_wraps_the_far_edges() {
    assert_eq!(
        encode(Coord { x: AXIS_STEPS, y: AXIS_STEPS }, 12).unwrap(),
        "000000000000"
    );
    assert_eq!(
        encode(Coord { x: AXIS_STEPS, y: HALF }, 3).unwrap(),
        encode(Coord { x: 0, y: HALF }, 3).unwrap()
    );
    assert_eq!(
        encode(Coord { x: HALF, y: AXIS_STEPS }, 3).unwrap(),
        encode(Coord { x: HALF, y: 0 }, 3).unwrap()
    );
}

#[test]
fn encode_every_length() {
    let c = Coord { x: 707926335, y: 2989781614 };
    let full = "9q60y60rhsgg";
    for len in 1..=MAX_LEN {
        assert_eq!(encode(c, len).unwrap(), &full[..len]);
    }
}

#[test]
fn encode_refuses_lengths_outside_one_to_twelve() {
    let c = Coord { x: 3543348019, y: 2911033389 };
    assert!(matches!(encode(c, 0), Err(GeohashError::InvalidLength(0))));
    assert!(matches!(encode(c, 13), Err(GeohashError::InvalidLength(13))));
    assert!(matches!(
        encode(c, usize::MAX),
        Err(GeohashError::InvalidLength(usize::MAX))
    ));
    assert!(encode(c, 1).is_ok());
    assert!(encode(c, 12).is_ok());
}

#[test]
fn encode_refuses_positions_off_the_grid() {
    for c in [
        Coord { x: -1, y: 0 },
        Coord { x: 0, y: -1 },
        Coord { x: AXIS_STEPS + 1, y: 0 },
        Coord { x: 0, y: AXIS_STEPS + 1 },
        Coord { x: i64::MIN, y: i64::MAX },
    ] {
        match encode(c, 5) {
            Err(GeohashError::InvalidCoordinateRange(reported)) => assert_eq!(reported, c),
            other => panic!("{:?} for {:?}", other, c),
        }
    }
}

#[test]
fn encode_reports_the_length_before_the_position() {
    let c = Coord { x: -1, y: 0 };
    assert!(matches!(encode(c, 13), Err(GeohashError::InvalidLength(13))));
    assert!(matches!(encode(c, 0), Err(GeohashError::InvalidLength(0))));
    assert!(matches!(
        encode(c, 12),
        Err(GeohashError::InvalidCoordinateRange(_))
    ));
}

#[test]
fn valid_length_is_one_to_twelve() {
    assert!(!valid_length(0));
    for len in 1..=12 {
        assert!(valid_length(len));
    }
    assert!(!valid_length(13));
    assert!(!valid_length(usize::MAX));
}

#[test]
fn decode_bbox_known_cells() {
    assert_eq!(
        decode_bbox("ww8p1r4t8").unwrap(),
        Rect {
            min: Coord { x: 3490357248, y: 3050199040 },
            max: Coord { x: 3490357760, y: 3050200064 },
        }
    );
    assert_eq!(
        decode_bbox("9g3q").unwrap(),
        Rect {
            min: Coord { x: 960495616, y: 2608857088 },
            max: Coord { x: 964689920, y: 2613051392 },
        }
    );
    assert_eq!(
        decode_bbox("s").unwrap(),
        Rect {
            min: Coord { x: HALF, y: HALF },
            max: Coord { x: HALF + 0x2000_0000, y: HALF + 0x4000_0000 },
        }
    );
    assert_eq!(
        decode_bbox("zzzzzzzzzzzz").unwrap(),
        Rect {
            min: Coord { x: AXIS_STEPS - 4, y: AXIS_STEPS - 4 },
            max: Coord { x: AXIS_STEPS, y: AXIS_STEPS },
        }
    );
}

#[test]
fn decode_bbox_of_the_empty_hash_is_the_whole_grid() {
    assert_eq!(
        decode_bbox("").unwrap(),
        Rect {
            min: Coord { x: 0, y: 0 },
            max: Coord { x: AXIS_STEPS, y: AXIS_STEPS },
        }
    );
    assert_eq!(decode("").unwrap(), (Coord { x: HALF, y: HALF }, HALF, HALF));
}

#[test]
fn decode_bbox_of_each_symbol() {
    for (value, symbol) in BASE32_CODES.iter().enumerate() {
        let hash = symbol.to_string();
        let rect = decode_bbox(&hash).unwrap();
        let (lat, lon) = deinterleave((value as u64) << 59);
        assert_eq!(rect.min(), Coord { x: lon as i64, y: lat as i64 });
        assert_eq!(rect.max().x - rect.min().x, 1 << 29);
        assert_eq!(rect.max().y - rect.min().y, 1 << 30);
    }
}

#[test]
fn decode_centre_and_margins() {
    assert_eq!(
        decode("ww8p1r4t8").unwrap(),
        (Coord { x: 3490357504, y: 3050199552 }, 256, 512)
    );
    assert_eq!(
        decode("9g3q").unwrap(),
        (Coord { x: 962592768, y: 2610954240 }, 2097152, 2097152)
    );
    assert_eq!(
        decode("9q60y60rhs").unwrap(),
        (Coord { x: 707926336, y: 2989781568 }, 64, 64)
    );
    assert_eq!(decode("000000000000").unwrap(), (Coord { x: 2, y: 2 }, 2, 2));
}

#[test]
fn decode_is_the_middle_of_decode_bbox() {
    for hash in ["9", "9q", "9q6", "9q60", "9q60y", "9q60y60rhsgg", "zzzz", "b"] {
        let rect = decode_bbox(hash).unwrap();
        let (c, lon_err, lat_err) = decode(hash).unwrap();
        assert_eq!(c.x - lon_err, rect.min().x);
        assert_eq!(c.x + lon_err, rect.max().x);
        assert_eq!(c.y - lat_err, rect.min().y);
        assert_eq!(c.y + lat_err, rect.max().y);
    }
}

#[test]
fn decode_refuses_a_byte_that_is_no_symbol() {
    assert!(matches!(
        decode("abcd"),
        Err(GeohashError::InvalidHashCharacter('a'))
    ));
    assert!(matches!(
        decode_bbox("abcd"),
        Err(GeohashError::InvalidHashCharacter('a'))
    ));
    assert!(matches!(
        decode_bbox("9q6i"),
        Err(GeohashError::InvalidHashCharacter('i'))
    ));
    assert!(matches!(
        decode_bbox("WW8P"),
        Err(GeohashError::InvalidHashCharacter('W'))
    ));
    assert!(matches!(
        decode_bbox("9q 0"),
        Err(GeohashError::InvalidHashCharacter(' '))
    ));
}

#[test]
fn decode_reports_the_first_byte_that_is_no_symbol() {
    assert!(matches!(
        decode_bbox("9qlo"),
        Err(GeohashError::InvalidHashCharacter('l'))
    ));
    assert!(matches!(
        decode_bbox("o9ql"),
        Err(GeohashError::InvalidHashCharacter('o'))
    ));
}

#[test]
fn decode_reads_bytes_not_characters() {
    // the two bytes of the letter are 0xc3 and 0xa9
    assert!(matches!(
        decode_bbox("9\u{e9}"),
        Err(GeohashError::InvalidHashCharacter('\u{c3}'))
    ));
    // seven letters of two bytes each are more than twelve bytes
    assert!(matches!(
        decode_bbox("\u{e9}\u{e9}\u{e9}\u{e9}\u{e9}\u{e9}\u{e9}"),
        Err(GeohashError::InvalidHash(_))
    ));
}

#[test]
fn decode_refuses_a_hash_of_more_than_twelve_bytes() {
    match decode("abcdaaaaaaaaa") {
        Err(GeohashError::InvalidHash(reason)) => assert_eq!(reason, HASH_TOO_LONG),
        other => panic!("{:?}", other),
    }
    match decode_bbox("ww8p1r4t8ww8p1r4t8") {
        Err(GeohashError::InvalidHash(reason)) => {
            assert_eq!(
                reason,
                "Length of hash string greater than maximum allowed length"
            )
        }
        other => panic!("{:?}", other),
    }
    assert!(decode_bbox("0123456789bc").is_ok());
    assert!(matches!(
        decode_bbox("0123456789bcd"),
        Err(GeohashError::InvalidHash(_))
    ));
}

#[test]
fn rect_new_puts_the_corners_in_order() {
    let a = Coord { x: 5, y: 20 };
    let b = Coord { x: 15, y: 10 };
    let r = Rect::new(a, b);
    assert_eq!(r.min(), Coord { x: 5, y: 10 });
    assert_eq!(r.max(), Coord { x: 15, y: 20 });
    assert_eq!(Rect::new(b, a), r);
    assert_eq!(Rect::new(a, a).min(), a);
    assert_eq!(Rect::new(a, a).max(), a);
}
