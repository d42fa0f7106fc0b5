use geohash::codec::MAX_LEN;
use geohash::coord::AXIS_STEPS;
use geohash::{decode, decode_bbox, encode, Coord};

fn positions() -> Vec<Coord> {
    let marks: [i64; 9] = [
        0,
        1,
        0x7fff_ffff,
        0x8000_0000,
        0x8000_0001,
        707926335,
        2989781614,
        3490357667,
        AXIS_STEPS - 1,
    ];
    let mut all = Vec::new();
    for x in marks {
        for y in marks {
            all.push(Coord { x, y });
        }
    }
    all
}

#[test]
fn the_decoded_cell_holds_the_position() {
    for c in positions() {
        for len in 1..=MAX_LEN {
            let hash = encode(c, len).unwrap();
            assert_eq!(hash.len(), len);
            let cell = decode_bbox(&hash).unwrap();
            assert!(cell.min().x <= c.x && c.x < cell.max().x);
            assert!(cell.min().y <= c.y && c.y < cell.max().y);
        }
    }
}

#[test]
fn the_decoded_cell_is_the_position_rounded_down() {
    for c in positions() {
        for len in 1..=MAX_LEN {
            let bits = 5 * len as u32;
            let (lat_bits, lon_bits) = geohash::axis_bits(bits);
            let width = 1i64 << (32 - lon_bits);
            let height = 1i64 << (32 - lat_bits);
            let cell = decode_bbox(&encode(c, len).unwrap()).unwrap();
            assert_eq!(cell.min(), Coord { x: c.x - c.x % width, y: c.y - c.y % height });
            assert_eq!(cell.max(), Coord { x: cell.min().x + width, y: cell.min().y + height });
        }
    }
}

#[test]
fn the_far_edge_is_not_held_by_its_cell() {
    let c = Coord { x: AXIS_STEPS, y: AXIS_STEPS };
    let cell = decode_bbox(&encode(c, 4).unwrap()).unwrap();
    assert_eq!(cell.min(), Coord { x: 0, y: 0 });
    assert!(cell.max().x < c.x);
    assert!(cell.max().y < c.y);
}

#[test]
fn a_longer_hash_has_smaller_margins() {
    for c in positions() {
        let mut last: Option<(i64, i64)> = None;
        for len in 1..=MAX_LEN {
            let (_, lon_err, lat_err) = decode(&encode(c, len).unwrap()).unwrap();
            assert!(lon_err > 0 && lat_err > 0);
            if let Some((lon_before, lat_before)) = last {
                assert!(lon_err < lon_before);
                assert!(lat_err < lat_before);
            }
            last = Some((lon_err, lat_err));
        }
    }
}

#[test]
fn margins_by_length() {
    let expected: [(i64, i64); 12] = [
        (1 << 28, 1 << 29),
        (1 << 26, 1 << 26),
        (1 << 23, 1 << 24),
        (1 << 21, 1 << 21),
        (1 << 18, 1 << 19),
        (1 << 16, 1 << 16),
        (1 << 13, 1 << 14),
        (1 << 11, 1 << 11),
        (1 << 8, 1 << 9),
        (1 << 6, 1 << 6),
        (1 << 3, 1 << 4),
        (1 << 1, 1 << 1),
    ];
    let c = Coord { x: 3490357667, y: 3050199874 };
    for len in 1..=MAX_LEN {
        let (_, lon_err, lat_err) = decode(&encode(c, len).unwrap()).unwrap();
        assert_eq!((lon_err, lat_err), expected[len - 1]);
    }
}

#[test]
fn encoding_the_centre_gives_the_hash_back() {
    for hash in ["s", "9g3m", "ww8p1r4t8", "9q60y60rhsgg", "zzzzzzzzzzzz", "000000000000"] {
        let (c, _, _) = decode(hash).unwrap();
        assert_eq!(encode(c, hash.len()).unwrap(), hash);
    }
}

#[test]
fn a_shorter_hash_is_a_prefix_of_a_longer_one() {
    for c in positions() {
        let full = encode(c, MAX_LEN).unwrap();
        for len in 1..MAX_LEN {
            assert_eq!(encode(c, len).unwrap(), &full[..len]);
        }
    }
}
