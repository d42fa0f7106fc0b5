use geohash::{decode_bbox, neighbor, neighbors, Coord, Direction, GeohashError, Neighbors};

const ALL: [Direction; 8] = [
    Direction::SW,
    Direction::S,
    Direction::SE,
    Direction::W,
    Direction::E,
    Direction::NW,
    Direction::N,
    Direction::NE,
];

#[test]
fn to_tuple_is_north_then_east() {
    assert_eq!(Direction::SW.to_tuple(), (-1, -1));
    assert_eq!(Direction::S.to_tuple(), (-1, 0));
    assert_eq!(Direction::SE.to_tuple(), (-1, 1));
    assert_eq!(Direction::W.to_tuple(), (0, -1));
    assert_eq!(Direction::E.to_tuple(), (0, 1));
    assert_eq!(Direction::NW.to_tuple(), (1, -1));
    assert_eq!(Direction::N.to_tuple(), (1, 0));
    assert_eq!(Direction::NE.to_tuple(), (1, 1));
}

#[test]
fn neighbor_in_one_direction() {
    assert_eq!(neighbor("9q60y60rhs", Direction::N).unwrap(), "9q60y60rht");
    assert_eq!(neighbor("ww8p1r4t8", Direction::SW).unwrap(), "ww8p1r4mr");
    assert_eq!(neighbor("9g3m", Direction::NE).unwrap(), "9g3w");
    assert_eq!(neighbor("s", Direction::W).unwrap(), "e");
    assert_eq!(neighbor("s", Direction::S).unwrap(), "k");
}

#[test]
fn neighbors_of_a_long_hash() {
    assert_eq!(
        neighbors("9q60y60rhs").unwrap(),
        Neighbors {
            n: "9q60y60rht".to_owned(),
            ne: "9q60y60rhv".to_owned(),
            e: "9q60y60rhu".to_owned(),
            se: "9q60y60rhg".to_owned(),
            s: "9q60y60rhe".to_owned(),
            sw: "9q60y60rh7".to_owned(),
            w: "9q60y60rhk".to_owned(),
            nw: "9q60y60rhm".to_owned(),
        }
    );
}

#[test]
fn neighbors_agree_with_neighbor() {
    for hash in ["s", "9g3m", "ww8p1r4t8", "7zzzzzzzzzzz", "kpbpbpbpbpbp"] {
        let all = neighbors(hash).unwrap();
        assert_eq!(all.sw, neighbor(hash, Direction::SW).unwrap());
        assert_eq!(all.s, neighbor(hash, Direction::S).unwrap());
        assert_eq!(all.se, neighbor(hash, Direction::SE).unwrap());
        assert_eq!(all.w, neighbor(hash, Direction::W).unwrap());
        assert_eq!(all.e, neighbor(hash, Direction::E).unwrap());
        assert_eq!(all.nw, neighbor(hash, Direction::NW).unwrap());
        assert_eq!(all.n, neighbor(hash, Direction::N).unwrap());
        assert_eq!(all.ne, neighbor(hash, Direction::NE).unwrap());
    }
}

#[test]
fn neighbor_is_the_cell_beside() {
    for hash in ["s", "9g3m", "ww8p1r4t8", "9q60y60rhsgg", "7zzzzzzzzzzz"] {
        let cell = decode_bbox(hash).unwrap();
        let width = cell.max().x - cell.min().x;
        let height = cell.max().y - cell.min().y;
        for d in ALL {
            let (north, east) = d.to_tuple();
            let beside = neighbor(hash, d).unwrap();
            assert_eq!(beside.len(), hash.len());
            let next = decode_bbox(&beside).unwrap();
            assert_eq!(next.min().x, cell.min().x + east * width);
            assert_eq!(next.max().x, cell.max().x + east * width);
            assert_eq!(next.min().y, cell.min().y + north * height);
            assert_eq!(next.max().y, cell.max().y + north * height);
        }
    }
}

#[test]
fn neighbor_and_back() {
    let hash = "ww8p1r4t8";
    assert_eq!(
        neighbor(&neighbor(hash, Direction::N).unwrap(), Direction::S).unwrap(),
        hash
    );
    assert_eq!(
        neighbor(&neighbor(hash, Direction::SE).unwrap(), Direction::NW).unwrap(),
        hash
    );
    assert_eq!(
        neighbor(&neighbor(hash, Direction::W).unwrap(), Direction::E).unwrap(),
        hash
    );
}

#[test]
fn no_neighbor_beyond_the_north_edge() {
    // the cell "z" is the north-east corner of the grid
    match neighbor("z", Direction::N) {
        Err(GeohashError::InvalidCoordinateRange(c)) => {
            assert_eq!(c, Coord { x: 4026531840, y: 4831838208 })
        }
        other => panic!("{:?}", other),
    }
    assert!(neighbor("z", Direction::S).is_ok());
    assert!(neighbor("z", Direction::W).is_ok());
    assert!(neighbor("z", Direction::SW).is_ok());
}

#[test]
fn no_neighbor_beyond_the_west_edge() {
    match neighbor("000000000000", Direction::W) {
        Err(GeohashError::InvalidCoordinateRange(c)) => assert_eq!(c, Coord { x: -2, y: 2 }),
        other => panic!("{:?}", other),
    }
    match neighbor("000000000000", Direction::S) {
        Err(GeohashError::InvalidCoordinateRange(c)) => assert_eq!(c, Coord { x: 2, y: -2 }),
        other => panic!("{:?}", other),
    }
    assert_eq!(
        neighbor("000000000000", Direction::NE).unwrap(),
        "000000000003"
    );
}

#[test]
fn neighbors_end_with_the_first_direction_off_the_grid() {
    // south-west and south of "z" lie on the grid, south-east does not
    match neighbors("z") {
        Err(GeohashError::InvalidCoordinateRange(c)) => {
            assert_eq!(c, Coord { x: 4563402752, y: 2684354560 })
        }
        other => panic!("{:?}", other),
    }
    // south-west of the first cell is off the grid on both axes
    match neighbors("0") {
        Err(GeohashError::InvalidCoordinateRange(c)) => {
            assert_eq!(c, Coord { x: -268435456, y: -536870912 })
        }
        other => panic!("{:?}", other),
    }
}

#[test]
fn the_whole_grid_has_no_neighbor() {
    // the empty hash stands for the whole grid, and no hash is as short
    for d in ALL {
        assert!(matches!(
            neighbor("", d),
            Err(GeohashError::InvalidLength(0))
        ));
    }
    assert!(matches!(
        neighbors(""),
        Err(GeohashError::InvalidLength(0))
    ));
}

#[test]
fn neighbor_of_a_hash_that_cannot_be_decoded() {
    assert!(matches!(
        neighbor("abcd", Direction::N),
        Err(GeohashError::InvalidHashCharacter('a'))
    ));
    assert!(matches!(
        neighbor("ww8p1r4t8ww8p1r4t8", Direction::N),
        Err(GeohashError::InvalidHash(_))
    ));
    assert!(matches!(
        neighbors("9q6o"),
        Err(GeohashError::InvalidHashCharacter('o'))
    ));
    assert!(matches!(
        neighbors("0123456789bcd"),
        Err(GeohashError::InvalidHash(_))
    ));
}
