use geohash::bits::{deinterleave, interleave, spread, squash};

#[test]
fn spread_puts_bits_on_even_places() {
    assert_eq!(spread(0), 0);
    assert_eq!(spread(1), 1);
    assert_eq!(spread(2), 4);
    assert_eq!(spread(3), 5);
    assert_eq!(spread(0x8000_0001), 0x4000_0000_0000_0001);
    assert_eq!(spread(0xffff_ffff), 0x5555_5555_5555_5555);
}

#[test]
fn squash_reads_the_even_places() {
    assert_eq!(squash(0), 0);
    assert_eq!(squash(0xffff_ffff_ffff_ffff), 0xffff_ffff);
    assert_eq!(squash(0xaaaa_aaaa_aaaa_aaaa), 0);
    assert_eq!(squash(0x5555_5555_5555_5555), 0xffff_ffff);
    assert_eq!(squash(4), 2);
    assert_eq!(squash(6), 2);
}

#[test]
fn interleave_puts_the_first_word_on_even_places() {
    assert_eq!(interleave(1, 0), 1);
    assert_eq!(interleave(0, 1), 2);
    assert_eq!(interleave(0xffff_ffff, 0), 0x5555_5555_5555_5555);
    assert_eq!(interleave(0, 0xffff_ffff), 0xaaaa_aaaa_aaaa_aaaa);
    assert_eq!(interleave(0x1234_5678, 0x9abc_def0), 0x838c_8fb0_b3bc_bf40);
}

#[test]
fn deinterleave_reads_both_words() {
    assert_eq!(deinterleave(0x838c_8fb0_b3bc_bf40), (0x1234_5678, 0x9abc_def0));
    assert_eq!(deinterleave(1), (1, 0));
    assert_eq!(deinterleave(2), (0, 1));
    assert_eq!(deinterleave(u64::MAX), (u32::MAX, u32::MAX));
}

#[test]
fn deinterleave_undoes_interleave() {
    let words: [u32; 8] = [
        0,
        1,
        0x8000_0000,
        0xffff_ffff,
        0x1234_5678,
        0x9abc_def0,
        0x5555_5555,
        0xdead_beef,
    ];
    for a in words {
        for b in words {
            assert_eq!(deinterleave(interleave(a, b)), (a, b));
        }
    }
}

#[test]
fn interleave_undoes_deinterleave() {
    let codes: [u64; 5] = [
        0,
        u64::MAX,
        0x0123_4567_89ab_cdef,
        0x8000_0000_0000_0000,
        0xf0f0_1234_0f0f_4321,
    ];
    for v in codes {
        let (a, b) = deinterleave(v);
        assert_eq!(interleave(a, b), v);
    }
}
