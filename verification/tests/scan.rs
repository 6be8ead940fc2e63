use thanatos::scan::{candidate_tiles, is_power_of_two};

#[test]
fn powers_of_two() {
    for k in 0..(usize::BITS as usize) {
        assert!(is_power_of_two(1usize << k));
    }
    assert!(!is_power_of_two(0));
    assert!(!is_power_of_two(3));
    assert!(!is_power_of_two(6));
    assert!(!is_power_of_two(1023));
    assert!(!is_power_of_two(1025));
    assert!(!is_power_of_two(usize::MAX));
    assert!(!is_power_of_two(usize::MAX / 2 + 2));
}

/// A stream that decodes to `tiles` tiles of zeros.
fn zero_tiles(tiles: usize) -> Vec<u8> {
    let mut rom = Vec::new();
    let mut left = tiles * 32;
    while left > 0 {
        // a repeat of 3 to 4098 bytes
        let count = left.min(4096);
        let operand = count - 3;
        rom.extend_from_slice(&[0xE0 | (operand >> 8) as u8, operand as u8, 0x00]);
        left -= count;
    }
    rom.push(0xFF);
    rom
}

#[test]
fn candidate_needs_a_power_of_two_of_tiles() {
    assert_eq!(candidate_tiles(&zero_tiles(128), 0, 128).unwrap().len(), 128);
    assert_eq!(candidate_tiles(&zero_tiles(512), 0, 128).unwrap().len(), 512);
    assert!(candidate_tiles(&zero_tiles(129), 0, 128).is_none());
    assert!(candidate_tiles(&zero_tiles(192), 0, 128).is_none());
}

#[test]
fn candidate_needs_the_threshold_and_less_than_a_full_set() {
    assert!(candidate_tiles(&zero_tiles(64), 0, 128).is_none());
    assert_eq!(candidate_tiles(&zero_tiles(64), 0, 64).unwrap().len(), 64);
    assert_eq!(candidate_tiles(&zero_tiles(1), 0, 0).unwrap().len(), 1);
    assert!(candidate_tiles(&zero_tiles(1024), 0, 128).is_none());
}

#[test]
fn candidate_needs_whole_tiles() {
    // 128 tiles and one byte more
    let mut rom = zero_tiles(128);
    rom.pop();
    rom.extend_from_slice(&[0x00, 0x00, 0xFF]);
    assert!(candidate_tiles(&rom, 0, 1).is_none());
    // no output at all
    assert!(candidate_tiles(&[0xFF], 0, 0).is_none());
}

#[test]
fn candidate_needs_a_decode_that_succeeds() {
    let mut rom = zero_tiles(128);
    rom.pop();
    assert!(candidate_tiles(&rom, 0, 128).is_none());
    assert!(candidate_tiles(&zero_tiles(128), 1, 1).is_none());
}
