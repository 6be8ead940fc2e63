use thanatos::{DecompressError, Decompressor, NibblePos, Operation};

fn decode(src: &[u8], offset: usize) -> Result<Vec<u8>, DecompressError> {
    Decompressor::new(src, offset).decompress()
}

#[test]
fn copy_simple_then_exit() {
    let src = [0x03, 0x01, 0x02, 0x03, 0x04, 0xFF];
    assert_eq!(decode(&src, 0), Ok(vec![1, 2, 3, 4]));
}

#[test]
fn repeat_value_small() {
    let src = [0xF0, 0x7F, 0xFF];
    assert_eq!(decode(&src, 0), Ok(vec![0x7F, 0x7F, 0x7F]));
}

#[test]
fn copy_backread_repeats_earlier_output() {
    // count = 1, back = 2: two bytes, each the one two places before the
    // end at the time it is appended
    let src = [0x02, 10, 20, 30, 0x80, 0x02, 0xFF];
    assert_eq!(decode(&src, 0), Ok(vec![10, 20, 30, 20, 30]));
}

#[test]
fn copy_backread_by_one_is_run_length() {
    // count = (0x90 & 0x7f) / 4 + 1 = 5, so six copies of the last byte
    let src = [0x00, 0xAB, 0x90, 0x01, 0xFF];
    assert_eq!(decode(&src, 0), Ok(vec![0xAB; 7]));
}

#[test]
fn copy_backread_overlapping_makes_a_pattern() {
    // count = 2, back = 2: three bytes that cycle through the last two
    let src = [0x01, 1, 2, 0x84, 0x02, 0xFF];
    assert_eq!(decode(&src, 0), Ok(vec![1, 2, 1, 2, 1]));
}

#[test]
fn copy_backread_before_output_start_fails() {
    let src = [0x00, 0x01, 0x80, 0x02, 0xFF];
    assert_eq!(decode(&src, 0), Err(DecompressError::InvalidOperation));
}

#[test]
fn copy_backread_on_empty_output_fails() {
    let src = [0x80, 0x01, 0xFF];
    assert_eq!(decode(&src, 0), Err(DecompressError::InvalidOperation));
}

#[test]
fn copy_backread_by_zero_fails() {
    let src = [0x00, 0x01, 0x80, 0x00, 0xFF];
    assert_eq!(decode(&src, 0), Err(DecompressError::InvalidOperation));
}

#[test]
fn copy_backread_large_form() {
    // 0xC0, lower 0x80: count = ((0 << 1) | 1) + 1 = 2, back = be16(0, 3) = 3
    let src = [0x02, 7, 8, 9, 0xC0, 0x80, 0x03, 0xFF];
    assert_eq!(decode(&src, 0), Ok(vec![7, 8, 9, 7, 8, 9]));
}

#[test]
fn copy_doubled() {
    let src = [0x51, 7, 8, 0xFF];
    assert_eq!(decode(&src, 0), Ok(vec![7, 7, 8, 8]));
}

#[test]
fn copy_interleaved_fixed_first() {
    let src = [0x60, 0xAA, 1, 2, 0xFF];
    assert_eq!(decode(&src, 0), Ok(vec![0xAA, 1, 0xAA, 2]));
}

#[test]
fn copy_interleaved_fixed_second() {
    let src = [0x70, 0xAA, 1, 2, 0xFF];
    assert_eq!(decode(&src, 0), Ok(vec![1, 0xAA, 2, 0xAA]));
}

#[test]
fn copy_nibble_fixed_upper_without_seed() {
    // count = 2; operand 0x05: fixed nibble 5 in the upper half, no seed
    let src = [0x41, 0x05, 0xAB, 0xFF];
    assert_eq!(decode(&src, 0), Ok(vec![0x5A, 0x5B]));
}

#[test]
fn copy_nibble_fixed_lower_with_seed() {
    // count = 2; operand 0x93: seed 3, fixed nibble 0 in the lower half
    let src = [0x41, 0x93, 0xAB, 0xFF];
    assert_eq!(decode(&src, 0), Ok(vec![0x30, 0xA0, 0xB0]));
}

#[test]
fn copy_nibble_fixed_seed_with_fixed_f() {
    // operand 0xC7: seed 7, bit 6 set so the fixed nibble is 0xf, upper half
    let src = [0x40, 0xC7, 0x12, 0xFF];
    assert_eq!(decode(&src, 0), Ok(vec![0xF7, 0xF1]));
}

#[test]
fn copy_nibble_fixed_odd_count_drops_last_low_nibble() {
    // count = 3: nibbles a, b from the first byte and c from the second
    let src = [0x42, 0x10, 0xAB, 0xCD, 0xFF];
    assert_eq!(decode(&src, 0), Ok(vec![0xA0, 0xB0, 0xC0]));
}

#[test]
fn repeat_value_large() {
    // count = be16(0x1, 0x00) + 3 = 259
    let src = [0xE1, 0x00, 0x42, 0xFF];
    assert_eq!(decode(&src, 0), Ok(vec![0x42; 259]));
}

#[test]
fn start_backref_replays_source_and_returns() {
    // 0xFC 0x04: back = 6, count = 3. The cursor goes from 7 to 1; the
    // opcode 0x01 and its two bytes are the three checked reads, after
    // which the cursor is back at 7.
    let src = [0x03, 1, 2, 3, 4, 0xFC, 0x04, 0xFF];
    assert_eq!(decode(&src, 0), Ok(vec![1, 2, 3, 4, 2, 3]));
}

#[test]
fn reads_after_a_displacement_go_on_forward() {
    // as above; behind the displacement two more bytes are copied, and no
    // read puts the cursor back a second time
    let src = [0x03, 1, 2, 3, 4, 0xFC, 0x04, 0x01, 9, 8, 0xFF];
    assert_eq!(decode(&src, 0), Ok(vec![1, 2, 3, 4, 2, 3, 9, 8]));
}

#[test]
fn displacement_can_end_inside_a_copy() {
    // 0xFC 0x05: back = 7, count = 3. The copy of four bytes at index 0 is
    // replayed; its opcode and its first two bytes are the three checked
    // reads, so its last two bytes come from index 7 and 8.
    let src = [0x03, 1, 2, 3, 4, 0xFC, 0x05, 0xAA, 0xBB, 0xFF];
    assert_eq!(decode(&src, 0), Ok(vec![1, 2, 3, 4, 1, 2, 0xAA, 0xBB]));
}

#[test]
fn displacement_counts_checked_reads_and_expiry_checks_only() {
    // 0xFC 0x04: back = 6, count = 3, from index 6 to index 0. The repeat
    // there takes its opcode by a checked read (two left), its value by a
    // raw read (still two left) and ends with an expiry check (one left).
    // The checked read of the opcode at index 2 is the last: the byte that
    // this copy copies is the one at index 6.
    let src = [0xF0, 0x07, 0x00, 0x55, 0xFC, 0x04, 0x99, 0xFF];
    assert_eq!(decode(&src, 0), Ok(vec![7, 7, 7, 0x55, 7, 7, 7, 0x99]));
}

#[test]
fn start_backref_large_form() {
    // 0xF8 0x00 0x05: back = be16(0, 5) + 3 = 8, count = 3; from 8 to 0,
    // where 0x01 copies two bytes, then on from index 8
    let src = [0x01, 5, 6, 0x00, 9, 0xF8, 0x00, 0x05, 0xFF];
    assert_eq!(decode(&src, 0), Ok(vec![5, 6, 9, 5, 6]));
}

#[test]
fn start_backref_before_start_fails() {
    // offset 1; after the operand the cursor is at 3, back = 3 reaches index 0
    let src = [0x00, 0xFC, 0x01, 0xFF];
    assert_eq!(decode(&src, 1), Err(DecompressError::InvalidOperation));
}

#[test]
fn start_backref_past_source_start_fails() {
    // back = 0x3f + 2 = 65, the cursor is at 2
    let src = [0xFC, 0x3F, 0xFF];
    assert_eq!(decode(&src, 0), Err(DecompressError::InvalidOperation));
}

#[test]
fn standing_cursor_is_detected() {
    // back = 2, so every operation puts the cursor back on itself
    let src = [0xFC, 0x00];
    assert_eq!(decode(&src, 0), Err(DecompressError::LoopDetected));
}

#[test]
fn standing_cursor_after_output_is_detected() {
    let src = [0x00, 0x55, 0xFC, 0x00, 0xFF];
    assert_eq!(decode(&src, 0), Err(DecompressError::LoopDetected));
}

fn repeats(full: usize, last_lower: Option<u8>) -> Vec<u8> {
    let mut src = Vec::new();
    for _ in 0..full {
        src.extend_from_slice(&[0xEF, 0xFF, 0x00]);
    }
    if let Some(lower) = last_lower {
        src.extend_from_slice(&[0xEF, lower, 0x00]);
    }
    src.push(0xFF);
    src
}

#[test]
fn output_of_exactly_the_ceiling_is_accepted() {
    // 15 * 4098 + (0xfdf + 3) = 65536
    let src = repeats(15, Some(0xDF));
    assert_eq!(decode(&src, 0), Ok(vec![0u8; 0x10000]));
}

#[test]
fn output_one_past_the_ceiling_fails() {
    // 15 * 4098 + (0xfe0 + 3) = 65537
    let src = repeats(15, Some(0xE0));
    assert_eq!(decode(&src, 0), Err(DecompressError::MaxSizeExceeded));
}

#[test]
fn runaway_output_fails() {
    let src = repeats(40, None);
    assert_eq!(decode(&src, 0), Err(DecompressError::MaxSizeExceeded));
}

#[test]
fn reading_past_the_end_fails() {
    let src = [0x03, 1, 2];
    assert_eq!(decode(&src, 0), Err(DecompressError::InvalidOperation));
}

#[test]
fn missing_exit_fails() {
    let src = [0x00, 1];
    assert_eq!(decode(&src, 0), Err(DecompressError::InvalidOperation));
}

#[test]
fn empty_source_fails() {
    assert_eq!(decode(&[], 0), Err(DecompressError::InvalidOperation));
}

#[test]
fn offset_outside_source_fails() {
    let src = [0xFF];
    assert_eq!(decode(&src, 1), Err(DecompressError::InvalidOperation));
    assert_eq!(decode(&src, 7), Err(DecompressError::InvalidOperation));
}

#[test]
fn exit_alone_gives_empty_output() {
    assert_eq!(decode(&[0xFF], 0), Ok(vec![]));
}

#[test]
fn decode_starts_at_offset() {
    let src = [0xAA, 0xBB, 0x01, 5, 6, 0xFF];
    assert_eq!(decode(&src, 2), Ok(vec![5, 6]));
}

#[test]
fn decode_without_operands() {
    let src = [];
    let mut d = Decompressor::new(&src, 0);
    assert_eq!(Operation::decode(0x00, &mut d), Ok(Operation::CopySimple(0)));
    assert_eq!(Operation::decode(0x3F, &mut d), Ok(Operation::CopySimple(0x3F)));
    assert_eq!(Operation::decode(0x50, &mut d), Ok(Operation::CopyDoubled(0)));
    assert_eq!(Operation::decode(0x5F, &mut d), Ok(Operation::CopyDoubled(15)));
    assert_eq!(Operation::decode(0xFF, &mut d), Ok(Operation::Exit));
}

#[test]
fn decode_copy_nibble_fixed() {
    let src = [0x05, 0x15, 0x93, 0xC7];
    let mut d = Decompressor::new(&src, 0);
    assert_eq!(
        Operation::decode(0x40, &mut d),
        Ok(Operation::CopyNibbleFixed {
            count: 1,
            fixed: 5,
            fixed_pos: NibblePos::Upper,
            initial: None
        })
    );
    assert_eq!(
        Operation::decode(0x4F, &mut d),
        Ok(Operation::CopyNibbleFixed {
            count: 16,
            fixed: 5,
            fixed_pos: NibblePos::Lower,
            initial: None
        })
    );
    assert_eq!(
        Operation::decode(0x41, &mut d),
        Ok(Operation::CopyNibbleFixed {
            count: 2,
            fixed: 0x00,
            fixed_pos: NibblePos::Lower,
            initial: Some(3)
        })
    );
    assert_eq!(
        Operation::decode(0x41, &mut d),
        Ok(Operation::CopyNibbleFixed {
            count: 2,
            fixed: 0x0f,
            fixed_pos: NibblePos::Upper,
            initial: Some(7)
        })
    );
}

#[test]
fn decode_copy_interleaved() {
    let src = [0x11, 0x22];
    let mut d = Decompressor::new(&src, 0);
    assert_eq!(
        Operation::decode(0x60, &mut d),
        Ok(Operation::CopyInterleaved { count: 1, fixed_value: 0x11, fixed_first: true })
    );
    assert_eq!(
        Operation::decode(0x7F, &mut d),
        Ok(Operation::CopyInterleaved { count: 16, fixed_value: 0x22, fixed_first: false })
    );
}

#[test]
fn decode_copy_backread() {
    let src = [0x34, 0x34, 0xFF, 0x56, 0x12, 0x34];
    let mut d = Decompressor::new(&src, 0);
    assert_eq!(
        Operation::decode(0x80, &mut d),
        Ok(Operation::CopyBackread { count: 1, back: 0x0034 })
    );
    // count = 0x3f / 4 + 1, upper two bits of back = 3
    assert_eq!(
        Operation::decode(0xBF, &mut d),
        Ok(Operation::CopyBackread { count: 16, back: 0x0334 })
    );
    // count = ((0x1f << 1) | 1) + 1, back = be16(0x7f, 0x56)
    assert_eq!(
        Operation::decode(0xDF, &mut d),
        Ok(Operation::CopyBackread { count: 64, back: 0x7F56 })
    );
    assert_eq!(
        Operation::decode(0xC1, &mut d),
        Ok(Operation::CopyBackread { count: 3, back: 0x1234 })
    );
}

#[test]
fn decode_repeat_value() {
    let src = [0x09, 0xFF, 0x08, 0x00, 0x07];
    let mut d = Decompressor::new(&src, 0);
    assert_eq!(Operation::decode(0xF0, &mut d), Ok(Operation::RepeatValue { count: 3, value: 9 }));
    assert_eq!(
        Operation::decode(0xEF, &mut d),
        Ok(Operation::RepeatValue { count: 0x0FFF + 3, value: 8 })
    );
    assert_eq!(Operation::decode(0xE0, &mut d), Ok(Operation::RepeatValue { count: 3, value: 7 }));
}

#[test]
fn decode_repeat_value_small_largest() {
    let src = [0x09];
    let mut d = Decompressor::new(&src, 0);
    assert_eq!(Operation::decode(0xF7, &mut d), Ok(Operation::RepeatValue { count: 10, value: 9 }));
}

#[test]
fn decode_start_backref() {
    let src = [0x00, 0xFF, 0x00, 0x00, 0xFF, 0xFF];
    let mut d = Decompressor::new(&src, 0);
    assert_eq!(Operation::decode(0xFC, &mut d), Ok(Operation::StartBackref { count: 3, back: 2 }));
    // back = 0x3f + 2, count = (0x1ff >> 6) + 3
    assert_eq!(
        Operation::decode(0xFD, &mut d),
        Ok(Operation::StartBackref { count: 10, back: 65 })
    );
    assert_eq!(Operation::decode(0xF8, &mut d), Ok(Operation::StartBackref { count: 3, back: 3 }));
    // back = be16(0x1f, 0xff) + 3, count = (0x3ff >> 5) + 3
    assert_eq!(
        Operation::decode(0xFB, &mut d),
        Ok(Operation::StartBackref { count: 34, back: 0x1FFF + 3 })
    );
}

#[test]
fn decode_0xfe_is_a_displacement() {
    let src = [0x40];
    let mut d = Decompressor::new(&src, 0);
    assert_eq!(Operation::decode(0xFE, &mut d), Ok(Operation::StartBackref { count: 4, back: 2 }));
}

#[test]
fn decode_fails_on_missing_operand() {
    let src = [0x01];
    for op in [0x40u8, 0x60, 0x80, 0xF0, 0xFC] {
        let mut d = Decompressor::new(&src, 1);
        assert_eq!(Operation::decode(op, &mut d), Err(DecompressError::InvalidOperation));
    }
    for op in [0xC0u8, 0xE0, 0xF8] {
        let mut d = Decompressor::new(&src, 0);
        assert_eq!(Operation::decode(op, &mut d), Err(DecompressError::InvalidOperation));
    }
}
