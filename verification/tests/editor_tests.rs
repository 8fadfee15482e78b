use vti::editor::{compute_note, hex_digit_entry, note_key_result, piano_key_to_semitone_offset, NoteKeyResult};


// ── piano_key_to_semitone_offset ─────────────────────────────────────────

#[test]
fn bottom_row_white_keys() {
    assert_eq!(piano_key_to_semitone_offset('z'), Some(0));   // C
    assert_eq!(piano_key_to_semitone_offset('x'), Some(2));   // D
    assert_eq!(piano_key_to_semitone_offset('c'), Some(4));   // E
    assert_eq!(piano_key_to_semitone_offset('v'), Some(5));   // F
    assert_eq!(piano_key_to_semitone_offset('b'), Some(7));   // G
    assert_eq!(piano_key_to_semitone_offset('n'), Some(9));   // A
    assert_eq!(piano_key_to_semitone_offset('m'), Some(11));  // B
}

#[test]
fn bottom_row_black_keys() {
    assert_eq!(piano_key_to_semitone_offset('s'), Some(1));   // C#
    assert_eq!(piano_key_to_semitone_offset('d'), Some(3));   // D#
    assert_eq!(piano_key_to_semitone_offset('g'), Some(6));   // F#
    assert_eq!(piano_key_to_semitone_offset('h'), Some(8));   // G#
    assert_eq!(piano_key_to_semitone_offset('j'), Some(10));  // A#
}

#[test]
fn top_row_octave_plus1() {
    assert_eq!(piano_key_to_semitone_offset('q'), Some(12));  // C+1
    assert_eq!(piano_key_to_semitone_offset('2'), Some(13));  // C#+1
    assert_eq!(piano_key_to_semitone_offset('w'), Some(14));  // D+1
    assert_eq!(piano_key_to_semitone_offset('3'), Some(15));  // D#+1
    assert_eq!(piano_key_to_semitone_offset('e'), Some(16));  // E+1
    assert_eq!(piano_key_to_semitone_offset('r'), Some(17));  // F+1
    assert_eq!(piano_key_to_semitone_offset('5'), Some(18));  // F#+1
    assert_eq!(piano_key_to_semitone_offset('t'), Some(19));  // G+1
    assert_eq!(piano_key_to_semitone_offset('6'), Some(20));  // G#+1
    assert_eq!(piano_key_to_semitone_offset('y'), Some(21));  // A+1
    assert_eq!(piano_key_to_semitone_offset('7'), Some(22));  // A#+1
    assert_eq!(piano_key_to_semitone_offset('u'), Some(23));  // B+1
}

#[test]
fn top_row_octave_plus2() {
    assert_eq!(piano_key_to_semitone_offset('i'), Some(24));  // C+2
    assert_eq!(piano_key_to_semitone_offset('9'), Some(25));  // C#+2
    assert_eq!(piano_key_to_semitone_offset('o'), Some(26));  // D+2
    assert_eq!(piano_key_to_semitone_offset('0'), Some(27));  // D#+2
    assert_eq!(piano_key_to_semitone_offset('p'), Some(28));  // E+2
    assert_eq!(piano_key_to_semitone_offset('['), Some(29));  // F+2
    assert_eq!(piano_key_to_semitone_offset('='), Some(30));  // F#+2
    assert_eq!(piano_key_to_semitone_offset(']'), Some(31));  // G+2
}

#[test]
fn bottom_row_extension_lower_position() {
    // These keyboard positions map to C+1..E+1 (same as q/2/w/3/e)
    assert_eq!(piano_key_to_semitone_offset(','), Some(12));
    assert_eq!(piano_key_to_semitone_offset('l'), Some(13));
    assert_eq!(piano_key_to_semitone_offset('.'), Some(14));
    assert_eq!(piano_key_to_semitone_offset(';'), Some(15));
    assert_eq!(piano_key_to_semitone_offset('/'), Some(16));
}

#[test]
fn non_note_keys_return_none() {
    // a = note-off, not a note key
    assert_eq!(piano_key_to_semitone_offset('a'), None);
    // k = clear cell, not a note key
    assert_eq!(piano_key_to_semitone_offset('k'), None);
    // f, 1, 4, 8 are unused in the default VT2 layout
    assert_eq!(piano_key_to_semitone_offset('f'), None);
    assert_eq!(piano_key_to_semitone_offset('1'), None);
    assert_eq!(piano_key_to_semitone_offset('4'), None);
    assert_eq!(piano_key_to_semitone_offset('8'), None);
}

// ── compute_note ─────────────────────────────────────────────────────────

#[test]
fn c4_is_36() {
    // C-4 = semitone offset 0 + (4-1)*12 = 36
    assert_eq!(compute_note(0, 4), Some(36));
}

#[test]
fn b4_is_47() {
    assert_eq!(compute_note(11, 4), Some(47));
}

#[test]
fn c1_is_0() {
    assert_eq!(compute_note(0, 1), Some(0));
}

#[test]
fn b8_is_95() {
    // B-8 = 11 + (8-1)*12 = 11 + 84 = 95
    assert_eq!(compute_note(11, 8), Some(95));
}

#[test]
fn out_of_range_returns_none() {
    // offset 31 (G+2) at octave 8 → 31 + 84 = 115 > 95
    assert_eq!(compute_note(31, 8), None);
    // negative octave adjustment (octave=1, offset=0 → 0 OK)
    assert_eq!(compute_note(0, 1), Some(0));
}

// ── note_key_result ───────────────────────────────────────────────────────

#[test]
fn a_gives_sound_off() {
    assert_eq!(note_key_result('a', 4), Some(NoteKeyResult::SoundOff));
}

#[test]
fn k_gives_clear_cell() {
    assert_eq!(note_key_result('k', 4), Some(NoteKeyResult::ClearCell));
}

#[test]
fn z_at_octave4_gives_c4() {
    assert_eq!(note_key_result('z', 4), Some(NoteKeyResult::Note(36)));
}

#[test]
fn u_at_octave4_gives_b5() {
    // 'u' → offset 23 (B+1), octave 4 → 23 + 36 = 59 = B-5
    assert_eq!(note_key_result('u', 4), Some(NoteKeyResult::Note(59)));
}

#[test]
fn out_of_range_note_gives_none() {
    // ']' → offset 31, octave 8 → 31+84 = 115 > 95 → None
    assert_eq!(note_key_result(']', 8), None);
}

#[test]
fn unknown_key_gives_none() {
    assert_eq!(note_key_result('f', 4), None);
    assert_eq!(note_key_result('1', 4), None);
}

// ── hex_digit_entry ───────────────────────────────────────────────────────

#[test]
fn single_digit_field_overwrites() {
    // Volume/ornament/envelope: max = 15
    assert_eq!(hex_digit_entry(0, 7, 15), 7);
    assert_eq!(hex_digit_entry(7, 15, 15), 15);
    assert_eq!(hex_digit_entry(7, 3, 15), 3);   // overwrites, not shifts
}

#[test]
fn single_digit_clamped_to_max() {
    assert_eq!(hex_digit_entry(0, 15, 15), 15);
}

#[test]
fn two_digit_sample_field() {
    // Sample: max = 31 (0x1F)
    assert_eq!(hex_digit_entry(0, 1, 31), 0x01);  // type '1' → 1
    assert_eq!(hex_digit_entry(1, 5, 31), 0x15);  // type '5' → 21
    assert_eq!(hex_digit_entry(1, 15, 31), 0x1F); // type 'F' → 31 (max)
    assert_eq!(hex_digit_entry(2, 0, 31), 31);    // (0x20=32) clamped to 31
}

#[test]
fn two_digit_effect_param() {
    // Effect delay/parameter: max = 255 (0xFF)
    assert_eq!(hex_digit_entry(0, 3, 255), 0x03);
    assert_eq!(hex_digit_entry(3, 7, 255), 0x37);
    // Lower nibble of 0xFF shifted: ((0xFF & 0x0F) << 4) | 5 = 0xF5
    assert_eq!(hex_digit_entry(0xFF, 5, 255), 0xF5);
}

