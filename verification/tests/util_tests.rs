use vti::util::{int1d_to_str, int2_to_str, int2d_to_str, int4d_to_str, ints_to_time, note_to_str, samp_to_str};
use vti::{NOTE_NONE, NOTE_SOUND_OFF};

#[test]
fn note_to_str_sound_off() {
    assert_eq!(note_to_str(NOTE_SOUND_OFF), "R--");
}

#[test]
fn note_to_str_no_note() {
    assert_eq!(note_to_str(NOTE_NONE), "---");
}

#[test]
fn note_to_str_c1() {
    assert_eq!(note_to_str(0), "C-1");
}

#[test]
fn note_to_str_c2() {
    assert_eq!(note_to_str(12), "C-2");
}

#[test]
fn note_to_str_last_note() {
    // note 95 = B-8
    assert_eq!(note_to_str(95), "B-8");
}

#[test]
fn samp_to_str_zero() {
    assert_eq!(samp_to_str(0), "00");
}

#[test]
fn samp_to_str_max_sample() {
    assert_eq!(samp_to_str(31), "1F");
}

#[test]
fn int2_to_str_pads() {
    assert_eq!(int2_to_str(3), "03");
    assert_eq!(int2_to_str(99), "99");
}

#[test]
fn ints_to_time_zero() {
    assert_eq!(ints_to_time(0), "00:00");
}

#[test]
fn ints_to_time_one_minute() {
    // 50 Hz × 60 s = 3000 ticks
    assert_eq!(ints_to_time(3000), "01:00");
}

#[test]
fn int1d_to_str_formats_with_decimal() {
    assert_eq!(int1d_to_str(32), "3.2");
    assert_eq!(int1d_to_str(10), "1.0");
    assert_eq!(int1d_to_str(0),  "0.0");
    assert_eq!(int1d_to_str(-15), "-1.5");
    assert_eq!(int1d_to_str(-5), "-0.5");
    assert_eq!(int1d_to_str(-1), "-0.1");
}

#[test]
fn int4d_to_str_pads_to_four_hex_digits() {
    assert_eq!(int4d_to_str(0x0C22), "0C22");
    assert_eq!(int4d_to_str(0x0000), "0000");
    assert_eq!(int4d_to_str(0xFFFF), "FFFF");
    assert_eq!(int4d_to_str(0x0001), "0001");
}

#[test]
fn int2d_to_str_pads_to_two_hex_digits() {
    assert_eq!(int2d_to_str(0),    "00");
    assert_eq!(int2d_to_str(0xFF), "FF");
    assert_eq!(int2d_to_str(0x0A), "0A");
    assert_eq!(int2d_to_str(1),    "01");
}

#[test]
fn note_to_str_all_12_in_octave_1() {
    let expected = ["C-1","C#1","D-1","D#1","E-1","F-1","F#1","G-1","G#1","A-1","A#1","B-1"];
    for (i, name) in expected.iter().enumerate() {
        assert_eq!(note_to_str(i as i8), *name, "note {} should be {}", i, name);
    }
}

#[test]
fn note_to_str_octave_5_c() {
    // Note 48 = C-5 (4 full octaves × 12 = 48, octave = 48/12 + 1 = 5)
    assert_eq!(note_to_str(48), "C-5");
}
