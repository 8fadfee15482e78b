use vti::formats::{stc, FormatError};
use vti::{FeaturesLevel, NOTE_NONE, NOTE_SOUND_OFF};

/// A small STC file: one position (pattern 1 transposed by 2), sample 0,
/// ornament 1 and a one-row pattern.
fn small_stc() -> Vec<u8> {
    let mut d = vec![0u8; 176];
    d[0] = 6;
    d[1] = 126; // positions
    d[3] = 129; // ornaments
    d[5] = 162; // patterns
    let mut name = b"MY TUNE".to_vec();
    name.resize(18, b' ');
    d[7..25].copy_from_slice(&name);
    d[25] = 176; // size
    // sample entry 0 at 27: first tick, loop count 0
    d[27] = 0;
    d[28] = 0x1F;
    d[29] = 0x25;
    d[30] = 0x23;
    // positions: last index 0; pattern 1, transposition 2
    d[126] = 0;
    d[127] = 1;
    d[128] = 2;
    // ornament entry: number 1, offsets 0..31
    d[129] = 1;
    for q in 0..32 {
        d[130 + q] = q as u8;
    }
    // pattern table: pattern 1 at channels 170, 174, 175; end
    d[162..169].copy_from_slice(&[1, 170, 0, 174, 0, 175, 0]);
    d[169] = 0xFF;
    d[170..174].copy_from_slice(&[0x60, 0x71, 0x10, 0xFF]);
    d[174] = 0x81;
    d[175] = 0x80;
    d
}

#[test]
fn stc_reads_a_small_module() {
    let data = small_stc();
    let m = stc::parse(&data).expect("parses");
    assert_eq!(m.features_level, FeaturesLevel::Pt35);
    assert_eq!(m.ton_table, 1);
    assert_eq!(m.initial_delay, 6);
    assert_eq!(m.title, "MY TUNE");
    assert_eq!(m.author, "");
    assert_eq!(m.positions.length, 1);
    assert_eq!(m.positions.value[0], 0);

    let p = m.patterns[0].as_ref().expect("pattern 0");
    assert_eq!(p.length, 1);
    let a = p.items[0].channel[0];
    assert_eq!(a.note, 18);
    assert_eq!(a.sample, 1);
    assert_eq!(a.ornament, 1);
    assert_eq!(a.envelope, 15);
    assert_eq!(p.items[0].channel[1].note, NOTE_NONE);
    assert_eq!(p.items[0].channel[2].note, NOTE_SOUND_OFF);
    assert!(m.patterns[1].is_none());

    let o = m.ornaments[1].as_ref().expect("ornament 1");
    assert_eq!(o.length, 32);
    assert_eq!(o.loop_pos, 0);
    assert_eq!(o.items[5], 5);
    assert_eq!(o.items[31], 31);

    let s = m.samples[1].as_ref().expect("sample 1");
    assert_eq!(s.length, 33);
    assert_eq!(s.loop_pos, 32);
    let t = s.items[0];
    assert_eq!(t.amplitude, 15);
    assert_eq!(t.add_to_ton, 0x123);
    assert!(t.envelope_enabled);
    assert!(t.mixer_noise);
    assert_eq!(t.add_to_envelope_or_noise, 5);
    assert!(t.mixer_ton);
    assert!(!t.ton_accumulation);
    let t1 = s.items[1];
    assert_eq!(t1.amplitude, 0);
    assert_eq!(t1.add_to_ton, 0);
    assert!(m.samples[2].is_none());
}

#[test]
fn stc_sample_loop_extends_by_repeating() {
    let mut data = small_stc();
    // loop count 2, one extra step: 3 steps, looping from step 2, extended to 32 + ...
    data[27 + 0x61] = 2;
    data[27 + 0x62] = 1;
    data[31] = 0x05; // tick 1: amplitude 5
    let m = stc::parse(&data).expect("parses");
    let s = m.samples[1].as_ref().unwrap();
    // three steps, loop at step 2 (index 1): 3 + 33 - 2 = 34 steps, loop at 32
    assert_eq!(s.length, 34);
    assert_eq!(s.loop_pos, 32);
    assert_eq!(s.items[32].amplitude, s.items[1].amplitude);
    assert_eq!(s.items[33].amplitude, s.items[2].amplitude);
    assert_eq!(s.items[1].amplitude, 5);
}

#[test]
fn stc_compiler_names_are_dropped() {
    let mut data = small_stc();
    data[7..25].copy_from_slice(b"SONG BY ST COMPILE");
    let m = stc::parse(&data).expect("parses");
    assert_eq!(m.title, "");
}

#[test]
fn stc_size_word_adds_characters_to_the_title() {
    let mut data = small_stc();
    data[25] = 0x41;
    data[26] = 0x42;
    let m = stc::parse(&data).expect("parses");
    assert_eq!(m.title, "MY TUNEAB");
}

#[test]
fn stc_position_list_past_the_data_gives_no_positions() {
    let mut data = small_stc();
    data[1] = 0xFF;
    data[2] = 0x00;
    let m = stc::parse(&data).expect("parses");
    assert_eq!(m.positions.length, 0);
    assert!(m.patterns[0].is_none());
    assert!(m.samples[1].is_none());
}

#[test]
fn stc_too_short_and_unreadable() {
    assert_eq!(stc::parse(&[0u8; 125]).err(), Some(FormatError::TooShort));
    let mut data = small_stc();
    data[174] = 0x90; // a byte no command has
    assert_eq!(stc::parse(&data).err(), Some(FormatError::UnknownCommand));
}
