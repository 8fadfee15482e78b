use vti::formats::asc;
use vti::formats::FormatError;
use vti::{FeaturesLevel, NOTE_NONE, NOTE_SOUND_OFF};

#[test]
fn asc_errors_on_empty() {
    assert!(asc::parse(&[]).is_err());
}

#[test]
fn asc0_errors_on_empty() {
    assert!(asc::parse_asc0(&[]).is_err());
}

#[test]
fn asc_ok_on_minimal_header() {
    // 10-byte zeroed blob: delay=0, loop=0, pat_ptrs=0, sam_ptrs=0, orn_ptrs=0, num_pos=0.
    let data = [0u8; 10];
    let result = asc::parse(&data);
    assert!(result.is_ok(), "asc minimal: {:?}", result.as_ref().err());
    assert_eq!(result.unwrap().positions.length, 0);
}

/// One position playing pattern 0: channel A skips one row after a note
/// with sample 0 and ornament 0; B rests; C switches the sound off.
fn small_asc() -> Vec<u8> {
    vec![
        3, 0, // delay, loop position
        10, 0, // pattern table at 10
        25, 0, // sample table at 25
        27, 0, // ornament table at 27
        1, // one position
        0, // position 0: pattern 0
        6, 0, 11, 0, 13, 0, // pattern 0: channels at 16, 21, 23
        0x61, 0xA0, 0xC0, 0x30, 0xFF, // A: skip 1, sample 0, ornament 0, note 0x30, end
        0x61, 0x56, // B: skip 1, rest
        0x61, 0x5F, // C: skip 1, sound off
        4, 0, // sample 0 at 29
        5, 0, // ornament 0 at 32
        0xC3, 0x02, 0xF0, // sample tick: loop + end, tone +2, amplitude 15, noise offset 3
        0x80, 0x01, 0x40, 0xFF, // ornament: loop +1, end -1
    ]
}

fn check_small(m: &vti::Module) {
    assert_eq!(m.features_level, FeaturesLevel::Pt35);
    assert!(!m.vortex_module_header);
    assert_eq!(m.ton_table, 1);
    assert_eq!(m.initial_delay, 3);
    assert_eq!(m.title, "");
    assert_eq!(m.author, "");
    assert_eq!(m.positions.length, 1);
    assert_eq!(m.positions.value[0], 0);
    assert_eq!(m.positions.loop_pos, 0);

    let p = m.patterns[0].as_ref().expect("pattern 0 read");
    assert_eq!(p.length, 2);
    let a = p.items[0].channel[0];
    assert_eq!(a.note, 0x30);
    assert_eq!(a.sample, 1);
    assert_eq!(a.ornament, 1);
    assert_eq!(a.envelope, 15);
    assert_eq!(a.volume, 0);
    assert_eq!(p.items[0].channel[1].note, NOTE_NONE);
    assert_eq!(p.items[0].channel[2].note, NOTE_SOUND_OFF);
    assert_eq!(p.items[1].channel[0].note, NOTE_NONE);
    assert_eq!(p.items[1].channel[1].note, NOTE_NONE);
    assert_eq!(p.items[1].channel[2].note, NOTE_NONE);
    for j in 1..m.patterns.len() {
        assert!(m.patterns[j].is_none());
    }

    let s = m.samples[1].as_ref().expect("sample 1 read");
    assert_eq!(s.length, 1);
    assert_eq!(s.loop_pos, 0);
    let t = s.items[0];
    assert_eq!(t.add_to_ton, 2);
    assert!(t.ton_accumulation);
    assert_eq!(t.amplitude, 15);
    assert!(!t.amplitude_sliding);
    assert!(!t.envelope_enabled);
    assert!(t.envelope_or_noise_accumulation);
    assert_eq!(t.add_to_envelope_or_noise, 3);
    assert!(t.mixer_ton);
    assert!(t.mixer_noise);
    assert!(m.samples[2].is_none());

    let o = m.ornaments[1].as_ref().expect("ornament 1 read");
    assert_eq!(o.length, 2);
    assert_eq!(o.loop_pos, 0);
    assert_eq!(o.items[0], 1);
    assert_eq!(o.items[1], 0);
    assert!(m.ornaments[2].is_none());
}

#[test]
fn asc_reads_notes_skips_samples_and_ornaments() {
    let data = small_asc();
    assert!(asc::ornaments_fit(&data));
    let m = asc::parse(&data).expect("parses");
    check_small(&m);
}

#[test]
fn as0_reads_like_the_asc_it_stands_for() {
    // The same song without the loop byte, the table offsets one lower.
    let asc = small_asc();
    let mut as0 = vec![asc[0], 9, 0, 24, 0, 26, 0];
    as0.extend_from_slice(&asc[8..]);
    let m = asc::parse_asc0(&as0).expect("parses");
    check_small(&m);
}

#[test]
fn asc_too_short_and_too_large() {
    assert_eq!(asc::parse(&[0u8; 9]).err(), Some(FormatError::TooShort));
    assert_eq!(asc::parse_asc0(&[0u8; 8]).err(), Some(FormatError::TooShort));
    assert!(asc::parse_asc0(&[0u8; 9]).is_ok());
    let big = vec![0u8; 65535];
    assert_eq!(asc::parse_asc0(&big).err(), Some(FormatError::FileTooLarge));
}

#[test]
fn asc_reads_title_and_author_before_the_pattern_table() {
    // No positions; the pattern table sits 72 bytes past the position list.
    let mut data = vec![0u8; 80];
    data[0] = 1;
    data[2] = 72;
    let mut title = b"MY SONG".to_vec();
    title.resize(20, b' ');
    let mut author = b"ME\x00".to_vec();
    author.resize(20, b' ');
    data[28..48].copy_from_slice(&title);
    data[52..72].copy_from_slice(&author);
    let m = asc::parse(&data).expect("parses");
    assert_eq!(m.title, "MY SONG");
    assert_eq!(m.author, "ME");
    assert_eq!(m.positions.length, 0);
}

#[test]
fn asc_loop_position_is_kept_within_the_song() {
    let mut data = small_asc();
    data[1] = 7;
    let m = asc::parse(&data).expect("parses");
    assert_eq!(m.positions.loop_pos, 0);
}

#[test]
fn asc_zero_ornament_is_dropped_and_later_numbers_move_down() {
    // Channel A: ornament 0 (a single zero offset), then ornament 1, note.
    let data: Vec<u8> = vec![
        1, 0, 10, 0, 22, 0, 24, 0, 1, 0, // header, one position
        6, 0, 10, 0, 11, 0, // channels at 16, 20, 21
        0xC0, 0xC1, 0x30, 0xFF, // A
        0x56, // B
        0x56, // C
        0, 0, // sample table (unused)
        4, 0, 6, 0, // ornament table: ornament 0 at 28, ornament 1 at 30
        0x40, 0x00, // ornament 0: end, 0
        0x40, 0x05, // ornament 1: end, +5
    ];
    let m = asc::parse(&data).expect("parses");
    let p = m.patterns[0].as_ref().unwrap();
    // File ornament 1 was numbered 2 and moves down to 1.
    assert_eq!(p.items[0].channel[0].ornament, 1);
    // It has no loop marker: play restarts at its start and the offsets
    // climb by 5 until they would leave -0x55..0x55.
    let o = m.ornaments[1].as_ref().expect("ornament 1");
    assert_eq!(o.length, 17);
    assert_eq!(o.loop_pos, 0);
    assert_eq!(o.items[0], 5);
    assert_eq!(o.items[1], 10);
    assert_eq!(o.items[16], 85);
}

#[test]
fn asc_volume_command_sets_volume() {
    let data: Vec<u8> = vec![
        1, 0, 10, 0, 0, 0, 0, 0, 1, 0, // header, one position
        6, 0, 10, 0, 11, 0, // channels at 16, 20, 21
        0xE9, 0x30, 0xFF, 0xFF, // A: volume 9, note
        0x56, 0x56,
    ];
    let m = asc::parse(&data).expect("parses");
    let p = m.patterns[0].as_ref().unwrap();
    assert_eq!(p.length, 1);
    assert_eq!(p.items[0].channel[0].volume, 9);
    assert_eq!(p.items[0].channel[0].note, 0x30);
}
