use vti::formats::{gtr, load, FormatError};
use vti::{FeaturesLevel, NOTE_NONE, NOTE_SOUND_OFF};

#[test]
fn gtr_errors_on_empty() {
    assert!(gtr::parse(&[]).is_err());
}

#[test]
fn gtr_ok_on_minimal_header() {
    let data = [0u8; 296];
    let result = gtr::parse(&data);
    assert!(result.is_ok(), "gtr minimal: {:?}", result.as_ref().err());
    assert_eq!(result.unwrap().positions.length, 0);
}

/// A small GTR file: one position (pattern 0), sample 1, ornament 1 and a
/// one-row pattern.
fn small_gtr(version: u8) -> Vec<u8> {
    let mut d = vec![0u8; 313];
    d[0] = 4;
    d[1..5].copy_from_slice(&[b'G', b'T', b'R', version]);
    let mut name = b"MY TUNE".to_vec();
    name.resize(32, b' ');
    d[7..39].copy_from_slice(&name);
    // sample 1 at 307, ornament 1 at 303
    d[39] = 51;
    d[40] = 1;
    d[71] = 47;
    d[72] = 1;
    // pattern 0: channels at 296, 300, 301
    d[101..107].copy_from_slice(&[40, 1, 44, 1, 45, 1]);
    d[293] = 1;
    d[294] = 5;
    d[295] = 0;
    d[296..300].copy_from_slice(&[0x60, 0x71, 0x30, 0xFF]);
    d[300] = 0xD0;
    d[301..303].copy_from_slice(&[0xE5, 0x31]);
    // ornament: loop 0, two steps +1, -1
    d[303..307].copy_from_slice(&[0, 2, 1, 0xFF]);
    // sample: loop 0, one tick (length byte 4)
    d[307..313].copy_from_slice(&[0, 4, 0x0F, 0x43, 0x10, 0x00]);
    d
}

#[test]
fn gtr_rejects_short_files() {
    assert_eq!(gtr::parse(&[0u8; 295]).err(), Some(FormatError::TooShort));
}

#[test]
fn gtr_reads_a_small_module() {
    let m = gtr::parse(&small_gtr(0)).unwrap();
    assert_eq!(m.title, "MY TUNE");
    assert_eq!(m.author, "");
    assert_eq!(m.initial_delay, 4);
    assert_eq!(m.ton_table, 1);
    assert_eq!(m.features_level, FeaturesLevel::Pt35);
    assert!(!m.vortex_module_header);
    assert_eq!(m.positions.length, 1);
    assert_eq!(m.positions.value[0], 0);
    // loop 5 is past the single position
    assert_eq!(m.positions.loop_pos, 0);
    let p = m.patterns[0].as_ref().unwrap();
    assert_eq!(p.length, 1);
    let row = &p.items[0];
    assert_eq!(row.channel[0].note, 0x30);
    assert_eq!(row.channel[0].sample, 1);
    assert_eq!(row.channel[0].ornament, 1);
    assert_eq!(row.channel[0].envelope, 15);
    assert_eq!(row.channel[1].note, NOTE_NONE);
    assert_eq!(row.channel[2].note, 0x31);
    assert_eq!(row.channel[2].volume, 5);
    let o = m.ornaments[1].as_ref().unwrap();
    assert_eq!(o.length, 2);
    assert_eq!(o.loop_pos, 0);
    assert_eq!(&o.items[..3], &[1, -1, 0]);
    let s = m.samples[1].as_ref().unwrap();
    assert_eq!(s.length, 1);
    assert_eq!(s.loop_pos, 0);
    let t = &s.items[0];
    assert_eq!(t.amplitude, 15);
    assert!(t.mixer_ton);
    assert!(!t.mixer_noise);
    assert!(!t.envelope_enabled);
    assert_eq!(t.add_to_ton, 16);
    assert_eq!(t.add_to_envelope_or_noise, 0);
    assert!(m.samples[2].is_none());
    assert!(m.ornaments[2].is_none());
}

#[test]
fn gtr_sound_off_ends_the_row_only_before_version_2() {
    let mut d = small_gtr(0);
    // channel C: sound off, then volume 5 and a note
    d[301] = 0xE0;
    d[302] = 0xE5;
    let v1 = gtr::parse(&d).unwrap();
    let c1 = v1.patterns[0].as_ref().unwrap().items[0].channel[2];
    assert_eq!(c1.note, NOTE_SOUND_OFF);
    assert_eq!(c1.volume, 0);
    d[4] = 0x10;
    let v2 = gtr::parse(&d).unwrap();
    let c2 = v2.patterns[0].as_ref().unwrap().items[0].channel[2];
    assert_eq!(c2.volume, 5);
}

#[test]
fn gtr_noise_offset_is_signed() {
    let mut d = small_gtr(0);
    // noise on (bit 6 clear), offset 0x1F = -1, tone offset 0xFFFE = -2
    d[310] = 0x1F;
    d[311] = 0xFE;
    d[312] = 0xFF;
    let m = gtr::parse(&d).unwrap();
    let t = m.samples[1].as_ref().unwrap().items[0];
    assert!(t.mixer_noise);
    assert_eq!(t.add_to_envelope_or_noise, -1);
    assert_eq!(t.add_to_ton, -2);
}

#[test]
fn gtr_loads_by_file_name() {
    let m = load(&small_gtr(0), "song.GTR").unwrap();
    assert_eq!(m.positions.length, 1);
}
