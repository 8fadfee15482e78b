use vti::formats::{fls, load, FormatError};
use vti::{FeaturesLevel, NOTE_NONE};

#[test]
fn fls_errors_on_empty() {
    assert!(fls::parse(&[]).is_err());
}

#[test]
fn fls_ok_on_minimal_header() {
    let data = [0u8; 64];
    let result = fls::parse(&data);
    assert!(result.is_ok(), "fls minimal: {:?}", result.err());
}

/// A small FLS file: one position (pattern 1), sample 1 (loop count `l`,
/// extra length `extra`), ornament 1 and a one-row pattern.
fn small_fls(l: u8, extra: u8) -> Vec<u8> {
    let mut d = vec![0u8; 218];
    d[0] = 64; // positions
    d[2] = 70; // ornament table
    d[4] = 72; // sample table
    // pattern 1: channels at 80, 84, 85
    d[6..12].copy_from_slice(&[80, 0, 84, 0, 85, 0]);
    d[64..67].copy_from_slice(&[5, 1, 0]);
    d[70] = 90;
    d[72..76].copy_from_slice(&[l, extra, 122, 0]);
    d[80..84].copy_from_slice(&[0x60, 0x71, 0x30, 0xFF]);
    d[84] = 0x81;
    d[85..87].copy_from_slice(&[0xA2, 0x31]);
    for q in 0..32 {
        d[90 + q] = q as u8 + 1;
    }
    d[92] = 0xFF;
    d[122..125].copy_from_slice(&[0x1F, 0x20, 0x02]);
    d[125..128].copy_from_slice(&[0x03, 0x80, 0x00]);
    d
}

#[test]
fn fls_rejects_short_files() {
    assert_eq!(fls::parse(&[0u8; 63]).err(), Some(FormatError::TooShort));
}

#[test]
fn fls_reads_a_small_module() {
    let m = fls::parse(&small_fls(0, 0)).unwrap();
    assert_eq!(m.title, "");
    assert_eq!(m.initial_delay, 5);
    assert_eq!(m.ton_table, 1);
    assert_eq!(m.features_level, FeaturesLevel::Pt35);
    assert_eq!(m.positions.length, 1);
    assert_eq!(m.positions.value[0], 1);
    assert_eq!(m.positions.loop_pos, 0);
    assert!(m.patterns[0].is_none());
    let p = m.patterns[1].as_ref().unwrap();
    assert_eq!(p.length, 1);
    let row = &p.items[0];
    assert_eq!(row.channel[0].note, 0x30);
    assert_eq!(row.channel[0].sample, 1);
    assert_eq!(row.channel[0].ornament, 1);
    assert_eq!(row.channel[0].envelope, 15);
    assert_eq!(row.channel[1].note, NOTE_NONE);
    assert_eq!(row.channel[2].note, 0x31);
    // the ornament's first sample has no loop: 32 steps from the start
    let o = m.ornaments[1].as_ref().unwrap();
    assert_eq!(o.length, 32);
    assert_eq!(o.loop_pos, 0);
    assert_eq!(&o.items[..4], &[1, 2, -1, 4]);
    assert_eq!(o.items[31], 32);
    let s = m.samples[1].as_ref().unwrap();
    assert_eq!(s.length, 33);
    assert_eq!(s.loop_pos, 32);
    let t = s.items[0];
    assert_eq!(t.amplitude, 15);
    assert_eq!(t.add_to_ton, 258);
    assert!(t.envelope_enabled);
    assert!(t.mixer_noise);
    assert!(t.mixer_ton);
    let t1 = s.items[1];
    assert_eq!(t1.amplitude, 3);
    assert!(!t1.mixer_noise);
    assert_eq!(t1.add_to_ton, 0);
    assert_eq!(s.items[32].amplitude, 0);
    assert!(!s.items[32].envelope_enabled);
}

#[test]
fn fls_short_loops_are_extended_to_32_steps() {
    let m = fls::parse(&small_fls(3, 2)).unwrap();
    let s = m.samples[1].as_ref().unwrap();
    assert_eq!(s.length, 34);
    assert_eq!(s.loop_pos, 32);
    assert_eq!(s.items[32], s.items[2]);
    assert_eq!(s.items[33], s.items[3]);
    let o = m.ornaments[1].as_ref().unwrap();
    assert_eq!(o.length, 34);
    assert_eq!(o.loop_pos, 32);
    assert_eq!(o.items[32], -1);
    assert_eq!(o.items[33], 4);
}

#[test]
fn fls_without_positions_keeps_the_defaults() {
    let mut d = vec![0u8; 64];
    d[0] = 200;
    let m = fls::parse(&d).unwrap();
    assert_eq!(m.initial_delay, 3);
    assert_eq!(m.positions.length, 0);
}

#[test]
fn fls_bytes_without_a_command_are_not_read() {
    let mut d = small_fls(0, 0);
    assert!(fls::parse(&d).is_ok());
    d[85] = 0x90;
    assert_eq!(fls::parse(&d).err(), Some(FormatError::UnknownCommand));
}

#[test]
fn fls_loads_by_file_name() {
    let m = load(&small_fls(0, 0), "x.fls").unwrap();
    assert_eq!(m.positions.length, 1);
}
