use vti::formats::{load, pt1, pt2, save_pt3, stc, stp, FormatError};
use vti::{NOTE_NONE, NOTE_SOUND_OFF};

fn padded(text: &str, n: usize) -> Vec<u8> {
    let mut v = text.as_bytes().to_vec();
    v.resize(n, b' ');
    v
}

/// A PT1 file: delay 6, one position (pattern 0), sample 1 and a one-row
/// pattern with note C-4 on channel A.
fn minimal_pt1() -> Vec<u8> {
    let mut d = vec![0u8; 135];
    d[0] = 6;
    d[1] = 1;
    d[3] = 130; // sample 1
    d[67] = 100; // pattern table
    d[69..99].copy_from_slice(&padded("PT1 minimal fixture", 30));
    d[99] = 0;
    d[100..106].copy_from_slice(&[106, 0, 110, 0, 111, 0]);
    d[106..109].copy_from_slice(&[0x60, 0x24, 0xFF]);
    d[110] = 0x90;
    d[111] = 0x90;
    d[130..135].copy_from_slice(&[1, 0, 0x0F, 0x00, 0x00]);
    d
}

/// A PT2 file: delay 6, one position (pattern 0), sample 1, ornament 1 and
/// a one-row pattern with note C-4 on channel A.
fn minimal_pt2() -> Vec<u8> {
    let mut d = vec![0u8; 174];
    d[0] = 6;
    d[1] = 1;
    d[5] = 160; // sample 1
    d[69] = 170; // ornament 1
    d[99] = 140; // pattern table
    d[101..131].copy_from_slice(&padded("PT2 minimal fixture", 30));
    d[131] = 0;
    d[132] = 0xFF;
    d[140..146].copy_from_slice(&[146, 0, 150, 0, 151, 0]);
    d[146..150].copy_from_slice(&[0xE1, 0x61, 0xA4, 0x00]);
    d[150] = 0x70;
    d[151..155].copy_from_slice(&[0x15, 0x0E, 0xFE, 0x70]);
    d[160..165].copy_from_slice(&[1, 0, 0x1C, 0xF1, 0x00]);
    d[170..174].copy_from_slice(&[2, 1, 0x0C, 0xF4]);
    d
}

/// An STP file as the KSA compiler writes it: delay 6, one position
/// (pattern 0), sample 1, ornament 1 and a one-row pattern with note C-4 on
/// channel A.
fn minimal_stp() -> Vec<u8> {
    let mut d = vec![0u8; 136];
    d[0] = 6;
    d[1] = 70; // positions
    d[3] = 80; // patterns
    d[5] = 90; // ornaments
    d[7] = 100; // samples
    d[10..38].copy_from_slice(b"KSA SOFTWARE COMPILER V2.0  ");
    d[38..63].copy_from_slice(&padded("STP minimal", 25));
    d[70..74].copy_from_slice(&[1, 0, 0, 0]);
    d[80..86].copy_from_slice(&[110, 0, 114, 0, 115, 0]);
    d[92] = 120; // ornament 1
    d[100] = 130; // sample 1
    d[110..114].copy_from_slice(&[0x61, 0x71, 0x25, 0x00]);
    d[114] = 0xD0;
    d[115..118].copy_from_slice(&[0xF0, 0x03, 0x26]);
    d[120..124].copy_from_slice(&[0, 2, 5, 0xFB]);
    d[130..136].copy_from_slice(&[0x80, 1, 0x0F, 0x05, 0x10, 0x00]);
    d
}

/// An STC file: delay 6, one position (pattern 1), sample 0 and a one-row
/// pattern with note C-4 on channel A.
fn minimal_stc() -> Vec<u8> {
    let mut d = vec![0u8; 176];
    d[0] = 6;
    d[1] = 126; // positions
    d[3] = 129; // ornaments
    d[5] = 162; // patterns
    d[7..25].copy_from_slice(&padded("STC minimal", 18));
    d[25] = 176;
    d[27..31].copy_from_slice(&[0, 0x1F, 0x25, 0x23]);
    d[126..129].copy_from_slice(&[0, 1, 0]);
    d[162..169].copy_from_slice(&[1, 170, 0, 174, 0, 175, 0]);
    d[169] = 0xFF;
    d[170..173].copy_from_slice(&[0x60, 0x24, 0xFF]);
    d[174] = 0x81;
    d[175] = 0x81;
    d
}

#[test]
fn pt1_smoke_parse_minimal() {
    let m = pt1::parse(&minimal_pt1()).expect("minimal PT1 must parse");
    assert_eq!(m.title.trim(), "PT1 minimal fixture", "title");
    assert_eq!(m.initial_delay, 6, "delay");
    assert_eq!(m.positions.length, 1, "num_positions");
    let p0 = m.patterns[0].as_deref().expect("pattern 0 must exist");
    assert_eq!(p0.items[0].channel[0].note, 36, "note C-4");
    assert!(m.samples[1].is_some(), "sample 1 exists");
}

#[test]
fn pt1_load_minimal_fixture_via_dispatch_contains_expected_data() {
    let m = load(&minimal_pt1(), "minimal_roundtrip.pt1").expect("minimal PT1 must parse via formats::load");
    assert_eq!(m.title.trim(), "PT1 minimal fixture", "title");
    assert_eq!(m.initial_delay, 6, "delay");
    assert_eq!(m.positions.length, 1, "positions length");
    assert_eq!(m.positions.loop_pos, 0, "loop pos");
    let p0 = m.patterns[0].as_deref().expect("pattern 0 must exist");
    assert_eq!(p0.length, 1, "pattern 0 length");
    assert_eq!(p0.items[0].channel[0].note, 36, "row 0 ch A note");
    assert_eq!(p0.items[0].channel[0].sample, 1, "row 0 ch A sample");
    let s1 = m.samples[1].as_deref().expect("sample 1 must exist");
    assert_eq!(s1.length, 1, "sample 1 length");
    assert_eq!(s1.loop_pos, 0, "sample 1 loop");
    assert_eq!(s1.items[0].amplitude, 15);
    assert!(s1.items[0].envelope_enabled);
}

#[test]
fn pt1_roundtrip_via_pt3() {
    let original = pt1::parse(&minimal_pt1()).expect("parse PT1");
    let pt3_bytes = save_pt3(&original).expect("save as PT3");
    let reloaded = vti::formats::pt3::parse(&pt3_bytes).expect("re-parse PT3");
    assert_eq!(reloaded.initial_delay, original.initial_delay, "delay");
    assert_eq!(reloaded.positions.length, original.positions.length, "positions");
    let orig_p0 = original.patterns[0].as_deref().expect("orig pat 0");
    let new_p0 = reloaded.patterns[0].as_deref().expect("reloaded pat 0");
    assert_eq!(new_p0.items[0].channel[0].note, orig_p0.items[0].channel[0].note, "note");
}

#[test]
fn pt1_errors() {
    assert_eq!(pt1::parse(&[0u8; 99]).err(), Some(FormatError::TooShort));
    let mut d = minimal_pt1();
    d[1] = 0;
    assert_eq!(pt1::parse(&d).err(), Some(FormatError::NoPositions));
}

#[test]
fn pt1_commands() {
    let mut d = minimal_pt1();
    // channel B: ornament 2 (envelope 15), volume 0 (read as 1), envelope 3
    // with period 0x0102, noise mask 4, note 1
    d.resize(150, 0);
    d[102] = 140;
    d[140..147].copy_from_slice(&[0x72, 0xA1, 0x84, 0x02, 0x01, 0x95, 0x01]);
    let m = pt1::parse(&d).unwrap();
    let row = &m.patterns[0].as_ref().unwrap().items[0];
    let b = row.channel[1];
    assert_eq!(b.ornament, 2);
    assert_eq!(b.volume, 1);
    assert_eq!(b.envelope, 3);
    assert_eq!(row.envelope, 0x0102);
    assert_eq!(b.additional_command.number, 11);
    assert_eq!(b.additional_command.parameter, 4);
    assert_eq!(b.note, 1);
    // ornament 2 is used; its table word is 0, so it reads the header bytes
    let o = m.ornaments[2].as_ref().unwrap();
    assert_eq!(o.length, 1);
    assert_eq!(o.items[0], 6);
}

#[test]
fn pt2_smoke_parse_minimal() {
    let m = pt2::parse(&minimal_pt2()).expect("minimal PT2 must parse");
    assert_eq!(m.title.trim(), "PT2 minimal fixture", "title");
    assert_eq!(m.initial_delay, 6, "delay");
    assert_eq!(m.positions.length, 1, "num_positions");
    assert_eq!(m.positions.loop_pos, 0, "loop_pos");
    let p0 = m.patterns[0].as_deref().expect("pattern 0 must exist");
    assert_eq!(p0.length, 1, "pattern 0 length");
    assert_eq!(p0.items[0].channel[0].note, 36, "note C-4 on ch A");
    assert!(m.samples[1].is_some(), "sample 1 exists");
}

#[test]
fn pt2_roundtrip_via_pt3() {
    let original = pt2::parse(&minimal_pt2()).expect("parse PT2");
    let pt3_bytes = save_pt3(&original).expect("save as PT3");
    let reloaded = vti::formats::pt3::parse(&pt3_bytes).expect("re-parse PT3");
    assert_eq!(reloaded.initial_delay, original.initial_delay, "delay");
    assert_eq!(reloaded.positions.length, original.positions.length, "positions");
    let orig_p0 = original.patterns[0].as_deref().expect("orig pat 0");
    let new_p0 = reloaded.patterns[0].as_deref().expect("reloaded pat 0");
    assert_eq!(new_p0.items[0].channel[0].note, orig_p0.items[0].channel[0].note, "note");
}

#[test]
fn pt2_reads_cells_samples_and_ornaments() {
    let m = pt2::parse(&minimal_pt2()).unwrap();
    let row = &m.patterns[0].as_ref().unwrap().items[0];
    let a = row.channel[0];
    assert_eq!(a.sample, 1);
    assert_eq!(a.ornament, 1);
    assert_eq!(a.envelope, 15);
    assert_eq!(row.channel[1].note, NOTE_NONE);
    let c = row.channel[2];
    assert_eq!(c.volume, 5);
    assert_eq!(c.additional_command.number, 2);
    assert_eq!(c.additional_command.delay, 1);
    assert_eq!(c.additional_command.parameter, 2);
    let s = m.samples[1].as_ref().unwrap();
    assert_eq!(s.length, 1);
    let t = s.items[0];
    assert_eq!(t.amplitude, 15);
    assert_eq!(t.add_to_ton, 256);
    assert!(t.mixer_noise);
    assert!(t.mixer_ton);
    assert_eq!(t.add_to_envelope_or_noise, 3);
    let o = m.ornaments[1].as_ref().unwrap();
    assert_eq!(o.length, 2);
    assert_eq!(o.loop_pos, 1);
    assert_eq!(&o.items[..3], &[12, -12, 0]);
    assert!(m.ornaments[2].is_none());
    assert!(m.samples[2].is_none());
}

#[test]
fn pt2_errors_and_readability() {
    assert_eq!(pt2::parse(&[0u8; 131]).err(), Some(FormatError::TooShort));
    let mut d = minimal_pt2();
    d[131] = 0x80;
    assert_eq!(pt2::parse(&d).err(), Some(FormatError::NoPositions));
    let mut d = minimal_pt2();
    assert!(pt2::readable(&d));
    d[132] = 100; // pattern 100: past the last pattern slot
    assert!(!pt2::readable(&d));
}

#[test]
fn stp_smoke_parse_minimal() {
    let m = stp::parse(&minimal_stp()).expect("minimal STP must parse");
    assert_eq!(m.initial_delay, 6, "delay");
    assert_eq!(m.positions.length, 1, "num_positions");
    let p0 = m.patterns[0].as_deref().expect("pattern 0 must exist");
    assert_eq!(p0.items[0].channel[0].note, 36, "note C-4");
    assert!(m.samples[1].is_some(), "sample 1 exists");
}

#[test]
fn stp_roundtrip_via_pt3() {
    let original = stp::parse(&minimal_stp()).expect("parse STP");
    let pt3_bytes = save_pt3(&original).expect("save as PT3");
    let reloaded = vti::formats::pt3::parse(&pt3_bytes).expect("re-parse PT3");
    assert_eq!(reloaded.initial_delay, original.initial_delay, "delay");
    assert_eq!(reloaded.positions.length, original.positions.length, "positions");
    let orig_p0 = original.patterns[0].as_deref().expect("orig pat 0");
    let new_p0 = reloaded.patterns[0].as_deref().expect("reloaded pat 0");
    assert_eq!(new_p0.items[0].channel[0].note, orig_p0.items[0].channel[0].note, "note");
}

#[test]
fn stp_reads_title_glides_samples_and_ornaments() {
    let m = stp::parse(&minimal_stp()).unwrap();
    assert_eq!(m.title, "STP minimal");
    let row = &m.patterns[0].as_ref().unwrap().items[0];
    let a = row.channel[0];
    assert_eq!(a.sample, 1);
    assert_eq!(a.ornament, 1);
    assert_eq!(a.envelope, 15);
    assert_eq!(row.channel[1].note, NOTE_SOUND_OFF);
    let c = row.channel[2];
    assert_eq!(c.note, 37);
    assert_eq!(c.additional_command.number, 1);
    assert_eq!(c.additional_command.delay, 1);
    assert_eq!(c.additional_command.parameter, 3);
    let o = m.ornaments[1].as_ref().unwrap();
    assert_eq!(o.length, 2);
    assert_eq!(&o.items[..2], &[5, -5]);
    // loop byte 0x80: one silent step added and looped on
    let s = m.samples[1].as_ref().unwrap();
    assert_eq!(s.length, 2);
    assert_eq!(s.loop_pos, 1);
    let t = s.items[0];
    assert_eq!(t.amplitude, 15);
    assert!(t.envelope_enabled);
    assert_eq!(t.add_to_envelope_or_noise, 2);
    assert_eq!(t.add_to_ton, 16);
    assert_eq!(s.items[1].amplitude, 0);
    // without the compiler's signature there is no title
    let mut d = minimal_stp();
    d[10] = b'X';
    assert_eq!(stp::parse(&d).unwrap().title, "");
    assert_eq!(stp::parse(&[0u8; 9]).err(), Some(FormatError::TooShort));
}

#[test]
fn stc_smoke_parse_minimal() {
    let m = stc::parse(&minimal_stc()).expect("minimal STC must parse");
    assert_eq!(m.title.trim(), "STC minimal", "title");
    assert_eq!(m.initial_delay, 6, "delay");
    assert_eq!(m.positions.length, 1, "num_positions");
    let p0 = m.patterns[0].as_deref().expect("pattern 0 must exist");
    assert_eq!(p0.items[0].channel[0].note, 36, "note C-4");
}

#[test]
fn stc_roundtrip_via_pt3() {
    let original = stc::parse(&minimal_stc()).expect("parse STC");
    let pt3_bytes = save_pt3(&original).expect("save as PT3");
    let reloaded = vti::formats::pt3::parse(&pt3_bytes).expect("re-parse PT3");
    assert_eq!(reloaded.initial_delay, original.initial_delay, "delay");
    assert_eq!(reloaded.positions.length, original.positions.length, "positions");
    let orig_p0 = original.patterns[0].as_deref().expect("orig pat 0");
    let new_p0 = reloaded.patterns[0].as_deref().expect("reloaded pat 0");
    assert_eq!(new_p0.items[0].channel[0].note, orig_p0.items[0].channel[0].note, "note");
}

#[test]
fn format_load_dispatch_all_formats() {
    let files = [("pt2", minimal_pt2()), ("pt1", minimal_pt1()), ("stc", minimal_stc()), ("stp", minimal_stp())];
    for (ext, bytes) in files.iter() {
        let m = load(bytes, &format!("module.{}", ext))
            .unwrap_or_else(|e| panic!("load(.{}) failed: {}", ext, e.message()));
        assert_eq!(m.initial_delay, 6, "{}: delay", ext);
        assert_eq!(m.positions.length, 1, "{}: positions", ext);
    }
}
