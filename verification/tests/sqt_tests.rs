use vti::formats::{load, sqt, FormatError};
use vti::{FeaturesLevel, NOTE_NONE, NOTE_SOUND_OFF};

#[test]
fn sqt_errors_on_empty() {
    assert!(sqt::parse(&[]).is_err());
}

#[test]
fn sqt_errors_on_too_small() {
    assert!(sqt::parse(&[0u8; 5]).is_err());
}

#[test]
fn sqt_ok_on_minimal_header() {
    // 12-byte all-zero header: the position list starts at 0, whose first byte is 0.
    let data = [0u8; 12];
    let result = sqt::parse(&data);
    assert!(result.is_ok(), "sqt minimal: {:?}", result.as_ref().err());
    assert_eq!(result.unwrap().positions.length, 0);
}

fn put_word(d: &mut [u8], off: usize, w: usize) {
    d[off] = (w & 0xFF) as u8;
    d[off + 1] = (w >> 8) as u8;
}

/// A small SQT file: three positions (the first two alike), channel data
/// for A, B and C, samples 1 and 3 and ornament 1.
fn small_sqt() -> Vec<u8> {
    let mut d = vec![0u8; 364];
    put_word(&mut d, 2, 100); // samples
    put_word(&mut d, 4, 110); // ornaments
    put_word(&mut d, 6, 114); // pattern channels
    put_word(&mut d, 8, 22); // positions
    put_word(&mut d, 10, 29); // loop: the second position
    put_word(&mut d, 102, 130); // sample 1
    put_word(&mut d, 106, 230); // sample 3
    put_word(&mut d, 112, 330); // ornament 1
    put_word(&mut d, 116, 50); // channel 1
    put_word(&mut d, 118, 60); // channel 2
    put_word(&mut d, 120, 70); // channel 3
    let entry = |delay: u8| [0x83u8, 0x00, 0x02, 0x20, 0x01, 0x9F, delay];
    d[22..29].copy_from_slice(&entry(5));
    d[29..36].copy_from_slice(&entry(5));
    d[36..43].copy_from_slice(&entry(7));
    // Channel A: sample 3, then an arpeggio step up 3.
    d[51] = 0xC3;
    d[52] = 0x83;
    // Channel B: sound off, then a rest of two rows.
    d[61] = 0x6F;
    d[62] = 0xA2;
    // Channel C: two rows; note 0x10 with sample 1, ornament 1 and volume 5.
    d[70] = 2;
    d[71] = 0x10;
    d[72] = 0xC2;
    d[73] = 0x11;
    d[74] = 0x05;
    // Sample 1: loop 2, three more ticks.
    d[130] = 2;
    d[131] = 3;
    d[132..135].copy_from_slice(&[0x0F, 0x60, 0x00]);
    d[138..141].copy_from_slice(&[0xF5, 0xB1, 0x23]);
    d[141..144].copy_from_slice(&[0x00, 0x05, 0x10]);
    // Sample 3: no loop.
    d[230] = 40;
    // Ornament 1: loop 1, two more steps.
    d[330] = 1;
    d[331] = 2;
    d[333] = 12;
    d[334] = 0xF4;
    d
}

#[test]
fn sqt_reads_positions_and_loop() {
    let m = sqt::parse(&small_sqt()).unwrap();
    assert_eq!(m.features_level, FeaturesLevel::Pt35);
    assert!(!m.vortex_module_header);
    assert_eq!(m.ton_table, 1);
    assert_eq!(m.initial_delay, 5);
    assert_eq!(m.positions.length, 3);
    assert_eq!(&m.positions.value[..3], &[0, 0, 1]);
    assert_eq!(m.positions.loop_pos, 1);
    assert!(m.patterns[0].is_some());
    assert!(m.patterns[1].is_some());
    assert!(m.patterns[2].is_none());
    assert_eq!(m.title, "");
    assert_eq!(m.author, "");
}

#[test]
fn sqt_reads_pattern_rows() {
    let m = sqt::parse(&small_sqt()).unwrap();
    let p = m.patterns[0].as_ref().unwrap();
    assert_eq!(p.length, 2);
    let r0 = &p.items[0];
    // Channel A: sample 3 repeats note 0; the entry's delay goes here.
    assert_eq!(r0.channel[0].note, 0);
    assert_eq!(r0.channel[0].sample, 3);
    assert_eq!(r0.channel[0].envelope, 15);
    assert_eq!(r0.channel[0].volume, 1);
    assert_eq!(r0.channel[0].additional_command.number, 11);
    assert_eq!(r0.channel[0].additional_command.parameter, 5);
    // Channel B: sound off at full volume.
    assert_eq!(r0.channel[1].note, NOTE_SOUND_OFF);
    assert_eq!(r0.channel[1].volume, 15);
    // Channel C: note 0x10 + 2, sample 1, ornament 1, attenuation 5.
    assert_eq!(r0.channel[2].note, 18);
    assert_eq!(r0.channel[2].sample, 1);
    assert_eq!(r0.channel[2].ornament, 1);
    assert_eq!(r0.channel[2].envelope, 15);
    assert_eq!(r0.channel[2].volume, 10);
    let r1 = &p.items[1];
    // The arpeggio step moves A's note to 3; B rests; C's position stayed
    // on its note, which plays again.
    assert_eq!(r1.channel[0].note, 3);
    assert_eq!(r1.channel[0].sample, 0);
    assert_eq!(r1.channel[1].note, NOTE_NONE);
    assert_eq!(r1.channel[2].note, 18);
    assert_eq!(r1.channel[2].sample, 0);
    assert_eq!(r1.channel[2].ornament, 1);
    assert_eq!(r1.channel[2].volume, 10);
    // The third position's entry differs only in its delay.
    let q = m.patterns[1].as_ref().unwrap();
    assert_eq!(q.items[0].channel[0].additional_command.parameter, 7);
    assert_eq!(q.items[0].channel[2].note, 18);
}

#[test]
fn sqt_reads_samples() {
    let m = sqt::parse(&small_sqt()).unwrap();
    let s1 = m.samples[1].as_ref().unwrap();
    assert_eq!(s1.length, 34);
    assert_eq!(s1.loop_pos, 32);
    assert_eq!(s1.items[0].amplitude, 15);
    assert!(s1.items[0].mixer_noise && s1.items[0].mixer_ton);
    assert!(!s1.items[0].envelope_enabled);
    assert_eq!(s1.items[2].amplitude, 5);
    assert_eq!(s1.items[2].add_to_envelope_or_noise, -1);
    assert_eq!(s1.items[2].add_to_ton, 291);
    assert!(s1.items[2].mixer_noise && !s1.items[2].mixer_ton);
    assert!(s1.items[3].envelope_enabled);
    assert_eq!(s1.items[3].add_to_ton, -1296);
    assert_eq!(s1.items[32], s1.items[2]);
    assert_eq!(s1.items[33], s1.items[3]);
    assert_eq!(s1.items[34].add_to_ton, 0);
    assert!(!s1.items[34].envelope_enabled);
    let s3 = m.samples[3].as_ref().unwrap();
    assert_eq!(s3.length, 33);
    assert_eq!(s3.loop_pos, 32);
    assert!(m.samples[2].is_none());
}

#[test]
fn sqt_reads_ornaments() {
    let m = sqt::parse(&small_sqt()).unwrap();
    let o = m.ornaments[1].as_ref().unwrap();
    assert_eq!(o.length, 34);
    assert_eq!(o.loop_pos, 32);
    assert_eq!(&o.items[..3], &[0, 12, -12]);
    assert_eq!(o.items[32], 12);
    assert_eq!(o.items[33], -12);
    assert!(m.ornaments[2].is_none());
}

/// A file whose one position plays channel C only, with `rows` rows of
/// the bytes `c`.
fn channel_c_sqt(rows: u8, c: &[u8]) -> Vec<u8> {
    let mut d = vec![0u8; 61];
    put_word(&mut d, 6, 12); // pattern channels
    put_word(&mut d, 8, 20); // positions
    put_word(&mut d, 14, 40); // channel 1 (C)
    put_word(&mut d, 12, 60); // channel 0 (A and B): ends with the file
    d[20..27].copy_from_slice(&[0x81, 0x00, 0x00, 0x00, 0x00, 0x00, 3]);
    d[40] = rows;
    d[41..41 + c.len()].copy_from_slice(c);
    d
}

#[test]
fn sqt_envelope_command_repeats() {
    // Effect command 0x69 (envelope type 9, period 0x40); the reading
    // position stays on it, so both rows carry it.
    let m = sqt::parse(&channel_c_sqt(2, &[0x69, 0x40])).unwrap();
    let p = m.patterns[0].as_ref().unwrap();
    for i in 0..2 {
        assert_eq!(p.items[i].channel[2].envelope, 9);
        assert_eq!(p.items[i].envelope, 0x40);
    }
}

#[test]
fn sqt_rest_and_glide_commands() {
    // A rest of one row, then glide command 0x67 with parameter 3.
    let m = sqt::parse(&channel_c_sqt(3, &[0xA1, 0x67, 0x03])).unwrap();
    let p = m.patterns[0].as_ref().unwrap();
    assert_eq!(p.items[1].channel[2].additional_command.number, 0);
    let cmd = p.items[2].channel[2].additional_command;
    assert_eq!((cmd.number, cmd.delay, cmd.parameter), (2, 1, 3));
    // Row 0 takes the entry's delay in channel A.
    assert_eq!(p.items[0].channel[0].additional_command.number, 11);
    assert_eq!(p.items[0].channel[0].additional_command.parameter, 3);
}

#[test]
fn sqt_transposes_and_clamps_notes() {
    // Entry volume byte 0xF0: transposition -7; note 0 gives 0 (kept at least 0).
    let mut d = channel_c_sqt(1, &[0x00, 0x00, 0x00]);
    d[21] = 0xF0;
    let m = sqt::parse(&d).unwrap();
    assert_eq!(m.patterns[0].as_ref().unwrap().items[0].channel[2].note, 0);
    // Note 0x5F transposed up by 8 stays 0x5F.
    let mut e = channel_c_sqt(1, &[0x5F, 0x00, 0x00]);
    e[21] = 0x80;
    let m = sqt::parse(&e).unwrap();
    assert_eq!(m.patterns[0].as_ref().unwrap().items[0].channel[2].note, 0x5F);
}

#[test]
fn sqt_loads_through_dispatch() {
    let m = load(&small_sqt(), "tune.sqt").unwrap();
    assert_eq!(m.positions.length, 3);
    assert_eq!(load(&[0u8; 5], "tune.sqt").err(), Some(FormatError::TooShort));
}
