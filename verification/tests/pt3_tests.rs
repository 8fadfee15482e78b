use vti::formats::pt3;
use vti::formats::{ext_from_ts_type, parse_ts_trailer, save_pt3, FormatError};
use vti::{
    AdditionalCommand, ChannelLine, FeaturesLevel, Module, Ornament, Pattern, Sample, SampleTick,
    NOTE_NONE, NOTE_SOUND_OFF,
};

fn make_duplicate_heavy_module() -> Module {
    let mut m = Module::default();
    m.initial_delay = 6;

    // Identical sample content: length=2, loop=0, same two ticks.
    let make_sample = || -> Sample {
        let mut s = Sample::default();
        s.length = 2;
        s.loop_pos = 0;
        s.items[0] = SampleTick { amplitude: 12, mixer_ton: true, ..SampleTick::default() };
        s.items[1] = SampleTick { amplitude: 8,  mixer_ton: true, ..SampleTick::default() };
        s
    };
    // Register the same sample data under indices 1-8.
    for i in 1..=8usize {
        m.samples[i] = Some(Box::new(make_sample()));
    }

    // Identical ornament: length=2, loop=0, steps [0, 12].
    let make_ornament = || -> Ornament {
        let mut o = Ornament::default();
        o.length = 2;
        o.loop_pos = 0;
        o.items[0] = 0;
        o.items[1] = 12;
        o
    };
    for i in 1..=6usize {
        m.ornaments[i] = Some(Box::new(make_ornament()));
    }

    // Build a pattern that references all samples and ornaments so they are
    // included by the `is_sample` / `is_ornament` usage scan in `pt3::write()`.
    let mut pat = Pattern::default();
    pat.length = 8;
    for row in 0..8usize {
        // Use a different sample index on each row (cycles 1-8).
        let s = (row % 8) as u8 + 1;
        // Use a different ornament index on each row (cycles 1-6).
        let o = (row % 6) as u8 + 1;
        for ch in 0..3 {
            pat.items[row].channel[ch] = ChannelLine {
                note: 36, // C-4
                sample: s,
                ornament: o,
                volume: 12,
                ..ChannelLine::default()
            };
        }
    }
    m.patterns[0] = Some(Box::new(pat));
    m.positions.length = 1;
    m.positions.value[0] = 0;

    m
}

#[test]
fn pt3_dedup_reduces_size_for_duplicate_heavy_module() {

    let m = make_duplicate_heavy_module();
    let dedup_bytes = save_pt3(&m).expect("must write");

    // Build the same module but with 8 *different* samples (same structure, different
    // amplitudes) so we can measure how much data dedup saves.
    let mut m_unique = make_duplicate_heavy_module();
    for i in 1..=8usize {
        let mut s = Sample::default();
        s.length = 2;
        s.loop_pos = 0;
        // Give each sample a distinct amplitude so no two are equal.
        s.items[0] = SampleTick { amplitude: i as u8,      mixer_ton: true, ..SampleTick::default() };
        s.items[1] = SampleTick { amplitude: (i + 8) as u8, mixer_ton: true, ..SampleTick::default() };
        m_unique.samples[i] = Some(Box::new(s));
    }
    let unique_bytes = save_pt3(&m_unique).expect("unique must write");

    // Each sample is 2 (header) + 2×4 (ticks) = 10 bytes.
    // 8 unique samples = 80 bytes; 8 identical (dedup) = 10 bytes.
    // The dedup version must be strictly smaller.
    assert!(
        dedup_bytes.len() < unique_bytes.len(),
        "dedup ({} bytes) should be smaller than unique ({} bytes)",
        dedup_bytes.len(),
        unique_bytes.len()
    );
    // Expected saving: 7 × 10 = 70 bytes for samples (each of 8 dup ornaments
    // saves (2+2) = 4 bytes too, so total saving ≥ 70 bytes).
    let saving = unique_bytes.len() - dedup_bytes.len();
    assert!(
        saving >= 70,
        "expected at least 70 bytes saved by sample dedup, got {}",
        saving
    );

    // Round-trip: the parsed module must still reference all 8 samples with
    // identical content, even though the file stores only 1 copy.
    let reloaded = pt3::parse(&dedup_bytes).expect("must re-parse");
    for i in 1..=8usize {
        let s = reloaded.samples[i].as_deref().expect(&format!("sample {} must exist", i));
        assert_eq!(s.length, 2, "sample {} length", i);
        assert_eq!(s.items[0].amplitude, 12, "sample {} tick0 amplitude", i);
        assert_eq!(s.items[1].amplitude, 8,  "sample {} tick1 amplitude", i);
    }
    for i in 1..=6usize {
        let o = reloaded.ornaments[i].as_deref().expect(&format!("ornament {} must exist", i));
        assert_eq!(o.length, 2, "ornament {} length", i);
        assert_eq!(o.items[0], 0,  "ornament {} step0", i);
        assert_eq!(o.items[1], 12, "ornament {} step1", i);
    }
}

#[test]
fn pt3_dedup_no_change_for_unique_samples() {

    // Module with all different sample contents — dedup must not change them.
    let mut m = Module::default();
    m.initial_delay = 6;
    for i in 1..=4usize {
        let mut s = Sample::default();
        s.length = 1;
        s.loop_pos = 0;
        s.items[0] = SampleTick { amplitude: i as u8, mixer_ton: true, ..SampleTick::default() };
        m.samples[i] = Some(Box::new(s));
    }
    let mut pat = Pattern::default();
    pat.length = 4;
    for row in 0..4usize {
        pat.items[row].channel[0] = ChannelLine {
            note: 36, sample: row as u8 + 1, ..ChannelLine::default()
        };
    }
    m.patterns[0] = Some(Box::new(pat));
    m.positions.length = 1;
    m.positions.value[0] = 0;

    let bytes = save_pt3(&m).expect("must write");
    let reloaded = pt3::parse(&bytes).expect("must re-parse");
    for i in 1..=4usize {
        let s = reloaded.samples[i].as_deref().expect(&format!("sample {} exists", i));
        assert_eq!(s.items[0].amplitude, i as u8, "sample {} amplitude preserved", i);
    }
}

// ── Further cases ───────────────────────────────────────────────────────────

fn one_pattern_module() -> Module {
    let mut m = Module::default();
    m.title = "Tune".to_string();
    m.author = "Me".to_string();
    m.initial_delay = 4;
    let mut s = Sample::default();
    s.length = 2;
    s.loop_pos = 1;
    s.items[0] = SampleTick { amplitude: 15, mixer_ton: true, add_to_ton: -3, ..SampleTick::default() };
    s.items[1] = SampleTick {
        amplitude: 7,
        envelope_enabled: true,
        add_to_envelope_or_noise: -5,
        amplitude_sliding: true,
        amplitude_slide_up: true,
        ..SampleTick::default()
    };
    m.samples[2] = Some(Box::new(s));
    let mut o = Ornament::default();
    o.length = 3;
    o.items[0] = 0;
    o.items[1] = 4;
    o.items[2] = -7;
    m.ornaments[3] = Some(Box::new(o));
    let mut pat = Pattern::default();
    pat.length = 4;
    pat.items[0].channel[0] = ChannelLine { note: 48, sample: 2, ornament: 3, volume: 12, ..ChannelLine::default() };
    pat.items[2].channel[1] = ChannelLine { note: NOTE_SOUND_OFF, ..ChannelLine::default() };
    pat.items[1].channel[2] = ChannelLine { note: 10, sample: 2, envelope: 8, ..ChannelLine::default() };
    pat.items[1].envelope = 0x1234;
    pat.items[3].noise = 5;
    m.patterns[1] = Some(Box::new(pat));
    m.positions.length = 2;
    m.positions.value[0] = 1;
    m.positions.value[1] = 1;
    m.positions.loop_pos = 1;
    m
}

#[test]
fn pt3_parse_rejects_short_file() {
    assert_eq!(pt3::parse(&[0u8; 100]).unwrap_err(), FormatError::TooShort);
    assert_eq!(pt3::parse(&[0u8; 202]).unwrap_err(), FormatError::TooShort);
}

#[test]
fn pt3_parse_rejects_empty_position_list() {
    let mut data = vec![0u8; 300];
    data[0xC9] = 0xFF;
    assert_eq!(pt3::parse(&data).unwrap_err(), FormatError::NoPositions);
}

#[test]
fn pt3_write_header_fields() {
    let m = one_pattern_module();
    let out = save_pt3(&m).unwrap();
    assert_eq!(&out[..30], b"Vortex Tracker II 1.0 module: ");
    assert_eq!(&out[30..34], b"Tune");
    assert!(out[34..62].iter().all(|&b| b == b' '));
    assert_eq!(&out[62..66], b" by ");
    assert_eq!(&out[66..68], b"Me");
    assert_eq!(out[0x64], 4);
    assert_eq!(out[0x65], 2);
    assert_eq!(out[0x66], 1);
    // one played pattern: file pattern 0, written twice in the position list
    assert_eq!(&out[0xC9..0xCC], &[0, 0, 0xFF]);
    assert_eq!(u16::from_le_bytes([out[0x67], out[0x68]]), 0xCC);
}

#[test]
fn pt3_write_version_digit_follows_features_level() {
    let mut m = one_pattern_module();
    m.features_level = FeaturesLevel::Pt37;
    let out = save_pt3(&m).unwrap();
    assert_eq!(&out[..14], b"ProTracker 3.7");
    m.features_level = FeaturesLevel::Pt35;
    let out = save_pt3(&m).unwrap();
    assert_eq!(&out[..14], b"ProTracker 3.5");
    m.features_level = FeaturesLevel::Vt2;
    m.vortex_module_header = false;
    let out = save_pt3(&m).unwrap();
    assert_eq!(&out[..14], b"ProTracker 3.6");
}

#[test]
fn pt3_round_trip_keeps_header_samples_ornaments_and_cells() {
    let m = one_pattern_module();
    let out = save_pt3(&m).unwrap();
    let r = pt3::parse(&out).unwrap();
    assert_eq!(r.title, "Tune");
    assert_eq!(r.author, "Me");
    assert_eq!(r.initial_delay, 4);
    assert_eq!(r.features_level, FeaturesLevel::Vt2);
    assert!(r.vortex_module_header);
    assert_eq!(r.positions.length, 2);
    assert_eq!(r.positions.loop_pos, 1);
    assert_eq!(&r.positions.value[..2], &[0, 0]);
    let s = r.samples[2].as_deref().unwrap();
    let s0 = m.samples[2].as_deref().unwrap();
    assert_eq!(s.length, 2);
    assert_eq!(s.loop_pos, 1);
    assert_eq!(s.items[0], s0.items[0]);
    assert_eq!(s.items[1], s0.items[1]);
    let o = r.ornaments[3].as_deref().unwrap();
    assert_eq!(o.length, 3);
    assert_eq!(&o.items[..3], &[0, 4, -7]);
    let p = r.patterns[0].as_deref().unwrap();
    assert_eq!(p.length, 4);
    let c = p.items[0].channel[0];
    assert_eq!((c.note, c.sample, c.ornament, c.volume), (48, 2, 3, 12));
    assert_eq!(p.items[2].channel[1].note, NOTE_SOUND_OFF);
    let c = p.items[1].channel[2];
    assert_eq!((c.note, c.sample, c.envelope), (10, 2, 8));
    assert_eq!(p.items[1].envelope, 0x1234);
    assert_eq!(p.items[3].noise, 5);
    assert_eq!(p.items[3].channel[0].note, NOTE_NONE);
}

#[test]
fn pt3_unused_samples_and_ornaments_are_not_stored() {
    let mut m = one_pattern_module();
    let mut extra = Sample::default();
    extra.items[0].amplitude = 9;
    m.samples[20] = Some(Box::new(extra));
    let out = save_pt3(&m).unwrap();
    let ptr = u16::from_le_bytes([out[0x69 + 40], out[0x69 + 41]]);
    assert_eq!(ptr, 0);
    let r = pt3::parse(&out).unwrap();
    assert!(r.samples[20].is_none());
    // ornament 0 always points at the silent one-step ornament
    let o0 = u16::from_le_bytes([out[0xA9], out[0xAA]]) as usize;
    assert_eq!(&out[o0..o0 + 3], &[0, 1, 0]);
}

#[test]
fn pt3_effect_commands_survive_round_trip() {
    let mut m = one_pattern_module();
    let pat = m.patterns[1].as_deref_mut().unwrap();
    pat.items[0].channel[1] = ChannelLine {
        note: 30,
        sample: 2,
        additional_command: AdditionalCommand { number: 1, delay: 2, parameter: 5 },
        ..ChannelLine::default()
    };
    pat.items[0].channel[2] = ChannelLine {
        note: 31,
        sample: 2,
        additional_command: AdditionalCommand { number: 11, delay: 0, parameter: 6 },
        ..ChannelLine::default()
    };
    let out = save_pt3(&m).unwrap();
    let r = pt3::parse(&out).unwrap();
    let p = r.patterns[0].as_deref().unwrap();
    assert_eq!(p.items[0].channel[1].additional_command, AdditionalCommand { number: 1, delay: 2, parameter: 5 });
    assert_eq!(p.items[0].channel[2].additional_command.number, 11);
    assert_eq!(p.items[0].channel[2].additional_command.parameter, 6);
}

#[test]
fn pt3_write_rejects_module_larger_than_64k() {
    let mut m = Module::default();
    for p in 0..85usize {
        let mut pat = Pattern::default();
        pat.length = 256;
        for j in 0..256usize {
            for ch in 0..3 {
                // the first row makes every (pattern, channel) stream distinct
                let (note, volume) = if j == 0 {
                    (p as i8, ch as u8 + 1)
                } else {
                    (((j * 5 + ch) % 96) as i8, (j % 15) as u8 + 1)
                };
                pat.items[j].channel[ch] = ChannelLine { note, volume, ..ChannelLine::default() };
            }
        }
        m.patterns[p] = Some(Box::new(pat));
        m.positions.value[p] = p;
    }
    m.positions.length = 85;
    assert_eq!(save_pt3(&m), Err(FormatError::OutputTooLarge));
}

#[test]
fn pt3_sample_bytes_decode() {
    let data = [1u8, 2, 0x01, 0x9F, 0xFE, 0xFF, 0xE6, 0x20, 0x10, 0x00];
    let s = pt3::parse_sample(&data).unwrap();
    assert_eq!((s.loop_pos, s.length), (1, 2));
    let t = s.items[0];
    assert!(!t.envelope_enabled);
    assert_eq!(t.amplitude, 15);
    assert!(!t.mixer_ton && !t.mixer_noise);
    assert_eq!(t.add_to_ton, -2);
    let t = s.items[1];
    assert!(t.envelope_enabled && t.amplitude_sliding && t.amplitude_slide_up);
    assert_eq!(t.add_to_envelope_or_noise, -13);
    assert!(t.envelope_or_noise_accumulation);
    assert_eq!(t.add_to_ton, 16);
    assert_eq!(s.items[2], SampleTick::default());
    assert_eq!(pt3::parse_sample(&[0u8]).unwrap_err(), FormatError::TooShort);
    assert_eq!(pt3::parse_sample(&[0u8, 65]).unwrap_err(), FormatError::LengthOverflow);
    assert_eq!(pt3::parse_sample(&[0u8, 1, 0, 0, 0]).unwrap_err(), FormatError::Truncated);
}

#[test]
fn pt3_ornament_bytes_decode() {
    let o = pt3::parse_ornament(&[2, 3, 0, 12, 0xF4]).unwrap();
    assert_eq!((o.loop_pos, o.length), (2, 3));
    assert_eq!(&o.items[..4], &[0, 12, -12, 0]);
    assert_eq!(pt3::parse_ornament(&[0, 3, 0]).unwrap_err(), FormatError::Truncated);
}

#[test]
fn pt3_interpreter_reads_one_row_of_a_channel() {
    // sample 1, volume 9, ornament 2, then note 5
    let data = [0xD1u8, 0xC9, 0x42, 0x55, 0xD0];
    let row = vti::PatternRow::default();
    let (p, orn, skip, ns, row) = pt3::pattern_interpreter(&data, 0, 0, 1, 0, row, 1).unwrap();
    assert_eq!((p, orn, skip, ns), (4, 2, 1, 0));
    let c = row.channel[1];
    assert_eq!((c.note, c.sample, c.volume, c.ornament), (5, 1, 9, 2));
    // skip byte, noise base, envelope with period, then rest
    let data = [0xB1u8, 3, 0x25, 0xB5, 0x12, 0x34, 0xD0];
    let (p, _, skip, ns, row) = pt3::pattern_interpreter(&data, 0, 0, 1, 0, vti::PatternRow::default(), 0).unwrap();
    assert_eq!((p, skip, ns), (7, 3, 5));
    assert_eq!(row.channel[0].envelope, 4);
    assert_eq!(row.envelope, 0x1234);
    assert_eq!(row.channel[0].note, NOTE_NONE);
    assert_eq!(
        pt3::pattern_interpreter(&[0xD1u8], 0, 0, 1, 0, vti::PatternRow::default(), 0).unwrap_err(),
        FormatError::Truncated
    );
}

#[test]
fn pt3_glide_parameters_are_renumbered() {
    // command 1 before the note, then delay 3 and a negative step (-4)
    let data = [0x01u8, 0x50, 3, 0xFC, 0xFF];
    let (p, _, _, _, row) = pt3::pattern_interpreter(&data, 0, 0, 1, 0, vti::PatternRow::default(), 0).unwrap();
    assert_eq!(p, 5);
    assert_eq!(row.channel[0].additional_command, AdditionalCommand { number: 2, delay: 3, parameter: 4 });
}

#[test]
fn ts_trailer_and_kinds() {
    let mut data = vec![0u8; 20];
    data.extend_from_slice(b"PT3!");
    data.extend_from_slice(&[0x10, 0x00]);
    data.extend_from_slice(b"STC!");
    data.extend_from_slice(&[0x04, 0x01]);
    data.extend_from_slice(b"02TS");
    let t = parse_ts_trailer(&data).unwrap();
    assert_eq!(&t.type1, b"PT3!");
    assert_eq!(t.size1, 16);
    assert_eq!(&t.type2, b"STC!");
    assert_eq!(t.size2, 0x104);
    assert!(parse_ts_trailer(&data[..16]).is_none());
    assert!(parse_ts_trailer(&[0u8; 40]).is_none());
    assert_eq!(ext_from_ts_type(*b"PT3!"), Some("pt3"));
    assert_eq!(ext_from_ts_type(*b"GTR!"), Some("gtr"));
    assert_eq!(ext_from_ts_type(*b"XYZ!"), None);
}
