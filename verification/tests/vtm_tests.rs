use vti::formats::save_vtm;
use vti::formats::vtm::{
    int1d, int2d, int4d, note_str, parse_ornament_line, parse_pattern_row, parse_sample_tick, samp,
    write_pattern_row, write_sample_tick,
};
use vti::formats::{load, FormatError};
use vti::formats::vtm;
use vti::{
    AdditionalCommand, ChannelLine, FeaturesLevel, Module, Ornament, Pattern, PatternRow, Sample, SampleTick,
    NOTE_NONE, NOTE_SOUND_OFF,
};

#[test]
fn int1d_values() {
    assert_eq!(int1d(0), '.');
    assert_eq!(int1d(9), '9');
    assert_eq!(int1d(10), 'A');
    assert_eq!(int1d(15), 'F');
}

#[test]
fn int2d_values() {
    assert_eq!(int2d(0), "..");
    assert_eq!(int2d(1), ".1");
    assert_eq!(int2d(15), ".F");
    assert_eq!(int2d(16), "10");
    assert_eq!(int2d(31), "1F");
}

#[test]
fn int4d_values() {
    assert_eq!(int4d(0), "....");
    assert_eq!(int4d(1), "...1");
    assert_eq!(int4d(255), "..FF");
    assert_eq!(int4d(0xFFFF), "FFFF");
}

#[test]
fn samp_values() {
    assert_eq!(samp(0), '.');
    assert_eq!(samp(9), '9');
    assert_eq!(samp(10), 'A');
    assert_eq!(samp(15), 'F');
    assert_eq!(samp(16), 'G');
    assert_eq!(samp(31), 'V');
}

#[test]
fn note_str_values() {
    assert_eq!(note_str(NOTE_NONE), "---");
    assert_eq!(note_str(NOTE_SOUND_OFF), "R--");
    assert_eq!(note_str(0), "C-1");
    assert_eq!(note_str(36), "C-4");
    assert_eq!(note_str(95), "B-8");
}

#[test]
fn fields_past_their_range() {
    assert_eq!(int1d(16), '.');
    assert_eq!(samp(32), '.');
    assert_eq!(note_str(96), "---");
    assert_eq!(int4d(0x1234), "1234");
    assert_eq!(int4d(0x123), ".123");
}

#[test]
fn sample_tick_line() {
    let tick = SampleTick {
        mixer_ton: true,
        mixer_noise: false,
        envelope_enabled: false,
        add_to_ton: 5,
        ton_accumulation: false,
        add_to_envelope_or_noise: -3,
        envelope_or_noise_accumulation: true,
        amplitude: 12,
        amplitude_sliding: true,
        amplitude_slide_up: true,
    };
    assert_eq!(write_sample_tick(&tick), "Tne +005_ -03^ C+");
    let t2 = SampleTick { add_to_ton: -0x123, amplitude_sliding: false, ..tick };
    assert_eq!(write_sample_tick(&t2), "Tne -123_ -03^ C_");
}

#[test]
fn pattern_row_line() {
    let row = PatternRow {
        envelope: 0x1234,
        noise: 5,
        channel: [
            ChannelLine { note: 36, sample: 1, ornament: 2, volume: 15, envelope: 0, additional_command: AdditionalCommand::default() },
            ChannelLine { note: NOTE_NONE, sample: 0, ornament: 0, volume: 0, envelope: 0, additional_command: AdditionalCommand::default() },
            ChannelLine { note: NOTE_SOUND_OFF, sample: 3, ornament: 0, volume: 0, envelope: 0, additional_command: AdditionalCommand { number: 1, delay: 2, parameter: 15 } },
        ],
    };
    let s = write_pattern_row(&row);
    assert_eq!(s.len(), 49);
    assert_eq!(s, "1234|.5|C-4 1.2F ....|--- .... ....|R-- 3... 12.F");
}

#[test]
fn vtm_text_of_the_default_module() {
    let m = Module::default();
    let t = save_vtm(&m);
    assert!(t.starts_with(
        "[Module]\nVortexTrackerII=1\nVersion=3.6\nTitle=\nAuthor=\nNoteTable=0\nChipFreq=1750000\nSpeed=3\nPlayOrder=\n\n[Ornament1]\nL0\n\n"
    ));
    assert!(t.contains("[Sample31]\ntne +000_ +00_ 0_ L\n\n"));
    assert!(!t.contains("[Pattern"));
}

#[test]
fn vtm_text_lists_positions_ornaments_samples_and_patterns() {
    let mut m = Module::default();
    m.positions.length = 3;
    m.positions.value[0] = 0;
    m.positions.value[1] = 2;
    m.positions.value[2] = 1;
    m.positions.loop_pos = 1;
    let mut o = vti::Ornament::default();
    o.length = 3;
    o.items[1] = 2;
    o.items[2] = -1;
    m.ornaments[1] = Some(Box::new(o));
    let mut s = vti::Sample::default();
    s.length = 1;
    m.samples[1] = Some(Box::new(s));
    let mut p = vti::Pattern::default();
    p.length = 1;
    m.patterns[2] = Some(Box::new(p));
    let t = save_vtm(&m);
    assert!(t.contains("PlayOrder=0,L2,1\n\n"));
    assert!(t.contains("[Ornament1]\nL0,2,-1\n\n"));
    assert!(t.contains("[Sample1]\ntne +000_ +00_ 0_ L\n\n[Sample2]"));
    assert!(t.contains("[Pattern2]\n....|..|--- .... ....|--- .... ....|--- .... ....\n\n"));
}

#[test]
fn sample_tick_round_trip() {
    let tick = SampleTick {
        mixer_ton: true,
        mixer_noise: false,
        envelope_enabled: false,
        add_to_ton: 5,
        ton_accumulation: false,
        add_to_envelope_or_noise: -3,
        envelope_or_noise_accumulation: true,
        amplitude: 12,
        amplitude_sliding: true,
        amplitude_slide_up: true,
    };
    let s = write_sample_tick(&tick);
    let parsed = parse_sample_tick(&s).expect("parse tick");
    assert_eq!(parsed.mixer_ton, tick.mixer_ton);
    assert_eq!(parsed.mixer_noise, tick.mixer_noise);
    assert_eq!(parsed.add_to_ton, tick.add_to_ton);
    assert_eq!(parsed.amplitude, tick.amplitude);
}

#[test]
fn ornament_round_trip() {
    let s = "L0,2,-1,3";
    let orn = parse_ornament_line(s).expect("parse ornament");
    assert_eq!(orn.length, 4);
    assert_eq!(orn.loop_pos, 0);
    assert_eq!(orn.items[0], 0);
    assert_eq!(orn.items[1], 2);
    assert_eq!(orn.items[2], -1);
    assert_eq!(orn.items[3], 3);
}

#[test]
fn pattern_row_round_trip() {
    let row = PatternRow {
        envelope: 0x1234,
        noise: 5,
        channel: [
            ChannelLine { note: 36, sample: 1, ornament: 2, volume: 15, envelope: 0, additional_command: AdditionalCommand::default() },
            ChannelLine { note: NOTE_NONE, sample: 0, ornament: 0, volume: 0, envelope: 0, additional_command: AdditionalCommand::default() },
            ChannelLine { note: NOTE_SOUND_OFF, sample: 3, ornament: 0, volume: 0, envelope: 0, additional_command: AdditionalCommand { number: 1, delay: 2, parameter: 15 } },
        ],
    };
    let s = write_pattern_row(&row);
    assert_eq!(s.len(), 49, "row string is exactly 49 chars: {:?}", s);
    let parsed = parse_pattern_row(&s).expect("parse row");
    assert_eq!(parsed.envelope, row.envelope);
    assert_eq!(parsed.noise, row.noise);
    assert_eq!(parsed.channel[0].note, row.channel[0].note);
    assert_eq!(parsed.channel[0].sample, row.channel[0].sample);
    assert_eq!(parsed.channel[0].volume, row.channel[0].volume);
    assert_eq!(parsed.channel[2].note, row.channel[2].note);
    assert_eq!(parsed.channel[2].additional_command.number, 1);
    assert_eq!(parsed.channel[2].additional_command.delay, 2);
    assert_eq!(parsed.channel[2].additional_command.parameter, 15);
}

#[test]
fn sample_lines_read_every_field() {
    let t = parse_sample_tick("tNE -0FF^ +1F_ a- L").unwrap();
    assert!(!t.mixer_ton);
    assert!(t.mixer_noise);
    assert!(t.envelope_enabled);
    assert_eq!(t.add_to_ton, -255);
    assert!(t.ton_accumulation);
    // the low five bits of 0x1F, signed
    assert_eq!(t.add_to_envelope_or_noise, -1);
    assert!(!t.envelope_or_noise_accumulation);
    assert_eq!(t.amplitude, 10);
    assert!(t.amplitude_sliding);
    assert!(!t.amplitude_slide_up);
    // every written tick reads back
    let all = SampleTick {
        mixer_ton: false,
        mixer_noise: true,
        envelope_enabled: true,
        add_to_ton: -0x123,
        ton_accumulation: true,
        add_to_envelope_or_noise: 15,
        envelope_or_noise_accumulation: false,
        amplitude: 7,
        amplitude_sliding: false,
        amplitude_slide_up: false,
    };
    assert_eq!(parse_sample_tick(&write_sample_tick(&all)).unwrap(), all);
}

#[test]
fn malformed_sample_lines_are_refused() {
    assert_eq!(parse_sample_tick("").err(), Some(FormatError::SampleLineSyntax));
    assert_eq!(parse_sample_tick("TNE").err(), Some(FormatError::SampleLineSyntax));
    // tone offset beyond a signed 16-bit value
    assert_eq!(parse_sample_tick("TNE +8000_ +00_ 0_").err(), Some(FormatError::SampleLineSyntax));
    // envelope offset beyond a byte
    assert_eq!(parse_sample_tick("TNE +000_ +100_ 0_").err(), Some(FormatError::SampleLineSyntax));
    // a sign without digits
    assert_eq!(parse_sample_tick("TNE +_ +00_ 0_").err(), Some(FormatError::SampleLineSyntax));
}

#[test]
fn ornament_lines_edge_cases() {
    assert_eq!(parse_ornament_line("").err(), Some(FormatError::EmptyOrnament));
    assert_eq!(parse_ornament_line("L").err(), Some(FormatError::EmptyOrnament));
    let o = parse_ornament_line("1,+2,200,L-128").unwrap();
    assert_eq!(o.length, 4);
    assert_eq!(o.loop_pos, 3);
    // 200 and 128 do not fit a signed byte and read as 0
    assert_eq!(&o.items[..4], &[1, 2, 0, 0]);
    // a sign without digits ends the line
    let o = parse_ornament_line("5,-,7").unwrap();
    assert_eq!(o.length, 1);
    // at most 255 offsets
    let long = vec!["1"; 300].join(",");
    assert_eq!(parse_ornament_line(&long).unwrap().length, 255);
}

#[test]
fn pattern_rows_edge_cases() {
    assert_eq!(parse_pattern_row("....|..|---").err(), Some(FormatError::PatternRowTooShort));
    // lower-case digits, sharps, an empty cell column and an out-of-range
    // sample digit
    let line = "00ff|1f|c#2 2f3a 1201|B-8 W... ....+--- .... ....";
    let r = parse_pattern_row(line).unwrap();
    assert_eq!(r.envelope, 0xFF);
    assert_eq!(r.noise, 31);
    assert_eq!(r.channel[0].note, 13);
    assert_eq!(r.channel[0].sample, 2);
    assert_eq!(r.channel[0].envelope, 15);
    assert_eq!(r.channel[0].ornament, 3);
    assert_eq!(r.channel[0].volume, 10);
    assert_eq!(r.channel[0].additional_command.number, 1);
    assert_eq!(r.channel[0].additional_command.delay, 2);
    assert_eq!(r.channel[0].additional_command.parameter, 1);
    assert_eq!(r.channel[1].note, 95);
    assert_eq!(r.channel[1].sample, 0);
    assert_eq!(r.channel[2].note, NOTE_NONE);
}

fn make_demo_module_for_test() -> Module {
    let mut module = Module::default();
    module.title = "Demo Song".to_string();
    module.author = "Vortex Tracker II".to_string();
    module.initial_delay = 3;

    let mut lead = Sample::default();
    lead.length = 1;
    lead.loop_pos = 0;
    lead.items[0] = SampleTick { amplitude: 14, mixer_ton: true, mixer_noise: false, ..SampleTick::default() };
    module.samples[1] = Some(Box::new(lead));

    let mut bass = Sample::default();
    bass.length = 1;
    bass.loop_pos = 0;
    bass.items[0] = SampleTick { amplitude: 10, mixer_ton: true, mixer_noise: false, ..SampleTick::default() };
    module.samples[2] = Some(Box::new(bass));

    let mut drum = Sample::default();
    drum.length = 8;
    drum.loop_pos = 7;
    let amps: [u8; 8] = [15, 13, 11, 9, 7, 5, 2, 0];
    for (i, &amp) in amps.iter().enumerate() {
        drum.items[i] = SampleTick {
            amplitude: amp,
            mixer_ton: false,
            mixer_noise: true,
            add_to_envelope_or_noise: 12,
            ..SampleTick::default()
        };
    }
    module.samples[3] = Some(Box::new(drum));

    let mut orn_maj = Ornament::default();
    orn_maj.length = 3;
    orn_maj.loop_pos = 0;
    orn_maj.items[0] = 0;
    orn_maj.items[1] = 4;
    orn_maj.items[2] = 7;
    module.ornaments[1] = Some(Box::new(orn_maj));

    let mut orn_min = Ornament::default();
    orn_min.length = 3;
    orn_min.loop_pos = 0;
    orn_min.items[0] = 0;
    orn_min.items[1] = 3;
    orn_min.items[2] = 7;
    module.ornaments[2] = Some(Box::new(orn_min));

    let mut pat = Pattern::default();
    pat.length = 16;
    let mk = |note: i8, sample: u8, ornament: u8, volume: u8| ChannelLine {
        note,
        sample,
        ornament,
        volume,
        envelope: 0,
        additional_command: AdditionalCommand::default(),
    };
    pat.items[0].channel[0] = mk(48, 1, 1, 15);
    pat.items[0].channel[1] = mk(24, 2, 1, 12);
    pat.items[0].channel[2] = mk(0, 3, 0, 15);
    pat.items[4].channel[0] = mk(43, 1, 1, 15);
    pat.items[4].channel[1] = mk(31, 2, 1, 12);
    pat.items[8].channel[0] = mk(45, 1, 2, 15);
    pat.items[8].channel[1] = mk(33, 2, 2, 12);
    pat.items[8].channel[2] = mk(0, 3, 0, 15);
    pat.items[12].channel[0] = mk(41, 1, 1, 15);
    pat.items[12].channel[1] = mk(29, 2, 1, 12);
    module.patterns[0] = Some(Box::new(pat));

    module.positions.length = 1;
    module.positions.value[0] = 0;
    module.positions.loop_pos = 0;
    module
}

#[test]
fn vtm_round_trip_demo_song() {
    let original = make_demo_module_for_test();

    let text = vtm::write(&original);
    assert!(!text.is_empty(), "write should produce non-empty output");
    assert!(text.contains("[Module]"), "output must contain [Module] section");
    assert!(text.contains("[Pattern0]"), "output must contain [Pattern0] section");
    assert!(text.contains("[Sample1]"), "output must contain [Sample1] section");
    assert!(text.contains("[Ornament1]"), "output must contain [Ornament1] section");

    let loaded = vtm::parse(&text).expect("VTM parse should succeed");

    assert_eq!(loaded.title, original.title);
    assert_eq!(loaded.author, original.author);
    assert_eq!(loaded.initial_delay, original.initial_delay);
    assert_eq!(loaded.ton_table, original.ton_table);
    assert_eq!(loaded.features_level, original.features_level);

    assert_eq!(loaded.positions.length, original.positions.length);
    assert_eq!(loaded.positions.loop_pos, original.positions.loop_pos);
    assert_eq!(loaded.positions.value[0], original.positions.value[0]);

    let s1_orig = original.samples[1].as_deref().expect("sample 1 must exist");
    let s1_load = loaded.samples[1].as_deref().expect("sample 1 must round-trip");
    assert_eq!(s1_load.length, s1_orig.length);
    assert_eq!(s1_load.loop_pos, s1_orig.loop_pos);
    assert_eq!(s1_load.items[0].amplitude, s1_orig.items[0].amplitude);
    assert_eq!(s1_load.items[0].mixer_ton, s1_orig.items[0].mixer_ton);
    assert_eq!(s1_load.items[0].mixer_noise, s1_orig.items[0].mixer_noise);

    let s3_orig = original.samples[3].as_deref().expect("sample 3 must exist");
    let s3_load = loaded.samples[3].as_deref().expect("sample 3 must round-trip");
    assert_eq!(s3_load.length, s3_orig.length);
    assert_eq!(s3_load.loop_pos, s3_orig.loop_pos);
    for i in 0..s3_orig.length as usize {
        assert_eq!(s3_load.items[i].amplitude, s3_orig.items[i].amplitude, "drum tick {i} amplitude mismatch",);
        assert_eq!(s3_load.items[i].mixer_noise, s3_orig.items[i].mixer_noise, "drum tick {i} mixer_noise mismatch",);
    }

    let o1_orig = original.ornaments[1].as_deref().expect("ornament 1 must exist");
    let o1_load = loaded.ornaments[1].as_deref().expect("ornament 1 must round-trip");
    assert_eq!(o1_load.length, o1_orig.length);
    assert_eq!(o1_load.loop_pos, o1_orig.loop_pos);
    let orn_len = o1_orig.length;
    assert_eq!(&o1_load.items[..orn_len], &o1_orig.items[..orn_len]);

    let p0_orig = original.patterns[0].as_deref().expect("pattern 0 must exist");
    let p0_load = loaded.patterns[0].as_deref().expect("pattern 0 must round-trip");
    assert_eq!(p0_load.length, p0_orig.length);
    assert_eq!(p0_load.items[0].channel[0].note, p0_orig.items[0].channel[0].note);
    assert_eq!(p0_load.items[0].channel[0].sample, p0_orig.items[0].channel[0].sample);
    assert_eq!(p0_load.items[0].channel[0].ornament, p0_orig.items[0].channel[0].ornament);
    assert_eq!(p0_load.items[0].channel[0].volume, p0_orig.items[0].channel[0].volume);
    assert_eq!(p0_load.items[8].channel[0].note, p0_orig.items[8].channel[0].note);
    assert_eq!(p0_load.items[8].channel[2].note, p0_orig.items[8].channel[2].note);
}

#[test]
fn vtm_demo_song_reads_back_whole() {
    let original = make_demo_module_for_test();
    let loaded = vtm::parse(&vtm::write(&original)).unwrap();
    for i in 1..4 {
        let a = original.samples[i].as_deref().unwrap();
        let b = loaded.samples[i].as_deref().unwrap();
        assert_eq!(a.length, b.length);
        assert_eq!(&a.items[..a.length as usize], &b.items[..b.length as usize]);
    }
    let a = original.patterns[0].as_deref().unwrap();
    let b = loaded.patterns[0].as_deref().unwrap();
    for r in 0..16 {
        assert_eq!(a.items[r].channel, b.items[r].channel);
        assert_eq!(a.items[r].envelope, b.items[r].envelope);
        assert_eq!(a.items[r].noise, b.items[r].noise);
    }
    assert!(loaded.vortex_module_header);
}

#[test]
fn vtm_module_fields() {
    let text = "junk\n [module] \r\n VortexTrackerII = 0 \nVersion=3.5\nTitle=  My Song \nno equals sign\n=skipped\nAuthor=Me\nNoteTable=9\nSpeed=x\nPlayOrder=1, L2 ,, +3\n";
    let m = vtm::parse(text).unwrap();
    assert!(!m.vortex_module_header);
    assert_eq!(m.features_level, FeaturesLevel::Pt35);
    assert_eq!(m.title, "My Song");
    assert_eq!(m.author, "Me");
    assert_eq!(m.ton_table, 4);
    assert_eq!(m.initial_delay, 3);
    assert_eq!(m.positions.length, 3);
    assert_eq!(m.positions.loop_pos, 1);
    assert_eq!(&m.positions.value[..3], &[1, 2, 3]);
    let m = vtm::parse("[Module]\nversion=3.7\nspeed=6\n").unwrap();
    assert_eq!(m.features_level, FeaturesLevel::Pt37);
    assert_eq!(m.initial_delay, 6);
}

#[test]
fn vtm_errors() {
    assert_eq!(vtm::parse("Title=x\n").err(), Some(FormatError::MissingModuleSection));
    assert_eq!(vtm::parse("").err(), Some(FormatError::MissingModuleSection));
    assert_eq!(vtm::parse("[Module]\nPlayOrder=1,85\n").err(), Some(FormatError::BadPlayOrder));
    assert_eq!(vtm::parse("[Module]\nPlayOrder=1,x\n").err(), Some(FormatError::BadPlayOrder));
    let many = format!("[Module]\nPlayOrder={}\n", vec!["0"; 257].join(","));
    assert_eq!(vtm::parse(&many).err(), Some(FormatError::BadPlayOrder));
    assert_eq!(load(&[0xFFu8, 0xFE], "a.vtm").err(), Some(FormatError::InvalidUtf8));
}

#[test]
fn vtm_sections() {
    let row = PatternRow {
        envelope: 7,
        noise: 1,
        channel: [
            ChannelLine { note: 40, sample: 2, ornament: 3, volume: 9, envelope: 1, additional_command: AdditionalCommand::default() },
            ChannelLine::default(),
            ChannelLine::default(),
        ],
    };
    let line = write_pattern_row(&row);
    let text = format!(
        "[Module]\nTitle=T\n\n[ornament3]\n\n L1,-2\n[Sample2]\nTne +001_ +00_ F_ L\ntne +002_ +00_ 0_\n\n[PATTERN5]\n{}\n{}\n\n[Pattern90]\n{}\n[Sample7]\nnot a tick\n[Other]\n",
        line, line, line
    );
    let m = vtm::parse(&text).unwrap();
    assert_eq!(m.title, "T");
    let o = m.ornaments[3].as_deref().unwrap();
    assert_eq!(o.length, 2);
    assert_eq!(o.loop_pos, 0);
    assert_eq!(&o.items[..2], &[1, -2]);
    let s = m.samples[2].as_deref().unwrap();
    assert_eq!(s.length, 2);
    assert_eq!(s.loop_pos, 0);
    assert_eq!(s.items[0].amplitude, 15);
    assert_eq!(s.items[1].add_to_ton, 2);
    let p = m.patterns[5].as_deref().unwrap();
    assert_eq!(p.length, 2);
    assert_eq!(p.items[1].channel, row.channel);
    assert_eq!(p.items[1].envelope, 7);
    assert_eq!(p.items[1].noise, 1);
    assert!(m.samples[7].is_none());
    assert!(m.patterns.iter().enumerate().all(|(i, p)| p.is_some() == (i == 5)));
    let by_name = load(text.as_bytes(), "song.VTM").unwrap();
    assert_eq!(by_name.positions.length, 0);
    assert!(vtm::readable(&text));
}

#[test]
fn vtm_pattern_84_survives_write_and_read() {
    let mut m = Module::default();
    m.positions.length = 1;
    m.positions.value[0] = 84;
    m.patterns[84] = Some(Box::new(Pattern { length: 1, ..Pattern::default() }));
    let text = vtm::write(&m);
    let m2 = vtm::parse(&text).expect("reads back");
    assert_eq!(m2.positions.value[0], 84);
    assert_eq!(m2.patterns[84].as_ref().expect("pattern 84").length, 1);
}
