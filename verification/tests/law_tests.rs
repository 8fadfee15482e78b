use std::collections::HashSet;
use vti::chip::SoundChip;
use vti::formats::pt3;
use vti::formats::vtm::{parse_pattern_row, parse_sample_tick, write_pattern_row, write_sample_tick};
use vti::player::RingBuf;
use vti::playback::{init_tracker_parameters, Engine, PlayVars};
use vti::synth::StereoSample;
use vti::util::note_to_str;
use vti::{ChannelLine, Module, Pattern, PatternRow, SampleTick, NOTE_SOUND_OFF};

#[test]
fn note_texts_are_all_distinct() {
    let mut seen = HashSet::new();
    for n in -2i8..=95 {
        assert!(seen.insert(note_to_str(n)), "duplicate text for note {}", n);
    }
    assert_eq!(seen.len(), 98);
}

#[test]
fn ring_buffer_keeps_order_over_many_pushes() {
    let mut rb = RingBuf::new(8);
    for i in 0..7i16 {
        rb.push(StereoSample { left: i, right: -i });
    }
    for i in 0..7i16 {
        assert_eq!(rb.pop(), Some(StereoSample { left: i, right: -i }));
    }
    assert_eq!(rb.pop(), None);
}

#[test]
fn envelope_levels_stay_in_range_after_steps() {
    for v in 0u8..16 {
        let mut chip = SoundChip::default();
        chip.set_envelope_register(v);
        for _ in 0..200 {
            chip.step_envelope();
            assert!((0..=31).contains(&chip.envelope_step), "shape {} left the levels", v);
        }
    }
}

#[test]
fn hold_shapes_stay_at_31() {
    for v in [11u8, 13] {
        let mut chip = SoundChip::default();
        chip.set_envelope_register(v);
        for k in 1..=100 {
            chip.step_envelope();
            if k >= 33 {
                assert_eq!(chip.envelope_step, 31);
                assert!(!chip.first_period);
            }
        }
    }
}

#[test]
fn written_pt3_header_reads_back() {
    let mut m = Module::default();
    m.initial_delay = 5;
    m.ton_table = 2;
    let mut p = Pattern::default();
    p.length = 4;
    p.items[0].channel[0] = ChannelLine { note: 40, volume: 9, ..ChannelLine::default() };
    m.patterns[0] = Some(Box::new(p.clone()));
    m.patterns[2] = Some(Box::new(p));
    m.positions.length = 3;
    m.positions.value[0] = 2;
    m.positions.value[1] = 0;
    m.positions.value[2] = 2;
    m.positions.loop_pos = 1;
    let bytes = pt3::write(&m).expect("writes");
    let m2 = pt3::parse(&bytes).expect("reads");
    assert_eq!(m2.initial_delay, 5);
    assert_eq!(m2.ton_table, 2);
    assert_eq!(m2.positions.length, 3);
    assert_eq!(m2.positions.loop_pos, 1);
    // Pattern 2 is renumbered 1: pattern 1 is not played.
    assert_eq!(&m2.positions.value[..3], &[1, 0, 1]);
}

#[test]
fn written_lines_read_back() {
    let t = SampleTick {
        add_to_ton: -0x123,
        ton_accumulation: true,
        amplitude: 11,
        amplitude_sliding: true,
        amplitude_slide_up: false,
        envelope_enabled: true,
        envelope_or_noise_accumulation: false,
        add_to_envelope_or_noise: -15,
        mixer_ton: false,
        mixer_noise: true,
    };
    assert_eq!(parse_sample_tick(&write_sample_tick(&t)), Ok(t));
    let mut row = PatternRow::default();
    row.envelope = 0xBEEF;
    row.noise = 31;
    row.channel[1] = ChannelLine { note: NOTE_SOUND_OFF, sample: 31, volume: 15, ..ChannelLine::default() };
    row.channel[2] = ChannelLine { note: 95, ornament: 7, envelope: 14, ..ChannelLine::default() };
    row.channel[2].additional_command.number = 11;
    row.channel[2].additional_command.parameter = 0xA5;
    let back = parse_pattern_row(&write_pattern_row(&row)).expect("reads");
    assert_eq!(back.envelope, row.envelope);
    assert_eq!(back.noise, row.noise);
    assert_eq!(back.channel, row.channel);
}

#[test]
fn written_vtm_header_reads_back() {
    let mut m = Module::default();
    m.title = String::from("Demo Song");
    m.author = String::from("Someone");
    m.initial_delay = 5;
    m.ton_table = 2;
    m.vortex_module_header = false;
    m.features_level = vti::FeaturesLevel::Pt35;
    m.positions.length = 3;
    m.positions.value[0] = 2;
    m.positions.value[1] = 0;
    m.positions.value[2] = 84;
    m.positions.loop_pos = 1;
    let text = vti::formats::vtm::write(&m);
    let m2 = vti::formats::vtm::parse(&text).expect("reads");
    assert_eq!(m2.title, "Demo Song");
    assert_eq!(m2.author, "Someone");
    assert_eq!(m2.initial_delay, 5);
    assert_eq!(m2.ton_table, 2);
    assert!(!m2.vortex_module_header);
    assert_eq!(m2.features_level, vti::FeaturesLevel::Pt35);
    assert_eq!(m2.positions.length, 3);
    assert_eq!(m2.positions.loop_pos, 1);
    assert_eq!(&m2.positions.value[..3], &[2, 0, 84]);
}

#[test]
fn silent_shapes_stay_at_0() {
    for v in [0u8, 1, 2, 3, 4, 5, 6, 7, 9, 15] {
        let mut chip = SoundChip::default();
        chip.set_envelope_register(v);
        for k in 1..=100 {
            chip.step_envelope();
            if k >= 33 {
                assert_eq!(chip.envelope_step, 0, "shape {}", v);
                assert!(!chip.first_period);
            }
        }
    }
}

#[test]
fn tone_flips_once_every_period() {
    let mut chip = SoundChip::default();
    chip.registers.ton_a = 3;
    chip.registers.ton_b = 1;
    chip.registers.ton_c = 5;
    let (a0, b0, c0) = (chip.ton_a, chip.ton_b, chip.ton_c);
    for n in 1u32..=40 {
        chip.synthesizer_logic_q();
        let flip = |p: u32, t0: i32| if (n / p) % 2 == 0 { t0 } else { 1 - t0 };
        assert_eq!(chip.ton_a, flip(3, a0), "clock {}", n);
        assert_eq!(chip.ton_b, flip(1, b0), "clock {}", n);
        assert_eq!(chip.ton_c, flip(5, c0), "clock {}", n);
    }
}

#[test]
fn one_row_every_speed_ticks() {
    let mut m = Module::default();
    m.positions.length = 1;
    let mut pat = Pattern::default();
    pat.length = 4;
    for r in 0..4 {
        pat.items[r].channel[0] = ChannelLine { note: 36 + r as i8, volume: 15, sample: 1, ..ChannelLine::default() };
    }
    m.patterns[0] = Some(Box::new(pat));
    let mut sam = vti::Sample::default();
    sam.length = 4;
    for i in 0..4 {
        sam.items[i] = SampleTick { amplitude: 15, mixer_ton: false, mixer_noise: true, ..SampleTick::default() };
    }
    m.samples[1] = Some(Box::new(sam));
    let mut vars = PlayVars { current_pattern: 0, ..PlayVars::default() };
    init_tracker_parameters(&mut m, &mut vars, true);
    vars.current_pattern = 0;
    vars.current_line = 0;
    vars.delay = 3;
    vars.delay_counter = 1;
    let mut regs = vti::AyRegisters::default();
    for n in 1u32..=20 {
        {
            let mut engine = Engine { module: &mut m, vars: &mut vars };
            engine.pattern_play_current_line(&mut regs);
        }
        let expected = std::cmp::min((n + 2) / 3, 4) as usize;
        assert_eq!(vars.current_line, expected, "after {} calls", n);
    }
}
