use vti::note_tables::PT3_NOTE_TABLE_PT;
use vti::playback::{init_tracker_parameters, Engine, PlayResult, PlayVars};
use vti::{AdditionalCommand, ChannelLine, Module, Ornament, Pattern, Sample, SampleTick, NOTE_SOUND_OFF};

fn make_module_with_pattern() -> Module {
    let mut m = Module::default();
    m.initial_delay = 3;
    m.positions.length = 1;
    m.positions.value[0] = 0;

    // Install a short 4-row pattern
    let mut pat = Pattern::default();
    pat.length = 4;
    // Row 0: note C-4 on all channels, sample 1, volume 15
    for ch in 0..3 {
        pat.items[0].channel[ch] = ChannelLine {
            note: 36, // C-4
            sample: 1,
            ornament: 0,
            volume: 15,
            envelope: 0,
            additional_command: AdditionalCommand::default(),
        };
    }
    m.patterns[0] = Some(Box::new(pat));

    // Install a trivial sample 1
    let mut sam = Sample::default();
    sam.length = 4;
    sam.loop_pos = 0;
    for i in 0..4 {
        sam.items[i] = SampleTick {
            amplitude: 15,
            mixer_ton: false,  // tone on
            mixer_noise: true, // noise off
            ..SampleTick::default()
        };
    }
    m.samples[1] = Some(Box::new(sam));
    m
}

/// Build a module with arpeggios on channels A/B and a noise drum on C.
/// This mirrors the startup demo module in `app.rs` so the same logical path
/// is exercised from the test suite.
fn make_arpeggio_module() -> Module {
    let mut m = Module::default();
    m.initial_delay = 3;

    // Sample 1 – lead tone (sustaining)
    let mut lead = Sample::default();
    lead.length = 1;
    lead.loop_pos = 0;
    lead.items[0] = SampleTick {
        amplitude: 14,
        mixer_ton: true,
        mixer_noise: false,
        ..SampleTick::default()
    };
    m.samples[1] = Some(Box::new(lead));

    // Sample 2 – bass tone
    let mut bass_samp = Sample::default();
    bass_samp.length = 1;
    bass_samp.loop_pos = 0;
    bass_samp.items[0] = SampleTick {
        amplitude: 10,
        mixer_ton: true,
        mixer_noise: false,
        ..SampleTick::default()
    };
    m.samples[2] = Some(Box::new(bass_samp));

    // Sample 3 – noise drum (decaying, loops on silent tick 7)
    let mut drum = Sample::default();
    drum.length = 8;
    drum.loop_pos = 7;
    let drum_amps: [u8; 8] = [15, 13, 11, 9, 7, 5, 2, 0];
    for (i, &amp) in drum_amps.iter().enumerate() {
        drum.items[i] = SampleTick {
            amplitude: amp,
            mixer_ton: false,
            mixer_noise: true,
            add_to_envelope_or_noise: 12,
            ..SampleTick::default()
        };
    }
    m.samples[3] = Some(Box::new(drum));

    // Ornament 0 – zero offset (already installed by Module::default())

    // Ornament 1 – major arpeggio [0, +4, +7]
    let mut orn_major = Ornament::default();
    orn_major.length = 3;
    orn_major.loop_pos = 0;
    orn_major.items[0] = 0;
    orn_major.items[1] = 4;
    orn_major.items[2] = 7;
    m.ornaments[1] = Some(Box::new(orn_major));

    // Ornament 2 – minor arpeggio [0, +3, +7]
    let mut orn_minor = Ornament::default();
    orn_minor.length = 3;
    orn_minor.loop_pos = 0;
    orn_minor.items[0] = 0;
    orn_minor.items[1] = 3;
    orn_minor.items[2] = 7;
    m.ornaments[2] = Some(Box::new(orn_minor));

    // 16-row pattern: I–V–vi–IV chord progression
    let mut pat = Pattern::default();
    pat.length = 16;

    let make_chan = |note: i8, sample: u8, ornament: u8, volume: u8| ChannelLine {
        note, sample, ornament, volume,
        envelope: 0,
        additional_command: AdditionalCommand::default(),
    };

    // Row 0 – C major (I): Ch A C-5, Ch B C-3, Ch C noise drum
    pat.items[0].channel[0] = make_chan(48, 1, 1, 15);
    pat.items[0].channel[1] = make_chan(24, 2, 1, 12);
    pat.items[0].channel[2] = make_chan(0,  3, 0, 15);

    // Row 4 – G major (V): Ch A G-4, Ch B G-3
    pat.items[4].channel[0] = make_chan(43, 1, 1, 15);
    pat.items[4].channel[1] = make_chan(31, 2, 1, 12);

    // Row 8 – A minor (vi): Ch A A-4, Ch B A-3, Ch C noise drum
    pat.items[8].channel[0] = make_chan(45, 1, 2, 15);
    pat.items[8].channel[1] = make_chan(33, 2, 2, 12);
    pat.items[8].channel[2] = make_chan(0,  3, 0, 15);

    // Row 12 – F major (IV): Ch A F-4, Ch B F-3
    pat.items[12].channel[0] = make_chan(41, 1, 1, 15);
    pat.items[12].channel[1] = make_chan(29, 2, 1, 12);

    m.patterns[0] = Some(Box::new(pat));

    m.positions.length = 1;
    m.positions.value[0] = 0;
    m.positions.loop_pos = 0;

    m
}

/// Build a minimal one-position, one-pattern module with a single note on
/// channel 0 plus an effect command on row 0.  The pattern has 4 rows.
fn make_effect_module(cmd: AdditionalCommand) -> Module {
    let mut m = Module::default();
    m.initial_delay = 1;
    m.positions.length = 1;
    m.positions.value[0] = 0;

    let mut s = Sample::default();
    s.length = 1;
    s.loop_pos = 0;
    s.items[0] = SampleTick { amplitude: 15, mixer_ton: true, mixer_noise: false, ..SampleTick::default() };
    m.samples[1] = Some(Box::new(s));

    let mut pat = Pattern::default();
    pat.length = 4;
    pat.items[0].channel[0] = ChannelLine {
        note: 36, // C-4
        sample: 1,
        ornament: 0,
        volume: 15,
        envelope: 0,
        additional_command: cmd,
    };
    m.patterns[0] = Some(Box::new(pat));
    m
}

/// Process one tick of `module` and return the resulting `PlayVars`.
fn run_one_tick(module: &mut Module) -> PlayVars {
    let mut vars = PlayVars {
        current_pattern: 0,
        current_line: 0,
        delay: 1,
        delay_counter: 1,
        ..PlayVars::default()
    };
    init_tracker_parameters(module, &mut vars, true);
    vars.delay = 1;
    vars.delay_counter = 1;
    let mut regs = vti::AyRegisters::default();
    let mut engine = Engine { module, vars: &mut vars };
    engine.pattern_play_current_line(&mut regs);
    vars
}

#[test]
fn init_tracker_parameters_resets_state() {
    let mut m = make_module_with_pattern();
    let mut vars = PlayVars::default();
    vars.delay = 6; // some non-zero value
    init_tracker_parameters(&mut m, &mut vars, true);
    assert_eq!(vars.delay_counter, 1);
    assert_eq!(vars.pt3_noise, 0);
    assert_eq!(vars.env_base, 0);
}

#[test]
fn pattern_play_returns_updated_on_first_tick() {
    let mut m = make_module_with_pattern();
    let mut vars = PlayVars {
        current_pattern: 0,
        current_line: 0,
        delay: 3,
        delay_counter: 1,
        ..PlayVars::default()
    };
    init_tracker_parameters(&mut m, &mut vars, true);

    let mut regs = vti::AyRegisters::default();
    let mut engine = Engine { module: &mut m, vars: &mut vars };
    let result = engine.pattern_play_current_line(&mut regs);
    assert_eq!(result, PlayResult::Updated);
}

#[test]
fn pattern_advances_line_after_delay() {
    let mut m = make_module_with_pattern();
    let mut vars = PlayVars {
        current_pattern: 0,
        current_line: 0,
        delay: 1,
        delay_counter: 1,
        ..PlayVars::default()
    };
    init_tracker_parameters(&mut m, &mut vars, true);

    let mut regs = vti::AyRegisters::default();
    for _ in 0..3 {
        let mut engine = Engine { module: &mut m, vars: &mut vars };
        engine.pattern_play_current_line(&mut regs);
    }
    assert_eq!(vars.current_line, 3);
}

#[test]
fn pattern_end_returned_at_pattern_boundary() {
    let mut m = make_module_with_pattern();
    // Set delay=1 so every tick advances a line; pattern len=4
    let mut vars = PlayVars {
        current_pattern: 0,
        current_line: 0,
        delay: 1,
        delay_counter: 1,
        ..PlayVars::default()
    };
    init_tracker_parameters(&mut m, &mut vars, true);
    vars.delay = 1;
    vars.delay_counter = 1;

    let mut regs = vti::AyRegisters::default();
    let mut last = PlayResult::Updated;
    for _ in 0..6 {
        let mut engine = Engine { module: &mut m, vars: &mut vars };
        last = engine.pattern_play_current_line(&mut regs);
    }
    assert_eq!(last, PlayResult::PatternEnd);
}

#[test]
fn module_play_loops_at_end() {
    let mut m = make_module_with_pattern();
    m.positions.loop_pos = 0;
    let mut vars = PlayVars {
        current_pattern: 0,
        current_line: 0,
        delay: 1,
        delay_counter: 1,
        ..PlayVars::default()
    };
    init_tracker_parameters(&mut m, &mut vars, true);
    vars.delay = 1;
    vars.delay_counter = 1;

    let mut regs = vti::AyRegisters::default();
    let mut saw_loop = false;
    for _ in 0..20 {
        let mut engine = Engine { module: &mut m, vars: &mut vars };
        if engine.module_play_current_line(&mut regs) == PlayResult::ModuleLoop {
            saw_loop = true;
            break;
        }
    }
    assert!(saw_loop, "module playback should loop");
}

#[test]
fn sound_off_note_disables_channel() {
    let mut m = make_module_with_pattern();
    // Overwrite row 1 with sound-off
    if let Some(Some(pat)) = m.patterns.get_mut(0) {
        pat.items[1].channel[0].note = NOTE_SOUND_OFF;
    }

    let mut vars = PlayVars {
        current_pattern: 0,
        current_line: 0,
        delay: 1,
        delay_counter: 1,
        ..PlayVars::default()
    };
    init_tracker_parameters(&mut m, &mut vars, true);
    vars.delay = 1;
    vars.delay_counter = 1;

    let mut regs = vti::AyRegisters::default();
    // Tick past row 0 to row 1
    {
        let mut engine = Engine { module: &mut m, vars: &mut vars };
        engine.pattern_play_current_line(&mut regs);
    }
    {
        let mut engine = Engine { module: &mut m, vars: &mut vars };
        engine.pattern_play_current_line(&mut regs);
    }
    // After sound-off, channel 0 should not be sounding
    assert!(!vars.params_of_chan[0].sound_enabled);
}

/// The arpeggio ornament must produce a different AY tone period on each of
/// the three consecutive ticks within a delay=3 row.
///
/// With ornament [0, +4, +7] on note C-5 (note 48, PT table):
///   tick 0: ornament offset 0  → note 48 → freq = PT3_NOTE_TABLE_PT[48]
///   tick 1: ornament offset +4 → note 52 → freq = PT3_NOTE_TABLE_PT[52]
///   tick 2: ornament offset +7 → note 55 → freq = PT3_NOTE_TABLE_PT[55]
///
/// The three tone values must be distinct (each arpeggio step is a different
/// frequency) and the first must be the root note period.
#[test]
fn arpeggio_ornament_produces_distinct_tone_periods() {
    let mut m = make_arpeggio_module();
    let mut vars = PlayVars {
        current_pattern: 0,
        current_line: 0,
        delay: 3,
        delay_counter: 1,
        ..PlayVars::default()
    };
    init_tracker_parameters(&mut m, &mut vars, true);

    let mut tones = Vec::new();
    let mut regs = vti::AyRegisters::default();

    // Three consecutive ticks cover one full delay=3 row (row 0 is processed
    // on tick 1 and then re-rendered twice while delay_counter counts down).
    for _ in 0..3 {
        regs = vti::AyRegisters::default();
        let mut engine = Engine { module: &mut m, vars: &mut vars };
        engine.pattern_play_current_line(&mut regs);
        tones.push(regs.ton_a);
    }

    // All three should be non-zero (tone is sounding)
    assert!(tones.iter().all(|&t| t > 0), "tone_a must be non-zero on each tick: {tones:?}");

    // All three should be distinct (arpeggio steps produce different periods)
    let unique: std::collections::HashSet<_> = tones.iter().copied().collect();
    assert_eq!(unique.len(), 3, "arpeggio should produce 3 distinct tone periods: {tones:?}");

    // The first tick period must match the root note (C-5 = note 48, PT table 0)
    let root_period = PT3_NOTE_TABLE_PT[48];
    assert_eq!(tones[0], root_period,
        "first tick must be the root note period (C-5 = {root_period})");
}

/// The noise drum sample (sample 3) must produce non-zero amplitude on channel
/// C when triggered, and the noise channel must be enabled in the mixer.
#[test]
fn noise_drum_produces_amplitude_on_channel_c() {
    let mut m = make_arpeggio_module();
    let mut vars = PlayVars {
        current_pattern: 0,
        current_line: 0,
        delay: 1,
        delay_counter: 1,
        ..PlayVars::default()
    };
    init_tracker_parameters(&mut m, &mut vars, true);
    vars.delay = 1;
    vars.delay_counter = 1;

    let mut regs = vti::AyRegisters::default();
    let mut engine = Engine { module: &mut m, vars: &mut vars };
    engine.pattern_play_current_line(&mut regs);

    // Channel C must have non-zero amplitude (the drum hit)
    assert!(regs.amplitude_c > 0, "channel C amplitude must be non-zero when drum hits");

    // Noise must be enabled for channel C in the mixer.
    // AY mixer bit 5 (value 32) = noise-C disable; must be 0 for noise to be on.
    assert_eq!(regs.mixer & 0x20, 0,
        "noise must be enabled for channel C (mixer bit 5 must be 0)");

    // Tone must be disabled for channel C (drum has no tone component).
    // AY mixer bit 2 (value 4) = tone-C disable; must be 1 for tone to be off.
    assert_ne!(regs.mixer & 0x04, 0,
        "tone must be disabled for channel C when drum plays (mixer bit 2 must be 1)");
}

/// After a noise drum hit, the drum sample decays and the channel falls silent
/// once the decaying sample loops on tick 7 (amplitude 0).
#[test]
fn noise_drum_decays_to_silence() {
    let mut m = make_arpeggio_module();
    let mut vars = PlayVars {
        current_pattern: 0,
        current_line: 0,
        delay: 1,
        delay_counter: 1,
        ..PlayVars::default()
    };
    init_tracker_parameters(&mut m, &mut vars, true);
    vars.delay = 1;
    vars.delay_counter = 1;

    let mut regs = vti::AyRegisters::default();

    // Advance 8 rows (= 8 ticks at delay=1): the drum sample has 8 ticks
    // (indices 0–7) and loops on tick 7 which has amplitude 0.
    for _ in 0..8 {
        regs = vti::AyRegisters::default();
        let mut engine = Engine { module: &mut m, vars: &mut vars };
        engine.pattern_play_current_line(&mut regs);
    }

    // After 8 ticks the sample is held at loop_pos=7 (amplitude 0).
    assert_eq!(regs.amplitude_c, 0, "drum channel must be silent after decay");
}

/// The arpeggio module must advance through all 16 rows of the pattern and
/// then signal PatternEnd, which causes module_play_current_line to loop.
#[test]
fn arpeggio_module_loops_after_full_pattern() {
    let mut m = make_arpeggio_module();
    m.positions.loop_pos = 0;
    let mut vars = PlayVars {
        current_pattern: 0,
        current_line: 0,
        delay: 1,
        delay_counter: 1,
        ..PlayVars::default()
    };
    init_tracker_parameters(&mut m, &mut vars, true);
    vars.delay = 1;
    vars.delay_counter = 1;

    let mut regs = vti::AyRegisters::default();
    let mut saw_loop = false;

    // 16 rows at delay=1 → 16 ticks to exhaust the pattern, then one more
    // to trigger the loop.  Give it a generous budget.
    for _ in 0..40 {
        let mut engine = Engine { module: &mut m, vars: &mut vars };
        if engine.module_play_current_line(&mut regs) == PlayResult::ModuleLoop {
            saw_loop = true;
            break;
        }
    }
    assert!(saw_loop, "arpeggio module should loop after 16 rows");
}

/// Channels A and B must both be sounding (non-zero amplitude) after
/// the first row is processed.
#[test]
fn arpeggio_channels_a_and_b_are_active_after_row0() {
    let mut m = make_arpeggio_module();
    let mut vars = PlayVars {
        current_pattern: 0,
        current_line: 0,
        delay: 1,
        delay_counter: 1,
        ..PlayVars::default()
    };
    init_tracker_parameters(&mut m, &mut vars, true);
    vars.delay = 1;
    vars.delay_counter = 1;

    let mut regs = vti::AyRegisters::default();
    let mut engine = Engine { module: &mut m, vars: &mut vars };
    engine.pattern_play_current_line(&mut regs);

    assert!(regs.amplitude_a > 0, "channel A must have non-zero amplitude");
    assert!(regs.amplitude_b > 0, "channel B must have non-zero amplitude");

    // Tone must be enabled on both channels A and B
    assert_eq!(regs.mixer & 0x01, 0, "tone must be ON for channel A (bit 0 = 0)");
    assert_eq!(regs.mixer & 0x02, 0, "tone must be ON for channel B (bit 1 = 0)");
}

/// After N ticks at delay=1, `current_line` must equal N (pattern is advancing
/// one row per tick until pattern end).
#[test]
fn current_line_advances_one_per_tick_at_delay_1() {
    let mut m = make_module_with_pattern();   // 4-row pattern
    let mut vars = PlayVars {
        current_pattern: 0,
        current_line: 0,
        delay: 1,
        delay_counter: 1,
        ..PlayVars::default()
    };
    init_tracker_parameters(&mut m, &mut vars, true);
    vars.delay = 1;
    vars.delay_counter = 1;

    let mut regs = vti::AyRegisters::default();

    for expected_line in 1..=3 {
        {
            let mut engine = Engine { module: &mut m, vars: &mut vars };
            engine.pattern_play_current_line(&mut regs);
        }
        assert_eq!(vars.current_line, expected_line,
            "current_line should be {expected_line} after {expected_line} ticks");
    }
}

/// The UI display row is `current_line.saturating_sub(1)` — one behind the
/// engine's internal pointer.  This test verifies that the display row is 0
/// (the first row) after the very first tick, and advances from there.
#[test]
fn display_row_is_current_line_minus_one() {
    let mut m = make_module_with_pattern(); // 4-row pattern
    let mut vars = PlayVars {
        current_pattern: 0,
        current_line: 0,
        delay: 1,
        delay_counter: 1,
        ..PlayVars::default()
    };
    init_tracker_parameters(&mut m, &mut vars, true);
    vars.delay = 1;
    vars.delay_counter = 1;

    let mut regs = vti::AyRegisters::default();

    for expected_display in 0..=2 {
        {
            let mut engine = Engine { module: &mut m, vars: &mut vars };
            engine.pattern_play_current_line(&mut regs);
        }
        let display = vars.current_line.saturating_sub(1);
        assert_eq!(display, expected_display,
            "display row should be {expected_display} after {} ticks", expected_display + 1);
    }
}

/// When the module advances to a new pattern, the engine eagerly processes
/// the first row of that new pattern.  After the transition tick,
/// `current_line = 1` (row 0 was processed, pointer moved to row 1) and
/// the display row (`current_line - 1 = 0`) correctly shows the start of
/// the new pattern — matching the Pascal `RedrawPlWindow` behaviour.
#[test]
fn current_line_after_pattern_transition_is_one() {
    // Build a two-position module (pos 0 → pattern 0, pos 1 → pattern 1).
    let mut m = Module::default();
    m.initial_delay = 1;

    // Pattern 0 – 2-row pattern
    let mut pat0 = Pattern::default();
    pat0.length = 2;
    pat0.items[0].channel[0] = ChannelLine { note: 48, sample: 1, ornament: 0, volume: 15, ..ChannelLine::default() };
    m.patterns[0] = Some(Box::new(pat0));

    // Pattern 1 – 2-row pattern
    let mut pat1 = Pattern::default();
    pat1.length = 2;
    pat1.items[0].channel[0] = ChannelLine { note: 36, sample: 1, ornament: 0, volume: 15, ..ChannelLine::default() };
    m.patterns[1] = Some(Box::new(pat1));

    // A one-note sample so the engine produces something
    let mut s = Sample::default();
    s.length = 1;
    s.loop_pos = 0;
    s.items[0] = SampleTick { amplitude: 10, mixer_ton: true, ..SampleTick::default() };
    m.samples[1] = Some(Box::new(s));

    m.positions.length = 2;
    m.positions.value[0] = 0;
    m.positions.value[1] = 1;
    m.positions.loop_pos = 0;

    let mut vars = PlayVars {
        current_pattern: 0,
        current_line: 0,
        delay: 1,
        delay_counter: 1,
        ..PlayVars::default()
    };
    init_tracker_parameters(&mut m, &mut vars, true);
    vars.delay = 1;
    vars.delay_counter = 1;

    let mut regs = vti::AyRegisters::default();

    // Drain pattern 0 until the pattern changes.
    let mut changed_pattern = false;
    for _ in 0..10 {
        let old_pat = vars.current_pattern;
        {
            let mut engine = Engine { module: &mut m, vars: &mut vars };
            engine.module_play_current_line(&mut regs);
        }
        if vars.current_pattern != old_pat {
            // The engine eagerly processed row 0 of the new pattern, so the
            // pointer is at 1.  The display row (`current_line - 1`) is 0,
            // correctly showing the top of the new pattern to the user.
            assert_eq!(vars.current_line, 1,
                "after transition, current_line should be 1 (row 0 processed eagerly)");
            assert_eq!(vars.current_line.saturating_sub(1), 0,
                "display row should be 0 (first row of the new pattern)");
            changed_pattern = true;
            break;
        }
    }
    assert!(changed_pattern, "engine should have advanced to pattern 1 within 10 ticks");
}

/// `current_position` must increment as the module advances through positions.
#[test]
fn current_position_advances_through_positions() {
    // Two-position module (same as above).
    let mut m = Module::default();
    m.initial_delay = 1;

    let mut pat = Pattern::default();
    pat.length = 2;
    m.patterns[0] = Some(Box::new(pat.clone()));
    m.patterns[1] = Some(Box::new(pat));

    m.positions.length = 2;
    m.positions.value[0] = 0;
    m.positions.value[1] = 1;
    m.positions.loop_pos = 0;

    let mut vars = PlayVars {
        current_pattern: 0,
        current_line: 0,
        delay: 1,
        delay_counter: 1,
        ..PlayVars::default()
    };
    init_tracker_parameters(&mut m, &mut vars, true);
    vars.delay = 1;
    vars.delay_counter = 1;

    let mut regs = vti::AyRegisters::default();

    // Keep ticking until position advances to 1
    let mut saw_position_1 = false;
    for _ in 0..15 {
        {
            let mut engine = Engine { module: &mut m, vars: &mut vars };
            engine.module_play_current_line(&mut regs);
        }
        if vars.current_position == 1 {
            saw_position_1 = true;
            break;
        }
    }
    assert!(saw_position_1, "current_position should advance to 1 after the first pattern ends");
}

/// After a full module loop the pattern and line pointers must return to the
/// loop start — exactly what the UI needs to show when the module wraps.
#[test]
fn current_line_and_pattern_reset_on_module_loop() {
    let mut m = make_arpeggio_module(); // 1 position, 16-row pattern, loop_pos=0
    let mut vars = PlayVars {
        current_pattern: 0,
        current_line: 0,
        delay: 1,
        delay_counter: 1,
        ..PlayVars::default()
    };
    init_tracker_parameters(&mut m, &mut vars, true);
    vars.delay = 1;
    vars.delay_counter = 1;

    let mut regs = vti::AyRegisters::default();
    let mut looped = false;

    for _ in 0..40 {
        let result = {
            let mut engine = Engine { module: &mut m, vars: &mut vars };
            engine.module_play_current_line(&mut regs)
        };
        if result == PlayResult::ModuleLoop {
            looped = true;
            break;
        }
    }

    assert!(looped, "module must loop");
    // After looping, position is at loop_pos (0) and line is at the first row
    assert_eq!(vars.current_position, 0, "position must be at loop_pos=0 after module loop");
    assert_eq!(vars.current_pattern, 0, "pattern must be 0 after module loop");
}

#[test]
fn effect_cmd1_glide_up_sets_positive_slide_step() {
    let cmd = AdditionalCommand { number: 1, delay: 2, parameter: 5 };
    let mut m = make_effect_module(cmd);
    let vars = run_one_tick(&mut m);
    let p = &vars.params_of_chan[0];
    assert!(p.ton_slide_step > 0, "cmd1 (glide up) must set a positive ton_slide_step");
    assert_eq!(p.ton_slide_step, 5);
    assert_eq!(p.ton_slide_type, 0, "glide-up is type 0 (free glide)");
}

#[test]
fn effect_cmd2_glide_down_sets_negative_slide_step() {
    let cmd = AdditionalCommand { number: 2, delay: 2, parameter: 3 };
    let mut m = make_effect_module(cmd);
    let vars = run_one_tick(&mut m);
    let p = &vars.params_of_chan[0];
    assert!(p.ton_slide_step < 0, "cmd2 (glide down) must set a negative ton_slide_step");
    assert_eq!(p.ton_slide_step, -3);
    assert_eq!(p.ton_slide_type, 0, "glide-down is type 0 (free glide)");
}

#[test]
fn effect_cmd3_tone_slide_sets_type_1() {
    // Row 0 establishes the FROM note (C-4 = 36); row 1 has the TO note (C-5 = 48) + cmd3.
    let mut m = Module::default();
    m.initial_delay = 1;
    m.positions.length = 1;
    m.positions.value[0] = 0;

    let mut s = Sample::default();
    s.length = 1; s.loop_pos = 0;
    s.items[0] = SampleTick { amplitude: 15, mixer_ton: true, ..SampleTick::default() };
    m.samples[1] = Some(Box::new(s));

    let mut pat = Pattern::default();
    pat.length = 4;
    pat.items[0].channel[0] = ChannelLine {
        note: 36, sample: 1, ornament: 0, volume: 15, envelope: 0,
        additional_command: AdditionalCommand::default(),
    };
    pat.items[1].channel[0] = ChannelLine {
        note: 48, sample: 1, ornament: 0, volume: 15, envelope: 0,
        additional_command: AdditionalCommand { number: 3, delay: 1, parameter: 8 },
    };
    m.patterns[0] = Some(Box::new(pat));

    let mut vars = PlayVars { current_pattern: 0, current_line: 0, delay: 1, delay_counter: 1, ..PlayVars::default() };
    init_tracker_parameters(&mut m, &mut vars, true);
    vars.delay = 1; vars.delay_counter = 1;
    let mut regs = vti::AyRegisters::default();
    // Tick 1: process row 0 (C-4 establishes prev note).
    { let mut e = Engine { module: &mut m, vars: &mut vars }; e.pattern_play_current_line(&mut regs); }
    // Tick 2: process row 1 (C-5 + cmd3).
    { let mut e = Engine { module: &mut m, vars: &mut vars }; e.pattern_play_current_line(&mut regs); }

    let p = &vars.params_of_chan[0];
    assert_eq!(p.ton_slide_type, 1, "cmd3 sets ton_slide_type = 1 (targeted slide)");
    assert_eq!(p.slide_to_note, 48, "slide_to_note must be the target note (C-5 = 48)");
    assert_eq!(p.note, 36, "note is restored to prev_note (C-4) during the tone slide");
}

#[test]
fn effect_cmd4_sample_pos_jump() {
    // Use an 8-tick sample so position 3 won't immediately loop.
    let mut m = Module::default();
    m.initial_delay = 1;
    m.positions.length = 1;
    m.positions.value[0] = 0;

    let mut s = Sample::default();
    s.length = 8; s.loop_pos = 0;
    for i in 0..8 {
        s.items[i] = SampleTick { amplitude: i as u8 + 1, mixer_ton: true, ..SampleTick::default() };
    }
    m.samples[1] = Some(Box::new(s));

    let mut pat = Pattern::default();
    pat.length = 4;
    pat.items[0].channel[0] = ChannelLine {
        note: 36, sample: 1, ornament: 0, volume: 15, envelope: 0,
        additional_command: AdditionalCommand { number: 4, delay: 0, parameter: 3 },
    };
    m.patterns[0] = Some(Box::new(pat));

    let vars = run_one_tick(&mut m);
    // cmd4 sets sample_position to 3; get_channel_registers then advances by 1 → 4.
    assert_eq!(vars.params_of_chan[0].sample_position, 4,
        "cmd4 jumps to position 3 then the engine advances by 1 → expect 4");
}

#[test]
fn effect_cmd5_ornament_pos_jump() {
    let mut m = Module::default();
    m.initial_delay = 1;
    m.positions.length = 1;
    m.positions.value[0] = 0;

    let mut s = Sample::default();
    s.length = 1; s.loop_pos = 0;
    s.items[0] = SampleTick { amplitude: 15, mixer_ton: true, ..SampleTick::default() };
    m.samples[1] = Some(Box::new(s));

    let mut orn = Ornament::default();
    orn.length = 4; orn.loop_pos = 0;
    orn.items[0] = 0; orn.items[1] = 2; orn.items[2] = 4; orn.items[3] = 7;
    m.ornaments[1] = Some(Box::new(orn));

    let mut pat = Pattern::default();
    pat.length = 4;
    pat.items[0].channel[0] = ChannelLine {
        note: 36, sample: 1, ornament: 1, volume: 15, envelope: 0,
        additional_command: AdditionalCommand { number: 5, delay: 0, parameter: 2 },
    };
    m.patterns[0] = Some(Box::new(pat));

    let vars = run_one_tick(&mut m);
    // cmd5 sets ornament_position to 2; engine advances by 1 → 3.
    assert_eq!(vars.params_of_chan[0].ornament_position, 3,
        "cmd5 jumps ornament to pos 2 then engine advances by 1 → expect 3");
}

#[test]
fn effect_cmd6_on_off_sets_delays() {
    // parameter = (on_off_delay<<4) | off_on_delay  →  0x32 = on_off=3, off_on=2
    let cmd = AdditionalCommand { number: 6, delay: 0, parameter: 0x32 };
    let mut m = make_effect_module(cmd);
    let vars = run_one_tick(&mut m);
    let p = &vars.params_of_chan[0];
    assert_eq!(p.on_off_delay, 3, "cmd6 sets on_off_delay from high nibble");
    assert_eq!(p.off_on_delay, 2, "cmd6 sets off_on_delay from low nibble");
    // get_channel_registers decrements current_on_off once in the same tick that
    // pattern_interpreter sets it (Pascal original behaviour), so after one full
    // tick the observable value is on_off_delay - 1.
    assert_eq!(p.current_on_off, 2,
        "current_on_off is on_off_delay decremented once by get_channel_registers");
}

#[test]
fn effect_cmd6_channel_toggles_after_on_off_delay() {
    // on_off_delay=2, off_on_delay=1: channel goes off after 2 ticks of sounding.
    let cmd = AdditionalCommand { number: 6, delay: 0, parameter: 0x21 };
    let mut m = make_effect_module(cmd);
    if let Some(Some(pat)) = m.patterns.get_mut(0) { pat.length = 8; }

    let mut vars = PlayVars { current_pattern: 0, current_line: 0, delay: 1, delay_counter: 1, ..PlayVars::default() };
    init_tracker_parameters(&mut m, &mut vars, true);
    vars.delay = 1; vars.delay_counter = 1;
    let mut regs = vti::AyRegisters::default();

    // Tick 1: row 0 processed, cmd6 applied, current_on_off=2 (then decremented→1 by get_channel_regs)
    { let mut e = Engine { module: &mut m, vars: &mut vars }; e.pattern_play_current_line(&mut regs); }
    assert!(vars.params_of_chan[0].sound_enabled, "channel should still be enabled after tick 1");

    // Tick 2: current_on_off 1→0 → toggle; sound_enabled flips to false
    { let mut e = Engine { module: &mut m, vars: &mut vars }; e.pattern_play_current_line(&mut regs); }
    assert!(!vars.params_of_chan[0].sound_enabled, "channel should be disabled after on_off_delay ticks");
}

#[test]
fn effect_cmd9_env_slide_up_sets_positive_add() {
    let cmd = AdditionalCommand { number: 9, delay: 2, parameter: 4 };
    let mut m = make_effect_module(cmd);
    let vars = run_one_tick(&mut m);
    assert_eq!(vars.env_slide_add, 4, "cmd9 sets env_slide_add = +parameter");
    assert_eq!(vars.env_delay,     2, "cmd9 sets env_delay from delay field");
}

#[test]
fn effect_cmd10_env_slide_down_sets_negative_add() {
    let cmd = AdditionalCommand { number: 10, delay: 3, parameter: 7 };
    let mut m = make_effect_module(cmd);
    let vars = run_one_tick(&mut m);
    assert_eq!(vars.env_slide_add, -7, "cmd10 sets env_slide_add = -parameter");
    assert_eq!(vars.env_delay,      3, "cmd10 sets env_delay from delay field");
}

#[test]
fn effect_cmd11_delay_change() {
    let cmd = AdditionalCommand { number: 11, delay: 0, parameter: 5 };
    let mut m = make_effect_module(cmd);
    let vars = run_one_tick(&mut m);
    assert_eq!(vars.delay, 5, "cmd11 must change the module delay to parameter value");
}

#[test]
fn effect_cmd11_zero_parameter_does_not_change_delay() {
    // parameter=0 is a no-op (Pascal: if param <> 0 then Delay := param).
    let cmd = AdditionalCommand { number: 11, delay: 0, parameter: 0 };
    let mut m = make_effect_module(cmd);

    let mut vars = PlayVars { current_pattern: 0, current_line: 0, delay: 3, delay_counter: 1, ..PlayVars::default() };
    init_tracker_parameters(&mut m, &mut vars, true);
    vars.delay = 3; vars.delay_counter = 1;
    let mut regs = vti::AyRegisters::default();
    let mut e = Engine { module: &mut m, vars: &mut vars };
    e.pattern_play_current_line(&mut regs);
    assert_eq!(vars.delay, 3, "cmd11 with parameter=0 must not change the delay");
}

/// With glide-up (cmd1) the accumulated tone sliding grows positive over ticks.
#[test]
fn effect_cmd1_glide_up_increases_sliding_over_ticks() {
    let cmd = AdditionalCommand { number: 1, delay: 2, parameter: 1 };
    let mut m = make_effect_module(cmd);
    if let Some(Some(pat)) = m.patterns.get_mut(0) { pat.length = 32; }

    let mut vars = PlayVars { current_pattern: 0, current_line: 0, delay: 1, delay_counter: 1, ..PlayVars::default() };
    init_tracker_parameters(&mut m, &mut vars, true);
    vars.delay = 1; vars.delay_counter = 1;

    let mut regs = vti::AyRegisters::default();
    let mut slides = Vec::new();
    for _ in 0..20 {
        let mut e = Engine { module: &mut m, vars: &mut vars };
        e.pattern_play_current_line(&mut regs);
        slides.push(vars.params_of_chan[0].current_ton_sliding);
    }
    assert!(slides.iter().any(|&s| s > 0),
        "glide-up should produce a positive current_ton_sliding over ticks: {:?}", slides);
}

/// With glide-down (cmd2) the accumulated tone sliding becomes negative over ticks.
#[test]
fn effect_cmd2_glide_down_decreases_sliding_over_ticks() {
    let cmd = AdditionalCommand { number: 2, delay: 2, parameter: 1 };
    let mut m = make_effect_module(cmd);
    if let Some(Some(pat)) = m.patterns.get_mut(0) { pat.length = 32; }

    let mut vars = PlayVars { current_pattern: 0, current_line: 0, delay: 1, delay_counter: 1, ..PlayVars::default() };
    init_tracker_parameters(&mut m, &mut vars, true);
    vars.delay = 1; vars.delay_counter = 1;

    let mut regs = vti::AyRegisters::default();
    let mut slides = Vec::new();
    for _ in 0..20 {
        let mut e = Engine { module: &mut m, vars: &mut vars };
        e.pattern_play_current_line(&mut regs);
        slides.push(vars.params_of_chan[0].current_ton_sliding);
    }
    assert!(slides.iter().any(|&s| s < 0),
        "glide-down should produce a negative current_ton_sliding over ticks: {:?}", slides);
}

/// Envelope slide up (cmd9) causes `cur_env_slide` to grow after `env_delay` ticks.
#[test]
fn effect_cmd9_envelope_slide_accumulates_over_ticks() {
    let cmd = AdditionalCommand { number: 9, delay: 1, parameter: 2 };
    let mut m = make_effect_module(cmd);
    if let Some(Some(pat)) = m.patterns.get_mut(0) { pat.length = 32; }

    let mut vars = PlayVars { current_pattern: 0, current_line: 0, delay: 1, delay_counter: 1, ..PlayVars::default() };
    init_tracker_parameters(&mut m, &mut vars, true);
    vars.delay = 1; vars.delay_counter = 1;

    let mut regs = vti::AyRegisters::default();
    let mut slides = Vec::new();
    for _ in 0..20 {
        let mut e = Engine { module: &mut m, vars: &mut vars };
        e.pattern_play_current_line(&mut regs);
        slides.push(vars.cur_env_slide);
    }
    assert!(slides.iter().any(|&s| s > 0),
        "cmd9 env slide up should make cur_env_slide grow: {:?}", slides);
}
