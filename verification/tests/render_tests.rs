use vti::chip::SoundChip;
use vti::render::{decimate_step, Decimator, FirState, Renderer, FIR_ONE};
use vti::synth::{LevelTables, StereoSample};

#[test]
fn fir_identity_passes_levels_through() {
    let mut f = FirState::new(vec![FIR_ONE]);
    assert_eq!(f.apply_filter(1000, true), 1000);
    assert_eq!(f.apply_filter(-7, false), -7);
    assert_eq!(f.apply_filter(123, true), 123);
}

#[test]
fn fir_two_taps_average_and_round_toward_zero() {
    let mut f = FirState::new(vec![FIR_ONE / 2, FIR_ONE / 2]);
    assert_eq!(f.apply_filter(100, true), 50);
    assert_eq!(f.i, 1);
    assert_eq!(f.apply_filter(300, true), 200);
    assert_eq!(f.i, 0);
    // The right side keeps its own history and does not move the cursor.
    assert_eq!(f.apply_filter(-3, false), -1);
    assert_eq!(f.i, 0);
    assert_eq!(f.x_l, vec![100, 300]);
    assert_eq!(f.x_r, vec![-3, 0]);
}

#[test]
fn decimator_emits_one_sample_every_two_clocks() {
    let mut d = Decimator::new(131072);
    let mut out = Vec::new();
    for k in 1..=6 {
        decimate_step(&mut d, k * 10, -k * 10, 131072, false, &mut out);
    }
    assert_eq!(
        out,
        vec![
            StereoSample { left: 20, right: -20 },
            StereoSample { left: 40, right: -40 },
        ]
    );
}

#[test]
fn decimator_interpolates_between_clocks() {
    let mut d = Decimator::new(98304);
    let mut out = Vec::new();
    for lev in [0, 1000, 2000, 3000] {
        decimate_step(&mut d, lev, lev, 98304, true, &mut out);
    }
    assert_eq!(
        out,
        vec![StereoSample { left: 500, right: 500 }, StereoSample { left: 2000, right: 2000 }]
    );
}

#[test]
fn silent_chips_render_silence() {
    let mut r = Renderer {
        chips: [SoundChip::default(), SoundChip::default()],
        num_chips: 1,
        levels: LevelTables::default(),
        mono: false,
        is_filt: true,
        fir: FirState::new(vec![FIR_ONE]),
        dec: Decimator::new(100_000),
        delay: 100_000,
    };
    let mut out = Vec::new();
    r.render_frame(5, &mut out);
    assert_eq!(out, vec![StereoSample { left: 0, right: 0 }; 5]);
    let mut q = Vec::new();
    for _ in 0..10 {
        r.quality_step(&mut q);
    }
    assert_eq!(q.len(), 5);
}
