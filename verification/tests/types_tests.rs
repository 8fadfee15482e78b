use vti::{ChannelLine, FeaturesLevel, Module, Ornament, Pattern, Sample, NOTE_NONE};

#[test]
fn module_default_has_no_positions() {
    let m = Module::default();
    assert_eq!(m.positions.length, 0);
}

#[test]
fn module_default_ornament_0_exists() {
    let m = Module::default();
    assert!(m.ornaments[0].is_some());
}

#[test]
fn module_pat_idx_negative_maps_to_last() {
    assert_eq!(Module::pat_idx(-1), vti::MAX_NUM_OF_PATS);
}

#[test]
fn module_pat_idx_zero() {
    assert_eq!(Module::pat_idx(0), 0);
}

#[test]
fn sample_default_length_is_one() {
    let s = Sample::default();
    assert_eq!(s.length, 1);
}

#[test]
fn ornament_default_length_is_one() {
    let o = Ornament::default();
    assert_eq!(o.length, 1);
}

#[test]
fn pattern_default_length_is_def_pat_len() {
    let p = Pattern::default();
    assert_eq!(p.length, vti::DEF_PAT_LEN);
}

#[test]
fn channel_line_default_is_empty() {
    let c = ChannelLine::default();
    assert_eq!(c.note, NOTE_NONE);
    assert_eq!(c.sample, 0);
    assert_eq!(c.volume, 0);
}

#[test]
fn features_level_default_is_vt2() {
    assert_eq!(FeaturesLevel::default(), FeaturesLevel::Vt2);
}
