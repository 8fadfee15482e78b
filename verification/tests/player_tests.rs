use vti::player::PlayerCommand;
use vti::synth::StereoSample;

#[test]
fn player_command_variants_are_distinct() {
    assert_ne!(PlayerCommand::Play, PlayerCommand::Stop);
    assert_ne!(PlayerCommand::Pause, PlayerCommand::Stop);
    assert_ne!(PlayerCommand::Play, PlayerCommand::Pause);
}

#[test]
fn player_command_copy() {
    let cmd = PlayerCommand::Play;
    let cmd2 = cmd; // Copy
    assert_eq!(cmd, cmd2);
}

#[test]
fn stereo_sample_default_is_silent() {
    let s = StereoSample::default();
    assert_eq!(s.left, 0);
    assert_eq!(s.right, 0);
}

#[test]
fn stereo_sample_copy() {
    let s = StereoSample { left: 100, right: -200 };
    let s2 = s;
    assert_eq!(s2.left, 100);
    assert_eq!(s2.right, -200);
}
