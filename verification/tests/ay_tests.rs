use vti::formats::ay::{self, St1Error, ST1_MIN_VALID, ST1_PAT_LEN, ST1_POS_BASE};
use vti::formats::{load, stc, FormatError};
use vti::playback::{init_tracker_parameters, Engine, PlayVars};
use vti::{AyRegisters, NOTE_NONE};

/// A minimal but fully valid ZXAY+ST11 file (3635 bytes):
/// header, author "Tst" at 22, the song table at 30, the song name "Tst"
/// at 38, the song data header at 42 and the ST1 song at 50 (one
/// one-row pattern, every position playing it).
fn build_minimal_ay() -> Vec<u8> {
    let mut data = vec![0u8; 3635];
    data[0..4].copy_from_slice(b"ZXAY");
    data[4..8].copy_from_slice(b"ST11");
    data[12..14].copy_from_slice(&[0x00, 0x0A]);
    data[16] = 1;
    data[17] = 0;
    data[18..20].copy_from_slice(&[0x00, 0x0C]);
    data[22..26].copy_from_slice(b"Tst\0");
    data[30..32].copy_from_slice(&[0x00, 0x08]);
    data[32..34].copy_from_slice(&[0x00, 0x0A]);
    data[38..42].copy_from_slice(b"Tst\0");
    for i in 0..256usize {
        data[2000 + i * 2] = 1;
        data[2001 + i * 2] = 0;
    }
    data[2512] = 0;
    data[3057] = 6;
    data[3058] = 1;
    data
}

#[test]
fn reject_wrong_magic() {
    let mut data = build_minimal_ay();
    data[0..4].copy_from_slice(b"NOPE");
    assert!(ay::parse(&data, 0).is_err());
}

#[test]
fn reject_too_short() {
    let data = vec![0u8; 10];
    assert!(ay::parse(&data, 0).is_err());
}

#[test]
fn reject_song_index_out_of_range() {
    let data = build_minimal_ay();
    assert!(ay::parse(&data, 1).is_err());
}

#[test]
fn amad_parse_returns_error() {
    let mut data = build_minimal_ay();
    data[4..8].copy_from_slice(b"AMAD");
    assert!(ay::parse(&data, 0).is_err());
}

#[test]
fn amad_list_songs_marks_unsupported() {
    let mut data = build_minimal_ay();
    data[4..8].copy_from_slice(b"AMAD");
    let songs = ay::list_songs(&data).unwrap();
    assert_eq!(songs.len(), 1);
    assert!(!songs[0].is_supported);
    assert_eq!(songs[0].name, "Tst");
}

#[test]
fn st11_parse_succeeds() {
    let data = build_minimal_ay();
    let module = ay::parse(&data, 0).unwrap();
    assert_eq!(module.title, "Tst");
    assert_eq!(module.author, "Tst");
    assert_eq!(module.initial_delay, 6);
    assert_eq!(module.positions.length, 1);
}

#[test]
fn st11_list_songs_returns_metadata() {
    let data = build_minimal_ay();
    let songs = ay::list_songs(&data).unwrap();
    assert_eq!(songs.len(), 1);
    assert_eq!(songs[0].name, "Tst");
    assert!(songs[0].is_supported);
}

#[test]
fn st11_pattern_has_one_empty_row() {
    let data = build_minimal_ay();
    let module = ay::parse(&data, 0).unwrap();
    let pat = module.patterns[0].as_deref().expect("pattern 0 should exist");
    assert_eq!(pat.length, 1, "pattern should have 1 row (PatLen=1)");
    for ch in 0..3 {
        assert_eq!(pat.items[0].channel[ch].note, NOTE_NONE, "channel {ch} row 0 should be NOTE_NONE");
    }
}

#[test]
fn st1_to_stc_minimal() {
    let data = build_minimal_ay();
    let st1 = &data[50..];
    let stc_bytes = ay::st1_to_stc(st1).expect("st1_to_stc should not fail on minimal data");
    assert!(stc_bytes.len() >= 126, "stc output too short: {} bytes", stc_bytes.len());
    stc::parse(&stc_bytes).expect("stc::parse should succeed");
}

#[test]
fn st1_too_small_is_rejected() {
    let data = vec![0u8; 100];
    assert!(ay::st1_to_stc(&data).is_err());
}

#[test]
fn st1_unaligned_size_is_rejected() {
    let mut data = vec![0u8; ST1_MIN_VALID + 1];
    for i in 0..256 {
        data[ST1_POS_BASE + i * 2] = 1;
    }
    data[ST1_PAT_LEN] = 1;
    assert!(ay::st1_to_stc(&data).is_err());
}

#[test]
fn ay_load_minimal_fixture_via_dispatch() {
    let bytes = build_minimal_ay();
    let module = load(&bytes, "minimal.ay").expect("formats::load should parse minimal.ay");
    assert_eq!(module.title, "Tst");
    assert_eq!(module.author, "Tst");
    assert_eq!(module.initial_delay, 6);
    assert_eq!(module.positions.length, 1);
}

#[test]
fn ay_list_songs_minimal_fixture() {
    let bytes = build_minimal_ay();
    let songs = ay::list_songs(&bytes).expect("list_songs should succeed on minimal.ay");
    assert_eq!(songs.len(), 1);
    assert!(songs[0].is_supported, "ST11 song should be marked supported");
    assert_eq!(songs[0].name, "Tst");
}

#[test]
fn ay_parse_first_song_has_one_empty_row() {
    let bytes = build_minimal_ay();
    let module = ay::parse(&bytes, 0).expect("ay::parse should succeed");
    let pat = module.patterns[0].as_deref().expect("pattern 0 must exist");
    assert_eq!(pat.length, 1);
    for ch in 0..3 {
        assert_eq!(pat.items[0].channel[ch].note, NOTE_NONE, "channel {ch} should have no note");
    }
}

#[test]
fn ay_reject_unknown_extension_unchanged() {
    let bytes = build_minimal_ay();
    let result = load(&bytes, "test.xyz");
    assert!(result.is_err());
}

#[test]
fn ay_reject_invalid_magic() {
    let mut bytes = build_minimal_ay();
    bytes[0..4].copy_from_slice(b"NOPE");
    let result = ay::parse(&bytes, 0);
    assert!(result.is_err());
}

#[test]
fn ay_reject_song_index_out_of_range() {
    let bytes = build_minimal_ay();
    let result = ay::parse(&bytes, 99);
    assert!(result.is_err());
}

#[test]
fn ay_smoke_play_first_line() {
    let bytes = build_minimal_ay();
    let mut module = ay::parse(&bytes, 0).expect("ay::parse should succeed");
    let mut vars = PlayVars::default();
    init_tracker_parameters(&mut module, &mut vars, true);
    vars.delay = module.initial_delay as i8;
    vars.current_pattern = module.positions.value[0] as i32;
    vars.current_line = 0;
    vars.delay_counter = 1;
    let mut ay_regs = AyRegisters::default();
    let mut engine = Engine { module: &mut module, vars: &mut vars };
    engine.module_play_current_line(&mut ay_regs);
}

#[test]
fn ay_errors_name_their_cause() {
    let mut data = build_minimal_ay();
    data[4..8].copy_from_slice(b"AMAD");
    assert_eq!(ay::parse(&data, 0).err(), Some(FormatError::AmadNotSupported));
    let data = build_minimal_ay();
    assert_eq!(
        ay::parse(&data, 3).err(),
        Some(FormatError::SongIndexOutOfRange { index: 3, count: 1 })
    );
    let mut data = build_minimal_ay();
    data[3] = b'X';
    assert_eq!(ay::parse(&data, 0).err(), Some(FormatError::NotZxay));
    let mut data = build_minimal_ay();
    data[4..8].copy_from_slice(b"XXXX");
    assert_eq!(ay::parse(&data, 0).err(), Some(FormatError::UnsupportedSubFormat));
    let mut data = build_minimal_ay();
    data[16] = 0;
    assert_eq!(ay::parse(&data, 0).err(), Some(FormatError::NoSongs));
    assert_eq!(ay::parse(&[0u8; 19], 0).err(), Some(FormatError::TooShort));
}

#[test]
fn ay_emul_without_embedded_pt3_returns_emulation_error() {
    let mut data = build_minimal_ay();
    data[4..8].copy_from_slice(b"EMUL");
    let e = ay::parse(&data, 0).err().expect("refused");
    assert_eq!(e, FormatError::EmulNotSupported);
    assert!(e.message().contains("emulation"));
}

#[test]
fn ay_emul_with_embedded_pt3_loads_it() {
    let mut data = build_minimal_ay();
    data[4..8].copy_from_slice(b"EMUL");
    let mut pt3 = b"ProTracker 3.5 compilation of ".to_vec();
    pt3.resize(203, 0);
    pt3[201] = 0xFF; // an empty position list
    data.extend_from_slice(&pt3);
    // The embedded module is read: this one has no positions.
    assert_eq!(ay::parse(&data, 0).err(), Some(FormatError::NoPositions));
}

#[test]
fn ay_name_cut_inside_a_character_is_refused() {
    let mut data = build_minimal_ay();
    // The song name: 31 ASCII bytes, then a two-byte character across byte 32.
    for i in 0..31 {
        data[38 + i] = b'a';
    }
    data[69] = 0xC3;
    data[70] = 0xA9;
    data[71] = 0;
    assert_eq!(ay::parse(&data, 0).err(), Some(FormatError::NameNotCuttable));
    assert_eq!(ay::list_songs(&data).err(), Some(FormatError::NameNotCuttable));
}

#[test]
fn emul_file_with_embedded_stp_reads_the_stp_module() {
    let mut stp_bytes = vec![5u8, 0xFF, 0xFF, 0, 0, 0, 0, 0, 0, 0];
    stp_bytes.extend_from_slice(b"KSA SOFTWARE COMPILER V2.0  ");
    stp_bytes.extend_from_slice(b"EMBEDDED TUNE            ");
    let mut data = b"ZXAYEMUL".to_vec();
    data.extend_from_slice(&[0u8; 16]);
    data.extend_from_slice(&stp_bytes);
    let m = ay::parse(&data, 0).expect("embedded STP module");
    let direct = vti::formats::stp::parse(&stp_bytes).expect("STP module");
    assert_eq!(m.initial_delay, 5);
    assert_eq!(m.initial_delay, direct.initial_delay);
    assert_eq!(m.title, direct.title);
    assert_eq!(m.title, "EMBEDDED TUNE");
    assert_eq!(m.positions.length, 0);
}

#[test]
fn emul_file_without_module_is_refused() {
    let mut data = b"ZXAYEMUL".to_vec();
    data.extend_from_slice(&[0u8; 40]);
    assert!(matches!(ay::parse(&data, 0), Err(FormatError::EmulNotSupported)));
}
