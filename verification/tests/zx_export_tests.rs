use vti::formats::zx_export::{
    apply_relocations, build_hobeta_code, build_hobeta_mem, build_scl, build_tap, check_fits,
    hobeta_checksum, make_hobeta_hdr, tap_checksum, ZxExportOptions, ZxFormat,
};
use vti::formats::zx_export::export_zx;
use vti::formats::{save_zx, FormatError};
use vti::{ChannelLine, Module, Ornament, Pattern, Sample, SampleTick};

// Layout: code size, variables size, zeroed code, then the three tables
// (section 1 and 2 empty, section 3 with the given entries).
fn make_raw_player(plsz: u16, sec3_entries: &[(u16, u16)]) -> Vec<u8> {
    let mut raw: Vec<u8> = Vec::new();
    raw.extend_from_slice(&plsz.to_le_bytes());
    raw.extend_from_slice(&0u16.to_le_bytes());
    raw.resize(4 + plsz as usize, 0);
    raw.extend_from_slice(&(plsz.saturating_sub(1)).to_le_bytes());
    raw.extend_from_slice(&plsz.to_le_bytes());
    for &(off, base) in sec3_entries {
        raw.extend_from_slice(&off.to_le_bytes());
        raw.extend_from_slice(&base.to_le_bytes());
    }
    raw.extend_from_slice(&plsz.to_le_bytes());
    raw
}

#[test]
fn relocation_section3_single_entry_at_offset_0() {
    let raw = make_raw_player(4, &[(0, 0x0000)]);
    let pl = apply_relocations(&raw, 0xC000, false).expect("relocation must succeed");
    assert_eq!(pl[0], 0xC0, "hi-byte patch at offset 0 must give 0xC0");
}

#[test]
fn relocation_section3_multiple_entries() {
    let raw = make_raw_player(4, &[(0, 0x0100), (2, 0x0200)]);
    let pl = apply_relocations(&raw, 0xC000, false).expect("relocation must succeed");
    assert_eq!(pl[0], 0xC1, "hi-byte patch at offset 0 must give 0xC1");
    assert_eq!(pl[2], 0xC2, "hi-byte patch at offset 2 must give 0xC2");
}

#[test]
fn relocation_section3_empty_section_terminates_cleanly() {
    let raw = make_raw_player(4, &[]);
    let pl = apply_relocations(&raw, 0xC000, false).expect("relocation must succeed");
    assert_eq!(pl.len(), 4);
    assert!(pl.iter().all(|&b| b == 0));
}

#[test]
fn hobeta_mem_rejects_content_larger_than_65280() {
    let opts = ZxExportOptions::default();
    let large = vec![0u8; 65281];
    let result = build_hobeta_mem(&large, 65281, &opts);
    assert!(result.is_err(), "must fail for content > 65280 bytes");
    let msg = result.unwrap_err().message();
    assert!(msg.contains("too large"), "error must mention size: {msg}");
}

#[test]
fn hobeta_mem_accepts_content_at_exactly_65280() {
    let opts = ZxExportOptions::default();
    let max = vec![0u8; 65280];
    let result = build_hobeta_mem(&max, 65280, &opts);
    assert!(result.is_ok(), "must succeed for exactly 65280 bytes");
    let out = result.unwrap();
    let sect_len = u16::from_le_bytes([out[13], out[14]]);
    assert_eq!(sect_len, 65280, "SectLeng must be 65280");
}

#[test]
fn hobeta_code_rejects_content_larger_than_65280() {
    let opts = ZxExportOptions::default();
    let player = vec![0u8; 1];
    let pt3 = vec![0u8; 65280];
    let result = build_hobeta_code(&player, &pt3, 0, &opts);
    assert!(result.is_err(), "must fail when total > 65280 bytes");
}

#[test]
fn scl_rejects_player_with_too_many_sectors() {
    let opts = ZxExportOptions::default();
    let large_player = vec![0u8; 65281];
    let pt3 = vec![0u8; 256];
    let result = build_scl(&large_player, &pt3, 65281, 0, &opts);
    assert!(result.is_err(), "must fail when player > 255 sectors");
}

#[test]
fn scl_rejects_pt3_with_too_many_sectors() {
    let opts = ZxExportOptions::default();
    let player = vec![0u8; 256];
    let large_pt3 = vec![0u8; 65281];
    let result = build_scl(&player, &large_pt3, 256, 0, &opts);
    assert!(result.is_err(), "must fail when PT3 data > 255 sectors");
}

#[test]
fn scl_accepts_player_at_exactly_255_sectors() {
    let opts = ZxExportOptions { name: "test".to_string(), ..ZxExportOptions::default() };
    let player = vec![0u8; 255 * 256];
    let pt3 = vec![0u8; 256];
    let result = build_scl(&player, &pt3, 255 * 256, 0, &opts);
    assert!(result.is_ok(), "must succeed for exactly 255 sectors");
    let out = result.unwrap();
    assert_eq!(out[22], 255u8, "Sect1 must be 255");
}

#[test]
fn scl_data_entry_name_does_not_collide_with_player_entry_when_name_empty() {
    let opts = ZxExportOptions { name: "".to_string(), ..ZxExportOptions::default() };
    let player = vec![0u8; 256];
    let pt3 = vec![0u8; 256];
    let result = build_scl(&player, &pt3, 256, 0, &opts);
    let out = result.expect("SCL build must succeed");
    let name1 = &out[9..17];
    let name2 = &out[23..31];
    assert_ne!(name1, name2, "player and data entry names must differ");
}

// ── Further cases ───────────────────────────────────────────────────────────

#[test]
fn relocation_applies_word_and_low_byte_patches() {
    // code: 6 bytes; word patch at 0 (0x1234), low-byte patch at 4 (0x10)
    let mut raw: Vec<u8> = vec![6, 0, 0, 0, 0x34, 0x12, 0, 0, 0x10, 0];
    raw.extend_from_slice(&[0, 0]); // section 1: entry 0
    raw.extend_from_slice(&[5, 0]); // section 1 terminator (>= 6 - 1)
    raw.extend_from_slice(&[4, 0]); // section 2: entry 4
    raw.extend_from_slice(&[6, 0]); // section 2 terminator
    raw.extend_from_slice(&[6, 0]); // section 3 terminator
    let pl = apply_relocations(&raw, 0xC001, false).unwrap();
    assert_eq!(pl, vec![0x35, 0xD2, 0, 0, 0x11, 0]);
}

#[test]
fn relocation_looping_sets_setup_bit() {
    let raw = make_raw_player(12, &[]);
    let pl = apply_relocations(&raw, 0xC000, true).unwrap();
    assert_eq!(pl[10], 1);
    let pl = apply_relocations(&raw, 0xC000, false).unwrap();
    assert_eq!(pl[10], 0);
}

#[test]
fn relocation_rejects_truncated_player() {
    let raw: Vec<u8> = vec![10, 0, 0, 0, 1, 2, 3];
    assert_eq!(apply_relocations(&raw, 0xC000, false), Err(FormatError::PlayerTruncated));
}

#[test]
fn check_fits_limit() {
    assert!(check_fits(1000, 1000, 63536, 0).is_ok());
    assert_eq!(
        check_fits(1000, 1000, 63537, 0),
        Err(FormatError::ExceedsZxMemory { total: 65537 })
    );
}

#[test]
fn hobeta_header_fields_and_checksum() {
    let hdr = make_hobeta_hdr("ab", b'C', 0xC000, 300);
    assert_eq!(&hdr[..8], b"ab      ");
    assert_eq!(hdr[8], b'C');
    assert_eq!(&hdr[9..15], &[0x00, 0xC0, 0x2C, 0x01, 0x00, 0x02]);
    let sum: u32 = hdr[..15].iter().map(|&b| b as u32).sum();
    let cs = ((sum * 257 + 105) & 0xFFFF) as u16;
    assert_eq!(hobeta_checksum(&hdr), cs);
    assert_eq!(u16::from_le_bytes([hdr[15], hdr[16]]), cs);
}

#[test]
fn hobeta_code_layout() {
    let opts = ZxExportOptions::default();
    let out = build_hobeta_code(&[1, 2], &[9], 3, &opts).unwrap();
    assert_eq!(out.len(), 17 + 256);
    assert_eq!(&out[17..23], &[1, 2, 0, 0, 0, 9]);
    assert!(out[23..].iter().all(|&b| b == 0));
}

#[test]
fn tap_parity_is_xor_of_flag_and_data() {
    assert_eq!(tap_checksum(0xFF, &[]), 0xFF);
    assert_eq!(tap_checksum(0x00, &[1, 2, 4]), 7);
    assert_eq!(tap_checksum(0xFF, &[0x0F]), 0xF0);
}

#[test]
fn tap_layout_of_four_blocks() {
    let opts = ZxExportOptions { name: "".to_string(), ..ZxExportOptions::default() };
    let out = build_tap(&[0xAA], &[0xBB, 0xCC], 1, 2, &opts).unwrap();
    // header block: 19 (+2 length) bytes
    assert_eq!(&out[0..3], &[19, 0, 0]);
    assert_eq!(out[3], 3);
    assert_eq!(&out[4..14], b"vtplayer  ");
    assert_eq!(&out[14..18], &[1, 0, 0x00, 0xC0]);
    // player data block
    assert_eq!(&out[21..26], &[3, 0, 0xFF, 0xAA, 0xFF ^ 0xAA]);
    // module header block: default name, start after player and variables
    assert_eq!(&out[26..30], &[19, 0, 0, 3]);
    assert_eq!(&out[30..40], b"module    ");
    assert_eq!(&out[40..44], &[2, 0, 0x03, 0xC0]);
    assert_eq!(out.len(), 21 + 5 + 21 + 6);
}

#[test]
fn scl_checksum_is_sum_of_all_bytes() {
    let opts = ZxExportOptions::default();
    let out = build_scl(&[1, 2, 3], &[4, 5], 3, 0, &opts).unwrap();
    assert_eq!(out.len(), 37 + 256 + 256 + 4);
    assert_eq!(&out[..8], b"SINCLAIR");
    let sum: u32 = out[..out.len() - 4].iter().map(|&b| b as u32).sum();
    assert_eq!(&out[out.len() - 4..], &sum.to_le_bytes());
}

#[test]
fn zx_format_names() {
    assert_eq!(ZxFormat::default(), ZxFormat::HobetaCode);
    assert_eq!(ZxFormat::Tap.extension(), "tap");
    assert_eq!(ZxFormat::HobetaMem.extension(), "$m");
    assert_eq!(ZxFormat::Scl.label(), "Sinclair disc image (*.scl)");
}

// ─── The whole export ────────────────────────────────────────────────────────

/// A small stand-in player binary: 64 bytes of code, 32 of variables, a
/// relocated word at offset 1 and a high-byte patch at offset 4.
fn test_player() -> Vec<u8> {
    let mut raw = make_raw_player(64, &[(4, 0x0010)]);
    raw[2] = 32;
    raw[3] = 0;
    raw
}

fn make_simple_module() -> Module {
    let mut m = Module::default();
    m.initial_delay = 6;
    m.title = "Test".to_string();
    m.author = "Tester".to_string();
    let mut s = Sample::default();
    s.length = 1;
    s.loop_pos = 0;
    s.items[0] = SampleTick { amplitude: 12, mixer_ton: true, ..SampleTick::default() };
    m.samples[1] = Some(Box::new(s));
    let mut pat = Pattern::default();
    pat.length = 2;
    pat.items[0].channel[0] = ChannelLine { note: 36, sample: 1, ..ChannelLine::default() };
    m.patterns[0] = Some(Box::new(pat));
    m.positions.length = 1;
    m.positions.value[0] = 0;
    m
}

fn make_duplicate_heavy_module() -> Module {
    let mut m = Module::default();
    m.initial_delay = 6;
    let make_sample = || -> Sample {
        let mut s = Sample::default();
        s.length = 2;
        s.loop_pos = 0;
        s.items[0] = SampleTick { amplitude: 12, mixer_ton: true, ..SampleTick::default() };
        s.items[1] = SampleTick { amplitude: 8, mixer_ton: true, ..SampleTick::default() };
        s
    };
    for i in 1..=8usize {
        m.samples[i] = Some(Box::new(make_sample()));
    }
    let make_ornament = || -> Ornament {
        let mut o = Ornament::default();
        o.length = 2;
        o.loop_pos = 0;
        o.items[0] = 0;
        o.items[1] = 12;
        o
    };
    for i in 1..=6usize {
        m.ornaments[i] = Some(Box::new(make_ornament()));
    }
    let mut pat = Pattern::default();
    pat.length = 8;
    for row in 0..8usize {
        let s = (row % 8) as u8 + 1;
        let o = (row % 6) as u8 + 1;
        for ch in 0..3 {
            pat.items[row].channel[ch] =
                ChannelLine { note: 36, sample: s, ornament: o, volume: 12, ..ChannelLine::default() };
        }
    }
    m.patterns[0] = Some(Box::new(pat));
    m.positions.length = 1;
    m.positions.value[0] = 0;
    m
}

fn opts(format: ZxFormat, name: &str, m: &Module) -> ZxExportOptions {
    ZxExportOptions {
        format,
        load_addr: 0xC000,
        looping: false,
        name: name.to_string(),
        title: m.title.clone(),
        author: m.author.clone(),
    }
}

#[test]
fn zx_export_tap_basic_structure() {
    let m = make_simple_module();
    let data = export_zx(&m, &opts(ZxFormat::Tap, "test", &m), &test_player(), 100).expect("tap export must succeed");
    let mut pos = 0usize;
    let mut blocks = Vec::new();
    while pos + 2 <= data.len() {
        let blen = u16::from_le_bytes([data[pos], data[pos + 1]]) as usize;
        assert!(pos + 2 + blen <= data.len(), "block overflows at pos {}", pos);
        blocks.push(data[pos + 2..pos + 2 + blen].to_vec());
        pos += 2 + blen;
    }
    assert_eq!(blocks.len(), 4, "expected 4 TAP blocks, got {}", blocks.len());
    assert_eq!(blocks[0][0], 0x00);
    assert_eq!(blocks[2][0], 0x00);
    assert_eq!(blocks[1][0], 0xFF);
    assert_eq!(blocks[3][0], 0xFF);
    assert_eq!(blocks[0][1], 3);
    assert_eq!(blocks[2][1], 3);
}

#[test]
fn zx_export_hobeta_code_header_signature() {
    let m = make_simple_module();
    let data = export_zx(&m, &opts(ZxFormat::HobetaCode, "demo", &m), &test_player(), 100).expect("hobeta export must succeed");
    assert!(data.len() > 17, "must be longer than just the header");
    assert_eq!(data[8], b'C', "hobeta type byte must be 'C'");
    let start = u16::from_le_bytes([data[9], data[10]]);
    assert_eq!(start, 0xC000, "start address must be 0xC000");
}

#[test]
fn zx_export_scl_header_signature() {
    let m = make_simple_module();
    let data = export_zx(&m, &opts(ZxFormat::Scl, "demo", &m), &test_player(), 100).expect("scl export must succeed");
    assert_eq!(&data[..8], b"SINCLAIR", "SCL magic must be SINCLAIR");
    assert_eq!(data[8], 2, "NBlk must be 2");
}

#[test]
fn zx_export_ay_file_signature() {
    let m = make_simple_module();
    let data = export_zx(&m, &opts(ZxFormat::AyFile, "demo", &m), &test_player(), 100).expect("ay export must succeed");
    assert_eq!(&data[..4], b"ZXAY", "AY magic must be ZXAY");
    assert_eq!(&data[4..8], b"EMUL", "AY type must be EMUL");
    // The title follows the 58-byte header, ended by 0; then the author.
    assert_eq!(&data[58..63], b"Test\0");
    assert_eq!(&data[63..70], b"Tester\0");
    // Song length 100 (big-endian) in the song data.
    assert_eq!(&data[28..30], &[0, 100]);
    // Play entry at the load address + 5.
    assert_eq!(&data[42..44], &[0xC0, 0x05]);
}

#[test]
fn zx_export_hobeta_mem_no_player() {
    let m = make_simple_module();
    let mem_data = export_zx(&m, &opts(ZxFormat::HobetaMem, "demo", &m), &test_player(), 100).expect("mem export");
    let code_data = export_zx(&m, &opts(ZxFormat::HobetaCode, "demo", &m), &test_player(), 100).expect("code export");
    assert!(mem_data.len() < code_data.len());
    assert_eq!(mem_data[8], b'm', "HobetaMem type byte must be 'm'");
}

#[test]
fn zx_export_duplicate_heavy_module_fits_in_zx_ram() {
    let m = make_duplicate_heavy_module();
    for fmt in [ZxFormat::HobetaCode, ZxFormat::Tap, ZxFormat::Scl, ZxFormat::AyFile] {
        let o = ZxExportOptions {
            format: fmt,
            load_addr: 0xC000,
            looping: false,
            name: "dup_test".to_string(),
            title: "Dup Test".to_string(),
            author: "Test".to_string(),
        };
        let result = export_zx(&m, &o, &test_player(), 0);
        assert!(result.is_ok(), "export {:?} must succeed: {:?}", fmt, result);
    }
}

#[test]
fn zx_export_refuses_what_does_not_fit() {
    let m = make_simple_module();
    // Code and variables of 0xFFFF bytes each leave no room for the module.
    let mut big = test_player();
    big[2] = 0xFF;
    big[3] = 0xFF;
    let r = export_zx(&m, &opts(ZxFormat::Tap, "x", &m), &big, 0);
    assert!(matches!(r, Err(FormatError::ExceedsZxMemory { .. })));
    // A player binary shorter than its code size.
    let r = export_zx(&m, &opts(ZxFormat::Tap, "x", &m), &[200, 0, 0, 0, 1, 2], 0);
    assert_eq!(r.err(), Some(FormatError::PlayerTruncated));
    // The module alone needs no player.
    assert!(save_zx(&m, &opts(ZxFormat::HobetaMem, "x", &m), &[0, 0, 0, 0], 0).is_ok());
}
