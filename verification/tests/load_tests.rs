use vti::formats::{file_kind, load, load_by_ext, load_modules, FileKind, FormatError};

fn ts_file(a: &[u8], ta: &[u8; 4], b: &[u8], tb: &[u8; 4]) -> Vec<u8> {
    let mut v = a.to_vec();
    v.extend_from_slice(b);
    v.extend_from_slice(ta);
    v.push((a.len() & 0xFF) as u8);
    v.push((a.len() >> 8) as u8);
    v.extend_from_slice(tb);
    v.push((b.len() & 0xFF) as u8);
    v.push((b.len() >> 8) as u8);
    v.extend_from_slice(b"02TS");
    v
}

#[test]
fn file_kind_reads_the_last_extension_in_either_case() {
    assert_eq!(file_kind("song.Pt3"), Some(FileKind::Pt3));
    assert_eq!(file_kind("a.b.ASC"), Some(FileKind::Asc));
    assert_eq!(file_kind("tune.as0"), Some(FileKind::As0));
    assert_eq!(file_kind("x.ay"), Some(FileKind::Ay));
    assert_eq!(file_kind("pt3"), Some(FileKind::Pt3));
    assert_eq!(file_kind("song."), None);
    assert_eq!(file_kind("song.mod"), None);
}

#[test]
fn load_dispatches_on_the_extension() {
    let m = load(&[0u8; 10], "TUNE.ASC").expect("asc reads");
    assert_eq!(m.positions.length, 0);
    assert_eq!(load(&[0u8; 5], "tune.asc").err(), Some(FormatError::TooShort));
    assert_eq!(load(&[0u8; 5], "tune.pt3").err(), Some(FormatError::TooShort));
    assert_eq!(load(&[0u8; 20], "tune.xyz").err(), Some(FormatError::UnsupportedFormat));
}

#[test]
fn load_by_ext_wants_the_small_letter_extension() {
    assert!(load_by_ext(&[0u8; 10], "asc").is_ok());
    assert_eq!(load_by_ext(&[0u8; 10], "ASC").err(), Some(FormatError::UnsupportedFormat));
}

#[test]
fn load_modules_splits_a_turbosound_file() {
    let data = ts_file(&[0u8; 10], b"ASC!", &[1u8, 0, 0, 0, 0, 0, 0, 0, 0, 0, 0], b"ASC!");
    let v = load_modules(&data, "two.pt3").expect("both read");
    assert_eq!(v.len(), 2);
    assert_eq!(v[0].initial_delay, 0);
    assert_eq!(v[1].initial_delay, 1);
}

#[test]
fn load_modules_refuses_trailer_sizes_beyond_the_file() {
    let mut data = ts_file(&[0u8; 10], b"ASC!", &[0u8; 10], b"ASC!");
    let n = data.len();
    data[n - 16 + 4] = 200; // first size now 200
    assert_eq!(load_modules(&data, "x.asc").err(), Some(FormatError::TsSizesExceedFile));
}

#[test]
fn load_modules_reads_one_module_without_a_trailer() {
    let v = load_modules(&[0u8; 10], "x.asc").expect("reads");
    assert_eq!(v.len(), 1);
    // An unknown kind in the trailer: the file is read whole by its name.
    let data = ts_file(&[0u8; 10], b"XYZ!", &[0u8; 10], b"ASC!");
    let v = load_modules(&data, "x.asc").expect("reads whole");
    assert_eq!(v.len(), 1);
}

#[test]
fn new_error_messages() {
    assert_eq!(FormatError::UnsupportedFormat.message(), "Unsupported file format");
    assert_eq!(
        FormatError::TsSizesExceedFile.message(),
        "TurboSound trailer sizes exceed file length"
    );
    assert_eq!(FormatError::FileTooLarge.message(), "file too large");
}
