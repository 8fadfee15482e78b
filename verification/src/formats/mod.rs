//! Tracker file formats: readers, writers and the ZX Spectrum export.
pub mod asc;
pub mod ay;
pub mod fls;
pub mod gtr;
pub mod pt1;
pub mod pt2;
pub mod pt3;
pub mod stc;
pub mod sqt;
pub mod stp;
pub mod vtm;
pub mod vtm_read;
pub mod vtm_laws;
pub mod zx_export;

use crate::util::{digits, push_dec_usize};
use vstd::prelude::*;
use vstd::string::StringSliceAdditionalSpecFns;

verus! {

/// Why a file could not be read or written.
#[derive(Debug, Clone, PartialEq, Eq)]
pub enum FormatError {
    /// A block of `size` bytes is too large for the 16-bit Hobeta sector
    /// length field (at most 65280 bytes).
    HobetaTooLarge { size: usize },
    /// A block of `size` bytes needs `sectors` disc sectors; an SCL directory
    /// entry holds at most 255.
    SclTooManySectors { size: usize, sectors: usize },
    /// Player, variables and module together (`total` bytes) exceed the
    /// 65536 bytes of ZX memory.
    ExceedsZxMemory { total: usize },
    /// The player binary is shorter than the code size its header gives.
    PlayerTruncated,
    /// The file is shorter than the fixed part of its format.
    TooShort,
    /// The position list is empty.
    NoPositions,
    /// A sample or ornament is longer than the format allows.
    LengthOverflow,
    /// The data ends inside a sample, ornament or pattern.
    Truncated,
    /// A position refers to pattern `index`, beyond the last pattern.
    PatternIndexOutOfRange { index: usize },
    /// The module does not fit in the 64 KiB of a module file.
    OutputTooLarge,
    /// The file is longer than its format can address.
    FileTooLarge,
    /// The file's kind (by its extension) has no reader.
    UnsupportedFormat,
    /// The TurboSound trailer gives module sizes beyond the file.
    TsSizesExceedFile,
    /// The file does not start with `ZXAY`.
    NotZxay,
    /// The ZXAY file holds neither `ST11` nor `AMAD` songs.
    UnsupportedSubFormat,
    /// The ZXAY file holds no song.
    NoSongs,
    /// A ZXAY offset points outside the file.
    OffsetOutOfBounds,
    /// Song `index` was asked for; the file holds `count`.
    SongIndexOutOfRange { index: usize, count: usize },
    /// `AMAD` songs are machine code for the ZX Spectrum's processor.
    AmadNotSupported,
    /// An `EMUL` file holds its own machine-code player and no Pro Tracker 3
    /// module that could be read instead.
    EmulNotSupported,
    /// An author's or song's name cannot be cut to 32 bytes of UTF-8 without
    /// splitting a character.
    NameNotCuttable,
    /// A pattern holds a byte that no command has.
    UnknownCommand,
    /// A song's data starts past the end of the file.
    SongDataBeyondFile,
    /// A song's data is shorter than a Sound Tracker 1 song.
    SongDataTooSmall,
    /// The Sound Tracker 1 song cannot be converted.
    St1(ay::St1Error),
    /// A VTM sample line lacks a part or holds a value out of range.
    SampleLineSyntax,
    /// A VTM ornament line holds no offset.
    EmptyOrnament,
    /// A VTM pattern line is shorter than a row.
    PatternRowTooShort,
    /// A VTM sample section holds no line, or more than 64.
    SampleSectionSize,
    /// A VTM pattern section holds no line, or more than 256.
    PatternSectionSize,
    /// The VTM text has no `[Module]` section.
    MissingModuleSection,
    /// A VTM play order entry is not a pattern number within range, or
    /// there are more than 256.
    BadPlayOrder,
    /// A VTM file is not UTF-8 text.
    InvalidUtf8,
}

/// Every byte is ASCII (below 0x80).
pub open spec fn ascii_bytes(b: Seq<u8>) -> bool {
    forall|i: int| 0 <= i < b.len() ==> #[trigger] b[i] < 0x80
}

/// The characters of ASCII bytes.
pub open spec fn ascii_text(b: Seq<u8>) -> Seq<char> {
    Seq::new(b.len(), |i: int| b[i] as char)
}

/// Names what `String::from_utf8_lossy` makes of the bytes `b`: `b` read as
/// UTF-8, each invalid sequence replaced by U+FFFD.
pub uninterp spec fn utf8_lossy(b: Seq<u8>) -> Seq<char>;

/// `String::from_utf8_lossy(b)`, owned.  The contract gives its result the
/// name above and states one fact std documents: ASCII bytes (valid UTF-8)
/// come out as the characters with the same codes.  Nothing more is claimed
/// of non-ASCII input.
#[verifier::external_body]
pub(crate) fn string_from_bytes_lossy(b: &[u8]) -> (r: String)
    ensures
        r@ == utf8_lossy(b@),
        (forall|i: int| 0 <= i < b@.len() ==> b@[i] < 0x80) ==> r@ == Seq::new(
            b@.len(),
            |i: int| b@[i] as char,
        ),
{
    String::from_utf8_lossy(b).into_owned()
}

/// `std::str::from_utf8(b)`: the text `b` holds.  The contract states what
/// std documents: it succeeds exactly when `b` is valid UTF-8, and the
/// text's bytes are `b`.
#[verifier::external_body]
fn str_from_utf8<'a>(b: &'a [u8]) -> (r: Option<&'a str>)
    ensures
        r is Some <==> vstd::utf8::valid_utf8(b@),
        r matches Some(t) ==> t.spec_bytes() == b@,
{
    std::str::from_utf8(b).ok()
}

/// The TurboSound trailer (`02TS`) that appends a second module to a file:
/// the kinds and sizes of the two modules.
#[derive(Debug, Clone, Copy, PartialEq, Eq)]
pub struct TsTrailer {
    pub type1: [u8; 4],
    pub size1: usize,
    pub type2: [u8; 4],
    pub size2: usize,
}

/// Size of the TurboSound trailer.
pub const TS_TRAILER_SIZE: usize = 16;

/// The trailer in the last 16 bytes of `data`, when the file is longer than
/// that and they end with `02TS`: two (kind, little-endian size) pairs.
pub open spec fn ts_trailer(data: Seq<u8>) -> Option<TsTrailer> {
    if data.len() <= TS_TRAILER_SIZE {
        None
    } else {
        let t = data.subrange(data.len() - 16, data.len() as int);
        if t.subrange(12, 16) == seq![0x30u8, 0x32, 0x54, 0x53] {
            Some(
                TsTrailer {
                    type1: [t[0], t[1], t[2], t[3]],
                    size1: (t[4] as int + 256 * t[5] as int) as usize,
                    type2: [t[6], t[7], t[8], t[9]],
                    size2: (t[10] as int + 256 * t[11] as int) as usize,
                },
            )
        } else {
            None
        }
    }
}

/// Read the TurboSound trailer at the end of `data`, if there is one.
pub fn parse_ts_trailer(data: &[u8]) -> (r: Option<TsTrailer>)
    ensures
        r == ts_trailer(data@),
{
    if data.len() <= TS_TRAILER_SIZE {
        return None;
    }
    let b = data.len() - TS_TRAILER_SIZE;
    let ghost t = data@.subrange(b as int, data@.len() as int);
    if !(data[b + 12] == 0x30 && data[b + 13] == 0x32 && data[b + 14] == 0x54 && data[b + 15] == 0x53) {
        assert(t.subrange(12, 16)[0] == data@[b + 12]);
        assert(t.subrange(12, 16)[1] == data@[b + 13]);
        assert(t.subrange(12, 16)[2] == data@[b + 14]);
        assert(t.subrange(12, 16)[3] == data@[b + 15]);
        return None;
    }
    assert(t.subrange(12, 16) =~= seq![0x30u8, 0x32, 0x54, 0x53]);
    let r = TsTrailer {
        type1: [data[b], data[b + 1], data[b + 2], data[b + 3]],
        size1: data[b + 4] as usize + data[b + 5] as usize * 256,
        type2: [data[b + 6], data[b + 7], data[b + 8], data[b + 9]],
        size2: data[b + 10] as usize + data[b + 11] as usize * 256,
    };
    assert(r.type1 =~= [t[0], t[1], t[2], t[3]]);
    assert(r.type2 =~= [t[6], t[7], t[8], t[9]]);
    Some(r)
}

/// The file extension of a TurboSound module kind (`STC!`, `ASC!`, `STP!`,
/// `FLS!`, `PT1!`, `PT2!`, `PT3!`, `SQT!`, `GTR!`).
pub open spec fn ts_ext(t: [u8; 4]) -> Option<Seq<char>> {
    if t[3] != 0x21 {
        None
    } else if t[0] == 0x53 && t[1] == 0x54 && t[2] == 0x43 {
        Some("stc"@)
    } else if t[0] == 0x41 && t[1] == 0x53 && t[2] == 0x43 {
        Some("asc"@)
    } else if t[0] == 0x53 && t[1] == 0x54 && t[2] == 0x50 {
        Some("stp"@)
    } else if t[0] == 0x46 && t[1] == 0x4C && t[2] == 0x53 {
        Some("fls"@)
    } else if t[0] == 0x50 && t[1] == 0x54 && t[2] == 0x31 {
        Some("pt1"@)
    } else if t[0] == 0x50 && t[1] == 0x54 && t[2] == 0x32 {
        Some("pt2"@)
    } else if t[0] == 0x50 && t[1] == 0x54 && t[2] == 0x33 {
        Some("pt3"@)
    } else if t[0] == 0x53 && t[1] == 0x51 && t[2] == 0x54 {
        Some("sqt"@)
    } else if t[0] == 0x47 && t[1] == 0x54 && t[2] == 0x52 {
        Some("gtr"@)
    } else {
        None
    }
}

/// The file extension of a TurboSound module kind, if it is one.
pub fn ext_from_ts_type(ts_type: [u8; 4]) -> (r: Option<&'static str>)
    ensures
        match (r, ts_ext(ts_type)) {
            (Some(s), Some(e)) => s@ == e,
            (None, None) => true,
            _ => false,
        },
{
    let t = ts_type;
    if t[3] != 0x21 {
        None
    } else if t[0] == 0x53 && t[1] == 0x54 && t[2] == 0x43 {
        Some("stc")
    } else if t[0] == 0x41 && t[1] == 0x53 && t[2] == 0x43 {
        Some("asc")
    } else if t[0] == 0x53 && t[1] == 0x54 && t[2] == 0x50 {
        Some("stp")
    } else if t[0] == 0x46 && t[1] == 0x4C && t[2] == 0x53 {
        Some("fls")
    } else if t[0] == 0x50 && t[1] == 0x54 && t[2] == 0x31 {
        Some("pt1")
    } else if t[0] == 0x50 && t[1] == 0x54 && t[2] == 0x32 {
        Some("pt2")
    } else if t[0] == 0x50 && t[1] == 0x54 && t[2] == 0x33 {
        Some("pt3")
    } else if t[0] == 0x53 && t[1] == 0x51 && t[2] == 0x54 {
        Some("sqt")
    } else if t[0] == 0x47 && t[1] == 0x54 && t[2] == 0x52 {
        Some("gtr")
    } else {
        None
    }
}

/// Serialise a module as VTM text (see [`vtm::write`]).
pub fn save_vtm(module: &crate::types::Module) -> (r: String)
    requires
        vtm::writable(*module),
    ensures
        r@ == vtm::vtm_text(*module),
{
    vtm::write(module)
}

/// Serialise a module to a PT3 file (see [`pt3::write`]).
pub fn save_pt3(module: &crate::types::Module) -> (r: Result<Vec<u8>, FormatError>)
    requires
        pt3::writable(*module),
    ensures
        match pt3::pt3_file(*module) {
            Some(b) => r matches Ok(out) && out@ == b,
            None => r == Err::<Vec<u8>, FormatError>(FormatError::OutputTooLarge),
        },
{
    pt3::write(module)
}

/// Export a module for the ZX Spectrum (see [`zx_export::export_zx`]).
pub fn save_zx(
    module: &crate::types::Module,
    opts: &zx_export::ZxExportOptions,
    player: &[u8],
    ticks: u32,
) -> (r: Result<Vec<u8>, FormatError>)
    requires
        pt3::writable(*module),
        player@.len() >= 4,
        player@.len() <= isize::MAX,
        opts.format == zx_export::ZxFormat::AyFile ==> opts.load_addr <= 65530 && zx_export::text_bytes(
            opts.title,
        ).len() <= 65536 && zx_export::text_bytes(opts.author).len() <= 65536,
    ensures
        match pt3::pt3_file(*module) {
            None => r == Err::<Vec<u8>, FormatError>(FormatError::OutputTooLarge),
            Some(b) => match zx_export::zx_image(*opts, player@, b, ticks as int) {
                Ok(img) => r matches Ok(v) && v@ == img,
                Err(e) => r == Err::<Vec<u8>, FormatError>(e),
            },
        },
{
    zx_export::export_zx(module, opts, player, ticks)
}

/// The message of an error.
pub open spec fn error_text(e: FormatError) -> Seq<char> {
    match e {
        FormatError::HobetaTooLarge { size } => "Hobeta block size ("@ + digits(size as nat, 10)
            + " bytes) is too large (max 65280): the SectLeng header field would overflow"@,
        FormatError::SclTooManySectors { size, sectors } => "block ("@ + digits(size as nat, 10)
            + " bytes, "@ + digits(sectors as nat, 10)
            + " sectors) too large for SCL: sector count exceeds 255"@,
        FormatError::ExceedsZxMemory { total } => "Size of module with player ("@ + digits(
            total as nat,
            10,
        ) + " bytes) exceeds 65536 ZX RAM limit."@,
        FormatError::PlayerTruncated => "ZX player binary is truncated"@,
        FormatError::TooShort => "file too small"@,
        FormatError::NoPositions => "no positions"@,
        FormatError::LengthOverflow => "sample or ornament length overflow"@,
        FormatError::Truncated => "data truncated"@,
        FormatError::PatternIndexOutOfRange { index } => "pattern index "@ + digits(index as nat, 10)
            + " out of range"@,
        FormatError::OutputTooLarge => "output too large"@,
        FormatError::FileTooLarge => "file too large"@,
        FormatError::UnsupportedFormat => "Unsupported file format"@,
        FormatError::TsSizesExceedFile => "TurboSound trailer sizes exceed file length"@,
        FormatError::NotZxay => "AY: not a ZXAY file"@,
        FormatError::UnsupportedSubFormat => "AY: unsupported ZXAY sub-format"@,
        FormatError::NoSongs => "AY: file contains no sub-songs"@,
        FormatError::OffsetOutOfBounds => "AY: offset out of file bounds"@,
        FormatError::SongIndexOutOfRange { index, count } => "AY: song index "@ + digits(
            index as nat,
            10,
        ) + " out of range (file has "@ + digits(count as nat, 10) + " sub-song(s))"@,
        FormatError::AmadNotSupported => "AY: AMAD sub-songs need Z80 emulation; import is not supported"@,
        FormatError::EmulNotSupported => "AY: EMUL songs need Z80 emulation; import is not supported"@,
        FormatError::NameNotCuttable => "AY: name cannot be cut to 32 bytes"@,
        FormatError::UnknownCommand => "pattern byte is not a command"@,
        FormatError::SongDataBeyondFile => "AY: ST11 song data offset is beyond file end"@,
        FormatError::SongDataTooSmall => "AY: ST11 song data too small"@,
        FormatError::St1(_) => "AY: ST1 to STC conversion failed"@,
        FormatError::SampleLineSyntax => "VTM: malformed sample line"@,
        FormatError::EmptyOrnament => "VTM: empty ornament"@,
        FormatError::PatternRowTooShort => "VTM: pattern row too short"@,
        FormatError::SampleSectionSize => "VTM: sample empty or too long"@,
        FormatError::PatternSectionSize => "VTM: pattern empty or too long"@,
        FormatError::MissingModuleSection => "VTM: missing [Module] section"@,
        FormatError::BadPlayOrder => "VTM: invalid PlayOrder entry"@,
        FormatError::InvalidUtf8 => "VTM: invalid UTF-8"@,
    }
}

impl FormatError {
    /// Human-readable description of the error.
    pub fn message(&self) -> (r: String)
        ensures
            r@ == error_text(*self),
    {
        let mut s = String::new();
        match self {
            FormatError::HobetaTooLarge { size } => {
                s.append("Hobeta block size (");
                push_dec_usize(&mut s, *size);
                s.append(" bytes) is too large (max 65280): the SectLeng header field would overflow");
            },
            FormatError::SclTooManySectors { size, sectors } => {
                s.append("block (");
                push_dec_usize(&mut s, *size);
                s.append(" bytes, ");
                push_dec_usize(&mut s, *sectors);
                s.append(" sectors) too large for SCL: sector count exceeds 255");
            },
            FormatError::ExceedsZxMemory { total } => {
                s.append("Size of module with player (");
                push_dec_usize(&mut s, *total);
                s.append(" bytes) exceeds 65536 ZX RAM limit.");
            },
            FormatError::PlayerTruncated => {
                s.append("ZX player binary is truncated");
            },
            FormatError::TooShort => {
                s.append("file too small");
            },
            FormatError::NoPositions => {
                s.append("no positions");
            },
            FormatError::LengthOverflow => {
                s.append("sample or ornament length overflow");
            },
            FormatError::Truncated => {
                s.append("data truncated");
            },
            FormatError::PatternIndexOutOfRange { index } => {
                s.append("pattern index ");
                push_dec_usize(&mut s, *index);
                s.append(" out of range");
            },
            FormatError::OutputTooLarge => {
                s.append("output too large");
            },
            FormatError::FileTooLarge => {
                s.append("file too large");
            },
            FormatError::UnsupportedFormat => {
                s.append("Unsupported file format");
            },
            FormatError::TsSizesExceedFile => {
                s.append("TurboSound trailer sizes exceed file length");
            },
            FormatError::NotZxay => {
                s.append("AY: not a ZXAY file");
            },
            FormatError::UnsupportedSubFormat => {
                s.append("AY: unsupported ZXAY sub-format");
            },
            FormatError::NoSongs => {
                s.append("AY: file contains no sub-songs");
            },
            FormatError::OffsetOutOfBounds => {
                s.append("AY: offset out of file bounds");
            },
            FormatError::SongIndexOutOfRange { index, count } => {
                s.append("AY: song index ");
                push_dec_usize(&mut s, *index);
                s.append(" out of range (file has ");
                push_dec_usize(&mut s, *count);
                s.append(" sub-song(s))");
            },
            FormatError::AmadNotSupported => {
                s.append("AY: AMAD sub-songs need Z80 emulation; import is not supported");
            },
            FormatError::EmulNotSupported => {
                s.append("AY: EMUL songs need Z80 emulation; import is not supported");
            },
            FormatError::NameNotCuttable => {
                s.append("AY: name cannot be cut to 32 bytes");
            },
            FormatError::UnknownCommand => {
                s.append("pattern byte is not a command");
            },
            FormatError::SongDataBeyondFile => {
                s.append("AY: ST11 song data offset is beyond file end");
            },
            FormatError::SongDataTooSmall => {
                s.append("AY: ST11 song data too small");
            },
            FormatError::St1(_) => {
                s.append("AY: ST1 to STC conversion failed");
            },
            FormatError::SampleLineSyntax => {
                s.append("VTM: malformed sample line");
            },
            FormatError::EmptyOrnament => {
                s.append("VTM: empty ornament");
            },
            FormatError::PatternRowTooShort => {
                s.append("VTM: pattern row too short");
            },
            FormatError::SampleSectionSize => {
                s.append("VTM: sample empty or too long");
            },
            FormatError::PatternSectionSize => {
                s.append("VTM: pattern empty or too long");
            },
            FormatError::MissingModuleSection => {
                s.append("VTM: missing [Module] section");
            },
            FormatError::BadPlayOrder => {
                s.append("VTM: invalid PlayOrder entry");
            },
            FormatError::InvalidUtf8 => {
                s.append("VTM: invalid UTF-8");
            },
        }
        assert(s@ =~= error_text(*self));
        s
    }
}


// ─── Loading by file kind ────────────────────────────────────────────────────

/// The tracker file kinds, named by their extensions.
#[derive(Debug, Clone, Copy, PartialEq, Eq, Structural)]
pub enum FileKind {
    Vtm,
    Pt3,
    Pt2,
    Pt1,
    Stc,
    Stp,
    Ay,
    Sqt,
    Asc,
    As0,
    Gtr,
    Fls,
}

/// The kind an extension (its bytes, exactly) names.
pub open spec fn kind_of(e: Seq<u8>) -> Option<FileKind> {
    if e == seq![0x76u8, 0x74, 0x6D] {
        Some(FileKind::Vtm)
    } else if e == seq![0x70u8, 0x74, 0x33] {
        Some(FileKind::Pt3)
    } else if e == seq![0x70u8, 0x74, 0x32] {
        Some(FileKind::Pt2)
    } else if e == seq![0x70u8, 0x74, 0x31] {
        Some(FileKind::Pt1)
    } else if e == seq![0x73u8, 0x74, 0x63] {
        Some(FileKind::Stc)
    } else if e == seq![0x73u8, 0x74, 0x70] {
        Some(FileKind::Stp)
    } else if e == seq![0x61u8, 0x79] {
        Some(FileKind::Ay)
    } else if e == seq![0x73u8, 0x71, 0x74] {
        Some(FileKind::Sqt)
    } else if e == seq![0x61u8, 0x73, 0x63] {
        Some(FileKind::Asc)
    } else if e == seq![0x61u8, 0x73, 0x30] {
        Some(FileKind::As0)
    } else if e == seq![0x67u8, 0x74, 0x72] {
        Some(FileKind::Gtr)
    } else if e == seq![0x66u8, 0x6C, 0x73] {
        Some(FileKind::Fls)
    } else {
        None
    }
}

fn eq3(e: &[u8], a: u8, b: u8, c: u8) -> (r: bool)
    ensures
        r == (e@ == seq![a, b, c]),
{
    if e.len() == 3 && e[0] == a && e[1] == b && e[2] == c {
        assert(e@ =~= seq![a, b, c]);
        true
    } else {
        if e.len() == 3 {
            assert(seq![a, b, c][0] == a && seq![a, b, c][1] == b && seq![a, b, c][2] == c);
        }
        false
    }
}

/// The kind an extension names (see [`kind_of`]).
pub fn kind_of_ext(e: &[u8]) -> (r: Option<FileKind>)
    ensures
        r == kind_of(e@),
{
    if eq3(e, 0x76, 0x74, 0x6D) {
        Some(FileKind::Vtm)
    } else if eq3(e, 0x70, 0x74, 0x33) {
        Some(FileKind::Pt3)
    } else if eq3(e, 0x70, 0x74, 0x32) {
        Some(FileKind::Pt2)
    } else if eq3(e, 0x70, 0x74, 0x31) {
        Some(FileKind::Pt1)
    } else if eq3(e, 0x73, 0x74, 0x63) {
        Some(FileKind::Stc)
    } else if eq3(e, 0x73, 0x74, 0x70) {
        Some(FileKind::Stp)
    } else if e.len() == 2 && e[0] == 0x61 && e[1] == 0x79 {
        assert(e@ =~= seq![0x61u8, 0x79]);
        Some(FileKind::Ay)
    } else if eq3(e, 0x73, 0x71, 0x74) {
        Some(FileKind::Sqt)
    } else if eq3(e, 0x61, 0x73, 0x63) {
        Some(FileKind::Asc)
    } else if eq3(e, 0x61, 0x73, 0x30) {
        Some(FileKind::As0)
    } else if eq3(e, 0x67, 0x74, 0x72) {
        Some(FileKind::Gtr)
    } else if eq3(e, 0x66, 0x6C, 0x73) {
        Some(FileKind::Fls)
    } else {
        proof {
            if e@.len() == 2 {
                assert(seq![0x61u8, 0x79][0] == 0x61 && seq![0x61u8, 0x79][1] == 0x79);
            }
        }
        None
    }
}

/// The part of a file name after its last `.` (all of it when there is none).
pub open spec fn last_segment(b: Seq<u8>) -> Seq<u8>
    decreases b.len(),
{
    if b.len() == 0 {
        b
    } else if b.last() == 0x2Eu8 {
        Seq::empty()
    } else {
        last_segment(b.drop_last()).push(b.last())
    }
}

/// `b` with its ASCII capitals made small.
pub open spec fn ascii_lower(b: Seq<u8>) -> Seq<u8> {
    Seq::new(
        b.len(),
        |i: int|
            if 0x41 <= b[i] <= 0x5A {
                (b[i] + 32) as u8
            } else {
                b[i]
            },
    )
}

/// The kind of the file `name`: its extension, letters in either case.
pub open spec fn name_kind(name: Seq<u8>) -> Option<FileKind> {
    kind_of(ascii_lower(last_segment(name)))
}

/// The kind of the file `filename` (see [`name_kind`]).
pub fn file_kind(filename: &str) -> (r: Option<FileKind>)
    ensures
        r == name_kind(filename.spec_bytes()),
{
    let b = filename.as_bytes();
    let mut start = b.len();
    assert(b@.take(start as int) =~= b@);
    assert(b@.subrange(start as int, b@.len() as int) =~= Seq::<u8>::empty());
    assert(last_segment(b@) + Seq::<u8>::empty() =~= last_segment(b@));
    while start > 0 && b[start - 1] != 0x2E
        invariant
            start <= b@.len(),
            last_segment(b@) == last_segment(b@.take(start as int)) + b@.subrange(start as int, b@.len() as int),
        decreases start,
    {
        let ghost t = b@.take(start as int);
        assert(t.drop_last() =~= b@.take(start - 1));
        assert(b@.subrange(start - 1, b@.len() as int) =~= seq![t.last()] + b@.subrange(start as int, b@.len() as int));
        assert(last_segment(t) == last_segment(t.drop_last()).push(t.last()));
        assert(last_segment(t.drop_last()).push(t.last()) + b@.subrange(start as int, b@.len() as int)
            =~= last_segment(t.drop_last()) + b@.subrange(start - 1, b@.len() as int));
        start = start - 1;
    }
    assert(last_segment(b@.take(start as int)) =~= Seq::<u8>::empty()) by {
        if start > 0 {
            assert(b@.take(start as int).last() == b@[start - 1]);
        }
    }
    let mut e: Vec<u8> = Vec::new();
    let mut i = start;
    while i < b.len()
        invariant
            start <= i <= b@.len(),
            e@ == ascii_lower(b@.subrange(start as int, i as int)),
        decreases b.len() - i,
    {
        let c = b[i];
        e.push(if 0x41 <= c && c <= 0x5A {
            c + 32
        } else {
            c
        });
        i = i + 1;
        assert(e@ =~= ascii_lower(b@.subrange(start as int, i as int)));
    }
    assert(last_segment(b@) =~= b@.subrange(start as int, b@.len() as int));
    kind_of_ext(e.as_slice())
}

/// The files a reader of kind `k` is defined on.
pub open spec fn load_defined(data: Seq<u8>, k: Option<FileKind>) -> bool {
    match k {
        Some(FileKind::Asc) => asc::parse_defined(data),
        Some(FileKind::As0) => asc::asc0_defined(data),
        Some(FileKind::Pt2) => pt2::parse_defined(data),
        Some(FileKind::Stp) => stp::parse_defined(data),
        Some(FileKind::Vtm) => vstd::utf8::valid_utf8(data) ==> vtm_read::parse_defined(data),
        _ => true,
    }
}

/// What reading `data` as a file of kind `k` gives: the VTM (UTF-8 text only),
/// PT3, PT2, PT1, ASC, STC, STP, GTR, FLS and ZXAY (first song) readers'
/// outcomes; the other kinds are refused as unsupported.
pub open spec fn load_outcome(data: Seq<u8>, k: Option<FileKind>, r: Result<crate::types::Module, FormatError>) -> bool {
    match k {
        Some(FileKind::Pt3) => pt3::parse_outcome(data, r),
        Some(FileKind::Asc) => asc::parse_outcome(data, r),
        Some(FileKind::As0) => asc::asc0_outcome(data, r),
        Some(FileKind::Stc) => stc::parse_outcome(data, r),
        Some(FileKind::Ay) => ay::parse_outcome(data, 0, r),
        Some(FileKind::Gtr) => gtr::parse_outcome(data, r),
        Some(FileKind::Fls) => fls::parse_outcome(data, r),
        Some(FileKind::Pt1) => pt1::parse_outcome(data, r),
        Some(FileKind::Pt2) => pt2::parse_outcome(data, r),
        Some(FileKind::Stp) => stp::parse_outcome(data, r),
        Some(FileKind::Sqt) => sqt::parse_outcome(data, r),
        Some(FileKind::Vtm) => if vstd::utf8::valid_utf8(data) {
            vtm_read::parse_outcome(data, r)
        } else {
            r == Err::<crate::types::Module, FormatError>(FormatError::InvalidUtf8)
        },
        _ => r == Err::<crate::types::Module, FormatError>(FormatError::UnsupportedFormat),
    }
}

fn load_kind(data: &[u8], k: Option<FileKind>) -> (r: Result<crate::types::Module, FormatError>)
    requires
        data@.len() <= isize::MAX,
        load_defined(data@, k),
    ensures
        load_outcome(data@, k, r),
{
    match k {
        Some(FileKind::Pt3) => pt3::parse(data),
        Some(FileKind::Asc) => asc::parse(data),
        Some(FileKind::As0) => asc::parse_asc0(data),
        Some(FileKind::Stc) => stc::parse(data),
        Some(FileKind::Ay) => ay::parse(data, 0),
        Some(FileKind::Gtr) => gtr::parse(data),
        Some(FileKind::Fls) => fls::parse(data),
        Some(FileKind::Pt1) => pt1::parse(data),
        Some(FileKind::Pt2) => pt2::parse(data),
        Some(FileKind::Stp) => stp::parse(data),
        Some(FileKind::Sqt) => sqt::parse(data),
        Some(FileKind::Vtm) => match str_from_utf8(data) {
            Some(t) => vtm_read::parse(t),
            None => Err(FormatError::InvalidUtf8),
        },
        _ => Err(FormatError::UnsupportedFormat),
    }
}

/// Read `data` as a file with the extension `ext` (exactly, in small
/// letters; see [`load_outcome`]).
pub fn load_by_ext(data: &[u8], ext: &str) -> (r: Result<crate::types::Module, FormatError>)
    requires
        data@.len() <= isize::MAX,
        load_defined(data@, kind_of(ext.spec_bytes())),
    ensures
        load_outcome(data@, kind_of(ext.spec_bytes()), r),
{
    load_kind(data, kind_of_ext(ext.as_bytes()))
}

/// Read `data` as a file named `filename`, its kind given by the extension
/// in either case (see [`load_outcome`]).
pub fn load(data: &[u8], filename: &str) -> (r: Result<crate::types::Module, FormatError>)
    requires
        data@.len() <= isize::MAX,
        load_defined(data@, name_kind(filename.spec_bytes())),
    ensures
        load_outcome(data@, name_kind(filename.spec_bytes()), r),
{
    load_kind(data, file_kind(filename))
}

/// The kind a TurboSound module kind (`STC!`, `ASC!`, `STP!`, `FLS!`,
/// `PT1!`, `PT2!`, `PT3!`, `SQT!`, `GTR!`) stands for.
pub open spec fn ts_kind(t: [u8; 4]) -> Option<FileKind> {
    if t[3] != 0x21 {
        None
    } else if t[0] == 0x53 && t[1] == 0x54 && t[2] == 0x43 {
        Some(FileKind::Stc)
    } else if t[0] == 0x41 && t[1] == 0x53 && t[2] == 0x43 {
        Some(FileKind::Asc)
    } else if t[0] == 0x53 && t[1] == 0x54 && t[2] == 0x50 {
        Some(FileKind::Stp)
    } else if t[0] == 0x46 && t[1] == 0x4C && t[2] == 0x53 {
        Some(FileKind::Fls)
    } else if t[0] == 0x50 && t[1] == 0x54 && t[2] == 0x31 {
        Some(FileKind::Pt1)
    } else if t[0] == 0x50 && t[1] == 0x54 && t[2] == 0x32 {
        Some(FileKind::Pt2)
    } else if t[0] == 0x50 && t[1] == 0x54 && t[2] == 0x33 {
        Some(FileKind::Pt3)
    } else if t[0] == 0x53 && t[1] == 0x51 && t[2] == 0x54 {
        Some(FileKind::Sqt)
    } else if t[0] == 0x47 && t[1] == 0x54 && t[2] == 0x52 {
        Some(FileKind::Gtr)
    } else {
        None
    }
}

fn ts_kind_exec(t: [u8; 4]) -> (r: Option<FileKind>)
    ensures
        r == ts_kind(t),
{
    if t[3] != 0x21 {
        None
    } else if t[0] == 0x53 && t[1] == 0x54 && t[2] == 0x43 {
        Some(FileKind::Stc)
    } else if t[0] == 0x41 && t[1] == 0x53 && t[2] == 0x43 {
        Some(FileKind::Asc)
    } else if t[0] == 0x53 && t[1] == 0x54 && t[2] == 0x50 {
        Some(FileKind::Stp)
    } else if t[0] == 0x46 && t[1] == 0x4C && t[2] == 0x53 {
        Some(FileKind::Fls)
    } else if t[0] == 0x50 && t[1] == 0x54 && t[2] == 0x31 {
        Some(FileKind::Pt1)
    } else if t[0] == 0x50 && t[1] == 0x54 && t[2] == 0x32 {
        Some(FileKind::Pt2)
    } else if t[0] == 0x50 && t[1] == 0x54 && t[2] == 0x33 {
        Some(FileKind::Pt3)
    } else if t[0] == 0x53 && t[1] == 0x51 && t[2] == 0x54 {
        Some(FileKind::Sqt)
    } else if t[0] == 0x47 && t[1] == 0x54 && t[2] == 0x52 {
        Some(FileKind::Gtr)
    } else {
        None
    }
}

/// The two modules of a TurboSound file, when its trailer names two known
/// kinds: the trailer, and the kinds.
pub open spec fn ts_pair(data: Seq<u8>) -> Option<(TsTrailer, FileKind, FileKind)> {
    match ts_trailer(data) {
        Some(ts) => match (ts_kind(ts.type1), ts_kind(ts.type2)) {
            (Some(k1), Some(k2)) => Some((ts, k1, k2)),
            _ => None,
        },
        None => None,
    }
}

/// The files [`load_modules`] is defined on: each part it reads must be one
/// its reader is defined on.
pub open spec fn modules_defined(data: Seq<u8>, name: Seq<u8>) -> bool {
    match ts_pair(data) {
        Some((ts, k1, k2)) => ts.size1 + ts.size2 + TS_TRAILER_SIZE <= data.len() ==> (load_defined(
            data.take(ts.size1 as int),
            Some(k1),
        ) && load_defined(data.subrange(ts.size1 as int, ts.size1 + ts.size2), Some(k2))),
        None => load_defined(data, name_kind(name)),
    }
}

/// What [`load_modules`] gives for `data` named `name`: for a TurboSound
/// file whose trailer names two known kinds, both modules in order (the
/// first's error first; trailer sizes beyond the file are refused);
/// otherwise the one module of the file.
pub open spec fn modules_outcome(
    data: Seq<u8>,
    name: Seq<u8>,
    r: Result<Vec<crate::types::Module>, FormatError>,
) -> bool {
    match ts_pair(data) {
        Some((ts, k1, k2)) => if ts.size1 + ts.size2 + TS_TRAILER_SIZE > data.len() {
            r == Err::<Vec<crate::types::Module>, FormatError>(FormatError::TsSizesExceedFile)
        } else {
            let d1 = data.take(ts.size1 as int);
            let d2 = data.subrange(ts.size1 as int, ts.size1 + ts.size2);
            match r {
                Ok(v) => v@.len() == 2 && load_outcome(d1, Some(k1), Ok(v@[0])) && load_outcome(
                    d2,
                    Some(k2),
                    Ok(v@[1]),
                ),
                Err(e) => load_outcome(d1, Some(k1), Err(e)) || ((forall|e1: FormatError|
                    !load_outcome(d1, Some(k1), Err(e1))) && load_outcome(d2, Some(k2), Err(e))),
            }
        },
        None => match r {
            Ok(v) => v@.len() == 1 && load_outcome(data, name_kind(name), Ok(v@[0])),
            Err(e) => load_outcome(data, name_kind(name), Err(e)),
        },
    }
}

/// Load one or two modules from a file: a TurboSound trailer (`02TS`) naming
/// two known kinds gives both modules, in order; any other file gives its
/// one module (see [`modules_outcome`]).
pub fn load_modules(data: &[u8], filename: &str) -> (r: Result<Vec<crate::types::Module>, FormatError>)
    requires
        data@.len() <= isize::MAX,
        modules_defined(data@, filename.spec_bytes()),
    ensures
        modules_outcome(data@, filename.spec_bytes(), r),
{
    let pair = match parse_ts_trailer(data) {
        Some(ts) => match (ts_kind_exec(ts.type1), ts_kind_exec(ts.type2)) {
            (Some(k1), Some(k2)) => Some((ts, k1, k2)),
            _ => None,
        },
        None => None,
    };
    match pair {
        Some((ts, k1, k2)) => {
            if ts.size1 + ts.size2 + TS_TRAILER_SIZE > data.len() {
                return Err(FormatError::TsSizesExceedFile);
            }
            let d1 = vstd::slice::slice_subrange(data, 0, ts.size1);
            assert(d1@ =~= data@.take(ts.size1 as int));
            let first = match load_kind(d1, Some(k1)) {
                Ok(m) => m,
                Err(e) => {
                    return Err(e);
                },
            };
            let d2 = vstd::slice::slice_subrange(data, ts.size1, ts.size1 + ts.size2);
            let second = match load_kind(d2, Some(k2)) {
                Ok(m) => m,
                Err(e) => {
                    proof {
                        assert forall|e1: FormatError| !load_outcome(d1@, Some(k1), Err(e1)) by {
                            crate::formats::lemma_outcome_ok_excludes_err(d1@, Some(k1), first, e1);
                        }
                    }
                    return Err(e);
                },
            };
            let mut v: Vec<crate::types::Module> = Vec::new();
            v.push(first);
            v.push(second);
            Ok(v)
        },
        None => {
            let m = match load(data, filename) {
                Ok(m) => m,
                Err(e) => {
                    return Err(e);
                },
            };
            let mut v: Vec<crate::types::Module> = Vec::new();
            v.push(m);
            Ok(v)
        },
    }
}

/// A reader's outcome is never both a module and an error.
pub proof fn lemma_outcome_ok_excludes_err(
    data: Seq<u8>,
    k: Option<FileKind>,
    m: crate::types::Module,
    e: FormatError,
)
    requires
        load_outcome(data, k, Ok(m)),
    ensures
        !load_outcome(data, k, Err(e)),
{
}


/// Whether a reader of kind `k` is defined on `data` (see [`load_defined`]).
pub fn load_defined_exec(data: &[u8], k: Option<FileKind>) -> (r: bool)
    requires
        data@.len() <= isize::MAX,
    ensures
        r == load_defined(data@, k),
{
    match k {
        Some(FileKind::Asc) => {
            if data.len() >= asc::ASC_MIN_FILE_SIZE {
                asc::ornaments_fit(data)
            } else {
                true
            }
        },
        Some(FileKind::As0) => {
            if asc::ASC_MIN_FILE_SIZE - 1 <= data.len() && data.len() < 65535 {
                let v = asc::asc0_bytes(data);
                asc::ornaments_fit(v.as_slice())
            } else {
                true
            }
        },
        Some(FileKind::Pt2) => pt2::readable(data),
        Some(FileKind::Stp) => stp::readable(data),
        Some(FileKind::Vtm) => match str_from_utf8(data) {
            Some(t) => vtm_read::readable(t),
            None => true,
        },
        _ => true,
    }
}

/// Whether [`load_modules`] is defined on `data` named `filename` (see
/// [`modules_defined`]).
pub fn modules_defined_exec(data: &[u8], filename: &str) -> (r: bool)
    requires
        data@.len() <= isize::MAX,
    ensures
        r == modules_defined(data@, filename.spec_bytes()),
{
    let pair = match parse_ts_trailer(data) {
        Some(ts) => match (ts_kind_exec(ts.type1), ts_kind_exec(ts.type2)) {
            (Some(k1), Some(k2)) => Some((ts, k1, k2)),
            _ => None,
        },
        None => None,
    };
    match pair {
        Some((ts, k1, k2)) => {
            if ts.size1 + ts.size2 + TS_TRAILER_SIZE > data.len() {
                return true;
            }
            let d1 = vstd::slice::slice_subrange(data, 0, ts.size1);
            assert(d1@ =~= data@.take(ts.size1 as int));
            let d2 = vstd::slice::slice_subrange(data, ts.size1, ts.size1 + ts.size2);
            load_defined_exec(d1, Some(k1)) && load_defined_exec(d2, Some(k2))
        },
        None => load_defined_exec(data, file_kind(filename)),
    }
}

/// [`load_modules`] where it is defined: `None` for the files on which it
/// is not (see [`modules_defined`]).
pub fn try_load_modules(data: &[u8], filename: &str) -> (r: Option<Result<Vec<crate::types::Module>, FormatError>>)
    requires
        data@.len() <= isize::MAX,
    ensures
        r is None <==> !modules_defined(data@, filename.spec_bytes()),
        r matches Some(x) ==> modules_outcome(data@, filename.spec_bytes(), x),
{
    if modules_defined_exec(data, filename) {
        Some(load_modules(data, filename))
    } else {
        None
    }
}

proof fn lemma_lower_segments(a: Seq<u8>, b: Seq<u8>)
    requires
        ascii_lower(a) == ascii_lower(b),
    ensures
        ascii_lower(last_segment(a)) == ascii_lower(last_segment(b)),
    decreases a.len(),
{
    assert(a.len() == ascii_lower(a).len() && b.len() == ascii_lower(b).len());
    if a.len() > 0 {
        let k = a.len() - 1;
        assert(ascii_lower(a)[k] == ascii_lower(b)[k]);
        assert(a.last() == a[k] && b.last() == b[k]);
        assert(ascii_lower(a)[k] == (if 0x41 <= a[k] <= 0x5A { (a[k] + 32) as u8 } else { a[k] }));
        assert(ascii_lower(b)[k] == (if 0x41 <= b[k] <= 0x5A { (b[k] + 32) as u8 } else { b[k] }));
        assert(a.last() == 0x2Eu8 <==> b.last() == 0x2Eu8);
        assert(ascii_lower(a.drop_last()) =~= ascii_lower(b.drop_last())) by {
            assert forall|q: int| 0 <= q < k implies #[trigger] ascii_lower(a.drop_last())[q] == ascii_lower(
                b.drop_last(),
            )[q] by {
                assert(ascii_lower(a)[q] == ascii_lower(b)[q]);
                assert(a.drop_last()[q] == a[q] && b.drop_last()[q] == b[q]);
                assert(ascii_lower(a.drop_last())[q] == ascii_lower(a)[q]);
                assert(ascii_lower(b.drop_last())[q] == ascii_lower(b)[q]);
            }
        }
        lemma_lower_segments(a.drop_last(), b.drop_last());
        if a.last() != 0x2Eu8 {
            let sa = last_segment(a.drop_last());
            let sb = last_segment(b.drop_last());
            assert(ascii_lower(sa.push(a.last())) =~= ascii_lower(sa).push(ascii_lower(a)[k]));
            assert(ascii_lower(sb.push(b.last())) =~= ascii_lower(sb).push(ascii_lower(b)[k]));
        }
    }
}

/// File names that differ only in the case of ASCII letters name the same
/// kind of file, so [`load`] reads data under either name the same way
/// (`A.PT3` as `a.pt3`).
pub proof fn lemma_kind_ignores_case(a: Seq<u8>, b: Seq<u8>)
    requires
        ascii_lower(a) == ascii_lower(b),
    ensures
        name_kind(a) == name_kind(b),
        forall|data: Seq<u8>| #[trigger] load_defined(data, name_kind(a)) == load_defined(data, name_kind(b)),
        forall|data: Seq<u8>, r: Result<crate::types::Module, FormatError>|
            #[trigger] load_outcome(data, name_kind(a), r) == load_outcome(data, name_kind(b), r),
{
    lemma_lower_segments(a, b);
}

/// A character of Unicode's White_Space property, the white space that
/// `str::trim` and `str::trim_end` remove: U+0009..U+000D, U+0020, U+0085,
/// U+00A0, U+1680, U+2000..U+200A, U+2028, U+2029, U+202F, U+205F, U+3000.
pub open spec fn is_white_space(c: char) -> bool {
    let u = c as u32;
    ||| 0x09 <= u <= 0x0D
    ||| u == 0x20
    ||| u == 0x85
    ||| u == 0xA0
    ||| u == 0x1680
    ||| 0x2000 <= u <= 0x200A
    ||| u == 0x2028
    ||| u == 0x2029
    ||| u == 0x202F
    ||| u == 0x205F
    ||| u == 0x3000
}

/// `s` without the white space at its start.
pub open spec fn trim_start_chars(s: Seq<char>) -> Seq<char>
    decreases s.len(),
{
    if s.len() > 0 && is_white_space(s[0]) {
        trim_start_chars(s.drop_first())
    } else {
        s
    }
}

/// `s` without the white space at its end.
pub open spec fn trim_end_chars(s: Seq<char>) -> Seq<char>
    decreases s.len(),
{
    if s.len() > 0 && is_white_space(s.last()) {
        trim_end_chars(s.drop_last())
    } else {
        s
    }
}

} // verus!
