//! Pro Tracker 3.xx (`*.pt3`) binary module files: reader and writer.
use crate::formats::FormatError;
use crate::types::{
    blank_tick, empty_cell, empty_row, AdditionalCommand, ChannelLine, FeaturesLevel, Module,
    Ornament, Pattern, PatternRow, Sample, SampleTick, MAX_NUM_OF_PATS, MAX_SAM_LEN,
    NOTE_SOUND_OFF,
};
use crate::formats::zx_export::{
    bytes_of, le16, name_field, push_all, push_le16, push_name_field, push_zeros, text_bytes, zeros,
};
use vstd::prelude::*;

verus! {

// ─── Header layout (absolute offsets) ────────────────────────────────────────
/// 32 bytes of title, space padded.
pub const OFF_TITLE: usize = 0x1E;
/// 32 bytes of author, space padded.
pub const OFF_AUTHOR: usize = 0x42;
/// Tone table index.
pub const OFF_TABLE: usize = 0x63;
/// Initial delay.
pub const OFF_DELAY: usize = 0x64;
/// Number of positions.
pub const OFF_NUM_POS: usize = 0x65;
/// Loop position.
pub const OFF_LOOP_POS: usize = 0x66;
/// Word: offset of the pattern table.
pub const OFF_PAT_PTR: usize = 0x67;
/// 32 words: sample offsets.
pub const OFF_SAM_PTRS: usize = 0x69;
/// 16 words: ornament offsets.
pub const OFF_ORN_PTRS: usize = 0xA9;
/// Position list, terminated by 0xFF.
pub const OFF_POS_LIST: usize = 0xC9;
/// Smallest file that holds a header and a one-entry position list.
pub const MIN_FILE_SIZE: usize = 0xCB;

// ─── Byte-level helpers ──────────────────────────────────────────────────────

/// The signed little-endian word `lo, hi`.
pub open spec fn word_i16(lo: u8, hi: u8) -> i16 {
    ((lo as int + 256 * hi as int) as u16) as i16
}

/// The unsigned big-endian word `hi, lo`.
pub open spec fn be_word(hi: u8, lo: u8) -> u16 {
    (hi as int * 256 + lo as int) as u16
}

/// The unsigned little-endian word at `off`.
pub open spec fn le_word(data: Seq<u8>, off: int) -> int {
    data[off] as int + 256 * data[off + 1] as int
}

fn read_word(data: &[u8], off: usize) -> (r: u16)
    requires
        off + 1 < data@.len(),
    ensures
        r == le_word(data@, off as int),
{
    data[off] as u16 + data[off + 1] as u16 * 256
}

// ─── Samples ─────────────────────────────────────────────────────────────────

/// A sample tick from its four bytes: flags and envelope/noise offset,
/// amplitude and mixer flags, then the signed tone offset.
pub open spec fn tick_from_bytes(b0: u8, b1: u8, lo: u8, hi: u8) -> SampleTick {
    let raw = b0 >> 1u8;
    SampleTick {
        add_to_ton: word_i16(lo, hi),
        ton_accumulation: b1 & 0x40u8 != 0,
        amplitude: b1 & 0x0Fu8,
        amplitude_sliding: b0 & 0x80u8 != 0,
        amplitude_slide_up: b0 & 0x40u8 != 0,
        envelope_enabled: b0 & 1u8 == 0,
        envelope_or_noise_accumulation: b1 & 0x20u8 != 0,
        add_to_envelope_or_noise: if raw & 0x10u8 != 0 {
            (raw | 0xF0u8) as i8
        } else {
            (raw & 0x0Fu8) as i8
        },
        mixer_ton: b1 & 0x10u8 == 0,
        mixer_noise: b1 & 0x80u8 == 0,
    }
}

/// Tick `j` of the sample encoded at the start of `data`.
pub open spec fn sample_tick_at(data: Seq<u8>, j: int) -> SampleTick {
    tick_from_bytes(data[2 + 4 * j], data[3 + 4 * j], data[4 + 4 * j], data[5 + 4 * j])
}

/// Why the sample encoded at the start of `data` cannot be read, if it cannot.
pub open spec fn sample_error(data: Seq<u8>) -> Option<FormatError> {
    if data.len() < 2 {
        Some(FormatError::TooShort)
    } else if data[1] > MAX_SAM_LEN {
        Some(FormatError::LengthOverflow)
    } else if 2 + 4 * data[1] > data.len() {
        Some(FormatError::Truncated)
    } else {
        None
    }
}

/// `s` is the sample encoded at the start of `data`: loop, length, then
/// four bytes per tick; the ticks past the length stay blank.
pub open spec fn sample_decodes(data: Seq<u8>, s: Sample) -> bool {
    &&& s.loop_pos == data[0]
    &&& s.length == data[1]
    &&& s.enabled
    &&& forall|j: int|
        0 <= j < 64 ==> #[trigger] s.items[j] == if j < data[1] {
            sample_tick_at(data, j)
        } else {
            blank_tick()
        }
}

fn decode_tick(b0: u8, b1: u8, lo: u8, hi: u8) -> (t: SampleTick)
    ensures
        t == tick_from_bytes(b0, b1, lo, hi),
{
    let raw = b0 >> 1u8;
    let aten: i8 = if raw & 0x10u8 != 0 {
        (raw | 0xF0u8) as i8
    } else {
        (raw & 0x0Fu8) as i8
    };
    let w: u16 = lo as u16 + hi as u16 * 256;
    SampleTick {
        add_to_ton: w as i16,
        ton_accumulation: b1 & 0x40u8 != 0,
        amplitude: b1 & 0x0Fu8,
        amplitude_sliding: b0 & 0x80u8 != 0,
        amplitude_slide_up: b0 & 0x40u8 != 0,
        envelope_enabled: b0 & 1u8 == 0,
        envelope_or_noise_accumulation: b1 & 0x20u8 != 0,
        add_to_envelope_or_noise: aten,
        mixer_ton: b1 & 0x10u8 == 0,
        mixer_noise: b1 & 0x80u8 == 0,
    }
}

/// Read the sample encoded at the start of `data`.
pub fn parse_sample(data: &[u8]) -> (r: Result<Sample, FormatError>)
    ensures
        match sample_error(data@) {
            Some(e) => r == Err::<Sample, FormatError>(e),
            None => r matches Ok(s) && sample_decodes(data@, s),
        },
{
    if data.len() < 2 {
        return Err(FormatError::TooShort);
    }
    let mut sam = Sample::default();
    sam.loop_pos = data[0];
    sam.length = data[1];
    if sam.length as usize > MAX_SAM_LEN {
        return Err(FormatError::LengthOverflow);
    }
    let n = sam.length as usize;
    let mut j: usize = 0;
    while j < n
        invariant
            n == data@[1] <= 64,
            data@.len() >= 2,
            j <= n,
            j > 0 ==> 2 + 4 * j <= data@.len(),
            sam.loop_pos == data@[0],
            sam.length == data@[1],
            sam.enabled,
            forall|k: int| 0 <= k < j ==> #[trigger] sam.items[k] == sample_tick_at(data@, k),
            forall|k: int| j <= k < 64 ==> #[trigger] sam.items[k] == blank_tick(),
        decreases n - j,
    {
        let base = 2 + j * 4;
        if base + 3 >= data.len() {
            return Err(FormatError::Truncated);
        }
        let t = decode_tick(data[base], data[base + 1], data[base + 2], data[base + 3]);
        sam.items[j] = t;
        j = j + 1;
    }
    Ok(sam)
}

// ─── Ornaments ───────────────────────────────────────────────────────────────

/// Why the ornament encoded at the start of `data` cannot be read, if it cannot.
pub open spec fn ornament_error(data: Seq<u8>) -> Option<FormatError> {
    if data.len() < 2 {
        Some(FormatError::TooShort)
    } else if 2 + data[1] > data.len() {
        Some(FormatError::Truncated)
    } else {
        None
    }
}

/// `o` is the ornament encoded at the start of `data`: loop, length, then
/// one signed step per entry; the entries past the length stay 0.
pub open spec fn ornament_decodes(data: Seq<u8>, o: Ornament) -> bool {
    &&& o.loop_pos == data[0]
    &&& o.length == data[1]
    &&& forall|i: int|
        0 <= i < 255 ==> #[trigger] o.items[i] == if i < data[1] {
            data[2 + i] as i8
        } else {
            0i8
        }
}

/// Read the ornament encoded at the start of `data`.
pub fn parse_ornament(data: &[u8]) -> (r: Result<Ornament, FormatError>)
    ensures
        match ornament_error(data@) {
            Some(e) => r == Err::<Ornament, FormatError>(e),
            None => r matches Ok(o) && ornament_decodes(data@, o),
        },
{
    if data.len() < 2 {
        return Err(FormatError::TooShort);
    }
    let mut orn = Ornament::default();
    orn.loop_pos = data[0] as usize;
    orn.length = data[1] as usize;
    let n = orn.length;
    let mut i: usize = 0;
    while i < n
        invariant
            n == data@[1],
            data@.len() >= 2,
            i <= n,
            i > 0 ==> 2 + i <= data@.len(),
            orn.loop_pos == data@[0],
            orn.length == data@[1],
            forall|k: int| 0 <= k < i ==> #[trigger] orn.items[k] == data@[2 + k] as i8,
            forall|k: int| i <= k < 255 ==> #[trigger] orn.items[k] == 0i8,
        decreases n - i,
    {
        if 2 + i >= data.len() {
            return Err(FormatError::Truncated);
        }
        orn.items[i] = data[2 + i] as i8;
        i = i + 1;
    }
    Ok(orn)
}

// ─── Pattern bytecode ────────────────────────────────────────────────────────

/// The commands of one channel for one row, read from `ptr` up to and
/// including the note, rest or sound-off byte that ends the row.  The state
/// is the position, the last ornament set, the row skip, the noise base, the
/// cell and the row's envelope period.
pub open spec fn interp_loop(
    data: Seq<u8>,
    ptr: int,
    prev_orn: u8,
    skip: u8,
    ns: u8,
    cl: ChannelLine,
    env: u16,
) -> Result<(int, u8, u8, u8, ChannelLine, u16), FormatError>
    decreases data.len() - ptr,
{
    if !(0 <= ptr < data.len()) {
        Err(FormatError::Truncated)
    } else {
        let b = data[ptr];
        let p = ptr + 1;
        if b >= 0xF0 {
            if p >= data.len() {
                Err(FormatError::Truncated)
            } else {
                let orn = (b - 0xF0) as u8;
                interp_loop(
                    data,
                    p + 1,
                    orn,
                    skip,
                    ns,
                    ChannelLine { envelope: 15, ornament: orn, sample: data[p] / 2, ..cl },
                    env,
                )
            }
        } else if b >= 0xD1 {
            interp_loop(data, p, prev_orn, skip, ns, ChannelLine { sample: (b - 0xD0) as u8, ..cl }, env)
        } else if b == 0xD0 {
            Ok((p, prev_orn, skip, ns, cl, env))
        } else if b >= 0xC1 {
            interp_loop(data, p, prev_orn, skip, ns, ChannelLine { volume: (b - 0xC0) as u8, ..cl }, env)
        } else if b == 0xC0 {
            Ok((p, prev_orn, skip, ns, ChannelLine { note: NOTE_SOUND_OFF, ..cl }, env))
        } else if b >= 0xB2 {
            if p + 1 >= data.len() {
                Err(FormatError::Truncated)
            } else {
                interp_loop(
                    data,
                    p + 2,
                    prev_orn,
                    skip,
                    ns,
                    ChannelLine { envelope: (b - 0xB1) as u8, ornament: prev_orn, ..cl },
                    be_word(data[p], data[p + 1]),
                )
            }
        } else if b == 0xB1 {
            if p >= data.len() {
                Err(FormatError::Truncated)
            } else {
                interp_loop(data, p + 1, prev_orn, data[p], ns, cl, env)
            }
        } else if b == 0xB0 {
            interp_loop(data, p, prev_orn, skip, ns, ChannelLine { envelope: 15, ornament: prev_orn, ..cl }, env)
        } else if b >= 0x50 {
            Ok((p, prev_orn, skip, ns, ChannelLine { note: (b - 0x50) as i8, ..cl }, env))
        } else if b >= 0x40 {
            let orn = (b - 0x40) as u8;
            let e = if b == 0x40 && cl.envelope == 0 {
                15u8
            } else {
                cl.envelope
            };
            interp_loop(data, p, orn, skip, ns, ChannelLine { envelope: e, ornament: orn, ..cl }, env)
        } else if b >= 0x20 {
            interp_loop(data, p, prev_orn, skip, (b - 0x20) as u8, cl, env)
        } else if b == 0x10 {
            if p >= data.len() {
                Err(FormatError::Truncated)
            } else {
                interp_loop(
                    data,
                    p + 1,
                    prev_orn,
                    skip,
                    ns,
                    ChannelLine { envelope: 15, ornament: prev_orn, sample: data[p] / 2, ..cl },
                    env,
                )
            }
        } else if b >= 0x11 {
            if p + 2 >= data.len() {
                Err(FormatError::Truncated)
            } else {
                interp_loop(
                    data,
                    p + 3,
                    prev_orn,
                    skip,
                    ns,
                    ChannelLine {
                        envelope: (b - 0x10) as u8,
                        ornament: prev_orn,
                        sample: data[p + 2] / 2,
                        ..cl
                    },
                    be_word(data[p], data[p + 1]),
                )
            }
        } else if b == 8 || b == 9 || (1 <= b <= 5) {
            interp_loop(
                data,
                p,
                prev_orn,
                skip,
                ns,
                ChannelLine {
                    additional_command: AdditionalCommand { number: b, ..cl.additional_command },
                    ..cl
                },
                env,
            )
        } else {
            interp_loop(data, p, prev_orn, skip, ns, cl, env)
        }
    }
}

/// The low byte of the magnitude of `v`.
pub open spec fn magnitude_byte(v: i16) -> u8 {
    if v < 0 {
        ((-(v as int)) % 256) as u8
    } else {
        (v as int % 256) as u8
    }
}

/// `cl` with command number, delay and parameter replaced.
pub open spec fn with_command(cl: ChannelLine, number: u8, delay: u8, parameter: u8) -> ChannelLine {
    ChannelLine {
        additional_command: AdditionalCommand { number, delay, parameter },
        ..cl
    }
}

/// The parameter bytes that follow the row's note for the command the row
/// set, read from `ptr`; the command is renumbered to the tracker's own
/// numbering.
pub open spec fn post_note(data: Seq<u8>, ptr: int, cl: ChannelLine) -> Result<
    (int, ChannelLine),
    FormatError,
> {
    let c = cl.additional_command;
    if c.number == 1 {
        if !(0 <= ptr && ptr + 2 < data.len()) {
            Err(FormatError::Truncated)
        } else {
            let tmp = word_i16(data[ptr + 1], data[ptr + 2]);
            Ok(
                (
                    ptr + 3,
                    with_command(
                        cl,
                        if tmp < 0 {
                            2u8
                        } else {
                            1u8
                        },
                        data[ptr],
                        magnitude_byte(tmp),
                    ),
                ),
            )
        }
    } else if c.number == 2 {
        if !(0 <= ptr && ptr + 4 < data.len()) {
            Err(FormatError::Truncated)
        } else {
            let tmp = word_i16(data[ptr + 3], data[ptr + 4]);
            Ok((ptr + 5, with_command(cl, 3, data[ptr], magnitude_byte(tmp))))
        }
    } else if c.number == 3 || c.number == 4 {
        if !(0 <= ptr < data.len()) {
            Err(FormatError::Truncated)
        } else {
            Ok((ptr + 1, with_command(cl, (c.number + 1) as u8, c.delay, data[ptr])))
        }
    } else if c.number == 5 {
        if !(0 <= ptr && ptr + 1 < data.len()) {
            Err(FormatError::Truncated)
        } else {
            Ok(
                (
                    ptr + 2,
                    with_command(
                        cl,
                        6,
                        c.delay,
                        (data[ptr] << 4u8) | (data[ptr + 1] & 0x0Fu8),
                    ),
                ),
            )
        }
    } else if c.number == 8 {
        if !(0 <= ptr && ptr + 2 < data.len()) {
            Err(FormatError::Truncated)
        } else {
            let tmp = word_i16(data[ptr + 1], data[ptr + 2]);
            Ok(
                (
                    ptr + 3,
                    with_command(
                        cl,
                        if tmp < 0 {
                            10u8
                        } else {
                            9u8
                        },
                        data[ptr],
                        magnitude_byte(tmp),
                    ),
                ),
            )
        }
    } else if c.number == 9 {
        if !(0 <= ptr < data.len()) {
            Err(FormatError::Truncated)
        } else {
            Ok((ptr + 1, with_command(cl, 11, c.delay, data[ptr])))
        }
    } else {
        Ok((ptr, cl))
    }
}

/// The parameter bytes after a row's note, read as the tracker's commands:
/// - PT3 command 5 (on/off) with bytes `x`, `y` is command 6 whose parameter
///   has the on time `x` in its high and the off time `y` in its low nibble;
/// - PT3 commands 3 and 4 (sample and ornament offsets) are commands 4 and
///   5 with the next byte as parameter, PT3 command 9 (speed) is command 11;
/// each keeps the note, sample, envelope, ornament and volume of the cell,
/// and a byte too few is refused as truncated.
pub proof fn lemma_post_note_params(data: Seq<u8>, ptr: int, cl: ChannelLine)
    requires
        0 <= ptr,
    ensures
        cl.additional_command.number == 5 ==> post_note(data, ptr, cl) == if ptr + 1 < data.len() {
            Ok::<(int, ChannelLine), FormatError>(
                (
                    ptr + 2,
                    ChannelLine {
                        additional_command: AdditionalCommand {
                            number: 6,
                            delay: cl.additional_command.delay,
                            parameter: ((data[ptr] as int % 16) * 16 + data[ptr + 1] as int % 16) as u8,
                        },
                        ..cl
                    },
                ),
            )
        } else {
            Err(FormatError::Truncated)
        },
        (cl.additional_command.number == 3 || cl.additional_command.number == 4 || cl.additional_command.number == 9)
            ==> post_note(data, ptr, cl) == if ptr < data.len() {
            Ok::<(int, ChannelLine), FormatError>(
                (
                    ptr + 1,
                    ChannelLine {
                        additional_command: AdditionalCommand {
                            number: if cl.additional_command.number == 9 {
                                11
                            } else {
                                (cl.additional_command.number + 1) as u8
                            },
                            delay: cl.additional_command.delay,
                            parameter: data[ptr],
                        },
                        ..cl
                    },
                ),
            )
        } else {
            Err(FormatError::Truncated)
        },
{
    if cl.additional_command.number == 5 && ptr + 1 < data.len() {
        let x = data[ptr];
        let y = data[ptr + 1];
        assert((x << 4u8) | (y & 0x0Fu8) == ((x % 16) * 16 + y % 16) as u8) by (bit_vector);
    }
}

/// An on/off cell (command 6) reads back as written: the last two bytes the
/// writer puts after its note, read after a PT3 command 5, give the cell
/// back with the same on and off times.
pub proof fn lemma_on_off_reads_back(
    cl: ChannelLine,
    lvl_ge1: bool,
    dl: int,
    skip: int,
    p: EncPrev,
    rest: Seq<u8>,
)
    requires
        cl.additional_command.number == 6,
    ensures
        ({
            let t = tail_bytes(cl, lvl_ge1, dl, skip, p).0;
            let read = ChannelLine {
                additional_command: AdditionalCommand { number: 5, ..cl.additional_command },
                ..cl
            };
            &&& t.len() >= 2
            &&& post_note(t.subrange(t.len() - 2, t.len() as int) + rest, 0, read) == Ok::<
                (int, ChannelLine),
                FormatError,
            >((2, cl))
        }),
{
    let t = tail_bytes(cl, lvl_ge1, dl, skip, p).0;
    let q = cl.additional_command.parameter;
    let d = t.subrange(t.len() - 2, t.len() as int) + rest;
    assert(d[0] == q / 16 && d[1] == q % 16);
    let read = ChannelLine { additional_command: AdditionalCommand { number: 5, ..cl.additional_command }, ..cl };
    lemma_post_note_params(d, 0, read);
    assert(((q / 16) as int % 16) * 16 + (q % 16) as int % 16 == q as int);
}

/// The bytes of a channel's row, one at a time: `0x50 + n` (n up to 95)
/// ends the row with note `n`; `0xC0` ends it with the sound off; `0xD0`
/// ends it leaving the note; `0xC0 + v` (v 1..15) sets the volume to `v`,
/// `0xD0 + s` (s 1..31) the sample to `s`, and reading goes on with the next
/// byte.
pub proof fn lemma_row_bytes(data: Seq<u8>, ptr: int, prev_orn: u8, skip: u8, ns: u8, cl: ChannelLine, env: u16)
    requires
        0 <= ptr < data.len(),
    ensures
        0x50 <= data[ptr] <= 0xAF ==> interp_loop(data, ptr, prev_orn, skip, ns, cl, env) == Ok::<
            (int, u8, u8, u8, ChannelLine, u16),
            FormatError,
        >((ptr + 1, prev_orn, skip, ns, ChannelLine { note: (data[ptr] as int - 0x50) as i8, ..cl }, env)),
        data[ptr] == 0xC0 ==> interp_loop(data, ptr, prev_orn, skip, ns, cl, env) == Ok::<
            (int, u8, u8, u8, ChannelLine, u16),
            FormatError,
        >((ptr + 1, prev_orn, skip, ns, ChannelLine { note: NOTE_SOUND_OFF, ..cl }, env)),
        data[ptr] == 0xD0 ==> interp_loop(data, ptr, prev_orn, skip, ns, cl, env) == Ok::<
            (int, u8, u8, u8, ChannelLine, u16),
            FormatError,
        >((ptr + 1, prev_orn, skip, ns, cl, env)),
        0xC1 <= data[ptr] <= 0xCF ==> interp_loop(data, ptr, prev_orn, skip, ns, cl, env) == interp_loop(
            data,
            ptr + 1,
            prev_orn,
            skip,
            ns,
            ChannelLine { volume: (data[ptr] as int - 0xC0) as u8, ..cl },
            env,
        ),
        0xD1 <= data[ptr] <= 0xEF ==> interp_loop(data, ptr, prev_orn, skip, ns, cl, env) == interp_loop(
            data,
            ptr + 1,
            prev_orn,
            skip,
            ns,
            ChannelLine { sample: (data[ptr] as int - 0xD0) as u8, ..cl },
            env,
        ),
{
}

/// The note byte the writer puts for a note (see [`tail_bytes`]) ends the
/// row with that note, the sound-off and no-note bytes with the sound off
/// and with the note left.
pub proof fn lemma_note_byte_reads_back(
    cl: ChannelLine,
    lvl_ge1: bool,
    dl: int,
    skip: int,
    p: EncPrev,
    rest: Seq<u8>,
    prev_orn: u8,
    sk: u8,
    ns: u8,
    cl0: ChannelLine,
    env: u16,
)
    requires
        -2 <= cl.note <= 95,
    ensures
        ({
            let t = tail_bytes(cl, lvl_ge1, dl, skip, p).0;
            let k: int = if skip != p.skip_prev { 2 } else { 0 };
            let d = t.subrange(k, t.len() as int) + rest;
            &&& t.len() > k
            &&& interp_loop(d, 0, prev_orn, sk, ns, cl0, env) == Ok::<(int, u8, u8, u8, ChannelLine, u16), FormatError>(
                (1, prev_orn, sk, ns, if cl.note == crate::types::NOTE_NONE {
                    cl0
                } else {
                    ChannelLine { note: cl.note, ..cl0 }
                }, env),
            )
        }),
{
    let t = tail_bytes(cl, lvl_ge1, dl, skip, p).0;
    let k: int = if skip != p.skip_prev { 2 } else { 0 };
    let d = t.subrange(k, t.len() as int) + rest;
    assert(d[0] == t[k]);
    lemma_row_bytes(d, 0, prev_orn, sk, ns, cl0, env);
}

/// One channel's part of one row: its commands, then its command parameters.
/// The result is the new position, last ornament, skip, noise base and row.
pub open spec fn chan_step(
    data: Seq<u8>,
    ptr: int,
    prev_orn: u8,
    skip: u8,
    ns: u8,
    row: PatternRow,
    ch: int,
) -> Result<(int, u8, u8, u8, PatternRow), FormatError> {
    match interp_loop(data, ptr, prev_orn, skip, ns, row.channel[ch], row.envelope) {
        Err(e) => Err(e),
        Ok((p, po, sk, n2, cl, env)) => match post_note(data, p, cl) {
            Err(e) => Err(e),
            Ok((p2, cl2)) => Ok(
                (
                    p2,
                    po,
                    sk,
                    n2,
                    PatternRow {
                        envelope: env,
                        channel: vstd::array::spec_array_update(row.channel, ch, cl2),
                        ..row
                    },
                ),
            ),
        },
    }
}

fn interp_loop_exec(
    data: &[u8],
    ptr0: usize,
    prev_orn0: u8,
    skip0: u8,
    ns0: u8,
    cl0: ChannelLine,
    env0: u16,
) -> (r: Result<(usize, u8, u8, u8, ChannelLine, u16), FormatError>)
    ensures
        match (r, interp_loop(data@, ptr0 as int, prev_orn0, skip0, ns0, cl0, env0)) {
            (Ok(a), Ok(b)) => a.0 as int == b.0 && a.1 == b.1 && a.2 == b.2 && a.3 == b.3 && a.4
                == b.4 && a.5 == b.5,
            (Err(x), Err(y)) => x == y,
            _ => false,
        },
{
    let ghost target = interp_loop(data@, ptr0 as int, prev_orn0, skip0, ns0, cl0, env0);
    let mut ptr = ptr0;
    let mut prev_orn = prev_orn0;
    let mut skip = skip0;
    let mut ns = ns0;
    let mut cl = cl0;
    let mut env = env0;
    loop
        invariant_except_break
            interp_loop(data@, ptr as int, prev_orn, skip, ns, cl, env) == target,
        invariant
            target == interp_loop(data@, ptr0 as int, prev_orn0, skip0, ns0, cl0, env0),
        ensures
            target == Ok::<(int, u8, u8, u8, ChannelLine, u16), FormatError>(
                (ptr as int, prev_orn, skip, ns, cl, env),
            ),
        decreases data@.len() - ptr,
    {
        if ptr >= data.len() {
            return Err(FormatError::Truncated);
        }
        let b = data[ptr];
        let p = ptr + 1;
        if b >= 0xF0 {
            if p >= data.len() {
                return Err(FormatError::Truncated);
            }
            prev_orn = b - 0xF0;
            cl = ChannelLine { envelope: 15, ornament: prev_orn, sample: data[p] / 2, ..cl };
            ptr = p + 1;
        } else if b >= 0xD1 {
            cl = ChannelLine { sample: b - 0xD0, ..cl };
            ptr = p;
        } else if b == 0xD0 {
            ptr = p;
            break ;
        } else if b >= 0xC1 {
            cl = ChannelLine { volume: b - 0xC0, ..cl };
            ptr = p;
        } else if b == 0xC0 {
            cl = ChannelLine { note: NOTE_SOUND_OFF, ..cl };
            ptr = p;
            break ;
        } else if b >= 0xB2 {
            if data.len() - p <= 1 {
                return Err(FormatError::Truncated);
            }
            cl = ChannelLine { envelope: b - 0xB1, ornament: prev_orn, ..cl };
            env = data[p] as u16 * 256 + data[p + 1] as u16;
            ptr = p + 2;
        } else if b == 0xB1 {
            if p >= data.len() {
                return Err(FormatError::Truncated);
            }
            skip = data[p];
            ptr = p + 1;
        } else if b == 0xB0 {
            cl = ChannelLine { envelope: 15, ornament: prev_orn, ..cl };
            ptr = p;
        } else if b >= 0x50 {
            cl = ChannelLine { note: (b - 0x50) as i8, ..cl };
            ptr = p;
            break ;
        } else if b >= 0x40 {
            let e = if b == 0x40 && cl.envelope == 0 {
                15u8
            } else {
                cl.envelope
            };
            prev_orn = b - 0x40;
            cl = ChannelLine { envelope: e, ornament: prev_orn, ..cl };
            ptr = p;
        } else if b >= 0x20 {
            ns = b - 0x20;
            ptr = p;
        } else if b == 0x10 {
            if p >= data.len() {
                return Err(FormatError::Truncated);
            }
            cl = ChannelLine { envelope: 15, ornament: prev_orn, sample: data[p] / 2, ..cl };
            ptr = p + 1;
        } else if b >= 0x11 {
            if data.len() - p <= 2 {
                return Err(FormatError::Truncated);
            }
            cl = ChannelLine {
                envelope: b - 0x10,
                ornament: prev_orn,
                sample: data[p + 2] / 2,
                ..cl
            };
            env = data[p] as u16 * 256 + data[p + 1] as u16;
            ptr = p + 3;
        } else if b == 8 || b == 9 || (1 <= b && b <= 5) {
            cl = ChannelLine {
                additional_command: AdditionalCommand { number: b, ..cl.additional_command },
                ..cl
            };
            ptr = p;
        } else {
            ptr = p;
        }
    }
    Ok((ptr, prev_orn, skip, ns, cl, env))
}

fn word_i16_exec(lo: u8, hi: u8) -> (r: i16)
    ensures
        r == word_i16(lo, hi),
{
    let w: u16 = lo as u16 + hi as u16 * 256;
    w as i16
}

fn magnitude_byte_exec(v: i16) -> (r: u8)
    ensures
        r == magnitude_byte(v),
{
    if v < 0 {
        ((-(v as i32)) % 256) as u8
    } else {
        (v % 256) as u8
    }
}

fn post_note_exec(data: &[u8], ptr: usize, cl: ChannelLine) -> (r: Result<
    (usize, ChannelLine),
    FormatError,
>)
    ensures
        match (r, post_note(data@, ptr as int, cl)) {
            (Ok(a), Ok(b)) => a.0 as int == b.0 && a.1 == b.1,
            (Err(x), Err(y)) => x == y,
            _ => false,
        },
{
    let c = cl.additional_command;
    if c.number == 1 {
        if ptr >= data.len() || data.len() - ptr <= 2 {
            return Err(FormatError::Truncated);
        }
        let tmp = word_i16_exec(data[ptr + 1], data[ptr + 2]);
        let n: u8 = if tmp < 0 {
            2
        } else {
            1
        };
        Ok(
            (
                ptr + 3,
                ChannelLine {
                    additional_command: AdditionalCommand {
                        number: n,
                        delay: data[ptr],
                        parameter: magnitude_byte_exec(tmp),
                    },
                    ..cl
                },
            ),
        )
    } else if c.number == 2 {
        if ptr >= data.len() || data.len() - ptr <= 4 {
            return Err(FormatError::Truncated);
        }
        let tmp = word_i16_exec(data[ptr + 3], data[ptr + 4]);
        Ok(
            (
                ptr + 5,
                ChannelLine {
                    additional_command: AdditionalCommand {
                        number: 3,
                        delay: data[ptr],
                        parameter: magnitude_byte_exec(tmp),
                    },
                    ..cl
                },
            ),
        )
    } else if c.number == 3 || c.number == 4 {
        if ptr >= data.len() {
            return Err(FormatError::Truncated);
        }
        Ok(
            (
                ptr + 1,
                ChannelLine {
                    additional_command: AdditionalCommand {
                        number: c.number + 1,
                        delay: c.delay,
                        parameter: data[ptr],
                    },
                    ..cl
                },
            ),
        )
    } else if c.number == 5 {
        if ptr >= data.len() || data.len() - ptr <= 1 {
            return Err(FormatError::Truncated);
        }
        Ok(
            (
                ptr + 2,
                ChannelLine {
                    additional_command: AdditionalCommand {
                        number: 6,
                        delay: c.delay,
                        parameter: (data[ptr] << 4u8) | (data[ptr + 1] & 0x0Fu8),
                    },
                    ..cl
                },
            ),
        )
    } else if c.number == 8 {
        if ptr >= data.len() || data.len() - ptr <= 2 {
            return Err(FormatError::Truncated);
        }
        let tmp = word_i16_exec(data[ptr + 1], data[ptr + 2]);
        let n: u8 = if tmp < 0 {
            10
        } else {
            9
        };
        Ok(
            (
                ptr + 3,
                ChannelLine {
                    additional_command: AdditionalCommand {
                        number: n,
                        delay: data[ptr],
                        parameter: magnitude_byte_exec(tmp),
                    },
                    ..cl
                },
            ),
        )
    } else if c.number == 9 {
        if ptr >= data.len() {
            return Err(FormatError::Truncated);
        }
        Ok(
            (
                ptr + 1,
                ChannelLine {
                    additional_command: AdditionalCommand {
                        number: 11,
                        delay: c.delay,
                        parameter: data[ptr],
                    },
                    ..cl
                },
            ),
        )
    } else {
        Ok((ptr, cl))
    }
}

/// Decode one channel's commands for one row (see [`chan_step`]).
pub fn pattern_interpreter(
    data: &[u8],
    ptr: usize,
    prev_orn: u8,
    skip: u8,
    ns: u8,
    row: PatternRow,
    ch: usize,
) -> (r: Result<(usize, u8, u8, u8, PatternRow), FormatError>)
    requires
        ch < 3,
    ensures
        match (r, chan_step(data@, ptr as int, prev_orn, skip, ns, row, ch as int)) {
            (Ok(a), Ok(b)) => a.0 as int == b.0 && a.1 == b.1 && a.2 == b.2 && a.3 == b.3 && a.4
                == b.4,
            (Err(x), Err(y)) => x == y,
            _ => false,
        },
{
    let (p, po, sk, n2, cl, env) = match interp_loop_exec(
        data,
        ptr,
        prev_orn,
        skip,
        ns,
        row.channel[ch],
        row.envelope,
    ) {
        Ok(t) => t,
        Err(e) => {
            return Err(e);
        },
    };
    let (p2, cl2) = match post_note_exec(data, p, cl) {
        Ok(t) => t,
        Err(e) => {
            return Err(e);
        },
    };
    let mut out = row;
    out.envelope = env;
    out.channel[ch] = cl2;
    assert(out.channel =~= vstd::array::spec_array_update(row.channel, ch as int, cl2));
    Ok((p2, po, sk, n2, out))
}

// ─── Patterns ────────────────────────────────────────────────────────────────

/// Where one channel's decoding stands: its position in the data, the last
/// ornament set, its row skip and the rows left before its next command.
#[derive(Clone, Copy, PartialEq, Eq, Structural)]
pub struct ChanCursor {
    pub ptr: usize,
    pub prev_orn: u8,
    pub skip: u8,
    pub counter: u8,
}

/// A channel's cursor before the first row of a pattern.
pub open spec fn start_cursor(ptr: usize) -> ChanCursor {
    ChanCursor { ptr, prev_orn: 0, skip: 1, counter: 1 }
}

/// What one channel's turn in a row gives.
pub enum ChanOutcome {
    /// Channel A reached the end-of-pattern byte.
    Stop,
    /// The channel's new cursor, the noise base and the row.
    Done(ChanCursor, u8, PatternRow),
    /// The channel's data is malformed.
    Fail(FormatError),
}

/// One channel's turn in a row: its counter counts down (wrapping), and at
/// zero the channel reads its commands for this row (channel A first checks
/// for the end of the pattern) and restarts the counter at its skip.
pub open spec fn row_chan(data: Seq<u8>, c: ChanCursor, ns: u8, row: PatternRow, ch: int) -> ChanOutcome {
    let cnt = ((c.counter as int - 1) % 256) as u8;
    if cnt != 0 {
        ChanOutcome::Done(ChanCursor { counter: cnt, ..c }, ns, row)
    } else if ch == 0 && (c.ptr >= data.len() || data[c.ptr as int] == 0) {
        ChanOutcome::Stop
    } else {
        match chan_step(data, c.ptr as int, c.prev_orn, c.skip, ns, row, ch) {
            Err(e) => ChanOutcome::Fail(e),
            Ok((p, po, sk, n2, r2)) => ChanOutcome::Done(
                ChanCursor { ptr: p as usize, prev_orn: po, skip: sk, counter: sk },
                n2,
                r2,
            ),
        }
    }
}

/// The rows of a pattern decoded from row `i` on: the pattern's length and
/// its rows, each row ending with the noise base in force.
pub open spec fn decode_rows(
    data: Seq<u8>,
    a: ChanCursor,
    b: ChanCursor,
    c: ChanCursor,
    ns: u8,
    i: int,
    items: Seq<PatternRow>,
) -> Result<(int, Seq<PatternRow>), FormatError>
    decreases 256 - i,
{
    if i >= 256 || i < 0 {
        Ok((i, items))
    } else {
        match row_chan(data, a, ns, items[i], 0) {
            ChanOutcome::Stop => Ok((i, items)),
            ChanOutcome::Fail(e) => Err(e),
            ChanOutcome::Done(a2, ns1, r1) => match row_chan(data, b, ns1, r1, 1) {
                ChanOutcome::Stop => Ok((i, items)),
                ChanOutcome::Fail(e) => Err(e),
                ChanOutcome::Done(b2, ns2, r2) => match row_chan(data, c, ns2, r2, 2) {
                    ChanOutcome::Stop => Ok((i, items)),
                    ChanOutcome::Fail(e) => Err(e),
                    ChanOutcome::Done(c2, ns3, r3) => decode_rows(
                        data,
                        a2,
                        b2,
                        c2,
                        ns3,
                        i + 1,
                        items.update(i, PatternRow { noise: ns3, ..r3 }),
                    ),
                },
            },
        }
    }
}

/// The 256 empty rows a pattern starts from.
pub open spec fn empty_rows() -> Seq<PatternRow> {
    Seq::new(256, |k: int| empty_row())
}

/// `p` is the pattern whose three channel streams start at `ptrs`.
pub open spec fn pattern_decodes(data: Seq<u8>, ptrs: [usize; 3], p: Pattern) -> bool {
    decode_rows(
        data,
        start_cursor(ptrs[0]),
        start_cursor(ptrs[1]),
        start_cursor(ptrs[2]),
        0,
        0,
        empty_rows(),
    ) == Ok::<(int, Seq<PatternRow>), FormatError>((p.length as int, p.items@))
}

fn row_chan_exec(data: &[u8], c: ChanCursor, ns: u8, row: PatternRow, ch: usize) -> (r: ChanOutcome)
    requires
        ch < 3,
    ensures
        r == row_chan(data@, c, ns, row, ch as int),
{
    let cnt = c.counter.wrapping_sub(1);
    if cnt != 0 {
        return ChanOutcome::Done(ChanCursor { counter: cnt, ..c }, ns, row);
    }
    if ch == 0 && (c.ptr >= data.len() || data[c.ptr] == 0) {
        return ChanOutcome::Stop;
    }
    match pattern_interpreter(data, c.ptr, c.prev_orn, c.skip, ns, row, ch) {
        Err(e) => ChanOutcome::Fail(e),
        Ok((p, po, sk, n2, r2)) => ChanOutcome::Done(
            ChanCursor { ptr: p, prev_orn: po, skip: sk, counter: sk },
            n2,
            r2,
        ),
    }
}

/// Decode one pattern from its three channel streams (see [`decode_rows`]).
pub fn decode_one_pattern(data: &[u8], ch_ptrs: [usize; 3]) -> (r: Result<Pattern, FormatError>)
    ensures
        match decode_rows(
            data@,
            start_cursor(ch_ptrs[0]),
            start_cursor(ch_ptrs[1]),
            start_cursor(ch_ptrs[2]),
            0,
            0,
            empty_rows(),
        ) {
            Ok((len, items)) => r matches Ok(p) && p.length == len && p.items@ == items,
            Err(e) => r == Err::<Pattern, FormatError>(e),
        },
{
    let mut pattern = Pattern::default();
    assert(pattern.items@ =~= empty_rows());
    let mut a = ChanCursor { ptr: ch_ptrs[0], prev_orn: 0, skip: 1, counter: 1 };
    let mut b = ChanCursor { ptr: ch_ptrs[1], prev_orn: 0, skip: 1, counter: 1 };
    let mut c = ChanCursor { ptr: ch_ptrs[2], prev_orn: 0, skip: 1, counter: 1 };
    let mut ns: u8 = 0;
    let mut i: usize = 0;
    let ghost target = decode_rows(data@, a, b, c, ns, 0, pattern.items@);
    while i < 256
        invariant
            i <= 256,
            decode_rows(data@, a, b, c, ns, i as int, pattern.items@) == target,
            target == decode_rows(
                data@,
                start_cursor(ch_ptrs[0]),
                start_cursor(ch_ptrs[1]),
                start_cursor(ch_ptrs[2]),
                0,
                0,
                empty_rows(),
            ),
        ensures
            target == Ok::<(int, Seq<PatternRow>), FormatError>((i as int, pattern.items@)),
        decreases 256 - i,
    {
        let row = pattern.items[i];
        let (a2, ns1, r1) = match row_chan_exec(data, a, ns, row, 0) {
            ChanOutcome::Stop => {
                break ;
            },
            ChanOutcome::Fail(e) => {
                return Err(e);
            },
            ChanOutcome::Done(x, y, z) => (x, y, z),
        };
        let (b2, ns2, r2) = match row_chan_exec(data, b, ns1, r1, 1) {
            ChanOutcome::Stop => {
                break ;
            },
            ChanOutcome::Fail(e) => {
                return Err(e);
            },
            ChanOutcome::Done(x, y, z) => (x, y, z),
        };
        let (c2, ns3, r3) = match row_chan_exec(data, c, ns2, r2, 2) {
            ChanOutcome::Stop => {
                break ;
            },
            ChanOutcome::Fail(e) => {
                return Err(e);
            },
            ChanOutcome::Done(x, y, z) => (x, y, z),
        };
        pattern.items[i] = PatternRow { noise: ns3, ..r3 };
        a = a2;
        b = b2;
        c = c2;
        ns = ns3;
        i = i + 1;
    }
    pattern.length = i;
    Ok(pattern)
}

/// The three channel offsets of pattern `j` in the pattern table at `pat_ptr`.
pub open spec fn table_ptrs(data: Seq<u8>, pat_ptr: int, j: int) -> [usize; 3] {
    let t = pat_ptr + 6 * j;
    [le_word(data, t) as usize, le_word(data, t + 2) as usize, le_word(data, t + 4) as usize]
}

/// Pattern `j` decoded from the table at `pat_ptr` (see [`decode_rows`]).
pub open spec fn table_decode(data: Seq<u8>, pat_ptr: int, j: int) -> Result<
    (int, Seq<PatternRow>),
    FormatError,
> {
    let ptrs = table_ptrs(data, pat_ptr, j);
    decode_rows(
        data,
        start_cursor(ptrs[0]),
        start_cursor(ptrs[1]),
        start_cursor(ptrs[2]),
        0,
        0,
        empty_rows(),
    )
}

/// Pattern `j` is read: some of the first `n` positions play it, it is a
/// valid pattern number and its table entry lies inside the data.
pub open spec fn should_decode(data: Seq<u8>, pat_ptr: int, pos: Seq<usize>, n: int, j: int) -> bool {
    &&& exists|k: int| 0 <= k < n && #[trigger] pos[k] == j
    &&& 0 <= j < MAX_NUM_OF_PATS
    &&& pat_ptr + 6 * j + 6 <= data.len()
}

/// Position `k` is the first to play its pattern, and that pattern cannot be
/// read: its number is out of range, or its table entry lies inside the data
/// and its channel streams are malformed.
pub open spec fn fails_at(data: Seq<u8>, pat_ptr: int, pos: Seq<usize>, k: int) -> bool {
    &&& forall|m: int| 0 <= m < k ==> #[trigger] pos[m] != pos[k]
    &&& (pos[k] >= MAX_NUM_OF_PATS || (pat_ptr + 6 * pos[k] + 6 <= data.len() && table_decode(
        data,
        pat_ptr,
        pos[k] as int,
    ) is Err))
}

/// The error of the failing position `k`.
pub open spec fn failure_at(data: Seq<u8>, pat_ptr: int, pos: Seq<usize>, k: int) -> FormatError {
    if pos[k] >= MAX_NUM_OF_PATS {
        FormatError::PatternIndexOutOfRange { index: pos[k] }
    } else {
        match table_decode(data, pat_ptr, pos[k] as int) {
            Err(e) => e,
            Ok(_) => FormatError::Truncated,
        }
    }
}

/// Some of the first `n` positions fails; `k` is the first that does.
pub open spec fn first_failure(data: Seq<u8>, pat_ptr: int, pos: Seq<usize>, n: int, k: int) -> bool {
    &&& 0 <= k < n
    &&& fails_at(data, pat_ptr, pos, k)
    &&& forall|m: int| 0 <= m < k ==> !#[trigger] fails_at(data, pat_ptr, pos, m)
}

/// `after` is `before` with every pattern played by the first `n` positions
/// read from the table at `pat_ptr`.
pub open spec fn patterns_from(
    data: Seq<u8>,
    pat_ptr: int,
    pos: Seq<usize>,
    n: int,
    before: Seq<Option<Box<Pattern>>>,
    after: Seq<Option<Box<Pattern>>>,
) -> bool {
    &&& after.len() == before.len()
    &&& forall|j: int|
        0 <= j < after.len() ==> if should_decode(data, pat_ptr, pos, n, j) {
            #[trigger] after[j] matches Some(p) && table_decode(data, pat_ptr, j) == Ok::<
                (int, Seq<PatternRow>),
                FormatError,
            >((p.length as int, p.items@))
        } else {
            after[j] == before[j]
        }
}

/// Read every pattern that the first `n` positions play, each once, from the
/// pattern table at `pat_ptr`.  Fails with the error of the first position
/// whose pattern cannot be read.
pub fn decode_patterns(
    data: &[u8],
    pat_ptr: usize,
    pos: &[usize; 256],
    n: usize,
    patterns: &mut Vec<Option<Box<Pattern>>>,
) -> (r: Result<(), FormatError>)
    requires
        n <= 256,
        pat_ptr <= data@.len(),
        old(patterns)@.len() == MAX_NUM_OF_PATS + 1,
    ensures
        (exists|k: int| first_failure(data@, pat_ptr as int, pos@, n as int, k)) <==> r is Err,
        forall|k: int|
            first_failure(data@, pat_ptr as int, pos@, n as int, k) ==> r == Err::<(), FormatError>(
                failure_at(data@, pat_ptr as int, pos@, k),
            ),
        r is Ok ==> patterns_from(data@, pat_ptr as int, pos@, n as int, old(patterns)@, final(patterns)@),
{
    let ghost before = patterns@;
    let mut k: usize = 0;
    while k < n
        invariant
            n <= 256,
            k <= n,
            pat_ptr <= data@.len(),
            patterns@.len() == MAX_NUM_OF_PATS + 1,
            before.len() == MAX_NUM_OF_PATS + 1,
            forall|q: int| 0 <= q < k ==> !#[trigger] fails_at(data@, pat_ptr as int, pos@, q),
            patterns_from(data@, pat_ptr as int, pos@, k as int, before, patterns@),
        decreases n - k,
    {
        let j = pos[k];
        let mut m: usize = 0;
        let mut seen = false;
        while m < k
            invariant
                m <= k,
                k < 256,
                j == pos@[k as int],
                seen <==> exists|q: int| 0 <= q < m && #[trigger] pos@[q] == j,
            decreases k - m,
        {
            if pos[m] == j {
                seen = true;
            }
            m = m + 1;
        }
        if seen {
            proof {
                let q = choose|q: int| 0 <= q < k && #[trigger] pos@[q] == j;
                assert forall|jj: int| 0 <= jj < patterns@.len() implies (should_decode(
                    data@,
                    pat_ptr as int,
                    pos@,
                    k + 1,
                    jj,
                ) <==> should_decode(data@, pat_ptr as int, pos@, k as int, jj)) by {
                    if should_decode(data@, pat_ptr as int, pos@, k + 1, jj) {
                        let w = choose|w: int| 0 <= w < k + 1 && #[trigger] pos@[w] == jj;
                        if w == k {
                            assert(pos@[q] == jj);
                        }
                    }
                }
                assert(!fails_at(data@, pat_ptr as int, pos@, k as int));
            }
            k = k + 1;
            continue ;
        }
        if j >= MAX_NUM_OF_PATS {
            proof {
                assert(fails_at(data@, pat_ptr as int, pos@, k as int));
                assert(first_failure(data@, pat_ptr as int, pos@, n as int, k as int));
                lemma_first_failure_unique(data@, pat_ptr as int, pos@, n as int, k as int);
            }
            return Err(FormatError::PatternIndexOutOfRange { index: j });
        }
        if j * 6 + 6 > data.len() - pat_ptr {
            proof {
                assert forall|jj: int| 0 <= jj < patterns@.len() implies (should_decode(
                    data@,
                    pat_ptr as int,
                    pos@,
                    k + 1,
                    jj,
                ) <==> should_decode(data@, pat_ptr as int, pos@, k as int, jj)) by {
                    if should_decode(data@, pat_ptr as int, pos@, k + 1, jj) {
                        let w = choose|w: int| 0 <= w < k + 1 && #[trigger] pos@[w] == jj;
                        if w < k {
                            assert(should_decode(data@, pat_ptr as int, pos@, k as int, jj));
                        }
                    }
                    if should_decode(data@, pat_ptr as int, pos@, k as int, jj) {
                        let w = choose|w: int| 0 <= w < k && #[trigger] pos@[w] == jj;
                        assert(pos@[w] == jj);
                    }
                }
                assert(!fails_at(data@, pat_ptr as int, pos@, k as int));
            }
            k = k + 1;
            continue ;
        }
        let tbl = pat_ptr + j * 6;
        let ptrs: [usize; 3] = [
            read_word(data, tbl) as usize,
            read_word(data, tbl + 2) as usize,
            read_word(data, tbl + 4) as usize,
        ];
        assert(ptrs =~= table_ptrs(data@, pat_ptr as int, j as int));
        match decode_one_pattern(data, ptrs) {
            Err(e) => {
                proof {
                    assert(fails_at(data@, pat_ptr as int, pos@, k as int));
                    assert(first_failure(data@, pat_ptr as int, pos@, n as int, k as int));
                    lemma_first_failure_unique(data@, pat_ptr as int, pos@, n as int, k as int);
                }
                return Err(e);
            },
            Ok(p) => {
                let ghost prev = patterns@;
                patterns.set(j, Some(Box::new(p)));
                proof {
                    assert(!fails_at(data@, pat_ptr as int, pos@, k as int));
                    assert forall|jj: int| 0 <= jj < patterns@.len() implies if should_decode(
                        data@,
                        pat_ptr as int,
                        pos@,
                        k + 1,
                        jj,
                    ) {
                        #[trigger] patterns@[jj] matches Some(pp) && table_decode(
                            data@,
                            pat_ptr as int,
                            jj,
                        ) == Ok::<(int, Seq<PatternRow>), FormatError>(
                            (pp.length as int, pp.items@),
                        )
                    } else {
                        patterns@[jj] == before[jj]
                    } by {
                        if jj == j {
                            assert(pos@[k as int] == jj);
                        } else {
                            assert(patterns@[jj] == prev[jj]);
                            if should_decode(data@, pat_ptr as int, pos@, k + 1, jj) {
                                let w = choose|w: int| 0 <= w < k + 1 && #[trigger] pos@[w] == jj;
                                assert(w != k);
                                assert(should_decode(data@, pat_ptr as int, pos@, k as int, jj));
                            }
                            if should_decode(data@, pat_ptr as int, pos@, k as int, jj) {
                                let w = choose|w: int| 0 <= w < k && #[trigger] pos@[w] == jj;
                                assert(pos@[w] == jj);
                            }
                        }
                    }
                }
            },
        }
        k = k + 1;
    }
    proof {
        assert forall|kk: int| !first_failure(data@, pat_ptr as int, pos@, n as int, kk) by {
            if 0 <= kk < n {
                assert(!fails_at(data@, pat_ptr as int, pos@, kk));
            }
        }
    }
    Ok(())
}

proof fn lemma_first_failure_unique(data: Seq<u8>, pat_ptr: int, pos: Seq<usize>, n: int, k: int)
    requires
        first_failure(data, pat_ptr, pos, n, k),
    ensures
        forall|k2: int| #[trigger] first_failure(data, pat_ptr, pos, n, k2) ==> k2 == k,
{
    assert forall|k2: int| #[trigger] first_failure(data, pat_ptr, pos, n, k2) implies k2 == k by {
        if k2 < k {
            assert(!fails_at(data, pat_ptr, pos, k2));
        } else if k2 > k {
            assert(!fails_at(data, pat_ptr, pos, k));
        }
    }
}

// ─── Header ──────────────────────────────────────────────────────────────────

/// The bytes `ProTracker 3.`.
pub open spec fn pro_tracker_magic() -> Seq<u8> {
    seq![0x50u8, 0x72, 0x6F, 0x54, 0x72, 0x61, 0x63, 0x6B, 0x65, 0x72, 0x20, 0x33, 0x2E]
}

/// The bytes `Vortex Tracker II`.
pub open spec fn vortex_magic() -> Seq<u8> {
    seq![
        0x56u8, 0x6F, 0x72, 0x74, 0x65, 0x78, 0x20, 0x54, 0x72, 0x61, 0x63, 0x6B, 0x65, 0x72, 0x20,
        0x49, 0x49,
    ]
}

/// Features level and Vortex-header flag named by the file's identifier:
/// `ProTracker 3.` then the minor version digit (0-5: 3.5 and older, 7-9:
/// 3.7 and newer, else 3.6), or `Vortex Tracker II`; anything else reads as
/// an old Pro Tracker file.
pub open spec fn header_level(data: Seq<u8>) -> (FeaturesLevel, bool) {
    if data.len() > 13 && data.take(13) == pro_tracker_magic() {
        (
            if 0x30 <= data[13] <= 0x35 {
                FeaturesLevel::Pt35
            } else if 0x37 <= data[13] <= 0x39 {
                FeaturesLevel::Pt37
            } else {
                FeaturesLevel::Vt2
            },
            false,
        )
    } else if data.len() >= 17 && data.take(17) == vortex_magic() {
        (FeaturesLevel::Vt2, true)
    } else {
        (FeaturesLevel::Pt35, false)
    }
}

/// `b` without its trailing bytes at or below 0x20 (space and controls).
pub open spec fn trim_end(b: Seq<u8>) -> Seq<u8>
    decreases b.len(),
{
    if b.len() > 0 && b.last() <= 0x20 {
        trim_end(b.drop_last())
    } else {
        b
    }
}

fn starts_with(data: &[u8], pat: &[u8]) -> (r: bool)
    ensures
        r == (pat@.len() <= data@.len() && data@.take(pat@.len() as int) == pat@),
{
    if pat.len() > data.len() {
        return false;
    }
    let mut i: usize = 0;
    while i < pat.len()
        invariant
            pat@.len() <= data@.len(),
            i <= pat@.len(),
            data@.take(i as int) == pat@.take(i as int),
        decreases pat.len() - i,
    {
        if data[i] != pat[i] {
            assert(data@.take(pat@.len() as int)[i as int] != pat@[i as int]);
            return false;
        }
        assert(data@.take(i + 1) =~= data@.take(i as int).push(data@[i as int]));
        assert(pat@.take(i + 1) =~= pat@.take(i as int).push(pat@[i as int]));
        i = i + 1;
    }
    assert(pat@.take(pat@.len() as int) =~= pat@);
    true
}

fn header_level_exec(data: &[u8]) -> (r: (FeaturesLevel, bool))
    ensures
        r == header_level(data@),
{
    let pt: [u8; 13] = [0x50, 0x72, 0x6F, 0x54, 0x72, 0x61, 0x63, 0x6B, 0x65, 0x72, 0x20, 0x33, 0x2E];
    let vt: [u8; 17] = [
        0x56, 0x6F, 0x72, 0x74, 0x65, 0x78, 0x20, 0x54, 0x72, 0x61, 0x63, 0x6B, 0x65, 0x72, 0x20,
        0x49, 0x49,
    ];
    assert(pt@ =~= pro_tracker_magic());
    assert(vt@ =~= vortex_magic());
    if starts_with(data, &pt) && data.len() > 13 {
        let d = data[13];
        let lvl = if 0x30 <= d && d <= 0x35 {
            FeaturesLevel::Pt35
        } else if 0x37 <= d && d <= 0x39 {
            FeaturesLevel::Pt37
        } else {
            FeaturesLevel::Vt2
        };
        (lvl, false)
    } else if starts_with(data, &vt) {
        (FeaturesLevel::Vt2, true)
    } else {
        (FeaturesLevel::Pt35, false)
    }
}

/// The text of a space-padded name field: trailing spaces and control bytes
/// dropped, the rest read as UTF-8 (invalid sequences replaced).
pub fn trim_right_ascii(bytes: &[u8]) -> (r: String)
    ensures
        r@ == crate::formats::utf8_lossy(trim_end(bytes@)),
        crate::formats::ascii_bytes(trim_end(bytes@)) ==> r@ == crate::formats::ascii_text(trim_end(bytes@)),
{
    let mut end = bytes.len();
    assert(bytes@.take(end as int) =~= bytes@);
    while end > 0 && bytes[end - 1] <= 0x20
        invariant
            end <= bytes@.len(),
            trim_end(bytes@) == trim_end(bytes@.take(end as int)),
        decreases end,
    {
        assert(bytes@.take(end as int).drop_last() =~= bytes@.take(end - 1));
        end = end - 1;
    }
    let mut head: Vec<u8> = Vec::new();
    let mut i: usize = 0;
    while i < end
        invariant
            end <= bytes@.len(),
            i <= end,
            head@ == bytes@.take(i as int),
        decreases end - i,
    {
        head.push(bytes[i]);
        i = i + 1;
        assert(head@ =~= bytes@.take(i as int));
    }
    assert(bytes@.take(end as int) =~= trim_end(bytes@.take(end as int)));
    crate::formats::string_from_bytes_lossy(head.as_slice())
}

/// Number of entries of the position list from entry `k` on: it ends at a
/// 0xFF byte, at the end of the data, or after 256 entries.
pub open spec fn pos_count(data: Seq<u8>, k: int) -> int
    decreases 256 - k,
{
    if k < 0 || k >= 256 || OFF_POS_LIST + k >= data.len() || data[OFF_POS_LIST + k] == 0xFF {
        0
    } else {
        1 + pos_count(data, k + 1)
    }
}

/// The pattern numbers of the position list (each stored as 3 × number).
pub open spec fn position_values(data: Seq<u8>) -> Seq<usize> {
    Seq::new(
        256,
        |i: int|
            if i < pos_count(data, 0) {
                (data[OFF_POS_LIST + i] / 3) as usize
            } else {
                0usize
            },
    )
}

proof fn lemma_pos_count_bounds(data: Seq<u8>, k: int)
    requires
        0 <= k <= 256,
    ensures
        0 <= pos_count(data, k) <= 256 - k,
    decreases 256 - k,
{
    if k < 256 && OFF_POS_LIST + k < data.len() && data[OFF_POS_LIST + k] != 0xFF {
        lemma_pos_count_bounds(data, k + 1);
    }
}

fn read_positions(data: &[u8]) -> (r: ([usize; 256], usize))
    ensures
        r.1 == pos_count(data@, 0),
        r.1 <= 256,
        r.0@ == position_values(data@),
{
    let mut value = [0usize; 256];
    let mut n: usize = 0;
    proof {
        lemma_pos_count_bounds(data@, 0);
    }
    while n < 256
        invariant
            n <= 256,
            pos_count(data@, 0) == n + pos_count(data@, n as int),
            forall|i: int| 0 <= i < n ==> #[trigger] value@[i] == (data@[OFF_POS_LIST + i] / 3) as usize,
            forall|i: int| n <= i < 256 ==> #[trigger] value@[i] == 0,
        ensures
            pos_count(data@, n as int) == 0,
            forall|i: int| 0 <= i < n ==> #[trigger] value@[i] == (data@[OFF_POS_LIST + i] / 3) as usize,
            forall|i: int| n <= i < 256 ==> #[trigger] value@[i] == 0,
            pos_count(data@, 0) == n,
        decreases 256 - n,
    {
        if OFF_POS_LIST + n >= data.len() {
            break ;
        }
        let b = data[OFF_POS_LIST + n];
        if b == 0xFF {
            break ;
        }
        value[n] = (b / 3) as usize;
        n = n + 1;
    }
    assert(value@ =~= position_values(data@));
    (value, n)
}

/// The sample in slot `i`: read from the offset in the sample table when that
/// offset is non-zero, inside the data and the sample there is well formed.
pub open spec fn sample_slot(data: Seq<u8>, i: int, s: Option<Box<Sample>>) -> bool {
    let ptr = le_word(data, OFF_SAM_PTRS + 2 * i);
    if ptr == 0 || ptr >= data.len() || sample_error(data.subrange(ptr, data.len() as int)) is Some {
        s is None
    } else {
        s matches Some(b) && sample_decodes(data.subrange(ptr, data.len() as int), *b)
    }
}

/// The ornament in slot `i`, read as the samples are.
pub open spec fn ornament_slot(data: Seq<u8>, i: int, o: Option<Box<Ornament>>) -> bool {
    let ptr = le_word(data, OFF_ORN_PTRS + 2 * i);
    if ptr == 0 || ptr >= data.len() || ornament_error(data.subrange(ptr, data.len() as int))
        is Some {
        o is None
    } else {
        o matches Some(b) && ornament_decodes(data.subrange(ptr, data.len() as int), *b)
    }
}

fn read_samples(data: &[u8]) -> (r: [Option<Box<Sample>>; 32])
    requires
        data@.len() >= MIN_FILE_SIZE,
    ensures
        r[0] is None,
        forall|i: int| 1 <= i < 32 ==> sample_slot(data@, i, #[trigger] r[i]),
{
    let mut samples: [Option<Box<Sample>>; 32] = [
        None, None, None, None, None, None, None, None, None, None, None, None, None, None, None,
        None, None, None, None, None, None, None, None, None, None, None, None, None, None, None,
        None, None,
    ];
    let mut i: usize = 1;
    while i < 32
        invariant
            1 <= i <= 32,
            data@.len() >= MIN_FILE_SIZE,
            samples[0] is None,
            forall|k: int| 1 <= k < i ==> sample_slot(data@, k, #[trigger] samples[k]),
            forall|k: int| i <= k < 32 ==> #[trigger] samples[k] is None,
        decreases 32 - i,
    {
        let ptr = read_word(data, OFF_SAM_PTRS + i * 2) as usize;
        if ptr != 0 && ptr < data.len() {
            let tail = vstd::slice::slice_subrange(data, ptr, data.len());
            match parse_sample(tail) {
                Ok(sam) => {
                    samples[i] = Some(Box::new(sam));
                },
                Err(_) => {},
            }
        }
        i = i + 1;
    }
    samples
}

/// The silent one-step ornament kept in slot 0.
pub open spec fn is_zero_ornament(o: Option<Box<Ornament>>) -> bool {
    o matches Some(b) && b.length == 1 && b.loop_pos == 0 && forall|i: int|
        0 <= i < 255 ==> #[trigger] b.items[i] == 0
}

fn read_ornaments(data: &[u8]) -> (r: [Option<Box<Ornament>>; 16])
    requires
        data@.len() >= MIN_FILE_SIZE,
    ensures
        is_zero_ornament(r[0]),
        forall|i: int| 1 <= i < 16 ==> ornament_slot(data@, i, #[trigger] r[i]),
{
    let mut orns: [Option<Box<Ornament>>; 16] = [
        Some(Box::new(Ornament::default())), None, None, None, None, None, None, None, None,
        None, None, None, None, None, None, None,
    ];
    let mut i: usize = 1;
    while i < 16
        invariant
            1 <= i <= 16,
            data@.len() >= MIN_FILE_SIZE,
            is_zero_ornament(orns[0]),
            forall|k: int| 1 <= k < i ==> ornament_slot(data@, k, #[trigger] orns[k]),
            forall|k: int| i <= k < 16 ==> #[trigger] orns[k] is None,
        decreases 16 - i,
    {
        let ptr = read_word(data, OFF_ORN_PTRS + i * 2) as usize;
        if ptr != 0 && ptr < data.len() {
            let tail = vstd::slice::slice_subrange(data, ptr, data.len());
            match parse_ornament(tail) {
                Ok(orn) => {
                    orns[i] = Some(Box::new(orn));
                },
                Err(_) => {},
            }
        }
        i = i + 1;
    }
    orns
}

/// The pattern table with no pattern read yet.
pub open spec fn no_patterns() -> Seq<Option<Box<Pattern>>> {
    Seq::new((MAX_NUM_OF_PATS + 1) as nat, |i: int| None)
}

/// Everything of `m` that the header, position list, samples and ornaments
/// of the file `data` fix.
pub open spec fn header_decodes(data: Seq<u8>, m: Module) -> bool {
    &&& m.features_level == header_level(data).0
    &&& m.vortex_module_header == header_level(data).1
    &&& m.title@ == crate::formats::utf8_lossy(trim_end(data.subrange(OFF_TITLE as int, 0x3E)))
    &&& m.author@ == crate::formats::utf8_lossy(trim_end(data.subrange(OFF_AUTHOR as int, 0x62)))
    &&& crate::formats::ascii_bytes(trim_end(data.subrange(OFF_TITLE as int, 0x3E))) ==> m.title@
        == crate::formats::ascii_text(trim_end(data.subrange(OFF_TITLE as int, 0x3E)))
    &&& crate::formats::ascii_bytes(trim_end(data.subrange(OFF_AUTHOR as int, 0x62))) ==> m.author@
        == crate::formats::ascii_text(trim_end(data.subrange(OFF_AUTHOR as int, 0x62)))
    &&& m.ton_table == data[OFF_TABLE as int] & 0x0Fu8
    &&& m.initial_delay == data[OFF_DELAY as int]
    &&& m.positions.loop_pos == data[OFF_LOOP_POS as int]
    &&& m.positions.length == pos_count(data, 0)
    &&& m.positions.value@ == position_values(data)
    &&& m.samples[0] is None
    &&& forall|i: int| 1 <= i < 32 ==> sample_slot(data, i, #[trigger] m.samples[i])
    &&& is_zero_ornament(m.ornaments[0])
    &&& forall|i: int| 1 <= i < 16 ==> ornament_slot(data, i, #[trigger] m.ornaments[i])
    &&& forall|c: int|
        0 <= c < 3 ==> #[trigger] m.is_chans[c] == (crate::types::ChannelState {
            global_ton: true,
            global_noise: true,
            global_envelope: true,
            envelope_enabled: false,
            ornament: 0,
            sample: 1,
            volume: 15,
        })
}

/// What reading the PT3 file `data` gives: too short files and files with an
/// empty position list are refused; a pattern that cannot be read fails with
/// the error of the first position playing it; otherwise the module holds the
/// header, samples, ornaments and the patterns the positions play.
pub open spec fn parse_outcome(data: Seq<u8>, r: Result<Module, FormatError>) -> bool {
    &&& (data.len() < MIN_FILE_SIZE ==> r == Err::<Module, FormatError>(FormatError::TooShort))
    &&& (data.len() >= MIN_FILE_SIZE && data[OFF_POS_LIST as int] == 0xFF ==> r == Err::<
        Module,
        FormatError,
    >(FormatError::NoPositions))
    &&& (data.len() >= MIN_FILE_SIZE && data[OFF_POS_LIST as int] != 0xFF ==> ({
            let pat_ptr = le_word(data, OFF_PAT_PTR as int);
            let n = pos_count(data, 0);
            let pos = position_values(data);
            let reading = 0 < pat_ptr < data.len();
            let fails = reading && exists|k: int| first_failure(data, pat_ptr, pos, n, k);
            &&& fails ==> r is Err
            &&& forall|k: int|
                reading && first_failure(data, pat_ptr, pos, n, k) ==> r == Err::<
                    Module,
                    FormatError,
                >(failure_at(data, pat_ptr, pos, k))
            &&& !fails ==> (r matches Ok(m) && m.wf() && header_decodes(data, m) && if reading {
                patterns_from(data, pat_ptr, pos, n, no_patterns(), m.patterns@)
            } else {
                m.patterns@ == no_patterns()
            })
        }))
}

/// Read a PT3 file.  Fails when it is shorter than the header and a
/// one-entry position list, when its position list is empty, or with the
/// error of the first position whose pattern cannot be read; samples and
/// ornaments that cannot be read are left out.
pub fn parse(data: &[u8]) -> (r: Result<Module, FormatError>)
    ensures
        parse_outcome(data@, r),
{
    if data.len() < MIN_FILE_SIZE {
        return Err(FormatError::TooShort);
    }
    let (value, n) = read_positions(data);
    proof {
        lemma_pos_count_bounds(data@, 1);
    }
    if n == 0 {
        return Err(FormatError::NoPositions);
    }
    let (lvl, vh) = header_level_exec(data);
    let title = trim_right_ascii(vstd::slice::slice_subrange(data, OFF_TITLE, 0x3E));
    let author = trim_right_ascii(vstd::slice::slice_subrange(data, OFF_AUTHOR, 0x62));
    let samples = read_samples(data);
    let ornaments = read_ornaments(data);
    let pat_ptr = read_word(data, OFF_PAT_PTR) as usize;
    let mut module = Module::default();
    module.features_level = lvl;
    module.vortex_module_header = vh;
    module.title = title;
    module.author = author;
    module.ton_table = data[OFF_TABLE] & 0x0F;
    module.initial_delay = data[OFF_DELAY];
    module.positions.loop_pos = data[OFF_LOOP_POS] as usize;
    module.positions.length = n;
    module.positions.value = value;
    module.samples = samples;
    module.ornaments = ornaments;
    assert(module.patterns@ =~= no_patterns());
    if pat_ptr > 0 && pat_ptr < data.len() {
        match decode_patterns(data, pat_ptr, &value, n, &mut module.patterns) {
            Ok(()) => {},
            Err(e) => {
                return Err(e);
            },
        }
    }
    Ok(module)
}

// ─── Writer: samples and ornaments ───────────────────────────────────────────

/// The four bytes of a sample tick (the inverse of [`tick_from_bytes`] on
/// ticks whose fields are in range).
pub open spec fn tick_bytes(t: SampleTick) -> Seq<u8> {
    let b0: u8 = (if !t.envelope_enabled {
        1u8
    } else {
        0u8
    }) | (((t.add_to_envelope_or_noise as u8) & 0x1Fu8) << 1u8) | (if t.amplitude_sliding {
        if t.amplitude_slide_up {
            0xC0u8
        } else {
            0x80u8
        }
    } else {
        0u8
    });
    let b1: u8 = (t.amplitude & 0x0Fu8) | (if !t.mixer_ton {
        0x10u8
    } else {
        0u8
    }) | (if t.envelope_or_noise_accumulation {
        0x20u8
    } else {
        0u8
    }) | (if t.ton_accumulation {
        0x40u8
    } else {
        0u8
    }) | (if !t.mixer_noise {
        0x80u8
    } else {
        0u8
    });
    let w = t.add_to_ton as u16;
    seq![b0, b1, (w % 256) as u8, (w / 256) as u8]
}

/// A tick whose fields fit its four bytes: amplitude 0..15, envelope/noise
/// offset -16..15, and upward sliding only while sliding.
pub open spec fn tick_in_range(t: SampleTick) -> bool {
    &&& t.amplitude <= 15
    &&& -16 <= t.add_to_envelope_or_noise <= 15
    &&& t.amplitude_slide_up ==> t.amplitude_sliding
}

/// The bytes of the first `n` ticks of `s`.
pub open spec fn ticks_bytes(s: Sample, n: int) -> Seq<u8>
    decreases n,
{
    if n <= 0 {
        seq![]
    } else {
        ticks_bytes(s, n - 1) + tick_bytes(s.items[n - 1])
    }
}

/// A sample as stored in a PT3 file: loop, length, then its ticks.
pub open spec fn sample_bytes(s: Sample) -> Seq<u8> {
    seq![s.loop_pos, s.length] + ticks_bytes(s, s.length as int)
}

/// What stands for a sample that patterns use and the module lacks: one
/// silent tick.
pub open spec fn placeholder_sample_bytes() -> Seq<u8> {
    seq![0x00u8, 0x01, 0x01, 0x90, 0x00, 0x00]
}

/// An ornament as stored in a PT3 file: loop, length, then its steps.
pub open spec fn ornament_bytes(o: Ornament) -> Seq<u8> {
    seq![o.loop_pos as u8, o.length as u8] + Seq::new(o.length as nat, |i: int| o.items[i] as u8)
}

/// What stands for an ornament that patterns use and the module lacks.
pub open spec fn placeholder_ornament_bytes() -> Seq<u8> {
    seq![0x00u8, 0x01, 0x00]
}

/// Reading back the four bytes of a tick whose fields are in range gives the
/// tick.
pub proof fn lemma_tick_round_trip(t: SampleTick)
    requires
        tick_in_range(t),
    ensures
        ({
            let b = tick_bytes(t);
            tick_from_bytes(b[0], b[1], b[2], b[3]) == t
        }),
{
    let b = tick_bytes(t);
    let b0 = b[0];
    let b1 = b[1];
    let e = t.envelope_enabled;
    let a = t.add_to_envelope_or_noise;
    let sl = t.amplitude_sliding;
    let up = t.amplitude_slide_up;
    let amp = t.amplitude;
    let mt = t.mixer_ton;
    let mn = t.mixer_noise;
    let ea = t.envelope_or_noise_accumulation;
    let ta = t.ton_accumulation;
    assert(b0 == (if !e { 1u8 } else { 0u8 }) | (((a as u8) & 0x1Fu8) << 1u8) | (if sl {
        if up { 0xC0u8 } else { 0x80u8 }
    } else {
        0u8
    }));
    assert(((b0 & 1u8) == 0) == e) by (bit_vector)
        requires
            b0 == (if !e { 1u8 } else { 0u8 }) | (((a as u8) & 0x1Fu8) << 1u8) | (if sl {
                if up { 0xC0u8 } else { 0x80u8 }
            } else {
                0u8
            }),
    ;
    assert(((b0 & 0x80u8) != 0) == sl && ((b0 & 0x40u8) != 0) == up) by (bit_vector)
        requires
            b0 == (if !e { 1u8 } else { 0u8 }) | (((a as u8) & 0x1Fu8) << 1u8) | (if sl {
                if up { 0xC0u8 } else { 0x80u8 }
            } else {
                0u8
            }),
            up ==> sl,
    ;
    let raw = b0 >> 1u8;
    assert((if raw & 0x10u8 != 0 {
        (raw | 0xF0u8) as i8
    } else {
        (raw & 0x0Fu8) as i8
    }) == a) by (bit_vector)
        requires
            b0 == (if !e { 1u8 } else { 0u8 }) | (((a as u8) & 0x1Fu8) << 1u8) | (if sl {
                if up { 0xC0u8 } else { 0x80u8 }
            } else {
                0u8
            }),
            raw == b0 >> 1u8,
            -16 <= a <= 15,
    ;
    assert(b1 == (amp & 0x0Fu8) | (if !mt { 0x10u8 } else { 0u8 }) | (if ea {
        0x20u8
    } else {
        0u8
    }) | (if ta { 0x40u8 } else { 0u8 }) | (if !mn { 0x80u8 } else { 0u8 }));
    assert((b1 & 0x0Fu8) == amp && ((b1 & 0x10u8) == 0) == mt && ((b1 & 0x20u8) != 0) == ea && ((
    b1 & 0x40u8) != 0) == ta && ((b1 & 0x80u8) == 0) == mn) by (bit_vector)
        requires
            b1 == (amp & 0x0Fu8) | (if !mt { 0x10u8 } else { 0u8 }) | (if ea {
                0x20u8
            } else {
                0u8
            }) | (if ta { 0x40u8 } else { 0u8 }) | (if !mn { 0x80u8 } else { 0u8 }),
            amp <= 15,
    ;
    let v = t.add_to_ton;
    let w = v as u16;
    assert((((((w % 256) as u8) as int + 256 * ((w / 256) as u8) as int) as u16) as i16) == v)
        by (bit_vector)
        requires
            w == v as u16,
    ;
}

fn encode_tick(t: &SampleTick) -> (r: [u8; 4])
    ensures
        r@ == tick_bytes(*t),
{
    let mut b0: u8 = if !t.envelope_enabled {
        1
    } else {
        0
    };
    b0 = b0 | (((t.add_to_envelope_or_noise as u8) & 0x1F) << 1u8);
    let slide: u8 = if t.amplitude_sliding {
        if t.amplitude_slide_up {
            0xC0
        } else {
            0x80
        }
    } else {
        0
    };
    b0 = b0 | slide;
    let b1: u8 = (t.amplitude & 0x0F) | (if !t.mixer_ton {
        0x10u8
    } else {
        0u8
    }) | (if t.envelope_or_noise_accumulation {
        0x20u8
    } else {
        0u8
    }) | (if t.ton_accumulation {
        0x40u8
    } else {
        0u8
    }) | (if !t.mixer_noise {
        0x80u8
    } else {
        0u8
    });
    let w = t.add_to_ton as u16;
    let r = [b0, b1, (w % 256) as u8, (w / 256) as u8];
    assert(r@ =~= tick_bytes(*t));
    r
}

/// The PT3 bytes of a sample.
pub fn encode_sample(s: &Sample) -> (r: Vec<u8>)
    requires
        s.length <= 64,
    ensures
        r@ == sample_bytes(*s),
{
    let mut buf: Vec<u8> = Vec::new();
    buf.push(s.loop_pos);
    buf.push(s.length);
    let n = s.length as usize;
    let mut j: usize = 0;
    while j < n
        invariant
            n == s.length <= 64,
            j <= n,
            buf@ == seq![s.loop_pos, s.length] + ticks_bytes(*s, j as int),
        decreases n - j,
    {
        let b = encode_tick(&s.items[j]);
        buf.push(b[0]);
        buf.push(b[1]);
        buf.push(b[2]);
        buf.push(b[3]);
        j = j + 1;
        assert(buf@ =~= seq![s.loop_pos, s.length] + ticks_bytes(*s, j as int));
    }
    buf
}

/// The PT3 bytes of an ornament.
pub fn encode_ornament(o: &Ornament) -> (r: Vec<u8>)
    requires
        o.length <= 255,
    ensures
        r@ == ornament_bytes(*o),
{
    let mut buf: Vec<u8> = Vec::new();
    buf.push(o.loop_pos as u8);
    buf.push(o.length as u8);
    let mut j: usize = 0;
    while j < o.length
        invariant
            o.length <= 255,
            j <= o.length,
            buf@ == seq![o.loop_pos as u8, o.length as u8] + Seq::new(
                j as nat,
                |i: int| o.items[i] as u8,
            ),
        decreases o.length - j,
    {
        buf.push(o.items[j] as u8);
        j = j + 1;
        assert(buf@ =~= seq![o.loop_pos as u8, o.length as u8] + Seq::new(
            j as nat,
            |i: int| o.items[i] as u8,
        ));
    }
    buf
}

fn bytes_eq(a: &[u8], b: &[u8]) -> (r: bool)
    ensures
        r == (a@ == b@),
{
    if a.len() != b.len() {
        return false;
    }
    let mut i: usize = 0;
    while i < a.len()
        invariant
            a@.len() == b@.len(),
            i <= a@.len(),
            forall|k: int| 0 <= k < i ==> a@[k] == b@[k],
        decreases a.len() - i,
    {
        if a[i] != b[i] {
            return false;
        }
        i = i + 1;
    }
    assert(a@ =~= b@);
    true
}

/// The index of the first of `strs` from `i` on equal to `s`, or the length
/// of `strs` when none is.
pub open spec fn find_str(strs: Seq<Seq<u8>>, s: Seq<u8>, i: int) -> int
    decreases strs.len() - i,
{
    if i < 0 || i >= strs.len() {
        strs.len() as int
    } else if strs[i] == s {
        i
    } else {
        find_str(strs, s, i + 1)
    }
}

/// `strs` with `s` appended unless an equal string is there, and the index
/// of the first string equal to `s`.
pub open spec fn dedup(strs: Seq<Seq<u8>>, s: Seq<u8>) -> (Seq<Seq<u8>>, int) {
    let i = find_str(strs, s, 0);
    if i < strs.len() {
        (strs, i)
    } else {
        (strs.push(s), strs.len() as int)
    }
}

/// The views of the byte strings in `v`.
pub open spec fn views(v: Seq<Vec<u8>>) -> Seq<Seq<u8>> {
    Seq::new(v.len(), |i: int| v[i]@)
}

proof fn lemma_find_str_bounds(strs: Seq<Seq<u8>>, s: Seq<u8>, i: int)
    requires
        0 <= i <= strs.len(),
    ensures
        i <= find_str(strs, s, i) <= strs.len(),
        find_str(strs, s, i) < strs.len() ==> strs[find_str(strs, s, i)] == s,
    decreases strs.len() - i,
{
    if i < strs.len() && strs[i] != s {
        lemma_find_str_bounds(strs, s, i + 1);
    }
}

/// The index of a string equal to `s` in `strs`, the first such one; `s` is
/// appended when none is (see [`dedup`]).
pub fn find_or_push(strs: &mut Vec<Vec<u8>>, s: &[u8]) -> (r: usize)
    ensures
        views(final(strs)@) == dedup(views(old(strs)@), s@).0,
        r == dedup(views(old(strs)@), s@).1,
        r < final(strs)@.len(),
{
    let ghost v0 = views(strs@);
    let mut i: usize = 0;
    while i < strs.len()
        invariant
            i <= strs@.len(),
            strs@ == old(strs)@,
            v0 == views(strs@),
            find_str(v0, s@, 0) == find_str(v0, s@, i as int),
        decreases strs.len() - i,
    {
        if bytes_eq(strs[i].as_slice(), s) {
            proof {
                lemma_find_str_bounds(v0, s@, 0);
            }
            return i;
        }
        i = i + 1;
    }
    let mut v: Vec<u8> = Vec::new();
    let mut j: usize = 0;
    while j < s.len()
        invariant
            j <= s@.len(),
            v@ == s@.take(j as int),
        decreases s.len() - j,
    {
        v.push(s[j]);
        j = j + 1;
        assert(v@ =~= s@.take(j as int));
    }
    assert(s@.take(s@.len() as int) =~= s@);
    strs.push(v);
    assert(views(strs@) =~= v0.push(s@));
    strs.len() - 1
}

// ─── Writer: channel streams ─────────────────────────────────────────────────

/// A cell the writer can encode: note at least sound-off, sample 0..31,
/// ornament, volume and envelope 0..15.
pub open spec fn cell_ok(c: ChannelLine) -> bool {
    &&& -2 <= c.note
    &&& c.sample <= 31
    &&& c.ornament <= 15
    &&& c.volume <= 15
    &&& c.envelope <= 15
}

/// Every row of `p` up to its length holds encodable cells and a noise
/// base 0..31.
pub open spec fn pattern_ok(p: Pattern) -> bool {
    &&& p.length <= 256
    &&& forall|j: int, k: int|
        0 <= j < p.length && 0 <= k < 3 ==> #[trigger] cell_ok(p.items[j].channel[k])
    &&& forall|j: int| 0 <= j < p.length ==> #[trigger] p.items[j].noise <= 31
}

/// What a channel stream last emitted: sample, ornament, envelope kind
/// (1: shape set, 0: off, -1: nothing yet), volume, row skip and noise base.
#[derive(Clone, Copy, PartialEq, Eq, Structural)]
pub struct EncPrev {
    pub sample_prev: usize,
    pub ornament_prev: usize,
    pub envelope_prev: i32,
    pub volume_prev: i32,
    pub skip_prev: i32,
    pub prev_noise: u8,
}

/// A channel's state at the start of a pattern.
pub open spec fn enc_start() -> EncPrev {
    EncPrev {
        sample_prev: usize::MAX,
        ornament_prev: usize::MAX,
        envelope_prev: -1i32,
        volume_prev: -1i32,
        skip_prev: 255,
        prev_noise: 0,
    }
}

/// A channel's tone-slide state, carried from pattern to pattern: the
/// accumulated offset, the delay (negative: stop at the target), the ticks
/// left to the next step and the step.
#[derive(Clone, Copy, PartialEq, Eq, Structural)]
pub struct Slide {
    pub delt_t: i64,
    pub tn_dl: i64,
    pub tn_cur_dl: i64,
    pub tn_stp: i64,
}

/// The slide state is in range after `t` ticks.
pub open spec fn slide_ok(st: Slide, t: int) -> bool {
    &&& -70000 * t <= st.delt_t <= 70000 * t
    &&& -255 <= st.tn_dl <= 255
    &&& 0 <= st.tn_cur_dl <= 255
    &&& st.tn_dl != 0 ==> st.tn_cur_dl >= 1
    &&& -255 <= st.tn_stp <= 255
}

/// The ornament byte is needed: an envelope or ornament is set and the
/// ornament changed, or a bare row repeats a non-zero ornament.
pub open spec fn orn_needed(cl: ChannelLine, p: EncPrev) -> bool {
    (cl.envelope != 0 || cl.ornament != 0) && (cl.ornament as usize != p.ornament_prev || (
    p.ornament_prev != 0 && cl.note == crate::types::NOTE_NONE))
}

/// The sample byte is needed: a note with a new non-zero sample.
pub open spec fn sam_needed(cl: ChannelLine, p: EncPrev) -> bool {
    cl.note != crate::types::NOTE_NONE && cl.sample != 0 && cl.sample as usize != p.sample_prev
}

/// Sample, ornament and envelope are written as one combined command.
pub open spec fn fused(cl: ChannelLine, p: EncPrev) -> bool {
    sam_needed(cl, p) && orn_needed(cl, p) && cl.envelope != 0 && (cl.envelope != 15
        || p.envelope_prev != 0)
}

/// The envelope-shape bytes: shape, then the period high and low bytes.
pub open spec fn env_shape_bytes(e: u8, env: u16) -> Seq<u8> {
    seq![(0xB1 + e) as u8, (env / 256) as u8, (env % 256) as u8]
}

/// Sample, ornament and envelope bytes of a row.
pub open spec fn instrument_bytes(cl: ChannelLine, env: u16, p: EncPrev) -> Seq<u8> {
    let e = cl.envelope;
    let o = cl.ornament;
    let smp = cl.sample;
    let on = orn_needed(cl, p);
    let f = fused(cl, p);
    let part1: Seq<u8> = if f {
        if e == 15 {
            seq![(0xF0 + o) as u8, (smp * 2) as u8]
        } else {
            seq![(0x10 + e) as u8, (env / 256) as u8, (env % 256) as u8, (smp * 2) as u8, (0x40 + o) as u8]
        }
    } else {
        seq![]
    };
    let part2: Seq<u8> = if sam_needed(cl, p) && !f {
        seq![(0xD0 + smp) as u8]
    } else {
        seq![]
    };
    let part3: Seq<u8> = if on && !f {
        seq![(0x40 + o) as u8] + if 1 <= e <= 14 {
            env_shape_bytes(e, env)
        } else if e == 15 && p.envelope_prev != 0 {
            seq![0xB0u8]
        } else {
            seq![]
        }
    } else {
        seq![]
    };
    let part4: Seq<u8> = if !on && e > 0 {
        if e != 15 {
            env_shape_bytes(e, env)
        } else if p.envelope_prev != 0 {
            seq![0xB0u8]
        } else {
            seq![]
        }
    } else {
        seq![]
    };
    part1 + part2 + part3 + part4
}

/// Volume and noise-base bytes of a row.
pub open spec fn level_bytes(cl: ChannelLine, noise: u8, k: int, p: EncPrev) -> Seq<u8> {
    (if cl.volume != 0 && cl.volume as i32 != p.volume_prev {
        seq![(0xC0 + cl.volume) as u8]
    } else {
        seq![]
    }) + (if k == 1 && noise != p.prev_noise {
        seq![(0x20 + noise) as u8]
    } else {
        seq![]
    })
}

/// What the channel has emitted after the head of a row.
pub open spec fn head_prev(cl: ChannelLine, noise: u8, k: int, p: EncPrev) -> EncPrev {
    let e = cl.envelope;
    let vol_new = cl.volume != 0 && cl.volume as i32 != p.volume_prev;
    let noise_new = k == 1 && noise != p.prev_noise;
    EncPrev {
        sample_prev: if sam_needed(cl, p) {
            cl.sample as usize
        } else {
            p.sample_prev
        },
        ornament_prev: if orn_needed(cl, p) {
            cl.ornament as usize
        } else {
            p.ornament_prev
        },
        envelope_prev: if e != 0 {
            if e < 15 {
                1i32
            } else {
                0i32
            }
        } else {
            p.envelope_prev
        },
        volume_prev: if vol_new {
            cl.volume as i32
        } else {
            p.volume_prev
        },
        prev_noise: if noise_new {
            noise
        } else {
            p.prev_noise
        },
        ..p
    }
}

/// Sample, ornament and envelope, volume and noise bytes of a row, and what
/// the channel has emitted after them.
pub open spec fn head_bytes(cl: ChannelLine, env: u16, noise: u8, k: int, p: EncPrev) -> (
    Seq<u8>,
    EncPrev,
) {
    (instrument_bytes(cl, env, p) + level_bytes(cl, noise, k, p), head_prev(cl, noise, k, p))
}

/// The note allows a tone slide: a note, or (from Vortex Tracker II on) no
/// note at all.
pub open spec fn slide_note_ok(note: i8, lvl_ge1: bool) -> bool {
    note >= 0 || (note != NOTE_SOUND_OFF && lvl_ge1)
}

/// The command byte before the note, the slide state it sets up and the
/// offset written with a tone slide; a plain note or sound-off ends any
/// slide.
pub open spec fn cmd_pre(lvl_ge1: bool, table: u8, cl: ChannelLine, st: Slide) -> (Seq<u8>, Slide, int) {
    let c = cl.additional_command;
    let dl0 = st.delt_t as int;
    let (bytes, st1, dl): (Seq<u8>, Slide, int) = if c.number == 1 || c.number == 2 {
        (
            seq![1u8],
            Slide {
                tn_dl: if c.number == 1 {
                    (-(c.delay as int)) as i64
                } else {
                    c.delay as i64
                },
                tn_cur_dl: c.delay as i64,
                tn_stp: if c.number == 1 {
                    c.parameter as i64
                } else {
                    (-(c.parameter as int)) as i64
                },
                ..st
            },
            dl0,
        )
    } else if c.number == 3 {
        if slide_note_ok(cl.note, lvl_ge1) {
            let dl = if cl.note >= 0 {
                dl0 + crate::note_tables::note_freq(table, cl.note as u8) as int
                    - crate::note_tables::note_freq(table, 0) as int
            } else {
                dl0
            };
            (
                seq![2u8],
                Slide {
                    delt_t: dl as i64,
                    tn_dl: (-(c.delay as int)) as i64,
                    tn_cur_dl: c.delay as i64,
                    tn_stp: if dl >= 0 {
                        c.parameter as i64
                    } else {
                        (-(c.parameter as int)) as i64
                    },
                },
                dl,
            )
        } else {
            (seq![], st, dl0)
        }
    } else if 4 <= c.number <= 6 {
        (seq![(c.number - 1) as u8], st, dl0)
    } else if c.number == 9 || c.number == 10 {
        (seq![8u8], st, dl0)
    } else if c.number == 11 && c.parameter != 0 {
        (seq![9u8], st, dl0)
    } else {
        (seq![], st, dl0)
    };
    if cl.note == NOTE_SOUND_OFF || (cl.note >= 0 && !(1 <= c.number <= 3)) {
        (bytes, Slide { tn_dl: 0, delt_t: 0, ..st1 }, 0)
    } else {
        (bytes, st1, dl)
    }
}

/// `|v|`.
pub open spec fn abs_i64(v: i64) -> i64 {
    if v < 0 {
        (-(v as int)) as i64
    } else {
        v
    }
}

/// One tick of a tone slide.
pub open spec fn slide_tick(st: Slide) -> Slide {
    if st.tn_dl != 0 {
        let cur = st.tn_cur_dl - 1;
        if cur == 0 {
            let d = st.delt_t - st.tn_stp;
            if st.tn_dl < 0 && ((d >= 0 && st.tn_stp < 0) || (d <= 0 && st.tn_stp >= 0)) {
                Slide { tn_dl: 0, delt_t: 0, tn_cur_dl: abs_i64(st.tn_dl), ..st }
            } else {
                Slide { delt_t: d as i64, tn_cur_dl: abs_i64(st.tn_dl), ..st }
            }
        } else {
            Slide { tn_cur_dl: cur as i64, ..st }
        }
    } else {
        st
    }
}

/// A row that ends the run of rows one note covers.
pub open spec fn significant(ncl: ChannelLine, k: int, d_noise: u8, n_noise: u8, p: EncPrev) -> bool {
    let c = ncl.additional_command;
    ||| ncl.note != crate::types::NOTE_NONE
    ||| (c.number == 11 && c.parameter != 0)
    ||| !(c.number == 0 || c.number == 11)
    ||| ncl.volume != 0
    ||| (1 <= ncl.envelope <= 14)
    ||| (ncl.envelope == 15 && (p.envelope_prev != 0 || (ncl.ornament == 0 && p.ornament_prev != 0)))
    ||| ncl.ornament != 0
    ||| (k == 1 && d_noise != n_noise)
}

/// The rows one note covers from row `j`: ticks the slide once per row and
/// stops after the last row or before the next significant one.  Gives the
/// row count, the next row and the slide state.
pub open spec fn skip_run(
    pat: Pattern,
    len: int,
    k: int,
    j: int,
    d_noise: u8,
    p: EncPrev,
    st: Slide,
    cnt: int,
) -> (int, int, Slide)
    decreases len - j,
{
    let st2 = slide_tick(st);
    let j2 = j + 1;
    if j2 >= len || j2 >= 256 || j2 < 0 {
        (cnt + 1, j2, st2)
    } else if significant(pat.items[j2].channel[k], k, d_noise, pat.items[j2].noise, p) {
        (cnt + 1, j2, st2)
    } else {
        skip_run(pat, len, k, j2, d_noise, p, st2, cnt + 1)
    }
}

/// The low byte of `-v` (two's complement).
pub open spec fn neg_byte(v: u8) -> u8 {
    ((256 - v as int) % 256) as u8
}

/// Skip byte (when the run length changed), note byte, then the command's
/// parameters.
pub open spec fn tail_bytes(cl: ChannelLine, lvl_ge1: bool, dl: int, skip: int, p: EncPrev) -> (
    Seq<u8>,
    EncPrev,
) {
    let c = cl.additional_command;
    let skip_part: Seq<u8> = if skip != p.skip_prev {
        seq![0xB1u8, skip as u8]
    } else {
        seq![]
    };
    let note_part: Seq<u8> = if cl.note == NOTE_SOUND_OFF {
        seq![0xC0u8]
    } else if cl.note == crate::types::NOTE_NONE {
        seq![0xD0u8]
    } else {
        seq![(0x50 + cl.note) as u8]
    };
    let post: Seq<u8> = if c.number == 1 || c.number == 9 {
        seq![c.delay, c.parameter, 0u8]
    } else if c.number == 2 || c.number == 10 {
        seq![c.delay, neg_byte(c.parameter), 0xFFu8]
    } else if c.number == 3 {
        if slide_note_ok(cl.note, lvl_ge1) {
            if dl >= 0 {
                seq![c.delay, (dl % 256) as u8, ((dl / 256) % 256) as u8, c.parameter, 0u8]
            } else {
                seq![c.delay, ((-dl) % 256) as u8, (((-dl) / 256) % 256) as u8, neg_byte(c.parameter), 0xFFu8]
            }
        } else {
            seq![]
        }
    } else if c.number == 4 || c.number == 5 {
        seq![c.parameter]
    } else if c.number == 6 {
        seq![c.parameter / 16, c.parameter % 16]
    } else if c.number == 11 && c.parameter != 0 {
        seq![c.parameter]
    } else {
        seq![]
    };
    (
        skip_part + note_part + post,
        EncPrev {
            skip_prev: if skip != p.skip_prev {
                skip as i32
            } else {
                p.skip_prev
            },
            ..p
        },
    )
}

/// The run from row `j` covers at least one row and ends `count` rows on.
pub proof fn lemma_skip_run_advances(
    pat: Pattern,
    len: int,
    k: int,
    j: int,
    d_noise: u8,
    p: EncPrev,
    st: Slide,
    cnt: int,
)
    ensures
        skip_run(pat, len, k, j, d_noise, p, st, cnt).1 == j + skip_run(
            pat,
            len,
            k,
            j,
            d_noise,
            p,
            st,
            cnt,
        ).0 - cnt,
        skip_run(pat, len, k, j, d_noise, p, st, cnt).0 >= cnt + 1,
        0 <= j < len ==> skip_run(pat, len, k, j, d_noise, p, st, cnt).1 <= len,
    decreases len - j,
{
    let j2 = j + 1;
    if j2 >= len || j2 >= 256 || j2 < 0 {
    } else if significant(pat.items[j2].channel[k], k, d_noise, pat.items[j2].noise, p) {
    } else {
        lemma_skip_run_advances(pat, len, k, j2, d_noise, p, slide_tick(st), cnt + 1);
    }
}

/// The stream of one channel of a pattern from row `j` on, ending with the
/// 0x00 terminator, and the slide state after it.
pub open spec fn encode_rows(
    lvl_ge1: bool,
    table: u8,
    pat: Pattern,
    len: int,
    k: int,
    j: int,
    p: EncPrev,
    st: Slide,
) -> (Seq<u8>, Slide)
    decreases len - j,
{
    if j >= len || j < 0 || j >= 256 {
        (seq![0u8], st)
    } else {
        let item = pat.items[j];
        let cl = item.channel[k];
        let (h, p1) = head_bytes(cl, item.envelope, item.noise, k, p);
        let (c, st1, dl) = cmd_pre(lvl_ge1, table, cl, st);
        let (skip, j2, st2) = skip_run(pat, len, k, j, item.noise, p1, st1, 0);
        let (t, p2) = tail_bytes(cl, lvl_ge1, dl, skip, p1);
        proof {
            lemma_skip_run_advances(pat, len, k, j, item.noise, p1, st1, 0);
        }
        let (rest, st3) = encode_rows(lvl_ge1, table, pat, len, k, j2, p2, st2);
        (h + c + t + rest, st3)
    }
}

fn push_env_shape(e: u8, env: u16, out: &mut Vec<u8>)
    requires
        e <= 15,
    ensures
        final(out)@ == old(out)@ + env_shape_bytes(e, env),
{
    out.push(0xB1 + e);
    out.push((env / 256) as u8);
    out.push((env % 256) as u8);
    assert(out@ =~= old(out)@ + env_shape_bytes(e, env));
}

fn instrument_bytes_exec(cl: ChannelLine, env: u16, p: EncPrev, out: &mut Vec<u8>)
    requires
        cell_ok(cl),
    ensures
        final(out)@ == old(out)@ + instrument_bytes(cl, env, p),
{
    let ghost start = out@;
    let e = cl.envelope;
    let o = cl.ornament;
    let smp = cl.sample;
    let on = (e != 0 || o != 0) && (o as usize != p.ornament_prev || (p.ornament_prev != 0
        && cl.note == crate::types::NOTE_NONE));
    let sn = cl.note != crate::types::NOTE_NONE && smp != 0 && smp as usize != p.sample_prev;
    let f = sn && on && e != 0 && (e != 15 || p.envelope_prev != 0);
    assert(on == orn_needed(cl, p) && sn == sam_needed(cl, p) && f == fused(cl, p));
    if f {
        if e == 15 {
            out.push(0xF0 + o);
            out.push(smp * 2);
        } else {
            out.push(0x10 + e);
            out.push((env / 256) as u8);
            out.push((env % 256) as u8);
            out.push(smp * 2);
            out.push(0x40 + o);
        }
    }
    let ghost after1 = out@;
    if sn && !f {
        out.push(0xD0 + smp);
    }
    let ghost after2 = out@;
    if on && !f {
        out.push(0x40 + o);
        if 1 <= e && e <= 14 {
            push_env_shape(e, env, out);
        } else if e == 15 && p.envelope_prev != 0 {
            out.push(0xB0);
        }
    }
    let ghost after3 = out@;
    if !on && e > 0 {
        if e != 15 {
            push_env_shape(e, env, out);
        } else if p.envelope_prev != 0 {
            out.push(0xB0);
        }
    }
    assert(out@ =~= start + instrument_bytes(cl, env, p));
}

fn head_bytes_exec(cl: ChannelLine, env: u16, noise: u8, k: usize, p: EncPrev, out: &mut Vec<u8>) -> (r: EncPrev)
    requires
        cell_ok(cl),
        noise <= 31,
    ensures
        final(out)@ == old(out)@ + head_bytes(cl, env, noise, k as int, p).0,
        r == head_bytes(cl, env, noise, k as int, p).1,
{
    let ghost start = out@;
    instrument_bytes_exec(cl, env, p, out);
    let vol_new = cl.volume != 0 && cl.volume as i32 != p.volume_prev;
    if vol_new {
        out.push(0xC0 + cl.volume);
    }
    let noise_new = k == 1 && noise != p.prev_noise;
    if noise_new {
        out.push(0x20 + noise);
    }
    assert(out@ =~= start + head_bytes(cl, env, noise, k as int, p).0);
    let e = cl.envelope;
    let on = (e != 0 || cl.ornament != 0) && (cl.ornament as usize != p.ornament_prev || (
    p.ornament_prev != 0 && cl.note == crate::types::NOTE_NONE));
    let sn = cl.note != crate::types::NOTE_NONE && cl.sample != 0 && cl.sample as usize
        != p.sample_prev;
    EncPrev {
        sample_prev: if sn {
            cl.sample as usize
        } else {
            p.sample_prev
        },
        ornament_prev: if on {
            cl.ornament as usize
        } else {
            p.ornament_prev
        },
        envelope_prev: if e != 0 {
            if e < 15 {
                1i32
            } else {
                0i32
            }
        } else {
            p.envelope_prev
        },
        volume_prev: if vol_new {
            cl.volume as i32
        } else {
            p.volume_prev
        },
        prev_noise: if noise_new {
            noise
        } else {
            p.prev_noise
        },
        ..p
    }
}

/// Bound on the slide offset: `t` ticks of at most 70000 each.
pub open spec fn delt_bound(t: int) -> int {
    70000 * t
}

fn cmd_pre_exec(
    lvl_ge1: bool,
    table: u8,
    cl: ChannelLine,
    st: Slide,
    out: &mut Vec<u8>,
    Ghost(t): Ghost<int>,
) -> (r: (Slide, i64))
    requires
        0 <= t <= 0x100_0000,
        slide_ok(st, t),
        cell_ok(cl),
    ensures
        final(out)@ == old(out)@ + cmd_pre(lvl_ge1, table, cl, st).0,
        r.0 == cmd_pre(lvl_ge1, table, cl, st).1,
        r.1 == cmd_pre(lvl_ge1, table, cl, st).2,
        -255 <= r.0.tn_dl <= 255,
        0 <= r.0.tn_cur_dl <= 255,
        r.0.tn_dl != 0 ==> r.0.tn_cur_dl >= 1,
        -255 <= r.0.tn_stp <= 255,
        -(delt_bound(t) + 65535) <= r.0.delt_t <= delt_bound(t) + 65535,
        -(delt_bound(t) + 65535) <= r.1 <= delt_bound(t) + 65535,
{
    let ghost start = out@;
    let c = cl.additional_command;
    let dl0: i64 = st.delt_t;
    let mut st1 = st;
    let mut dl = dl0;
    if c.number == 1 || c.number == 2 {
        out.push(1);
        st1.tn_dl = if c.number == 1 {
            -(c.delay as i64)
        } else {
            c.delay as i64
        };
        st1.tn_cur_dl = c.delay as i64;
        st1.tn_stp = if c.number == 1 {
            c.parameter as i64
        } else {
            -(c.parameter as i64)
        };
    } else if c.number == 3 {
        if cl.note >= 0 || (cl.note != NOTE_SOUND_OFF && lvl_ge1) {
            out.push(2);
            if cl.note >= 0 {
                let f1 = crate::note_tables::get_note_freq(table, cl.note as u8);
                let f0 = crate::note_tables::get_note_freq(table, 0);
                dl = dl0 + f1 as i64 - f0 as i64;
            }
            st1 = Slide {
                delt_t: dl,
                tn_dl: -(c.delay as i64),
                tn_cur_dl: c.delay as i64,
                tn_stp: if dl >= 0 {
                    c.parameter as i64
                } else {
                    -(c.parameter as i64)
                },
            };
        }
    } else if 4 <= c.number && c.number <= 6 {
        out.push(c.number - 1);
    } else if c.number == 9 || c.number == 10 {
        out.push(8);
    } else if c.number == 11 && c.parameter != 0 {
        out.push(9);
    }
    if cl.note == NOTE_SOUND_OFF || (cl.note >= 0 && !(1 <= c.number && c.number <= 3)) {
        dl = 0;
        st1.tn_dl = 0;
        st1.delt_t = 0;
    }
    assert(out@ =~= start + cmd_pre(lvl_ge1, table, cl, st).0);
    (st1, dl)
}

fn slide_tick_exec(st: Slide) -> (r: Slide)
    requires
        -0x1000_0000_0000 <= st.delt_t <= 0x1000_0000_0000,
        -255 <= st.tn_dl <= 255,
        0 <= st.tn_cur_dl <= 255,
        st.tn_dl != 0 ==> st.tn_cur_dl >= 1,
        -255 <= st.tn_stp <= 255,
    ensures
        r == slide_tick(st),
        -255 <= r.tn_dl <= 255,
        0 <= r.tn_cur_dl <= 255,
        r.tn_dl != 0 ==> r.tn_cur_dl >= 1,
        r.tn_stp == st.tn_stp,
        st.delt_t - 255 <= r.delt_t <= st.delt_t + 255 || r.delt_t == 0,
{
    if st.tn_dl != 0 {
        let cur = st.tn_cur_dl - 1;
        if cur == 0 {
            let d = st.delt_t - st.tn_stp;
            let a = if st.tn_dl < 0 {
                -st.tn_dl
            } else {
                st.tn_dl
            };
            if st.tn_dl < 0 && ((d >= 0 && st.tn_stp < 0) || (d <= 0 && st.tn_stp >= 0)) {
                Slide { tn_dl: 0, delt_t: 0, tn_cur_dl: a, ..st }
            } else {
                Slide { delt_t: d, tn_cur_dl: a, ..st }
            }
        } else {
            Slide { tn_cur_dl: cur, ..st }
        }
    } else {
        st
    }
}

fn significant_exec(ncl: ChannelLine, k: usize, d_noise: u8, n_noise: u8, p: EncPrev) -> (r: bool)
    ensures
        r == significant(ncl, k as int, d_noise, n_noise, p),
{
    let c = ncl.additional_command;
    ncl.note != crate::types::NOTE_NONE || (c.number == 11 && c.parameter != 0) || !(c.number == 0
        || c.number == 11) || ncl.volume != 0 || (1 <= ncl.envelope && ncl.envelope <= 14) || (
    ncl.envelope == 15 && (p.envelope_prev != 0 || (ncl.ornament == 0 && p.ornament_prev != 0)))
        || ncl.ornament != 0 || (k == 1 && d_noise != n_noise)
}

fn tail_bytes_exec(
    cl: ChannelLine,
    lvl_ge1: bool,
    dl: i64,
    skip: usize,
    p: EncPrev,
    out: &mut Vec<u8>,
) -> (r: EncPrev)
    requires
        cell_ok(cl),
        1 <= skip <= 256,
        -0x1000_0000_0000 <= dl <= 0x1000_0000_0000,
    ensures
        final(out)@ == old(out)@ + tail_bytes(cl, lvl_ge1, dl as int, skip as int, p).0,
        r == tail_bytes(cl, lvl_ge1, dl as int, skip as int, p).1,
{
    let ghost start = out@;
    let c = cl.additional_command;
    let sk = skip as i32;
    if sk != p.skip_prev {
        out.push(0xB1);
        out.push(skip as u8);
    }
    if cl.note == NOTE_SOUND_OFF {
        out.push(0xC0);
    } else if cl.note == crate::types::NOTE_NONE {
        out.push(0xD0);
    } else {
        out.push((0x50 + cl.note as i32) as u8);
    }
    if c.number == 1 || c.number == 9 {
        out.push(c.delay);
        out.push(c.parameter);
        out.push(0);
    } else if c.number == 2 || c.number == 10 {
        out.push(c.delay);
        out.push(((256 - c.parameter as u32) % 256) as u8);
        out.push(0xFF);
    } else if c.number == 3 {
        if cl.note >= 0 || (cl.note != NOTE_SOUND_OFF && lvl_ge1) {
            if dl >= 0 {
                out.push(c.delay);
                out.push((dl % 256) as u8);
                out.push(((dl / 256) % 256) as u8);
                out.push(c.parameter);
                out.push(0);
            } else {
                let ndl = -dl;
                out.push(c.delay);
                out.push((ndl % 256) as u8);
                out.push(((ndl / 256) % 256) as u8);
                out.push(((256 - c.parameter as u32) % 256) as u8);
                out.push(0xFF);
            }
        }
    } else if c.number == 4 || c.number == 5 {
        out.push(c.parameter);
    } else if c.number == 6 {
        out.push(c.parameter / 16);
        out.push(c.parameter % 16);
    } else if c.number == 11 && c.parameter != 0 {
        out.push(c.parameter);
    }
    assert(out@ =~= start + tail_bytes(cl, lvl_ge1, dl as int, skip as int, p).0);
    EncPrev {
        skip_prev: if sk != p.skip_prev {
            sk
        } else {
            p.skip_prev
        },
        ..p
    }
}

#[verifier::spinoff_prover]
#[verifier::rlimit(40)]
fn encode_row(
    lvl_ge1: bool,
    table: u8,
    pat: &Pattern,
    k: usize,
    j: usize,
    p: EncPrev,
    st: Slide,
    out: &mut Vec<u8>,
    Ghost(t0): Ghost<int>,
) -> (r: (usize, EncPrev, Slide))
    requires
        pattern_ok(*pat),
        k < 3,
        j < pat.length,
        0 <= t0 <= 0x100_0000 - 256,
        slide_ok(st, t0 + j),
    ensures
        j < r.0 <= pat.length,
        slide_ok(r.2, t0 + r.0),
        ({
            let rest = encode_rows(lvl_ge1, table, *pat, pat.length as int, k as int, r.0 as int, r.1, r.2);
            let all = encode_rows(lvl_ge1, table, *pat, pat.length as int, k as int, j as int, p, st);
            &&& all.1 == rest.1
            &&& old(out)@ + all.0 == final(out)@ + rest.0
        }),
{
    let len = pat.length;
    let item = pat.items[j];
    let cl = item.channel[k];
    let ghost t = t0 + j;
    let ghost before = out@;
    let p1 = head_bytes_exec(cl, item.envelope, item.noise, k, p, out);
    let (st1, dl) = cmd_pre_exec(lvl_ge1, table, cl, st, out, Ghost(t));
    let d = j;
    let mut cnt: usize = 0;
    let mut jj: usize = j;
    let mut sst = st1;
    let ghost skip_target = skip_run(*pat, len as int, k as int, d as int, item.noise, p1, st1, 0);
    loop
        invariant_except_break
            jj < len,
            skip_run(*pat, len as int, k as int, jj as int, item.noise, p1, sst, cnt as int)
                == skip_target,
        invariant
            pattern_ok(*pat),
            len == pat.length,
            k < 3,
            d <= jj <= len,
            jj - d == cnt,
            d < len,
            item == pat.items[d as int],
            -255 <= sst.tn_dl <= 255,
            0 <= sst.tn_cur_dl <= 255,
            sst.tn_dl != 0 ==> sst.tn_cur_dl >= 1,
            -255 <= sst.tn_stp <= 255,
            -(delt_bound(t) + 65535 + 255 * cnt) <= sst.delt_t <= delt_bound(t) + 65535 + 255 * cnt,
            0 <= t <= 0x100_0000,
        ensures
            skip_target == (cnt as int, jj as int, sst),
            1 <= cnt,
        decreases len - jj,
    {
        proof {
            assert(delt_bound(t) + 65535 + 255 * cnt <= 0x1000_0000_0000) by (nonlinear_arith)
                requires
                    0 <= t <= 0x100_0000,
                    cnt <= 256,
            ;
        }
        sst = slide_tick_exec(sst);
        cnt = cnt + 1;
        jj = jj + 1;
        if jj >= len {
            break ;
        }
        let nitem = pat.items[jj];
        if significant_exec(nitem.channel[k], k, item.noise, nitem.noise, p1) {
            break ;
        }
    }
    proof {
        assert(delt_bound(t) + 65535 + 255 * cnt <= delt_bound(t0 + jj)) by (nonlinear_arith)
            requires
                cnt >= 1,
                t == t0 + d,
                jj == d + cnt,
        ;
        assert(-0x1000_0000_0000 <= dl <= 0x1000_0000_0000) by (nonlinear_arith)
            requires
                -(delt_bound(t) + 65535) <= dl <= delt_bound(t) + 65535,
                0 <= t <= 0x100_0000,
        ;
    }
    let ghost mid = out@;
    let p2 = tail_bytes_exec(cl, lvl_ge1, dl, cnt, p1, out);
    proof {
        lemma_skip_run_advances(*pat, len as int, k as int, d as int, item.noise, p1, st1, 0);
        let h = head_bytes(cl, item.envelope, item.noise, k as int, p).0;
        let c = cmd_pre(lvl_ge1, table, cl, st).0;
        let tl = tail_bytes(cl, lvl_ge1, dl as int, cnt as int, p1).0;
        let rest = encode_rows(lvl_ge1, table, *pat, len as int, k as int, jj as int, p2, sst);
        assert(encode_rows(lvl_ge1, table, *pat, len as int, k as int, j as int, p, st) == (
        h + c + tl + rest.0, rest.1));
        assert(out@ =~= before + h + c + tl);
        assert(before + (h + c + tl + rest.0) =~= out@ + rest.0);
    }
    (jj, p2, sst)
}

/// One channel's stream of one pattern (see [`encode_rows`]), appended to
/// `out`; `st0` carries the channel's tone slide across patterns.
fn encode_channel(
    lvl_ge1: bool,
    table: u8,
    pat: &Pattern,
    k: usize,
    st0: Slide,
    out: &mut Vec<u8>,
    Ghost(t0): Ghost<int>,
) -> (r: Slide)
    requires
        pattern_ok(*pat),
        k < 3,
        0 <= t0 <= 0x100_0000 - 256,
        slide_ok(st0, t0),
    ensures
        final(out)@ == old(out)@ + encode_rows(
            lvl_ge1,
            table,
            *pat,
            pat.length as int,
            k as int,
            0,
            enc_start(),
            st0,
        ).0,
        r == encode_rows(lvl_ge1, table, *pat, pat.length as int, k as int, 0, enc_start(), st0).1,
        slide_ok(r, t0 + pat.length),
{
    let len = pat.length;
    let ghost target = encode_rows(lvl_ge1, table, *pat, len as int, k as int, 0, enc_start(), st0);
    let ghost start = out@;
    let mut j: usize = 0;
    let mut p = EncPrev {
        sample_prev: usize::MAX,
        ornament_prev: usize::MAX,
        envelope_prev: -1,
        volume_prev: -1,
        skip_prev: 255,
        prev_noise: 0,
    };
    let mut st = st0;
    while j < len
        invariant
            pattern_ok(*pat),
            len == pat.length,
            k < 3,
            j <= len,
            0 <= t0 <= 0x100_0000 - 256,
            slide_ok(st, t0 + j),
            ({
                let rest = encode_rows(lvl_ge1, table, *pat, len as int, k as int, j as int, p, st);
                out@ + rest.0 == start + target.0 && rest.1 == target.1
            }),
        decreases len - j,
    {
        let (jj, p2, st2) = encode_row(lvl_ge1, table, pat, k, j, p, st, out, Ghost(t0));
        j = jj;
        p = p2;
        st = st2;
    }
    out.push(0);
    assert(out@ =~= start + target.0);
    st
}

// ─── Writer: positions and pattern numbering ─────────────────────────────────

/// Pattern `i` is played by one of the first `n` positions.
pub open spec fn pattern_played(pos: Seq<usize>, n: int, i: int) -> bool {
    exists|k: int| 0 <= k < n && #[trigger] pos[k] == i
}

/// The highest pattern number among the first `n` positions (0 when none).
pub open spec fn max_played(pos: Seq<usize>, n: int) -> int
    decreases n,
{
    if n <= 0 {
        0
    } else {
        let m = max_played(pos, n - 1);
        if pos[n - 1] > m {
            pos[n - 1] as int
        } else {
            m
        }
    }
}

/// How many of the patterns `0..=i` no position plays.
pub open spec fn gaps_upto(pos: Seq<usize>, n: int, i: int) -> int
    decreases i + 1,
{
    if i < 0 {
        0
    } else {
        gaps_upto(pos, n, i - 1) + if pattern_played(pos, n, i) {
            0int
        } else {
            1int
        }
    }
}

/// The file's number of pattern `i`: the played patterns numbered in order
/// with the gaps closed up.
pub open spec fn compact_index(pos: Seq<usize>, n: int, i: int) -> int {
    if i > max_played(pos, n) || i - gaps_upto(pos, n, i) < 0 {
        0
    } else {
        i - gaps_upto(pos, n, i)
    }
}

/// The position list as stored: three times the file's pattern number, then
/// the 0xFF terminator.
pub open spec fn position_bytes(pos: Seq<usize>, n: int) -> Seq<u8> {
    Seq::new(n as nat, |k: int| (compact_index(pos, n, pos[k] as int) * 3) as u8) + seq![0xFFu8]
}

proof fn lemma_max_played(pos: Seq<usize>, n: int)
    requires
        0 <= n <= pos.len(),
        forall|k: int| 0 <= k < n ==> pos[k] < MAX_NUM_OF_PATS,
    ensures
        0 <= max_played(pos, n) < MAX_NUM_OF_PATS,
        forall|k: int| 0 <= k < n ==> pos[k] <= max_played(pos, n),
        n > 0 ==> pattern_played(pos, n, max_played(pos, n)),
    decreases n,
{
    if n > 0 {
        lemma_max_played(pos, n - 1);
        if pos[n - 1] <= max_played(pos, n - 1) && n > 1 {
            let w = choose|k: int| 0 <= k < n - 1 && #[trigger] pos[k] == max_played(pos, n - 1);
            assert(pos[w] == max_played(pos, n));
        }
    }
}

proof fn lemma_gaps_bounds(pos: Seq<usize>, n: int, i: int)
    requires
        i >= -1,
    ensures
        0 <= gaps_upto(pos, n, i) <= i + 1,
        pattern_played(pos, n, i) ==> gaps_upto(pos, n, i) <= i,
    decreases i + 1,
{
    if i >= 0 {
        lemma_gaps_bounds(pos, n, i - 1);
    }
}

/// The file's pattern numbers of patterns `0..85` (and the highest played).
fn compact_numbers(pos: &[usize; 256], n: usize) -> (r: ([usize; 85], usize, [bool; 85]))
    requires
        n <= 256,
        forall|k: int| 0 <= k < n ==> pos@[k] < MAX_NUM_OF_PATS,
    ensures
        r.1 == max_played(pos@, n as int),
        r.1 < 85,
        forall|i: int| 0 <= i < 85 ==> #[trigger] r.2@[i] == pattern_played(pos@, n as int, i),
        forall|i: int| 0 <= i < 85 ==> #[trigger] r.0@[i] == compact_index(pos@, n as int, i),
        forall|i: int| 0 <= i < 85 ==> r.0@[i] <= i,
{
    let mut used = [false; 85];
    let mut maxp: usize = 0;
    let mut k: usize = 0;
    while k < n
        invariant
            k <= n <= 256,
            forall|q: int| 0 <= q < n ==> pos@[q] < MAX_NUM_OF_PATS,
            maxp == max_played(pos@, k as int),
            forall|i: int| 0 <= i < 85 ==> #[trigger] used@[i] == pattern_played(pos@, k as int, i),
        decreases n - k,
    {
        let p = pos[k];
        used[p] = true;
        if p > maxp {
            maxp = p;
        }
        k = k + 1;
        assert forall|i: int| 0 <= i < 85 implies #[trigger] used@[i] == pattern_played(
            pos@,
            k as int,
            i,
        ) by {
            if pattern_played(pos@, k as int, i) {
                let w = choose|w: int| 0 <= w < k && #[trigger] pos@[w] == i;
                if w < k - 1 {
                    assert(pattern_played(pos@, k - 1, i));
                }
            }
            if pattern_played(pos@, k - 1, i) {
                let w = choose|w: int| 0 <= w < k - 1 && #[trigger] pos@[w] == i;
                assert(pos@[w] == i);
            }
        }
    }
    proof {
        lemma_max_played(pos@, n as int);
    }
    let mut map = [0usize; 85];
    let mut gap: usize = 0;
    let mut i: usize = 0;
    while i <= maxp
        invariant
            maxp == max_played(pos@, n as int) < 85,
            i <= maxp + 1,
            gap == gaps_upto(pos@, n as int, i - 1),
            gap <= i,
            forall|q: int| 0 <= q < 85 ==> #[trigger] used@[q] == pattern_played(pos@, n as int, q),
            forall|q: int| 0 <= q < i ==> #[trigger] map@[q] == compact_index(pos@, n as int, q),
            forall|q: int| i <= q < 85 ==> #[trigger] map@[q] == 0,
            forall|q: int| 0 <= q < 85 ==> map@[q] <= q,
        decreases maxp + 1 - i,
    {
        if !used[i] {
            gap = gap + 1;
        }
        proof {
            lemma_gaps_bounds(pos@, n as int, i as int);
        }
        map[i] = if i >= gap {
            i - gap
        } else {
            0
        };
        i = i + 1;
    }
    proof {
        assert forall|q: int| 0 <= q < 85 implies #[trigger] map@[q] == compact_index(
            pos@,
            n as int,
            q,
        ) by {
            if q > maxp {
                assert(map@[q] == 0);
            }
        }
    }
    (map, maxp, used)
}

// ─── Writer: compiling the patterns ──────────────────────────────────────────

/// The stream that stands for a missing pattern on every channel: 64 empty
/// rows.
pub open spec fn empty_stream() -> Seq<u8> {
    seq![0xB1u8, 64, 0xD0, 0x00]
}

/// The module is written with tone slides that may start without a note
/// (Vortex Tracker II and Pro Tracker 3.7 files).
pub open spec fn level_ge1(m: Module) -> bool {
    m.features_level != FeaturesLevel::Pt35
}

/// The channel streams of the patterns played from position `k1` on, each
/// pattern compiled once, in the order of first play, with equal streams
/// stored once; `pidx[c]` gives the stream of each channel of file pattern
/// `c`.  `sl` is each channel's tone slide, carried from pattern to pattern.
pub open spec fn compile_from(
    m: Module,
    map: Seq<usize>,
    n: int,
    k1: int,
    strs: Seq<Seq<u8>>,
    pidx: Seq<[usize; 3]>,
    done: Seq<bool>,
    sl: [Slide; 3],
) -> (Seq<Seq<u8>>, Seq<[usize; 3]>)
    decreases n - k1,
{
    if k1 >= n || k1 < 0 || k1 >= 256 {
        (strs, pidx)
    } else {
        let i = m.positions.value[k1] as int;
        let pn = map[i] as int;
        if done[i] {
            compile_from(m, map, n, k1 + 1, strs, pidx, done, sl)
        } else {
            match m.patterns@[i] {
                None => {
                    let (s2, e) = dedup(strs, empty_stream());
                    compile_from(
                        m,
                        map,
                        n,
                        k1 + 1,
                        s2,
                        pidx.update(pn, [e as usize, e as usize, e as usize]),
                        done.update(i, true),
                        sl,
                    )
                },
                Some(p) => {
                    let lvl = level_ge1(m);
                    let tb = m.ton_table;
                    let (b0, t0) = encode_rows(lvl, tb, *p, p.length as int, 0, 0, enc_start(), sl[0]);
                    let (b1, t1) = encode_rows(lvl, tb, *p, p.length as int, 1, 0, enc_start(), sl[1]);
                    let (b2, t2) = encode_rows(lvl, tb, *p, p.length as int, 2, 0, enc_start(), sl[2]);
                    let (s1, i0) = dedup(strs, b0);
                    let (s2, i1) = dedup(s1, b1);
                    let (s3, i2) = dedup(s2, b2);
                    compile_from(
                        m,
                        map,
                        n,
                        k1 + 1,
                        s3,
                        pidx.update(pn, [i0 as usize, i1 as usize, i2 as usize]),
                        done.update(i, true),
                        [t0, t1, t2],
                    )
                },
            }
        }
    }
}

/// The slide state before any pattern.
pub open spec fn slide_start() -> Slide {
    Slide { delt_t: 0, tn_dl: 0, tn_cur_dl: 0, tn_stp: 0 }
}

/// The channel streams and stream indices of the whole module.
pub open spec fn compiled(m: Module, map: Seq<usize>) -> (Seq<Seq<u8>>, Seq<[usize; 3]>) {
    compile_from(
        m,
        map,
        m.positions.length as int,
        0,
        seq![],
        Seq::new(85, |i: int| [0usize, 0usize, 0usize]),
        Seq::new(85, |i: int| false),
        [slide_start(), slide_start(), slide_start()],
    )
}

/// The module can be written: at most 256 positions, each naming one of
/// the 85 patterns; every played pattern encodable; samples at most 64
/// ticks and ornaments at most 255 steps long.
pub open spec fn writable(m: Module) -> bool {
    &&& m.wf()
    &&& m.positions.length <= 256
    &&& forall|k: int|
        0 <= k < m.positions.length ==> #[trigger] m.positions.value[k] < MAX_NUM_OF_PATS
    &&& forall|i: int|
        0 <= i < MAX_NUM_OF_PATS ==> (#[trigger] m.patterns@[i] matches Some(p) ==> pattern_ok(*p))
    &&& forall|i: int| 0 <= i < 32 ==> (#[trigger] m.samples[i] matches Some(s) ==> s.length <= 64)
    &&& forall|i: int|
        0 <= i < 16 ==> (#[trigger] m.ornaments[i] matches Some(o) ==> o.length <= 255)
}

fn compile_patterns(m: &Module, map: &[usize; 85]) -> (r: (Vec<Vec<u8>>, Vec<[usize; 3]>))
    requires
        writable(*m),
        forall|i: int| 0 <= i < 85 ==> map@[i] <= i,
    ensures
        views(r.0@) == compiled(*m, map@).0,
        r.1@ == compiled(*m, map@).1,
        r.1@.len() == 85,
        forall|i: int, ch: int|
            0 <= i < 85 && 0 <= ch < 3 && pattern_played(m.positions.value@, m.positions.length as int, i)
                ==> #[trigger] r.1@[map@[i] as int][ch] < r.0@.len(),
{
    let n = m.positions.length;
    let lvl = match m.features_level {
        FeaturesLevel::Pt35 => false,
        _ => true,
    };
    let mut strs: Vec<Vec<u8>> = Vec::new();
    let mut pidx: Vec<[usize; 3]> = Vec::new();
    let mut q: usize = 0;
    while q < 85
        invariant
            q <= 85,
            pidx@ == Seq::new(q as nat, |i: int| [0usize, 0usize, 0usize]),
        decreases 85 - q,
    {
        pidx.push([0, 0, 0]);
        q = q + 1;
        assert(pidx@ =~= Seq::new(q as nat, |i: int| [0usize, 0usize, 0usize]));
    }
    let mut done = [false; 85];
    assert(done@ =~= Seq::new(85, |i: int| false));
    let mut sl: [Slide; 3] = [
        Slide { delt_t: 0, tn_dl: 0, tn_cur_dl: 0, tn_stp: 0 },
        Slide { delt_t: 0, tn_dl: 0, tn_cur_dl: 0, tn_stp: 0 },
        Slide { delt_t: 0, tn_dl: 0, tn_cur_dl: 0, tn_stp: 0 },
    ];
    let ghost target = compiled(*m, map@);
    assert(views(strs@) =~= seq![]);
    assert(sl == [slide_start(), slide_start(), slide_start()]);
    let mut k1: usize = 0;
    while k1 < n
        invariant
            writable(*m),
            n == m.positions.length,
            k1 <= n,
            forall|i: int| 0 <= i < 85 ==> map@[i] <= i,
            pidx@.len() == 85,
            forall|i: int, ch: int|
                0 <= i < 85 && 0 <= ch < 3 && done@[i] ==> #[trigger] pidx@[map@[i] as int][ch]
                    < strs@.len(),
            forall|k: int| 0 <= k < k1 ==> #[trigger] done@[m.positions.value@[k] as int],
            forall|k: int| 0 <= k < 3 ==> slide_ok(#[trigger] sl[k], 256 * k1),
            lvl == level_ge1(*m),
            compile_from(*m, map@, n as int, k1 as int, views(strs@), pidx@, done@, sl) == target,
            target == compiled(*m, map@),
        decreases n - k1,
    {
        let i = m.positions.value[k1];
        let pn = map[i];
        if done[i] {
            proof {
                assert forall|k: int| 0 <= k < 3 implies slide_ok(#[trigger] sl[k], 256 * (k1 + 1)) by {
                    assert(slide_ok(sl[k], 256 * k1));
                }
            }
            k1 = k1 + 1;
            continue ;
        }
        match &m.patterns[i] {
            None => {
                let es: [u8; 4] = [0xB1, 64, 0xD0, 0x00];
                assert(es@ =~= empty_stream());
                let e = find_or_push(&mut strs, &es);
                pidx.set(pn, [e, e, e]);
                done[i] = true;
                proof {
                    assert forall|k: int| 0 <= k < 3 implies slide_ok(#[trigger] sl[k], 256 * (k1 + 1)) by {
                        assert(slide_ok(sl[k], 256 * k1));
                    }
                }
            },
            Some(p) => {
                let pat: &Pattern = &**p;
                let mut c0: Vec<u8> = Vec::new();
                let t0 = encode_channel(lvl, m.ton_table, pat, 0, sl[0], &mut c0, Ghost(256 * k1 as int));
                let mut c1: Vec<u8> = Vec::new();
                let t1 = encode_channel(lvl, m.ton_table, pat, 1, sl[1], &mut c1, Ghost(256 * k1 as int));
                let mut c2: Vec<u8> = Vec::new();
                let t2 = encode_channel(lvl, m.ton_table, pat, 2, sl[2], &mut c2, Ghost(256 * k1 as int));
                assert(c0@ =~= seq![] + c0@);
                let i0 = find_or_push(&mut strs, c0.as_slice());
                let i1 = find_or_push(&mut strs, c1.as_slice());
                let i2 = find_or_push(&mut strs, c2.as_slice());
                pidx.set(pn, [i0, i1, i2]);
                done[i] = true;
                sl = [t0, t1, t2];
                proof {
                    assert forall|k: int| 0 <= k < 3 implies slide_ok(#[trigger] sl[k], 256 * (k1 + 1)) by {
                        assert(pat.length <= 256);
                    }
                }
            },
        }
        k1 = k1 + 1;
    }
    proof {
        assert forall|i: int, ch: int|
            0 <= i < 85 && 0 <= ch < 3 && pattern_played(
                m.positions.value@,
                m.positions.length as int,
                i,
            ) implies #[trigger] pidx@[map@[i] as int][ch] < strs@.len() by {
            let w = choose|w: int| 0 <= w < n && #[trigger] m.positions.value@[w] == i;
            assert(done@[m.positions.value@[w] as int]);
        }
    }
    (strs, pidx)
}

// ─── Writer: which samples and ornaments are stored ──────────────────────────

/// Some row of `p` names sample `s`.
pub open spec fn pattern_uses_sample(p: Pattern, s: int) -> bool {
    exists|j: int, ch: int|
        0 <= j < p.length && 0 <= ch < 3 && #[trigger] p.items[j].channel[ch].sample == s
}

/// Some row of `p` names ornament `o` with an envelope or ornament set.
pub open spec fn pattern_uses_ornament(p: Pattern, o: int) -> bool {
    exists|j: int, ch: int|
        0 <= j < p.length && 0 <= ch < 3 && #[trigger] p.items[j].channel[ch].ornament == o && (
        p.items[j].channel[ch].envelope != 0 || p.items[j].channel[ch].ornament != 0)
}

/// The pattern in slot `po` exists and names sample `s`.
pub open spec fn slot_uses_sample(po: Option<Box<Pattern>>, s: int) -> bool {
    match po {
        Some(p) => pattern_uses_sample(*p, s),
        None => false,
    }
}

/// The pattern in slot `po` exists and names ornament `o`.
pub open spec fn slot_uses_ornament(po: Option<Box<Pattern>>, o: int) -> bool {
    match po {
        Some(p) => pattern_uses_ornament(*p, o),
        None => false,
    }
}

/// Sample `s` (1..31) is named by a pattern the module plays.
pub open spec fn sample_used(m: Module, s: int) -> bool {
    &&& 1 <= s <= 31
    &&& exists|k: int|
        0 <= k < m.positions.length && #[trigger] slot_uses_sample(
            m.patterns@[m.positions.value[k] as int],
            s,
        )
}

/// Ornament `o` (1..15) is named by a pattern the module plays.
pub open spec fn ornament_used(m: Module, o: int) -> bool {
    &&& 1 <= o <= 15
    &&& exists|k: int|
        0 <= k < m.positions.length && #[trigger] slot_uses_ornament(
            m.patterns@[m.positions.value[k] as int],
            o,
        )
}

fn mark_pattern(p: &Pattern, su: &mut [bool; 32], ou: &mut [bool; 16])
    requires
        p.length <= 256,
    ensures
        forall|s: int| 0 <= s < 32 ==> #[trigger] final(su)@[s] == (old(su)@[s] || (1 <= s <= 31
            && pattern_uses_sample(*p, s))),
        forall|o: int| 0 <= o < 16 ==> #[trigger] final(ou)@[o] == (old(ou)@[o] || (1 <= o <= 15
            && pattern_uses_ornament(*p, o))),
{
    let mut j: usize = 0;
    while j < p.length
        invariant
            p.length <= 256,
            j <= p.length,
            forall|s: int| 0 <= s < 32 ==> #[trigger] su@[s] == (old(su)@[s] || (1 <= s <= 31 && exists|
                jj: int,
                ch: int,
            | 0 <= jj < j && 0 <= ch < 3 && #[trigger] p.items[jj].channel[ch].sample == s)),
            forall|o: int| 0 <= o < 16 ==> #[trigger] ou@[o] == (old(ou)@[o] || (1 <= o <= 15 && exists|
                jj: int,
                ch: int,
            | 0 <= jj < j && 0 <= ch < 3 && #[trigger] p.items[jj].channel[ch].ornament == o && (
            p.items[jj].channel[ch].envelope != 0 || p.items[jj].channel[ch].ornament != 0))),
        decreases p.length - j,
    {
        let row = p.items[j];
        let ghost su0 = su@;
        let ghost ou0 = ou@;
        let mut ch: usize = 0;
        while ch < 3
            invariant
                j < p.length <= 256,
                row == p.items[j as int],
                ch <= 3,
                forall|s: int| 0 <= s < 32 ==> #[trigger] su@[s] == (su0[s] || (1 <= s <= 31 && exists|
                    c: int,
                | 0 <= c < ch && #[trigger] row.channel[c].sample == s)),
                forall|o: int| 0 <= o < 16 ==> #[trigger] ou@[o] == (ou0[o] || (1 <= o <= 15 && exists|
                    c: int,
                | 0 <= c < ch && #[trigger] row.channel[c].ornament == o && (row.channel[c].envelope
                    != 0 || row.channel[c].ornament != 0))),
            decreases 3 - ch,
        {
            let cl = row.channel[ch];
            let sm = cl.sample as usize;
            if 1 <= sm && sm <= 31 {
                su[sm] = true;
            }
            let on = cl.ornament as usize;
            if (cl.envelope != 0 || cl.ornament != 0) && 1 <= on && on <= 15 {
                ou[on] = true;
            }
            ch = ch + 1;
            proof {
                assert forall|s: int| 0 <= s < 32 implies #[trigger] su@[s] == (su0[s] || (1 <= s <= 31
                    && exists|c: int| 0 <= c < ch && #[trigger] row.channel[c].sample == s)) by {
                    if exists|c: int| 0 <= c < ch && #[trigger] row.channel[c].sample == s {
                        let c = choose|c: int| 0 <= c < ch && #[trigger] row.channel[c].sample == s;
                        if c < ch - 1 {
                            assert(exists|c2: int| 0 <= c2 < ch - 1 && #[trigger] row.channel[c2].sample == s);
                        }
                    }
                }
                assert forall|o: int| 0 <= o < 16 implies #[trigger] ou@[o] == (ou0[o] || (1 <= o <= 15
                    && exists|c: int|
                    0 <= c < ch && #[trigger] row.channel[c].ornament == o && (row.channel[c].envelope
                        != 0 || row.channel[c].ornament != 0))) by {
                    if exists|c: int|
                        0 <= c < ch && #[trigger] row.channel[c].ornament == o && (row.channel[c].envelope
                            != 0 || row.channel[c].ornament != 0) {
                        let c = choose|c: int|
                            0 <= c < ch && #[trigger] row.channel[c].ornament == o && (row.channel[c].envelope
                                != 0 || row.channel[c].ornament != 0);
                        if c < ch - 1 {
                            assert(exists|c2: int|
                                0 <= c2 < ch - 1 && #[trigger] row.channel[c2].ornament == o && (
                                row.channel[c2].envelope != 0 || row.channel[c2].ornament != 0));
                        }
                    }
                }
            }
        }
        j = j + 1;
        proof {
            assert forall|s: int| 0 <= s < 32 implies #[trigger] su@[s] == (old(su)@[s] || (1 <= s <= 31
                && exists|jj: int, c: int|
                0 <= jj < j && 0 <= c < 3 && #[trigger] p.items[jj].channel[c].sample == s)) by {
                if exists|jj: int, c: int|
                    0 <= jj < j && 0 <= c < 3 && #[trigger] p.items[jj].channel[c].sample == s {
                    let (jj, c) = choose|jj: int, c: int|
                        0 <= jj < j && 0 <= c < 3 && #[trigger] p.items[jj].channel[c].sample == s;
                    if jj < j - 1 {
                        assert(exists|jj2: int, c2: int|
                            0 <= jj2 < j - 1 && 0 <= c2 < 3 && #[trigger] p.items[jj2].channel[c2].sample
                                == s);
                    } else {
                        assert(row.channel[c].sample == s);
                    }
                }
                if su0[s] != old(su)@[s] || (1 <= s <= 31 && exists|c: int|
                    0 <= c < 3 && #[trigger] row.channel[c].sample == s) {
                    if exists|c: int| 0 <= c < 3 && #[trigger] row.channel[c].sample == s {
                        let c = choose|c: int| 0 <= c < 3 && #[trigger] row.channel[c].sample == s;
                        assert(p.items[j - 1].channel[c].sample == s);
                    }
                }
            }
            assert forall|o: int| 0 <= o < 16 implies #[trigger] ou@[o] == (old(ou)@[o] || (1 <= o <= 15
                && exists|jj: int, c: int|
                0 <= jj < j && 0 <= c < 3 && #[trigger] p.items[jj].channel[c].ornament == o && (
                p.items[jj].channel[c].envelope != 0 || p.items[jj].channel[c].ornament != 0))) by {
                if exists|jj: int, c: int|
                    0 <= jj < j && 0 <= c < 3 && #[trigger] p.items[jj].channel[c].ornament == o && (
                    p.items[jj].channel[c].envelope != 0 || p.items[jj].channel[c].ornament != 0) {
                    let (jj, c) = choose|jj: int, c: int|
                        0 <= jj < j && 0 <= c < 3 && #[trigger] p.items[jj].channel[c].ornament == o && (
                        p.items[jj].channel[c].envelope != 0 || p.items[jj].channel[c].ornament != 0);
                    if jj < j - 1 {
                        assert(exists|jj2: int, c2: int|
                            0 <= jj2 < j - 1 && 0 <= c2 < 3 && #[trigger] p.items[jj2].channel[c2].ornament
                                == o && (p.items[jj2].channel[c2].envelope != 0
                                || p.items[jj2].channel[c2].ornament != 0));
                    } else {
                        assert(row.channel[c].ornament == o);
                    }
                }
                if exists|c: int|
                    0 <= c < 3 && #[trigger] row.channel[c].ornament == o && (row.channel[c].envelope
                        != 0 || row.channel[c].ornament != 0) {
                    let c = choose|c: int|
                        0 <= c < 3 && #[trigger] row.channel[c].ornament == o && (row.channel[c].envelope
                            != 0 || row.channel[c].ornament != 0);
                    assert(p.items[j - 1].channel[c].ornament == o);
                }
            }
        }
    }
}

fn usage(m: &Module) -> (r: ([bool; 32], [bool; 16]))
    requires
        writable(*m),
    ensures
        forall|s: int| 0 <= s < 32 ==> #[trigger] r.0@[s] == sample_used(*m, s),
        forall|o: int| 0 <= o < 16 ==> #[trigger] r.1@[o] == ornament_used(*m, o),
{
    let mut su = [false; 32];
    let mut ou = [false; 16];
    let n = m.positions.length;
    let mut k: usize = 0;
    while k < n
        invariant
            writable(*m),
            n == m.positions.length,
            k <= n,
            forall|s: int| 0 <= s < 32 ==> #[trigger] su@[s] == (1 <= s <= 31 && exists|q: int|
                0 <= q < k && #[trigger] slot_uses_sample(m.patterns@[m.positions.value[q] as int], s)),
            forall|o: int| 0 <= o < 16 ==> #[trigger] ou@[o] == (1 <= o <= 15 && exists|q: int|
                0 <= q < k && #[trigger] slot_uses_ornament(m.patterns@[m.positions.value[q] as int], o)),
        decreases n - k,
    {
        let i = m.positions.value[k];
        let ghost su0 = su@;
        let ghost ou0 = ou@;
        match &m.patterns[i] {
            Some(p) => {
                mark_pattern(&**p, &mut su, &mut ou);
            },
            None => {},
        }
        k = k + 1;
        proof {
            assert forall|s: int| 0 <= s < 32 implies #[trigger] su@[s] == (1 <= s <= 31 && exists|q: int|
                0 <= q < k && #[trigger] slot_uses_sample(m.patterns@[m.positions.value[q] as int], s)) by {
                if exists|q: int|
                    0 <= q < k && #[trigger] slot_uses_sample(m.patterns@[m.positions.value[q] as int], s) {
                    let q = choose|q: int|
                        0 <= q < k && #[trigger] slot_uses_sample(m.patterns@[m.positions.value[q] as int], s);
                    if q < k - 1 {
                        assert(exists|q2: int|
                            0 <= q2 < k - 1 && #[trigger] slot_uses_sample(
                                m.patterns@[m.positions.value[q2] as int],
                                s,
                            ));
                    }
                }
                if slot_uses_sample(m.patterns@[i as int], s) {
                    assert(slot_uses_sample(m.patterns@[m.positions.value[k - 1] as int], s));
                }
            }
            assert forall|o: int| 0 <= o < 16 implies #[trigger] ou@[o] == (1 <= o <= 15 && exists|q: int|
                0 <= q < k && #[trigger] slot_uses_ornament(m.patterns@[m.positions.value[q] as int], o)) by {
                if exists|q: int|
                    0 <= q < k && #[trigger] slot_uses_ornament(m.patterns@[m.positions.value[q] as int], o) {
                    let q = choose|q: int|
                        0 <= q < k && #[trigger] slot_uses_ornament(m.patterns@[m.positions.value[q] as int], o);
                    if q < k - 1 {
                        assert(exists|q2: int|
                            0 <= q2 < k - 1 && #[trigger] slot_uses_ornament(
                                m.patterns@[m.positions.value[q2] as int],
                                o,
                            ));
                    }
                }
                if slot_uses_ornament(m.patterns@[i as int], o) {
                    assert(slot_uses_ornament(m.patterns@[m.positions.value[k - 1] as int], o));
                }
            }
        }
    }
    (su, ou)
}

// ─── Writer: laying out samples and ornaments ────────────────────────────────

/// The bytes stored for sample slot `s`.
pub open spec fn sample_content(m: Module, s: int) -> Seq<u8> {
    match m.samples[s] {
        Some(b) => sample_bytes(*b),
        None => placeholder_sample_bytes(),
    }
}

/// The bytes stored for ornament slot `o`.
pub open spec fn ornament_content(m: Module, o: int) -> Seq<u8> {
    match m.ornaments[o] {
        Some(b) => ornament_bytes(*b),
        None => placeholder_ornament_bytes(),
    }
}

/// The first used slot from `j` on, before `s`, whose bytes equal those of
/// slot `s`; `s` itself when there is none.
pub open spec fn first_same(cs: Seq<Seq<u8>>, used: Seq<bool>, s: int, j: int) -> int
    decreases s - j,
{
    if j >= s || j < 0 {
        s
    } else if used[j] && cs[j] == cs[s] {
        j
    } else {
        first_same(cs, used, s, j + 1)
    }
}

/// Slots `s..` laid out from offset `pos`: each used slot whose bytes equal
/// an earlier used slot's shares its offset, the others are stored in turn.
/// Gives the stored bytes, each slot's offset (0 when unused), the next
/// offset and whether every block started at most at 65533 and ended within
/// 64 KiB.
pub open spec fn block_pass(
    cs: Seq<Seq<u8>>,
    used: Seq<bool>,
    s: int,
    pos: int,
    area: Seq<u8>,
    ptrs: Seq<usize>,
    ok: bool,
) -> (Seq<u8>, Seq<usize>, int, bool)
    decreases cs.len() - s,
{
    if s >= cs.len() || s < 1 {
        (area, ptrs, pos, ok)
    } else if !used[s] {
        block_pass(cs, used, s + 1, pos, area, ptrs, ok)
    } else {
        let j = first_same(cs, used, s, 1);
        if j < s {
            block_pass(cs, used, s + 1, pos, area, ptrs.update(s, ptrs[j]), ok)
        } else {
            let c = cs[s];
            block_pass(
                cs,
                used,
                s + 1,
                pos + c.len(),
                area + c,
                ptrs.update(s, pos as usize),
                ok && pos <= 65533 && pos + c.len() <= 65536,
            )
        }
    }
}

proof fn lemma_block_pass_fails(
    cs: Seq<Seq<u8>>,
    used: Seq<bool>,
    s: int,
    pos: int,
    area: Seq<u8>,
    ptrs: Seq<usize>,
)
    ensures
        !block_pass(cs, used, s, pos, area, ptrs, false).3,
    decreases cs.len() - s,
{
    if s >= cs.len() || s < 1 {
    } else if !used[s] {
        lemma_block_pass_fails(cs, used, s + 1, pos, area, ptrs);
    } else {
        let j = first_same(cs, used, s, 1);
        if j < s {
            lemma_block_pass_fails(cs, used, s + 1, pos, area, ptrs.update(s, ptrs[j]));
        } else {
            let c = cs[s];
            lemma_block_pass_fails(cs, used, s + 1, pos + c.len(), area + c, ptrs.update(s, pos as usize));
        }
    }
}

proof fn lemma_first_same_bounds(cs: Seq<Seq<u8>>, used: Seq<bool>, s: int, j: int)
    requires
        0 <= j,
    ensures
        first_same(cs, used, s, j) == s || (j <= first_same(cs, used, s, j) < s),
    decreases s - j,
{
    if j < s && !(used[j] && cs[j] == cs[s]) {
        lemma_first_same_bounds(cs, used, s, j + 1);
    }
}

/// Lay out the blocks `cs` (see [`block_pass`]) from offset `start`,
/// appending the stored bytes to `out`; `None` when they do not fit.
fn layout_blocks(cs: &Vec<Vec<u8>>, used: &[bool], start: usize, out: &mut Vec<u8>) -> (r: Option<
    (Vec<usize>, usize),
>)
    requires
        used@.len() == cs@.len(),
        1 <= cs@.len() <= 32,
        start <= 65536,
        forall|s: int| 0 <= s < cs@.len() ==> (#[trigger] cs@[s])@.len() <= 258,
    ensures
        ({
            let bp = block_pass(
                views(cs@),
                used@,
                1,
                start as int,
                seq![],
                Seq::new(cs@.len(), |i: int| 0usize),
                true,
            );
            &&& bp.3 <==> r is Some
            &&& r matches Some(t) ==> (final(out)@ == old(out)@ + bp.0 && t.0@ == bp.1 && t.1 == bp.2
                && t.1 <= 65536 && t.0@.len() == cs@.len())
        }),
{
    let n = cs.len();
    let ghost vcs = views(cs@);
    let mut ptrs: Vec<usize> = Vec::new();
    let mut q: usize = 0;
    while q < n
        invariant
            q <= n,
            ptrs@ == Seq::new(q as nat, |i: int| 0usize),
        decreases n - q,
    {
        ptrs.push(0);
        q = q + 1;
        assert(ptrs@ =~= Seq::new(q as nat, |i: int| 0usize));
    }
    let ghost target = block_pass(vcs, used@, 1, start as int, seq![], ptrs@, true);
    let ghost out0 = out@;
    let mut pos: usize = start;
    let mut s: usize = 1;
    assert(out@.subrange(out0.len() as int, out@.len() as int) =~= seq![]);
    assert(out@.subrange(0, out0.len() as int) =~= out0);
    while s < n
        invariant
            n == cs@.len() == used@.len(),
            1 <= n <= 32,
            1 <= s <= n,
            vcs == views(cs@),
            ptrs@.len() == n,
            pos <= 65536,
            forall|t: int| 0 <= t < cs@.len() ==> (#[trigger] cs@[t])@.len() <= 258,
            ({
                let bp = block_pass(vcs, used@, s as int, pos as int, out@.subrange(out0.len() as int, out@.len() as int), ptrs@, true);
                bp == target
            }),
            out@.len() >= out0.len(),
            out@.subrange(0, out0.len() as int) == out0,
            target == block_pass(vcs, used@, 1, start as int, seq![], Seq::new(n as nat, |i: int| 0usize), true),
        decreases n - s,
    {
        let ghost area = out@.subrange(out0.len() as int, out@.len() as int);
        if !used[s] {
            s = s + 1;
            continue ;
        }
        let mut j: usize = 1;
        let mut found = false;
        while j < s
            invariant_except_break
                !found,
            invariant
                1 <= j <= s < n,
                n == cs@.len() == used@.len(),
                vcs == views(cs@),
                first_same(vcs, used@, s as int, 1) == first_same(vcs, used@, s as int, j as int),
            ensures
                found ==> (j < s && used@[j as int] && vcs[j as int] == vcs[s as int]),
                !found ==> j == s,
            decreases s - j,
        {
            if used[j] && bytes_eq(cs[j].as_slice(), cs[s].as_slice()) {
                found = true;
                break ;
            }
            j = j + 1;
        }
        if found {
            assert(first_same(vcs, used@, s as int, 1) == j);
            let v = ptrs[j];
            ptrs.set(s, v);
            s = s + 1;
        } else {
            assert(first_same(vcs, used@, s as int, 1) == s);
            let c = &cs[s];
            if pos > 65533 || pos + c.len() > 65536 {
                proof {
                    lemma_block_pass_fails(
                        vcs,
                        used@,
                        s + 1,
                        pos + c@.len(),
                        area + c@,
                        ptrs@.update(s as int, pos as usize),
                    );
                }
                return None;
            }
            let ghost before = out@;
            let mut k: usize = 0;
            while k < c.len()
                invariant
                    k <= c@.len(),
                    out@ == before + c@.take(k as int),
                decreases c.len() - k,
            {
                out.push(c[k]);
                k = k + 1;
                assert(out@ =~= before + c@.take(k as int));
            }
            assert(c@.take(c@.len() as int) =~= c@);
            assert(out@.subrange(out0.len() as int, out@.len() as int) =~= area + c@);
            assert(out@.subrange(0, out0.len() as int) =~= out0);
            ptrs.set(s, pos);
            pos = pos + c.len();
            s = s + 1;
        }
    }
    assert(out@ =~= out0 + out@.subrange(out0.len() as int, out@.len() as int));
    Some((ptrs, pos))
}

// ─── Writer: header, pattern table and the whole file ────────────────────────

/// The 30-byte identifier: Vortex Tracker II's when the module has a Vortex
/// header and features level, else Pro Tracker 3.6's with the version digit
/// set to 5 or 7 for the other levels.
pub open spec fn pt3_id(m: Module) -> Seq<u8> {
    if m.vortex_module_header && m.features_level == FeaturesLevel::Vt2 {
        seq![
            0x56u8, 0x6F, 0x72, 0x74, 0x65, 0x78, 0x20, 0x54, 0x72, 0x61, 0x63, 0x6B, 0x65, 0x72,
            0x20, 0x49, 0x49, 0x20, 0x31, 0x2E, 0x30, 0x20, 0x6D, 0x6F, 0x64, 0x75, 0x6C, 0x65, 0x3A,
            0x20,
        ]
    } else {
        let id = seq![
            0x50u8, 0x72, 0x6F, 0x54, 0x72, 0x61, 0x63, 0x6B, 0x65, 0x72, 0x20, 0x33, 0x2E, 0x36,
            0x20, 0x63, 0x6F, 0x6D, 0x70, 0x69, 0x6C, 0x61, 0x74, 0x69, 0x6F, 0x6E, 0x20, 0x6F, 0x66,
            0x20,
        ];
        if m.features_level == FeaturesLevel::Pt35 {
            id.update(13, 0x35u8)
        } else if m.features_level == FeaturesLevel::Pt37 {
            id.update(13, 0x37u8)
        } else {
            id
        }
    }
}

/// The little-endian words of `ptrs`.
pub open spec fn words(ptrs: Seq<usize>) -> Seq<u8>
    decreases ptrs.len(),
{
    if ptrs.len() == 0 {
        seq![]
    } else {
        words(ptrs.drop_last()) + le16(ptrs.last() as int)
    }
}

/// The 201-byte header: identifier, title, ` by `, author, tone table,
/// delay, position count, loop position, pattern table offset, then the
/// sample and ornament offset tables.
pub open spec fn header_bytes(m: Module, pat_ptr: int, sptrs: Seq<usize>, optrs: Seq<usize>) -> Seq<u8> {
    pt3_id(m) + name_field(text_bytes(m.title), 32) + seq![0x20u8, 0x62, 0x79, 0x20] + name_field(
        text_bytes(m.author),
        32,
    ) + seq![0x20u8] + seq![
        m.ton_table,
        m.initial_delay,
        m.positions.length as u8,
        m.positions.loop_pos as u8,
    ] + le16(pat_ptr) + words(sptrs) + words(optrs)
}

/// The first `i` channel streams, one after another.
pub open spec fn concat_strs(strs: Seq<Seq<u8>>, i: int) -> Seq<u8>
    decreases i,
{
    if i <= 0 || i > strs.len() {
        seq![]
    } else {
        concat_strs(strs, i - 1) + strs[i - 1]
    }
}

/// The offset of stream `i` when the streams start at `base`.
pub open spec fn str_offset(strs: Seq<Seq<u8>>, base: int, i: int) -> int {
    base + concat_strs(strs, i).len()
}

/// The pattern table from pattern `i` on: for each played pattern, in
/// order, the offsets of its three channel streams.
pub open spec fn table_from(
    pos: Seq<usize>,
    n: int,
    map: Seq<usize>,
    pidx: Seq<[usize; 3]>,
    strs: Seq<Seq<u8>>,
    base: int,
    maxp: int,
    i: int,
) -> Seq<u8>
    decreases maxp + 1 - i,
{
    if i > maxp || i < 0 {
        seq![]
    } else {
        (if pattern_played(pos, n, i) {
            let e = pidx[map[i] as int];
            le16(str_offset(strs, base, e[0] as int)) + le16(str_offset(strs, base, e[1] as int))
                + le16(str_offset(strs, base, e[2] as int))
        } else {
            seq![]
        }) + table_from(pos, n, map, pidx, strs, base, maxp, i + 1)
    }
}

/// The file's pattern numbers of the patterns `0..85`.
pub open spec fn compact_map(m: Module) -> Seq<usize> {
    Seq::new(
        85,
        |i: int| compact_index(m.positions.value@, m.positions.length as int, i) as usize,
    )
}

/// What follows the pattern table when the streams start at `base`: the
/// streams, the stored samples, ornament 0 and the stored ornaments; the
/// sample and ornament offset tables; and whether it all fits (the streams
/// end by offset 65533, and each stored sample or ornament starts by 65533,
/// ornament 0 by 65532, and ends within 64 KiB).
pub open spec fn tail_layout(m: Module, strs: Seq<Seq<u8>>, base: int) -> (
    Seq<u8>,
    Seq<usize>,
    Seq<usize>,
    bool,
) {
    let send = str_offset(strs, base, strs.len() as int);
    let sfit = forall|i: int| 0 <= i < strs.len() ==> #[trigger] str_offset(strs, base, i + 1) <= 65533;
    let sp = block_pass(
        Seq::new(32, |s: int| sample_content(m, s)),
        Seq::new(32, |s: int| sample_used(m, s)),
        1,
        send,
        seq![],
        Seq::new(32, |i: int| 0usize),
        true,
    );
    let q = sp.2;
    let op = block_pass(
        Seq::new(16, |o: int| ornament_content(m, o)),
        Seq::new(16, |o: int| ornament_used(m, o)),
        1,
        q + 3,
        seq![],
        Seq::new(16, |i: int| 0usize),
        true,
    );
    (
        concat_strs(strs, strs.len() as int) + sp.0 + seq![0u8, 1u8, 0u8] + op.0,
        sp.1,
        op.1.update(0, q as usize),
        sfit && sp.3 && q <= 65532 && op.3,
    )
}

/// The PT3 file of module `m`, or `None` when it does not fit in 64 KiB
/// (see [`tail_layout`]).
pub open spec fn pt3_file(m: Module) -> Option<Seq<u8>> {
    let n = m.positions.length as int;
    let pos = m.positions.value@;
    let maxp = max_played(pos, n);
    let map = compact_map(m);
    let (strs, pidx) = compiled(m, map);
    let pat_ptr = OFF_POS_LIST + n + 1;
    let count = compact_index(pos, n, maxp) + 1;
    let base = pat_ptr + 6 * count;
    let table = table_from(pos, n, map, pidx, strs, base, maxp, 0);
    let t = tail_layout(m, strs, base);
    if t.3 {
        Some(
            header_bytes(m, pat_ptr, t.1, t.2) + position_bytes(pos, n) + table + zeros(
                6 * count - table.len(),
            ) + t.0,
        )
    } else {
        None
    }
}

fn stream_offsets(strs: &Vec<Vec<u8>>, base: usize, tail: &mut Vec<u8>) -> (r: Option<Vec<usize>>)
    requires
        base <= 65533,
    ensures
        (forall|i: int|
            0 <= i < strs@.len() ==> #[trigger] str_offset(views(strs@), base as int, i + 1) <= 65533)
            <==> r is Some,
        r matches Some(offs) ==> (offs@.len() == strs@.len() + 1 && offs@[strs@.len() as int] <= 65533 && (forall|k: int|
            0 <= k <= strs@.len() ==> #[trigger] offs@[k] == str_offset(views(strs@), base as int, k))
            && final(tail)@ == old(tail)@ + concat_strs(views(strs@), strs@.len() as int)),
{
    let ghost v = views(strs@);
    let mut offs: Vec<usize> = Vec::new();
    let mut pos: usize = base;
    offs.push(pos);
    let ghost t0 = tail@;
    let mut i: usize = 0;
    while i < strs.len()
        invariant
            v == views(strs@),
            i <= strs@.len(),
            pos <= 65533,
            pos == str_offset(v, base as int, i as int),
            offs@.len() == i + 1,
            forall|k: int| 0 <= k <= i ==> #[trigger] offs@[k] == str_offset(v, base as int, k),
            forall|k: int| 0 <= k < i ==> #[trigger] str_offset(v, base as int, k + 1) <= 65533,
            tail@ == t0 + concat_strs(v, i as int),
        decreases strs.len() - i,
    {
        let sref = &strs[i];
        assert(v[i as int] == sref@);
        assert(str_offset(v, base as int, i + 1) == pos + sref@.len());
        if sref.len() > 65533 - pos {
            return None;
        }
        let ghost before = tail@;
        push_all(tail, sref.as_slice());
        pos = pos + sref.len();
        i = i + 1;
        offs.push(pos);
        assert(tail@ =~= t0 + concat_strs(v, i as int));
    }
    Some(offs)
}

proof fn lemma_str_offset_mono(strs: Seq<Seq<u8>>, base: int, i: int, j: int)
    requires
        0 <= i <= j <= strs.len(),
    ensures
        str_offset(strs, base, i) <= str_offset(strs, base, j),
    decreases j - i,
{
    if i < j {
        lemma_str_offset_mono(strs, base, i, j - 1);
    }
}

/// Played patterns among `i..=maxp`.
pub open spec fn played_between(pos: Seq<usize>, n: int, i: int, maxp: int) -> int
    decreases maxp + 1 - i,
{
    if i > maxp || i < 0 {
        0
    } else {
        (if pattern_played(pos, n, i) {
            1int
        } else {
            0int
        }) + played_between(pos, n, i + 1, maxp)
    }
}

proof fn lemma_table_len(
    pos: Seq<usize>,
    n: int,
    map: Seq<usize>,
    pidx: Seq<[usize; 3]>,
    strs: Seq<Seq<u8>>,
    base: int,
    maxp: int,
    i: int,
)
    requires
        0 <= i,
    ensures
        table_from(pos, n, map, pidx, strs, base, maxp, i).len() == 6 * played_between(pos, n, i, maxp),
    decreases maxp + 1 - i,
{
    if i <= maxp {
        lemma_table_len(pos, n, map, pidx, strs, base, maxp, i + 1);
    }
}

proof fn lemma_played_count(pos: Seq<usize>, n: int, i: int, maxp: int)
    requires
        -1 <= i <= maxp,
    ensures
        played_between(pos, n, 0, maxp) == (i + 1 - gaps_upto(pos, n, i)) + played_between(
            pos,
            n,
            i + 1,
            maxp,
        ),
    decreases i + 1,
{
    if i >= 0 {
        lemma_played_count(pos, n, i - 1, maxp);
    }
}

fn write_table(
    used: &[bool; 85],
    map: &[usize; 85],
    pidx: &Vec<[usize; 3]>,
    offs: &Vec<usize>,
    maxp: usize,
    out: &mut Vec<u8>,
    Ghost(pos): Ghost<Seq<usize>>,
    Ghost(n): Ghost<int>,
    Ghost(strs): Ghost<Seq<Seq<u8>>>,
    Ghost(base): Ghost<int>,
)
    requires
        maxp < 85,
        pidx@.len() == 85,
        offs@.len() == strs.len() + 1,
        forall|k: int| 0 <= k <= strs.len() ==> #[trigger] offs@[k] == str_offset(strs, base, k),
        forall|i: int| 0 <= i < 85 ==> #[trigger] used@[i] == pattern_played(pos, n, i),
        forall|i: int| 0 <= i < 85 ==> map@[i] < 85,
        forall|i: int, ch: int|
            0 <= i < 85 && 0 <= ch < 3 && pattern_played(pos, n, i) ==> #[trigger] pidx@[map@[i] as int][ch]
                < strs.len(),
    ensures
        final(out)@ == old(out)@ + table_from(pos, n, map@, pidx@, strs, base, maxp as int, 0),
{
    let ghost out0 = out@;
    let ghost full = table_from(pos, n, map@, pidx@, strs, base, maxp as int, 0);
    let mut i: usize = 0;
    while i <= maxp
        invariant
            maxp < 85,
            i <= maxp + 1,
            pidx@.len() == 85,
            offs@.len() == strs.len() + 1,
            forall|k: int| 0 <= k <= strs.len() ==> #[trigger] offs@[k] == str_offset(strs, base, k),
            forall|q: int| 0 <= q < 85 ==> #[trigger] used@[q] == pattern_played(pos, n, q),
            forall|q: int| 0 <= q < 85 ==> map@[q] < 85,
            forall|q: int, ch: int|
                0 <= q < 85 && 0 <= ch < 3 && pattern_played(pos, n, q) ==> #[trigger] pidx@[map@[q] as int][ch]
                    < strs.len(),
            out@ + table_from(pos, n, map@, pidx@, strs, base, maxp as int, i as int) == out0 + full,
            full == table_from(pos, n, map@, pidx@, strs, base, maxp as int, 0),
        decreases maxp + 1 - i,
    {
        let ghost before = out@;
        if used[i] {
            let e = pidx[map[i]];
            assert(e[0] < strs.len() && e[1] < strs.len() && e[2] < strs.len()) by {
                assert(pidx@[map@[i as int] as int][0] < strs.len());
                assert(pidx@[map@[i as int] as int][1] < strs.len());
                assert(pidx@[map@[i as int] as int][2] < strs.len());
            }
            push_le16(out, offs[e[0]]);
            push_le16(out, offs[e[1]]);
            push_le16(out, offs[e[2]]);
        }
        i = i + 1;
        proof {
            assert(before + table_from(pos, n, map@, pidx@, strs, base, maxp as int, i - 1) =~= out@
                + table_from(pos, n, map@, pidx@, strs, base, maxp as int, i as int));
        }
    }
}

fn push_words(out: &mut Vec<u8>, ptrs: &[usize])
    ensures
        final(out)@ == old(out)@ + words(ptrs@),
{
    let ghost out0 = out@;
    let mut i: usize = 0;
    while i < ptrs.len()
        invariant
            i <= ptrs@.len(),
            out@ == out0 + words(ptrs@.take(i as int)),
        decreases ptrs.len() - i,
    {
        push_le16(out, ptrs[i]);
        i = i + 1;
        assert(ptrs@.take(i as int).drop_last() =~= ptrs@.take(i - 1));
        assert(out@ =~= out0 + words(ptrs@.take(i as int)));
    }
    assert(ptrs@.take(ptrs@.len() as int) =~= ptrs@);
}

fn push_id(m: &Module, out: &mut Vec<u8>)
    ensures
        final(out)@ == old(out)@ + pt3_id(*m),
{
    let vt: [u8; 30] = [
        0x56, 0x6F, 0x72, 0x74, 0x65, 0x78, 0x20, 0x54, 0x72, 0x61, 0x63, 0x6B, 0x65, 0x72, 0x20,
        0x49, 0x49, 0x20, 0x31, 0x2E, 0x30, 0x20, 0x6D, 0x6F, 0x64, 0x75, 0x6C, 0x65, 0x3A, 0x20,
    ];
    let mut pt: [u8; 30] = [
        0x50, 0x72, 0x6F, 0x54, 0x72, 0x61, 0x63, 0x6B, 0x65, 0x72, 0x20, 0x33, 0x2E, 0x36, 0x20,
        0x63, 0x6F, 0x6D, 0x70, 0x69, 0x6C, 0x61, 0x74, 0x69, 0x6F, 0x6E, 0x20, 0x6F, 0x66, 0x20,
    ];
    let is_vt2 = match m.features_level {
        FeaturesLevel::Vt2 => true,
        _ => false,
    };
    if m.vortex_module_header && is_vt2 {
        push_all(out, &vt);
        assert(vt@ =~= pt3_id(*m));
    } else {
        let ghost pt0 = pt@;
        match m.features_level {
            FeaturesLevel::Pt35 => {
                pt[13] = 0x35;
            },
            FeaturesLevel::Pt37 => {
                pt[13] = 0x37;
            },
            FeaturesLevel::Vt2 => {},
        }
        push_all(out, &pt);
        assert(pt@ =~= pt3_id(*m));
    }
}

proof fn lemma_ticks_len(s: Sample, n: int)
    requires
        n >= 0,
    ensures
        ticks_bytes(s, n).len() == 4 * n,
    decreases n,
{
    if n > 0 {
        lemma_ticks_len(s, n - 1);
    }
}

fn sample_contents(m: &Module) -> (r: Vec<Vec<u8>>)
    requires
        writable(*m),
    ensures
        r@.len() == 32,
        views(r@) == Seq::new(32, |s: int| sample_content(*m, s)),
        forall|s: int| 0 <= s < 32 ==> (#[trigger] r@[s])@.len() <= 258,
{
    let mut cs: Vec<Vec<u8>> = Vec::new();
    let mut s: usize = 0;
    while s < 32
        invariant
            writable(*m),
            s <= 32,
            cs@.len() == s,
            forall|k: int| 0 <= k < s ==> (#[trigger] cs@[k])@ == sample_content(*m, k),
            forall|k: int| 0 <= k < s ==> (#[trigger] cs@[k])@.len() <= 258,
        decreases 32 - s,
    {
        let c = match &m.samples[s] {
            Some(b) => {
                proof {
                    lemma_ticks_len(**b, b.length as int);
                }
                encode_sample(&**b)
            },
            None => {
                let v: Vec<u8> = vec![0x00, 0x01, 0x01, 0x90, 0x00, 0x00];
                assert(v@ =~= placeholder_sample_bytes());
                v
            },
        };
        cs.push(c);
        s = s + 1;
    }
    assert(views(cs@) =~= Seq::new(32, |s: int| sample_content(*m, s)));
    cs
}

fn ornament_contents(m: &Module) -> (r: Vec<Vec<u8>>)
    requires
        writable(*m),
    ensures
        r@.len() == 16,
        views(r@) == Seq::new(16, |o: int| ornament_content(*m, o)),
        forall|o: int| 0 <= o < 16 ==> (#[trigger] r@[o])@.len() <= 258,
{
    let mut cs: Vec<Vec<u8>> = Vec::new();
    let mut o: usize = 0;
    while o < 16
        invariant
            writable(*m),
            o <= 16,
            cs@.len() == o,
            forall|k: int| 0 <= k < o ==> (#[trigger] cs@[k])@ == ornament_content(*m, k),
            forall|k: int| 0 <= k < o ==> (#[trigger] cs@[k])@.len() <= 258,
        decreases 16 - o,
    {
        let c = match &m.ornaments[o] {
            Some(b) => encode_ornament(&**b),
            None => {
                let v: Vec<u8> = vec![0x00, 0x01, 0x00];
                assert(v@ =~= placeholder_ornament_bytes());
                v
            },
        };
        cs.push(c);
        o = o + 1;
    }
    assert(views(cs@) =~= Seq::new(16, |o: int| ornament_content(*m, o)));
    cs
}

fn build_tail(m: &Module, strs: &Vec<Vec<u8>>, base: usize) -> (r: Option<
    (Vec<u8>, Vec<usize>, Vec<usize>, Vec<usize>),
>)
    requires
        writable(*m),
        base <= 65533,
    ensures
        ({
            let t = tail_layout(*m, views(strs@), base as int);
            &&& t.3 <==> r is Some
            &&& r matches Some(x) ==> (x.0@ == t.0 && x.2@ == t.1 && x.3@ == t.2 && x.1@.len()
                == strs@.len() + 1 && forall|k: int|
                0 <= k <= strs@.len() ==> #[trigger] x.1@[k] == str_offset(views(strs@), base as int, k))
        }),
{
    let ghost vs = views(strs@);
    let mut tail: Vec<u8> = Vec::new();
    let offs = match stream_offsets(strs, base, &mut tail) {
        Some(o) => o,
        None => {
            return None;
        },
    };
    let send = offs[strs.len()];
    let (su, ou) = usage(m);
    let scs = sample_contents(m);
    let ocs = ornament_contents(m);
    assert(su@ =~= Seq::new(32, |s: int| sample_used(*m, s)));
    assert(ou@ =~= Seq::new(16, |o: int| ornament_used(*m, o)));
    let (sptrs, q) = match layout_blocks(&scs, &su, send, &mut tail) {
        Some(t) => t,
        None => {
            return None;
        },
    };
    if q > 65532 {
        return None;
    }
    tail.push(0);
    tail.push(1);
    tail.push(0);
    let (optrs0, _) = match layout_blocks(&ocs, &ou, q + 3, &mut tail) {
        Some(t) => t,
        None => {
            return None;
        },
    };
    let mut optrs = optrs0;
    optrs.set(0, q);
    assert(tail@ =~= tail_layout(*m, vs, base as int).0);
    Some((tail, offs, sptrs, optrs))
}

fn push_header(m: &Module, pat_ptr: usize, sptrs: &Vec<usize>, optrs: &Vec<usize>, out: &mut Vec<u8>)
    ensures
        final(out)@ == old(out)@ + header_bytes(*m, pat_ptr as int, sptrs@, optrs@),
{
    let ghost out0 = out@;
    push_id(m, out);
    push_name_field(out, bytes_of(&m.title), 32);
    let by: [u8; 4] = [0x20, 0x62, 0x79, 0x20];
    push_all(out, &by);
    push_name_field(out, bytes_of(&m.author), 32);
    out.push(0x20);
    out.push(m.ton_table);
    out.push(m.initial_delay);
    out.push(#[verifier::truncate] (m.positions.length as u8));
    out.push(#[verifier::truncate] (m.positions.loop_pos as u8));
    push_le16(out, pat_ptr);
    push_words(out, sptrs.as_slice());
    push_words(out, optrs.as_slice());
    assert(out@ =~= out0 + header_bytes(*m, pat_ptr as int, sptrs@, optrs@));
}

fn push_positions(m: &Module, map: &[usize; 85], out: &mut Vec<u8>)
    requires
        writable(*m),
        forall|i: int|
            0 <= i < 85 ==> #[trigger] map@[i] == compact_index(
                m.positions.value@,
                m.positions.length as int,
                i,
            ),
        forall|i: int| 0 <= i < 85 ==> map@[i] <= i,
    ensures
        final(out)@ == old(out)@ + position_bytes(m.positions.value@, m.positions.length as int),
{
    let ghost out0 = out@;
    let n = m.positions.length;
    let mut k: usize = 0;
    while k < n
        invariant
            writable(*m),
            n == m.positions.length,
            k <= n,
            forall|i: int| 0 <= i < 85 ==> #[trigger] map@[i] == compact_index(m.positions.value@, n as int, i),
            forall|i: int| 0 <= i < 85 ==> map@[i] <= i,
            out@ == out0 + Seq::new(
                k as nat,
                |q: int| (compact_index(m.positions.value@, n as int, m.positions.value@[q] as int) * 3) as u8,
            ),
        decreases n - k,
    {
        let v = m.positions.value[k];
        out.push((map[v] * 3) as u8);
        k = k + 1;
        assert(out@ =~= out0 + Seq::new(
            k as nat,
            |q: int| (compact_index(m.positions.value@, n as int, m.positions.value@[q] as int) * 3) as u8,
        ));
    }
    out.push(0xFF);
    assert(out@ =~= out0 + position_bytes(m.positions.value@, n as int));
}

/// Serialise a module to a PT3 file (see [`pt3_file`]): header, position
/// list, pattern table, the channel streams (each distinct stream stored
/// once), then the samples and ornaments the patterns use, each distinct one
/// stored once.  Fails when the file would not fit in 64 KiB.
pub fn write(m: &Module) -> (r: Result<Vec<u8>, FormatError>)
    requires
        writable(*m),
    ensures
        match pt3_file(*m) {
            Some(b) => r matches Ok(out) && out@ == b,
            None => r == Err::<Vec<u8>, FormatError>(FormatError::OutputTooLarge),
        },
{
    let n = m.positions.length;
    let (map, maxp, used) = compact_numbers(&m.positions.value, n);
    assert(map@ =~= compact_map(*m));
    let (strs, pidx) = compile_patterns(m, &map);
    let ghost vs = views(strs@);
    let pat_ptr = OFF_POS_LIST + n + 1;
    let count = map[maxp] + 1;
    let base = pat_ptr + 6 * count;
    let (tail, offs, sptrs, optrs) = match build_tail(m, &strs, base) {
        Some(t) => t,
        None => {
            return Err(FormatError::OutputTooLarge);
        },
    };
    let mut out: Vec<u8> = Vec::new();
    push_header(m, pat_ptr, &sptrs, &optrs, &mut out);
    push_positions(m, &map, &mut out);
    let pos_end = out.len();
    let ghost with_pos = out@;
    proof {
        assert forall|i: int| 0 <= i < 85 implies map@[i] < 85 by {
            assert(map@[i] <= i);
        }
    }
    write_table(
        &used,
        &map,
        &pidx,
        &offs,
        maxp,
        &mut out,
        Ghost(m.positions.value@),
        Ghost(n as int),
        Ghost(vs),
        Ghost(base as int),
    );
    let ghost table = table_from(m.positions.value@, n as int, map@, pidx@, vs, base as int, maxp as int, 0);
    proof {
        lemma_table_len(m.positions.value@, n as int, map@, pidx@, vs, base as int, maxp as int, 0);
        lemma_played_count(m.positions.value@, n as int, maxp as int, maxp as int);
        lemma_gaps_bounds(m.positions.value@, n as int, maxp as int);
    }
    let tlen = out.len() - pos_end;
    assert(tlen == table.len());
    push_zeros(&mut out, 6 * count - tlen);
    push_all(&mut out, tail.as_slice());
    assert(out@ =~= with_pos + table + zeros(6 * count - table.len()) + tail@);
    Ok(out)
}

// ─── Reading back what was written ───────────────────────────────────────────

/// Every used slot before `s` has its bytes in `area` at its offset.
pub open spec fn blocks_placed(cs: Seq<Seq<u8>>, used: Seq<bool>, s: int, start: int, area: Seq<u8>, ptrs: Seq<usize>) -> bool {
    forall|t: int|
        1 <= t < s && t < cs.len() && #[trigger] used[t] ==> {
            &&& start <= ptrs[t]
            &&& ptrs[t] - start + cs[t].len() <= area.len()
            &&& area.subrange(ptrs[t] - start, ptrs[t] - start + cs[t].len()) == cs[t]
        }
}

proof fn lemma_first_same_found(cs: Seq<Seq<u8>>, used: Seq<bool>, s: int, j: int)
    requires
        0 <= j,
        first_same(cs, used, s, j) < s,
    ensures
        ({
            let f = first_same(cs, used, s, j);
            j <= f && used[f] && cs[f] == cs[s]
        }),
    decreases s - j,
{
    if j < s && !(used[j] && cs[j] == cs[s]) {
        lemma_first_same_found(cs, used, s, j + 1);
    }
}

proof fn lemma_block_pass_places(
    cs: Seq<Seq<u8>>,
    used: Seq<bool>,
    s: int,
    start: int,
    pos: int,
    area: Seq<u8>,
    ptrs: Seq<usize>,
    ok: bool,
)
    requires
        1 <= s,
        cs.len() <= 32,
        used.len() == cs.len(),
        ptrs.len() == cs.len(),
        forall|t: int| 0 <= t < cs.len() ==> (#[trigger] cs[t]).len() <= 258,
        0 <= start <= 0x10000,
        pos == start + area.len(),
        area.len() <= 258 * s,
        blocks_placed(cs, used, s, start, area, ptrs),
    ensures
        block_pass(cs, used, s, pos, area, ptrs, ok).1.len() == ptrs.len(),
        block_pass(cs, used, s, pos, area, ptrs, ok).2 == start + block_pass(
            cs,
            used,
            s,
            pos,
            area,
            ptrs,
            ok,
        ).0.len(),
        block_pass(cs, used, s, pos, area, ptrs, ok).0.len() >= area.len(),
        block_pass(cs, used, s, pos, area, ptrs, ok).0.subrange(0, area.len() as int) == area,
        blocks_placed(
            cs,
            used,
            cs.len() as int,
            start,
            block_pass(cs, used, s, pos, area, ptrs, ok).0,
            block_pass(cs, used, s, pos, area, ptrs, ok).1,
        ),
        forall|t: int|
            0 <= t < s && t < cs.len() ==> #[trigger] block_pass(cs, used, s, pos, area, ptrs, ok).1[t]
                == ptrs[t],
    decreases cs.len() - s,
{
    if s >= cs.len() {
        assert(area.subrange(0, area.len() as int) =~= area);
        assert(blocks_placed(cs, used, cs.len() as int, start, area, ptrs));
    } else if !used[s] {
        lemma_block_pass_places(cs, used, s + 1, start, pos, area, ptrs, ok);
    } else {
        let j = first_same(cs, used, s, 1);
        lemma_first_same_bounds(cs, used, s, 1);
        if j < s {
            lemma_first_same_found(cs, used, s, 1);
            let p2 = ptrs.update(s, ptrs[j]);
            assert(blocks_placed(cs, used, s + 1, start, area, p2));
            lemma_block_pass_places(cs, used, s + 1, start, pos, area, p2, ok);
        } else {
            let c = cs[s];
            let a2 = area + c;
            let p2 = ptrs.update(s, pos as usize);
            assert forall|t: int|
                1 <= t < s + 1 && t < cs.len() && #[trigger] used[t] implies {
                &&& start <= p2[t]
                &&& p2[t] - start + cs[t].len() <= a2.len()
                &&& a2.subrange(p2[t] - start, p2[t] - start + cs[t].len()) == cs[t]
            } by {
                if t == s {
                    assert(a2.subrange(area.len() as int, a2.len() as int) =~= c);
                } else {
                    assert(a2.subrange(p2[t] - start, p2[t] - start + cs[t].len()) =~= area.subrange(
                        ptrs[t] - start,
                        ptrs[t] - start + cs[t].len(),
                    ));
                }
            }
            lemma_block_pass_places(
                cs,
                used,
                s + 1,
                start,
                pos + c.len(),
                a2,
                p2,
                ok && pos <= 65533 && pos + c.len() <= 65536,
            );
            let r = block_pass(cs, used, s + 1, pos + c.len(), a2, p2, ok && pos <= 65533 && pos + c.len() <= 65536);
            assert(r == block_pass(cs, used, s, pos, area, ptrs, ok));
            assert(r.0.subrange(0, area.len() as int) =~= r.0.subrange(0, a2.len() as int).subrange(
                0,
                area.len() as int,
            ));
            assert forall|t: int| 0 <= t < s && t < cs.len() implies #[trigger] r.1[t] == ptrs[t] by {
                assert(r.1[t] == p2[t]);
            }
        }
    }
}

proof fn lemma_words_at(ptrs: Seq<usize>, i: int)
    requires
        0 <= i < ptrs.len(),
    ensures
        words(ptrs).len() == 2 * ptrs.len(),
        words(ptrs).subrange(2 * i, 2 * i + 2) == le16(ptrs[i] as int),
    decreases ptrs.len(),
{
    lemma_words_len(ptrs.drop_last());
    if i < ptrs.len() - 1 {
        lemma_words_at(ptrs.drop_last(), i);
        assert(words(ptrs).subrange(2 * i, 2 * i + 2) =~= words(ptrs.drop_last()).subrange(
            2 * i,
            2 * i + 2,
        ));
    } else {
        assert(words(ptrs).subrange(2 * i, 2 * i + 2) =~= le16(ptrs[i] as int));
    }
}

proof fn lemma_words_len(ptrs: Seq<usize>)
    ensures
        words(ptrs).len() == 2 * ptrs.len(),
    decreases ptrs.len(),
{
    if ptrs.len() > 0 {
        lemma_words_len(ptrs.drop_last());
    }
}

/// Every used slot before `s` was stored at an offset of at most 65533 and
/// ends within 64 KiB.
pub open spec fn blocks_fit(cs: Seq<Seq<u8>>, used: Seq<bool>, s: int, ptrs: Seq<usize>) -> bool {
    forall|t: int|
        1 <= t < s && t < cs.len() && #[trigger] used[t] ==> ptrs[t] <= 65533 && ptrs[t] + cs[t].len()
            <= 65536
}

proof fn lemma_block_pass_fit(
    cs: Seq<Seq<u8>>,
    used: Seq<bool>,
    s: int,
    pos: int,
    area: Seq<u8>,
    ptrs: Seq<usize>,
    ok: bool,
)
    requires
        1 <= s,
        ptrs.len() == cs.len(),
        cs.len() <= 32,
        0 <= pos <= 0x20000,
        forall|t: int| 0 <= t < cs.len() ==> (#[trigger] cs[t]).len() <= 258,
        pos <= 0x10000 + 258 * s,
        blocks_fit(cs, used, s, ptrs),
    ensures
        block_pass(cs, used, s, pos, area, ptrs, ok).3 ==> blocks_fit(
            cs,
            used,
            cs.len() as int,
            block_pass(cs, used, s, pos, area, ptrs, ok).1,
        ),
    decreases cs.len() - s,
{
    if s >= cs.len() {
    } else if !used[s] {
        lemma_block_pass_fit(cs, used, s + 1, pos, area, ptrs, ok);
    } else {
        let j = first_same(cs, used, s, 1);
        lemma_first_same_bounds(cs, used, s, 1);
        if j < s {
            lemma_first_same_found(cs, used, s, 1);
            let p2 = ptrs.update(s, ptrs[j]);
            lemma_block_pass_fit(cs, used, s + 1, pos, area, p2, ok);
        } else {
            let c = cs[s];
            let ok2 = ok && pos <= 65533 && pos + c.len() <= 65536;
            let p2 = ptrs.update(s, pos as usize);
            if ok2 {
                lemma_block_pass_fit(cs, used, s + 1, pos + c.len(), area + c, p2, ok2);
            } else {
                lemma_block_pass_fails(cs, used, s + 1, pos + c.len(), area + c, p2);
            }
        }
    }
}

proof fn lemma_ticks_at(s: Sample, n: int, j: int)
    requires
        0 <= j < n,
    ensures
        ticks_bytes(s, n).len() == 4 * n,
        ticks_bytes(s, n).subrange(4 * j, 4 * j + 4) == tick_bytes(s.items[j]),
    decreases n,
{
    lemma_ticks_len(s, n - 1);
    if j < n - 1 {
        lemma_ticks_at(s, n - 1, j);
        assert(ticks_bytes(s, n).subrange(4 * j, 4 * j + 4) =~= ticks_bytes(s, n - 1).subrange(
            4 * j,
            4 * j + 4,
        ));
    } else {
        assert(ticks_bytes(s, n).subrange(4 * j, 4 * j + 4) =~= tick_bytes(s.items[j]));
    }
}

/// A sample the PT3 format holds exactly: enabled, at most 64 ticks, each
/// in range, and blank past its length.
pub open spec fn sample_storable(b: Sample) -> bool {
    &&& b.enabled
    &&& b.length <= 64
    &&& forall|j: int| 0 <= j < b.length ==> tick_in_range(#[trigger] b.items[j])
    &&& forall|j: int| b.length <= j < 64 ==> #[trigger] b.items[j] == blank_tick()
}

/// An ornament the PT3 format holds exactly: loop and length below 256, and
/// zero past its length.
pub open spec fn ornament_storable(o: Ornament) -> bool {
    &&& o.length <= 255
    &&& o.loop_pos <= 255
    &&& forall|i: int| o.length <= i < 255 ==> #[trigger] o.items[i] == 0
}

proof fn lemma_sample_decodes_bytes(b: Sample, d: Seq<u8>)
    requires
        sample_storable(b),
        d.len() >= sample_bytes(b).len(),
        d.subrange(0, sample_bytes(b).len() as int) == sample_bytes(b),
    ensures
        sample_error(d) is None,
        sample_decodes(d, b),
        forall|b2: Sample| #[trigger] sample_decodes(d, b2) ==> b2 == b,
{
    let c = sample_bytes(b);
    lemma_ticks_len(b, b.length as int);
    assert(d[0] == c[0] && d[1] == c[1]);
    assert forall|j: int| 0 <= j < 64 implies #[trigger] b.items[j] == if j < d[1] {
        sample_tick_at(d, j)
    } else {
        blank_tick()
    } by {
        if j < b.length {
            lemma_ticks_at(b, b.length as int, j);
            let tb = tick_bytes(b.items[j]);
            assert(d[2 + 4 * j] == tb[0] && d[3 + 4 * j] == tb[1] && d[4 + 4 * j] == tb[2] && d[5 + 4 * j]
                == tb[3]) by {
                assert(d[2 + 4 * j] == c[2 + 4 * j]);
                assert(d[3 + 4 * j] == c[3 + 4 * j]);
                assert(d[4 + 4 * j] == c[4 + 4 * j]);
                assert(d[5 + 4 * j] == c[5 + 4 * j]);
                assert(c.subrange(2, c.len() as int) =~= ticks_bytes(b, b.length as int));
                assert(ticks_bytes(b, b.length as int)[4 * j] == tb[0]);
                assert(ticks_bytes(b, b.length as int)[4 * j + 1] == tb[1]);
                assert(ticks_bytes(b, b.length as int)[4 * j + 2] == tb[2]);
                assert(ticks_bytes(b, b.length as int)[4 * j + 3] == tb[3]);
            }
            lemma_tick_round_trip(b.items[j]);
        }
    }
    assert forall|b2: Sample| #[trigger] sample_decodes(d, b2) implies b2 == b by {
        assert(b2.items =~= b.items);
    }
}

proof fn lemma_ornament_decodes_bytes(o: Ornament, d: Seq<u8>)
    requires
        ornament_storable(o),
        d.len() >= ornament_bytes(o).len(),
        d.subrange(0, ornament_bytes(o).len() as int) == ornament_bytes(o),
    ensures
        ornament_error(d) is None,
        ornament_decodes(d, o),
        forall|o2: Ornament| #[trigger] ornament_decodes(d, o2) ==> o2 == o,
{
    let c = ornament_bytes(o);
    assert(d[0] == c[0] && d[1] == c[1]);
    assert forall|i: int| 0 <= i < 255 implies #[trigger] o.items[i] == if i < d[1] {
        d[2 + i] as i8
    } else {
        0i8
    } by {
        if i < o.length {
            assert(d[2 + i] == c[2 + i]);
            let x = o.items[i];
            assert(((x as u8) as i8) == x) by (bit_vector);
        }
    }
    assert forall|o2: Ornament| #[trigger] ornament_decodes(d, o2) implies o2 == o by {
        assert(o2.items =~= o.items);
    }
}

proof fn lemma_send_bound(strs: Seq<Seq<u8>>, base: int)
    requires
        base <= 65533,
        forall|i: int| 0 <= i < strs.len() ==> #[trigger] str_offset(strs, base, i + 1) <= 65533,
    ensures
        base <= str_offset(strs, base, strs.len() as int) <= 65533,
{
    lemma_str_offset_mono(strs, base, 0, strs.len() as int);
    if strs.len() > 0 {
        assert(str_offset(strs, base, (strs.len() - 1) + 1) <= 65533);
    }
}

proof fn lemma_name_field_len(name: Seq<u8>, w: int)
    requires
        w >= 0,
    ensures
        name_field(name, w).len() == w,
{
}

proof fn lemma_le16_word(v: int)
    requires
        0 <= v < 65536,
    ensures
        le16(v)[0] as int + 256 * le16(v)[1] as int == v,
{
}

proof fn lemma_header_layout(m: Module, pat_ptr: int, sptrs: Seq<usize>, optrs: Seq<usize>)
    requires
        sptrs.len() == 32,
        optrs.len() == 16,
    ensures
        header_bytes(m, pat_ptr, sptrs, optrs).len() == 201,
        forall|s: int|
            0 <= s < 32 ==> header_bytes(m, pat_ptr, sptrs, optrs)[OFF_SAM_PTRS + 2 * s] == le16(
                #[trigger] sptrs[s] as int,
            )[0] && header_bytes(m, pat_ptr, sptrs, optrs)[OFF_SAM_PTRS + 2 * s + 1] == le16(
                sptrs[s] as int,
            )[1],
        forall|o: int|
            0 <= o < 16 ==> header_bytes(m, pat_ptr, sptrs, optrs)[OFF_ORN_PTRS + 2 * o] == le16(
                #[trigger] optrs[o] as int,
            )[0] && header_bytes(m, pat_ptr, sptrs, optrs)[OFF_ORN_PTRS + 2 * o + 1] == le16(
                optrs[o] as int,
            )[1],
{
    lemma_words_len(sptrs);
    lemma_words_len(optrs);
    lemma_name_field_len(text_bytes(m.title), 32);
    lemma_name_field_len(text_bytes(m.author), 32);
    let h = header_bytes(m, pat_ptr, sptrs, optrs);
    assert(h.subrange(0x69, 0xA9) =~= words(sptrs));
    assert(h.subrange(0xA9, 0xC9) =~= words(optrs));
    assert forall|s: int| 0 <= s < 32 implies h[OFF_SAM_PTRS + 2 * s] == le16(
        #[trigger] sptrs[s] as int,
    )[0] && h[OFF_SAM_PTRS + 2 * s + 1] == le16(sptrs[s] as int)[1] by {
        lemma_words_at(sptrs, s);
        assert(h[OFF_SAM_PTRS + 2 * s] == words(sptrs)[2 * s]);
        assert(h[OFF_SAM_PTRS + 2 * s + 1] == words(sptrs)[2 * s + 1]);
        assert(words(sptrs)[2 * s] == words(sptrs).subrange(2 * s, 2 * s + 2)[0]);
        assert(words(sptrs)[2 * s + 1] == words(sptrs).subrange(2 * s, 2 * s + 2)[1]);
    }
    assert forall|o: int| 0 <= o < 16 implies h[OFF_ORN_PTRS + 2 * o] == le16(
        #[trigger] optrs[o] as int,
    )[0] && h[OFF_ORN_PTRS + 2 * o + 1] == le16(optrs[o] as int)[1] by {
        lemma_words_at(optrs, o);
        assert(h[OFF_ORN_PTRS + 2 * o] == words(optrs)[2 * o]);
        assert(h[OFF_ORN_PTRS + 2 * o + 1] == words(optrs)[2 * o + 1]);
        assert(words(optrs)[2 * o] == words(optrs).subrange(2 * o, 2 * o + 2)[0]);
        assert(words(optrs)[2 * o + 1] == words(optrs).subrange(2 * o, 2 * o + 2)[1]);
    }
}

/// The layout facts of the file written for `m`, at the level of its parts.
pub open spec fn file_parts(m: Module) -> (int, (Seq<u8>, Seq<usize>, int, bool), (Seq<u8>, Seq<usize>, int, bool)) {
    let n = m.positions.length as int;
    let pos = m.positions.value@;
    let maxp = max_played(pos, n);
    let map = compact_map(m);
    let strs = compiled(m, map).0;
    let count = compact_index(pos, n, maxp) + 1;
    let base = OFF_POS_LIST + n + 1 + 6 * count;
    let send = str_offset(strs, base, strs.len() as int);
    let sp = block_pass(
        Seq::new(32, |s: int| sample_content(m, s)),
        Seq::new(32, |s: int| sample_used(m, s)),
        1,
        send,
        seq![],
        Seq::new(32, |i: int| 0usize),
        true,
    );
    let op = block_pass(
        Seq::new(16, |o: int| ornament_content(m, o)),
        Seq::new(16, |o: int| ornament_used(m, o)),
        1,
        sp.2 + 3,
        seq![],
        Seq::new(16, |i: int| 0usize),
        true,
    );
    (send, sp, op)
}

/// Where the sample and ornament tables, and the stored samples and
/// ornaments, lie in the file written for `m`.
proof fn lemma_file_layout(m: Module)
    requires
        writable(m),
        pt3_file(m) is Some,
    ensures
        ({
            let (send, sp, op) = file_parts(m);
            let q = sp.2;
            let scs = Seq::new(32, |s: int| sample_content(m, s));
            let sus = Seq::new(32, |s: int| sample_used(m, s));
            let ocs = Seq::new(16, |o: int| ornament_content(m, o));
            let ous = Seq::new(16, |o: int| ornament_used(m, o));
            let f = pt3_file(m)->Some_0;
            &&& 201 <= send <= 65533
            &&& q == send + sp.0.len()
            &&& f.len() >= q + 3 + op.0.len()
            &&& f.subrange(send, q) == sp.0
            &&& f.subrange(q + 3, q + 3 + op.0.len()) == op.0
            &&& blocks_placed(scs, sus, 32, send, sp.0, sp.1)
            &&& blocks_fit(scs, sus, 32, sp.1)
            &&& blocks_placed(ocs, ous, 16, q + 3, op.0, op.1)
            &&& blocks_fit(ocs, ous, 16, op.1)
            &&& sp.1.len() == 32
            &&& op.1.len() == 16
            &&& forall|s: int| 0 <= s < 32 ==> f[OFF_SAM_PTRS + 2 * s] == le16(#[trigger] sp.1[s] as int)[0]
                && f[OFF_SAM_PTRS + 2 * s + 1] == le16(sp.1[s] as int)[1]
            &&& forall|o: int| 1 <= o < 16 ==> f[OFF_ORN_PTRS + 2 * o] == le16(#[trigger] op.1[o] as int)[0]
                && f[OFF_ORN_PTRS + 2 * o + 1] == le16(op.1[o] as int)[1]
        }),
{
    let n = m.positions.length as int;
    let pos = m.positions.value@;
    let maxp = max_played(pos, n);
    let map = compact_map(m);
    let (strs, pidx) = compiled(m, map);
    let pat_ptr = OFF_POS_LIST + n + 1;
    let count = compact_index(pos, n, maxp) + 1;
    let base = pat_ptr + 6 * count;
    let table = table_from(pos, n, map, pidx, strs, base, maxp, 0);
    let (send, sp, op) = file_parts(m);
    let scs = Seq::new(32, |s: int| sample_content(m, s));
    let sus = Seq::new(32, |s: int| sample_used(m, s));
    let ocs = Seq::new(16, |o: int| ornament_content(m, o));
    let ous = Seq::new(16, |o: int| ornament_used(m, o));
    let q = sp.2;
    let t = tail_layout(m, strs, base);
    let f = pt3_file(m)->Some_0;
    lemma_max_played(pos, n);
    lemma_gaps_bounds(pos, n, maxp);
    lemma_table_len(pos, n, map, pidx, strs, base, maxp, 0);
    lemma_played_count(pos, n, maxp, maxp);
    lemma_send_bound(strs, base);
    assert forall|c: int| 0 <= c < 32 implies (#[trigger] scs[c]).len() <= 258 by {
        match m.samples[c] {
            Some(b) => {
                lemma_ticks_len(*b, b.length as int);
            },
            None => {},
        }
    }
    lemma_block_pass_places(scs, sus, 1, send, send, seq![], Seq::new(32, |i: int| 0usize), true);
    lemma_block_pass_fit(scs, sus, 1, send, seq![], Seq::new(32, |i: int| 0usize), true);
    lemma_block_pass_places(ocs, ous, 1, q + 3, q + 3, seq![], Seq::new(16, |i: int| 0usize), true);
    lemma_block_pass_fit(ocs, ous, 1, q + 3, seq![], Seq::new(16, |i: int| 0usize), true);
    let sptrs = sp.1;
    let optrs = op.1.update(0, q as usize);
    lemma_header_layout(m, pat_ptr, sptrs, optrs);
    let h = header_bytes(m, pat_ptr, sptrs, optrs);
    let pb = position_bytes(pos, n);
    let tz = table + zeros(6 * count - table.len());
    let cc = concat_strs(strs, strs.len() as int);
    let pre = h + pb + tz + cc;
    assert(pre.len() == send);
    assert(f =~= pre + sp.0 + seq![0u8, 1u8, 0u8] + op.0);
    assert(f.subrange(send, q) =~= sp.0);
    assert(f.subrange(q + 3, q + 3 + op.0.len()) =~= op.0);
    assert forall|s: int| 0 <= s < 32 implies f[OFF_SAM_PTRS + 2 * s] == le16(#[trigger] sp.1[s] as int)[0]
        && f[OFF_SAM_PTRS + 2 * s + 1] == le16(sp.1[s] as int)[1] by {
        assert(f[OFF_SAM_PTRS + 2 * s] == h[OFF_SAM_PTRS + 2 * s]);
        assert(f[OFF_SAM_PTRS + 2 * s + 1] == h[OFF_SAM_PTRS + 2 * s + 1]);
        assert(sptrs[s] == sp.1[s]);
    }
    assert forall|o: int| 1 <= o < 16 implies f[OFF_ORN_PTRS + 2 * o] == le16(#[trigger] op.1[o] as int)[0]
        && f[OFF_ORN_PTRS + 2 * o + 1] == le16(op.1[o] as int)[1] by {
        assert(f[OFF_ORN_PTRS + 2 * o] == h[OFF_ORN_PTRS + 2 * o]);
        assert(f[OFF_ORN_PTRS + 2 * o + 1] == h[OFF_ORN_PTRS + 2 * o + 1]);
        assert(optrs[o] == op.1[o]);
    }
}

/// Samples survive a write and a read: in the file written for `m`, the
/// sample table entry of each sample the patterns use points at that sample
/// (stored once however many slots share its bytes), so reading the file
/// gives exactly that sample in that slot.  The sample must be one the
/// format can hold (see [`sample_storable`]).
pub proof fn lemma_written_sample_reads_back(m: Module, s: int)
    requires
        writable(m),
        sample_used(m, s),
        m.samples[s] matches Some(b) && sample_storable(*b),
    ensures
        pt3_file(m) matches Some(f) ==> {
            &&& sample_slot(f, s, m.samples[s])
            &&& forall|x: Option<Box<Sample>>| #[trigger] sample_slot(f, s, x) ==> x == m.samples[s]
        },
{
    if pt3_file(m) is Some {
        lemma_file_layout(m);
        let (send, sp, op) = file_parts(m);
        let f = pt3_file(m)->Some_0;
        let scs = Seq::new(32, |t: int| sample_content(m, t));
        let sus = Seq::new(32, |t: int| sample_used(m, t));
        let b = m.samples[s]->Some_0;
        assert(sus[s]);
        let ptr = sp.1[s] as int;
        let c = scs[s];
        assert(c == sample_bytes(*b));
        assert(ptr <= 65533 && ptr + c.len() <= 65536);
        lemma_le16_word(ptr);
        assert(le_word(f, OFF_SAM_PTRS + 2 * s) == ptr);
        assert(sp.0.subrange(ptr - send, ptr - send + c.len()) == c);
        let d = f.subrange(ptr, f.len() as int);
        assert(d.subrange(0, c.len() as int) =~= sp.0.subrange(ptr - send, ptr - send + c.len())) by {
            assert(f.subrange(send, sp.2) == sp.0);
        }
        lemma_sample_decodes_bytes(*b, d);
        assert forall|x: Option<Box<Sample>>| #[trigger] sample_slot(f, s, x) implies x == m.samples[s] by {
            let b2 = x->Some_0;
            assert(sample_decodes(d, *b2));
        }
    }
}

/// Ornaments survive a write and a read, as samples do (see
/// [`lemma_written_sample_reads_back`]); the ornament must be one the
/// format can hold (see [`ornament_storable`]).
pub proof fn lemma_written_ornament_reads_back(m: Module, o: int)
    requires
        writable(m),
        ornament_used(m, o),
        m.ornaments[o] matches Some(b) && ornament_storable(*b),
    ensures
        pt3_file(m) matches Some(f) ==> {
            &&& ornament_slot(f, o, m.ornaments[o])
            &&& forall|x: Option<Box<Ornament>>| #[trigger] ornament_slot(f, o, x) ==> x == m.ornaments[o]
        },
{
    if pt3_file(m) is Some {
        lemma_file_layout(m);
        let (send, sp, op) = file_parts(m);
        let q = sp.2;
        let f = pt3_file(m)->Some_0;
        let ocs = Seq::new(16, |t: int| ornament_content(m, t));
        let ous = Seq::new(16, |t: int| ornament_used(m, t));
        let b = m.ornaments[o]->Some_0;
        assert(ous[o]);
        let ptr = op.1[o] as int;
        let c = ocs[o];
        assert(c == ornament_bytes(*b));
        assert(ptr <= 65533 && ptr + c.len() <= 65536);
        lemma_le16_word(ptr);
        assert(le_word(f, OFF_ORN_PTRS + 2 * o) == ptr);
        assert(op.0.subrange(ptr - (q + 3), ptr - (q + 3) + c.len()) == c);
        let d = f.subrange(ptr, f.len() as int);
        assert(d.subrange(0, c.len() as int) =~= op.0.subrange(ptr - (q + 3), ptr - (q + 3) + c.len()))
            by {
            assert(f.subrange(q + 3, q + 3 + op.0.len()) == op.0);
        }
        lemma_ornament_decodes_bytes(*b, d);
        assert forall|x: Option<Box<Ornament>>| #[trigger] ornament_slot(f, o, x) implies x
            == m.ornaments[o] by {
            let b2 = x->Some_0;
            assert(ornament_decodes(d, *b2));
        }
    }
}

proof fn lemma_block_pass_keeps(
    cs: Seq<Seq<u8>>,
    used: Seq<bool>,
    s: int,
    pos: int,
    area: Seq<u8>,
    ptrs: Seq<usize>,
    ok: bool,
)
    requires
        1 <= s,
        ptrs.len() == cs.len(),
    ensures
        block_pass(cs, used, s, pos, area, ptrs, ok).1.len() == ptrs.len(),
        forall|t: int|
            0 <= t < s && t < cs.len() ==> #[trigger] block_pass(cs, used, s, pos, area, ptrs, ok).1[t]
                == ptrs[t],
        forall|t: int|
            s <= t < cs.len() && #[trigger] used[t] && first_same(cs, used, t, 1) < t ==> block_pass(
                cs,
                used,
                s,
                pos,
                area,
                ptrs,
                ok,
            ).1[t] == block_pass(cs, used, s, pos, area, ptrs, ok).1[first_same(cs, used, t, 1)],
    decreases cs.len() - s,
{
    if s >= cs.len() {
    } else if !used[s] {
        lemma_block_pass_keeps(cs, used, s + 1, pos, area, ptrs, ok);
    } else {
        let j = first_same(cs, used, s, 1);
        lemma_first_same_bounds(cs, used, s, 1);
        if j < s {
            lemma_block_pass_keeps(cs, used, s + 1, pos, area, ptrs.update(s, ptrs[j]), ok);
        } else {
            let c = cs[s];
            lemma_block_pass_keeps(
                cs,
                used,
                s + 1,
                pos + c.len(),
                area + c,
                ptrs.update(s, pos as usize),
                ok && pos <= 65533 && pos + c.len() <= 65536,
            );
        }
    }
}

proof fn lemma_first_same_min(cs: Seq<Seq<u8>>, used: Seq<bool>, s: int, j: int, j0: int)
    requires
        0 <= j <= j0 < s,
        used[j0],
        cs[j0] == cs[s],
    ensures
        first_same(cs, used, s, j) <= j0,
    decreases s - j,
{
    if !(used[j] && cs[j] == cs[s]) {
        lemma_first_same_min(cs, used, s, j + 1, j0);
    }
}

/// Each distinct sample is stored once: in the file written for `m`, two
/// samples the patterns use whose bytes are equal have the same offset in
/// the sample table; likewise for ornaments.
pub proof fn lemma_equal_samples_share_offset(m: Module, s: int, t: int)
    requires
        writable(m),
        sample_used(m, s),
        sample_used(m, t),
        sample_content(m, s) == sample_content(m, t),
    ensures
        pt3_file(m) matches Some(f) ==> le_word(f, OFF_SAM_PTRS + 2 * s) == le_word(
            f,
            OFF_SAM_PTRS + 2 * t,
        ),
{
    if pt3_file(m) is Some && s != t {
        lemma_file_layout(m);
        let (send, sp, op) = file_parts(m);
        let scs = Seq::new(32, |k: int| sample_content(m, k));
        let sus = Seq::new(32, |k: int| sample_used(m, k));
        let (a, b) = if s < t { (s, t) } else { (t, s) };
        assert(sus[a] && sus[b] && scs[a] == scs[b]);
        lemma_block_pass_keeps(scs, sus, 1, send, seq![], Seq::new(32, |i: int| 0usize), true);
        lemma_first_same_bounds(scs, sus, a, 1);
        lemma_first_same_bounds(scs, sus, b, 1);
        lemma_first_same_min(scs, sus, b, 1, a);
        let ra = first_same(scs, sus, a, 1);
        let rb = first_same(scs, sus, b, 1);
        if ra < a {
            lemma_first_same_found(scs, sus, a, 1);
        }
        lemma_first_same_found(scs, sus, b, 1);
        if rb < a {
            lemma_first_same_min(scs, sus, a, 1, rb);
        }
        if ra < a {
            lemma_first_same_min(scs, sus, b, 1, ra);
        }
        assert(ra == rb);
        assert(sp.1[a] == sp.1[b]);
    }
}

/// Ornaments the patterns use whose bytes are equal share one stored copy.
pub proof fn lemma_equal_ornaments_share_offset(m: Module, o: int, p: int)
    requires
        writable(m),
        ornament_used(m, o),
        ornament_used(m, p),
        ornament_content(m, o) == ornament_content(m, p),
    ensures
        pt3_file(m) matches Some(f) ==> le_word(f, OFF_ORN_PTRS + 2 * o) == le_word(
            f,
            OFF_ORN_PTRS + 2 * p,
        ),
{
    if pt3_file(m) is Some && o != p {
        lemma_file_layout(m);
        let (send, sp, op) = file_parts(m);
        let ocs = Seq::new(16, |k: int| ornament_content(m, k));
        let ous = Seq::new(16, |k: int| ornament_used(m, k));
        let (a, b) = if o < p { (o, p) } else { (p, o) };
        assert(ous[a] && ous[b] && ocs[a] == ocs[b]);
        lemma_block_pass_keeps(ocs, ous, 1, sp.2 + 3, seq![], Seq::new(16, |i: int| 0usize), true);
        lemma_first_same_bounds(ocs, ous, a, 1);
        lemma_first_same_bounds(ocs, ous, b, 1);
        lemma_first_same_min(ocs, ous, b, 1, a);
        let ra = first_same(ocs, ous, a, 1);
        let rb = first_same(ocs, ous, b, 1);
        if ra < a {
            lemma_first_same_found(ocs, ous, a, 1);
        }
        lemma_first_same_found(ocs, ous, b, 1);
        if rb < a {
            lemma_first_same_min(ocs, ous, a, 1, rb);
        }
        if ra < a {
            lemma_first_same_min(ocs, ous, b, 1, ra);
        }
        assert(ra == rb);
        assert(op.1[a] == op.1[b]);
    }
}

fn cell_ok_exec(c: &ChannelLine) -> (r: bool)
    ensures
        r == cell_ok(*c),
{
    -2 <= c.note && c.sample <= 31 && c.ornament <= 15 && c.volume <= 15 && c.envelope <= 15
}

fn pattern_ok_exec(p: &Pattern) -> (r: bool)
    ensures
        r == pattern_ok(*p),
{
    if p.length > 256 {
        return false;
    }
    let mut j: usize = 0;
    while j < p.length
        invariant
            j <= p.length <= 256,
            forall|q: int, k: int| 0 <= q < j && 0 <= k < 3 ==> #[trigger] cell_ok(p.items[q].channel[k]),
            forall|q: int| 0 <= q < j ==> #[trigger] p.items[q].noise <= 31,
        decreases p.length - j,
    {
        if !cell_ok_exec(&p.items[j].channel[0]) || !cell_ok_exec(&p.items[j].channel[1]) || !cell_ok_exec(
            &p.items[j].channel[2],
        ) || p.items[j].noise > 31 {
            return false;
        }
        proof {
            assert forall|k: int| 0 <= k < 3 implies #[trigger] cell_ok(p.items[j as int].channel[k]) by {
                assert(k == 0 || k == 1 || k == 2);
            }
        }
        j = j + 1;
    }
    true
}

/// Whether [`write`] can write `m` (see [`writable`]).
pub fn writable_exec(m: &Module) -> (r: bool)
    ensures
        r == writable(*m),
{
    if m.patterns.len() != MAX_NUM_OF_PATS + 1 || m.positions.length > 256 {
        return false;
    }
    let mut k: usize = 0;
    while k < m.positions.length
        invariant
            k <= m.positions.length <= 256,
            forall|q: int| 0 <= q < k ==> #[trigger] m.positions.value[q] < MAX_NUM_OF_PATS,
        decreases m.positions.length - k,
    {
        if m.positions.value[k] >= MAX_NUM_OF_PATS {
            return false;
        }
        k = k + 1;
    }
    let mut i: usize = 0;
    while i < MAX_NUM_OF_PATS
        invariant
            i <= MAX_NUM_OF_PATS,
            m.patterns@.len() == MAX_NUM_OF_PATS + 1,
            forall|q: int| 0 <= q < i ==> (#[trigger] m.patterns@[q] matches Some(p) ==> pattern_ok(*p)),
        decreases MAX_NUM_OF_PATS - i,
    {
        match &m.patterns[i] {
            Some(p) => {
                if !pattern_ok_exec(p) {
                    return false;
                }
            },
            None => {},
        }
        i = i + 1;
    }
    let mut i: usize = 0;
    while i < 32
        invariant
            i <= 32,
            forall|q: int| 0 <= q < i ==> (#[trigger] m.samples[q] matches Some(s) ==> s.length <= 64),
        decreases 32 - i,
    {
        match &m.samples[i] {
            Some(s) => {
                if s.length > 64 {
                    return false;
                }
            },
            None => {},
        }
        i = i + 1;
    }
    let mut i: usize = 0;
    while i < 16
        invariant
            i <= 16,
            forall|q: int| 0 <= q < i ==> (#[trigger] m.ornaments[q] matches Some(o) ==> o.length <= 255),
        decreases 16 - i,
    {
        match &m.ornaments[i] {
            Some(o) => {
                if o.length > 255 {
                    return false;
                }
            },
            None => {},
        }
        i = i + 1;
    }
    true
}

/// The position list counted from entry `k`: `n - k` entries when the bytes
/// before `n` are not the terminator and entry `n` is (or `n` is 256).
proof fn lemma_pos_count_written(f: Seq<u8>, n: int, k: int)
    requires
        0 <= k <= n <= 256,
        OFF_POS_LIST + n < f.len(),
        forall|q: int| 0 <= q < n ==> #[trigger] f[OFF_POS_LIST + q] != 0xFF,
        n < 256 ==> f[OFF_POS_LIST + n] == 0xFF,
    ensures
        pos_count(f, k) == n - k,
    decreases n - k,
{
    if k < n {
        lemma_pos_count_written(f, n, k + 1);
    }
}

/// The header and position bytes of the file written for `m`.
#[verifier::rlimit(50)]
proof fn lemma_written_header_bytes(m: Module)
    requires
        writable(m),
        pt3_file(m) is Some,
    ensures
        ({
            let f = pt3_file(m)->Some_0;
            let n = m.positions.length as int;
            let pos = m.positions.value@;
            &&& f.len() > OFF_POS_LIST + n
            &&& f[OFF_TABLE as int] == m.ton_table
            &&& f[OFF_DELAY as int] == m.initial_delay
            &&& f[OFF_LOOP_POS as int] == m.positions.loop_pos as u8
            &&& f[OFF_POS_LIST + n] == 0xFF
            &&& forall|k: int|
                0 <= k < n ==> #[trigger] f[OFF_POS_LIST + k] == (compact_index(pos, n, pos[k] as int) * 3) as u8
                    && compact_index(pos, n, pos[k] as int) <= 84
        }),
{
    let n = m.positions.length as int;
    let pos = m.positions.value@;
    let maxp = max_played(pos, n);
    let map = compact_map(m);
    let (strs, pidx) = compiled(m, map);
    let pat_ptr = OFF_POS_LIST + n + 1;
    let count = compact_index(pos, n, maxp) + 1;
    let base = pat_ptr + 6 * count;
    let table = table_from(pos, n, map, pidx, strs, base, maxp, 0);
    let t = tail_layout(m, strs, base);
    let f = pt3_file(m)->Some_0;
    assert(t.1.len() == 32 && t.2.len() == 16) by {
        lemma_file_layout(m);
    }
    lemma_header_layout(m, pat_ptr, t.1, t.2);
    lemma_name_field_len(text_bytes(m.title), 32);
    lemma_name_field_len(text_bytes(m.author), 32);
    let h = header_bytes(m, pat_ptr, t.1, t.2);
    let pb = position_bytes(pos, n);
    let rest = table + zeros(6 * count - table.len()) + t.0;
    assert(f =~= h + pb + rest);
    assert(f[OFF_TABLE as int] == h[OFF_TABLE as int]);
    assert(f[OFF_DELAY as int] == h[OFF_DELAY as int]);
    assert(f[OFF_LOOP_POS as int] == h[OFF_LOOP_POS as int]);
    assert(f[OFF_POS_LIST + n] == pb[n]);
    assert forall|k: int| 0 <= k < n implies #[trigger] f[OFF_POS_LIST + k] == (compact_index(pos, n, pos[k] as int)
        * 3) as u8 && compact_index(pos, n, pos[k] as int) <= 84 by {
        assert(f[OFF_POS_LIST + k] == pb[k]);
        lemma_gaps_bounds(pos, n, pos[k] as int);
        lemma_max_played(pos, n);
    }
}

/// A written PT3 file reads back with the module's delay, tone table (its
/// low nibble), loop position and number of positions, and each position
/// names the pattern it named, renumbered in the order of the patterns
/// played (the same number when every pattern below the highest one played
/// is played).  The module must have a position (an empty position list is
/// refused on reading).
#[verifier::spinoff_prover]
pub proof fn lemma_written_header_reads_back(m: Module, m2: Module)
    requires
        writable(m),
        m.positions.length >= 1,
        pt3_file(m) matches Some(f) && parse_outcome(f, Ok(m2)),
    ensures
        m2.initial_delay == m.initial_delay,
        m2.ton_table == m.ton_table & 0x0Fu8,
        m2.positions.loop_pos == (m.positions.loop_pos as u8) as usize,
        m2.positions.length == m.positions.length,
        forall|k: int|
            0 <= k < m.positions.length ==> #[trigger] m2.positions.value[k] == compact_index(
                m.positions.value@,
                m.positions.length as int,
                m.positions.value[k] as int,
            ),
{
    let n = m.positions.length as int;
    let pos = m.positions.value@;
    let f = pt3_file(m)->Some_0;
    lemma_written_header_bytes(m);
    assert forall|q: int| 0 <= q < n implies #[trigger] f[OFF_POS_LIST + q] != 0xFF by {
        assert(f[OFF_POS_LIST + q] == (compact_index(pos, n, pos[q] as int) * 3) as u8);
    }
    lemma_pos_count_written(f, n, 0);
    assert(f[OFF_POS_LIST + 0] != 0xFF);
    assert(header_decodes(f, m2));
    assert forall|k: int| 0 <= k < n implies #[trigger] m2.positions.value[k] == compact_index(pos, n, pos[k] as int) by {
        assert(m2.positions.value@[k] == position_values(f)[k]);
        assert(f[OFF_POS_LIST + k] == (compact_index(pos, n, pos[k] as int) * 3) as u8);
    }
}

/// A name the header's 32-byte field carries exactly: ASCII, at most 32
/// characters, not ending in a space or control character.
pub open spec fn name_fits(t: Seq<char>) -> bool {
    &&& vstd::utf8::is_ascii_chars(t)
    &&& t.len() <= 32
    &&& t.len() > 0 ==> (t.last() as int) > 0x20
}

proof fn lemma_trim_padded(e: Seq<u8>, k: nat)
    requires
        e.len() == 0 || e.last() > 0x20,
    ensures
        trim_end(e + Seq::new(k, |i: int| 0x20u8)) == e,
    decreases k,
{
    let p = e + Seq::new(k, |i: int| 0x20u8);
    if k > 0 {
        assert(p.drop_last() =~= e + Seq::new((k - 1) as nat, |i: int| 0x20u8));
        lemma_trim_padded(e, (k - 1) as nat);
    } else {
        assert(p =~= e);
    }
}

/// A name written into a 32-byte header field reads back as itself.
proof fn lemma_name_field_reads_back(t: Seq<char>)
    requires
        name_fits(t),
    ensures
        crate::formats::ascii_bytes(trim_end(name_field(vstd::utf8::encode_utf8(t), 32))),
        crate::formats::ascii_text(trim_end(name_field(vstd::utf8::encode_utf8(t), 32))) == t,
{
    let e = vstd::utf8::encode_utf8(t);
    vstd::utf8::is_ascii_chars_encode_utf8(t);
    vstd::utf8::is_ascii_chars_nat_bound(t);
    assert(name_field(e, 32) =~= e + Seq::new((32 - e.len()) as nat, |i: int| 0x20u8));
    if e.len() > 0 {
        assert(e.last() == t.last() as u8);
    }
    lemma_trim_padded(e, (32 - e.len()) as nat);
    assert forall|i: int| 0 <= i < e.len() implies #[trigger] e[i] < 0x80 by {
        assert(e[i] == t[i] as u8);
        assert((t[i] as nat) < 128);
    }
    assert forall|i: int| 0 <= i < t.len() implies crate::formats::ascii_text(e)[i] == t[i] by {
        assert(e[i] == t[i] as u8);
        assert((t[i] as nat) < 128);
        assert(((t[i] as u8) as char) as int == t[i] as int);
    }
    assert(crate::formats::ascii_text(e) =~= t);
}

/// A written PT3 file reads back with the module's title and author, for
/// names the 32-byte header fields carry exactly (see [`name_fits`]).
#[verifier::spinoff_prover]
#[verifier::rlimit(80)]
pub proof fn lemma_written_names_read_back(m: Module, m2: Module)
    requires
        writable(m),
        m.positions.length >= 1,
        name_fits(m.title@),
        name_fits(m.author@),
        pt3_file(m) matches Some(f) && parse_outcome(f, Ok(m2)),
    ensures
        m2.title@ == m.title@,
        m2.author@ == m.author@,
{
    let n = m.positions.length as int;
    let pos = m.positions.value@;
    let maxp = max_played(pos, n);
    let map = compact_map(m);
    let (strs, pidx) = compiled(m, map);
    let pat_ptr = OFF_POS_LIST + n + 1;
    let count = compact_index(pos, n, maxp) + 1;
    let base = pat_ptr + 6 * count;
    let table = table_from(pos, n, map, pidx, strs, base, maxp, 0);
    let t = tail_layout(m, strs, base);
    let f = pt3_file(m)->Some_0;
    assert(t.1.len() == 32 && t.2.len() == 16) by {
        lemma_file_layout(m);
    }
    lemma_header_layout(m, pat_ptr, t.1, t.2);
    let nt = name_field(text_bytes(m.title), 32);
    let na = name_field(text_bytes(m.author), 32);
    lemma_name_field_len(text_bytes(m.title), 32);
    lemma_name_field_len(text_bytes(m.author), 32);
    let h = header_bytes(m, pat_ptr, t.1, t.2);
    assert(pt3_id(m).len() == 30);
    let rest = position_bytes(pos, n) + table + zeros(6 * count - table.len()) + t.0;
    assert(f =~= h + rest);
    assert(f.subrange(OFF_TITLE as int, 0x3E) =~= nt);
    assert(f.subrange(OFF_AUTHOR as int, 0x62) =~= na);
    lemma_written_header_bytes(m);
    assert forall|q: int| 0 <= q < n implies #[trigger] f[OFF_POS_LIST + q] != 0xFF by {
        assert(f[OFF_POS_LIST + q] == (compact_index(pos, n, pos[q] as int) * 3) as u8);
    }
    lemma_pos_count_written(f, n, 0);
    assert(f[OFF_POS_LIST + 0] != 0xFF);
    assert(header_decodes(f, m2));
    lemma_name_field_reads_back(m.title@);
    lemma_name_field_reads_back(m.author@);
}

} // verus!



