//! Global Tracker (`*.gtr`) binary module files: reader.
use crate::formats::asc::{
    byte_or, no_reads, orns_match, pats_match, sams_match, sbyte, sfive, start_orn_slots, word_at, OrnRead,
    PatRead, SamRead,
};
use crate::formats::pt3::{empty_rows, trim_end, trim_right_ascii};
use crate::formats::FormatError;
use crate::types::{
    blank_tick, ChannelLine, FeaturesLevel, Module, Ornament, Pattern, PatternRow, Sample,
    SampleTick, MAX_NUM_OF_PATS, NOTE_SOUND_OFF,
};
use vstd::prelude::*;

verus! {

/// Initial delay.
pub const GTR_OFF_DELAY: usize = 0;
/// The four-byte identifier (its last byte 0x10 for version 2).
pub const GTR_OFF_ID: usize = 1;
/// The 32-byte name.
pub const GTR_OFF_NAME: usize = 7;
/// Sample offsets: 15 words.
pub const GTR_OFF_SAM_PTRS: usize = 39;
/// Ornament offsets: 16 words.
pub const GTR_OFF_ORN_PTRS: usize = 69;
/// Pattern channel offsets: 32 entries of three words.
pub const GTR_OFF_PAT_PTRS: usize = 101;
/// Number of positions.
pub const GTR_OFF_NUM_POS: usize = 293;
/// Loop position.
pub const GTR_OFF_LOOP_POS: usize = 294;
/// Positions: pattern number times 6, one per byte.
pub const GTR_OFF_POSITIONS: usize = 295;
/// Smallest GTR file: the header and one position.
pub const GTR_MIN_FILE_SIZE: usize = 296;

/// One channel's reading state within a pattern: stream position, skip
/// counter, ornament and envelope in force.
#[derive(Clone, Copy, PartialEq, Eq, Structural)]
pub struct GtrChan {
    pub ptr: usize,
    pub skip_ctr: i8,
    pub c_orn: u8,
    pub env_en: bool,
    pub env_t: u8,
}

/// Which ornaments and samples the patterns use.
#[derive(Clone, Copy)]
pub struct GtrMarks {
    pub is_orn: [bool; 16],
    pub is_sam: [bool; 17],
}

/// The channel state is in range.
pub open spec fn gtr_chan_ok(c: GtrChan) -> bool {
    0 <= c.skip_ctr <= 63 && c.c_orn <= 15
}

/// One channel's commands for one row, read until a note, an end-of-row
/// byte, a sound-off (version 1 only) or the end of the data.  Gives the
/// channel, cell, row envelope period, skip and marks after.
pub open spec fn gtr_interp(data: Seq<u8>, c: GtrChan, v2: bool, cl: ChannelLine, env: u16, skip: i8, mk: GtrMarks) -> (
    GtrChan,
    ChannelLine,
    u16,
    i8,
    GtrMarks,
)
    decreases data.len() + 2 - c.ptr,
{
    if c.ptr >= data.len() || data.len() >= usize::MAX - 4 {
        (c, cl, env, skip, mk)
    } else {
        let b = data[c.ptr as int];
        let c1 = GtrChan { ptr: (c.ptr + 1) as usize, ..c };
        if b <= 0x5F {
            (c1, ChannelLine { note: b as i8, ..cl }, env, skip, mk)
        } else if b <= 0x6F {
            let s = (b - 0x5F) as u8;
            gtr_interp(
                data,
                c1,
                v2,
                ChannelLine { sample: s, ..cl },
                env,
                skip,
                GtrMarks { is_sam: vstd::array::spec_array_update(mk.is_sam, s as int, true), ..mk },
            )
        } else if b <= 0x7F {
            let o = (b - 0x70) as u8;
            let keep = c.env_en && v2;
            gtr_interp(
                data,
                GtrChan { c_orn: o, env_en: keep, ..c1 },
                v2,
                ChannelLine {
                    envelope: if keep {
                        c.env_t
                    } else {
                        15
                    },
                    ornament: o,
                    ..cl
                },
                env,
                skip,
                if o > 0 {
                    GtrMarks { is_orn: vstd::array::spec_array_update(mk.is_orn, o as int, true), ..mk }
                } else {
                    mk
                },
            )
        } else if b <= 0xBF {
            gtr_interp(data, c1, v2, cl, env, (b - 0x80) as i8, mk)
        } else if b <= 0xCF {
            let i0 = (b - 0xC0) as u8;
            let t = if i0 == 0 {
                9u8
            } else if i0 == 15 {
                7u8
            } else {
                i0
            };
            gtr_interp(
                data,
                GtrChan { ptr: (c.ptr + 2) as usize, env_en: true, env_t: t, ..c },
                v2,
                ChannelLine { envelope: t, ornament: c.c_orn, ..cl },
                byte_or(data, c.ptr + 1, 0) as u16,
                skip,
                mk,
            )
        } else if b <= 0xDF {
            (c1, cl, env, skip, mk)
        } else if b == 0xE0 {
            if v2 {
                gtr_interp(data, c1, v2, ChannelLine { note: NOTE_SOUND_OFF, ..cl }, env, skip, mk)
            } else {
                (c1, ChannelLine { note: NOTE_SOUND_OFF, ..cl }, env, skip, mk)
            }
        } else if b <= 0xEF {
            gtr_interp(data, c1, v2, ChannelLine { volume: (b - 0xE0) as u8, ..cl }, env, skip, mk)
        } else {
            gtr_interp(data, c1, v2, cl, env, skip, mk)
        }
    }
}

fn get_or(data: &[u8], i: usize, dflt: u8) -> (r: u8)
    ensures
        r == byte_or(data@, i as int, dflt),
{
    if i < data.len() {
        data[i]
    } else {
        dflt
    }
}

fn gtr_interp_exec(data: &[u8], c0: GtrChan, v2: bool, cl0: ChannelLine, env0: u16, mk0: GtrMarks) -> (r: (
    GtrChan,
    ChannelLine,
    u16,
    i8,
    GtrMarks,
))
    requires
        c0.c_orn <= 15,
        data@.len() < usize::MAX - 4,
    ensures
        r == gtr_interp(data@, c0, v2, cl0, env0, 0, mk0),
        r.0.c_orn <= 15,
        0 <= r.3 <= 63,
{
    let ghost target = gtr_interp(data@, c0, v2, cl0, env0, 0, mk0);
    let mut c = c0;
    let mut cl = cl0;
    let mut env = env0;
    let mut skip: i8 = 0;
    let mut mk = mk0;
    loop
        invariant_except_break
            gtr_interp(data@, c, v2, cl, env, skip, mk) == target,
        invariant
            c.c_orn <= 15,
            0 <= skip <= 63,
            data@.len() < usize::MAX - 4,
            target == gtr_interp(data@, c0, v2, cl0, env0, 0, mk0),
        ensures
            target == (c, cl, env, skip, mk),
        decreases data@.len() + 2 - c.ptr,
    {
        if c.ptr >= data.len() {
            break ;
        }
        let b = data[c.ptr];
        let p = c.ptr + 1;
        if b <= 0x5F {
            c.ptr = p;
            cl.note = b as i8;
            break ;
        } else if b <= 0x6F {
            let s = b - 0x5F;
            c.ptr = p;
            cl.sample = s;
            mk.is_sam[s as usize] = true;
        } else if b <= 0x7F {
            let o = b - 0x70;
            let keep = c.env_en && v2;
            cl.envelope = if keep {
                c.env_t
            } else {
                15
            };
            cl.ornament = o;
            c.ptr = p;
            c.c_orn = o;
            c.env_en = keep;
            if o > 0 {
                mk.is_orn[o as usize] = true;
            }
        } else if b <= 0xBF {
            c.ptr = p;
            skip = (b - 0x80) as i8;
        } else if b <= 0xCF {
            let i0 = b - 0xC0;
            let t: u8 = if i0 == 0 {
                9
            } else if i0 == 15 {
                7
            } else {
                i0
            };
            env = get_or(data, p, 0) as u16;
            cl.envelope = t;
            cl.ornament = c.c_orn;
            c.ptr = p + 1;
            c.env_en = true;
            c.env_t = t;
        } else if b <= 0xDF {
            c.ptr = p;
            break ;
        } else if b == 0xE0 {
            c.ptr = p;
            cl.note = NOTE_SOUND_OFF;
            if !v2 {
                break ;
            }
        } else if b <= 0xEF {
            c.ptr = p;
            cl.volume = b - 0xE0;
        } else {
            c.ptr = p;
        }
    }
    (c, cl, env, skip, mk)
}

/// One channel's turn in a row: while its skip counter runs it rests; when
/// due it reads its commands into cell `k` (its skip starting at 0) and
/// restarts the counter at the skip read.
pub open spec fn gtr_turn(data: Seq<u8>, c: GtrChan, v2: bool, row: PatternRow, k: int, mk: GtrMarks) -> (
    GtrChan,
    PatternRow,
    GtrMarks,
) {
    let sc = (c.skip_ctr - 1) as i8;
    if sc >= 0 {
        (GtrChan { skip_ctr: sc, ..c }, row, mk)
    } else {
        let r = gtr_interp(data, GtrChan { skip_ctr: sc, ..c }, v2, row.channel[k], row.envelope, 0, mk);
        (
            GtrChan { skip_ctr: r.3, ..r.0 },
            PatternRow { channel: vstd::array::spec_array_update(row.channel, k, r.1), envelope: r.2, ..row },
            r.4,
        )
    }
}

fn gtr_turn_exec(data: &[u8], c: GtrChan, v2: bool, row: PatternRow, k: usize, mk: GtrMarks) -> (r: (
    GtrChan,
    PatternRow,
    GtrMarks,
))
    requires
        k < 3,
        gtr_chan_ok(c),
        data@.len() < usize::MAX - 4,
    ensures
        r == gtr_turn(data@, c, v2, row, k as int, mk),
        gtr_chan_ok(r.0),
{
    let sc = c.skip_ctr - 1;
    if sc >= 0 {
        (GtrChan { skip_ctr: sc, ..c }, row, mk)
    } else {
        let (c2, cell, env, skip, mk2) = gtr_interp_exec(data, GtrChan { skip_ctr: sc, ..c }, v2, row.channel[k], row.envelope, mk);
        let mut row2 = row;
        row2.channel[k] = cell;
        row2.envelope = env;
        assert(row2.channel =~= vstd::array::spec_array_update(row.channel, k as int, cell));
        (GtrChan { skip_ctr: skip, ..c2 }, row2, mk2)
    }
}

/// The rows of a pattern from row `i` on: its length, rows and the marks
/// after.  Channel A ends the pattern when it is due and its next byte is
/// 0xFF (or the data has ended).
pub open spec fn gtr_rows(data: Seq<u8>, v2: bool, a: GtrChan, b: GtrChan, c: GtrChan, mk: GtrMarks, i: int, items: Seq<PatternRow>) -> (
    int,
    Seq<PatternRow>,
    GtrMarks,
)
    decreases 256 - i,
{
    if i >= 256 || i < 0 {
        (i, items, mk)
    } else if a.skip_ctr - 1 < 0 && byte_or(data, a.ptr as int, 0xFF) == 0xFF {
        (i, items, mk)
    } else {
        let (a2, r1, mk1) = gtr_turn(data, a, v2, items[i], 0, mk);
        let (b2, r2, mk2) = gtr_turn(data, b, v2, r1, 1, mk1);
        let (c2, r3, mk3) = gtr_turn(data, c, v2, r2, 2, mk2);
        gtr_rows(data, v2, a2, b2, c2, mk3, i + 1, items.update(i, r3))
    }
}

/// A channel starting a pattern at `ptr`.
pub open spec fn gtr_start(ptr: int) -> GtrChan {
    GtrChan { ptr: ptr as usize, skip_ctr: 0, c_orn: 0, env_en: false, env_t: 15 }
}

/// Pattern `j` from the table (see [`gtr_rows`]).
pub open spec fn gtr_pattern(data: Seq<u8>, v2: bool, j: int, mk: GtrMarks) -> (int, Seq<PatternRow>, GtrMarks) {
    let t = GTR_OFF_PAT_PTRS + 6 * j;
    gtr_rows(
        data,
        v2,
        gtr_start(word_at(data, t)),
        gtr_start(word_at(data, t + 2)),
        gtr_start(word_at(data, t + 4)),
        mk,
        0,
        empty_rows(),
    )
}

fn word_at_exec(data: &[u8], off: usize) -> (r: usize)
    requires
        off < usize::MAX,
    ensures
        r == word_at(data@, off as int),
        r < 65536,
{
    let lo = get_or(data, off, 0) as usize;
    let hi = get_or(data, off + 1, 0) as usize;
    lo + hi * 256
}

fn decode_pattern(data: &[u8], v2: bool, j: usize, mk0: GtrMarks) -> (r: (Pattern, GtrMarks))
    requires
        j <= 85,
        data@.len() <= isize::MAX,
    ensures
        gtr_pattern(data@, v2, j as int, mk0) == (r.0.length as int, r.0.items@, r.1),
        r.0.length <= 256,
{
    let t = GTR_OFF_PAT_PTRS + 6 * j;
    let mut a = GtrChan { ptr: word_at_exec(data, t), skip_ctr: 0, c_orn: 0, env_en: false, env_t: 15 };
    let mut b = GtrChan { ptr: word_at_exec(data, t + 2), ..a };
    let mut c = GtrChan { ptr: word_at_exec(data, t + 4), ..a };
    let mut mk = mk0;
    let mut pattern = Pattern::default();
    assert(pattern.items@ =~= empty_rows());
    let ghost target = gtr_rows(data@, v2, a, b, c, mk, 0, pattern.items@);
    let mut i: usize = 0;
    while i < 256
        invariant
            i <= 256,
            data@.len() <= isize::MAX,
            gtr_chan_ok(a),
            gtr_chan_ok(b),
            gtr_chan_ok(c),
            gtr_rows(data@, v2, a, b, c, mk, i as int, pattern.items@) == target,
        ensures
            target == (i as int, pattern.items@, mk),
        decreases 256 - i,
    {
        if a.skip_ctr - 1 < 0 && get_or(data, a.ptr, 0xFF) == 0xFF {
            break ;
        }
        let row = pattern.items[i];
        let (a2, r1, mk1) = gtr_turn_exec(data, a, v2, row, 0, mk);
        let (b2, r2, mk2) = gtr_turn_exec(data, b, v2, r1, 1, mk1);
        let (c2, r3, mk3) = gtr_turn_exec(data, c, v2, r2, 2, mk2);
        pattern.items[i] = r3;
        a = a2;
        b = b2;
        c = c2;
        mk = mk3;
        i = i + 1;
    }
    pattern.length = i;
    (pattern, mk)
}


// ─── Positions ───────────────────────────────────────────────────────────────

/// No ornament or sample used yet.
pub open spec fn no_marks() -> GtrMarks {
    GtrMarks {
        is_orn: [
            false, false, false, false, false, false, false, false, false, false, false, false, false, false, false, false
        ],
        is_sam: [
            false, false, false, false, false, false, false, false, false, false, false, false, false, false, false, false, false
        ],
    }
}

/// The positions from `pos` on, up to `num_pos` or the end of the data: each
/// byte names pattern `byte / 6`; a pattern is read the first time a
/// position names it and its table entry lies within the data (else it stays
/// unread), the marks carrying from one pattern to the next.  Gives the
/// number of positions read, the position list, the patterns and the marks.
pub open spec fn gtr_walk(
    data: Seq<u8>,
    v2: bool,
    num_pos: int,
    pos: int,
    values: Seq<usize>,
    pats: Seq<PatRead>,
    mk: GtrMarks,
) -> (int, Seq<usize>, Seq<PatRead>, GtrMarks)
    decreases 256 - pos,
{
    if pos >= num_pos || pos >= 256 || pos < 0 || GTR_OFF_POSITIONS + pos >= data.len() {
        (pos, values, pats, mk)
    } else {
        let j = data[GTR_OFF_POSITIONS + pos] as int / 6;
        let vals = values.update(pos, j as usize);
        if pats[j] is Some || GTR_OFF_PAT_PTRS + 6 * j + 6 > data.len() {
            gtr_walk(data, v2, num_pos, pos + 1, vals, pats, mk)
        } else {
            let (l, it, mk2) = gtr_pattern(data, v2, j, mk);
            gtr_walk(data, v2, num_pos, pos + 1, vals, pats.update(j, Some((l, it))), mk2)
        }
    }
}

/// Walk the position list (see [`gtr_walk`]) into `values` and `patterns`.
fn read_positions(
    data: &[u8],
    v2: bool,
    num_pos: usize,
    values: &mut [usize; 256],
    patterns: &mut Vec<Option<Box<Pattern>>>,
    mk0: GtrMarks,
) -> (r: (usize, GtrMarks))
    requires
        num_pos <= 255,
        data@.len() <= isize::MAX,
        pats_match(old(patterns)@, no_reads()),
    ensures
        gtr_walk(data@, v2, num_pos as int, 0, old(values)@, no_reads(), mk0) == (
            r.0 as int,
            final(values)@,
            gtr_walk(data@, v2, num_pos as int, 0, old(values)@, no_reads(), mk0).2,
            r.1,
        ),
        pats_match(final(patterns)@, gtr_walk(data@, v2, num_pos as int, 0, old(values)@, no_reads(), mk0).2),
        r.0 <= num_pos,
        final(patterns)@.len() == old(patterns)@.len(),
{
    let ghost target = gtr_walk(data@, v2, num_pos as int, 0, values@, no_reads(), mk0);
    let ghost mut sp = no_reads();
    let mut mk = mk0;
    let mut pos: usize = 0;
    while pos < num_pos
        invariant_except_break
            gtr_walk(data@, v2, num_pos as int, pos as int, values@, sp, mk) == target,
        invariant
            num_pos <= 255,
            pos <= num_pos,
            data@.len() <= isize::MAX,
            pats_match(patterns@, sp),
            sp.len() == MAX_NUM_OF_PATS + 1,
            patterns@.len() == MAX_NUM_OF_PATS + 1,
        ensures
            target == (pos as int, values@, sp, mk),
        decreases num_pos - pos,
    {
        let j_off = GTR_OFF_POSITIONS + pos;
        if j_off >= data.len() {
            break ;
        }
        let j = data[j_off] as usize / 6;
        values[pos] = j;
        pos = pos + 1;
        if patterns[j].is_none() && GTR_OFF_PAT_PTRS + 6 * j + 6 <= data.len() {
            let (pat, mk2) = decode_pattern(data, v2, j, mk);
            proof {
                sp = sp.update(j as int, Some((pat.length as int, pat.items@)));
            }
            patterns.set(j, Some(Box::new(pat)));
            mk = mk2;
        }
    }
    (pos, mk)
}

// ─── Ornaments ───────────────────────────────────────────────────────────────

/// Where ornament `i`'s data starts: its table entry and the entry's first
/// two bytes lie within the data.
pub open spec fn gtr_orn_entry(data: Seq<u8>, i: int) -> Option<int> {
    let p = GTR_OFF_ORN_PTRS + 2 * i;
    if p + 1 < data.len() && word_at(data, p) + 1 < data.len() {
        Some(word_at(data, p))
    } else {
        None
    }
}

/// The ornament at `j`: loop byte, length byte (0 read as 1), then one
/// signed offset per step (bytes past the end read as 0); the loop is kept
/// within the length.
pub open spec fn gtr_ornament(data: Seq<u8>, j: int) -> OrnRead {
    let n = data[j + 1] as int;
    let len = if n == 0 {
        1
    } else {
        n
    };
    let lp = data[j] as int;
    (
        len,
        if lp >= len {
            len - 1
        } else {
            lp
        },
        Seq::new(255, |k: int| if k < len {
            sbyte(byte_or(data, j + 2 + k, 0)) as i8
        } else {
            0i8
        }),
    )
}

/// The ornament slots: slot 0 the single zero offset, each slot 1..15 a
/// pattern uses and whose data starts within the file its ornament.
pub open spec fn gtr_orn_slots(data: Seq<u8>, mk: GtrMarks) -> Seq<Option<OrnRead>> {
    Seq::new(16, |i: int| if i == 0 {
        start_orn_slots()[0]
    } else if mk.is_orn[i] && gtr_orn_entry(data, i) is Some {
        Some(gtr_ornament(data, gtr_orn_entry(data, i)->0))
    } else {
        None
    })
}

fn sbyte_exec(b: u8) -> (r: i8)
    ensures
        r as int == sbyte(b),
{
    if b >= 128 {
        (b as i16 - 256) as i8
    } else {
        b as i8
    }
}

/// Read the ornament at `j` (see [`gtr_ornament`]).
fn read_ornament(data: &[u8], j: usize) -> (r: Ornament)
    requires
        j + 1 < data@.len(),
        j < 65536,
    ensures
        gtr_ornament(data@, j as int) == (r.length as int, r.loop_pos as int, r.items@),
{
    let mut orn = Ornament::default();
    let n = data[j + 1] as usize;
    let len: usize = if n == 0 {
        1
    } else {
        n
    };
    let ghost want = gtr_ornament(data@, j as int).2;
    let mut k: usize = 0;
    while k < len
        invariant
            k <= len <= 255,
            j < 65536,
            len as int == gtr_ornament(data@, j as int).0,
            want == gtr_ornament(data@, j as int).2,
            forall|q: int| 0 <= q < 255 ==> #[trigger] orn.items[q] == if q < k {
                want[q]
            } else {
                0i8
            },
        decreases len - k,
    {
        let b = get_or(data, j + 2 + k, 0);
        orn.items[k] = sbyte_exec(b);
        k = k + 1;
    }
    assert(orn.items@ =~= want);
    let lp = data[j] as usize;
    orn.length = len;
    orn.loop_pos = if lp >= len {
        len - 1
    } else {
        lp
    };
    orn
}

/// Read the ornaments the patterns use into their slots (see
/// [`gtr_orn_slots`]).
fn read_ornaments(data: &[u8], mk: &GtrMarks, ornaments: &mut [Option<Box<Ornament>>; 16])
    requires
        data@.len() <= isize::MAX,
        orns_match(old(ornaments)@, start_orn_slots()),
    ensures
        orns_match(final(ornaments)@, gtr_orn_slots(data@, *mk)),
{
    let ghost want = gtr_orn_slots(data@, *mk);
    let mut i: usize = 1;
    while i < 16
        invariant
            1 <= i <= 16,
            data@.len() <= isize::MAX,
            want == gtr_orn_slots(data@, *mk),
            orns_match(ornaments@, Seq::new(16, |q: int| if q < i {
                want[q]
            } else {
                None
            })),
        decreases 16 - i,
    {
        if mk.is_orn[i] {
            let p = GTR_OFF_ORN_PTRS + 2 * i;
            if p + 1 < data.len() {
                let j = word_at_exec(data, p);
                if j + 1 < data.len() {
                    let orn = read_ornament(data, j);
                    ornaments[i] = Some(Box::new(orn));
                }
            }
        }
        i = i + 1;
    }
    assert(Seq::new(16, |q: int| if q < 16 {
        want[q]
    } else {
        None
    }) =~= want);
}


// ─── Samples ─────────────────────────────────────────────────────────────────

/// Where sample `i`'s data starts (the table holds samples 1..15): its
/// table entry and the entry's first two bytes lie within the data.
pub open spec fn gtr_sam_entry(data: Seq<u8>, i: int) -> Option<int> {
    let p = GTR_OFF_SAM_PTRS + 2 * (i - 1);
    if p + 1 < data.len() && word_at(data, p) + 1 < data.len() {
        Some(word_at(data, p))
    } else {
        None
    }
}

/// The signed little-endian word of `lo` and `hi`.
pub open spec fn signed_word(lo: u8, hi: u8) -> int {
    let w = lo as int + 256 * hi as int;
    if w >= 32768 {
        w - 65536
    } else {
        w
    }
}

/// A four-byte sample tick: amplitude in the low nibble of byte 0; in byte
/// 1, bit 5 set turns the tone off, bit 6 set the noise off, bit 7 set the
/// envelope on, and the low five bits are the signed noise offset, kept when
/// the noise is on; bytes 2 and 3 the signed tone offset.
pub open spec fn gtr_tick(b0: u8, b1: u8, lo: u8, hi: u8) -> SampleTick {
    let noise = b1 & 0x40u8 == 0u8;
    SampleTick {
        amplitude: b0 & 0x0Fu8,
        mixer_ton: b1 & 0x20u8 == 0u8,
        mixer_noise: noise,
        envelope_enabled: b1 & 0x80u8 != 0u8,
        add_to_ton: signed_word(lo, hi) as i16,
        add_to_envelope_or_noise: if noise {
            sfive(b1) as i8
        } else {
            0i8
        },
        ..blank_tick()
    }
}

/// The sample at `j`: loop byte and length byte, each four times the
/// value (a length of 0 read as 64), then four bytes per tick (bytes past
/// the end read as 0); the loop is kept within the length.
pub open spec fn gtr_sample(data: Seq<u8>, j: int) -> SamRead {
    let raw = data[j + 1] as int / 4;
    let len = if raw == 0 {
        64
    } else {
        raw
    };
    let lp = data[j] as int / 4;
    (
        len,
        if lp >= len {
            len - 1
        } else {
            lp
        },
        Seq::new(64, |k: int| if k < len {
            gtr_tick(
                byte_or(data, j + 2 + 4 * k, 0),
                byte_or(data, j + 3 + 4 * k, 0),
                byte_or(data, j + 4 + 4 * k, 0),
                byte_or(data, j + 5 + 4 * k, 0),
            )
        } else {
            blank_tick()
        }),
    )
}

/// The sample slots: each slot 1..15 a pattern uses and whose data starts
/// within the file its sample; the others empty.
pub open spec fn gtr_sam_slots(data: Seq<u8>, mk: GtrMarks) -> Seq<Option<SamRead>> {
    Seq::new(32, |i: int| if 1 <= i < 16 && mk.is_sam[i] && gtr_sam_entry(data, i) is Some {
        Some(gtr_sample(data, gtr_sam_entry(data, i)->0))
    } else {
        None
    })
}

fn gtr_tick_exec(b0: u8, b1: u8, lo: u8, hi: u8) -> (r: SampleTick)
    ensures
        r == gtr_tick(b0, b1, lo, hi),
{
    let noise = b1 & 0x40 == 0;
    let v = b1 & 0x1F;
    assert(v < 32) by (bit_vector)
        requires
            v == b1 & 0x1F,
    ;
    let five: i8 = if v >= 16 {
        v as i8 - 32
    } else {
        v as i8
    };
    let w: i32 = lo as i32 + hi as i32 * 256;
    let ton: i16 = if w >= 32768 {
        (w - 65536) as i16
    } else {
        w as i16
    };
    SampleTick {
        add_to_ton: ton,
        ton_accumulation: false,
        amplitude: b0 & 0x0F,
        amplitude_sliding: false,
        amplitude_slide_up: false,
        envelope_enabled: b1 & 0x80 != 0,
        envelope_or_noise_accumulation: false,
        add_to_envelope_or_noise: if noise {
            five
        } else {
            0
        },
        mixer_ton: b1 & 0x20 == 0,
        mixer_noise: noise,
    }
}

/// Read the sample at `j` (see [`gtr_sample`]).
fn read_sample(data: &[u8], j: usize) -> (r: Sample)
    requires
        j + 1 < data@.len(),
        j < 65536,
    ensures
        gtr_sample(data@, j as int) == (r.length as int, r.loop_pos as int, r.items@),
        r.enabled,
{
    let mut sam = Sample::default();
    let raw = data[j + 1] / 4;
    let len: u8 = if raw == 0 {
        64
    } else {
        raw
    };
    let ghost want = gtr_sample(data@, j as int).2;
    let mut k: usize = 0;
    while k < len as usize
        invariant
            k <= len <= 64,
            j < 65536,
            len as int == gtr_sample(data@, j as int).0,
            want == gtr_sample(data@, j as int).2,
            sam.enabled,
            forall|q: int| 0 <= q < 64 ==> #[trigger] sam.items[q] == if q < k {
                want[q]
            } else {
                blank_tick()
            },
        decreases len - k,
    {
        let base = j + 2 + 4 * k;
        let t = gtr_tick_exec(get_or(data, base, 0), get_or(data, base + 1, 0), get_or(data, base + 2, 0), get_or(data, base + 3, 0));
        sam.items[k] = t;
        k = k + 1;
    }
    assert(sam.items@ =~= want);
    let lp = data[j] / 4;
    sam.length = len;
    sam.loop_pos = if lp >= len {
        len - 1
    } else {
        lp
    };
    sam
}

/// Read the samples the patterns use into their slots (see
/// [`gtr_sam_slots`]).
fn read_samples(data: &[u8], mk: &GtrMarks, samples: &mut [Option<Box<Sample>>; 32])
    requires
        data@.len() <= isize::MAX,
        sams_match(old(samples)@, Seq::new(32, |v: int| None)),
    ensures
        sams_match(final(samples)@, gtr_sam_slots(data@, *mk)),
{
    let ghost want = gtr_sam_slots(data@, *mk);
    let mut i: usize = 1;
    while i < 16
        invariant
            1 <= i <= 16,
            data@.len() <= isize::MAX,
            want == gtr_sam_slots(data@, *mk),
            sams_match(samples@, Seq::new(32, |q: int| if q < i {
                want[q]
            } else {
                None
            })),
        decreases 16 - i,
    {
        if mk.is_sam[i] {
            let p = GTR_OFF_SAM_PTRS + 2 * (i - 1);
            if p + 1 < data.len() {
                let j = word_at_exec(data, p);
                if j + 1 < data.len() {
                    let sam = read_sample(data, j);
                    samples[i] = Some(Box::new(sam));
                }
            }
        }
        i = i + 1;
    }
    assert(Seq::new(32, |q: int| if q < 16 {
        want[q]
    } else {
        None
    }) =~= want);
}

// ─── The module ──────────────────────────────────────────────────────────────

/// The position walk over the whole file (see [`gtr_walk`]); version 2
/// files have 0x10 as the last identifier byte.
pub open spec fn gtr_song(data: Seq<u8>) -> (int, Seq<usize>, Seq<PatRead>, GtrMarks) {
    gtr_walk(
        data,
        data[GTR_OFF_ID + 3] == 0x10,
        data[GTR_OFF_NUM_POS as int] as int,
        0,
        Seq::new(256, |i: int| 0usize),
        no_reads(),
        no_marks(),
    )
}

/// `m` is the module the GTR file `data` describes: the header's delay,
/// name (trailing blanks and control bytes dropped) and loop (kept within the
/// positions read), no author, tone table 1, the positions and patterns of
/// the walk, and the ornaments and samples the patterns use.
pub open spec fn gtr_module(data: Seq<u8>, m: Module) -> bool {
    let (n, values, pats, mk) = gtr_song(data);
    let lp = data[GTR_OFF_LOOP_POS as int] as int;
    &&& m.features_level == FeaturesLevel::Pt35
    &&& !m.vortex_module_header
    &&& m.ton_table == 1
    &&& m.initial_delay == data[GTR_OFF_DELAY as int]
    &&& m.title@ == crate::formats::utf8_lossy(trim_end(data.subrange(GTR_OFF_NAME as int, GTR_OFF_NAME + 32)))
    &&& m.author@ == Seq::<char>::empty()
    &&& m.positions.length == n
    &&& m.positions.value@ == values
    &&& m.positions.loop_pos == if n > 0 && lp >= n {
        n - 1
    } else {
        lp
    }
    &&& pats_match(m.patterns@, pats)
    &&& orns_match(m.ornaments@, gtr_orn_slots(data, mk))
    &&& sams_match(m.samples@, gtr_sam_slots(data, mk))
    &&& forall|c: int|
        0 <= c < 3 ==> #[trigger] m.is_chans[c] == (crate::types::ChannelState {
            global_ton: true,
            global_noise: true,
            global_envelope: true,
            envelope_enabled: false,
            ornament: 0,
            sample: 1,
            volume: 15,
        })
}

/// What reading the GTR file `data` gives: files shorter than the header
/// and one position are refused, otherwise the module [`gtr_module`]
/// describes.
pub open spec fn parse_outcome(data: Seq<u8>, r: Result<Module, FormatError>) -> bool {
    &&& data.len() < GTR_MIN_FILE_SIZE ==> r == Err::<Module, FormatError>(FormatError::TooShort)
    &&& data.len() >= GTR_MIN_FILE_SIZE ==> (r matches Ok(m) && m.wf() && gtr_module(data, m))
}

/// Parse a Global Tracker (`.gtr`) file (see [`parse_outcome`]).
pub fn parse(data: &[u8]) -> (r: Result<Module, FormatError>)
    requires
        data@.len() <= isize::MAX,
    ensures
        parse_outcome(data@, r),
{
    if data.len() < GTR_MIN_FILE_SIZE {
        return Err(FormatError::TooShort);
    }
    let mut module = Module::default();
    module.features_level = FeaturesLevel::Pt35;
    module.vortex_module_header = false;
    module.ton_table = 1;
    assert(module.author@ =~= Seq::<char>::empty());
    module.title = trim_right_ascii(vstd::slice::slice_subrange(data, GTR_OFF_NAME, GTR_OFF_NAME + 32));
    module.initial_delay = data[GTR_OFF_DELAY];
    let num_pos = data[GTR_OFF_NUM_POS] as usize;
    let v2 = data[GTR_OFF_ID + 3] == 0x10;
    let mk0 = GtrMarks { is_orn: [false; 16], is_sam: [false; 17] };
    assert(mk0.is_orn =~= no_marks().is_orn);
    assert(mk0.is_sam =~= no_marks().is_sam);
    assert(pats_match(module.patterns@, no_reads()));
    assert(module.positions.value@ =~= Seq::new(256, |i: int| 0usize));
    let (n, mk) = read_positions(data, v2, num_pos, &mut module.positions.value, &mut module.patterns, mk0);
    module.positions.length = n;
    let lp = data[GTR_OFF_LOOP_POS] as usize;
    module.positions.loop_pos = if n > 0 && lp >= n {
        n - 1
    } else {
        lp
    };
    assert(module.ornaments[0] matches Some(o) && o.items@ =~= crate::formats::asc::zero_offsets());
    assert(orns_match(module.ornaments@, start_orn_slots()));
    read_ornaments(data, &mk, &mut module.ornaments);
    assert(sams_match(module.samples@, Seq::new(32, |v: int| None)));
    read_samples(data, &mk, &mut module.samples);
    assert(gtr_song(data@).3 == mk);
    Ok(module)
}

/// The fields of a GTR sample tick by the bits of its bytes: the amplitude
/// is the low nibble of byte 0; in byte 1, bit 5 set turns the tone off,
/// bit 6 set the noise off, bit 7 set the envelope on, and the low five bits
/// are the signed noise offset when the noise is on; bytes 2 and 3 are the
/// tone offset as a signed little-endian word.
pub proof fn lemma_gtr_tick_bits(b0: u8, b1: u8, lo: u8, hi: u8)
    ensures
        ({
            let t = gtr_tick(b0, b1, lo, hi);
            let noise = (b1 as int / 64) % 2 == 0;
            &&& t.amplitude as int == b0 as int % 16
            &&& t.mixer_ton == ((b1 as int / 32) % 2 == 0)
            &&& t.mixer_noise == noise
            &&& t.envelope_enabled == ((b1 as int / 128) % 2 == 1)
            &&& t.add_to_ton as int == lo as int + 256 * hi as int - if hi >= 128 { 65536int } else { 0int }
            &&& t.add_to_envelope_or_noise as int == if noise { crate::formats::asc::signed5(b1 as int) } else { 0 }
        }),
{
    assert(b0 & 0x0Fu8 == b0 % 16 && (b1 & 0x20u8 == 0) == ((b1 / 32) % 2 == 0) && (b1 & 0x40u8 == 0) == ((b1 / 64)
        % 2 == 0) && (b1 & 0x80u8 != 0) == ((b1 / 128) % 2 == 1) && b1 & 0x1Fu8 == b1 % 32) by (bit_vector);
}

} // verus!
