//! Pro Tracker 1 (`*.pt1`) binary module files: reader.
use crate::formats::asc::{
    byte_or, no_reads, orns_match, pats_match, sams_match, start_orn_slots, word_at, OrnRead,
    PatRead, SamRead,
};
use crate::formats::pt3::{empty_rows, trim_end, trim_right_ascii};
use crate::formats::stc::{marks_ok, no_marks, note_orn_sample, stc_chan_ok, stc_chan_rest, stc_tick, StcChan, StcMarks};
use crate::formats::FormatError;
use crate::types::{
    blank_tick, AdditionalCommand, ChannelLine, FeaturesLevel, Module, Ornament, Pattern, PatternRow, Sample,
    MAX_NUM_OF_PATS, NOTE_SOUND_OFF,
};
use vstd::prelude::*;

verus! {

/// Initial delay.
pub const PT1_OFF_DELAY: usize = 0;
/// Number of positions.
pub const PT1_OFF_NUM_POS: usize = 1;
/// Loop position.
pub const PT1_OFF_LOOP_POS: usize = 2;
/// Sample offsets: 16 words (samples 1..16).
pub const PT1_OFF_SAM_PTRS: usize = 3;
/// Ornament offsets: 16 words (ornaments 0..15).
pub const PT1_OFF_ORN_PTRS: usize = 35;
/// Word: offset of the pattern table.
pub const PT1_OFF_PAT_PTR: usize = 67;
/// The 30-byte name.
pub const PT1_OFF_TITLE: usize = 69;
/// The position list: a pattern number per byte.
pub const PT1_OFF_POS_LIST: usize = 99;
/// Smallest PT1 file: the header and one position.
pub const PT1_MIN_FILE_SIZE: usize = 100;

// ─── Channel commands ────────────────────────────────────────────────────────

/// One channel's commands for one row, read until a note, sound-off or
/// end-of-row byte or the end of the data: sample and ornament choices are
/// marked as used (ornament 0 not); an envelope command reads its period
/// into the row when both bytes lie within the data.
pub open spec fn pt1_interp(data: Seq<u8>, c: StcChan, cl: ChannelLine, env: u16, mk: StcMarks) -> (
    StcChan,
    ChannelLine,
    u16,
    StcMarks,
)
    decreases data.len() + 2 - c.ptr,
{
    if c.ptr >= data.len() || data.len() >= usize::MAX - 4 {
        (c, cl, env, mk)
    } else {
        let b = data[c.ptr as int];
        let c1 = StcChan { ptr: (c.ptr + 1) as usize, ..c };
        if b <= 0x5F {
            (c1, ChannelLine { note: b as i8, ..cl }, env, mk)
        } else if b <= 0x6F {
            let s = (b - 0x5F) as u8;
            pt1_interp(
                data,
                StcChan { c_sam: s, ..c1 },
                ChannelLine { sample: s, ..cl },
                env,
                StcMarks { is_sam: vstd::array::spec_array_update(mk.is_sam, s as int, true), ..mk },
            )
        } else if b <= 0x7F {
            let o = (b - 0x70) as u8;
            pt1_interp(
                data,
                StcChan { c_orn: o, ..c1 },
                ChannelLine {
                    ornament: o,
                    envelope: if cl.envelope == 0 {
                        15
                    } else {
                        cl.envelope
                    },
                    ..cl
                },
                env,
                if o > 0 {
                    StcMarks { is_orn: vstd::array::spec_array_update(mk.is_orn, o as int, true), ..mk }
                } else {
                    mk
                },
            )
        } else if b == 0x80 {
            (c1, ChannelLine { note: NOTE_SOUND_OFF, ..cl }, env, mk)
        } else if b == 0x81 {
            pt1_interp(data, c1, ChannelLine { envelope: 15, ornament: c.c_orn, ..cl }, env, mk)
        } else if b <= 0x8F {
            let cl2 = ChannelLine { envelope: (b - 0x81) as u8, ornament: c.c_orn, ..cl };
            if c.ptr + 2 < data.len() {
                pt1_interp(data, StcChan { ptr: (c.ptr + 3) as usize, ..c }, cl2, word_at(data, c.ptr + 1) as u16, mk)
            } else {
                pt1_interp(data, c1, cl2, env, mk)
            }
        } else if b == 0x90 {
            (c1, cl, env, mk)
        } else if b <= 0xA0 {
            pt1_interp(
                data,
                c1,
                ChannelLine {
                    additional_command: AdditionalCommand { number: 11, parameter: (b - 0x91) as u8, ..cl.additional_command },
                    ..cl
                },
                env,
                mk,
            )
        } else if b <= 0xB0 {
            let v = (b - 0xA1) as u8;
            pt1_interp(data, c1, ChannelLine { volume: if v == 0 { 1 } else { v }, ..cl }, env, mk)
        } else {
            pt1_interp(data, StcChan { skip: (b - 0xB1) as i8, ..c1 }, cl, env, mk)
        }
    }
}

fn get_or(data: &[u8], i: usize, dflt: u8) -> (r: u8)
    ensures
        r == byte_or(data@, i as int, dflt),
{
    if i < data.len() {
        data[i]
    } else {
        dflt
    }
}

fn word_at_exec(data: &[u8], off: usize) -> (r: usize)
    requires
        off < usize::MAX,
    ensures
        r == word_at(data@, off as int),
        r < 65536,
{
    let lo = get_or(data, off, 0) as usize;
    let hi = get_or(data, off + 1, 0) as usize;
    lo + hi * 256
}

fn pt1_interp_exec(data: &[u8], c0: StcChan, cl0: ChannelLine, env0: u16, mk0: StcMarks) -> (r: (
    StcChan,
    ChannelLine,
    u16,
    StcMarks,
))
    requires
        stc_chan_ok(c0),
        data@.len() < usize::MAX - 4,
    ensures
        r == pt1_interp(data@, c0, cl0, env0, mk0),
        stc_chan_ok(r.0),
        r.3.orn2sam == mk0.orn2sam,
{
    let ghost target = pt1_interp(data@, c0, cl0, env0, mk0);
    let mut c = c0;
    let mut cl = cl0;
    let mut env = env0;
    let mut mk = mk0;
    loop
        invariant_except_break
            pt1_interp(data@, c, cl, env, mk) == target,
        invariant
            stc_chan_ok(c),
            data@.len() < usize::MAX - 4,
            target == pt1_interp(data@, c0, cl0, env0, mk0),
            mk.orn2sam == mk0.orn2sam,
        ensures
            target == (c, cl, env, mk),
        decreases data@.len() + 2 - c.ptr,
    {
        if c.ptr >= data.len() {
            break ;
        }
        let b = data[c.ptr];
        let p = c.ptr + 1;
        if b <= 0x5F {
            c.ptr = p;
            cl.note = b as i8;
            break ;
        } else if b <= 0x6F {
            let s = b - 0x5F;
            c.ptr = p;
            c.c_sam = s;
            cl.sample = s;
            mk.is_sam[s as usize] = true;
        } else if b <= 0x7F {
            let o = b - 0x70;
            c.ptr = p;
            c.c_orn = o;
            if o > 0 {
                mk.is_orn[o as usize] = true;
            }
            if cl.envelope == 0 {
                cl.envelope = 15;
            }
            cl.ornament = o;
        } else if b == 0x80 {
            c.ptr = p;
            cl.note = NOTE_SOUND_OFF;
            break ;
        } else if b == 0x81 {
            c.ptr = p;
            cl.envelope = 15;
            cl.ornament = c.c_orn;
        } else if b <= 0x8F {
            cl.envelope = b - 0x81;
            cl.ornament = c.c_orn;
            if p + 1 < data.len() {
                env = word_at_exec(data, p) as u16;
                c.ptr = p + 2;
            } else {
                c.ptr = p;
            }
        } else if b == 0x90 {
            c.ptr = p;
            break ;
        } else if b <= 0xA0 {
            c.ptr = p;
            cl.additional_command.number = 11;
            cl.additional_command.parameter = b - 0x91;
        } else if b <= 0xB0 {
            c.ptr = p;
            let v = b - 0xA1;
            cl.volume = if v == 0 {
                1
            } else {
                v
            };
        } else {
            c.ptr = p;
            c.skip = (b - 0xB1) as i8;
        }
    }
    (c, cl, env, mk)
}

/// One channel's turn in a row: while its skip counter runs it rests; when
/// due it reads its commands into cell `k` of `row` and restarts the counter
/// at its skip; an ornament chosen for the first time with a sample gets
/// that sample.
pub open spec fn pt1_turn(data: Seq<u8>, c: StcChan, row: PatternRow, k: int, mk: StcMarks) -> (
    StcChan,
    PatternRow,
    StcMarks,
) {
    let sc = (c.skip_ctr - 1) as i8;
    if sc >= 0 {
        (StcChan { skip_ctr: sc, ..c }, row, mk)
    } else {
        let r = pt1_interp(data, StcChan { skip_ctr: sc, ..c }, row.channel[k], row.envelope, mk);
        (
            StcChan { skip_ctr: r.0.skip, ..r.0 },
            PatternRow {
                channel: vstd::array::spec_array_update(row.channel, k, r.1),
                envelope: r.2,
                ..row
            },
            note_orn_sample(r.0, r.3),
        )
    }
}

fn pt1_turn_exec(data: &[u8], c: StcChan, row: PatternRow, k: usize, mk: StcMarks) -> (r: (
    StcChan,
    PatternRow,
    StcMarks,
))
    requires
        k < 3,
        stc_chan_rest(c),
        marks_ok(mk),
        data@.len() < usize::MAX - 4,
    ensures
        r == pt1_turn(data@, c, row, k as int, mk),
        stc_chan_rest(r.0),
        marks_ok(r.2),
{
    let sc = c.skip_ctr - 1;
    if sc >= 0 {
        (StcChan { skip_ctr: sc, ..c }, row, mk)
    } else {
        let (c2, cell, env, mk2) = pt1_interp_exec(data, StcChan { skip_ctr: sc, ..c }, row.channel[k], row.envelope, mk);
        let mut row2 = row;
        row2.channel[k] = cell;
        row2.envelope = env;
        assert(row2.channel =~= vstd::array::spec_array_update(row.channel, k as int, cell));
        let mut mk3 = mk2;
        if c2.c_orn > 0 && mk2.orn2sam[c2.c_orn as usize] == 0 {
            mk3.orn2sam[c2.c_orn as usize] = c2.c_sam;
            assert(mk3.orn2sam =~= vstd::array::spec_array_update(mk2.orn2sam, c2.c_orn as int, c2.c_sam));
        }
        (StcChan { skip_ctr: c2.skip, ..c2 }, row2, mk3)
    }
}

/// The rows of a pattern from row `i` on: its length, rows, and the
/// channels and marks after.  Channel A ends the pattern when it is due and
/// its next byte is 0xFF (or the data has ended).
pub open spec fn pt1_rows(
    data: Seq<u8>,
    a: StcChan,
    b: StcChan,
    c: StcChan,
    mk: StcMarks,
    i: int,
    items: Seq<PatternRow>,
) -> (int, Seq<PatternRow>, StcChan, StcChan, StcChan, StcMarks)
    decreases 256 - i,
{
    if i >= 256 || i < 0 {
        (i, items, a, b, c, mk)
    } else if a.skip_ctr - 1 < 0 && byte_or(data, a.ptr as int, 0xFF) == 0xFF {
        (i, items, a, b, c, mk)
    } else {
        let (a2, r1, mk1) = pt1_turn(data, a, items[i], 0, mk);
        let (b2, r2, mk2) = pt1_turn(data, b, r1, 1, mk1);
        let (c2, r3, mk3) = pt1_turn(data, c, r2, 2, mk2);
        pt1_rows(data, a2, b2, c2, mk3, i + 1, items.update(i, r3))
    }
}

/// A channel starting a pattern at `ptr`, keeping its sample and ornament.
pub open spec fn pt1_restart(c: StcChan, ptr: int) -> StcChan {
    StcChan { ptr: ptr as usize, skip: 0, skip_ctr: 0, ..c }
}

/// Pattern `j` of the table at `base` (three words per pattern): a blank
/// default pattern when its entry runs past the data, else its rows (see
/// [`pt1_rows`]).
pub open spec fn pt1_pattern(data: Seq<u8>, base: int, j: int, a: StcChan, b: StcChan, c: StcChan, mk: StcMarks) -> (
    int,
    Seq<PatternRow>,
    StcChan,
    StcChan,
    StcChan,
    StcMarks,
) {
    let t = base + 6 * j;
    if t + 6 > data.len() {
        (64, empty_rows(), a, b, c, mk)
    } else {
        pt1_rows(
            data,
            pt1_restart(a, word_at(data, t)),
            pt1_restart(b, word_at(data, t + 2)),
            pt1_restart(c, word_at(data, t + 4)),
            mk,
            0,
            empty_rows(),
        )
    }
}

/// Read pattern `j` (see [`pt1_pattern`]).
fn decode_pattern(data: &[u8], base: usize, j: usize, a0: StcChan, b0: StcChan, c0: StcChan, mk0: StcMarks) -> (r: (
    Pattern,
    StcChan,
    StcChan,
    StcChan,
    StcMarks,
))
    requires
        j <= 255,
        base < 65536,
        data@.len() <= isize::MAX,
        stc_chan_rest(a0),
        stc_chan_rest(b0),
        stc_chan_rest(c0),
        marks_ok(mk0),
    ensures
        marks_ok(r.4),
        pt1_pattern(data@, base as int, j as int, a0, b0, c0, mk0) == (
            r.0.length as int,
            r.0.items@,
            r.1,
            r.2,
            r.3,
            r.4,
        ),
        r.0.length <= 256,
        stc_chan_rest(r.1),
        stc_chan_rest(r.2),
        stc_chan_rest(r.3),
{
    let t = base + 6 * j;
    if t + 6 > data.len() {
        let p = Pattern::default();
        assert(p.items@ =~= empty_rows());
        return (p, a0, b0, c0, mk0);
    }
    let mut a = StcChan { ptr: word_at_exec(data, t), skip: 0, skip_ctr: 0, ..a0 };
    let mut b = StcChan { ptr: word_at_exec(data, t + 2), skip: 0, skip_ctr: 0, ..b0 };
    let mut c = StcChan { ptr: word_at_exec(data, t + 4), skip: 0, skip_ctr: 0, ..c0 };
    let mut mk = mk0;
    let mut pattern = Pattern::default();
    assert(pattern.items@ =~= empty_rows());
    let ghost target = pt1_rows(data@, a, b, c, mk, 0, pattern.items@);
    let mut i: usize = 0;
    while i < 256
        invariant_except_break
            pt1_rows(data@, a, b, c, mk, i as int, pattern.items@) == target,
        invariant
            i <= 256,
            data@.len() <= isize::MAX,
            stc_chan_rest(a),
            stc_chan_rest(b),
            stc_chan_rest(c),
            marks_ok(mk),
        ensures
            target == (i as int, pattern.items@, a, b, c, mk),
        decreases 256 - i,
    {
        if a.skip_ctr - 1 < 0 && get_or(data, a.ptr, 0xFF) == 0xFF {
            break ;
        }
        let row = pattern.items[i];
        let (a2, r1, mk1) = pt1_turn_exec(data, a, row, 0, mk);
        let (b2, r2, mk2) = pt1_turn_exec(data, b, r1, 1, mk1);
        let (c2, r3, mk3) = pt1_turn_exec(data, c, r2, 2, mk2);
        pattern.items[i] = r3;
        a = a2;
        b = b2;
        c = c2;
        mk = mk3;
        i = i + 1;
    }
    pattern.length = i;
    (pattern, a, b, c, mk)
}

// ─── Positions ───────────────────────────────────────────────────────────────

/// The positions from `pos` on, up to `num_pos` or the end of the data:
/// each names a pattern (numbers past the last pattern slot are skipped and
/// leave their position 0); a pattern is read the first time a position
/// names it (see [`pt1_pattern`]), the channels' sample and ornament and the
/// marks carrying from one pattern to the next.  Gives the number of
/// positions, their list, the patterns and the marks.
pub open spec fn pt1_walk(
    data: Seq<u8>,
    base: int,
    num_pos: int,
    pos: int,
    values: Seq<usize>,
    pats: Seq<PatRead>,
    a: StcChan,
    b: StcChan,
    c: StcChan,
    mk: StcMarks,
) -> (int, Seq<usize>, Seq<PatRead>, StcMarks)
    decreases 256 - pos,
{
    if pos >= num_pos || pos >= 256 || pos < 0 || PT1_OFF_POS_LIST + pos >= data.len() {
        (pos, values, pats, mk)
    } else {
        let j = data[PT1_OFF_POS_LIST + pos] as int;
        if j > MAX_NUM_OF_PATS {
            pt1_walk(data, base, num_pos, pos + 1, values, pats, a, b, c, mk)
        } else {
            let v2 = values.update(pos, j as usize);
            if pats[j] is Some {
                pt1_walk(data, base, num_pos, pos + 1, v2, pats, a, b, c, mk)
            } else {
                let (l, it, a2, b2, c2, mk2) = pt1_pattern(data, base, j, a, b, c, mk);
                pt1_walk(data, base, num_pos, pos + 1, v2, pats.update(j, Some((l, it))), a2, b2, c2, mk2)
            }
        }
    }
}

/// A channel before the first pattern.
pub open spec fn pt1_chan0() -> StcChan {
    StcChan { ptr: 0, skip: 0, skip_ctr: 0, c_sam: 0, c_orn: 0 }
}

/// Walk the positions (see [`pt1_walk`]) into `values` and `patterns`.
fn read_positions(
    data: &[u8],
    base: usize,
    num_pos: usize,
    values: &mut [usize; 256],
    patterns: &mut Vec<Option<Box<Pattern>>>,
    mk0: StcMarks,
) -> (r: (usize, StcMarks))
    requires
        base < 65536,
        num_pos <= 255,
        data@.len() <= isize::MAX,
        pats_match(old(patterns)@, no_reads()),
        marks_ok(mk0),
    ensures
        marks_ok(r.1),
        ({
            let w = pt1_walk(data@, base as int, num_pos as int, 0, old(values)@, no_reads(), pt1_chan0(), pt1_chan0(), pt1_chan0(), mk0);
            &&& w.0 == r.0
            &&& w.1 == final(values)@
            &&& pats_match(final(patterns)@, w.2)
            &&& w.3 == r.1
        }),
        final(patterns)@.len() == old(patterns)@.len(),
        r.0 <= num_pos,
{
    let z = StcChan { ptr: 0, skip: 0, skip_ctr: 0, c_sam: 0, c_orn: 0 };
    let ghost target = pt1_walk(data@, base as int, num_pos as int, 0, values@, no_reads(), z, z, z, mk0);
    let ghost mut sp = no_reads();
    let mut a = z;
    let mut b = z;
    let mut c = z;
    let mut mk = mk0;
    let mut pos: usize = 0;
    while pos < num_pos
        invariant_except_break
            pt1_walk(data@, base as int, num_pos as int, pos as int, values@, sp, a, b, c, mk) == target,
        invariant
            pos <= num_pos <= 255,
            base < 65536,
            data@.len() <= isize::MAX,
            stc_chan_rest(a),
            stc_chan_rest(b),
            stc_chan_rest(c),
            marks_ok(mk),
            pats_match(patterns@, sp),
            sp.len() == MAX_NUM_OF_PATS + 1,
            patterns@.len() == MAX_NUM_OF_PATS + 1,
        ensures
            target == (pos as int, values@, sp, mk),
        decreases num_pos - pos,
    {
        let off = PT1_OFF_POS_LIST + pos;
        if off >= data.len() {
            break ;
        }
        let j = data[off] as usize;
        if j > MAX_NUM_OF_PATS {
            pos = pos + 1;
            continue ;
        }
        values[pos] = j;
        pos = pos + 1;
        if patterns[j].is_none() {
            let (pat, a2, b2, c2, mk2) = decode_pattern(data, base, j, a, b, c, mk);
            proof {
                sp = sp.update(j as int, Some((pat.length as int, pat.items@)));
            }
            patterns.set(j, Some(Box::new(pat)));
            a = a2;
            b = b2;
            c = c2;
            mk = mk2;
        }
    }
    (pos, mk)
}

// ─── Ornaments and samples ───────────────────────────────────────────────────

/// Where sample `s`'s data starts (its table word is at `3 + 2 * (s - 1)`),
/// when its length and loop bytes lie within the data.
pub open spec fn pt1_sam_at(data: Seq<u8>, s: int) -> Option<int> {
    let p = word_at(data, PT1_OFF_SAM_PTRS + 2 * (s - 1));
    if PT1_OFF_SAM_PTRS + 2 * (s - 1) + 1 < data.len() && p + 1 < data.len() {
        Some(p)
    } else {
        None
    }
}

/// The ornament whose offsets start at `j`, its length and loop those of
/// its first sample `s` (length 1 when it has none, 32 steps from the start
/// for a length of 0); offsets past the end of the data read as 0.
pub open spec fn pt1_ornament(data: Seq<u8>, j: int, s: u8) -> OrnRead {
    let (l0, lp0) = if s > 0 && pt1_sam_at(data, s as int) is Some {
        let p = pt1_sam_at(data, s as int)->0;
        (data[p] as int, data[p + 1] as int)
    } else {
        (1int, 0int)
    };
    let (len, lp1) = if l0 == 0 {
        (32int, 0int)
    } else {
        (l0, lp0)
    };
    let lp = if lp1 >= len {
        len - 1
    } else {
        lp1
    };
    (len, lp, Seq::new(255, |q: int| if q < len {
        byte_or(data, j + q, 0) as i8
    } else {
        0i8
    }))
}

/// The ornament slots: slot 0 the single zero offset, each slot 1..15 a
/// pattern uses its ornament.
pub open spec fn pt1_orn_slots(data: Seq<u8>, mk: StcMarks) -> Seq<Option<OrnRead>> {
    Seq::new(16, |i: int| if i == 0 {
        start_orn_slots()[0]
    } else if mk.is_orn[i] && PT1_OFF_ORN_PTRS + 2 * i + 1 < data.len() {
        Some(pt1_ornament(data, word_at(data, PT1_OFF_ORN_PTRS + 2 * i), mk.orn2sam[i]))
    } else {
        None
    })
}

/// Read the ornament at `j` shaped by sample `s` (see [`pt1_ornament`]).
fn read_ornament(data: &[u8], j: usize, s: u8) -> (r: Ornament)
    requires
        j < 65536,
        s <= 16,
        data@.len() <= isize::MAX,
    ensures
        pt1_ornament(data@, j as int, s) == (r.length as int, r.loop_pos as int, r.items@),
{
    let mut l0: usize = 1;
    let mut lp0: usize = 0;
    if s > 0 {
        let sp = PT1_OFF_SAM_PTRS + 2 * (s as usize - 1);
        if sp + 1 < data.len() {
            let p = word_at_exec(data, sp);
            if p + 1 < data.len() {
                l0 = data[p] as usize;
                lp0 = data[p + 1] as usize;
            }
        }
    }
    let len: usize = if l0 == 0 {
        32
    } else {
        l0
    };
    let lp1: usize = if l0 == 0 {
        0
    } else {
        lp0
    };
    let mut orn = Ornament::default();
    let mut q: usize = 0;
    while q < len
        invariant
            q <= len <= 255,
            j < 65536,
            orn.items@.len() == 255,
            forall|t: int|
                0 <= t < 255 ==> #[trigger] orn.items@[t] == if t < q {
                    byte_or(data@, j + t, 0) as i8
                } else {
                    0i8
                },
        decreases len - q,
    {
        orn.items[q] = get_or(data, j + q, 0) as i8;
        q = q + 1;
    }
    assert(orn.items@ =~= pt1_ornament(data@, j as int, s).2);
    orn.length = len;
    orn.loop_pos = if lp1 >= len {
        len - 1
    } else {
        lp1
    };
    orn
}

/// Read the ornaments the patterns use into their slots (see
/// [`pt1_orn_slots`]).
fn read_ornaments(data: &[u8], mk: &StcMarks, ornaments: &mut [Option<Box<Ornament>>; 16])
    requires
        marks_ok(*mk),
        data@.len() <= isize::MAX,
        orns_match(old(ornaments)@, start_orn_slots()),
    ensures
        orns_match(final(ornaments)@, pt1_orn_slots(data@, *mk)),
{
    let ghost want = pt1_orn_slots(data@, *mk);
    let mut i: usize = 1;
    while i < 16
        invariant
            1 <= i <= 16,
            marks_ok(*mk),
            data@.len() <= isize::MAX,
            want == pt1_orn_slots(data@, *mk),
            orns_match(ornaments@, Seq::new(16, |q: int| if q < i {
                want[q]
            } else {
                None
            })),
        decreases 16 - i,
    {
        if mk.is_orn[i] {
            let p = PT1_OFF_ORN_PTRS + 2 * i;
            if p + 1 < data.len() {
                let j = word_at_exec(data, p);
                let orn = read_ornament(data, j, mk.orn2sam[i]);
                ornaments[i] = Some(Box::new(orn));
            }
        }
        i = i + 1;
    }
    assert(Seq::new(16, |q: int| if q < 16 {
        want[q]
    } else {
        None
    }) =~= want);
}

/// The sample whose data starts at `p`: length byte (0 or over 64 read as
/// 64), loop byte (kept within the length), then three bytes per tick (bytes
/// past the end read as 0).
pub open spec fn pt1_sample(data: Seq<u8>, p: int) -> SamRead {
    let l = data[p] as int;
    let len = if l == 0 || l > 64 {
        64
    } else {
        l
    };
    let lp = data[p + 1] as int;
    (
        len,
        if lp >= len {
            len - 1
        } else {
            lp
        },
        Seq::new(64, |q: int| if q < len {
            stc_tick(byte_or(data, p + 2 + 3 * q, 0), byte_or(data, p + 3 + 3 * q, 0), byte_or(data, p + 4 + 3 * q, 0))
        } else {
            blank_tick()
        }),
    )
}

/// The sample slots: each slot 1..16 a pattern uses and whose data starts
/// within the file its sample; the others empty.
pub open spec fn pt1_sam_slots(data: Seq<u8>, mk: StcMarks) -> Seq<Option<SamRead>> {
    Seq::new(32, |i: int| if 1 <= i <= 16 && mk.is_sam[i] && pt1_sam_at(data, i) is Some {
        Some(pt1_sample(data, pt1_sam_at(data, i)->0))
    } else {
        None
    })
}

/// Read the sample at `p` (see [`pt1_sample`]).
fn read_sample(data: &[u8], p: usize) -> (r: Sample)
    requires
        p + 1 < data@.len(),
        p < 65536,
    ensures
        pt1_sample(data@, p as int) == (r.length as int, r.loop_pos as int, r.items@),
        r.enabled,
{
    let l = data[p];
    let len: u8 = if l == 0 || l > 64 {
        64
    } else {
        l
    };
    let ghost want = pt1_sample(data@, p as int).2;
    let mut sam = Sample::default();
    let mut k: usize = 0;
    while k < len as usize
        invariant
            k <= len <= 64,
            p < 65536,
            len as int == pt1_sample(data@, p as int).0,
            want == pt1_sample(data@, p as int).2,
            sam.enabled,
            forall|q: int| 0 <= q < 64 ==> #[trigger] sam.items[q] == if q < k {
                want[q]
            } else {
                blank_tick()
            },
        decreases len - k,
    {
        let base = p + 2 + 3 * k;
        sam.items[k] = crate::formats::stc::stc_tick_exec(get_or(data, base, 0), get_or(data, base + 1, 0), get_or(data, base + 2, 0));
        k = k + 1;
    }
    assert(sam.items@ =~= want);
    let lp = data[p + 1];
    sam.length = len;
    sam.loop_pos = if lp >= len {
        len - 1
    } else {
        lp
    };
    sam
}

/// Read the samples the patterns use into their slots (see
/// [`pt1_sam_slots`]).
fn read_samples(data: &[u8], mk: &StcMarks, samples: &mut [Option<Box<Sample>>; 32])
    requires
        data@.len() <= isize::MAX,
        sams_match(old(samples)@, Seq::new(32, |v: int| None)),
    ensures
        sams_match(final(samples)@, pt1_sam_slots(data@, *mk)),
{
    let ghost want = pt1_sam_slots(data@, *mk);
    let mut i: usize = 1;
    while i <= 16
        invariant
            1 <= i <= 17,
            data@.len() <= isize::MAX,
            want == pt1_sam_slots(data@, *mk),
            sams_match(samples@, Seq::new(32, |q: int| if q < i {
                want[q]
            } else {
                None
            })),
        decreases 17 - i,
    {
        if mk.is_sam[i] {
            let sp = PT1_OFF_SAM_PTRS + 2 * (i - 1);
            if sp + 1 < data.len() {
                let p = word_at_exec(data, sp);
                if p + 1 < data.len() {
                    let sam = read_sample(data, p);
                    samples[i] = Some(Box::new(sam));
                }
            }
        }
        i = i + 1;
    }
    assert(Seq::new(32, |q: int| if q < 17 {
        want[q]
    } else {
        None
    }) =~= want);
}

// ─── The module ──────────────────────────────────────────────────────────────

/// The position walk over the whole file (see [`pt1_walk`]).
pub open spec fn pt1_song(data: Seq<u8>) -> (int, Seq<usize>, Seq<PatRead>, StcMarks) {
    pt1_walk(
        data,
        word_at(data, PT1_OFF_PAT_PTR as int),
        data[PT1_OFF_NUM_POS as int] as int,
        0,
        Seq::new(256, |i: int| 0usize),
        no_reads(),
        pt1_chan0(),
        pt1_chan0(),
        pt1_chan0(),
        no_marks(),
    )
}

/// `m` is the module the PT1 file `data` describes: its delay, loop and
/// name (trailing blanks and control bytes dropped), no author, tone table
/// 1, the positions and patterns of the walk, and the ornaments and samples
/// the patterns use.
pub open spec fn pt1_module(data: Seq<u8>, m: Module) -> bool {
    let (n, values, pats, mk) = pt1_song(data);
    &&& m.wf()
    &&& m.features_level == FeaturesLevel::Pt35
    &&& !m.vortex_module_header
    &&& m.ton_table == 1
    &&& m.initial_delay == data[PT1_OFF_DELAY as int]
    &&& m.title@ == crate::formats::utf8_lossy(trim_end(data.subrange(PT1_OFF_TITLE as int, PT1_OFF_TITLE + 30)))
    &&& m.author@ == Seq::<char>::empty()
    &&& m.positions.loop_pos == data[PT1_OFF_LOOP_POS as int]
    &&& m.positions.length == n
    &&& m.positions.value@ == values
    &&& pats_match(m.patterns@, pats)
    &&& orns_match(m.ornaments@, pt1_orn_slots(data, mk))
    &&& sams_match(m.samples@, pt1_sam_slots(data, mk))
    &&& forall|c: int|
        0 <= c < 3 ==> #[trigger] m.is_chans[c] == (crate::types::ChannelState {
            global_ton: true,
            global_noise: true,
            global_envelope: true,
            envelope_enabled: false,
            ornament: 0,
            sample: 1,
            volume: 15,
        })
}

/// What reading the PT1 file `data` gives: files shorter than the header
/// and one position are refused, so are those whose walk reads no position;
/// otherwise the module [`pt1_module`] describes.
pub open spec fn parse_outcome(data: Seq<u8>, r: Result<Module, FormatError>) -> bool {
    &&& data.len() < PT1_MIN_FILE_SIZE ==> r == Err::<Module, FormatError>(FormatError::TooShort)
    &&& data.len() >= PT1_MIN_FILE_SIZE && pt1_song(data).0 == 0 ==> r == Err::<Module, FormatError>(
        FormatError::NoPositions,
    )
    &&& data.len() >= PT1_MIN_FILE_SIZE && pt1_song(data).0 != 0 ==> (r matches Ok(m) && pt1_module(data, m))
}

/// Parse a Pro Tracker 1 (`.pt1`) file (see [`parse_outcome`]).
pub fn parse(data: &[u8]) -> (r: Result<Module, FormatError>)
    requires
        data@.len() <= isize::MAX,
    ensures
        parse_outcome(data@, r),
{
    if data.len() < PT1_MIN_FILE_SIZE {
        return Err(FormatError::TooShort);
    }
    let mut module = Module::default();
    module.features_level = FeaturesLevel::Pt35;
    module.vortex_module_header = false;
    module.ton_table = 1;
    assert(module.author@ =~= Seq::<char>::empty());
    module.title = trim_right_ascii(vstd::slice::slice_subrange(data, PT1_OFF_TITLE, PT1_OFF_TITLE + 30));
    module.initial_delay = data[PT1_OFF_DELAY];
    module.positions.loop_pos = data[PT1_OFF_LOOP_POS] as usize;
    let num_pos = data[PT1_OFF_NUM_POS] as usize;
    let base = word_at_exec(data, PT1_OFF_PAT_PTR);
    let mk0 = StcMarks { is_orn: [false; 16], is_sam: [false; 17], orn2sam: [0u8; 16] };
    assert(mk0.is_orn =~= no_marks().is_orn);
    assert(mk0.is_sam =~= no_marks().is_sam);
    assert(mk0.orn2sam =~= no_marks().orn2sam);
    assert(module.positions.value@ =~= Seq::new(256, |i: int| 0usize));
    assert(pats_match(module.patterns@, no_reads()));
    let (n, mk) = read_positions(data, base, num_pos, &mut module.positions.value, &mut module.patterns, mk0);
    assert(pt1_chan0() == StcChan { ptr: 0, skip: 0, skip_ctr: 0, c_sam: 0, c_orn: 0 });
    if n == 0 {
        return Err(FormatError::NoPositions);
    }
    module.positions.length = n;
    assert(module.ornaments[0] matches Some(o) && o.items@ =~= crate::formats::asc::zero_offsets());
    assert(orns_match(module.ornaments@, start_orn_slots()));
    read_ornaments(data, &mk, &mut module.ornaments);
    assert(sams_match(module.samples@, Seq::new(32, |v: int| None)));
    read_samples(data, &mk, &mut module.samples);
    Ok(module)
}

} // verus!
