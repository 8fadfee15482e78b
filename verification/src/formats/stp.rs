//! Sound Tracker Pro (`*.stp`) binary module files: reader.
use crate::formats::asc::{
    byte_or, no_reads, orns_match, pats_match, sams_match, sfive, start_orn_slots, word_at, OrnRead,
    PatRead, SamRead,
};
use crate::formats::gtr::signed_word;
use crate::formats::pt3::{empty_rows, trim_end, trim_right_ascii};
use crate::formats::stc::find_combo;
use crate::formats::FormatError;
use crate::types::{
    blank_tick, AdditionalCommand, ChannelLine, FeaturesLevel, Module, Ornament, Pattern, PatternRow, Sample,
    SampleTick, MAX_NUM_OF_PATS, NOTE_SOUND_OFF,
};
use vstd::prelude::*;

verus! {

/// Initial delay.
pub const STP_OFF_DELAY: usize = 0;
/// Word: offset of the position list.
pub const STP_OFF_POS_PTR: usize = 1;
/// Word: offset of the pattern table.
pub const STP_OFF_PAT_PTR: usize = 3;
/// Word: offset of the ornament table.
pub const STP_OFF_ORN_PTR: usize = 5;
/// Word: offset of the sample table.
pub const STP_OFF_SAM_PTR: usize = 7;
/// Where the compiler's signature starts.
pub const STP_OFF_KSA_ID: usize = 10;
/// Where the name of a compiled module starts (25 bytes).
pub const STP_OFF_KSA_TITLE: usize = 38;
/// Smallest STP file.
pub const STP_MIN_FILE_SIZE: usize = 10;

/// The signature `KSA SOFTWARE COMPILER V2.0  ` of compiled modules.
pub open spec fn ksa_id() -> Seq<u8> {
    seq![
        0x4Bu8, 0x53, 0x41, 0x20, 0x53, 0x4F, 0x46, 0x54, 0x57, 0x41, 0x52, 0x45, 0x20, 0x43, 0x4F, 0x4D,
        0x50, 0x49, 0x4C, 0x45, 0x52, 0x20, 0x56, 0x32, 0x2E, 0x30, 0x20, 0x20,
    ]
}

// ─── Channel commands ────────────────────────────────────────────────────────

/// One channel's reading state: stream position, skip and skip counter,
/// and the glide in force (kept from pattern to pattern).
#[derive(Clone, Copy, PartialEq, Eq, Structural)]
pub struct StpChan {
    pub ptr: usize,
    pub skip: i8,
    pub skip_ctr: i8,
    pub gliss: i8,
}

/// Which ornaments and samples the patterns use.
#[derive(Clone, Copy)]
pub struct StpMarks {
    pub is_orn: [bool; 16],
    pub is_sam: [bool; 16],
}

/// Between rows the channel state is in range.
pub open spec fn stp_chan_ok(c: StpChan) -> bool {
    0 <= c.skip <= 63 && 0 <= c.skip_ctr <= 63
}

/// A glide command of `g` (not 0): up by `g`, or down by `-g`.
pub open spec fn glide(g: i8) -> AdditionalCommand {
    if g > 0 {
        AdditionalCommand { number: 1, delay: 1, parameter: g as u8 }
    } else {
        AdditionalCommand { number: 2, delay: 1, parameter: (-g) as u8 }
    }
}

/// The note `b - 1` moved by `trans` semitones, kept within 0..0x5F.
pub open spec fn stp_note(b: u8, trans: u8) -> i8 {
    let n = b as int - 1 + trans as int;
    (if n > 0x5F {
        0x5F
    } else {
        n
    }) as i8
}

/// One channel's commands for one row, read until a note, sound-off or
/// end-of-row byte or the end of the data: notes are transposed by `trans`
/// and carry the glide in force unless it was stopped in this row (which
/// ends it); an ornament, envelope or zero glide command stops the glide.
/// Gives the channel, whether a stop is pending, the cell, the row envelope
/// period and the marks.
pub open spec fn stp_interp(data: Seq<u8>, c: StpChan, trans: u8, stop: bool, cl: ChannelLine, env: u16, mk: StpMarks) -> (
    StpChan,
    bool,
    ChannelLine,
    u16,
    StpMarks,
)
    decreases data.len() + 2 - c.ptr,
{
    if c.ptr >= data.len() || data.len() >= usize::MAX - 4 {
        (c, stop, cl, env, mk)
    } else {
        let b = data[c.ptr as int];
        let c1 = StpChan { ptr: (c.ptr + 1) as usize, ..c };
        if b == 0 {
            (c1, stop, cl, env, mk)
        } else if b <= 0x60 {
            let cl2 = ChannelLine { note: stp_note(b, trans), ..cl };
            if stop {
                (StpChan { gliss: 0, ..c1 }, false, cl2, env, mk)
            } else if c.gliss != 0 && cl.additional_command.number == 0 {
                (c1, false, ChannelLine { additional_command: glide(c.gliss), ..cl2 }, env, mk)
            } else {
                (c1, false, cl2, env, mk)
            }
        } else if b <= 0x6F {
            let s = (b - 0x60) as u8;
            stp_interp(
                data,
                c1,
                trans,
                stop,
                ChannelLine { sample: s, ..cl },
                env,
                StpMarks { is_sam: vstd::array::spec_array_update(mk.is_sam, s as int, true), ..mk },
            )
        } else if b <= 0x7F {
            let o = (b - 0x70) as u8;
            stp_interp(
                data,
                c1,
                trans,
                true,
                ChannelLine { ornament: o, envelope: 15, ..cl },
                env,
                StpMarks { is_orn: vstd::array::spec_array_update(mk.is_orn, o as int, true), ..mk },
            )
        } else if b <= 0xBF {
            stp_interp(data, StpChan { skip: (b - 0x80) as i8, ..c1 }, trans, stop, cl, env, mk)
        } else if b == 0xC0 {
            stp_interp(data, c1, trans, true, ChannelLine { envelope: 15, ornament: 0, ..cl }, env, mk)
        } else if b <= 0xCF {
            stp_interp(
                data,
                StpChan { ptr: (c.ptr + 2) as usize, ..c },
                trans,
                true,
                ChannelLine {
                    envelope: if b == 0xCF {
                        7
                    } else {
                        (b - 0xC0) as u8
                    },
                    ornament: 0,
                    ..cl
                },
                byte_or(data, c.ptr + 1, 0) as u16,
                mk,
            )
        } else if b <= 0xDF {
            (c1, stop, ChannelLine { note: NOTE_SOUND_OFF, ..cl }, env, mk)
        } else if b <= 0xEF {
            (c1, stop, cl, env, mk)
        } else if b == 0xF0 {
            let raw = byte_or(data, c.ptr + 1, 0);
            let c2 = StpChan { ptr: (c.ptr + 2) as usize, ..c };
            if raw == 0 {
                stp_interp(data, c2, trans, true, cl, env, mk)
            } else {
                let g = (if raw >= 128 {
                    raw as int - 256
                } else {
                    raw as int
                }) as i8;
                stp_interp(
                    data,
                    StpChan { gliss: g, ..c2 },
                    trans,
                    stop,
                    ChannelLine { additional_command: glide(g), ..cl },
                    env,
                    mk,
                )
            }
        } else {
            stp_interp(data, c1, trans, stop, ChannelLine { volume: (256 - b) as u8, ..cl }, env, mk)
        }
    }
}

/// After a channel's commands: a pending stop ends a glide in force, and
/// puts a glide-stop command in the cell when it has no command.
pub open spec fn stp_post(c: StpChan, stop: bool, cl: ChannelLine) -> (StpChan, ChannelLine) {
    if stop && c.gliss != 0 {
        (
            StpChan { gliss: 0, ..c },
            if cl.additional_command.number == 0 {
                ChannelLine { additional_command: AdditionalCommand { number: 1, delay: 0, parameter: 0 }, ..cl }
            } else {
                cl
            },
        )
    } else {
        (c, cl)
    }
}

fn get_or(data: &[u8], i: usize, dflt: u8) -> (r: u8)
    ensures
        r == byte_or(data@, i as int, dflt),
{
    if i < data.len() {
        data[i]
    } else {
        dflt
    }
}

fn word_at_exec(data: &[u8], off: usize) -> (r: usize)
    requires
        off < usize::MAX,
    ensures
        r == word_at(data@, off as int),
        r < 65536,
{
    let lo = get_or(data, off, 0) as usize;
    let hi = get_or(data, off + 1, 0) as usize;
    lo + hi * 256
}

fn glide_exec(g: i8) -> (r: AdditionalCommand)
    requires
        g != 0,
    ensures
        r == glide(g),
{
    if g > 0 {
        AdditionalCommand { number: 1, delay: 1, parameter: g as u8 }
    } else {
        AdditionalCommand { number: 2, delay: 1, parameter: (-(g as i16)) as u8 }
    }
}

fn stp_interp_exec(data: &[u8], c0: StpChan, trans: u8, cl0: ChannelLine, env0: u16, mk0: StpMarks) -> (r: (
    StpChan,
    bool,
    ChannelLine,
    u16,
    StpMarks,
))
    requires
        0 <= c0.skip <= 63,
        data@.len() < usize::MAX - 4,
    ensures
        r == stp_interp(data@, c0, trans, false, cl0, env0, mk0),
        0 <= r.0.skip <= 63,
        r.0.skip_ctr == c0.skip_ctr,
{
    let ghost target = stp_interp(data@, c0, trans, false, cl0, env0, mk0);
    let mut c = c0;
    let mut stop = false;
    let mut cl = cl0;
    let mut env = env0;
    let mut mk = mk0;
    loop
        invariant_except_break
            stp_interp(data@, c, trans, stop, cl, env, mk) == target,
        invariant
            0 <= c.skip <= 63,
            c.skip_ctr == c0.skip_ctr,
            data@.len() < usize::MAX - 4,
        ensures
            target == (c, stop, cl, env, mk),
        decreases data@.len() + 2 - c.ptr,
    {
        if c.ptr >= data.len() {
            break ;
        }
        let b = data[c.ptr];
        let p = c.ptr + 1;
        if b == 0 {
            c.ptr = p;
            break ;
        } else if b <= 0x60 {
            c.ptr = p;
            let n: i32 = b as i32 - 1 + trans as i32;
            cl.note = if n > 0x5F {
                0x5F
            } else {
                n as i8
            };
            if stop {
                stop = false;
                c.gliss = 0;
            } else if c.gliss != 0 && cl.additional_command.number == 0 {
                cl.additional_command = glide_exec(c.gliss);
            }
            break ;
        } else if b <= 0x6F {
            let s = b - 0x60;
            c.ptr = p;
            cl.sample = s;
            mk.is_sam[s as usize] = true;
        } else if b <= 0x7F {
            let o = b - 0x70;
            c.ptr = p;
            stop = true;
            cl.ornament = o;
            cl.envelope = 15;
            mk.is_orn[o as usize] = true;
        } else if b <= 0xBF {
            c.ptr = p;
            c.skip = (b - 0x80) as i8;
        } else if b == 0xC0 {
            c.ptr = p;
            stop = true;
            cl.envelope = 15;
            cl.ornament = 0;
        } else if b <= 0xCF {
            stop = true;
            cl.envelope = if b == 0xCF {
                7
            } else {
                b - 0xC0
            };
            env = get_or(data, p, 0) as u16;
            cl.ornament = 0;
            c.ptr = p + 1;
        } else if b <= 0xDF {
            c.ptr = p;
            cl.note = NOTE_SOUND_OFF;
            break ;
        } else if b <= 0xEF {
            c.ptr = p;
            break ;
        } else if b == 0xF0 {
            let raw = get_or(data, p, 0);
            c.ptr = p + 1;
            if raw == 0 {
                stop = true;
            } else {
                let g: i8 = if raw >= 128 {
                    (raw as i16 - 256) as i8
                } else {
                    raw as i8
                };
                c.gliss = g;
                cl.additional_command = glide_exec(g);
            }
        } else {
            c.ptr = p;
            cl.volume = (256 - b as u16) as u8;
        }
    }
    (c, stop, cl, env, mk)
}

/// One channel's turn in a row: while its skip counter runs it rests; when
/// due it reads its commands into cell `k` of `row` (see [`stp_interp`],
/// [`stp_post`]) and restarts the counter at its skip.
pub open spec fn stp_turn(data: Seq<u8>, c: StpChan, trans: u8, row: PatternRow, k: int, mk: StpMarks) -> (
    StpChan,
    PatternRow,
    StpMarks,
) {
    let sc = (c.skip_ctr - 1) as i8;
    if sc >= 0 {
        (StpChan { skip_ctr: sc, ..c }, row, mk)
    } else {
        let r = stp_interp(data, StpChan { skip_ctr: sc, ..c }, trans, false, row.channel[k], row.envelope, mk);
        let (c2, cl2) = stp_post(r.0, r.1, r.2);
        (
            StpChan { skip_ctr: c2.skip, ..c2 },
            PatternRow { channel: vstd::array::spec_array_update(row.channel, k, cl2), envelope: r.3, ..row },
            r.4,
        )
    }
}

fn stp_turn_exec(data: &[u8], c: StpChan, trans: u8, row: PatternRow, k: usize, mk: StpMarks) -> (r: (
    StpChan,
    PatternRow,
    StpMarks,
))
    requires
        k < 3,
        stp_chan_ok(c),
        data@.len() < usize::MAX - 4,
    ensures
        r == stp_turn(data@, c, trans, row, k as int, mk),
        stp_chan_ok(r.0),
{
    let sc = c.skip_ctr - 1;
    if sc >= 0 {
        (StpChan { skip_ctr: sc, ..c }, row, mk)
    } else {
        let (c2, stop, cell, env, mk2) = stp_interp_exec(data, StpChan { skip_ctr: sc, ..c }, trans, row.channel[k], row.envelope, mk);
        let mut c3 = c2;
        let mut cell2 = cell;
        if stop && c2.gliss != 0 {
            c3.gliss = 0;
            if cell.additional_command.number == 0 {
                cell2.additional_command = AdditionalCommand { number: 1, delay: 0, parameter: 0 };
            }
        }
        let mut row2 = row;
        row2.channel[k] = cell2;
        row2.envelope = env;
        assert(row2.channel =~= vstd::array::spec_array_update(row.channel, k as int, cell2));
        (StpChan { skip_ctr: c3.skip, ..c3 }, row2, mk2)
    }
}

/// The rows of a pattern from row `i` on: its length, rows, and the
/// channels and marks after.  Channel A ends the pattern when it is due and
/// its next byte is 0.
pub open spec fn stp_rows(
    data: Seq<u8>,
    trans: u8,
    a: StpChan,
    b: StpChan,
    c: StpChan,
    mk: StpMarks,
    i: int,
    items: Seq<PatternRow>,
) -> (int, Seq<PatternRow>, StpChan, StpChan, StpChan, StpMarks)
    decreases 256 - i,
{
    if i >= 256 || i < 0 {
        (i, items, a, b, c, mk)
    } else if a.skip_ctr - 1 < 0 && byte_or(data, a.ptr as int, 1) == 0 {
        (i, items, a, b, c, mk)
    } else {
        let (a2, r1, mk1) = stp_turn(data, a, trans, items[i], 0, mk);
        let (b2, r2, mk2) = stp_turn(data, b, trans, r1, 1, mk1);
        let (c2, r3, mk3) = stp_turn(data, c, trans, r2, 2, mk2);
        stp_rows(data, trans, a2, b2, c2, mk3, i + 1, items.update(i, r3))
    }
}

/// A channel starting a pattern at `ptr`, keeping its glide.
pub open spec fn stp_restart(c: StpChan, ptr: int) -> StpChan {
    StpChan { ptr: ptr as usize, skip: 0, skip_ctr: 0, ..c }
}

/// Pattern `numb` of the table at `base` (three words per pattern)
/// transposed by `trans`: a blank default pattern when its entry runs past
/// the data, else its rows (see [`stp_rows`]).
pub open spec fn stp_pattern(
    data: Seq<u8>,
    base: int,
    numb: int,
    trans: u8,
    a: StpChan,
    b: StpChan,
    c: StpChan,
    mk: StpMarks,
) -> (int, Seq<PatternRow>, StpChan, StpChan, StpChan, StpMarks) {
    let t = base + 6 * numb;
    if t + 6 > data.len() {
        (64, empty_rows(), a, b, c, mk)
    } else {
        stp_rows(
            data,
            trans,
            stp_restart(a, word_at(data, t)),
            stp_restart(b, word_at(data, t + 2)),
            stp_restart(c, word_at(data, t + 4)),
            mk,
            0,
            empty_rows(),
        )
    }
}

/// Read pattern `numb` (see [`stp_pattern`]).
fn decode_pattern(
    data: &[u8],
    base: usize,
    numb: usize,
    trans: u8,
    a0: StpChan,
    b0: StpChan,
    c0: StpChan,
    mk0: StpMarks,
) -> (r: (Pattern, StpChan, StpChan, StpChan, StpMarks))
    requires
        numb <= 255,
        base < 65536,
        data@.len() <= isize::MAX,
        stp_chan_ok(a0),
        stp_chan_ok(b0),
        stp_chan_ok(c0),
    ensures
        stp_pattern(data@, base as int, numb as int, trans, a0, b0, c0, mk0) == (
            r.0.length as int,
            r.0.items@,
            r.1,
            r.2,
            r.3,
            r.4,
        ),
        r.0.length <= 256,
        stp_chan_ok(r.1),
        stp_chan_ok(r.2),
        stp_chan_ok(r.3),
{
    let t = base + 6 * numb;
    let mut pattern = Pattern::default();
    assert(pattern.items@ =~= empty_rows());
    if t + 6 > data.len() {
        return (pattern, a0, b0, c0, mk0);
    }
    let mut a = StpChan { ptr: word_at_exec(data, t), skip: 0, skip_ctr: 0, ..a0 };
    let mut b = StpChan { ptr: word_at_exec(data, t + 2), skip: 0, skip_ctr: 0, ..b0 };
    let mut c = StpChan { ptr: word_at_exec(data, t + 4), skip: 0, skip_ctr: 0, ..c0 };
    let mut mk = mk0;
    let ghost target = stp_rows(data@, trans, a, b, c, mk, 0, pattern.items@);
    let mut i: usize = 0;
    while i < 256
        invariant_except_break
            stp_rows(data@, trans, a, b, c, mk, i as int, pattern.items@) == target,
        invariant
            i <= 256,
            data@.len() <= isize::MAX,
            stp_chan_ok(a),
            stp_chan_ok(b),
            stp_chan_ok(c),
        ensures
            target == (i as int, pattern.items@, a, b, c, mk),
        decreases 256 - i,
    {
        if a.skip_ctr - 1 < 0 && get_or(data, a.ptr, 1) == 0 {
            break ;
        }
        let row = pattern.items[i];
        let (a2, r1, mk1) = stp_turn_exec(data, a, trans, row, 0, mk);
        let (b2, r2, mk2) = stp_turn_exec(data, b, trans, r1, 1, mk1);
        let (c2, r3, mk3) = stp_turn_exec(data, c, trans, r2, 2, mk2);
        pattern.items[i] = r3;
        a = a2;
        b = b2;
        c = c2;
        mk = mk3;
        i = i + 1;
    }
    pattern.length = i;
    (pattern, a, b, c, mk)
}


// ─── Positions ───────────────────────────────────────────────────────────────

/// The positions from `pos` on (up to `num_pos`, while the data lasts): each
/// is a (pattern, transposition) pair, the pattern byte being six times the
/// number, and each new pair becomes the next tracker pattern, read once
/// with the glides carrying on; a pair seen before restarts the glides.
/// Gives the number of positions, their tracker patterns, the patterns, the
/// marks, and whether a new pair found no tracker pattern slot left (the
/// walk stops there).
pub open spec fn stp_walk(
    data: Seq<u8>,
    pos_ptr: int,
    base: int,
    num_pos: int,
    pos: int,
    values: Seq<usize>,
    pats: Seq<PatRead>,
    combos: Seq<(u8, u8)>,
    a: StpChan,
    b: StpChan,
    c: StpChan,
    mk: StpMarks,
) -> (int, Seq<usize>, Seq<PatRead>, StpMarks, bool)
    decreases 256 - pos,
{
    if pos >= num_pos || pos >= 256 || pos < 0 || pos_ptr + 3 + 2 * pos >= data.len() {
        (pos, values, pats, mk, false)
    } else {
        let numb = data[pos_ptr + 2 + 2 * pos] / 6;
        let trans = data[pos_ptr + 3 + 2 * pos];
        let j = find_combo(combos, (numb, trans), 0);
        let v2 = values.update(pos, j as usize);
        if j < combos.len() {
            stp_walk(
                data,
                pos_ptr,
                base,
                num_pos,
                pos + 1,
                v2,
                pats,
                combos,
                StpChan { gliss: 0, ..a },
                StpChan { gliss: 0, ..b },
                StpChan { gliss: 0, ..c },
                mk,
            )
        } else if j > MAX_NUM_OF_PATS {
            (pos + 1, v2, pats, mk, true)
        } else {
            let (l, it, a2, b2, c2, mk2) = stp_pattern(data, base, numb as int, trans, a, b, c, mk);
            stp_walk(
                data,
                pos_ptr,
                base,
                num_pos,
                pos + 1,
                v2,
                pats.update(j, Some((l, it))),
                combos.push((numb, trans)),
                a2,
                b2,
                c2,
                mk2,
            )
        }
    }
}

/// A channel before the first pattern.
pub open spec fn stp_chan0() -> StpChan {
    StpChan { ptr: 0, skip: 0, skip_ctr: 0, gliss: 0 }
}

/// Nothing marked yet.
pub open spec fn stp_no_marks() -> StpMarks {
    StpMarks {
        is_orn: [false, false, false, false, false, false, false, false, false, false, false, false, false, false, false, false],
        is_sam: [false, false, false, false, false, false, false, false, false, false, false, false, false, false, false, false],
    }
}

/// Walk the positions (see [`stp_walk`]) into `values` and `patterns`.
fn read_positions(
    data: &[u8],
    pos_ptr: usize,
    base: usize,
    num_pos: usize,
    values: &mut [usize; 256],
    patterns: &mut Vec<Option<Box<Pattern>>>,
) -> (r: (usize, StpMarks, bool))
    requires
        pos_ptr < 65536,
        base < 65536,
        num_pos <= 255,
        data@.len() <= isize::MAX,
        pats_match(old(patterns)@, no_reads()),
    ensures
        ({
            let w = stp_walk(
                data@,
                pos_ptr as int,
                base as int,
                num_pos as int,
                0,
                old(values)@,
                no_reads(),
                Seq::empty(),
                stp_chan0(),
                stp_chan0(),
                stp_chan0(),
                stp_no_marks(),
            );
            &&& w.0 == r.0
            &&& w.1 == final(values)@
            &&& pats_match(final(patterns)@, w.2)
            &&& w.3 == r.1
            &&& w.4 == r.2
        }),
        final(patterns)@.len() == old(patterns)@.len(),
{
    let z = StpChan { ptr: 0, skip: 0, skip_ctr: 0, gliss: 0 };
    let mk0 = StpMarks { is_orn: [false; 16], is_sam: [false; 16] };
    assert(mk0.is_orn =~= stp_no_marks().is_orn);
    assert(mk0.is_sam =~= stp_no_marks().is_sam);
    let ghost target = stp_walk(
        data@,
        pos_ptr as int,
        base as int,
        num_pos as int,
        0,
        values@,
        no_reads(),
        Seq::empty(),
        z,
        z,
        z,
        mk0,
    );
    let ghost mut sp = no_reads();
    let mut combos: Vec<(u8, u8)> = Vec::new();
    let mut a = z;
    let mut b = z;
    let mut c = z;
    let mut mk = mk0;
    let mut pos: usize = 0;
    let mut bad = false;
    while pos < num_pos
        invariant_except_break
            stp_walk(data@, pos_ptr as int, base as int, num_pos as int, pos as int, values@, sp, combos@, a, b, c, mk)
                == target,
            !bad,
        invariant
            pos <= num_pos <= 255,
            pos_ptr < 65536,
            base < 65536,
            data@.len() <= isize::MAX,
            combos@.len() <= pos,
            stp_chan_ok(a),
            stp_chan_ok(b),
            stp_chan_ok(c),
            pats_match(patterns@, sp),
            sp.len() == MAX_NUM_OF_PATS + 1,
            patterns@.len() == MAX_NUM_OF_PATS + 1,
        ensures
            target == (pos as int, values@, sp, mk, bad),
        decreases num_pos - pos,
    {
        let trans_off = pos_ptr + 3 + 2 * pos;
        if trans_off >= data.len() {
            break ;
        }
        let numb = data[trans_off - 1] / 6;
        let trans = data[trans_off];
        let mut q: usize = 0;
        while q < combos.len()
            invariant
                q <= combos@.len(),
                find_combo(combos@, (numb, trans), q as int) == find_combo(combos@, (numb, trans), 0),
            ensures
                find_combo(combos@, (numb, trans), 0) == q as int,
            decreases combos.len() - q,
        {
            if combos[q].0 == numb && combos[q].1 == trans {
                assert(combos@[q as int] == (numb, trans));
                break ;
            }
            q = q + 1;
        }
        let j = q;
        values[pos] = j;
        pos = pos + 1;
        if j < combos.len() {
            a.gliss = 0;
            b.gliss = 0;
            c.gliss = 0;
        } else if j > MAX_NUM_OF_PATS {
            bad = true;
            break ;
        } else {
            let (pat, a2, b2, c2, mk2) = decode_pattern(data, base, numb as usize, trans, a, b, c, mk);
            proof {
                sp = sp.update(j as int, Some((pat.length as int, pat.items@)));
            }
            patterns.set(j, Some(Box::new(pat)));
            combos.push((numb, trans));
            a = a2;
            b = b2;
            c = c2;
            mk = mk2;
        }
    }
    (pos, mk, bad)
}

// ─── Ornaments and samples ───────────────────────────────────────────────────

/// Where ornament `i`'s data starts: its table word lies within the data
/// and points within it.
pub open spec fn stp_orn_at(data: Seq<u8>, orn_ptr: int, i: int) -> Option<int> {
    let p = orn_ptr + 2 * i;
    if p + 1 < data.len() && word_at(data, p) < data.len() {
        Some(word_at(data, p))
    } else {
        None
    }
}

/// The ornament at `j`: loop byte, length byte (0 read as 1; bytes past the
/// end read as 0), then one signed offset per step; the loop is kept within
/// the length.
pub open spec fn stp_ornament(data: Seq<u8>, j: int) -> OrnRead {
    let n = byte_or(data, j + 1, 0) as int;
    let len = if n == 0 {
        1
    } else {
        n
    };
    let lp = data[j] as int;
    (len, if lp >= len {
        len - 1
    } else {
        lp
    }, Seq::new(255, |k: int| if k < len {
        byte_or(data, j + 2 + k, 0) as i8
    } else {
        0i8
    }))
}

/// The ornament slots: slot 0 the single zero offset, each slot 1..15 a
/// pattern uses whose data starts within the file its ornament.
pub open spec fn stp_orn_slots(data: Seq<u8>, orn_ptr: int, mk: StpMarks) -> Seq<Option<OrnRead>> {
    Seq::new(16, |i: int| if i == 0 {
        start_orn_slots()[0]
    } else if mk.is_orn[i] && stp_orn_at(data, orn_ptr, i) is Some {
        Some(stp_ornament(data, stp_orn_at(data, orn_ptr, i)->0))
    } else {
        None
    })
}

/// Read the ornament at `j` (see [`stp_ornament`]).
fn read_ornament(data: &[u8], j: usize) -> (r: Ornament)
    requires
        j < data@.len(),
        j < 65536,
    ensures
        stp_ornament(data@, j as int) == (r.length as int, r.loop_pos as int, r.items@),
{
    let n = get_or(data, j + 1, 0) as usize;
    let len: usize = if n == 0 {
        1
    } else {
        n
    };
    let ghost want = stp_ornament(data@, j as int).2;
    let mut orn = Ornament::default();
    let mut k: usize = 0;
    while k < len
        invariant
            k <= len <= 255,
            j < 65536,
            len as int == stp_ornament(data@, j as int).0,
            want == stp_ornament(data@, j as int).2,
            forall|q: int| 0 <= q < 255 ==> #[trigger] orn.items[q] == if q < k {
                want[q]
            } else {
                0i8
            },
        decreases len - k,
    {
        orn.items[k] = get_or(data, j + 2 + k, 0) as i8;
        k = k + 1;
    }
    assert(orn.items@ =~= want);
    let lp = data[j] as usize;
    orn.length = len;
    orn.loop_pos = if lp >= len {
        len - 1
    } else {
        lp
    };
    orn
}

/// Read the ornaments the patterns use into their slots (see
/// [`stp_orn_slots`]).
fn read_ornaments(data: &[u8], orn_ptr: usize, mk: &StpMarks, ornaments: &mut [Option<Box<Ornament>>; 16])
    requires
        orn_ptr < 65536,
        data@.len() <= isize::MAX,
        orns_match(old(ornaments)@, start_orn_slots()),
    ensures
        orns_match(final(ornaments)@, stp_orn_slots(data@, orn_ptr as int, *mk)),
{
    let ghost want = stp_orn_slots(data@, orn_ptr as int, *mk);
    let mut i: usize = 1;
    while i < 16
        invariant
            1 <= i <= 16,
            orn_ptr < 65536,
            data@.len() <= isize::MAX,
            want == stp_orn_slots(data@, orn_ptr as int, *mk),
            orns_match(ornaments@, Seq::new(16, |q: int| if q < i {
                want[q]
            } else {
                None
            })),
        decreases 16 - i,
    {
        if mk.is_orn[i] {
            let p = orn_ptr + 2 * i;
            if p + 1 < data.len() {
                let j = word_at_exec(data, p);
                if j < data.len() {
                    let orn = read_ornament(data, j);
                    ornaments[i] = Some(Box::new(orn));
                }
            }
        }
        i = i + 1;
    }
    assert(Seq::new(16, |q: int| if q < 16 {
        want[q]
    } else {
        None
    }) =~= want);
}

/// A four-byte sample tick: amplitude in the low nibble of byte 0, bit 4
/// set turns the tone off and bit 7 the noise; byte 1 bit 0 turns the
/// envelope on and bits 1..5 are the signed envelope or noise offset, kept
/// when either is on; bytes 2 and 3 the signed tone offset.
pub open spec fn stp_tick(b0: u8, b1: u8, lo: u8, hi: u8) -> SampleTick {
    let noise = b0 & 0x80u8 == 0u8;
    let env = b1 & 1u8 != 0u8;
    SampleTick {
        amplitude: b0 & 0x0Fu8,
        mixer_ton: b0 & 0x10u8 == 0u8,
        mixer_noise: noise,
        envelope_enabled: env,
        add_to_ton: signed_word(lo, hi) as i16,
        add_to_envelope_or_noise: if env || noise {
            sfive(b1 / 2) as i8
        } else {
            0i8
        },
        ..blank_tick()
    }
}

fn stp_tick_exec(b0: u8, b1: u8, lo: u8, hi: u8) -> (r: SampleTick)
    ensures
        r == stp_tick(b0, b1, lo, hi),
{
    let noise = b0 & 0x80 == 0;
    let env = b1 & 1 != 0;
    let h = b1 / 2;
    let v = h & 0x1F;
    assert(v < 32) by (bit_vector)
        requires
            v == h & 0x1F,
    ;
    let five: i8 = if v >= 16 {
        v as i8 - 32
    } else {
        v as i8
    };
    let w: i32 = lo as i32 + hi as i32 * 256;
    let ton: i16 = if w >= 32768 {
        (w - 65536) as i16
    } else {
        w as i16
    };
    let mut t = SampleTick::default();
    t.amplitude = b0 & 0x0F;
    t.mixer_ton = b0 & 0x10 == 0;
    t.mixer_noise = noise;
    t.envelope_enabled = env;
    t.add_to_ton = ton;
    if env || noise {
        t.add_to_envelope_or_noise = five;
    }
    t
}

/// Where sample `i`'s data starts: its table word lies within the data and
/// the loop and length bytes it points to too.
pub open spec fn stp_sam_at(data: Seq<u8>, sam_ptr: int, i: int) -> Option<int> {
    let p = sam_ptr + 2 * (i - 1);
    if p + 1 < data.len() && word_at(data, p) + 1 < data.len() {
        Some(word_at(data, p))
    } else {
        None
    }
}

/// The sample at `j`: loop byte, length byte (0 or over 64 read as 64),
/// then four bytes per tick (bytes past the end read as 0).  A loop byte of
/// 128 or more loops on one silent step added after the others; otherwise
/// the loop is kept within the length.
pub open spec fn stp_sample(data: Seq<u8>, j: int) -> SamRead {
    let n = data[j + 1] as int;
    let len = if n == 0 || n > 64 {
        64
    } else {
        n
    };
    let items = Seq::new(64, |k: int| if k < len {
        stp_tick(
            byte_or(data, j + 2 + 4 * k, 0),
            byte_or(data, j + 3 + 4 * k, 0),
            byte_or(data, j + 4 + 4 * k, 0),
            byte_or(data, j + 5 + 4 * k, 0),
        )
    } else {
        blank_tick()
    });
    let lp = data[j] as int;
    if lp >= 128 {
        (len + 1, len, if len < 64 {
            items.update(len, blank_tick())
        } else {
            items
        })
    } else {
        (len, if lp >= len {
            len - 1
        } else {
            lp
        }, items)
    }
}

/// The sample slots: each slot 1..15 a pattern uses whose data starts
/// within the file its sample; the others empty.
pub open spec fn stp_sam_slots(data: Seq<u8>, sam_ptr: int, mk: StpMarks) -> Seq<Option<SamRead>> {
    Seq::new(32, |i: int| if 1 <= i < 16 && mk.is_sam[i] && stp_sam_at(data, sam_ptr, i) is Some {
        Some(stp_sample(data, stp_sam_at(data, sam_ptr, i)->0))
    } else {
        None
    })
}

/// Read the sample at `j` (see [`stp_sample`]).
fn read_sample(data: &[u8], j: usize) -> (r: Sample)
    requires
        j + 1 < data@.len(),
        j < 65536,
    ensures
        stp_sample(data@, j as int) == (r.length as int, r.loop_pos as int, r.items@),
        r.enabled,
{
    let n = data[j + 1];
    let len: u8 = if n == 0 || n > 64 {
        64
    } else {
        n
    };
    let mut sam = Sample::default();
    let mut k: usize = 0;
    while k < len as usize
        invariant
            k <= len <= 64,
            j < 65536,
            len as int == (if data@[j + 1] == 0 || data@[j + 1] > 64 {
                64
            } else {
                data@[j + 1] as int
            }),
            sam.enabled,
            forall|q: int| 0 <= q < 64 ==> #[trigger] sam.items[q] == if q < k {
                stp_tick(
                    byte_or(data@, j + 2 + 4 * q, 0),
                    byte_or(data@, j + 3 + 4 * q, 0),
                    byte_or(data@, j + 4 + 4 * q, 0),
                    byte_or(data@, j + 5 + 4 * q, 0),
                )
            } else {
                blank_tick()
            },
        decreases len - k,
    {
        let base = j + 2 + 4 * k;
        sam.items[k] = stp_tick_exec(get_or(data, base, 0), get_or(data, base + 1, 0), get_or(data, base + 2, 0), get_or(data, base + 3, 0));
        k = k + 1;
    }
    let lp = data[j];
    if lp >= 128 {
        sam.loop_pos = len;
        sam.length = len + 1;
        if len < 64 {
            sam.items[len as usize] = SampleTick::default();
        }
    } else {
        sam.length = len;
        sam.loop_pos = if lp >= len {
            len - 1
        } else {
            lp
        };
    }
    assert(sam.items@ =~= stp_sample(data@, j as int).2);
    sam
}

/// Read the samples the patterns use into their slots (see
/// [`stp_sam_slots`]).
fn read_samples(data: &[u8], sam_ptr: usize, mk: &StpMarks, samples: &mut [Option<Box<Sample>>; 32])
    requires
        sam_ptr < 65536,
        data@.len() <= isize::MAX,
        sams_match(old(samples)@, Seq::new(32, |v: int| None)),
    ensures
        sams_match(final(samples)@, stp_sam_slots(data@, sam_ptr as int, *mk)),
{
    let ghost want = stp_sam_slots(data@, sam_ptr as int, *mk);
    let mut i: usize = 1;
    while i < 16
        invariant
            1 <= i <= 16,
            sam_ptr < 65536,
            data@.len() <= isize::MAX,
            want == stp_sam_slots(data@, sam_ptr as int, *mk),
            sams_match(samples@, Seq::new(32, |q: int| if q < i {
                want[q]
            } else {
                None
            })),
        decreases 16 - i,
    {
        if mk.is_sam[i] {
            let p = sam_ptr + 2 * (i - 1);
            if p + 1 < data.len() {
                let j = word_at_exec(data, p);
                if j + 1 < data.len() {
                    let sam = read_sample(data, j);
                    samples[i] = Some(Box::new(sam));
                }
            }
        }
        i = i + 1;
    }
    assert(Seq::new(32, |q: int| if q < 16 {
        want[q]
    } else {
        None
    }) =~= want);
}


// ─── The module ──────────────────────────────────────────────────────────────

/// The name of a compiled module (bytes 10..38 the compiler's signature;
/// the name's 25 bytes, trailing blanks and control bytes dropped, when they
/// lie within the data); other files have none.
pub open spec fn stp_title(data: Seq<u8>) -> Seq<char> {
    if data.len() >= STP_OFF_KSA_TITLE && data.subrange(STP_OFF_KSA_ID as int, STP_OFF_KSA_TITLE as int) == ksa_id()
        && data.len() >= STP_OFF_KSA_TITLE + 25 {
        crate::formats::utf8_lossy(trim_end(data.subrange(STP_OFF_KSA_TITLE as int, STP_OFF_KSA_TITLE + 25)))
    } else {
        Seq::empty()
    }
}

/// The position walk over the whole file (see [`stp_walk`]), when its
/// position list's two header bytes lie within the data.
pub open spec fn stp_song(data: Seq<u8>) -> (int, Seq<usize>, Seq<PatRead>, StpMarks, bool) {
    let pos_ptr = word_at(data, STP_OFF_POS_PTR as int);
    stp_walk(
        data,
        pos_ptr,
        word_at(data, STP_OFF_PAT_PTR as int),
        data[pos_ptr] as int,
        0,
        Seq::new(256, |i: int| 0usize),
        no_reads(),
        Seq::empty(),
        stp_chan0(),
        stp_chan0(),
        stp_chan0(),
        stp_no_marks(),
    )
}

/// The files [`parse`] reads: all but those (with a position list inside
/// the data) naming more than 86 different (pattern, transposition) pairs.
pub open spec fn parse_defined(data: Seq<u8>) -> bool {
    data.len() >= STP_MIN_FILE_SIZE && word_at(data, STP_OFF_POS_PTR as int) + 1 < data.len() ==> !stp_song(data).4
}

/// `m` is the module the STP file `data` describes: its delay and name (see
/// [`stp_title`]), no author, tone table 1; when its position list's header
/// lies within the data, the loop it gives (kept below the number of
/// positions it gives), the positions and patterns of the walk, and the
/// ornaments and samples the patterns use; otherwise no positions.
pub open spec fn stp_module(data: Seq<u8>, m: Module) -> bool {
    let pos_ptr = word_at(data, STP_OFF_POS_PTR as int);
    let (n, values, pats, mk, bad) = stp_song(data);
    &&& m.wf()
    &&& m.features_level == FeaturesLevel::Pt35
    &&& !m.vortex_module_header
    &&& m.ton_table == 1
    &&& m.initial_delay == data[STP_OFF_DELAY as int]
    &&& m.title@ == stp_title(data)
    &&& m.author@ == Seq::<char>::empty()
    &&& forall|c: int|
        0 <= c < 3 ==> #[trigger] m.is_chans[c] == (crate::types::ChannelState {
            global_ton: true,
            global_noise: true,
            global_envelope: true,
            envelope_enabled: false,
            ornament: 0,
            sample: 1,
            volume: 15,
        })
    &&& if pos_ptr + 1 >= data.len() {
        &&& m.positions.loop_pos == 0
        &&& m.positions.length == 0
        &&& m.positions.value@ == Seq::new(256, |i: int| 0usize)
        &&& pats_match(m.patterns@, no_reads())
        &&& orns_match(m.ornaments@, start_orn_slots())
        &&& sams_match(m.samples@, Seq::new(32, |v: int| None))
    } else {
        let num_pos = data[pos_ptr] as int;
        let lp = data[pos_ptr + 1] as int;
        &&& m.positions.loop_pos == if lp >= num_pos && num_pos > 0 {
            num_pos - 1
        } else {
            lp
        }
        &&& m.positions.length == n
        &&& m.positions.value@ == values
        &&& pats_match(m.patterns@, pats)
        &&& orns_match(m.ornaments@, stp_orn_slots(data, word_at(data, STP_OFF_ORN_PTR as int), mk))
        &&& sams_match(m.samples@, stp_sam_slots(data, word_at(data, STP_OFF_SAM_PTR as int), mk))
    }
}

/// What reading the STP file `data` gives: files shorter than 10 bytes are
/// refused, otherwise the module [`stp_module`] describes.
pub open spec fn parse_outcome(data: Seq<u8>, r: Result<Module, FormatError>) -> bool {
    &&& data.len() < STP_MIN_FILE_SIZE ==> r == Err::<Module, FormatError>(FormatError::TooShort)
    &&& data.len() >= STP_MIN_FILE_SIZE ==> (r matches Ok(m) && stp_module(data, m))
}

fn read_title(data: &[u8]) -> (r: String)
    ensures
        r@ == stp_title(data@),
{
    let id: [u8; 28] = [
        0x4B, 0x53, 0x41, 0x20, 0x53, 0x4F, 0x46, 0x54, 0x57, 0x41, 0x52, 0x45, 0x20, 0x43, 0x4F, 0x4D, 0x50,
        0x49, 0x4C, 0x45, 0x52, 0x20, 0x56, 0x32, 0x2E, 0x30, 0x20, 0x20,
    ];
    assert(id@ =~= ksa_id());
    if data.len() < STP_OFF_KSA_TITLE {
        return String::new();
    }
    let mut k: usize = 0;
    while k < 28
        invariant
            k <= 28,
            data@.len() >= STP_OFF_KSA_TITLE,
            id@ == ksa_id(),
            forall|q: int| 0 <= q < k ==> data@[STP_OFF_KSA_ID + q] == #[trigger] ksa_id()[q],
        decreases 28 - k,
    {
        if data[STP_OFF_KSA_ID + k] != id[k] {
            assert(data@.subrange(STP_OFF_KSA_ID as int, STP_OFF_KSA_TITLE as int)[k as int] != ksa_id()[k as int]);
            return String::new();
        }
        k = k + 1;
    }
    assert(data@.subrange(STP_OFF_KSA_ID as int, STP_OFF_KSA_TITLE as int) =~= ksa_id());
    if data.len() < STP_OFF_KSA_TITLE + 25 {
        return String::new();
    }
    trim_right_ascii(vstd::slice::slice_subrange(data, STP_OFF_KSA_TITLE, STP_OFF_KSA_TITLE + 25))
}

fn read_module(data: &[u8]) -> (r: (Module, bool))
    requires
        data@.len() >= STP_MIN_FILE_SIZE,
        data@.len() <= isize::MAX,
    ensures
        r.1 == !parse_defined(data@),
        !r.1 ==> stp_module(data@, r.0),
{
    let mut module = Module::default();
    module.features_level = FeaturesLevel::Pt35;
    module.vortex_module_header = false;
    module.ton_table = 1;
    module.title = read_title(data);
    assert(module.author@ =~= Seq::<char>::empty());
    module.initial_delay = data[STP_OFF_DELAY];
    let pos_ptr = word_at_exec(data, STP_OFF_POS_PTR);
    let pat_ptr = word_at_exec(data, STP_OFF_PAT_PTR);
    let orn_ptr = word_at_exec(data, STP_OFF_ORN_PTR);
    let sam_ptr = word_at_exec(data, STP_OFF_SAM_PTR);
    assert(module.positions.value@ =~= Seq::new(256, |i: int| 0usize));
    assert(pats_match(module.patterns@, no_reads()));
    assert(module.ornaments[0] matches Some(o) && o.items@ =~= crate::formats::asc::zero_offsets());
    assert(orns_match(module.ornaments@, start_orn_slots()));
    assert(sams_match(module.samples@, Seq::new(32, |v: int| None)));
    if pos_ptr + 1 >= data.len() {
        return (module, false);
    }
    let num_pos = data[pos_ptr] as usize;
    let lp = data[pos_ptr + 1] as usize;
    module.positions.loop_pos = if lp >= num_pos && num_pos > 0 {
        num_pos - 1
    } else {
        lp
    };
    let (n, mk, bad) = read_positions(data, pos_ptr, pat_ptr, num_pos, &mut module.positions.value, &mut module.patterns);
    assert(stp_chan0() == StpChan { ptr: 0, skip: 0, skip_ctr: 0, gliss: 0 });
    if bad {
        return (module, true);
    }
    module.positions.length = n;
    read_ornaments(data, orn_ptr, &mk, &mut module.ornaments);
    read_samples(data, sam_ptr, &mk, &mut module.samples);
    (module, false)
}

/// Parse a Sound Tracker Pro (`.stp`) file.  Files shorter than 10 bytes
/// are refused; otherwise the module is the one [`stp_module`] describes.
pub fn parse(data: &[u8]) -> (r: Result<Module, FormatError>)
    requires
        data@.len() <= isize::MAX,
        parse_defined(data@),
    ensures
        parse_outcome(data@, r),
{
    if data.len() < STP_MIN_FILE_SIZE {
        return Err(FormatError::TooShort);
    }
    let (m, _bad) = read_module(data);
    Ok(m)
}

/// Whether [`parse`] reads `data` (see [`parse_defined`]).
pub fn readable(data: &[u8]) -> (r: bool)
    requires
        data@.len() <= isize::MAX,
    ensures
        r == parse_defined(data@),
{
    if data.len() < STP_MIN_FILE_SIZE {
        return true;
    }
    let (_m, bad) = read_module(data);
    !bad
}

/// The fields of an STP sample tick by the bits of its bytes: the amplitude
/// is the low nibble of byte 0, bit 4 set turns the tone off and bit 7 set
/// the noise off; byte 1 bit 0 turns the envelope on and its bits 1..5 are
/// the signed envelope or noise offset when either is on; bytes 2 and 3 are
/// the tone offset as a signed little-endian word.
pub proof fn lemma_stp_tick_bits(b0: u8, b1: u8, lo: u8, hi: u8)
    ensures
        ({
            let t = stp_tick(b0, b1, lo, hi);
            let noise = (b0 as int / 128) % 2 == 0;
            let env = b1 as int % 2 == 1;
            &&& t.amplitude as int == b0 as int % 16
            &&& t.mixer_ton == ((b0 as int / 16) % 2 == 0)
            &&& t.mixer_noise == noise
            &&& t.envelope_enabled == env
            &&& t.add_to_ton as int == lo as int + 256 * hi as int - if hi >= 128 { 65536int } else { 0int }
            &&& t.add_to_envelope_or_noise as int == if env || noise { crate::formats::asc::signed5(b1 as int / 2) } else { 0 }
        }),
{
    let h = b1 / 2;
    assert(b0 & 0x0Fu8 == b0 % 16 && (b0 & 0x10u8 == 0) == ((b0 / 16) % 2 == 0) && (b0 & 0x80u8 == 0) == ((b0 / 128)
        % 2 == 0) && (b1 & 1u8 != 0) == (b1 % 2 == 1) && h & 0x1Fu8 == h % 32) by (bit_vector);
}

} // verus!
