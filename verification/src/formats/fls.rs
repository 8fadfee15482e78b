//! Flying Ledger Sound (`*.fls`) binary module files: reader.
use crate::formats::asc::{
    byte_or, no_reads, orns_match, pats_match, sams_match, start_orn_slots, word_at, OrnRead,
    PatRead, SamRead,
};
use crate::formats::pt3::empty_rows;
use crate::formats::stc::{
    loop_start, marks_ok, no_marks, note_orn_sample, repeat_loop, stc_chan_ok, stc_chan_rest, stc_tick, StcChan,
    StcMarks,
};
use crate::formats::FormatError;
use crate::types::{
    blank_tick, ChannelLine, FeaturesLevel, Module, Ornament, Pattern, PatternRow, Sample,
    SampleTick, MAX_NUM_OF_PATS, NOTE_SOUND_OFF,
};
use vstd::prelude::*;

verus! {

/// Word: offset of the position list (its first byte the initial delay).
pub const FLS_OFF_POS_PTR: usize = 0;
/// Word: offset of the ornament offset table (a word per ornament 1..15).
pub const FLS_OFF_ORN_PTR: usize = 2;
/// Word: offset of the sample table (four bytes per sample 1..16).
pub const FLS_OFF_SAM_PTR: usize = 4;
/// Smallest FLS file.
pub const FLS_MIN_FILE_SIZE: usize = 64;

// ─── Channel commands ────────────────────────────────────────────────────────

/// One channel's commands for one row, read until a note, sound-off or
/// end-of-row byte or the end of the data: sample and ornament choices are
/// marked as used; an envelope command reads its period into the row.  The
/// last component is true when a byte 0x8F..0xA0, which no command has, was
/// met.
pub open spec fn fls_interp(data: Seq<u8>, c: StcChan, cl: ChannelLine, env: u16, mk: StcMarks) -> (
    StcChan,
    ChannelLine,
    u16,
    StcMarks,
    bool,
)
    decreases data.len() + 2 - c.ptr,
{
    if c.ptr >= data.len() || data.len() >= usize::MAX - 4 {
        (c, cl, env, mk, false)
    } else {
        let b = data[c.ptr as int];
        let c1 = StcChan { ptr: (c.ptr + 1) as usize, ..c };
        if b <= 0x5F {
            (c1, ChannelLine { note: b as i8, ..cl }, env, mk, false)
        } else if b <= 0x6F {
            let s = (b - 0x5F) as u8;
            fls_interp(
                data,
                StcChan { c_sam: s, ..c1 },
                ChannelLine { sample: s, ..cl },
                env,
                StcMarks { is_sam: vstd::array::spec_array_update(mk.is_sam, s as int, true), ..mk },
            )
        } else if b == 0x70 {
            fls_interp(data, StcChan { c_orn: 0, ..c1 }, ChannelLine { ornament: 0, envelope: 15, ..cl }, env, mk)
        } else if b <= 0x7F {
            let o = (b - 0x70) as u8;
            fls_interp(
                data,
                StcChan { c_orn: o, ..c1 },
                ChannelLine { ornament: o, envelope: 15, ..cl },
                env,
                StcMarks { is_orn: vstd::array::spec_array_update(mk.is_orn, o as int, true), ..mk },
            )
        } else if b == 0x80 {
            (c1, ChannelLine { note: NOTE_SOUND_OFF, ..cl }, env, mk, false)
        } else if b == 0x81 {
            (c1, cl, env, mk, false)
        } else if b <= 0x8E {
            fls_interp(
                data,
                StcChan { ptr: (c.ptr + 2) as usize, ..c },
                ChannelLine { envelope: (b - 0x80) as u8, ornament: 0, ..cl },
                byte_or(data, c.ptr + 1, 0) as u16,
                mk,
            )
        } else if b <= 0xA0 {
            (c1, cl, env, mk, true)
        } else {
            fls_interp(data, StcChan { skip: (b - 0xA1) as i8, ..c1 }, cl, env, mk)
        }
    }
}

fn get_or(data: &[u8], i: usize, dflt: u8) -> (r: u8)
    ensures
        r == byte_or(data@, i as int, dflt),
{
    if i < data.len() {
        data[i]
    } else {
        dflt
    }
}

fn word_at_exec(data: &[u8], off: usize) -> (r: usize)
    requires
        off < usize::MAX,
    ensures
        r == word_at(data@, off as int),
        r < 65536,
{
    let lo = get_or(data, off, 0) as usize;
    let hi = get_or(data, off + 1, 0) as usize;
    lo + hi * 256
}

fn fls_interp_exec(data: &[u8], c0: StcChan, cl0: ChannelLine, env0: u16, mk0: StcMarks) -> (r: (
    StcChan,
    ChannelLine,
    u16,
    StcMarks,
    bool,
))
    requires
        stc_chan_ok(c0),
        data@.len() < usize::MAX - 4,
    ensures
        r == fls_interp(data@, c0, cl0, env0, mk0),
        stc_chan_ok(r.0),
        r.3.orn2sam == mk0.orn2sam,
{
    let ghost target = fls_interp(data@, c0, cl0, env0, mk0);
    let mut c = c0;
    let mut cl = cl0;
    let mut env = env0;
    let mut mk = mk0;
    let mut bad = false;
    loop
        invariant_except_break
            fls_interp(data@, c, cl, env, mk) == target,
            !bad,
        invariant
            stc_chan_ok(c),
            data@.len() < usize::MAX - 4,
            target == fls_interp(data@, c0, cl0, env0, mk0),
            mk.orn2sam == mk0.orn2sam,
        ensures
            target == (c, cl, env, mk, bad),
        decreases data@.len() + 2 - c.ptr,
    {
        if c.ptr >= data.len() {
            break ;
        }
        let b = data[c.ptr];
        let p = c.ptr + 1;
        if b <= 0x5F {
            c.ptr = p;
            cl.note = b as i8;
            break ;
        } else if b <= 0x6F {
            let s = b - 0x5F;
            c.ptr = p;
            c.c_sam = s;
            cl.sample = s;
            mk.is_sam[s as usize] = true;
        } else if b == 0x70 {
            c.ptr = p;
            c.c_orn = 0;
            cl.ornament = 0;
            cl.envelope = 15;
        } else if b <= 0x7F {
            let o = b - 0x70;
            c.ptr = p;
            c.c_orn = o;
            cl.ornament = o;
            cl.envelope = 15;
            mk.is_orn[o as usize] = true;
        } else if b == 0x80 {
            c.ptr = p;
            cl.note = NOTE_SOUND_OFF;
            break ;
        } else if b == 0x81 {
            c.ptr = p;
            break ;
        } else if b <= 0x8E {
            cl.envelope = b - 0x80;
            cl.ornament = 0;
            env = get_or(data, p, 0) as u16;
            c.ptr = p + 1;
        } else if b <= 0xA0 {
            c.ptr = p;
            bad = true;
            break ;
        } else {
            c.ptr = p;
            c.skip = (b - 0xA1) as i8;
        }
    }
    (c, cl, env, mk, bad)
}

/// One channel's turn in a row: while its skip counter runs it rests; when
/// due it reads its commands into cell `k` of `row` and restarts the counter
/// at its skip.  The last component as in [`fls_interp`].
pub open spec fn fls_turn(data: Seq<u8>, c: StcChan, row: PatternRow, k: int, mk: StcMarks) -> (
    StcChan,
    PatternRow,
    StcMarks,
    bool,
) {
    let sc = (c.skip_ctr - 1) as i8;
    if sc >= 0 {
        (StcChan { skip_ctr: sc, ..c }, row, mk, false)
    } else {
        let r = fls_interp(data, StcChan { skip_ctr: sc, ..c }, row.channel[k], row.envelope, mk);
        (
            StcChan { skip_ctr: r.0.skip, ..r.0 },
            PatternRow {
                channel: vstd::array::spec_array_update(row.channel, k, r.1),
                envelope: r.2,
                ..row
            },
            note_orn_sample(r.0, r.3),
            r.4,
        )
    }
}

fn fls_turn_exec(data: &[u8], c: StcChan, row: PatternRow, k: usize, mk: StcMarks) -> (r: (
    StcChan,
    PatternRow,
    StcMarks,
    bool,
))
    requires
        k < 3,
        stc_chan_rest(c),
        marks_ok(mk),
        data@.len() < usize::MAX - 4,
    ensures
        r == fls_turn(data@, c, row, k as int, mk),
        stc_chan_rest(r.0),
        marks_ok(r.2),
{
    let sc = c.skip_ctr - 1;
    if sc >= 0 {
        (StcChan { skip_ctr: sc, ..c }, row, mk, false)
    } else {
        let (c2, cell, env, mk2, bad) = fls_interp_exec(
            data,
            StcChan { skip_ctr: sc, ..c },
            row.channel[k],
            row.envelope,
            mk,
        );
        let mut row2 = row;
        row2.channel[k] = cell;
        row2.envelope = env;
        assert(row2.channel =~= vstd::array::spec_array_update(row.channel, k as int, cell));
        let mut mk3 = mk2;
        if c2.c_orn > 0 && mk2.orn2sam[c2.c_orn as usize] == 0 {
            mk3.orn2sam[c2.c_orn as usize] = c2.c_sam;
            assert(mk3.orn2sam =~= vstd::array::spec_array_update(mk2.orn2sam, c2.c_orn as int, c2.c_sam));
        }
        (StcChan { skip_ctr: c2.skip, ..c2 }, row2, mk3, bad)
    }
}

/// The rows of a pattern from row `i` on: its length, rows, the channels
/// and marks after, and whether a byte without a command was met.  Channel A
/// ends the pattern when it is due and its next byte is 0xFF (or the data
/// has ended).
pub open spec fn fls_rows(
    data: Seq<u8>,
    a: StcChan,
    b: StcChan,
    c: StcChan,
    mk: StcMarks,
    i: int,
    items: Seq<PatternRow>,
) -> (int, Seq<PatternRow>, StcChan, StcChan, StcChan, StcMarks, bool)
    decreases 256 - i,
{
    if i >= 256 || i < 0 {
        (i, items, a, b, c, mk, false)
    } else if a.skip_ctr - 1 < 0 && byte_or(data, a.ptr as int, 0xFF) == 0xFF {
        (i, items, a, b, c, mk, false)
    } else {
        let (a2, r1, mk1, bad1) = fls_turn(data, a, items[i], 0, mk);
        if bad1 {
            (i, items, a2, b, c, mk1, true)
        } else {
            let (b2, r2, mk2, bad2) = fls_turn(data, b, r1, 1, mk1);
            if bad2 {
                (i, items, a2, b2, c, mk2, true)
            } else {
                let (c2, r3, mk3, bad3) = fls_turn(data, c, r2, 2, mk2);
                if bad3 {
                    (i, items, a2, b2, c2, mk3, true)
                } else {
                    fls_rows(data, a2, b2, c2, mk3, i + 1, items.update(i, r3))
                }
            }
        }
    }
}

/// A channel starting a pattern at `ptr`, keeping its sample and ornament.
pub open spec fn fls_restart(c: StcChan, ptr: int) -> StcChan {
    StcChan { ptr: ptr as usize, skip: 0, skip_ctr: 0, ..c }
}

/// Pattern `j`: its channel offsets are the three words at `6 * j` (see
/// [`fls_rows`]).
pub open spec fn fls_pattern(data: Seq<u8>, j: int, a: StcChan, b: StcChan, c: StcChan, mk: StcMarks) -> (
    int,
    Seq<PatternRow>,
    StcChan,
    StcChan,
    StcChan,
    StcMarks,
    bool,
) {
    fls_rows(
        data,
        fls_restart(a, word_at(data, 6 * j)),
        fls_restart(b, word_at(data, 6 * j + 2)),
        fls_restart(c, word_at(data, 6 * j + 4)),
        mk,
        0,
        empty_rows(),
    )
}

/// Read pattern `j` (see [`fls_pattern`]).
fn decode_pattern(data: &[u8], j: usize, a0: StcChan, b0: StcChan, c0: StcChan, mk0: StcMarks) -> (r: (
    Pattern,
    StcChan,
    StcChan,
    StcChan,
    StcMarks,
    bool,
))
    requires
        j <= 255,
        data@.len() <= isize::MAX,
        stc_chan_rest(a0),
        stc_chan_rest(b0),
        stc_chan_rest(c0),
        marks_ok(mk0),
    ensures
        marks_ok(r.4),
        fls_pattern(data@, j as int, a0, b0, c0, mk0) == (
            r.0.length as int,
            r.0.items@,
            r.1,
            r.2,
            r.3,
            r.4,
            r.5,
        ),
        r.0.length <= 256,
        stc_chan_rest(r.1),
        stc_chan_rest(r.2),
        stc_chan_rest(r.3),
{
    let t = 6 * j;
    let mut a = StcChan { ptr: word_at_exec(data, t), skip: 0, skip_ctr: 0, ..a0 };
    let mut b = StcChan { ptr: word_at_exec(data, t + 2), skip: 0, skip_ctr: 0, ..b0 };
    let mut c = StcChan { ptr: word_at_exec(data, t + 4), skip: 0, skip_ctr: 0, ..c0 };
    let mut mk = mk0;
    let mut pattern = Pattern::default();
    assert(pattern.items@ =~= empty_rows());
    let ghost target = fls_rows(data@, a, b, c, mk, 0, pattern.items@);
    let mut i: usize = 0;
    let mut bad = false;
    while i < 256
        invariant_except_break
            fls_rows(data@, a, b, c, mk, i as int, pattern.items@) == target,
            !bad,
        invariant
            i <= 256,
            data@.len() <= isize::MAX,
            stc_chan_rest(a),
            stc_chan_rest(b),
            stc_chan_rest(c),
            marks_ok(mk),
        ensures
            target == (i as int, pattern.items@, a, b, c, mk, bad),
        decreases 256 - i,
    {
        if a.skip_ctr - 1 < 0 && get_or(data, a.ptr, 0xFF) == 0xFF {
            break ;
        }
        let row = pattern.items[i];
        let (a2, r1, mk1, bad1) = fls_turn_exec(data, a, row, 0, mk);
        if bad1 {
            a = a2;
            mk = mk1;
            bad = true;
            break ;
        }
        let (b2, r2, mk2, bad2) = fls_turn_exec(data, b, r1, 1, mk1);
        if bad2 {
            a = a2;
            b = b2;
            mk = mk2;
            bad = true;
            break ;
        }
        let (c2, r3, mk3, bad3) = fls_turn_exec(data, c, r2, 2, mk2);
        if bad3 {
            a = a2;
            b = b2;
            c = c2;
            mk = mk3;
            bad = true;
            break ;
        }
        pattern.items[i] = r3;
        a = a2;
        b = b2;
        c = c2;
        mk = mk3;
        i = i + 1;
    }
    pattern.length = i;
    (pattern, a, b, c, mk, bad)
}


// ─── Positions ───────────────────────────────────────────────────────────────

/// The positions from `pos` on, up to a 0 byte, 256 positions or the end of
/// the data (the list's first byte is the delay): each names a pattern
/// (numbers past the last pattern slot are skipped and leave their position
/// 0); a pattern is read the first time a position names it and its table
/// entry lies within the data (else it stays unread), the channels' sample
/// and ornament and the marks carrying from one pattern to the next.  Gives
/// the number of positions, their list, the patterns, the marks, and whether
/// a byte without a command was met.
pub open spec fn fls_walk(
    data: Seq<u8>,
    pos_ptr: int,
    pos: int,
    values: Seq<usize>,
    pats: Seq<PatRead>,
    a: StcChan,
    b: StcChan,
    c: StcChan,
    mk: StcMarks,
) -> (int, Seq<usize>, Seq<PatRead>, StcMarks, bool)
    decreases 256 - pos,
{
    if pos >= 256 || pos < 0 || pos_ptr + 1 + pos >= data.len() || data[pos_ptr + 1 + pos] == 0 {
        (pos, values, pats, mk, false)
    } else {
        let j = data[pos_ptr + 1 + pos] as int;
        if j > MAX_NUM_OF_PATS {
            fls_walk(data, pos_ptr, pos + 1, values, pats, a, b, c, mk)
        } else {
            let v2 = values.update(pos, j as usize);
            if pats[j] is Some || 6 * j + 6 > data.len() {
                fls_walk(data, pos_ptr, pos + 1, v2, pats, a, b, c, mk)
            } else {
                let (l, it, a2, b2, c2, mk2, bad) = fls_pattern(data, j, a, b, c, mk);
                if bad {
                    (pos + 1, v2, pats, mk2, true)
                } else {
                    fls_walk(data, pos_ptr, pos + 1, v2, pats.update(j, Some((l, it))), a2, b2, c2, mk2)
                }
            }
        }
    }
}

/// A channel before the first pattern.
pub open spec fn fls_chan0() -> StcChan {
    StcChan { ptr: 0, skip: 0, skip_ctr: 0, c_sam: 0, c_orn: 0 }
}

/// Walk the positions (see [`fls_walk`]) into `values` and `patterns`.
fn read_positions(
    data: &[u8],
    pos_ptr: usize,
    values: &mut [usize; 256],
    patterns: &mut Vec<Option<Box<Pattern>>>,
    mk0: StcMarks,
) -> (r: (usize, StcMarks, bool))
    requires
        pos_ptr < 65536,
        data@.len() <= isize::MAX,
        pats_match(old(patterns)@, no_reads()),
        marks_ok(mk0),
    ensures
        marks_ok(r.1),
        ({
            let w = fls_walk(data@, pos_ptr as int, 0, old(values)@, no_reads(), fls_chan0(), fls_chan0(), fls_chan0(), mk0);
            &&& w.0 == r.0
            &&& w.1 == final(values)@
            &&& pats_match(final(patterns)@, w.2)
            &&& w.3 == r.1
            &&& w.4 == r.2
        }),
        final(patterns)@.len() == old(patterns)@.len(),
        r.0 <= 256,
{
    let z = StcChan { ptr: 0, skip: 0, skip_ctr: 0, c_sam: 0, c_orn: 0 };
    let ghost target = fls_walk(data@, pos_ptr as int, 0, values@, no_reads(), z, z, z, mk0);
    let ghost mut sp = no_reads();
    let mut a = z;
    let mut b = z;
    let mut c = z;
    let mut mk = mk0;
    let mut pos: usize = 0;
    let mut bad = false;
    while pos < 256
        invariant_except_break
            fls_walk(data@, pos_ptr as int, pos as int, values@, sp, a, b, c, mk) == target,
            !bad,
        invariant
            pos <= 256,
            pos_ptr < 65536,
            data@.len() <= isize::MAX,
            stc_chan_rest(a),
            stc_chan_rest(b),
            stc_chan_rest(c),
            marks_ok(mk),
            pats_match(patterns@, sp),
            sp.len() == MAX_NUM_OF_PATS + 1,
            patterns@.len() == MAX_NUM_OF_PATS + 1,
        ensures
            target == (pos as int, values@, sp, mk, bad),
        decreases 256 - pos,
    {
        let j_off = pos_ptr + 1 + pos;
        if j_off >= data.len() {
            break ;
        }
        let j = data[j_off] as usize;
        if j == 0 {
            break ;
        }
        if j > MAX_NUM_OF_PATS {
            pos = pos + 1;
            continue ;
        }
        values[pos] = j;
        pos = pos + 1;
        if patterns[j].is_none() && 6 * j + 6 <= data.len() {
            let (pat, a2, b2, c2, mk2, bad2) = decode_pattern(data, j, a, b, c, mk);
            mk = mk2;
            if bad2 {
                bad = true;
                break ;
            }
            proof {
                sp = sp.update(j as int, Some((pat.length as int, pat.items@)));
            }
            patterns.set(j, Some(Box::new(pat)));
            a = a2;
            b = b2;
            c = c2;
        }
    }
    (pos, mk, bad)
}

// ─── Ornaments and samples ───────────────────────────────────────────────────

/// Length and loop of a loop count `l` (at least 1) and a length `sum`: at
/// most 32 steps; a shorter one is extended by repeating its loop up to step
/// 32, where the loop then starts.
pub open spec fn fls_shape(l: int, sum: int) -> (int, int) {
    let ln0 = if sum > 32 {
        32
    } else {
        sum
    };
    let ln = if ln0 == 0 {
        1
    } else {
        ln0
    };
    let lp0 = if l - 1 > 31 {
        31
    } else {
        l - 1
    };
    let lp = if lp0 >= ln {
        ln - 1
    } else {
        lp0
    };
    if ln < 32 {
        (ln + 33 - (lp + 1), 32)
    } else {
        (ln, lp)
    }
}

fn fls_shape_exec(l: usize, sum: usize) -> (r: (usize, usize))
    requires
        1 <= l < 256,
        sum < 512,
    ensures
        r == (fls_shape(l as int, sum as int).0 as usize, fls_shape(l as int, sum as int).1 as usize),
        r.0 <= 64,
        r.1 <= 32,
        r.1 == 32 ==> r.0 >= 33,
        r.1 < r.0,
{
    let ln0 = if sum > 32 {
        32
    } else {
        sum
    };
    let ln = if ln0 == 0 {
        1
    } else {
        ln0
    };
    let lp0 = if l - 1 > 31 {
        31
    } else {
        l - 1
    };
    let lp = if lp0 >= ln {
        ln - 1
    } else {
        lp0
    };
    if ln < 32 {
        (ln + 33 - (lp + 1), 32)
    } else {
        (ln, lp)
    }
}

/// The loop count of sample `s` (0: none) in the table at `sam_ptr`.
pub open spec fn sam_loop(data: Seq<u8>, sam_ptr: int, s: u8) -> int {
    if s == 0 {
        0
    } else {
        byte_or(data, sam_ptr + 4 * (s - 1), 0) as int
    }
}

/// Length and loop of an ornament whose first sample is `s`: those of the
/// sample's loop count and extra length (see [`fls_shape`]), or 32 steps
/// looping from the first when it has none.
pub open spec fn fls_orn_shape(data: Seq<u8>, sam_ptr: int, s: u8) -> (int, int) {
    let l = sam_loop(data, sam_ptr, s);
    if l == 0 {
        (32, 0)
    } else {
        fls_shape(l, l - 1 + byte_or(data, sam_ptr + 4 * (s - 1) + 1, 0) as int)
    }
}

/// The ornament whose 32 offsets start at `j`, shaped by its first sample
/// `s`.
pub open spec fn fls_ornament(data: Seq<u8>, j: int, sam_ptr: int, s: u8) -> OrnRead {
    let (len, lp) = fls_orn_shape(data, sam_ptr, s);
    let base = Seq::new(
        255,
        |q: int|
            if q < 32 {
                byte_or(data, j + q, 0) as i8
            } else {
                0i8
            },
    );
    (len, lp, if lp == 32 {
        repeat_loop(base, loop_start(sam_loop(data, sam_ptr, s)), 32, len)
    } else {
        base
    })
}

/// The ornament slots: slot 0 the single zero offset, each slot 1..15 a
/// pattern uses and whose table word lies within the data its ornament.
pub open spec fn fls_orn_slots(data: Seq<u8>, orn_ptr: int, sam_ptr: int, mk: StcMarks) -> Seq<Option<OrnRead>> {
    Seq::new(16, |i: int| if i == 0 {
        start_orn_slots()[0]
    } else if mk.is_orn[i] && orn_ptr + 2 * (i - 1) + 1 < data.len() {
        Some(fls_ornament(data, word_at(data, orn_ptr + 2 * (i - 1)), sam_ptr, mk.orn2sam[i]))
    } else {
        None
    })
}

/// Read the ornament at `j` shaped by sample `s` (see [`fls_ornament`]).
fn read_ornament(data: &[u8], j: usize, sam_ptr: usize, s: u8) -> (r: Ornament)
    requires
        j < 65536,
        sam_ptr < 65536,
        s <= 16,
        data@.len() <= isize::MAX,
    ensures
        fls_ornament(data@, j as int, sam_ptr as int, s) == (r.length as int, r.loop_pos as int, r.items@),
{
    let l: usize = if s == 0 {
        0
    } else {
        get_or(data, sam_ptr + 4 * (s as usize - 1), 0) as usize
    };
    let (len, lp) = if l == 0 {
        (32usize, 0usize)
    } else {
        fls_shape_exec(l, l - 1 + get_or(data, sam_ptr + 4 * (s as usize - 1) + 1, 0) as usize)
    };
    let mut orn = Ornament::default();
    let mut q: usize = 0;
    while q < 32
        invariant
            q <= 32,
            j < 65536,
            orn.items@.len() == 255,
            forall|t: int|
                0 <= t < 255 ==> #[trigger] orn.items@[t] == if t < q {
                    byte_or(data@, j + t, 0) as i8
                } else {
                    0i8
                },
        decreases 32 - q,
    {
        orn.items[q] = get_or(data, j + q, 0) as i8;
        q = q + 1;
    }
    let ghost base = orn.items@;
    assert(base =~= Seq::new(
        255,
        |t: int|
            if t < 32 {
                byte_or(data@, j + t, 0) as i8
            } else {
                0i8
            },
    ));
    if lp == 32 {
        let st: usize = (if l - 1 > 31 {
            31
        } else {
            l - 1
        }) + 1;
        let mut q: usize = 32;
        while q < len
            invariant
                32 <= q <= len,
                len <= 64,
                1 <= st <= 32,
                st == loop_start(l as int),
                orn.items@.len() == 255,
                repeat_loop(orn.items@, st as int, q as int, len as int) == repeat_loop(
                    base,
                    st as int,
                    32,
                    len as int,
                ),
            decreases len - q,
        {
            let v = orn.items[q + st - 33];
            orn.items[q] = v;
            q = q + 1;
        }
    }
    orn.length = len;
    orn.loop_pos = lp;
    orn
}

/// Read the ornaments the patterns use into their slots (see
/// [`fls_orn_slots`]).
fn read_ornaments(
    data: &[u8],
    orn_ptr: usize,
    sam_ptr: usize,
    mk: &StcMarks,
    ornaments: &mut [Option<Box<Ornament>>; 16],
)
    requires
        orn_ptr < 65536,
        sam_ptr < 65536,
        marks_ok(*mk),
        data@.len() <= isize::MAX,
        orns_match(old(ornaments)@, start_orn_slots()),
    ensures
        orns_match(final(ornaments)@, fls_orn_slots(data@, orn_ptr as int, sam_ptr as int, *mk)),
{
    let ghost want = fls_orn_slots(data@, orn_ptr as int, sam_ptr as int, *mk);
    let mut i: usize = 1;
    while i < 16
        invariant
            1 <= i <= 16,
            orn_ptr < 65536,
            sam_ptr < 65536,
            marks_ok(*mk),
            data@.len() <= isize::MAX,
            want == fls_orn_slots(data@, orn_ptr as int, sam_ptr as int, *mk),
            orns_match(ornaments@, Seq::new(16, |q: int| if q < i {
                want[q]
            } else {
                None
            })),
        decreases 16 - i,
    {
        if mk.is_orn[i] {
            let p = orn_ptr + 2 * (i - 1);
            if p + 1 < data.len() {
                let j = word_at_exec(data, p);
                let orn = read_ornament(data, j, sam_ptr, mk.orn2sam[i]);
                ornaments[i] = Some(Box::new(orn));
            }
        }
        i = i + 1;
    }
    assert(Seq::new(16, |q: int| if q < 16 {
        want[q]
    } else {
        None
    }) =~= want);
}

/// Sample `i`'s entry at `e` (loop count, extra length, tick offset) and its
/// 32 ticks lie within the data.
pub open spec fn fls_sam_ok(data: Seq<u8>, e: int) -> bool {
    e + 3 < data.len() && word_at(data, e + 2) + 3 <= data.len()
}

/// The sample in the entry at `e`: 32 ticks (three bytes each, bytes past
/// the end read as 0) at the entry's offset, shaped by its loop count (0:
/// none, giving 33 steps, the last silent, looping on it) and extra length
/// (see [`fls_shape`]).
pub open spec fn fls_sample(data: Seq<u8>, e: int) -> SamRead {
    let l = data[e] as int;
    let t = word_at(data, e + 2);
    let (len, lp) = if l == 0 {
        (33int, 32int)
    } else {
        fls_shape(l, loop_start(l) - 1 + data[e + 1] as int)
    };
    let base = Seq::new(
        64,
        |q: int|
            if q < 32 {
                stc_tick(
                    byte_or(data, t + 3 * q, 0),
                    byte_or(data, t + 3 * q + 1, 0),
                    byte_or(data, t + 3 * q + 2, 0),
                )
            } else {
                blank_tick()
            },
    );
    let ext = if lp == 32 && len > 33 {
        repeat_loop(base, loop_start(l), 32, len)
    } else {
        base
    };
    (len, lp, if l == 0 {
        ext.update(32, blank_tick())
    } else {
        ext
    })
}

/// The sample slots: each slot 1..16 a pattern uses and whose entry and
/// ticks lie within the data its sample; the others empty.
pub open spec fn fls_sam_slots(data: Seq<u8>, sam_ptr: int, mk: StcMarks) -> Seq<Option<SamRead>> {
    Seq::new(32, |i: int| if 1 <= i <= 16 && mk.is_sam[i] && fls_sam_ok(data, sam_ptr + 4 * (i - 1)) {
        Some(fls_sample(data, sam_ptr + 4 * (i - 1)))
    } else {
        None
    })
}

/// Read the sample in the entry at `e` (see [`fls_sample`]).
fn read_sample(data: &[u8], e: usize) -> (r: Sample)
    requires
        fls_sam_ok(data@, e as int),
        data@.len() <= isize::MAX,
    ensures
        fls_sample(data@, e as int) == (r.length as int, r.loop_pos as int, r.items@),
        r.enabled,
{
    let l = data[e] as usize;
    let t = word_at_exec(data, e + 2);
    let (len, lp) = if l == 0 {
        (33usize, 32usize)
    } else {
        let lp0: usize = if l - 1 > 31 {
            31
        } else {
            l - 1
        };
        fls_shape_exec(l, lp0 + data[e + 1] as usize)
    };
    let mut sam = Sample::default();
    let mut q: usize = 0;
    while q < 32
        invariant
            q <= 32,
            t < 65536,
            sam.items@.len() == 64,
            sam.enabled,
            forall|u: int|
                0 <= u < 64 ==> #[trigger] sam.items@[u] == if u < q {
                    stc_tick(
                        byte_or(data@, t + 3 * u, 0),
                        byte_or(data@, t + 3 * u + 1, 0),
                        byte_or(data@, t + 3 * u + 2, 0),
                    )
                } else {
                    blank_tick()
                },
        decreases 32 - q,
    {
        sam.items[q] = crate::formats::stc::stc_tick_exec(
            get_or(data, t + 3 * q, 0),
            get_or(data, t + 3 * q + 1, 0),
            get_or(data, t + 3 * q + 2, 0),
        );
        q = q + 1;
    }
    let ghost base = sam.items@;
    assert(base =~= Seq::new(
        64,
        |u: int|
            if u < 32 {
                stc_tick(
                    byte_or(data@, t + 3 * u, 0),
                    byte_or(data@, t + 3 * u + 1, 0),
                    byte_or(data@, t + 3 * u + 2, 0),
                )
            } else {
                blank_tick()
            },
    ));
    if lp == 32 && len > 33 {
        let st: usize = (if l - 1 > 31 {
            31
        } else {
            l - 1
        }) + 1;
        let mut q: usize = 32;
        while q < len
            invariant
                32 <= q <= len,
                len <= 64,
                1 <= st <= 32,
                st == loop_start(l as int),
                sam.items@.len() == 64,
                sam.enabled,
                repeat_loop(sam.items@, st as int, q as int, len as int) == repeat_loop(
                    base,
                    st as int,
                    32,
                    len as int,
                ),
            decreases len - q,
        {
            let v = sam.items[q + st - 33];
            sam.items[q] = v;
            q = q + 1;
        }
    }
    if l == 0 {
        sam.items[32] = SampleTick::default();
    }
    sam.length = len as u8;
    sam.loop_pos = lp as u8;
    sam
}

/// Read the samples the patterns use into their slots (see
/// [`fls_sam_slots`]).
fn read_samples(data: &[u8], sam_ptr: usize, mk: &StcMarks, samples: &mut [Option<Box<Sample>>; 32])
    requires
        sam_ptr < 65536,
        data@.len() <= isize::MAX,
        sams_match(old(samples)@, Seq::new(32, |v: int| None)),
    ensures
        sams_match(final(samples)@, fls_sam_slots(data@, sam_ptr as int, *mk)),
{
    let ghost want = fls_sam_slots(data@, sam_ptr as int, *mk);
    let mut i: usize = 1;
    while i <= 16
        invariant
            1 <= i <= 17,
            sam_ptr < 65536,
            data@.len() <= isize::MAX,
            want == fls_sam_slots(data@, sam_ptr as int, *mk),
            sams_match(samples@, Seq::new(32, |q: int| if q < i {
                want[q]
            } else {
                None
            })),
        decreases 17 - i,
    {
        if mk.is_sam[i] {
            let e = sam_ptr + 4 * (i - 1);
            if e + 3 < data.len() {
                let t = word_at_exec(data, e + 2);
                if t + 3 <= data.len() {
                    let sam = read_sample(data, e);
                    samples[i] = Some(Box::new(sam));
                }
            }
        }
        i = i + 1;
    }
    assert(Seq::new(32, |q: int| if q < 17 {
        want[q]
    } else {
        None
    }) =~= want);
}


// ─── The module ──────────────────────────────────────────────────────────────

/// The position walk over the whole file (see [`fls_walk`]).
pub open spec fn fls_song(data: Seq<u8>) -> (int, Seq<usize>, Seq<PatRead>, StcMarks, bool) {
    fls_walk(
        data,
        word_at(data, FLS_OFF_POS_PTR as int),
        0,
        Seq::new(256, |i: int| 0usize),
        no_reads(),
        fls_chan0(),
        fls_chan0(),
        fls_chan0(),
        no_marks(),
    )
}

/// An FLS file (at least the header long) whose position list lies within
/// the data is refused when a pattern holds a byte 0x8F..0xA0, which no
/// command has.
pub open spec fn fls_bad(data: Seq<u8>) -> bool {
    word_at(data, FLS_OFF_POS_PTR as int) < data.len() && fls_song(data).4
}

/// `m` is the module the FLS file `data` describes: tone table 1, no title
/// or author, loop at the start; when its position list starts within the
/// data, the delay it starts with, the positions and patterns of the walk,
/// and the ornaments and samples the patterns use; otherwise the default
/// delay and no positions.
pub open spec fn fls_module(data: Seq<u8>, m: Module) -> bool {
    let pos_ptr = word_at(data, FLS_OFF_POS_PTR as int);
    let orn_ptr = word_at(data, FLS_OFF_ORN_PTR as int);
    let sam_ptr = word_at(data, FLS_OFF_SAM_PTR as int);
    let (n, values, pats, mk, bad) = fls_song(data);
    &&& m.wf()
    &&& m.features_level == FeaturesLevel::Pt35
    &&& !m.vortex_module_header
    &&& m.ton_table == 1
    &&& m.title@ == Seq::<char>::empty()
    &&& m.author@ == Seq::<char>::empty()
    &&& m.positions.loop_pos == 0
    &&& forall|c: int|
        0 <= c < 3 ==> #[trigger] m.is_chans[c] == (crate::types::ChannelState {
            global_ton: true,
            global_noise: true,
            global_envelope: true,
            envelope_enabled: false,
            ornament: 0,
            sample: 1,
            volume: 15,
        })
    &&& if pos_ptr >= data.len() {
        &&& m.initial_delay == 3
        &&& m.positions.length == 0
        &&& m.positions.value@ == Seq::new(256, |i: int| 0usize)
        &&& pats_match(m.patterns@, no_reads())
        &&& orns_match(m.ornaments@, start_orn_slots())
        &&& sams_match(m.samples@, Seq::new(32, |v: int| None))
    } else {
        &&& m.initial_delay == data[pos_ptr]
        &&& m.positions.length == n
        &&& m.positions.value@ == values
        &&& pats_match(m.patterns@, pats)
        &&& orns_match(m.ornaments@, fls_orn_slots(data, orn_ptr, sam_ptr, mk))
        &&& sams_match(m.samples@, fls_sam_slots(data, sam_ptr, mk))
    }
}

/// What reading the FLS file `data` gives: files shorter than 64 bytes are
/// refused, otherwise the module [`fls_module`] describes.
pub open spec fn parse_outcome(data: Seq<u8>, r: Result<Module, FormatError>) -> bool {
    &&& data.len() < FLS_MIN_FILE_SIZE ==> r == Err::<Module, FormatError>(FormatError::TooShort)
    &&& data.len() >= FLS_MIN_FILE_SIZE && fls_bad(data) ==> r == Err::<Module, FormatError>(
        FormatError::UnknownCommand,
    )
    &&& data.len() >= FLS_MIN_FILE_SIZE && !fls_bad(data) ==> (r matches Ok(m) && fls_module(data, m))
}

fn read_module(data: &[u8]) -> (r: (Module, bool))
    requires
        data@.len() >= FLS_MIN_FILE_SIZE,
        data@.len() <= isize::MAX,
    ensures
        r.1 == fls_bad(data@),
        !r.1 ==> fls_module(data@, r.0),
{
    let mut module = Module::default();
    module.features_level = FeaturesLevel::Pt35;
    module.vortex_module_header = false;
    module.ton_table = 1;
    assert(module.title@ =~= Seq::<char>::empty());
    assert(module.author@ =~= Seq::<char>::empty());
    let pos_ptr = word_at_exec(data, FLS_OFF_POS_PTR);
    let orn_ptr = word_at_exec(data, FLS_OFF_ORN_PTR);
    let sam_ptr = word_at_exec(data, FLS_OFF_SAM_PTR);
    assert(module.positions.value@ =~= Seq::new(256, |i: int| 0usize));
    assert(pats_match(module.patterns@, no_reads()));
    assert(module.ornaments[0] matches Some(o) && o.items@ =~= crate::formats::asc::zero_offsets());
    assert(orns_match(module.ornaments@, start_orn_slots()));
    assert(sams_match(module.samples@, Seq::new(32, |v: int| None)));
    if pos_ptr >= data.len() {
        return (module, false);
    }
    module.initial_delay = data[pos_ptr];
    let mk0 = StcMarks { is_orn: [false; 16], is_sam: [false; 17], orn2sam: [0u8; 16] };
    assert(mk0.is_orn =~= no_marks().is_orn);
    assert(mk0.is_sam =~= no_marks().is_sam);
    assert(mk0.orn2sam =~= no_marks().orn2sam);
    let (n, mk, bad) = read_positions(data, pos_ptr, &mut module.positions.value, &mut module.patterns, mk0);
    assert(fls_chan0() == StcChan { ptr: 0, skip: 0, skip_ctr: 0, c_sam: 0, c_orn: 0 });
    if bad {
        return (module, true);
    }
    module.positions.length = n;
    read_ornaments(data, orn_ptr, sam_ptr, &mk, &mut module.ornaments);
    read_samples(data, sam_ptr, &mk, &mut module.samples);
    (module, false)
}

/// Parse a Flying Ledger Sound (`.fls`) file.  Files shorter than 64 bytes
/// are refused, and so are files with a pattern byte no command has;
/// otherwise the module is the one [`fls_module`] describes.
pub fn parse(data: &[u8]) -> (r: Result<Module, FormatError>)
    requires
        data@.len() <= isize::MAX,
    ensures
        parse_outcome(data@, r),
{
    if data.len() < FLS_MIN_FILE_SIZE {
        return Err(FormatError::TooShort);
    }
    let (m, bad) = read_module(data);
    if bad {
        return Err(FormatError::UnknownCommand);
    }
    Ok(m)
}

} // verus!
