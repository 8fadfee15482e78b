//! Sound Tracker Compiled (`*.stc`) binary module files: reader.
use crate::formats::asc::{
    byte_or, no_reads, orns_match, pats_match, sams_match, sfive, start_orn_slots, word_at, OrnRead,
    PatRead, SamRead,
};
use crate::formats::pt3::{empty_rows, trim_end, trim_right_ascii};
use crate::formats::FormatError;
use crate::types::{
    blank_tick, ChannelLine, FeaturesLevel, Module, Ornament, Pattern, PatternRow, Sample,
    SampleTick, NOTE_SOUND_OFF,
};
use vstd::prelude::*;

verus! {

/// Initial delay.
pub const STC_OFF_DELAY: usize = 0;
/// Word: offset of the position list.
pub const STC_OFF_POS_PTR: usize = 1;
/// Word: offset of the ornament table.
pub const STC_OFF_ORN_PTR: usize = 3;
/// Word: offset of the pattern table.
pub const STC_OFF_PAT_PTR: usize = 5;
/// The 18-byte name.
pub const STC_OFF_NAME: usize = 7;
/// Word: the size the file says it has.
pub const STC_OFF_SIZE: usize = 25;
/// The sample table: 16 entries of 99 bytes.
pub const STC_SAMPLES_BASE: usize = 27;
/// Size of a sample entry (number, 32 three-byte ticks, loop, extra length).
pub const STC_SAMPLE_ENTRY_SIZE: usize = 99;
/// Smallest STC file: header and one sample entry.
pub const STC_MIN_FILE_SIZE: usize = 126;

// ─── Channel commands ────────────────────────────────────────────────────────

/// One channel's reading state: stream position, skip and skip counter, and
/// the sample and ornament last chosen (kept from pattern to pattern).
#[derive(Clone, Copy, PartialEq, Eq, Structural)]
pub struct StcChan {
    pub ptr: usize,
    pub skip: i8,
    pub skip_ctr: i8,
    pub c_sam: u8,
    pub c_orn: u8,
}

/// Which ornaments and samples the patterns use, and the sample first
/// playing with each ornament (0 for none).
#[derive(Clone, Copy)]
pub struct StcMarks {
    pub is_orn: [bool; 16],
    pub is_sam: [bool; 17],
    pub orn2sam: [u8; 16],
}

/// The channel state is in range.
pub open spec fn stc_chan_ok(c: StcChan) -> bool {
    &&& 0 <= c.skip <= 94
    &&& -1 <= c.skip_ctr <= 94
    &&& c.c_sam <= 16
    &&& c.c_orn <= 15
}

/// Every ornament's first sample is a sample number (0..16).
pub open spec fn marks_ok(mk: StcMarks) -> bool {
    forall|i: int| 0 <= i < 16 ==> #[trigger] mk.orn2sam[i] <= 16
}

/// The note `b` moved by `trans` semitones, kept within 0..0x5F.
pub open spec fn transposed(b: u8, trans: int) -> i8 {
    let n = b as int + trans;
    (if n > 0x5F {
        0x5F
    } else if n < 0 {
        0
    } else {
        n
    }) as i8
}

/// One channel's commands for one row, read until a note, sound-off or
/// end-of-row byte or the end of the data: notes are transposed by `trans`;
/// sample and ornament choices are marked as used; an envelope command
/// reads its period into the row.  The last component is true when a byte
/// 0x8F..0xA0, which no command has, was met.
pub open spec fn stc_interp(data: Seq<u8>, c: StcChan, trans: int, cl: ChannelLine, env: u16, mk: StcMarks) -> (
    StcChan,
    ChannelLine,
    u16,
    StcMarks,
    bool,
)
    decreases data.len() + 2 - c.ptr,
{
    if c.ptr >= data.len() || data.len() >= usize::MAX - 4 {
        (c, cl, env, mk, false)
    } else {
        let b = data[c.ptr as int];
        let c1 = StcChan { ptr: (c.ptr + 1) as usize, ..c };
        if b <= 0x5F {
            (c1, ChannelLine { note: transposed(b, trans), ..cl }, env, mk, false)
        } else if b <= 0x6F {
            let s = (b - 0x5F) as u8;
            stc_interp(
                data,
                StcChan { c_sam: s, ..c1 },
                trans,
                ChannelLine { sample: s, ..cl },
                env,
                StcMarks { is_sam: vstd::array::spec_array_update(mk.is_sam, s as int, true), ..mk },
            )
        } else if b <= 0x7F {
            let o = (b - 0x70) as u8;
            stc_interp(
                data,
                StcChan { c_orn: o, ..c1 },
                trans,
                ChannelLine { ornament: o, envelope: 15, ..cl },
                env,
                StcMarks { is_orn: vstd::array::spec_array_update(mk.is_orn, o as int, true), ..mk },
            )
        } else if b == 0x80 {
            (c1, ChannelLine { note: NOTE_SOUND_OFF, ..cl }, env, mk, false)
        } else if b == 0x81 {
            (c1, cl, env, mk, false)
        } else if b == 0x82 {
            stc_interp(data, c1, trans, ChannelLine { ornament: 0, envelope: 15, ..cl }, env, mk)
        } else if b <= 0x8E {
            stc_interp(
                data,
                StcChan { ptr: (c.ptr + 2) as usize, ..c },
                trans,
                ChannelLine { envelope: (b - 0x80) as u8, ornament: 0, ..cl },
                byte_or(data, c.ptr + 1, 0) as u16,
                mk,
            )
        } else if b <= 0xA0 {
            (c1, cl, env, mk, true)
        } else {
            stc_interp(data, StcChan { skip: (b - 0xA1) as i8, ..c1 }, trans, cl, env, mk)
        }
    }
}

fn get_or(data: &[u8], i: usize, dflt: u8) -> (r: u8)
    ensures
        r == byte_or(data@, i as int, dflt),
{
    if i < data.len() {
        data[i]
    } else {
        dflt
    }
}

fn stc_interp_exec(data: &[u8], c0: StcChan, trans: u8, cl0: ChannelLine, env0: u16, mk0: StcMarks) -> (r: (
    StcChan,
    ChannelLine,
    u16,
    StcMarks,
    bool,
))
    requires
        stc_chan_ok(c0),
        data@.len() < usize::MAX - 4,
    ensures
        r == stc_interp(data@, c0, trans as int, cl0, env0, mk0),
        stc_chan_ok(r.0),
        r.3.orn2sam == mk0.orn2sam,
{
    let ghost target = stc_interp(data@, c0, trans as int, cl0, env0, mk0);
    let mut c = c0;
    let mut cl = cl0;
    let mut env = env0;
    let mut mk = mk0;
    let mut bad = false;
    loop
        invariant_except_break
            stc_interp(data@, c, trans as int, cl, env, mk) == target,
            !bad,
        invariant
            stc_chan_ok(c),
            data@.len() < usize::MAX - 4,
            target == stc_interp(data@, c0, trans as int, cl0, env0, mk0),
            mk.orn2sam == mk0.orn2sam,
        ensures
            target == (c, cl, env, mk, bad),
        decreases data@.len() + 2 - c.ptr,
    {
        if c.ptr >= data.len() {
            break ;
        }
        let b = data[c.ptr];
        let p = c.ptr + 1;
        if b <= 0x5F {
            let n: i32 = b as i32 + trans as i32;
            cl.note = if n > 0x5F {
                0x5F
            } else {
                n as i8
            };
            c.ptr = p;
            break ;
        } else if b <= 0x6F {
            let s = b - 0x5F;
            c.ptr = p;
            c.c_sam = s;
            cl.sample = s;
            mk.is_sam[s as usize] = true;
        } else if b <= 0x7F {
            let o = b - 0x70;
            c.ptr = p;
            c.c_orn = o;
            cl.ornament = o;
            cl.envelope = 15;
            mk.is_orn[o as usize] = true;
        } else if b == 0x80 {
            c.ptr = p;
            cl.note = NOTE_SOUND_OFF;
            break ;
        } else if b == 0x81 {
            c.ptr = p;
            break ;
        } else if b == 0x82 {
            c.ptr = p;
            cl.ornament = 0;
            cl.envelope = 15;
        } else if b <= 0x8E {
            cl.envelope = b - 0x80;
            cl.ornament = 0;
            env = get_or(data, p, 0) as u16;
            c.ptr = p + 1;
        } else if b <= 0xA0 {
            c.ptr = p;
            bad = true;
            break ;
        } else {
            c.ptr = p;
            c.skip = (b - 0xA1) as i8;
        }
        proof {
            assert(mk.is_sam =~= mk.is_sam);
        }
    }
    (c, cl, env, mk, bad)
}


/// The marks after a channel's commands: an ornament chosen for the first
/// time with a sample gets that sample.
pub open spec fn note_orn_sample(c: StcChan, mk: StcMarks) -> StcMarks {
    if c.c_orn > 0 && mk.orn2sam[c.c_orn as int] == 0 {
        StcMarks { orn2sam: vstd::array::spec_array_update(mk.orn2sam, c.c_orn as int, c.c_sam), ..mk }
    } else {
        mk
    }
}

/// One channel's turn in a row: while its skip counter runs it rests; when
/// due it reads its commands into cell `k` of `row` and restarts the counter
/// at its skip.  The last component as in [`stc_interp`].
pub open spec fn stc_turn(data: Seq<u8>, c: StcChan, trans: int, row: PatternRow, k: int, mk: StcMarks) -> (
    StcChan,
    PatternRow,
    StcMarks,
    bool,
) {
    let sc = (c.skip_ctr - 1) as i8;
    if sc >= 0 {
        (StcChan { skip_ctr: sc, ..c }, row, mk, false)
    } else {
        let r = stc_interp(data, StcChan { skip_ctr: sc, ..c }, trans, row.channel[k], row.envelope, mk);
        (
            StcChan { skip_ctr: r.0.skip, ..r.0 },
            PatternRow {
                channel: vstd::array::spec_array_update(row.channel, k, r.1),
                envelope: r.2,
                ..row
            },
            note_orn_sample(r.0, r.3),
            r.4,
        )
    }
}

/// Between rows a channel's skip counter is not negative.
pub open spec fn stc_chan_rest(c: StcChan) -> bool {
    stc_chan_ok(c) && c.skip_ctr >= 0
}

fn stc_turn_exec(data: &[u8], c: StcChan, trans: u8, row: PatternRow, k: usize, mk: StcMarks) -> (r: (
    StcChan,
    PatternRow,
    StcMarks,
    bool,
))
    requires
        k < 3,
        stc_chan_rest(c),
        marks_ok(mk),
        data@.len() < usize::MAX - 4,
    ensures
        r == stc_turn(data@, c, trans as int, row, k as int, mk),
        stc_chan_rest(r.0),
        marks_ok(r.2),
{
    let sc = c.skip_ctr - 1;
    if sc >= 0 {
        (StcChan { skip_ctr: sc, ..c }, row, mk, false)
    } else {
        let (c2, cell, env, mk2, bad) = stc_interp_exec(
            data,
            StcChan { skip_ctr: sc, ..c },
            trans,
            row.channel[k],
            row.envelope,
            mk,
        );
        let mut row2 = row;
        row2.channel[k] = cell;
        row2.envelope = env;
        assert(row2.channel =~= vstd::array::spec_array_update(row.channel, k as int, cell));
        let mut mk3 = mk2;
        if c2.c_orn > 0 && mk2.orn2sam[c2.c_orn as usize] == 0 {
            mk3.orn2sam[c2.c_orn as usize] = c2.c_sam;
            assert(mk3.orn2sam =~= vstd::array::spec_array_update(mk2.orn2sam, c2.c_orn as int, c2.c_sam));
        }
        (StcChan { skip_ctr: c2.skip, ..c2 }, row2, mk3, bad)
    }
}

/// The rows of a pattern from row `i` on: its length, rows, the channels
/// and marks after, and whether a byte without a command was met.  Channel A
/// ends the pattern when it is due and its next byte is 0xFF (or the data
/// has ended).
pub open spec fn stc_rows(
    data: Seq<u8>,
    trans: int,
    a: StcChan,
    b: StcChan,
    c: StcChan,
    mk: StcMarks,
    i: int,
    items: Seq<PatternRow>,
) -> (int, Seq<PatternRow>, StcChan, StcChan, StcChan, StcMarks, bool)
    decreases 256 - i,
{
    if i >= 256 || i < 0 {
        (i, items, a, b, c, mk, false)
    } else if a.skip_ctr - 1 < 0 && byte_or(data, a.ptr as int, 0xFF) == 0xFF {
        (i, items, a, b, c, mk, false)
    } else {
        let (a2, r1, mk1, bad1) = stc_turn(data, a, trans, items[i], 0, mk);
        if bad1 {
            (i, items, a2, b, c, mk1, true)
        } else {
            let (b2, r2, mk2, bad2) = stc_turn(data, b, trans, r1, 1, mk1);
            if bad2 {
                (i, items, a2, b2, c, mk2, true)
            } else {
                let (c2, r3, mk3, bad3) = stc_turn(data, c, trans, r2, 2, mk2);
                if bad3 {
                    (i, items, a2, b2, c2, mk3, true)
                } else {
                    stc_rows(data, trans, a2, b2, c2, mk3, i + 1, items.update(i, r3))
                }
            }
        }
    }
}

/// The pattern entry numbered `numb` in the pattern table at `base`
/// (seven-byte entries: number, three channel offsets), searched from entry
/// `k` up to entry 85: where its channel offsets start.
pub open spec fn stc_find(data: Seq<u8>, base: int, numb: u8, k: int) -> Option<int>
    decreases 86 - k,
{
    if k > 85 || k < 0 || base + 7 * k >= data.len() {
        None
    } else if data[base + 7 * k] == numb {
        Some(base + 7 * k + 1)
    } else {
        stc_find(data, base, numb, k + 1)
    }
}

/// A channel starting a pattern at `ptr`, keeping its sample and ornament.
pub open spec fn stc_restart(c: StcChan, ptr: int) -> StcChan {
    StcChan { ptr: ptr as usize, skip: 0, skip_ctr: 0, ..c }
}

/// Pattern `numb` transposed by `trans`: a blank default pattern when the
/// table has no entry for it (or the entry runs past the data), else its
/// rows (see [`stc_rows`]).
pub open spec fn stc_pattern(
    data: Seq<u8>,
    base: int,
    numb: u8,
    trans: int,
    a: StcChan,
    b: StcChan,
    c: StcChan,
    mk: StcMarks,
) -> (int, Seq<PatternRow>, StcChan, StcChan, StcChan, StcMarks, bool) {
    match stc_find(data, base, numb, 0) {
        Some(t) => if t + 6 > data.len() {
            (64, empty_rows(), a, b, c, mk, false)
        } else {
            stc_rows(
                data,
                trans,
                stc_restart(a, word_at(data, t)),
                stc_restart(b, word_at(data, t + 2)),
                stc_restart(c, word_at(data, t + 4)),
                mk,
                0,
                empty_rows(),
            )
        },
        None => (64, empty_rows(), a, b, c, mk, false),
    }
}

fn word_at_exec(data: &[u8], off: usize) -> (r: usize)
    requires
        off < usize::MAX,
    ensures
        r == word_at(data@, off as int),
        r < 65536,
{
    let lo = get_or(data, off, 0) as usize;
    let hi = get_or(data, off + 1, 0) as usize;
    lo + hi * 256
}

/// Read pattern `numb` (see [`stc_pattern`]).
fn decode_pattern(
    data: &[u8],
    base: usize,
    numb: u8,
    trans: u8,
    a0: StcChan,
    b0: StcChan,
    c0: StcChan,
    mk0: StcMarks,
) -> (r: (Pattern, StcChan, StcChan, StcChan, StcMarks, bool))
    requires
        base < 65536,
        data@.len() <= isize::MAX,
        stc_chan_rest(a0),
        stc_chan_rest(b0),
        stc_chan_rest(c0),
        marks_ok(mk0),
    ensures
        marks_ok(r.4),
        stc_pattern(data@, base as int, numb, trans as int, a0, b0, c0, mk0) == (
            r.0.length as int,
            r.0.items@,
            r.1,
            r.2,
            r.3,
            r.4,
            r.5,
        ),
        r.0.length <= 256,
        stc_chan_rest(r.1),
        stc_chan_rest(r.2),
        stc_chan_rest(r.3),
{
    let mut k: usize = 0;
    let mut tbl: usize = 0;
    loop
        invariant
            k <= 85,
            base < 65536,
            data@.len() <= isize::MAX,
            stc_find(data@, base as int, numb, k as int) == stc_find(data@, base as int, numb, 0),
            stc_chan_rest(a0),
            stc_chan_rest(b0),
            stc_chan_rest(c0),
            marks_ok(mk0),
        ensures
            stc_find(data@, base as int, numb, 0) == Some(tbl as int),
            tbl < 65536 * 8,
        decreases 86 - k,
    {
        let off = base + 7 * k;
        if off >= data.len() {
            let p = Pattern::default();
            assert(p.items@ =~= empty_rows());
            return (p, a0, b0, c0, mk0, false);
        }
        if data[off] == numb {
            tbl = off + 1;
            break ;
        }
        k = k + 1;
        if k > 85 {
            let p = Pattern::default();
            assert(p.items@ =~= empty_rows());
            return (p, a0, b0, c0, mk0, false);
        }
    }
    if tbl + 6 > data.len() {
        let p = Pattern::default();
        assert(p.items@ =~= empty_rows());
        return (p, a0, b0, c0, mk0, false);
    }
    let mut a = StcChan { ptr: word_at_exec(data, tbl), skip: 0, skip_ctr: 0, ..a0 };
    let mut b = StcChan { ptr: word_at_exec(data, tbl + 2), skip: 0, skip_ctr: 0, ..b0 };
    let mut c = StcChan { ptr: word_at_exec(data, tbl + 4), skip: 0, skip_ctr: 0, ..c0 };
    let mut mk = mk0;
    let mut pattern = Pattern::default();
    assert(pattern.items@ =~= empty_rows());
    let ghost target = stc_rows(data@, trans as int, a, b, c, mk, 0, pattern.items@);
    let mut i: usize = 0;
    let mut bad = false;
    while i < 256
        invariant_except_break
            stc_rows(data@, trans as int, a, b, c, mk, i as int, pattern.items@) == target,
            !bad,
        invariant
            i <= 256,
            data@.len() <= isize::MAX,
            stc_chan_rest(a),
            stc_chan_rest(b),
            stc_chan_rest(c),
            marks_ok(mk),
        ensures
            target == (i as int, pattern.items@, a, b, c, mk, bad),
        decreases 256 - i,
    {
        if a.skip_ctr - 1 < 0 && get_or(data, a.ptr, 0xFF) == 0xFF {
            break ;
        }
        let row = pattern.items[i];
        let (a2, r1, mk1, bad1) = stc_turn_exec(data, a, trans, row, 0, mk);
        if bad1 {
            a = a2;
            mk = mk1;
            bad = true;
            break ;
        }
        let (b2, r2, mk2, bad2) = stc_turn_exec(data, b, trans, r1, 1, mk1);
        if bad2 {
            a = a2;
            b = b2;
            mk = mk2;
            bad = true;
            break ;
        }
        let (c2, r3, mk3, bad3) = stc_turn_exec(data, c, trans, r2, 2, mk2);
        if bad3 {
            a = a2;
            b = b2;
            c = c2;
            mk = mk3;
            bad = true;
            break ;
        }
        pattern.items[i] = r3;
        a = a2;
        b = b2;
        c = c2;
        mk = mk3;
        i = i + 1;
    }
    pattern.length = i;
    (pattern, a, b, c, mk, bad)
}


// ─── Positions ───────────────────────────────────────────────────────────────

/// Where the pair `x` first occurs in `combos` from `q` on (the length when
/// it does not).
pub open spec fn find_combo(combos: Seq<(u8, u8)>, x: (u8, u8), q: int) -> int
    decreases combos.len() - q,
{
    if q >= combos.len() || q < 0 {
        combos.len() as int
    } else if combos[q] == x {
        q
    } else {
        find_combo(combos, x, q + 1)
    }
}

/// The positions from `pos` on (up to position `last` and at most 85, while
/// the data lasts): each is a (pattern, transposition) pair, and each new
/// pair becomes the next tracker pattern, read once.  Gives the number of
/// positions, their tracker patterns, the patterns, the marks, and whether a
/// byte without a command was met.
pub open spec fn stc_walk(
    data: Seq<u8>,
    pos_ptr: int,
    base: int,
    last: int,
    pos: int,
    values: Seq<usize>,
    pats: Seq<PatRead>,
    combos: Seq<(u8, u8)>,
    a: StcChan,
    b: StcChan,
    c: StcChan,
    mk: StcMarks,
) -> (int, Seq<usize>, Seq<PatRead>, StcMarks, bool)
    decreases 85 - pos,
{
    if pos > last || pos >= 85 || pos < 0 || pos_ptr + 2 + 2 * pos >= data.len() {
        (pos, values, pats, mk, false)
    } else {
        let numb = data[pos_ptr + 1 + 2 * pos];
        let trans = data[pos_ptr + 2 + 2 * pos];
        let j = find_combo(combos, (numb, trans), 0);
        let v2 = values.update(pos, j as usize);
        if j < combos.len() {
            stc_walk(data, pos_ptr, base, last, pos + 1, v2, pats, combos, a, b, c, mk)
        } else {
            let (l, it, a2, b2, c2, mk2, bad) = stc_pattern(data, base, numb, trans as int, a, b, c, mk);
            if bad {
                (pos + 1, v2, pats, mk2, true)
            } else {
                stc_walk(
                    data,
                    pos_ptr,
                    base,
                    last,
                    pos + 1,
                    v2,
                    pats.update(j, Some((l, it))),
                    combos.push((numb, trans)),
                    a2,
                    b2,
                    c2,
                    mk2,
                )
            }
        }
    }
}

/// A channel before the first pattern.
pub open spec fn stc_chan0() -> StcChan {
    StcChan { ptr: 0, skip: 0, skip_ctr: 0, c_sam: 0, c_orn: 0 }
}

/// Nothing marked yet.
pub open spec fn marks0(mk: StcMarks) -> bool {
    &&& forall|i: int| 0 <= i < 16 ==> !#[trigger] mk.is_orn[i]
    &&& forall|i: int| 0 <= i < 17 ==> !#[trigger] mk.is_sam[i]
    &&& forall|i: int| 0 <= i < 16 ==> #[trigger] mk.orn2sam[i] == 0
}

/// Walk the positions (see [`stc_walk`]) into `values` and `patterns`.
fn read_positions(
    data: &[u8],
    pos_ptr: usize,
    base: usize,
    values: &mut [usize; 256],
    patterns: &mut Vec<Option<Box<Pattern>>>,
    mk0: StcMarks,
) -> (r: (usize, StcMarks, bool))
    requires
        pos_ptr < data@.len(),
        base < 65536,
        data@.len() <= isize::MAX,
        pats_match(old(patterns)@, no_reads()),
        marks_ok(mk0),
    ensures
        marks_ok(r.1),
        ({
            let w = stc_walk(
                data@,
                pos_ptr as int,
                base as int,
                data@[pos_ptr as int] as int,
                0,
                old(values)@,
                no_reads(),
                Seq::empty(),
                stc_chan0(),
                stc_chan0(),
                stc_chan0(),
                mk0,
            );
            &&& w.0 == r.0
            &&& w.1 == final(values)@
            &&& pats_match(final(patterns)@, w.2)
            &&& w.3 == r.1
            &&& w.4 == r.2
        }),
        final(patterns)@.len() == old(patterns)@.len(),
        r.0 <= 85,
{
    let last = data[pos_ptr] as usize;
    let z = StcChan { ptr: 0, skip: 0, skip_ctr: 0, c_sam: 0, c_orn: 0 };
    let ghost target = stc_walk(
        data@,
        pos_ptr as int,
        base as int,
        last as int,
        0,
        values@,
        no_reads(),
        Seq::empty(),
        z,
        z,
        z,
        mk0,
    );
    let ghost mut sp = no_reads();
    let mut combos: Vec<(u8, u8)> = Vec::new();
    let mut a = z;
    let mut b = z;
    let mut c = z;
    let mut mk = mk0;
    let mut pos: usize = 0;
    let mut bad = false;
    while pos <= last && pos < 85
        invariant_except_break
            stc_walk(data@, pos_ptr as int, base as int, last as int, pos as int, values@, sp, combos@, a, b, c, mk)
                == target,
            !bad,
        invariant
            pos <= 85,
            last <= 255,
            pos_ptr < data@.len(),
            base < 65536,
            data@.len() <= isize::MAX,
            combos@.len() <= pos,
            stc_chan_rest(a),
            stc_chan_rest(b),
            stc_chan_rest(c),
            marks_ok(mk),
            pats_match(patterns@, sp),
            sp.len() == crate::types::MAX_NUM_OF_PATS + 1,
            patterns@.len() == crate::types::MAX_NUM_OF_PATS + 1,
        ensures
            target == (pos as int, values@, sp, mk, bad),
        decreases 85 - pos,
    {
        let trans_off = pos_ptr + 2 + pos * 2;
        if trans_off >= data.len() {
            break ;
        }
        let numb = data[trans_off - 1];
        let trans = data[trans_off];
        let mut q: usize = 0;
        while q < combos.len()
            invariant
                q <= combos@.len(),
                find_combo(combos@, (numb, trans), q as int) == find_combo(combos@, (numb, trans), 0),
            ensures
                find_combo(combos@, (numb, trans), 0) == q as int,
            decreases combos.len() - q,
        {
            if combos[q].0 == numb && combos[q].1 == trans {
                assert(combos@[q as int] == (numb, trans));
                break ;
            }
            q = q + 1;
        }
        let j = q;
        values[pos] = j;
        pos = pos + 1;
        if j == combos.len() {
            let (pat, a2, b2, c2, mk2, bad2) = decode_pattern(data, base, numb, trans, a, b, c, mk);
            mk = mk2;
            if bad2 {
                bad = true;
                break ;
            }
            proof {
                sp = sp.update(j as int, Some((pat.length as int, pat.items@)));
            }
            patterns.set(j, Some(Box::new(pat)));
            combos.push((numb, trans));
            a = a2;
            b = b2;
            c = c2;
        }
    }
    (pos, mk, bad)
}


// ─── Ornaments and samples ───────────────────────────────────────────────────

/// The first sample entry numbered `target`, from entry `n` on (entries
/// that start past the data end the search).
pub open spec fn sam_entry_of(data: Seq<u8>, target: u8, n: int) -> Option<int>
    decreases 16 - n,
{
    if n >= 16 || n < 0 || STC_SAMPLES_BASE + STC_SAMPLE_ENTRY_SIZE * n >= data.len() {
        None
    } else if data[STC_SAMPLES_BASE + STC_SAMPLE_ENTRY_SIZE * n] == target {
        Some(STC_SAMPLES_BASE + STC_SAMPLE_ENTRY_SIZE * n)
    } else {
        sam_entry_of(data, target, n + 1)
    }
}

fn sam_entry_of_exec(data: &[u8], target: u8) -> (r: Option<usize>)
    requires
        data@.len() <= isize::MAX,
    ensures
        match r {
            Some(e) => sam_entry_of(data@, target, 0) == Some(e as int),
            None => sam_entry_of(data@, target, 0) is None,
        },
        r matches Some(e) ==> e < STC_SAMPLES_BASE + STC_SAMPLE_ENTRY_SIZE * 16,
{
    let mut n: usize = 0;
    while n < 16
        invariant
            n <= 16,
            sam_entry_of(data@, target, n as int) == sam_entry_of(data@, target, 0),
        decreases 16 - n,
    {
        let e = STC_SAMPLES_BASE + STC_SAMPLE_ENTRY_SIZE * n;
        if e >= data.len() {
            return None;
        }
        if data[e] == target {
            return Some(e);
        }
        n = n + 1;
    }
    None
}

/// `items` with positions `q` up to `len` filled by repeating the loop: each
/// takes the value `33 - lp` places before it.
pub open spec fn repeat_loop<T>(items: Seq<T>, lp: int, q: int, len: int) -> Seq<T>
    decreases len - q,
{
    if q >= len || q < 0 {
        items
    } else {
        repeat_loop(items.update(q, items[q + lp - 33]), lp, q + 1, len)
    }
}

/// Length and loop of a loop count `l` (0: none) with `extra` more steps:
/// at most 32 steps; a shorter one is extended by repeating its loop up to
/// step 32, where the loop then starts.
pub open spec fn loop_shape(l: int, extra: int) -> (int, int) {
    let ln0 = if l + extra > 32 {
        32
    } else {
        l + extra
    };
    let ln = if ln0 == 0 {
        1
    } else {
        ln0
    };
    let lp0 = if l - 1 > 31 {
        31
    } else {
        l - 1
    };
    let lp = if lp0 >= ln {
        ln - 1
    } else {
        lp0
    };
    if ln < 32 {
        (ln + 33 - (lp + 1), 32)
    } else {
        (ln, lp)
    }
}

/// Where a loop of count `l` starts, counted from 1.
pub open spec fn loop_start(l: int) -> int {
    if l > 0 {
        (if l - 1 > 31 {
            31
        } else {
            l - 1
        }) + 1
    } else {
        1
    }
}

/// The loop count and extra length of the sample that first played with an
/// ornament (sample number `k`, 0 for none): `None` when reading them runs
/// past the data.
pub open spec fn orn_loop_info(data: Seq<u8>, k: u8) -> Option<(int, int)> {
    if k == 0 {
        Some((0, 0))
    } else {
        match sam_entry_of(data, (k - 1) as u8, 0) {
            None => Some((0, 0)),
            Some(e) => if e + 0x61 >= data.len() {
                None
            } else if data[e + 0x61] == 0 {
                Some((0, 0))
            } else if STC_SAMPLES_BASE + STC_SAMPLE_ENTRY_SIZE * (k - 1) + 0x62 < data.len() {
                if e + 0x62 >= data.len() {
                    None
                } else {
                    Some((data[e + 0x61] as int, data[e + 0x62] as int))
                }
            } else {
                Some((data[e + 0x61] as int, 0))
            },
        }
    }
}

/// The ornament in the entry at `off`, its loop taken from sample `k`.
pub open spec fn stc_ornament(data: Seq<u8>, off: int, l: int, extra: int) -> OrnRead {
    let (len, lp) = if l == 0 {
        (32int, 0int)
    } else {
        loop_shape(l, extra)
    };
    let base = Seq::new(
        255,
        |q: int|
            if q < 32 {
                byte_or(data, off + 1 + q, 0) as i8
            } else {
                0i8
            },
    );
    (len, lp, if lp == 32 && len > 32 {
        repeat_loop(base, loop_start(l), 32, len)
    } else {
        base
    })
}

/// The ornaments read from the table at `base`, entries `i` on (33 bytes:
/// number, 32 offsets), each used one once; the last component is true when
/// a sample's loop data lies past the end of the data.
pub open spec fn stc_orn_fold(
    data: Seq<u8>,
    base: int,
    i: int,
    mk: StcMarks,
    slots: Seq<Option<OrnRead>>,
) -> (Seq<Option<OrnRead>>, bool)
    decreases 16 - i,
{
    if i >= 16 || i < 0 || base + 33 * i >= data.len() {
        (slots, false)
    } else {
        let off = base + 33 * i;
        let o = data[off] as int;
        if o == 0 || o > 15 || !mk.is_orn[o] {
            stc_orn_fold(data, base, i + 1, mk, slots)
        } else {
            match orn_loop_info(data, mk.orn2sam[o]) {
                None => (slots, true),
                Some((l, extra)) => stc_orn_fold(
                    data,
                    base,
                    i + 1,
                    StcMarks { is_orn: vstd::array::spec_array_update(mk.is_orn, o, false), ..mk },
                    slots.update(o, Some(stc_ornament(data, off, l, extra))),
                ),
            }
        }
    }
}

fn orn_loop_info_exec(data: &[u8], k: u8) -> (r: Option<(usize, usize)>)
    requires
        k <= 16,
        data@.len() <= isize::MAX,
    ensures
        match r {
            Some((l, x)) => orn_loop_info(data@, k) == Some((l as int, x as int)),
            None => orn_loop_info(data@, k) is None,
        },
        r matches Some((l, x)) ==> l < 256 && x < 256,
{
    if k == 0 {
        return Some((0, 0));
    }
    match sam_entry_of_exec(data, k - 1) {
        None => Some((0, 0)),
        Some(e) => {
            if e + 0x61 >= data.len() {
                None
            } else if data[e + 0x61] == 0 {
                Some((0, 0))
            } else if STC_SAMPLES_BASE + STC_SAMPLE_ENTRY_SIZE * (k as usize - 1) + 0x62 < data.len() {
                if e + 0x62 >= data.len() {
                    None
                } else {
                    Some((data[e + 0x61] as usize, data[e + 0x62] as usize))
                }
            } else {
                Some((data[e + 0x61] as usize, 0))
            }
        },
    }
}

fn loop_shape_exec(l: usize, extra: usize) -> (r: (usize, usize))
    requires
        1 <= l < 256,
        extra < 256,
    ensures
        r == (loop_shape(l as int, extra as int).0 as usize, loop_shape(l as int, extra as int).1 as usize),
        r.0 <= 64,
        r.1 <= 32,
        r.1 == 32 ==> r.0 >= 32,
        r.1 < r.0,
{
    let ln0 = if l + extra > 32 {
        32
    } else {
        l + extra
    };
    let ln = if ln0 == 0 {
        1
    } else {
        ln0
    };
    let lp0 = if l - 1 > 31 {
        31
    } else {
        l - 1
    };
    let lp = if lp0 >= ln {
        ln - 1
    } else {
        lp0
    };
    if ln < 32 {
        (ln + 33 - (lp + 1), 32)
    } else {
        (ln, lp)
    }
}

/// Read the ornament in the entry at `off` (see [`stc_ornament`]).
fn read_ornament(data: &[u8], off: usize, l: usize, extra: usize) -> (r: Ornament)
    requires
        off < data@.len(),
        l < 256,
        extra < 256,
        data@.len() <= isize::MAX,
    ensures
        stc_ornament(data@, off as int, l as int, extra as int) == (r.length as int, r.loop_pos as int, r.items@),
{
    let (len, lp) = if l == 0 {
        (32usize, 0usize)
    } else {
        loop_shape_exec(l, extra)
    };
    let mut orn = Ornament::default();
    let mut q: usize = 0;
    while q < 32
        invariant
            q <= 32,
            off < data@.len(),
            data@.len() <= isize::MAX,
            orn.items@.len() == 255,
            forall|t: int|
                0 <= t < 255 ==> #[trigger] orn.items@[t] == if t < q {
                    byte_or(data@, off + 1 + t, 0) as i8
                } else {
                    0i8
                },
        decreases 32 - q,
    {
        orn.items[q] = get_or(data, off + 1 + q, 0) as i8;
        q = q + 1;
    }
    let ghost base = orn.items@;
    assert(base =~= Seq::new(
        255,
        |t: int|
            if t < 32 {
                byte_or(data@, off + 1 + t, 0) as i8
            } else {
                0i8
            },
    ));
    if lp == 32 && len > 32 {
        let st: usize = if l > 0 {
            (if l - 1 > 31 {
                31
            } else {
                l - 1
            }) + 1
        } else {
            1
        };
        let mut q: usize = 32;
        while q < len
            invariant
                32 <= q <= len,
                len <= 64,
                1 <= st <= 32,
                st == loop_start(l as int),
                orn.items@.len() == 255,
                repeat_loop(orn.items@, st as int, q as int, len as int) == repeat_loop(
                    base,
                    st as int,
                    32,
                    len as int,
                ),
            decreases len - q,
        {
            let v = orn.items[q + st - 33];
            orn.items[q] = v;
            q = q + 1;
        }
    }
    orn.length = len;
    orn.loop_pos = lp;
    orn
}

/// Read the marked ornaments (see [`stc_orn_fold`]); `true` when a sample's
/// loop data lies past the end of the data.
fn read_ornaments(
    data: &[u8],
    base: usize,
    mk0: StcMarks,
    ornaments: &mut [Option<Box<Ornament>>; 16],
    Ghost(sp): Ghost<Seq<Option<OrnRead>>>,
) -> (bad: bool)
    requires
        base < 65536,
        data@.len() <= isize::MAX,
        orns_match(old(ornaments)@, sp),
        marks_ok(mk0),
    ensures
        stc_orn_fold(data@, base as int, 0, mk0, sp).1 == bad,
        !bad ==> orns_match(final(ornaments)@, stc_orn_fold(data@, base as int, 0, mk0, sp).0),
{
    let ghost target = stc_orn_fold(data@, base as int, 0, mk0, sp);
    let ghost mut cur = sp;
    let mut mk = mk0;
    let mut i: usize = 0;
    while i < 16
        invariant
            i <= 16,
            base < 65536,
            data@.len() <= isize::MAX,
            orns_match(ornaments@, cur),
            stc_orn_fold(data@, base as int, i as int, mk, cur) == target,
            target == stc_orn_fold(data@, base as int, 0, mk0, sp),
            marks_ok(mk),
        decreases 16 - i,
    {
        let off = base + 33 * i;
        if off >= data.len() {
            return false;
        }
        let o = data[off] as usize;
        if o == 0 || o > 15 || !mk.is_orn[o] {
            i = i + 1;
            continue ;
        }
        match orn_loop_info_exec(data, mk.orn2sam[o]) {
            None => {
                return true;
            },
            Some((l, extra)) => {
                mk.is_orn[o] = false;
                let orn = read_ornament(data, off, l, extra);
                proof {
                    cur = cur.update(o as int, Some(stc_ornament(data@, off as int, l as int, extra as int)));
                }
                ornaments[o] = Some(Box::new(orn));
            },
        }
        i = i + 1;
    }
    false
}


/// A three-byte sample tick: byte 0 holds the amplitude (low nibble) and the
/// tone offset's high nibble, byte 2 its low byte, byte 1 bit 5 its sign
/// (clear: down); byte 1 bit 7 clear turns the noise on (its low five bits
/// the signed noise offset) and bit 6 clear the tone.  The envelope is on.
pub open spec fn stc_tick(b0: u8, b1: u8, b2: u8) -> SampleTick {
    let raw = b2 as int + (b0 / 16) as int * 256;
    let noise = b1 & 0x80u8 == 0;
    SampleTick {
        envelope_enabled: true,
        add_to_ton: (if b1 & 0x20u8 == 0 {
            -raw
        } else {
            raw
        }) as i16,
        amplitude: b0 % 16,
        mixer_noise: noise,
        add_to_envelope_or_noise: if noise {
            sfive(b1) as i8
        } else {
            0i8
        },
        mixer_ton: b1 & 0x40u8 == 0,
        ..blank_tick()
    }
}

/// The sample in the entry at `e` (which lies within the data): 32 ticks,
/// its loop count (0: none, giving 33 steps, the last silent, looping on
/// it) and extra length shaping it (see [`loop_shape`]).
pub open spec fn stc_sample(data: Seq<u8>, e: int) -> SamRead {
    let l = data[e + 0x61] as int;
    let (len, lp) = if l == 0 {
        (33int, 32int)
    } else {
        loop_shape(l, data[e + 0x62] as int)
    };
    let base = Seq::new(
        64,
        |q: int|
            if q < 32 {
                stc_tick(data[e + 1 + 3 * q], data[e + 2 + 3 * q], data[e + 3 + 3 * q])
            } else {
                blank_tick()
            },
    );
    let ext = if lp == 32 && len > 33 {
        repeat_loop(base, loop_start(l), 32, len)
    } else {
        base
    };
    (len, lp, if l == 0 {
        ext.update(32, blank_tick())
    } else {
        ext
    })
}

/// The samples read from the fixed table, entries `i` on (while whole
/// entries remain): each entry numbered `n` fills tracker sample `n + 1`,
/// when a pattern uses it, once.
pub open spec fn stc_sam_fold(data: Seq<u8>, i: int, mk: StcMarks, slots: Seq<Option<SamRead>>) -> Seq<
    Option<SamRead>,
>
    decreases 16 - i,
{
    if i >= 16 || i < 0 || STC_SAMPLES_BASE + STC_SAMPLE_ENTRY_SIZE * i + STC_SAMPLE_ENTRY_SIZE > data.len() {
        slots
    } else {
        let e = STC_SAMPLES_BASE + STC_SAMPLE_ENTRY_SIZE * i;
        let v = data[e] as int + 1;
        if v > 16 || !mk.is_sam[v] {
            stc_sam_fold(data, i + 1, mk, slots)
        } else {
            stc_sam_fold(
                data,
                i + 1,
                StcMarks { is_sam: vstd::array::spec_array_update(mk.is_sam, v, false), ..mk },
                slots.update(v, Some(stc_sample(data, e))),
            )
        }
    }
}

pub(crate) fn stc_tick_exec(b0: u8, b1: u8, b2: u8) -> (r: SampleTick)
    ensures
        r == stc_tick(b0, b1, b2),
{
    let raw: i16 = b2 as i16 + (b0 / 16) as i16 * 256;
    let noise = b1 & 0x80 == 0;
    let v = b1 & 0x1F;
    assert(v < 32) by (bit_vector)
        requires
            v == b1 & 0x1F,
    ;
    let five: i8 = if v >= 16 {
        v as i8 - 32
    } else {
        v as i8
    };
    let mut t = SampleTick::default();
    t.envelope_enabled = true;
    t.add_to_ton = if b1 & 0x20 == 0 {
        -raw
    } else {
        raw
    };
    t.amplitude = b0 % 16;
    t.mixer_noise = noise;
    if noise {
        t.add_to_envelope_or_noise = five;
    }
    t.mixer_ton = b1 & 0x40 == 0;
    t
}

/// Read the sample in the entry at `e` (see [`stc_sample`]).
fn read_sample(data: &[u8], e: usize) -> (r: Sample)
    requires
        e + STC_SAMPLE_ENTRY_SIZE <= data@.len(),
        data@.len() <= isize::MAX,
    ensures
        stc_sample(data@, e as int) == (r.length as int, r.loop_pos as int, r.items@),
        r.enabled,
{
    let l = data[e + 0x61] as usize;
    let (len, lp) = if l == 0 {
        (33usize, 32usize)
    } else {
        loop_shape_exec(l, data[e + 0x62] as usize)
    };
    let mut sam = Sample::default();
    let mut q: usize = 0;
    while q < 32
        invariant
            q <= 32,
            e + STC_SAMPLE_ENTRY_SIZE <= data@.len(),
            data@.len() <= isize::MAX,
            sam.items@.len() == 64,
            sam.enabled,
            forall|t: int|
                0 <= t < 64 ==> #[trigger] sam.items@[t] == if t < q {
                    stc_tick(data@[e + 1 + 3 * t], data@[e + 2 + 3 * t], data@[e + 3 + 3 * t])
                } else {
                    blank_tick()
                },
        decreases 32 - q,
    {
        sam.items[q] = stc_tick_exec(data[e + 1 + 3 * q], data[e + 2 + 3 * q], data[e + 3 + 3 * q]);
        q = q + 1;
    }
    let ghost base = sam.items@;
    assert(base =~= Seq::new(
        64,
        |t: int|
            if t < 32 {
                stc_tick(data@[e + 1 + 3 * t], data@[e + 2 + 3 * t], data@[e + 3 + 3 * t])
            } else {
                blank_tick()
            },
    ));
    if lp == 32 && len > 33 {
        let st: usize = if l > 0 {
            (if l - 1 > 31 {
                31
            } else {
                l - 1
            }) + 1
        } else {
            1
        };
        let mut q: usize = 32;
        while q < len
            invariant
                32 <= q <= len,
                len <= 64,
                1 <= st <= 32,
                st == loop_start(l as int),
                sam.items@.len() == 64,
                sam.enabled,
                repeat_loop(sam.items@, st as int, q as int, len as int) == repeat_loop(
                    base,
                    st as int,
                    32,
                    len as int,
                ),
            decreases len - q,
        {
            let v = sam.items[q + st - 33];
            sam.items[q] = v;
            q = q + 1;
        }
    }
    if l == 0 {
        sam.items[32] = SampleTick::default();
    }
    sam.length = len as u8;
    sam.loop_pos = lp as u8;
    sam
}

/// Read the marked samples (see [`stc_sam_fold`]).
fn read_samples(
    data: &[u8],
    mk0: StcMarks,
    samples: &mut [Option<Box<Sample>>; 32],
    Ghost(sp): Ghost<Seq<Option<SamRead>>>,
)
    requires
        data@.len() <= isize::MAX,
        sams_match(old(samples)@, sp),
    ensures
        sams_match(final(samples)@, stc_sam_fold(data@, 0, mk0, sp)),
{
    let ghost target = stc_sam_fold(data@, 0, mk0, sp);
    let ghost mut cur = sp;
    let mut mk = mk0;
    let mut i: usize = 0;
    while i < 16
        invariant
            i <= 16,
            data@.len() <= isize::MAX,
            sams_match(samples@, cur),
            stc_sam_fold(data@, i as int, mk, cur) == target,
            target == stc_sam_fold(data@, 0, mk0, sp),
        decreases 16 - i,
    {
        let e = STC_SAMPLES_BASE + STC_SAMPLE_ENTRY_SIZE * i;
        if e + STC_SAMPLE_ENTRY_SIZE > data.len() {
            return ;
        }
        let v = data[e] as usize + 1;
        if v > 16 || !mk.is_sam[v] {
            i = i + 1;
            continue ;
        }
        mk.is_sam[v] = false;
        let sam = read_sample(data, e);
        proof {
            cur = cur.update(v as int, Some(stc_sample(data@, e as int)));
        }
        samples[v] = Some(Box::new(sam));
        i = i + 1;
    }
}


// ─── Title ───────────────────────────────────────────────────────────────────

/// The names the compilers put into modules by default.
pub open spec fn generic_name(raw: Seq<u8>) -> bool {
    ||| raw == seq![0x53u8, 0x4F, 0x4E, 0x47, 0x20, 0x42, 0x59, 0x20, 0x53, 0x54, 0x20, 0x43, 0x4F, 0x4D, 0x50, 0x49, 0x4C, 0x45]
    ||| raw == seq![0x53u8, 0x4F, 0x4E, 0x47, 0x20, 0x42, 0x59, 0x20, 0x4D, 0x42, 0x20, 0x43, 0x4F, 0x4D, 0x50, 0x49, 0x4C, 0x45]
    ||| raw == seq![0x53u8, 0x4F, 0x4E, 0x47, 0x20, 0x42, 0x59, 0x20, 0x53, 0x54, 0x2D, 0x43, 0x4F, 0x4D, 0x50, 0x49, 0x4C, 0x45]
    ||| raw == seq![0x53u8, 0x4F, 0x55, 0x4E, 0x44, 0x20, 0x54, 0x52, 0x41, 0x43, 0x4B, 0x45, 0x52, 0x20, 0x76, 0x31, 0x2E, 0x31]
    ||| raw == seq![0x53u8, 0x2E, 0x54, 0x2E, 0x46, 0x55, 0x4C, 0x4C, 0x20, 0x45, 0x44, 0x49, 0x54, 0x49, 0x4F, 0x4E, 0x20, 0x20]
    ||| raw == seq![0x53u8, 0x4F, 0x55, 0x4E, 0x44, 0x20, 0x54, 0x52, 0x41, 0x43, 0x4B, 0x45, 0x52, 0x20, 0x76, 0x31, 0x2E, 0x33]
    ||| raw == seq![0x53u8, 0x2E, 0x54, 0x2E, 0x46, 0x55, 0x4C, 0x4C, 0x20, 0x45, 0x44, 0x49, 0x54, 0x49, 0x4F, 0x4E, 0x20, 0x7F]
}

fn eq_bytes(a: &[u8], b: &[u8]) -> (r: bool)
    ensures
        r == (a@ == b@),
{
    if a.len() != b.len() {
        return false;
    }
    let mut i: usize = 0;
    while i < a.len()
        invariant
            a@.len() == b@.len(),
            i <= a@.len(),
            forall|k: int| 0 <= k < i ==> a@[k] == b@[k],
        decreases a.len() - i,
    {
        if a[i] != b[i] {
            return false;
        }
        i = i + 1;
    }
    assert(a@ =~= b@);
    true
}

fn is_generic_name(raw: &[u8]) -> (r: bool)
    ensures
        r == generic_name(raw@),
{
    let g0: [u8; 18] = [0x53, 0x4F, 0x4E, 0x47, 0x20, 0x42, 0x59, 0x20, 0x53, 0x54, 0x20, 0x43, 0x4F, 0x4D, 0x50, 0x49, 0x4C, 0x45];
    assert(g0@ =~= seq![0x53u8, 0x4F, 0x4E, 0x47, 0x20, 0x42, 0x59, 0x20, 0x53, 0x54, 0x20, 0x43, 0x4F, 0x4D, 0x50, 0x49, 0x4C, 0x45]);
    let g1: [u8; 18] = [0x53, 0x4F, 0x4E, 0x47, 0x20, 0x42, 0x59, 0x20, 0x4D, 0x42, 0x20, 0x43, 0x4F, 0x4D, 0x50, 0x49, 0x4C, 0x45];
    assert(g1@ =~= seq![0x53u8, 0x4F, 0x4E, 0x47, 0x20, 0x42, 0x59, 0x20, 0x4D, 0x42, 0x20, 0x43, 0x4F, 0x4D, 0x50, 0x49, 0x4C, 0x45]);
    let g2: [u8; 18] = [0x53, 0x4F, 0x4E, 0x47, 0x20, 0x42, 0x59, 0x20, 0x53, 0x54, 0x2D, 0x43, 0x4F, 0x4D, 0x50, 0x49, 0x4C, 0x45];
    assert(g2@ =~= seq![0x53u8, 0x4F, 0x4E, 0x47, 0x20, 0x42, 0x59, 0x20, 0x53, 0x54, 0x2D, 0x43, 0x4F, 0x4D, 0x50, 0x49, 0x4C, 0x45]);
    let g3: [u8; 18] = [0x53, 0x4F, 0x55, 0x4E, 0x44, 0x20, 0x54, 0x52, 0x41, 0x43, 0x4B, 0x45, 0x52, 0x20, 0x76, 0x31, 0x2E, 0x31];
    assert(g3@ =~= seq![0x53u8, 0x4F, 0x55, 0x4E, 0x44, 0x20, 0x54, 0x52, 0x41, 0x43, 0x4B, 0x45, 0x52, 0x20, 0x76, 0x31, 0x2E, 0x31]);
    let g4: [u8; 18] = [0x53, 0x2E, 0x54, 0x2E, 0x46, 0x55, 0x4C, 0x4C, 0x20, 0x45, 0x44, 0x49, 0x54, 0x49, 0x4F, 0x4E, 0x20, 0x20];
    assert(g4@ =~= seq![0x53u8, 0x2E, 0x54, 0x2E, 0x46, 0x55, 0x4C, 0x4C, 0x20, 0x45, 0x44, 0x49, 0x54, 0x49, 0x4F, 0x4E, 0x20, 0x20]);
    let g5: [u8; 18] = [0x53, 0x4F, 0x55, 0x4E, 0x44, 0x20, 0x54, 0x52, 0x41, 0x43, 0x4B, 0x45, 0x52, 0x20, 0x76, 0x31, 0x2E, 0x33];
    assert(g5@ =~= seq![0x53u8, 0x4F, 0x55, 0x4E, 0x44, 0x20, 0x54, 0x52, 0x41, 0x43, 0x4B, 0x45, 0x52, 0x20, 0x76, 0x31, 0x2E, 0x33]);
    let g6: [u8; 18] = [0x53, 0x2E, 0x54, 0x2E, 0x46, 0x55, 0x4C, 0x4C, 0x20, 0x45, 0x44, 0x49, 0x54, 0x49, 0x4F, 0x4E, 0x20, 0x7F];
    assert(g6@ =~= seq![0x53u8, 0x2E, 0x54, 0x2E, 0x46, 0x55, 0x4C, 0x4C, 0x20, 0x45, 0x44, 0x49, 0x54, 0x49, 0x4F, 0x4E, 0x20, 0x7F]);
    eq_bytes(raw, &g0) || eq_bytes(raw, &g1) || eq_bytes(raw, &g2) || eq_bytes(raw, &g3) || eq_bytes(raw, &g4) || eq_bytes(raw, &g5) || eq_bytes(raw, &g6)
}

/// What `str::trim_end` gives for `s`: `s` without its trailing white space
/// (see [`crate::formats::is_white_space`]).
pub open spec fn ws_trimmed(s: Seq<char>) -> Seq<char> {
    crate::formats::trim_end_chars(s)
}

/// `s.trim_end()`, owned.  The contract states what std documents: the
/// result is `s` without its trailing Unicode white space (see
/// [`ws_trimmed`]), and a string that is empty or ends in a printable ASCII
/// character other than the space is kept whole.
#[verifier::external_body]
fn trim_end_owned(s: &str) -> (r: String)
    ensures
        r@ == ws_trimmed(s@),
        (s@.len() == 0 || (0x21 <= s@.last() as int <= 0x7E)) ==> r@ == s@,
{
    s.trim_end().to_string()
}

/// The title of an STC file: empty for a compiler's default name; otherwise
/// the name without trailing spaces and controls, followed by the size
/// word's low and then high byte as characters when the size word differs
/// from the file's size and they are in 32..127 (the high byte only after
/// the low one), and trailing white space trimmed.
pub open spec fn stc_title(data: Seq<u8>) -> Seq<char> {
    let raw = data.subrange(STC_OFF_NAME as int, STC_OFF_NAME + 18);
    if generic_name(raw) {
        Seq::empty()
    } else {
        let t0 = crate::formats::utf8_lossy(trim_end(raw));
        let st = word_at(data, STC_OFF_SIZE as int);
        let lo = st % 256;
        let hi = st / 256;
        let t1 = if st != data.len() && 32 <= lo <= 127 {
            if 32 <= hi <= 127 {
                t0.push(lo as char).push(hi as char)
            } else {
                t0.push(lo as char)
            }
        } else {
            t0
        };
        ws_trimmed(t1)
    }
}

fn read_title(data: &[u8]) -> (r: String)
    requires
        data@.len() >= STC_MIN_FILE_SIZE,
        data@.len() <= isize::MAX,
    ensures
        r@ == stc_title(data@),
{
    let raw = vstd::slice::slice_subrange(data, STC_OFF_NAME, STC_OFF_NAME + 18);
    if is_generic_name(raw) {
        let e = String::new();
        assert(e@ =~= Seq::<char>::empty());
        return e;
    }
    let mut title = trim_right_ascii(raw);
    let st = word_at_exec(data, STC_OFF_SIZE);
    if st != data.len() {
        let lo = (st % 256) as u8;
        if 32 <= lo && lo <= 127 {
            crate::util::push_char(&mut title, lo as char);
            let hi = (st / 256) as u8;
            if 32 <= hi && hi <= 127 {
                crate::util::push_char(&mut title, hi as char);
            }
        }
    }
    trim_end_owned(title.as_str())
}


// ─── The module ──────────────────────────────────────────────────────────────

/// Nothing marked.
pub open spec fn no_marks() -> StcMarks {
    StcMarks {
        is_orn: [false, false, false, false, false, false, false, false, false, false, false, false, false, false, false, false],
        is_sam: [
            false, false, false, false, false, false, false, false, false, false, false, false, false, false, false, false, false,
        ],
        orn2sam: [0u8, 0, 0, 0, 0, 0, 0, 0, 0, 0, 0, 0, 0, 0, 0, 0],
    }
}

/// The position walk over the whole file (see [`stc_walk`]); it only runs
/// when the position list starts within the data.
pub open spec fn stc_song(data: Seq<u8>) -> (int, Seq<usize>, Seq<PatRead>, StcMarks, bool) {
    let pos_ptr = word_at(data, STC_OFF_POS_PTR as int);
    stc_walk(
        data,
        pos_ptr,
        word_at(data, STC_OFF_PAT_PTR as int),
        data[pos_ptr] as int,
        0,
        Seq::new(256, |i: int| 0usize),
        no_reads(),
        Seq::empty(),
        stc_chan0(),
        stc_chan0(),
        stc_chan0(),
        no_marks(),
    )
}

/// The ornaments read after the walk (see [`stc_orn_fold`]).
pub open spec fn stc_orns(data: Seq<u8>) -> (Seq<Option<OrnRead>>, bool) {
    stc_orn_fold(data, word_at(data, STC_OFF_ORN_PTR as int), 0, stc_song(data).3, start_orn_slots())
}

/// The error an STC file (at least the header long) is refused with, when
/// its position list lies within the data: a pattern holding a byte
/// 0x8F..0xA0, which no command has, or an ornament whose loop data lies
/// past the end of the data.
pub open spec fn stc_error(data: Seq<u8>) -> Option<FormatError> {
    if word_at(data, STC_OFF_POS_PTR as int) >= data.len() {
        None
    } else if stc_song(data).4 {
        Some(FormatError::UnknownCommand)
    } else if stc_orns(data).1 {
        Some(FormatError::Truncated)
    } else {
        None
    }
}

/// `m` is the module the STC file `data` describes: tone table 1, its
/// delay and title; when its position list starts within the data, the
/// positions and patterns of the walk and the ornaments and samples the
/// patterns use; otherwise no positions.
pub open spec fn stc_module(data: Seq<u8>, m: Module) -> bool {
    &&& stc_module_body(data, m)
    &&& m.title@ == stc_title(data)
    &&& m.author@ == Seq::<char>::empty()
}

/// Everything of [`stc_module`] but the title and author.
pub open spec fn stc_module_body(data: Seq<u8>, m: Module) -> bool {
    let pos_ptr = word_at(data, STC_OFF_POS_PTR as int);
    let (n, values, pats, mk, bad) = stc_song(data);
    &&& m.wf()
    &&& m.features_level == FeaturesLevel::Pt35
    &&& !m.vortex_module_header
    &&& m.ton_table == 1
    &&& m.initial_delay == data[STC_OFF_DELAY as int]
    &&& m.positions.loop_pos == 0
    &&& forall|c: int|
        0 <= c < 3 ==> #[trigger] m.is_chans[c] == (crate::types::ChannelState {
            global_ton: true,
            global_noise: true,
            global_envelope: true,
            envelope_enabled: false,
            ornament: 0,
            sample: 1,
            volume: 15,
        })
    &&& if pos_ptr >= data.len() {
        &&& m.positions.length == 0
        &&& m.positions.value@ == Seq::new(256, |i: int| 0usize)
        &&& pats_match(m.patterns@, no_reads())
        &&& orns_match(m.ornaments@, start_orn_slots())
        &&& sams_match(m.samples@, Seq::new(32, |v: int| None))
    } else {
        &&& m.positions.length == n
        &&& m.positions.value@ == values
        &&& pats_match(m.patterns@, pats)
        &&& orns_match(m.ornaments@, stc_orns(data).0)
        &&& sams_match(m.samples@, stc_sam_fold(data, 0, mk, Seq::new(32, |v: int| None)))
    }
}

/// What reading the STC file `data` gives: too short files are refused,
/// otherwise the module [`stc_module`] describes.
pub open spec fn parse_outcome(data: Seq<u8>, r: Result<Module, FormatError>) -> bool {
    &&& data.len() < STC_MIN_FILE_SIZE ==> r == Err::<Module, FormatError>(FormatError::TooShort)
    &&& data.len() >= STC_MIN_FILE_SIZE ==> match stc_error(data) {
        Some(e) => r == Err::<Module, FormatError>(e),
        None => r matches Ok(m) && stc_module(data, m),
    }
}

fn read_module(data: &[u8]) -> (r: Result<Module, FormatError>)
    requires
        data@.len() >= STC_MIN_FILE_SIZE,
        data@.len() <= isize::MAX,
    ensures
        match stc_error(data@) {
            Some(e) => r == Err::<Module, FormatError>(e),
            None => r matches Ok(m) && stc_module(data@, m),
        },
{
    let mut module = Module::default();
    module.features_level = FeaturesLevel::Pt35;
    module.vortex_module_header = false;
    module.ton_table = 1;
    module.title = read_title(data);
    assert(module.author@ =~= Seq::<char>::empty());
    module.initial_delay = data[STC_OFF_DELAY];
    let pos_ptr = word_at_exec(data, STC_OFF_POS_PTR);
    let orn_ptr = word_at_exec(data, STC_OFF_ORN_PTR);
    let pat_ptr = word_at_exec(data, STC_OFF_PAT_PTR);
    assert(module.positions.value@ =~= Seq::new(256, |i: int| 0usize));
    assert(pats_match(module.patterns@, no_reads()));
    assert(module.ornaments[0] matches Some(o) && o.items@ =~= crate::formats::asc::zero_offsets());
    assert(orns_match(module.ornaments@, start_orn_slots()));
    assert(sams_match(module.samples@, Seq::new(32, |v: int| None)));
    if pos_ptr >= data.len() {
        return Ok(module);
    }
    let mk0 = StcMarks { is_orn: [false; 16], is_sam: [false; 17], orn2sam: [0u8; 16] };
    assert(mk0.is_orn =~= no_marks().is_orn);
    assert(mk0.is_sam =~= no_marks().is_sam);
    assert(mk0.orn2sam =~= no_marks().orn2sam);
    let (n, mk, bad) = read_positions(data, pos_ptr, pat_ptr, &mut module.positions.value, &mut module.patterns, mk0);
    assert(stc_chan0() == StcChan { ptr: 0, skip: 0, skip_ctr: 0, c_sam: 0, c_orn: 0 });
    if bad {
        return Err(FormatError::UnknownCommand);
    }
    module.positions.length = n;
    let bad2 = read_ornaments(data, orn_ptr, mk, &mut module.ornaments, Ghost(start_orn_slots()));
    if bad2 {
        return Err(FormatError::Truncated);
    }
    read_samples(data, mk, &mut module.samples, Ghost(Seq::new(32, |v: int| None)));
    Ok(module)
}

/// Parse an STC file.  Files shorter than the header and one sample entry
/// are refused, and so are files with a pattern byte no command has or an
/// ornament loop past the data (see [`stc_error`]); otherwise the module is
/// the one [`stc_module`] describes.
pub fn parse(data: &[u8]) -> (r: Result<Module, FormatError>)
    requires
        data@.len() <= isize::MAX,
    ensures
        parse_outcome(data@, r),
{
    if data.len() < STC_MIN_FILE_SIZE {
        return Err(FormatError::TooShort);
    }
    read_module(data)
}

/// The fields of an STC sample tick by the bits of its bytes: the amplitude
/// is the low nibble of byte 0; the tone offset's magnitude is byte 2 plus
/// 256 times byte 0's high nibble, negative when bit 5 of byte 1 is clear;
/// bit 7 of byte 1 clear turns the noise on, its low five bits then the
/// signed noise offset; bit 6 clear turns the tone on; the envelope is on.
pub proof fn lemma_stc_tick_bits(b0: u8, b1: u8, b2: u8)
    ensures
        ({
            let t = stc_tick(b0, b1, b2);
            let mag = b2 as int + (b0 as int / 16) * 256;
            let noise = (b1 as int / 128) % 2 == 0;
            &&& t.amplitude as int == b0 as int % 16
            &&& t.envelope_enabled
            &&& t.add_to_ton as int == if (b1 as int / 32) % 2 == 0 { -mag } else { mag }
            &&& t.mixer_noise == noise
            &&& t.mixer_ton == ((b1 as int / 64) % 2 == 0)
            &&& t.add_to_envelope_or_noise as int == if noise { crate::formats::asc::signed5(b1 as int) } else { 0 }
        }),
{
    assert((b1 & 0x80u8 == 0) == ((b1 / 128) % 2 == 0) && (b1 & 0x40u8 == 0) == ((b1 / 64) % 2 == 0) && (b1
        & 0x20u8 == 0) == ((b1 / 32) % 2 == 0) && b1 & 0x1Fu8 == b1 % 32) by (bit_vector);
}

/// The bytes of an STC channel's row, one at a time: a byte up to 0x5F ends
/// the row with that note moved by the transposition (kept within the 96
/// notes); 0x80 ends it with the sound off, 0x81 leaving the note; 0x60..0x6F
/// choose samples 1..16 and 0x70..0x7F ornaments 0..15, and reading goes on.
pub proof fn lemma_stc_row_bytes(data: Seq<u8>, c: StcChan, trans: int, cl: ChannelLine, env: u16, mk: StcMarks)
    requires
        c.ptr < data.len() < usize::MAX - 4,
    ensures
        ({
            let b = data[c.ptr as int];
            let r = stc_interp(data, c, trans, cl, env, mk);
            &&& b <= 0x5F ==> r.1 == (ChannelLine {
                note: (if b as int + trans > 95 { 95 } else if b as int + trans < 0 { 0 } else { b as int + trans }) as i8,
                ..cl
            }) && r.0.ptr == c.ptr + 1
            &&& b == 0x80 ==> r.1 == (ChannelLine { note: crate::types::NOTE_SOUND_OFF, ..cl }) && r.0.ptr == c.ptr + 1
            &&& b == 0x81 ==> r.1 == cl && r.0.ptr == c.ptr + 1
            &&& 0x60 <= b <= 0x6F ==> r == stc_interp(
                data,
                StcChan { ptr: (c.ptr + 1) as usize, c_sam: (b - 0x5F) as u8, ..c },
                trans,
                ChannelLine { sample: (b - 0x5F) as u8, ..cl },
                env,
                StcMarks { is_sam: vstd::array::spec_array_update(mk.is_sam, b - 0x5F, true), ..mk },
            )
            &&& 0x70 <= b <= 0x7F ==> r == stc_interp(
                data,
                StcChan { ptr: (c.ptr + 1) as usize, c_orn: (b - 0x70) as u8, ..c },
                trans,
                ChannelLine { ornament: (b - 0x70) as u8, envelope: 15, ..cl },
                env,
                StcMarks { is_orn: vstd::array::spec_array_update(mk.is_orn, b - 0x70, true), ..mk },
            )
        }),
{
}

} // verus!
