//! Pro Tracker 2 (`*.pt2`) binary module files: reader.
use crate::formats::asc::{
    byte_or, no_reads, orns_match, pats_match, sams_match, sfive, start_orn_slots, word_at, OrnRead,
    PatRead, SamRead,
};
use crate::formats::pt3::{empty_rows, trim_end, trim_right_ascii};
use crate::formats::FormatError;
use crate::types::{
    blank_tick, AdditionalCommand, ChannelLine, FeaturesLevel, Module, Ornament, Pattern, PatternRow, Sample,
    SampleTick, MAX_NUM_OF_PATS, NOTE_SOUND_OFF,
};
use vstd::prelude::*;

verus! {

/// Initial delay.
pub const PT2_OFF_DELAY: usize = 0;
/// Loop position.
pub const PT2_OFF_LOOP_POS: usize = 2;
/// Sample offsets: 32 words (samples 1..31 used).
pub const PT2_OFF_SAM_PTRS: usize = 3;
/// Ornament offsets: 16 words (ornaments 1..15 used).
pub const PT2_OFF_ORN_PTRS: usize = 67;
/// Word: offset of the pattern table.
pub const PT2_OFF_PAT_PTR: usize = 99;
/// The 30-byte name.
pub const PT2_OFF_TITLE: usize = 101;
/// The position list: a pattern number per byte, ended by a byte of 128 or
/// more.
pub const PT2_OFF_POS_LIST: usize = 131;
/// Smallest PT2 file: the header and one position.
pub const PT2_MIN_FILE_SIZE: usize = 132;

// ─── Channel commands ────────────────────────────────────────────────────────

/// One channel's reading state within a pattern: stream position, skip and
/// skip counter, and the ornament last chosen.
#[derive(Clone, Copy, PartialEq, Eq, Structural)]
pub struct Pt2Chan {
    pub ptr: usize,
    pub skip: i8,
    pub skip_ctr: i8,
    pub prev_orn: u8,
}

/// Between rows the channel state is in range.
pub open spec fn pt2_chan_ok(c: Pt2Chan) -> bool {
    0 <= c.skip <= 63 && 0 <= c.skip_ctr <= 63 && c.prev_orn <= 15 && c.ptr < usize::MAX - 4
}

/// A glide or slide amount: the byte read as signed, its magnitude.
pub open spec fn magnitude(raw: u8) -> u8 {
    if raw < 128 {
        raw
    } else {
        (256 - raw) as u8
    }
}

/// One channel's commands for one row, read until a note, sound-off or
/// end-of-row byte or the end of the data.  Gives the channel, cell, row
/// envelope period and the pattern's noise after.
pub open spec fn pt2_interp(data: Seq<u8>, c: Pt2Chan, cl: ChannelLine, env: u16, ns: u8) -> (
    Pt2Chan,
    ChannelLine,
    u16,
    u8,
)
    decreases data.len() + 4 - c.ptr,
{
    if c.ptr >= data.len() || data.len() >= usize::MAX - 8 {
        (c, cl, env, ns)
    } else {
        let b = data[c.ptr as int];
        let p = c.ptr + 1;
        let c1 = Pt2Chan { ptr: p as usize, ..c };
        let ac = cl.additional_command;
        if b >= 0xE1 {
            pt2_interp(data, c1, ChannelLine { sample: (b - 0xE0) as u8, ..cl }, env, ns)
        } else if b == 0xE0 {
            (c1, ChannelLine { note: NOTE_SOUND_OFF, ..cl }, env, ns)
        } else if b >= 0x80 {
            (c1, ChannelLine { note: (b - 0x80) as i8, ..cl }, env, ns)
        } else if b == 0x7F {
            pt2_interp(data, c1, ChannelLine { envelope: 15, ornament: c.prev_orn, ..cl }, env, ns)
        } else if b >= 0x71 {
            let cl2 = ChannelLine { envelope: (b - 0x70) as u8, ornament: c.prev_orn, ..cl };
            if p + 1 < data.len() {
                pt2_interp(data, Pt2Chan { ptr: (p + 2) as usize, ..c }, cl2, word_at(data, p) as u16, ns)
            } else {
                pt2_interp(data, Pt2Chan { ptr: (p + 1) as usize, ..c }, cl2, env, ns)
            }
        } else if b == 0x70 {
            (c1, cl, env, ns)
        } else if b >= 0x60 {
            let o = (b - 0x60) as u8;
            pt2_interp(
                data,
                Pt2Chan { prev_orn: o, ..c1 },
                ChannelLine {
                    ornament: o,
                    envelope: if cl.envelope == 0 {
                        15
                    } else {
                        cl.envelope
                    },
                    ..cl
                },
                env,
                ns,
            )
        } else if b >= 0x20 {
            pt2_interp(data, Pt2Chan { skip: (b - 0x20) as i8, ..c1 }, cl, env, ns)
        } else if b >= 0x10 {
            pt2_interp(data, c1, ChannelLine { volume: (b - 0x10) as u8, ..cl }, env, ns)
        } else if b == 0x0F {
            pt2_interp(
                data,
                Pt2Chan { ptr: (p + 1) as usize, ..c },
                ChannelLine {
                    additional_command: AdditionalCommand { number: 11, parameter: byte_or(data, p, 0), ..ac },
                    ..cl
                },
                env,
                ns,
            )
        } else if b == 0x0E {
            let raw = byte_or(data, p, 0);
            pt2_interp(
                data,
                Pt2Chan { ptr: (p + 1) as usize, ..c },
                ChannelLine {
                    additional_command: AdditionalCommand {
                        number: if raw < 128 {
                            1
                        } else {
                            2
                        },
                        delay: 1,
                        parameter: magnitude(raw),
                    },
                    ..cl
                },
                env,
                ns,
            )
        } else if b == 0x0D {
            pt2_interp(
                data,
                Pt2Chan { ptr: (p + 3) as usize, ..c },
                ChannelLine {
                    additional_command: AdditionalCommand {
                        number: 3,
                        delay: 1,
                        parameter: magnitude(byte_or(data, p, 0)),
                    },
                    ..cl
                },
                env,
                ns,
            )
        } else if b == 0x0C {
            pt2_interp(
                data,
                c1,
                ChannelLine { additional_command: AdditionalCommand { number: 1, delay: 0, parameter: 0 }, ..cl },
                env,
                ns,
            )
        } else {
            pt2_interp(data, Pt2Chan { ptr: (p + 1) as usize, ..c }, cl, env, byte_or(data, p, 0))
        }
    }
}

fn get_or(data: &[u8], i: usize, dflt: u8) -> (r: u8)
    ensures
        r == byte_or(data@, i as int, dflt),
{
    if i < data.len() {
        data[i]
    } else {
        dflt
    }
}

fn word_at_exec(data: &[u8], off: usize) -> (r: usize)
    requires
        off < usize::MAX,
    ensures
        r == word_at(data@, off as int),
        r < 65536,
{
    let lo = get_or(data, off, 0) as usize;
    let hi = get_or(data, off + 1, 0) as usize;
    lo + hi * 256
}

fn magnitude_exec(raw: u8) -> (r: u8)
    ensures
        r == magnitude(raw),
{
    if raw < 128 {
        raw
    } else {
        (256 - raw as u16) as u8
    }
}

fn pt2_interp_exec(data: &[u8], c0: Pt2Chan, cl0: ChannelLine, env0: u16, ns0: u8) -> (r: (
    Pt2Chan,
    ChannelLine,
    u16,
    u8,
))
    requires
        0 <= c0.skip <= 63,
        c0.prev_orn <= 15,
        c0.ptr < usize::MAX - 4,
        data@.len() < usize::MAX - 8,
    ensures
        r == pt2_interp(data@, c0, cl0, env0, ns0),
        0 <= r.0.skip <= 63,
        r.0.prev_orn <= 15,
        r.0.skip_ctr == c0.skip_ctr,
        r.0.ptr < usize::MAX - 4,
{
    let ghost target = pt2_interp(data@, c0, cl0, env0, ns0);
    let mut c = c0;
    let mut cl = cl0;
    let mut env = env0;
    let mut ns = ns0;
    loop
        invariant_except_break
            pt2_interp(data@, c, cl, env, ns) == target,
        invariant
            0 <= c.skip <= 63,
            c.prev_orn <= 15,
            c.skip_ctr == c0.skip_ctr,
            data@.len() < usize::MAX - 8,
            c.ptr < usize::MAX - 4,
        ensures
            target == (c, cl, env, ns),
        decreases data@.len() + 4 - c.ptr,
    {
        if c.ptr >= data.len() {
            break ;
        }
        let b = data[c.ptr];
        let p = c.ptr + 1;
        if b >= 0xE1 {
            c.ptr = p;
            cl.sample = b - 0xE0;
        } else if b == 0xE0 {
            c.ptr = p;
            cl.note = NOTE_SOUND_OFF;
            break ;
        } else if b >= 0x80 {
            c.ptr = p;
            cl.note = (b - 0x80) as i8;
            break ;
        } else if b == 0x7F {
            c.ptr = p;
            cl.envelope = 15;
            cl.ornament = c.prev_orn;
        } else if b >= 0x71 {
            cl.envelope = b - 0x70;
            cl.ornament = c.prev_orn;
            if p + 1 < data.len() {
                env = word_at_exec(data, p) as u16;
                c.ptr = p + 2;
            } else {
                c.ptr = p + 1;
            }
        } else if b == 0x70 {
            c.ptr = p;
            break ;
        } else if b >= 0x60 {
            let o = b - 0x60;
            c.ptr = p;
            c.prev_orn = o;
            cl.ornament = o;
            if cl.envelope == 0 {
                cl.envelope = 15;
            }
        } else if b >= 0x20 {
            c.ptr = p;
            c.skip = (b - 0x20) as i8;
        } else if b >= 0x10 {
            c.ptr = p;
            cl.volume = b - 0x10;
        } else if b == 0x0F {
            cl.additional_command.number = 11;
            cl.additional_command.parameter = get_or(data, p, 0);
            c.ptr = p + 1;
        } else if b == 0x0E {
            let raw = get_or(data, p, 0);
            cl.additional_command.delay = 1;
            cl.additional_command.number = if raw < 128 {
                1
            } else {
                2
            };
            cl.additional_command.parameter = magnitude_exec(raw);
            c.ptr = p + 1;
        } else if b == 0x0D {
            cl.additional_command.delay = 1;
            cl.additional_command.number = 3;
            cl.additional_command.parameter = magnitude_exec(get_or(data, p, 0));
            c.ptr = p + 3;
        } else if b == 0x0C {
            c.ptr = p;
            cl.additional_command.delay = 0;
            cl.additional_command.number = 1;
            cl.additional_command.parameter = 0;
        } else {
            ns = get_or(data, p, 0);
            c.ptr = p + 1;
        }
    }
    (c, cl, env, ns)
}

/// One channel's turn in a row: while its skip counter runs it rests; when
/// due it reads its commands into cell `k` of `row` and restarts the counter
/// at its skip.
pub open spec fn pt2_turn(data: Seq<u8>, c: Pt2Chan, row: PatternRow, k: int, ns: u8) -> (Pt2Chan, PatternRow, u8) {
    let sc = (c.skip_ctr - 1) as i8;
    if sc >= 0 {
        (Pt2Chan { skip_ctr: sc, ..c }, row, ns)
    } else {
        let r = pt2_interp(data, Pt2Chan { skip_ctr: sc, ..c }, row.channel[k], row.envelope, ns);
        (
            Pt2Chan { skip_ctr: r.0.skip, ..r.0 },
            PatternRow { channel: vstd::array::spec_array_update(row.channel, k, r.1), envelope: r.2, ..row },
            r.3,
        )
    }
}

fn pt2_turn_exec(data: &[u8], c: Pt2Chan, row: PatternRow, k: usize, ns: u8) -> (r: (Pt2Chan, PatternRow, u8))
    requires
        k < 3,
        pt2_chan_ok(c),
        data@.len() < usize::MAX - 8,
    ensures
        r == pt2_turn(data@, c, row, k as int, ns),
        pt2_chan_ok(r.0),
{
    let sc = c.skip_ctr - 1;
    if sc >= 0 {
        (Pt2Chan { skip_ctr: sc, ..c }, row, ns)
    } else {
        let (c2, cell, env, ns2) = pt2_interp_exec(data, Pt2Chan { skip_ctr: sc, ..c }, row.channel[k], row.envelope, ns);
        let mut row2 = row;
        row2.channel[k] = cell;
        row2.envelope = env;
        assert(row2.channel =~= vstd::array::spec_array_update(row.channel, k as int, cell));
        (Pt2Chan { skip_ctr: c2.skip, ..c2 }, row2, ns2)
    }
}


/// The rows of a pattern from row `i` on: its length and rows.  Channel A
/// ends the pattern when it is due and its next byte is 0 (or the data has
/// ended); each row takes the noise value in force after it.
pub open spec fn pt2_rows(data: Seq<u8>, a: Pt2Chan, b: Pt2Chan, c: Pt2Chan, ns: u8, i: int, items: Seq<PatternRow>) -> (
    int,
    Seq<PatternRow>,
)
    decreases 256 - i,
{
    if i >= 256 || i < 0 {
        (i, items)
    } else if a.skip_ctr - 1 < 0 && byte_or(data, a.ptr as int, 0) == 0 {
        (i, items)
    } else {
        let (a2, r1, ns1) = pt2_turn(data, a, items[i], 0, ns);
        let (b2, r2, ns2) = pt2_turn(data, b, r1, 1, ns1);
        let (c2, r3, ns3) = pt2_turn(data, c, r2, 2, ns2);
        pt2_rows(data, a2, b2, c2, ns3, i + 1, items.update(i, PatternRow { noise: ns3, ..r3 }))
    }
}

/// A channel starting a pattern at `ptr`.
pub open spec fn pt2_start(ptr: int) -> Pt2Chan {
    Pt2Chan { ptr: ptr as usize, skip: 0, skip_ctr: 0, prev_orn: 0 }
}

/// Pattern `j` of the table at `base` (three words per pattern): a blank
/// default pattern when its entry runs past the data, else its rows (see
/// [`pt2_rows`]).
pub open spec fn pt2_pattern(data: Seq<u8>, base: int, j: int) -> (int, Seq<PatternRow>) {
    let t = base + 6 * j;
    if t + 6 > data.len() {
        (64, empty_rows())
    } else {
        pt2_rows(
            data,
            pt2_start(word_at(data, t)),
            pt2_start(word_at(data, t + 2)),
            pt2_start(word_at(data, t + 4)),
            0,
            0,
            empty_rows(),
        )
    }
}

/// Read pattern `j` (see [`pt2_pattern`]).
fn decode_pattern(data: &[u8], base: usize, j: usize) -> (r: Pattern)
    requires
        j <= 255,
        base < 65536,
        data@.len() <= isize::MAX,
    ensures
        pt2_pattern(data@, base as int, j as int) == (r.length as int, r.items@),
        r.length <= 256,
{
    let t = base + 6 * j;
    let mut pattern = Pattern::default();
    assert(pattern.items@ =~= empty_rows());
    if t + 6 > data.len() {
        return pattern;
    }
    let mut a = Pt2Chan { ptr: word_at_exec(data, t), skip: 0, skip_ctr: 0, prev_orn: 0 };
    let mut b = Pt2Chan { ptr: word_at_exec(data, t + 2), ..a };
    let mut c = Pt2Chan { ptr: word_at_exec(data, t + 4), ..a };
    let mut ns: u8 = 0;
    let ghost target = pt2_rows(data@, a, b, c, ns, 0, pattern.items@);
    let mut i: usize = 0;
    while i < 256
        invariant
            i <= 256,
            data@.len() <= isize::MAX,
            pt2_chan_ok(a),
            pt2_chan_ok(b),
            pt2_chan_ok(c),
            pt2_rows(data@, a, b, c, ns, i as int, pattern.items@) == target,
        ensures
            target == (i as int, pattern.items@),
        decreases 256 - i,
    {
        if a.skip_ctr - 1 < 0 && get_or(data, a.ptr, 0) == 0 {
            break ;
        }
        let row = pattern.items[i];
        let (a2, r1, ns1) = pt2_turn_exec(data, a, row, 0, ns);
        let (b2, r2, ns2) = pt2_turn_exec(data, b, r1, 1, ns1);
        let (c2, r3, ns3) = pt2_turn_exec(data, c, r2, 2, ns2);
        pattern.items[i] = PatternRow { noise: ns3, ..r3 };
        a = a2;
        b = b2;
        c = c2;
        ns = ns3;
        i = i + 1;
    }
    pattern.length = i;
    pattern
}

// ─── Positions ───────────────────────────────────────────────────────────────

/// The positions from `pos` on, up to a byte of 128 or more, 256 positions
/// or the end of the data: each names a pattern, read the first time a
/// position names it (see [`pt2_pattern`]).  Gives the number of positions,
/// their list, the patterns, and whether a position names a pattern past
/// the last pattern slot (then the walk stops there).
pub open spec fn pt2_walk(data: Seq<u8>, base: int, pos: int, values: Seq<usize>, pats: Seq<PatRead>) -> (
    int,
    Seq<usize>,
    Seq<PatRead>,
    bool,
)
    decreases 256 - pos,
{
    if pos >= 256 || pos < 0 || PT2_OFF_POS_LIST + pos >= data.len() || data[PT2_OFF_POS_LIST + pos] >= 128 {
        (pos, values, pats, false)
    } else {
        let j = data[PT2_OFF_POS_LIST + pos] as int;
        if j > MAX_NUM_OF_PATS {
            (pos, values, pats, true)
        } else {
            let v2 = values.update(pos, j as usize);
            if pats[j] is Some {
                pt2_walk(data, base, pos + 1, v2, pats)
            } else {
                pt2_walk(data, base, pos + 1, v2, pats.update(j, Some(pt2_pattern(data, base, j))))
            }
        }
    }
}

/// Walk the positions (see [`pt2_walk`]) into `values` and `patterns`.
fn read_positions(data: &[u8], base: usize, values: &mut [usize; 256], patterns: &mut Vec<Option<Box<Pattern>>>) -> (r: (
    usize,
    bool,
))
    requires
        base < 65536,
        data@.len() <= isize::MAX,
        pats_match(old(patterns)@, no_reads()),
    ensures
        ({
            let w = pt2_walk(data@, base as int, 0, old(values)@, no_reads());
            &&& w.0 == r.0
            &&& w.1 == final(values)@
            &&& pats_match(final(patterns)@, w.2)
            &&& w.3 == r.1
        }),
        final(patterns)@.len() == old(patterns)@.len(),
        r.0 <= 256,
{
    let ghost target = pt2_walk(data@, base as int, 0, values@, no_reads());
    let ghost mut sp = no_reads();
    let mut pos: usize = 0;
    let mut bad = false;
    while pos < 256
        invariant_except_break
            pt2_walk(data@, base as int, pos as int, values@, sp) == target,
            !bad,
        invariant
            pos <= 256,
            base < 65536,
            data@.len() <= isize::MAX,
            pats_match(patterns@, sp),
            sp.len() == MAX_NUM_OF_PATS + 1,
            patterns@.len() == MAX_NUM_OF_PATS + 1,
        ensures
            target == (pos as int, values@, sp, bad),
        decreases 256 - pos,
    {
        let off = PT2_OFF_POS_LIST + pos;
        if off >= data.len() {
            break ;
        }
        let j = data[off] as usize;
        if j >= 128 {
            break ;
        }
        if j > MAX_NUM_OF_PATS {
            bad = true;
            break ;
        }
        values[pos] = j;
        pos = pos + 1;
        if patterns[j].is_none() {
            let pat = decode_pattern(data, base, j);
            proof {
                sp = sp.update(j as int, Some((pat.length as int, pat.items@)));
            }
            patterns.set(j, Some(Box::new(pat)));
        }
    }
    (pos, bad)
}

// ─── Ornaments and samples ───────────────────────────────────────────────────

/// Where the data of the ornament or sample whose table word is at `w`
/// starts: the word is not 0 and the first two bytes lie within the data.
pub open spec fn pt2_at(data: Seq<u8>, w: int) -> Option<int> {
    let p = word_at(data, w);
    if p != 0 && p + 1 < data.len() {
        Some(p)
    } else {
        None
    }
}

/// The ornament at `p`: length byte (0 read as 255), loop byte (kept within
/// the length), then one signed offset per step (bytes past the end read as
/// 0).
pub open spec fn pt2_ornament(data: Seq<u8>, p: int) -> OrnRead {
    let l = data[p] as int;
    let len = if l == 0 {
        255
    } else {
        l
    };
    let lp = data[p + 1] as int;
    (len, if lp >= len {
        len - 1
    } else {
        lp
    }, Seq::new(255, |q: int| if q < len {
        byte_or(data, p + 2 + q, 0) as i8
    } else {
        0i8
    }))
}

/// The ornament slots: slot 0 the single zero offset, each slot 1..15 whose
/// table word points within the data its ornament.
pub open spec fn pt2_orn_slots(data: Seq<u8>) -> Seq<Option<OrnRead>> {
    Seq::new(16, |i: int| if i == 0 {
        start_orn_slots()[0]
    } else if pt2_at(data, PT2_OFF_ORN_PTRS + 2 * i) is Some {
        Some(pt2_ornament(data, pt2_at(data, PT2_OFF_ORN_PTRS + 2 * i)->0))
    } else {
        None
    })
}

/// Read the ornament at `p` (see [`pt2_ornament`]).
fn read_ornament(data: &[u8], p: usize) -> (r: Ornament)
    requires
        p + 1 < data@.len(),
        p < 65536,
    ensures
        pt2_ornament(data@, p as int) == (r.length as int, r.loop_pos as int, r.items@),
{
    let l = data[p] as usize;
    let len: usize = if l == 0 {
        255
    } else {
        l
    };
    let ghost want = pt2_ornament(data@, p as int).2;
    let mut orn = Ornament::default();
    let mut k: usize = 0;
    while k < len
        invariant
            k <= len <= 255,
            p < 65536,
            len as int == pt2_ornament(data@, p as int).0,
            want == pt2_ornament(data@, p as int).2,
            forall|q: int| 0 <= q < 255 ==> #[trigger] orn.items[q] == if q < k {
                want[q]
            } else {
                0i8
            },
        decreases len - k,
    {
        orn.items[k] = get_or(data, p + 2 + k, 0) as i8;
        k = k + 1;
    }
    assert(orn.items@ =~= want);
    let lp = data[p + 1] as usize;
    orn.length = len;
    orn.loop_pos = if lp >= len {
        len - 1
    } else {
        lp
    };
    orn
}

/// Read every ornament whose table word points within the data (see
/// [`pt2_orn_slots`]).
fn read_ornaments(data: &[u8], ornaments: &mut [Option<Box<Ornament>>; 16])
    requires
        data@.len() >= PT2_MIN_FILE_SIZE,
        orns_match(old(ornaments)@, start_orn_slots()),
    ensures
        orns_match(final(ornaments)@, pt2_orn_slots(data@)),
{
    let ghost want = pt2_orn_slots(data@);
    let mut i: usize = 1;
    while i < 16
        invariant
            1 <= i <= 16,
            data@.len() >= PT2_MIN_FILE_SIZE,
            want == pt2_orn_slots(data@),
            orns_match(ornaments@, Seq::new(16, |q: int| if q < i {
                want[q]
            } else {
                None
            })),
        decreases 16 - i,
    {
        let p = word_at_exec(data, PT2_OFF_ORN_PTRS + 2 * i);
        if p != 0 && p + 1 < data.len() {
            let orn = read_ornament(data, p);
            ornaments[i] = Some(Box::new(orn));
        }
        i = i + 1;
    }
    assert(Seq::new(16, |q: int| if q < 16 {
        want[q]
    } else {
        None
    }) =~= want);
}

/// A three-byte sample tick: byte 0 bit 0 set turns the noise off (its bits
/// 3..7 the signed noise offset, kept when the noise is on), bit 1 set the
/// tone off, bit 2 clear makes the tone offset negative; byte 1 holds the
/// amplitude (high nibble) and the offset's high nibble, byte 2 its low
/// byte.  The envelope is on.
pub open spec fn pt2_tick(b0: u8, b1: u8, b2: u8) -> SampleTick {
    let raw = b2 as int + (b1 % 16) as int * 256;
    let noise = b0 & 1u8 == 0u8;
    SampleTick {
        envelope_enabled: true,
        add_to_ton: (if b0 & 4u8 == 0u8 {
            -raw
        } else {
            raw
        }) as i16,
        amplitude: b1 / 16,
        mixer_noise: noise,
        add_to_envelope_or_noise: if noise {
            sfive(b0 / 8) as i8
        } else {
            0i8
        },
        mixer_ton: b0 & 2u8 == 0u8,
        ..blank_tick()
    }
}

fn pt2_tick_exec(b0: u8, b1: u8, b2: u8) -> (r: SampleTick)
    ensures
        r == pt2_tick(b0, b1, b2),
{
    let raw: i16 = b2 as i16 + (b1 % 16) as i16 * 256;
    let noise = b0 & 1 == 0;
    let h = b0 / 8;
    let v = h & 0x1F;
    assert(v < 32) by (bit_vector)
        requires
            v == h & 0x1F,
    ;
    let five: i8 = if v >= 16 {
        v as i8 - 32
    } else {
        v as i8
    };
    let mut t = SampleTick::default();
    t.envelope_enabled = true;
    t.add_to_ton = if b0 & 4 == 0 {
        -raw
    } else {
        raw
    };
    t.amplitude = b1 / 16;
    t.mixer_noise = noise;
    if noise {
        t.add_to_envelope_or_noise = five;
    }
    t.mixer_ton = b0 & 2 == 0;
    t
}

/// The sample at `p`: length byte (0 or over 64 read as 64), loop byte
/// (kept within the length), then three bytes per tick (bytes past the end
/// read as 0).
pub open spec fn pt2_sample(data: Seq<u8>, p: int) -> SamRead {
    let l = data[p] as int;
    let len = if l == 0 || l > 64 {
        64
    } else {
        l
    };
    let lp = data[p + 1] as int;
    (
        len,
        if lp >= len {
            len - 1
        } else {
            lp
        },
        Seq::new(64, |q: int| if q < len {
            pt2_tick(byte_or(data, p + 2 + 3 * q, 0), byte_or(data, p + 3 + 3 * q, 0), byte_or(data, p + 4 + 3 * q, 0))
        } else {
            blank_tick()
        }),
    )
}

/// The sample slots: each slot 1..31 whose table word points within the
/// data its sample; slot 0 empty.
pub open spec fn pt2_sam_slots(data: Seq<u8>) -> Seq<Option<SamRead>> {
    Seq::new(32, |i: int| if 1 <= i && pt2_at(data, PT2_OFF_SAM_PTRS + 2 * i) is Some {
        Some(pt2_sample(data, pt2_at(data, PT2_OFF_SAM_PTRS + 2 * i)->0))
    } else {
        None
    })
}

/// Read the sample at `p` (see [`pt2_sample`]).
fn read_sample(data: &[u8], p: usize) -> (r: Sample)
    requires
        p + 1 < data@.len(),
        p < 65536,
    ensures
        pt2_sample(data@, p as int) == (r.length as int, r.loop_pos as int, r.items@),
        r.enabled,
{
    let l = data[p];
    let len: u8 = if l == 0 || l > 64 {
        64
    } else {
        l
    };
    let ghost want = pt2_sample(data@, p as int).2;
    let mut sam = Sample::default();
    let mut k: usize = 0;
    while k < len as usize
        invariant
            k <= len <= 64,
            p < 65536,
            len as int == pt2_sample(data@, p as int).0,
            want == pt2_sample(data@, p as int).2,
            sam.enabled,
            forall|q: int| 0 <= q < 64 ==> #[trigger] sam.items[q] == if q < k {
                want[q]
            } else {
                blank_tick()
            },
        decreases len - k,
    {
        let base = p + 2 + 3 * k;
        sam.items[k] = pt2_tick_exec(get_or(data, base, 0), get_or(data, base + 1, 0), get_or(data, base + 2, 0));
        k = k + 1;
    }
    assert(sam.items@ =~= want);
    let lp = data[p + 1];
    sam.length = len;
    sam.loop_pos = if lp >= len {
        len - 1
    } else {
        lp
    };
    sam
}

/// Read every sample whose table word points within the data (see
/// [`pt2_sam_slots`]).
fn read_samples(data: &[u8], samples: &mut [Option<Box<Sample>>; 32])
    requires
        data@.len() >= PT2_MIN_FILE_SIZE,
        sams_match(old(samples)@, Seq::new(32, |v: int| None)),
    ensures
        sams_match(final(samples)@, pt2_sam_slots(data@)),
{
    let ghost want = pt2_sam_slots(data@);
    let mut i: usize = 1;
    while i < 32
        invariant
            1 <= i <= 32,
            data@.len() >= PT2_MIN_FILE_SIZE,
            want == pt2_sam_slots(data@),
            sams_match(samples@, Seq::new(32, |q: int| if q < i {
                want[q]
            } else {
                None
            })),
        decreases 32 - i,
    {
        let p = word_at_exec(data, PT2_OFF_SAM_PTRS + 2 * i);
        if p != 0 && p + 1 < data.len() {
            let sam = read_sample(data, p);
            samples[i] = Some(Box::new(sam));
        }
        i = i + 1;
    }
    assert(Seq::new(32, |q: int| if q < 32 {
        want[q]
    } else {
        None
    }) =~= want);
}

// ─── The module ──────────────────────────────────────────────────────────────

/// The position walk over the whole file (see [`pt2_walk`]).
pub open spec fn pt2_song(data: Seq<u8>) -> (int, Seq<usize>, Seq<PatRead>, bool) {
    pt2_walk(data, word_at(data, PT2_OFF_PAT_PTR as int), 0, Seq::new(256, |i: int| 0usize), no_reads())
}

/// The files [`parse`] reads: all but those whose position list names a
/// pattern past the last pattern slot.
pub open spec fn parse_defined(data: Seq<u8>) -> bool {
    data.len() >= PT2_MIN_FILE_SIZE ==> !pt2_song(data).3
}

/// `m` is the module the PT2 file `data` describes: its delay, loop and
/// name (trailing blanks and control bytes dropped), no author, tone table
/// 1, the positions and patterns of the walk, and every ornament and sample
/// the tables point to.
pub open spec fn pt2_module(data: Seq<u8>, m: Module) -> bool {
    let (n, values, pats, bad) = pt2_song(data);
    &&& m.wf()
    &&& m.features_level == FeaturesLevel::Pt35
    &&& !m.vortex_module_header
    &&& m.ton_table == 1
    &&& m.initial_delay == data[PT2_OFF_DELAY as int]
    &&& m.title@ == crate::formats::utf8_lossy(trim_end(data.subrange(PT2_OFF_TITLE as int, PT2_OFF_TITLE + 30)))
    &&& m.author@ == Seq::<char>::empty()
    &&& m.positions.loop_pos == data[PT2_OFF_LOOP_POS as int]
    &&& m.positions.length == n
    &&& m.positions.value@ == values
    &&& pats_match(m.patterns@, pats)
    &&& orns_match(m.ornaments@, pt2_orn_slots(data))
    &&& sams_match(m.samples@, pt2_sam_slots(data))
    &&& forall|c: int|
        0 <= c < 3 ==> #[trigger] m.is_chans[c] == (crate::types::ChannelState {
            global_ton: true,
            global_noise: true,
            global_envelope: true,
            envelope_enabled: false,
            ornament: 0,
            sample: 1,
            volume: 15,
        })
}

/// What reading the PT2 file `data` gives: files shorter than the header
/// and one position are refused, so are those whose position list is empty;
/// otherwise the module [`pt2_module`] describes.
pub open spec fn parse_outcome(data: Seq<u8>, r: Result<Module, FormatError>) -> bool {
    &&& data.len() < PT2_MIN_FILE_SIZE ==> r == Err::<Module, FormatError>(FormatError::TooShort)
    &&& data.len() >= PT2_MIN_FILE_SIZE && pt2_song(data).0 == 0 ==> r == Err::<Module, FormatError>(
        FormatError::NoPositions,
    )
    &&& data.len() >= PT2_MIN_FILE_SIZE && pt2_song(data).0 != 0 ==> (r matches Ok(m) && pt2_module(data, m))
}

fn read_module(data: &[u8]) -> (r: (Result<Module, FormatError>, bool))
    requires
        data@.len() >= PT2_MIN_FILE_SIZE,
        data@.len() <= isize::MAX,
    ensures
        r.1 == !parse_defined(data@),
        !r.1 ==> parse_outcome(data@, r.0),
{
    let mut module = Module::default();
    module.features_level = FeaturesLevel::Pt35;
    module.vortex_module_header = false;
    module.ton_table = 1;
    assert(module.author@ =~= Seq::<char>::empty());
    module.title = trim_right_ascii(vstd::slice::slice_subrange(data, PT2_OFF_TITLE, PT2_OFF_TITLE + 30));
    module.initial_delay = data[PT2_OFF_DELAY];
    module.positions.loop_pos = data[PT2_OFF_LOOP_POS] as usize;
    let base = word_at_exec(data, PT2_OFF_PAT_PTR);
    assert(module.ornaments[0] matches Some(o) && o.items@ =~= crate::formats::asc::zero_offsets());
    assert(orns_match(module.ornaments@, start_orn_slots()));
    read_ornaments(data, &mut module.ornaments);
    assert(sams_match(module.samples@, Seq::new(32, |v: int| None)));
    read_samples(data, &mut module.samples);
    assert(module.positions.value@ =~= Seq::new(256, |i: int| 0usize));
    assert(pats_match(module.patterns@, no_reads()));
    let (n, bad) = read_positions(data, base, &mut module.positions.value, &mut module.patterns);
    if bad {
        return (Err(FormatError::NoPositions), true);
    }
    if n == 0 {
        return (Err(FormatError::NoPositions), false);
    }
    module.positions.length = n;
    (Ok(module), false)
}

/// Parse a Pro Tracker 2 (`.pt2`) file (see [`parse_outcome`]).
pub fn parse(data: &[u8]) -> (r: Result<Module, FormatError>)
    requires
        data@.len() <= isize::MAX,
        parse_defined(data@),
    ensures
        parse_outcome(data@, r),
{
    if data.len() < PT2_MIN_FILE_SIZE {
        return Err(FormatError::TooShort);
    }
    read_module(data).0
}

/// Whether [`parse`] reads `data` (see [`parse_defined`]).
pub fn readable(data: &[u8]) -> (r: bool)
    requires
        data@.len() <= isize::MAX,
    ensures
        r == parse_defined(data@),
{
    if data.len() < PT2_MIN_FILE_SIZE {
        return true;
    }
    !read_module(data).1
}

/// The fields of a PT2 sample tick by the bits of its bytes: in byte 0,
/// bit 0 set turns the noise off (bits 3..7 then unused, else the signed
/// noise offset), bit 1 set the tone off, bit 2 clear makes the tone offset
/// negative; byte 1 holds the amplitude (high nibble) and the offset's high
/// nibble, byte 2 its low byte; the envelope is on.
pub proof fn lemma_pt2_tick_bits(b0: u8, b1: u8, b2: u8)
    ensures
        ({
            let t = pt2_tick(b0, b1, b2);
            let mag = b2 as int + (b1 as int % 16) * 256;
            let noise = b0 as int % 2 == 0;
            &&& t.amplitude as int == b1 as int / 16
            &&& t.envelope_enabled
            &&& t.add_to_ton as int == if (b0 as int / 4) % 2 == 0 { -mag } else { mag }
            &&& t.mixer_noise == noise
            &&& t.mixer_ton == ((b0 as int / 2) % 2 == 0)
            &&& t.add_to_envelope_or_noise as int == if noise { crate::formats::asc::signed5(b0 as int / 8) } else { 0 }
        }),
{
    let h = b0 / 8;
    assert((b0 & 1u8 == 0) == (b0 % 2 == 0) && (b0 & 2u8 == 0) == ((b0 / 2) % 2 == 0) && (b0 & 4u8 == 0) == ((b0
        / 4) % 2 == 0) && h & 0x1Fu8 == h % 32) by (bit_vector);
}

/// The bytes of a PT2 channel's row, one at a time: 0x80 + n ends the row
/// with note `n`; 0xE0 ends it with the sound off, 0x70 leaving the note;
/// 0xE0 + s (s 1..31) chooses sample `s` and 0x60 + o ornament `o`, and
/// reading goes on.
pub proof fn lemma_pt2_row_bytes(data: Seq<u8>, c: Pt2Chan, cl: ChannelLine, env: u16, ns: u8)
    requires
        c.ptr < data.len() < usize::MAX - 8,
    ensures
        ({
            let b = data[c.ptr as int];
            let c1 = Pt2Chan { ptr: (c.ptr + 1) as usize, ..c };
            let r = pt2_interp(data, c, cl, env, ns);
            &&& 0x80 <= b < 0xE0 ==> r == (c1, ChannelLine { note: (b as int - 0x80) as i8, ..cl }, env, ns)
            &&& b == 0xE0 ==> r == (c1, ChannelLine { note: crate::types::NOTE_SOUND_OFF, ..cl }, env, ns)
            &&& b == 0x70 ==> r == (c1, cl, env, ns)
            &&& b >= 0xE1 ==> r == pt2_interp(data, c1, ChannelLine { sample: (b as int - 0xE0) as u8, ..cl }, env, ns)
            &&& 0x60 <= b < 0x70 ==> r == pt2_interp(
                data,
                Pt2Chan { prev_orn: (b as int - 0x60) as u8, ..c1 },
                ChannelLine {
                    ornament: (b as int - 0x60) as u8,
                    envelope: if cl.envelope == 0 { 15 } else { cl.envelope },
                    ..cl
                },
                env,
                ns,
            )
        }),
{
}

} // verus!
