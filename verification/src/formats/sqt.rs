//! Square Tracker (`*.sqt`) binary module files: reader.
use crate::formats::asc::{byte_or, no_reads, orns_match, pats_match, sams_match, start_orn_slots, word_at, OrnRead, PatRead, SamRead};
use crate::formats::pt3::empty_rows;
use crate::formats::FormatError;
use crate::types::{
    blank_tick, AdditionalCommand, ChannelLine, FeaturesLevel, Module, Ornament, Pattern, PatternRow, Sample,
    SampleTick, MAX_NUM_OF_PATS, NOTE_SOUND_OFF,
};
use vstd::prelude::*;

verus! {

/// Where the sample pointer table starts (a word).
pub const SQT_OFF_SAM_PTR: usize = 2;
/// Where the ornament pointer table starts (a word).
pub const SQT_OFF_ORN_PTR: usize = 4;
/// Where the pattern channel table starts (a word).
pub const SQT_OFF_PAT_PTR: usize = 6;
/// Where the position list starts (a word).
pub const SQT_OFF_POS_PTR: usize = 8;
/// The position the song loops to (a word, the entry's address).
pub const SQT_OFF_LOOP_PTR: usize = 10;
/// Smallest SQT file: the six header words.
pub const SQT_MIN_FILE_SIZE: usize = 12;

/// One channel's settings in a position entry.
#[derive(Clone, Copy, PartialEq, Eq, Structural)]
pub struct SqtChan {
    pub enable_effects: bool,
    /// Which entry of the pattern channel table the channel plays.
    pub pat_chan_number: usize,
    /// Volume attenuation (0 loudest).
    pub vol: u8,
    /// Semitone transposition.
    pub trans: i8,
}

/// A position entry: the row delay and channels A, B, C.
#[derive(Clone, Copy)]
pub struct SqtPat {
    pub delay: u8,
    pub chn: [SqtChan; 3],
}

/// The transposition a high nibble stands for: 0..8 up, 9..15 down 1..7.
pub open spec fn sqt_trans(nib: u8) -> i8 {
    if nib < 9 {
        nib as i8
    } else {
        (8 - nib) as i8
    }
}

/// A channel's two bytes in a position entry: bit 7 of the first enables
/// the volume and delay effects, its low seven bits pick the channel data;
/// the second holds the attenuation (low nibble) and transposition.
pub open spec fn sqt_chan(flags: u8, volb: u8) -> SqtChan {
    SqtChan {
        enable_effects: flags & 0x80u8 != 0u8,
        pat_chan_number: (flags & 0x7Fu8) as usize,
        vol: volb & 0x0Fu8,
        trans: sqt_trans(volb >> 4u8),
    }
}

/// The seven bytes of the position entry at `off` (bytes past the end read
/// as 0, the delay as 1).
pub open spec fn sqt_entry(data: Seq<u8>, off: int) -> Seq<u8> {
    Seq::new(7, |i: int| if i < 6 {
        byte_or(data, off + i, 0)
    } else {
        byte_or(data, off + 6, 1)
    })
}

/// The settings of an entry: channels C, B, A in that order, then the
/// delay.
pub open spec fn sqt_pat(e: Seq<u8>) -> SqtPat {
    SqtPat { delay: e[6], chn: [sqt_chan(e[4], e[5]), sqt_chan(e[2], e[3]), sqt_chan(e[0], e[1])] }
}

fn get_or(data: &[u8], i: usize, dflt: u8) -> (r: u8)
    ensures
        r == byte_or(data@, i as int, dflt),
{
    if i < data.len() {
        data[i]
    } else {
        dflt
    }
}

fn word_at_exec(data: &[u8], off: usize) -> (r: usize)
    requires
        off < usize::MAX,
    ensures
        r == word_at(data@, off as int),
        r < 65536,
{
    let lo = get_or(data, off, 0) as usize;
    let hi = get_or(data, off + 1, 0) as usize;
    lo + hi * 256
}

fn sqt_chan_exec(flags: u8, volb: u8) -> (r: SqtChan)
    ensures
        r == sqt_chan(flags, volb),
{
    let nib = volb >> 4;
    assert(nib < 16) by (bit_vector)
        requires
            nib == volb >> 4u8,
    ;
    let trans: i8 = if nib < 9 {
        nib as i8
    } else {
        (8 - nib as i8) as i8
    };
    SqtChan { enable_effects: flags & 0x80 != 0, pat_chan_number: (flags & 0x7F) as usize, vol: volb & 0x0F, trans }
}

/// Read the position entry at `off` (see [`sqt_entry`], [`sqt_pat`]).
fn read_entry(data: &[u8], off: usize) -> (r: SqtPat)
    requires
        off < usize::MAX - 8,
    ensures
        r == sqt_pat(sqt_entry(data@, off as int)),
{
    let e0 = get_or(data, off, 0);
    let e1 = get_or(data, off + 1, 0);
    let e2 = get_or(data, off + 2, 0);
    let e3 = get_or(data, off + 3, 0);
    let e4 = get_or(data, off + 4, 0);
    let e5 = get_or(data, off + 5, 0);
    let e6 = get_or(data, off + 6, 1);
    let ghost e = sqt_entry(data@, off as int);
    assert(e[0] == e0 && e[1] == e1 && e[2] == e2 && e[3] == e3 && e[4] == e4 && e[5] == e5 && e[6] == e6);
    let r = SqtPat { delay: e6, chn: [sqt_chan_exec(e4, e5), sqt_chan_exec(e2, e3), sqt_chan_exec(e0, e1)] };
    assert(r.chn =~= sqt_pat(e).chn);
    r
}

/// Whether two entries carry the same settings.
fn sqtpat_eq(a: &SqtPat, b: &SqtPat) -> (r: bool)
    ensures
        r == (*a == *b),
{
    let r = a.delay == b.delay && a.chn[0] == b.chn[0] && a.chn[1] == b.chn[1] && a.chn[2] == b.chn[2];
    proof {
        if r {
            assert(a.chn =~= b.chn);
        }
    }
    r
}

// ─── One channel's commands ──────────────────────────────────────────────────

/// One channel's reading state within a pattern.
#[derive(Clone, Copy, PartialEq, Eq, Structural)]
pub struct SqtState {
    /// Where the channel reads next.
    pub ptr: usize,
    /// Rows still to rest.
    pub skip: u8,
    /// Whether each rested row repeats the last note's settings.
    pub retrig: bool,
    /// Where the last note or sample command stands.
    pub mark: usize,
    pub env_en: bool,
    pub env_t: u8,
    pub env_p: u8,
    pub note: u8,
    pub samp: u8,
    /// Tracker ornament in force: 0 none, 255 not set yet.
    pub orn: u8,
    /// Volume attenuation in force.
    pub vol: u8,
}

/// What the patterns have used so far: which samples, which tracker
/// ornament each file ornament became (-1: none yet), the sample each
/// tracker ornament was first used with, and how many ornaments there are.
#[derive(Clone, Copy)]
pub struct SqtMarks {
    pub is_sample: [bool; 32],
    pub orns: [i32; 32],
    pub orn2sam: [u8; 16],
    pub n_orns: usize,
}

/// What a channel's turn works on: its state, the row and the marks.
#[derive(Clone, Copy)]
pub struct SqtCtx {
    pub st: SqtState,
    pub row: PatternRow,
    pub mk: SqtMarks,
}

/// The marks are in range: at most 15 ornaments, each file ornament
/// unmapped or mapped to one of them.
pub open spec fn marks_ok(mk: SqtMarks) -> bool {
    &&& mk.n_orns <= 15
    &&& forall|i: int| 0 <= i < 32 ==> (#[trigger] mk.orns[i] < 0 || mk.orns[i] <= 15)
}

/// The context is in range.
pub open spec fn ctx_ok(x: SqtCtx) -> bool {
    &&& marks_ok(x.mk)
    &&& x.st.orn <= 15 || x.st.orn == 255
    &&& x.st.note <= 0x5F
}

/// The row with cell `k` replaced.
pub open spec fn with_cell(row: PatternRow, k: int, cl: ChannelLine) -> PatternRow {
    PatternRow { channel: vstd::array::spec_array_update(row.channel, k, cl), ..row }
}

/// The volume column for attenuation `cv`: 15 - cv, at least 1.
pub open spec fn vol_level(cv: u8) -> u8 {
    if cv >= 15 {
        1
    } else {
        (15 - cv) as u8
    }
}

/// The byte sum, wrapping.
pub open spec fn wadd(a: u8, b: u8) -> u8 {
    ((a + b) % 256) as u8
}

/// The delay command with parameter `d` (0 standing for 32).
pub open spec fn delay_cmd(c: AdditionalCommand, d: u8) -> AdditionalCommand {
    AdditionalCommand {
        number: 11,
        parameter: if d == 0 {
            32
        } else {
            d
        },
        ..c
    }
}

/// An effect command `a` for channel `k` with its parameter at `ptr`: 1
/// and 2 set and add to the channel's attenuation, 3 and 4 those of all
/// channels, 5 and 6 set and add to the delay (the six when the channel's
/// effects are enabled), 7 and 8 glide down and up; anything else, and the
/// first six when effects are disabled, sets envelope type `a & 15` (15
/// read as 7) with the parameter as period.  Gives the position after the
/// parameter and the context.
#[verifier::opaque]
pub open spec fn sqt_effect(data: Seq<u8>, pat: SqtPat, k: int, a: u8, ptr: int, x: SqtCtx) -> (int, SqtCtx) {
    let param = byte_or(data, ptr, 0);
    let ee = pat.chn[k].enable_effects;
    let cl = x.row.channel[k];
    let cmd = cl.additional_command;
    let n: u8 = if a == 0 {
        0
    } else {
        (a - 1) as u8
    };
    let x2 = if n == 0 && ee {
        let cv = param & 0x0Fu8;
        SqtCtx { st: SqtState { vol: cv, ..x.st }, row: with_cell(x.row, k, ChannelLine { volume: vol_level(cv), ..cl }), ..x }
    } else if n == 1 && ee {
        let cv = wadd(x.st.vol, param) & 0x0Fu8;
        SqtCtx { st: SqtState { vol: cv, ..x.st }, row: with_cell(x.row, k, ChannelLine { volume: vol_level(cv), ..cl }), ..x }
    } else if n == 2 && ee {
        let v = vol_level(param & 0x0Fu8);
        let c = x.row.channel;
        SqtCtx {
            row: PatternRow {
                channel: [
                    ChannelLine { volume: v, ..c[0] },
                    ChannelLine { volume: v, ..c[1] },
                    ChannelLine { volume: v, ..c[2] },
                ],
                ..x.row
            },
            ..x
        }
    } else if n == 3 && ee {
        let c = x.row.channel;
        SqtCtx {
            row: PatternRow {
                channel: [
                    ChannelLine { volume: vol_level(wadd(c[0].volume, param) & 0x0Fu8), ..c[0] },
                    ChannelLine { volume: vol_level(wadd(c[1].volume, param) & 0x0Fu8), ..c[1] },
                    ChannelLine { volume: vol_level(wadd(c[2].volume, param) & 0x0Fu8), ..c[2] },
                ],
                ..x.row
            },
            ..x
        }
    } else if n == 4 && ee {
        SqtCtx {
            row: with_cell(x.row, k, ChannelLine { additional_command: delay_cmd(cmd, param & 0x1Fu8), ..cl }),
            ..x
        }
    } else if n == 5 && ee {
        SqtCtx {
            row: with_cell(
                x.row,
                k,
                ChannelLine { additional_command: delay_cmd(cmd, wadd(cmd.parameter, param) & 0x1Fu8), ..cl },
            ),
            ..x
        }
    } else if n == 6 || n == 7 {
        SqtCtx {
            row: with_cell(
                x.row,
                k,
                ChannelLine {
                    additional_command: AdditionalCommand {
                        delay: 1,
                        number: if n == 6 {
                            2
                        } else {
                            1
                        },
                        parameter: param,
                    },
                    ..cl
                },
            ),
            ..x
        }
    } else {
        let et0 = ((n + 1) as u8) & 0x0Fu8;
        let et: u8 = if et0 == 15 {
            7
        } else {
            et0
        };
        SqtCtx {
            st: SqtState { env_en: true, env_t: et, env_p: param, ..x.st },
            row: PatternRow { envelope: param as u16, ..with_cell(x.row, k, ChannelLine { envelope: et, ..cl }) },
            ..x
        }
    };
    (ptr + 1, x2)
}

fn vol_level_exec(cv: u8) -> (r: u8)
    ensures
        r == vol_level(cv),
{
    if cv >= 15 {
        1
    } else {
        15 - cv
    }
}

fn wadd_exec(a: u8, b: u8) -> (r: u8)
    ensures
        r == wadd(a, b),
{
    ((a as u16 + b as u16) % 256) as u8
}

fn delay_cmd_exec(c: AdditionalCommand, d: u8) -> (r: AdditionalCommand)
    ensures
        r == delay_cmd(c, d),
{
    AdditionalCommand {
        number: 11,
        parameter: if d == 0 {
            32
        } else {
            d
        },
        ..c
    }
}

fn set_cell(row: PatternRow, k: usize, cl: ChannelLine) -> (r: PatternRow)
    requires
        k < 3,
    ensures
        r == with_cell(row, k as int, cl),
{
    let mut r = row;
    r.channel[k] = cl;
    assert(r.channel =~= vstd::array::spec_array_update(row.channel, k as int, cl));
    r
}

/// Carry out effect command `a` (see [`sqt_effect`]).
fn effect_exec(data: &[u8], pat: &SqtPat, k: usize, a: u8, ptr: usize, x: SqtCtx) -> (r: (usize, SqtCtx))
    requires
        k < 3,
        ptr < usize::MAX,
    ensures
        (r.0 as int, r.1) == sqt_effect(data@, *pat, k as int, a, ptr as int, x),
        r.0 == ptr + 1,
        r.1.st.ptr == x.st.ptr && r.1.st.mark == x.st.mark,
{
    reveal(sqt_effect);
    let param = get_or(data, ptr, 0);
    let ee = pat.chn[k].enable_effects;
    let cl = x.row.channel[k];
    let cmd = cl.additional_command;
    let n: u8 = if a == 0 {
        0
    } else {
        a - 1
    };
    let mut y = x;
    if n == 0 && ee {
        let cv = param & 0x0F;
        y.st.vol = cv;
        y.row = set_cell(x.row, k, ChannelLine { volume: vol_level_exec(cv), ..cl });
    } else if n == 1 && ee {
        let cv = wadd_exec(x.st.vol, param) & 0x0F;
        y.st.vol = cv;
        y.row = set_cell(x.row, k, ChannelLine { volume: vol_level_exec(cv), ..cl });
    } else if n == 2 && ee {
        let v = vol_level_exec(param & 0x0F);
        let c = x.row.channel;
        y.row.channel = [
            ChannelLine { volume: v, ..c[0] },
            ChannelLine { volume: v, ..c[1] },
            ChannelLine { volume: v, ..c[2] },
        ];
    } else if n == 3 && ee {
        let c = x.row.channel;
        let v0 = vol_level_exec(wadd_exec(c[0].volume, param) & 0x0F);
        let v1 = vol_level_exec(wadd_exec(c[1].volume, param) & 0x0F);
        let v2 = vol_level_exec(wadd_exec(c[2].volume, param) & 0x0F);
        y.row.channel = [ChannelLine { volume: v0, ..c[0] }, ChannelLine { volume: v1, ..c[1] }, ChannelLine { volume: v2, ..c[2] }];
    } else if n == 4 && ee {
        y.row = set_cell(x.row, k, ChannelLine { additional_command: delay_cmd_exec(cmd, param & 0x1F), ..cl });
    } else if n == 5 && ee {
        let d = wadd_exec(cmd.parameter, param) & 0x1F;
        y.row = set_cell(x.row, k, ChannelLine { additional_command: delay_cmd_exec(cmd, d), ..cl });
    } else if n == 6 || n == 7 {
        let num: u8 = if n == 6 {
            2
        } else {
            1
        };
        y.row = set_cell(
            x.row,
            k,
            ChannelLine { additional_command: AdditionalCommand { delay: 1, number: num, parameter: param }, ..cl },
        );
    } else {
        let et0 = ((n as u16 + 1) as u8) & 0x0F;
        let et: u8 = if et0 == 15 {
            7
        } else {
            et0
        };
        y.st.env_en = true;
        y.st.env_t = et;
        y.st.env_p = param;
        y.row = set_cell(x.row, k, ChannelLine { envelope: et, ..cl });
        y.row.envelope = param as u16;
    }
    assert(n == 2 && ee ==> y.row.channel =~= sqt_effect(data@, *pat, k as int, a, ptr as int, x).1.row.channel);
    assert(n == 3 && ee ==> y.row.channel =~= sqt_effect(data@, *pat, k as int, a, ptr as int, x).1.row.channel);
    (ptr + 1, y)
}

/// Sample `a` for channel `k`: a running ornament or envelope is switched
/// off in the cell, the sample marked used (1..31), the cell's sample set
/// when it changes, and a nonzero sample repeats the last note.
#[verifier::opaque]
pub open spec fn sqt_sample_set(k: int, a: u8, x: SqtCtx) -> SqtCtx {
    let st = x.st;
    let cl = x.row.channel[k];
    let reset = st.env_en || st.orn != 0;
    let cl1 = if reset {
        ChannelLine { envelope: 15, ornament: 0, ..cl }
    } else {
        cl
    };
    let st1 = if reset {
        SqtState { orn: 0, env_en: false, ..st }
    } else {
        st
    };
    let mk = if 1 <= a <= 31 {
        SqtMarks { is_sample: vstd::array::spec_array_update(x.mk.is_sample, a as int, true), ..x.mk }
    } else {
        x.mk
    };
    let changed = st.samp != a;
    let cl2 = if changed {
        ChannelLine { sample: a, ..cl1 }
    } else {
        cl1
    };
    let cl3 = if a != 0 {
        ChannelLine { note: st.note as i8, ..cl2 }
    } else {
        cl2
    };
    SqtCtx {
        st: if changed {
            SqtState { samp: a, ..st1 }
        } else {
            st1
        },
        row: with_cell(x.row, k, cl3),
        mk,
    }
}

/// Set sample `a` (see [`sqt_sample_set`]).
fn sample_set_exec(k: usize, a: u8, x: SqtCtx) -> (r: SqtCtx)
    requires
        k < 3,
    ensures
        r == sqt_sample_set(k as int, a, x),
        r.st.ptr == x.st.ptr && r.st.mark == x.st.mark,
{
    reveal(sqt_sample_set);
    let mut st = x.st;
    let mut cl = x.row.channel[k];
    let mut mk = x.mk;
    if st.env_en || st.orn != 0 {
        st.orn = 0;
        st.env_en = false;
        cl.envelope = 15;
        cl.ornament = 0;
    }
    if 1 <= a && a <= 31 {
        mk.is_sample[a as usize] = true;
    }
    if st.samp != a {
        st.samp = a;
        cl.sample = a;
    }
    if a != 0 {
        cl.note = x.st.note as i8;
    }
    proof {
        if 1 <= a <= 31 {
            assert(mk.is_sample =~= vstd::array::spec_array_update(x.mk.is_sample, a as int, true));
        }
    }
    SqtCtx { st, row: set_cell(x.row, k, cl), mk }
}

/// File ornament `a` for channel `k`: the first time it is met it becomes
/// the next tracker ornament (unless there are 15 already, when nothing
/// happens); the cell names it (with the envelope in force, or envelope off)
/// when it differs from the one in force or an envelope runs; the first
/// sample a tracker ornament goes with is noted.
#[verifier::opaque]
pub open spec fn sqt_orn_set(k: int, a: int, x: SqtCtx) -> SqtCtx {
    let mk = x.mk;
    if a == 0 || (mk.orns[a] < 0 && mk.n_orns >= 15) {
        x
    } else {
        let orn: int = if mk.orns[a] < 0 {
            mk.n_orns + 1
        } else {
            mk.orns[a] as int
        };
        let mk1 = if mk.orns[a] < 0 {
            SqtMarks { orns: vstd::array::spec_array_update(mk.orns, a, orn as i32), n_orns: orn as usize, ..mk }
        } else {
            mk
        };
        let st = x.st;
        let cl = x.row.channel[k];
        let x2 = if st.env_en || st.orn != orn {
            SqtCtx {
                st: SqtState { orn: orn as u8, ..st },
                row: PatternRow {
                    envelope: if st.env_en {
                        st.env_p as u16
                    } else {
                        x.row.envelope
                    },
                    ..with_cell(
                        x.row,
                        k,
                        ChannelLine {
                            envelope: if st.env_en {
                                st.env_t
                            } else {
                                15
                            },
                            ornament: orn as u8,
                            ..cl
                        },
                    )
                },
                mk: mk1,
            }
        } else {
            SqtCtx { mk: mk1, ..x }
        };
        if orn <= 15 && mk1.orn2sam[orn] == 0 {
            SqtCtx { mk: SqtMarks { orn2sam: vstd::array::spec_array_update(mk1.orn2sam, orn, st.samp), ..mk1 }, ..x2 }
        } else {
            x2
        }
    }
}

/// Set file ornament `a` (see [`sqt_orn_set`]).
fn orn_set_exec(k: usize, a: usize, x: SqtCtx) -> (r: SqtCtx)
    requires
        k < 3,
        a < 32,
        ctx_ok(x),
    ensures
        r == sqt_orn_set(k as int, a as int, x),
        ctx_ok(r),
        r.st.ptr == x.st.ptr && r.st.mark == x.st.mark,
{
    reveal(sqt_orn_set);
    let mut mk = x.mk;
    if a == 0 || (mk.orns[a] < 0 && mk.n_orns >= 15) {
        return x;
    }
    let orn: usize = if mk.orns[a] < 0 {
        let n = mk.n_orns + 1;
        mk.orns[a] = n as i32;
        mk.n_orns = n;
        n
    } else {
        mk.orns[a] as usize
    };
    proof {
        if x.mk.orns[a as int] < 0 {
            assert(mk.orns =~= vstd::array::spec_array_update(x.mk.orns, a as int, orn as i32));
        } else {
            assert(mk.orns =~= x.mk.orns);
        }
    }
    let st = x.st;
    let mut y = SqtCtx { mk, ..x };
    if st.env_en || st.orn as usize != orn {
        let cl = x.row.channel[k];
        y.st.orn = orn as u8;
        let env: u8 = if st.env_en {
            st.env_t
        } else {
            15
        };
        y.row = set_cell(x.row, k, ChannelLine { envelope: env, ornament: orn as u8, ..cl });
        if st.env_en {
            y.row.envelope = st.env_p as u16;
        }
    }
    if orn <= 15 && mk.orn2sam[orn] == 0 {
        let ghost before = y.mk.orn2sam;
        y.mk.orn2sam[orn] = st.samp;
        assert(y.mk.orn2sam =~= vstd::array::spec_array_update(before, orn as int, st.samp));
    }
    y
}

/// Channel `k`'s flag byte at `ptr`: below 0x80 an effect command of that
/// number follows; otherwise bits 1..5 name a sample (0: none) and, when
/// bit 6 is set, the next byte's high nibble (with bit 0 as its fifth bit)
/// names an ornament and its low nibble an effect command (0: none) whose
/// parameter follows.  `b6` is cleared by any effect command.  Gives the
/// position after, `b6` and the context.
#[verifier::opaque]
pub open spec fn sqt_flags(data: Seq<u8>, pat: SqtPat, k: int, ptr: int, b6: bool, x: SqtCtx) -> (int, bool, SqtCtx) {
    let b = byte_or(data, ptr, 0);
    let p1 = ptr + 1;
    if b <= 0x7F {
        let (p2, x2) = sqt_effect(data, pat, k, b, p1, x);
        (p2, false, x2)
    } else {
        let s = (b >> 1u8) & 0x1Fu8;
        let x1 = if s != 0 {
            sqt_sample_set(k, s, x)
        } else {
            x
        };
        if b & 0x40u8 != 0 {
            let b2 = byte_or(data, p1, 0);
            let o = ((b2 >> 4u8) | (if b & 1u8 != 0 {
                0x10u8
            } else {
                0u8
            })) as int;
            let x2 = if o != 0 {
                sqt_orn_set(k, o, x1)
            } else {
                x1
            };
            let lo = b2 & 0x0Fu8;
            if lo != 0 {
                let (p3, x3) = sqt_effect(data, pat, k, lo, p1 + 1, x2);
                (p3, false, x3)
            } else {
                (p1 + 1, b6, x2)
            }
        } else {
            (p1, b6, x1)
        }
    }
}

proof fn lemma_sample_set_ok(k: int, a: u8, x: SqtCtx)
    requires
        ctx_ok(x),
        0 <= k < 3,
    ensures
        ctx_ok(sqt_sample_set(k, a, x)),
{
    reveal(sqt_sample_set);
}

proof fn lemma_effect_ok(data: Seq<u8>, pat: SqtPat, k: int, a: u8, ptr: int, x: SqtCtx)
    requires
        ctx_ok(x),
        0 <= k < 3,
    ensures
        ctx_ok(sqt_effect(data, pat, k, a, ptr, x).1),
{
    reveal(sqt_effect);
}

/// Read channel `k`'s flag byte (see [`sqt_flags`]).
fn flags_exec(data: &[u8], pat: &SqtPat, k: usize, ptr: usize, b6: bool, x: SqtCtx) -> (r: (usize, bool, SqtCtx))
    requires
        k < 3,
        ptr < usize::MAX - 4,
        ctx_ok(x),
    ensures
        (r.0 as int, r.1, r.2) == sqt_flags(data@, *pat, k as int, ptr as int, b6, x),
        ctx_ok(r.2),
        r.0 <= ptr + 3,
        r.2.st.ptr == x.st.ptr && r.2.st.mark == x.st.mark,
{
    reveal(sqt_flags);
    let b = get_or(data, ptr, 0);
    let p1 = ptr + 1;
    if b <= 0x7F {
        proof { lemma_effect_ok(data@, *pat, k as int, b, p1 as int, x); }
        let (p2, x2) = effect_exec(data, pat, k, b, p1, x);
        (p2, false, x2)
    } else {
        let s = (b >> 1) & 0x1F;
        let x1 = if s != 0 {
            proof { lemma_sample_set_ok(k as int, s, x); }
            sample_set_exec(k, s, x)
        } else {
            x
        };
        if b & 0x40 != 0 {
            let b2 = get_or(data, p1, 0);
            let hi: u8 = if b & 1 != 0 {
                0x10
            } else {
                0
            };
            let o = (b2 >> 4) | hi;
            assert(o < 32) by (bit_vector)
                requires
                    o == (b2 >> 4u8) | hi,
                    hi == 0x10 || hi == 0,
            ;
            let x2 = if o != 0 {
                orn_set_exec(k, o as usize, x1)
            } else {
                x1
            };
            let lo = b2 & 0x0F;
            if lo != 0 {
                proof { lemma_effect_ok(data@, *pat, k as int, lo, p1 + 1, x2); }
                let (p3, x3) = effect_exec(data, pat, k, lo, p1 + 1, x2);
                (p3, false, x3)
            } else {
                (p1 + 1, b6, x2)
            }
        } else {
            (p1, b6, x1)
        }
    }
}

/// Repeat the settings of channel `k`'s last note or sample command (at its
/// mark): after a note byte its flag byte is read again; a sample command
/// sets its sample again.
#[verifier::opaque]
pub open spec fn sqt_retrigger(data: Seq<u8>, pat: SqtPat, k: int, x: SqtCtx) -> SqtCtx {
    let b = byte_or(data, x.st.mark as int, 0);
    if b <= 0x7F {
        sqt_flags(data, pat, k, x.st.mark + 1, false, x).2
    } else {
        sqt_sample_set(k, b & 0x1Fu8, x)
    }
}

fn retrigger_exec(data: &[u8], pat: &SqtPat, k: usize, x: SqtCtx) -> (r: SqtCtx)
    requires
        k < 3,
        x.st.mark < usize::MAX - 8,
        ctx_ok(x),
    ensures
        r == sqt_retrigger(data@, *pat, k as int, x),
        ctx_ok(r),
        r.st.ptr == x.st.ptr && r.st.mark == x.st.mark,
{
    reveal(sqt_retrigger);
    let b = get_or(data, x.st.mark, 0);
    if b <= 0x7F {
        flags_exec(data, pat, k, x.st.mark + 1, false, x).2
    } else {
        proof { lemma_sample_set_ok(k as int, b & 0x1Fu8, x); }
        sample_set_exec(k, b & 0x1F, x)
    }
}

/// The first sample a tracker ornament in force goes with is noted.
pub open spec fn sqt_track(x: SqtCtx) -> SqtCtx {
    let o = x.st.orn as int;
    if 0 < o < 255 && x.mk.orn2sam[o] == 0 {
        SqtCtx { mk: SqtMarks { orn2sam: vstd::array::spec_array_update(x.mk.orn2sam, o, x.st.samp), ..x.mk }, ..x }
    } else {
        x
    }
}

fn track_exec(x: SqtCtx) -> (r: SqtCtx)
    requires
        ctx_ok(x),
    ensures
        r == sqt_track(x),
        ctx_ok(r),
        r.st == x.st,
{
    let o = x.st.orn;
    if 0 < o && o < 255 && x.mk.orn2sam[o as usize] == 0 {
        let mut y = x;
        y.mk.orn2sam[o as usize] = x.st.samp;
        assert(y.mk.orn2sam =~= vstd::array::spec_array_update(x.mk.orn2sam, o as int, x.st.samp));
        y
    } else {
        x
    }
}

/// The note byte `b` transposed by `t` semitones and two, kept within
/// 0..0x5F.
pub open spec fn sqt_note(b: u8, t: i8) -> u8 {
    let n = b + t + 2;
    if n < 0 {
        0
    } else if n > 0x5F {
        0x5F
    } else {
        n as u8
    }
}

/// The last note moved by an arpeggio byte `b`: up by the low nibble, or
/// down when bit 4 is set (wrapping as a byte), then kept at most 0x5F.
pub open spec fn sqt_arp(note: u8, b: u8) -> u8 {
    let d = b & 0x0Fu8;
    let n = if b & 0x10u8 == 0 {
        (note + d) % 256
    } else {
        (note - d + 256) % 256
    };
    if n > 0x5F {
        0x5F
    } else {
        n as u8
    }
}

/// Channel `k`'s turn in a row.  While it rests, it counts down (repeating
/// its last settings when asked).  Otherwise it reads one command at its
/// position: a note (0..0x5F, transposed) with its flag byte, the reading
/// position staying on the note when an effect came with it; an effect
/// command 0x60..0x6E, or sound off with one 0x70..0x7F, the position staying
/// put; sound off 0x6F; an arpeggio step 0x80..0x9F, repeating the last
/// settings; a rest 0xA0..0xBF of the low nibble's rows, repeating the last
/// settings when bit 4 is set; a sample 0xC0..0xFF.  At the end the first
/// sample of the ornament in force is noted.
pub open spec fn sqt_turn(data: Seq<u8>, pat: SqtPat, k: int, x: SqtCtx) -> SqtCtx {
    let st = x.st;
    if st.skip > 0 {
        let x1 = SqtCtx { st: SqtState { skip: (st.skip - 1) as u8, ..st }, ..x };
        sqt_track(
            if st.retrig {
                sqt_retrigger(data, pat, k, x1)
            } else {
                x1
            },
        )
    } else {
        let st1 = SqtState { retrig: false, ..st };
        let x1 = SqtCtx { st: st1, ..x };
        let ptr = st.ptr as int;
        let cl = x.row.channel[k];
        if ptr >= data.len() {
            sqt_track(x1)
        } else {
            let b = data[ptr];
            sqt_track(
                if b <= 0x5F {
                    let nt = sqt_note(b, pat.chn[k].trans);
                    let xa = SqtCtx {
                        st: SqtState { note: nt, mark: st.ptr, ..st1 },
                        row: with_cell(x.row, k, ChannelLine { note: nt as i8, ..cl }),
                        ..x
                    };
                    let (p, b6, xb) = sqt_flags(data, pat, k, ptr + 1, true, xa);
                    if b6 {
                        SqtCtx { st: SqtState { ptr: p as usize, ..xb.st }, ..xb }
                    } else {
                        xb
                    }
                } else if b <= 0x6E {
                    sqt_effect(data, pat, k, (b - 0x60) as u8, ptr + 1, x1).1
                } else if b == 0x6F {
                    SqtCtx {
                        st: SqtState { ptr: (ptr + 1) as usize, ..st1 },
                        row: with_cell(x.row, k, ChannelLine { note: NOTE_SOUND_OFF, ..cl }),
                        ..x
                    }
                } else if b <= 0x7F {
                    let xa = SqtCtx { row: with_cell(x.row, k, ChannelLine { note: NOTE_SOUND_OFF, ..cl }), ..x1 };
                    sqt_effect(data, pat, k, (b - 0x6F) as u8, ptr + 1, xa).1
                } else if b <= 0x9F {
                    let nt = sqt_arp(st.note, b);
                    let xa = SqtCtx {
                        st: SqtState { ptr: (ptr + 1) as usize, note: nt, ..st1 },
                        row: with_cell(x.row, k, ChannelLine { note: nt as i8, ..cl }),
                        ..x
                    };
                    sqt_retrigger(data, pat, k, xa)
                } else if b <= 0xBF {
                    let sk = b & 0x0Fu8;
                    let xa = SqtCtx { st: SqtState { ptr: (ptr + 1) as usize, skip: sk, ..st1 }, ..x };
                    if b & 0x10u8 == 0 {
                        xa
                    } else {
                        let xb = if sk > 0 {
                            SqtCtx { st: SqtState { retrig: true, ..xa.st }, ..xa }
                        } else {
                            xa
                        };
                        sqt_retrigger(data, pat, k, xb)
                    }
                } else {
                    let xa = SqtCtx { st: SqtState { ptr: (ptr + 1) as usize, mark: st.ptr, ..st1 }, ..x };
                    sqt_sample_set(k, b & 0x1Fu8, xa)
                },
            )
        }
    }
}

/// The channel positions stay a few bytes short of the largest slice.
pub open spec fn st_ok(st: SqtState) -> bool {
    st.ptr <= isize::MAX + 8 && st.mark <= isize::MAX + 8
}

/// Channel `k`'s turn (see [`sqt_turn`]).
fn turn_exec(data: &[u8], pat: &SqtPat, k: usize, x: SqtCtx) -> (r: SqtCtx)
    requires
        k < 3,
        ctx_ok(x),
        st_ok(x.st),
        data@.len() <= isize::MAX,
    ensures
        r == sqt_turn(data@, *pat, k as int, x),
        ctx_ok(r),
        st_ok(r.st),
{
    let st = x.st;
    if st.skip > 0 {
        let x1 = SqtCtx { st: SqtState { skip: st.skip - 1, ..st }, ..x };
        let x2 = if st.retrig {
            retrigger_exec(data, pat, k, x1)
        } else {
            x1
        };
        return track_exec(x2);
    }
    let st1 = SqtState { retrig: false, ..st };
    let x1 = SqtCtx { st: st1, ..x };
    let ptr = st.ptr;
    let cl = x.row.channel[k];
    if ptr >= data.len() {
        return track_exec(x1);
    }
    let b = data[ptr];
    let x2 = if b <= 0x5F {
        let t = pat.chn[k].trans;
        let n: i16 = b as i16 + t as i16 + 2;
        let nt: u8 = if n < 0 {
            0
        } else if n > 0x5F {
            0x5F
        } else {
            n as u8
        };
        let xa = SqtCtx {
            st: SqtState { note: nt, mark: ptr, ..st1 },
            row: set_cell(x.row, k, ChannelLine { note: nt as i8, ..cl }),
            ..x
        };
        let (p, b6, xb) = flags_exec(data, pat, k, ptr + 1, true, xa);
        if b6 {
            SqtCtx { st: SqtState { ptr: p, ..xb.st }, ..xb }
        } else {
            xb
        }
    } else if b <= 0x6E {
        proof { lemma_effect_ok(data@, *pat, k as int, (b - 0x60) as u8, ptr + 1, x1); }
        effect_exec(data, pat, k, b - 0x60, ptr + 1, x1).1
    } else if b == 0x6F {
        SqtCtx {
            st: SqtState { ptr: ptr + 1, ..st1 },
            row: set_cell(x.row, k, ChannelLine { note: NOTE_SOUND_OFF, ..cl }),
            ..x
        }
    } else if b <= 0x7F {
        let xa = SqtCtx { row: set_cell(x.row, k, ChannelLine { note: NOTE_SOUND_OFF, ..cl }), ..x1 };
        proof { lemma_effect_ok(data@, *pat, k as int, (b - 0x6F) as u8, ptr + 1, xa); }
        effect_exec(data, pat, k, b - 0x6F, ptr + 1, xa).1
    } else if b <= 0x9F {
        let d = b & 0x0F;
        let n: u16 = if b & 0x10 == 0 {
            (st.note as u16 + d as u16) % 256
        } else {
            (st.note as u16 + 256 - d as u16) % 256
        };
        let nt: u8 = if n > 0x5F {
            0x5F
        } else {
            n as u8
        };
        let xa = SqtCtx {
            st: SqtState { ptr: ptr + 1, note: nt, ..st1 },
            row: set_cell(x.row, k, ChannelLine { note: nt as i8, ..cl }),
            ..x
        };
        retrigger_exec(data, pat, k, xa)
    } else if b <= 0xBF {
        let sk = b & 0x0F;
        let xa = SqtCtx { st: SqtState { ptr: ptr + 1, skip: sk, ..st1 }, ..x };
        if b & 0x10 == 0 {
            xa
        } else {
            let xb = if sk > 0 {
                SqtCtx { st: SqtState { retrig: true, ..xa.st }, ..xa }
            } else {
                xa
            };
            retrigger_exec(data, pat, k, xb)
        }
    } else {
        let xa = SqtCtx { st: SqtState { ptr: ptr + 1, mark: ptr, ..st1 }, ..x };
        proof { lemma_sample_set_ok(k as int, b & 0x1Fu8, xa); }
        sample_set_exec(k, b & 0x1F, xa)
    };
    track_exec(x2)
}

// ─── Patterns ────────────────────────────────────────────────────────────────

/// Channel `k` of entry `pat` at the start of its pattern: reading just
/// past the row count at its pattern channel table entry, no ornament set
/// yet, the entry's attenuation in force.
pub open spec fn sqt_start(data: Seq<u8>, pat: SqtPat, k: int) -> SqtState {
    let pp = word_at(data, SQT_OFF_PAT_PTR as int);
    SqtState {
        ptr: (word_at(data, pp + 2 * pat.chn[k].pat_chan_number) + 1) as usize,
        skip: 0,
        retrig: false,
        mark: 0,
        env_en: false,
        env_t: 15,
        env_p: 0,
        note: 0,
        samp: 0,
        orn: 255,
        vol: pat.chn[k].vol,
    }
}

/// The rows `i..n` of a pattern: in each, channels C, B, A take their
/// turns in that order.  Gives the rows and the marks after.
pub open spec fn sqt_rows(
    data: Seq<u8>,
    pat: SqtPat,
    a: SqtState,
    b: SqtState,
    c: SqtState,
    mk: SqtMarks,
    i: int,
    n: int,
    items: Seq<PatternRow>,
) -> (Seq<PatternRow>, SqtMarks)
    decreases n - i,
{
    if i >= n || i < 0 {
        (items, mk)
    } else {
        let xc = sqt_turn(data, pat, 2, SqtCtx { st: c, row: items[i], mk });
        let xb = sqt_turn(data, pat, 1, SqtCtx { st: b, row: xc.row, mk: xc.mk });
        let xa = sqt_turn(data, pat, 0, SqtCtx { st: a, row: xb.row, mk: xb.mk });
        sqt_rows(data, pat, xa.st, xb.st, xc.st, xa.mk, i + 1, n, items.update(i, xa.row))
    }
}

/// The first row with each channel's starting volume.
pub open spec fn first_vols(pat: SqtPat, row: PatternRow) -> PatternRow {
    let c = row.channel;
    PatternRow {
        channel: [
            ChannelLine { volume: vol_level(pat.chn[0].vol), ..c[0] },
            ChannelLine { volume: vol_level(pat.chn[1].vol), ..c[1] },
            ChannelLine { volume: vol_level(pat.chn[2].vol), ..c[2] },
        ],
        ..row
    }
}

/// The first row with the entry's delay, unless a channel sets a delay
/// already: put in the first channel without a command (channel C when all
/// have one).
pub open spec fn with_delay(pat: SqtPat, row: PatternRow) -> PatternRow {
    let c = row.channel;
    if c[0].additional_command.number == 11 || c[1].additional_command.number == 11
        || c[2].additional_command.number == 11 {
        row
    } else {
        let k = if c[0].additional_command.number == 0 {
            0
        } else if c[1].additional_command.number == 0 {
            1
        } else {
            2int
        };
        with_cell(
            row,
            k,
            ChannelLine {
                additional_command: AdditionalCommand {
                    number: 11,
                    parameter: pat.delay,
                    ..c[k].additional_command
                },
                ..c[k]
            },
        )
    }
}

/// The pattern entry `pat` plays: as many rows as the byte at channel C's
/// table entry says.  Gives the length, rows and marks after.
pub open spec fn sqt_pattern(data: Seq<u8>, pat: SqtPat, mk: SqtMarks) -> (int, Seq<PatternRow>, SqtMarks) {
    let pp = word_at(data, SQT_OFF_PAT_PTR as int);
    let n = byte_or(data, word_at(data, pp + 2 * pat.chn[2].pat_chan_number), 0) as int;
    if n == 0 {
        (0, empty_rows(), mk)
    } else {
        let (it, mk2) = sqt_rows(
            data,
            pat,
            sqt_start(data, pat, 0),
            sqt_start(data, pat, 1),
            sqt_start(data, pat, 2),
            mk,
            0,
            n,
            empty_rows().update(0, first_vols(pat, empty_rows()[0])),
        );
        (n, it.update(0, with_delay(pat, it[0])), mk2)
    }
}

/// The state is in range.
pub open spec fn state_ok(st: SqtState) -> bool {
    &&& st.orn <= 15 || st.orn == 255
    &&& st.note <= 0x5F
    &&& st_ok(st)
}

fn start_exec(data: &[u8], pat: &SqtPat, k: usize) -> (r: SqtState)
    requires
        k < 3,
        pat.chn[k as int].pat_chan_number <= 127,
    ensures
        r == sqt_start(data@, *pat, k as int),
        state_ok(r),
{
    let pp = word_at_exec(data, SQT_OFF_PAT_PTR);
    let p = word_at_exec(data, pp + 2 * pat.chn[k].pat_chan_number);
    SqtState {
        ptr: p + 1,
        skip: 0,
        retrig: false,
        mark: 0,
        env_en: false,
        env_t: 15,
        env_p: 0,
        note: 0,
        samp: 0,
        orn: 255,
        vol: pat.chn[k].vol,
    }
}

fn first_vols_exec(pat: &SqtPat, row: PatternRow) -> (r: PatternRow)
    ensures
        r == first_vols(*pat, row),
{
    let c = row.channel;
    let mut r = row;
    r.channel = [
        ChannelLine { volume: vol_level_exec(pat.chn[0].vol), ..c[0] },
        ChannelLine { volume: vol_level_exec(pat.chn[1].vol), ..c[1] },
        ChannelLine { volume: vol_level_exec(pat.chn[2].vol), ..c[2] },
    ];
    assert(r.channel =~= first_vols(*pat, row).channel);
    r
}

fn with_delay_exec(pat: &SqtPat, row: PatternRow) -> (r: PatternRow)
    ensures
        r == with_delay(*pat, row),
{
    let c = row.channel;
    if c[0].additional_command.number == 11 || c[1].additional_command.number == 11
        || c[2].additional_command.number == 11 {
        row
    } else {
        let k: usize = if c[0].additional_command.number == 0 {
            0
        } else if c[1].additional_command.number == 0 {
            1
        } else {
            2
        };
        let cmd = AdditionalCommand { number: 11, parameter: pat.delay, ..c[k].additional_command };
        set_cell(row, k, ChannelLine { additional_command: cmd, ..c[k] })
    }
}

/// The channel numbers of an entry are below 128.
pub open spec fn pat_ok(pat: SqtPat) -> bool {
    forall|k: int| 0 <= k < 3 ==> #[trigger] pat.chn[k].pat_chan_number <= 127
}

/// Read the pattern entry `pat` plays (see [`sqt_pattern`]).
fn decode_pattern(data: &[u8], pat: &SqtPat, mk0: SqtMarks) -> (r: (Pattern, SqtMarks))
    requires
        data@.len() <= isize::MAX,
        marks_ok(mk0),
        pat_ok(*pat),
    ensures
        sqt_pattern(data@, *pat, mk0) == (r.0.length as int, r.0.items@, r.1),
        marks_ok(r.1),
{
    let pp = word_at_exec(data, SQT_OFF_PAT_PTR);
    let n = get_or(data, word_at_exec(data, pp + 2 * pat.chn[2].pat_chan_number), 0) as usize;
    let mut pattern = Pattern::default();
    assert(pattern.items@ =~= empty_rows());
    pattern.length = n;
    if n == 0 {
        return (pattern, mk0);
    }
    let r0 = first_vols_exec(pat, pattern.items[0]);
    pattern.items[0] = r0;
    let mut a = start_exec(data, pat, 0);
    let mut b = start_exec(data, pat, 1);
    let mut c = start_exec(data, pat, 2);
    let mut mk = mk0;
    let ghost target = sqt_rows(data@, *pat, a, b, c, mk, 0, n as int, pattern.items@);
    assert(pattern.items@ =~= empty_rows().update(0, first_vols(*pat, empty_rows()[0])));
    let mut i: usize = 0;
    while i < n
        invariant
            i <= n <= 255,
            pattern.length == n,
            data@.len() <= isize::MAX,
            marks_ok(mk),
            state_ok(a),
            state_ok(b),
            state_ok(c),
            sqt_rows(data@, *pat, a, b, c, mk, i as int, n as int, pattern.items@) == target,
        decreases n - i,
    {
        let xc = turn_exec(data, pat, 2, SqtCtx { st: c, row: pattern.items[i], mk });
        let xb = turn_exec(data, pat, 1, SqtCtx { st: b, row: xc.row, mk: xc.mk });
        let xa = turn_exec(data, pat, 0, SqtCtx { st: a, row: xb.row, mk: xb.mk });
        pattern.items[i] = xa.row;
        a = xa.st;
        b = xb.st;
        c = xc.st;
        mk = xa.mk;
        i = i + 1;
    }
    let r0 = with_delay_exec(pat, pattern.items[0]);
    pattern.items[0] = r0;
    (pattern, mk)
}

// ─── Positions ───────────────────────────────────────────────────────────────

/// Where `p` first occurs among `keys` from `q` on (the length when it does
/// not).
pub open spec fn find_pat(keys: Seq<SqtPat>, p: SqtPat, q: int) -> int
    decreases keys.len() - q,
{
    if q >= keys.len() || q < 0 {
        keys.len() as int
    } else if keys[q] == p {
        q
    } else {
        find_pat(keys, p, q + 1)
    }
}

/// The positions from `pos` on: seven-byte entries from the position
/// pointer, up to an entry starting with 0, the end of the data, 256
/// positions or 86 different entries.  Each entry with new settings becomes
/// the next tracker pattern, read once; the loop is the position whose entry
/// stands at the loop pointer; the delay is the first nonzero entry delay.
/// Gives the number of positions, their patterns, the patterns read, the
/// marks, the loop and the delay.
pub open spec fn sqt_walk(
    data: Seq<u8>,
    pos: int,
    values: Seq<usize>,
    keys: Seq<SqtPat>,
    pats: Seq<PatRead>,
    mk: SqtMarks,
    lp: int,
    delay: u8,
) -> (int, Seq<usize>, Seq<PatRead>, SqtMarks, int, u8)
    decreases 256 - pos,
{
    let off = word_at(data, SQT_OFF_POS_PTR as int) + 7 * pos;
    if pos >= 256 || pos < 0 || keys.len() > MAX_NUM_OF_PATS || off >= data.len() {
        (pos, values, pats, mk, lp, delay)
    } else {
        let lp1 = if off == word_at(data, SQT_OFF_LOOP_PTR as int) {
            pos
        } else {
            lp
        };
        if data[off] == 0 {
            (pos, values, pats, mk, lp1, delay)
        } else {
            let p = sqt_pat(sqt_entry(data, off));
            let d1 = if delay == 0 {
                p.delay
            } else {
                delay
            };
            let j = find_pat(keys, p, 0);
            let vals = values.update(pos, j as usize);
            if j < keys.len() {
                sqt_walk(data, pos + 1, vals, keys, pats, mk, lp1, d1)
            } else {
                let (l, it, mk2) = sqt_pattern(data, p, mk);
                sqt_walk(data, pos + 1, vals, keys.push(p), pats.update(j, Some((l, it))), mk2, lp1, d1)
            }
        }
    }
}

proof fn lemma_entry_pat_ok(data: Seq<u8>, off: int)
    ensures
        pat_ok(sqt_pat(sqt_entry(data, off))),
{
    let e = sqt_entry(data, off);
    let (f0, f1, f2) = (e[0], e[2], e[4]);
    assert((f0 & 0x7Fu8) <= 127 && (f1 & 0x7Fu8) <= 127 && (f2 & 0x7Fu8) <= 127) by (bit_vector);
}

/// Walk the positions (see [`sqt_walk`]) into `values` and `patterns`.
fn read_positions(
    data: &[u8],
    values: &mut [usize; 256],
    patterns: &mut Vec<Option<Box<Pattern>>>,
    mk0: SqtMarks,
) -> (r: (usize, SqtMarks, usize, u8))
    requires
        data@.len() <= isize::MAX,
        marks_ok(mk0),
        pats_match(old(patterns)@, no_reads()),
    ensures
        ({
            let w = sqt_walk(data@, 0, old(values)@, Seq::empty(), no_reads(), mk0, 0, 0);
            &&& w == (r.0 as int, final(values)@, w.2, r.1, r.2 as int, r.3)
            &&& pats_match(final(patterns)@, w.2)
        }),
        marks_ok(r.1),
        r.0 <= 256,
        final(patterns)@.len() == old(patterns)@.len(),
{
    let ghost target = sqt_walk(data@, 0, values@, Seq::empty(), no_reads(), mk0, 0, 0);
    let ghost mut sp = no_reads();
    let pos_ptr = word_at_exec(data, SQT_OFF_POS_PTR);
    let loop_ptr = word_at_exec(data, SQT_OFF_LOOP_PTR);
    let mut keys: Vec<SqtPat> = Vec::new();
    let mut mk = mk0;
    let mut lp: usize = 0;
    let mut delay: u8 = 0;
    let mut pos: usize = 0;
    while pos < 256
        invariant_except_break
            sqt_walk(data@, pos as int, values@, keys@, sp, mk, lp as int, delay) == target,
        invariant
            pos <= 256,
            lp <= pos,
            data@.len() <= isize::MAX,
            pos_ptr == word_at(data@, SQT_OFF_POS_PTR as int),
            pos_ptr < 65536,
            loop_ptr == word_at(data@, SQT_OFF_LOOP_PTR as int),
            marks_ok(mk),
            keys@.len() <= MAX_NUM_OF_PATS + 1,
            pats_match(patterns@, sp),
            sp.len() == MAX_NUM_OF_PATS + 1,
            patterns@.len() == MAX_NUM_OF_PATS + 1,
            forall|q: int| keys@.len() <= q < sp.len() ==> #[trigger] sp[q] is None,
        ensures
            target == (pos as int, values@, sp, mk, lp as int, delay),
        decreases 256 - pos,
    {
        if keys.len() > MAX_NUM_OF_PATS {
            break ;
        }
        let off = pos_ptr + 7 * pos;
        if off >= data.len() {
            break ;
        }
        if off == loop_ptr {
            lp = pos;
        }
        if data[off] == 0 {
            break ;
        }
        let p = read_entry(data, off);
        proof { lemma_entry_pat_ok(data@, off as int); }
        if delay == 0 {
            delay = p.delay;
        }
        let mut q: usize = 0;
        while q < keys.len()
            invariant
                q <= keys@.len(),
                find_pat(keys@, p, q as int) == find_pat(keys@, p, 0),
            ensures
                find_pat(keys@, p, 0) == q as int,
            decreases keys.len() - q,
        {
            if sqtpat_eq(&keys[q], &p) {
                break ;
            }
            q = q + 1;
        }
        let j = q;
        values[pos] = j;
        pos = pos + 1;
        if j == keys.len() {
            let (pat, mk2) = decode_pattern(data, &p, mk);
            proof {
                sp = sp.update(j as int, Some((pat.length as int, pat.items@)));
            }
            patterns.set(j, Some(Box::new(pat)));
            keys.push(p);
            mk = mk2;
        }
    }
    (pos, mk, lp, delay)
}

// ─── Ornaments ───────────────────────────────────────────────────────────────

/// Where file item `i`'s data starts, through the word table at `tab`: its
/// table entry and the entry's first two bytes lie within the data.
pub open spec fn sqt_entry_at(data: Seq<u8>, tab: int, i: int) -> Option<int> {
    let p = tab + 2 * i;
    if p + 1 < data.len() && word_at(data, p) + 1 < data.len() {
        Some(word_at(data, p))
    } else {
        None
    }
}

/// A sample's loop and length from its loop byte and extra length: a loop
/// byte below 32 plays `loop + extra` ticks (at most 32, at least 1) and
/// then repeats from the loop, spelled out after tick 32; a loop byte of 32
/// or more plays 32 ticks and then a silent one.
pub open spec fn sam_loop_len(lp_raw: int, extra: int) -> (int, int) {
    if lp_raw < 32 {
        let len0 = if lp_raw + extra > 32 {
            32
        } else {
            lp_raw + extra
        };
        let len = if len0 == 0 {
            1
        } else {
            len0
        };
        let lp = if lp_raw > len - 1 {
            len - 1
        } else {
            lp_raw
        };
        if len != 32 {
            (32, 32 + len - (lp + 1))
        } else {
            (lp, 32)
        }
    } else {
        (32, 33)
    }
}

/// An ornament's loop and length: as a sample's, one step longer when it
/// repeats; a loop byte of 32 or more takes the loop of the sample the
/// ornament was first used with (sample 0: loop 31, length 32).
pub open spec fn orn_loop_len(data: Seq<u8>, lp_raw: int, extra: int, paired: int) -> (int, int) {
    if lp_raw < 32 {
        let len0 = if lp_raw + extra > 32 {
            32
        } else {
            lp_raw + extra
        };
        let len = if len0 == 0 {
            1
        } else {
            len0
        };
        let lp = if lp_raw > len - 1 {
            len - 1
        } else {
            lp_raw
        };
        if len < 32 {
            (32, 32 + len - (lp + 1) + 1)
        } else {
            (lp, 32)
        }
    } else if paired > 0 {
        let j = word_at(data, word_at(data, SQT_OFF_SAM_PTR as int) + 2 * paired);
        let slp = byte_or(data, j, 0) as int;
        let sam_len = sam_loop_len(slp, byte_or(data, j + 1, 0) as int).1;
        if slp < 32 {
            if sam_len < 32 {
                (32, 32 + sam_len - (slp + 1) + 1)
            } else {
                (slp, 32)
            }
        } else {
            (31, 32)
        }
    } else {
        (31, 32)
    }
}

/// The ornament at `j` for tracker ornament `v`: 32 signed steps after the
/// loop and length bytes, the repeated part spelled out after them; the
/// length kept within 1..255 and the loop within the length.
pub open spec fn sqt_ornament(data: Seq<u8>, j: int, paired: int) -> OrnRead {
    let lp_raw = data[j] as int;
    let (lp0, len0) = orn_loop_len(data, lp_raw, data[j + 1] as int, paired);
    let len1 = if len0 > 255 {
        255
    } else {
        len0
    };
    let len = if len1 == 0 {
        1
    } else {
        len1
    };
    let base_lp = if lp_raw < 32 {
        lp_raw
    } else if lp0 > 31 {
        31
    } else {
        lp0
    };
    (
        len,
        if lp0 >= len {
            len - 1
        } else {
            lp0
        },
        Seq::new(255, |k: int| if k < 32 {
            byte_or(data, j + 2 + k, 0) as i8
        } else if k < len && k - 32 + base_lp < 32 {
            byte_or(data, j + 2 + (k - 32 + base_lp), 0) as i8
        } else {
            0i8
        }),
    )
}

/// The tracker ornaments after reading file ornaments `i..31` in order:
/// each one the patterns mapped, with its table entry within the data, goes
/// into its tracker slot.
pub open spec fn sqt_orn_fold(data: Seq<u8>, mk: SqtMarks, i: int, slots: Seq<Option<OrnRead>>) -> Seq<Option<OrnRead>>
    decreases 32 - i,
{
    if i >= 32 || i < 1 {
        slots
    } else {
        let v = mk.orns[i] as int;
        let e = sqt_entry_at(data, word_at(data, SQT_OFF_ORN_PTR as int), i);
        if v > 0 && e is Some {
            sqt_orn_fold(data, mk, i + 1, slots.update(v, Some(sqt_ornament(data, e->0, mk.orn2sam[v] as int))))
        } else {
            sqt_orn_fold(data, mk, i + 1, slots)
        }
    }
}

fn sam_loop_len_exec(lp_raw: usize, extra: usize) -> (r: (usize, usize))
    requires
        lp_raw < 256,
        extra < 256,
    ensures
        (r.0 as int, r.1 as int) == sam_loop_len(lp_raw as int, extra as int),
{
    if lp_raw < 32 {
        let len0 = if lp_raw + extra > 32 {
            32
        } else {
            lp_raw + extra
        };
        let len = if len0 == 0 {
            1
        } else {
            len0
        };
        let lp = if lp_raw > len - 1 {
            len - 1
        } else {
            lp_raw
        };
        if len != 32 {
            (32, 32 + len - (lp + 1))
        } else {
            (lp, 32)
        }
    } else {
        (32, 33)
    }
}

fn orn_loop_len_exec(data: &[u8], lp_raw: usize, extra: usize, paired: usize) -> (r: (usize, usize))
    requires
        lp_raw < 256,
        extra < 256,
        paired < 256,
    ensures
        (r.0 as int, r.1 as int) == orn_loop_len(data@, lp_raw as int, extra as int, paired as int),
{
    if lp_raw < 32 {
        let len0 = if lp_raw + extra > 32 {
            32
        } else {
            lp_raw + extra
        };
        let len = if len0 == 0 {
            1
        } else {
            len0
        };
        let lp = if lp_raw > len - 1 {
            len - 1
        } else {
            lp_raw
        };
        if len < 32 {
            (32, 32 + len - (lp + 1) + 1)
        } else {
            (lp, 32)
        }
    } else if paired > 0 {
        let sp = word_at_exec(data, SQT_OFF_SAM_PTR);
        let j = word_at_exec(data, sp + 2 * paired);
        let slp = get_or(data, j, 0) as usize;
        let sam_len = sam_loop_len_exec(slp, get_or(data, j + 1, 0) as usize).1;
        if slp < 32 {
            if sam_len < 32 {
                (32, 32 + sam_len - (slp + 1) + 1)
            } else {
                (slp, 32)
            }
        } else {
            (31, 32)
        }
    } else {
        (31, 32)
    }
}

/// Read the ornament at `j` (see [`sqt_ornament`]).
fn read_ornament(data: &[u8], j: usize, paired: usize) -> (r: Ornament)
    requires
        j + 1 < data@.len(),
        j < 65536,
        paired < 256,
    ensures
        sqt_ornament(data@, j as int, paired as int) == (r.length as int, r.loop_pos as int, r.items@),
{
    let mut orn = Ornament::default();
    let lp_raw = data[j] as usize;
    let (lp0, len0) = orn_loop_len_exec(data, lp_raw, data[j + 1] as usize, paired);
    let len1 = if len0 > 255 {
        255
    } else {
        len0
    };
    let len = if len1 == 0 {
        1
    } else {
        len1
    };
    let base_lp = if lp_raw < 32 {
        lp_raw
    } else if lp0 > 31 {
        31
    } else {
        lp0
    };
    let ghost want = sqt_ornament(data@, j as int, paired as int).2;
    let mut k: usize = 0;
    while k < 32
        invariant
            k <= 32,
            j < 65536,
            want == sqt_ornament(data@, j as int, paired as int).2,
            forall|q: int| 0 <= q < 255 ==> #[trigger] orn.items[q] == if q < k {
                want[q]
            } else {
                0i8
            },
        decreases 32 - k,
    {
        orn.items[k] = get_or(data, j + 2 + k, 0) as i8;
        k = k + 1;
    }
    while k < len
        invariant
            32 <= k,
            k <= 255,
            len <= 255,
            base_lp <= 31,
            j < 65536,
            want == sqt_ornament(data@, j as int, paired as int).2,
            len as int == sqt_ornament(data@, j as int, paired as int).0,
            base_lp == (if lp_raw < 32 {
                lp_raw as int
            } else if lp0 > 31 {
                31
            } else {
                lp0 as int
            }),
            lp_raw as int == data@[j as int] as int,
            (lp0 as int, len0 as int) == orn_loop_len(data@, lp_raw as int, data@[j + 1] as int, paired as int),
            forall|q: int| 0 <= q < 255 ==> #[trigger] orn.items[q] == if q < k {
                want[q]
            } else {
                0i8
            },
        decreases len - k,
    {
        let src = k - 32 + base_lp;
        if src < 32 {
            orn.items[k] = orn.items[src];
        }
        k = k + 1;
    }
    assert(orn.items@ =~= want);
    orn.length = len;
    orn.loop_pos = if lp0 >= len {
        len - 1
    } else {
        lp0
    };
    orn
}

/// Read the ornaments the patterns mapped (see [`sqt_orn_fold`]).
fn read_ornaments(data: &[u8], mk: &SqtMarks, ornaments: &mut [Option<Box<Ornament>>; 16])
    requires
        data@.len() <= isize::MAX,
        marks_ok(*mk),
    ensures
        orns_match(final(ornaments)@, sqt_orn_fold(data@, *mk, 1, old(ornaments)@.map_values(|o: Option<Box<Ornament>>| match o {
            Some(b) => Some((b.length as int, b.loop_pos as int, b.items@)),
            None => None,
        }))),
{
    let ghost start = ornaments@.map_values(|o: Option<Box<Ornament>>| match o {
        Some(b) => Some((b.length as int, b.loop_pos as int, b.items@)),
        None => None,
    });
    let ghost target = sqt_orn_fold(data@, *mk, 1, start);
    let ghost mut cur = start;
    assert(orns_match(ornaments@, cur));
    let tab = word_at_exec(data, SQT_OFF_ORN_PTR);
    let mut i: usize = 1;
    while i < 32
        invariant
            1 <= i <= 32,
            data@.len() <= isize::MAX,
            marks_ok(*mk),
            tab == word_at(data@, SQT_OFF_ORN_PTR as int),
            tab < 65536,
            orns_match(ornaments@, cur),
            sqt_orn_fold(data@, *mk, i as int, cur) == target,
        decreases 32 - i,
    {
        let l = mk.orns[i];
        if l > 0 {
            let p = tab + 2 * i;
            if p + 1 < data.len() {
                let j = word_at_exec(data, p);
                if j + 1 < data.len() {
                    let v = l as usize;
                    let orn = read_ornament(data, j, mk.orn2sam[v] as usize);
                    proof {
                        cur = cur.update(v as int, Some(sqt_ornament(data@, j as int, mk.orn2sam[v as int] as int)));
                    }
                    ornaments[v] = Some(Box::new(orn));
                }
            }
        }
        i = i + 1;
    }
}

// ─── Samples ─────────────────────────────────────────────────────────────────

/// A three-byte sample tick: amplitude in the low nibble of byte 0 (0
/// meaning the envelope); in byte 1, bit 5 turns the noise on and bit 6 the
/// tone, bit 4 makes the tone offset positive (its high bits the low
/// nibble, byte 2 its low byte); with noise on, byte 0's high nibble and
/// byte 1's bit 7 make the signed five-bit noise offset.
pub open spec fn sqt_tick(b0: u8, b1: u8, b2: u8) -> SampleTick {
    let amp = b0 & 0x0Fu8;
    let noise = b1 & 0x20u8 != 0u8;
    let raw = ((b0 & 0xF0u8) >> 3u8) | (if b1 & 0x80u8 != 0u8 {
        1u8
    } else {
        0u8
    });
    let ton = (b1 & 0x0Fu8) as int * 256 + b2 as int;
    SampleTick {
        amplitude: amp,
        envelope_enabled: amp == 0,
        mixer_noise: noise,
        mixer_ton: b1 & 0x40u8 != 0u8,
        add_to_envelope_or_noise: if !noise {
            0i8
        } else if raw & 0x10u8 != 0u8 {
            (raw as int - 32) as i8
        } else {
            raw as i8
        },
        add_to_ton: if b1 & 0x10u8 != 0u8 {
            ton as i16
        } else {
            (-ton) as i16
        },
        ..blank_tick()
    }
}

/// The sample at `j`: 32 ticks after the loop and extra-length bytes, the
/// repeated part spelled out after them (see [`sam_loop_len`]); the loop
/// kept within the length.
pub open spec fn sqt_sample(data: Seq<u8>, j: int) -> SamRead {
    let lp_raw = data[j] as int;
    let (lp0, len0) = sam_loop_len(lp_raw, data[j + 1] as int);
    let len = if len0 > 64 {
        64
    } else {
        len0
    };
    let base = |k: int|
        sqt_tick(byte_or(data, j + 2 + 3 * k, 0), byte_or(data, j + 3 + 3 * k, 0), byte_or(data, j + 4 + 3 * k, 0));
    (
        len,
        if lp0 >= len {
            len - 1
        } else {
            lp0
        },
        Seq::new(64, |k: int| if k < 32 {
            base(k)
        } else if lp_raw != 32 && len > 33 && k < len {
            base(k - 32 + lp_raw)
        } else {
            blank_tick()
        }),
    )
}

/// The sample slots: each sample 1..31 the patterns use, with its table
/// entry within the data.
pub open spec fn sqt_sam_slots(data: Seq<u8>, mk: SqtMarks) -> Seq<Option<SamRead>> {
    Seq::new(32, |i: int| {
        let e = sqt_entry_at(data, word_at(data, SQT_OFF_SAM_PTR as int), i);
        if 1 <= i < 32 && mk.is_sample[i] && e is Some {
            Some(sqt_sample(data, e->0))
        } else {
            None
        }
    })
}

fn tick_exec(b0: u8, b1: u8, b2: u8) -> (r: SampleTick)
    ensures
        r == sqt_tick(b0, b1, b2),
{
    let amp = b0 & 0x0F;
    let noise = b1 & 0x20 != 0;
    let lo: u8 = if b1 & 0x80 != 0 {
        1
    } else {
        0
    };
    let raw = ((b0 & 0xF0) >> 3) | lo;
    assert(raw < 32) by (bit_vector)
        requires
            raw == ((b0 & 0xF0u8) >> 3u8) | lo,
            lo <= 1,
    ;
    let ton: i32 = (b1 & 0x0F) as i32 * 256 + b2 as i32;
    let aeon: i8 = if !noise {
        0
    } else if raw & 0x10 != 0 {
        (raw as i16 - 32) as i8
    } else {
        raw as i8
    };
    SampleTick {
        add_to_ton: if b1 & 0x10 != 0 {
            ton as i16
        } else {
            (-ton) as i16
        },
        ton_accumulation: false,
        amplitude: amp,
        amplitude_sliding: false,
        amplitude_slide_up: false,
        envelope_enabled: amp == 0,
        envelope_or_noise_accumulation: false,
        add_to_envelope_or_noise: aeon,
        mixer_ton: b1 & 0x40 != 0,
        mixer_noise: noise,
    }
}

/// Read the sample at `j` (see [`sqt_sample`]).
fn read_sample(data: &[u8], j: usize) -> (r: Sample)
    requires
        j + 1 < data@.len(),
        j < 65536,
    ensures
        sqt_sample(data@, j as int) == (r.length as int, r.loop_pos as int, r.items@),
        r.enabled,
{
    let mut sam = Sample::default();
    let lp_raw = data[j] as usize;
    let (lp0, len0) = sam_loop_len_exec(lp_raw, data[j + 1] as usize);
    let len: usize = if len0 > 64 {
        64
    } else {
        len0
    };
    let ghost want = sqt_sample(data@, j as int).2;
    let mut k: usize = 0;
    while k < 32
        invariant
            k <= 32,
            j < 65536,
            sam.enabled,
            want == sqt_sample(data@, j as int).2,
            forall|q: int| 0 <= q < 64 ==> #[trigger] sam.items[q] == if q < k {
                want[q]
            } else {
                blank_tick()
            },
        decreases 32 - k,
    {
        let base = j + 2 + 3 * k;
        sam.items[k] = tick_exec(get_or(data, base, 0), get_or(data, base + 1, 0), get_or(data, base + 2, 0));
        k = k + 1;
    }
    if lp_raw != 32 && len > 33 {
        while k < len
            invariant
                32 <= k <= len,
                33 < len <= 64,
                lp_raw < 32 || lp_raw > 32,
                lp_raw as int == data@[j as int] as int,
                (lp0 as int, len0 as int) == sam_loop_len(lp_raw as int, data@[j + 1] as int),
                len as int == sqt_sample(data@, j as int).0,
                j < 65536,
                sam.enabled,
                want == sqt_sample(data@, j as int).2,
                forall|q: int| 0 <= q < 64 ==> #[trigger] sam.items[q] == if q < k {
                    want[q]
                } else {
                    blank_tick()
                },
            decreases len - k,
        {
            let src = k - 32 + lp_raw;
            sam.items[k] = sam.items[src];
            k = k + 1;
        }
    }
    assert(sam.items@ =~= want);
    sam.length = len as u8;
    sam.loop_pos = if lp0 >= len {
        (len - 1) as u8
    } else {
        lp0 as u8
    };
    sam
}

/// Read the samples the patterns use into their slots (see
/// [`sqt_sam_slots`]).
fn read_samples(data: &[u8], mk: &SqtMarks, samples: &mut [Option<Box<Sample>>; 32])
    requires
        data@.len() <= isize::MAX,
        sams_match(old(samples)@, Seq::new(32, |v: int| None)),
    ensures
        sams_match(final(samples)@, sqt_sam_slots(data@, *mk)),
{
    let ghost want = sqt_sam_slots(data@, *mk);
    let tab = word_at_exec(data, SQT_OFF_SAM_PTR);
    let mut i: usize = 1;
    while i < 32
        invariant
            1 <= i <= 32,
            data@.len() <= isize::MAX,
            tab == word_at(data@, SQT_OFF_SAM_PTR as int),
            tab < 65536,
            want == sqt_sam_slots(data@, *mk),
            sams_match(samples@, Seq::new(32, |q: int| if q < i {
                want[q]
            } else {
                None
            })),
        decreases 32 - i,
    {
        if mk.is_sample[i] {
            let p = tab + 2 * i;
            if p + 1 < data.len() {
                let j = word_at_exec(data, p);
                if j + 1 < data.len() {
                    let sam = read_sample(data, j);
                    samples[i] = Some(Box::new(sam));
                }
            }
        }
        i = i + 1;
    }
    assert(Seq::new(32, |q: int| if q < 32 {
        want[q]
    } else {
        None
    }) =~= want);
}

// ─── The module ──────────────────────────────────────────────────────────────

/// Nothing used yet: no samples, no file ornament mapped, no ornaments.
pub open spec fn marks0() -> SqtMarks {
    SqtMarks {
        is_sample: vstd::array::spec_array_fill_for_copy_type::<bool, 32>(false),
        orns: vstd::array::spec_array_fill_for_copy_type::<i32, 32>(-1i32),
        orn2sam: vstd::array::spec_array_fill_for_copy_type::<u8, 16>(0u8),
        n_orns: 0,
    }
}

/// The position walk over the whole file (see [`sqt_walk`]).
pub open spec fn sqt_song(data: Seq<u8>) -> (int, Seq<usize>, Seq<PatRead>, SqtMarks, int, u8) {
    sqt_walk(data, 0, Seq::new(256, |i: int| 0usize), Seq::empty(), no_reads(), marks0(), 0, 0)
}

/// `m` is the module the SQT file `data` describes: no title or author,
/// tone table 1, the positions, patterns, loop and delay of the walk, and
/// the ornaments and samples the patterns use.
pub open spec fn sqt_module(data: Seq<u8>, m: Module) -> bool {
    let (n, values, pats, mk, lp, d) = sqt_song(data);
    &&& m.features_level == FeaturesLevel::Pt35
    &&& !m.vortex_module_header
    &&& m.ton_table == 1
    &&& m.initial_delay == d
    &&& m.title@ == Seq::<char>::empty()
    &&& m.author@ == Seq::<char>::empty()
    &&& m.positions.length == n
    &&& m.positions.value@ == values
    &&& m.positions.loop_pos == lp
    &&& pats_match(m.patterns@, pats)
    &&& orns_match(m.ornaments@, sqt_orn_fold(data, mk, 1, start_orn_slots()))
    &&& sams_match(m.samples@, sqt_sam_slots(data, mk))
    &&& forall|c: int|
        0 <= c < 3 ==> #[trigger] m.is_chans[c] == (crate::types::ChannelState {
            global_ton: true,
            global_noise: true,
            global_envelope: true,
            envelope_enabled: false,
            ornament: 0,
            sample: 1,
            volume: 15,
        })
}

/// What reading the SQT file `data` gives: files shorter than the header
/// are refused, otherwise the module [`sqt_module`] describes.
pub open spec fn parse_outcome(data: Seq<u8>, r: Result<Module, FormatError>) -> bool {
    &&& data.len() < SQT_MIN_FILE_SIZE ==> r == Err::<Module, FormatError>(FormatError::TooShort)
    &&& data.len() >= SQT_MIN_FILE_SIZE ==> (r matches Ok(m) && m.wf() && sqt_module(data, m))
}

/// Parse a Square Tracker (`.sqt`) file (see [`parse_outcome`]).
pub fn parse(data: &[u8]) -> (r: Result<Module, FormatError>)
    requires
        data@.len() <= isize::MAX,
    ensures
        parse_outcome(data@, r),
{
    if data.len() < SQT_MIN_FILE_SIZE {
        return Err(FormatError::TooShort);
    }
    let mut module = Module::default();
    module.features_level = FeaturesLevel::Pt35;
    module.vortex_module_header = false;
    module.ton_table = 1;
    module.initial_delay = 0;
    assert(module.title@ =~= Seq::<char>::empty());
    assert(module.author@ =~= Seq::<char>::empty());
    let mk0 = SqtMarks { is_sample: [false; 32], orns: [-1i32; 32], orn2sam: [0u8; 16], n_orns: 0 };
    assert(mk0.is_sample =~= marks0().is_sample);
    assert(mk0.orns =~= marks0().orns);
    assert(mk0.orn2sam =~= marks0().orn2sam);
    assert(pats_match(module.patterns@, no_reads()));
    assert(module.positions.value@ =~= Seq::new(256, |i: int| 0usize));
    let (n, mk, lp, d) = read_positions(data, &mut module.positions.value, &mut module.patterns, mk0);
    module.positions.length = n;
    module.positions.loop_pos = lp;
    module.initial_delay = d;
    assert(module.ornaments[0] matches Some(o) && o.items@ =~= crate::formats::asc::zero_offsets());
    assert(module.ornaments@.map_values(|o: Option<Box<Ornament>>| match o {
        Some(b) => Some((b.length as int, b.loop_pos as int, b.items@)),
        None => None,
    }) =~= start_orn_slots());
    read_ornaments(data, &mk, &mut module.ornaments);
    assert(sams_match(module.samples@, Seq::new(32, |v: int| None)));
    read_samples(data, &mk, &mut module.samples);
    Ok(module)
}

/// The fields of an SQT sample tick by the bits of its bytes: the amplitude
/// is the low nibble of byte 0, 0 meaning the envelope; in byte 1, bit 5
/// turns the noise on and bit 6 the tone, and bit 4 makes the tone offset
/// (256 times its low nibble plus byte 2) positive; with the noise on, the
/// noise offset is the signed five-bit value of byte 0's high nibble (high
/// bits) and byte 1's bit 7 (low bit).
pub proof fn lemma_sqt_tick_bits(b0: u8, b1: u8, b2: u8)
    ensures
        ({
            let t = sqt_tick(b0, b1, b2);
            let ton = (b1 as int % 16) * 256 + b2 as int;
            let noise = (b1 as int / 32) % 2 == 1;
            let raw = (b0 as int / 16) * 2 + (b1 as int / 128) % 2;
            &&& t.amplitude as int == b0 as int % 16
            &&& t.envelope_enabled == (b0 as int % 16 == 0)
            &&& t.mixer_noise == noise
            &&& t.mixer_ton == ((b1 as int / 64) % 2 == 1)
            &&& t.add_to_ton as int == if (b1 as int / 16) % 2 == 1 { ton } else { -ton }
            &&& t.add_to_envelope_or_noise as int == if noise { crate::formats::asc::signed5(raw) } else { 0 }
        }),
{
    let lo: u8 = if b1 & 0x80u8 != 0u8 { 1u8 } else { 0u8 };
    assert(b0 & 0x0Fu8 == b0 % 16 && (b1 & 0x20u8 != 0) == ((b1 / 32) % 2 == 1) && (b1 & 0x40u8 != 0) == ((b1 / 64)
        % 2 == 1) && (b1 & 0x10u8 != 0) == ((b1 / 16) % 2 == 1) && b1 & 0x0Fu8 == b1 % 16 && ((b0 & 0xF0u8) >> 3u8)
        == (b0 / 16) * 2 && (b1 & 0x80u8 != 0) == ((b1 / 128) % 2 == 1) && (lo <= 1 ==> ((b0 & 0xF0u8) >> 3u8) | lo
        == ((b0 & 0xF0u8) >> 3u8) + lo && ((((b0 & 0xF0u8) >> 3u8) | lo) & 0x10u8 != 0) == ((((b0 & 0xF0u8) >> 3u8)
        | lo) >= 16))) by (bit_vector);
}

} // verus!
