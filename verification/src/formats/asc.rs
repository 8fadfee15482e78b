//! ASC Sound Master (`*.asc`, `*.as0`) binary module files: reader.
use crate::formats::pt3::{trim_end, trim_right_ascii};
use crate::formats::FormatError;
use crate::note_tables::PT3_NOTE_TABLE_ST;
use crate::types::{
    blank_tick, empty_row, AdditionalCommand, ChannelLine, FeaturesLevel, Module, Ornament,
    Pattern, PatternRow, Sample, SampleTick, MAX_NUM_OF_PATS, NOTE_SOUND_OFF,
};
use vstd::prelude::*;

verus! {

// ─── Header layout ───────────────────────────────────────────────────────────
/// Initial delay.
pub const ASC1_OFF_DELAY: usize = 0;
/// Loop position.
pub const ASC1_OFF_LOOP_POS: usize = 1;
/// Word: base of the pattern table.
pub const ASC1_OFF_PAT_PTRS: usize = 2;
/// Word: base of the sample table.
pub const ASC1_OFF_SAM_PTRS: usize = 4;
/// Word: base of the ornament table.
pub const ASC1_OFF_ORN_PTRS: usize = 6;
/// Number of positions.
pub const ASC1_OFF_NUM_POS: usize = 8;
/// Position list, one pattern number per byte.
pub const ASC1_OFF_POSITIONS: usize = 9;
/// Smallest ASC file: header and one position.
pub const ASC_MIN_FILE_SIZE: usize = 10;

/// The byte at `i`, or `dflt` past the end of the data.
pub open spec fn byte_or(data: Seq<u8>, i: int, dflt: u8) -> u8 {
    if 0 <= i < data.len() {
        data[i]
    } else {
        dflt
    }
}

/// The little-endian word at `off`, bytes past the end reading as 0.
pub open spec fn word_at(data: Seq<u8>, off: int) -> int {
    byte_or(data, off, 0) as int + 256 * byte_or(data, off + 1, 0) as int
}

fn get_or(data: &[u8], i: usize, dflt: u8) -> (r: u8)
    ensures
        r == byte_or(data@, i as int, dflt),
{
    if i < data.len() {
        data[i]
    } else {
        dflt
    }
}

fn word_at_exec(data: &[u8], off: usize) -> (r: usize)
    requires
        off < usize::MAX,
    ensures
        r == word_at(data@, off as int),
        r < 65536,
{
    let lo = get_or(data, off, 0) as usize;
    let hi = get_or(data, off + 1, 0) as usize;
    lo + hi * 256
}

// ─── Channel state ───────────────────────────────────────────────────────────

/// One channel's decoding state within a pattern.
#[derive(Clone, Copy, PartialEq, Eq, Structural)]
pub struct AscChan {
    pub ptr: usize,
    pub skip: i8,
    pub skip_ctr: i8,
    pub env_en: bool,
    pub ts_cnt: i16,
    pub ts: i16,
    pub vc: i32,
    pub vc_dop: i32,
    pub prev_note: u8,
    pub vol: i8,
    pub prev_vol: i8,
    pub pat_vol: i8,
    pub prev_orn: u8,
}

/// A channel at the start of a pattern, reading from `ptr`.
pub open spec fn chan_start(ptr: usize) -> AscChan {
    AscChan {
        ptr,
        skip: 0,
        skip_ctr: 0,
        env_en: false,
        ts_cnt: 0,
        ts: 0,
        vc: 0,
        vc_dop: 0,
        prev_note: 0,
        vol: 0,
        prev_vol: 0,
        pat_vol: 0,
        prev_orn: 0,
    }
}

/// The sample and ornament numberings built while reading (file index to
/// tracker index, -1 when not yet seen), their counts, and the envelope
/// shape in force.
#[derive(Clone, Copy)]
pub struct AscMaps {
    pub orns: [i32; 32],
    pub sams: [i32; 32],
    pub n_orns: usize,
    pub n_sams: usize,
    pub env_t: i32,
}

/// The maps have at most 31 samples and 16 ornaments.
pub open spec fn maps_ok(mp: AscMaps) -> bool {
    &&& mp.n_sams <= 31
    &&& mp.n_orns <= 16
    &&& forall|a: int| 0 <= a < 32 ==> -1 <= #[trigger] mp.sams[a] <= mp.n_sams
    &&& forall|a: int| 0 <= a < 32 ==> -1 <= #[trigger] mp.orns[a] <= mp.n_orns
    &&& mp.env_t == 0 || mp.env_t == 8 || mp.env_t == 10 || mp.env_t == 12 || mp.env_t == 14
}

/// The channel state is in range.
pub open spec fn asc_chan_ok(c: AscChan) -> bool {
    &&& c.prev_note <= 0x55
    &&& 0 <= c.vol <= 15
    &&& 0 <= c.prev_vol <= 15
    &&& 0 <= c.pat_vol <= 15
    &&& c.prev_orn <= 16
    &&& -64 <= c.vc <= 255
    &&& 0 <= c.vc_dop <= 255
    &&& 0 <= c.skip <= 63
    &&& -1 <= c.skip_ctr <= 63
}

/// The tone-slide counter over `d` ticks: a running slide clears its offset
/// and counts down to zero (a negative count never ends).
pub open spec fn ts_tick(c: AscChan, d: int) -> AscChan {
    if c.ts_cnt == 0 {
        c
    } else if c.ts_cnt > 0 {
        AscChan {
            ts: 0,
            ts_cnt: if c.ts_cnt > d {
                (c.ts_cnt - d) as i16
            } else {
                0i16
            },
            ..c
        }
    } else {
        AscChan { ts: 0, ..c }
    }
}

fn ts_tick_exec(c: AscChan, d: i32) -> (r: AscChan)
    requires
        1 <= d <= 256,
    ensures
        r == ts_tick(c, d as int),
{
    if c.ts_cnt == 0 {
        c
    } else if c.ts_cnt > 0 {
        let cnt: i16 = if c.ts_cnt as i32 > d {
            (c.ts_cnt as i32 - d) as i16
        } else {
            0
        };
        AscChan { ts: 0, ts_cnt: cnt, ..c }
    } else {
        AscChan { ts: 0, ..c }
    }
}

/// The tracker number of file sample or ornament `a`: the number given
/// before, or the next free one (up to `limit`; 0 once they run out).
pub open spec fn map_index(table: [i32; 32], n: usize, a: int, limit: usize) -> ([i32; 32], usize, int) {
    if table[a] < 0 {
        if n < limit {
            (vstd::array::spec_array_update(table, a, (n + 1) as i32), (n + 1) as usize, n + 1)
        } else {
            (table, n, 0)
        }
    } else {
        (table, n, table[a] as int)
    }
}

fn map_index_exec(table: [i32; 32], n: usize, a: usize, limit: usize) -> (r: ([i32; 32], usize, usize))
    requires
        a < 32,
        n <= limit <= 31,
        forall|i: int| 0 <= i < 32 ==> -1 <= #[trigger] table[i] <= n,
    ensures
        r.0 == map_index(table, n, a as int, limit).0,
        r.1 == map_index(table, n, a as int, limit).1,
        r.2 == map_index(table, n, a as int, limit).2,
        r.1 <= limit,
        r.2 <= r.1,
        forall|i: int| 0 <= i < 32 ==> -1 <= #[trigger] r.0[i] <= r.1,
{
    let mut t = table;
    if t[a] < 0 {
        if n < limit {
            t[a] = (n + 1) as i32;
            assert(t =~= vstd::array::spec_array_update(table, a as int, (n + 1) as i32));
            (t, n + 1, n + 1)
        } else {
            (t, n, 0)
        }
    } else {
        (t, n, t[a] as usize)
    }
}

/// The signed byte `b`.
pub open spec fn sbyte(b: u8) -> int {
    if b >= 128 {
        b as int - 256
    } else {
        b as int
    }
}

/// The remainder of `a / b` rounded toward zero (`b > 0`).
pub open spec fn rem_toward_zero(a: int, b: int) -> int {
    if a >= 0 {
        a % b
    } else {
        -((-a) % b)
    }
}

/// A glissando: the slide speed and target note at `ptr` (only the speed
/// byte is consumed), turned into a tone-slide command from the previous
/// note to the target.
pub open spec fn calc_slide(data: Seq<u8>, ptr: int, cl: ChannelLine, c: AscChan) -> (ChannelLine, AscChan) {
    let speed = byte_or(data, ptr, 1) as int;
    let target = byte_or(data, ptr + 1, 0) as int;
    let base = if target < 0x56 {
        (PT3_NOTE_TABLE_ST[c.prev_note as int] as int - PT3_NOTE_TABLE_ST[target] as int) * 16
    } else {
        0
    };
    let dt = base + c.ts as int;
    let ts2 = (dt - (if speed > 0 {
        rem_toward_zero(dt, speed)
    } else {
        0
    })) as i16;
    let da = if dt >= 0 {
        dt / 16
    } else {
        (-dt) / 16
    };
    let (delay, param): (u8, u8) = if da != 0 && speed > 0 {
        let i = da / speed;
        if i > 0 {
            (1u8, (if i > 255 {
                255
            } else {
                i
            }) as u8)
        } else {
            let dd = speed / da;
            ((if dd > 15 {
                15
            } else {
                dd
            }) as u8, 1u8)
        }
    } else {
        (15u8, 1u8)
    };
    (
        ChannelLine {
            additional_command: AdditionalCommand { number: 3, delay, parameter: param },
            ..cl
        },
        AscChan { ptr: (ptr + 1) as usize, ts: ts2, ts_cnt: speed as i16, ..c },
    )
}

fn calc_slide_exec(data: &[u8], cl: ChannelLine, c: AscChan) -> (r: (ChannelLine, AscChan))
    requires
        c.prev_note <= 0x55,
        c.ptr < usize::MAX - 1,
    ensures
        r == calc_slide(data@, c.ptr as int, cl, c),
{
    let speed = get_or(data, c.ptr, 1) as i32;
    let target = get_or(data, c.ptr + 1, 0) as usize;
    let base: i32 = if target < 0x56 {
        (PT3_NOTE_TABLE_ST[c.prev_note as usize] as i32 - PT3_NOTE_TABLE_ST[target] as i32) * 16
    } else {
        0
    };
    let dt: i32 = base + c.ts as i32;
    let r: i32 = if speed > 0 {
        if dt >= 0 {
            dt % speed
        } else {
            -((-dt) % speed)
        }
    } else {
        0
    };
    let ts2 = #[verifier::truncate] ((dt - r) as i16);
    let da: i32 = if dt >= 0 {
        dt / 16
    } else {
        (-dt) / 16
    };
    let (delay, param): (u8, u8) = if da != 0 && speed > 0 {
        let i = da / speed;
        if i > 0 {
            (1u8, (if i > 255 {
                255
            } else {
                i
            }) as u8)
        } else {
            let dd = speed / da;
            ((if dd > 15 {
                15
            } else {
                dd
            }) as u8, 1u8)
        }
    } else {
        (15u8, 1u8)
    };
    (
        ChannelLine {
            additional_command: AdditionalCommand { number: 3, delay, parameter: param },
            ..cl
        },
        AscChan { ptr: c.ptr + 1, ts: ts2, ts_cnt: speed as i16, ..c },
    )
}

/// The interpreter state of one channel within a row: channel state, maps,
/// noise base, "sample init disabled", cell and row envelope period.
pub type AscStep = (AscChan, AscMaps, u8, bool, ChannelLine, u16);

/// `cl` with its command set.
pub open spec fn with_cmd(cl: ChannelLine, number: u8, delay: u8, parameter: u8) -> ChannelLine {
    ChannelLine { additional_command: AdditionalCommand { number, delay, parameter }, ..cl }
}

/// One channel's commands for one row, read until a note, rest or sound-off
/// byte or the end of the data; `d` is the row's tick count.
pub open spec fn asc_interp(data: Seq<u8>, st: AscStep, d: int) -> AscStep
    decreases data.len() + 2 - st.0.ptr,
{
    let (c, mp, ns, dis, cl, env) = st;
    if c.ptr >= data.len() || data.len() >= usize::MAX - 4 {
        st
    } else {
        let b = data[c.ptr as int];
        let p = c.ptr + 1;
        let c1 = AscChan { ptr: p as usize, ..c };
        if b <= 0x55 {
            let c2 = AscChan {
                prev_note: b,
                ts: if c1.ts_cnt <= 0 {
                    0i16
                } else {
                    c1.ts
                },
                ..c1
            };
            let cl2 = ChannelLine { note: b as i8, ..cl };
            let (c3, cl3, env3) = if c2.env_en {
                (
                    AscChan { ptr: (p + 1) as usize, ..c2 },
                    ChannelLine { envelope: mp.env_t as u8, ornament: c2.prev_orn, ..cl2 },
                    byte_or(data, p, 0) as u16,
                )
            } else {
                (c2, cl2, env)
            };
            let (c4, cl4) = if !dis && c3.vol != c3.prev_vol {
                (
                    AscChan { pat_vol: c3.vol, prev_vol: c3.vol, ..c3 },
                    ChannelLine { volume: c3.vol as u8, ..cl3 },
                )
            } else {
                (c3, cl3)
            };
            (ts_tick(c4, d), mp, ns, dis, cl4, env3)
        } else if b <= 0x5D {
            (ts_tick(c1, d), mp, ns, dis, cl, env)
        } else if b <= 0x5F {
            (ts_tick(c1, d), mp, ns, dis, ChannelLine { note: NOTE_SOUND_OFF, ..cl }, env)
        } else if b <= 0x9F {
            asc_interp(data, (AscChan { skip: (b - 0x60) as i8, ..c1 }, mp, ns, dis, cl, env), d)
        } else if b <= 0xBF {
            let (t, n, mapped) = map_index(mp.sams, mp.n_sams, (b - 0xA0) as int, 31);
            asc_interp(
                data,
                (
                    c1,
                    AscMaps { sams: t, n_sams: n, ..mp },
                    ns,
                    dis,
                    ChannelLine { sample: mapped as u8, ..cl },
                    env,
                ),
                d,
            )
        } else if b <= 0xDF {
            let (t, n, mapped) = map_index(mp.orns, mp.n_orns, (b - 0xC0) as int, 16);
            asc_interp(
                data,
                (
                    AscChan { prev_orn: mapped as u8, ..c1 },
                    AscMaps { orns: t, n_orns: n, ..mp },
                    ns,
                    dis,
                    ChannelLine {
                        ornament: mapped as u8,
                        envelope: if cl.envelope == 0 {
                            15u8
                        } else {
                            cl.envelope
                        },
                        ..cl
                    },
                    env,
                ),
                d,
            )
        } else if b == 0xE0 {
            let cl2 = if c1.pat_vol != 15 {
                ChannelLine { volume: 15, ..cl }
            } else {
                cl
            };
            asc_interp(
                data,
                (AscChan { pat_vol: 15, vol: 15, prev_vol: 15, env_en: true, ..c1 }, mp, ns, dis, cl2, env),
                d,
            )
        } else if b <= 0xEF {
            let iv = (b - 0xE0) as i8;
            let cl2 = if c1.pat_vol != iv {
                ChannelLine { volume: iv as u8, ..cl }
            } else {
                cl
            };
            let cl3 = if c1.env_en {
                ChannelLine { envelope: 15, ornament: c1.prev_orn, ..cl2 }
            } else {
                cl2
            };
            asc_interp(
                data,
                (AscChan { pat_vol: iv, vol: iv, prev_vol: iv, env_en: false, ..c1 }, mp, ns, dis, cl3, env),
                d,
            )
        } else if b == 0xF0 {
            let v = byte_or(data, p, 0);
            asc_interp(data, (AscChan { ptr: (p + 1) as usize, ..c1 }, mp, v & 0x1Fu8, dis, cl, env), d)
        } else if b == 0xF1 || b == 0xF3 {
            asc_interp(data, (c1, mp, ns, true, cl, env), d)
        } else if b == 0xF4 {
            let v = byte_or(data, p, 0);
            asc_interp(
                data,
                (
                    AscChan { ptr: (p + 1) as usize, ..c1 },
                    mp,
                    ns,
                    dis,
                    with_cmd(cl, 11, cl.additional_command.delay, v),
                    env,
                ),
                d,
            )
        } else if b == 0xF5 || b == 0xF6 {
            let v = byte_or(data, p, 0);
            let ts2 = if b == 0xF5 {
                (c1.ts as int + v as int * 16) as i16
            } else {
                (c1.ts as int - v as int * 16) as i16
            };
            asc_interp(
                data,
                (
                    AscChan { ptr: (p + 1) as usize, ts: ts2, ts_cnt: -1i16, ..c1 },
                    mp,
                    ns,
                    dis,
                    with_cmd(cl, if b == 0xF5 { 2u8 } else { 1u8 }, 1, v),
                    env,
                ),
                d,
            )
        } else if b == 0xF7 || b == 0xF9 {
            let (cl2, c2) = calc_slide(data, p, cl, c1);
            asc_interp(data, (c2, mp, ns, dis || b == 0xF7, cl2, env), d)
        } else if b == 0xF8 || b == 0xFA || b == 0xFC || b == 0xFE {
            asc_interp(data, (c1, AscMaps { env_t: (b - 0xF0) as i32, ..mp }, ns, dis, cl, env), d)
        } else if b == 0xFB {
            let v = byte_or(data, p, 0);
            let vc = if v & 0x20u8 != 0 {
                sbyte(v | 0xC0u8)
            } else {
                v as int
            };
            asc_interp(data, (AscChan { ptr: (p + 1) as usize, vc: vc as i32, vc_dop: 0, ..c1 }, mp, ns, dis, cl, env), d)
        } else {
            asc_interp(data, (c1, mp, ns, dis, cl, env), d)
        }
    }
}

fn asc_interp_exec(data: &[u8], st0: AscStep, d: i32) -> (r: AscStep)
    requires
        1 <= d <= 256,
        asc_chan_ok(st0.0),
        maps_ok(st0.1),
        data@.len() < usize::MAX - 4,
    ensures
        r == asc_interp(data@, st0, d as int),
        asc_chan_ok(r.0),
        maps_ok(r.1),
{
    let ghost target = asc_interp(data@, st0, d as int);
    let (mut c, mut mp, mut ns, mut dis, mut cl, mut env) = st0;
    loop
        invariant_except_break
            asc_interp(data@, (c, mp, ns, dis, cl, env), d as int) == target,
        invariant
            1 <= d <= 256,
            target == asc_interp(data@, st0, d as int),
            asc_chan_ok(c),
            maps_ok(mp),
            data@.len() < usize::MAX - 4,
        ensures
            target == (c, mp, ns, dis, cl, env),
        decreases data@.len() + 2 - c.ptr,
    {
        if c.ptr >= data.len() {
            break ;
        }
        let b = data[c.ptr];
        let p = c.ptr + 1;
        c.ptr = p;
        if b <= 0x55 {
            c.prev_note = b;
            if c.ts_cnt <= 0 {
                c.ts = 0;
            }
            cl.note = b as i8;
            if c.env_en {
                cl.envelope = mp.env_t as u8;
                cl.ornament = c.prev_orn;
                env = get_or(data, p, 0) as u16;
                c.ptr = p + 1;
            }
            if !dis && c.vol != c.prev_vol {
                cl.volume = c.vol as u8;
                c.pat_vol = c.vol;
                c.prev_vol = c.vol;
            }
            c = ts_tick_exec(c, d);
            break ;
        } else if b <= 0x5D {
            c = ts_tick_exec(c, d);
            break ;
        } else if b <= 0x5F {
            cl.note = NOTE_SOUND_OFF;
            c = ts_tick_exec(c, d);
            break ;
        } else if b <= 0x9F {
            c.skip = (b - 0x60) as i8;
        } else if b <= 0xBF {
            let (t, n, mapped) = map_index_exec(mp.sams, mp.n_sams, (b - 0xA0) as usize, 31);
            mp.sams = t;
            mp.n_sams = n;
            cl.sample = mapped as u8;
        } else if b <= 0xDF {
            let (t, n, mapped) = map_index_exec(mp.orns, mp.n_orns, (b - 0xC0) as usize, 16);
            mp.orns = t;
            mp.n_orns = n;
            c.prev_orn = mapped as u8;
            cl.ornament = mapped as u8;
            if cl.envelope == 0 {
                cl.envelope = 15;
            }
        } else if b == 0xE0 {
            if c.pat_vol != 15 {
                cl.volume = 15;
            }
            c.pat_vol = 15;
            c.vol = 15;
            c.prev_vol = 15;
            c.env_en = true;
        } else if b <= 0xEF {
            let iv = (b - 0xE0) as i8;
            if c.pat_vol != iv {
                cl.volume = iv as u8;
            }
            if c.env_en {
                cl.envelope = 15;
                cl.ornament = c.prev_orn;
            }
            c.pat_vol = iv;
            c.vol = iv;
            c.prev_vol = iv;
            c.env_en = false;
        } else if b == 0xF0 {
            let v = get_or(data, p, 0);
            c.ptr = p + 1;
            ns = v & 0x1F;
        } else if b == 0xF1 || b == 0xF3 {
            dis = true;
        } else if b == 0xF4 {
            let v = get_or(data, p, 0);
            c.ptr = p + 1;
            cl.additional_command.number = 11;
            cl.additional_command.parameter = v;
        } else if b == 0xF5 || b == 0xF6 {
            let v = get_or(data, p, 0);
            c.ptr = p + 1;
            c.ts = if b == 0xF5 {
                #[verifier::truncate] ((c.ts as i32 + v as i32 * 16) as i16)
            } else {
                #[verifier::truncate] ((c.ts as i32 - v as i32 * 16) as i16)
            };
            c.ts_cnt = -1;
            cl.additional_command = AdditionalCommand {
                number: if b == 0xF5 {
                    2
                } else {
                    1
                },
                delay: 1,
                parameter: v,
            };
        } else if b == 0xF7 || b == 0xF9 {
            let (cl2, c2) = calc_slide_exec(data, cl, c);
            cl = cl2;
            c = c2;
            if b == 0xF7 {
                dis = true;
            }
        } else if b == 0xF8 || b == 0xFA || b == 0xFC || b == 0xFE {
            mp.env_t = (b - 0xF0) as i32;
        } else if b == 0xFB {
            let v = get_or(data, p, 0);
            c.ptr = p + 1;
            assert((v | 0xC0u8) >= 192) by (bit_vector);
            c.vc = if v & 0x20 != 0 {
                (v | 0xC0) as i32 - 256
            } else {
                v as i32
            };
            c.vc_dop = 0;
        }
    }
    (c, mp, ns, dis, cl, env)
}


// ─── Rows ────────────────────────────────────────────────────────────────────

/// A running volume slide over `d` ticks: the volume moves by the ticks
/// elapsed divided by the slide period (carrying the remainder), clamped to
/// 0..15, and a change is written to the cell.  A slide down to 0 writes the
/// 0 but keeps the last audible volume.
pub open spec fn vol_step(c: AscChan, d: int, cell: ChannelLine) -> (AscChan, ChannelLine) {
    if c.vc == 0 {
        (c, cell)
    } else if c.vc > 0 {
        let t = d + c.vc_dop;
        let n0 = t / (c.vc as int) + c.prev_vol;
        let n = if n0 > 15 {
            15
        } else {
            n0
        };
        let c2 = AscChan { vc_dop: (t % (c.vc as int)) as i32, ..c };
        if n != c.prev_vol {
            (AscChan { prev_vol: n as i8, ..c2 }, ChannelLine { volume: n as u8, ..cell })
        } else {
            (c2, cell)
        }
    } else {
        let t = d + c.vc_dop;
        let m = -(c.vc as int);
        let n0 = c.prev_vol - t / m;
        let n = if n0 < 0 {
            0
        } else {
            n0
        };
        let c2 = AscChan { vc_dop: (t % m) as i32, ..c };
        if n != c.prev_vol {
            (
                if n != 0 {
                    AscChan { prev_vol: n as i8, ..c2 }
                } else {
                    c2
                },
                ChannelLine { volume: n as u8, ..cell },
            )
        } else {
            (c2, cell)
        }
    }
}

fn vol_step_exec(c: AscChan, d: i32, cell: ChannelLine) -> (r: (AscChan, ChannelLine))
    requires
        1 <= d <= 256,
        asc_chan_ok(c),
    ensures
        r == vol_step(c, d as int, cell),
        asc_chan_ok(r.0),
{
    if c.vc == 0 {
        (c, cell)
    } else if c.vc > 0 {
        let t = d + c.vc_dop;
        let n0 = t / c.vc + c.prev_vol as i32;
        let n: i32 = if n0 > 15 {
            15
        } else {
            n0
        };
        let c2 = AscChan { vc_dop: t % c.vc, ..c };
        if n != c.prev_vol as i32 {
            (AscChan { prev_vol: n as i8, ..c2 }, ChannelLine { volume: n as u8, ..cell })
        } else {
            (c2, cell)
        }
    } else {
        let t = d + c.vc_dop;
        let m = -c.vc;
        let n0 = c.prev_vol as i32 - t / m;
        let n: i32 = if n0 < 0 {
            0
        } else {
            n0
        };
        let c2 = AscChan { vc_dop: t % m, ..c };
        if n != c.prev_vol as i32 {
            (
                if n != 0 {
                    AscChan { prev_vol: n as i8, ..c2 }
                } else {
                    c2
                },
                ChannelLine { volume: n as u8, ..cell },
            )
        } else {
            (c2, cell)
        }
    }
}

/// Channel A ends the pattern: it is due to read and its next byte is 0xFF
/// (or the data has ended).
pub open spec fn asc_stops(data: Seq<u8>, a: AscChan) -> bool {
    a.skip_ctr - 1 < 0 && byte_or(data, a.ptr as int, 0xFF) == 0xFF
}

/// One channel's turn in a row (after the volume slide): while its skip
/// counter runs it only advances its tone slide; when due it reads its
/// commands into cell `k` of `row` and restarts the counter at its skip.
pub open spec fn asc_turn(data: Seq<u8>, c: AscChan, mp: AscMaps, ns: u8, row: PatternRow, k: int, d: int) -> (
    AscChan,
    AscMaps,
    u8,
    PatternRow,
) {
    let sc = (c.skip_ctr - 1) as i8;
    if sc >= 0 {
        (ts_tick(AscChan { skip_ctr: sc, ..c }, d), mp, ns, row)
    } else {
        let r = asc_interp(data, (AscChan { skip_ctr: sc, ts_cnt: 0, ..c }, mp, ns, false, row.channel[k], row.envelope), d);
        (
            AscChan { skip_ctr: r.0.skip, ..r.0 },
            r.1,
            r.2,
            PatternRow {
                channel: vstd::array::spec_array_update(row.channel, k, r.4),
                envelope: r.5,
                ..row
            },
        )
    }
}

/// The channel state is in range and reads within the data (or just past it).
pub open spec fn asc_chan_in(data: Seq<u8>, c: AscChan) -> bool {
    asc_chan_ok(c) && c.skip_ctr >= 0
}

fn asc_turn_exec(data: &[u8], c: AscChan, mp: AscMaps, ns: u8, row: PatternRow, k: usize, d: i32) -> (r: (
    AscChan,
    AscMaps,
    u8,
    PatternRow,
))
    requires
        k < 3,
        1 <= d <= 256,
        asc_chan_in(data@, c),
        maps_ok(mp),
        data@.len() < usize::MAX - 4,
    ensures
        r == asc_turn(data@, c, mp, ns, row, k as int, d as int),
        asc_chan_in(data@, r.0),
        maps_ok(r.1),
{
    let sc = c.skip_ctr - 1;
    if sc >= 0 {
        (ts_tick_exec(AscChan { skip_ctr: sc, ..c }, d), mp, ns, row)
    } else {
        let r = asc_interp_exec(
            data,
            (AscChan { skip_ctr: sc, ts_cnt: 0, ..c }, mp, ns, false, row.channel[k], row.envelope),
            d,
        );
        let mut row2 = row;
        row2.channel[k] = r.4;
        row2.envelope = r.5;
        assert(row2.channel =~= vstd::array::spec_array_update(row.channel, k as int, r.4));
        (AscChan { skip_ctr: r.0.skip, ..r.0 }, r.1, r.2, row2)
    }
}

/// The rows of a pattern decoded from row `i` on, `d` ticks per row: the
/// pattern's length, its rows (each ending with the noise base in force;
/// the row where channel A stops keeps its volume slides) and the maps after.
pub open spec fn asc_rows(
    data: Seq<u8>,
    a: AscChan,
    b: AscChan,
    c: AscChan,
    mp: AscMaps,
    ns: u8,
    d: int,
    i: int,
    items: Seq<PatternRow>,
) -> (int, Seq<PatternRow>, AscMaps)
    decreases 256 - i,
{
    if i >= 256 || i < 0 {
        (i, items, mp)
    } else {
        let row = items[i];
        let (a1, ca) = vol_step(a, d, row.channel[0]);
        let (b1, cb) = vol_step(b, d, row.channel[1]);
        let (c1, cc) = vol_step(c, d, row.channel[2]);
        let row1 = PatternRow { channel: [ca, cb, cc], ..row };
        if asc_stops(data, a1) {
            (i, items.update(i, row1), mp)
        } else {
            let (a2, mp1, ns1, r1) = asc_turn(data, a1, mp, ns, row1, 0, d);
            let (b2, mp2, ns2, r2) = asc_turn(data, b1, mp1, ns1, r1, 1, d);
            let (c2, mp3, ns3, r3) = asc_turn(data, c1, mp2, ns2, r2, 2, d);
            asc_rows(data, a2, b2, c2, mp3, ns3, d, i + 1, items.update(i, PatternRow { noise: ns3, ..r3 }))
        }
    }
}

/// One pattern read from the three channel streams at `ptrs`, `d` ticks per
/// row, with the maps `mp`: its length, rows and the maps after.
pub open spec fn asc_pattern(data: Seq<u8>, ptrs: [usize; 3], mp: AscMaps, d: int) -> (int, Seq<PatternRow>, AscMaps) {
    asc_rows(
        data,
        chan_start(ptrs[0]),
        chan_start(ptrs[1]),
        chan_start(ptrs[2]),
        mp,
        0,
        d,
        0,
        crate::formats::pt3::empty_rows(),
    )
}

/// Read one pattern (see [`asc_pattern`]).
fn decode_pattern(data: &[u8], ptrs: [usize; 3], mp0: AscMaps, d: i32) -> (r: (Pattern, AscMaps))
    requires
        1 <= d <= 256,
        maps_ok(mp0),
        data@.len() < usize::MAX - 4,
    ensures
        asc_pattern(data@, ptrs, mp0, d as int) == (r.0.length as int, r.0.items@, r.1),
        maps_ok(r.1),
        r.0.length <= 256,
{
    let mut pattern = Pattern::default();
    assert(pattern.items@ =~= crate::formats::pt3::empty_rows());
    let mut a = AscChan {
        ptr: ptrs[0], skip: 0, skip_ctr: 0, env_en: false, ts_cnt: 0, ts: 0, vc: 0, vc_dop: 0,
        prev_note: 0, vol: 0, prev_vol: 0, pat_vol: 0, prev_orn: 0,
    };
    let mut b = AscChan { ptr: ptrs[1], ..a };
    let mut c = AscChan { ptr: ptrs[2], ..a };
    let mut mp = mp0;
    let mut ns: u8 = 0;
    let mut i: usize = 0;
    let ghost target = asc_rows(data@, a, b, c, mp, ns, d as int, 0, pattern.items@);
    while i < 256
        invariant
            i <= 256,
            1 <= d <= 256,
            data@.len() < usize::MAX - 4,
            asc_chan_in(data@, a),
            asc_chan_in(data@, b),
            asc_chan_in(data@, c),
            maps_ok(mp),
            asc_rows(data@, a, b, c, mp, ns, d as int, i as int, pattern.items@) == target,
            target == asc_pattern(data@, ptrs, mp0, d as int),
        ensures
            target == (i as int, pattern.items@, mp),
        decreases 256 - i,
    {
        let row = pattern.items[i];
        let (a1, ca) = vol_step_exec(a, d, row.channel[0]);
        let (b1, cb) = vol_step_exec(b, d, row.channel[1]);
        let (c1, cc) = vol_step_exec(c, d, row.channel[2]);
        let row1 = PatternRow { channel: [ca, cb, cc], ..row };
        if a1.skip_ctr - 1 < 0 && get_or(data, a1.ptr, 0xFF) == 0xFF {
            pattern.items[i] = row1;
            break ;
        }
        let (a2, mp1, ns1, r1) = asc_turn_exec(data, a1, mp, ns, row1, 0, d);
        let (b2, mp2, ns2, r2) = asc_turn_exec(data, b1, mp1, ns1, r1, 1, d);
        let (c2, mp3, ns3, r3) = asc_turn_exec(data, c1, mp2, ns2, r2, 2, d);
        pattern.items[i] = PatternRow { noise: ns3, ..r3 };
        a = a2;
        b = b2;
        c = c2;
        mp = mp3;
        ns = ns3;
        i = i + 1;
    }
    pattern.length = i;
    (pattern, mp)
}


// ─── Positions ───────────────────────────────────────────────────────────────

/// A pattern as read: its length and rows (`None` while unread).
pub type PatRead = Option<(int, Seq<PatternRow>)>;

/// `ex` holds exactly the patterns `sp` describes.
pub open spec fn pats_match(ex: Seq<Option<Box<Pattern>>>, sp: Seq<PatRead>) -> bool {
    &&& ex.len() == sp.len()
    &&& forall|j: int|
        0 <= j < ex.len() ==> match (#[trigger] ex[j], sp[j]) {
            (None, None) => true,
            (Some(p), Some((l, it))) => p.length == l && p.items@ == it,
            _ => false,
        }
}

/// The three channel streams of pattern `j`: offsets stored in the pattern
/// table at `base`, relative to it.
pub open spec fn asc_ptrs(data: Seq<u8>, base: int, j: int) -> [usize; 3] {
    let t = base + 6 * j;
    [
        (word_at(data, t) + base) as usize,
        (word_at(data, t + 2) + base) as usize,
        (word_at(data, t + 4) + base) as usize,
    ]
}

/// The positions from `pos` on, up to `num_pos` or the end of the data: each
/// names a pattern (numbers past the last pattern slot are skipped and leave
/// their position 0); a pattern is read the first time a position names it
/// (a blank default pattern when its table entry lies past the end of the
/// data), the maps carrying from one pattern to the next.  Gives the number
/// of positions read, the position list, the patterns and the maps.
pub open spec fn asc_walk(
    data: Seq<u8>,
    base: int,
    num_pos: int,
    d: int,
    pos: int,
    values: Seq<usize>,
    pats: Seq<PatRead>,
    mp: AscMaps,
) -> (int, Seq<usize>, Seq<PatRead>, AscMaps)
    decreases 256 - pos,
{
    if pos >= num_pos || pos >= 256 || pos < 0 || ASC1_OFF_POSITIONS + pos >= data.len() {
        (pos, values, pats, mp)
    } else {
        let j = data[ASC1_OFF_POSITIONS + pos] as int;
        if j > MAX_NUM_OF_PATS {
            asc_walk(data, base, num_pos, d, pos + 1, values, pats, mp)
        } else {
            let v2 = values.update(pos, j as usize);
            if pats[j] is Some {
                asc_walk(data, base, num_pos, d, pos + 1, v2, pats, mp)
            } else if base + 6 * j + 6 > data.len() {
                asc_walk(
                    data,
                    base,
                    num_pos,
                    d,
                    pos + 1,
                    v2,
                    pats.update(j, Some((64int, crate::formats::pt3::empty_rows()))),
                    mp,
                )
            } else {
                let (l, it, mp2) = asc_pattern(data, asc_ptrs(data, base, j), mp, d);
                asc_walk(data, base, num_pos, d, pos + 1, v2, pats.update(j, Some((l, it))), mp2)
            }
        }
    }
}

/// No pattern read yet.
pub open spec fn no_reads() -> Seq<PatRead> {
    Seq::new((MAX_NUM_OF_PATS + 1) as nat, |i: int| None)
}

/// Walk the position list (see [`asc_walk`]) into `values` and `patterns`.
fn read_positions(
    data: &[u8],
    base: usize,
    num_pos: usize,
    d: i32,
    values: &mut [usize; 256],
    patterns: &mut Vec<Option<Box<Pattern>>>,
    mp0: AscMaps,
) -> (r: (usize, AscMaps))
    requires
        1 <= d <= 256,
        num_pos <= 255,
        base < 65536,
        maps_ok(mp0),
        data@.len() <= isize::MAX,
        pats_match(old(patterns)@, no_reads()),
        forall|i: int| 0 <= i < 256 ==> #[trigger] old(values)[i] == 0,
    ensures
        asc_walk(data@, base as int, num_pos as int, d as int, 0, old(values)@, no_reads(), mp0).0 == r.0,
        asc_walk(data@, base as int, num_pos as int, d as int, 0, old(values)@, no_reads(), mp0).1
            == final(values)@,
        asc_walk(data@, base as int, num_pos as int, d as int, 0, old(values)@, no_reads(), mp0).3 == r.1,
        pats_match(
            final(patterns)@,
            asc_walk(data@, base as int, num_pos as int, d as int, 0, old(values)@, no_reads(), mp0).2,
        ),
        maps_ok(r.1),
        r.0 <= num_pos,
        final(patterns)@.len() == old(patterns)@.len(),
        forall|q: int|
            0 <= q < final(patterns)@.len() ==> (#[trigger] final(patterns)@[q] matches Some(p) ==> p.length
                <= 256),
{
    let ghost target = asc_walk(data@, base as int, num_pos as int, d as int, 0, values@, no_reads(), mp0);
    let ghost mut sp = no_reads();
    let mut mp = mp0;
    let mut pos: usize = 0;
    while pos < num_pos
        invariant_except_break
            asc_walk(data@, base as int, num_pos as int, d as int, pos as int, values@, sp, mp) == target,
        invariant
            1 <= d <= 256,
            num_pos <= 255,
            pos <= num_pos,
            base < 65536,
            maps_ok(mp),
            data@.len() <= isize::MAX,
            pats_match(patterns@, sp),
            sp.len() == MAX_NUM_OF_PATS + 1,
            patterns@.len() == MAX_NUM_OF_PATS + 1,
            forall|q: int|
                0 <= q < patterns@.len() ==> (#[trigger] patterns@[q] matches Some(p) ==> p.length <= 256),
        ensures
            target == (pos as int, values@, sp, mp),
        decreases num_pos - pos,
    {
        let j_off = ASC1_OFF_POSITIONS + pos;
        if j_off >= data.len() {
            break ;
        }
        let j = data[j_off] as usize;
        if j > MAX_NUM_OF_PATS {
            pos = pos + 1;
            continue ;
        }
        values[pos] = j;
        pos = pos + 1;
        if patterns[j].is_none() {
            let tbl_off = base + 6 * j;
            if tbl_off + 6 > data.len() {
                patterns.set(j, Some(Box::new(Pattern::default())));
                proof {
                    sp = sp.update(j as int, Some((64int, crate::formats::pt3::empty_rows())));
                }
                assert(patterns@[j as int] matches Some(p) && p.items@ =~= crate::formats::pt3::empty_rows());
                continue ;
            }
            let ptrs: [usize; 3] = [
                word_at_exec(data, tbl_off) + base,
                word_at_exec(data, tbl_off + 2) + base,
                word_at_exec(data, tbl_off + 4) + base,
            ];
            assert(ptrs == asc_ptrs(data@, base as int, j as int));
            let (pat, mp2) = decode_pattern(data, ptrs, mp, d);
            proof {
                sp = sp.update(j as int, Some((pat.length as int, pat.items@)));
            }
            patterns.set(j, Some(Box::new(pat)));
            mp = mp2;
        }
    }
    (pos, mp)
}


// ─── Ornaments ───────────────────────────────────────────────────────────────

/// Ornament playback from the two-byte tick at `jj` (flags, signed step):
/// the offsets accumulate; a flags byte with bit 7 marks the loop start, bit
/// 6 the end, after which play resumes at the loop start.  It stops once 255
/// offsets are written, when an offset leaves -0x55..0x55 (that offset is not
/// written), or at an end whose offset equals the one before the loop start.
/// Gives the number of offsets, the last offset, the loop position and the
/// offsets.
pub open spec fn orn_sim(data: Seq<u8>, jj: int, jl: int, k: int, n: int, nb: int, lp: int, items: Seq<i8>) -> (
    int,
    int,
    int,
    Seq<i8>,
)
    decreases 255 - k,
{
    if k >= 255 || k < 0 {
        (k, n, lp, items)
    } else {
        let n2 = n + sbyte(byte_or(data, jj + 1, 0));
        if n2 < -0x55 || n2 > 0x55 {
            (k, n2, lp, items)
        } else {
            let flags = byte_or(data, jj, 0);
            let (nb2, jl2, lp2) = if flags >= 128 {
                (n, jj, k)
            } else {
                (nb, jl, lp)
            };
            let items2 = items.update(k, n2 as i8);
            if k + 1 >= 255 {
                (k + 1, n2, lp2, items2)
            } else if flags & 0x40u8 != 0 {
                if n2 == nb2 {
                    (k + 1, n2, lp2, items2)
                } else {
                    orn_sim(data, jl2, jl2, k + 1, n2, nb2, lp2, items2)
                }
            } else {
                orn_sim(data, jj + 2, jl2, k + 1, n2, nb2, lp2, items2)
            }
        }
    }
}

/// The 255 zero offsets an ornament starts from.
pub open spec fn zero_offsets() -> Seq<i8> {
    Seq::new(255, |i: int| 0i8)
}

/// Play the ornament at `j` (see [`orn_sim`]) into `items`.
fn orn_sim_exec(data: &[u8], j: usize, items: &mut [i8; 255]) -> (r: (usize, i32, usize))
    requires
        j < 65536 * 2,
        data@.len() <= isize::MAX,
    ensures
        orn_sim(data@, j as int, j as int, 0, 0, 0, 0, old(items)@) == (
            r.0 as int,
            r.1 as int,
            r.2 as int,
            final(items)@,
        ),
        r.0 <= 255,
        r.2 < 255,
        r.2 <= r.0,
{
    let ghost target = orn_sim(data@, j as int, j as int, 0, 0, 0, 0, items@);
    let mut jj = j;
    let mut jl = j;
    let mut k: usize = 0;
    let mut n: i32 = 0;
    let mut nb: i32 = 0;
    let mut lp: usize = 0;
    loop
        invariant_except_break
            orn_sim(data@, jj as int, jl as int, k as int, n as int, nb as int, lp as int, items@)
                == target,
            k < 255,
            -0x55 <= n <= 0x55,
        invariant
            jj <= j + 2 * k,
            jl <= j + 2 * k,
            j < 65536 * 2,
            -0x55 <= nb <= 0x55,
            lp <= k,
            lp < 255,
            k <= 255,
            data@.len() <= isize::MAX,
        ensures
            target == (k as int, n as int, lp as int, items@),
        decreases 255 - k,
    {
        let delta = get_or(data, jj + 1, 0);
        let sd: i32 = if delta >= 128 {
            delta as i32 - 256
        } else {
            delta as i32
        };
        let n2 = n + sd;
        if n2 < -0x55 || n2 > 0x55 {
            n = n2;
            break ;
        }
        let flags = get_or(data, jj, 0);
        if flags >= 128 {
            nb = n;
            jl = jj;
            lp = k;
        }
        items[k] = n2 as i8;
        n = n2;
        k = k + 1;
        if k >= 255 {
            break ;
        }
        if flags & 0x40 != 0 {
            if n2 == nb {
                break ;
            }
            jj = jl;
        } else {
            jj = jj + 2;
        }
    }
    (k, n, lp)
}

/// The ornament at `j` as the tracker keeps it: the offsets played, at least
/// one, with the loop position inside them.
pub open spec fn asc_ornament(data: Seq<u8>, j: int) -> (int, int, Seq<i8>) {
    let (k, n, lp, items) = orn_sim(data, j, j, 0, 0, 0, 0, zero_offsets());
    let len = if k == 0 {
        1
    } else {
        k
    };
    (len, if lp >= len {
        len - 1
    } else {
        lp
    }, items)
}

/// The position of file ornament `i`'s data: the offset stored in the
/// ornament table at `base`, relative to it (`None` past the end of the data).
pub open spec fn table_entry(data: Seq<u8>, base: int, i: int) -> Option<int> {
    if base + 2 * i + 1 >= data.len() {
        None
    } else {
        Some(word_at(data, base + 2 * i) + base)
    }
}

/// The tracker number of the first mapped file ornament that is a single
/// zero offset; 0 when there is none.
pub open spec fn zero_ornament_from(data: Seq<u8>, orns: [i32; 32], base: int, i: int) -> int
    decreases 32 - i,
{
    if i >= 32 || i < 0 {
        0
    } else if orns[i] > 0 && table_entry(data, base, i) is Some && {
        let (k, n, lp, it) = orn_sim(
            data,
            table_entry(data, base, i)->0,
            table_entry(data, base, i)->0,
            0,
            0,
            0,
            0,
            zero_offsets(),
        );
        k == 1 && n == 0
    } {
        orns[i] as int
    } else {
        zero_ornament_from(data, orns, base, i + 1)
    }
}

fn table_entry_exec(data: &[u8], base: usize, i: usize) -> (r: Option<usize>)
    requires
        base < 65536,
        i < 32,
    ensures
        r matches Some(v) ==> table_entry(data@, base as int, i as int) == Some(v as int),
        r is None ==> table_entry(data@, base as int, i as int) is None,
        r matches Some(v) ==> v < 65536 * 2,
{
    let off = base + 2 * i;
    if off + 1 >= data.len() {
        None
    } else {
        Some(word_at_exec(data, off) + base)
    }
}

/// Find the zero ornament (see [`zero_ornament_from`]).
fn find_zero_ornament(data: &[u8], orns: &[i32; 32], base: usize) -> (r: i32)
    requires
        base < 65536,
        data@.len() <= isize::MAX,
    ensures
        r == zero_ornament_from(data@, *orns, base as int, 0),
{
    let mut i: usize = 0;
    while i < 32
        invariant
            i <= 32,
            base < 65536,
            data@.len() <= isize::MAX,
            zero_ornament_from(data@, *orns, base as int, i as int) == zero_ornament_from(
                data@,
                *orns,
                base as int,
                0,
            ),
        decreases 32 - i,
    {
        if orns[i] > 0 {
            match table_entry_exec(data, base, i) {
                Some(j) => {
                    let mut scratch = [0i8; 255];
                    assert(scratch@ =~= zero_offsets());
                    let (k, n, _lp) = orn_sim_exec(data, j, &mut scratch);
                    if k == 1 && n == 0 {
                        return orns[i];
                    }
                },
                None => {},
            }
        }
        i = i + 1;
    }
    0
}


// ─── Ornament renumbering ────────────────────────────────────────────────────

/// A cell's ornament after renumbering: with a zero ornament `zo`, later
/// numbers move down by one and `zo` itself becomes "no ornament"; without
/// one, when all 16 numbers were given out (`drop16`), number 16 becomes
/// "no ornament".
pub open spec fn orn_fix(o: u8, zo: int, drop16: bool) -> u8 {
    if zo > 0 {
        if o > zo {
            (o - 1) as u8
        } else if o == zo {
            0
        } else {
            o
        }
    } else if drop16 && o == 16 {
        0
    } else {
        o
    }
}

/// `row` with its ornaments renumbered.
pub open spec fn row_fix(row: PatternRow, zo: int, drop16: bool) -> PatternRow {
    PatternRow {
        channel: [
            ChannelLine { ornament: orn_fix(row.channel[0].ornament, zo, drop16), ..row.channel[0] },
            ChannelLine { ornament: orn_fix(row.channel[1].ornament, zo, drop16), ..row.channel[1] },
            ChannelLine { ornament: orn_fix(row.channel[2].ornament, zo, drop16), ..row.channel[2] },
        ],
        ..row
    }
}

/// A pattern with the ornaments of its rows (those within its length)
/// renumbered.
pub open spec fn pat_fix(p: PatRead, zo: int, drop16: bool) -> PatRead {
    match p {
        None => None,
        Some((l, it)) => Some(
            (
                l,
                Seq::new(
                    it.len(),
                    |r: int|
                        if r < l {
                            row_fix(it[r], zo, drop16)
                        } else {
                            it[r]
                        },
                ),
            ),
        ),
    }
}

/// The first file ornament numbered 16, from `i` on (32 when none).
pub open spec fn first16(orns: [i32; 32], i: int) -> int
    decreases 32 - i,
{
    if i >= 32 || i < 0 {
        32
    } else if orns[i] == 16 {
        i
    } else {
        first16(orns, i + 1)
    }
}

/// The ornament numbering after renumbering (see [`orn_fix`]): with a zero
/// ornament, numbers past it move down; otherwise, when all 16 were given
/// out, the first file ornament numbered 16 loses its number.
pub open spec fn orns_fix(orns: [i32; 32], zo: int, drop16: bool) -> Seq<i32> {
    if zo > 0 {
        Seq::new(
            32,
            |i: int|
                if orns[i] > zo {
                    (orns[i] - 1) as i32
                } else {
                    orns[i]
                },
        )
    } else if drop16 {
        let f = first16(orns, 0);
        Seq::new(
            32,
            |i: int|
                if i == f {
                    -1i32
                } else {
                    orns[i]
                },
        )
    } else {
        orns@
    }
}

fn orn_fix_exec(o: u8, zo: i32, drop16: bool) -> (r: u8)
    ensures
        r == orn_fix(o, zo as int, drop16),
{
    if zo > 0 {
        if o as i32 > zo {
            o - 1
        } else if o as i32 == zo {
            0
        } else {
            o
        }
    } else if drop16 && o == 16 {
        0
    } else {
        o
    }
}

/// Renumber the ornaments of every pattern's rows (see [`pat_fix`]).
fn fix_patterns(patterns: &mut Vec<Option<Box<Pattern>>>, zo: i32, drop16: bool, Ghost(sp): Ghost<Seq<PatRead>>)
    requires
        pats_match(old(patterns)@, sp),
        forall|j: int|
            0 <= j < old(patterns)@.len() ==> (#[trigger] old(patterns)@[j] matches Some(p) ==> p.length
                <= 256),
    ensures
        pats_match(final(patterns)@, Seq::new(sp.len(), |j: int| pat_fix(sp[j], zo as int, drop16))),
        final(patterns)@.len() == old(patterns)@.len(),
{
    assert forall|j: int| 0 <= j < sp.len() implies (#[trigger] sp[j] matches Some((l, it)) ==> 0 <= l
        <= 256) by {
        assert(old(patterns)@[j] matches Some(p) ==> p.length <= 256);
    }
    let ghost target = Seq::new(sp.len(), |j: int| pat_fix(sp[j], zo as int, drop16));
    let mut pi: usize = 0;
    let n = patterns.len();
    while pi < n
        invariant
            n == sp.len(),
            pi <= n,
            patterns@.len() == n,
            forall|j: int| 0 <= j < sp.len() ==> (#[trigger] sp[j] matches Some((l, it)) ==> 0 <= l <= 256),
            target == Seq::new(sp.len(), |j: int| pat_fix(sp[j], zo as int, drop16)),
            forall|j: int|
                0 <= j < n ==> match (#[trigger] patterns@[j], if j < pi {
                    target[j]
                } else {
                    sp[j]
                }) {
                    (None, None) => true,
                    (Some(p), Some((l, it))) => p.length == l && p.items@ == it,
                    _ => false,
                },
        decreases n - pi,
    {
        let cur: Option<Pattern> = match &patterns[pi] {
            None => None,
            Some(bp) => Some(Pattern { length: bp.length, items: bp.items }),
        };
        match cur {
            None => {},
            Some(p0) => {
                let mut p = p0;
                let ghost it0 = p.items@;
                let len0 = p.length;
                let mut r: usize = 0;
                while r < p.length
                    invariant
                        p.length == len0,
                        p.length <= 256,
                        r <= p.length,
                        p.items@.len() == 256,
                        it0.len() == 256,
                        forall|q: int|
                            0 <= q < 256 ==> #[trigger] p.items@[q] == if q < r {
                                row_fix(it0[q], zo as int, drop16)
                            } else {
                                it0[q]
                            },
                    decreases p.length - r,
                {
                    let row = p.items[r];
                    let mut row2 = row;
                    row2.channel[0].ornament = orn_fix_exec(row.channel[0].ornament, zo, drop16);
                    row2.channel[1].ornament = orn_fix_exec(row.channel[1].ornament, zo, drop16);
                    row2.channel[2].ornament = orn_fix_exec(row.channel[2].ornament, zo, drop16);
                    assert(row2.channel =~= row_fix(row, zo as int, drop16).channel);
                    p.items[r] = row2;
                    r = r + 1;
                }
                proof {
                    assert(sp[pi as int] matches Some((l, it)) && l == p.length && it == it0);
                    let fixed = pat_fix(sp[pi as int], zo as int, drop16);
                    assert(fixed matches Some((l2, it2)) && l2 == p.length && it2 =~= p.items@);
                }
                patterns.set(pi, Some(Box::new(p)));
            },
        }
        pi = pi + 1;
    }
    assert forall|j: int| 0 <= j < n implies match (#[trigger] patterns@[j], target[j]) {
        (None, None) => true,
        (Some(p), Some((l, it))) => p.length == l && p.items@ == it,
        _ => false,
    } by {}
}


fn orns_fix_exec(orns: [i32; 32], zo: i32, drop16: bool) -> (r: [i32; 32])
    ensures
        r@ == orns_fix(orns, zo as int, drop16),
{
    let mut t = orns;
    if zo > 0 {
        let mut i: usize = 0;
        while i < 32
            invariant
                i <= 32,
                zo > 0,
                forall|q: int|
                    0 <= q < 32 ==> #[trigger] t[q] == if q < i && orns[q] > zo {
                        (orns[q] - 1) as i32
                    } else {
                        orns[q]
                    },
            decreases 32 - i,
        {
            if t[i] > zo {
                t[i] = t[i] - 1;
            }
            i = i + 1;
        }
        assert(t@ =~= orns_fix(orns, zo as int, drop16));
    } else if drop16 {
        let mut i: usize = 0;
        while i < 32
            invariant
                i <= 32,
                zo <= 0,
                drop16,
                t == orns,
                first16(orns, 0) == first16(orns, i as int),
            decreases 32 - i,
        {
            if t[i] == 16 {
                assert(first16(orns, i as int) == i);
                t[i] = -1;
                assert(t@ =~= orns_fix(orns, zo as int, drop16));
                return t;
            }
            i = i + 1;
        }
        assert(t@ =~= orns_fix(orns, zo as int, drop16));
    } else {
        assert(t@ =~= orns_fix(orns, zo as int, drop16));
    }
    t
}

/// An ornament as read: length, loop position and offsets.
pub type OrnRead = (int, int, Seq<i8>);

/// The tracker ornaments after reading file ornaments `i` on in order: each
/// numbered one whose table entry lies within the data is read into its
/// number's slot (a later one with the same number replacing it).
pub open spec fn orn_fold(data: Seq<u8>, orns: Seq<i32>, base: int, i: int, slots: Seq<Option<OrnRead>>) -> Seq<
    Option<OrnRead>,
>
    decreases 32 - i,
{
    if i >= 32 || i < 0 {
        slots
    } else if orns[i] > 0 && table_entry(data, base, i) is Some {
        orn_fold(
            data,
            orns,
            base,
            i + 1,
            slots.update(orns[i] as int, Some(asc_ornament(data, table_entry(data, base, i)->0))),
        )
    } else {
        orn_fold(data, orns, base, i + 1, slots)
    }
}

/// Every numbered file ornament with a table entry has a tracker number
/// below 16 (the tracker has 16 ornament slots).
pub open spec fn orns_fit(data: Seq<u8>, orns: Seq<i32>, base: int) -> bool {
    forall|i: int|
        0 <= i < 32 && #[trigger] orns[i] > 0 && table_entry(data, base, i) is Some ==> orns[i] < 16
}

/// `ex` holds exactly the ornaments `sp` describes.
pub open spec fn orns_match(ex: Seq<Option<Box<Ornament>>>, sp: Seq<Option<OrnRead>>) -> bool {
    &&& ex.len() == sp.len()
    &&& forall|v: int|
        0 <= v < ex.len() ==> match (#[trigger] ex[v], sp[v]) {
            (None, None) => true,
            (Some(o), Some((l, lp, it))) => o.length == l && o.loop_pos == lp && o.items@ == it,
            _ => false,
        }
}

/// Read the ornament at `j` (see [`asc_ornament`]).
fn read_ornament(data: &[u8], j: usize) -> (r: Ornament)
    requires
        j < 65536 * 2,
        data@.len() <= isize::MAX,
    ensures
        asc_ornament(data@, j as int) == (r.length as int, r.loop_pos as int, r.items@),
{
    let mut orn = Ornament::default();
    assert(orn.items@ =~= zero_offsets());
    let (k, _n, lp) = orn_sim_exec(data, j, &mut orn.items);
    orn.length = if k == 0 {
        1
    } else {
        k
    };
    orn.loop_pos = if lp >= orn.length {
        orn.length - 1
    } else {
        lp
    };
    orn
}

/// Read the numbered file ornaments into `ornaments` (see [`orn_fold`]).
fn read_ornaments(data: &[u8], orns: &[i32; 32], base: usize, ornaments: &mut [Option<Box<Ornament>>; 16], Ghost(
    sp,
): Ghost<Seq<Option<OrnRead>>>)
    requires
        base < 65536,
        data@.len() <= isize::MAX,
        orns_fit(data@, orns@, base as int),
        orns_match(old(ornaments)@, sp),
    ensures
        orns_match(final(ornaments)@, orn_fold(data@, orns@, base as int, 0, sp)),
{
    let ghost target = orn_fold(data@, orns@, base as int, 0, sp);
    let ghost mut cur = sp;
    let mut i: usize = 0;
    while i < 32
        invariant
            i <= 32,
            base < 65536,
            data@.len() <= isize::MAX,
            orns_fit(data@, orns@, base as int),
            orns_match(ornaments@, cur),
            orn_fold(data@, orns@, base as int, i as int, cur) == target,
        decreases 32 - i,
    {
        let l = orns[i];
        if l > 0 {
            match table_entry_exec(data, base, i) {
                Some(j) => {
                    assert(orns@[i as int] == l);
                    let orn = read_ornament(data, j);
                    proof {
                        cur = cur.update(l as int, Some(asc_ornament(data@, j as int)));
                    }
                    ornaments[l as usize] = Some(Box::new(orn));
                },
                None => {},
            }
        }
        i = i + 1;
    }
}

// ─── Samples ─────────────────────────────────────────────────────────────────

/// The signed value of the low five bits of `b`.
pub open spec fn sfive(b: u8) -> int {
    let v = (b & 0x1Fu8) as int;
    if v >= 16 {
        v - 32
    } else {
        v
    }
}

/// A three-byte sample tick: byte 1 is the signed tone offset; byte 2 holds
/// the amplitude (high nibble), "tone off" (bit 0), "noise off" (bit 3) and in
/// bits 1..2 the envelope (01) or an amplitude slide down (10) or up (11);
/// byte 0's low five bits are the signed envelope or noise offset, kept when
/// the envelope or the noise is on.
pub open spec fn sam_tick(b0: u8, b1: u8, b2: u8) -> SampleTick {
    let env = b2 & 6u8 == 2u8;
    let noise = b2 & 8u8 == 0u8;
    SampleTick {
        add_to_ton: sbyte(b1) as i16,
        ton_accumulation: true,
        amplitude: b2 >> 4u8,
        amplitude_sliding: b2 & 6u8 == 4u8 || b2 & 6u8 == 6u8,
        amplitude_slide_up: b2 & 6u8 == 6u8,
        envelope_enabled: env,
        envelope_or_noise_accumulation: true,
        add_to_envelope_or_noise: if env || noise {
            sfive(b0) as i8
        } else {
            0i8
        },
        mixer_ton: b2 & 1u8 == 0u8,
        mixer_noise: noise,
    }
}

/// The fields of an ASC sample tick by the bits of its bytes: the amplitude
/// is the high nibble of byte 2; bits 1..2 of byte 2 select the envelope
/// (01), an amplitude slide down (10) or up (11); bit 0 set turns the tone
/// off and bit 3 set the noise; byte 1 is the tone offset as a signed byte;
/// the envelope or noise offset is the signed low five bits of byte 0 when
/// the envelope or the noise is on, 0 otherwise.
pub proof fn lemma_asc_tick_bits(b0: u8, b1: u8, b2: u8)
    ensures
        ({
            let t = sam_tick(b0, b1, b2);
            let mode = (b2 as int / 2) % 4;
            &&& t.amplitude as int == b2 as int / 16
            &&& t.envelope_enabled == (mode == 1)
            &&& t.amplitude_sliding == (mode == 2 || mode == 3)
            &&& t.amplitude_slide_up == (mode == 3)
            &&& t.mixer_ton == (b2 as int % 2 == 0)
            &&& t.mixer_noise == ((b2 as int / 8) % 2 == 0)
            &&& t.add_to_ton as int == if b1 >= 128 { b1 as int - 256 } else { b1 as int }
            &&& t.add_to_envelope_or_noise as int == if mode == 1 || (b2 as int / 8) % 2 == 0 {
                if b0 as int % 32 >= 16 { b0 as int % 32 - 32 } else { b0 as int % 32 }
            } else {
                0
            }
        }),
{
    assert(b2 >> 4u8 == b2 / 16 && (b2 & 6u8 == 2u8) == ((b2 / 2) % 4 == 1) && (b2 & 6u8 == 4u8) == ((b2 / 2) % 4
        == 2) && (b2 & 6u8 == 6u8) == ((b2 / 2) % 4 == 3) && (b2 & 1u8 == 0u8) == (b2 % 2 == 0) && (b2 & 8u8 == 0u8)
        == ((b2 / 8) % 2 == 0) && b0 & 0x1Fu8 == b0 % 32) by (bit_vector);
}

/// Sample ticks read from `jj` on (three bytes each, while three bytes
/// remain): byte 0 bit 7 marks the loop start; bit 6 ends the sample; bit 5
/// alone ends it with a silent tick added and the loop set to that tick.
/// At most 64 ticks.  Gives the tick count, the loop position and the ticks.
pub open spec fn sam_sim(data: Seq<u8>, jj: int, k: int, lp: int, items: Seq<SampleTick>) -> (int, int, Seq<SampleTick>)
    decreases 64 - k,
{
    if k >= 64 || k < 0 || jj < 0 || jj + 2 >= data.len() {
        (k, lp, items)
    } else {
        let b0 = data[jj];
        let items2 = items.update(k, sam_tick(b0, data[jj + 1], data[jj + 2]));
        let lp2 = if b0 >= 128 {
            k
        } else {
            lp
        };
        if k + 1 >= 64 {
            (k + 1, lp2, items2)
        } else if b0 & 0x60u8 != 0 {
            if b0 & 0x20u8 != 0 && b0 & 0x40u8 == 0 {
                (k + 2, k + 1, items2.update(k + 1, blank_tick()))
            } else {
                (k + 1, lp2, items2)
            }
        } else {
            sam_sim(data, jj + 3, k + 1, lp2, items2)
        }
    }
}

/// The sample at `j` as the tracker keeps it: at least one tick, the loop
/// inside them.
pub open spec fn asc_sample(data: Seq<u8>, j: int) -> (int, int, Seq<SampleTick>) {
    let (k, lp, items) = sam_sim(data, j, 0, 0, Seq::new(64, |i: int| blank_tick()));
    let len = if k == 0 {
        1
    } else {
        k
    };
    (len, if lp >= len {
        len - 1
    } else {
        lp
    }, items)
}

fn sam_tick_exec(b0: u8, b1: u8, b2: u8) -> (r: SampleTick)
    ensures
        r == sam_tick(b0, b1, b2),
{
    let env = b2 & 6 == 2;
    let noise = b2 & 8 == 0;
    let v = b0 & 0x1F;
    assert(v < 32) by (bit_vector)
        requires
            v == b0 & 0x1F,
    ;
    let five: i8 = if v >= 16 {
        v as i8 - 32
    } else {
        v as i8
    };
    SampleTick {
        add_to_ton: if b1 >= 128 {
            b1 as i16 - 256
        } else {
            b1 as i16
        },
        ton_accumulation: true,
        amplitude: b2 >> 4,
        amplitude_sliding: b2 & 6 == 4 || b2 & 6 == 6,
        amplitude_slide_up: b2 & 6 == 6,
        envelope_enabled: env,
        envelope_or_noise_accumulation: true,
        add_to_envelope_or_noise: if env || noise {
            five
        } else {
            0
        },
        mixer_ton: b2 & 1 == 0,
        mixer_noise: noise,
    }
}

/// Read the sample at `j` (see [`asc_sample`]).
fn read_sample(data: &[u8], j: usize) -> (r: Sample)
    requires
        data@.len() <= isize::MAX,
    ensures
        asc_sample(data@, j as int) == (r.length as int, r.loop_pos as int, r.items@),
        r.enabled,
{
    let mut sam = Sample::default();
    let ghost target = sam_sim(data@, j as int, 0, 0, sam.items@);
    assert(sam.items@ =~= Seq::new(64, |i: int| blank_tick()));
    let mut jj = j;
    let mut k: usize = 0;
    let mut lp: usize = 0;
    loop
        invariant_except_break
            sam_sim(data@, jj as int, k as int, lp as int, sam.items@) == target,
        invariant
            k <= 64,
            lp < 64,
            lp <= k,
            sam.enabled,
            data@.len() <= isize::MAX,
        ensures
            target == (k as int, lp as int, sam.items@),
        decreases 64 - k,
    {
        if k >= 64 || jj >= data.len() || data.len() - jj <= 2 {
            break ;
        }
        let b0 = data[jj];
        sam.items[k] = sam_tick_exec(b0, data[jj + 1], data[jj + 2]);
        if b0 >= 128 {
            lp = k;
        }
        k = k + 1;
        jj = jj + 3;
        if k >= 64 {
            break ;
        }
        if b0 & 0x60 != 0 {
            if b0 & 0x20 != 0 && b0 & 0x40 == 0 {
                lp = k;
                sam.items[k] = SampleTick::default();
                k = k + 1;
            }
            break ;
        }
    }
    sam.length = if k == 0 {
        1
    } else {
        k as u8
    };
    sam.loop_pos = if lp >= sam.length as usize {
        sam.length - 1
    } else {
        lp as u8
    };
    sam
}


/// A sample as read: length, loop position and ticks.
pub type SamRead = (int, int, Seq<SampleTick>);

/// Where file sample `i`'s data starts, when its table entry and the start
/// lie within the data.
pub open spec fn sam_entry(data: Seq<u8>, base: int, i: int) -> Option<int> {
    match table_entry(data, base, i) {
        Some(j) => if j < data.len() {
            Some(j)
        } else {
            None
        },
        None => None,
    }
}

/// The tracker samples after reading file samples `i` on in order: each
/// numbered one whose data starts within the file is read into its number's
/// slot (a later one with the same number replacing it).
pub open spec fn sam_fold(data: Seq<u8>, sams: Seq<i32>, base: int, i: int, slots: Seq<Option<SamRead>>) -> Seq<
    Option<SamRead>,
>
    decreases 32 - i,
{
    if i >= 32 || i < 0 {
        slots
    } else if sams[i] > 0 && sam_entry(data, base, i) is Some {
        sam_fold(
            data,
            sams,
            base,
            i + 1,
            slots.update(sams[i] as int, Some(asc_sample(data, sam_entry(data, base, i)->0))),
        )
    } else {
        sam_fold(data, sams, base, i + 1, slots)
    }
}

/// `ex` holds exactly the samples `sp` describes (all enabled).
pub open spec fn sams_match(ex: Seq<Option<Box<Sample>>>, sp: Seq<Option<SamRead>>) -> bool {
    &&& ex.len() == sp.len()
    &&& forall|v: int|
        0 <= v < ex.len() ==> match (#[trigger] ex[v], sp[v]) {
            (None, None) => true,
            (Some(s), Some((l, lp, it))) => s.length == l && s.loop_pos == lp && s.items@ == it
                && s.enabled,
            _ => false,
        }
}

/// Read the numbered file samples into `samples` (see [`sam_fold`]).
fn read_samples(data: &[u8], sams: &[i32; 32], base: usize, samples: &mut [Option<Box<Sample>>; 32], Ghost(
    sp,
): Ghost<Seq<Option<SamRead>>>)
    requires
        base < 65536,
        data@.len() <= isize::MAX,
        forall|i: int| 0 <= i < 32 ==> #[trigger] sams[i] <= 31,
        sams_match(old(samples)@, sp),
    ensures
        sams_match(final(samples)@, sam_fold(data@, sams@, base as int, 0, sp)),
{
    let ghost target = sam_fold(data@, sams@, base as int, 0, sp);
    let ghost mut cur = sp;
    let mut i: usize = 0;
    while i < 32
        invariant
            i <= 32,
            base < 65536,
            data@.len() <= isize::MAX,
            forall|q: int| 0 <= q < 32 ==> #[trigger] sams[q] <= 31,
            sams_match(samples@, cur),
            sam_fold(data@, sams@, base as int, i as int, cur) == target,
        decreases 32 - i,
    {
        let l = sams[i];
        if l > 0 {
            match table_entry_exec(data, base, i) {
                Some(j) => {
                    if j < data.len() {
                        assert(sams@[i as int] == l);
                        let sam = read_sample(data, j);
                        proof {
                            cur = cur.update(l as int, Some(asc_sample(data@, j as int)));
                        }
                        samples[l as usize] = Some(Box::new(sam));
                    }
                },
                None => {},
            }
        }
        i = i + 1;
    }
}

// ─── The module ──────────────────────────────────────────────────────────────

/// No sample or ornament numbered yet.
pub open spec fn start_maps() -> AscMaps {
    AscMaps { orns: unmapped(), sams: unmapped(), n_orns: 0, n_sams: 0, env_t: 0 }
}

/// A numbering with nothing numbered.
pub open spec fn unmapped() -> [i32; 32] {
    [
        -1i32, -1i32, -1i32, -1i32, -1i32, -1i32, -1i32, -1i32, -1i32, -1i32, -1i32, -1i32, -1i32, -1i32, -1i32, -1i32, -1i32, -1i32, -1i32, -1i32, -1i32, -1i32, -1i32, -1i32, -1i32, -1i32, -1i32, -1i32, -1i32, -1i32, -1i32, -1i32
    ]
}

/// Ticks per row: the initial delay, 256 for 0.
pub open spec fn row_ticks(data: Seq<u8>) -> int {
    if data[ASC1_OFF_DELAY as int] == 0 {
        256
    } else {
        data[ASC1_OFF_DELAY as int] as int
    }
}

/// The position walk over the whole file (see [`asc_walk`]).
pub open spec fn asc_song(data: Seq<u8>) -> (int, Seq<usize>, Seq<PatRead>, AscMaps) {
    asc_walk(
        data,
        word_at(data, ASC1_OFF_PAT_PTRS as int),
        data[ASC1_OFF_NUM_POS as int] as int,
        row_ticks(data),
        0,
        Seq::new(256, |i: int| 0usize),
        no_reads(),
        start_maps(),
    )
}

/// The zero ornament of the file (0 when none).
pub open spec fn asc_zero(data: Seq<u8>) -> int {
    zero_ornament_from(data, asc_song(data).3.orns, word_at(data, ASC1_OFF_ORN_PTRS as int), 0)
}

/// Whether all 16 ornament numbers were given out.
pub open spec fn asc_all16(data: Seq<u8>) -> bool {
    asc_song(data).3.n_orns == 16
}

/// The ornament numbering after renumbering.
pub open spec fn asc_orns(data: Seq<u8>) -> Seq<i32> {
    orns_fix(asc_song(data).3.orns, asc_zero(data), asc_all16(data))
}

/// The renumbered ornaments fit the tracker's 16 slots: false only for a
/// file whose zero ornament is its 16th, or that numbers 16 ornaments twice.
pub open spec fn asc_fits(data: Seq<u8>) -> bool {
    orns_fit(data, asc_orns(data), word_at(data, ASC1_OFF_ORN_PTRS as int))
}

/// A name field of 20 bytes at `off`, when it lies within the data.
pub open spec fn asc_name(data: Seq<u8>, off: int) -> Seq<char> {
    if off + 20 <= data.len() {
        crate::formats::utf8_lossy(trim_end(data.subrange(off, off + 20)))
    } else {
        Seq::empty()
    }
}

/// The start slots of the ornaments: slot 0 the single zero offset.
pub open spec fn start_orn_slots() -> Seq<Option<OrnRead>> {
    Seq::new(16, |v: int| if v == 0 {
        Some((1int, 0int, zero_offsets()))
    } else {
        None
    })
}

/// `m` is the module the ASC file `data` describes: the header's delay and
/// loop (kept within the positions read), title and author when the file
/// carries them (72 bytes between the position list and the pattern table),
/// tone table 1, the positions and patterns of the walk with their
/// ornaments renumbered, and the numbered ornaments and samples.
pub open spec fn asc_module(data: Seq<u8>, m: Module) -> bool {
    let (n, values, pats, mp) = asc_song(data);
    let pat_base = word_at(data, ASC1_OFF_PAT_PTRS as int);
    let num_pos = data[ASC1_OFF_NUM_POS as int] as int;
    let lp = data[ASC1_OFF_LOOP_POS as int] as int;
    let texts = pat_base - num_pos == 72;
    &&& m.features_level == FeaturesLevel::Pt35
    &&& !m.vortex_module_header
    &&& m.ton_table == 1
    &&& m.initial_delay == data[ASC1_OFF_DELAY as int]
    &&& m.title@ == if texts {
        asc_name(data, pat_base - 44)
    } else {
        Seq::empty()
    }
    &&& m.author@ == if texts {
        asc_name(data, pat_base - 20)
    } else {
        Seq::empty()
    }
    &&& m.positions.length == n
    &&& m.positions.value@ == values
    &&& m.positions.loop_pos == if n > 0 && lp >= n {
        n - 1
    } else {
        lp
    }
    &&& pats_match(
        m.patterns@,
        Seq::new(pats.len(), |j: int| pat_fix(pats[j], asc_zero(data), asc_all16(data))),
    )
    &&& orns_match(
        m.ornaments@,
        orn_fold(data, asc_orns(data), word_at(data, ASC1_OFF_ORN_PTRS as int), 0, start_orn_slots()),
    )
    &&& sams_match(
        m.samples@,
        sam_fold(
            data,
            mp.sams@,
            word_at(data, ASC1_OFF_SAM_PTRS as int),
            0,
            Seq::new(32, |v: int| None),
        ),
    )
    &&& forall|c: int|
        0 <= c < 3 ==> #[trigger] m.is_chans[c] == (crate::types::ChannelState {
            global_ton: true,
            global_noise: true,
            global_envelope: true,
            envelope_enabled: false,
            ornament: 0,
            sample: 1,
            volume: 15,
        })
}

/// Read the ASC module in `data` (at least the header, see [`asc_module`]).
fn parse_asc1(data: &[u8]) -> (m: Module)
    requires
        data@.len() >= ASC1_OFF_POSITIONS,
        data@.len() <= isize::MAX,
        asc_fits(data@),
    ensures
        asc_module(data@, m),
        m.wf(),
{
    let pat_base = word_at_exec(data, ASC1_OFF_PAT_PTRS);
    let sam_base = word_at_exec(data, ASC1_OFF_SAM_PTRS);
    let orn_base = word_at_exec(data, ASC1_OFF_ORN_PTRS);
    let num_pos = data[ASC1_OFF_NUM_POS] as usize;
    let mut module = Module::default();
    module.features_level = FeaturesLevel::Pt35;
    module.vortex_module_header = false;
    module.ton_table = 1;
    module.initial_delay = data[ASC1_OFF_DELAY];
    assert(module.title@ =~= Seq::<char>::empty());
    assert(module.author@ =~= Seq::<char>::empty());
    if pat_base >= num_pos && pat_base - num_pos == 72 {
        let title_off = pat_base - 44;
        let author_off = pat_base - 20;
        if title_off + 20 <= data.len() {
            module.title = trim_right_ascii(vstd::slice::slice_subrange(data, title_off, title_off + 20));
        }
        if author_off + 20 <= data.len() {
            module.author = trim_right_ascii(vstd::slice::slice_subrange(data, author_off, author_off + 20));
        }
    }
    let d: i32 = if data[ASC1_OFF_DELAY] == 0 {
        256
    } else {
        data[ASC1_OFF_DELAY] as i32
    };
    let maps0 = AscMaps { orns: [-1i32; 32], sams: [-1i32; 32], n_orns: 0, n_sams: 0, env_t: 0 };
    assert(module.patterns@.len() == MAX_NUM_OF_PATS + 1);
    assert(pats_match(module.patterns@, no_reads()));
    assert(module.positions.value@ =~= Seq::new(256, |i: int| 0usize));
    assert(maps0.orns =~= unmapped());
    assert(maps0.sams =~= unmapped());
    assert(maps0 == start_maps());
    let (n, mp) = read_positions(
        data,
        pat_base,
        num_pos,
        d,
        &mut module.positions.value,
        &mut module.patterns,
        maps0,
    );
    let ghost song = asc_song(data@);
    assert(song.0 == n && song.3 == mp);
    module.positions.length = n;
    let lp = data[ASC1_OFF_LOOP_POS] as usize;
    module.positions.loop_pos = if n > 0 && lp >= n {
        n - 1
    } else {
        lp
    };
    let zo = find_zero_ornament(data, &mp.orns, orn_base);
    let drop16 = mp.n_orns == 16;
    fix_patterns(&mut module.patterns, zo, drop16, Ghost(song.2));
    let orns = orns_fix_exec(mp.orns, zo, drop16);
    assert(module.ornaments[0] matches Some(o) && o.items@ =~= zero_offsets());
    assert(orns_match(module.ornaments@, start_orn_slots()));
    read_ornaments(data, &orns, orn_base, &mut module.ornaments, Ghost(start_orn_slots()));
    assert(sams_match(module.samples@, Seq::new(32, |v: int| None)));
    read_samples(data, &mp.sams, sam_base, &mut module.samples, Ghost(Seq::new(32, |v: int| None)));
    module
}


fn orns_fit_exec(data: &[u8], orns: &[i32; 32], base: usize) -> (r: bool)
    requires
        base < 65536,
    ensures
        r == orns_fit(data@, orns@, base as int),
{
    let mut i: usize = 0;
    while i < 32
        invariant
            i <= 32,
            base < 65536,
            forall|q: int|
                0 <= q < i && #[trigger] orns@[q] > 0 && table_entry(data@, base as int, q) is Some
                    ==> orns@[q] < 16,
        decreases 32 - i,
    {
        if orns[i] >= 16 {
            if table_entry_exec(data, base, i).is_some() {
                assert(orns@[i as int] >= 16);
                return false;
            }
        }
        i = i + 1;
    }
    true
}

/// Whether the renumbered ornaments of the ASC file `data` fit the
/// tracker's 16 slots (see [`asc_fits`]); [`parse`] reads exactly such files.
pub fn ornaments_fit(data: &[u8]) -> (r: bool)
    requires
        data@.len() <= isize::MAX,
        data@.len() >= ASC1_OFF_POSITIONS,
    ensures
        r == asc_fits(data@),
{
    let pat_base = word_at_exec(data, ASC1_OFF_PAT_PTRS);
    let orn_base = word_at_exec(data, ASC1_OFF_ORN_PTRS);
    let num_pos = data[ASC1_OFF_NUM_POS] as usize;
    let d: i32 = if data[ASC1_OFF_DELAY] == 0 {
        256
    } else {
        data[ASC1_OFF_DELAY] as i32
    };
    let maps0 = AscMaps { orns: [-1i32; 32], sams: [-1i32; 32], n_orns: 0, n_sams: 0, env_t: 0 };
    assert(maps0.orns =~= unmapped());
    assert(maps0.sams =~= unmapped());
    let mut values = [0usize; 256];
    assert(values@ =~= Seq::new(256, |i: int| 0usize));
    let mut patterns: Vec<Option<Box<Pattern>>> = Vec::new();
    let mut j: usize = 0;
    while j < MAX_NUM_OF_PATS + 1
        invariant
            j <= MAX_NUM_OF_PATS + 1,
            patterns@.len() == j,
            forall|q: int| 0 <= q < j ==> #[trigger] patterns@[q] is None,
        decreases MAX_NUM_OF_PATS + 1 - j,
    {
        patterns.push(None);
        j = j + 1;
    }
    assert(pats_match(patterns@, no_reads()));
    let (_n, mp) = read_positions(data, pat_base, num_pos, d, &mut values, &mut patterns, maps0);
    let zo = find_zero_ornament(data, &mp.orns, orn_base);
    let orns = orns_fix_exec(mp.orns, zo, mp.n_orns == 16);
    orns_fit_exec(data, &orns, orn_base)
}

/// The files [`parse`] reads: all but those whose renumbered ornaments
/// would not fit the tracker's 16 slots.
pub open spec fn parse_defined(data: Seq<u8>) -> bool {
    data.len() >= ASC_MIN_FILE_SIZE ==> asc_fits(data)
}

/// What reading the ASC file `data` gives: too short files are refused,
/// otherwise the module [`asc_module`] describes.
pub open spec fn parse_outcome(data: Seq<u8>, r: Result<Module, FormatError>) -> bool {
    &&& data.len() < ASC_MIN_FILE_SIZE ==> r == Err::<Module, FormatError>(FormatError::TooShort)
    &&& data.len() >= ASC_MIN_FILE_SIZE ==> (r matches Ok(m) && m.wf() && asc_module(data, m))
}

/// The files [`parse_asc0`] reads: all but those whose ASC form's
/// renumbered ornaments would not fit the tracker's 16 slots.
pub open spec fn asc0_defined(data: Seq<u8>) -> bool {
    ASC_MIN_FILE_SIZE - 1 <= data.len() < 65535 ==> asc_fits(asc0_to_asc(data))
}

/// What reading the `.as0` file `data` gives: too short and too large files
/// are refused, otherwise the module of the ASC file it stands for.
pub open spec fn asc0_outcome(data: Seq<u8>, r: Result<Module, FormatError>) -> bool {
    &&& data.len() < ASC_MIN_FILE_SIZE - 1 ==> r == Err::<Module, FormatError>(FormatError::TooShort)
    &&& data.len() >= 65535 ==> r == Err::<Module, FormatError>(FormatError::FileTooLarge)
    &&& ASC_MIN_FILE_SIZE - 1 <= data.len() < 65535 ==> (r matches Ok(m) && m.wf() && asc_module(
        asc0_to_asc(data),
        m,
    ))
}

/// Parse an ASC Sound Master (`.asc`) file.  Files shorter than the header
/// and one position are refused; otherwise the module is the one
/// [`asc_module`] describes.  (A file whose renumbered ornaments would not fit
/// the tracker's 16 slots is outside the contract, see [`asc_fits`].)
pub fn parse(data: &[u8]) -> (r: Result<Module, FormatError>)
    requires
        data@.len() <= isize::MAX,
        parse_defined(data@),
    ensures
        parse_outcome(data@, r),
{
    if data.len() < ASC_MIN_FILE_SIZE {
        return Err(FormatError::TooShort);
    }
    Ok(parse_asc1(data))
}

/// A little-endian word plus one, wrapping at 16 bits.
pub open spec fn word_plus1(lo: u8, hi: u8) -> (u8, u8) {
    let w = (lo as int + 256 * hi as int + 1) % 65536;
    ((w % 256) as u8, (w / 256) as u8)
}

/// The ASC file an `.as0` file stands for: a zero loop position inserted
/// after the delay, and the three table offsets that follow moved up by one.
pub open spec fn asc0_to_asc(data: Seq<u8>) -> Seq<u8> {
    let v = seq![data[0], 0u8] + data.subrange(1, data.len() as int);
    let (a0, a1) = word_plus1(v[2], v[3]);
    let (b0, b1) = word_plus1(v[4], v[5]);
    let (c0, c1) = word_plus1(v[6], v[7]);
    v.update(2, a0).update(3, a1).update(4, b0).update(5, b1).update(6, c0).update(7, c1)
}

fn bump_word(v: &mut Vec<u8>, off: usize)
    requires
        off < 8,
        off + 1 < old(v)@.len(),
    ensures
        final(v)@ == old(v)@.update(off as int, word_plus1(old(v)@[off as int], old(v)@[off + 1]).0).update(
            off + 1,
            word_plus1(old(v)@[off as int], old(v)@[off + 1]).1,
        ),
{
    let lo: u32 = v[off] as u32;
    let hi: u32 = v[off + 1] as u32;
    let w: u32 = lo + 256 * hi;
    let w2 = if w == 65535 {
        0
    } else {
        w + 1
    };
    v.set(off, (w2 % 256) as u8);
    v.set(off + 1, (w2 / 256) as u8);
}

/// The ASC file an `.as0` file stands for (see [`asc0_to_asc`]).
pub(crate) fn asc0_bytes(data: &[u8]) -> (v: Vec<u8>)
    requires
        ASC_MIN_FILE_SIZE - 1 <= data@.len() < 65535,
    ensures
        v@ == asc0_to_asc(data@),
{
    let mut v: Vec<u8> = Vec::new();
    v.push(data[0]);
    v.push(0);
    let mut i: usize = 1;
    while i < data.len()
        invariant
            1 <= i <= data@.len(),
            data@.len() < 65535,
            v@ == seq![data@[0], 0u8] + data@.subrange(1, i as int),
        decreases data.len() - i,
    {
        v.push(data[i]);
        i = i + 1;
        assert(v@ =~= seq![data@[0], 0u8] + data@.subrange(1, i as int));
    }
    bump_word(&mut v, ASC1_OFF_PAT_PTRS);
    bump_word(&mut v, ASC1_OFF_SAM_PTRS);
    bump_word(&mut v, ASC1_OFF_ORN_PTRS);
    assert(v@ =~= asc0_to_asc(data@));
    v
}

/// Parse an ASC Sound Master v0 (`.as0`) file, which lacks the loop-position
/// byte: files shorter than its header and one position are refused, as are
/// files of 65535 bytes or more; otherwise it reads as the ASC file
/// [`asc0_to_asc`] gives.
pub fn parse_asc0(data: &[u8]) -> (r: Result<Module, FormatError>)
    requires
        data@.len() <= isize::MAX,
        asc0_defined(data@),
    ensures
        asc0_outcome(data@, r),
{
    if data.len() < ASC_MIN_FILE_SIZE - 1 {
        return Err(FormatError::TooShort);
    }
    if data.len() >= 65535 {
        return Err(FormatError::FileTooLarge);
    }
    let v = asc0_bytes(data);
    Ok(parse_asc1(v.as_slice()))
}

/// An `.as0` file of 9 to 65534 bytes reads exactly as the ASC file made of
/// its first byte, a zero loop position, and the rest of it with each of the
/// three little-endian words at its bytes 1..7 one more (modulo 65536): the
/// same files are read, and each reading gives the same result.
pub proof fn lemma_asc0_reads_as_asc(data: Seq<u8>, r: Result<Module, FormatError>)
    requires
        ASC_MIN_FILE_SIZE - 1 <= data.len() < 65535,
    ensures
        ({
            let d1 = asc0_to_asc(data);
            &&& d1.len() == data.len() + 1
            &&& d1[0] == data[0]
            &&& d1[1] == 0
            &&& forall|k: int| 0 <= k < 3 ==> #[trigger] (d1[2 + 2 * k] as int + 256 * d1[3 + 2 * k] as int) == (
                data[1 + 2 * k] as int + 256 * data[2 + 2 * k] as int + 1) % 65536
            &&& forall|k: int| 8 <= k < d1.len() ==> #[trigger] d1[k] == data[k - 1]
            &&& asc0_defined(data) == parse_defined(d1)
            &&& asc0_outcome(data, r) == parse_outcome(d1, r)
        }),
{
    let d1 = asc0_to_asc(data);
    let v = seq![data[0], 0u8] + data.subrange(1, data.len() as int);
    assert forall|k: int| 0 <= k < 3 implies #[trigger] (d1[2 + 2 * k] as int + 256 * d1[3 + 2 * k] as int) == (
        data[1 + 2 * k] as int + 256 * data[2 + 2 * k] as int + 1) % 65536 by {
        let lo = v[2 + 2 * k];
        let hi = v[3 + 2 * k];
        assert(lo == data[1 + 2 * k] && hi == data[2 + 2 * k]);
        let w = (lo as int + 256 * hi as int + 1) % 65536;
        assert(0 <= w < 65536);
        assert(w == (w % 256) + 256 * (w / 256));
        assert(d1[2 + 2 * k] == word_plus1(lo, hi).0 && d1[3 + 2 * k] == word_plus1(lo, hi).1);
    }
    assert forall|k: int| 8 <= k < d1.len() implies #[trigger] d1[k] == data[k - 1] by {
        assert(d1[k] == v[k]);
    }
}

/// The signed value of the low five bits of `v` (two's complement).
pub open spec fn signed5(v: int) -> int {
    if v % 32 >= 16 {
        v % 32 - 32
    } else {
        v % 32
    }
}


} // verus!
