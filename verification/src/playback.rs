//! Tracker playback engine.
//!
//! The engine advances playback one interrupt tick at a time.  Each call to
//! [`Engine::module_play_current_line`] corresponds to one 50 Hz interrupt
//! period on the original hardware: it interprets pattern rows when the
//! speed counter runs out and renders the channel state into AY registers.
use crate::note_tables::{get_note_freq, note_freq, PT3_VOL};
use crate::types::{AyRegisters, ChannelState, Module, Ornament, Pattern, Sample, SampleTick};
use vstd::array::spec_array_update;
use vstd::prelude::*;

verus! {

/// Per-channel dynamic playback state.
#[derive(Debug, Clone, Copy)]
pub struct ChanParams {
    pub sample_position: u8,
    pub ornament_position: u8,
    pub sound_enabled: bool,
    pub slide_to_note: u8,
    pub note: u8,
    pub ton_slide_delay: i8,
    pub ton_slide_count: i8,
    pub ton_slide_step: i16,
    pub ton_slide_delta: i16,
    pub ton_slide_type: i32,
    pub current_ton_sliding: i16,
    pub on_off_delay: i8,
    pub off_on_delay: i8,
    pub current_on_off: i8,
    pub ton: u16,
    pub ton_accumulator: u16,
    pub amplitude: u8,
    pub current_amplitude_sliding: i8,
    pub current_envelope_sliding: i8,
    pub current_noise_sliding: i8,
}

/// A channel with everything cleared.
pub open spec fn chan_params_zero() -> ChanParams {
    ChanParams {
        sample_position: 0,
        ornament_position: 0,
        sound_enabled: false,
        slide_to_note: 0,
        note: 0,
        ton_slide_delay: 0,
        ton_slide_count: 0,
        ton_slide_step: 0,
        ton_slide_delta: 0,
        ton_slide_type: 0,
        current_ton_sliding: 0,
        on_off_delay: 0,
        off_on_delay: 0,
        current_on_off: 0,
        ton: 0,
        ton_accumulator: 0,
        amplitude: 0,
        current_amplitude_sliding: 0,
        current_envelope_sliding: 0,
        current_noise_sliding: 0,
    }
}

impl Default for ChanParams {
    fn default() -> (r: Self)
        ensures
            r == chan_params_zero(),
    {
        ChanParams {
            sample_position: 0,
            ornament_position: 0,
            sound_enabled: false,
            slide_to_note: 0,
            note: 0,
            ton_slide_delay: 0,
            ton_slide_count: 0,
            ton_slide_step: 0,
            ton_slide_delta: 0,
            ton_slide_type: 0,
            current_ton_sliding: 0,
            on_off_delay: 0,
            off_on_delay: 0,
            current_on_off: 0,
            ton: 0,
            ton_accumulator: 0,
            amplitude: 0,
            current_amplitude_sliding: 0,
            current_envelope_sliding: 0,
            current_noise_sliding: 0,
        }
    }
}

/// Per-chip playback variables.
#[derive(Debug, Clone, Copy)]
pub struct PlayVars {
    pub current_position: usize,
    pub current_pattern: i32,
    pub current_line: usize,
    pub env_base: i16,
    pub params_of_chan: [ChanParams; 3],
    pub delay: i8,
    pub delay_counter: i8,
    pub cur_env_slide: i16,
    pub cur_env_delay: i8,
    pub env_delay: i8,
    pub env_slide_add: i16,
    pub add_to_env: i8,
    pub add_to_noise: u8,
    pub pt3_noise: u8,
    pub int_cnt: i32,
}

impl Default for PlayVars {
    fn default() -> (r: Self)
        ensures
            r.current_position == 0,
            r.current_pattern == 0,
            r.current_line == 0,
            r.env_base == 0,
            forall|c: int| 0 <= c < 3 ==> #[trigger] r.params_of_chan[c] == chan_params_zero(),
            r.delay == 0,
            r.delay_counter == 0,
            r.cur_env_slide == 0,
            r.cur_env_delay == 0,
            r.env_delay == 0,
            r.env_slide_add == 0,
            r.add_to_env == 0,
            r.add_to_noise == 0,
            r.pt3_noise == 0,
            r.int_cnt == 0,
    {
        let c = ChanParams::default();
        PlayVars {
            current_position: 0,
            current_pattern: 0,
            current_line: 0,
            env_base: 0,
            params_of_chan: [c, c, c],
            delay: 0,
            delay_counter: 0,
            cur_env_slide: 0,
            cur_env_delay: 0,
            env_delay: 0,
            env_slide_add: 0,
            add_to_env: 0,
            add_to_noise: 0,
            pt3_noise: 0,
            int_cnt: 0,
        }
    }
}

/// Return value of the line players.
#[derive(Debug, Clone, Copy, PartialEq, Eq, Structural)]
pub enum PlayResult {
    /// AY registers were updated (normal tick).
    Updated,
    /// Pattern has ended; advance to next position.
    PatternEnd,
    /// Module has looped back (reached loop position).
    ModuleLoop,
}

/// Playback engine for a single chip slot.
pub struct Engine<'a> {
    pub module: &'a mut Module,
    pub vars: &'a mut PlayVars,
}

// ─── The model of one tick ───────────────────────────────────────────────────

/// The sample a channel plays (`None` when the number is out of range or the
/// slot is empty).
pub open spec fn sample_at(m: Module, n: u8) -> Option<Sample> {
    if n < 32 {
        match m.samples[n as int] {
            Some(b) => Some(*b),
            None => None,
        }
    } else {
        None
    }
}

/// The ornament a channel plays (`None` when out of range or empty).
pub open spec fn ornament_at(m: Module, n: u8) -> Option<Ornament> {
    if n < 16 {
        match m.ornaments[n as int] {
            Some(b) => Some(*b),
            None => None,
        }
    } else {
        None
    }
}

/// Storage slot of the pattern being played.
pub open spec fn cur_slot(v: PlayVars) -> int {
    Module::spec_pat_idx(v.current_pattern)
}

/// The pattern being played, if its slot holds one.
pub open spec fn cur_pattern(m: Module, v: PlayVars) -> Option<Pattern> {
    if 0 <= cur_slot(v) < m.patterns@.len() {
        match m.patterns@[cur_slot(v)] {
            Some(b) => Some(*b),
            None => None,
        }
    } else {
        None
    }
}

/// Sample step 1: the tone offset of the current sample tick, accumulated
/// when the tick asks for it.
pub open spec fn tone_from_sample(p: ChanParams, s: Option<Sample>) -> ChanParams {
    match s {
        Some(smp) => if (p.sample_position as int) < smp.length as int {
            let tick = smp.items[p.sample_position as int];
            let t = (p.ton_accumulator + tick.add_to_ton) as u16;
            ChanParams {
                ton: t,
                ton_accumulator: if tick.ton_accumulation {
                    t
                } else {
                    p.ton_accumulator
                },
                ..p
            }
        } else {
            p
        },
        None => p,
    }
}

/// The semitone offset of the current ornament step.
pub open spec fn orn_offset(p: ChanParams, o: Option<Ornament>) -> int {
    match o {
        Some(orn) => if (p.ornament_position as int) < orn.length {
            orn.items[p.ornament_position as int] as int
        } else {
            0
        },
        None => 0,
    }
}

/// `v` clamped to `lo..=hi`.
pub open spec fn clamp(v: int, lo: int, hi: int) -> int {
    if v < lo {
        lo
    } else if v > hi {
        hi
    } else {
        v
    }
}

/// The tone period: sample tone + glide + note (with ornament) period, 12 bits.
pub open spec fn with_note_period(p: ChanParams, table: u8, off: int) -> ChanParams {
    let raw = clamp(p.note + off, 0, 95) as u8;
    ChanParams {
        ton: (((p.ton + p.current_ton_sliding + note_freq(table, raw)) as i32) & 0xFFFi32) as u16,
        ..p
    }
}

/// Whether the glide step of this tick stays in range.
pub open spec fn glide_ok(p: ChanParams) -> bool {
    p.ton_slide_count > 0 && p.ton_slide_count - 1 == 0 ==> i16::MIN <= p.current_ton_sliding
        + p.ton_slide_step <= i16::MAX
}

/// Glissando: every `ton_slide_delay` ticks the slide grows by one step; a
/// targeted slide (type 1) stops on the target note once it gets there.
pub open spec fn glide(p: ChanParams) -> ChanParams {
    if p.ton_slide_count > 0 {
        let c = (p.ton_slide_count - 1) as i8;
        if c == 0 {
            let s = (p.current_ton_sliding + p.ton_slide_step) as i16;
            if p.ton_slide_type == 1 && ((p.ton_slide_step < 0 && s <= p.ton_slide_delta) || (
            p.ton_slide_step >= 0 && s >= p.ton_slide_delta)) {
                ChanParams {
                    note: p.slide_to_note,
                    ton_slide_count: 0,
                    current_ton_sliding: 0,
                    ..p
                }
            } else {
                ChanParams { current_ton_sliding: s, ton_slide_count: p.ton_slide_delay, ..p }
            }
        } else {
            ChanParams { ton_slide_count: c, ..p }
        }
    } else {
        p
    }
}

/// The amplitude-slide counter after one tick of `tick`.
pub open spec fn amp_slide(cas: i8, tick: SampleTick) -> i8 {
    if tick.amplitude_sliding {
        if tick.amplitude_slide_up {
            if cas < 15 {
                (cas + 1) as i8
            } else {
                cas
            }
        } else if cas > -15 {
            (cas - 1) as i8
        } else {
            cas
        }
    } else {
        cas
    }
}

/// Whether the envelope/noise accumulation of this tick stays in range.
pub open spec fn amp_ok(p: ChanParams, s: Option<Sample>, st: ChannelState, add_to_env: i8) -> bool {
    match s {
        Some(smp) => (p.sample_position as int) < smp.length as int ==> {
            let tick = smp.items[p.sample_position as int];
            &&& st.volume < 16
            &&& !tick.mixer_noise ==> {
                &&& i8::MIN <= p.current_envelope_sliding + tick.add_to_envelope_or_noise
                    <= i8::MAX
                &&& i8::MIN <= add_to_env + p.current_envelope_sliding
                    + tick.add_to_envelope_or_noise <= i8::MAX
            }
        },
        None => true,
    }
}

/// Sample step 2: amplitude (through the channel volume), envelope or noise
/// offset, mixer bits, and the advance of the sample position.  Returns the
/// channel, the tick's envelope offset, the noise value and the mixer.
pub open spec fn amp_step(
    p: ChanParams,
    s: Option<Sample>,
    st: ChannelState,
    ch: int,
    add_to_env: i8,
    pt3_noise: u8,
    mixer: u8,
) -> (ChanParams, i8, u8, u8) {
    match s {
        Some(smp) => if (p.sample_position as int) < smp.length as int {
            let tick = smp.items[p.sample_position as int];
            let cas = amp_slide(p.current_amplitude_sliding, tick);
            let a = clamp(tick.amplitude + cas, 0, 15);
            let vol = PT3_VOL[st.volume as int][a];
            let ampl = if tick.envelope_enabled && st.envelope_enabled {
                vol | 0x10u8
            } else {
                vol
            };
            let e = (p.current_envelope_sliding + tick.add_to_envelope_or_noise) as i8;
            let n = (p.current_noise_sliding + tick.add_to_envelope_or_noise) as i8;
            let mx1 = if !tick.mixer_ton {
                mixer | (1u8 << ch as u8)
            } else {
                mixer
            };
            let mx2 = if !tick.mixer_noise {
                mx1 | (1u8 << (ch + 3) as u8)
            } else {
                mx1
            };
            let sp = if p.sample_position + 1 >= smp.length {
                smp.loop_pos
            } else {
                (p.sample_position + 1) as u8
            };
            (
                ChanParams {
                    amplitude: ampl,
                    current_amplitude_sliding: cas,
                    current_envelope_sliding: if !tick.mixer_noise
                        && tick.envelope_or_noise_accumulation {
                        e
                    } else {
                        p.current_envelope_sliding
                    },
                    current_noise_sliding: if tick.mixer_noise
                        && tick.envelope_or_noise_accumulation {
                        n
                    } else {
                        p.current_noise_sliding
                    },
                    sample_position: sp,
                    ..p
                },
                if !tick.mixer_noise {
                    (add_to_env + e) as i8
                } else {
                    add_to_env
                },
                if tick.mixer_noise {
                    n as u8
                } else {
                    pt3_noise
                },
                mx2,
            )
        } else {
            (ChanParams { amplitude: 0, ..p }, add_to_env, pt3_noise, mixer)
        },
        None => (p, add_to_env, pt3_noise, mixer),
    }
}

/// Ornament position after one tick (it wraps to the loop position).
pub open spec fn orn_advance(p: ChanParams, o: Option<Ornament>) -> ChanParams {
    match o {
        Some(orn) => ChanParams {
            ornament_position: if p.ornament_position + 1 >= orn.length {
                orn.loop_pos as u8
            } else {
                (p.ornament_position + 1) as u8
            },
            ..p
        },
        None => p,
    }
}

/// On/off effect: when the countdown runs out the channel toggles and the
/// countdown restarts with the delay for the new state.
pub open spec fn on_off(p: ChanParams) -> ChanParams {
    if p.current_on_off > 0 {
        let c = (p.current_on_off - 1) as i8;
        if c == 0 {
            ChanParams {
                sound_enabled: !p.sound_enabled,
                current_on_off: if !p.sound_enabled {
                    p.on_off_delay
                } else {
                    p.off_on_delay
                },
                ..p
            }
        } else {
            ChanParams { current_on_off: c, ..p }
        }
    } else {
        p
    }
}

/// Whether the envelope slide of this step stays in range.
pub open spec fn env_slide_ok(v: PlayVars) -> bool {
    v.cur_env_delay > 0 && v.cur_env_delay - 1 == 0 ==> i16::MIN <= v.cur_env_slide
        + v.env_slide_add <= i16::MAX
}

/// Envelope slide: every `env_delay` steps the slide grows by `env_slide_add`.
pub open spec fn env_slide(v: PlayVars) -> PlayVars {
    if v.cur_env_delay > 0 {
        let c = (v.cur_env_delay - 1) as i8;
        if c == 0 {
            PlayVars {
                cur_env_delay: v.env_delay,
                cur_env_slide: (v.cur_env_slide + v.env_slide_add) as i16,
                ..v
            }
        } else {
            PlayVars { cur_env_delay: c, ..v }
        }
    } else {
        v
    }
}

/// The channel after the sample's tone step, the ornament, the note period and
/// the glide (the part of a channel tick before the amplitude step).
pub open spec fn chan_pre(m: Module, v: PlayVars, ch: int) -> ChanParams {
    let st = m.is_chans[ch];
    let p1 = tone_from_sample(v.params_of_chan[ch], sample_at(m, st.sample));
    let p2 = with_note_period(p1, m.ton_table, orn_offset(p1, ornament_at(m, st.ornament)));
    glide(p2)
}

/// Whether one channel's register step stays in range.
#[verifier::opaque]
pub open spec fn chan_tick_ok(m: Module, v: PlayVars, ch: int) -> bool {
    let st = m.is_chans[ch];
    let p = v.params_of_chan[ch];
    p.sound_enabled ==> {
        let p1 = tone_from_sample(p, sample_at(m, st.sample));
        let p2 = with_note_period(p1, m.ton_table, orn_offset(p1, ornament_at(m, st.ornament)));
        let p3 = glide(p2);
        &&& glide_ok(p2)
        &&& amp_ok(p3, sample_at(m, st.sample), st, v.add_to_env)
        &&& env_slide_ok(v)
    }
}

/// One channel's register step: the channel state after the tick and the
/// mixer with the channel's bits added.
#[verifier::opaque]
pub open spec fn chan_tick(m: Module, v: PlayVars, ch: int, mixer: u8) -> (PlayVars, u8) {
    let st = m.is_chans[ch];
    let p = v.params_of_chan[ch];
    if !p.sound_enabled {
        (
            PlayVars {
                params_of_chan: spec_array_update(v.params_of_chan, ch, ChanParams { amplitude: 0, ..p }),
                ..v
            },
            mixer,
        )
    } else {
        let p3 = chan_pre(m, v, ch);
        let (p4, ae, pn, mx) = amp_step(
            p3,
            sample_at(m, st.sample),
            st,
            ch,
            v.add_to_env,
            v.pt3_noise,
            mixer,
        );
        let p6 = on_off(orn_advance(p4, ornament_at(m, st.ornament)));
        (
            env_slide(
                PlayVars {
                    params_of_chan: spec_array_update(v.params_of_chan, ch, p6),
                    add_to_env: ae,
                    pt3_noise: pn,
                    ..v
                },
            ),
            mx,
        )
    }
}

// ─── Executable steps ────────────────────────────────────────────────────────

/// The referenced sample as a value.
pub open spec fn opt_sample(o: Option<&Sample>) -> Option<Sample> {
    match o {
        Some(s) => Some(*s),
        None => None,
    }
}

/// The referenced ornament as a value.
pub open spec fn opt_ornament(o: Option<&Ornament>) -> Option<Ornament> {
    match o {
        Some(x) => Some(*x),
        None => None,
    }
}

fn sample_ref(m: &Module, n: u8) -> (r: Option<&Sample>)
    ensures
        opt_sample(r) == sample_at(*m, n),
{
    if n < 32 {
        match &m.samples[n as usize] {
            Some(b) => Some(&**b),
            None => None,
        }
    } else {
        None
    }
}

fn ornament_ref(m: &Module, n: u8) -> (r: Option<&Ornament>)
    ensures
        opt_ornament(r) == ornament_at(*m, n),
{
    if n < 16 {
        match &m.ornaments[n as usize] {
            Some(b) => Some(&**b),
            None => None,
        }
    } else {
        None
    }
}

fn exec_tone_from_sample(p: ChanParams, s: Option<&Sample>) -> (r: ChanParams)
    requires
        s matches Some(smp) ==> smp.length <= 64,
    ensures
        r == tone_from_sample(p, opt_sample(s)),
{
    let mut p = p;
    if let Some(smp) = s {
        let sp = p.sample_position as usize;
        if sp < smp.length as usize {
            let tick = smp.items[sp];
            p.ton = (p.ton_accumulator as i32 + tick.add_to_ton as i32) as u16;
            if tick.ton_accumulation {
                p.ton_accumulator = p.ton;
            }
        }
    }
    p
}

fn exec_orn_offset(p: ChanParams, o: Option<&Ornament>) -> (r: i8)
    requires
        o matches Some(orn) ==> orn.length <= 255,
    ensures
        r as int == orn_offset(p, opt_ornament(o)),
{
    if let Some(orn) = o {
        let op = p.ornament_position as usize;
        if op < orn.length {
            orn.items[op]
        } else {
            0
        }
    } else {
        0
    }
}

fn exec_with_note_period(p: ChanParams, table: u8, off: i8) -> (r: ChanParams)
    ensures
        r == with_note_period(p, table, off as int),
{
    let mut p = p;
    let sum: i16 = p.note as i16 + off as i16;
    let raw: u8 = if sum < 0 {
        0
    } else if sum > 95 {
        95
    } else {
        sum as u8
    };
    let f = get_note_freq(table, raw);
    let t: i32 = (p.ton as i32 + p.current_ton_sliding as i32 + f as i32) & 0xFFF;
    p.ton = t as u16;
    p
}

fn exec_glide(p: ChanParams) -> (r: ChanParams)
    requires
        glide_ok(p),
    ensures
        r == glide(p),
{
    let mut p = p;
    if p.ton_slide_count > 0 {
        p.ton_slide_count -= 1;
        if p.ton_slide_count == 0 {
            p.current_ton_sliding += p.ton_slide_step;
            p.ton_slide_count = p.ton_slide_delay;
            if p.ton_slide_type == 1 {
                let step = p.ton_slide_step;
                let delta = p.ton_slide_delta;
                let cur = p.current_ton_sliding;
                if (step < 0 && cur <= delta) || (step >= 0 && cur >= delta) {
                    p.note = p.slide_to_note;
                    p.ton_slide_count = 0;
                    p.current_ton_sliding = 0;
                }
            }
        }
    }
    p
}

fn exec_amp_step(
    p: ChanParams,
    s: Option<&Sample>,
    st: ChannelState,
    ch: usize,
    add_to_env: i8,
    pt3_noise: u8,
    mixer: u8,
) -> (r: (ChanParams, i8, u8, u8))
    requires
        ch < 3,
        s matches Some(smp) ==> smp.length <= 64,
        amp_ok(p, opt_sample(s), st, add_to_env),
    ensures
        r == amp_step(p, opt_sample(s), st, ch as int, add_to_env, pt3_noise, mixer),
{
    let mut p = p;
    let mut add_to_env = add_to_env;
    let mut pt3_noise = pt3_noise;
    let mut mixer = mixer;
    if let Some(smp) = s {
        let sp = p.sample_position as usize;
        if sp < smp.length as usize {
            let tick = smp.items[sp];
            p.amplitude = tick.amplitude;
            if tick.amplitude_sliding {
                if tick.amplitude_slide_up {
                    if p.current_amplitude_sliding < 15 {
                        p.current_amplitude_sliding += 1;
                    }
                } else if p.current_amplitude_sliding > -15 {
                    p.current_amplitude_sliding -= 1;
                }
            }
            let sum: i16 = p.amplitude as i16 + p.current_amplitude_sliding as i16;
            let amp: usize = if sum < 0 {
                0
            } else if sum > 15 {
                15
            } else {
                sum as usize
            };
            let vol = st.volume as usize;
            p.amplitude = PT3_VOL[vol][amp];
            if tick.envelope_enabled && st.envelope_enabled {
                p.amplitude |= 0x10;
            }
            if !tick.mixer_noise {
                let env_add: i8 = p.current_envelope_sliding + tick.add_to_envelope_or_noise;
                if tick.envelope_or_noise_accumulation {
                    p.current_envelope_sliding = env_add;
                }
                add_to_env += env_add;
            } else {
                let noise = (p.current_noise_sliding as i16
                    + tick.add_to_envelope_or_noise as i16) as i8;
                if tick.envelope_or_noise_accumulation {
                    p.current_noise_sliding = noise;
                }
                pt3_noise = noise as u8;
            }
            if !tick.mixer_ton {
                mixer |= 1u8 << (ch as u8);
            }
            if !tick.mixer_noise {
                mixer |= 1u8 << ((ch + 3) as u8);
            }
            let new_sp = sp + 1;
            p.sample_position = if new_sp >= smp.length as usize {
                smp.loop_pos
            } else {
                new_sp as u8
            };
        } else {
            p.amplitude = 0;
        }
    }
    (p, add_to_env, pt3_noise, mixer)
}

fn exec_orn_advance(p: ChanParams, o: Option<&Ornament>) -> (r: ChanParams)
    ensures
        r == orn_advance(p, opt_ornament(o)),
{
    let mut p = p;
    if let Some(orn) = o {
        let op = p.ornament_position as usize + 1;
        p.ornament_position = if op >= orn.length {
            orn.loop_pos as u8
        } else {
            op as u8
        };
    }
    p
}

fn exec_on_off(p: ChanParams) -> (r: ChanParams)
    ensures
        r == on_off(p),
{
    let mut p = p;
    if p.current_on_off > 0 {
        p.current_on_off -= 1;
        if p.current_on_off == 0 {
            p.sound_enabled = !p.sound_enabled;
            p.current_on_off = if p.sound_enabled {
                p.on_off_delay
            } else {
                p.off_on_delay
            };
        }
    }
    p
}

fn exec_env_slide(v: PlayVars) -> (r: PlayVars)
    requires
        env_slide_ok(v),
    ensures
        r == env_slide(v),
{
    let mut v = v;
    if v.cur_env_delay > 0 {
        v.cur_env_delay -= 1;
        if v.cur_env_delay == 0 {
            v.cur_env_delay = v.env_delay;
            v.cur_env_slide += v.env_slide_add;
        }
    }
    v
}

// ─── Row interpretation and the line players ─────────────────────────────────

/// Samples hold at most 64 ticks and ornaments at most 255 steps.
pub open spec fn instruments_ok(m: Module) -> bool {
    &&& forall|i: int| 0 <= i < 32 ==> (#[trigger] m.samples[i] matches Some(s) ==> s.length <= 64)
    &&& forall|i: int| 0 <= i < 16 ==> (#[trigger] m.ornaments[i] matches Some(o) ==> o.length <= 255)
}

/// The register pass over all three channels: the channel state after the
/// tick and the mixer value.
pub open spec fn regs_pass(m: Module, v: PlayVars) -> (PlayVars, u8) {
    let v0 = PlayVars { add_to_env: 0, ..v };
    let (v1, x1) = chan_tick(m, v0, 0, 0);
    let (v2, x2) = chan_tick(m, v1, 1, x1);
    chan_tick(m, v2, 2, x2)
}

/// Whether the register pass stays in range.
pub open spec fn regs_pass_ok(m: Module, v: PlayVars) -> bool {
    let v0 = PlayVars { add_to_env: 0, ..v };
    let (v1, x1) = chan_tick(m, v0, 0, 0);
    let (v2, x2) = chan_tick(m, v1, 1, x1);
    let (v3, x3) = chan_tick(m, v2, 2, x2);
    &&& chan_tick_ok(m, v0, 0)
    &&& chan_tick_ok(m, v1, 1)
    &&& chan_tick_ok(m, v2, 2)
    &&& i16::MIN <= v3.add_to_env + v3.cur_env_slide <= i16::MAX
    &&& i16::MIN <= v3.add_to_env + v3.cur_env_slide + v3.env_base <= i16::MAX
}

/// Rendering the current state into registers (without advancing the row):
/// nothing happens when the slot of the current pattern is empty.
#[verifier::opaque]
pub open spec fn only_line(m: Module, v: PlayVars, regs: AyRegisters) -> (PlayVars, AyRegisters) {
    if cur_pattern(m, v) is None {
        (v, regs)
    } else {
        let (v3, mixer) = regs_pass(m, v);
        (
            v3,
            AyRegisters {
                mixer: mixer,
                ton_a: v3.params_of_chan[0].ton,
                ton_b: v3.params_of_chan[1].ton,
                ton_c: v3.params_of_chan[2].ton,
                amplitude_a: v3.params_of_chan[0].amplitude,
                amplitude_b: v3.params_of_chan[1].amplitude,
                amplitude_c: v3.params_of_chan[2].amplitude,
                noise: (((v3.pt3_noise + v3.add_to_noise) % 256) as u8) & 31u8,
                envelope: (v3.add_to_env + v3.cur_env_slide + v3.env_base) as u16,
                ..regs
            },
        )
    }
}

/// Whether rendering stays in range.
#[verifier::opaque]
pub open spec fn only_line_ok(m: Module, v: PlayVars) -> bool {
    cur_pattern(m, v) is Some ==> regs_pass_ok(m, v)
}

/// A note (or the sound-off) in a cell restarts the channel: sliding,
/// sample and ornament positions and the tone accumulator are cleared.
pub open spec fn note_on(p: ChanParams, note: i8) -> ChanParams {
    if note == -2 || note >= 0 {
        ChanParams {
            sound_enabled: note >= 0,
            note: if note >= 0 {
                note as u8
            } else {
                p.note
            },
            current_envelope_sliding: 0,
            ton_slide_count: 0,
            sample_position: 0,
            ornament_position: 0,
            current_noise_sliding: 0,
            current_amplitude_sliding: 0,
            current_on_off: 0,
            current_ton_sliding: 0,
            ton_accumulator: 0,
            ..p
        }
    } else {
        p
    }
}

/// Effect of the cell's command on the channel (`prev_note` and `prev_ts` are
/// the note and glide the channel had before the cell).
pub open spec fn chan_command(
    p: ChanParams,
    cmd_number: u8,
    cmd_delay: u8,
    cmd_param: u8,
    note: i8,
    prev_note: u8,
    prev_ts: i16,
    table: u8,
) -> ChanParams {
    if cmd_number == 1 {
        ChanParams {
            ton_slide_delay: cmd_delay as i8,
            ton_slide_count: cmd_delay as i8,
            ton_slide_step: cmd_param as i16,
            ton_slide_type: 0,
            current_on_off: 0,
            ..p
        }
    } else if cmd_number == 2 {
        ChanParams {
            ton_slide_delay: cmd_delay as i8,
            ton_slide_count: cmd_delay as i8,
            ton_slide_step: (-(cmd_param as int)) as i16,
            ton_slide_type: 0,
            current_on_off: 0,
            ..p
        }
    } else if cmd_number == 3 {
        if note >= 0 {
            let delta = (note_freq(table, p.note) as i16 - note_freq(table, prev_note) as i16) as i16;
            ChanParams {
                ton_slide_delay: cmd_delay as i8,
                ton_slide_count: cmd_delay as i8,
                ton_slide_step: if delta - prev_ts < 0 {
                    (-(cmd_param as int)) as i16
                } else {
                    cmd_param as i16
                },
                ton_slide_delta: delta,
                slide_to_note: p.note,
                note: prev_note,
                current_ton_sliding: prev_ts,
                ton_slide_type: 1,
                current_on_off: 0,
                ..p
            }
        } else {
            p
        }
    } else if cmd_number == 4 {
        ChanParams { sample_position: cmd_param, ..p }
    } else if cmd_number == 5 {
        ChanParams { ornament_position: cmd_param, ..p }
    } else if cmd_number == 6 {
        ChanParams {
            off_on_delay: (cmd_param % 16) as i8,
            on_off_delay: (cmd_param / 16) as i8,
            current_on_off: (cmd_param / 16) as i8,
            ton_slide_count: 0,
            current_ton_sliding: 0,
            ..p
        }
    } else {
        p
    }
}

/// Effect of the cell's command on the chip-wide variables (envelope slides
/// and speed).
pub open spec fn vars_command(v: PlayVars, cmd_number: u8, cmd_delay: u8, cmd_param: u8) -> PlayVars {
    if cmd_number == 9 {
        PlayVars {
            env_delay: cmd_delay as i8,
            cur_env_delay: cmd_delay as i8,
            env_slide_add: cmd_param as i16,
            ..v
        }
    } else if cmd_number == 10 {
        PlayVars {
            env_delay: cmd_delay as i8,
            cur_env_delay: cmd_delay as i8,
            env_slide_add: (-(cmd_param as int)) as i16,
            ..v
        }
    } else if cmd_number == 11 && cmd_param != 0 {
        PlayVars { delay: cmd_param as i8, ..v }
    } else {
        v
    }
}

/// Interpretation of channel `ch`'s cell in the current row: the channel
/// states, the playback variables and the registers afterwards.  The blank
/// pattern (number -1) drives channel B.
#[verifier::opaque]
pub open spec fn interp(m: Module, v: PlayVars, regs: AyRegisters, ch: int) -> (
    [ChannelState; 3],
    PlayVars,
    AyRegisters,
) {
    match cur_pattern(m, v) {
        None => (m.is_chans, v, regs),
        Some(pat) => {
            let row = pat.items[v.current_line as int];
            let cell = row.channel[ch];
            let ci = if v.current_pattern == -1 {
                1int
            } else {
                ch
            };
            let p = v.params_of_chan[ci];
            let p1 = note_on(p, cell.note);
            let st0 = m.is_chans[ci];
            let st1 = if cell.note >= 0 && cell.sample != 0 {
                ChannelState { sample: cell.sample, ..st0 }
            } else {
                st0
            };
            let env = cell.envelope;
            let st2 = if 0 < env < 15 {
                ChannelState { envelope_enabled: true, ornament: cell.ornament, ..st1 }
            } else if env == 15 {
                ChannelState { envelope_enabled: false, ornament: cell.ornament, ..st1 }
            } else if cell.ornament != 0 {
                ChannelState { ornament: cell.ornament, ..st1 }
            } else {
                st1
            };
            let st3 = if cell.volume > 0 {
                ChannelState { volume: cell.volume, ..st2 }
            } else {
                st2
            };
            let p2 = if 0 < env < 15 || env == 15 || cell.ornament != 0 {
                ChanParams { ornament_position: 0, ..p1 }
            } else {
                p1
            };
            let cmd = cell.additional_command;
            let p3 = chan_command(
                p2,
                cmd.number,
                cmd.delay,
                cmd.parameter,
                cell.note,
                p.note,
                p.current_ton_sliding,
                m.ton_table,
            );
            let v1 = if 0 < env < 15 {
                PlayVars { env_base: row.envelope as i16, cur_env_slide: 0, cur_env_delay: 0, ..v }
            } else {
                v
            };
            let v2 = vars_command(
                PlayVars { params_of_chan: spec_array_update(v1.params_of_chan, ci, p3), ..v1 },
                cmd.number,
                cmd.delay,
                cmd.parameter,
            );
            (
                spec_array_update(m.is_chans, ci, st3),
                v2,
                if 0 < env < 15 {
                    AyRegisters { env_type: env, ..regs }
                } else {
                    regs
                },
            )
        },
    }
}

/// Whether interpreting channel `ch`'s cell stays in range.
#[verifier::opaque]
pub open spec fn interp_ok(m: Module, v: PlayVars, ch: int) -> bool {
    match cur_pattern(m, v) {
        None => true,
        Some(pat) => v.current_line < 256 && {
            let cell = pat.items[v.current_line as int].channel[ch];
            let ci = if v.current_pattern == -1 {
                1int
            } else {
                ch
            };
            let p = v.params_of_chan[ci];
            cell.additional_command.number == 3 && cell.note >= 0 ==> {
                let delta = (note_freq(m.ton_table, cell.note as u8) as i16 - note_freq(
                    m.ton_table,
                    p.note,
                ) as i16) as i16;
                i16::MIN <= delta - p.current_ton_sliding <= i16::MAX
            }
        },
    }
}

/// `m` with the channel states replaced.
pub open spec fn with_chans(m: Module, ic: [ChannelState; 3]) -> Module {
    Module { is_chans: ic, ..m }
}

/// One call of the line player: the module, the variables, the registers
/// and the result afterwards.
pub open spec fn play_line(m: Module, v: PlayVars, regs: AyRegisters) -> (
    Module,
    PlayVars,
    AyRegisters,
    PlayResult,
) {
    if v.current_pattern == -1 {
        let v1 = match m.patterns@[crate::types::MAX_NUM_OF_PATS as int] {
            Some(pat) => PlayVars { add_to_noise: pat.items[v.current_line as int].noise, ..v },
            None => v,
        };
        let (ic, v2, r2) = interp(m, v1, regs, 0);
        let (v3, r3) = only_line(with_chans(m, ic), v2, r2);
        (with_chans(m, ic), v3, r3, PlayResult::Updated)
    } else {
        let v1 = PlayVars { delay_counter: (v.delay_counter - 1) as i8, ..v };
        if v1.delay_counter > 0 {
            let (v2, r2) = only_line(m, v1, regs);
            (m, v2, r2, PlayResult::Updated)
        } else {
            let len = match cur_pattern(m, v1) {
                Some(p) => p.length,
                None => 0,
            };
            if len <= v1.current_line {
                let (v2, r2) = only_line(m, PlayVars { delay_counter: 1, ..v1 }, regs);
                (m, v2, r2, PlayResult::PatternEnd)
            } else {
                let v2 = match cur_pattern(m, v1) {
                    Some(pat) => PlayVars {
                        add_to_noise: pat.items[v1.current_line as int].noise,
                        ..v1
                    },
                    None => v1,
                };
                let (ic0, va, ra) = interp(m, v2, regs, 0);
                let (ic1, vb, rb) = interp(with_chans(m, ic0), va, ra, 1);
                let (ic2, vc, rc) = interp(with_chans(m, ic1), vb, rb, 2);
                let v5 = PlayVars {
                    current_line: (vc.current_line + 1) as usize,
                    delay_counter: vc.delay,
                    ..vc
                };
                let (v6, r6) = only_line(with_chans(m, ic2), v5, rc);
                (with_chans(m, ic2), v6, r6, PlayResult::Updated)
            }
        }
    }
}

/// Whether one call of the line player stays in range (no index past the
/// end of a table, no arithmetic overflow).
pub open spec fn play_line_ok(m: Module, v: PlayVars, regs: AyRegisters) -> bool {
    &&& m.wf()
    &&& instruments_ok(m)
    &&& v.current_pattern <= crate::types::MAX_NUM_OF_PATS
    &&& if v.current_pattern == -1 {
        let v1 = match m.patterns@[crate::types::MAX_NUM_OF_PATS as int] {
            Some(pat) => PlayVars { add_to_noise: pat.items[v.current_line as int].noise, ..v },
            None => v,
        };
        let (ic, v2, r2) = interp(m, v1, regs, 0);
        &&& m.patterns@[crate::types::MAX_NUM_OF_PATS as int] is Some ==> v.current_line < 256
        &&& interp_ok(m, v1, 0)
        &&& only_line_ok(with_chans(m, ic), v2)
    } else {
        let v1 = PlayVars { delay_counter: (v.delay_counter - 1) as i8, ..v };
        &&& v.delay_counter > i8::MIN
        &&& if v1.delay_counter > 0 {
            only_line_ok(m, v1)
        } else {
            let len = match cur_pattern(m, v1) {
                Some(p) => p.length,
                None => 0,
            };
            if len <= v1.current_line {
                only_line_ok(m, PlayVars { delay_counter: 1, ..v1 })
            } else {
                let v2 = match cur_pattern(m, v1) {
                    Some(pat) => PlayVars {
                        add_to_noise: pat.items[v1.current_line as int].noise,
                        ..v1
                    },
                    None => v1,
                };
                let (ic0, va, ra) = interp(m, v2, regs, 0);
                let (ic1, vb, rb) = interp(with_chans(m, ic0), va, ra, 1);
                let (ic2, vc, rc) = interp(with_chans(m, ic1), vb, rb, 2);
                let v5 = PlayVars {
                    current_line: (vc.current_line + 1) as usize,
                    delay_counter: vc.delay,
                    ..vc
                };
                &&& v1.current_line < 256
                &&& interp_ok(m, v2, 0)
                &&& interp_ok(with_chans(m, ic0), va, 1)
                &&& interp_ok(with_chans(m, ic1), vb, 2)
                &&& only_line_ok(with_chans(m, ic2), v5)
            }
        }
    }
}

/// A channel's register step changes only the channel, the envelope and
/// noise offsets and the envelope slide.
pub proof fn lemma_chan_tick_frame(m: Module, v: PlayVars, ch: int, mixer: u8)
    ensures
        ({
            let w = chan_tick(m, v, ch, mixer).0;
            &&& w.current_pattern == v.current_pattern
            &&& w.current_line == v.current_line
            &&& w.current_position == v.current_position
            &&& w.delay == v.delay
            &&& w.delay_counter == v.delay_counter
            &&& w.env_base == v.env_base
            &&& w.add_to_noise == v.add_to_noise
        }),
{
    reveal(chan_tick);
}

/// Interpreting a cell keeps the position in the song, the module's
/// patterns and the speed counter.
pub proof fn lemma_interp_frame(m: Module, v: PlayVars, regs: AyRegisters, ch: int)
    ensures
        ({
            let (ic, w, r) = interp(m, v, regs, ch);
            &&& w.current_pattern == v.current_pattern
            &&& w.current_line == v.current_line
            &&& w.current_position == v.current_position
            &&& w.delay_counter == v.delay_counter
        }),
{
    reveal(interp);
}

/// Interpreting a cell whose command is not 11 (speed) keeps the speed.
proof fn lemma_interp_keeps_delay(m: Module, v: PlayVars, regs: AyRegisters, ch: int)
    requires
        cur_pattern(m, v) matches Some(pat) ==> pat.items[v.current_line as int].channel[ch].additional_command.number
            != 11,
    ensures
        interp(m, v, regs, ch).1.delay == v.delay,
{
    reveal(interp);
}

/// Rendering keeps the position in the song and the speed.
proof fn lemma_only_line_frame(m: Module, v: PlayVars, regs: AyRegisters)
    ensures
        ({
            let w = only_line(m, v, regs).0;
            &&& w.current_pattern == v.current_pattern
            &&& w.current_line == v.current_line
            &&& w.delay == v.delay
            &&& w.delay_counter == v.delay_counter
        }),
{
    reveal(only_line);
    let v0 = PlayVars { add_to_env: 0, ..v };
    lemma_chan_tick_frame(m, v0, 0, 0);
    let (v1, x1) = chan_tick(m, v0, 0, 0);
    lemma_chan_tick_frame(m, v1, 1, x1);
    let (v2, x2) = chan_tick(m, v1, 1, x1);
    lemma_chan_tick_frame(m, v2, 2, x2);
}

/// The module, variables and registers after `n` calls of the line player.
pub open spec fn play_lines(m: Module, v: PlayVars, regs: AyRegisters, n: nat) -> (Module, PlayVars, AyRegisters)
    decreases n,
{
    if n == 0 {
        (m, v, regs)
    } else {
        let (m1, v1, r1) = play_lines(m, v, regs, (n - 1) as nat);
        let (m2, v2, r2, res) = play_line(m1, v1, r1);
        (m2, v2, r2)
    }
}

/// The row reached and the speed counter after `n` calls, at speed `d`, of
/// a pattern of `len` rows started on its first row.
pub open spec fn rows_reached(n: nat, d: int, len: int) -> (int, int) {
    if n == 0 {
        (0, 1)
    } else if n <= len * d {
        ((n - 1) / d + 1, d - (n - 1) % d)
    } else {
        (len, 1)
    }
}

/// No row of `p` changes the speed (command 11).
pub open spec fn keeps_speed(p: Pattern) -> bool {
    forall|r: int, ch: int|
        0 <= r < p.length && 0 <= ch < 3 ==> (#[trigger] p.items[r].channel[ch]).additional_command.number != 11
}

#[verifier::spinoff_prover]
proof fn lemma_rows_step(n: nat, d: int, len: int)
    requires
        1 <= d <= 127,
        1 <= len <= 256,
    ensures
        ({
            let (line, dc) = rows_reached(n, d, len);
            let (line2, dc2) = rows_reached(n + 1, d, len);
            &&& 0 <= line <= len
            &&& 1 <= dc <= d
            &&& dc - 1 > 0 ==> line2 == line && dc2 == dc - 1
            &&& dc - 1 <= 0 && len <= line ==> line2 == line && dc2 == 1
            &&& dc - 1 <= 0 && line < len ==> line2 == line + 1 && dc2 == d
        }),
{
    if n == 0 {
        assert(1 <= len * d) by (nonlinear_arith)
            requires
                1 <= len,
                1 <= d,
        ;
        assert(0int / d == 0 && 0int % d == 0) by (nonlinear_arith)
            requires
                d >= 1,
        ;
    } else if n <= len * d {
        let q = (n - 1) / d;
        let r = (n - 1) % d;
        assert(n - 1 == q * d + r && 0 <= r < d && 0 <= q) by (nonlinear_arith)
            requires
                d >= 1,
                n >= 1,
                q == (n - 1) / d,
                r == (n - 1) % d,
        ;
        assert(q + 1 <= len) by (nonlinear_arith)
            requires
                n - 1 == q * d + r,
                0 <= r,
                n <= len * d,
                d >= 1,
        ;
        if r < d - 1 {
            assert((n as int) / d == q && (n as int) % d == r + 1) by (nonlinear_arith)
                requires
                    n == q * d + r + 1,
                    0 <= r,
                    r + 1 < d,
            ;
            assert((q + 1) * d <= len * d) by (nonlinear_arith)
                requires
                    q + 1 <= len,
                    d >= 1,
            ;
            assert(n + 1 <= (q + 1) * d) by (nonlinear_arith)
                requires
                    n == q * d + r + 1,
                    r + 1 < d,
            ;
        } else {
            assert(n == (q + 1) * d) by (nonlinear_arith)
                requires
                    n - 1 == q * d + r,
                    r == d - 1,
            ;
            if q + 1 >= len {
                assert(n + 1 > len * d) by (nonlinear_arith)
                    requires
                        n == (q + 1) * d,
                        q + 1 >= len,
                        d >= 1,
                ;
            } else {
                assert((n as int) / d == q + 1 && (n as int) % d == 0) by (nonlinear_arith)
                    requires
                        n == (q + 1) * d,
                        d >= 1,
                ;
                assert(n + 1 <= len * d) by (nonlinear_arith)
                    requires
                        n == (q + 1) * d,
                        q + 2 <= len,
                        d >= 1,
                ;
            }
        }
    }
}

/// Playing a pattern (not the blank one) of `len` rows, none of which
/// changes the speed, from its first row with the speed counter at 1 (as
/// after starting a position) at speed `d`: the calls of the line player
/// interpret one row on every `d`-th call, so after `n` calls the row
/// reached is `min(ceil(n / d), len)`.
#[verifier::spinoff_prover]
pub proof fn lemma_one_row_per_speed_ticks(m: Module, v: PlayVars, regs: AyRegisters, n: nat)
    requires
        v.current_pattern >= 0,
        cur_pattern(m, v) matches Some(p) && 1 <= p.length <= 256 && keeps_speed(p),
        1 <= v.delay,
        v.delay_counter == 1,
        v.current_line == 0,
    ensures
        ({
            let (mn, vn, rn) = play_lines(m, v, regs, n);
            &&& vn.current_line == rows_reached(n, v.delay as int, cur_pattern(m, v)->Some_0.length as int).0
            &&& vn.delay_counter == rows_reached(n, v.delay as int, cur_pattern(m, v)->Some_0.length as int).1
            &&& vn.current_pattern == v.current_pattern
            &&& vn.delay == v.delay
            &&& mn.patterns == m.patterns
        }),
    decreases n,
{
    let p = cur_pattern(m, v)->Some_0;
    let d = v.delay as int;
    let len = p.length as int;
    if n > 0 {
        lemma_one_row_per_speed_ticks(m, v, regs, (n - 1) as nat);
        lemma_rows_step((n - 1) as nat, d, len);
        let (m1, v1, r1) = play_lines(m, v, regs, (n - 1) as nat);
        assert(cur_pattern(m1, v1) == cur_pattern(m, v));
        let w1 = PlayVars { delay_counter: (v1.delay_counter - 1) as i8, ..v1 };
        assert(cur_pattern(m1, w1) == cur_pattern(m, v));
        if w1.delay_counter > 0 {
            lemma_only_line_frame(m1, w1, r1);
        } else if len <= w1.current_line {
            lemma_only_line_frame(m1, PlayVars { delay_counter: 1, ..w1 }, r1);
        } else {
            let v2 = PlayVars { add_to_noise: p.items[w1.current_line as int].noise, ..w1 };
            assert(cur_pattern(m1, v2) == cur_pattern(m, v));
            let line = w1.current_line as int;
            assert(p.items[line].channel[0].additional_command.number != 11);
            assert(p.items[line].channel[1].additional_command.number != 11);
            assert(p.items[line].channel[2].additional_command.number != 11);
            lemma_interp_frame(m1, v2, r1, 0);
            lemma_interp_keeps_delay(m1, v2, r1, 0);
            let (ic0, va, ra) = interp(m1, v2, r1, 0);
            assert(cur_pattern(with_chans(m1, ic0), va) == cur_pattern(m, v));
            lemma_interp_frame(with_chans(m1, ic0), va, ra, 1);
            lemma_interp_keeps_delay(with_chans(m1, ic0), va, ra, 1);
            let (ic1, vb, rb) = interp(with_chans(m1, ic0), va, ra, 1);
            assert(cur_pattern(with_chans(m1, ic1), vb) == cur_pattern(m, v));
            lemma_interp_frame(with_chans(m1, ic1), vb, rb, 2);
            lemma_interp_keeps_delay(with_chans(m1, ic1), vb, rb, 2);
            let (ic2, vc, rc) = interp(with_chans(m1, ic1), vb, rb, 2);
            let v5 = PlayVars { current_line: (vc.current_line + 1) as usize, delay_counter: vc.delay, ..vc };
            lemma_only_line_frame(with_chans(m1, ic2), v5, rc);
        }
    }
}

/// The channel commands' effects, stated by what each does to the glide,
/// the sample and ornament positions and the on/off times:
/// - 1 (glide up) steps the tone period by `+param`, 2 (glide down) by
///   `-param`, every `delay` ticks, with no target;
/// - 3 (portamento) with a note slides from the channel's previous note to
///   the new one: the distance is the new note's period minus the previous
///   note's (in 16 bits), the note played meanwhile is the previous one, and
///   the step of size `param` points from the glide reached so far toward
///   that distance, so the period moves toward the target's;
/// - 4 and 5 set the sample and ornament positions to `param`;
/// - 6 sets the on time to the high and the off time to the low nibble of
///   `param`, starting with the on time.
pub proof fn lemma_chan_command_effects(
    p: ChanParams,
    cmd_delay: u8,
    cmd_param: u8,
    note: i8,
    prev_note: u8,
    prev_ts: i16,
    table: u8,
)
    ensures
        ({
            let r = chan_command(p, 1, cmd_delay, cmd_param, note, prev_note, prev_ts, table);
            &&& r.ton_slide_step as int == cmd_param as int
            &&& r.ton_slide_delay == cmd_delay as i8 && r.ton_slide_count == cmd_delay as i8
            &&& r.ton_slide_type == 0
        }),
        ({
            let r = chan_command(p, 2, cmd_delay, cmd_param, note, prev_note, prev_ts, table);
            &&& r.ton_slide_step as int == -(cmd_param as int)
            &&& r.ton_slide_delay == cmd_delay as i8 && r.ton_slide_count == cmd_delay as i8
            &&& r.ton_slide_type == 0
        }),
        note >= 0 ==> ({
            let r = chan_command(p, 3, cmd_delay, cmd_param, note, prev_note, prev_ts, table);
            let target = note_freq(table, p.note) as int;
            let from = note_freq(table, prev_note) as int;
            &&& r.ton_slide_delta == (target - from) as i16
            &&& r.slide_to_note == p.note
            &&& r.note == prev_note
            &&& r.current_ton_sliding == prev_ts
            &&& r.ton_slide_type == 1
            &&& r.ton_slide_delay == cmd_delay as i8 && r.ton_slide_count == cmd_delay as i8
            &&& ((target - from) as i16 - prev_ts < 0 ==> r.ton_slide_step as int == -(cmd_param as int))
            &&& ((target - from) as i16 - prev_ts >= 0 ==> r.ton_slide_step as int == cmd_param as int)
        }),
        note < 0 ==> chan_command(p, 3, cmd_delay, cmd_param, note, prev_note, prev_ts, table) == p,
        chan_command(p, 4, cmd_delay, cmd_param, note, prev_note, prev_ts, table).sample_position == cmd_param,
        chan_command(p, 5, cmd_delay, cmd_param, note, prev_note, prev_ts, table).ornament_position == cmd_param,
        ({
            let r = chan_command(p, 6, cmd_delay, cmd_param, note, prev_note, prev_ts, table);
            &&& r.on_off_delay as int == cmd_param as int / 16
            &&& r.off_on_delay as int == cmd_param as int % 16
            &&& r.current_on_off == r.on_off_delay
        }),
{
    let target = note_freq(table, p.note);
    let from = note_freq(table, prev_note);
    assert((target as i16 - from as i16) as i16 == (target as int - from as int) as i16) by (bit_vector);
}

/// The chip-wide commands' effects: 9 slides the envelope period up by
/// `param` and 10 down by `param`, every `delay` ticks; 11 sets the speed to
/// `param` (0 leaves it); the others change nothing.
pub proof fn lemma_vars_command_effects(v: PlayVars, cmd_number: u8, cmd_delay: u8, cmd_param: u8)
    ensures
        cmd_number == 9 ==> ({
            let w = vars_command(v, cmd_number, cmd_delay, cmd_param);
            &&& w.env_slide_add as int == cmd_param as int
            &&& w.env_delay == cmd_delay as i8 && w.cur_env_delay == cmd_delay as i8
            &&& w.delay == v.delay
        }),
        cmd_number == 10 ==> ({
            let w = vars_command(v, cmd_number, cmd_delay, cmd_param);
            &&& w.env_slide_add as int == -(cmd_param as int)
            &&& w.env_delay == cmd_delay as i8 && w.cur_env_delay == cmd_delay as i8
            &&& w.delay == v.delay
        }),
        cmd_number == 11 ==> vars_command(v, cmd_number, cmd_delay, cmd_param) == if cmd_param != 0 {
            PlayVars { delay: cmd_param as i8, ..v }
        } else {
            v
        },
        cmd_number != 9 && cmd_number != 10 && cmd_number != 11 ==> vars_command(v, cmd_number, cmd_delay, cmd_param)
            == v,
{
}

/// The amplitude slide of a tick moves the slide one step: up when the tick
/// slides up (to at most +15), down when it slides down (to at least -15),
/// not at all when it does not slide.
pub proof fn lemma_amp_slide_direction(cas: i8, tick: SampleTick)
    ensures
        tick.amplitude_sliding && tick.amplitude_slide_up ==> amp_slide(cas, tick) as int == if cas < 15 {
            cas + 1
        } else {
            cas as int
        },
        tick.amplitude_sliding && !tick.amplitude_slide_up ==> amp_slide(cas, tick) as int == if cas > -15 {
            cas - 1
        } else {
            cas as int
        },
        !tick.amplitude_sliding ==> amp_slide(cas, tick) == cas,
{
}

/// The note period of a channel: its sample's tone, its glide and the
/// period of its note moved by the ornament (kept within the 96 notes),
/// modulo 4096 (the tone registers' 12 bits).
pub proof fn lemma_note_period(p: ChanParams, table: u8, off: int)
    ensures
        with_note_period(p, table, off).ton as int == (p.ton as int + p.current_ton_sliding as int + note_freq(
            table,
            clamp(p.note + off, 0, 95) as u8,
        ) as int) % 4096,
        with_note_period(p, table, off) == (ChanParams { ton: with_note_period(p, table, off).ton, ..p }),
{
    let x = (p.ton + p.current_ton_sliding + note_freq(table, clamp(p.note + off, 0, 95) as u8)) as i32;
    assert(-32768 <= p.ton + p.current_ton_sliding + note_freq(table, clamp(p.note + off, 0, 95) as u8) <= 65535 + 32767 + 65535);
    assert((x & 0xFFFi32) as int == (x as int) % 4096) by (bit_vector);
}

/// The on/off effect counts down; when the count runs out the channel
/// switches, and the next count is the time of the state it switched to:
/// the on time when it turns on, the off time when it turns off.
pub proof fn lemma_on_off_switches(p: ChanParams)
    ensures
        p.current_on_off == 1 ==> ({
            let q = on_off(p);
            &&& q.sound_enabled == !p.sound_enabled
            &&& q.current_on_off == if q.sound_enabled { p.on_off_delay } else { p.off_on_delay }
        }),
        p.current_on_off > 1 ==> on_off(p) == (ChanParams { current_on_off: (p.current_on_off - 1) as i8, ..p }),
        p.current_on_off <= 0 ==> on_off(p) == p,
{
}

/// A targeted glide (portamento) that reaches or passes its distance on a
/// step stops there: the channel plays the target note with no glide left.
/// Otherwise every `delay` ticks the glide grows by one step.
pub proof fn lemma_glide_stops_at_target(p: ChanParams)
    requires
        p.ton_slide_count == 1,
    ensures
        ({
            let s = p.current_ton_sliding as int + p.ton_slide_step as int;
            let q = glide(p);
            &&& i16::MIN <= s <= i16::MAX ==> (p.ton_slide_type == 1 && ((p.ton_slide_step < 0 && s
                <= p.ton_slide_delta) || (p.ton_slide_step >= 0 && s >= p.ton_slide_delta)) ==> q.note
                == p.slide_to_note && q.current_ton_sliding == 0 && q.ton_slide_count == 0)
            &&& i16::MIN <= s <= i16::MAX ==> (!(p.ton_slide_type == 1 && ((p.ton_slide_step < 0 && s
                <= p.ton_slide_delta) || (p.ton_slide_step >= 0 && s >= p.ton_slide_delta))) ==> q.note
                == p.note && q.current_ton_sliding as int == s && q.ton_slide_count == p.ton_slide_delay)
        }),
{
}

/// The mixer after a channel's sample tick: the channel's tone bit (bit
/// `ch`) is set when the tick turns the tone off, its noise bit (bit
/// `ch + 3`) when it turns the noise off; other bits are kept.
pub proof fn lemma_amp_step_mixer(
    p: ChanParams,
    smp: Sample,
    st: ChannelState,
    ch: int,
    add_to_env: i8,
    pt3_noise: u8,
    mixer: u8,
)
    requires
        0 <= ch < 3,
        (p.sample_position as int) < smp.length as int,
    ensures
        ({
            let tick = smp.items[p.sample_position as int];
            let mx = amp_step(p, Some(smp), st, ch, add_to_env, pt3_noise, mixer).3;
            forall|k: u8|
                k < 8 ==> ((#[trigger] (mx >> k)) & 1u8 == 1u8) == ((mixer >> k) & 1u8 == 1u8 || (k == ch
                    && !tick.mixer_ton) || (k == ch + 3 && !tick.mixer_noise))
        }),
{
    let tick = smp.items[p.sample_position as int];
    let c = ch as u8;
    let tn = !tick.mixer_ton;
    let nn = !tick.mixer_noise;
    assert((ch + 3) as u8 == (c + 3) as u8);
    let a = if tn { mixer | (1u8 << c) } else { mixer };
    let b = if nn { a | (1u8 << (c + 3)) } else { a };
    assert(forall|k: u8|
        c < 3 && k < 8 && a == (if tn { mixer | (1u8 << c) } else { mixer }) && b == (if nn { a | (1u8 << (c + 3)) } else { a })
            ==> ((#[trigger] (b >> k)) & 1u8 == 1u8) == (((mixer >> k) & 1u8 == 1u8) || (k == c && tn) || (k == c + 3
            && nn))) by (bit_vector);
}

// ─── The engine ──────────────────────────────────────────────────────────────

fn exec_chan_tick(m: &Module, v: PlayVars, ch: usize, mixer: u8) -> (r: (PlayVars, u8))
    requires
        ch < 3,
        instruments_ok(*m),
        chan_tick_ok(*m, v, ch as int),
    ensures
        r == chan_tick(*m, v, ch as int, mixer),
{
    proof {
        reveal(chan_tick);
        reveal(chan_tick_ok);
    }
    let st = m.is_chans[ch];
    let mut v = v;
    let p = v.params_of_chan[ch];
    if !p.sound_enabled {
        let mut q = p;
        q.amplitude = 0;
        v.params_of_chan[ch] = q;
        return (v, mixer);
    }
    let s = sample_ref(m, st.sample);
    let o = ornament_ref(m, st.ornament);
    let p1 = exec_tone_from_sample(p, s);
    let off = exec_orn_offset(p1, o);
    let p2 = exec_with_note_period(p1, m.ton_table, off);
    let p3 = exec_glide(p2);
    let (p4, ae, pn, mx) = exec_amp_step(p3, s, st, ch, v.add_to_env, v.pt3_noise, mixer);
    let p5 = exec_orn_advance(p4, o);
    let p6 = exec_on_off(p5);
    v.params_of_chan[ch] = p6;
    v.add_to_env = ae;
    v.pt3_noise = pn;
    let v7 = exec_env_slide(v);
    (v7, mx)
}

fn exec_note_on(p: ChanParams, note: i8) -> (r: ChanParams)
    ensures
        r == note_on(p, note),
{
    let mut p = p;
    if note == -2 || note >= 0 {
        p.sound_enabled = note >= 0;
        if note >= 0 {
            p.note = note as u8;
        }
        p.current_envelope_sliding = 0;
        p.ton_slide_count = 0;
        p.sample_position = 0;
        p.ornament_position = 0;
        p.current_noise_sliding = 0;
        p.current_amplitude_sliding = 0;
        p.current_on_off = 0;
        p.current_ton_sliding = 0;
        p.ton_accumulator = 0;
    }
    p
}

fn exec_chan_command(
    p: ChanParams,
    cmd_number: u8,
    cmd_delay: u8,
    cmd_param: u8,
    note: i8,
    prev_note: u8,
    prev_ts: i16,
    table: u8,
) -> (r: ChanParams)
    requires
        cmd_number == 3 && note >= 0 ==> i16::MIN <= (note_freq(table, p.note) as i16 - note_freq(
            table,
            prev_note,
        ) as i16) as i16 - prev_ts <= i16::MAX,
    ensures
        r == chan_command(p, cmd_number, cmd_delay, cmd_param, note, prev_note, prev_ts, table),
{
    let mut p = p;
    if cmd_number == 1 {
        let gls = cmd_delay as i8;
        p.ton_slide_delay = gls;
        p.ton_slide_count = gls;
        p.ton_slide_step = cmd_param as i16;
        p.ton_slide_type = 0;
        p.current_on_off = 0;
    } else if cmd_number == 2 {
        let gls = cmd_delay as i8;
        p.ton_slide_delay = gls;
        p.ton_slide_count = gls;
        p.ton_slide_step = -(cmd_param as i16);
        p.ton_slide_type = 0;
        p.current_on_off = 0;
    } else if cmd_number == 3 {
        if note >= 0 {
            p.ton_slide_delay = cmd_delay as i8;
            p.ton_slide_count = p.ton_slide_delay;
            p.ton_slide_step = cmd_param as i16;
            let target_freq = get_note_freq(table, p.note) as i16;
            let from_freq = get_note_freq(table, prev_note) as i16;
            p.ton_slide_delta = (target_freq as i32 - from_freq as i32) as i16;
            p.slide_to_note = p.note;
            p.note = prev_note;
            p.current_ton_sliding = prev_ts;
            if p.ton_slide_delta - p.current_ton_sliding < 0 {
                p.ton_slide_step = -p.ton_slide_step;
            }
            p.ton_slide_type = 1;
            p.current_on_off = 0;
        }
    } else if cmd_number == 4 {
        p.sample_position = cmd_param;
    } else if cmd_number == 5 {
        p.ornament_position = cmd_param;
    } else if cmd_number == 6 {
        let lo: u8 = cmd_param & 0x0F;
        let hi: u8 = cmd_param >> 4;
        assert(lo == cmd_param % 16 && hi == cmd_param / 16) by (bit_vector)
            requires
                lo == cmd_param & 0x0F,
                hi == cmd_param >> 4u8,
        ;
        p.off_on_delay = lo as i8;
        p.on_off_delay = hi as i8;
        p.current_on_off = p.on_off_delay;
        p.ton_slide_count = 0;
        p.current_ton_sliding = 0;
    }
    p
}

fn exec_vars_command(v: PlayVars, cmd_number: u8, cmd_delay: u8, cmd_param: u8) -> (r: PlayVars)
    ensures
        r == vars_command(v, cmd_number, cmd_delay, cmd_param),
{
    let mut v = v;
    if cmd_number == 9 {
        v.env_delay = cmd_delay as i8;
        v.cur_env_delay = v.env_delay;
        v.env_slide_add = cmd_param as i16;
    } else if cmd_number == 10 {
        v.env_delay = cmd_delay as i8;
        v.cur_env_delay = v.env_delay;
        v.env_slide_add = -(cmd_param as i16);
    } else if cmd_number == 11 {
        if cmd_param != 0 {
            v.delay = cmd_param as i8;
        }
    }
    v
}

fn pattern_ref<'a>(m: &'a Module, v: &PlayVars) -> (r: Option<&'a Pattern>)
    requires
        m.wf(),
        v.current_pattern <= crate::types::MAX_NUM_OF_PATS,
    ensures
        match r {
            Some(p) => cur_pattern(*m, *v) == Some(*p),
            None => cur_pattern(*m, *v) is None,
        },
{
    match &m.patterns[Module::pat_idx(v.current_pattern)] {
        Some(b) => Some(&**b),
        None => None,
    }
}

impl<'a> Engine<'a> {
    /// Render the current state into `ay_regs` without advancing the row:
    /// tone periods, amplitudes, mixer, noise and envelope period.  Nothing
    /// happens when the slot of the current pattern is empty.
    pub fn pattern_play_only_current_line(&mut self, ay_regs: &mut AyRegisters)
        requires
            old(self).module.wf(),
            instruments_ok(*old(self).module),
            old(self).vars.current_pattern <= crate::types::MAX_NUM_OF_PATS,
            only_line_ok(*old(self).module, *old(self).vars),
        ensures
            *final(self).module == *old(self).module,
            (*final(self).vars, *final(ay_regs)) == only_line(
                *old(self).module,
                *old(self).vars,
                *old(ay_regs),
            ),
    {
        proof {
            reveal(only_line);
            reveal(only_line_ok);
        }
        let pat_idx = Module::pat_idx(self.vars.current_pattern);
        if self.module.patterns[pat_idx].is_none() {
            return;
        }
        let mut temp_mixer: u8 = 0;
        self.vars.add_to_env = 0;
        proof {
            let v0 = *self.vars;
            lemma_chan_tick_frame(*self.module, v0, 0, 0);
            let (v1, x1) = chan_tick(*self.module, v0, 0, 0);
            lemma_chan_tick_frame(*self.module, v1, 1, x1);
        }
        self.get_channel_registers(0, &mut temp_mixer, ay_regs);
        self.get_channel_registers(1, &mut temp_mixer, ay_regs);
        self.get_channel_registers(2, &mut temp_mixer, ay_regs);
        ay_regs.mixer = temp_mixer;
        ay_regs.ton_a = self.vars.params_of_chan[0].ton;
        ay_regs.ton_b = self.vars.params_of_chan[1].ton;
        ay_regs.ton_c = self.vars.params_of_chan[2].ton;
        ay_regs.amplitude_a = self.vars.params_of_chan[0].amplitude;
        ay_regs.amplitude_b = self.vars.params_of_chan[1].amplitude;
        ay_regs.amplitude_c = self.vars.params_of_chan[2].amplitude;
        let n: u8 = ((self.vars.pt3_noise as u16 + self.vars.add_to_noise as u16) % 256) as u8;
        ay_regs.noise = n & 31;
        let e: i16 = self.vars.add_to_env as i16 + self.vars.cur_env_slide + self.vars.env_base;
        ay_regs.envelope = #[verifier::truncate] (e as u16);
    }

    /// One channel's register step (channel state, tone, amplitude, mixer bits).
    fn get_channel_registers(&mut self, ch: usize, temp_mixer: &mut u8, _ay_regs: &mut AyRegisters)
        requires
            ch < 3,
            old(self).module.wf(),
            instruments_ok(*old(self).module),
            old(self).vars.current_pattern <= crate::types::MAX_NUM_OF_PATS,
            cur_pattern(*old(self).module, *old(self).vars) is Some ==> chan_tick_ok(
                *old(self).module,
                *old(self).vars,
                ch as int,
            ),
        ensures
            *final(self).module == *old(self).module,
            *final(_ay_regs) == *old(_ay_regs),
            cur_pattern(*old(self).module, *old(self).vars) is None ==> *final(self).vars
                == *old(self).vars && *final(temp_mixer) == *old(temp_mixer),
            cur_pattern(*old(self).module, *old(self).vars) is Some ==> (
            *final(self).vars,
            *final(temp_mixer),
            ) == chan_tick(*old(self).module, *old(self).vars, ch as int, *old(temp_mixer)),
    {
        let pat_idx = Module::pat_idx(self.vars.current_pattern);
        if self.module.patterns[pat_idx].is_none() {
            return;
        }
        let (v, mx) = exec_chan_tick(self.module, *self.vars, ch, *temp_mixer);
        *self.vars = v;
        *temp_mixer = mx;
    }

    /// Interpret channel `ch`'s cell of the current row: note, sample,
    /// ornament, envelope, volume and effect command.
    fn pattern_interpreter(&mut self, ch: usize, ay_regs: &mut AyRegisters)
        requires
            ch < 3,
            old(self).module.wf(),
            old(self).vars.current_pattern <= crate::types::MAX_NUM_OF_PATS,
            interp_ok(*old(self).module, *old(self).vars, ch as int),
        ensures
            ({
                let (ic, v, r) = interp(*old(self).module, *old(self).vars, *old(ay_regs), ch as int);
                &&& *final(self).module == with_chans(*old(self).module, ic)
                &&& *final(self).vars == v
                &&& *final(ay_regs) == r
            }),
    {
        proof {
            reveal(interp);
            reveal(interp_ok);
        }
        let (cell, row_envelope) = match pattern_ref(self.module, self.vars) {
            Some(pat) => {
                let row = pat.items[self.vars.current_line];
                (row.channel[ch], row.envelope)
            },
            None => {
                return ;
            },
        };
        let ci: usize = if self.vars.current_pattern == -1 {
            1
        } else {
            ch
        };
        let p = self.vars.params_of_chan[ci];
        let p1 = exec_note_on(p, cell.note);
        let mut st = self.module.is_chans[ci];
        if cell.note >= 0 && cell.sample != 0 {
            st.sample = cell.sample;
        }
        let env = cell.envelope;
        let mut p2 = p1;
        let mut v = *self.vars;
        if env > 0 && env < 15 {
            st.envelope_enabled = true;
            v.env_base = row_envelope as i16;
            ay_regs.env_type = env;
            st.ornament = cell.ornament;
            p2.ornament_position = 0;
            v.cur_env_slide = 0;
            v.cur_env_delay = 0;
        } else if env == 15 {
            st.envelope_enabled = false;
            st.ornament = cell.ornament;
            p2.ornament_position = 0;
        } else if cell.ornament != 0 {
            st.ornament = cell.ornament;
            p2.ornament_position = 0;
        }
        if cell.volume > 0 {
            st.volume = cell.volume;
        }
        let cmd = cell.additional_command;
        let p3 = exec_chan_command(
            p2,
            cmd.number,
            cmd.delay,
            cmd.parameter,
            cell.note,
            p.note,
            p.current_ton_sliding,
            self.module.ton_table,
        );
        v.params_of_chan[ci] = p3;
        let v2 = exec_vars_command(v, cmd.number, cmd.delay, cmd.parameter);
        self.module.is_chans[ci] = st;
        *self.vars = v2;
    }
}

/// One tick of module playback: the line player, then (when the pattern
/// has ended) the move to the next position, looping at the end of the song.
pub open spec fn module_line(m: Module, v: PlayVars, regs: AyRegisters) -> (
    Module,
    PlayVars,
    AyRegisters,
    PlayResult,
) {
    if m.positions.length == 0 {
        (m, v, regs, PlayResult::ModuleLoop)
    } else {
        let (m1, v1, r1, res) = play_line(m, v, regs);
        if res == PlayResult::PatternEnd {
            let pos = v1.current_position + 1;
            if pos >= m.positions.length {
                let lp = m.positions.loop_pos;
                let v2 = PlayVars {
                    current_position: lp,
                    current_pattern: m.positions.value[lp as int] as i32,
                    current_line: 0,
                    ..v1
                };
                let (m3, v3, r3, _r) = play_line(m1, v2, r1);
                (m3, v3, r3, PlayResult::ModuleLoop)
            } else {
                let v2 = PlayVars {
                    current_position: pos as usize,
                    current_pattern: m.positions.value[pos] as i32,
                    current_line: 0,
                    ..v1
                };
                let (m3, v3, r3, _r) = play_line(m1, v2, r1);
                (m3, v3, r3, PlayResult::Updated)
            }
        } else {
            (m1, v1, r1, PlayResult::Updated)
        }
    }
}

/// Whether one tick of module playback stays in range.
pub open spec fn module_line_ok(m: Module, v: PlayVars, regs: AyRegisters) -> bool {
    m.positions.length != 0 ==> {
        let (m1, v1, r1, res) = play_line(m, v, regs);
        &&& play_line_ok(m, v, regs)
        &&& res == PlayResult::PatternEnd ==> {
            let pos = v1.current_position + 1;
            &&& pos <= usize::MAX
            &&& if pos >= m.positions.length {
                let lp = m.positions.loop_pos;
                &&& lp < 256
                &&& play_line_ok(
                    m1,
                    PlayVars {
                        current_position: lp,
                        current_pattern: m.positions.value[lp as int] as i32,
                        current_line: 0,
                        ..v1
                    },
                    r1,
                )
            } else {
                &&& pos < 256
                &&& play_line_ok(
                    m1,
                    PlayVars {
                        current_position: pos as usize,
                        current_pattern: m.positions.value[pos] as i32,
                        current_line: 0,
                        ..v1
                    },
                    r1,
                )
            }
        }
    }
}

impl<'a> Engine<'a> {
    /// Play one tick of the current pattern: when the speed counter runs out
    /// the current row is interpreted and the line pointer advances; the
    /// state is then rendered into `ay_regs`.  Returns `PatternEnd` (and
    /// renders without interpreting) when the pattern has no more rows.  The
    /// blank pattern (number -1) interprets its row on every tick.
    pub fn pattern_play_current_line(&mut self, ay_regs: &mut AyRegisters) -> (r: PlayResult)
        requires
            play_line_ok(*old(self).module, *old(self).vars, *old(ay_regs)),
        ensures
            (*final(self).module, *final(self).vars, *final(ay_regs), r) == play_line(
                *old(self).module,
                *old(self).vars,
                *old(ay_regs),
            ),
    {
        if self.vars.current_pattern == -1 {
            let pat_idx = Module::pat_idx(-1);
            if let Some(pat) = &self.module.patterns[pat_idx] {
                self.vars.add_to_noise = pat.items[self.vars.current_line].noise;
            }
            proof {
                lemma_interp_frame(*self.module, *self.vars, *ay_regs, 0);
            }
            self.pattern_interpreter(0, ay_regs);
            self.pattern_play_only_current_line(ay_regs);
            return PlayResult::Updated;
        }
        self.vars.delay_counter -= 1;
        if self.vars.delay_counter > 0 {
            self.pattern_play_only_current_line(ay_regs);
            return PlayResult::Updated;
        }
        let pat_idx = Module::pat_idx(self.vars.current_pattern);
        let pat_len = match &self.module.patterns[pat_idx] {
            Some(p) => p.length,
            None => 0,
        };
        if pat_len <= self.vars.current_line {
            self.vars.delay_counter = 1;
            self.pattern_play_only_current_line(ay_regs);
            return PlayResult::PatternEnd;
        }
        if let Some(pat) = &self.module.patterns[pat_idx] {
            self.vars.add_to_noise = pat.items[self.vars.current_line].noise;
        }
        proof {
            let m0 = *self.module;
            let v0 = *self.vars;
            lemma_interp_frame(m0, v0, *ay_regs, 0);
            let (ic0, va, ra) = interp(m0, v0, *ay_regs, 0);
            lemma_interp_frame(with_chans(m0, ic0), va, ra, 1);
            let (ic1, vb, rb) = interp(with_chans(m0, ic0), va, ra, 1);
            lemma_interp_frame(with_chans(m0, ic1), vb, rb, 2);
        }
        self.pattern_interpreter(0, ay_regs);
        self.pattern_interpreter(1, ay_regs);
        self.pattern_interpreter(2, ay_regs);
        self.vars.current_line += 1;
        self.vars.delay_counter = self.vars.delay;
        self.pattern_play_only_current_line(ay_regs);
        PlayResult::Updated
    }

    /// Play one tick of the module: the pattern line player, then, when the
    /// pattern has ended, the next position's pattern (from its first row).
    /// Past the last position playback continues at the loop position and
    /// `ModuleLoop` is returned; a module without positions only returns
    /// `ModuleLoop`.
    pub fn module_play_current_line(&mut self, ay_regs: &mut AyRegisters) -> (r: PlayResult)
        requires
            module_line_ok(*old(self).module, *old(self).vars, *old(ay_regs)),
        ensures
            (*final(self).module, *final(self).vars, *final(ay_regs), r) == module_line(
                *old(self).module,
                *old(self).vars,
                *old(ay_regs),
            ),
    {
        if self.module.positions.length == 0 {
            return PlayResult::ModuleLoop;
        }
        let result = self.pattern_play_current_line(ay_regs);
        if result == PlayResult::PatternEnd {
            self.vars.current_position += 1;
            if self.vars.current_position >= self.module.positions.length {
                self.vars.current_position = self.module.positions.loop_pos;
                self.vars.current_pattern = #[verifier::truncate] (self.module.positions.value[self.vars.current_position] as i32);
                self.vars.current_line = 0;
                self.pattern_play_current_line(ay_regs);
                return PlayResult::ModuleLoop;
            }
            self.vars.current_pattern = #[verifier::truncate] (self.module.positions.value[self.vars.current_position] as i32);
            self.vars.current_line = 0;
            self.pattern_play_current_line(ay_regs);
        }
        PlayResult::Updated
    }
}

/// Reset the playback variables of one chip slot: speed counter due, noise
/// and envelope base cleared, every channel cleared and the line pointer at
/// the first row.  With `all`, the channel states are reset too (sample 1,
/// no envelope, ornament 0, full volume).
pub fn init_tracker_parameters(module: &mut Module, vars: &mut PlayVars, all: bool)
    ensures
        *final(vars) == (PlayVars {
            delay_counter: 1,
            pt3_noise: 0,
            env_base: 0,
            int_cnt: 0,
            params_of_chan: [chan_params_zero(), chan_params_zero(), chan_params_zero()],
            current_line: 0,
            ..*old(vars)
        }),
        !all ==> *final(module) == *old(module),
        all ==> *final(module) == with_chans(
            *old(module),
            [
                ChannelState {
                    sample: 1,
                    envelope_enabled: false,
                    ornament: 0,
                    volume: 15,
                    ..old(module).is_chans[0]
                },
                ChannelState {
                    sample: 1,
                    envelope_enabled: false,
                    ornament: 0,
                    volume: 15,
                    ..old(module).is_chans[1]
                },
                ChannelState {
                    sample: 1,
                    envelope_enabled: false,
                    ornament: 0,
                    volume: 15,
                    ..old(module).is_chans[2]
                },
            ],
        ),
{
    vars.delay_counter = 1;
    vars.pt3_noise = 0;
    vars.env_base = 0;
    vars.int_cnt = 0;
    if all {
        let mut ic = module.is_chans;
        let mut ch: usize = 0;
        while ch < 3
            invariant
                ch <= 3,
                forall|c: int|
                    0 <= c < ch ==> #[trigger] ic[c] == (ChannelState {
                        sample: 1,
                        envelope_enabled: false,
                        ornament: 0,
                        volume: 15,
                        ..old(module).is_chans[c]
                    }),
                forall|c: int| ch <= c < 3 ==> #[trigger] ic[c] == old(module).is_chans[c],
            decreases 3 - ch,
        {
            let mut st = ic[ch];
            st.sample = 1;
            st.envelope_enabled = false;
            st.ornament = 0;
            st.volume = 15;
            ic[ch] = st;
            ch = ch + 1;
        }
        module.is_chans = ic;
        assert(module.is_chans =~= [
            ChannelState { sample: 1, envelope_enabled: false, ornament: 0, volume: 15, ..old(module).is_chans[0] },
            ChannelState { sample: 1, envelope_enabled: false, ornament: 0, volume: 15, ..old(module).is_chans[1] },
            ChannelState { sample: 1, envelope_enabled: false, ornament: 0, volume: 15, ..old(module).is_chans[2] },
        ]);
    }
    let z = ChanParams::default();
    vars.params_of_chan = [z, z, z];
    vars.current_line = 0;
}

} // verus!
