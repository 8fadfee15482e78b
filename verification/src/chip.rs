//! AY-3-8910 / YM2149F chip state and per-clock emulation logic.
use crate::types::{zero_registers, AyRegisters};
use vstd::prelude::*;

verus! {

/// AY amplitude levels (Hacker KAY measurements).
pub const AMPLITUDES_AY: [u16; 16] = [
    0, 836, 1212, 1773, 2619, 3875, 5397, 8823, 10392, 16706, 23339, 29292, 36969, 46421, 55195,
    65535,
];

/// YM amplitude levels (Hacker KAY measurements).
pub const AMPLITUDES_YM: [u16; 32] = [
    0, 0, 0xF8, 0x1C2, 0x29E, 0x33A, 0x3F2, 0x4D7, 0x610, 0x77F, 0x90A, 0xA42, 0xC3B, 0xEC2,
    0x1137, 0x13A7, 0x1750, 0x1BF9, 0x20DF, 0x2596, 0x2C9D, 0x3579, 0x3E55, 0x4768, 0x54FF,
    0x6624, 0x773B, 0x883F, 0xA1DA, 0xC0FC, 0xE094, 0xFFFF,
];

/// Which chip is emulated.
#[derive(Debug, Clone, Copy, PartialEq, Eq, Structural)]
pub enum ChipType {
    NoChip,
    AY,
    YM,
}

impl Default for ChipType {
    fn default() -> (r: Self)
        ensures
            r == ChipType::NoChip,
    {
        ChipType::NoChip
    }
}

/// Which envelope shape is active.
#[derive(Debug, Clone, Copy, PartialEq, Eq, Structural)]
pub enum EnvShape {
    /// Types 0–3 and 9: decay, then hold low.
    Hold0,
    /// Types 4–7 and 15: attack, then hold low.
    Hold31,
    /// Type 8: sawtooth down (continuous decrement mod 32).
    Saw8,
    /// Type 10: triangle (down-up-down…).
    Triangle10,
    /// Type 11: decay, then hold high.
    DecayHold,
    /// Type 12: sawtooth up (continuous increment mod 32).
    Saw12,
    /// Type 13: attack, then hold high.
    AttackHold,
    /// Type 14: triangle (up-down-up…).
    Triangle14,
}

impl Default for EnvShape {
    fn default() -> (r: Self)
        ensures
            r == EnvShape::Hold0,
    {
        EnvShape::Hold0
    }
}

/// The envelope shape selected by an envelope-type register value.
pub open spec fn shape_of(v: u8) -> EnvShape {
    if v <= 3 || v == 9 {
        EnvShape::Hold0
    } else if (4 <= v && v <= 7) || v == 15 {
        EnvShape::Hold31
    } else if v == 8 {
        EnvShape::Saw8
    } else if v == 10 {
        EnvShape::Triangle10
    } else if v == 11 {
        EnvShape::DecayHold
    } else if v == 12 {
        EnvShape::Saw12
    } else if v == 13 {
        EnvShape::AttackHold
    } else if v == 14 {
        EnvShape::Triangle14
    } else {
        EnvShape::Hold0
    }
}

impl EnvShape {
    /// Shape selected by the envelope-type register value `v`
    /// (values above 15 select `Hold0`).
    pub fn from_register(v: u8) -> (r: Self)
        ensures
            r == shape_of(v),
    {
        match v {
            0..=3 | 9 => EnvShape::Hold0,
            4..=7 | 15 => EnvShape::Hold31,
            8 => EnvShape::Saw8,
            10 => EnvShape::Triangle10,
            11 => EnvShape::DecayHold,
            12 => EnvShape::Saw12,
            13 => EnvShape::AttackHold,
            14 => EnvShape::Triangle14,
            _ => EnvShape::Hold0,
        }
    }
}

/// One step of the 17-bit noise shift register: shift left, set bit 0, and
/// flip it by the feedback of bits 16 and 13.
pub open spec fn spec_noise(seed: u32) -> u32 {
    (((seed << 1u32) & 0x1FFFFu32) | 1u32) ^ (((seed >> 16u32) ^ (seed >> 13u32)) & 1u32)
}

/// 17-bit noise shift register step.
pub fn noise_generator(seed: u32) -> (r: u32)
    ensures
        r == spec_noise(seed),
        r < 0x20000,
{
    let bit = ((seed >> 16) ^ (seed >> 13)) & 1;
    let s = ((seed << 1) & 0x1_FFFF) | 1;
    let r = s ^ bit;
    assert(r < 0x20000) by (bit_vector)
        requires
            r == (((seed << 1u32) & 0x1FFFFu32) | 1u32) ^ (((seed >> 16u32) ^ (seed >> 13u32))
                & 1u32),
    ;
    r
}

/// Next value of a tone or noise counter's high half: it counts modulo 2^16.
pub open spec fn counter_hi_next(counter: u32) -> int {
    (counter as int / 65536 + 1) % 65536
}

/// Whether a tone generator with this counter and period flips its output on this clock.
pub open spec fn tone_flips(counter: u32, period: u16) -> bool {
    counter_hi_next(counter) >= period
}

/// Tone counter after one clock: it wraps by the period when it reaches it.
pub open spec fn tone_counter_next(counter: u32, period: u16) -> u32 {
    if tone_flips(counter, period) {
        ((counter_hi_next(counter) - period) * 65536) as u32
    } else {
        (counter_hi_next(counter) * 65536) as u32
    }
}

/// Whether the noise generator shifts on this clock (every second count of its
/// half-speed counter, once the count reaches twice the noise period).
pub open spec fn noise_shifts(counter: u32, period: u8) -> bool {
    counter_hi_next(counter) % 2 == 0 && counter_hi_next(counter) >= period as int * 2
}

/// Envelope counter's high word after one clock, modulo 2^32.
pub open spec fn env_hi_next(counter: u64) -> int {
    (counter as int / 0x1_0000_0000 + 1) % 0x1_0000_0000
}

/// Envelope counter after one clock.
pub open spec fn env_counter_next(counter: u64, period: u16) -> u64 {
    if env_hi_next(counter) >= period {
        0
    } else {
        (env_hi_next(counter) * 0x1_0000_0000) as u64
    }
}

/// Envelope state `(first_period, level)` after one envelope step.
pub open spec fn env_next(shape: EnvShape, first: bool, a: i32) -> (bool, i32) {
    match shape {
        EnvShape::Hold0 => if first {
            if a - 1 == 0 {
                (false, 0i32)
            } else {
                (true, (a - 1) as i32)
            }
        } else {
            (first, a)
        },
        EnvShape::Hold31 => if first {
            if a + 1 == 32 {
                (false, 0i32)
            } else {
                (true, (a + 1) as i32)
            }
        } else {
            (first, a)
        },
        EnvShape::Saw8 => (first, ((a - 1) as i32) & 31i32),
        EnvShape::Triangle10 => if first {
            if a - 1 < 0 {
                (false, 0i32)
            } else {
                (true, (a - 1) as i32)
            }
        } else {
            if a + 1 == 32 {
                (true, 31i32)
            } else {
                (false, (a + 1) as i32)
            }
        },
        EnvShape::DecayHold => if first {
            if a - 1 < 0 {
                (false, 31i32)
            } else {
                (true, (a - 1) as i32)
            }
        } else {
            (first, a)
        },
        EnvShape::Saw12 => (first, ((a + 1) as i32) & 31i32),
        EnvShape::AttackHold => if first {
            if a + 1 == 32 {
                (false, 31i32)
            } else {
                (true, (a + 1) as i32)
            }
        } else {
            (first, a)
        },
        EnvShape::Triangle14 => if !first {
            if a - 1 < 0 {
                (true, 0i32)
            } else {
                (false, (a - 1) as i32)
            }
        } else {
            if a + 1 == 32 {
                (false, 31i32)
            } else {
                (true, (a + 1) as i32)
            }
        },
    }
}

/// The envelope states that the chip can reach: a level in -1..=32 that the
/// active shape moves towards its end point.
pub open spec fn env_ok(shape: EnvShape, first: bool, a: i32) -> bool {
    &&& -1 <= a <= 32
    &&& match shape {
        EnvShape::Hold0 => first ==> a >= 1,
        EnvShape::Hold31 => first ==> a <= 31,
        EnvShape::Triangle10 => !first ==> a <= 31,
        EnvShape::AttackHold => first ==> a <= 31,
        EnvShape::Triangle14 => first ==> a <= 31,
        _ => true,
    }
}

/// Full emulation state for one AY/YM chip instance.
#[derive(Debug, Clone, Copy)]
pub struct SoundChip {
    pub registers: AyRegisters,
    pub first_period: bool,
    /// Current envelope level (-1..=32; the mixer clamps it to 0..=31).
    pub envelope_step: i32,
    pub ton_counter_a: u32,
    pub ton_counter_b: u32,
    pub ton_counter_c: u32,
    pub noise_counter: u32,
    pub envelope_counter: u64,
    /// Current tone square-wave output (0 or 1).
    pub ton_a: i32,
    pub ton_b: i32,
    pub ton_c: i32,
    pub noise_seed: u32,
    pub noise_val: u32,
    pub ton_en_a: bool,
    pub ton_en_b: bool,
    pub ton_en_c: bool,
    pub noise_en_a: bool,
    pub noise_en_b: bool,
    pub noise_en_c: bool,
    pub envelope_en_a: bool,
    pub envelope_en_b: bool,
    pub envelope_en_c: bool,
    pub env_shape: EnvShape,
    pub left_chan: i32,
    pub right_chan: i32,
    pub tick_counter: u8,
    pub tik: u32,
    pub delay_in_tiks: u32,
    pub current_tik: u32,
    pub number_of_tiks: u64,
    pub int_flag: bool,
    pub ay_tiks_in_interrupt: u32,
    pub sample_tiks_in_interrupt: u32,
}

/// Chip state after one envelope step.
pub open spec fn after_env_step(c: SoundChip) -> SoundChip {
    let (f, a) = env_next(c.env_shape, c.first_period, c.envelope_step);
    SoundChip { first_period: f, envelope_step: a, ..c }
}

/// Chip state after one clock of the tone, noise and envelope generators.
pub open spec fn after_clock(c: SoundChip) -> SoundChip {
    let shifts = noise_shifts(c.noise_counter, c.registers.noise);
    let seed = if shifts {
        spec_noise(c.noise_seed)
    } else {
        c.noise_seed
    };
    let e = if c.envelope_counter / 0x1_0000_0000 == 0 {
        after_env_step(c)
    } else {
        c
    };
    SoundChip {
        ton_counter_a: tone_counter_next(c.ton_counter_a, c.registers.ton_a),
        ton_a: if tone_flips(c.ton_counter_a, c.registers.ton_a) {
            c.ton_a ^ 1
        } else {
            c.ton_a
        },
        ton_counter_b: tone_counter_next(c.ton_counter_b, c.registers.ton_b),
        ton_b: if tone_flips(c.ton_counter_b, c.registers.ton_b) {
            c.ton_b ^ 1
        } else {
            c.ton_b
        },
        ton_counter_c: tone_counter_next(c.ton_counter_c, c.registers.ton_c),
        ton_c: if tone_flips(c.ton_counter_c, c.registers.ton_c) {
            c.ton_c ^ 1
        } else {
            c.ton_c
        },
        noise_counter: if shifts {
            0
        } else {
            (counter_hi_next(c.noise_counter) * 65536) as u32
        },
        noise_seed: seed,
        noise_val: if shifts {
            (seed >> 16u32) & 1
        } else {
            c.noise_val
        },
        first_period: e.first_period,
        envelope_step: e.envelope_step,
        envelope_counter: env_counter_next(c.envelope_counter, c.registers.envelope),
        ..c
    }
}

/// The power-on state of a chip.
pub open spec fn chip_default() -> SoundChip {
    SoundChip {
        registers: zero_registers(),
        first_period: false,
        envelope_step: 0,
        ton_counter_a: 0,
        ton_counter_b: 0,
        ton_counter_c: 0,
        noise_counter: 0,
        envelope_counter: 0,
        ton_a: 0,
        ton_b: 0,
        ton_c: 0,
        noise_seed: 0xFFFF,
        noise_val: 0,
        ton_en_a: false,
        ton_en_b: false,
        ton_en_c: false,
        noise_en_a: false,
        noise_en_b: false,
        noise_en_c: false,
        envelope_en_a: false,
        envelope_en_b: false,
        envelope_en_c: false,
        env_shape: EnvShape::Hold0,
        left_chan: 0,
        right_chan: 0,
        tick_counter: 0,
        tik: 0,
        delay_in_tiks: 0,
        current_tik: 0,
        number_of_tiks: 0,
        int_flag: false,
        ay_tiks_in_interrupt: 0,
        sample_tiks_in_interrupt: 0,
    }
}

/// The state `reset` leaves: everything cleared, all tone and noise channels
/// enabled in the mixer, the timing configuration kept.
pub open spec fn chip_after_reset(c: SoundChip) -> SoundChip {
    SoundChip {
        registers: zero_registers(),
        first_period: false,
        envelope_step: 0,
        ton_counter_a: 0,
        ton_counter_b: 0,
        ton_counter_c: 0,
        noise_counter: 0,
        envelope_counter: 0,
        ton_a: 0,
        ton_b: 0,
        ton_c: 0,
        noise_seed: 0xFFFF,
        noise_val: 0,
        ton_en_a: true,
        ton_en_b: true,
        ton_en_c: true,
        noise_en_a: true,
        noise_en_b: true,
        noise_en_c: true,
        envelope_en_a: false,
        envelope_en_b: false,
        envelope_en_c: false,
        env_shape: EnvShape::Hold0,
        left_chan: 0,
        right_chan: 0,
        tick_counter: 0,
        tik: c.delay_in_tiks,
        current_tik: 0,
        number_of_tiks: 0,
        int_flag: false,
        ..c
    }
}

/// Level-table index a channel plays at: the envelope level when the channel
/// follows the envelope, else the fixed amplitude mapped onto 32 steps.
pub open spec fn level_index(env_on: bool, ampl_reg: u8, envelope_step: i32) -> int {
    if env_on {
        if envelope_step < 0 {
            0
        } else if envelope_step > 31 {
            31
        } else {
            envelope_step as int
        }
    } else {
        let v = ampl_reg as int * 2 + 1;
        if v < 31 {
            v
        } else {
            31
        }
    }
}

/// Whether a channel's output is high: its tone (when enabled) and the noise
/// (when enabled) must both be high.
pub open spec fn channel_on(ton_en: bool, ton: i32, noise_en: bool, noise_val: u32) -> bool {
    let k = if ton_en {
        ton
    } else {
        1i32
    };
    let k2 = if noise_en {
        k & (noise_val as i32)
    } else {
        k
    };
    k2 != 0
}

/// What one channel adds to a mix with the given level table.
pub open spec fn channel_level(
    on: bool,
    env_on: bool,
    ampl_reg: u8,
    envelope_step: i32,
    table: [i32; 32],
) -> int {
    if on {
        table[level_index(env_on, ampl_reg, envelope_step)] as int
    } else {
        0
    }
}

impl SoundChip {
    /// What channel A adds to a mix with the table `t`.
    pub open spec fn level_a(&self, t: [i32; 32]) -> int {
        channel_level(
            channel_on(self.ton_en_a, self.ton_a, self.noise_en_a, self.noise_val),
            self.envelope_en_a,
            self.registers.amplitude_a,
            self.envelope_step,
            t,
        )
    }

    /// What channel B adds to a mix with the table `t`.
    pub open spec fn level_b(&self, t: [i32; 32]) -> int {
        channel_level(
            channel_on(self.ton_en_b, self.ton_b, self.noise_en_b, self.noise_val),
            self.envelope_en_b,
            self.registers.amplitude_b,
            self.envelope_step,
            t,
        )
    }

    /// What channel C adds to a mix with the table `t`.
    pub open spec fn level_c(&self, t: [i32; 32]) -> int {
        channel_level(
            channel_on(self.ton_en_c, self.ton_c, self.noise_en_c, self.noise_val),
            self.envelope_en_c,
            self.registers.amplitude_c,
            self.envelope_step,
            t,
        )
    }
}

impl Default for SoundChip {
    fn default() -> (r: Self)
        ensures
            r == chip_default(),
    {
        SoundChip {
            registers: AyRegisters::default(),
            first_period: false,
            envelope_step: 0,
            ton_counter_a: 0,
            ton_counter_b: 0,
            ton_counter_c: 0,
            noise_counter: 0,
            envelope_counter: 0,
            ton_a: 0,
            ton_b: 0,
            ton_c: 0,
            noise_seed: 0xFFFF,
            noise_val: 0,
            ton_en_a: false,
            ton_en_b: false,
            ton_en_c: false,
            noise_en_a: false,
            noise_en_b: false,
            noise_en_c: false,
            envelope_en_a: false,
            envelope_en_b: false,
            envelope_en_c: false,
            env_shape: EnvShape::Hold0,
            left_chan: 0,
            right_chan: 0,
            tick_counter: 0,
            tik: 0,
            delay_in_tiks: 0,
            current_tik: 0,
            number_of_tiks: 0,
            int_flag: false,
            ay_tiks_in_interrupt: 0,
            sample_tiks_in_interrupt: 0,
        }
    }
}

/// Advance a tone counter by one clock; returns the new counter and whether
/// the output flips.
fn tone_clock(counter: u32, period: u16) -> (r: (u32, bool))
    ensures
        r.0 == tone_counter_next(counter, period),
        r.1 == tone_flips(counter, period),
{
    let hi0: u32 = counter >> 16;
    assert(hi0 == counter / 65536) by (bit_vector)
        requires
            hi0 == counter >> 16u32,
    ;
    let x: u32 = hi0 + 1;
    let hi: u32 = if x == 65536 {
        0
    } else {
        x
    };
    if hi >= period as u32 {
        let d: u32 = hi - period as u32;
        let r: u32 = d << 16;
        assert(r == d * 65536) by (bit_vector)
            requires
                r == d << 16u32,
                d < 65536,
        ;
        (r, true)
    } else {
        let r: u32 = hi << 16;
        assert(r == hi * 65536) by (bit_vector)
            requires
                r == hi << 16u32,
                hi < 65536,
        ;
        (r, false)
    }
}

/// One envelope step on `(first_period, level)` for the given shape.
fn env_step(shape: EnvShape, f: bool, a: i32) -> (r: (bool, i32))
    requires
        i32::MIN < a < i32::MAX,
    ensures
        r == env_next(shape, f, a),
{
    match shape {
        EnvShape::Hold0 => if f {
            if a - 1 == 0 {
                (false, 0)
            } else {
                (true, a - 1)
            }
        } else {
            (f, a)
        },
        EnvShape::Hold31 => if f {
            if a + 1 == 32 {
                (false, 0)
            } else {
                (true, a + 1)
            }
        } else {
            (f, a)
        },
        EnvShape::Saw8 => (f, (a - 1) & 31),
        EnvShape::Triangle10 => if f {
            if a - 1 < 0 {
                (false, 0)
            } else {
                (true, a - 1)
            }
        } else {
            if a + 1 == 32 {
                (true, 31)
            } else {
                (false, a + 1)
            }
        },
        EnvShape::DecayHold => if f {
            if a - 1 < 0 {
                (false, 31)
            } else {
                (true, a - 1)
            }
        } else {
            (f, a)
        },
        EnvShape::Saw12 => (f, (a + 1) & 31),
        EnvShape::AttackHold => if f {
            if a + 1 == 32 {
                (false, 31)
            } else {
                (true, a + 1)
            }
        } else {
            (f, a)
        },
        EnvShape::Triangle14 => if !f {
            if a - 1 < 0 {
                (true, 0)
            } else {
                (false, a - 1)
            }
        } else {
            if a + 1 == 32 {
                (false, 31)
            } else {
                (true, a + 1)
            }
        },
    }
}

/// Advance the noise counter by one clock; returns the new counter, seed
/// and output bit.
fn noise_clock(counter: u32, period: u8, seed: u32, val: u32) -> (r: (u32, u32, u32))
    ensures
        noise_shifts(counter, period) ==> r == (0u32, spec_noise(seed), (spec_noise(seed) >> 16u32) & 1),
        !noise_shifts(counter, period) ==> r == ((counter_hi_next(counter) * 65536) as u32, seed,
            val),
{
    let n0: u32 = counter >> 16;
    assert(n0 == counter / 65536) by (bit_vector)
        requires
            n0 == counter >> 16u32,
    ;
    let nx: u32 = n0 + 1;
    let hi_n: u32 = if nx == 65536 {
        0
    } else {
        nx
    };
    if hi_n % 2 == 0 && hi_n >= (period as u32) * 2 {
        let s = noise_generator(seed);
        (0, s, (s >> 16) & 1)
    } else {
        let r: u32 = hi_n << 16;
        assert(r == hi_n * 65536) by (bit_vector)
            requires
                r == hi_n << 16u32,
                hi_n < 65536,
        ;
        (r, seed, val)
    }
}

/// Advance the envelope counter by one clock.
fn env_counter_clock(counter: u64, period: u16) -> (r: u64)
    ensures
        r == env_counter_next(counter, period),
{
    let e0: u64 = counter >> 32;
    assert(e0 == counter / 0x1_0000_0000) by (bit_vector)
        requires
            e0 == counter >> 32u64,
    ;
    let ex: u64 = e0 + 1;
    let env_hi: u64 = if ex == 0x1_0000_0000 {
        0
    } else {
        ex
    };
    if env_hi >= period as u64 {
        0
    } else {
        let r: u64 = env_hi << 32;
        assert(r == env_hi * 0x1_0000_0000) by (bit_vector)
            requires
                r == env_hi << 32u64,
                env_hi < 0x1_0000_0000,
        ;
        r
    }
}

impl SoundChip {
    /// Reset all chip state: registers cleared, all tone and noise channels
    /// enabled, envelope held low; the timing configuration is kept.
    pub fn reset(&mut self)
        ensures
            *final(self) == chip_after_reset(*old(self)),
    {
        proof {
            assert(0u8 & 4u8 == 0u8) by (bit_vector);
            assert(0u8 & 1u8 == 0u8 && 0u8 & 2u8 == 0u8 && 0u8 & 8u8 == 0u8 && 0u8 & 0x10u8
                == 0u8 && 0u8 & 0x20u8 == 0u8) by (bit_vector);
        }
        self.registers = AyRegisters::default();
        self.set_envelope_register(0);
        self.first_period = false;
        self.envelope_step = 0;
        self.set_mixer_register(0);
        self.set_ampl_a(0);
        self.set_ampl_b(0);
        self.set_ampl_c(0);
        self.int_flag = false;
        self.number_of_tiks = 0;
        self.current_tik = 0;
        self.envelope_counter = 0;
        self.ton_counter_a = 0;
        self.ton_counter_b = 0;
        self.ton_counter_c = 0;
        self.noise_counter = 0;
        self.ton_a = 0;
        self.ton_b = 0;
        self.ton_c = 0;
        self.left_chan = 0;
        self.right_chan = 0;
        self.tick_counter = 0;
        self.tik = self.delay_in_tiks;
        self.noise_seed = 0xFFFF;
        self.noise_val = 0;
    }

    /// Write the mixer register: a clear bit enables a channel (bits 0–2 tone
    /// A/B/C, bits 3–5 noise A/B/C).
    pub fn set_mixer_register(&mut self, value: u8)
        ensures
            *final(self) == (SoundChip {
                registers: AyRegisters { mixer: value, ..old(self).registers },
                ton_en_a: value & 0x01 == 0,
                noise_en_a: value & 0x08 == 0,
                ton_en_b: value & 0x02 == 0,
                noise_en_b: value & 0x10 == 0,
                ton_en_c: value & 0x04 == 0,
                noise_en_c: value & 0x20 == 0,
                ..*old(self)
            }),
    {
        self.registers.mixer = value;
        self.ton_en_a = (value & 0x01) == 0;
        self.noise_en_a = (value & 0x08) == 0;
        self.ton_en_b = (value & 0x02) == 0;
        self.noise_en_b = (value & 0x10) == 0;
        self.ton_en_c = (value & 0x04) == 0;
        self.noise_en_c = (value & 0x20) == 0;
    }

    /// Write the envelope-shape register: restarts the envelope at the top
    /// (level 32) when bit 2 is clear, at the bottom (-1) when it is set.
    pub fn set_envelope_register(&mut self, value: u8)
        ensures
            *final(self) == (SoundChip {
                envelope_counter: 0,
                first_period: true,
                envelope_step: if value & 4 == 0 {
                    32i32
                } else {
                    -1i32
                },
                registers: AyRegisters { env_type: value, ..old(self).registers },
                env_shape: shape_of(value),
                ..*old(self)
            }),
    {
        self.envelope_counter = 0;
        self.first_period = true;
        self.envelope_step = if (value & 4) == 0 {
            32
        } else {
            -1
        };
        self.registers.env_type = value;
        self.env_shape = EnvShape::from_register(value);
    }

    /// Write channel A's amplitude register (bit 4 selects the envelope).
    pub fn set_ampl_a(&mut self, value: u8)
        ensures
            *final(self) == (SoundChip {
                registers: AyRegisters { amplitude_a: value, ..old(self).registers },
                envelope_en_a: value & 0x10 != 0,
                ..*old(self)
            }),
    {
        self.registers.amplitude_a = value;
        self.envelope_en_a = (value & 0x10) != 0;
    }

    /// Write channel B's amplitude register (bit 4 selects the envelope).
    pub fn set_ampl_b(&mut self, value: u8)
        ensures
            *final(self) == (SoundChip {
                registers: AyRegisters { amplitude_b: value, ..old(self).registers },
                envelope_en_b: value & 0x10 != 0,
                ..*old(self)
            }),
    {
        self.registers.amplitude_b = value;
        self.envelope_en_b = (value & 0x10) != 0;
    }

    /// Write channel C's amplitude register (bit 4 selects the envelope).
    pub fn set_ampl_c(&mut self, value: u8)
        ensures
            *final(self) == (SoundChip {
                registers: AyRegisters { amplitude_c: value, ..old(self).registers },
                envelope_en_c: value & 0x10 != 0,
                ..*old(self)
            }),
    {
        self.registers.amplitude_c = value;
        self.envelope_en_c = (value & 0x10) != 0;
    }

    /// Advance the envelope level by one step according to the active shape.
    pub fn step_envelope(&mut self)
        requires
            i32::MIN < old(self).envelope_step < i32::MAX,
        ensures
            *final(self) == after_env_step(*old(self)),
    {
        let (nf, na) = env_step(self.env_shape, self.first_period, self.envelope_step);
        self.first_period = nf;
        self.envelope_step = na;
    }

    /// Advance the tone, noise and envelope generators by one chip clock.
    #[verifier::rlimit(80)]
    pub fn synthesizer_logic_q(&mut self)
        requires
            i32::MIN < old(self).envelope_step < i32::MAX,
        ensures
            *final(self) == after_clock(*old(self)),
    {
        let (ca, fa) = tone_clock(self.ton_counter_a, self.registers.ton_a);
        let (cb, fb) = tone_clock(self.ton_counter_b, self.registers.ton_b);
        let (cc, fc) = tone_clock(self.ton_counter_c, self.registers.ton_c);
        let (nc, ns, nv) = noise_clock(
            self.noise_counter,
            self.registers.noise,
            self.noise_seed,
            self.noise_val,
        );
        let ec: u64 = self.envelope_counter;
        let e0: u64 = ec >> 32;
        assert(e0 == ec / 0x1_0000_0000) by (bit_vector)
            requires
                e0 == ec >> 32u64,
        ;
        let (f, a) = if e0 == 0 {
            env_step(self.env_shape, self.first_period, self.envelope_step)
        } else {
            (self.first_period, self.envelope_step)
        };
        let ta = if fa {
            self.ton_a ^ 1
        } else {
            self.ton_a
        };
        let tb = if fb {
            self.ton_b ^ 1
        } else {
            self.ton_b
        };
        let tc = if fc {
            self.ton_c ^ 1
        } else {
            self.ton_c
        };
        let ne = env_counter_clock(ec, self.registers.envelope);
        *self = SoundChip {
            ton_counter_a: ca,
            ton_a: ta,
            ton_counter_b: cb,
            ton_b: tb,
            ton_counter_c: cc,
            ton_c: tc,
            noise_counter: nc,
            noise_seed: ns,
            noise_val: nv,
            first_period: f,
            envelope_step: a,
            envelope_counter: ne,
            ..*self
        };
    }

    /// Add this chip's stereo contribution for the current clock to
    /// `lev_l` / `lev_r`, using the per-channel level tables.
    pub fn synthesizer_mixer_q(
        &self,
        level_al: &[i32; 32],
        level_ar: &[i32; 32],
        level_bl: &[i32; 32],
        level_br: &[i32; 32],
        level_cl: &[i32; 32],
        level_cr: &[i32; 32],
        lev_l: &mut i32,
        lev_r: &mut i32,
    )
        requires
            i32::MIN <= *old(lev_l) + self.level_a(*level_al) <= i32::MAX,
            i32::MIN <= *old(lev_l) + self.level_a(*level_al) + self.level_b(*level_bl)
                <= i32::MAX,
            i32::MIN <= *old(lev_l) + self.level_a(*level_al) + self.level_b(*level_bl)
                + self.level_c(*level_cl) <= i32::MAX,
            i32::MIN <= *old(lev_r) + self.level_a(*level_ar) <= i32::MAX,
            i32::MIN <= *old(lev_r) + self.level_a(*level_ar) + self.level_b(*level_br)
                <= i32::MAX,
            i32::MIN <= *old(lev_r) + self.level_a(*level_ar) + self.level_b(*level_br)
                + self.level_c(*level_cr) <= i32::MAX,
        ensures
            *final(lev_l) == *old(lev_l) + self.level_a(*level_al) + self.level_b(*level_bl)
                + self.level_c(*level_cl),
            *final(lev_r) == *old(lev_r) + self.level_a(*level_ar) + self.level_b(*level_br)
                + self.level_c(*level_cr),
    {
        let ampl: usize = if self.envelope_step < 0 {
            0
        } else if self.envelope_step > 31 {
            31
        } else {
            self.envelope_step as usize
        };
        // Channel A
        let mut k: i32 = 1;
        if self.ton_en_a {
            k = self.ton_a;
        }
        if self.noise_en_a {
            k &= self.noise_val as i32;
        }
        if k != 0 {
            let idx: usize = if self.envelope_en_a {
                ampl
            } else {
                let v: usize = self.registers.amplitude_a as usize * 2 + 1;
                if v < 31 {
                    v
                } else {
                    31
                }
            };
            *lev_l += level_al[idx];
            *lev_r += level_ar[idx];
        }
        // Channel B
        let mut k: i32 = 1;
        if self.ton_en_b {
            k = self.ton_b;
        }
        if self.noise_en_b {
            k &= self.noise_val as i32;
        }
        if k != 0 {
            let idx: usize = if self.envelope_en_b {
                ampl
            } else {
                let v: usize = self.registers.amplitude_b as usize * 2 + 1;
                if v < 31 {
                    v
                } else {
                    31
                }
            };
            *lev_l += level_bl[idx];
            *lev_r += level_br[idx];
        }
        // Channel C
        let mut k: i32 = 1;
        if self.ton_en_c {
            k = self.ton_c;
        }
        if self.noise_en_c {
            k &= self.noise_val as i32;
        }
        if k != 0 {
            let idx: usize = if self.envelope_en_c {
                ampl
            } else {
                let v: usize = self.registers.amplitude_c as usize * 2 + 1;
                if v < 31 {
                    v
                } else {
                    31
                }
            };
            *lev_l += level_cl[idx];
            *lev_r += level_cr[idx];
        }
    }
}

/// The reachable envelope states are closed under envelope steps, so a chip
/// whose envelope was set by `set_envelope_register` with a 4-bit shape never
/// leaves -1..=32 (and never overflows).
pub proof fn lemma_env_step_stays_in_range(shape: EnvShape, first: bool, a: i32)
    requires
        env_ok(shape, first, a),
    ensures
        env_ok(shape, env_next(shape, first, a).0, env_next(shape, first, a).1),
{
    let b = (a - 1) as i32;
    let c = (a + 1) as i32;
    assert((-2 <= b <= 31 ==> 0 <= b & 31i32 <= 31) && (0 <= c <= 33 ==> 0 <= c & 31i32 <= 31)) by (bit_vector);
}

/// Writing a 4-bit shape into the envelope register starts a reachable envelope.
pub proof fn lemma_env_register_starts_in_range(value: u8)
    requires
        value < 16,
    ensures
        env_ok(
            shape_of(value),
            true,
            if value & 4 == 0 {
                32i32
            } else {
                -1i32
            },
        ),
{
    assert(value & 4 == 0 <==> (value % 8) < 4) by (bit_vector);
}

/// The sawtooth shapes count through all 32 levels: stepping 32 times from
/// any level in 0..=31 returns to it.
pub proof fn lemma_saw_in_range(a: i32)
    requires
        0 <= a <= 31,
    ensures
        0 <= ((a - 1) as i32) & 31i32 <= 31,
        0 <= ((a + 1) as i32) & 31i32 <= 31,
        ((a + 1) as i32) & 31i32 == if a == 31 {
            0
        } else {
            a + 1
        },
        ((a - 1) as i32) & 31i32 == if a == 0 {
            31
        } else {
            a - 1
        },
{
    let b = (a - 1) as i32;
    let c = (a + 1) as i32;
    assert(-1 <= b <= 30 ==> (b & 31i32) == if b == -1 {
        31i32
    } else {
        b
    }) by (bit_vector);
    assert(1 <= c <= 32 ==> (c & 31i32) == if c == 32 {
        0i32
    } else {
        c
    }) by (bit_vector);
}

/// The envelope after `k` steps from `(first, a)`.
pub open spec fn env_steps(shape: EnvShape, first: bool, a: i32, k: nat) -> (bool, i32)
    decreases k,
{
    if k == 0 {
        (first, a)
    } else {
        let (f, b) = env_next(shape, first, a);
        env_steps(shape, f, b, (k - 1) as nat)
    }
}

/// A reachable envelope state with its level among the 32 output levels.
pub open spec fn env_in_levels(shape: EnvShape, first: bool, a: i32) -> bool {
    env_ok(shape, first, a) && 0 <= a <= 31
}

proof fn lemma_env_levels_closed(shape: EnvShape, first: bool, a: i32, k: nat)
    requires
        env_in_levels(shape, first, a),
    ensures
        env_in_levels(shape, env_steps(shape, first, a, k).0, env_steps(shape, first, a, k).1),
    decreases k,
{
    if k > 0 {
        lemma_env_step_stays_in_range(shape, first, a);
        lemma_saw_in_range(a);
        let (f, b) = env_next(shape, first, a);
        lemma_env_levels_closed(shape, f, b, (k - 1) as nat);
    }
}

/// After the envelope register is written with a 4-bit shape, every level
/// the envelope steps to (one step or more) is one of the 32 output levels
/// 0..=31.
pub proof fn lemma_env_levels_after_steps(value: u8, k: nat)
    requires
        value < 16,
        k >= 1,
    ensures
        ({
            let start: i32 = if value & 4 == 0 {
                32i32
            } else {
                -1i32
            };
            let a = env_steps(shape_of(value), true, start, k).1;
            0 <= a <= 31
        }),
{
    let start: i32 = if value & 4 == 0 {
        32i32
    } else {
        -1i32
    };
    assert(value & 4 == 0 <==> (value % 8) < 4) by (bit_vector);
    let shape = shape_of(value);
    let b = (start - 1) as i32;
    let c = (start + 1) as i32;
    assert((b == 31 ==> b & 31i32 == 31i32) && (b == -2 ==> b & 31i32 == 30i32) && (c == 0 ==> c & 31i32 == 0i32) && (c
        == 33 ==> c & 31i32 == 1i32)) by (bit_vector);
    lemma_env_register_starts_in_range(value);
    lemma_env_step_stays_in_range(shape, true, start);
    let (f, a1) = env_next(shape, true, start);
    assert(env_in_levels(shape, f, a1));
    lemma_env_levels_closed(shape, f, a1, (k - 1) as nat);
}

proof fn lemma_env_steps_add(shape: EnvShape, first: bool, a: i32, j: nat, k: nat)
    ensures
        env_steps(shape, first, a, j + k) == ({
            let (f, b) = env_steps(shape, first, a, j);
            env_steps(shape, f, b, k)
        }),
    decreases j,
{
    if j > 0 {
        let (f, b) = env_next(shape, first, a);
        lemma_env_steps_add(shape, f, b, (j - 1) as nat, k);
        assert((j + k - 1) as nat == ((j - 1) as nat + k) as nat);
    }
}

proof fn lemma_decay_reaches_hold(a: i32)
    requires
        0 <= a <= 32,
    ensures
        env_steps(EnvShape::DecayHold, true, a, (a + 1) as nat) == (false, 31i32),
    decreases a,
{
    assert(env_steps(EnvShape::DecayHold, false, 31i32, 0) == (false, 31i32));
    if a > 0 {
        lemma_decay_reaches_hold((a - 1) as i32);
        assert(env_next(EnvShape::DecayHold, true, a) == (true, (a - 1) as i32));
        assert(((a + 1) as nat - 1) as nat == ((a - 1) + 1) as nat);
    } else {
        assert(env_next(EnvShape::DecayHold, true, a) == (false, 31i32));
    }
}

proof fn lemma_attack_reaches_hold(a: i32)
    requires
        -1 <= a <= 31,
    ensures
        env_steps(EnvShape::AttackHold, true, a, (32 - a) as nat) == (false, 31i32),
    decreases 31 - a,
{
    assert(env_steps(EnvShape::AttackHold, false, 31i32, 0) == (false, 31i32));
    if a < 31 {
        lemma_attack_reaches_hold((a + 1) as i32);
        assert(env_next(EnvShape::AttackHold, true, a) == (true, (a + 1) as i32));
        assert(((32 - a) as nat - 1) as nat == (32 - (a + 1)) as nat);
    } else {
        assert(env_next(EnvShape::AttackHold, true, a) == (false, 31i32));
    }
}

proof fn lemma_held_stays(shape: EnvShape, a: i32, k: nat)
    requires
        shape == EnvShape::DecayHold || shape == EnvShape::AttackHold || shape == EnvShape::Hold0 || shape
            == EnvShape::Hold31,
    ensures
        env_steps(shape, false, a, k) == (false, a),
    decreases k,
{
    if k > 0 {
        lemma_held_stays(shape, a, (k - 1) as nat);
    }
}

/// The holding shapes 11 (decay, then hold) and 13 (attack, then hold):
/// from the 33rd step on, the envelope stays at level 31 with its first
/// period over.
pub proof fn lemma_hold_shapes_hold_at_31(value: u8, k: nat)
    requires
        value == 11 || value == 13,
        k >= 33,
    ensures
        env_steps(shape_of(value), true, if value & 4 == 0 {
            32i32
        } else {
            -1i32
        }, k) == (false, 31i32),
{
    assert(11u8 & 4 == 0u8 && 13u8 & 4 != 0u8) by (bit_vector);
    let shape = shape_of(value);
    let start: i32 = if value == 11 {
        32i32
    } else {
        -1i32
    };
    if value == 11 {
        lemma_decay_reaches_hold(32i32);
    } else {
        lemma_attack_reaches_hold(-1i32);
    }
    lemma_env_steps_add(shape, true, start, 33, (k - 33) as nat);
    lemma_held_stays(shape, 31i32, (k - 33) as nat);
    assert(33 + (k - 33) as nat == k);
}

proof fn lemma_hold0_reaches(a: i32)
    requires
        1 <= a <= 32,
    ensures
        env_steps(EnvShape::Hold0, true, a, a as nat) == (false, 0i32),
    decreases a,
{
    assert(env_steps(EnvShape::Hold0, false, 0i32, 0) == (false, 0i32));
    if a > 1 {
        lemma_hold0_reaches((a - 1) as i32);
        assert(env_next(EnvShape::Hold0, true, a) == (true, (a - 1) as i32));
        assert((a as nat - 1) as nat == (a - 1) as nat);
    } else {
        assert(env_next(EnvShape::Hold0, true, a) == (false, 0i32));
    }
}

proof fn lemma_hold31_reaches(a: i32)
    requires
        -1 <= a <= 31,
    ensures
        env_steps(EnvShape::Hold31, true, a, (32 - a) as nat) == (false, 0i32),
    decreases 31 - a,
{
    assert(env_steps(EnvShape::Hold31, false, 0i32, 0) == (false, 0i32));
    if a < 31 {
        lemma_hold31_reaches((a + 1) as i32);
        assert(env_next(EnvShape::Hold31, true, a) == (true, (a + 1) as i32));
        assert(((32 - a) as nat - 1) as nat == (32 - (a + 1)) as nat);
    } else {
        assert(env_next(EnvShape::Hold31, true, a) == (false, 0i32));
    }
}

/// The shapes that end silent (0 to 7, 9 and 15): from the 33rd step on,
/// the envelope stays at level 0 with its first period over.
pub proof fn lemma_silent_shapes_hold_at_0(value: u8, k: nat)
    requires
        value <= 7 || value == 9 || value == 15,
        k >= 33,
    ensures
        env_steps(shape_of(value), true, if value & 4 == 0 {
            32i32
        } else {
            -1i32
        }, k) == (false, 0i32),
{
    assert(value & 4 == 0 <==> (value % 8) < 4) by (bit_vector);
    let shape = shape_of(value);
    if value & 4 == 0 {
        assert(shape == EnvShape::Hold0);
        lemma_hold0_reaches(32i32);
        lemma_env_steps_add(shape, true, 32i32, 32, (k - 32) as nat);
        lemma_held_stays(shape, 0i32, (k - 32) as nat);
        assert(32 + (k - 32) as nat == k);
    } else {
        assert(shape == EnvShape::Hold31);
        lemma_hold31_reaches(-1i32);
        lemma_env_steps_add(shape, true, -1i32, 33, (k - 33) as nat);
        lemma_held_stays(shape, 0i32, (k - 33) as nat);
        assert(33 + (k - 33) as nat == k);
    }
}

/// The chip after `n` clocks (see [`after_clock`]).
pub open spec fn clocks(c: SoundChip, n: nat) -> SoundChip
    decreases n,
{
    if n == 0 {
        c
    } else {
        after_clock(clocks(c, (n - 1) as nat))
    }
}

/// A tone generator's counter and output after `n` clocks with period `p`.
pub open spec fn tone_run(counter: u32, out: i32, p: u16, n: nat) -> (u32, i32)
    decreases n,
{
    if n == 0 {
        (counter, out)
    } else {
        let (k, o) = tone_run(counter, out, p, (n - 1) as nat);
        (tone_counter_next(k, p), if tone_flips(k, p) {
            o ^ 1
        } else {
            o
        })
    }
}

proof fn lemma_clocks_tones(c: SoundChip, n: nat)
    ensures
        clocks(c, n).registers == c.registers,
        (clocks(c, n).ton_counter_a, clocks(c, n).ton_a) == tone_run(c.ton_counter_a, c.ton_a, c.registers.ton_a, n),
        (clocks(c, n).ton_counter_b, clocks(c, n).ton_b) == tone_run(c.ton_counter_b, c.ton_b, c.registers.ton_b, n),
        (clocks(c, n).ton_counter_c, clocks(c, n).ton_c) == tone_run(c.ton_counter_c, c.ton_c, c.registers.ton_c, n),
    decreases n,
{
    if n > 0 {
        lemma_clocks_tones(c, (n - 1) as nat);
    }
}

proof fn lemma_tone_run(out: i32, p: u16, n: nat)
    requires
        p >= 1,
        out == 0 || out == 1,
    ensures
        tone_run(0, out, p, n) == (((n % (p as nat)) * 65536) as u32, if (n / (p as nat)) % 2 == 0 {
            out
        } else {
            (1 - out) as i32
        }),
    decreases n,
{
    if n > 0 {
        let m = (n - 1) as nat;
        let pn = p as nat;
        lemma_tone_run(out, p, m);
        let r = m % pn;
        let q = m / pn;
        assert(m == pn * q + r && 0 <= r < pn) by (nonlinear_arith)
            requires
                pn > 0,
                r == m % pn,
                q == m / pn,
        ;
        let k = ((r * 65536) as u32);
        assert(k as int == r * 65536);
        assert(k as int / 65536 == r);
        assert(counter_hi_next(k) == r + 1);
        let o = if q % 2 == 0 {
            out
        } else {
            (1 - out) as i32
        };
        assert((o == 0 || o == 1) ==> (o ^ 1) == (1 - o) as i32) by (bit_vector);
        assert(tone_run(0, out, p, m) == (k, o));
        assert(tone_run(0, out, p, n) == (tone_counter_next(k, p), if tone_flips(k, p) {
            o ^ 1
        } else {
            o
        }));
        if r + 1 == pn {
            assert(tone_flips(k, p));
            assert(tone_counter_next(k, p) == 0);
            assert(n == pn * (q + 1)) by (nonlinear_arith)
                requires
                    n == m + 1,
                    m == pn * q + r,
                    r + 1 == pn,
            ;
            assert(n % pn == 0 && n / pn == q + 1) by (nonlinear_arith)
                requires
                    n == pn * (q + 1),
                    pn > 0,
            ;
            assert(((n % pn) * 65536) as u32 == 0);
        } else {
            assert(!tone_flips(k, p));
            assert(n % pn == r + 1 && n / pn == q) by (nonlinear_arith)
                requires
                    n == pn * q + r + 1,
                    0 <= r,
                    r + 1 < pn,
            ;
        }
    } else {
        let pn = p as nat;
        assert(0nat % pn == 0 && 0nat / pn == 0) by (nonlinear_arith)
            requires
                pn > 0,
        ;
    }
}

/// Each tone generator whose period `p` is at least 1 and whose counter
/// starts at 0 flips its output exactly on clocks `p`, `2p`, `3p`, ...:
/// after `n` clocks its output is the starting one when `n / p` is even,
/// the other one otherwise, and its counter is at `n mod p`.
pub proof fn lemma_tone_flips_every_period(c: SoundChip, n: nat)
    requires
        c.registers.ton_a >= 1 && c.ton_counter_a == 0 && (c.ton_a == 0 || c.ton_a == 1),
        c.registers.ton_b >= 1 && c.ton_counter_b == 0 && (c.ton_b == 0 || c.ton_b == 1),
        c.registers.ton_c >= 1 && c.ton_counter_c == 0 && (c.ton_c == 0 || c.ton_c == 1),
    ensures
        clocks(c, n).ton_a == if (n / (c.registers.ton_a as nat)) % 2 == 0 {
            c.ton_a
        } else {
            (1 - c.ton_a) as i32
        },
        clocks(c, n).ton_b == if (n / (c.registers.ton_b as nat)) % 2 == 0 {
            c.ton_b
        } else {
            (1 - c.ton_b) as i32
        },
        clocks(c, n).ton_c == if (n / (c.registers.ton_c as nat)) % 2 == 0 {
            c.ton_c
        } else {
            (1 - c.ton_c) as i32
        },
        clocks(c, n).ton_counter_a == (n % (c.registers.ton_a as nat)) * 65536,
        clocks(c, n).ton_counter_b == (n % (c.registers.ton_b as nat)) * 65536,
        clocks(c, n).ton_counter_c == (n % (c.registers.ton_c as nat)) * 65536,
{
    lemma_clocks_tones(c, n);
    lemma_tone_run(c.ton_a, c.registers.ton_a, n);
    lemma_tone_run(c.ton_b, c.registers.ton_b, n);
    lemma_tone_run(c.ton_c, c.registers.ton_c, n);
    let pa = c.registers.ton_a as nat;
    let pb = c.registers.ton_b as nat;
    let pc = c.registers.ton_c as nat;
    assert(n % pa < pa && n % pb < pb && n % pc < pc) by (nonlinear_arith)
        requires
            pa > 0,
            pb > 0,
            pc > 0,
    ;
    assert((n % pa) * 65536 < 0x1_0000_0000 && (n % pb) * 65536 < 0x1_0000_0000 && (n % pc) * 65536 < 0x1_0000_0000);
}

/// The chip after a register snapshot is written (see
/// [`SoundChip::apply_registers`]).
pub open spec fn registers_applied(c: SoundChip, r: AyRegisters) -> SoundChip {
    let c1 = SoundChip {
        registers: AyRegisters {
            mixer: r.mixer,
            ton_a: r.ton_a,
            ton_b: r.ton_b,
            ton_c: r.ton_c,
            amplitude_a: r.amplitude_a,
            amplitude_b: r.amplitude_b,
            amplitude_c: r.amplitude_c,
            noise: r.noise,
            envelope: r.envelope,
            ..c.registers
        },
        ton_en_a: r.mixer & 0x01 == 0,
        noise_en_a: r.mixer & 0x08 == 0,
        ton_en_b: r.mixer & 0x02 == 0,
        noise_en_b: r.mixer & 0x10 == 0,
        ton_en_c: r.mixer & 0x04 == 0,
        noise_en_c: r.mixer & 0x20 == 0,
        envelope_en_a: r.amplitude_a & 0x10 != 0,
        envelope_en_b: r.amplitude_b & 0x10 != 0,
        envelope_en_c: r.amplitude_c & 0x10 != 0,
        ..c
    };
    if r.env_type != c.registers.env_type {
        SoundChip {
            envelope_counter: 0,
            first_period: true,
            envelope_step: if r.env_type & 4 == 0 {
                32i32
            } else {
                -1i32
            },
            registers: AyRegisters { env_type: r.env_type, ..c1.registers },
            env_shape: shape_of(r.env_type),
            ..c1
        }
    } else {
        c1
    }
}

/// The envelope of the chip is one the steps keep in range (see [`env_ok`]).
pub open spec fn chip_ok(c: SoundChip) -> bool {
    env_ok(c.env_shape, c.first_period, c.envelope_step)
}

impl SoundChip {
    /// Write a register snapshot: mixer, tone periods, amplitudes, noise
    /// period and envelope period; the envelope shape only when it differs
    /// from the current one (writing it restarts the envelope).
    pub fn apply_registers(&mut self, regs: &AyRegisters)
        ensures
            *final(self) == registers_applied(*old(self), *regs),
            chip_ok(*old(self)) && regs.env_type < 16 ==> chip_ok(*final(self)),
    {
        self.set_mixer_register(regs.mixer);
        self.registers.ton_a = regs.ton_a;
        self.registers.ton_b = regs.ton_b;
        self.registers.ton_c = regs.ton_c;
        self.set_ampl_a(regs.amplitude_a);
        self.set_ampl_b(regs.amplitude_b);
        self.set_ampl_c(regs.amplitude_c);
        self.registers.noise = regs.noise;
        self.registers.envelope = regs.envelope;
        if regs.env_type != self.registers.env_type {
            proof {
                if regs.env_type < 16 {
                    lemma_env_register_starts_in_range(regs.env_type);
                }
            }
            self.set_envelope_register(regs.env_type);
        }
    }
}

/// One clock keeps the envelope in range.
pub proof fn lemma_clock_keeps_chip_ok(c: SoundChip)
    requires
        chip_ok(c),
    ensures
        chip_ok(after_clock(c)),
        i32::MIN < c.envelope_step < i32::MAX,
{
    lemma_env_step_stays_in_range(c.env_shape, c.first_period, c.envelope_step);
}

/// The table entry an amplitude register selects when the envelope is off:
/// twice the volume plus one, at most 31.
pub open spec fn volume_entry(ampl_reg: u8) -> int {
    if 2 * (ampl_reg as int) + 1 < 31 {
        2 * (ampl_reg as int) + 1
    } else {
        31
    }
}

/// The table entry the envelope level selects (clamped to 0..=31).
pub open spec fn envelope_entry(step: i32) -> int {
    if step < 0 {
        0
    } else if step > 31 {
        31
    } else {
        step as int
    }
}

/// What each channel adds to a mix depends on that channel's own registers
/// only: nothing when its tone and noise gates leave it off; otherwise the
/// entry of its table selected by the envelope level when its envelope is
/// on, or by its own amplitude register (twice the volume plus one, at most
/// 31) when it is off.
pub proof fn lemma_channel_levels(c: SoundChip, t: [i32; 32])
    ensures
        !channel_on(c.ton_en_a, c.ton_a, c.noise_en_a, c.noise_val) ==> c.level_a(t) == 0,
        !channel_on(c.ton_en_b, c.ton_b, c.noise_en_b, c.noise_val) ==> c.level_b(t) == 0,
        !channel_on(c.ton_en_c, c.ton_c, c.noise_en_c, c.noise_val) ==> c.level_c(t) == 0,
        channel_on(c.ton_en_a, c.ton_a, c.noise_en_a, c.noise_val) ==> c.level_a(t) == if c.envelope_en_a {
            t[envelope_entry(c.envelope_step)] as int
        } else {
            t[volume_entry(c.registers.amplitude_a)] as int
        },
        channel_on(c.ton_en_b, c.ton_b, c.noise_en_b, c.noise_val) ==> c.level_b(t) == if c.envelope_en_b {
            t[envelope_entry(c.envelope_step)] as int
        } else {
            t[volume_entry(c.registers.amplitude_b)] as int
        },
        channel_on(c.ton_en_c, c.ton_c, c.noise_en_c, c.noise_val) ==> c.level_c(t) == if c.envelope_en_c {
            t[envelope_entry(c.envelope_step)] as int
        } else {
            t[volume_entry(c.registers.amplitude_c)] as int
        },
{
}

/// A channel sounds exactly when each of its gates lets it: its tone gate is
/// off or its tone output is high, and its noise gate is off or the noise
/// output is high.
pub proof fn lemma_channel_gates(ton_en: bool, ton: i32, noise_en: bool, noise_val: u32)
    requires
        ton == 0 || ton == 1,
        noise_val == 0 || noise_val == 1,
    ensures
        channel_on(ton_en, ton, noise_en, noise_val) == ((!ton_en || ton == 1) && (!noise_en || noise_val == 1)),
{
    let k: i32 = if ton_en { ton } else { 1i32 };
    let nv = noise_val as i32;
    assert((k == 0 || k == 1) && (nv == 0 || nv == 1) ==> ((k & nv) != 0 <==> (k == 1 && nv == 1))) by (bit_vector);
}

} // verus!


