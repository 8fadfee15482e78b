//! Tone-period tables (AY clock periods for notes C-1..B-8) and the PT3
//! volume table.
use vstd::prelude::*;

verus! {

/// Pro Tracker table (table 0).
pub const PT3_NOTE_TABLE_PT: [u16; 96] = [
    0xC22, 0xB73, 0xACF, 0xA33, 0x9A1, 0x917, 0x894, 0x819, 0x7A4, 0x737, 0x6CF, 0x66D,
    0x611, 0x5BA, 0x567, 0x519, 0x4D0, 0x48B, 0x44A, 0x40C, 0x3D2, 0x39B, 0x367, 0x336,
    0x308, 0x2DD, 0x2B3, 0x28C, 0x268, 0x245, 0x225, 0x206, 0x1E9, 0x1CD, 0x1B3, 0x19B,
    0x184, 0x16E, 0x159, 0x146, 0x134, 0x122, 0x112, 0x103, 0x0F4, 0x0E6, 0x0D9, 0x0CD,
    0x0C2, 0x0B7, 0x0AC, 0x0A3, 0x09A, 0x091, 0x089, 0x081, 0x07A, 0x073, 0x06C, 0x066,
    0x061, 0x05B, 0x056, 0x051, 0x04D, 0x048, 0x044, 0x040, 0x03D, 0x039, 0x036, 0x033,
    0x030, 0x02D, 0x02B, 0x028, 0x026, 0x024, 0x022, 0x020, 0x01E, 0x01C, 0x01B, 0x019,
    0x018, 0x016, 0x015, 0x014, 0x013, 0x012, 0x011, 0x010, 0x00F, 0x00E, 0x00D, 0x00C,
];

/// Sound Tracker table (table 1).
pub const PT3_NOTE_TABLE_ST: [u16; 96] = [
    0xEF8, 0xE10, 0xD60, 0xC80, 0xBD8, 0xB28, 0xA88, 0x9F0, 0x960, 0x8E0, 0x858, 0x7E0,
    0x77C, 0x708, 0x6B0, 0x640, 0x5EC, 0x594, 0x544, 0x4F8, 0x4B0, 0x470, 0x42C, 0x3FD,
    0x3BE, 0x384, 0x358, 0x320, 0x2F6, 0x2CA, 0x2A2, 0x27C, 0x258, 0x238, 0x216, 0x1F8,
    0x1DF, 0x1C2, 0x1AC, 0x190, 0x17B, 0x165, 0x151, 0x13E, 0x12C, 0x11C, 0x10A, 0x0FC,
    0x0EF, 0x0E1, 0x0D6, 0x0C8, 0x0BD, 0x0B2, 0x0A8, 0x09F, 0x096, 0x08E, 0x085, 0x07E,
    0x077, 0x070, 0x06B, 0x064, 0x05E, 0x059, 0x054, 0x04F, 0x04B, 0x047, 0x042, 0x03F,
    0x03B, 0x038, 0x035, 0x032, 0x02F, 0x02C, 0x02A, 0x027, 0x025, 0x023, 0x021, 0x01F,
    0x01D, 0x01C, 0x01A, 0x019, 0x017, 0x016, 0x015, 0x013, 0x012, 0x011, 0x010, 0x00F,
];

/// ASC Sound Master table (table 2).
pub const PT3_NOTE_TABLE_ASM: [u16; 96] = [
    0xD10, 0xC55, 0xBA4, 0xAFC, 0xA5F, 0x9CA, 0x93D, 0x8B8, 0x83B, 0x7C5, 0x755, 0x6EC,
    0x688, 0x62A, 0x5D2, 0x57E, 0x52F, 0x4E5, 0x49E, 0x45C, 0x41D, 0x3E2, 0x3AB, 0x376,
    0x344, 0x315, 0x2E9, 0x2BF, 0x298, 0x272, 0x24F, 0x22E, 0x20F, 0x1F1, 0x1D5, 0x1BB,
    0x1A2, 0x18B, 0x174, 0x160, 0x14C, 0x139, 0x128, 0x117, 0x107, 0x0F9, 0x0EB, 0x0DD,
    0x0D1, 0x0C5, 0x0BA, 0x0B0, 0x0A6, 0x09D, 0x094, 0x08C, 0x084, 0x07C, 0x075, 0x06F,
    0x068, 0x063, 0x05D, 0x058, 0x053, 0x04E, 0x04A, 0x046, 0x042, 0x03E, 0x03B, 0x037,
    0x034, 0x031, 0x02F, 0x02C, 0x029, 0x027, 0x025, 0x023, 0x021, 0x01F, 0x01D, 0x01C,
    0x01A, 0x018, 0x017, 0x016, 0x014, 0x013, 0x012, 0x011, 0x010, 0x00F, 0x00E, 0x00D,
];

/// Equal-tempered table, A-4 = 440 Hz at a 1.7734 MHz clock (table 3).
pub const PT3_NOTE_TABLE_REAL: [u16; 96] = [
    0xD3D, 0xC7F, 0xBCB, 0xB22, 0xA82, 0x9EB, 0x95D, 0x8D6, 0x857, 0x7DF, 0x76E, 0x703,
    0x69F, 0x63F, 0x5E6, 0x591, 0x541, 0x4F6, 0x4AE, 0x46B, 0x42C, 0x3F0, 0x3B7, 0x382,
    0x34F, 0x320, 0x2F3, 0x2C8, 0x2A1, 0x27B, 0x257, 0x236, 0x216, 0x1F8, 0x1DC, 0x1C1,
    0x1A8, 0x190, 0x179, 0x164, 0x150, 0x13D, 0x12C, 0x11B, 0x10B, 0x0FC, 0x0EE, 0x0E0,
    0x0D4, 0x0C8, 0x0BD, 0x0B2, 0x0A8, 0x09F, 0x096, 0x08D, 0x085, 0x07E, 0x077, 0x070,
    0x06A, 0x064, 0x05E, 0x059, 0x054, 0x04F, 0x04B, 0x047, 0x043, 0x03F, 0x03B, 0x038,
    0x035, 0x032, 0x02F, 0x02D, 0x02A, 0x028, 0x025, 0x023, 0x021, 0x01F, 0x01E, 0x01C,
    0x01A, 0x019, 0x018, 0x016, 0x015, 0x014, 0x013, 0x012, 0x011, 0x010, 0x00F, 0x00E,
];

/// Just-intonation table on the same C as table 3 (table 4).
pub const PT3_NOTE_TABLE_NATURAL: [u16; 96] = [
    0xD3D, 0xC69, 0xBC5, 0xB08, 0xA97, 0x9EE, 0x96A, 0x8D3, 0x846, 0x7F2, 0x75B, 0x710,
    0x69F, 0x635, 0x5E2, 0x584, 0x54C, 0x4F7, 0x4B5, 0x46A, 0x423, 0x3F9, 0x3AD, 0x388,
    0x34F, 0x31A, 0x2F1, 0x2C2, 0x2A6, 0x27B, 0x25B, 0x235, 0x212, 0x1FC, 0x1D7, 0x1C4,
    0x1A8, 0x18D, 0x179, 0x161, 0x153, 0x13E, 0x12D, 0x11A, 0x109, 0x0FE, 0x0EB, 0x0E2,
    0x0D4, 0x0C7, 0x0BC, 0x0B1, 0x0A9, 0x09F, 0x097, 0x08D, 0x084, 0x07F, 0x076, 0x071,
    0x06A, 0x063, 0x05E, 0x058, 0x055, 0x04F, 0x04B, 0x047, 0x042, 0x040, 0x03B, 0x038,
    0x035, 0x032, 0x02F, 0x02C, 0x02A, 0x028, 0x026, 0x023, 0x021, 0x020, 0x01D, 0x01C,
    0x01A, 0x019, 0x018, 0x016, 0x015, 0x014, 0x013, 0x012, 0x011, 0x010, 0x00F, 0x00E,
];

/// Volume table: `PT3_VOL[volume][amplitude]` is the chip amplitude a
/// sample amplitude plays at under a channel volume, `(v * a + 7) / 15`.
pub const PT3_VOL: [[u8; 16]; 16] = [
    [0, 0, 0, 0, 0, 0, 0, 0, 0, 0, 0, 0, 0, 0, 0, 0],
    [0, 0, 0, 0, 0, 0, 0, 0, 1, 1, 1, 1, 1, 1, 1, 1],
    [0, 0, 0, 0, 1, 1, 1, 1, 1, 1, 1, 1, 2, 2, 2, 2],
    [0, 0, 0, 1, 1, 1, 1, 1, 2, 2, 2, 2, 2, 3, 3, 3],
    [0, 0, 1, 1, 1, 1, 2, 2, 2, 2, 3, 3, 3, 3, 4, 4],
    [0, 0, 1, 1, 1, 2, 2, 2, 3, 3, 3, 4, 4, 4, 5, 5],
    [0, 0, 1, 1, 2, 2, 2, 3, 3, 4, 4, 4, 5, 5, 6, 6],
    [0, 0, 1, 1, 2, 2, 3, 3, 4, 4, 5, 5, 6, 6, 7, 7],
    [0, 1, 1, 2, 2, 3, 3, 4, 4, 5, 5, 6, 6, 7, 7, 8],
    [0, 1, 1, 2, 2, 3, 4, 4, 5, 5, 6, 7, 7, 8, 8, 9],
    [0, 1, 1, 2, 3, 3, 4, 5, 5, 6, 7, 7, 8, 9, 9, 10],
    [0, 1, 1, 2, 3, 4, 4, 5, 6, 7, 7, 8, 9, 10, 10, 11],
    [0, 1, 2, 2, 3, 4, 5, 6, 6, 7, 8, 9, 10, 10, 11, 12],
    [0, 1, 2, 3, 3, 4, 5, 6, 7, 8, 9, 10, 10, 11, 12, 13],
    [0, 1, 2, 3, 4, 5, 6, 7, 7, 8, 9, 10, 11, 12, 13, 14],
    [0, 1, 2, 3, 4, 5, 6, 7, 8, 9, 10, 11, 12, 13, 14, 15],
];

/// The tone table selected by a table number (numbers above 4 select table 4).
pub open spec fn tone_table(table: u8) -> [u16; 96] {
    if table == 0 {
        PT3_NOTE_TABLE_PT
    } else if table == 1 {
        PT3_NOTE_TABLE_ST
    } else if table == 2 {
        PT3_NOTE_TABLE_ASM
    } else if table == 3 {
        PT3_NOTE_TABLE_REAL
    } else {
        PT3_NOTE_TABLE_NATURAL
    }
}

/// Tone period of `note` in `table`; notes above 95 play as note 95.
pub open spec fn note_freq(table: u8, note: u8) -> u16 {
    tone_table(table)[if note > 95 {
        95int
    } else {
        note as int
    }]
}

/// Tone period of `note` in tone table `table` (0 = PT, 1 = ST, 2 = ASM,
/// 3 = real, 4 and above = natural); notes above 95 play as note 95.
pub fn get_note_freq(table: u8, note: u8) -> (r: u16)
    ensures
        r == note_freq(table, note),
{
    let n: usize = if note > 95 {
        95
    } else {
        note as usize
    };
    if table == 0 {
        PT3_NOTE_TABLE_PT[n]
    } else if table == 1 {
        PT3_NOTE_TABLE_ST[n]
    } else if table == 2 {
        PT3_NOTE_TABLE_ASM[n]
    } else if table == 3 {
        PT3_NOTE_TABLE_REAL[n]
    } else {
        PT3_NOTE_TABLE_NATURAL[n]
    }
}

/// The lowest note whose tone period is sixteen times `env_period` (the
/// envelope then runs at the note's pitch), or 0 when there is none.
pub fn get_note_by_envelope(table: u8, env_period: i32) -> (r: u8)
    ensures
        r <= 95,
        (exists|n: int| 0 <= n < 96 && tone_table(table)[n] as int == env_period as int * 16)
            ==> tone_table(table)[r as int] as int == env_period as int * 16 && forall|n: int|
            0 <= n < r ==> tone_table(table)[n] as int != env_period as int * 16,
        !(exists|n: int| 0 <= n < 96 && tone_table(table)[n] as int == env_period as int * 16)
            ==> r == 0,
{
    let target: i64 = env_period as i64 * 16;
    let mut n: u8 = 0;
    while n < 96
        invariant
            n <= 96,
            target == env_period as int * 16,
            forall|k: int| 0 <= k < n ==> tone_table(table)[k] as int != target,
        decreases 96 - n,
    {
        if get_note_freq(table, n) as i64 == target {
            return n;
        }
        n = n + 1;
    }
    0
}

} // verus!
