//! ZXAY (`*.ay`) containers: sub-song listing, and Sound Tracker 1 songs
//! (type `ST11`) converted to STC and read.
use crate::formats::asc::byte_or;
use crate::formats::{stc, string_from_bytes_lossy, utf8_lossy, FormatError};
use crate::types::Module;
use vstd::prelude::*;
use vstd::string::StringSliceAdditionalSpecFns;
use vstd::utf8::{encode_utf8, is_char_boundary};

verus! {

// ─── ST1 layout ──────────────────────────────────────────────────────────────
/// Size of an ST1 sample (32 volumes, 32 noises, 32 tone words, loop, length).
pub const ST1_SMP_SIZE: usize = 130;
/// The position list: 256 (pattern number from 1, transposition) pairs.
pub const ST1_POS_BASE: usize = 1950;
/// The index of the last position played.
pub const ST1_POS_LEN: usize = 2462;
/// The ornaments: 17 of 32 signed offsets.
pub const ST1_ORN_BASE: usize = 2463;
/// The delay.
pub const ST1_DEL: usize = 3007;
/// The pattern length (rows).
pub const ST1_PAT_LEN: usize = 3008;
/// The patterns: 576 bytes each (64 rows of three 3-byte channel cells).
pub const ST1_PAT_BASE: usize = 3009;
/// Size of an ST1 pattern.
pub const ST1_PAT_SIZE: usize = 576;
/// Highest pattern number (from 0).
pub const ST1_MAX_PAT: usize = 64;
/// Smallest usable ST1 song: the header and one pattern.
pub const ST1_MIN_VALID: usize = 3585;

/// Why an ST1 song cannot be converted.
#[derive(Debug, Clone, Copy, PartialEq, Eq, Structural)]
pub enum St1Error {
    /// Not longer than the header.
    TooSmall,
    /// The patterns are not a whole number of 576-byte patterns.
    Unaligned,
    /// More than 65 patterns.
    TooManyPatterns,
    /// The pattern length is not 1..64.
    BadPatternLength,
    /// A position names pattern 0 (they count from 1).
    ZeroPattern,
    /// A position names a pattern past 65.
    PatternIndex,
    /// The used patterns need more pattern slots than the file has.
    PatternsExceedSlots,
    /// A B# or E# note.
    InvalidNote,
    /// A note past the tracker's range.
    NoteOutOfRange,
}

/// The note byte of a cell: row `row`, channel `ch` of physical pattern `ir`.
pub open spec fn nt_at(data: Seq<u8>, ir: int, row: int, ch: int) -> u8 {
    byte_or(data, ST1_PAT_BASE + ST1_PAT_SIZE * ir + 9 * row + 3 * ch, 0)
}

/// Its sample-and-effect byte.
pub open spec fn es_at(data: Seq<u8>, ir: int, row: int, ch: int) -> u8 {
    byte_or(data, ST1_PAT_BASE + ST1_PAT_SIZE * ir + 9 * row + 3 * ch + 1, 0)
}

/// Its effect operand byte.
pub open spec fn eo_at(data: Seq<u8>, ir: int, row: int, ch: int) -> u8 {
    byte_or(data, ST1_PAT_BASE + ST1_PAT_SIZE * ir + 9 * row + 3 * ch + 2, 0)
}

/// The number of empty cells (no note name) from row `n` on, up to the
/// pattern length, until the first non-empty one.
pub open spec fn empties_from(data: Seq<u8>, ir: int, n: int, ch: int, pl: int) -> int
    decreases pl - n,
{
    if n >= pl || n < 0 || nt_at(data, ir, n, ch) & 0xF0u8 != 0 {
        0
    } else {
        1 + empties_from(data, ir, n + 1, ch, pl)
    }
}

/// The empty cells counted from row `n` stay within the pattern.
pub proof fn lemma_empties_bound(data: Seq<u8>, ir: int, n: int, ch: int, pl: int)
    ensures
        0 <= empties_from(data, ir, n, ch, pl),
        n >= 0 ==> n + empties_from(data, ir, n, ch, pl) <= if n > pl {
            n
        } else {
            pl
        },
    decreases pl - n,
{
    if n < pl && n >= 0 && nt_at(data, ir, n, ch) & 0xF0u8 == 0 {
        lemma_empties_bound(data, ir, n + 1, ch, pl);
    }
}

/// The semitone of ST1 note names 1..7 (A, B, C, D, E, F, G).
pub open spec fn st1_semitone(name: int) -> int {
    if name == 1 {
        9
    } else if name == 2 {
        11
    } else if name == 3 {
        0
    } else if name == 4 {
        2
    } else if name == 5 {
        4
    } else if name == 6 {
        5
    } else if name == 7 {
        7
    } else {
        0
    }
}

/// ST1 note names 1..7 are the letters A..G: each names the semitone whose
/// note text starts with that letter as a natural, and one semitone up is
/// that letter sharp (for all but B and E, which have no sharp).
pub proof fn lemma_st1_names_are_letters(name: int)
    requires
        1 <= name <= 7,
    ensures
        0 <= st1_semitone(name) <= 11,
        crate::util::note_name(st1_semitone(name))[0] as int == 0x40 + name,
        crate::util::note_name(st1_semitone(name))[1] == '-',
        name != 2 && name != 5 ==> st1_semitone(name) + 1 <= 11 && crate::util::note_name(st1_semitone(name) + 1)[0]
            as int == 0x40 + name && crate::util::note_name(st1_semitone(name) + 1)[1] == '#',
{
}

/// An ST1 cell with a note (name 1..7 in the high nibble, the octave in the
/// low three bits, bit 3 the sharp) converts to the note whose octave is the
/// cell's and whose text is the cell's letter, sharp when the cell is.
pub proof fn lemma_st1_note_converts(data: Seq<u8>, ir: int, ch: int, pl: int, j: int, cur: St1Cur, u: St1Used)
    requires
        1 <= nt_at(data, ir, j, ch) / 16 <= 7,
        row_code(data, ir, ch, pl, j, cur, u) is Ok,
    ensures
        ({
            let nt = nt_at(data, ir, j, ch) as int;
            let code = row_code(data, ir, ch, pl, j, cur, u)->Ok_0.0;
            let n = code.last() as int;
            &&& code.len() >= 1
            &&& n / 12 == nt % 8
            &&& crate::util::note_name(n % 12)[0] as int == 0x40 + nt / 16
            &&& crate::util::note_name(n % 12)[1] == if (nt / 8) % 2 == 1 { '#' } else { '-' }
        }),
{
    let nt = nt_at(data, ir, j, ch) as int;
    let name = nt / 16;
    let octave = nt % 8;
    let sharp: int = if (nt / 8) % 2 == 1 { 1 } else { 0 };
    lemma_st1_names_are_letters(name);
    let k = st1_semitone(name) + sharp;
    assert(0 <= k <= 11);
    let n = k + octave * 12;
    assert(n % 12 == k && n / 12 == octave) by (nonlinear_arith)
        requires
            n == k + octave * 12,
            0 <= k < 12,
            0 <= octave,
    ;
    assert(n <= 0x5F);
}

/// The running choices of a channel's bytecode (-1: none yet): the skip
/// count, sample, ornament, envelope type and period.
#[derive(Clone, Copy, PartialEq, Eq, Structural)]
pub struct St1Cur {
    pub empty: i32,
    pub sam: i32,
    pub orn: i32,
    pub et: i32,
    pub ep: i32,
}

/// The samples and ornaments the bytecode uses.
#[derive(Clone, Copy)]
pub struct St1Used {
    pub smp: [bool; 16],
    pub orn: [bool; 16],
}

/// The bytecode of row `j`'s cell: a new skip count (0xA1 + empty rows after
/// it) when it changed; 0x81 for an empty cell; otherwise a sample change
/// (0x61..0x6F), an envelope (0x87..0x8E and its period) or ornament (0x82,
/// 0x70..0x7F) change, then the note or 0x80 for sound off.
pub open spec fn row_code(data: Seq<u8>, ir: int, ch: int, pl: int, j: int, cur: St1Cur, u: St1Used) -> Result<
    (Seq<u8>, St1Cur, St1Used),
    St1Error,
> {
    let nt = nt_at(data, ir, j, ch);
    let name = (nt / 16) as int;
    let ne = empties_from(data, ir, j + 1, ch, pl);
    let (out0, cur0) = if ne != cur.empty {
        (seq![(0xA1 + ne) as u8], St1Cur { empty: ne as i32, ..cur })
    } else {
        (Seq::<u8>::empty(), cur)
    };
    if name == 0 {
        Ok((out0.push(0x81u8), cur0, u))
    } else {
        let es = es_at(data, ir, j, ch);
        let eo = eo_at(data, ir, j, ch);
        let sn = (es / 16) as int;
        let (out1, cur1, u1) = if 1 <= sn <= 15 && sn != cur0.sam {
            (
                out0.push((0x60 + sn) as u8),
                St1Cur { sam: sn as i32, ..cur0 },
                St1Used { smp: vstd::array::spec_array_update(u.smp, sn, true), ..u },
            )
        } else {
            (out0, cur0, u)
        };
        let en = (es % 16) as int;
        let (out2, cur2, u2) = if 7 <= en <= 14 {
            if en != cur1.et || eo != cur1.ep {
                (
                    out1.push((0x80 + en) as u8).push(eo),
                    St1Cur { orn: -1i32, et: en as i32, ep: eo as i32, ..cur1 },
                    u1,
                )
            } else {
                (out1, cur1, u1)
            }
        } else if en == 1 || en == 15 {
            let o = if en == 1 {
                0
            } else {
                (eo % 16) as int
            };
            if o != cur1.orn {
                (
                    out1.push(if en == 1 && o == 0 {
                        0x82u8
                    } else {
                        (0x70 + o) as u8
                    }),
                    St1Cur { et: -1i32, ep: -1i32, orn: o as i32, ..cur1 },
                    St1Used { orn: vstd::array::spec_array_update(u1.orn, o, true), ..u1 },
                )
            } else {
                (out1, cur1, u1)
            }
        } else {
            (out1, cur1, u1)
        };
        if name < 8 {
            let octave = (nt % 8) as int;
            let sharp = if (nt / 8) % 2 == 1 {
                1int
            } else {
                0
            };
            let note = st1_semitone(name) + octave * 12 + sharp;
            if (name == 2 || name == 5) && sharp == 1 {
                Err(St1Error::InvalidNote)
            } else if note > 0x5F {
                Err(St1Error::NoteOutOfRange)
            } else {
                Ok((out2.push(note as u8), cur2, u2))
            }
        } else {
            Ok((out2.push(0x80u8), cur2, u2))
        }
    }
}

/// The bytecode of a channel from row `j` on: each row's code (see
/// [`row_code`]), skipping the empty rows the skip count covers, then 0xFF.
pub open spec fn chan_code(data: Seq<u8>, ir: int, ch: int, pl: int, j: int, cur: St1Cur, u: St1Used, out: Seq<u8>) -> Result<
    (Seq<u8>, St1Used),
    St1Error,
>
    decreases pl - j,
{
    if j >= pl || j < 0 {
        Ok((out.push(0xFFu8), u))
    } else {
        match row_code(data, ir, ch, pl, j, cur, u) {
            Err(e) => Err(e),
            Ok((code, cur2, u2)) => {
                proof {
                    lemma_empties_bound(data, ir, j + 1, ch, pl);
                }
                chan_code(data, ir, ch, pl, j + 1 + empties_from(data, ir, j + 1, ch, pl), cur2, u2, out + code)
            },
        }
    }
}


fn get_or(data: &[u8], i: usize, dflt: u8) -> (r: u8)
    ensures
        r == byte_or(data@, i as int, dflt),
{
    if i < data.len() {
        data[i]
    } else {
        dflt
    }
}

fn cell_off(ir: usize, row: usize, ch: usize) -> (r: usize)
    requires
        ir <= ST1_MAX_PAT,
        row <= 64,
        ch < 3,
    ensures
        r == ST1_PAT_BASE + ST1_PAT_SIZE * ir + 9 * row + 3 * ch,
        r < 100000,
{
    ST1_PAT_BASE + ST1_PAT_SIZE * ir + 9 * row + 3 * ch
}

/// Count the empty cells after row `j` (see [`empties_from`]).
fn count_empty_after(data: &[u8], ir: usize, j: usize, ch: usize, pl: usize) -> (r: u8)
    requires
        ir <= ST1_MAX_PAT,
        j < pl <= 64,
        ch < 3,
    ensures
        r == empties_from(data@, ir as int, j + 1, ch as int, pl as int),
        j + 1 + r <= pl,
{
    let mut count: u8 = 0;
    let mut n = j + 1;
    proof {
        lemma_empties_bound(data@, ir as int, j + 1, ch as int, pl as int);
    }
    while n < pl
        invariant
            j + 1 <= n <= pl,
            pl <= 64,
            ir <= ST1_MAX_PAT,
            ch < 3,
            count == n - (j + 1),
            empties_from(data@, ir as int, j + 1, ch as int, pl as int) == count + empties_from(
                data@,
                ir as int,
                n as int,
                ch as int,
                pl as int,
            ),
        ensures
            empties_from(data@, ir as int, j + 1, ch as int, pl as int) == count,
        decreases pl - n,
    {
        if get_or(data, cell_off(ir, n, ch), 0) & 0xF0 == 0 {
            count = count + 1;
            n = n + 1;
        } else {
            break ;
        }
    }
    count
}

fn push_seq(out: &mut Vec<u8>, b: u8)
    ensures
        final(out)@ == old(out)@.push(b),
{
    out.push(b);
}

/// The code of one row's cell (see [`row_code`]), appended to `out`.
#[verifier::spinoff_prover]
#[verifier::rlimit(60)]
fn row_code_exec(
    data: &[u8],
    ir: usize,
    ch: usize,
    pl: usize,
    j: usize,
    cur: St1Cur,
    u: St1Used,
    out: &mut Vec<u8>,
) -> (r: Result<(St1Cur, St1Used), St1Error>)
    requires
        ir <= ST1_MAX_PAT,
        j < pl <= 64,
        ch < 3,
    ensures
        match row_code(data@, ir as int, ch as int, pl as int, j as int, cur, u) {
            Ok((code, cur2, u2)) => r == Ok::<(St1Cur, St1Used), St1Error>((cur2, u2)) && final(out)@
                == old(out)@ + code,
            Err(e) => r == Err::<(St1Cur, St1Used), St1Error>(e),
        },
        r matches Ok((c2, _)) ==> c2.empty == empties_from(data@, ir as int, j + 1, ch as int, pl as int)
            && 0 <= c2.empty && j + 1 + c2.empty <= pl,
{
    let ghost out0 = out@;
    let nt = get_or(data, cell_off(ir, j, ch), 0);
    let name = nt / 16;
    let ne = count_empty_after(data, ir, j, ch, pl);
    let mut c = cur;
    let mut used = u;
    if ne as i32 != c.empty {
        push_seq(out, 0xA1 + ne);
        c.empty = ne as i32;
    }
    let ghost mid = out@;
    assert(mid.subrange(out0.len() as int, mid.len() as int) =~= if ne as i32 != cur.empty {
        seq![(0xA1 + ne) as u8]
    } else {
        Seq::<u8>::empty()
    });
    if name == 0 {
        push_seq(out, 0x81);
        assert(out@ =~= out0 + mid.subrange(out0.len() as int, mid.len() as int).push(0x81u8));
        return Ok((c, used));
    }
    let es = get_or(data, cell_off(ir, j, ch) + 1, 0);
    let eo = get_or(data, cell_off(ir, j, ch) + 2, 0);
    let sn = es / 16;
    if 1 <= sn && sn <= 15 && sn as i32 != c.sam {
        c.sam = sn as i32;
        push_seq(out, 0x60 + sn);
        used.smp[sn as usize] = true;
    }
    let en = es % 16;
    if 7 <= en && en <= 14 {
        if en as i32 != c.et || eo as i32 != c.ep {
            c.orn = -1;
            c.et = en as i32;
            c.ep = eo as i32;
            push_seq(out, 0x80 + en);
            push_seq(out, eo);
        }
    } else if en == 1 || en == 15 {
        let o: u8 = if en == 1 {
            0
        } else {
            eo % 16
        };
        if o as i32 != c.orn {
            c.et = -1;
            c.ep = -1;
            c.orn = o as i32;
            used.orn[o as usize] = true;
            if en == 1 && o == 0 {
                push_seq(out, 0x82);
            } else {
                push_seq(out, 0x70 + o);
            }
        }
    }
    if name < 8 {
        let octave = nt % 8;
        let sharp: u8 = if (nt / 8) % 2 == 1 {
            1
        } else {
            0
        };
        if (name == 2 || name == 5) && sharp == 1 {
            return Err(St1Error::InvalidNote);
        }
        let semi: u8 = if name == 1 {
            9
        } else if name == 2 {
            11
        } else if name == 3 {
            0
        } else if name == 4 {
            2
        } else if name == 5 {
            4
        } else if name == 6 {
            5
        } else {
            7
        };
        let note: u32 = semi as u32 + octave as u32 * 12 + sharp as u32;
        if note > 0x5F {
            return Err(St1Error::NoteOutOfRange);
        }
        push_seq(out, note as u8);
    } else {
        push_seq(out, 0x80);
    }
    proof {
        let rc = row_code(data@, ir as int, ch as int, pl as int, j as int, cur, u);
        assert(rc matches Ok((code, cur2, u2)) && cur2 == c && out@ =~= out0 + code && u2.smp =~= used.smp
            && u2.orn =~= used.orn);
    }
    Ok((c, used))
}


/// A channel before its first row: nothing chosen.
pub open spec fn cur0() -> St1Cur {
    St1Cur { empty: -1i32, sam: -1i32, orn: -1i32, et: -1i32, ep: -1i32 }
}

/// Build the bytecode of channel `ch` of physical pattern `ir` (see
/// [`chan_code`]), marking the samples and ornaments it uses.
fn build_channel_bytecode(data: &[u8], ir: usize, ch: usize, pl: usize, u0: St1Used) -> (r: Result<
    (Vec<u8>, St1Used),
    St1Error,
>)
    requires
        ir <= ST1_MAX_PAT,
        1 <= pl <= 64,
        ch < 3,
    ensures
        match chan_code(data@, ir as int, ch as int, pl as int, 0, cur0(), u0, Seq::empty()) {
            Ok((code, u2)) => r matches Ok((v, u3)) && v@ == code && u3.smp == u2.smp && u3.orn
                == u2.orn,
            Err(e) => r matches Err(e2) && e2 == e,
        },
{
    let mut out: Vec<u8> = Vec::new();
    let mut c = St1Cur { empty: -1, sam: -1, orn: -1, et: -1, ep: -1 };
    let mut u = u0;
    let mut j: usize = 0;
    let ghost target = chan_code(data@, ir as int, ch as int, pl as int, 0, c, u, out@);
    assert(out@ =~= Seq::<u8>::empty());
    while j < pl
        invariant
            ir <= ST1_MAX_PAT,
            1 <= pl <= 64,
            ch < 3,
            j <= pl,
            chan_code(data@, ir as int, ch as int, pl as int, j as int, c, u, out@) == target,
            target == chan_code(data@, ir as int, ch as int, pl as int, 0, cur0(), u0, Seq::empty()),
        decreases pl - j,
    {
        let ghost before = out@;
        match row_code_exec(data, ir, ch, pl, j, c, u, &mut out) {
            Err(e) => {
                return Err(e);
            },
            Ok((c2, u2)) => {
                j = j + 1 + c2.empty as usize;
                c = c2;
                u = u2;
            },
        }
    }
    push_seq(&mut out, 0xFF);
    Ok((out, u))
}


// ─── ST1 checks ──────────────────────────────────────────────────────────────

/// The position list from position `i` on: every entry names a pattern
/// 1..65; marks the patterns named (`exists`) and those the song plays
/// (positions up to `last`, `used`).
pub open spec fn pos_scan(data: Seq<u8>, last: int, i: int, used: Seq<bool>, exists: Seq<bool>) -> Result<
    (Seq<bool>, Seq<bool>),
    St1Error,
>
    decreases 256 - i,
{
    if i >= 256 || i < 0 {
        Ok((used, exists))
    } else {
        let pnum = byte_or(data, ST1_POS_BASE + 2 * i, 0) as int;
        if pnum == 0 {
            Err(St1Error::ZeroPattern)
        } else if pnum - 1 > ST1_MAX_PAT {
            Err(St1Error::PatternIndex)
        } else {
            pos_scan(
                data,
                last,
                i + 1,
                if i <= last {
                    used.update(pnum - 1, true)
                } else {
                    used
                },
                exists.update(pnum - 1, true),
            )
        }
    }
}

/// The number of true entries of `s` from `i` on.
pub open spec fn count_true(s: Seq<bool>, i: int) -> int
    decreases s.len() - i,
{
    if i >= s.len() || i < 0 {
        0
    } else {
        (if s[i] {
            1int
        } else {
            0
        }) + count_true(s, i + 1)
    }
}

/// The patterns kept: those named and not after the last one played.
pub open spec fn kept(used: Seq<bool>, exists: Seq<bool>) -> Seq<bool> {
    Seq::new(65, |i: int| exists[i] && exists|k: int| i <= k < 65 && used[k])
}

/// What an ST1 song's header and position list give: the pattern length,
/// the patterns played and the patterns kept; or why it cannot be converted.
pub open spec fn st1_check(data: Seq<u8>) -> Result<(int, Seq<bool>, Seq<bool>), St1Error> {
    if data.len() <= ST1_PAT_BASE {
        Err(St1Error::TooSmall)
    } else if (data.len() - ST1_PAT_BASE) % (ST1_PAT_SIZE as int) != 0 {
        Err(St1Error::Unaligned)
    } else if (data.len() - ST1_PAT_BASE) / (ST1_PAT_SIZE as int) - 1 > ST1_MAX_PAT {
        Err(St1Error::TooManyPatterns)
    } else if !(1 <= data[ST1_PAT_LEN as int] <= 64) {
        Err(St1Error::BadPatternLength)
    } else {
        match pos_scan(data, data[ST1_POS_LEN as int] as int, 0, Seq::new(65, |i: int| false), Seq::new(65, |i: int| false)) {
            Err(e) => Err(e),
            Ok((used, exists)) => {
                let k = kept(used, exists);
                let n_e = count_true(k, 0);
                if n_e != 0 && n_e - 1 > (data.len() - ST1_PAT_BASE) / (ST1_PAT_SIZE as int) - 1 {
                    Err(St1Error::PatternsExceedSlots)
                } else {
                    Ok((data[ST1_PAT_LEN as int] as int, used, k))
                }
            },
        }
    }
}


/// Check an ST1 song (see [`st1_check`]).
fn st1_scan(data: &[u8]) -> (r: Result<(usize, [bool; 65], [bool; 65]), St1Error>)
    requires
        data@.len() <= isize::MAX,
    ensures
        match st1_check(data@) {
            Ok((pl, used, k)) => r matches Ok((p2, u2, k2)) && p2 == pl && u2@ == used && k2@ == k,
            Err(e) => r matches Err(e2) && e2 == e,
        },
        r matches Ok((p2, _, _)) ==> 1 <= p2 <= 64,
{
    if data.len() <= ST1_PAT_BASE {
        return Err(St1Error::TooSmall);
    }
    if (data.len() - ST1_PAT_BASE) % ST1_PAT_SIZE != 0 {
        return Err(St1Error::Unaligned);
    }
    let n_phys = (data.len() - ST1_PAT_BASE) / ST1_PAT_SIZE;
    if n_phys - 1 > ST1_MAX_PAT {
        return Err(St1Error::TooManyPatterns);
    }
    let pl = data[ST1_PAT_LEN] as usize;
    if !(1 <= pl && pl <= 64) {
        return Err(St1Error::BadPatternLength);
    }
    let last = data[ST1_POS_LEN] as usize;
    let mut used = [false; 65];
    let mut exists = [false; 65];
    assert(used@ =~= Seq::new(65, |i: int| false));
    assert(exists@ =~= Seq::new(65, |i: int| false));
    let ghost target = pos_scan(data@, last as int, 0, used@, exists@);
    let mut i: usize = 0;
    while i < 256
        invariant
            i <= 256,
            data@.len() > ST1_PAT_BASE,
            (data@.len() - ST1_PAT_BASE) % (ST1_PAT_SIZE as int) == 0,
            (data@.len() - ST1_PAT_BASE) / (ST1_PAT_SIZE as int) - 1 <= ST1_MAX_PAT,
            1 <= data@[ST1_PAT_LEN as int] <= 64,
            last == data@[ST1_POS_LEN as int],
            pos_scan(data@, last as int, i as int, used@, exists@) == target,
            target == pos_scan(data@, last as int, 0, Seq::new(65, |i: int| false), Seq::new(65, |i: int| false)),
        decreases 256 - i,
    {
        let pnum = data[ST1_POS_BASE + 2 * i] as usize;
        if pnum == 0 {
            return Err(St1Error::ZeroPattern);
        }
        if pnum - 1 > ST1_MAX_PAT {
            return Err(St1Error::PatternIndex);
        }
        if i <= last {
            used[pnum - 1] = true;
        }
        exists[pnum - 1] = true;
        i = i + 1;
    }
    // Keep the patterns not after the last one played.
    let mut k = exists;
    let mut q: usize = 65;
    while q > 0 && !used[q - 1]
        invariant
            q <= 65,
            forall|t: int| q <= t < 65 ==> !used@[t],
            forall|t: int| 0 <= t < 65 ==> #[trigger] k@[t] == (exists@[t] && t < q),
        decreases q,
    {
        k[q - 1] = false;
        q = q - 1;
    }
    assert(k@ =~= kept(used@, exists@)) by {
        assert forall|t: int| 0 <= t < 65 implies #[trigger] k@[t] == kept(used@, exists@)[t] by {
            if t < q {
                assert(used@[q - 1]);
            }
        }
    }
    let mut n_e: usize = 0;
    let mut t: usize = 65;
    while t > 0
        invariant
            t <= 65,
            k@.len() == 65,
            n_e == count_true(k@, t as int),
            n_e <= 65 - t,
        decreases t,
    {
        if k[t - 1] {
            n_e = n_e + 1;
        }
        t = t - 1;
    }
    if n_e != 0 && n_e - 1 > n_phys - 1 {
        return Err(St1Error::PatternsExceedSlots);
    }
    Ok((pl, used, k))
}


// ─── ST1 to STC ──────────────────────────────────────────────────────────────

/// A pattern-table entry being built: pattern number (from 0) and the
/// offsets of its three channels' bytecode.
pub type St1Entry = (int, int, int, int);

/// The bytecode of the kept patterns from `i` on (the played ones; `ir`
/// counts the kept patterns before, the physical slot read), with the
/// pattern-table entries.
pub open spec fn codes_fold(
    data: Seq<u8>,
    pl: int,
    used: Seq<bool>,
    kept: Seq<bool>,
    i: int,
    ir: int,
    u: St1Used,
    codes: Seq<u8>,
    table: Seq<St1Entry>,
) -> Result<(Seq<u8>, Seq<St1Entry>, St1Used), St1Error>
    decreases 65 - i,
{
    if i >= 65 || i < 0 {
        Ok((codes, table, u))
    } else if !kept[i] {
        codes_fold(data, pl, used, kept, i + 1, ir, u, codes, table)
    } else if used[i] {
        match chan_code(data, ir, 0, pl, 0, cur0(), u, Seq::empty()) {
            Err(e) => Err(e),
            Ok((c0, u0)) => match chan_code(data, ir, 1, pl, 0, cur0(), u0, Seq::empty()) {
                Err(e) => Err(e),
                Ok((c1, u1)) => match chan_code(data, ir, 2, pl, 0, cur0(), u1, Seq::empty()) {
                    Err(e) => Err(e),
                    Ok((c2, u2)) => codes_fold(
                        data,
                        pl,
                        used,
                        kept,
                        i + 1,
                        ir + 1,
                        u2,
                        codes + c0 + c1 + c2,
                        table.push((i, codes.len() as int, (codes.len() + c0.len()) as int, (codes.len() + c0.len() + c1.len()) as int)),
                    ),
                },
            },
        }
    } else {
        codes_fold(data, pl, used, kept, i + 1, ir + 1, u, codes, table)
    }
}

/// The name STC compilers give.
pub open spec fn compiler_name() -> Seq<u8> {
    seq![0x53u8, 0x4F, 0x4E, 0x47, 0x20, 0x42, 0x59, 0x20, 0x53, 0x54, 0x20, 0x43, 0x4F, 0x4D, 0x50, 0x49, 0x4C, 0x45]
}

/// The three STC bytes of tick `j` of ST1 sample `i`: amplitude and tone
/// bits 8..11; noise with tone bit 12 as bit 5; tone bits 0..7.
pub open spec fn tick_bytes(data: Seq<u8>, i: int, j: int) -> Seq<u8> {
    let sb = (i - 1) * ST1_SMP_SIZE;
    let vl = data[sb + j];
    let ns = data[sb + 32 + j];
    let tn = (data[sb + 64 + 2 * j] as int + 256 * data[sb + 65 + 2 * j] as int) as u16;
    seq![
        (vl & 0x0Fu8) | (((tn & 0x0F00u16) >> 4u16) as u8),
        (ns & 0xDFu8) | (((tn & 0x1000u16) >> 7u16) as u8),
        (tn & 0xFFu16) as u8
    ]
}

/// The ticks of ST1 sample `i` from tick `j` on.
pub open spec fn ticks_from(data: Seq<u8>, i: int, j: int) -> Seq<u8>
    decreases 32 - j,
{
    if j >= 32 || j < 0 {
        Seq::empty()
    } else {
        tick_bytes(data, i, j) + ticks_from(data, i, j + 1)
    }
}

/// The used samples from `i` on: number, 32 ticks, loop position and length.
pub open spec fn smp_block(data: Seq<u8>, smp: [bool; 16], i: int) -> Seq<u8>
    decreases 16 - i,
{
    if i > 15 || i < 1 {
        Seq::empty()
    } else if !smp[i] {
        smp_block(data, smp, i + 1)
    } else {
        let sb = (i - 1) * ST1_SMP_SIZE;
        seq![i as u8] + ticks_from(data, i, 0) + seq![data[sb + 128], data[sb + 129]] + smp_block(
            data,
            smp,
            i + 1,
        )
    }
}

/// The used ornaments from `i` on: number and 32 offsets.
pub open spec fn orn_block(data: Seq<u8>, orn: [bool; 16], i: int) -> Seq<u8>
    decreases 16 - i,
{
    if i > 15 || i < 0 {
        Seq::empty()
    } else if !orn[i] {
        orn_block(data, orn, i + 1)
    } else {
        seq![i as u8] + Seq::new(32, |j: int| byte_or(data, ST1_ORN_BASE + 32 * i + j, 0)) + orn_block(
            data,
            orn,
            i + 1,
        )
    }
}

/// The low and high bytes of `x` taken modulo 65536.
pub open spec fn le16(x: int) -> Seq<u8> {
    seq![((x % 65536) % 256) as u8, ((x % 65536) / 256) as u8]
}

/// The pattern-table entries: number from 1 and the three channel
/// offsets, `bs` being where the bytecode starts.
pub open spec fn table_bytes(t: Seq<St1Entry>, bs: int) -> Seq<u8>
    decreases t.len(),
{
    if t.len() == 0 {
        Seq::empty()
    } else {
        let e = t.last();
        table_bytes(t.drop_last(), bs) + seq![(e.0 + 1) as u8] + le16(bs + e.1) + le16(bs + e.2) + le16(
            bs + e.3,
        )
    }
}

/// The STC file assembled: header (delay, pointers, the compiler name,
/// size), used samples (padded to 126 bytes), the positions played, used
/// ornaments, the pattern table (ended by 0xFF) and the bytecode.
pub open spec fn assemble(data: Seq<u8>, u: St1Used, codes: Seq<u8>, table: Seq<St1Entry>) -> Seq<u8> {
    let pre = seq![data[ST1_DEL as int], 0u8, 0u8, 0u8, 0u8, 0u8, 0u8] + compiler_name() + seq![0u8, 0u8];
    let s1 = pre + smp_block(data, u.smp, 1);
    let s2 = if s1.len() < 126 {
        s1 + Seq::new((126 - s1.len()) as nat, |k: int| 0u8)
    } else {
        s1
    };
    let last = data[ST1_POS_LEN as int] as int;
    let pos_ptr = s2.len() as int;
    let s3 = s2 + seq![last as u8] + Seq::new((2 * (last + 1)) as nat, |k: int| byte_or(data, ST1_POS_BASE + k, 0));
    let orn_ptr = s3.len() as int;
    let s4 = s3 + orn_block(data, u.orn, 0);
    let pat_ptr = s4.len() as int;
    let bs = pat_ptr + 7 * table.len() + 1;
    let s6 = s4 + table_bytes(table, bs) + seq![0xFFu8] + codes;
    let p = le16(pos_ptr);
    let o = le16(orn_ptr);
    let q = le16(pat_ptr);
    let z = le16(s6.len() as int);
    s6.update(1, p[0]).update(2, p[1]).update(3, o[0]).update(4, o[1]).update(5, q[0]).update(6, q[1]).update(
        25,
        z[0],
    ).update(26, z[1])
}

/// No sample used; ornament 0 always.
pub open spec fn used0() -> St1Used {
    St1Used { smp: [false, false, false, false, false, false, false, false, false, false, false, false, false, false, false, false], orn: [true, false, false, false, false, false, false, false, false, false, false, false, false, false, false, false] }
}

/// The STC file an ST1 song converts to (see [`assemble`]), or why it
/// cannot be converted.
pub open spec fn st1_stc(data: Seq<u8>) -> Result<Seq<u8>, St1Error> {
    match st1_check(data) {
        Err(e) => Err(e),
        Ok((pl, used, k)) => match codes_fold(data, pl, used, k, 0, 0, used0(), Seq::empty(), Seq::empty()) {
            Err(e) => Err(e),
            Ok((codes, table, u)) => Ok(assemble(data, u, codes, table)),
        },
    }
}


/// A row's code is at most five bytes.
proof fn lemma_row_code_len(data: Seq<u8>, ir: int, ch: int, pl: int, j: int, cur: St1Cur, u: St1Used)
    ensures
        row_code(data, ir, ch, pl, j, cur, u) matches Ok((code, _, _)) ==> code.len() <= 5,
{
}

/// A channel's bytecode from row `j` adds at most five bytes a row and the
/// end byte.
proof fn lemma_chan_code_len(
    data: Seq<u8>,
    ir: int,
    ch: int,
    pl: int,
    j: int,
    cur: St1Cur,
    u: St1Used,
    out: Seq<u8>,
)
    requires
        0 <= j <= pl,
    ensures
        chan_code(data, ir, ch, pl, j, cur, u, out) matches Ok((code, _)) ==> code.len() <= out.len() + 5 * (
        pl - j) + 1,
    decreases pl - j,
{
    if j < pl {
        lemma_row_code_len(data, ir, ch, pl, j, cur, u);
        lemma_empties_bound(data, ir, j + 1, ch, pl);
        match row_code(data, ir, ch, pl, j, cur, u) {
            Err(e) => {},
            Ok((code, cur2, u2)) => {
                lemma_chan_code_len(
                    data,
                    ir,
                    ch,
                    pl,
                    j + 1 + empties_from(data, ir, j + 1, ch, pl),
                    cur2,
                    u2,
                    out + code,
                );
            },
        }
    }
}

fn extend(out: &mut Vec<u8>, src: &[u8])
    ensures
        final(out)@ == old(out)@ + src@,
{
    let ghost o = out@;
    let mut i: usize = 0;
    while i < src.len()
        invariant
            i <= src@.len(),
            out@ == o + src@.subrange(0, i as int),
        decreases src.len() - i,
    {
        out.push(src[i]);
        i = i + 1;
        assert(out@ =~= o + src@.subrange(0, i as int));
    }
    assert(src@.subrange(0, src@.len() as int) =~= src@);
}

/// The spec form of the built table.
pub open spec fn entries(t: Seq<(usize, usize, usize, usize)>) -> Seq<St1Entry> {
    t.map_values(|e: (usize, usize, usize, usize)| (e.0 as int, e.1 as int, e.2 as int, e.3 as int))
}

/// Build the bytecode of the kept patterns (see [`codes_fold`]).
fn build_codes(data: &[u8], pl: usize, used: &[bool; 65], kept: &[bool; 65]) -> (r: Result<
    (Vec<u8>, Vec<(usize, usize, usize, usize)>, St1Used),
    St1Error,
>)
    requires
        1 <= pl <= 64,
        data@.len() <= isize::MAX,
    ensures
        match codes_fold(data@, pl as int, used@, kept@, 0, 0, used0(), Seq::empty(), Seq::empty()) {
            Ok((codes, table, u)) => r matches Ok((c2, t2, u2)) && c2@ == codes && entries(t2@) == table
                && u2.smp == u.smp && u2.orn == u.orn && c2@.len() <= 65 * 3 * 321 && t2@.len() <= 65 && (
            forall|q: int|
                0 <= q < t2@.len() ==> (#[trigger] t2@[q]).0 < 65 && t2@[q].1 <= c2@.len() && t2@[q].2
                    <= c2@.len() && t2@[q].3 <= c2@.len()),
            Err(e) => r matches Err(e2) && e2 == e,
        },
{
    let mut orn0 = [false; 16];
    orn0[0] = true;
    let mut u = St1Used { smp: [false; 16], orn: orn0 };
    assert(u.smp =~= used0().smp);
    assert(u.orn =~= used0().orn);
    let mut codes: Vec<u8> = Vec::new();
    let mut table: Vec<(usize, usize, usize, usize)> = Vec::new();
    assert(entries(table@) =~= Seq::<St1Entry>::empty());
    let ghost target = codes_fold(data@, pl as int, used@, kept@, 0, 0, u, codes@, entries(table@));
    let mut ir: usize = 0;
    let mut i: usize = 0;
    while i < 65
        invariant
            i <= 65,
            ir <= i,
            1 <= pl <= 64,
            codes@.len() <= i * 3 * 321,
            table@.len() <= i,
            forall|q: int|
                0 <= q < table@.len() ==> (#[trigger] table@[q]).0 < 65 && table@[q].1 <= codes@.len()
                    && table@[q].2 <= codes@.len() && table@[q].3 <= codes@.len(),
            codes_fold(data@, pl as int, used@, kept@, i as int, ir as int, u, codes@, entries(table@))
                == target,
            target == codes_fold(data@, pl as int, used@, kept@, 0, 0, used0(), Seq::empty(), Seq::empty()),
        decreases 65 - i,
    {
        if !kept[i] {
            i = i + 1;
            continue ;
        }
        if used[i] {
            proof {
                lemma_chan_code_len(data@, ir as int, 0, pl as int, 0, cur0(), u, Seq::empty());
            }
            let (c0, u0) = match build_channel_bytecode(data, ir, 0, pl, u) {
                Ok(x) => x,
                Err(e) => {
                    return Err(e);
                },
            };
            proof {
                lemma_chan_code_len(data@, ir as int, 1, pl as int, 0, cur0(), u0, Seq::empty());
            }
            let (c1, u1) = match build_channel_bytecode(data, ir, 1, pl, u0) {
                Ok(x) => x,
                Err(e) => {
                    return Err(e);
                },
            };
            proof {
                lemma_chan_code_len(data@, ir as int, 2, pl as int, 0, cur0(), u1, Seq::empty());
            }
            let (c2, u2) = match build_channel_bytecode(data, ir, 2, pl, u1) {
                Ok(x) => x,
                Err(e) => {
                    return Err(e);
                },
            };
            let ghost before = codes@;
            let o0 = codes.len();
            extend(&mut codes, c0.as_slice());
            let o1 = codes.len();
            extend(&mut codes, c1.as_slice());
            let o2 = codes.len();
            extend(&mut codes, c2.as_slice());
            let ghost t0 = table@;
            table.push((i, o0, o1, o2));
            assert(entries(table@) =~= entries(t0).push((i as int, o0 as int, o1 as int, o2 as int)));
            assert(codes@ =~= before + c0@ + c1@ + c2@);
            u = u2;
        }
        ir = ir + 1;
        i = i + 1;
    }
    Ok((codes, table, u))
}


fn push_le16(v: &mut Vec<u8>, x: usize)
    ensures
        final(v)@ == old(v)@ + le16(x as int),
{
    let y = x % 65536;
    v.push((y % 256) as u8);
    v.push((y / 256) as u8);
    assert(final(v)@ =~= old(v)@ + le16(x as int));
}

/// The header before its pointers and size: the delay, zeros, the
/// compiler name and zeros.
pub open spec fn pre_header(delay: u8) -> Seq<u8> {
    seq![delay, 0u8, 0u8, 0u8, 0u8, 0u8, 0u8] + compiler_name() + seq![0u8, 0u8]
}

fn push_header(stc: &mut Vec<u8>, delay: u8)
    ensures
        final(stc)@ == old(stc)@ + pre_header(delay),
{
    let ghost s0 = stc@;
    stc.push(delay);
    let mut z: usize = 0;
    while z < 6
        invariant
            z <= 6,
            stc@ == s0 + seq![delay] + Seq::new(z as nat, |k: int| 0u8),
        decreases 6 - z,
    {
        stc.push(0);
        z = z + 1;
        assert(stc@ =~= s0 + seq![delay] + Seq::new(z as nat, |k: int| 0u8));
    }
    let nm: [u8; 18] = [0x53, 0x4F, 0x4E, 0x47, 0x20, 0x42, 0x59, 0x20, 0x53, 0x54, 0x20, 0x43, 0x4F, 0x4D, 0x50, 0x49, 0x4C, 0x45];
    assert(nm@ =~= compiler_name());
    extend(stc, &nm);
    stc.push(0);
    stc.push(0);
    assert(stc@ =~= s0 + pre_header(delay));
}

fn push_sample(stc: &mut Vec<u8>, data: &[u8], i: usize)
    requires
        1 <= i <= 15,
        data@.len() > ST1_PAT_BASE,
    ensures
        final(stc)@ == old(stc)@ + seq![i as u8] + ticks_from(data@, i as int, 0) + seq![
            data@[(i - 1) * ST1_SMP_SIZE + 128],
            data@[(i - 1) * ST1_SMP_SIZE + 129]
        ],
{
    let sb = (i - 1) * ST1_SMP_SIZE;
    let ghost s0 = stc@;
    stc.push(i as u8);
    let mut j: usize = 0;
    while j < 32
        invariant
            j <= 32,
            1 <= i <= 15,
            sb == (i - 1) * ST1_SMP_SIZE,
            data@.len() > ST1_PAT_BASE,
            stc@ + ticks_from(data@, i as int, j as int) == s0.push(i as u8) + ticks_from(data@, i as int, 0),
        decreases 32 - j,
    {
        let vl = data[sb + j];
        let ns = data[sb + 32 + j];
        let tn: u16 = data[sb + 64 + 2 * j] as u16 + 256 * data[sb + 65 + 2 * j] as u16;
        let ghost before = stc@;
        stc.push((vl & 0x0F) | (((tn & 0x0F00) >> 4) as u8));
        stc.push((ns & 0xDF) | (((tn & 0x1000) >> 7) as u8));
        stc.push((tn & 0xFF) as u8);
        assert(stc@ =~= before + tick_bytes(data@, i as int, j as int));
        assert(stc@ + ticks_from(data@, i as int, j + 1) =~= before + ticks_from(data@, i as int, j as int));
        j = j + 1;
    }
    assert(ticks_from(data@, i as int, 32) =~= Seq::<u8>::empty());
    stc.push(data[sb + 128]);
    stc.push(data[sb + 129]);
    assert(stc@ =~= s0 + seq![i as u8] + ticks_from(data@, i as int, 0) + seq![
        data@[(i - 1) * ST1_SMP_SIZE + 128],
        data@[(i - 1) * ST1_SMP_SIZE + 129]
    ]);
}

fn push_samples(stc: &mut Vec<u8>, data: &[u8], smp: &[bool; 16])
    requires
        data@.len() > ST1_PAT_BASE,
    ensures
        final(stc)@ == old(stc)@ + smp_block(data@, *smp, 1),
{
    let ghost s0 = stc@;
    let mut i: usize = 1;
    while i < 16
        invariant
            1 <= i <= 16,
            data@.len() > ST1_PAT_BASE,
            stc@ + smp_block(data@, *smp, i as int) == s0 + smp_block(data@, *smp, 1),
        decreases 16 - i,
    {
        if smp[i] {
            let ghost b = stc@;
            push_sample(stc, data, i);
            assert(stc@ + smp_block(data@, *smp, i + 1) =~= b + smp_block(data@, *smp, i as int));
        }
        i = i + 1;
    }
    assert(smp_block(data@, *smp, 16) =~= Seq::<u8>::empty());
    assert(stc@ =~= s0 + smp_block(data@, *smp, 1));
}

fn pad_to_126(stc: &mut Vec<u8>)
    ensures
        final(stc)@ == if old(stc)@.len() < 126 {
            old(stc)@ + Seq::new((126 - old(stc)@.len()) as nat, |k: int| 0u8)
        } else {
            old(stc)@
        },
{
    let ghost s1 = stc@;
    if stc.len() >= 126 {
        return ;
    }
    while stc.len() < 126
        invariant
            s1.len() <= stc@.len() <= 126,
            stc@ == s1 + Seq::new((stc@.len() - s1.len()) as nat, |k: int| 0u8),
        decreases 126 - stc@.len(),
    {
        stc.push(0);
        assert(stc@ =~= s1 + Seq::new((stc@.len() - s1.len()) as nat, |k: int| 0u8));
    }
}

fn push_positions(stc: &mut Vec<u8>, data: &[u8], last: usize)
    requires
        last <= 255,
    ensures
        final(stc)@ == old(stc)@ + seq![last as u8] + Seq::new(
            (2 * (last + 1)) as nat,
            |t: int| byte_or(data@, ST1_POS_BASE + t, 0),
        ),
{
    let ghost s2 = stc@;
    stc.push(last as u8);
    let mut k: usize = 0;
    while k < 2 * (last + 1)
        invariant
            k <= 2 * (last + 1),
            last <= 255,
            stc@ == s2 + seq![last as u8] + Seq::new(k as nat, |t: int| byte_or(data@, ST1_POS_BASE + t, 0)),
        decreases 2 * (last + 1) - k,
    {
        stc.push(get_or(data, ST1_POS_BASE + k, 0));
        k = k + 1;
        assert(stc@ =~= s2 + seq![last as u8] + Seq::new(k as nat, |t: int| byte_or(data@, ST1_POS_BASE + t, 0)));
    }
}

fn push_ornaments(stc: &mut Vec<u8>, data: &[u8], orn: &[bool; 16])
    ensures
        final(stc)@ == old(stc)@ + orn_block(data@, *orn, 0),
        final(stc)@.len() <= old(stc)@.len() + 33 * 16,
{
    let ghost s3 = stc@;
    let mut i: usize = 0;
    while i < 16
        invariant
            i <= 16,
            stc@.len() <= s3.len() + 33 * i,
            stc@ + orn_block(data@, *orn, i as int) == s3 + orn_block(data@, *orn, 0),
        decreases 16 - i,
    {
        if orn[i] {
            let ghost s0 = stc@;
            stc.push(i as u8);
            let mut j: usize = 0;
            while j < 32
                invariant
                    j <= 32,
                    i < 16,
                    stc@ == s0.push(i as u8) + Seq::new(j as nat, |t: int| byte_or(data@, ST1_ORN_BASE + 32 * i + t, 0)),
                decreases 32 - j,
            {
                stc.push(get_or(data, ST1_ORN_BASE + 32 * i + j, 0));
                j = j + 1;
                assert(stc@ =~= s0.push(i as u8) + Seq::new(j as nat, |t: int| byte_or(data@, ST1_ORN_BASE + 32 * i + t, 0)));
            }
            assert(stc@ + orn_block(data@, *orn, i + 1) =~= s0 + orn_block(data@, *orn, i as int));
        }
        i = i + 1;
    }
    assert(orn_block(data@, *orn, 16) =~= Seq::<u8>::empty());
    assert(stc@ =~= s3 + orn_block(data@, *orn, 0));
}

fn push_table(stc: &mut Vec<u8>, table: &Vec<(usize, usize, usize, usize)>, bs: usize)
    requires
        table@.len() <= 65,
        bs < 100000,
        forall|q: int|
            0 <= q < table@.len() ==> (#[trigger] table@[q]).0 < 65 && table@[q].1 <= 65 * 3 * 321
                && table@[q].2 <= 65 * 3 * 321 && table@[q].3 <= 65 * 3 * 321,
    ensures
        final(stc)@ == old(stc)@ + table_bytes(entries(table@), bs as int),
{
    let ghost s4 = stc@;
    let mut m: usize = 0;
    assert(entries(table@).take(0) =~= Seq::<St1Entry>::empty());
    while m < table.len()
        invariant
            m <= table@.len(),
            table@.len() <= 65,
            bs < 100000,
            forall|q: int|
                0 <= q < table@.len() ==> (#[trigger] table@[q]).0 < 65 && table@[q].1 <= 65 * 3 * 321
                    && table@[q].2 <= 65 * 3 * 321 && table@[q].3 <= 65 * 3 * 321,
            stc@ == s4 + table_bytes(entries(table@).take(m as int), bs as int),
        decreases table.len() - m,
    {
        let e = table[m];
        stc.push((e.0 + 1) as u8);
        push_le16(stc, bs + e.1);
        push_le16(stc, bs + e.2);
        push_le16(stc, bs + e.3);
        proof {
            let t = entries(table@);
            assert(t.take(m + 1).drop_last() =~= t.take(m as int));
            assert(t.take(m + 1).last() == t[m as int]);
        }
        m = m + 1;
        assert(stc@ =~= s4 + table_bytes(entries(table@).take(m as int), bs as int));
    }
    assert(entries(table@).take(table@.len() as int) =~= entries(table@));
}

fn patch_header(stc: &mut Vec<u8>, pos_ptr: usize, orn_ptr: usize, pat_ptr: usize)
    requires
        old(stc)@.len() >= 27,
    ensures
        ({
            let s6 = old(stc)@;
            let p = le16(pos_ptr as int);
            let o = le16(orn_ptr as int);
            let q = le16(pat_ptr as int);
            let z = le16(s6.len() as int);
            final(stc)@ == s6.update(1, p[0]).update(2, p[1]).update(3, o[0]).update(4, o[1]).update(5, q[0]).update(
                6,
                q[1],
            ).update(25, z[0]).update(26, z[1])
        }),
{
    let size = stc.len();
    let p = pos_ptr % 65536;
    let o = orn_ptr % 65536;
    let q = pat_ptr % 65536;
    let zz = size % 65536;
    stc.set(1, (p % 256) as u8);
    stc.set(2, (p / 256) as u8);
    stc.set(3, (o % 256) as u8);
    stc.set(4, (o / 256) as u8);
    stc.set(5, (q % 256) as u8);
    stc.set(6, (q / 256) as u8);
    stc.set(25, (zz % 256) as u8);
    stc.set(26, (zz / 256) as u8);
}

/// Convert a Sound Tracker 1 song into an STC file (see [`st1_stc`]).
#[verifier::spinoff_prover]
#[verifier::rlimit(60)]
pub fn st1_to_stc(data: &[u8]) -> (r: Result<Vec<u8>, St1Error>)
    requires
        data@.len() <= isize::MAX,
    ensures
        match st1_stc(data@) {
            Ok(b) => r matches Ok(v) && v@ == b,
            Err(e) => r matches Err(e2) && e2 == e,
        },
        r matches Ok(v) ==> v@.len() <= 100000,
{
    let (pl, used, kept) = match st1_scan(data) {
        Ok(x) => x,
        Err(e) => {
            return Err(e);
        },
    };
    let (codes, table, u) = match build_codes(data, pl, &used, &kept) {
        Ok(x) => x,
        Err(e) => {
            return Err(e);
        },
    };
    let mut stc: Vec<u8> = Vec::new();
    push_header(&mut stc, data[ST1_DEL]);
    push_samples(&mut stc, data, &u.smp);
    let ghost s1 = stc@;
    pad_to_126(&mut stc);
    let ghost s2 = stc@;
    let pos_ptr = stc.len();
    let last = data[ST1_POS_LEN] as usize;
    push_positions(&mut stc, data, last);
    let ghost s3 = stc@;
    let orn_ptr = stc.len();
    push_ornaments(&mut stc, data, &u.orn);
    let ghost s4 = stc@;
    let pat_ptr = stc.len();
    assert(pat_ptr < 5000) by {
        assert(s1.len() <= 27 + 99 * 15) by {
            lemma_smp_block_len(data@, u.smp, 1);
        }
    }
    let bs = pat_ptr + 7 * table.len() + 1;
    push_table(&mut stc, &table, bs);
    stc.push(0xFF);
    extend(&mut stc, codes.as_slice());
    let ghost s6 = stc@;
    proof {
        lemma_table_len(entries(table@), bs as int);
        assert(s6.len() <= 100000);
    }
    patch_header(&mut stc, pos_ptr, orn_ptr, pat_ptr);
    proof {
        assert(s2.len() == pos_ptr);
        assert(s3.len() == orn_ptr);
        assert(s4.len() == pat_ptr);
        assert(s6 =~= s4 + table_bytes(entries(table@), bs as int) + seq![0xFFu8] + codes@);
        assert(stc@ =~= assemble(data@, u, codes@, entries(table@)));
    }
    Ok(stc)
}

/// Each table entry takes seven bytes.
proof fn lemma_table_len(t: Seq<St1Entry>, bs: int)
    ensures
        table_bytes(t, bs).len() == 7 * t.len(),
    decreases t.len(),
{
    if t.len() > 0 {
        lemma_table_len(t.drop_last(), bs);
    }
}

/// The used samples take at most 99 bytes each.
proof fn lemma_smp_block_len(data: Seq<u8>, smp: [bool; 16], i: int)
    requires
        1 <= i <= 16,
    ensures
        smp_block(data, smp, i).len() <= 99 * (16 - i),
    decreases 16 - i,
{
    if i <= 15 {
        lemma_smp_block_len(data, smp, i + 1);
        lemma_ticks_len(data, i, 0);
    }
}

/// A sample's ticks take three bytes each.
proof fn lemma_ticks_len(data: Seq<u8>, i: int, j: int)
    requires
        0 <= j <= 32,
    ensures
        ticks_from(data, i, j).len() == 3 * (32 - j),
    decreases 32 - j,
{
    if j < 32 {
        lemma_ticks_len(data, i, j + 1);
    }
}


// ─── The ZXAY container ──────────────────────────────────────────────────────

/// What `str::trim` gives for `s`: `s` without its leading and trailing
/// white space (see [`crate::formats::is_white_space`]).
pub open spec fn ws_trim(s: Seq<char>) -> Seq<char> {
    crate::formats::trim_end_chars(crate::formats::trim_start_chars(s))
}

/// `s.trim()`, owned.  The contract states what std documents: the result
/// is `s` without its leading and trailing Unicode white space (see
/// [`ws_trim`]), its UTF-8 length is a `usize` (its `len()`), and a string
/// that is empty, or starts and ends with a printable ASCII character other
/// than the space, is kept whole.
#[verifier::external_body]
fn trim_owned(s: &str) -> (r: String)
    ensures
        r@ == ws_trim(s@),
        encode_utf8(r@).len() <= usize::MAX,
        (s@.len() == 0 || (0x21 <= s@[0] as int <= 0x7E && 0x21 <= s@.last() as int <= 0x7E)) ==> r@ == s@,
{
    s.trim().to_string()
}

/// Where the first zero byte of `s` is, from `i` on (the length when none).
pub open spec fn first_zero(s: Seq<u8>, i: int) -> int
    decreases s.len() - i,
{
    if i >= s.len() || i < 0 {
        s.len() as int
    } else if s[i] == 0 {
        i
    } else {
        first_zero(s, i + 1)
    }
}

/// The zero-terminated text at `off`, read as UTF-8 (invalid sequences
/// replaced) and trimmed of white space.
pub open spec fn cstring_at(data: Seq<u8>, off: int) -> Seq<char> {
    if off >= data.len() || off < 0 {
        Seq::empty()
    } else {
        let rest = data.subrange(off, data.len() as int);
        ws_trim(utf8_lossy(rest.take(first_zero(rest, 0))))
    }
}

/// A name is cut to 32 bytes of UTF-8: defined when it is shorter or byte
/// 32 starts a character.
pub open spec fn cut_ok(s: Seq<char>) -> bool {
    encode_utf8(s).len() <= 32 || is_char_boundary(encode_utf8(s), 32)
}

/// `r` is `s` cut to its first 32 bytes of UTF-8.
pub open spec fn is_cut(r: Seq<char>, s: Seq<char>) -> bool {
    encode_utf8(r) == if encode_utf8(s).len() <= 32 {
        encode_utf8(s)
    } else {
        encode_utf8(s).take(32)
    }
}

/// Cut `s` to its first 32 bytes of UTF-8.
fn cut32(s: String) -> (r: String)
    requires
        cut_ok(s@),
        encode_utf8(s@).len() <= usize::MAX,
    ensures
        is_cut(r@, s@),
{
    let st = s.as_str();
    if st.len() <= 32 {
        return s;
    }
    let (a, _b) = st.split_at(32);
    let r = a.to_owned();
    assert(encode_utf8(s@).take(32) =~= encode_utf8(s@).subrange(0, 32));
    r
}

/// Read the text at `off` (see [`cstring_at`]).
fn read_cstring(data: &[u8], off: usize) -> (r: String)
    ensures
        r@ == cstring_at(data@, off as int),
        encode_utf8(r@).len() <= usize::MAX,
{
    if off >= data.len() {
        let e = String::new();
        assert(e@ =~= Seq::<char>::empty());
        return e;
    }
    let rest = vstd::slice::slice_subrange(data, off, data.len());
    let mut n: usize = 0;
    while n < rest.len() && rest[n] != 0
        invariant
            n <= rest@.len(),
            first_zero(rest@, n as int) == first_zero(rest@, 0),
        decreases rest.len() - n,
    {
        n = n + 1;
    }
    let head = vstd::slice::slice_subrange(rest, 0, n);
    assert(head@ =~= rest@.take(first_zero(rest@, 0)));
    let text = string_from_bytes_lossy(head);
    trim_owned(text.as_str())
}

/// A ZXAY relative offset: the big-endian signed word at `field` added to
/// `field`, when the word lies within the data and the result is inside it
/// (the end included).
pub open spec fn resolve(data: Seq<u8>, field: int) -> Option<int> {
    if field + 2 > data.len() || field < 0 {
        None
    } else {
        let raw = data[field] as int * 256 + data[field + 1] as int;
        let abs = field + (if raw >= 32768 {
            raw - 65536
        } else {
            raw
        });
        if abs < 0 || abs > data.len() {
            None
        } else {
            Some(abs)
        }
    }
}

fn resolve_exec(data: &[u8], field: usize) -> (r: Option<usize>)
    ensures
        match r {
            Some(a) => resolve(data@, field as int) == Some(a as int),
            None => resolve(data@, field as int) is None,
        },
{
    if field > data.len() || data.len() - field < 2 {
        return None;
    }
    let raw: i128 = data[field] as i128 * 256 + data[field + 1] as i128;
    let rel: i128 = if raw >= 32768 {
        raw - 65536
    } else {
        raw
    };
    let abs: i128 = field as i128 + rel;
    if abs < 0 || abs > data.len() as i128 {
        None
    } else {
        Some(abs as usize)
    }
}

/// The header of a ZXAY file: whether its songs are `AMAD`, the author's
/// text (before cutting; empty when its offset is bad), where the song
/// table starts and how many songs there are.
pub open spec fn ay_header(data: Seq<u8>) -> Result<(bool, Seq<char>, int, int), FormatError> {
    if data.len() < 20 {
        Err(FormatError::TooShort)
    } else if data.take(4) != seq![0x5Au8, 0x58, 0x41, 0x59] {
        Err(FormatError::NotZxay)
    } else if data.subrange(4, 8) != seq![0x53u8, 0x54, 0x31, 0x31] && data.subrange(4, 8) != seq![
        0x41u8,
        0x4D,
        0x41,
        0x44,
    ] {
        Err(FormatError::UnsupportedSubFormat)
    } else {
        let author_off = match resolve(data, 12) {
            Some(a) => a,
            None => 0,
        };
        let author = if author_off < data.len() {
            cstring_at(data, author_off)
        } else {
            Seq::empty()
        };
        if data[16] == 0 {
            Err(FormatError::NoSongs)
        } else {
            match resolve(data, 18) {
                None => Err(FormatError::OffsetOutOfBounds),
                Some(base) => Ok((data.subrange(4, 8) == seq![0x41u8, 0x4D, 0x41, 0x44], author, base, data[16] as int)),
            }
        }
    }
}

/// The name of the song whose table entry is at `off`, before cutting
/// (`None` when the entry or its name offset is bad).
pub open spec fn song_name(data: Seq<u8>, off: int) -> Option<Seq<char>> {
    if off + 4 > data.len() {
        None
    } else {
        match resolve(data, off) {
            None => None,
            Some(a) => Some(if a < data.len() {
                cstring_at(data, a)
            } else {
                Seq::empty()
            }),
        }
    }
}

/// A song's name as listed: its name, empty when it cannot be read.
pub open spec fn listed_name(data: Seq<u8>, off: int) -> Seq<char> {
    match song_name(data, off) {
        Some(n) => n,
        None => Seq::empty(),
    }
}

fn bytes_are(data: &[u8], off: usize, a: u8, b: u8, c: u8, d: u8) -> (r: bool)
    requires
        off + 4 <= data@.len(),
    ensures
        r == (data@.subrange(off as int, off + 4) == seq![a, b, c, d]),
{
    let r = data[off] == a && data[off + 1] == b && data[off + 2] == c && data[off + 3] == d;
    if r {
        assert(data@.subrange(off as int, off + 4) =~= seq![a, b, c, d]);
    } else {
        assert(seq![a, b, c, d][0] == a && seq![a, b, c, d][1] == b && seq![a, b, c, d][2] == c
            && seq![a, b, c, d][3] == d);
    }
    r
}

fn read_header(data: &[u8]) -> (r: Result<(bool, String, usize, usize), FormatError>)
    ensures
        match ay_header(data@) {
            Ok((amad, author, base, n)) => r matches Ok((a2, s2, b2, n2)) && a2 == amad && s2@ == author && b2
                == base && n2 == n,
            Err(e) => r matches Err(e2) && e2 == e,
        },
        r matches Ok((_, _, b2, n2)) ==> b2 <= data@.len() && 1 <= n2 <= 255,
        r matches Ok((_, s2, _, _)) ==> encode_utf8(s2@).len() <= usize::MAX,
{
    if data.len() < 20 {
        return Err(FormatError::TooShort);
    }
    assert(data@.subrange(0, 4) =~= data@.take(4));
    if !bytes_are(data, 0, 0x5A, 0x58, 0x41, 0x59) {
        return Err(FormatError::NotZxay);
    }
    let st11 = bytes_are(data, 4, 0x53, 0x54, 0x31, 0x31);
    let amad = bytes_are(data, 4, 0x41, 0x4D, 0x41, 0x44);
    if !st11 && !amad {
        return Err(FormatError::UnsupportedSubFormat);
    }
    let author_off = match resolve_exec(data, 12) {
        Some(a) => a,
        None => 0,
    };
    let author = if author_off < data.len() {
        read_cstring(data, author_off)
    } else {
        let e = String::new();
        assert(e@ =~= Seq::<char>::empty());
        e
    };
    if data[16] == 0 {
        return Err(FormatError::NoSongs);
    }
    match resolve_exec(data, 18) {
        None => Err(FormatError::OffsetOutOfBounds),
        Some(base) => Ok((amad, author, base, data[16] as usize)),
    }
}

fn read_song_name(data: &[u8], off: usize) -> (r: Option<String>)
    ensures
        match song_name(data@, off as int) {
            Some(n) => r matches Some(s) && s@ == n,
            None => r is None,
        },
        r matches Some(s) ==> encode_utf8(s@).len() <= usize::MAX,
{
    if off > data.len() || data.len() - off < 4 {
        return None;
    }
    match resolve_exec(data, off) {
        None => None,
        Some(a) => {
            if a < data.len() {
                Some(read_cstring(data, a))
            } else {
                let e = String::new();
                assert(e@ =~= Seq::<char>::empty());
                Some(e)
            }
        },
    }
}

/// A sub-song of a ZXAY file.
pub struct SongInfo {
    /// Its name (at most 32 bytes).
    pub name: String,
    /// Whether it is a Sound Tracker song that can be read (`ST11`), not
    /// machine code (`AMAD`).
    pub is_supported: bool,
}

/// The author's name and every song's name can be cut to 32 bytes.
pub open spec fn names_cuttable(data: Seq<u8>) -> bool {
    match ay_header(data) {
        Ok((amad, author, base, n)) => cut_ok(author) && forall|i: int|
            0 <= i < n ==> #[trigger] cut_ok(listed_name(data, base + 4 * i)),
        Err(_) => true,
    }
}

/// What [`list_songs`] gives: the header's error; a refusal when a name
/// cannot be cut; or one entry per song, named by its cut name and
/// supported unless the songs are `AMAD`.
pub open spec fn list_outcome(data: Seq<u8>, r: Result<Vec<SongInfo>, FormatError>) -> bool {
    match ay_header(data) {
        Err(e) => r matches Err(e2) && e2 == e,
        Ok((amad, author, base, n)) => if !names_cuttable(data) {
            r matches Err(e2) && e2 == FormatError::NameNotCuttable
        } else {
            r matches Ok(v) && v@.len() == n && forall|i: int|
                0 <= i < n ==> is_cut((#[trigger] v@[i]).name@, listed_name(data, base + 4 * i))
                    && v@[i].is_supported == !amad
        },
    }
}

/// The sub-songs of a ZXAY file, without reading their data.
pub fn list_songs(data: &[u8]) -> (r: Result<Vec<SongInfo>, FormatError>)
    ensures
        list_outcome(data@, r),
{
    let (amad, author, base, n) = match read_header(data) {
        Ok(h) => h,
        Err(e) => {
            return Err(e);
        },
    };
    if !cut_ok_exec(&author) {
        return Err(FormatError::NameNotCuttable);
    }
    let mut songs: Vec<SongInfo> = Vec::new();
    let mut i: usize = 0;
    while i < n
        invariant
            i <= n <= 255,
            base <= data@.len(),
            ay_header(data@) matches Ok((a0, au, b0, n0)) && a0 == amad && b0 == base && n0 == n
                && cut_ok(au),
            songs@.len() == i,
            forall|q: int|
                0 <= q < i ==> is_cut((#[trigger] songs@[q]).name@, listed_name(data@, base + 4 * q))
                    && songs@[q].is_supported == !amad,
            forall|q: int| 0 <= q < i ==> #[trigger] cut_ok(listed_name(data@, base + 4 * q)),
        decreases n - i,
    {
        let name = match read_song_name(data, base + 4 * i) {
            Some(s) => s,
            None => {
                let e = String::new();
                assert(e@ =~= Seq::<char>::empty());
                e
            },
        };
        assert(name@ == listed_name(data@, base + 4 * i));
        if !cut_ok_exec(&name) {
            assert(!cut_ok(listed_name(data@, base + 4 * (i as int))));
            return Err(FormatError::NameNotCuttable);
        }
        songs.push(SongInfo { name: cut32(name), is_supported: !amad });
        i = i + 1;
    }
    assert(names_cuttable(data@));
    Ok(songs)
}


/// Where song `idx`'s Sound Tracker 1 data lies: from 8 bytes past its
/// data offset, cut to the header and a whole number of patterns.
pub open spec fn ay_song_data(data: Seq<u8>, idx: int) -> Result<Seq<u8>, FormatError> {
    match ay_header(data) {
        Err(e) => Err(e),
        Ok((amad, author, base, n)) => if idx >= n {
            Err(FormatError::SongIndexOutOfRange { index: idx as usize, count: n as usize })
        } else if amad {
            Err(FormatError::AmadNotSupported)
        } else {
            match resolve(data, base + 4 * idx + 2) {
                None => Err(FormatError::OffsetOutOfBounds),
                Some(a) => if a + 8 > data.len() {
                    Err(FormatError::SongDataBeyondFile)
                } else {
                    let raw = data.subrange(a + 8, data.len() as int);
                    if raw.len() < ST1_MIN_VALID {
                        Err(FormatError::SongDataTooSmall)
                    } else {
                        Ok(raw.take(ST1_PAT_BASE + ((raw.len() - ST1_PAT_BASE) / (ST1_PAT_SIZE as int)) * (
                        ST1_PAT_SIZE as int)))
                    }
                },
            }
        },
    }
}

/// The signature a Pro Tracker 3 module starts with at `o`: `ProTracker 3.`
/// or `Vortex Tracker II`.
pub open spec fn pt3_sig_at(data: Seq<u8>, o: int) -> bool {
    ||| o + 13 <= data.len() && data.subrange(o, o + 13) == seq![
        0x50u8, 0x72, 0x6F, 0x54, 0x72, 0x61, 0x63, 0x6B, 0x65, 0x72, 0x20, 0x33, 0x2E,
    ]
    ||| o + 17 <= data.len() && data.subrange(o, o + 17) == seq![
        0x56u8, 0x6F, 0x72, 0x74, 0x65, 0x78, 0x20, 0x54, 0x72, 0x61, 0x63, 0x6B, 0x65, 0x72, 0x20, 0x49, 0x49,
    ]
}

/// The signature a compiled Sound Tracker Pro module carries 10 bytes after
/// its start `o`: `KSA SOFTWARE COMPILER V2.0  `.
pub open spec fn stp_sig_at(data: Seq<u8>, o: int) -> bool {
    0 <= o && o + 38 <= data.len() && data.subrange(o + 10, o + 38) == crate::formats::stp::ksa_id()
}

/// The first position from `o` on where a Pro Tracker 3 or a compiled Sound
/// Tracker Pro module starts.
pub open spec fn module_sig_from(data: Seq<u8>, o: int) -> Option<int>
    decreases data.len() - o,
{
    if o < 0 || o >= data.len() {
        None
    } else if pt3_sig_at(data, o) || stp_sig_at(data, o) {
        Some(o)
    } else {
        module_sig_from(data, o + 1)
    }
}

/// What reading an `EMUL` file gives: the first Pro Tracker 3 or Sound
/// Tracker Pro module embedded in it (see [`module_sig_from`]), read by its
/// reader; refused when there is none or the STP reader cannot read it.
pub open spec fn emul_outcome(data: Seq<u8>, r: Result<Module, FormatError>) -> bool {
    match module_sig_from(data, 0) {
        Some(o) => {
            let rest = data.subrange(o, data.len() as int);
            if pt3_sig_at(data, o) {
                crate::formats::pt3::parse_outcome(rest, r)
            } else if crate::formats::stp::parse_defined(rest) {
                crate::formats::stp::parse_outcome(rest, r)
            } else {
                r == Err::<Module, FormatError>(FormatError::EmulNotSupported)
            }
        },
        None => r == Err::<Module, FormatError>(FormatError::EmulNotSupported),
    }
}

/// A ZXAY file of type `EMUL`: its songs are machine-code players.
pub open spec fn is_emul(data: Seq<u8>) -> bool {
    data.len() >= 20 && data.take(4) == seq![0x5Au8, 0x58, 0x41, 0x59] && data.subrange(4, 8) == seq![
        0x45u8,
        0x4D,
        0x55,
        0x4C,
    ]
}

/// What [`parse`] gives for song `idx`.  An `EMUL` file is read as the first
/// Pro Tracker 3 or Sound Tracker Pro module embedded in it (see
/// [`emul_outcome`]).
/// Otherwise: the header's error; a refusal when the author's or the song's
/// name cannot be cut; the errors on the way to the song's data, the
/// conversion's and the STC reader's errors; otherwise the module the STC
/// reader reads from the converted song, named by the song's cut name and
/// the author's when they are not empty.
pub open spec fn parse_outcome(data: Seq<u8>, idx: int, r: Result<Module, FormatError>) -> bool {
    if is_emul(data) {
        emul_outcome(data, r)
    } else {
        match ay_header(data) {
            Err(e) => r == Err::<Module, FormatError>(e),
            Ok((amad, author, base, n)) => if !cut_ok(author) {
                r == Err::<Module, FormatError>(FormatError::NameNotCuttable)
            } else if idx >= n {
                r == Err::<Module, FormatError>(
                    FormatError::SongIndexOutOfRange { index: idx as usize, count: n as usize },
                )
            } else if !cut_ok(listed_name(data, base + 4 * idx)) {
                r == Err::<Module, FormatError>(FormatError::NameNotCuttable)
            } else {
                match ay_song_data(data, idx) {
                    Err(e) => r == Err::<Module, FormatError>(e),
                    Ok(st1) => match st1_stc(st1) {
                        Err(e) => r == Err::<Module, FormatError>(FormatError::St1(e)),
                        Ok(bytes) => match stc::stc_error(bytes) {
                            Some(e) => r == Err::<Module, FormatError>(e),
                            None => {
                                let name = listed_name(data, base + 4 * idx);
                                &&& bytes.len() >= stc::STC_MIN_FILE_SIZE
                                &&& r matches Ok(m)
                                &&& stc::stc_module_body(bytes, m)
                                &&& if name.len() > 0 {
                                    is_cut(m.title@, name)
                                } else {
                                    m.title@ == stc::stc_title(bytes)
                                }
                                &&& if author.len() > 0 {
                                    is_cut(m.author@, author)
                                } else {
                                    m.author@ == Seq::<char>::empty()
                                }
                            },
                        },
                    },
                }
            },
        }
    }
}

fn cut_ok_exec(s: &String) -> (r: bool)
    requires
        encode_utf8(s@).len() <= usize::MAX,
    ensures
        r == cut_ok(s@),
{
    let st = s.as_str();
    st.len() <= 32 || st.is_char_boundary(32)
}

/// A cut name is empty exactly when the name is.
proof fn lemma_cut_empty(r: Seq<char>, s: Seq<char>)
    requires
        is_cut(r, s),
    ensures
        (r.len() == 0) == (s.len() == 0),
{
    if s.len() > 0 {
        assert(encode_utf8(s).len() > 0);
        if r.len() == 0 {
            assert(encode_utf8(r).len() == 0);
        }
    }
    if r.len() > 0 {
        assert(encode_utf8(r).len() > 0);
    }
}

/// The converted STC file is at least as long as the STC header and a
/// sample.
proof fn lemma_stc_len(data: Seq<u8>, u: St1Used, codes: Seq<u8>, table: Seq<St1Entry>)
    ensures
        assemble(data, u, codes, table).len() >= stc::STC_MIN_FILE_SIZE,
{
}

/// Song `idx`'s data converted to STC, once the header is read.
fn song_stc(data: &[u8], idx: usize, base: usize, n: usize, amad: bool) -> (r: Result<Vec<u8>, FormatError>)
    requires
        data@.len() <= isize::MAX,
        base <= data@.len(),
        idx < n,
        ay_header(data@) matches Ok((a0, _, b0, n0)) && a0 == amad && b0 == base && n0 == n,
    ensures
        match ay_song_data(data@, idx as int) {
            Err(e) => r == Err::<Vec<u8>, FormatError>(e),
            Ok(st1) => match st1_stc(st1) {
                Err(e) => r == Err::<Vec<u8>, FormatError>(FormatError::St1(e)),
                Ok(b) => r matches Ok(v) && v@ == b && v@.len() <= 100000 && b.len() >= stc::STC_MIN_FILE_SIZE,
            },
        },
{
    if amad {
        return Err(FormatError::AmadNotSupported);
    }
    let off = base + 4 * idx;
    let a = match resolve_exec(data, off + 2) {
        Some(a) => a,
        None => {
            return Err(FormatError::OffsetOutOfBounds);
        },
    };
    if a + 8 > data.len() {
        return Err(FormatError::SongDataBeyondFile);
    }
    let raw = vstd::slice::slice_subrange(data, a + 8, data.len());
    if raw.len() < ST1_MIN_VALID {
        return Err(FormatError::SongDataTooSmall);
    }
    let st1_len = ST1_PAT_BASE + ((raw.len() - ST1_PAT_BASE) / ST1_PAT_SIZE) * ST1_PAT_SIZE;
    let st1 = vstd::slice::slice_subrange(raw, 0, st1_len);
    assert(st1@ =~= raw@.take(st1_len as int));
    match st1_to_stc(st1) {
        Ok(b) => {
            proof {
                let (pl, used, k) = st1_check(st1@)->Ok_0;
                let (codes, table, u) = codes_fold(st1@, pl, used, k, 0, 0, used0(), Seq::empty(), Seq::empty())->Ok_0;
                lemma_stc_len(st1@, u, codes, table);
            }
            Ok(b)
        },
        Err(e) => Err(FormatError::St1(e)),
    }
}

fn sig_at_exec(data: &[u8], o: usize) -> (r: bool)
    requires
        o < data@.len() <= isize::MAX,
    ensures
        r == pt3_sig_at(data@, o as int),
{
    let pt = [0x50u8, 0x72, 0x6F, 0x54, 0x72, 0x61, 0x63, 0x6B, 0x65, 0x72, 0x20, 0x33, 0x2E];
    let vt = [0x56u8, 0x6F, 0x72, 0x74, 0x65, 0x78, 0x20, 0x54, 0x72, 0x61, 0x63, 0x6B, 0x65, 0x72, 0x20, 0x49, 0x49];
    let a = data.len() - o >= 13 && bytes_match(data, o, &pt);
    let b = data.len() - o >= 17 && bytes_match(data, o, &vt);
    proof {
        assert(pt@ =~= seq![0x50u8, 0x72, 0x6F, 0x54, 0x72, 0x61, 0x63, 0x6B, 0x65, 0x72, 0x20, 0x33, 0x2E]);
        assert(vt@ =~= seq![
            0x56u8, 0x6F, 0x72, 0x74, 0x65, 0x78, 0x20, 0x54, 0x72, 0x61, 0x63, 0x6B, 0x65, 0x72, 0x20, 0x49, 0x49,
        ]);
    }
    a || b
}

/// Whether `data[o..]` starts with `pat`.
fn bytes_match(data: &[u8], o: usize, pat: &[u8]) -> (r: bool)
    requires
        o + pat@.len() <= data@.len() <= isize::MAX,
    ensures
        r == (data@.subrange(o as int, o + pat@.len()) == pat@),
{
    let mut k: usize = 0;
    while k < pat.len()
        invariant
            k <= pat@.len(),
            o + pat@.len() <= data@.len() <= isize::MAX,
            forall|q: int| 0 <= q < k ==> data@[o + q] == #[trigger] pat@[q],
        decreases pat.len() - k,
    {
        assert(o + k < data@.len());
        if data[o + k] != pat[k] {
            assert(data@.subrange(o as int, o + pat@.len())[k as int] != pat@[k as int]);
            return false;
        }
        k = k + 1;
    }
    assert(data@.subrange(o as int, o + pat@.len()) =~= pat@);
    true
}

fn stp_sig_exec(data: &[u8], o: usize) -> (r: bool)
    requires
        o < data@.len() <= isize::MAX,
    ensures
        r == stp_sig_at(data@, o as int),
{
    let id: [u8; 28] = [
        0x4B, 0x53, 0x41, 0x20, 0x53, 0x4F, 0x46, 0x54, 0x57, 0x41, 0x52, 0x45, 0x20, 0x43, 0x4F, 0x4D, 0x50,
        0x49, 0x4C, 0x45, 0x52, 0x20, 0x56, 0x32, 0x2E, 0x30, 0x20, 0x20,
    ];
    assert(id@ =~= crate::formats::stp::ksa_id());
    data.len() - o >= 38 && bytes_match(data, o + 10, &id)
}

/// Read an `EMUL` file: the first Pro Tracker 3 or Sound Tracker Pro module
/// embedded in it.
fn parse_emul(data: &[u8]) -> (r: Result<Module, FormatError>)
    requires
        data@.len() <= isize::MAX,
    ensures
        emul_outcome(data@, r),
{
    let mut o: usize = 0;
    while o < data.len()
        invariant
            o <= data@.len() <= isize::MAX,
            module_sig_from(data@, o as int) == module_sig_from(data@, 0),
        decreases data.len() - o,
    {
        let pt3 = sig_at_exec(data, o);
        if pt3 || stp_sig_exec(data, o) {
            let rest = vstd::slice::slice_subrange(data, o, data.len());
            if pt3 {
                return crate::formats::pt3::parse(rest);
            }
            if crate::formats::stp::readable(rest) {
                return crate::formats::stp::parse(rest);
            }
            return Err(FormatError::EmulNotSupported);
        }
        o = o + 1;
    }
    Err(FormatError::EmulNotSupported)
}

/// Read song `idx` (from 0) of a ZXAY file (see [`parse_outcome`]).
pub fn parse(data: &[u8], song_index: usize) -> (r: Result<Module, FormatError>)
    requires
        data@.len() <= isize::MAX,
    ensures
        parse_outcome(data@, song_index as int, r),
{
    let idx = song_index;
    if data.len() >= 20 && bytes_are(data, 0, 0x5A, 0x58, 0x41, 0x59) && bytes_are(data, 4, 0x45, 0x4D, 0x55, 0x4C) {
        assert(data@.take(4) =~= data@.subrange(0, 4));
        return parse_emul(data);
    }
    proof {
        if data@.len() >= 20 {
            assert(data@.take(4) =~= data@.subrange(0, 4));
        }
    }
    let (amad, author, base, n) = match read_header(data) {
        Ok(h) => h,
        Err(e) => {
            return Err(e);
        },
    };
    if !cut_ok_exec(&author) {
        return Err(FormatError::NameNotCuttable);
    }
    if idx >= n {
        return Err(FormatError::SongIndexOutOfRange { index: idx, count: n });
    }
    let off = base + 4 * idx;
    let name = match read_song_name(data, off) {
        Some(s) => s,
        None => {
            let e = String::new();
            assert(e@ =~= Seq::<char>::empty());
            e
        },
    };
    assert(name@ == listed_name(data@, off as int));
    if !cut_ok_exec(&name) {
        return Err(FormatError::NameNotCuttable);
    }
    let song_name = cut32(name);
    let author = cut32(author);
    let bytes = match song_stc(data, idx, base, n, amad) {
        Ok(b) => b,
        Err(e) => {
            return Err(e);
        },
    };
    let mut module = match stc::parse(bytes.as_slice()) {
        Ok(m) => m,
        Err(e) => {
            return Err(e);
        },
    };
    proof {
        lemma_cut_empty(song_name@, listed_name(data@, off as int));
        lemma_cut_empty(author@, ay_header(data@)->Ok_0.1);
    }
    if !song_name.as_str().is_empty() {
        module.title = song_name;
    }
    if !author.as_str().is_empty() {
        module.author = author;
    }
    Ok(module)
}

} // verus!
