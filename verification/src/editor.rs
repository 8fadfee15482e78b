//! Editor logic: note key mapping and hex digit entry, free of any UI.
//!
//! The keyboard layout is the default two-row tracker piano layout.
use vstd::prelude::*;

verus! {

/// Result of pressing a key in the note-entry field.
#[derive(Debug, Clone, Copy, PartialEq, Eq, Structural)]
pub enum NoteKeyResult {
    /// A specific absolute note value (0..=95).
    Note(i8),
    /// Note-off / sound-off sentinel ("R--").
    SoundOff,
    /// Clear the entire channel cell.
    ClearCell,
}

/// The default piano layout: which semitone offset each key plays.
pub open spec fn key_offset(ch: char) -> Option<i8> {
    match ch {
        'z' => Some(0i8),
        's' => Some(1i8),
        'x' => Some(2i8),
        'd' => Some(3i8),
        'c' => Some(4i8),
        'v' => Some(5i8),
        'g' => Some(6i8),
        'b' => Some(7i8),
        'h' => Some(8i8),
        'n' => Some(9i8),
        'j' => Some(10i8),
        'm' => Some(11i8),
        ',' => Some(12i8),
        'l' => Some(13i8),
        '.' => Some(14i8),
        ';' => Some(15i8),
        '/' => Some(16i8),
        'q' => Some(12i8),
        '2' => Some(13i8),
        'w' => Some(14i8),
        '3' => Some(15i8),
        'e' => Some(16i8),
        'r' => Some(17i8),
        '5' => Some(18i8),
        't' => Some(19i8),
        '6' => Some(20i8),
        'y' => Some(21i8),
        '7' => Some(22i8),
        'u' => Some(23i8),
        'i' => Some(24i8),
        '9' => Some(25i8),
        'o' => Some(26i8),
        '0' => Some(27i8),
        'p' => Some(28i8),
        '[' => Some(29i8),
        '=' => Some(30i8),
        ']' => Some(31i8),
        _ => None,
    }
}

/// Absolute note for a semitone offset played in `octave`, when it lies in 0..=95.
pub open spec fn spec_compute_note(semitone_offset: i8, octave: u8) -> Option<i8> {
    let note = semitone_offset as int + (octave as int - 1) * 12;
    if 0 <= note <= 95 {
        Some(note as i8)
    } else {
        None
    }
}

/// What a key press in the note field means.
pub open spec fn spec_note_key_result(ch: char, octave: u8) -> Option<NoteKeyResult> {
    if ch == 'a' {
        Some(NoteKeyResult::SoundOff)
    } else if ch == 'k' {
        Some(NoteKeyResult::ClearCell)
    } else {
        match key_offset(ch) {
            Some(off) => match spec_compute_note(off, octave) {
                Some(n) => Some(NoteKeyResult::Note(n)),
                None => None,
            },
            None => None,
        }
    }
}

/// Value of a field after typing hex digit `digit` into it.
pub open spec fn spec_hex_digit_entry(old: u8, digit: u8, max: u8) -> u8 {
    if max <= 15 {
        if digit < max {
            digit
        } else {
            max
        }
    } else {
        let v = (old % 16) * 16 + digit;
        if v < max {
            v as u8
        } else {
            max
        }
    }
}

/// Map a (lowercase) key character to a semitone offset within the
/// two-row tracker piano layout.
///
/// Returns `Some(offset)` where `offset` is 0..=31 (C up through G two
/// octaves above), or `None` if the key is not a note key.
pub fn piano_key_to_semitone_offset(ch: char) -> (r: Option<i8>)
    ensures
        r == key_offset(ch),
        r matches Some(o) ==> 0 <= o <= 31,
{
    match ch {
        'z' => Some(0),
        's' => Some(1),
        'x' => Some(2),
        'd' => Some(3),
        'c' => Some(4),
        'v' => Some(5),
        'g' => Some(6),
        'b' => Some(7),
        'h' => Some(8),
        'n' => Some(9),
        'j' => Some(10),
        'm' => Some(11),
        ',' => Some(12),
        'l' => Some(13),
        '.' => Some(14),
        ';' => Some(15),
        '/' => Some(16),
        'q' => Some(12),
        '2' => Some(13),
        'w' => Some(14),
        '3' => Some(15),
        'e' => Some(16),
        'r' => Some(17),
        '5' => Some(18),
        't' => Some(19),
        '6' => Some(20),
        'y' => Some(21),
        '7' => Some(22),
        'u' => Some(23),
        'i' => Some(24),
        '9' => Some(25),
        'o' => Some(26),
        '0' => Some(27),
        'p' => Some(28),
        '[' => Some(29),
        '=' => Some(30),
        ']' => Some(31),
        _ => None,
    }
}

/// Compute the absolute note value (0..=95) from a semitone offset and octave.
///
/// Returns `None` if the resulting note is outside the valid range.
pub fn compute_note(semitone_offset: i8, octave: u8) -> (r: Option<i8>)
    ensures
        r == spec_compute_note(semitone_offset, octave),
{
    let note: i32 = semitone_offset as i32 + (octave as i32 - 1) * 12;
    if 0 <= note && note <= 95 {
        Some(note as i8)
    } else {
        None
    }
}

/// Resolve a (lowercase) key character and octave into a [`NoteKeyResult`]:
/// `'a'` gives the sound-off, `'k'` clears the cell, a note key gives the
/// note in `octave`, and anything else gives `None`.
pub fn note_key_result(ch: char, octave: u8) -> (r: Option<NoteKeyResult>)
    ensures
        r == spec_note_key_result(ch, octave),
{
    if ch == 'a' {
        return Some(NoteKeyResult::SoundOff);
    }
    if ch == 'k' {
        return Some(NoteKeyResult::ClearCell);
    }
    match piano_key_to_semitone_offset(ch) {
        Some(offset) => match compute_note(offset, octave) {
            Some(n) => Some(NoteKeyResult::Note(n)),
            None => None,
        },
        None => None,
    }
}

/// Hex digit entry into a tracker field with the shift-insert convention.
///
/// - Single-digit fields (`max <= 0x0F`): the digit replaces the value,
///   clamped to `max`.
/// - Two-digit fields (`max > 0x0F`): the old low nibble moves to the high
///   nibble, the digit becomes the low nibble, and the result is clamped to
///   `max` (typing `1` then `5` gives `0x15`).
///
/// `digit` must be in `0..=15`.
pub fn hex_digit_entry(old: u8, digit: u8, max: u8) -> (r: u8)
    requires
        digit <= 15,
    ensures
        r == spec_hex_digit_entry(old, digit, max),
        r <= max,
{
    if max <= 0x0F {
        if digit < max {
            digit
        } else {
            max
        }
    } else {
        let v: u8 = ((old & 0x0F) << 4) | (digit & 0x0F);
        assert(v == (old % 16) * 16 + digit) by (bit_vector)
            requires
                v == ((old & 0x0F) << 4) | (digit & 0x0F),
                digit <= 15,
        ;
        if v < max {
            v
        } else {
            max
        }
    }
}

/// A note key always yields a note in 0..=95 whenever it yields a note at all,
/// and the octave shifts the note by whole octaves.
pub proof fn lemma_note_key_in_range(ch: char, octave: u8)
    ensures
        spec_note_key_result(ch, octave) matches Some(NoteKeyResult::Note(n)) ==> 0 <= n <= 95,
        (key_offset(ch) is Some && 1 <= octave && octave < 8 && key_offset(ch)->0 < 12)
            ==> spec_note_key_result(ch, octave) == Some(
            NoteKeyResult::Note((key_offset(ch)->0 + (octave - 1) * 12) as i8),
        ),
{
}

} // verus!
