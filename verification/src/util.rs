//! Text helpers: zero-padded decimal and hex fields, times and note names.
use vstd::prelude::*;

verus! {

/// Character of a digit value 0..=15 (upper-case hex letters).
pub open spec fn digit_char(d: nat) -> char {
    if d < 10 {
        (48 + d) as char
    } else {
        (55 + d) as char
    }
}

/// Digits of `n` in `base`, most significant first, without leading zeros.
pub open spec fn digits(n: nat, base: nat) -> Seq<char>
    decreases n,
{
    if base < 2 || n < base {
        seq![digit_char(n)]
    } else {
        proof {
            assert(n / base < n) by (nonlinear_arith)
                requires
                    n >= base,
                    base >= 2,
            ;
        }
        digits(n / base, base).push(digit_char(n % base))
    }
}

/// `k` copies of `c`.
pub open spec fn repeat_char(c: char, k: int) -> Seq<char> {
    Seq::new(if k > 0 {
        k as nat
    } else {
        0
    }, |i: int| c)
}

/// `s` left-padded with `c` to at least `width` characters.
pub open spec fn pad_left(s: Seq<char>, width: int, c: char) -> Seq<char> {
    repeat_char(c, width - s.len()) + s
}

/// Integer division rounding toward zero, as the CPU divides.
pub open spec fn tdiv(a: int, b: int) -> int {
    if a >= 0 {
        a / b
    } else {
        -((-a) / b)
    }
}

/// Remainder of `tdiv` (takes the sign of `a`).
pub open spec fn trem(a: int, b: int) -> int {
    a - tdiv(a, b) * b
}

/// Decimal text of `i` with a leading `-` when negative.
pub open spec fn dec(i: int) -> Seq<char> {
    if i < 0 {
        seq!['-'] + digits((-i) as nat, 10)
    } else {
        digits(i as nat, 10)
    }
}

/// Decimal text of `i` zero-padded to `width` characters, the sign counted
/// in the width and placed before the zeros.
pub open spec fn dec_padded(i: int, width: int) -> Seq<char> {
    if i < 0 {
        seq!['-'] + pad_left(digits((-i) as nat, 10), width - 1, '0')
    } else {
        pad_left(digits(i as nat, 10), width, '0')
    }
}

/// Upper-case hex text of the 32-bit pattern of `i`, zero-padded to `width`.
pub open spec fn hex_padded(i: i32, width: int) -> Seq<char> {
    pad_left(digits(i as u32 as nat, 16), width, '0')
}

/// Appends `c` (std `String::push`).
#[verifier::external_body]
pub(crate) fn push_char(s: &mut String, c: char)
    ensures
        final(s)@ == old(s)@.push(c),
{
    s.push(c);
}

fn digit_to_char(d: u32) -> (c: char)
    requires
        d < 16,
    ensures
        c == digit_char(d as nat),
{
    if d < 10 {
        ((48 + d) as u8) as char
    } else {
        ((55 + d) as u8) as char
    }
}

/// Appends the digits of `n` in `base`.
pub(crate) fn push_digits(s: &mut String, n: u32, base: u32)
    requires
        2 <= base <= 16,
    ensures
        final(s)@ == old(s)@ + digits(n as nat, base as nat),
    decreases n,
{
    if n >= base {
        assert(n / base < n) by (nonlinear_arith)
            requires
                n >= base,
                base >= 2,
        ;
        push_digits(s, n / base, base);
        push_char(s, digit_to_char(n % base));
        assert(final(s)@ =~= old(s)@ + digits(n as nat, base as nat));
    } else {
        push_char(s, digit_to_char(n));
        assert(final(s)@ =~= old(s)@ + digits(n as nat, base as nat));
    }
}

/// Appends the decimal digits of `n`.
pub(crate) fn push_dec_usize(s: &mut String, n: usize)
    ensures
        final(s)@ == old(s)@ + digits(n as nat, 10),
    decreases n,
{
    if n >= 10 {
        push_dec_usize(s, n / 10);
        push_char(s, digit_to_char((n % 10) as u32));
        assert(final(s)@ =~= old(s)@ + digits(n as nat, 10));
    } else {
        push_char(s, digit_to_char(n as u32));
        assert(final(s)@ =~= old(s)@ + digits(n as nat, 10));
    }
}

/// Appends the digits of `n` in `base`, zero-padded to `width` characters.
pub(crate) fn push_padded(s: &mut String, n: u32, base: u32, width: usize)
    requires
        2 <= base <= 16,
    ensures
        final(s)@ == old(s)@ + pad_left(digits(n as nat, base as nat), width as int, '0'),
{
    let mut d = String::new();
    push_digits(&mut d, n, base);
    assert(d@ =~= digits(n as nat, base as nat));
    let k = d.as_str().unicode_len();
    let mut i: usize = 0;
    while k < width && i < width - k
        invariant
            k == d@.len(),
            k < width ==> i <= width - k,
            k >= width ==> i == 0,
            s@ == old(s)@ + repeat_char('0', i as int),
        decreases width - i,
    {
        push_char(s, '0');
        i = i + 1;
        assert(s@ =~= old(s)@ + repeat_char('0', i as int));
    }
    assert(repeat_char('0', i as int) =~= repeat_char('0', width as int - d@.len()));
    s.append(d.as_str());
    assert(s@ =~= old(s)@ + pad_left(digits(n as nat, base as nat), width as int, '0'));
}

/// Name of semitone `k` (0..=11) within an octave: two characters, `-`
/// for a natural and `#` for a sharp.
pub open spec fn note_name(k: int) -> Seq<char> {
    if k == 0 {
        seq!['C', '-']
    } else if k == 1 {
        seq!['C', '#']
    } else if k == 2 {
        seq!['D', '-']
    } else if k == 3 {
        seq!['D', '#']
    } else if k == 4 {
        seq!['E', '-']
    } else if k == 5 {
        seq!['F', '-']
    } else if k == 6 {
        seq!['F', '#']
    } else if k == 7 {
        seq!['G', '-']
    } else if k == 8 {
        seq!['G', '#']
    } else if k == 9 {
        seq!['A', '-']
    } else if k == 10 {
        seq!['A', '#']
    } else {
        seq!['B', '-']
    }
}

/// Display text of a pattern note: `R--` for the sound-off, `---` for no
/// note, else the note name followed by the octave number (note 0 is `C-1`).
pub open spec fn spec_note_to_str(note: i8) -> Seq<char> {
    if note == -2 {
        seq!['R', '-', '-']
    } else if note < 0 {
        seq!['-', '-', '-']
    } else {
        note_name(note as int % 12) + digits((note as int / 12 + 1) as nat, 10)
    }
}

/// Note names, C through B (one octave).
pub const NOTE_NAMES: [&'static str; 12] = [
    "C-", "C#", "D-", "D#", "E-", "F-", "F#", "G-", "G#", "A-", "A#", "B-",
];

/// Quotient and remainder of `a / b` rounded toward zero.
fn div_rem_toward_zero(a: i32, b: i32) -> (r: (i32, i32))
    requires
        b > 0,
    ensures
        r.0 == tdiv(a as int, b as int),
        r.1 == trem(a as int, b as int),
{
    let wide: i64 = a as i64;
    let m: u64 = if wide < 0 {
        (-wide) as u64
    } else {
        wide as u64
    };
    let q: u64 = m / (b as u64);
    assert(q <= m) by (nonlinear_arith)
        requires
            q == m / (b as u64),
            b > 0,
    ;
    assert(q * b <= m) by (nonlinear_arith)
        requires
            q == m / (b as u64),
            b > 0,
    ;
    let qi: i64 = if wide < 0 {
        -(q as i64)
    } else {
        q as i64
    };
    let rm: u64 = m % (b as u64);
    assert(m == q * b + rm && rm < b) by (nonlinear_arith)
        requires
            q == m / (b as u64),
            rm == m % (b as u64),
            b > 0,
    ;
    let ri: i64 = if wide < 0 {
        -(rm as i64)
    } else {
        rm as i64
    };
    assert((-(q as int)) * (b as int) == -((q as int) * (b as int))) by (nonlinear_arith);
    (qi as i32, ri as i32)
}

/// Appends the decimal text of `v` zero-padded to `width` characters.
fn push_dec_padded(s: &mut String, v: i32, width: usize)
    requires
        width >= 1,
    ensures
        final(s)@ == old(s)@ + dec_padded(v as int, width as int),
{
    if v < 0 {
        push_char(s, '-');
        let m: u32 = (-(v as i64)) as u32;
        push_padded(s, m, 10, width - 1);
        assert(s@ =~= old(s)@ + dec_padded(v as int, width as int));
    } else {
        push_padded(s, v as u32, 10, width);
    }
}

/// Two-digit zero-padded decimal text of `i` (`3` gives `"03"`).
pub fn int2_to_str(i: i32) -> (r: String)
    ensures
        r@ == dec_padded(i as int, 2),
{
    let mut s = String::new();
    push_dec_padded(&mut s, i, 2);
    assert(s@ =~= dec_padded(i as int, 2));
    s
}

/// A signed tenths value as `units.tenths` (`32` gives `"3.2"`, `-15` gives
/// `"-1.5"`, `-5` gives `"-0.5"`): a minus sign for negative values, then the
/// magnitude's units and tenths.
pub fn int1d_to_str(i: i32) -> (r: String)
    requires
        i != i32::MIN,
    ensures
        r@ == (if i < 0 {
            seq!['-']
        } else {
            Seq::<char>::empty()
        }) + digits(((if i < 0 {
            -i
        } else {
            i as int
        }) / 10) as nat, 10) + seq!['.'] + digits((if i < 0 {
            -i
        } else {
            i as int
        }) as nat % 10, 10),
{
    let a: u32 = if i < 0 {
        (-(i as i64)) as u32
    } else {
        i as u32
    };
    let mut s = String::new();
    if i < 0 {
        push_char(&mut s, '-');
    }
    push_digits(&mut s, a / 10, 10);
    push_char(&mut s, '.');
    push_digits(&mut s, a % 10, 10);
    assert(s@ =~= (if i < 0 {
        seq!['-']
    } else {
        Seq::<char>::empty()
    }) + digits(((if i < 0 {
        -i
    } else {
        i as int
    }) / 10) as nat, 10) + seq!['.'] + digits((if i < 0 {
        -i
    } else {
        i as int
    }) as nat % 10, 10));
    s
}

/// A sample number as two upper-case hex digits (`31` gives `"1F"`).
pub fn samp_to_str(i: i32) -> (r: String)
    ensures
        r@ == hex_padded(i, 2),
{
    let mut s = String::new();
    push_padded(&mut s, i as u32, 16, 2);
    assert(s@ =~= hex_padded(i, 2));
    s
}

/// Four upper-case hex digits, zero-padded (`0xC22` gives `"0C22"`).
pub fn int4d_to_str(i: i32) -> (r: String)
    ensures
        r@ == hex_padded(i, 4),
{
    let mut s = String::new();
    push_padded(&mut s, i as u32, 16, 4);
    assert(s@ =~= hex_padded(i, 4));
    s
}

/// Two upper-case hex digits, zero-padded (`10` gives `"0A"`).
pub fn int2d_to_str(i: i32) -> (r: String)
    ensures
        r@ == hex_padded(i, 2),
{
    let mut s = String::new();
    push_padded(&mut s, i as u32, 16, 2);
    assert(s@ =~= hex_padded(i, 2));
    s
}

/// Play time of `ticks` 50 Hz interrupts as `MM:SS`.
pub fn ints_to_time(ticks: i32) -> (r: String)
    ensures
        r@ == dec_padded(tdiv(tdiv(ticks as int, 50), 60), 2) + seq![':'] + dec_padded(
            trem(tdiv(ticks as int, 50), 60),
            2,
        ),
{
    let (secs, _r) = div_rem_toward_zero(ticks, 50);
    let (mins, rest) = div_rem_toward_zero(secs, 60);
    let mut s = String::new();
    push_dec_padded(&mut s, mins, 2);
    push_char(&mut s, ':');
    push_dec_padded(&mut s, rest, 2);
    assert(s@ =~= dec_padded(tdiv(tdiv(ticks as int, 50), 60), 2) + seq![':'] + dec_padded(
        trem(tdiv(ticks as int, 50), 60),
        2,
    ));
    s
}

/// Display text of a pattern note (`0` gives `"C-1"`, `95` gives `"B-8"`,
/// the sound-off gives `"R--"` and no note gives `"---"`).
pub fn note_to_str(note: i8) -> (r: String)
    ensures
        r@ == spec_note_to_str(note),
{
    let mut s = String::new();
    if note == -2 {
        push_char(&mut s, 'R');
        push_char(&mut s, '-');
        push_char(&mut s, '-');
        assert(s@ =~= spec_note_to_str(note));
        return s;
    }
    if note < 0 {
        push_char(&mut s, '-');
        push_char(&mut s, '-');
        push_char(&mut s, '-');
        assert(s@ =~= spec_note_to_str(note));
        return s;
    }
    let k = note % 12;
    let (a, b): (char, char) = if k == 0 {
        ('C', '-')
    } else if k == 1 {
        ('C', '#')
    } else if k == 2 {
        ('D', '-')
    } else if k == 3 {
        ('D', '#')
    } else if k == 4 {
        ('E', '-')
    } else if k == 5 {
        ('F', '-')
    } else if k == 6 {
        ('F', '#')
    } else if k == 7 {
        ('G', '-')
    } else if k == 8 {
        ('G', '#')
    } else if k == 9 {
        ('A', '-')
    } else if k == 10 {
        ('A', '#')
    } else {
        ('B', '-')
    };
    push_char(&mut s, a);
    push_char(&mut s, b);
    push_digits(&mut s, (note / 12 + 1) as u32, 10);
    assert(s@ =~= spec_note_to_str(note));
    s
}

proof fn lemma_note_text_shape(n: i8)
    requires
        0 <= n <= 95,
    ensures
        spec_note_to_str(n) == note_name(n as int % 12) + seq![digit_char((n as int / 12 + 1) as nat)],
        spec_note_to_str(n).len() == 3,
{
    let d = (n as int / 12 + 1) as nat;
    assert(d < 10);
    assert(digits(d, 10) == seq![digit_char(d)]);
}

/// Different notes (and the sound-off and empty markers, -2 and -1) never
/// share a display text: a note's text is its name and a one-digit octave
/// 1..8, unlike `R--` and `---`.
pub proof fn lemma_note_text_injective(a: i8, b: i8)
    requires
        -2 <= a <= 95,
        -2 <= b <= 95,
        spec_note_to_str(a) == spec_note_to_str(b),
    ensures
        a == b,
{
    if a >= 0 {
        lemma_note_text_shape(a);
    }
    if b >= 0 {
        lemma_note_text_shape(b);
    }
    let ta = spec_note_to_str(a);
    let tb = spec_note_to_str(b);
    assert(ta[0] == tb[0] && ta[1] == tb[1] && ta[2] == tb[2]);
    if a >= 0 && b >= 0 {
        let da = a as int / 12 + 1;
        let db = b as int / 12 + 1;
        assert(ta[2] == digit_char(da as nat));
        assert(tb[2] == digit_char(db as nat));
        assert((48 + da) as char as int == 48 + da);
        assert((48 + db) as char as int == 48 + db);
        assert(da == db);
        assert(a as int % 12 == b as int % 12);
    }
}

} // verus!

