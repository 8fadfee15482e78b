//! Vortex Tracker II text modules (`*.vtm`): writer and line readers.
use crate::formats::FormatError;
use crate::types::{
    blank_tick, empty_cell, empty_row, AdditionalCommand, ChannelLine, FeaturesLevel, Module, Ornament,
    Pattern, PatternRow, PositionList, Sample, SampleTick, MAX_PAT_NUM, NOTE_NONE, NOTE_SOUND_OFF,
};
use crate::util::{
    dec, digit_char, digits, pad_left, push_char, push_dec_usize, push_digits, push_padded, repeat_char,
};
pub use crate::formats::vtm_read::{parse, readable};
use vstd::prelude::*;
use vstd::string::StringSliceAdditionalSpecFns;

verus! {

// ─── Fields ──────────────────────────────────────────────────────────────────

/// A one-digit field: `.` for 0, the hex digit for 1..15, `.` past that.
pub open spec fn int1d_char(i: u8) -> char {
    if i == 0 || i > 15 {
        '.'
    } else {
        digit_char(i as nat)
    }
}

/// Field of one digit (see [`int1d_char`]).
pub fn int1d(i: u8) -> (c: char)
    ensures
        c == int1d_char(i),
{
    if i == 0 || i > 15 {
        '.'
    } else if i < 10 {
        ((48 + i) as u8) as char
    } else {
        ((55 + i) as u8) as char
    }
}

/// A sample field: `.` for 0, `1`..`9`, `A`..`V` for 10..31, `.` past that.
pub open spec fn samp_char(i: u8) -> char {
    if i == 0 || i > 31 {
        '.'
    } else if i < 10 {
        (48 + i) as char
    } else {
        (55 + i) as char
    }
}

/// Field of a sample number (see [`samp_char`]).
pub fn samp(i: u8) -> (c: char)
    ensures
        c == samp_char(i),
{
    if i == 0 || i > 31 {
        '.'
    } else if i < 10 {
        ((48 + i) as u8) as char
    } else {
        ((55 + i) as u8) as char
    }
}

/// Upper-case hex of `i` padded with dots to `width` (all dots for 0).
pub open spec fn dotted_hex(i: nat, width: int) -> Seq<char> {
    if i == 0 {
        repeat_char('.', width)
    } else {
        pad_left(digits(i, 16), width, '.')
    }
}

fn push_dotted_hex(s: &mut String, i: u32, width: usize)
    ensures
        final(s)@ == old(s)@ + dotted_hex(i as nat, width as int),
{
    if i == 0 {
        let mut k: usize = 0;
        while k < width
            invariant
                k <= width,
                s@ == old(s)@ + repeat_char('.', k as int),
            decreases width - k,
        {
            push_char(s, '.');
            k = k + 1;
            assert(s@ =~= old(s)@ + repeat_char('.', k as int));
        }
        return ;
    }
    let mut d = String::new();
    push_digits(&mut d, i, 16);
    assert(d@ =~= digits(i as nat, 16));
    let n = d.as_str().unicode_len();
    let mut k: usize = 0;
    while n < width && k < width - n
        invariant
            n == d@.len(),
            n < width ==> k <= width - n,
            n >= width ==> k == 0,
            s@ == old(s)@ + repeat_char('.', k as int),
        decreases width - k,
    {
        push_char(s, '.');
        k = k + 1;
        assert(s@ =~= old(s)@ + repeat_char('.', k as int));
    }
    assert(repeat_char('.', k as int) =~= repeat_char('.', width as int - d@.len()));
    s.append(d.as_str());
    assert(s@ =~= old(s)@ + dotted_hex(i as nat, width as int));
}

/// Two-character field: `..`, `.X` or `XX` (upper-case hex).
pub fn int2d(i: u8) -> (r: String)
    ensures
        r@ == dotted_hex(i as nat, 2),
{
    let mut s = String::new();
    push_dotted_hex(&mut s, i as u32, 2);
    assert(s@ =~= dotted_hex(i as nat, 2));
    s
}

/// Four-character field: `....` through `XXXX` (upper-case hex).
pub fn int4d(i: u16) -> (r: String)
    ensures
        r@ == dotted_hex(i as nat, 4),
{
    let mut s = String::new();
    push_dotted_hex(&mut s, i as u32, 4);
    assert(s@ =~= dotted_hex(i as nat, 4));
    s
}

/// A note field: `R--` for the sound-off, `---` for no note or one past the
/// eight octaves, else the note name and octave (`C-1` for 0).
pub open spec fn note_chars(note: i8) -> Seq<char> {
    if note == NOTE_SOUND_OFF {
        seq!['R', '-', '-']
    } else if note < 0 || note >= 96 {
        seq!['-', '-', '-']
    } else {
        crate::util::spec_note_to_str(note)
    }
}

/// Field of a note (see [`note_chars`]).
pub fn note_str(note: i8) -> (r: String)
    ensures
        r@ == note_chars(note),
{
    if note >= 96 {
        let mut s = String::new();
        push_char(&mut s, '-');
        push_char(&mut s, '-');
        push_char(&mut s, '-');
        assert(s@ =~= note_chars(note));
        return s;
    }
    crate::util::note_to_str(note)
}


/// A signed value as a sign and zero-padded upper-case hex magnitude.
pub open spec fn signed_hex(v: int, width: int) -> Seq<char> {
    if v >= 0 {
        seq!['+'] + pad_left(digits(v as nat, 16), width, '0')
    } else {
        seq!['-'] + pad_left(digits((-v) as nat, 16), width, '0')
    }
}

/// A sample tick line: tone, noise and envelope flags (capital when on),
/// the tone offset (`^` when it accumulates), the envelope or noise offset
/// (`^` likewise), the amplitude and its slide (`_`, `+` or `-`).
pub open spec fn tick_chars(t: SampleTick) -> Seq<char> {
    seq![
        if t.mixer_ton {
            'T'
        } else {
            't'
        },
        if t.mixer_noise {
            'N'
        } else {
            'n'
        },
        if t.envelope_enabled {
            'E'
        } else {
            'e'
        },
        ' '
    ] + signed_hex(t.add_to_ton as int, 3) + seq![
        if t.ton_accumulation {
            '^'
        } else {
            '_'
        },
        ' '
    ] + signed_hex(t.add_to_envelope_or_noise as int, 2) + seq![
        if t.envelope_or_noise_accumulation {
            '^'
        } else {
            '_'
        },
        ' ',
        digit_char((t.amplitude % 16) as nat),
        if !t.amplitude_sliding {
            '_'
        } else if t.amplitude_slide_up {
            '+'
        } else {
            '-'
        }
    ]
}

fn push_signed_hex(s: &mut String, v: i32, width: usize)
    requires
        v > i32::MIN,
    ensures
        final(s)@ == old(s)@ + signed_hex(v as int, width as int),
{
    if v >= 0 {
        push_char(s, '+');
        push_padded(s, v as u32, 16, width);
    } else {
        push_char(s, '-');
        push_padded(s, (-v) as u32, 16, width);
    }
    assert(s@ =~= old(s)@ + signed_hex(v as int, width as int));
}

/// The text line of a sample tick (see [`tick_chars`]).
pub fn write_sample_tick(tick: &SampleTick) -> (r: String)
    requires
        tick.add_to_ton != i16::MIN,
    ensures
        r@ == tick_chars(*tick),
{
    let mut s = String::new();
    push_char(&mut s, if tick.mixer_ton {
        'T'
    } else {
        't'
    });
    push_char(&mut s, if tick.mixer_noise {
        'N'
    } else {
        'n'
    });
    push_char(&mut s, if tick.envelope_enabled {
        'E'
    } else {
        'e'
    });
    push_char(&mut s, ' ');
    push_signed_hex(&mut s, tick.add_to_ton as i32, 3);
    push_char(&mut s, if tick.ton_accumulation {
        '^'
    } else {
        '_'
    });
    push_char(&mut s, ' ');
    push_signed_hex(&mut s, tick.add_to_envelope_or_noise as i32, 2);
    push_char(&mut s, if tick.envelope_or_noise_accumulation {
        '^'
    } else {
        '_'
    });
    push_char(&mut s, ' ');
    push_digits(&mut s, (tick.amplitude % 16) as u32, 16);
    push_char(&mut s, if !tick.amplitude_sliding {
        '_'
    } else if tick.amplitude_slide_up {
        '+'
    } else {
        '-'
    });
    assert(s@ =~= tick_chars(*tick));
    s
}

/// One channel's cell of a pattern row: `|`, note, space, sample, envelope,
/// ornament and volume, space, command number, delay and parameter.
pub open spec fn cell_chars(c: crate::types::ChannelLine) -> Seq<char> {
    seq!['|'] + note_chars(c.note) + seq![
        ' ',
        samp_char(c.sample),
        int1d_char(c.envelope),
        int1d_char(c.ornament),
        int1d_char(c.volume),
        ' ',
        int1d_char(c.additional_command.number),
        int1d_char(c.additional_command.delay)
    ] + dotted_hex(c.additional_command.parameter as nat, 2)
}

/// A pattern row line: envelope period, `|`, noise, and the three cells.
pub open spec fn row_chars(row: PatternRow) -> Seq<char> {
    dotted_hex(row.envelope as nat, 4) + seq!['|'] + dotted_hex(row.noise as nat, 2) + cell_chars(row.channel[0])
        + cell_chars(row.channel[1]) + cell_chars(row.channel[2])
}

fn push_cell(s: &mut String, c: crate::types::ChannelLine)
    ensures
        final(s)@ == old(s)@ + cell_chars(c),
{
    push_char(s, '|');
    let n = note_str(c.note);
    s.append(n.as_str());
    push_char(s, ' ');
    push_char(s, samp(c.sample));
    push_char(s, int1d(c.envelope));
    push_char(s, int1d(c.ornament));
    push_char(s, int1d(c.volume));
    push_char(s, ' ');
    push_char(s, int1d(c.additional_command.number));
    push_char(s, int1d(c.additional_command.delay));
    push_dotted_hex(s, c.additional_command.parameter as u32, 2);
    assert(s@ =~= old(s)@ + cell_chars(c));
}

/// The text line of a pattern row (see [`row_chars`]).
pub fn write_pattern_row(row: &PatternRow) -> (r: String)
    ensures
        r@ == row_chars(*row),
{
    let mut s = String::new();
    push_dotted_hex(&mut s, row.envelope as u32, 4);
    push_char(&mut s, '|');
    push_dotted_hex(&mut s, row.noise as u32, 2);
    push_cell(&mut s, row.channel[0]);
    push_cell(&mut s, row.channel[1]);
    push_cell(&mut s, row.channel[2]);
    assert(s@ =~= row_chars(*row));
    s
}


// ─── The module ──────────────────────────────────────────────────────────────

/// The first `i` entries of a comma-separated list, the loop entry marked
/// with `L`; `item(k)` is the text of entry `k`.
pub open spec fn list_chars(item: spec_fn(int) -> Seq<char>, len: int, lp: int, i: int) -> Seq<char>
    decreases i,
{
    if i <= 0 {
        Seq::empty()
    } else {
        list_chars(item, len, lp, i - 1) + (if i - 1 == lp {
            seq!['L']
        } else {
            Seq::empty()
        }) + item(i - 1) + (if i < len {
            seq![',']
        } else {
            Seq::empty()
        })
    }
}

/// The play order: the positions' patterns, the loop marked.
pub open spec fn order_chars(p: PositionList) -> Seq<char> {
    list_chars(|k: int| digits(p.value[k] as nat, 10), p.length as int, p.loop_pos as int, p.length as int)
}

/// An ornament's line: its offsets, the loop marked.
pub open spec fn orn_chars(o: Ornament) -> Seq<char> {
    list_chars(|k: int| dec(o.items[k] as int), o.length as int, o.loop_pos as int, o.length as int)
}

/// The first `i` lines of a sample: each tick, ` L` after the loop tick.
pub open spec fn sample_lines(s: Sample, i: int) -> Seq<char>
    decreases i,
{
    if i <= 0 {
        Seq::empty()
    } else {
        sample_lines(s, i - 1) + tick_chars(s.items[i - 1]) + (if i - 1 == s.loop_pos {
            seq![' ', 'L']
        } else {
            Seq::empty()
        }) + seq!['\n']
    }
}

/// The first `i` rows of a pattern, one per line.
pub open spec fn pattern_lines(p: Pattern, i: int) -> Seq<char>
    decreases i,
{
    if i <= 0 {
        Seq::empty()
    } else {
        pattern_lines(p, i - 1) + row_chars(p.items[i - 1]) + seq!['\n']
    }
}

/// A section header `[name n]`.
pub open spec fn section(name: Seq<char>, n: int) -> Seq<char> {
    seq!['['] + name + digits(n as nat, 10) + seq![']', '\n']
}

/// The ornament sections 1 up to `n - 1`: each its line (`L0` when empty)
/// and a blank line.
pub open spec fn orn_sections(m: Module, n: int) -> Seq<char>
    decreases n,
{
    if n <= 1 {
        Seq::empty()
    } else {
        orn_sections(m, n - 1) + section("Ornament"@, n - 1) + match m.ornaments[n - 1] {
            Some(o) => orn_chars(*o) + seq!['\n'],
            None => "L0\n"@,
        } + seq!['\n']
    }
}

/// The sample sections 1 up to `n - 1`: each its ticks (a silent looped
/// tick when empty) and a blank line.
pub open spec fn sam_sections(m: Module, n: int) -> Seq<char>
    decreases n,
{
    if n <= 1 {
        Seq::empty()
    } else {
        sam_sections(m, n - 1) + section("Sample"@, n - 1) + match m.samples[n - 1] {
            Some(sm) => sample_lines(*sm, sm.length as int),
            None => "tne +000_ +00_ 0_ L\n"@,
        } + seq!['\n']
    }
}

/// The sections of the patterns that exist among 0 up to `n - 1`.
pub open spec fn pat_sections(m: Module, n: int) -> Seq<char>
    decreases n,
{
    if n <= 0 {
        Seq::empty()
    } else {
        pat_sections(m, n - 1) + match m.patterns@[n - 1] {
            Some(p) => section("Pattern"@, n - 1) + pattern_lines(*p, p.length as int) + seq!['\n'],
            None => Seq::empty(),
        }
    }
}

/// The version a features level is written as.
pub open spec fn version_chars(f: FeaturesLevel) -> Seq<char> {
    match f {
        FeaturesLevel::Pt35 => "3.5"@,
        FeaturesLevel::Vt2 => "3.6"@,
        FeaturesLevel::Pt37 => "3.7"@,
    }
}

/// The VTM text of a module: the `[Module]` header (Vortex header flag,
/// version, title, author, tone table, chip frequency, speed, play order),
/// the ornaments 1..15, the samples 1..31 and the patterns that exist
/// among 0..84.
pub open spec fn vtm_text(m: Module) -> Seq<char> {
    header_chars(m) + orn_sections(m, 16) + sam_sections(m, 32) + pat_sections(m, MAX_PAT_NUM + 1)
}

/// The `[Module]` header and a blank line.
pub open spec fn header_chars(m: Module) -> Seq<char> {
    head_kind(m) + head_names(m) + head_numbers(m) + "PlayOrder="@ + order_chars(m.positions) + seq!['\n', '\n']
}

/// The header's first lines: section, Vortex header flag, version.
pub open spec fn head_kind(m: Module) -> Seq<char> {
    "[Module]\n"@ + (if m.vortex_module_header {
        "VortexTrackerII=1\n"@
    } else {
        "VortexTrackerII=0\n"@
    }) + "Version="@ + version_chars(m.features_level) + seq!['\n']
}

/// The title and author lines.
pub open spec fn head_names(m: Module) -> Seq<char> {
    "Title="@ + m.title@ + seq!['\n'] + "Author="@ + m.author@ + seq!['\n']
}

/// The tone table, chip frequency and speed lines.
pub open spec fn head_numbers(m: Module) -> Seq<char> {
    "NoteTable="@ + digits(m.ton_table as nat, 10) + seq!['\n'] + "ChipFreq=1750000\n"@ + "Speed="@ + digits(
        m.initial_delay as nat,
        10,
    ) + seq!['\n']
}

/// The modules [`write`] can write: every list it walks lies within its
/// storage, and no written tick has the tone offset -32768 (whose magnitude
/// has no 16-bit form).
pub open spec fn writable(m: Module) -> bool {
    &&& m.wf()
    &&& m.positions.length <= 256
    &&& forall|n: int| 1 <= n < 16 ==> (#[trigger] m.ornaments[n] matches Some(o) ==> o.length <= 255)
    &&& forall|n: int|
        1 <= n < 32 ==> (#[trigger] m.samples[n] matches Some(sm) ==> sm.length <= 64 && forall|i: int|
            0 <= i < sm.length ==> (#[trigger] sm.items[i]).add_to_ton != i16::MIN)
    &&& forall|n: int| 0 <= n <= MAX_PAT_NUM ==> (#[trigger] m.patterns@[n] matches Some(p) ==> p.length <= 256)
}

fn push_list_item(s: &mut String, k: usize, len: usize, lp: usize)
    requires
        k < len,
    ensures
        final(s)@ == old(s)@ + (if k == lp {
            seq!['L']
        } else {
            Seq::empty()
        }),
{
    if k == lp {
        push_char(s, 'L');
    }
    assert(s@ =~= old(s)@ + (if k == lp {
        seq!['L']
    } else {
        Seq::empty()
    }));
}

fn push_i8(s: &mut String, v: i8)
    ensures
        final(s)@ == old(s)@ + dec(v as int),
{
    if v < 0 {
        push_char(s, '-');
        push_digits(s, (-(v as i32)) as u32, 10);
    } else {
        push_digits(s, v as u32, 10);
    }
    assert(s@ =~= old(s)@ + dec(v as int));
}

fn push_order(s: &mut String, p: &PositionList)
    requires
        p.length <= 256,
    ensures
        final(s)@ == old(s)@ + order_chars(*p),
{
    let ghost f = |k: int| digits(p.value[k] as nat, 10);
    let mut i: usize = 0;
    while i < p.length
        invariant
            i <= p.length <= 256,
            f == (|k: int| digits(p.value[k] as nat, 10)),
            s@ == old(s)@ + list_chars(f, p.length as int, p.loop_pos as int, i as int),
        decreases p.length - i,
    {
        push_list_item(s, i, p.length, p.loop_pos);
        push_dec_usize(s, p.value[i]);
        if i + 1 < p.length {
            push_char(s, ',');
        }
        i = i + 1;
        assert(s@ =~= old(s)@ + list_chars(f, p.length as int, p.loop_pos as int, i as int));
    }
}

fn push_orn(s: &mut String, o: &Ornament)
    requires
        o.length <= 255,
    ensures
        final(s)@ == old(s)@ + orn_chars(*o),
{
    let ghost f = |k: int| dec(o.items[k] as int);
    let mut i: usize = 0;
    while i < o.length
        invariant
            i <= o.length <= 255,
            f == (|k: int| dec(o.items[k] as int)),
            s@ == old(s)@ + list_chars(f, o.length as int, o.loop_pos as int, i as int),
        decreases o.length - i,
    {
        push_list_item(s, i, o.length, o.loop_pos);
        push_i8(s, o.items[i]);
        if i + 1 < o.length {
            push_char(s, ',');
        }
        i = i + 1;
        assert(s@ =~= old(s)@ + list_chars(f, o.length as int, o.loop_pos as int, i as int));
    }
}

fn push_section(s: &mut String, name: &str, n: usize)
    ensures
        final(s)@ == old(s)@ + section(name@, n as int),
{
    push_char(s, '[');
    s.append(name);
    push_dec_usize(s, n);
    push_char(s, ']');
    push_char(s, '\n');
    assert(s@ =~= old(s)@ + section(name@, n as int));
}

fn push_sample_lines(s: &mut String, sm: &Sample)
    requires
        sm.length <= 64,
        forall|i: int| 0 <= i < sm.length ==> (#[trigger] sm.items[i]).add_to_ton != i16::MIN,
    ensures
        final(s)@ == old(s)@ + sample_lines(*sm, sm.length as int),
{
    let mut i: usize = 0;
    while i < sm.length as usize
        invariant
            i <= sm.length <= 64,
            forall|q: int| 0 <= q < sm.length ==> (#[trigger] sm.items[q]).add_to_ton != i16::MIN,
            s@ == old(s)@ + sample_lines(*sm, i as int),
        decreases sm.length - i,
    {
        let line = write_sample_tick(&sm.items[i]);
        s.append(line.as_str());
        if i == sm.loop_pos as usize {
            push_char(s, ' ');
            push_char(s, 'L');
        }
        push_char(s, '\n');
        i = i + 1;
        assert(s@ =~= old(s)@ + sample_lines(*sm, i as int));
    }
}

fn push_pattern_lines(s: &mut String, p: &Pattern)
    requires
        p.length <= 256,
    ensures
        final(s)@ == old(s)@ + pattern_lines(*p, p.length as int),
{
    let mut i: usize = 0;
    while i < p.length
        invariant
            i <= p.length <= 256,
            s@ == old(s)@ + pattern_lines(*p, i as int),
        decreases p.length - i,
    {
        let line = write_pattern_row(&p.items[i]);
        s.append(line.as_str());
        push_char(s, '\n');
        i = i + 1;
        assert(s@ =~= old(s)@ + pattern_lines(*p, i as int));
    }
}

fn push_head_kind(out: &mut String, module: &Module)
    ensures
        final(out)@ == old(out)@ + head_kind(*module),
{
    out.append("[Module]\n");
    if module.vortex_module_header {
        out.append("VortexTrackerII=1\n");
    } else {
        out.append("VortexTrackerII=0\n");
    }
    out.append("Version=");
    match module.features_level {
        FeaturesLevel::Pt35 => out.append("3.5"),
        FeaturesLevel::Vt2 => out.append("3.6"),
        FeaturesLevel::Pt37 => out.append("3.7"),
    }
    push_char(out, '\n');
    assert(out@ =~= old(out)@ + head_kind(*module));
}

fn push_head_names(out: &mut String, module: &Module)
    ensures
        final(out)@ == old(out)@ + head_names(*module),
{
    out.append("Title=");
    out.append(module.title.as_str());
    push_char(out, '\n');
    out.append("Author=");
    out.append(module.author.as_str());
    push_char(out, '\n');
    assert(out@ =~= old(out)@ + head_names(*module));
}

fn push_head_numbers(out: &mut String, module: &Module)
    ensures
        final(out)@ == old(out)@ + head_numbers(*module),
{
    out.append("NoteTable=");
    push_dec_usize(out, module.ton_table as usize);
    push_char(out, '\n');
    out.append("ChipFreq=1750000\n");
    out.append("Speed=");
    push_dec_usize(out, module.initial_delay as usize);
    push_char(out, '\n');
    assert(out@ =~= old(out)@ + head_numbers(*module));
}

fn push_header(out: &mut String, module: &Module)
    requires
        module.positions.length <= 256,
    ensures
        final(out)@ == old(out)@ + header_chars(*module),
{
    push_head_kind(out, module);
    push_head_names(out, module);
    push_head_numbers(out, module);
    out.append("PlayOrder=");
    push_order(out, &module.positions);
    push_char(out, '\n');
    push_char(out, '\n');
    assert(out@ =~= old(out)@ + header_chars(*module));
}

fn push_orn_sections(out: &mut String, module: &Module)
    requires
        writable(*module),
    ensures
        final(out)@ == old(out)@ + orn_sections(*module, 16),
{
    let ghost head = out@;
    let mut n: usize = 1;
    while n <= 15
        invariant
            1 <= n <= 16,
            writable(*module),
            out@ == head + orn_sections(*module, n as int),
        decreases 16 - n,
    {
        push_section(out, "Ornament", n);
        match &module.ornaments[n] {
            Some(o) => {
                push_orn(out, o);
                push_char(out, '\n');
            },
            None => {
                out.append("L0\n");
            },
        }
        push_char(out, '\n');
        n = n + 1;
        assert(out@ =~= head + orn_sections(*module, n as int));
    }
}

fn push_sam_sections(out: &mut String, module: &Module)
    requires
        writable(*module),
    ensures
        final(out)@ == old(out)@ + sam_sections(*module, 32),
{
    let ghost head = out@;
    let mut n: usize = 1;
    while n <= 31
        invariant
            1 <= n <= 32,
            writable(*module),
            out@ == head + sam_sections(*module, n as int),
        decreases 32 - n,
    {
        push_section(out, "Sample", n);
        match &module.samples[n] {
            Some(sm) => {
                push_sample_lines(out, sm);
            },
            None => {
                out.append("tne +000_ +00_ 0_ L\n");
            },
        }
        push_char(out, '\n');
        n = n + 1;
        assert(out@ =~= head + sam_sections(*module, n as int));
    }
}

fn push_pat_sections(out: &mut String, module: &Module)
    requires
        writable(*module),
    ensures
        final(out)@ == old(out)@ + pat_sections(*module, MAX_PAT_NUM + 1),
{
    let ghost head = out@;
    let mut n: usize = 0;
    while n <= MAX_PAT_NUM
        invariant
            n <= MAX_PAT_NUM + 1,
            writable(*module),
            out@ == head + pat_sections(*module, n as int),
        decreases MAX_PAT_NUM + 1 - n,
    {
        match &module.patterns[n] {
            Some(p) => {
                push_section(out, "Pattern", n);
                push_pattern_lines(out, p);
                push_char(out, '\n');
            },
            None => {},
        }
        n = n + 1;
        assert(out@ =~= head + pat_sections(*module, n as int));
    }
}

/// Serialise a module as VTM text (see [`vtm_text`]), lines ending in `\n`.
pub fn write(module: &Module) -> (r: String)
    requires
        writable(*module),
    ensures
        r@ == vtm_text(*module),
{
    let mut out = String::new();
    push_header(&mut out, module);
    push_orn_sections(&mut out, module);
    push_sam_sections(&mut out, module);
    push_pat_sections(&mut out, module);
    assert(out@ =~= vtm_text(*module));
    out
}


// ─── Reading lines ───────────────────────────────────────────────────────────

/// The byte classes the line readers look for.
#[derive(Clone, Copy, PartialEq, Eq, Structural)]
pub enum ByteClass {
    /// `T` or `t`.
    Ton,
    /// `N` or `n`.
    Noise,
    /// `E` or `e`.
    Env,
    /// A sign or a hex digit.
    SignOrHex,
    /// A hex digit.
    Hex,
    /// Anything but a hex digit.
    NotHex,
    /// `^` or `_`.
    Acc,
    /// `+`, `-` or `_`.
    Slide,
    /// A decimal digit, a sign, `L` or `l`.
    OrnStart,
    /// Anything but a decimal digit.
    NotDigit,
}

/// `x` is a hex digit.
pub open spec fn is_hex(x: u8) -> bool {
    (0x30 <= x <= 0x39) || (0x41 <= x <= 0x46) || (0x61 <= x <= 0x66)
}

/// The value of the hex digit `x`.
pub open spec fn hex_digit(x: u8) -> int {
    if x <= 0x39 {
        x - 0x30
    } else if x <= 0x46 {
        x - 0x41 + 10
    } else {
        x - 0x61 + 10
    }
}

/// `x` is a decimal digit.
pub open spec fn is_dec(x: u8) -> bool {
    0x30 <= x <= 0x39
}

/// `x` belongs to class `c`.
pub open spec fn in_class(x: u8, c: ByteClass) -> bool {
    match c {
        ByteClass::Ton => x == 0x54 || x == 0x74,
        ByteClass::Noise => x == 0x4E || x == 0x6E,
        ByteClass::Env => x == 0x45 || x == 0x65,
        ByteClass::SignOrHex => x == 0x2B || x == 0x2D || is_hex(x),
        ByteClass::Hex => is_hex(x),
        ByteClass::NotHex => !is_hex(x),
        ByteClass::Acc => x == 0x5E || x == 0x5F,
        ByteClass::Slide => x == 0x2B || x == 0x2D || x == 0x5F,
        ByteClass::OrnStart => is_dec(x) || x == 0x2D || x == 0x2B || x == 0x4C || x == 0x6C,
        ByteClass::NotDigit => !is_dec(x),
    }
}

fn in_class_exec(x: u8, c: ByteClass) -> (r: bool)
    ensures
        r == in_class(x, c),
{
    let hex = (0x30 <= x && x <= 0x39) || (0x41 <= x && x <= 0x46) || (0x61 <= x && x <= 0x66);
    let dec = 0x30 <= x && x <= 0x39;
    match c {
        ByteClass::Ton => x == 0x54 || x == 0x74,
        ByteClass::Noise => x == 0x4E || x == 0x6E,
        ByteClass::Env => x == 0x45 || x == 0x65,
        ByteClass::SignOrHex => x == 0x2B || x == 0x2D || hex,
        ByteClass::Hex => hex,
        ByteClass::NotHex => !hex,
        ByteClass::Acc => x == 0x5E || x == 0x5F,
        ByteClass::Slide => x == 0x2B || x == 0x2D || x == 0x5F,
        ByteClass::OrnStart => dec || x == 0x2D || x == 0x2B || x == 0x4C || x == 0x6C,
        ByteClass::NotDigit => !dec,
    }
}

/// The first position from `i` on whose byte is of class `c` (the length
/// when there is none).
pub open spec fn find_class(b: Seq<u8>, i: int, c: ByteClass) -> int
    decreases b.len() - i,
{
    if i < 0 || i >= b.len() {
        b.len() as int
    } else if in_class(b[i], c) {
        i
    } else {
        find_class(b, i + 1, c)
    }
}

fn find_class_exec(b: &[u8], i0: usize, c: ByteClass) -> (r: usize)
    requires
        i0 <= b@.len(),
    ensures
        r == find_class(b@, i0 as int, c),
        i0 <= r <= b@.len(),
{
    let mut i = i0;
    while i < b.len() && !in_class_exec(b[i], c)
        invariant
            i0 <= i <= b@.len(),
            find_class(b@, i as int, c) == find_class(b@, i0 as int, c),
        decreases b.len() - i,
    {
        i = i + 1;
    }
    i
}

/// The value of the digits `s` in base `base`, each digit's value given by
/// `dv`.
pub open spec fn digits_value(s: Seq<u8>, base: int) -> nat
    decreases s.len(),
{
    if s.len() == 0 {
        0
    } else {
        (digits_value(s.drop_last(), base) * base + (if base == 16 {
            hex_digit(s.last())
        } else {
            s.last() - 0x30
        })) as nat
    }
}

proof fn lemma_digits_grow(s: Seq<u8>, base: int, x: u8)
    requires
        base == 10 || base == 16,
        base == 16 ==> is_hex(x),
        base == 10 ==> is_dec(x),
    ensures
        digits_value(s.push(x), base) >= digits_value(s, base),
        digits_value(s.push(x), base) == digits_value(s, base) * base + (if base == 16 {
            hex_digit(x)
        } else {
            x - 0x30
        }),
{
    assert(s.push(x).drop_last() =~= s);
    assert(digits_value(s, base) * base >= digits_value(s, base)) by (nonlinear_arith)
        requires
            base >= 10,
    ;
}

/// The value of the digits `b[from..to]` in base `base` (all digits of that
/// base), or `None` when it exceeds `max`.
fn digits_upto(b: &[u8], from: usize, to: usize, base: u32, max: u32) -> (r: Option<u32>)
    requires
        from <= to <= b@.len(),
        base == 10 || base == 16,
        max < 0x10000,
        forall|k: int| from <= k < to ==> if base == 16 {
            is_hex(#[trigger] b@[k])
        } else {
            is_dec(b@[k])
        },
    ensures
        match r {
            Some(v) => v == digits_value(b@.subrange(from as int, to as int), base as int) && v <= max,
            None => digits_value(b@.subrange(from as int, to as int), base as int) > max,
        },
{
    let mut acc: u32 = 0;
    let mut over = false;
    let mut i = from;
    assert(b@.subrange(from as int, from as int) =~= Seq::<u8>::empty());
    while i < to
        invariant
            from <= i <= to <= b@.len(),
            base == 10 || base == 16,
            max < 0x10000,
            forall|k: int| from <= k < to ==> if base == 16 {
                is_hex(#[trigger] b@[k])
            } else {
                is_dec(b@[k])
            },
            !over ==> acc == digits_value(b@.subrange(from as int, i as int), base as int) && acc <= max,
            over ==> digits_value(b@.subrange(from as int, i as int), base as int) > max,
        decreases to - i,
    {
        let x = b[i];
        proof {
            assert(b@.subrange(from as int, i + 1) =~= b@.subrange(from as int, i as int).push(x));
            lemma_digits_grow(b@.subrange(from as int, i as int), base as int, x);
        }
        if !over {
            let d: u32 = if base == 16 {
                if x <= 0x39 {
                    (x - 0x30) as u32
                } else if x <= 0x46 {
                    (x - 0x41 + 10) as u32
                } else {
                    (x - 0x61 + 10) as u32
                }
            } else {
                (x - 0x30) as u32
            };
            let v = acc * base + d;
            if v > max {
                over = true;
            } else {
                acc = v;
            }
        }
        i = i + 1;
    }
    if over {
        None
    } else {
        Some(acc)
    }
}

/// A signed hex field starting at the first sign or hex digit from `i`:
/// the position after its digits, and its value, when it has digits and
/// the value is at most `max`.
pub open spec fn signed_field(b: Seq<u8>, i: int, max: int) -> Option<(int, bool, nat)> {
    let s = find_class(b, i, ByteClass::SignOrHex);
    if s >= b.len() {
        None
    } else {
        let j = if b[s] == 0x2B || b[s] == 0x2D {
            s + 1
        } else {
            s
        };
        let e = find_class(b, j, ByteClass::NotHex);
        let v = digits_value(b.subrange(j, e), 16);
        if e == j || v > max {
            None
        } else {
            Some((e, b[s] == 0x2D, v))
        }
    }
}

/// The sample tick a text line describes (tone `T`/`t`, noise `N`/`n`,
/// envelope `E`/`e` flags in that order, then the signed hex tone offset, its
/// accumulation `^`/`_`, the signed hex envelope or noise offset (its low five
/// bits, signed), its accumulation, the hex amplitude and optionally the
/// amplitude slide `+`/`-`/`_`), each found as the next byte of its kind;
/// `None` when a part is missing or a value is out of range.
pub open spec fn tick_of(b: Seq<u8>) -> Option<SampleTick> {
    let n = b.len() as int;
    let i1 = find_class(b, 0, ByteClass::Ton);
    let i2 = find_class(b, i1 + 1, ByteClass::Noise);
    let i3 = find_class(b, i2 + 1, ByteClass::Env);
    if i1 >= n || i2 >= n || i3 >= n {
        None
    } else {
        match signed_field(b, i3 + 1, 0x7FFF) {
            None => None,
            Some((e4, neg4, v4)) => {
                let i6 = find_class(b, e4, ByteClass::Acc);
                if i6 >= n {
                    None
                } else {
                    match signed_field(b, i6 + 1, 255) {
                        None => None,
                        Some((e7, neg7, v7)) => {
                            let i9 = find_class(b, e7, ByteClass::Acc);
                            let i10 = find_class(b, i9 + 1, ByteClass::Hex);
                            if i9 >= n || i10 >= n {
                                None
                            } else {
                                let i11 = find_class(b, i10 + 1, ByteClass::Slide);
                                let m = (v7 % 32) as int;
                                let ext = if m >= 16 {
                                    m - 32
                                } else {
                                    m
                                };
                                Some(
                                    SampleTick {
                                        mixer_ton: b[i1] == 0x54,
                                        mixer_noise: b[i2] == 0x4E,
                                        envelope_enabled: b[i3] == 0x45,
                                        add_to_ton: (if neg4 {
                                            -v4
                                        } else {
                                            v4 as int
                                        }) as i16,
                                        ton_accumulation: b[i6] == 0x5E,
                                        add_to_envelope_or_noise: (if neg7 {
                                            -ext
                                        } else {
                                            ext
                                        }) as i8,
                                        envelope_or_noise_accumulation: b[i9] == 0x5E,
                                        amplitude: hex_digit(b[i10]) as u8,
                                        amplitude_sliding: i11 < n && b[i11] != 0x5F,
                                        amplitude_slide_up: i11 < n && b[i11] == 0x2B,
                                    },
                                )
                            }
                        },
                    }
                }
            },
        }
    }
}

fn signed_field_exec(b: &[u8], i: usize, max: u32) -> (r: Option<(usize, bool, u32)>)
    requires
        i <= b@.len(),
        max < 0x10000,
    ensures
        match r {
            Some((e, neg, v)) => signed_field(b@, i as int, max as int) == Some((e as int, neg, v as nat)) && e
                <= b@.len() && v <= max,
            None => signed_field(b@, i as int, max as int) is None,
        },
{
    let s = find_class_exec(b, i, ByteClass::SignOrHex);
    if s >= b.len() {
        return None;
    }
    let j = if b[s] == 0x2B || b[s] == 0x2D {
        s + 1
    } else {
        s
    };
    let e = find_class_exec(b, j, ByteClass::NotHex);
    if e == j {
        return None;
    }
    proof {
        assert forall|k: int| j <= k < e implies is_hex(#[trigger] b@[k]) by {
            lemma_find_skips(b@, j as int, k, ByteClass::NotHex);
        }
    }
    match digits_upto(b, j, e, 16, max) {
        Some(v) => Some((e, b[s] == 0x2D, v)),
        None => None,
    }
}

/// A position found holds a byte of the class, at or after the start.
pub proof fn lemma_find_hits(b: Seq<u8>, i: int, c: ByteClass)
    requires
        0 <= i,
    ensures
        find_class(b, i, c) < b.len() ==> in_class(b[find_class(b, i, c)], c) && i <= find_class(b, i, c),
        find_class(b, i, c) <= b.len(),
    decreases b.len() - i,
{
    if i < b.len() && !in_class(b[i], c) {
        lemma_find_hits(b, i + 1, c);
    }
}

/// Bytes before the found position are not of the class.
proof fn lemma_find_skips(b: Seq<u8>, i: int, k: int, c: ByteClass)
    requires
        0 <= i <= k < find_class(b, i, c),
    ensures
        !in_class(b[k], c),
    decreases k - i,
{
    if i < k {
        lemma_find_skips(b, i + 1, k, c);
    }
}

/// Read a sample tick line given as bytes (see [`tick_of`]).
pub(crate) fn tick_from_bytes(b: &[u8]) -> (r: Option<SampleTick>)
    ensures
        r == tick_of(b@),
{
    let n = b.len();
    let i1 = find_class_exec(b, 0, ByteClass::Ton);
    if i1 >= n {
        return None;
    }
    let i2 = find_class_exec(b, i1 + 1, ByteClass::Noise);
    if i2 >= n {
        return None;
    }
    let i3 = find_class_exec(b, i2 + 1, ByteClass::Env);
    if i3 >= n {
        return None;
    }
    let (e4, neg4, v4) = match signed_field_exec(b, i3 + 1, 0x7FFF) {
        Some(f) => f,
        None => {
            return None;
        },
    };
    let i6 = find_class_exec(b, e4, ByteClass::Acc);
    if i6 >= n {
        return None;
    }
    let (e7, neg7, v7) = match signed_field_exec(b, i6 + 1, 255) {
        Some(f) => f,
        None => {
            return None;
        },
    };
    let i9 = find_class_exec(b, e7, ByteClass::Acc);
    if i9 >= n {
        return None;
    }
    let i10 = find_class_exec(b, i9 + 1, ByteClass::Hex);
    if i10 >= n {
        return None;
    }
    let i11 = find_class_exec(b, i10 + 1, ByteClass::Slide);
    let m = (v7 % 32) as i8;
    let ext: i8 = if m >= 16 {
        m - 32
    } else {
        m
    };
    proof {
        lemma_find_hits(b@, i9 + 1, ByteClass::Hex);
    }
    let x = b[i10];
    let amp: u8 = if x <= 0x39 {
        x - 0x30
    } else if x <= 0x46 {
        x - 0x41 + 10
    } else {
        x - 0x61 + 10
    };
    let mut t = SampleTick::default();
    t.mixer_ton = b[i1] == 0x54;
    t.mixer_noise = b[i2] == 0x4E;
    t.envelope_enabled = b[i3] == 0x45;
    t.add_to_ton = if neg4 {
        -(v4 as i16)
    } else {
        v4 as i16
    };
    t.ton_accumulation = b[i6] == 0x5E;
    t.add_to_envelope_or_noise = if neg7 {
        -ext
    } else {
        ext
    };
    t.envelope_or_noise_accumulation = b[i9] == 0x5E;
    t.amplitude = amp;
    if i11 < n {
        t.amplitude_sliding = b[i11] != 0x5F;
        t.amplitude_slide_up = b[i11] == 0x2B;
    }
    Some(t)
}

/// Read a sample tick line (see [`tick_of`]); a malformed line is refused.
pub fn parse_sample_tick(s: &str) -> (r: Result<SampleTick, FormatError>)
    ensures
        match tick_of(s.spec_bytes()) {
            Some(t) => r == Ok::<SampleTick, FormatError>(t),
            None => r == Err::<SampleTick, FormatError>(FormatError::SampleLineSyntax),
        },
{
    match tick_from_bytes(s.as_bytes()) {
        Some(t) => Ok(t),
        None => Err(FormatError::SampleLineSyntax),
    }
}


/// An ornament line read from position `k` on, `len` offsets read so far
/// (loop at `lp`): each `L`/`l` puts the loop at the next offset; each
/// decimal number with an optional sign is the next offset (numbers past 127
/// read as 0); other bytes are skipped; reading stops at the end, at a sign
/// without digits, or after 255 offsets.
pub open spec fn orn_scan(b: Seq<u8>, k: int, len: int, lp: int, items: Seq<i8>) -> (int, int, Seq<i8>)
    decreases b.len() - k,
{
    let k1 = find_class(b, k, ByteClass::OrnStart);
    if k < 0 || k1 >= b.len() {
        (len, lp, items)
    } else if b[k1] == 0x4C || b[k1] == 0x6C {
        proof {
            lemma_find_hits(b, k, ByteClass::OrnStart);
        }
        orn_scan(b, k1 + 1, len, len, items)
    } else {
        let j = if b[k1] == 0x2B || b[k1] == 0x2D {
            k1 + 1
        } else {
            k1
        };
        let e = find_class(b, j, ByteClass::NotDigit);
        if e <= j {
            (len, lp, items)
        } else {
            let v = digits_value(b.subrange(j, e), 10);
            let val = if v > 127 {
                0
            } else {
                v as int
            };
            let items2 = items.update(len, (if b[k1] == 0x2D {
                -val
            } else {
                val
            }) as i8);
            if len + 1 >= 255 {
                (len + 1, lp, items2)
            } else {
                proof {
                    lemma_find_hits(b, k, ByteClass::OrnStart);
                    lemma_find_hits(b, j, ByteClass::NotDigit);
                }
                orn_scan(b, e, len + 1, lp, items2)
            }
        }
    }
}

/// The ornament a text line describes (see [`orn_scan`]); `None` when it
/// holds no offset.
pub open spec fn ornament_of(b: Seq<u8>) -> Option<(int, int, Seq<i8>)> {
    let (len, lp, items) = orn_scan(b, 0, 0, 0, Seq::new(255, |q: int| 0i8));
    if len == 0 {
        None
    } else {
        Some((len, lp, items))
    }
}

/// Read an ornament line given as bytes (see [`ornament_of`]).
pub(crate) fn orn_from_bytes(b: &[u8]) -> (r: Option<Ornament>)
    ensures
        match ornament_of(b@) {
            Some((len, lp, items)) => r matches Some(o) && o.length == len && o.loop_pos == lp && o.items@ == items,
            None => r is None,
        },
{
    let mut orn = Ornament::default();
    assert(orn.items@ =~= Seq::new(255, |q: int| 0i8));
    let ghost target = orn_scan(b@, 0, 0, 0, orn.items@);
    let mut len: usize = 0;
    let mut lp: usize = 0;
    let mut k: usize = 0;
    loop
        invariant_except_break
            orn_scan(b@, k as int, len as int, lp as int, orn.items@) == target,
            len < 255,
        invariant
            k <= b@.len(),
            len <= 255,
            lp <= len,
            orn.items@.len() == 255,
        ensures
            target == (len as int, lp as int, orn.items@),
        decreases b@.len() - k,
    {
        let k1 = find_class_exec(b, k, ByteClass::OrnStart);
        if k1 >= b.len() {
            break ;
        }
        let c = b[k1];
        if c == 0x4C || c == 0x6C {
            lp = len;
            k = k1 + 1;
            continue ;
        }
        let j = if c == 0x2B || c == 0x2D {
            k1 + 1
        } else {
            k1
        };
        let e = find_class_exec(b, j, ByteClass::NotDigit);
        if e <= j {
            break ;
        }
        proof {
            assert forall|q: int| j <= q < e implies is_dec(#[trigger] b@[q]) by {
                lemma_find_skips(b@, j as int, q, ByteClass::NotDigit);
            }
        }
        let val: i8 = match digits_upto(b, j, e, 10, 127) {
            Some(v) => v as i8,
            None => 0,
        };
        orn.items[len] = if c == 0x2D {
            -val
        } else {
            val
        };
        len = len + 1;
        k = e;
        if len >= 255 {
            break ;
        }
    }
    if len == 0 {
        return None;
    }
    orn.length = len;
    orn.loop_pos = lp;
    Some(orn)
}

/// Read an ornament line (see [`ornament_of`]); a line with no offset is
/// refused.
pub fn parse_ornament_line(s: &str) -> (r: Result<Ornament, FormatError>)
    ensures
        match ornament_of(s.spec_bytes()) {
            Some((len, lp, items)) => r matches Ok(o) && o.length == len && o.loop_pos == lp && o.items@ == items,
            None => r == Err::<Ornament, FormatError>(FormatError::EmptyOrnament),
        },
{
    match orn_from_bytes(s.as_bytes()) {
        Some(o) => Ok(o),
        None => Err(FormatError::EmptyOrnament),
    }
}


/// `x` in capitals (ASCII letters only).
pub open spec fn upper(x: u8) -> u8 {
    if 0x61 <= x <= 0x7A {
        (x - 32) as u8
    } else {
        x
    }
}

/// The value of a field digit: `.` is 0, then `0`..`9`, `A`..`V` (either
/// case) are 0..31; `None` for any other byte.
pub open spec fn field_digit(x: u8) -> Option<int> {
    let u = upper(x);
    if x == 0x2E {
        Some(0)
    } else if 0x30 <= u <= 0x39 {
        Some(u - 0x30)
    } else if 0x41 <= u <= 0x56 {
        Some(u - 0x41 + 10)
    } else {
        None
    }
}

/// The digits `s` read with [`field_digit`], each place worth 16 times the
/// next; `None` when one is not a field digit.
pub open spec fn field_value(s: Seq<u8>) -> Option<int>
    decreases s.len(),
{
    if s.len() == 0 {
        Some(0)
    } else {
        match (field_value(s.drop_last()), field_digit(s.last())) {
            (Some(v), Some(d)) => Some(v * 16 + d),
            _ => None,
        }
    }
}

/// A field's value, or 0 when it is not a number or exceeds `max`.
pub open spec fn field_or0(s: Seq<u8>, max: int) -> int {
    match field_value(s) {
        Some(v) => if v > max {
            0
        } else {
            v
        },
        None => 0,
    }
}

fn field_exec(b: &[u8], from: usize, to: usize, max: u32) -> (r: u32)
    requires
        from <= to <= b@.len(),
        to - from <= 4,
    ensures
        r == field_or0(b@.subrange(from as int, to as int), max as int),
{
    let mut acc: u32 = 0;
    let mut ok = true;
    let mut i = from;
    assert(b@.subrange(from as int, from as int) =~= Seq::<u8>::empty());
    while i < to
        invariant
            from <= i <= to <= b@.len(),
            to - from <= 4,
            ok ==> field_value(b@.subrange(from as int, i as int)) == Some(acc as int),
            ok ==> acc < field_bound(i - from),
            !ok ==> field_value(b@.subrange(from as int, i as int)) is None,
        decreases to - i,
    {
        let x = b[i];
        let u = if 0x61 <= x && x <= 0x7A {
            x - 32
        } else {
            x
        };
        let d: Option<u32> = if x == 0x2E {
            Some(0)
        } else if 0x30 <= u && u <= 0x39 {
            Some((u - 0x30) as u32)
        } else if 0x41 <= u && u <= 0x56 {
            Some((u - 0x41 + 10) as u32)
        } else {
            None
        };
        proof {
            assert(b@.subrange(from as int, i + 1).drop_last() =~= b@.subrange(from as int, i as int));
        }
        if ok {
            match d {
                Some(dv) => {
                    proof {
                        reveal_with_fuel(field_bound, 5);
                    }
                    assert(field_bound(i - from) <= 157216);
                    assert(acc * 16 + dv < field_bound(i + 1 - from)) by (nonlinear_arith)
                        requires
                            acc < field_bound(i - from),
                            dv < 32,
                            field_bound(i + 1 - from) == 17 * field_bound(i - from),
                            field_bound(i - from) >= 32,
                    ;
                    acc = acc * 16 + dv;
                },
                None => {
                    ok = false;
                },
            }
        }
        i = i + 1;
    }
    if ok && acc <= max {
        acc
    } else {
        0
    }
}

/// A bound on the value of `n` field digits (digits reach 31): 32, then
/// times 17 per place.
pub open spec fn field_bound(n: int) -> int
    decreases n,
{
    if n <= 0 {
        32
    } else {
        17 * field_bound(n - 1)
    }
}

/// The note a three-byte field names (either case): `R--` sound off, `---`
/// none, else a letter `C D E F G A B`, `#` or `-`, and an octave `1`..`8`,
/// up to B-8; `None` for anything else.
pub open spec fn note_of(s: Seq<u8>) -> Option<i8> {
    let a = upper(s[0]);
    let b = upper(s[1]);
    let c = upper(s[2]);
    if a == 0x52 && b == 0x2D && c == 0x2D {
        Some(NOTE_SOUND_OFF)
    } else if a == 0x2D && b == 0x2D && c == 0x2D {
        Some(NOTE_NONE)
    } else if b != 0x23 && b != 0x2D {
        None
    } else {
        let oct = c as int - 0x31;
        let base = if a == 0x43 {
            0int
        } else if a == 0x44 {
            2
        } else if a == 0x45 {
            4
        } else if a == 0x46 {
            5
        } else if a == 0x47 {
            7
        } else if a == 0x41 {
            9
        } else if a == 0x42 {
            11
        } else {
            -1
        };
        let n = base + (if b == 0x23 {
            1int
        } else {
            0
        }) + oct * 12;
        if oct < 0 || oct > 7 || base < 0 || n > 95 {
            None
        } else {
            Some(n as i8)
        }
    }
}

fn upper_exec(x: u8) -> (r: u8)
    ensures
        r == upper(x),
{
    if 0x61 <= x && x <= 0x7A {
        x - 32
    } else {
        x
    }
}

fn note_exec(b: &[u8], at: usize) -> (r: i8)
    requires
        at + 3 <= b@.len(),
    ensures
        r == match note_of(b@.subrange(at as int, at + 3)) {
            Some(n) => n,
            None => NOTE_NONE,
        },
{
    let ghost s = b@.subrange(at as int, at + 3);
    assert(s[0] == b@[at as int] && s[1] == b@[at + 1] && s[2] == b@[at + 2]);
    let a = upper_exec(b[at]);
    let x = upper_exec(b[at + 1]);
    let c = upper_exec(b[at + 2]);
    if a == 0x52 && x == 0x2D && c == 0x2D {
        return NOTE_SOUND_OFF;
    }
    if a == 0x2D && x == 0x2D && c == 0x2D {
        return NOTE_NONE;
    }
    if x != 0x23 && x != 0x2D {
        return NOTE_NONE;
    }
    if c < 0x31 || c > 0x38 {
        return NOTE_NONE;
    }
    let oct = (c - 0x31) as i8;
    let base: i8 = if a == 0x43 {
        0
    } else if a == 0x44 {
        2
    } else if a == 0x45 {
        4
    } else if a == 0x46 {
        5
    } else if a == 0x47 {
        7
    } else if a == 0x41 {
        9
    } else if a == 0x42 {
        11
    } else {
        return NOTE_NONE;
    };
    let n = base + (if x == 0x23 {
        1
    } else {
        0
    }) + oct * 12;
    if n > 95 {
        NOTE_NONE
    } else {
        n
    }
}

/// The cell of channel `ch` in a pattern line: a default cell when the line
/// ends before it or its column does not start with `|`; else the note, the
/// sample, envelope, ornament and volume digits, and the command's number,
/// delay and two-digit parameter (see [`note_of`], [`field_or0`]).
pub open spec fn cell_of(b: Seq<u8>, ch: int) -> ChannelLine {
    let base = 8 + 14 * ch;
    if base + 13 > b.len() || b[base - 1] != 0x7C {
        empty_cell()
    } else {
        ChannelLine {
            note: match note_of(b.subrange(base, base + 3)) {
                Some(n) => n,
                None => NOTE_NONE,
            },
            sample: field_or0(b.subrange(base + 4, base + 5), 31) as u8,
            envelope: field_or0(b.subrange(base + 5, base + 6), 15) as u8,
            ornament: field_or0(b.subrange(base + 6, base + 7), 15) as u8,
            volume: field_or0(b.subrange(base + 7, base + 8), 15) as u8,
            additional_command: AdditionalCommand {
                number: field_or0(b.subrange(base + 9, base + 10), 15) as u8,
                delay: field_or0(b.subrange(base + 10, base + 11), 15) as u8,
                parameter: field_or0(b.subrange(base + 11, base + 13), 255) as u8,
            },
        }
    }
}

/// The row a pattern line describes: the envelope period (four digits),
/// the noise (two digits after a `|`) and the three cells (see [`cell_of`]);
/// `None` for a line shorter than 48 bytes.
pub open spec fn row_of(b: Seq<u8>) -> Option<PatternRow> {
    if b.len() < 48 {
        None
    } else {
        Some(
            PatternRow {
                envelope: field_or0(b.subrange(0, 4), 65535) as u16,
                noise: (if b[4] == 0x7C {
                    field_or0(b.subrange(5, 7), 31)
                } else {
                    0
                }) as u8,
                channel: [cell_of(b, 0), cell_of(b, 1), cell_of(b, 2)],
            },
        )
    }
}

/// Position `k` of `b` starts a character (or is its end): the byte there
/// is not a UTF-8 continuation byte.
pub open spec fn cb(b: Seq<u8>, k: int) -> bool {
    k == 0 || k == b.len() || (0 < k < b.len() && !(0x80 <= b[k] <= 0xBF))
}

/// The fields of cell `ch` of a pattern line start and end on character
/// boundaries.
pub open spec fn cell_cuts_ok(b: Seq<u8>, ch: int) -> bool {
    let base = 8 + 14 * ch;
    base + 13 <= b.len() ==> {
        &&& cb(b, base - 1)
        &&& cb(b, base)
        &&& b[base - 1] == 0x7C ==> forall|k: int|
            #![trigger cb(b, base + k)]
            3 <= k <= 13 && k != 12 ==> cb(b, base + k)
    }
}

/// The fields of a pattern line start and end on character boundaries
/// (always so for ASCII lines).
pub open spec fn row_cuts_ok(b: Seq<u8>) -> bool {
    b.len() >= 48 ==> {
        &&& cb(b, 4)
        &&& cb(b, 5)
        &&& b[4] == 0x7C ==> cb(b, 7)
        &&& cell_cuts_ok(b, 0)
        &&& cell_cuts_ok(b, 1)
        &&& cell_cuts_ok(b, 2)
    }
}

fn cb_exec(b: &[u8], k: usize) -> (r: bool)
    ensures
        r == cb(b@, k as int),
{
    k == 0 || k == b.len() || (k < b.len() && !(0x80 <= b[k] && b[k] <= 0xBF))
}

/// Whether a pattern line's fields start and end on character boundaries
/// (see [`row_cuts_ok`]).
pub fn row_cuts_ok_exec(b: &[u8]) -> (r: bool)
    ensures
        r == row_cuts_ok(b@),
{
    if b.len() < 48 {
        return true;
    }
    if !(cb_exec(b, 4) && cb_exec(b, 5)) {
        return false;
    }
    if b[4] == 0x7C && !cb_exec(b, 7) {
        return false;
    }
    let mut ch: usize = 0;
    while ch < 3
        invariant
            ch <= 3,
            b@.len() >= 48,
            forall|c: int| 0 <= c < ch ==> #[trigger] cell_cuts_ok(b@, c),
        decreases 3 - ch,
    {
        let base = 8 + 14 * ch;
        if base + 13 <= b.len() {
            if !(cb_exec(b, base - 1) && cb_exec(b, base)) {
                return false;
            }
            if b[base - 1] == 0x7C {
                let mut k: usize = 3;
                while k <= 13
                    invariant
                        3 <= k <= 14,
                        ch < 3,
                        b@.len() >= 48,
                        base == 8 + 14 * ch,
                        base + 13 <= b@.len(),
                        b@[base - 1] == 0x7C,
                        forall|c: int| 0 <= c < ch ==> #[trigger] cell_cuts_ok(b@, c),
                        forall|q: int| 3 <= q < k && q != 12 ==> #[trigger] cb(b@, base + q),
                    decreases 14 - k,
                {
                    if k != 12 && !cb_exec(b, base + k) {
                        assert(!cell_cuts_ok(b@, ch as int));
                        return false;
                    }
                    k = k + 1;
                }
            }
        }
        ch = ch + 1;
    }
    true
}

fn cell_exec(b: &[u8], ch: usize) -> (r: ChannelLine)
    requires
        ch < 3,
    ensures
        r == cell_of(b@, ch as int),
{
    let base = 8 + 14 * ch;
    if base + 13 > b.len() || b[base - 1] != 0x7C {
        return ChannelLine::default();
    }
    ChannelLine {
        note: note_exec(b, base),
        sample: field_exec(b, base + 4, base + 5, 31) as u8,
        envelope: field_exec(b, base + 5, base + 6, 15) as u8,
        ornament: field_exec(b, base + 6, base + 7, 15) as u8,
        volume: field_exec(b, base + 7, base + 8, 15) as u8,
        additional_command: AdditionalCommand {
            number: field_exec(b, base + 9, base + 10, 15) as u8,
            delay: field_exec(b, base + 10, base + 11, 15) as u8,
            parameter: field_exec(b, base + 11, base + 13, 255) as u8,
        },
    }
}

/// Read a pattern line given as bytes (see [`row_of`]).
pub(crate) fn row_from_bytes(b: &[u8]) -> (r: Option<PatternRow>)
    ensures
        r == row_of(b@),
{
    if b.len() < 48 {
        return None;
    }
    let env = field_exec(b, 0, 4, 65535) as u16;
    let noise = if b[4] == 0x7C {
        field_exec(b, 5, 7, 31) as u8
    } else {
        0
    };
    Some(PatternRow { noise, envelope: env, channel: [cell_exec(b, 0), cell_exec(b, 1), cell_exec(b, 2)] })
}

/// Read a pattern line (see [`row_of`]); a line shorter than a row is
/// refused.  Its fields must start and end on character boundaries (see
/// [`row_cuts_ok`]).
pub fn parse_pattern_row(s: &str) -> (r: Result<PatternRow, FormatError>)
    requires
        row_cuts_ok(s.spec_bytes()),
    ensures
        match row_of(s.spec_bytes()) {
            Some(row) => r == Ok::<PatternRow, FormatError>(row),
            None => r == Err::<PatternRow, FormatError>(FormatError::PatternRowTooShort),
        },
{
    match row_from_bytes(s.as_bytes()) {
        Some(row) => Ok(row),
        None => Err(FormatError::PatternRowTooShort),
    }
}

// ─── A written sample line reads back ────────────────────────────────────────

/// The bytes of an ASCII text.
pub open spec fn ascii(cs: Seq<char>) -> Seq<u8> {
    Seq::new(cs.len(), |i: int| cs[i] as u8)
}

proof fn lemma_hex_digit_char(k: nat)
    requires
        k < 16,
    ensures
        is_hex(digit_char(k) as u8),
        hex_digit(digit_char(k) as u8) == k,
{
    if k < 10 {
        assert((48 + k) as char as int == 48 + k);
    } else {
        assert((55 + k) as char as int == 55 + k);
    }
}

/// The hex digits of `v` read back as `v`.
proof fn lemma_hex_digits_value(v: nat)
    ensures
        forall|i: int| 0 <= i < digits(v, 16).len() ==> #[trigger] is_hex(ascii(digits(v, 16))[i]),
        digits_value(ascii(digits(v, 16)), 16) == v,
    decreases v,
{
    let d = digits(v, 16);
    if v < 16 {
        lemma_hex_digit_char(v);
        assert(ascii(d).drop_last() =~= Seq::<u8>::empty());
        assert(ascii(d).last() == digit_char(v) as u8);
        assert(digits_value(Seq::<u8>::empty(), 16) == 0);
        assert(digits_value(ascii(d), 16) == digits_value(ascii(d).drop_last(), 16) * 16 + hex_digit(ascii(d).last()));
    } else {
        lemma_hex_digits_value(v / 16);
        lemma_hex_digit_char(v % 16);
        let p = digits(v / 16, 16);
        assert(d == p.push(digit_char(v % 16)));
        assert(ascii(d).drop_last() =~= ascii(p));
        assert(ascii(d).last() == digit_char(v % 16) as u8);
        assert(digits_value(ascii(d), 16) == digits_value(ascii(d).drop_last(), 16) * 16 + hex_digit(ascii(d).last()));
        assert(v == (v / 16) * 16 + v % 16);
        assert forall|i: int| 0 <= i < d.len() implies #[trigger] is_hex(ascii(d)[i]) by {
            if i < p.len() {
                assert(ascii(d)[i] == ascii(p)[i]);
            }
        }
    }
}

proof fn lemma_zero_prefix_value(k: nat, s: Seq<u8>)
    ensures
        digits_value(Seq::new(k, |i: int| 0x30u8) + s, 16) == digits_value(s, 16),
    decreases s.len(), k,
{
    let z = Seq::new(k, |i: int| 0x30u8);
    if s.len() > 0 {
        lemma_zero_prefix_value(k, s.drop_last());
        assert((z + s).drop_last() =~= z + s.drop_last());
    } else {
        assert(z + s =~= z);
        if k > 0 {
            lemma_zero_prefix_value((k - 1) as nat, s);
            assert(z.drop_last() =~= Seq::new((k - 1) as nat, |i: int| 0x30u8) + s);
        }
    }
}

/// A zero-padded hex field reads back as its value, every byte a hex digit.
proof fn lemma_padded_hex(v: nat, w: int)
    ensures
        forall|i: int|
            0 <= i < pad_left(digits(v, 16), w, '0').len() ==> #[trigger] is_hex(
                ascii(pad_left(digits(v, 16), w, '0'))[i],
            ),
        digits_value(ascii(pad_left(digits(v, 16), w, '0')), 16) == v,
{
    let d = digits(v, 16);
    let r = repeat_char('0', w - d.len());
    let k = r.len();
    lemma_hex_digits_value(v);
    assert(ascii(pad_left(d, w, '0')) =~= Seq::new(k, |i: int| 0x30u8) + ascii(d));
    lemma_zero_prefix_value(k, ascii(d));
    assert forall|i: int| 0 <= i < pad_left(d, w, '0').len() implies #[trigger] is_hex(
        ascii(pad_left(d, w, '0'))[i],
    ) by {
        if i >= k {
            assert(ascii(pad_left(d, w, '0'))[i] == ascii(d)[i - k]);
        }
    }
}

proof fn lemma_find_at(b: Seq<u8>, i: int, j: int, c: ByteClass)
    requires
        0 <= i <= j < b.len(),
        forall|k: int| i <= k < j ==> !in_class(#[trigger] b[k], c),
        in_class(b[j], c),
    ensures
        find_class(b, i, c) == j,
    decreases j - i,
{
    if i < j {
        lemma_find_at(b, i + 1, j, c);
    }
}

/// The sample ticks a text line can carry exactly: amplitude 0..15, an
/// envelope or noise offset within -15..15, a tone offset other than
/// -32768, and no upward slide without a slide.
pub open spec fn tick_writable(t: SampleTick) -> bool {
    &&& t.amplitude <= 15
    &&& -15 <= t.add_to_envelope_or_noise <= 15
    &&& t.add_to_ton != i16::MIN
    &&& t.amplitude_sliding || !t.amplitude_slide_up
}

/// A sample tick written as a VTM text line (see [`tick_chars`]) reads back
/// as the same tick (see [`tick_of`]), for every tick a line can carry.
#[verifier::rlimit(100)]
pub proof fn lemma_tick_line_reads_back(t: SampleTick)
    requires
        tick_writable(t),
    ensures
        tick_of(ascii(tick_chars(t))) == Some(t),
{
    let ton = t.add_to_ton as int;
    let aeon = t.add_to_envelope_or_noise as int;
    let mt: nat = if ton < 0 { (-ton) as nat } else { ton as nat };
    let ma: nat = if aeon < 0 { (-aeon) as nat } else { aeon as nat };
    let h1 = pad_left(digits(mt, 16), 3, '0');
    let h2 = pad_left(digits(ma, 16), 2, '0');
    lemma_padded_hex(mt, 3);
    lemma_padded_hex(ma, 2);
    lemma_hex_digit_char((t.amplitude % 16) as nat);
    let c0 = seq![
        if t.mixer_ton { 'T' } else { 't' },
        if t.mixer_noise { 'N' } else { 'n' },
        if t.envelope_enabled { 'E' } else { 'e' },
        ' ',
    ];
    let sg1 = if ton >= 0 { '+' } else { '-' };
    let sg2 = if aeon >= 0 { '+' } else { '-' };
    let ac1 = if t.ton_accumulation { '^' } else { '_' };
    let ac2 = if t.envelope_or_noise_accumulation { '^' } else { '_' };
    let am = digit_char((t.amplitude % 16) as nat);
    let sl = if !t.amplitude_sliding { '_' } else if t.amplitude_slide_up { '+' } else { '-' };
    assert(signed_hex(ton, 3) == seq![sg1] + h1);
    assert(signed_hex(aeon, 2) == seq![sg2] + h2);
    let cs = tick_chars(t);
    assert(cs =~= c0 + seq![sg1] + h1 + seq![ac1, ' '] + seq![sg2] + h2 + seq![ac2, ' ', am, sl]);
    let b = ascii(cs);
    let l1 = h1.len() as int;
    let l2 = h2.len() as int;
    let e4 = 5 + l1;
    let e7 = e4 + 3 + l2;
    assert(b.len() == e7 + 4);
    assert(b[0] == (if t.mixer_ton { 0x54u8 } else { 0x74u8 }));
    assert(b[1] == (if t.mixer_noise { 0x4Eu8 } else { 0x6Eu8 }));
    assert(b[2] == (if t.envelope_enabled { 0x45u8 } else { 0x65u8 }));
    assert(b[3] == 0x20u8);
    assert(b[4] == (if ton >= 0 { 0x2Bu8 } else { 0x2Du8 }));
    assert(b.subrange(5, e4) =~= ascii(h1));
    assert(b[e4] == (if t.ton_accumulation { 0x5Eu8 } else { 0x5Fu8 }));
    assert(b[e4 + 1] == 0x20u8);
    assert(b[e4 + 2] == (if aeon >= 0 { 0x2Bu8 } else { 0x2Du8 }));
    assert(b.subrange(e4 + 3, e7) =~= ascii(h2));
    assert(b[e7] == (if t.envelope_or_noise_accumulation { 0x5Eu8 } else { 0x5Fu8 }));
    assert(b[e7 + 1] == 0x20u8);
    assert(b[e7 + 2] == am as u8);
    assert(b[e7 + 3] == (if !t.amplitude_sliding { 0x5Fu8 } else if t.amplitude_slide_up { 0x2Bu8 } else { 0x2Du8 }));
    assert forall|k: int| 5 <= k < e4 implies #[trigger] is_hex(b[k]) by {
        assert(b[k] == ascii(h1)[k - 5]);
    }
    assert forall|k: int| e4 + 3 <= k < e7 implies #[trigger] is_hex(b[k]) by {
        assert(b[k] == ascii(h2)[k - e4 - 3]);
    }
    lemma_find_at(b, 0, 0, ByteClass::Ton);
    lemma_find_at(b, 1, 1, ByteClass::Noise);
    lemma_find_at(b, 2, 2, ByteClass::Env);
    lemma_find_at(b, 3, 4, ByteClass::SignOrHex);
    lemma_find_at(b, 5, e4, ByteClass::NotHex);
    lemma_find_at(b, e4, e4, ByteClass::Acc);
    lemma_find_at(b, e4 + 1, e4 + 2, ByteClass::SignOrHex);
    lemma_find_at(b, e4 + 3, e7, ByteClass::NotHex);
    lemma_find_at(b, e7, e7, ByteClass::Acc);
    lemma_find_at(b, e7 + 1, e7 + 2, ByteClass::Hex);
    lemma_find_at(b, e7 + 3, e7 + 3, ByteClass::Slide);
    assert(signed_field(b, 3, 0x7FFF) == Some((e4, ton < 0, mt)));
    assert(signed_field(b, e4 + 1, 255) == Some((e7, aeon < 0, ma)));
    assert(tick_of(b) == Some(t));
}

// ─── A written pattern line reads back ───────────────────────────────────────

proof fn lemma_field_digit_char(k: nat)
    requires
        k < 32,
    ensures
        field_digit(digit_char(k) as u8) == Some(k as int),
{
    if k < 10 {
        assert((48 + k) as char as int == 48 + k);
    } else {
        assert((55 + k) as char as int == 55 + k);
    }
}

/// `16^k`.
pub open spec fn pow16(k: nat) -> nat
    decreases k,
{
    if k == 0 {
        1
    } else {
        16 * pow16((k - 1) as nat)
    }
}

proof fn lemma_digits_len(v: nat, k: nat)
    requires
        k >= 1,
        v < pow16(k),
    ensures
        digits(v, 16).len() <= k,
    decreases k,
{
    if v >= 16 {
        assert(v / 16 < pow16((k - 1) as nat)) by {
            assert(pow16(k) == 16 * pow16((k - 1) as nat));
        }
        if k == 1 {
            assert(pow16(0) == 1);
        } else {
            lemma_digits_len(v / 16, (k - 1) as nat);
        }
    }
}

proof fn lemma_field_digits(v: nat)
    ensures
        field_value(ascii(digits(v, 16))) == Some(v as int),
    decreases v,
{
    let d = digits(v, 16);
    if v < 16 {
        lemma_field_digit_char(v);
        assert(ascii(d).drop_last() =~= Seq::<u8>::empty());
        assert(ascii(d).last() == digit_char(v) as u8);
        assert(field_value(Seq::<u8>::empty()) == Some(0int));
        assert(ascii(d).len() == 1);
    } else {
        lemma_field_digits(v / 16);
        lemma_field_digit_char(v % 16);
        let p = digits(v / 16, 16);
        assert(d == p.push(digit_char(v % 16)));
        assert(ascii(d).drop_last() =~= ascii(p));
        assert(ascii(d).last() == digit_char(v % 16) as u8);
        assert(v == (v / 16) * 16 + v % 16);
        assert(ascii(d).len() == p.len() + 1);
    }
}

proof fn lemma_field_dots(k: nat, s: Seq<u8>)
    ensures
        field_value(Seq::new(k, |i: int| 0x2Eu8) + s) == field_value(s) || field_value(s) is None,
        field_value(s) is Some ==> field_value(Seq::new(k, |i: int| 0x2Eu8) + s) == field_value(s),
    decreases s.len(), k,
{
    let z = Seq::new(k, |i: int| 0x2Eu8);
    if s.len() > 0 {
        lemma_field_dots(k, s.drop_last());
        assert((z + s).drop_last() =~= z + s.drop_last());
        assert((z + s).last() == s.last());
    } else {
        assert(z + s =~= z);
        if k > 0 {
            lemma_field_dots((k - 1) as nat, s);
            assert(z.drop_last() =~= Seq::new((k - 1) as nat, |i: int| 0x2Eu8) + s);
        }
        assert(field_value(s) == Some(0int));
    }
}

/// A dotted hex field reads back as its value.
proof fn lemma_dotted_field(v: nat, w: int)
    requires
        w >= 1,
    ensures
        field_value(ascii(dotted_hex(v, w))) == Some(v as int),
{
    if v == 0 {
        assert(ascii(dotted_hex(v, w)) =~= Seq::new(w as nat, |i: int| 0x2Eu8) + Seq::<u8>::empty());
        lemma_field_dots(w as nat, Seq::<u8>::empty());
    } else {
        let d = digits(v, 16);
        let k = repeat_char('.', w - d.len()).len();
        lemma_field_digits(v);
        assert(ascii(dotted_hex(v, w)) =~= Seq::new(k, |i: int| 0x2Eu8) + ascii(d));
        lemma_field_dots(k, ascii(d));
    }
}

/// A field of one character reads back as its digit value.
proof fn lemma_one_field(c: char, v: nat)
    requires
        v < 32,
        c == (if v == 0 { '.' } else { digit_char(v) }),
    ensures
        field_value(seq![c as u8]) == Some(v as int),
{
    if v > 0 {
        lemma_field_digit_char(v);
    } else {
        assert(('.' as u8) == 0x2Eu8);
    }
    assert(seq![c as u8].drop_last() =~= Seq::<u8>::empty());
    assert(seq![c as u8].last() == c as u8);
    assert(field_value(Seq::<u8>::empty()) == Some(0int));
}

proof fn lemma_cell_shape(c: ChannelLine)
    requires
        cell_writable(c),
    ensures
        cell_chars(c).len() == 14,
        cell_chars(c) == seq!['|'] + note_chars(c.note) + seq![
            ' ',
            samp_char(c.sample),
            int1d_char(c.envelope),
            int1d_char(c.ornament),
            int1d_char(c.volume),
            ' ',
            int1d_char(c.additional_command.number),
            int1d_char(c.additional_command.delay),
        ] + dotted_hex(c.additional_command.parameter as nat, 2),
{
    lemma_note_field(c.note);
    assert(pow16(2) == 256) by {
        reveal_with_fuel(pow16, 3);
    }
    lemma_digits_len(c.additional_command.parameter as nat, 2);
}

/// A note field reads back as the note (sound-off, no note, or 0..95).
proof fn lemma_note_field(n: i8)
    requires
        -2 <= n <= 95,
    ensures
        note_chars(n).len() == 3,
        note_of(ascii(note_chars(n))) == Some(n),
{
    if n >= 0 {
        let d = (n as int / 12 + 1) as nat;
        assert(digits(d, 10) == seq![digit_char(d)]);
        assert((48 + d) as char as int == 48 + d);
    }
}

/// The cells a text line carries exactly: a note from -2 (sound off) to 95,
/// sample 0..31, four-bit envelope, ornament, volume, command and delay.
pub open spec fn cell_writable(c: ChannelLine) -> bool {
    &&& -2 <= c.note <= 95
    &&& c.sample <= 31
    &&& c.envelope <= 15
    &&& c.ornament <= 15
    &&& c.volume <= 15
    &&& c.additional_command.number <= 15
    &&& c.additional_command.delay <= 15
}

/// The rows a text line carries exactly: noise 0..31 and writable cells.
pub open spec fn row_writable(r: PatternRow) -> bool {
    &&& r.noise <= 31
    &&& cell_writable(r.channel[0])
    &&& cell_writable(r.channel[1])
    &&& cell_writable(r.channel[2])
}

proof fn lemma_cell_reads_back(c: ChannelLine, b: Seq<u8>, ch: int)
    requires
        cell_writable(c),
        0 <= ch < 3,
        8 + 14 * ch + 13 <= b.len(),
        b.subrange(7 + 14 * ch, 21 + 14 * ch) == ascii(cell_chars(c)),
    ensures
        cell_of(b, ch) == c,
{
    let base = 8 + 14 * ch;
    lemma_note_field(c.note);
    lemma_dotted_field(c.additional_command.parameter as nat, 2);
    lemma_cell_shape(c);
    let cc = cell_chars(c);
    let nc = note_chars(c.note);
    let pc = dotted_hex(c.additional_command.parameter as nat, 2);
    assert forall|i: int| 0 <= i < 14 implies #[trigger] b[7 + 14 * ch + i] == cc[i] as u8 by {
        assert(b.subrange(7 + 14 * ch, 21 + 14 * ch)[i] == ascii(cc)[i]);
    }
    assert(b[7 + 14 * ch + 0] == cc[0] as u8);
    assert(('|' as u8) == 0x7Cu8);
    assert(b.subrange(base, base + 3) =~= ascii(nc)) by {
        assert forall|i: int| 0 <= i < 3 implies b.subrange(base, base + 3)[i] == ascii(nc)[i] by {
            assert(b[7 + 14 * ch + (i + 1)] == cc[i + 1] as u8);
        }
    }
    assert(b.subrange(base + 11, base + 13) =~= ascii(pc)) by {
        assert forall|i: int| 0 <= i < 2 implies b.subrange(base + 11, base + 13)[i] == ascii(pc)[i] by {
            assert(b[7 + 14 * ch + (i + 12)] == cc[i + 12] as u8);
        }
    }
    assert(b.subrange(base + 4, base + 5) =~= seq![samp_char(c.sample) as u8]) by {
        assert(b[7 + 14 * ch + 5] == cc[5] as u8);
    }
    assert(b.subrange(base + 5, base + 6) =~= seq![int1d_char(c.envelope) as u8]) by {
        assert(b[7 + 14 * ch + 6] == cc[6] as u8);
    }
    assert(b.subrange(base + 6, base + 7) =~= seq![int1d_char(c.ornament) as u8]) by {
        assert(b[7 + 14 * ch + 7] == cc[7] as u8);
    }
    assert(b.subrange(base + 7, base + 8) =~= seq![int1d_char(c.volume) as u8]) by {
        assert(b[7 + 14 * ch + 8] == cc[8] as u8);
    }
    assert(b.subrange(base + 9, base + 10) =~= seq![int1d_char(c.additional_command.number) as u8]) by {
        assert(b[7 + 14 * ch + 10] == cc[10] as u8);
    }
    assert(b.subrange(base + 10, base + 11) =~= seq![int1d_char(c.additional_command.delay) as u8]) by {
        assert(b[7 + 14 * ch + 11] == cc[11] as u8);
    }
    assert(samp_char(c.sample) == (if c.sample == 0 { '.' } else { digit_char(c.sample as nat) }));
    lemma_one_field(samp_char(c.sample), c.sample as nat);
    lemma_one_field(int1d_char(c.envelope), c.envelope as nat);
    lemma_one_field(int1d_char(c.ornament), c.ornament as nat);
    lemma_one_field(int1d_char(c.volume), c.volume as nat);
    lemma_one_field(int1d_char(c.additional_command.number), c.additional_command.number as nat);
    lemma_one_field(int1d_char(c.additional_command.delay), c.additional_command.delay as nat);
}

/// A pattern row written as a VTM text line (see [`row_chars`]) reads back
/// as the same row (see [`row_of`]), for every row a line can carry.
#[verifier::rlimit(100)]
pub proof fn lemma_row_line_reads_back(r: PatternRow)
    requires
        row_writable(r),
    ensures
        row_of(ascii(row_chars(r))) == Some(r),
{
    let e = dotted_hex(r.envelope as nat, 4);
    let nz = dotted_hex(r.noise as nat, 2);
    assert(pow16(4) == 65536 && pow16(2) == 256) by {
        reveal_with_fuel(pow16, 5);
    }
    lemma_digits_len(r.envelope as nat, 4);
    lemma_digits_len(r.noise as nat, 2);
    lemma_dotted_field(r.envelope as nat, 4);
    lemma_dotted_field(r.noise as nat, 2);
    assert(e.len() == 4 && nz.len() == 2);
    lemma_cell_shape(r.channel[0]);
    lemma_cell_shape(r.channel[1]);
    lemma_cell_shape(r.channel[2]);
    let c0 = cell_chars(r.channel[0]);
    let c1 = cell_chars(r.channel[1]);
    let c2 = cell_chars(r.channel[2]);
    let cs = row_chars(r);
    let b = ascii(cs);
    assert(cs =~= e + seq!['|'] + nz + c0 + c1 + c2);
    assert(b.len() == 49);
    assert(b.subrange(0, 4) =~= ascii(e));
    assert(b[4] == 0x7Cu8);
    assert(b.subrange(5, 7) =~= ascii(nz));
    assert(b.subrange(7, 21) =~= ascii(c0));
    assert(b.subrange(21, 35) =~= ascii(c1));
    assert(b.subrange(35, 49) =~= ascii(c2));
    lemma_cell_reads_back(r.channel[0], b, 0);
    lemma_cell_reads_back(r.channel[1], b, 1);
    lemma_cell_reads_back(r.channel[2], b, 2);
    assert(row_of(b).unwrap().channel =~= r.channel);
}

// ─── Written lines as text ───────────────────────────────────────────────────

/// Every character is ASCII.
pub open spec fn all_ascii(cs: Seq<char>) -> bool {
    forall|i: int| 0 <= i < cs.len() ==> (#[trigger] cs[i] as int) < 128
}

proof fn lemma_char_below_128(c: char)
    requires
        (c as int) < 128,
    ensures
        '\0' <= c <= '\u{7f}',
{
    assert((c as u32) < 128);
    assert(('\u{7f}' as u32) == 127);
}

proof fn lemma_ascii_text(s: &str)
    requires
        all_ascii(s@),
    ensures
        s.spec_bytes() == ascii(s@),
        forall|i: int| 0 <= i < s.spec_bytes().len() ==> #[trigger] s.spec_bytes()[i] < 0x80,
{
    assert forall|i: int| 0 <= i < s@.len() implies '\0' <= #[trigger] s@[i] <= '\u{7f}' by {
        lemma_char_below_128(s@[i]);
    }
    assert(vstd::string::is_ascii(s));
    vstd::string::is_ascii_spec_bytes(s);
    assert(s.spec_bytes() =~= ascii(s@));
    assert forall|i: int| 0 <= i < s.spec_bytes().len() implies #[trigger] s.spec_bytes()[i] < 0x80 by {
        assert(s.spec_bytes()[i] == s@[i] as u8);
    }
}

proof fn lemma_digits_ascii(v: nat)
    ensures
        all_ascii(digits(v, 16)),
    decreases v,
{
    if v < 16 {
        assert(digits(v, 16)[0] == digit_char(v));
    } else {
        lemma_digits_ascii(v / 16);
        assert(digits(v, 16) == digits(v / 16, 16).push(digit_char(v % 16)));
    }
    assert forall|i: int| 0 <= i < digits(v, 16).len() implies (#[trigger] digits(v, 16)[i] as int) < 128 by {
        if v >= 16 && i < digits(v / 16, 16).len() {
            assert(digits(v, 16)[i] == digits(v / 16, 16)[i]);
        }
    }
}

proof fn lemma_pad_ascii(v: nat, w: int, c: char)
    requires
        (c as int) < 128,
    ensures
        all_ascii(pad_left(digits(v, 16), w, c)),
{
    lemma_digits_ascii(v);
    let d = digits(v, 16);
    let k = repeat_char(c, w - d.len()).len() as int;
    assert forall|i: int| 0 <= i < pad_left(d, w, c).len() implies (#[trigger] pad_left(d, w, c)[i] as int) < 128 by {
        if i >= k {
            assert(pad_left(d, w, c)[i] == d[i - k]);
        }
    }
}

proof fn lemma_concat_ascii(a: Seq<char>, b: Seq<char>)
    requires
        all_ascii(a),
        all_ascii(b),
    ensures
        all_ascii(a + b),
{
    assert forall|i: int| 0 <= i < (a + b).len() implies ((#[trigger] (a + b)[i]) as int) < 128 by {
        if i < a.len() {
            assert((a + b)[i] == a[i]);
        } else {
            assert((a + b)[i] == b[i - a.len()]);
        }
    }
}

/// A tick's line is ASCII, for every tick a line can carry.
pub(crate) proof fn lemma_tick_ascii(t: SampleTick)
    requires
        tick_writable(t),
    ensures
        all_ascii(tick_chars(t)),
{
    let ton = t.add_to_ton as int;
    let aeon = t.add_to_envelope_or_noise as int;
    let mt: nat = if ton < 0 { (-ton) as nat } else { ton as nat };
    let ma: nat = if aeon < 0 { (-aeon) as nat } else { aeon as nat };
    lemma_pad_ascii(mt, 3, '0');
    lemma_pad_ascii(ma, 2, '0');
    lemma_digits_ascii((t.amplitude % 16) as nat);
    let a = digits((t.amplitude % 16) as nat, 16);
    assert(a == seq![digit_char((t.amplitude % 16) as nat)]);
    assert forall|i: int| 0 <= i < tick_chars(t).len() implies (#[trigger] tick_chars(t)[i] as int) < 128 by {
        let p1 = pad_left(digits(mt, 16), 3, '0');
        let p2 = pad_left(digits(ma, 16), 2, '0');
        let l1 = p1.len() as int;
        let l2 = p2.len() as int;
        if 5 <= i < 5 + l1 {
            assert(tick_chars(t)[i] == p1[i - 5]);
        } else if 8 + l1 <= i < 8 + l1 + l2 {
            assert(tick_chars(t)[i] == p2[i - 8 - l1]);
        } else if i == 10 + l1 + l2 {
            assert(tick_chars(t)[i] == a[0]);
        }
    }
}

/// A sample line written for a tick (see [`write_sample_tick`]) is read
/// back by [`parse_sample_tick`] as that tick, for every tick a line can
/// carry.
pub proof fn lemma_written_tick_line_parses(s: &str, t: SampleTick)
    requires
        tick_writable(t),
        s@ == tick_chars(t),
    ensures
        tick_of(s.spec_bytes()) == Some(t),
{
    lemma_tick_ascii(t);
    lemma_ascii_text(s);
    lemma_tick_line_reads_back(t);
}

proof fn lemma_dotted_ascii(v: nat, w: int)
    ensures
        all_ascii(dotted_hex(v, w)),
{
    if v == 0 {
        assert forall|i: int| 0 <= i < dotted_hex(v, w).len() implies (#[trigger] dotted_hex(v, w)[i] as int) < 128 by {
            assert(dotted_hex(v, w)[i] == '.');
        }
    } else {
        lemma_pad_ascii(v, w, '.');
    }
}

proof fn lemma_small_char_ascii(k: u8)
    ensures
        (int1d_char(k) as int) < 128,
        (samp_char(k) as int) < 128,
{
    if 0 < k <= 15 {
        if k < 10 {
            assert((48 + k) as char as int == 48 + k);
        } else {
            assert((55 + k) as char as int == 55 + k);
        }
    }
    if 0 < k <= 31 {
        if k < 10 {
            assert((48 + k) as char as int == 48 + k);
        } else {
            assert((55 + k) as char as int == 55 + k);
        }
    }
}

proof fn lemma_cell_ascii(c: ChannelLine)
    requires
        cell_writable(c),
    ensures
        all_ascii(cell_chars(c)),
{
    lemma_cell_shape(c);
    lemma_note_field(c.note);
    let nc = note_chars(c.note);
    if c.note >= 0 {
        let d = (c.note as int / 12 + 1) as nat;
        assert(digits(d, 10) == seq![digit_char(d)]);
        assert((48 + d) as char as int == 48 + d);
    }
    assert forall|i: int| 0 <= i < 3 implies (#[trigger] nc[i] as int) < 128 by {
        if c.note >= 0 {
            let d = (c.note as int / 12 + 1) as nat;
            if i == 2 {
                assert(nc[2] == digit_char(d));
            }
        }
    }
    lemma_dotted_ascii(c.additional_command.parameter as nat, 2);
    lemma_small_char_ascii(c.sample);
    lemma_small_char_ascii(c.envelope);
    lemma_small_char_ascii(c.ornament);
    lemma_small_char_ascii(c.volume);
    lemma_small_char_ascii(c.additional_command.number);
    lemma_small_char_ascii(c.additional_command.delay);
    let pc = dotted_hex(c.additional_command.parameter as nat, 2);
    let cc = cell_chars(c);
    assert forall|i: int| 0 <= i < 14 implies (#[trigger] cc[i] as int) < 128 by {
        if 1 <= i < 4 {
            assert(cc[i] == nc[i - 1]);
        } else if i >= 12 {
            assert(cc[i] == pc[i - 12]);
        }
    }
}

/// A row's line is ASCII, for every row a line can carry.
pub(crate) proof fn lemma_row_ascii(r: PatternRow)
    requires
        row_writable(r),
    ensures
        all_ascii(row_chars(r)),
{
    lemma_cell_ascii(r.channel[0]);
    lemma_cell_ascii(r.channel[1]);
    lemma_cell_ascii(r.channel[2]);
    lemma_dotted_ascii(r.envelope as nat, 4);
    lemma_dotted_ascii(r.noise as nat, 2);
    let e = dotted_hex(r.envelope as nat, 4);
    let nz = dotted_hex(r.noise as nat, 2);
    lemma_concat_ascii(e, seq!['|']);
    lemma_concat_ascii(e + seq!['|'], nz);
    lemma_concat_ascii(e + seq!['|'] + nz, cell_chars(r.channel[0]));
    lemma_concat_ascii(e + seq!['|'] + nz + cell_chars(r.channel[0]), cell_chars(r.channel[1]));
    lemma_concat_ascii(
        e + seq!['|'] + nz + cell_chars(r.channel[0]) + cell_chars(r.channel[1]),
        cell_chars(r.channel[2]),
    );
    assert(row_chars(r) == e + seq!['|'] + nz + cell_chars(r.channel[0]) + cell_chars(r.channel[1]) + cell_chars(r.channel[2]));
}

/// A pattern line written for a row (see [`write_pattern_row`]) is read back
/// by [`parse_pattern_row`] as that row, for every row a line can carry: its
/// fields are cut on character boundaries and read as the row's.
pub proof fn lemma_written_row_line_parses(s: &str, r: PatternRow)
    requires
        row_writable(r),
        s@ == row_chars(r),
    ensures
        row_cuts_ok(s.spec_bytes()),
        row_of(s.spec_bytes()) == Some(r),
{
    lemma_row_ascii(r);
    lemma_ascii_text(s);
    lemma_row_line_reads_back(r);
    let b = s.spec_bytes();
    assert forall|k: int| 0 <= k <= b.len() implies #[trigger] cb(b, k) by {
        if 0 < k < b.len() {
            assert(b[k] < 0x80);
        }
    }
}

/// Every character is printable ASCII (space to `~`).
pub open spec fn printable(cs: Seq<char>) -> bool {
    forall|i: int| 0 <= i < cs.len() ==> 0x20 <= (#[trigger] cs[i] as int) < 0x7F
}

/// A character of a dotted hex field: `.` or an upper-case hex digit.
pub open spec fn dotted_char(c: char) -> bool {
    c == '.' || (48 <= (c as int) <= 57) || (65 <= (c as int) <= 70)
}

proof fn lemma_hex_chars(v: nat)
    ensures
        forall|i: int| 0 <= i < digits(v, 16).len() ==> dotted_char(#[trigger] digits(v, 16)[i]),
    decreases v,
{
    if v < 16 {
        assert(digits(v, 16)[0] == digit_char(v));
        if v < 10 {
            assert((48 + v) as char as int == 48 + v);
        } else {
            assert((55 + v) as char as int == 55 + v);
        }
    } else {
        lemma_hex_chars(v / 16);
        assert(digits(v, 16) == digits(v / 16, 16).push(digit_char(v % 16)));
        if v % 16 < 10 {
            assert((48 + v % 16) as char as int == 48 + v % 16);
        } else {
            assert((55 + v % 16) as char as int == 55 + v % 16);
        }
        assert forall|i: int| 0 <= i < digits(v, 16).len() implies dotted_char(#[trigger] digits(v, 16)[i]) by {
            if i < digits(v / 16, 16).len() {
                assert(digits(v, 16)[i] == digits(v / 16, 16)[i]);
            }
        }
    }
}

proof fn lemma_dotted_chars(v: nat, w: int)
    ensures
        forall|i: int| 0 <= i < dotted_hex(v, w).len() ==> dotted_char(#[trigger] dotted_hex(v, w)[i]),
{
    if v > 0 {
        lemma_hex_chars(v);
        let d = digits(v, 16);
        let k = repeat_char('.', w - d.len()).len() as int;
        assert forall|i: int| 0 <= i < dotted_hex(v, w).len() implies dotted_char(#[trigger] dotted_hex(v, w)[i]) by {
            if i >= k {
                assert(dotted_hex(v, w)[i] == d[i - k]);
            }
        }
    }
}

proof fn lemma_small_char_printable(k: u8)
    ensures
        0x21 <= (int1d_char(k) as int) < 0x7F,
        0x21 <= (samp_char(k) as int) < 0x7F,
{
    if 0 < k <= 31 {
        if k < 10 {
            assert((48 + k) as char as int == 48 + k);
        } else {
            assert((55 + k) as char as int == 55 + k);
        }
    }
}

proof fn lemma_cell_printable(c: ChannelLine)
    requires
        cell_writable(c),
    ensures
        printable(cell_chars(c)),
        dotted_char(cell_chars(c)[13]),
{
    lemma_cell_shape(c);
    lemma_note_field(c.note);
    let nc = note_chars(c.note);
    if c.note >= 0 {
        let d = (c.note as int / 12 + 1) as nat;
        assert(digits(d, 10) == seq![digit_char(d)]);
        assert((48 + d) as char as int == 48 + d);
    }
    assert forall|i: int| 0 <= i < 3 implies 0x20 <= (#[trigger] nc[i] as int) < 0x7F by {
        if c.note >= 0 && c.note != NOTE_SOUND_OFF {
            let d = (c.note as int / 12 + 1) as nat;
            if i == 2 {
                assert(nc[2] == digit_char(d));
            }
        }
    }
    lemma_dotted_chars(c.additional_command.parameter as nat, 2);
    lemma_small_char_printable(c.sample);
    lemma_small_char_printable(c.envelope);
    lemma_small_char_printable(c.ornament);
    lemma_small_char_printable(c.volume);
    lemma_small_char_printable(c.additional_command.number);
    lemma_small_char_printable(c.additional_command.delay);
    let pc = dotted_hex(c.additional_command.parameter as nat, 2);
    let cc = cell_chars(c);
    assert forall|i: int| 0 <= i < 14 implies 0x20 <= (#[trigger] cc[i] as int) < 0x7F by {
        if 1 <= i < 4 {
            assert(cc[i] == nc[i - 1]);
        } else if i >= 12 {
            assert(cc[i] == pc[i - 12]);
            assert(dotted_char(pc[i - 12]));
        }
    }
    assert(cc[13] == pc[1]);
}

/// A row's line is printable ASCII (so it holds no newline) and starts and
/// ends with a character other than the space, for every row a line can
/// carry.
pub(crate) proof fn lemma_row_printable(r: PatternRow)
    requires
        row_writable(r),
    ensures
        printable(row_chars(r)),
        row_chars(r).len() >= 1,
        0x21 <= (row_chars(r)[0] as int) < 0x7F,
        0x21 <= (row_chars(r)[row_chars(r).len() - 1] as int) < 0x7F,
        row_chars(r)[0] != '[',
{
    lemma_cell_printable(r.channel[0]);
    lemma_cell_printable(r.channel[1]);
    lemma_cell_printable(r.channel[2]);
    lemma_cell_shape(r.channel[0]);
    lemma_cell_shape(r.channel[1]);
    lemma_cell_shape(r.channel[2]);
    lemma_dotted_chars(r.envelope as nat, 4);
    lemma_dotted_chars(r.noise as nat, 2);
    assert(pow16(4) == 65536 && pow16(2) == 256) by {
        reveal_with_fuel(pow16, 5);
    }
    lemma_digits_len(r.envelope as nat, 4);
    lemma_digits_len(r.noise as nat, 2);
    let e = dotted_hex(r.envelope as nat, 4);
    let nz = dotted_hex(r.noise as nat, 2);
    let c0 = cell_chars(r.channel[0]);
    let c1 = cell_chars(r.channel[1]);
    let c2 = cell_chars(r.channel[2]);
    let rc = row_chars(r);
    assert(e.len() == 4 && nz.len() == 2);
    assert(rc == e + seq!['|'] + nz + c0 + c1 + c2);
    assert forall|i: int| 0 <= i < rc.len() implies 0x20 <= (#[trigger] rc[i] as int) < 0x7F by {
        if i < 4 {
            assert(rc[i] == e[i]);
            assert(dotted_char(e[i]));
        } else if i == 4 {
        } else if i < 7 {
            assert(rc[i] == nz[i - 5]);
            assert(dotted_char(nz[i - 5]));
        } else if i < 21 {
            assert(rc[i] == c0[i - 7]);
        } else if i < 35 {
            assert(rc[i] == c1[i - 21]);
        } else {
            assert(rc[i] == c2[i - 35]);
        }
    }
    assert(rc[0] == e[0]);
    assert(dotted_char(e[0]));
    assert(rc[rc.len() - 1] == c2[13]);
}

} // verus!





