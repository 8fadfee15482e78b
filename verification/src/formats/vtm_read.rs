//! Vortex Tracker II text modules (`*.vtm`): reading a whole module.
use crate::formats::asc::{no_reads, orns_match, pats_match, sams_match, start_orn_slots, OrnRead, PatRead, SamRead};
use crate::formats::vtm::{
    ornament_of, parse_ornament_line, parse_pattern_row, parse_sample_tick, row_cuts_ok, row_cuts_ok_exec, row_of,
    tick_of,
};
use crate::formats::FormatError;
use crate::types::{
    blank_tick, empty_row, ChannelState, FeaturesLevel, Module, Ornament, Pattern, PatternRow, Sample, SampleTick,
    MAX_NUM_OF_PATS, MAX_PAT_NUM,
};
use vstd::prelude::*;
use vstd::string::StringSliceAdditionalSpecFns;

verus! {

// ─── White space and lines ───────────────────────────────────────────────────

/// The length of the UTF-8 encoding of a white-space character (Unicode
/// `White_Space`) starting at `i`, 0 when none starts there.
pub open spec fn ws_at(b: Seq<u8>, i: int) -> int {
    let n = b.len();
    if i < 0 || i >= n {
        0
    } else if (0x09 <= b[i] <= 0x0D) || b[i] == 0x20 {
        1
    } else if i + 1 < n && b[i] == 0xC2 && (b[i + 1] == 0x85 || b[i + 1] == 0xA0) {
        2
    } else if i + 2 < n && ((b[i] == 0xE1 && b[i + 1] == 0x9A && b[i + 2] == 0x80) || (b[i] == 0xE2 && b[i + 1]
        == 0x80 && (b[i + 2] <= 0x8A || b[i + 2] == 0xA8 || b[i + 2] == 0xA9 || b[i + 2] == 0xAF) && b[i + 2]
        >= 0x80) || (b[i] == 0xE2 && b[i + 1] == 0x81 && b[i + 2] == 0x9F) || (b[i] == 0xE3 && b[i + 1] == 0x80
        && b[i + 2] == 0x80)) {
        3
    } else {
        0
    }
}

/// The length of the encoding of a white-space character ending at `j`
/// (it starts at or after `lo`), 0 when none ends there.
pub open spec fn ws_before(b: Seq<u8>, lo: int, j: int) -> int {
    if j - 1 >= lo && ws_at(b, j - 1) == 1 {
        1
    } else if j - 2 >= lo && ws_at(b, j - 2) == 2 {
        2
    } else if j - 3 >= lo && ws_at(b, j - 3) == 3 {
        3
    } else {
        0
    }
}

/// Where `b[i..j]` starts once leading white space is dropped.
pub open spec fn trim_start(b: Seq<u8>, i: int, j: int) -> int
    decreases j - i,
{
    if i < j && ws_at(b, i) > 0 && i + ws_at(b, i) <= j {
        trim_start(b, i + ws_at(b, i), j)
    } else {
        i
    }
}

/// Where `b[i..j]` ends once trailing white space is dropped.
pub open spec fn trim_end(b: Seq<u8>, i: int, j: int) -> int
    decreases j - i,
{
    if i < j && ws_before(b, i, j) > 0 {
        trim_end(b, i, j - ws_before(b, i, j))
    } else {
        j
    }
}

/// `b[i..j]` without leading and trailing white space: its start and end.
pub open spec fn trimmed(b: Seq<u8>, i: int, j: int) -> (int, int) {
    let s = trim_start(b, i, j);
    (s, trim_end(b, s, j))
}

pub proof fn lemma_trim_bounds(b: Seq<u8>, i: int, j: int)
    requires
        0 <= i <= j <= b.len(),
    ensures
        i <= trimmed(b, i, j).0 <= trimmed(b, i, j).1 <= j,
    decreases j - i,
{
    lemma_trim_start_bounds(b, i, j);
    lemma_trim_end_bounds(b, trim_start(b, i, j), j);
}

pub proof fn lemma_trim_start_bounds(b: Seq<u8>, i: int, j: int)
    requires
        i <= j,
    ensures
        i <= trim_start(b, i, j) <= j,
    decreases j - i,
{
    if i < j && ws_at(b, i) > 0 && i + ws_at(b, i) <= j {
        lemma_trim_start_bounds(b, i + ws_at(b, i), j);
    }
}

pub proof fn lemma_trim_end_bounds(b: Seq<u8>, i: int, j: int)
    requires
        i <= j,
    ensures
        i <= trim_end(b, i, j) <= j,
    decreases j - i,
{
    if i < j && ws_before(b, i, j) > 0 {
        lemma_trim_end_bounds(b, i, j - ws_before(b, i, j));
    }
}

fn ws_at_exec(b: &[u8], i: usize) -> (r: usize)
    ensures
        r == ws_at(b@, i as int),
        r <= 3,
{
    let n = b.len();
    if i >= n {
        0
    } else if (0x09 <= b[i] && b[i] <= 0x0D) || b[i] == 0x20 {
        1
    } else if n - i > 1 && b[i] == 0xC2 && (b[i + 1] == 0x85 || b[i + 1] == 0xA0) {
        2
    } else if n - i > 2 && ((b[i] == 0xE1 && b[i + 1] == 0x9A && b[i + 2] == 0x80) || (b[i] == 0xE2 && b[i + 1]
        == 0x80 && (b[i + 2] <= 0x8A || b[i + 2] == 0xA8 || b[i + 2] == 0xA9 || b[i + 2] == 0xAF) && b[i + 2]
        >= 0x80) || (b[i] == 0xE2 && b[i + 1] == 0x81 && b[i + 2] == 0x9F) || (b[i] == 0xE3 && b[i + 1] == 0x80
        && b[i + 2] == 0x80)) {
        3
    } else {
        0
    }
}

fn ws_before_exec(b: &[u8], lo: usize, j: usize) -> (r: usize)
    requires
        lo <= j <= b@.len(),
    ensures
        r == ws_before(b@, lo as int, j as int),
        r <= j - lo,
{
    if j - lo >= 1 && ws_at_exec(b, j - 1) == 1 {
        1
    } else if j - lo >= 2 && ws_at_exec(b, j - 2) == 2 {
        2
    } else if j - lo >= 3 && ws_at_exec(b, j - 3) == 3 {
        3
    } else {
        0
    }
}

/// `b[i..j]` without leading and trailing white space (see [`trimmed`]).
fn trimmed_exec(b: &[u8], i: usize, j: usize) -> (r: (usize, usize))
    requires
        i <= j <= b@.len(),
    ensures
        r.0 == trimmed(b@, i as int, j as int).0,
        r.1 == trimmed(b@, i as int, j as int).1,
        i <= r.0 <= r.1 <= j,
{
    let mut s = i;
    while s < j && ws_at_exec(b, s) > 0 && ws_at_exec(b, s) <= j - s
        invariant
            i <= s <= j <= b@.len(),
            trim_start(b@, s as int, j as int) == trim_start(b@, i as int, j as int),
        decreases j - s,
    {
        s = s + ws_at_exec(b, s);
    }
    let mut e = j;
    while e > s && ws_before_exec(b, s, e) > 0
        invariant
            s <= e <= j <= b@.len(),
            trim_end(b@, s as int, e as int) == trim_end(b@, s as int, j as int),
        decreases e - s,
    {
        e = e - ws_before_exec(b, s, e);
    }
    (s, e)
}

/// Where the line starting at `i` ends: the next newline, or the end.
pub open spec fn line_end(b: Seq<u8>, i: int) -> int
    decreases b.len() - i,
{
    if i < 0 || i >= b.len() {
        b.len() as int
    } else if b[i] == 0x0A {
        i
    } else {
        line_end(b, i + 1)
    }
}

pub proof fn lemma_line_end_bounds(b: Seq<u8>, i: int)
    requires
        0 <= i <= b.len(),
    ensures
        i <= line_end(b, i) <= b.len(),
    decreases b.len() - i,
{
    if i < b.len() && b[i] != 0x0A {
        lemma_line_end_bounds(b, i + 1);
    }
}

fn line_end_exec(b: &[u8], i0: usize) -> (r: usize)
    requires
        i0 <= b@.len(),
    ensures
        r == line_end(b@, i0 as int),
        i0 <= r <= b@.len(),
{
    let mut i = i0;
    while i < b.len() && b[i] != 0x0A
        invariant
            i0 <= i <= b@.len(),
            line_end(b@, i as int) == line_end(b@, i0 as int),
        decreases b.len() - i,
    {
        i = i + 1;
    }
    i
}

/// The line starting at `i` without surrounding white space (a carriage
/// return before the newline included): its start and end.
pub open spec fn line_at(b: Seq<u8>, i: int) -> (int, int) {
    trimmed(b, i, line_end(b, i))
}

/// Where the line after the one starting at `i` starts.
pub open spec fn next_line(b: Seq<u8>, i: int) -> int {
    line_end(b, i) + 1
}

// ─── Numbers and words ───────────────────────────────────────────────────────

/// The value of the decimal digits `d`; `None` when one is not a digit.
pub open spec fn dec_digits(d: Seq<u8>) -> Option<nat>
    decreases d.len(),
{
    if d.len() == 0 {
        Some(0)
    } else {
        match dec_digits(d.drop_last()) {
            Some(v) => if 0x30 <= d.last() <= 0x39 {
                Some((v * 10 + (d.last() - 0x30)) as nat)
            } else {
                None
            },
            None => None,
        }
    }
}

/// The decimal number `s` (an optional `+`, then at least one digit) when
/// it is at most `max`.
pub open spec fn dec_of(s: Seq<u8>, max: int) -> Option<int> {
    let d = if s.len() > 0 && s[0] == 0x2B {
        s.drop_first()
    } else {
        s
    };
    if d.len() == 0 {
        None
    } else {
        match dec_digits(d) {
            Some(v) => if v > max {
                None
            } else {
                Some(v as int)
            },
            None => None,
        }
    }
}

fn dec_exec(b: &[u8], i: usize, j: usize, max: u64) -> (r: Option<u64>)
    requires
        i <= j <= b@.len(),
        max < 0x1_0000_0000_0000,
    ensures
        match r {
            Some(v) => dec_of(b@.subrange(i as int, j as int), max as int) == Some(v as int),
            None => dec_of(b@.subrange(i as int, j as int), max as int) is None,
        },
{
    let ghost s = b@.subrange(i as int, j as int);
    let mut k = i;
    if k < j && b[k] == 0x2B {
        k = k + 1;
    }
    assert(b@.subrange(k as int, j as int) =~= (if s.len() > 0 && s[0] == 0x2B {
        s.drop_first()
    } else {
        s
    }));
    if k >= j {
        return None;
    }
    let mut acc: u64 = 0;
    let mut over = false;
    let mut q = k;
    assert(b@.subrange(k as int, k as int) =~= Seq::<u8>::empty());
    while q < j
        invariant
            k <= q <= j <= b@.len(),
            max < 0x1_0000_0000_0000,
            dec_digits(b@.subrange(k as int, q as int)) is Some,
            s == b@.subrange(i as int, j as int),
            b@.subrange(k as int, j as int) == (if s.len() > 0 && s[0] == 0x2B {
                s.drop_first()
            } else {
                s
            }),
            !over ==> dec_digits(b@.subrange(k as int, q as int)) == Some(acc as nat) && acc <= max,
            over ==> dec_digits(b@.subrange(k as int, q as int))->0 > max,
        decreases j - q,
    {
        let x = b[q];
        proof {
            assert(b@.subrange(k as int, q + 1).drop_last() =~= b@.subrange(k as int, q as int));
        }
        if !(0x30 <= x && x <= 0x39) {
            proof {
                lemma_dec_none_extends(b@, k as int, q + 1, j as int);
            }
            return None;
        }
        if !over {
            let v = acc * 10 + (x - 0x30) as u64;
            if v > max {
                over = true;
            } else {
                acc = v;
            }
        } else {
            proof {
                let pv = dec_digits(b@.subrange(k as int, q as int))->0;
                assert(dec_digits(b@.subrange(k as int, q + 1)) == Some((pv * 10 + (x - 0x30)) as nat));
            }
        }
        q = q + 1;
    }
    if over {
        None
    } else {
        Some(acc)
    }
}

/// Once the digits read so far are not all decimal, no longer prefix is.
proof fn lemma_dec_none_extends(b: Seq<u8>, k: int, q: int, j: int)
    requires
        0 <= k <= q <= j <= b.len(),
        dec_digits(b.subrange(k, q)) is None,
    ensures
        dec_digits(b.subrange(k, j)) is None,
    decreases j - q,
{
    if q < j {
        assert(b.subrange(k, q + 1).drop_last() =~= b.subrange(k, q));
        lemma_dec_none_extends(b, k, q + 1, j);
    } else {
        assert(b.subrange(k, q) =~= b.subrange(k, j));
    }
}

/// `b[i..j]` equals `w`.
pub open spec fn bytes_are(b: Seq<u8>, i: int, j: int, w: Seq<u8>) -> bool {
    b.subrange(i, j) == w
}

/// `b[i..j]` equals `w` ignoring the case of ASCII letters.
pub open spec fn same_ignoring_case(b: Seq<u8>, i: int, j: int, w: Seq<u8>) -> bool {
    j - i == w.len() && forall|k: int|
        0 <= k < w.len() ==> crate::formats::vtm::upper(#[trigger] b[i + k]) == crate::formats::vtm::upper(w[k])
}

/// `[Module]`.
pub open spec fn module_word() -> Seq<u8> {
    seq![0x5Bu8, 0x4D, 0x6F, 0x64, 0x75, 0x6C, 0x65, 0x5D]
}

fn same_ignoring_case_exec(b: &[u8], i: usize, j: usize, w: &[u8]) -> (r: bool)
    requires
        i <= j <= b@.len(),
    ensures
        r == same_ignoring_case(b@, i as int, j as int, w@),
{
    if j - i != w.len() {
        return false;
    }
    let mut k: usize = 0;
    while k < w.len()
        invariant
            k <= w@.len(),
            j - i == w@.len(),
            i <= j <= b@.len(),
            forall|q: int|
                0 <= q < k ==> crate::formats::vtm::upper(#[trigger] b@[i + q]) == crate::formats::vtm::upper(w@[q]),
        decreases w.len() - k,
    {
        let x = b[i + k];
        let y = w[k];
        let ux = if 0x61 <= x && x <= 0x7A {
            x - 32
        } else {
            x
        };
        let uy = if 0x61 <= y && y <= 0x7A {
            y - 32
        } else {
            y
        };
        if ux != uy {
            return false;
        }
        k = k + 1;
    }
    true
}

// ─── The [Module] line ───────────────────────────────────────────────────────

/// Where the lines after the first `[Module]` line (in either case, white
/// space around it ignored) start, from the line at `i` on; `None` when
/// there is none.
pub open spec fn module_start(b: Seq<u8>, i: int) -> Option<int>
    decreases b.len() + 1 - i,
{
    if i < 0 || i >= b.len() {
        None
    } else {
        let (s, e) = line_at(b, i);
        if same_ignoring_case(b, s, e, module_word()) {
            Some(next_line(b, i))
        } else {
            proof {
                lemma_line_end_bounds(b, i);
            }
            module_start(b, next_line(b, i))
        }
    }
}

fn module_start_exec(b: &[u8]) -> (r: Option<usize>)
    requires
        b@.len() < usize::MAX,
    ensures
        match r {
            Some(k) => module_start(b@, 0) == Some(k as int) && k <= b@.len() + 1,
            None => module_start(b@, 0) is None,
        },
{
    let w: [u8; 8] = [0x5B, 0x4D, 0x6F, 0x64, 0x75, 0x6C, 0x65, 0x5D];
    assert(w@ =~= module_word());
    let mut i: usize = 0;
    while i < b.len()
        invariant
            i <= b@.len() + 1,
            b@.len() < usize::MAX,
            w@ == module_word(),
            module_start(b@, i as int) == module_start(b@, 0),
        decreases b@.len() + 1 - i,
    {
        let le = line_end_exec(b, i);
        let (s, e) = trimmed_exec(b, i, le);
        if same_ignoring_case_exec(b, s, e, &w) {
            return Some(le + 1);
        }
        i = le + 1;
    }
    None
}


// ─── Capitals ────────────────────────────────────────────────────────────────

/// Names what `str::to_uppercase` makes of the characters `s`.
pub uninterp spec fn uppercase(s: Seq<char>) -> Seq<char>;

/// `s.to_uppercase()`.  The contract gives the result the name above and
/// states one fact std documents: in an ASCII string each lower-case letter
/// becomes its capital and every other character stays.
#[verifier::external_body]
fn to_uppercase_owned(s: &str) -> (r: String)
    ensures
        r@ == uppercase(s@),
        vstd::utf8::is_ascii_chars(s@) ==> r@ == Seq::new(
            s@.len(),
            |k: int|
                if 'a' <= s@[k] <= 'z' {
                    ((s@[k] as u8) - 32) as u8 as char
                } else {
                    s@[k]
                },
        ),
{
    s.to_uppercase()
}

/// The ASCII bytes `s` with small letters made capitals.
pub open spec fn ascii_caps(s: Seq<u8>) -> Seq<u8> {
    Seq::new(s.len(), |k: int| crate::formats::vtm::upper(s[k]))
}

/// The capitals of the text `b[i..j]`, as UTF-8: for ASCII text its bytes
/// with small letters made capitals, otherwise what `str::to_uppercase`
/// makes of it.
pub open spec fn caps(b: Seq<u8>, i: int, j: int) -> Seq<u8> {
    let s = b.subrange(i, j);
    if crate::formats::ascii_bytes(s) {
        ascii_caps(s)
    } else {
        vstd::utf8::encode_utf8(uppercase(crate::formats::utf8_lossy(s)))
    }
}

proof fn lemma_ascii_char(x: u8)
    requires
        x < 0x80,
    ensures
        '\0' <= (x as char) <= '\u{7f}',
        (x as char) as u8 == x,
        ('a' <= (x as char) <= 'z') <==> (0x61 <= x <= 0x7A),
{
    assert((x as char) as int == x as int);
    assert(('\u{7f}' as u32) == 127);
    assert(('a' as u32) == 0x61 && ('z' as u32) == 0x7A);
}

fn caps_exec(b: &[u8], i: usize, j: usize) -> (r: Vec<u8>)
    requires
        i <= j <= b@.len(),
    ensures
        r@ == caps(b@, i as int, j as int),
{
    let sub = vstd::slice::slice_subrange(b, i, j);
    let t = crate::formats::string_from_bytes_lossy(sub);
    let u = to_uppercase_owned(t.as_str());
    let ub = u.as_str().as_bytes();
    let mut v: Vec<u8> = Vec::new();
    let mut k: usize = 0;
    while k < ub.len()
        invariant
            k <= ub@.len(),
            v@ == ub@.take(k as int),
        decreases ub.len() - k,
    {
        v.push(ub[k]);
        k = k + 1;
        assert(v@ =~= ub@.take(k as int));
    }
    assert(ub@.take(k as int) =~= ub@);
    proof {
        let s = b@.subrange(i as int, j as int);
        if crate::formats::ascii_bytes(s) {
            assert(sub@ == s);
            assert forall|q: int| 0 <= q < t@.len() implies '\0' <= #[trigger] t@[q] <= '\u{7f}' by {
                lemma_ascii_char(s[q]);
            }
            assert(vstd::utf8::is_ascii_chars(t@));
            assert forall|q: int| 0 <= q < u@.len() implies '\0' <= #[trigger] u@[q] <= '\u{7f}' by {
                lemma_ascii_char(s[q]);
                let x = s[q];
                if 0x61 <= x <= 0x7A {
                    lemma_ascii_char((x - 32) as u8);
                    assert(u@[q] == ((x - 32) as u8) as char);
                }
            }
            vstd::utf8::is_ascii_chars_encode_utf8(u@);
            assert forall|q: int| 0 <= q < s.len() implies v@[q] == #[trigger] ascii_caps(s)[q] by {
                lemma_ascii_char(s[q]);
                let x = s[q];
                assert(t@[q] == x as char);
                if 0x61 <= x <= 0x7A {
                    lemma_ascii_char((x - 32) as u8);
                    assert(u@[q] == ((x - 32) as u8) as char);
                } else {
                    assert(u@[q] == x as char);
                }
                assert(v@[q] == u@[q] as u8);
            }
            assert(v@ =~= ascii_caps(s));
        }
    }
    v
}

// ─── The [Module] fields ─────────────────────────────────────────────────────

/// The module fields as read so far: the header flag, version, the title's
/// and author's text (where in the file it is; none read yet: empty), note
/// table, delay, and the play order.
#[derive(Clone, Copy)]
pub struct VtmHead {
    pub vortex: bool,
    pub level: FeaturesLevel,
    pub title: Option<(usize, usize)>,
    pub author: Option<(usize, usize)>,
    pub ton: u8,
    pub delay: u8,
    pub poslen: usize,
    pub lp: usize,
    pub values: [usize; 256],
}

/// Where the first byte `x` in `b[i..j]` is (`j` when none).
pub open spec fn find_byte(b: Seq<u8>, i: int, j: int, x: u8) -> int
    decreases j - i,
{
    if i >= j {
        j
    } else if b[i] == x {
        i
    } else {
        find_byte(b, i + 1, j, x)
    }
}

pub proof fn lemma_find_byte_bounds(b: Seq<u8>, i: int, j: int, x: u8)
    requires
        i <= j,
    ensures
        i <= find_byte(b, i, j, x) <= j,
    decreases j - i,
{
    if i < j && b[i] != x {
        lemma_find_byte_bounds(b, i + 1, j, x);
    }
}

fn find_byte_exec(b: &[u8], i0: usize, j: usize, x: u8) -> (r: usize)
    requires
        i0 <= j <= b@.len(),
    ensures
        r == find_byte(b@, i0 as int, j as int, x),
        i0 <= r <= j,
{
    let mut i = i0;
    while i < j && b[i] != x
        invariant
            i0 <= i <= j <= b@.len(),
            find_byte(b@, i as int, j as int, x) == find_byte(b@, i0 as int, j as int, x),
        decreases j - i,
    {
        i = i + 1;
    }
    i
}

/// The play order entries in `b[p..ve]` (separated by commas; an entry is
/// an optional `L`/`l` marking the loop, then a pattern number up to the
/// last pattern slot, white space around either ignored; empty entries are
/// skipped), appended to the order in `h`; more than 256 entries or a bad
/// one are refused.
pub open spec fn order_parts(b: Seq<u8>, p: int, ve: int, h: VtmHead) -> Result<VtmHead, FormatError>
    decreases ve - p,
{
    let c = find_byte(b, p, ve, 0x2C);
    let (ts, te) = trimmed(b, p, c);
    let step = if ts >= te {
        Ok(h)
    } else {
        let l = b[ts] == 0x4C || b[ts] == 0x6C;
        let (n0, n1) = trimmed(b, if l {
            ts + 1
        } else {
            ts
        }, te);
        match dec_of(b.subrange(n0, n1), MAX_PAT_NUM as int) {
            None => Err(FormatError::BadPlayOrder),
            Some(n) => if h.poslen >= 256 {
                Err(FormatError::BadPlayOrder)
            } else {
                Ok(
                    VtmHead {
                        lp: if l {
                            h.poslen
                        } else {
                            h.lp
                        },
                        values: vstd::array::spec_array_update(h.values, h.poslen as int, n as usize),
                        poslen: (h.poslen + 1) as usize,
                        ..h
                    },
                )
            },
        }
    };
    match step {
        Err(e) => Err(e),
        Ok(h2) => if c >= ve || p >= ve {
            Ok(h2)
        } else {
            proof {
                lemma_find_byte_bounds(b, p, ve, 0x2C);
            }
            order_parts(b, c + 1, ve, h2)
        },
    }
}

/// A `PlayOrder` value `b[vs..ve]`: when not empty, it replaces the order
/// (see [`order_parts`]).
pub open spec fn play_order(b: Seq<u8>, vs: int, ve: int, h: VtmHead) -> Result<VtmHead, FormatError> {
    if vs >= ve {
        Ok(h)
    } else {
        order_parts(b, vs, ve, VtmHead { poslen: 0, lp: 0, ..h })
    }
}

fn play_order_exec(b: &[u8], vs: usize, ve: usize, h: &mut VtmHead) -> (r: Result<(), FormatError>)
    requires
        vs <= ve <= b@.len(),
        old(h).poslen <= 256,
    ensures
        match play_order(b@, vs as int, ve as int, *old(h)) {
            Ok(h2) => r is Ok && *final(h) == h2,
            Err(e) => r == Err::<(), FormatError>(e),
        },
        final(h).poslen <= 256,
        final(h).title == old(h).title,
        final(h).author == old(h).author,
{
    if vs >= ve {
        return Ok(());
    }
    h.poslen = 0;
    h.lp = 0;
    let ghost target = play_order(b@, vs as int, ve as int, *old(h));
    let mut p = vs;
    loop
        invariant
            vs <= p <= ve <= b@.len(),
            h.poslen <= 256,
            order_parts(b@, p as int, ve as int, *h) == target,
            target == play_order(b@, vs as int, ve as int, *old(h)),
            h.title == old(h).title,
            h.author == old(h).author,
        decreases ve - p,
    {
        let c = find_byte_exec(b, p, ve, 0x2C);
        let (ts, te) = trimmed_exec(b, p, c);
        if ts < te {
            let l = b[ts] == 0x4C || b[ts] == 0x6C;
            let (n0, n1) = trimmed_exec(b, if l {
                ts + 1
            } else {
                ts
            }, te);
            match dec_exec(b, n0, n1, MAX_PAT_NUM as u64) {
                None => {
                    return Err(FormatError::BadPlayOrder);
                },
                Some(n) => {
                    if h.poslen >= 256 {
                        return Err(FormatError::BadPlayOrder);
                    }
                    if l {
                        h.lp = h.poslen;
                    }
                    let k = h.poslen;
                    let ghost old_values = h.values;
                    h.values[k] = n as usize;
                    assert(h.values =~= vstd::array::spec_array_update(old_values, k as int, n as usize));
                    h.poslen = k + 1;
                },
            }
        }
        if c >= ve {
            return Ok(());
        }
        p = c + 1;
    }
}

/// The title and author positions in `h` lie within `b`.
pub open spec fn ranges_ok(b: Seq<u8>, h: VtmHead) -> bool {
    &&& h.title matches Some((s, e)) ==> s <= e <= b.len()
    &&& h.author matches Some((s, e)) ==> s <= e <= b.len()
}

/// `0`.
pub open spec fn zero_word() -> Seq<u8> {
    seq![0x30u8]
}

/// One module field `key = b[vs..ve]` (key in capitals): `VortexTrackerII`
/// (any value but `0` sets the flag), `Version` (`3.5`, `3.7`, anything else
/// the latest), `Title`, `Author`, `NoteTable` (a number, at most 4; 0 when
/// not a number), `Speed` (a number; 3 when not a number), `PlayOrder` (see
/// [`play_order`]); other keys change nothing.
pub open spec fn apply_key(b: Seq<u8>, key: Seq<u8>, vs: int, ve: int, h: VtmHead) -> Result<VtmHead, FormatError> {
    let v = b.subrange(vs, ve);
    if key == vortex_key() {
        Ok(VtmHead { vortex: v != zero_word(), ..h })
    } else if key == version_key() {
        Ok(
            VtmHead {
                level: if v == seq![0x33u8, 0x2E, 0x35] {
                    FeaturesLevel::Pt35
                } else if v == seq![0x33u8, 0x2E, 0x37] {
                    FeaturesLevel::Pt37
                } else {
                    FeaturesLevel::Vt2
                },
                ..h
            },
        )
    } else if key == title_key() {
        Ok(VtmHead { title: Some((vs as usize, ve as usize)), ..h })
    } else if key == author_key() {
        Ok(VtmHead { author: Some((vs as usize, ve as usize)), ..h })
    } else if key == notetable_key() {
        Ok(
            VtmHead {
                ton: match dec_of(v, 255) {
                    Some(n) => if n > 4 {
                        4u8
                    } else {
                        n as u8
                    },
                    None => 0u8,
                },
                ..h
            },
        )
    } else if key == speed_key() {
        Ok(
            VtmHead {
                delay: match dec_of(v, 255) {
                    Some(n) => n as u8,
                    None => 3u8,
                },
                ..h
            },
        )
    } else if key == playorder_key() {
        play_order(b, vs, ve, h)
    } else {
        Ok(h)
    }
}

/// `VORTEXTRACKERII`.
pub open spec fn vortex_key() -> Seq<u8> {
    seq![0x56u8, 0x4F, 0x52, 0x54, 0x45, 0x58, 0x54, 0x52, 0x41, 0x43, 0x4B, 0x45, 0x52, 0x49, 0x49]
}

/// `VERSION`.
pub open spec fn version_key() -> Seq<u8> {
    seq![0x56u8, 0x45, 0x52, 0x53, 0x49, 0x4F, 0x4E]
}

/// `TITLE`.
pub open spec fn title_key() -> Seq<u8> {
    seq![0x54u8, 0x49, 0x54, 0x4C, 0x45]
}

/// `AUTHOR`.
pub open spec fn author_key() -> Seq<u8> {
    seq![0x41u8, 0x55, 0x54, 0x48, 0x4F, 0x52]
}

/// `NOTETABLE`.
pub open spec fn notetable_key() -> Seq<u8> {
    seq![0x4Eu8, 0x4F, 0x54, 0x45, 0x54, 0x41, 0x42, 0x4C, 0x45]
}

/// `SPEED`.
pub open spec fn speed_key() -> Seq<u8> {
    seq![0x53u8, 0x50, 0x45, 0x45, 0x44]
}

/// `PLAYORDER`.
pub open spec fn playorder_key() -> Seq<u8> {
    seq![0x50u8, 0x4C, 0x41, 0x59, 0x4F, 0x52, 0x44, 0x45, 0x52]
}

/// The lines from the one at `i` on, up to the first whose text starts with
/// `[` (a section): each `key = value` line (white space around key and
/// value ignored; lines without `=`, or starting with it, skipped) sets a
/// field (see [`apply_key`]).  Gives the fields, where the line after the
/// section line starts, and the section line's text; an error from a field
/// stops the reading.
pub open spec fn head(b: Seq<u8>, i: int, h: VtmHead) -> Result<(VtmHead, int, Option<(int, int)>), FormatError>
    decreases b.len() + 1 - i,
{
    if i < 0 || i >= b.len() {
        Ok((h, i, None))
    } else {
        let (s, e) = line_at(b, i);
        let nx = next_line(b, i);
        proof {
            lemma_line_end_bounds(b, i);
        }
        if s < e && b[s] == 0x5B {
            Ok((h, nx, Some((s, e))))
        } else {
            let q = find_byte(b, s, e, 0x3D);
            if s >= e || q >= e || q <= s {
                head(b, nx, h)
            } else {
                let (ks, ke) = trimmed(b, s, q);
                let (vs, ve) = trimmed(b, q + 1, e);
                match apply_key(b, caps(b, ks, ke), vs, ve, h) {
                    Err(x) => Err(x),
                    Ok(h2) => head(b, nx, h2),
                }
            }
        }
    }
}

fn bytes_eq(a: &[u8], w: &[u8]) -> (r: bool)
    ensures
        r == (a@ == w@),
{
    if a.len() != w.len() {
        return false;
    }
    let mut k: usize = 0;
    while k < a.len()
        invariant
            k <= a@.len() == w@.len(),
            a@.take(k as int) == w@.take(k as int),
        decreases a.len() - k,
    {
        if a[k] != w[k] {
            assert(a@[k as int] != w@[k as int]);
            return false;
        }
        assert(a@.take(k + 1) =~= a@.take(k as int).push(a@[k as int]));
        assert(w@.take(k + 1) =~= w@.take(k as int).push(w@[k as int]));
        k = k + 1;
    }
    assert(a@ =~= a@.take(k as int));
    assert(w@ =~= w@.take(k as int));
    true
}

fn apply_key_exec(b: &[u8], key: &[u8], vs: usize, ve: usize, h: &mut VtmHead) -> (r: Result<(), FormatError>)
    requires
        vs <= ve <= b@.len(),
        old(h).poslen <= 256,
        ranges_ok(b@, *old(h)),
    ensures
        match apply_key(b@, key@, vs as int, ve as int, *old(h)) {
            Ok(h2) => r is Ok && *final(h) == h2,
            Err(e) => r == Err::<(), FormatError>(e),
        },
        final(h).poslen <= 256,
        ranges_ok(b@, *final(h)),
{
    let k_vortex: [u8; 15] = [0x56, 0x4F, 0x52, 0x54, 0x45, 0x58, 0x54, 0x52, 0x41, 0x43, 0x4B, 0x45, 0x52, 0x49, 0x49];
    let k_version: [u8; 7] = [0x56, 0x45, 0x52, 0x53, 0x49, 0x4F, 0x4E];
    let k_title: [u8; 5] = [0x54, 0x49, 0x54, 0x4C, 0x45];
    let k_author: [u8; 6] = [0x41, 0x55, 0x54, 0x48, 0x4F, 0x52];
    let k_notetable: [u8; 9] = [0x4E, 0x4F, 0x54, 0x45, 0x54, 0x41, 0x42, 0x4C, 0x45];
    let k_speed: [u8; 5] = [0x53, 0x50, 0x45, 0x45, 0x44];
    let k_playorder: [u8; 9] = [0x50, 0x4C, 0x41, 0x59, 0x4F, 0x52, 0x44, 0x45, 0x52];
    assert(k_vortex@ =~= vortex_key());
    assert(k_version@ =~= version_key());
    assert(k_title@ =~= title_key());
    assert(k_author@ =~= author_key());
    assert(k_notetable@ =~= notetable_key());
    assert(k_speed@ =~= speed_key());
    assert(k_playorder@ =~= playorder_key());
    let v = vstd::slice::slice_subrange(b, vs, ve);
    if bytes_eq(key, &k_vortex) {
        let z: [u8; 1] = [0x30];
        assert(z@ =~= zero_word());
        h.vortex = !bytes_eq(v, &z);
    } else if bytes_eq(key, &k_version) {
        let v35: [u8; 3] = [0x33, 0x2E, 0x35];
        let v37: [u8; 3] = [0x33, 0x2E, 0x37];
        assert(v35@ =~= seq![0x33u8, 0x2E, 0x35]);
        assert(v37@ =~= seq![0x33u8, 0x2E, 0x37]);
        h.level = if bytes_eq(v, &v35) {
            FeaturesLevel::Pt35
        } else if bytes_eq(v, &v37) {
            FeaturesLevel::Pt37
        } else {
            FeaturesLevel::Vt2
        };
    } else if bytes_eq(key, &k_title) {
        h.title = Some((vs, ve));
    } else if bytes_eq(key, &k_author) {
        h.author = Some((vs, ve));
    } else if bytes_eq(key, &k_notetable) {
        h.ton = match dec_exec(b, vs, ve, 255) {
            Some(n) => if n > 4 {
                4
            } else {
                n as u8
            },
            None => 0,
        };
    } else if bytes_eq(key, &k_speed) {
        h.delay = match dec_exec(b, vs, ve, 255) {
            Some(n) => n as u8,
            None => 3,
        };
    } else if bytes_eq(key, &k_playorder) {
        return play_order_exec(b, vs, ve, h);
    }
    Ok(())
}

fn head_exec(b: &[u8], i0: usize, h: &mut VtmHead) -> (r: Result<(usize, Option<(usize, usize)>), FormatError>)
    requires
        i0 <= b@.len() + 1,
        b@.len() < usize::MAX,
        old(h).poslen <= 256,
        ranges_ok(b@, *old(h)),
    ensures
        ranges_ok(b@, *final(h)),
        match head(b@, i0 as int, *old(h)) {
            Ok((h2, j, hdr)) => r matches Ok((rj, rhdr)) && *final(h) == h2 && rj == j && match (hdr, rhdr) {
                (Some((s, e)), Some((rs, re))) => s == rs && e == re && rs <= re <= b@.len(),
                (None, None) => true,
                _ => false,
            } && rj <= b@.len() + 1,
            Err(e) => r == Err::<(usize, Option<(usize, usize)>), FormatError>(e),
        },
        final(h).poslen <= 256,
{
    let ghost target = head(b@, i0 as int, *old(h));
    let mut i = i0;
    while i < b.len()
        invariant
            i <= b@.len() + 1,
            b@.len() < usize::MAX,
            h.poslen <= 256,
            ranges_ok(b@, *h),
            head(b@, i as int, *h) == target,
            target == head(b@, i0 as int, *old(h)),
        decreases b@.len() + 1 - i,
    {
        let le = line_end_exec(b, i);
        let (s, e) = trimmed_exec(b, i, le);
        if s < e && b[s] == 0x5B {
            return Ok((le + 1, Some((s, e))));
        }
        let q = find_byte_exec(b, s, e, 0x3D);
        if s < e && q < e && q > s {
            let (ks, ke) = trimmed_exec(b, s, q);
            let (vs, ve) = trimmed_exec(b, q + 1, e);
            let key = caps_exec(b, ks, ke);
            let res = apply_key_exec(b, key.as_slice(), vs, ve, h);
            if let Err(x) = res {
                return Err(x);
            }
        }
        i = le + 1;
    }
    Ok((i, None))
}

/// `h` holds the module fields before any is read: the defaults of a new
/// module.
pub open spec fn head0(h: VtmHead) -> bool {
    &&& h.vortex
    &&& h.level == FeaturesLevel::Vt2
    &&& h.title is None
    &&& h.author is None
    &&& h.ton == 0
    &&& h.delay == 3
    &&& h.poslen == 0
    &&& h.lp == 0
    &&& h.values@ == Seq::new(256, |k: int| 0usize)
}

// ─── Sections ────────────────────────────────────────────────────────────────

/// Where the lines of a section starting at line `i` end: at the first line
/// from `i` on whose text starts with `[` (the end of the data when none).
pub open spec fn section_end(b: Seq<u8>, i: int) -> int
    decreases b.len() + 1 - i,
{
    if i < 0 || i >= b.len() {
        b.len() as int
    } else {
        let (s, e) = line_at(b, i);
        if s < e && b[s] == 0x5B {
            i
        } else {
            proof {
                lemma_line_end_bounds(b, i);
            }
            section_end(b, next_line(b, i))
        }
    }
}

/// Past the bytes `x` at the start of `c[p..]`.
pub open spec fn skip_bytes(c: Seq<u8>, p: int, x: u8) -> int
    decreases c.len() - p,
{
    if 0 <= p < c.len() && c[p] == x {
        skip_bytes(c, p + 1, x)
    } else {
        p
    }
}

/// Past the copies of `w` at the start of `c[p..]`.
pub open spec fn skip_words(c: Seq<u8>, p: int, w: Seq<u8>) -> int
    decreases c.len() - p,
{
    if w.len() > 0 && 0 <= p && p + w.len() <= c.len() && c.subrange(p, p + w.len() as int) == w {
        skip_words(c, p + w.len(), w)
    } else {
        p
    }
}

/// Before the bytes `x` at the end of `c[lo..e]`.
pub open spec fn back_bytes(c: Seq<u8>, lo: int, e: int, x: u8) -> int
    decreases e - lo,
{
    if lo < e && e <= c.len() && c[e - 1] == x {
        back_bytes(c, lo, e - 1, x)
    } else {
        e
    }
}

/// `c` starts with `[` and the word `w`.
pub open spec fn opens(c: Seq<u8>, w: Seq<u8>) -> bool {
    c.len() >= w.len() + 1 && c[0] == 0x5B && c.subrange(1, (w.len() + 1) as int) == w
}

/// The number of a section named by the capitals `c`: the text after the
/// leading `[`s and copies of the word `w`, before the trailing `]`s, white
/// space around it ignored, read as a number (at most 255).
pub open spec fn section_number(c: Seq<u8>, w: Seq<u8>) -> Option<int> {
    let p1 = skip_words(c, skip_bytes(c, 0, 0x5B), w);
    let e1 = back_bytes(c, p1, c.len() as int, 0x5D);
    let (x, y) = trimmed(c, p1, e1);
    dec_of(c.subrange(x, y), 255)
}

/// `ORNAMENT`.
pub open spec fn ornament_word() -> Seq<u8> {
    seq![0x4Fu8, 0x52, 0x4E, 0x41, 0x4D, 0x45, 0x4E, 0x54]
}

/// `SAMPLE`.
pub open spec fn sample_word() -> Seq<u8> {
    seq![0x53u8, 0x41, 0x4D, 0x50, 0x4C, 0x45]
}

/// `PATTERN`.
pub open spec fn pattern_word() -> Seq<u8> {
    seq![0x50u8, 0x41, 0x54, 0x54, 0x45, 0x52, 0x4E]
}

/// The first line from `k` on, before `se`, with any text besides white
/// space: its text's start and end.
pub open spec fn first_text_line(b: Seq<u8>, k: int, se: int) -> Option<(int, int)>
    decreases b.len() + 1 - k,
{
    if k < 0 || k >= se || k >= b.len() {
        None
    } else {
        let (s, e) = line_at(b, k);
        if s < e {
            Some((s, e))
        } else {
            proof {
                lemma_line_end_bounds(b, k);
            }
            first_text_line(b, next_line(b, k), se)
        }
    }
}

/// The line `b[s..e]` marks the sample's loop: it holds a space followed by
/// `L` or `l`, or ends in one.
pub open spec fn loop_mark(b: Seq<u8>, s: int, e: int) -> bool {
    (e > s && (b[e - 1] == 0x4C || b[e - 1] == 0x6C)) || exists|p: int|
        s <= p < e - 1 && #[trigger] b[p] == 0x20 && (b[p + 1] == 0x4C || b[p + 1] == 0x6C)
}

/// A sample section's lines from `k` on (before `se`; `len` ticks read, loop
/// at `lp`): each line up to the first blank one is the next tick, a line
/// marking the loop (see [`loop_mark`]) putting the loop there.  `None` when
/// a line is not a tick, when there are more than 64, or none.
pub open spec fn sample_lines(b: Seq<u8>, k: int, se: int, len: int, lp: int, items: Seq<SampleTick>) -> Option<SamRead>
    decreases b.len() + 1 - k,
{
    let (s, e) = line_at(b, k);
    if k < 0 || k >= se || k >= b.len() || s >= e || b[s] == 0x5B {
        if len == 0 {
            None
        } else {
            Some((len, lp, items))
        }
    } else if len >= 64 {
        None
    } else {
        match tick_of(b.subrange(s, e)) {
            None => None,
            Some(t) => {
                proof {
                    lemma_line_end_bounds(b, k);
                }
                sample_lines(
                    b,
                    next_line(b, k),
                    se,
                    len + 1,
                    if loop_mark(b, s, e) {
                        len
                    } else {
                        lp
                    },
                    items.update(len, t),
                )
            },
        }
    }
}

/// A pattern section's lines from `k` on (before `se`; `len` rows read):
/// each line up to the first blank one is the next row.  `None` when a line
/// is not a row, when there are more than 256, or none.
pub open spec fn pattern_lines(b: Seq<u8>, k: int, se: int, len: int, items: Seq<PatternRow>) -> PatRead
    decreases b.len() + 1 - k,
{
    let (s, e) = line_at(b, k);
    if k < 0 || k >= se || k >= b.len() || s >= e || b[s] == 0x5B {
        if len == 0 {
            None
        } else {
            Some((len, items))
        }
    } else if len >= 256 {
        None
    } else {
        match row_of(b.subrange(s, e)) {
            None => None,
            Some(row) => {
                proof {
                    lemma_line_end_bounds(b, k);
                }
                pattern_lines(b, next_line(b, k), se, len + 1, items.update(len, row))
            },
        }
    }
}

/// Every line [`pattern_lines`] reads as a row has its fields on character
/// boundaries (see [`row_cuts_ok`]).
pub open spec fn pattern_cuts(b: Seq<u8>, k: int, se: int, len: int) -> bool
    decreases b.len() + 1 - k,
{
    let (s, e) = line_at(b, k);
    if k < 0 || k >= se || k >= b.len() || s >= e || b[s] == 0x5B || len >= 256 {
        true
    } else if !row_cuts_ok(b.subrange(s, e)) {
        false
    } else if row_of(b.subrange(s, e)) is None {
        true
    } else {
        proof {
            lemma_line_end_bounds(b, k);
        }
        pattern_cuts(b, next_line(b, k), se, len + 1)
    }
}

/// The ornaments, samples and patterns read so far.
pub type Secs = (Seq<Option<OrnRead>>, Seq<Option<SamRead>>, Seq<PatRead>);

/// One section, its line `b[s..e]`, its lines from `i` to `se`: an
/// `[Ornament n]` (n 1..15) takes the ornament on its first line with text,
/// a `[Sample n]` (n 1..31) the sample its lines make, a `[Pattern n]`
/// (n below 85) the pattern (names in either case); one that does not read
/// changes nothing, nor does any other section.
pub open spec fn apply_section(b: Seq<u8>, s: int, e: int, i: int, se: int, st: Secs) -> Secs {
    let c = caps(b, s, e);
    if opens(c, ornament_word()) {
        match section_number(c, ornament_word()) {
            Some(n) => if 1 <= n <= 15 {
                match first_text_line(b, i, se) {
                    Some((ls, le)) => match ornament_of(b.subrange(ls, le)) {
                        Some(o) => (st.0.update(n, Some(o)), st.1, st.2),
                        None => st,
                    },
                    None => st,
                }
            } else {
                st
            },
            None => st,
        }
    } else if opens(c, sample_word()) {
        match section_number(c, sample_word()) {
            Some(n) => if 1 <= n <= 31 {
                match sample_lines(b, i, se, 0, 0, Seq::new(64, |q: int| blank_tick())) {
                    Some(sm) => (st.0, st.1.update(n, Some(sm)), st.2),
                    None => st,
                }
            } else {
                st
            },
            None => st,
        }
    } else if opens(c, pattern_word()) {
        match section_number(c, pattern_word()) {
            Some(n) => if n < MAX_NUM_OF_PATS {
                match pattern_lines(b, i, se, 0, Seq::new(256, |q: int| empty_row())) {
                    Some(p) => (st.0, st.1, st.2.update(n, Some(p))),
                    None => st,
                }
            } else {
                st
            },
            None => st,
        }
    } else {
        st
    }
}

/// The section whose line is `b[s..e]` reads only pattern lines with their
/// fields on character boundaries.
pub open spec fn section_cuts(b: Seq<u8>, s: int, e: int, i: int, se: int) -> bool {
    let c = caps(b, s, e);
    !opens(c, ornament_word()) && !opens(c, sample_word()) && opens(c, pattern_word()) ==> match section_number(
        c,
        pattern_word(),
    ) {
        Some(n) => n < MAX_NUM_OF_PATS ==> pattern_cuts(b, i, se, 0),
        None => true,
    }
}

/// The sections from the one whose line is `hdr` (its lines from `i` on),
/// each applied in turn (see [`apply_section`]).
pub open spec fn sections(b: Seq<u8>, i: int, hdr: Option<(int, int)>, st: Secs) -> Secs
    decreases b.len() + 1 - i,
{
    match hdr {
        None => st,
        Some((s, e)) => {
            let se = section_end(b, i);
            let st2 = apply_section(b, s, e, i, se, st);
            if i < 0 || se < i || se >= b.len() {
                st2
            } else {
                proof {
                    lemma_line_end_bounds(b, se);
                }
                sections(b, next_line(b, se), Some(line_at(b, se)), st2)
            }
        },
    }
}

/// Every section [`sections`] reads has its pattern lines' fields on
/// character boundaries.
pub open spec fn sections_cut(b: Seq<u8>, i: int, hdr: Option<(int, int)>) -> bool
    decreases b.len() + 1 - i,
{
    match hdr {
        None => true,
        Some((s, e)) => {
            let se = section_end(b, i);
            &&& section_cuts(b, s, e, i, se)
            &&& (if i < 0 || se < i || se >= b.len() {
                true
            } else {
                proof {
                    lemma_line_end_bounds(b, se);
                }
                sections_cut(b, next_line(b, se), Some(line_at(b, se)))
            })
        },
    }
}


fn section_end_exec(b: &[u8], i0: usize) -> (r: usize)
    requires
        i0 <= b@.len() + 1,
        b@.len() < usize::MAX,
    ensures
        r == section_end(b@, i0 as int),
        r <= b@.len(),
        i0 <= b@.len() ==> i0 <= r,
{
    let mut i = i0;
    while i < b.len()
        invariant
            i0 <= i <= b@.len() + 1,
            b@.len() < usize::MAX,
            section_end(b@, i as int) == section_end(b@, i0 as int),
        decreases b@.len() + 1 - i,
    {
        let le = line_end_exec(b, i);
        let (s, e) = trimmed_exec(b, i, le);
        if s < e && b[s] == 0x5B {
            return i;
        }
        i = le + 1;
    }
    b.len()
}

fn skip_bytes_exec(c: &[u8], p0: usize, x: u8) -> (r: usize)
    requires
        p0 <= c@.len(),
    ensures
        r == skip_bytes(c@, p0 as int, x),
        p0 <= r <= c@.len(),
{
    let mut p = p0;
    while p < c.len() && c[p] == x
        invariant
            p0 <= p <= c@.len(),
            skip_bytes(c@, p as int, x) == skip_bytes(c@, p0 as int, x),
        decreases c.len() - p,
    {
        p = p + 1;
    }
    p
}

fn starts_at(c: &[u8], p: usize, w: &[u8]) -> (r: bool)
    requires
        p <= c@.len(),
    ensures
        r == (p + w@.len() <= c@.len() && c@.subrange(p as int, p + w@.len()) == w@),
{
    if w.len() > c.len() - p {
        return false;
    }
    let mut k: usize = 0;
    while k < w.len()
        invariant
            k <= w@.len(),
            p + w@.len() <= c@.len(),
            c@.len() <= usize::MAX,
            forall|q: int| 0 <= q < k ==> c@[p + q] == #[trigger] w@[q],
        decreases w.len() - k,
    {
        assert(p + k < c@.len());
        let idx: usize = p + k;
        if c[idx] != w[k] {
            assert(c@.subrange(p as int, p + w@.len())[k as int] != w@[k as int]);
            return false;
        }
        k = k + 1;
    }
    assert(c@.subrange(p as int, p + w@.len()) =~= w@);
    true
}

fn skip_words_exec(c: &[u8], p0: usize, w: &[u8]) -> (r: usize)
    requires
        p0 <= c@.len(),
    ensures
        r == skip_words(c@, p0 as int, w@),
        p0 <= r <= c@.len(),
{
    let mut p = p0;
    while w.len() > 0 && starts_at(c, p, w)
        invariant
            p0 <= p <= c@.len(),
            skip_words(c@, p as int, w@) == skip_words(c@, p0 as int, w@),
        decreases c.len() - p,
    {
        p = p + w.len();
    }
    p
}

fn back_bytes_exec(c: &[u8], lo: usize, e0: usize, x: u8) -> (r: usize)
    requires
        lo <= e0 <= c@.len(),
    ensures
        r == back_bytes(c@, lo as int, e0 as int, x),
        lo <= r <= e0,
{
    let mut e = e0;
    while lo < e && c[e - 1] == x
        invariant
            lo <= e <= e0 <= c@.len(),
            back_bytes(c@, lo as int, e as int, x) == back_bytes(c@, lo as int, e0 as int, x),
        decreases e - lo,
    {
        e = e - 1;
    }
    e
}

fn opens_exec(c: &[u8], w: &[u8]) -> (r: bool)
    ensures
        r == opens(c@, w@),
{
    if c.len() < 1 || c[0] != 0x5B {
        return false;
    }
    starts_at(c, 1, w)
}

fn section_number_exec(c: &[u8], w: &[u8]) -> (r: Option<u64>)
    ensures
        match r {
            Some(n) => section_number(c@, w@) == Some(n as int),
            None => section_number(c@, w@) is None,
        },
{
    let p0 = skip_bytes_exec(c, 0, 0x5B);
    let p1 = skip_words_exec(c, p0, w);
    let e1 = back_bytes_exec(c, p1, c.len(), 0x5D);
    let (x, y) = trimmed_exec(c, p1, e1);
    dec_exec(c, x, y, 255)
}

fn first_text_line_exec(b: &[u8], k0: usize, se: usize) -> (r: Option<(usize, usize)>)
    requires
        k0 <= b@.len() + 1,
        b@.len() < usize::MAX,
    ensures
        match r {
            Some((s, e)) => first_text_line(b@, k0 as int, se as int) == Some((s as int, e as int)) && s <= e
                <= b@.len(),
            None => first_text_line(b@, k0 as int, se as int) is None,
        },
{
    let mut k = k0;
    while k < se && k < b.len()
        invariant
            k0 <= k <= b@.len() + 1,
            b@.len() < usize::MAX,
            first_text_line(b@, k as int, se as int) == first_text_line(b@, k0 as int, se as int),
        decreases b@.len() + 1 - k,
    {
        let le = line_end_exec(b, k);
        let (s, e) = trimmed_exec(b, k, le);
        if s < e {
            return Some((s, e));
        }
        k = le + 1;
    }
    None
}

fn loop_mark_exec(b: &[u8], s: usize, e: usize) -> (r: bool)
    requires
        s <= e <= b@.len(),
    ensures
        r == loop_mark(b@, s as int, e as int),
{
    if e > s && (b[e - 1] == 0x4C || b[e - 1] == 0x6C) {
        return true;
    }
    let mut p = s;
    while e - p > 1
        invariant
            s <= p <= e <= b@.len(),
            forall|q: int| s <= q < p ==> !(#[trigger] b@[q] == 0x20 && (b@[q + 1] == 0x4C || b@[q + 1] == 0x6C)),
        decreases e - p,
    {
        if b[p] == 0x20 && (b[p + 1] == 0x4C || b[p + 1] == 0x6C) {
            return true;
        }
        p = p + 1;
    }
    false
}

fn sample_lines_exec(b: &[u8], k0: usize, se: usize) -> (r: Option<Sample>)
    requires
        k0 <= b@.len() + 1,
        b@.len() < usize::MAX,
    ensures
        match sample_lines(b@, k0 as int, se as int, 0, 0, Seq::new(64, |q: int| blank_tick())) {
            Some((len, lp, items)) => r matches Some(sm) && sm.length == len && sm.loop_pos == lp && sm.items@
                == items && sm.enabled,
            None => r is None,
        },
{
    let mut sam = Sample::default();
    assert(sam.items@ =~= Seq::new(64, |q: int| blank_tick()));
    let ghost target = sample_lines(b@, k0 as int, se as int, 0, 0, sam.items@);
    let mut len: usize = 0;
    let mut lp: usize = 0;
    let mut k = k0;
    loop
        invariant
            k <= b@.len() + 1,
            b@.len() < usize::MAX,
            len <= 64,
            lp <= 64,
            sam.items@.len() == 64,
            sam.enabled,
            sample_lines(b@, k as int, se as int, len as int, lp as int, sam.items@) == target,
            target == sample_lines(b@, k0 as int, se as int, 0, 0, Seq::new(64, |q: int| blank_tick())),
        ensures
            target == (if len == 0 {
                None
            } else {
                Some((len as int, lp as int, sam.items@))
            }),
        decreases b@.len() + 1 - k,
    {
        if k >= se || k >= b.len() {
            break ;
        }
        let le = line_end_exec(b, k);
        let (s, e) = trimmed_exec(b, k, le);
        if s >= e || b[s] == 0x5B {
            break ;
        }
        if len >= 64 {
            return None;
        }
        let line = vstd::slice::slice_subrange(b, s, e);
        let t = match crate::formats::vtm::tick_from_bytes(line) {
            Some(t) => t,
            None => {
                return None;
            },
        };
        if loop_mark_exec(b, s, e) {
            lp = len;
        }
        sam.items[len] = t;
        len = len + 1;
        k = le + 1;
    }
    if len == 0 {
        return None;
    }
    sam.length = len as u8;
    sam.loop_pos = lp as u8;
    Some(sam)
}


fn pattern_lines_exec(b: &[u8], k0: usize, se: usize) -> (r: (Option<Pattern>, bool))
    requires
        k0 <= b@.len() + 1,
        b@.len() < usize::MAX,
    ensures
        r.1 == !pattern_cuts(b@, k0 as int, se as int, 0),
        !r.1 ==> match pattern_lines(b@, k0 as int, se as int, 0, Seq::new(256, |q: int| empty_row())) {
            Some((len, items)) => r.0 matches Some(p) && p.length == len && p.items@ == items,
            None => r.0 is None,
        },
{
    let mut pat = Pattern::default();
    assert(pat.items@ =~= Seq::new(256, |q: int| empty_row()));
    let ghost tl = pattern_lines(b@, k0 as int, se as int, 0, pat.items@);
    let ghost tc = pattern_cuts(b@, k0 as int, se as int, 0);
    let mut len: usize = 0;
    let mut k = k0;
    loop
        invariant
            k <= b@.len() + 1,
            b@.len() < usize::MAX,
            len <= 256,
            pat.items@.len() == 256,
            pattern_lines(b@, k as int, se as int, len as int, pat.items@) == tl,
            pattern_cuts(b@, k as int, se as int, len as int) == tc,
            tl == pattern_lines(b@, k0 as int, se as int, 0, Seq::new(256, |q: int| empty_row())),
            tc == pattern_cuts(b@, k0 as int, se as int, 0),
        ensures
            tc,
            tl == (if len == 0 {
                None
            } else {
                Some((len as int, pat.items@))
            }),
        decreases b@.len() + 1 - k,
    {
        if k >= se || k >= b.len() {
            break ;
        }
        let le = line_end_exec(b, k);
        let (s, e) = trimmed_exec(b, k, le);
        if s >= e || b[s] == 0x5B {
            break ;
        }
        if len >= 256 {
            return (None, false);
        }
        let line = vstd::slice::slice_subrange(b, s, e);
        if !row_cuts_ok_exec(line) {
            return (None, true);
        }
        let row = match crate::formats::vtm::row_from_bytes(line) {
            Some(row) => row,
            None => {
                return (None, false);
            },
        };
        pat.items[len] = row;
        len = len + 1;
        k = le + 1;
    }
    if len == 0 {
        return (None, false);
    }
    pat.length = len;
    (Some(pat), false)
}

/// The ornaments, samples and patterns of a new module.
pub open spec fn secs0() -> Secs {
    (start_orn_slots(), Seq::new(32, |v: int| None), no_reads())
}

/// The module's ornaments, samples and patterns are those `st` describes.
pub open spec fn secs_match(m: Module, st: Secs) -> bool {
    &&& orns_match(m.ornaments@, st.0)
    &&& sams_match(m.samples@, st.1)
    &&& pats_match(m.patterns@, st.2)
    &&& m.wf()
}

fn apply_section_exec(b: &[u8], s: usize, e: usize, i: usize, se: usize, m: &mut Module, Ghost(st): Ghost<Secs>) -> (bad: bool)
    requires
        s <= e <= b@.len(),
        i <= b@.len() + 1,
        b@.len() < usize::MAX,
        secs_match(*old(m), st),
    ensures
        bad == !section_cuts(b@, s as int, e as int, i as int, se as int),
        !bad ==> secs_match(*final(m), apply_section(b@, s as int, e as int, i as int, se as int, st)),
        final(m).title == old(m).title,
        final(m).author == old(m).author,
        final(m).is_chans == old(m).is_chans,
        final(m).positions == old(m).positions,
        final(m).vortex_module_header == old(m).vortex_module_header,
        final(m).features_level == old(m).features_level,
        final(m).ton_table == old(m).ton_table,
        final(m).initial_delay == old(m).initial_delay,
{
    let c = caps_exec(b, s, e);
    let w_orn: [u8; 8] = [0x4F, 0x52, 0x4E, 0x41, 0x4D, 0x45, 0x4E, 0x54];
    let w_sam: [u8; 6] = [0x53, 0x41, 0x4D, 0x50, 0x4C, 0x45];
    let w_pat: [u8; 7] = [0x50, 0x41, 0x54, 0x54, 0x45, 0x52, 0x4E];
    assert(w_orn@ =~= ornament_word());
    assert(w_sam@ =~= sample_word());
    assert(w_pat@ =~= pattern_word());
    if opens_exec(c.as_slice(), &w_orn) {
        match section_number_exec(c.as_slice(), &w_orn) {
            Some(n) => {
                if 1 <= n && n <= 15 {
                    match first_text_line_exec(b, i, se) {
                        Some((ls, le)) => {
                            match crate::formats::vtm::orn_from_bytes(vstd::slice::slice_subrange(b, ls, le)) {
                                Some(o) => {
                                    m.ornaments[n as usize] = Some(Box::new(o));
                                },
                                None => {},
                            }
                        },
                        None => {},
                    }
                }
            },
            None => {},
        }
        false
    } else if opens_exec(c.as_slice(), &w_sam) {
        match section_number_exec(c.as_slice(), &w_sam) {
            Some(n) => {
                if 1 <= n && n <= 31 {
                    match sample_lines_exec(b, i, se) {
                        Some(sm) => {
                            m.samples[n as usize] = Some(Box::new(sm));
                        },
                        None => {},
                    }
                }
            },
            None => {},
        }
        false
    } else if opens_exec(c.as_slice(), &w_pat) {
        match section_number_exec(c.as_slice(), &w_pat) {
            Some(n) => {
                if n < MAX_NUM_OF_PATS as u64 {
                    let (p, bad) = pattern_lines_exec(b, i, se);
                    if bad {
                        return true;
                    }
                    match p {
                        Some(p) => {
                            m.patterns.set(n as usize, Some(Box::new(p)));
                        },
                        None => {},
                    }
                }
            },
            None => {},
        }
        false
    } else {
        false
    }
}

fn read_sections(b: &[u8], i0: usize, hdr0: Option<(usize, usize)>, m: &mut Module, Ghost(st0): Ghost<Secs>) -> (bad: bool)
    requires
        i0 <= b@.len() + 1,
        b@.len() < usize::MAX,
        hdr0 matches Some((s, e)) ==> s <= e <= b@.len(),
        secs_match(*old(m), st0),
    ensures
        bad == !sections_cut(b@, i0 as int, match hdr0 {
            Some((s, e)) => Some((s as int, e as int)),
            None => None,
        }),
        !bad ==> secs_match(*final(m), sections(b@, i0 as int, match hdr0 {
            Some((s, e)) => Some((s as int, e as int)),
            None => None,
        }, st0)),
        final(m).title == old(m).title,
        final(m).author == old(m).author,
        final(m).is_chans == old(m).is_chans,
        final(m).positions == old(m).positions,
        final(m).vortex_module_header == old(m).vortex_module_header,
        final(m).features_level == old(m).features_level,
        final(m).ton_table == old(m).ton_table,
        final(m).initial_delay == old(m).initial_delay,
{
    let ghost h0 = match hdr0 {
        Some((s, e)) => Some((s as int, e as int)),
        None => None,
    };
    let ghost tsec = sections(b@, i0 as int, h0, st0);
    let ghost tcut = sections_cut(b@, i0 as int, h0);
    let ghost mut st = st0;
    let mut i = i0;
    let mut hdr = hdr0;
    loop
        invariant
            i <= b@.len() + 1,
            b@.len() < usize::MAX,
            hdr matches Some((s, e)) ==> s <= e <= b@.len(),
            secs_match(*m, st),
            sections(b@, i as int, match hdr {
                Some((s, e)) => Some((s as int, e as int)),
                None => None,
            }, st) == tsec,
            sections_cut(b@, i as int, match hdr {
                Some((s, e)) => Some((s as int, e as int)),
                None => None,
            }) == tcut,
            tsec == sections(b@, i0 as int, h0, st0),
            tcut == sections_cut(b@, i0 as int, h0),
            h0 == match hdr0 {
                Some((s, e)) => Some((s as int, e as int)),
                None => None,
            },
            m.title == old(m).title,
            m.author == old(m).author,
            m.is_chans == old(m).is_chans,
            m.positions == old(m).positions,
            m.vortex_module_header == old(m).vortex_module_header,
            m.features_level == old(m).features_level,
            m.ton_table == old(m).ton_table,
            m.initial_delay == old(m).initial_delay,
        decreases b@.len() + 1 - i,
    {
        match hdr {
            None => {
                return false;
            },
            Some((s, e)) => {
                let se = section_end_exec(b, i);
                let bad = apply_section_exec(b, s, e, i, se, m, Ghost(st));
                if bad {
                    return true;
                }
                proof {
                    st = apply_section(b@, s as int, e as int, i as int, se as int, st);
                }
                if se < i || se >= b.len() {
                    return false;
                }
                let le = line_end_exec(b, se);
                let (s2, e2) = trimmed_exec(b, se, le);
                hdr = Some((s2, e2));
                i = le + 1;
            },
        }
    }
}


// ─── The module ──────────────────────────────────────────────────────────────

/// The module fields of a new module (see [`head0`]).
pub open spec fn start_head() -> VtmHead {
    choose|h: VtmHead| head0(h)
}

/// The text at `r` (none: empty): the characters of ASCII bytes, otherwise
/// the bytes read as UTF-8 with invalid sequences replaced.
pub open spec fn text_at(b: Seq<u8>, r: Option<(usize, usize)>) -> Seq<char> {
    match r {
        Some((s, e)) => if crate::formats::ascii_bytes(b.subrange(s as int, e as int)) {
            crate::formats::ascii_text(b.subrange(s as int, e as int))
        } else {
            crate::formats::utf8_lossy(b.subrange(s as int, e as int))
        },
        None => Seq::empty(),
    }
}

/// `m` holds the fields `h` and the ornaments, samples and patterns `st`
/// read from the text `b`, the other fields those of a new module.
pub open spec fn vtm_module(b: Seq<u8>, h: VtmHead, st: Secs, m: Module) -> bool {
    &&& secs_match(m, st)
    &&& m.vortex_module_header == h.vortex
    &&& m.features_level == h.level
    &&& m.title@ == text_at(b, h.title)
    &&& m.author@ == text_at(b, h.author)
    &&& m.ton_table == h.ton
    &&& m.initial_delay == h.delay
    &&& m.positions.length == h.poslen
    &&& m.positions.loop_pos == h.lp
    &&& m.positions.value@ == h.values@
    &&& forall|c: int|
        0 <= c < 3 ==> #[trigger] m.is_chans[c] == (ChannelState {
            global_ton: true,
            global_noise: true,
            global_envelope: true,
            envelope_enabled: false,
            ornament: 0,
            sample: 1,
            volume: 15,
        })
}

/// The texts [`parse`] reads: all but those where a pattern line it reads
/// has a field cut inside a character (see [`row_cuts_ok`]).
pub open spec fn parse_defined(b: Seq<u8>) -> bool {
    match module_start(b, 0) {
        None => true,
        Some(i) => match head(b, i, start_head()) {
            Err(_) => true,
            Ok((h, j, hdr)) => sections_cut(b, j, hdr),
        },
    }
}

/// What reading the VTM text `b` gives: an error when it has no `[Module]`
/// line or a module field is refused; otherwise the module whose fields are
/// the `[Module]` section's (see [`head`]) and whose ornaments, samples and
/// patterns are those its sections give (see [`sections`]).
pub open spec fn parse_outcome(b: Seq<u8>, r: Result<Module, FormatError>) -> bool {
    match module_start(b, 0) {
        None => r == Err::<Module, FormatError>(FormatError::MissingModuleSection),
        Some(i) => match head(b, i, start_head()) {
            Err(e) => r == Err::<Module, FormatError>(e),
            Ok((h, j, hdr)) => r matches Ok(m) && vtm_module(b, h, sections(b, j, hdr, secs0()), m),
        },
    }
}

fn read_text(b: &[u8]) -> (r: (Result<Module, FormatError>, bool))
    requires
        b@.len() < usize::MAX,
    ensures
        r.1 == !parse_defined(b@),
        !r.1 ==> parse_outcome(b@, r.0),
{
    let i = match module_start_exec(b) {
        Some(i) => i,
        None => {
            return (Err(FormatError::MissingModuleSection), false);
        },
    };
    let mut h = VtmHead {
        vortex: true,
        level: FeaturesLevel::Vt2,
        title: None,
        author: None,
        ton: 0,
        delay: 3,
        poslen: 0,
        lp: 0,
        values: [0usize; 256],
    };
    proof {
        assert(h.values@ =~= Seq::new(256, |k: int| 0usize));
        assert(head0(h));
        let c = start_head();
        assert(head0(c));
        assert(c.values =~= h.values);
        assert(c == h);
    }
    let (j, hdr) = match head_exec(b, i, &mut h) {
        Ok(x) => x,
        Err(e) => {
            return (Err(e), false);
        },
    };
    let mut m = Module::default();
    assert(m.ornaments[0] matches Some(o) && o.items@ =~= crate::formats::asc::zero_offsets());
    assert(orns_match(m.ornaments@, start_orn_slots()));
    assert(sams_match(m.samples@, Seq::new(32, |v: int| None)));
    assert(pats_match(m.patterns@, no_reads()));
    let bad = read_sections(b, j, hdr, &mut m, Ghost(secs0()));
    if bad {
        return (Err(FormatError::MissingModuleSection), true);
    }
    m.vortex_module_header = h.vortex;
    m.features_level = h.level;
    match h.title {
        Some((s, e)) => {
            m.title = crate::formats::string_from_bytes_lossy(vstd::slice::slice_subrange(b, s, e));
        },
        None => {},
    }
    match h.author {
        Some((s, e)) => {
            m.author = crate::formats::string_from_bytes_lossy(vstd::slice::slice_subrange(b, s, e));
        },
        None => {},
    }
    assert(h.title is None ==> m.title@ =~= Seq::<char>::empty());
    assert(h.author is None ==> m.author@ =~= Seq::<char>::empty());
    m.ton_table = h.ton;
    m.initial_delay = h.delay;
    m.positions.length = h.poslen;
    m.positions.loop_pos = h.lp;
    m.positions.value = h.values;
    (Ok(m), false)
}

/// Parse a VTM text module (see [`parse_outcome`]).  A text whose pattern
/// lines have fields cut inside a character is outside the contract (see
/// [`parse_defined`]).
pub fn parse(text: &str) -> (r: Result<Module, FormatError>)
    requires
        text.spec_bytes().len() <= isize::MAX,
        parse_defined(text.spec_bytes()),
    ensures
        parse_outcome(text.spec_bytes(), r),
{
    read_text(text.as_bytes()).0
}

/// Whether [`parse`] reads `text` (see [`parse_defined`]).
pub fn readable(text: &str) -> (r: bool)
    requires
        text.spec_bytes().len() <= isize::MAX,
    ensures
        r == parse_defined(text.spec_bytes()),
{
    !read_text(text.as_bytes()).1
}

} // verus!
