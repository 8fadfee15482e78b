//! What a written VTM text reads back as.
use crate::formats::vtm::{ascii, upper};
use crate::formats::vtm_read::{
    ascii_caps, dec_digits, dec_of, find_byte, head, line_end, line_at, next_line, trim_end, trim_start, trimmed,
    ws_at, ws_before, VtmHead,
};
use crate::formats::vtm::list_chars;
use crate::formats::vtm_read::order_parts;
use crate::formats::FormatError;
use crate::types::{FeaturesLevel, Module, PositionList, MAX_PAT_NUM};
use vstd::prelude::*;
use vstd::string::StringSliceAdditionalSpecFns;

verus! {

/// A printable ASCII byte other than the space.
pub open spec fn plain(x: u8) -> bool {
    0x21 <= x < 0x7F
}

/// `b[i..j]` is ASCII without newlines.
pub open spec fn ascii_line(b: Seq<u8>, i: int, j: int) -> bool {
    forall|k: int| i <= k < j ==> #[trigger] b[k] < 0x80 && b[k] != 0x0A
}

proof fn lemma_line_end_at(b: Seq<u8>, i: int, j: int)
    requires
        0 <= i <= j < b.len(),
        ascii_line(b, i, j),
        b[j] == 0x0A,
    ensures
        line_end(b, i) == j,
    decreases j - i,
{
    if i < j {
        lemma_line_end_at(b, i + 1, j);
    }
}

proof fn lemma_trimmed_plain(b: Seq<u8>, i: int, j: int)
    requires
        0 <= i <= j <= b.len(),
        ascii_line(b, i, j),
        i < j ==> plain(b[i]) && plain(b[j - 1]),
    ensures
        trimmed(b, i, j) == (i, j),
{
    if i < j {
        assert(ws_at(b, i) == 0);
        assert(trim_start(b, i, j) == i);
        assert(ws_at(b, j - 1) == 0);
        if j - 2 >= i {
            assert(b[j - 2] < 0x80);
        }
        if j - 3 >= i {
            assert(b[j - 3] < 0x80);
        }
        assert(ws_before(b, i, j) == 0);
        assert(trim_end(b, i, j) == j);
    } else {
        assert(trim_start(b, i, j) == i);
        assert(trim_end(b, i, j) == j);
    }
}

proof fn lemma_find_byte_at(b: Seq<u8>, i: int, q: int, j: int, x: u8)
    requires
        0 <= i <= q <= j <= b.len(),
        forall|k: int| i <= k < q ==> #[trigger] b[k] != x,
        q < j ==> b[q] == x,
    ensures
        find_byte(b, i, j, x) == q,
    decreases q - i,
{
    if i < q {
        lemma_find_byte_at(b, i + 1, q, j, x);
    }
}

/// A `key=value` line from `i` to the newline at `j`: the key `b[i..i+kl]`
/// (plain bytes, no `=`, not starting with `[`), then `=`, then a value
/// with no white space at its ends.  Reading it applies the key (in
/// capitals) to the value and goes on with the next line.
pub proof fn lemma_key_line(b: Seq<u8>, i: int, kl: int, j: int, h: VtmHead)
    requires
        0 <= i,
        kl >= 1,
        i + kl < j < b.len(),
        b[j] == 0x0A,
        ascii_line(b, i, j),
        forall|k: int| i <= k < i + kl ==> plain(#[trigger] b[k]) && b[k] != 0x3D,
        b[i] != 0x5B,
        b[i + kl] == 0x3D,
        i + kl + 1 < j ==> plain(b[i + kl + 1]) && plain(b[j - 1]),
    ensures
        head(b, i, h) == match crate::formats::vtm_read::apply_key(
            b,
            ascii_caps(b.subrange(i, i + kl)),
            i + kl + 1,
            j,
            h,
        ) {
            Err(x) => Err(x),
            Ok(h2) => head(b, j + 1, h2),
        },
{
    lemma_line_end_at(b, i, j);
    lemma_trimmed_plain(b, i, j);
    assert(line_at(b, i) == (i, j));
    assert(next_line(b, i) == j + 1);
    lemma_find_byte_at(b, i, i + kl, j, 0x3D);
    lemma_trimmed_plain(b, i, i + kl);
    lemma_trimmed_plain(b, i + kl + 1, j);
    assert(crate::formats::ascii_bytes(b.subrange(i, i + kl)));
}

/// An empty line is skipped.
pub proof fn lemma_blank_line(b: Seq<u8>, i: int, h: VtmHead)
    requires
        0 <= i < b.len(),
        b[i] == 0x0A,
    ensures
        head(b, i, h) == head(b, i + 1, h),
{
    lemma_line_end_at(b, i, i);
    lemma_trimmed_plain(b, i, i);
}

/// A section line from `i` to the newline at `j` ends the module fields.
pub proof fn lemma_section_line(b: Seq<u8>, i: int, j: int, h: VtmHead)
    requires
        0 <= i < j < b.len(),
        b[j] == 0x0A,
        ascii_line(b, i, j),
        b[i] == 0x5B,
        plain(b[j - 1]),
    ensures
        head(b, i, h) == Ok::<(VtmHead, int, Option<(int, int)>), FormatError>((h, j + 1, Some((i, j)))),
{
    lemma_line_end_at(b, i, j);
    lemma_trimmed_plain(b, i, j);
}

/// Decimal digits read back as their value.
pub proof fn lemma_dec_digits(v: nat)
    ensures
        dec_digits(ascii(crate::util::digits(v, 10))) == Some(v),
        ascii(crate::util::digits(v, 10)).len() >= 1,
        forall|k: int|
            0 <= k < crate::util::digits(v, 10).len() ==> 0x30 <= #[trigger] ascii(crate::util::digits(v, 10))[k]
                <= 0x39,
    decreases v,
{
    let d = crate::util::digits(v, 10);
    if v < 10 {
        assert((48 + v) as char as int == 48 + v);
        assert(ascii(d).drop_last() =~= Seq::<u8>::empty());
        assert(dec_digits(Seq::<u8>::empty()) == Some(0nat));
    } else {
        lemma_dec_digits(v / 10);
        let p = crate::util::digits(v / 10, 10);
        assert(d == p.push(crate::util::digit_char(v % 10)));
        assert(((48 + v % 10) as char) as int == 48 + v % 10);
        assert(ascii(d).drop_last() =~= ascii(p));
        assert(ascii(d).last() == (48 + v % 10) as u8);
        assert(v == (v / 10) * 10 + v % 10);
        assert forall|k: int| 0 <= k < d.len() implies 0x30 <= #[trigger] ascii(d)[k] <= 0x39 by {
            if k < p.len() {
                assert(ascii(d)[k] == ascii(p)[k]);
            }
        }
    }
}

/// A decimal number up to `max` reads back as itself.
pub proof fn lemma_dec_of(v: nat, max: int)
    requires
        v <= max,
    ensures
        dec_of(ascii(crate::util::digits(v, 10)), max) == Some(v as int),
{
    lemma_dec_digits(v);
}

/// The module fields after the first `k` entries of the play order of `p`
/// are read into `h0`.
pub open spec fn order_head(h0: VtmHead, p: PositionList, k: nat) -> VtmHead
    decreases k,
{
    if k == 0 {
        VtmHead { poslen: 0, lp: 0, ..h0 }
    } else {
        let h = order_head(h0, p, (k - 1) as nat);
        VtmHead {
            lp: if (k - 1) as int == p.loop_pos as int {
                h.poslen
            } else {
                h.lp
            },
            values: vstd::array::spec_array_update(h.values, h.poslen as int, p.value[k - 1]),
            poslen: (h.poslen + 1) as usize,
            ..h
        }
    }
}

proof fn lemma_order_head(h0: VtmHead, p: PositionList, k: nat)
    requires
        k <= 256,
    ensures
        order_head(h0, p, k).poslen == k,
        order_head(h0, p, k).lp == if (p.loop_pos as int) < k {
            p.loop_pos as int
        } else {
            0
        },
        forall|q: int| 0 <= q < k ==> #[trigger] order_head(h0, p, k).values[q] == p.value[q],
        order_head(h0, p, k).title == h0.title,
        order_head(h0, p, k).author == h0.author,
        order_head(h0, p, k).vortex == h0.vortex,
        order_head(h0, p, k).level == h0.level,
        order_head(h0, p, k).ton == h0.ton,
        order_head(h0, p, k).delay == h0.delay,
    decreases k,
{
    if k > 0 {
        lemma_order_head(h0, p, (k - 1) as nat);
        let h = order_head(h0, p, (k - 1) as nat);
        assert forall|q: int| 0 <= q < k implies #[trigger] order_head(h0, p, k).values[q] == p.value[q] by {
            assert(order_head(h0, p, k).values@ == h.values@.update(h.poslen as int, p.value[k - 1]));
        }
    }
}

proof fn lemma_list_prefix(item: spec_fn(int) -> Seq<char>, len: int, lp: int, i: int, n: int)
    requires
        0 <= i <= n,
    ensures
        list_chars(item, len, lp, n).take(list_chars(item, len, lp, i).len() as int) == list_chars(item, len, lp, i),
        list_chars(item, len, lp, i).len() <= list_chars(item, len, lp, n).len(),
    decreases n - i,
{
    if i < n {
        lemma_list_prefix(item, len, lp, i, n - 1);
        let a = list_chars(item, len, lp, n - 1);
        let c = list_chars(item, len, lp, n);
        assert(c.take(a.len() as int) =~= a);
        assert(c.take(list_chars(item, len, lp, i).len() as int) =~= a.take(list_chars(item, len, lp, i).len() as int));
    } else {
        assert(list_chars(item, len, lp, n).take(list_chars(item, len, lp, n).len() as int) =~= list_chars(item, len, lp, n));
    }
}

/// The play order text of `p`, placed in `b` from `o` on, reads back as
/// `p`'s positions and loop (the loop kept when it marks an entry), entry
/// `k` on.
#[verifier::rlimit(50)]
#[verifier::spinoff_prover]
proof fn lemma_order_entries(b: Seq<u8>, o: int, p: PositionList, h0: VtmHead, k: nat)
    requires
        0 <= o,
        1 <= p.length <= 256,
        k < p.length,
        forall|q: int| 0 <= q < p.length ==> #[trigger] p.value[q] <= MAX_PAT_NUM,
        o + crate::formats::vtm::order_chars(p).len() <= b.len(),
        b.subrange(o, o + crate::formats::vtm::order_chars(p).len()) == ascii(crate::formats::vtm::order_chars(p)),
    ensures
        order_parts(
            b,
            o + list_chars(|q: int| crate::util::digits(p.value[q] as nat, 10), p.length as int, p.loop_pos as int, k as int).len(),
            o + crate::formats::vtm::order_chars(p).len(),
            order_head(h0, p, k),
        ) == Ok::<VtmHead, FormatError>(order_head(h0, p, p.length as nat)),
    decreases p.length - k,
{
    let item = |q: int| crate::util::digits(p.value[q] as nat, 10);
    let len = p.length as int;
    let lp = p.loop_pos as int;
    let all = list_chars(item, len, lp, len);
    assert(all == crate::formats::vtm::order_chars(p));
    let pk = list_chars(item, len, lp, k as int);
    let pk1 = list_chars(item, len, lp, (k + 1) as int);
    lemma_list_prefix(item, len, lp, (k + 1) as int, len);
    lemma_list_prefix(item, len, lp, k as int, (k + 1) as int);
    let mark: Seq<char> = if k == lp { seq!['L'] } else { Seq::empty() };
    let comma: Seq<char> = if k + 1 < len { seq![','] } else { Seq::empty() };
    let d = item(k as int);
    assert(pk1 == pk + mark + d + comma);
    let s = o + pk.len();
    let ml = mark.len() as int;
    let c = s + ml + d.len();
    let ve = o + all.len();
    lemma_dec_digits(p.value[k as int] as nat);
    assert forall|q: int| 0 <= q < pk1.len() implies #[trigger] b[o + q] == pk1[q] as u8 by {
        assert(b.subrange(o, ve)[q] == ascii(all)[q]);
        assert(all[q] == pk1[q]);
    }
    assert forall|q: int| 0 <= q < d.len() implies #[trigger] b[s + ml + q] == ascii(d)[q] by {
        assert(b[o + (pk.len() + ml + q)] == pk1[pk.len() + ml + q] as u8);
        assert(pk1[pk.len() + ml + q] == d[q]);
    }
    if k == lp {
        assert(b[o + pk.len()] == pk1[pk.len() as int] as u8);
        assert(pk1[pk.len() as int] == 'L');
        assert(b[s] == 0x4C);
    } else {
        assert(b[s] == ascii(d)[0]);
    }
    if k + 1 < len {
        assert(b[o + (pk.len() + ml + d.len())] == pk1[pk.len() + ml + d.len()] as u8);
        assert(pk1[pk.len() + ml + d.len()] == ',');
        assert(b[c] == 0x2C);
        assert(c < ve);
    } else {
        assert(pk1.len() == all.len());
        assert(c == ve);
    }
    assert(ascii_line(b, s, c)) by {
        assert forall|q: int| s <= q < c implies #[trigger] b[q] < 0x80 && b[q] != 0x0A by {
            if q < s + ml {
                assert(b[q] == 0x4C);
            } else {
                assert(b[s + ml + (q - s - ml)] == ascii(d)[q - s - ml]);
            }
        }
    }
    assert forall|q: int| s <= q < c implies #[trigger] b[q] != 0x2C by {
        if q >= s + ml {
            assert(b[s + ml + (q - s - ml)] == ascii(d)[q - s - ml]);
        }
    }
    lemma_find_byte_at(b, s, c, ve, 0x2C);
    assert(b[s + ml + (d.len() - 1)] == ascii(d)[d.len() - 1]);
    assert(b[c - 1] == ascii(d)[d.len() - 1]);
    lemma_trimmed_plain(b, s, c);
    assert(b[s + ml + 0] == ascii(d)[0]);
    lemma_trimmed_plain(b, s + ml, c);
    assert forall|q: int| 0 <= q < d.len() implies #[trigger] b.subrange(s + ml, c)[q] == ascii(d)[q] by {
        assert(b[s + ml + q] == ascii(d)[q]);
    }
    assert(b.subrange(s + ml, c) =~= ascii(d));
    lemma_dec_of(p.value[k as int] as nat, MAX_PAT_NUM as int);
    lemma_order_head(h0, p, k);
    if k + 1 < len {
        lemma_order_entries(b, o, p, h0, (k + 1) as nat);
        assert(c + 1 == o + pk1.len());
    }
}

/// `b` holds the bytes of the ASCII text `x` from `o` on.
pub open spec fn placed(b: Seq<u8>, o: int, x: Seq<char>) -> bool {
    0 <= o && o + x.len() <= b.len() && b.subrange(o, o + x.len()) == ascii(x)
}

proof fn lemma_placed_split(b: Seq<u8>, o: int, x: Seq<char>, y: Seq<char>)
    requires
        placed(b, o, x + y),
    ensures
        placed(b, o, x),
        placed(b, o + x.len(), y),
{
    let xy = x + y;
    assert forall|k: int| 0 <= k < x.len() implies #[trigger] b.subrange(o, o + x.len())[k] == ascii(x)[k] by {
        assert(b.subrange(o, o + xy.len())[k] == ascii(xy)[k]);
        assert(xy[k] == x[k]);
    }
    assert(b.subrange(o, o + x.len()) =~= ascii(x));
    assert forall|k: int| 0 <= k < y.len() implies #[trigger] b.subrange(o + x.len(), o + x.len() + y.len())[k]
        == ascii(y)[k] by {
        assert(b.subrange(o, o + xy.len())[x.len() + k] == ascii(xy)[x.len() + k]);
        assert(xy[x.len() + k] == y[k]);
    }
    assert(b.subrange(o + x.len(), o + x.len() + y.len()) =~= ascii(y));
}

proof fn lemma_placed_at(b: Seq<u8>, o: int, x: Seq<char>, k: int)
    requires
        placed(b, o, x),
        0 <= k < x.len(),
    ensures
        b[o + k] == x[k] as u8,
{
    assert(b.subrange(o, o + x.len())[k] == ascii(x)[k]);
}

/// A line of text: ASCII, no newline, a printable character other than the
/// space at either end.
pub open spec fn line_text(t: Seq<char>) -> bool {
    &&& forall|k: int| 0 <= k < t.len() ==> (#[trigger] t[k] as int) < 128 && t[k] != '\n'
    &&& t.len() > 0 ==> 0x21 <= (t[0] as int) < 0x7F && 0x21 <= (t[t.len() - 1] as int) < 0x7F
}

/// A field name: printable characters other than the space and `=`, not
/// starting with `[`.
pub open spec fn key_text(t: Seq<char>) -> bool {
    &&& t.len() >= 1
    &&& forall|k: int| 0 <= k < t.len() ==> 0x21 <= (#[trigger] t[k] as int) < 0x7F && t[k] != '='
    &&& t[0] != '['
}

proof fn lemma_char_byte(c: char)
    requires
        (c as int) < 128,
    ensures
        (c as u8) as int == c as int,
{
    assert(0 <= c as int);
}

proof fn lemma_key_bytes(b: Seq<u8>, o: int, key: Seq<char>, val: Seq<char>)
    requires
        placed(b, o, key + seq!['='] + val + seq!['\n']),
        key_text(key),
        line_text(val),
    ensures
        ({
            let kl = key.len() as int;
            let j = o + kl + 1 + val.len();
            &&& 0 <= o
            &&& o + kl < j < b.len()
            &&& b[j] == 0x0A
            &&& ascii_line(b, o, j)
            &&& forall|k: int| o <= k < o + kl ==> plain(#[trigger] b[k]) && b[k] != 0x3D
            &&& b[o] != 0x5B
            &&& b[o + kl] == 0x3D
            &&& (o + kl + 1 < j ==> plain(b[o + kl + 1]) && plain(b[j - 1]))
            &&& b.subrange(o, o + kl) == ascii(key)
        }),
{
    let x = key + seq!['='] + val + seq!['\n'];
    let kl = key.len() as int;
    let j = o + kl + 1 + val.len();
    assert forall|k: int| 0 <= k < kl implies #[trigger] b[o + k] == key[k] as u8 by {
        lemma_placed_at(b, o, x, k);
        assert(x[k] == key[k]);
    }
    assert forall|k: int| 0 <= k < val.len() implies #[trigger] b[o + kl + 1 + k] == val[k] as u8 by {
        lemma_placed_at(b, o, x, kl + 1 + k);
        assert(x[kl + 1 + k] == val[k]);
    }
    lemma_placed_at(b, o, x, kl);
    assert(x[kl] == '=');
    lemma_placed_at(b, o, x, j - o);
    assert(x[j - o] == '\n');
    assert forall|q: int| o <= q < j implies #[trigger] b[q] < 0x80 && b[q] != 0x0A by {
        if q < o + kl {
            assert(b[o + (q - o)] == key[q - o] as u8);
            assert((key[q - o] as int) < 127);
            assert((key[q - o] as u8) as int == key[q - o] as int);
        } else if q > o + kl {
            let c = val[q - o - kl - 1];
            assert(b[o + kl + 1 + (q - o - kl - 1)] == c as u8);
            assert(c != '\n');
            lemma_char_byte(c);
            assert(('\n' as int) == 10);
        } else {
            assert(('=' as u8) == 0x3D);
        }
    }
    assert forall|k: int| o <= k < o + kl implies plain(#[trigger] b[k]) && b[k] != 0x3D by {
        assert(b[o + (k - o)] == key[k - o] as u8);
        assert(key[k - o] != '=');
        assert((key[k - o] as u8) as int == key[k - o] as int);
        assert(('=' as int) == 0x3D);
    }
    assert(b[o + 0] == key[0] as u8);
    assert((key[0] as u8) as int == key[0] as int);
    assert(('[' as int) == 0x5B);
    if val.len() > 0 {
        assert(b[o + kl + 1 + 0] == val[0] as u8);
        assert(b[o + kl + 1 + (val.len() - 1)] == val[val.len() - 1] as u8);
        lemma_char_byte(val[0]);
        lemma_char_byte(val[val.len() - 1]);
    }
    assert forall|k: int| 0 <= k < kl implies #[trigger] b.subrange(o, o + kl)[k] == ascii(key)[k] by {
        assert(b[o + k] == key[k] as u8);
    }
    assert(b.subrange(o, o + kl) =~= ascii(key));
}

/// The line `key=val` read at `o`: the key (in capitals) applied to the
/// value, then the next line.
proof fn lemma_key_text(b: Seq<u8>, o: int, key: Seq<char>, val: Seq<char>, h: VtmHead)
    requires
        placed(b, o, key + seq!['='] + val + seq!['\n']),
        key_text(key),
        line_text(val),
    ensures
        head(b, o, h) == match crate::formats::vtm_read::apply_key(
            b,
            ascii_caps(ascii(key)),
            o + key.len() + 1,
            o + key.len() + 1 + val.len(),
            h,
        ) {
            Err(x) => Err(x),
            Ok(h2) => head(b, o + key.len() + val.len() + 2, h2),
        },
{
    lemma_key_bytes(b, o, key, val);
    lemma_key_line(b, o, key.len() as int, o + key.len() + 1 + val.len(), h);
}

/// A decimal digit character.
pub open spec fn dec_char(c: char) -> bool {
    48 <= (c as int) <= 57
}

proof fn lemma_dec_chars(v: nat)
    ensures
        crate::util::digits(v, 10).len() >= 1,
        forall|k: int| 0 <= k < crate::util::digits(v, 10).len() ==> dec_char(#[trigger] crate::util::digits(v, 10)[k]),
    decreases v,
{
    let d = crate::util::digits(v, 10);
    if v < 10 {
        assert(d[0] == crate::util::digit_char(v));
        assert((48 + v) as char as int == 48 + v);
    } else {
        lemma_dec_chars(v / 10);
        let p = crate::util::digits(v / 10, 10);
        assert(d == p.push(crate::util::digit_char(v % 10)));
        assert(((48 + v % 10) as char) as int == 48 + v % 10);
        assert forall|k: int| 0 <= k < d.len() implies dec_char(#[trigger] d[k]) by {
            if k < p.len() {
                assert(d[k] == p[k]);
            }
        }
    }
}

/// Decimal digits make a line of text.
proof fn lemma_dec_line(v: nat)
    ensures
        line_text(crate::util::digits(v, 10)),
{
    lemma_dec_chars(v);
    let d = crate::util::digits(v, 10);
    assert(dec_char(d[0]));
    assert(dec_char(d[d.len() - 1]));
}

proof fn lemma_list_chars_shape(item: spec_fn(int) -> Seq<char>, len: int, lp: int, i: int)
    requires
        0 <= i <= len,
        forall|q: int| 0 <= q < len ==> (#[trigger] item(q)).len() >= 1 && forall|k: int|
            0 <= k < item(q).len() ==> dec_char(#[trigger] item(q)[k]),
    ensures
        forall|k: int|
            0 <= k < list_chars(item, len, lp, i).len() ==> {
                let c = #[trigger] list_chars(item, len, lp, i)[k];
                c == 'L' || c == ',' || dec_char(c)
            },
        i >= 1 ==> {
            let c = list_chars(item, len, lp, i)[0];
            c == 'L' || dec_char(c)
        },
        i == len >= 1 ==> dec_char(list_chars(item, len, lp, i).last()),
        i >= 1 ==> list_chars(item, len, lp, i).len() >= 1,
    decreases i,
{
    if i >= 1 {
        lemma_list_chars_shape(item, len, lp, i - 1);
        let a = list_chars(item, len, lp, i - 1);
        let mark: Seq<char> = if i - 1 == lp { seq!['L'] } else { Seq::empty() };
        let comma: Seq<char> = if i < len { seq![','] } else { Seq::empty() };
        let d = item(i - 1);
        let c = list_chars(item, len, lp, i);
        assert(c == a + mark + d + comma);
        assert forall|k: int| 0 <= k < c.len() implies {
            let x = #[trigger] c[k];
            x == 'L' || x == ',' || dec_char(x)
        } by {
            if k < a.len() {
                assert(c[k] == a[k]);
            } else if k < a.len() + mark.len() {
                assert(c[k] == mark[k - a.len()]);
            } else if k < a.len() + mark.len() + d.len() {
                assert(c[k] == d[k - a.len() - mark.len()]);
            } else {
                assert(c[k] == comma[k - a.len() - mark.len() - d.len()]);
            }
        }
        if i == 1 {
            assert(a.len() == 0);
            if mark.len() == 0 {
                assert(c[0] == d[0]);
            } else {
                assert(c[0] == 'L');
            }
        } else {
            assert(c[0] == a[0]);
        }
        if i == len {
            assert(c.last() == d[d.len() - 1]);
        }
    }
}

/// The play order text of a non-empty list makes a line of text.
proof fn lemma_order_line(p: PositionList)
    requires
        p.length >= 1,
    ensures
        line_text(crate::formats::vtm::order_chars(p)),
        crate::formats::vtm::order_chars(p).len() >= 1,
{
    let item = |q: int| crate::util::digits(p.value[q] as nat, 10);
    assert forall|q: int| 0 <= q < p.length implies (#[trigger] item(q)).len() >= 1 && forall|k: int|
        0 <= k < item(q).len() ==> dec_char(#[trigger] item(q)[k]) by {
        lemma_dec_chars(p.value[q] as nat);
    }
    lemma_list_chars_shape(item, p.length as int, p.loop_pos as int, p.length as int);
    let c = crate::formats::vtm::order_chars(p);
    assert(c == list_chars(item, p.length as int, p.loop_pos as int, p.length as int));
    assert forall|k: int| 0 <= k < c.len() implies (#[trigger] c[k] as int) < 128 && c[k] != '\n' by {
        let x = c[k];
        assert(x == 'L' || x == ',' || dec_char(x));
    }
    assert(c[c.len() - 1] == c.last());
}

/// `encode_utf8` of a concatenation.
proof fn lemma_encode_concat(x: Seq<char>, y: Seq<char>)
    ensures
        vstd::utf8::encode_utf8(x + y) == vstd::utf8::encode_utf8(x) + vstd::utf8::encode_utf8(y),
    decreases x.len(),
{
    if x.len() > 0 {
        assert((x + y).drop_first() =~= x.drop_first() + y);
        assert((x + y)[0] == x[0]);
        lemma_encode_concat(x.drop_first(), y);
        assert(vstd::utf8::encode_utf8(x + y) =~= vstd::utf8::encode_utf8(x) + vstd::utf8::encode_utf8(y));
    } else {
        assert(x + y =~= y);
    }
}

/// A text starting with the `[Module]` line has its module fields from byte 9 on.
proof fn lemma_module_line(b: Seq<u8>)
    requires
        placed(b, 0, "[Module]\n"@),
    ensures
        crate::formats::vtm_read::module_start(b, 0) == Some(9int),
{
    reveal_strlit("[Module]\n");
    let x = "[Module]\n"@;
    assert forall|k: int| 0 <= k < 9 implies #[trigger] b[k] == x[k] as u8 by {
        lemma_placed_at(b, 0, x, k);
    }
    assert(ascii_line(b, 0, 8)) by {
        assert forall|q: int| 0 <= q < 8 implies #[trigger] b[q] < 0x80 && b[q] != 0x0A by {
            assert(b[q] == x[q] as u8);
        }
    }
    assert(b[8] == 0x0A);
    lemma_line_end_at(b, 0, 8);
    lemma_trimmed_plain(b, 0, 8);
    assert(crate::formats::vtm_read::same_ignoring_case(b, 0, 8, crate::formats::vtm_read::module_word()));
}

/// The `VortexTrackerII` line sets the Vortex header flag.
proof fn lemma_vortex_line(b: Seq<u8>, o: int, v: bool, h: VtmHead)
    requires
        placed(b, o, if v { "VortexTrackerII=1\n"@ } else { "VortexTrackerII=0\n"@ }),
    ensures
        head(b, o, h) == head(b, o + 18, VtmHead { vortex: v, ..h }),
{
    reveal_strlit("VortexTrackerII=1\n");
    reveal_strlit("VortexTrackerII=0\n");
    reveal_strlit("VortexTrackerII");
    let key = "VortexTrackerII"@;
    let val: Seq<char> = if v { seq!['1'] } else { seq!['0'] };
    assert((if v { "VortexTrackerII=1\n"@ } else { "VortexTrackerII=0\n"@ }) =~= key + seq!['='] + val + seq!['\n']);
    lemma_key_text(b, o, key, val, h);
    assert(ascii_caps(ascii(key)) =~= crate::formats::vtm_read::vortex_key());
    assert(key + seq!['='] + val + seq!['\n'] =~= (key + seq!['=']) + (val + seq!['\n']));
    lemma_placed_split(b, o, key + seq!['='], val + seq!['\n']);
    lemma_placed_split(b, o + 16, val, seq!['\n']);
    assert(b.subrange(o + 16, o + 17) == ascii(val));
    if v {
        assert(ascii(val) != crate::formats::vtm_read::zero_word());
    } else {
        assert(ascii(val) =~= crate::formats::vtm_read::zero_word());
    }
}

proof fn lemma_value_at(b: Seq<u8>, o: int, key: Seq<char>, val: Seq<char>)
    requires
        placed(b, o, key + seq!['='] + val + seq!['\n']),
    ensures
        b.subrange(o + key.len() + 1, o + key.len() + 1 + val.len()) == ascii(val),
{
    assert(key + seq!['='] + val + seq!['\n'] =~= (key + seq!['=']) + (val + seq!['\n']));
    lemma_placed_split(b, o, key + seq!['='], val + seq!['\n']);
    lemma_placed_split(b, o + key.len() + 1, val, seq!['\n']);
}

/// The `Version` line sets the features level it was written for.
proof fn lemma_version_line(b: Seq<u8>, o: int, f: FeaturesLevel, h: VtmHead)
    requires
        placed(b, o, "Version="@ + crate::formats::vtm::version_chars(f) + seq!['\n']),
    ensures
        head(b, o, h) == head(b, o + 12, VtmHead { level: f, ..h }),
{
    reveal_strlit("Version=");
    reveal_strlit("Version");
    reveal_strlit("3.5");
    reveal_strlit("3.6");
    reveal_strlit("3.7");
    let key = "Version"@;
    let val = crate::formats::vtm::version_chars(f);
    assert("Version="@ + val + seq!['\n'] =~= key + seq!['='] + val + seq!['\n']);
    assert(line_text(val));
    lemma_key_text(b, o, key, val, h);
    lemma_value_at(b, o, key, val);
    assert(ascii_caps(ascii(key)) =~= crate::formats::vtm_read::version_key());
    assert(crate::formats::vtm_read::version_key() != crate::formats::vtm_read::vortex_key());
    let v = b.subrange(o + 8, o + 11);
    match f {
        FeaturesLevel::Pt35 => {
            assert(v =~= seq![0x33u8, 0x2E, 0x35]);
        },
        FeaturesLevel::Vt2 => {
            assert(v =~= seq![0x33u8, 0x2E, 0x36]);
            assert(v[2] != 0x35u8 && v[2] != 0x37u8);
            assert(v != seq![0x33u8, 0x2E, 0x35]);
            assert(v != seq![0x33u8, 0x2E, 0x37]);
        },
        FeaturesLevel::Pt37 => {
            assert(v =~= seq![0x33u8, 0x2E, 0x37]);
            assert(v != seq![0x33u8, 0x2E, 0x35]);
        },
    }
}

/// The `Title` line marks where the title's text is.
proof fn lemma_title_line(b: Seq<u8>, o: int, t: Seq<char>, h: VtmHead)
    requires
        line_text(t),
        placed(b, o, "Title="@ + t + seq!['\n']),
    ensures
        head(b, o, h) == head(
            b,
            o + t.len() + 7,
            VtmHead { title: Some(((o + 6) as usize, (o + 6 + t.len()) as usize)), ..h },
        ),
        b.subrange(o + 6, o + 6 + t.len()) == ascii(t),
{
    reveal_strlit("Title=");
    reveal_strlit("Title");
    let key = "Title"@;
    assert("Title="@ + t + seq!['\n'] =~= key + seq!['='] + t + seq!['\n']);
    lemma_key_text(b, o, key, t, h);
    lemma_value_at(b, o, key, t);
    assert(ascii_caps(ascii(key)) =~= crate::formats::vtm_read::title_key());
    assert(crate::formats::vtm_read::title_key() != crate::formats::vtm_read::vortex_key());
    assert(crate::formats::vtm_read::title_key() != crate::formats::vtm_read::version_key());
}

/// The `Author` line marks where the author's text is.
proof fn lemma_author_line(b: Seq<u8>, o: int, t: Seq<char>, h: VtmHead)
    requires
        line_text(t),
        placed(b, o, "Author="@ + t + seq!['\n']),
    ensures
        head(b, o, h) == head(
            b,
            o + t.len() + 8,
            VtmHead { author: Some(((o + 7) as usize, (o + 7 + t.len()) as usize)), ..h },
        ),
        b.subrange(o + 7, o + 7 + t.len()) == ascii(t),
{
    reveal_strlit("Author=");
    reveal_strlit("Author");
    let key = "Author"@;
    assert("Author="@ + t + seq!['\n'] =~= key + seq!['='] + t + seq!['\n']);
    lemma_key_text(b, o, key, t, h);
    lemma_value_at(b, o, key, t);
    assert(ascii_caps(ascii(key)) =~= crate::formats::vtm_read::author_key());
    assert(crate::formats::vtm_read::author_key() != crate::formats::vtm_read::vortex_key());
    assert(crate::formats::vtm_read::author_key() != crate::formats::vtm_read::version_key());
    assert(crate::formats::vtm_read::author_key() != crate::formats::vtm_read::title_key());
}

proof fn lemma_other_keys(k: Seq<u8>)
    requires
        k.len() == 5 || k.len() == 9,
        k.len() == 5 ==> k[0] != 0x54,
        k.len() == 9 ==> k[0] != 0x50,
    ensures
        k != crate::formats::vtm_read::vortex_key(),
        k != crate::formats::vtm_read::version_key(),
        k != crate::formats::vtm_read::title_key(),
        k != crate::formats::vtm_read::author_key(),
        k.len() == 9 ==> k != crate::formats::vtm_read::playorder_key(),
{
    assert(crate::formats::vtm_read::title_key()[0] == 0x54);
    assert(crate::formats::vtm_read::playorder_key()[0] == 0x50);
}

/// The `NoteTable` line sets the tone table written, for tables up to 4.
proof fn lemma_notetable_line(b: Seq<u8>, o: int, ton: u8, h: VtmHead)
    requires
        ton <= 4,
        placed(b, o, "NoteTable="@ + crate::util::digits(ton as nat, 10) + seq!['\n']),
    ensures
        head(b, o, h) == head(b, o + crate::util::digits(ton as nat, 10).len() + 11, VtmHead { ton: ton, ..h }),
{
    reveal_strlit("NoteTable=");
    reveal_strlit("NoteTable");
    let key = "NoteTable"@;
    let val = crate::util::digits(ton as nat, 10);
    assert("NoteTable="@ + val + seq!['\n'] =~= key + seq!['='] + val + seq!['\n']);
    lemma_dec_line(ton as nat);
    lemma_key_text(b, o, key, val, h);
    lemma_value_at(b, o, key, val);
    lemma_dec_of(ton as nat, 255);
    let k = ascii_caps(ascii(key));
    assert(k =~= crate::formats::vtm_read::notetable_key());
    lemma_other_keys(k);
}

/// The `ChipFreq` line changes no field.
proof fn lemma_chipfreq_line(b: Seq<u8>, o: int, h: VtmHead)
    requires
        placed(b, o, "ChipFreq=1750000\n"@),
    ensures
        head(b, o, h) == head(b, o + 17, h),
{
    reveal_strlit("ChipFreq=1750000\n");
    reveal_strlit("ChipFreq");
    reveal_strlit("1750000");
    let key = "ChipFreq"@;
    let val = "1750000"@;
    assert("ChipFreq=1750000\n"@ =~= key + seq!['='] + val + seq!['\n']);
    assert(line_text(val));
    lemma_key_text(b, o, key, val, h);
    let k = ascii_caps(ascii(key));
    assert(k.len() == 8);
}

/// The `Speed` line sets the delay written.
proof fn lemma_speed_line(b: Seq<u8>, o: int, d: u8, h: VtmHead)
    requires
        placed(b, o, "Speed="@ + crate::util::digits(d as nat, 10) + seq!['\n']),
    ensures
        head(b, o, h) == head(b, o + crate::util::digits(d as nat, 10).len() + 7, VtmHead { delay: d, ..h }),
{
    reveal_strlit("Speed=");
    reveal_strlit("Speed");
    let key = "Speed"@;
    let val = crate::util::digits(d as nat, 10);
    assert("Speed="@ + val + seq!['\n'] =~= key + seq!['='] + val + seq!['\n']);
    lemma_dec_line(d as nat);
    lemma_key_text(b, o, key, val, h);
    lemma_value_at(b, o, key, val);
    lemma_dec_of(d as nat, 255);
    let k = ascii_caps(ascii(key));
    assert(k =~= crate::formats::vtm_read::speed_key());
    lemma_other_keys(k);
    assert(k != crate::formats::vtm_read::notetable_key());
}

/// The `PlayOrder` line sets the positions written: their patterns, and the
/// loop when it marks one of them.
proof fn lemma_playorder_line(b: Seq<u8>, o: int, p: PositionList, h: VtmHead)
    requires
        1 <= p.length <= 256,
        forall|q: int| 0 <= q < p.length ==> #[trigger] p.value[q] <= MAX_PAT_NUM,
        placed(b, o, "PlayOrder="@ + crate::formats::vtm::order_chars(p) + seq!['\n']),
    ensures
        head(b, o, h) == head(
            b,
            o + crate::formats::vtm::order_chars(p).len() + 11,
            order_head(h, p, p.length as nat),
        ),
{
    reveal_strlit("PlayOrder=");
    reveal_strlit("PlayOrder");
    let key = "PlayOrder"@;
    let val = crate::formats::vtm::order_chars(p);
    assert("PlayOrder="@ + val + seq!['\n'] =~= key + seq!['='] + val + seq!['\n']);
    lemma_order_line(p);
    lemma_key_text(b, o, key, val, h);
    lemma_value_at(b, o, key, val);
    let k = ascii_caps(ascii(key));
    assert(k =~= crate::formats::vtm_read::playorder_key());
    assert(k.len() != crate::formats::vtm_read::vortex_key().len());
    assert(k.len() != crate::formats::vtm_read::version_key().len());
    assert(k.len() != crate::formats::vtm_read::title_key().len());
    assert(k.len() != crate::formats::vtm_read::author_key().len());
    assert(k[0] != crate::formats::vtm_read::notetable_key()[0]);
    assert(k.len() != crate::formats::vtm_read::speed_key().len());
    let item = |q: int| crate::util::digits(p.value[q] as nat, 10);
    assert(list_chars(item, p.length as int, p.loop_pos as int, 0).len() == 0);
    lemma_order_entries(b, o + 10, p, h, 0);
    assert(order_head(h, p, 0) == VtmHead { poslen: 0, lp: 0, ..h });
}

/// The modules whose `[Module]` fields a written text carries back exactly:
/// the title and the author each a line of text (see [`line_text`]), a tone
/// table up to 4, 1 to 256 positions naming patterns up to the last pattern
/// slot, the loop on one of them.
pub open spec fn header_reads_back(m: Module) -> bool {
    &&& line_text(m.title@)
    &&& line_text(m.author@)
    &&& m.ton_table <= 4
    &&& 1 <= m.positions.length <= 256
    &&& m.positions.loop_pos < m.positions.length
    &&& forall|q: int| 0 <= q < m.positions.length ==> #[trigger] m.positions.value[q] <= MAX_PAT_NUM
}

/// Line `k` of the written `[Module]` fields, the blank line after them and
/// the first section line.
pub open spec fn header_line(m: Module, k: int) -> Seq<char> {
    if k == 0 {
        "[Module]\n"@
    } else if k == 1 {
        if m.vortex_module_header { "VortexTrackerII=1\n"@ } else { "VortexTrackerII=0\n"@ }
    } else if k == 2 {
        "Version="@ + crate::formats::vtm::version_chars(m.features_level) + seq!['\n']
    } else if k == 3 {
        "Title="@ + m.title@ + seq!['\n']
    } else if k == 4 {
        "Author="@ + m.author@ + seq!['\n']
    } else if k == 5 {
        "NoteTable="@ + crate::util::digits(m.ton_table as nat, 10) + seq!['\n']
    } else if k == 6 {
        "ChipFreq=1750000\n"@
    } else if k == 7 {
        "Speed="@ + crate::util::digits(m.initial_delay as nat, 10) + seq!['\n']
    } else if k == 8 {
        "PlayOrder="@ + crate::formats::vtm::order_chars(m.positions) + seq!['\n']
    } else if k == 9 {
        seq!['\n']
    } else {
        crate::formats::vtm::section("Ornament"@, 1)
    }
}

/// The first `k` of those lines.
pub open spec fn header_lines(m: Module, k: int) -> Seq<char>
    decreases k,
{
    if k <= 0 {
        Seq::empty()
    } else {
        header_lines(m, k - 1) + header_line(m, k - 1)
    }
}

proof fn lemma_header_concat(m: Module)
    ensures
        crate::formats::vtm::header_chars(m) + crate::formats::vtm::section("Ornament"@, 1) == header_lines(m, 11),
{
    reveal_with_fuel(header_lines, 12);
    assert(crate::formats::vtm::header_chars(m) + crate::formats::vtm::section("Ornament"@, 1) =~= header_lines(m, 11));
}

proof fn lemma_lines_placed(b: Seq<u8>, m: Module, k: int, n: int)
    requires
        0 <= k < n,
        placed(b, 0, header_lines(m, n)),
    ensures
        placed(b, header_lines(m, k).len() as int, header_line(m, k)),
    decreases n,
{
    lemma_placed_split(b, 0, header_lines(m, n - 1), header_line(m, n - 1));
    if k < n - 1 {
        lemma_lines_placed(b, m, k, n - 1);
    }
}

/// The fields read from the written `[Module]` lines into `h0`.
pub open spec fn header_head(m: Module, h0: VtmHead) -> VtmHead {
    let o4 = 39 + m.title@.len() as int + 7;
    order_head(
        VtmHead {
            vortex: m.vortex_module_header,
            level: m.features_level,
            title: Some((45usize, (45 + m.title@.len()) as usize)),
            author: Some(((o4 + 7) as usize, (o4 + 7 + m.author@.len()) as usize)),
            ton: m.ton_table,
            delay: m.initial_delay,
            ..h0
        },
        m.positions,
        m.positions.length as nat,
    )
}

#[verifier::rlimit(100)]
#[verifier::spinoff_prover]
proof fn lemma_header_first(b: Seq<u8>, m: Module, h0: VtmHead)
    requires
        header_reads_back(m),
        b.len() <= usize::MAX,
        placed(b, 0, header_lines(m, 11)),
    ensures
        crate::formats::vtm_read::module_start(b, 0) == Some(9int),
        head(b, 9, h0) == head(
            b,
            header_lines(m, 5).len() as int,
            VtmHead {
                vortex: m.vortex_module_header,
                level: m.features_level,
                title: Some((45usize, (45 + m.title@.len()) as usize)),
                author: Some(((39 + m.title@.len() + 14) as usize, (39 + m.title@.len() + 14 + m.author@.len()) as usize)),
                ..h0
            },
        ),
        header_lines(m, 5).len() == 54 + m.title@.len() + m.author@.len(),
        b.subrange(45, 45 + m.title@.len() as int) == ascii(m.title@),
        b.subrange(39 + m.title@.len() as int + 14, 39 + m.title@.len() as int + 14 + m.author@.len() as int) == ascii(m.author@),
{
    reveal_with_fuel(header_lines, 6);
    reveal_strlit("Author=");
    reveal_strlit("[Module]\n");
    reveal_strlit("VortexTrackerII=1\n");
    reveal_strlit("VortexTrackerII=0\n");
    reveal_strlit("Version=");
    reveal_strlit("Title=");
    reveal_strlit("3.5");
    reveal_strlit("3.6");
    reveal_strlit("3.7");
    lemma_lines_placed(b, m, 0, 11);
    lemma_lines_placed(b, m, 1, 11);
    lemma_lines_placed(b, m, 2, 11);
    lemma_lines_placed(b, m, 3, 11);
    lemma_lines_placed(b, m, 4, 11);
    lemma_module_line(b);
    let h1 = VtmHead { vortex: m.vortex_module_header, ..h0 };
    lemma_vortex_line(b, 9, m.vortex_module_header, h0);
    let h2 = VtmHead { level: m.features_level, ..h1 };
    lemma_version_line(b, 27, m.features_level, h1);
    let o4: int = 39 + m.title@.len() as int + 7;
    let h3 = VtmHead { title: Some((45usize, (45 + m.title@.len()) as usize)), ..h2 };
    lemma_title_line(b, 39, m.title@, h2);
    lemma_author_line(b, o4, m.author@, h3);
}

#[verifier::rlimit(50)]
#[verifier::spinoff_prover]
proof fn lemma_header_mid(b: Seq<u8>, m: Module, h4: VtmHead)
    requires
        header_reads_back(m),
        placed(b, 0, header_lines(m, 11)),
    ensures
        head(b, header_lines(m, 5).len() as int, h4) == head(
            b,
            header_lines(m, 8).len() as int,
            VtmHead { ton: m.ton_table, delay: m.initial_delay, ..h4 },
        ),
{
    reveal_with_fuel(header_lines, 3);
    reveal_strlit("NoteTable=");
    reveal_strlit("ChipFreq=1750000\n");
    reveal_strlit("Speed=");
    lemma_lines_placed(b, m, 5, 11);
    lemma_lines_placed(b, m, 6, 11);
    lemma_lines_placed(b, m, 7, 11);
    let h5 = VtmHead { ton: m.ton_table, ..h4 };
    lemma_notetable_line(b, header_lines(m, 5).len() as int, m.ton_table, h4);
    assert(header_lines(m, 6) == header_lines(m, 5) + header_line(m, 5));
    lemma_chipfreq_line(b, header_lines(m, 6).len() as int, h5);
    assert(header_lines(m, 7) == header_lines(m, 6) + header_line(m, 6));
    assert(header_lines(m, 8) == header_lines(m, 7) + header_line(m, 7));
    lemma_speed_line(b, header_lines(m, 7).len() as int, m.initial_delay, h5);
}

#[verifier::rlimit(50)]
#[verifier::spinoff_prover]
proof fn lemma_header_tail(b: Seq<u8>, m: Module, h6: VtmHead)
    requires
        header_reads_back(m),
        placed(b, 0, header_lines(m, 11)),
    ensures
        head(b, header_lines(m, 8).len() as int, h6) matches Ok((h, j, hdr)) && hdr is Some && h == order_head(
            h6,
            m.positions,
            m.positions.length as nat,
        ),
{
    reveal_strlit("PlayOrder=");
    reveal_strlit("Ornament");
    let p = m.positions;
    lemma_lines_placed(b, m, 8, 11);
    lemma_lines_placed(b, m, 9, 11);
    lemma_lines_placed(b, m, 10, 11);
    let o8 = header_lines(m, 8).len() as int;
    let h7 = order_head(h6, p, p.length as nat);
    lemma_playorder_line(b, o8, p, h6);
    assert(header_lines(m, 9) == header_lines(m, 8) + header_line(m, 8));
    assert(header_lines(m, 10) == header_lines(m, 9) + header_line(m, 9));
    let o9 = header_lines(m, 9).len() as int;
    lemma_placed_at(b, o9, seq!['\n'], 0);
    lemma_blank_line(b, o9, h7);
    let o10 = header_lines(m, 10).len() as int;
    let l10 = crate::formats::vtm::section("Ornament"@, 1);
    assert(crate::util::digits(1, 10) == seq![crate::util::digit_char(1)]);
    assert(l10.len() == 12);
    assert forall|k: int| 0 <= k < 12 implies #[trigger] b[o10 + k] == l10[k] as u8 by {
        lemma_placed_at(b, o10, l10, k);
    }
    assert(ascii_line(b, o10, o10 + 11)) by {
        assert forall|q: int| o10 <= q < o10 + 11 implies #[trigger] b[q] < 0x80 && b[q] != 0x0A by {
            assert(b[o10 + (q - o10)] == l10[q - o10] as u8);
        }
    }
    assert(b[o10 + 0] == 0x5B);
    assert(b[o10 + 10] == 0x5D);
    assert(b[o10 + 11] == 0x0A);
    lemma_section_line(b, o10, o10 + 11, h7);
}

/// The written `[Module]` fields and the first section line after them, read
/// from the text `b` that starts with them: the fields are `m`'s, the title
/// and author where their text is.
#[verifier::spinoff_prover]
proof fn lemma_header_read(b: Seq<u8>, m: Module, h0: VtmHead)
    requires
        header_reads_back(m),
        b.len() <= usize::MAX,
        placed(b, 0, crate::formats::vtm::header_chars(m) + crate::formats::vtm::section("Ornament"@, 1)),
    ensures
        crate::formats::vtm_read::module_start(b, 0) == Some(9int),
        head(b, 9, h0) matches Ok((h, j, hdr)) && {
            &&& hdr is Some
            &&& h.vortex == m.vortex_module_header
            &&& h.level == m.features_level
            &&& h.title matches Some((ts, te)) && ts <= te <= b.len() && b.subrange(ts as int, te as int) == ascii(m.title@)
            &&& h.author matches Some((us, ue)) && us <= ue <= b.len() && b.subrange(us as int, ue as int) == ascii(m.author@)
            &&& h.ton == m.ton_table
            &&& h.delay == m.initial_delay
            &&& h.poslen == m.positions.length
            &&& h.lp == m.positions.loop_pos
            &&& forall|q: int| 0 <= q < m.positions.length ==> #[trigger] h.values[q] == m.positions.value[q]
        },
{
    lemma_header_concat(m);
    lemma_header_first(b, m, h0);
    let h4 = VtmHead {
        vortex: m.vortex_module_header,
        level: m.features_level,
        title: Some((45usize, (45 + m.title@.len()) as usize)),
        author: Some(((39 + m.title@.len() + 14) as usize, (39 + m.title@.len() + 14 + m.author@.len()) as usize)),
        ..h0
    };
    lemma_header_mid(b, m, h4);
    let h6 = VtmHead { ton: m.ton_table, delay: m.initial_delay, ..h4 };
    lemma_header_tail(b, m, h6);
    lemma_order_head(h6, m.positions, m.positions.length as nat);
    lemma_lines_len_mono(m, 5, 11);
}

proof fn lemma_lines_len_mono(m: Module, k: int, n: int)
    requires
        0 <= k <= n,
    ensures
        header_lines(m, k).len() <= header_lines(m, n).len(),
    decreases n,
{
    if k < n {
        lemma_lines_len_mono(m, k, n - 1);
    }
}

proof fn lemma_char_ascii(c: char)
    requires
        (c as int) < 128,
    ensures
        '\0' <= c <= '\u{7f}',
        ((c as u8) as char) == c,
{
    assert((c as u32) < 128);
    assert(('\u{7f}' as u32) == 127);
    lemma_char_byte(c);
}

proof fn lemma_line_ascii(t: Seq<char>)
    requires
        line_text(t),
    ensures
        vstd::utf8::is_ascii_chars(t),
{
    assert forall|i: int| 0 <= i < t.len() implies '\0' <= #[trigger] t[i] <= '\u{7f}' by {
        lemma_char_ascii(t[i]);
    }
}

proof fn lemma_header_line_ascii(m: Module, k: int)
    requires
        header_reads_back(m),
        0 <= k < 11,
    ensures
        vstd::utf8::is_ascii_chars(header_line(m, k)),
{
    reveal_strlit("[Module]\n");
    reveal_strlit("VortexTrackerII=1\n");
    reveal_strlit("VortexTrackerII=0\n");
    reveal_strlit("Version=");
    reveal_strlit("Title=");
    reveal_strlit("Author=");
    reveal_strlit("NoteTable=");
    reveal_strlit("ChipFreq=1750000\n");
    reveal_strlit("Speed=");
    reveal_strlit("PlayOrder=");
    reveal_strlit("Ornament");
    reveal_strlit("3.5");
    reveal_strlit("3.6");
    reveal_strlit("3.7");
    let l = header_line(m, k);
    if k == 3 || k == 4 || k == 5 || k == 7 || k == 8 {
        let (key, val) = if k == 3 {
            ("Title="@, m.title@)
        } else if k == 4 {
            ("Author="@, m.author@)
        } else if k == 5 {
            ("NoteTable="@, crate::util::digits(m.ton_table as nat, 10))
        } else if k == 7 {
            ("Speed="@, crate::util::digits(m.initial_delay as nat, 10))
        } else {
            ("PlayOrder="@, crate::formats::vtm::order_chars(m.positions))
        };
        if k == 5 {
            lemma_dec_line(m.ton_table as nat);
        } else if k == 7 {
            lemma_dec_line(m.initial_delay as nat);
        } else if k == 8 {
            lemma_order_line(m.positions);
        }
        lemma_line_ascii(val);
        assert(l == key + val + seq!['\n']);
        assert forall|i: int| 0 <= i < l.len() implies '\0' <= #[trigger] l[i] <= '\u{7f}' by {
            if i >= key.len() && i < key.len() + val.len() {
                assert(l[i] == val[i - key.len()]);
            }
        }
    } else if k == 10 {
        assert(crate::util::digits(1, 10) == seq![crate::util::digit_char(1)]);
        assert(l =~= seq!['['] + "Ornament"@ + seq!['1', ']', '\n']);
    } else if k == 2 {
        assert(l.len() == 12);
    }
}

proof fn lemma_header_lines_ascii(m: Module, n: int)
    requires
        header_reads_back(m),
        0 <= n <= 11,
    ensures
        vstd::utf8::is_ascii_chars(header_lines(m, n)),
    decreases n,
{
    if n > 0 {
        lemma_header_lines_ascii(m, n - 1);
        lemma_header_line_ascii(m, n - 1);
        vstd::utf8::is_ascii_chars_concat(header_lines(m, n), header_lines(m, n - 1), header_line(m, n - 1));
    } else {
        assert(header_lines(m, 0).len() == 0);
    }
}

proof fn lemma_orn_first(m: Module, n: int)
    requires
        n >= 2,
    ensures
        crate::formats::vtm::orn_sections(m, n).len() >= 12,
        crate::formats::vtm::orn_sections(m, n).subrange(0, 12) == crate::formats::vtm::section("Ornament"@, 1),
    decreases n,
{
    reveal_strlit("Ornament");
    let l = crate::formats::vtm::section("Ornament"@, 1);
    assert(crate::util::digits(1, 10) == seq![crate::util::digit_char(1)]);
    assert(l.len() == 12);
    let o = crate::formats::vtm::orn_sections(m, n);
    if n == 2 {
        assert(crate::formats::vtm::orn_sections(m, 1).len() == 0);
        assert(o.subrange(0, 12) =~= l);
    } else {
        lemma_orn_first(m, n - 1);
        let p = crate::formats::vtm::orn_sections(m, n - 1);
        assert(o.subrange(0, 12) =~= p.subrange(0, 12));
    }
}

proof fn lemma_ascii_back(t: Seq<char>)
    requires
        line_text(t),
    ensures
        crate::formats::ascii_bytes(ascii(t)),
        crate::formats::ascii_text(ascii(t)) == t,
{
    assert forall|k: int| 0 <= k < t.len() implies #[trigger] ascii(t)[k] < 0x80 && crate::formats::ascii_text(
        ascii(t),
    )[k] == t[k] by {
        lemma_char_ascii(t[k]);
        lemma_char_byte(t[k]);
    }
    assert(crate::formats::ascii_text(ascii(t)) =~= t);
}

/// A written VTM text (see [`crate::formats::vtm::write`]) reads back with
/// the module's `[Module]` fields: [`crate::formats::vtm_read::parse`] gives
/// a module with the same Vortex header flag, features level, title, author,
/// tone table, initial delay and positions (length, loop and the pattern of
/// each), for every module whose fields the text carries exactly (see
/// [`header_reads_back`]).
#[verifier::spinoff_prover]
pub proof fn lemma_vtm_header_round_trip(m: Module, s: &str, r: Result<Module, FormatError>)
    requires
        header_reads_back(m),
        s@ == crate::formats::vtm::vtm_text(m),
        s.spec_bytes().len() <= usize::MAX,
        crate::formats::vtm_read::parse_outcome(s.spec_bytes(), r),
    ensures
        r matches Ok(m2) && {
            &&& m2.vortex_module_header == m.vortex_module_header
            &&& m2.features_level == m.features_level
            &&& m2.title@ == m.title@
            &&& m2.author@ == m.author@
            &&& m2.ton_table == m.ton_table
            &&& m2.initial_delay == m.initial_delay
            &&& m2.positions.length == m.positions.length
            &&& m2.positions.loop_pos == m.positions.loop_pos
            &&& forall|q: int| 0 <= q < m.positions.length ==> #[trigger] m2.positions.value[q] == m.positions.value[q]
        },
{
    let hc = crate::formats::vtm::header_chars(m);
    let sec1 = crate::formats::vtm::section("Ornament"@, 1);
    let o = crate::formats::vtm::orn_sections(m, 16);
    let p = hc + sec1;
    lemma_orn_first(m, 16);
    let y = o.subrange(12, o.len() as int) + crate::formats::vtm::sam_sections(m, 32)
        + crate::formats::vtm::pat_sections(m, MAX_PAT_NUM + 1);
    assert(o =~= sec1 + o.subrange(12, o.len() as int));
    assert(crate::formats::vtm::vtm_text(m) =~= p + y);
    let b = s.spec_bytes();
    lemma_encode_concat(p, y);
    lemma_header_concat(m);
    lemma_header_lines_ascii(m, 11);
    vstd::utf8::is_ascii_chars_encode_utf8(p);
    assert(b.subrange(0, p.len() as int) =~= ascii(p)) by {
        assert forall|k: int| 0 <= k < p.len() implies #[trigger] b.subrange(0, p.len() as int)[k] == ascii(p)[k] by {
            assert(b[k] == vstd::utf8::encode_utf8(p)[k]);
        }
    }
    let h0 = crate::formats::vtm_read::start_head();
    lemma_header_read(b, m, h0);
    lemma_ascii_back(m.title@);
    lemma_ascii_back(m.author@);
}

proof fn lemma_all_ascii(t: Seq<char>)
    requires
        crate::formats::vtm::all_ascii(t),
    ensures
        vstd::utf8::is_ascii_chars(t),
{
    assert forall|i: int| 0 <= i < t.len() implies '\0' <= #[trigger] t[i] <= '\u{7f}' by {
        lemma_char_ascii(t[i]);
    }
}

proof fn lemma_cat3(a: Seq<char>, b: Seq<char>, c: Seq<char>)
    requires
        vstd::utf8::is_ascii_chars(a),
        vstd::utf8::is_ascii_chars(b),
        vstd::utf8::is_ascii_chars(c),
    ensures
        vstd::utf8::is_ascii_chars(a + b + c),
{
    vstd::utf8::is_ascii_chars_concat(a + b, a, b);
    vstd::utf8::is_ascii_chars_concat(a + b + c, a + b, c);
}

proof fn lemma_digits_ascii10(v: nat)
    ensures
        vstd::utf8::is_ascii_chars(crate::util::digits(v, 10)),
{
    lemma_dec_line(v);
    lemma_line_ascii(crate::util::digits(v, 10));
}

proof fn lemma_section_ascii(name: Seq<char>, n: int)
    requires
        vstd::utf8::is_ascii_chars(name),
        n >= 0,
    ensures
        vstd::utf8::is_ascii_chars(crate::formats::vtm::section(name, n)),
{
    lemma_digits_ascii10(n as nat);
    lemma_cat3(seq!['['], name, crate::util::digits(n as nat, 10));
    vstd::utf8::is_ascii_chars_concat(
        crate::formats::vtm::section(name, n),
        seq!['['] + name + crate::util::digits(n as nat, 10),
        seq![']', '\n'],
    );
}

proof fn lemma_list_ascii(item: spec_fn(int) -> Seq<char>, len: int, lp: int, i: int)
    requires
        forall|q: int| 0 <= q < len ==> vstd::utf8::is_ascii_chars(#[trigger] item(q)),
        0 <= i <= len,
    ensures
        vstd::utf8::is_ascii_chars(list_chars(item, len, lp, i)),
    decreases i,
{
    if i > 0 {
        lemma_list_ascii(item, len, lp, i - 1);
        let mark: Seq<char> = if i - 1 == lp { seq!['L'] } else { Seq::empty() };
        let comma: Seq<char> = if i < len { seq![','] } else { Seq::empty() };
        let a = list_chars(item, len, lp, i - 1);
        assert(item(i - 1) == item(i - 1));
        lemma_cat3(a, mark, item(i - 1));
        vstd::utf8::is_ascii_chars_concat(list_chars(item, len, lp, i), a + mark + item(i - 1), comma);
    }
}

proof fn lemma_orn_ascii(o: crate::types::Ornament)
    requires
        o.length <= 255,
    ensures
        vstd::utf8::is_ascii_chars(crate::formats::vtm::orn_chars(o)),
{
    let item = |k: int| crate::util::dec(o.items[k] as int);
    assert forall|q: int| 0 <= q < o.length implies vstd::utf8::is_ascii_chars(#[trigger] item(q)) by {
        let v = o.items[q] as int;
        if v < 0 {
            lemma_digits_ascii10((-v) as nat);
            vstd::utf8::is_ascii_chars_concat(item(q), seq!['-'], crate::util::digits((-v) as nat, 10));
        } else {
            lemma_digits_ascii10(v as nat);
        }
    }
    lemma_list_ascii(item, o.length as int, o.loop_pos as int, o.length as int);
}

proof fn lemma_sample_ascii(sm: crate::types::Sample, i: int)
    requires
        0 <= i <= sm.length <= 64,
        forall|k: int| 0 <= k < sm.length ==> crate::formats::vtm::tick_writable(#[trigger] sm.items[k]),
    ensures
        vstd::utf8::is_ascii_chars(crate::formats::vtm::sample_lines(sm, i)),
    decreases i,
{
    if i > 0 {
        lemma_sample_ascii(sm, i - 1);
        crate::formats::vtm::lemma_tick_ascii(sm.items[i - 1]);
        lemma_all_ascii(crate::formats::vtm::tick_chars(sm.items[i - 1]));
        let mark: Seq<char> = if i - 1 == sm.loop_pos { seq![' ', 'L'] } else { Seq::empty() };
        lemma_cat3(crate::formats::vtm::sample_lines(sm, i - 1), crate::formats::vtm::tick_chars(sm.items[i - 1]), mark);
        vstd::utf8::is_ascii_chars_concat(
            crate::formats::vtm::sample_lines(sm, i),
            crate::formats::vtm::sample_lines(sm, i - 1) + crate::formats::vtm::tick_chars(sm.items[i - 1]) + mark,
            seq!['\n'],
        );
    }
}

proof fn lemma_pattern_ascii(p: crate::types::Pattern, i: int)
    requires
        0 <= i <= p.length <= 256,
        forall|k: int| 0 <= k < p.length ==> crate::formats::vtm::row_writable(#[trigger] p.items[k]),
    ensures
        vstd::utf8::is_ascii_chars(crate::formats::vtm::pattern_lines(p, i)),
    decreases i,
{
    if i > 0 {
        lemma_pattern_ascii(p, i - 1);
        crate::formats::vtm::lemma_row_ascii(p.items[i - 1]);
        lemma_all_ascii(crate::formats::vtm::row_chars(p.items[i - 1]));
        lemma_cat3(crate::formats::vtm::pattern_lines(p, i - 1), crate::formats::vtm::row_chars(p.items[i - 1]), seq!['\n']);
    }
}

/// The modules whose whole VTM text is ASCII: an ASCII title and author,
/// and every tick of a present sample and every row of a present pattern
/// one a line can carry.
pub open spec fn text_ascii(m: Module) -> bool {
    &&& crate::formats::vtm::writable(m)
    &&& crate::formats::vtm::all_ascii(m.title@)
    &&& crate::formats::vtm::all_ascii(m.author@)
    &&& forall|n: int|
        1 <= n < 32 ==> (#[trigger] m.samples[n] matches Some(sm) ==> forall|k: int|
            0 <= k < sm.length ==> crate::formats::vtm::tick_writable(#[trigger] sm.items[k]))
    &&& forall|n: int|
        0 <= n <= MAX_PAT_NUM ==> (#[trigger] m.patterns@[n] matches Some(p) ==> forall|k: int|
            0 <= k < p.length ==> crate::formats::vtm::row_writable(#[trigger] p.items[k]))
}

proof fn lemma_orn_sections_ascii(m: Module, n: int)
    requires
        text_ascii(m),
        n <= 16,
    ensures
        vstd::utf8::is_ascii_chars(crate::formats::vtm::orn_sections(m, n)),
    decreases n,
{
    if n > 1 {
        reveal_strlit("Ornament");
        reveal_strlit("L0\n");
        lemma_orn_sections_ascii(m, n - 1);
        lemma_section_ascii("Ornament"@, n - 1);
        let body = match m.ornaments[n - 1] {
            Some(o) => crate::formats::vtm::orn_chars(*o) + seq!['\n'],
            None => "L0\n"@,
        };
        match m.ornaments[n - 1] {
            Some(o) => {
                assert(m.ornaments[n - 1] matches Some(o) ==> o.length <= 255);
                lemma_orn_ascii(*o);
                vstd::utf8::is_ascii_chars_concat(body, crate::formats::vtm::orn_chars(*o), seq!['\n']);
            },
            None => {},
        }
        lemma_cat3(crate::formats::vtm::orn_sections(m, n - 1), crate::formats::vtm::section("Ornament"@, n - 1), body);
        vstd::utf8::is_ascii_chars_concat(
            crate::formats::vtm::orn_sections(m, n),
            crate::formats::vtm::orn_sections(m, n - 1) + crate::formats::vtm::section("Ornament"@, n - 1) + body,
            seq!['\n'],
        );
    }
}

proof fn lemma_sam_sections_ascii(m: Module, n: int)
    requires
        text_ascii(m),
        n <= 32,
    ensures
        vstd::utf8::is_ascii_chars(crate::formats::vtm::sam_sections(m, n)),
    decreases n,
{
    if n > 1 {
        reveal_strlit("Sample");
        reveal_strlit("tne +000_ +00_ 0_ L\n");
        lemma_sam_sections_ascii(m, n - 1);
        lemma_section_ascii("Sample"@, n - 1);
        let body = match m.samples[n - 1] {
            Some(sm) => crate::formats::vtm::sample_lines(*sm, sm.length as int),
            None => "tne +000_ +00_ 0_ L\n"@,
        };
        match m.samples[n - 1] {
            Some(sm) => {
                assert(m.samples[n - 1] matches Some(sm) ==> sm.length <= 64);
                lemma_sample_ascii(*sm, sm.length as int);
            },
            None => {},
        }
        lemma_cat3(crate::formats::vtm::sam_sections(m, n - 1), crate::formats::vtm::section("Sample"@, n - 1), body);
        vstd::utf8::is_ascii_chars_concat(
            crate::formats::vtm::sam_sections(m, n),
            crate::formats::vtm::sam_sections(m, n - 1) + crate::formats::vtm::section("Sample"@, n - 1) + body,
            seq!['\n'],
        );
    }
}

proof fn lemma_pat_sections_ascii(m: Module, n: int)
    requires
        text_ascii(m),
        n <= MAX_PAT_NUM + 1,
    ensures
        vstd::utf8::is_ascii_chars(crate::formats::vtm::pat_sections(m, n)),
    decreases n,
{
    if n > 0 {
        reveal_strlit("Pattern");
        lemma_pat_sections_ascii(m, n - 1);
        match m.patterns@[n - 1] {
            Some(p) => {
                assert(m.patterns@[n - 1] matches Some(p) ==> p.length <= 256);
                lemma_section_ascii("Pattern"@, n - 1);
                lemma_pattern_ascii(*p, p.length as int);
                lemma_cat3(crate::formats::vtm::section("Pattern"@, n - 1), crate::formats::vtm::pattern_lines(*p, p.length as int), seq!['\n']);
                vstd::utf8::is_ascii_chars_concat(
                    crate::formats::vtm::pat_sections(m, n),
                    crate::formats::vtm::pat_sections(m, n - 1),
                    crate::formats::vtm::section("Pattern"@, n - 1) + crate::formats::vtm::pattern_lines(*p, p.length as int) + seq!['\n'],
                );
            },
            None => {
                assert(crate::formats::vtm::pat_sections(m, n) =~= crate::formats::vtm::pat_sections(m, n - 1));
            },
        }
    }
}

#[verifier::spinoff_prover]
proof fn lemma_header_chars_ascii(m: Module)
    requires
        text_ascii(m),
    ensures
        vstd::utf8::is_ascii_chars(crate::formats::vtm::header_chars(m)),
{
    reveal_strlit("[Module]\n");
    reveal_strlit("VortexTrackerII=1\n");
    reveal_strlit("VortexTrackerII=0\n");
    reveal_strlit("Version=");
    reveal_strlit("Title=");
    reveal_strlit("Author=");
    reveal_strlit("NoteTable=");
    reveal_strlit("ChipFreq=1750000\n");
    reveal_strlit("Speed=");
    reveal_strlit("PlayOrder=");
    reveal_strlit("3.5");
    reveal_strlit("3.6");
    reveal_strlit("3.7");
    let kind = crate::formats::vtm::head_kind(m);
    let names = crate::formats::vtm::head_names(m);
    let nums = crate::formats::vtm::head_numbers(m);
    let p = m.positions;
    let item = |q: int| crate::util::digits(p.value[q] as nat, 10);
    assert forall|q: int| 0 <= q < p.length implies vstd::utf8::is_ascii_chars(#[trigger] item(q)) by {
        lemma_digits_ascii10(p.value[q] as nat);
    }
    lemma_list_ascii(item, p.length as int, p.loop_pos as int, p.length as int);
    let ord = crate::formats::vtm::order_chars(p);
    assert(ord == list_chars(item, p.length as int, p.loop_pos as int, p.length as int));
    let v1: Seq<char> = if m.vortex_module_header { "VortexTrackerII=1\n"@ } else { "VortexTrackerII=0\n"@ };
    let ver = crate::formats::vtm::version_chars(m.features_level);
    assert(vstd::utf8::is_ascii_chars(ver));
    lemma_cat3("[Module]\n"@, v1, "Version="@);
    lemma_cat3("[Module]\n"@ + v1 + "Version="@, ver, seq!['\n']);
    assert(kind == "[Module]\n"@ + v1 + "Version="@ + ver + seq!['\n']);
    lemma_all_ascii(m.title@);
    lemma_all_ascii(m.author@);
    lemma_cat3("Title="@, m.title@, seq!['\n']);
    lemma_cat3("Author="@, m.author@, seq!['\n']);
    vstd::utf8::is_ascii_chars_concat(names, "Title="@ + m.title@ + seq!['\n'], "Author="@ + m.author@ + seq!['\n']);
    assert(names =~= ("Title="@ + m.title@ + seq!['\n']) + ("Author="@ + m.author@ + seq!['\n']));
    let d1 = crate::util::digits(m.ton_table as nat, 10);
    let d2 = crate::util::digits(m.initial_delay as nat, 10);
    lemma_digits_ascii10(m.ton_table as nat);
    lemma_digits_ascii10(m.initial_delay as nat);
    lemma_cat3("NoteTable="@, d1, seq!['\n']);
    lemma_cat3("NoteTable="@ + d1 + seq!['\n'], "ChipFreq=1750000\n"@, "Speed="@);
    lemma_cat3("NoteTable="@ + d1 + seq!['\n'] + "ChipFreq=1750000\n"@ + "Speed="@, d2, seq!['\n']);
    lemma_cat3(kind, names, nums);
    lemma_cat3(kind + names + nums, "PlayOrder="@, ord);
    vstd::utf8::is_ascii_chars_concat(
        crate::formats::vtm::header_chars(m),
        kind + names + nums + "PlayOrder="@ + ord,
        seq!['\n', '\n'],
    );
}

/// The whole VTM text of such a module is ASCII.
proof fn lemma_vtm_text_ascii(m: Module)
    requires
        text_ascii(m),
    ensures
        vstd::utf8::is_ascii_chars(crate::formats::vtm::vtm_text(m)),
{
    lemma_header_chars_ascii(m);
    lemma_orn_sections_ascii(m, 16);
    lemma_sam_sections_ascii(m, 32);
    lemma_pat_sections_ascii(m, MAX_PAT_NUM + 1);
    lemma_cat3(crate::formats::vtm::header_chars(m), crate::formats::vtm::orn_sections(m, 16), crate::formats::vtm::sam_sections(m, 32));
    vstd::utf8::is_ascii_chars_concat(
        crate::formats::vtm::vtm_text(m),
        crate::formats::vtm::header_chars(m) + crate::formats::vtm::orn_sections(m, 16) + crate::formats::vtm::sam_sections(m, 32),
        crate::formats::vtm::pat_sections(m, MAX_PAT_NUM + 1),
    );
}

proof fn lemma_ascii_cuts(c: Seq<u8>)
    requires
        forall|q: int| 0 <= q < c.len() ==> #[trigger] c[q] < 0x80,
    ensures
        crate::formats::vtm::row_cuts_ok(c),
{
    assert forall|x: int| 0 <= x <= c.len() implies #[trigger] crate::formats::vtm::cb(c, x) by {
        if 0 < x < c.len() {
            assert(c[x] < 0x80);
        }
    }
}

proof fn lemma_pattern_cuts_ascii(b: Seq<u8>, k: int, se: int, len: int)
    requires
        forall|q: int| 0 <= q < b.len() ==> #[trigger] b[q] < 0x80,
    ensures
        crate::formats::vtm_read::pattern_cuts(b, k, se, len),
    decreases b.len() + 1 - k,
{
    let (s, e) = line_at(b, k);
    if !(k < 0 || k >= se || k >= b.len() || s >= e || b[s] == 0x5B || len >= 256) {
        crate::formats::vtm_read::lemma_line_end_bounds(b, k);
        crate::formats::vtm_read::lemma_trim_bounds(b, k, line_end(b, k));
        let c = b.subrange(s, e);
        assert forall|q: int| 0 <= q < c.len() implies #[trigger] c[q] < 0x80 by {
            assert(c[q] == b[s + q]);
        }
        lemma_ascii_cuts(c);
        lemma_pattern_cuts_ascii(b, next_line(b, k), se, len + 1);
    }
}

proof fn lemma_sections_cut_ascii(b: Seq<u8>, i: int, hdr: Option<(int, int)>)
    requires
        forall|q: int| 0 <= q < b.len() ==> #[trigger] b[q] < 0x80,
    ensures
        crate::formats::vtm_read::sections_cut(b, i, hdr),
    decreases b.len() + 1 - i,
{
    match hdr {
        None => {},
        Some((s, e)) => {
            let se = crate::formats::vtm_read::section_end(b, i);
            lemma_pattern_cuts_ascii(b, i, se, 0);
            if !(i < 0 || se < i || se >= b.len()) {
                crate::formats::vtm_read::lemma_line_end_bounds(b, se);
                lemma_sections_cut_ascii(b, next_line(b, se), Some(line_at(b, se)));
            }
        },
    }
}

/// Every ASCII text is one [`crate::formats::vtm_read::parse`] reads.
pub proof fn lemma_ascii_parse_defined(b: Seq<u8>)
    requires
        forall|q: int| 0 <= q < b.len() ==> #[trigger] b[q] < 0x80,
    ensures
        crate::formats::vtm_read::parse_defined(b),
{
    match crate::formats::vtm_read::module_start(b, 0) {
        None => {},
        Some(i) => match head(b, i, crate::formats::vtm_read::start_head()) {
            Err(_) => {},
            Ok((h, j, hdr)) => {
                lemma_sections_cut_ascii(b, j, hdr);
            },
        },
    }
}

/// [`crate::formats::vtm_read::parse`] reads every VTM text
/// [`crate::formats::vtm::write`] writes for a module whose text is ASCII
/// (see [`text_ascii`]).
pub proof fn lemma_written_vtm_parses(m: Module, s: &str)
    requires
        text_ascii(m),
        s@ == crate::formats::vtm::vtm_text(m),
    ensures
        crate::formats::vtm_read::parse_defined(s.spec_bytes()),
{
    lemma_vtm_text_ascii(m);
    vstd::utf8::is_ascii_chars_encode_utf8(s@);
    vstd::utf8::is_ascii_chars_nat_bound(s@);
    let b = s.spec_bytes();
    assert forall|q: int| 0 <= q < b.len() implies #[trigger] b[q] < 0x80 by {
        assert(b[q] == s@[q] as u8);
        assert((s@[q] as nat) < 128);
        lemma_char_byte(s@[q]);
    }
    lemma_ascii_parse_defined(b);
}

/// The line of a written `[Pattern n]` section header, at `o`: it ends at
/// the newline after `]`, its text is the whole line, and its capitals name
/// pattern `n` (and no ornament or sample).
proof fn lemma_pattern_header(b: Seq<u8>, o: int, n: int)
    requires
        0 <= n <= MAX_PAT_NUM,
        placed(b, o, crate::formats::vtm::section("Pattern"@, n)),
    ensures
        ({
            let l = crate::formats::vtm::section("Pattern"@, n).len() as int;
            let c = crate::formats::vtm_read::caps(b, o, o + l - 1);
            &&& line_at(b, o) == (o, o + l - 1)
            &&& next_line(b, o) == o + l
            &&& b[o] == 0x5B
            &&& o < o + l - 1
            &&& !crate::formats::vtm_read::opens(c, crate::formats::vtm_read::ornament_word())
            &&& !crate::formats::vtm_read::opens(c, crate::formats::vtm_read::sample_word())
            &&& crate::formats::vtm_read::opens(c, crate::formats::vtm_read::pattern_word())
            &&& crate::formats::vtm_read::section_number(c, crate::formats::vtm_read::pattern_word()) == Some(n)
        }),
{
    reveal_strlit("Pattern");
    let x = crate::formats::vtm::section("Pattern"@, n);
    let d = crate::util::digits(n as nat, 10);
    lemma_dec_chars(n as nat);
    lemma_dec_digits(n as nat);
    let dl = d.len() as int;
    assert(dl <= 2) by {
        if n >= 10 {
            assert(crate::util::digits(n as nat, 10) == crate::util::digits((n / 10) as nat, 10).push(
                crate::util::digit_char((n % 10) as nat),
            ));
            assert(crate::util::digits((n / 10) as nat, 10).len() == 1);
        }
    }
    let l = x.len() as int;
    assert(l == 10 + dl);
    assert forall|k: int| 0 <= k < l implies #[trigger] b[o + k] == x[k] as u8 by {
        lemma_placed_at(b, o, x, k);
    }
    assert forall|k: int| 0 <= k < dl implies #[trigger] x[8 + k] == d[k] by {}
    assert forall|k: int| 0 <= k < dl implies dec_char(#[trigger] d[k]) by {}
    assert(ascii_line(b, o, o + l - 1)) by {
        assert forall|q: int| o <= q < o + l - 1 implies #[trigger] b[q] < 0x80 && b[q] != 0x0A by {
            assert(b[o + (q - o)] == x[q - o] as u8);
            if 8 <= q - o < 8 + dl {
                assert(x[8 + (q - o - 8)] == d[q - o - 8]);
                assert(dec_char(d[q - o - 8]));
            }
        }
    }
    assert(b[o + (l - 1)] == x[l - 1] as u8);
    assert(b[o + (l - 2)] == x[l - 2] as u8);
    lemma_line_end_at(b, o, o + l - 1);
    lemma_trimmed_plain(b, o, o + l - 1);
    let w = b.subrange(o, o + l - 1);
    assert(crate::formats::ascii_bytes(w)) by {
        assert forall|q: int| 0 <= q < w.len() implies #[trigger] w[q] < 0x80 by {
            assert(w[q] == b[o + q]);
        }
    }
    let c = crate::formats::vtm_read::caps(b, o, o + l - 1);
    assert(c == ascii_caps(w));
    let pw = crate::formats::vtm_read::pattern_word();
    assert forall|k: int| 0 <= k < l - 1 implies #[trigger] c[k] == crate::formats::vtm::upper(b[o + k]) by {
        assert(w[k] == b[o + k]);
    }
    assert(c.subrange(1, 8) =~= pw) by {
        assert forall|k: int| 0 <= k < 7 implies #[trigger] c.subrange(1, 8)[k] == pw[k] by {
            assert(c[1 + k] == crate::formats::vtm::upper(b[o + 1 + k]));
        }
    }
    assert(c[1] != crate::formats::vtm_read::ornament_word()[0]);
    assert(c[1] != crate::formats::vtm_read::sample_word()[0]);
    assert(c.subrange(1, 9)[0] == c[1]);
    assert(c.subrange(1, 7)[0] == c[1]);
    // The number: after `[` and the word, before `]`.
    let cl = c.len() as int;
    assert(crate::formats::vtm_read::skip_bytes(c, 1, 0x5B) == 1) by {
        assert(c[1] != 0x5B);
    }
    assert(crate::formats::vtm_read::skip_bytes(c, 0, 0x5B) == 1);
    assert(crate::formats::vtm_read::skip_words(c, 8, pw) == 8) by {
        assert(8 + 7 > cl);
    }
    assert(crate::formats::vtm_read::skip_words(c, 1, pw) == 8);
    assert(c[cl - 1] == 0x5D);
    assert(c[cl - 2] != 0x5D) by {
        assert(c[cl - 2] == crate::formats::vtm::upper(b[o + (cl - 2)]));
        assert(x[8 + (dl - 1)] == d[dl - 1]);
    }
    assert(crate::formats::vtm_read::back_bytes(c, 8, cl - 1, 0x5D) == cl - 1);
    assert(crate::formats::vtm_read::back_bytes(c, 8, cl, 0x5D) == cl - 1);
    assert forall|q: int| 8 <= q < cl - 1 implies #[trigger] c[q] < 0x80 && c[q] != 0x0A by {
        assert(c[q] == crate::formats::vtm::upper(b[o + q]));
        assert(x[8 + (q - 8)] == d[q - 8]);
    }
    assert(c[8] == crate::formats::vtm::upper(b[o + 8]));
    assert(x[8int] == d[0]);
    lemma_trimmed_plain(c, 8, cl - 1);
    assert(c.subrange(8, cl - 1) =~= ascii(d)) by {
        assert forall|k: int| 0 <= k < dl implies #[trigger] c.subrange(8, cl - 1)[k] == ascii(d)[k] by {
            assert(c[8 + k] == crate::formats::vtm::upper(b[o + 8 + k]));
            assert(x[8 + k] == d[k]);
        }
    }
    lemma_dec_of(n as nat, 255);
}

/// A pattern's first `n` written lines start with its first `i`.
proof fn lemma_plines_prefix(p: crate::types::Pattern, i: int, n: int)
    requires
        0 <= i <= n,
    ensures
        crate::formats::vtm::pattern_lines(p, n) == crate::formats::vtm::pattern_lines(p, i)
            + crate::formats::vtm::pattern_lines(p, n).subrange(
            crate::formats::vtm::pattern_lines(p, i).len() as int,
            crate::formats::vtm::pattern_lines(p, n).len() as int,
        ),
    decreases n - i,
{
    let pn = crate::formats::vtm::pattern_lines(p, n);
    let pi = crate::formats::vtm::pattern_lines(p, i);
    if i < n {
        lemma_plines_prefix(p, i, n - 1);
        let pm = crate::formats::vtm::pattern_lines(p, n - 1);
        assert(pn == pm + crate::formats::vtm::row_chars(p.items[n - 1]) + seq!['\n']);
        assert(pn =~= pi + pn.subrange(pi.len() as int, pn.len() as int)) by {
            assert(pm =~= pi + pm.subrange(pi.len() as int, pm.len() as int));
            assert forall|q: int| 0 <= q < pi.len() implies #[trigger] pn[q] == pi[q] by {
                assert(pn[q] == pm[q]);
                assert(pm[q] == (pi + pm.subrange(pi.len() as int, pm.len() as int))[q]);
            }
        }
    } else {
        assert(pn =~= pi + pn.subrange(pi.len() as int, pn.len() as int));
    }
}

/// The rows a line can carry, for the first `len` rows of `p`.
pub open spec fn rows_writable(p: crate::types::Pattern) -> bool {
    forall|q: int| 0 <= q < p.length ==> crate::formats::vtm::row_writable(#[trigger] p.items[q])
}

/// Row line `k` of a pattern written at `o`.
proof fn lemma_row_line_at(b: Seq<u8>, o: int, p: crate::types::Pattern, k: int)
    requires
        0 <= k < p.length <= 256,
        rows_writable(p),
        placed(b, o, crate::formats::vtm::pattern_lines(p, p.length as int)),
    ensures
        ({
            let pos = o + crate::formats::vtm::pattern_lines(p, k).len();
            let rl = crate::formats::vtm::row_chars(p.items[k]).len() as int;
            &&& line_at(b, pos) == (pos, pos + rl)
            &&& next_line(b, pos) == o + crate::formats::vtm::pattern_lines(p, k + 1).len()
            &&& pos < pos + rl < b.len()
            &&& b[pos] != 0x5B
            &&& b.subrange(pos, pos + rl) == ascii(crate::formats::vtm::row_chars(p.items[k]))
        }),
{
    let r = p.items[k];
    let rc = crate::formats::vtm::row_chars(r);
    let pk = crate::formats::vtm::pattern_lines(p, k);
    let pk1 = crate::formats::vtm::pattern_lines(p, k + 1);
    let pn = crate::formats::vtm::pattern_lines(p, p.length as int);
    crate::formats::vtm::lemma_row_printable(r);
    lemma_plines_prefix(p, k + 1, p.length as int);
    lemma_placed_split(b, o, pk1, pn.subrange(pk1.len() as int, pn.len() as int));
    assert(pk1 == pk + rc + seq!['\n']);
    lemma_placed_split(b, o, pk + rc, seq!['\n']);
    lemma_placed_split(b, o, pk, rc);
    let pos = o + pk.len();
    let rl = rc.len() as int;
    lemma_placed_at(b, pos + rl, seq!['\n'], 0);
    assert forall|q: int| 0 <= q < rl implies #[trigger] b[pos + q] == rc[q] as u8 by {
        lemma_placed_at(b, pos, rc, q);
    }
    assert(ascii_line(b, pos, pos + rl)) by {
        assert forall|q: int| pos <= q < pos + rl implies #[trigger] b[q] < 0x80 && b[q] != 0x0A by {
            assert(b[pos + (q - pos)] == rc[q - pos] as u8);
            assert(0x20 <= (rc[q - pos] as int) < 0x7F);
            lemma_char_byte(rc[q - pos]);
        }
    }
    assert(b[pos + 0] == rc[0] as u8);
    lemma_char_byte(rc[0]);
    assert(b[pos + (rl - 1)] == rc[rl - 1] as u8);
    lemma_char_byte(rc[rl - 1]);
    assert(('[' as int) == 0x5B);
    lemma_line_end_at(b, pos, pos + rl);
    lemma_trimmed_plain(b, pos, pos + rl);
}

/// One row line read by the reader's row loop: the row goes into slot `k`
/// and the loop goes on at the next line.
#[verifier::spinoff_prover]
proof fn lemma_row_step(
    b: Seq<u8>,
    pos: int,
    e: int,
    nx: int,
    se: int,
    k: int,
    items: Seq<crate::types::PatternRow>,
    r: crate::types::PatternRow,
)
    requires
        line_at(b, pos) == (pos, e),
        next_line(b, pos) == nx,
        0 <= pos < e < b.len(),
        pos < se,
        0 <= k < 256,
        b[pos] != 0x5B,
        crate::formats::vtm::row_of(b.subrange(pos, e)) == Some(r),
    ensures
        crate::formats::vtm_read::pattern_lines(b, pos, se, k, items) == crate::formats::vtm_read::pattern_lines(
            b,
            nx,
            se,
            k + 1,
            items.update(k, r),
        ),
{
}

/// Row line `k` of a pattern written at `o` is read as row `k`.
#[verifier::spinoff_prover]
proof fn lemma_rows_advance(
    b: Seq<u8>,
    o: int,
    p: crate::types::Pattern,
    k: int,
    se: int,
    items: Seq<crate::types::PatternRow>,
)
    requires
        1 <= p.length <= 256,
        rows_writable(p),
        placed(b, o, crate::formats::vtm::pattern_lines(p, p.length as int)),
        o + crate::formats::vtm::pattern_lines(p, p.length as int).len() <= se,
        0 <= k < p.length,
    ensures
        crate::formats::vtm_read::pattern_lines(b, o + crate::formats::vtm::pattern_lines(p, k).len(), se, k, items)
            == crate::formats::vtm_read::pattern_lines(
            b,
            o + crate::formats::vtm::pattern_lines(p, k + 1).len(),
            se,
            k + 1,
            items.update(k, p.items[k]),
        ),
{
    let pos = o + crate::formats::vtm::pattern_lines(p, k).len();
    lemma_row_line_at(b, o, p, k);
    lemma_plines_prefix(p, k + 1, p.length as int);
    let r = p.items[k];
    crate::formats::vtm::lemma_row_line_reads_back(r);
    let rl = crate::formats::vtm::row_chars(r).len() as int;
    lemma_row_step(b, pos, pos + rl, o + crate::formats::vtm::pattern_lines(p, k + 1).len(), se, k, items, r);
}

/// The reader's row loop stops at a blank line, with the rows it read.
proof fn lemma_rows_stop(b: Seq<u8>, pos: int, se: int, len: int, items: Seq<crate::types::PatternRow>)
    requires
        line_at(b, pos) == (pos, pos),
        len >= 1,
    ensures
        crate::formats::vtm_read::pattern_lines(b, pos, se, len, items) == Some((len, items)),
{
}

/// The lines of a pattern written at `o` (ending at a blank line), read by
/// the reader's row loop from row `k` on: it takes every row and stops at the
/// blank line.
#[verifier::spinoff_prover]
#[verifier::rlimit(100)]
proof fn lemma_pattern_rows(
    b: Seq<u8>,
    o: int,
    p: crate::types::Pattern,
    k: int,
    se: int,
    items: Seq<crate::types::PatternRow>,
)
    requires
        1 <= p.length <= 256,
        rows_writable(p),
        placed(b, o, crate::formats::vtm::pattern_lines(p, p.length as int) + seq!['\n']),
        o + crate::formats::vtm::pattern_lines(p, p.length as int).len() <= se,
        0 <= k <= p.length,
        items.len() == 256,
        forall|q: int| 0 <= q < k ==> #[trigger] items[q] == p.items[q],
    ensures
        crate::formats::vtm_read::pattern_lines(
            b,
            o + crate::formats::vtm::pattern_lines(p, k).len(),
            se,
            k,
            items,
        ) matches Some((l2, its)) && l2 == p.length && its.len() == 256 && forall|q: int|
            0 <= q < p.length ==> #[trigger] its[q] == p.items[q],
    decreases p.length - k,
{
    let pn = crate::formats::vtm::pattern_lines(p, p.length as int);
    lemma_placed_split(b, o, pn, seq!['\n']);
    let pos = o + crate::formats::vtm::pattern_lines(p, k).len();
    if k < p.length {
        lemma_rows_advance(b, o, p, k, se, items);
        lemma_pattern_rows(b, o, p, k + 1, se, items.update(k, p.items[k]));
    } else {
        lemma_placed_at(b, pos, seq!['\n'], 0);
        lemma_line_end_at(b, pos, pos);
        lemma_trimmed_plain(b, pos, pos);
        lemma_rows_stop(b, pos, se, k, items);
    }
}

/// Where a written pattern's section ends, seen from row `k`: at the same
/// place, after its blank line.
proof fn lemma_rows_section_end(b: Seq<u8>, o: int, p: crate::types::Pattern, k: int)
    requires
        1 <= p.length <= 256,
        rows_writable(p),
        placed(b, o, crate::formats::vtm::pattern_lines(p, p.length as int) + seq!['\n']),
        0 <= k <= p.length,
    ensures
        crate::formats::vtm_read::section_end(b, o + crate::formats::vtm::pattern_lines(p, k).len())
            > o + crate::formats::vtm::pattern_lines(p, p.length as int).len(),
    decreases p.length - k,
{
    let pn = crate::formats::vtm::pattern_lines(p, p.length as int);
    lemma_placed_split(b, o, pn, seq!['\n']);
    let pos = o + crate::formats::vtm::pattern_lines(p, k).len();
    if k < p.length {
        lemma_row_line_at(b, o, p, k);
        lemma_rows_section_end(b, o, p, k + 1);
    } else {
        lemma_placed_at(b, pos, seq!['\n'], 0);
        lemma_line_end_at(b, pos, pos);
        lemma_trimmed_plain(b, pos, pos);
        let q = next_line(b, pos);
        crate::formats::vtm_read::lemma_line_end_bounds(b, pos);
        lemma_section_end_from(b, q);
    }
}

proof fn lemma_section_end_from(b: Seq<u8>, i: int)
    requires
        0 <= i,
    ensures
        crate::formats::vtm_read::section_end(b, i) >= i || crate::formats::vtm_read::section_end(b, i) == b.len(),
        crate::formats::vtm_read::section_end(b, i) >= 0,
    decreases b.len() + 1 - i,
{
    if i < b.len() {
        let (s, e) = line_at(b, i);
        crate::formats::vtm_read::lemma_line_end_bounds(b, i);
        if !(s < e && b[s] == 0x5B) {
            lemma_section_end_from(b, next_line(b, i));
        }
    }
}

/// A written `[Pattern n]` section (its header line at `o`, its row lines,
/// a blank line) is read as pattern `n` with the written rows: the reader
/// puts, in slot `n` of the patterns read so far, `p`'s length and every
/// one of its rows, for every pattern a text can carry (1 to 256 rows a
/// line each can carry).
#[verifier::spinoff_prover]
#[verifier::rlimit(50)]
pub proof fn lemma_pattern_section_reads_back(
    b: Seq<u8>,
    o: int,
    n: int,
    p: crate::types::Pattern,
    st: crate::formats::vtm_read::Secs,
)
    requires
        0 <= n <= MAX_PAT_NUM,
        n < st.2.len(),
        1 <= p.length <= 256,
        rows_writable(p),
        placed(
            b,
            o,
            crate::formats::vtm::section("Pattern"@, n) + crate::formats::vtm::pattern_lines(p, p.length as int)
                + seq!['\n'],
        ),
    ensures
        ({
            let l = crate::formats::vtm::section("Pattern"@, n).len() as int;
            let i = o + l;
            let se = crate::formats::vtm_read::section_end(b, i);
            let st2 = crate::formats::vtm_read::apply_section(b, o, o + l - 1, i, se, st);
            &&& line_at(b, o) == (o, o + l - 1)
            &&& next_line(b, o) == i
            &&& st2.0 == st.0
            &&& st2.1 == st.1
            &&& st2.2 == st.2.update(n, st2.2[n])
            &&& st2.2[n] matches Some((len, rows)) && len == p.length && forall|q: int|
                0 <= q < p.length ==> #[trigger] rows[q] == p.items[q]
        }),
{
    let h = crate::formats::vtm::section("Pattern"@, n);
    let pl = crate::formats::vtm::pattern_lines(p, p.length as int);
    let l = h.len() as int;
    assert(h + pl + seq!['\n'] =~= h + (pl + seq!['\n']));
    lemma_placed_split(b, o, h, pl + seq!['\n']);
    lemma_pattern_header(b, o, n);
    let i = o + l;
    assert(crate::formats::vtm::pattern_lines(p, 0).len() == 0);
    lemma_rows_section_end(b, i, p, 0);
    let se = crate::formats::vtm_read::section_end(b, i);
    let empty = Seq::new(256, |q: int| crate::types::empty_row());
    lemma_pattern_rows(b, i, p, 0, se, empty);
    assert(i + crate::formats::vtm::pattern_lines(p, 0).len() == i);
    let pr = crate::formats::vtm_read::pattern_lines(b, i, se, 0, empty);
    assert(pr is Some);
    let c = crate::formats::vtm_read::caps(b, o, o + l - 1);
    assert(crate::formats::vtm_read::section_number(c, crate::formats::vtm_read::pattern_word()) == Some(n));
    let st2 = crate::formats::vtm_read::apply_section(b, o, o + l - 1, i, se, st);
    assert(st2 == (st.0, st.1, st.2.update(n, pr)));
    assert(st2.2 =~= st.2.update(n, st2.2[n]));
}

} // verus!
