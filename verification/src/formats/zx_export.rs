//! ZX Spectrum export containers: Hobeta `$C`/`$M` blocks, SCL disc images
//! and TAP tape images, plus relocation of the ZX player binary.
//!
//! The player binary starts with its code size and variables size (LE u16
//! each), then the code (compiled for address 0), then three relocation
//! tables: word patches (`code[off..off+2] += load_addr`), low-byte patches
//! (`code[off] += lo(load_addr)`) and high-byte patches
//! (`code[off] = (base + load_addr) >> 8`), each ended by an offset at or past
//! the end of the code.
use super::FormatError;
use vstd::prelude::*;
use vstd::utf8::encode_utf8;

verus! {

/// Output format for the ZX Spectrum export.
#[derive(Debug, Clone, Copy, PartialEq, Eq, Structural)]
pub enum ZxFormat {
    /// Hobeta code block (`.$C`) — includes the ZX player.
    HobetaCode,
    /// Hobeta memory block (`.$M`) — module data only, no player.
    HobetaMem,
    /// ZXAY/EMUL AY file (`.ay`) — emulator-compatible with header.
    AyFile,
    /// Sinclair disc image (`.scl`) — two-file container.
    Scl,
    /// ZX Spectrum tape image (`.tap`) — two-block pair.
    Tap,
}

impl Default for ZxFormat {
    fn default() -> (r: Self)
        ensures
            r == ZxFormat::HobetaCode,
    {
        ZxFormat::HobetaCode
    }
}

impl ZxFormat {
    /// Default file extension for this format (without leading dot).
    pub fn extension(self) -> (r: &'static str)
        ensures
            r@ == match self {
                ZxFormat::HobetaCode => "$c"@,
                ZxFormat::HobetaMem => "$m"@,
                ZxFormat::AyFile => "ay"@,
                ZxFormat::Scl => "scl"@,
                ZxFormat::Tap => "tap"@,
            },
    {
        match self {
            ZxFormat::HobetaCode => "$c",
            ZxFormat::HobetaMem => "$m",
            ZxFormat::AyFile => "ay",
            ZxFormat::Scl => "scl",
            ZxFormat::Tap => "tap",
        }
    }

    /// Human-readable label used in the save dialog.
    pub fn label(self) -> (r: &'static str)
        ensures
            r@ == match self {
                ZxFormat::HobetaCode => "Hobeta code block ($C)"@,
                ZxFormat::HobetaMem => "Hobeta memory block ($M)"@,
                ZxFormat::AyFile => "AY emulator file (*.ay)"@,
                ZxFormat::Scl => "Sinclair disc image (*.scl)"@,
                ZxFormat::Tap => "ZX Spectrum tape (*.tap)"@,
            },
    {
        match self {
            ZxFormat::HobetaCode => "Hobeta code block ($C)",
            ZxFormat::HobetaMem => "Hobeta memory block ($M)",
            ZxFormat::AyFile => "AY emulator file (*.ay)",
            ZxFormat::Scl => "Sinclair disc image (*.scl)",
            ZxFormat::Tap => "ZX Spectrum tape (*.tap)",
        }
    }
}

/// Options that control the ZX Spectrum export.
#[derive(Debug, Clone)]
pub struct ZxExportOptions {
    /// ZX Spectrum RAM address where the block is loaded (default: `0xC000`).
    pub load_addr: u16,
    /// Output format.
    pub format: ZxFormat,
    /// Whether the module should loop (sets bit 0 of the player's SETUP byte).
    pub looping: bool,
    /// Short name written into Hobeta / SCL / TAP headers (≤8 chars).
    pub name: String,
    /// Module title (used in `.ay` files).
    pub title: String,
    /// Module author (used in `.ay` files).
    pub author: String,
}

impl Default for ZxExportOptions {
    fn default() -> (r: Self)
        ensures
            r.load_addr == 0xC000,
            r.format == ZxFormat::HobetaCode,
            !r.looping,
            r.name@ == "module"@,
            r.title@.len() == 0,
            r.author@.len() == 0,
    {
        ZxExportOptions {
            load_addr: 0xC000,
            format: ZxFormat::HobetaCode,
            looping: false,
            name: String::from_str("module"),
            title: String::new(),
            author: String::new(),
        }
    }
}

// ─── Byte-level model ────────────────────────────────────────────────────────

/// Sum of the bytes of `s`.
pub open spec fn byte_sum(s: Seq<u8>) -> nat
    decreases s.len(),
{
    if s.len() == 0 {
        0
    } else {
        byte_sum(s.drop_last()) + s.last() as nat
    }
}

/// XOR of `flag` and all bytes of `s`.
pub open spec fn xor_all(flag: u8, s: Seq<u8>) -> u8
    decreases s.len(),
{
    if s.len() == 0 {
        flag
    } else {
        xor_all(flag, s.drop_last()) ^ s.last()
    }
}

/// `k` zero bytes.
pub open spec fn zeros(k: int) -> Seq<u8> {
    Seq::new(if k > 0 {
        k as nat
    } else {
        0
    }, |i: int| 0u8)
}

/// A name field of `w` bytes: the first bytes of `name`, padded with spaces.
pub open spec fn name_field(name: Seq<u8>, w: int) -> Seq<u8> {
    let n = if name.len() < w {
        name.len() as int
    } else {
        w
    };
    name.take(n) + Seq::new((w - n) as nat, |i: int| 0x20u8)
}

/// Little-endian bytes of the low 16 bits of `v`.
pub open spec fn le16(v: int) -> Seq<u8> {
    seq![(v % 256) as u8, ((v / 256) % 256) as u8]
}

/// `n` rounded up to a whole number of 256-byte sectors.
pub open spec fn sector_round(n: int) -> int {
    (n + 255) / 256 * 256
}

/// The first 15 bytes of a Hobeta header: name, type, start, length and
/// sector-rounded length.
pub open spec fn hobeta_fields(name: Seq<u8>, typ: u8, start: u16, len: int) -> Seq<u8> {
    name_field(name, 8) + seq![typ] + le16(start as int) + le16(len) + le16(sector_round(len))
}

/// Hobeta header checksum: `sum(bytes 0..15) * 257 + 105`, 16 bits.
pub open spec fn hobeta_sum(fields: Seq<u8>) -> int {
    ((byte_sum(fields) * 257 + 105) % 65536) as int
}

/// A complete 17-byte Hobeta header.
pub open spec fn hobeta_header(name: Seq<u8>, typ: u8, start: u16, len: int) -> Seq<u8> {
    hobeta_fields(name, typ, start, len) + le16(hobeta_sum(hobeta_fields(name, typ, start, len)))
}

/// The bytes of a string (UTF-8).
pub open spec fn text_bytes(s: String) -> Seq<u8> {
    encode_utf8(s@)
}

/// `s` resized to `n` bytes: cut, or padded with zeros.
pub open spec fn resized(s: Seq<u8>, n: int) -> Seq<u8> {
    if s.len() >= n {
        s.take(n)
    } else {
        s + zeros(n - s.len())
    }
}

proof fn lemma_byte_sum_step(s: Seq<u8>, k: int)
    requires
        0 <= k < s.len(),
    ensures
        byte_sum(s.take(k + 1)) == byte_sum(s.take(k)) + s[k],
{
    assert(s.take(k + 1).drop_last() =~= s.take(k));
}

proof fn lemma_byte_sum_bound(s: Seq<u8>)
    ensures
        byte_sum(s) <= 255 * s.len(),
    decreases s.len(),
{
    if s.len() > 0 {
        lemma_byte_sum_bound(s.drop_last());
    }
}

// ─── Small helpers ───────────────────────────────────────────────────────────

pub(crate) fn bytes_of(s: &String) -> (r: &[u8])
    ensures
        r@ == text_bytes(*s),
{
    s.as_str().as_bytes()
}

pub(crate) fn push_zeros(out: &mut Vec<u8>, k: usize)
    ensures
        final(out)@ == old(out)@ + zeros(k as int),
{
    let mut i: usize = 0;
    while i < k
        invariant
            i <= k,
            out@ == old(out)@ + zeros(i as int),
        decreases k - i,
    {
        out.push(0);
        i = i + 1;
        assert(out@ =~= old(out)@ + zeros(i as int));
    }
}

pub(crate) fn push_all(out: &mut Vec<u8>, s: &[u8])
    ensures
        final(out)@ == old(out)@ + s@,
{
    let mut i: usize = 0;
    while i < s.len()
        invariant
            i <= s@.len(),
            out@ == old(out)@ + s@.take(i as int),
        decreases s.len() - i,
    {
        out.push(s[i]);
        i = i + 1;
        assert(out@ =~= old(out)@ + s@.take(i as int));
    }
    assert(s@.take(s@.len() as int) =~= s@);
}

pub(crate) fn push_name_field(out: &mut Vec<u8>, name: &[u8], w: usize)
    ensures
        final(out)@ == old(out)@ + name_field(name@, w as int),
{
    let n = if name.len() < w {
        name.len()
    } else {
        w
    };
    let mut i: usize = 0;
    while i < n
        invariant
            i <= n,
            n <= name@.len(),
            out@ == old(out)@ + name@.take(i as int),
        decreases n - i,
    {
        out.push(name[i]);
        i = i + 1;
        assert(out@ =~= old(out)@ + name@.take(i as int));
    }
    let mut j: usize = n;
    while j < w
        invariant
            n <= j <= w,
            out@ == old(out)@ + name@.take(n as int) + Seq::new((j - n) as nat, |k: int| 0x20u8),
        decreases w - j,
    {
        out.push(0x20);
        j = j + 1;
        assert(out@ =~= old(out)@ + name@.take(n as int) + Seq::new(
            (j - n) as nat,
            |k: int| 0x20u8,
        ));
    }
}

pub(crate) fn push_le16(out: &mut Vec<u8>, v: usize)
    ensures
        final(out)@ == old(out)@ + le16(v as int),
{
    out.push((v % 256) as u8);
    out.push(((v / 256) % 256) as u8);
    assert(out@ =~= old(out)@ + le16(v as int));
}

fn sum_bytes(s: &[u8]) -> (r: u32)
    requires
        s@.len() <= 0x10000,
    ensures
        r == byte_sum(s@),
{
    let mut k: u32 = 0;
    let mut i: usize = 0;
    while i < s.len()
        invariant
            i <= s@.len(),
            s@.len() <= 0x10000,
            k == byte_sum(s@.take(i as int)),
            k <= 255 * i,
        decreases s.len() - i,
    {
        proof {
            lemma_byte_sum_step(s@, i as int);
        }
        k = k + s[i] as u32;
        i = i + 1;
    }
    assert(s@.take(s@.len() as int) =~= s@);
    k
}

/// Hobeta header checksum of the first 15 header bytes.
pub fn hobeta_checksum(hdr: &[u8; 17]) -> (r: u16)
    ensures
        r == hobeta_sum(hdr@.take(15)),
{
    let mut k: u32 = 0;
    let mut i: usize = 0;
    while i < 15
        invariant
            i <= 15,
            k == byte_sum(hdr@.take(i as int)),
            k <= 255 * i,
        decreases 15 - i,
    {
        proof {
            lemma_byte_sum_step(hdr@, i as int);
        }
        k = k + hdr[i] as u32;
        i = i + 1;
    }
    ((k * 257 + 105) % 65536) as u16
}

/// Build a 17-byte Hobeta header for a block of `len` bytes loaded at `start`.
pub fn make_hobeta_hdr(name: &str, typ: u8, start: u16, len: usize) -> (r: [u8; 17])
    requires
        len + 255 <= usize::MAX,
    ensures
        r@ == hobeta_header(encode_utf8(name@), typ, start, len as int),
{
    let nb = name.as_bytes();
    let mut v: Vec<u8> = Vec::new();
    push_name_field(&mut v, nb, 8);
    v.push(typ);
    push_le16(&mut v, start as usize);
    push_le16(&mut v, len);
    let sect: usize = (len + 255) / 256 * 256;
    push_le16(&mut v, sect);
    let ghost fields = v@;
    assert(fields =~= hobeta_fields(encode_utf8(name@), typ, start, len as int));
    let mut hdr: [u8; 17] = [0u8; 17];
    let mut i: usize = 0;
    while i < 15
        invariant
            i <= 15,
            v@ == fields,
            fields.len() == 15,
            forall|j: int| 0 <= j < i ==> hdr[j] == fields[j],
        decreases 15 - i,
    {
        hdr[i] = v[i];
        i = i + 1;
    }
    assert(hdr@.take(15) =~= fields);
    let cs = hobeta_checksum(&hdr);
    hdr[15] = (cs % 256) as u8;
    hdr[16] = (cs / 256) as u8;
    assert(hdr@ =~= hobeta_header(encode_utf8(name@), typ, start, len as int));
    hdr
}

/// Hobeta `$C` block: header, player code, zeroed player variables, module
/// data, padded to whole sectors.  Fails when the content exceeds 65280
/// bytes (the sector length field would overflow).
pub fn build_hobeta_code(
    player: &[u8],
    pt3: &[u8],
    zxdtsz: usize,
    opts: &ZxExportOptions,
) -> (r: Result<Vec<u8>, FormatError>)
    requires
        player@.len() + zxdtsz + pt3@.len() <= usize::MAX,
    ensures
        ({
            let total = player@.len() + zxdtsz + pt3@.len();
            &&& total > 65280 ==> r == Err::<Vec<u8>, FormatError>(
                FormatError::HobetaTooLarge { size: total as usize },
            )
            &&& total <= 65280 ==> (r matches Ok(out) && out@ == hobeta_header(
                text_bytes(opts.name),
                0x43,
                opts.load_addr,
                total,
            ) + player@ + zeros(zxdtsz as int) + pt3@ + zeros(sector_round(total) - total))
        }),
{
    let total = player.len() + zxdtsz + pt3.len();
    if total > 65280 {
        return Err(FormatError::HobetaTooLarge { size: total });
    }
    let hdr = make_hobeta_hdr(opts.name.as_str(), 0x43, opts.load_addr, total);
    let sect_len: usize = (total + 255) / 256 * 256;
    let mut out: Vec<u8> = Vec::new();
    push_all(&mut out, &hdr);
    push_all(&mut out, player);
    push_zeros(&mut out, zxdtsz);
    push_all(&mut out, pt3);
    push_zeros(&mut out, sect_len - total);
    Ok(out)
}

/// Hobeta `$M` block: header and module data (cut or zero-padded to whole
/// sectors of `mod_size` bytes).  Fails when `mod_size` exceeds 65280 bytes.
pub fn build_hobeta_mem(pt3: &[u8], mod_size: usize, opts: &ZxExportOptions) -> (r: Result<
    Vec<u8>,
    FormatError,
>)
    ensures
        mod_size > 65280 ==> r == Err::<Vec<u8>, FormatError>(
            FormatError::HobetaTooLarge { size: mod_size },
        ),
        mod_size <= 65280 ==> (r matches Ok(out) && out@ == resized(
            hobeta_header(text_bytes(opts.name), 0x6D, opts.load_addr, mod_size as int) + pt3@,
            17 + sector_round(mod_size as int),
        )),
{
    if mod_size > 65280 {
        return Err(FormatError::HobetaTooLarge { size: mod_size });
    }
    let hdr = make_hobeta_hdr(opts.name.as_str(), 0x6D, opts.load_addr, mod_size);
    let sect_len: usize = (mod_size + 255) / 256 * 256;
    let mut out: Vec<u8> = Vec::new();
    push_all(&mut out, &hdr);
    let ghost full = hdr@ + pt3@;
    let want: usize = 17 + sect_len;
    if pt3.len() <= want - 17 {
        push_all(&mut out, pt3);
        let have = out.len();
        push_zeros(&mut out, want - have);
        assert(out@ =~= resized(full, want as int));
    } else {
        let mut i: usize = 0;
        while out.len() < want
            invariant
                17 + i == out@.len(),
                out@.len() <= want,
                want < 17 + pt3@.len(),
                out@ == full.take(out@.len() as int),
                full == hdr@ + pt3@,
                hdr@.len() == 17,
            decreases want - out@.len(),
        {
            out.push(pt3[i]);
            i = i + 1;
            assert(out@ =~= full.take(out@.len() as int));
        }
    }
    Ok(out)
}

// ─── Relocation engine ───────────────────────────────────────────────────────

/// The little-endian word at table position `p`, or `0xFFFF` where fewer
/// than two bytes remain.
pub open spec fn table_word(raw: Seq<u8>, p: int) -> int {
    if 0 <= p && p + 1 < raw.len() {
        raw[p] as int + 256 * raw[p + 1] as int
    } else {
        0xFFFF
    }
}

/// The code size held in the first word of a player binary.
pub open spec fn player_code_size(raw: Seq<u8>) -> int {
    raw[0] as int + 256 * raw[1] as int
}

/// `pl` with `load` added (mod 2^16) to the little-endian word at `off`.
pub open spec fn add_word_at(pl: Seq<u8>, off: int, load: u16) -> Seq<u8> {
    let w = (pl[off] as int + 256 * pl[off + 1] as int + load as int) % 65536;
    pl.update(off, (w % 256) as u8).update(off + 1, (w / 256) as u8)
}

/// Section 1 (word patches), read from table position `p` while the entry is
/// below `n - 1`: the patched code and the position of the terminator.
pub open spec fn reloc_words(raw: Seq<u8>, n: int, load: u16, pl: Seq<u8>, p: int) -> (Seq<u8>, int)
    decreases raw.len() - p,
{
    let off = table_word(raw, p);
    if 0 <= p && p + 1 < raw.len() && off < n - 1 {
        reloc_words(raw, n, load, add_word_at(pl, off, load), p + 2)
    } else {
        (pl, p)
    }
}

/// Section 2 (low-byte patches): `pl[off] += lo(load)` while the entry is
/// below `n`; the patched code and the position of the terminator.
pub open spec fn reloc_lows(raw: Seq<u8>, n: int, load: u16, pl: Seq<u8>, p: int) -> (Seq<u8>, int)
    decreases raw.len() - p,
{
    let off = table_word(raw, p);
    if 0 <= p && p + 1 < raw.len() && off < n {
        reloc_lows(
            raw,
            n,
            load,
            pl.update(off, ((pl[off] as int + load as int % 256) % 256) as u8),
            p + 2,
        )
    } else {
        (pl, p)
    }
}

/// Section 3 (high-byte patches): pairs `(off, base)` with
/// `pl[off] = (base + load) >> 8`, while the offset is below `n` and its base
/// word is present.
pub open spec fn reloc_highs(raw: Seq<u8>, n: int, load: u16, pl: Seq<u8>, p: int) -> Seq<u8>
    decreases raw.len() - p,
{
    let off = table_word(raw, p);
    if 0 <= p && p + 3 < raw.len() && off < n {
        reloc_highs(
            raw,
            n,
            load,
            pl.update(off, (((table_word(raw, p + 2) + load as int) / 256) % 256) as u8),
            p + 4,
        )
    } else {
        pl
    }
}

/// The player code of `raw` relocated to `load`: the three patch sections
/// applied in turn, each read after the previous section's terminator; with
/// `looping`, bit 0 of the SETUP byte (offset 10) set.
pub open spec fn relocated(raw: Seq<u8>, load: u16, looping: bool) -> Seq<u8> {
    let n = player_code_size(raw);
    let s1 = reloc_words(raw, n, load, raw.subrange(4, 4 + n), 4 + n);
    let s2 = reloc_lows(raw, n, load, s1.0, s1.1 + 2);
    let pl = reloc_highs(raw, n, load, s2.0, s2.1 + 2);
    if looping && pl.len() > 10 {
        pl.update(10, pl[10] | 1u8)
    } else {
        pl
    }
}

fn sentinel_word(raw: &[u8], p: usize) -> (r: u16)
    ensures
        r == table_word(raw@, p as int),
{
    if p < raw.len() && p + 1 < raw.len() {
        raw[p] as u16 + raw[p + 1] as u16 * 256
    } else {
        0xFFFF
    }
}

/// Relocate the player binary `raw` to `load_addr`.  Its first word is the
/// code size `n`; the code follows the 4-byte header, and the three patch
/// tables follow the code (see [`relocated`]).  Fails when `raw` holds fewer
/// than `4 + n` bytes.
pub fn apply_relocations(raw: &[u8], load_addr: u16, looping: bool) -> (r: Result<
    Vec<u8>,
    FormatError,
>)
    requires
        raw@.len() >= 2,
        raw@.len() <= isize::MAX,
    ensures
        raw@.len() < 4 + player_code_size(raw@) <==> r == Err::<Vec<u8>, FormatError>(
            FormatError::PlayerTruncated,
        ),
        r matches Ok(pl) ==> pl@ == relocated(raw@, load_addr, looping) && pl@.len() == player_code_size(raw@),
        r matches Err(e) ==> e == FormatError::PlayerTruncated,
{
    let zxplsz: usize = raw[0] as usize + raw[1] as usize * 256;
    if raw.len() < 4 + zxplsz {
        return Err(FormatError::PlayerTruncated);
    }
    let ghost n: int = zxplsz as int;
    let mut pl: Vec<u8> = Vec::new();
    let mut i: usize = 4;
    let code_end: usize = 4 + zxplsz;
    while i < code_end
        invariant
            code_end == 4 + zxplsz,
            4 <= i <= code_end <= raw@.len(),
            pl@ == raw@.subrange(4, i as int),
        decreases code_end - i,
    {
        pl.push(raw[i]);
        i = i + 1;
        assert(pl@ =~= raw@.subrange(4, i as int));
    }
    let mut p: usize = 4 + zxplsz;
    let ghost s1 = reloc_words(raw@, n, load_addr, pl@, p as int);
    let lim1: usize = if zxplsz > 0 {
        zxplsz - 1
    } else {
        0
    };
    while (sentinel_word(raw, p) as usize) < lim1
        invariant
            n == zxplsz == player_code_size(raw@),
            lim1 == (if zxplsz > 0 { zxplsz - 1 } else { 0 }),
            raw@.len() <= isize::MAX,
            pl@.len() == n,
            4 + n <= p <= raw@.len() + 1,
            reloc_words(raw@, n, load_addr, pl@, p as int) == s1,
        decreases raw@.len() + 2 - p,
    {
        let off = sentinel_word(raw, p) as usize;
        let ghost before = pl@;
        p = p + 2;
        let old_word: u32 = pl[off] as u32 + pl[off + 1] as u32 * 256;
        let new_word: u32 = (old_word + load_addr as u32) % 65536;
        pl.set(off, (new_word % 256) as u8);
        pl.set(off + 1, (new_word / 256) as u8);
        assert(pl@ =~= add_word_at(before, off as int, load_addr));
    }
    p = p + 2;
    let ghost s2 = reloc_lows(raw@, n, load_addr, pl@, p as int);
    while (sentinel_word(raw, p) as usize) < zxplsz
        invariant
            n == zxplsz == player_code_size(raw@),
            raw@.len() <= isize::MAX,
            pl@.len() == n,
            p <= raw@.len() + 3,
            reloc_lows(raw@, n, load_addr, pl@, p as int) == s2,
        decreases raw@.len() + 4 - p,
    {
        let off = sentinel_word(raw, p) as usize;
        let ghost before = pl@;
        p = p + 2;
        let b: u8 = ((pl[off] as u16 + (load_addr % 256)) % 256) as u8;
        pl.set(off, b);
        assert(pl@ =~= before.update(
            off as int,
            ((before[off as int] as int + load_addr as int % 256) % 256) as u8,
        ));
    }
    p = p + 2;
    let ghost s3 = reloc_highs(raw@, n, load_addr, pl@, p as int);
    while (sentinel_word(raw, p) as usize) < zxplsz && p + 3 < raw.len()
        invariant
            n == zxplsz == player_code_size(raw@),
            raw@.len() <= isize::MAX,
            pl@.len() == n,
            p <= raw@.len() + 5,
            reloc_highs(raw@, n, load_addr, pl@, p as int) == s3,
        decreases raw@.len() + 6 - p,
    {
        let off = sentinel_word(raw, p) as usize;
        let base = sentinel_word(raw, p + 2);
        p = p + 4;
        pl.set(off, ((base as u32 + load_addr as u32) / 256 % 256) as u8);
    }
    if looping {
        if pl.len() > 10 {
            let v = pl[10] | 1;
            pl.set(10, v);
        }
    }
    Ok(pl)
}

/// Fails when player, variables and module (and `extra`) exceed 64 KiB.
pub fn check_fits(zxplsz: usize, zxdtsz: usize, mod_size: usize, extra: usize) -> (r: Result<
    (),
    FormatError,
>)
    requires
        zxplsz + zxdtsz + mod_size + extra <= usize::MAX,
    ensures
        (zxplsz + zxdtsz + mod_size + extra > 65536) == (r is Err),
        r matches Err(e) ==> (e == FormatError::ExceedsZxMemory {
            total: (zxplsz + zxdtsz + mod_size + extra) as usize,
        }),
{
    let total = zxplsz + zxdtsz + mod_size + extra;
    if total > 65536 {
        return Err(FormatError::ExceedsZxMemory { total });
    }
    Ok(())
}

// ─── TAP ─────────────────────────────────────────────────────────────────────

/// A TAP block: length (flag + data + parity), flag, data and the XOR parity.
pub open spec fn tap_block(flag: u8, data: Seq<u8>) -> Seq<u8> {
    le16(data.len() + 2int) + seq![flag] + data + seq![xor_all(flag, data)]
}

/// The 17 data bytes of a TAP header for a CODE file.
pub open spec fn tap_header(name: Seq<u8>, start: int, length: int) -> Seq<u8> {
    seq![3u8] + name_field(name, 10) + le16(length) + le16(start) + seq![0u8, 0x80u8]
}

/// The bytes `vtplayer`, the player's file name.
pub open spec fn player_name() -> Seq<u8> {
    seq![0x76u8, 0x74, 0x70, 0x6C, 0x61, 0x79, 0x65, 0x72]
}

/// XOR parity byte of a TAP block (flag XOR all data bytes).
pub fn tap_checksum(flag: u8, data: &[u8]) -> (r: u8)
    ensures
        r == xor_all(flag, data@),
{
    let mut k = flag;
    let mut i: usize = 0;
    while i < data.len()
        invariant
            i <= data@.len(),
            k == xor_all(flag, data@.take(i as int)),
        decreases data.len() - i,
    {
        assert(data@.take(i + 1).drop_last() =~= data@.take(i as int));
        k = k ^ data[i];
        i = i + 1;
    }
    assert(data@.take(data@.len() as int) =~= data@);
    k
}

/// Append a TAP block: length, flag, data and parity.
pub fn write_tap_block(out: &mut Vec<u8>, flag: u8, data: &[u8])
    requires
        data@.len() + 2 <= usize::MAX,
    ensures
        final(out)@ == old(out)@ + tap_block(flag, data@),
{
    let block_len = 1 + data.len() + 1;
    push_le16(out, block_len);
    out.push(flag);
    push_all(out, data);
    let cs = tap_checksum(flag, data);
    out.push(cs);
    assert(out@ =~= old(out)@ + tap_block(flag, data@));
}

fn make_tap_header(name: &[u8], start: u16, length: u16) -> (r: Vec<u8>)
    ensures
        r@ == tap_header(name@, start as int, length as int),
{
    let mut h: Vec<u8> = Vec::new();
    h.push(3);
    push_name_field(&mut h, name, 10);
    push_le16(&mut h, length as usize);
    push_le16(&mut h, start as usize);
    h.push(0x00);
    h.push(0x80);
    assert(h@ =~= tap_header(name@, start as int, length as int));
    h
}

/// TAP image: header and data blocks for the player (`vtplayer`, loaded at
/// `load_addr`), then for the module (named after `opts.name`, or
/// `module    ` when empty; loaded after the player and its variables).
pub fn build_tap(
    player: &[u8],
    pt3: &[u8],
    zxplsz: usize,
    zxdtsz: usize,
    opts: &ZxExportOptions,
) -> (r: Result<Vec<u8>, FormatError>)
    requires
        opts.load_addr + zxplsz + zxdtsz <= usize::MAX,
        player@.len() + 2 <= usize::MAX,
        pt3@.len() + 2 <= usize::MAX,
    ensures
        ({
            let data_name = if opts.name@.len() == 0 {
                seq![0x6Du8, 0x6F, 0x64, 0x75, 0x6C, 0x65, 0x20, 0x20, 0x20, 0x20]
            } else {
                text_bytes(opts.name)
            };
            let data_start = opts.load_addr + zxplsz + zxdtsz;
            r matches Ok(out) && out@ == tap_block(
                0,
                tap_header(player_name(), opts.load_addr as int, zxplsz as int % 65536),
            ) + tap_block(0xFF, player@) + tap_block(
                0,
                tap_header(data_name, data_start % 65536, pt3@.len() as int % 65536),
            ) + tap_block(0xFF, pt3@)
        }),
{
    let data_start: usize = opts.load_addr as usize + zxplsz + zxdtsz;
    let pname: [u8; 8] = [0x76, 0x74, 0x70, 0x6C, 0x61, 0x79, 0x65, 0x72];
    let dflt: [u8; 10] = [0x6D, 0x6F, 0x64, 0x75, 0x6C, 0x65, 0x20, 0x20, 0x20, 0x20];
    assert(pname@ =~= player_name());
    let mut out: Vec<u8> = Vec::new();
    let pl_hdr = make_tap_header(&pname, opts.load_addr, (zxplsz % 65536) as u16);
    write_tap_block(&mut out, 0x00, pl_hdr.as_slice());
    write_tap_block(&mut out, 0xFF, player);
    let data_hdr = if opts.name.as_str().is_empty() {
        make_tap_header(&dflt, (data_start % 65536) as u16, (pt3.len() % 65536) as u16)
    } else {
        make_tap_header(bytes_of(&opts.name), (data_start % 65536) as u16, (pt3.len() % 65536) as u16)
    };
    write_tap_block(&mut out, 0x00, data_hdr.as_slice());
    write_tap_block(&mut out, 0xFF, pt3);
    Ok(out)
}

// ─── SCL ─────────────────────────────────────────────────────────────────────

/// Little-endian bytes of the low 32 bits of `v`.
pub open spec fn le32(v: int) -> Seq<u8> {
    le16(v % 65536) + le16((v / 65536) % 65536)
}

/// The 37-byte SCL header: signature, two directory entries (player, module).
pub open spec fn scl_header(
    data_name: Seq<u8>,
    load_addr: u16,
    zxplsz: int,
    pl_sectors: int,
    data_start: int,
    data_len: int,
    data_sectors: int,
) -> Seq<u8> {
    seq![0x53u8, 0x49, 0x4E, 0x43, 0x4C, 0x41, 0x49, 0x52, 2u8] + player_name() + seq![0x43u8]
        + le16(load_addr as int) + le16(zxplsz) + seq![pl_sectors as u8] + name_field(data_name, 8)
        + seq![0x43u8] + le16(data_start) + le16(data_len) + seq![data_sectors as u8]
}

fn push_wrapping_sum(c: u32, s: &[u8]) -> (r: u32)
    ensures
        r == (c + byte_sum(s@)) % 0x1_0000_0000,
{
    let mut k: u32 = c;
    let mut i: usize = 0;
    while i < s.len()
        invariant
            i <= s@.len(),
            k == (c + byte_sum(s@.take(i as int))) % 0x1_0000_0000,
        decreases s.len() - i,
    {
        proof {
            lemma_byte_sum_step(s@, i as int);
        }
        k = ((k as u64 + s[i] as u64) % 0x1_0000_0000) as u32;
        i = i + 1;
    }
    assert(s@.take(s@.len() as int) =~= s@);
    k
}

/// SCL disc image holding the player (`vtplayer`) and the module (named
/// after `opts.name`, or `module` when empty), each padded to whole sectors,
/// followed by the 32-bit sum of all preceding bytes.  Fails when either
/// file needs more than 255 sectors.
pub fn build_scl(
    player: &[u8],
    pt3: &[u8],
    zxplsz: usize,
    zxdtsz: usize,
    opts: &ZxExportOptions,
) -> (r: Result<Vec<u8>, FormatError>)
    requires
        opts.load_addr + zxplsz + zxdtsz <= usize::MAX,
        zxplsz + 255 <= usize::MAX,
        pt3@.len() + 255 <= usize::MAX,
    ensures
        ({
            let pls: int = (zxplsz + 255) / 256;
            let ds: int = (pt3@.len() + 255) as int / 256;
            let data_name = if opts.name@.len() == 0 {
                seq![0x6Du8, 0x6F, 0x64, 0x75, 0x6C, 0x65]
            } else {
                text_bytes(opts.name)
            };
            let hdr = scl_header(
                data_name,
                opts.load_addr,
                zxplsz as int,
                pls,
                opts.load_addr + zxplsz + zxdtsz,
                pt3@.len() as int,
                ds as int,
            );
            &&& pls > 255 ==> r == Err::<Vec<u8>, FormatError>(
                FormatError::SclTooManySectors { size: zxplsz, sectors: pls as usize },
            )
            &&& pls <= 255 && ds > 255 ==> r == Err::<Vec<u8>, FormatError>(
                FormatError::SclTooManySectors { size: pt3@.len() as usize, sectors: ds as usize },
            )
            &&& pls <= 255 && ds <= 255 ==> (r matches Ok(out) && out@ == hdr + player@ + zeros(
                pls * 256 - zxplsz,
            ) + pt3@ + zeros(ds * 256 - pt3@.len()) + le32(
                (byte_sum(hdr) + byte_sum(player@) + byte_sum(pt3@)) as int,
            ))
        }),
{
    let data_start: usize = opts.load_addr as usize + zxplsz + zxdtsz;
    let pl_sectors: usize = (zxplsz + 255) / 256;
    let data_sectors: usize = (pt3.len() + 255) / 256;
    if pl_sectors > 255 {
        return Err(FormatError::SclTooManySectors { size: zxplsz, sectors: pl_sectors });
    }
    if data_sectors > 255 {
        return Err(FormatError::SclTooManySectors { size: pt3.len(), sectors: data_sectors });
    }
    let dflt: [u8; 6] = [0x6D, 0x6F, 0x64, 0x75, 0x6C, 0x65];
    assert(dflt@ =~= seq![0x6Du8, 0x6F, 0x64, 0x75, 0x6C, 0x65]);
    let hdr = if opts.name.as_str().is_empty() {
        make_scl_header(&dflt, opts.load_addr, zxplsz, pl_sectors, data_start, pt3.len(), data_sectors)
    } else {
        make_scl_header(
            bytes_of(&opts.name),
            opts.load_addr,
            zxplsz,
            pl_sectors,
            data_start,
            pt3.len(),
            data_sectors,
        )
    };
    let out = assemble_scl(hdr.as_slice(), player, pt3, zxplsz, pl_sectors, data_sectors);
    Ok(out)
}

fn make_scl_header(
    data_name: &[u8],
    load_addr: u16,
    zxplsz: usize,
    pl_sectors: usize,
    data_start: usize,
    data_len: usize,
    data_sectors: usize,
) -> (r: Vec<u8>)
    requires
        pl_sectors <= 255,
        data_sectors <= 255,
    ensures
        r@ == scl_header(
            data_name@,
            load_addr,
            zxplsz as int,
            pl_sectors as int,
            data_start as int,
            data_len as int,
            data_sectors as int,
        ),
        r@.len() == 37,
{
    let sig: [u8; 9] = [0x53, 0x49, 0x4E, 0x43, 0x4C, 0x41, 0x49, 0x52, 2];
    let pname: [u8; 8] = [0x76, 0x74, 0x70, 0x6C, 0x61, 0x79, 0x65, 0x72];
    let mut hdr: Vec<u8> = Vec::new();
    push_all(&mut hdr, &sig);
    push_all(&mut hdr, &pname);
    hdr.push(0x43);
    push_le16(&mut hdr, load_addr as usize);
    push_le16(&mut hdr, zxplsz);
    hdr.push(pl_sectors as u8);
    push_name_field(&mut hdr, data_name, 8);
    hdr.push(0x43);
    push_le16(&mut hdr, data_start);
    push_le16(&mut hdr, data_len);
    hdr.push(data_sectors as u8);
    assert(hdr@ =~= scl_header(
        data_name@,
        load_addr,
        zxplsz as int,
        pl_sectors as int,
        data_start as int,
        data_len as int,
        data_sectors as int,
    ));
    hdr
}

proof fn lemma_le32_of_wrapped(t: int, c: int)
    requires
        t >= 0,
        c == t % 0x1_0000_0000,
    ensures
        le16(c % 65536) + le16(c / 65536) == le32(t),
{
    vstd::arithmetic::div_mod::lemma_mod_breakdown(t, 65536, 65536);
    assert(65536 * 65536 == 0x1_0000_0000);
    let a = (t / 65536) % 65536;
    let b = t % 65536;
    vstd::arithmetic::div_mod::lemma_fundamental_div_mod_converse(c, 65536, a, b);
}

fn assemble_scl(
    hdr: &[u8],
    player: &[u8],
    pt3: &[u8],
    zxplsz: usize,
    pl_sectors: usize,
    data_sectors: usize,
) -> (r: Vec<u8>)
    requires
        hdr@.len() == 37,
        pl_sectors == (zxplsz + 255) / 256,
        data_sectors == (pt3@.len() + 255) / 256,
        pl_sectors <= 255,
        data_sectors <= 255,
    ensures
        r@ == hdr@ + player@ + zeros(pl_sectors * 256 - zxplsz) + pt3@ + zeros(
            data_sectors * 256 - pt3@.len(),
        ) + le32((byte_sum(hdr@) + byte_sum(player@) + byte_sum(pt3@)) as int),
{
    proof {
        lemma_byte_sum_bound(hdr@);
    }
    let mut checksum: u32 = sum_bytes_any(hdr);
    let mut out: Vec<u8> = Vec::new();
    push_all(&mut out, hdr);
    push_all(&mut out, player);
    push_zeros(&mut out, pl_sectors * 256 - zxplsz);
    checksum = push_wrapping_sum(checksum, player);
    push_all(&mut out, pt3);
    push_zeros(&mut out, data_sectors * 256 - pt3.len());
    checksum = push_wrapping_sum(checksum, pt3);
    let ghost t: int = (byte_sum(hdr@) + byte_sum(player@) + byte_sum(pt3@)) as int;
    proof {
        let a = byte_sum(hdr@) as int;
        let b = byte_sum(player@) as int;
        let d = byte_sum(pt3@) as int;
        vstd::arithmetic::div_mod::lemma_add_mod_noop_right(d, a + b, 0x1_0000_0000);
        assert(checksum == t % 0x1_0000_0000);
        lemma_le32_of_wrapped(t, checksum as int);
    }
    let ghost before = out@;
    push_le16(&mut out, (checksum % 65536) as usize);
    push_le16(&mut out, (checksum / 65536) as usize);
    assert(out@ =~= before + (le16((checksum % 65536) as int) + le16((checksum / 65536) as int)));
    out
}

fn sum_bytes_any(s: &[u8]) -> (r: u32)
    requires
        byte_sum(s@) < 0x1_0000_0000,
    ensures
        r == byte_sum(s@),
{
    let r = push_wrapping_sum(0, s);
    r
}

// ─── AY file ─────────────────────────────────────────────────────────────────

/// Big-endian bytes of the low 16 bits of `v`.
pub open spec fn be16(v: int) -> Seq<u8> {
    seq![((v % 65536) / 256) as u8, (v % 256) as u8]
}

/// The text the AY file names its maker with: `Vortex Tracker II v1.0`.
pub open spec fn maker_text() -> Seq<u8> {
    seq![
        0x56u8, 0x6F, 0x72, 0x74, 0x65, 0x78, 0x20, 0x54, 0x72, 0x61, 0x63, 0x6B, 0x65, 0x72, 0x20, 0x49, 0x49,
        0x20, 0x76, 0x31, 0x2E, 0x30,
    ]
}

/// A ZXAY `EMUL` file with one song: the 20-byte header (author and maker
/// pointers relative to their fields), the song structure, the song data
/// (channels 0..3, length `song_len`, player points at offset 38), the points
/// (stack, init and play entry at the load address, the player block and
/// the module block after the player variables, each with its file offset
/// relative to its field), then title, author and maker texts (each ended by
/// 0), the player code and the module.
pub open spec fn ay_file_image(pl: Seq<u8>, pt3: Seq<u8>, zxplsz: int, zxdtsz: int, opts: ZxExportOptions, song_len: int) -> Seq<u8> {
    let title = text_bytes(opts.title);
    let author = text_bytes(opts.author);
    let load = opts.load_addr as int;
    let player_pos = 58 + title.len() + 1 + author.len() + 1 + maker_text().len() + 1;
    seq![0x5Au8, 0x58, 0x41, 0x59, 0x45, 0x4D, 0x55, 0x4C, 0, 0] + be16(0) + be16(58 + title.len() + 1 - 12)
        + be16(58 + title.len() + 1 + author.len() + 1 - 14) + seq![0u8, 0] + be16(2) + be16(38) + be16(2)
        + seq![0u8, 1, 2, 3] + be16(song_len) + be16(0) + seq![0u8, 0] + be16(4) + be16(8) + be16(load)
        + be16(load) + be16(load + 5) + be16(load) + be16(zxplsz) + be16(player_pos - 48) + be16(
        load + zxplsz + zxdtsz,
    ) + be16(pt3.len() as int) + be16(player_pos + zxplsz - 54) + be16(0) + title + seq![0u8] + author
        + seq![0u8] + maker_text() + seq![0u8] + pl + pt3
}

fn push_be16(out: &mut Vec<u8>, v: usize)
    ensures
        final(out)@ == old(out)@ + be16(v as int),
{
    out.push(((v % 65536) / 256) as u8);
    out.push((v % 256) as u8);
    assert(out@ =~= old(out)@ + be16(v as int));
}

/// AY file image: a ZXAY `EMUL` container around the player and the module
/// (see [`ay_file_image`]); `song_len` is the play time in interrupts, at
/// most 65535.
pub fn build_ay_file(
    player: &[u8],
    pt3: &[u8],
    zxplsz: usize,
    zxdtsz: usize,
    opts: &ZxExportOptions,
    song_len: u16,
) -> (r: Vec<u8>)
    requires
        opts.load_addr <= 65530,
        zxplsz <= 65536,
        zxdtsz <= 65536,
        pt3@.len() <= 65536,
        text_bytes(opts.title).len() <= 65536,
        text_bytes(opts.author).len() <= 65536,
    ensures
        r@ == ay_file_image(player@, pt3@, zxplsz as int, zxdtsz as int, *opts, song_len as int),
{
    let title = bytes_of(&opts.title);
    let author = bytes_of(&opts.author);
    let maker: [u8; 22] = [
        0x56, 0x6F, 0x72, 0x74, 0x65, 0x78, 0x20, 0x54, 0x72, 0x61, 0x63, 0x6B, 0x65, 0x72, 0x20, 0x49, 0x49, 0x20,
        0x76, 0x31, 0x2E, 0x30,
    ];
    assert(maker@ =~= maker_text());
    let load = opts.load_addr as usize;
    let player_pos = 58 + title.len() + 1 + author.len() + 1 + 22 + 1;
    let id: [u8; 10] = [0x5A, 0x58, 0x41, 0x59, 0x45, 0x4D, 0x55, 0x4C, 0, 0];
    let mut out: Vec<u8> = Vec::new();
    push_all(&mut out, &id);
    push_be16(&mut out, 0);
    push_be16(&mut out, 58 + title.len() + 1 - 12);
    push_be16(&mut out, 58 + title.len() + 1 + author.len() + 1 - 14);
    push_all(&mut out, &[0u8, 0]);
    push_be16(&mut out, 2);
    push_be16(&mut out, 38);
    push_be16(&mut out, 2);
    push_all(&mut out, &[0u8, 1, 2, 3]);
    push_be16(&mut out, song_len as usize);
    push_be16(&mut out, 0);
    push_all(&mut out, &[0u8, 0]);
    push_be16(&mut out, 4);
    push_be16(&mut out, 8);
    push_be16(&mut out, load);
    push_be16(&mut out, load);
    push_be16(&mut out, load + 5);
    push_be16(&mut out, load);
    push_be16(&mut out, zxplsz);
    push_be16(&mut out, player_pos - 48);
    push_be16(&mut out, load + zxplsz + zxdtsz);
    push_be16(&mut out, pt3.len());
    push_be16(&mut out, player_pos + zxplsz - 54);
    push_be16(&mut out, 0);
    push_all(&mut out, title);
    out.push(0);
    push_all(&mut out, author);
    out.push(0);
    push_all(&mut out, &maker);
    out.push(0);
    push_all(&mut out, player);
    push_all(&mut out, pt3);
    proof {
        assert(seq![0u8, 0] =~= seq![0u8, 0]);
    }
    assert(out@ =~= ay_file_image(player@, pt3@, zxplsz as int, zxdtsz as int, *opts, song_len as int));
    out
}

// ─── The export ──────────────────────────────────────────────────────────────

/// What [`build_hobeta_code`] gives.
pub open spec fn hobeta_code_image(pl: Seq<u8>, pt3: Seq<u8>, zxdtsz: int, opts: ZxExportOptions) -> Result<Seq<u8>, FormatError> {
    let total = pl.len() + zxdtsz + pt3.len();
    if total > 65280 {
        Err(FormatError::HobetaTooLarge { size: total as usize })
    } else {
        Ok(hobeta_header(text_bytes(opts.name), 0x43, opts.load_addr, total) + pl + zeros(zxdtsz) + pt3 + zeros(
            sector_round(total) - total,
        ))
    }
}

/// What [`build_hobeta_mem`] gives for a module of `pt3`.
pub open spec fn hobeta_mem_image(pt3: Seq<u8>, opts: ZxExportOptions) -> Result<Seq<u8>, FormatError> {
    if pt3.len() > 65280 {
        Err(FormatError::HobetaTooLarge { size: pt3.len() as usize })
    } else {
        Ok(resized(hobeta_header(text_bytes(opts.name), 0x6D, opts.load_addr, pt3.len() as int) + pt3, 17 + sector_round(pt3.len() as int)))
    }
}

/// What [`build_tap`] gives.
pub open spec fn tap_image(pl: Seq<u8>, pt3: Seq<u8>, zxplsz: int, zxdtsz: int, opts: ZxExportOptions) -> Seq<u8> {
    let data_name = if opts.name@.len() == 0 {
        seq![0x6Du8, 0x6F, 0x64, 0x75, 0x6C, 0x65, 0x20, 0x20, 0x20, 0x20]
    } else {
        text_bytes(opts.name)
    };
    let data_start = opts.load_addr + zxplsz + zxdtsz;
    tap_block(0, tap_header(player_name(), opts.load_addr as int, zxplsz % 65536)) + tap_block(0xFF, pl) + tap_block(
        0,
        tap_header(data_name, data_start % 65536, pt3.len() as int % 65536),
    ) + tap_block(0xFF, pt3)
}

/// What [`build_scl`] gives.
pub open spec fn scl_image(pl: Seq<u8>, pt3: Seq<u8>, zxplsz: int, zxdtsz: int, opts: ZxExportOptions) -> Result<Seq<u8>, FormatError> {
    let pls: int = (zxplsz + 255) / 256;
    let ds: int = (pt3.len() + 255) as int / 256;
    let data_name = if opts.name@.len() == 0 {
        seq![0x6Du8, 0x6F, 0x64, 0x75, 0x6C, 0x65]
    } else {
        text_bytes(opts.name)
    };
    let hdr = scl_header(data_name, opts.load_addr, zxplsz, pls, opts.load_addr + zxplsz + zxdtsz, pt3.len() as int, ds);
    if pls > 255 {
        Err(FormatError::SclTooManySectors { size: zxplsz as usize, sectors: pls as usize })
    } else if ds > 255 {
        Err(FormatError::SclTooManySectors { size: pt3.len() as usize, sectors: ds as usize })
    } else {
        Ok(hdr + pl + zeros(pls * 256 - zxplsz) + pt3 + zeros(ds * 256 - pt3.len()) + le32(
            (byte_sum(hdr) + byte_sum(pl) + byte_sum(pt3)) as int,
        ))
    }
}

/// The export of module file `pt3` with the player binary `player` (code
/// and variables sizes in its first two words): a Hobeta `$M` block of the
/// module alone; otherwise, when player, variables and module fit in the
/// 64 KiB of ZX memory and the player binary holds its code, the relocated
/// player and the module in a Hobeta `$C` block, an AY file (play time
/// `ticks`, at most 65535), an SCL image or a TAP image.
pub open spec fn zx_image(opts: ZxExportOptions, player: Seq<u8>, pt3: Seq<u8>, ticks: int) -> Result<Seq<u8>, FormatError> {
    let zxplsz = player[0] as int + 256 * player[1] as int;
    let zxdtsz = player[2] as int + 256 * player[3] as int;
    let total = zxplsz + zxdtsz + pt3.len();
    if opts.format == ZxFormat::HobetaMem {
        hobeta_mem_image(pt3, opts)
    } else if total > 65536 {
        Err(FormatError::ExceedsZxMemory { total: total as usize })
    } else if player.len() < 4 + player_code_size(player) {
        Err(FormatError::PlayerTruncated)
    } else {
        let pl = relocated(player, opts.load_addr, opts.looping);
        match opts.format {
            ZxFormat::HobetaCode => hobeta_code_image(pl, pt3, zxdtsz, opts),
            ZxFormat::AyFile => Ok(ay_file_image(pl, pt3, zxplsz, zxdtsz, opts, if ticks > 65535 {
                65535
            } else {
                ticks
            })),
            ZxFormat::Scl => scl_image(pl, pt3, zxplsz, zxdtsz, opts),
            _ => Ok(tap_image(pl, pt3, zxplsz, zxdtsz, opts)),
        }
    }
}

/// The export of module file `pt3` (see [`zx_image`]).
pub fn zx_from_pt3(opts: &ZxExportOptions, player: &[u8], pt3: &[u8], ticks: u32) -> (r: Result<Vec<u8>, FormatError>)
    requires
        player@.len() >= 4,
        player@.len() <= isize::MAX,
        opts.format == ZxFormat::AyFile ==> opts.load_addr <= 65530 && text_bytes(opts.title).len() <= 65536
            && text_bytes(opts.author).len() <= 65536,
    ensures
        match zx_image(*opts, player@, pt3@, ticks as int) {
            Ok(img) => r matches Ok(v) && v@ == img,
            Err(e) => r == Err::<Vec<u8>, FormatError>(e),
        },
{
    let mod_size = pt3.len();
    if opts.format == ZxFormat::HobetaMem {
        return build_hobeta_mem(pt3, mod_size, opts);
    }
    let zxplsz: usize = player[0] as usize + 256 * player[1] as usize;
    let zxdtsz: usize = player[2] as usize + 256 * player[3] as usize;
    let total: u128 = zxplsz as u128 + zxdtsz as u128 + mod_size as u128;
    if total > 65536 {
        return Err(FormatError::ExceedsZxMemory { total: total as usize });
    }
    let pl = match apply_relocations(player, opts.load_addr, opts.looping) {
        Ok(p) => p,
        Err(e) => {
            return Err(e);
        },
    };
    match opts.format {
        ZxFormat::HobetaCode => build_hobeta_code(pl.as_slice(), pt3, zxdtsz, opts),
        ZxFormat::AyFile => {
            let len: u16 = if ticks > 65535 {
                65535
            } else {
                ticks as u16
            };
            Ok(build_ay_file(pl.as_slice(), pt3, zxplsz, zxdtsz, opts, len))
        },
        ZxFormat::Scl => build_scl(pl.as_slice(), pt3, zxplsz, zxdtsz, opts),
        _ => build_tap(pl.as_slice(), pt3, zxplsz, zxdtsz, opts),
    }
}

/// Export a module for the ZX Spectrum with the player binary `player`
/// (see [`zx_image`]); `ticks` is the module's play time in interrupts,
/// used by AY files.  Fails when the module does not fit a PT3 file.
pub fn export_zx(module: &crate::types::Module, opts: &ZxExportOptions, player: &[u8], ticks: u32) -> (r: Result<
    Vec<u8>,
    FormatError,
>)
    requires
        crate::formats::pt3::writable(*module),
        player@.len() >= 4,
        player@.len() <= isize::MAX,
        opts.format == ZxFormat::AyFile ==> opts.load_addr <= 65530 && text_bytes(opts.title).len() <= 65536
            && text_bytes(opts.author).len() <= 65536,
    ensures
        match crate::formats::pt3::pt3_file(*module) {
            None => r == Err::<Vec<u8>, FormatError>(FormatError::OutputTooLarge),
            Some(b) => match zx_image(*opts, player@, b, ticks as int) {
                Ok(img) => r matches Ok(v) && v@ == img,
                Err(e) => r == Err::<Vec<u8>, FormatError>(e),
            },
        },
{
    let pt3 = match crate::formats::pt3::write(module) {
        Ok(b) => b,
        Err(e) => {
            return Err(e);
        },
    };
    zx_from_pt3(opts, player, pt3.as_slice(), ticks)
}

/// Whether the title and author fit the AY file's 16-bit offsets.
pub fn text_len_ok(opts: &ZxExportOptions) -> (r: bool)
    ensures
        r == (text_bytes(opts.title).len() <= 65536 && text_bytes(opts.author).len() <= 65536),
{
    bytes_of(&opts.title).len() <= 65536 && bytes_of(&opts.author).len() <= 65536
}

} // verus!

