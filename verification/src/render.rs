//! The integer half of the PCM synthesizer: the FIR low-pass filter run at
//! the chip clock, and the decimator that turns the chip-rate levels into
//! audio-rate stereo samples.
use crate::chip::{after_clock, chip_ok, lemma_clock_keeps_chip_ok, SoundChip};
use crate::synth::{clamp16, div_toward_zero, interpolate16, spec_interpolate16, LevelTables, StereoSample};
use vstd::prelude::*;

verus! {

// ─── FIR low-pass filter ─────────────────────────────────────────────────────

/// The filter's coefficients and the recent input levels of each side, kept
/// in rings; `i` is where the next level goes.
pub struct FirState {
    pub k: Vec<i32>,
    pub x_l: Vec<i32>,
    pub x_r: Vec<i32>,
    pub i: usize,
}

/// The largest coefficient magnitude: 1.0 in 8.24 fixed point.
pub const FIR_ONE: i32 = 0x0100_0000;

/// The most coefficients a filter can have (one more than its order).
pub const FIR_MAX_TAPS: usize = 255;

impl FirState {
    /// Coefficients and rings of one length (1 to [`FIR_MAX_TAPS`]), the
    /// cursor inside, every coefficient within ±1.0 (8.24 fixed point).
    pub open spec fn wf(&self) -> bool {
        &&& 1 <= self.k@.len() <= FIR_MAX_TAPS
        &&& self.x_l@.len() == self.k@.len()
        &&& self.x_r@.len() == self.k@.len()
        &&& self.i < self.k@.len()
        &&& forall|j: int| 0 <= j < self.k@.len() ==> -FIR_ONE <= #[trigger] self.k@[j] <= FIR_ONE
    }

    /// A filter with the coefficients `k` and silent history.
    pub fn new(k: Vec<i32>) -> (r: FirState)
        requires
            1 <= k@.len() <= FIR_MAX_TAPS,
            forall|j: int| 0 <= j < k@.len() ==> -FIR_ONE <= #[trigger] k@[j] <= FIR_ONE,
        ensures
            r.wf(),
            r.k@ == k@,
            r.x_l@ == Seq::new(k@.len(), |j: int| 0i32),
            r.x_r@ == Seq::new(k@.len(), |j: int| 0i32),
            r.i == 0,
    {
        let n = k.len();
        let mut x_l: Vec<i32> = Vec::new();
        let mut x_r: Vec<i32> = Vec::new();
        let mut j: usize = 0;
        while j < n
            invariant
                j <= n,
                x_l@ == Seq::new(j as nat, |q: int| 0i32),
                x_r@ == Seq::new(j as nat, |q: int| 0i32),
            decreases n - j,
        {
            x_l.push(0);
            x_r.push(0);
            j = j + 1;
            assert(x_l@ =~= Seq::new(j as nat, |q: int| 0i32));
            assert(x_r@ =~= Seq::new(j as nat, |q: int| 0i32));
        }
        FirState { k, x_l, x_r, i: 0 }
    }
}

/// A filter as values: coefficients, the left and right rings, the cursor.
pub type FirView = (Seq<i32>, Seq<i32>, Seq<i32>, int);

impl View for FirState {
    type V = FirView;

    open spec fn view(&self) -> FirView {
        (self.k@, self.x_l@, self.x_r@, self.i as int)
    }
}

/// A filter after `lev` is filtered on side `is_left` (see
/// [`FirState::apply_filter`]).
pub open spec fn fir_next(v: FirView, lev: i32, is_left: bool) -> FirView {
    (
        v.0,
        if is_left { v.1.update(v.3, lev) } else { v.1 },
        if is_left { v.2 } else { v.2.update(v.3, lev) },
        if !is_left { v.3 } else if v.3 + 1 == v.0.len() { 0 } else { v.3 + 1 },
    )
}

/// What filtering `lev` on side `is_left` gives (see [`fir_value`]).
pub open spec fn fir_result(v: FirView, lev: i32, is_left: bool) -> i32 {
    let w = fir_next(v, lev, is_left);
    fir_value(v.0, if is_left { w.1 } else { w.2 }, v.3)
}

/// The cell `j` steps before `i` in a ring of `n` cells.
pub open spec fn ring_back(i: int, j: int, n: int) -> int {
    if i >= j {
        i - j
    } else {
        i - j + n
    }
}

/// The first `t` terms of the convolution at `i`: coefficient `j` times the
/// level `j` steps before `i`.
pub open spec fn fir_sum(k: Seq<i32>, x: Seq<i32>, i: int, t: nat) -> int
    decreases t,
{
    if t == 0 {
        0
    } else {
        fir_sum(k, x, i, (t - 1) as nat) + k[t - 1] * x[ring_back(i, t - 1, k.len() as int)]
    }
}

/// The filter output at `i`: the convolution scaled down by 2^24, rounded
/// toward zero (the arithmetic shift of the sum biased by 2^24 - 1 when
/// negative), cut to 32 bits.
pub open spec fn fir_value(k: Seq<i32>, x: Seq<i32>, i: int) -> i32 {
    div_toward_zero(fir_sum(k, x, i, k.len()), 0x100_0000) as i32
}

/// The ring of side `is_left` after the level `lev` is put at the cursor.
pub open spec fn fir_ring(st: FirState, lev: i32, is_left: bool) -> Seq<i32> {
    if is_left {
        st.x_l@.update(st.i as int, lev)
    } else {
        st.x_r@.update(st.i as int, lev)
    }
}

/// What filtering `lev` on side `is_left` gives.
pub open spec fn fir_out(st: FirState, lev: i32, is_left: bool) -> i32 {
    fir_value(st.k@, fir_ring(st, lev, is_left), st.i as int)
}

proof fn lemma_term_bound(a: i32, b: i32)
    requires
        -FIR_ONE <= a <= FIR_ONE,
    ensures
        -0x80_0000_0000_0000 <= a * b <= 0x80_0000_0000_0000,
{
    assert(-0x80_0000_0000_0000 <= a * b <= 0x80_0000_0000_0000) by (nonlinear_arith)
        requires
            -0x100_0000 <= a <= 0x100_0000,
            -0x8000_0000 <= b <= 0x7FFF_FFFF,
    ;
}

impl FirState {
    /// Filter one level of the left or right side: put it in that side's
    /// ring and give the convolution with the coefficients (see
    /// [`fir_out`]); the cursor moves on after the left side.
    pub fn apply_filter(&mut self, lev: i32, is_left: bool) -> (r: i32)
        requires
            old(self).wf(),
        ensures
            final(self).wf(),
            final(self)@ == fir_next(old(self)@, lev, is_left),
            r == fir_result(old(self)@, lev, is_left),
            r == fir_out(*old(self), lev, is_left),
            final(self).k@ == old(self).k@,
            final(self).x_l@ == if is_left {
                fir_ring(*old(self), lev, is_left)
            } else {
                old(self).x_l@
            },
            final(self).x_r@ == if is_left {
                old(self).x_r@
            } else {
                fir_ring(*old(self), lev, is_left)
            },
            final(self).i as int == if !is_left {
                old(self).i as int
            } else if old(self).i + 1 == old(self).k@.len() {
                0
            } else {
                old(self).i + 1
            },
    {
        let n = self.k.len();
        let i0 = self.i;
        if is_left {
            self.x_l.set(i0, lev);
        } else {
            self.x_r.set(i0, lev);
        }
        let ghost x = fir_ring(*old(self), lev, is_left);
        let mut acc: i64 = 0;
        let mut ki: usize = i0;
        let mut j: usize = 0;
        while j < n
            invariant
                n == self.k@.len(),
                1 <= n <= FIR_MAX_TAPS,
                i0 < n,
                j <= n,
                self.k@ == old(self).k@,
                forall|q: int| 0 <= q < n ==> -FIR_ONE <= #[trigger] self.k@[q] <= FIR_ONE,
                x.len() == n,
                x == if is_left {
                    self.x_l@
                } else {
                    self.x_r@
                },
                j < n ==> ki == ring_back(i0 as int, j as int, n as int),
                ki < n,
                acc == fir_sum(self.k@, x, i0 as int, j as nat),
                -(j * 0x80_0000_0000_0000) <= acc <= j * 0x80_0000_0000_0000,
            decreases n - j,
        {
            let xv = if is_left {
                self.x_l[ki]
            } else {
                self.x_r[ki]
            };
            proof {
                lemma_term_bound(self.k@[j as int], xv);
            }
            acc = acc + self.k[j] as i64 * xv as i64;
            if ki == 0 {
                ki = n - 1;
            } else {
                ki = ki - 1;
            }
            j = j + 1;
        }
        if is_left {
            self.i = if i0 + 1 == n {
                0
            } else {
                i0 + 1
            };
        }
        let q: i64 = if acc < 0 {
            -((-acc) / 0x100_0000)
        } else {
            acc / 0x100_0000
        };
        q as i32
    }
}

// ─── Decimation to the audio rate ────────────────────────────────────────────

/// The decimator between the chip clock and the audio rate: the tick
/// counter (65536 per chip clock) and the tick at which the next sample is
/// due, and the last two filtered levels of each side.
#[derive(Clone, Copy)]
pub struct Decimator {
    pub tick_counter: i32,
    pub tik: i32,
    pub last_l: i32,
    pub last_r: i32,
    pub prev_l: i32,
    pub prev_r: i32,
}

/// The largest number of ticks between two samples a decimator takes.
pub const MAX_DELAY: i32 = 0x2000_0000;

impl Decimator {
    /// A decimator at its start: no tick counted, the first sample due after
    /// `delay` ticks, silent levels.
    pub fn new(delay: i32) -> (r: Decimator)
        requires
            1 <= delay <= MAX_DELAY,
        ensures
            r == (Decimator { tick_counter: 0, tik: delay, last_l: 0, last_r: 0, prev_l: 0, prev_r: 0 }),
            r.ok(delay),
    {
        Decimator { tick_counter: 0, tik: delay, last_l: 0, last_r: 0, prev_l: 0, prev_r: 0 }
    }

    /// The state every step keeps, for samples `delay` ticks apart: the due
    /// tick at most `delay` ahead and less than one chip clock behind the
    /// counter.
    pub open spec fn ok(&self, delay: i32) -> bool {
        &&& 1 <= delay <= MAX_DELAY
        &&& 1 <= self.tik <= delay
        &&& 0 <= self.tick_counter < self.tik + 65536
    }
}

/// The arguments with which [`interpolate16`] stays in range.
pub open spec fn interp_ok(l1: i32, l0: i32, ofs: int) -> bool {
    &&& i32::MIN <= l1 - l0 <= i32::MAX
    &&& i32::MIN <= (l1 - l0) * ofs <= i32::MAX
    &&& i32::MIN <= div_toward_zero((l1 - l0) * ofs, 65536) + l0 <= i32::MAX
}

/// Interpolating between the last two levels stays in range at every offset
/// a sample now due has (from the due tick's offset up to a whole clock).
pub open spec fn interp_fits(d: Decimator) -> bool {
    forall|i: int|
        d.tik - d.tick_counter + 65536 <= i <= 65536 ==> #[trigger] interp_ok(d.last_l, d.prev_l, i) && interp_ok(
            d.last_r,
            d.prev_r,
            i,
        )
}

/// The sample due at tick `tik`: with the filter on, the point between the
/// previous and the last levels where `tik` falls; otherwise the last levels,
/// clamped.
pub open spec fn due_sample(d: Decimator, tik: int, is_filt: bool) -> StereoSample {
    if is_filt {
        let i = (tik - d.tick_counter + 65536) as i32;
        StereoSample {
            left: spec_interpolate16(d.last_l, d.prev_l, i),
            right: spec_interpolate16(d.last_r, d.prev_r, i),
        }
    } else {
        StereoSample { left: clamp16(d.last_l as int), right: clamp16(d.last_r as int) }
    }
}

/// The samples due at `tik`, `tik + delay`, ... up to the tick counter.
pub open spec fn due_from(d: Decimator, tik: int, delay: int, is_filt: bool) -> Seq<StereoSample>
    decreases (if tik > d.tick_counter {
        0
    } else {
        d.tick_counter - tik + 1
    }),
{
    if delay < 1 || tik > d.tick_counter {
        Seq::empty()
    } else {
        seq![due_sample(d, tik, is_filt)] + due_from(d, tik + delay, delay, is_filt)
    }
}

/// The first of `tik`, `tik + delay`, ... past the tick counter `tc`.
pub open spec fn tik_after(tc: int, tik: int, delay: int) -> int
    decreases (if tik > tc {
        0
    } else {
        tc - tik + 1
    }),
{
    if delay < 1 || tik > tc {
        tik
    } else {
        tik_after(tc, tik + delay, delay)
    }
}

/// The decimator after one chip clock whose filtered levels are `lev_l` and
/// `lev_r`: when samples were due, the due tick is made relative to a
/// counter restarted at 0; the levels shift in; the counter moves one clock.
pub open spec fn decimated(d: Decimator, lev_l: i32, lev_r: i32, delay: i32) -> Decimator {
    let due = d.tick_counter >= d.tik;
    Decimator {
        tick_counter: ((if due {
            0
        } else {
            d.tick_counter as int
        }) + 65536) as i32,
        tik: if due {
            (tik_after(d.tick_counter as int, d.tik as int, delay as int) - d.tick_counter) as i32
        } else {
            d.tik
        },
        prev_l: d.last_l,
        prev_r: d.last_r,
        last_l: lev_l,
        last_r: lev_r,
    }
}

proof fn lemma_tik_after(tc: int, tik: int, delay: int)
    requires
        delay >= 1,
    ensures
        tik_after(tc, tik, delay) > tc,
        tik <= tc ==> tik_after(tc, tik, delay) <= tc + delay,
        tik > tc ==> tik_after(tc, tik, delay) == tik,
    decreases (if tik > tc {
        0
    } else {
        tc - tik + 1
    }),
{
    if tik <= tc {
        lemma_tik_after(tc, tik + delay, delay);
    }
}

/// One chip clock of the decimator: the samples now due are appended to
/// `out` (see [`due_from`]), then the filtered levels `lev_l`, `lev_r` of
/// this clock shift in (see [`decimated`]).
pub fn decimate_step(
    st: &mut Decimator,
    lev_l: i32,
    lev_r: i32,
    delay: i32,
    is_filt: bool,
    out: &mut Vec<StereoSample>,
)
    requires
        old(st).ok(delay),
        is_filt ==> interp_fits(*old(st)),
    ensures
        final(out)@ == old(out)@ + due_from(*old(st), old(st).tik as int, delay as int, is_filt),
        *final(st) == decimated(*old(st), lev_l, lev_r, delay),
        final(st).ok(delay),
{
    let ghost d0 = *st;
    if st.tick_counter >= st.tik {
        while st.tick_counter >= st.tik
            invariant
                d0.ok(delay),
                is_filt ==> interp_fits(d0),
                st.tick_counter == d0.tick_counter,
                st.last_l == d0.last_l && st.last_r == d0.last_r,
                st.prev_l == d0.prev_l && st.prev_r == d0.prev_r,
                d0.tik <= st.tik <= d0.tick_counter + delay,
                old(out)@ + due_from(d0, d0.tik as int, delay as int, is_filt) == out@ + due_from(
                    d0,
                    st.tik as int,
                    delay as int,
                    is_filt,
                ),
                tik_after(d0.tick_counter as int, st.tik as int, delay as int) == tik_after(
                    d0.tick_counter as int,
                    d0.tik as int,
                    delay as int,
                ),
            decreases d0.tick_counter + delay - st.tik,
        {
            let s = if is_filt {
                let i = st.tik - st.tick_counter + 65536;
                assert(interp_ok(d0.last_l, d0.prev_l, i as int));
                StereoSample {
                    left: interpolate16(st.last_l, st.prev_l, i),
                    right: interpolate16(st.last_r, st.prev_r, i),
                }
            } else {
                StereoSample { left: clamp_i16(st.last_l), right: clamp_i16(st.last_r) }
            };
            let ghost rest = due_from(d0, st.tik as int + delay, delay as int, is_filt);
            assert(due_from(d0, st.tik as int, delay as int, is_filt) == seq![s] + rest);
            out.push(s);
            assert(out@ + rest =~= old(out)@ + due_from(d0, d0.tik as int, delay as int, is_filt)) by {
                assert(old(out)@ + due_from(d0, d0.tik as int, delay as int, is_filt) =~= out@.drop_last() + (seq![s]
                    + rest));
            }
            st.tik = st.tik + delay;
        }
        proof {
            lemma_tik_after(d0.tick_counter as int, d0.tik as int, delay as int);
            assert(due_from(d0, st.tik as int, delay as int, is_filt) =~= Seq::<StereoSample>::empty());
            assert(out@ =~= old(out)@ + due_from(d0, d0.tik as int, delay as int, is_filt));
        }
        st.tik = st.tik - st.tick_counter;
        st.tick_counter = 0;
    } else {
        assert(due_from(d0, d0.tik as int, delay as int, is_filt) =~= Seq::<StereoSample>::empty());
        assert(out@ =~= old(out)@ + due_from(d0, d0.tik as int, delay as int, is_filt));
    }
    st.prev_l = st.last_l;
    st.prev_r = st.last_r;
    st.last_l = lev_l;
    st.last_r = lev_r;
    st.tick_counter = st.tick_counter + 65536;
}

/// `v` clamped to the `i16` range.
pub fn clamp_i16(v: i32) -> (r: i16)
    ensures
        r == clamp16(v as int),
{
    if v < -32768 {
        -32768
    } else if v > 32767 {
        32767
    } else {
        v as i16
    }
}

// ─── The chips, the filter and the decimator together ───────────────────────

/// The largest level-table entry a renderer takes: two chips' six channels
/// then always sum within 32 bits.
pub const LEVEL_MAX: i32 = 0x0800_0000;

/// Every entry of the six level tables is within ±[`LEVEL_MAX`].
pub open spec fn tables_fit(t: LevelTables) -> bool {
    forall|i: int|
        0 <= i < 32 ==> {
            &&& -LEVEL_MAX <= #[trigger] t.al[i] <= LEVEL_MAX
            &&& -LEVEL_MAX <= t.ar[i] <= LEVEL_MAX
            &&& -LEVEL_MAX <= t.bl[i] <= LEVEL_MAX
            &&& -LEVEL_MAX <= t.br[i] <= LEVEL_MAX
            &&& -LEVEL_MAX <= t.cl[i] <= LEVEL_MAX
            &&& -LEVEL_MAX <= t.cr[i] <= LEVEL_MAX
        }
}

/// What a chip's three channels add to a mix with the tables `a`, `b`, `c`.
pub open spec fn chip_mix(ch: SoundChip, a: [i32; 32], b: [i32; 32], c: [i32; 32]) -> int {
    ch.level_a(a) + ch.level_b(b) + ch.level_c(c)
}

/// The chips after one clock of the first `n`.
pub open spec fn clocked(chips: [SoundChip; 2], n: int) -> [SoundChip; 2] {
    let c0 = if n > 0 { after_clock(chips[0]) } else { chips[0] };
    let c1 = if n > 1 { after_clock(chips[1]) } else { chips[1] };
    vstd::array::spec_array_update(vstd::array::spec_array_update(chips, 0, c0), 1, c1)
}

/// The left (`left`) or right mix of the first `n` chips.
pub open spec fn mix(chips: [SoundChip; 2], n: int, t: LevelTables, left: bool) -> int {
    let m0 = if n > 0 {
        if left { chip_mix(chips[0], t.al, t.bl, t.cl) } else { chip_mix(chips[0], t.ar, t.br, t.cr) }
    } else {
        0
    };
    let m1 = if n > 1 {
        if left { chip_mix(chips[1], t.al, t.bl, t.cl) } else { chip_mix(chips[1], t.ar, t.br, t.cr) }
    } else {
        0
    };
    m0 + m1
}

/// The renderer's settings: the number of chips, the level tables, mono or
/// stereo, the filter on or off.
pub type RenderParams = (int, LevelTables, bool, bool);

/// One chip clock rendered: the chips clocked, their mix filtered (left, then
/// right in stereo), the right side a copy of the left in mono.  Gives the
/// chips, the filter and the two levels.
pub open spec fn tick_spec(p: RenderParams, chips: [SoundChip; 2], f: FirView) -> ([SoundChip; 2], FirView, i32, i32) {
    let (n, t, mono, is_filt) = p;
    let c2 = clocked(chips, n);
    let l0 = mix(c2, n, t, true) as i32;
    let r0 = mix(c2, n, t, false) as i32;
    let (f1, l1) = if is_filt { (fir_next(f, l0, true), fir_result(f, l0, true)) } else { (f, l0) };
    let (f2, r1) = if is_filt && !mono { (fir_next(f1, r0, false), fir_result(f1, r0, false)) } else { (f1, r0) };
    (c2, f2, l1, if mono { l1 } else { r1 })
}

/// The first `k` samples of a performance-mode frame: one chip clock per
/// sample, each side clamped to 16 bits.  Gives the chips, the filter and
/// the samples.
pub open spec fn frame_spec(p: RenderParams, chips: [SoundChip; 2], f: FirView, k: nat) -> ([SoundChip; 2], FirView, Seq<StereoSample>)
    decreases k,
{
    if k == 0 {
        (chips, f, Seq::empty())
    } else {
        let (c1, f1, s1) = frame_spec(p, chips, f, (k - 1) as nat);
        let (c2, f2, l, r) = tick_spec(p, c1, f1);
        (c2, f2, s1.push(StereoSample { left: clamp16(l as int), right: clamp16(r as int) }))
    }
}

/// Up to two chips with their level tables, the FIR filter and the
/// decimator, with the settings of a synthesizer.
pub struct Renderer {
    pub chips: [SoundChip; 2],
    pub num_chips: usize,
    pub levels: LevelTables,
    pub mono: bool,
    pub is_filt: bool,
    pub fir: FirState,
    pub dec: Decimator,
    pub delay: i32,
}

proof fn lemma_level_bound(t: [i32; 32], i: int)
    requires
        0 <= i < 32,
        forall|q: int| 0 <= q < 32 ==> -LEVEL_MAX <= #[trigger] t[q] <= LEVEL_MAX,
    ensures
        -LEVEL_MAX <= t[i] <= LEVEL_MAX,
{
}

proof fn lemma_chip_mix_bound(ch: SoundChip, a: [i32; 32], b: [i32; 32], c: [i32; 32])
    requires
        forall|q: int| 0 <= q < 32 ==> -LEVEL_MAX <= #[trigger] a[q] <= LEVEL_MAX,
        forall|q: int| 0 <= q < 32 ==> -LEVEL_MAX <= #[trigger] b[q] <= LEVEL_MAX,
        forall|q: int| 0 <= q < 32 ==> -LEVEL_MAX <= #[trigger] c[q] <= LEVEL_MAX,
    ensures
        -LEVEL_MAX <= ch.level_a(a) <= LEVEL_MAX,
        -LEVEL_MAX <= ch.level_b(b) <= LEVEL_MAX,
        -LEVEL_MAX <= ch.level_c(c) <= LEVEL_MAX,
{
    let ia = crate::chip::level_index(ch.envelope_en_a, ch.registers.amplitude_a, ch.envelope_step);
    let ib = crate::chip::level_index(ch.envelope_en_b, ch.registers.amplitude_b, ch.envelope_step);
    let ic = crate::chip::level_index(ch.envelope_en_c, ch.registers.amplitude_c, ch.envelope_step);
    lemma_level_bound(a, ia);
    lemma_level_bound(b, ib);
    lemma_level_bound(c, ic);
}

proof fn lemma_tables_split(t: LevelTables)
    requires
        tables_fit(t),
    ensures
        forall|q: int| 0 <= q < 32 ==> -LEVEL_MAX <= #[trigger] t.al[q] <= LEVEL_MAX,
        forall|q: int| 0 <= q < 32 ==> -LEVEL_MAX <= #[trigger] t.ar[q] <= LEVEL_MAX,
        forall|q: int| 0 <= q < 32 ==> -LEVEL_MAX <= #[trigger] t.bl[q] <= LEVEL_MAX,
        forall|q: int| 0 <= q < 32 ==> -LEVEL_MAX <= #[trigger] t.br[q] <= LEVEL_MAX,
        forall|q: int| 0 <= q < 32 ==> -LEVEL_MAX <= #[trigger] t.cl[q] <= LEVEL_MAX,
        forall|q: int| 0 <= q < 32 ==> -LEVEL_MAX <= #[trigger] t.cr[q] <= LEVEL_MAX,
{
    assert forall|q: int| 0 <= q < 32 implies -LEVEL_MAX <= #[trigger] t.ar[q] <= LEVEL_MAX by {
        assert(-LEVEL_MAX <= t.al[q] <= LEVEL_MAX);
    }
    assert forall|q: int| 0 <= q < 32 implies -LEVEL_MAX <= #[trigger] t.bl[q] <= LEVEL_MAX by {
        assert(-LEVEL_MAX <= t.al[q] <= LEVEL_MAX);
    }
    assert forall|q: int| 0 <= q < 32 implies -LEVEL_MAX <= #[trigger] t.br[q] <= LEVEL_MAX by {
        assert(-LEVEL_MAX <= t.al[q] <= LEVEL_MAX);
    }
    assert forall|q: int| 0 <= q < 32 implies -LEVEL_MAX <= #[trigger] t.cl[q] <= LEVEL_MAX by {
        assert(-LEVEL_MAX <= t.al[q] <= LEVEL_MAX);
    }
    assert forall|q: int| 0 <= q < 32 implies -LEVEL_MAX <= #[trigger] t.cr[q] <= LEVEL_MAX by {
        assert(-LEVEL_MAX <= t.al[q] <= LEVEL_MAX);
    }
}

/// One chip clocked and its mix added to `lev_l` and `lev_r`.
fn clock_one(c: SoundChip, t: &LevelTables, lev_l: i32, lev_r: i32) -> (r: (SoundChip, i32, i32))
    requires
        chip_ok(c),
        tables_fit(*t),
        -3 * LEVEL_MAX <= lev_l <= 3 * LEVEL_MAX,
        -3 * LEVEL_MAX <= lev_r <= 3 * LEVEL_MAX,
    ensures
        r.0 == after_clock(c),
        chip_ok(r.0),
        r.1 == lev_l + chip_mix(r.0, t.al, t.bl, t.cl),
        r.2 == lev_r + chip_mix(r.0, t.ar, t.br, t.cr),
        -3 * LEVEL_MAX <= chip_mix(r.0, t.al, t.bl, t.cl) <= 3 * LEVEL_MAX,
        -3 * LEVEL_MAX <= chip_mix(r.0, t.ar, t.br, t.cr) <= 3 * LEVEL_MAX,
{
    proof {
        lemma_tables_split(*t);
        lemma_clock_keeps_chip_ok(c);
    }
    let mut ch = c;
    ch.synthesizer_logic_q();
    proof {
        lemma_chip_mix_bound(ch, t.al, t.bl, t.cl);
        lemma_chip_mix_bound(ch, t.ar, t.br, t.cr);
    }
    let mut l = lev_l;
    let mut r = lev_r;
    ch.synthesizer_mixer_q(&t.al, &t.ar, &t.bl, &t.br, &t.cl, &t.cr, &mut l, &mut r);
    (ch, l, r)
}

impl Renderer {
    /// The settings as values.
    pub open spec fn params(&self) -> RenderParams {
        (self.num_chips as int, self.levels, self.mono, self.is_filt)
    }

    /// At most two chips, each with its envelope in range, level tables that
    /// fit (see [`tables_fit`]), a well-formed filter and decimator.
    pub open spec fn ok(&self) -> bool {
        &&& self.num_chips <= 2
        &&& tables_fit(self.levels)
        &&& forall|c: int| 0 <= c < self.num_chips ==> chip_ok(#[trigger] self.chips[c])
        &&& self.fir.wf()
        &&& self.dec.ok(self.delay)
    }

    /// Clock the chips once and mix them (see [`clocked`], [`mix`]).
    fn clock_chips(&mut self) -> (r: (i32, i32))
        requires
            old(self).ok(),
        ensures
            final(self).chips == clocked(old(self).chips, old(self).num_chips as int),
            r.0 == mix(final(self).chips, old(self).num_chips as int, old(self).levels, true),
            r.1 == mix(final(self).chips, old(self).num_chips as int, old(self).levels, false),
            final(self).num_chips == old(self).num_chips,
            final(self).levels == old(self).levels,
            final(self).mono == old(self).mono,
            final(self).is_filt == old(self).is_filt,
            final(self).fir == old(self).fir,
            final(self).dec == old(self).dec,
            final(self).delay == old(self).delay,
            final(self).ok(),
    {
        let n = self.num_chips;
        let t = self.levels;
        let (c0, l1, r1) = if n > 0 {
            proof {
                assert(chip_ok(self.chips[0int]));
            }
            clock_one(self.chips[0], &t, 0, 0)
        } else {
            (self.chips[0], 0, 0)
        };
        let (c1, lev_l, lev_r) = if n > 1 {
            proof {
                assert(chip_ok(self.chips[1int]));
            }
            clock_one(self.chips[1], &t, l1, r1)
        } else {
            (self.chips[1], l1, r1)
        };
        let ghost old_chips = self.chips;
        self.chips = [c0, c1];
        assert(self.chips =~= clocked(old_chips, n as int));
        (lev_l, lev_r)
    }

    /// Render one chip clock: the chips clocked and mixed, the mix filtered,
    /// the right side a copy of the left in mono (see [`tick_spec`]).
    pub fn tick(&mut self) -> (r: (i32, i32))
        requires
            old(self).ok(),
        ensures
            ({
                let (c, f, l, rr) = tick_spec(old(self).params(), old(self).chips, old(self).fir@);
                &&& final(self).chips == c
                &&& final(self).fir@ == f
                &&& r == (l, rr)
            }),
            final(self).params() == old(self).params(),
            final(self).dec == old(self).dec,
            final(self).delay == old(self).delay,
            final(self).ok(),
    {
        let (l0, r0) = self.clock_chips();
        let mut lev_l = l0;
        let mut lev_r = r0;
        if self.is_filt {
            lev_l = self.fir.apply_filter(lev_l, true);
            if !self.mono {
                lev_r = self.fir.apply_filter(lev_r, false);
            }
        }
        if self.mono {
            lev_r = lev_l;
        }
        (lev_l, lev_r)
    }

    /// Render `n_samples` samples in performance mode: one chip clock per
    /// sample, each side clamped to 16 bits (see [`frame_spec`]).
    pub fn render_frame(&mut self, n_samples: u32, out: &mut Vec<StereoSample>)
        requires
            old(self).ok(),
        ensures
            ({
                let (c, f, ss) = frame_spec(old(self).params(), old(self).chips, old(self).fir@, n_samples as nat);
                &&& final(self).chips == c
                &&& final(self).fir@ == f
                &&& final(out)@ == old(out)@ + ss
            }),
            final(self).params() == old(self).params(),
            final(self).dec == old(self).dec,
            final(self).ok(),
    {
        let mut k: u32 = 0;
        while k < n_samples
            invariant
                k <= n_samples,
                self.ok(),
                self.params() == old(self).params(),
                self.dec == old(self).dec,
                ({
                    let (c, f, ss) = frame_spec(old(self).params(), old(self).chips, old(self).fir@, k as nat);
                    &&& self.chips == c
                    &&& self.fir@ == f
                    &&& out@ == old(out)@ + ss
                }),
            decreases n_samples - k,
        {
            let (l, r) = self.tick();
            out.push(StereoSample { left: clamp_i16(l), right: clamp_i16(r) });
            k = k + 1;
            proof {
                let (c1, f1, s1) = frame_spec(old(self).params(), old(self).chips, old(self).fir@, (k - 1) as nat);
                assert(old(out)@ + s1.push(StereoSample { left: clamp16(l as int), right: clamp16(r as int) })
                    =~= out@);
            }
        }
    }

    /// Render one chip clock in quality mode: the samples now due are
    /// appended to `out`, then the chip clock is rendered (see [`tick_spec`])
    /// and its levels shift into the decimator (see [`decimate_step`]).
    pub fn quality_step(&mut self, out: &mut Vec<StereoSample>)
        requires
            old(self).ok(),
            old(self).is_filt ==> interp_fits(old(self).dec),
        ensures
            ({
                let (c, f, l, r) = tick_spec(old(self).params(), old(self).chips, old(self).fir@);
                &&& final(self).chips == c
                &&& final(self).fir@ == f
                &&& final(self).dec == decimated(old(self).dec, l, r, old(self).delay)
                &&& final(out)@ == old(out)@ + due_from(
                    old(self).dec,
                    old(self).dec.tik as int,
                    old(self).delay as int,
                    old(self).is_filt,
                )
            }),
            final(self).params() == old(self).params(),
            final(self).delay == old(self).delay,
            final(self).ok(),
    {
        let (l, r) = self.tick();
        let delay = self.delay;
        let is_filt = self.is_filt;
        decimate_step(&mut self.dec, l, r, delay, is_filt, out);
    }
}

} // verus!
