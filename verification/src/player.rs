//! Player-side types: commands, diagnostic counters and the sample ring
//! buffer between the renderer and the audio callback.
use crate::synth::StereoSample;
use vstd::prelude::*;

verus! {

/// Commands sent to the player from the UI.
#[derive(Debug, Clone, Copy, PartialEq, Eq, Structural)]
pub enum PlayerCommand {
    Play,
    Pause,
    Stop,
}

/// Snapshot of audio callback and ring-buffer activity.
#[derive(Debug, Clone, Copy, PartialEq, Eq, Structural)]
pub struct AudioDiagnostics {
    pub pushed_samples: u64,
    pub popped_samples: u64,
    pub underrun_frames: u64,
    pub callback_count: u64,
}

impl Default for AudioDiagnostics {
    fn default() -> (r: Self)
        ensures
            r == (AudioDiagnostics {
                pushed_samples: 0,
                popped_samples: 0,
                underrun_frames: 0,
                callback_count: 0,
            }),
    {
        AudioDiagnostics { pushed_samples: 0, popped_samples: 0, underrun_frames: 0, callback_count: 0 }
    }
}

/// The queued samples, oldest first.
impl View for RingBuf {
    type V = Seq<StereoSample>;

    closed spec fn view(&self) -> Seq<StereoSample> {
        Seq::new(self.count() as nat, |i: int| self.data@[self.slot(i)])
    }
}

/// Fixed-capacity FIFO of samples. One slot always stays free, so a buffer of
/// capacity `n` holds at most `n - 1` samples; a sample pushed into a full
/// buffer is dropped.
pub struct RingBuf {
    data: Vec<StereoSample>,
    write: usize,
    read: usize,
    capacity: usize,
}

impl RingBuf {
    /// Internal consistency: both cursors inside the storage.
    pub closed spec fn wf(&self) -> bool {
        &&& self.capacity > 0
        &&& self.data@.len() == self.capacity
        &&& self.read < self.capacity
        &&& self.write < self.capacity
    }

    /// Number of slots (one more than the samples it can hold).
    pub closed spec fn spec_capacity(&self) -> nat {
        self.capacity as nat
    }

    /// Number of queued samples.
    pub closed spec fn count(&self) -> int {
        if self.write >= self.read {
            self.write - self.read
        } else {
            self.write + self.capacity - self.read
        }
    }

    /// Storage slot of the `i`-th queued sample.
    pub closed spec fn slot(&self, i: int) -> int {
        if self.read + i < self.capacity {
            self.read + i
        } else {
            self.read + i - self.capacity
        }
    }

    /// An empty buffer with `capacity` slots.
    pub fn new(capacity: usize) -> (r: Self)
        requires
            capacity > 0,
        ensures
            r.wf(),
            r.spec_capacity() == capacity,
            r@ == Seq::<StereoSample>::empty(),
    {
        let z = StereoSample { left: 0, right: 0 };
        let mut data: Vec<StereoSample> = Vec::new();
        let mut i: usize = 0;
        while i < capacity
            invariant
                i <= capacity,
                data@.len() == i,
            decreases capacity - i,
        {
            data.push(z);
            i = i + 1;
        }
        let r = RingBuf { data, write: 0, read: 0, capacity };
        assert(r@ =~= Seq::<StereoSample>::empty());
        r
    }

    /// Number of queued samples.
    pub fn len(&self) -> (n: usize)
        requires
            self.wf(),
        ensures
            n == self@.len(),
    {
        if self.write >= self.read {
            self.write - self.read
        } else {
            self.write + (self.capacity - self.read)
        }
    }

    /// Number of slots.
    pub fn capacity(&self) -> (n: usize)
        ensures
            n == self.spec_capacity(),
    {
        self.capacity
    }

    /// Append `s` unless the buffer is full (holds `capacity - 1` samples),
    /// in which case `s` is dropped.
    pub fn push(&mut self, s: StereoSample)
        requires
            old(self).wf(),
        ensures
            final(self).wf(),
            final(self).spec_capacity() == old(self).spec_capacity(),
            old(self)@.len() + 1 < old(self).spec_capacity() ==> final(self)@
                == old(self)@.push(s),
            old(self)@.len() + 1 >= old(self).spec_capacity() ==> final(self)@
                == old(self)@,
            final(self)@.len() < final(self).spec_capacity(),
    {
        let next = if self.write + 1 == self.capacity {
            0
        } else {
            self.write + 1
        };
        let ghost old_view = self@;
        if next != self.read {
            self.data.set(self.write, s);
            self.write = next;
            assert(self@ =~= old_view.push(s));
        }
    }

    /// Remove and return the oldest sample, or `None` when empty.
    pub fn pop(&mut self) -> (r: Option<StereoSample>)
        requires
            old(self).wf(),
        ensures
            final(self).wf(),
            final(self).spec_capacity() == old(self).spec_capacity(),
            old(self)@.len() == 0 ==> r is None && final(self)@ == old(self)@,
            old(self)@.len() > 0 ==> r == Some(old(self)@[0]) && final(self)@
                == old(self)@.drop_first(),
    {
        let ghost old_view = self@;
        if self.read == self.write {
            return None;
        }
        let s = self.data[self.read];
        self.read = if self.read + 1 == self.capacity {
            0
        } else {
            self.read + 1
        };
        assert(self@ =~= old_view.drop_first());
        Some(s)
    }
}

/// The ring buffer is first-in first-out: samples pushed into a buffer with
/// room come back out of `pop` in the order they went in.
pub proof fn lemma_fifo(q: Seq<StereoSample>, s: StereoSample)
    ensures
        q.len() > 0 ==> q.push(s)[0] == q[0] && q.push(s).drop_first() == q.drop_first().push(s),
        q.len() == 0 ==> q.push(s)[0] == s && q.push(s).drop_first() == q,
{
    if q.len() > 0 {
        assert(q.push(s).drop_first() =~= q.drop_first().push(s));
    } else {
        assert(q.push(s).drop_first() =~= q);
    }
}

/// The queue after pushing `xs` one by one into a buffer of `cap` slots:
/// each sample is appended while there is room, dropped otherwise.
pub open spec fn after_pushes(q: Seq<StereoSample>, xs: Seq<StereoSample>, cap: nat) -> Seq<StereoSample>
    decreases xs.len(),
{
    if xs.len() == 0 {
        q
    } else {
        after_pushes(
            if q.len() + 1 < cap {
                q.push(xs[0])
            } else {
                q
            },
            xs.drop_first(),
            cap,
        )
    }
}

/// The samples `k` pops take from the queue `q`, in order.
pub open spec fn popped(q: Seq<StereoSample>, k: nat) -> Seq<StereoSample>
    decreases k,
{
    if k == 0 || q.len() == 0 {
        Seq::empty()
    } else {
        seq![q[0]] + popped(q.drop_first(), (k - 1) as nat)
    }
}

proof fn lemma_popped_all(q: Seq<StereoSample>)
    ensures
        popped(q, q.len()) == q,
    decreases q.len(),
{
    if q.len() > 0 {
        lemma_popped_all(q.drop_first());
        assert(seq![q[0]] + q.drop_first() =~= q);
    }
}

proof fn lemma_pushes_with_room(q: Seq<StereoSample>, xs: Seq<StereoSample>, cap: nat)
    requires
        q.len() + xs.len() < cap,
    ensures
        after_pushes(q, xs, cap) == q + xs,
    decreases xs.len(),
{
    if xs.len() > 0 {
        lemma_pushes_with_room(q.push(xs[0]), xs.drop_first(), cap);
        assert(q.push(xs[0]) + xs.drop_first() =~= q + xs);
    } else {
        assert(q + xs =~= q);
    }
}

/// First in, first out over many operations: samples pushed one by one into
/// a buffer with room for all of them are all kept, after those already
/// queued, and popping everything gives them back in the order they went in.
pub proof fn lemma_fifo_many(q: Seq<StereoSample>, xs: Seq<StereoSample>, cap: nat)
    requires
        q.len() + xs.len() < cap,
    ensures
        after_pushes(q, xs, cap) == q + xs,
        popped(after_pushes(q, xs, cap), q.len() + xs.len()) == q + xs,
{
    lemma_pushes_with_room(q, xs, cap);
    lemma_popped_all(q + xs);
}

/// The samples a buffer of `cap` slots holding `q` keeps of the pushes `xs`:
/// the first ones, as many as there is room for.
pub open spec fn kept(q: Seq<StereoSample>, xs: Seq<StereoSample>, cap: nat) -> Seq<StereoSample> {
    let room = cap - 1 - q.len();
    xs.take(if xs.len() < room { xs.len() as int } else { room })
}

proof fn lemma_pushes_when_full(q: Seq<StereoSample>, xs: Seq<StereoSample>, cap: nat)
    requires
        q.len() + 1 >= cap,
    ensures
        after_pushes(q, xs, cap) == q,
    decreases xs.len(),
{
    if xs.len() > 0 {
        lemma_pushes_when_full(q, xs.drop_first(), cap);
    }
}

proof fn lemma_pushes_kept(q: Seq<StereoSample>, xs: Seq<StereoSample>, cap: nat)
    requires
        q.len() < cap,
    ensures
        after_pushes(q, xs, cap) == q + kept(q, xs, cap),
    decreases xs.len(),
{
    if xs.len() == 0 {
        assert(q + kept(q, xs, cap) =~= q);
    } else if q.len() + 1 < cap {
        lemma_pushes_kept(q.push(xs[0]), xs.drop_first(), cap);
        assert(q.push(xs[0]) + kept(q.push(xs[0]), xs.drop_first(), cap) =~= q + kept(q, xs, cap));
    } else {
        lemma_pushes_when_full(q, xs.drop_first(), cap);
        assert(q + kept(q, xs, cap) =~= q);
    }
}

/// First in, first out with a full buffer: of samples pushed one by one
/// into a buffer of `cap` slots holding `q`, the first ones the buffer has
/// room for (`cap - 1` samples in all) are kept after `q` and the others are
/// dropped; popping everything gives `q` and the kept ones back in order.
pub proof fn lemma_fifo_drops_when_full(q: Seq<StereoSample>, xs: Seq<StereoSample>, cap: nat)
    requires
        q.len() < cap,
    ensures
        after_pushes(q, xs, cap) == q + kept(q, xs, cap),
        popped(after_pushes(q, xs, cap), after_pushes(q, xs, cap).len()) == q + kept(q, xs, cap),
{
    lemma_pushes_kept(q, xs, cap);
    lemma_popped_all(q + kept(q, xs, cap));
}

} // verus!

