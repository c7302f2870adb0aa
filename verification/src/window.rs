//! The bounded audio window: a FIFO of samples with a capacity, and the mean
//! absolute amplitude of its newest samples.

use std::collections::VecDeque;
use vstd::prelude::*;

verus! {

/// The amplitude of a full-scale sample: a sample counts millionths of it.
pub const FULL_SCALE: i32 = 1_000_000;

/// The last `n` items of `s`, or all of `s` where it holds no more than `n`.
pub open spec fn keep_last<T>(s: Seq<T>, n: nat) -> Seq<T> {
    if s.len() <= n {
        s
    } else {
        s.subrange(s.len() - n, s.len() as int)
    }
}

/// The chunks laid end to end, first chunk first.
pub open spec fn concat_chunks<T>(chunks: Seq<Seq<T>>) -> Seq<T>
    decreases chunks.len(),
{
    if chunks.len() == 0 {
        Seq::empty()
    } else {
        concat_chunks(chunks.drop_last()) + chunks.last()
    }
}

/// The views of the chunks, in order.
pub open spec fn chunk_views<T>(chunks: Seq<Vec<T>>) -> Seq<Seq<T>> {
    Seq::new(chunks.len(), |i: int| chunks[i]@)
}

/// Laying one more chunk at the end appends that chunk.
pub proof fn lemma_concat_chunks_step<T>(chunks: Seq<Seq<T>>, i: int)
    requires
        0 <= i < chunks.len(),
    ensures
        concat_chunks(chunks.take(i + 1)) == concat_chunks(chunks.take(i)) + chunks[i],
{
    assert(chunks.take(i + 1).drop_last() =~= chunks.take(i));
}

/// Appends every chunk of `new_data` to the back of `buffer`, oldest chunk
/// first, then drops items from the front until at most `buf_size` are left.
pub fn buffer_audio<T>(buffer: &mut VecDeque<T>, new_data: Vec<Vec<T>>, buf_size: usize)
    ensures
        final(buffer)@ == keep_last(
            old(buffer)@ + concat_chunks(chunk_views(new_data@)),
            buf_size as nat,
        ),
{
    let ghost before = buffer@;
    let ghost all = chunk_views(new_data@);
    for chunk in it: new_data
        invariant
            it.seq() == new_data@,
            all == chunk_views(new_data@),
            buffer@ == before + concat_chunks(all.take(it.index())),
    {
        let ghost prefix = buffer@;
        let ghost whole = chunk@;
        for sample in inner: chunk
            invariant
                inner.seq() == whole,
                buffer@ == prefix + whole.take(inner.index()),
        {
            buffer.push_back(sample);
        }
        proof {
            lemma_concat_chunks_step(all, it.index());
        }
    }
    let ghost total = buffer@;
    let ghost mut dropped: int = 0;
    assert(all.take(all.len() as int) =~= all);
    while buffer.len() > buf_size
        invariant
            0 <= dropped <= total.len(),
            buffer@ == total.subrange(dropped, total.len() as int),
            dropped == 0 || total.len() - dropped >= buf_size,
        decreases buffer.len(),
    {
        let _ = buffer.pop_front();
        proof {
            dropped = dropped + 1;
        }
    }
}

/// The absolute value of a sample.
pub open spec fn magnitude(sample: i32) -> nat {
    if sample < 0 {
        (-sample) as nat
    } else {
        sample as nat
    }
}

/// The sum of the absolute values of the samples.
pub open spec fn total_magnitude(samples: Seq<i32>) -> nat
    decreases samples.len(),
{
    if samples.len() == 0 {
        0
    } else {
        total_magnitude(samples.drop_last()) + magnitude(samples.last())
    }
}

/// The mean absolute amplitude of the samples, rounded down; 0 for none.
pub open spec fn mean_magnitude(samples: Seq<i32>) -> nat {
    if samples.len() == 0 {
        0
    } else {
        total_magnitude(samples) / samples.len()
    }
}

/// The mean absolute amplitude of the newest `window_size` samples, or of all
/// of them where there are fewer.
pub open spec fn loudness_of(samples: Seq<i32>, window_size: nat) -> nat {
    mean_magnitude(keep_last(samples, window_size))
}

/// A sequence of `count` silent samples.
pub open spec fn silence(count: nat) -> Seq<i32> {
    Seq::new(count, |i: int| 0i32)
}

/// Every sample has the absolute value `amplitude`.
pub open spec fn constant_amplitude(samples: Seq<i32>, amplitude: nat) -> bool {
    forall|i: int| 0 <= i < samples.len() ==> magnitude(#[trigger] samples[i]) == amplitude
}

/// The window after each of `chunks` was pushed in turn into a window that
/// held `start`.
pub open spec fn after_pushes(start: Seq<i32>, chunks: Seq<Seq<i32>>, capacity: nat) -> Seq<i32>
    decreases chunks.len(),
{
    if chunks.len() == 0 {
        start
    } else {
        keep_last(after_pushes(start, chunks.drop_last(), capacity) + chunks.last(), capacity)
    }
}

/// The absolute value of a sample as an unsigned number.
pub fn sample_magnitude(sample: i32) -> (m: u32)
    ensures
        m == magnitude(sample),
        m <= 0x8000_0000,
{
    if sample >= 0 {
        sample as u32
    } else {
        let wide: i64 = sample as i64;
        (-wide) as u32
    }
}

/// A fixed-capacity FIFO of audio samples. A push appends at the tail and the
/// oldest samples leave at the head once the capacity is exceeded.
pub struct SampleWindow {
    samples: VecDeque<i32>,
    capacity: usize,
}

impl View for SampleWindow {
    type V = Seq<i32>;

    closed spec fn view(&self) -> Seq<i32> {
        self.samples@
    }
}

impl SampleWindow {
    /// The capacity the window was made with.
    pub closed spec fn limit(&self) -> nat {
        self.capacity as nat
    }

    /// The window holds no more samples than its capacity.
    pub open spec fn wf(&self) -> bool {
        self@.len() <= self.limit()
    }

    /// An empty window.
    pub fn new(capacity: usize) -> (w: SampleWindow)
        ensures
            w@ == Seq::<i32>::empty(),
            w.limit() == capacity,
            w.wf(),
    {
        SampleWindow { samples: VecDeque::new(), capacity }
    }

    /// A window filled to its capacity with silence.
    pub fn silent(capacity: usize) -> (w: SampleWindow)
        ensures
            w@ == silence(capacity as nat),
            w.limit() == capacity,
            w.wf(),
    {
        let mut samples: VecDeque<i32> = VecDeque::new();
        let mut filled: usize = 0;
        while filled < capacity
            invariant
                filled <= capacity,
                samples@ == silence(filled as nat),
            decreases capacity - filled,
        {
            samples.push_back(0);
            filled = filled + 1;
        }
        SampleWindow { samples, capacity }
    }

    /// The number of samples held.
    pub fn len(&self) -> (n: usize)
        ensures
            n == self@.len(),
    {
        self.samples.len()
    }

    /// The capacity of the window.
    pub fn capacity(&self) -> (c: usize)
        ensures
            c == self.limit(),
    {
        self.capacity
    }

    /// The samples held, oldest first.
    pub fn samples(&self) -> (samples: &VecDeque<i32>)
        ensures
            samples@ == self@,
    {
        &self.samples
    }

    /// The sample at `index`, counted from the oldest.
    pub fn get(&self, index: usize) -> (sample: Option<i32>)
        ensures
            sample == if index < self@.len() {
                Some(self@[index as int])
            } else {
                None
            },
    {
        if index < self.samples.len() {
            Some(self.samples[index])
        } else {
            None
        }
    }

    /// Appends the chunk at the tail, then evicts the oldest samples until
    /// the window is within its capacity again.
    pub fn push(&mut self, chunk: Vec<i32>)
        ensures
            final(self)@ == keep_last(old(self)@ + chunk@, old(self).limit()),
            final(self).limit() == old(self).limit(),
            final(self).wf(),
    {
        let mut chunks: Vec<Vec<i32>> = Vec::new();
        chunks.push(chunk);
        assert(concat_chunks(chunk_views(chunks@).drop_last()) =~= Seq::<i32>::empty());
        self.extend(chunks);
    }

    /// Appends the chunks in order, then evicts the oldest samples until the
    /// window is within its capacity again.
    pub fn extend(&mut self, chunks: Vec<Vec<i32>>)
        ensures
            final(self)@ == keep_last(
                old(self)@ + concat_chunks(chunk_views(chunks@)),
                old(self).limit(),
            ),
            final(self).limit() == old(self).limit(),
            final(self).wf(),
    {
        let capacity = self.capacity;
        buffer_audio(&mut self.samples, chunks, capacity);
    }

    /// The mean absolute amplitude of the newest `window_size` samples,
    /// rounded down: of all samples where the window holds fewer, and 0 where
    /// it holds none or `window_size` is 0.
    pub fn loudness(&self, window_size: usize) -> (mean: u32)
        ensures
            mean == loudness_of(self@, window_size as nat),
    {
        let len = self.samples.len();
        let count = if window_size < len {
            window_size
        } else {
            len
        };
        if count == 0 {
            return 0;
        }
        let first = len - count;
        let ghost newest = keep_last(self@, window_size as nat);
        let mut sum: u128 = 0;
        let mut taken: usize = 0;
        while taken < count
            invariant
                taken <= count,
                count <= len,
                first == len - count,
                len == self.samples@.len(),
                newest == self.samples@.subrange(first as int, len as int),
                sum == total_magnitude(newest.take(taken as int)),
                sum <= taken * 0x8000_0000,
            decreases count - taken,
        {
            let m = sample_magnitude(self.samples[first + taken]);
            assert(newest.take(taken + 1).drop_last() =~= newest.take(taken as int));
            sum = sum + m as u128;
            taken = taken + 1;
        }
        assert(newest.take(count as int) =~= newest);
        assert(sum / (count as u128) <= 0x8000_0000) by (nonlinear_arith)
            requires
                sum <= count * 0x8000_0000,
                count > 0,
        ;
        (sum / count as u128) as u32
    }

    /// A copy of the samples from `start` to the newest, oldest first; of none
    /// where `start` is past the end.
    pub fn snapshot_from(&self, start: usize) -> (samples: Vec<i32>)
        ensures
            samples@ == if start <= self@.len() {
                self@.subrange(start as int, self@.len() as int)
            } else {
                Seq::<i32>::empty()
            },
    {
        let len = self.samples.len();
        let mut out: Vec<i32> = Vec::new();
        if start > len {
            return out;
        }
        let mut i: usize = start;
        while i < len
            invariant
                start <= i <= len,
                len == self.samples@.len(),
                out@ == self.samples@.subrange(start as int, i as int),
            decreases len - i,
        {
            out.push(self.samples[i]);
            i = i + 1;
        }
        out
    }
}

/// However many chunks are pushed, the window never holds more than its
/// capacity, and it holds the newest samples of everything that was ever in
/// it or pushed into it, in the order of arrival.
pub proof fn lemma_pushes_keep_newest(start: Seq<i32>, chunks: Seq<Seq<i32>>, capacity: nat)
    requires
        start.len() <= capacity,
    ensures
        after_pushes(start, chunks, capacity).len() <= capacity,
        after_pushes(start, chunks, capacity) == keep_last(
            start + concat_chunks(chunks),
            capacity,
        ),
    decreases chunks.len(),
{
    if chunks.len() > 0 {
        let earlier = chunks.drop_last();
        lemma_pushes_keep_newest(start, earlier, capacity);
        // What is evicted before the last chunk arrives would be evicted after it too.
        let everything = start + concat_chunks(earlier);
        assert(keep_last(keep_last(everything, capacity) + chunks.last(), capacity) =~= keep_last(
            everything + chunks.last(),
            capacity,
        ));
    }
}

/// The summed magnitude of samples of one amplitude is their count times it.
pub proof fn lemma_total_of_constant(samples: Seq<i32>, amplitude: nat)
    requires
        constant_amplitude(samples, amplitude),
    ensures
        total_magnitude(samples) == samples.len() * amplitude,
    decreases samples.len(),
{
    if samples.len() > 0 {
        lemma_total_of_constant(samples.drop_last(), amplitude);
        assert((samples.len() - 1) * amplitude + amplitude == samples.len() * amplitude)
            by (nonlinear_arith);
    }
}

/// Over silence the loudness is 0, and over samples that all have the
/// amplitude `amplitude` it is exactly `amplitude`, whatever the window size,
/// as long as at least one sample is averaged.
pub proof fn lemma_loudness_of_constant(samples: Seq<i32>, amplitude: nat, window_size: nat)
    requires
        constant_amplitude(samples, amplitude),
    ensures
        amplitude == 0 ==> loudness_of(samples, window_size) == 0,
        samples.len() > 0 && window_size > 0 ==> loudness_of(samples, window_size) == amplitude,
{
    let newest = keep_last(samples, window_size);
    lemma_total_of_constant(newest, amplitude);
    if newest.len() > 0 {
        assert((newest.len() * amplitude) / newest.len() == amplitude) by (nonlinear_arith)
            requires
                newest.len() > 0,
        ;
    }
}

} // verus!
