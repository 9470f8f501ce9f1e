//! The single-slot buffer that hands the latest audio frame from capture to
//! analysis, and the pass that windows the frame in place.

use vstd::prelude::*;

verus! {

/// The contents of a slot that held `held` after `chunk` was offered to it.
///
/// A chunk of exactly the slot's length replaces the contents; any other
/// chunk is dropped and the slot keeps what it had.
pub open spec fn offered<T>(held: Seq<T>, chunk: Seq<T>) -> Seq<T> {
    if chunk.len() == held.len() {
        chunk
    } else {
        held
    }
}

/// One audio frame of fixed length, overwritten by each accepted chunk.
///
/// The slot is meant to sit behind a lock shared by the capture callback and
/// the analysis loop. Its length is set when it is made and never changes.
pub struct FrameSlot<T> {
    samples: Vec<T>,
}

impl<T> View for FrameSlot<T> {
    type V = Seq<T>;

    closed spec fn view(&self) -> Seq<T> {
        self.samples@
    }
}

impl<T: Copy> FrameSlot<T> {
    /// A slot of `len` samples, each equal to `fill`.
    pub fn new(len: usize, fill: T) -> (slot: Self)
        ensures
            slot@ == Seq::new(len as nat, |i: int| fill),
    {
        let mut samples: Vec<T> = Vec::new();
        let mut i: usize = 0;
        while i < len
            invariant
                i <= len,
                samples@ == Seq::new(i as nat, |j: int| fill),
            decreases len - i,
        {
            samples.push(fill);
            i += 1;
        }
        FrameSlot { samples }
    }

    /// The fixed number of samples in the slot.
    pub fn len(&self) -> (n: usize)
        ensures
            n == self@.len(),
    {
        self.samples.len()
    }

    /// Offers a captured chunk to the slot.
    ///
    /// A chunk as long as the slot overwrites every sample; a chunk of any
    /// other length leaves the slot exactly as it was.
    pub fn feed(&mut self, chunk: &[T])
        ensures
            final(self)@ == offered(old(self)@, chunk@),
            chunk@.len() == old(self)@.len() ==> final(self)@ == chunk@,
            chunk@.len() != old(self)@.len() ==> final(self)@ == old(self)@,
            final(self)@.len() == old(self)@.len(),
    {
        let n = self.samples.len();
        if chunk.len() == n {
            let mut i: usize = 0;
            while i < n
                invariant
                    i <= n,
                    n == chunk@.len(),
                    self.samples@.len() == n,
                    forall|j: int| 0 <= j < i ==> self.samples@[j] == chunk@[j],
                decreases n - i,
            {
                self.samples[i] = chunk[i];
                i += 1;
            }
        }
    }

    /// The sample at `index`.
    pub fn get(&self, index: usize) -> (sample: T)
        requires
            index < self@.len(),
        ensures
            sample == self@[index as int],
    {
        self.samples[index]
    }

    /// Replaces the sample at `index`, leaving every other sample alone.
    pub fn set(&mut self, index: usize, sample: T)
        requires
            index < old(self)@.len(),
        ensures
            final(self)@ == old(self)@.update(index as int, sample),
    {
        self.samples[index] = sample;
    }

    /// Applies a window to the frame in place.
    ///
    /// Every sample is replaced, once and in order of its index, by what
    /// `window` returns for the index and the sample; the length stays. A
    /// frame of fewer than two samples has no window: `window` is not called
    /// and the frame is left as it is.
    ///
    /// `window` has to accept only what it is called on: each index of a
    /// frame of two or more samples, with the sample held there.
    pub fn apply_window<F: Fn(usize, T) -> T>(&mut self, window: F)
        requires
            old(self)@.len() > 1 ==> forall|i: int|
                0 <= i < old(self)@.len() ==> call_requires(
                    window,
                    (i as usize, #[trigger] old(self)@[i]),
                ),
        ensures
            final(self)@.len() == old(self)@.len(),
            old(self)@.len() <= 1 ==> final(self)@ == old(self)@,
            old(self)@.len() > 1 ==> forall|i: int|
                0 <= i < old(self)@.len() ==> call_ensures(
                    window,
                    (i as usize, old(self)@[i]),
                    #[trigger] final(self)@[i],
                ),
    {
        let n = self.samples.len();
        if n <= 1 {
            return ;
        }
        let mut i: usize = 0;
        while i < n
            invariant
                i <= n,
                self.samples@.len() == n,
                n == old(self)@.len(),
                forall|j: int|
                    0 <= j < n ==> call_requires(window, (j as usize, #[trigger] old(self)@[j])),
                forall|j: int| i <= j < n ==> self.samples@[j] == old(self)@[j],
                forall|j: int|
                    0 <= j < i ==> call_ensures(
                        window,
                        (j as usize, old(self)@[j]),
                        #[trigger] self.samples@[j],
                    ),
            decreases n - i,
        {
            let held = self.samples[i];
            assert(held == old(self)@[i as int]);
            assert(call_requires(window, (i, held)));
            let windowed = window(i, held);
            self.samples[i] = windowed;
            i += 1;
        }
    }

    /// The whole frame, oldest sample first.
    pub fn samples(&self) -> (all: &[T])
        ensures
            all@ == self@,
    {
        self.samples.as_slice()
    }
}

/// Latest wins: once a chunk of the slot's length has been offered, the slot
/// holds that chunk and nothing of what was offered before it.
pub proof fn lemma_latest_chunk_wins<T>(held: Seq<T>, first: Seq<T>, second: Seq<T>)
    requires
        second.len() == held.len(),
    ensures
        offered(offered(held, first), second) == second,
{
}

/// A chunk whose length differs from the slot's is discarded: the slot holds
/// afterwards what it held before.
pub proof fn lemma_mismatched_chunk_discarded<T>(held: Seq<T>, chunk: Seq<T>)
    requires
        chunk.len() != held.len(),
    ensures
        offered(held, chunk) == held,
{
}

/// Offering a chunk never changes the length of the slot.
pub proof fn lemma_offer_keeps_length<T>(held: Seq<T>, chunk: Seq<T>)
    ensures
        offered(held, chunk).len() == held.len(),
{
}

} // verus!
