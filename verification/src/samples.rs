//! The tuner's sample window: the audio callback appends each block of input
//! and the window keeps only the most recent samples; the pitch detector reads
//! the latest fixed-size stretch once enough has arrived.

use vstd::prelude::*;
use std::collections::VecDeque;
use vstd::arithmetic::div_mod::{
    lemma_fundamental_div_mod_converse_div, lemma_fundamental_div_mod_converse_mod,
};

verus! {

broadcast use vstd::std_specs::vecdeque::group_vec_dequeue_axioms;

/// The last `cap` elements of `s` (all of `s` when it is shorter).
pub open spec fn keep_latest<T>(s: Seq<T>, cap: nat) -> Seq<T> {
    if s.len() > cap {
        s.subrange(s.len() - cap, s.len() as int)
    } else {
        s
    }
}

/// A bounded window over a stream of samples that keeps the newest ones.
pub struct SampleWindow<T> {
    samples: VecDeque<T>,
    capacity: usize,
}

impl<T> View for SampleWindow<T> {
    type V = Seq<T>;

    closed spec fn view(&self) -> Seq<T> {
        self.samples@
    }
}

impl<T: Copy> SampleWindow<T> {
    /// The number of samples the window keeps at most.
    pub closed spec fn spec_capacity(&self) -> nat {
        self.capacity as nat
    }

    /// An empty window keeping at most `capacity` samples.
    pub fn new(capacity: usize) -> (w: SampleWindow<T>)
        ensures
            w@ == Seq::<T>::empty(),
            w.spec_capacity() == capacity,
    {
        SampleWindow { samples: VecDeque::new(), capacity }
    }

    /// Appends a block of samples, then drops the oldest ones beyond the capacity.
    pub fn push_block(&mut self, block: &[T])
        ensures
            final(self)@ == keep_latest(old(self)@ + block@, old(self).spec_capacity()),
            final(self).spec_capacity() == old(self).spec_capacity(),
    {
        let ghost start = self.samples@;
        let n = block.len();
        for i in 0..n
            invariant
                n == block@.len(),
                self.samples@ == start + block@.take(i as int),
                self.capacity == old(self).capacity,
                start == old(self)@,
        {
            self.samples.push_back(block[i]);
            assert(block@.take(i + 1) =~= block@.take(i as int).push(block@[i as int]));
        }
        assert(block@.take(n as int) =~= block@);
        let ghost full = self.samples@;
        while self.samples.len() > self.capacity
            invariant
                full.len() > self.capacity ==> self.samples@.len() >= self.capacity,
                full.len() <= self.capacity ==> self.samples@ == full,
                full.len() >= self.samples@.len(),
                self.samples@ == full.subrange(full.len() - self.samples@.len(), full.len() as int),
                self.capacity == old(self).capacity,
            decreases self.samples@.len(),
        {
            let ghost before = self.samples@;
            let _ = self.samples.pop_front();
            assert(self.samples@ =~= full.subrange(
                full.len() - self.samples@.len(),
                full.len() as int,
            ));
        }
        proof {
            if full.len() <= self.capacity {
                assert(self.samples@ =~= full);
            }
        }
    }

    /// Number of samples currently held.
    pub fn len(&self) -> (n: usize)
        ensures
            n == self@.len(),
    {
        self.samples.len()
    }

    /// The newest `n` samples, oldest first, once at least `n` have been kept.
    pub fn latest(&self, n: usize) -> (r: Option<Vec<T>>)
        ensures
            n <= self@.len() ==> (r matches Some(v) && v@ == self@.subrange(
                self@.len() - n,
                self@.len() as int,
            )),
            n > self@.len() ==> r is None,
    {
        let len = self.samples.len();
        if len < n {
            return None;
        }
        let start = len - n;
        let mut v: Vec<T> = Vec::new();
        for i in start..len
            invariant
                start == self@.len() - n,
                len == self@.len(),
                v@ == self@.subrange(start as int, i as int),
        {
            v.push(self.samples[i]);
            assert(v@ =~= self@.subrange(start as int, i + 1));
        }
        Some(v)
    }
}

/// Number of frames in `len` interleaved samples of `channels` channels,
/// counting a last incomplete frame.
pub open spec fn frame_count(len: nat, channels: nat) -> nat {
    ((len + channels - 1) / (channels as int)) as nat
}

/// Splits interleaved samples into the first channel and, when there are two
/// or more channels, the second (further channels are dropped). A mono stream
/// is returned as it is.
pub fn split_channels<T: Copy>(samples: &Vec<T>, channels: usize) -> (r: (Vec<T>, Option<Vec<T>>))
    requires
        channels >= 1,
        channels == 1 || (samples@.len() as int) % (channels as int) != 1,
    ensures
        channels == 1 ==> r.0@ == samples@ && r.1 is None,
        channels >= 2 ==> (r.1 matches Some(right) && r.0@.len() == frame_count(
            samples@.len(),
            channels as nat,
        ) && right@.len() == r.0@.len() && forall|i: int|
            0 <= i < r.0@.len() ==> r.0@[i] == samples@[i * channels] && right@[i] == samples@[i
                * channels + 1]),
{
    let n = samples.len();
    if channels == 1 {
        let mut mono: Vec<T> = Vec::new();
        for i in 0..n
            invariant
                n == samples@.len(),
                mono@ == samples@.take(i as int),
        {
            mono.push(samples[i]);
            assert(mono@ =~= samples@.take(i + 1));
        }
        assert(samples@.take(n as int) =~= samples@);
        return (mono, None);
    }
    let mut left: Vec<T> = Vec::new();
    let mut right: Vec<T> = Vec::new();
    let mut p: usize = 0;
    let mut done = false;
    let ghost mut i: int = 0;
    let ghost c = channels as int;
    while !done && p < n
        invariant
            n == samples@.len(),
            c == channels,
            channels >= 2,
            (samples@.len() as int) % c != 1,
            0 <= i,
            p <= n,
            !done ==> p == i * c,
            done ==> p == (i - 1) * c && n <= p + c,
            i > 0 ==> (i - 1) * c < n,
            left@.len() == i,
            right@.len() == i,
            forall|k: int|
                0 <= k < i ==> left@[k] == samples@[k * c] && right@[k] == samples@[k * c + 1],
        decreases n - p + (if done { 0int } else { 1int }),
    {
        if p + 1 == n {
            proof {
                lemma_fundamental_div_mod_converse_mod(n as int, c, i, 1);
            }
        }
        left.push(samples[p]);
        right.push(samples[p + 1]);
        proof {
            assert((i + 1) * c == i * c + c) by (nonlinear_arith);
            i = i + 1;
        }
        if n - p <= channels {
            done = true;
        } else {
            p = p + channels;
        }
    }
    proof {
        assert(i > 0 ==> n <= i * c) by {
            if i > 0 {
                assert((i - 1) * c + c == i * c) by (nonlinear_arith);
            }
        }
        if i == 0 {
            assert(n == 0);
            lemma_fundamental_div_mod_converse_div(n + c - 1, c, 0, c - 1);
        } else {
            assert((i - 1) * c + c == i * c) by (nonlinear_arith);
            lemma_fundamental_div_mod_converse_div(n + c - 1, c, i, n + c - 1 - i * c);
        }
    }
    (left, Some(right))
}

/// Never more than the capacity is kept.
pub proof fn lemma_keep_latest_bounded<T>(s: Seq<T>, cap: nat)
    ensures
        keep_latest(s, cap).len() <= cap || keep_latest(s, cap) == s,
        keep_latest(s, cap).len() == if s.len() > cap { cap } else { s.len() },
{
}

/// Feeding the window block by block keeps the same samples as feeding it all
/// at once: the window always holds the newest samples of the whole stream.
pub proof fn lemma_keep_latest_chunked<T>(a: Seq<T>, b: Seq<T>, cap: nat)
    ensures
        keep_latest(keep_latest(a, cap) + b, cap) == keep_latest(a + b, cap),
{
    let k = keep_latest(a, cap);
    if a.len() > cap {
        let ab = a + b;
        let kb = k + b;
        if kb.len() > cap {
            assert(keep_latest(kb, cap) =~= keep_latest(ab, cap)) by {
                assert forall|i: int| 0 <= i < cap implies keep_latest(kb, cap)[i] == keep_latest(
                    ab,
                    cap,
                )[i] by {
                    let j = kb.len() - cap + i;
                    if j < k.len() {
                        assert(kb[j] == k[j]);
                        assert(ab[ab.len() - cap + i] == a[a.len() - cap + j]);
                    } else {
                        assert(kb[j] == b[j - k.len()]);
                        assert(ab[ab.len() - cap + i] == b[j - k.len()]);
                    }
                }
            }
        }
    } else {
        assert(k == a);
    }
}

} // verus!
