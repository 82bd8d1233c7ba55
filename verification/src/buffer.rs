//! Sliding sample window: a fixed-capacity FIFO over the incoming mono
//! sample stream, with an explicit eviction step for overlapped analysis.

use vstd::prelude::*;

verus! {

/// What one `push` does to the buffer contents: append the new sample,
/// evicting the oldest one when the buffer is already at capacity.
pub open spec fn push_model(s: Seq<i64>, x: i64, cap: nat) -> Seq<i64> {
    if s.len() < cap {
        s.push(x)
    } else {
        s.subrange(1, s.len() as int).push(x)
    }
}

/// The buffer contents after pushing every sample of `xs` in order.
pub open spec fn push_all_model(s: Seq<i64>, xs: Seq<i64>, cap: nat) -> Seq<i64>
    decreases xs.len(),
{
    if xs.len() == 0 {
        s
    } else {
        push_all_model(push_model(s, xs[0], cap), xs.subrange(1, xs.len() as int), cap)
    }
}

/// The most recent `WINDOW_SIZE` samples of the stream, oldest first.
pub struct SampleBuffer {
    samples: Vec<i64>,
    capacity: usize,
}

impl SampleBuffer {
    /// The buffered samples, oldest first.
    pub closed spec fn view(&self) -> Seq<i64> {
        self.samples@
    }

    pub closed spec fn cap(&self) -> nat {
        self.capacity as nat
    }

    pub open spec fn wf(&self) -> bool {
        self.view().len() <= self.cap() && 1 <= self.cap()
    }

    pub fn new(capacity: usize) -> (r: SampleBuffer)
        requires
            1 <= capacity,
        ensures
            r.wf(),
            r.cap() == capacity,
            r.view() == Seq::<i64>::empty(),
    {
        SampleBuffer { samples: Vec::new(), capacity }
    }

    pub fn len(&self) -> (r: usize)
        ensures
            r == self.view().len(),
    {
        self.samples.len()
    }

    /// Whether a full analysis window is available.
    pub fn is_ready(&self) -> (r: bool)
        ensures
            r == (self.view().len() >= self.cap()),
    {
        self.samples.len() >= self.capacity
    }

    /// Append one sample; strict FIFO eviction when at capacity.
    pub fn push(&mut self, x: i64)
        requires
            old(self).wf(),
        ensures
            final(self).wf(),
            final(self).cap() == old(self).cap(),
            final(self).view() == push_model(old(self).view(), x, old(self).cap()),
    {
        if self.samples.len() == self.capacity {
            self.samples.remove(0);
        }
        self.samples.push(x);
    }

    /// Append a batch of samples in arrival order.
    pub fn push_all(&mut self, xs: &Vec<i64>)
        requires
            old(self).wf(),
        ensures
            final(self).wf(),
            final(self).cap() == old(self).cap(),
            final(self).view() == push_all_model(old(self).view(), xs@, old(self).cap()),
    {
        let n = xs.len();
        proof {
            assert(xs@.subrange(0, n as int) =~= xs@);
        }
        let mut i: usize = 0;
        while i < n
            invariant
                i <= n,
                n == xs@.len(),
                self.wf(),
                self.cap() == old(self).cap(),
                push_all_model(self.view(), xs@.subrange(i as int, n as int), self.cap())
                    == push_all_model(old(self).view(), xs@, old(self).cap()),
            decreases n - i,
        {
            proof {
                assert(xs@.subrange(i as int, n as int)[0] == xs@[i as int]);
                assert(xs@.subrange(i as int, n as int).subrange(
                    1,
                    xs@.subrange(i as int, n as int).len() as int,
                ) =~= xs@.subrange(i as int + 1, n as int));
            }
            self.push(xs[i]);
            i = i + 1;
        }
        proof {
            assert(xs@.subrange(n as int, n as int) =~= Seq::<i64>::empty());
        }
    }

    /// A copy of the current full window, oldest first, without mutation.
    pub fn snapshot(&self) -> (r: Vec<i64>)
        requires
            self.wf(),
        ensures
            r@ == self.view(),
    {
        let n = self.samples.len();
        let mut out: Vec<i64> = Vec::new();
        let mut i: usize = 0;
        while i < n
            invariant
                i <= n,
                n == self.samples@.len(),
                out@ == self.samples@.subrange(0, i as int),
            decreases n - i,
        {
            out.push(self.samples[i]);
            proof {
                assert(out@ =~= self.samples@.subrange(0, i as int + 1));
            }
            i = i + 1;
        }
        proof {
            assert(self.samples@.subrange(0, n as int) =~= self.samples@);
        }
        out
    }

    /// Evict the `hop` oldest samples, sliding the analysis window forward.
    pub fn advance(&mut self, hop: usize)
        requires
            old(self).wf(),
            hop <= old(self).view().len(),
        ensures
            final(self).wf(),
            final(self).cap() == old(self).cap(),
            final(self).view() == old(self).view().subrange(
                hop as int,
                old(self).view().len() as int,
            ),
    {
        let mut i: usize = 0;
        while i < hop
            invariant
                i <= hop,
                hop <= old(self).view().len(),
                self.wf(),
                self.cap() == old(self).cap(),
                self.view() == old(self).view().subrange(i as int, old(self).view().len() as int),
            decreases hop - i,
        {
            self.samples.remove(0);
            proof {
                assert(self.samples@ =~= old(self).view().subrange(
                    i as int + 1,
                    old(self).view().len() as int,
                ));
            }
            i = i + 1;
        }
    }
}

/// FIFO law: wherever the buffer starts from, after pushing the batch `xs`
/// it holds exactly the last `cap` elements of the concatenated stream
/// (or the whole stream, while that still fits).
pub proof fn lemma_fifo(s: Seq<i64>, xs: Seq<i64>, cap: nat)
    requires
        s.len() <= cap,
        1 <= cap,
    ensures
        push_all_model(s, xs, cap) == if s.len() + xs.len() <= cap {
            s + xs
        } else {
            (s + xs).subrange(s.len() + xs.len() - cap, (s.len() + xs.len()) as int)
        },
    decreases xs.len(),
{
    if xs.len() == 0 {
        if s.len() + xs.len() <= cap {
            assert(push_all_model(s, xs, cap) =~= s + xs);
        } else {
            assert(false);
        }
    } else {
        let s1 = push_model(s, xs[0], cap);
        let xs1 = xs.subrange(1, xs.len() as int);
        lemma_fifo(s1, xs1, cap);
        assert(push_all_model(s, xs, cap) == push_all_model(s1, xs1, cap));
        if s.len() < cap {
            assert(s1 =~= s.push(xs[0]));
            assert(s1 + xs1 =~= s + xs);
            if s1.len() + xs1.len() <= cap {
                assert(push_all_model(s, xs, cap) =~= s + xs);
            } else {
                assert(push_all_model(s, xs, cap) =~= (s + xs).subrange(
                    s.len() + xs.len() - cap,
                    (s.len() + xs.len()) as int,
                ));
            }
        } else {
            assert(s.len() == cap);
            assert(s1 =~= s.subrange(1, s.len() as int).push(xs[0]));
            assert(s1.len() == cap);
            assert(s1 + xs1 =~= (s + xs).subrange(1, (s.len() + xs.len()) as int));
            assert(s1.len() + xs1.len() >= cap);
            if s1.len() + xs1.len() == cap {
                assert(xs1.len() == 0);
                assert(push_all_model(s, xs, cap) == s1 + xs1);
                assert(s1 + xs1 =~= (s + xs).subrange(
                    s.len() + xs.len() - cap,
                    (s.len() + xs.len()) as int,
                ));
            } else {
                assert(push_all_model(s, xs, cap) == (s1 + xs1).subrange(
                    s1.len() + xs1.len() - cap,
                    (s1.len() + xs1.len()) as int,
                ));
                assert((s1 + xs1).subrange(
                    s1.len() + xs1.len() - cap,
                    (s1.len() + xs1.len()) as int,
                ) =~= (s + xs).subrange(s.len() + xs.len() - cap, (s.len() + xs.len()) as int));
            }
        }
    }
}

} // verus!
