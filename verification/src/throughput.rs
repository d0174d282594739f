//! The sliding window of progress samples an ingest's rate is measured over. Turning the
//! rate into a smoothed time remaining is the caller's.
//!
//! Times are milliseconds on a monotonic clock.
use vstd::prelude::*;

verus! {

/// How far back the rate looks: long enough to ride out files finishing in bursts, short
/// enough that a second card joining shows within seconds.
pub const THROUGHPUT_WINDOW_MS: u64 = 20_000;

/// Samples closer together than this are not worth keeping.
pub const THROUGHPUT_SAMPLE_GAP_MS: u64 = 250;

/// No rate is offered until the window spans at least this long.
pub const THROUGHPUT_MIN_SPAN_MS: u64 = 4_000;

/// `(time, bytes verified so far)` samples, oldest first.
#[derive(Debug, Clone)]
pub struct SampleWindow {
    samples: Vec<(u64, u64)>,
}

/// Each sample at least a gap after the one before, and none older than the window
/// reaches back from the newest.
pub open spec fn well_spaced(s: Seq<(u64, u64)>) -> bool {
    &&& forall|i: int| 0 < i < s.len() ==> s[i - 1].0 + THROUGHPUT_SAMPLE_GAP_MS <= #[trigger] s[i].0
    &&& s.len() > 0 ==> s.last().0 <= s[0].0 + THROUGHPUT_WINDOW_MS
}

/// The leading samples older than the window reaches back from `now` are dropped.
pub open spec fn drop_old(s: Seq<(u64, u64)>, now: u64) -> Seq<(u64, u64)>
    decreases s.len(),
{
    if s.len() > 0 && now > s[0].0 + THROUGHPUT_WINDOW_MS {
        drop_old(s.drop_first(), now)
    } else {
        s
    }
}

/// A sample taken at `now`: ignored when it comes less than a gap after the newest (or
/// before it); else kept, and what it leaves behind the window dropped.
pub open spec fn record_spec(s: Seq<(u64, u64)>, now: u64, bytes: u64) -> Seq<(u64, u64)> {
    if s.len() > 0 && now < s.last().0 + THROUGHPUT_SAMPLE_GAP_MS {
        s
    } else {
        drop_old(s.push((now, bytes)), now)
    }
}

/// Bytes moved and milliseconds taken across the window, when the window spans long
/// enough and something moved.
pub open spec fn rate_spec(s: Seq<(u64, u64)>) -> Option<(u64, u64)> {
    if s.len() == 0 {
        None
    } else {
        let span = s.last().0 - s[0].0;
        if span < THROUGHPUT_MIN_SPAN_MS || s.last().1 <= s[0].1 {
            None
        } else {
            Some(((s.last().1 - s[0].1) as u64, span as u64))
        }
    }
}

proof fn lemma_drop_old(s: Seq<(u64, u64)>, now: u64)
    requires
        forall|i: int| 0 < i < s.len() ==> s[i - 1].0 + THROUGHPUT_SAMPLE_GAP_MS <= #[trigger] s[i].0,
        s.len() > 0,
        s.last().0 == now,
    ensures
        well_spaced(drop_old(s, now)),
        drop_old(s, now).len() > 0,
        drop_old(s, now).last() == s.last(),
    decreases s.len(),
{
    if now > s[0].0 + THROUGHPUT_WINDOW_MS {
        let t = s.drop_first();
        assert forall|i: int| 0 < i < t.len() implies t[i - 1].0 + THROUGHPUT_SAMPLE_GAP_MS <= #[trigger] t[i].0 by {
            assert(s[i].0 + THROUGHPUT_SAMPLE_GAP_MS <= s[i + 1].0);
        }
        lemma_drop_old(t, now);
    }
}

impl SampleWindow {
    pub closed spec fn samples(&self) -> Seq<(u64, u64)> {
        self.samples@
    }

    /// Samples a gap apart, within the window of the newest.
    pub closed spec fn wf(&self) -> bool {
        well_spaced(self.samples@)
    }

    /// No samples.
    pub fn new() -> (r: SampleWindow)
        ensures
            r.wf(),
            r.samples() == Seq::<(u64, u64)>::empty(),
    {
        SampleWindow { samples: Vec::new() }
    }

    pub fn len(&self) -> (r: usize)
        ensures
            r == self.samples().len(),
    {
        self.samples.len()
    }

    /// Records the bytes verified so far at `now`.
    pub fn record(&mut self, now: u64, verified_bytes: u64)
        requires
            old(self).wf(),
        ensures
            final(self).wf(),
            final(self).samples() == record_spec(old(self).samples(), now, verified_bytes),
    {
        let n = self.samples.len();
        if n > 0 && (now < self.samples[n - 1].0 || now - self.samples[n - 1].0 < THROUGHPUT_SAMPLE_GAP_MS) {
            return;
        }
        let ghost s = self.samples@.push((now, verified_bytes));
        proof {
            assert forall|i: int| 0 <= i < n implies #[trigger] self.samples@[i].0 <= now by {
                lemma_spacing_order(self.samples@, i, n - 1);
            }
            assert forall|i: int| 0 < i < s.len() implies s[i - 1].0 + THROUGHPUT_SAMPLE_GAP_MS <= #[trigger] s[i].0 by {
                if i < s.len() - 1 {
                    assert(s[i] == self.samples@[i]);
                }
            }
            lemma_drop_old(s, now);
        }
        let mut start: usize = 0;
        assert(s.skip(0) =~= s);
        while start < n && now - self.samples[start].0 > THROUGHPUT_WINDOW_MS
            invariant
                start <= n,
                n == self.samples@.len(),
                s == self.samples@.push((now, verified_bytes)),
                forall|i: int| 0 <= i < n ==> #[trigger] self.samples@[i].0 <= now,
                drop_old(s, now) == drop_old(s.skip(start as int), now),
            decreases n - start,
        {
            assert(s.skip(start as int)[0] == self.samples@[start as int]);
            assert(s.skip(start as int).drop_first() =~= s.skip(start + 1));
            start += 1;
        }
        let mut kept: Vec<(u64, u64)> = Vec::new();
        let mut i: usize = start;
        while i < n
            invariant
                start <= i <= n,
                n == self.samples@.len(),
                kept@ == self.samples@.subrange(start as int, i as int),
            decreases n - i,
        {
            kept.push(self.samples[i]);
            i += 1;
            assert(kept@ =~= self.samples@.subrange(start as int, i as int));
        }
        kept.push((now, verified_bytes));
        proof {
            let t = s.skip(start as int);
            if start < n {
                assert(!(now > t[0].0 + THROUGHPUT_WINDOW_MS));
            } else {
                assert(t[0] == (now, verified_bytes));
            }
            assert(drop_old(t, now) == t);
            assert(kept@ =~= t);
        }
        self.samples = kept;
    }

    /// Bytes moved and milliseconds taken across the window, or nothing while there is
    /// too little to go on.
    pub fn rate(&self) -> (r: Option<(u64, u64)>)
        requires
            self.wf(),
        ensures
            r == rate_spec(self.samples()),
    {
        let n = self.samples.len();
        if n == 0 {
            return None;
        }
        let (first, first_bytes) = self.samples[0];
        let (last, last_bytes) = self.samples[n - 1];
        proof {
            if n > 1 {
                lemma_spacing_order(self.samples@, 0, n - 1);
            }
        }
        let span = last - first;
        if span < THROUGHPUT_MIN_SPAN_MS || last_bytes <= first_bytes {
            return None;
        }
        Some((last_bytes - first_bytes, span))
    }

    /// Forgets every sample.
    pub fn reset(&mut self)
        ensures
            final(self).wf(),
            final(self).samples() == Seq::<(u64, u64)>::empty(),
    {
        self.samples = Vec::new();
    }
}

proof fn lemma_spacing_order(s: Seq<(u64, u64)>, i: int, j: int)
    requires
        forall|k: int| 0 < k < s.len() ==> s[k - 1].0 + THROUGHPUT_SAMPLE_GAP_MS <= #[trigger] s[k].0,
        0 <= i <= j < s.len(),
    ensures
        s[i].0 + (j - i) * THROUGHPUT_SAMPLE_GAP_MS <= s[j].0,
    decreases j - i,
{
    if i < j {
        lemma_spacing_order(s, i, j - 1);
        assert(s[j - 1].0 + THROUGHPUT_SAMPLE_GAP_MS <= s[j].0);
    }
}

/// However often progress is recorded, the window never holds more samples than fit in it
/// a gap apart: 81.
pub proof fn law_the_window_cannot_grow_without_bound(w: SampleWindow)
    requires
        w.wf(),
    ensures
        w.samples().len() <= THROUGHPUT_WINDOW_MS / THROUGHPUT_SAMPLE_GAP_MS + 1,
{
    let s = w.samples();
    if s.len() > 1 {
        lemma_spacing_order(s, 0, s.len() - 1);
    }
}

} // verus!
