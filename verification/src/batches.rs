//! Grouping received files into batches and announcing completed batches.
use vstd::prelude::*;

verus! {

/// Counters kept across uploads.
#[derive(Debug, Clone, Copy, PartialEq, Eq)]
pub struct UploadBatches {
    /// Number of the current batch (files less than 2 s apart share one).
    pub upload_batch: u64,
    /// Files announced by the last `/upload-start`, 0 once that batch is done.
    pub batch_expected: u64,
    /// Files received since that announcement.
    pub batch_received_count: u64,
}

/// What follows a received file.
#[derive(Debug, Clone, Copy, PartialEq, Eq)]
pub enum ReceiveSignal {
    /// No batch was announced: play the received sound for this file.
    SoundForFile,
    /// An announced batch advanced to `received` of `expected` files.
    Progress { received: u64, expected: u64 },
    /// The announced batch of `count` files is complete: sound, popup, focus.
    BatchComplete { count: u64 },
}

/// The counters and signal after one more file, arriving `gap_secs` seconds
/// after the previous one.
pub open spec fn after_file(s: UploadBatches, gap_secs: u64) -> (UploadBatches, ReceiveSignal) {
    let batch = if gap_secs >= 2 { (s.upload_batch + 1) as u64 } else { s.upload_batch };
    if s.batch_expected > 0 {
        let cnt = (s.batch_received_count + 1) as u64;
        if cnt >= s.batch_expected {
            (
                UploadBatches { upload_batch: batch, batch_expected: 0, batch_received_count: cnt },
                ReceiveSignal::BatchComplete { count: s.batch_expected },
            )
        } else {
            (
                UploadBatches { upload_batch: batch, batch_expected: s.batch_expected, batch_received_count: cnt },
                ReceiveSignal::Progress { received: cnt, expected: s.batch_expected },
            )
        }
    } else {
        (UploadBatches { upload_batch: batch, ..s }, ReceiveSignal::SoundForFile)
    }
}

impl UploadBatches {
    /// Counters at start-up, and after a reset to defaults.
    pub fn new() -> (r: Self)
        ensures
            r == (UploadBatches { upload_batch: 0, batch_expected: 0, batch_received_count: 0 }),
    {
        UploadBatches { upload_batch: 0, batch_expected: 0, batch_received_count: 0 }
    }

    /// `/upload-start` announced `count` files.
    pub fn start_batch(&mut self, count: u64)
        ensures
            *final(self) == (UploadBatches { batch_expected: count, batch_received_count: 0, ..*old(self) }),
    {
        self.batch_expected = count;
        self.batch_received_count = 0;
    }

    /// A file arrived `gap_secs` seconds after the previous one; returns the
    /// number of its batch and what to announce.
    pub fn file_received(&mut self, gap_secs: u64) -> (r: (u64, ReceiveSignal))
        requires
            gap_secs >= 2 ==> old(self).upload_batch < u64::MAX,
            old(self).batch_expected > 0 ==> old(self).batch_received_count < u64::MAX,
        ensures
            (*final(self), r.1) == after_file(*old(self), gap_secs),
            r.0 == final(self).upload_batch,
    {
        if gap_secs >= 2 {
            self.upload_batch = self.upload_batch + 1;
        }
        let current = self.upload_batch;
        if self.batch_expected > 0 {
            self.batch_received_count = self.batch_received_count + 1;
            if self.batch_received_count >= self.batch_expected {
                let count = self.batch_expected;
                self.batch_expected = 0;
                (current, ReceiveSignal::BatchComplete { count })
            } else {
                (current, ReceiveSignal::Progress { received: self.batch_received_count, expected: self.batch_expected })
            }
        } else {
            (current, ReceiveSignal::SoundForFile)
        }
    }

    /// [`UploadBatches::file_received`], or `None` (counters unchanged) when
    /// a counter that would advance is already at `u64::MAX`.
    pub fn file_received_checked(&mut self, gap_secs: u64) -> (r: Option<(u64, ReceiveSignal)>)
        ensures
            r is None <==> ((gap_secs >= 2 && old(self).upload_batch == u64::MAX)
                || (old(self).batch_expected > 0 && old(self).batch_received_count == u64::MAX)),
            r is None ==> *final(self) == *old(self),
            r matches Some(x) ==> (*final(self), x.1) == after_file(*old(self), gap_secs) && x.0 == final(self).upload_batch,
    {
        if (gap_secs >= 2 && self.upload_batch == u64::MAX) || (self.batch_expected > 0 && self.batch_received_count == u64::MAX) {
            None
        } else {
            Some(self.file_received(gap_secs))
        }
    }
}

/// The signals for files arriving with the given gaps, from counters `s`.
pub open spec fn signals(s: UploadBatches, gaps: Seq<u64>) -> Seq<ReceiveSignal>
    decreases gaps.len(),
{
    if gaps.len() == 0 {
        Seq::empty()
    } else {
        let (s2, sig) = after_file(s, gaps[0]);
        seq![sig] + signals(s2, gaps.skip(1))
    }
}

proof fn lemma_signals_len(s: UploadBatches, gaps: Seq<u64>)
    ensures
        signals(s, gaps).len() == gaps.len(),
    decreases gaps.len(),
{
    if gaps.len() > 0 {
        let (s2, sig) = after_file(s, gaps[0]);
        lemma_signals_len(s2, gaps.skip(1));
    }
}

proof fn lemma_signals(s: UploadBatches, gaps: Seq<u64>, k: nat)
    requires
        s.batch_expected > 0,
        s.batch_received_count + gaps.len() == s.batch_expected,
        k < gaps.len(),
        s.batch_received_count < s.batch_expected,
    ensures
        k + 1 < gaps.len() ==> signals(s, gaps)[k as int] == (ReceiveSignal::Progress {
            received: (s.batch_received_count + k + 1) as u64,
            expected: s.batch_expected,
        }),
        k + 1 == gaps.len() ==> signals(s, gaps)[k as int] == (ReceiveSignal::BatchComplete { count: s.batch_expected }),
    decreases k,
{
    let (s2, sig) = after_file(s, gaps[0]);
    lemma_signals_len(s2, gaps.skip(1));
    let all = signals(s, gaps);
    assert(all == seq![sig] + signals(s2, gaps.skip(1)));
    if k > 0 {
        lemma_signals(s2, gaps.skip(1), (k - 1) as nat);
        assert(all[k as int] == signals(s2, gaps.skip(1))[k - 1]);
    } else {
        assert(all[0] == sig);
    }
}

/// A batch announced with `n > 0` files gives progress for each of its first
/// `n - 1` files and completes exactly with the `n`-th, whatever the gaps
/// between them.
pub proof fn law_batch_completes_with_last_file(s: UploadBatches, n: u64, gaps: Seq<u64>)
    requires
        n > 0,
        gaps.len() == n,
    ensures
        ({
            let started = UploadBatches { batch_expected: n, batch_received_count: 0, ..s };
            let sig = signals(started, gaps);
            &&& forall|i: int| 0 <= i < n - 1 ==> sig[i] == (ReceiveSignal::Progress {
                received: (i + 1) as u64,
                expected: n,
            })
            &&& sig[n - 1] == (ReceiveSignal::BatchComplete { count: n })
        }),
{
    let started = UploadBatches { batch_expected: n, batch_received_count: 0, ..s };
    assert forall|i: int| 0 <= i < n - 1 implies signals(started, gaps)[i] == (ReceiveSignal::Progress {
        received: (i + 1) as u64,
        expected: n,
    }) by {
        lemma_signals(started, gaps, i as nat);
    }
    lemma_signals(started, gaps, (n - 1) as nat);
}

}
