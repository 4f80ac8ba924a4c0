use vstd::prelude::*;

verus! {

/// Progress is reported after every this many inferences (and after the last).
pub const PROGRESS_EVERY: usize = 50;

/// Bookkeeping for a run of embedding inferences over `total` documents. When
/// `reset_interval` is positive, the model session is recreated after that
/// many inferences, unless the run is complete; 0 disables resets.
pub struct EmbeddingRun {
    pub total: usize,
    pub reset_interval: usize,
    pub processed: usize,
    pub since_reset: usize,
}

/// What to do after an inference.
pub struct StepActions {
    /// Recreate the model session before the next inference.
    pub reset_session: bool,
    /// Report progress now.
    pub report_progress: bool,
}

impl EmbeddingRun {
    /// No more inferences are counted since the last reset than in all, nor more in all than planned.
    pub open spec fn well_formed(&self) -> bool {
        self.since_reset <= self.processed <= self.total
    }

    pub fn new(total: usize, reset_interval: usize) -> (r: EmbeddingRun)
        ensures
            r == (EmbeddingRun { total, reset_interval, processed: 0, since_reset: 0 }),
            r.well_formed(),
    {
        EmbeddingRun { total, reset_interval, processed: 0, since_reset: 0 }
    }

    /// Records one completed inference and decides what follows it.
    pub fn record_inference(&mut self) -> (a: StepActions)
        requires
            old(self).well_formed(),
            old(self).processed < old(self).total,
        ensures
            final(self).well_formed(),
            ({
                let processed = old(self).processed + 1;
                let since = old(self).since_reset + 1;
                let reset = old(self).reset_interval > 0 && since >= old(self).reset_interval
                    && processed < old(self).total;
                &&& a.reset_session == reset
                &&& a.report_progress == (processed % (PROGRESS_EVERY as int) == 0 || processed
                    == old(self).total)
                &&& *final(self) == EmbeddingRun {
                    processed: processed as usize,
                    since_reset: if reset { 0 } else { since as usize },
                    ..*old(self)
                }
            }),
    {
        self.processed = self.processed + 1;
        self.since_reset = self.since_reset + 1;
        let reset_session = self.reset_interval > 0 && self.since_reset >= self.reset_interval
            && self.processed < self.total;
        if reset_session {
            self.since_reset = 0;
        }
        let report_progress = self.processed % PROGRESS_EVERY == 0 || self.processed == self.total;
        StepActions { reset_session, report_progress }
    }
}

} // verus!
