//! The state of a pipeline run as the runner panel shows it.

use vstd::prelude::*;

verus! {

/// Where a run stands. A run starts idle, is running while files are
/// processed, and ends completed with the number of converted files or
/// failed with a reason.
#[derive(Debug)]
pub enum PipelineStatus {
    Idle,
    Running,
    Completed(usize),
    Failed(String),
}

impl PipelineStatus {
    /// Whether the run has ended.
    pub open spec fn is_terminal(self) -> bool {
        self is Completed || self is Failed
    }

    /// Tests whether the run has ended.
    pub fn ended(&self) -> (r: bool)
        ensures
            r == self.is_terminal(),
    {
        match self {
            PipelineStatus::Completed(_) => true,
            PipelineStatus::Failed(_) => true,
            _ => false,
        }
    }
}

/// What the runner panel knows of a run.
#[derive(Debug)]
pub struct RunProgress {
    pub status: PipelineStatus,
    pub files_processed: usize,
    pub total_files: usize,
}

impl RunProgress {
    /// The state before any run.
    pub fn new() -> (r: RunProgress)
        ensures
            r.status is Idle,
            r.files_processed == 0,
            r.total_files == 0,
    {
        RunProgress { status: PipelineStatus::Idle, files_processed: 0, total_files: 0 }
    }

    /// Takes note of a progress notification. While files are left the run
    /// is running; the last file does not change the status, which the
    /// terminal notification sets.
    pub fn update_progress(&mut self, processed: usize, total: usize)
        ensures
            final(self).files_processed == processed,
            final(self).total_files == total,
            processed < total ==> final(self).status is Running,
            processed >= total ==> final(self).status == old(self).status,
    {
        self.files_processed = processed;
        self.total_files = total;
        if processed < total {
            self.status = PipelineStatus::Running;
        }
    }

    /// Takes note of the successful end of a run.
    pub fn complete_pipeline(&mut self, processed: usize)
        ensures
            final(self).status == PipelineStatus::Completed(processed),
            final(self).files_processed == old(self).files_processed,
            final(self).total_files == old(self).total_files,
    {
        self.status = PipelineStatus::Completed(processed);
    }

    /// Takes note of the failure of a run.
    pub fn fail_pipeline(&mut self, error: String)
        ensures
            final(self).status == PipelineStatus::Failed(error),
            final(self).files_processed == old(self).files_processed,
            final(self).total_files == old(self).total_files,
    {
        self.status = PipelineStatus::Failed(error);
    }
}

} // verus!
