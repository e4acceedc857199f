//! Index rebuild jobs: each runs in the background and is reported as
//! running, completed or failed.
use vstd::prelude::*;

verus! {

/// Where a rebuild job stands.
#[derive(Debug, Clone, Copy, PartialEq, Eq)]
pub enum RebuildState {
    Running,
    Completed,
    Failed,
}

/// What is known of a rebuild job.
#[derive(Debug, Clone)]
pub struct RebuildJobStatus {
    pub status: RebuildState,
    /// Unix time, in seconds, when the job started.
    pub started_at: u64,
    /// Unix time, in seconds, when the job ended, once it has.
    pub finished_at: Option<u64>,
    /// Why the job failed, if it did.
    pub error: Option<String>,
    /// How long the job ran, in milliseconds, once it has ended.
    pub elapsed_ms: Option<u128>,
}

impl RebuildJobStatus {
    /// A job that started at `started_at` and is running.
    pub fn running(started_at: u64) -> (s: RebuildJobStatus)
        ensures
            s.status == RebuildState::Running,
            s.started_at == started_at,
            s.finished_at is None,
            s.error is None,
            s.elapsed_ms is None,
    {
        RebuildJobStatus { status: RebuildState::Running, started_at, finished_at: None, error: None, elapsed_ms: None }
    }

    /// The job once it has ended at `finished_at` after `elapsed_ms`
    /// milliseconds: failed with `error` if there is one, else completed.
    pub fn finished(self, finished_at: u64, error: Option<String>, elapsed_ms: u128) -> (s: RebuildJobStatus)
        ensures
            s.status == (if error is Some { RebuildState::Failed } else { RebuildState::Completed }),
            s.started_at == self.started_at,
            s.finished_at == Some(finished_at),
            s.error == error,
            s.elapsed_ms == Some(elapsed_ms),
    {
        let status = match error {
            Some(_) => RebuildState::Failed,
            None => RebuildState::Completed,
        };
        RebuildJobStatus { status, started_at: self.started_at, finished_at: Some(finished_at), error, elapsed_ms: Some(elapsed_ms) }
    }

    /// The name under which the job's state is reported.
    pub fn status_label(&self) -> (l: &'static str)
        ensures
            self.status == RebuildState::Running ==> l@ == "running"@,
            self.status == RebuildState::Completed ==> l@ == "completed"@,
            self.status == RebuildState::Failed ==> l@ == "failed"@,
    {
        proof {
            reveal_strlit("running");
            reveal_strlit("completed");
            reveal_strlit("failed");
        }
        match self.status {
            RebuildState::Running => "running",
            RebuildState::Completed => "completed",
            RebuildState::Failed => "failed",
        }
    }
}

} // verus!
