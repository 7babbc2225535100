//! Counters mirrored by the embedding's metrics exporter.
//!
//! The library keeps the counters as plain state with exact contracts; the
//! HTTP endpoint that serves them is the embedding's.

use vstd::prelude::*;

verus! {

/// Which process a metrics endpoint belongs to.
pub enum Process {
    /// The miner process.
    Mine,
    /// The archive process.
    Archive,
    /// The web (RPC) process.
    Web,
}

impl Process {
    /// The fixed metrics port of the process.
    pub fn metrics_port(&self) -> (r: u16)
        ensures
            r == match self {
                Process::Archive => 8875u16,
                Process::Mine => 8874u16,
                Process::Web => 8873u16,
            },
    {
        match self {
            Process::Archive => 8875,
            Process::Mine => 8874,
            Process::Web => 8873,
        }
    }
}

/// The outcome of one RPC request, as the request counter labels it.
pub enum RpcRequestStatus {
    /// The request succeeded.
    Accepted,
    /// The request failed, with the error's code.
    Failed(u32),
}

/// The counters the exporter serves.
pub struct Metrics {
    /// RPC requests that succeeded.
    pub rpc_requests_ok: u64,
    /// RPC requests that failed.
    pub rpc_requests_err: u64,
    /// Mining challenges solved.
    pub mining_challenges_solved: u64,
    /// Mining attempts made.
    pub mining_attempts: u64,
    /// The current mining iteration.
    pub current_mining_iteration: u64,
    /// Spools written to the store.
    pub total_spools_written: u64,
    /// Segments written to the store.
    pub total_segments_written: u64,
}

impl Metrics {
    /// Fresh counters, all zero.
    pub fn new() -> (r: Metrics)
        ensures
            r.rpc_requests_ok == 0,
            r.rpc_requests_err == 0,
            r.mining_challenges_solved == 0,
            r.mining_attempts == 0,
            r.current_mining_iteration == 0,
            r.total_spools_written == 0,
            r.total_segments_written == 0,
    {
        Metrics {
            rpc_requests_ok: 0,
            rpc_requests_err: 0,
            mining_challenges_solved: 0,
            mining_attempts: 0,
            current_mining_iteration: 0,
            total_spools_written: 0,
            total_segments_written: 0,
        }
    }
}

/// Counts one RPC request by its status.
pub fn inc_sn_api_status_total(m: &mut Metrics, status: &RpcRequestStatus)
    ensures
        match status {
            RpcRequestStatus::Accepted => *final(m) == (Metrics {
                rpc_requests_ok: old(m).rpc_requests_ok.saturating_add(1),
                ..*old(m)
            }),
            RpcRequestStatus::Failed(c) => *final(m) == (Metrics {
                rpc_requests_err: old(m).rpc_requests_err.saturating_add(1),
                ..*old(m)
            }),
        },
{
    match status {
        RpcRequestStatus::Accepted => {
            m.rpc_requests_ok = m.rpc_requests_ok.saturating_add(1);
        },
        RpcRequestStatus::Failed(c) => {
            m.rpc_requests_err = m.rpc_requests_err.saturating_add(1);
        },
    }
}

/// Counts one solved mining challenge.
pub fn inc_spool_mining_challenges_solved_total(m: &mut Metrics)
    ensures
        *final(m) == (Metrics {
            mining_challenges_solved: old(m).mining_challenges_solved.saturating_add(1),
            ..*old(m)
        }),
{
    m.mining_challenges_solved = m.mining_challenges_solved.saturating_add(1);
}

/// Counts one mining attempt.
pub fn inc_spool_mining_attempts_total(m: &mut Metrics)
    ensures
        *final(m) == (Metrics {
            mining_attempts: old(m).mining_attempts.saturating_add(1),
            ..*old(m)
        }),
{
    m.mining_attempts = m.mining_attempts.saturating_add(1);
}

/// Records the current mining iteration.
pub fn set_current_mining_iteration(m: &mut Metrics, current_iteration: u64)
    ensures
        *final(m) == (Metrics { current_mining_iteration: current_iteration, ..*old(m) }),
{
    m.current_mining_iteration = current_iteration;
}

/// Counts one spool written.
pub fn inc_total_spools_written(m: &mut Metrics)
    ensures
        *final(m) == (Metrics {
            total_spools_written: old(m).total_spools_written.saturating_add(1),
            ..*old(m)
        }),
{
    m.total_spools_written = m.total_spools_written.saturating_add(1);
}

/// Counts a batch of spools written.
pub fn inc_total_spools_written_batch(m: &mut Metrics, n: u64)
    ensures
        *final(m) == (Metrics {
            total_spools_written: old(m).total_spools_written.saturating_add(n),
            ..*old(m)
        }),
{
    m.total_spools_written = m.total_spools_written.saturating_add(n);
}

/// Counts one segment written.
pub fn inc_total_segments_written(m: &mut Metrics)
    ensures
        *final(m) == (Metrics {
            total_segments_written: old(m).total_segments_written.saturating_add(1),
            ..*old(m)
        }),
{
    m.total_segments_written = m.total_segments_written.saturating_add(1);
}

/// Counts a batch of segments written.
pub fn inc_total_segments_written_batch(m: &mut Metrics, n: u64)
    ensures
        *final(m) == (Metrics {
            total_segments_written: old(m).total_segments_written.saturating_add(n),
            ..*old(m)
        }),
{
    m.total_segments_written = m.total_segments_written.saturating_add(n);
}

/// Counts one RPC request's latency slot and status: the elapsed time is
/// the embedding's to observe; the status lands in the counters.
pub fn record_metrics(m: &mut Metrics, status: &RpcRequestStatus)
    ensures
        match status {
            RpcRequestStatus::Accepted => *final(m) == (Metrics {
                rpc_requests_ok: old(m).rpc_requests_ok.saturating_add(1),
                ..*old(m)
            }),
            RpcRequestStatus::Failed(c) => *final(m) == (Metrics {
                rpc_requests_err: old(m).rpc_requests_err.saturating_add(1),
                ..*old(m)
            }),
        },
{
    inc_sn_api_status_total(m, status);
}

} // verus!
