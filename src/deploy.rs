//! Deployment of local commits to a node: which commits the node still needs.
use vstd::prelude::*;

verus! {

/// The local ledger and the node disagree.
#[derive(Debug, Clone, PartialEq, Eq)]
pub enum DeployError {
    /// The node expects the author's next entry in another log than the local entry's.
    LogMismatch { local_log_id: u64, remote_log_id: u64 },
}

/// Decides whether a local entry, at `log_id` and `seq_num`, must be published, given what the
/// node answered about the next entry it expects for that author and document (`None` where
/// it had no answer). An entry before the node's next expected one is known to it already.
pub fn should_publish(log_id: u64, seq_num: u64, next: Option<(u64, u64)>) -> (r: Result<bool, DeployError>)
    ensures
        match next {
            None => r == Ok::<bool, DeployError>(true),
            Some((remote_log_id, next_seq_num)) => if remote_log_id != log_id {
                r == Err::<bool, DeployError>(DeployError::LogMismatch { local_log_id: log_id, remote_log_id })
            } else {
                r == Ok::<bool, DeployError>(seq_num >= next_seq_num)
            },
        },
{
    match next {
        None => Ok(true),
        Some((remote_log_id, next_seq_num)) => {
            if remote_log_id != log_id {
                Err(DeployError::LogMismatch { local_log_id: log_id, remote_log_id })
            } else {
                Ok(seq_num >= next_seq_num)
            }
        },
    }
}

} // verus!
