//! The error kinds that cross component boundaries.

use vstd::prelude::*;
use vstd::string::StringExecFns;

verus! {

/// What a request to the placement center can fail with.
#[derive(Debug)]
pub enum RobustMQError {
    /// A free-form failure, with its message.
    CommonError(String),
    /// A required parameter was empty; names the parameter.
    ParameterCannotBeNull(String),
    /// No node of the cluster can take the request.
    ClusterNoAvailableNode,
    /// A proposal was not committed in time; names the action. Its outcome
    /// is unknown: it may still commit.
    RaftLogCommitTimeout(String),
    /// The consensus driver reported that a proposal failed; names the action.
    RaftLogCommitFailed(String),
    /// A committed command could not be decoded.
    CommandDecodeFailed,
    /// A stored value could not be decoded.
    ValueDecodeFailed,
}

impl RobustMQError {
    /// A human-readable description.
    pub fn to_string(&self) -> String {
        match self {
            RobustMQError::CommonError(m) => m.clone(),
            RobustMQError::ParameterCannotBeNull(p) => {
                let mut s = p.clone();
                s.append(" cannot be empty");
                s
            },
            RobustMQError::ClusterNoAvailableNode => String::from_str(
                "No available nodes in the cluster",
            ),
            RobustMQError::RaftLogCommitTimeout(a) => {
                let mut s = String::from_str("The interface ");
                s.append(a.as_str());
                s.append(" timed out waiting for its log entry to commit");
                s
            },
            RobustMQError::RaftLogCommitFailed(a) => {
                let mut s = String::from_str("The interface ");
                s.append(a.as_str());
                s.append(" failed to commit its log entry");
                s
            },
            RobustMQError::CommandDecodeFailed => String::from_str(
                "A committed command could not be decoded",
            ),
            RobustMQError::ValueDecodeFailed => String::from_str(
                "A stored value could not be decoded",
            ),
        }
    }
}

} // verus!
