//! A multi-party authorization engine: registered participants hold role
//! masks, proposals collect votes from approvers, and an approved proposal is
//! released for execution at most once.
//!
//! The registry (`MultiSigAccount`) and each proposal (`Proposition`) are
//! plain records. Every operation checks the caller's role against the
//! registry, and either applies its change or returns an `ErrorCode` and
//! leaves the records as they were. Releasing a proposal takes two steps:
//! `prepare_execute` describes the call to make, and `execute` records the
//! outcome of that call.

pub mod error;
pub mod execution;
pub mod key;
pub mod proposal;
pub mod registry;
pub mod roles;

pub use error::ErrorCode;
pub use execution::{execute, prepare_execute, Invocation};
pub use key::Key;
pub use proposal::{
    approve, propose, ApproverVotes, Proposition, TransactionAccount, MAX_ACCOUNTS, MAX_DATA_LEN,
};
pub use registry::{
    add_user, check_role, has_permission, initialize_project, remove_user, update_permission,
    update_threshold, MultiSigAccount, UserInfo, ALL_ROLES, MAX_USERS,
};
pub use roles::{
    are_valid_roles, give_numeric_value_for_role, mask_has_role, Role, APPROVER_POSITION,
    EXECUTOR_POSITION, OWNER_POSITION, PROPOSER_POSITION,
};
