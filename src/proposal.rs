use vstd::prelude::*;

use crate::error::ErrorCode;
use crate::key::Key;
use crate::registry::{holds_role, MultiSigAccount};
use crate::roles::{APPROVER_POSITION, PROPOSER_POSITION};

verus! {

/// The most resource references a proposal may carry.
pub const MAX_ACCOUNTS: usize = 3;

/// The largest payload a proposal may carry, in bytes.
pub const MAX_DATA_LEN: usize = 1000;

/// A resource reference of a proposed action, with its flags.
#[derive(Clone, Copy, Debug)]
pub struct TransactionAccount {
    pub pubkey: Key,
    pub is_signer: bool,
    pub is_writable: bool,
}

/// One participant's vote on a proposal.
#[derive(Clone, Copy, Debug)]
pub struct ApproverVotes {
    pub key: Key,
    pub favour: bool,
}

/// A proposed action (target program, resource references, payload), its
/// votes in first-vote order, and whether it has been executed.
#[derive(Debug)]
pub struct Proposition {
    pub accounts: Vec<TransactionAccount>,
    pub data: Vec<u8>,
    pub program_id: Key,
    pub signers: Vec<ApproverVotes>,
    pub proposer: Key,
    pub executed_by: Option<Key>,
    pub did_execute: bool,
    pub bump: u8,
    /// The registry's proposal count when this proposal was created.
    pub index: u32,
}

/// No participant has two votes.
pub open spec fn unique_voters(votes: Seq<ApproverVotes>) -> bool {
    forall|i: int, j: int|
        0 <= i < j < votes.len() ==> (#[trigger] votes[i]).key != (#[trigger] votes[j]).key
}

/// The participant `voter` has a vote on record.
pub open spec fn has_voted(votes: Seq<ApproverVotes>, voter: Key) -> bool {
    exists|i: int| 0 <= i < votes.len() && (#[trigger] votes[i]).key == voter
}

/// The participant `voter` has a vote with this favour on record.
pub open spec fn voted_with(votes: Seq<ApproverVotes>, voter: Key, favour: bool) -> bool {
    exists|i: int|
        0 <= i < votes.len() && (#[trigger] votes[i]).key == voter && votes[i].favour == favour
}

/// The votes after `voter` votes with `favour`: an earlier vote is
/// overwritten in place, a first vote is appended.
pub open spec fn record_vote(votes: Seq<ApproverVotes>, voter: Key, favour: bool) -> Seq<
    ApproverVotes,
> {
    if has_voted(votes, voter) {
        votes.map_values(
            |v: ApproverVotes|
                if v.key == voter {
                    ApproverVotes { key: voter, favour }
                } else {
                    v
                },
        )
    } else {
        votes.push(ApproverVotes { key: voter, favour })
    }
}

/// The outcome of a vote: refused on an executed proposal, refused when the
/// voter's favour is already on record, accepted otherwise.
pub open spec fn vote_result(p: Proposition, voter: Key, favour: bool) -> Result<(), ErrorCode> {
    if p.did_execute {
        Err(ErrorCode::TransactionAlreadyExecuted)
    } else if voted_with(p.signers@, voter, favour) {
        Err(ErrorCode::UserAlreadyVoted)
    } else {
        Ok(())
    }
}

/// The number of favourable votes.
pub open spec fn favour_count(votes: Seq<ApproverVotes>) -> nat {
    votes.filter(|v: ApproverVotes| v.favour).len()
}

impl Proposition {
    /// The proposal's invariant: bounded target, one vote per voter, and
    /// an executor on record exactly when it has been executed.
    pub open spec fn wf(&self) -> bool {
        &&& self.accounts.len() <= MAX_ACCOUNTS
        &&& self.data.len() <= MAX_DATA_LEN
        &&& unique_voters(self.signers@)
        &&& self.did_execute == self.executed_by is Some
    }

    /// The target, proposer, numbering and execution state are the same.
    pub open spec fn same_target(&self, other: &Proposition) -> bool {
        &&& self.accounts == other.accounts
        &&& self.data == other.data
        &&& self.program_id == other.program_id
        &&& self.proposer == other.proposer
        &&& self.bump == other.bump
        &&& self.index == other.index
    }

    /// Tests the proposal's invariant.
    pub fn is_valid(&self) -> (r: bool)
        ensures
            r == self.wf(),
    {
        if self.accounts.len() > MAX_ACCOUNTS || self.data.len() > MAX_DATA_LEN {
            return false;
        }
        if self.did_execute != self.executed_by.is_some() {
            return false;
        }
        let mut i: usize = 0;
        while i < self.signers.len()
            invariant
                i <= self.signers.len(),
                forall|a: int, b: int|
                    0 <= a < b < self.signers.len() && a < i ==> (#[trigger] self.signers@[a]).key
                        != (#[trigger] self.signers@[b]).key,
            decreases self.signers.len() - i,
        {
            let mut j: usize = i + 1;
            while j < self.signers.len()
                invariant
                    i < j <= self.signers.len(),
                    forall|a: int, b: int|
                        0 <= a < b < self.signers.len() && a < i ==> (#[trigger] self.signers@[
                            a]).key != (#[trigger] self.signers@[b]).key,
                    forall|b: int|
                        i < b < j ==> self.signers@[i as int].key != (#[trigger] self.signers@[
                            b]).key,
                decreases self.signers.len() - j,
            {
                if self.signers[i].key == self.signers[j].key {
                    return false;
                }
                j = j + 1;
            }
            i = i + 1;
        }
        true
    }

    /// The number of favourable votes.
    pub fn favour_count(&self) -> (r: usize)
        ensures
            r == favour_count(self.signers@),
    {
        let mut count: usize = 0;
        let mut i: usize = 0;
        proof {
            assert(self.signers@.subrange(0, 0) =~= Seq::<ApproverVotes>::empty());
            reveal(Seq::filter);
        }
        while i < self.signers.len()
            invariant
                i <= self.signers.len(),
                count == favour_count(self.signers@.subrange(0, i as int)),
                count <= i,
            decreases self.signers.len() - i,
        {
            proof {
                broadcast use Seq::lemma_filter_push;

                assert(self.signers@.subrange(0, i + 1) =~= self.signers@.subrange(
                    0,
                    i as int,
                ).push(self.signers@[i as int]));
            }
            if self.signers[i].favour {
                count = count + 1;
            }
            i = i + 1;
        }
        proof {
            assert(self.signers@.subrange(0, i as int) =~= self.signers@);
        }
        count
    }

    /// Records the vote of `voter`. Fails on an executed proposal, and when
    /// the voter's vote already has this favour; a vote with the other favour
    /// is overwritten in place.
    pub fn cast_vote(&mut self, voter: Key, favour: bool) -> (r: Result<(), ErrorCode>)
        requires
            old(self).wf(),
        ensures
            final(self).wf(),
            r == vote_result(*old(self), voter, favour),
            r is Ok ==> {
                &&& final(self).signers@ == record_vote(old(self).signers@, voter, favour)
                &&& final(self).same_target(old(self))
                &&& final(self).did_execute == old(self).did_execute
                &&& final(self).executed_by == old(self).executed_by
            },
            r is Err ==> *final(self) == *old(self),
    {
        if self.did_execute {
            return Err(ErrorCode::TransactionAlreadyExecuted);
        }
        let mut i: usize = 0;
        while i < self.signers.len()
            invariant
                i <= self.signers.len(),
                *self == *old(self),
                self.wf(),
                !self.did_execute,
                forall|j: int| 0 <= j < i ==> (#[trigger] self.signers@[j]).key != voter,
            decreases self.signers.len() - i,
        {
            if self.signers[i].key == voter {
                if self.signers[i].favour == favour {
                    assert(voted_with(self.signers@, voter, favour));
                    return Err(ErrorCode::UserAlreadyVoted);
                }
                let ghost before = self.signers@;
                self.signers.set(i, ApproverVotes { key: voter, favour });
                proof {
                    let after = self.signers@;
                    assert forall|j: int| 0 <= j < before.len() implies !(#[trigger] before[j].key
                        == voter && before[j].favour == favour) by {
                        if j != i {
                            if j < i {
                                assert(before[j].key != before[i as int].key);
                            } else {
                                assert(before[i as int].key != before[j].key);
                            }
                        }
                    }
                    assert(has_voted(before, voter));
                    assert(after =~= record_vote(before, voter, favour)) by {
                        assert forall|j: int| 0 <= j < before.len() implies after[j]
                            == record_vote(before, voter, favour)[j] by {
                            if j != i {
                                if j < i {
                                    assert(before[j].key != before[i as int].key);
                                } else {
                                    assert(before[i as int].key != before[j].key);
                                }
                            }
                        }
                    }
                    assert forall|a: int, b: int| 0 <= a < b < after.len() implies (#[trigger] after[
                        a]).key != (#[trigger] after[b]).key by {
                        assert(after[a].key == before[a].key && after[b].key == before[b].key);
                    }
                }
                return Ok(());
            }
            i = i + 1;
        }
        let ghost before = self.signers@;
        self.signers.push(ApproverVotes { key: voter, favour });
        proof {
            let after = self.signers@;
            assert(!has_voted(before, voter));
            assert(!voted_with(before, voter, favour));
            assert forall|a: int, b: int| 0 <= a < b < after.len() implies (#[trigger] after[a]).key
                != (#[trigger] after[b]).key by {
                if b == before.len() {
                    assert(after[a] == before[a]);
                } else {
                    assert(after[a] == before[a] && after[b] == before[b]);
                }
            }
        }
        Ok(())
    }
}

/// Repeating a vote is refused: once the vote of `voter` with `favour` has
/// been recorded, casting the same favour again fails with `UserAlreadyVoted`
/// (and so changes nothing), while casting the other favour is accepted.
pub proof fn lemma_repeated_vote_rejected(p: Proposition, q: Proposition, voter: Key, favour: bool)
    requires
        p.wf(),
        vote_result(p, voter, favour) is Ok,
        q.signers@ == record_vote(p.signers@, voter, favour),
        q.did_execute == p.did_execute,
    ensures
        vote_result(q, voter, favour) == Err::<(), ErrorCode>(ErrorCode::UserAlreadyVoted),
        vote_result(q, voter, !favour) is Ok,
{
    let s = p.signers@;
    let t = q.signers@;
    if has_voted(s, voter) {
        let i = choose|i: int| 0 <= i < s.len() && (#[trigger] s[i]).key == voter;
        assert(t[i].key == voter && t[i].favour == favour);
        assert forall|j: int| 0 <= j < t.len() implies !((#[trigger] t[j]).key == voter
            && t[j].favour == !favour) by {
            if s[j].key != voter {
                assert(t[j] == s[j]);
            }
        }
    } else {
        assert(t[s.len() as int].key == voter && t[s.len() as int].favour == favour);
        assert forall|j: int| 0 <= j < t.len() implies !((#[trigger] t[j]).key == voter
            && t[j].favour == !favour) by {
            if j < s.len() {
                assert(t[j] == s[j]);
            }
        }
    }
}

/// Creates a proposal of `proposer` for the action (`pid`, `accounts`,
/// `data`), numbered with the registry's proposal count, which then grows by
/// one. The proposer must hold the Proposer role, and the resource list and
/// payload must be within their bounds.
pub fn propose(
    multisig: &mut MultiSigAccount,
    proposer: Key,
    pid: Key,
    accounts: Vec<TransactionAccount>,
    data: Vec<u8>,
    bump: u8,
) -> (r: Result<Proposition, ErrorCode>)
    ensures
        !holds_role(old(multisig).users@, proposer, PROPOSER_POSITION) ==> r == Err::<
            Proposition,
            ErrorCode,
        >(ErrorCode::UserNotAuthorized),
        holds_role(old(multisig).users@, proposer, PROPOSER_POSITION) && (accounts.len()
            > MAX_ACCOUNTS || data.len() > MAX_DATA_LEN) ==> r == Err::<Proposition, ErrorCode>(
            ErrorCode::TooLarge,
        ),
        holds_role(old(multisig).users@, proposer, PROPOSER_POSITION) && accounts.len()
            <= MAX_ACCOUNTS && data.len() <= MAX_DATA_LEN && old(multisig).transaction_count
            == u32::MAX ==> r == Err::<Proposition, ErrorCode>(ErrorCode::InvalidCalculation),
        holds_role(old(multisig).users@, proposer, PROPOSER_POSITION) && accounts.len()
            <= MAX_ACCOUNTS && data.len() <= MAX_DATA_LEN && old(multisig).transaction_count
            < u32::MAX ==> r is Ok,
        r matches Ok(p) ==> {
            &&& p.wf()
            &&& p.accounts@ == accounts@
            &&& p.data@ == data@
            &&& p.program_id == pid
            &&& p.signers@.len() == 0
            &&& p.proposer == proposer
            &&& p.executed_by is None
            &&& !p.did_execute
            &&& p.bump == bump
            &&& p.index == old(multisig).transaction_count
            &&& final(multisig).transaction_count == old(multisig).transaction_count + 1
            &&& final(multisig).users == old(multisig).users
            &&& final(multisig).threshold == old(multisig).threshold
            &&& final(multisig).company_id == old(multisig).company_id
            &&& final(multisig).treasury == old(multisig).treasury
            &&& final(multisig).treasury_bump == old(multisig).treasury_bump
            &&& final(multisig).bump == old(multisig).bump
        },
        r is Err ==> *final(multisig) == *old(multisig),
{
    if !multisig.is_proposer(&proposer) {
        return Err(ErrorCode::UserNotAuthorized);
    }
    if accounts.len() > MAX_ACCOUNTS || data.len() > MAX_DATA_LEN {
        return Err(ErrorCode::TooLarge);
    }
    if multisig.transaction_count == u32::MAX {
        return Err(ErrorCode::InvalidCalculation);
    }
    let index = multisig.transaction_count;
    multisig.transaction_count = index + 1;
    Ok(
        Proposition {
            accounts,
            data,
            program_id: pid,
            signers: Vec::new(),
            proposer,
            executed_by: None,
            did_execute: false,
            bump,
            index,
        },
    )
}

/// Casts the vote of `approver`, who must hold the Approver role in the
/// registry at the time of the vote; otherwise as `Proposition::cast_vote`.
pub fn approve(
    multisig: &MultiSigAccount,
    proposal: &mut Proposition,
    approver: Key,
    is_approving: bool,
) -> (r: Result<(), ErrorCode>)
    requires
        old(proposal).wf(),
    ensures
        final(proposal).wf(),
        !holds_role(multisig.users@, approver, APPROVER_POSITION) ==> r == Err::<(), ErrorCode>(
            ErrorCode::UserNotAuthorized,
        ),
        holds_role(multisig.users@, approver, APPROVER_POSITION) ==> r == vote_result(
            *old(proposal),
            approver,
            is_approving,
        ),
        r is Ok ==> {
            &&& final(proposal).signers@ == record_vote(
                old(proposal).signers@,
                approver,
                is_approving,
            )
            &&& final(proposal).same_target(old(proposal))
            &&& final(proposal).did_execute == old(proposal).did_execute
            &&& final(proposal).executed_by == old(proposal).executed_by
        },
        r is Err ==> *final(proposal) == *old(proposal),
{
    if !multisig.is_approver(&approver) {
        return Err(ErrorCode::UserNotAuthorized);
    }
    proposal.cast_vote(approver, is_approving)
}

} // verus!
