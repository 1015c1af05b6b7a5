use vstd::prelude::*;

use crate::error::ErrorCode;
use crate::key::Key;
use crate::proposal::{favour_count, vote_result, Proposition, TransactionAccount};
use crate::registry::{holds_role, MultiSigAccount};
use crate::roles::EXECUTOR_POSITION;

verus! {

/// The call that carries out an approved proposal: the target program, the
/// resource references in order, and the payload.
#[derive(Debug)]
pub struct Invocation {
    pub program_id: Key,
    pub accounts: Vec<TransactionAccount>,
    pub data: Vec<u8>,
}

/// The resource references of a proposal other than `key`.
pub open spec fn accounts_without(accounts: Seq<TransactionAccount>, key: Key) -> Seq<
    TransactionAccount,
> {
    accounts.filter(|a: TransactionAccount| a.pubkey != key)
}

/// The resource references handed to the invoker: the treasury first, as a
/// writable signer, then the proposal's references that do not name it.
pub open spec fn invocation_accounts(treasury: Key, accounts: Seq<TransactionAccount>) -> Seq<
    TransactionAccount,
> {
    seq![TransactionAccount { pubkey: treasury, is_signer: true, is_writable: true }]
        + accounts_without(accounts, treasury)
}

/// Whether `executor` may release `p` now: the executor must hold the
/// Executor role, the proposal must not have been executed, and its
/// favourable votes must reach the threshold, checked in that order.
pub open spec fn execute_result(multisig: MultiSigAccount, p: Proposition, executor: Key) -> Result<
    (),
    ErrorCode,
> {
    if !holds_role(multisig.users@, executor, EXECUTOR_POSITION) {
        Err(ErrorCode::UserNotAuthorized)
    } else if p.did_execute {
        Err(ErrorCode::TransactionAlreadyExecuted)
    } else if favour_count(p.signers@) < multisig.threshold {
        Err(ErrorCode::InsufficientVotes)
    } else {
        Ok(())
    }
}

fn check_execute(multisig: &MultiSigAccount, proposal: &Proposition, executor: Key) -> (r: Result<
    (),
    ErrorCode,
>)
    ensures
        r == execute_result(*multisig, *proposal, executor),
{
    if !multisig.is_executor(&executor) {
        return Err(ErrorCode::UserNotAuthorized);
    }
    if proposal.did_execute {
        return Err(ErrorCode::TransactionAlreadyExecuted);
    }
    if proposal.favour_count() < multisig.threshold as usize {
        return Err(ErrorCode::InsufficientVotes);
    }
    Ok(())
}

/// The invocation that releases `proposal`, if `executor` may release it
/// now; the error of `execute_result` otherwise.
pub fn prepare_execute(multisig: &MultiSigAccount, proposal: &Proposition, executor: Key) -> (r:
    Result<Invocation, ErrorCode>)
    ensures
        r is Ok <==> execute_result(*multisig, *proposal, executor) is Ok,
        r matches Err(e) ==> execute_result(*multisig, *proposal, executor) == Err::<(), ErrorCode>(
            e,
        ),
        r matches Ok(inv) ==> {
            &&& inv.program_id == proposal.program_id
            &&& inv.accounts@ == invocation_accounts(multisig.treasury, proposal.accounts@)
            &&& inv.data@ == proposal.data@
        },
{
    match check_execute(multisig, proposal, executor) {
        Err(e) => {
            return Err(e);
        },
        Ok(()) => {},
    }
    let treasury = multisig.treasury;
    let mut accounts: Vec<TransactionAccount> = Vec::new();
    accounts.push(TransactionAccount { pubkey: treasury, is_signer: true, is_writable: true });
    let ghost head = accounts@;
    let mut i: usize = 0;
    proof {
        assert(proposal.accounts@.subrange(0, 0) =~= Seq::<TransactionAccount>::empty());
        reveal(Seq::filter);
        assert(accounts@ =~= head + accounts_without(Seq::<TransactionAccount>::empty(), treasury));
    }
    while i < proposal.accounts.len()
        invariant
            i <= proposal.accounts.len(),
            treasury == multisig.treasury,
            head == seq![TransactionAccount { pubkey: treasury, is_signer: true, is_writable: true }],
            accounts@ == head + accounts_without(proposal.accounts@.subrange(0, i as int), treasury),
        decreases proposal.accounts.len() - i,
    {
        let account = proposal.accounts[i];
        proof {
            broadcast use Seq::lemma_filter_push;

            assert(proposal.accounts@.subrange(0, i + 1) =~= proposal.accounts@.subrange(
                0,
                i as int,
            ).push(account));
        }
        if account.pubkey != treasury {
            accounts.push(account);
            proof {
                let prev = accounts_without(proposal.accounts@.subrange(0, i as int), treasury);
                assert(accounts@ =~= head + prev.push(account));
            }
        }
        i = i + 1;
    }
    proof {
        assert(proposal.accounts@.subrange(0, i as int) =~= proposal.accounts@);
    }
    let data = copy_bytes(&proposal.data);
    Ok(Invocation { program_id: proposal.program_id, accounts, data })
}

fn copy_bytes(v: &Vec<u8>) -> (r: Vec<u8>)
    ensures
        r@ == v@,
{
    let mut out: Vec<u8> = Vec::new();
    let mut i: usize = 0;
    while i < v.len()
        invariant
            i <= v.len(),
            out@ == v@.subrange(0, i as int),
        decreases v.len() - i,
    {
        out.push(v[i]);
        proof {
            assert(v@.subrange(0, i + 1) =~= v@.subrange(0, i as int).push(v@[i as int]));
        }
        i = i + 1;
    }
    proof {
        assert(v@.subrange(0, i as int) =~= v@);
    }
    out
}

/// Records the release of `proposal` by `executor`, given whether the
/// invocation that `prepare_execute` described succeeded. Nothing changes
/// when the checks of `execute_result` fail, nor when the invocation failed;
/// otherwise the proposal is marked executed by `executor`.
pub fn execute(
    multisig: &MultiSigAccount,
    proposal: &mut Proposition,
    executor: Key,
    invoked: bool,
) -> (r: Result<(), ErrorCode>)
    requires
        old(proposal).wf(),
    ensures
        final(proposal).wf(),
        execute_result(*multisig, *old(proposal), executor) is Err ==> r == execute_result(
            *multisig,
            *old(proposal),
            executor,
        ),
        execute_result(*multisig, *old(proposal), executor) is Ok && !invoked ==> r == Err::<
            (),
            ErrorCode,
        >(ErrorCode::InvocationFailed),
        execute_result(*multisig, *old(proposal), executor) is Ok && invoked ==> r is Ok,
        r is Ok ==> {
            &&& final(proposal).did_execute
            &&& final(proposal).executed_by == Some(executor)
            &&& final(proposal).signers == old(proposal).signers
            &&& final(proposal).same_target(old(proposal))
        },
        r is Err ==> *final(proposal) == *old(proposal),
{
    match check_execute(multisig, proposal, executor) {
        Err(e) => {
            return Err(e);
        },
        Ok(()) => {},
    }
    if !invoked {
        return Err(ErrorCode::InvocationFailed);
    }
    proposal.did_execute = true;
    proposal.executed_by = Some(executor);
    Ok(())
}

/// Execution happens at most once. After `execute` succeeds on `p`, giving
/// `q`, every later attempt on `q` by a holder of the Executor role fails with
/// `TransactionAlreadyExecuted`, under any registry, and no vote on `q` is
/// accepted any more, so its tally is frozen.
pub proof fn lemma_execute_at_most_once(
    multisig: MultiSigAccount,
    p: Proposition,
    executor: Key,
    q: Proposition,
    later: MultiSigAccount,
    later_executor: Key,
    voter: Key,
    favour: bool,
)
    requires
        execute_result(multisig, p, executor) is Ok,
        q.did_execute,
        q.executed_by == Some(executor),
        q.signers == p.signers,
        q.same_target(&p),
        holds_role(later.users@, later_executor, EXECUTOR_POSITION),
    ensures
        execute_result(later, q, later_executor) == Err::<(), ErrorCode>(
            ErrorCode::TransactionAlreadyExecuted,
        ),
        vote_result(q, voter, favour) == Err::<(), ErrorCode>(
            ErrorCode::TransactionAlreadyExecuted,
        ),
{
}

} // verus!
