use vstd::prelude::*;

use crate::error::ErrorCode;
use crate::key::Key;
use crate::roles::{
    all_valid_positions, are_valid_roles, give_numeric_value_for_role, has_bit, mask_has_role,
    mask_of, APPROVER_POSITION, EXECUTOR_POSITION, OWNER_POSITION, PROPOSER_POSITION,
};

verus! {

/// The most participants a registry holds.
pub const MAX_USERS: usize = 20;

/// The mask of a participant that holds all four roles.
pub const ALL_ROLES: u8 = 15;

/// A registered participant and its role mask.
#[derive(Clone, Copy, Debug)]
pub struct UserInfo {
    pub key: Key,
    pub roles: u8,
}

/// The membership registry: participants in insertion order, the number of
/// favourable votes an execution needs, the registry's treasury principal,
/// and the number of proposals created so far.
#[derive(Debug)]
pub struct MultiSigAccount {
    pub company_id: String,
    pub users: Vec<UserInfo>,
    pub threshold: u8,
    pub treasury: Key,
    pub treasury_bump: u8,
    pub transaction_count: u32,
    pub bump: u8,
}

pub open spec fn is_approver_entry(u: UserInfo) -> bool {
    has_bit(u.roles, APPROVER_POSITION)
}

/// The participants that hold the Approver role, in order.
pub open spec fn approvers(users: Seq<UserInfo>) -> Seq<UserInfo> {
    users.filter(|u: UserInfo| is_approver_entry(u))
}

pub open spec fn approver_count(users: Seq<UserInfo>) -> nat {
    approvers(users).len()
}

/// No two participants share a key.
pub open spec fn unique_keys(users: Seq<UserInfo>) -> bool {
    forall|i: int, j: int|
        0 <= i < j < users.len() ==> (#[trigger] users[i]).key != (#[trigger] users[j]).key
}

/// Some participant has this key.
pub open spec fn holds_key(users: Seq<UserInfo>, key: Key) -> bool {
    exists|i: int| 0 <= i < users.len() && (#[trigger] users[i]).key == key
}

/// Some participant with this key holds the permission at `position`.
pub open spec fn holds_role(users: Seq<UserInfo>, key: Key, position: u8) -> bool {
    exists|i: int|
        0 <= i < users.len() && (#[trigger] users[i]).key == key && has_bit(
            users[i].roles,
            position,
        )
}

/// The participants without the one whose key is `key`.
pub open spec fn without_key(users: Seq<UserInfo>, key: Key) -> Seq<UserInfo> {
    users.filter(|u: UserInfo| u.key != key)
}

/// The participants with the mask of `key` replaced by `mask`.
pub open spec fn with_roles(users: Seq<UserInfo>, key: Key, mask: u8) -> Seq<UserInfo> {
    users.map_values(|u: UserInfo| if u.key == key { UserInfo { key: u.key, roles: mask } } else { u })
}

pub open spec fn min_nat(a: nat, b: nat) -> nat {
    if a <= b { a } else { b }
}

impl MultiSigAccount {
    /// The registry's invariant: bounded, keys unique, and the threshold
    /// within reach of the approvers.
    pub open spec fn wf(&self) -> bool {
        &&& self.users.len() <= MAX_USERS
        &&& unique_keys(self.users@)
        &&& self.threshold <= approver_count(self.users@)
    }

    /// Everything but the participants and the threshold is the same.
    pub open spec fn same_identity(&self, other: &MultiSigAccount) -> bool {
        &&& self.company_id == other.company_id
        &&& self.treasury == other.treasury
        &&& self.treasury_bump == other.treasury_bump
        &&& self.transaction_count == other.transaction_count
        &&& self.bump == other.bump
    }

    /// Tests the registry's invariant.
    pub fn is_valid(&self) -> (r: bool)
        ensures
            r == self.wf(),
    {
        if self.users.len() > MAX_USERS {
            return false;
        }
        let mut i: usize = 0;
        while i < self.users.len()
            invariant
                i <= self.users.len(),
                forall|a: int, b: int|
                    0 <= a < b < self.users.len() && a < i ==> (#[trigger] self.users@[a]).key
                        != (#[trigger] self.users@[b]).key,
            decreases self.users.len() - i,
        {
            let mut j: usize = i + 1;
            while j < self.users.len()
                invariant
                    i < j <= self.users.len(),
                    forall|a: int, b: int|
                        0 <= a < b < self.users.len() && a < i ==> (#[trigger] self.users@[a]).key
                            != (#[trigger] self.users@[b]).key,
                    forall|b: int|
                        i < b < j ==> self.users@[i as int].key != (#[trigger] self.users@[b]).key,
                decreases self.users.len() - j,
            {
                if self.users[i].key == self.users[j].key {
                    return false;
                }
                j = j + 1;
            }
            i = i + 1;
        }
        (self.threshold as usize) <= self.approver_count()
    }

    /// The number of participants that hold the Approver role.
    pub fn approver_count(&self) -> (r: usize)
        ensures
            r == approver_count(self.users@),
            r <= self.users.len(),
    {
        let mut count: usize = 0;
        let mut i: usize = 0;
        proof {
            assert(self.users@.subrange(0, 0) =~= Seq::<UserInfo>::empty());
            reveal(Seq::filter);
        }
        while i < self.users.len()
            invariant
                i <= self.users.len(),
                count == approver_count(self.users@.subrange(0, i as int)),
                count <= i,
            decreases self.users.len() - i,
        {
            proof {
                broadcast use Seq::lemma_filter_push;

                assert(self.users@.subrange(0, i + 1) =~= self.users@.subrange(0, i as int).push(
                    self.users@[i as int],
                ));
            }
            if check_role(&self.users[i], APPROVER_POSITION) {
                count = count + 1;
            }
            i = i + 1;
        }
        proof {
            assert(self.users@.subrange(0, i as int) =~= self.users@);
        }
        count
    }

    /// The key belongs to a participant.
    pub fn is_user(&self, user_key: &Key) -> (r: bool)
        ensures
            r == holds_key(self.users@, *user_key),
    {
        position_of(&self.users, user_key).is_some()
    }

    pub fn is_owner(&self, user_key: &Key) -> (r: bool)
        ensures
            r == holds_role(self.users@, *user_key, OWNER_POSITION),
    {
        has_permission(user_key, OWNER_POSITION, self)
    }

    pub fn is_proposer(&self, user_key: &Key) -> (r: bool)
        ensures
            r == holds_role(self.users@, *user_key, PROPOSER_POSITION),
    {
        has_permission(user_key, PROPOSER_POSITION, self)
    }

    pub fn is_approver(&self, user_key: &Key) -> (r: bool)
        ensures
            r == holds_role(self.users@, *user_key, APPROVER_POSITION),
    {
        has_permission(user_key, APPROVER_POSITION, self)
    }

    pub fn is_executor(&self, user_key: &Key) -> (r: bool)
        ensures
            r == holds_role(self.users@, *user_key, EXECUTOR_POSITION),
    {
        has_permission(user_key, EXECUTOR_POSITION, self)
    }
}

/// The mask of all four roles.
proof fn lemma_all_roles_mask()
    ensures
        mask_of(seq![OWNER_POSITION, PROPOSER_POSITION, APPROVER_POSITION, EXECUTOR_POSITION])
            == ALL_ROLES,
{
    let s = seq![OWNER_POSITION, PROPOSER_POSITION, APPROVER_POSITION, EXECUTOR_POSITION];
    assert(s[1] == 0 && s[2] == 1 && s[3] == 2 && s[0] == 3);
    assert forall|p: u8| 4 <= p implies !s.contains(p) by {
        if s.contains(p) {
            let i = choose|i: int| 0 <= i < s.len() && s[i] == p;
            assert(0 <= i < 4);
        }
    }
    assert(crate::roles::mask_from_flags(true, true, true, true, false, false, false, false)
        == 15u8) by (bit_vector);
}

/// Adding a participant never lowers the approver count.
proof fn lemma_approvers_push(users: Seq<UserInfo>, u: UserInfo)
    ensures
        approver_count(users.push(u)) >= approver_count(users),
{
    broadcast use Seq::lemma_filter_len_push;

}

/// Creates a registry whose one participant, `initializer`, holds all four
/// roles, with threshold 1 and no proposals yet.
pub fn initialize_project(
    company_id: String,
    initializer: Key,
    treasury: Key,
    treasury_bump: u8,
    bump: u8,
) -> (r: MultiSigAccount)
    ensures
        r.wf(),
        r.company_id == company_id,
        r.users@ == seq![UserInfo { key: initializer, roles: ALL_ROLES }],
        r.threshold == 1,
        r.treasury == treasury,
        r.treasury_bump == treasury_bump,
        r.transaction_count == 0,
        r.bump == bump,
{
    let roles = give_numeric_value_for_role(
        vec![OWNER_POSITION, PROPOSER_POSITION, APPROVER_POSITION, EXECUTOR_POSITION],
    );
    proof {
        lemma_all_roles_mask();
    }
    let mut users: Vec<UserInfo> = Vec::new();
    users.push(UserInfo { key: initializer, roles });
    let r = MultiSigAccount {
        company_id,
        users,
        threshold: 1,
        treasury,
        treasury_bump,
        transaction_count: 0,
        bump,
    };
    proof {
        let s = r.users@;
        assert(s =~= Seq::<UserInfo>::empty().push(s[0]));
        assert(is_approver_entry(s[0])) by {
            assert(has_bit(15u8, 1u8)) by (bit_vector);
        }
        broadcast use Seq::lemma_filter_len_push;

        reveal(Seq::filter);
        assert(approvers(Seq::<UserInfo>::empty()).len() == 0);
    }
    r
}

/// Registers `user_key` with the roles at the given positions. The signer
/// must hold the Owner role.
pub fn add_user(multisig: &mut MultiSigAccount, signer: Key, user_key: Key, roles: Vec<u8>) -> (r:
    Result<(), ErrorCode>)
    requires
        old(multisig).wf(),
    ensures
        final(multisig).wf(),
        !holds_role(old(multisig).users@, signer, OWNER_POSITION) ==> r == Err::<(), ErrorCode>(
            ErrorCode::UserNotAuthorized,
        ),
        holds_role(old(multisig).users@, signer, OWNER_POSITION) && holds_key(
            old(multisig).users@,
            user_key,
        ) ==> r == Err::<(), ErrorCode>(ErrorCode::UserAlreadyExists),
        holds_role(old(multisig).users@, signer, OWNER_POSITION) && !holds_key(
            old(multisig).users@,
            user_key,
        ) && !all_valid_positions(roles@) ==> r == Err::<(), ErrorCode>(
            ErrorCode::UnsupportedRole,
        ),
        holds_role(old(multisig).users@, signer, OWNER_POSITION) && !holds_key(
            old(multisig).users@,
            user_key,
        ) && all_valid_positions(roles@) && old(multisig).users.len() >= MAX_USERS ==> r
            == Err::<(), ErrorCode>(ErrorCode::MaxUsersReached),
        holds_role(old(multisig).users@, signer, OWNER_POSITION) && !holds_key(
            old(multisig).users@,
            user_key,
        ) && all_valid_positions(roles@) && old(multisig).users.len() < MAX_USERS ==> r is Ok,
        r is Ok ==> {
            &&& final(multisig).users@ == old(multisig).users@.push(
                UserInfo { key: user_key, roles: mask_of(roles@) },
            )
            &&& final(multisig).threshold == old(multisig).threshold
            &&& final(multisig).same_identity(old(multisig))
        },
        r is Err ==> *final(multisig) == *old(multisig),
{
    if !multisig.is_owner(&signer) {
        return Err(ErrorCode::UserNotAuthorized);
    }
    if multisig.is_user(&user_key) {
        return Err(ErrorCode::UserAlreadyExists);
    }
    if !are_valid_roles(&roles) {
        return Err(ErrorCode::UnsupportedRole);
    }
    if multisig.users.len() >= MAX_USERS {
        return Err(ErrorCode::MaxUsersReached);
    }
    let mask = give_numeric_value_for_role(roles);
    let ghost before = multisig.users@;
    let u = UserInfo { key: user_key, roles: mask };
    multisig.users.push(u);
    proof {
        lemma_approvers_push(before, u);
        assert forall|i: int, j: int|
            0 <= i < j < multisig.users@.len() implies (#[trigger] multisig.users@[i]).key
            != (#[trigger] multisig.users@[j]).key by {
            if j == before.len() {
                assert(multisig.users@[i] == before[i]);
            } else {
                assert(multisig.users@[i] == before[i] && multisig.users@[j] == before[j]);
            }
        }
    }
    Ok(())
}

/// Removing a key keeps the others unique and the list no longer.
proof fn lemma_without_key(users: Seq<UserInfo>, key: Key)
    requires
        unique_keys(users),
    ensures
        unique_keys(without_key(users, key)),
        without_key(users, key).len() <= users.len(),
        forall|u: UserInfo| #[trigger] without_key(users, key).contains(u) ==> users.contains(u),
    decreases users.len(),
{
    broadcast use Seq::lemma_filter_push, Seq::lemma_filter_contains_rev, Seq::lemma_filter_len;

    if users.len() > 0 {
        let rest = users.drop_last();
        let x = users.last();
        assert(users =~= rest.push(x));
        assert(unique_keys(rest)) by {
            assert forall|i: int, j: int| 0 <= i < j < rest.len() implies (#[trigger] rest[i]).key
                != (#[trigger] rest[j]).key by {
                assert(rest[i] == users[i] && rest[j] == users[j]);
            }
        }
        lemma_without_key(rest, key);
        let w = without_key(rest, key);
        assert forall|i: int| 0 <= i < w.len() implies (#[trigger] w[i]).key != x.key by {
            assert(w.contains(w[i]));
            assert(rest.contains(w[i]));
            let k = choose|k: int| 0 <= k < rest.len() && rest[k] == w[i];
            assert(users[k] == w[i]);
            assert(users[users.len() - 1] == x);
        }
        if x.key != key {
            let w2 = w.push(x);
            assert forall|i: int, j: int| 0 <= i < j < w2.len() implies (#[trigger] w2[i]).key
                != (#[trigger] w2[j]).key by {
                if j == w.len() {
                    assert(w2[i] == w[i]);
                } else {
                    assert(w2[i] == w[i] && w2[j] == w[j]);
                }
            }
            assert forall|u: UserInfo| #[trigger] w2.contains(u) implies users.contains(u) by {
                if u == x {
                    assert(users[users.len() - 1] == x);
                } else {
                    let k = choose|k: int| 0 <= k < w2.len() && w2[k] == u;
                    assert(w[k] == u);
                    assert(w.contains(u));
                    let m = choose|m: int| 0 <= m < rest.len() && rest[m] == u;
                    assert(users[m] == u);
                }
            }
        } else {
            assert forall|u: UserInfo| #[trigger] w.contains(u) implies users.contains(u) by {
                let m = choose|m: int| 0 <= m < rest.len() && rest[m] == u;
                assert(users[m] == u);
            }
        }
    } else {
        reveal(Seq::filter);
    }
}

/// Lowers the threshold to the approver count where it exceeds it.
fn clamp_threshold(multisig: &mut MultiSigAccount)
    requires
        old(multisig).users.len() <= MAX_USERS,
        unique_keys(old(multisig).users@),
    ensures
        final(multisig).wf(),
        final(multisig).threshold as nat == min_nat(
            old(multisig).threshold as nat,
            approver_count(old(multisig).users@),
        ),
        final(multisig).users == old(multisig).users,
        final(multisig).same_identity(old(multisig)),
{
    let approvers = multisig.approver_count();
    if (multisig.threshold as usize) > approvers {
        multisig.threshold = approvers as u8;
    }
}

/// Removes the participant `user_key`, then lowers the threshold to the
/// approver count where it exceeds it. The signer must hold the Owner role.
pub fn remove_user(multisig: &mut MultiSigAccount, signer: Key, user_key: Key) -> (r: Result<
    (),
    ErrorCode,
>)
    requires
        old(multisig).wf(),
    ensures
        final(multisig).wf(),
        !holds_role(old(multisig).users@, signer, OWNER_POSITION) ==> r == Err::<(), ErrorCode>(
            ErrorCode::UserNotAuthorized,
        ),
        holds_role(old(multisig).users@, signer, OWNER_POSITION) && !holds_key(
            old(multisig).users@,
            user_key,
        ) ==> r == Err::<(), ErrorCode>(ErrorCode::UserDoesNotExists),
        holds_role(old(multisig).users@, signer, OWNER_POSITION) && holds_key(
            old(multisig).users@,
            user_key,
        ) ==> r is Ok,
        r is Ok ==> {
            &&& final(multisig).users@ == without_key(old(multisig).users@, user_key)
            &&& final(multisig).threshold as nat == min_nat(
                old(multisig).threshold as nat,
                approver_count(final(multisig).users@),
            )
            &&& final(multisig).threshold <= old(multisig).threshold
            &&& final(multisig).threshold <= approver_count(final(multisig).users@)
            &&& final(multisig).same_identity(old(multisig))
        },
        r is Err ==> *final(multisig) == *old(multisig),
{
    if !multisig.is_owner(&signer) {
        return Err(ErrorCode::UserNotAuthorized);
    }
    if !multisig.is_user(&user_key) {
        return Err(ErrorCode::UserDoesNotExists);
    }
    let ghost before = multisig.users@;
    let mut kept: Vec<UserInfo> = Vec::new();
    let mut i: usize = 0;
    proof {
        assert(before.subrange(0, 0) =~= Seq::<UserInfo>::empty());
        reveal(Seq::filter);
    }
    while i < multisig.users.len()
        invariant
            i <= multisig.users.len(),
            multisig.users@ == before,
            kept@ == without_key(before.subrange(0, i as int), user_key),
        decreases multisig.users.len() - i,
    {
        let u = multisig.users[i];
        proof {
            broadcast use Seq::lemma_filter_push;

            assert(before.subrange(0, i + 1) =~= before.subrange(0, i as int).push(u));
        }
        if u.key != user_key {
            kept.push(u);
        }
        i = i + 1;
    }
    proof {
        assert(before.subrange(0, i as int) =~= before);
        lemma_without_key(before, user_key);
    }
    multisig.users = kept;
    clamp_threshold(multisig);
    Ok(())
}

/// Replaces the roles of participant `user_key` with those at the given
/// positions, then lowers the threshold to the approver count where it
/// exceeds it. The signer must hold the Owner role.
pub fn update_permission(
    multisig: &mut MultiSigAccount,
    signer: Key,
    user_key: Key,
    roles: Vec<u8>,
) -> (r: Result<(), ErrorCode>)
    requires
        old(multisig).wf(),
    ensures
        final(multisig).wf(),
        !holds_role(old(multisig).users@, signer, OWNER_POSITION) ==> r == Err::<(), ErrorCode>(
            ErrorCode::UserNotAuthorized,
        ),
        holds_role(old(multisig).users@, signer, OWNER_POSITION) && !holds_key(
            old(multisig).users@,
            user_key,
        ) ==> r == Err::<(), ErrorCode>(ErrorCode::UserDoesNotExists),
        holds_role(old(multisig).users@, signer, OWNER_POSITION) && holds_key(
            old(multisig).users@,
            user_key,
        ) && !all_valid_positions(roles@) ==> r == Err::<(), ErrorCode>(
            ErrorCode::UnsupportedRole,
        ),
        holds_role(old(multisig).users@, signer, OWNER_POSITION) && holds_key(
            old(multisig).users@,
            user_key,
        ) && all_valid_positions(roles@) ==> r is Ok,
        r is Ok ==> {
            &&& final(multisig).users@ == with_roles(old(multisig).users@, user_key, mask_of(roles@))
            &&& final(multisig).threshold as nat == min_nat(
                old(multisig).threshold as nat,
                approver_count(final(multisig).users@),
            )
            &&& final(multisig).threshold <= old(multisig).threshold
            &&& final(multisig).threshold <= approver_count(final(multisig).users@)
            &&& final(multisig).same_identity(old(multisig))
        },
        r is Err ==> *final(multisig) == *old(multisig),
{
    if !multisig.is_owner(&signer) {
        return Err(ErrorCode::UserNotAuthorized);
    }
    let found = position_of(&multisig.users, &user_key);
    let idx = match found {
        Some(idx) => idx,
        None => {
            return Err(ErrorCode::UserDoesNotExists);
        },
    };
    if !are_valid_roles(&roles) {
        return Err(ErrorCode::UnsupportedRole);
    }
    let mask = give_numeric_value_for_role(roles);
    let ghost before = multisig.users@;
    multisig.users.set(idx, UserInfo { key: user_key, roles: mask });
    proof {
        let after = multisig.users@;
        assert(after =~= with_roles(before, user_key, mask)) by {
            assert forall|j: int| 0 <= j < before.len() implies after[j] == with_roles(
                before,
                user_key,
                mask,
            )[j] by {
                if j != idx {
                    if j < idx {
                        assert(before[j].key != before[idx as int].key);
                    } else {
                        assert(before[idx as int].key != before[j].key);
                    }
                }
            }
        }
        assert forall|i: int, j: int| 0 <= i < j < after.len() implies (#[trigger] after[i]).key
            != (#[trigger] after[j]).key by {
            assert(after[i].key == before[i].key && after[j].key == before[j].key);
        }
    }
    clamp_threshold(multisig);
    Ok(())
}

/// Sets the threshold. It may not exceed the number of approvers. The signer
/// must hold the Owner role.
pub fn update_threshold(multisig: &mut MultiSigAccount, signer: Key, threshold: u8) -> (r: Result<
    (),
    ErrorCode,
>)
    requires
        old(multisig).wf(),
    ensures
        final(multisig).wf(),
        !holds_role(old(multisig).users@, signer, OWNER_POSITION) ==> r == Err::<(), ErrorCode>(
            ErrorCode::UserNotAuthorized,
        ),
        holds_role(old(multisig).users@, signer, OWNER_POSITION) && threshold > approver_count(
            old(multisig).users@,
        ) ==> r == Err::<(), ErrorCode>(ErrorCode::ThresholdOverflow),
        holds_role(old(multisig).users@, signer, OWNER_POSITION) && threshold <= approver_count(
            old(multisig).users@,
        ) ==> r is Ok,
        r is Ok ==> {
            &&& final(multisig).threshold == threshold
            &&& final(multisig).users == old(multisig).users
            &&& final(multisig).same_identity(old(multisig))
        },
        r is Err ==> *final(multisig) == *old(multisig),
{
    if !multisig.is_owner(&signer) {
        return Err(ErrorCode::UserNotAuthorized);
    }
    let approvers = multisig.approver_count();
    if (threshold as usize) > approvers {
        return Err(ErrorCode::ThresholdOverflow);
    }
    multisig.threshold = threshold;
    Ok(())
}

/// The index of the participant with this key, if there is one.
fn position_of(users: &Vec<UserInfo>, key: &Key) -> (r: Option<usize>)
    ensures
        r is None <==> !holds_key(users@, *key),
        r matches Some(i) ==> i < users.len() && users@[i as int].key == *key,
{
    let mut i: usize = 0;
    while i < users.len()
        invariant
            i <= users.len(),
            forall|j: int| 0 <= j < i ==> (#[trigger] users@[j]).key != *key,
        decreases users.len() - i,
    {
        if users[i].key == *key {
            return Some(i);
        }
        i = i + 1;
    }
    None
}

/// The participant's mask grants the permission at `role`.
pub fn check_role(user: &UserInfo, role: u8) -> (r: bool)
    requires
        role < 8,
    ensures
        r == has_bit(user.roles, role),
{
    mask_has_role(user.roles, role)
}

/// Some participant with this key holds the permission at `role_position`.
pub fn has_permission(user_key: &Key, role_position: u8, multisig: &MultiSigAccount) -> (r: bool)
    requires
        role_position < 8,
    ensures
        r == holds_role(multisig.users@, *user_key, role_position),
{
    let mut i: usize = 0;
    while i < multisig.users.len()
        invariant
            i <= multisig.users.len(),
            role_position < 8,
            forall|j: int|
                0 <= j < i ==> !((#[trigger] multisig.users@[j]).key == *user_key && has_bit(
                    multisig.users@[j].roles,
                    role_position,
                )),
        decreases multisig.users.len() - i,
    {
        if multisig.users[i].key == *user_key && check_role(&multisig.users[i], role_position) {
            return true;
        }
        i = i + 1;
    }
    false
}

} // verus!
