use vstd::prelude::*;

verus! {

/// Bit position of the permission to propose.
pub const PROPOSER_POSITION: u8 = 0;

/// Bit position of the permission to vote.
pub const APPROVER_POSITION: u8 = 1;

/// Bit position of the permission to execute an approved proposal.
pub const EXECUTOR_POSITION: u8 = 2;

/// Bit position of the permission to administer the membership.
pub const OWNER_POSITION: u8 = 3;

/// The four roles a participant can hold.
#[derive(Clone, Copy, Debug, PartialEq, Eq, Structural)]
pub enum Role {
    Proposer,
    Approver,
    Executor,
    Owner,
}

impl Role {
    pub open spec fn spec_position(self) -> u8 {
        match self {
            Role::Proposer => PROPOSER_POSITION,
            Role::Approver => APPROVER_POSITION,
            Role::Executor => EXECUTOR_POSITION,
            Role::Owner => OWNER_POSITION,
        }
    }

    /// The bit position of this role in a role mask.
    pub fn position(&self) -> (r: u8)
        ensures
            r == self.spec_position(),
    {
        match self {
            Role::Proposer => PROPOSER_POSITION,
            Role::Approver => APPROVER_POSITION,
            Role::Executor => EXECUTOR_POSITION,
            Role::Owner => OWNER_POSITION,
        }
    }

    /// The role at a bit position, if any role sits there.
    pub fn from_position(p: u8) -> (r: Option<Role>)
        ensures
            r is Some <==> is_valid_position(p),
            r matches Some(role) ==> role.spec_position() == p,
    {
        if p == PROPOSER_POSITION {
            Some(Role::Proposer)
        } else if p == APPROVER_POSITION {
            Some(Role::Approver)
        } else if p == EXECUTOR_POSITION {
            Some(Role::Executor)
        } else if p == OWNER_POSITION {
            Some(Role::Owner)
        } else {
            None
        }
    }
}

/// A position names one of the four roles.
pub open spec fn is_valid_position(p: u8) -> bool {
    p == PROPOSER_POSITION || p == APPROVER_POSITION || p == EXECUTOR_POSITION || p
        == OWNER_POSITION
}

/// Every position of the list names one of the four roles.
pub open spec fn all_valid_positions(roles: Seq<u8>) -> bool {
    forall|i: int| 0 <= i < roles.len() ==> is_valid_position(#[trigger] roles[i])
}

/// Every position of the list fits in an 8-bit mask.
pub open spec fn all_in_mask(roles: Seq<u8>) -> bool {
    forall|i: int| 0 <= i < roles.len() ==> #[trigger] roles[i] < 8
}

/// The permission at `position` is granted in `mask`.
pub open spec fn has_bit(mask: u8, position: u8) -> bool {
    (mask >> position) & 1u8 == 1u8
}

/// The mask whose bit `p` is set exactly when flag `cp` is true.
pub open spec fn mask_from_flags(
    c0: bool,
    c1: bool,
    c2: bool,
    c3: bool,
    c4: bool,
    c5: bool,
    c6: bool,
    c7: bool,
) -> u8 {
    (if c0 { 1u8 } else { 0u8 }) | (if c1 { 2u8 } else { 0u8 }) | (if c2 { 4u8 } else { 0u8 }) | (
    if c3 { 8u8 } else { 0u8 }) | (if c4 { 16u8 } else { 0u8 }) | (if c5 { 32u8 } else { 0u8 }) | (
    if c6 { 64u8 } else { 0u8 }) | (if c7 { 128u8 } else { 0u8 })
}

/// The role mask of a list of positions: bit `p` is set exactly when `p`
/// occurs in the list. Order and repetition do not matter.
pub open spec fn mask_of(roles: Seq<u8>) -> u8 {
    mask_from_flags(
        roles.contains(0),
        roles.contains(1),
        roles.contains(2),
        roles.contains(3),
        roles.contains(4),
        roles.contains(5),
        roles.contains(6),
        roles.contains(7),
    )
}

proof fn lemma_flags_set_bit(
    c0: bool,
    c1: bool,
    c2: bool,
    c3: bool,
    c4: bool,
    c5: bool,
    c6: bool,
    c7: bool,
    x: u8,
)
    by (bit_vector)
    requires
        x < 8,
    ensures
        mask_from_flags(c0, c1, c2, c3, c4, c5, c6, c7) | (1u8 << x) == mask_from_flags(
            c0 || x == 0,
            c1 || x == 1,
            c2 || x == 2,
            c3 || x == 3,
            c4 || x == 4,
            c5 || x == 5,
            c6 || x == 6,
            c7 || x == 7,
        ),
{
}

proof fn lemma_flags_bit(
    c0: bool,
    c1: bool,
    c2: bool,
    c3: bool,
    c4: bool,
    c5: bool,
    c6: bool,
    c7: bool,
    p: u8,
)
    by (bit_vector)
    requires
        p < 8,
    ensures
        has_bit(mask_from_flags(c0, c1, c2, c3, c4, c5, c6, c7), p) == ((p == 0 && c0) || (p == 1
            && c1) || (p == 2 && c2) || (p == 3 && c3) || (p == 4 && c4) || (p == 5 && c5) || (p
            == 6 && c6) || (p == 7 && c7)),
{
}

proof fn lemma_contains_push(s: Seq<u8>, x: u8, p: u8)
    ensures
        s.push(x).contains(p) == (s.contains(p) || p == x),
{
    if s.contains(p) {
        let i = choose|i: int| 0 <= i < s.len() && s[i] == p;
        assert(s.push(x)[i] == p);
    }
    if p == x {
        assert(s.push(x)[s.len() as int] == p);
    }
    if s.push(x).contains(p) {
        let i = choose|i: int| 0 <= i < s.len() + 1 && s.push(x)[i] == p;
        if i < s.len() {
            assert(s[i] == p);
        }
    }
}

/// Adding a position to the list sets its bit in the mask.
proof fn lemma_mask_push(s: Seq<u8>, x: u8)
    requires
        x < 8,
    ensures
        mask_of(s.push(x)) == mask_of(s) | (1u8 << x),
{
    lemma_contains_push(s, x, 0);
    lemma_contains_push(s, x, 1);
    lemma_contains_push(s, x, 2);
    lemma_contains_push(s, x, 3);
    lemma_contains_push(s, x, 4);
    lemma_contains_push(s, x, 5);
    lemma_contains_push(s, x, 6);
    lemma_contains_push(s, x, 7);
    lemma_flags_set_bit(
        s.contains(0),
        s.contains(1),
        s.contains(2),
        s.contains(3),
        s.contains(4),
        s.contains(5),
        s.contains(6),
        s.contains(7),
        x,
    );
}

/// The bit at position `p` of a list's mask is set exactly when `p` is in
/// the list.
pub proof fn lemma_mask_has_bit(roles: Seq<u8>, p: u8)
    requires
        p < 8,
    ensures
        has_bit(mask_of(roles), p) == roles.contains(p),
{
    lemma_flags_bit(
        roles.contains(0),
        roles.contains(1),
        roles.contains(2),
        roles.contains(3),
        roles.contains(4),
        roles.contains(5),
        roles.contains(6),
        roles.contains(7),
        p,
    );
}

/// Encoding depends on the set of positions alone: two lists that hold the
/// same positions, in any order and with any repetition, encode to the same
/// mask.
pub proof fn lemma_encode_ignores_order_and_repetition(a: Seq<u8>, b: Seq<u8>)
    requires
        a.to_set() == b.to_set(),
    ensures
        mask_of(a) == mask_of(b),
{
    assert forall|p: u8| a.contains(p) == b.contains(p) by {
        assert(a.to_set().contains(p) == a.contains(p));
        assert(b.to_set().contains(p) == b.contains(p));
    }
}

/// Encodes a list of role positions as a mask: the OR of `1 << p` over the
/// list.
pub fn give_numeric_value_for_role(roles: Vec<u8>) -> (r: u8)
    requires
        all_in_mask(roles@),
    ensures
        r == mask_of(roles@),
{
    let mut result: u8 = 0;
    let mut i: usize = 0;
    proof {
        assert(roles@.subrange(0, 0) =~= Seq::<u8>::empty());
        assert(mask_from_flags(false, false, false, false, false, false, false, false) == 0u8)
            by (bit_vector);
    }
    while i < roles.len()
        invariant
            i <= roles.len(),
            all_in_mask(roles@),
            result == mask_of(roles@.subrange(0, i as int)),
        decreases roles.len() - i,
    {
        let role = roles[i];
        proof {
            lemma_mask_push(roles@.subrange(0, i as int), role);
            assert(roles@.subrange(0, i + 1) =~= roles@.subrange(0, i as int).push(role));
        }
        result = result | (1u8 << role);
        i = i + 1;
    }
    proof {
        assert(roles@.subrange(0, i as int) =~= roles@);
    }
    result
}

/// True exactly when every position in the list names one of the four roles.
pub fn are_valid_roles(input_roles: &Vec<u8>) -> (r: bool)
    ensures
        r == all_valid_positions(input_roles@),
{
    let mut i: usize = 0;
    while i < input_roles.len()
        invariant
            i <= input_roles.len(),
            forall|j: int| 0 <= j < i ==> is_valid_position(#[trigger] input_roles@[j]),
        decreases input_roles.len() - i,
    {
        if Role::from_position(input_roles[i]).is_none() {
            return false;
        }
        i = i + 1;
    }
    true
}

/// Tests the permission bit at `position` of `mask`.
pub fn mask_has_role(mask: u8, position: u8) -> (r: bool)
    requires
        position < 8,
    ensures
        r == has_bit(mask, position),
{
    (mask >> position) & 1 == 1
}

} // verus!
