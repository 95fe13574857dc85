use vstd::prelude::*;

verus! {

/// What a group asks of a prospective member: a minimum balance of a token
/// on an external chain.
#[derive(Debug)]
pub struct GroupCriteria {
    pub chain_id: u64,
    /// The token contract on the external chain, in `0x`-hex form.
    pub token_address: String,
    /// The minimum balance, as decimal digits of a number below 2^256.
    pub required_amount: String,
}

/// A group as the store reports it; `exists == false` marks a deleted group.
#[derive(Debug)]
pub struct Group {
    pub group_id: u64,
    pub name: String,
    pub members: Vec<String>,
    pub criteria: GroupCriteria,
    pub exists: bool,
}

/// A request of `member` to join the group `group_id`.
#[derive(Debug)]
pub struct PendingMembership {
    pub group_id: u64,
    pub member: String,
}

/// One pending request paired with a live group of the same id: the unit of
/// work of a tick.
#[derive(Debug)]
pub struct JoinTarget {
    pub group_id: u64,
    pub member: String,
    pub criteria: GroupCriteria,
}

/// The ways a tick can fail.
#[derive(Debug)]
pub enum ReconcileError {
    /// A remote answer did not have the expected shape.
    Decode(String),
    /// The criteria name a chain that has no configured endpoint.
    UnsupportedChain(u64),
    /// A required amount is not the decimal text of a 256-bit number.
    InvalidAmount(String),
    /// A balance answer is not the hex text of a 256-bit number.
    InvalidBalance(String),
    /// A member is not the `0x`-hex text of an address.
    InvalidAddress(String),
    /// The store or a balance endpoint could not be reached.
    Network(String),
    /// A membership transaction was rejected or not included.
    Submission(String),
}

impl GroupCriteria {
    pub fn duplicate(&self) -> (r: GroupCriteria)
        ensures
            r == *self,
    {
        GroupCriteria {
            chain_id: self.chain_id,
            token_address: self.token_address.clone(),
            required_amount: self.required_amount.clone(),
        }
    }
}

impl JoinTarget {
    pub fn duplicate(&self) -> (r: JoinTarget)
        ensures
            r == *self,
    {
        JoinTarget {
            group_id: self.group_id,
            member: self.member.clone(),
            criteria: self.criteria.duplicate(),
        }
    }
}

} // verus!
