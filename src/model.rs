//! Plain data of the ownership tree: accounts, regions, territories and bids,
//! and the tagging of each entity as owned by the active account.
use vstd::prelude::*;

verus! {

/// Id of the global root territory.
pub const ROOT_ID: u128 = 1;

/// Parent id that the root territory carries.
pub const NO_PARENT: u128 = 0;

/// An on-chain account, a 160-bit address split in two words.
#[derive(Clone, Copy, Debug, PartialEq, Eq, Structural)]
pub struct Account {
    pub high: u32,
    pub low: u128,
}

/// An axis-aligned box on the fractal plane, in the ledger's fixed-point
/// units (coordinate plus two, times ten to the eighteenth).
#[derive(Clone, Copy, Debug, PartialEq, Eq, Structural)]
pub struct Field {
    pub x_min: u128,
    pub y_min: u128,
    pub x_max: u128,
    pub y_max: u128,
}

/// A territory: one node of the ownership tree.
#[derive(Clone, Copy, Debug, PartialEq, Eq, Structural)]
pub struct Metadata {
    pub token_id: u128,
    pub parent_id: u128,
    pub field: Field,
    pub owner: Account,
    pub locked_fuel: u128,
    pub minimum_price: u128,
    /// Derived: the territory belongs to the active account.
    pub owned: bool,
}

/// A pending proposal to subdivide a territory.
#[derive(Clone, Copy, Debug, PartialEq, Eq, Structural)]
pub struct Bid {
    pub bid_id: u128,
    pub recipient: Account,
    pub field: Field,
    pub amount: u128,
    pub minimum_price: u128,
    /// Local only: the user has toggled this bid on.
    pub selected: bool,
    /// Derived: the bid's recipient is the active account.
    pub owned: bool,
}

/// `inner` lies within `outer`, borders included.
pub open spec fn field_within(inner: Field, outer: Field) -> bool {
    &&& outer.x_min <= inner.x_min
    &&& outer.y_min <= inner.y_min
    &&& inner.x_max <= outer.x_max
    &&& inner.y_max <= outer.y_max
}

impl Field {
    pub fn is_within(&self, outer: &Field) -> (r: bool)
        ensures
            r == field_within(*self, *outer),
    {
        outer.x_min <= self.x_min && outer.y_min <= self.y_min && self.x_max <= outer.x_max
            && self.y_max <= outer.y_max
    }
}

/// Whether an entity held by `holder` belongs to the active account.
pub open spec fn owned_by(holder: Account, account: Option<Account>) -> bool {
    match account {
        Some(a) => holder == a,
        None => false,
    }
}

pub open spec fn tagged_territory(t: Metadata, account: Option<Account>) -> Metadata {
    Metadata { owned: owned_by(t.owner, account), ..t }
}

pub open spec fn tagged_bid(b: Bid, account: Option<Account>) -> Bid {
    Bid { owned: owned_by(b.recipient, account), ..b }
}

fn is_owned_by(holder: Account, account: Option<Account>) -> (r: bool)
    ensures
        r == owned_by(holder, account),
{
    match account {
        Some(a) => holder == a,
        None => false,
    }
}

impl Metadata {
    /// A copy whose `owned` flag says whether `account` is the owner.
    pub fn tag(&self, account: Option<Account>) -> (r: Metadata)
        ensures
            r == tagged_territory(*self, account),
    {
        Metadata { owned: is_owned_by(self.owner, account), ..*self }
    }
}

impl Bid {
    /// A copy whose `owned` flag says whether `account` is the recipient.
    pub fn tag(&self, account: Option<Account>) -> (r: Bid)
        ensures
            r == tagged_bid(*self, account),
    {
        Bid { owned: is_owned_by(self.recipient, account), ..*self }
    }
}

/// Tagging a territory twice with one account is tagging it once, and with no
/// account it is never marked as owned.
pub proof fn territory_tag_idempotent(t: Metadata, account: Option<Account>)
    ensures
        tagged_territory(tagged_territory(t, account), account) == tagged_territory(t, account),
        !tagged_territory(t, None).owned,
{
}

/// Tagging a bid twice with one account is tagging it once, and with no
/// account it is never marked as owned.
pub proof fn bid_tag_idempotent(b: Bid, account: Option<Account>)
    ensures
        tagged_bid(tagged_bid(b, account), account) == tagged_bid(b, account),
        !tagged_bid(b, None).owned,
{
}

} // verus!
