//! The data model: markets, positions, accounts, profiles and responses.
//!
//! Amounts are fixed-point units (see `fixed`).  An account holds at most one
//! open position per market; share supplies of a market always equal the sum
//! of the open positions on it, which the ledger's well-formedness predicate
//! (see the crate root) states and every operation preserves.

use vstd::prelude::*;

use crate::fixed::{MAX_SHARES, SCALE};

verus! {

/// A user-visible profile.
#[derive(Clone, Debug)]
pub struct Profile {
    pub name: String,
    pub description: String,
}

impl Default for Profile {
    fn default() -> (p: Profile)
        ensures
            p.name@ == Seq::<char>::empty(),
            p.description@ == Seq::<char>::empty(),
    {
        Profile { name: String::new(), description: String::new() }
    }
}

pub type MarketName = String;

/// A market: unique immutable name, description, and the outstanding share
/// supply of each side, in units.
#[derive(Clone, Debug)]
pub struct Market {
    pub name: MarketName,
    pub description: String,
    pub yes_shares: u64,
    pub no_shares: u64,
}

/// Which side of a binary market a share is on.
#[derive(Clone, Copy, Debug, PartialEq, Eq, Structural)]
pub enum Share {
    Yes,
    No,
}

impl Market {
    /// Share supplies a market may reach; the pricing engine accepts exactly
    /// these.
    pub open spec fn valid(self) -> bool {
        self.yes_shares <= MAX_SHARES && self.no_shares <= MAX_SHARES
    }

    /// The supply of one side, in units.
    pub open spec fn supply(self, share: Share) -> int {
        match share {
            Share::Yes => self.yes_shares as int,
            Share::No => self.no_shares as int,
        }
    }

    pub fn new(name: MarketName, description: String) -> (m: Market)
        ensures
            m.name == name,
            m.description == description,
            m.yes_shares == 0,
            m.no_shares == 0,
    {
        Market { name, description, yes_shares: 0, no_shares: 0 }
    }
}

/// A market snapshot together with the instantaneous prices of both sides,
/// each in units (a price of `SCALE` units is one token per share).
#[derive(Clone, Debug)]
pub struct MarketStatus {
    pub market: Market,
    pub yes_price: u64,
    pub no_price: u64,
}

/// An account's open holding on one side of one market; its amount is
/// always at least one unit.
#[derive(Clone, Copy, Debug)]
pub struct Position {
    pub share: Share,
    pub amount: u64,
}

/// One account's position on one named market.
#[derive(Clone, Debug)]
pub struct PositionEntry {
    pub market: MarketName,
    pub position: Position,
}

/// A token balance and the open positions, at most one per market.
#[derive(Clone, Debug)]
pub struct Account {
    pub tokens: u64,
    pub positions: Vec<PositionEntry>,
}

impl Default for Account {
    /// A fresh account starts with one hundred tokens and no positions.
    fn default() -> (a: Account)
        ensures
            a.tokens == 100 * SCALE,
            a.positions@ == Seq::<PositionEntry>::empty(),
    {
        Account { tokens: 100_000_000, positions: Vec::new() }
    }
}

/// What one position entry contributes to the holding on `name` and `share`.
pub open spec fn entry_amount(e: PositionEntry, name: Seq<char>, share: Share) -> int {
    if e.market@ == name && e.position.share == share {
        e.position.amount as int
    } else {
        0
    }
}

/// Units held across a position list on side `share` of the market `name`.
pub open spec fn holding_of(s: Seq<PositionEntry>, name: Seq<char>, share: Share) -> int
    decreases s.len(),
{
    if s.len() == 0 {
        0
    } else {
        entry_amount(s[0], name, share) + holding_of(s.drop_first(), name, share)
    }
}

/// Whether a position list has an entry on the market `name`.
pub open spec fn has_entry(s: Seq<PositionEntry>, name: Seq<char>) -> bool {
    exists|i: int| 0 <= i < s.len() && s[i].market@ == name
}

impl Account {
    /// At most one entry per market, and no empty position.
    pub open spec fn wf(self) -> bool {
        &&& forall|i: int, j: int|
            0 <= i < j < self.positions@.len() ==> self.positions@[i].market@
                != self.positions@[j].market@
        &&& forall|i: int|
            0 <= i < self.positions@.len() ==> #[trigger] self.positions@[i].position.amount >= 1
    }

    /// Units this account holds on side `share` of the market `name`.
    pub open spec fn holding(self, name: Seq<char>, share: Share) -> int {
        holding_of(self.positions@, name, share)
    }
}

/// One enrolled identity: the caller id the host hands in, the profile, and
/// the account.
#[derive(Clone, Debug)]
pub struct ProfileEntry {
    pub principal: u64,
    pub profile: Profile,
    pub account: Account,
}

/// Units held on side `share` of market `name` over all accounts.
pub open spec fn total_holding(ps: Seq<ProfileEntry>, name: Seq<char>, share: Share) -> int
    decreases ps.len(),
{
    if ps.len() == 0 {
        0
    } else {
        ps[0].account.holding(name, share) + total_holding(ps.drop_first(), name, share)
    }
}

/// The fixed reasons a mutating operation can fail with.
#[derive(Clone, Copy, Debug, PartialEq, Eq, Structural)]
pub enum ErrorKind {
    MarketNotFound,
    MarketAlreadyExists,
    NoAccount,
    AlreadyOwnsOppositeShare,
    OwnsOppositeShare,
    NotEnoughFunds,
    NotEnoughShares,
    ShortSellingNotSupported,
    PrincipalAlreadyJoined,
    NameAlreadyInUse,
    NoProfile,
}

impl ErrorKind {
    /// The display text of each reason.
    pub open spec fn message_spec(self) -> Seq<char> {
        match self {
            ErrorKind::MarketNotFound => "Market not found"@,
            ErrorKind::MarketAlreadyExists => "Market already exists"@,
            ErrorKind::NoAccount => "No account, must join first"@,
            ErrorKind::AlreadyOwnsOppositeShare => "Account already owns opposite share"@,
            ErrorKind::OwnsOppositeShare => "Account owns opposite share"@,
            ErrorKind::NotEnoughFunds => "Not enough funds"@,
            ErrorKind::NotEnoughShares => "Not enough shares"@,
            ErrorKind::ShortSellingNotSupported => "Short selling is not supported"@,
            ErrorKind::PrincipalAlreadyJoined => "Principal already joined"@,
            ErrorKind::NameAlreadyInUse => "Name already in use"@,
            ErrorKind::NoProfile => "No profile for principal, must join first"@,
        }
    }

    /// The fixed human-readable reason.
    pub fn message(self) -> (r: &'static str)
        ensures
            r@ == self.message_spec(),
    {
        match self {
            ErrorKind::MarketNotFound => "Market not found",
            ErrorKind::MarketAlreadyExists => "Market already exists",
            ErrorKind::NoAccount => "No account, must join first",
            ErrorKind::AlreadyOwnsOppositeShare => "Account already owns opposite share",
            ErrorKind::OwnsOppositeShare => "Account owns opposite share",
            ErrorKind::NotEnoughFunds => "Not enough funds",
            ErrorKind::NotEnoughShares => "Not enough shares",
            ErrorKind::ShortSellingNotSupported => "Short selling is not supported",
            ErrorKind::PrincipalAlreadyJoined => "Principal already joined",
            ErrorKind::NameAlreadyInUse => "Name already in use",
            ErrorKind::NoProfile => "No profile for principal, must join first",
        }
    }
}

/// Tagged result of a mutating operation.
#[derive(Clone, Copy, Debug, PartialEq, Eq, Structural)]
pub enum Response {
    Success,
    Error(ErrorKind),
}

} // verus!
