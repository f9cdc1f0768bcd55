//! A binary-outcome prediction market priced by the logarithmic market
//! scoring rule (LMSR).
//!
//! Token balances, share supplies and prices are fixed-point values held in
//! integer units of one millionth of a token, so every ledger movement is
//! exact and the pricing engine is ordinary integer arithmetic.  The ledger
//! invariant [`Data::wf`] ties each market's share supply to the sum of the
//! open positions on it, and every operation is proved to preserve it.

use vstd::prelude::*;

pub mod env;
pub mod fixed;
pub mod holdings;
pub mod laws;
pub mod market;
pub mod pricing;
pub mod profile;
pub mod types;

use crate::env::Environment;
use crate::types::{has_entry, total_holding, Market, ProfileEntry, Share};

verus! {

/// All ledgers of the system: the markets and the enrolled identities.
pub struct Data {
    pub markets: Vec<Market>,
    pub profiles: Vec<ProfileEntry>,
}

impl Default for Data {
    fn default() -> (d: Data)
        ensures
            d.markets@ == Seq::<Market>::empty(),
            d.profiles@ == Seq::<ProfileEntry>::empty(),
            d.wf(),
    {
        let d = Data { markets: Vec::new(), profiles: Vec::new() };
        proof {
            d.lemma_empty_wf();
        }
        d
    }
}

impl Data {
    /// Whether a market of this name exists.
    pub open spec fn has_market(self, name: Seq<char>) -> bool {
        exists|i: int| 0 <= i < self.markets@.len() && self.markets@[i].name@ == name
    }

    /// Index of the market of this name (meaningful when it exists; unique
    /// under `wf`).
    pub open spec fn market_index(self, name: Seq<char>) -> int {
        choose|i: int| 0 <= i < self.markets@.len() && self.markets@[i].name@ == name
    }

    /// The market of this name.
    pub open spec fn market_named(self, name: Seq<char>) -> Market {
        self.markets@[self.market_index(name)]
    }

    /// Whether this caller has enrolled.
    pub open spec fn has_profile(self, principal: u64) -> bool {
        exists|i: int| 0 <= i < self.profiles@.len() && self.profiles@[i].principal == principal
    }

    /// Index of the caller's entry (meaningful when enrolled; unique under
    /// `wf`).
    pub open spec fn profile_index(self, principal: u64) -> int {
        choose|i: int| 0 <= i < self.profiles@.len() && self.profiles@[i].principal == principal
    }

    /// The caller's entry.
    pub open spec fn profile_of(self, principal: u64) -> ProfileEntry {
        self.profiles@[self.profile_index(principal)]
    }

    /// Whether a profile of this display name exists.
    pub open spec fn has_profile_name(self, name: Seq<char>) -> bool {
        exists|i: int|
            0 <= i < self.profiles@.len() && self.profiles@[i].profile.name@ == name
    }

    /// The ledger invariant.
    ///
    /// Market names, caller ids and profile names are unique keys; supplies
    /// stay within the pricing engine's domain; each account is well formed
    /// and only holds positions on existing markets; and each side's share
    /// supply equals the sum of the open positions on it.
    pub open spec fn wf(self) -> bool {
        &&& forall|i: int, j: int|
            0 <= i < j < self.markets@.len() ==> self.markets@[i].name@
                != self.markets@[j].name@
        &&& forall|i: int| 0 <= i < self.markets@.len() ==> (#[trigger] self.markets@[i]).valid()
        &&& forall|i: int, j: int|
            0 <= i < j < self.profiles@.len() ==> self.profiles@[i].principal
                != self.profiles@[j].principal
        &&& forall|i: int, j: int|
            0 <= i < j < self.profiles@.len() ==> self.profiles@[i].profile.name@
                != self.profiles@[j].profile.name@
        &&& forall|i: int|
            0 <= i < self.profiles@.len() ==> (#[trigger] self.profiles@[i]).account.wf()
        &&& forall|i: int, j: int|
            0 <= i < self.profiles@.len() && 0 <= j
                < self.profiles@[i].account.positions@.len() ==> self.has_market(
                #[trigger] self.profiles@[i].account.positions@[j].market@,
            )
        &&& forall|k: int|
            0 <= k < self.markets@.len() ==> (#[trigger] self.markets@[k]).yes_shares
                == total_holding(self.profiles@, self.markets@[k].name@, Share::Yes)
        &&& forall|k: int|
            0 <= k < self.markets@.len() ==> (#[trigger] self.markets@[k]).no_shares
                == total_holding(self.profiles@, self.markets@[k].name@, Share::No)
    }

    /// Under `wf`, a matching index is the index `market_index` denotes.
    pub proof fn lemma_market_index(self, name: Seq<char>, i: int)
        requires
            self.wf(),
            0 <= i < self.markets@.len(),
            self.markets@[i].name@ == name,
        ensures
            self.has_market(name),
            self.market_index(name) == i,
    {
        assert(self.has_market(name));
        let j = self.market_index(name);
        if i < j {
            assert(self.markets@[i].name@ != self.markets@[j].name@);
        } else if j < i {
            assert(self.markets@[j].name@ != self.markets@[i].name@);
        }
    }

    /// Under `wf`, a matching index is the index `profile_index` denotes.
    pub proof fn lemma_profile_index(self, principal: u64, i: int)
        requires
            self.wf(),
            0 <= i < self.profiles@.len(),
            self.profiles@[i].principal == principal,
        ensures
            self.has_profile(principal),
            self.profile_index(principal) == i,
    {
        assert(self.has_profile(principal));
        let j = self.profile_index(principal);
        if i < j {
            assert(self.profiles@[i].principal != self.profiles@[j].principal);
        } else if j < i {
            assert(self.profiles@[j].principal != self.profiles@[i].principal);
        }
    }

    pub proof fn lemma_empty_wf(self)
        requires
            self.markets@.len() == 0,
            self.profiles@.len() == 0,
        ensures
            self.wf(),
    {
    }
}

/// The state every operation runs against: the injected host capability and
/// the ledgers.
pub struct RuntimeState<E: Environment> {
    pub env: E,
    pub data: Data,
}

impl<E: Environment> RuntimeState<E> {
    pub fn new(env: E, data: Data) -> (s: RuntimeState<E>)
        ensures
            s.env == env,
            s.data == data,
    {
        RuntimeState { env, data }
    }
}

} // verus!
