//! Cross-operation laws of the trade protocol.

use vstd::prelude::*;

use crate::fixed::{sub_units, EPS_UNITS};
use crate::holdings::{lemma_holding_absent, lemma_holding_unique};
use crate::market::{
    buy_cost_spec, buy_outcome, buy_post, opposite, position_index_of, position_of, resolve_outcome,
    resolve_post, sell_delta, sell_outcome, sell_post, sell_proceeds_spec,
};
use crate::types::ErrorKind;
use crate::pricing::trade_cost_spec;
use crate::types::{has_entry, Response, Share};
use crate::Data;

verus! {

/// Round trip: buying an amount on a market where the caller held no
/// position, then immediately selling the same amount on the otherwise
/// untouched market, is always accepted, restores the market's supply
/// exactly, removes the position, and restores the account's token balance
/// up to the one-unit subtraction tolerance (exactly, unless the buy
/// clamped a sub-unit residue of the balance to zero).
pub proof fn lemma_round_trip(
    d0: Data,
    d1: Data,
    d2: Data,
    caller: u64,
    name: Seq<char>,
    share: Share,
    amount: int,
)
    requires
        d0.wf(),
        d1.wf(),
        amount >= 1,
        d0.has_market(name),
        d0.has_profile(caller),
        !has_entry(d0.profile_of(caller).account.positions@, name),
        buy_outcome(d0, caller, name, share, amount) == Response::Success,
        buy_post(d0, d1, caller, name, share, amount),
        sell_post(d1, d2, caller, name, share, amount),
    ensures
        sell_outcome(d1, caller, name, share, amount) == Response::Success,
        d2.markets@.len() == d0.markets@.len(),
        d2.markets@[d0.market_index(name)].supply(share) == d0.market_named(name).supply(share),
        d2.markets@[d0.market_index(name)].supply(opposite(share)) == d0.market_named(
            name,
        ).supply(opposite(share)),
        !has_entry(d2.profiles@[d0.profile_index(caller)].account.positions@, name),
        d0.profile_of(caller).account.tokens <= d2.profiles@[d0.profile_index(
            caller,
        )].account.tokens,
        d2.profiles@[d0.profile_index(caller)].account.tokens <= d0.profile_of(
            caller,
        ).account.tokens + EPS_UNITS,
{
    let k = d0.market_index(name);
    let i = d0.profile_index(caller);
    let m0 = d0.markets@[k];
    let p0 = d0.profiles@[i];
    let cost = buy_cost_spec(m0, share, amount);
    // the same indices denote the market and the account after the buy
    d1.lemma_market_index(name, k);
    d1.lemma_profile_index(caller, i);
    let m1 = d1.markets@[k];
    let p1 = d1.profiles@[i];
    assert(d1.market_index(name) == k);
    assert(d1.profile_index(caller) == i);
    // before the buy the account held nothing on this market
    lemma_holding_absent(p0.account.positions@, name, share);
    lemma_holding_absent(p0.account.positions@, name, opposite(share));
    assert(p1.account.holding(name, share) == amount);
    // so after the buy there is a position entry, on the bought side
    assert(has_entry(p1.account.positions@, name)) by {
        if !has_entry(p1.account.positions@, name) {
            lemma_holding_absent(p1.account.positions@, name, share);
        }
    }
    let j = position_index_of(p1.account, name);
    assert(0 <= j < p1.account.positions@.len() && p1.account.positions@[j].market@ == name);
    let side = p1.account.positions@[j].position.share;
    lemma_holding_unique(p1.account.positions@, j, name, side);
    if side != share {
        assert(opposite(share) == side);
        assert(p1.account.holding(name, side) == 0);
    }
    assert(side == share);
    lemma_holding_unique(p1.account.positions@, j, name, share);
    assert(position_of(p1.account, name).amount == amount);
    // the sell is accepted
    assert(sell_outcome(d1, caller, name, share, amount) == Response::Success);
    // it closes the whole position
    let pos = position_of(p1.account, name).amount as int;
    assert(pos == amount);
    assert(sub_units(pos, amount) == 0);
    assert(sell_delta(pos, amount) == amount);
    // the sell's marginal cost is the buy's, negated
    assert(sell_proceeds_spec(m1, share, amount) == cost) by {
        match share {
            Share::Yes => {
                assert(trade_cost_spec(m1, Share::Yes, -amount) == -trade_cost_spec(
                    m0,
                    Share::Yes,
                    amount,
                ));
            },
            Share::No => {
                assert(trade_cost_spec(m1, Share::No, -amount) == -trade_cost_spec(
                    m0,
                    Share::No,
                    amount,
                ));
            },
        }
    }
    // supply is restored exactly, the balance up to the tolerance
    assert(d2.markets@[k].supply(share) == m0.supply(share));
    let t0 = p0.account.tokens as int;
    assert(p1.account.tokens == sub_units(t0, cost));
    assert(d2.profiles@[i].account.tokens == sub_units(t0, cost) + cost);
}

/// Resolution is final: once a market has been resolved, resolving it again
/// reports "Market not found", and the protocol performs no payouts on a
/// failed resolution.
pub proof fn lemma_resolution_final(d0: Data, d1: Data, name: Seq<char>, outcome: Share)
    requires
        resolve_post(d0, d1, name, outcome),
    ensures
        resolve_outcome(d1, name) == Response::Error(ErrorKind::MarketNotFound),
{
}

} // verus!
