//! The market ledger and the trade and resolution protocols.
//!
//! Every mutating operation validates its domain errors before touching any
//! state — on failure the ledgers are exactly as before — and is proved to
//! preserve the ledger invariant [`crate::Data::wf`].

use vstd::pervasive::VecAdditionalExecFns;
use vstd::prelude::*;

use crate::env::Environment;
use crate::fixed::{checked_sub, sub_units, BLN2_UNITS, EPS_UNITS, MAX_SHARES};
use crate::holdings::{
    lemma_holding_push, lemma_holding_remove, lemma_holding_unique, lemma_holding_update,
    lemma_holding_zero, lemma_total_member_le, lemma_total_update, lemma_total_zero,
};
use crate::pricing::{
    buying_power_, market_status, no_price_spec, trade_cost, trade_cost_spec, yes_price_spec,
};
use crate::types::{
    has_entry, total_holding, Market, MarketName, MarketStatus, Position, PositionEntry,
    ProfileEntry, Response, Share,
};
use crate::types::ErrorKind;
use crate::{Data, RuntimeState};

verus! {

/// The side opposite to `share`.
pub open spec fn opposite(share: Share) -> Share {
    match share {
        Share::Yes => Share::No,
        Share::No => Share::Yes,
    }
}

/// Index of the market of this name, if any.
fn find_market_index(markets: &Vec<Market>, name: &String) -> (r: Option<usize>)
    ensures
        match r {
            Some(i) => 0 <= i < markets@.len() && markets@[i as int].name@ == name@,
            None => forall|j: int| 0 <= j < markets@.len() ==> markets@[j].name@ != name@,
        },
{
    let mut i: usize = 0;
    while i < markets.len()
        invariant
            i <= markets@.len(),
            forall|j: int| 0 <= j < i ==> markets@[j].name@ != name@,
        decreases markets@.len() - i,
    {
        if markets[i].name == *name {
            return Some(i);
        }
        i = i + 1;
    }
    None
}

/// Index of the caller's entry, if enrolled.
fn find_profile_index(profiles: &Vec<ProfileEntry>, principal: u64) -> (r: Option<usize>)
    ensures
        match r {
            Some(i) => 0 <= i < profiles@.len() && profiles@[i as int].principal == principal,
            None => forall|j: int| 0 <= j < profiles@.len() ==> profiles@[j].principal
                != principal,
        },
{
    let mut i: usize = 0;
    while i < profiles.len()
        invariant
            i <= profiles@.len(),
            forall|j: int| 0 <= j < i ==> profiles@[j].principal != principal,
        decreases profiles@.len() - i,
    {
        if profiles[i].principal == principal {
            return Some(i);
        }
        i = i + 1;
    }
    None
}

/// Index of the account's position on this market, if any.
fn find_position_index(positions: &Vec<PositionEntry>, name: &String) -> (r: Option<usize>)
    ensures
        match r {
            Some(i) => 0 <= i < positions@.len() && positions@[i as int].market@ == name@,
            None => forall|j: int| 0 <= j < positions@.len() ==> positions@[j].market@ != name@,
        },
{
    let mut i: usize = 0;
    while i < positions.len()
        invariant
            i <= positions@.len(),
            forall|j: int| 0 <= j < i ==> positions@[j].market@ != name@,
        decreases positions@.len() - i,
    {
        if positions[i].market == *name {
            return Some(i);
        }
        i = i + 1;
    }
    None
}

/// An owned copy of a market, equal to the original.
fn clone_market(m: &Market) -> (r: Market)
    ensures
        r == *m,
{
    Market {
        name: m.name.clone(),
        description: m.description.clone(),
        yes_shares: m.yes_shares,
        no_shares: m.no_shares,
    }
}

/// Creates a market with zero supply on both sides; fails if the name is
/// taken.
pub fn new_market_impl<E: Environment>(
    name: MarketName,
    description: String,
    state: &mut RuntimeState<E>,
) -> (r: Response)
    requires
        old(state).data.wf(),
    ensures
        final(state).data.wf(),
        final(state).env == old(state).env,
        old(state).data.has_market(name@) ==> r == Response::Error(ErrorKind::MarketAlreadyExists)
            && final(state).data == old(state).data,
        !old(state).data.has_market(name@) ==> r == Response::Success
            && final(state).data.markets@ == old(state).data.markets@.push(
            (Market { name, description, yes_shares: 0, no_shares: 0 }),
        ) && final(state).data.profiles@ == old(state).data.profiles@,
{
    match find_market_index(&state.data.markets, &name) {
        Some(i) => {
            proof {
                old(state).data.lemma_market_index(name@, i as int);
            }
            Response::Error(ErrorKind::MarketAlreadyExists)
        },
        None => {
            let ghost d0 = state.data;
            let m = Market::new(name, description);
            state.data.markets.push(m);
            proof {
                let d1 = state.data;
                let n = d0.markets@.len() as int;
                assert forall|x: int| 0 <= x < d1.markets@.len() implies (#[trigger] d1.markets@[x]).valid() by {
                    if x < n {
                        assert(d1.markets@[x] == d0.markets@[x]);
                    }
                }
                // the new name is fresh, so nothing holds a position on it
                assert forall|i: int, j: int|
                    0 <= i < d1.profiles@.len() && 0 <= j
                        < d1.profiles@[i].account.positions@.len() implies (#[trigger] d1.profiles@[i].account.positions@[j]).market@ != m.name@ by {
                    if d1.profiles@[i].account.positions@[j].market@ == m.name@ {
                        assert(d0.has_market(d0.profiles@[i].account.positions@[j].market@));
                    }
                }
                lemma_total_zero(d1.profiles@, m.name@, Share::Yes);
                lemma_total_zero(d1.profiles@, m.name@, Share::No);
                // old markets keep their names, supplies and referenced state
                assert forall|i: int, j: int|
                    0 <= i < d1.profiles@.len() && 0 <= j
                        < d1.profiles@[i].account.positions@.len() implies d1.has_market(
                    #[trigger] d1.profiles@[i].account.positions@[j].market@,
                ) by {
                    let nm = d1.profiles@[i].account.positions@[j].market@;
                    assert(d0.has_market(nm));
                    let x = d0.market_index(nm);
                    assert(d1.markets@[x].name@ == nm);
                }
                assert forall|k: int| 0 <= k < d1.markets@.len() implies (#[trigger] d1.markets@[k]).yes_shares == total_holding(d1.profiles@, d1.markets@[k].name@, Share::Yes)
                    && d1.markets@[k].no_shares == total_holding(
                    d1.profiles@,
                    d1.markets@[k].name@,
                    Share::No,
                ) by {
                    if k < n {
                        assert(d1.markets@[k] == d0.markets@[k]);
                    }
                }
            }
            Response::Success
        },
    }
}

/// A snapshot of the named market with both prices, if it exists.
pub fn get_market_impl<E: Environment>(name: MarketName, state: &mut RuntimeState<E>) -> (r:
    Option<MarketStatus>)
    requires
        old(state).data.wf(),
    ensures
        *final(state) == *old(state),
        match r {
            Some(ms) => old(state).data.has_market(name@) && ms.market == old(
                state,
            ).data.market_named(name@) && ms.yes_price == yes_price_spec(
                ms.market.yes_shares as int,
                ms.market.no_shares as int,
            ) && ms.no_price == no_price_spec(
                ms.market.yes_shares as int,
                ms.market.no_shares as int,
            ),
            None => !old(state).data.has_market(name@),
        },
{
    match find_market_index(&state.data.markets, &name) {
        None => None,
        Some(i) => {
            proof {
                state.data.lemma_market_index(name@, i as int);
            }
            let m = clone_market(&state.data.markets[i]);
            Some(market_status(m))
        },
    }
}

/// Snapshots of all markets, in creation order.
pub fn get_markets_impl<E: Environment>(state: &mut RuntimeState<E>) -> (r: Vec<MarketStatus>)
    requires
        old(state).data.wf(),
    ensures
        *final(state) == *old(state),
        r@.len() == old(state).data.markets@.len(),
        forall|i: int|
            0 <= i < r@.len() ==> (#[trigger] r@[i]).market == old(state).data.markets@[i]
                && r@[i].yes_price == yes_price_spec(
                old(state).data.markets@[i].yes_shares as int,
                old(state).data.markets@[i].no_shares as int,
            ) && r@[i].no_price == no_price_spec(
                old(state).data.markets@[i].yes_shares as int,
                old(state).data.markets@[i].no_shares as int,
            ),
{
    let mut out: Vec<MarketStatus> = Vec::new();
    let mut i: usize = 0;
    while i < state.data.markets.len()
        invariant
            *state == *old(state),
            old(state).data.wf(),
            i <= state.data.markets@.len(),
            out@.len() == i,
            forall|j: int|
                0 <= j < i ==> (#[trigger] out@[j]).market == state.data.markets@[j]
                    && out@[j].yes_price == yes_price_spec(
                    state.data.markets@[j].yes_shares as int,
                    state.data.markets@[j].no_shares as int,
                ) && out@[j].no_price == no_price_spec(
                    state.data.markets@[j].yes_shares as int,
                    state.data.markets@[j].no_shares as int,
                ),
        decreases state.data.markets@.len() - i,
    {
        let m = clone_market(&state.data.markets[i]);
        out.push(market_status(m));
        i = i + 1;
    }
    out
}

/// The greatest amount the caller could buy on `share`, or zero when the
/// market is absent, the caller is not enrolled, or the balance is within
/// the subtraction tolerance of zero.
pub fn buying_power_impl<E: Environment>(
    market: MarketName,
    share: Share,
    state: &mut RuntimeState<E>,
) -> (r: u64)
    requires
        old(state).data.wf(),
        old(state).data.has_market(market@) && old(state).data.has_profile(
            old(state).env.spec_caller(),
        ) ==> old(state).data.market_named(market@).yes_shares + old(state).data.market_named(
            market@,
        ).no_shares + old(state).data.profile_of(old(state).env.spec_caller()).account.tokens
            + BLN2_UNITS + 1 <= MAX_SHARES,
    ensures
        *final(state) == *old(state),
        !old(state).data.has_market(market@) ==> r == 0,
        old(state).data.has_market(market@) && !old(state).data.has_profile(
            old(state).env.spec_caller(),
        ) ==> r == 0,
        ({
            let d = old(state).data;
            let caller = old(state).env.spec_caller();
            d.has_market(market@) && d.has_profile(caller) && d.profile_of(caller).account.tokens
                > EPS_UNITS ==> {
                let m = d.market_named(market@);
                let tokens = d.profile_of(caller).account.tokens;
                &&& trade_cost_spec(m, share, r as int) <= tokens
                &&& trade_cost_spec(m, share, r + 1) > tokens
                &&& m.supply(share) + r + 1 <= MAX_SHARES
            }
        }),
        ({
            let d = old(state).data;
            let caller = old(state).env.spec_caller();
            d.has_market(market@) && d.has_profile(caller) && d.profile_of(caller).account.tokens
                <= EPS_UNITS ==> r == 0
        }),
{
    let mi = match find_market_index(&state.data.markets, &market) {
        Some(i) => i,
        None => {
            return 0;
        },
    };
    proof {
        state.data.lemma_market_index(market@, mi as int);
    }
    let principal = state.env.caller();
    let pi = match find_profile_index(&state.data.profiles, principal) {
        Some(i) => i,
        None => {
            return 0;
        },
    };
    proof {
        state.data.lemma_profile_index(principal, pi as int);
    }
    let tokens = state.data.profiles[pi].account.tokens;
    if tokens <= EPS_UNITS {
        return 0;
    }
    buying_power_(&state.data.markets[mi], share, tokens)
}

/// The cost a buy debits: the marginal trade cost, never below zero (price
/// quantization cannot mint tokens).
pub open spec fn buy_cost_spec(m: Market, share: Share, amount: int) -> int {
    let c = trade_cost_spec(m, share, amount);
    if c < 0 {
        0
    } else {
        c
    }
}

/// Whether the account holds a position on `name` of the side opposite to
/// `share`.
pub open spec fn holds_opposite(a: crate::types::Account, name: Seq<char>, share: Share) -> bool {
    exists|j: int|
        0 <= j < a.positions@.len() && a.positions@[j].market@ == name && a.positions@[
            j
        ].position.share != share
}

/// The response the buy protocol owes for a given pre-state.
pub open spec fn buy_outcome(
    d: Data,
    caller: u64,
    name: Seq<char>,
    share: Share,
    amount: int,
) -> Response {
    if !d.has_market(name) {
        Response::Error(ErrorKind::MarketNotFound)
    } else if !d.has_profile(caller) {
        Response::Error(ErrorKind::NoAccount)
    } else if holds_opposite(d.profile_of(caller).account, name, share) {
        Response::Error(ErrorKind::AlreadyOwnsOppositeShare)
    } else if d.profile_of(caller).account.tokens + EPS_UNITS < buy_cost_spec(
        d.market_named(name),
        share,
        amount,
    ) {
        Response::Error(ErrorKind::NotEnoughFunds)
    } else {
        Response::Success
    }
}

/// How a successful buy changes the ledgers: the debit, the supply increase
/// and the position increase, and nothing else.
pub open spec fn buy_post(
    d0: Data,
    d1: Data,
    caller: u64,
    name: Seq<char>,
    share: Share,
    amount: int,
) -> bool {
    let k = d0.market_index(name);
    let i = d0.profile_index(caller);
    let m0 = d0.markets@[k];
    let p0 = d0.profiles@[i];
    let cost = buy_cost_spec(m0, share, amount);
    &&& d1.markets@.len() == d0.markets@.len()
    &&& forall|x: int| 0 <= x < d0.markets@.len() && x != k ==> d1.markets@[x] == d0.markets@[x]
    &&& d1.markets@[k].name == m0.name
    &&& d1.markets@[k].description == m0.description
    &&& d1.markets@[k].supply(share) == m0.supply(share) + amount
    &&& d1.markets@[k].supply(opposite(share)) == m0.supply(opposite(share))
    &&& d1.profiles@.len() == d0.profiles@.len()
    &&& forall|x: int| 0 <= x < d0.profiles@.len() && x != i ==> d1.profiles@[x] == d0.profiles@[x]
    &&& d1.profiles@[i].principal == p0.principal
    &&& d1.profiles@[i].profile == p0.profile
    &&& d1.profiles@[i].account.tokens == sub_units(p0.account.tokens as int, cost)
    &&& d1.profiles@[i].account.holding(name, share) == p0.account.holding(name, share) + amount
    &&& d1.profiles@[i].account.holding(name, opposite(share)) == p0.account.holding(
        name,
        opposite(share),
    )
    &&& forall|nm: Seq<char>, sh: Share|
        nm != name ==> #[trigger] d1.profiles@[i].account.holding(nm, sh) == p0.account.holding(
            nm,
            sh,
        )
}

/// Buys `amount` units of `share` on the named market for the caller:
/// debits the marginal cost, raises the supply and the caller's position.
pub fn buy_impl<E: Environment>(
    market: MarketName,
    share: Share,
    amount: u64,
    state: &mut RuntimeState<E>,
) -> (r: Response)
    requires
        old(state).data.wf(),
        amount >= 1,
        old(state).data.has_market(market@) ==> old(state).data.market_named(market@).supply(share)
            + amount <= MAX_SHARES,
    ensures
        final(state).data.wf(),
        final(state).env == old(state).env,
        r == buy_outcome(
            old(state).data,
            old(state).env.spec_caller(),
            market@,
            share,
            amount as int,
        ),
        r == Response::Success ==> buy_post(
            old(state).data,
            final(state).data,
            old(state).env.spec_caller(),
            market@,
            share,
            amount as int,
        ),
        r != Response::Success ==> final(state).data == old(state).data,
{
    let ghost d0 = state.data;
    let mi = match find_market_index(&state.data.markets, &market) {
        Some(i) => i,
        None => {
            return Response::Error(ErrorKind::MarketNotFound);
        },
    };
    proof {
        d0.lemma_market_index(market@, mi as int);
    }
    let principal = state.env.caller();
    let pi = match find_profile_index(&state.data.profiles, principal) {
        Some(i) => i,
        None => {
            return Response::Error(ErrorKind::NoAccount);
        },
    };
    proof {
        d0.lemma_profile_index(principal, pi as int);
    }
    let ghost ps0 = d0.profiles@[pi as int].account.positions@;

    let same_side: Option<usize>;
    match find_position_index(&state.data.profiles[pi].account.positions, &market) {
        Some(j) => {
            if state.data.profiles[pi].account.positions[j].position.share != share {
                return Response::Error(ErrorKind::AlreadyOwnsOppositeShare);
            }
            same_side = Some(j);
        },
        None => {
            same_side = None;
        },
    }
    proof {
        // the one entry on this market, if any, is on the caller's side
        assert forall|x: int|
            0 <= x < ps0.len() && ps0[x].market@ == market@ implies ps0[x].position.share
            == share by {
            match same_side {
                Some(j) => {
                    if x < j as int {
                        assert(ps0[x].market@ != ps0[j as int].market@);
                    } else if x > j as int {
                        assert(ps0[j as int].market@ != ps0[x].market@);
                    }
                },
                None => {},
            }
        }
        assert(!holds_opposite(d0.profiles@[pi as int].account, market@, share));
    }

    let c = trade_cost(&state.data.markets[mi], share, amount as i64);
    let cost_units: u64 = if c < 0 {
        0
    } else {
        c as u64
    };
    let tokens = state.data.profiles[pi].account.tokens;
    let new_tokens = match checked_sub(tokens, cost_units) {
        Ok(v) => v,
        Err(_) => {
            return Response::Error(ErrorKind::NotEnoughFunds);
        },
    };

    // the caller's position cannot outgrow the supply bound
    proof {
        if let Some(j) = same_side {
            lemma_holding_unique(ps0, j as int, market@, share);
            lemma_total_member_le(d0.profiles@, pi as int, market@, share);
        }
    }

    // apply: supply, then balance and position
    let mkt = &state.data.markets[mi];
    let new_mkt = Market {
        name: mkt.name.clone(),
        description: mkt.description.clone(),
        yes_shares: if share == Share::Yes {
            mkt.yes_shares + amount
        } else {
            mkt.yes_shares
        },
        no_shares: if share == Share::No {
            mkt.no_shares + amount
        } else {
            mkt.no_shares
        },
    };
    state.data.markets.set(mi, new_mkt);

    let mut entry = state.data.profiles.remove(pi);
    entry.account.tokens = new_tokens;
    match same_side {
        Some(j) => {
            let old_amount = entry.account.positions[j].position.amount;
            let nm = entry.account.positions[j].market.clone();
            entry.account.positions.set(
                j,
                PositionEntry { market: nm, position: Position { share, amount: old_amount + amount } },
            );
        },
        None => {
            entry.account.positions.push(
                PositionEntry { market, position: Position { share, amount } },
            );
        },
    }
    state.data.profiles.insert(pi, entry);

    proof {
        let d1 = state.data;
        let name = market@;
        let p0 = d0.profiles@[pi as int];
        let p1 = d1.profiles@[pi as int];
        assert(d1.profiles@ =~= d0.profiles@.update(pi as int, p1));
        // how the caller's holdings moved
        assert forall|nm: Seq<char>, sh: Share| #![all_triggers] true implies {
            &&& (nm == name && sh == share) ==> p1.account.holding(nm, sh) == p0.account.holding(
                nm,
                sh,
            ) + amount
            &&& !(nm == name && sh == share) ==> p1.account.holding(nm, sh) == p0.account.holding(
                nm,
                sh,
            )
        } by {
            match same_side {
                Some(j) => {
                    lemma_holding_update(
                        ps0,
                        j as int,
                        p1.account.positions@[j as int],
                        nm,
                        sh,
                    );
                },
                None => {
                    lemma_holding_push(ps0, p1.account.positions@[ps0.len() as int], nm, sh);
                },
            }
        }
        // uniqueness of positions is kept
        assert(p1.account.wf()) by {
            match same_side {
                Some(j) => {
                    assert forall|x: int, y: int|
                        0 <= x < y < p1.account.positions@.len() implies p1.account.positions@[
                        x
                    ].market@ != p1.account.positions@[y].market@ by {
                        assert(p1.account.positions@[x].market@ == ps0[x].market@);
                        assert(p1.account.positions@[y].market@ == ps0[y].market@);
                    }
                },
                None => {
                    assert forall|x: int, y: int|
                        0 <= x < y < p1.account.positions@.len() implies p1.account.positions@[
                        x
                    ].market@ != p1.account.positions@[y].market@ by {
                        if y == ps0.len() as int {
                            assert(ps0[x].market@ != name);
                        }
                    }
                },
            }
        }
        // conservation on every market
        assert forall|k: int|
            0 <= k < d1.markets@.len() implies (#[trigger] d1.markets@[k]).yes_shares
                == total_holding(d1.profiles@, d1.markets@[k].name@, Share::Yes) && d1.markets@[
            k
        ].no_shares == total_holding(d1.profiles@, d1.markets@[k].name@, Share::No) by {
            let knm = d1.markets@[k].name@;
            lemma_total_update(d0.profiles@, pi as int, p1, knm, Share::Yes);
            lemma_total_update(d0.profiles@, pi as int, p1, knm, Share::No);
            if k != mi as int {
                assert(d1.markets@[k] == d0.markets@[k]);
                assert(knm != name);
            }
        }
        // positions still reference existing markets
        assert forall|i: int, j: int|
            0 <= i < d1.profiles@.len() && 0 <= j
                < d1.profiles@[i].account.positions@.len() implies d1.has_market(
            #[trigger] d1.profiles@[i].account.positions@[j].market@,
        ) by {
            let nm = d1.profiles@[i].account.positions@[j].market@;
            if i == pi as int && same_side is None && j == ps0.len() as int {
                assert(d1.markets@[mi as int].name@ == name);
            } else {
                assert(d0.has_market(nm));
                let x = d0.market_index(nm);
                assert(d1.markets@[x].name@ == nm);
            }
        }
        // market names are unchanged, so uniqueness and validity carry over
        assert forall|x: int| 0 <= x < d1.markets@.len() implies (#[trigger] d1.markets@[
            x
        ]).valid() by {
            if x != mi as int {
                assert(d1.markets@[x] == d0.markets@[x]);
            }
        }
        assert forall|x: int, y: int|
            0 <= x < y < d1.markets@.len() implies d1.markets@[x].name@ != d1.markets@[
            y
        ].name@ by {
            assert(d1.markets@[x].name@ == d0.markets@[x].name@);
            assert(d1.markets@[y].name@ == d0.markets@[y].name@);
        }
        assert(d1.wf());
    }
    Response::Success
}

/// Index of the account's one position entry on `name` (meaningful when it
/// exists; unique under `Account::wf`).
pub open spec fn position_index_of(a: crate::types::Account, name: Seq<char>) -> int {
    choose|j: int| 0 <= j < a.positions@.len() && a.positions@[j].market@ == name
}

/// The account's position on `name`.
pub open spec fn position_of(a: crate::types::Account, name: Seq<char>) -> Position {
    a.positions@[position_index_of(a, name)].position
}

proof fn lemma_position_index(a: crate::types::Account, name: Seq<char>, j: int)
    requires
        a.wf(),
        0 <= j < a.positions@.len(),
        a.positions@[j].market@ == name,
    ensures
        has_entry(a.positions@, name),
        position_index_of(a, name) == j,
{
    assert(has_entry(a.positions@, name));
    let x = position_index_of(a, name);
    if x < j {
        assert(a.positions@[x].market@ != a.positions@[j].market@);
    } else if j < x {
        assert(a.positions@[j].market@ != a.positions@[x].market@);
    }
}

/// The units a sell actually closes: the full position when the requested
/// amount reaches it within the tolerance, else the requested amount.
pub open spec fn sell_delta(pos: int, amount: int) -> int {
    pos - sub_units(pos, amount)
}

/// The proceeds a sell credits for closing `delta` units: the negated
/// marginal cost, never below zero (price quantization cannot mint tokens).
pub open spec fn sell_proceeds_spec(m: Market, share: Share, delta: int) -> int {
    let c = -trade_cost_spec(m, share, -delta);
    if c < 0 {
        0
    } else {
        c
    }
}

/// The response the sell protocol owes for a given pre-state.
pub open spec fn sell_outcome(
    d: Data,
    caller: u64,
    name: Seq<char>,
    share: Share,
    amount: int,
) -> Response {
    if !d.has_market(name) {
        Response::Error(ErrorKind::MarketNotFound)
    } else if !d.has_profile(caller) {
        Response::Error(ErrorKind::NoAccount)
    } else if !has_entry(d.profile_of(caller).account.positions@, name) {
        Response::Error(ErrorKind::ShortSellingNotSupported)
    } else if position_of(d.profile_of(caller).account, name).share != share {
        Response::Error(ErrorKind::OwnsOppositeShare)
    } else if position_of(d.profile_of(caller).account, name).amount + EPS_UNITS < amount {
        Response::Error(ErrorKind::NotEnoughShares)
    } else {
        Response::Success
    }
}

/// How a successful sell changes the ledgers: the credit, the supply
/// decrease and the position decrease (removing an emptied position), and
/// nothing else.
pub open spec fn sell_post(
    d0: Data,
    d1: Data,
    caller: u64,
    name: Seq<char>,
    share: Share,
    amount: int,
) -> bool {
    let k = d0.market_index(name);
    let i = d0.profile_index(caller);
    let m0 = d0.markets@[k];
    let p0 = d0.profiles@[i];
    let pos = position_of(p0.account, name).amount as int;
    let delta = sell_delta(pos, amount);
    let proceeds = sell_proceeds_spec(m0, share, delta);
    &&& d1.markets@.len() == d0.markets@.len()
    &&& forall|x: int| 0 <= x < d0.markets@.len() && x != k ==> d1.markets@[x] == d0.markets@[x]
    &&& d1.markets@[k].name == m0.name
    &&& d1.markets@[k].description == m0.description
    &&& d1.markets@[k].supply(share) == m0.supply(share) - delta
    &&& d1.markets@[k].supply(opposite(share)) == m0.supply(opposite(share))
    &&& d1.profiles@.len() == d0.profiles@.len()
    &&& forall|x: int| 0 <= x < d0.profiles@.len() && x != i ==> d1.profiles@[x] == d0.profiles@[x]
    &&& d1.profiles@[i].principal == p0.principal
    &&& d1.profiles@[i].profile == p0.profile
    &&& d1.profiles@[i].account.tokens == p0.account.tokens + proceeds
    &&& d1.profiles@[i].account.holding(name, share) == sub_units(pos, amount)
    &&& d1.profiles@[i].account.holding(name, opposite(share)) == p0.account.holding(
        name,
        opposite(share),
    )
    &&& sub_units(pos, amount) == 0 ==> !has_entry(d1.profiles@[i].account.positions@, name)
    &&& forall|nm: Seq<char>, sh: Share|
        nm != name ==> #[trigger] d1.profiles@[i].account.holding(nm, sh) == p0.account.holding(
            nm,
            sh,
        )
}

/// Sells `amount` units of `share` on the named market for the caller:
/// credits the marginal proceeds, lowers the supply and the caller's
/// position, and removes a position that empties.  The proceeds are priced
/// on the units actually closed, so the books stay balanced to the unit.
pub fn sell_impl<E: Environment>(
    market: MarketName,
    share: Share,
    amount: u64,
    state: &mut RuntimeState<E>,
) -> (r: Response)
    requires
        old(state).data.wf(),
        amount >= 1,
        old(state).data.has_profile(old(state).env.spec_caller()) ==> old(state).data.profile_of(
            old(state).env.spec_caller(),
        ).account.tokens + MAX_SHARES + BLN2_UNITS <= u64::MAX,
    ensures
        final(state).data.wf(),
        final(state).env == old(state).env,
        r == sell_outcome(
            old(state).data,
            old(state).env.spec_caller(),
            market@,
            share,
            amount as int,
        ),
        r == Response::Success ==> sell_post(
            old(state).data,
            final(state).data,
            old(state).env.spec_caller(),
            market@,
            share,
            amount as int,
        ),
        r != Response::Success ==> final(state).data == old(state).data,
{
    let ghost d0 = state.data;
    let mi = match find_market_index(&state.data.markets, &market) {
        Some(i) => i,
        None => {
            return Response::Error(ErrorKind::MarketNotFound);
        },
    };
    proof {
        d0.lemma_market_index(market@, mi as int);
    }
    let principal = state.env.caller();
    let pi = match find_profile_index(&state.data.profiles, principal) {
        Some(i) => i,
        None => {
            return Response::Error(ErrorKind::NoAccount);
        },
    };
    proof {
        d0.lemma_profile_index(principal, pi as int);
    }
    let ghost ps0 = d0.profiles@[pi as int].account.positions@;

    let j = match find_position_index(&state.data.profiles[pi].account.positions, &market) {
        Some(j) => j,
        None => {
            return Response::Error(ErrorKind::ShortSellingNotSupported);
        },
    };
    proof {
        lemma_position_index(d0.profiles@[pi as int].account, market@, j as int);
    }
    if state.data.profiles[pi].account.positions[j].position.share != share {
        return Response::Error(ErrorKind::OwnsOppositeShare);
    }
    let pos = state.data.profiles[pi].account.positions[j].position.amount;
    let new_pos = match checked_sub(pos, amount) {
        Ok(v) => v,
        Err(_) => {
            return Response::Error(ErrorKind::NotEnoughShares);
        },
    };
    let delta = pos - new_pos;

    // the position is covered by the market's supply
    proof {
        lemma_holding_unique(ps0, j as int, market@, share);
        lemma_total_member_le(d0.profiles@, pi as int, market@, share);
    }

    let c = trade_cost(&state.data.markets[mi], share, -(delta as i64));
    let neg = -(c as i128);
    let proceeds: u64 = if neg < 0 {
        0
    } else {
        neg as u64
    };
    let tokens = state.data.profiles[pi].account.tokens;
    let new_tokens = tokens + proceeds;

    // apply: supply, then balance and position
    let mkt = &state.data.markets[mi];
    let new_mkt = Market {
        name: mkt.name.clone(),
        description: mkt.description.clone(),
        yes_shares: if share == Share::Yes {
            mkt.yes_shares - delta
        } else {
            mkt.yes_shares
        },
        no_shares: if share == Share::No {
            mkt.no_shares - delta
        } else {
            mkt.no_shares
        },
    };
    state.data.markets.set(mi, new_mkt);

    let mut entry = state.data.profiles.remove(pi);
    entry.account.tokens = new_tokens;
    if new_pos == 0 {
        entry.account.positions.remove(j);
    } else {
        let nm = entry.account.positions[j].market.clone();
        entry.account.positions.set(
            j,
            PositionEntry { market: nm, position: Position { share, amount: new_pos } },
        );
    }
    state.data.profiles.insert(pi, entry);

    proof {
        let d1 = state.data;
        let name = market@;
        let p0 = d0.profiles@[pi as int];
        let p1 = d1.profiles@[pi as int];
        assert(d1.profiles@ =~= d0.profiles@.update(pi as int, p1));
        // how the caller's holdings moved
        assert forall|nm: Seq<char>, sh: Share| #![all_triggers] true implies {
            &&& (nm == name && sh == share) ==> p1.account.holding(nm, sh) == p0.account.holding(
                nm,
                sh,
            ) - delta
            &&& !(nm == name && sh == share) ==> p1.account.holding(nm, sh) == p0.account.holding(
                nm,
                sh,
            )
        } by {
            if new_pos == 0 {
                lemma_holding_remove(ps0, j as int, nm, sh);
            } else {
                lemma_holding_update(ps0, j as int, p1.account.positions@[j as int], nm, sh);
            }
        }
        // uniqueness of positions is kept
        assert(p1.account.wf()) by {
            if new_pos == 0 {
                assert forall|x: int, y: int|
                    0 <= x < y < p1.account.positions@.len() implies p1.account.positions@[
                    x
                ].market@ != p1.account.positions@[y].market@ by {
                    let x0 = if x < j as int { x } else { x + 1 };
                    let y0 = if y < j as int { y } else { y + 1 };
                    assert(p1.account.positions@[x] == ps0[x0]);
                    assert(p1.account.positions@[y] == ps0[y0]);
                }
            } else {
                assert forall|x: int, y: int|
                    0 <= x < y < p1.account.positions@.len() implies p1.account.positions@[
                    x
                ].market@ != p1.account.positions@[y].market@ by {
                    assert(p1.account.positions@[x].market@ == ps0[x].market@);
                    assert(p1.account.positions@[y].market@ == ps0[y].market@);
                }
            }
        }
        // an emptied position is gone
        if new_pos == 0 {
            assert forall|x: int|
                0 <= x < p1.account.positions@.len() implies (#[trigger] p1.account.positions@[
                x
            ]).market@ != name by {
                let x0 = if x < j as int { x } else { x + 1 };
                assert(p1.account.positions@[x] == ps0[x0]);
                if x0 < j as int {
                    assert(ps0[x0].market@ != ps0[j as int].market@);
                } else {
                    assert(ps0[j as int].market@ != ps0[x0].market@);
                }
            }
            if has_entry(p1.account.positions@, name) {
                let w = choose|w: int|
                    0 <= w < p1.account.positions@.len() && p1.account.positions@[w].market@
                        == name;
            }
        }
        // conservation on every market
        assert forall|k: int|
            0 <= k < d1.markets@.len() implies (#[trigger] d1.markets@[k]).yes_shares
                == total_holding(d1.profiles@, d1.markets@[k].name@, Share::Yes) && d1.markets@[
            k
        ].no_shares == total_holding(d1.profiles@, d1.markets@[k].name@, Share::No) by {
            let knm = d1.markets@[k].name@;
            lemma_total_update(d0.profiles@, pi as int, p1, knm, Share::Yes);
            lemma_total_update(d0.profiles@, pi as int, p1, knm, Share::No);
            if k != mi as int {
                assert(d1.markets@[k] == d0.markets@[k]);
                assert(knm != name);
            }
        }
        // positions still reference existing markets
        assert forall|i: int, jj: int|
            0 <= i < d1.profiles@.len() && 0 <= jj
                < d1.profiles@[i].account.positions@.len() implies d1.has_market(
            #[trigger] d1.profiles@[i].account.positions@[jj].market@,
        ) by {
            let nm = d1.profiles@[i].account.positions@[jj].market@;
            if i == pi as int && new_pos == 0 {
                let x0 = if jj < j as int { jj } else { jj + 1 };
                assert(p1.account.positions@[jj] == ps0[x0]);
            }
            assert(d0.has_market(nm));
            let x = d0.market_index(nm);
            assert(d1.markets@[x].name@ == nm);
        }
        // market names are unchanged, so uniqueness and validity carry over
        assert forall|x: int| 0 <= x < d1.markets@.len() implies (#[trigger] d1.markets@[
            x
        ]).valid() by {
            if x != mi as int {
                assert(d1.markets@[x] == d0.markets@[x]);
            }
        }
        assert forall|x: int, y: int|
            0 <= x < y < d1.markets@.len() implies d1.markets@[x].name@ != d1.markets@[
            y
        ].name@ by {
            assert(d1.markets@[x].name@ == d0.markets@[x].name@);
            assert(d1.markets@[y].name@ == d0.markets@[y].name@);
        }
        assert(d1.wf());
    }
    Response::Success
}

/// The response resolution owes: only a missing (or already resolved)
/// market fails.
pub open spec fn resolve_outcome(d: Data, name: Seq<char>) -> Response {
    if !d.has_market(name) {
        Response::Error(ErrorKind::MarketNotFound)
    } else {
        Response::Success
    }
}

/// How resolution changes the ledgers: the market is gone, every position
/// on it is removed, every winning position pays one token per share (in
/// units), and nothing else moves.
pub open spec fn resolve_post(d0: Data, d1: Data, name: Seq<char>, outcome: Share) -> bool {
    let k = d0.market_index(name);
    &&& d1.markets@ == d0.markets@.remove(k)
    &&& !d1.has_market(name)
    &&& d1.profiles@.len() == d0.profiles@.len()
    &&& forall|x: int|
        #![trigger d1.profiles@[x]]
        0 <= x < d0.profiles@.len() ==> {
            let p0 = d0.profiles@[x];
            let p1 = d1.profiles@[x];
            &&& p1.principal == p0.principal
            &&& p1.profile == p0.profile
            &&& p1.account.tokens == p0.account.tokens + p0.account.holding(name, outcome)
            &&& !has_entry(p1.account.positions@, name)
            &&& forall|nm: Seq<char>, sh: Share|
                nm != name ==> #[trigger] p1.account.holding(nm, sh) == p0.account.holding(nm, sh)
        }
}

/// Resolves the named market with the given outcome: removes it, pays every
/// winning position its amount, and removes all positions on it.
/// Resolution is final: afterwards the name reports "not found".
pub fn resolve_market_impl<E: Environment>(
    market: MarketName,
    outcome: Share,
    state: &mut RuntimeState<E>,
) -> (r: Response)
    requires
        old(state).data.wf(),
        forall|x: int|
            0 <= x < old(state).data.profiles@.len() ==> (#[trigger] old(state).data.profiles@[
                x
            ]).account.tokens + MAX_SHARES <= u64::MAX,
    ensures
        final(state).data.wf(),
        final(state).env == old(state).env,
        r == resolve_outcome(old(state).data, market@),
        r == Response::Success ==> resolve_post(
            old(state).data,
            final(state).data,
            market@,
            outcome,
        ),
        r != Response::Success ==> final(state).data == old(state).data,
{
    let ghost d0 = state.data;
    let mi = match find_market_index(&state.data.markets, &market) {
        Some(i) => i,
        None => {
            return Response::Error(ErrorKind::MarketNotFound);
        },
    };
    proof {
        d0.lemma_market_index(market@, mi as int);
    }
    let removed = state.data.markets.remove(mi);
    let ghost name = market@;
    let mut i: usize = 0;
    while i < state.data.profiles.len()
        invariant
            d0.wf(),
            state.env == old(state).env,
            state.data.markets@ == d0.markets@.remove(mi as int),
            0 <= mi < d0.markets@.len(),
            d0.markets@[mi as int].name@ == name,
            d0.market_index(name) == mi,
            removed == d0.markets@[mi as int],
            name == removed.name@,
            state.data.profiles@.len() == d0.profiles@.len(),
            i <= d0.profiles@.len(),
            forall|x: int|
                0 <= x < d0.profiles@.len() ==> (#[trigger] d0.profiles@[x]).account.tokens
                    + MAX_SHARES <= u64::MAX,
            forall|x: int|
                i <= x < d0.profiles@.len() ==> #[trigger] state.data.profiles@[x]
                    == d0.profiles@[x],
            forall|x: int|
                #![trigger state.data.profiles@[x]]
                0 <= x < i ==> {
                    let p0 = d0.profiles@[x];
                    let p1 = state.data.profiles@[x];
                    &&& p1.principal == p0.principal
                    &&& p1.profile == p0.profile
                    &&& p1.account.tokens == p0.account.tokens + p0.account.holding(name, outcome)
                    &&& !has_entry(p1.account.positions@, name)
                    &&& p1.account.wf()
                    &&& forall|jj: int|
                        0 <= jj < p1.account.positions@.len() ==> (#[trigger] p1.account.positions@[
                            jj
                        ]).market@ != name && d0.has_market(p1.account.positions@[jj].market@)
                    &&& forall|nm: Seq<char>, sh: Share|
                        nm != name ==> #[trigger] p1.account.holding(nm, sh) == p0.account.holding(
                            nm,
                            sh,
                        )
                },
            forall|nm: Seq<char>, sh: Share|
                nm != name ==> #[trigger] total_holding(state.data.profiles@, nm, sh)
                    == total_holding(d0.profiles@, nm, sh),
        decreases d0.profiles@.len() - i,
    {
        let ghost cur = state.data.profiles@;
        let ghost p0x = d0.profiles@[i as int];
        match find_position_index(&state.data.profiles[i].account.positions, &removed.name) {
            None => {
                proof {
                    lemma_holding_zero(p0x.account.positions@, name, outcome);
                }
            },
            Some(j) => {
                proof {
                    lemma_position_index(p0x.account, name, j as int);
                    lemma_holding_unique(p0x.account.positions@, j as int, name, outcome);
                    let side = p0x.account.positions@[j as int].position.share;
                    lemma_holding_unique(p0x.account.positions@, j as int, name, side);
                    lemma_total_member_le(d0.profiles@, i as int, name, side);
                }
                let mut entry = state.data.profiles.remove(i);
                let pos_share = entry.account.positions[j].position.share;
                let pos_amount = entry.account.positions[j].position.amount;
                entry.account.positions.remove(j);
                if pos_share == outcome {
                    entry.account.tokens = entry.account.tokens + pos_amount;
                }
                state.data.profiles.insert(i, entry);
                proof {
                    let ps0 = p0x.account.positions@;
                    let p1 = state.data.profiles@[i as int];
                    assert(state.data.profiles@ =~= cur.update(i as int, p1));
                    assert forall|nm: Seq<char>, sh: Share| #![all_triggers] true implies {
                        &&& (nm == name) ==> p1.account.holding(nm, sh) == 0
                        &&& (nm != name) ==> p1.account.holding(nm, sh) == p0x.account.holding(
                            nm,
                            sh,
                        )
                    } by {
                        lemma_holding_remove(ps0, j as int, nm, sh);
                        if nm == name {
                            lemma_holding_unique(ps0, j as int, nm, sh);
                            assert forall|x: int|
                                0 <= x < p1.account.positions@.len() implies (#[trigger]
                            p1.account.positions@[x]).market@ != nm by {
                                let x0 = if x < j as int {
                                    x
                                } else {
                                    x + 1
                                };
                                assert(p1.account.positions@[x] == ps0[x0]);
                                if x0 < j as int {
                                    assert(ps0[x0].market@ != ps0[j as int].market@);
                                } else if x0 > j as int {
                                    assert(ps0[j as int].market@ != ps0[x0].market@);
                                }
                            }
                            lemma_holding_zero(p1.account.positions@, nm, sh);
                        }
                    }
                    // the removed entry's market is gone from the account
                    assert forall|x: int|
                        0 <= x < p1.account.positions@.len() implies (#[trigger]
                    p1.account.positions@[x]).market@ != name && d0.has_market(
                        p1.account.positions@[x].market@,
                    ) by {
                        let x0 = if x < j as int {
                            x
                        } else {
                            x + 1
                        };
                        assert(p1.account.positions@[x] == ps0[x0]);
                        if x0 < j as int {
                            assert(ps0[x0].market@ != ps0[j as int].market@);
                        } else if x0 > j as int {
                            assert(ps0[j as int].market@ != ps0[x0].market@);
                        }
                    }
                    assert(p1.account.wf()) by {
                        assert forall|x: int, y: int|
                            0 <= x < y < p1.account.positions@.len() implies p1.account.positions@[
                            x
                        ].market@ != p1.account.positions@[y].market@ by {
                            let x0 = if x < j as int {
                                x
                            } else {
                                x + 1
                            };
                            let y0 = if y < j as int {
                                y
                            } else {
                                y + 1
                            };
                            assert(p1.account.positions@[x] == ps0[x0]);
                            assert(p1.account.positions@[y] == ps0[y0]);
                        }
                    }
                    assert forall|nm: Seq<char>, sh: Share| nm != name implies #[trigger]
                    total_holding(state.data.profiles@, nm, sh) == total_holding(
                        d0.profiles@,
                        nm,
                        sh,
                    ) by {
                        lemma_total_update(cur, i as int, p1, nm, sh);
                    }
                }
            },
        }
        i = i + 1;
    }
    proof {
        let d1 = state.data;
        // the resolved name is gone
        assert forall|x: int| 0 <= x < d1.markets@.len() implies (#[trigger] d1.markets@[
            x
        ]).name@ != name by {
            let x0 = if x < mi as int {
                x
            } else {
                x + 1
            };
            assert(d1.markets@[x] == d0.markets@[x0]);
            if x0 < mi as int {
                assert(d0.markets@[x0].name@ != d0.markets@[mi as int].name@);
            } else if x0 > mi as int {
                assert(d0.markets@[mi as int].name@ != d0.markets@[x0].name@);
            }
        }
        if d1.has_market(name) {
            let w = d1.market_index(name);
        }
        // uniqueness and validity of the remaining markets
        assert forall|x: int, y: int|
            0 <= x < y < d1.markets@.len() implies d1.markets@[x].name@ != d1.markets@[
            y
        ].name@ by {
            let x0 = if x < mi as int {
                x
            } else {
                x + 1
            };
            let y0 = if y < mi as int {
                y
            } else {
                y + 1
            };
            assert(d1.markets@[x] == d0.markets@[x0]);
            assert(d1.markets@[y] == d0.markets@[y0]);
        }
        assert forall|x: int| 0 <= x < d1.markets@.len() implies (#[trigger] d1.markets@[
            x
        ]).valid() by {
            let x0 = if x < mi as int {
                x
            } else {
                x + 1
            };
            assert(d1.markets@[x] == d0.markets@[x0]);
        }
        // positions reference surviving markets
        assert forall|x: int, jj: int|
            0 <= x < d1.profiles@.len() && 0 <= jj
                < d1.profiles@[x].account.positions@.len() implies d1.has_market(
            #[trigger] d1.profiles@[x].account.positions@[jj].market@,
        ) by {
            let nm = d1.profiles@[x].account.positions@[jj].market@;
            assert(nm != name);
            assert(d0.has_market(nm));
            let w = d0.market_index(nm);
            let w1 = if w < mi as int {
                w
            } else {
                w - 1
            };
            assert(d1.markets@[w1] == d0.markets@[w]);
        }
        // conservation on the remaining markets
        assert forall|k: int|
            0 <= k < d1.markets@.len() implies (#[trigger] d1.markets@[k]).yes_shares
                == total_holding(d1.profiles@, d1.markets@[k].name@, Share::Yes) && d1.markets@[
            k
        ].no_shares == total_holding(d1.profiles@, d1.markets@[k].name@, Share::No) by {
            let x0 = if k < mi as int {
                k
            } else {
                k + 1
            };
            assert(d1.markets@[k] == d0.markets@[x0]);
        }
        assert(d1.wf());
    }
    Response::Success
}

} // verus!
