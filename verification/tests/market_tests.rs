use prediction_market::env::TestEnvironment;
use prediction_market::fixed::{checked_sub, SCALE};
use prediction_market::market::{
    buy_impl, buying_power_impl, get_market_impl, get_markets_impl, new_market_impl,
    resolve_market_impl, sell_impl,
};
use prediction_market::pricing::{buying_power_, cost, trade_cost};
use prediction_market::profile::{get_account_impl, join_impl};
use prediction_market::types::{ErrorKind, Market, Profile, Response, Share};
use prediction_market::{Data, RuntimeState};

fn fresh(caller: u64) -> RuntimeState<TestEnvironment> {
    RuntimeState::new(TestEnvironment { now: 0, caller }, Data::default())
}

fn profile(name: &str, description: &str) -> Profile {
    Profile { name: name.to_string(), description: description.to_string() }
}

#[test]
fn test_get_market() {
    let mut state = fresh(0);

    assert_eq!(
        Response::Success,
        new_market_impl("name".to_string(), "description".to_string(), &mut state)
    );
    assert!(state.data.markets.iter().any(|m| m.name == "name"));
    assert!(get_market_impl("name".to_string(), &mut state).is_some());
}

#[test]
fn test_buying_power() {
    let mut state = fresh(0);

    assert_eq!(
        Response::Success,
        new_market_impl("name".to_string(), "description".to_string(), &mut state)
    );
    assert_eq!(
        Response::Success,
        join_impl(profile("p name", "p description"), &mut state)
    );
    assert_eq!(
        Response::Success,
        buy_impl("name".to_string(), Share::Yes, 10 * SCALE, &mut state)
    );
    let account = get_account_impl(&mut state).unwrap();
    let market = get_market_impl("name".to_string(), &mut state).unwrap().market;

    // How many `Yes` shares we can buy for all of the remaining tokens.
    let buying_power = buying_power_(&market, Share::Yes, account.tokens);
    assert_eq!(
        Response::Success,
        buy_impl("name".to_string(), Share::Yes, buying_power, &mut state)
    );
    let account = get_account_impl(&mut state).unwrap();

    // We should have no tokens left.
    assert_eq!(0, account.tokens);
}

#[test]
fn test_new_market_duplicate() {
    let mut state = fresh(0);
    assert_eq!(
        Response::Success,
        new_market_impl("m".to_string(), "d".to_string(), &mut state)
    );
    let r = new_market_impl("m".to_string(), "other".to_string(), &mut state);
    assert_eq!(Response::Error(ErrorKind::MarketAlreadyExists), r);
    if let Response::Error(kind) = r {
        assert_eq!("Market already exists", kind.message());
    }
    assert_eq!(1, get_markets_impl(&mut state).len());
}

#[test]
fn test_buy_debits_trade_cost() {
    // Scenario: create market "M"; enroll with starting balance 100; buy
    // 10 Yes shares; the debit equals cost(10, 0) - cost(0, 0) and the
    // market's yes supply is 10 shares.
    let mut state = fresh(7);
    assert_eq!(
        Response::Success,
        new_market_impl("M".to_string(), "d".to_string(), &mut state)
    );
    assert_eq!(Response::Success, join_impl(profile("a", ""), &mut state));
    assert_eq!(
        Response::Success,
        buy_impl("M".to_string(), Share::Yes, 10 * SCALE, &mut state)
    );

    let expected_debit = cost(10 * SCALE, 0) - cost(0, 0);
    assert_eq!(6_201_144, expected_debit);
    let account = get_account_impl(&mut state).unwrap();
    assert_eq!(100 * SCALE - expected_debit, account.tokens);

    let market = get_market_impl("M".to_string(), &mut state).unwrap().market;
    assert_eq!(10 * SCALE, market.yes_shares);
    assert_eq!(0, market.no_shares);
    assert_eq!(1, account.positions.len());
    assert_eq!(Share::Yes, account.positions[0].position.share);
    assert_eq!(10 * SCALE, account.positions[0].position.amount);
}

#[test]
fn test_buy_insufficient_funds_mutates_nothing() {
    let mut state = fresh(3);
    assert_eq!(
        Response::Success,
        new_market_impl("M".to_string(), "d".to_string(), &mut state)
    );
    assert_eq!(Response::Success, join_impl(profile("a", ""), &mut state));

    // 200 Yes shares cost about 193 tokens, far over the starting 100.
    let r = buy_impl("M".to_string(), Share::Yes, 200 * SCALE, &mut state);
    assert_eq!(Response::Error(ErrorKind::NotEnoughFunds), r);
    if let Response::Error(kind) = r {
        assert_eq!("Not enough funds", kind.message());
    }

    let market = get_market_impl("M".to_string(), &mut state).unwrap().market;
    assert_eq!(0, market.yes_shares);
    assert_eq!(0, market.no_shares);
    let account = get_account_impl(&mut state).unwrap();
    assert_eq!(100 * SCALE, account.tokens);
    assert!(account.positions.is_empty());
}

#[test]
fn test_sell_without_position_mutates_nothing() {
    let mut state = fresh(3);
    assert_eq!(
        Response::Success,
        new_market_impl("M".to_string(), "d".to_string(), &mut state)
    );
    assert_eq!(Response::Success, join_impl(profile("a", ""), &mut state));

    let r = sell_impl("M".to_string(), Share::Yes, SCALE, &mut state);
    assert_eq!(Response::Error(ErrorKind::ShortSellingNotSupported), r);
    if let Response::Error(kind) = r {
        assert_eq!("Short selling is not supported", kind.message());
    }
    let market = get_market_impl("M".to_string(), &mut state).unwrap().market;
    assert_eq!(0, market.yes_shares);
    let account = get_account_impl(&mut state).unwrap();
    assert_eq!(100 * SCALE, account.tokens);
}

#[test]
fn test_round_trip_restores_balance_and_removes_position() {
    let mut state = fresh(5);
    assert_eq!(
        Response::Success,
        new_market_impl("M".to_string(), "d".to_string(), &mut state)
    );
    assert_eq!(Response::Success, join_impl(profile("a", ""), &mut state));

    assert_eq!(
        Response::Success,
        buy_impl("M".to_string(), Share::Yes, 5 * SCALE, &mut state)
    );
    assert_eq!(
        Response::Success,
        sell_impl("M".to_string(), Share::Yes, 5 * SCALE, &mut state)
    );

    let account = get_account_impl(&mut state).unwrap();
    assert_eq!(100 * SCALE, account.tokens);
    assert!(account.positions.is_empty());
    let market = get_market_impl("M".to_string(), &mut state).unwrap().market;
    assert_eq!(0, market.yes_shares);
    assert_eq!(0, market.no_shares);
}

#[test]
fn test_buy_opposite_share_rejected() {
    let mut state = fresh(5);
    assert_eq!(
        Response::Success,
        new_market_impl("M".to_string(), "d".to_string(), &mut state)
    );
    assert_eq!(Response::Success, join_impl(profile("a", ""), &mut state));
    assert_eq!(
        Response::Success,
        buy_impl("M".to_string(), Share::Yes, SCALE, &mut state)
    );
    let r = buy_impl("M".to_string(), Share::No, SCALE, &mut state);
    assert_eq!(Response::Error(ErrorKind::AlreadyOwnsOppositeShare), r);
    if let Response::Error(kind) = r {
        assert_eq!("Account already owns opposite share", kind.message());
    }
}

#[test]
fn test_sell_opposite_share_and_oversell_rejected() {
    let mut state = fresh(5);
    assert_eq!(
        Response::Success,
        new_market_impl("M".to_string(), "d".to_string(), &mut state)
    );
    assert_eq!(Response::Success, join_impl(profile("a", ""), &mut state));
    assert_eq!(
        Response::Success,
        buy_impl("M".to_string(), Share::Yes, 5 * SCALE, &mut state)
    );

    let r = sell_impl("M".to_string(), Share::No, SCALE, &mut state);
    assert_eq!(Response::Error(ErrorKind::OwnsOppositeShare), r);
    if let Response::Error(kind) = r {
        assert_eq!("Account owns opposite share", kind.message());
    }

    let r = sell_impl("M".to_string(), Share::Yes, 10 * SCALE, &mut state);
    assert_eq!(Response::Error(ErrorKind::NotEnoughShares), r);
    if let Response::Error(kind) = r {
        assert_eq!("Not enough shares", kind.message());
    }
}

#[test]
fn test_resolution_pays_winners_and_retires_market() {
    // A holds 10 Yes, B holds 5 No; resolving Yes pays A ten tokens,
    // leaves B's balance unchanged, and removes the market.
    let mut state = fresh(1);
    assert_eq!(
        Response::Success,
        new_market_impl("M".to_string(), "d".to_string(), &mut state)
    );
    assert_eq!(Response::Success, join_impl(profile("a", ""), &mut state));
    assert_eq!(
        Response::Success,
        buy_impl("M".to_string(), Share::Yes, 10 * SCALE, &mut state)
    );

    state.env.caller = 2;
    assert_eq!(Response::Success, join_impl(profile("b", ""), &mut state));
    assert_eq!(
        Response::Success,
        buy_impl("M".to_string(), Share::No, 5 * SCALE, &mut state)
    );
    let b_before = get_account_impl(&mut state).unwrap().tokens;
    state.env.caller = 1;
    let a_before = get_account_impl(&mut state).unwrap().tokens;

    assert_eq!(
        Response::Success,
        resolve_market_impl("M".to_string(), Share::Yes, &mut state)
    );

    let a_after = get_account_impl(&mut state).unwrap();
    assert_eq!(a_before + 10 * SCALE, a_after.tokens);
    assert!(a_after.positions.is_empty());
    state.env.caller = 2;
    let b_after = get_account_impl(&mut state).unwrap();
    assert_eq!(b_before, b_after.tokens);
    assert!(b_after.positions.is_empty());
    assert!(get_market_impl("M".to_string(), &mut state).is_none());
}

#[test]
fn test_resolve_missing_market_is_idempotent_failure() {
    let mut state = fresh(1);
    assert_eq!(
        Response::Success,
        new_market_impl("M".to_string(), "d".to_string(), &mut state)
    );
    assert_eq!(Response::Success, join_impl(profile("a", ""), &mut state));
    assert_eq!(
        Response::Success,
        buy_impl("M".to_string(), Share::Yes, SCALE, &mut state)
    );
    assert_eq!(
        Response::Success,
        resolve_market_impl("M".to_string(), Share::Yes, &mut state)
    );
    let balance = get_account_impl(&mut state).unwrap().tokens;

    // A second resolution of the same (now removed) market pays nothing.
    let r = resolve_market_impl("M".to_string(), Share::Yes, &mut state);
    assert_eq!(Response::Error(ErrorKind::MarketNotFound), r);
    if let Response::Error(kind) = r {
        assert_eq!("Market not found", kind.message());
    }
    assert_eq!(balance, get_account_impl(&mut state).unwrap().tokens);

    let r = resolve_market_impl("unknown".to_string(), Share::No, &mut state);
    assert_eq!(Response::Error(ErrorKind::MarketNotFound), r);
}

#[test]
fn test_prices_sum_to_one() {
    let mut state = fresh(1);
    assert_eq!(
        Response::Success,
        new_market_impl("M".to_string(), "d".to_string(), &mut state)
    );
    // A balanced market prices both sides at exactly half a token.
    let ms = get_market_impl("M".to_string(), &mut state).unwrap();
    assert_eq!(SCALE / 2, ms.yes_price);
    assert_eq!(SCALE / 2, ms.no_price);

    assert_eq!(Response::Success, join_impl(profile("a", ""), &mut state));
    assert_eq!(
        Response::Success,
        buy_impl("M".to_string(), Share::Yes, 10 * SCALE, &mut state)
    );
    let ms = get_market_impl("M".to_string(), &mut state).unwrap();
    let sum = ms.yes_price + ms.no_price;
    assert!(sum == SCALE || sum == SCALE - 1);
    assert!(ms.yes_price > ms.no_price);
    assert!(ms.no_price > 0);
}

#[test]
fn test_buying_power_absent_cases() {
    let mut state = fresh(1);
    assert_eq!(0, buying_power_impl("M".to_string(), Share::Yes, &mut state));
    assert_eq!(
        Response::Success,
        new_market_impl("M".to_string(), "d".to_string(), &mut state)
    );
    // Enrolled nobody yet: still zero.
    assert_eq!(0, buying_power_impl("M".to_string(), Share::Yes, &mut state));
    assert_eq!(Response::Success, join_impl(profile("a", ""), &mut state));
    assert!(buying_power_impl("M".to_string(), Share::Yes, &mut state) > 0);
}

#[test]
fn test_buying_power_inverts_trade_cost() {
    // A budget of exactly trade_cost(X) buys back exactly X.
    let mut state = fresh(1);
    assert_eq!(
        Response::Success,
        new_market_impl("M".to_string(), "d".to_string(), &mut state)
    );
    let market = get_market_impl("M".to_string(), &mut state).unwrap().market;
    let x = 7 * SCALE;
    let budget = cost(x, 0) - cost(0, 0);
    let bp = buying_power_(&market, Share::Yes, budget);
    assert_eq!(x, bp);
}

#[test]
fn test_checked_sub_tolerance() {
    assert_eq!(Ok(2), checked_sub(5, 3));
    assert_eq!(Ok(0), checked_sub(3, 3));
    // one unit below collapses to zero, two report underflow
    assert_eq!(Ok(0), checked_sub(3, 4));
    assert_eq!(Err(()), checked_sub(3, 5));
}

#[test]
fn test_cost_reference_values() {
    // cost(0, 0) is B ln 2; ten units along one side tracks the closed
    // form B ln(exp(1) + 1) to within a unit.
    assert_eq!(6_931_472, cost(0, 0));
    assert_eq!(13_132_616, cost(10 * SCALE, 0));
    assert_eq!(cost(10 * SCALE, 0), cost(0, 10 * SCALE));
}

#[test]
fn test_cost_monotone_and_trade_cost_signs() {
    // cost is non-decreasing in each argument across sample supplies, and
    // symmetric in its two arguments.
    let pts: [u64; 8] = [0, 1, 500_000, SCALE, 5 * SCALE, 10 * SCALE, 50 * SCALE, 100 * SCALE];
    for &n in &pts {
        for w in pts.windows(2) {
            assert!(cost(w[0], n) <= cost(w[1], n));
            assert!(cost(n, w[0]) <= cost(n, w[1]));
        }
        for &y in &pts {
            assert_eq!(cost(y, n), cost(n, y));
        }
    }

    // a buy costs tokens, a sell pays out
    let m = Market {
        name: "m".to_string(),
        description: String::new(),
        yes_shares: 10 * SCALE,
        no_shares: 3 * SCALE,
    };
    assert!(trade_cost(&m, Share::Yes, SCALE as i64) > 0);
    assert!(trade_cost(&m, Share::No, SCALE as i64) > 0);
    assert!(trade_cost(&m, Share::Yes, -(SCALE as i64)) < 0);
    assert!(trade_cost(&m, Share::No, -(SCALE as i64)) < 0);
}
