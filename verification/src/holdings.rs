//! Lemmas about position holdings and their sums across accounts.
//!
//! These carry the ledger invariant — each side's share supply equals the
//! sum of the open positions on it — through the sequence edits the trade
//! and resolution operations make.

use vstd::prelude::*;

use crate::types::{
    entry_amount, holding_of, total_holding, PositionEntry, ProfileEntry, Share,
};

verus! {

pub proof fn lemma_holding_nonneg(s: Seq<PositionEntry>, name: Seq<char>, share: Share)
    ensures
        holding_of(s, name, share) >= 0,
    decreases s.len(),
{
    if s.len() > 0 {
        lemma_holding_nonneg(s.drop_first(), name, share);
    }
}

pub proof fn lemma_holding_push(
    s: Seq<PositionEntry>,
    e: PositionEntry,
    name: Seq<char>,
    share: Share,
)
    ensures
        holding_of(s.push(e), name, share) == holding_of(s, name, share) + entry_amount(
            e,
            name,
            share,
        ),
    decreases s.len(),
{
    if s.len() == 0 {
        assert(s.push(e)[0] == e);
        assert(s.push(e).drop_first() =~= s);
    } else {
        assert(s.push(e)[0] == s[0]);
        assert(s.push(e).drop_first() =~= s.drop_first().push(e));
        lemma_holding_push(s.drop_first(), e, name, share);
    }
}

pub proof fn lemma_holding_update(
    s: Seq<PositionEntry>,
    i: int,
    e: PositionEntry,
    name: Seq<char>,
    share: Share,
)
    requires
        0 <= i < s.len(),
    ensures
        holding_of(s.update(i, e), name, share) == holding_of(s, name, share) - entry_amount(
            s[i],
            name,
            share,
        ) + entry_amount(e, name, share),
    decreases s.len(),
{
    if i == 0 {
        assert(s.update(0, e)[0] == e);
        assert(s.update(0, e).drop_first() =~= s.drop_first());
    } else {
        assert(s.update(i, e)[0] == s[0]);
        assert(s.update(i, e).drop_first() =~= s.drop_first().update(i - 1, e));
        lemma_holding_update(s.drop_first(), i - 1, e, name, share);
    }
}

pub proof fn lemma_holding_remove(s: Seq<PositionEntry>, i: int, name: Seq<char>, share: Share)
    requires
        0 <= i < s.len(),
    ensures
        holding_of(s.remove(i), name, share) == holding_of(s, name, share) - entry_amount(
            s[i],
            name,
            share,
        ),
    decreases s.len(),
{
    if i == 0 {
        assert(s.remove(0) =~= s.drop_first());
    } else {
        assert(s.remove(i)[0] == s[0]);
        assert(s.remove(i).drop_first() =~= s.drop_first().remove(i - 1));
        lemma_holding_remove(s.drop_first(), i - 1, name, share);
    }
}

pub proof fn lemma_holding_zero(s: Seq<PositionEntry>, name: Seq<char>, share: Share)
    requires
        forall|j: int| 0 <= j < s.len() ==> (#[trigger] s[j]).market@ != name,
    ensures
        holding_of(s, name, share) == 0,
    decreases s.len(),
{
    if s.len() > 0 {
        assert forall|j: int| 0 <= j < s.drop_first().len() implies (#[trigger] s.drop_first()[j]).market@ != name by {
            assert(s.drop_first()[j] == s[j + 1]);
        }
        lemma_holding_zero(s.drop_first(), name, share);
    }
}

/// With unique market names, the holding on `name` is exactly what the one
/// entry on `name` contributes.
pub proof fn lemma_holding_unique(s: Seq<PositionEntry>, i: int, name: Seq<char>, share: Share)
    requires
        0 <= i < s.len(),
        s[i].market@ == name,
        forall|p: int, q: int| 0 <= p < q < s.len() ==> s[p].market@ != s[q].market@,
    ensures
        holding_of(s, name, share) == entry_amount(s[i], name, share),
    decreases s.len(),
{
    if i == 0 {
        assert forall|j: int| 0 <= j < s.drop_first().len() implies (#[trigger] s.drop_first()[j]).market@ != name by {
            assert(s.drop_first()[j] == s[j + 1]);
            assert(s[0].market@ != s[j + 1].market@);
        }
        lemma_holding_zero(s.drop_first(), name, share);
    } else {
        assert(s[0].market@ != s[i].market@);
        assert forall|p: int, q: int|
            0 <= p < q < s.drop_first().len() implies s.drop_first()[p].market@ != s.drop_first()[q].market@ by {
            assert(s.drop_first()[p] == s[p + 1]);
            assert(s.drop_first()[q] == s[q + 1]);
        }
        assert(s.drop_first()[i - 1] == s[i]);
        lemma_holding_unique(s.drop_first(), i - 1, name, share);
    }
}

/// A position list with no entry on `name` holds nothing on it.
pub proof fn lemma_holding_absent(s: Seq<PositionEntry>, name: Seq<char>, share: Share)
    requires
        !crate::types::has_entry(s, name),
    ensures
        holding_of(s, name, share) == 0,
{
    assert forall|j: int| 0 <= j < s.len() implies (#[trigger] s[j]).market@ != name by {
        if s[j].market@ == name {
            assert(crate::types::has_entry(s, name));
        }
    }
    lemma_holding_zero(s, name, share);
}

pub proof fn lemma_total_nonneg(ps: Seq<ProfileEntry>, name: Seq<char>, share: Share)
    ensures
        total_holding(ps, name, share) >= 0,
    decreases ps.len(),
{
    if ps.len() > 0 {
        lemma_holding_nonneg(ps[0].account.positions@, name, share);
        lemma_total_nonneg(ps.drop_first(), name, share);
    }
}

pub proof fn lemma_total_push(
    ps: Seq<ProfileEntry>,
    p: ProfileEntry,
    name: Seq<char>,
    share: Share,
)
    ensures
        total_holding(ps.push(p), name, share) == total_holding(ps, name, share)
            + p.account.holding(name, share),
    decreases ps.len(),
{
    if ps.len() == 0 {
        assert(ps.push(p)[0] == p);
        assert(ps.push(p).drop_first() =~= ps);
    } else {
        assert(ps.push(p)[0] == ps[0]);
        assert(ps.push(p).drop_first() =~= ps.drop_first().push(p));
        lemma_total_push(ps.drop_first(), p, name, share);
    }
}

pub proof fn lemma_total_update(
    ps: Seq<ProfileEntry>,
    i: int,
    p: ProfileEntry,
    name: Seq<char>,
    share: Share,
)
    requires
        0 <= i < ps.len(),
    ensures
        total_holding(ps.update(i, p), name, share) == total_holding(ps, name, share) - ps[i].account.holding(name, share) + p.account.holding(name, share),
    decreases ps.len(),
{
    if i == 0 {
        assert(ps.update(0, p)[0] == p);
        assert(ps.update(0, p).drop_first() =~= ps.drop_first());
    } else {
        assert(ps.update(i, p)[0] == ps[0]);
        assert(ps.update(i, p).drop_first() =~= ps.drop_first().update(i - 1, p));
        lemma_total_update(ps.drop_first(), i - 1, p, name, share);
    }
}

/// Every single account holds at most the total.
pub proof fn lemma_total_member_le(ps: Seq<ProfileEntry>, i: int, name: Seq<char>, share: Share)
    requires
        0 <= i < ps.len(),
    ensures
        ps[i].account.holding(name, share) <= total_holding(ps, name, share),
    decreases ps.len(),
{
    if i == 0 {
        lemma_total_nonneg(ps.drop_first(), name, share);
    } else {
        lemma_holding_nonneg(ps[0].account.positions@, name, share);
        assert(ps.drop_first()[i - 1] == ps[i]);
        lemma_total_member_le(ps.drop_first(), i - 1, name, share);
    }
}

/// If no account holds a position on `name`, the total on it is zero.
pub proof fn lemma_total_zero(ps: Seq<ProfileEntry>, name: Seq<char>, share: Share)
    requires
        forall|i: int, j: int|
            0 <= i < ps.len() && 0 <= j < ps[i].account.positions@.len() ==> (#[trigger] ps[i].account.positions@[j]).market@ != name,
    ensures
        total_holding(ps, name, share) == 0,
    decreases ps.len(),
{
    if ps.len() > 0 {
        assert forall|j: int| 0 <= j < ps[0].account.positions@.len() implies (#[trigger] ps[0].account.positions@[j]).market@ != name by {}
        lemma_holding_zero(ps[0].account.positions@, name, share);
        assert forall|i: int, j: int|
            0 <= i < ps.drop_first().len() && 0 <= j
                < ps.drop_first()[i].account.positions@.len() implies (#[trigger] ps.drop_first()[i].account.positions@[j]).market@ != name by {
            assert(ps.drop_first()[i] == ps[i + 1]);
        }
        lemma_total_zero(ps.drop_first(), name, share);
    }
}

} // verus!
