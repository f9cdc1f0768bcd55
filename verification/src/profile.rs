//! Enrollment and profile management: the account ledger's outer edge.
//!
//! Enrollment creates the account with its fixed starting balance; profile
//! names are unique, case-sensitive display keys; search walks the profiles
//! in enrollment order and compares case-insensitively.

use vstd::prelude::*;

use crate::env::Environment;
use crate::holdings::{lemma_total_update, lemma_total_zero};
use crate::types::{
    total_holding, Account, PositionEntry, Profile, ProfileEntry, Response, Share,
};
use crate::types::ErrorKind;
use crate::{Data, RuntimeState};

verus! {

/// Index of the profile with this display name (meaningful when it exists;
/// unique under `Data::wf`).
pub open spec fn profile_name_index(d: Data, name: Seq<char>) -> int {
    choose|i: int| 0 <= i < d.profiles@.len() && d.profiles@[i].profile.name@ == name
}

proof fn lemma_profile_name_index(d: Data, name: Seq<char>, i: int)
    requires
        d.wf(),
        0 <= i < d.profiles@.len(),
        d.profiles@[i].profile.name@ == name,
    ensures
        d.has_profile_name(name),
        profile_name_index(d, name) == i,
{
    assert(d.has_profile_name(name));
    let j = profile_name_index(d, name);
    if i < j {
        assert(d.profiles@[i].profile.name@ != d.profiles@[j].profile.name@);
    } else if j < i {
        assert(d.profiles@[j].profile.name@ != d.profiles@[i].profile.name@);
    }
}

/// Index of the caller's entry, if enrolled.
fn find_profile_index(profiles: &Vec<ProfileEntry>, principal: u64) -> (r: Option<usize>)
    ensures
        match r {
            Some(i) => 0 <= i < profiles@.len() && profiles@[i as int].principal == principal,
            None => forall|j: int| 0 <= j < profiles@.len() ==> profiles@[j].principal
                != principal,
        },
{
    let mut i: usize = 0;
    while i < profiles.len()
        invariant
            i <= profiles@.len(),
            forall|j: int| 0 <= j < i ==> profiles@[j].principal != principal,
        decreases profiles@.len() - i,
    {
        if profiles[i].principal == principal {
            return Some(i);
        }
        i = i + 1;
    }
    None
}

/// Index of the profile with this display name, if any.
fn find_name_index(profiles: &Vec<ProfileEntry>, name: &String) -> (r: Option<usize>)
    ensures
        match r {
            Some(i) => 0 <= i < profiles@.len() && profiles@[i as int].profile.name@ == name@,
            None => forall|j: int| 0 <= j < profiles@.len() ==> profiles@[j].profile.name@
                != name@,
        },
{
    let mut i: usize = 0;
    while i < profiles.len()
        invariant
            i <= profiles@.len(),
            forall|j: int| 0 <= j < i ==> profiles@[j].profile.name@ != name@,
        decreases profiles@.len() - i,
    {
        if profiles[i].profile.name == *name {
            return Some(i);
        }
        i = i + 1;
    }
    None
}

/// An owned copy of a profile, equal to the original.
fn clone_profile(p: &Profile) -> (r: Profile)
    ensures
        r == *p,
{
    Profile { name: p.name.clone(), description: p.description.clone() }
}

/// An owned copy of an account, with the same balance and positions.
fn clone_account(a: &Account) -> (r: Account)
    ensures
        r.tokens == a.tokens,
        r.positions@ == a.positions@,
{
    let mut ps: Vec<PositionEntry> = Vec::new();
    let mut i: usize = 0;
    while i < a.positions.len()
        invariant
            i <= a.positions@.len(),
            ps@.len() == i,
            forall|j: int| 0 <= j < i ==> ps@[j] == a.positions@[j],
        decreases a.positions@.len() - i,
    {
        let e = PositionEntry {
            market: a.positions[i].market.clone(),
            position: a.positions[i].position,
        };
        ps.push(e);
        i = i + 1;
    }
    proof {
        assert(ps@ =~= a.positions@);
    }
    Account { tokens: a.tokens, positions: ps }
}

/// The response enrollment owes for a given pre-state.
pub open spec fn join_outcome(d: Data, caller: u64, name: Seq<char>) -> Response {
    if d.has_profile(caller) {
        Response::Error(ErrorKind::PrincipalAlreadyJoined)
    } else if d.has_profile_name(name) {
        Response::Error(ErrorKind::NameAlreadyInUse)
    } else {
        Response::Success
    }
}

/// Enrolls the caller with the given profile and the fixed starting
/// balance; caller ids and profile names are unique keys.
pub fn join_impl<E: Environment>(profile: Profile, state: &mut RuntimeState<E>) -> (r: Response)
    requires
        old(state).data.wf(),
    ensures
        final(state).data.wf(),
        final(state).env == old(state).env,
        r == join_outcome(old(state).data, old(state).env.spec_caller(), profile.name@),
        r == Response::Success ==> {
            let n = old(state).data.profiles@.len() as int;
            let p = final(state).data.profiles@[n];
            &&& final(state).data.markets@ == old(state).data.markets@
            &&& final(state).data.profiles@.len() == n + 1
            &&& forall|x: int|
                0 <= x < n ==> final(state).data.profiles@[x] == old(state).data.profiles@[x]
            &&& p.principal == old(state).env.spec_caller()
            &&& p.profile == profile
            &&& p.account.tokens == 100_000_000
            &&& p.account.positions@ == Seq::<PositionEntry>::empty()
        },
        r != Response::Success ==> final(state).data == old(state).data,
{
    let ghost d0 = state.data;
    let principal = state.env.caller();
    match find_profile_index(&state.data.profiles, principal) {
        Some(i) => {
            proof {
                d0.lemma_profile_index(principal, i as int);
            }
            return Response::Error(ErrorKind::PrincipalAlreadyJoined);
        },
        None => {},
    }
    match find_name_index(&state.data.profiles, &profile.name) {
        Some(i) => {
            proof {
                lemma_profile_name_index(d0, profile.name@, i as int);
            }
            return Response::Error(ErrorKind::NameAlreadyInUse);
        },
        None => {},
    }
    let entry = ProfileEntry { principal, profile, account: Account::default() };
    state.data.profiles.push(entry);
    proof {
        let d1 = state.data;
        let p = d1.profiles@[d0.profiles@.len() as int];
        assert forall|k: int|
            0 <= k < d1.markets@.len() implies (#[trigger] d1.markets@[k]).yes_shares
                == total_holding(d1.profiles@, d1.markets@[k].name@, Share::Yes) && d1.markets@[
            k
        ].no_shares == total_holding(d1.profiles@, d1.markets@[k].name@, Share::No) by {
            let knm = d1.markets@[k].name@;
            crate::holdings::lemma_total_push(d0.profiles@, p, knm, Share::Yes);
            crate::holdings::lemma_total_push(d0.profiles@, p, knm, Share::No);
        }
        assert(d1.wf());
    }
    Response::Success
}

/// The response a profile update owes for a given pre-state.
pub open spec fn update_profile_outcome(d: Data, caller: u64, name: Seq<char>) -> Response {
    if !d.has_profile(caller) {
        Response::Error(ErrorKind::NoProfile)
    } else if d.profiles@[d.profile_index(caller)].profile.name@ != name && d.has_profile_name(
        name,
    ) {
        Response::Error(ErrorKind::NameAlreadyInUse)
    } else {
        Response::Success
    }
}

/// Replaces the caller's profile; a changed display name must still be
/// unique.  The account is untouched.
pub fn update_profile_impl<E: Environment>(profile: Profile, state: &mut RuntimeState<E>) -> (r:
    Response)
    requires
        old(state).data.wf(),
    ensures
        final(state).data.wf(),
        final(state).env == old(state).env,
        r == update_profile_outcome(old(state).data, old(state).env.spec_caller(), profile.name@),
        r == Response::Success ==> {
            let i = old(state).data.profile_index(old(state).env.spec_caller());
            let p0 = old(state).data.profiles@[i];
            &&& final(state).data.markets@ == old(state).data.markets@
            &&& final(state).data.profiles@ == old(state).data.profiles@.update(
                i,
                (ProfileEntry { principal: p0.principal, profile, account: p0.account }),
            )
        },
        r != Response::Success ==> final(state).data == old(state).data,
{
    let ghost d0 = state.data;
    let principal = state.env.caller();
    let i = match find_profile_index(&state.data.profiles, principal) {
        Some(i) => i,
        None => {
            return Response::Error(ErrorKind::NoProfile);
        },
    };
    proof {
        d0.lemma_profile_index(principal, i as int);
    }
    if !(state.data.profiles[i].profile.name == profile.name) {
        match find_name_index(&state.data.profiles, &profile.name) {
            Some(x) => {
                proof {
                    lemma_profile_name_index(d0, profile.name@, x as int);
                }
                return Response::Error(ErrorKind::NameAlreadyInUse);
            },
            None => {},
        }
    }
    let mut entry = state.data.profiles.remove(i);
    entry.profile = profile;
    state.data.profiles.insert(i, entry);
    proof {
        let d1 = state.data;
        let p1 = d1.profiles@[i as int];
        assert(d1.profiles@ =~= d0.profiles@.update(i as int, p1));
        assert forall|k: int|
            0 <= k < d1.markets@.len() implies (#[trigger] d1.markets@[k]).yes_shares
                == total_holding(d1.profiles@, d1.markets@[k].name@, Share::Yes) && d1.markets@[
            k
        ].no_shares == total_holding(d1.profiles@, d1.markets@[k].name@, Share::No) by {
            let knm = d1.markets@[k].name@;
            lemma_total_update(d0.profiles@, i as int, p1, knm, Share::Yes);
            lemma_total_update(d0.profiles@, i as int, p1, knm, Share::No);
        }
        assert forall|x: int, j: int|
            0 <= x < d1.profiles@.len() && 0 <= j
                < d1.profiles@[x].account.positions@.len() implies d1.has_market(
            #[trigger] d1.profiles@[x].account.positions@[j].market@,
        ) by {
            let nm = d1.profiles@[x].account.positions@[j].market@;
            assert(d0.profiles@[x].account == d1.profiles@[x].account);
            assert(d0.has_market(nm));
            let w = d0.market_index(nm);
            assert(d1.markets@[w].name@ == nm);
        }
        assert(d1.wf());
    }
    Response::Success
}

/// The caller's own profile and account, if enrolled.
pub fn get_self_impl<E: Environment>(state: &mut RuntimeState<E>) -> (r: Option<(Profile, Account)>)
    requires
        old(state).data.wf(),
    ensures
        *final(state) == *old(state),
        match r {
            Some(pa) => {
                let caller = old(state).env.spec_caller();
                &&& old(state).data.has_profile(caller)
                &&& pa.0 == old(state).data.profile_of(caller).profile
                &&& pa.1.tokens == old(state).data.profile_of(caller).account.tokens
                &&& pa.1.positions@ == old(state).data.profile_of(caller).account.positions@
            },
            None => !old(state).data.has_profile(old(state).env.spec_caller()),
        },
{
    let principal = state.env.caller();
    match find_profile_index(&state.data.profiles, principal) {
        None => None,
        Some(i) => {
            proof {
                state.data.lemma_profile_index(principal, i as int);
            }
            let p = clone_profile(&state.data.profiles[i].profile);
            let a = clone_account(&state.data.profiles[i].account);
            Some((p, a))
        },
    }
}

/// The profile of this display name, if any.
pub fn get_profile_impl<E: Environment>(name: String, state: &mut RuntimeState<E>) -> (r: Option<
    Profile,
>)
    requires
        old(state).data.wf(),
    ensures
        *final(state) == *old(state),
        match r {
            Some(p) => old(state).data.has_profile_name(name@) && p == old(state).data.profiles@[
                profile_name_index(old(state).data, name@)
            ].profile,
            None => !old(state).data.has_profile_name(name@),
        },
{
    match find_name_index(&state.data.profiles, &name) {
        None => None,
        Some(i) => {
            proof {
                lemma_profile_name_index(state.data, name@, i as int);
            }
            Some(clone_profile(&state.data.profiles[i].profile))
        },
    }
}

/// The caller's account, if enrolled.
pub fn get_account_impl<E: Environment>(state: &mut RuntimeState<E>) -> (r: Option<Account>)
    requires
        old(state).data.wf(),
    ensures
        *final(state) == *old(state),
        match r {
            Some(a) => {
                let caller = old(state).env.spec_caller();
                &&& old(state).data.has_profile(caller)
                &&& a.tokens == old(state).data.profile_of(caller).account.tokens
                &&& a.positions@ == old(state).data.profile_of(caller).account.positions@
            },
            None => !old(state).data.has_profile(old(state).env.spec_caller()),
        },
{
    let principal = state.env.caller();
    match find_profile_index(&state.data.profiles, principal) {
        None => None,
        Some(i) => {
            proof {
                state.data.lemma_profile_index(principal, i as int);
            }
            Some(clone_account(&state.data.profiles[i].account))
        },
    }
}

/// The case-folded characters of a string, as `str::to_lowercase` maps
/// them; a function of the characters alone.
pub uninterp spec fn lower_of(s: Seq<char>) -> Seq<char>;

/// Whether `needle` occurs in `hay` as a contiguous run of characters.
pub open spec fn spec_contains(hay: Seq<char>, needle: Seq<char>) -> bool {
    exists|i: int|
        0 <= i <= hay.len() - needle.len() && #[trigger] hay.subrange(i, i + needle.len())
            == needle
}

/// Relies on str::to_lowercase: the result depends on the characters alone,
/// and an empty string stays empty.
#[verifier::external_body]
fn to_lowercase(s: &String) -> (r: String)
    ensures
        r@ == lower_of(s@),
        s@.len() == 0 ==> r@.len() == 0,
{
    s.to_lowercase()
}

/// Relies on str::contains: true exactly when the needle is a contiguous
/// substring of the haystack.
#[verifier::external_body]
fn contains_sub(hay: &String, needle: &String) -> (r: bool)
    ensures
        r == spec_contains(hay@, needle@),
{
    hay.contains(needle.as_str())
}

/// Whether a profile matches a case-folded search text.
pub open spec fn profile_matches(p: Profile, text: Seq<char>) -> bool {
    spec_contains(lower_of(p.name@), text) || spec_contains(lower_of(p.description@), text)
}

/// The first profile, in enrollment order, whose name or description
/// contains the search text case-insensitively.
pub fn search_profile_impl<E: Environment>(text: String, state: &mut RuntimeState<E>) -> (r: Option<
    Profile,
>)
    requires
        old(state).data.wf(),
    ensures
        *final(state) == *old(state),
        ({
            let t = lower_of(text@);
            let ps = old(state).data.profiles@;
            match r {
                Some(p) => exists|i: int|
                    {
                        &&& 0 <= i < ps.len()
                        &&& p == (#[trigger] ps[i]).profile
                        &&& profile_matches(ps[i].profile, t)
                        &&& forall|j: int| 0 <= j < i ==> !profile_matches(
                            (#[trigger] ps[j]).profile,
                            t,
                        )
                    },
                None => forall|i: int|
                    0 <= i < ps.len() ==> !profile_matches((#[trigger] ps[i]).profile, t),
            }
        }),
{
    let needle = to_lowercase(&text);
    let mut i: usize = 0;
    while i < state.data.profiles.len()
        invariant
            *state == *old(state),
            i <= state.data.profiles@.len(),
            needle@ == lower_of(text@),
            forall|j: int|
                0 <= j < i ==> !profile_matches(
                    (#[trigger] state.data.profiles@[j]).profile,
                    lower_of(text@),
                ),
        decreases state.data.profiles@.len() - i,
    {
        let lname = to_lowercase(&state.data.profiles[i].profile.name);
        let ldesc = to_lowercase(&state.data.profiles[i].profile.description);
        if contains_sub(&lname, &needle) || contains_sub(&ldesc, &needle) {
            return Some(clone_profile(&state.data.profiles[i].profile));
        }
        i = i + 1;
    }
    None
}

} // verus!
