use prediction_market::env::TestEnvironment;
use prediction_market::profile::{
    get_account_impl, get_profile_impl, get_self_impl, join_impl, search_profile_impl,
    update_profile_impl,
};
use prediction_market::types::{ErrorKind, Profile, Response};
use prediction_market::{Data, RuntimeState};

fn fresh(caller: u64) -> RuntimeState<TestEnvironment> {
    RuntimeState::new(TestEnvironment { now: 0, caller }, Data::default())
}

fn profile(name: &str, description: &str) -> Profile {
    Profile { name: name.to_string(), description: description.to_string() }
}

#[test]
fn test_join_creates_account_with_starting_balance() {
    let mut state = fresh(9);
    assert!(get_self_impl(&mut state).is_none());
    assert_eq!(Response::Success, join_impl(profile("ann", "first"), &mut state));

    let (p, a) = get_self_impl(&mut state).unwrap();
    assert_eq!("ann", p.name);
    assert_eq!("first", p.description);
    assert_eq!(100_000_000, a.tokens);
    assert!(a.positions.is_empty());
    assert_eq!(100_000_000, get_account_impl(&mut state).unwrap().tokens);
}

#[test]
fn test_join_duplicate_principal() {
    let mut state = fresh(9);
    assert_eq!(Response::Success, join_impl(profile("ann", ""), &mut state));
    let r = join_impl(profile("other", ""), &mut state);
    assert_eq!(Response::Error(ErrorKind::PrincipalAlreadyJoined), r);
    if let Response::Error(kind) = r {
        assert_eq!("Principal already joined", kind.message());
    }
}

#[test]
fn test_join_name_in_use() {
    let mut state = fresh(1);
    assert_eq!(Response::Success, join_impl(profile("ann", ""), &mut state));
    state.env.caller = 2;
    let r = join_impl(profile("ann", ""), &mut state);
    assert_eq!(Response::Error(ErrorKind::NameAlreadyInUse), r);
    if let Response::Error(kind) = r {
        assert_eq!("Name already in use", kind.message());
    }
}

#[test]
fn test_get_profile_by_name() {
    let mut state = fresh(1);
    assert_eq!(Response::Success, join_impl(profile("ann", "a"), &mut state));
    state.env.caller = 2;
    assert_eq!(Response::Success, join_impl(profile("bob", "b"), &mut state));

    let p = get_profile_impl("ann".to_string(), &mut state).unwrap();
    assert_eq!("a", p.description);
    assert!(get_profile_impl("carol".to_string(), &mut state).is_none());
}

#[test]
fn test_update_profile() {
    let mut state = fresh(1);
    let r = update_profile_impl(profile("ann", ""), &mut state);
    assert_eq!(Response::Error(ErrorKind::NoProfile), r);
    if let Response::Error(kind) = r {
        assert_eq!("No profile for principal, must join first", kind.message());
    }

    assert_eq!(Response::Success, join_impl(profile("ann", "old"), &mut state));
    state.env.caller = 2;
    assert_eq!(Response::Success, join_impl(profile("bob", ""), &mut state));

    // renaming over an existing name is refused
    let r = update_profile_impl(profile("ann", ""), &mut state);
    assert_eq!(Response::Error(ErrorKind::NameAlreadyInUse), r);

    // updating the description under one's own name is fine
    assert_eq!(Response::Success, update_profile_impl(profile("bob", "new"), &mut state));
    assert_eq!("new", get_profile_impl("bob".to_string(), &mut state).unwrap().description);

    // renaming to a fresh name frees the old one
    assert_eq!(Response::Success, update_profile_impl(profile("rob", "new"), &mut state));
    assert!(get_profile_impl("bob".to_string(), &mut state).is_none());
    assert_eq!("new", get_profile_impl("rob".to_string(), &mut state).unwrap().description);
}

#[test]
fn test_search_profile_is_case_insensitive() {
    let mut state = fresh(1);
    assert_eq!(Response::Success, join_impl(profile("Ann Example", "likes Markets"), &mut state));
    state.env.caller = 2;
    assert_eq!(Response::Success, join_impl(profile("Bob", "plain"), &mut state));

    // a capitalised query matches a lowercase name and the other way round
    let p = search_profile_impl("ANN".to_string(), &mut state).unwrap();
    assert_eq!("Ann Example", p.name);
    let p = search_profile_impl("markets".to_string(), &mut state).unwrap();
    assert_eq!("Ann Example", p.name);
    let p = search_profile_impl("PLAIN".to_string(), &mut state).unwrap();
    assert_eq!("Bob", p.name);
    assert!(search_profile_impl("carol".to_string(), &mut state).is_none());
}
