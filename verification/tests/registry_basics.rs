use poap_badge::contract::error::Error;
use poap_badge::contract::storage::Env;
use poap_badge::contract::types::{Address, EventId};
use poap_badge::contract::PoapBadge;

/// A registry and an organizer.
fn setup_contract() -> (Env, Address) {
    let env = Env::new(Address::Contract([0xC1; 32]));
    let organizer = Address::Account([0x01; 32]);
    (env, organizer)
}

fn event(n: u8) -> EventId {
    [n; 32]
}

fn create(env: &mut Env, id: EventId, organizer: Address, uri: &str) -> Result<(), Error> {
    PoapBadge::create_event(env, id, organizer, String::new(), String::new(), uri.to_string())
}

#[test]
fn test_create_event_success() {
    let (mut env, organizer) = setup_contract();

    create(&mut env, event(1), organizer, "ipfs://event1").unwrap();

    // no collector yet
    let owners = PoapBadge::list_event_owners(&env, event(1));
    assert_eq!(owners.len(), 0);
}

#[test]
fn test_create_event_duplicate_should_fail() {
    let (mut env, organizer) = setup_contract();

    create(&mut env, event(1), organizer, "ipfs://event1").unwrap();
    assert_eq!(
        create(&mut env, event(1), organizer, "ipfs://event1_dup"),
        Err(Error::EventAlreadyExists)
    );
}

#[test]
fn test_mint_badge_success() {
    let (mut env, organizer) = setup_contract();
    let user = Address::Account([0x21; 32]);

    create(&mut env, event(1), organizer, "ipfs://event1").unwrap();
    PoapBadge::mint_badge(&mut env, event(1), user).unwrap();

    assert!(PoapBadge::has_badge(&env, event(1), user));
}

#[test]
fn test_mint_badge_duplicate_should_fail() {
    let (mut env, organizer) = setup_contract();
    let user = Address::Account([0x21; 32]);

    create(&mut env, event(1), organizer, "ipfs://event1").unwrap();
    PoapBadge::mint_badge(&mut env, event(1), user).unwrap();

    assert_eq!(PoapBadge::mint_badge(&mut env, event(1), user), Err(Error::BadgeAlreadyMinted));
}

#[test]
fn test_mint_badge_for_nonexistent_event_should_fail() {
    let (mut env, _organizer) = setup_contract();
    let user = Address::Account([0x21; 32]);

    assert_eq!(PoapBadge::mint_badge(&mut env, event(99), user), Err(Error::EventNotFound));
}

#[test]
fn test_list_user_badges_and_event_owners() {
    let (mut env, organizer) = setup_contract();
    let user1 = Address::Account([0x31; 32]);
    let user2 = Address::Contract([0x32; 32]);

    create(&mut env, event(1), organizer, "ipfs://event1").unwrap();
    create(&mut env, event(2), organizer, "ipfs://event2").unwrap();

    // user1 gets two badges (two events)
    PoapBadge::mint_badge(&mut env, event(1), user1).unwrap();
    PoapBadge::mint_badge(&mut env, event(2), user1).unwrap();

    // user2 gets one badge
    PoapBadge::mint_badge(&mut env, event(1), user2).unwrap();

    let badges_user1 = PoapBadge::list_user_badges(&env, user1);
    assert_eq!(badges_user1.len(), 2);

    let owners_event1 = PoapBadge::list_event_owners(&env, event(1));
    assert_eq!(owners_event1.len(), 2);
    assert!(owners_event1.contains(&user1));
    assert!(owners_event1.contains(&user2));
}

#[test]
fn test_has_badge_returns_false_if_not_minted() {
    let (mut env, organizer) = setup_contract();
    let user = Address::Account([0x21; 32]);

    create(&mut env, event(1), organizer, "ipfs://event1").unwrap();

    assert!(!PoapBadge::has_badge(&env, event(1), user));
}
