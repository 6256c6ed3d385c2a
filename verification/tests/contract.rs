use poap_badge::contract::error::Error;
use poap_badge::contract::storage::Env;
use poap_badge::contract::types::{Address, EventId};
use poap_badge::contract::PoapBadge;

fn eid(n: u8) -> EventId {
    [n; 32]
}

fn str_(v: &str) -> String {
    v.to_string()
}

struct Fixture {
    env: Env,
    contract_id: Address,
    organizer: Address,
}

fn setup() -> Fixture {
    let contract_id = Address::Contract([0xC0; 32]);
    let env = Env::new(contract_id);
    let organizer = Address::Account([0x0A; 32]);
    Fixture { env, contract_id, organizer }
}

fn user(n: u8) -> Address {
    Address::Account([n; 32])
}

fn create_demo_event(f: &mut Fixture, n: u8) -> EventId {
    let id = eid(n);
    PoapBadge::create_event(
        &mut f.env,
        id,
        f.organizer,
        str_("Meridian 2025"),
        str_("Attended the Stellar Meridian conference"),
        str_("ipfs://QmDemoBadgeImageHash"),
    )
    .unwrap();
    id
}

#[test]
fn create_event_persists_metadata() {
    let mut f = setup();
    let id = create_demo_event(&mut f, 1);

    let meta = PoapBadge::get_event(&f.env, id).unwrap();
    assert_eq!(meta.name, str_("Meridian 2025"));
    assert_eq!(meta.image_ipfs, str_("ipfs://QmDemoBadgeImageHash"));
    assert_eq!(PoapBadge::list_events(&f.env).len(), 1);
    assert_eq!(PoapBadge::list_event_owners(&f.env, id).len(), 0);
}

#[test]
fn create_event_duplicate_fails() {
    let mut f = setup();
    create_demo_event(&mut f, 1);
    assert_eq!(
        PoapBadge::create_event(
            &mut f.env,
            eid(1),
            f.organizer,
            str_("dup"),
            str_("dup"),
            str_("ipfs://dup"),
        ),
        Err(Error::EventAlreadyExists)
    );
}

#[test]
fn get_event_missing_fails() {
    let f = setup();
    assert_eq!(PoapBadge::get_event(&f.env, eid(9)), Err(Error::EventNotFound));
}

#[test]
fn mint_badge_success() {
    let mut f = setup();
    let id = create_demo_event(&mut f, 1);
    let user = user(0x51);

    PoapBadge::mint_badge(&mut f.env, id, user).unwrap();

    assert!(PoapBadge::has_badge(&f.env, id, user));
    assert_eq!(PoapBadge::list_user_badges(&f.env, user).len(), 1);
    assert_eq!(PoapBadge::total_badges(&f.env, user), 1);
    assert!(PoapBadge::list_event_owners(&f.env, id).contains(&user));
}

#[test]
fn mint_badge_duplicate_fails() {
    let mut f = setup();
    let id = create_demo_event(&mut f, 1);
    let user = user(0x51);
    PoapBadge::mint_badge(&mut f.env, id, user).unwrap();

    assert_eq!(PoapBadge::mint_badge(&mut f.env, id, user), Err(Error::BadgeAlreadyMinted));
    assert_eq!(PoapBadge::list_event_owners(&f.env, id).len(), 1);
    assert_eq!(PoapBadge::total_badges(&f.env, user), 1);
}

#[test]
fn mint_badge_for_unknown_event_fails() {
    let mut f = setup();
    let user = user(0x51);
    assert_eq!(PoapBadge::mint_badge(&mut f.env, eid(99), user), Err(Error::EventNotFound));
}

#[test]
fn has_badge_false_before_mint() {
    let mut f = setup();
    let id = create_demo_event(&mut f, 1);
    let user = user(0x51);
    assert!(!PoapBadge::has_badge(&f.env, id, user));
    assert_eq!(PoapBadge::total_badges(&f.env, user), 0);
}

#[test]
fn gallery_lists_all_events() {
    let mut f = setup();
    create_demo_event(&mut f, 1);
    create_demo_event(&mut f, 2);
    assert_eq!(PoapBadge::list_all_badges(&f.env).len(), 2);
}

#[test]
fn create_event_requires_organizer_auth() {
    let mut f = setup();
    let id = eid(7);
    PoapBadge::create_event(&mut f.env, id, f.organizer, str_("n"), str_("d"), str_("ipfs://x"))
        .unwrap();

    let auths = f.env.auths();
    assert_eq!(auths.len(), 1);
    let auth = &auths[0];
    assert_eq!(&auth.address, &f.organizer);
    assert_eq!(&auth.contract, &f.contract_id);
    assert_eq!(auth.function, str_("create_event"));
}

#[test]
fn mint_badge_is_authorized_by_organizer_not_recipient() {
    let mut f = setup();
    let id = create_demo_event(&mut f, 1);
    let user = user(0x51);
    PoapBadge::mint_badge(&mut f.env, id, user).unwrap();

    let auths = f.env.auths();
    assert_eq!(auths.len(), 1);
    assert_eq!(auths[0].address, f.organizer);
    assert_ne!(auths[0].address, user);
}

#[test]
fn e2e_full_poap_journey() {
    let mut f = setup();

    // 1. The organizer creates two events (two conference days).
    let day1 = create_demo_event(&mut f, 10);
    let day2 = eid(11);
    PoapBadge::create_event(
        &mut f.env,
        day2,
        f.organizer,
        str_("Meridian 2025 - Day 2"),
        str_("Workshop day"),
        str_("ipfs://QmDay2"),
    )
    .unwrap();
    assert_eq!(PoapBadge::list_events(&f.env).len(), 2);
    assert_eq!(PoapBadge::list_all_badges(&f.env).len(), 2);

    // 2. Three participants.
    let alice = user(0xA1);
    let bob = user(0xB0);
    let carol = user(0xCA);

    // 3. Minting: Alice both days, Bob day 1 only, Carol day 2 only.
    PoapBadge::mint_badge(&mut f.env, day1, alice).unwrap();
    PoapBadge::mint_badge(&mut f.env, day2, alice).unwrap();
    PoapBadge::mint_badge(&mut f.env, day1, bob).unwrap();
    PoapBadge::mint_badge(&mut f.env, day2, carol).unwrap();

    // 4. Individual collections.
    assert_eq!(PoapBadge::total_badges(&f.env, alice), 2);
    assert_eq!(PoapBadge::total_badges(&f.env, bob), 1);
    assert_eq!(PoapBadge::total_badges(&f.env, carol), 1);

    // 5. Cross-checked ownership.
    assert!(PoapBadge::has_badge(&f.env, day1, alice));
    assert!(PoapBadge::has_badge(&f.env, day2, alice));
    assert!(PoapBadge::has_badge(&f.env, day1, bob));
    assert!(!PoapBadge::has_badge(&f.env, day2, bob));
    assert!(!PoapBadge::has_badge(&f.env, day1, carol));
    assert!(PoapBadge::has_badge(&f.env, day2, carol));

    // 6. Collectors per event.
    let day1_owners = PoapBadge::list_event_owners(&f.env, day1);
    assert_eq!(day1_owners.len(), 2);
    assert!(day1_owners.contains(&alice));
    assert!(day1_owners.contains(&bob));

    let day2_owners = PoapBadge::list_event_owners(&f.env, day2);
    assert_eq!(day2_owners.len(), 2);
    assert!(day2_owners.contains(&alice));
    assert!(day2_owners.contains(&carol));

    // 7. Minting again for Alice fails and does not corrupt the state.
    assert_eq!(PoapBadge::mint_badge(&mut f.env, day1, alice), Err(Error::BadgeAlreadyMinted));
    assert_eq!(PoapBadge::list_event_owners(&f.env, day1).len(), 2);
    assert_eq!(PoapBadge::total_badges(&f.env, alice), 2);
}
