//! The badge registry: organizers create events and mint verifiable badges
//! for participants. Badges are immutable and live in the registry's
//! persistent storage; rich content (image, attributes) is referenced via
//! IPFS in [`types::EventMetadata`].

pub mod badge;
pub mod error;
pub mod event;
pub mod laws;
pub mod model;
pub mod storage;
pub mod table;
pub mod types;

use vstd::prelude::*;

use crate::contract::error::Error;
use crate::contract::storage::Env;
use crate::contract::types::{Address, BadgeInfo, EventId, EventMetadata};

verus! {

/// The registry's entry points.
pub struct PoapBadge;

impl PoapBadge {
    /// Creates an event. Requires the `organizer`'s authorization and fails
    /// when `event_id` already exists.
    pub fn create_event(
        env: &mut Env,
        event_id: EventId,
        organizer: Address,
        name: String,
        description: String,
        image_ipfs: String,
    ) -> (r: Result<(), Error>)
        requires
            old(env).wf(),
        ensures
            final(env).wf(),
            final(env).contract_address() == old(env).contract_address(),
            final(env).auth_log() == seq![(organizer, "create_event"@)],
            r == old(env)@.create_result(event_id),
            r is Ok ==> final(env)@ == old(env)@.create(
                event_id,
                organizer,
                EventMetadata { name, description, image_ipfs },
            ),
            r is Err ==> final(env)@ == old(env)@,
    {
        env.begin_invocation("create_event");
        env.require_auth(&organizer);
        event::create_event(env, event_id, organizer, name, description, image_ipfs)
    }

    /// Mints the event's badge for `recipient`. Only the event's organizer
    /// can mint; minting twice is refused.
    pub fn mint_badge(env: &mut Env, event_id: EventId, recipient: Address) -> (r: Result<
        (),
        Error,
    >)
        requires
            old(env).wf(),
        ensures
            final(env).wf(),
            r == old(env)@.mint_result(event_id, recipient),
            r is Ok ==> final(env)@ == old(env)@.mint(event_id, recipient),
            r is Err ==> final(env)@ == old(env)@,
            final(env).contract_address() == old(env).contract_address(),
            final(env).auth_log() == (if old(env)@.organizers.contains_key(event_id) {
                seq![(old(env)@.organizers[event_id], "mint_badge"@)]
            } else {
                Seq::<(Address, Seq<char>)>::empty()
            }),
    {
        env.begin_invocation("mint_badge");
        badge::mint_badge(env, event_id, recipient)
    }

    /// Whether `user` holds the event's badge.
    pub fn has_badge(env: &Env, event_id: EventId, user: Address) -> (r: bool)
        requires
            env.inv(),
        ensures
            r == env@.has_badge(event_id, user),
    {
        badge::has_badge(env, &event_id, &user)
    }

    /// The badges (event ids) `user` holds.
    pub fn list_user_badges(env: &Env, user: Address) -> (r: Vec<EventId>)
        requires
            env.inv(),
        ensures
            r@ == env@.badges_of(user),
    {
        badge::list_user_badges(env, &user)
    }

    /// How many badges `user` holds (used by the gamification layer).
    pub fn total_badges(env: &Env, user: Address) -> (r: u32)
        requires
            env.inv(),
            env@.badges_of(user).len() <= u32::MAX,
        ensures
            r == env@.badges_of(user).len(),
    {
        badge::list_user_badges(env, &user).len() as u32
    }

    /// The collectors of the event's badge.
    pub fn list_event_owners(env: &Env, event_id: EventId) -> (r: Vec<Address>)
        requires
            env.inv(),
        ensures
            r@ == env@.owners_of(event_id),
    {
        event::list_event_owners(env, &event_id)
    }

    /// Every registered event.
    pub fn list_events(env: &Env) -> (r: Vec<EventId>)
        requires
            env.inv(),
        ensures
            r@ == env@.events,
    {
        event::list_events(env)
    }

    /// The gallery: every event with its metadata.
    pub fn list_all_badges(env: &Env) -> (r: Vec<BadgeInfo>)
        requires
            env.inv(),
        ensures
            r@ == env@.gallery(),
    {
        event::list_all_badges(env)
    }

    /// An event's metadata; fails when the event does not exist.
    pub fn get_event(env: &Env, event_id: EventId) -> (r: Result<EventMetadata, Error>)
        requires
            env.inv(),
        ensures
            r == env@.event_result(event_id),
    {
        event::get_event_metadata(env, &event_id)
    }
}

} // verus!
