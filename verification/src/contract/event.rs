use vstd::prelude::*;

use crate::contract::error::Error;
use crate::contract::model::{lemma_create_keeps_wf, Ledger};
use crate::contract::storage::{self, Env};
use crate::contract::types::{Address, BadgeInfo, EventId, EventMetadata};

verus! {

/// Registers a new event; refuses an `event_id` that already exists.
pub fn create_event(
    env: &mut Env,
    event_id: EventId,
    organizer: Address,
    name: String,
    description: String,
    image_ipfs: String,
) -> (r: Result<(), Error>)
    requires
        old(env).wf(),
    ensures
        final(env).wf(),
        final(env).auth_log() == old(env).auth_log(),
        final(env).contract_address() == old(env).contract_address(),
        final(env).current_function() == old(env).current_function(),
        r == old(env)@.create_result(event_id),
        r is Ok ==> final(env)@ == old(env)@.create(
            event_id,
            organizer,
            EventMetadata { name, description, image_ipfs },
        ),
        r is Err ==> final(env)@ == old(env)@,
{
    if storage::has_event(env, &event_id) {
        return Err(Error::EventAlreadyExists);
    }
    let metadata = EventMetadata { name, description, image_ipfs };
    proof {
        lemma_create_keeps_wf(env@, event_id, organizer, metadata);
    }
    storage::set_event_metadata(env, &event_id, &metadata);
    storage::set_event_organizer(env, &event_id, &organizer);
    storage::push_event(env, &event_id);
    Ok(())
}

/// The metadata of an event; `EventNotFound` when it does not exist.
pub fn get_event_metadata(env: &Env, event_id: &EventId) -> (r: Result<EventMetadata, Error>)
    requires
        env.inv(),
    ensures
        r == env@.event_result(*event_id),
{
    match storage::get_event_metadata(env, event_id) {
        Some(m) => Ok(m),
        None => Err(Error::EventNotFound),
    }
}

/// Every event id, in creation order.
pub fn list_events(env: &Env) -> (r: Vec<EventId>)
    ensures
        r@ == env@.events,
{
    storage::get_events(env)
}

/// The gallery: every event with its metadata.
pub fn list_all_badges(env: &Env) -> (r: Vec<BadgeInfo>)
    requires
        env.inv(),
    ensures
        r@ == env@.gallery(),
{
    let events = storage::get_events(env);
    let ghost l: Ledger = env@;
    let mut badges: Vec<BadgeInfo> = Vec::new();
    let mut i: usize = 0;
    while i < events.len()
        invariant
            env.inv(),
            l == env@,
            events@ == l.events,
            i <= events@.len(),
            badges@ == l.gallery_of(l.events.take(i as int)),
        decreases events@.len() - i,
    {
        let event_id = events[i];
        assert(l.events.take(i + 1).drop_last() =~= l.events.take(i as int));
        match storage::get_event_metadata(env, &event_id) {
            Some(metadata) => {
                badges.push(BadgeInfo { event_id, metadata });
            },
            None => {},
        }
        i = i + 1;
    }
    assert(l.events.take(events@.len() as int) =~= l.events);
    badges
}

/// Collectors of an event's badge.
pub fn list_event_owners(env: &Env, event_id: &EventId) -> (r: Vec<Address>)
    requires
        env.inv(),
    ensures
        r@ == env@.owners_of(*event_id),
{
    storage::get_event_owners(env, event_id)
}

} // verus!
