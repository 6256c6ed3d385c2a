use vstd::prelude::*;

use crate::contract::error::Error;
use crate::contract::model::lemma_mint_keeps_wf;
use crate::contract::storage::{self, Env};
use crate::contract::table::seq_contains;
use crate::contract::types::{Address, EventId};

verus! {

/// Gives `recipient` the badge of `event_id`. Only the event's organizer can
/// mint: the invocation requires the organizer's authorization, not the
/// recipient's. Minting twice to the same recipient is refused.
pub fn mint_badge(env: &mut Env, event_id: EventId, recipient: Address) -> (r: Result<(), Error>)
    requires
        old(env).wf(),
    ensures
        final(env).wf(),
        r == old(env)@.mint_result(event_id, recipient),
        r is Ok ==> final(env)@ == old(env)@.mint(event_id, recipient),
        r is Err ==> final(env)@ == old(env)@,
        final(env).contract_address() == old(env).contract_address(),
        final(env).current_function() == old(env).current_function(),
        final(env).auth_log() == (if old(env)@.organizers.contains_key(event_id) {
            old(env).auth_log().push((old(env)@.organizers[event_id], old(env).current_function()))
        } else {
            old(env).auth_log()
        }),
{
    let organizer = match storage::get_event_organizer(env, &event_id) {
        Some(o) => o,
        None => return Err(Error::EventNotFound),
    };
    env.require_auth(&organizer);

    if has_badge(env, &event_id, &recipient) {
        return Err(Error::BadgeAlreadyMinted);
    }
    proof {
        lemma_mint_keeps_wf(env@, event_id, recipient);
    }

    let mut user_badges = storage::get_user_badges(env, &recipient);
    user_badges.push(event_id);
    storage::set_user_badges(env, &recipient, &user_badges);

    let mut owners = storage::get_event_owners(env, &event_id);
    owners.push(recipient);
    storage::set_event_owners(env, &event_id, &owners);

    Ok(())
}

/// Whether `user` holds the badge of `event_id`.
pub fn has_badge(env: &Env, event_id: &EventId, user: &Address) -> (r: bool)
    requires
        env.inv(),
    ensures
        r == env@.has_badge(*event_id, *user),
{
    seq_contains(&storage::get_user_badges(env, user), event_id)
}

/// The badges (event ids) `user` holds, in minting order.
pub fn list_user_badges(env: &Env, user: &Address) -> (r: Vec<EventId>)
    requires
        env.inv(),
    ensures
        r@ == env@.badges_of(*user),
{
    storage::get_user_badges(env, user)
}

} // verus!
