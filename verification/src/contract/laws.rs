//! Properties of the registry that span several entry points.

use vstd::prelude::*;

use crate::contract::error::Error;
use crate::contract::model::Ledger;
use crate::contract::storage::{ledger_of_records, with_event_records, with_holder_records, EventRecord, HolderRecord};
use crate::contract::types::{Address, BadgeInfo, EventId, EventMetadata};

verus! {

/// Once an event is created, reading it back gives the metadata it was
/// created with, and the event list gains exactly that id, at its end.
pub proof fn law_created_event_reads_back(
    l: Ledger,
    e: EventId,
    organizer: Address,
    meta: EventMetadata,
)
    requires
        l.wf(),
        l.create_result(e) is Ok,
    ensures
        l.create(e, organizer, meta).event_result(e) == Ok::<EventMetadata, Error>(meta),
        l.create(e, organizer, meta).events == l.events.push(e),
        l.create(e, organizer, meta).organizers[e] == organizer,
        l.create(e, organizer, meta).owners_of(e).len() == 0,
{
    assert(!l.events.contains(e));
    if l.owners_of(e).len() > 0 {
        assert(l.owners_of(e).contains(l.owners_of(e)[0]));
        assert(l.badges_of(l.owners_of(e)[0]).contains(e));
    }
}

/// An id can be created only once: a second creation is refused and leaves
/// the first metadata in place.
pub proof fn law_event_ids_are_unique(
    l: Ledger,
    e: EventId,
    organizer: Address,
    meta: EventMetadata,
)
    requires
        l.wf(),
        l.create_result(e) is Ok,
    ensures
        l.create(e, organizer, meta).create_result(e) == Err::<(), Error>(
            Error::EventAlreadyExists,
        ),
        l.create(e, organizer, meta).event_result(e) == Ok::<EventMetadata, Error>(meta),
{
}

/// A successful mint gives the recipient the badge, adds exactly one badge
/// to the recipient and one collector to the event, and touches no other
/// holder or event.
pub proof fn law_mint_grants_one_badge(l: Ledger, e: EventId, recipient: Address)
    requires
        l.wf(),
        l.mint_result(e, recipient) is Ok,
    ensures
        l.mint(e, recipient).has_badge(e, recipient),
        l.mint(e, recipient).owners_of(e).contains(recipient),
        l.mint(e, recipient).badges_of(recipient).len() == l.badges_of(recipient).len() + 1,
        l.mint(e, recipient).owners_of(e).len() == l.owners_of(e).len() + 1,
        forall|a: Address| a != recipient ==> #[trigger] l.mint(e, recipient).badges_of(a)
            == l.badges_of(a),
        forall|x: EventId| x != e ==> #[trigger] l.mint(e, recipient).owners_of(x)
            == l.owners_of(x),
        l.mint(e, recipient).events == l.events,
        l.mint(e, recipient).metadata == l.metadata,
{
    let n = l.mint(e, recipient);
    assert(n.badges_of(recipient)[n.badges_of(recipient).len() - 1] == e);
    assert(n.owners_of(e)[n.owners_of(e).len() - 1] == recipient);
}

/// Minting the same badge twice is refused, whatever happened in between:
/// after a successful mint the recipient holds the badge, so a second mint
/// answers `BadgeAlreadyMinted` (and a refused mint changes nothing).
pub proof fn law_no_double_mint(l: Ledger, e: EventId, recipient: Address)
    requires
        l.wf(),
        l.mint_result(e, recipient) is Ok,
    ensures
        l.mint(e, recipient).mint_result(e, recipient) == Err::<(), Error>(
            Error::BadgeAlreadyMinted,
        ),
{
    law_mint_grants_one_badge(l, e, recipient);
}

/// In every consistent state, the collectors of an event are exactly the
/// holders of its badge, each listed once.
pub proof fn law_collectors_are_holders(l: Ledger, e: EventId, a: Address)
    requires
        l.wf(),
    ensures
        l.owners_of(e).contains(a) <==> l.has_badge(e, a),
        l.owners_of(e).no_duplicates(),
        l.badges_of(a).no_duplicates(),
        l.has_badge(e, a) ==> l.has_event(e),
{
}

/// Badges are permanent: no entry point takes a badge away.
pub proof fn law_badges_are_permanent(
    l: Ledger,
    e: EventId,
    a: Address,
    e2: EventId,
    organizer: Address,
    meta: EventMetadata,
    recipient: Address,
)
    requires
        l.wf(),
        l.has_badge(e, a),
    ensures
        l.create(e2, organizer, meta).has_badge(e, a),
        l.mint(e2, recipient).has_badge(e, a),
{
    let n = l.mint(e2, recipient);
    if a == recipient {
        let k = choose|k: int| 0 <= k < l.badges_of(a).len() && l.badges_of(a)[k] == e;
        assert(n.badges_of(a)[k] == e);
    }
}

/// Events are never removed: every entry point keeps the event list as a
/// prefix of the new one.
pub proof fn law_events_only_grow(
    l: Ledger,
    e: EventId,
    organizer: Address,
    meta: EventMetadata,
    recipient: Address,
)
    ensures
        l.create(e, organizer, meta).events.take(l.events.len() as int) == l.events,
        l.mint(e, recipient).events == l.events,
{
    assert(l.create(e, organizer, meta).events.take(l.events.len() as int) =~= l.events);
}

/// The gallery lists every event, in creation order, each with its
/// metadata.
pub proof fn law_gallery_lists_every_event(l: Ledger)
    requires
        l.wf(),
    ensures
        l.gallery().len() == l.events.len(),
        forall|i: int|
            0 <= i < l.events.len() ==> #[trigger] l.gallery()[i] == (BadgeInfo {
                event_id: l.events[i],
                metadata: l.metadata[l.events[i]],
            }),
{
    lemma_gallery_prefix(l, l.events.len() as int);
    assert(l.events.take(l.events.len() as int) =~= l.events);
}

proof fn lemma_gallery_prefix(l: Ledger, n: int)
    requires
        l.wf(),
        0 <= n <= l.events.len(),
    ensures
        l.gallery_of(l.events.take(n)).len() == n,
        forall|i: int|
            0 <= i < n ==> #[trigger] l.gallery_of(l.events.take(n))[i] == (BadgeInfo {
                event_id: l.events[i],
                metadata: l.metadata[l.events[i]],
            }),
    decreases n,
{
    if n > 0 {
        lemma_gallery_prefix(l, n - 1);
        assert(l.events.take(n).drop_last() =~= l.events.take(n - 1));
        assert(l.events.contains(l.events[n - 1]));
    }
}

/// The empty registry is consistent, and lists nothing.
pub proof fn law_fresh_registry_is_empty(a: Address, e: EventId)
    ensures
        Ledger::empty().wf(),
        Ledger::empty().gallery().len() == 0,
        !Ledger::empty().has_badge(e, a),
        Ledger::empty().event_result(e) == Err::<EventMetadata, Error>(Error::EventNotFound),
{
}

/// A mint is refused only for an event that does not exist or a recipient
/// who already holds its badge: whenever the event exists and the
/// recipient lacks the badge, the mint succeeds, however many collectors
/// the event has or badges the recipient holds.
pub proof fn law_mint_refused_only_when_unknown_or_held(l: Ledger, e: EventId, recipient: Address)
    ensures
        !l.organizers.contains_key(e) ==> l.mint_result(e, recipient) == Err::<(), Error>(
            Error::EventNotFound,
        ),
        l.organizers.contains_key(e) && l.badges_of(recipient).contains(e) ==> l.mint_result(
            e,
            recipient,
        ) == Err::<(), Error>(Error::BadgeAlreadyMinted),
        l.organizers.contains_key(e) && !l.badges_of(recipient).contains(e) ==> l.mint_result(
            e,
            recipient,
        ) == Ok::<(), Error>(()),
{
}

/// Creating an event is refused only for an id that already exists: a
/// fresh id is always accepted, however many events exist.
pub proof fn law_create_refused_only_for_existing_id(l: Ledger, e: EventId)
    ensures
        l.metadata.contains_key(e) ==> l.create_result(e) == Err::<(), Error>(
            Error::EventAlreadyExists,
        ),
        !l.metadata.contains_key(e) ==> l.create_result(e) == Ok::<(), Error>(()),
{
}

/// Reading an event answers from that id's own entry alone: its metadata
/// when it has some, `EventNotFound` when it has none, whatever other
/// events exist; two ledgers that agree on the id's entry answer alike.
pub proof fn law_event_read_is_by_id(l: Ledger, l2: Ledger, e: EventId)
    ensures
        l.metadata.contains_key(e) ==> l.event_result(e) == Ok::<EventMetadata, Error>(
            l.metadata[e],
        ),
        !l.metadata.contains_key(e) ==> l.event_result(e) == Err::<EventMetadata, Error>(
            Error::EventNotFound,
        ),
        l.metadata.get(e) == l2.metadata.get(e) ==> l.event_result(e) == l2.event_result(e),
{
}

/// Whether no event id is recorded twice.
pub open spec fn event_ids_distinct(events: Seq<EventRecord>) -> bool {
    forall|i: int, j: int|
        0 <= i < j < events.len() ==> #[trigger] events[i].event_id != #[trigger] events[j].event_id
}

/// Whether no holder is recorded twice.
pub open spec fn holders_distinct(holders: Seq<HolderRecord>) -> bool {
    forall|i: int, j: int|
        0 <= i < j < holders.len() ==> #[trigger] holders[i].holder != #[trigger] holders[j].holder
}

proof fn lemma_event_records(events: Seq<EventRecord>)
    requires
        event_ids_distinct(events),
    ensures
        with_event_records(Ledger::empty(), events).events == events.map_values(
            |r: EventRecord| r.event_id,
        ),
        with_event_records(Ledger::empty(), events).badges == Map::<Address, Seq<EventId>>::empty(),
        forall|i: int|
            0 <= i < events.len() ==> {
                let l = with_event_records(Ledger::empty(), events);
                let id = #[trigger] events[i].event_id;
                &&& l.metadata.contains_key(id) && l.metadata[id] == events[i].metadata
                &&& l.organizers.contains_key(id) && l.organizers[id] == events[i].organizer
                &&& l.owners.contains_key(id) && l.owners[id] == events[i].owners@
            },
        forall|e: EventId|
            #![trigger with_event_records(Ledger::empty(), events).metadata.contains_key(e)]
            #![trigger with_event_records(Ledger::empty(), events).owners.contains_key(e)]
            (with_event_records(Ledger::empty(), events).metadata.contains_key(e)
                || with_event_records(Ledger::empty(), events).organizers.contains_key(e)
                || with_event_records(Ledger::empty(), events).owners.contains_key(e))
                ==> exists|i: int| 0 <= i < events.len() && #[trigger] events[i].event_id == e,
    decreases events.len(),
{
    if events.len() > 0 {
        let p = events.drop_last();
        assert(event_ids_distinct(p)) by {
            assert forall|i: int, j: int| 0 <= i < j < p.len() implies #[trigger] p[i].event_id
                != #[trigger] p[j].event_id by {
                assert(p[i] == events[i] && p[j] == events[j]);
            }
        }
        lemma_event_records(p);
        let l = with_event_records(Ledger::empty(), events);
        let lp = with_event_records(Ledger::empty(), p);
        let last = events.last();
        assert(l.events =~= events.map_values(|r: EventRecord| r.event_id));
        assert forall|i: int| 0 <= i < events.len() implies {
            let id = #[trigger] events[i].event_id;
            &&& l.metadata.contains_key(id) && l.metadata[id] == events[i].metadata
            &&& l.organizers.contains_key(id) && l.organizers[id] == events[i].organizer
            &&& l.owners.contains_key(id) && l.owners[id] == events[i].owners@
        } by {
            if i < p.len() {
                assert(p[i] == events[i]);
                assert(events[i].event_id != events[events.len() - 1].event_id);
            }
        }
        assert forall|e: EventId|
            (l.metadata.contains_key(e) || l.organizers.contains_key(e) || l.owners.contains_key(e))
                implies exists|i: int| 0 <= i < events.len() && #[trigger] events[i].event_id == e by {
            if e == last.event_id {
                assert(events[events.len() - 1].event_id == e);
            } else {
                assert(lp.metadata.contains_key(e) || lp.organizers.contains_key(e)
                    || lp.owners.contains_key(e));
                let i = choose|i: int| 0 <= i < p.len() && #[trigger] p[i].event_id == e;
                assert(events[i] == p[i]);
            }
        }
    } else {
        assert(events.map_values(|r: EventRecord| r.event_id) =~= Seq::<EventId>::empty());
    }
}

proof fn lemma_holder_records(base: Ledger, holders: Seq<HolderRecord>)
    requires
        holders_distinct(holders),
    ensures
        ({
            let l = with_holder_records(base, holders);
            &&& l.events == base.events && l.metadata == base.metadata
            &&& l.organizers == base.organizers && l.owners == base.owners
            &&& forall|j: int|
                0 <= j < holders.len() ==> l.badges.contains_key(#[trigger] holders[j].holder)
                    && l.badges[holders[j].holder] == holders[j].badges@
            &&& forall|a: Address|
                #![trigger l.badges.contains_key(a)]
                l.badges.contains_key(a) && !base.badges.contains_key(a) ==> exists|j: int|
                    0 <= j < holders.len() && #[trigger] holders[j].holder == a
            &&& forall|a: Address|
                #![trigger l.badges.contains_key(a)]
                (forall|j: int| 0 <= j < holders.len() ==> #[trigger] holders[j].holder != a)
                    ==> l.badges.contains_key(a) == base.badges.contains_key(a)
        }),
    decreases holders.len(),
{
    if holders.len() > 0 {
        let p = holders.drop_last();
        assert(holders_distinct(p)) by {
            assert forall|i: int, j: int| 0 <= i < j < p.len() implies #[trigger] p[i].holder
                != #[trigger] p[j].holder by {
                assert(p[i] == holders[i] && p[j] == holders[j]);
            }
        }
        lemma_holder_records(base, p);
        let l = with_holder_records(base, holders);
        let lp = with_holder_records(base, p);
        let last = holders.last();
        assert forall|j: int| 0 <= j < holders.len() implies l.badges.contains_key(
            #[trigger] holders[j].holder,
        ) && l.badges[holders[j].holder] == holders[j].badges@ by {
            if j < p.len() {
                assert(p[j] == holders[j]);
                assert(holders[j].holder != holders[holders.len() - 1].holder);
            }
        }
        assert forall|a: Address| l.badges.contains_key(a) && !base.badges.contains_key(a)
            implies exists|j: int| 0 <= j < holders.len() && #[trigger] holders[j].holder == a by {
            if a == last.holder {
                assert(holders[holders.len() - 1].holder == a);
            } else {
                assert(lp.badges.contains_key(a));
                let j = choose|j: int| 0 <= j < p.len() && #[trigger] p[j].holder == a;
                assert(holders[j] == p[j]);
            }
        }
        assert forall|a: Address|
            (forall|j: int| 0 <= j < holders.len() ==> #[trigger] holders[j].holder != a)
            implies l.badges.contains_key(a) == base.badges.contains_key(a) by {
            assert(holders[holders.len() - 1].holder != a);
            assert forall|j: int| 0 <= j < p.len() implies #[trigger] p[j].holder != a by {
                assert(p[j] == holders[j]);
            }
        }
    }
}

/// The ledger that persisted records describe holds exactly what they
/// record, when no event id and no holder is recorded twice: the events in
/// record order, each with its metadata, organizer and collectors, and each
/// holder's badges; an id or address that no record names has nothing
/// stored.
pub proof fn law_records_describe_the_ledger(events: Seq<EventRecord>, holders: Seq<HolderRecord>)
    requires
        event_ids_distinct(events),
        holders_distinct(holders),
    ensures
        ledger_of_records(events, holders).events == events.map_values(|r: EventRecord| r.event_id),
        forall|i: int|
            0 <= i < events.len() ==> {
                let l = ledger_of_records(events, holders);
                let id = #[trigger] events[i].event_id;
                &&& l.event_result(id) == Ok::<EventMetadata, Error>(events[i].metadata)
                &&& l.organizers.contains_key(id) && l.organizers[id] == events[i].organizer
                &&& l.owners_of(id) == events[i].owners@
            },
        forall|j: int|
            0 <= j < holders.len() ==> ledger_of_records(events, holders).badges_of(
                #[trigger] holders[j].holder,
            ) == holders[j].badges@,
        forall|e: EventId|
            #![trigger ledger_of_records(events, holders).metadata.contains_key(e)]
            #![trigger ledger_of_records(events, holders).organizers.contains_key(e)]
            #![trigger ledger_of_records(events, holders).owners_of(e)]
            (forall|i: int| 0 <= i < events.len() ==> #[trigger] events[i].event_id != e) ==> (
            !ledger_of_records(events, holders).metadata.contains_key(e)
                && !ledger_of_records(events, holders).organizers.contains_key(e)
                && ledger_of_records(events, holders).owners_of(e).len() == 0),
        forall|a: Address|
            (forall|j: int| 0 <= j < holders.len() ==> #[trigger] holders[j].holder != a)
                ==> ledger_of_records(events, holders).badges_of(a).len() == 0,
{
    lemma_event_records(events);
    let base = with_event_records(Ledger::empty(), events);
    lemma_holder_records(base, holders);
    let l = ledger_of_records(events, holders);
    assert forall|e: EventId|
        #![trigger l.metadata.contains_key(e)]
        #![trigger l.organizers.contains_key(e)]
        #![trigger l.owners_of(e)]
        (forall|i: int| 0 <= i < events.len() ==> #[trigger] events[i].event_id != e) implies (
        !l.metadata.contains_key(e) && !l.organizers.contains_key(e) && l.owners_of(e).len() == 0)
        by {
        if base.metadata.contains_key(e) || base.organizers.contains_key(e) || base.owners.contains_key(e) {
            let i = choose|i: int| 0 <= i < events.len() && #[trigger] events[i].event_id == e;
        }
    }
    assert forall|a: Address|
        (forall|j: int| 0 <= j < holders.len() ==> #[trigger] holders[j].holder != a) implies l.badges_of(
        a,
    ).len() == 0 by {
        assert(!base.badges.contains_key(a));
    }
}

} // verus!
