use vstd::prelude::*;

use crate::contract::error::Error;
use crate::contract::types::{Address, BadgeInfo, EventId, EventMetadata};

verus! {

/// The registry's persistent state, as a mathematical value.
pub struct Ledger {
    /// Every event id, in creation order.
    pub events: Seq<EventId>,
    pub metadata: Map<EventId, EventMetadata>,
    pub organizers: Map<EventId, Address>,
    /// Collectors of each event's badge, in minting order.
    pub owners: Map<EventId, Seq<Address>>,
    /// Badges (event ids) held by each address, in minting order.
    pub badges: Map<Address, Seq<EventId>>,
}

impl Ledger {
    /// The state of a freshly deployed registry.
    pub open spec fn empty() -> Ledger {
        Ledger {
            events: Seq::empty(),
            metadata: Map::empty(),
            organizers: Map::empty(),
            owners: Map::empty(),
            badges: Map::empty(),
        }
    }

    /// Collectors of `e`'s badge; none when nothing was stored.
    pub open spec fn owners_of(self, e: EventId) -> Seq<Address> {
        if self.owners.contains_key(e) {
            self.owners[e]
        } else {
            Seq::empty()
        }
    }

    /// Badges held by `a`; none when nothing was stored.
    pub open spec fn badges_of(self, a: Address) -> Seq<EventId> {
        if self.badges.contains_key(a) {
            self.badges[a]
        } else {
            Seq::empty()
        }
    }

    pub open spec fn has_event(self, e: EventId) -> bool {
        self.metadata.contains_key(e)
    }

    pub open spec fn has_badge(self, e: EventId, a: Address) -> bool {
        self.badges_of(a).contains(e)
    }

    /// The consistency every reachable state keeps: events are listed once
    /// and have metadata and an organizer; a badge is recorded on both sides
    /// (holder and event) or on neither; nobody holds a badge twice.
    pub open spec fn wf(self) -> bool {
        &&& self.events.no_duplicates()
        &&& forall|e: EventId| #[trigger]
            self.metadata.contains_key(e) <==> self.events.contains(e)
        &&& forall|e: EventId| #[trigger]
            self.organizers.contains_key(e) <==> self.metadata.contains_key(e)
        &&& forall|e: EventId, a: Address|
            #![trigger self.owners_of(e).contains(a)]
            #![trigger self.badges_of(a).contains(e)]
            self.owners_of(e).contains(a) <==> self.badges_of(a).contains(e)
        &&& forall|e: EventId| #[trigger] self.owners_of(e).no_duplicates()
        &&& forall|a: Address| #[trigger] self.badges_of(a).no_duplicates()
        &&& forall|a: Address, e: EventId| #[trigger]
            self.badges_of(a).contains(e) ==> self.metadata.contains_key(e)
    }

    /// The state after registering event `e`.
    pub open spec fn create(self, e: EventId, organizer: Address, meta: EventMetadata) -> Ledger {
        Ledger {
            events: self.events.push(e),
            metadata: self.metadata.insert(e, meta),
            organizers: self.organizers.insert(e, organizer),
            ..self
        }
    }

    /// The state after giving `recipient` the badge of event `e`.
    pub open spec fn mint(self, e: EventId, recipient: Address) -> Ledger {
        Ledger {
            owners: self.owners.insert(e, self.owners_of(e).push(recipient)),
            badges: self.badges.insert(recipient, self.badges_of(recipient).push(e)),
            ..self
        }
    }

    /// What `create_event` answers: it refuses an id that already exists.
    pub open spec fn create_result(self, e: EventId) -> Result<(), Error> {
        if self.metadata.contains_key(e) {
            Err(Error::EventAlreadyExists)
        } else {
            Ok(())
        }
    }

    /// What `mint_badge` answers: the event must exist, and the recipient
    /// must not hold its badge yet.
    pub open spec fn mint_result(self, e: EventId, recipient: Address) -> Result<(), Error> {
        if !self.organizers.contains_key(e) {
            Err(Error::EventNotFound)
        } else if self.has_badge(e, recipient) {
            Err(Error::BadgeAlreadyMinted)
        } else {
            Ok(())
        }
    }

    /// What `get_event` answers.
    pub open spec fn event_result(self, e: EventId) -> Result<EventMetadata, Error> {
        if self.metadata.contains_key(e) {
            Ok(self.metadata[e])
        } else {
            Err(Error::EventNotFound)
        }
    }

    /// The gallery entries of `ids`: each id that has metadata, in order,
    /// paired with its metadata.
    pub open spec fn gallery_of(self, ids: Seq<EventId>) -> Seq<BadgeInfo>
        decreases ids.len(),
    {
        if ids.len() == 0 {
            Seq::empty()
        } else {
            let rest = self.gallery_of(ids.drop_last());
            let e = ids.last();
            if self.metadata.contains_key(e) {
                rest.push(BadgeInfo { event_id: e, metadata: self.metadata[e] })
            } else {
                rest
            }
        }
    }

    /// The gallery: every event, in creation order, with its metadata.
    pub open spec fn gallery(self) -> Seq<BadgeInfo> {
        self.gallery_of(self.events)
    }
}

/// Appending an element that a duplicate-free sequence lacks keeps it
/// duplicate-free.
pub proof fn lemma_push_no_duplicates<A>(s: Seq<A>, x: A)
    requires
        s.no_duplicates(),
        !s.contains(x),
    ensures
        s.push(x).no_duplicates(),
{
    let t = s.push(x);
    assert forall|i: int, j: int| 0 <= i < t.len() && 0 <= j < t.len() && i != j
        implies t[i] != t[j] by {
        if i < s.len() {
            assert(t[i] == s[i]);
        }
        if j < s.len() {
            assert(t[j] == s[j]);
        }
        if i == s.len() as int {
            assert(s.contains(s[j]));
        } else if j == s.len() as int {
            assert(s.contains(s[i]));
        }
    }
}

/// Registering a fresh event keeps the ledger consistent.
pub proof fn lemma_create_keeps_wf(l: Ledger, e: EventId, organizer: Address, meta: EventMetadata)
    requires
        l.wf(),
        !l.metadata.contains_key(e),
    ensures
        l.create(e, organizer, meta).wf(),
{
    let n = l.create(e, organizer, meta);
    assert(!l.events.contains(e));
    lemma_push_no_duplicates(l.events, e);
    assert forall|x: EventId| #[trigger] n.metadata.contains_key(x) <==> n.events.contains(x) by {
        if x != e {
            if l.events.contains(x) {
                let k = choose|k: int| 0 <= k < l.events.len() && l.events[k] == x;
                assert(n.events[k] == x);
            }
            if n.events.contains(x) {
                let k = choose|k: int| 0 <= k < n.events.len() && n.events[k] == x;
                assert(l.events[k] == x);
            }
        } else {
            assert(n.events[l.events.len() as int] == e);
        }
    }
    assert forall|x: EventId, a: Address|
        #![trigger n.owners_of(x).contains(a)]
        #![trigger n.badges_of(a).contains(x)]
        n.owners_of(x).contains(a) <==> n.badges_of(a).contains(x) by {
        assert(n.owners_of(x) == l.owners_of(x));
        assert(n.badges_of(a) == l.badges_of(a));
    }
    assert forall|x: EventId| #[trigger] n.owners_of(x).no_duplicates() by {
        assert(n.owners_of(x) == l.owners_of(x));
    }
    assert forall|a: Address| #[trigger] n.badges_of(a).no_duplicates() by {
        assert(n.badges_of(a) == l.badges_of(a));
    }
    assert forall|a: Address, x: EventId| #[trigger] n.badges_of(a).contains(x)
        implies n.metadata.contains_key(x) by {
        assert(n.badges_of(a) == l.badges_of(a));
        assert(l.badges_of(a).contains(x));
    }
}

/// Giving a badge to someone who does not hold it yet, for an event that
/// exists, keeps the ledger consistent.
pub proof fn lemma_mint_keeps_wf(l: Ledger, e: EventId, recipient: Address)
    requires
        l.wf(),
        l.organizers.contains_key(e),
        !l.has_badge(e, recipient),
    ensures
        l.mint(e, recipient).wf(),
{
    let n = l.mint(e, recipient);
    assert(l.metadata.contains_key(e));
    assert(!l.owners_of(e).contains(recipient));
    assert forall|x: EventId, a: Address|
        #![trigger n.owners_of(x).contains(a)]
        #![trigger n.badges_of(a).contains(x)]
        n.owners_of(x).contains(a) <==> n.badges_of(a).contains(x) by {
        if x == e && a == recipient {
            assert(n.owners_of(x)[n.owners_of(x).len() - 1] == a);
            assert(n.badges_of(a)[n.badges_of(a).len() - 1] == x);
        } else if x == e {
            assert(n.owners_of(x) == l.owners_of(x).push(recipient));
            assert(n.badges_of(a) == l.badges_of(a));
            if n.owners_of(x).contains(a) {
                let k = choose|k: int| 0 <= k < n.owners_of(x).len() && n.owners_of(x)[k] == a;
                assert(l.owners_of(x)[k] == a);
            }
            if l.owners_of(x).contains(a) {
                let k = choose|k: int| 0 <= k < l.owners_of(x).len() && l.owners_of(x)[k] == a;
                assert(n.owners_of(x)[k] == a);
            }
        } else if a == recipient {
            assert(n.badges_of(a) == l.badges_of(a).push(e));
            assert(n.owners_of(x) == l.owners_of(x));
            if n.badges_of(a).contains(x) {
                let k = choose|k: int| 0 <= k < n.badges_of(a).len() && n.badges_of(a)[k] == x;
                assert(l.badges_of(a)[k] == x);
            }
            if l.badges_of(a).contains(x) {
                let k = choose|k: int| 0 <= k < l.badges_of(a).len() && l.badges_of(a)[k] == x;
                assert(n.badges_of(a)[k] == x);
            }
        } else {
            assert(n.owners_of(x) == l.owners_of(x));
            assert(n.badges_of(a) == l.badges_of(a));
        }
    }
    assert forall|x: EventId| #[trigger] n.owners_of(x).no_duplicates() by {
        if x == e {
            assert(n.owners_of(x) == l.owners_of(e).push(recipient));
            lemma_push_no_duplicates(l.owners_of(e), recipient);
        } else {
            assert(n.owners_of(x) == l.owners_of(x));
        }
    }
    assert forall|a: Address| #[trigger] n.badges_of(a).no_duplicates() by {
        if a == recipient {
            assert(n.badges_of(a) == l.badges_of(a).push(e));
            lemma_push_no_duplicates(l.badges_of(a), e);
        } else {
            assert(n.badges_of(a) == l.badges_of(a));
        }
    }
    assert forall|a: Address, x: EventId| #[trigger] n.badges_of(a).contains(x)
        implies n.metadata.contains_key(x) by {
        if a == recipient && x != e {
            let k = choose|k: int| 0 <= k < n.badges_of(a).len() && n.badges_of(a)[k] == x;
            assert(l.badges_of(a)[k] == x);
            assert(l.badges_of(a).contains(x));
        } else if a != recipient {
            assert(n.badges_of(a) == l.badges_of(a));
            assert(l.badges_of(a).contains(x));
        }
    }
}

} // verus!
