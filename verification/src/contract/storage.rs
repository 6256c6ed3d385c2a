use vstd::prelude::*;

use crate::contract::model::Ledger;
use crate::contract::table::{all_distinct, seq_contains, Table};
use crate::contract::types::{copy_vec, Address, EventId, EventMetadata};

verus! {

/// The typed keys of the registry's persistent storage. Each family of
/// entries has its own key, so reads and writes of a family cannot diverge.
#[derive(Clone, Copy, Debug, PartialEq, Eq)]
pub enum DataKey {
    /// The list of every event: `Vec<EventId>`.
    Events,
    /// An event's metadata: `EventMetadata`.
    EventMeta(EventId),
    /// An event's organizer (its owner): `Address`.
    EventOrganizer(EventId),
    /// Collectors of an event's badge: `Vec<Address>`.
    EventOwners(EventId),
    /// Badges an address holds: `Vec<EventId>`.
    UserBadges(Address),
}

/// One authorization that an invocation required: who had to authorize,
/// and which contract function it authorized.
#[derive(Clone, Debug, PartialEq, Eq)]
pub struct Authorization {
    pub address: Address,
    pub contract: Address,
    pub function: String,
}

/// The environment the registry runs in: its own address, its persistent
/// storage (one table per `DataKey` family), the function being invoked,
/// and the authorizations that the last state-changing invocation required.
pub struct Env {
    contract: Address,
    events: Vec<EventId>,
    metadata: Table<EventId, EventMetadata>,
    organizers: Table<EventId, Address>,
    owners: Table<EventId, Vec<Address>>,
    badges: Table<Address, Vec<EventId>>,
    invocation: String,
    auths: Vec<Authorization>,
}

impl View for Env {
    type V = Ledger;

    closed spec fn view(&self) -> Ledger {
        Ledger {
            events: self.events@,
            metadata: self.metadata@,
            organizers: self.organizers@,
            owners: self.owners@.map_values(|v: Vec<Address>| v@),
            badges: self.badges@.map_values(|v: Vec<EventId>| v@),
        }
    }
}

impl Env {
    /// The storage tables are well formed, and every recorded authorization
    /// names this contract.
    pub closed spec fn inv(&self) -> bool {
        &&& self.metadata.wf()
        &&& self.organizers.wf()
        &&& self.owners.wf()
        &&& self.badges.wf()
        &&& forall|i: int| 0 <= i < self.auths@.len() ==> #[trigger] self.auths@[i].contract == self.contract
    }

    /// The environment is well formed and its ledger consistent.
    pub open spec fn wf(&self) -> bool {
        self.inv() && self@.wf()
    }

    /// The function being invoked.
    pub closed spec fn current_function(&self) -> Seq<char> {
        self.invocation@
    }

    /// The registry's own address.
    pub closed spec fn contract_address(&self) -> Address {
        self.contract
    }

    /// Who authorized which function, for the last state-changing
    /// invocation.
    pub closed spec fn auth_log(&self) -> Seq<(Address, Seq<char>)> {
        self.auths@.map_values(|a: Authorization| (a.address, a.function@))
    }

    /// A registry deployed at `contract`: empty storage, no authorization
    /// recorded.
    pub fn new(contract: Address) -> (r: Env)
        ensures
            r.wf(),
            r@ == Ledger::empty(),
            r.contract_address() == contract,
            r.auth_log() == Seq::<(Address, Seq<char>)>::empty(),
    {
        let r = Env {
            contract,
            events: Vec::new(),
            metadata: Table::new(),
            organizers: Table::new(),
            owners: Table::new(),
            badges: Table::new(),
            invocation: String::new(),
            auths: Vec::new(),
        };
        assert(r@.owners =~= Map::<EventId, Seq<Address>>::empty());
        assert(r@.badges =~= Map::<Address, Seq<EventId>>::empty());
        assert(r@ == Ledger::empty());
        assert(r.auth_log() =~= Seq::<(Address, Seq<char>)>::empty());
        r
    }

    /// Starts an invocation of `function`: forgets the authorizations of
    /// the last one.
    pub fn begin_invocation(&mut self, function: &str)
        ensures
            final(self)@ == old(self)@,
            old(self).inv() ==> final(self).inv(),
            final(self).contract_address() == old(self).contract_address(),
            final(self).current_function() == function@,
            final(self).auth_log() == Seq::<(Address, Seq<char>)>::empty(),
    {
        self.invocation = function.to_owned();
        self.auths = Vec::new();
        assert(self.auth_log() =~= Seq::<(Address, Seq<char>)>::empty());
    }

    /// Requires `address` to have authorized the current invocation. The
    /// signature itself is checked by the ledger host; the registry records
    /// whose authorization, for which function, the invocation required.
    pub fn require_auth(&mut self, address: &Address)
        ensures
            final(self)@ == old(self)@,
            old(self).inv() ==> final(self).inv(),
            final(self).contract_address() == old(self).contract_address(),
            final(self).current_function() == old(self).current_function(),
            final(self).auth_log() == old(self).auth_log().push((*address, old(self).current_function())),
    {
        let a = Authorization {
            address: *address,
            contract: self.contract,
            function: self.invocation.clone(),
        };
        self.auths.push(a);
        assert(self.auth_log() =~= old(self).auth_log().push((*address, old(self).current_function())));
    }

    /// The authorizations that the last state-changing invocation required,
    /// in the order they were required.
    pub fn auths(&self) -> (r: Vec<Authorization>)
        requires
            self.inv(),
        ensures
            r@.map_values(|a: Authorization| (a.address, a.function@)) == self.auth_log(),
            forall|i: int| 0 <= i < r@.len() ==> #[trigger] r@[i].contract == self.contract_address(),
    {
        let mut r: Vec<Authorization> = Vec::new();
        let mut i: usize = 0;
        while i < self.auths.len()
            invariant
                self.inv(),
                i <= self.auths@.len(),
                r@ == self.auths@.take(i as int),
            decreases self.auths@.len() - i,
        {
            let a = &self.auths[i];
            r.push(Authorization { address: a.address, contract: a.contract, function: a.function.clone() });
            assert(r@ =~= self.auths@.take(i + 1));
            i = i + 1;
        }
        assert(self.auths@.take(self.auths@.len() as int) =~= self.auths@);
        r
    }
}

impl Env {
    /// Whether the event list is duplicate-free and names exactly the events
    /// that have metadata, which are exactly those with an organizer.
    fn events_consistent(&self) -> (r: bool)
        requires
            self.inv(),
        ensures
            r == (self@.events.no_duplicates() && (forall|e: EventId| #[trigger]
                self@.metadata.contains_key(e) <==> self@.events.contains(e)) && (forall|e: EventId|
                #[trigger] self@.organizers.contains_key(e) <==> self@.metadata.contains_key(e))),
    {
        proof {
            self.metadata.lemma_keys();
            self.organizers.lemma_keys();
        }
        if !all_distinct(&self.events) {
            return false;
        }
        let mut i: usize = 0;
        while i < self.events.len()
            invariant
                self.inv(),
                i <= self.events@.len(),
                forall|j: int|
                    0 <= j < i ==> self.metadata@.contains_key(#[trigger] self.events@[j])
                        && self.organizers@.contains_key(self.events@[j]),
            decreases self.events@.len() - i,
        {
            let e = self.events[i];
            if !self.metadata.contains_key(&e) || !self.organizers.contains_key(&e) {
                proof {
                    assert(self@.events.contains(e));
                    if self@.metadata.contains_key(e) {
                        assert(!self@.organizers.contains_key(e));
                    }
                }
                return false;
            }
            i = i + 1;
        }
        let n = self.metadata.len();
        let mut i: usize = 0;
        while i < n
            invariant
                self.inv(),
                n == self.metadata.keys().len(),
                i <= n,
                forall|j: int| 0 <= j < i ==> self.events@.contains(#[trigger] self.metadata.keys()[j]),
            decreases n - i,
        {
            let (e, _) = self.metadata.entry_at(i);
            if !seq_contains(&self.events, e) {
                assert(self@.metadata.contains_key(*e));
                assert(!self@.events.contains(*e));
                return false;
            }
            i = i + 1;
        }
        let n = self.organizers.len();
        let mut i: usize = 0;
        while i < n
            invariant
                self.inv(),
                n == self.organizers.keys().len(),
                i <= n,
                forall|j: int| 0 <= j < i ==> self.metadata@.contains_key(#[trigger] self.organizers.keys()[j]),
            decreases n - i,
        {
            let (e, _) = self.organizers.entry_at(i);
            if !self.metadata.contains_key(e) {
                assert(self@.organizers.contains_key(*e));
                assert(!self@.metadata.contains_key(*e));
                return false;
            }
            i = i + 1;
        }
        assert forall|e: EventId| #[trigger] self@.metadata.contains_key(e) <==> self@.events.contains(e) by {
            if self@.metadata.contains_key(e) {
                assert(self.metadata.keys().contains(e));
                let j = choose|j: int| 0 <= j < self.metadata.keys().len() && self.metadata.keys()[j] == e;
                assert(self.events@.contains(self.metadata.keys()[j]));
            }
            if self@.events.contains(e) {
                let j = choose|j: int| 0 <= j < self.events@.len() && self.events@[j] == e;
                assert(self.metadata@.contains_key(self.events@[j]));
            }
        }
        assert forall|e: EventId| #[trigger] self@.organizers.contains_key(e) <==> self@.metadata.contains_key(e) by {
            if self@.organizers.contains_key(e) {
                assert(self.organizers.keys().contains(e));
                let j = choose|j: int| 0 <= j < self.organizers.keys().len() && self.organizers.keys()[j] == e;
                assert(self.metadata@.contains_key(self.organizers.keys()[j]));
            }
            if self@.metadata.contains_key(e) {
                assert(self@.events.contains(e));
                let j = choose|j: int| 0 <= j < self.events@.len() && self.events@[j] == e;
                assert(self.organizers@.contains_key(self.events@[j]));
            }
        }
        true
    }

    /// Whether every event's collectors are listed once and hold its badge.
    fn owners_consistent(&self) -> (r: bool)
        requires
            self.inv(),
        ensures
            r == ((forall|e: EventId| #[trigger] self@.owners_of(e).no_duplicates()) && (forall|
                e: EventId,
                a: Address,
            |
                #![trigger self@.owners_of(e).contains(a)]
                self@.owners_of(e).contains(a) ==> self@.badges_of(a).contains(e))),
    {
        proof {
            self.owners.lemma_keys();
        }
        let n = self.owners.len();
        let mut i: usize = 0;
        while i < n
            invariant
                self.inv(),
                n == self.owners.keys().len(),
                i <= n,
                forall|j: int| 0 <= j < i ==> #[trigger] self@.owners_of(self.owners.keys()[j]).no_duplicates(),
                forall|j: int, a: Address|
                    0 <= j < i && #[trigger] self@.owners_of(self.owners.keys()[j]).contains(a)
                        ==> self@.badges_of(a).contains(self.owners.keys()[j]),
            decreases n - i,
        {
            let (e, list) = self.owners.entry_at(i);
            assert(list@ == self@.owners_of(*e));
            if !all_distinct(list) {
                return false;
            }
            let mut k: usize = 0;
            while k < list.len()
                invariant
                    self.inv(),
                    k <= list@.len(),
                    list@ == self@.owners_of(*e),
                    forall|m: int| 0 <= m < k ==> self@.badges_of(#[trigger] list@[m]).contains(*e),
                decreases list@.len() - k,
            {
                let a = list[k];
                let holds = match self.badges.get(&a) {
                    Some(bl) => seq_contains(bl, e),
                    None => false,
                };
                if !holds {
                    assert(self@.owners_of(*e).contains(a));
                    assert(!self@.badges_of(a).contains(*e));
                    return false;
                }
                k = k + 1;
            }
            assert forall|a: Address| #[trigger] self@.owners_of(*e).contains(a) implies self@.badges_of(
                a,
            ).contains(*e) by {
                let m = choose|m: int| 0 <= m < list@.len() && list@[m] == a;
                assert(self@.badges_of(list@[m]).contains(*e));
            }
            i = i + 1;
        }
        assert forall|e: EventId| #[trigger] self@.owners_of(e).no_duplicates() by {
            if self.owners@.contains_key(e) {
                assert(self.owners.keys().contains(e));
                let j = choose|j: int| 0 <= j < n && self.owners.keys()[j] == e;
                assert(self@.owners_of(self.owners.keys()[j]).no_duplicates());
            } else {
                assert(self@.owners_of(e) =~= Seq::<Address>::empty());
            }
        }
        assert forall|e: EventId, a: Address| #[trigger] self@.owners_of(e).contains(a) implies self@.badges_of(
            a,
        ).contains(e) by {
            if self.owners@.contains_key(e) {
                assert(self.owners.keys().contains(e));
                let j = choose|j: int| 0 <= j < n && self.owners.keys()[j] == e;
                assert(self@.owners_of(self.owners.keys()[j]).contains(a));
            }
        }
        true
    }

    /// Whether every holder's badges are listed once, belong to events with
    /// metadata, and list the holder among the event's collectors.
    fn badges_consistent(&self) -> (r: bool)
        requires
            self.inv(),
        ensures
            r == ((forall|a: Address| #[trigger] self@.badges_of(a).no_duplicates()) && (forall|
                a: Address,
                e: EventId,
            |
                #![trigger self@.badges_of(a).contains(e)]
                self@.badges_of(a).contains(e) ==> self@.metadata.contains_key(e)
                    && self@.owners_of(e).contains(a))),
    {
        proof {
            self.badges.lemma_keys();
        }
        let n = self.badges.len();
        let mut i: usize = 0;
        while i < n
            invariant
                self.inv(),
                n == self.badges.keys().len(),
                i <= n,
                forall|j: int| 0 <= j < i ==> #[trigger] self@.badges_of(self.badges.keys()[j]).no_duplicates(),
                forall|j: int, e: EventId|
                    0 <= j < i && #[trigger] self@.badges_of(self.badges.keys()[j]).contains(e)
                        ==> self@.metadata.contains_key(e) && self@.owners_of(e).contains(
                        self.badges.keys()[j],
                    ),
            decreases n - i,
        {
            let (a, list) = self.badges.entry_at(i);
            assert(list@ == self@.badges_of(*a));
            if !all_distinct(list) {
                return false;
            }
            let mut k: usize = 0;
            while k < list.len()
                invariant
                    self.inv(),
                    k <= list@.len(),
                    list@ == self@.badges_of(*a),
                    forall|m: int|
                        0 <= m < k ==> self@.metadata.contains_key(#[trigger] list@[m])
                            && self@.owners_of(list@[m]).contains(*a),
                decreases list@.len() - k,
            {
                let e = list[k];
                let ok = self.metadata.contains_key(&e) && match self.owners.get(&e) {
                    Some(ol) => seq_contains(ol, a),
                    None => false,
                };
                if !ok {
                    assert(self@.badges_of(*a).contains(e));
                    return false;
                }
                k = k + 1;
            }
            assert forall|e: EventId| #[trigger] self@.badges_of(*a).contains(e) implies self@.metadata.contains_key(e)
                && self@.owners_of(e).contains(*a) by {
                let m = choose|m: int| 0 <= m < list@.len() && list@[m] == e;
                assert(self@.metadata.contains_key(list@[m]));
            }
            i = i + 1;
        }
        assert forall|a: Address| #[trigger] self@.badges_of(a).no_duplicates() by {
            if self.badges@.contains_key(a) {
                assert(self.badges.keys().contains(a));
                let j = choose|j: int| 0 <= j < n && self.badges.keys()[j] == a;
                assert(self@.badges_of(self.badges.keys()[j]).no_duplicates());
            } else {
                assert(self@.badges_of(a) =~= Seq::<EventId>::empty());
            }
        }
        assert forall|a: Address, e: EventId| #[trigger] self@.badges_of(a).contains(e) implies self@.metadata.contains_key(e)
            && self@.owners_of(e).contains(a) by {
            if self.badges@.contains_key(a) {
                assert(self.badges.keys().contains(a));
                let j = choose|j: int| 0 <= j < n && self.badges.keys()[j] == a;
                assert(self@.badges_of(self.badges.keys()[j]).contains(e));
            }
        }
        true
    }

    /// Whether the ledger is consistent (see [`Ledger::wf`]).
    pub fn is_consistent(&self) -> (r: bool)
        requires
            self.inv(),
        ensures
            r == self@.wf(),
    {
        let r = self.events_consistent() && self.owners_consistent() && self.badges_consistent();
        proof {
            let l = self@;
            if l.wf() {
                assert forall|a: Address, e: EventId| #[trigger] l.badges_of(a).contains(e) implies l.metadata.contains_key(e)
                    && l.owners_of(e).contains(a) by {
                    assert(l.owners_of(e).contains(a) <==> l.badges_of(a).contains(e));
                }
            }
            if r {
                assert forall|e: EventId, a: Address|
                    #![trigger l.owners_of(e).contains(a)]
                    #![trigger l.badges_of(a).contains(e)]
                    l.owners_of(e).contains(a) <==> l.badges_of(a).contains(e) by {
                    if l.owners_of(e).contains(a) {
                        assert(l.badges_of(a).contains(e));
                    }
                    if l.badges_of(a).contains(e) {
                        assert(l.owners_of(e).contains(a));
                    }
                }
            }
        }
        r
    }
}

/// One event as persisted: its id, metadata, organizer and collectors.
pub struct EventRecord {
    pub event_id: EventId,
    pub metadata: EventMetadata,
    pub organizer: Address,
    pub owners: Vec<Address>,
}

/// One holder as persisted: its address and the badges it holds.
pub struct HolderRecord {
    pub holder: Address,
    pub badges: Vec<EventId>,
}

/// `l` with the entries of `events` stored in order.
pub open spec fn with_event_records(l: Ledger, events: Seq<EventRecord>) -> Ledger
    decreases events.len(),
{
    if events.len() == 0 {
        l
    } else {
        let r = events.last();
        let p = with_event_records(l, events.drop_last());
        Ledger {
            events: p.events.push(r.event_id),
            metadata: p.metadata.insert(r.event_id, r.metadata),
            organizers: p.organizers.insert(r.event_id, r.organizer),
            owners: p.owners.insert(r.event_id, r.owners@),
            ..p
        }
    }
}

/// `l` with the badges of `holders` stored in order.
pub open spec fn with_holder_records(l: Ledger, holders: Seq<HolderRecord>) -> Ledger
    decreases holders.len(),
{
    if holders.len() == 0 {
        l
    } else {
        let h = holders.last();
        let p = with_holder_records(l, holders.drop_last());
        Ledger { badges: p.badges.insert(h.holder, h.badges@), ..p }
    }
}

/// The ledger that persisted records describe.
pub open spec fn ledger_of_records(events: Seq<EventRecord>, holders: Seq<HolderRecord>) -> Ledger {
    with_holder_records(with_event_records(Ledger::empty(), events), holders)
}

impl Env {
    /// The registry deployed at `contract` whose persisted state the records
    /// describe; `None` when that state is not consistent.
    pub fn restore(contract: Address, events: &Vec<EventRecord>, holders: &Vec<HolderRecord>) -> (r:
        Option<Env>)
        ensures
            match r {
                Some(env) => {
                    &&& env.wf()
                    &&& env@ == ledger_of_records(events@, holders@)
                    &&& env.contract_address() == contract
                    &&& env.auth_log() == Seq::<(Address, Seq<char>)>::empty()
                },
                None => !ledger_of_records(events@, holders@).wf(),
            },
    {
        let mut env = Env::new(contract);
        let mut i: usize = 0;
        assert(events@.take(0) =~= Seq::<EventRecord>::empty());
        while i < events.len()
            invariant
                env.inv(),
                i <= events@.len(),
                env@ == with_event_records(Ledger::empty(), events@.take(i as int)),
                env.contract_address() == contract,
                env.auth_log() == Seq::<(Address, Seq<char>)>::empty(),
            decreases events@.len() - i,
        {
            let rec = &events[i];
            assert(events@.take(i + 1).drop_last() =~= events@.take(i as int));
            assert(events@.take(i + 1).last() == *rec);
            push_event(&mut env, &rec.event_id);
            set_event_metadata(&mut env, &rec.event_id, &rec.metadata);
            set_event_organizer(&mut env, &rec.event_id, &rec.organizer);
            set_event_owners(&mut env, &rec.event_id, &rec.owners);
            i = i + 1;
        }
        assert(events@.take(events@.len() as int) =~= events@);
        let ghost base = env@;
        let mut i: usize = 0;
        assert(holders@.take(0) =~= Seq::<HolderRecord>::empty());
        while i < holders.len()
            invariant
                env.inv(),
                i <= holders@.len(),
                env@ == with_holder_records(base, holders@.take(i as int)),
                env.contract_address() == contract,
                env.auth_log() == Seq::<(Address, Seq<char>)>::empty(),
            decreases holders@.len() - i,
        {
            let h = &holders[i];
            assert(holders@.take(i + 1).drop_last() =~= holders@.take(i as int));
            assert(holders@.take(i + 1).last() == *h);
            set_user_badges(&mut env, &h.holder, &h.badges);
            i = i + 1;
        }
        assert(holders@.take(holders@.len() as int) =~= holders@);
        if env.is_consistent() {
            Some(env)
        } else {
            None
        }
    }
}

/// Whether event `event_id` has metadata.
pub fn has_event(env: &Env, event_id: &EventId) -> (r: bool)
    requires
        env.inv(),
    ensures
        r == env@.metadata.contains_key(*event_id),
{
    env.metadata.contains_key(event_id)
}

/// Stores the metadata of `event_id`.
pub fn set_event_metadata(env: &mut Env, event_id: &EventId, metadata: &EventMetadata)
    requires
        old(env).inv(),
    ensures
        final(env).inv(),
        final(env).auth_log() == old(env).auth_log(),
        final(env).contract_address() == old(env).contract_address(),
        final(env).current_function() == old(env).current_function(),
        final(env)@ == (Ledger { metadata: old(env)@.metadata.insert(*event_id, *metadata), ..old(env)@ }),
{
    env.metadata.insert(*event_id, metadata.duplicate());
    assert(env@.owners =~= old(env)@.owners);
    assert(env@.badges =~= old(env)@.badges);
}

/// The metadata of `event_id`, if stored.
pub fn get_event_metadata(env: &Env, event_id: &EventId) -> (r: Option<EventMetadata>)
    requires
        env.inv(),
    ensures
        r == env@.metadata.get(*event_id),
{
    match env.metadata.get(event_id) {
        Some(m) => Some(m.duplicate()),
        None => None,
    }
}

/// Stores the organizer of `event_id`.
pub fn set_event_organizer(env: &mut Env, event_id: &EventId, organizer: &Address)
    requires
        old(env).inv(),
    ensures
        final(env).inv(),
        final(env).auth_log() == old(env).auth_log(),
        final(env).contract_address() == old(env).contract_address(),
        final(env).current_function() == old(env).current_function(),
        final(env)@ == (Ledger { organizers: old(env)@.organizers.insert(*event_id, *organizer), ..old(env)@ }),
{
    env.organizers.insert(*event_id, *organizer);
    assert(env@.owners =~= old(env)@.owners);
    assert(env@.badges =~= old(env)@.badges);
}

/// The organizer of `event_id`, if stored.
pub fn get_event_organizer(env: &Env, event_id: &EventId) -> (r: Option<Address>)
    requires
        env.inv(),
    ensures
        r == env@.organizers.get(*event_id),
{
    match env.organizers.get(event_id) {
        Some(a) => Some(*a),
        None => None,
    }
}

/// Every event id, in creation order.
pub fn get_events(env: &Env) -> (r: Vec<EventId>)
    ensures
        r@ == env@.events,
{
    copy_vec(&env.events)
}

/// Appends `event_id` to the list of events.
pub fn push_event(env: &mut Env, event_id: &EventId)
    requires
        old(env).inv(),
    ensures
        final(env).inv(),
        final(env).auth_log() == old(env).auth_log(),
        final(env).contract_address() == old(env).contract_address(),
        final(env).current_function() == old(env).current_function(),
        final(env)@ == (Ledger { events: old(env)@.events.push(*event_id), ..old(env)@ }),
{
    let mut events = get_events(env);
    events.push(*event_id);
    env.events = events;
    assert(env@.owners =~= old(env)@.owners);
    assert(env@.badges =~= old(env)@.badges);
}

/// Collectors of `event_id`'s badge; none when nothing is stored.
pub fn get_event_owners(env: &Env, event_id: &EventId) -> (r: Vec<Address>)
    requires
        env.inv(),
    ensures
        r@ == env@.owners_of(*event_id),
{
    match env.owners.get(event_id) {
        Some(v) => copy_vec(v),
        None => Vec::new(),
    }
}

/// Stores the collectors of `event_id`'s badge.
pub fn set_event_owners(env: &mut Env, event_id: &EventId, owners: &Vec<Address>)
    requires
        old(env).inv(),
    ensures
        final(env).inv(),
        final(env).auth_log() == old(env).auth_log(),
        final(env).contract_address() == old(env).contract_address(),
        final(env).current_function() == old(env).current_function(),
        final(env)@ == (Ledger { owners: old(env)@.owners.insert(*event_id, owners@), ..old(env)@ }),
{
    env.owners.insert(*event_id, copy_vec(owners));
    assert(env@.owners =~= old(env)@.owners.insert(*event_id, owners@));
    assert(env@.badges =~= old(env)@.badges);
}

/// Badges `user` holds; none when nothing is stored.
pub fn get_user_badges(env: &Env, user: &Address) -> (r: Vec<EventId>)
    requires
        env.inv(),
    ensures
        r@ == env@.badges_of(*user),
{
    match env.badges.get(user) {
        Some(v) => copy_vec(v),
        None => Vec::new(),
    }
}

/// Stores the badges `user` holds.
pub fn set_user_badges(env: &mut Env, user: &Address, badges: &Vec<EventId>)
    requires
        old(env).inv(),
    ensures
        final(env).inv(),
        final(env).auth_log() == old(env).auth_log(),
        final(env).contract_address() == old(env).contract_address(),
        final(env).current_function() == old(env).current_function(),
        final(env)@ == (Ledger { badges: old(env)@.badges.insert(*user, badges@), ..old(env)@ }),
{
    env.badges.insert(*user, copy_vec(badges));
    assert(env@.owners =~= old(env)@.owners);
    assert(env@.badges =~= old(env)@.badges.insert(*user, badges@));
}

} // verus!
