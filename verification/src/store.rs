//! The store of live notifications: each one under its id, the order in
//! which they are shown, and the allocator of their ids.

use crate::notification::{expiry, Notification, Urgency};
use crate::order::{
    all_but, lemma_remove_is_retain, lemma_retain_all, lemma_retain_contents, lemma_retain_push,
    retain,
};
use crate::registry::{
    lemma_allocate_keeps_wf, lemma_next_free_is_free, IdentityRegistry, RegistryState,
};
use std::collections::HashMap;
use vstd::prelude::*;

verus! {

broadcast use vstd::std_specs::hash::group_hash_axioms;

/// What a store holds.
pub struct StoreState {
    /// The live notifications, each under its id
    pub notifications: Map<u32, Notification>,
    /// The ids of the live notifications, in the order in which they are shown
    pub alerts: Seq<u32>,
    /// The allocator of ids
    pub registry: RegistryState,
}

impl StoreState {
    /// The store is consistent: every live notification stands in the order
    /// exactly once and nothing else does, each is kept under its own id,
    /// zero is no id, and the id of every live notification is marked as in
    /// use, so that it is not handed out again.
    pub open spec fn wf(self) -> bool {
        &&& self.registry.wf()
        &&& forall|id: u32|
            self.notifications.contains_key(id) ==> #[trigger] self.registry.used.contains(id)
        &&& self.alerts.no_duplicates()
        &&& forall|id: u32| self.notifications.contains_key(id) <==> self.alerts.contains(id)
        &&& forall|id: u32|
            self.notifications.contains_key(id) ==> (#[trigger] self.notifications[id]).id == id
        &&& !self.notifications.contains_key(0)
    }

    /// The store that holds nothing, with a new allocator.
    pub open spec fn empty() -> StoreState {
        StoreState {
            notifications: Map::empty(),
            alerts: Seq::empty(),
            registry: RegistryState::fresh(),
        }
    }

    /// The id under which a request is stored: a new one where the request
    /// replaces nothing, and else the id that it names, whether a
    /// notification is live under it or not.
    pub open spec fn id_for(self, replaces_id: u32) -> u32 {
        if replaces_id == 0 {
            self.registry.next_free()
        } else {
            replaces_id
        }
    }

    /// The store after a request: the candidate is kept under its id, in
    /// place of what was kept there. An id that was not live goes to the end
    /// of the order; one that was live keeps its place. The id is in use
    /// afterwards, also where the request named it.
    pub open spec fn upsert(self, candidate: Notification, replaces_id: u32) -> StoreState {
        let id = self.id_for(replaces_id);
        StoreState {
            notifications: self.notifications.insert(id, Notification { id, ..candidate }),
            alerts: if self.notifications.contains_key(id) {
                self.alerts
            } else {
                self.alerts.push(id)
            },
            registry: if replaces_id == 0 {
                self.registry.allocate().1
            } else {
                self.registry.mark_used(replaces_id)
            },
        }
    }

    /// The store without the notification of the given id. The id stays in
    /// use: it is not handed out again.
    pub open spec fn remove(self, id: u32) -> StoreState {
        StoreState {
            notifications: self.notifications.remove(id),
            alerts: retain(self.alerts, all_but(id)),
            registry: self.registry,
        }
    }

    /// The ids of the notifications that have expired at `now`.
    pub open spec fn expired(self, now: i64) -> Set<u32> {
        Set::new(
            |id: u32| self.notifications.contains_key(id) && self.notifications[id].expired_at(now),
        )
    }

    /// The ids that an expiry sweep at `now` reports: those of the expired
    /// notifications, in the order in which they were shown.
    pub open spec fn swept(self, now: i64) -> Seq<u32> {
        retain(self.alerts, self.expired(now))
    }

    /// The store after an expiry sweep at `now`: the expired notifications
    /// are gone, and the others are as they were.
    pub open spec fn sweep(self, now: i64) -> StoreState {
        StoreState {
            notifications: self.notifications.remove_keys(self.expired(now)),
            alerts: retain(self.alerts, self.expired(now).complement()),
            registry: self.registry,
        }
    }
}

/// The store of live notifications.
#[derive(Debug)]
pub struct NotificationStore {
    notifications: HashMap<u32, Notification>,
    alerts: Vec<u32>,
    registry: IdentityRegistry,
}

impl View for NotificationStore {
    type V = StoreState;

    closed spec fn view(&self) -> StoreState {
        StoreState {
            notifications: self.notifications@,
            alerts: self.alerts@,
            registry: self.registry@,
        }
    }
}

impl NotificationStore {
    /// A store that holds nothing.
    pub fn new() -> (store: Self)
        ensures
            store@ == StoreState::empty(),
            store@.wf(),
    {
        NotificationStore {
            notifications: HashMap::new(),
            alerts: Vec::new(),
            registry: IdentityRegistry::new(),
        }
    }

    /// Whether no notification is live.
    pub fn is_empty(&self) -> (empty: bool)
        requires
            self@.wf(),
        ensures
            empty == (self@.alerts.len() == 0),
            empty == (self@.notifications.len() == 0),
    {
        proof {
            if self@.alerts.len() == 0 {
                assert forall|id: u32| !self@.notifications.contains_key(id) by {
                    assert(!self@.alerts.contains(id));
                }
                assert(self@.notifications =~= Map::empty());
            } else {
                assert(self@.alerts.contains(self@.alerts[0]));
                assert(self@.notifications.contains_key(self@.alerts[0]));
                if self@.notifications.len() == 0 {
                    vstd::set_lib::lemma_set_empty_equivalency_len(self@.notifications.dom());
                }
            }
        }
        self.alerts.len() == 0
    }

    /// The number of live notifications.
    pub fn len(&self) -> (count: usize)
        ensures
            count == self@.alerts.len(),
    {
        self.alerts.len()
    }

    /// The ids of the live notifications, in the order in which they are
    /// shown.
    pub fn alerts(&self) -> (order: &Vec<u32>)
        ensures
            order@ == self@.alerts,
    {
        &self.alerts
    }

    /// The live notification of the given id.
    pub fn get(&self, id: u32) -> (found: Option<&Notification>)
        ensures
            match found {
                Some(notification) => self@.notifications.contains_key(id)
                    && *notification == self@.notifications[id],
                None => !self@.notifications.contains_key(id),
            },
    {
        self.notifications.get(&id)
    }

    /// Whether a notification of the given id is live.
    pub fn contains(&self, id: u32) -> (live: bool)
        ensures
            live == self@.notifications.contains_key(id),
    {
        self.notifications.contains_key(&id)
    }

    /// Whether an id is left for a request that replaces nothing.
    pub fn has_free_id(&self) -> (free: bool)
        requires
            self@.wf(),
        ensures
            free == self@.registry.has_free(),
    {
        self.registry.has_free_id()
    }

    /// Stores the candidate: under a new id where `replaces_id` is zero, and
    /// else under `replaces_id`, in place of what was kept there. Returns the
    /// id. The candidate's own id is not read.
    pub fn upsert(&mut self, candidate: Notification, replaces_id: u32) -> (id: u32)
        requires
            old(self)@.wf(),
            replaces_id == 0 ==> old(self)@.registry.has_free(),
        ensures
            id == old(self)@.id_for(replaces_id),
            final(self)@ == old(self)@.upsert(candidate, replaces_id),
            final(self)@.wf(),
            id != 0,
            replaces_id == 0 ==> !old(self)@.registry.used.contains(id),
            replaces_id == 0 ==> final(self)@.alerts == old(self)@.alerts.push(id),
    {
        proof {
            lemma_upsert_keeps_wf(self@, candidate, replaces_id);
            if replaces_id == 0 {
                lemma_new_notification_extends_order(self@, candidate);
            }
        }
        let id = if replaces_id == 0 {
            self.registry.allocate()
        } else {
            self.registry.mark_used(replaces_id);
            replaces_id
        };
        if !self.notifications.contains_key(&id) {
            self.alerts.push(id);
        }
        self.notifications.insert(id, Notification { id, ..candidate });
        id
    }

    /// Takes out the notification of the given id and returns it. Nothing
    /// changes where no such notification is live.
    pub fn remove(&mut self, id: u32) -> (removed: Option<Notification>)
        requires
            old(self)@.wf(),
        ensures
            final(self)@ == old(self)@.remove(id),
            final(self)@.wf(),
            match removed {
                Some(notification) => old(self)@.notifications.contains_key(id) && notification
                    == old(self)@.notifications[id],
                None => !old(self)@.notifications.contains_key(id) && final(self)@ == old(self)@,
            },
    {
        let ghost order = self.alerts@;
        proof {
            lemma_remove_takes_one(self@, id);
        }
        let mut i: usize = 0;
        while i < self.alerts.len() && self.alerts[i] != id
            invariant
                i <= self.alerts.len(),
                self.alerts@ == order,
                forall|j: int| 0 <= j < i ==> order[j] != id,
            decreases self.alerts.len() - i,
        {
            i += 1;
        }
        if i < self.alerts.len() {
            proof {
                lemma_remove_is_retain(order, i as int);
                assert(order.contains(order[i as int]));
            }
            self.alerts.remove(i);
        } else {
            proof {
                assert(!order.contains(id));
            }
        }
        self.notifications.remove(&id)
    }

    /// Takes out every notification that has expired at `now`, and returns
    /// their ids in the order in which they were shown.
    pub fn sweep_expired(&mut self, now: i64) -> (removed: Vec<u32>)
        requires
            old(self)@.wf(),
        ensures
            removed@ == old(self)@.swept(now),
            final(self)@ == old(self)@.sweep(now),
            final(self)@.wf(),
    {
        let ghost start = self@;
        let ghost expired = start.expired(now);
        let mut removed: Vec<u32> = Vec::new();
        let mut kept: Vec<u32> = Vec::new();
        let mut i: usize = 0;
        while i < self.alerts.len()
            invariant
                i <= self.alerts.len(),
                start.wf(),
                expired == start.expired(now),
                self.alerts@ == start.alerts,
                self.registry@ == start.registry,
                removed@ == retain(start.alerts.take(i as int), expired),
                kept@ == retain(start.alerts.take(i as int), expired.complement()),
                forall|id: u32|
                    self.notifications@.contains_key(id) <==> #[trigger] start.notifications.contains_key(
                        id,
                    ) && !removed@.contains(id),
                forall|id: u32|
                    self.notifications@.contains_key(id) ==> self.notifications@[id]
                        == #[trigger] start.notifications[id],
            decreases self.alerts.len() - i,
        {
            let id = self.alerts[i];
            let ghost done = start.alerts.take(i as int);
            proof {
                assert(start.alerts.take(i + 1) == done.push(id));
                lemma_retain_push(done, id, expired);
                lemma_retain_push(done, id, expired.complement());
                lemma_retain_contents(done, expired);
                assert(start.alerts.contains(id));
                assert(!done.contains(id)) by {
                    if done.contains(id) {
                        let j = choose|j: int| 0 <= j < done.len() && done[j] == id;
                        assert(start.alerts[j] == start.alerts[i as int]);
                    }
                }
            }
            let is_expired = match self.notifications.get(&id) {
                Some(notification) => notification.is_expired(now),
                None => false,
            };
            assert(self.notifications@.contains_key(id));
            if is_expired {
                self.notifications.remove(&id);
                proof {
                    let after = removed@.push(id);
                    assert forall|other: u32|
                        self.notifications@.contains_key(other) <==> #[trigger] start.notifications.contains_key(
                            other,
                        ) && !after.contains(other) by {
                        if other != id {
                            if removed@.contains(other) {
                                let j = choose|j: int|
                                    0 <= j < removed@.len() && removed@[j] == other;
                                assert(after[j] == other);
                            }
                            if after.contains(other) {
                                let j = choose|j: int| 0 <= j < after.len() && after[j] == other;
                                assert(removed@[j] == other);
                            }
                        } else {
                            assert(after[removed@.len() as int] == id);
                        }
                    }
                }
                removed.push(id);
            } else {
                kept.push(id);
            }
            i += 1;
        }
        proof {
            assert(start.alerts.take(i as int) == start.alerts);
            lemma_retain_contents(start.alerts, expired);
            lemma_sweep_takes_the_expired(start, now);
            assert(self.notifications@ =~= start.notifications.remove_keys(expired));
        }
        self.alerts = kept;
        removed
    }
}

/// A request that replaces nothing is stored under an id that was not in
/// use, and never under zero.
pub proof fn lemma_new_id_is_unused(store: StoreState)
    requires
        store.wf(),
        store.registry.has_free(),
    ensures
        store.id_for(0) != 0,
        !store.registry.used.contains(store.id_for(0)),
        store.registry.allocate().1.used.contains(store.id_for(0)),
{
    lemma_next_free_is_free(store.registry);
}

/// A request that replaces nothing always makes the order longer by one:
/// its id is new, no notification is live under it, and it is put at the
/// end of the order.
pub proof fn lemma_new_notification_extends_order(store: StoreState, candidate: Notification)
    requires
        store.wf(),
        store.registry.has_free(),
    ensures
        !store.notifications.contains_key(store.id_for(0)),
        store.upsert(candidate, 0).alerts == store.alerts.push(store.id_for(0)),
        store.upsert(candidate, 0).alerts.len() == store.alerts.len() + 1,
        store.upsert(candidate, 0).notifications[store.id_for(0)] == (Notification {
            id: store.id_for(0),
            ..candidate
        }),
{
    lemma_new_id_is_unused(store);
}

/// A request that names an id under which nothing is live makes that id
/// live at the end of the order, and marks it as in use: no later request
/// is given it as a new id.
pub proof fn lemma_named_id_is_taken(store: StoreState, candidate: Notification, id: u32)
    requires
        store.wf(),
        id != 0,
        !store.notifications.contains_key(id),
    ensures
        store.upsert(candidate, id).alerts == store.alerts.push(id),
        store.upsert(candidate, id).registry.used.contains(id),
        store.upsert(candidate, id).registry.has_free() ==> store.upsert(candidate, id).id_for(0)
            != id,
{
    let after = store.upsert(candidate, id);
    if after.registry.has_free() {
        lemma_upsert_keeps_wf(store, candidate, id);
        lemma_new_id_is_unused(after);
    }
}

/// A request that replaces a live notification leaves the order as it was,
/// so that the id keeps its place, and puts the candidate in the place of
/// the old notification, whole. Nothing else changes.
pub proof fn lemma_replacement_keeps_place(store: StoreState, candidate: Notification, id: u32)
    requires
        store.wf(),
        id != 0,
        store.notifications.contains_key(id),
    ensures
        store.upsert(candidate, id).alerts == store.alerts,
        store.upsert(candidate, id).notifications[id] == (Notification { id, ..candidate }),
        store.upsert(candidate, id).notifications.dom() == store.notifications.dom(),
        forall|other: u32|
            other != id && store.notifications.contains_key(other) ==> store.upsert(
                candidate,
                id,
            ).notifications[other] == store.notifications[other],
        store.upsert(candidate, id).registry == store.registry,
{
    assert(store.upsert(candidate, id).notifications.dom() =~= store.notifications.dom());
    assert(store.registry.used.insert(id) =~= store.registry.used);
}

/// Storing a candidate keeps the store consistent.
pub proof fn lemma_upsert_keeps_wf(store: StoreState, candidate: Notification, replaces_id: u32)
    requires
        store.wf(),
        replaces_id == 0 ==> store.registry.has_free(),
    ensures
        store.upsert(candidate, replaces_id).wf(),
{
    let id = store.id_for(replaces_id);
    let after = store.upsert(candidate, replaces_id);
    if replaces_id == 0 {
        lemma_new_id_is_unused(store);
        lemma_allocate_keeps_wf(store.registry);
    }
    if !store.notifications.contains_key(id) {
        assert(!store.alerts.contains(id));
        assert forall|i: int, j: int|
            0 <= i < after.alerts.len() && 0 <= j < after.alerts.len() && i != j implies after.alerts[i]
            != after.alerts[j] by {
            if i < store.alerts.len() {
                assert(store.alerts.contains(after.alerts[i]));
            }
            if j < store.alerts.len() {
                assert(store.alerts.contains(after.alerts[j]));
            }
        }
    }
    assert forall|other: u32|
        after.notifications.contains_key(other) <==> after.alerts.contains(other) by {
        if other == id {
            if store.notifications.contains_key(id) {
                assert(store.alerts.contains(id));
            } else {
                assert(after.alerts[store.alerts.len() as int] == id);
            }
        } else {
            if store.alerts.contains(other) {
                let i = choose|i: int| 0 <= i < store.alerts.len() && store.alerts[i] == other;
                assert(after.alerts[i] == other);
            }
            if after.alerts.contains(other) {
                let i = choose|i: int| 0 <= i < after.alerts.len() && after.alerts[i] == other;
                assert(store.alerts[i] == other);
            }
        }
    }
}

/// Taking out a notification keeps the store consistent, takes out that
/// notification alone, and leaves the others in their order.
pub proof fn lemma_remove_takes_one(store: StoreState, id: u32)
    requires
        store.wf(),
    ensures
        store.remove(id).wf(),
        !store.remove(id).notifications.contains_key(id),
        !store.remove(id).alerts.contains(id),
        forall|other: u32|
            other != id ==> (store.remove(id).alerts.contains(other) <==> store.alerts.contains(
                other,
            )),
        !store.notifications.contains_key(id) ==> store.remove(id) == store,
{
    lemma_retain_contents(store.alerts, all_but(id));
    assert forall|other: u32|
        store.remove(id).notifications.contains_key(other) <==> store.remove(id).alerts.contains(
            other,
        ) by {
        assert(retain(store.alerts, all_but(id)).contains(other) <==> store.alerts.contains(other)
            && all_but(id).contains(other));
    }
    assert forall|other: u32| other != id implies (store.remove(id).alerts.contains(other)
        <==> store.alerts.contains(other)) by {
        assert(retain(store.alerts, all_but(id)).contains(other) <==> store.alerts.contains(other)
            && all_but(id).contains(other));
    }
    assert(!store.remove(id).alerts.contains(id)) by {
        assert(retain(store.alerts, all_but(id)).contains(id) <==> store.alerts.contains(id)
            && all_but(id).contains(id));
    }
    if !store.notifications.contains_key(id) {
        assert(!store.alerts.contains(id));
        lemma_retain_all(store.alerts, all_but(id));
        assert(store.notifications.remove(id) =~= store.notifications);
    }
}

/// An expiry sweep at `now` takes out exactly the notifications whose time
/// of expiry lies before `now` and reports exactly their ids, each once. All
/// others stay as they were, in their order.
pub proof fn lemma_sweep_takes_the_expired(store: StoreState, now: i64)
    requires
        store.wf(),
    ensures
        store.sweep(now).wf(),
        store.swept(now).no_duplicates(),
        forall|id: u32|
            #[trigger] store.swept(now).contains(id) <==> store.notifications.contains_key(id)
                && store.notifications[id].expired_at(now),
        forall|id: u32|
            #[trigger] store.sweep(now).notifications.contains_key(id)
                <==> store.notifications.contains_key(id) && !store.notifications[id].expired_at(
                now,
            ),
        forall|id: u32|
            #[trigger] store.sweep(now).notifications.contains_key(id) ==> store.sweep(
                now,
            ).notifications[id] == store.notifications[id],
        forall|id: u32|
            #[trigger] store.sweep(now).alerts.contains(id) <==> store.alerts.contains(id)
                && !store.notifications[id].expired_at(now),
        store.sweep(now).registry == store.registry,
{
    let expired = store.expired(now);
    lemma_retain_contents(store.alerts, expired);
    lemma_retain_contents(store.alerts, expired.complement());
    assert forall|id: u32| #[trigger]
        store.sweep(now).alerts.contains(id) <==> store.alerts.contains(id)
            && !store.notifications[id].expired_at(now) by {
        assert(retain(store.alerts, expired.complement()).contains(id) <==> store.alerts.contains(
            id,
        ) && expired.complement().contains(id));
    }
    assert forall|id: u32| #[trigger]
        store.swept(now).contains(id) <==> store.notifications.contains_key(id)
            && store.notifications[id].expired_at(now) by {
        assert(retain(store.alerts, expired).contains(id) <==> store.alerts.contains(id)
            && expired.contains(id));
    }
}

/// A critical notification has no time of expiry, whatever timeout was asked
/// for, and so no expiry sweep ever takes it out or reports it.
pub proof fn lemma_critical_is_never_swept(
    store: StoreState,
    id: u32,
    expire_timeout: i32,
    created: i64,
    now: i64,
)
    requires
        store.wf(),
        store.notifications.contains_key(id),
        store.notifications[id].urgency == Urgency::Critical,
        match store.notifications[id].expire_time {
            Some(at) => expiry(Urgency::Critical, expire_timeout, created) == Some(at as int),
            None => expiry(Urgency::Critical, expire_timeout, created) is None,
        },
    ensures
        !store.swept(now).contains(id),
        store.sweep(now).notifications.contains_key(id),
        store.sweep(now).notifications[id] == store.notifications[id],
{
    lemma_sweep_takes_the_expired(store, now);
}

} // verus!
