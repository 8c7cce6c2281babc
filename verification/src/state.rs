//! The owner of the notifications: every request, user gesture and timer
//! tick is one message, and handling it changes the store, puts signals in
//! the relay, and says what is to happen to the window.

use crate::clock::now;
use crate::dbus::{DbusMessage, DbusSignal, NotificationClosedReason, NotificationSignaller};
use crate::notification::Notification;
use crate::store::{
    lemma_remove_takes_one, lemma_sweep_takes_the_expired, lemma_upsert_keeps_wf,
    NotificationStore, StoreState,
};
use vstd::prelude::*;

verus! {

/// The width of the window in which notifications are shown.
pub const WIDTH: u32 = 500;

/// The least height that the window is given.
pub const MIN_HEIGHT: u32 = 1;

/// The greatest height that the window is given.
pub const MAX_HEIGHT: u32 = 2000;

/// The height that the window is given for notifications that take up
/// `measured`: the same, but no less than the least and no more than the
/// greatest height.
pub fn container_height(measured: u32) -> (height: u32)
    ensures
        height == if measured < MIN_HEIGHT {
            MIN_HEIGHT
        } else if measured > MAX_HEIGHT {
            MAX_HEIGHT
        } else {
            measured
        },
{
    if measured < MIN_HEIGHT {
        MIN_HEIGHT
    } else if measured > MAX_HEIGHT {
        MAX_HEIGHT
    } else {
        measured
    }
}

/// Something that happened and that the owner of the notifications handles.
#[derive(Debug, Clone, PartialEq, Eq)]
pub enum Message {
    /// The user invoked the action with this key on the notification of this
    /// id.
    ActionInvoked(u32, String),
    /// The notifications on screen now take up this height.
    ContainerResized(u32),
    /// A request of a client.
    Dbus(DbusMessage),
    /// Time has passed.
    Tick,
    /// The user dismissed the notification of this id.
    UserDismissed(u32),
}

/// What is to happen to the window in which notifications are shown.
#[derive(Debug, Clone, Copy, PartialEq, Eq)]
pub enum WindowTask {
    /// Nothing.
    Keep,
    /// The window is to be opened.
    NewLayerShell,
    /// The window is to be closed.
    RemoveWindow,
    /// The window is to take this size.
    SizeChange { width: u32, height: u32 },
}

/// What handling a message asks of the surroundings.
#[derive(Debug, Clone, Copy, PartialEq, Eq)]
pub struct Reaction {
    /// What is to happen to the window
    pub task: WindowTask,
    /// The id under which the notification of a request was stored
    pub id: Option<u32>,
}

/// The signals that tell of the closing of the given notifications, in their
/// order and all for the same reason.
pub open spec fn closures(ids: Seq<u32>, reason: NotificationClosedReason) -> Seq<DbusSignal> {
    Seq::new(ids.len(), |i: int| DbusSignal::NotificationClosed(ids[i], reason))
}

/// What the owner of the notifications holds.
pub struct StateView {
    /// The live notifications
    pub store: StoreState,
    /// The signals that wait in the relay, oldest first
    pub signals: Seq<DbusSignal>,
    /// Whether the window is open
    pub window: bool,
}

impl StateView {
    /// The state is consistent: its store is.
    pub open spec fn wf(self) -> bool {
        self.store.wf()
    }

    /// The message can be handled: a request that replaces nothing needs an
    /// id that is not in use.
    pub open spec fn accepts(self, message: Message) -> bool {
        message matches Message::Dbus(DbusMessage::Notify(_, replaces_id)) ==> replaces_id != 0
            || self.store.registry.has_free()
    }

    /// The state after the expired notifications were taken out at `now`:
    /// for each of them, in the order in which they were shown, the relay
    /// gets the signal that it was closed because it expired.
    pub open spec fn remove_expired(self, now: i64) -> StateView {
        StateView {
            store: self.store.sweep(now),
            signals: self.signals + closures(
                self.store.swept(now),
                NotificationClosedReason::Expired,
            ),
            window: self.window,
        }
    }

    /// The state after the message itself was handled. A request to close a
    /// notification and a dismissal take the notification out, if it is
    /// live, and signal its closing in any case; an invoked action is
    /// signalled; a notification is stored. Nothing else changes anything.
    pub open spec fn apply(self, message: Message) -> StateView {
        match message {
            Message::ActionInvoked(id, key) => StateView {
                signals: self.signals.push(DbusSignal::ActionInvoked(id, key)),
                ..self
            },
            Message::Dbus(DbusMessage::Notify(candidate, replaces_id)) => StateView {
                store: self.store.upsert(candidate, replaces_id),
                ..self
            },
            Message::Dbus(DbusMessage::CloseNotification(id)) => StateView {
                store: self.store.remove(id),
                signals: self.signals.push(
                    DbusSignal::NotificationClosed(
                        id,
                        NotificationClosedReason::ClosedByCloseNotification,
                    ),
                ),
                ..self
            },
            Message::UserDismissed(id) => StateView {
                store: self.store.remove(id),
                signals: self.signals.push(
                    DbusSignal::NotificationClosed(id, NotificationClosedReason::DismissedByUser),
                ),
                ..self
            },
            Message::ContainerResized(_) => self,
            Message::Tick => self,
        }
    }

    /// The id under which the notification of a request is stored.
    pub open spec fn assigned(self, message: Message) -> Option<u32> {
        match message {
            Message::Dbus(DbusMessage::Notify(_, replaces_id)) => Some(
                self.store.id_for(replaces_id),
            ),
            _ => None,
        }
    }

    /// What is to happen to the window once the message was handled. An open
    /// window is closed when no notification is live. Else a new height is
    /// handed on to an open window, and a notification opens the window
    /// where there is none.
    pub open spec fn task(self, message: Message) -> WindowTask {
        if self.store.alerts.len() == 0 && self.window {
            WindowTask::RemoveWindow
        } else {
            match message {
                Message::ContainerResized(height) => if self.window {
                    WindowTask::SizeChange { width: WIDTH, height }
                } else {
                    WindowTask::Keep
                },
                Message::Dbus(DbusMessage::Notify(_, _)) => if self.window {
                    WindowTask::Keep
                } else {
                    WindowTask::NewLayerShell
                },
                _ => WindowTask::Keep,
            }
        }
    }

    /// The state once the window was told what to do: a window that is to be
    /// opened counts as open. One that is to be closed counts as open until
    /// `remove_id` says that it is gone.
    pub open spec fn settle(self, message: Message) -> StateView {
        StateView {
            window: self.window || self.task(message) == WindowTask::NewLayerShell,
            ..self
        }
    }

    /// The state after a message was handled at `now`: first the expired
    /// notifications are taken out, then the message is handled, then the
    /// window is told what to do.
    pub open spec fn update(self, message: Message, now: i64) -> StateView {
        self.remove_expired(now).apply(message).settle(message)
    }

    /// What handling a message at `now` asks of the surroundings.
    pub open spec fn reaction(self, message: Message, now: i64) -> Reaction {
        Reaction {
            task: self.remove_expired(now).apply(message).task(message),
            id: self.remove_expired(now).assigned(message),
        }
    }
}

/// The owner of the notifications.
#[derive(Debug)]
pub struct State {
    store: NotificationStore,
    signaller: NotificationSignaller,
    window: bool,
}

impl View for State {
    type V = StateView;

    closed spec fn view(&self) -> StateView {
        StateView { store: self.store@, signals: self.signaller@, window: self.window }
    }
}

impl State {
    /// A state with no notification, no signal and no window.
    pub fn new() -> (state: Self)
        ensures
            state@ == (StateView {
                store: StoreState::empty(),
                signals: Seq::empty(),
                window: false,
            }),
            state@.wf(),
    {
        State { store: NotificationStore::new(), signaller: NotificationSignaller::new(), window: false }
    }

    /// The store of the live notifications.
    pub fn store(&self) -> (store: &NotificationStore)
        ensures
            store@ == self@.store,
    {
        &self.store
    }

    /// Whether the window counts as open.
    pub fn has_window(&self) -> (open: bool)
        ensures
            open == self@.window,
    {
        self.window
    }

    /// Whether the message can be handled.
    pub fn accepts(&self, message: &Message) -> (ok: bool)
        requires
            self@.wf(),
        ensures
            ok == self@.accepts(*message),
    {
        match message {
            Message::Dbus(DbusMessage::Notify(_, replaces_id)) => *replaces_id != 0
                || self.store.has_free_id(),
            _ => true,
        }
    }

    /// Takes the signals that wait out of the relay, oldest first.
    pub fn take_signals(&mut self) -> (signals: Vec<DbusSignal>)
        ensures
            signals@ == old(self)@.signals,
            final(self)@ == (StateView { signals: Seq::empty(), ..old(self)@ }),
    {
        self.signaller.take_pending()
    }

    /// Notes that the window is gone.
    pub fn remove_id(&mut self)
        ensures
            final(self)@ == (StateView { window: false, ..old(self)@ }),
    {
        self.window = false;
    }

    /// Takes out the notification of the given id, without a signal.
    pub fn remove_notification(&mut self, id: u32) -> (removed: Option<Notification>)
        requires
            old(self)@.wf(),
        ensures
            final(self)@ == (StateView { store: old(self)@.store.remove(id), ..old(self)@ }),
            final(self)@.wf(),
            match removed {
                Some(notification) => old(self)@.store.notifications.contains_key(id)
                    && notification == old(self)@.store.notifications[id],
                None => !old(self)@.store.notifications.contains_key(id),
            },
    {
        self.store.remove(id)
    }

    /// Takes out the notifications that have expired at `now`, and signals
    /// the closing of each.
    pub fn remove_expired(&mut self, now: i64)
        requires
            old(self)@.wf(),
        ensures
            final(self)@ == old(self)@.remove_expired(now),
            final(self)@.wf(),
    {
        let ghost before = self.signaller@;
        let expired = self.store.sweep_expired(now);
        let mut i: usize = 0;
        assert(before + closures(expired@.take(0), NotificationClosedReason::Expired) == before);
        while i < expired.len()
            invariant
                i <= expired.len(),
                self.store@ == old(self)@.store.sweep(now),
                self.window == old(self).window,
                self.signaller@ == before + closures(
                    expired@.take(i as int),
                    NotificationClosedReason::Expired,
                ),
            decreases expired.len() - i,
        {
            self.signaller.close_notification(expired[i], NotificationClosedReason::Expired);
            assert(closures(expired@.take(i + 1), NotificationClosedReason::Expired) == closures(
                expired@.take(i as int),
                NotificationClosedReason::Expired,
            ).push(DbusSignal::NotificationClosed(expired@[i as int], NotificationClosedReason::Expired)));
            i += 1;
        }
        assert(expired@.take(i as int) == expired@);
    }

    /// Handles a message at the time `now`.
    pub fn update_at(&mut self, message: Message, now: i64) -> (reaction: Reaction)
        requires
            old(self)@.wf(),
            old(self)@.accepts(message),
        ensures
            final(self)@ == old(self)@.update(message, now),
            reaction == old(self)@.reaction(message, now),
            final(self)@.wf(),
    {
        self.remove_expired(now);
        let ghost swept = self@;
        let mut id: Option<u32> = None;
        let mut resized: Option<u32> = None;
        let mut notified = false;
        match message {
            Message::ContainerResized(height) => {
                resized = Some(height);
            },
            Message::ActionInvoked(of, key) => {
                self.signaller.action_invoked(of, key);
            },
            Message::Dbus(DbusMessage::Notify(candidate, replaces_id)) => {
                id = Some(self.store.upsert(candidate, replaces_id));
                notified = true;
            },
            Message::Dbus(DbusMessage::CloseNotification(of)) => {
                self.store.remove(of);
                self.signaller.close_notification(
                    of,
                    NotificationClosedReason::ClosedByCloseNotification,
                );
            },
            Message::Tick => {},
            Message::UserDismissed(of) => {
                self.store.remove(of);
                self.signaller.close_notification(of, NotificationClosedReason::DismissedByUser);
            },
        }
        assert(self@ == swept.apply(message));
        let task = if self.store.len() == 0 && self.window {
            WindowTask::RemoveWindow
        } else if notified {
            if self.window {
                WindowTask::Keep
            } else {
                self.window = true;
                WindowTask::NewLayerShell
            }
        } else {
            match resized {
                Some(height) => if self.window {
                    WindowTask::SizeChange { width: WIDTH, height }
                } else {
                    WindowTask::Keep
                },
                None => WindowTask::Keep,
            }
        };
        Reaction { task, id }
    }

    /// Handles a message at the time that the clock shows.
    pub fn update(&mut self, message: Message) -> (reaction: Reaction)
        requires
            old(self)@.wf(),
            old(self)@.accepts(message),
        ensures
            exists|now: i64|
                0 <= now && final(self)@ == old(self)@.update(message, now) && reaction == old(
                    self,
                )@.reaction(message, now),
            final(self)@.wf(),
    {
        let time = now();
        self.update_at(message, time)
    }
}

/// Handling a message keeps the state consistent.
pub proof fn lemma_update_keeps_wf(state: StateView, message: Message, now: i64)
    requires
        state.wf(),
        state.accepts(message),
    ensures
        state.update(message, now).wf(),
{
    lemma_sweep_takes_the_expired(state.store, now);
    let swept = state.remove_expired(now);
    match message {
        Message::Dbus(DbusMessage::Notify(candidate, replaces_id)) => {
            lemma_upsert_keeps_wf(swept.store, candidate, replaces_id);
        },
        Message::Dbus(DbusMessage::CloseNotification(id)) => {
            lemma_remove_takes_one(swept.store, id);
        },
        Message::UserDismissed(id) => {
            lemma_remove_takes_one(swept.store, id);
        },
        _ => {},
    }
}

/// Signals leave the relay in the order in which they were put in: handling
/// a message takes no signal out and changes none, it only puts signals
/// behind those that wait.
pub proof fn lemma_update_appends_signals(state: StateView, message: Message, now: i64)
    ensures
        state.signals.is_prefix_of(state.update(message, now).signals),
{
    let swept = state.remove_expired(now);
    assert(state.signals.is_prefix_of(swept.signals));
    assert(swept.signals.is_prefix_of(swept.apply(message).signals));
}

/// A request to close a notification is always answered with the signal
/// that the notification was closed on request: it is the last signal in
/// the relay afterwards, whether a notification of that id was live or not.
/// Where none was live, the store is as an expiry sweep alone leaves it.
pub proof fn lemma_close_always_signals(state: StateView, id: u32, now: i64)
    requires
        state.wf(),
    ensures
        ({
            let after = state.update(Message::Dbus(DbusMessage::CloseNotification(id)), now);
            &&& after.wf()
            &&& after.signals == state.remove_expired(now).signals.push(
                DbusSignal::NotificationClosed(
                    id,
                    NotificationClosedReason::ClosedByCloseNotification,
                ),
            )
            &&& !after.store.notifications.contains_key(id)
            &&& !state.store.notifications.contains_key(id) ==> after.store == state.store.sweep(
                now,
            )
        }),
{
    lemma_sweep_takes_the_expired(state.store, now);
    lemma_remove_takes_one(state.store.sweep(now), id);
}

/// Each notification that an expiry sweep takes out is signalled as
/// expired, once, and in the order in which the notifications were shown.
pub proof fn lemma_expired_are_signalled(state: StateView, now: i64)
    requires
        state.wf(),
    ensures
        state.remove_expired(now).signals == state.signals + closures(
            state.store.swept(now),
            NotificationClosedReason::Expired,
        ),
        closures(state.store.swept(now), NotificationClosedReason::Expired).len()
            == state.store.swept(now).len(),
        forall|i: int|
            0 <= i < state.store.swept(now).len() ==> #[trigger] closures(
                state.store.swept(now),
                NotificationClosedReason::Expired,
            )[i] == DbusSignal::NotificationClosed(
                state.store.swept(now)[i],
                NotificationClosedReason::Expired,
            ),
        state.store.swept(now).no_duplicates(),
{
    lemma_sweep_takes_the_expired(state.store, now);
}

/// After a message was handled at `now`, no notification is live that had
/// expired at `now`, but for one: a notification that the message itself
/// stored with a time of expiry already past stays until the next message.
pub proof fn lemma_update_leaves_no_expired(
    state: StateView,
    message: Message,
    now: i64,
    id: u32,
)
    requires
        state.wf(),
        state.accepts(message),
        state.update(message, now).store.notifications.contains_key(id),
        state.update(message, now).store.notifications[id].expired_at(now),
    ensures
        message matches Message::Dbus(DbusMessage::Notify(candidate, replaces_id)),
        state.reaction(message, now).id == Some(id),
        message matches Message::Dbus(DbusMessage::Notify(candidate, _))
            && candidate.expired_at(now),
{
    lemma_sweep_takes_the_expired(state.store, now);
    let swept = state.remove_expired(now);
    match message {
        Message::Dbus(DbusMessage::CloseNotification(of)) => {
            lemma_remove_takes_one(swept.store, of);
        },
        Message::UserDismissed(of) => {
            lemma_remove_takes_one(swept.store, of);
        },
        _ => {},
    }
}

} // verus!
