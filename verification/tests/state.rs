use baelyks_notification_server::dbus::{DbusMessage, DbusSignal, NotificationClosedReason};
use baelyks_notification_server::notification::{Notification, Urgency};
use baelyks_notification_server::state::{
    container_height, Message, Reaction, State, WindowTask, WIDTH,
};

fn candidate(summary: &str, expire_time: Option<i64>) -> Notification {
    Notification {
        id: 0,
        icon: "icon".into(),
        name: "app".into(),
        summary: summary.into(),
        body: None,
        time: 1000,
        expire_time,
        actions: None,
        urgency: Urgency::Normal,
    }
}

fn notify(summary: &str, expire_time: Option<i64>, replaces_id: u32) -> Message {
    Message::Dbus(DbusMessage::Notify(candidate(summary, expire_time), replaces_id))
}

const KEEP: Reaction = Reaction { task: WindowTask::Keep, id: None };

#[test]
fn a_new_state_holds_nothing() {
    let mut state = State::new();
    assert!(state.store().is_empty());
    assert!(!state.has_window());
    assert_eq!(state.take_signals(), vec![]);
}

#[test]
fn the_first_notification_opens_the_window() {
    let mut state = State::new();
    assert_eq!(
        state.update_at(notify("a", None, 0), 1000),
        Reaction { task: WindowTask::NewLayerShell, id: Some(1) }
    );
    assert!(state.has_window());
    assert_eq!(
        state.update_at(notify("b", None, 0), 1000),
        Reaction { task: WindowTask::Keep, id: Some(2) }
    );
    assert_eq!(state.store().alerts(), &vec![1, 2]);
    assert_eq!(state.take_signals(), vec![]);
}

#[test]
fn a_replacement_is_answered_with_the_same_id() {
    let mut state = State::new();
    state.update_at(notify("a", None, 0), 1000);
    state.update_at(notify("b", None, 0), 1000);
    assert_eq!(
        state.update_at(notify("A", None, 1), 1000),
        Reaction { task: WindowTask::Keep, id: Some(1) }
    );
    assert_eq!(state.store().alerts(), &vec![1, 2]);
    assert_eq!(state.store().get(1).unwrap().summary, "A");
}

#[test]
fn closing_a_notification_is_signalled() {
    let mut state = State::new();
    state.update_at(notify("a", None, 0), 1000);
    state.update_at(notify("b", None, 0), 1000);
    assert_eq!(state.update_at(Message::Dbus(DbusMessage::CloseNotification(1)), 1000), KEEP);
    assert_eq!(state.store().alerts(), &vec![2]);
    assert_eq!(
        state.take_signals(),
        vec![DbusSignal::NotificationClosed(1, NotificationClosedReason::ClosedByCloseNotification)]
    );
}

#[test]
fn closing_an_id_that_never_was_is_signalled_all_the_same() {
    let mut state = State::new();
    assert_eq!(state.update_at(Message::Dbus(DbusMessage::CloseNotification(77)), 1000), KEEP);
    assert!(state.store().is_empty());
    assert_eq!(
        state.take_signals(),
        vec![DbusSignal::NotificationClosed(77, NotificationClosedReason::ClosedByCloseNotification)]
    );
    state.update_at(notify("a", None, 0), 1000);
    assert_eq!(state.update_at(Message::Dbus(DbusMessage::CloseNotification(77)), 1000), KEEP);
    assert_eq!(state.store().alerts(), &vec![1]);
    assert_eq!(
        state.take_signals(),
        vec![DbusSignal::NotificationClosed(77, NotificationClosedReason::ClosedByCloseNotification)]
    );
}

#[test]
fn a_dismissal_is_signalled() {
    let mut state = State::new();
    state.update_at(notify("a", None, 0), 1000);
    assert_eq!(
        state.update_at(Message::UserDismissed(1), 1000),
        Reaction { task: WindowTask::RemoveWindow, id: None }
    );
    assert!(state.store().is_empty());
    assert_eq!(
        state.take_signals(),
        vec![DbusSignal::NotificationClosed(1, NotificationClosedReason::DismissedByUser)]
    );
}

#[test]
fn an_action_is_signalled_and_changes_nothing_else() {
    let mut state = State::new();
    state.update_at(notify("a", None, 0), 1000);
    assert_eq!(state.update_at(Message::ActionInvoked(1, "default".to_string()), 1000), KEEP);
    assert_eq!(state.store().alerts(), &vec![1]);
    assert_eq!(state.take_signals(), vec![DbusSignal::ActionInvoked(1, "default".to_string())]);
}

#[test]
fn expired_notifications_are_taken_out_before_the_message_is_handled() {
    let mut state = State::new();
    state.update_at(notify("a", Some(2000), 0), 1000);
    state.update_at(notify("b", None, 0), 1000);
    state.update_at(notify("c", Some(1500), 0), 1000);
    assert_eq!(state.update_at(Message::Tick, 1400), KEEP);
    assert_eq!(state.take_signals(), vec![]);
    assert_eq!(state.update_at(Message::ActionInvoked(2, "k".to_string()), 3000), KEEP);
    assert_eq!(state.store().alerts(), &vec![2]);
    assert_eq!(
        state.take_signals(),
        vec![
            DbusSignal::NotificationClosed(1, NotificationClosedReason::Expired),
            DbusSignal::NotificationClosed(3, NotificationClosedReason::Expired),
            DbusSignal::ActionInvoked(2, "k".to_string()),
        ]
    );
}

#[test]
fn closing_an_expired_notification_signals_both() {
    let mut state = State::new();
    state.update_at(notify("a", Some(2000), 0), 1000);
    state.update_at(Message::Dbus(DbusMessage::CloseNotification(1)), 3000);
    assert_eq!(
        state.take_signals(),
        vec![
            DbusSignal::NotificationClosed(1, NotificationClosedReason::Expired),
            DbusSignal::NotificationClosed(1, NotificationClosedReason::ClosedByCloseNotification),
        ]
    );
}

#[test]
fn the_window_is_closed_when_nothing_is_left() {
    let mut state = State::new();
    state.update_at(notify("a", Some(2000), 0), 1000);
    assert_eq!(state.update_at(Message::Tick, 1500), KEEP);
    let closing = Reaction { task: WindowTask::RemoveWindow, id: None };
    assert_eq!(state.update_at(Message::Tick, 2500), closing);
    assert!(state.has_window());
    assert_eq!(state.update_at(Message::ContainerResized(40), 2600), closing);
    state.remove_id();
    assert!(!state.has_window());
    assert_eq!(state.update_at(Message::Tick, 2700), KEEP);
    assert_eq!(
        state.update_at(notify("b", None, 0), 2800),
        Reaction { task: WindowTask::NewLayerShell, id: Some(2) }
    );
}

#[test]
fn a_new_height_is_handed_on_to_the_window() {
    let mut state = State::new();
    assert_eq!(state.update_at(Message::ContainerResized(120), 1000), KEEP);
    state.update_at(notify("a", None, 0), 1000);
    assert_eq!(WIDTH, 500);
    assert_eq!(
        state.update_at(Message::ContainerResized(120), 1000),
        Reaction { task: WindowTask::SizeChange { width: 500, height: 120 }, id: None }
    );
}

#[test]
fn a_notification_arriving_while_the_window_closes_is_kept() {
    let mut state = State::new();
    state.update_at(notify("a", None, 0), 1000);
    state.update_at(Message::UserDismissed(1), 1000);
    assert_eq!(
        state.update_at(notify("b", None, 0), 1000),
        Reaction { task: WindowTask::Keep, id: Some(2) }
    );
    assert_eq!(state.store().alerts(), &vec![2]);
}

#[test]
fn every_message_is_accepted_while_ids_are_left() {
    let state = State::new();
    assert!(state.accepts(&notify("a", None, 0)));
    assert!(state.accepts(&notify("a", None, 3)));
    assert!(state.accepts(&Message::Tick));
}

#[test]
fn removal_without_a_signal() {
    let mut state = State::new();
    state.update_at(notify("a", None, 0), 1000);
    assert_eq!(state.remove_notification(1).unwrap().summary, "a");
    assert_eq!(state.remove_notification(1), None);
    assert_eq!(state.take_signals(), vec![]);
}

#[test]
fn expiry_alone() {
    let mut state = State::new();
    state.update_at(notify("a", Some(10), 0), 0);
    state.update_at(notify("b", Some(20), 0), 0);
    state.remove_expired(15);
    assert_eq!(state.store().alerts(), &vec![2]);
    assert_eq!(
        state.take_signals(),
        vec![DbusSignal::NotificationClosed(1, NotificationClosedReason::Expired)]
    );
}

#[test]
fn handling_by_the_clock() {
    let mut state = State::new();
    state.update_at(notify("old", Some(1), 0), 0);
    state.update_at(notify("far", Some(i64::MAX), 0), 0);
    assert_eq!(state.update(Message::Tick), KEEP);
    assert_eq!(state.store().alerts(), &vec![2]);
    assert_eq!(
        state.take_signals(),
        vec![DbusSignal::NotificationClosed(1, NotificationClosedReason::Expired)]
    );
}

#[test]
fn the_height_of_the_window_is_kept_within_bounds() {
    assert_eq!(container_height(0), 1);
    assert_eq!(container_height(1), 1);
    assert_eq!(container_height(640), 640);
    assert_eq!(container_height(2000), 2000);
    assert_eq!(container_height(2001), 2000);
    assert_eq!(container_height(u32::MAX), 2000);
}

#[test]
fn a_notification_that_arrives_expired_stays_until_the_next_message() {
    let mut state = State::new();
    assert_eq!(
        state.update_at(notify("late", Some(500), 0), 1000),
        Reaction { task: WindowTask::NewLayerShell, id: Some(1) }
    );
    assert_eq!(state.store().alerts(), &vec![1]);
    assert_eq!(state.take_signals(), vec![]);
    state.update_at(Message::Tick, 1000);
    assert!(state.store().is_empty());
    assert_eq!(
        state.take_signals(),
        vec![DbusSignal::NotificationClosed(1, NotificationClosedReason::Expired)]
    );
}
