use baelyks_notification_server::dbus::{
    DbusMessage, DbusSignal, Hints, IconSource, ImageData, NotificationClosedReason,
    NotificationInterface, NotificationSignaller, PixelLayout, Request,
};
use baelyks_notification_server::markup::{BodyElement, RichTextSpan, RichTextSpanStyle};
use baelyks_notification_server::notification::Urgency;

#[test]
fn reason_codes() {
    assert_eq!(u32::from(NotificationClosedReason::Expired), 1);
    assert_eq!(u32::from(NotificationClosedReason::DismissedByUser), 2);
    assert_eq!(u32::from(NotificationClosedReason::ClosedByCloseNotification), 3);
    assert_eq!(u32::from(NotificationClosedReason::Undefined), 4);
    let code: u32 = NotificationClosedReason::Expired.into();
    assert_eq!(code, 1);
}

#[test]
fn the_relay_keeps_the_order_of_its_signals() {
    let mut relay = NotificationSignaller::new();
    assert!(relay.is_empty());
    relay.action_invoked(4, "open".to_string());
    relay.close_notification(4, NotificationClosedReason::DismissedByUser);
    relay.close_notification(2, NotificationClosedReason::Expired);
    assert!(!relay.is_empty());
    assert_eq!(
        relay.take_pending(),
        vec![
            DbusSignal::ActionInvoked(4, "open".to_string()),
            DbusSignal::NotificationClosed(4, NotificationClosedReason::DismissedByUser),
            DbusSignal::NotificationClosed(2, NotificationClosedReason::Expired),
        ]
    );
    assert!(relay.is_empty());
    assert_eq!(relay.take_pending(), vec![]);
    relay.close_notification(9, NotificationClosedReason::Undefined);
    assert_eq!(
        relay.take_pending(),
        vec![DbusSignal::NotificationClosed(9, NotificationClosedReason::Undefined)]
    );
}

#[test]
fn capabilities() {
    let interface = NotificationInterface::new("default".to_string());
    assert_eq!(
        interface.get_capabilities(),
        vec!["actions", "body", "body-markup", "body-images", "persistence"]
    );
}

#[test]
fn server_information() {
    let interface = NotificationInterface::new("default".to_string());
    assert_eq!(
        interface.get_server_information(),
        (
            "Baelyk's Notification Server".to_string(),
            "Baelyk".to_string(),
            "0.1.0".to_string(),
            "1.2".to_string()
        )
    );
}

fn request() -> Request {
    Request {
        app_name: "app".to_string(),
        replaces_id: 0,
        summary: "summary".to_string(),
        body: String::new(),
        actions: vec![],
        urgency: None,
        expire_timeout: -1,
        found_name: None,
        found_icon: None,
    }
}

#[test]
fn a_plain_request() {
    let interface = NotificationInterface::new("default.svg".to_string());
    match interface.notify_at(request(), 1_000_000) {
        DbusMessage::Notify(candidate, replaces_id) => {
            assert_eq!(replaces_id, 0);
            assert_eq!(candidate.id, 0);
            assert_eq!(candidate.name, "app");
            assert_eq!(candidate.icon, "default.svg");
            assert_eq!(candidate.summary, "summary");
            assert_eq!(candidate.body, None);
            assert_eq!(candidate.actions, None);
            assert_eq!(candidate.time, 1_000_000);
            assert_eq!(candidate.expire_time, Some(1_060_000));
            assert_eq!(candidate.urgency, Urgency::Normal);
        }
        other => panic!("unexpected message {:?}", other),
    }
}

#[test]
fn a_full_request() {
    let interface = NotificationInterface::new("default.svg".to_string());
    let full = Request {
        app_name: "app".to_string(),
        replaces_id: 12,
        summary: "summary".to_string(),
        body: "<b>bold</b> text".to_string(),
        actions: vec!["default".to_string(), "Open".to_string(), "odd".to_string()],
        urgency: Some(0),
        expire_timeout: 2500,
        found_name: Some("Application".to_string()),
        found_icon: Some("/tmp/abc.png".to_string()),
    };
    match interface.notify_at(full, 1_000_000) {
        DbusMessage::Notify(candidate, replaces_id) => {
            assert_eq!(replaces_id, 12);
            assert_eq!(candidate.id, 12);
            assert_eq!(candidate.name, "Application");
            assert_eq!(candidate.icon, "/tmp/abc.png");
            assert_eq!(
                candidate.body,
                Some(vec![BodyElement::RichText(vec![
                    RichTextSpan {
                        style: RichTextSpanStyle { bold: true, italic: false, underline: false },
                        text: "bold".to_string(),
                    },
                    RichTextSpan {
                        style: RichTextSpanStyle { bold: false, italic: false, underline: false },
                        text: " text".to_string(),
                    },
                ])])
            );
            assert_eq!(
                candidate.actions,
                Some(vec![("default".to_string(), "Open".to_string())])
            );
            assert_eq!(candidate.expire_time, Some(1_002_500));
            assert_eq!(candidate.urgency, Urgency::Low);
        }
        other => panic!("unexpected message {:?}", other),
    }
}

#[test]
fn a_critical_request_never_expires() {
    let interface = NotificationInterface::new("default.svg".to_string());
    for timeout in [-1, 0, 1, 60_000, i32::MAX] {
        let critical = Request { urgency: Some(2), expire_timeout: timeout, ..request() };
        match interface.notify_at(critical, 1_000_000) {
            DbusMessage::Notify(candidate, _) => {
                assert_eq!(candidate.urgency, Urgency::Critical);
                assert_eq!(candidate.expire_time, None);
            }
            other => panic!("unexpected message {:?}", other),
        }
    }
}

#[test]
fn an_unexpected_urgency_is_normal_and_not_rejected() {
    let interface = NotificationInterface::new("default.svg".to_string());
    let odd = Request { urgency: Some(77), expire_timeout: 0, ..request() };
    match interface.notify_at(odd, 5) {
        DbusMessage::Notify(candidate, _) => {
            assert_eq!(candidate.urgency, Urgency::Normal);
            assert_eq!(candidate.expire_time, None);
        }
        other => panic!("unexpected message {:?}", other),
    }
}

#[test]
fn a_request_made_now_is_dated_by_the_clock() {
    let interface = NotificationInterface::new("default.svg".to_string());
    let timed = Request { expire_timeout: 1500, ..request() };
    match interface.notify(timed) {
        DbusMessage::Notify(candidate, replaces_id) => {
            assert_eq!(replaces_id, 0);
            // Any clock of this century shows a time after the year 2020.
            assert!(candidate.time > 1_577_836_800_000);
            assert_eq!(candidate.expire_time, Some(candidate.time + 1500));
        }
        other => panic!("unexpected message {:?}", other),
    }
}

#[test]
fn a_request_to_close() {
    let interface = NotificationInterface::new("default.svg".to_string());
    assert_eq!(interface.close_notification(5), DbusMessage::CloseNotification(5));
}

fn no_hints() -> Hints {
    Hints {
        action_icons: None,
        category: None,
        desktop_entry: None,
        image_data: None,
        image_data_deprecated: None,
        image_path: None,
        image_path_deprecated: None,
        icon_data: None,
        resident: None,
        sound_file: None,
        sound_name: None,
        suppress_sound: None,
        x: None,
        y: None,
        urgency: None,
    }
}

fn image(width: i32) -> ImageData {
    ImageData {
        width,
        height: 1,
        rowstride: 4 * width,
        has_alpha: true,
        bits_per_sample: 8,
        channels: 4,
        data: vec![0; 4 * width as usize],
    }
}

#[test]
fn icon_sources_without_hints() {
    let hints = no_hints();
    assert_eq!(hints.next_icon_source(None), Some(IconSource::AppIcon));
    assert_eq!(hints.next_icon_source(Some(IconSource::ImageData)), Some(IconSource::AppIcon));
    assert_eq!(hints.next_icon_source(Some(IconSource::ImagePath)), Some(IconSource::AppIcon));
    assert_eq!(hints.next_icon_source(Some(IconSource::AppIcon)), Some(IconSource::Default));
    assert_eq!(hints.next_icon_source(Some(IconSource::IconData)), Some(IconSource::Default));
}

#[test]
fn no_icon_source_is_left_after_the_icon_of_the_server() {
    assert_eq!(no_hints().next_icon_source(Some(IconSource::Default)), None);
}

#[test]
fn icon_sources_in_their_order() {
    let hints = Hints {
        image_data: Some(image(1)),
        image_path: Some("/a/b.png".to_string()),
        icon_data: Some(image(2)),
        ..no_hints()
    };
    assert_eq!(hints.next_icon_source(None), Some(IconSource::ImageData));
    assert_eq!(hints.next_icon_source(Some(IconSource::ImageData)), Some(IconSource::ImagePath));
    assert_eq!(hints.next_icon_source(Some(IconSource::ImagePath)), Some(IconSource::AppIcon));
    assert_eq!(hints.next_icon_source(Some(IconSource::AppIcon)), Some(IconSource::IconData));
    assert_eq!(hints.next_icon_source(Some(IconSource::IconData)), Some(IconSource::Default));
}

#[test]
fn hints_under_their_older_names() {
    let hints = Hints {
        image_data_deprecated: Some(image(3)),
        image_path_deprecated: Some("/old.png".to_string()),
        ..no_hints()
    };
    assert_eq!(hints.image_data(), Some(&image(3)));
    assert_eq!(hints.image_path(), Some(&"/old.png".to_string()));
    assert_eq!(hints.next_icon_source(None), Some(IconSource::ImageData));
    assert_eq!(hints.next_icon_source(Some(IconSource::ImageData)), Some(IconSource::ImagePath));
    let both = Hints {
        image_data: Some(image(1)),
        image_path: Some("/new.png".to_string()),
        ..hints
    };
    assert_eq!(both.image_data(), Some(&image(1)));
    assert_eq!(both.image_path(), Some(&"/new.png".to_string()));
    assert_eq!(no_hints().image_data(), None);
    assert_eq!(no_hints().image_path(), None);
}

#[test]
fn pixel_layouts() {
    assert_eq!(image(1).pixel_layout(), PixelLayout::Rgba);
    let opaque = ImageData {
        width: 1,
        height: 1,
        rowstride: 3,
        has_alpha: false,
        bits_per_sample: 8,
        channels: 3,
        data: vec![0; 3],
    };
    assert_eq!(opaque.pixel_layout(), PixelLayout::Rgb);
    // The layout goes by the alpha flag alone, whatever count of channels is given.
    let odd = ImageData { channels: 3, ..image(2) };
    assert_eq!(odd.pixel_layout(), PixelLayout::Rgba);
}
