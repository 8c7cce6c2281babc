//! The protocol side of the server: the signals it sends to its clients and
//! the relay that carries them out of the core.

use crate::clock::now;
use crate::markup::layout::document;
use crate::markup::{blocks_view, markup};
use crate::notification::{
    expire_time, expiry, expiry_is_representable, pair_actions, paired, urgency_from_hint,
    urgency_of, Notification,
};
use vstd::prelude::*;

verus! {

/// Why a notification was closed.
#[derive(Debug, Clone, Copy, PartialEq, Eq, Structural)]
pub enum NotificationClosedReason {
    Expired,
    DismissedByUser,
    ClosedByCloseNotification,
    Undefined,
}

impl NotificationClosedReason {
    /// The reason's number in the `NotificationClosed` signal.
    pub open spec fn code(self) -> u32 {
        match self {
            NotificationClosedReason::Expired => 1,
            NotificationClosedReason::DismissedByUser => 2,
            NotificationClosedReason::ClosedByCloseNotification => 3,
            NotificationClosedReason::Undefined => 4,
        }
    }
}

impl From<NotificationClosedReason> for u32 {
    fn from(reason: NotificationClosedReason) -> (code: u32) {
        match reason {
            NotificationClosedReason::Expired => 1,
            NotificationClosedReason::DismissedByUser => 2,
            NotificationClosedReason::ClosedByCloseNotification => 3,
            NotificationClosedReason::Undefined => 4,
        }
    }
}

impl vstd::std_specs::convert::FromSpecImpl<NotificationClosedReason> for u32 {
    open spec fn obeys_from_spec() -> bool {
        true
    }

    open spec fn from_spec(reason: NotificationClosedReason) -> u32 {
        reason.code()
    }
}

/// A signal for the clients of the server.
#[derive(Debug, Clone, PartialEq, Eq)]
pub enum DbusSignal {
    /// The notification with this id was closed, for this reason.
    NotificationClosed(u32, NotificationClosedReason),
    /// The action with this key was invoked on the notification with this id.
    ActionInvoked(u32, String),
}

/// The relay for signals on their way out of the core: signals are handed
/// on in the order in which they were put in.
#[derive(Debug, Clone)]
pub struct NotificationSignaller {
    pending: Vec<DbusSignal>,
}

impl View for NotificationSignaller {
    type V = Seq<DbusSignal>;

    /// The signals that wait to be sent, oldest first.
    closed spec fn view(&self) -> Seq<DbusSignal> {
        self.pending@
    }
}

impl NotificationSignaller {
    /// A relay in which no signal waits.
    pub fn new() -> (relay: Self)
        ensures
            relay@ == Seq::<DbusSignal>::empty(),
    {
        NotificationSignaller { pending: Vec::new() }
    }

    /// Puts in the signal that a notification was closed.
    pub fn close_notification(&mut self, id: u32, reason: NotificationClosedReason)
        ensures
            final(self)@ == old(self)@.push(DbusSignal::NotificationClosed(id, reason)),
    {
        self.pending.push(DbusSignal::NotificationClosed(id, reason));
    }

    /// Puts in the signal that an action of a notification was invoked.
    pub fn action_invoked(&mut self, id: u32, key: String)
        ensures
            final(self)@ == old(self)@.push(DbusSignal::ActionInvoked(id, key)),
    {
        self.pending.push(DbusSignal::ActionInvoked(id, key));
    }

    /// Whether no signal waits.
    pub fn is_empty(&self) -> (empty: bool)
        ensures
            empty == (self@.len() == 0),
    {
        self.pending.len() == 0
    }

    /// Takes out the signals that wait, oldest first, and leaves none.
    pub fn take_pending(&mut self) -> (signals: Vec<DbusSignal>)
        ensures
            signals@ == old(self)@,
            final(self)@ == Seq::<DbusSignal>::empty(),
    {
        let mut signals: Vec<DbusSignal> = Vec::new();
        std::mem::swap(&mut self.pending, &mut signals);
        signals
    }
}

/// What the protocol side asks of the owner of the notifications.
#[derive(Debug, Clone, PartialEq, Eq)]
pub enum DbusMessage {
    /// A client sends a notification: the candidate, and the id of the
    /// notification that it replaces, or zero where it replaces none.
    Notify(Notification, u32),
    /// A client asks to close the notification of this id.
    CloseNotification(u32),
}

/// How the bytes of an image are laid out: three channels to a pixel, or
/// four with the alpha channel.
#[derive(Debug, Clone, Copy, PartialEq, Eq)]
pub enum PixelLayout {
    Rgb,
    Rgba,
}

/// The raw pixels of an image, as a client sends them.
#[derive(Debug, Clone, PartialEq, Eq)]
pub struct ImageData {
    pub width: i32,
    pub height: i32,
    /// The distance in bytes between two rows
    pub rowstride: i32,
    pub has_alpha: bool,
    /// The number of bits in one sample
    pub bits_per_sample: i32,
    /// The number of channels that the client says a pixel has
    pub channels: i32,
    pub data: Vec<u8>,
}

impl ImageData {
    /// How the bytes are read: with an alpha channel where the client says
    /// that the image has one, whatever count of channels it gives.
    pub fn pixel_layout(&self) -> (layout: PixelLayout)
        ensures
            layout == if self.has_alpha {
                PixelLayout::Rgba
            } else {
                PixelLayout::Rgb
            },
    {
        if self.has_alpha {
            PixelLayout::Rgba
        } else {
            PixelLayout::Rgb
        }
    }
}

/// Where the icon of a notification may come from, in the order in which
/// the sources are asked.
#[derive(Debug, Clone, Copy, PartialEq, Eq)]
pub enum IconSource {
    /// The raw image among the hints
    ImageData,
    /// The path of an image among the hints
    ImagePath,
    /// The icon that the request names, looked up as a path or in the theme
    AppIcon,
    /// The raw icon among the hints
    IconData,
    /// The icon of the server
    Default,
}

impl IconSource {
    /// The place of the source in the order: a source with a lower number is
    /// asked first.
    pub open spec fn rank(self) -> int {
        match self {
            IconSource::ImageData => 0,
            IconSource::ImagePath => 1,
            IconSource::AppIcon => 2,
            IconSource::IconData => 3,
            IconSource::Default => 4,
        }
    }
}

/// The hints of a request, as far as the server reads them.
#[derive(Debug, Clone, PartialEq, Eq)]
pub struct Hints {
    pub action_icons: Option<bool>,
    pub category: Option<String>,
    pub desktop_entry: Option<String>,
    pub image_data: Option<ImageData>,
    /// The raw image under its older name
    pub image_data_deprecated: Option<ImageData>,
    pub image_path: Option<String>,
    /// The path of an image under its older name
    pub image_path_deprecated: Option<String>,
    pub icon_data: Option<ImageData>,
    pub resident: Option<bool>,
    pub sound_file: Option<String>,
    pub sound_name: Option<String>,
    pub suppress_sound: Option<bool>,
    pub x: Option<i32>,
    pub y: Option<i32>,
    pub urgency: Option<u8>,
}

impl Hints {
    /// The raw image: the hint of the current name, and where it is missing
    /// the hint of the older name.
    pub open spec fn raw_image(self) -> Option<ImageData> {
        if self.image_data is Some {
            self.image_data
        } else {
            self.image_data_deprecated
        }
    }

    /// The path of an image: the hint of the current name, and where it is
    /// missing the hint of the older name.
    pub open spec fn path_of_image(self) -> Option<String> {
        if self.image_path is Some {
            self.image_path
        } else {
            self.image_path_deprecated
        }
    }

    /// The source can be asked: a hint is there for it. The icon that the
    /// request names and the icon of the server can always be asked.
    pub open spec fn offers(self, source: IconSource) -> bool {
        match source {
            IconSource::ImageData => self.raw_image() is Some,
            IconSource::ImagePath => self.path_of_image() is Some,
            IconSource::AppIcon => true,
            IconSource::IconData => self.icon_data is Some,
            IconSource::Default => true,
        }
    }

    /// The raw image among the hints, under either of its names.
    pub fn image_data(&self) -> (image: Option<&ImageData>)
        ensures
            match image {
                Some(image) => self.raw_image() == Some(*image),
                None => self.raw_image() is None,
            },
    {
        match &self.image_data {
            Some(image) => Some(image),
            None => match &self.image_data_deprecated {
                Some(image) => Some(image),
                None => None,
            },
        }
    }

    /// The path of an image among the hints, under either of its names.
    pub fn image_path(&self) -> (path: Option<&String>)
        ensures
            match path {
                Some(path) => self.path_of_image() == Some(*path),
                None => self.path_of_image() is None,
            },
    {
        match &self.image_path {
            Some(path) => Some(path),
            None => match &self.image_path_deprecated {
                Some(path) => Some(path),
                None => None,
            },
        }
    }

    /// `next` is the source to ask after `tried` gave no icon, or first where
    /// none was tried: the first one in the order, after `tried`, that the
    /// hints offer.
    pub open spec fn is_next_source(self, tried: Option<IconSource>, next: IconSource) -> bool {
        &&& self.offers(next)
        &&& tried matches Some(last) ==> last.rank() < next.rank()
        &&& forall|source: IconSource|
            self.offers(source) && source.rank() < next.rank() ==> (tried matches Some(last)
                && source.rank() <= last.rank())
    }

    /// The source to ask next for the icon, where `tried` was asked last and
    /// gave none. A source is asked only when every source before it gave no
    /// icon. After the icon of the server, no source is left.
    pub fn next_icon_source(&self, tried: Option<IconSource>) -> (next: Option<IconSource>)
        ensures
            match next {
                Some(next) => self.is_next_source(tried, next),
                None => tried == Some(IconSource::Default),
            },
    {
        let after: u8 = match tried {
            None => 0,
            Some(IconSource::ImageData) => 1,
            Some(IconSource::ImagePath) => 2,
            Some(IconSource::AppIcon) => 3,
            Some(IconSource::IconData) => 4,
            Some(IconSource::Default) => {
                return None;
            },
        };
        if after <= 0 && self.image_data().is_some() {
            Some(IconSource::ImageData)
        } else if after <= 1 && self.image_path().is_some() {
            Some(IconSource::ImagePath)
        } else if after <= 2 {
            Some(IconSource::AppIcon)
        } else if after <= 3 && self.icon_data.is_some() {
            Some(IconSource::IconData)
        } else {
            Some(IconSource::Default)
        }
    }
}

/// The version of the server.
pub open spec fn version() -> Seq<char> {
    "0.1.0"@
}

/// What the server can do, as it tells its clients.
pub open spec fn capabilities() -> Seq<Seq<char>> {
    seq!["actions"@, "body"@, "body-markup"@, "body-images"@, "persistence"@]
}

/// The texts of a sequence of strings.
pub open spec fn texts(strings: Seq<String>) -> Seq<Seq<char>> {
    Seq::new(strings.len(), |i: int| strings[i]@)
}

/// What a request asks for, once the lookups outside the server are done.
#[derive(Debug, Clone, PartialEq, Eq)]
pub struct Request {
    pub app_name: String,
    pub replaces_id: u32,
    pub summary: String,
    pub body: String,
    pub actions: Vec<String>,
    pub urgency: Option<u8>,
    pub expire_timeout: i32,
    /// The name found for the desktop entry among the hints, if any
    pub found_name: Option<String>,
    /// The icon that the first source to have one gave, if any
    pub found_icon: Option<String>,
}

/// The candidate is the notification that the request asks for, made at
/// `created`. The name is the one that was found for the desktop entry, and
/// else the one that the request gives. The icon is the one that was found,
/// and else the icon of the server. The body is there unless its text is
/// empty, and the actions unless the request holds no pair.
pub open spec fn is_candidate(
    candidate: Notification,
    request: Request,
    default_icon: String,
    created: i64,
) -> bool {
    &&& candidate.id == request.replaces_id
    &&& candidate.time == created
    &&& candidate.urgency == urgency_of(request.urgency)
    &&& match candidate.expire_time {
        Some(at) => expiry(candidate.urgency, request.expire_timeout, created) == Some(at as int),
        None => expiry(candidate.urgency, request.expire_timeout, created) is None,
    }
    &&& candidate.name == match request.found_name {
        Some(name) => name,
        None => request.app_name,
    }
    &&& candidate.icon == match request.found_icon {
        Some(icon) => icon,
        None => default_icon,
    }
    &&& candidate.summary == request.summary
    &&& match candidate.body {
        Some(body) => request.body@.len() > 0 && blocks_view(body@) == document(request.body@),
        None => request.body@.len() == 0,
    }
    &&& match candidate.actions {
        Some(actions) => actions@ == paired(request.actions@) && actions@.len() > 0,
        None => paired(request.actions@).len() == 0,
    }
}

/// The protocol side of the server: it answers what needs no state, and
/// turns the calls of clients into messages for the owner of the
/// notifications.
#[derive(Debug)]
pub struct NotificationInterface {
    /// The path of the icon of the server
    default_icon: String,
}

impl NotificationInterface {
    /// The interface of a server with the given icon.
    pub fn new(default_icon: String) -> (interface: Self)
        ensures
            interface.default_icon() == default_icon,
    {
        NotificationInterface { default_icon }
    }

    /// The path of the icon of the server.
    pub closed spec fn default_icon(&self) -> String {
        self.default_icon
    }

    /// What the server can do.
    pub fn get_capabilities(&self) -> (names: Vec<String>)
        ensures
            texts(names@) == capabilities(),
    {
        let mut names: Vec<String> = Vec::new();
        names.push("actions".to_owned());
        names.push("body".to_owned());
        names.push("body-markup".to_owned());
        names.push("body-images".to_owned());
        names.push("persistence".to_owned());
        assert(texts(names@) =~= capabilities());
        names
    }

    /// The name of the server, its vendor, its version and the version of
    /// the protocol that it speaks.
    pub fn get_server_information(&self) -> (information: (String, String, String, String))
        ensures
            information.0@ == "Baelyk's Notification Server"@,
            information.1@ == "Baelyk"@,
            information.2@ == version(),
            information.3@ == "1.2"@,
    {
        (
            "Baelyk's Notification Server".to_owned(),
            "Baelyk".to_owned(),
            "0.1.0".to_owned(),
            "1.2".to_owned(),
        )
    }

    /// The message for a request that was made at `created`.
    pub fn notify_at(&self, request: Request, created: i64) -> (message: DbusMessage)
        requires
            expiry_is_representable(
                urgency_of(request.urgency),
                request.expire_timeout,
                created,
            ),
        ensures
            message matches DbusMessage::Notify(candidate, replaces_id) && replaces_id
                == request.replaces_id && is_candidate(
                candidate,
                request,
                self.default_icon(),
                created,
            ),
    {
        let body = if request.body.as_str().is_empty() {
            None
        } else {
            Some(markup(request.body))
        };
        let (urgency, _) = urgency_from_hint(request.urgency);
        let expires = expire_time(urgency, request.expire_timeout, created);
        let name = match request.found_name {
            Some(name) => name,
            None => request.app_name,
        };
        let icon = match request.found_icon {
            Some(icon) => icon,
            None => self.default_icon.clone(),
        };
        let actions = pair_actions(&request.actions);
        let candidate = Notification {
            id: request.replaces_id,
            icon,
            name,
            summary: request.summary,
            body,
            time: created,
            expire_time: expires,
            actions,
            urgency,
        };
        DbusMessage::Notify(candidate, request.replaces_id)
    }

    /// The message for a request that is made now, by the clock.
    pub fn notify(&self, request: Request) -> (message: DbusMessage)
        ensures
            message matches DbusMessage::Notify(candidate, replaces_id) && replaces_id
                == request.replaces_id && exists|created: i64|
                0 <= created && is_candidate(candidate, request, self.default_icon(), created),
    {
        let created = now();
        self.notify_at(request, created)
    }

    /// The message for a request to close the notification of the given id.
    pub fn close_notification(&self, id: u32) -> (message: DbusMessage)
        ensures
            message == DbusMessage::CloseNotification(id),
    {
        DbusMessage::CloseNotification(id)
    }
}

} // verus!
