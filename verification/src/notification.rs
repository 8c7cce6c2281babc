//! A notification, and the rules by which one is made from a request: its
//! urgency, when it expires, and how its age is shown.

use crate::clock::now;
use crate::markup::BodyElement;
use vstd::prelude::*;

verus! {

/// How urgent a notification is.
#[derive(Copy, Clone, Debug, PartialEq, Eq, Structural)]
pub enum Urgency {
    Low,
    Normal,
    Critical,
}

/// One notification. Times are counted in milliseconds since the Unix epoch.
#[derive(Clone, Debug, PartialEq, Eq)]
pub struct Notification {
    /// The id, which is unique among the live notifications and never zero
    pub id: u32,
    /// The resolved path of the icon or image to show
    pub icon: String,
    /// The name of the application to show
    pub name: String,
    /// The summary that the application gave
    pub summary: String,
    /// The body that the application gave, in blocks; none where it was empty
    pub body: Option<Vec<BodyElement>>,
    /// When the notification was sent
    pub time: i64,
    /// When the notification expires; none where it never does
    pub expire_time: Option<i64>,
    /// The actions, each a key and a label; none where there are no actions
    pub actions: Option<Vec<(String, String)>>,
    /// The urgency that the client gave, `Normal` where it gave none
    pub urgency: Urgency,
}

impl Notification {
    /// The notification has expired at `now`: it has a time of expiry, and
    /// that time lies before `now`.
    pub open spec fn expired_at(self, now: i64) -> bool {
        self.expire_time matches Some(at) && at < now
    }

    /// Whether the notification has expired at `now`.
    pub fn is_expired(&self, now: i64) -> (expired: bool)
        ensures
            expired == self.expired_at(now),
    {
        match self.expire_time {
            Some(at) => at < now,
            None => false,
        }
    }
}

/// The urgency that a client's hint stands for: 0 is low, 1 is normal and 2
/// is critical. Where the hint is missing or any other number, the urgency
/// is normal.
pub open spec fn urgency_of(level: Option<u8>) -> Urgency {
    match level {
        Some(0) => Urgency::Low,
        Some(2) => Urgency::Critical,
        _ => Urgency::Normal,
    }
}

/// The hint is missing or one of the three levels that clients may give.
pub open spec fn is_known_urgency(level: Option<u8>) -> bool {
    match level {
        Some(level) => level <= 2,
        None => true,
    }
}

/// The urgency that a client's hint stands for, and whether the hint was one
/// that clients may give.
pub fn urgency_from_hint(level: Option<u8>) -> (r: (Urgency, bool))
    ensures
        r.0 == urgency_of(level),
        r.1 == is_known_urgency(level),
{
    match level {
        None => (Urgency::Normal, true),
        Some(0) => (Urgency::Low, true),
        Some(1) => (Urgency::Normal, true),
        Some(2) => (Urgency::Critical, true),
        Some(_) => (Urgency::Normal, false),
    }
}

/// The timeout that stands for "as the server sees fit".
pub const DEFAULT_TIMEOUT: i32 = -1;

/// How long a notification lives where the client leaves it to the server,
/// in milliseconds: one minute.
pub const DEFAULT_LIFETIME: i64 = 60_000;

/// When a notification expires that was created at `created`. A critical
/// notification never expires, whatever timeout was asked for, and neither
/// does one with a timeout of zero. The default timeout is a minute; any
/// other timeout is a count of milliseconds.
pub open spec fn expiry(urgency: Urgency, expire_timeout: i32, created: i64) -> Option<int> {
    if urgency == Urgency::Critical || expire_timeout == 0 {
        None
    } else if expire_timeout == DEFAULT_TIMEOUT {
        Some(created + DEFAULT_LIFETIME)
    } else {
        Some(created + expire_timeout)
    }
}

/// The time of expiry can be held in 64 bits.
pub open spec fn expiry_is_representable(urgency: Urgency, expire_timeout: i32, created: i64)
    -> bool {
    expiry(urgency, expire_timeout, created) matches Some(at) ==> i64::MIN <= at <= i64::MAX
}

/// When a notification expires that was created at `created`.
pub fn expire_time(urgency: Urgency, expire_timeout: i32, created: i64) -> (expires: Option<i64>)
    requires
        expiry_is_representable(urgency, expire_timeout, created),
    ensures
        match expires {
            Some(at) => expiry(urgency, expire_timeout, created) == Some(at as int),
            None => expiry(urgency, expire_timeout, created) is None,
        },
{
    match urgency {
        Urgency::Critical => None,
        _ => {
            if expire_timeout == 0 {
                None
            } else if expire_timeout == DEFAULT_TIMEOUT {
                Some(created + DEFAULT_LIFETIME)
            } else {
                Some(created + expire_timeout as i64)
            }
        },
    }
}

/// Whether the time of expiry can be held in 64 bits.
pub fn can_expire_at(urgency: Urgency, expire_timeout: i32, created: i64) -> (fits: bool)
    ensures
        fits == expiry_is_representable(urgency, expire_timeout, created),
{
    match urgency {
        Urgency::Critical => true,
        _ => {
            if expire_timeout == 0 {
                true
            } else if expire_timeout == DEFAULT_TIMEOUT {
                created.checked_add(DEFAULT_LIFETIME).is_some()
            } else {
                created.checked_add(expire_timeout as i64).is_some()
            }
        },
    }
}

/// The actions of a request: its strings are taken two by two as key and
/// label, and a last string without a partner is left out.
pub open spec fn paired(actions: Seq<String>) -> Seq<(String, String)> {
    Seq::new((actions.len() / 2) as nat, |i: int| (actions[2 * i], actions[2 * i + 1]))
}

/// The actions of a request as pairs of key and label; none where the
/// request holds no pair.
pub fn pair_actions(actions: &Vec<String>) -> (pairs: Option<Vec<(String, String)>>)
    ensures
        match pairs {
            Some(pairs) => pairs@ == paired(actions@) && pairs@.len() > 0,
            None => paired(actions@).len() == 0,
        },
{
    let mut pairs: Vec<(String, String)> = Vec::new();
    let mut i: usize = 0;
    while i + 1 < actions.len()
        invariant
            i % 2 == 0,
            i <= actions.len(),
            pairs@.len() == i / 2,
            forall|k: int| 0 <= k < pairs@.len() ==> pairs@[k] == paired(actions@)[k],
        decreases actions.len() - i,
    {
        pairs.push((actions[i].clone(), actions[i + 1].clone()));
        i += 2;
    }
    if pairs.len() == 0 {
        None
    } else {
        assert(pairs@ =~= paired(actions@));
        Some(pairs)
    }
}

/// How the age of a notification is shown.
#[derive(Debug, Clone, Copy, PartialEq, Eq)]
pub enum TimeLabel {
    /// Less than half a minute old, or not yet sent
    Now,
    /// At least half a minute and less than a minute old
    HalfMinute,
    /// Less than an hour old: the age in whole minutes
    Minutes(u64),
    /// Less than four hours old: the age in whole hours
    Hours(u64),
    /// Less than a day old: the time of day is shown
    TimeOfDay,
    /// Less than a week old: the day of the week and the time are shown
    WeekdayAndTime,
    /// A week old or more: the day of the week and the date are shown
    WeekdayAndDate,
}

/// The label for a notification that was sent `elapsed` milliseconds ago.
pub open spec fn time_label(elapsed: int) -> TimeLabel {
    if elapsed < 30_000 {
        TimeLabel::Now
    } else if elapsed < 60_000 {
        TimeLabel::HalfMinute
    } else if elapsed < 3_600_000 {
        TimeLabel::Minutes((elapsed / 60_000) as u64)
    } else if elapsed < 14_400_000 {
        TimeLabel::Hours((elapsed / 3_600_000) as u64)
    } else if elapsed < 86_400_000 {
        TimeLabel::TimeOfDay
    } else if elapsed < 604_800_000 {
        TimeLabel::WeekdayAndTime
    } else {
        TimeLabel::WeekdayAndDate
    }
}

/// The label, at `now`, for a notification that was sent at `time`.
pub open spec fn label_at(now: i64, time: i64) -> TimeLabel {
    time_label(now - time)
}

/// The label, at `now`, for a notification that was sent at `time`.
pub fn notification_time_at(now: i64, time: i64) -> (label: TimeLabel)
    ensures
        label == label_at(now, time),
{
    let elapsed: i128 = now as i128 - time as i128;
    if elapsed < 30_000 {
        TimeLabel::Now
    } else if elapsed < 60_000 {
        TimeLabel::HalfMinute
    } else if elapsed < 3_600_000 {
        TimeLabel::Minutes((elapsed / 60_000) as u64)
    } else if elapsed < 14_400_000 {
        TimeLabel::Hours((elapsed / 3_600_000) as u64)
    } else if elapsed < 86_400_000 {
        TimeLabel::TimeOfDay
    } else if elapsed < 604_800_000 {
        TimeLabel::WeekdayAndTime
    } else {
        TimeLabel::WeekdayAndDate
    }
}

/// The label, at the time that the clock shows, for a notification that was
/// sent at `time`.
pub fn notification_time(time: i64) -> (label: TimeLabel)
    ensures
        exists|now: i64| 0 <= now && label == label_at(now, time),
{
    let at = now();
    notification_time_at(at, time)
}

/// The character of a decimal digit.
pub open spec fn digit(d: nat) -> char {
    if d == 0 {
        '0'
    } else if d == 1 {
        '1'
    } else if d == 2 {
        '2'
    } else if d == 3 {
        '3'
    } else if d == 4 {
        '4'
    } else if d == 5 {
        '5'
    } else if d == 6 {
        '6'
    } else if d == 7 {
        '7'
    } else if d == 8 {
        '8'
    } else {
        '9'
    }
}

/// A number in decimal digits, without leading zeros.
pub open spec fn decimal(n: nat) -> Seq<char>
    decreases n,
{
    if n < 10 {
        seq![digit(n)]
    } else {
        decimal(n / 10).push(digit(n % 10))
    }
}

/// The number in decimal digits.
pub fn decimal_string(n: u64) -> (s: String)
    ensures
        s@ == decimal(n as nat),
    decreases n,
{
    let mut s = if n < 10 {
        String::new()
    } else {
        decimal_string(n / 10)
    };
    let last = match n % 10 {
        0 => '0',
        1 => '1',
        2 => '2',
        3 => '3',
        4 => '4',
        5 => '5',
        6 => '6',
        7 => '7',
        8 => '8',
        _ => '9',
    };
    s.push(last);
    assert(n < 10 ==> s@ == seq![digit(n as nat)]);
    s
}

impl TimeLabel {
    /// The words of a label that gives an age; none for a label that shows
    /// a time or a date.
    pub open spec fn words(self) -> Option<Seq<char>> {
        match self {
            TimeLabel::Now => Some("now"@),
            TimeLabel::HalfMinute => Some("30s ago"@),
            TimeLabel::Minutes(n) => Some(decimal(n as nat) + "m ago"@),
            TimeLabel::Hours(n) => Some(decimal(n as nat) + "h ago"@),
            _ => None,
        }
    }

    /// The pattern by which a label shows a time or a date, in the notation
    /// of `strftime`; none for a label that gives an age.
    pub open spec fn layout(self) -> Option<Seq<char>> {
        match self {
            TimeLabel::TimeOfDay => Some("%H:%S"@),
            TimeLabel::WeekdayAndTime => Some("%a %H:%M"@),
            TimeLabel::WeekdayAndDate => Some("%a %h %e"@),
            _ => None,
        }
    }

    /// The words of a label that gives an age.
    pub fn text(&self) -> (text: Option<String>)
        ensures
            match text {
                Some(text) => self.words() == Some(text@),
                None => self.words() is None,
            },
    {
        match self {
            TimeLabel::Now => Some("now".to_owned()),
            TimeLabel::HalfMinute => Some("30s ago".to_owned()),
            TimeLabel::Minutes(n) => {
                let mut text = decimal_string(*n);
                text.append("m ago");
                Some(text)
            },
            TimeLabel::Hours(n) => {
                let mut text = decimal_string(*n);
                text.append("h ago");
                Some(text)
            },
            _ => None,
        }
    }

    /// The pattern by which a label shows a time or a date.
    pub fn pattern(&self) -> (pattern: Option<&'static str>)
        ensures
            match pattern {
                Some(pattern) => self.layout() == Some(pattern@),
                None => self.layout() is None,
            },
    {
        match self {
            TimeLabel::TimeOfDay => Some("%H:%S"),
            TimeLabel::WeekdayAndTime => Some("%a %H:%M"),
            TimeLabel::WeekdayAndDate => Some("%a %h %e"),
            _ => None,
        }
    }
}

} // verus!
