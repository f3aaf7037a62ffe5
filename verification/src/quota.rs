//! A tracker that warns as a quota fills up.

use crate::decimal::{decimal, to_decimal};
use vstd::prelude::*;
use vstd::string::*;

verus! {

/// Whoever takes the warnings. The tracker hands each one over as it
/// arises and expects nothing back.
pub trait Messenger {
    fn send(&self, msg: &str);
}

/// How full a quota is.
#[derive(Clone, Copy, Debug, PartialEq, Eq, Structural)]
pub enum Usage {
    /// Under three quarters.
    Fine,
    /// Three quarters or more, under nine tenths.
    Warning,
    /// Nine tenths or more, not yet all.
    Urgent,
    /// All of it or more.
    Over,
}

/// How full the quota `max` is with `value` used, as the exact ratio of
/// the two. Nothing used of a quota of nothing has no ratio and counts as
/// fine.
pub open spec fn usage_of(value: nat, max: nat) -> Usage {
    if value == 0 && max == 0 {
        Usage::Fine
    } else if value >= max {
        Usage::Over
    } else if 10 * value >= 9 * max {
        Usage::Urgent
    } else if 4 * value >= 3 * max {
        Usage::Warning
    } else {
        Usage::Fine
    }
}

/// The words that open the message for a usage that calls for one.
pub open spec fn opening(usage: Usage) -> Seq<char> {
    match usage {
        Usage::Over => "Error: You are over your quota!"@,
        Usage::Urgent => "Urgent warning: You've used up over 90% of your quota!"@,
        Usage::Warning => "Warning: You've used up over 75% of your quota!"@,
        Usage::Fine => Seq::empty(),
    }
}

/// The message for `value` used of `max`, if that calls for one.
pub open spec fn message_of(value: nat, max: nat) -> Option<Seq<char>> {
    match usage_of(value, max) {
        Usage::Fine => None,
        usage => Some(opening(usage) + " You used "@ + decimal(value) + " of "@ + decimal(max) + " units"@),
    }
}

/// How full the quota `max` is with `value` used.
pub fn usage(value: usize, max: usize) -> (u: Usage)
    ensures
        u == usage_of(value as nat, max as nat),
{
    let used: u128 = value as u128;
    let all: u128 = max as u128;
    if value == 0 && max == 0 {
        Usage::Fine
    } else if value >= max {
        Usage::Over
    } else if 10 * used >= 9 * all {
        Usage::Urgent
    } else if 4 * used >= 3 * all {
        Usage::Warning
    } else {
        Usage::Fine
    }
}

/// The message for `value` used of `max`, if that calls for one.
pub fn message_for(value: usize, max: usize) -> (msg: Option<String>)
    ensures
        match msg {
            Some(m) => message_of(value as nat, max as nat) == Some(m@),
            None => message_of(value as nat, max as nat) is None,
        },
{
    let mut text = match usage(value, max) {
        Usage::Fine => {
            return None;
        },
        Usage::Over => "Error: You are over your quota!".to_string(),
        Usage::Urgent => "Urgent warning: You've used up over 90% of your quota!".to_string(),
        Usage::Warning => "Warning: You've used up over 75% of your quota!".to_string(),
    };
    text.append(" You used ");
    text.append(to_decimal(value).as_str());
    text.append(" of ");
    text.append(to_decimal(max).as_str());
    text.append(" units");
    Some(text)
}

/// Tracks how much of a quota is used, and tells a messenger when the
/// quota is nearly or fully used.
pub struct LimitTracker<'a, T: Messenger> {
    messenger: &'a T,
    value: usize,
    max: usize,
    logged: Ghost<Seq<Seq<char>>>,
}

impl<'a, T: Messenger> LimitTracker<'a, T> {
    /// The amount used, as last set.
    pub closed spec fn value(&self) -> usize {
        self.value
    }

    /// The quota.
    pub closed spec fn max(&self) -> usize {
        self.max
    }

    /// The tracker's own log: the messages that it made for the messenger,
    /// in order. The hand-over itself returns nothing and changes nothing
    /// that a contract could speak of, so the log is the tracker's word
    /// for it.
    pub closed spec fn logged(&self) -> Seq<Seq<char>> {
        self.logged@
    }

    /// A tracker for the quota `max`, with nothing used and nothing logged.
    pub fn new(messenger: &'a T, max: usize) -> (tracker: LimitTracker<'a, T>)
        ensures
            tracker.value() == 0,
            tracker.max() == max,
            tracker.logged() == Seq::<Seq<char>>::empty(),
    {
        LimitTracker { messenger, value: 0, max, logged: Ghost(Seq::empty()) }
    }

    /// Records the amount used. If that fills the quota to three quarters
    /// or more, the messenger is handed the message for it, and the message
    /// is logged: one message each time, whatever was sent before.
    pub fn set_value(&mut self, value: usize)
        ensures
            final(self).value() == value,
            final(self).max() == old(self).max(),
            final(self).logged() == match message_of(value as nat, old(self).max() as nat) {
                Some(m) => old(self).logged().push(m),
                None => old(self).logged(),
            },
    {
        self.value = value;
        match message_for(self.value, self.max) {
            Some(msg) => {
                self.messenger.send(msg.as_str());
                self.logged = Ghost(self.logged@.push(msg@));
            },
            None => {},
        }
    }
}

} // verus!
