use vstd::prelude::*;

use crate::config::{DEFAULT_GROUPS, NUM_GROUPS};

verus! {

/// How long an indicator (a short status in the top centre) stays, in milliseconds.
pub const INDICATOR_DURATION_MS: u64 = 1500;

/// How long an information message (at the bottom) stays, in milliseconds.
pub const INFO_DURATION_MS: u64 = 2600;

/// A message shown until a point in time (milliseconds on the application's clock).
#[derive(Debug, Clone)]
pub struct TimedMessage {
    pub text: String,
    pub until_ms: u64,
}

/// The two on-screen messages.
#[derive(Debug, Clone)]
pub struct Overlay {
    pub indicator: Option<TimedMessage>,
    pub info: Option<TimedMessage>,
}

/// `now + duration`, saturating at the clock's end.
pub open spec fn deadline(now_ms: u64, duration_ms: u64) -> u64 {
    if now_ms + duration_ms > u64::MAX {
        u64::MAX
    } else {
        (now_ms + duration_ms) as u64
    }
}

/// A message that is still shown at `now_ms`; an expired one is gone.
pub open spec fn still_shown(m: Option<TimedMessage>, now_ms: u64) -> Option<TimedMessage> {
    match m {
        Some(message) => if message.until_ms <= now_ms {
            None
        } else {
            Some(message)
        },
        None => None,
    }
}

impl Overlay {
    /// No messages.
    pub fn new() -> (r: Self)
        ensures
            r.indicator is None,
            r.info is None,
    {
        Overlay { indicator: None, info: None }
    }

    /// Shows `text` as the indicator for [`INDICATOR_DURATION_MS`] from `now_ms`.
    pub fn show_indicator(&mut self, text: String, now_ms: u64)
        ensures
            final(self).indicator == Some(TimedMessage { text, until_ms: deadline(now_ms, INDICATOR_DURATION_MS) }),
            final(self).info == old(self).info,
    {
        self.indicator = Some(TimedMessage { text, until_ms: now_ms.saturating_add(INDICATOR_DURATION_MS) });
    }

    /// Shows `text` as the information message for [`INFO_DURATION_MS`] from `now_ms`.
    pub fn show_info(&mut self, text: String, now_ms: u64)
        ensures
            final(self).info == Some(TimedMessage { text, until_ms: deadline(now_ms, INFO_DURATION_MS) }),
            final(self).indicator == old(self).indicator,
    {
        self.info = Some(TimedMessage { text, until_ms: now_ms.saturating_add(INFO_DURATION_MS) });
    }

    /// Removes the messages whose time is up at `now_ms`.
    pub fn clear_expired(&mut self, now_ms: u64)
        ensures
            final(self).indicator == still_shown(old(self).indicator, now_ms),
            final(self).info == still_shown(old(self).info, now_ms),
    {
        let expired_indicator = match &self.indicator {
            Some(message) => message.until_ms <= now_ms,
            None => false,
        };
        if expired_indicator {
            self.indicator = None;
        }
        let expired_info = match &self.info {
            Some(message) => message.until_ms <= now_ms,
            None => false,
        };
        if expired_info {
            self.info = None;
        }
    }
}

/// How many MP4 folder groups the settings window shows.
pub fn visible_group_count(numpad_folder_switching: bool) -> (r: usize)
    ensures
        r == if numpad_folder_switching {
            NUM_GROUPS
        } else {
            DEFAULT_GROUPS
        },
{
    if numpad_folder_switching {
        NUM_GROUPS
    } else {
        DEFAULT_GROUPS
    }
}

/// A message shown at `now_ms` stays until its duration has passed and is gone afterwards.
pub proof fn law_message_lifetime(text: String, now_ms: u64, later_ms: u64, duration_ms: u64)
    requires
        now_ms + duration_ms <= u64::MAX,
        now_ms <= later_ms,
    ensures
        still_shown(Some(TimedMessage { text, until_ms: deadline(now_ms, duration_ms) }), later_ms)
            is Some <==> later_ms < now_ms + duration_ms,
{
}

} // verus!
