//! The `--since`/`--until` time window over record timestamps.

use vstd::prelude::*;
use crate::durations::{iso_millis, parse_iso_millis};

verus! {

/// Inclusive bounds, in epoch milliseconds; an absent side is open.
#[derive(Debug, Clone, Copy, PartialEq, Eq, Structural)]
pub struct TimeWindow {
    pub since: Option<i64>,
    pub until: Option<i64>,
}

/// Does the window admit a record with timestamp `ts`? An unbounded window admits every
/// record; a bounded one admits only a timestamp that parses and lies within the bounds,
/// so a record with no timestamp never falls inside a bounded window.
pub open spec fn spec_contains(w: TimeWindow, ts: Option<Seq<char>>) -> bool {
    if w.since is None && w.until is None {
        true
    } else {
        match ts {
            None => false,
            Some(t) => match iso_millis(t) {
                None => false,
                Some(ms) => (match w.since { Some(s) => s <= ms, None => true })
                    && (match w.until { Some(u) => ms <= u, None => true }),
            },
        }
    }
}

/// The bound a flag's value names, or the message for a value that is no timestamp.
pub open spec fn bound_of(raw: Option<Seq<char>>) -> Option<Option<int>> {
    match raw {
        None => Some(None),
        Some(t) => match iso_millis(t) {
            Some(ms) => Some(Some(ms)),
            None => None,
        },
    }
}

fn flag_bound(raw: Option<&str>, flag: &str) -> (r: Result<Option<i64>, String>)
    ensures
        match r {
            Ok(b) => bound_of(match raw { Some(t) => Some(t@), None => None }) == Some(match b { Some(v) => Some(v as int), None => None }),
            Err(_) => bound_of(match raw { Some(t) => Some(t@), None => None }) is None,
        },
{
    match raw {
        None => Ok(None),
        Some(t) => match parse_iso_millis(t) {
            Some(ms) => Ok(Some(ms)),
            None => {
                let mut msg = String::new();
                msg.append("invalid ");
                msg.append(flag);
                msg.append(" timestamp: ");
                msg.append(t);
                Err(msg)
            },
        },
    }
}

impl TimeWindow {
    /// The window that admits everything.
    pub fn unbounded() -> (w: TimeWindow)
        ensures
            w.since is None && w.until is None,
    {
        TimeWindow { since: None, until: None }
    }

    /// Build the window from the raw `--since` / `--until` values; a value that is no
    /// RFC 3339 timestamp is an error.
    pub fn from_args(since: Option<&str>, until: Option<&str>) -> (r: Result<TimeWindow, String>)
        ensures
            r is Ok <==> (bound_of(match since { Some(t) => Some(t@), None => None }) is Some
                && bound_of(match until { Some(t) => Some(t@), None => None }) is Some),
            r matches Ok(w) ==> {
                &&& bound_of(match since { Some(t) => Some(t@), None => None })
                    == Some(match w.since { Some(v) => Some(v as int), None => None })
                &&& bound_of(match until { Some(t) => Some(t@), None => None })
                    == Some(match w.until { Some(v) => Some(v as int), None => None })
            },
    {
        let s = match flag_bound(since, "--since") {
            Ok(b) => b,
            Err(e) => return Err(e),
        };
        let u = match flag_bound(until, "--until") {
            Ok(b) => b,
            Err(e) => return Err(e),
        };
        Ok(TimeWindow { since: s, until: u })
    }

    /// Does the window bound nothing?
    pub fn is_unbounded(&self) -> (b: bool)
        ensures
            b == (self.since is None && self.until is None),
    {
        self.since.is_none() && self.until.is_none()
    }

    /// See [`spec_contains`].
    pub fn contains(&self, ts: Option<&str>) -> (b: bool)
        ensures
            b == spec_contains(*self, match ts { Some(t) => Some(t@), None => None }),
    {
        if self.is_unbounded() {
            return true;
        }
        let t = match ts {
            Some(t) => t,
            None => return false,
        };
        let ms = match parse_iso_millis(t) {
            Some(ms) => ms,
            None => return false,
        };
        let lo_ok = match self.since {
            Some(s) => s <= ms,
            None => true,
        };
        let hi_ok = match self.until {
            Some(u) => ms <= u,
            None => true,
        };
        lo_ok && hi_ok
    }
}

/// A bounded window never admits a record without a timestamp.
pub proof fn lemma_untimed_outside_bounded(w: TimeWindow)
    requires
        w.since is Some || w.until is Some,
    ensures
        !spec_contains(w, None),
{
}

} // verus!
