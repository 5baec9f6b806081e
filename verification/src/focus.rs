//! Focus events of toplevel windows, deduplicated and debounced.
//!
//! The compositor reports a window as activated once per output, in one batch
//! a fraction of a millisecond apart; only the first report of a batch, and
//! only a change of the focused window, is passed on.

use vstd::prelude::*;

verus! {

/// What the window watcher reports to the applet.
#[derive(Debug, Clone)]
pub enum WaylandUpdate {
    Focused { app_id: String, identifier: String },
    Closed { identifier: String },
}

/// What the logic reads of a toplevel window's state.
#[derive(Debug, Clone)]
pub struct ToplevelInfo {
    pub app_id: String,
    pub identifier: String,
    /// The window is the activated (focused) one.
    pub activated: bool,
}

/// Reports closer together than this many microseconds are one batch.
pub const FOCUS_DEBOUNCE_MICROS: u64 = 5000;

/// The key that names a window: its identifier, or its application id when
/// the identifier is empty.
pub open spec fn window_key(app_id: Seq<char>, identifier: Seq<char>) -> Seq<char> {
    if identifier.len() == 0 {
        app_id
    } else {
        identifier
    }
}

/// The key that names a window: its identifier, or its application id when
/// the identifier is empty.
pub fn toplevel_key(app_id: &str, identifier: &str) -> (k: String)
    ensures
        k@ == window_key(app_id@, identifier@),
{
    if identifier.is_empty() {
        app_id.to_owned()
    } else {
        identifier.to_owned()
    }
}

/// Microseconds from `earlier` to `later`, zero when `later` is not after it.
pub open spec fn elapsed(earlier: u64, later: u64) -> int {
    if later <= earlier {
        0
    } else {
        later - earlier
    }
}

/// A focus report for window `key` at time `now` is passed on: it names
/// another window than the last one passed on, and does not come within the
/// debounce interval of it.
pub open spec fn admits(last: Option<Seq<char>>, last_time: Option<u64>, key: Seq<char>, now: u64) -> bool {
    &&& !(last matches Some(k) && k == key)
    &&& !(last_time matches Some(t) && elapsed(t, now) < FOCUS_DEBOUNCE_MICROS)
}

/// The last focus report that was passed on.
#[derive(Debug)]
pub struct FocusTracker {
    /// The key of the window last reported focused.
    pub last_focused_app: Option<String>,
    /// When it was reported, in microseconds of a monotonic clock.
    pub last_focus_time: Option<u64>,
}

impl FocusTracker {
    /// The key of the last window passed on, as text.
    pub open spec fn last_key(&self) -> Option<Seq<char>> {
        match self.last_focused_app {
            Some(k) => Some(k@),
            None => None,
        }
    }

    /// A tracker that has passed nothing on.
    pub fn new() -> (t: Self)
        ensures
            t.last_key() is None,
            t.last_focus_time is None,
    {
        FocusTracker { last_focused_app: None, last_focus_time: None }
    }

    /// A report that window (`app_id`, `identifier`) is focused, at time `now`:
    /// the update to send, if the report is passed on.
    pub fn send_focus(&mut self, app_id: &str, identifier: &str, now: u64) -> (r: Option<WaylandUpdate>)
        ensures
            ({
                let key = window_key(app_id@, identifier@);
                if admits(old(self).last_key(), old(self).last_focus_time, key, now) {
                    &&& final(self).last_key() == Some(key)
                    &&& final(self).last_focus_time == Some(now)
                    &&& r matches Some(WaylandUpdate::Focused { app_id: a, identifier: i })
                    &&& a@ == app_id@
                    &&& i@ == key
                } else {
                    &&& final(self).last_key() == old(self).last_key()
                    &&& final(self).last_focus_time == old(self).last_focus_time
                    &&& r is None
                }
            }),
    {
        let key = toplevel_key(app_id, identifier);
        if let Some(last) = &self.last_focused_app {
            if *last == key {
                return None;
            }
        }
        if let Some(last_time) = self.last_focus_time {
            let since = if now <= last_time {
                0
            } else {
                now - last_time
            };
            if since < FOCUS_DEBOUNCE_MICROS {
                return None;
            }
        }
        self.last_focused_app = Some(key.clone());
        self.last_focus_time = Some(now);
        Some(WaylandUpdate::Focused { app_id: app_id.to_owned(), identifier: key })
    }

    /// The update that reports window (`app_id`, `identifier`) closed.
    pub fn send_closed(&self, app_id: &str, identifier: &str) -> (r: WaylandUpdate)
        ensures
            r matches WaylandUpdate::Closed { identifier: i } && i@ == window_key(
                app_id@,
                identifier@,
            ),
    {
        WaylandUpdate::Closed { identifier: toplevel_key(app_id, identifier) }
    }

    /// A window appeared: passed on as a focus report when it is activated.
    pub fn new_toplevel(&mut self, info: Option<&ToplevelInfo>, now: u64) -> (r: Option<WaylandUpdate>)
        ensures
            match info {
                Some(t) if t.activated => {
                    let key = window_key(t.app_id@, t.identifier@);
                    if admits(old(self).last_key(), old(self).last_focus_time, key, now) {
                        &&& final(self).last_key() == Some(key)
                        &&& final(self).last_focus_time == Some(now)
                        &&& r matches Some(WaylandUpdate::Focused { app_id: a, identifier: i })
                        &&& a@ == t.app_id@
                        &&& i@ == key
                    } else {
                        &&& final(self).last_key() == old(self).last_key()
                        &&& final(self).last_focus_time == old(self).last_focus_time
                        &&& r is None
                    }
                },
                _ => {
                    &&& final(self).last_key() == old(self).last_key()
                    &&& final(self).last_focus_time == old(self).last_focus_time
                    &&& r is None
                },
            },
    {
        match info {
            Some(t) => {
                if t.activated {
                    self.send_focus(t.app_id.as_str(), t.identifier.as_str(), now)
                } else {
                    None
                }
            },
            None => None,
        }
    }

    /// A window's state changed: passed on as a focus report when it is activated.
    pub fn update_toplevel(&mut self, info: Option<&ToplevelInfo>, now: u64) -> (r: Option<WaylandUpdate>)
        ensures
            match info {
                Some(t) if t.activated => {
                    let key = window_key(t.app_id@, t.identifier@);
                    if admits(old(self).last_key(), old(self).last_focus_time, key, now) {
                        &&& final(self).last_key() == Some(key)
                        &&& final(self).last_focus_time == Some(now)
                        &&& r matches Some(WaylandUpdate::Focused { app_id: a, identifier: i })
                        &&& a@ == t.app_id@
                        &&& i@ == key
                    } else {
                        &&& final(self).last_key() == old(self).last_key()
                        &&& final(self).last_focus_time == old(self).last_focus_time
                        &&& r is None
                    }
                },
                _ => {
                    &&& final(self).last_key() == old(self).last_key()
                    &&& final(self).last_focus_time == old(self).last_focus_time
                    &&& r is None
                },
            },
    {
        self.new_toplevel(info, now)
    }

    /// A window closed: reported when its state is known.
    pub fn toplevel_closed(&self, info: Option<&ToplevelInfo>) -> (r: Option<WaylandUpdate>)
        ensures
            match info {
                Some(t) => r matches Some(WaylandUpdate::Closed { identifier: i }) && i@
                    == window_key(t.app_id@, t.identifier@),
                None => r is None,
            },
    {
        match info {
            Some(t) => Some(self.send_closed(t.app_id.as_str(), t.identifier.as_str())),
            None => None,
        }
    }
}

/// A focus report for the window last passed on is dropped, whenever it comes.
pub proof fn law_same_window_is_dropped(key: Seq<char>, t: u64, now: u64)
    ensures
        !admits(Some(key), Some(t), key, now),
{
}

/// Once a report passed at time `t`, a report for another window is passed on
/// exactly when it comes at least the debounce interval after `t`.
pub proof fn law_debounce(last: Seq<char>, t: u64, key: Seq<char>, now: u64)
    requires
        key != last,
    ensures
        admits(Some(last), Some(t), key, now) <==> now >= t + FOCUS_DEBOUNCE_MICROS,
{
}

} // verus!
