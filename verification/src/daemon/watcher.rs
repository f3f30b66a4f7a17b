//! Listening to the clipboard can be switched on and off.

use vstd::prelude::*;

verus! {

/// What switching does.
#[derive(Debug, Clone, Copy, PartialEq, Eq, Structural)]
pub enum Switch {
    /// Nothing: it is so already.
    Nothing,
    Start,
    Stop,
}

/// What it takes to have listening on or off.
pub fn set_enabled(running: bool, enabled: bool) -> (r: Switch)
    ensures
        r == (if running == enabled {
            Switch::Nothing
        } else if enabled {
            Switch::Start
        } else {
            Switch::Stop
        }),
{
    if running == enabled {
        Switch::Nothing
    } else if enabled {
        Switch::Start
    } else {
        Switch::Stop
    }
}

/// Whether listening is on after a switch; starting may fail.
pub open spec fn running_after(running: bool, s: Switch, started: bool) -> bool {
    match s {
        Switch::Nothing => running,
        Switch::Start => started,
        Switch::Stop => false,
    }
}

/// Whether listening is on after a switch; starting may fail.
pub fn after_switch(running: bool, s: Switch, started: bool) -> (r: bool)
    ensures
        r == running_after(running, s, started),
{
    match s {
        Switch::Nothing => running,
        Switch::Start => started,
        Switch::Stop => false,
    }
}

/// After switching on, listening is on if it was on before or could be started;
/// after switching off it is off. Where it is so already, nothing is done.
pub proof fn law_switching(running: bool, enabled: bool, started: bool, s: Switch, now: bool)
    requires
        call_ensures(set_enabled, (running, enabled), s),
        call_ensures(after_switch, (running, s, started), now),
    ensures
        enabled ==> now == (running || started),
        !enabled ==> !now,
        running == enabled <==> s == Switch::Nothing,
        enabled && !running ==> s == Switch::Start,
{
}

} // verus!
