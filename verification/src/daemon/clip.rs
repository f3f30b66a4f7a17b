//! Bursts of copied texts: only the latest is handled.

use crate::text;
use vstd::prelude::*;

verus! {

/// The text to handle of those that are waiting: the latest.
pub fn latest(first: String, waiting: &Vec<String>) -> (r: String)
    ensures
        r@ == (if waiting@.len() == 0 {
            first@
        } else {
            waiting.deep_view().last()
        }),
{
    if waiting.len() == 0 {
        first
    } else {
        text::copy(&waiting[waiting.len() - 1])
    }
}

/// What the listener does with what the clipboard monitor says.
#[derive(Debug, Clone, PartialEq)]
pub enum MonitorStep {
    /// Hand this text on.
    Forward(String),
    /// Wait, and then listen again.
    Retry,
}

/// A text is handed on; a monitor that ended is started again.
pub fn on_monitor(event: Result<String, String>) -> (r: MonitorStep)
    ensures
        match event {
            Ok(t) => r == MonitorStep::Forward(t),
            Err(_) => r == MonitorStep::Retry,
        },
{
    match event {
        Ok(t) => MonitorStep::Forward(t),
        Err(_) => MonitorStep::Retry,
    }
}

/// Of a burst the text that came last is handled, and a text that the monitor
/// saw is handed on as it is.
pub proof fn law_latest_text(
    first: String,
    waiting: &Vec<String>,
    r: String,
    event: Result<String, String>,
    step: MonitorStep,
)
    requires
        call_ensures(latest, (first, waiting), r),
        call_ensures(on_monitor, (event,), step),
    ensures
        r@ == (seq![first@] + waiting.deep_view()).last(),
        event is Ok ==> step == MonitorStep::Forward(event->Ok_0),
        event is Err ==> step is Retry,
{
}

} // verus!
