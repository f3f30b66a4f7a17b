//! Translating the selection or the clipboard on demand.

use crate::daemon::handler::{HandleResult, ResultModel};
use crate::pipeline::{Translation, TranslationModel};
use crate::text;
use vstd::prelude::*;

verus! {

/// What became of a trigger.
#[derive(Debug, Clone, PartialEq)]
pub enum TriggerOutcome {
    /// There was no text.
    NoText,
    Handled { notified: bool, translation: Translation },
    /// The clipboard could not be read.
    Failed(String),
}

/// What a [`TriggerOutcome`] says.
pub enum OutcomeModel {
    NoText,
    Handled { notified: bool, translation: TranslationModel },
    Failed(Seq<char>),
}

impl DeepView for TriggerOutcome {
    type V = OutcomeModel;

    open spec fn deep_view(&self) -> OutcomeModel {
        match self {
            TriggerOutcome::NoText => OutcomeModel::NoText,
            TriggerOutcome::Handled { notified, translation } => OutcomeModel::Handled {
                notified: *notified,
                translation: translation.deep_view(),
            },
            TriggerOutcome::Failed(why) => OutcomeModel::Failed(why@),
        }
    }
}

/// Whether an error message, in lower case, says that there is no text.
pub open spec fn means_no_text(lower: Seq<char>) -> bool {
    ||| text::occurs(lower, "not available as requested type"@)
    ||| text::occurs(lower, "no suitable"@)
    ||| text::occurs(lower, "no selection"@)
    ||| text::occurs(lower, "empty"@)
}

/// Whether an error message, in lower case, says that there is no text.
pub fn says_no_text(lower: &str) -> (r: bool)
    ensures
        r == means_no_text(lower@),
{
    text::contains(lower, "not available as requested type") || text::contains(lower, "no suitable")
        || text::contains(lower, "no selection") || text::contains(lower, "empty")
}

/// What a failed reading of the clipboard amounts to: no text, where the
/// message says so in capitals or small letters, else a failure.
pub fn read_failed(message: &str) -> (r: TriggerOutcome)
    ensures
        r.deep_view() == (if means_no_text(text::lowercase(message@)) {
            OutcomeModel::NoText
        } else {
            OutcomeModel::Failed(message@)
        }),
{
    let lower = message.to_lowercase();
    if says_no_text(&lower) {
        TriggerOutcome::NoText
    } else {
        TriggerOutcome::Failed(text::copy(message))
    }
}

/// What a trigger amounts to once its text was handled: a text that was left
/// alone counts as none.
pub open spec fn outcome_for(r: ResultModel) -> OutcomeModel {
    match r {
        ResultModel::Handled { translation, notified } => OutcomeModel::Handled {
            notified,
            translation,
        },
        ResultModel::Skipped(_) => OutcomeModel::NoText,
    }
}

/// What a trigger amounts to once its text was handled.
pub fn outcome_of(result: HandleResult) -> (r: TriggerOutcome)
    ensures
        r.deep_view() == outcome_for(result.deep_view()),
{
    match result {
        HandleResult::Handled { translation, notified } => TriggerOutcome::Handled {
            notified,
            translation,
        },
        HandleResult::Skipped(_) => TriggerOutcome::NoText,
    }
}

/// A failed reading means that there is no text wherever its message, in small
/// letters, holds one of four phrases; any other message is a failure with that
/// message. A text that was left alone counts as none, and one that was handled
/// is reported with its translation and whether it was shown.
pub proof fn law_outcomes(
    a: Seq<char>,
    b: Seq<char>,
    message: &str,
    r: TriggerOutcome,
    why: Seq<char>,
    translation: TranslationModel,
    notified: bool,
)
    requires
        call_ensures(read_failed, (message,), r),
    ensures
        ({
            let lower = text::lowercase(message@);
            &&& lower == a + "not available as requested type"@ + b ==> r is NoText
            &&& lower == a + "no suitable"@ + b ==> r is NoText
            &&& lower == a + "no selection"@ + b ==> r is NoText
            &&& lower == a + "empty"@ + b ==> r is NoText
            &&& !text::occurs(lower, "not available as requested type"@) && !text::occurs(
                lower,
                "no suitable"@,
            ) && !text::occurs(lower, "no selection"@) && !text::occurs(lower, "empty"@)
                ==> r.deep_view() == OutcomeModel::Failed(message@)
        }),
        outcome_for(ResultModel::Skipped(why)) is NoText,
        outcome_for(ResultModel::Handled { translation, notified }) == (OutcomeModel::Handled {
            notified,
            translation,
        }),
{
    let lower = text::lowercase(message@);
    let n = a.len() as int;
    assert forall|p: Seq<char>| lower == #[trigger] (a + p + b) implies text::occurs(lower, p) by {
        assert(lower.subrange(n, n + p.len()) =~= p);
        assert(text::occurs_at(lower, p, n));
    }
}

} // verus!
