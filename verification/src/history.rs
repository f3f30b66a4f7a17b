//! The history of translations: what is recorded, and how it is shown.

use crate::paths;
use crate::pipeline::{Translation, TranslationModel};
use crate::text;
use vstd::prelude::*;

verus! {

/// How many entries are kept.
pub const HISTORY_MAX_ROWS: usize = 1000;

/// One translation in the history.
#[derive(Debug, Clone, PartialEq)]
pub struct HistoryEntry {
    /// Milliseconds since the start of 1970.
    pub ts_ms: i64,
    pub text: String,
    pub translation: String,
    pub engine: String,
    /// `auto`, `trigger`, `cli` or `gui`.
    pub origin: String,
}

/// What a [`HistoryEntry`] says.
#[verifier::ext_equal]
pub struct EntryModel {
    pub ts_ms: i64,
    pub text: Seq<char>,
    pub translation: Seq<char>,
    pub engine: Seq<char>,
    pub origin: Seq<char>,
}

impl DeepView for HistoryEntry {
    type V = EntryModel;

    open spec fn deep_view(&self) -> EntryModel {
        EntryModel {
            ts_ms: self.ts_ms,
            text: self.text@,
            translation: self.translation@,
            engine: self.engine@,
            origin: self.origin@,
        }
    }
}

/// The file of the history below the place for data.
pub fn history_path(home: &str) -> (r: String)
    ensures
        r@ == paths::below(home@, "history.sqlite"@),
{
    paths::join(home, "history.sqlite")
}

/// What is recorded of a translation: nothing where there is none.
pub open spec fn recorded(t: TranslationModel, origin: Seq<char>, ts_ms: i64) -> Option<
    EntryModel,
> {
    if t.translation.len() == 0 {
        None
    } else {
        Some(
            EntryModel {
                ts_ms,
                text: t.text,
                translation: t.translation,
                engine: t.engine,
                origin,
            },
        )
    }
}

/// What is recorded of a translation.
pub fn entry_for(t: &Translation, origin: &str, ts_ms: i64) -> (r: Option<HistoryEntry>)
    ensures
        r.deep_view() == recorded(t.deep_view(), origin@, ts_ms),
{
    if text::empty(&t.translation) {
        None
    } else {
        Some(
            HistoryEntry {
                ts_ms,
                text: text::copy(&t.text),
                translation: text::copy(&t.translation),
                engine: text::copy(&t.engine),
                origin: text::copy(origin),
            },
        )
    }
}

// Shown

/// `s`, or its first `max` characters and an ellipsis.
pub open spec fn shortened(s: Seq<char>, max: nat) -> Seq<char> {
    if s.len() <= max {
        s
    } else {
        s.take(max as int).push('…')
    }
}

/// `s`, or its first `max` characters and an ellipsis.
pub fn shorten(s: &str, max: usize) -> (r: String)
    ensures
        r@ == shortened(s@, max as nat),
{
    let v = text::chars_of(s);
    if v.len() <= max {
        text::copy(s)
    } else {
        let mut r = text::text_range(&v, 0, max);
        r.push('…');
        assert(r@ =~= shortened(s@, max as nat));
        r
    }
}

/// A shortened text is at most one character longer than its limit, and a text
/// within the limit is not changed.
pub proof fn law_shortened_length(s: Seq<char>, max: nat)
    ensures
        shortened(s, max).len() <= max + 1,
        s.len() <= max ==> shortened(s, max) == s,
        s.len() > max ==> shortened(s, max).last() == '…' && shortened(s, max).drop_last()
            == s.take(max as int),
{
    if s.len() > max {
        assert(shortened(s, max).drop_last() =~= s.take(max as int));
    }
}

/// `s` followed by spaces up to a width.
pub open spec fn padded(s: Seq<char>, width: nat) -> Seq<char> {
    if s.len() >= width {
        s
    } else {
        s + Seq::new((width - s.len()) as nat, |i: int| ' ')
    }
}

fn pad(s: &str, width: usize) -> (r: String)
    ensures
        r@ == padded(s@, width as nat),
{
    let mut n: usize = text::chars_of(s).len();
    let mut r = text::copy(s);
    while n < width
        invariant
            s@.len() <= n,
            n <= width || n == s@.len(),
            r@ == s@ + Seq::new((n - s@.len()) as nat, |i: int| ' '),
        decreases width - n,
    {
        r.push(' ');
        assert(r@ =~= s@ + Seq::new((n + 1 - s@.len()) as nat, |i: int| ' '));
        n += 1;
    }
    assert(r@ =~= padded(s@, width as nat));
    r
}

/// The date and the time of a number of milliseconds since the start of 1970,
/// as `chrono` writes them with `%Y-%m-%d %H:%M:%S` in UTC; none for a number
/// that is out of its range.
pub uninterp spec fn utc_text(ms: i64) -> Option<Seq<char>>;

/// `chrono::DateTime::from_timestamp_millis` and `format` with
/// `%Y-%m-%d %H:%M:%S` on the result. The text depends on the number alone: the
/// time zone is UTC.
#[verifier::external_body]
fn utc(ms: i64) -> (r: Option<String>)
    ensures
        r.deep_view() == utc_text(ms),
{
    chrono::DateTime::from_timestamp_millis(ms).map(
        |d| d.format("%Y-%m-%d %H:%M:%S").to_string(),
    )
}

/// The time of an entry: a date, else the bare number.
pub open spec fn time_text(date: Option<Seq<char>>, ms: i64) -> Seq<char> {
    match date {
        Some(d) => d,
        None => text::signed_decimal(ms as int),
    }
}

/// An entry on one line with the text of its time: the time, the engine, the
/// text and its translation, both shortened.
pub open spec fn entry_line(time: Seq<char>, e: EntryModel) -> Seq<char> {
    time + "  "@ + padded(e.engine, 7) + " "@ + shortened(e.text, 60) + " → "@ + shortened(
        e.translation,
        60,
    )
}

/// An entry on one line with the text of its time.
pub fn dated_entry(time: &str, e: &HistoryEntry) -> (r: String)
    ensures
        r@ == entry_line(time@, e.deep_view()),
{
    let mut r = text::cat(time, "  ");
    r.append(&pad(&e.engine, 7));
    r.append(" ");
    r.append(&shorten(&e.text, 60));
    r.append(" → ");
    r.append(&shorten(&e.translation, 60));
    r
}

/// The time of an entry: a date, else the bare number.
pub fn entry_time(date: Option<String>, ms: i64) -> (r: String)
    ensures
        r@ == time_text(date.deep_view(), ms),
{
    match date {
        Some(d) => d,
        None => text::signed_text(ms),
    }
}

/// An entry on one line.
pub fn format_entry(e: &HistoryEntry) -> (r: String)
    ensures
        r@ == entry_line(time_text(utc_text(e.ts_ms), e.ts_ms), e.deep_view()),
{
    let time = entry_time(utc(e.ts_ms), e.ts_ms);
    dated_entry(&time, e)
}

/// Whatever the entry, its line is bounded by the time and the engine.
pub proof fn law_entry_line_is_bounded(time: Seq<char>, e: EntryModel)
    ensures
        entry_line(time, e).len() <= time.len() + e.engine.len() + 135,
{
    reveal_strlit("  ");
    reveal_strlit(" ");
    reveal_strlit(" → ");
    law_shortened_length(e.text, 60);
    law_shortened_length(e.translation, 60);
}

/// A translation is recorded with its text, its engine, where it came from and
/// when; nothing is recorded where there is no translation.
pub proof fn law_recorded(t: TranslationModel, origin: Seq<char>, ts_ms: i64)
    ensures
        t.translation.len() == 0 ==> recorded(t, origin, ts_ms) is None,
        t.translation.len() > 0 ==> recorded(t, origin, ts_ms) is Some && ({
            let e = recorded(t, origin, ts_ms)->0;
            e.ts_ms == ts_ms && e.text == t.text && e.translation == t.translation && e.engine
                == t.engine && e.origin == origin
        }),
{
}

/// The line of an entry begins with its time and holds the engine, then the
/// text, then an arrow and the translation: short texts as they are, long ones
/// cut after sixty characters.
pub proof fn law_entry_line(time: Seq<char>, e: EntryModel)
    ensures
        e.engine.len() >= 7 && e.text.len() <= 60 && e.translation.len() <= 60 ==> entry_line(
            time,
            e,
        ) == time + "  "@ + e.engine + " "@ + e.text + " → "@ + e.translation,
        e.engine.len() == 6 && e.text.len() > 60 && e.translation.len() > 60 ==> entry_line(time, e)
            == time + "  "@ + e.engine.push(' ') + " "@ + e.text.take(60).push('…') + " → "@
            + e.translation.take(60).push('…'),
        e.engine.len() <= 7 ==> padded(e.engine, 7).len() == 7 && padded(e.engine, 7).take(
            e.engine.len() as int,
        ) == e.engine,
        forall|i: int|
            e.engine.len() <= i < padded(e.engine, 7).len() ==> #[trigger] padded(e.engine, 7)[i]
                == ' ',
{
    if e.engine.len() == 6 {
        assert(padded(e.engine, 7) =~= e.engine.push(' '));
    }
    if e.engine.len() <= 7 {
        assert(padded(e.engine, 7).take(e.engine.len() as int) =~= e.engine);
    }
}

/// A time that has a date is shown by it, any other by its number.
pub proof fn law_time_text(d: Seq<char>, ms: i64)
    ensures
        time_text(Some(d), ms) == d,
        time_text(None, ms) == text::signed_decimal(ms as int),
{
}

/// A thousand entries are kept.
pub proof fn law_kept_entries()
    ensures
        HISTORY_MAX_ROWS == 1000,
{
}

/// The history is the file `history.sqlite` below the place for data.
pub proof fn law_history_file(home: &str, r: String)
    requires
        call_ensures(history_path, (home,), r),
        home@.len() > 0,
        home@.last() != '/',
    ensures
        r@ == home@ + "/history.sqlite"@,
{
    reveal_strlit("history.sqlite");
    reveal_strlit("/history.sqlite");
    paths::law_below(home@, "history.sqlite"@);
    assert(home@ + seq!['/'] + "history.sqlite"@ =~= home@ + "/history.sqlite"@);
}

} // verus!
