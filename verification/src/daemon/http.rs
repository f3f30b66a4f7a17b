//! The trigger over HTTP: what is answered to whom.

use crate::daemon::handler::{HandleResult, ResultModel, Shared};
use crate::daemon::handler;
use crate::daemon::trigger::TriggerOutcome;
use crate::json;
use crate::json::Fields;
use crate::pipeline::{Translation, TranslationModel};
use crate::reading;
use crate::reading::Json;
use crate::text;
use crate::wire;
use vstd::prelude::*;

verus! {

/// An answer: a status and a body of JSON.
#[derive(Debug, Clone, PartialEq)]
pub struct HttpReply {
    pub status: u16,
    pub body: String,
}

/// Whether a reply has this status and this body.
pub open spec fn replies(r: HttpReply, status: int, body: Seq<char>) -> bool {
    r.status == status && r.body@ == body
}

/// The body of an error.
pub open spec fn error_json(message: Seq<char>) -> Seq<char> {
    json::object(Seq::empty() + seq![json::field("error"@, json::quoted(message))])
}

fn err_json(status: u16, message: &str) -> (r: HttpReply)
    ensures
        replies(r, status as int, error_json(message@)),
{
    let mut f = Fields::new();
    f.put_text("error", message);
    HttpReply { status, body: f.finish() }
}

/// The text to translate, or the answer to a blank one.
pub fn translate_text(body_text: &str) -> (r: Result<String, HttpReply>)
    ensures
        match r {
            Ok(t) => t@ == text::trim(body_text@) && t@.len() > 0,
            Err(reply) => text::trim(body_text@).len() == 0 && replies(
                reply,
                400,
                error_json("empty text"@),
            ),
        },
{
    let t = text::trimmed(body_text);
    if text::empty(&t) {
        Err(err_json(400, "empty text"))
    } else {
        Ok(t)
    }
}

/// The answer to a text that was translated, which counts as a translation.
pub fn translated(shared: &mut Shared, t: &Translation) -> (r: HttpReply)
    ensures
        replies(r, 200, wire::translation_json(t.deep_view())),
        final(shared)@ == handler::counted(old(shared)@),
{
    handler::count_translation(shared);
    HttpReply { status: 200, body: wire::translation_line(t) }
}

/// What a trigger answers: what is missing is left out.
pub open spec fn trigger_json(
    notified: bool,
    reason: Option<Seq<char>>,
    t: Option<TranslationModel>,
) -> Seq<char> {
    json::object(
        Seq::empty() + seq![json::field("notified"@, json::bool_text(notified))]
            + json::some_field("reason"@, json::quoted_opt(reason)) + json::some_field(
            "translation"@,
            match t {
                Some(t) => Some(wire::translation_json(t)),
                None => None,
            },
        ),
    )
}

fn trigger_reply(notified: bool, reason: &Option<String>, t: Option<&Translation>) -> (r: HttpReply)
    ensures
        replies(
            r,
            200,
            trigger_json(
                notified,
                reason.deep_view(),
                match t {
                    Some(t) => Some(t.deep_view()),
                    None => None,
                },
            ),
        ),
{
    let mut f = Fields::new();
    f.put_bool("notified", notified);
    f.put_opt("reason", reason);
    match t {
        Some(t) => f.put("translation", &wire::translation_line(t)),
        None => {
            assert(f@ + Seq::<Seq<char>>::empty() =~= f@);
        },
    }
    HttpReply { status: 200, body: f.finish() }
}

/// The answer where the clipboard could not be read: there is no text, or the
/// service is unavailable.
pub fn unreadable(message: &str) -> (r: HttpReply)
    ensures
        if crate::daemon::trigger::means_no_text(text::lowercase(message@)) {
            replies(r, 200, trigger_json(false, Some("no text available"@), None))
        } else {
            replies(r, 503, error_json(message@))
        },
{
    match crate::daemon::trigger::read_failed(message) {
        TriggerOutcome::NoText => trigger_reply(
            false,
            &Some(text::copy("no text available")),
            None,
        ),
        _ => err_json(503, message),
    }
}

/// The answer once the text was handled, or left alone for a reason.
pub open spec fn handled_json(r: ResultModel) -> Seq<char> {
    match r {
        ResultModel::Handled { translation, notified } => trigger_json(
            notified,
            None,
            Some(translation),
        ),
        ResultModel::Skipped(why) => trigger_json(false, Some(why), None),
    }
}

/// The answer once the text was handled.
pub fn handled(result: &HandleResult) -> (r: HttpReply)
    ensures
        replies(r, 200, handled_json(result.deep_view())),
{
    match result {
        HandleResult::Handled { translation, notified } => trigger_reply(
            *notified,
            &None,
            Some(translation),
        ),
        HandleResult::Skipped(why) => trigger_reply(false, &Some(text::copy(why)), None),
    }
}

/// The answer to a request to stop.
pub fn shutting_down() -> (r: HttpReply)
    ensures
        replies(
            r,
            200,
            json::object(
                Seq::empty() + seq![json::field("status"@, json::quoted("shutting down"@))],
            ),
        ),
{
    let mut f = Fields::new();
    f.put_text("status", "shutting down");
    HttpReply { status: 200, body: f.finish() }
}

proof fn lemma_error_reads(message: Seq<char>)
    ensures
        reading::read(error_json(message)) == Some(
            Json::Object(seq![("error"@, Json::Text(message))]),
        ),
{
    broadcast use reading::lemma_more_members;

    reading::lemma_no_members();
    reading::lemma_text_member("error"@, message);
    let all_fields = Seq::empty()
        + seq![json::field("error"@, json::quoted(message))];
    let all_members = Seq::<(Seq<char>, Json)>::empty()
        + seq![("error"@, Json::Text(message))];
    assert(reading::members_mean(all_fields, all_members));
    reading::lemma_object(all_fields, all_members);
    reading::lemma_reads(error_json(message), Json::Object(all_members));
    assert(all_members =~= seq![("error"@, Json::Text(message))]);
}

/// A blank text is answered with status 400 and an error that says so; any other
/// is taken without the white space at its ends. A translation is answered with
/// status 200, and counted.
pub proof fn law_translate_replies(body_text: &str, r: Result<String, HttpReply>)
    requires
        call_ensures(translate_text, (body_text,), r),
    ensures
        text::trim(body_text@).len() == 0 <==> r is Err,
        r is Ok ==> r->Ok_0@ == text::trim(body_text@),
        r is Err ==> r->Err_0.status == 400 && reading::read(r->Err_0.body@) == Some(
            Json::Object(seq![("error"@, Json::Text("empty text"@))]),
        ),
{
    lemma_error_reads("empty text"@);
}

/// A clipboard that cannot be read is answered with status 503 and the message as
/// an error, unless the message says that there is no text: then with status 200,
/// that nothing was shown, and why.
pub proof fn law_unreadable_replies(message: &str, r: HttpReply)
    requires
        call_ensures(unreadable, (message,), r),
    ensures
        crate::daemon::trigger::means_no_text(text::lowercase(message@)) ==> r.status == 200
            && reading::read(r.body@) == Some(
            Json::Object(
                seq![
                    ("notified"@, Json::Bool(false)),
                    ("reason"@, Json::Text("no text available"@)),
                ],
            ),
        ),
        !crate::daemon::trigger::means_no_text(text::lowercase(message@)) ==> r.status == 503
            && reading::read(r.body@) == Some(
            Json::Object(seq![("error"@, Json::Text(message@))]),
        ),
{
    lemma_error_reads(message@);
    lemma_trigger_reads(false, Some("no text available"@), None);
}

proof fn lemma_trigger_reads(notified: bool, reason: Option<Seq<char>>, t: Option<TranslationModel>)
    ensures
        ({
            let told = match t {
                Some(t) => Some(reading::read(wire::translation_json(t))->0),
                None => None,
            };
            let members = seq![("notified"@, Json::Bool(notified))] + reading::some_member(
                "reason"@,
                reading::text_opt(reason),
            ) + reading::some_member("translation"@, told);
            &&& reading::read(trigger_json(notified, reason, t)) == Some(Json::Object(members))
            &&& reason is Some && t is None ==> members == seq![
                ("notified"@, Json::Bool(notified)),
                ("reason"@, Json::Text(reason->0)),
            ]
            &&& reason is None && t is Some ==> members == seq![
                ("notified"@, Json::Bool(notified)),
                ("translation"@, told->0),
            ]
        }),
{
    broadcast use reading::lemma_more_members;

    let line = match t {
        Some(t) => Some(wire::translation_json(t)),
        None => None,
    };
    let told = match t {
        Some(t) => Some(reading::read(wire::translation_json(t))->0),
        None => None,
    };
    if t is Some {
        wire::law_translation_reads(t->0);
    }
    reading::lemma_no_members();
    reading::lemma_bool_member("notified"@, notified);
    reading::lemma_text_opt_member("reason"@, reason);
    reading::lemma_some_member("translation"@, line, told);
    let all_fields = Seq::empty()
        + seq![json::field("notified"@, json::bool_text(notified))]
        + json::some_field("reason"@, json::quoted_opt(reason))
        + json::some_field("translation"@, line);
    let all_members = Seq::<(Seq<char>, Json)>::empty()
        + seq![("notified"@, Json::Bool(notified))]
        + reading::some_member("reason"@, reading::text_opt(reason))
        + reading::some_member("translation"@, told);
    assert(reading::members_mean(all_fields, all_members));
    reading::lemma_object(all_fields, all_members);
    reading::lemma_reads(trigger_json(notified, reason, t), Json::Object(all_members));
    assert(Seq::<(Seq<char>, Json)>::empty() + seq![("notified"@, Json::Bool(notified))]
        =~= seq![("notified"@, Json::Bool(notified))]);
    assert(reason is Some && t is None ==> all_members =~= seq![
        ("notified"@, Json::Bool(notified)),
        ("reason"@, Json::Text(reason->0)),
    ]);
    assert(reason is None && t is Some ==> all_members =~= seq![
        ("notified"@, Json::Bool(notified)),
        ("translation"@, told->0),
    ]);
}

/// A text that was handled is answered with its translation and whether it was
/// shown; one that was left alone with the reason, and that nothing was shown.
/// Either has status 200, and so has a request to stop.
pub proof fn law_handled_replies(result: &HandleResult, r: HttpReply, stop: HttpReply)
    requires
        call_ensures(handled, (result,), r),
        call_ensures(shutting_down, (), stop),
    ensures
        r.status == 200,
        match result.deep_view() {
            ResultModel::Handled { translation, notified } => reading::read(r.body@) == Some(
                Json::Object(
                    seq![
                        ("notified"@, Json::Bool(notified)),
                        ("translation"@, reading::read(wire::translation_json(translation))->0),
                    ],
                ),
            ),
            ResultModel::Skipped(why) => reading::read(r.body@) == Some(
                Json::Object(
                    seq![("notified"@, Json::Bool(false)), ("reason"@, Json::Text(why))],
                ),
            ),
        },
        stop.status == 200,
        reading::read(stop.body@) == Some(
            Json::Object(seq![("status"@, Json::Text("shutting down"@))]),
        ),
{
    broadcast use reading::lemma_more_members;

    match result.deep_view() {
        ResultModel::Handled { translation, notified } => lemma_trigger_reads(
            notified,
            None,
            Some(translation),
        ),
        ResultModel::Skipped(why) => lemma_trigger_reads(false, Some(why), None),
    }
    reading::lemma_no_members();
    reading::lemma_text_member("status"@, "shutting down"@);
    let all_fields = Seq::empty()
        + seq![json::field("status"@, json::quoted("shutting down"@))];
    let all_members = Seq::<(Seq<char>, Json)>::empty()
        + seq![("status"@, Json::Text("shutting down"@))];
    assert(reading::members_mean(all_fields, all_members));
    reading::lemma_object(all_fields, all_members);
    reading::lemma_reads(json::object(all_fields), Json::Object(all_members));
    assert(all_members =~= seq![("status"@, Json::Text("shutting down"@))]);
}

} // verus!
