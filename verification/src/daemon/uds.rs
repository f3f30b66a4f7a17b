//! The socket for windows: requests and replies, one JSON object on each line.

use crate::config;
use crate::daemon::handler;
use crate::daemon::handler::Shared;
use crate::daemon::status;
use crate::daemon::status::StatusResponse;
use crate::daemon::trigger::{OutcomeModel, TriggerOutcome};
use crate::dict::WordCard;
use crate::history;
use crate::history::HistoryEntry;
use crate::json;
use crate::json::Fields;
use crate::pipeline::{Translation, TranslationModel};
use crate::reading;
use crate::reading::Json;
use crate::text;
use crate::wire;
use vstd::prelude::*;

verus! {

/// A request. Of its parameters, those that are missing, or not of the expected
/// kind, are `None`.
#[derive(Debug, Clone, PartialEq)]
pub struct Request {
    pub id: i64,
    pub method: String,
    pub text: Option<String>,
    pub word: Option<String>,
    pub source: Option<String>,
    pub limit: Option<u64>,
}

/// What a [`Request`] says.
#[verifier::ext_equal]
pub struct RequestModel {
    pub id: i64,
    pub method: Seq<char>,
    pub text: Option<Seq<char>>,
    pub word: Option<Seq<char>>,
    pub source: Option<Seq<char>>,
    pub limit: Option<u64>,
}

impl DeepView for Request {
    type V = RequestModel;

    open spec fn deep_view(&self) -> RequestModel {
        RequestModel {
            id: self.id,
            method: self.method@,
            text: self.text.deep_view(),
            word: self.word.deep_view(),
            source: self.source.deep_view(),
            limit: self.limit,
        }
    }
}

// Replies

/// A reply with a result.
pub open spec fn ok_json(id: i64, result: Seq<char>) -> Seq<char> {
    json::object(
        Seq::empty() + seq![json::field("id"@, text::signed_decimal(id as int))] + seq![
            json::field("ok"@, json::bool_text(true)),
        ] + seq![json::field("result"@, result)],
    )
}

/// A reply with an error.
pub open spec fn err_json(id: i64, message: Seq<char>) -> Seq<char> {
    json::object(
        Seq::empty() + seq![json::field("id"@, text::signed_decimal(id as int))] + seq![
            json::field("ok"@, json::bool_text(false)),
        ] + seq![json::field("error"@, json::quoted(message))],
    )
}

/// A reply with a result that is JSON already.
pub fn ok_line(id: i64, result: &str) -> (r: String)
    ensures
        r@ == ok_json(id, result@),
{
    let mut f = Fields::new();
    f.put("id", &text::signed_text(id));
    f.put_bool("ok", true);
    f.put("result", result);
    f.finish()
}

/// A reply with an error.
pub fn err_line(id: i64, msg: &str) -> (r: String)
    ensures
        r@ == err_json(id, msg@),
{
    let mut f = Fields::new();
    f.put("id", &text::signed_text(id));
    f.put_bool("ok", false);
    f.put_text("error", msg);
    f.finish()
}

/// The reply to a line that is no request.
pub fn bad_request(why: &str) -> (r: String)
    ensures
        r@ == err_json(0, "bad request: "@ + why@),
{
    err_line(0, &text::cat("bad request: ", why))
}

// What a request asks for

/// What a request asks for.
#[derive(Debug, Clone, PartialEq)]
pub enum Job {
    /// This reply, and nothing else.
    Reply(String),
    /// The state of the daemon.
    Status,
    /// A translation of this.
    Translate(String),
    /// The card of this word.
    Lookup(String),
    /// A trigger with the selection, or with the clipboard.
    Trigger(bool),
    /// So many entries of the history.
    History(u32),
    /// The configuration is to be read again.
    Reload,
    /// Events are to be sent on this connection, in place of earlier ones.
    Subscribe,
}

/// What a [`Job`] says.
pub enum JobModel {
    Reply(Seq<char>),
    Status,
    Translate(Seq<char>),
    Lookup(Seq<char>),
    Trigger(bool),
    History(u32),
    Reload,
    Subscribe,
}

impl DeepView for Job {
    type V = JobModel;

    open spec fn deep_view(&self) -> JobModel {
        match self {
            Job::Reply(l) => JobModel::Reply(l@),
            Job::Status => JobModel::Status,
            Job::Translate(t) => JobModel::Translate(t@),
            Job::Lookup(w) => JobModel::Lookup(w@),
            Job::Trigger(s) => JobModel::Trigger(*s),
            Job::History(n) => JobModel::History(*n),
            Job::Reload => JobModel::Reload,
            Job::Subscribe => JobModel::Subscribe,
        }
    }
}

/// A parameter without white space at its ends; empty where it is missing.
pub open spec fn param(p: Option<Seq<char>>) -> Seq<char> {
    match p {
        Some(s) => text::trim(s),
        None => Seq::empty(),
    }
}

/// The result of a ping.
pub open spec fn version_json() -> Seq<char> {
    json::object(Seq::empty() + seq![json::field("version"@, json::quoted(crate::VERSION@))])
}

/// How many entries of the history are asked for, twenty where nothing is said.
pub open spec fn history_limit(limit: Option<u64>) -> u32 {
    match limit {
        Some(n) => n as u32,
        None => 20,
    }
}

/// What a request asks for, or why it is refused.
pub open spec fn job_for(r: RequestModel) -> JobModel {
    if r.method == "ping"@ {
        JobModel::Reply(ok_json(r.id, version_json()))
    } else if r.method == "status"@ {
        JobModel::Status
    } else if r.method == "translate"@ {
        if param(r.text).len() == 0 {
            JobModel::Reply(err_json(r.id, "empty text"@))
        } else {
            JobModel::Translate(param(r.text))
        }
    } else if r.method == "lookup"@ {
        if param(r.word).len() == 0 {
            JobModel::Reply(err_json(r.id, "empty word"@))
        } else {
            JobModel::Lookup(param(r.word))
        }
    } else if r.method == "trigger"@ {
        if r.source == Some("selection"@) {
            JobModel::Trigger(true)
        } else if r.source == Some("clipboard"@) {
            JobModel::Trigger(false)
        } else {
            JobModel::Reply(err_json(r.id, "source must be selection|clipboard"@))
        }
    } else if r.method == "history"@ {
        JobModel::History(history_limit(r.limit))
    } else if r.method == "reload"@ {
        JobModel::Reload
    } else if r.method == "subscribe"@ {
        JobModel::Subscribe
    } else {
        JobModel::Reply(
            err_json(r.id, "unknown method "@ + config::in_quotes(r.method)),
        )
    }
}

fn param_of(p: &Option<String>) -> (r: String)
    ensures
        r@ == param(p.deep_view()),
{
    match p {
        Some(s) => text::trimmed(s),
        None => {
            let none = String::new();
            assert(none@ =~= Seq::<char>::empty());
            none
        },
    }
}

fn is_source(source: &Option<String>, name: &str) -> (r: bool)
    ensures
        r == (source.deep_view() == Some(name@)),
{
    match source {
        Some(s) => text::same(s, name),
        None => false,
    }
}

/// What a request asks for, or why it is refused.
pub fn dispatch(req: &Request) -> (r: Job)
    ensures
        r.deep_view() == job_for(req.deep_view()),
{
    if text::same(&req.method, "ping") {
        let mut f = Fields::new();
        f.put_text("version", crate::VERSION);
        return Job::Reply(ok_line(req.id, &f.finish()));
    }
    if text::same(&req.method, "status") {
        return Job::Status;
    }
    if text::same(&req.method, "translate") {
        let t = param_of(&req.text);
        if text::empty(&t) {
            return Job::Reply(err_line(req.id, "empty text"));
        }
        return Job::Translate(t);
    }
    if text::same(&req.method, "lookup") {
        let w = param_of(&req.word);
        if text::empty(&w) {
            return Job::Reply(err_line(req.id, "empty word"));
        }
        return Job::Lookup(w);
    }
    if text::same(&req.method, "trigger") {
        if is_source(&req.source, "selection") {
            return Job::Trigger(true);
        }
        if is_source(&req.source, "clipboard") {
            return Job::Trigger(false);
        }
        return Job::Reply(err_line(req.id, "source must be selection|clipboard"));
    }
    if text::same(&req.method, "history") {
        let limit: u32 = match req.limit {
            Some(n) => #[verifier::truncate] (n as u32),
            None => 20,
        };
        return Job::History(limit);
    }
    if text::same(&req.method, "reload") {
        return Job::Reload;
    }
    if text::same(&req.method, "subscribe") {
        return Job::Subscribe;
    }
    let why = text::cat("unknown method ", &config::debug_of(&req.method));
    Job::Reply(err_line(req.id, &why))
}

// What is replied

/// The reply with the state of the daemon.
pub fn status_reply(id: i64, s: &StatusResponse) -> (r: String)
    ensures
        r@ == ok_json(id, status::status_json(s.deep_view())),
{
    ok_line(id, &s.line())
}

/// The reply with a translation. It counts as one, and is recorded as coming
/// from a window where there is anything to record.
pub fn translate_reply(shared: &mut Shared, id: i64, t: &Translation, ts_ms: i64) -> (r: (
    String,
    Option<HistoryEntry>,
))
    ensures
        r.0@ == ok_json(id, wire::translation_json(t.deep_view())),
        r.1.deep_view() == history::recorded(t.deep_view(), "gui"@, ts_ms),
        final(shared)@ == handler::counted(old(shared)@),
{
    handler::count_translation(shared);
    (ok_line(id, &wire::translation_line(t)), history::entry_for(t, "gui", ts_ms))
}

/// The reply with a card.
pub fn lookup_reply(id: i64, card: &WordCard) -> (r: String)
    ensures
        r@ == ok_json(id, wire::card_json(card.deep_view())),
{
    ok_line(id, &wire::card_line(card))
}

/// The reply to a trigger.
pub open spec fn triggered(id: i64, o: OutcomeModel) -> Seq<char> {
    match o {
        OutcomeModel::NoText => ok_json(
            id,
            json::object(
                Seq::empty() + seq![json::field("notified"@, json::bool_text(false))] + seq![
                    json::field("reason"@, json::quoted("no text available"@)),
                ],
            ),
        ),
        OutcomeModel::Handled { notified, translation } => ok_json(
            id,
            json::object(
                Seq::empty() + seq![json::field("notified"@, json::bool_text(notified))] + seq![
                    json::field("translation"@, wire::translation_json(translation)),
                ],
            ),
        ),
        OutcomeModel::Failed(why) => err_json(id, why),
    }
}

/// The reply to a trigger.
pub fn trigger_reply(id: i64, outcome: &TriggerOutcome) -> (r: String)
    ensures
        r@ == triggered(id, outcome.deep_view()),
{
    match outcome {
        TriggerOutcome::NoText => {
            let mut f = Fields::new();
            f.put_bool("notified", false);
            f.put_text("reason", "no text available");
            ok_line(id, &f.finish())
        },
        TriggerOutcome::Handled { notified, translation } => {
            let mut f = Fields::new();
            f.put_bool("notified", *notified);
            f.put("translation", &wire::translation_line(translation));
            ok_line(id, &f.finish())
        },
        TriggerOutcome::Failed(why) => err_line(id, why),
    }
}

/// The reply with entries of the history, where there is a history.
pub fn history_reply(id: i64, entries: &Option<Vec<HistoryEntry>>) -> (r: String)
    ensures
        r@ == (match entries {
            Some(l) => ok_json(id, wire::history_json(l.deep_view())),
            None => err_json(id, "history unavailable"@),
        }),
{
    match entries {
        Some(l) => ok_line(id, &wire::history_line(l)),
        None => err_line(id, "history unavailable"),
    }
}

/// The reply once the configuration was read again, or could not be: whether a
/// restart is needed for all of it to take effect.
pub fn reload_reply(id: i64, restart_required: Result<bool, String>) -> (r: String)
    ensures
        r@ == (match restart_required {
            Ok(b) => ok_json(
                id,
                json::object(
                    Seq::empty() + seq![json::field("restart_required"@, json::bool_text(b))],
                ),
            ),
            Err(why) => err_json(id, why@),
        }),
{
    match restart_required {
        Ok(b) => {
            let mut f = Fields::new();
            f.put_bool("restart_required", b);
            ok_line(id, &f.finish())
        },
        Err(why) => err_line(id, &why),
    }
}

/// The reply to a subscription.
pub fn subscribe_reply(id: i64) -> (r: String)
    ensures
        r@ == ok_json(id, json::object(Seq::empty())),
{
    let f = Fields::new();
    ok_line(id, &f.finish())
}

// The socket

/// What is done about a file where the socket is to be.
#[derive(Debug, Clone, PartialEq)]
pub enum SocketPlan {
    /// There is none.
    Bind,
    /// It is left over: remove it first.
    RemoveThenBind,
    /// A daemon is listening there.
    Refuse(String),
}

/// What a [`SocketPlan`] says.
pub enum SocketModel {
    Bind,
    RemoveThenBind,
    Refuse(Seq<char>),
}

impl DeepView for SocketPlan {
    type V = SocketModel;

    open spec fn deep_view(&self) -> SocketModel {
        match self {
            SocketPlan::Bind => SocketModel::Bind,
            SocketPlan::RemoveThenBind => SocketModel::RemoveThenBind,
            SocketPlan::Refuse(why) => SocketModel::Refuse(why@),
        }
    }
}

/// What is done about a file where the socket is to be: nobody listens at one
/// that is left over.
pub open spec fn planned(path: Seq<char>, present: bool, alive: bool) -> SocketModel {
    if !present {
        SocketModel::Bind
    } else if !alive {
        SocketModel::RemoveThenBind
    } else {
        SocketModel::Refuse("ipc socket "@ + path + " is owned by a running pardond"@)
    }
}

/// What is done about a file where the socket is to be.
pub fn socket_plan(path: &str, present: bool, alive: bool) -> (r: SocketPlan)
    ensures
        r.deep_view() == planned(path@, present, alive),
{
    if !present {
        SocketPlan::Bind
    } else if !alive {
        SocketPlan::RemoveThenBind
    } else {
        let mut why = text::cat("ipc socket ", path);
        why.append(" is owned by a running pardond");
        SocketPlan::Refuse(why)
    }
}

/// The directory to make for the socket, if any: one that is missing. The
/// permissions of one that is there stay as they are.
pub fn directory_to_make(path: &str, parent_exists: bool) -> (r: Option<String>)
    ensures
        r.deep_view() == (match crate::paths::parent_of(path@) {
            Some(d) => if d.len() > 0 && !parent_exists {
                Some(d)
            } else {
                None
            },
            None => None,
        }),
{
    match crate::paths::parent(path) {
        Some(d) => if !text::empty(&d) && !parent_exists {
            Some(d)
        } else {
            None
        },
        None => None,
    }
}

// Laws

proof fn lemma_id_is_one_line(id: i64)
    ensures
        json::one_line(text::signed_decimal(id as int)),
{
    if id < 0 {
        json::lemma_decimal_is_one_line((-id) as nat);
        json::lemma_one_line_cat(seq!['-'], text::decimal((-id) as nat));
    } else {
        json::lemma_decimal_is_one_line(id as nat);
    }
}

/// A reply is one line where its result is, and an error always is.
pub proof fn law_replies_are_one_line(id: i64, result: Seq<char>, message: Seq<char>)
    requires
        json::one_line(result),
    ensures
        json::one_line(ok_json(id, result)),
        json::one_line(err_json(id, message)),
{
    broadcast use json::group_one_line;

    lemma_id_is_one_line(id);
}

/// Every request is answered by its own number, or carried out: a reply that is
/// given at once is one line.
pub proof fn law_immediate_reply_is_one_line(r: RequestModel)
    requires
        job_for(r) is Reply,
    ensures
        json::one_line(job_for(r)->Reply_0),
{
    broadcast use json::group_one_line;

    lemma_id_is_one_line(r.id);
    assert(json::one_line(version_json()));
}

/// A reply to a trigger is one line.
pub proof fn law_trigger_reply_is_one_line(id: i64, o: OutcomeModel)
    ensures
        json::one_line(triggered(id, o)),
{
    broadcast use json::group_one_line;

    lemma_id_is_one_line(id);
    match o {
        OutcomeModel::Handled { notified, translation } => {
            wire::law_translation_is_one_line(translation);
        },
        _ => {},
    }
}

/// A reader of JSON finds in a reply the `id` of its request, whether it went
/// well, and the result or the error.
pub proof fn law_replies_read(id: i64, result: Seq<char>, j: Json, message: Seq<char>)
    requires
        reading::means(result, j),
    ensures
        reading::read(ok_json(id, result)) == Some(
            Json::Object(
                seq![("id"@, Json::Number(id as int)), ("ok"@, Json::Bool(true)), ("result"@, j)],
            ),
        ),
        reading::read(err_json(id, message)) == Some(
            Json::Object(
                seq![
                    ("id"@, Json::Number(id as int)),
                    ("ok"@, Json::Bool(false)),
                    ("error"@, Json::Text(message)),
                ],
            ),
        ),
{
    broadcast use reading::lemma_more_members;

    reading::lemma_no_members();
    reading::lemma_number(id as int);
    reading::lemma_member("id"@, text::signed_decimal(id as int), Json::Number(id as int));
    reading::lemma_bool_member("ok"@, true);
    reading::lemma_member("result"@, result, j);
    let ok_fields = Seq::empty()
        + seq![json::field("id"@, text::signed_decimal(id as int))]
        + seq![json::field("ok"@, json::bool_text(true))]
        + seq![json::field("result"@, result)];
    let ok_members = Seq::<(Seq<char>, Json)>::empty()
        + seq![("id"@, Json::Number(id as int))]
        + seq![("ok"@, Json::Bool(true))]
        + seq![("result"@, j)];
    assert(reading::members_mean(ok_fields, ok_members));
    reading::lemma_object(ok_fields, ok_members);
    reading::lemma_reads(ok_json(id, result), Json::Object(ok_members));
    assert(ok_members =~= seq![
        ("id"@, Json::Number(id as int)),
        ("ok"@, Json::Bool(true)),
        ("result"@, j),
    ]);
    reading::lemma_member("id"@, text::signed_decimal(id as int), Json::Number(id as int));
    reading::lemma_bool_member("ok"@, false);
    reading::lemma_text_member("error"@, message);
    let err_fields = Seq::empty()
        + seq![json::field("id"@, text::signed_decimal(id as int))]
        + seq![json::field("ok"@, json::bool_text(false))]
        + seq![json::field("error"@, json::quoted(message))];
    let err_members = Seq::<(Seq<char>, Json)>::empty()
        + seq![("id"@, Json::Number(id as int))]
        + seq![("ok"@, Json::Bool(false))]
        + seq![("error"@, Json::Text(message))];
    assert(reading::members_mean(err_fields, err_members));
    reading::lemma_object(err_fields, err_members);
    reading::lemma_reads(err_json(id, message), Json::Object(err_members));
    assert(err_members =~= seq![
        ("id"@, Json::Number(id as int)),
        ("ok"@, Json::Bool(false)),
        ("error"@, Json::Text(message)),
    ]);
}

/// A request asks for what its method names: the state, a translation of its
/// text, the card of its word, a trigger with its source, its number of entries
/// of the history (twenty where it gives none), the configuration to be read
/// again, or events. A blank text or word, another source and another method are
/// refused with a reason, under the `id` of the request.
pub proof fn law_methods(r: RequestModel)
    ensures
        r.method == "status"@ ==> job_for(r) is Status,
        r.method == "reload"@ ==> job_for(r) is Reload,
        r.method == "subscribe"@ ==> job_for(r) is Subscribe,
        r.method == "translate"@ && r.text is Some && text::trim(r.text->0).len() > 0 ==> job_for(r)
            == JobModel::Translate(text::trim(r.text->0)),
        r.method == "translate"@ && (r.text is None || text::trim(r.text->0).len() == 0)
            ==> job_for(r) == JobModel::Reply(err_json(r.id, "empty text"@)),
        r.method == "lookup"@ && r.word is Some && text::trim(r.word->0).len() > 0 ==> job_for(r)
            == JobModel::Lookup(text::trim(r.word->0)),
        r.method == "lookup"@ && (r.word is None || text::trim(r.word->0).len() == 0) ==> job_for(
            r,
        ) == JobModel::Reply(err_json(r.id, "empty word"@)),
        r.method == "trigger"@ && r.source == Some("selection"@) ==> job_for(r)
            == JobModel::Trigger(true),
        r.method == "trigger"@ && r.source == Some("clipboard"@) ==> job_for(r)
            == JobModel::Trigger(false),
        r.method == "trigger"@ && r.source != Some("selection"@) && r.source != Some("clipboard"@)
            ==> job_for(r) == JobModel::Reply(
            err_json(r.id, "source must be selection|clipboard"@),
        ),
        r.method == "history"@ && r.limit is None ==> job_for(r) == JobModel::History(20),
        r.method == "history"@ && r.limit is Some && r.limit->0 <= u32::MAX ==> job_for(r)
            == JobModel::History(r.limit->0 as u32),
        r.method == "ping"@ ==> job_for(r) is Reply && reading::read(job_for(r)->Reply_0) == Some(
            Json::Object(
                seq![
                    ("id"@, Json::Number(r.id as int)),
                    ("ok"@, Json::Bool(true)),
                    ("result"@, Json::Object(seq![("version"@, Json::Text("0.1.0"@))])),
                ],
            ),
        ),
        r.method != "ping"@ && r.method != "status"@ && r.method != "translate"@ && r.method
            != "lookup"@ && r.method != "trigger"@ && r.method != "history"@ && r.method
            != "reload"@ && r.method != "subscribe"@ ==> job_for(r) is Reply && reading::read(
            job_for(r)->Reply_0,
        ) == Some(
            Json::Object(
                seq![
                    ("id"@, Json::Number(r.id as int)),
                    ("ok"@, Json::Bool(false)),
                    ("error"@, Json::Text("unknown method "@ + config::in_quotes(r.method))),
                ],
            ),
        ),
{
    broadcast use reading::lemma_more_members;

    lemma_method_names();
    reading::lemma_no_members();
    reading::lemma_text_member("version"@, "0.1.0"@);
    let v_fields = Seq::empty()
        + seq![json::field("version"@, json::quoted("0.1.0"@))];
    let v_members = Seq::<(Seq<char>, Json)>::empty()
        + seq![("version"@, Json::Text("0.1.0"@))];
    assert(reading::members_mean(v_fields, v_members));
    reading::lemma_object(v_fields, v_members);
    assert(v_members =~= seq![("version"@, Json::Text("0.1.0"@))]);
    law_replies_read(
        r.id,
        version_json(),
        Json::Object(v_members),
        "unknown method "@ + config::in_quotes(r.method),
    );
}

proof fn lemma_method_names()
    ensures
        "ping"@[0] == 'p',
        "status"@.len() == 6 && "status"@[1] == 't',
        "translate"@.len() == 9 && "translate"@[0] == 't',
        "lookup"@.len() == 6 && "lookup"@[1] == 'o',
        "trigger"@.len() == 7 && "trigger"@[0] == 't',
        "history"@.len() == 7 && "history"@[0] == 'h',
        "reload"@.len() == 6 && "reload"@[1] == 'e',
        "subscribe"@.len() == 9 && "subscribe"@[0] == 's',
        "selection"@[0] == 's',
        "clipboard"@[0] == 'c',
        "ping"@.len() == 4,
{
    reveal_strlit("ping");
    reveal_strlit("status");
    reveal_strlit("translate");
    reveal_strlit("lookup");
    reveal_strlit("trigger");
    reveal_strlit("history");
    reveal_strlit("reload");
    reveal_strlit("subscribe");
    reveal_strlit("selection");
    reveal_strlit("clipboard");
}

/// The reply to a trigger says that there was no text, or gives the translation
/// and whether it was shown, or is an error with the reason.
pub proof fn law_trigger_replies(id: i64, notified: bool, t: TranslationModel, why: Seq<char>)
    ensures
        reading::read(triggered(id, OutcomeModel::NoText)) == Some(
            Json::Object(
                seq![
                    ("id"@, Json::Number(id as int)),
                    ("ok"@, Json::Bool(true)),
                    (
                        "result"@,
                        Json::Object(
                            seq![
                                ("notified"@, Json::Bool(false)),
                                ("reason"@, Json::Text("no text available"@)),
                            ],
                        ),
                    ),
                ],
            ),
        ),
        reading::read(triggered(id, OutcomeModel::Handled { notified, translation: t })) == Some(
            Json::Object(
                seq![
                    ("id"@, Json::Number(id as int)),
                    ("ok"@, Json::Bool(true)),
                    (
                        "result"@,
                        Json::Object(
                            seq![
                                ("notified"@, Json::Bool(notified)),
                                ("translation"@, reading::read(wire::translation_json(t))->0),
                            ],
                        ),
                    ),
                ],
            ),
        ),
        triggered(id, OutcomeModel::Failed(why)) == err_json(id, why),
{
    wire::law_translation_reads(t);
    lemma_untriggered(id);
    lemma_triggered(id, notified, t, reading::read(wire::translation_json(t))->0);
}

proof fn lemma_untriggered(id: i64)
    ensures
        reading::read(triggered(id, OutcomeModel::NoText)) == Some(
            Json::Object(
                seq![
                    ("id"@, Json::Number(id as int)),
                    ("ok"@, Json::Bool(true)),
                    (
                        "result"@,
                        Json::Object(
                            seq![
                                ("notified"@, Json::Bool(false)),
                                ("reason"@, Json::Text("no text available"@)),
                            ],
                        ),
                    ),
                ],
            ),
        ),
{
    broadcast use reading::lemma_more_members;

    reading::lemma_no_members();
    reading::lemma_bool_member("notified"@, false);
    reading::lemma_text_member("reason"@, "no text available"@);
    let all_fields = Seq::empty()
        + seq![json::field("notified"@, json::bool_text(false))]
        + seq![json::field("reason"@, json::quoted("no text available"@))];
    let all_members = Seq::<(Seq<char>, Json)>::empty()
        + seq![("notified"@, Json::Bool(false))]
        + seq![("reason"@, Json::Text("no text available"@))];
    assert(reading::members_mean(all_fields, all_members));
    reading::lemma_object(all_fields, all_members);
    assert(all_members =~= seq![
        ("notified"@, Json::Bool(false)),
        ("reason"@, Json::Text("no text available"@)),
    ]);
    law_replies_read(id, json::object(all_fields), Json::Object(all_members), Seq::empty());
}

proof fn lemma_triggered(id: i64, notified: bool, t: TranslationModel, told: Json)
    requires
        reading::means(wire::translation_json(t), told),
    ensures
        reading::read(triggered(id, OutcomeModel::Handled { notified, translation: t })) == Some(
            Json::Object(
                seq![
                    ("id"@, Json::Number(id as int)),
                    ("ok"@, Json::Bool(true)),
                    (
                        "result"@,
                        Json::Object(
                            seq![("notified"@, Json::Bool(notified)), ("translation"@, told)],
                        ),
                    ),
                ],
            ),
        ),
{
    broadcast use reading::lemma_more_members;

    reading::lemma_no_members();
    reading::lemma_bool_member("notified"@, notified);
    reading::lemma_member("translation"@, wire::translation_json(t), told);
    let all_fields = Seq::empty()
        + seq![json::field("notified"@, json::bool_text(notified))]
        + seq![json::field("translation"@, wire::translation_json(t))];
    let all_members = Seq::<(Seq<char>, Json)>::empty()
        + seq![("notified"@, Json::Bool(notified))]
        + seq![("translation"@, told)];
    assert(reading::members_mean(all_fields, all_members));
    reading::lemma_object(all_fields, all_members);
    assert(all_members =~= seq![("notified"@, Json::Bool(notified)), ("translation"@, told)]);
    law_replies_read(id, json::object(all_fields), Json::Object(all_members), Seq::empty());
}

/// A reply with entries of the history is a reply with just those, and an error
/// where there is no history; a line that is no request is answered under zero;
/// whether a restart is needed is told as it is; and a subscription is confirmed
/// with an empty object.
pub proof fn law_results(
    id: i64,
    why: &str,
    bad: String,
    entries: &Option<Vec<HistoryEntry>>,
    kept: String,
    restart: Result<bool, String>,
    again: String,
    open: String,
)
    requires
        call_ensures(bad_request, (why,), bad),
        call_ensures(history_reply, (id, entries), kept),
        call_ensures(reload_reply, (id, restart), again),
        call_ensures(subscribe_reply, (id,), open),
    ensures
        bad@ == err_json(0, "bad request: "@ + why@),
        entries is None ==> kept@ == err_json(id, "history unavailable"@),
        entries is Some ==> kept@ == ok_json(id, wire::history_json(entries->0.deep_view())),
        restart is Ok ==> reading::read(again@) == Some(
            Json::Object(
                seq![
                    ("id"@, Json::Number(id as int)),
                    ("ok"@, Json::Bool(true)),
                    (
                        "result"@,
                        Json::Object(seq![("restart_required"@, Json::Bool(restart->Ok_0))]),
                    ),
                ],
            ),
        ),
        restart is Err ==> again@ == err_json(id, restart->Err_0@),
        open@ == ok_json(id, "{}"@),
{
    broadcast use reading::lemma_more_members;

    reading::lemma_no_members();
    if restart is Ok {
        let b = restart->Ok_0;
        reading::lemma_bool_member("restart_required"@, b);
        let b_fields = Seq::empty()
            + seq![json::field("restart_required"@, json::bool_text(b))];
        let b_members = Seq::<(Seq<char>, Json)>::empty()
            + seq![("restart_required"@, Json::Bool(b))];
        assert(reading::members_mean(b_fields, b_members));
        reading::lemma_object(b_fields, b_members);
        assert(b_members =~= seq![("restart_required"@, Json::Bool(b))]);
        law_replies_read(id, json::object(b_fields), Json::Object(b_members), Seq::empty());
    }
    reveal_strlit("{}");
    reveal_strlit("{");
    reveal_strlit("}");
    assert(json::object(Seq::empty()) =~= "{}"@);
}

/// A socket that is not there is made; one where nobody listens is removed first;
/// one where somebody listens is refused, and the message names it. A directory
/// is made only where it is missing and has a name.
pub proof fn law_socket_plan(path: &str, parent_exists: bool, r: Option<String>)
    requires
        call_ensures(directory_to_make, (path, parent_exists), r),
    ensures
        planned(path@, false, true) is Bind,
        planned(path@, false, false) is Bind,
        planned(path@, true, false) is RemoveThenBind,
        planned(path@, true, true) == SocketModel::Refuse(
            "ipc socket "@ + path@ + " is owned by a running pardond"@,
        ),
        parent_exists ==> r is None,
        r is Some ==> Some(r->0@) == crate::paths::parent_of(path@) && r->0@.len() > 0,
        !parent_exists && crate::paths::parent_of(path@) is Some && crate::paths::parent_of(
            path@,
        )->0.len() > 0 ==> r is Some,
{
    assert(r is Some ==> r.deep_view() == Some(r->0@));
    assert(r is None ==> r.deep_view() is None);
}

/// The reply with a translation is that translation, which counts as one and is
/// recorded as coming from a window; the replies with a card and with a state
/// are just that.
pub proof fn law_translation_replies(
    shared: &mut Shared,
    id: i64,
    t: &Translation,
    ts_ms: i64,
    r: (String, Option<HistoryEntry>),
    card: &WordCard,
    found: String,
    s: &StatusResponse,
    state: String,
)
    requires
        call_ensures(translate_reply, (shared, id, t, ts_ms), r),
        call_ensures(lookup_reply, (id, card), found),
        call_ensures(status_reply, (id, s), state),
    ensures
        r.0@ == ok_json(id, wire::translation_json(t.deep_view())),
        r.1 is Some ==> r.1->0.origin@ == "gui"@ && r.1->0.ts_ms == ts_ms && r.1->0.text@
            == t.text@,
        found@ == ok_json(id, wire::card_json(card.deep_view())),
        state@ == ok_json(id, status::status_json(s.deep_view())),
{
    history::law_recorded(t.deep_view(), "gui"@, ts_ms);
    if r.1 is Some {
        assert(r.1.deep_view() == Some(r.1->0.deep_view()));
        assert(r.1->0.deep_view().origin == r.1->0.origin@);
        assert(r.1->0.deep_view().text == r.1->0.text@);
        assert(r.1->0.deep_view().ts_ms == r.1->0.ts_ms);
    }
}

} // verus!
