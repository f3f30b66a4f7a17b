//! The Anthropic Messages API: its request body, its reply, and the events of
//! its stream.

use crate::engine::openai::EndpointModel;
use crate::engine::prompt;
use crate::engine::{body_of, no_params, outcome, parse_error, push_param};
use crate::engine::{Accumulator, EngineError, ErrorModel, HttpModel, HttpRequest, Method, Reply};
use crate::engine::{RequestModel, TranslateRequest};
use crate::json;
use crate::json::Fields;
use crate::lang::Lang;
use crate::reading;
use crate::reading::Json;
use crate::text;
use vstd::prelude::*;

verus! {

/// An endpoint and the model to use there.
#[derive(Debug, Clone, PartialEq)]
pub struct AnthropicConfig {
    pub id: String,
    pub base_url: String,
    pub api_key: String,
    pub model: String,
    pub system_prompt: Option<String>,
    pub user_prompt_template: Option<String>,
}

impl DeepView for AnthropicConfig {
    type V = EndpointModel;

    open spec fn deep_view(&self) -> EndpointModel {
        EndpointModel {
            id: self.id@,
            base_url: self.base_url@,
            api_key: self.api_key@,
            model: self.model@,
            system_prompt: self.system_prompt.deep_view(),
            user_prompt_template: self.user_prompt_template.deep_view(),
        }
    }
}

/// The body of a request.
pub open spec fn body_for(c: EndpointModel, req: RequestModel, stream: bool) -> Seq<char> {
    let (system, user) = prompt::prompts_for(c.system_prompt, c.user_prompt_template, req);
    let message = json::object(
        Seq::empty() + seq![json::field("role"@, json::quoted("user"@))] + seq![
            json::field("content"@, json::quoted(user)),
        ],
    );
    let fields = Seq::empty() + seq![json::field("model"@, json::quoted(c.model))] + seq![
        json::field("max_tokens"@, text::decimal(4096)),
    ] + seq![json::field("system"@, json::quoted(system))] + seq![
        json::field("messages"@, json::array(seq![message])),
    ];
    if stream {
        json::object(fields + seq![json::field("stream"@, json::bool_text(true))])
    } else {
        json::object(fields)
    }
}

/// A request.
pub open spec fn request_for(c: EndpointModel, req: RequestModel, stream: bool) -> HttpModel {
    HttpModel {
        method: Method::Post,
        url: c.base_url + "/v1/messages"@,
        query: Seq::empty(),
        headers: Seq::empty().push(("x-api-key"@, c.api_key)).push(
            ("anthropic-version"@, "2023-06-01"@),
        ),
        body: Some(body_for(c, req, stream)),
    }
}

impl AnthropicConfig {
    /// The body of a request.
    pub fn body(&self, req: &TranslateRequest, stream: bool) -> (r: String)
        ensures
            r@ == body_for(self.deep_view(), req.deep_view(), stream),
    {
        let (system, user) = prompt::prompts(
            &self.system_prompt,
            &self.user_prompt_template,
            req,
        );
        let mut message = Fields::new();
        message.put_text("role", "user");
        message.put_text("content", &user);
        let mut messages: Vec<String> = Vec::new();
        let m = message.finish();
        let ghost text = m@;
        messages.push(m);
        assert(messages.deep_view() =~= seq![text]);
        let mut fields = Fields::new();
        fields.put_text("model", &self.model);
        fields.put_number("max_tokens", 4096);
        fields.put_text("system", &system);
        fields.put("messages", &json::array_of(&messages));
        if stream {
            fields.put_bool("stream", true);
        }
        fields.finish()
    }

    /// A request, for a whole reply or for a stream of events.
    pub fn request(&self, req: &TranslateRequest, stream: bool) -> (r: HttpRequest)
        ensures
            r.deep_view() == request_for(self.deep_view(), req.deep_view(), stream),
    {
        let mut headers = no_params();
        push_param(&mut headers, "x-api-key", &self.api_key);
        push_param(&mut headers, "anthropic-version", "2023-06-01");
        HttpRequest {
            method: Method::Post,
            url: text::cat(&self.base_url, "/v1/messages"),
            query: no_params(),
            headers,
            body: Some(self.body(req, stream)),
        }
    }
}

// Replies

/// What `serde_json` finds in `data` at `key`, there at `index`, there at
/// `inner`: nothing where `data` is not JSON, else the text, if one stands there.
pub uninterp spec fn text_within(
    data: Seq<u8>,
    key: Seq<char>,
    index: usize,
    inner: Seq<char>,
) -> Option<Option<Seq<char>>>;

/// `serde_json::from_slice` to a `serde_json::Value`, and of that value the
/// string at `[key][index][inner]`, if one stands there. What is found depends
/// on the data and the path alone.
#[verifier::external_body]
fn read_text_within(data: &[u8], key: &str, index: usize, inner: &str) -> (r: Option<
    Option<String>,
>)
    ensures
        r.deep_view() == text_within(data@, key@, index, inner@),
{
    serde_json::from_slice::<serde_json::Value>(data).ok().map(
        |v| v[key][index][inner].as_str().map(String::from),
    )
}

/// What stands at `content[0].text` in a reply.
pub open spec fn content_in(data: Seq<u8>) -> Option<Option<Seq<char>>> {
    text_within(data, "content"@, 0, "text"@)
}

/// The translation in what stands at `content[0].text`.
pub open spec fn translation_in(content: Option<Option<Seq<char>>>) -> Result<
    Seq<char>,
    ErrorModel,
> {
    match content {
        None => Err(ErrorModel::Parse("error decoding response body"@)),
        Some(None) => Err(ErrorModel::Parse("no text in content[0]"@)),
        Some(Some(t)) => if t.len() == 0 {
            Err(ErrorModel::Parse("no text in content[0]"@))
        } else {
            Ok(t)
        },
    }
}

/// The translation in a reply.
pub open spec fn answer_for(reply: Reply<Vec<u8>>) -> Result<Seq<char>, ErrorModel> {
    match reply {
        Reply::NotSent(why) => Err(ErrorModel::Network(why@)),
        Reply::BadStatus(why) => Err(ErrorModel::Api(why@)),
        Reply::Unread(why) => Err(ErrorModel::Parse(why@)),
        Reply::Read(data) => translation_in(content_in(data@)),
    }
}

/// The translation in what stands at `content[0].text`.
pub fn read_translation(content: Option<Option<String>>) -> (r: Result<String, EngineError>)
    ensures
        outcome(r) == translation_in(content.deep_view()),
{
    match content {
        None => Err(parse_error("error decoding response body")),
        Some(None) => Err(parse_error("no text in content[0]")),
        Some(Some(t)) => if text::empty(&t) {
            Err(parse_error("no text in content[0]"))
        } else {
            Ok(t)
        },
    }
}

/// The translation in a reply.
pub fn answer(reply: Reply<Vec<u8>>) -> (r: Result<String, EngineError>)
    ensures
        outcome(r) == answer_for(reply),
{
    match body_of(reply) {
        Ok(data) => read_translation(
            read_text_within(data.as_slice(), "content", 0, "text"),
        ),
        Err(e) => Err(e),
    }
}

// Streams

/// What `serde_json` finds in `data` at `key`, and at `outer` and there at
/// `inner`: nothing where `data` is not JSON, else the texts that stand there.
pub uninterp spec fn texts_at(
    data: Seq<char>,
    key: Seq<char>,
    outer: Seq<char>,
    inner: Seq<char>,
) -> Option<(Option<Seq<char>>, Option<Seq<char>>)>;

/// `serde_json::from_str` to a `serde_json::Value`, and of that value the
/// strings at `[key]` and at `[outer][inner]`, where they stand. What is found
/// depends on the data and the two paths alone.
#[verifier::external_body]
fn read_texts_at(data: &str, key: &str, outer: &str, inner: &str) -> (r: Option<
    (Option<String>, Option<String>),
>)
    ensures
        r.deep_view() == texts_at(data@, key@, outer@, inner@),
{
    serde_json::from_str::<serde_json::Value>(data).ok().map(
        |v| (v[key].as_str().map(String::from), v[outer][inner].as_str().map(String::from)),
    )
}

/// What stands at `type` and at `delta.text` in the data of an event.
pub open spec fn event_in(data: Seq<char>) -> Option<(Option<Seq<char>>, Option<Seq<char>>)> {
    texts_at(data, "type"@, "delta"@, "text"@)
}

/// The text that an event adds: that of a content delta. Every other event, and
/// data that is not JSON, adds nothing.
pub open spec fn delta_in(event: Option<(Option<Seq<char>>, Option<Seq<char>>)>) -> Option<
    Seq<char>,
> {
    match event {
        Some((kind, delta)) => if kind == Some("content_block_delta"@) {
            delta
        } else {
            None
        },
        None => None,
    }
}

/// The text that an event adds.
pub fn read_delta(event: Option<(Option<String>, Option<String>)>) -> (r: Option<String>)
    ensures
        r.deep_view() == delta_in(event.deep_view()),
{
    match event {
        Some((Some(kind), delta)) => if text::same(&kind, "content_block_delta") {
            delta
        } else {
            None
        },
        _ => None,
    }
}

/// Takes one event of a stream: the text that it adds, which is also added to
/// what was received so far.
pub fn take_event(so_far: &mut Accumulator, data: &str) -> (r: Option<String>)
    ensures
        r.deep_view() == delta_in(event_in(data@)),
        final(so_far)@ == (match delta_in(event_in(data@)) {
            Some(t) => old(so_far)@ + t,
            None => old(so_far)@,
        }),
{
    match read_delta(read_texts_at(data, "type", "delta", "text")) {
        Some(t) => {
            so_far.push(&t);
            Some(t)
        },
        None => None,
    }
}

// Laws

/// Read as JSON, a request names the model, asks for at most 4096 tokens, gives
/// the instructions as `system`, and holds one message, of the user, whose
/// content is the prompt with the text; it asks for a stream where one is wanted
/// and says nothing of it otherwise.
pub proof fn law_body_reads(c: EndpointModel, req: RequestModel, stream: bool)
    ensures
        ({
            let (system, user) = prompt::prompts_for(
                c.system_prompt,
                c.user_prompt_template,
                req,
            );
            let message = Json::Object(
                seq![("role"@, Json::Text("user"@)), ("content"@, Json::Text(user))],
            );
            let always = seq![
                ("model"@, Json::Text(c.model)),
                ("max_tokens"@, Json::Number(4096)),
                ("system"@, Json::Text(system)),
                ("messages"@, Json::Array(seq![message])),
            ];
            reading::read(body_for(c, req, stream)) == Some(
                Json::Object(
                    if stream {
                        always.push(("stream"@, Json::Bool(true)))
                    } else {
                        always
                    },
                ),
            )
        }),
{
    broadcast use reading::lemma_more_members;

    let (system, user) = prompt::prompts_for(c.system_prompt, c.user_prompt_template, req);
    let none = Seq::<(Seq<char>, Json)>::empty();
    reading::lemma_no_members();
    reading::lemma_text_member("role"@, "user"@);
    reading::lemma_text_member("content"@, user);
    let mf = Seq::empty() + seq![json::field("role"@, json::quoted("user"@))] + seq![
        json::field("content"@, json::quoted(user)),
    ];
    let mm = none + seq![("role"@, Json::Text("user"@))] + seq![("content"@, Json::Text(user))];
    assert(reading::members_mean(mf, mm));
    reading::lemma_object(mf, mm);
    assert(mm =~= seq![("role"@, Json::Text("user"@)), ("content"@, Json::Text(user))]);
    let message = json::object(mf);
    assert(reading::items_mean(seq![message], seq![Json::Object(mm)]));
    reading::lemma_array(seq![message], seq![Json::Object(mm)]);
    reading::lemma_text_member("model"@, c.model);
    reading::lemma_count_member("max_tokens"@, 4096);
    reading::lemma_text_member("system"@, system);
    reading::lemma_member(
        "messages"@,
        json::array(seq![message]),
        Json::Array(seq![Json::Object(mm)]),
    );
    reading::lemma_bool_member("stream"@, true);
    let fields = Seq::empty() + seq![json::field("model"@, json::quoted(c.model))] + seq![
        json::field("max_tokens"@, text::decimal(4096)),
    ] + seq![json::field("system"@, json::quoted(system))] + seq![
        json::field("messages"@, json::array(seq![message])),
    ];
    let members = none + seq![("model"@, Json::Text(c.model))] + seq![
        ("max_tokens"@, Json::Number(4096)),
    ] + seq![("system"@, Json::Text(system))] + seq![
        ("messages"@, Json::Array(seq![Json::Object(mm)])),
    ];
    assert(reading::members_mean(fields, members));
    let always = seq![
        ("model"@, Json::Text(c.model)),
        ("max_tokens"@, Json::Number(4096)),
        ("system"@, Json::Text(system)),
        ("messages"@, Json::Array(seq![Json::Object(mm)])),
    ];
    assert(members =~= always);
    if stream {
        let more = fields + seq![json::field("stream"@, json::bool_text(true))];
        let last = members + seq![("stream"@, Json::Bool(true))];
        assert(reading::members_mean(more, last));
        reading::lemma_object(more, last);
        assert(last =~= always.push(("stream"@, Json::Bool(true))));
        reading::lemma_reads(json::object(more), Json::Object(last));
    } else {
        reading::lemma_object(fields, members);
        reading::lemma_reads(json::object(fields), Json::Object(members));
    }
}

/// The content of the only message that a JSON text holds.
pub open spec fn content_of(j: Json) -> Option<Json> {
    match j {
        Json::Object(members) => match reading::under(members, "messages"@) {
            Some(Json::Array(messages)) => if messages.len() == 1 {
                match messages[0] {
                    Json::Object(message) => reading::under(message, "content"@),
                    _ => None,
                }
            } else {
                None
            },
            _ => None,
        },
        _ => None,
    }
}

proof fn lemma_content(c: EndpointModel, req: RequestModel, stream: bool)
    ensures
        reading::read(body_for(c, req, stream)) is Some,
        content_of(reading::read(body_for(c, req, stream))->0) == Some(
            Json::Text(prompt::prompts_for(c.system_prompt, c.user_prompt_template, req).1),
        ),
{
    law_body_reads(c, req, stream);
    reveal_with_fuel(reading::under, 6);
    reveal_strlit("model");
    reveal_strlit("max_tokens");
    reveal_strlit("system");
    reveal_strlit("messages");
    reveal_strlit("role");
    reveal_strlit("content");
    let (system, user) = prompt::prompts_for(c.system_prompt, c.user_prompt_template, req);
    let message = seq![("role"@, Json::Text("user"@)), ("content"@, Json::Text(user))];
    let members = reading::read(body_for(c, req, stream))->0->Object_0;
    assert("model"@.len() != "messages"@.len());
    assert("max_tokens"@.len() != "messages"@.len());
    assert("system"@.len() != "messages"@.len());
    assert("role"@.len() != "content"@.len());
    assert(members.skip(1)[0] == members[1]);
    assert(members.skip(1).skip(1)[0] == members[2]);
    assert(members.skip(1).skip(1).skip(1)[0] == members[3]);
    assert(reading::under(members, "messages"@) == Some(
        Json::Array(seq![Json::Object(message)]),
    ));
    assert(message.skip(1)[0] == message[1]);
    assert(reading::under(message, "content"@) == Some(Json::Text(user)));
}

/// What stands before the text in a prompt, where no template is configured or
/// the template is `{text}`.
spec fn front(template: Option<Seq<char>>, from: Lang, to: Lang) -> Seq<char> {
    if template is Some {
        Seq::empty()
    } else {
        "Translate the following "@ + ((match from {
            Lang::En => "English"@,
            Lang::Zh => "Chinese (Simplified)"@,
        }) + (" text to "@ + ((match to {
            Lang::En => "English"@,
            Lang::Zh => "Chinese (Simplified)"@,
        }) + ":\n\n"@)))
    }
}

proof fn lemma_front(system: Option<Seq<char>>, template: Option<Seq<char>>, req: RequestModel)
    requires
        template is None || template->0 == "{text}"@,
    ensures
        prompt::prompts_for(system, template, req).1 == front(template, req.from, req.to)
            + req.text,
{
    prompt::law_prompts(system, template, req);
    assert(prompt::prompts_for(system, template, req).1 =~= front(template, req.from, req.to)
        + req.text);
}

proof fn lemma_same_end(f: Seq<char>, a: Seq<char>, b: Seq<char>)
    requires
        f + a == f + b,
    ensures
        a == b,
{
    assert((f + a).skip(f.len() as int) =~= a);
    assert((f + b).skip(f.len() as int) =~= b);
}

/// The text to translate is sent: it ends the content of the message where no
/// template is configured, and it is all of it where the template is `{text}`.
pub proof fn law_text_is_sent(c: EndpointModel, req: RequestModel, stream: bool)
    requires
        c.user_prompt_template is None || c.user_prompt_template->0 == "{text}"@,
    ensures
        ({
            let content = content_of(reading::read(body_for(c, req, stream))->0);
            &&& content is Some
            &&& content->0 is Text
            &&& c.user_prompt_template is Some ==> content->0->Text_0 == req.text
            &&& exists|before: Seq<char>| content->0->Text_0 == #[trigger] (before + req.text)
        }),
{
    lemma_content(c, req, stream);
    lemma_front(c.system_prompt, c.user_prompt_template, req);
    let f = front(c.user_prompt_template, req.from, req.to);
    let u = prompt::prompts_for(c.system_prompt, c.user_prompt_template, req).1;
    assert(u == f + req.text);
    if c.user_prompt_template is Some {
        assert(f + req.text =~= req.text);
    }
}

/// Requests for different texts have different bodies.
pub proof fn law_different_texts_have_different_bodies(
    c: EndpointModel,
    req: RequestModel,
    other: RequestModel,
    stream: bool,
)
    requires
        c.user_prompt_template is None || c.user_prompt_template->0 == "{text}"@,
        req.text != other.text,
        req.from == other.from,
        req.to == other.to,
    ensures
        body_for(c, req, stream) != body_for(c, other, stream),
{
    if body_for(c, req, stream) == body_for(c, other, stream) {
        lemma_content(c, req, stream);
        lemma_content(c, other, stream);
        lemma_front(c.system_prompt, c.user_prompt_template, req);
        lemma_front(c.system_prompt, c.user_prompt_template, other);
        lemma_same_end(
            front(c.user_prompt_template, req.from, req.to),
            req.text,
            other.text,
        );
    }
}

/// A request goes to the messages of the endpoint, with its key and the version
/// of the protocol.
pub proof fn law_request(c: EndpointModel, req: RequestModel, stream: bool)
    ensures
        request_for(c, req, stream).method == Method::Post,
        request_for(c, req, stream).url == c.base_url + "/v1/messages"@,
        crate::engine::valued(request_for(c, req, stream).headers, "x-api-key"@, c.api_key),
        crate::engine::valued(request_for(c, req, stream).headers, "anthropic-version"@, "2023-06-01"@),
        request_for(c, req, stream).body == Some(body_for(c, req, stream)),
{
    reveal_strlit("x-api-key");
    reveal_strlit("anthropic-version");
    let h = request_for(c, req, stream).headers;
    assert(h[0] == ("x-api-key"@, c.api_key));
    assert(h[1] == ("anthropic-version"@, "2023-06-01"@));
    assert("x-api-key"@.len() != "anthropic-version"@.len());
}

/// A reply with a text gives that text, one without gives an error.
pub proof fn law_reply_gives_its_text(t: Seq<char>)
    ensures
        t.len() > 0 ==> translation_in(Some(Some(t))) == Ok::<Seq<char>, ErrorModel>(t),
        t.len() == 0 ==> translation_in(Some(Some(t))) is Err,
        translation_in(Some(None)) is Err,
        translation_in(None) is Err,
{
}

/// A content delta adds its text; an event of any other kind adds nothing.
pub proof fn law_only_content_deltas_add(kind: Option<Seq<char>>, delta: Option<Seq<char>>)
    ensures
        kind == Some("content_block_delta"@) ==> delta_in(Some((kind, delta))) == delta,
        kind != Some("content_block_delta"@) ==> delta_in(Some((kind, delta))) is None,
        delta_in(None) is None,
{
}

/// The body that is sent holds the instructions under `system`, and as its only
/// message what the user asks, with the text to translate in it.
pub proof fn law_sent_body(
    c: &AnthropicConfig,
    req: &TranslateRequest,
    stream: bool,
    body: String,
)
    requires
        call_ensures(AnthropicConfig::body, (c, req, stream), body),
    ensures
        ({
            let (system, user) = prompt::prompts_for(
                c.system_prompt.deep_view(),
                c.user_prompt_template.deep_view(),
                req.deep_view(),
            );
            let content = content_of(reading::read(body@)->0);
            &&& reading::read(body@) is Some
            &&& content == Some(Json::Text(user))
            &&& c.user_prompt_template is None ==> exists|before: Seq<char>|
                user == #[trigger] (before + req.text@)
        }),
{
    let m = c.deep_view();
    let q = req.deep_view();
    law_body_reads(m, q, stream);
    lemma_content(m, q, stream);
    if c.user_prompt_template is None {
        law_text_is_sent(m, q, stream);
    }
}

} // verus!
