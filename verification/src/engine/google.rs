//! Google's web endpoint. Its reply is a JSON array whose first element holds
//! the translation, as a string or as an array of lines.

use crate::engine::{body_of, no_params, outcome, parse_error, push_param};
use crate::engine::{EngineError, ErrorModel, HttpModel, HttpRequest, Method, Reply, RequestModel};
use crate::engine::TranslateRequest;
use crate::lang::Lang;
use crate::text;
use vstd::prelude::*;

verus! {

/// The browser that the endpoint is asked as.
pub const USER_AGENT: &'static str =
    "Mozilla/5.0 (X11; Linux x86_64) AppleWebKit/537.36 (KHTML, like Gecko) Chrome/128.0.0.0 Safari/537.36";

/// The engine at a base address.
pub struct GoogleEngine {
    pub base: String,
}

/// The endpoint's code for a language.
pub open spec fn code(l: Lang) -> Seq<char> {
    match l {
        Lang::En => "en"@,
        Lang::Zh => "zh"@,
    }
}

/// The request for a text.
pub open spec fn request_for(base: Seq<char>, req: RequestModel) -> HttpModel {
    HttpModel {
        method: Method::Get,
        url: base + "/translate_a/t"@,
        query: Seq::empty().push(("client"@, "dict-chrome-ex"@)).push(("sl"@, code(req.from))).push(
            ("tl"@, code(req.to)),
        ).push(("q"@, req.text)),
        headers: Seq::empty().push(("User-Agent"@, USER_AGENT@)),
        body: None,
    }
}

/// The first element of the array that a reply holds.
#[derive(Debug, Clone, PartialEq)]
pub enum First {
    /// The reply is not JSON.
    NotJson,
    /// A string.
    Text(String),
    /// An array; `None` for every member that is not a string.
    Parts(Vec<Option<String>>),
    /// No element, another element, or no array at all: a description.
    Other(String),
}

/// What a [`First`] says.
pub enum FirstModel {
    NotJson,
    Text(Seq<char>),
    Parts(Seq<Option<Seq<char>>>),
    Other(Seq<char>),
}

impl DeepView for First {
    type V = FirstModel;

    open spec fn deep_view(&self) -> FirstModel {
        match self {
            First::NotJson => FirstModel::NotJson,
            First::Text(s) => FirstModel::Text(s@),
            First::Parts(p) => FirstModel::Parts(p.deep_view()),
            First::Other(d) => FirstModel::Other(d@),
        }
    }
}

/// What `serde_json` finds as the element at `index` of the array in `data`.
pub uninterp spec fn element_in(data: Seq<u8>, index: usize) -> FirstModel;

/// `serde_json::from_slice` to a `serde_json::Value`, and of that value the
/// element at `index`, where it is an array that has one: a string as it is, an
/// array by its members, anything else by its `Debug` form. What is found
/// depends on `data` and `index` alone.
#[verifier::external_body]
fn read_element(data: &[u8], index: usize) -> (r: First)
    ensures
        r.deep_view() == element_in(data@, index),
{
    let value = match serde_json::from_slice::<serde_json::Value>(data) {
        Ok(v) => v,
        Err(_) => return First::NotJson,
    };
    match value.as_array().and_then(|a| a.get(index)) {
        Some(serde_json::Value::String(s)) => First::Text(s.clone()),
        Some(serde_json::Value::Array(p)) => First::Parts(
            p.iter().map(|x| x.as_str().map(String::from)).collect(),
        ),
        other => First::Other(format!("{:?}", other)),
    }
}

/// The texts of the members, where each has one.
pub open spec fn all_texts(parts: Seq<Option<Seq<char>>>) -> Option<Seq<Seq<char>>> {
    if forall|i: int| 0 <= i < parts.len() ==> #[trigger] parts[i] is Some {
        Some(parts.map_values(|p: Option<Seq<char>>| p->0))
    } else {
        None
    }
}

/// The translation that the first element holds.
pub open spec fn translation_in(first: FirstModel) -> Result<Seq<char>, ErrorModel> {
    match first {
        FirstModel::NotJson => Err(ErrorModel::Parse("error decoding response body"@)),
        FirstModel::Text(s) => Ok(s),
        FirstModel::Parts(parts) => match all_texts(parts) {
            None => Err(ErrorModel::Parse("non-string part in nested array"@)),
            Some(lines) => if text::join(lines, "\n"@).len() == 0 {
                Err(ErrorModel::Parse("empty translation"@))
            } else {
                Ok(text::join(lines, "\n"@))
            },
        },
        FirstModel::Other(d) => Err(ErrorModel::Parse("unexpected first element: "@ + d)),
    }
}

/// The translation in a reply.
pub open spec fn answer_for(reply: Reply<Vec<u8>>) -> Result<Seq<char>, ErrorModel> {
    match reply {
        Reply::NotSent(why) => Err(ErrorModel::Network(why@)),
        Reply::BadStatus(why) => Err(ErrorModel::Api(why@)),
        Reply::Unread(why) => Err(ErrorModel::Parse(why@)),
        Reply::Read(data) => translation_in(element_in(data@, 0)),
    }
}

fn lang_code(l: Lang) -> (r: &'static str)
    ensures
        r@ == code(l),
{
    match l {
        Lang::En => "en",
        Lang::Zh => "zh",
    }
}

/// The translation that the first element holds: a string as it is, an array of
/// strings as lines.
pub fn read_translation(first: First) -> (r: Result<String, EngineError>)
    ensures
        outcome(r) == translation_in(first.deep_view()),
{
    match first {
        First::NotJson => Err(parse_error("error decoding response body")),
        First::Text(s) => Ok(s),
        First::Other(d) => Err(parse_error(&text::cat("unexpected first element: ", &d))),
        First::Parts(parts) => {
            let ghost all = parts.deep_view();
            let mut lines: Vec<String> = Vec::new();
            let mut i: usize = 0;
            while i < parts.len()
                invariant
                    i <= parts@.len(),
                    all == parts.deep_view(),
                    lines.deep_view().len() == i,
                    first.deep_view() == FirstModel::Parts(all),
                    forall|k: int|
                        0 <= k < i ==> #[trigger] all[k] == Some(lines.deep_view()[k]),
                decreases parts@.len() - i,
            {
                assert(all[i as int] == parts@[i as int].deep_view());
                let ghost before = lines.deep_view();
                match &parts[i] {
                    Some(line) => {
                        lines.push(text::copy(line));
                        assert(lines.deep_view() =~= before.push(line@));
                    },
                    None => {
                        assert(all_texts(all) is None);
                        return Err(parse_error("non-string part in nested array"));
                    },
                }
                i += 1;
            }
            assert(lines.deep_view() =~= all.map_values(|p: Option<Seq<char>>| p->0));
            let joined = text::join_all(&lines, "\n");
            if text::empty(&joined) {
                return Err(parse_error("empty translation"));
            }
            Ok(joined)
        },
    }
}

impl GoogleEngine {
    /// The engine at the address that the environment names, else at its own.
    pub fn new(env: Option<String>) -> (r: GoogleEngine)
        ensures
            r.base@ == (match env {
                Some(b) => b@,
                None => "https://clients5.google.com"@,
            }),
    {
        match env {
            Some(base) => GoogleEngine { base },
            None => GoogleEngine { base: text::copy("https://clients5.google.com") },
        }
    }

    /// The engine at the given address.
    pub fn new_with_base(base: String) -> (r: GoogleEngine)
        ensures
            r.base == base,
    {
        GoogleEngine { base }
    }

    /// The request for a text.
    pub fn request(&self, req: &TranslateRequest) -> (r: HttpRequest)
        ensures
            r.deep_view() == request_for(self.base@, req.deep_view()),
    {
        let mut query = no_params();
        push_param(&mut query, "client", "dict-chrome-ex");
        push_param(&mut query, "sl", lang_code(req.from));
        push_param(&mut query, "tl", lang_code(req.to));
        push_param(&mut query, "q", &req.text);
        let mut headers = no_params();
        push_param(&mut headers, "User-Agent", USER_AGENT);
        HttpRequest {
            method: Method::Get,
            url: text::cat(&self.base, "/translate_a/t"),
            query,
            headers,
            body: None,
        }
    }

    /// The translation in a reply.
    pub fn answer(&self, reply: Reply<Vec<u8>>) -> (r: Result<String, EngineError>)
        ensures
            outcome(r) == answer_for(reply),
    {
        match body_of(reply) {
            Ok(data) => read_translation(read_element(data.as_slice(), 0)),
            Err(e) => Err(e),
        }
    }
}

// Laws

/// A request gives the text as it is, the language that it is in, and the
/// language to translate into.
pub proof fn law_request(base: Seq<char>, req: RequestModel)
    ensures
        request_for(base, req).method == Method::Get,
        request_for(base, req).url == base + "/translate_a/t"@,
        request_for(base, req).body is None,
        crate::engine::valued(request_for(base, req).query, "q"@, req.text),
        crate::engine::valued(request_for(base, req).query, "client"@, "dict-chrome-ex"@),
        req.from == Lang::En ==> crate::engine::valued(
            request_for(base, req).query,
            "sl"@,
            "en"@,
        ),
        req.from == Lang::Zh ==> crate::engine::valued(
            request_for(base, req).query,
            "sl"@,
            "zh"@,
        ),
        req.to == Lang::En ==> crate::engine::valued(request_for(base, req).query, "tl"@, "en"@),
        req.to == Lang::Zh ==> crate::engine::valued(request_for(base, req).query, "tl"@, "zh"@),
        request_for(base, req).headers.len() == 1,
        request_for(base, req).headers[0].0 == "User-Agent"@,
{
    reveal_strlit("client");
    reveal_strlit("sl");
    reveal_strlit("tl");
    reveal_strlit("q");
    let l = request_for(base, req).query;
    assert("sl"@[0] != "tl"@[0]);
    assert("client"@.len() == 6 && "sl"@.len() == 2 && "tl"@.len() == 2 && "q"@.len() == 1);
    assert(l[0] == ("client"@, "dict-chrome-ex"@));
    assert(l[1] == ("sl"@, code(req.from)));
    assert(l[2] == ("tl"@, code(req.to)));
    assert(l[3] == ("q"@, req.text));
    assert(l.len() == 4);
}

/// A string is the translation. Of an array, the lines are: one line alone is
/// the translation, and each further line stands below the others.
pub proof fn law_lines(s: Seq<char>, parts: Seq<Option<Seq<char>>>, x: Seq<char>)
    ensures
        translation_in(FirstModel::Text(s)) == Ok::<Seq<char>, ErrorModel>(s),
        s.len() > 0 ==> translation_in(FirstModel::Parts(seq![Some(s)])) == Ok::<
            Seq<char>,
            ErrorModel,
        >(s),
        parts.len() > 0 && translation_in(FirstModel::Parts(parts)) is Ok ==> translation_in(
            FirstModel::Parts(parts.push(Some(x))),
        ) == Ok::<Seq<char>, ErrorModel>(
            translation_in(FirstModel::Parts(parts))->Ok_0.push('\n') + x,
        ),
{
    let one = seq![Some(s)];
    assert(one.map_values(|p: Option<Seq<char>>| p->0) =~= seq![s]);
    assert(all_texts(one) == Some(seq![s]));
    reveal_strlit("\n");
    if parts.len() > 0 && translation_in(FirstModel::Parts(parts)) is Ok {
        let lines = parts.map_values(|p: Option<Seq<char>>| p->0);
        let more = parts.push(Some(x));
        assert forall|i: int| 0 <= i < more.len() implies #[trigger] more[i] is Some by {
            if i < parts.len() {
                assert(more[i] == parts[i]);
            }
        }
        assert(more.map_values(|p: Option<Seq<char>>| p->0) =~= lines.push(x));
        assert(lines.push(x).drop_last() =~= lines);
        assert(text::join(lines, "\n"@) + "\n"@ + x =~= text::join(lines, "\n"@).push('\n') + x);
    }
}

/// An array with a member that is no string, an array without any character, no
/// JSON and anything else are errors.
pub proof fn law_no_translation(parts: Seq<Option<Seq<char>>>, i: int, d: Seq<char>)
    ensures
        0 <= i < parts.len() && parts[i] is None ==> translation_in(FirstModel::Parts(parts)) is Err,
        translation_in(FirstModel::Parts(Seq::empty())) is Err,
        translation_in(FirstModel::Parts(seq![Some(Seq::<char>::empty())])) is Err,
        translation_in(FirstModel::NotJson) is Err,
        translation_in(FirstModel::Other(d)) is Err,
{
    let none = Seq::<Option<Seq<char>>>::empty();
    assert(none.map_values(|p: Option<Seq<char>>| p->0) =~= Seq::<Seq<char>>::empty());
    let one = seq![Some(Seq::<char>::empty())];
    assert(one.map_values(|p: Option<Seq<char>>| p->0) =~= seq![Seq::<char>::empty()]);
}

} // verus!
