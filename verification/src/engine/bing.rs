//! Bing's web endpoint: a page with two tokens, then a translation with them.

use crate::engine::{no_params, outcome, parse_error, push_param};
use crate::engine::{body_of, EngineError, ErrorModel, HttpModel, HttpRequest, Method, Reply};
use crate::engine::{RequestModel, TranslateRequest};
use crate::json;
use crate::json::Fields;
use crate::lang::Lang;
use crate::reading;
use crate::reading::Json;
use crate::text;
use vstd::prelude::*;

verus! {

/// The browser that the endpoint is asked as.
pub const USER_AGENT: &'static str = "Mozilla/5.0 (X11; Linux x86_64)";

/// Finds the token `IG`.
pub const IG_PATTERN: &'static str = "IG:\"([0-9A-Fa-f]+)\"";

/// Finds the token `IID`.
pub const IID_PATTERN: &'static str = "data-iid=\"([^\"]+)\"";

/// The engine at a base address.
pub struct BingEngine {
    pub base: String,
}

// Tokens

/// Whether `c` may stand in the value that a pattern captures.
pub open spec fn in_value(hex: bool, c: char) -> bool {
    if hex {
        ('0' <= c <= '9') || ('A' <= c <= 'F') || ('a' <= c <= 'f')
    } else {
        c != '"'
    }
}

/// Whether `mark` stands at `i`, then a value of `n` characters, one at least,
/// and then a quote.
pub open spec fn value_at(s: Seq<char>, mark: Seq<char>, hex: bool, i: int, n: int) -> bool {
    &&& n >= 1
    &&& text::occurs_at(s, mark, i)
    &&& i + mark.len() + n < s.len()
    &&& forall|k: int|
        i + mark.len() <= k < i + mark.len() + n ==> in_value(hex, #[trigger] s[k])
    &&& s[i + mark.len() + n] == '"'
}

/// Whether the first value of its kind stands at `i` with `n` characters.
pub open spec fn first_value(s: Seq<char>, mark: Seq<char>, hex: bool, i: int, n: int) -> bool {
    &&& value_at(s, mark, hex, i, n)
    &&& forall|j: int, m: int| j < i ==> !#[trigger] value_at(s, mark, hex, j, m)
}

/// The first value of its kind, if there is one.
pub open spec fn value_in(s: Seq<char>, mark: Seq<char>, hex: bool) -> Option<Seq<char>> {
    if exists|i: int, n: int| first_value(s, mark, hex, i, n) {
        let (i, n) = choose|i: int, n: int| first_value(s, mark, hex, i, n);
        Some(s.subrange(i + mark.len(), i + mark.len() + n))
    } else {
        None
    }
}

/// The token `IG` of a page: hexadecimal digits in quotes.
pub open spec fn ig_in(page: Seq<char>) -> Option<Seq<char>> {
    value_in(page, "IG:\""@, true)
}

/// The token `IID` of a page: the value of an attribute.
pub open spec fn iid_in(page: Seq<char>) -> Option<Seq<char>> {
    value_in(page, "data-iid=\""@, false)
}

/// `regex::Regex::new`, `Regex::captures` and the first group of the captures:
/// what the group matched in the leftmost match of the pattern, if there is one.
/// The two patterns match a fixed text, then one or more characters of a set
/// that does not hold the quote, and then a quote, so that the leftmost place
/// where those three stand decides.
#[verifier::external_body]
fn first_capture(pattern: &str, page: &str) -> (r: Option<String>)
    requires
        pattern@ == IG_PATTERN@ || pattern@ == IID_PATTERN@,
    ensures
        pattern@ == IG_PATTERN@ ==> r.deep_view() == ig_in(page@),
        pattern@ == IID_PATTERN@ ==> r.deep_view() == iid_in(page@),
{
    let found = regex::Regex::new(pattern).expect("fixed pattern").captures(page);
    found.and_then(|c| c.get(1).map(|m| m.as_str().to_string()))
}

// Requests

/// The endpoint's code for a language.
pub open spec fn code(to: Lang) -> Seq<char> {
    match to {
        Lang::Zh => "zh-Hans"@,
        Lang::En => "en"@,
    }
}

/// The request for the page with the tokens.
pub open spec fn page_request_for(base: Seq<char>) -> HttpModel {
    HttpModel {
        method: Method::Get,
        url: base + "/translator"@,
        query: Seq::empty(),
        headers: Seq::empty().push(("User-Agent"@, USER_AGENT@)),
        body: None,
    }
}

/// The request for a text with the tokens of a page.
pub open spec fn request_for(
    base: Seq<char>,
    req: RequestModel,
    ig: Seq<char>,
    iid: Seq<char>,
) -> HttpModel {
    HttpModel {
        method: Method::Post,
        url: base + "/ttranslatev3"@,
        query: Seq::empty().push(("isVertical"@, "1"@)).push(("IG"@, ig)).push(("IID"@, iid)),
        headers: Seq::empty().push(("User-Agent"@, USER_AGENT@)).push(
            ("Referer"@, base + "/translator"@),
        ),
        body: Some(
            json::object(
                Seq::empty() + seq![json::field("fromLang"@, json::quoted("auto-detect"@))] + seq![
                    json::field("to"@, json::quoted(code(req.to))),
                ] + seq![json::field("text"@, json::quoted(req.text))],
            ),
        ),
    }
}

/// The second request, or why there is none, for a page.
pub open spec fn after_page(
    base: Seq<char>,
    req: RequestModel,
    page: Seq<char>,
) -> Result<HttpModel, ErrorModel> {
    match (ig_in(page), iid_in(page)) {
        (Some(ig), Some(iid)) => Ok(request_for(base, req, ig, iid)),
        _ => Err(ErrorModel::Parse("missing IG/IID token"@)),
    }
}

/// The second request, or why there is none, for the reply to the first.
pub open spec fn after_page_reply(
    base: Seq<char>,
    req: RequestModel,
    reply: Reply<String>,
) -> Result<HttpModel, ErrorModel> {
    match reply {
        Reply::NotSent(why) => Err(ErrorModel::Network(why@)),
        Reply::BadStatus(why) => Err(ErrorModel::Api(why@)),
        Reply::Unread(why) => Err(ErrorModel::Network(why@)),
        Reply::Read(page) => after_page(base, req, page@),
    }
}

/// The translation among those of each result: the first of the first.
pub open spec fn translation_in(results: Seq<Seq<Seq<char>>>) -> Result<Seq<char>, ErrorModel> {
    if results.len() > 0 && results[0].len() > 0 {
        Ok(results[0][0])
    } else {
        Err(ErrorModel::Parse("empty translations"@))
    }
}

/// The translation in a reply whose body holds the translations of each result.
pub open spec fn answer_for(reply: Reply<Vec<Vec<String>>>) -> Result<Seq<char>, ErrorModel> {
    match reply {
        Reply::NotSent(why) => Err(ErrorModel::Network(why@)),
        Reply::BadStatus(why) => Err(ErrorModel::Api(why@)),
        Reply::Unread(why) => Err(ErrorModel::Parse(why@)),
        Reply::Read(results) => translation_in(results.deep_view()),
    }
}

fn to_code(to: Lang) -> (r: &'static str)
    ensures
        r@ == code(to),
{
    match to {
        Lang::Zh => "zh-Hans",
        Lang::En => "en",
    }
}

impl BingEngine {
    /// The engine at the address that the environment names, else at its own.
    pub fn new(env: Option<String>) -> (r: BingEngine)
        ensures
            r.base@ == (match env {
                Some(b) => b@,
                None => "https://cn.bing.com"@,
            }),
    {
        match env {
            Some(base) => BingEngine { base },
            None => BingEngine { base: text::copy("https://cn.bing.com") },
        }
    }

    /// The engine at the given address.
    pub fn new_with_base(base: String) -> (r: BingEngine)
        ensures
            r.base == base,
    {
        BingEngine { base }
    }

    /// The request for the page with the tokens.
    pub fn page_request(&self) -> (r: HttpRequest)
        ensures
            r.deep_view() == page_request_for(self.base@),
    {
        let mut headers = no_params();
        push_param(&mut headers, "User-Agent", USER_AGENT);
        HttpRequest {
            method: Method::Get,
            url: text::cat(&self.base, "/translator"),
            query: no_params(),
            headers,
            body: None,
        }
    }

    /// The request for a text with the tokens of a page.
    pub fn token_request(&self, req: &TranslateRequest, ig: &str, iid: &str) -> (r: HttpRequest)
        ensures
            r.deep_view() == request_for(self.base@, req.deep_view(), ig@, iid@),
    {
        let mut query = no_params();
        push_param(&mut query, "isVertical", "1");
        push_param(&mut query, "IG", ig);
        push_param(&mut query, "IID", iid);
        let mut headers = no_params();
        push_param(&mut headers, "User-Agent", USER_AGENT);
        push_param(&mut headers, "Referer", &text::cat(&self.base, "/translator"));
        let mut body = Fields::new();
        body.put_text("fromLang", "auto-detect");
        body.put_text("to", to_code(req.to));
        body.put_text("text", &req.text);
        HttpRequest {
            method: Method::Post,
            url: text::cat(&self.base, "/ttranslatev3"),
            query,
            headers,
            body: Some(body.finish()),
        }
    }

    /// The second request, or why there is none, for the reply to the first.
    pub fn request(&self, req: &TranslateRequest, page: Reply<String>) -> (r: Result<
        HttpRequest,
        EngineError,
    >)
        ensures
            match r {
                Ok(h) => after_page_reply(self.base@, req.deep_view(), page) == Ok::<
                    HttpModel,
                    ErrorModel,
                >(h.deep_view()),
                Err(e) => after_page_reply(self.base@, req.deep_view(), page) == Err::<
                    HttpModel,
                    ErrorModel,
                >(e.deep_view()),
            },
    {
        let html: String = match page {
            Reply::Read(html) => html,
            Reply::NotSent(why) => return Err(EngineError::Network(why)),
            Reply::BadStatus(why) => return Err(EngineError::Api(why)),
            Reply::Unread(why) => return Err(EngineError::Network(why)),
        };
        let ig = first_capture(IG_PATTERN, &html);
        let iid = first_capture(IID_PATTERN, &html);
        match (ig, iid) {
            (Some(ig), Some(iid)) => Ok(self.token_request(req, &ig, &iid)),
            _ => Err(parse_error("missing IG/IID token")),
        }
    }

    /// The translation in a reply whose body holds the translations of each result.
    pub fn answer(&self, reply: Reply<Vec<Vec<String>>>) -> (r: Result<String, EngineError>)
        ensures
            outcome(r) == answer_for(reply),
    {
        match body_of(reply) {
            Err(e) => Err(e),
            Ok(results) => {
                let ghost all = results.deep_view();
                assert(all.len() == results@.len());
                if results.len() > 0 && results[0].len() > 0 {
                    assert(all[0] == results@[0].deep_view());
                    Ok(text::copy(&results[0][0]))
                } else {
                    proof {
                        if results@.len() > 0 {
                            assert(all[0] == results@[0].deep_view());
                        }
                    }
                    Err(parse_error("empty translations"))
                }
            },
        }
    }
}

// Laws

/// A request gives, as JSON, the text as it is and the language to translate
/// into, and carries the two tokens of the page.
pub proof fn law_request(base: Seq<char>, req: RequestModel, ig: Seq<char>, iid: Seq<char>)
    ensures
        request_for(base, req, ig, iid).method == Method::Post,
        request_for(base, req, ig, iid).url == base + "/ttranslatev3"@,
        crate::engine::valued(request_for(base, req, ig, iid).query, "IG"@, ig),
        crate::engine::valued(request_for(base, req, ig, iid).query, "IID"@, iid),
        crate::engine::valued(request_for(base, req, ig, iid).query, "isVertical"@, "1"@),
        request_for(base, req, ig, iid).headers.contains(("Referer"@, base + "/translator"@)),
        request_for(base, req, ig, iid).body is Some,
        reading::read(request_for(base, req, ig, iid).body->0) == Some(
            Json::Object(
                seq![
                    ("fromLang"@, Json::Text("auto-detect"@)),
                    (
                        "to"@,
                        Json::Text(
                            if req.to == Lang::Zh {
                                "zh-Hans"@
                            } else {
                                "en"@
                            },
                        ),
                    ),
                    ("text"@, Json::Text(req.text)),
                ],
            ),
        ),
        page_request_for(base).method == Method::Get,
        page_request_for(base).url == base + "/translator"@,
{
    broadcast use reading::lemma_more_members;

    reveal_strlit("isVertical");
    reveal_strlit("IG");
    reveal_strlit("IID");
    let r = request_for(base, req, ig, iid);
    assert("isVertical"@.len() == 10 && "IG"@.len() == 2 && "IID"@.len() == 3);
    assert(r.query[0] == ("isVertical"@, "1"@));
    assert(r.query[1] == ("IG"@, ig));
    assert(r.query[2] == ("IID"@, iid));
    assert(r.headers[1] == ("Referer"@, base + "/translator"@));
    reading::lemma_no_members();
    reading::lemma_text_member("fromLang"@, "auto-detect"@);
    reading::lemma_text_member("to"@, code(req.to));
    reading::lemma_text_member("text"@, req.text);
    let fields = Seq::empty() + seq![json::field("fromLang"@, json::quoted("auto-detect"@))] + seq![
        json::field("to"@, json::quoted(code(req.to))),
    ] + seq![json::field("text"@, json::quoted(req.text))];
    let members = Seq::<(Seq<char>, Json)>::empty() + seq![
        ("fromLang"@, Json::Text("auto-detect"@)),
    ] + seq![("to"@, Json::Text(code(req.to)))] + seq![("text"@, Json::Text(req.text))];
    assert(reading::members_mean(fields, members));
    reading::lemma_object(fields, members);
    reading::lemma_reads(json::object(fields), Json::Object(members));
    assert(members =~= seq![
        ("fromLang"@, Json::Text("auto-detect"@)),
        ("to"@, Json::Text(code(req.to))),
        ("text"@, Json::Text(req.text)),
    ]);
}

proof fn lemma_value_found(
    before: Seq<char>,
    mark: Seq<char>,
    v: Seq<char>,
    behind: Seq<char>,
    hex: bool,
)
    requires
        mark.len() > 0,
        v.len() > 0,
        forall|k: int| 0 <= k < v.len() ==> in_value(hex, #[trigger] v[k]),
        !in_value(hex, '"'),
        forall|k: int| 0 <= k < before.len() ==> #[trigger] before[k] != mark[0],
    ensures
        value_in(before + (mark + (v + (seq!['"'] + behind))), mark, hex) == Some(v),
{
    let s = before + (mark + (v + (seq!['"'] + behind)));
    let i = before.len() as int;
    let n = v.len() as int;
    let from = i + mark.len();
    assert(s.subrange(i, i + mark.len()) =~= mark);
    assert forall|k: int| from <= k < from + n implies in_value(hex, #[trigger] s[k]) by {
        assert(s[k] == v[k - from]);
    }
    assert(s[from + n] == '"');
    assert(value_at(s, mark, hex, i, n));
    assert forall|j: int, m: int| j < i implies !#[trigger] value_at(s, mark, hex, j, m) by {
        if value_at(s, mark, hex, j, m) {
            assert(s.subrange(j, j + mark.len())[0] == s[j]);
            assert(s[j] == before[j]);
        }
    }
    assert(first_value(s, mark, hex, i, n));
    let (a, b) = choose|a: int, b: int| first_value(s, mark, hex, a, b);
    assert(first_value(s, mark, hex, a, b));
    if a < i {
        assert(value_at(s, mark, hex, a, b));
        assert(s.subrange(a, a + mark.len())[0] == s[a]);
        assert(s[a] == before[a]);
    }
    if a > i {
        assert(value_at(s, mark, hex, i, n));
    }
    assert(a == i);
    if b < n {
        assert(in_value(hex, s[from + b]));
    }
    if b > n {
        assert(in_value(hex, s[from + n]));
    }
    assert(s.subrange(from, from + n) =~= v);
}

/// Behind the first `IG:"` of a page the token `IG` stands up to the next quote,
/// where it is hexadecimal, and behind the first `data-iid="` the token `IID`.
pub proof fn law_tokens(before: Seq<char>, v: Seq<char>, behind: Seq<char>)
    requires
        v.len() > 0,
    ensures
        !before.contains('I') && (forall|k: int|
            0 <= k < v.len() ==> ('0' <= #[trigger] v[k] <= '9') || ('a' <= v[k] <= 'f') || ('A'
                <= v[k] <= 'F')) ==> ig_in(
            before + (seq!['I', 'G', ':', '"'] + (v + (seq!['"'] + behind))),
        ) == Some(v),
        !before.contains('d') && !v.contains('"') ==> iid_in(
            before + (seq!['d', 'a', 't', 'a', '-', 'i', 'i', 'd', '=', '"'] + (v + (seq!['"']
                + behind))),
        ) == Some(v),
{
    reveal_strlit("IG:\"");
    reveal_strlit("data-iid=\"");
    let ig = seq!['I', 'G', ':', '"'];
    let iid = seq!['d', 'a', 't', 'a', '-', 'i', 'i', 'd', '=', '"'];
    assert("IG:\""@ =~= ig);
    assert("data-iid=\""@ =~= iid);
    if !before.contains('I') && (forall|k: int|
        0 <= k < v.len() ==> ('0' <= #[trigger] v[k] <= '9') || ('a' <= v[k] <= 'f') || ('A'
            <= v[k] <= 'F')) {
        lemma_value_found(before, ig, v, behind, true);
    }
    if !before.contains('d') && !v.contains('"') {
        lemma_value_found(before, iid, v, behind, false);
    }
}

/// A page without either token gives no request, one with both gives the request
/// with them.
pub proof fn law_page(base: Seq<char>, req: RequestModel, page: Seq<char>)
    ensures
        ig_in(page) is None || iid_in(page) is None ==> after_page(base, req, page) is Err,
        ig_in(page) is Some && iid_in(page) is Some ==> after_page(base, req, page) == Ok::<
            HttpModel,
            ErrorModel,
        >(request_for(base, req, ig_in(page)->0, iid_in(page)->0)),
{
}

/// The first translation of the first result counts; without one there is none.
pub proof fn law_first_translation(first: Seq<Seq<char>>, rest: Seq<Seq<Seq<char>>>)
    ensures
        first.len() > 0 ==> translation_in(seq![first] + rest) == Ok::<Seq<char>, ErrorModel>(
            first[0],
        ),
        first.len() == 0 ==> translation_in(seq![first] + rest) is Err,
        translation_in(Seq::empty()) is Err,
{
    assert((seq![first] + rest)[0] == first);
}

} // verus!
