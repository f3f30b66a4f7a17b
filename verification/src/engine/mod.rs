//! Translation engines: requests, replies, and engines tried one after another.
//!
//! An engine says which request to send and what its reply means; sending is
//! left to the caller.

pub mod anthropic;
pub mod bing;
pub mod google;
pub mod openai;
pub mod prompt;
pub mod youdao;

use crate::lang::Lang;
use crate::text;
use vstd::prelude::*;

verus! {

/// A text to translate.
#[derive(Debug, Clone, PartialEq)]
pub struct TranslateRequest {
    pub text: String,
    pub from: Lang,
    pub to: Lang,
}

/// What a [`TranslateRequest`] says.
#[verifier::ext_equal]
pub struct RequestModel {
    pub text: Seq<char>,
    pub from: Lang,
    pub to: Lang,
}

impl DeepView for TranslateRequest {
    type V = RequestModel;

    open spec fn deep_view(&self) -> RequestModel {
        RequestModel { text: self.text@, from: self.from, to: self.to }
    }
}

/// Why an engine did not translate.
#[derive(Debug, Clone, PartialEq)]
pub enum EngineError {
    /// The service was not reached.
    Network(String),
    /// The service refused.
    Api(String),
    /// The reply makes no sense.
    Parse(String),
}

/// What an [`EngineError`] says.
pub enum ErrorModel {
    Network(Seq<char>),
    Api(Seq<char>),
    Parse(Seq<char>),
}

impl DeepView for EngineError {
    type V = ErrorModel;

    open spec fn deep_view(&self) -> ErrorModel {
        match self {
            EngineError::Network(m) => ErrorModel::Network(m@),
            EngineError::Api(m) => ErrorModel::Api(m@),
            EngineError::Parse(m) => ErrorModel::Parse(m@),
        }
    }
}

/// The text of an error.
pub open spec fn error_text(e: ErrorModel) -> Seq<char> {
    match e {
        ErrorModel::Network(m) => "network error: "@ + m,
        ErrorModel::Api(m) => "engine api error: "@ + m,
        ErrorModel::Parse(m) => "response parse error: "@ + m,
    }
}

impl EngineError {
    /// The text of the error.
    pub fn message(&self) -> (r: String)
        ensures
            r@ == error_text(self.deep_view()),
    {
        match self {
            EngineError::Network(m) => text::cat("network error: ", m),
            EngineError::Api(m) => text::cat("engine api error: ", m),
            EngineError::Parse(m) => text::cat("response parse error: ", m),
        }
    }
}

/// What an engine made of a text.
pub open spec fn outcome(r: Result<String, EngineError>) -> Result<Seq<char>, ErrorModel> {
    match r {
        Ok(t) => Ok(t@),
        Err(e) => Err(e.deep_view()),
    }
}

/// An error of the reply.
pub fn parse_error(why: &str) -> (r: EngineError)
    ensures
        r.deep_view() == ErrorModel::Parse(why@),
{
    EngineError::Parse(text::copy(why))
}

// Requests

/// How a request is sent.
#[derive(Debug, Clone, Copy, PartialEq, Eq, Structural)]
pub enum Method {
    Get,
    Post,
}

/// A name and its value.
#[derive(Debug, Clone, PartialEq)]
pub struct Param {
    pub name: String,
    pub value: String,
}

impl DeepView for Param {
    type V = (Seq<char>, Seq<char>);

    open spec fn deep_view(&self) -> (Seq<char>, Seq<char>) {
        (self.name@, self.value@)
    }
}

/// A request to send. Query values stand as they are and still need encoding;
/// a body is JSON.
#[derive(Debug, Clone, PartialEq)]
pub struct HttpRequest {
    pub method: Method,
    pub url: String,
    pub query: Vec<Param>,
    pub headers: Vec<Param>,
    pub body: Option<String>,
}

/// What an [`HttpRequest`] says.
#[verifier::ext_equal]
pub struct HttpModel {
    pub method: Method,
    pub url: Seq<char>,
    pub query: Seq<(Seq<char>, Seq<char>)>,
    pub headers: Seq<(Seq<char>, Seq<char>)>,
    pub body: Option<Seq<char>>,
}

impl DeepView for HttpRequest {
    type V = HttpModel;

    open spec fn deep_view(&self) -> HttpModel {
        HttpModel {
            method: self.method,
            url: self.url@,
            query: self.query.deep_view(),
            headers: self.headers.deep_view(),
            body: self.body.deep_view(),
        }
    }
}

/// Adds a name and its value.
pub fn push_param(list: &mut Vec<Param>, name: &str, value: &str)
    ensures
        final(list).deep_view() == old(list).deep_view().push((name@, value@)),
{
    let ghost before = list.deep_view();
    list.push(Param { name: text::copy(name), value: text::copy(value) });
    assert(list.deep_view() =~= before.push((name@, value@)));
}

/// No name and no value.
pub fn no_params() -> (r: Vec<Param>)
    ensures
        r.deep_view() == Seq::<(Seq<char>, Seq<char>)>::empty(),
{
    let r: Vec<Param> = Vec::new();
    assert(r.deep_view() =~= Seq::<(Seq<char>, Seq<char>)>::empty());
    r
}

/// What came back for a request.
#[derive(Debug, Clone, PartialEq)]
pub enum Reply<T> {
    /// The request was not sent.
    NotSent(String),
    /// The service answered with an error status.
    BadStatus(String),
    /// The body was not read.
    Unread(String),
    /// The body.
    Read(T),
}

/// The body of a reply, or the error that the reply stands for.
pub fn body_of<T>(reply: Reply<T>) -> (r: Result<T, EngineError>)
    ensures
        match reply {
            Reply::Read(t) => r == Ok::<T, EngineError>(t),
            Reply::NotSent(why) => r is Err && r->Err_0.deep_view() == ErrorModel::Network(why@),
            Reply::BadStatus(why) => r is Err && r->Err_0.deep_view() == ErrorModel::Api(why@),
            Reply::Unread(why) => r is Err && r->Err_0.deep_view() == ErrorModel::Parse(why@),
        },
{
    match reply {
        Reply::Read(t) => Ok(t),
        Reply::NotSent(why) => Err(EngineError::Network(why)),
        Reply::BadStatus(why) => Err(EngineError::Api(why)),
        Reply::Unread(why) => Err(EngineError::Parse(why)),
    }
}

// Chains

/// The engines.
#[derive(Debug, Clone, PartialEq)]
pub enum EngineId {
    /// A language model, by the `id` of its provider.
    Llm(String),
    Google,
    Youdao,
    Bing,
}

/// What an [`EngineId`] says.
pub enum EngineModel {
    Llm(Seq<char>),
    Google,
    Youdao,
    Bing,
}

/// The name of an engine.
pub open spec fn engine_name(e: EngineModel) -> Seq<char> {
    match e {
        EngineModel::Llm(id) => id,
        EngineModel::Google => "google"@,
        EngineModel::Youdao => "youdao"@,
        EngineModel::Bing => "bing"@,
    }
}

impl DeepView for EngineId {
    type V = EngineModel;

    open spec fn deep_view(&self) -> EngineModel {
        match self {
            EngineId::Llm(id) => EngineModel::Llm(id@),
            EngineId::Google => EngineModel::Google,
            EngineId::Youdao => EngineModel::Youdao,
            EngineId::Bing => EngineModel::Bing,
        }
    }
}

impl EngineId {
    /// The name of the engine.
    pub fn name(&self) -> (r: String)
        ensures
            r@ == engine_name(self.deep_view()),
    {
        match self {
            EngineId::Llm(id) => text::copy(id),
            EngineId::Google => text::copy("google"),
            EngineId::Youdao => text::copy("youdao"),
            EngineId::Bing => text::copy("bing"),
        }
    }
}

/// Engines in the order in which they are tried.
#[derive(Debug, Clone, PartialEq)]
pub struct Chain {
    pub engines: Vec<EngineId>,
}

impl DeepView for Chain {
    type V = Seq<EngineModel>;

    open spec fn deep_view(&self) -> Seq<EngineModel> {
        self.engines.deep_view()
    }
}

/// What a chain does next.
#[derive(Debug, Clone, PartialEq)]
pub enum ChainStep {
    /// Ask the engine at this position.
    Ask(usize),
    /// The translation and the name of the engine that made it.
    Done(String, String),
    /// No engine translated.
    Failed(EngineError),
}

/// What a [`ChainStep`] says.
pub enum ChainModel {
    Ask(nat),
    Done(Seq<char>, Seq<char>),
    Failed(ErrorModel),
}

impl DeepView for ChainStep {
    type V = ChainModel;

    open spec fn deep_view(&self) -> ChainModel {
        match self {
            ChainStep::Ask(i) => ChainModel::Ask(*i as nat),
            ChainStep::Done(t, e) => ChainModel::Done(t@, e@),
            ChainStep::Failed(e) => ChainModel::Failed(e.deep_view()),
        }
    }
}

/// Why a chain without engines fails.
pub open spec fn no_engines() -> ErrorModel {
    ErrorModel::Api("no engines configured"@)
}

/// The first step.
pub open spec fn chain_start(engines: Seq<EngineModel>) -> ChainModel {
    if engines.len() == 0 {
        ChainModel::Failed(no_engines())
    } else {
        ChainModel::Ask(0)
    }
}

/// The step after the engine at `at` was asked: a translation ends the chain, a
/// failure leads to the next engine, and the last failure is the chain's.
pub open spec fn chain_next(
    engines: Seq<EngineModel>,
    at: nat,
    answer: Result<Seq<char>, ErrorModel>,
) -> ChainModel {
    match answer {
        Ok(t) => ChainModel::Done(t, engine_name(engines[at as int])),
        Err(e) => if at + 1 < engines.len() {
            ChainModel::Ask(at + 1)
        } else {
            ChainModel::Failed(e)
        },
    }
}

impl Chain {
    /// The first step.
    pub fn start(&self) -> (r: ChainStep)
        ensures
            r.deep_view() == chain_start(self.deep_view()),
    {
        assert(self.deep_view().len() == self.engines@.len());
        if self.engines.len() == 0 {
            ChainStep::Failed(EngineError::Api(text::copy("no engines configured")))
        } else {
            ChainStep::Ask(0)
        }
    }

    /// The step after the engine at `at` answered.
    pub fn next(&self, at: usize, answer: Result<String, EngineError>) -> (r: ChainStep)
        requires
            at < self.engines@.len(),
        ensures
            r.deep_view() == chain_next(self.deep_view(), at as nat, outcome(answer)),
    {
        assert(self.deep_view().len() == self.engines@.len());
        match answer {
            Ok(t) => ChainStep::Done(t, self.engines[at].name()),
            Err(e) => if at < self.engines.len() - 1 {
                ChainStep::Ask(at + 1)
            } else {
                ChainStep::Failed(e)
            },
        }
    }
}

/// What a chain ends with where the engine at `i` gives `answers[i]`, from `at` on.
pub open spec fn chain_run(
    engines: Seq<EngineModel>,
    answers: Seq<Result<Seq<char>, ErrorModel>>,
    step: ChainModel,
) -> ChainModel
    decreases
            (match step {
                ChainModel::Ask(i) => engines.len() - i,
                _ => 0int,
            }),
{
    match step {
        ChainModel::Ask(i) => if i < engines.len() {
            chain_run(engines, answers, chain_next(engines, i, answers[i as int]))
        } else {
            step
        },
        _ => step,
    }
}

/// A chain ends with the translation of the first engine that translates.
pub proof fn law_chain_takes_first_success(
    engines: Seq<EngineModel>,
    answers: Seq<Result<Seq<char>, ErrorModel>>,
    k: int,
)
    requires
        answers.len() == engines.len(),
        0 <= k < engines.len(),
        answers[k] is Ok,
        forall|i: int| 0 <= i < k ==> #[trigger] answers[i] is Err,
    ensures
        chain_run(engines, answers, chain_start(engines)) == ChainModel::Done(
            answers[k]->Ok_0,
            engine_name(engines[k]),
        ),
{
    lemma_chain_reaches(engines, answers, 0, k);
}

proof fn lemma_chain_reaches(
    engines: Seq<EngineModel>,
    answers: Seq<Result<Seq<char>, ErrorModel>>,
    i: int,
    k: int,
)
    requires
        answers.len() == engines.len(),
        0 <= i <= k < engines.len(),
        forall|j: int| 0 <= j < k ==> #[trigger] answers[j] is Err,
    ensures
        chain_run(engines, answers, ChainModel::Ask(i as nat)) == chain_run(
            engines,
            answers,
            chain_next(engines, k as nat, answers[k]),
        ),
    decreases k - i,
{
    if i < k {
        assert(answers[i] is Err);
        lemma_chain_reaches(engines, answers, i + 1, k);
    }
}

/// A chain whose engines all fail ends with the last error; one without engines
/// ends with an error too.
pub proof fn law_chain_reports_last_error(
    engines: Seq<EngineModel>,
    answers: Seq<Result<Seq<char>, ErrorModel>>,
)
    requires
        answers.len() == engines.len(),
        forall|i: int| 0 <= i < engines.len() ==> #[trigger] answers[i] is Err,
    ensures
        chain_run(engines, answers, chain_start(engines)) == ChainModel::Failed(
            if engines.len() == 0 {
                no_engines()
            } else {
                answers.last()->Err_0
            },
        ),
{
    if engines.len() > 0 {
        let k = engines.len() - 1;
        assert(answers[k] is Err);
        lemma_chain_reaches(engines, answers, 0, k);
    }
}

// Streams

/// The text of a stream so far.
pub struct Accumulator {
    text: String,
}

impl View for Accumulator {
    type V = Seq<char>;

    closed spec fn view(&self) -> Seq<char> {
        self.text@
    }
}

/// What a stream of this text amounts to.
pub open spec fn stream_end(all: Seq<char>) -> Result<Seq<char>, ErrorModel> {
    if all.len() == 0 {
        Err(ErrorModel::Parse("empty content"@))
    } else {
        Ok(all)
    }
}

impl Accumulator {
    /// A stream that has not begun.
    pub fn new() -> (r: Accumulator)
        ensures
            r@ == Seq::<char>::empty(),
    {
        let r = Accumulator { text: String::new() };
        assert(r@ =~= Seq::<char>::empty());
        r
    }

    /// Adds what came next.
    pub fn push(&mut self, delta: &str)
        ensures
            final(self)@ == old(self)@ + delta@,
    {
        self.text.append(delta);
    }

    /// The whole text; an error where nothing came.
    pub fn finish(self) -> (r: Result<String, EngineError>)
        ensures
            outcome(r) == stream_end(self@),
    {
        if text::empty(&self.text) {
            Err(parse_error("empty content"))
        } else {
            Ok(self.text)
        }
    }
}

/// Whether `name` stands in a list with this value and no other.
pub open spec fn valued(l: Seq<(Seq<char>, Seq<char>)>, name: Seq<char>, value: Seq<char>) -> bool {
    &&& l.contains((name, value))
    &&& forall|i: int| 0 <= i < l.len() && (#[trigger] l[i]).0 == name ==> l[i].1 == value
}

/// A stream amounts to everything that came, and to an error where that is
/// nothing.
pub proof fn law_stream_end(all: Seq<char>)
    ensures
        all.len() > 0 ==> stream_end(all) == Ok::<Seq<char>, ErrorModel>(all),
        all.len() == 0 ==> stream_end(all) is Err,
{
}

/// The three kinds of errors are told apart, and each says why.
pub proof fn law_errors_say_why(m: Seq<char>)
    ensures
        error_text(ErrorModel::Network(m)) == "network error: "@ + m,
        error_text(ErrorModel::Api(m)) == "engine api error: "@ + m,
        error_text(ErrorModel::Parse(m)) == "response parse error: "@ + m,
{
}

/// Each free engine is known by its own name, and a language model by its `id`.
pub proof fn law_engine_names(id: Seq<char>)
    ensures
        engine_name(EngineModel::Google) == "google"@,
        engine_name(EngineModel::Youdao) == "youdao"@,
        engine_name(EngineModel::Bing) == "bing"@,
        engine_name(EngineModel::Llm(id)) == id,
{
}

/// A request that was not sent is an error of the network, a status of failure
/// one of the service, and a body that could not be read one of the reply; each
/// says why. Only the page that Bing is asked for first counts as not sent where
/// it could not be read.
pub proof fn law_failed_replies(why: String, base: Seq<char>, req: RequestModel)
    ensures
        google::answer_for(Reply::NotSent(why)) == Err::<Seq<char>, ErrorModel>(
            ErrorModel::Network(why@),
        ),
        google::answer_for(Reply::BadStatus(why)) == Err::<Seq<char>, ErrorModel>(
            ErrorModel::Api(why@),
        ),
        google::answer_for(Reply::Unread(why)) == Err::<Seq<char>, ErrorModel>(
            ErrorModel::Parse(why@),
        ),
        youdao::answer_for(Reply::NotSent(why)) == Err::<Seq<char>, ErrorModel>(
            ErrorModel::Network(why@),
        ),
        youdao::answer_for(Reply::BadStatus(why)) == Err::<Seq<char>, ErrorModel>(
            ErrorModel::Api(why@),
        ),
        youdao::answer_for(Reply::Unread(why)) == Err::<Seq<char>, ErrorModel>(
            ErrorModel::Parse(why@),
        ),
        bing::answer_for(Reply::NotSent(why)) == Err::<Seq<char>, ErrorModel>(
            ErrorModel::Network(why@),
        ),
        bing::answer_for(Reply::BadStatus(why)) == Err::<Seq<char>, ErrorModel>(
            ErrorModel::Api(why@),
        ),
        bing::answer_for(Reply::Unread(why)) == Err::<Seq<char>, ErrorModel>(
            ErrorModel::Parse(why@),
        ),
        bing::after_page_reply(base, req, Reply::NotSent(why)) == Err::<HttpModel, ErrorModel>(
            ErrorModel::Network(why@),
        ),
        bing::after_page_reply(base, req, Reply::BadStatus(why)) == Err::<HttpModel, ErrorModel>(
            ErrorModel::Api(why@),
        ),
        bing::after_page_reply(base, req, Reply::Unread(why)) == Err::<HttpModel, ErrorModel>(
            ErrorModel::Network(why@),
        ),
        anthropic::answer_for(Reply::NotSent(why)) == Err::<Seq<char>, ErrorModel>(
            ErrorModel::Network(why@),
        ),
        anthropic::answer_for(Reply::BadStatus(why)) == Err::<Seq<char>, ErrorModel>(
            ErrorModel::Api(why@),
        ),
        anthropic::answer_for(Reply::Unread(why)) == Err::<Seq<char>, ErrorModel>(
            ErrorModel::Parse(why@),
        ),
{
}

/// Each engine is found at the address that the environment names, and at its own
/// where it names none.
pub proof fn law_addresses(
    env: Option<String>,
    g: google::GoogleEngine,
    y: youdao::YoudaoEngine,
    b: bing::BingEngine,
)
    requires
        call_ensures(google::GoogleEngine::new, (env,), g),
        call_ensures(youdao::YoudaoEngine::new, (env,), y),
        call_ensures(bing::BingEngine::new, (env,), b),
    ensures
        env is Some ==> g.base@ == env->0@ && y.base@ == env->0@ && b.base@ == env->0@,
        env is None ==> g.base@ == "https://clients5.google.com"@ && y.base@
            == "https://fanyi.youdao.com"@ && b.base@ == "https://cn.bing.com"@,
{
}

} // verus!
