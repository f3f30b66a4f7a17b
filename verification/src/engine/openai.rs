//! Endpoints that speak the OpenAI protocol, Ollama's among them.

use crate::engine::prompt;
use crate::engine::{outcome, parse_error};
use crate::engine::{EngineError, ErrorModel, TranslateRequest};
use crate::text;
use vstd::prelude::*;

verus! {

/// Where Ollama listens by itself.
pub const OLLAMA_DEFAULT_BASE_URL: &'static str = "http://127.0.0.1:11434/v1";

/// An endpoint and the model to use there.
#[derive(Debug, Clone, PartialEq)]
pub struct OpenAiConfig {
    pub id: String,
    pub base_url: String,
    pub api_key: String,
    pub model: String,
    pub system_prompt: Option<String>,
    pub user_prompt_template: Option<String>,
}

/// What a model configuration says, whatever protocol its endpoint speaks.
#[verifier::ext_equal]
pub struct EndpointModel {
    pub id: Seq<char>,
    pub base_url: Seq<char>,
    pub api_key: Seq<char>,
    pub model: Seq<char>,
    pub system_prompt: Option<Seq<char>>,
    pub user_prompt_template: Option<Seq<char>>,
}

impl DeepView for OpenAiConfig {
    type V = EndpointModel;

    open spec fn deep_view(&self) -> EndpointModel {
        EndpointModel {
            id: self.id@,
            base_url: self.base_url@,
            api_key: self.api_key@,
            model: self.model@,
            system_prompt: self.system_prompt.deep_view(),
            user_prompt_template: self.user_prompt_template.deep_view(),
        }
    }
}

impl OpenAiConfig {
    /// A model of a local Ollama.
    pub fn for_ollama(model: &str) -> (r: OpenAiConfig)
        ensures
            r.deep_view() == (EndpointModel {
                id: "ollama"@,
                base_url: OLLAMA_DEFAULT_BASE_URL@,
                api_key: "ollama"@,
                model: model@,
                system_prompt: None,
                user_prompt_template: None,
            }),
    {
        OpenAiConfig {
            id: text::copy("ollama"),
            base_url: text::copy(OLLAMA_DEFAULT_BASE_URL),
            api_key: text::copy("ollama"),
            model: text::copy(model),
            system_prompt: None,
            user_prompt_template: None,
        }
    }

    /// The instructions and the request for the model.
    pub fn prompts(&self, req: &TranslateRequest) -> (r: (String, String))
        ensures
            (r.0@, r.1@) == prompt::prompts_for(
                self.system_prompt.deep_view(),
                self.user_prompt_template.deep_view(),
                req.deep_view(),
            ),
    {
        prompt::prompts(&self.system_prompt, &self.user_prompt_template, req)
    }
}

/// The content of the first choice.
pub open spec fn first_content(choices: Seq<Option<Seq<char>>>) -> Option<Seq<char>> {
    if choices.len() == 0 {
        None
    } else {
        choices[0]
    }
}

/// What the choices of a completion amount to.
pub open spec fn completion(choices: Seq<Option<Seq<char>>>) -> Result<Seq<char>, ErrorModel> {
    match first_content(choices) {
        Some(c) => if c.len() == 0 {
            Err(ErrorModel::Parse("empty content"@))
        } else {
            Ok(c)
        },
        None => Err(ErrorModel::Parse("empty content"@)),
    }
}

/// What a piece of a stream says: the content of its first choice.
pub fn read_chunk(choices: &Vec<Option<String>>) -> (r: Option<String>)
    ensures
        r.deep_view() == first_content(choices.deep_view()),
{
    if choices.len() == 0 {
        return None;
    }
    assert(choices.deep_view()[0] == choices@[0].deep_view());
    match &choices[0] {
        Some(c) => Some(text::copy(c)),
        None => None,
    }
}

/// The translation in the content of the first choice, where there is one.
pub fn read_completion(choices: &Vec<Option<String>>) -> (r: Result<String, EngineError>)
    ensures
        outcome(r) == completion(choices.deep_view()),
{
    match read_chunk(choices) {
        Some(c) => if text::empty(&c) {
            Err(parse_error("empty content"))
        } else {
            Ok(c)
        },
        None => Err(parse_error("empty content")),
    }
}

/// A completion is the content of its first choice, whatever the others say; no
/// choice, no content and an empty one are errors. A piece of a stream is the
/// content of its first choice too.
pub proof fn law_first_choice(c: Seq<char>, more: Seq<Option<Seq<char>>>)
    ensures
        first_content(seq![Some(c)] + more) == Some(c),
        first_content(seq![None] + more) is None,
        first_content(Seq::empty()) is None,
        c.len() > 0 ==> completion(seq![Some(c)] + more) == Ok::<Seq<char>, ErrorModel>(c),
        c.len() == 0 ==> completion(seq![Some(c)] + more) == Err::<Seq<char>, ErrorModel>(
            ErrorModel::Parse("empty content"@),
        ),
        completion(seq![None] + more) == Err::<Seq<char>, ErrorModel>(
            ErrorModel::Parse("empty content"@),
        ),
        completion(Seq::empty()) == Err::<Seq<char>, ErrorModel>(
            ErrorModel::Parse("empty content"@),
        ),
{
    assert((seq![Some(c)] + more)[0] == Some(c));
    assert((seq![None::<Seq<char>>] + more)[0] == None::<Seq<char>>);
}

/// A local Ollama is reached on its own port, by a name and a key of its own.
pub proof fn law_ollama(model: &str, r: OpenAiConfig)
    requires
        call_ensures(OpenAiConfig::for_ollama, (model,), r),
    ensures
        r.base_url@ == "http://127.0.0.1:11434/v1"@,
        r.id@ == "ollama"@,
        r.api_key@ == "ollama"@,
        r.model@ == model@,
        r.system_prompt is None,
        r.user_prompt_template is None,
{
    let m = r.deep_view();
    assert(m.base_url == r.base_url@ && m.id == r.id@ && m.api_key == r.api_key@ && m.model
        == r.model@);
    assert(m.system_prompt == r.system_prompt.deep_view());
    assert(m.user_prompt_template == r.user_prompt_template.deep_view());
}

} // verus!
