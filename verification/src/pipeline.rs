//! From a text to its translation: words through the dictionaries, sentences
//! through the engines, whole or as a stream.

use crate::config::{AppConfig, ProviderConfig, ProviderModel, ProviderType};
use crate::dict;
use crate::dict::{Answer, AnswerModel, CardModel, DictProvider, PosGloss, PosModel, WordCard};
use crate::engine;
use crate::engine::anthropic::AnthropicConfig;
use crate::engine::openai::{EndpointModel, OpenAiConfig, OLLAMA_DEFAULT_BASE_URL};
use crate::engine::{Accumulator, Chain, ChainModel, ChainStep, EngineError, EngineId};
use crate::engine::{EngineModel, ErrorModel};
use crate::engine::{RequestModel, TranslateRequest};
use crate::lang;
use crate::lang::Lang;
use crate::paths;
use crate::router;
use crate::router::{Route, RouteModel};
use crate::text;
use vstd::prelude::*;

verus! {

/// A translation and where it came from.
#[derive(Debug, Clone, PartialEq)]
pub struct Translation {
    pub source_lang: Lang,
    pub target_lang: Lang,
    pub text: String,
    pub translation: String,
    /// The dictionary or the engine; empty, as the translation is, where every
    /// engine failed.
    pub engine: String,
}

/// What a [`Translation`] says.
#[verifier::ext_equal]
pub struct TranslationModel {
    pub source_lang: Lang,
    pub target_lang: Lang,
    pub text: Seq<char>,
    pub translation: Seq<char>,
    pub engine: Seq<char>,
}

impl DeepView for Translation {
    type V = TranslationModel;

    open spec fn deep_view(&self) -> TranslationModel {
        TranslationModel {
            source_lang: self.source_lang,
            target_lang: self.target_lang,
            text: self.text@,
            translation: self.translation@,
            engine: self.engine@,
        }
    }
}

impl Translation {
    /// A copy.
    pub fn copy(&self) -> (r: Translation)
        ensures
            r.deep_view() == self.deep_view(),
    {
        Translation {
            source_lang: self.source_lang,
            target_lang: self.target_lang,
            text: text::copy(&self.text),
            translation: text::copy(&self.translation),
            engine: text::copy(&self.engine),
        }
    }
}

// Cards as text

/// One line of a card: the part of speech, where there is one, and the glosses.
pub open spec fn gloss_line(g: PosModel) -> Seq<char> {
    if g.pos.len() == 0 {
        text::join(g.gloss, "；"@)
    } else {
        g.pos + " "@ + text::join(g.gloss, "；"@)
    }
}

/// The lines of a card.
pub open spec fn card_lines(groups: Seq<PosModel>) -> Seq<char> {
    text::join(groups.map_values(|g: PosModel| gloss_line(g)), "\n"@)
}

fn line_of(g: &PosGloss) -> (r: String)
    ensures
        r@ == gloss_line(g.deep_view()),
{
    let glosses = text::join_all(&g.gloss, "；");
    if text::empty(&g.pos) {
        glosses
    } else {
        let mut r = text::cat(&g.pos, " ");
        r.append(&glosses);
        r
    }
}

/// A card as text: a line for each part of speech.
pub fn card_text(card: &WordCard) -> (r: String)
    ensures
        r@ == card_lines(card.deep_view().pos),
{
    let ghost want = card.deep_view().pos.map_values(|g: PosModel| gloss_line(g));
    let mut lines: Vec<String> = Vec::new();
    let mut i: usize = 0;
    while i < card.pos.len()
        invariant
            i <= card.pos@.len(),
            want == card.deep_view().pos.map_values(|g: PosModel| gloss_line(g)),
            lines.deep_view() == want.take(i as int),
        decreases card.pos@.len() - i,
    {
        let ghost before = lines.deep_view();
        lines.push(line_of(&card.pos[i]));
        assert(lines.deep_view() =~= before.push(want[i as int]));
        assert(want.take(i + 1) =~= before.push(want[i as int]));
        i += 1;
    }
    assert(want.take(i as int) =~= want);
    text::join_all(&lines, "\n")
}

// Words

/// The name of the dictionary for a language.
pub open spec fn dictionary(l: Lang) -> Seq<char> {
    match l {
        Lang::Zh => "cedict"@,
        Lang::En => "ecdict"@,
    }
}

/// The card for a word that no dictionary has.
pub open spec fn missing_card(
    word: Seq<char>,
    l: Lang,
    suggestions: Seq<Seq<char>>,
) -> CardModel {
    CardModel {
        found: false,
        word,
        phonetic: None,
        pos: Seq::empty(),
        definition: Seq::empty(),
        exchange: None,
        collins: None,
        oxford: false,
        tags: Seq::empty(),
        source: dictionary(l),
        suggestions,
    }
}

/// The card of a word: the entry in the dictionary of its language, else a card
/// that says so, with suggestions for English words.
pub open spec fn card_for(
    s: Seq<char>,
    en: Seq<AnswerModel>,
    zh: Seq<AnswerModel>,
) -> CardModel {
    let word = router::clean(s);
    match lang::lang_of(word) {
        Lang::Zh => match dict::entry_in(zh, word) {
            Some(c) => c,
            None => missing_card(word, Lang::Zh, Seq::empty()),
        },
        Lang::En => match dict::entry_in(en, word) {
            Some(c) => c,
            None => missing_card(word, Lang::En, dict::near_in(en, word)),
        },
    }
}

fn no_entry(word: &str, source: &str, suggestions: Vec<String>) -> (r: WordCard)
    ensures
        r.deep_view() == (CardModel {
            found: false,
            word: word@,
            phonetic: None,
            pos: Seq::empty(),
            definition: Seq::empty(),
            exchange: None,
            collins: None,
            oxford: false,
            tags: Seq::empty(),
            source: source@,
            suggestions: suggestions.deep_view(),
        }),
{
    let pos: Vec<PosGloss> = Vec::new();
    assert(pos.deep_view() =~= Seq::<PosModel>::empty());
    let definition: Vec<String> = Vec::new();
    assert(definition.deep_view() =~= Seq::<Seq<char>>::empty());
    let tags: Vec<String> = Vec::new();
    assert(tags.deep_view() =~= Seq::<Seq<char>>::empty());
    WordCard {
        found: false,
        word: text::copy(word),
        phonetic: None,
        pos,
        definition,
        exchange: None,
        collins: None,
        oxford: false,
        tags,
        source: text::copy(source),
        suggestions,
    }
}

/// The card of a word, by what the dictionaries answered.
pub fn lookup_by(word: &str, en: &Vec<Answer>, zh: &Vec<Answer>) -> (r: WordCard)
    ensures
        r.deep_view() == card_for(word@, en.deep_view(), zh.deep_view()),
{
    let word = router::sanitize(word);
    match lang::detect(&word) {
        Lang::Zh => match dict::entry_of(zh, &word) {
            Some(card) => card,
            None => {
                let none: Vec<String> = Vec::new();
                assert(none.deep_view() =~= Seq::<Seq<char>>::empty());
                no_entry(&word, "cedict", none)
            },
        },
        Lang::En => match dict::entry_of(en, &word) {
            Some(card) => card,
            None => no_entry(&word, "ecdict", dict::near_of(en, &word)),
        },
    }
}

/// Whether the dictionary of the language of a word was asked for it.
pub open spec fn word_asked(s: Seq<char>, en: Seq<AnswerModel>, zh: Seq<AnswerModel>) -> bool {
    match lang::lang_of(router::clean(s)) {
        Lang::Zh => dict::asked(zh, router::clean(s)),
        Lang::En => dict::asked(en, router::clean(s)),
    }
}

/// The card of a word. The dictionary of its language is asked for it, and the
/// English one for words close to a word that it lacks.
pub fn lookup<E: DictProvider + ?Sized, Z: DictProvider + ?Sized>(
    word: &str,
    en: &E,
    zh: &Z,
) -> (r: WordCard)
    ensures
        exists|from_en: Seq<AnswerModel>, from_zh: Seq<AnswerModel>|
            word_asked(word@, from_en, from_zh) && dict::all_answered(en, true, from_en)
                && dict::all_answered(zh, false, from_zh) && r.deep_view() == #[trigger] card_for(
                word@,
                from_en,
                from_zh,
            ),
{
    let mut from_en: Vec<Answer> = Vec::new();
    let mut from_zh: Vec<Answer> = Vec::new();
    let w = router::sanitize(word);
    match lang::detect(&w) {
        Lang::Zh => dict::ask(zh, &mut from_zh, &w, false),
        Lang::En => dict::ask(en, &mut from_en, &w, true),
    }
    lookup_by(word, &from_en, &from_zh)
}

// Plans

/// How a text is translated.
#[derive(Debug, Clone, PartialEq)]
pub enum Plan {
    /// The dictionary has it.
    Word(Translation),
    /// The engines are to be asked.
    Sentence(TranslateRequest),
}

/// What a [`Plan`] says.
pub enum PlanModel {
    Word(TranslationModel),
    Sentence(RequestModel),
}

impl DeepView for Plan {
    type V = PlanModel;

    open spec fn deep_view(&self) -> PlanModel {
        match self {
            Plan::Word(t) => PlanModel::Word(t.deep_view()),
            Plan::Sentence(r) => PlanModel::Sentence(r.deep_view()),
        }
    }
}

/// The request for a sentence: in the direction that its language gives.
pub open spec fn sentence_request(t: Seq<char>) -> RequestModel {
    RequestModel { text: t, from: lang::lang_of(t), to: lang::other(lang::lang_of(t)) }
}

/// A word is translated by its card; a sentence becomes a request.
pub open spec fn plan_for(
    s: Seq<char>,
    en: Seq<AnswerModel>,
    zh: Seq<AnswerModel>,
) -> PlanModel {
    match router::route(s, en, zh) {
        RouteModel::Word(w) => PlanModel::Word(
            TranslationModel {
                source_lang: lang::lang_of(w),
                target_lang: lang::other(lang::lang_of(w)),
                text: w,
                translation: card_lines(card_for(w, en, zh).pos),
                engine: card_for(w, en, zh).source,
            },
        ),
        RouteModel::Sentence(t) => PlanModel::Sentence(sentence_request(t)),
    }
}

/// How `text` is translated, by what the dictionaries answered.
pub fn plan_by(text: &str, en: &Vec<Answer>, zh: &Vec<Answer>) -> (r: Plan)
    ensures
        r.deep_view() == plan_for(text@, en.deep_view(), zh.deep_view()),
{
    match router::classify_by(text, en, zh) {
        Route::Word(w) => {
            let card = lookup_by(&w, en, zh);
            let (source_lang, target_lang) = lang::direction(&w);
            let translation = card_text(&card);
            Plan::Word(
                Translation { source_lang, target_lang, text: w, translation, engine: card.source },
            )
        },
        Route::Sentence(t) => {
            let (from, to) = lang::direction(&t);
            Plan::Sentence(TranslateRequest { text: t, from, to })
        },
    }
}

/// How `text` is translated with the two dictionaries. They are asked for
/// everything that decides over it.
pub fn plan<E: DictProvider + ?Sized, Z: DictProvider + ?Sized>(
    text: &str,
    en: &E,
    zh: &Z,
) -> (r: Plan)
    ensures
        exists|from_en: Seq<AnswerModel>, from_zh: Seq<AnswerModel>|
            router::all_asked(text@, from_en, from_zh) && dict::all_answered(en, false, from_en)
                && dict::all_answered(zh, false, from_zh) && r.deep_view() == #[trigger] plan_for(
                text@,
                from_en,
                from_zh,
            ),
{
    let (from_en, from_zh) = router::ask_for(text, en, zh);
    plan_by(text, &from_en, &from_zh)
}

/// A translation by an engine.
pub open spec fn engine_translation(
    req: RequestModel,
    translation: Seq<char>,
    engine: Seq<char>,
) -> TranslationModel {
    TranslationModel {
        source_lang: req.from,
        target_lang: req.to,
        text: req.text,
        translation,
        engine,
    }
}

/// The translation of a request by an engine.
pub fn translated(req: &TranslateRequest, translation: String, engine: String) -> (r: Translation)
    ensures
        r.deep_view() == engine_translation(req.deep_view(), translation@, engine@),
{
    Translation {
        source_lang: req.from,
        target_lang: req.to,
        text: text::copy(&req.text),
        translation,
        engine,
    }
}

/// The translation where every engine failed: none, by no engine.
pub fn untranslated(req: &TranslateRequest) -> (r: Translation)
    ensures
        r.deep_view() == engine_translation(req.deep_view(), Seq::empty(), Seq::empty()),
{
    let none = String::new();
    assert(none@ =~= Seq::<char>::empty());
    let nobody = String::new();
    assert(nobody@ =~= Seq::<char>::empty());
    translated(req, none, nobody)
}

// Engines

/// The free engines, in the order in which they are tried.
pub open spec fn free_engines() -> Seq<EngineModel> {
    seq![EngineModel::Google, EngineModel::Youdao, EngineModel::Bing]
}

/// The engines that are tried by default: the free ones, after the language
/// model where that is the default engine and there is one.
pub open spec fn default_engines(engine: Seq<char>, llm: Option<Seq<char>>) -> Seq<EngineModel> {
    match llm {
        Some(id) => if engine == "llm"@ {
            seq![EngineModel::Llm(id)] + free_engines()
        } else {
            free_engines()
        },
        None => free_engines(),
    }
}

/// The engines that are tried by default, with the `id` of the language model
/// that was set up.
pub fn default_chain(cfg: &AppConfig, llm: &Option<String>) -> (r: Chain)
    ensures
        r.deep_view() == default_engines(cfg.default_engine@, llm.deep_view()),
{
    let mut engines: Vec<EngineId> = Vec::new();
    match llm {
        Some(id) => if text::same(&cfg.default_engine, "llm") {
            engines.push(EngineId::Llm(text::copy(id)));
        },
        None => {},
    }
    engines.push(EngineId::Google);
    engines.push(EngineId::Youdao);
    engines.push(EngineId::Bing);
    let r = Chain { engines };
    assert(r.deep_view() =~= default_engines(cfg.default_engine@, llm.deep_view()));
    r
}

/// Why a chain of one engine cannot be made.
pub open spec fn no_llm() -> Seq<char> {
    "engine \"llm\" requested but no llm provider is configured"@
}

/// Why there is no engine of this name.
pub open spec fn unknown_engine(name: Seq<char>) -> Seq<char> {
    "unknown engine "@ + crate::config::in_quotes(name)
        + ", expected one of llm/google/youdao/bing"@
}

/// The chain of the named engine alone, or why there is none.
pub open spec fn single_engine(name: Seq<char>, llm: Option<Seq<char>>) -> Result<
    EngineModel,
    Seq<char>,
> {
    if name == "google"@ {
        Ok(EngineModel::Google)
    } else if name == "youdao"@ {
        Ok(EngineModel::Youdao)
    } else if name == "bing"@ {
        Ok(EngineModel::Bing)
    } else if name == "llm"@ {
        match llm {
            Some(id) => Ok(EngineModel::Llm(id)),
            None => Err(no_llm()),
        }
    } else {
        Err(unknown_engine(name))
    }
}

fn chain_of(e: EngineId) -> (r: Chain)
    ensures
        r.deep_view() == seq![e.deep_view()],
{
    let ghost said = e.deep_view();
    let mut engines: Vec<EngineId> = Vec::new();
    engines.push(e);
    let r = Chain { engines };
    assert(r.deep_view() =~= seq![said]);
    r
}

/// The chain of the named engine alone: `google`, `youdao`, `bing`, or `llm`
/// where a language model was set up.
pub fn chain_with(engine_name: &str, llm: &Option<String>) -> (r: Result<Chain, String>)
    ensures
        match r {
            Ok(c) => match single_engine(engine_name@, llm.deep_view()) {
                Ok(e) => c.deep_view() == seq![e],
                Err(_) => false,
            },
            Err(why) => single_engine(engine_name@, llm.deep_view()) == Err::<
                EngineModel,
                Seq<char>,
            >(why@),
        },
{
    if text::same(engine_name, "google") {
        Ok(chain_of(EngineId::Google))
    } else if text::same(engine_name, "youdao") {
        Ok(chain_of(EngineId::Youdao))
    } else if text::same(engine_name, "bing") {
        Ok(chain_of(EngineId::Bing))
    } else if text::same(engine_name, "llm") {
        match llm {
            Some(id) => Ok(chain_of(EngineId::Llm(text::copy(id)))),
            None => Err(
                text::copy("engine \"llm\" requested but no llm provider is configured"),
            ),
        }
    } else {
        let mut why = text::cat("unknown engine ", &crate::config::debug_of(engine_name));
        why.append(", expected one of llm/google/youdao/bing");
        Err(why)
    }
}

/// A language model that is set up.
#[derive(Debug, Clone, PartialEq)]
pub enum LlmSetup {
    OpenAi(OpenAiConfig),
    Anthropic(AnthropicConfig),
}

/// What an [`LlmSetup`] says.
pub enum SetupModel {
    OpenAi(EndpointModel),
    Anthropic(EndpointModel),
}

impl DeepView for LlmSetup {
    type V = SetupModel;

    open spec fn deep_view(&self) -> SetupModel {
        match self {
            LlmSetup::OpenAi(c) => SetupModel::OpenAi(c.deep_view()),
            LlmSetup::Anthropic(c) => SetupModel::Anthropic(c.deep_view()),
        }
    }
}

impl LlmSetup {
    /// The `id` of the provider.
    pub fn id(&self) -> (r: String)
        ensures
            r@ == (match self.deep_view() {
                SetupModel::OpenAi(c) => c.id,
                SetupModel::Anthropic(c) => c.id,
            }),
    {
        match self {
            LlmSetup::OpenAi(c) => text::copy(&c.id),
            LlmSetup::Anthropic(c) => text::copy(&c.id),
        }
    }
}

/// `s` without slashes at its end.
pub open spec fn without_slashes(s: Seq<char>) -> Seq<char>
    decreases s.len(),
{
    if s.len() > 0 && s.last() == '/' {
        without_slashes(s.drop_last())
    } else {
        s
    }
}

/// What a key is where none is given: local endpoints want some text.
pub open spec fn key_or_default(t: ProviderType, key: Option<Seq<char>>) -> Seq<char> {
    match key {
        Some(k) => k,
        None => match t {
            ProviderType::Openai => "none"@,
            ProviderType::Anthropic => Seq::empty(),
            ProviderType::Ollama => "ollama"@,
        },
    }
}

/// The endpoint of a provider with this key. Ollama has a default address.
pub open spec fn endpoint(p: ProviderModel, key: Option<Seq<char>>) -> EndpointModel {
    let base = without_slashes(p.base_url);
    EndpointModel {
        id: p.id,
        base_url: if p.provider_type == ProviderType::Ollama && base.len() == 0 {
            OLLAMA_DEFAULT_BASE_URL@
        } else {
            base
        },
        api_key: key_or_default(p.provider_type, key),
        model: p.model,
        system_prompt: p.system_prompt,
        user_prompt_template: p.user_prompt_template,
    }
}

/// How a provider is set up with this key.
pub open spec fn setup_for(p: ProviderModel, key: Option<Seq<char>>) -> SetupModel {
    if p.provider_type == ProviderType::Anthropic {
        SetupModel::Anthropic(endpoint(p, key))
    } else {
        SetupModel::OpenAi(endpoint(p, key))
    }
}

/// Whether the first provider with this `id` stands at `i`.
pub open spec fn provider_at(ps: Seq<ProviderModel>, id: Seq<char>, i: int) -> bool {
    &&& 0 <= i < ps.len()
    &&& ps[i].id == id
    &&& forall|j: int| 0 <= j < i ==> (#[trigger] ps[j]).id != id
}

fn strip_slashes(s: &str) -> (r: String)
    ensures
        r@ == without_slashes(s@),
{
    let v = text::chars_of(s);
    let mut n: usize = v.len();
    assert(v@.take(n as int) =~= v@);
    while n > 0 && v[n - 1] == '/'
        invariant
            n <= v@.len(),
            without_slashes(v@.take(n as int)) == without_slashes(v@),
        decreases n,
    {
        assert(v@.take(n as int).drop_last() =~= v@.take(n - 1));
        n -= 1;
    }
    assert(n > 0 ==> v@.take(n as int).last() == v@[n - 1]);
    let r = text::text_range(&v, 0, n);
    assert(r@ =~= v@.take(n as int));
    r
}

/// How a provider is set up with this key.
pub fn setup(p: &ProviderConfig, key: Option<String>) -> (r: LlmSetup)
    ensures
        r.deep_view() == setup_for(p.deep_view(), key.deep_view()),
{
    let base = strip_slashes(&p.base_url);
    let id = text::copy(&p.id);
    let model = text::copy(&p.model);
    let system_prompt = text::copy_opt(&p.system_prompt);
    let user_prompt_template = text::copy_opt(&p.user_prompt_template);
    match p.provider_type {
        ProviderType::Openai => {
            let api_key: String = match key {
                Some(k) => k,
                None => text::copy("none"),
            };
            LlmSetup::OpenAi(
                OpenAiConfig {
                    id,
                    base_url: base,
                    api_key,
                    model,
                    system_prompt,
                    user_prompt_template,
                },
            )
        },
        ProviderType::Anthropic => {
            let api_key: String = match key {
                Some(k) => k,
                None => String::new(),
            };
            assert(api_key@ =~= key_or_default(ProviderType::Anthropic, key.deep_view()));
            LlmSetup::Anthropic(
                AnthropicConfig {
                    id,
                    base_url: base,
                    api_key,
                    model,
                    system_prompt,
                    user_prompt_template,
                },
            )
        },
        ProviderType::Ollama => {
            let api_key: String = match key {
                Some(k) => k,
                None => text::copy("ollama"),
            };
            let base_url: String = if text::empty(&base) {
                text::copy(OLLAMA_DEFAULT_BASE_URL)
            } else {
                base
            };
            LlmSetup::OpenAi(
                OpenAiConfig {
                    id,
                    base_url,
                    api_key,
                    model,
                    system_prompt,
                    user_prompt_template,
                },
            )
        },
    }
}

/// The position of the default provider, if one is named and there is one.
pub fn default_provider(cfg: &AppConfig) -> (r: Option<usize>)
    ensures
        match r {
            Some(i) => cfg.llm.default_provider@.len() > 0 && provider_at(
                cfg.llm.providers.deep_view(),
                cfg.llm.default_provider@,
                i as int,
            ),
            None => cfg.llm.default_provider@.len() == 0 || forall|i: int|
                !provider_at(cfg.llm.providers.deep_view(), cfg.llm.default_provider@, i),
        },
{
    let id = &cfg.llm.default_provider;
    if text::empty(id) {
        return None;
    }
    let ps = &cfg.llm.providers;
    let mut i: usize = 0;
    while i < ps.len()
        invariant
            i <= ps@.len(),
            ps == &cfg.llm.providers,
            id == &cfg.llm.default_provider,
            id@.len() > 0,
            forall|j: int| 0 <= j < i ==> (#[trigger] ps.deep_view()[j]).id != id@,
        decreases ps@.len() - i,
    {
        assert(ps.deep_view()[i as int].id == ps@[i as int].id@);
        if text::same(&ps[i].id, id) {
            return Some(i);
        }
        i += 1;
    }
    None
}

/// The default language model, set up with the key that it holds or that
/// `get_env` gives; none where no provider is named or the name is unknown.
pub fn build_llm<E, F: Fn(String) -> Result<String, E>>(cfg: &AppConfig, get_env: F) -> (r: Option<
    LlmSetup,
>)
    requires
        forall|name: String| call_requires(get_env, (name,)),
    ensures
        match r {
            Some(s) => exists|i: int, key: Option<String>|
                {
                    &&& cfg.llm.default_provider@.len() > 0
                    &&& #[trigger] provider_at(
                        cfg.llm.providers.deep_view(),
                        cfg.llm.default_provider@,
                        i,
                    )
                    &&& #[trigger] setup_for(
                        cfg.llm.providers.deep_view()[i],
                        key.deep_view(),
                    ) == s.deep_view()
                    &&& match (cfg.llm.providers@[i].api_key, cfg.llm.providers@[i].api_key_env) {
                        (Some(k), _) => key.deep_view() == Some(k@),
                        (None, None) => key is None,
                        (None, Some(var)) => exists|name: String, got: Result<String, E>|
                            {
                                &&& name@ == var@
                                &&& #[trigger] call_ensures(get_env, (name,), got)
                                &&& key == (match got {
                                    Ok(k) => Some(k),
                                    Err(_) => None,
                                })
                            },
                    }
                },
            None => cfg.llm.default_provider@.len() == 0 || forall|i: int|
                !provider_at(cfg.llm.providers.deep_view(), cfg.llm.default_provider@, i),
        },
{
    match default_provider(cfg) {
        None => None,
        Some(i) => {
            let p = &cfg.llm.providers[i];
            assert(cfg.llm.providers.deep_view()[i as int] == p.deep_view());
            let key = p.resolve_api_key(get_env);
            let ghost k = key;
            let s = setup(p, key);
            assert(setup_for(cfg.llm.providers.deep_view()[i as int], k.deep_view())
                == s.deep_view());
            Some(s)
        },
    }
}

// Places

/// Why there is no place for data.
pub open spec fn no_home() -> Seq<char> {
    "PARDON_HOME unset and XDG data dir unavailable"@
}

/// Where data is kept: where the environment says, else in the data directory.
pub open spec fn home_for(env: Option<Seq<char>>, data_dir: Option<Seq<char>>) -> Result<
    Seq<char>,
    Seq<char>,
> {
    if env is Some && env->0.len() > 0 {
        Ok(env->0)
    } else {
        match data_dir {
            Some(d) => Ok(paths::below(d, "pardon"@)),
            None => Err(no_home()),
        }
    }
}

/// Where data is kept.
pub fn pardon_home(env: &Option<String>, data_dir: &Option<String>) -> (r: Result<String, String>)
    ensures
        match r {
            Ok(p) => home_for(env.deep_view(), data_dir.deep_view()) == Ok::<
                Seq<char>,
                Seq<char>,
            >(p@),
            Err(why) => home_for(env.deep_view(), data_dir.deep_view()) == Err::<
                Seq<char>,
                Seq<char>,
            >(why@),
        },
{
    match env {
        Some(home) => if !text::empty(home) {
            return Ok(text::copy(home));
        },
        None => {},
    }
    match data_dir {
        Some(d) => Ok(paths::join(d, "pardon")),
        None => Err(text::copy("PARDON_HOME unset and XDG data dir unavailable")),
    }
}

/// What is said where a dictionary file is missing.
pub open spec fn missing_text(name: Seq<char>, path: Seq<char>) -> Seq<char> {
    "pardon: "@ + name + " dictionary not found at "@ + path
        + "; run the importer (see dicts/README.md)"@
}

/// What is said where a dictionary file is missing.
pub fn missing_dictionary(name: &str, path: &str) -> (r: String)
    ensures
        r@ == missing_text(name@, path@),
{
    let mut r = text::cat("pardon: ", name);
    r.append(" dictionary not found at ");
    r.append(path);
    r.append("; run the importer (see dicts/README.md)");
    r
}

// Streams

/// What happens while a sentence is translated.
#[derive(Debug)]
pub enum StreamInput {
    /// The language model said something more.
    Delta(String),
    /// The language model is done, or failed.
    End(Option<EngineError>),
    /// An engine answered.
    Answer(Result<String, EngineError>),
}

/// What a [`StreamInput`] says.
pub enum InputModel {
    Delta(Seq<char>),
    End(Option<ErrorModel>),
    Answer(Result<Seq<char>, ErrorModel>),
}

impl DeepView for StreamInput {
    type V = InputModel;

    open spec fn deep_view(&self) -> InputModel {
        match self {
            StreamInput::Delta(t) => InputModel::Delta(t@),
            StreamInput::End(e) => InputModel::End(e.deep_view()),
            StreamInput::Answer(a) => InputModel::Answer(engine::outcome(*a)),
        }
    }
}

/// What is to be done next.
#[derive(Debug, Clone, PartialEq)]
pub enum StreamNext {
    /// Start the language model's stream.
    Start,
    /// Wait for what happens.
    Wait,
    /// Ask the engine at this position of the chain.
    Ask(usize),
    /// The translation is complete.
    Done(Translation),
    /// There is no translation.
    Failed(EngineError),
}

/// What a [`StreamNext`] says.
pub enum NextModel {
    Start,
    Wait,
    Ask(nat),
    Done(TranslationModel),
    Failed(ErrorModel),
}

impl DeepView for StreamNext {
    type V = NextModel;

    open spec fn deep_view(&self) -> NextModel {
        match self {
            StreamNext::Start => NextModel::Start,
            StreamNext::Wait => NextModel::Wait,
            StreamNext::Ask(i) => NextModel::Ask(*i as nat),
            StreamNext::Done(t) => NextModel::Done(t.deep_view()),
            StreamNext::Failed(e) => NextModel::Failed(e.deep_view()),
        }
    }
}

/// A piece of translation to hand on, if any, and what is to be done next.
#[derive(Debug, Clone, PartialEq)]
pub struct StreamStep {
    pub delta: Option<String>,
    pub next: StreamNext,
}

/// What a [`StreamStep`] says.
#[verifier::ext_equal]
pub struct StepModel {
    pub delta: Option<Seq<char>>,
    pub next: NextModel,
}

impl DeepView for StreamStep {
    type V = StepModel;

    open spec fn deep_view(&self) -> StepModel {
        StepModel { delta: self.delta.deep_view(), next: self.next.deep_view() }
    }
}

/// How far the translation of a sentence has come.
enum Phase {
    /// The language model is at work; what it said so far.
    Streaming(Accumulator),
    /// The engine at this position was asked.
    Asking(usize),
    /// It is over.
    Over,
}

/// What a phase says.
pub enum PhaseModel {
    Streaming(Seq<char>),
    Asking(nat),
    Over,
}

/// The translation of one sentence as a stream: by the language model, where
/// there is one, and by the chain where it fails or there is none.
pub struct StreamRun {
    req: TranslateRequest,
    llm: Option<String>,
    chain: Chain,
    phase: Phase,
}

/// What a [`StreamRun`] says.
#[verifier::ext_equal]
pub struct RunModel {
    pub req: RequestModel,
    pub llm: Option<Seq<char>>,
    pub engines: Seq<EngineModel>,
    pub phase: PhaseModel,
}

impl View for StreamRun {
    type V = RunModel;

    closed spec fn view(&self) -> RunModel {
        RunModel {
            req: self.req.deep_view(),
            llm: self.llm.deep_view(),
            engines: self.chain.deep_view(),
            phase: match self.phase {
                Phase::Streaming(a) => PhaseModel::Streaming(a@),
                Phase::Asking(i) => PhaseModel::Asking(i as nat),
                Phase::Over => PhaseModel::Over,
            },
        }
    }
}

/// The phase and the step that a step of the chain leads to. A translation is
/// handed on in one piece.
pub open spec fn from_chain(m: RunModel, step: ChainModel) -> (RunModel, StepModel) {
    match step {
        ChainModel::Ask(i) => (
            RunModel { phase: PhaseModel::Asking(i), ..m },
            StepModel { delta: None, next: NextModel::Ask(i) },
        ),
        ChainModel::Done(t, e) => (
            RunModel { phase: PhaseModel::Over, ..m },
            StepModel {
                delta: Some(t),
                next: NextModel::Done(engine_translation(m.req, t, e)),
            },
        ),
        ChainModel::Failed(e) => (
            RunModel { phase: PhaseModel::Over, ..m },
            StepModel { delta: None, next: NextModel::Failed(e) },
        ),
    }
}

/// How the translation of a sentence begins.
pub open spec fn run_start(
    req: RequestModel,
    llm: Option<Seq<char>>,
    engines: Seq<EngineModel>,
) -> (RunModel, StepModel) {
    if llm is Some {
        (
            RunModel { req, llm, engines, phase: PhaseModel::Streaming(Seq::empty()) },
            StepModel { delta: None, next: NextModel::Start },
        )
    } else {
        from_chain(
            RunModel { req, llm, engines, phase: PhaseModel::Over },
            engine::chain_start(engines),
        )
    }
}

/// How the translation of a text begins: that of a word is handed on in one
/// piece, and nothing follows.
pub open spec fn stream_start(
    plan: PlanModel,
    llm: Option<Seq<char>>,
    engines: Seq<EngineModel>,
) -> (RunModel, StepModel) {
    match plan {
        PlanModel::Word(t) => (
            RunModel {
                req: RequestModel { text: t.text, from: t.source_lang, to: t.target_lang },
                llm,
                engines,
                phase: PhaseModel::Over,
            },
            StepModel { delta: Some(t.translation), next: NextModel::Done(t) },
        ),
        PlanModel::Sentence(req) => run_start(req, llm, engines),
    }
}

/// How it goes on. What the language model says is handed on as it comes, empty
/// pieces apart; if it ends well and said anything, that is the translation.
/// Otherwise the chain is asked. What comes out of place changes nothing.
pub open spec fn run_next(m: RunModel, input: InputModel) -> (RunModel, StepModel) {
    match (m.phase, input) {
        (PhaseModel::Streaming(all), InputModel::Delta(t)) => (
            RunModel { phase: PhaseModel::Streaming(all + t), ..m },
            StepModel {
                delta: if t.len() == 0 {
                    None
                } else {
                    Some(t)
                },
                next: NextModel::Wait,
            },
        ),
        (PhaseModel::Streaming(all), InputModel::End(e)) => if e is None && all.len() > 0
            && m.llm is Some {
            (
                RunModel { phase: PhaseModel::Over, ..m },
                StepModel {
                    delta: None,
                    next: NextModel::Done(engine_translation(m.req, all, m.llm->0)),
                },
            )
        } else {
            from_chain(m, engine::chain_start(m.engines))
        },
        (PhaseModel::Asking(i), InputModel::Answer(a)) => from_chain(
            m,
            engine::chain_next(m.engines, i, a),
        ),
        _ => (m, StepModel { delta: None, next: NextModel::Wait }),
    }
}

fn step_from(req: &TranslateRequest, step: ChainStep) -> (r: (Phase, StreamStep))
    ensures
        ({
            let m = RunModel {
                req: req.deep_view(),
                llm: None,
                engines: Seq::empty(),
                phase: PhaseModel::Over,
            };
            let (after, out) = from_chain(m, step.deep_view());
            &&& after.phase == (match r.0 {
                Phase::Streaming(a) => PhaseModel::Streaming(a@),
                Phase::Asking(i) => PhaseModel::Asking(i as nat),
                Phase::Over => PhaseModel::Over,
            })
            &&& out == r.1.deep_view()
        }),
{
    match step {
        ChainStep::Ask(i) => (
            Phase::Asking(i),
            StreamStep { delta: None, next: StreamNext::Ask(i) },
        ),
        ChainStep::Done(t, e) => {
            let delta = text::copy(&t);
            let done = translated(req, t, e);
            (Phase::Over, StreamStep { delta: Some(delta), next: StreamNext::Done(done) })
        },
        ChainStep::Failed(e) => (
            Phase::Over,
            StreamStep { delta: None, next: StreamNext::Failed(e) },
        ),
    }
}

impl StreamRun {
    /// Whether the engine that was asked last is one of the chain.
    pub closed spec fn in_chain(&self) -> bool {
        self.phase matches Phase::Asking(i) ==> i < self.chain.engines@.len()
    }

    /// How the translation of a sentence begins, with the `id` of the language
    /// model that was set up, if any.
    pub fn start(req: TranslateRequest, llm: Option<String>, chain: Chain) -> (r: (
        StreamRun,
        StreamStep,
    ))
        ensures
            (r.0@, r.1.deep_view()) == run_start(
                req.deep_view(),
                llm.deep_view(),
                chain.deep_view(),
            ),
            r.0.in_chain(),
    {
        if llm.is_some() {
            (
                StreamRun { req, llm, chain, phase: Phase::Streaming(Accumulator::new()) },
                StreamStep { delta: None, next: StreamNext::Start },
            )
        } else {
            let first = chain.start();
            let (phase, step) = step_from(&req, first);
            (StreamRun { req, llm, chain, phase }, step)
        }
    }

    /// How the translation of a text begins, with the `id` of the language model
    /// that was set up, if any.
    pub fn begin(plan: Plan, llm: Option<String>, chain: Chain) -> (r: (StreamRun, StreamStep))
        ensures
            (r.0@, r.1.deep_view()) == stream_start(
                plan.deep_view(),
                llm.deep_view(),
                chain.deep_view(),
            ),
            r.0.in_chain(),
    {
        match plan {
            Plan::Word(t) => {
                let req = TranslateRequest {
                    text: text::copy(&t.text),
                    from: t.source_lang,
                    to: t.target_lang,
                };
                let delta = Some(text::copy(&t.translation));
                (
                    StreamRun { req, llm, chain, phase: Phase::Over },
                    StreamStep { delta, next: StreamNext::Done(t) },
                )
            },
            Plan::Sentence(req) => StreamRun::start(req, llm, chain),
        }
    }

    /// What is to be translated.
    pub fn request(&self) -> (r: &TranslateRequest)
        ensures
            r.deep_view() == self@.req,
    {
        &self.req
    }

    /// How it goes on.
    pub fn next(&mut self, input: StreamInput) -> (r: StreamStep)
        requires
            old(self).in_chain(),
        ensures
            (final(self)@, r.deep_view()) == run_next(old(self)@, input.deep_view()),
            final(self).in_chain(),
    {
        let mut phase = Phase::Over;
        std::mem::swap(&mut phase, &mut self.phase);
        match (phase, input) {
            (Phase::Streaming(mut all), StreamInput::Delta(t)) => {
                all.push(&t);
                self.phase = Phase::Streaming(all);
                if text::empty(&t) {
                    StreamStep { delta: None, next: StreamNext::Wait }
                } else {
                    StreamStep { delta: Some(t), next: StreamNext::Wait }
                }
            },
            (Phase::Streaming(all), StreamInput::End(e)) => {
                let ok = e.is_none();
                match (all.finish(), &self.llm) {
                    (Ok(whole), Some(id)) => {
                        if ok {
                            let done = translated(&self.req, whole, text::copy(id));
                            return StreamStep { delta: None, next: StreamNext::Done(done) };
                        }
                    },
                    _ => {},
                }
                let first = self.chain.start();
                let (phase, step) = step_from(&self.req, first);
                self.phase = phase;
                step
            },
            (Phase::Asking(i), StreamInput::Answer(a)) => {
                let then = self.chain.next(i, a);
                let (phase, step) = step_from(&self.req, then);
                self.phase = phase;
                step
            },
            (phase, _) => {
                self.phase = phase;
                StreamStep { delta: None, next: StreamNext::Wait }
            },
        }
    }
}

// Laws

/// What is handed on over a run, from a state on.
pub open spec fn handed_on(m: RunModel, inputs: Seq<InputModel>) -> Seq<char>
    decreases inputs.len(),
{
    if inputs.len() == 0 {
        Seq::empty()
    } else {
        let (m2, step) = run_next(m, inputs[0]);
        (match step.delta {
            Some(t) => t,
            None => Seq::empty(),
        }) + handed_on(m2, inputs.skip(1))
    }
}

/// The state after a run.
pub open spec fn state_after(m: RunModel, inputs: Seq<InputModel>) -> RunModel
    decreases inputs.len(),
{
    if inputs.len() == 0 {
        m
    } else {
        state_after(run_next(m, inputs[0]).0, inputs.skip(1))
    }
}

/// While the language model speaks, what is handed on is what it said, and
/// nothing is lost by leaving out empty pieces.
pub proof fn law_stream_hands_on_everything(m: RunModel, inputs: Seq<InputModel>)
    requires
        m.phase is Streaming,
        forall|i: int| 0 <= i < inputs.len() ==> #[trigger] inputs[i] is Delta,
    ensures
        state_after(m, inputs).phase == PhaseModel::Streaming(
            m.phase->Streaming_0 + handed_on(m, inputs),
        ),
        state_after(m, inputs).req == m.req,
        state_after(m, inputs).llm == m.llm,
        state_after(m, inputs).engines == m.engines,
    decreases inputs.len(),
{
    let all = m.phase->Streaming_0;
    if inputs.len() == 0 {
        assert(all + Seq::<char>::empty() =~= all);
    } else {
        assert(inputs[0] is Delta);
        let t = inputs[0]->Delta_0;
        let (m2, step) = run_next(m, inputs[0]);
        let rest = inputs.skip(1);
        assert forall|i: int| 0 <= i < rest.len() implies #[trigger] rest[i] is Delta by {
            assert(rest[i] == inputs[i + 1]);
        }
        law_stream_hands_on_everything(m2, rest);
        if t.len() == 0 {
            assert(t =~= Seq::<char>::empty());
        }
        assert((all + t) + handed_on(m2, rest) =~= all + (t + handed_on(m2, rest)));
    }
}

/// A stream that ends well after saying something gives the translation that
/// was handed on piece by piece, by the language model.
pub proof fn law_streamed_translation_is_what_was_handed_on(
    req: RequestModel,
    llm: Seq<char>,
    engines: Seq<EngineModel>,
    inputs: Seq<InputModel>,
)
    requires
        forall|i: int| 0 <= i < inputs.len() ==> #[trigger] inputs[i] is Delta,
        handed_on(run_start(req, Some(llm), engines).0, inputs).len() > 0,
    ensures
        ({
            let m = run_start(req, Some(llm), engines).0;
            run_next(state_after(m, inputs), InputModel::End(None)).1 == StepModel {
                delta: None,
                next: NextModel::Done(engine_translation(req, handed_on(m, inputs), llm)),
            }
        }),
{
    let m = run_start(req, Some(llm), engines).0;
    law_stream_hands_on_everything(m, inputs);
    assert(Seq::<char>::empty() + handed_on(m, inputs) =~= handed_on(m, inputs));
}

/// A translation by the chain is handed on once and whole.
pub proof fn law_chain_translation_is_one_piece(m: RunModel, step: ChainModel)
    ensures
        match from_chain(m, step).1.next {
            NextModel::Done(t) => from_chain(m, step).1.delta == Some(t.translation),
            _ => from_chain(m, step).1.delta is None,
        },
{
}

/// Where the language model fails, or says nothing, the chain is asked.
pub proof fn law_failed_stream_falls_back(m: RunModel, e: Option<ErrorModel>)
    requires
        m.phase is Streaming,
        e is Some || m.phase->Streaming_0.len() == 0,
        m.engines.len() > 0,
    ensures
        run_next(m, InputModel::End(e)).1 == (StepModel { delta: None, next: NextModel::Ask(0) }),
        run_next(m, InputModel::End(e)).0.phase == PhaseModel::Asking(0),
{
}

/// A card without an entry says so, names the dictionary of the language of the
/// word, and has suggestions for English words alone.
pub proof fn law_missing_word(s: Seq<char>, en: Seq<AnswerModel>, zh: Seq<AnswerModel>)
    requires
        lang::lang_of(router::clean(s)) == Lang::Zh ==> dict::entry_in(zh, router::clean(s)) is None,
        lang::lang_of(router::clean(s)) == Lang::En ==> dict::entry_in(en, router::clean(s)) is None,
    ensures
        !card_for(s, en, zh).found,
        card_for(s, en, zh).word == router::clean(s),
        card_for(s, en, zh).source == dictionary(lang::lang_of(router::clean(s))),
        lang::lang_of(router::clean(s)) == Lang::Zh ==> card_for(s, en, zh).suggestions.len() == 0,
{
}

/// Every default chain ends with the free engines, in the same order.
pub proof fn law_default_chain_has_free_engines(engine: Seq<char>, llm: Option<Seq<char>>)
    ensures
        default_engines(engine, llm).len() >= 3,
        default_engines(engine, llm).skip(default_engines(engine, llm).len() - 3)
            == free_engines(),
{
    assert(default_engines(engine, llm).skip(default_engines(engine, llm).len() - 3)
        =~= free_engines());
}

/// A gloss line has the part of speech, a space and the glosses, with full-width
/// semicolons between them; without a part of speech, the glosses alone. A card
/// has a line for each group.
pub proof fn law_card_text(pos: Seq<char>, a: Seq<char>, more: Seq<Seq<char>>, g: PosModel, h: PosModel)
    ensures
        pos.len() > 0 ==> gloss_line(PosModel { pos, gloss: seq![a] }) == pos + seq![' '] + a,
        gloss_line(PosModel { pos: Seq::empty(), gloss: seq![a] }) == a,
        more.len() > 0 ==> gloss_line(PosModel { pos, gloss: more.push(a) }) == gloss_line(
            PosModel { pos, gloss: more },
        ) + seq!['；'] + a,
        card_lines(Seq::empty()).len() == 0,
        card_lines(seq![g]) == gloss_line(g),
        card_lines(seq![g, h]) == gloss_line(g) + seq!['\n'] + gloss_line(h),
{
    reveal_strlit("；");
    reveal_strlit(" ");
    reveal_strlit("\n");
    assert("；"@ =~= seq!['；']);
    assert(" "@ =~= seq![' ']);
    assert("\n"@ =~= seq!['\n']);
    reveal_with_fuel(text::join, 3);
    if more.len() > 0 {
        assert(more.push(a).drop_last() =~= more);
        assert(gloss_line(PosModel { pos, gloss: more.push(a) }) =~= gloss_line(
            PosModel { pos, gloss: more },
        ) + seq!['；'] + a);
    }
    let f = |g: PosModel| gloss_line(g);
    assert(seq![g].map_values(f) =~= seq![gloss_line(g)]);
    assert(seq![g, h].map_values(f) =~= seq![gloss_line(g), gloss_line(h)]);
    assert(seq![gloss_line(g), gloss_line(h)].drop_last() =~= seq![gloss_line(g)]);
    assert(Seq::<PosModel>::empty().map_values(f) =~= Seq::<Seq<char>>::empty());
}

/// A word is looked up in the dictionary of its language, and the entry there is
/// its card; a word that is missing there has a card that says so, with the close
/// words of the English dictionary for an English word.
pub proof fn law_lookup(s: Seq<char>, en: Seq<AnswerModel>, zh: Seq<AnswerModel>)
    ensures
        ({
            let w = router::clean(s);
            let c = card_for(s, en, zh);
            &&& lang::lang_of(w) == Lang::Zh && dict::entry_in(zh, w) is Some ==> c
                == dict::entry_in(zh, w)->0
            &&& lang::lang_of(w) == Lang::En && dict::entry_in(en, w) is Some ==> c
                == dict::entry_in(en, w)->0
            &&& lang::lang_of(w) == Lang::Zh && dict::entry_in(zh, w) is None ==> !c.found && c.word
                == w && c.source == "cedict"@ && c.suggestions.len() == 0 && c.pos.len() == 0
            &&& lang::lang_of(w) == Lang::En && dict::entry_in(en, w) is None ==> !c.found && c.word
                == w && c.source == "ecdict"@ && c.suggestions == dict::near_in(en, w)
                && c.pos.len() == 0
        }),
{
}

/// A word is translated by the dictionary that has it: the translation is the
/// text of its card, and the engine the source of the card. A sentence becomes a
/// request for the whole cleaned text. Either goes from its own language into
/// the other.
pub proof fn law_plan(s: Seq<char>, en: Seq<AnswerModel>, zh: Seq<AnswerModel>)
    ensures
        match (router::route(s, en, zh), plan_for(s, en, zh)) {
            (RouteModel::Word(w), PlanModel::Word(t)) => {
                &&& t.text == w
                &&& t.translation == card_lines(card_for(w, en, zh).pos)
                &&& t.engine == card_for(w, en, zh).source
                &&& t.source_lang == lang::lang_of(w)
                &&& t.source_lang == Lang::Zh ==> t.target_lang == Lang::En
                &&& t.source_lang == Lang::En ==> t.target_lang == Lang::Zh
            },
            (RouteModel::Sentence(w), PlanModel::Sentence(r)) => {
                &&& r.text == w && r.from == lang::lang_of(w)
                &&& r.from == Lang::Zh ==> r.to == Lang::En
                &&& r.from == Lang::En ==> r.to == Lang::Zh
            },
            _ => false,
        },
{
}

/// Where the engine is `llm` and a language model is set up, it is asked first
/// and then Google, Youdao and Bing; otherwise those three alone.
pub proof fn law_default_chain(engine: Seq<char>, id: Seq<char>)
    ensures
        engine == "llm"@ ==> default_engines(engine, Some(id)) == seq![
            EngineModel::Llm(id),
            EngineModel::Google,
            EngineModel::Youdao,
            EngineModel::Bing,
        ],
        engine != "llm"@ ==> default_engines(engine, Some(id)) == seq![
            EngineModel::Google,
            EngineModel::Youdao,
            EngineModel::Bing,
        ],
        default_engines(engine, None) == seq![
            EngineModel::Google,
            EngineModel::Youdao,
            EngineModel::Bing,
        ],
{
    assert(seq![EngineModel::Llm(id)] + free_engines() =~= seq![
        EngineModel::Llm(id),
        EngineModel::Google,
        EngineModel::Youdao,
        EngineModel::Bing,
    ]);
}

/// An engine that is asked for by name is that engine; the language model is
/// there only where one is set up; any other name is an error that holds it.
pub proof fn law_named_engine(name: Seq<char>, llm: Option<Seq<char>>)
    ensures
        name == "google"@ ==> single_engine(name, llm) == Ok::<EngineModel, Seq<char>>(
            EngineModel::Google,
        ),
        name == "youdao"@ ==> single_engine(name, llm) == Ok::<EngineModel, Seq<char>>(
            EngineModel::Youdao,
        ),
        name == "bing"@ ==> single_engine(name, llm) == Ok::<EngineModel, Seq<char>>(
            EngineModel::Bing,
        ),
        name == "llm"@ && llm is Some ==> single_engine(name, llm) == Ok::<EngineModel, Seq<char>>(
            EngineModel::Llm(llm->0),
        ),
        name == "llm"@ && llm is None ==> single_engine(name, llm) is Err,
        name != "google"@ && name != "youdao"@ && name != "bing"@ && name != "llm"@
            ==> single_engine(name, llm) is Err,
{
    reveal_strlit("google");
    reveal_strlit("youdao");
    reveal_strlit("bing");
    reveal_strlit("llm");
    assert("google"@[0] == 'g' && "youdao"@[0] == 'y' && "bing"@[0] == 'b' && "llm"@[0] == 'l');
}

proof fn lemma_slashes(s: Seq<char>, n: nat)
    requires
        s.len() == 0 || s.last() != '/',
    ensures
        without_slashes(s + Seq::new(n, |i: int| '/')) == s,
    decreases n,
{
    let t = s + Seq::new(n, |i: int| '/');
    if n == 0 {
        assert(t =~= s);
    } else {
        assert(t.last() == '/');
        assert(t.drop_last() =~= s + Seq::new((n - 1) as nat, |i: int| '/'));
        lemma_slashes(s, (n - 1) as nat);
    }
}

/// A provider is set up by its own `id`, model and prompts, at its own address
/// without slashes at the end, with the key that was found; Anthropic's protocol
/// is used for its providers alone. Where no key was found a local model and an
/// open endpoint get a text in its place, and a local model without an address
/// is looked for where Ollama listens.
pub proof fn law_setup(p: ProviderModel, key: Option<Seq<char>>, base: Seq<char>, n: nat)
    requires
        base.len() > 0,
        base.last() != '/',
        p.base_url == base + Seq::new(n, |i: int| '/'),
    ensures
        ({
            let e = match setup_for(p, key) {
                SetupModel::OpenAi(e) => e,
                SetupModel::Anthropic(e) => e,
            };
            &&& setup_for(p, key) is Anthropic <==> p.provider_type == ProviderType::Anthropic
            &&& e.id == p.id && e.model == p.model && e.base_url == base
            &&& e.system_prompt == p.system_prompt
            &&& e.user_prompt_template == p.user_prompt_template
            &&& key is Some ==> e.api_key == key->0
            &&& key is None && p.provider_type == ProviderType::Ollama ==> e.api_key == "ollama"@
            &&& key is None && p.provider_type == ProviderType::Openai ==> e.api_key == "none"@
            &&& key is None && p.provider_type == ProviderType::Anthropic ==> e.api_key.len() == 0
        }),
        ({
            let q = ProviderModel { base_url: Seq::new(n, |i: int| '/'), ..p };
            p.provider_type == ProviderType::Ollama ==> setup_for(q, key)->OpenAi_0.base_url
                == "http://127.0.0.1:11434/v1"@
        }),
{
    lemma_slashes(base, n);
    let none = Seq::<char>::empty();
    lemma_slashes(none, n);
    assert(none + Seq::new(n, |i: int| '/') =~= Seq::new(n, |i: int| '/'));
}

/// Data is kept where the environment says, else in `pardon` below the data
/// directory, else nowhere.
pub proof fn law_home(env: Option<Seq<char>>, dir: Seq<char>)
    ensures
        env is Some && env->0.len() > 0 ==> home_for(env, Some(dir)) == Ok::<Seq<char>, Seq<char>>(
            env->0,
        ) && home_for(env, None) == Ok::<Seq<char>, Seq<char>>(env->0),
        (env is None || env->0.len() == 0) && dir.len() > 0 && dir.last() != '/' ==> home_for(
            env,
            Some(dir),
        ) == Ok::<Seq<char>, Seq<char>>(dir + "/pardon"@),
        env is None || env->0.len() == 0 ==> home_for(env, None) is Err,
{
    reveal_strlit("/pardon");
    reveal_strlit("pardon");
    assert(dir.push('/') + "pardon"@ =~= dir + "/pardon"@);
}

/// What a translation by an engine says: the text and the languages of the
/// request, the translation, and the engine.
pub proof fn law_engine_translation(req: RequestModel, t: Seq<char>, e: Seq<char>)
    ensures
        ({
            let r = engine_translation(req, t, e);
            r.text == req.text && r.source_lang == req.from && r.target_lang == req.to
                && r.translation == t && r.engine == e
        }),
{
}

/// A piece of a stream is handed on as it comes, unless it is empty; with a
/// language model the stream is started and nothing is asked yet; without one the
/// first engine of the chain is asked; an engine that answers ends the run with
/// its translation, under its name, and one that fails leads to the next.
pub proof fn law_stream_steps(m: RunModel, t: Seq<char>, i: nat, e: ErrorModel)
    requires
        i < m.engines.len(),
    ensures
        m.phase is Streaming && t.len() > 0 ==> run_next(m, InputModel::Delta(t)).1.delta == Some(t),
        m.phase is Streaming && t.len() == 0 ==> run_next(m, InputModel::Delta(t)).1.delta is None,
        m.llm is Some ==> run_start(m.req, m.llm, m.engines).1.next is Start,
        m.llm is None ==> run_start(m.req, m.llm, m.engines).1.next == NextModel::Ask(0),
        m.phase == PhaseModel::Asking(i) ==> run_next(m, InputModel::Answer(Ok(t))).1 == (StepModel {
            delta: Some(t),
            next: NextModel::Done(
                TranslationModel {
                    source_lang: m.req.from,
                    target_lang: m.req.to,
                    text: m.req.text,
                    translation: t,
                    engine: engine::engine_name(m.engines[i as int]),
                },
            ),
        }),
        m.phase == PhaseModel::Asking(i) && i + 1 < m.engines.len() ==> run_next(
            m,
            InputModel::Answer(Err(e)),
        ).1 == (StepModel { delta: None, next: NextModel::Ask(i + 1) }),
        m.phase == PhaseModel::Asking(i) && i + 1 == m.engines.len() ==> run_next(
            m,
            InputModel::Answer(Err(e)),
        ).1 == (StepModel { delta: None, next: NextModel::Failed(e) }),
{
}

/// The stream of a word is its translation in one piece, and then over.
pub proof fn law_stream_of_a_word(
    t: TranslationModel,
    llm: Option<Seq<char>>,
    engines: Seq<EngineModel>,
)
    ensures
        stream_start(PlanModel::Word(t), llm, engines).1 == (StepModel {
            delta: Some(t.translation),
            next: NextModel::Done(t),
        }),
{
}

/// What is said where there is no place for data, no language model, no engine of
/// that name, and no file of a dictionary.
pub proof fn law_reasons(name: Seq<char>, path: Seq<char>)
    ensures
        home_for(None, None) == Err::<Seq<char>, Seq<char>>(
            "PARDON_HOME unset and XDG data dir unavailable"@,
        ),
        missing_text(name, path) == "pardon: "@ + name + " dictionary not found at "@ + path
            + "; run the importer (see dicts/README.md)"@,
        engine::chain_start(Seq::empty()) == engine::ChainModel::Failed(
            ErrorModel::Api("no engines configured"@),
        ),
{
}

/// A stream that ends well and said anything is the translation, under the name of
/// the language model; one that said nothing, or failed, is followed by the first
/// engine. Pieces add up in the order in which they come.
pub proof fn law_stream_ends(m: RunModel, all: Seq<char>, t: Seq<char>, id: Seq<char>, e: ErrorModel)
    requires
        m.engines.len() > 0,
    ensures
        ({
            let s = RunModel { phase: PhaseModel::Streaming(all), llm: Some(id), ..m };
            &&& run_next(s, InputModel::Delta(t)).0.phase == PhaseModel::Streaming(all + t)
            &&& all.len() > 0 ==> run_next(s, InputModel::End(None)).1 == (StepModel {
                delta: None,
                next: NextModel::Done(
                    TranslationModel {
                        source_lang: m.req.from,
                        target_lang: m.req.to,
                        text: m.req.text,
                        translation: all,
                        engine: id,
                    },
                ),
            })
            &&& all.len() == 0 ==> run_next(s, InputModel::End(None)).1.next == NextModel::Ask(0)
            &&& run_next(s, InputModel::End(Some(e))).1.next == NextModel::Ask(0)
        }),
{
}

} // verus!
