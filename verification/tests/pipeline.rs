//! From a text to its translation, whole and as a stream, and spoken.

use pardon::config::{AppConfig, LlmConfig, ProviderConfig, ProviderType};
use pardon::dict::{parse_translation_lines, DictProvider, Phonetic, PosGloss, WordCard};
use pardon::engine::{Chain, ChainStep, EngineError, EngineId, TranslateRequest};
use pardon::lang::Lang;
use pardon::pipeline::{
    build_llm, card_text, chain_with, default_chain, lookup, missing_dictionary, pardon_home, plan,
    translated, untranslated, LlmSetup, Plan, StreamInput, StreamNext, StreamRun, Translation,
};
use pardon::tts::{
    cache_path, parse_tts_disable, synthesiser_voice, urlencode, youdao_voice_url, Speech,
    SpeechInput, SpeechStep, Voice,
};

use sha1::Digest;

const SENTENCE: &str = "please give me the book";
const SENTENCE_ZH: &str = "请给我那本书";

fn card(pos: Vec<PosGloss>) -> WordCard {
    WordCard {
        found: true,
        word: "w".into(),
        phonetic: None,
        pos,
        definition: Vec::new(),
        exchange: None,
        collins: None,
        oxford: false,
        tags: Vec::new(),
        source: "ecdict".into(),
        suggestions: Vec::new(),
    }
}

fn gloss(pos: &str, gloss: &[&str]) -> PosGloss {
    PosGloss { pos: pos.into(), gloss: gloss.iter().map(|s| s.to_string()).collect() }
}

#[test]
fn card_text_renders_pos_lines_joined_by_fullwidth_semicolon() {
    let c = card(vec![gloss("n.", &["跑步"]), gloss("v.", &["跑", "运转"])]);
    assert_eq!(card_text(&c), "n. 跑步\nv. 跑；运转");
}

#[test]
fn card_text_bare_glosses_have_no_pos_prefix() {
    let c = card(vec![gloss("", &["you (informal)", "hello"])]);
    assert_eq!(card_text(&c), "you (informal)；hello");
}

#[test]
fn card_text_empty_card_is_empty() {
    assert_eq!(card_text(&card(Vec::new())), "");
}

#[test]
fn the_text_of_a_card_reads_back() {
    for raw in [
        "n. 火药；炸药\nv. 使爆炸; 配制",
        "你好；您好\naux. v. 做\n感叹词\naux.v. 将",
        "n.n. 名词\n\n  interj. 喂 ;; 嗨\nint. 嗯",
        "",
        "n. ；",
    ] {
        let groups = parse_translation_lines(raw);
        assert_eq!(parse_translation_lines(&card_text(&card(groups.clone()))), groups);
    }
    let odd = parse_translation_lines(";n. 名词");
    assert_eq!(odd, vec![gloss("", &["n. 名词"])]);
    assert_eq!(
        parse_translation_lines(&card_text(&card(odd))),
        vec![gloss("n.", &["名词"])]
    );
}

/// A dictionary with these cards.
struct Cards(Vec<WordCard>);

impl DictProvider for Cards {
    fn lookup(&self, word: &str) -> Option<WordCard> {
        self.0.iter().find(|c| c.word == word).cloned()
    }

    fn suggest(&self, _: &str) -> Vec<String> {
        vec!["run".into()]
    }
}

fn english() -> Cards {
    let mut run = card(vec![gloss("n.", &["跑步"]), gloss("v.", &["跑", "运转"])]);
    run.word = "run".into();
    run.phonetic = Some(Phonetic { uk: Some("rʌn".into()), us: None });
    let mut gave = card(vec![]);
    gave.word = "gave".into();
    Cards(vec![run, gave])
}

/// Asks the engines of a chain, each with its answer.
fn translate(chain: &Chain, req: &TranslateRequest, answers: Vec<Result<String, EngineError>>) -> Translation {
    let mut step = chain.start();
    let mut answers = answers.into_iter();
    loop {
        step = match step {
            ChainStep::Ask(i) => chain.next(i, answers.next().unwrap()),
            ChainStep::Done(t, engine) => return translated(req, t, engine),
            ChainStep::Failed(_) => return untranslated(req),
        };
    }
}

fn sentence() -> TranslateRequest {
    match plan(SENTENCE, &english(), &Cards(vec![])) {
        Plan::Sentence(req) => req,
        Plan::Word(t) => panic!("a word: {t:?}"),
    }
}

fn refused() -> Result<String, EngineError> {
    Err(EngineError::Network("connection refused".into()))
}

#[test]
fn translate_word_route_returns_card_text_from_ecdict() {
    let t = match plan("run", &english(), &Cards(vec![])) {
        Plan::Word(t) => t,
        Plan::Sentence(r) => panic!("a sentence: {r:?}"),
    };
    assert_eq!(t.engine, "ecdict");
    assert_eq!(t.translation, "n. 跑步\nv. 跑；运转");
    assert_eq!(t.text, "run");
    assert_eq!((t.source_lang, t.target_lang), (Lang::En, Lang::Zh));
}

#[test]
fn translate_sentence_without_llm_uses_google_first() {
    let chain = default_chain(&AppConfig::default(), &None);
    let t = translate(&chain, &sentence(), vec![Ok(SENTENCE_ZH.into())]);
    assert_eq!(t.engine, "google");
    assert_eq!(t.translation, SENTENCE_ZH);
}

#[test]
fn google_failure_falls_back_to_youdao() {
    let chain = default_chain(&AppConfig::default(), &None);
    let t = translate(&chain, &sentence(), vec![refused(), Ok(SENTENCE_ZH.into())]);
    assert_eq!(t.engine, "youdao");
    assert_eq!(t.translation, SENTENCE_ZH);
}

#[test]
fn where_every_engine_fails_nothing_is_translated() {
    let chain = default_chain(&AppConfig::default(), &None);
    let t = translate(&chain, &sentence(), vec![refused(), refused(), refused()]);
    assert_eq!(t.engine, "");
    assert_eq!(t.translation, "");
    assert_eq!(t.text, SENTENCE);
}

#[test]
fn from_config_with_missing_dicts_degrades_to_empty() {
    struct Nothing;
    impl DictProvider for Nothing {
        fn lookup(&self, _: &str) -> Option<WordCard> {
            None
        }
        fn suggest(&self, _: &str) -> Vec<String> {
            vec![]
        }
    }
    let c = lookup("run", &Nothing, &Nothing);
    assert!(!c.found);
    assert!(c.suggestions.is_empty());
    assert_eq!(c.source, "ecdict");
    let c = lookup("你好", &Nothing, &Nothing);
    assert!(!c.found);
    assert!(c.suggestions.is_empty());
    assert_eq!(c.source, "cedict");
    assert!(missing_dictionary("ecdict", "/h/dict/ecdict.sqlite").contains("/h/dict/ecdict.sqlite"));
}

/// What a stream hands on, and how it ends.
fn stream(run: &mut StreamRun, first: pardon::pipeline::StreamStep, inputs: Vec<StreamInput>) -> (Vec<String>, StreamNext) {
    let mut deltas = vec![];
    let mut step = first;
    let mut inputs = inputs.into_iter();
    loop {
        if let Some(d) = step.delta {
            deltas.push(d);
        }
        match step.next {
            StreamNext::Done(_) | StreamNext::Failed(_) => return (deltas, step.next),
            _ => step = run.next(inputs.next().unwrap()),
        }
    }
}

fn done(next: StreamNext) -> Translation {
    match next {
        StreamNext::Done(t) => t,
        other => panic!("not done: {other:?}"),
    }
}

#[test]
fn the_stream_of_a_word_is_one_piece() {
    let chain = default_chain(&AppConfig::default(), &None);
    let word = plan("run", &english(), &Cards(vec![]));
    let (mut run, first) = StreamRun::begin(word, Some("mock".into()), chain.clone());
    assert_eq!(first.delta.as_deref(), Some("n. 跑步\nv. 跑；运转"));
    assert_eq!(run.request().text, "run");
    assert_eq!(run.next(StreamInput::Delta("x".into())).next, StreamNext::Wait);
    assert_eq!(done(first.next).translation, "n. 跑步\nv. 跑；运转");
    let (run, first) = StreamRun::begin(Plan::Sentence(sentence()), None, chain);
    assert_eq!(first.next, StreamNext::Ask(0));
    assert_eq!(*run.request(), sentence());
}

#[test]
fn translate_stream_sentence_without_llm_emits_single_delta() {
    let chain = default_chain(&AppConfig::default(), &None);
    let (mut run, first) = StreamRun::start(sentence(), None, chain);
    assert_eq!(first.next, StreamNext::Ask(0));
    let (deltas, next) = stream(&mut run, first, vec![StreamInput::Answer(Ok(SENTENCE_ZH.into()))]);
    assert_eq!(deltas, vec![SENTENCE_ZH]);
    let t = done(next);
    assert_eq!(t.engine, "google");
    assert_eq!(t.translation, SENTENCE_ZH);
}

#[test]
fn translate_stream_sentence_via_llm_forwards_deltas_and_skips_empty() {
    let cfg = cfg_llm("youdao");
    let llm = Some("mock".to_string());
    let (mut run, first) = StreamRun::start(sentence(), llm.clone(), default_chain(&cfg, &llm));
    assert_eq!(first.next, StreamNext::Start);
    let (deltas, next) = stream(
        &mut run,
        first,
        vec![
            StreamInput::Delta("请".into()),
            StreamInput::Delta("".into()),
            StreamInput::Delta("书".into()),
            StreamInput::End(None),
        ],
    );
    assert_eq!(deltas, vec!["请", "书"]);
    let t = done(next);
    assert_eq!(t.translation, "请书");
    assert_eq!(t.engine, "mock");
}

#[test]
fn translate_stream_llm_failure_falls_back_to_chain() {
    let cfg = cfg_llm("youdao");
    let llm = Some("mock".to_string());
    let (mut run, first) = StreamRun::start(sentence(), llm.clone(), default_chain(&cfg, &llm));
    let (deltas, next) = stream(
        &mut run,
        first,
        vec![
            StreamInput::End(Some(EngineError::Api("500".into()))),
            StreamInput::Answer(Ok(SENTENCE_ZH.into())),
        ],
    );
    assert_eq!(deltas, vec![SENTENCE_ZH]);
    let t = done(next);
    assert_eq!(t.engine, "google");
    assert_eq!(t.translation, SENTENCE_ZH);
}

#[test]
fn a_stream_whose_engines_all_fail_ends_with_the_last_error() {
    let chain = chain_with("bing", &None).unwrap();
    let (mut run, first) = StreamRun::start(sentence(), None, chain);
    let (deltas, next) =
        stream(&mut run, first, vec![StreamInput::Answer(Err(EngineError::Api("404".into())))]);
    assert!(deltas.is_empty());
    assert_eq!(next, StreamNext::Failed(EngineError::Api("404".into())));
}

fn cfg_llm(default_engine: &str) -> AppConfig {
    AppConfig {
        default_engine: default_engine.into(),
        llm: LlmConfig {
            default_provider: "mock".into(),
            providers: vec![ProviderConfig {
                id: "mock".into(),
                provider_type: ProviderType::Openai,
                base_url: "http://127.0.0.1:9/".into(),
                model: "m".into(),
                api_key: Some("test-key".into()),
                api_key_env: None,
                system_prompt: None,
                user_prompt_template: None,
            }],
        },
        ..AppConfig::default()
    }
}

fn no_env(_: String) -> Result<String, ()> {
    Err(())
}

#[test]
fn translate_with_default_engine_llm_puts_llm_first_in_chain() {
    let cfg = cfg_llm("llm");
    let llm = build_llm(&cfg, no_env).map(|l| l.id());
    assert_eq!(llm.as_deref(), Some("mock"));
    let chain = default_chain(&cfg, &llm);
    let t = translate(&chain, &sentence(), vec![Ok(SENTENCE_ZH.into())]);
    assert_eq!(t.engine, "mock");
    assert_eq!(t.translation, SENTENCE_ZH);
    let names: Vec<String> = chain.engines.iter().map(|e| e.name()).collect();
    assert_eq!(names, vec!["mock", "google", "youdao", "bing"]);
}

#[test]
fn a_language_model_may_be_named_like_a_free_engine() {
    let llm = Some("google".to_string());
    assert_eq!(chain_with("llm", &llm).unwrap().engines, vec![EngineId::Llm("google".into())]);
    assert_eq!(chain_with("google", &llm).unwrap().engines, vec![EngineId::Google]);
    let chain = default_chain(&cfg_llm("llm"), &llm);
    assert_eq!(
        chain.engines,
        vec![
            EngineId::Llm("google".into()),
            EngineId::Google,
            EngineId::Youdao,
            EngineId::Bing
        ]
    );
}

#[test]
fn chain_with_builds_single_engine_chain() {
    let chain = chain_with("google", &None).unwrap();
    let t = translate(&chain, &sentence(), vec![Ok(SENTENCE_ZH.into())]);
    assert_eq!((t.translation.as_str(), t.engine.as_str()), (SENTENCE_ZH, "google"));
    let chain = chain_with("youdao", &None).unwrap();
    let t = translate(&chain, &sentence(), vec![Ok(SENTENCE_ZH.into())]);
    assert_eq!((t.translation.as_str(), t.engine.as_str()), (SENTENCE_ZH, "youdao"));
    assert!(chain_with("llm", &None).is_err());
    assert!(chain_with("llm", &Some("ds".into())).is_ok());
    assert_eq!(
        chain_with("nope", &None).unwrap_err(),
        "unknown engine \"nope\", expected one of llm/google/youdao/bing"
    );
}

fn ollama(base_url: &str) -> AppConfig {
    let mut cfg = cfg_llm("youdao");
    cfg.llm.default_provider = "local".into();
    cfg.llm.providers[0] = ProviderConfig {
        id: "local".into(),
        provider_type: ProviderType::Ollama,
        base_url: base_url.into(),
        model: "qwen2.5:7b".into(),
        api_key: None,
        api_key_env: None,
        system_prompt: Some("custom system".into()),
        user_prompt_template: Some("TRANSLATE {text}".into()),
    };
    cfg
}

#[test]
fn ollama_provider_honors_base_url_and_prompt_overrides() {
    let llm = build_llm(&ollama("http://192.168.1.5:11434/v1/"), no_env).unwrap();
    assert!(chain_with("llm", &Some(llm.id())).is_ok());
    match llm {
        LlmSetup::OpenAi(c) => {
            assert_eq!(c.base_url, "http://192.168.1.5:11434/v1");
            assert_eq!(c.id, "local");
            assert_eq!(c.api_key, "ollama");
            assert_eq!(c.model, "qwen2.5:7b");
            assert_eq!(c.system_prompt.as_deref(), Some("custom system"));
            assert_eq!(c.user_prompt_template.as_deref(), Some("TRANSLATE {text}"));
        }
        other => panic!("got {}", other.id()),
    }
}

#[test]
fn ollama_provider_with_empty_base_url_falls_back_to_11434() {
    match build_llm(&ollama(""), no_env).unwrap() {
        LlmSetup::OpenAi(c) => assert_eq!(c.base_url, "http://127.0.0.1:11434/v1"),
        other => panic!("got {}", other.id()),
    }
}

#[test]
fn keys_come_from_the_provider_or_its_variable() {
    let mut cfg = cfg_llm("youdao");
    cfg.llm.providers[0].api_key = None;
    match build_llm(&cfg, no_env).unwrap() {
        LlmSetup::OpenAi(c) => assert_eq!(c.api_key, "none"),
        other => panic!("got {}", other.id()),
    }
    cfg.llm.providers[0].api_key_env = Some("K".into());
    cfg.llm.providers[0].provider_type = ProviderType::Anthropic;
    match build_llm(&cfg, |name: String| Ok::<String, ()>(format!("key of {name}"))).unwrap() {
        LlmSetup::Anthropic(c) => {
            assert_eq!(c.api_key, "key of K");
            assert_eq!(c.base_url, "http://127.0.0.1:9");
        }
        other => panic!("got {}", other.id()),
    }
    cfg.llm.default_provider = "nobody".into();
    assert!(build_llm(&cfg, no_env).is_none());
}

#[test]
fn home_is_named_or_below_the_data_directory() {
    assert_eq!(pardon_home(&Some("/x".into()), &None).unwrap(), "/x");
    assert_eq!(pardon_home(&None, &Some("/home/u/.local/share".into())).unwrap(), "/home/u/.local/share/pardon");
    assert!(pardon_home(&None, &None).is_err());
}

#[test]
fn tts_disable_switch_is_exact_1() {
    assert!(!parse_tts_disable(None));
    assert!(!parse_tts_disable(Some("")));
    assert!(!parse_tts_disable(Some("0")));
    assert!(!parse_tts_disable(Some("true")));
    assert!(parse_tts_disable(Some("1")));
}

#[test]
fn voice_url_exact_strings() {
    assert_eq!(
        youdao_voice_url("hello", Voice::Uk),
        "https://dict.youdao.com/dictvoice?audio=hello&type=1"
    );
    assert_eq!(
        youdao_voice_url("hello", Voice::Us),
        "https://dict.youdao.com/dictvoice?audio=hello&type=2"
    );
    assert_eq!(
        youdao_voice_url("你好", Voice::Uk),
        "https://dict.youdao.com/dictvoice?audio=%E4%BD%A0%E5%A5%BD&type=1"
    );
    assert_eq!(
        youdao_voice_url("你好", Voice::Zh),
        "https://dict.youdao.com/dictvoice?audio=%E4%BD%A0%E5%A5%BD&le=zh"
    );
    assert_eq!(
        youdao_voice_url("hello", Voice::Zh),
        "https://dict.youdao.com/dictvoice?audio=hello&le=zh"
    );
}

#[test]
fn only_unreserved_characters_stay() {
    assert_eq!(urlencode("aZ0-_.~"), "aZ0-_.~");
    assert_eq!(urlencode("a b&c/é"), "a%20b%26c%2F%C3%A9");
    let text = "100% 你好~\n";
    let encoded = urlencode(text);
    let mut bytes = vec![];
    let mut rest = encoded.as_str();
    while let Some(c) = rest.chars().next() {
        if c == '%' {
            bytes.push(u8::from_str_radix(&rest[1..3], 16).unwrap());
            rest = &rest[3..];
        } else {
            bytes.push(c as u8);
            rest = &rest[1..];
        }
    }
    assert_eq!(bytes, text.as_bytes());
}

#[test]
fn cache_path_stable_distinct_mp3() {
    let uk = cache_path("/c", "hello", Voice::Uk);
    assert_eq!(uk, cache_path("/c", "hello", Voice::Uk));
    assert!(uk.ends_with(".mp3"));
    assert!(uk.starts_with("/c/"));
    assert_ne!(uk, cache_path("/c", "hello", Voice::Us));
    assert_ne!(uk, cache_path("/c", "hello", Voice::Zh));
    assert_ne!(uk, cache_path("/c", "hellp", Voice::Uk));
}

#[test]
fn the_name_of_a_recording_is_the_digest_of_voice_and_text() {
    let digest = sha1::Sha1::digest("uk|hello".as_bytes());
    let hex: String = digest.iter().map(|b| format!("{b:02x}")).collect();
    assert_eq!(cache_path("/c", "hello", Voice::Uk), format!("/c/{hex}.mp3"));
}

/// What each player was given, and whether the text was spoken.
fn speak(
    text: &str,
    lang: Lang,
    cached: Option<&[u8]>,
    downloaded: Option<&[u8]>,
    players: &[bool],
) -> (Vec<(usize, Vec<u8>)>, SpeechStep) {
    let (mut s, mut step) = Speech::start(None, "/c", text, lang, players.len());
    let mut plays = vec![];
    loop {
        step = match step {
            SpeechStep::ReadCache(_) => s.next(SpeechInput::Cached(cached.map(|b| b.to_vec()))),
            SpeechStep::Download(_) => s.next(SpeechInput::Downloaded(downloaded.map(|b| b.to_vec()))),
            SpeechStep::Keep(_) => s.next(SpeechInput::Kept),
            SpeechStep::Play(i) => {
                plays.push((i, s.audio().clone()));
                let why = if players[i] { None } else { Some("cannot play".to_string()) };
                s.next(SpeechInput::Played(why))
            }
            over => return (plays, over),
        };
    }
}

#[test]
fn speak_cache_hit_plays_cached_bytes() {
    let (plays, end) = speak("hello", Lang::En, Some(b"FAKE_MP3"), None, &[true]);
    assert_eq!(plays, vec![(0, b"FAKE_MP3".to_vec())]);
    assert_eq!(end, SpeechStep::Done);
}

#[test]
fn speak_download_failure_falls_back_to_text() {
    let (plays, end) = speak("hello", Lang::En, None, None, &[true]);
    assert_eq!(plays, vec![(0, b"hello".to_vec())]);
    assert_eq!(end, SpeechStep::Done);
}

#[test]
fn speak_download_failure_falls_through_rejecting_player() {
    let (plays, end) = speak("hi", Lang::En, None, None, &[false, true]);
    assert_eq!(plays, vec![(0, b"hi".to_vec()), (1, b"hi".to_vec())]);
    assert_eq!(end, SpeechStep::Done);
}

#[test]
fn speak_all_players_fail_is_err() {
    let (_, end) = speak("hello", Lang::En, None, None, &[false]);
    assert_eq!(end, SpeechStep::AllFailed("cannot play".into()));
    let (_, end) = speak("hello", Lang::En, None, None, &[]);
    assert_eq!(end, SpeechStep::NoPlayer);
}

#[test]
fn speak_maps_lang_to_voice() {
    let (_, step) = Speech::start(None, "/c", "hello", Lang::En, 1);
    assert_eq!(step, SpeechStep::ReadCache(cache_path("/c", "hello", Voice::Uk)));
    let (_, step) = Speech::start(None, "/c", "你好", Lang::Zh, 1);
    assert_eq!(step, SpeechStep::ReadCache(cache_path("/c", "你好", Voice::Zh)));
    let (_, step) = Speech::start(Some("1"), "/c", "你好", Lang::Zh, 1);
    assert_eq!(step, SpeechStep::Done);
}

#[test]
fn zero_byte_cache_file_is_miss_and_retries_download() {
    let (plays, end) = speak("hello", Lang::En, Some(b""), None, &[true]);
    assert_eq!(plays, vec![(0, b"hello".to_vec())]);
    assert_eq!(end, SpeechStep::Done);
}

#[test]
fn a_download_is_kept_before_it_is_played() {
    let (mut s, _) = Speech::start(None, "/c", "hello", Lang::En, 1);
    assert_eq!(
        s.next(SpeechInput::Cached(None)),
        SpeechStep::Download(youdao_voice_url("hello", Voice::Uk))
    );
    assert_eq!(
        s.next(SpeechInput::Downloaded(Some(b"NEW".to_vec()))),
        SpeechStep::Keep(cache_path("/c", "hello", Voice::Uk))
    );
    assert_eq!(s.next(SpeechInput::Cached(None)), SpeechStep::Wait);
    assert_eq!(s.next(SpeechInput::Kept), SpeechStep::Play(0));
    assert_eq!(s.audio(), &b"NEW".to_vec());
    assert_eq!(s.next(SpeechInput::Played(None)), SpeechStep::Done);
    assert_eq!(s.next(SpeechInput::Played(None)), SpeechStep::Wait);
}

#[test]
fn the_synthesiser_follows_the_language_of_the_text() {
    assert_eq!(synthesiser_voice("hello"), "en");
    assert_eq!(synthesiser_voice("你好"), "zh");
}
