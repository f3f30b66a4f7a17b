//! The engines: what they ask for and how they read the answers.

use pardon::engine::anthropic::{self, AnthropicConfig};
use pardon::engine::bing::BingEngine;
use pardon::engine::google::{self, First, GoogleEngine};
use pardon::engine::openai::{read_chunk, read_completion, OpenAiConfig};
use pardon::engine::prompt::{render_user_prompt, DEFAULT_USER_TEMPLATE};
use pardon::engine::youdao::YoudaoEngine;
use pardon::engine::{
    Accumulator, Chain, ChainStep, EngineError, EngineId, HttpRequest, Method, Reply,
    TranslateRequest,
};
use pardon::lang::Lang;

fn req() -> TranslateRequest {
    TranslateRequest { text: "hello".into(), from: Lang::En, to: Lang::Zh }
}

fn asked(text: &str, from: Lang, to: Lang) -> TranslateRequest {
    TranslateRequest { text: text.into(), from, to }
}

fn param<'a>(r: &'a HttpRequest, name: &str) -> Option<&'a str> {
    r.query.iter().find(|p| p.name == name).map(|p| p.value.as_str())
}

fn header<'a>(r: &'a HttpRequest, name: &str) -> Option<&'a str> {
    r.headers.iter().find(|p| p.name == name).map(|p| p.value.as_str())
}

/// Asks the engines of a chain, each with its answer.
fn run(chain: &Chain, answers: Vec<Result<String, EngineError>>) -> ChainStep {
    let mut step = chain.start();
    for a in answers {
        step = match step {
            ChainStep::Ask(i) => chain.next(i, a),
            over => return over,
        };
    }
    step
}

fn ok(engine: &str) -> Result<String, EngineError> {
    Ok(format!("translated-by-{engine}"))
}

fn fail(engine: &str) -> Result<String, EngineError> {
    Err(EngineError::Api(format!("boom-{engine}")))
}

fn llm(id: &str) -> EngineId {
    EngineId::Llm(id.into())
}

#[test]
fn chain_returns_first_success() {
    let chain = Chain { engines: vec![llm("a"), llm("b")] };
    assert_eq!(
        run(&chain, vec![ok("a"), ok("b")]),
        ChainStep::Done("translated-by-a".into(), "a".into())
    );
}

#[test]
fn chain_falls_through_failures() {
    let chain = Chain { engines: vec![llm("x"), llm("y")] };
    assert_eq!(
        run(&chain, vec![fail("x"), ok("y")]),
        ChainStep::Done("translated-by-y".into(), "y".into())
    );
}

#[test]
fn chain_all_fail_returns_last_error() {
    let chain = Chain { engines: vec![llm("x"), llm("z")] };
    assert_eq!(
        run(&chain, vec![fail("x"), fail("z")]),
        ChainStep::Failed(EngineError::Api("boom-z".into()))
    );
}

#[test]
fn empty_chain_errors() {
    let chain = Chain { engines: vec![] };
    assert!(matches!(run(&chain, vec![]), ChainStep::Failed(_)));
}

#[test]
fn engines_have_names() {
    assert_eq!(EngineId::Google.name(), "google");
    assert_eq!(EngineId::Youdao.name(), "youdao");
    assert_eq!(EngineId::Bing.name(), "bing");
    assert_eq!(llm("ds").name(), "ds");
}

#[test]
fn errors_have_messages() {
    assert_eq!(EngineError::Network("x".into()).message(), "network error: x");
    assert_eq!(EngineError::Api("x".into()).message(), "engine api error: x");
    assert_eq!(EngineError::Parse("x".into()).message(), "response parse error: x");
}

#[test]
fn for_ollama_sets_endpoint_and_key() {
    let cfg = OpenAiConfig::for_ollama("qwen2.5:7b");
    assert_eq!(cfg.id, "ollama");
    assert_eq!(cfg.base_url, "http://127.0.0.1:11434/v1");
    assert_eq!(cfg.api_key, "ollama");
    assert_eq!(cfg.model, "qwen2.5:7b");
    assert!(cfg.system_prompt.is_none());
    assert!(cfg.user_prompt_template.is_none());
}

#[test]
fn default_template_renders() {
    let out = render_user_prompt(DEFAULT_USER_TEMPLATE, "hello", Lang::En, Lang::Zh);
    assert!(out.contains("hello"), "{out}");
    assert!(out.contains("English"), "{out}");
    assert!(out.contains("Chinese (Simplified)"), "{out}");
}

#[test]
fn custom_template() {
    let out = render_user_prompt("把这句{source}翻成{target}：{text}", "hi", Lang::En, Lang::Zh);
    assert_eq!(out, "把这句English翻成Chinese (Simplified)：hi");
}

#[test]
fn unknown_placeholders_left_as_is() {
    let out = render_user_prompt("{text} {nope}", "x", Lang::Zh, Lang::En);
    assert_eq!(out, "x {nope}");
}

#[test]
fn a_prompt_can_be_set_for_a_provider() {
    let mut cfg = OpenAiConfig::for_ollama("m");
    let (system, user) = cfg.prompts(&req());
    assert!(!system.is_empty());
    assert!(user.contains("hello"));
    cfg.system_prompt = Some("S".into());
    cfg.user_prompt_template = Some("T {text}".into());
    assert_eq!(cfg.prompts(&req()), ("S".to_string(), "T hello".to_string()));
}

#[test]
fn completions_must_say_something() {
    assert_eq!(read_completion(&vec![Some("你好".into()), Some("您好".into())]).unwrap(), "你好");
    let empty = EngineError::Parse("empty content".into());
    assert_eq!(read_completion(&vec![]), Err(empty.clone()));
    assert_eq!(read_completion(&vec![None, Some("您好".into())]), Err(empty.clone()));
    assert_eq!(read_completion(&vec![Some("".into())]), Err(empty));
    assert_eq!(read_chunk(&vec![Some("你".into()), None]), Some("你".to_string()));
    assert_eq!(read_chunk(&vec![None, Some("你".into())]), None);
    assert_eq!(read_chunk(&vec![]), None);
}

const SENTENCE_EN: &str = "The quick brown fox jumps over the lazy dog.";
const SENTENCE_ZH: &str = "敏捷的棕色狐狸跳过了那只懒狗。";

#[test]
fn translates_en_to_zh() {
    let e = GoogleEngine::new_with_base("http://g".into());
    let r = e.request(&asked(SENTENCE_EN, Lang::En, Lang::Zh));
    assert_eq!(r.method, Method::Get);
    assert_eq!(r.url, "http://g/translate_a/t");
    assert_eq!(param(&r, "client"), Some("dict-chrome-ex"));
    assert_eq!(param(&r, "sl"), Some("en"));
    assert_eq!(param(&r, "tl"), Some("zh"));
    assert_eq!(param(&r, "q"), Some(SENTENCE_EN));
    let body = format!("[\"{SENTENCE_ZH}\"]");
    assert_eq!(e.answer(Reply::Read(body.into_bytes())).unwrap(), SENTENCE_ZH);
}

#[test]
fn translates_zh_to_en() {
    let e = GoogleEngine::new_with_base("http://g".into());
    let r = e.request(&asked(SENTENCE_ZH, Lang::Zh, Lang::En));
    assert_eq!(param(&r, "sl"), Some("zh"));
    assert_eq!(param(&r, "tl"), Some("en"));
    assert_eq!(param(&r, "q"), Some(SENTENCE_ZH));
    let body = format!("[\"{SENTENCE_EN}\"]");
    assert_eq!(e.answer(Reply::Read(body.into_bytes())).unwrap(), SENTENCE_EN);
}

#[test]
fn nested_first_element_joins_parts_with_newline() {
    let e = GoogleEngine::new_with_base("http://g".into());
    let r = e.request(&asked("line one\nline two", Lang::En, Lang::Zh));
    assert_eq!(param(&r, "q"), Some("line one\nline two"));
    let body = "[[\"第一行\",\"第二行\"]]".as_bytes().to_vec();
    assert_eq!(e.answer(Reply::Read(body)).unwrap(), "第一行\n第二行");
}

#[test]
fn non_200_maps_to_engine_error() {
    let e = GoogleEngine::new_with_base("http://g".into());
    let err = e.answer(Reply::BadStatus("500 Internal Server Error".into())).unwrap_err();
    assert!(matches!(err, EngineError::Api(_)), "got {err:?}");
}

#[test]
fn invalid_json_maps_to_engine_error() {
    let e = GoogleEngine::new_with_base("http://g".into());
    let err = e.answer(Reply::Read(b"<html>oops".to_vec())).unwrap_err();
    assert!(matches!(err, EngineError::Parse(_)), "got {err:?}");
}

#[test]
fn unexpected_first_element_type_is_parse_error() {
    let e = GoogleEngine::new_with_base("http://g".into());
    let err = e.answer(Reply::Read(b"[42]".to_vec())).unwrap_err();
    assert!(matches!(err, EngineError::Parse(_)), "got {err:?}");
}

#[test]
fn engine_google_test_network_error_maps_to_engine_error() {
    let e = GoogleEngine::new_with_base("http://127.0.0.1:1".into());
    let err = e.answer(Reply::NotSent("connection refused".into())).unwrap_err();
    assert!(matches!(err, EngineError::Network(_)), "got {err:?}");
}

#[test]
fn what_stands_first_decides() {
    assert_eq!(google::read_translation(First::Text("a".into())).unwrap(), "a");
    assert_eq!(
        google::read_translation(First::Parts(vec![Some("a".into()), Some("b".into())])).unwrap(),
        "a\nb"
    );
    assert!(google::read_translation(First::NotJson).is_err());
    assert!(google::read_translation(First::Other("42".into())).is_err());
}

#[test]
fn free_engines_can_be_sent_elsewhere() {
    assert_eq!(GoogleEngine::new(Some("http://x".into())).base, "http://x");
    assert!(GoogleEngine::new(None).base.starts_with("https://"));
    assert_eq!(YoudaoEngine::new(Some("http://y".into())).base, "http://y");
    assert_eq!(BingEngine::new(Some("http://b".into())).base, "http://b");
}

#[test]
fn translates_and_joins_segments() {
    let e = YoudaoEngine::new_with_base("http://y".into());
    let r = e.request(&asked("hello world", Lang::En, Lang::Zh));
    assert_eq!(r.method, Method::Get);
    assert_eq!(param(&r, "i"), Some("hello world"));
    assert_eq!(param(&r, "type"), Some("EN2ZH_CN"));
    let out = e.answer(Reply::Read(vec![vec!["你好".into(), "世界".into()]])).unwrap();
    assert_eq!(out, "你好世界");
}

#[test]
fn zh_to_en_uses_zh_cn_en_type() {
    let e = YoudaoEngine::new_with_base("http://y".into());
    let r = e.request(&asked("你好", Lang::Zh, Lang::En));
    assert_eq!(param(&r, "type"), Some("ZH_CN_EN"));
    assert_eq!(e.answer(Reply::Read(vec![vec!["hello".into()]])).unwrap(), "hello");
}

#[test]
fn engine_youdao_test_network_error_maps_to_engine_error() {
    let e = YoudaoEngine::new_with_base("http://127.0.0.1:1".into());
    assert!(matches!(
        e.answer(Reply::NotSent("connection refused".into())),
        Err(EngineError::Network(_))
    ));
}

const TOKEN_HTML: &str = "<html><head><script>var _G={IG:\"AB12CD\",ST:(!e&&123)};</script>\
                          </head><body><div id=\"tta_outGDCont\" data-iid=\"translator.5023\">\
                          </div></body></html>";

#[test]
fn translates_with_scraped_tokens() {
    let e = BingEngine::new_with_base("http://b".into());
    let page = e.page_request();
    assert_eq!(page.method, Method::Get);
    assert_eq!(page.url, "http://b/translator");
    let r = e.request(&req(), Reply::Read(TOKEN_HTML.into())).unwrap();
    assert_eq!(r.method, Method::Post);
    assert_eq!(r.url, "http://b/ttranslatev3");
    assert_eq!(param(&r, "isVertical"), Some("1"));
    assert_eq!(param(&r, "IG"), Some("AB12CD"));
    assert_eq!(param(&r, "IID"), Some("translator.5023"));
    let body: serde_json::Value = serde_json::from_str(r.body.as_ref().unwrap()).unwrap();
    assert_eq!(body["fromLang"], "auto-detect");
    assert_eq!(body["to"], "zh-Hans");
    assert_eq!(body["text"], "hello");
    assert_eq!(e.answer(Reply::Read(vec![vec!["你好".into()]])).unwrap(), "你好");
    assert_eq!(EngineId::Bing.name(), "bing");
}

#[test]
fn wrong_token_params_do_not_match() {
    let e = BingEngine::new_with_base("http://b".into());
    let r = e.request(&req(), Reply::Read(TOKEN_HTML.into())).unwrap();
    assert_ne!(param(&r, "IG"), Some("FFFF00"));
    let err = e.answer(Reply::BadStatus("404 Not Found".into())).unwrap_err();
    assert!(matches!(err, EngineError::Api(_)), "got: {err:?}");
}

#[test]
fn missing_ig_token_is_parse_error() {
    let e = BingEngine::new_with_base("http://b".into());
    let page = "<html><body>under maintenance</body></html>".to_string();
    let err = e.request(&req(), Reply::Read(page)).unwrap_err();
    assert!(matches!(err, EngineError::Parse(ref m) if m.contains("IG")), "got: {err:?}");
    let page = "IG:\"AB\" and no more".to_string();
    let err = e.request(&req(), Reply::Read(page)).unwrap_err();
    assert!(matches!(err, EngineError::Parse(_)), "got: {err:?}");
}

fn anthropic_config() -> AnthropicConfig {
    AnthropicConfig {
        id: "mock".into(),
        base_url: "http://a".into(),
        api_key: "k".into(),
        model: "sonnet-4-5".into(),
        system_prompt: None,
        user_prompt_template: None,
    }
}

#[test]
fn engine_anthropic_test_non_stream_translation() {
    let r = anthropic_config().request(&req(), false);
    assert_eq!(r.method, Method::Post);
    assert_eq!(r.url, "http://a/v1/messages");
    assert_eq!(header(&r, "x-api-key"), Some("k"));
    assert_eq!(header(&r, "anthropic-version"), Some("2023-06-01"));
    let body: serde_json::Value = serde_json::from_str(r.body.as_ref().unwrap()).unwrap();
    assert_eq!(body["model"], "sonnet-4-5");
    let reply = r#"{"id":"msg_1","type":"message","role":"assistant","content":[{"type":"text","text":"你好"}],"model":"sonnet-4-5","stop_reason":"end_turn","usage":{"input_tokens":1,"output_tokens":2}}"#;
    assert_eq!(anthropic::answer(Reply::Read(reply.as_bytes().to_vec())).unwrap(), "你好");
}

#[test]
fn engine_anthropic_test_stream_deltas_concatenated() {
    let events = [
        "{\"type\":\"message_start\"}",
        "{\"type\":\"content_block_delta\",\"delta\":{\"type\":\"text_delta\",\"text\":\"你\"}}",
        "{\"type\":\"content_block_delta\",\"delta\":{\"type\":\"text_delta\",\"text\":\"好\"}}",
        "{\"type\":\"message_stop\"}",
    ];
    let mut so_far = Accumulator::new();
    let deltas: Vec<String> =
        events.iter().filter_map(|e| anthropic::take_event(&mut so_far, e)).collect();
    assert_eq!(so_far.finish().unwrap(), "你好");
    assert_eq!(deltas, vec!["你", "好"]);
}

#[test]
fn engine_openai_test_stream_deltas_concatenated() {
    let mut so_far = Accumulator::new();
    so_far.push("你");
    so_far.push("好");
    assert_eq!(so_far.finish().unwrap(), "你好");
}

#[test]
fn an_empty_stream_is_an_error() {
    assert!(Accumulator::new().finish().is_err());
}

#[test]
fn api_error_maps_to_engine_error_with_status() {
    let err = anthropic::answer(Reply::BadStatus("401 Unauthorized".into())).unwrap_err();
    assert!(matches!(err, EngineError::Api(ref m) if m.contains("401")), "got: {err:?}");
}

#[test]
fn other_events_and_broken_replies() {
    assert_eq!(anthropic::read_delta(Some((Some("text_delta".into()), Some("x".into())))), None);
    assert_eq!(
        anthropic::read_delta(Some((Some("content_block_delta".into()), Some("x".into())))),
        Some("x".into())
    );
    assert_eq!(anthropic::read_delta(None), None);
    assert!(anthropic::answer(Reply::Read(b"{}".to_vec())).is_err());
    assert!(anthropic::answer(Reply::Read(b"no json".to_vec())).is_err());
    assert!(anthropic::read_translation(Some(Some("t".into()))).is_ok());
    assert!(anthropic::read_translation(Some(None)).is_err());
    assert!(anthropic::read_translation(None).is_err());
}
