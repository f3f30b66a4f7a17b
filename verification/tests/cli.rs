//! The commands: arguments, printed lines and exit codes.

use pardon::cli::{
    check_source, closing_events, collect_text, daemon_bin_for, daemon_log, daemon_missing,
    delta_event, error_exit, event_exit, exit_on_outcome, finish, imported, meta_event,
    parse_action, parse_import, printed, resolve_lang, resolve_langs, result_event, speakable,
    unreachable_daemon, usage, validate_engine, wants_stdin, DaemonAction, ImportJob, ImportKind,
    Outcome, TranslateArgs,
};
use pardon::engine::EngineError;
use pardon::history::{entry_for, entry_time, format_entry, history_path, HistoryEntry};
use pardon::lang::Lang;
use pardon::pipeline::Translation;
use pardon::wire::{history_line, lang_str};
use serde_json::Value;

fn args(text: Vec<String>) -> TranslateArgs {
    TranslateArgs {
        text,
        stdin: false,
        source: "auto".into(),
        target: "auto".into(),
        engine: "auto".into(),
        json: false,
        stream: false,
        timeout: 30,
    }
}

fn json(line: &str) -> Value {
    serde_json::from_str(line).unwrap_or_else(|e| panic!("{e}: {line}"))
}

#[test]
fn collect_text_joins_args_by_space() {
    let got = collect_text(&args(vec!["hello".into(), "world".into()]), "").unwrap();
    assert_eq!(got, "hello world");
}

#[test]
fn collect_text_rejects_missing_and_blank() {
    let err = collect_text(&args(vec![]), "").unwrap_err();
    assert!(err.contains("no text given"), "{err}");
    let err = collect_text(&args(vec!["   ".into()]), "").unwrap_err();
    assert!(err.contains("empty text"), "{err}");
}

#[test]
fn empty_text_no_args_no_stdin_exits_2() {
    let a = args(vec![]);
    assert!(!wants_stdin(&a));
    let why = collect_text(&a, "ignored").unwrap_err();
    assert_eq!(error_exit(&why).code, 2);
}

#[test]
fn the_standard_input_is_kept_as_it_is() {
    let mut a = args(vec![]);
    a.stdin = true;
    assert!(wants_stdin(&a));
    let input = "你好世界\n第二行";
    assert_eq!(collect_text(&a, input).unwrap(), input);
    assert_eq!(collect_text(&a, " \n").unwrap_err(), "empty text: nothing to translate");
}

#[test]
fn resolve_lang_auto_detects_from_text() {
    assert_eq!(resolve_lang("auto", "hello").unwrap(), Lang::En);
    assert_eq!(resolve_lang("auto", "你好").unwrap(), Lang::Zh);
}

#[test]
fn resolve_lang_explicit_overrides_detection() {
    assert_eq!(resolve_lang("zh", "hello").unwrap(), Lang::Zh);
    assert_eq!(resolve_lang("en", "你好").unwrap(), Lang::En);
}

#[test]
fn resolve_lang_rejects_unknown() {
    let err = resolve_lang("fr", "hello").unwrap_err();
    assert!(err.contains("unknown language"), "{err}");
    assert!(err.contains("\"fr\""), "{err}");
}

#[test]
fn resolve_langs_auto_follows_detection() {
    assert_eq!(resolve_langs("auto", "auto", "hello").unwrap(), (Lang::En, Lang::Zh));
    assert_eq!(resolve_langs("auto", "auto", "你好").unwrap(), (Lang::Zh, Lang::En));
}

#[test]
fn resolve_langs_explicit_overrides_and_rejects_unknown() {
    assert_eq!(resolve_langs("zh", "en", "hello").unwrap(), (Lang::Zh, Lang::En));
    assert!(resolve_langs("fr", "auto", "hello").is_err());
    assert!(resolve_langs("auto", "ja", "hello").is_err());
}

#[test]
fn validate_engine_accepts_known_rejects_other() {
    for ok in ["auto", "llm", "youdao", "bing"] {
        validate_engine(ok).unwrap();
    }
    assert!(validate_engine("google").is_err());
}

#[test]
fn lang_str_is_lowercase_code() {
    assert_eq!(lang_str(Lang::En), "en");
    assert_eq!(lang_str(Lang::Zh), "zh");
}

const SENTENCE: &str = "please give me the book";
const SENTENCE_ZH: &str = "请给我那本书";
const RUN_CARD: &str = "n. 跑步\nv. 跑；运转";

fn translation(text: &str, out: &str, engine: &str) -> Translation {
    Translation {
        source_lang: Lang::En,
        target_lang: Lang::Zh,
        text: text.into(),
        translation: out.into(),
        engine: engine.into(),
    }
}

#[test]
fn translate_sentence_plain_json_result_youdao() {
    let line = result_event(&translation(SENTENCE, SENTENCE_ZH, "youdao")).line();
    assert!(!line.contains('\n'));
    let v = json(&line);
    assert_eq!(v["type"], "result");
    assert_eq!(v["source"], "en");
    assert_eq!(v["target"], "zh");
    assert_eq!(v["engine"], "youdao");
    assert_eq!(v["text"], SENTENCE);
    assert_eq!(v["translation"], SENTENCE_ZH);
}

#[test]
fn stream_word_run_meta_delta_result_ecdict() {
    let t = translation("run", RUN_CARD, "ecdict");
    let mut lines = vec![meta_event(Lang::En, Lang::Zh, "auto").line(), delta_event(RUN_CARD).line()];
    lines.extend(closing_events(&t, false).iter().map(|e| e.line()));
    let events: Vec<Value> = lines.iter().map(|l| json(l)).collect();
    assert_eq!(events.len(), 3);
    assert_eq!(events[0]["type"], "meta");
    assert_eq!(events[0]["source"], "en");
    assert_eq!(events[0]["target"], "zh");
    assert_eq!(events[0]["engine"], "auto");
    assert_eq!(events[1]["type"], "delta");
    assert_eq!(events[1]["text"], RUN_CARD);
    assert_eq!(events[2]["type"], "result");
    assert_eq!(events[2]["engine"], "ecdict");
    assert_eq!(events[2]["text"], "run");
    assert_eq!(events[2]["translation"], RUN_CARD);
}

#[test]
fn a_single_engine_hands_its_translation_on_at_the_end() {
    let t = translation(SENTENCE, SENTENCE_ZH, "bing");
    let lines: Vec<String> = closing_events(&t, true).iter().map(|e| e.line()).collect();
    assert_eq!(lines.len(), 2);
    assert_eq!(lines[0], "{\"type\":\"delta\",\"text\":\"请给我那本书\"}");
    assert_eq!(json(&lines[1])["type"], "result");
}

#[test]
fn timeout_exits_124_with_timeout_error_json() {
    let exit = exit_on_outcome(Outcome::TimedOut, 1).unwrap_err();
    assert_eq!(exit.code, 124);
    let v = json(&exit.line);
    assert_eq!(v["type"], "error");
    assert_eq!(v["code"], "timeout");
    assert!(v["message"].as_str().unwrap().contains("1s"), "{}", exit.line);
}

#[test]
fn an_engine_error_exits_2() {
    let exit = exit_on_outcome(Outcome::Failed(EngineError::Api("404".into())), 30).unwrap_err();
    assert_eq!(exit.code, 2);
    assert_eq!(
        exit.line,
        "{\"type\":\"error\",\"code\":\"engine\",\"message\":\"engine api error: 404\"}"
    );
    let t = translation("a", "b", "bing");
    assert_eq!(exit_on_outcome(Outcome::Translated(t.clone()), 30).unwrap(), t);
}

#[test]
fn total_chain_failure_exits_2_stderr_only() {
    let exit = finish(&translation(SENTENCE, "", "")).unwrap();
    assert_eq!(exit.code, 2);
    let v = json(&exit.line);
    assert_eq!(v["type"], "error");
    assert_eq!(v["code"], "engine");
    assert!(
        v["message"].as_str().unwrap().contains("hint: configure an llm provider"),
        "{v}"
    );
}

#[test]
fn gloss_less_word_is_not_an_error() {
    let t = translation("gave", "", "ecdict");
    assert!(finish(&t).is_none());
    let v = json(&result_event(&t).line());
    assert_eq!(v["type"], "result");
    assert_eq!(v["engine"], "ecdict");
    assert_eq!(v["translation"], "");
}

#[test]
fn errors_are_printed_as_events() {
    let e = event_exit("usage", "a \"b\"\nc", 7);
    assert_eq!(e.code, 7);
    assert_eq!(
        e.line,
        "{\"type\":\"error\",\"code\":\"usage\",\"message\":\"a \\\"b\\\"\\nc\"}"
    );
}

#[test]
fn daemon_bin_is_sibling_of_pardon() {
    assert_eq!(daemon_bin_for("/home/u/.cargo/bin/pardon"), "/home/u/.cargo/bin/pardond");
}

#[test]
fn start_bin_missing_binary_is_error() {
    assert!(daemon_missing("/x/pardond").contains("pardond not found"));
    assert_eq!(daemon_log("/home/u/.local/share/pardon"), "/home/u/.local/share/pardon/log/pardond.log");
}

#[test]
fn daemon_actions() {
    assert_eq!(parse_action("start").unwrap(), DaemonAction::Start);
    assert_eq!(parse_action("stop").unwrap(), DaemonAction::Stop);
    assert!(parse_action("restart").is_err());
}

#[test]
fn unknown_source_is_rejected() {
    let err = check_source("bogus").unwrap_err();
    assert!(err.contains("selection|clipboard"), "{err}");
    assert!(check_source("selection").is_ok());
    assert!(check_source("clipboard").is_ok());
}

#[test]
fn unreachable_daemon_is_an_error_with_hint() {
    let why = unreachable_daemon("127.0.0.1:1", "connection refused");
    assert!(why.contains("pardon daemon start"), "{why}");
    assert!(why.contains("127.0.0.1:1"), "{why}");
}

#[test]
fn speak_empty_text_exits_2() {
    let why = speakable("").unwrap_err();
    assert!(why.contains("empty text"), "{why}");
    assert!(speakable("hello").is_ok());
    assert_eq!(error_exit(&why).code, 2);
}

#[test]
fn import_arguments() {
    let v = |a: &[&str]| a.iter().map(|s| s.to_string()).collect::<Vec<String>>();
    assert_eq!(
        parse_import(&v(&["in.csv", "out.sqlite"])),
        Some(ImportJob { kind: ImportKind::Csv, input: "in.csv".into(), output: "out.sqlite".into() })
    );
    assert_eq!(
        parse_import(&v(&["--cedict", "c.u8", "out.sqlite"])),
        Some(ImportJob { kind: ImportKind::Cedict, input: "c.u8".into(), output: "out.sqlite".into() })
    );
    assert_eq!(
        parse_import(&v(&["--ecdict-sqlite", "e.db", "out.sqlite"])),
        Some(ImportJob { kind: ImportKind::Sqlite, input: "e.db".into(), output: "out.sqlite".into() })
    );
    assert_eq!(parse_import(&v(&["--cedict", "c.u8"])), None);
    assert_eq!(parse_import(&v(&["a"])), None);
    assert!(usage().contains("pardon-import"));
    assert!(imported(5, "out.sqlite").contains("5"));
}

fn entry(text: &str, translation: &str) -> HistoryEntry {
    HistoryEntry {
        ts_ms: 1_800_000_000_000,
        text: text.into(),
        translation: translation.into(),
        engine: "ecdict".into(),
        origin: "cli".into(),
    }
}

#[test]
fn format_entry_truncates_long_fields() {
    let line = format_entry(&entry(&"x".repeat(300), &"y".repeat(400)));
    assert!(line.chars().count() < 200, "{}", line.chars().count());
    assert!(line.contains('…'));
}

#[test]
fn entries_start_with_their_time() {
    let line = format_entry(&entry("hi", "你好"));
    assert!(line.starts_with("2027-01-15"), "{line}");
    assert!(line.contains("hi"), "{line}");
    assert!(line.contains("你好"), "{line}");
    let far = HistoryEntry { ts_ms: i64::MAX, ..entry("hi", "你好") };
    assert!(format_entry(&far).contains(&i64::MAX.to_string()), "{}", format_entry(&far));
    assert!(entry_time(None, 7).contains('7'));
}

#[test]
fn only_translations_are_recorded() {
    let t = translation("hi", "你好", "glm");
    let e = entry_for(&t, "cli", 5).unwrap();
    assert_eq!(e.origin, "cli");
    assert_eq!(e.ts_ms, 5);
    assert_eq!(e.text, "hi");
    assert_eq!(e.translation, "你好");
    assert_eq!(e.engine, "glm");
    assert!(entry_for(&translation("hi", "", ""), "cli", 5).is_none());
    assert_eq!(history_path("/h"), "/h/history.sqlite");
}

#[test]
fn history_is_printed_as_a_list() {
    assert_eq!(history_line(&vec![]), "[]");
    assert_eq!(
        history_line(&vec![entry("a\tb", "c")]),
        "[{\"ts_ms\":1800000000000,\"text\":\"a\\tb\",\"translation\":\"c\",\"engine\":\"ecdict\",\"origin\":\"cli\"}]"
    );
}

#[test]
fn json_is_printed_on_one_line_or_on_several() {
    let line = "{\"b\":1,\"a\":[\"x\"]}";
    assert_eq!(printed(line, true), line);
    assert_eq!(printed(line, false), "{\n  \"b\": 1,\n  \"a\": [\n    \"x\"\n  ]\n}");
    assert_eq!(printed("not json", false), "not json");
    assert_eq!(pardon::cli::choose_print("l", Some("p".into()), false), "p");
    assert_eq!(pardon::cli::choose_print("l", Some("p".into()), true), "l");
    assert_eq!(pardon::cli::choose_print("l", None, false), "l");
}
