//! The daemon: texts on their way, windows, triggers and the tray.

use pardon::config::{set_bool, AppConfig, DaemonConfig};
use pardon::daemon::clip::{latest, on_monitor, MonitorStep};
use pardon::daemon::events::{Event, ShowWindowKind};
use pardon::daemon::handler::{
    format_notification, format_word_notification, truncate_chars, Counters, HandleInput,
    HandleResult, HandleStep, Handling, Moment, Origin, Shared,
};
use pardon::daemon::http;
use pardon::daemon::status::snapshot;
use pardon::daemon::tray::{
    handle_cmd, open_window_plan, to_argb, tray_icon, MenuEntry, OpenPlan, PardonTray, TrayCmd,
    TrayStep,
};
use pardon::daemon::uds::{self, Job, Request, SocketPlan};
use pardon::daemon::watcher::{after_switch, set_enabled, Switch};
use pardon::dict::{Exchange, Phonetic, PosGloss, WordCard};
use pardon::history::HistoryEntry;
use pardon::lang::Lang;
use pardon::loopguard::LoopGuard;
use pardon::pipeline::Translation;
use pardon::testing::{Always, FakeClipboard, FakeNotifier, FakeTranslator, Mapper};
use serde_json::Value;

const AT: Moment = Moment { now: 0, ts_ms: 1_800_000_000_000 };

/// The daemon with stand-ins around it.
struct World<M: Mapper = Always> {
    cfg: AppConfig,
    shared: Shared,
    translator: FakeTranslator<M>,
    notifier: FakeNotifier,
    clipboard: FakeClipboard,
    windows: usize,
    published: Vec<String>,
    history: Vec<HistoryEntry>,
}

fn world<M: Mapper>(translator: FakeTranslator<M>) -> World<M> {
    let cfg = AppConfig::default();
    World {
        shared: Shared {
            guard: LoopGuard::new(cfg.daemon.dedup_window_ms as u128 * 1_000_000),
            counters: Counters::default(),
        },
        cfg,
        translator,
        notifier: FakeNotifier::default(),
        clipboard: FakeClipboard::default(),
        windows: 0,
        published: vec![],
        history: vec![],
    }
}

impl<M: Mapper> World<M> {
    fn handle(&mut self, raw: &str, origin: Origin) -> HandleResult {
        let cfg: &DaemonConfig = &self.cfg.daemon;
        let (mut h, mut step) = Handling::start(&mut self.shared, cfg, raw, origin, AT);
        loop {
            let input = match step {
                HandleStep::Translate(t) => HandleInput::Translated(self.translator.translate(&t)),
                HandleStep::Lookup(w) => HandleInput::Found(self.translator.lookup(&w)),
                HandleStep::Publish(line) => {
                    let taken = self.windows > 0;
                    if taken {
                        self.published.push(line);
                    }
                    HandleInput::Published(taken)
                }
                HandleStep::Notify(s, b) => HandleInput::Notified(self.notifier.notify(&s, &b).is_ok()),
                HandleStep::Record(e) => {
                    self.history.push(e);
                    HandleInput::Recorded
                }
                HandleStep::Write(t) => {
                    self.clipboard.write_clipboard(&t);
                    HandleInput::Written
                }
                HandleStep::Wait => panic!("nothing to wait for"),
                HandleStep::Done(r) => return r,
            };
            step = h.next(&mut self.shared, cfg, input, AT);
        }
    }
}

fn suggestions(v: &[&str]) -> WordCard {
    WordCard {
        found: false,
        word: String::new(),
        phonetic: None,
        pos: vec![],
        definition: vec![],
        exchange: None,
        collins: None,
        oxford: false,
        tags: vec![],
        source: "ecdict".into(),
        suggestions: v.iter().map(|s| s.to_string()).collect(),
    }
}

fn table(text: &str, translation: &str, engine: &str) -> FakeTranslator {
    FakeTranslator::with_map(vec![(
        text.into(),
        FakeTranslator::sentence(text, translation, engine),
    )])
}

#[test]
fn empty_text_is_skipped() {
    let mut w = world(FakeTranslator::new());
    let r = w.handle("  \n ", Origin::Auto);
    assert!(matches!(r, HandleResult::Skipped("empty")));
    assert!(w.translator.calls.is_empty());
}

#[test]
fn oversize_auto_skipped_but_trigger_bypasses() {
    let mut w = world(FakeTranslator::new());
    w.cfg.daemon.max_text_bytes = 10;
    let text = "aaaaaaaaaaaaaaaaaaaa";
    assert!(matches!(w.handle(text, Origin::Auto), HandleResult::Skipped("oversize")));
    assert!(matches!(w.handle(text, Origin::Trigger), HandleResult::Handled { .. }));
    assert_eq!(w.shared.counters.triggers, 1);
    assert_eq!(w.shared.counters.clipboard_events, 0);
}

#[test]
fn the_limit_counts_bytes() {
    let mut w = world(FakeTranslator::new());
    w.cfg.daemon.max_text_bytes = 6;
    assert!(matches!(w.handle("你好", Origin::Auto), HandleResult::Handled { .. }));
    assert!(matches!(w.handle("你好吗", Origin::Auto), HandleResult::Skipped("oversize")));
}

#[test]
fn duplicate_auto_event_deduped() {
    let mut w = world(FakeTranslator::new());
    assert!(matches!(w.handle("hello world", Origin::Auto), HandleResult::Handled { .. }));
    assert!(matches!(w.handle("hello world", Origin::Auto), HandleResult::Skipped("duplicate")));
    assert_eq!(w.shared.counters.clipboard_events, 1);
}

#[test]
fn word_shaped_llm_result_appends_suggestions() {
    let mut w = world(table("runnign", "(LLM 认为你想说 running)", "glm"));
    w.translator.lookup_card = suggestions(&["running", "run"]);
    w.handle("runnign", Origin::Trigger);
    assert_eq!(w.notifier.sent.len(), 1);
    let body = &w.notifier.sent[0].1;
    assert!(body.contains("(LLM 认为你想说 running)"), "{body}");
    assert!(body.ends_with("未收录；试试：running、run"), "{body}");
}

#[test]
fn sentence_result_has_no_suggestion_line() {
    let text = "please give me the book quickly";
    let mut w = world(table(text, "请把书快给我", "glm"));
    w.translator.lookup_card = suggestions(&["running"]);
    w.handle(text, Origin::Auto);
    assert_eq!(w.notifier.sent[0].1, "请把书快给我");
    assert_eq!(w.translator.lookups.len(), 0);
}

#[test]
fn chinese_text_skips_suggestion_lookup() {
    let mut w = world(table("吃饭了", "have eaten", "glm"));
    w.handle("吃饭了", Origin::Auto);
    assert_eq!(w.notifier.sent[0].1, "have eaten");
    assert_eq!(w.translator.lookups.len(), 0);
}

#[test]
fn sentence_failure_shows_fallback_body() {
    let mut w = world(table("hello world", "", ""));
    assert!(matches!(w.handle("hello world", Origin::Auto), HandleResult::Handled { .. }));
    assert!(w.notifier.sent[0].1.contains("翻译失败"));
    assert!(w.history.is_empty());
}

#[test]
fn successful_translation_notifies_and_counts() {
    let mut w = world(FakeTranslator::new());
    match w.handle("hello world", Origin::Auto) {
        HandleResult::Handled { notified, .. } => assert!(notified),
        HandleResult::Skipped(why) => panic!("unexpected Skipped({why})"),
    }
    assert_eq!(w.shared.counters.translations, 1);
    assert_eq!(w.shared.counters.notifications, 1);
    assert_eq!(w.history.len(), 1);
    assert_eq!(w.history[0].origin, "auto");
    assert_eq!(w.history[0].ts_ms, AT.ts_ms);
}

#[test]
fn notify_failure_still_returns_handled() {
    let mut w = world(FakeTranslator::new());
    w.notifier.fail = true;
    match w.handle("hello world", Origin::Auto) {
        HandleResult::Handled { notified, .. } => assert!(!notified),
        HandleResult::Skipped(why) => panic!("unexpected Skipped({why})"),
    }
    assert_eq!(w.shared.counters.notifications, 0);
}

#[test]
fn copy_translation_writes_back_and_blocks_echo() {
    let mut w = world(table("hello", "你好", "glm"));
    w.cfg.daemon.copy_translation = true;
    match w.handle("hello", Origin::Auto) {
        HandleResult::Handled { translation, notified } => {
            assert!(notified);
            assert_eq!(translation.translation, "你好");
        }
        HandleResult::Skipped(why) => panic!("unexpected Skipped({why})"),
    }
    assert_eq!(w.clipboard.written, vec!["你好".to_string()]);
    assert!(matches!(w.handle("你好", Origin::Auto), HandleResult::Skipped("duplicate")));
}

#[test]
fn truncate_chars_cjk_safe() {
    assert_eq!(truncate_chars("你好世界！！！", 4), "你好世界…");
    assert_eq!(truncate_chars("abc", 10), "abc");
    assert_eq!(truncate_chars("", 3), "");
}

#[test]
fn format_notification_sentence_has_no_phonetic() {
    let tr = FakeTranslator::sentence("hello world", "你好世界", "glm");
    let (summary, body) = format_notification(&tr, None);
    assert_eq!(summary, "hello world");
    assert!(!summary.contains('/'));
    assert_eq!(body, "你好世界");
}

#[test]
fn notifications_for_words_without_a_translation() {
    let tr = FakeTranslator::sentence("gave", "", "ecdict");
    assert_eq!(format_notification(&tr, None).1, "未收录");
    assert_eq!(format_notification(&tr, Some("未收录；试试：give")).1, "未收录；试试：give");
    let long = FakeTranslator::sentence(&"a".repeat(31), &"b".repeat(1201), "glm");
    let (summary, body) = format_notification(&long, None);
    assert_eq!(summary.chars().count(), 31);
    assert_eq!(body.chars().count(), 1201);
    assert!(body.ends_with('…'));
}

fn run_card() -> WordCard {
    WordCard {
        found: true,
        word: "run".into(),
        phonetic: Some(Phonetic { uk: Some("rʌn".into()), us: None }),
        pos: vec![PosGloss { pos: "v.".into(), gloss: vec!["跑".into(), "运转".into()] }],
        definition: vec![],
        exchange: Some(Exchange {
            past: Some("ran".into()),
            pp: Some("ran".into()),
            ing: Some("running".into()),
            third: Some("runs".into()),
            comparative: None,
            superlative: None,
            plural: None,
            lemma: None,
        }),
        collins: Some(4),
        oxford: true,
        tags: vec!["gk".into(), "ielts".into()],
        source: "ecdict".into(),
        suggestions: vec![],
    }
}

#[test]
fn word_hit_notification_has_phonetic_and_exchange() {
    let card = run_card();
    let (summary, body) = format_word_notification(&card, true);
    assert_eq!(summary, "run");
    assert!(body.starts_with("/rʌn/\n"), "{body}");
    assert!(body.contains("v. 跑；运转"), "{body}");
    assert!(body.contains("词形：ran · running · runs"), "{body}");
    assert!(body.ends_with("柯林斯 ★★★★ · 牛津核心 · 高考 · 雅思"), "{body}");
    let (_, body_off) = format_word_notification(&card, false);
    assert!(!body_off.contains("柯林斯"), "{body_off}");
}

#[test]
fn word_notification_without_phonetic_or_exchange() {
    let mut card = suggestions(&[]);
    card.found = true;
    card.word = "gave".into();
    let (summary, body) = format_word_notification(&card, true);
    assert_eq!(summary, "gave");
    assert_eq!(body, "");
}

#[test]
fn handle_text_word_hit_uses_rich_card_notification() {
    let mut w = world(table("run", "v. 跑", "ecdict"));
    w.translator.lookup_card = WordCard {
        pos: vec![PosGloss { pos: "v.".into(), gloss: vec!["跑".into()] }],
        exchange: None,
        collins: Some(3),
        tags: vec!["cet4".into()],
        ..run_card()
    };
    assert!(matches!(w.handle("run", Origin::Trigger), HandleResult::Handled { .. }));
    let sent = &w.notifier.sent;
    assert_eq!(sent[0].0, "run");
    assert!(sent[0].1.starts_with("/rʌn/"), "{}", sent[0].1);
    assert!(sent[0].1.contains("v. 跑"), "{}", sent[0].1);
    assert!(!sent[0].1.contains("柯林斯"), "{}", sent[0].1);
}

#[test]
fn subscriber_receives_popup_event() {
    let mut w = world(FakeTranslator::new());
    w.cfg.daemon.popup = true;
    w.windows = 1;
    w.handle("hello", Origin::Trigger);
    let ev: Value = serde_json::from_str(&w.published[0]).unwrap();
    assert_eq!(ev["event"], "popup");
    assert_eq!(ev["params"]["translation"]["text"], "hello");
    assert!(w.notifier.sent.is_empty());
}

#[test]
fn without_a_window_a_popup_becomes_a_notification() {
    let mut w = world(FakeTranslator::new());
    w.cfg.daemon.popup = true;
    match w.handle("hello", Origin::Trigger) {
        HandleResult::Handled { notified, .. } => assert!(notified),
        HandleResult::Skipped(why) => panic!("unexpected Skipped({why})"),
    }
    assert!(w.published.is_empty());
    assert_eq!(w.notifier.sent.len(), 1);
}

#[test]
fn burst_coalesces_to_latest() {
    let mut w = world(FakeTranslator::delayed(
        150,
        Always { translation: "（译）".into(), engine: "glm".into() },
    ));
    assert_eq!(w.translator.delay_ms, 150);
    let first = latest("first text".into(), &vec![]);
    w.handle(&first, Origin::Auto);
    let next = latest("second text".into(), &vec!["third text".into()]);
    w.handle(&next, Origin::Auto);
    assert_eq!(w.notifier.sent.len(), 2);
    assert!(w.notifier.sent[1].0.contains("third text"));
    assert_eq!(w.translator.calls.len(), 2);
}

#[test]
fn monitor_error_is_retried_not_fatal() {
    assert_eq!(on_monitor(Err("watcher exited".into())), MonitorStep::Retry);
    assert_eq!(on_monitor(Ok("after retry".into())), MonitorStep::Forward("after retry".into()));
}

fn tr(text: &str) -> Translation {
    Translation {
        source_lang: Lang::En,
        target_lang: Lang::Zh,
        text: text.into(),
        translation: "译".into(),
        engine: "glm".into(),
    }
}

#[test]
fn popup_serializes_as_tagged_event_line() {
    let line = Event::Popup { translation: tr("hello"), card: None }.to_line();
    assert!(line.starts_with(r#"{"event":"popup","params":{"translation":"#), "{line}");
    assert!(line.contains(r#""engine":"glm""#), "{line}");
    assert!(line.contains(r#""card":null"#), "{line}");
}

#[test]
fn show_window_serializes_snake_case_kind() {
    let line = Event::ShowWindow { kind: ShowWindowKind::Settings }.to_line();
    assert!(line.contains(r#""event":"show_window""#), "{line}");
    assert!(line.contains(r#""kind":"settings""#), "{line}");
}

#[test]
fn snapshot_exposes_show_word_badge() {
    let mut cfg = AppConfig::default();
    cfg.daemon.show_word_badge = true;
    assert!(snapshot(&cfg, &Counters::default(), 0, false, 0).show_word_badge);
    cfg.daemon.show_word_badge = false;
    assert!(!snapshot(&cfg, &Counters::default(), 0, false, 0).show_word_badge);
}

#[test]
fn status_reports_counters_and_watching() {
    let s = snapshot(&AppConfig::default(), &Counters::default(), 3, true, 0);
    let v: Value = serde_json::from_str(&s.line()).unwrap();
    assert_eq!(v["clipboard_watching"], true);
    assert_eq!(v["version"], pardon::VERSION);
    assert!(v["counters"]["translations"].is_u64());
    assert_eq!(v["uptime_s"], 3);
    assert_eq!(v["gui_connected"], 0);
}

// Over HTTP

#[test]
fn translate_returns_translation_json() {
    let mut w = world(table("hello world", "你好世界", "glm"));
    let text = http::translate_text(" hello world ").unwrap();
    let t = w.translator.translate(&text);
    let reply = http::translated(&mut w.shared, &t);
    assert_eq!(reply.status, 200);
    let v: Value = serde_json::from_str(&reply.body).unwrap();
    assert_eq!(v["translation"], "你好世界");
    assert_eq!(v["engine"], "glm");
    assert_eq!(w.shared.counters.translations, 1);
}

#[test]
fn translate_empty_text_is_400() {
    let reply = http::translate_text("   ").unwrap_err();
    assert_eq!(reply.status, 400);
    assert_eq!(reply.body, "{\"error\":\"empty text\"}");
}

#[test]
fn trigger_selection_notifies_and_returns_translation() {
    let mut w = world(table("primary text", "主文本", "glm"));
    w.clipboard.primary_result = Ok("primary text".into());
    let text = w.clipboard.read_primary().unwrap();
    let reply = http::handled(&w.handle(&text, Origin::Trigger));
    let v: Value = serde_json::from_str(&reply.body).unwrap();
    assert_eq!(v["notified"], true);
    assert_eq!(v["translation"]["translation"], "主文本");
    assert!(v.get("reason").is_none());
    assert_eq!(w.notifier.sent.len(), 1);
}

#[test]
fn trigger_read_empty_maps_to_no_text() {
    let reply = http::unreadable(
        "wl-paste failed: Clipboard content is not available as requested type \"text/plain\"",
    );
    assert_eq!(reply.status, 200);
    let v: Value = serde_json::from_str(&reply.body).unwrap();
    assert_eq!(v["notified"], false);
    assert_eq!(v["reason"], "no text available");
    assert_eq!(v["translation"], Value::Null);
    assert_eq!(http::unreadable("NO SELECTION").status, 200);
}

#[test]
fn trigger_hard_error_is_503() {
    let reply = http::unreadable("compositor connection refused");
    assert_eq!(reply.status, 503);
    assert_eq!(reply.body, "{\"error\":\"compositor connection refused\"}");
}

#[test]
fn a_skipped_trigger_says_why() {
    let reply = http::handled(&HandleResult::Skipped("empty"));
    assert_eq!(reply.status, 200);
    assert_eq!(reply.body, "{\"notified\":false,\"reason\":\"empty\"}");
}

#[test]
fn shutdown_is_announced() {
    let reply = http::shutting_down();
    assert_eq!(reply.status, 200);
    assert_eq!(reply.body, "{\"status\":\"shutting down\"}");
}

// Over the socket

fn request(id: i64, method: &str) -> Request {
    Request { id, method: method.into(), text: None, word: None, source: None, limit: None }
}

fn reply(job: Job) -> Value {
    match job {
        Job::Reply(line) => serde_json::from_str(&line).unwrap(),
        other => panic!("no reply: {other:?}"),
    }
}

#[test]
fn ping_status_translate_lookup_roundtrip() {
    let mut w = world(FakeTranslator::new());
    let v = reply(uds::dispatch(&request(1, "ping")));
    assert_eq!(v["id"], 1);
    assert_eq!(v["ok"], true);
    assert_eq!(v["result"]["version"], pardon::VERSION);

    assert_eq!(uds::dispatch(&request(2, "status")), Job::Status);
    let s = snapshot(&w.cfg, &w.shared.counters, 0, false, 0);
    let v: Value = serde_json::from_str(&uds::status_reply(2, &s)).unwrap();
    assert_eq!(v["ok"], true);
    assert_eq!(v["result"]["gui_connected"], 0);
    assert_eq!(v["result"]["clipboard_watching"], false);

    let mut req = request(3, "translate");
    req.text = Some("hello world".into());
    assert_eq!(uds::dispatch(&req), Job::Translate("hello world".into()));
    let t = w.translator.translate("hello world");
    let (line, entry) = uds::translate_reply(&mut w.shared, 3, &t, AT.ts_ms);
    let v: Value = serde_json::from_str(&line).unwrap();
    assert_eq!(v["result"]["translation"], "（译文）");
    w.history.extend(entry);
    assert_eq!(w.shared.counters.translations, 1);

    req.text = Some("   ".into());
    req.id = 4;
    let v = reply(uds::dispatch(&req));
    assert_eq!(v["ok"], false);
    assert_eq!(v["error"], "empty text");

    let mut req = request(5, "lookup");
    req.word = Some("run".into());
    assert_eq!(uds::dispatch(&req), Job::Lookup("run".into()));
    let v: Value = serde_json::from_str(&uds::lookup_reply(5, &w.translator.lookup("run"))).unwrap();
    assert_eq!(v["result"]["found"], false);

    assert_eq!(uds::dispatch(&request(6, "history")), Job::History(20));
    let v: Value = serde_json::from_str(&uds::history_reply(6, &Some(w.history.clone()))).unwrap();
    let entries = v["result"].as_array().unwrap();
    assert_eq!(entries.len(), 1);
    assert_eq!(entries[0]["origin"], "gui");
    assert_eq!(entries[0]["text"], "hello world");

    let mut req = request(7, "trigger");
    req.source = Some("clipboard".into());
    assert_eq!(uds::dispatch(&req), Job::Trigger(false));
    let text = w.clipboard.read_clipboard().unwrap();
    let outcome = pardon::daemon::trigger::outcome_of(w.handle(&text, Origin::Trigger));
    let v: Value = serde_json::from_str(&uds::trigger_reply(7, &outcome)).unwrap();
    assert_eq!(v["ok"], true);
    assert_eq!(v["result"]["notified"], false);
    assert_eq!(v["result"]["reason"], "no text available");

    req.source = Some("bogus".into());
    assert_eq!(reply(uds::dispatch(&req))["ok"], false);
    let v = reply(uds::dispatch(&request(9, "badmethod")));
    assert_eq!(v["ok"], false);
    assert_eq!(v["error"], "unknown method \"badmethod\"");
}

#[test]
fn replies_have_their_exact_form() {
    assert_eq!(uds::ok_line(-1, "{}"), "{\"id\":-1,\"ok\":true,\"result\":{}}");
    assert_eq!(uds::err_line(2, "no\n"), "{\"id\":2,\"ok\":false,\"error\":\"no\\n\"}");
    assert_eq!(uds::bad_request("eof"), "{\"id\":0,\"ok\":false,\"error\":\"bad request: eof\"}");
    assert_eq!(uds::subscribe_reply(1), "{\"id\":1,\"ok\":true,\"result\":{}}");
    assert_eq!(uds::reload_reply(1, Ok(true)), "{\"id\":1,\"ok\":true,\"result\":{\"restart_required\":true}}");
    assert_eq!(uds::reload_reply(1, Err("bad".into())), "{\"id\":1,\"ok\":false,\"error\":\"bad\"}");
    assert_eq!(uds::history_reply(3, &None), "{\"id\":3,\"ok\":false,\"error\":\"history unavailable\"}");
}

#[test]
fn requests_for_windows() {
    assert_eq!(uds::dispatch(&request(1, "reload")), Job::Reload);
    assert_eq!(uds::dispatch(&request(1, "subscribe")), Job::Subscribe);
    let mut req = request(1, "trigger");
    req.source = Some("selection".into());
    assert_eq!(uds::dispatch(&req), Job::Trigger(true));
    let mut req = request(1, "history");
    req.limit = Some((1 << 32) + 5);
    assert_eq!(uds::dispatch(&req), Job::History(5));
    let v = reply(uds::dispatch(&request(1, "lookup")));
    assert_eq!(v["error"], "empty word");
}

#[test]
fn triggers_that_fail() {
    let failed = pardon::daemon::trigger::read_failed("Connection Refused");
    assert_eq!(uds::trigger_reply(1, &failed), "{\"id\":1,\"ok\":false,\"error\":\"Connection Refused\"}");
    let none = pardon::daemon::trigger::read_failed("The clipboard is Empty");
    let v: Value = serde_json::from_str(&uds::trigger_reply(1, &none)).unwrap();
    assert_eq!(v["result"]["reason"], "no text available");
    assert!(pardon::daemon::trigger::says_no_text("no suitable type"));
}

#[test]
fn a_socket_in_use_is_left_alone() {
    assert_eq!(uds::socket_plan("/s", false, false), SocketPlan::Bind);
    assert_eq!(uds::socket_plan("/s", true, false), SocketPlan::RemoveThenBind);
    assert_eq!(
        uds::socket_plan("/s", true, true),
        SocketPlan::Refuse("ipc socket /s is owned by a running pardond".into())
    );
    assert_eq!(uds::directory_to_make("/a/b/ipc.sock", false).as_deref(), Some("/a/b"));
    assert_eq!(uds::directory_to_make("/a/b/ipc.sock", true), None);
    assert_eq!(uds::directory_to_make("ipc.sock", false), None);
}

// Tray and watcher

#[test]
fn open_window_prefers_subscriber_else_spawns() {
    assert!(matches!(open_window_plan(true), OpenPlan::Event));
    assert!(matches!(open_window_plan(false), OpenPlan::Spawn));
}

#[test]
fn toggle_auto_updates_cfg_and_persists() {
    assert_eq!(
        handle_cmd(TrayCmd::ToggleAuto(false), false),
        vec![TrayStep::Watch(false), TrayStep::Persist(false), TrayStep::Apply(false)]
    );
    let mut tray = PardonTray { auto: true };
    tray.take(TrayCmd::ToggleAuto(false));
    assert!(!tray.auto);
    tray.take(TrayCmd::Quit);
    assert!(!tray.auto);
    let file = Some("[daemon]\nauto_translate = true\n".to_string());
    assert_eq!(
        set_bool(&file, "daemon", "auto_translate", false),
        Ok("[daemon]\nauto_translate = false\n".to_string())
    );
}

#[test]
fn windows_are_opened_from_the_tray() {
    assert_eq!(
        handle_cmd(TrayCmd::Open(ShowWindowKind::Main), false),
        vec![TrayStep::Spawn("--main")]
    );
    assert_eq!(
        handle_cmd(TrayCmd::Open(ShowWindowKind::Settings), false),
        vec![TrayStep::Spawn("--settings")]
    );
    assert_eq!(
        handle_cmd(TrayCmd::Open(ShowWindowKind::Main), true),
        vec![TrayStep::Publish("{\"event\":\"show_window\",\"params\":{\"kind\":\"main\"}}".into())]
    );
    assert_eq!(handle_cmd(TrayCmd::Quit, true), vec![TrayStep::Shutdown]);
}

#[test]
fn the_menu() {
    let menu = PardonTray { auto: true }.menu();
    assert_eq!(menu.len(), 6);
    assert_eq!(menu[0], MenuEntry::Item("打开主窗口", TrayCmd::Open(ShowWindowKind::Main)));
    assert_eq!(menu[3], MenuEntry::Check("复制即翻译", true, TrayCmd::ToggleAuto(false)));
    assert_eq!(menu[5], MenuEntry::Item("退出 pardond", TrayCmd::Quit));
}

#[test]
fn an_icon_has_its_opacity_first() {
    assert_eq!(to_argb(&vec![1, 2, 3, 4, 5, 6, 7, 8, 9]), vec![4, 1, 2, 3, 8, 5, 6, 7]);
    let mut png = std::io::Cursor::new(Vec::new());
    let img = image::RgbaImage::from_raw(1, 2, vec![10, 20, 30, 40, 50, 60, 70, 80]).unwrap();
    img.write_to(&mut png, image::ImageFormat::Png).unwrap();
    let icon = tray_icon(png.get_ref()).unwrap();
    assert_eq!((icon.width, icon.height), (1, 2));
    assert_eq!(icon.pixels, vec![40, 10, 20, 30, 80, 50, 60, 70]);
    assert!(tray_icon(b"no picture").is_none());
}

#[test]
fn stop_when_not_running_is_noop() {
    assert_eq!(set_enabled(false, false), Switch::Nothing);
    assert!(!after_switch(false, Switch::Nothing, true));
}

#[test]
fn enable_starts_and_disable_stops_consumer() {
    let on = set_enabled(false, true);
    assert_eq!(on, Switch::Start);
    assert!(after_switch(false, on, true));
    assert!(!after_switch(false, on, false));
    let off = set_enabled(true, false);
    assert_eq!(off, Switch::Stop);
    assert!(!after_switch(true, off, true));
}
