//! The state of the daemon at a glance.

use crate::config::AppConfig;
use crate::daemon::handler::Counters;
use crate::json;
use crate::json::Fields;
use crate::reading;
use crate::reading::Json;
use crate::text;
use vstd::prelude::*;

verus! {

/// The state of the daemon.
#[derive(Debug, Clone, PartialEq)]
pub struct StatusResponse {
    pub version: &'static str,
    pub uptime_s: u64,
    pub clipboard_watching: bool,
    pub auto_translate: bool,
    pub default_engine: String,
    pub counters: StatusCounters,
    /// How many windows listen.
    pub gui_connected: usize,
    pub show_word_badge: bool,
}

/// How often things happened since the start.
#[derive(Debug, Clone, Copy, PartialEq, Eq, Structural)]
pub struct StatusCounters {
    pub clipboard_events: u64,
    pub translations: u64,
    pub notifications: u64,
    pub triggers: u64,
}

/// What a [`StatusResponse`] says.
#[verifier::ext_equal]
pub struct StatusModel {
    pub version: Seq<char>,
    pub uptime_s: u64,
    pub clipboard_watching: bool,
    pub auto_translate: bool,
    pub default_engine: Seq<char>,
    pub counters: StatusCounters,
    pub gui_connected: usize,
    pub show_word_badge: bool,
}

impl DeepView for StatusResponse {
    type V = StatusModel;

    open spec fn deep_view(&self) -> StatusModel {
        StatusModel {
            version: self.version@,
            uptime_s: self.uptime_s,
            clipboard_watching: self.clipboard_watching,
            auto_translate: self.auto_translate,
            default_engine: self.default_engine@,
            counters: self.counters,
            gui_connected: self.gui_connected,
            show_word_badge: self.show_word_badge,
        }
    }
}

/// The state of a daemon with this configuration and these counters.
pub fn snapshot(
    cfg: &AppConfig,
    counters: &Counters,
    uptime_s: u64,
    clipboard_watching: bool,
    gui_connected: usize,
) -> (r: StatusResponse)
    ensures
        r.deep_view() == (StatusModel {
            version: crate::VERSION@,
            uptime_s,
            clipboard_watching,
            auto_translate: cfg.daemon.auto_translate,
            default_engine: cfg.default_engine@,
            counters: StatusCounters {
                clipboard_events: counters.clipboard_events,
                translations: counters.translations,
                notifications: counters.notifications,
                triggers: counters.triggers,
            },
            gui_connected,
            show_word_badge: cfg.daemon.show_word_badge,
        }),
{
    StatusResponse {
        version: crate::VERSION,
        uptime_s,
        clipboard_watching,
        auto_translate: cfg.daemon.auto_translate,
        default_engine: text::copy(&cfg.default_engine),
        counters: StatusCounters {
            clipboard_events: counters.clipboard_events,
            translations: counters.translations,
            notifications: counters.notifications,
            triggers: counters.triggers,
        },
        gui_connected,
        show_word_badge: cfg.daemon.show_word_badge,
    }
}

/// The counters as JSON.
pub open spec fn counters_json(c: StatusCounters) -> Seq<char> {
    json::object(
        Seq::empty() + seq![
            json::field("clipboard_events"@, text::decimal(c.clipboard_events as nat)),
        ] + seq![json::field("translations"@, text::decimal(c.translations as nat))] + seq![
            json::field("notifications"@, text::decimal(c.notifications as nat)),
        ] + seq![json::field("triggers"@, text::decimal(c.triggers as nat))],
    )
}

/// The state as JSON.
pub open spec fn status_json(s: StatusModel) -> Seq<char> {
    json::object(
        Seq::empty() + seq![json::field("version"@, json::quoted(s.version))] + seq![
            json::field("uptime_s"@, text::decimal(s.uptime_s as nat)),
        ] + seq![json::field("clipboard_watching"@, json::bool_text(s.clipboard_watching))] + seq![
            json::field("auto_translate"@, json::bool_text(s.auto_translate)),
        ] + seq![json::field("default_engine"@, json::quoted(s.default_engine))] + seq![
            json::field("counters"@, counters_json(s.counters)),
        ] + seq![json::field("gui_connected"@, text::decimal(s.gui_connected as nat))] + seq![
            json::field("show_word_badge"@, json::bool_text(s.show_word_badge)),
        ],
    )
}

impl StatusResponse {
    /// The state as JSON.
    pub fn line(&self) -> (r: String)
        ensures
            r@ == status_json(self.deep_view()),
    {
        let mut c = Fields::new();
        c.put_number("clipboard_events", self.counters.clipboard_events);
        c.put_number("translations", self.counters.translations);
        c.put_number("notifications", self.counters.notifications);
        c.put_number("triggers", self.counters.triggers);
        let mut f = Fields::new();
        f.put_text("version", self.version);
        f.put_number("uptime_s", self.uptime_s);
        f.put_bool("clipboard_watching", self.clipboard_watching);
        f.put_bool("auto_translate", self.auto_translate);
        f.put_text("default_engine", &self.default_engine);
        f.put("counters", &c.finish());
        f.put_number("gui_connected", self.gui_connected as u64);
        f.put_bool("show_word_badge", self.show_word_badge);
        f.finish()
    }
}

/// The state is one line.
pub proof fn law_status_is_one_line(s: StatusModel)
    ensures
        json::one_line(status_json(s)),
{
    broadcast use json::group_one_line;

    assert(json::one_line(counters_json(s.counters)));
}

/// The state says what is configured, what was counted under the same name, and
/// what it was told of the clipboard and the windows.
pub proof fn law_snapshot(
    cfg: &AppConfig,
    counters: &Counters,
    uptime_s: u64,
    clipboard_watching: bool,
    gui_connected: usize,
    r: StatusResponse,
)
    requires
        call_ensures(snapshot, (cfg, counters, uptime_s, clipboard_watching, gui_connected), r),
    ensures
        r.version@ == "0.1.0"@,
        r.uptime_s == uptime_s,
        r.clipboard_watching == clipboard_watching,
        r.auto_translate == cfg.daemon.auto_translate,
        r.default_engine@ == cfg.default_engine@,
        r.counters.clipboard_events == counters.clipboard_events,
        r.counters.translations == counters.translations,
        r.counters.notifications == counters.notifications,
        r.counters.triggers == counters.triggers,
        r.gui_connected == gui_connected,
        r.show_word_badge == cfg.daemon.show_word_badge,
{
    let s = r.deep_view();
    assert(s.version == r.version@);
    assert(s.default_engine == r.default_engine@);
    assert(s.counters == r.counters);
    assert(s.uptime_s == uptime_s);
}

/// A reader of JSON finds in the state each value under its own name.
pub proof fn law_status_reads(s: StatusModel)
    ensures
        ({
            let counters = Json::Object(
                seq![
                    ("clipboard_events"@, Json::Number(s.counters.clipboard_events as int)),
                    ("translations"@, Json::Number(s.counters.translations as int)),
                    ("notifications"@, Json::Number(s.counters.notifications as int)),
                    ("triggers"@, Json::Number(s.counters.triggers as int)),
                ],
            );
            reading::means(
                status_json(s),
                Json::Object(
                    seq![
                        ("version"@, Json::Text(s.version)),
                        ("uptime_s"@, Json::Number(s.uptime_s as int)),
                        ("clipboard_watching"@, Json::Bool(s.clipboard_watching)),
                        ("auto_translate"@, Json::Bool(s.auto_translate)),
                        ("default_engine"@, Json::Text(s.default_engine)),
                        ("counters"@, counters),
                        ("gui_connected"@, Json::Number(s.gui_connected as int)),
                        ("show_word_badge"@, Json::Bool(s.show_word_badge)),
                    ],
                ),
            )
        }),
{
    broadcast use reading::lemma_more_members;

    reading::lemma_no_members();
    reading::lemma_count_member("clipboard_events"@, s.counters.clipboard_events as nat);
    reading::lemma_count_member("translations"@, s.counters.translations as nat);
    reading::lemma_count_member("notifications"@, s.counters.notifications as nat);
    reading::lemma_count_member("triggers"@, s.counters.triggers as nat);
    let c_fields = Seq::empty()
        + seq![json::field("clipboard_events"@, text::decimal(s.counters.clipboard_events as nat))]
        + seq![json::field("translations"@, text::decimal(s.counters.translations as nat))]
        + seq![json::field("notifications"@, text::decimal(s.counters.notifications as nat))]
        + seq![json::field("triggers"@, text::decimal(s.counters.triggers as nat))];
    let c_members = Seq::<(Seq<char>, Json)>::empty()
        + seq![("clipboard_events"@, Json::Number(s.counters.clipboard_events as int))]
        + seq![("translations"@, Json::Number(s.counters.translations as int))]
        + seq![("notifications"@, Json::Number(s.counters.notifications as int))]
        + seq![("triggers"@, Json::Number(s.counters.triggers as int))];
    assert(reading::members_mean(c_fields, c_members));
    reading::lemma_object(c_fields, c_members);
    let counters = seq![
        ("clipboard_events"@, Json::Number(s.counters.clipboard_events as int)),
        ("translations"@, Json::Number(s.counters.translations as int)),
        ("notifications"@, Json::Number(s.counters.notifications as int)),
        ("triggers"@, Json::Number(s.counters.triggers as int)),
    ];
    assert(c_members =~= counters);
    reading::lemma_text_member("version"@, s.version);
    reading::lemma_count_member("uptime_s"@, s.uptime_s as nat);
    reading::lemma_bool_member("clipboard_watching"@, s.clipboard_watching);
    reading::lemma_bool_member("auto_translate"@, s.auto_translate);
    reading::lemma_text_member("default_engine"@, s.default_engine);
    reading::lemma_member("counters"@, counters_json(s.counters), Json::Object(counters));
    reading::lemma_count_member("gui_connected"@, s.gui_connected as nat);
    reading::lemma_bool_member("show_word_badge"@, s.show_word_badge);
    let all_fields = Seq::empty()
        + seq![json::field("version"@, json::quoted(s.version))]
        + seq![json::field("uptime_s"@, text::decimal(s.uptime_s as nat))]
        + seq![json::field("clipboard_watching"@, json::bool_text(s.clipboard_watching))]
        + seq![json::field("auto_translate"@, json::bool_text(s.auto_translate))]
        + seq![json::field("default_engine"@, json::quoted(s.default_engine))]
        + seq![json::field("counters"@, counters_json(s.counters))]
        + seq![json::field("gui_connected"@, text::decimal(s.gui_connected as nat))]
        + seq![json::field("show_word_badge"@, json::bool_text(s.show_word_badge))];
    let all_members = Seq::<(Seq<char>, Json)>::empty()
        + seq![("version"@, Json::Text(s.version))]
        + seq![("uptime_s"@, Json::Number(s.uptime_s as int))]
        + seq![("clipboard_watching"@, Json::Bool(s.clipboard_watching))]
        + seq![("auto_translate"@, Json::Bool(s.auto_translate))]
        + seq![("default_engine"@, Json::Text(s.default_engine))]
        + seq![("counters"@, Json::Object(counters))]
        + seq![("gui_connected"@, Json::Number(s.gui_connected as int))]
        + seq![("show_word_badge"@, Json::Bool(s.show_word_badge))];
    assert(reading::members_mean(all_fields, all_members));
    reading::lemma_object(all_fields, all_members);
    assert(all_members =~= seq![
        ("version"@, Json::Text(s.version)),
        ("uptime_s"@, Json::Number(s.uptime_s as int)),
        ("clipboard_watching"@, Json::Bool(s.clipboard_watching)),
        ("auto_translate"@, Json::Bool(s.auto_translate)),
        ("default_engine"@, Json::Text(s.default_engine)),
        ("counters"@, Json::Object(counters)),
        ("gui_connected"@, Json::Number(s.gui_connected as int)),
        ("show_word_badge"@, Json::Bool(s.show_word_badge)),
    ]);
}

} // verus!
