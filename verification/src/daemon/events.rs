//! What the daemon tells the windows that listen to it.

use crate::dict::{CardModel, WordCard};
use crate::json;
use crate::json::Fields;
use crate::pipeline::{Translation, TranslationModel};
use crate::reading;
use crate::reading::Json;
use crate::wire;
use vstd::prelude::*;

verus! {

/// The windows that can be opened.
#[derive(Debug, Clone, Copy, PartialEq, Eq, Structural)]
pub enum ShowWindowKind {
    Main,
    Settings,
}

/// An event for a window.
#[derive(Debug, Clone)]
pub enum Event {
    /// A translation to show, with the card where one was looked up.
    Popup { translation: Translation, card: Option<WordCard> },
    /// A window to open.
    ShowWindow { kind: ShowWindowKind },
}

/// What an [`Event`] says.
pub enum EventModel {
    Popup { translation: TranslationModel, card: Option<CardModel> },
    ShowWindow { kind: ShowWindowKind },
}

impl DeepView for Event {
    type V = EventModel;

    open spec fn deep_view(&self) -> EventModel {
        match self {
            Event::Popup { translation, card } => EventModel::Popup {
                translation: translation.deep_view(),
                card: card.deep_view(),
            },
            Event::ShowWindow { kind } => EventModel::ShowWindow { kind: *kind },
        }
    }
}

/// The name of a window.
pub open spec fn window_name(k: ShowWindowKind) -> Seq<char> {
    match k {
        ShowWindowKind::Main => "main"@,
        ShowWindowKind::Settings => "settings"@,
    }
}

/// A card, or `null`.
pub open spec fn card_or_null(c: Option<CardModel>) -> Seq<char> {
    match c {
        Some(c) => wire::card_json(c),
        None => "null"@,
    }
}

/// A popup for a translation, with the card where one was looked up.
pub open spec fn popup_json(t: TranslationModel, card: Option<CardModel>) -> Seq<char> {
    json::object(
        Seq::empty() + seq![json::field("event"@, json::quoted("popup"@))] + seq![
            json::field(
                "params"@,
                json::object(
                    Seq::empty() + seq![json::field("translation"@, wire::translation_json(t))]
                        + seq![json::field("card"@, card_or_null(card))],
                ),
            ),
        ],
    )
}

/// An event as JSON.
pub open spec fn event_json(e: EventModel) -> Seq<char> {
    match e {
        EventModel::Popup { translation, card } => popup_json(translation, card),
        EventModel::ShowWindow { kind } => json::object(
            Seq::empty() + seq![json::field("event"@, json::quoted("show_window"@))] + seq![
                json::field(
                    "params"@,
                    json::object(
                        Seq::empty() + seq![json::field("kind"@, json::quoted(window_name(kind)))],
                    ),
                ),
            ],
        ),
    }
}

/// The line for a popup.
pub fn popup_line(t: &Translation, card: &Option<WordCard>) -> (r: String)
    ensures
        r@ == popup_json(t.deep_view(), card.deep_view()),
{
    let mut params = Fields::new();
    params.put("translation", &wire::translation_line(t));
    match card {
        Some(c) => params.put("card", &wire::card_line(c)),
        None => params.put("card", "null"),
    }
    let mut f = Fields::new();
    f.put_text("event", "popup");
    f.put("params", &params.finish());
    f.finish()
}

impl ShowWindowKind {
    /// The name of the window.
    pub fn name(self) -> (r: &'static str)
        ensures
            r@ == window_name(self),
    {
        match self {
            ShowWindowKind::Main => "main",
            ShowWindowKind::Settings => "settings",
        }
    }
}

impl Event {
    /// The event on one line.
    pub fn to_line(&self) -> (r: String)
        ensures
            r@ == event_json(self.deep_view()),
    {
        match self {
            Event::Popup { translation, card } => popup_line(translation, card),
            Event::ShowWindow { kind } => {
                let mut params = Fields::new();
                params.put_text("kind", kind.name());
                let mut f = Fields::new();
                f.put_text("event", "show_window");
                f.put("params", &params.finish());
                f.finish()
            },
        }
    }
}

/// An event is one line, whatever its texts hold.
pub proof fn law_event_is_one_line(e: EventModel)
    ensures
        json::one_line(event_json(e)),
{
    broadcast use json::group_one_line;

    match e {
        EventModel::Popup { translation, card } => {
            wire::law_translation_is_one_line(translation);
            match card {
                Some(c) => wire::law_card_is_one_line(c),
                None => reveal_strlit("null"),
            }
        },
        EventModel::ShowWindow { kind } => {},
    }
}

/// A reader of JSON finds in a popup the translation, and the card or `null`, and
/// in the event for a window the name of that window.
pub proof fn law_event_reads(t: TranslationModel, card: Option<CardModel>)
    ensures
        ({
            let shown = match card {
                Some(c) => reading::read(wire::card_json(c))->0,
                None => Json::Null,
            };
            reading::read(event_json(EventModel::Popup { translation: t, card })) == Some(
                Json::Object(
                    seq![
                        ("event"@, Json::Text("popup"@)),
                        (
                            "params"@,
                            Json::Object(
                                seq![
                                    ("translation"@, reading::read(wire::translation_json(t))->0),
                                    ("card"@, shown),
                                ],
                            ),
                        ),
                    ],
                ),
            )
        }),
        reading::read(event_json(EventModel::ShowWindow { kind: ShowWindowKind::Main })) == Some(
            Json::Object(
                seq![
                    ("event"@, Json::Text("show_window"@)),
                    ("params"@, Json::Object(seq![("kind"@, Json::Text("main"@))])),
                ],
            ),
        ),
        reading::read(event_json(EventModel::ShowWindow { kind: ShowWindowKind::Settings }))
            == Some(
            Json::Object(
                seq![
                    ("event"@, Json::Text("show_window"@)),
                    ("params"@, Json::Object(seq![("kind"@, Json::Text("settings"@))])),
                ],
            ),
        ),
{
    let shown = match card {
        Some(c) => reading::read(wire::card_json(c))->0,
        None => Json::Null,
    };
    wire::law_translation_reads(t);
    match card {
        Some(c) => wire::law_card_reads(c),
        None => reading::lemma_null(),
    }
    lemma_popup_reads(t, card, reading::read(wire::translation_json(t))->0, shown);
    lemma_window_reads(ShowWindowKind::Main);
    lemma_window_reads(ShowWindowKind::Settings);
}

proof fn lemma_popup_reads(t: TranslationModel, card: Option<CardModel>, told: Json, shown: Json)
    requires
        reading::means(wire::translation_json(t), told),
        reading::means(card_or_null(card), shown),
    ensures
        reading::read(popup_json(t, card)) == Some(
            Json::Object(
                seq![
                    ("event"@, Json::Text("popup"@)),
                    ("params"@, Json::Object(seq![("translation"@, told), ("card"@, shown)])),
                ],
            ),
        ),
{
    broadcast use reading::lemma_more_members;

    reading::lemma_no_members();
    reading::lemma_member("translation"@, wire::translation_json(t), told);
    reading::lemma_member("card"@, card_or_null(card), shown);
    let inner_fields = Seq::empty()
        + seq![json::field("translation"@, wire::translation_json(t))]
        + seq![json::field("card"@, card_or_null(card))];
    let inner_members = Seq::<(Seq<char>, Json)>::empty()
        + seq![("translation"@, told)]
        + seq![("card"@, shown)];
    assert(reading::members_mean(inner_fields, inner_members));
    reading::lemma_object(inner_fields, inner_members);
    let inner = seq![("translation"@, told), ("card"@, shown)];
    assert(inner_members =~= inner);
    reading::lemma_text_member("event"@, "popup"@);
    reading::lemma_member("params"@, json::object(inner_fields), Json::Object(inner));
    let all_fields = Seq::empty()
        + seq![json::field("event"@, json::quoted("popup"@))]
        + seq![json::field("params"@, json::object(inner_fields))];
    let all_members = Seq::<(Seq<char>, Json)>::empty()
        + seq![("event"@, Json::Text("popup"@))]
        + seq![("params"@, Json::Object(inner))];
    assert(reading::members_mean(all_fields, all_members));
    reading::lemma_object(all_fields, all_members);
    reading::lemma_reads(popup_json(t, card), Json::Object(all_members));
    assert(all_members =~= seq![
        ("event"@, Json::Text("popup"@)),
        ("params"@, Json::Object(inner)),
    ]);
}

proof fn lemma_window_reads(kind: ShowWindowKind)
    ensures
        reading::read(event_json(EventModel::ShowWindow { kind })) == Some(
            Json::Object(
                seq![
                    ("event"@, Json::Text("show_window"@)),
                    ("params"@, Json::Object(seq![("kind"@, Json::Text(window_name(kind)))])),
                ],
            ),
        ),
{
    broadcast use reading::lemma_more_members;

    reading::lemma_no_members();
    reading::lemma_text_member("kind"@, window_name(kind));
    let inner_fields = Seq::empty()
        + seq![json::field("kind"@, json::quoted(window_name(kind)))];
    let inner_members = Seq::<(Seq<char>, Json)>::empty()
        + seq![("kind"@, Json::Text(window_name(kind)))];
    assert(reading::members_mean(inner_fields, inner_members));
    reading::lemma_object(inner_fields, inner_members);
    let inner = seq![("kind"@, Json::Text(window_name(kind)))];
    assert(inner_members =~= inner);
    reading::lemma_text_member("event"@, "show_window"@);
    reading::lemma_member("params"@, json::object(inner_fields), Json::Object(inner));
    let all_fields = Seq::empty()
        + seq![json::field("event"@, json::quoted("show_window"@))]
        + seq![json::field("params"@, json::object(inner_fields))];
    let all_members = Seq::<(Seq<char>, Json)>::empty()
        + seq![("event"@, Json::Text("show_window"@))]
        + seq![("params"@, Json::Object(inner))];
    assert(reading::members_mean(all_fields, all_members));
    reading::lemma_object(all_fields, all_members);
    reading::lemma_reads(event_json(EventModel::ShowWindow { kind }), Json::Object(all_members));
    assert(all_members =~= seq![
        ("event"@, Json::Text("show_window"@)),
        ("params"@, Json::Object(inner)),
    ]);
}

} // verus!
