//! One text from the clipboard or from a trigger: whether it is translated, how
//! the translation is shown, and what else is done with it.

use crate::config::{DaemonConfig, DaemonModel};
use crate::daemon::events;
use crate::dict::ecdict;
use crate::dict::{CardModel, Exchange, ExchangeModel, WordCard};
use crate::history;
use crate::history::{EntryModel, HistoryEntry};
use crate::lang;
use crate::loopguard;
use crate::loopguard::{GuardModel, LoopGuard};
use crate::pipeline;
use crate::pipeline::{Translation, TranslationModel};
use crate::text;
use vstd::prelude::*;
use vstd::utf8::encode_utf8;

verus! {

/// Where a text came from.
#[derive(Debug, Clone, Copy, PartialEq, Eq, Structural)]
pub enum Origin {
    /// It was copied.
    Auto,
    /// It was asked for, so that no limit applies.
    Trigger,
}

/// What became of a text.
#[derive(Debug, Clone, PartialEq)]
pub enum HandleResult {
    /// It was translated; whether the translation was shown.
    Handled { translation: Translation, notified: bool },
    /// It was left alone: `empty`, `oversize` or `duplicate`.
    Skipped(&'static str),
}

/// What a [`HandleResult`] says.
pub enum ResultModel {
    Handled { translation: TranslationModel, notified: bool },
    Skipped(Seq<char>),
}

impl DeepView for HandleResult {
    type V = ResultModel;

    open spec fn deep_view(&self) -> ResultModel {
        match self {
            HandleResult::Handled { translation, notified } => ResultModel::Handled {
                translation: translation.deep_view(),
                notified: *notified,
            },
            HandleResult::Skipped(why) => ResultModel::Skipped(why@),
        }
    }
}

// Notifications

/// The longest summary of a notification.
pub const SUMMARY_MAX_CHARS: usize = 30;

/// The longest body of a notification.
pub const BODY_MAX_CHARS: usize = 1200;

/// How many suggestions are shown.
pub const MAX_SUGGESTIONS: usize = 3;

/// How many inflected forms are shown.
pub const MAX_FORMS: usize = 4;

/// `s`, or its first `max` characters and an ellipsis.
pub fn truncate_chars(s: &str, max: usize) -> (r: String)
    ensures
        r@ == history::shortened(s@, max as nat),
{
    history::shorten(s, max)
}

/// Whether a text looks like an English word: not Chinese, and two words at most.
pub open spec fn word_shaped(s: Seq<char>) -> bool {
    lang::lang_of(s) == lang::Lang::En && text::words(s).len() <= 2
}

/// The first few members.
pub open spec fn first_few(l: Seq<Seq<char>>, max: nat) -> Seq<Seq<char>> {
    if l.len() <= max {
        l
    } else {
        l.take(max as int)
    }
}

/// What is said of a word that is not in the dictionary, where there is
/// anything to suggest.
pub open spec fn hint_for(card: CardModel) -> Option<Seq<char>> {
    if card.suggestions.len() == 0 {
        None
    } else {
        Some(
            "未收录；试试："@ + text::join(
                first_few(card.suggestions, MAX_SUGGESTIONS as nat),
                "、"@,
            ),
        )
    }
}

/// The body of a notification, without the hint.
pub open spec fn plain_body(t: TranslationModel, hint: Option<Seq<char>>) -> Seq<char> {
    if t.translation.len() > 0 {
        history::shortened(t.translation, BODY_MAX_CHARS as nat)
    } else if t.engine.len() == 0 {
        "翻译失败（引擎链全部失败）"@
    } else {
        match hint {
            Some(h) => h,
            None => "未收录"@,
        }
    }
}

/// A notification for a translation: the text, and the translation with the
/// hint on a line of its own, or why there is no translation.
pub open spec fn notification(t: TranslationModel, hint: Option<Seq<char>>) -> (
    Seq<char>,
    Seq<char>,
) {
    (
        history::shortened(t.text, SUMMARY_MAX_CHARS as nat),
        if t.translation.len() > 0 && hint is Some {
            plain_body(t, hint).push('\n') + hint->0
        } else {
            plain_body(t, hint)
        },
    )
}

fn is_word_shaped_en(text: &str) -> (r: bool)
    ensures
        r == word_shaped(text@),
{
    match lang::detect(text) {
        lang::Lang::Zh => false,
        lang::Lang::En => {
            let ws = text::words_of(text);
            assert(ws.deep_view().len() == ws@.len());
            ws.len() <= 2
        },
    }
}

fn join_first(l: &Vec<String>, max: usize, sep: &str) -> (r: String)
    ensures
        r@ == text::join(first_few(l.deep_view(), max as nat), sep@),
{
    assert(l.deep_view().len() == l@.len());
    let n: usize = if l.len() <= max {
        l.len()
    } else {
        max
    };
    assert(l.deep_view().subrange(0, n as int) =~= first_few(l.deep_view(), max as nat));
    text::join_range(l, 0, n, sep)
}

fn suggestion_hint(card: &WordCard) -> (r: Option<String>)
    ensures
        r.deep_view() == hint_for(card.deep_view()),
{
    assert(card.suggestions.deep_view().len() == card.suggestions@.len());
    if card.suggestions.len() == 0 {
        return None;
    }
    Some(text::cat("未收录；试试：", &join_first(&card.suggestions, MAX_SUGGESTIONS, "、")))
}

/// A notification for a translation.
pub fn format_notification(tr: &Translation, miss_hint: Option<&str>) -> (r: (String, String))
    ensures
        (r.0@, r.1@) == notification(
            tr.deep_view(),
            match miss_hint {
                Some(h) => Some(h@),
                None => None,
            },
        ),
{
    let summary = truncate_chars(&tr.text, SUMMARY_MAX_CHARS);
    if !text::empty(&tr.translation) {
        let mut body = truncate_chars(&tr.translation, BODY_MAX_CHARS);
        match miss_hint {
            Some(hint) => {
                body.push('\n');
                body.append(hint);
            },
            None => {},
        }
        (summary, body)
    } else if text::empty(&tr.engine) {
        (summary, text::copy("翻译失败（引擎链全部失败）"))
    } else {
        match miss_hint {
            Some(hint) => (summary, text::copy(hint)),
            None => (summary, text::copy("未收录")),
        }
    }
}

// Notifications for words

/// The members of `l` that are not empty, each once, in the order in which they
/// first stand.
pub open spec fn distinct(l: Seq<Seq<char>>) -> Seq<Seq<char>>
    decreases l.len(),
{
    if l.len() == 0 {
        l
    } else {
        let before = distinct(l.drop_last());
        if l.last().len() == 0 || before.contains(l.last()) {
            before
        } else {
            before.push(l.last())
        }
    }
}

/// The line of inflected forms, where there is any.
pub open spec fn forms_line(ex: Option<ExchangeModel>) -> Option<Seq<char>> {
    let forms = distinct(ecdict::inflections(ex));
    if forms.len() == 0 {
        None
    } else {
        Some("词形："@ + text::join(first_few(forms, MAX_FORMS as nat), " · "@))
    }
}

/// The name of an examination.
pub open spec fn exam_name(tag: Seq<char>) -> Seq<char> {
    if tag == "zk"@ {
        "中考"@
    } else if tag == "gk"@ {
        "高考"@
    } else if tag == "cet4"@ {
        "四级"@
    } else if tag == "cet6"@ {
        "六级"@
    } else if tag == "ky"@ {
        "考研"@
    } else if tag == "toefl"@ {
        "托福"@
    } else if tag == "ielts"@ {
        "雅思"@
    } else if tag == "gre"@ {
        "GRE"@
    } else {
        tag
    }
}

/// So many stars, five at most.
pub open spec fn stars(n: u8) -> Seq<char> {
    Seq::new(
        if n <= 5 {
            n as nat
        } else {
            5
        },
        |i: int| '★',
    )
}

/// What a card says of the importance of its word.
pub open spec fn badges(c: CardModel) -> Seq<Seq<char>> {
    (if c.collins is Some && c.collins->0 > 0 {
        seq!["柯林斯 "@ + stars(c.collins->0)]
    } else {
        Seq::empty()
    }) + (if c.oxford {
        seq!["牛津核心"@]
    } else {
        Seq::empty()
    }) + c.tags.map_values(|t: Seq<char>| exam_name(t))
}

/// The line of badges, where there is any.
pub open spec fn badges_line(c: CardModel) -> Option<Seq<char>> {
    if badges(c).len() == 0 {
        None
    } else {
        Some(text::join(badges(c), " · "@))
    }
}

/// The pronunciation that is shown: the British one, else the American one.
pub open spec fn shown_phonetic(c: CardModel) -> Option<Seq<char>> {
    match c.phonetic {
        Some(p) => {
            let s = if p.uk is Some {
                p.uk
            } else {
                p.us
            };
            if s is Some && s->0.len() > 0 {
                s
            } else {
                None
            }
        },
        None => None,
    }
}

/// `l` with one more line, where there is one.
pub open spec fn with_line(l: Seq<Seq<char>>, line: Option<Seq<char>>) -> Seq<Seq<char>> {
    match line {
        Some(s) => l.push(s),
        None => l,
    }
}

/// The pronunciation between slashes.
pub open spec fn phonetic_line(c: CardModel) -> Option<Seq<char>> {
    match shown_phonetic(c) {
        Some(p) => Some("/"@ + p + "/"@),
        None => None,
    }
}

/// The glosses, where there are any.
pub open spec fn glosses_line(c: CardModel) -> Option<Seq<char>> {
    if pipeline::card_lines(c.pos).len() == 0 {
        None
    } else {
        Some(pipeline::card_lines(c.pos))
    }
}

/// The lines of a notification for a word: its pronunciation, its glosses, its
/// inflected forms and, where that is asked for, its badges.
pub open spec fn word_lines(c: CardModel, badge: bool) -> Seq<Seq<char>> {
    let a = with_line(Seq::empty(), phonetic_line(c));
    let b = with_line(a, glosses_line(c));
    let d = with_line(b, forms_line(c.exchange));
    with_line(
        d,
        if badge {
            badges_line(c)
        } else {
            None
        },
    )
}

/// A notification for a word.
pub open spec fn word_notification(c: CardModel, badge: bool) -> (Seq<char>, Seq<char>) {
    (
        history::shortened(c.word, SUMMARY_MAX_CHARS as nat),
        history::shortened(text::join(word_lines(c, badge), "\n"@), BODY_MAX_CHARS as nat),
    )
}

fn push_distinct(list: &mut Vec<String>, form: &Option<String>, Ghost(before): Ghost<Seq<Seq<char>>>)
    requires
        old(list).deep_view() == distinct(before),
    ensures
        final(list).deep_view() == distinct(ecdict::push_some(before, form.deep_view())),
{
    match form {
        Some(f) => {
            let ghost all = before.push(f@);
            assert(all.drop_last() =~= before);
            if !text::empty(f) && !text::list_has(list, f) {
                let ghost start = list.deep_view();
                list.push(text::copy(f));
                assert(list.deep_view() =~= start.push(f@));
            }
        },
        None => {},
    }
}

fn exchange_line(ex: &Option<Exchange>) -> (r: Option<String>)
    ensures
        r.deep_view() == forms_line(ex.deep_view()),
{
    let mut seen: Vec<String> = Vec::new();
    assert(seen.deep_view() =~= distinct(Seq::empty()));
    match ex {
        Some(ex) => {
            let ghost l = Seq::<Seq<char>>::empty();
            push_distinct(&mut seen, &ex.past, Ghost(l));
            let ghost l = ecdict::push_some(l, ex.past.deep_view());
            push_distinct(&mut seen, &ex.pp, Ghost(l));
            let ghost l = ecdict::push_some(l, ex.pp.deep_view());
            push_distinct(&mut seen, &ex.ing, Ghost(l));
            let ghost l = ecdict::push_some(l, ex.ing.deep_view());
            push_distinct(&mut seen, &ex.third, Ghost(l));
            let ghost l = ecdict::push_some(l, ex.third.deep_view());
            push_distinct(&mut seen, &ex.comparative, Ghost(l));
            let ghost l = ecdict::push_some(l, ex.comparative.deep_view());
            push_distinct(&mut seen, &ex.superlative, Ghost(l));
            let ghost l = ecdict::push_some(l, ex.superlative.deep_view());
            push_distinct(&mut seen, &ex.plural, Ghost(l));
        },
        None => {},
    }
    assert(seen.deep_view().len() == seen@.len());
    if seen.len() == 0 {
        None
    } else {
        Some(text::cat("词形：", &join_first(&seen, MAX_FORMS, " · ")))
    }
}

fn exam_tag_label(tag: &str) -> (r: String)
    ensures
        r@ == exam_name(tag@),
{
    if text::same(tag, "zk") {
        text::copy("中考")
    } else if text::same(tag, "gk") {
        text::copy("高考")
    } else if text::same(tag, "cet4") {
        text::copy("四级")
    } else if text::same(tag, "cet6") {
        text::copy("六级")
    } else if text::same(tag, "ky") {
        text::copy("考研")
    } else if text::same(tag, "toefl") {
        text::copy("托福")
    } else if text::same(tag, "ielts") {
        text::copy("雅思")
    } else if text::same(tag, "gre") {
        text::copy("GRE")
    } else {
        text::copy(tag)
    }
}

fn star_text(n: u8) -> (r: String)
    ensures
        r@ == stars(n),
{
    let m: u8 = if n <= 5 {
        n
    } else {
        5
    };
    let mut r = String::new();
    let mut i: u8 = 0;
    assert(r@ =~= Seq::new(0, |i: int| '★'));
    while i < m
        invariant
            i <= m,
            r@ == Seq::new(i as nat, |i: int| '★'),
        decreases m - i,
    {
        r.push('★');
        assert(r@ =~= Seq::new((i + 1) as nat, |i: int| '★'));
        i += 1;
    }
    r
}

fn badge_line(card: &WordCard) -> (r: Option<String>)
    ensures
        r.deep_view() == badges_line(card.deep_view()),
{
    let ghost c = card.deep_view();
    let ghost names = c.tags.map_values(|t: Seq<char>| exam_name(t));
    let mut parts: Vec<String> = Vec::new();
    match card.collins {
        Some(n) => if n > 0 {
            parts.push(text::cat("柯林斯 ", &star_text(n)));
        },
        None => {},
    }
    if card.oxford {
        parts.push(text::copy("牛津核心"));
    }
    let ghost start = parts.deep_view();
    proof {
        assert(start =~= (if c.collins is Some && c.collins->0 > 0 {
            seq!["柯林斯 "@ + stars(c.collins->0)]
        } else {
            Seq::empty()
        }) + (if c.oxford {
            seq!["牛津核心"@]
        } else {
            Seq::empty()
        }));
    }
    let mut i: usize = 0;
    assert(start + names.take(0) =~= start);
    while i < card.tags.len()
        invariant
            i <= card.tags@.len(),
            c == card.deep_view(),
            names == c.tags.map_values(|t: Seq<char>| exam_name(t)),
            parts.deep_view() == start + names.take(i as int),
        decreases card.tags@.len() - i,
    {
        let ghost before = parts.deep_view();
        parts.push(exam_tag_label(&card.tags[i]));
        assert(parts.deep_view() =~= before.push(names[i as int]));
        assert(start + names.take(i + 1) =~= before.push(names[i as int]));
        i += 1;
    }
    assert(names.take(i as int) =~= names);
    assert(parts.deep_view() == badges(c));
    assert(parts.deep_view().len() == parts@.len());
    if parts.len() == 0 {
        None
    } else {
        Some(text::join_all(&parts, " · "))
    }
}

fn push_line(lines: &mut Vec<String>, line: Option<String>)
    ensures
        final(lines).deep_view() == with_line(old(lines).deep_view(), line.deep_view()),
{
    match line {
        Some(s) => {
            let ghost before = lines.deep_view();
            let ghost t = s@;
            lines.push(s);
            assert(lines.deep_view() =~= before.push(t));
        },
        None => {},
    }
}

fn phonetic_shown(card: &WordCard) -> (r: Option<String>)
    ensures
        r.deep_view() == phonetic_line(card.deep_view()),
{
    match &card.phonetic {
        Some(p) => {
            let shown = if p.uk.is_some() {
                &p.uk
            } else {
                &p.us
            };
            match shown {
                Some(s) => if text::empty(s) {
                    None
                } else {
                    let mut r = text::cat("/", s);
                    r.append("/");
                    Some(r)
                },
                None => None,
            }
        },
        None => None,
    }
}

/// A notification for a word.
pub fn format_word_notification(card: &WordCard, show_badge: bool) -> (r: (String, String))
    ensures
        (r.0@, r.1@) == word_notification(card.deep_view(), show_badge),
{
    let mut lines: Vec<String> = Vec::new();
    assert(lines.deep_view() =~= Seq::<Seq<char>>::empty());
    push_line(&mut lines, phonetic_shown(card));
    let glosses = pipeline::card_text(card);
    if !text::empty(&glosses) {
        push_line(&mut lines, Some(glosses));
    }
    push_line(&mut lines, exchange_line(&card.exchange));
    if show_badge {
        push_line(&mut lines, badge_line(card));
    }
    (
        truncate_chars(&card.word, SUMMARY_MAX_CHARS),
        truncate_chars(&text::join_all(&lines, "\n"), BODY_MAX_CHARS),
    )
}

/// The forms that are shown are distinct, not empty, and four at most.
pub proof fn law_shown_forms(ex: Option<ExchangeModel>)
    ensures
        ({
            let shown = first_few(distinct(ecdict::inflections(ex)), MAX_FORMS as nat);
            &&& shown.len() <= 4
            &&& shown.no_duplicates()
            &&& forall|i: int| 0 <= i < shown.len() ==> (#[trigger] shown[i]).len() > 0
        }),
{
    lemma_distinct(ecdict::inflections(ex));
}

proof fn lemma_distinct(l: Seq<Seq<char>>)
    ensures
        distinct(l).no_duplicates(),
        forall|i: int| 0 <= i < distinct(l).len() ==> (#[trigger] distinct(l)[i]).len() > 0,
    decreases l.len(),
{
    if l.len() > 0 {
        lemma_distinct(l.drop_last());
    }
}

/// A notification is never longer than its limits and a hint allow.
pub proof fn law_notification_is_bounded(t: TranslationModel, hint: Option<Seq<char>>)
    ensures
        notification(t, hint).0.len() <= SUMMARY_MAX_CHARS + 1,
        notification(t, hint).1.len() <= BODY_MAX_CHARS + 2 + (match hint {
            Some(h) => h.len(),
            None => 0,
        }),
{
    history::law_shortened_length(t.text, SUMMARY_MAX_CHARS as nat);
    history::law_shortened_length(t.translation, BODY_MAX_CHARS as nat);
    reveal_strlit("翻译失败（引擎链全部失败）");
    reveal_strlit("未收录");
}

// Handling a text

/// How often things happened since the start.
#[derive(Debug, Clone, Copy, PartialEq, Eq, Structural)]
pub struct Counters {
    pub clipboard_events: u64,
    pub translations: u64,
    pub notifications: u64,
    pub triggers: u64,
}

impl Default for Counters {
    fn default() -> (r: Counters)
        ensures
            r == (Counters {
                clipboard_events: 0,
                translations: 0,
                notifications: 0,
                triggers: 0,
            }),
    {
        Counters { clipboard_events: 0, translations: 0, notifications: 0, triggers: 0 }
    }
}

/// What all texts share.
pub struct Shared {
    pub guard: LoopGuard,
    pub counters: Counters,
}

/// What [`Shared`] says.
#[verifier::ext_equal]
pub struct SharedModel {
    pub guard: GuardModel,
    pub counters: Counters,
}

impl View for Shared {
    type V = SharedModel;

    open spec fn view(&self) -> SharedModel {
        SharedModel { guard: self.guard@, counters: self.counters }
    }
}

/// The time of an event: nanoseconds since the start of the daemon, and
/// milliseconds since the start of 1970.
#[derive(Debug, Clone, Copy, PartialEq, Eq, Structural)]
pub struct Moment {
    pub now: u128,
    pub ts_ms: i64,
}

/// One more; the count starts again at zero after the largest number.
pub open spec fn one_more(n: u64) -> u64 {
    if n == u64::MAX {
        0
    } else {
        (n + 1) as u64
    }
}

fn count(n: u64) -> (r: u64)
    ensures
        r == one_more(n),
{
    if n == u64::MAX {
        0
    } else {
        n + 1
    }
}

/// One translation more.
pub open spec fn counted(w: SharedModel) -> SharedModel {
    SharedModel {
        counters: Counters { translations: one_more(w.counters.translations), ..w.counters },
        ..w
    }
}

/// Counts a translation.
pub fn count_translation(shared: &mut Shared)
    ensures
        final(shared)@ == counted(old(shared)@),
{
    shared.counters.translations = count(shared.counters.translations);
}

/// What is to be done next with a text.
#[derive(Debug, Clone, PartialEq)]
pub enum HandleStep {
    /// Translate this.
    Translate(String),
    /// Look this word up.
    Lookup(String),
    /// Send this line to the windows that listen.
    Publish(String),
    /// Show a notification with this summary and this body.
    Notify(String, String),
    /// Record this in the history; a failure changes nothing.
    Record(HistoryEntry),
    /// Write this to the clipboard; a failure changes nothing.
    Write(String),
    /// Wait for what was asked for.
    Wait,
    /// It is over.
    Done(HandleResult),
}

/// What a [`HandleStep`] says.
pub enum StepModel {
    Translate(Seq<char>),
    Lookup(Seq<char>),
    Publish(Seq<char>),
    Notify(Seq<char>, Seq<char>),
    Record(EntryModel),
    Write(Seq<char>),
    Wait,
    Done(ResultModel),
}

impl DeepView for HandleStep {
    type V = StepModel;

    open spec fn deep_view(&self) -> StepModel {
        match self {
            HandleStep::Translate(t) => StepModel::Translate(t@),
            HandleStep::Lookup(w) => StepModel::Lookup(w@),
            HandleStep::Publish(l) => StepModel::Publish(l@),
            HandleStep::Notify(s, b) => StepModel::Notify(s@, b@),
            HandleStep::Record(e) => StepModel::Record(e.deep_view()),
            HandleStep::Write(t) => StepModel::Write(t@),
            HandleStep::Wait => StepModel::Wait,
            HandleStep::Done(r) => StepModel::Done(r.deep_view()),
        }
    }
}

/// What happened.
#[derive(Debug)]
pub enum HandleInput {
    Translated(Translation),
    Found(WordCard),
    /// Whether any window took the line.
    Published(bool),
    /// Whether the notification was shown.
    Notified(bool),
    Recorded,
    Written,
}

/// What a [`HandleInput`] says.
pub enum InputModel {
    Translated(TranslationModel),
    Found(CardModel),
    Published(bool),
    Notified(bool),
    Recorded,
    Written,
}

impl DeepView for HandleInput {
    type V = InputModel;

    open spec fn deep_view(&self) -> InputModel {
        match self {
            HandleInput::Translated(t) => InputModel::Translated(t.deep_view()),
            HandleInput::Found(c) => InputModel::Found(c.deep_view()),
            HandleInput::Published(b) => InputModel::Published(*b),
            HandleInput::Notified(b) => InputModel::Notified(*b),
            HandleInput::Recorded => InputModel::Recorded,
            HandleInput::Written => InputModel::Written,
        }
    }
}

/// How far a text has come.
enum Phase {
    Translating,
    LookingUp(Translation),
    Publishing(Translation, Option<WordCard>),
    Notifying(Translation),
    Recording(Translation, bool),
    Writing(Translation, bool),
    Over,
}

/// What a phase says.
pub enum PhaseModel {
    Translating,
    LookingUp(TranslationModel),
    Publishing(TranslationModel, Option<CardModel>),
    Notifying(TranslationModel),
    Recording(TranslationModel, bool),
    Writing(TranslationModel, bool),
    Over,
}

/// A text on its way.
pub struct Handling {
    origin: Origin,
    phase: Phase,
}

/// What a [`Handling`] says.
#[verifier::ext_equal]
pub struct HandlingModel {
    pub origin: Origin,
    pub phase: PhaseModel,
}

spec fn phase_model(p: Phase) -> PhaseModel {
    match p {
        Phase::Translating => PhaseModel::Translating,
        Phase::LookingUp(t) => PhaseModel::LookingUp(t.deep_view()),
        Phase::Publishing(t, c) => PhaseModel::Publishing(t.deep_view(), c.deep_view()),
        Phase::Notifying(t) => PhaseModel::Notifying(t.deep_view()),
        Phase::Recording(t, n) => PhaseModel::Recording(t.deep_view(), n),
        Phase::Writing(t, n) => PhaseModel::Writing(t.deep_view(), n),
        Phase::Over => PhaseModel::Over,
    }
}

impl View for Handling {
    type V = HandlingModel;

    closed spec fn view(&self) -> HandlingModel {
        HandlingModel { origin: self.origin, phase: phase_model(self.phase) }
    }
}

/// The name of an origin in the history.
pub open spec fn origin_name(o: Origin) -> Seq<char> {
    match o {
        Origin::Auto => "auto"@,
        Origin::Trigger => "trigger"@,
    }
}

/// Whether a translation came from a dictionary.
pub open spec fn from_dictionary(t: TranslationModel) -> bool {
    (t.engine == "ecdict"@ || t.engine == "cedict"@) && t.translation.len() > 0
}

/// Whether the card of the text is needed to show a translation.
pub open spec fn needs_card(t: TranslationModel) -> bool {
    from_dictionary(t) || word_shaped(t.text)
}

/// The notification for a translation and the card that was looked up.
pub open spec fn shown(
    cfg: DaemonModel,
    t: TranslationModel,
    card: Option<CardModel>,
) -> (Seq<char>, Seq<char>) {
    match card {
        Some(c) => if from_dictionary(t) {
            word_notification(c, cfg.show_word_badge)
        } else {
            notification(t, hint_for(c))
        },
        None => notification(t, None),
    }
}

/// What is left to do once a translation was written back, or was not to be.
pub open spec fn finish_with(
    m: HandlingModel,
    w: SharedModel,
    t: TranslationModel,
    notified: bool,
) -> (HandlingModel, SharedModel, StepModel) {
    (
        HandlingModel { phase: PhaseModel::Over, ..m },
        w,
        StepModel::Done(ResultModel::Handled { translation: t, notified }),
    )
}

/// A translation is written back where that is configured, and remembered first.
pub open spec fn write_back(
    m: HandlingModel,
    w: SharedModel,
    cfg: DaemonModel,
    t: TranslationModel,
    notified: bool,
    at: Moment,
) -> (HandlingModel, SharedModel, StepModel) {
    if cfg.copy_translation && t.translation.len() > 0 {
        (
            HandlingModel { phase: PhaseModel::Writing(t, notified), ..m },
            SharedModel { guard: loopguard::after_write(w.guard, t.translation, at.now), ..w },
            StepModel::Write(t.translation),
        )
    } else {
        finish_with(m, w, t, notified)
    }
}

/// A translation that was shown, or could not be, is recorded.
pub open spec fn after_showing(
    m: HandlingModel,
    w: SharedModel,
    cfg: DaemonModel,
    t: TranslationModel,
    notified: bool,
    at: Moment,
) -> (HandlingModel, SharedModel, StepModel) {
    let w2 = if notified {
        SharedModel {
            counters: Counters {
                notifications: one_more(w.counters.notifications),
                ..w.counters
            },
            ..w
        }
    } else {
        w
    };
    match history::recorded(t, origin_name(m.origin), at.ts_ms) {
        Some(e) => (
            HandlingModel { phase: PhaseModel::Recording(t, notified), ..m },
            w2,
            StepModel::Record(e),
        ),
        None => write_back(m, w2, cfg, t, notified, at),
    }
}

/// A translation is shown by the windows that listen, where that is configured,
/// else by a notification.
pub open spec fn show_step(
    cfg: DaemonModel,
    t: TranslationModel,
    card: Option<CardModel>,
) -> StepModel {
    if cfg.popup {
        StepModel::Publish(events::popup_json(t, card))
    } else {
        StepModel::Notify(shown(cfg, t, card).0, shown(cfg, t, card).1)
    }
}

/// The phase in which a translation is shown.
pub open spec fn show_phase(
    cfg: DaemonModel,
    t: TranslationModel,
    card: Option<CardModel>,
) -> PhaseModel {
    if cfg.popup {
        PhaseModel::Publishing(t, card)
    } else {
        PhaseModel::Notifying(t)
    }
}

/// Showing a translation begins.
pub open spec fn show(
    m: HandlingModel,
    w: SharedModel,
    cfg: DaemonModel,
    t: TranslationModel,
    card: Option<CardModel>,
) -> (HandlingModel, SharedModel, StepModel) {
    (HandlingModel { phase: show_phase(cfg, t, card), ..m }, w, show_step(cfg, t, card))
}

/// Why a copied text is left alone, if it is.
pub open spec fn skip_reason(
    cfg: DaemonModel,
    g: GuardModel,
    raw: Seq<char>,
    origin: Origin,
    now: u128,
) -> Option<Seq<char>> {
    let t = text::trim(raw);
    if t.len() == 0 {
        Some("empty"@)
    } else if origin == Origin::Auto && encode_utf8(t).len() > cfg.max_text_bytes {
        Some("oversize"@)
    } else if origin == Origin::Auto && !loopguard::accepts(g, t, now) {
        Some("duplicate"@)
    } else {
        None
    }
}

/// How a text begins: it is left alone for a reason, or translated. Limits and
/// the guard apply to copied texts alone.
pub open spec fn handle_start(
    w: SharedModel,
    cfg: DaemonModel,
    raw: Seq<char>,
    origin: Origin,
    at: Moment,
) -> (HandlingModel, SharedModel, StepModel) {
    let t = text::trim(raw);
    match skip_reason(cfg, w.guard, raw, origin, at.now) {
        Some(why) => (
            HandlingModel { origin, phase: PhaseModel::Over },
            w,
            StepModel::Done(ResultModel::Skipped(why)),
        ),
        None => (
            HandlingModel { origin, phase: PhaseModel::Translating },
            match origin {
                Origin::Auto => SharedModel {
                    guard: loopguard::after_accept(w.guard, t, at.now),
                    counters: Counters {
                        clipboard_events: one_more(w.counters.clipboard_events),
                        ..w.counters
                    },
                },
                Origin::Trigger => SharedModel {
                    counters: Counters {
                        triggers: one_more(w.counters.triggers),
                        ..w.counters
                    },
                    ..w
                },
            },
            StepModel::Translate(t),
        ),
    }
}

/// How it goes on. What comes out of place changes nothing.
pub open spec fn handle_next(
    m: HandlingModel,
    w: SharedModel,
    cfg: DaemonModel,
    input: InputModel,
    at: Moment,
) -> (HandlingModel, SharedModel, StepModel) {
    match (m.phase, input) {
        (PhaseModel::Translating, InputModel::Translated(t)) => {
            let w2 = counted(w);
            if needs_card(t) {
                (
                    HandlingModel { phase: PhaseModel::LookingUp(t), ..m },
                    w2,
                    StepModel::Lookup(t.text),
                )
            } else {
                show(m, w2, cfg, t, None)
            }
        },
        (PhaseModel::LookingUp(t), InputModel::Found(c)) => show(m, w, cfg, t, Some(c)),
        (PhaseModel::Publishing(t, card), InputModel::Published(taken)) => if taken {
            after_showing(m, w, cfg, t, true, at)
        } else {
            (
                HandlingModel { phase: PhaseModel::Notifying(t), ..m },
                w,
                StepModel::Notify(shown(cfg, t, card).0, shown(cfg, t, card).1),
            )
        },
        (PhaseModel::Notifying(t), InputModel::Notified(ok)) => after_showing(
            m,
            w,
            cfg,
            t,
            ok,
            at,
        ),
        (PhaseModel::Recording(t, notified), InputModel::Recorded) => write_back(
            m,
            w,
            cfg,
            t,
            notified,
            at,
        ),
        (PhaseModel::Writing(t, notified), InputModel::Written) => finish_with(m, w, t, notified),
        _ => (m, w, StepModel::Wait),
    }
}

impl Origin {
    /// The name of the origin in the history.
    pub fn name(self) -> (r: &'static str)
        ensures
            r@ == origin_name(self),
    {
        match self {
            Origin::Auto => "auto",
            Origin::Trigger => "trigger",
        }
    }
}

fn dictionary_made(t: &Translation) -> (r: bool)
    ensures
        r == from_dictionary(t.deep_view()),
{
    (text::same(&t.engine, "ecdict") || text::same(&t.engine, "cedict")) && !text::empty(
        &t.translation,
    )
}

fn shown_as(cfg: &DaemonConfig, t: &Translation, card: &Option<WordCard>) -> (r: (String, String))
    ensures
        (r.0@, r.1@) == shown(cfg.deep_view(), t.deep_view(), card.deep_view()),
{
    match card {
        Some(c) => if dictionary_made(t) {
            format_word_notification(c, cfg.show_word_badge)
        } else {
            match suggestion_hint(c) {
                Some(h) => format_notification(t, Some(h.as_str())),
                None => format_notification(t, None),
            }
        },
        None => format_notification(t, None),
    }
}

impl Handling {
    /// How a text begins.
    pub fn start(
        shared: &mut Shared,
        cfg: &DaemonConfig,
        raw: &str,
        origin: Origin,
        at: Moment,
    ) -> (r: (Handling, HandleStep))
        ensures
            (r.0@, final(shared)@, r.1.deep_view()) == handle_start(
                old(shared)@,
                cfg.deep_view(),
                raw@,
                origin,
                at,
            ),
    {
        let t = text::trimmed(raw);
        if text::empty(&t) {
            return (
                Handling { origin, phase: Phase::Over },
                HandleStep::Done(HandleResult::Skipped("empty")),
            );
        }
        match origin {
            Origin::Auto => {
                if t.as_str().as_bytes().len() > cfg.max_text_bytes {
                    return (
                        Handling { origin, phase: Phase::Over },
                        HandleStep::Done(HandleResult::Skipped("oversize")),
                    );
                }
                if !shared.guard.accept(&t, at.now) {
                    return (
                        Handling { origin, phase: Phase::Over },
                        HandleStep::Done(HandleResult::Skipped("duplicate")),
                    );
                }
                shared.counters.clipboard_events = count(shared.counters.clipboard_events);
            },
            Origin::Trigger => {
                shared.counters.triggers = count(shared.counters.triggers);
            },
        }
        (Handling { origin, phase: Phase::Translating }, HandleStep::Translate(t))
    }

    fn show(&mut self, cfg: &DaemonConfig, t: Translation, card: Option<WordCard>) -> (r: HandleStep)
        ensures
            final(self)@ == (HandlingModel {
                phase: show_phase(cfg.deep_view(), t.deep_view(), card.deep_view()),
                ..old(self)@
            }),
            r.deep_view() == show_step(cfg.deep_view(), t.deep_view(), card.deep_view()),
    {
        if cfg.popup {
            let line = events::popup_line(&t, &card);
            self.phase = Phase::Publishing(t, card);
            HandleStep::Publish(line)
        } else {
            let (summary, body) = shown_as(cfg, &t, &card);
            self.phase = Phase::Notifying(t);
            HandleStep::Notify(summary, body)
        }
    }

    fn write_back(
        &mut self,
        shared: &mut Shared,
        cfg: &DaemonConfig,
        t: Translation,
        notified: bool,
        at: Moment,
    ) -> (r: HandleStep)
        ensures
            (final(self)@, final(shared)@, r.deep_view()) == write_back(
                old(self)@,
                old(shared)@,
                cfg.deep_view(),
                t.deep_view(),
                notified,
                at,
            ),
    {
        if cfg.copy_translation && !text::empty(&t.translation) {
            shared.guard.register_write(&t.translation, at.now);
            let written = text::copy(&t.translation);
            self.phase = Phase::Writing(t, notified);
            HandleStep::Write(written)
        } else {
            self.phase = Phase::Over;
            HandleStep::Done(HandleResult::Handled { translation: t, notified })
        }
    }

    fn after_showing(
        &mut self,
        shared: &mut Shared,
        cfg: &DaemonConfig,
        t: Translation,
        notified: bool,
        at: Moment,
    ) -> (r: HandleStep)
        ensures
            (final(self)@, final(shared)@, r.deep_view()) == after_showing(
                old(self)@,
                old(shared)@,
                cfg.deep_view(),
                t.deep_view(),
                notified,
                at,
            ),
    {
        if notified {
            shared.counters.notifications = count(shared.counters.notifications);
        }
        match history::entry_for(&t, self.origin.name(), at.ts_ms) {
            Some(e) => {
                self.phase = Phase::Recording(t, notified);
                HandleStep::Record(e)
            },
            None => self.write_back(shared, cfg, t, notified, at),
        }
    }

    /// How it goes on.
    pub fn next(
        &mut self,
        shared: &mut Shared,
        cfg: &DaemonConfig,
        input: HandleInput,
        at: Moment,
    ) -> (r: HandleStep)
        ensures
            (final(self)@, final(shared)@, r.deep_view()) == handle_next(
                old(self)@,
                old(shared)@,
                cfg.deep_view(),
                input.deep_view(),
                at,
            ),
    {
        let mut phase = Phase::Over;
        std::mem::swap(&mut phase, &mut self.phase);
        match (phase, input) {
            (Phase::Translating, HandleInput::Translated(t)) => {
                count_translation(shared);
                if dictionary_made(&t) || is_word_shaped_en(&t.text) {
                    let word = text::copy(&t.text);
                    self.phase = Phase::LookingUp(t);
                    HandleStep::Lookup(word)
                } else {
                    self.show(cfg, t, None)
                }
            },
            (Phase::LookingUp(t), HandleInput::Found(c)) => self.show(cfg, t, Some(c)),
            (Phase::Publishing(t, card), HandleInput::Published(taken)) => {
                if taken {
                    self.after_showing(shared, cfg, t, true, at)
                } else {
                    let (summary, body) = shown_as(cfg, &t, &card);
                    self.phase = Phase::Notifying(t);
                    HandleStep::Notify(summary, body)
                }
            },
            (Phase::Notifying(t), HandleInput::Notified(ok)) => self.after_showing(
                shared,
                cfg,
                t,
                ok,
                at,
            ),
            (Phase::Recording(t, notified), HandleInput::Recorded) => self.write_back(
                shared,
                cfg,
                t,
                notified,
                at,
            ),
            (Phase::Writing(t, notified), HandleInput::Written) => {
                self.phase = Phase::Over;
                HandleStep::Done(HandleResult::Handled { translation: t, notified })
            },
            (phase, _) => {
                self.phase = phase;
                HandleStep::Wait
            },
        }
    }
}

// Laws

/// A blank text is left alone, and nothing is counted or remembered.
pub proof fn law_blank_text_is_left_alone(
    w: SharedModel,
    cfg: DaemonModel,
    raw: Seq<char>,
    origin: Origin,
    at: Moment,
)
    requires
        forall|i: int| 0 <= i < raw.len() ==> text::is_white(#[trigger] raw[i]),
    ensures
        handle_start(w, cfg, raw, origin, at).1 == w,
        handle_start(w, cfg, raw, origin, at).2 == StepModel::Done(
            ResultModel::Skipped("empty"@),
        ),
{
    text::lemma_trim_empty(raw);
}

/// A text that was asked for is translated, however long it is and whatever
/// was handled before, and the guard does not remember it.
pub proof fn law_trigger_has_no_limits(
    w: SharedModel,
    cfg: DaemonModel,
    raw: Seq<char>,
    at: Moment,
)
    requires
        text::trim(raw).len() > 0,
    ensures
        handle_start(w, cfg, raw, Origin::Trigger, at).2 == StepModel::Translate(text::trim(raw)),
        handle_start(w, cfg, raw, Origin::Trigger, at).1.guard == w.guard,
{
}

/// A copied text that was let through is left alone when it is copied again
/// within the window.
pub proof fn law_copied_again_is_left_alone(
    w: SharedModel,
    cfg: DaemonModel,
    raw: Seq<char>,
    at: Moment,
    later: Moment,
)
    requires
        handle_start(w, cfg, raw, Origin::Auto, at).2 is Translate,
        later.now - at.now < w.guard.window,
        w.guard.window > 0,
    ensures
        handle_start(
            handle_start(w, cfg, raw, Origin::Auto, at).1,
            cfg,
            raw,
            Origin::Auto,
            later,
        ).2 == StepModel::Done(ResultModel::Skipped("duplicate"@)),
{
    let t = text::trim(raw);
    text::lemma_trim(raw);
    loopguard::law_same_text_within_window_is_refused(w.guard, t, t, at.now, later.now);
}

/// A translation that is written back does not come back as a text to translate
/// within the window: it is taken for a duplicate, where it is neither blank nor
/// too long to be translated anyway.
pub proof fn law_written_translation_is_not_translated(
    m: HandlingModel,
    w: SharedModel,
    cfg: DaemonModel,
    t: TranslationModel,
    notified: bool,
    at: Moment,
    later: Moment,
)
    requires
        write_back(m, w, cfg, t, notified, at).2 is Write,
        later.now - at.now < w.guard.window,
        w.guard.window > 0,
    ensures
        write_back(m, w, cfg, t, notified, at).2 == StepModel::Write(t.translation),
        handle_start(
            write_back(m, w, cfg, t, notified, at).1,
            cfg,
            t.translation,
            Origin::Auto,
            later,
        ).2 == StepModel::Done(
            ResultModel::Skipped(
                if text::trim(t.translation).len() == 0 {
                    "empty"@
                } else if encode_utf8(text::trim(t.translation)).len() > cfg.max_text_bytes {
                    "oversize"@
                } else {
                    "duplicate"@
                },
            ),
        ),
{
    let back = text::trim(t.translation);
    text::lemma_trim(t.translation);
    loopguard::law_own_write_is_refused(w.guard, t.translation, back, at.now, later.now);
}

/// What the world answers to whatever a text asks for.
pub struct Answers {
    pub translation: TranslationModel,
    pub card: CardModel,
    pub published: bool,
    pub notified: bool,
}

/// The answer to a step.
pub open spec fn answer(step: StepModel, a: Answers) -> InputModel {
    match step {
        StepModel::Translate(_) => InputModel::Translated(a.translation),
        StepModel::Lookup(_) => InputModel::Found(a.card),
        StepModel::Publish(_) => InputModel::Published(a.published),
        StepModel::Notify(_, _) => InputModel::Notified(a.notified),
        StepModel::Record(_) => InputModel::Recorded,
        _ => InputModel::Written,
    }
}

/// Where a text stands after `n` answers, or earlier where it is over earlier.
pub open spec fn handle_run(
    m: HandlingModel,
    w: SharedModel,
    cfg: DaemonModel,
    step: StepModel,
    a: Answers,
    at: Moment,
    n: nat,
) -> (SharedModel, StepModel)
    decreases n,
{
    if n == 0 || step is Done {
        (w, step)
    } else {
        let (m2, w2, s2) = handle_next(m, w, cfg, answer(step, a), at);
        handle_run(m2, w2, cfg, s2, a, at, (n - 1) as nat)
    }
}

/// Whether a translation is shown: by a window, else by a notification.
pub open spec fn gets_shown(cfg: DaemonModel, a: Answers) -> bool {
    (cfg.popup && a.published) || a.notified
}

/// Whether a run is over with this translation, shown or not.
pub open spec fn over_with(
    r: (SharedModel, StepModel),
    t: TranslationModel,
    notified: bool,
) -> bool {
    r.1 == StepModel::Done(ResultModel::Handled { translation: t, notified })
}

proof fn lemma_write_back_settles(
    m: HandlingModel,
    w: SharedModel,
    cfg: DaemonModel,
    t: TranslationModel,
    notified: bool,
    a: Answers,
    at: Moment,
    n: nat,
)
    requires
        n >= 1,
    ensures
        ({
            let (m1, w1, step) = write_back(m, w, cfg, t, notified, at);
            let r = handle_run(m1, w1, cfg, step, a, at, n);
            over_with(r, t, notified) && r.0.counters == w.counters
        }),
{
    reveal_with_fuel(handle_run, 3);
}

proof fn lemma_after_showing_settles(
    m: HandlingModel,
    w: SharedModel,
    cfg: DaemonModel,
    t: TranslationModel,
    notified: bool,
    a: Answers,
    at: Moment,
    n: nat,
)
    requires
        n >= 2,
    ensures
        ({
            let (m1, w1, step) = after_showing(m, w, cfg, t, notified, at);
            let r = handle_run(m1, w1, cfg, step, a, at, n);
            &&& over_with(r, t, notified)
            &&& r.0.counters == (Counters {
                notifications: if notified {
                    one_more(w.counters.notifications)
                } else {
                    w.counters.notifications
                },
                ..w.counters
            })
        }),
{
    let (m1, w1, step) = after_showing(m, w, cfg, t, notified, at);
    match history::recorded(t, origin_name(m.origin), at.ts_ms) {
        Some(e) => {
            lemma_write_back_settles(m1, w1, cfg, t, notified, a, at, (n - 1) as nat);
            assert(handle_run(m1, w1, cfg, step, a, at, n) == ({
                let (m2, w2, s2) = write_back(m1, w1, cfg, t, notified, at);
                handle_run(m2, w2, cfg, s2, a, at, (n - 1) as nat)
            }));
        },
        None => {
            let w2 = if notified {
                SharedModel {
                    counters: Counters {
                        notifications: one_more(w.counters.notifications),
                        ..w.counters
                    },
                    ..w
                }
            } else {
                w
            };
            lemma_write_back_settles(m, w2, cfg, t, notified, a, at, n);
        },
    }
}

proof fn lemma_notify_settles(
    m: HandlingModel,
    w: SharedModel,
    cfg: DaemonModel,
    t: TranslationModel,
    summary: Seq<char>,
    body: Seq<char>,
    a: Answers,
    at: Moment,
    n: nat,
)
    requires
        n >= 3,
        m.phase == PhaseModel::Notifying(t),
    ensures
        ({
            let r = handle_run(m, w, cfg, StepModel::Notify(summary, body), a, at, n);
            &&& over_with(r, t, a.notified)
            &&& r.0.counters == (Counters {
                notifications: if a.notified {
                    one_more(w.counters.notifications)
                } else {
                    w.counters.notifications
                },
                ..w.counters
            })
        }),
{
    lemma_after_showing_settles(m, w, cfg, t, a.notified, a, at, (n - 1) as nat);
}

proof fn lemma_show_settles(
    m: HandlingModel,
    w: SharedModel,
    cfg: DaemonModel,
    t: TranslationModel,
    card: Option<CardModel>,
    a: Answers,
    at: Moment,
    n: nat,
)
    requires
        n >= 4,
    ensures
        ({
            let (m1, w1, step) = show(m, w, cfg, t, card);
            let r = handle_run(m1, w1, cfg, step, a, at, n);
            &&& over_with(r, t, gets_shown(cfg, a))
            &&& r.0.counters == (Counters {
                notifications: if gets_shown(cfg, a) {
                    one_more(w.counters.notifications)
                } else {
                    w.counters.notifications
                },
                ..w.counters
            })
        }),
{
    let (m1, w1, step) = show(m, w, cfg, t, card);
    let (summary, body) = shown(cfg, t, card);
    if cfg.popup {
        let (m2, w2, s2) = handle_next(m1, w1, cfg, answer(step, a), at);
        assert(handle_run(m1, w1, cfg, step, a, at, n) == handle_run(
            m2,
            w2,
            cfg,
            s2,
            a,
            at,
            (n - 1) as nat,
        ));
        if a.published {
            lemma_after_showing_settles(m1, w1, cfg, t, true, a, at, (n - 1) as nat);
        } else {
            lemma_notify_settles(m2, w2, cfg, t, summary, body, a, at, (n - 1) as nat);
        }
    } else {
        lemma_notify_settles(m1, w1, cfg, t, summary, body, a, at, n);
    }
}

/// A text that is not left alone is over after at most six answers. It is then
/// handled with the translation that was given, it counts as one translation,
/// and it counts as shown exactly where a window took it or a notification was
/// shown.
pub proof fn law_every_text_is_settled(
    w: SharedModel,
    cfg: DaemonModel,
    raw: Seq<char>,
    origin: Origin,
    at: Moment,
    a: Answers,
)
    requires
        skip_reason(cfg, w.guard, raw, origin, at.now) is None,
    ensures
        ({
            let (m, w1, first) = handle_start(w, cfg, raw, origin, at);
            let (w2, last) = handle_run(m, w1, cfg, first, a, at, 6);
            &&& over_with((w2, last), a.translation, gets_shown(cfg, a))
            &&& w2.counters.translations == one_more(w.counters.translations)
            &&& w2.counters.notifications == (if gets_shown(cfg, a) {
                one_more(w.counters.notifications)
            } else {
                w.counters.notifications
            })
        }),
{
    let t = a.translation;
    let (m, w1, first) = handle_start(w, cfg, raw, origin, at);
    let (m2, w2, s2) = handle_next(m, w1, cfg, answer(first, a), at);
    assert(handle_run(m, w1, cfg, first, a, at, 6) == handle_run(m2, w2, cfg, s2, a, at, 5));
    if needs_card(t) {
        let (m3, w3, s3) = handle_next(m2, w2, cfg, answer(s2, a), at);
        assert(handle_run(m2, w2, cfg, s2, a, at, 5) == handle_run(m3, w3, cfg, s3, a, at, 4));
        lemma_show_settles(m2, w2, cfg, t, Some(a.card), a, at, 4);
    } else {
        lemma_show_settles(m, w2, cfg, t, None, a, at, 5);
    }
}

/// Where no window takes a translation, it is shown as if there were to be no
/// windows: by the same notification, and all that follows is the same.
pub proof fn law_untaken_popup_becomes_a_notification(
    m: HandlingModel,
    w: SharedModel,
    cfg: DaemonModel,
    t: TranslationModel,
    card: Option<CardModel>,
    at: Moment,
)
    requires
        cfg.popup,
    ensures
        ({
            let (m1, w1, _) = show(m, w, cfg, t, card);
            handle_next(m1, w1, cfg, InputModel::Published(false), at) == show(
                m,
                w,
                DaemonModel { popup: false, ..cfg },
                t,
                card,
            )
        }),
{
}

/// A text that is left alone is not translated, and nothing changes.
pub proof fn law_skipped_text_changes_nothing(
    w: SharedModel,
    cfg: DaemonModel,
    raw: Seq<char>,
    origin: Origin,
    at: Moment,
)
    requires
        skip_reason(cfg, w.guard, raw, origin, at.now) is Some,
    ensures
        handle_start(w, cfg, raw, origin, at).1 == w,
        handle_start(w, cfg, raw, origin, at).2 == StepModel::Done(
            ResultModel::Skipped(skip_reason(cfg, w.guard, raw, origin, at.now)->0),
        ),
{
}

// Laws on what is shown

/// The summary is the text, cut after thirty characters with an ellipsis. The
/// body is the translation, cut after twelve hundred, and below it the hint where
/// there is one. Without a translation it is the hint, or that the word is not
/// known; and that all engines failed where no engine answered.
pub proof fn law_notification(t: TranslationModel, hint: Seq<char>)
    ensures
        t.text.len() <= 30 ==> notification(t, None).0 == t.text,
        t.text.len() > 30 ==> notification(t, None).0 == t.text.take(30).push('…'),
        notification(t, Some(hint)).0 == notification(t, None).0,
        0 < t.translation.len() <= 1200 ==> notification(t, None).1 == t.translation,
        t.translation.len() > 1200 ==> notification(t, None).1 == t.translation.take(1200).push(
            '…',
        ),
        t.translation.len() > 0 ==> notification(t, Some(hint)).1 == notification(t, None).1
            + seq!['\n'] + hint,
        t.translation.len() == 0 && t.engine.len() == 0 ==> notification(t, None).1
            == "翻译失败（引擎链全部失败）"@ && notification(t, Some(hint)).1
            == "翻译失败（引擎链全部失败）"@,
        t.translation.len() == 0 && t.engine.len() > 0 ==> notification(t, Some(hint)).1 == hint
            && notification(t, None).1 == "未收录"@,
{
    if t.translation.len() > 0 {
        assert(notification(t, Some(hint)).1 =~= notification(t, None).1 + seq!['\n'] + hint);
    }
}

/// The hint names the close words in their order, three at most.
pub proof fn law_hint(card: CardModel)
    ensures
        ({
            let l = card.suggestions;
            &&& l.len() == 0 ==> hint_for(card) is None
            &&& l.len() == 1 ==> hint_for(card) == Some("未收录；试试："@ + l[0])
            &&& l.len() == 2 ==> hint_for(card) == Some("未收录；试试："@ + (l[0] + "、"@ + l[1]))
            &&& l.len() >= 3 ==> hint_for(card) == Some(
                "未收录；试试："@ + (l[0] + "、"@ + l[1] + "、"@ + l[2]),
            )
        }),
{
    let l = card.suggestions;
    reveal_with_fuel(text::join, 4);
    if l.len() >= 3 {
        lemma_three(l, "、"@);
    }
}

proof fn lemma_three(l: Seq<Seq<char>>, sep: Seq<char>)
    requires
        l.len() >= 3,
    ensures
        text::join(first_few(l, 3), sep) == l[0] + sep + l[1] + sep + l[2],
{
    reveal_with_fuel(text::join, 4);
    let few = first_few(l, 3);
    assert(few =~= seq![l[0], l[1], l[2]]);
    assert(few.drop_last() =~= seq![l[0], l[1]]);
    assert(few.drop_last().drop_last() =~= seq![l[0]]);
}

proof fn lemma_distinct_holds(l: Seq<Seq<char>>, f: Seq<char>)
    ensures
        distinct(l).contains(f) <==> f.len() > 0 && l.contains(f),
    decreases l.len(),
{
    if l.len() > 0 {
        let init = l.drop_last();
        lemma_distinct_holds(init, f);
        let before = distinct(init);
        if l.contains(f) {
            let i = l.index_of(f);
            if i < l.len() - 1 {
                assert(init[i] == f);
                assert(init.contains(f));
            }
        }
        if init.contains(f) {
            let i = init.index_of(f);
            assert(l[i] == f);
        }
        if l.last() == f {
            assert(l[l.len() - 1] == f);
        }
        if before.contains(f) {
            let i = before.index_of(f);
            assert(before.push(l.last())[i] == f);
        }
        if l.last() == f && f.len() > 0 && !before.contains(f) {
            assert(before.push(f)[before.len() as int] == f);
        }
        if before.push(l.last()).contains(f) && !before.contains(f) {
            let i = before.push(l.last()).index_of(f);
            if i < before.len() {
                assert(before[i] == f);
            }
        }
    }
}

proof fn lemma_distinct_keeps(l: Seq<Seq<char>>)
    requires
        l.no_duplicates(),
        forall|i: int| 0 <= i < l.len() ==> (#[trigger] l[i]).len() > 0,
    ensures
        distinct(l) == l,
    decreases l.len(),
{
    if l.len() > 0 {
        let init = l.drop_last();
        assert forall|i: int| 0 <= i < init.len() implies (#[trigger] init[i]).len() > 0 by {
            assert(init[i] == l[i]);
        }
        lemma_distinct_keeps(init);
        if init.contains(l.last()) {
            let i = init.index_of(l.last());
            assert(l[i] == l[l.len() - 1]);
        }
        assert(l[l.len() - 1].len() > 0);
        assert(init.push(l.last()) =~= l);
    }
}

/// The forms of a word are its past tense, its past participle, its present
/// participle, its third person, its comparative, its superlative and its plural,
/// in this order, none of them twice and none of them empty. The line shows the
/// first four, and there is no line where there are none.
pub proof fn law_forms(ex: ExchangeModel, f: Seq<char>)
    ensures
        distinct(ecdict::inflections(Some(ex))).contains(f) <==> f.len() > 0 && (ex.past == Some(f)
            || ex.pp == Some(f) || ex.ing == Some(f) || ex.third == Some(f) || ex.comparative
            == Some(f) || ex.superlative == Some(f) || ex.plural == Some(f)),
        ({
            let all = seq![
                ex.past->0,
                ex.pp->0,
                ex.ing->0,
                ex.third->0,
                ex.comparative->0,
                ex.superlative->0,
                ex.plural->0,
            ];
            ex.past is Some && ex.pp is Some && ex.ing is Some && ex.third is Some && ex.comparative
                is Some && ex.superlative is Some && ex.plural is Some && all.no_duplicates() && (
            forall|i: int| 0 <= i < 7 ==> (#[trigger] all[i]).len() > 0) ==> distinct(
                ecdict::inflections(Some(ex)),
            ) == all && forms_line(Some(ex)) == Some(
                "词形："@ + (ex.past->0 + " · "@ + ex.pp->0 + " · "@ + ex.ing->0 + " · "@
                    + ex.third->0),
            )
        }),
        ({
            let few = seq![ex.comparative->0, ex.superlative->0, ex.plural->0];
            ex.past is None && ex.pp is None && ex.ing is None && ex.third is None && ex.comparative
                is Some && ex.superlative is Some && ex.plural is Some && few.no_duplicates() && (
            forall|i: int| 0 <= i < 3 ==> (#[trigger] few[i]).len() > 0) ==> forms_line(Some(ex))
                == Some(
                "词形："@ + (ex.comparative->0 + " · "@ + ex.superlative->0 + " · "@
                    + ex.plural->0),
            )
        }),
        forms_line(None) is None,
{
    ecdict::law_forms_are_the_inflections(ex, f);
    lemma_distinct_holds(ecdict::inflections(Some(ex)), f);
    if ex.past is Some && ex.pp is Some && ex.ing is Some && ex.third is Some && ex.comparative
        is Some && ex.superlative is Some && ex.plural is Some {
        lemma_all_forms(ex);
    }
    if ex.past is None && ex.pp is None && ex.ing is None && ex.third is None && ex.comparative
        is Some && ex.superlative is Some && ex.plural is Some {
        lemma_degrees(ex);
    }
}

proof fn lemma_all_forms(ex: ExchangeModel)
    requires
        ex.past is Some,
        ex.pp is Some,
        ex.ing is Some,
        ex.third is Some,
        ex.comparative is Some,
        ex.superlative is Some,
        ex.plural is Some,
    ensures
        ({
            let all = seq![
                ex.past->0,
                ex.pp->0,
                ex.ing->0,
                ex.third->0,
                ex.comparative->0,
                ex.superlative->0,
                ex.plural->0,
            ];
            all.no_duplicates() && (forall|i: int| 0 <= i < 7 ==> (#[trigger] all[i]).len() > 0)
                ==> distinct(ecdict::inflections(Some(ex))) == all && forms_line(Some(ex)) == Some(
                "词形："@ + (ex.past->0 + " · "@ + ex.pp->0 + " · "@ + ex.ing->0 + " · "@
                    + ex.third->0),
            )
        }),
{
    let all = seq![
        ex.past->0,
        ex.pp->0,
        ex.ing->0,
        ex.third->0,
        ex.comparative->0,
        ex.superlative->0,
        ex.plural->0,
    ];
    assert(ecdict::inflections(Some(ex)) =~= all);
    if all.no_duplicates() && (forall|i: int| 0 <= i < 7 ==> (#[trigger] all[i]).len() > 0) {
        lemma_distinct_keeps(all);
        reveal_with_fuel(text::join, 5);
        let few = first_few(all, 4);
        assert(few =~= seq![ex.past->0, ex.pp->0, ex.ing->0, ex.third->0]);
        assert(few.drop_last() =~= seq![ex.past->0, ex.pp->0, ex.ing->0]);
        assert(few.drop_last().drop_last() =~= seq![ex.past->0, ex.pp->0]);
        assert(few.drop_last().drop_last().drop_last() =~= seq![ex.past->0]);
    }
}

proof fn lemma_degrees(ex: ExchangeModel)
    requires
        ex.past is None,
        ex.pp is None,
        ex.ing is None,
        ex.third is None,
        ex.comparative is Some,
        ex.superlative is Some,
        ex.plural is Some,
    ensures
        ({
            let few = seq![ex.comparative->0, ex.superlative->0, ex.plural->0];
            few.no_duplicates() && (forall|i: int| 0 <= i < 3 ==> (#[trigger] few[i]).len() > 0)
                ==> forms_line(Some(ex)) == Some(
                "词形："@ + (ex.comparative->0 + " · "@ + ex.superlative->0 + " · "@
                    + ex.plural->0),
            )
        }),
{
    let few = seq![ex.comparative->0, ex.superlative->0, ex.plural->0];
    assert(ecdict::inflections(Some(ex)) =~= few);
    if few.no_duplicates() && (forall|i: int| 0 <= i < 3 ==> (#[trigger] few[i]).len() > 0) {
        lemma_distinct_keeps(few);
        reveal_with_fuel(text::join, 4);
        assert(few.drop_last() =~= seq![ex.comparative->0, ex.superlative->0]);
        assert(few.drop_last().drop_last() =~= seq![ex.comparative->0]);
    }
}

/// Each examination has its name, and any other tag is shown as it is.
pub proof fn law_examinations(tag: Seq<char>)
    ensures
        exam_name("zk"@) == "中考"@,
        exam_name("gk"@) == "高考"@,
        exam_name("cet4"@) == "四级"@,
        exam_name("cet6"@) == "六级"@,
        exam_name("ky"@) == "考研"@,
        exam_name("toefl"@) == "托福"@,
        exam_name("ielts"@) == "雅思"@,
        exam_name("gre"@) == "GRE"@,
        tag != "zk"@ && tag != "gk"@ && tag != "cet4"@ && tag != "cet6"@ && tag != "ky"@ && tag
            != "toefl"@ && tag != "ielts"@ && tag != "gre"@ ==> exam_name(tag) == tag,
{
    reveal_strlit("zk");
    reveal_strlit("gk");
    reveal_strlit("cet4");
    reveal_strlit("cet6");
    reveal_strlit("ky");
    reveal_strlit("toefl");
    reveal_strlit("ielts");
    reveal_strlit("gre");
    assert("zk"@.len() == 2 && "zk"@[0] == 'z');
    assert("gk"@.len() == 2 && "gk"@[0] == 'g');
    assert("ky"@.len() == 2 && "ky"@[0] == 'k');
    assert("cet4"@.len() == 4 && "cet4"@[3] == '4');
    assert("cet6"@.len() == 4 && "cet6"@[3] == '6');
    assert("toefl"@.len() == 5 && "toefl"@[0] == 't');
    assert("ielts"@.len() == 5 && "ielts"@[0] == 'i');
    assert("gre"@.len() == 3);
}

/// A rating from one to five is so many stars, and a higher one five; the badges
/// are the rating, the Oxford list and the examinations, each where it is there.
pub proof fn law_badges(c: CardModel)
    ensures
        forall|n: u8, i: int| 0 <= i < stars(n).len() ==> #[trigger] stars(n)[i] == '★',
        forall|n: u8| n <= 5 ==> #[trigger] stars(n).len() == n,
        forall|n: u8| n > 5 ==> #[trigger] stars(n).len() == 5,
        (c.collins is None || c.collins->0 == 0) && !c.oxford && c.tags.len() == 0 ==> badges_line(
            c,
        ) is None,
        c.collins is Some && c.collins->0 > 0 && !c.oxford && c.tags.len() == 0 ==> badges_line(c)
            == Some("柯林斯 "@ + stars(c.collins->0)),
        (c.collins is None || c.collins->0 == 0) && c.oxford && c.tags.len() == 0 ==> badges_line(c)
            == Some("牛津核心"@),
        (c.collins is None || c.collins->0 == 0) && !c.oxford && c.tags.len() == 1 ==> badges_line(
            c,
        ) == Some(exam_name(c.tags[0])),
        c.collins is Some && c.collins->0 > 0 && c.oxford && c.tags.len() == 1 ==> badges_line(c)
            == Some(
            "柯林斯 "@ + stars(c.collins->0) + " · "@ + "牛津核心"@ + " · "@ + exam_name(c.tags[0]),
        ),
        c.tags.len() <= badges(c).len(),
        forall|i: int|
            0 <= i < c.tags.len() ==> badges(c)[badges(c).len() - c.tags.len() + i] == exam_name(
                #[trigger] c.tags[i],
            ),
{
    reveal_with_fuel(text::join, 4);
    let b = badges(c);
    if (c.collins is None || c.collins->0 == 0) && !c.oxford && c.tags.len() == 1 {
        assert(b =~= seq![exam_name(c.tags[0])]);
    }
    if c.collins is Some && c.collins->0 > 0 && c.oxford && c.tags.len() == 1 {
        let a = "柯林斯 "@ + stars(c.collins->0);
        assert(b =~= seq![a, "牛津核心"@, exam_name(c.tags[0])]);
        assert(b.drop_last() =~= seq![a, "牛津核心"@]);
        assert(b.drop_last().drop_last() =~= seq![a]);
    }
    if c.collins is Some && c.collins->0 > 0 && !c.oxford && c.tags.len() == 0 {
        assert(b =~= seq!["柯林斯 "@ + stars(c.collins->0)]);
    }
    if (c.collins is None || c.collins->0 == 0) && c.oxford && c.tags.len() == 0 {
        assert(b =~= seq!["牛津核心"@]);
    }
}

/// A word is shown with its pronunciation between slashes, the British one before
/// the American one, its glosses, its forms and, where they are wanted, its
/// badges, each on lines of its own and in this order; what is missing takes no
/// line.
pub proof fn law_word_lines(c: CardModel, badge: bool)
    ensures
        ({
            let p = c.phonetic;
            &&& p is Some && p->0.uk is Some && p->0.uk->0.len() > 0 ==> phonetic_line(c) == Some(
                seq!['/'] + p->0.uk->0 + seq!['/'],
            )
            &&& p is Some && p->0.uk is None && p->0.us is Some && p->0.us->0.len() > 0
                ==> phonetic_line(c) == Some(seq!['/'] + p->0.us->0 + seq!['/'])
            &&& p is None || (p->0.uk is None && p->0.us is None) ==> phonetic_line(c) is None
        }),
        c.pos.len() == 0 ==> glosses_line(c) is None,
        ({
            let line = |l: Option<Seq<char>>|
                match l {
                    Some(s) => seq![s],
                    None => Seq::<Seq<char>>::empty(),
                };
            word_lines(c, badge) == line(phonetic_line(c)) + line(glosses_line(c)) + line(
                forms_line(c.exchange),
            ) + (if badge {
                line(badges_line(c))
            } else {
                Seq::empty()
            })
        }),
        ({
            let body = text::join(word_lines(c, badge), seq!['\n']);
            &&& body.len() <= 1200 ==> word_notification(c, badge).1 == body
            &&& body.len() > 1200 ==> word_notification(c, badge).1 == body.take(1200).push('…')
        }),
        c.word.len() <= 30 ==> word_notification(c, badge).0 == c.word,
        c.word.len() > 30 ==> word_notification(c, badge).0 == c.word.take(30).push('…'),
{
    reveal_strlit("/");
    reveal_strlit("\n");
    assert("/"@ =~= seq!['/']);
    assert("\n"@ =~= seq!['\n']);
    let line = |l: Option<Seq<char>>|
        match l {
            Some(s) => seq![s],
            None => Seq::<Seq<char>>::empty(),
        };
    assert(word_lines(c, badge) =~= line(phonetic_line(c)) + line(glosses_line(c)) + line(
        forms_line(c.exchange),
    ) + (if badge {
        line(badges_line(c))
    } else {
        Seq::empty()
    }));
    if c.pos.len() == 0 {
        assert(c.pos =~= Seq::empty());
        pipeline::law_card_text(
            Seq::empty(),
            Seq::empty(),
            Seq::empty(),
            arbitrary(),
            arbitrary(),
        );
    }
}

// Laws on what is done

/// A text is left alone where it is blank; a copied one also where it has more
/// bytes than are allowed, or else where the guard refuses it. A copied text that
/// is not left alone counts as one, one that was asked for as a trigger, and
/// either is translated without the white space at its ends.
pub proof fn law_starts(w: SharedModel, cfg: DaemonModel, raw: Seq<char>, at: Moment)
    ensures
        ({
            let t = text::trim(raw);
            let (m, w1, step) = handle_start(w, cfg, raw, Origin::Auto, at);
            let (m2, w2, step2) = handle_start(w, cfg, raw, Origin::Trigger, at);
            let left = |why: Seq<char>| StepModel::Done(ResultModel::Skipped(why));
            &&& t.len() == 0 ==> step == left("empty"@) && step2 == left("empty"@)
            &&& t.len() > 0 && encode_utf8(t).len() > cfg.max_text_bytes ==> step == left(
                "oversize"@,
            )
            &&& t.len() > 0 && encode_utf8(t).len() <= cfg.max_text_bytes && !loopguard::accepts(
                w.guard,
                t,
                at.now,
            ) ==> step == left("duplicate"@)
            &&& t.len() > 0 && encode_utf8(t).len() <= cfg.max_text_bytes && loopguard::accepts(
                w.guard,
                t,
                at.now,
            ) ==> {
                &&& step == StepModel::Translate(t)
                &&& w1.counters.clipboard_events == one_more(w.counters.clipboard_events)
                &&& w1.counters.triggers == w.counters.triggers
                &&& w1.counters.translations == w.counters.translations
                &&& w1.counters.notifications == w.counters.notifications
            }
            &&& t.len() > 0 ==> {
                &&& step2 == StepModel::Translate(t)
                &&& w2.counters.triggers == one_more(w.counters.triggers)
                &&& w2.counters.clipboard_events == w.counters.clipboard_events
                &&& w2.counters.translations == w.counters.translations
                &&& w2.counters.notifications == w.counters.notifications
            }
        }),
        forall|n: u64| n < u64::MAX ==> #[trigger] one_more(n) == n + 1,
        counted(w).counters.translations == one_more(w.counters.translations),
        counted(w).counters.notifications == w.counters.notifications,
        counted(w).counters.clipboard_events == w.counters.clipboard_events,
        counted(w).counters.triggers == w.counters.triggers,
        counted(w).guard == w.guard,
{
    reveal_strlit("empty");
    reveal_strlit("oversize");
    reveal_strlit("duplicate");
}

/// A card is looked up for what a dictionary translated and for an English text
/// of one or two words, and for nothing else. What a dictionary translated is
/// shown as a word; for anything else the card gives but a hint.
pub proof fn law_cards(
    m: HandlingModel,
    w: SharedModel,
    cfg: DaemonModel,
    t: TranslationModel,
    c: CardModel,
    at: Moment,
)
    requires
        m.phase == PhaseModel::Translating,
    ensures
        ({
            let (m1, w1, step) = handle_next(m, w, cfg, InputModel::Translated(t), at);
            let dictionary = (t.engine == "ecdict"@ || t.engine == "cedict"@) && t.translation.len()
                > 0;
            let short = lang::lang_of(t.text) == lang::Lang::En && text::words(t.text).len() <= 2;
            &&& w1 == counted(w)
            &&& dictionary || short ==> step == StepModel::Lookup(t.text) && m1.phase
                == PhaseModel::LookingUp(t)
            &&& !dictionary && !short ==> (m1, w1, step) == show(m, counted(w), cfg, t, None)
            &&& dictionary ==> shown(cfg, t, Some(c)) == word_notification(c, cfg.show_word_badge)
            &&& !dictionary ==> shown(cfg, t, Some(c)) == notification(t, hint_for(c))
            &&& shown(cfg, t, None) == notification(t, None)
        }),
        handle_next(
            HandlingModel { phase: PhaseModel::LookingUp(t), ..m },
            w,
            cfg,
            InputModel::Found(c),
            at,
        ) == show(m, w, cfg, t, Some(c)),
{
}

/// A translation goes to the windows where popups are configured and to a
/// notification otherwise. What was shown is counted as such; what there is to
/// record is recorded under `auto` or `trigger`; and the translation is written
/// back exactly where that is configured and there is one.
pub proof fn law_after_translating(
    m: HandlingModel,
    w: SharedModel,
    cfg: DaemonModel,
    t: TranslationModel,
    card: Option<CardModel>,
    ok: bool,
    at: Moment,
)
    ensures
        cfg.popup ==> show(m, w, cfg, t, card).2 == StepModel::Publish(events::popup_json(t, card)),
        !cfg.popup ==> show(m, w, cfg, t, card).2 == StepModel::Notify(
            shown(cfg, t, card).0,
            shown(cfg, t, card).1,
        ),
        ({
            let n = HandlingModel { phase: PhaseModel::Notifying(t), ..m };
            let (n1, w1, step) = handle_next(n, w, cfg, InputModel::Notified(ok), at);
            &&& w1.counters.translations == w.counters.translations
            &&& w1.counters.notifications == (if ok {
                one_more(w.counters.notifications)
            } else {
                w.counters.notifications
            })
            &&& t.translation.len() > 0 ==> step == StepModel::Record(
                EntryModel {
                    ts_ms: at.ts_ms,
                    text: t.text,
                    translation: t.translation,
                    engine: t.engine,
                    origin: if m.origin == Origin::Auto {
                        "auto"@
                    } else {
                        "trigger"@
                    },
                },
            )
            &&& t.translation.len() == 0 ==> step == StepModel::Done(
                ResultModel::Handled { translation: t, notified: ok },
            )
        }),
        ({
            let p = HandlingModel { phase: PhaseModel::Publishing(t, card), ..m };
            handle_next(p, w, cfg, InputModel::Published(true), at) == handle_next(
                HandlingModel { phase: PhaseModel::Notifying(t), ..m },
                w,
                cfg,
                InputModel::Notified(true),
                at,
            )
        }),
        ({
            let r = HandlingModel { phase: PhaseModel::Recording(t, ok), ..m };
            let (r1, w1, step) = handle_next(r, w, cfg, InputModel::Recorded, at);
            &&& cfg.copy_translation && t.translation.len() > 0 ==> step == StepModel::Write(
                t.translation,
            )
            &&& !cfg.copy_translation || t.translation.len() == 0 ==> step == StepModel::Done(
                ResultModel::Handled { translation: t, notified: ok },
            ) && w1 == w
        }),
{
}

} // verus!
