//! The command line: what its arguments mean, what it prints, and how it ends.

use crate::config;
use crate::engine;
use crate::engine::EngineError;
use crate::json;
use crate::json::Fields;
use crate::lang;
use crate::lang::Lang;
use crate::paths;
use crate::pipeline::{Translation, TranslationModel};
use crate::reading;
use crate::reading::Json;
use crate::text;
use crate::wire;
use vstd::prelude::*;

verus! {

// Output

/// One line of output.
#[derive(Debug, Clone, PartialEq)]
pub enum StreamEvent {
    /// The first line: the direction, and the engine that was asked for.
    Meta { source: String, target: String, engine: String },
    /// A piece of the translation.
    Delta { text: String },
    /// The last line: the translation and the engine that made it.
    Result { source: String, target: String, engine: String, text: String, translation: String },
    /// What went wrong.
    Error { code: String, message: String },
}

/// What a [`StreamEvent`] says.
pub enum EventModel {
    Meta { source: Seq<char>, target: Seq<char>, engine: Seq<char> },
    Delta { text: Seq<char> },
    Result {
        source: Seq<char>,
        target: Seq<char>,
        engine: Seq<char>,
        text: Seq<char>,
        translation: Seq<char>,
    },
    Error { code: Seq<char>, message: Seq<char> },
}

impl DeepView for StreamEvent {
    type V = EventModel;

    open spec fn deep_view(&self) -> EventModel {
        match self {
            StreamEvent::Meta { source, target, engine } => EventModel::Meta {
                source: source@,
                target: target@,
                engine: engine@,
            },
            StreamEvent::Delta { text } => EventModel::Delta { text: text@ },
            StreamEvent::Result { source, target, engine, text, translation } => EventModel::Result {
                source: source@,
                target: target@,
                engine: engine@,
                text: text@,
                translation: translation@,
            },
            StreamEvent::Error { code, message } => EventModel::Error {
                code: code@,
                message: message@,
            },
        }
    }
}

/// An event as JSON.
pub open spec fn event_json(e: EventModel) -> Seq<char> {
    match e {
        EventModel::Meta { source, target, engine } => json::object(
            Seq::empty() + seq![json::field("type"@, json::quoted("meta"@))] + seq![
                json::field("source"@, json::quoted(source)),
            ] + seq![json::field("target"@, json::quoted(target))] + seq![
                json::field("engine"@, json::quoted(engine)),
            ],
        ),
        EventModel::Delta { text } => json::object(
            Seq::empty() + seq![json::field("type"@, json::quoted("delta"@))] + seq![
                json::field("text"@, json::quoted(text)),
            ],
        ),
        EventModel::Result { source, target, engine, text, translation } => json::object(
            Seq::empty() + seq![json::field("type"@, json::quoted("result"@))] + seq![
                json::field("source"@, json::quoted(source)),
            ] + seq![json::field("target"@, json::quoted(target))] + seq![
                json::field("engine"@, json::quoted(engine)),
            ] + seq![json::field("text"@, json::quoted(text))] + seq![
                json::field("translation"@, json::quoted(translation)),
            ],
        ),
        EventModel::Error { code, message } => json::object(
            Seq::empty() + seq![json::field("type"@, json::quoted("error"@))] + seq![
                json::field("code"@, json::quoted(code)),
            ] + seq![json::field("message"@, json::quoted(message))],
        ),
    }
}

impl StreamEvent {
    /// The event as JSON.
    pub fn line(&self) -> (r: String)
        ensures
            r@ == event_json(self.deep_view()),
    {
        let mut f = Fields::new();
        match self {
            StreamEvent::Meta { source, target, engine } => {
                f.put_text("type", "meta");
                f.put_text("source", source);
                f.put_text("target", target);
                f.put_text("engine", engine);
            },
            StreamEvent::Delta { text } => {
                f.put_text("type", "delta");
                f.put_text("text", text);
            },
            StreamEvent::Result { source, target, engine, text, translation } => {
                f.put_text("type", "result");
                f.put_text("source", source);
                f.put_text("target", target);
                f.put_text("engine", engine);
                f.put_text("text", text);
                f.put_text("translation", translation);
            },
            StreamEvent::Error { code, message } => {
                f.put_text("type", "error");
                f.put_text("code", code);
                f.put_text("message", message);
            },
        }
        f.finish()
    }
}

/// An event is one line, whatever its texts hold.
pub proof fn law_event_is_one_line(e: EventModel)
    ensures
        json::one_line(event_json(e)),
{
    broadcast use json::group_one_line;

}

/// How a program ends early: what it says on the error stream, and its exit code.
#[derive(Debug, Clone, PartialEq)]
pub struct Exit {
    pub line: String,
    pub code: i32,
}

/// Whether an exit reports this error with this code.
pub open spec fn exits(x: Exit, kind: Seq<char>, message: Seq<char>, code: int) -> bool {
    x.line@ == event_json(EventModel::Error { code: kind, message }) && x.code == code
}

/// An exit with an error of the given kind.
pub fn event_exit(code: &str, message: &str, exit_code: i32) -> (r: Exit)
    ensures
        exits(r, code@, message@, exit_code as int),
{
    let e = StreamEvent::Error { code: text::copy(code), message: text::copy(message) };
    Exit { line: e.line(), code: exit_code }
}

/// An exit with an internal error.
pub fn error_exit(message: &str) -> (r: Exit)
    ensures
        exits(r, "internal"@, message@, 2),
{
    event_exit("internal", message, 2)
}

/// The first line of a stream.
pub fn meta_event(source: Lang, target: Lang, engine: &str) -> (r: StreamEvent)
    ensures
        r.deep_view() == (EventModel::Meta {
            source: wire::lang_code(source),
            target: wire::lang_code(target),
            engine: engine@,
        }),
{
    StreamEvent::Meta {
        source: text::copy(wire::lang_str(source)),
        target: text::copy(wire::lang_str(target)),
        engine: text::copy(engine),
    }
}

/// A piece of the translation.
pub fn delta_event(piece: &str) -> (r: StreamEvent)
    ensures
        r.deep_view() == (EventModel::Delta { text: piece@ }),
{
    StreamEvent::Delta { text: text::copy(piece) }
}

/// The last line for a translation.
pub open spec fn result_of(t: TranslationModel) -> EventModel {
    EventModel::Result {
        source: wire::lang_code(t.source_lang),
        target: wire::lang_code(t.target_lang),
        engine: t.engine,
        text: t.text,
        translation: t.translation,
    }
}

/// The last line for a translation.
pub fn result_event(t: &Translation) -> (r: StreamEvent)
    ensures
        r.deep_view() == result_of(t.deep_view()),
{
    StreamEvent::Result {
        source: text::copy(wire::lang_str(t.source_lang)),
        target: text::copy(wire::lang_str(t.target_lang)),
        engine: text::copy(&t.engine),
        text: text::copy(&t.text),
        translation: text::copy(&t.translation),
    }
}

// Translating

/// The arguments of a translation.
#[derive(Debug, Clone, PartialEq)]
pub struct TranslateArgs {
    pub text: Vec<String>,
    pub stdin: bool,
    pub source: String,
    pub target: String,
    pub engine: String,
    pub json: bool,
    pub stream: bool,
    /// Seconds.
    pub timeout: u64,
}

/// The arguments of the history.
#[derive(Debug, Clone, PartialEq)]
pub struct HistoryArgs {
    pub limit: u32,
    pub json: bool,
    pub clear: bool,
}

/// Whether the text is to be read from the standard input.
pub fn wants_stdin(args: &TranslateArgs) -> (r: bool)
    ensures
        r == (args.text@.len() == 0 && args.stdin),
{
    args.text.len() == 0 && args.stdin
}

/// The text to translate, before it is found to be blank.
pub open spec fn given_text(args: TranslateArgs, input: Seq<char>) -> Option<Seq<char>> {
    if args.text@.len() > 0 {
        Some(text::join(args.text.deep_view(), " "@))
    } else if args.stdin {
        Some(input)
    } else {
        None
    }
}

/// The text to translate: the arguments with spaces between them, else what
/// stands on the standard input where that is asked for.
pub open spec fn collected(args: TranslateArgs, input: Seq<char>) -> Result<Seq<char>, Seq<char>> {
    match given_text(args, input) {
        None => Err("no text given: pass TEXT arguments or --stdin"@),
        Some(t) => if text::trim(t).len() == 0 {
            Err("empty text: nothing to translate"@)
        } else {
            Ok(t)
        },
    }
}

/// Whether a result says the same as a result over texts.
pub open spec fn says(r: Result<String, String>, m: Result<Seq<char>, Seq<char>>) -> bool {
    match r {
        Ok(t) => m == Ok::<Seq<char>, Seq<char>>(t@),
        Err(why) => m == Err::<Seq<char>, Seq<char>>(why@),
    }
}

/// The text to translate; `input` is what was read from the standard input, if
/// [`wants_stdin`] asked for it.
pub fn collect_text(args: &TranslateArgs, input: &str) -> (r: Result<String, String>)
    ensures
        says(r, collected(*args, input@)),
{
    let t: String = if args.text.len() > 0 {
        text::join_all(&args.text, " ")
    } else if args.stdin {
        text::copy(input)
    } else {
        return Err(text::copy("no text given: pass TEXT arguments or --stdin"));
    };
    if text::empty(&text::trimmed(&t)) {
        return Err(text::copy("empty text: nothing to translate"));
    }
    Ok(t)
}

/// The language of a code, or why there is none.
pub open spec fn parsed_lang(s: Seq<char>) -> Result<Lang, Seq<char>> {
    if s == "en"@ {
        Ok(Lang::En)
    } else if s == "zh"@ {
        Ok(Lang::Zh)
    } else {
        Err(
            "unknown language "@ + config::in_quotes(s)
                + ", expected \"auto\", \"en\" or \"zh\""@,
        )
    }
}

/// Whether a result says the same as a result over a text.
pub open spec fn gives<T>(r: Result<T, String>, m: Result<T, Seq<char>>) -> bool {
    match r {
        Ok(v) => m == Ok::<T, Seq<char>>(v),
        Err(why) => m == Err::<T, Seq<char>>(why@),
    }
}

/// The language of a code.
pub fn parse_lang(s: &str) -> (r: Result<Lang, String>)
    ensures
        gives(r, parsed_lang(s@)),
{
    if text::same(s, "en") {
        Ok(Lang::En)
    } else if text::same(s, "zh") {
        Ok(Lang::Zh)
    } else {
        let mut why = text::cat("unknown language ", &config::debug_of(s));
        why.append(", expected \"auto\", \"en\" or \"zh\"");
        Err(why)
    }
}

/// The language to speak in.
pub open spec fn spoken_lang(flag: Seq<char>, s: Seq<char>) -> Result<Lang, Seq<char>> {
    if flag == "auto"@ {
        Ok(lang::lang_of(s))
    } else {
        parsed_lang(flag)
    }
}

/// The language to speak in: that of the text, or the one that is asked for.
pub fn resolve_lang(flag: &str, text: &str) -> (r: Result<Lang, String>)
    ensures
        gives(r, spoken_lang(flag@, text@)),
{
    if text::same(flag, "auto") {
        Ok(lang::detect(text))
    } else {
        parse_lang(flag)
    }
}

/// The direction to translate in.
pub open spec fn resolved(source: Seq<char>, target: Seq<char>, s: Seq<char>) -> Result<
    (Lang, Lang),
    Seq<char>,
> {
    let from = if source == "auto"@ {
        Ok(lang::lang_of(s))
    } else {
        parsed_lang(source)
    };
    let to = if target == "auto"@ {
        Ok(lang::other(lang::lang_of(s)))
    } else {
        parsed_lang(target)
    };
    match (from, to) {
        (Ok(a), Ok(b)) => Ok((a, b)),
        (Err(why), _) => Err(why),
        (_, Err(why)) => Err(why),
    }
}

/// The direction to translate in: that of the text, as far as no other is asked
/// for.
pub fn resolve_langs(source: &str, target: &str, text: &str) -> (r: Result<(Lang, Lang), String>)
    ensures
        gives(r, resolved(source@, target@, text@)),
{
    let (auto_from, auto_to) = lang::direction(text);
    let from = if text::same(source, "auto") {
        auto_from
    } else {
        match parse_lang(source) {
            Ok(l) => l,
            Err(why) => return Err(why),
        }
    };
    let to = if text::same(target, "auto") {
        auto_to
    } else {
        match parse_lang(target) {
            Ok(l) => l,
            Err(why) => return Err(why),
        }
    };
    Ok((from, to))
}

/// Whether an engine can be asked for, or why not.
pub open spec fn engine_choice(engine: Seq<char>) -> Result<(), Seq<char>> {
    if engine == "auto"@ || engine == "llm"@ || engine == "youdao"@ || engine == "bing"@ {
        Ok(())
    } else {
        Err(
            "unknown engine "@ + config::in_quotes(engine)
                + ", expected one of auto/llm/youdao/bing"@,
        )
    }
}

/// Whether an engine can be asked for.
pub fn validate_engine(engine: &str) -> (r: Result<(), String>)
    ensures
        gives(r, engine_choice(engine@)),
{
    if text::same(engine, "auto") || text::same(engine, "llm") || text::same(engine, "youdao")
        || text::same(engine, "bing") {
        Ok(())
    } else {
        let mut why = text::cat("unknown engine ", &config::debug_of(engine));
        why.append(", expected one of auto/llm/youdao/bing");
        Err(why)
    }
}

/// How the translation went.
#[derive(Debug)]
pub enum Outcome {
    TimedOut,
    Failed(EngineError),
    Translated(Translation),
}

/// What is said where the time is up.
pub open spec fn timeout_text(secs: u64) -> Seq<char> {
    "translate timed out after "@ + text::decimal(secs as nat) + "s"@
}

/// The translation, or how the program ends without one.
pub fn exit_on_outcome(outcome: Outcome, timeout_secs: u64) -> (r: Result<Translation, Exit>)
    ensures
        match outcome {
            Outcome::Translated(t) => r == Ok::<Translation, Exit>(t),
            Outcome::Failed(e) => r is Err && exits(
                r->Err_0,
                "engine"@,
                engine::error_text(e.deep_view()),
                2,
            ),
            Outcome::TimedOut => r is Err && exits(
                r->Err_0,
                "timeout"@,
                timeout_text(timeout_secs),
                124,
            ),
        },
{
    match outcome {
        Outcome::Translated(t) => Ok(t),
        Outcome::Failed(e) => Err(event_exit("engine", &e.message(), 2)),
        Outcome::TimedOut => {
            let mut why = text::cat(
                "translate timed out after ",
                &text::decimal_text(timeout_secs as u128),
            );
            why.append("s");
            Err(event_exit("timeout", &why, 124))
        },
    }
}

/// Whether every engine failed: there is no translation, and no engine made it.
/// A word without glosses has an engine and is no failure.
pub open spec fn nothing_translated(t: TranslationModel) -> bool {
    t.translation.len() == 0 && t.engine.len() == 0
}

/// How the program ends where every engine failed.
pub fn finish(t: &Translation) -> (r: Option<Exit>)
    ensures
        match r {
            Some(x) => nothing_translated(t.deep_view()) && exits(
                x,
                "engine"@,
                "all translation engines failed; hint: configure an llm provider (see README)"@,
                2,
            ),
            None => !nothing_translated(t.deep_view()),
        },
{
    if text::empty(&t.translation) && text::empty(&t.engine) {
        Some(
            event_exit(
                "engine",
                "all translation engines failed; hint: configure an llm provider (see README)",
                2,
            ),
        )
    } else {
        None
    }
}

/// What is still to be printed of a stream: the whole translation as one piece,
/// where a single engine was asked for and handed on nothing, and the last line.
pub fn closing_events(t: &Translation, single: bool) -> (r: Vec<StreamEvent>)
    ensures
        r.deep_view() == (if single {
            seq![EventModel::Delta { text: t.translation@ }, result_of(t.deep_view())]
        } else {
            seq![result_of(t.deep_view())]
        }),
{
    let mut r: Vec<StreamEvent> = Vec::new();
    if single {
        r.push(delta_event(&t.translation));
    }
    r.push(result_event(t));
    proof {
        if single {
            assert(r.deep_view() =~= seq![
                EventModel::Delta { text: t.translation@ },
                result_of(t.deep_view()),
            ]);
        } else {
            assert(r.deep_view() =~= seq![result_of(t.deep_view())]);
        }
    }
    r
}

// Other commands

/// What is printed for a line of JSON: the line, or the same value on several
/// lines. What is not JSON is printed as it is.
pub open spec fn printed_as(line: Seq<char>, pretty: Option<Seq<char>>, compact: bool) -> Seq<char> {
    match pretty {
        Some(p) => if compact {
            line
        } else {
            p
        },
        None => line,
    }
}

/// What is printed for a line of JSON, with the same value on several lines.
pub fn choose_print(line: &str, pretty: Option<String>, compact: bool) -> (r: String)
    ensures
        r@ == printed_as(line@, pretty.deep_view(), compact),
{
    match pretty {
        Some(p) => if compact {
            text::copy(line)
        } else {
            p
        },
        None => text::copy(line),
    }
}

/// What is printed for a line of JSON.
pub fn printed(line: &str, compact: bool) -> (r: String)
    ensures
        r@ == printed_as(line@, json::pretty_text(line@), compact),
{
    choose_print(line, json::pretty(line), compact)
}

/// The exit code of a lookup: one where the word was not found.
pub fn lookup_code(found: bool) -> (r: i32)
    ensures
        r == (if found {
            0int
        } else {
            1
        }),
{
    if found {
        0
    } else {
        1
    }
}

/// Whether a text can be spoken: a blank one cannot.
pub fn speakable(text: &str) -> (r: Result<(), String>)
    ensures
        gives(
            r,
            if text::trim(text@).len() == 0 {
                Err::<(), Seq<char>>("empty text: nothing to speak"@)
            } else {
                Ok::<(), Seq<char>>(())
            },
        ),
{
    if text::empty(&text::trimmed(text)) {
        Err(text::copy("empty text: nothing to speak"))
    } else {
        Ok(())
    }
}

/// What to do with the daemon.
#[derive(Debug, Clone, Copy, PartialEq, Eq, Structural)]
pub enum DaemonAction {
    Start,
    Stop,
}

/// What to do with the daemon, or why nothing.
pub open spec fn action_for(s: Seq<char>) -> Result<DaemonAction, Seq<char>> {
    if s == "start"@ {
        Ok(DaemonAction::Start)
    } else if s == "stop"@ {
        Ok(DaemonAction::Stop)
    } else {
        Err("unknown action "@ + config::in_quotes(s) + ", expected start|stop"@)
    }
}

/// What to do with the daemon.
pub fn parse_action(action: &str) -> (r: Result<DaemonAction, String>)
    ensures
        gives(r, action_for(action@)),
{
    if text::same(action, "start") {
        Ok(DaemonAction::Start)
    } else if text::same(action, "stop") {
        Ok(DaemonAction::Stop)
    } else {
        let mut why = text::cat("unknown action ", &config::debug_of(action));
        why.append(", expected start|stop");
        Err(why)
    }
}

/// The daemon stands beside the program.
pub open spec fn daemon_beside(exe: Seq<char>) -> Seq<char> {
    paths::below(
        match paths::parent_of(exe) {
            Some(d) => d,
            None => "."@,
        },
        "pardond"@,
    )
}

/// The daemon that stands beside the program.
pub fn daemon_bin_for(pardon_exe: &str) -> (r: String)
    ensures
        r@ == daemon_beside(pardon_exe@),
{
    let dir: String = match paths::parent(pardon_exe) {
        Some(d) => d,
        None => text::copy("."),
    };
    paths::join(&dir, "pardond")
}

/// The daemon's log below the place for data.
pub fn daemon_log(home: &str) -> (r: String)
    ensures
        r@ == paths::below(paths::below(home@, "log"@), "pardond.log"@),
{
    paths::join(&paths::join(home, "log"), "pardond.log")
}

/// What is said where the daemon is not installed.
pub fn daemon_missing(bin: &str) -> (r: String)
    ensures
        r@ == "pardond not found at "@ + bin@ + " (install it next to pardon)"@,
{
    let mut r = text::cat("pardond not found at ", bin);
    r.append(" (install it next to pardon)");
    r
}

/// Whether a trigger can have this source, or why not.
pub open spec fn source_choice(source: Seq<char>) -> Result<(), Seq<char>> {
    if source == "selection"@ || source == "clipboard"@ {
        Ok(())
    } else {
        Err("unknown source "@ + config::in_quotes(source) + ", expected selection|clipboard"@)
    }
}

/// Whether a trigger can have this source.
pub fn check_source(source: &str) -> (r: Result<(), String>)
    ensures
        gives(r, source_choice(source@)),
{
    if text::same(source, "selection") || text::same(source, "clipboard") {
        Ok(())
    } else {
        let mut why = text::cat("unknown source ", &config::debug_of(source));
        why.append(", expected selection|clipboard");
        Err(why)
    }
}

/// What is said where the daemon cannot be reached.
pub fn unreachable_daemon(addr: &str, why: &str) -> (r: String)
    ensures
        r@ == "cannot reach pardond at "@ + addr@ + ": "@ + why@
            + "; is it running? try `pardon daemon start`"@,
{
    let mut r = text::cat("cannot reach pardond at ", addr);
    r.append(": ");
    r.append(why);
    r.append("; is it running? try `pardon daemon start`");
    r
}

// Importing

/// Where the entries come from.
#[derive(Debug, Clone, Copy, PartialEq, Eq, Structural)]
pub enum ImportKind {
    /// A comma-separated file of English entries.
    Csv,
    /// The official database of English entries.
    Sqlite,
    /// A text of Chinese entries.
    Cedict,
}

/// An import.
#[derive(Debug, Clone, PartialEq)]
pub struct ImportJob {
    pub kind: ImportKind,
    pub input: String,
    pub output: String,
}

/// What an [`ImportJob`] says.
#[verifier::ext_equal]
pub struct JobModel {
    pub kind: ImportKind,
    pub input: Seq<char>,
    pub output: Seq<char>,
}

impl DeepView for ImportJob {
    type V = JobModel;

    open spec fn deep_view(&self) -> JobModel {
        JobModel { kind: self.kind, input: self.input@, output: self.output@ }
    }
}

/// How the importer is called.
pub fn usage() -> (r: &'static str)
    ensures
        r@ == "usage: pardon-import [--ecdict-sqlite | --cedict] <input> <out.sqlite>"@,
{
    "usage: pardon-import [--ecdict-sqlite | --cedict] <input> <out.sqlite>"
}

/// The import that arguments ask for: an optional kind, the input and the
/// output. What follows is ignored.
pub open spec fn job_for(args: Seq<Seq<char>>) -> Option<JobModel> {
    if args.len() >= 1 && (args[0] == "--cedict"@ || args[0] == "--ecdict-sqlite"@) {
        if args.len() >= 3 {
            Some(
                JobModel {
                    kind: if args[0] == "--cedict"@ {
                        ImportKind::Cedict
                    } else {
                        ImportKind::Sqlite
                    },
                    input: args[1],
                    output: args[2],
                },
            )
        } else {
            None
        }
    } else if args.len() >= 2 {
        Some(JobModel { kind: ImportKind::Csv, input: args[0], output: args[1] })
    } else {
        None
    }
}

/// The import that arguments ask for, if they are enough.
pub fn parse_import(args: &Vec<String>) -> (r: Option<ImportJob>)
    ensures
        r.deep_view() == job_for(args.deep_view()),
{
    assert(args.deep_view().len() == args@.len());
    if args.len() == 0 {
        return None;
    }
    assert(args.deep_view()[0] == args@[0]@);
    let cedict = text::same(&args[0], "--cedict");
    if cedict || text::same(&args[0], "--ecdict-sqlite") {
        if args.len() < 3 {
            return None;
        }
        let kind = if cedict {
            ImportKind::Cedict
        } else {
            ImportKind::Sqlite
        };
        return Some(
            ImportJob { kind, input: text::copy(&args[1]), output: text::copy(&args[2]) },
        );
    }
    if args.len() < 2 {
        return None;
    }
    Some(
        ImportJob {
            kind: ImportKind::Csv,
            input: text::copy(&args[0]),
            output: text::copy(&args[1]),
        },
    )
}

/// What is said after an import.
pub fn imported(n: u64, output: &str) -> (r: String)
    ensures
        r@ == "imported "@ + text::decimal(n as nat) + " entries into "@ + output@,
{
    let mut r = text::cat("imported ", &text::decimal_text(n as u128));
    r.append(" entries into ");
    r.append(output);
    r
}

// Laws

/// A reader of JSON finds in a line of output which kind it is, and each text
/// under its own name.
pub proof fn law_event_reads(
    source: Seq<char>,
    target: Seq<char>,
    engine: Seq<char>,
    text: Seq<char>,
    translation: Seq<char>,
)
    ensures
        reading::read(event_json(EventModel::Meta { source, target, engine })) == Some(
            Json::Object(
                seq![
                    ("type"@, Json::Text("meta"@)),
                    ("source"@, Json::Text(source)),
                    ("target"@, Json::Text(target)),
                    ("engine"@, Json::Text(engine)),
                ],
            ),
        ),
        reading::read(event_json(EventModel::Delta { text })) == Some(
            Json::Object(seq![("type"@, Json::Text("delta"@)), ("text"@, Json::Text(text))]),
        ),
        reading::read(
            event_json(EventModel::Result { source, target, engine, text, translation }),
        ) == Some(
            Json::Object(
                seq![
                    ("type"@, Json::Text("result"@)),
                    ("source"@, Json::Text(source)),
                    ("target"@, Json::Text(target)),
                    ("engine"@, Json::Text(engine)),
                    ("text"@, Json::Text(text)),
                    ("translation"@, Json::Text(translation)),
                ],
            ),
        ),
{
    lemma_meta_reads(source, target, engine);
    lemma_delta_reads(text);
    lemma_result_reads(source, target, engine, text, translation);
}

proof fn lemma_meta_reads(source: Seq<char>, target: Seq<char>, engine: Seq<char>)
    ensures
        reading::read(event_json(EventModel::Meta { source, target, engine })) == Some(
            Json::Object(
                seq![
                    ("type"@, Json::Text("meta"@)),
                    ("source"@, Json::Text(source)),
                    ("target"@, Json::Text(target)),
                    ("engine"@, Json::Text(engine)),
                ],
            ),
        ),
{
    broadcast use reading::lemma_more_members;

    reading::lemma_no_members();
    reading::lemma_text_member("type"@, "meta"@);
    reading::lemma_text_member("source"@, source);
    reading::lemma_text_member("target"@, target);
    reading::lemma_text_member("engine"@, engine);
    let all_fields = Seq::empty()
        + seq![json::field("type"@, json::quoted("meta"@))]
        + seq![json::field("source"@, json::quoted(source))]
        + seq![json::field("target"@, json::quoted(target))]
        + seq![json::field("engine"@, json::quoted(engine))];
    let all_members = Seq::<(Seq<char>, Json)>::empty()
        + seq![("type"@, Json::Text("meta"@))]
        + seq![("source"@, Json::Text(source))]
        + seq![("target"@, Json::Text(target))]
        + seq![("engine"@, Json::Text(engine))];
    assert(reading::members_mean(all_fields, all_members));
    reading::lemma_object(all_fields, all_members);
    reading::lemma_reads(json::object(all_fields), Json::Object(all_members));
    assert(all_members =~= seq![
        ("type"@, Json::Text("meta"@)),
        ("source"@, Json::Text(source)),
        ("target"@, Json::Text(target)),
        ("engine"@, Json::Text(engine)),
    ]);
}

proof fn lemma_delta_reads(text: Seq<char>)
    ensures
        reading::read(event_json(EventModel::Delta { text })) == Some(
            Json::Object(seq![("type"@, Json::Text("delta"@)), ("text"@, Json::Text(text))]),
        ),
{
    broadcast use reading::lemma_more_members;

    reading::lemma_no_members();
    reading::lemma_text_member("type"@, "delta"@);
    reading::lemma_text_member("text"@, text);
    let all_fields = Seq::empty()
        + seq![json::field("type"@, json::quoted("delta"@))]
        + seq![json::field("text"@, json::quoted(text))];
    let all_members = Seq::<(Seq<char>, Json)>::empty()
        + seq![("type"@, Json::Text("delta"@))]
        + seq![("text"@, Json::Text(text))];
    assert(reading::members_mean(all_fields, all_members));
    reading::lemma_object(all_fields, all_members);
    reading::lemma_reads(json::object(all_fields), Json::Object(all_members));
    assert(all_members =~= seq![("type"@, Json::Text("delta"@)), ("text"@, Json::Text(text))]);
}

proof fn lemma_result_reads(
    source: Seq<char>,
    target: Seq<char>,
    engine: Seq<char>,
    text: Seq<char>,
    translation: Seq<char>,
)
    ensures
        reading::read(
            event_json(EventModel::Result { source, target, engine, text, translation }),
        ) == Some(
            Json::Object(
                seq![
                    ("type"@, Json::Text("result"@)),
                    ("source"@, Json::Text(source)),
                    ("target"@, Json::Text(target)),
                    ("engine"@, Json::Text(engine)),
                    ("text"@, Json::Text(text)),
                    ("translation"@, Json::Text(translation)),
                ],
            ),
        ),
{
    broadcast use reading::lemma_more_members;

    reading::lemma_no_members();
    reading::lemma_text_member("type"@, "result"@);
    reading::lemma_text_member("source"@, source);
    reading::lemma_text_member("target"@, target);
    reading::lemma_text_member("engine"@, engine);
    reading::lemma_text_member("text"@, text);
    reading::lemma_text_member("translation"@, translation);
    let all_fields = Seq::empty()
        + seq![json::field("type"@, json::quoted("result"@))]
        + seq![json::field("source"@, json::quoted(source))]
        + seq![json::field("target"@, json::quoted(target))]
        + seq![json::field("engine"@, json::quoted(engine))]
        + seq![json::field("text"@, json::quoted(text))]
        + seq![json::field("translation"@, json::quoted(translation))];
    let all_members = Seq::<(Seq<char>, Json)>::empty()
        + seq![("type"@, Json::Text("result"@))]
        + seq![("source"@, Json::Text(source))]
        + seq![("target"@, Json::Text(target))]
        + seq![("engine"@, Json::Text(engine))]
        + seq![("text"@, Json::Text(text))]
        + seq![("translation"@, Json::Text(translation))];
    assert(reading::members_mean(all_fields, all_members));
    reading::lemma_object(all_fields, all_members);
    reading::lemma_reads(json::object(all_fields), Json::Object(all_members));
    assert(all_members =~= seq![
        ("type"@, Json::Text("result"@)),
        ("source"@, Json::Text(source)),
        ("target"@, Json::Text(target)),
        ("engine"@, Json::Text(engine)),
        ("text"@, Json::Text(text)),
        ("translation"@, Json::Text(translation)),
    ]);
}

/// A reader of JSON finds in the line of an error its kind and its message.
pub proof fn law_error_reads(code: Seq<char>, message: Seq<char>)
    ensures
        reading::read(event_json(EventModel::Error { code, message })) == Some(
            Json::Object(
                seq![
                    ("type"@, Json::Text("error"@)),
                    ("code"@, Json::Text(code)),
                    ("message"@, Json::Text(message)),
                ],
            ),
        ),
{
    broadcast use reading::lemma_more_members;

    reading::lemma_no_members();
    reading::lemma_text_member("type"@, "error"@);
    reading::lemma_text_member("code"@, code);
    reading::lemma_text_member("message"@, message);
    let all_fields = Seq::empty()
        + seq![json::field("type"@, json::quoted("error"@))]
        + seq![json::field("code"@, json::quoted(code))]
        + seq![json::field("message"@, json::quoted(message))];
    let all_members = Seq::<(Seq<char>, Json)>::empty()
        + seq![("type"@, Json::Text("error"@))]
        + seq![("code"@, Json::Text(code))]
        + seq![("message"@, Json::Text(message))];
    assert(reading::members_mean(all_fields, all_members));
    reading::lemma_object(all_fields, all_members);
    reading::lemma_reads(json::object(all_fields), Json::Object(all_members));
    assert(all_members =~= seq![
        ("type"@, Json::Text("error"@)),
        ("code"@, Json::Text(code)),
        ("message"@, Json::Text(message)),
    ]);
}

/// The lines of a stream say the direction by the codes of its languages, and
/// the last one what the translation says. Where a single engine was asked for,
/// the whole translation comes before it as one piece.
pub proof fn law_stream_lines(
    source: Lang,
    target: Lang,
    engine: &str,
    first: StreamEvent,
    t: &Translation,
    single: bool,
    closing: Vec<StreamEvent>,
)
    requires
        call_ensures(meta_event, (source, target, engine), first),
        call_ensures(closing_events, (t, single), closing),
    ensures
        ({
            let code = |l: Lang| if l == Lang::Zh { "zh"@ } else { "en"@ };
            let last = EventModel::Result {
                source: code(t.source_lang),
                target: code(t.target_lang),
                engine: t.engine@,
                text: t.text@,
                translation: t.translation@,
            };
            &&& first.deep_view() == (EventModel::Meta {
                source: code(source),
                target: code(target),
                engine: engine@,
            })
            &&& closing.deep_view().last() == last
            &&& single ==> closing.deep_view() == seq![
                EventModel::Delta { text: t.translation@ },
                last,
            ]
            &&& !single ==> closing.deep_view() == seq![last]
        }),
{
}

/// An internal error and an error of an engine end the program with code 2, and
/// a timeout with code 124 and a message that gives its seconds. A translation
/// is handed on. A translation that is empty and that no engine made is the end
/// with code 2 too; one that an engine made is not, though it be empty.
pub proof fn law_exits(
    message: &str,
    x: Exit,
    outcome: Outcome,
    secs: u64,
    r: Result<Translation, Exit>,
    t: &Translation,
    end: Option<Exit>,
)
    requires
        call_ensures(error_exit, (message,), x),
        call_ensures(exit_on_outcome, (outcome, secs), r),
        call_ensures(finish, (t,), end),
    ensures
        x.code == 2,
        x.line@ == event_json(EventModel::Error { code: "internal"@, message: message@ }),
        match outcome {
            Outcome::Translated(t) => r == Ok::<Translation, Exit>(t),
            Outcome::Failed(e) => r is Err && r->Err_0.code == 2 && r->Err_0.line@ == event_json(
                EventModel::Error {
                    code: "engine"@,
                    message: engine::error_text(e.deep_view()),
                },
            ),
            Outcome::TimedOut => r is Err && r->Err_0.code == 124 && r->Err_0.line@ == event_json(
                EventModel::Error {
                    code: "timeout"@,
                    message: "translate timed out after "@ + text::decimal(secs as nat) + "s"@,
                },
            ),
        },
        end is Some <==> t.translation@.len() == 0 && t.engine@.len() == 0,
        end is Some ==> end->0.code == 2 && end->0.line@ == event_json(
            EventModel::Error {
                code: "engine"@,
                message:
                    "all translation engines failed; hint: configure an llm provider (see README)"@,
            },
        ),
{
    assert(t.deep_view().translation == t.translation@);
    assert(t.deep_view().engine == t.engine@);
}

/// The text is the arguments with single spaces between them, whatever stands on
/// the standard input; without arguments it is what stands there, if that was
/// asked for. Where neither is given, or the text is blank, there is an error.
pub proof fn law_given_text(args: TranslateArgs, input: Seq<char>, w: bool)
    requires
        call_ensures(wants_stdin, (&args,), w),
    ensures
        args.text@.len() == 1 ==> given_text(args, input) == Some(args.text@[0]@),
        args.text@.len() == 2 ==> given_text(args, input) == Some(
            args.text@[0]@ + seq![' '] + args.text@[1]@,
        ),
        args.text@.len() == 0 && args.stdin ==> w && given_text(args, input) == Some(input),
        args.text@.len() == 0 && !args.stdin ==> !w && given_text(args, input) is None && collected(
            args,
            input,
        ) == Err::<Seq<char>, Seq<char>>("no text given: pass TEXT arguments or --stdin"@),
        args.text@.len() > 0 ==> !w,
        given_text(args, input) is Some && text::trim(given_text(args, input)->0).len() == 0
            ==> collected(args, input) == Err::<Seq<char>, Seq<char>>(
            "empty text: nothing to translate"@,
        ),
        given_text(args, input) is Some && text::trim(given_text(args, input)->0).len() > 0
            ==> collected(args, input) == Ok::<Seq<char>, Seq<char>>(given_text(args, input)->0),
{
    reveal_strlit(" ");
    assert(" "@ =~= seq![' ']);
    reveal_with_fuel(text::join, 3);
    let l = args.text.deep_view();
    assert(l.len() == args.text@.len());
    if l.len() == 1 {
        assert(l =~= seq![args.text@[0]@]);
    }
    if l.len() == 2 {
        assert(l[0] == args.text@[0]@ && l[1] == args.text@[1]@);
        assert(l.drop_last() =~= seq![args.text@[0]@]);
    }
}

/// Either language is known by its code, and nothing else is. `auto` is the
/// language of the text for the source, and the other one for the target; either
/// can be given by itself.
pub proof fn law_languages(code: Seq<char>, s: Seq<char>, a: Lang, b: Lang)
    ensures
        parsed_lang("en"@) == Ok::<Lang, Seq<char>>(Lang::En),
        parsed_lang("zh"@) == Ok::<Lang, Seq<char>>(Lang::Zh),
        code != "en"@ && code != "zh"@ ==> parsed_lang(code) is Err,
        parsed_lang(wire::lang_code(a)) == Ok::<Lang, Seq<char>>(a),
        spoken_lang("auto"@, s) == Ok::<Lang, Seq<char>>(lang::lang_of(s)),
        spoken_lang(wire::lang_code(a), s) == Ok::<Lang, Seq<char>>(a),
        lang::lang_of(s) == Lang::Zh ==> resolved("auto"@, "auto"@, s) == Ok::<
            (Lang, Lang),
            Seq<char>,
        >((Lang::Zh, Lang::En)),
        lang::lang_of(s) == Lang::En ==> resolved("auto"@, "auto"@, s) == Ok::<
            (Lang, Lang),
            Seq<char>,
        >((Lang::En, Lang::Zh)),
        resolved(wire::lang_code(a), wire::lang_code(b), s) == Ok::<(Lang, Lang), Seq<char>>(
            (a, b),
        ),
        resolved(wire::lang_code(a), "auto"@, s) == Ok::<(Lang, Lang), Seq<char>>(
            (a, if lang::lang_of(s) == Lang::Zh { Lang::En } else { Lang::Zh }),
        ),
        resolved("auto"@, wire::lang_code(b), s) == Ok::<(Lang, Lang), Seq<char>>(
            (lang::lang_of(s), b),
        ),
        code != "en"@ && code != "zh"@ && code != "auto"@ ==> resolved(code, "auto"@, s) is Err
            && resolved("auto"@, code, s) is Err,
{
    reveal_strlit("en");
    reveal_strlit("zh");
    reveal_strlit("auto");
    assert("en"@[0] == 'e' && "zh"@[0] == 'z' && "auto"@[0] == 'a');
    assert("en"@.len() == 2 && "zh"@.len() == 2 && "auto"@.len() == 4);
}

/// What can be asked for by name: four engines, two things to do with the daemon,
/// and two sources of a trigger. Any other name is an error that quotes it.
pub proof fn law_choices(s: Seq<char>)
    ensures
        engine_choice(s) is Ok <==> s == "auto"@ || s == "llm"@ || s == "youdao"@ || s == "bing"@,
        engine_choice(s) is Err ==> engine_choice(s)->Err_0 == "unknown engine "@
            + config::in_quotes(s) + ", expected one of auto/llm/youdao/bing"@,
        s == "start"@ ==> action_for(s) == Ok::<DaemonAction, Seq<char>>(DaemonAction::Start),
        s == "stop"@ ==> action_for(s) == Ok::<DaemonAction, Seq<char>>(DaemonAction::Stop),
        s != "start"@ && s != "stop"@ ==> action_for(s) == Err::<DaemonAction, Seq<char>>(
            "unknown action "@ + config::in_quotes(s) + ", expected start|stop"@,
        ),
        source_choice(s) is Ok <==> s == "selection"@ || s == "clipboard"@,
        source_choice(s) is Err ==> source_choice(s)->Err_0 == "unknown source "@
            + config::in_quotes(s) + ", expected selection|clipboard"@,
{
    reveal_strlit("start");
    reveal_strlit("stop");
    assert("start"@.len() == 5 && "stop"@.len() == 4);
}

/// A line of JSON is printed on several lines, unless it is asked for as it is or
/// is no JSON. A word that was not found ends a lookup with code 1. A blank text
/// cannot be spoken.
pub proof fn law_printing(
    line: Seq<char>,
    pretty: Seq<char>,
    found: bool,
    code: i32,
    s: &str,
    r: Result<(), String>,
)
    requires
        call_ensures(lookup_code, (found,), code),
        call_ensures(speakable, (s,), r),
    ensures
        printed_as(line, Some(pretty), false) == pretty,
        printed_as(line, Some(pretty), true) == line,
        printed_as(line, None, false) == line,
        printed_as(line, None, true) == line,
        found ==> code == 0,
        !found ==> code == 1,
        r is Ok <==> text::trim(s@).len() > 0,
        r is Err ==> r->Err_0@ == "empty text: nothing to speak"@,
{
}

/// The daemon is the program `pardond` in the directory of the command, or in the
/// current one where that has none; its log is `log/pardond.log` below the place
/// for data.
pub proof fn law_daemon_places(exe: Seq<char>, dir: Seq<char>, home: &str, log: String)
    requires
        dir.len() > 0,
        dir.last() != '/',
        call_ensures(daemon_log, (home,), log),
    ensures
        paths::parent_of(exe) == Some(dir) ==> daemon_beside(exe) == dir + "/pardond"@,
        paths::parent_of(exe) is None ==> daemon_beside(exe) == "./pardond"@,
        home@ == dir ==> log@ == dir + "/log/pardond.log"@,
{
    reveal_strlit("pardond");
    reveal_strlit("/pardond");
    reveal_strlit(".");
    reveal_strlit("./pardond");
    reveal_strlit("log");
    reveal_strlit("pardond.log");
    reveal_strlit("/log/pardond.log");
    paths::law_below(dir, "pardond"@);
    paths::law_below("."@, "pardond"@);
    paths::law_below(dir, "log"@);
    assert(dir + seq!['/'] + "pardond"@ =~= dir + "/pardond"@);
    assert("."@.last() == '.');
    assert("."@ + seq!['/'] + "pardond"@ =~= "./pardond"@);
    let at = dir + seq!['/'] + "log"@;
    assert(at.last() == 'g');
    paths::law_below(at, "pardond.log"@);
    assert(at + seq!['/'] + "pardond.log"@ =~= dir + "/log/pardond.log"@);
}

/// Two arguments are the input and the output of a comma-separated import; with
/// `--cedict` or `--ecdict-sqlite` before them, of an import of that kind. Further
/// arguments change nothing, and fewer are no import.
pub proof fn law_import_arguments(a: Seq<char>, b: Seq<char>, more: Seq<Seq<char>>)
    requires
        a != "--cedict"@,
        a != "--ecdict-sqlite"@,
    ensures
        job_for(seq![a, b] + more) == Some(
            JobModel { kind: ImportKind::Csv, input: a, output: b },
        ),
        job_for(seq!["--cedict"@, a, b] + more) == Some(
            JobModel { kind: ImportKind::Cedict, input: a, output: b },
        ),
        job_for(seq!["--ecdict-sqlite"@, a, b] + more) == Some(
            JobModel { kind: ImportKind::Sqlite, input: a, output: b },
        ),
        job_for(Seq::empty()) is None,
        job_for(seq![a]) is None,
        job_for(seq!["--cedict"@, a]) is None,
        job_for(seq!["--ecdict-sqlite"@, a]) is None,
{
    reveal_strlit("--cedict");
    reveal_strlit("--ecdict-sqlite");
    assert("--cedict"@.len() == 8 && "--ecdict-sqlite"@.len() == 15);
    let x = seq![a, b] + more;
    assert(x[0] == a && x[1] == b);
    let y = seq!["--cedict"@, a, b] + more;
    assert(y[0] == "--cedict"@ && y[1] == a && y[2] == b);
    let z = seq!["--ecdict-sqlite"@, a, b] + more;
    assert(z[0] == "--ecdict-sqlite"@ && z[1] == a && z[2] == b);
}

/// What is said of the daemon and of an import names the program, the address and
/// the reason, and the number of entries and the file.
pub proof fn law_messages(
    bin: &str,
    missing: String,
    addr: &str,
    why: &str,
    unreached: String,
    n: u64,
    done: String,
)
    requires
        call_ensures(daemon_missing, (bin,), missing),
        call_ensures(unreachable_daemon, (addr, why), unreached),
        call_ensures(imported, (n, bin), done),
    ensures
        missing@ == "pardond not found at "@ + bin@ + " (install it next to pardon)"@,
        unreached@ == "cannot reach pardond at "@ + addr@ + ": "@ + why@
            + "; is it running? try `pardon daemon start`"@,
        done@ == "imported "@ + text::decimal(n as nat) + " entries into "@ + bin@,
{
}

} // verus!
