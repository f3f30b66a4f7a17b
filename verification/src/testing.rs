//! Stand-ins for a translator, a desktop and a clipboard, that answer as they
//! were told to and remember what they were asked.

use crate::dict::{CardModel, PosGloss, PosModel, WordCard};
use crate::lang::Lang;
use crate::pipeline::{Translation, TranslationModel};
use crate::text;
use vstd::prelude::*;

verus! {

/// How a stand-in makes a translation of a text.
pub trait Mapper {
    /// The translation of a text.
    spec fn maps(&self, t: Seq<char>) -> TranslationModel;

    fn map(&self, t: &str) -> (r: Translation)
        ensures
            r.deep_view() == self.maps(t@),
    ;
}

/// The same translation, from the same engine, for every text.
#[derive(Debug, Clone, PartialEq)]
pub struct Always {
    pub translation: String,
    pub engine: String,
}

impl Mapper for Always {
    open spec fn maps(&self, t: Seq<char>) -> TranslationModel {
        sentence_model(t, self.translation@, self.engine@)
    }

    fn map(&self, t: &str) -> (r: Translation) {
        FakeTranslator::sentence(t, &self.translation, &self.engine)
    }
}

/// An English text in Chinese.
pub open spec fn sentence_model(
    t: Seq<char>,
    translation: Seq<char>,
    engine: Seq<char>,
) -> TranslationModel {
    TranslationModel { source_lang: Lang::En, target_lang: Lang::Zh, text: t, translation, engine }
}

/// A translator that answers by a mapper, or else from a table, or else with a
/// standard translation.
pub struct FakeTranslator<M: Mapper = Always> {
    pub results: Vec<(String, Translation)>,
    /// The card of every word, but for the word.
    pub lookup_card: WordCard,
    /// How long a translation is to take.
    pub delay_ms: u64,
    /// What was translated.
    pub calls: Vec<String>,
    /// What was looked up.
    pub lookups: Vec<String>,
    pub mapper: Option<M>,
}

/// What the table says of a text: its first entry for it.
pub open spec fn in_table(results: Seq<(String, Translation)>, t: Seq<char>) -> Option<
    TranslationModel,
>
    decreases results.len(),
{
    if results.len() == 0 {
        None
    } else {
        match in_table(results.drop_last(), t) {
            Some(m) => Some(m),
            None => if results.last().0@ == t {
                Some(results.last().1.deep_view())
            } else {
                None
            },
        }
    }
}

/// A card that says that there is no entry.
pub open spec fn blank_card() -> CardModel {
    CardModel {
        found: false,
        word: Seq::empty(),
        phonetic: None,
        pos: Seq::empty(),
        definition: Seq::empty(),
        exchange: None,
        collins: None,
        oxford: false,
        tags: Seq::empty(),
        source: "ecdict"@,
        suggestions: Seq::empty(),
    }
}

fn no_card() -> (r: WordCard)
    ensures
        r.deep_view() == blank_card(),
{
    let none: Vec<String> = Vec::new();
    assert(none.deep_view() =~= Seq::<Seq<char>>::empty());
    let pos: Vec<PosGloss> = Vec::new();
    assert(pos.deep_view() =~= Seq::<PosModel>::empty());
    let word = String::new();
    assert(word@ =~= Seq::<char>::empty());
    WordCard {
        found: false,
        word,
        phonetic: None,
        pos,
        definition: text::copy_list(&none),
        exchange: None,
        collins: None,
        oxford: false,
        tags: text::copy_list(&none),
        source: text::copy("ecdict"),
        suggestions: none,
    }
}

impl FakeTranslator<Always> {
    /// A translator with nothing in its table.
    pub fn new() -> (r: FakeTranslator<Always>)
        ensures
            r.results@ == Seq::<(String, Translation)>::empty(),
            r.lookup_card.deep_view() == blank_card(),
            r.delay_ms == 0,
            r.calls.deep_view() == Seq::<Seq<char>>::empty(),
            r.lookups.deep_view() == Seq::<Seq<char>>::empty(),
            r.mapper is None,
    {
        Self::with_map(Vec::new())
    }

    /// A translator with this table.
    pub fn with_map(map: Vec<(String, Translation)>) -> (r: FakeTranslator<Always>)
        ensures
            r.results == map,
            r.lookup_card.deep_view() == blank_card(),
            r.delay_ms == 0,
            r.calls.deep_view() == Seq::<Seq<char>>::empty(),
            r.lookups.deep_view() == Seq::<Seq<char>>::empty(),
            r.mapper is None,
    {
        let none: Vec<String> = Vec::new();
        assert(none.deep_view() =~= Seq::<Seq<char>>::empty());
        FakeTranslator {
            results: map,
            lookup_card: no_card(),
            delay_ms: 0,
            calls: text::copy_list(&none),
            lookups: none,
            mapper: None,
        }
    }

    /// An English text in Chinese.
    pub fn sentence(t: &str, translation: &str, engine: &str) -> (r: Translation)
        ensures
            r.deep_view() == sentence_model(t@, translation@, engine@),
    {
        Translation {
            source_lang: Lang::En,
            target_lang: Lang::Zh,
            text: text::copy(t),
            translation: text::copy(translation),
            engine: text::copy(engine),
        }
    }
}

impl<M: Mapper> FakeTranslator<M> {
    /// A translator that takes its time, and answers by a mapper.
    pub fn delayed(delay_ms: u64, mapper: M) -> (r: FakeTranslator<M>)
        ensures
            r.results@ == Seq::<(String, Translation)>::empty(),
            r.lookup_card.deep_view() == blank_card(),
            r.delay_ms == delay_ms,
            r.calls.deep_view() == Seq::<Seq<char>>::empty(),
            r.lookups.deep_view() == Seq::<Seq<char>>::empty(),
            r.mapper == Some(mapper),
    {
        let none: Vec<String> = Vec::new();
        assert(none.deep_view() =~= Seq::<Seq<char>>::empty());
        FakeTranslator {
            results: Vec::new(),
            lookup_card: no_card(),
            delay_ms,
            calls: text::copy_list(&none),
            lookups: none,
            mapper: Some(mapper),
        }
    }

    /// What is answered to a text.
    pub open spec fn answer(&self, t: Seq<char>) -> TranslationModel {
        match self.mapper {
            Some(m) => m.maps(t),
            None => match in_table(self.results@, t) {
                Some(found) => found,
                None => sentence_model(t, "（译文）"@, "glm"@),
            },
        }
    }

    fn from_table(&self, t: &str) -> (r: Option<Translation>)
        ensures
            r.deep_view() == in_table(self.results@, t@),
    {
        let mut i: usize = 0;
        while i < self.results.len()
            invariant
                i <= self.results@.len(),
                in_table(self.results@.take(i as int), t@) is None,
            decreases self.results@.len() - i,
        {
            let ghost s = self.results@;
            assert(s.take(i + 1).drop_last() =~= s.take(i as int));
            if text::same(&self.results[i].0, t) {
                proof {
                    lemma_first_stays(s, t@, i + 1);
                }
                return Some(self.results[i].1.copy());
            }
            i += 1;
        }
        assert(self.results@.take(i as int) =~= self.results@);
        None
    }

    /// Translates a text, and remembers it.
    pub fn translate(&mut self, t: &str) -> (r: Translation)
        ensures
            r.deep_view() == old(self).answer(t@),
            final(self).calls.deep_view() == old(self).calls.deep_view().push(t@),
            final(self).results == old(self).results,
            final(self).lookup_card == old(self).lookup_card,
            final(self).delay_ms == old(self).delay_ms,
            final(self).lookups == old(self).lookups,
            final(self).mapper == old(self).mapper,
    {
        let ghost before = self.calls.deep_view();
        self.calls.push(text::copy(t));
        assert(self.calls.deep_view() =~= before.push(t@));
        match &self.mapper {
            Some(m) => m.map(t),
            None => match self.from_table(t) {
                Some(found) => found,
                None => FakeTranslator::sentence(t, "（译文）", "glm"),
            },
        }
    }

    /// Looks a word up, and remembers it.
    pub fn lookup(&mut self, word: &str) -> (r: WordCard)
        ensures
            r.deep_view() == (CardModel { word: word@, ..old(self).lookup_card.deep_view() }),
            final(self).lookups.deep_view() == old(self).lookups.deep_view().push(word@),
            final(self).results == old(self).results,
            final(self).lookup_card == old(self).lookup_card,
            final(self).delay_ms == old(self).delay_ms,
            final(self).calls == old(self).calls,
            final(self).mapper == old(self).mapper,
    {
        let ghost before = self.lookups.deep_view();
        self.lookups.push(text::copy(word));
        assert(self.lookups.deep_view() =~= before.push(word@));
        let mut card = self.lookup_card.copy();
        card.word = text::copy(word);
        card
    }
}

proof fn lemma_first_stays(s: Seq<(String, Translation)>, t: Seq<char>, n: int)
    requires
        0 <= n <= s.len(),
        in_table(s.take(n), t) is Some,
    ensures
        in_table(s, t) == in_table(s.take(n), t),
    decreases s.len() - n,
{
    if n < s.len() {
        assert(s.take(n + 1).drop_last() =~= s.take(n));
        lemma_first_stays(s, t, n + 1);
    } else {
        assert(s.take(n) =~= s);
    }
}

/// A desktop that remembers its notifications, or shows none.
pub struct FakeNotifier {
    /// The summary and the body of each notification.
    pub sent: Vec<(String, String)>,
    /// Whether it shows none.
    pub fail: bool,
}

impl Default for FakeNotifier {
    fn default() -> (r: FakeNotifier)
        ensures
            r.sent@ == Seq::<(String, String)>::empty(),
            !r.fail,
    {
        FakeNotifier { sent: Vec::new(), fail: false }
    }
}

impl FakeNotifier {
    /// Shows a notification, unless it shows none.
    pub fn notify(&mut self, summary: &str, body: &str) -> (r: Result<(), String>)
        ensures
            final(self).fail == old(self).fail,
            match r {
                Ok(_) => !old(self).fail && final(self).sent@.drop_last() == old(self).sent@
                    && final(self).sent@.len() == old(self).sent@.len() + 1
                    && final(self).sent@.last().0@ == summary@
                    && final(self).sent@.last().1@ == body@,
                Err(why) => old(self).fail && final(self).sent == old(self).sent && why@
                    == "no notification daemon"@,
            },
    {
        if self.fail {
            return Err(text::copy("no notification daemon"));
        }
        let ghost before = self.sent@;
        self.sent.push((text::copy(summary), text::copy(body)));
        assert(self.sent@.drop_last() =~= before);
        Ok(())
    }
}

/// A clipboard that gives what it was told to give, and remembers what was
/// written to it.
pub struct FakeClipboard {
    pub written: Vec<String>,
    /// The selection, or why it cannot be read.
    pub primary_result: Result<String, String>,
    /// The clipboard, or why it cannot be read.
    pub clipboard_result: Result<String, String>,
}

impl Default for FakeClipboard {
    fn default() -> (r: FakeClipboard)
        ensures
            r.written@ == Seq::<String>::empty(),
            r.primary_result is Ok && r.primary_result->Ok_0@ == Seq::<char>::empty(),
            r.clipboard_result is Ok && r.clipboard_result->Ok_0@ == Seq::<char>::empty(),
    {
        let a = String::new();
        let b = String::new();
        assert(a@ =~= Seq::<char>::empty());
        assert(b@ =~= Seq::<char>::empty());
        FakeClipboard { written: Vec::new(), primary_result: Ok(a), clipboard_result: Ok(b) }
    }
}

/// Whether two results say the same.
pub open spec fn same_result(a: Result<String, String>, b: Result<String, String>) -> bool {
    match (a, b) {
        (Ok(x), Ok(y)) => x@ == y@,
        (Err(x), Err(y)) => x@ == y@,
        _ => false,
    }
}

fn copy_result(a: &Result<String, String>) -> (r: Result<String, String>)
    ensures
        same_result(*a, r),
{
    match a {
        Ok(s) => Ok(text::copy(s)),
        Err(e) => Err(text::copy(e)),
    }
}

impl FakeClipboard {
    /// The clipboard, or why it cannot be read.
    pub fn read_clipboard(&self) -> (r: Result<String, String>)
        ensures
            same_result(self.clipboard_result, r),
    {
        copy_result(&self.clipboard_result)
    }

    /// The selection, or why it cannot be read.
    pub fn read_primary(&self) -> (r: Result<String, String>)
        ensures
            same_result(self.primary_result, r),
    {
        copy_result(&self.primary_result)
    }

    /// Writes a text.
    pub fn write_clipboard(&mut self, t: &str)
        ensures
            final(self).written.deep_view() == old(self).written.deep_view().push(t@),
            final(self).primary_result == old(self).primary_result,
            final(self).clipboard_result == old(self).clipboard_result,
    {
        let ghost before = self.written.deep_view();
        self.written.push(text::copy(t));
        assert(self.written.deep_view() =~= before.push(t@));
    }
}

/// A table answers a text with the first entry that it has for it; a text that it
/// lacks counts as English and has a standard Chinese answer.
pub proof fn law_answers(
    f: FakeTranslator<Always>,
    s: Seq<(String, Translation)>,
    e: (String, Translation),
    t: Seq<char>,
)
    ensures
        f.mapper is None && in_table(f.results@, t) is None ==> f.answer(t) == (TranslationModel {
            source_lang: Lang::En,
            target_lang: Lang::Zh,
            text: t,
            translation: "（译文）"@,
            engine: "glm"@,
        }),
        f.mapper is None && in_table(f.results@, t) is Some ==> f.answer(t) == in_table(
            f.results@,
            t,
        )->0,
        in_table(Seq::empty(), t) is None,
        in_table(s, t) is Some ==> in_table(s.push(e), t) == in_table(s, t),
        in_table(s, t) is None && e.0@ == t ==> in_table(s.push(e), t) == Some(e.1.deep_view()),
        in_table(s, t) is None && e.0@ != t ==> in_table(s.push(e), t) is None,
        !blank_card().found,
        blank_card().source == "ecdict"@,
        blank_card().pos.len() == 0,
{
    assert(s.push(e).drop_last() =~= s);
}

} // verus!
