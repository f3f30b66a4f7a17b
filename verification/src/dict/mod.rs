//! Dictionary entries and what every dictionary offers.

pub mod cedict;
pub mod ecdict;
pub mod ecdict_query;
pub mod readback;

use crate::text;
use crate::text::Sep;
use vstd::prelude::*;

verus! {

/// One dictionary entry.
#[derive(Debug, Clone, PartialEq)]
pub struct WordCard {
    pub found: bool,
    pub word: String,
    pub phonetic: Option<Phonetic>,
    pub pos: Vec<PosGloss>,
    pub definition: Vec<String>,
    pub exchange: Option<Exchange>,
    pub collins: Option<u8>,
    pub oxford: bool,
    pub tags: Vec<String>,
    pub source: String,
    pub suggestions: Vec<String>,
}

/// Pronunciations of an entry.
#[derive(Debug, Clone, PartialEq)]
pub struct Phonetic {
    pub uk: Option<String>,
    pub us: Option<String>,
}

/// The glosses under one part of speech; `pos` is empty for glosses without one.
#[derive(Debug, Clone, PartialEq)]
pub struct PosGloss {
    pub pos: String,
    pub gloss: Vec<String>,
}

/// The inflected forms of an entry.
#[derive(Debug, Clone, PartialEq)]
pub struct Exchange {
    pub past: Option<String>,
    pub pp: Option<String>,
    pub ing: Option<String>,
    pub third: Option<String>,
    pub comparative: Option<String>,
    pub superlative: Option<String>,
    pub plural: Option<String>,
    pub lemma: Option<String>,
}

/// What a [`WordCard`] says.
#[verifier::ext_equal]
pub struct CardModel {
    pub found: bool,
    pub word: Seq<char>,
    pub phonetic: Option<PhoneticModel>,
    pub pos: Seq<PosModel>,
    pub definition: Seq<Seq<char>>,
    pub exchange: Option<ExchangeModel>,
    pub collins: Option<u8>,
    pub oxford: bool,
    pub tags: Seq<Seq<char>>,
    pub source: Seq<char>,
    pub suggestions: Seq<Seq<char>>,
}

/// What a [`Phonetic`] says.
#[verifier::ext_equal]
pub struct PhoneticModel {
    pub uk: Option<Seq<char>>,
    pub us: Option<Seq<char>>,
}

/// What a [`PosGloss`] says.
#[verifier::ext_equal]
pub struct PosModel {
    pub pos: Seq<char>,
    pub gloss: Seq<Seq<char>>,
}

/// What an [`Exchange`] says.
#[verifier::ext_equal]
pub struct ExchangeModel {
    pub past: Option<Seq<char>>,
    pub pp: Option<Seq<char>>,
    pub ing: Option<Seq<char>>,
    pub third: Option<Seq<char>>,
    pub comparative: Option<Seq<char>>,
    pub superlative: Option<Seq<char>>,
    pub plural: Option<Seq<char>>,
    pub lemma: Option<Seq<char>>,
}

impl DeepView for Phonetic {
    type V = PhoneticModel;

    open spec fn deep_view(&self) -> PhoneticModel {
        PhoneticModel { uk: self.uk.deep_view(), us: self.us.deep_view() }
    }
}

impl DeepView for PosGloss {
    type V = PosModel;

    open spec fn deep_view(&self) -> PosModel {
        PosModel { pos: self.pos@, gloss: self.gloss.deep_view() }
    }
}

impl DeepView for Exchange {
    type V = ExchangeModel;

    open spec fn deep_view(&self) -> ExchangeModel {
        ExchangeModel {
            past: self.past.deep_view(),
            pp: self.pp.deep_view(),
            ing: self.ing.deep_view(),
            third: self.third.deep_view(),
            comparative: self.comparative.deep_view(),
            superlative: self.superlative.deep_view(),
            plural: self.plural.deep_view(),
            lemma: self.lemma.deep_view(),
        }
    }
}

impl DeepView for WordCard {
    type V = CardModel;

    open spec fn deep_view(&self) -> CardModel {
        CardModel {
            found: self.found,
            word: self.word@,
            phonetic: self.phonetic.deep_view(),
            pos: self.pos.deep_view(),
            definition: self.definition.deep_view(),
            exchange: self.exchange.deep_view(),
            collins: self.collins,
            oxford: self.oxford,
            tags: self.tags.deep_view(),
            source: self.source@,
            suggestions: self.suggestions.deep_view(),
        }
    }
}

impl PosGloss {
    /// A copy.
    pub fn copy(&self) -> (r: PosGloss)
        ensures
            r.deep_view() == self.deep_view(),
    {
        PosGloss { pos: text::copy(&self.pos), gloss: text::copy_list(&self.gloss) }
    }
}

impl Exchange {
    /// A copy.
    pub fn copy(&self) -> (r: Exchange)
        ensures
            r.deep_view() == self.deep_view(),
    {
        Exchange {
            past: text::copy_opt(&self.past),
            pp: text::copy_opt(&self.pp),
            ing: text::copy_opt(&self.ing),
            third: text::copy_opt(&self.third),
            comparative: text::copy_opt(&self.comparative),
            superlative: text::copy_opt(&self.superlative),
            plural: text::copy_opt(&self.plural),
            lemma: text::copy_opt(&self.lemma),
        }
    }
}

fn copy_glosses(v: &Vec<PosGloss>) -> (r: Vec<PosGloss>)
    ensures
        r.deep_view() == v.deep_view(),
{
    let mut r: Vec<PosGloss> = Vec::new();
    let mut i: usize = 0;
    while i < v.len()
        invariant
            i <= v@.len(),
            r.deep_view() == v.deep_view().take(i as int),
        decreases v@.len() - i,
    {
        let ghost done = r.deep_view();
        r.push(v[i].copy());
        assert(r.deep_view() =~= done.push(v.deep_view()[i as int]));
        assert(v.deep_view().take(i + 1) =~= v.deep_view().take(i as int).push(
            v.deep_view()[i as int],
        ));
        i += 1;
    }
    assert(v.deep_view().take(i as int) =~= v.deep_view());
    r
}

impl WordCard {
    /// A copy.
    pub fn copy(&self) -> (r: WordCard)
        ensures
            r.deep_view() == self.deep_view(),
    {
        WordCard {
            found: self.found,
            word: text::copy(&self.word),
            phonetic: match &self.phonetic {
                Some(p) => Some(
                    Phonetic { uk: text::copy_opt(&p.uk), us: text::copy_opt(&p.us) },
                ),
                None => None,
            },
            pos: copy_glosses(&self.pos),
            definition: text::copy_list(&self.definition),
            exchange: match &self.exchange {
                Some(e) => Some(e.copy()),
                None => None,
            },
            collins: self.collins,
            oxford: self.oxford,
            tags: text::copy_list(&self.tags),
            source: text::copy(&self.source),
            suggestions: text::copy_list(&self.suggestions),
        }
    }
}

/// A dictionary: exact entries, and near misses for words that it lacks. What it
/// answers may change between two calls.
pub trait DictProvider {
    /// The entry for `word`, if there is one.
    fn lookup(&self, word: &str) -> Option<WordCard>;

    /// Words close to `word`.
    fn suggest(&self, word: &str) -> Vec<String>;
}

// What a dictionary answered

/// What a dictionary answered for a word.
#[derive(Debug, Clone, PartialEq)]
pub struct Answer {
    pub word: String,
    pub entry: Option<WordCard>,
    /// Words close to the word, where they were asked for.
    pub near: Vec<String>,
}

/// What an [`Answer`] says.
#[verifier::ext_equal]
pub struct AnswerModel {
    pub word: Seq<char>,
    pub entry: Option<CardModel>,
    pub near: Seq<Seq<char>>,
}

impl DeepView for Answer {
    type V = AnswerModel;

    open spec fn deep_view(&self) -> AnswerModel {
        AnswerModel {
            word: self.word@,
            entry: self.entry.deep_view(),
            near: self.near.deep_view(),
        }
    }
}

/// Whether `w` was asked for.
pub open spec fn asked(l: Seq<AnswerModel>, w: Seq<char>) -> bool {
    exists|i: int| 0 <= i < l.len() && (#[trigger] l[i]).word == w
}

/// The answer for `w`, the first where there are several; none where it was not
/// asked for.
pub open spec fn answer_in(l: Seq<AnswerModel>, w: Seq<char>) -> Option<AnswerModel>
    decreases l.len(),
{
    if l.len() == 0 {
        None
    } else {
        match answer_in(l.drop_last(), w) {
            Some(a) => Some(a),
            None => if l.last().word == w {
                Some(l.last())
            } else {
                None
            },
        }
    }
}

/// The entry for `w` among the answers.
pub open spec fn entry_in(l: Seq<AnswerModel>, w: Seq<char>) -> Option<CardModel> {
    match answer_in(l, w) {
        Some(a) => a.entry,
        None => None,
    }
}

/// The words close to `w` among the answers.
pub open spec fn near_in(l: Seq<AnswerModel>, w: Seq<char>) -> Seq<Seq<char>> {
    match answer_in(l, w) {
        Some(a) => a.near,
        None => Seq::empty(),
    }
}

proof fn lemma_first_answer_stays(l: Seq<AnswerModel>, w: Seq<char>, n: int)
    requires
        0 <= n <= l.len(),
        answer_in(l.take(n), w) is Some,
    ensures
        answer_in(l, w) == answer_in(l.take(n), w),
    decreases l.len() - n,
{
    if n < l.len() {
        assert(l.take(n + 1).drop_last() =~= l.take(n));
        lemma_first_answer_stays(l, w, n + 1);
    } else {
        assert(l.take(n) =~= l);
    }
}

/// The answer for `w`.
fn find_answer<'a>(l: &'a Vec<Answer>, w: &str) -> (r: Option<&'a Answer>)
    ensures
        match r {
            Some(a) => answer_in(l.deep_view(), w@) == Some(a.deep_view()),
            None => answer_in(l.deep_view(), w@) is None,
        },
{
    let mut i: usize = 0;
    while i < l.len()
        invariant
            i <= l@.len(),
            answer_in(l.deep_view().take(i as int), w@) is None,
        decreases l@.len() - i,
    {
        assert(l.deep_view().take(i + 1).drop_last() =~= l.deep_view().take(i as int));
        if text::same(&l[i].word, w) {
            proof {
                lemma_first_answer_stays(l.deep_view(), w@, i + 1);
            }
            return Some(&l[i]);
        }
        i += 1;
    }
    assert(l.deep_view().take(i as int) =~= l.deep_view());
    None
}

/// Whether there is an entry for `w` among the answers.
pub fn has_entry(l: &Vec<Answer>, w: &str) -> (r: bool)
    ensures
        r == (entry_in(l.deep_view(), w@) is Some),
{
    match find_answer(l, w) {
        Some(a) => a.entry.is_some(),
        None => false,
    }
}

/// The entry for `w` among the answers.
pub fn entry_of(l: &Vec<Answer>, w: &str) -> (r: Option<WordCard>)
    ensures
        r.deep_view() == entry_in(l.deep_view(), w@),
{
    match find_answer(l, w) {
        Some(a) => match &a.entry {
            Some(c) => Some(c.copy()),
            None => None,
        },
        None => None,
    }
}

/// The words close to `w` among the answers.
pub fn near_of(l: &Vec<Answer>, w: &str) -> (r: Vec<String>)
    ensures
        r.deep_view() == near_in(l.deep_view(), w@),
{
    match find_answer(l, w) {
        Some(a) => text::copy_list(&a.near),
        None => {
            let none: Vec<String> = Vec::new();
            assert(none.deep_view() =~= Seq::<Seq<char>>::empty());
            none
        },
    }
}

/// Whether the dictionary `d` gave the answer `a`: its entry is what looking the
/// word up gave, and where there is none and suggestions were wanted, its near
/// words are what `d` suggested.
pub open spec fn answered<D: DictProvider + ?Sized>(d: &D, suggest: bool, a: AnswerModel) -> bool {
    &&& exists|word: &str, entry: Option<WordCard>| #[trigger]
        call_ensures(D::lookup, (d, word), entry) && word@ == a.word && entry.deep_view() == a.entry
    &&& if suggest && a.entry is None {
        exists|word: &str, near: Vec<String>| #[trigger]
            call_ensures(D::suggest, (d, word), near) && word@ == a.word && near.deep_view()
                == a.near
    } else {
        a.near.len() == 0
    }
}

/// Whether the dictionary `d` gave every one of the answers.
pub open spec fn all_answered<D: DictProvider + ?Sized>(
    d: &D,
    suggest: bool,
    l: Seq<AnswerModel>,
) -> bool {
    forall|i: int| 0 <= i < l.len() ==> answered(d, suggest, #[trigger] l[i])
}

/// Asks a dictionary for `word`, and where it has no entry and `suggest` is set,
/// for words close to it.
pub fn ask<D: DictProvider + ?Sized>(d: &D, l: &mut Vec<Answer>, word: &str, suggest: bool)
    ensures
        final(l).deep_view().len() == old(l).deep_view().len() + 1,
        final(l).deep_view().drop_last() == old(l).deep_view(),
        final(l).deep_view().last().word == word@,
        answered(d, suggest, final(l).deep_view().last()),
        all_answered(d, suggest, old(l).deep_view()) ==> all_answered(
            d,
            suggest,
            final(l).deep_view(),
        ),
        asked(final(l).deep_view(), word@),
        forall|w: Seq<char>|
            asked(old(l).deep_view(), w) ==> #[trigger] asked(final(l).deep_view(), w),
{
    let ghost before = l.deep_view();
    let entry = d.lookup(word);
    let near = if suggest && entry.is_none() {
        d.suggest(word)
    } else {
        Vec::new()
    };
    let a = Answer { word: text::copy(word), entry, near };
    let ghost said = a.deep_view();
    assert(answered(d, suggest, said));
    l.push(a);
    assert(l.deep_view() =~= before.push(said));
    assert(l.deep_view().drop_last() =~= before);
    assert(l.deep_view()[before.len() as int].word == word@);
    assert forall|w: Seq<char>| asked(before, w) implies #[trigger] asked(l.deep_view(), w) by {
        let i = choose|i: int| 0 <= i < before.len() && (#[trigger] before[i]).word == w;
        assert(l.deep_view()[i].word == w);
    }
}

// Glosses grouped by part of speech

/// The abbreviations that may open a gloss line, in the order of precedence.
pub open spec fn pos_abbrs() -> Seq<Seq<char>> {
    seq![
        "n."@,
        "v."@,
        "vt."@,
        "vi."@,
        "adj."@,
        "adv."@,
        "art."@,
        "aux.v."@,
        "aux."@,
        "conj."@,
        "prep."@,
        "pron."@,
        "int."@,
        "interj."@,
        "num."@,
        "abbr."@,
    ]
}

/// Whether the `i`-th of `abbrs` is the first to open `line`.
pub open spec fn opens_with(line: Seq<char>, abbrs: Seq<Seq<char>>, i: int) -> bool {
    &&& 0 <= i < abbrs.len()
    &&& text::occurs_at(line, abbrs[i], 0)
    &&& forall|j: int| 0 <= j < i ==> !text::occurs_at(line, #[trigger] abbrs[j], 0)
}

/// The part of speech that opens a line, and the rest of the line.
pub open spec fn pos_and_rest(line: Seq<char>) -> (Seq<char>, Seq<char>) {
    if exists|i: int| opens_with(line, pos_abbrs(), i) {
        let i = choose|i: int| opens_with(line, pos_abbrs(), i);
        (pos_abbrs()[i], text::trim_start(line.skip(pos_abbrs()[i].len() as int)))
    } else {
        (Seq::empty(), line)
    }
}

/// Whether the `i`-th group is the first for `pos`.
pub open spec fn group_at(groups: Seq<PosModel>, pos: Seq<char>, i: int) -> bool {
    &&& 0 <= i < groups.len()
    &&& groups[i].pos == pos
    &&& forall|j: int| 0 <= j < i ==> (#[trigger] groups[j]).pos != pos
}

/// `groups` with one more gloss for `pos`: at the end of its group, or in a new
/// group at the end.
pub open spec fn add_gloss(groups: Seq<PosModel>, pos: Seq<char>, g: Seq<char>) -> Seq<PosModel> {
    if exists|i: int| group_at(groups, pos, i) {
        let i = choose|i: int| group_at(groups, pos, i);
        groups.update(i, PosModel { pos: groups[i].pos, gloss: groups[i].gloss.push(g) })
    } else {
        groups.push(PosModel { pos, gloss: seq![g] })
    }
}

/// `groups` with each of `gs` added for `pos`, in order.
pub open spec fn add_glosses(
    groups: Seq<PosModel>,
    pos: Seq<char>,
    gs: Seq<Seq<char>>,
) -> Seq<PosModel>
    decreases gs.len(),
{
    if gs.len() == 0 {
        groups
    } else {
        add_gloss(add_glosses(groups, pos, gs.drop_last()), pos, gs.last())
    }
}

/// The glosses of a line after its part of speech, parted by semicolons of
/// either width.
pub open spec fn line_glosses(rest: Seq<char>) -> Seq<Seq<char>> {
    text::fields(rest, Sep::Either('；', ';'))
}

/// `groups` with the glosses of one line added.
pub open spec fn add_line(groups: Seq<PosModel>, line: Seq<char>) -> Seq<PosModel> {
    let t = text::trim(line);
    add_glosses(groups, pos_and_rest(t).0, line_glosses(pos_and_rest(t).1))
}

/// The groups of a list of lines.
pub open spec fn group_lines(lines: Seq<Seq<char>>) -> Seq<PosModel>
    decreases lines.len(),
{
    if lines.len() == 0 {
        Seq::empty()
    } else {
        add_line(group_lines(lines.drop_last()), lines.last())
    }
}

/// The groups of a gloss text of many lines.
pub open spec fn grouped(raw: Seq<char>) -> Seq<PosModel> {
    group_lines(text::split(raw, Sep::One('\n')))
}

fn abbrs() -> (r: Vec<&'static str>)
    ensures
        r.deep_view() == pos_abbrs(),
{
    let r: Vec<&'static str> = vec![
        "n.",
        "v.",
        "vt.",
        "vi.",
        "adj.",
        "adv.",
        "art.",
        "aux.v.",
        "aux.",
        "conj.",
        "prep.",
        "pron.",
        "int.",
        "interj.",
        "num.",
        "abbr.",
    ];
    assert(r.deep_view() =~= pos_abbrs());
    r
}

fn split_pos(line: &str) -> (r: (String, String))
    ensures
        (r.0@, r.1@) == pos_and_rest(line@),
{
    let list = abbrs();
    let mut i: usize = 0;
    while i < list.len()
        invariant
            i <= list@.len(),
            list.deep_view() == pos_abbrs(),
            forall|j: int| 0 <= j < i ==> !text::occurs_at(line@, #[trigger] pos_abbrs()[j], 0),
        decreases list@.len() - i,
    {
        let a = list[i];
        assert(a@ == pos_abbrs()[i as int]);
        if text::starts_with(line, a) {
            assert(opens_with(line@, pos_abbrs(), i as int));
            let ghost k = choose|k: int| opens_with(line@, pos_abbrs(), k);
            assert(opens_with(line@, pos_abbrs(), k));
            assert(k == i);
            let v = text::chars_of(line);
            let n = text::chars_of(a).len();
            let rest = text::text_range(&v, n, v.len());
            assert(rest@ =~= line@.skip(a@.len() as int));
            return (text::copy(a), text::trimmed_start(&rest));
        }
        i += 1;
    }
    assert forall|k: int| !opens_with(line@, pos_abbrs(), k) by {}
    (String::new(), text::copy(line))
}

fn push_gloss(out: &mut Vec<PosGloss>, pos: &str, g: &str)
    ensures
        final(out).deep_view() == add_gloss(old(out).deep_view(), pos@, g@),
{
    let mut i: usize = 0;
    let ghost groups = out.deep_view();
    while i < out.len()
        invariant
            i <= out@.len(),
            *out == *old(out),
            groups == out.deep_view(),
            forall|j: int| 0 <= j < i ==> (#[trigger] groups[j]).pos != pos@,
        decreases out@.len() - i,
    {
        assert(groups[i as int].pos == out@[i as int].pos@);
        if text::same(&out[i].pos, pos) {
            assert(group_at(groups, pos@, i as int));
            let ghost k = choose|k: int| group_at(groups, pos@, k);
            assert(group_at(groups, pos@, k) && k == i);
            let ghost before = out@[i as int].gloss.deep_view();
            out[i].gloss.push(text::copy(g));
            assert(out@[i as int].gloss.deep_view() =~= before.push(g@));
            assert(out.deep_view() =~= add_gloss(groups, pos@, g@));
            return ;
        }
        i += 1;
    }
    assert forall|k: int| !group_at(groups, pos@, k) by {}
    let mut gloss: Vec<String> = Vec::new();
    gloss.push(text::copy(g));
    assert(gloss.deep_view() =~= seq![g@]);
    out.push(PosGloss { pos: text::copy(pos), gloss });
    assert(out.deep_view() =~= add_gloss(groups, pos@, g@));
}

/// The glosses of `raw`, grouped by the part of speech that opens their line.
pub fn parse_translation_lines(raw: &str) -> (r: Vec<PosGloss>)
    ensures
        r.deep_view() == grouped(raw@),
{
    let lines = text::split_by(raw, Sep::One('\n'));
    let mut out: Vec<PosGloss> = Vec::new();
    let mut i: usize = 0;
    assert(out.deep_view() =~= group_lines(lines.deep_view().take(0)));
    while i < lines.len()
        invariant
            i <= lines@.len(),
            out.deep_view() == group_lines(lines.deep_view().take(i as int)),
        decreases lines@.len() - i,
    {
        assert(lines.deep_view().take(i + 1).drop_last() =~= lines.deep_view().take(i as int));
        let line = text::trimmed(&lines[i]);
        let (pos, rest) = split_pos(&line);
        let gs = text::fields_of(&rest, Sep::Either('；', ';'));
        let ghost start = out.deep_view();
        let mut j: usize = 0;
        assert(gs.deep_view().take(0) =~= Seq::<Seq<char>>::empty());
        while j < gs.len()
            invariant
                j <= gs@.len(),
                out.deep_view() == add_glosses(start, pos@, gs.deep_view().take(j as int)),
            decreases gs@.len() - j,
        {
            assert(gs.deep_view().take(j + 1).drop_last() =~= gs.deep_view().take(j as int));
            push_gloss(&mut out, &pos, &gs[j]);
            j += 1;
        }
        assert(gs.deep_view().take(j as int) =~= gs.deep_view());
        i += 1;
    }
    assert(lines.deep_view().take(i as int) =~= lines.deep_view());
    out
}

/// What parts two glosses or two lines.
pub open spec fn is_break(c: char) -> bool {
    c == '\n' || c == ';' || c == '；'
}

/// Whether a gloss is whole: trimmed, not empty, and without breaks.
pub open spec fn whole_gloss(g: Seq<char>) -> bool {
    &&& g.len() > 0
    &&& text::is_trimmed(g)
    &&& forall|k: int| 0 <= k < g.len() ==> !is_break(#[trigger] g[k])
}

/// Whether `pos` is a part of speech: one of the abbreviations, or none.
pub open spec fn is_pos(pos: Seq<char>) -> bool {
    pos.len() == 0 || pos_abbrs().contains(pos)
}

/// Whether groups are as a reader expects them: one group for each part of
/// speech, each of them known or none, no group empty, and every gloss whole.
pub open spec fn well_grouped(groups: Seq<PosModel>) -> bool {
    &&& forall|i: int, j: int|
        0 <= i < j < groups.len() ==> (#[trigger] groups[i]).pos != (#[trigger] groups[j]).pos
    &&& forall|i: int|
        0 <= i < groups.len() ==> is_pos((#[trigger] groups[i]).pos) && groups[i].gloss.len() > 0
    &&& forall|i: int, k: int|
        0 <= i < groups.len() && 0 <= k < groups[i].gloss.len() ==> whole_gloss(
            #[trigger] groups[i].gloss[k],
        )
}

proof fn lemma_add_gloss(groups: Seq<PosModel>, pos: Seq<char>, g: Seq<char>)
    requires
        well_grouped(groups),
        is_pos(pos),
        whole_gloss(g),
    ensures
        well_grouped(add_gloss(groups, pos, g)),
{
    let r = add_gloss(groups, pos, g);
    if exists|i: int| group_at(groups, pos, i) {
        let i = choose|i: int| group_at(groups, pos, i);
        assert(group_at(groups, pos, i));
        assert forall|a: int, k: int| 0 <= a < r.len() && 0 <= k < r[a].gloss.len() implies whole_gloss(
            #[trigger] r[a].gloss[k],
        ) by {
            if a != i || k < groups[i].gloss.len() {
                assert(r[a].gloss[k] == groups[a].gloss[k]);
            }
        }
    } else {
        assert forall|a: int| 0 <= a < groups.len() implies (#[trigger] groups[a]).pos != pos by {
            if groups[a].pos == pos {
                lemma_first_group(groups, pos, a);
            }
        }
        assert forall|a: int, k: int| 0 <= a < r.len() && 0 <= k < r[a].gloss.len() implies whole_gloss(
            #[trigger] r[a].gloss[k],
        ) by {
            if a < groups.len() {
                assert(r[a].gloss[k] == groups[a].gloss[k]);
            }
        }
    }
}

proof fn lemma_first_group(groups: Seq<PosModel>, pos: Seq<char>, a: int)
    requires
        0 <= a < groups.len(),
        groups[a].pos == pos,
    ensures
        exists|i: int| group_at(groups, pos, i),
    decreases a,
{
    if forall|j: int| 0 <= j < a ==> (#[trigger] groups[j]).pos != pos {
        assert(group_at(groups, pos, a));
    } else {
        let j = choose|j: int| 0 <= j < a && (#[trigger] groups[j]).pos == pos;
        lemma_first_group(groups, pos, j);
    }
}

proof fn lemma_add_glosses(groups: Seq<PosModel>, pos: Seq<char>, gs: Seq<Seq<char>>)
    requires
        well_grouped(groups),
        is_pos(pos),
        forall|i: int| 0 <= i < gs.len() ==> whole_gloss(#[trigger] gs[i]),
    ensures
        well_grouped(add_glosses(groups, pos, gs)),
    decreases gs.len(),
{
    if gs.len() > 0 {
        assert forall|i: int| 0 <= i < gs.drop_last().len() implies whole_gloss(
            #[trigger] gs.drop_last()[i],
        ) by {
            assert(gs.drop_last()[i] == gs[i]);
        }
        lemma_add_glosses(groups, pos, gs.drop_last());
        assert(whole_gloss(gs[gs.len() - 1]));
        lemma_add_gloss(add_glosses(groups, pos, gs.drop_last()), pos, gs.last());
    }
}

/// The part of speech of a line is an abbreviation or none, and the rest holds
/// nothing but what the line holds.
proof fn lemma_pos_and_rest(line: Seq<char>)
    ensures
        is_pos(pos_and_rest(line).0),
        forall|c: char| #[trigger] pos_and_rest(line).1.contains(c) ==> line.contains(c),
{
    let rest = pos_and_rest(line).1;
    if exists|i: int| opens_with(line, pos_abbrs(), i) {
        let i = choose|i: int| opens_with(line, pos_abbrs(), i);
        assert(opens_with(line, pos_abbrs(), i));
        let after = line.skip(pos_abbrs()[i].len() as int);
        text::lemma_trim_start(after);
        assert forall|c: char| #[trigger] rest.contains(c) implies line.contains(c) by {
            let k = rest.index_of(c);
            assert(rest[k] == after[after.len() - rest.len() + k]);
            assert(line[line.len() - rest.len() + k] == c);
        }
    }
}

/// The glosses of a line without line breaks are whole.
proof fn lemma_line_glosses(line: Seq<char>)
    requires
        !line.contains('\n'),
    ensures
        ({
            let gs = line_glosses(pos_and_rest(text::trim(line)).1);
            forall|k: int| 0 <= k < gs.len() ==> whole_gloss(#[trigger] gs[k])
        }),
{
    let t = text::trim(line);
    let rest = pos_and_rest(t).1;
    let sep = Sep::Either('；', ';');
    let gs = line_glosses(rest);
    text::lemma_trim(line);
    lemma_pos_and_rest(t);
    text::lemma_fields(rest, sep);
    text::lemma_fields_chars(rest, sep);
    assert forall|k: int| 0 <= k < gs.len() implies whole_gloss(#[trigger] gs[k]) by {
        assert forall|m: int| 0 <= m < gs[k].len() implies !is_break(#[trigger] gs[k][m]) by {
            assert(rest.contains(gs[k][m]));
            assert(t.contains(gs[k][m]));
            assert(line.contains(gs[k][m]));
        }
    }
}

proof fn lemma_group_lines(lines: Seq<Seq<char>>)
    requires
        forall|i: int| 0 <= i < lines.len() ==> !(#[trigger] lines[i]).contains('\n'),
    ensures
        well_grouped(group_lines(lines)),
    decreases lines.len(),
{
    if lines.len() > 0 {
        let init = lines.drop_last();
        assert forall|i: int| 0 <= i < init.len() implies !(#[trigger] init[i]).contains('\n') by {
            assert(init[i] == lines[i]);
        }
        lemma_group_lines(init);
        let line = lines[lines.len() - 1];
        lemma_line_glosses(line);
        lemma_pos_and_rest(text::trim(line));
        lemma_add_glosses(
            group_lines(init),
            pos_and_rest(text::trim(line)).0,
            line_glosses(pos_and_rest(text::trim(line)).1),
        );
    }
}

/// The lines of a text hold no line break.
proof fn lemma_lines(raw: Seq<char>)
    ensures
        ({
            let lines = text::split(raw, Sep::One('\n'));
            forall|i: int| 0 <= i < lines.len() ==> !(#[trigger] lines[i]).contains('\n')
        }),
{
    let sep = Sep::One('\n');
    let lines = text::split(raw, sep);
    text::lemma_split(raw, sep);
    assert forall|i: int| 0 <= i < lines.len() implies !(#[trigger] lines[i]).contains('\n') by {
        if lines[i].contains('\n') {
            let j = lines[i].index_of('\n');
            assert(sep.parts(lines[i][j]));
        }
    }
}

/// Whatever the gloss text, each part of speech is known or none and has one
/// group, no group is empty, and every gloss is trimmed, not empty and without
/// separators.
pub proof fn law_translation_is_well_grouped(raw: Seq<char>)
    ensures
        well_grouped(grouped(raw)),
{
    lemma_lines(raw);
    lemma_group_lines(text::split(raw, Sep::One('\n')));
}

/// What counts for a word is the first answer for it; where it was not asked
/// for, there is no entry and there are no close words.
pub proof fn law_first_answer_counts(l: Seq<AnswerModel>, w: Seq<char>, k: int)
    ensures
        0 <= k < l.len() && l[k].word == w && (forall|i: int|
            0 <= i < k ==> (#[trigger] l[i]).word != w) ==> entry_in(l, w) == l[k].entry && near_in(
            l,
            w,
        ) == l[k].near,
        (forall|i: int| 0 <= i < l.len() ==> (#[trigger] l[i]).word != w) ==> entry_in(l, w) is None
            && near_in(l, w).len() == 0,
    decreases l.len(),
{
    if l.len() > 0 {
        let init = l.drop_last();
        if 0 <= k < l.len() && l[k].word == w && (forall|i: int|
            0 <= i < k ==> (#[trigger] l[i]).word != w) {
            assert forall|i: int| 0 <= i < k && i < init.len() implies (#[trigger] init[i]).word
                != w by {
                assert(init[i] == l[i]);
            }
            lemma_answer(init, w, k);
            if k < init.len() {
                assert(init[k] == l[k]);
            } else {
                assert forall|i: int| 0 <= i < init.len() implies (#[trigger] init[i]).word != w by {
                    assert(init[i] == l[i]);
                }
                lemma_no_answer(init, w);
            }
        }
        if forall|i: int| 0 <= i < l.len() ==> (#[trigger] l[i]).word != w {
            lemma_no_answer(l, w);
        }
    }
}

proof fn lemma_no_answer(l: Seq<AnswerModel>, w: Seq<char>)
    requires
        forall|i: int| 0 <= i < l.len() ==> (#[trigger] l[i]).word != w,
    ensures
        answer_in(l, w) is None,
    decreases l.len(),
{
    if l.len() > 0 {
        assert forall|i: int| 0 <= i < l.drop_last().len() implies (#[trigger] l.drop_last()[i]).word
            != w by {
            assert(l.drop_last()[i] == l[i]);
        }
        lemma_no_answer(l.drop_last(), w);
        assert(l[l.len() - 1].word != w);
    }
}

proof fn lemma_answer(l: Seq<AnswerModel>, w: Seq<char>, k: int)
    ensures
        0 <= k < l.len() && l[k].word == w && (forall|i: int|
            0 <= i < k ==> (#[trigger] l[i]).word != w) ==> answer_in(l, w) == Some(l[k]),
    decreases l.len(),
{
    if 0 <= k < l.len() && l[k].word == w && (forall|i: int|
        0 <= i < k ==> (#[trigger] l[i]).word != w) {
        let init = l.drop_last();
        assert forall|i: int| 0 <= i < k && i < init.len() implies (#[trigger] init[i]).word != w by {
            assert(init[i] == l[i]);
        }
        if k < init.len() {
            assert(init[k] == l[k]);
            lemma_answer(init, w, k);
        } else {
            lemma_no_answer(init, w);
        }
    }
}

/// A line that begins with a part of speech adds its glosses to that group, and
/// a line without one to the group that has none; glosses are parted by
/// semicolons of either width. Stated for one line: the group that it makes.
pub proof fn law_one_line(pos: Seq<char>, glosses: Seq<Seq<char>>, wide: bool)
    requires
        pos_abbrs().contains(pos) || pos.len() == 0,
        glosses.len() > 0,
        forall|i: int| 0 <= i < glosses.len() ==> whole_gloss(#[trigger] glosses[i]),
        pos.len() == 0 ==> readback::unmarked(glosses[0]),
    ensures
        ({
            let sep = if wide {
                '；'
            } else {
                ';'
            };
            let rest = text::join(glosses, seq![sep]);
            let line = if pos.len() == 0 {
                rest
            } else {
                pos + seq![' '] + rest
            };
            grouped(line) == seq![PosModel { pos, gloss: glosses }]
        }),
{
    readback::lemma_one_line(pos, glosses, wide);
}

/// The abbreviations of the parts of speech.
pub proof fn law_parts_of_speech(pos: Seq<char>)
    ensures
        pos_abbrs().contains(pos) <==> pos == "n."@ || pos == "v."@ || pos == "vt."@ || pos == "vi."@
            || pos == "adj."@ || pos == "adv."@ || pos == "art."@ || pos == "aux.v."@ || pos
            == "aux."@ || pos == "conj."@ || pos == "prep."@ || pos == "pron."@ || pos == "int."@
            || pos == "interj."@ || pos == "num."@ || pos == "abbr."@,
{
    let l = pos_abbrs();
    assert(l[0] == "n."@ && l[1] == "v."@ && l[2] == "vt."@ && l[3] == "vi."@);
    assert(l[4] == "adj."@ && l[5] == "adv."@ && l[6] == "art."@ && l[7] == "aux.v."@);
    assert(l[8] == "aux."@ && l[9] == "conj."@ && l[10] == "prep."@ && l[11] == "pron."@);
    assert(l[12] == "int."@ && l[13] == "interj."@ && l[14] == "num."@ && l[15] == "abbr."@);
    assert(l.len() == 16);
}

} // verus!
