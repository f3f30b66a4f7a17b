//! What the library says to other programs, as JSON on a single line.

use crate::dict::{CardModel, Exchange, ExchangeModel, Phonetic, PhoneticModel, PosGloss, PosModel};
use crate::dict::WordCard;
use crate::history::{EntryModel, HistoryEntry};
use crate::json;
use crate::json::Fields;
use crate::lang::Lang;
use crate::pipeline::{Translation, TranslationModel};
use crate::reading;
use crate::reading::Json;
use crate::text;
use vstd::prelude::*;

verus! {

/// The code of a language.
pub open spec fn lang_code(l: Lang) -> Seq<char> {
    match l {
        Lang::En => "en"@,
        Lang::Zh => "zh"@,
    }
}

/// The code of a language.
pub fn lang_str(lang: Lang) -> (r: &'static str)
    ensures
        r@ == lang_code(lang),
{
    match lang {
        Lang::En => "en",
        Lang::Zh => "zh",
    }
}

// Cards

/// The pronunciations; those that are missing are left out.
pub open spec fn phonetic_json(p: PhoneticModel) -> Seq<char> {
    json::object(
        Seq::empty() + json::some_field("uk"@, json::quoted_opt(p.uk)) + json::some_field(
            "us"@,
            json::quoted_opt(p.us),
        ),
    )
}

/// A group of glosses; an empty list is left out.
pub open spec fn gloss_json(g: PosModel) -> Seq<char> {
    json::object(
        Seq::empty() + seq![json::field("pos"@, json::quoted(g.pos))] + json::list_field(
            "gloss"@,
            json::quoted_each(g.gloss),
        ),
    )
}

/// The inflected forms; those that are missing are left out.
pub open spec fn exchange_json(e: ExchangeModel) -> Seq<char> {
    json::object(
        Seq::empty() + json::some_field("past"@, json::quoted_opt(e.past)) + json::some_field(
            "pp"@,
            json::quoted_opt(e.pp),
        ) + json::some_field("ing"@, json::quoted_opt(e.ing)) + json::some_field(
            "third"@,
            json::quoted_opt(e.third),
        ) + json::some_field("comparative"@, json::quoted_opt(e.comparative)) + json::some_field(
            "superlative"@,
            json::quoted_opt(e.superlative),
        ) + json::some_field("plural"@, json::quoted_opt(e.plural)) + json::some_field(
            "lemma"@,
            json::quoted_opt(e.lemma),
        ),
    )
}

/// The pronunciations, where there are any.
pub open spec fn phonetic_opt(p: Option<PhoneticModel>) -> Option<Seq<char>> {
    match p {
        Some(p) => Some(phonetic_json(p)),
        None => None,
    }
}

/// The inflected forms, where there are any.
pub open spec fn exchange_opt(e: Option<ExchangeModel>) -> Option<Seq<char>> {
    match e {
        Some(e) => Some(exchange_json(e)),
        None => None,
    }
}

/// The rating, where there is one.
pub open spec fn collins_opt(c: Option<u8>) -> Option<Seq<char>> {
    match c {
        Some(n) => Some(text::decimal(n as nat)),
        None => None,
    }
}

/// A card. What it lacks is left out.
pub open spec fn card_json(c: CardModel) -> Seq<char> {
    json::object(
        Seq::empty() + seq![json::field("found"@, json::bool_text(c.found))] + seq![
            json::field("word"@, json::quoted(c.word)),
        ] + json::some_field("phonetic"@, phonetic_opt(c.phonetic)) + json::list_field(
            "pos"@,
            c.pos.map_values(|g: PosModel| gloss_json(g)),
        ) + json::list_field("definition"@, json::quoted_each(c.definition)) + json::some_field(
            "exchange"@,
            exchange_opt(c.exchange),
        ) + json::some_field("collins"@, collins_opt(c.collins)) + seq![
            json::field("oxford"@, json::bool_text(c.oxford)),
        ] + json::list_field("tags"@, json::quoted_each(c.tags)) + seq![
            json::field("source"@, json::quoted(c.source)),
        ] + json::list_field("suggestions"@, json::quoted_each(c.suggestions)),
    )
}

fn phonetic_text(p: &Phonetic) -> (r: String)
    ensures
        r@ == phonetic_json(p.deep_view()),
{
    let mut f = Fields::new();
    f.put_opt("uk", &p.uk);
    f.put_opt("us", &p.us);
    f.finish()
}

fn gloss_text(g: &PosGloss) -> (r: String)
    ensures
        r@ == gloss_json(g.deep_view()),
{
    let mut f = Fields::new();
    f.put_text("pos", &g.pos);
    f.put_list("gloss", &json::quote_each(&g.gloss));
    f.finish()
}

/// The inflected forms as JSON, as a dictionary stores them.
pub fn exchange_line(e: &Exchange) -> (r: String)
    ensures
        r@ == exchange_json(e.deep_view()),
{
    let mut f = Fields::new();
    f.put_opt("past", &e.past);
    f.put_opt("pp", &e.pp);
    f.put_opt("ing", &e.ing);
    f.put_opt("third", &e.third);
    f.put_opt("comparative", &e.comparative);
    f.put_opt("superlative", &e.superlative);
    f.put_opt("plural", &e.plural);
    f.put_opt("lemma", &e.lemma);
    f.finish()
}

fn glosses_text(pos: &Vec<PosGloss>) -> (r: Vec<String>)
    ensures
        r.deep_view() == pos.deep_view().map_values(|g: PosModel| gloss_json(g)),
{
    let ghost want = pos.deep_view().map_values(|g: PosModel| gloss_json(g));
    let mut r: Vec<String> = Vec::new();
    let mut i: usize = 0;
    while i < pos.len()
        invariant
            i <= pos@.len(),
            want == pos.deep_view().map_values(|g: PosModel| gloss_json(g)),
            r.deep_view() == want.take(i as int),
        decreases pos@.len() - i,
    {
        let ghost before = r.deep_view();
        r.push(gloss_text(&pos[i]));
        assert(r.deep_view() =~= before.push(want[i as int]));
        assert(want.take(i + 1) =~= before.push(want[i as int]));
        i += 1;
    }
    assert(want.take(i as int) =~= want);
    r
}

/// The glosses of a card as JSON, as a dictionary stores them.
pub fn pos_line(pos: &Vec<PosGloss>) -> (r: String)
    ensures
        r@ == json::array(pos.deep_view().map_values(|g: PosModel| gloss_json(g))),
{
    json::array_of(&glosses_text(pos))
}

fn put_json(f: &mut Fields, name: &str, value: Option<String>)
    ensures
        final(f)@ == old(f)@ + json::some_field(name@, value.deep_view()),
{
    match value {
        Some(v) => f.put(name, &v),
        None => {
            assert(f@ + Seq::<Seq<char>>::empty() =~= f@);
        },
    }
}

/// A card as JSON.
pub fn card_line(c: &WordCard) -> (r: String)
    ensures
        r@ == card_json(c.deep_view()),
{
    let phonetic: Option<String> = match &c.phonetic {
        Some(p) => Some(phonetic_text(p)),
        None => None,
    };
    let exchange: Option<String> = match &c.exchange {
        Some(e) => Some(exchange_line(e)),
        None => None,
    };
    let collins: Option<String> = match c.collins {
        Some(n) => Some(text::decimal_text(n as u128)),
        None => None,
    };
    let mut f = Fields::new();
    f.put_bool("found", c.found);
    f.put_text("word", &c.word);
    put_json(&mut f, "phonetic", phonetic);
    f.put_list("pos", &glosses_text(&c.pos));
    f.put_list("definition", &json::quote_each(&c.definition));
    put_json(&mut f, "exchange", exchange);
    put_json(&mut f, "collins", collins);
    f.put_bool("oxford", c.oxford);
    f.put_list("tags", &json::quote_each(&c.tags));
    f.put_text("source", &c.source);
    f.put_list("suggestions", &json::quote_each(&c.suggestions));
    f.finish()
}

// Translations and history

/// A translation.
pub open spec fn translation_json(t: TranslationModel) -> Seq<char> {
    json::object(
        Seq::empty() + seq![json::field("source_lang"@, json::quoted(lang_code(t.source_lang)))]
            + seq![json::field("target_lang"@, json::quoted(lang_code(t.target_lang)))] + seq![
            json::field("text"@, json::quoted(t.text)),
        ] + seq![json::field("translation"@, json::quoted(t.translation))] + seq![
            json::field("engine"@, json::quoted(t.engine)),
        ],
    )
}

/// A translation as JSON.
pub fn translation_line(t: &Translation) -> (r: String)
    ensures
        r@ == translation_json(t.deep_view()),
{
    let mut f = Fields::new();
    f.put_text("source_lang", lang_str(t.source_lang));
    f.put_text("target_lang", lang_str(t.target_lang));
    f.put_text("text", &t.text);
    f.put_text("translation", &t.translation);
    f.put_text("engine", &t.engine);
    f.finish()
}

/// An entry of the history.
pub open spec fn entry_json(e: EntryModel) -> Seq<char> {
    json::object(
        Seq::empty() + seq![json::field("ts_ms"@, text::signed_decimal(e.ts_ms as int))] + seq![
            json::field("text"@, json::quoted(e.text)),
        ] + seq![json::field("translation"@, json::quoted(e.translation))] + seq![
            json::field("engine"@, json::quoted(e.engine)),
        ] + seq![json::field("origin"@, json::quoted(e.origin))],
    )
}

/// Entries of the history.
pub open spec fn history_json(l: Seq<EntryModel>) -> Seq<char> {
    json::array(l.map_values(|e: EntryModel| entry_json(e)))
}

fn entry_text(e: &HistoryEntry) -> (r: String)
    ensures
        r@ == entry_json(e.deep_view()),
{
    let mut f = Fields::new();
    f.put("ts_ms", &text::signed_text(e.ts_ms));
    f.put_text("text", &e.text);
    f.put_text("translation", &e.translation);
    f.put_text("engine", &e.engine);
    f.put_text("origin", &e.origin);
    f.finish()
}

/// Entries of the history as JSON.
pub fn history_line(l: &Vec<HistoryEntry>) -> (r: String)
    ensures
        r@ == history_json(l.deep_view()),
{
    let ghost want = l.deep_view().map_values(|e: EntryModel| entry_json(e));
    let mut items: Vec<String> = Vec::new();
    let mut i: usize = 0;
    while i < l.len()
        invariant
            i <= l@.len(),
            want == l.deep_view().map_values(|e: EntryModel| entry_json(e)),
            items.deep_view() == want.take(i as int),
        decreases l@.len() - i,
    {
        let ghost before = items.deep_view();
        items.push(entry_text(&l[i]));
        assert(items.deep_view() =~= before.push(want[i as int]));
        assert(want.take(i + 1) =~= before.push(want[i as int]));
        i += 1;
    }
    assert(want.take(i as int) =~= want);
    json::array_of(&items)
}

// Single lines

/// A card is one line, whatever its texts hold.
pub proof fn law_card_is_one_line(c: CardModel)
    ensures
        json::one_line(card_json(c)),
{
    broadcast use json::group_one_line;

    match c.phonetic {
        Some(p) => {
            assert(json::one_line(phonetic_json(p)));
        },
        None => {},
    }
    match c.exchange {
        Some(e) => {
            assert(json::one_line(exchange_json(e)));
        },
        None => {},
    }
    let groups = c.pos.map_values(|g: PosModel| gloss_json(g));
    assert forall|i: int| 0 <= i < groups.len() implies json::one_line(#[trigger] groups[i]) by {
        assert(json::one_line(gloss_json(c.pos[i])));
    }
    assert(json::one_line_each(groups));
    assert(json::one_line_each(json::some_field("phonetic"@, phonetic_opt(c.phonetic))));
    assert(json::one_line_each(json::some_field("exchange"@, exchange_opt(c.exchange))));
    assert(json::one_line_each(json::some_field("collins"@, collins_opt(c.collins))));
}

/// A translation is one line, whatever its texts hold.
pub proof fn law_translation_is_one_line(t: TranslationModel)
    ensures
        json::one_line(translation_json(t)),
{
    broadcast use json::group_one_line;

}

proof fn lemma_signed_is_one_line(n: int)
    ensures
        json::one_line(text::signed_decimal(n)),
{
    if n < 0 {
        json::lemma_decimal_is_one_line((-n) as nat);
        json::lemma_one_line_cat(seq!['-'], text::decimal((-n) as nat));
    } else {
        json::lemma_decimal_is_one_line(n as nat);
    }
}

/// The history is one line, whatever its texts hold.
pub proof fn law_history_is_one_line(l: Seq<EntryModel>)
    ensures
        json::one_line(history_json(l)),
{
    broadcast use json::group_one_line;

    let items = l.map_values(|e: EntryModel| entry_json(e));
    assert forall|i: int| 0 <= i < items.len() implies json::one_line(#[trigger] items[i]) by {
        lemma_signed_is_one_line(l[i].ts_ms as int);
        assert(json::one_line(entry_json(l[i])));
    }
    assert(json::one_line_each(items));
}

// What is read back

/// The codes of the two languages.
pub proof fn law_codes()
    ensures
        lang_code(Lang::En) == seq!['e', 'n'],
        lang_code(Lang::Zh) == seq!['z', 'h'],
{
    reveal_strlit("en");
    reveal_strlit("zh");
    assert("en"@ =~= seq!['e', 'n']);
    assert("zh"@ =~= seq!['z', 'h']);
}

/// A reader of JSON finds in a translation its five texts, the languages as
/// their codes.
pub proof fn law_translation_reads(t: TranslationModel)
    ensures
        ({
            let code = |l: Lang| if l == Lang::Zh { seq!['z', 'h'] } else { seq!['e', 'n'] };
            reading::means(
                translation_json(t),
                Json::Object(
                    seq![
                        ("source_lang"@, Json::Text(code(t.source_lang))),
                        ("target_lang"@, Json::Text(code(t.target_lang))),
                        ("text"@, Json::Text(t.text)),
                        ("translation"@, Json::Text(t.translation)),
                        ("engine"@, Json::Text(t.engine)),
                    ],
                ),
            )
        }),
        reading::means(translation_json(t), reading::read(translation_json(t))->0),
        reading::read(translation_json(t)) is Some,
{
    broadcast use reading::lemma_more_members;

    law_codes();
    reading::lemma_no_members();
    reading::lemma_text_member("source_lang"@, lang_code(t.source_lang));
    reading::lemma_text_member("target_lang"@, lang_code(t.target_lang));
    reading::lemma_text_member("text"@, t.text);
    reading::lemma_text_member("translation"@, t.translation);
    reading::lemma_text_member("engine"@, t.engine);
    let all_fields = Seq::empty()
        + seq![json::field("source_lang"@, json::quoted(lang_code(t.source_lang)))]
        + seq![json::field("target_lang"@, json::quoted(lang_code(t.target_lang)))]
        + seq![json::field("text"@, json::quoted(t.text))]
        + seq![json::field("translation"@, json::quoted(t.translation))]
        + seq![json::field("engine"@, json::quoted(t.engine))];
    let all_members = Seq::<(Seq<char>, Json)>::empty()
        + seq![("source_lang"@, Json::Text(lang_code(t.source_lang)))]
        + seq![("target_lang"@, Json::Text(lang_code(t.target_lang)))]
        + seq![("text"@, Json::Text(t.text))]
        + seq![("translation"@, Json::Text(t.translation))]
        + seq![("engine"@, Json::Text(t.engine))];
    assert(reading::members_mean(all_fields, all_members));
    reading::lemma_object(all_fields, all_members);
    reading::lemma_reads(translation_json(t), Json::Object(all_members));
    assert(all_members =~= seq![
        ("source_lang"@, Json::Text(lang_code(t.source_lang))),
        ("target_lang"@, Json::Text(lang_code(t.target_lang))),
        ("text"@, Json::Text(t.text)),
        ("translation"@, Json::Text(t.translation)),
        ("engine"@, Json::Text(t.engine)),
    ]);
}

/// A reader of JSON finds in an entry of the history when it was made, its text,
/// its translation, its engine and where it came from.
pub proof fn law_entry_reads(e: EntryModel)
    ensures
        reading::means(
            entry_json(e),
            Json::Object(
                seq![
                    ("ts_ms"@, Json::Number(e.ts_ms as int)),
                    ("text"@, Json::Text(e.text)),
                    ("translation"@, Json::Text(e.translation)),
                    ("engine"@, Json::Text(e.engine)),
                    ("origin"@, Json::Text(e.origin)),
                ],
            ),
        ),
        reading::means(entry_json(e), reading::read(entry_json(e))->0),
        reading::read(entry_json(e)) is Some,
{
    broadcast use reading::lemma_more_members;

    reading::lemma_no_members();
    reading::lemma_number(e.ts_ms as int);
    reading::lemma_member("ts_ms"@, text::signed_decimal(e.ts_ms as int), Json::Number(e.ts_ms as int));
    reading::lemma_text_member("text"@, e.text);
    reading::lemma_text_member("translation"@, e.translation);
    reading::lemma_text_member("engine"@, e.engine);
    reading::lemma_text_member("origin"@, e.origin);
    let all_fields = Seq::empty()
        + seq![json::field("ts_ms"@, text::signed_decimal(e.ts_ms as int))]
        + seq![json::field("text"@, json::quoted(e.text))]
        + seq![json::field("translation"@, json::quoted(e.translation))]
        + seq![json::field("engine"@, json::quoted(e.engine))]
        + seq![json::field("origin"@, json::quoted(e.origin))];
    let all_members = Seq::<(Seq<char>, Json)>::empty()
        + seq![("ts_ms"@, Json::Number(e.ts_ms as int))]
        + seq![("text"@, Json::Text(e.text))]
        + seq![("translation"@, Json::Text(e.translation))]
        + seq![("engine"@, Json::Text(e.engine))]
        + seq![("origin"@, Json::Text(e.origin))];
    assert(reading::members_mean(all_fields, all_members));
    reading::lemma_object(all_fields, all_members);
    reading::lemma_reads(entry_json(e), Json::Object(all_members));
    assert(all_members =~= seq![
        ("ts_ms"@, Json::Number(e.ts_ms as int)),
        ("text"@, Json::Text(e.text)),
        ("translation"@, Json::Text(e.translation)),
        ("engine"@, Json::Text(e.engine)),
        ("origin"@, Json::Text(e.origin)),
    ]);
}

/// A reader of JSON finds in the history each entry, in its place.
pub proof fn law_history_reads(l: Seq<EntryModel>)
    ensures
        reading::means(
            history_json(l),
            Json::Array(
                Seq::new(
                    l.len(),
                    |i: int|
                        Json::Object(
                            seq![
                                ("ts_ms"@, Json::Number(l[i].ts_ms as int)),
                                ("text"@, Json::Text(l[i].text)),
                                ("translation"@, Json::Text(l[i].translation)),
                                ("engine"@, Json::Text(l[i].engine)),
                                ("origin"@, Json::Text(l[i].origin)),
                            ],
                        ),
                ),
            ),
        ),
        reading::means(history_json(l), reading::read(history_json(l))->0),
{
    let values = l.map_values(|e: EntryModel| entry_json(e));
    let items = Seq::new(
        l.len(),
        |i: int|
            Json::Object(
                seq![
                    ("ts_ms"@, Json::Number(l[i].ts_ms as int)),
                    ("text"@, Json::Text(l[i].text)),
                    ("translation"@, Json::Text(l[i].translation)),
                    ("engine"@, Json::Text(l[i].engine)),
                    ("origin"@, Json::Text(l[i].origin)),
                ],
            ),
    );
    assert forall|i: int| 0 <= i < values.len() implies reading::means(
        #[trigger] values[i],
        items[i],
    ) by {
        law_entry_reads(l[i]);
    }
    reading::lemma_array(values, items);
    reading::lemma_reads(history_json(l), Json::Array(items));
}

/// A reader of JSON finds in the pronunciations those that are there, each under
/// its own name.
pub proof fn law_phonetic_reads(p: PhoneticModel)
    ensures
        reading::means(
            phonetic_json(p),
            Json::Object(
                reading::some_member("uk"@, reading::text_opt(p.uk)) + reading::some_member(
                    "us"@,
                    reading::text_opt(p.us),
                ),
            ),
        ),
        reading::means(phonetic_json(p), reading::read(phonetic_json(p))->0),
{
    broadcast use reading::lemma_more_members;

    reading::lemma_no_members();
    reading::lemma_text_opt_member("uk"@, p.uk);
    reading::lemma_text_opt_member("us"@, p.us);
    let all_fields = Seq::empty()
        + json::some_field("uk"@, json::quoted_opt(p.uk))
        + json::some_field("us"@, json::quoted_opt(p.us));
    let all_members = Seq::<(Seq<char>, Json)>::empty()
        + reading::some_member("uk"@, reading::text_opt(p.uk))
        + reading::some_member("us"@, reading::text_opt(p.us));
    assert(reading::members_mean(all_fields, all_members));
    reading::lemma_object(all_fields, all_members);
    reading::lemma_reads(phonetic_json(p), Json::Object(all_members));
    assert(all_members =~= reading::some_member("uk"@, reading::text_opt(p.uk))
        + reading::some_member("us"@, reading::text_opt(p.us)));
}

/// A reader of JSON finds in a group its part of speech and its glosses.
pub proof fn law_group_reads(g: PosModel)
    ensures
        reading::means(
            gloss_json(g),
            Json::Object(
                seq![("pos"@, Json::Text(g.pos))] + reading::list_member(
                    "gloss"@,
                    reading::texts(g.gloss),
                ),
            ),
        ),
        reading::means(gloss_json(g), reading::read(gloss_json(g))->0),
{
    broadcast use reading::lemma_more_members;

    reading::lemma_no_members();
    reading::lemma_text_member("pos"@, g.pos);
    reading::lemma_texts(g.gloss);
    reading::lemma_list_member("gloss"@, json::quoted_each(g.gloss), reading::texts(g.gloss));
    let all_fields = Seq::empty()
        + seq![json::field("pos"@, json::quoted(g.pos))]
        + json::list_field("gloss"@, json::quoted_each(g.gloss));
    let all_members = Seq::<(Seq<char>, Json)>::empty()
        + seq![("pos"@, Json::Text(g.pos))]
        + reading::list_member("gloss"@, reading::texts(g.gloss));
    assert(reading::members_mean(all_fields, all_members));
    reading::lemma_object(all_fields, all_members);
    reading::lemma_reads(gloss_json(g), Json::Object(all_members));
    assert(all_members =~= seq![("pos"@, Json::Text(g.pos))] + reading::list_member(
        "gloss"@,
        reading::texts(g.gloss),
    ));
}

/// A reader of JSON finds in the inflected forms each form that is there, under
/// its own name.
pub proof fn law_exchange_reads(e: ExchangeModel)
    ensures
        reading::means(
            exchange_json(e),
            Json::Object(
                reading::some_member("past"@, reading::text_opt(e.past)) + reading::some_member(
                    "pp"@,
                    reading::text_opt(e.pp),
                ) + reading::some_member("ing"@, reading::text_opt(e.ing)) + reading::some_member(
                    "third"@,
                    reading::text_opt(e.third),
                ) + reading::some_member("comparative"@, reading::text_opt(e.comparative))
                    + reading::some_member("superlative"@, reading::text_opt(e.superlative))
                    + reading::some_member("plural"@, reading::text_opt(e.plural))
                    + reading::some_member("lemma"@, reading::text_opt(e.lemma)),
            ),
        ),
        reading::means(exchange_json(e), reading::read(exchange_json(e))->0),
{
    broadcast use reading::lemma_more_members;

    reading::lemma_no_members();
    reading::lemma_text_opt_member("past"@, e.past);
    reading::lemma_text_opt_member("pp"@, e.pp);
    reading::lemma_text_opt_member("ing"@, e.ing);
    reading::lemma_text_opt_member("third"@, e.third);
    reading::lemma_text_opt_member("comparative"@, e.comparative);
    reading::lemma_text_opt_member("superlative"@, e.superlative);
    reading::lemma_text_opt_member("plural"@, e.plural);
    reading::lemma_text_opt_member("lemma"@, e.lemma);
    let all_fields = Seq::empty()
        + json::some_field("past"@, json::quoted_opt(e.past))
        + json::some_field("pp"@, json::quoted_opt(e.pp))
        + json::some_field("ing"@, json::quoted_opt(e.ing))
        + json::some_field("third"@, json::quoted_opt(e.third))
        + json::some_field("comparative"@, json::quoted_opt(e.comparative))
        + json::some_field("superlative"@, json::quoted_opt(e.superlative))
        + json::some_field("plural"@, json::quoted_opt(e.plural))
        + json::some_field("lemma"@, json::quoted_opt(e.lemma));
    let all_members = Seq::<(Seq<char>, Json)>::empty()
        + reading::some_member("past"@, reading::text_opt(e.past))
        + reading::some_member("pp"@, reading::text_opt(e.pp))
        + reading::some_member("ing"@, reading::text_opt(e.ing))
        + reading::some_member("third"@, reading::text_opt(e.third))
        + reading::some_member("comparative"@, reading::text_opt(e.comparative))
        + reading::some_member("superlative"@, reading::text_opt(e.superlative))
        + reading::some_member("plural"@, reading::text_opt(e.plural))
        + reading::some_member("lemma"@, reading::text_opt(e.lemma));
    assert(reading::members_mean(all_fields, all_members));
    reading::lemma_object(all_fields, all_members);
    reading::lemma_reads(exchange_json(e), Json::Object(all_members));
    assert(Seq::<(Seq<char>, Json)>::empty() + reading::some_member("past"@, reading::text_opt(e.past))
        =~= reading::some_member("past"@, reading::text_opt(e.past)));
}

/// A reader of JSON finds on a card whether it was found, its word, its
/// pronunciations, its groups in their order, its definitions, its inflected
/// forms, its rating, whether it is in the Oxford list, its tags, its source and
/// the words close to it, each under its own name; what the card lacks is not
/// there.
pub proof fn law_card_reads(c: CardModel)
    ensures
        ({
            let phonetic = match c.phonetic {
                Some(p) => Some(reading::read(phonetic_json(p))->0),
                None => None,
            };
            let exchange = match c.exchange {
                Some(e) => Some(reading::read(exchange_json(e))->0),
                None => None,
            };
            let collins = match c.collins {
                Some(n) => Some(Json::Number(n as int)),
                None => None,
            };
            reading::means(
                card_json(c),
                Json::Object(
                    seq![("found"@, Json::Bool(c.found)), ("word"@, Json::Text(c.word))]
                        + reading::some_member("phonetic"@, phonetic) + reading::list_member(
                        "pos"@,
                        Seq::new(c.pos.len(), |i: int| reading::read(gloss_json(c.pos[i]))->0),
                    ) + reading::list_member("definition"@, reading::texts(c.definition))
                        + reading::some_member("exchange"@, exchange) + reading::some_member(
                        "collins"@,
                        collins,
                    ) + seq![("oxford"@, Json::Bool(c.oxford))] + reading::list_member(
                        "tags"@,
                        reading::texts(c.tags),
                    ) + seq![("source"@, Json::Text(c.source))] + reading::list_member(
                        "suggestions"@,
                        reading::texts(c.suggestions),
                    ),
                ),
            )
        }),
        reading::means(card_json(c), reading::read(card_json(c))->0),
        reading::read(card_json(c)) is Some,
{
    let phonetic = match c.phonetic {
        Some(p) => Some(reading::read(phonetic_json(p))->0),
        None => None,
    };
    let exchange = match c.exchange {
        Some(e) => Some(reading::read(exchange_json(e))->0),
        None => None,
    };
    let collins = match c.collins {
        Some(n) => Some(Json::Number(n as int)),
        None => None,
    };
    if c.phonetic is Some {
        law_phonetic_reads(c.phonetic->0);
    }
    if c.exchange is Some {
        law_exchange_reads(c.exchange->0);
    }
    if c.collins is Some {
        reading::lemma_count(c.collins->0 as nat);
    }
    let values = c.pos.map_values(|g: PosModel| gloss_json(g));
    let items = Seq::new(c.pos.len(), |i: int| reading::read(gloss_json(c.pos[i]))->0);
    assert forall|i: int| 0 <= i < values.len() implies reading::means(
        #[trigger] values[i],
        items[i],
    ) by {
        law_group_reads(c.pos[i]);
    }
    assert(reading::items_mean(values, items));
    lemma_card_reads(c, phonetic, items, exchange, collins);
}

proof fn lemma_card_reads(
    c: CardModel,
    phonetic: Option<Json>,
    items: Seq<Json>,
    exchange: Option<Json>,
    collins: Option<Json>,
)
    requires
        phonetic_opt(c.phonetic) is Some <==> phonetic is Some,
        phonetic is Some ==> reading::means(phonetic_opt(c.phonetic)->0, phonetic->0),
        exchange_opt(c.exchange) is Some <==> exchange is Some,
        exchange is Some ==> reading::means(exchange_opt(c.exchange)->0, exchange->0),
        collins_opt(c.collins) is Some <==> collins is Some,
        collins is Some ==> reading::means(collins_opt(c.collins)->0, collins->0),
        reading::items_mean(c.pos.map_values(|g: PosModel| gloss_json(g)), items),
    ensures
        ({
            let members = seq![("found"@, Json::Bool(c.found)), ("word"@, Json::Text(c.word))]
                + reading::some_member("phonetic"@, phonetic) + reading::list_member("pos"@, items)
                + reading::list_member("definition"@, reading::texts(c.definition))
                + reading::some_member("exchange"@, exchange) + reading::some_member(
                "collins"@,
                collins,
            ) + seq![("oxford"@, Json::Bool(c.oxford))] + reading::list_member(
                "tags"@,
                reading::texts(c.tags),
            ) + seq![("source"@, Json::Text(c.source))] + reading::list_member(
                "suggestions"@,
                reading::texts(c.suggestions),
            );
            reading::means(card_json(c), Json::Object(members)) && reading::read(card_json(c))
                == Some(Json::Object(members))
        }),
{
    broadcast use reading::lemma_more_members;

    let values = c.pos.map_values(|g: PosModel| gloss_json(g));
    reading::lemma_no_members();
    reading::lemma_bool_member("found"@, c.found);
    reading::lemma_text_member("word"@, c.word);
    reading::lemma_some_member("phonetic"@, phonetic_opt(c.phonetic), phonetic);
    reading::lemma_list_member("pos"@, values, items);
    reading::lemma_texts(c.definition);
    reading::lemma_list_member("definition"@, json::quoted_each(c.definition), reading::texts(c.definition));
    reading::lemma_some_member("exchange"@, exchange_opt(c.exchange), exchange);
    reading::lemma_some_member("collins"@, collins_opt(c.collins), collins);
    reading::lemma_bool_member("oxford"@, c.oxford);
    reading::lemma_texts(c.tags);
    reading::lemma_list_member("tags"@, json::quoted_each(c.tags), reading::texts(c.tags));
    reading::lemma_text_member("source"@, c.source);
    reading::lemma_texts(c.suggestions);
    reading::lemma_list_member("suggestions"@, json::quoted_each(c.suggestions), reading::texts(c.suggestions));
    let all_fields = Seq::empty()
        + seq![json::field("found"@, json::bool_text(c.found))]
        + seq![json::field("word"@, json::quoted(c.word))]
        + json::some_field("phonetic"@, phonetic_opt(c.phonetic))
        + json::list_field("pos"@, values)
        + json::list_field("definition"@, json::quoted_each(c.definition))
        + json::some_field("exchange"@, exchange_opt(c.exchange))
        + json::some_field("collins"@, collins_opt(c.collins))
        + seq![json::field("oxford"@, json::bool_text(c.oxford))]
        + json::list_field("tags"@, json::quoted_each(c.tags))
        + seq![json::field("source"@, json::quoted(c.source))]
        + json::list_field("suggestions"@, json::quoted_each(c.suggestions));
    let all_members = Seq::<(Seq<char>, Json)>::empty()
        + seq![("found"@, Json::Bool(c.found))]
        + seq![("word"@, Json::Text(c.word))]
        + reading::some_member("phonetic"@, phonetic)
        + reading::list_member("pos"@, items)
        + reading::list_member("definition"@, reading::texts(c.definition))
        + reading::some_member("exchange"@, exchange)
        + reading::some_member("collins"@, collins)
        + seq![("oxford"@, Json::Bool(c.oxford))]
        + reading::list_member("tags"@, reading::texts(c.tags))
        + seq![("source"@, Json::Text(c.source))]
        + reading::list_member("suggestions"@, reading::texts(c.suggestions));
    assert(reading::members_mean(all_fields, all_members));
    reading::lemma_object(all_fields, all_members);
    reading::lemma_reads(card_json(c), Json::Object(all_members));
    let none = Seq::<(Seq<char>, Json)>::empty();
    assert(none + seq![("found"@, Json::Bool(c.found))] + seq![("word"@, Json::Text(c.word))]
        =~= seq![("found"@, Json::Bool(c.found)), ("word"@, Json::Text(c.word))]);
}

} // verus!
