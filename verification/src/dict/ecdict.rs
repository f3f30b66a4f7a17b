//! English entries as a thirteen-column table: rows to cards, rows to what is
//! stored of them, and stored columns back to cards.

use crate::dict::{parse_translation_lines, Exchange, Phonetic, PosGloss, WordCard};
use crate::dict::{CardModel, ExchangeModel, PhoneticModel, PosModel};
use crate::dict;
use crate::text;
use crate::text::Sep;
use vstd::prelude::*;

verus! {

// Inflected forms

/// No form at all.
pub open spec fn no_forms() -> ExchangeModel {
    ExchangeModel {
        past: None,
        pp: None,
        ing: None,
        third: None,
        comparative: None,
        superlative: None,
        plural: None,
        lemma: None,
    }
}

/// `ex` with the form that the key `k` stands for set to `v`.
pub open spec fn set_form(ex: ExchangeModel, k: Seq<char>, v: Seq<char>) -> ExchangeModel {
    if k == "p"@ {
        ExchangeModel { past: Some(v), ..ex }
    } else if k == "d"@ {
        ExchangeModel { pp: Some(v), ..ex }
    } else if k == "i"@ {
        ExchangeModel { ing: Some(v), ..ex }
    } else if k == "3"@ {
        ExchangeModel { third: Some(v), ..ex }
    } else if k == "r"@ {
        ExchangeModel { comparative: Some(v), ..ex }
    } else if k == "t"@ {
        ExchangeModel { superlative: Some(v), ..ex }
    } else if k == "s"@ {
        ExchangeModel { plural: Some(v), ..ex }
    } else if k == "0"@ || k == "1"@ {
        ExchangeModel { lemma: Some(v), ..ex }
    } else {
        ex
    }
}

/// The key and the value of a pair `key:value`, trimmed, if it has a value.
pub open spec fn form_pair(pair: Seq<char>) -> Option<(Seq<char>, Seq<char>)> {
    match text::cut(pair, ':') {
        Some((k, v)) => if text::trim(v).len() > 0 {
            Some((text::trim(k), text::trim(v)))
        } else {
            None
        },
        None => None,
    }
}

/// The forms of a list of pairs, the last one winning, or nothing where no pair
/// has a value.
pub open spec fn forms_of(pairs: Seq<Seq<char>>) -> Option<ExchangeModel>
    decreases pairs.len(),
{
    if pairs.len() == 0 {
        None
    } else {
        let before = forms_of(pairs.drop_last());
        match form_pair(pairs.last()) {
            Some((k, v)) => Some(
                set_form(
                    match before {
                        Some(ex) => ex,
                        None => no_forms(),
                    },
                    k,
                    v,
                ),
            ),
            None => before,
        }
    }
}

/// The forms that an exchange column writes down.
pub open spec fn exchange_of(raw: Seq<char>) -> Option<ExchangeModel> {
    forms_of(text::split(raw, Sep::One('/')))
}

fn put_form(ex: Exchange, k: &str, v: String) -> (r: Exchange)
    ensures
        r.deep_view() == set_form(ex.deep_view(), k@, v@),
{
    let mut ex = ex;
    if text::same(k, "p") {
        ex.past = Some(v);
    } else if text::same(k, "d") {
        ex.pp = Some(v);
    } else if text::same(k, "i") {
        ex.ing = Some(v);
    } else if text::same(k, "3") {
        ex.third = Some(v);
    } else if text::same(k, "r") {
        ex.comparative = Some(v);
    } else if text::same(k, "t") {
        ex.superlative = Some(v);
    } else if text::same(k, "s") {
        ex.plural = Some(v);
    } else if text::same(k, "0") || text::same(k, "1") {
        ex.lemma = Some(v);
    }
    ex
}

/// The forms that an exchange column such as `p:ran/d:run/i:running` writes down.
pub fn parse_exchange(raw: &str) -> (r: Option<Exchange>)
    ensures
        r.deep_view() == exchange_of(raw@),
{
    let pairs = text::split_by(raw, Sep::One('/'));
    let mut ex = Exchange {
        past: None,
        pp: None,
        ing: None,
        third: None,
        comparative: None,
        superlative: None,
        plural: None,
        lemma: None,
    };
    let mut any = false;
    let mut i: usize = 0;
    assert(pairs.deep_view().take(0) =~= Seq::<Seq<char>>::empty());
    while i < pairs.len()
        invariant
            i <= pairs@.len(),
            forms_of(pairs.deep_view().take(i as int)) == (if any {
                Some(ex.deep_view())
            } else {
                None
            }),
            !any ==> ex.deep_view() == no_forms(),
        decreases pairs@.len() - i,
    {
        assert(pairs.deep_view().take(i + 1).drop_last() =~= pairs.deep_view().take(i as int));
        match text::cut_at(&pairs[i], ':') {
            Some((k, v)) => {
                let v = text::trimmed(&v);
                if !text::empty(&v) {
                    any = true;
                    ex = put_form(ex, &text::trimmed(&k), v);
                }
            },
            None => {},
        }
        i += 1;
    }
    assert(pairs.deep_view().take(i as int) =~= pairs.deep_view());
    if any {
        Some(ex)
    } else {
        None
    }
}

// Rows

/// The texts of a row.
pub open spec fn cells(row: Seq<&str>) -> Seq<Seq<char>> {
    row.map_values(|s: &str| s@)
}

/// The pronunciation that a column holds; an empty column holds none.
pub open spec fn phonetic_of(column: Seq<char>) -> Option<PhoneticModel> {
    if column.len() == 0 {
        None
    } else {
        Some(PhoneticModel { uk: Some(column), us: None })
    }
}

/// The card of a row with the columns word, phonetic, definition, translation,
/// pos, collins, oxford, tag, bnc, frq, exchange, and possibly more.
pub open spec fn row_card(row: Seq<Seq<char>>) -> Option<CardModel> {
    if row.len() < 11 {
        None
    } else {
        Some(
            CardModel {
                found: true,
                word: row[0],
                phonetic: phonetic_of(row[1]),
                pos: dict::grouped(row[3]),
                definition: text::fields(row[2], Sep::One('\n')),
                exchange: exchange_of(row[10]),
                collins: match text::parsed_int(row[5], 0, 255) {
                    Some(n) => Some(n as u8),
                    None => None,
                },
                oxford: row[6] == "1"@,
                tags: text::words(row[7]),
                source: "ecdict"@,
                suggestions: Seq::empty(),
            },
        )
    }
}

fn phonetic_from(column: &str) -> (r: Option<Phonetic>)
    ensures
        r.deep_view() == phonetic_of(column@),
{
    if text::empty(column) {
        None
    } else {
        Some(Phonetic { uk: Some(text::copy(column)), us: None })
    }
}

/// The card of a row. A row of fewer than eleven columns has none.
pub fn row_to_card(row: &[&str]) -> (r: Option<WordCard>)
    ensures
        r.deep_view() == row_card(cells(row@)),
{
    if row.len() < 11 {
        return None;
    }
    let collins: Option<u8> = match text::parse_unsigned(row[5], 255) {
        Some(n) => Some(n as u8),
        None => None,
    };
    let suggestions: Vec<String> = Vec::new();
    assert(suggestions.deep_view() =~= Seq::<Seq<char>>::empty());
    Some(
        WordCard {
            found: true,
            word: text::copy(row[0]),
            phonetic: phonetic_from(row[1]),
            pos: parse_translation_lines(row[3]),
            definition: text::fields_of(row[2], Sep::One('\n')),
            exchange: parse_exchange(row[10]),
            collins,
            oxford: text::same(row[6], "1"),
            tags: text::words_of(row[7]),
            source: text::copy("ecdict"),
            suggestions,
        },
    )
}

// Storage

/// What is stored of a row: the columns of its entry, and the inflected forms
/// that lead to it.
#[derive(Debug, Clone, PartialEq)]
pub struct Entry {
    pub word: String,
    pub phonetic: String,
    pub definition: String,
    pub translation: String,
    pub pos: Vec<PosGloss>,
    pub exchange: Option<Exchange>,
    pub collins: Option<u8>,
    pub oxford: i64,
    pub tags: String,
    pub bnc: i64,
    pub frq: i64,
    pub forms: Vec<String>,
}

/// What an [`Entry`] says.
#[verifier::ext_equal]
pub struct EntryModel {
    pub word: Seq<char>,
    pub phonetic: Seq<char>,
    pub definition: Seq<char>,
    pub translation: Seq<char>,
    pub pos: Seq<PosModel>,
    pub exchange: Option<ExchangeModel>,
    pub collins: Option<u8>,
    pub oxford: i64,
    pub tags: Seq<char>,
    pub bnc: i64,
    pub frq: i64,
    pub forms: Seq<Seq<char>>,
}

impl DeepView for Entry {
    type V = EntryModel;

    open spec fn deep_view(&self) -> EntryModel {
        EntryModel {
            word: self.word@,
            phonetic: self.phonetic@,
            definition: self.definition@,
            translation: self.translation@,
            pos: self.pos.deep_view(),
            exchange: self.exchange.deep_view(),
            collins: self.collins,
            oxford: self.oxford,
            tags: self.tags@,
            bnc: self.bnc,
            frq: self.frq,
            forms: self.forms.deep_view(),
        }
    }
}

/// What follows from storing an entry, which changed so many rows: how many
/// entries are new, and the forms that are now to be stored. An entry that was
/// there already is not new, and brings no forms.
pub open spec fn stored(e: EntryModel, changed: nat) -> (nat, Seq<Seq<char>>) {
    if changed == 1 {
        (1, e.forms)
    } else {
        (0, Seq::empty())
    }
}

impl Entry {
    /// What follows from storing the entry, which changed so many rows.
    pub fn stored(&self, changed: usize) -> (r: (u64, Vec<String>))
        ensures
            (r.0 as nat, r.1.deep_view()) == stored(self.deep_view(), changed as nat),
    {
        if changed == 1 {
            (1, text::copy_list(&self.forms))
        } else {
            let none: Vec<String> = Vec::new();
            assert(none.deep_view() =~= Seq::<Seq<char>>::empty());
            (0, none)
        }
    }
}

/// `list` with `form` at the end, where there is one.
pub open spec fn push_some(list: Seq<Seq<char>>, form: Option<Seq<char>>) -> Seq<Seq<char>> {
    match form {
        Some(f) => list.push(f),
        None => list,
    }
}

/// The inflected forms of an entry: every form but the lemma, in order.
pub open spec fn inflections(ex: Option<ExchangeModel>) -> Seq<Seq<char>> {
    match ex {
        None => Seq::empty(),
        Some(ex) => {
            let l = push_some(Seq::empty(), ex.past);
            let l = push_some(l, ex.pp);
            let l = push_some(l, ex.ing);
            let l = push_some(l, ex.third);
            let l = push_some(l, ex.comparative);
            let l = push_some(l, ex.superlative);
            push_some(l, ex.plural)
        },
    }
}

/// The whole number that a column writes down, zero where it writes none.
pub open spec fn count_of(column: Seq<char>) -> i64 {
    match text::parsed_int(column, i64::MIN as int, i64::MAX as int) {
        Some(n) => n as i64,
        None => 0,
    }
}

/// What is stored of a row.
pub open spec fn row_entry(row: Seq<Seq<char>>) -> Option<EntryModel> {
    match row_card(row) {
        None => None,
        Some(card) => Some(
            EntryModel {
                word: card.word,
                phonetic: row[1],
                definition: row[2],
                translation: row[3],
                pos: card.pos,
                exchange: card.exchange,
                collins: card.collins,
                oxford: if card.oxford {
                    1
                } else {
                    0
                },
                tags: text::join(card.tags, " "@),
                bnc: count_of(row[8]),
                frq: count_of(row[9]),
                forms: inflections(card.exchange),
            },
        ),
    }
}

fn push_form(list: &mut Vec<String>, form: &Option<String>)
    ensures
        final(list).deep_view() == push_some(old(list).deep_view(), form.deep_view()),
{
    match form {
        Some(f) => {
            let ghost before = list.deep_view();
            list.push(text::copy(f));
            assert(list.deep_view() =~= before.push(f@));
        },
        None => {},
    }
}

fn inflections_of(ex: &Option<Exchange>) -> (r: Vec<String>)
    ensures
        r.deep_view() == inflections(ex.deep_view()),
{
    let mut list: Vec<String> = Vec::new();
    assert(list.deep_view() =~= Seq::<Seq<char>>::empty());
    match ex {
        Some(ex) => {
            push_form(&mut list, &ex.past);
            push_form(&mut list, &ex.pp);
            push_form(&mut list, &ex.ing);
            push_form(&mut list, &ex.third);
            push_form(&mut list, &ex.comparative);
            push_form(&mut list, &ex.superlative);
            push_form(&mut list, &ex.plural);
        },
        None => {},
    }
    list
}

fn count_from(column: &str) -> (r: i64)
    ensures
        r == count_of(column@),
{
    match text::parse_signed(column) {
        Some(n) => n,
        None => 0,
    }
}

/// What is stored of a row. A row of fewer than eleven columns is not stored.
pub fn row_to_entry(row: &[&str]) -> (r: Option<Entry>)
    ensures
        r.deep_view() == row_entry(cells(row@)),
{
    match row_to_card(row) {
        None => None,
        Some(card) => {
            let forms = inflections_of(&card.exchange);
            let tags = text::join_all(&card.tags, " ");
            Some(
                Entry {
                    word: card.word,
                    phonetic: text::copy(row[1]),
                    definition: text::copy(row[2]),
                    translation: text::copy(row[3]),
                    pos: card.pos,
                    exchange: card.exchange,
                    collins: card.collins,
                    oxford: if card.oxford {
                        1
                    } else {
                        0
                    },
                    tags,
                    bnc: count_from(row[8]),
                    frq: count_from(row[9]),
                    forms,
                },
            )
        },
    }
}

/// The columns of a stored entry that make up its card, as a query returns them.
#[derive(Debug, Clone, PartialEq)]
pub struct Columns {
    pub word: String,
    pub phonetic: Option<String>,
    pub definition: String,
    pub pos: Vec<PosGloss>,
    pub exchange: Option<Exchange>,
    pub collins: Option<i64>,
    pub oxford: i64,
    pub tags: String,
}

/// What [`Columns`] say.
#[verifier::ext_equal]
pub struct ColumnsModel {
    pub word: Seq<char>,
    pub phonetic: Option<Seq<char>>,
    pub definition: Seq<char>,
    pub pos: Seq<PosModel>,
    pub exchange: Option<ExchangeModel>,
    pub collins: Option<i64>,
    pub oxford: i64,
    pub tags: Seq<char>,
}

impl DeepView for Columns {
    type V = ColumnsModel;

    open spec fn deep_view(&self) -> ColumnsModel {
        ColumnsModel {
            word: self.word@,
            phonetic: self.phonetic.deep_view(),
            definition: self.definition@,
            pos: self.pos.deep_view(),
            exchange: self.exchange.deep_view(),
            collins: self.collins,
            oxford: self.oxford,
            tags: self.tags@,
        }
    }
}

/// The columns that a query returns of a stored entry.
pub open spec fn stored_columns(e: EntryModel) -> ColumnsModel {
    ColumnsModel {
        word: e.word,
        phonetic: Some(e.phonetic),
        definition: e.definition,
        pos: e.pos,
        exchange: e.exchange,
        collins: match e.collins {
            Some(c) => Some(c as i64),
            None => None,
        },
        oxford: e.oxford,
        tags: e.tags,
    }
}

/// The card of stored columns.
pub open spec fn columns_card(c: ColumnsModel) -> CardModel {
    CardModel {
        found: true,
        word: c.word,
        phonetic: match c.phonetic {
            Some(p) => phonetic_of(p),
            None => None,
        },
        pos: c.pos,
        definition: text::fields(c.definition, Sep::One('\n')),
        exchange: c.exchange,
        collins: match c.collins {
            Some(n) => Some(n as u8),
            None => None,
        },
        oxford: c.oxford == 1,
        tags: text::words(c.tags),
        source: "ecdict"@,
        suggestions: Seq::empty(),
    }
}

/// The card of stored columns.
pub fn card_from_columns(c: Columns) -> (r: WordCard)
    ensures
        r.deep_view() == columns_card(c.deep_view()),
{
    let suggestions: Vec<String> = Vec::new();
    assert(suggestions.deep_view() =~= Seq::<Seq<char>>::empty());
    let phonetic = match &c.phonetic {
        Some(p) => phonetic_from(p),
        None => None,
    };
    let collins: Option<u8> = match c.collins {
        Some(n) => Some(#[verifier::truncate] (n as u8)),
        None => None,
    };
    WordCard {
        found: true,
        word: c.word,
        phonetic,
        pos: c.pos,
        definition: text::fields_of(&c.definition, Sep::One('\n')),
        exchange: c.exchange,
        collins,
        oxford: c.oxford == 1,
        tags: text::words_of(&c.tags),
        source: text::copy("ecdict"),
        suggestions,
    }
}

/// A card read back from storage is the card of the row that was stored.
pub proof fn law_stored_row_reads_back(row: Seq<Seq<char>>)
    requires
        row.len() >= 11,
    ensures
        columns_card(stored_columns(row_entry(row)->0)) == row_card(row)->0,
{
    reveal_strlit(" ");
    assert(" "@ =~= seq![' ']);
    text::lemma_words(row[7]);
    text::lemma_words_of_join(text::words(row[7]));
}

/// Every row of eleven or more columns is stored, and no other.
pub proof fn law_rows_stored_exactly_when_wide_enough(row: Seq<Seq<char>>)
    ensures
        row_entry(row) is Some <==> row.len() >= 11,
        row_card(row) is Some <==> row.len() >= 11,
{
}

// Importing

/// One record of a comma-separated file.
#[derive(Debug, Clone, PartialEq)]
pub enum Record {
    /// Its columns.
    Row(Vec<String>),
    /// Why it could not be read.
    Bad(String),
}

/// What a [`Record`] says.
pub enum RecordModel {
    Row(Seq<Seq<char>>),
    Bad(Seq<char>),
}

impl DeepView for Record {
    type V = RecordModel;

    open spec fn deep_view(&self) -> RecordModel {
        match self {
            Record::Row(row) => RecordModel::Row(row.deep_view()),
            Record::Bad(why) => RecordModel::Bad(why@),
        }
    }
}

/// The records that the `csv` crate reads from `data`.
pub uninterp spec fn csv_records(data: Seq<u8>) -> Seq<RecordModel>;

/// `csv::ReaderBuilder`, set to treat the first line as data and to allow rows
/// of different lengths, and `Reader::records` on the reader that it builds:
/// the records of `data` in order, each with its columns or with the text of
/// the error that reading it gave. They depend on `data` alone.
#[verifier::external_body]
fn read_csv(data: &[u8]) -> (r: Vec<Record>)
    ensures
        r.deep_view() == csv_records(data@),
{
    let mut reader = csv::ReaderBuilder::new().has_headers(false).flexible(true).from_reader(data);
    reader.records().map(
        |rec|
            match rec {
                Ok(row) => Record::Row(row.iter().map(String::from).collect()),
                Err(e) => Record::Bad(e.to_string()),
            },
    ).collect()
}

/// What an import stores, and why it stopped early, where it did.
#[derive(Debug, Clone, PartialEq)]
pub struct Import {
    pub entries: Vec<Entry>,
    pub error: Option<String>,
}

/// The entries of the records before the first that could not be read.
pub open spec fn entries_of(records: Seq<RecordModel>) -> Seq<EntryModel>
    decreases records.len(),
{
    if records.len() == 0 {
        Seq::empty()
    } else {
        match records[0] {
            RecordModel::Bad(_) => Seq::empty(),
            RecordModel::Row(row) => match row_entry(row) {
                Some(e) => seq![e] + entries_of(records.skip(1)),
                None => entries_of(records.skip(1)),
            },
        }
    }
}

/// Why reading stopped, where it did.
pub open spec fn error_of(records: Seq<RecordModel>) -> Option<Seq<char>>
    decreases records.len(),
{
    if records.len() == 0 {
        None
    } else {
        match records[0] {
            RecordModel::Bad(why) => Some(why),
            RecordModel::Row(_) => error_of(records.skip(1)),
        }
    }
}

/// What is stored of a row of owned texts.
pub fn owned_row_to_entry(row: &Vec<String>) -> (r: Option<Entry>)
    ensures
        r.deep_view() == row_entry(row.deep_view()),
{
    let mut refs: Vec<&str> = Vec::new();
    let mut i: usize = 0;
    while i < row.len()
        invariant
            i <= row@.len(),
            cells(refs@) == row.deep_view().take(i as int),
        decreases row@.len() - i,
    {
        let ghost before = cells(refs@);
        refs.push(row[i].as_str());
        assert(cells(refs@) =~= before.push(row.deep_view()[i as int]));
        assert(row.deep_view().take(i + 1) =~= row.deep_view().take(i as int).push(
            row.deep_view()[i as int],
        ));
        i += 1;
    }
    assert(row.deep_view().take(i as int) =~= row.deep_view());
    row_to_entry(refs.as_slice())
}

/// What an import of `records` stores: everything before the first record that
/// could not be read.
pub fn import_records(records: &Vec<Record>) -> (r: Import)
    ensures
        r.entries.deep_view() == entries_of(records.deep_view()),
        r.error.deep_view() == error_of(records.deep_view()),
{
    let mut entries: Vec<Entry> = Vec::new();
    let mut i: usize = 0;
    let ghost all = records.deep_view();
    assert(all.skip(0) =~= all);
    assert(entries.deep_view() + entries_of(all) =~= entries_of(all));
    while i < records.len()
        invariant
            i <= records@.len(),
            all == records.deep_view(),
            entries.deep_view() + entries_of(all.skip(i as int)) == entries_of(all),
            error_of(all.skip(i as int)) == error_of(all),
        decreases records@.len() - i,
    {
        let ghost rest = all.skip(i as int);
        let ghost before = entries.deep_view();
        assert(rest[0] == all[i as int]);
        assert(rest.skip(1) =~= all.skip(i + 1));
        match &records[i] {
            Record::Bad(why) => {
                assert(entries.deep_view() + entries_of(rest) =~= entries.deep_view());
                return Import { entries, error: Some(text::copy(why)) };
            },
            Record::Row(row) => match owned_row_to_entry(row) {
                Some(e) => {
                    let ghost m = e.deep_view();
                    entries.push(e);
                    assert(entries.deep_view() =~= before.push(m));
                    assert(before.push(m) + entries_of(all.skip(i + 1)) =~= before + (seq![m]
                        + entries_of(all.skip(i + 1))));
                },
                None => {},
            },
        }
        i += 1;
    }
    assert(all.skip(i as int) =~= Seq::<RecordModel>::empty());
    assert(entries.deep_view() + entries_of(all.skip(i as int)) =~= entries.deep_view());
    Import { entries, error: None }
}

/// What an import of a comma-separated file stores.
pub fn import_csv(data: &[u8]) -> (r: Import)
    ensures
        r.entries.deep_view() == entries_of(csv_records(data@)),
        r.error.deep_view() == error_of(csv_records(data@)),
{
    import_records(&read_csv(data))
}

/// A value in a column of the official database.
#[derive(Debug, Clone, PartialEq)]
pub enum Cell {
    Null,
    Integer(i64),
    Text(String),
    Other,
}

/// The text that stands for a value: nothing for one that is neither a number
/// nor a text.
pub open spec fn cell_text(c: Cell) -> Seq<char> {
    match c {
        Cell::Integer(n) => text::signed_decimal(n as int),
        Cell::Text(t) => t@,
        _ => Seq::empty(),
    }
}

/// The texts that stand for a row of values.
pub fn row_texts(row: &Vec<Cell>) -> (r: Vec<String>)
    ensures
        r.deep_view() == row@.map_values(|c: Cell| cell_text(c)),
{
    let ghost want = row@.map_values(|c: Cell| cell_text(c));
    let mut r: Vec<String> = Vec::new();
    let mut i: usize = 0;
    while i < row.len()
        invariant
            i <= row@.len(),
            want == row@.map_values(|c: Cell| cell_text(c)),
            r.deep_view() == want.take(i as int),
        decreases row@.len() - i,
    {
        let ghost before = r.deep_view();
        let t: String = match &row[i] {
            Cell::Integer(n) => text::signed_text(*n),
            Cell::Text(t) => text::copy(t),
            Cell::Null => String::new(),
            Cell::Other => String::new(),
        };
        assert(t@ =~= want[i as int]);
        r.push(t);
        assert(r.deep_view() =~= before.push(want[i as int]));
        assert(want.take(i + 1) =~= want.take(i as int).push(want[i as int]));
        i += 1;
    }
    assert(want.take(i as int) =~= want);
    r
}

/// What is stored of a row of the official database.
pub fn database_row_to_entry(row: &Vec<Cell>) -> (r: Option<Entry>)
    ensures
        r.deep_view() == row_entry(row@.map_values(|c: Cell| cell_text(c))),
{
    owned_row_to_entry(&row_texts(row))
}

// Laws on forms and rows

/// The stored forms of an entry are its inflected forms, every one of them and
/// nothing else; the lemma is not among them.
pub proof fn law_forms_are_the_inflections(ex: ExchangeModel, f: Seq<char>)
    ensures
        inflections(Some(ex)).contains(f) <==> ex.past == Some(f) || ex.pp == Some(f) || ex.ing
            == Some(f) || ex.third == Some(f) || ex.comparative == Some(f) || ex.superlative
            == Some(f) || ex.plural == Some(f),
        inflections(None).len() == 0,
{
    let none = Seq::<Seq<char>>::empty();
    let l1 = push_some(none, ex.past);
    let l2 = push_some(l1, ex.pp);
    let l3 = push_some(l2, ex.ing);
    let l4 = push_some(l3, ex.third);
    let l5 = push_some(l4, ex.comparative);
    let l6 = push_some(l5, ex.superlative);
    lemma_push_some(none, ex.past, f);
    lemma_push_some(l1, ex.pp, f);
    lemma_push_some(l2, ex.ing, f);
    lemma_push_some(l3, ex.third, f);
    lemma_push_some(l4, ex.comparative, f);
    lemma_push_some(l5, ex.superlative, f);
    lemma_push_some(l6, ex.plural, f);
}

proof fn lemma_push_some(list: Seq<Seq<char>>, form: Option<Seq<char>>, f: Seq<char>)
    ensures
        push_some(list, form).contains(f) <==> list.contains(f) || form == Some(f),
{
    match form {
        Some(x) => {
            let l = list.push(x);
            if list.contains(f) {
                let i = list.index_of(f);
                assert(l[i] == f);
            }
            assert(l[list.len() as int] == x);
            if l.contains(f) {
                let i = l.index_of(f);
                if i < list.len() {
                    assert(list[i] == f);
                }
            }
        },
        None => {},
    }
}

proof fn lemma_last_pair(raw: Seq<char>, key: char, v: Seq<char>)
    requires
        key != '/',
        key != ':',
        !text::is_white(key),
        v.len() > 0,
        text::is_trimmed(v),
        forall|i: int| 0 <= i < v.len() ==> #[trigger] v[i] != '/',
    ensures
        exchange_of(raw + (seq!['/', key, ':'] + v)) == Some(
            set_form(
                match exchange_of(raw) {
                    Some(ex) => ex,
                    None => no_forms(),
                },
                seq![key],
                v,
            ),
        ),
{
    let pair = seq![key, ':'] + v;
    let sep = Sep::One('/');
    assert(raw + (seq!['/', key, ':'] + v) =~= raw.push('/') + pair);
    text::lemma_split_cat(raw, '/', pair, sep);
    assert forall|i: int| 0 <= i < pair.len() implies !sep.parts(#[trigger] pair[i]) by {
        if i >= 2 {
            assert(pair[i] == v[i - 2]);
        }
    }
    text::lemma_split_whole(pair, sep);
    let all = text::split(raw, sep) + seq![pair];
    assert(all.drop_last() =~= text::split(raw, sep));
    assert(all.last() == pair);
    assert(text::first_at(pair, ':', 1));
    let i = choose|i: int| text::first_at(pair, ':', i);
    assert(text::first_at(pair, ':', i) && i == 1);
    assert(pair.take(1) =~= seq![key]);
    assert(pair.skip(2) =~= v);
    text::lemma_trim(v);
    text::lemma_trim(seq![key]);
}

/// Each pair at the end of an exchange column sets one form and leaves the others
/// as the pairs before it set them: `p` the past, `d` the past participle, `i`
/// the present participle, `3` the third person, `r` the comparative, `t` the
/// superlative, `s` the plural, and `0` or `1` the lemma.
pub proof fn law_exchange_column(raw: Seq<char>, v: Seq<char>)
    requires
        v.len() > 0,
        text::is_trimmed(v),
        forall|i: int| 0 <= i < v.len() ==> #[trigger] v[i] != '/',
    ensures
        ({
            let b = match exchange_of(raw) {
                Some(ex) => ex,
                None => ExchangeModel {
                    past: None,
                    pp: None,
                    ing: None,
                    third: None,
                    comparative: None,
                    superlative: None,
                    plural: None,
                    lemma: None,
                },
            };
            let with = |key: char| exchange_of(raw + (seq!['/', key, ':'] + v));
            &&& with('p') == Some(ExchangeModel { past: Some(v), ..b })
            &&& with('d') == Some(ExchangeModel { pp: Some(v), ..b })
            &&& with('i') == Some(ExchangeModel { ing: Some(v), ..b })
            &&& with('3') == Some(ExchangeModel { third: Some(v), ..b })
            &&& with('r') == Some(ExchangeModel { comparative: Some(v), ..b })
            &&& with('t') == Some(ExchangeModel { superlative: Some(v), ..b })
            &&& with('s') == Some(ExchangeModel { plural: Some(v), ..b })
            &&& with('0') == Some(ExchangeModel { lemma: Some(v), ..b })
            &&& with('1') == Some(ExchangeModel { lemma: Some(v), ..b })
        }),
{
    reveal_strlit("p");
    reveal_strlit("d");
    reveal_strlit("i");
    reveal_strlit("3");
    reveal_strlit("r");
    reveal_strlit("t");
    reveal_strlit("s");
    reveal_strlit("0");
    reveal_strlit("1");
    assert("p"@ =~= seq!['p']);
    assert("d"@ =~= seq!['d']);
    assert("i"@ =~= seq!['i']);
    assert("3"@ =~= seq!['3']);
    assert("r"@ =~= seq!['r']);
    assert("t"@ =~= seq!['t']);
    assert("s"@ =~= seq!['s']);
    assert("0"@ =~= seq!['0']);
    assert("1"@ =~= seq!['1']);
    assert forall|a: char, b: char| a != b implies seq![a] != #[trigger] seq![b] by {
        assert(seq![a][0] == a && seq![b][0] == b);
    }
    lemma_last_pair(raw, 'p', v);
    lemma_last_pair(raw, 'd', v);
    lemma_last_pair(raw, 'i', v);
    lemma_last_pair(raw, '3', v);
    lemma_last_pair(raw, 'r', v);
    lemma_last_pair(raw, 't', v);
    lemma_last_pair(raw, 's', v);
    lemma_last_pair(raw, '0', v);
    lemma_last_pair(raw, '1', v);
}

/// A row gives the card of its first column: the pronunciation is the second,
/// unless that is empty, the definitions are the lines of the third, the glosses
/// those of the fourth, the rating the number in the sixth, `1` in the seventh
/// marks the Oxford words, the tags are the words of the eighth, and the forms
/// stand in the eleventh.
pub proof fn law_row_columns(row: Seq<Seq<char>>, n: u8)
    requires
        row.len() >= 11,
    ensures
        ({
            let c = row_card(row)->0;
            &&& c.found && c.word == row[0] && c.source == "ecdict"@ && c.suggestions.len() == 0
            &&& row[1].len() == 0 ==> c.phonetic is None
            &&& row[1].len() > 0 ==> c.phonetic is Some && c.phonetic->0.uk == Some(row[1])
                && c.phonetic->0.us is None
            &&& c.definition == text::fields(row[2], Sep::One('\n'))
            &&& c.pos == dict::grouped(row[3])
            &&& row[5] == text::decimal(n as nat) ==> c.collins == Some(n)
            &&& row[5].len() == 0 ==> c.collins is None
            &&& c.oxford <==> row[6] == seq!['1']
            &&& c.tags == text::words(row[7])
            &&& c.exchange == exchange_of(row[10])
        }),
        ({
            let e = row_entry(row)->0;
            &&& e.word == row[0] && e.phonetic == row[1] && e.definition == row[2]
            &&& e.translation == row[3]
            &&& e.oxford == 1 <==> row[6] == seq!['1']
            &&& e.oxford == 0 || e.oxford == 1
            &&& row[8] == text::decimal(n as nat) ==> e.bnc == n
            &&& row[9] == text::decimal(n as nat) ==> e.frq == n
            &&& text::words(e.tags) == text::words(row[7])
            &&& e.exchange == exchange_of(row[10])
            &&& e.forms == inflections(exchange_of(row[10]))
        }),
{
    reveal_strlit("1");
    reveal_strlit(" ");
    assert("1"@ =~= seq!['1']);
    assert(" "@ =~= seq![' ']);
    text::lemma_words(row[7]);
    text::lemma_words_of_join(text::words(row[7]));
    let d = text::decimal(n as nat);
    text::lemma_decimal(n as nat);
    assert(text::is_digit(d[0]));
    assert(text::all_digits(d));
    assert(text::parsed_int(d, 0, 255) == Some(n as int));
    assert(text::parsed_int(d, i64::MIN as int, i64::MAX as int) == Some(n as int));
}

// Imports into a store

/// A store of entries: the entry of each word, and the word that each inflected
/// form leads to.
#[verifier::ext_equal]
pub struct StoreModel {
    pub entries: Map<Seq<char>, EntryModel>,
    pub forms: Map<Seq<char>, Seq<char>>,
}

/// How many rows change when an entry is stored: none where its word has one.
pub open spec fn rows_changed(m: StoreModel, e: EntryModel) -> nat {
    if m.entries.contains_key(e.word) {
        0
    } else {
        1
    }
}

/// Forms that lead to `word`, added where they lead nowhere yet.
pub open spec fn add_forms(
    forms: Map<Seq<char>, Seq<char>>,
    fs: Seq<Seq<char>>,
    word: Seq<char>,
) -> Map<Seq<char>, Seq<char>>
    decreases fs.len(),
{
    if fs.len() == 0 {
        forms
    } else {
        let before = add_forms(forms, fs.drop_last(), word);
        if before.contains_key(fs.last()) {
            before
        } else {
            before.insert(fs.last(), word)
        }
    }
}

/// The store after an entry, and how many entries are new.
pub open spec fn store_entry(m: StoreModel, e: EntryModel) -> (StoreModel, nat) {
    let (new, forms) = stored(e, rows_changed(m, e));
    (
        StoreModel {
            entries: if rows_changed(m, e) == 1 {
                m.entries.insert(e.word, e)
            } else {
                m.entries
            },
            forms: add_forms(m.forms, forms, e.word),
        },
        new,
    )
}

/// The store after a list of entries, and how many of them are new.
pub open spec fn store_all(m: StoreModel, es: Seq<EntryModel>) -> (StoreModel, nat)
    decreases es.len(),
{
    if es.len() == 0 {
        (m, 0)
    } else {
        let (before, n) = store_all(m, es.drop_last());
        let (after, new) = store_entry(before, es.last());
        (after, n + new)
    }
}

proof fn lemma_all_stored(m: StoreModel, es: Seq<EntryModel>)
    ensures
        forall|i: int|
            0 <= i < es.len() ==> store_all(m, es).0.entries.contains_key((#[trigger] es[i]).word),
    decreases es.len(),
{
    if es.len() > 0 {
        lemma_all_stored(m, es.drop_last());
        let after = store_all(m, es).0.entries;
        assert forall|i: int| 0 <= i < es.len() implies after.contains_key(
            (#[trigger] es[i]).word,
        ) by {
            if i < es.len() - 1 {
                assert(es.drop_last()[i] == es[i]);
            }
        }
    }
}

proof fn lemma_known_change_nothing(m: StoreModel, es: Seq<EntryModel>)
    requires
        forall|i: int| 0 <= i < es.len() ==> m.entries.contains_key((#[trigger] es[i]).word),
    ensures
        store_all(m, es) == (m, 0nat),
    decreases es.len(),
{
    if es.len() > 0 {
        assert forall|i: int| 0 <= i < es.drop_last().len() implies m.entries.contains_key(
            (#[trigger] es.drop_last()[i]).word,
        ) by {
            assert(es.drop_last()[i] == es[i]);
        }
        lemma_known_change_nothing(m, es.drop_last());
        assert(m.entries.contains_key(es[es.len() - 1].word));
        assert(add_forms(m.forms, Seq::empty(), es.last().word) == m.forms);
    }
}

/// Entries that were stored once store nothing new a second time, and leave the
/// entries and the forms as they are.
pub proof fn law_stored_again_changes_nothing(m: StoreModel, es: Seq<EntryModel>)
    ensures
        store_all(store_all(m, es).0, es) == (store_all(m, es).0, 0nat),
{
    lemma_all_stored(m, es);
    lemma_known_change_nothing(store_all(m, es).0, es);
}

/// A second import of the same comma-separated file changes nothing.
pub proof fn law_second_import_changes_nothing(m: StoreModel, data: Seq<u8>)
    ensures
        ({
            let es = entries_of(csv_records(data));
            store_all(store_all(m, es).0, es) == (store_all(m, es).0, 0nat)
        }),
{
    law_stored_again_changes_nothing(m, entries_of(csv_records(data)));
}

proof fn lemma_forms_lead(
    forms: Map<Seq<char>, Seq<char>>,
    fs: Seq<Seq<char>>,
    word: Seq<char>,
)
    ensures
        forall|f: Seq<char>| #[trigger] fs.contains(f) ==> add_forms(forms, fs, word).contains_key(f),
        forall|f: Seq<char>| #[trigger] add_forms(forms, fs, word).contains_key(f) ==> (
        forms.contains_key(f) && add_forms(forms, fs, word)[f] == forms[f]) || (fs.contains(f)
            && add_forms(forms, fs, word)[f] == word),
        forall|f: Seq<char>| #[trigger] forms.contains_key(f) ==> add_forms(
            forms,
            fs,
            word,
        ).contains_key(f) && add_forms(forms, fs, word)[f] == forms[f],
    decreases fs.len(),
{
    if fs.len() > 0 {
        let init = fs.drop_last();
        lemma_forms_lead(forms, init, word);
        let before = add_forms(forms, init, word);
        let after = add_forms(forms, fs, word);
        assert(fs[fs.len() - 1] == fs.last());
        assert forall|f: Seq<char>| #[trigger] fs.contains(f) implies after.contains_key(f) by {
            let i = fs.index_of(f);
            if i < init.len() {
                assert(init[i] == f);
                assert(init.contains(f));
            }
        }
        assert forall|f: Seq<char>| #[trigger] after.contains_key(f) implies (forms.contains_key(f)
            && after[f] == forms[f]) || (fs.contains(f) && after[f] == word) by {
            if before.contains_key(f) {
                if init.contains(f) {
                    let i = init.index_of(f);
                    assert(fs[i] == f);
                }
            }
        }
    }
}

/// After a list of entries was stored, beginning with an empty store, each word
/// has an entry, that of the first entry with the word; each form of a stored
/// entry leads to a word; and a form leads to a word only where an entry of that
/// word has it.
pub proof fn law_stored_forms_lead_to_their_words(es: Seq<EntryModel>)
    ensures
        ({
            let m = store_all(
                StoreModel { entries: Map::empty(), forms: Map::empty() },
                es,
            ).0;
            &&& forall|i: int|
                0 <= i < es.len() ==> m.entries.contains_key((#[trigger] es[i]).word)
            &&& forall|w: Seq<char>| #[trigger]
                m.entries.contains_key(w) ==> m.entries[w].word == w && es.contains(m.entries[w])
            &&& forall|w: Seq<char>, f: Seq<char>|
                m.entries.contains_key(w) && #[trigger] m.entries[w].forms.contains(f)
                    ==> m.forms.contains_key(f)
            &&& forall|f: Seq<char>| #[trigger]
                m.forms.contains_key(f) ==> m.entries.contains_key(m.forms[f])
                    && m.entries[m.forms[f]].forms.contains(f)
        }),
    decreases es.len(),
{
    let none = StoreModel { entries: Map::empty(), forms: Map::empty() };
    if es.len() > 0 {
        let init = es.drop_last();
        law_stored_forms_lead_to_their_words(init);
        let b = store_all(none, init).0;
        let e = es.last();
        let m = store_all(none, es).0;
        assert(es[es.len() - 1] == e);
        assert forall|i: int| 0 <= i < es.len() implies m.entries.contains_key(
            (#[trigger] es[i]).word,
        ) by {
            if i < init.len() {
                assert(init[i] == es[i]);
            }
        }
        assert forall|w: Seq<char>| #[trigger] m.entries.contains_key(w) implies m.entries[w].word
            == w && es.contains(m.entries[w]) by {
            if b.entries.contains_key(w) {
                let i = init.index_of(b.entries[w]);
                assert(es[i] == b.entries[w]);
            }
        }
        let fs = if rows_changed(b, e) == 1 {
            e.forms
        } else {
            Seq::empty()
        };
        lemma_forms_lead(b.forms, fs, e.word);
        assert(m.forms == add_forms(b.forms, fs, e.word));
        assert forall|w: Seq<char>, f: Seq<char>|
            m.entries.contains_key(w) && #[trigger] m.entries[w].forms.contains(
                f,
            ) implies m.forms.contains_key(f) by {
            if rows_changed(b, e) == 1 && w == e.word {
                assert(fs.contains(f));
            } else {
                assert(b.entries.contains_key(w));
                assert(b.entries[w].forms.contains(f));
                assert(b.forms.contains_key(f));
            }
        }
        assert forall|f: Seq<char>| #[trigger] m.forms.contains_key(f) implies m.entries.contains_key(
            m.forms[f],
        ) && m.entries[m.forms[f]].forms.contains(f) by {
            if b.forms.contains_key(f) {
                assert(m.forms[f] == b.forms[f]);
                assert(b.entries.contains_key(b.forms[f]));
            } else {
                assert(fs.contains(f) && m.forms[f] == e.word);
            }
        }
    }
}

/// An import that no record stops stores every row that is wide enough.
pub proof fn law_import_skips_only_narrow_rows(records: Seq<RecordModel>, i: int)
    requires
        error_of(records) is None,
        0 <= i < records.len(),
        records[i]->Row_0.len() >= 11,
    ensures
        entries_of(records).contains(row_entry(records[i]->Row_0)->0),
    decreases records.len(),
{
    let e = row_entry(records[i]->Row_0)->0;
    let rest = records.skip(1);
    if i > 0 {
        assert(rest[i - 1] == records[i]);
        law_import_skips_only_narrow_rows(rest, i - 1);
        let k = entries_of(rest).index_of(e);
        match row_entry(records[0]->Row_0) {
            Some(first) => {
                assert((seq![first] + entries_of(rest))[k + 1] == e);
            },
            None => {},
        }
    } else {
        assert((seq![e] + entries_of(rest))[0] == e);
    }
}

/// The forms under which a row is stored are exactly the inflected forms that its
/// own column of forms gives, whichever of the seven they are. They are stored
/// where the entry is new, and nothing is where it was there.
pub proof fn law_entry_forms(
    row: &[&str],
    r: Option<Entry>,
    f: Seq<char>,
    changed: usize,
    s: (u64, Vec<String>),
)
    requires
        call_ensures(row_to_entry, (row,), r),
        r is Some,
        call_ensures(Entry::stored, (&r->0, changed), s),
    ensures
        ({
            let e = r->0.deep_view();
            &&& e.exchange is None ==> e.forms.len() == 0
            &&& e.exchange is Some ==> {
                let x = e.exchange->0;
                e.forms.contains(f) <==> x.past == Some(f) || x.pp == Some(f) || x.ing == Some(f)
                    || x.third == Some(f) || x.comparative == Some(f) || x.superlative == Some(f)
                    || x.plural == Some(f)
            }
            &&& changed == 1 ==> s.0 == 1 && s.1.deep_view() == e.forms
            &&& changed != 1 ==> s.0 == 0 && s.1.deep_view().len() == 0
        }),
{
    let e = r->0.deep_view();
    assert(r.deep_view() == Some(e));
    if e.exchange is Some {
        law_forms_are_the_inflections(e.exchange->0, f);
    }
}

/// The inflected forms stand in the order of tense, person, degree and number.
pub proof fn law_order_of_forms(x: ExchangeModel)
    requires
        x.past is Some,
        x.pp is Some,
        x.ing is Some,
        x.third is Some,
        x.comparative is Some,
        x.superlative is Some,
        x.plural is Some,
    ensures
        inflections(Some(x)) == seq![
            x.past->0,
            x.pp->0,
            x.ing->0,
            x.third->0,
            x.comparative->0,
            x.superlative->0,
            x.plural->0,
        ],
{
    assert(inflections(Some(x)) =~= seq![
        x.past->0,
        x.pp->0,
        x.ing->0,
        x.third->0,
        x.comparative->0,
        x.superlative->0,
        x.plural->0,
    ]);
}

/// A number in the official database stands for its decimal text, a text for
/// itself, and anything else for an empty text.
pub proof fn law_cells(n: i64, t: String)
    ensures
        cell_text(Cell::Integer(n)) == text::signed_decimal(n as int),
        cell_text(Cell::Text(t)) == t@,
        cell_text(Cell::Null).len() == 0,
        cell_text(Cell::Other).len() == 0,
{
}

/// An import stores the entry of each row before the first record that could not
/// be read, in order, leaves out rows without one, and reports that record.
pub proof fn law_import(row: Seq<Seq<char>>, more: Seq<RecordModel>, why: Seq<char>)
    ensures
        row_entry(row) is Some ==> entries_of(seq![RecordModel::Row(row)] + more) == seq![
            row_entry(row)->0,
        ] + entries_of(more),
        row_entry(row) is None ==> entries_of(seq![RecordModel::Row(row)] + more) == entries_of(
            more,
        ),
        error_of(seq![RecordModel::Row(row)] + more) == error_of(more),
        entries_of(seq![RecordModel::Bad(why)] + more).len() == 0,
        error_of(seq![RecordModel::Bad(why)] + more) == Some(why),
        entries_of(Seq::empty()).len() == 0,
        error_of(Seq::empty()) is None,
{
    let a = seq![RecordModel::Row(row)] + more;
    assert(a[0] == RecordModel::Row(row));
    assert(a.skip(1) =~= more);
    let b = seq![RecordModel::Bad(why)] + more;
    assert(b[0] == RecordModel::Bad(why));
}

} // verus!
