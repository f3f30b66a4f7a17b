//! A TOML file that is changed in place: one switch is set, and everything else
//! stays as it is written.

use crate::json;
use vstd::prelude::*;

verus! {

/// `toml_edit::DocumentMut`, a TOML file that was read, with all that is written
/// in it.
#[verifier::external_type_specification]
#[verifier::external_body]
pub struct ExDocumentMut(toml_edit::DocumentMut);

/// For each name at the top of a file, whether a table stands under it.
pub uninterp spec fn doc_tables(d: toml_edit::DocumentMut) -> Map<Seq<char>, bool>;

/// What stands under each key of each table, without the space and the comments
/// round it.
pub uninterp spec fn doc_values(d: toml_edit::DocumentMut) -> Map<
    (Seq<char>, Seq<char>),
    Seq<char>,
>;

/// The space and the comments that are written before and behind the keys of the
/// tables. A key for which none is kept has no place here.
pub uninterp spec fn doc_keys(d: toml_edit::DocumentMut) -> Map<
    (Seq<char>, Seq<char>),
    (Seq<char>, Seq<char>),
>;

/// The space and the comments that are written before and behind the values of
/// the tables. A value for which not both are kept has no place here.
pub uninterp spec fn doc_tails(d: toml_edit::DocumentMut) -> Map<
    (Seq<char>, Seq<char>),
    (Seq<char>, Seq<char>),
>;

/// The text of a file.
pub uninterp spec fn doc_text(d: toml_edit::DocumentMut) -> Seq<char>;

/// What a TOML file says, and what is written round it.
#[verifier::ext_equal]
pub struct FileModel {
    pub tables: Map<Seq<char>, bool>,
    pub values: Map<(Seq<char>, Seq<char>), Seq<char>>,
    pub keys: Map<(Seq<char>, Seq<char>), (Seq<char>, Seq<char>)>,
    pub tails: Map<(Seq<char>, Seq<char>), (Seq<char>, Seq<char>)>,
}

/// What a file says, and what is written round it.
pub open spec fn file_of(d: toml_edit::DocumentMut) -> FileModel {
    FileModel {
        tables: doc_tables(d),
        values: doc_values(d),
        keys: doc_keys(d),
        tails: doc_tails(d),
    }
}

/// What `toml_edit` reads from a text, or why it is not TOML.
pub uninterp spec fn toml_of(text: Seq<char>) -> Result<FileModel, Seq<char>>;

/// `DocumentMut::from_str`: the file that a text is, or the text of the error.
/// What the file holds depends on the text alone.
#[verifier::external_body]
fn parse(text: &str) -> (r: Result<toml_edit::DocumentMut, String>)
    ensures
        match r {
            Ok(d) => toml_of(text@) == Ok::<FileModel, Seq<char>>(file_of(d)),
            Err(why) => toml_of(text@) == Err::<FileModel, Seq<char>>(why@),
        },
{
    text.parse::<toml_edit::DocumentMut>().map_err(|e| e.to_string())
}

/// `DocumentMut::to_string`: the text of a file. That it reads as the same file
/// again is not claimed: any text can be put round a value.
#[verifier::external_body]
fn print(d: &toml_edit::DocumentMut) -> (r: String)
    ensures
        r@ == doc_text(*d),
{
    d.to_string()
}

/// `Table::get` at the top of the file, and `Item::is_table_like` of what is
/// there: whether it is a table, inline or not; nothing where there is nothing.
#[verifier::external_body]
fn table_at(d: &toml_edit::DocumentMut, name: &str) -> (r: Option<bool>)
    ensures
        r == (if doc_tables(*d).contains_key(name@) {
            Some(doc_tables(*d)[name@])
        } else {
            None
        }),
{
    d.get(name).map(|item| item.is_table_like())
}

/// `Table::insert` at the top of the file, of a new table without keys. Nothing
/// else changes.
#[verifier::external_body]
fn add_table(d: &mut toml_edit::DocumentMut, name: &str)
    requires
        !doc_tables(*old(d)).contains_key(name@),
    ensures
        doc_tables(*final(d)) == doc_tables(*old(d)).insert(name@, true),
        doc_values(*final(d)) == doc_values(*old(d)),
        doc_keys(*final(d)) == doc_keys(*old(d)),
        doc_tails(*final(d)) == doc_tails(*old(d)),
{
    d.insert(name, toml_edit::table());
}

/// `Value::decor` of the value under a key of a table: what is written before
/// and behind it, where there is a value and both are kept.
#[verifier::external_body]
fn tail_of(d: &toml_edit::DocumentMut, table: &str, key: &str) -> (r: Option<(String, String)>)
    ensures
        r.deep_view() == (if doc_tails(*d).contains_key((table@, key@)) {
            Some(doc_tails(*d)[(table@, key@)])
        } else {
            None
        }),
{
    let decor = d.get(table)?.get(key)?.as_value()?.decor();
    let (before, behind) = (decor.prefix()?.as_str()?, decor.suffix()?.as_str()?);
    Some((before.to_string(), behind.to_string()))
}

/// `toml_edit::value`, put under a key of a table by `IndexMut`, which leaves a
/// key that is there as it is and adds one that is not. A new value has nothing
/// written round it. Nothing else changes.
#[verifier::external_body]
fn put(d: &mut toml_edit::DocumentMut, table: &str, key: &str, value: bool)
    requires
        doc_tables(*old(d)).contains_key(table@),
        doc_tables(*old(d))[table@],
    ensures
        doc_tables(*final(d)) == doc_tables(*old(d)),
        doc_values(*final(d)) == doc_values(*old(d)).insert(
            (table@, key@),
            json::bool_text(value),
        ),
        doc_keys(*final(d)) == doc_keys(*old(d)),
        doc_tails(*final(d)) == doc_tails(*old(d)).remove((table@, key@)),
{
    d[table][key] = toml_edit::value(value);
}

/// `Value::decorated` of a new value, put under a key of a table by `IndexMut`
/// as above: the value stands between the two texts. Nothing else changes.
#[verifier::external_body]
fn put_between(
    d: &mut toml_edit::DocumentMut,
    table: &str,
    key: &str,
    value: bool,
    before: &str,
    behind: &str,
)
    requires
        doc_tables(*old(d)).contains_key(table@),
        doc_tables(*old(d))[table@],
    ensures
        doc_tables(*final(d)) == doc_tables(*old(d)),
        doc_values(*final(d)) == doc_values(*old(d)).insert(
            (table@, key@),
            json::bool_text(value),
        ),
        doc_keys(*final(d)) == doc_keys(*old(d)),
        doc_tails(*final(d)) == doc_tails(*old(d)).insert((table@, key@), (before@, behind@)),
{
    d[table][key] = toml_edit::value(toml_edit::Value::from(value).decorated(before, behind));
}

/// Whether something that is no table stands under a name.
pub open spec fn blocked(f: FileModel, table: Seq<char>) -> bool {
    f.tables.contains_key(table) && !f.tables[table]
}

/// A file with a switch set: its table is there, and nothing else changes, what
/// is written round the switch included.
pub open spec fn with_switch(
    f: FileModel,
    table: Seq<char>,
    key: Seq<char>,
    value: bool,
) -> FileModel {
    FileModel {
        tables: f.tables.insert(table, true),
        values: f.values.insert((table, key), json::bool_text(value)),
        ..f
    }
}

/// Sets a switch in a table, which is made where it is missing. Where something
/// else stands in its place, nothing changes.
pub fn set_switch(d: &mut toml_edit::DocumentMut, table: &str, key: &str, value: bool) -> (r: bool)
    ensures
        r == !blocked(file_of(*old(d)), table@),
        r ==> file_of(*final(d)) == with_switch(file_of(*old(d)), table@, key@, value),
        !r ==> *final(d) == *old(d),
{
    let ghost before = file_of(*d);
    match table_at(d, table) {
        Some(true) => {},
        Some(false) => {
            return false;
        },
        None => add_table(d, table),
    }
    assert(doc_tables(*d) =~= before.tables.insert(table@, true));
    match tail_of(d, table, key) {
        Some((front, back)) => {
            put_between(d, table, key, value, &front, &back);
            assert(doc_tails(*d) =~= before.tails);
        },
        None => {
            put(d, table, key, value);
            assert(doc_tails(*d) =~= before.tails);
        },
    }
    true
}

/// What came of setting a switch in a text.
#[derive(Debug, Clone, PartialEq)]
pub enum Edit {
    /// The text is not TOML, for this reason.
    NotToml(String),
    /// Something that is no table stands in the place of the table.
    NoTable,
    /// The text with the switch set.
    Text(String),
}

/// Whether a text may come of setting a switch: it is the text of the file with
/// the switch set.
pub open spec fn shows_switch(
    t: Seq<char>,
    f: FileModel,
    table: Seq<char>,
    key: Seq<char>,
    value: bool,
) -> bool {
    exists|d: toml_edit::DocumentMut| #[trigger]
        doc_text(d) == t && file_of(d) == with_switch(f, table, key, value)
}

/// Sets a switch in a text.
pub fn edit(text: &str, table: &str, key: &str, value: bool) -> (r: Edit)
    ensures
        match toml_of(text@) {
            Err(why) => r matches Edit::NotToml(w) && w@ == why,
            Ok(f) => if blocked(f, table@) {
                r is NoTable
            } else {
                r is Text && shows_switch(r->Text_0@, f, table@, key@, value)
            },
        },
{
    match parse(text) {
        Err(why) => Edit::NotToml(why),
        Ok(mut d) => if set_switch(&mut d, table, key, value) {
            let t = print(&d);
            assert(doc_text(d) == t@);
            Edit::Text(t)
        } else {
            Edit::NoTable
        },
    }
}

// Laws

/// Setting a switch gives it its value and changes no other value, no other
/// table and nothing that is written round keys and values; the last setting
/// counts; and a switch can be set wherever it was set before.
pub proof fn law_only_the_switch_changes(
    f: FileModel,
    table: Seq<char>,
    key: Seq<char>,
    first: bool,
    value: bool,
)
    ensures
        with_switch(f, table, key, value).values.contains_key((table, key)),
        with_switch(f, table, key, value).values[(table, key)] == json::bool_text(value),
        forall|t: Seq<char>, k: Seq<char>|
            (t, k) != (table, key) ==> (#[trigger] with_switch(
                f,
                table,
                key,
                value,
            ).values.contains_key((t, k)) <==> f.values.contains_key((t, k))) && (
            f.values.contains_key((t, k)) ==> with_switch(f, table, key, value).values[(t, k)]
                == f.values[(t, k)]),
        forall|t: Seq<char>|
            t != table ==> (#[trigger] with_switch(f, table, key, value).tables.contains_key(t)
                <==> f.tables.contains_key(t)) && (f.tables.contains_key(t) ==> with_switch(
                f,
                table,
                key,
                value,
            ).tables[t] == f.tables[t]),
        with_switch(f, table, key, value).keys == f.keys,
        with_switch(f, table, key, value).tails == f.tails,
        with_switch(with_switch(f, table, key, first), table, key, value) == with_switch(
            f,
            table,
            key,
            value,
        ),
        !blocked(with_switch(f, table, key, first), table),
{
    assert(with_switch(with_switch(f, table, key, first), table, key, value) =~= with_switch(
        f,
        table,
        key,
        value,
    ));
}

} // verus!
