//! JSON as text on a single line.

use crate::text;
use vstd::prelude::*;

verus! {

/// The hexadecimal digit for a value below 16.
pub open spec fn hex_char(n: int) -> char {
    if n < 10 {
        (48 + n) as char
    } else {
        (87 + n) as char
    }
}

/// How a character stands in a JSON string: quotes, backslashes and the control
/// characters before the space are escaped, everything else stands for itself.
pub open spec fn escaped(c: char) -> Seq<char> {
    let n = c as int;
    if c == '"' {
        seq!['\\', '"']
    } else if c == '\\' {
        seq!['\\', '\\']
    } else if n == 0x08 {
        seq!['\\', 'b']
    } else if n == 0x09 {
        seq!['\\', 't']
    } else if n == 0x0A {
        seq!['\\', 'n']
    } else if n == 0x0C {
        seq!['\\', 'f']
    } else if n == 0x0D {
        seq!['\\', 'r']
    } else if n < 0x20 {
        seq!['\\', 'u', '0', '0', hex_char(n / 16), hex_char(n % 16)]
    } else {
        seq![c]
    }
}

/// The characters of `s`, each as it stands in a JSON string.
pub open spec fn escape(s: Seq<char>) -> Seq<char>
    decreases s.len(),
{
    if s.len() == 0 {
        s
    } else {
        escape(s.drop_last()) + escaped(s.last())
    }
}

/// `s` as a JSON string.
pub open spec fn quoted(s: Seq<char>) -> Seq<char> {
    seq!['"'] + escape(s) + seq!['"']
}

/// `serde_json::to_string` on a text: a JSON string in quotes, with the escapes
/// of [`escaped`] and nothing else changed. Writing to a string never fails.
#[verifier::external_body]
pub(crate) fn quote(s: &str) -> (r: String)
    ensures
        r@ == quoted(s@),
{
    serde_json::to_string(s).unwrap()
}

/// What `serde_json` writes on several lines for the value that it reads from a
/// text, if it reads one.
pub uninterp spec fn pretty_text(s: Seq<char>) -> Option<Seq<char>>;

/// `serde_json::from_str` to a `serde_json::Value`, and
/// `serde_json::to_string_pretty` on that value, with `None` where the text is
/// not JSON. What is written depends on the text alone.
#[verifier::external_body]
pub(crate) fn pretty(s: &str) -> (r: Option<String>)
    ensures
        r.deep_view() == pretty_text(s@),
{
    let value = serde_json::from_str::<serde_json::Value>(s).ok()?;
    serde_json::to_string_pretty(&value).ok()
}

/// Each member as a JSON string.
pub open spec fn quoted_each(l: Seq<Seq<char>>) -> Seq<Seq<char>> {
    l.map_values(|s: Seq<char>| quoted(s))
}

/// The text of a boolean.
pub open spec fn bool_text(b: bool) -> Seq<char> {
    if b {
        "true"@
    } else {
        "false"@
    }
}

/// A field of an object.
pub open spec fn field(name: Seq<char>, value: Seq<char>) -> Seq<char> {
    quoted(name) + ":"@ + value
}

/// An object of the given fields.
pub open spec fn object(fields: Seq<Seq<char>>) -> Seq<char> {
    "{"@ + text::join(fields, ","@) + "}"@
}

/// An array of the given values.
pub open spec fn array(values: Seq<Seq<char>>) -> Seq<char> {
    "["@ + text::join(values, ","@) + "]"@
}

/// The field, where there is a value.
pub open spec fn some_field(name: Seq<char>, value: Option<Seq<char>>) -> Seq<Seq<char>> {
    match value {
        Some(v) => seq![field(name, v)],
        None => Seq::empty(),
    }
}

/// The field with an array of values, where there is one at least.
pub open spec fn list_field(name: Seq<char>, values: Seq<Seq<char>>) -> Seq<Seq<char>> {
    if values.len() == 0 {
        Seq::empty()
    } else {
        seq![field(name, array(values))]
    }
}

/// The optional text as a JSON string.
pub open spec fn quoted_opt(s: Option<Seq<char>>) -> Option<Seq<char>> {
    match s {
        Some(t) => Some(quoted(t)),
        None => None,
    }
}

/// The fields of an object under construction.
pub struct Fields {
    list: Vec<String>,
}

impl View for Fields {
    type V = Seq<Seq<char>>;

    closed spec fn view(&self) -> Seq<Seq<char>> {
        self.list.deep_view()
    }
}

impl Fields {
    /// No field.
    pub fn new() -> (r: Fields)
        ensures
            r@ == Seq::<Seq<char>>::empty(),
    {
        let r = Fields { list: Vec::new() };
        assert(r@ =~= Seq::<Seq<char>>::empty());
        r
    }

    /// Adds a field whose value is JSON already.
    pub fn put(&mut self, name: &str, value: &str)
        ensures
            final(self)@ == old(self)@ + seq![field(name@, value@)],
    {
        let ghost before = self@;
        let mut f = quote(name);
        f.append(":");
        f.append(value);
        let ghost added = f@;
        self.list.push(f);
        assert(self@ =~= before + seq![added]);
    }

    /// Adds a field with a text.
    pub fn put_text(&mut self, name: &str, value: &str)
        ensures
            final(self)@ == old(self)@ + seq![field(name@, quoted(value@))],
    {
        self.put(name, &quote(value));
    }

    /// Adds a field with a boolean.
    pub fn put_bool(&mut self, name: &str, value: bool)
        ensures
            final(self)@ == old(self)@ + seq![field(name@, bool_text(value))],
    {
        if value {
            self.put(name, "true");
        } else {
            self.put(name, "false");
        }
    }

    /// Adds a field with a number.
    pub fn put_number(&mut self, name: &str, value: u64)
        ensures
            final(self)@ == old(self)@ + seq![field(name@, text::decimal(value as nat))],
    {
        self.put(name, &text::decimal_text(value as u128));
    }

    /// Adds a field with a text, where there is one.
    pub fn put_opt(&mut self, name: &str, value: &Option<String>)
        ensures
            final(self)@ == old(self)@ + some_field(name@, quoted_opt(value.deep_view())),
    {
        match value {
            Some(v) => self.put_text(name, v),
            None => {
                assert(self@ + Seq::<Seq<char>>::empty() =~= self@);
            },
        }
    }

    /// Adds a field with an array of values that are JSON already, where there
    /// is one at least.
    pub fn put_list(&mut self, name: &str, values: &Vec<String>)
        ensures
            final(self)@ == old(self)@ + list_field(name@, values.deep_view()),
    {
        assert(values.deep_view().len() == values@.len());
        if values.len() == 0 {
            assert(self@ + Seq::<Seq<char>>::empty() =~= self@);
        } else {
            self.put(name, &array_of(values));
        }
    }

    /// The object.
    pub fn finish(&self) -> (r: String)
        ensures
            r@ == object(self@),
    {
        let mut r = text::cat("{", &text::join_all(&self.list, ","));
        r.append("}");
        r
    }
}

/// An array of values that are JSON already.
pub fn array_of(values: &Vec<String>) -> (r: String)
    ensures
        r@ == array(values.deep_view()),
{
    let mut r = text::cat("[", &text::join_all(values, ","));
    r.append("]");
    r
}

/// Each text as a JSON string.
pub fn quote_each(l: &Vec<String>) -> (r: Vec<String>)
    ensures
        r.deep_view() == quoted_each(l.deep_view()),
{
    let ghost want = quoted_each(l.deep_view());
    let mut r: Vec<String> = Vec::new();
    let mut i: usize = 0;
    while i < l.len()
        invariant
            i <= l@.len(),
            want == quoted_each(l.deep_view()),
            r.deep_view() == want.take(i as int),
        decreases l@.len() - i,
    {
        let ghost before = r.deep_view();
        r.push(quote(&l[i]));
        assert(r.deep_view() =~= before.push(want[i as int]));
        assert(want.take(i + 1) =~= before.push(want[i as int]));
        i += 1;
    }
    assert(want.take(i as int) =~= want);
    r
}

// Single lines

/// Whether a text holds no control character before the space: no line break
/// and nothing else that would end or spoil a line.
pub open spec fn one_line(s: Seq<char>) -> bool {
    forall|i: int| 0 <= i < s.len() ==> (#[trigger] s[i]) as u32 >= 0x20
}

/// Two texts without a break make one without a break.
pub broadcast proof fn lemma_one_line_cat(a: Seq<char>, b: Seq<char>)
    requires
        one_line(a),
        one_line(b),
    ensures
        one_line(#[trigger] (a + b)),
{
    assert forall|i: int| 0 <= i < (a + b).len() implies (#[trigger] (a + b)[i]) as u32 >= 0x20 by {
        if i < a.len() {
            assert((a + b)[i] == a[i]);
        } else {
            assert((a + b)[i] == b[i - a.len()]);
        }
    }
}

/// A JSON string has no break, whatever it holds.
pub broadcast proof fn lemma_quoted_is_one_line(s: Seq<char>)
    ensures
        one_line(#[trigger] quoted(s)),
{
    lemma_escape_is_one_line(s);
    lemma_one_line_cat(seq!['"'], escape(s));
    lemma_one_line_cat(seq!['"'] + escape(s), seq!['"']);
}

proof fn lemma_escaped_is_one_line(c: char)
    ensures
        one_line(escaped(c)),
{
    let n = c as int;
    if n < 0x20 {
        assert(0 <= n / 16 < 2 && 0 <= n % 16 < 16);
        assert(hex_char(n / 16) as u32 >= 0x20);
        assert(hex_char(n % 16) as u32 >= 0x20);
    }
}

proof fn lemma_escape_is_one_line(s: Seq<char>)
    ensures
        one_line(escape(s)),
    decreases s.len(),
{
    if s.len() > 0 {
        lemma_escape_is_one_line(s.drop_last());
        lemma_escaped_is_one_line(s.last());
        lemma_one_line_cat(escape(s.drop_last()), escaped(s.last()));
    }
}

/// Texts without a break, joined by one without a break, make one.
pub proof fn lemma_join_is_one_line(ps: Seq<Seq<char>>, sep: Seq<char>)
    requires
        one_line(sep),
        forall|i: int| 0 <= i < ps.len() ==> one_line(#[trigger] ps[i]),
    ensures
        one_line(text::join(ps, sep)),
    decreases ps.len(),
{
    if ps.len() > 1 {
        lemma_join_is_one_line(ps.drop_last(), sep);
        lemma_one_line_cat(text::join(ps.drop_last(), sep), sep);
        lemma_one_line_cat(text::join(ps.drop_last(), sep) + sep, ps.last());
    }
}

/// Decimal numbers have no break.
pub broadcast proof fn lemma_decimal_is_one_line(n: nat)
    ensures
        one_line(#[trigger] text::decimal(n)),
{
    text::lemma_decimal(n);
    assert forall|i: int| 0 <= i < text::decimal(n).len() implies (#[trigger] text::decimal(
        n,
    )[i]) as u32 >= 0x20 by {
        assert(text::is_digit(text::decimal(n)[i]));
    }
}

/// Booleans have no break.
pub broadcast proof fn lemma_bool_is_one_line(b: bool)
    ensures
        one_line(#[trigger] bool_text(b)),
{
    reveal_strlit("true");
    reveal_strlit("false");
}

/// A field has no break where its value has none.
pub broadcast proof fn lemma_field_is_one_line(name: Seq<char>, value: Seq<char>)
    requires
        one_line(value),
    ensures
        one_line(#[trigger] field(name, value)),
{
    reveal_strlit(":");
    lemma_quoted_is_one_line(name);
    lemma_one_line_cat(quoted(name), ":"@);
    lemma_one_line_cat(quoted(name) + ":"@, value);
}

/// Whether no member has a break.
pub open spec fn one_line_each(ps: Seq<Seq<char>>) -> bool {
    forall|i: int| 0 <= i < ps.len() ==> one_line(#[trigger] ps[i])
}

/// Lists without breaks make one without breaks.
pub broadcast proof fn lemma_each_cat(a: Seq<Seq<char>>, b: Seq<Seq<char>>)
    requires
        one_line_each(a),
        one_line_each(b),
    ensures
        one_line_each(#[trigger] (a + b)),
{
    assert forall|i: int| 0 <= i < (a + b).len() implies one_line(#[trigger] (a + b)[i]) by {
        if i < a.len() {
            assert((a + b)[i] == a[i]);
        } else {
            assert((a + b)[i] == b[i - a.len()]);
        }
    }
}

/// One value without a break is a list without breaks.
pub broadcast proof fn lemma_each_one(a: Seq<char>)
    requires
        one_line(a),
    ensures
        #[trigger] one_line_each(seq![a]),
{
}

/// Quoted texts have no breaks.
pub broadcast proof fn lemma_each_quoted(l: Seq<Seq<char>>)
    ensures
        one_line_each(#[trigger] quoted_each(l)),
{
    assert forall|i: int| 0 <= i < quoted_each(l).len() implies one_line(
        #[trigger] quoted_each(l)[i],
    ) by {
        lemma_quoted_is_one_line(l[i]);
    }
}

/// An optional field with a text has no break.
pub broadcast proof fn lemma_each_opt(name: Seq<char>, s: Option<Seq<char>>)
    ensures
        one_line_each(#[trigger] some_field(name, quoted_opt(s))),
{
    match s {
        Some(t) => {
            lemma_quoted_is_one_line(t);
            lemma_field_is_one_line(name, quoted(t));
        },
        None => {},
    }
}

/// An optional list has no break where its values have none.
pub broadcast proof fn lemma_each_list(name: Seq<char>, values: Seq<Seq<char>>)
    requires
        one_line_each(values),
    ensures
        one_line_each(#[trigger] list_field(name, values)),
{
    lemma_array_is_one_line(values);
    lemma_field_is_one_line(name, array(values));
}

/// An object has no break where its fields have none.
pub broadcast proof fn lemma_object_is_one_line(fields: Seq<Seq<char>>)
    requires
        one_line_each(fields),
    ensures
        one_line(#[trigger] object(fields)),
{
    reveal_strlit("{");
    reveal_strlit("}");
    reveal_strlit(",");
    lemma_join_is_one_line(fields, ","@);
    lemma_one_line_cat("{"@, text::join(fields, ","@));
    lemma_one_line_cat("{"@ + text::join(fields, ","@), "}"@);
}

/// An array has no break where its values have none.
pub broadcast proof fn lemma_array_is_one_line(values: Seq<Seq<char>>)
    requires
        one_line_each(values),
    ensures
        one_line(#[trigger] array(values)),
{
    reveal_strlit("[");
    reveal_strlit("]");
    reveal_strlit(",");
    lemma_join_is_one_line(values, ","@);
    lemma_one_line_cat("["@, text::join(values, ","@));
    lemma_one_line_cat("["@ + text::join(values, ","@), "]"@);
}

/// What is known of JSON without breaks.
pub broadcast group group_one_line {
    lemma_quoted_is_one_line,
    lemma_decimal_is_one_line,
    lemma_bool_is_one_line,
    lemma_field_is_one_line,
    lemma_each_cat,
    lemma_each_one,
    lemma_each_quoted,
    lemma_each_opt,
    lemma_each_list,
    lemma_object_is_one_line,
    lemma_array_is_one_line,
}

} // verus!
