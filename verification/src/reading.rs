//! JSON read again: what a text on a single line stands for, value by value.
//! Numbers are whole, and nothing but what is needed stands between values.

use crate::json;
use crate::text;
use vstd::prelude::*;

verus! {

/// What a JSON text stands for.
pub enum Json {
    Null,
    Bool(bool),
    Number(int),
    Text(Seq<char>),
    Array(Seq<Json>),
    Object(Seq<(Seq<char>, Json)>),
}

/// The value of a hexadecimal digit of either case.
pub open spec fn hex_value(c: char) -> Option<int> {
    if '0' <= c <= '9' {
        Some(c as int - 48)
    } else if 'a' <= c <= 'f' {
        Some(c as int - 87)
    } else if 'A' <= c <= 'F' {
        Some(c as int - 55)
    } else {
        None
    }
}

/// The character that the four hexadecimal digits at `i` stand for.
pub open spec fn code_at(s: Seq<char>, i: int) -> Option<char> {
    if 0 <= i && i + 4 <= s.len() && hex_value(s[i]) is Some && hex_value(s[i + 1]) is Some
        && hex_value(s[i + 2]) is Some && hex_value(s[i + 3]) is Some {
        let n = hex_value(s[i])->0 * 4096 + hex_value(s[i + 1])->0 * 256 + hex_value(s[i + 2])->0
            * 16 + hex_value(s[i + 3])->0;
        if 0xD800 <= n <= 0xDFFF {
            None
        } else {
            Some(n as char)
        }
    } else {
        None
    }
}

/// What the character behind a backslash stands for.
pub open spec fn unescaped(c: char) -> Option<char> {
    if c == '"' || c == '\\' || c == '/' {
        Some(c)
    } else if c == 'b' {
        Some(8u8 as char)
    } else if c == 't' {
        Some(9u8 as char)
    } else if c == 'n' {
        Some(10u8 as char)
    } else if c == 'f' {
        Some(12u8 as char)
    } else if c == 'r' {
        Some(13u8 as char)
    } else {
        None
    }
}

/// `c` in front of a text that was read.
pub open spec fn in_front(c: char, rest: Option<(Seq<char>, int)>) -> Option<(Seq<char>, int)> {
    match rest {
        Some((t, k)) => Some((seq![c] + t, k)),
        None => None,
    }
}

/// The characters from `i` up to the quote that ends a string, and the place
/// behind that quote.
pub open spec fn chars_at(s: Seq<char>, i: int) -> Option<(Seq<char>, int)>
    decreases s.len() - i,
{
    if i < 0 || i >= s.len() || (s[i] as int) < 0x20 {
        None
    } else if s[i] == '"' {
        Some((Seq::empty(), i + 1))
    } else if s[i] != '\\' {
        in_front(s[i], chars_at(s, i + 1))
    } else if i + 1 >= s.len() {
        None
    } else if s[i + 1] == 'u' {
        match code_at(s, i + 2) {
            Some(c) => in_front(c, chars_at(s, i + 6)),
            None => None,
        }
    } else {
        match unescaped(s[i + 1]) {
            Some(c) => in_front(c, chars_at(s, i + 2)),
            None => None,
        }
    }
}

/// The string at `i`, quotes included, and the place behind it.
pub open spec fn string_at(s: Seq<char>, i: int) -> Option<(Seq<char>, int)> {
    if 0 <= i < s.len() && s[i] == '"' {
        chars_at(s, i + 1)
    } else {
        None
    }
}

/// The place behind the digits that start at `i`.
pub open spec fn behind_digits(s: Seq<char>, i: int) -> int
    decreases s.len() - i,
{
    if 0 <= i < s.len() && '0' <= s[i] <= '9' {
        behind_digits(s, i + 1)
    } else {
        i
    }
}

/// The number that a run of digits writes down.
pub open spec fn digits_value(s: Seq<char>) -> int
    decreases s.len(),
{
    if s.len() == 0 {
        0
    } else {
        digits_value(s.drop_last()) * 10 + (s.last() as int - 48)
    }
}

/// The whole number at `i`, and the place behind it.
pub open spec fn number_at(s: Seq<char>, i: int) -> Option<(Json, int)> {
    let from = if 0 <= i < s.len() && s[i] == '-' {
        i + 1
    } else {
        i
    };
    let to = behind_digits(s, from);
    if 0 <= i && from < to <= s.len() {
        let n = digits_value(s.subrange(from, to));
        Some((
            Json::Number(
                if from > i {
                    -n
                } else {
                    n
                },
            ),
            to,
        ))
    } else {
        None
    }
}

/// The value at `i`, and the place behind it.
pub open spec fn value_at(s: Seq<char>, i: int) -> Option<(Json, int)>
    decreases s.len() - i, 0int,
{
    if i < 0 || i >= s.len() {
        None
    } else if s[i] == '"' {
        match string_at(s, i) {
            Some((t, k)) => Some((Json::Text(t), k)),
            None => None,
        }
    } else if s[i] == '[' {
        if i + 1 < s.len() && s[i + 1] == ']' {
            Some((Json::Array(Seq::empty()), i + 2))
        } else {
            match items_at(s, i + 1) {
                Some((items, k)) => Some((Json::Array(items), k)),
                None => None,
            }
        }
    } else if s[i] == '{' {
        if i + 1 < s.len() && s[i + 1] == '}' {
            Some((Json::Object(Seq::empty()), i + 2))
        } else {
            match members_at(s, i + 1) {
                Some((members, k)) => Some((Json::Object(members), k)),
                None => None,
            }
        }
    } else if text::occurs_at(s, seq!['t', 'r', 'u', 'e'], i) {
        Some((Json::Bool(true), i + 4))
    } else if text::occurs_at(s, seq!['f', 'a', 'l', 's', 'e'], i) {
        Some((Json::Bool(false), i + 5))
    } else if text::occurs_at(s, seq!['n', 'u', 'l', 'l'], i) {
        Some((Json::Null, i + 4))
    } else {
        number_at(s, i)
    }
}

/// The values from `i` on with commas between them, up to the bracket that ends
/// them, and the place behind it.
pub open spec fn items_at(s: Seq<char>, i: int) -> Option<(Seq<Json>, int)>
    decreases s.len() - i, 1int,
{
    match value_at(s, i) {
        Some((j, k)) => if i < k < s.len() && s[k] == ']' {
            Some((seq![j], k + 1))
        } else if i < k < s.len() && s[k] == ',' {
            match items_at(s, k + 1) {
                Some((rest, n)) => Some((seq![j] + rest, n)),
                None => None,
            }
        } else {
            None
        },
        None => None,
    }
}

/// The members from `i` on with commas between them, up to the brace that ends
/// them, and the place behind it.
pub open spec fn members_at(s: Seq<char>, i: int) -> Option<(Seq<(Seq<char>, Json)>, int)>
    decreases s.len() - i, 1int,
{
    match string_at(s, i) {
        Some((name, c)) => if i < c < s.len() && s[c] == ':' {
            match value_at(s, c + 1) {
                Some((j, k)) => if c < k < s.len() && s[k] == '}' {
                    Some((seq![(name, j)], k + 1))
                } else if c < k < s.len() && s[k] == ',' {
                    match members_at(s, k + 1) {
                        Some((rest, n)) => Some((seq![(name, j)] + rest, n)),
                        None => None,
                    }
                } else {
                    None
                },
                None => None,
            }
        } else {
            None
        },
        None => None,
    }
}

/// The value that a whole text stands for.
pub open spec fn read(s: Seq<char>) -> Option<Json> {
    match value_at(s, 0) {
        Some((j, k)) => if k == s.len() {
            Some(j)
        } else {
            None
        },
        None => None,
    }
}

/// What stands under a name in an object: the first member of that name.
pub open spec fn under(members: Seq<(Seq<char>, Json)>, name: Seq<char>) -> Option<Json>
    decreases members.len(),
{
    if members.len() == 0 {
        None
    } else if members[0].0 == name {
        Some(members[0].1)
    } else {
        under(members.skip(1), name)
    }
}

// What stands for a value wherever it stands

/// Whether a number ends at `i`.
pub open spec fn ends_at(s: Seq<char>, i: int) -> bool {
    i < s.len() ==> !('0' <= s[i] <= '9')
}

/// Whether `w` stands for `j` wherever it stands and no digit follows.
pub open spec fn means(w: Seq<char>, j: Json) -> bool {
    forall|s: Seq<char>, i: int|
        #![trigger text::occurs_at(s, w, i)]
        text::occurs_at(s, w, i) && ends_at(s, i + w.len()) ==> w.len() > 0 && value_at(s, i)
            == Some((j, i + w.len()))
}

/// Whether a text stands for a member.
pub open spec fn member_means(f: Seq<char>, m: (Seq<char>, Json)) -> bool {
    exists|v: Seq<char>| f == #[trigger] json::field(m.0, v) && means(v, m.1)
}

/// Whether each text stands for a member.
pub open spec fn members_mean(fields: Seq<Seq<char>>, members: Seq<(Seq<char>, Json)>) -> bool {
    &&& fields.len() == members.len()
    &&& forall|i: int| 0 <= i < fields.len() ==> member_means(#[trigger] fields[i], members[i])
}

/// Whether each text stands for a value.
pub open spec fn items_mean(values: Seq<Seq<char>>, items: Seq<Json>) -> bool {
    &&& values.len() == items.len()
    &&& forall|i: int| 0 <= i < values.len() ==> means(#[trigger] values[i], items[i])
}

proof fn lemma_part(s: Seq<char>, a: Seq<char>, b: Seq<char>, i: int)
    requires
        text::occurs_at(s, a + b, i),
    ensures
        text::occurs_at(s, a, i),
        text::occurs_at(s, b, i + a.len()),
        forall|k: int| 0 <= k < a.len() ==> s[i + k] == #[trigger] a[k],
        forall|k: int| 0 <= k < b.len() ==> s[i + a.len() + k] == #[trigger] b[k],
{
    let w = s.subrange(i, i + (a + b).len());
    assert(s.subrange(i, i + a.len()) =~= a) by {
        assert forall|k: int| 0 <= k < a.len() implies s.subrange(i, i + a.len())[k] == a[k] by {
            assert(w[k] == (a + b)[k]);
        }
    }
    assert(s.subrange(i + a.len(), i + a.len() + b.len()) =~= b) by {
        assert forall|k: int| 0 <= k < b.len() implies s.subrange(
            i + a.len(),
            i + a.len() + b.len(),
        )[k] == b[k] by {
            assert(w[a.len() + k] == (a + b)[a.len() + k]);
        }
    }
    assert forall|k: int| 0 <= k < a.len() implies s[i + k] == #[trigger] a[k] by {
        assert(s.subrange(i, i + a.len())[k] == a[k]);
    }
    assert forall|k: int| 0 <= k < b.len() implies s[i + a.len() + k] == #[trigger] b[k] by {
        assert(s.subrange(i + a.len(), i + a.len() + b.len())[k] == b[k]);
    }
}

proof fn lemma_char_reads(s: Seq<char>, c: char, i: int)
    requires
        text::occurs_at(s, json::escaped(c), i),
    ensures
        chars_at(s, i) == in_front(c, chars_at(s, i + json::escaped(c).len())),
        json::escaped(c).len() > 0,
{
    let e = json::escaped(c);
    let n = c as int;
    assert forall|k: int| 0 <= k < e.len() implies s[i + k] == #[trigger] e[k] by {
        assert(s.subrange(i, i + e.len())[k] == e[k]);
    }
    if n < 0x20 {
        assert(0 <= n / 16 < 2 && 0 <= n % 16 < 16);
        assert(hex_value(json::hex_char(n / 16)) == Some(n / 16));
        assert(hex_value(json::hex_char(n % 16)) == Some(n % 16));
    }
    assert(s[i] == e[0]);
    if e.len() > 1 {
        assert(s[i + 1] == e[1]);
    }
    if e.len() > 2 {
        assert(s[i + 2] == e[2] && s[i + 3] == e[3] && s[i + 4] == e[4] && s[i + 5] == e[5]);
        assert(hex_value('0') == Some(0int));
        assert((n / 16) * 16 + n % 16 == n);
        assert(code_at(s, i + 2) == Some(c));
    }
}

proof fn lemma_escape_front(t: Seq<char>)
    requires
        t.len() > 0,
    ensures
        json::escape(t) == json::escaped(t[0]) + json::escape(t.skip(1)),
    decreases t.len(),
{
    reveal_with_fuel(json::escape, 2);
    if t.len() == 1 {
        assert(t.drop_last() =~= Seq::<char>::empty());
        assert(t.skip(1) =~= Seq::<char>::empty());
        assert(Seq::<char>::empty() + json::escaped(t[0]) =~= json::escaped(t[0])
            + Seq::<char>::empty());
    } else {
        lemma_escape_front(t.drop_last());
        let rest = t.skip(1);
        assert(t.drop_last().skip(1) =~= rest.drop_last());
        assert((json::escaped(t[0]) + json::escape(rest.drop_last())) + json::escaped(t.last())
            =~= json::escaped(t[0]) + (json::escape(rest.drop_last()) + json::escaped(rest.last())));
    }
}

proof fn lemma_chars_read(s: Seq<char>, t: Seq<char>, i: int)
    requires
        text::occurs_at(s, json::escape(t) + seq!['"'], i),
    ensures
        chars_at(s, i) == Some((t, i + json::escape(t).len() + 1)),
    decreases t.len(),
{
    if t.len() == 0 {
        lemma_part(s, json::escape(t), seq!['"'], i);
        assert(seq!['"'][0] == '"');
        assert(t =~= Seq::<char>::empty());
    } else {
        lemma_escape_front(t);
        let e = json::escaped(t[0]);
        let rest = json::escape(t.skip(1)) + seq!['"'];
        assert(json::escape(t) + seq!['"'] =~= e + rest);
        lemma_part(s, e, rest, i);
        lemma_char_reads(s, t[0], i);
        lemma_chars_read(s, t.skip(1), i + e.len());
        assert(seq![t[0]] + t.skip(1) =~= t);
    }
}

proof fn lemma_string_reads(s: Seq<char>, t: Seq<char>, i: int)
    requires
        text::occurs_at(s, json::quoted(t), i),
    ensures
        string_at(s, i) == Some((t, i + json::quoted(t).len())),
{
    let rest = json::escape(t) + seq!['"'];
    assert(json::quoted(t) =~= seq!['"'] + rest);
    lemma_part(s, seq!['"'], rest, i);
    assert(seq!['"'][0] == '"');
    lemma_chars_read(s, t, i + 1);
}

/// A JSON string stands for its text.
pub proof fn lemma_text(t: Seq<char>)
    ensures
        means(json::quoted(t), Json::Text(t)),
{
    let w = json::quoted(t);
    assert forall|s: Seq<char>, i: int|
        #![trigger text::occurs_at(s, w, i)]
        text::occurs_at(s, w, i) && ends_at(s, i + w.len()) implies w.len() > 0 && value_at(s, i)
        == Some((Json::Text(t), i + w.len())) by {
        lemma_string_reads(s, t, i);
        assert(s.subrange(i, i + w.len())[0] == w[0]);
    }
}

/// A boolean stands for itself.
pub proof fn lemma_bool(b: bool)
    ensures
        means(json::bool_text(b), Json::Bool(b)),
{
    reveal_strlit("true");
    reveal_strlit("false");
    let w = json::bool_text(b);
    assert("true"@ =~= seq!['t', 'r', 'u', 'e']);
    assert("false"@ =~= seq!['f', 'a', 'l', 's', 'e']);
    assert forall|s: Seq<char>, i: int|
        #![trigger text::occurs_at(s, w, i)]
        text::occurs_at(s, w, i) && ends_at(s, i + w.len()) implies w.len() > 0 && value_at(s, i)
        == Some((Json::Bool(b), i + w.len())) by {
        assert(s.subrange(i, i + w.len())[0] == w[0]);
        if !b && text::occurs_at(s, seq!['t', 'r', 'u', 'e'], i) {
            assert(s.subrange(i, i + 4)[0] == 't');
        }
    }
}

/// Nothing stands for nothing.
pub proof fn lemma_null()
    ensures
        means("null"@, Json::Null),
{
    reveal_strlit("null");
    let w = "null"@;
    assert(w =~= seq!['n', 'u', 'l', 'l']);
    assert forall|s: Seq<char>, i: int|
        #![trigger text::occurs_at(s, w, i)]
        text::occurs_at(s, w, i) && ends_at(s, i + w.len()) implies w.len() > 0 && value_at(s, i)
        == Some((Json::Null, i + w.len())) by {
        assert(s.subrange(i, i + w.len())[0] == w[0]);
        if text::occurs_at(s, seq!['t', 'r', 'u', 'e'], i) {
            assert(s.subrange(i, i + 4)[0] == 't');
        }
        if text::occurs_at(s, seq!['f', 'a', 'l', 's', 'e'], i) {
            assert(s.subrange(i, i + 5)[0] == 'f');
        }
    }
}

proof fn lemma_digits_end(s: Seq<char>, i: int, n: int)
    requires
        0 <= i,
        0 <= n,
        i + n <= s.len(),
        forall|k: int| i <= k < i + n ==> '0' <= #[trigger] s[k] <= '9',
        ends_at(s, i + n),
    ensures
        behind_digits(s, i) == i + n,
    decreases n,
{
    if n > 0 {
        assert('0' <= s[i] <= '9');
        lemma_digits_end(s, i + 1, n - 1);
    }
}

proof fn lemma_digits_value(n: nat)
    ensures
        digits_value(text::decimal(n)) == n,
        text::decimal(n).len() > 0,
        forall|k: int|
            0 <= k < text::decimal(n).len() ==> '0' <= #[trigger] text::decimal(n)[k] <= '9',
    decreases n,
{
    reveal_with_fuel(digits_value, 2);
    let d = text::decimal(n);
    if n >= 10 {
        lemma_digits_value(n / 10);
        assert(d.drop_last() =~= text::decimal(n / 10));
        assert forall|k: int| 0 <= k < d.len() implies '0' <= #[trigger] d[k] <= '9' by {
            if k < d.len() - 1 {
                assert(d[k] == text::decimal(n / 10)[k]);
            }
        }
    } else {
        assert(d.drop_last() =~= Seq::<char>::empty());
    }
}

/// A number stands for itself.
pub proof fn lemma_number(n: int)
    ensures
        means(text::signed_decimal(n), Json::Number(n)),
{
    let w = text::signed_decimal(n);
    let m = if n < 0 {
        (-n) as nat
    } else {
        n as nat
    };
    let d = text::decimal(m);
    lemma_digits_value(m);
    assert forall|s: Seq<char>, i: int|
        #![trigger text::occurs_at(s, w, i)]
        text::occurs_at(s, w, i) && ends_at(s, i + w.len()) implies w.len() > 0 && value_at(s, i)
        == Some((Json::Number(n), i + w.len())) by {
        let from = if n < 0 {
            i + 1
        } else {
            i
        };
        let p = s.subrange(i, i + w.len());
        assert(p[0] == w[0]);
        assert forall|k: int| from <= k < from + d.len() implies '0' <= #[trigger] s[k] <= '9' by {
            assert(p[k - i] == s[k]);
            assert(d[k - from] == w[k - i]);
        }
        lemma_digits_end(s, from, d.len() as int);
        assert(s.subrange(from, from + d.len()) =~= d) by {
            assert forall|k: int| 0 <= k < d.len() implies s.subrange(from, from + d.len())[k]
                == d[k] by {
                assert(p[k + from - i] == w[k + from - i]);
            }
        }
        if n >= 0 {
            assert(w[0] == d[0]);
            assert('0' <= d[0] <= '9');
        }
        if text::occurs_at(s, seq!['t', 'r', 'u', 'e'], i) {
            assert(s.subrange(i, i + 4)[0] == 't');
        }
        if text::occurs_at(s, seq!['f', 'a', 'l', 's', 'e'], i) {
            assert(s.subrange(i, i + 5)[0] == 'f');
        }
        if text::occurs_at(s, seq!['n', 'u', 'l', 'l'], i) {
            assert(s.subrange(i, i + 4)[0] == 'n');
        }
    }
}

/// A count stands for itself.
pub proof fn lemma_count(n: nat)
    ensures
        means(text::decimal(n), Json::Number(n as int)),
{
    lemma_number(n as int);
}

proof fn lemma_join_front(ps: Seq<Seq<char>>, sep: Seq<char>)
    requires
        ps.len() > 1,
    ensures
        text::join(ps, sep) == ps[0] + sep + text::join(ps.skip(1), sep),
    decreases ps.len(),
{
    reveal_with_fuel(text::join, 2);
    if ps.len() == 2 {
        assert(ps.drop_last()[0] == ps[0]);
        assert(ps.skip(1)[0] == ps[1]);
    } else {
        lemma_join_front(ps.drop_last(), sep);
        assert(ps.drop_last().skip(1) =~= ps.skip(1).drop_last());
        let mid = text::join(ps.skip(1).drop_last(), sep);
        assert((ps[0] + sep + mid) + sep + ps.last() =~= ps[0] + sep + (mid + sep + ps.last()));
    }
}

proof fn lemma_items_read(s: Seq<char>, values: Seq<Seq<char>>, items: Seq<Json>, i: int)
    requires
        items_mean(values, items),
        values.len() > 0,
        text::occurs_at(s, text::join(values, seq![',']) + seq![']'], i),
    ensures
        items_at(s, i) == Some((items, i + text::join(values, seq![',']).len() + 1)),
    decreases values.len(),
{
    reveal_with_fuel(text::join, 2);
    let v = values[0];
    assert(means(v, items[0]));
    if values.len() == 1 {
        lemma_part(s, v, seq![']'], i);
        assert(seq![']'][0] == ']');
        assert(ends_at(s, i + v.len()));
        assert(items =~= seq![items[0]]);
    } else {
        let rest = values.skip(1);
        lemma_join_front(values, seq![',']);
        let tail = text::join(rest, seq![',']) + seq![']'];
        assert(text::join(values, seq![',']) + seq![']'] =~= v + (seq![','] + tail));
        lemma_part(s, v, seq![','] + tail, i);
        assert((seq![','] + tail)[0] == ',');
        assert(ends_at(s, i + v.len()));
        lemma_part(s, seq![','], tail, i + v.len());
        assert(items_mean(rest, items.skip(1))) by {
            assert forall|k: int| 0 <= k < rest.len() implies means(
                #[trigger] rest[k],
                items.skip(1)[k],
            ) by {
                assert(rest[k] == values[k + 1]);
            }
        }
        lemma_items_read(s, rest, items.skip(1), i + v.len() + 1);
        assert(seq![items[0]] + items.skip(1) =~= items);
    }
}

/// An array stands for the values of its members.
pub proof fn lemma_array(values: Seq<Seq<char>>, items: Seq<Json>)
    requires
        items_mean(values, items),
    ensures
        means(json::array(values), Json::Array(items)),
{
    reveal_strlit("[");
    reveal_strlit("]");
    reveal_strlit(",");
    assert("["@ =~= seq!['[']);
    assert("]"@ =~= seq![']']);
    assert(","@ =~= seq![',']);
    let w = json::array(values);
    let inner = text::join(values, seq![',']) + seq![']'];
    assert(w =~= seq!['['] + inner);
    assert forall|s: Seq<char>, i: int|
        #![trigger text::occurs_at(s, w, i)]
        text::occurs_at(s, w, i) && ends_at(s, i + w.len()) implies w.len() > 0 && value_at(s, i)
        == Some((Json::Array(items), i + w.len())) by {
        lemma_part(s, seq!['['], inner, i);
        assert(seq!['['][0] == '[');
        assert(s[i] == '[');
        if values.len() == 0 {
            assert(inner[0] == ']');
            assert(s[i + 1] == ']');
            assert(items =~= Seq::<Json>::empty());
        } else {
            assert(means(values[0], items[0]));
            lemma_items_read(s, values, items, i + 1);
            assert(s[i + 1] != ']') by {
                lemma_join_starts(values, ',');
                assert(text::occurs_at(s, values[0], i + 1)) by {
                    assert(s.subrange(i + 1, i + 1 + values[0].len()) =~= values[0]) by {
                        assert forall|k: int| 0 <= k < values[0].len() implies s[i + 1 + k]
                            == #[trigger] values[0][k] by {
                            assert(inner[k] == values[0][k]);
                        }
                    }
                }
                if s[i + 1] == ']' {
                    assert(value_at(s, i + 1) is None);
                }
            }
        }
    }
}

proof fn lemma_join_starts(ps: Seq<Seq<char>>, c: char)
    requires
        ps.len() > 0,
    ensures
        text::join(ps, seq![c]).len() >= ps[0].len(),
        forall|k: int| 0 <= k < ps[0].len() ==> text::join(ps, seq![c])[k] == #[trigger] ps[0][k],
{
    text::lemma_join_ends(ps, c);
    let j = text::join(ps, seq![c]);
    assert forall|k: int| 0 <= k < ps[0].len() implies j[k] == #[trigger] ps[0][k] by {
        assert(j.take(ps[0].len() as int)[k] == j[k]);
    }
}

proof fn lemma_members_read(
    s: Seq<char>,
    fields: Seq<Seq<char>>,
    members: Seq<(Seq<char>, Json)>,
    i: int,
)
    requires
        members_mean(fields, members),
        fields.len() > 0,
        text::occurs_at(s, text::join(fields, seq![',']) + seq!['}'], i),
    ensures
        members_at(s, i) == Some((members, i + text::join(fields, seq![',']).len() + 1)),
    decreases fields.len(),
{
    reveal_with_fuel(text::join, 2);
    reveal_strlit(":");
    assert(":"@ =~= seq![':']);
    let f = fields[0];
    assert(member_means(f, members[0]));
    let v = choose|v: Seq<char>|
        f == #[trigger] json::field(members[0].0, v) && means(v, members[0].1);
    assert(f == json::field(members[0].0, v) && means(v, members[0].1));
    let q = json::quoted(members[0].0);
    assert(f =~= q + (seq![':'] + v));
    let close: Seq<char> = if fields.len() == 1 {
        seq!['}']
    } else {
        seq![','] + (text::join(fields.skip(1), seq![',']) + seq!['}'])
    };
    if fields.len() > 1 {
        lemma_join_front(fields, seq![',']);
    }
    assert(text::join(fields, seq![',']) + seq!['}'] =~= f + close);
    lemma_part(s, f, close, i);
    lemma_part(s, q, seq![':'] + v, i);
    lemma_part(s, seq![':'], v, i + q.len());
    assert(seq![':'][0] == ':');
    assert(s[i + q.len()] == ':');
    lemma_string_reads(s, members[0].0, i);
    let c = i + q.len();
    assert(s[i + f.len()] == close[0]);
    assert(ends_at(s, c + 1 + v.len()));
    assert(value_at(s, c + 1) == Some((members[0].1, c + 1 + v.len())));
    if fields.len() == 1 {
        assert(members =~= seq![members[0]]);
    } else {
        let rest = fields.skip(1);
        let tail = text::join(rest, seq![',']) + seq!['}'];
        lemma_part(s, seq![','], tail, i + f.len());
        assert(members_mean(rest, members.skip(1))) by {
            assert forall|k: int| 0 <= k < rest.len() implies member_means(
                #[trigger] rest[k],
                members.skip(1)[k],
            ) by {
                assert(rest[k] == fields[k + 1]);
            }
        }
        lemma_members_read(s, rest, members.skip(1), i + f.len() + 1);
        assert(seq![members[0]] + members.skip(1) =~= members);
    }
}

/// An object stands for its members.
pub proof fn lemma_object(fields: Seq<Seq<char>>, members: Seq<(Seq<char>, Json)>)
    requires
        members_mean(fields, members),
    ensures
        means(json::object(fields), Json::Object(members)),
{
    reveal_strlit("{");
    reveal_strlit("}");
    reveal_strlit(",");
    assert("{"@ =~= seq!['{']);
    assert("}"@ =~= seq!['}']);
    assert(","@ =~= seq![',']);
    let w = json::object(fields);
    let inner = text::join(fields, seq![',']) + seq!['}'];
    assert(w =~= seq!['{'] + inner);
    assert forall|s: Seq<char>, i: int|
        #![trigger text::occurs_at(s, w, i)]
        text::occurs_at(s, w, i) && ends_at(s, i + w.len()) implies w.len() > 0 && value_at(s, i)
        == Some((Json::Object(members), i + w.len())) by {
        lemma_part(s, seq!['{'], inner, i);
        assert(seq!['{'][0] == '{');
        assert(s[i] == '{');
        if fields.len() == 0 {
            assert(inner[0] == '}');
            assert(s[i + 1] == '}');
            assert(members =~= Seq::<(Seq<char>, Json)>::empty());
        } else {
            lemma_members_read(s, fields, members, i + 1);
            assert(string_at(s, i + 1) is Some);
        }
    }
}

/// What stands for a value reads as that value.
pub proof fn lemma_reads(w: Seq<char>, j: Json)
    requires
        means(w, j),
    ensures
        read(w) == Some(j),
{
    assert(w.subrange(0, w.len() as int) =~= w);
    assert(text::occurs_at(w, w, 0));
}

// Members one after the other

/// No text, no member.
pub proof fn lemma_no_members()
    ensures
        members_mean(Seq::empty(), Seq::empty()),
{
}

/// Members of two lists are the members of both.
pub broadcast proof fn lemma_more_members(
    a: Seq<Seq<char>>,
    p: Seq<(Seq<char>, Json)>,
    b: Seq<Seq<char>>,
    q: Seq<(Seq<char>, Json)>,
)
    requires
        members_mean(a, p),
        members_mean(b, q),
    ensures
        #[trigger] members_mean(a + b, p + q),
{
    assert forall|i: int| 0 <= i < (a + b).len() implies member_means(
        #[trigger] (a + b)[i],
        (p + q)[i],
    ) by {
        if i < a.len() {
            assert((a + b)[i] == a[i] && (p + q)[i] == p[i]);
        } else {
            assert((a + b)[i] == b[i - a.len()] && (p + q)[i] == q[i - a.len()]);
        }
    }
}

/// One field is one member.
pub proof fn lemma_member(name: Seq<char>, v: Seq<char>, j: Json)
    requires
        means(v, j),
    ensures
        members_mean(seq![json::field(name, v)], seq![(name, j)]),
{
    let m = (name, j);
    assert(json::field(m.0, v) == json::field(name, v) && means(v, m.1));
    assert(member_means(json::field(name, v), m));
}

/// A field with a text.
pub proof fn lemma_text_member(name: Seq<char>, t: Seq<char>)
    ensures
        members_mean(seq![json::field(name, json::quoted(t))], seq![(name, Json::Text(t))]),
{
    lemma_text(t);
    lemma_member(name, json::quoted(t), Json::Text(t));
}

/// A field with a boolean.
pub proof fn lemma_bool_member(name: Seq<char>, b: bool)
    ensures
        members_mean(seq![json::field(name, json::bool_text(b))], seq![(name, Json::Bool(b))]),
{
    lemma_bool(b);
    lemma_member(name, json::bool_text(b), Json::Bool(b));
}

/// A field with a count.
pub proof fn lemma_count_member(name: Seq<char>, n: nat)
    ensures
        members_mean(
            seq![json::field(name, text::decimal(n))],
            seq![(name, Json::Number(n as int))],
        ),
{
    lemma_count(n);
    lemma_member(name, text::decimal(n), Json::Number(n as int));
}

/// The member, where there is a value.
pub open spec fn some_member(name: Seq<char>, j: Option<Json>) -> Seq<(Seq<char>, Json)> {
    match j {
        Some(j) => seq![(name, j)],
        None => Seq::empty(),
    }
}

/// The text, where there is one.
pub open spec fn text_opt(t: Option<Seq<char>>) -> Option<Json> {
    match t {
        Some(t) => Some(Json::Text(t)),
        None => None,
    }
}

/// A field that may be left out.
pub proof fn lemma_some_member(name: Seq<char>, v: Option<Seq<char>>, j: Option<Json>)
    requires
        v is Some <==> j is Some,
        v is Some ==> means(v->0, j->0),
    ensures
        members_mean(json::some_field(name, v), some_member(name, j)),
{
    if v is Some {
        lemma_member(name, v->0, j->0);
    }
}

/// A field with a text that may be left out.
pub proof fn lemma_text_opt_member(name: Seq<char>, t: Option<Seq<char>>)
    ensures
        members_mean(
            json::some_field(name, json::quoted_opt(t)),
            some_member(name, text_opt(t)),
        ),
{
    if t is Some {
        lemma_text(t->0);
    }
    lemma_some_member(name, json::quoted_opt(t), text_opt(t));
}

/// The member with an array, where it has a value at least.
pub open spec fn list_member(name: Seq<char>, items: Seq<Json>) -> Seq<(Seq<char>, Json)> {
    if items.len() == 0 {
        Seq::empty()
    } else {
        seq![(name, Json::Array(items))]
    }
}

/// A field with an array that is left out where it is empty.
pub proof fn lemma_list_member(name: Seq<char>, values: Seq<Seq<char>>, items: Seq<Json>)
    requires
        items_mean(values, items),
    ensures
        members_mean(json::list_field(name, values), list_member(name, items)),
{
    if values.len() > 0 {
        lemma_array(values, items);
        lemma_member(name, json::array(values), Json::Array(items));
    }
}

/// The texts of a list.
pub open spec fn texts(l: Seq<Seq<char>>) -> Seq<Json> {
    l.map_values(|t: Seq<char>| Json::Text(t))
}

/// Each text of a list stands for itself.
pub proof fn lemma_texts(l: Seq<Seq<char>>)
    ensures
        items_mean(json::quoted_each(l), texts(l)),
{
    assert forall|i: int| 0 <= i < l.len() implies means(
        #[trigger] json::quoted_each(l)[i],
        texts(l)[i],
    ) by {
        lemma_text(l[i]);
    }
}

} // verus!
