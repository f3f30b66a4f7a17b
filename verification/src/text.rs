//! Text as a sequence of characters: trimming, splitting, joining, searching.
//!
//! Every function here works on whole characters. A text is modelled by its
//! `Seq<char>` view, a list of texts by the `deep_view` of its vector.

use vstd::prelude::*;

verus! {

/// `String::push` appends the given character to the end of the string.
pub assume_specification[ String::push ](s: &mut String, c: char)
    ensures
        final(s)@ == old(s)@.push(c),
;

/// The Unicode `White_Space` property.
pub open spec fn is_white(c: char) -> bool {
    let n = c as u32;
    ||| 0x09 <= n <= 0x0D
    ||| n == 0x20
    ||| n == 0x85
    ||| n == 0xA0
    ||| n == 0x1680
    ||| 0x2000 <= n <= 0x200A
    ||| n == 0x2028
    ||| n == 0x2029
    ||| n == 0x202F
    ||| n == 0x205F
    ||| n == 0x3000
}

/// Whether `c` is Unicode white space.
pub fn white(c: char) -> (r: bool)
    ensures
        r == is_white(c),
{
    let n: u32 = c as u32;
    (0x09 <= n && n <= 0x0D) || n == 0x20 || n == 0x85 || n == 0xA0 || n == 0x1680 || (0x2000 <= n
        && n <= 0x200A) || n == 0x2028 || n == 0x2029 || n == 0x202F || n == 0x205F || n == 0x3000
}

/// Whether `c` is one of the ASCII digits.
pub open spec fn is_digit(c: char) -> bool {
    '0' <= c <= '9'
}

/// Whether `c` is one of the ASCII letters.
pub open spec fn is_letter(c: char) -> bool {
    ('a' <= c <= 'z') || ('A' <= c <= 'Z')
}

/// Executable [`is_digit`].
pub fn digit(c: char) -> (r: bool)
    ensures
        r == is_digit(c),
{
    '0' <= c && c <= '9'
}

/// Executable [`is_letter`].
pub fn letter(c: char) -> (r: bool)
    ensures
        r == is_letter(c),
{
    ('a' <= c && c <= 'z') || ('A' <= c && c <= 'Z')
}

/// The characters of a text.
pub fn chars_of(s: &str) -> (v: Vec<char>)
    ensures
        v@ == s@,
{
    let mut v: Vec<char> = Vec::new();
    for c in it: s.chars()
        invariant
            it.seq() == s@,
            v@ == s@.take(it.index() as int),
    {
        v.push(c);
        assert(s@.take(it.index() + 1) =~= s@.take(it.index() as int).push(c));
    }
    assert(s@.take(s@.len() as int) =~= s@);
    v
}

/// The text made of the characters `v[from..to]`.
pub fn text_range(v: &Vec<char>, from: usize, to: usize) -> (s: String)
    requires
        from <= to <= v@.len(),
    ensures
        s@ == v@.subrange(from as int, to as int),
{
    let mut s = String::new();
    let mut i: usize = from;
    while i < to
        invariant
            from <= i <= to <= v@.len(),
            s@ == v@.subrange(from as int, i as int),
        decreases to - i,
    {
        s.push(v[i]);
        assert(v@.subrange(from as int, i + 1) =~= v@.subrange(from as int, i as int).push(
            v@[i as int],
        ));
        i += 1;
    }
    s
}

/// The text made of all of `v`.
pub fn text_of(v: &Vec<char>) -> (s: String)
    ensures
        s@ == v@,
{
    let s = text_range(v, 0, v.len());
    assert(v@.subrange(0, v@.len() as int) =~= v@);
    s
}

/// Whether two texts are the same.
pub fn same(a: &str, b: &str) -> (r: bool)
    ensures
        r == (a@ == b@),
{
    let x: String = a.to_owned();
    let y: String = b.to_owned();
    x == y
}


/// Whether a text has no character.
pub fn empty(s: &str) -> (r: bool)
    ensures
        r == (s@.len() == 0),
{
    s.is_empty()
}

/// A copy of a text.
pub fn copy(s: &str) -> (r: String)
    ensures
        r@ == s@,
{
    s.to_owned()
}

/// The two texts one after the other.
pub fn cat(a: &str, b: &str) -> (r: String)
    ensures
        r@ == a@ + b@,
{
    let mut r: String = a.to_owned();
    r.append(b);
    r
}

/// A copy of an optional text.
pub fn copy_opt(s: &Option<String>) -> (r: Option<String>)
    ensures
        r.deep_view() == s.deep_view(),
{
    match s {
        Some(t) => Some(copy(t)),
        None => None,
    }
}

/// A copy of a list of texts.
pub fn copy_list(v: &Vec<String>) -> (r: Vec<String>)
    ensures
        r.deep_view() == v.deep_view(),
{
    let mut r: Vec<String> = Vec::new();
    let mut i: usize = 0;
    while i < v.len()
        invariant
            i <= v@.len(),
            r.deep_view() == v.deep_view().take(i as int),
        decreases v@.len() - i,
    {
        let ghost done = r.deep_view();
        r.push(copy(&v[i]));
        assert(r.deep_view() =~= done.push(v.deep_view()[i as int]));
        assert(v.deep_view().take(i + 1) =~= v.deep_view().take(i as int).push(
            v.deep_view()[i as int],
        ));
        i += 1;
    }
    assert(v.deep_view().take(i as int) =~= v.deep_view());
    r
}

/// Whether `list` holds `t`.
pub fn list_has(list: &Vec<String>, t: &str) -> (r: bool)
    ensures
        r == list.deep_view().contains(t@),
{
    let mut i: usize = 0;
    while i < list.len()
        invariant
            i <= list@.len(),
            forall|j: int| 0 <= j < i ==> list.deep_view()[j] != t@,
        decreases list@.len() - i,
    {
        if same(&list[i], t) {
            assert(list.deep_view()[i as int] == t@);
            return true;
        }
        assert(list.deep_view()[i as int] != t@);
        i += 1;
    }
    false
}

// Trimming

/// `s` without its leading white space.
pub open spec fn trim_start(s: Seq<char>) -> Seq<char>
    decreases s.len(),
{
    if s.len() > 0 && is_white(s[0]) {
        trim_start(s.skip(1))
    } else {
        s
    }
}

/// `s` without its trailing white space.
pub open spec fn trim_end(s: Seq<char>) -> Seq<char>
    decreases s.len(),
{
    if s.len() > 0 && is_white(s.last()) {
        trim_end(s.drop_last())
    } else {
        s
    }
}

/// `s` without white space at either end.
pub open spec fn trim(s: Seq<char>) -> Seq<char> {
    trim_end(trim_start(s))
}

/// Whether neither end of `s` is white space.
pub open spec fn is_trimmed(s: Seq<char>) -> bool {
    s.len() > 0 ==> !is_white(s[0]) && !is_white(s.last())
}

/// What is left by [`trim_start`] is a suffix that does not start with white space.
pub proof fn lemma_trim_start(s: Seq<char>)
    ensures
        trim_start(s).len() <= s.len(),
        trim_start(s) == s.skip(s.len() - trim_start(s).len()),
        trim_start(s).len() > 0 ==> !is_white(trim_start(s)[0]),
        forall|i: int| 0 <= i < s.len() - trim_start(s).len() ==> is_white(s[i]),
    decreases s.len(),
{
    if s.len() > 0 && is_white(s[0]) {
        let t = s.skip(1);
        lemma_trim_start(t);
        assert(t.skip(t.len() - trim_start(t).len()) =~= s.skip(s.len() - trim_start(t).len()));
        assert forall|i: int| 0 <= i < s.len() - trim_start(s).len() implies is_white(s[i]) by {
            if i > 0 {
                assert(t[i - 1] == s[i]);
            }
        }
    } else {
        assert(s.skip(0) =~= s);
    }
}

/// What is left by [`trim_end`] is a prefix that does not end in white space.
pub proof fn lemma_trim_end(s: Seq<char>)
    ensures
        trim_end(s).len() <= s.len(),
        trim_end(s) == s.take(trim_end(s).len() as int),
        trim_end(s).len() > 0 ==> !is_white(trim_end(s).last()),
        forall|i: int| trim_end(s).len() <= i < s.len() ==> is_white(s[i]),
    decreases s.len(),
{
    if s.len() > 0 && is_white(s.last()) {
        let t = s.drop_last();
        lemma_trim_end(t);
        assert(t.take(trim_end(t).len() as int) =~= s.take(trim_end(t).len() as int));
        assert forall|i: int| trim_end(s).len() <= i < s.len() implies is_white(s[i]) by {
            if i < s.len() - 1 {
                assert(t[i] == s[i]);
            }
        }
    } else {
        assert(s.take(s.len() as int) =~= s);
    }
}

/// Trimming leaves a text that has no white space at its ends, and changes
/// nothing on such a text.
pub proof fn lemma_trim(s: Seq<char>)
    ensures
        is_trimmed(trim(s)),
        trim(s).len() <= s.len(),
        is_trimmed(s) ==> trim(s) == s,
        trim(trim(s)) == trim(s),
        forall|c: char| trim(s).contains(c) ==> s.contains(c),
{
    lemma_trim_start(s);
    let m = trim_start(s);
    lemma_trim_end(m);
    let t = trim_end(m);
    if t.len() > 0 {
        assert(t[0] == m[0]);
    }
    lemma_trimmed_is_fixed(t);
    if is_trimmed(s) {
        lemma_trimmed_is_fixed(s);
    }
    assert forall|c: char| trim(s).contains(c) implies s.contains(c) by {
        let i = t.index_of(c);
        assert(t[i] == m[i] && m[i] == s[i + (s.len() - m.len())]);
    }
}

proof fn lemma_trimmed_is_fixed(s: Seq<char>)
    requires
        is_trimmed(s),
    ensures
        trim(s) == s,
{
    assert(trim_start(s) == s);
    assert(trim_end(s) == s);
}

/// A text is left empty by [`trim`] exactly when it is all white space.
pub proof fn lemma_trim_empty(s: Seq<char>)
    ensures
        trim(s).len() == 0 <==> (forall|i: int| 0 <= i < s.len() ==> is_white(s[i])),
{
    lemma_trim_start(s);
    let m = trim_start(s);
    lemma_trim_end(m);
    if trim(s).len() == 0 {
        if m.len() > 0 {
            assert(is_white(m[0]));
        }
    } else {
        assert(m[0] == s[s.len() - m.len()]);
    }
}

fn lead(v: &Vec<char>) -> (k: usize)
    ensures
        k <= v@.len(),
        v@.skip(k as int) == trim_start(v@),
{
    let mut k: usize = 0;
    assert(v@.skip(0) =~= v@);
    while k < v.len() && white(v[k])
        invariant
            k <= v@.len(),
            trim_start(v@.skip(k as int)) == trim_start(v@),
        decreases v@.len() - k,
    {
        assert(v@.skip(k as int).skip(1) =~= v@.skip(k + 1));
        k += 1;
    }
    assert(k < v@.len() ==> v@.skip(k as int)[0] == v@[k as int]);
    k
}

fn tail(v: &Vec<char>, from: usize) -> (k: usize)
    requires
        from <= v@.len(),
    ensures
        from <= k <= v@.len(),
        v@.subrange(from as int, k as int) == trim_end(v@.skip(from as int)),
{
    let mut k: usize = v.len();
    assert(v@.subrange(from as int, k as int) =~= v@.skip(from as int));
    while k > from && white(v[k - 1])
        invariant
            from <= k <= v@.len(),
            trim_end(v@.subrange(from as int, k as int)) == trim_end(v@.skip(from as int)),
        decreases k,
    {
        assert(v@.subrange(from as int, k as int).drop_last() =~= v@.subrange(
            from as int,
            k - 1,
        ));
        k -= 1;
    }
    assert(k > from ==> v@.subrange(from as int, k as int).last() == v@[k - 1]);
    k
}

/// `s` without white space at either end.
pub fn trimmed(s: &str) -> (r: String)
    ensures
        r@ == trim(s@),
{
    let v = chars_of(s);
    let a = lead(&v);
    let b = tail(&v, a);
    text_range(&v, a, b)
}

/// `s` without its leading white space.
pub fn trimmed_start(s: &str) -> (r: String)
    ensures
        r@ == trim_start(s@),
{
    let v = chars_of(s);
    let a = lead(&v);
    assert(v@.subrange(a as int, v@.len() as int) =~= v@.skip(a as int));
    text_range(&v, a, v.len())
}


// Splitting and joining

/// What parts the pieces of a text.
#[derive(Clone, Copy)]
pub enum Sep {
    /// White space.
    White,
    /// One character.
    One(char),
    /// Either of two characters.
    Either(char, char),
}

impl Sep {
    /// Whether `c` parts two pieces.
    pub open spec fn parts(self, c: char) -> bool {
        match self {
            Sep::White => is_white(c),
            Sep::One(a) => c == a,
            Sep::Either(a, b) => c == a || c == b,
        }
    }

    fn parts_at(self, c: char) -> (r: bool)
        ensures
            r == self.parts(c),
    {
        match self {
            Sep::White => white(c),
            Sep::One(a) => c == a,
            Sep::Either(a, b) => c == a || c == b,
        }
    }
}

/// The pieces between separators; one more than there are separators.
pub open spec fn split(s: Seq<char>, sep: Sep) -> Seq<Seq<char>>
    decreases s.len(),
{
    if s.len() == 0 {
        seq![Seq::empty()]
    } else {
        let r = split(s.drop_last(), sep);
        if sep.parts(s.last()) {
            r.push(Seq::empty())
        } else {
            r.drop_last().push(r.last().push(s.last()))
        }
    }
}

/// The members of `ps` that are not empty.
pub open spec fn nonempty(ps: Seq<Seq<char>>) -> Seq<Seq<char>>
    decreases ps.len(),
{
    if ps.len() == 0 {
        Seq::empty()
    } else {
        let r = nonempty(ps.drop_last());
        if ps.last().len() == 0 {
            r
        } else {
            r.push(ps.last())
        }
    }
}

/// Each member of `ps` trimmed.
pub open spec fn trim_each(ps: Seq<Seq<char>>) -> Seq<Seq<char>> {
    ps.map_values(|p: Seq<char>| trim(p))
}

/// The words of a text: its non-empty pieces between white space.
pub open spec fn words(s: Seq<char>) -> Seq<Seq<char>> {
    nonempty(split(s, Sep::White))
}

/// The trimmed pieces of a text that are not empty.
pub open spec fn fields(s: Seq<char>, sep: Sep) -> Seq<Seq<char>> {
    nonempty(trim_each(split(s, sep)))
}

/// There is always at least one piece, and no piece holds a separator.
pub proof fn lemma_split(s: Seq<char>, sep: Sep)
    ensures
        split(s, sep).len() >= 1,
        forall|i: int, j: int|
            0 <= i < split(s, sep).len() && 0 <= j < split(s, sep)[i].len() ==> !sep.parts(
                #[trigger] split(s, sep)[i][j],
            ),
    decreases s.len(),
{
    if s.len() > 0 {
        lemma_split(s.drop_last(), sep);
        let r = split(s.drop_last(), sep);
        let t = split(s, sep);
        assert forall|i: int, j: int| 0 <= i < t.len() && 0 <= j < t[i].len() implies !sep.parts(
            #[trigger] t[i][j],
        ) by {
            if i < r.len() && j < r[i].len() {
                assert(t[i][j] == r[i][j]);
            }
        }
    }
}

/// Every member that [`nonempty`] keeps is a non-empty member of `ps`.
pub proof fn lemma_nonempty(ps: Seq<Seq<char>>)
    ensures
        nonempty(ps).len() <= ps.len(),
        forall|i: int|
            0 <= i < nonempty(ps).len() ==> (#[trigger] nonempty(ps)[i]).len() > 0 && ps.contains(
                nonempty(ps)[i],
            ),
    decreases ps.len(),
{
    if ps.len() > 0 {
        lemma_nonempty(ps.drop_last());
        let r = nonempty(ps.drop_last());
        let t = nonempty(ps);
        assert forall|i: int| 0 <= i < t.len() implies (#[trigger] t[i]).len() > 0 && ps.contains(
            t[i],
        ) by {
            if i < r.len() {
                let k = ps.drop_last().index_of(r[i]);
                assert(ps[k] == t[i]);
            } else {
                assert(ps[ps.len() - 1] == t[i]);
            }
        }
    }
}

/// Fields are trimmed and not empty.
pub proof fn lemma_fields(s: Seq<char>, sep: Sep)
    ensures
        forall|i: int|
            0 <= i < fields(s, sep).len() ==> (#[trigger] fields(s, sep)[i]).len() > 0
                && is_trimmed(fields(s, sep)[i]),
{
    let ps = split(s, sep);
    lemma_nonempty(trim_each(ps));
    assert forall|i: int| 0 <= i < fields(s, sep).len() implies (#[trigger] fields(s, sep)[i]).len()
        > 0 && is_trimmed(fields(s, sep)[i]) by {
        let k = trim_each(ps).index_of(fields(s, sep)[i]);
        lemma_trim(ps[k]);
    }
}

/// Words are not empty and hold no white space.
pub proof fn lemma_words(s: Seq<char>)
    ensures
        forall|i: int| 0 <= i < words(s).len() ==> (#[trigger] words(s)[i]).len() > 0,
        forall|i: int, j: int|
            0 <= i < words(s).len() && 0 <= j < words(s)[i].len() ==> !is_white(
                #[trigger] words(s)[i][j],
            ),
{
    let ps = split(s, Sep::White);
    lemma_split(s, Sep::White);
    lemma_nonempty(ps);
    assert forall|i: int, j: int|
        0 <= i < words(s).len() && 0 <= j < words(s)[i].len() implies !is_white(
        #[trigger] words(s)[i][j],
    ) by {
        let k = ps.index_of(words(s)[i]);
        assert(ps[k][j] == words(s)[i][j]);
    }
}

/// The pieces of `s`.
pub fn split_by(s: &str, sep: Sep) -> (r: Vec<String>)
    ensures
        r.deep_view() == split(s@, sep),
{
    let v = chars_of(s);
    let mut r: Vec<String> = Vec::new();
    let mut cur = String::new();
    let mut i: usize = 0;
    assert(r.deep_view().push(cur@) =~= split(v@.take(0), sep));
    while i < v.len()
        invariant
            i <= v@.len(),
            r.deep_view().push(cur@) == split(v@.take(i as int), sep),
        decreases v@.len() - i,
    {
        let c = v[i];
        let ghost before = r.deep_view();
        let ghost piece = cur@;
        assert(v@.take(i + 1).drop_last() =~= v@.take(i as int));
        assert(before.push(piece).drop_last() =~= before);
        if sep.parts_at(c) {
            r.push(cur);
            assert(r.deep_view() =~= before.push(piece));
            cur = String::new();
            assert(r.deep_view().push(cur@) =~= split(v@.take(i + 1), sep));
        } else {
            cur.push(c);
        }
        i += 1;
    }
    assert(v@.take(i as int) =~= v@);
    let ghost before = r.deep_view();
    let ghost piece = cur@;
    r.push(cur);
    assert(r.deep_view() =~= before.push(piece));
    r
}

/// The members of `ps` that are not empty, in order.
fn keep_nonempty(ps: &Vec<String>) -> (r: Vec<String>)
    ensures
        r.deep_view() == nonempty(ps.deep_view()),
{
    let mut r: Vec<String> = Vec::new();
    let mut i: usize = 0;
    assert(r.deep_view() =~= nonempty(ps.deep_view().take(0)));
    while i < ps.len()
        invariant
            i <= ps@.len(),
            r.deep_view() == nonempty(ps.deep_view().take(i as int)),
        decreases ps@.len() - i,
    {
        let ghost done = r.deep_view();
        assert(ps.deep_view().take(i + 1).drop_last() =~= ps.deep_view().take(i as int));
        if !empty(&ps[i]) {
            r.push(copy(&ps[i]));
            assert(r.deep_view() =~= done.push(ps.deep_view()[i as int]));
        }
        i += 1;
    }
    assert(ps.deep_view().take(i as int) =~= ps.deep_view());
    r
}

/// The words of `s`.
pub fn words_of(s: &str) -> (r: Vec<String>)
    ensures
        r.deep_view() == words(s@),
{
    keep_nonempty(&split_by(s, Sep::White))
}

/// The fields of `s`.
pub fn fields_of(s: &str, sep: Sep) -> (r: Vec<String>)
    ensures
        r.deep_view() == fields(s@, sep),
{
    let ps = split_by(s, sep);
    let mut ts: Vec<String> = Vec::new();
    let mut i: usize = 0;
    while i < ps.len()
        invariant
            i <= ps@.len(),
            ts.deep_view() == trim_each(ps.deep_view()).take(i as int),
        decreases ps@.len() - i,
    {
        let ghost done = ts.deep_view();
        ts.push(trimmed(&ps[i]));
        assert(ts.deep_view() =~= done.push(trim(ps.deep_view()[i as int])));
        assert(trim_each(ps.deep_view()).take(i + 1) =~= trim_each(ps.deep_view()).take(
            i as int,
        ).push(trim(ps.deep_view()[i as int])));
        i += 1;
    }
    assert(trim_each(ps.deep_view()).take(i as int) =~= trim_each(ps.deep_view()));
    keep_nonempty(&ts)
}

/// The members of `ps` with `sep` between each two.
pub open spec fn join(ps: Seq<Seq<char>>, sep: Seq<char>) -> Seq<char>
    decreases ps.len(),
{
    if ps.len() == 0 {
        Seq::empty()
    } else if ps.len() == 1 {
        ps[0]
    } else {
        join(ps.drop_last(), sep) + sep + ps.last()
    }
}

/// The members of `ps[from..to]` with `sep` between each two.
pub fn join_range(ps: &Vec<String>, from: usize, to: usize, sep: &str) -> (r: String)
    requires
        from <= to <= ps@.len(),
    ensures
        r@ == join(ps.deep_view().subrange(from as int, to as int), sep@),
{
    let mut r = String::new();
    let mut i: usize = from;
    assert(r@ =~= join(ps.deep_view().subrange(from as int, from as int), sep@));
    while i < to
        invariant
            from <= i <= to <= ps@.len(),
            r@ == join(ps.deep_view().subrange(from as int, i as int), sep@),
        decreases to - i,
    {
        let ghost part = ps.deep_view().subrange(from as int, i + 1);
        assert(part.drop_last() =~= ps.deep_view().subrange(from as int, i as int));
        if i > from {
            r.append(sep);
            r.append(&ps[i]);
        } else {
            r = copy(&ps[i]);
        }
        assert(r@ == join(part, sep@));
        i += 1;
    }
    r
}

/// The members of `ps` with `sep` between each two.
pub fn join_all(ps: &Vec<String>, sep: &str) -> (r: String)
    ensures
        r@ == join(ps.deep_view(), sep@),
{
    assert(ps.deep_view().subrange(0, ps@.len() as int) =~= ps.deep_view());
    join_range(ps, 0, ps.len(), sep)
}


/// Pieces of two texts with a separator between them are the pieces of the
/// first and then those of the second.
pub proof fn lemma_split_cat(a: Seq<char>, c: char, b: Seq<char>, sep: Sep)
    requires
        sep.parts(c),
    ensures
        split(a.push(c) + b, sep) == split(a, sep) + split(b, sep),
    decreases b.len(),
{
    lemma_split(a, sep);
    lemma_split(b, sep);
    if b.len() == 0 {
        assert(a.push(c) + b =~= a.push(c));
        assert(a.push(c).drop_last() =~= a);
        assert(split(a.push(c), sep) =~= split(a, sep) + split(b, sep));
    } else {
        let s = a.push(c) + b;
        assert(s.drop_last() =~= a.push(c) + b.drop_last());
        lemma_split_cat(a, c, b.drop_last(), sep);
        lemma_split(b.drop_last(), sep);
        let r = split(b.drop_last(), sep);
        let whole = split(a, sep) + r;
        assert(whole.last() == r.last());
        if sep.parts(s.last()) {
            assert(whole.push(Seq::empty()) =~= split(a, sep) + r.push(Seq::empty()));
        } else {
            assert(whole.drop_last().push(r.last().push(s.last())) =~= split(a, sep)
                + r.drop_last().push(r.last().push(s.last())));
        }
    }
}

/// A text without separators is its own only piece.
pub proof fn lemma_split_whole(s: Seq<char>, sep: Sep)
    requires
        forall|i: int| 0 <= i < s.len() ==> !sep.parts(#[trigger] s[i]),
    ensures
        split(s, sep) == seq![s],
    decreases s.len(),
{
    if s.len() > 0 {
        lemma_split_whole(s.drop_last(), sep);
        assert(!sep.parts(s[s.len() - 1]));
        let r = split(s.drop_last(), sep);
        assert(s.drop_last().push(s.last()) =~= s);
        assert(r.drop_last().push(r.last().push(s.last())) =~= seq![s]);
    } else {
        assert(s =~= Seq::<char>::empty());
    }
}

/// Keeping the non-empty members goes through concatenation.
pub proof fn lemma_nonempty_cat(a: Seq<Seq<char>>, b: Seq<Seq<char>>)
    ensures
        nonempty(a + b) == nonempty(a) + nonempty(b),
    decreases b.len(),
{
    if b.len() == 0 {
        assert(a + b =~= a);
        assert(nonempty(a) + nonempty(b) =~= nonempty(a));
    } else {
        lemma_nonempty_cat(a, b.drop_last());
        assert((a + b).drop_last() =~= a + b.drop_last());
        assert(nonempty(a + b) =~= nonempty(a) + nonempty(b));
    }
}

/// Words joined by single spaces are found again.
pub proof fn lemma_words_of_join(ws: Seq<Seq<char>>)
    requires
        forall|i: int| 0 <= i < ws.len() ==> (#[trigger] ws[i]).len() > 0,
        forall|i: int, j: int|
            0 <= i < ws.len() && 0 <= j < ws[i].len() ==> !is_white(#[trigger] ws[i][j]),
    ensures
        words(join(ws, seq![' '])) == ws,
    decreases ws.len(),
{
    reveal_with_fuel(nonempty, 2);
    if ws.len() == 0 {
        assert(split(Seq::empty(), Sep::White) =~= seq![Seq::<char>::empty()]);
        assert(nonempty(seq![Seq::<char>::empty()]) =~= ws);
    } else {
        let w = ws.last();
        assert forall|j: int| 0 <= j < w.len() implies !Sep::White.parts(#[trigger] w[j]) by {
            assert(w[j] == ws[ws.len() - 1][j]);
        }
        lemma_split_whole(w, Sep::White);
        assert(seq![w].drop_last() =~= Seq::<Seq<char>>::empty());
        assert(nonempty(seq![w]) =~= seq![w]);
        if ws.len() == 1 {
            assert(ws =~= seq![w]);
        } else {
            let init = ws.drop_last();
            assert forall|i: int, j: int|
                0 <= i < init.len() && 0 <= j < init[i].len() implies !is_white(
                #[trigger] init[i][j],
            ) by {
                assert(init[i][j] == ws[i][j]);
            }
            lemma_words_of_join(init);
            let a = join(init, seq![' ']);
            assert(a + seq![' '] + w =~= a.push(' ') + w);
            lemma_split_cat(a, ' ', w, Sep::White);
            lemma_nonempty_cat(split(a, Sep::White), split(w, Sep::White));
            assert(init + seq![w] =~= ws);
        }
    }
}

/// Pieces without separators, joined by one, are found again.
pub proof fn lemma_split_of_join(ps: Seq<Seq<char>>, c: char, sep: Sep)
    requires
        ps.len() > 0,
        sep.parts(c),
        forall|i: int, j: int|
            0 <= i < ps.len() && 0 <= j < ps[i].len() ==> !sep.parts(#[trigger] ps[i][j]),
    ensures
        split(join(ps, seq![c]), sep) == ps,
    decreases ps.len(),
{
    let p = ps.last();
    assert forall|j: int| 0 <= j < p.len() implies !sep.parts(#[trigger] p[j]) by {
        assert(p[j] == ps[ps.len() - 1][j]);
    }
    lemma_split_whole(p, sep);
    if ps.len() == 1 {
        assert(ps =~= seq![p]);
    } else {
        let init = ps.drop_last();
        assert forall|i: int, j: int| 0 <= i < init.len() && 0 <= j < init[i].len() implies !sep.parts(
            #[trigger] init[i][j],
        ) by {
            assert(init[i][j] == ps[i][j]);
        }
        lemma_split_of_join(init, c, sep);
        let a = join(init, seq![c]);
        assert(a + seq![c] + p =~= a.push(c) + p);
        lemma_split_cat(a, c, p, sep);
        assert(init + seq![p] =~= ps);
    }
}

/// The first piece opens the text; it is all of the text where there is no
/// other, and not empty where the text does not open with a separator.
pub proof fn lemma_split_first(s: Seq<char>, sep: Sep)
    ensures
        split(s, sep).len() > 0,
        split(s, sep)[0].len() <= s.len(),
        split(s, sep)[0] == s.take(split(s, sep)[0].len() as int),
        split(s, sep).len() == 1 ==> split(s, sep)[0] == s,
        s.len() > 0 && !sep.parts(s[0]) ==> split(s, sep)[0].len() > 0,
    decreases s.len(),
{
    if s.len() > 0 {
        lemma_split_first(s.drop_last(), sep);
        let r = split(s.drop_last(), sep);
        let t = split(s, sep);
        assert(s.drop_last().take(r[0].len() as int) =~= s.take(r[0].len() as int));
        if t.len() == 1 && !sep.parts(s.last()) {
            assert(t[0] =~= s);
            assert(s.take(s.len() as int) =~= s);
        } else {
            assert(t[0] == r[0]);
        }
    } else {
        assert(s.take(0) =~= split(s, sep)[0]);
        assert(split(s, sep)[0] =~= s);
    }
}

/// The pieces hold nothing but what the text holds.
pub proof fn lemma_split_chars(s: Seq<char>, sep: Sep)
    ensures
        forall|i: int, j: int|
            0 <= i < split(s, sep).len() && 0 <= j < split(s, sep)[i].len() ==> s.contains(
                #[trigger] split(s, sep)[i][j],
            ),
    decreases s.len(),
{
    if s.len() > 0 {
        lemma_split_chars(s.drop_last(), sep);
        lemma_split(s.drop_last(), sep);
        let r = split(s.drop_last(), sep);
        let t = split(s, sep);
        assert forall|i: int, j: int| 0 <= i < t.len() && 0 <= j < t[i].len() implies s.contains(
            #[trigger] t[i][j],
        ) by {
            if i < r.len() && j < r[i].len() {
                assert(t[i][j] == r[i][j]);
                let k = s.drop_last().index_of(r[i][j]);
                assert(s[k] == t[i][j]);
            } else {
                assert(s[s.len() - 1] == t[i][j]);
            }
        }
    }
}

/// The fields hold no separator, and nothing but what the text holds.
pub proof fn lemma_fields_chars(s: Seq<char>, sep: Sep)
    ensures
        forall|i: int, j: int|
            0 <= i < fields(s, sep).len() && 0 <= j < fields(s, sep)[i].len() ==> s.contains(
                #[trigger] fields(s, sep)[i][j],
            ) && !sep.parts(fields(s, sep)[i][j]),
{
    let ps = split(s, sep);
    let f = fields(s, sep);
    lemma_split(s, sep);
    lemma_split_chars(s, sep);
    lemma_nonempty(trim_each(ps));
    assert forall|i: int, j: int| 0 <= i < f.len() && 0 <= j < f[i].len() implies s.contains(
        #[trigger] f[i][j],
    ) && !sep.parts(f[i][j]) by {
        assert(f[i].len() > 0);
        let k = trim_each(ps).index_of(f[i]);
        assert(trim(ps[k]) == f[i]);
        lemma_trim(ps[k]);
        assert(trim(ps[k]).contains(f[i][j]));
        assert(ps[k].contains(f[i][j]));
        let m = ps[k].index_of(f[i][j]);
        assert(ps[k][m] == f[i][j]);
    }
}

/// A first member that is not empty stays the first.
pub proof fn lemma_nonempty_first(ps: Seq<Seq<char>>)
    requires
        ps.len() > 0,
        ps[0].len() > 0,
    ensures
        nonempty(ps).len() > 0,
        nonempty(ps)[0] == ps[0],
    decreases ps.len(),
{
    reveal_with_fuel(nonempty, 2);
    if ps.len() > 1 {
        lemma_nonempty_first(ps.drop_last());
    }
}

/// Where no member is empty, all stay.
pub proof fn lemma_nonempty_all(ps: Seq<Seq<char>>)
    requires
        forall|i: int| 0 <= i < ps.len() ==> (#[trigger] ps[i]).len() > 0,
    ensures
        nonempty(ps) == ps,
    decreases ps.len(),
{
    if ps.len() > 0 {
        assert forall|i: int| 0 <= i < ps.drop_last().len() implies (
        #[trigger] ps.drop_last()[i]).len() > 0 by {
            assert(ps.drop_last()[i] == ps[i]);
        }
        lemma_nonempty_all(ps.drop_last());
        assert(ps[ps.len() - 1].len() > 0);
        assert(ps.drop_last().push(ps.last()) =~= ps);
    }
}

/// Trimmed fields without separators, joined by one, are found again.
pub proof fn lemma_fields_of_join(fs: Seq<Seq<char>>, c: char, sep: Sep)
    requires
        fs.len() > 0,
        sep.parts(c),
        forall|i: int| 0 <= i < fs.len() ==> (#[trigger] fs[i]).len() > 0 && is_trimmed(fs[i]),
        forall|i: int, j: int|
            0 <= i < fs.len() && 0 <= j < fs[i].len() ==> !sep.parts(#[trigger] fs[i][j]),
    ensures
        fields(join(fs, seq![c]), sep) == fs,
{
    lemma_split_of_join(fs, c, sep);
    assert forall|i: int| 0 <= i < fs.len() implies trim(#[trigger] fs[i]) == fs[i] by {
        lemma_trim(fs[i]);
    }
    assert(trim_each(fs) =~= fs);
    lemma_nonempty_all(fs);
}

/// A text that does not open with white space or a separator opens with its
/// first field.
pub proof fn lemma_first_field(s: Seq<char>, sep: Sep)
    requires
        s.len() > 0,
        !is_white(s[0]),
        !sep.parts(s[0]),
    ensures
        fields(s, sep).len() > 0,
        occurs_at(s, fields(s, sep)[0], 0),
{
    let ps = split(s, sep);
    lemma_split_first(s, sep);
    let p = ps[0];
    assert(p[0] == s[0]);
    assert(trim_start(p) == p);
    lemma_trim_end(p);
    assert(trim(p).len() > 0) by {
        if trim_end(p).len() == 0 {
            assert(is_white(p[0]));
        }
    }
    assert(trim_each(ps)[0] == trim(p));
    lemma_nonempty_first(trim_each(ps));
    assert(s.subrange(0, trim(p).len() as int) =~= trim(p));
}

/// What is joined opens with its first member, and if there are more, a
/// separator follows; it ends with its last member.
pub proof fn lemma_join_ends(ps: Seq<Seq<char>>, c: char)
    requires
        ps.len() > 0,
    ensures
        join(ps, seq![c]).len() >= ps[0].len(),
        join(ps, seq![c]).take(ps[0].len() as int) == ps[0],
        join(ps, seq![c]).len() > ps[0].len() ==> join(ps, seq![c])[ps[0].len() as int] == c,
        join(ps, seq![c]).len() >= ps.last().len(),
        join(ps, seq![c]).skip(join(ps, seq![c]).len() - ps.last().len()) == ps.last(),
    decreases ps.len(),
{
    let j = join(ps, seq![c]);
    if ps.len() == 1 {
        assert(j.take(j.len() as int) =~= j);
        assert(j.skip(0) =~= j);
    } else {
        lemma_join_ends(ps.drop_last(), c);
        let a = join(ps.drop_last(), seq![c]);
        let n = ps[0].len() as int;
        assert(ps.drop_last()[0] == ps[0]);
        assert(j.take(n) =~= a.take(n));
        assert(j.skip(j.len() - ps.last().len()) =~= ps.last());
        if a.len() == n {
            assert(j[n] == c);
        } else {
            assert(j[n] == a[n]);
        }
    }
}

/// What is joined holds nothing but what its members hold, and separators.
pub proof fn lemma_join_chars(ps: Seq<Seq<char>>, c: char, bad: spec_fn(char) -> bool)
    requires
        !bad(c),
        forall|i: int, j: int|
            0 <= i < ps.len() && 0 <= j < ps[i].len() ==> !bad(#[trigger] ps[i][j]),
    ensures
        forall|k: int| 0 <= k < join(ps, seq![c]).len() ==> !bad(#[trigger] join(ps, seq![c])[k]),
    decreases ps.len(),
{
    let j = join(ps, seq![c]);
    if ps.len() == 1 {
    } else if ps.len() > 1 {
        let init = ps.drop_last();
        assert forall|i: int, k: int| 0 <= i < init.len() && 0 <= k < init[i].len() implies !bad(
            #[trigger] init[i][k],
        ) by {
            assert(init[i][k] == ps[i][k]);
        }
        lemma_join_chars(init, c, bad);
        let a = join(init, seq![c]);
        assert forall|k: int| 0 <= k < j.len() implies !bad(#[trigger] j[k]) by {
            if k < a.len() {
                assert(j[k] == a[k]);
            } else if k > a.len() {
                assert(j[k] == ps[ps.len() - 1][k - a.len() - 1]);
            }
        }
    }
}

// Searching and replacing

/// Whether `pat` stands at position `i` of `s`.
pub open spec fn occurs_at(s: Seq<char>, pat: Seq<char>, i: int) -> bool {
    0 <= i && i + pat.len() <= s.len() && s.subrange(i, i + pat.len()) == pat
}

/// Whether `pat` stands somewhere in `s`.
pub open spec fn occurs(s: Seq<char>, pat: Seq<char>) -> bool {
    exists|i: int| occurs_at(s, pat, i)
}

/// `s` with every occurrence of `pat`, found from the left without overlap,
/// replaced by `with`.
pub open spec fn replace(s: Seq<char>, pat: Seq<char>, with: Seq<char>) -> Seq<char>
    recommends
        pat.len() > 0,
    decreases s.len(),
{
    if pat.len() > 0 && occurs_at(s, pat, 0) {
        with + replace(s.skip(pat.len() as int), pat, with)
    } else if s.len() == 0 {
        s
    } else {
        seq![s[0]] + replace(s.skip(1), pat, with)
    }
}

/// Whether `pat` stands at position `i` of `v`.
pub fn found_at(v: &Vec<char>, pat: &Vec<char>, i: usize) -> (r: bool)
    requires
        i <= v@.len(),
    ensures
        r == occurs_at(v@, pat@, i as int),
{
    if pat.len() > v.len() - i {
        return false;
    }
    let mut j: usize = 0;
    while j < pat.len()
        invariant
            i + pat.len() <= v.len(),
            j <= pat@.len(),
            forall|k: int| 0 <= k < j ==> v@[i + k] == pat@[k],
        decreases pat@.len() - j,
    {
        if v[i + j] != pat[j] {
            assert(v@.subrange(i as int, i + pat@.len())[j as int] != pat@[j as int]);
            return false;
        }
        j += 1;
    }
    assert(v@.subrange(i as int, i + pat@.len()) =~= pat@);
    true
}

/// Whether `pat` stands somewhere in `s`.
pub fn contains(s: &str, pat: &str) -> (r: bool)
    ensures
        r == occurs(s@, pat@),
{
    let v = chars_of(s);
    let p = chars_of(pat);
    let mut i: usize = 0;
    while i <= v.len()
        invariant
            i <= v@.len() + 1,
            v@ == s@,
            p@ == pat@,
            forall|k: int| 0 <= k < i ==> !occurs_at(v@, p@, k),
        decreases v@.len() + 1 - i,
    {
        if found_at(&v, &p, i) {
            return true;
        }
        if i == v.len() {
            return false;
        }
        i += 1;
    }
    false
}

/// Whether `s` starts with `pat`.
pub fn starts_with(s: &str, pat: &str) -> (r: bool)
    ensures
        r == occurs_at(s@, pat@, 0),
{
    found_at(&chars_of(s), &chars_of(pat), 0)
}

/// Whether the first `c` of `s` stands at `i`.
pub open spec fn first_at(s: Seq<char>, c: char, i: int) -> bool {
    0 <= i < s.len() && s[i] == c && forall|j: int| 0 <= j < i ==> s[j] != c
}

/// What stands before and after the first `c` of `s`.
pub open spec fn cut(s: Seq<char>, c: char) -> Option<(Seq<char>, Seq<char>)> {
    if exists|i: int| first_at(s, c, i) {
        let i = choose|i: int| first_at(s, c, i);
        Some((s.take(i), s.skip(i + 1)))
    } else {
        None
    }
}

/// What stands before and after the first `c` of `s`.
pub fn cut_at(s: &str, c: char) -> (r: Option<(String, String)>)
    ensures
        r.deep_view() == cut(s@, c),
{
    let v = chars_of(s);
    let mut i: usize = 0;
    while i < v.len()
        invariant
            i <= v@.len(),
            v@ == s@,
            forall|k: int| 0 <= k < i ==> v@[k] != c,
        decreases v@.len() - i,
    {
        if v[i] == c {
            assert(first_at(s@, c, i as int));
            let ghost k = choose|k: int| first_at(s@, c, k);
            assert(first_at(s@, c, k) && k == i);
            let a = text_range(&v, 0, i);
            let b = text_range(&v, i + 1, v.len());
            assert(a@ =~= s@.take(i as int));
            assert(b@ =~= s@.skip(i + 1));
            return Some((a, b));
        }
        i += 1;
    }
    assert forall|k: int| !first_at(s@, c, k) by {}
    None
}

/// `s` with every `pat` replaced by `with`.
pub fn replaced(s: &str, pat: &str, with: &str) -> (r: String)
    requires
        pat@.len() > 0,
    ensures
        r@ == replace(s@, pat@, with@),
{
    let v = chars_of(s);
    let p = chars_of(pat);
    let mut r = String::new();
    let mut i: usize = 0;
    assert(v@.skip(0) =~= v@);
    assert(r@ + replace(v@, pat@, with@) =~= replace(v@, pat@, with@));
    while i < v.len()
        invariant
            i <= v@.len(),
            p@ == pat@,
            pat@.len() > 0,
            r@ + replace(v@.skip(i as int), pat@, with@) == replace(v@, pat@, with@),
        decreases v@.len() - i,
    {
        let ghost rest = v@.skip(i as int);
        let ghost done = r@;
        let hit = found_at(&v, &p, i);
        assert(hit == occurs_at(rest, pat@, 0)) by {
            if i + pat@.len() <= v@.len() {
                assert(rest.subrange(0, pat@.len() as int) =~= v@.subrange(
                    i as int,
                    i + pat@.len(),
                ));
            }
        }
        if hit {
            r.append(with);
            assert(rest.skip(pat@.len() as int) =~= v@.skip(i + pat@.len()));
            assert(r@ + replace(v@.skip(i + pat@.len()), pat@, with@) =~= done + (with@ + replace(
                v@.skip(i + pat@.len()),
                pat@,
                with@,
            )));
            i += p.len();
        } else {
            r.push(v[i]);
            assert(rest.skip(1) =~= v@.skip(i + 1));
            assert(r@ + replace(v@.skip(i + 1), pat@, with@) =~= done + (seq![v@[i as int]]
                + replace(v@.skip(i + 1), pat@, with@)));
            i += 1;
        }
    }
    assert(v@.skip(i as int) =~= Seq::<char>::empty());
    assert(r@ =~= r@ + replace(v@.skip(i as int), pat@, with@));
    r
}

/// A text that does not hold `pat` is left alone by [`replace`].
pub proof fn lemma_replace_absent(s: Seq<char>, pat: Seq<char>, with: Seq<char>)
    requires
        pat.len() > 0,
        !occurs(s, pat),
    ensures
        replace(s, pat, with) == s,
    decreases s.len(),
{
    assert(!occurs_at(s, pat, 0));
    if s.len() > 0 {
        let t = s.skip(1);
        assert forall|i: int| !occurs_at(t, pat, i) by {
            if occurs_at(t, pat, i) {
                assert(s.subrange(i + 1, i + 1 + pat.len()) =~= t.subrange(i, i + pat.len()));
                assert(occurs_at(s, pat, i + 1));
            }
        }
        lemma_replace_absent(t, pat, with);
        assert(seq![s[0]] + t =~= s);
    }
}

// Numbers

/// The digit for `d`.
pub open spec fn digit_char(d: int) -> char
    recommends
        0 <= d <= 9,
{
    (48 + d) as char
}

/// The decimal digits of `n`.
pub open spec fn decimal(n: nat) -> Seq<char>
    decreases n,
{
    if n < 10 {
        seq![digit_char(n as int)]
    } else {
        decimal(n / 10).push(digit_char((n % 10) as int))
    }
}

/// The decimal text of a possibly negative number.
pub open spec fn signed_decimal(n: int) -> Seq<char> {
    if n < 0 {
        seq!['-'] + decimal((-n) as nat)
    } else {
        decimal(n as nat)
    }
}

/// The decimal digits of `n`.
pub fn decimal_text(n: u128) -> (r: String)
    ensures
        r@ == decimal(n as nat),
    decreases n,
{
    let d: u8 = (n % 10) as u8;
    let c: char = (48u8 + d) as char;
    if n < 10 {
        let mut r = String::new();
        r.push(c);
        assert(r@ =~= seq![digit_char(n as int)]);
        r
    } else {
        let mut r = decimal_text(n / 10);
        r.push(c);
        r
    }
}

/// The decimal text of `n`.
pub fn signed_text(n: i64) -> (r: String)
    ensures
        r@ == signed_decimal(n as int),
{
    if n < 0 {
        let m: i128 = -(n as i128);
        let mut r = String::new();
        r.push('-');
        r.append(&decimal_text(m as u128));
        assert(r@ =~= seq!['-'] + decimal((-n) as nat));
        r
    } else {
        decimal_text(n as u128)
    }
}

/// Decimal digits are digits, and there is at least one.
pub proof fn lemma_decimal(n: nat)
    ensures
        decimal(n).len() >= 1,
        forall|i: int| 0 <= i < decimal(n).len() ==> is_digit(#[trigger] decimal(n)[i]),
        decimal_value(decimal(n)) == n,
    decreases n,
{
    reveal_with_fuel(decimal_value, 2);
    if n >= 10 {
        lemma_decimal(n / 10);
        assert(decimal(n).drop_last() =~= decimal(n / 10));
    } else {
        assert(decimal(n).drop_last() =~= Seq::<char>::empty());
    }
}

/// The number that a run of digits writes down; zero for no digit at all.
pub open spec fn decimal_value(s: Seq<char>) -> nat
    decreases s.len(),
{
    if s.len() == 0 {
        0
    } else {
        decimal_value(s.drop_last()) * 10 + (s.last() as int - 48) as nat
    }
}

/// Whether every character of `s` is a digit.
pub open spec fn all_digits(s: Seq<char>) -> bool {
    forall|i: int| 0 <= i < s.len() ==> is_digit(#[trigger] s[i])
}

/// The number between `min` and `max` that `s` writes down: an optional sign
/// (`+`, and `-` where `min` is negative) and at least one digit.
pub open spec fn parsed_int(s: Seq<char>, min: int, max: int) -> Option<int> {
    let signed = s.len() > 0 && (s[0] == '+' || (s[0] == '-' && min < 0));
    let digits = if signed {
        s.skip(1)
    } else {
        s
    };
    let value = if signed && s[0] == '-' {
        -(decimal_value(digits) as int)
    } else {
        decimal_value(digits) as int
    };
    if digits.len() > 0 && all_digits(digits) && min <= value <= max {
        Some(value)
    } else {
        None
    }
}

/// More digits make a larger number.
proof fn lemma_decimal_value_grows(s: Seq<char>, k: int)
    requires
        0 <= k <= s.len(),
        all_digits(s),
    ensures
        decimal_value(s.take(k)) <= decimal_value(s),
    decreases s.len() - k,
{
    if k < s.len() {
        lemma_decimal_value_grows(s, k + 1);
        assert(s.take(k + 1).drop_last() =~= s.take(k));
        assert(s.take(k + 1).last() == s[k]);
    } else {
        assert(s.take(k) =~= s);
    }
}

/// The number that the digits `v[from..]` write down, if there is at least one
/// and the number is at most `max`.
pub fn parse_digits(v: &Vec<char>, from: usize, max: u128) -> (r: Option<u128>)
    requires
        from <= v@.len(),
        max <= 0xffff_ffff_ffff_ffff_ffff,
    ensures
        match r {
            Some(n) => v@.skip(from as int).len() > 0 && all_digits(v@.skip(from as int)) && n
                == decimal_value(v@.skip(from as int)) && n <= max,
            None => v@.skip(from as int).len() == 0 || !all_digits(v@.skip(from as int))
                || decimal_value(v@.skip(from as int)) > max,
        },
{
    let ghost s = v@.skip(from as int);
    if from == v.len() {
        return None;
    }
    let mut i: usize = from;
    while i < v.len()
        invariant
            from <= i <= v@.len(),
            s == v@.skip(from as int),
            forall|k: int| 0 <= k < i - from ==> is_digit(#[trigger] s[k]),
        decreases v@.len() - i,
    {
        assert(s[i - from] == v@[i as int]);
        if !digit(v[i]) {
            assert(!is_digit(s[i - from]));
            return None;
        }
        i += 1;
    }
    assert(all_digits(s));
    let mut n: u128 = 0;
    let mut j: usize = from;
    assert(s.take(0) =~= Seq::<char>::empty());
    while j < v.len()
        invariant
            from <= j <= v@.len(),
            s == v@.skip(from as int),
            all_digits(s),
            n == decimal_value(s.take(j - from)),
            n <= max <= 0xffff_ffff_ffff_ffff_ffff,
        decreases v@.len() - j,
    {
        assert(s[j - from] == v@[j as int]);
        assert(s.take(j + 1 - from).drop_last() =~= s.take(j - from));
        assert(s.take(j + 1 - from).last() == s[j - from]);
        assert(is_digit(s[j - from]));
        n = n * 10 + (v[j] as u128 - 48);
        proof {
            lemma_decimal_value_grows(s, j + 1 - from);
        }
        if n > max {
            return None;
        }
        j += 1;
    }
    assert(s.take(j - from) =~= s);
    Some(n)
}

/// The number from 0 to `max` that `s` writes down.
pub fn parse_unsigned(s: &str, max: u64) -> (r: Option<u64>)
    ensures
        match r {
            Some(n) => parsed_int(s@, 0, max as int) == Some(n as int),
            None => parsed_int(s@, 0, max as int) is None,
        },
{
    let v = chars_of(s);
    let signed = v.len() > 0 && v[0] == '+';
    let from: usize = if signed {
        1
    } else {
        0
    };
    assert(v@.skip(0) =~= v@);
    match parse_digits(&v, from, max as u128) {
        Some(n) => Some(n as u64),
        None => None,
    }
}

/// The `i64` that `s` writes down.
pub fn parse_signed(s: &str) -> (r: Option<i64>)
    ensures
        match r {
            Some(n) => parsed_int(s@, i64::MIN as int, i64::MAX as int) == Some(n as int),
            None => parsed_int(s@, i64::MIN as int, i64::MAX as int) is None,
        },
{
    let v = chars_of(s);
    let negative = v.len() > 0 && v[0] == '-';
    let signed = v.len() > 0 && (v[0] == '+' || v[0] == '-');
    let from: usize = if signed {
        1
    } else {
        0
    };
    assert(v@.skip(0) =~= v@);
    let max: u128 = if negative {
        0x8000_0000_0000_0000
    } else {
        0x7fff_ffff_ffff_ffff
    };
    match parse_digits(&v, from, max) {
        Some(n) => if negative {
            Some((-(n as i128)) as i64)
        } else {
            Some(n as i64)
        },
        None => None,
    }
}

// Letter case

/// `c` in lower case where it is an ASCII capital.
pub open spec fn ascii_lower(c: char) -> char {
    if 'A' <= c <= 'Z' {
        ((c as u32) + 32) as char
    } else {
        c
    }
}

/// Executable [`ascii_lower`].
pub fn lower(c: char) -> (r: char)
    ensures
        r == ascii_lower(c),
{
    if 'A' <= c && c <= 'Z' {
        ((c as u8) + 32) as char
    } else {
        c
    }
}

/// What [`str::to_lowercase`] returns.
pub uninterp spec fn lowercase(s: Seq<char>) -> Seq<char>;

/// `str::to_lowercase` returns the lower-case form that Unicode gives the text,
/// which depends on the text alone.
pub assume_specification[ str::to_lowercase ](s: &str) -> (r: String)
    ensures
        r@ == lowercase(s@),
;

/// Whether no curly brace opens in a text.
pub open spec fn no_brace(s: Seq<char>) -> bool {
    forall|i: int| 0 <= i < s.len() ==> #[trigger] s[i] != '{'
}

/// Replacing passes over a front where nothing is found.
pub proof fn lemma_replace_passes(a: Seq<char>, b: Seq<char>, pat: Seq<char>, with: Seq<char>)
    requires
        pat.len() > 0,
        forall|i: int| 0 <= i < a.len() ==> !#[trigger] occurs_at(a + b, pat, i),
    ensures
        replace(a + b, pat, with) == a + replace(b, pat, with),
    decreases a.len(),
{
    if a.len() == 0 {
        assert(a + b =~= b);
        assert(a + replace(b, pat, with) =~= replace(b, pat, with));
    } else {
        let s = a + b;
        assert(!occurs_at(s, pat, 0));
        assert(s.skip(1) =~= a.skip(1) + b);
        assert forall|i: int| 0 <= i < a.skip(1).len() implies !#[trigger] occurs_at(
            a.skip(1) + b,
            pat,
            i,
        ) by {
            if occurs_at(a.skip(1) + b, pat, i) {
                assert(s.subrange(i + 1, i + 1 + pat.len()) =~= (a.skip(1) + b).subrange(
                    i,
                    i + pat.len(),
                ));
                assert(occurs_at(s, pat, i + 1));
            }
        }
        lemma_replace_passes(a.skip(1), b, pat, with);
        assert(seq![s[0]] + (a.skip(1) + replace(b, pat, with)) =~= a + replace(b, pat, with));
    }
}

/// A text that is found once is replaced there and nowhere else.
pub proof fn lemma_replace_once(a: Seq<char>, pat: Seq<char>, b: Seq<char>, with: Seq<char>)
    requires
        pat.len() > 0,
        forall|i: int| 0 <= i < a.len() ==> !#[trigger] occurs_at(a + (pat + b), pat, i),
        !occurs(b, pat),
    ensures
        replace(a + (pat + b), pat, with) == a + (with + b),
{
    lemma_replace_passes(a, pat + b, pat, with);
    let s = pat + b;
    assert(s.subrange(0, pat.len() as int) =~= pat);
    assert(s.skip(pat.len() as int) =~= b);
    lemma_replace_absent(b, pat, with);
}

// Laws

/// White space is what Unicode calls so: by code points. Digits and letters are
/// those of ASCII.
pub proof fn law_kinds_of_characters(c: char)
    ensures
        is_white(c) <==> c as int == 0x09 || c as int == 0x0A || c as int == 0x0B || c as int
            == 0x0C || c as int == 0x0D || c as int == 0x20 || c as int == 0x85 || c as int == 0xA0
            || c as int == 0x1680 || 0x2000 <= c as int <= 0x200A || c as int == 0x2028
            || c as int == 0x2029 || c as int == 0x202F || c as int == 0x205F || c as int == 0x3000,
        is_digit(c) <==> 0x30 <= c as int <= 0x39,
        is_letter(c) <==> 0x41 <= c as int <= 0x5A || 0x61 <= c as int <= 0x7A,
        0x41 <= c as int <= 0x5A ==> ascii_lower(c) as int == c as int + 0x20,
        !(0x41 <= c as int <= 0x5A) ==> ascii_lower(c) == c,
{
}

proof fn lemma_trim_start_front(w: Seq<char>, s: Seq<char>)
    requires
        forall|i: int| 0 <= i < w.len() ==> is_white(#[trigger] w[i]),
        s.len() > 0 ==> !is_white(s[0]),
    ensures
        trim_start(w + s) == s,
    decreases w.len(),
{
    if w.len() == 0 {
        assert(w + s =~= s);
    } else {
        assert(is_white(w[0]));
        assert((w + s)[0] == w[0]);
        assert((w + s).skip(1) =~= w.skip(1) + s);
        assert forall|i: int| 0 <= i < w.skip(1).len() implies is_white(#[trigger] w.skip(1)[i]) by {
            assert(w.skip(1)[i] == w[i + 1]);
        }
        lemma_trim_start_front(w.skip(1), s);
    }
}

proof fn lemma_trim_end_back(s: Seq<char>, w: Seq<char>)
    requires
        forall|i: int| 0 <= i < w.len() ==> is_white(#[trigger] w[i]),
        s.len() > 0 ==> !is_white(s.last()),
    ensures
        trim_end(s + w) == s,
    decreases w.len(),
{
    if w.len() == 0 {
        assert(s + w =~= s);
    } else {
        assert(is_white(w[w.len() - 1]));
        assert((s + w).last() == w.last());
        assert((s + w).drop_last() =~= s + w.drop_last());
        assert forall|i: int| 0 <= i < w.drop_last().len() implies is_white(
            #[trigger] w.drop_last()[i],
        ) by {
            assert(w.drop_last()[i] == w[i]);
        }
        lemma_trim_end_back(s, w.drop_last());
    }
}

/// Trimming takes white space away at both ends, all of it, and nothing else.
pub proof fn law_trim(a: Seq<char>, s: Seq<char>, b: Seq<char>)
    requires
        forall|i: int| 0 <= i < a.len() ==> is_white(#[trigger] a[i]),
        forall|i: int| 0 <= i < b.len() ==> is_white(#[trigger] b[i]),
        s.len() > 0,
        !is_white(s[0]),
        !is_white(s.last()),
    ensures
        trim(a + s + b) == s,
{
    assert((s + b)[0] == s[0]);
    assert(a + s + b =~= a + (s + b));
    lemma_trim_start_front(a, s + b);
    lemma_trim_end_back(s, b);
}

/// A number is read as it is written, with or without a plus sign, where it is
/// within the limits; out of them, and with anything but digits, it is not.
pub proof fn law_numbers(n: int, min: int, max: int, s: Seq<char>, i: int)
    ensures
        min <= n <= max && min <= 0 ==> parsed_int(signed_decimal(n), min, max) == Some(n),
        0 <= n && min <= n <= max ==> parsed_int(seq!['+'] + signed_decimal(n), min, max) == Some(
            n,
        ),
        0 <= n && !(min <= n <= max) ==> parsed_int(signed_decimal(n), min, max) is None,
        0 < i < s.len() && !is_digit(s[i]) ==> parsed_int(s, min, max) is None,
        s.len() == 0 ==> parsed_int(s, min, max) is None,
{
    let m: nat = if n < 0 {
        (-n) as nat
    } else {
        n as nat
    };
    let d = decimal(m);
    lemma_decimal(m);
    assert(is_digit(d[0]));
    assert(all_digits(d));
    assert((seq!['-'] + d).skip(1) =~= d);
    assert((seq!['+'] + d).skip(1) =~= d);
    assert((seq!['-'] + d)[0] == '-');
    assert((seq!['+'] + d)[0] == '+');
    if 0 < i < s.len() && !is_digit(s[i]) {
        assert(s.skip(1)[i - 1] == s[i]);
    }
}

/// White space parts words, and only it does; runs of it, and white space at the
/// ends, make no words.
pub proof fn law_words(a: Seq<char>, c: char, b: Seq<char>, w: Seq<char>)
    requires
        is_white(c),
        w.len() > 0,
        forall|i: int| 0 <= i < w.len() ==> !is_white(#[trigger] w[i]),
    ensures
        words(a.push(c) + b) == words(a) + words(b),
        words(w) == seq![w],
        words(Seq::empty()).len() == 0,
{
    reveal_with_fuel(nonempty, 2);
    lemma_split_cat(a, c, b, Sep::White);
    lemma_nonempty_cat(split(a, Sep::White), split(b, Sep::White));
    lemma_split_whole(w, Sep::White);
    assert(seq![w].drop_last() =~= Seq::<Seq<char>>::empty());
    assert(nonempty(seq![w]) =~= seq![w]);
    let none = Seq::<char>::empty();
    assert(split(none, Sep::White) =~= seq![none]);
    assert(seq![none].drop_last() =~= Seq::<Seq<char>>::empty());
}

} // verus!
