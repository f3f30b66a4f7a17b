//! Chinese entries: lines of the CC-CEDICT text, tone marks, and cards.

use crate::dict::{Phonetic, PosGloss, WordCard};
use crate::dict::{CardModel, PhoneticModel, PosModel};
use crate::json;
use crate::reading;
use crate::reading::Json;
use crate::text;
use crate::text::Sep;
use vstd::prelude::*;

verus! {

// Tone marks

/// `c` with the mark of a tone from 1 to 4; `c` itself where it takes none.
pub open spec fn marked(c: char, tone: int) -> char {
    let at = |a: char, b: char, d: char, e: char|
        if tone == 1 {
            a
        } else if tone == 2 {
            b
        } else if tone == 3 {
            d
        } else {
            e
        };
    if c == 'a' {
        at('ā', 'á', 'ǎ', 'à')
    } else if c == 'e' {
        at('ē', 'é', 'ě', 'è')
    } else if c == 'i' {
        at('ī', 'í', 'ǐ', 'ì')
    } else if c == 'o' {
        at('ō', 'ó', 'ǒ', 'ò')
    } else if c == 'u' {
        at('ū', 'ú', 'ǔ', 'ù')
    } else if c == 'ü' {
        at('ǖ', 'ǘ', 'ǚ', 'ǜ')
    } else if c == 'A' {
        at('Ā', 'Á', 'Ǎ', 'À')
    } else if c == 'E' {
        at('Ē', 'É', 'Ě', 'È')
    } else if c == 'I' {
        at('Ī', 'Í', 'Ǐ', 'Ì')
    } else if c == 'O' {
        at('Ō', 'Ó', 'Ǒ', 'Ò')
    } else if c == 'U' {
        at('Ū', 'Ú', 'Ǔ', 'Ù')
    } else {
        c
    }
}

fn pick(tone: u8, a: char, b: char, d: char, e: char) -> (r: char)
    ensures
        r == (if tone == 1 {
            a
        } else if tone == 2 {
            b
        } else if tone == 3 {
            d
        } else {
            e
        }),
{
    match tone {
        1 => a,
        2 => b,
        3 => d,
        _ => e,
    }
}

fn mark(c: char, tone: u8) -> (r: char)
    ensures
        r == marked(c, tone as int),
{
    match c {
        'a' => pick(tone, 'ā', 'á', 'ǎ', 'à'),
        'e' => pick(tone, 'ē', 'é', 'ě', 'è'),
        'i' => pick(tone, 'ī', 'í', 'ǐ', 'ì'),
        'o' => pick(tone, 'ō', 'ó', 'ǒ', 'ò'),
        'u' => pick(tone, 'ū', 'ú', 'ǔ', 'ù'),
        'ü' => pick(tone, 'ǖ', 'ǘ', 'ǚ', 'ǜ'),
        'A' => pick(tone, 'Ā', 'Á', 'Ǎ', 'À'),
        'E' => pick(tone, 'Ē', 'É', 'Ě', 'È'),
        'I' => pick(tone, 'Ī', 'Í', 'Ǐ', 'Ì'),
        'O' => pick(tone, 'Ō', 'Ó', 'Ǒ', 'Ò'),
        'U' => pick(tone, 'Ū', 'Ú', 'Ǔ', 'Ù'),
        _ => c,
    }
}

/// Whether the first letter `l`, of either case, stands at `i`.
pub open spec fn first_letter(s: Seq<char>, l: char, i: int) -> bool {
    &&& 0 <= i < s.len()
    &&& text::ascii_lower(s[i]) == l
    &&& forall|j: int| 0 <= j < i ==> text::ascii_lower(#[trigger] s[j]) != l
}

/// Whether `ou`, of either case, stands at `i`.
pub open spec fn ou_at(s: Seq<char>, i: int) -> bool {
    0 <= i && i + 1 < s.len() && text::ascii_lower(s[i]) == 'o' && text::ascii_lower(s[i + 1])
        == 'u'
}

/// Whether the first `ou` stands at `i`.
pub open spec fn first_ou(s: Seq<char>, i: int) -> bool {
    ou_at(s, i) && forall|j: int| 0 <= j < i ==> !#[trigger] ou_at(s, j)
}

/// The letters that may carry the mark of a syllable.
pub open spec fn is_vowel(c: char) -> bool {
    let l = text::ascii_lower(c);
    l == 'a' || l == 'e' || l == 'i' || l == 'o' || l == 'u' || l == 'ü' || l == 'v'
}

/// Whether the last vowel stands at `i`.
pub open spec fn last_vowel(s: Seq<char>, i: int) -> bool {
    &&& 0 <= i < s.len()
    &&& is_vowel(s[i])
    &&& forall|j: int| i < j < s.len() ==> !is_vowel(#[trigger] s[j])
}

/// Where a syllable carries its mark: on the first `a`, else on the first `e`,
/// else on the `o` of `ou`, else on the last vowel, else at the start.
pub open spec fn mark_place(s: Seq<char>) -> int {
    if exists|i: int| first_letter(s, 'a', i) {
        choose|i: int| first_letter(s, 'a', i)
    } else if exists|i: int| first_letter(s, 'e', i) {
        choose|i: int| first_letter(s, 'e', i)
    } else if exists|i: int| first_ou(s, i) {
        choose|i: int| first_ou(s, i)
    } else if exists|i: int| last_vowel(s, i) {
        choose|i: int| last_vowel(s, i)
    } else {
        0
    }
}

/// `s` without its digits.
pub open spec fn without_digits(s: Seq<char>) -> Seq<char>
    decreases s.len(),
{
    if s.len() == 0 {
        s
    } else if text::is_digit(s.last()) {
        without_digits(s.drop_last())
    } else {
        without_digits(s.drop_last()).push(s.last())
    }
}

/// The tone that ends a syllable, zero where it has none.
pub open spec fn tone_of(s: Seq<char>) -> int {
    if s.len() > 0 && text::is_digit(s.last()) {
        s.last() as int - 48
    } else {
        0
    }
}

/// A syllable such as `fei3` with its tone as a mark.
pub open spec fn syllable(s: Seq<char>) -> Seq<char> {
    let base = without_digits(s);
    if 1 <= tone_of(s) <= 4 {
        base.update(mark_place(base), marked(base[mark_place(base)], tone_of(s)))
    } else {
        base
    }
}

/// `s` with `ü` for every `v`.
pub open spec fn with_umlauts(s: Seq<char>) -> Seq<char> {
    s.map_values(
        |c: char|
            if c == 'v' {
                'ü'
            } else {
                c
            },
    )
}

/// Whether every character of `s` is an ASCII letter.
pub open spec fn all_letters(s: Seq<char>) -> bool {
    forall|i: int| 0 <= i < s.len() ==> text::is_letter(#[trigger] s[i])
}

/// One word of numbered pinyin with its tone as a mark and `ü` for `v`; a word of
/// letters alone stays as it is.
pub open spec fn marked_word(w: Seq<char>) -> Seq<char> {
    if all_letters(w) {
        w
    } else {
        syllable(with_umlauts(w))
    }
}

/// Numbered pinyin with tone marks.
pub open spec fn marked_pinyin(s: Seq<char>) -> Seq<char> {
    text::join(text::words(s).map_values(|w: Seq<char>| marked_word(w)), " "@)
}

/// Whether a word is a tone without a syllable to carry it.
pub open spec fn bare_tone(w: Seq<char>) -> bool {
    1 <= tone_of(w) <= 4 && text::all_digits(w)
}

/// Whether every tone of a numbered pinyin text has a syllable to carry it.
pub open spec fn markable(s: Seq<char>) -> bool {
    forall|i: int| 0 <= i < text::words(s).len() ==> !bare_tone(#[trigger] text::words(s)[i])
}

fn find_letter(v: &Vec<char>, l: char) -> (r: Option<usize>)
    ensures
        match r {
            Some(i) => first_letter(v@, l, i as int),
            None => forall|i: int| !first_letter(v@, l, i),
        },
{
    let mut i: usize = 0;
    while i < v.len()
        invariant
            i <= v@.len(),
            forall|j: int| 0 <= j < i ==> text::ascii_lower(#[trigger] v@[j]) != l,
        decreases v@.len() - i,
    {
        if text::lower(v[i]) == l {
            return Some(i);
        }
        i += 1;
    }
    None
}

fn find_ou(v: &Vec<char>) -> (r: Option<usize>)
    ensures
        match r {
            Some(i) => first_ou(v@, i as int),
            None => forall|i: int| !first_ou(v@, i),
        },
{
    let mut i: usize = 1;
    while i < v.len()
        invariant
            1 <= i,
            forall|j: int| 0 <= j < i - 1 ==> !#[trigger] ou_at(v@, j),
        decreases v@.len() - i,
    {
        if text::lower(v[i - 1]) == 'o' && text::lower(v[i]) == 'u' {
            assert(ou_at(v@, i - 1));
            return Some(i - 1);
        }
        assert(!ou_at(v@, i - 1));
        i += 1;
    }
    None
}

fn find_vowel(v: &Vec<char>) -> (r: Option<usize>)
    ensures
        match r {
            Some(i) => last_vowel(v@, i as int),
            None => forall|i: int| !last_vowel(v@, i),
        },
{
    let mut i: usize = v.len();
    while i > 0
        invariant
            i <= v@.len(),
            forall|j: int| i <= j < v@.len() ==> !is_vowel(#[trigger] v@[j]),
        decreases i,
    {
        i -= 1;
        let l = text::lower(v[i]);
        if l == 'a' || l == 'e' || l == 'i' || l == 'o' || l == 'u' || l == 'ü' || l == 'v' {
            return Some(i);
        }
    }
    None
}

fn find_mark_place(v: &Vec<char>) -> (r: usize)
    ensures
        r == mark_place(v@),
        v@.len() > 0 ==> r < v@.len(),
{
    match find_letter(v, 'a') {
        Some(i) => {
            let ghost k = choose|k: int| first_letter(v@, 'a', k);
            assert(first_letter(v@, 'a', k) && k == i);
            return i;
        },
        None => {},
    }
    match find_letter(v, 'e') {
        Some(i) => {
            let ghost k = choose|k: int| first_letter(v@, 'e', k);
            assert(first_letter(v@, 'e', k) && k == i);
            return i;
        },
        None => {},
    }
    match find_ou(v) {
        Some(i) => {
            let ghost k = choose|k: int| first_ou(v@, k);
            assert(first_ou(v@, k));
            assert(k == i) by {
                if k < i {
                    assert(ou_at(v@, k));
                } else if i < k {
                    assert(ou_at(v@, i as int));
                }
            }
            return i;
        },
        None => {},
    }
    match find_vowel(v) {
        Some(i) => {
            let ghost k = choose|k: int| last_vowel(v@, k);
            assert(last_vowel(v@, k) && k == i);
            return i;
        },
        None => {},
    }
    0
}

/// A text keeps something besides its digits unless it is all digits.
proof fn lemma_without_digits(s: Seq<char>)
    ensures
        without_digits(s).len() <= s.len(),
        without_digits(s).len() == 0 <==> text::all_digits(s),
    decreases s.len(),
{
    if s.len() > 0 {
        lemma_without_digits(s.drop_last());
        if text::is_digit(s.last()) {
            if text::all_digits(s.drop_last()) {
                assert forall|i: int| 0 <= i < s.len() implies text::is_digit(#[trigger] s[i]) by {
                    if i < s.len() - 1 {
                        assert(s.drop_last()[i] == s[i]);
                    }
                }
            } else {
                let i = choose|i: int|
                    0 <= i < s.drop_last().len() && !text::is_digit(#[trigger] s.drop_last()[i]);
                assert(s[i] == s.drop_last()[i]);
            }
        } else {
            assert(!text::is_digit(s[s.len() - 1]));
        }
    }
}

fn strip_digits(v: &Vec<char>) -> (r: Vec<char>)
    ensures
        r@ == without_digits(v@),
{
    let mut r: Vec<char> = Vec::new();
    let mut i: usize = 0;
    assert(without_digits(v@.take(0)) =~= Seq::<char>::empty());
    while i < v.len()
        invariant
            i <= v@.len(),
            r@ == without_digits(v@.take(i as int)),
        decreases v@.len() - i,
    {
        assert(v@.take(i + 1).drop_last() =~= v@.take(i as int));
        if !text::digit(v[i]) {
            r.push(v[i]);
        }
        i += 1;
    }
    assert(v@.take(i as int) =~= v@);
    r
}

fn syllable_display(syl: &Vec<char>) -> (r: String)
    requires
        !bare_tone(syl@),
    ensures
        r@ == syllable(syl@),
{
    let tone: u8 = if syl.len() > 0 && text::digit(syl[syl.len() - 1]) {
        (syl[syl.len() - 1] as u8) - 48
    } else {
        0
    };
    let mut base = strip_digits(syl);
    if tone == 0 || tone > 4 {
        return text::text_of(&base);
    }
    proof {
        lemma_without_digits(syl@);
    }
    let place = find_mark_place(&base);
    let c = mark(base[place], tone);
    base.set(place, c);
    text::text_of(&base)
}

fn only_letters(v: &Vec<char>) -> (r: bool)
    ensures
        r == all_letters(v@),
{
    let mut i: usize = 0;
    while i < v.len()
        invariant
            i <= v@.len(),
            forall|k: int| 0 <= k < i ==> text::is_letter(#[trigger] v@[k]),
        decreases v@.len() - i,
    {
        if !text::letter(v[i]) {
            assert(!text::is_letter(v@[i as int]));
            return false;
        }
        i += 1;
    }
    true
}

fn word_display(w: &str) -> (r: String)
    requires
        !bare_tone(w@),
    ensures
        r@ == marked_word(w@),
{
    let v = text::chars_of(w);
    if only_letters(&v) {
        return text::copy(w);
    }
    let mut u: Vec<char> = Vec::new();
    let mut i: usize = 0;
    while i < v.len()
        invariant
            i <= v@.len(),
            u@ == with_umlauts(v@).take(i as int),
        decreases v@.len() - i,
    {
        let c: char = if v[i] == 'v' {
            'ü'
        } else {
            v[i]
        };
        assert(with_umlauts(v@).take(i + 1) =~= with_umlauts(v@).take(i as int).push(c));
        u.push(c);
        i += 1;
    }
    assert(with_umlauts(v@).take(i as int) =~= with_umlauts(v@));
    proof {
        if bare_tone(u@) {
            assert forall|k: int| 0 <= k < w@.len() implies text::is_digit(#[trigger] w@[k]) by {
                assert(text::is_digit(u@[k]));
            }
            assert(u@.last() == w@.last());
        }
    }
    syllable_display(&u)
}

/// Whether [`pinyin_display`] takes `numeric`: no word of it is a tone alone.
pub fn can_display(numeric: &str) -> (r: bool)
    ensures
        r == markable(numeric@),
{
    let ws = text::words_of(numeric);
    let mut i: usize = 0;
    while i < ws.len()
        invariant
            i <= ws@.len(),
            ws.deep_view() == text::words(numeric@),
            forall|k: int| 0 <= k < i ==> !bare_tone(#[trigger] text::words(numeric@)[k]),
        decreases ws@.len() - i,
    {
        let v = text::chars_of(&ws[i]);
        assert(v@ == text::words(numeric@)[i as int]);
        if v.len() > 0 && '1' <= v[v.len() - 1] && v[v.len() - 1] <= '4' {
            let base = strip_digits(&v);
            proof {
                lemma_without_digits(v@);
            }
            if base.len() == 0 {
                assert(bare_tone(text::words(numeric@)[i as int]));
                return false;
            }
        }
        i += 1;
    }
    true
}

/// Numbered pinyin with tone marks: `fei1 chang2` becomes `fēi cháng`, and `v`
/// stands for `ü`. Words of letters alone stay as they are.
pub fn pinyin_display(numeric: &str) -> (r: String)
    requires
        markable(numeric@),
    ensures
        r@ == marked_pinyin(numeric@),
{
    let ws = text::words_of(numeric);
    let ghost want = text::words(numeric@).map_values(|w: Seq<char>| marked_word(w));
    let mut out: Vec<String> = Vec::new();
    let mut i: usize = 0;
    while i < ws.len()
        invariant
            i <= ws@.len(),
            markable(numeric@),
            ws.deep_view() == text::words(numeric@),
            want == text::words(numeric@).map_values(|w: Seq<char>| marked_word(w)),
            out.deep_view() == want.take(i as int),
        decreases ws@.len() - i,
    {
        let ghost before = out.deep_view();
        assert(ws@[i as int]@ == text::words(numeric@)[i as int]);
        out.push(word_display(&ws[i]));
        assert(out.deep_view() =~= before.push(want[i as int]));
        assert(want.take(i + 1) =~= want.take(i as int).push(want[i as int]));
        i += 1;
    }
    assert(want.take(i as int) =~= want);
    text::join_all(&out, " ")
}

// Lines

/// Whether a word is a pinyin syllable: letters and then one digit.
pub open spec fn is_syllable(w: Seq<char>) -> bool {
    w.len() > 0 && text::is_digit(w.last()) && all_letters(w.drop_last())
}

/// How many words at the front are syllables.
pub open spec fn leading_syllables(ws: Seq<Seq<char>>) -> nat
    decreases ws.len(),
{
    if ws.len() > 0 && is_syllable(ws[0]) {
        1 + leading_syllables(ws.skip(1))
    } else {
        0
    }
}

/// `s` without square brackets.
pub open spec fn without_brackets(s: Seq<char>) -> Seq<char>
    decreases s.len(),
{
    if s.len() == 0 {
        s
    } else if s.last() == '[' || s.last() == ']' {
        without_brackets(s.drop_last())
    } else {
        without_brackets(s.drop_last()).push(s.last())
    }
}

/// The simplified form, the traditional form, the numbered pinyin and the
/// glosses of a line: two words, at least one syllable, and at least one more
/// word that is none. Comments and blank lines have none.
pub open spec fn line_entry(line: Seq<char>) -> Option<
    (Seq<char>, Seq<char>, Seq<char>, Seq<Seq<char>>),
> {
    let t = text::trim(line);
    let ws = text::words(without_brackets(t));
    if t.len() == 0 || t[0] == '#' || ws.len() < 2 {
        None
    } else {
        let rest = ws.skip(2);
        let k = leading_syllables(rest) as int;
        if k == 0 || k == rest.len() {
            None
        } else {
            Some(
                (
                    ws[1],
                    ws[0],
                    text::join(rest.take(k), " "@),
                    text::fields(text::join(rest.skip(k), " "@), Sep::One('/')),
                ),
            )
        }
    }
}

fn syllable_token(t: &str) -> (r: bool)
    ensures
        r == is_syllable(t@),
{
    let v = text::chars_of(t);
    if v.len() == 0 || !text::digit(v[v.len() - 1]) {
        return false;
    }
    let mut i: usize = 0;
    while i < v.len() - 1
        invariant
            v@.len() > 0,
            i <= v@.len() - 1,
            v@ == t@,
            forall|k: int| 0 <= k < i ==> text::is_letter(#[trigger] v@[k]),
        decreases v@.len() - i,
    {
        if !text::letter(v[i]) {
            assert(t@.drop_last()[i as int] == v@[i as int]);
            return false;
        }
        i += 1;
    }
    assert forall|k: int| 0 <= k < t@.drop_last().len() implies text::is_letter(
        #[trigger] t@.drop_last()[k],
    ) by {
        assert(t@.drop_last()[k] == v@[k]);
    }
    true
}

fn strip_brackets(s: &str) -> (r: String)
    ensures
        r@ == without_brackets(s@),
{
    let v = text::chars_of(s);
    let mut r = String::new();
    let mut i: usize = 0;
    assert(without_brackets(v@.take(0)) =~= Seq::<char>::empty());
    while i < v.len()
        invariant
            i <= v@.len(),
            r@ == without_brackets(v@.take(i as int)),
        decreases v@.len() - i,
    {
        assert(v@.take(i + 1).drop_last() =~= v@.take(i as int));
        if v[i] != '[' && v[i] != ']' {
            r.push(v[i]);
        }
        i += 1;
    }
    assert(v@.take(i as int) =~= v@);
    r
}

/// There are no more syllables at the front than words.
proof fn lemma_leading_syllables(ws: Seq<Seq<char>>)
    ensures
        leading_syllables(ws) <= ws.len(),
    decreases ws.len(),
{
    if ws.len() > 0 && is_syllable(ws[0]) {
        lemma_leading_syllables(ws.skip(1));
    }
}

/// The simplified form, the traditional form, the numbered pinyin and the
/// glosses of a line such as `你好 你好 [ni3 hao3] /hello/hi/`. Brackets and
/// the slashes at either end may be missing.
pub fn parse_line(line: &str) -> (r: Option<(String, String, String, Vec<String>)>)
    ensures
        r.deep_view() == line_entry(line@),
{
    let t = text::trimmed(line);
    if text::empty(&t) {
        return None;
    }
    let first = text::chars_of(&t)[0];
    if first == '#' {
        return None;
    }
    let ws = text::words_of(&strip_brackets(&t));
    if ws.len() < 2 {
        return None;
    }
    let ghost rest = ws.deep_view().skip(2);
    let mut k: usize = 2;
    assert(rest.skip(0) =~= rest);
    while k < ws.len() && syllable_token(&ws[k])
        invariant
            2 <= k <= ws@.len(),
            rest == ws.deep_view().skip(2),
            leading_syllables(rest) == (k - 2) + leading_syllables(rest.skip(k - 2)),
        decreases ws@.len() - k,
    {
        assert(rest.skip(k - 2)[0] == ws.deep_view()[k as int]);
        assert(rest.skip(k - 2).skip(1) =~= rest.skip(k - 1));
        k += 1;
    }
    if k < ws.len() {
        assert(rest.skip(k - 2)[0] == ws.deep_view()[k as int]);
    }
    assert(leading_syllables(rest) == k - 2);
    if k == 2 || k == ws.len() {
        return None;
    }
    let pinyin = text::join_range(&ws, 2, k, " ");
    assert(ws.deep_view().subrange(2, k as int) =~= rest.take(k - 2));
    let tail = text::join_range(&ws, k, ws.len(), " ");
    assert(ws.deep_view().subrange(k as int, ws@.len() as int) =~= rest.skip(k - 2));
    let glosses = text::fields_of(&tail, Sep::One('/'));
    Some((text::copy(&ws[1]), text::copy(&ws[0]), pinyin, glosses))
}

/// The glosses of a parsed line are trimmed and not empty, its pinyin is a
/// non-empty run of syllables, and both forms are words.
pub proof fn law_parsed_line(line: Seq<char>)
    requires
        line_entry(line) is Some,
    ensures
        ({
            let (simp, trad, pinyin, glosses) = line_entry(line)->0;
            &&& simp.len() > 0
            &&& trad.len() > 0
            &&& text::words(pinyin).len() > 0
            &&& forall|i: int|
                0 <= i < text::words(pinyin).len() ==> is_syllable(#[trigger] text::words(pinyin)[i])
            &&& forall|i: int|
                0 <= i < glosses.len() ==> (#[trigger] glosses[i]).len() > 0 && text::is_trimmed(
                    glosses[i],
                )
        }),
{
    let ws = text::words(without_brackets(text::trim(line)));
    text::lemma_words(without_brackets(text::trim(line)));
    let rest = ws.skip(2);
    lemma_leading_syllables(rest);
    let k = leading_syllables(rest) as int;
    let run = rest.take(k);
    lemma_leading_are_syllables(rest);
    reveal_strlit(" ");
    assert(" "@ =~= seq![' ']);
    assert forall|i: int, j: int| 0 <= i < run.len() && 0 <= j < run[i].len() implies !text::is_white(
        #[trigger] run[i][j],
    ) by {
        assert(run[i][j] == ws[i + 2][j]);
    }
    assert forall|i: int| 0 <= i < run.len() implies (#[trigger] run[i]).len() > 0 by {
        assert(run[i] == ws[i + 2]);
    }
    text::lemma_words_of_join(run);
    text::lemma_fields(text::join(rest.skip(k), " "@), Sep::One('/'));
}

proof fn lemma_leading_are_syllables(ws: Seq<Seq<char>>)
    ensures
        forall|i: int| 0 <= i < leading_syllables(ws) ==> is_syllable(#[trigger] ws[i]),
    decreases ws.len(),
{
    if ws.len() > 0 && is_syllable(ws[0]) {
        lemma_leading_are_syllables(ws.skip(1));
        lemma_leading_syllables(ws.skip(1));
        assert forall|i: int| 0 <= i < leading_syllables(ws) implies is_syllable(#[trigger] ws[i]) by {
            if i > 0 {
                assert(ws.skip(1)[i - 1] == ws[i]);
            }
        }
    }
}

// Storage

/// A list of texts as a JSON array of strings.
pub open spec fn list_text(l: Seq<Seq<char>>) -> Seq<char> {
    json::array(json::quoted_each(l))
}

/// The list that `serde_json::from_str` reads from a text, if it reads one.
pub uninterp spec fn text_list(s: Seq<char>) -> Option<Seq<Seq<char>>>;

/// `serde_json::to_string` on a list of texts: a JSON array of strings without
/// white space between them. Writing to a string never fails.
#[verifier::external_body]
fn write_list(l: &Vec<String>) -> (r: String)
    ensures
        r@ == list_text(l.deep_view()),
{
    serde_json::to_string(l).unwrap()
}

/// `serde_json::from_str` to a list of texts, with `None` for any error. What
/// is read depends on the text alone, and a JSON array of strings is read back
/// as the list that was written.
#[verifier::external_body]
fn read_list(s: &str) -> (r: Option<Vec<String>>)
    ensures
        r.deep_view() == text_list(s@),
        forall|l: Seq<Seq<char>>| s@ == #[trigger] list_text(l) ==> r.deep_view() == Some(l),
{
    serde_json::from_str::<Vec<String>>(s).ok()
}

/// What is stored of a line. The glosses are stored as one text.
#[derive(Debug, Clone, PartialEq)]
pub struct CedictRow {
    pub simplified: String,
    pub traditional: String,
    pub pinyin: String,
    pub glosses: String,
}

/// What a [`CedictRow`] says.
#[verifier::ext_equal]
pub struct CedictRowModel {
    pub simplified: Seq<char>,
    pub traditional: Seq<char>,
    pub pinyin: Seq<char>,
    pub glosses: Seq<char>,
}

impl DeepView for CedictRow {
    type V = CedictRowModel;

    open spec fn deep_view(&self) -> CedictRowModel {
        CedictRowModel {
            simplified: self.simplified@,
            traditional: self.traditional@,
            pinyin: self.pinyin@,
            glosses: self.glosses@,
        }
    }
}

/// What is stored of a list of lines, in order.
pub open spec fn stored_lines(lines: Seq<Seq<char>>) -> Seq<CedictRowModel>
    decreases lines.len(),
{
    if lines.len() == 0 {
        Seq::empty()
    } else {
        let before = stored_lines(lines.drop_last());
        match line_entry(lines.last()) {
            Some((simplified, traditional, pinyin, glosses)) => before.push(
                CedictRowModel { simplified, traditional, pinyin, glosses: list_text(glosses) },
            ),
            None => before,
        }
    }
}

/// Why an import fails that finds nothing to store.
pub open spec fn nothing_parsed() -> Seq<char> {
    "no cedict entries parsed"@
}

/// What is stored of a list of lines; an error where not one of them is an entry.
pub fn import_lines(lines: &Vec<String>) -> (r: Result<Vec<CedictRow>, String>)
    ensures
        match r {
            Ok(rows) => rows.deep_view() == stored_lines(lines.deep_view()) && rows@.len() > 0,
            Err(why) => stored_lines(lines.deep_view()).len() == 0 && why@ == nothing_parsed(),
        },
{
    let mut rows: Vec<CedictRow> = Vec::new();
    let mut i: usize = 0;
    assert(rows.deep_view() =~= stored_lines(lines.deep_view().take(0)));
    while i < lines.len()
        invariant
            i <= lines@.len(),
            rows.deep_view() == stored_lines(lines.deep_view().take(i as int)),
        decreases lines@.len() - i,
    {
        assert(lines.deep_view().take(i + 1).drop_last() =~= lines.deep_view().take(i as int));
        let ghost before = rows.deep_view();
        match parse_line(&lines[i]) {
            Some((simplified, traditional, pinyin, glosses)) => {
                let row = CedictRow {
                    simplified,
                    traditional,
                    pinyin,
                    glosses: write_list(&glosses),
                };
                let ghost m = row.deep_view();
                rows.push(row);
                assert(rows.deep_view() =~= before.push(m));
            },
            None => {},
        }
        i += 1;
    }
    assert(lines.deep_view().take(i as int) =~= lines.deep_view());
    assert(rows.deep_view().len() == rows@.len());
    if rows.len() == 0 {
        Err(text::copy("no cedict entries parsed"))
    } else {
        Ok(rows)
    }
}

/// The card of a word with the given pinyin and glosses.
pub open spec fn chinese_card(
    word: Seq<char>,
    pinyin: Seq<char>,
    glosses: Seq<Seq<char>>,
) -> CardModel {
    CardModel {
        found: true,
        word,
        phonetic: Some(PhoneticModel { uk: Some(marked_pinyin(pinyin)), us: None }),
        pos: seq![PosModel { pos: Seq::empty(), gloss: glosses }],
        definition: Seq::empty(),
        exchange: None,
        collins: None,
        oxford: false,
        tags: Seq::empty(),
        source: "cedict"@,
        suggestions: Seq::empty(),
    }
}

/// The glosses that a stored text holds, none where it cannot be read.
pub open spec fn stored_glosses(s: Seq<char>) -> Seq<Seq<char>> {
    match text_list(s) {
        Some(l) => l,
        None => Seq::empty(),
    }
}

/// The card of a word with the given pinyin and glosses.
pub fn glossed_card(word: &str, pinyin: &str, gloss: Vec<String>) -> (r: WordCard)
    requires
        markable(pinyin@),
    ensures
        r.deep_view() == chinese_card(word@, pinyin@, gloss.deep_view()),
{
    let none: Vec<String> = Vec::new();
    assert(none.deep_view() =~= Seq::<Seq<char>>::empty());
    let definition: Vec<String> = Vec::new();
    assert(definition.deep_view() =~= Seq::<Seq<char>>::empty());
    let suggestions: Vec<String> = Vec::new();
    assert(suggestions.deep_view() =~= Seq::<Seq<char>>::empty());
    let ghost glosses = gloss.deep_view();
    let mut pos: Vec<PosGloss> = Vec::new();
    pos.push(PosGloss { pos: text::copy(""), gloss });
    proof {
        reveal_strlit("");
        assert(""@ =~= Seq::<char>::empty());
        assert(pos.deep_view() =~= seq![PosModel { pos: Seq::empty(), gloss: glosses }]);
    }
    WordCard {
        found: true,
        word: text::copy(word),
        phonetic: Some(Phonetic { uk: Some(pinyin_display(pinyin)), us: None }),
        pos,
        definition,
        exchange: None,
        collins: None,
        oxford: false,
        tags: none,
        source: text::copy("cedict"),
        suggestions,
    }
}

/// The card of a word with the stored pinyin and glosses. Glosses that
/// [`import_lines`] stored are the glosses of the card.
pub fn card_from_row(word: &str, pinyin: &str, glosses: &str) -> (r: WordCard)
    requires
        markable(pinyin@),
    ensures
        r.deep_view() == chinese_card(word@, pinyin@, stored_glosses(glosses@)),
        forall|l: Seq<Seq<char>>|
            glosses@ == #[trigger] list_text(l) ==> r.deep_view() == chinese_card(
                word@,
                pinyin@,
                l,
            ),
{
    let gloss: Vec<String> = match read_list(glosses) {
        Some(l) => l,
        None => Vec::new(),
    };
    assert(gloss.deep_view() =~= stored_glosses(glosses@));
    glossed_card(word, pinyin, gloss)
}

// Laws on tone marks

/// The first tone of a vowel is written with a macron, the second with an acute
/// accent, the third with a caron and the fourth with a grave accent, whatever
/// the vowel: by their code points, as Unicode has them. Other characters take
/// no mark.
pub proof fn law_marks_by_code_point(c: char, tone: int)
    ensures
        c == 'a' ==> marked(c, 1) as int == 0x101 && marked(c, 2) as int == 0xE1 && marked(c, 3) as int
            == 0x1CE && marked(c, 4) as int == 0xE0,
        c == 'e' ==> marked(c, 1) as int == 0x113 && marked(c, 2) as int == 0xE9 && marked(c, 3) as int
            == 0x11B && marked(c, 4) as int == 0xE8,
        c == 'i' ==> marked(c, 1) as int == 0x12B && marked(c, 2) as int == 0xED && marked(c, 3) as int
            == 0x1D0 && marked(c, 4) as int == 0xEC,
        c == 'o' ==> marked(c, 1) as int == 0x14D && marked(c, 2) as int == 0xF3 && marked(c, 3) as int
            == 0x1D2 && marked(c, 4) as int == 0xF2,
        c == 'u' ==> marked(c, 1) as int == 0x16B && marked(c, 2) as int == 0xFA && marked(c, 3) as int
            == 0x1D4 && marked(c, 4) as int == 0xF9,
        c == 'ü' ==> marked(c, 1) as int == 0x1D6 && marked(c, 2) as int == 0x1D8 && marked(c, 3) as int
            == 0x1DA && marked(c, 4) as int == 0x1DC,
        c == 'A' ==> marked(c, 1) as int == 0x100 && marked(c, 2) as int == 0xC1 && marked(c, 3) as int
            == 0x1CD && marked(c, 4) as int == 0xC0,
        c == 'E' ==> marked(c, 1) as int == 0x112 && marked(c, 2) as int == 0xC9 && marked(c, 3) as int
            == 0x11A && marked(c, 4) as int == 0xC8,
        c == 'I' ==> marked(c, 1) as int == 0x12A && marked(c, 2) as int == 0xCD && marked(c, 3) as int
            == 0x1CF && marked(c, 4) as int == 0xCC,
        c == 'O' ==> marked(c, 1) as int == 0x14C && marked(c, 2) as int == 0xD3 && marked(c, 3) as int
            == 0x1D1 && marked(c, 4) as int == 0xD2,
        c == 'U' ==> marked(c, 1) as int == 0x16A && marked(c, 2) as int == 0xDA && marked(c, 3) as int
            == 0x1D3 && marked(c, 4) as int == 0xD9,
        !(c == 'a' || c == 'e' || c == 'i' || c == 'o' || c == 'u' || c == 'ü' || c == 'A' || c == 'E'
            || c == 'I' || c == 'O' || c == 'U') ==> marked(c, tone) == c,
{
}

proof fn lemma_no_digits(s: Seq<char>)
    requires
        forall|i: int| 0 <= i < s.len() ==> !text::is_digit(#[trigger] s[i]),
    ensures
        without_digits(s) == s,
    decreases s.len(),
{
    if s.len() > 0 {
        assert forall|i: int| 0 <= i < s.drop_last().len() implies !text::is_digit(
            #[trigger] s.drop_last()[i],
        ) by {
            assert(s.drop_last()[i] == s[i]);
        }
        lemma_no_digits(s.drop_last());
        assert(!text::is_digit(s[s.len() - 1]));
        assert(s.drop_last().push(s.last()) =~= s);
    }
}

/// Whether `s` is made of ASCII letters but `v` and `V`, and of `ü`.
pub open spec fn spelled(s: Seq<char>) -> bool {
    forall|i: int|
        0 <= i < s.len() ==> ((('a' <= #[trigger] s[i] <= 'z') || ('A' <= s[i] <= 'Z')) && s[i]
            != 'v' && s[i] != 'V') || s[i] == 'ü'
}

proof fn lemma_numbered(s: Seq<char>, d: char)
    requires
        spelled(s),
        '0' <= d <= '9',
    ensures
        marked_word(s.push(d)) == syllable(s.push(d)),
        without_digits(s.push(d)) == s,
        tone_of(s.push(d)) == d as int - 48,
{
    let w = s.push(d);
    assert(!text::is_letter(w[s.len() as int]));
    assert(with_umlauts(w) =~= w);
    assert(w.drop_last() =~= s);
    assert forall|i: int| 0 <= i < s.len() implies !text::is_digit(#[trigger] s[i]) by {}
    lemma_no_digits(s);
}

/// Where the mark of a syllable stands, and that nothing else changes: on the
/// first `a`; without an `a`, on the first `e`; without either, on the `o` of the
/// first `ou`; and without that, on the last vowel.
pub proof fn law_mark_placement(s: Seq<char>, k: int, d: char)
    requires
        spelled(s),
        '1' <= d <= '4',
        0 <= k < s.len(),
        ({
            let a = |i: int| s[i] == 'a' || s[i] == 'A';
            let e = |i: int| s[i] == 'e' || s[i] == 'E';
            let o = |i: int| s[i] == 'o' || s[i] == 'O';
            let u = |i: int| s[i] == 'u' || s[i] == 'U';
            let i_or_umlaut = |i: int| s[i] == 'i' || s[i] == 'I' || s[i] == 'ü';
            let no_a = forall|i: int| 0 <= i < s.len() ==> !#[trigger] a(i);
            let no_e = forall|i: int| 0 <= i < s.len() ==> !#[trigger] e(i);
            let no_ou = forall|i: int| 0 <= i < s.len() - 1 ==> !(#[trigger] o(i) && u(i + 1));
            ||| a(k) && forall|i: int| 0 <= i < k ==> !#[trigger] a(i)
            ||| no_a && e(k) && forall|i: int| 0 <= i < k ==> !#[trigger] e(i)
            ||| no_a && no_e && k + 1 < s.len() && o(k) && u(k + 1) && forall|i: int|
                0 <= i < k ==> !(#[trigger] o(i) && u(i + 1))
            ||| no_a && no_e && no_ou && (o(k) || u(k) || i_or_umlaut(k)) && forall|i: int|
                k < i < s.len() ==> !(#[trigger] o(i)) && !u(i) && !i_or_umlaut(i)
        }),
    ensures
        marked_word(s.push(d)) == s.update(k, marked(s[k], d as int - 48)),
{
    lemma_numbered(s, d);
    let a = |i: int| s[i] == 'a' || s[i] == 'A';
    let e = |i: int| s[i] == 'e' || s[i] == 'E';
    let o = |i: int| s[i] == 'o' || s[i] == 'O';
    let u = |i: int| s[i] == 'u' || s[i] == 'U';
    let i_or_umlaut = |i: int| s[i] == 'i' || s[i] == 'I' || s[i] == 'ü';
    assert forall|i: int| 0 <= i < s.len() implies (text::ascii_lower(#[trigger] s[i]) == 'a' <==> a(
        i,
    )) && (text::ascii_lower(s[i]) == 'e' <==> e(i)) && (text::ascii_lower(s[i]) == 'o' <==> o(i))
        && (text::ascii_lower(s[i]) == 'u' <==> u(i)) && (is_vowel(s[i]) <==> a(i) || e(i) || o(i)
        || u(i) || i_or_umlaut(i)) by {
        lemma_lower(s[i]);
    }
    if exists|i: int| first_letter(s, 'a', i) {
        let i = choose|i: int| first_letter(s, 'a', i);
        assert(first_letter(s, 'a', i));
        assert(a(i));
        assert(a(k));
        assert(text::ascii_lower(s[k]) == 'a');
    } else {
        assert(!a(k)) by {
            if a(k) && forall|i: int| 0 <= i < k ==> !#[trigger] a(i) {
                assert forall|j: int| 0 <= j < k implies text::ascii_lower(#[trigger] s[j]) != 'a' by {
                    assert(!a(j));
                }
                assert(first_letter(s, 'a', k));
            } else if a(k) {
                assert(false);
            }
        }
        if exists|i: int| first_letter(s, 'e', i) {
            let i = choose|i: int| first_letter(s, 'e', i);
            assert(first_letter(s, 'e', i));
            assert(e(i));
            assert(e(k));
            assert(text::ascii_lower(s[k]) == 'e');
        } else {
            assert(!e(k)) by {
                if e(k) && forall|i: int| 0 <= i < k ==> !#[trigger] e(i) {
                    assert forall|j: int| 0 <= j < k implies text::ascii_lower(#[trigger] s[j])
                        != 'e' by {
                        assert(!e(j));
                    }
                    assert(first_letter(s, 'e', k));
                } else if e(k) {
                    assert(false);
                }
            }
            assert forall|j: int| 0 <= j < s.len() - 1 implies (#[trigger] ou_at(s, j) <==> o(j)
                && u(j + 1)) by {
                assert(text::ascii_lower(s[j]) == 'o' <==> o(j));
                assert(text::ascii_lower(s[j + 1]) == 'u' <==> u(j + 1));
            }
            if exists|i: int| first_ou(s, i) {
                let i = choose|i: int| first_ou(s, i);
                assert(first_ou(s, i));
                assert(ou_at(s, i));
                assert(o(i) && u(i + 1));
                assert(ou_at(s, k) <==> (k + 1 < s.len() && o(k) && u(k + 1)));
                if i < k {
                    assert(o(i) && u(i + 1));
                }
            } else {
                if k + 1 < s.len() && o(k) && u(k + 1) {
                    assert(ou_at(s, k));
                    lemma_first_ou(s, k);
                }
                assert(last_vowel(s, k)) by {
                    assert(is_vowel(s[k]));
                    assert forall|j: int| k < j < s.len() implies !is_vowel(#[trigger] s[j]) by {
                        assert(!o(j) && !u(j) && !i_or_umlaut(j));
                        assert(!a(j) && !e(j));
                    }
                }
                let i = choose|i: int| last_vowel(s, i);
                assert(last_vowel(s, i));
                assert(i == k);
            }
        }
    }
}

proof fn lemma_lower(c: char)
    ensures
        text::ascii_lower(c) == 'a' <==> c == 'a' || c == 'A',
        text::ascii_lower(c) == 'e' <==> c == 'e' || c == 'E',
        text::ascii_lower(c) == 'i' <==> c == 'i' || c == 'I',
        text::ascii_lower(c) == 'o' <==> c == 'o' || c == 'O',
        text::ascii_lower(c) == 'u' <==> c == 'u' || c == 'U',
        text::ascii_lower(c) == 'v' <==> c == 'v' || c == 'V',
        text::ascii_lower(c) == 'ü' <==> c == 'ü',
{
}

proof fn lemma_first_ou(s: Seq<char>, k: int)
    requires
        ou_at(s, k),
    ensures
        exists|i: int| first_ou(s, i),
    decreases k,
{
    if forall|j: int| 0 <= j < k ==> !#[trigger] ou_at(s, j) {
        assert(first_ou(s, k));
    } else {
        let j = choose|j: int| 0 <= j < k && #[trigger] ou_at(s, j);
        lemma_first_ou(s, j);
    }
}

/// A syllable of the neutral tone loses its number and takes no mark; a word of
/// letters alone stays as it is; and a `v` in a numbered syllable stands for `ü`.
pub proof fn law_unmarked_words(s: Seq<char>, d: char, a: Seq<char>, b: Seq<char>)
    ensures
        spelled(s) && (d == '0' || '5' <= d <= '9') ==> marked_word(s.push(d)) == s,
        (forall|i: int|
            0 <= i < s.len() ==> ('a' <= #[trigger] s[i] <= 'z') || ('A' <= s[i] <= 'Z'))
            ==> marked_word(s) == s,
        '0' <= d <= '9' ==> marked_word(a + seq!['v'] + b + seq![d]) == marked_word(
            a + seq!['ü'] + b + seq![d],
        ),
{
    if spelled(s) && (d == '0' || '5' <= d <= '9') {
        lemma_numbered(s, d);
    }
    if '0' <= d <= '9' {
        let x = a + seq!['v'] + b + seq![d];
        let y = a + seq!['ü'] + b + seq![d];
        let n = (a.len() + 1 + b.len()) as int;
        assert(x[n] == d && y[n] == d);
        assert(!text::is_letter(x[n]) && !text::is_letter(y[n]));
        assert(with_umlauts(x) =~= with_umlauts(y));
    }
}

proof fn lemma_join_cat(x: Seq<Seq<char>>, y: Seq<Seq<char>>, sep: Seq<char>)
    requires
        x.len() > 0,
        y.len() > 0,
    ensures
        text::join(x + y, sep) == text::join(x, sep) + sep + text::join(y, sep),
    decreases y.len(),
{
    reveal_with_fuel(text::join, 2);
    if y.len() == 1 {
        assert((x + y).drop_last() =~= x);
    } else {
        lemma_join_cat(x, y.drop_last(), sep);
        assert((x + y).drop_last() =~= x + y.drop_last());
        let m = text::join(y.drop_last(), sep);
        assert((text::join(x, sep) + sep + m) + sep + y.last() =~= text::join(x, sep) + sep + (m
            + sep + y.last()));
    }
}

/// Syllables are marked one by one, with a space between: a text of two parts is
/// marked part by part, and a single word is marked as a syllable.
pub proof fn law_syllables_one_by_one(a: Seq<char>, b: Seq<char>)
    ensures
        text::words(a).len() > 0 && text::words(b).len() > 0 ==> marked_pinyin(a.push(' ') + b)
            == marked_pinyin(a).push(' ') + marked_pinyin(b),
        a.len() > 0 && (forall|i: int| 0 <= i < a.len() ==> !text::is_white(#[trigger] a[i]))
            ==> marked_pinyin(a) == marked_word(a),
{
    reveal_strlit(" ");
    assert(" "@ =~= seq![' ']);
    let f = |w: Seq<char>| marked_word(w);
    if text::words(a).len() > 0 && text::words(b).len() > 0 {
        text::lemma_split_cat(a, ' ', b, Sep::White);
        text::lemma_nonempty_cat(text::split(a, Sep::White), text::split(b, Sep::White));
        let x = text::words(a).map_values(f);
        let y = text::words(b).map_values(f);
        assert((text::words(a) + text::words(b)).map_values(f) =~= x + y);
        lemma_join_cat(x, y, " "@);
        assert(text::join(x, " "@) + " "@ + text::join(y, " "@) =~= text::join(x, " "@).push(' ')
            + text::join(y, " "@));
    }
    if a.len() > 0 && (forall|i: int| 0 <= i < a.len() ==> !text::is_white(#[trigger] a[i])) {
        text::lemma_split_whole(a, Sep::White);
        text::lemma_nonempty_all(seq![a]);
        assert(text::words(a) == seq![a]);
        assert(seq![a].map_values(f) =~= seq![marked_word(a)]);
    }
}

// Laws on lines

proof fn lemma_brackets_cat(a: Seq<char>, b: Seq<char>)
    ensures
        without_brackets(a + b) == without_brackets(a) + without_brackets(b),
    decreases b.len(),
{
    if b.len() == 0 {
        assert(a + b =~= a);
        assert(without_brackets(a) + without_brackets(b) =~= without_brackets(a));
    } else {
        assert((a + b).drop_last() =~= a + b.drop_last());
        lemma_brackets_cat(a, b.drop_last());
        if b.last() != '[' && b.last() != ']' {
            assert((without_brackets(a) + without_brackets(b.drop_last())).push(b.last())
                =~= without_brackets(a) + without_brackets(b.drop_last()).push(b.last()));
        }
    }
}

proof fn lemma_no_brackets(s: Seq<char>)
    requires
        forall|i: int| 0 <= i < s.len() ==> #[trigger] s[i] != '[' && s[i] != ']',
    ensures
        without_brackets(s) == s,
    decreases s.len(),
{
    if s.len() > 0 {
        assert forall|i: int| 0 <= i < s.drop_last().len() implies #[trigger] s.drop_last()[i]
            != '[' && s.drop_last()[i] != ']' by {
            assert(s.drop_last()[i] == s[i]);
        }
        lemma_no_brackets(s.drop_last());
        assert(s[s.len() - 1] != '[');
        assert(s.drop_last().push(s.last()) =~= s);
    }
}

proof fn lemma_syllables_end(ws: Seq<Seq<char>>, rest: Seq<Seq<char>>)
    requires
        forall|i: int| 0 <= i < ws.len() ==> is_syllable(#[trigger] ws[i]),
        rest.len() > 0,
        !is_syllable(rest[0]),
    ensures
        leading_syllables(ws + rest) == ws.len(),
    decreases ws.len(),
{
    if ws.len() == 0 {
        assert(ws + rest =~= rest);
    } else {
        assert((ws + rest)[0] == ws[0]);
        assert((ws + rest).skip(1) =~= ws.skip(1) + rest);
        assert forall|i: int| 0 <= i < ws.skip(1).len() implies is_syllable(
            #[trigger] ws.skip(1)[i],
        ) by {
            assert(ws.skip(1)[i] == ws[i + 1]);
        }
        lemma_syllables_end(ws.skip(1), rest);
    }
}

/// Whether `s` is one word without brackets.
pub open spec fn one_word(s: Seq<char>) -> bool {
    &&& s.len() > 0
    &&& forall|i: int|
        0 <= i < s.len() ==> !text::is_white(#[trigger] s[i]) && s[i] != '[' && s[i] != ']'
}

proof fn lemma_word(s: Seq<char>)
    requires
        one_word(s),
    ensures
        text::words(s) == seq![s],
        without_brackets(s) == s,
{
    text::lemma_split_whole(s, Sep::White);
    text::lemma_nonempty_all(seq![s]);
    lemma_no_brackets(s);
}

proof fn lemma_words_cat(a: Seq<char>, b: Seq<char>)
    ensures
        text::words(a.push(' ') + b) == text::words(a) + text::words(b),
{
    text::lemma_split_cat(a, ' ', b, Sep::White);
    text::lemma_nonempty_cat(text::split(a, Sep::White), text::split(b, Sep::White));
}

proof fn lemma_slashes(glosses: Seq<Seq<char>>)
    requires
        glosses.len() > 0,
        forall|i: int|
            0 <= i < glosses.len() ==> (#[trigger] glosses[i]).len() > 0 && text::is_trimmed(
                glosses[i],
            ),
        forall|i: int, j: int|
            0 <= i < glosses.len() && 0 <= j < glosses[i].len() ==> #[trigger] glosses[i][j] != '/',
    ensures
        text::fields(
            seq!['/'] + text::join(glosses, seq!['/']) + seq!['/'],
            Sep::One('/'),
        ) == glosses,
{
    let sep = Sep::One('/');
    let none = Seq::<char>::empty();
    let j = text::join(glosses, seq!['/']);
    let t = seq!['/'] + j + seq!['/'];
    assert forall|i: int, k: int| 0 <= i < glosses.len() && 0 <= k < glosses[i].len() implies !sep.parts(
        #[trigger] glosses[i][k],
    ) by {}
    text::lemma_split_of_join(glosses, '/', sep);
    assert(t =~= none.push('/') + (j.push('/') + none));
    text::lemma_split_cat(none, '/', j.push('/') + none, sep);
    text::lemma_split_cat(j, '/', none, sep);
    assert(text::split(none, sep) =~= seq![none]);
    let parts = text::split(t, sep);
    assert(parts =~= seq![none] + (glosses + seq![none]));
    assert forall|i: int| 0 <= i < glosses.len() implies text::trim(#[trigger] glosses[i])
        == glosses[i] by {
        text::lemma_trim(glosses[i]);
    }
    text::lemma_trim(none);
    assert(text::trim_each(parts) =~= parts);
    text::lemma_nonempty_cat(seq![none], glosses + seq![none]);
    text::lemma_nonempty_cat(glosses, seq![none]);
    text::lemma_nonempty_all(glosses);
    reveal_with_fuel(text::nonempty, 2);
    assert(seq![none].drop_last() =~= Seq::<Seq<char>>::empty());
    assert(text::nonempty(seq![none]) =~= Seq::<Seq<char>>::empty());
    assert(Seq::<Seq<char>>::empty() + (glosses + Seq::<Seq<char>>::empty()) =~= glosses);
}

/// A line such as `繁體 简体 [pin1 yin1] /one/two/`: the first word is the
/// traditional form, the second the simplified one, what stands in brackets the
/// pinyin, and what stands between slashes the glosses. Glosses have single
/// spaces between their words.
pub proof fn law_line_reads(
    trad: Seq<char>,
    simp: Seq<char>,
    syllables: Seq<Seq<char>>,
    glosses: Seq<Seq<char>>,
)
    requires
        one_word(trad),
        one_word(simp),
        trad[0] != '#',
        syllables.len() > 0,
        forall|i: int| 0 <= i < syllables.len() ==> is_syllable(#[trigger] syllables[i]),
        glosses.len() > 0,
        forall|i: int|
            0 <= i < glosses.len() ==> (#[trigger] glosses[i]).len() > 0 && text::is_trimmed(
                glosses[i],
            ),
        forall|i: int, j: int|
            0 <= i < glosses.len() && 0 <= j < glosses[i].len() ==> #[trigger] glosses[i][j] != '/'
                && glosses[i][j] != '[' && glosses[i][j] != ']',
        text::join(
            text::words(seq!['/'] + text::join(glosses, seq!['/']) + seq!['/']),
            seq![' '],
        ) == seq!['/'] + text::join(glosses, seq!['/']) + seq!['/'],
    ensures
        line_entry(
            trad + seq![' '] + simp + seq![' ', '['] + text::join(syllables, seq![' ']) + seq![
                ']',
                ' ',
            ] + (seq!['/'] + text::join(glosses, seq!['/']) + seq!['/']),
        ) == Some((simp, trad, text::join(syllables, seq![' ']), glosses)),
{
    reveal_strlit(" ");
    assert(" "@ =~= seq![' ']);
    let p = text::join(syllables, seq![' ']);
    let t = seq!['/'] + text::join(glosses, seq!['/']) + seq!['/'];
    let line = trad + seq![' '] + simp + seq![' ', '['] + p + seq![']', ' '] + t;
    // The line is trimmed.
    assert(line[0] == trad[0]);
    assert(line.last() == '/');
    text::lemma_trim(line);
    // Its brackets.
    assert forall|i: int, j: int| 0 <= i < syllables.len() && 0 <= j < syllables[i].len() implies (
    #[trigger] syllables[i][j]) != '[' && syllables[i][j] != ']' && !text::is_white(
        syllables[i][j],
    ) by {
        assert(is_syllable(syllables[i]));
        if j < syllables[i].len() - 1 {
            assert(text::is_letter(syllables[i].drop_last()[j]));
        }
    }
    text::lemma_join_chars(syllables, ' ', |c: char| c == '[' || c == ']');
    text::lemma_join_chars(glosses, '/', |c: char| c == '[' || c == ']');
    let j = text::join(glosses, seq!['/']);
    assert forall|i: int| 0 <= i < t.len() implies #[trigger] t[i] != '[' && t[i] != ']' by {
        if 0 < i < t.len() - 1 {
            assert(t[i] == j[i - 1]);
        }
    }
    lemma_no_brackets(p);
    lemma_no_brackets(t);
    lemma_word(trad);
    lemma_word(simp);
    let open = seq![' ', '['];
    let close = seq![']', ' '];
    reveal_with_fuel(without_brackets, 3);
    assert(open.drop_last() =~= seq![' ']);
    assert(seq![' '].drop_last() =~= Seq::<char>::empty());
    assert(without_brackets(seq![' ']) =~= seq![' ']);
    assert(without_brackets(open) =~= seq![' ']);
    assert(close.drop_last() =~= seq![']']);
    assert(seq![']'].drop_last() =~= Seq::<char>::empty());
    assert(without_brackets(close) =~= seq![' ']);
    lemma_brackets_cat(trad, seq![' ']);
    lemma_brackets_cat(trad + seq![' '], simp);
    lemma_brackets_cat(trad + seq![' '] + simp, open);
    lemma_brackets_cat(trad + seq![' '] + simp + open, p);
    lemma_brackets_cat(trad + seq![' '] + simp + open + p, close);
    lemma_brackets_cat(trad + seq![' '] + simp + open + p + close, t);
    let bare = trad.push(' ') + (simp.push(' ') + (p.push(' ') + t));
    assert(without_brackets(line) =~= bare);
    // Its words.
    lemma_words_cat(p, t);
    lemma_words_cat(simp, p.push(' ') + t);
    lemma_words_cat(trad, simp.push(' ') + (p.push(' ') + t));
    assert forall|i: int| 0 <= i < syllables.len() implies (#[trigger] syllables[i]).len() > 0 by {
        assert(is_syllable(syllables[i]));
    }
    text::lemma_words_of_join(syllables);
    let wt = text::words(t);
    let ws = text::words(bare);
    assert(ws =~= seq![trad] + (seq![simp] + (syllables + wt)));
    let rest = ws.skip(2);
    assert(rest =~= syllables + wt);
    // The slashes begin what is no syllable.
    text::lemma_split_first(t, Sep::White);
    text::lemma_nonempty_first(text::split(t, Sep::White));
    assert(wt[0] == text::split(t, Sep::White)[0]);
    assert(wt[0][0] == t[0]);
    assert(!is_syllable(wt[0])) by {
        if is_syllable(wt[0]) {
            if wt[0].len() > 1 {
                assert(text::is_letter(wt[0].drop_last()[0]));
            }
        }
    }
    lemma_syllables_end(syllables, wt);
    assert(rest.take(syllables.len() as int) =~= syllables);
    assert(rest.skip(syllables.len() as int) =~= wt);
    lemma_slashes(glosses);
}

/// A comment, which begins with `#`, and a blank line are no entries; what is
/// stored of two lists of lines is what is stored of each, in order.
pub proof fn law_lines(line: Seq<char>, a: Seq<Seq<char>>, b: Seq<Seq<char>>)
    ensures
        line.len() > 0 && line[0] == '#' ==> line_entry(line) is None,
        text::trim(line).len() == 0 ==> line_entry(line) is None,
        stored_lines(a + b) == stored_lines(a) + stored_lines(b),
    decreases b.len(),
{
    if line.len() > 0 && line[0] == '#' {
        text::lemma_trim_start(line);
        text::lemma_trim_end(line);
        assert(text::trim_start(line) == line);
        assert(text::trim(line).len() > 0) by {
            if text::trim_end(line).len() == 0 {
                assert(text::is_white(line[0]));
            }
        }
        assert(text::trim(line)[0] == line[0]);
    }
    if b.len() == 0 {
        assert(a + b =~= a);
        assert(stored_lines(a) + stored_lines(b) =~= stored_lines(a));
    } else {
        assert((a + b).drop_last() =~= a + b.drop_last());
        law_lines(line, a, b.drop_last());
        assert(stored_lines(a + b) =~= stored_lines(a) + stored_lines(b));
    }
}

/// A line that is an entry is stored with its forms and its pinyin as they are,
/// and with its glosses as a JSON array of strings.
pub proof fn law_stored_line(line: Seq<char>)
    requires
        line_entry(line) is Some,
    ensures
        stored_lines(seq![line]).len() == 1,
        ({
            let row = stored_lines(seq![line])[0];
            let (simp, trad, pinyin, glosses) = line_entry(line)->0;
            &&& row.simplified == simp
            &&& row.traditional == trad
            &&& row.pinyin == pinyin
            &&& reading::read(row.glosses) == Some(Json::Array(reading::texts(glosses)))
        }),
{
    reveal_with_fuel(stored_lines, 2);
    assert(seq![line].drop_last() =~= Seq::<Seq<char>>::empty());
    let glosses = (line_entry(line)->0).3;
    reading::lemma_texts(glosses);
    reading::lemma_array(json::quoted_each(glosses), reading::texts(glosses));
    reading::lemma_reads(list_text(glosses), Json::Array(reading::texts(glosses)));
}

/// The card of a Chinese word: found, with the pinyin in tone marks as its only
/// pronunciation, all glosses in one group without a part of speech, and nothing
/// that English entries have.
pub proof fn law_chinese_card(word: Seq<char>, pinyin: Seq<char>, glosses: Seq<Seq<char>>)
    ensures
        ({
            let c = chinese_card(word, pinyin, glosses);
            &&& c.found && c.word == word && c.source == "cedict"@
            &&& c.phonetic is Some && c.phonetic->0.uk == Some(marked_pinyin(pinyin))
            &&& c.phonetic->0.us is None
            &&& c.pos.len() == 1 && c.pos[0].pos.len() == 0 && c.pos[0].gloss == glosses
            &&& c.definition.len() == 0 && c.tags.len() == 0 && c.suggestions.len() == 0
            &&& c.exchange is None && c.collins is None && !c.oxford
        }),
{
}

/// A marked capital is the capital of the marked letter, as Unicode places them:
/// one before it under a macron or a caron, thirty-two before it under an accent;
/// and a grave accent stands one before the acute one on the same letter.
pub proof fn law_marked_capitals(lower: char, upper: char)
    requires
        (lower == 'a' && upper == 'A') || (lower == 'e' && upper == 'E') || (lower == 'i' && upper
            == 'I') || (lower == 'o' && upper == 'O') || (lower == 'u' && upper == 'U'),
    ensures
        marked(upper, 1) as int + 1 == marked(lower, 1) as int,
        marked(upper, 2) as int + 32 == marked(lower, 2) as int,
        marked(upper, 3) as int + 1 == marked(lower, 3) as int,
        marked(upper, 4) as int + 32 == marked(lower, 4) as int,
        marked(lower, 4) as int + 1 == marked(lower, 2) as int,
        marked(upper, 4) as int + 1 == marked(upper, 2) as int,
{
}

/// A letter under a tone can be told from any other: the mark shows the tone, and
/// the letter shows through it.
pub proof fn law_marks_differ(c: char, d: char, t: int, u: int)
    requires
        1 <= t <= 4,
        1 <= u <= 4,
        marked(c, t) == marked(d, u),
        marked(c, t) != c,
        marked(d, u) != d,
    ensures
        c == d,
        t == u,
{
    law_marks_by_code_point(c, t);
    law_marks_by_code_point(d, u);
}

/// A syllable with a tone from one to four is displayed with the mark of its tone
/// over the one letter that carries it: for `u`, U+016B, U+00FA, U+01D4 and U+00F9.
pub proof fn law_displayed_u(numeric: &str, r: String, s: Seq<char>, k: int, d: char)
    requires
        markable(numeric@),
        call_ensures(pinyin_display, (numeric,), r),
        numeric@ == s.push(d),
        spelled(s),
        '1' <= d <= '4',
        0 <= k < s.len(),
        s[k] == 'u',
        forall|i: int|
            0 <= i < s.len() && i != k ==> !is_vowel(#[trigger] s[i]),
    ensures
        r@.len() == s.len(),
        forall|i: int| 0 <= i < s.len() && i != k ==> #[trigger] r@[i] == s[i],
        d == '1' ==> r@[k] as int == 0x16B,
        d == '2' ==> r@[k] as int == 0xFA,
        d == '3' ==> r@[k] as int == 0x1D4,
        d == '4' ==> r@[k] as int == 0xF9,
{
    let w = s.push(d);
    assert forall|i: int| 0 <= i < w.len() implies !text::is_white(#[trigger] w[i]) by {
        if i < s.len() {
            assert(w[i] == s[i]);
        }
    }
    text::law_words(Seq::empty(), ' ', Seq::empty(), w);
    let ws = text::words(numeric@);
    let marks = ws.map_values(|w: Seq<char>| marked_word(w));
    assert(marks =~= seq![marked_word(w)]);
    reveal_with_fuel(text::join, 2);
    assert(r@ == marked_word(w));
    assert forall|i: int| 0 <= i < s.len() && i != k implies s[i] != 'a' && s[i] != 'A' && s[i]
        != 'e' && s[i] != 'E' && s[i] != 'o' && s[i] != 'O' && s[i] != 'u' && s[i] != 'U' && s[i]
        != 'i' && s[i] != 'I' && s[i] != 'ü' by {
        assert(!is_vowel(s[i]));
    }
    law_mark_placement(s, k, d);
    law_marks_by_code_point('u', d as int - 48);
}

/// A syllable is any number of ASCII letters and then one ASCII digit; nothing
/// else is one. The brackets are the two square ones.
pub proof fn law_syllables(w: Seq<char>, d: char, a: Seq<char>, c: char, b: Seq<char>)
    ensures
        is_syllable(w.push(d)) <==> '0' <= d <= '9' && (forall|i: int|
            0 <= i < w.len() ==> ('a' <= (#[trigger] w[i]) <= 'z') || ('A' <= w[i] <= 'Z')),
        !is_syllable(Seq::empty()),
        c == '[' || c == ']' ==> without_brackets(a + seq![c] + b) == without_brackets(a + b),
        c != '[' && c != ']' ==> without_brackets(a + seq![c] + b) == without_brackets(a).push(c)
            + without_brackets(b),
{
    assert(w.push(d).drop_last() =~= w);
    if is_syllable(w.push(d)) {
        assert forall|i: int| 0 <= i < w.len() implies ('a' <= (#[trigger] w[i]) <= 'z') || ('A'
            <= w[i] <= 'Z') by {
            assert(text::is_letter(w[i]));
        }
    }
    lemma_brackets_cat(a, b);
    lemma_brackets_cat(a + seq![c], b);
    assert((a + seq![c]).drop_last() =~= a);
    assert(a + seq![c] =~= a.push(c));
}

/// An import fails exactly where not one line is an entry, and otherwise stores
/// the entries of the lines.
pub proof fn law_import(lines: &Vec<String>, r: Result<Vec<CedictRow>, String>, i: int)
    requires
        call_ensures(import_lines, (lines,), r),
        0 <= i < lines@.len(),
    ensures
        line_entry(lines@[i]@) is Some ==> r is Ok,
        r is Err ==> r->Err_0@ == "no cedict entries parsed"@,
        r is Ok ==> r->Ok_0.deep_view() == stored_lines(lines.deep_view()) && r->Ok_0@.len() > 0,
{
    let l = lines.deep_view();
    assert(l[i] == lines@[i]@);
    if line_entry(l[i]) is Some {
        lemma_something_stored(l, i);
    }
}

proof fn lemma_something_stored(l: Seq<Seq<char>>, i: int)
    requires
        0 <= i < l.len(),
        line_entry(l[i]) is Some,
    ensures
        stored_lines(l).len() > 0,
    decreases l.len(),
{
    if i < l.len() - 1 {
        assert(l.drop_last()[i] == l[i]);
        lemma_something_stored(l.drop_last(), i);
    }
}

} // verus!
