//! Languages: detection from the text itself and the direction of a translation.

use vstd::prelude::*;

verus! {

/// The two languages that the library translates between.
#[derive(Debug, Clone, Copy, PartialEq, Eq, Structural)]
pub enum Lang {
    En,
    Zh,
}

/// Unified ideographs, extension A, CJK punctuation and full-width forms.
pub open spec fn is_cjk(c: char) -> bool {
    let n = c as u32;
    ||| 0x4E00 <= n <= 0x9FFF
    ||| 0x3400 <= n <= 0x4DBF
    ||| 0x3000 <= n <= 0x303F
    ||| 0xFF00 <= n <= 0xFFEF
}

/// Whether any character of `s` is CJK.
pub open spec fn has_cjk(s: Seq<char>) -> bool {
    exists|i: int| 0 <= i < s.len() && is_cjk(#[trigger] s[i])
}

/// The language of `s`: Chinese as soon as one character is CJK.
pub open spec fn lang_of(s: Seq<char>) -> Lang {
    if has_cjk(s) {
        Lang::Zh
    } else {
        Lang::En
    }
}

/// The other language.
pub open spec fn other(l: Lang) -> Lang {
    match l {
        Lang::En => Lang::Zh,
        Lang::Zh => Lang::En,
    }
}

/// The name of a language as prompts write it.
pub open spec fn display_name(l: Lang) -> Seq<char> {
    match l {
        Lang::En => "English"@,
        Lang::Zh => "Chinese (Simplified)"@,
    }
}

/// Unified ideographs, extension A, CJK punctuation and full-width forms.
pub fn is_cjk_char(c: char) -> (r: bool)
    ensures
        r == is_cjk(c),
{
    let n: u32 = c as u32;
    (0x4E00 <= n && n <= 0x9FFF) || (0x3400 <= n && n <= 0x4DBF) || (0x3000 <= n && n <= 0x303F)
        || (0xFF00 <= n && n <= 0xFFEF)
}

/// The language of `text`: Chinese as soon as one character is CJK.
pub fn detect(text: &str) -> (r: Lang)
    ensures
        r == lang_of(text@),
{
    for c in it: text.chars()
        invariant
            it.seq() == text@,
            forall|i: int| 0 <= i < it.index() ==> !is_cjk(#[trigger] text@[i]),
    {
        assert(c == text@[it.index() as int]);
        if is_cjk_char(c) {
            return Lang::Zh;
        }
    }
    Lang::En
}

/// The language of `text` and the one to translate it into.
pub fn direction(text: &str) -> (r: (Lang, Lang))
    ensures
        r == (lang_of(text@), other(lang_of(text@))),
{
    match detect(text) {
        Lang::Zh => (Lang::Zh, Lang::En),
        Lang::En => (Lang::En, Lang::Zh),
    }
}

/// The name of a language as prompts write it.
pub fn display(lang: Lang) -> (r: &'static str)
    ensures
        r@ == display_name(lang),
{
    match lang {
        Lang::En => "English",
        Lang::Zh => "Chinese (Simplified)",
    }
}

/// A direction always pairs the two languages.
pub proof fn law_direction_is_reverse_pair(s: Seq<char>)
    ensures
        other(lang_of(s)) != lang_of(s),
        other(other(lang_of(s))) == lang_of(s),
{
}

/// A text that holds any Chinese text is itself Chinese, whatever surrounds it.
pub proof fn law_mixed_counts_as_chinese(a: Seq<char>, b: Seq<char>, c: Seq<char>)
    requires
        lang_of(b) == Lang::Zh,
    ensures
        lang_of(a + b + c) == Lang::Zh,
{
    let i = choose|i: int| 0 <= i < b.len() && is_cjk(#[trigger] b[i]);
    assert((a + b + c)[a.len() + i] == b[i]);
}

/// A text with a character of the blocks of Chinese characters (U+4E00 to U+9FFF
/// and U+3400 to U+4DBF), of their punctuation (U+3000 to U+303F) or of the
/// full-width forms (U+FF00 to U+FFEF), wherever it stands, is Chinese and
/// translated into English; a text without any is English and translated into
/// Chinese.
pub proof fn law_language_by_code_points(s: Seq<char>)
    ensures
        forall|i: int|
            0 <= i < s.len() && (0x4E00 <= (#[trigger] s[i]) as int <= 0x9FFF || 0x3400
                <= s[i] as int <= 0x4DBF || 0x3000 <= s[i] as int <= 0x303F || 0xFF00
                <= s[i] as int <= 0xFFEF) ==> lang_of(s) == Lang::Zh && other(lang_of(s))
                == Lang::En,
        (forall|i: int|
            0 <= i < s.len() ==> ((#[trigger] s[i]) as int) < 0x3000 || 0x3040 <= s[i] as int
                <= 0x33FF || 0x4DC0 <= s[i] as int <= 0x4DFF || 0xA000 <= s[i] as int <= 0xFEFF
                || 0xFFF0 <= s[i] as int) ==> lang_of(s) == Lang::En && other(lang_of(s))
            == Lang::Zh,
{
    assert forall|i: int|
        0 <= i < s.len() && (0x4E00 <= (#[trigger] s[i]) as int <= 0x9FFF || 0x3400 <= s[i] as int
            <= 0x4DBF || 0x3000 <= s[i] as int <= 0x303F || 0xFF00 <= s[i] as int
            <= 0xFFEF) implies lang_of(s) == Lang::Zh by {
        lemma_code_point(s[i]);
        assert(is_cjk(s[i]));
    }
    if has_cjk(s) {
        let i = choose|i: int| 0 <= i < s.len() && is_cjk(#[trigger] s[i]);
        assert(is_cjk(s[i]));
        lemma_code_point(s[i]);
        assert(s[i] as int >= 0x3000);
    }
}

proof fn lemma_code_point(c: char)
    ensures
        c as u32 as int == c as int,
{
}

/// A text of ASCII characters alone is English.
pub proof fn law_ascii_is_english(s: Seq<char>)
    requires
        forall|i: int| 0 <= i < s.len() ==> ((#[trigger] s[i]) as int) < 128,
    ensures
        lang_of(s) == Lang::En,
        other(lang_of(s)) == Lang::Zh,
{
    if has_cjk(s) {
        let i = choose|i: int| 0 <= i < s.len() && is_cjk(#[trigger] s[i]);
        assert(is_cjk(s[i]));
        lemma_code_point(s[i]);
    }
}

/// Models are told the languages by these names.
pub proof fn law_names()
    ensures
        display_name(Lang::En) == "English"@,
        display_name(Lang::Zh) == "Chinese (Simplified)"@,
{
}

/// A character counts as Chinese exactly where it lies between the first and the
/// last of one of four blocks: nothing is left out within a block.
pub proof fn law_blocks(c: char, r: bool, a: char, b: char, x: bool, y: bool)
    requires
        call_ensures(is_cjk_char, (c,), r),
        call_ensures(is_cjk_char, (a,), x),
        call_ensures(is_cjk_char, (b,), y),
    ensures
        r <==> 0x4E00 <= c as int <= 0x9FFF || 0x3400 <= c as int <= 0x4DBF || 0x3000 <= c as int
            <= 0x303F || 0xFF00 <= c as int <= 0xFFEF,
        a <= c <= b && x && y && b as int - a as int <= 0x51FF && a as int >= 0x4DC0 && (b as int)
            < 0xFF00 ==> r,
{
    lemma_code_point(c);
    lemma_code_point(a);
    lemma_code_point(b);
}

} // verus!
