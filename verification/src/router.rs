//! Whether a text is a word to look up or a sentence to translate.

use crate::dict;
use crate::dict::{Answer, AnswerModel, DictProvider};
use crate::lang;
use crate::text;
use vstd::prelude::*;

verus! {

/// What to do with a text.
#[derive(Debug, Clone, PartialEq)]
pub enum Route {
    /// Look this word up; it may be only one word of the text.
    Word(String),
    /// Translate this text.
    Sentence(String),
}

/// What a [`Route`] says.
pub enum RouteModel {
    Word(Seq<char>),
    Sentence(Seq<char>),
}

impl DeepView for Route {
    type V = RouteModel;

    open spec fn deep_view(&self) -> RouteModel {
        match self {
            Route::Word(w) => RouteModel::Word(w@),
            Route::Sentence(s) => RouteModel::Sentence(s@),
        }
    }
}

/// The control characters.
pub open spec fn is_control(c: char) -> bool {
    let n = c as u32;
    n <= 0x1F || 0x7F <= n <= 0x9F
}

/// Characters that a copied text may carry unseen: soft hyphens, zero-width and
/// direction marks, and the control characters that are not white space.
pub open spec fn is_unseen(c: char) -> bool {
    let n = c as u32;
    ||| n == 0x00AD
    ||| 0x200B <= n <= 0x200F
    ||| n == 0x2060
    ||| n == 0xFEFF
    ||| 0x202A <= n <= 0x202E
    ||| 0x2066 <= n <= 0x2069
    ||| (is_control(c) && !text::is_white(c))
}

/// `s` without unseen characters.
pub open spec fn seen(s: Seq<char>) -> Seq<char>
    decreases s.len(),
{
    if s.len() == 0 {
        s
    } else if is_unseen(s.last()) {
        seen(s.drop_last())
    } else {
        seen(s.drop_last()).push(s.last())
    }
}

/// `s` without unseen characters and without white space at its ends.
pub open spec fn clean(s: Seq<char>) -> Seq<char> {
    text::trim(seen(s))
}

fn is_invisible(c: char) -> (r: bool)
    ensures
        r == is_unseen(c),
{
    let n: u32 = c as u32;
    n == 0x00AD || (0x200B <= n && n <= 0x200F) || n == 0x2060 || n == 0xFEFF || (0x202A <= n && n
        <= 0x202E) || (0x2066 <= n && n <= 0x2069) || ((n <= 0x1F || (0x7F <= n && n <= 0x9F))
        && !text::white(c))
}

/// `text` without unseen characters and without white space at its ends.
pub fn sanitize(text: &str) -> (r: String)
    ensures
        r@ == clean(text@),
{
    let v = text::chars_of(text);
    let mut kept = String::new();
    let mut i: usize = 0;
    assert(seen(v@.take(0)) =~= Seq::<char>::empty());
    while i < v.len()
        invariant
            i <= v@.len(),
            kept@ == seen(v@.take(i as int)),
        decreases v@.len() - i,
    {
        assert(v@.take(i + 1).drop_last() =~= v@.take(i as int));
        if !is_invisible(v[i]) {
            kept.push(v[i]);
        }
        i += 1;
    }
    assert(v@.take(i as int) =~= v@);
    text::trimmed(&kept)
}

/// Longer Chinese texts are never looked up.
pub const MAX_CHINESE_WORD: usize = 6;

/// How many of `ws` a dictionary has.
pub open spec fn hits(en: Seq<AnswerModel>, ws: Seq<Seq<char>>) -> nat
    decreases ws.len(),
{
    if ws.len() == 0 {
        0
    } else {
        hits(en, ws.drop_last()) + (if dict::entry_in(en, ws.last()) is Some {
            1nat
        } else {
            0nat
        })
    }
}

/// The last of `ws` that a dictionary has.
pub open spec fn last_hit(en: Seq<AnswerModel>, ws: Seq<Seq<char>>) -> Seq<char>
    decreases ws.len(),
{
    if ws.len() == 0 {
        Seq::empty()
    } else if dict::entry_in(en, ws.last()) is Some {
        ws.last()
    } else {
        last_hit(en, ws.drop_last())
    }
}

/// A Chinese text of at most six characters is a word where the Chinese
/// dictionary has it. Another text is a word where the English dictionary has
/// all of it; failing that, one or two words stand for the only one of them that
/// the dictionary has. Everything else is a sentence.
pub open spec fn route(
    s: Seq<char>,
    en: Seq<AnswerModel>,
    zh: Seq<AnswerModel>,
) -> RouteModel {
    let t = clean(s);
    let ws = text::words(t);
    if t.len() == 0 {
        RouteModel::Sentence(t)
    } else if lang::lang_of(t) == lang::Lang::Zh {
        if t.len() <= MAX_CHINESE_WORD && dict::entry_in(zh, t) is Some {
            RouteModel::Word(t)
        } else {
            RouteModel::Sentence(t)
        }
    } else if dict::entry_in(en, t) is Some {
        RouteModel::Word(t)
    } else if ws.len() <= 2 && hits(en, ws) == 1 {
        RouteModel::Word(last_hit(en, ws))
    } else {
        RouteModel::Sentence(t)
    }
}

/// Whether `text` is a word or a sentence, by what the dictionaries answered.
pub fn classify_by(text: &str, en: &Vec<Answer>, zh: &Vec<Answer>) -> (r: Route)
    ensures
        r.deep_view() == route(text@, en.deep_view(), zh.deep_view()),
{
    let t = sanitize(text);
    if text::empty(&t) {
        return Route::Sentence(t);
    }
    let chars = text::chars_of(&t);
    match lang::detect(&t) {
        lang::Lang::Zh => {
            if chars.len() <= MAX_CHINESE_WORD && dict::has_entry(zh, &t) {
                return Route::Word(t);
            }
            return Route::Sentence(t);
        },
        lang::Lang::En => {},
    }
    if dict::has_entry(en, &t) {
        return Route::Word(t);
    }
    let ws = text::words_of(&t);
    if ws.len() <= 2 {
        let mut count: usize = 0;
        let mut hit = String::new();
        let mut i: usize = 0;
        let ghost said = en.deep_view();
        assert(ws.deep_view().take(0) =~= Seq::<Seq<char>>::empty());
        while i < ws.len()
            invariant
                i <= ws@.len() <= 2,
                count <= i,
                said == en.deep_view(),
                count == hits(said, ws.deep_view().take(i as int)),
                hit@ == last_hit(said, ws.deep_view().take(i as int)),
            decreases ws@.len() - i,
        {
            assert(ws.deep_view().take(i + 1).drop_last() =~= ws.deep_view().take(i as int));
            if dict::has_entry(en, &ws[i]) {
                count += 1;
                hit = text::copy(&ws[i]);
            }
            i += 1;
        }
        assert(ws.deep_view().take(i as int) =~= ws.deep_view());
        if count == 1 {
            return Route::Word(hit);
        }
    }
    Route::Sentence(t)
}

/// Whether everything was asked that decides over a text: a Chinese text of at
/// most six characters; another text, and where there is no entry for it, each
/// of its words, if it has at most two.
pub open spec fn all_asked(s: Seq<char>, en: Seq<AnswerModel>, zh: Seq<AnswerModel>) -> bool {
    let t = clean(s);
    let ws = text::words(t);
    if t.len() == 0 {
        true
    } else if lang::lang_of(t) == lang::Lang::Zh {
        t.len() <= MAX_CHINESE_WORD ==> dict::asked(zh, t)
    } else {
        &&& dict::asked(en, t)
        &&& dict::entry_in(en, t) is None && ws.len() <= 2 ==> forall|i: int|
            0 <= i < ws.len() ==> dict::asked(en, #[trigger] ws[i])
    }
}

/// Asks the dictionaries for everything that decides over a text: the first list
/// holds answers of `en`, the second of `zh`.
pub fn ask_for<E: DictProvider + ?Sized, Z: DictProvider + ?Sized>(
    text: &str,
    en: &E,
    zh: &Z,
) -> (r: (Vec<Answer>, Vec<Answer>))
    ensures
        all_asked(text@, r.0.deep_view(), r.1.deep_view()),
        dict::all_answered(en, false, r.0.deep_view()),
        dict::all_answered(zh, false, r.1.deep_view()),
{
    let mut from_en: Vec<Answer> = Vec::new();
    let mut from_zh: Vec<Answer> = Vec::new();
    let t = sanitize(text);
    if text::empty(&t) {
        return (from_en, from_zh);
    }
    let chars = text::chars_of(&t);
    match lang::detect(&t) {
        lang::Lang::Zh => {
            if chars.len() <= MAX_CHINESE_WORD {
                dict::ask(zh, &mut from_zh, &t, false);
            }
            return (from_en, from_zh);
        },
        lang::Lang::En => {},
    }
    dict::ask(en, &mut from_en, &t, false);
    if dict::has_entry(&from_en, &t) {
        return (from_en, from_zh);
    }
    let ws = text::words_of(&t);
    if ws.len() <= 2 {
        let mut i: usize = 0;
        while i < ws.len()
            invariant
                i <= ws@.len(),
                dict::asked(from_en.deep_view(), t@),
                dict::all_answered(en, false, from_en.deep_view()),
                forall|k: int|
                    0 <= k < i ==> dict::asked(
                        from_en.deep_view(),
                        #[trigger] ws.deep_view()[k],
                    ),
            decreases ws@.len() - i,
        {
            dict::ask(en, &mut from_en, &ws[i], false);
            assert(ws.deep_view()[i as int] == ws@[i as int]@);
            i += 1;
        }
        assert(ws.deep_view().len() == ws@.len());
    }
    (from_en, from_zh)
}

/// Whether `text` is a word or a sentence to the two dictionaries. They are
/// asked for everything that decides over it, and their answers decide.
pub fn classify<E: DictProvider + ?Sized, Z: DictProvider + ?Sized>(
    text: &str,
    en: &E,
    zh: &Z,
) -> (r: Route)
    ensures
        exists|from_en: Seq<AnswerModel>, from_zh: Seq<AnswerModel>|
            all_asked(text@, from_en, from_zh) && dict::all_answered(en, false, from_en)
                && dict::all_answered(zh, false, from_zh) && r.deep_view() == #[trigger] route(
                text@,
                from_en,
                from_zh,
            ),
{
    let (from_en, from_zh) = ask_for(text, en, zh);
    classify_by(text, &from_en, &from_zh)
}

// Laws

/// Nothing unseen is left in a text by [`seen`], and nothing else is lost.
pub proof fn lemma_seen(s: Seq<char>)
    ensures
        seen(s).len() <= s.len(),
        forall|i: int| 0 <= i < seen(s).len() ==> !is_unseen(#[trigger] seen(s)[i]),
        (forall|i: int| 0 <= i < s.len() ==> !is_unseen(#[trigger] s[i])) ==> seen(s) == s,
    decreases s.len(),
{
    if s.len() > 0 {
        lemma_seen(s.drop_last());
        if forall|i: int| 0 <= i < s.len() ==> !is_unseen(#[trigger] s[i]) {
            assert forall|i: int| 0 <= i < s.drop_last().len() implies !is_unseen(
                #[trigger] s.drop_last()[i],
            ) by {
                assert(s.drop_last()[i] == s[i]);
            }
            assert(!is_unseen(s[s.len() - 1]));
            assert(s.drop_last().push(s.last()) =~= s);
        }
    }
}

/// A cleaned text holds nothing unseen, has no white space at its ends, and is
/// not changed by cleaning it again.
pub proof fn law_cleaning(s: Seq<char>)
    ensures
        forall|i: int| 0 <= i < clean(s).len() ==> !is_unseen(#[trigger] clean(s)[i]),
        text::is_trimmed(clean(s)),
        clean(clean(s)) == clean(s),
{
    lemma_seen(s);
    text::lemma_trim(seen(s));
    let t = clean(s);
    assert forall|i: int| 0 <= i < t.len() implies !is_unseen(#[trigger] t[i]) by {
        assert(text::trim(seen(s)).contains(t[i]));
        assert(seen(s).contains(t[i]));
        let k = choose|k: int| 0 <= k < seen(s).len() && seen(s)[k] == t[i];
        assert(!is_unseen(seen(s)[k]));
    }
    lemma_seen(t);
    text::lemma_trim(t);
}

/// What cannot be seen in a text, and white space at its ends, does not change
/// its route.
pub proof fn law_cleaning_keeps_the_route(
    s: Seq<char>,
    en: Seq<AnswerModel>,
    zh: Seq<AnswerModel>,
)
    ensures
        route(clean(s), en, zh) == route(s, en, zh),
{
    law_cleaning(s);
}

/// The word of a Chinese text is the whole text and in the Chinese dictionary,
/// the word of another text is in the English one, and the text of a sentence
/// route is the whole cleaned text.
pub proof fn law_routes_are_faithful(
    s: Seq<char>,
    en: Seq<AnswerModel>,
    zh: Seq<AnswerModel>,
)
    ensures
        match route(s, en, zh) {
            RouteModel::Word(w) => match lang::lang_of(clean(s)) {
                lang::Lang::Zh => w == clean(s) && dict::entry_in(zh, w) is Some,
                lang::Lang::En => (w == clean(s) || text::words(clean(s)).contains(w))
                    && dict::entry_in(en, w) is Some,
            },
            RouteModel::Sentence(t) => t == clean(s),
        },
{
    lemma_last_hit(en, text::words(clean(s)));
}

proof fn lemma_last_hit(en: Seq<AnswerModel>, ws: Seq<Seq<char>>)
    ensures
        hits(en, ws) > 0 ==> dict::entry_in(en, last_hit(en, ws)) is Some,
        hits(en, ws) > 0 ==> ws.contains(last_hit(en, ws)),
    decreases ws.len(),
{
    if ws.len() > 0 {
        lemma_last_hit(en, ws.drop_last());
        let w = last_hit(en, ws);
        if dict::entry_in(en, ws.last()) is Some {
            assert(ws[ws.len() - 1] == w);
        } else if hits(en, ws) > 0 {
            let i = choose|i: int| 0 <= i < ws.drop_last().len() && ws.drop_last()[i] == w;
            assert(ws[i] == w);
        }
    }
}

/// A text of white space and unseen characters alone is an empty sentence.
pub proof fn law_blank_is_sentence(
    s: Seq<char>,
    en: Seq<AnswerModel>,
    zh: Seq<AnswerModel>,
)
    requires
        forall|i: int| 0 <= i < s.len() ==> text::is_white(#[trigger] s[i]) || is_unseen(s[i]),
    ensures
        route(s, en, zh) == RouteModel::Sentence(Seq::empty()),
{
    lemma_blank_is_seen_blank(s);
    text::lemma_trim_empty(seen(s));
    assert(clean(s) =~= Seq::<char>::empty());
}

proof fn lemma_blank_is_seen_blank(s: Seq<char>)
    requires
        forall|i: int| 0 <= i < s.len() ==> text::is_white(#[trigger] s[i]) || is_unseen(s[i]),
    ensures
        forall|i: int| 0 <= i < seen(s).len() ==> text::is_white(#[trigger] seen(s)[i]),
    decreases s.len(),
{
    if s.len() > 0 {
        assert forall|i: int| 0 <= i < s.drop_last().len() implies text::is_white(
            #[trigger] s.drop_last()[i],
        ) || is_unseen(s.drop_last()[i]) by {
            assert(s.drop_last()[i] == s[i]);
        }
        lemma_blank_is_seen_blank(s.drop_last());
        assert(text::is_white(s[s.len() - 1]) || is_unseen(s[s.len() - 1]));
        let r = seen(s.drop_last());
        assert forall|i: int| 0 <= i < seen(s).len() implies text::is_white(
            #[trigger] seen(s)[i],
        ) by {
            if i < r.len() {
                assert(seen(s)[i] == r[i]);
            }
        }
    }
}

proof fn lemma_hits_of_two(en: Seq<AnswerModel>, a: Seq<char>, b: Seq<char>)
    ensures
        hits(en, seq![a, b]) == (if dict::entry_in(en, a) is Some {
            1nat
        } else {
            0nat
        }) + (if dict::entry_in(en, b) is Some {
            1nat
        } else {
            0nat
        }),
        dict::entry_in(en, b) is Some ==> last_hit(en, seq![a, b]) == b,
        dict::entry_in(en, b) is None && dict::entry_in(en, a) is Some ==> last_hit(
            en,
            seq![a, b],
        ) == a,
{
    reveal_with_fuel(hits, 3);
    reveal_with_fuel(last_hit, 3);
    assert(seq![a, b].drop_last() =~= seq![a]);
    assert(seq![a].drop_last() =~= Seq::<Seq<char>>::empty());
}

/// A Chinese text of one to six characters that the Chinese dictionary has is a
/// word; a longer one, and one that it lacks, is a sentence.
pub proof fn law_chinese_words(s: Seq<char>, en: Seq<AnswerModel>, zh: Seq<AnswerModel>)
    requires
        lang::lang_of(clean(s)) == lang::Lang::Zh,
    ensures
        1 <= clean(s).len() <= 6 && dict::entry_in(zh, clean(s)) is Some ==> route(s, en, zh)
            == RouteModel::Word(clean(s)),
        clean(s).len() > 6 ==> route(s, en, zh) == RouteModel::Sentence(clean(s)),
        dict::entry_in(zh, clean(s)) is None ==> route(s, en, zh) == RouteModel::Sentence(clean(s)),
{
    assert(clean(s).len() > 0);
}

/// An English text that the English dictionary has as a whole is a word. One
/// that it lacks is a word where it has exactly one of two words, or the only
/// one: that word. Where it has both or none of them, and where there are more
/// than two, the text is a sentence.
pub proof fn law_english_words(
    s: Seq<char>,
    en: Seq<AnswerModel>,
    zh: Seq<AnswerModel>,
    a: Seq<char>,
    b: Seq<char>,
)
    requires
        lang::lang_of(clean(s)) == lang::Lang::En,
        clean(s).len() > 0,
    ensures
        dict::entry_in(en, clean(s)) is Some ==> route(s, en, zh) == RouteModel::Word(clean(s)),
        dict::entry_in(en, clean(s)) is None && text::words(clean(s)) == seq![a, b] ==> route(
            s,
            en,
            zh,
        ) == (match (dict::entry_in(en, a), dict::entry_in(en, b)) {
            (Some(_), None) => RouteModel::Word(a),
            (None, Some(_)) => RouteModel::Word(b),
            _ => RouteModel::Sentence(clean(s)),
        }),
        dict::entry_in(en, clean(s)) is None && text::words(clean(s)) == seq![a] ==> route(
            s,
            en,
            zh,
        ) == (match dict::entry_in(en, a) {
            Some(_) => RouteModel::Word(a),
            None => RouteModel::Sentence(clean(s)),
        }),
        dict::entry_in(en, clean(s)) is None && text::words(clean(s)).len() > 2 ==> route(
            s,
            en,
            zh,
        ) == RouteModel::Sentence(clean(s)),
{
    lemma_hits_of_two(en, a, b);
    reveal_with_fuel(hits, 2);
    reveal_with_fuel(last_hit, 2);
    assert(seq![a].drop_last() =~= Seq::<Seq<char>>::empty());
}

proof fn lemma_seen_cat(a: Seq<char>, b: Seq<char>)
    ensures
        seen(a + b) == seen(a) + seen(b),
    decreases b.len(),
{
    if b.len() == 0 {
        assert(a + b =~= a);
        assert(seen(a) + seen(b) =~= seen(a));
    } else {
        assert((a + b).drop_last() =~= a + b.drop_last());
        lemma_seen_cat(a, b.drop_last());
        if !is_unseen(b.last()) {
            assert((seen(a) + seen(b.drop_last())).push(b.last()) =~= seen(a) + seen(
                b.drop_last(),
            ).push(b.last()));
        }
    }
}

/// A soft hyphen (U+00AD), a zero-width character or a mark of direction (U+200B
/// to U+200F, U+202A to U+202E, U+2060, U+2066 to U+2069, U+FEFF), a delete and
/// the control characters that are no white space make no difference, wherever
/// they stand; a line break or a tab does.
pub proof fn law_unseen_characters(a: Seq<char>, c: char, b: Seq<char>)
    ensures
        c as int == 0xAD || 0x200B <= c as int <= 0x200F || 0x202A <= c as int <= 0x202E
            || c as int == 0x2060 || 0x2066 <= c as int <= 0x2069 || c as int == 0xFEFF
            || c as int <= 8 || 0x0E <= c as int <= 0x1F || 0x7F <= c as int <= 0x84 || 0x86
            <= c as int <= 0x9F ==> clean(a + seq![c] + b) == clean(a + b),
        9 <= c as int <= 0x0D || 0x20 <= c as int <= 0x7E || c as int == 0x85 || 0xA0 <= c as int
            <= 0xAC || 0xAE <= c as int <= 0x1FFF || 0x2010 <= c as int <= 0x2029 || 0x2070
            <= c as int <= 0xFEFE || 0xFF00 <= c as int ==> seen(a + seq![c] + b) == seen(a)
            + seq![c] + seen(b),
{
    reveal_with_fuel(seen, 2);
    lemma_seen_cat(a + seq![c], b);
    lemma_seen_cat(a, seq![c]);
    lemma_seen_cat(a, b);
    assert(seq![c].drop_last() =~= Seq::<char>::empty());
    if is_unseen(c) {
        assert(seen(seq![c]) =~= Seq::<char>::empty());
        assert(seen(a) + Seq::<char>::empty() =~= seen(a));
    } else {
        assert(seen(seq![c]) =~= seq![c]);
    }
}

/// What is decided of a Chinese text by its length: one of one to six characters
/// that the dictionary has is a word, and no longer one is.
pub proof fn law_length_of_chinese_words(
    t: &str,
    en: &Vec<Answer>,
    zh: &Vec<Answer>,
    r: Route,
)
    requires
        call_ensures(classify_by, (t, en, zh), r),
        lang::lang_of(clean(t@)) == lang::Lang::Zh,
        dict::entry_in(zh.deep_view(), clean(t@)) is Some,
    ensures
        r is Word <==> clean(t@).len() <= 6,
        r is Word ==> r->Word_0@ == clean(t@),
        r is Sentence ==> r->Sentence_0@ == clean(t@),
{
    law_chinese_words(t@, en.deep_view(), zh.deep_view());
}

} // verus!
