//! Languages, routing and the guard against loops.

use pardon::dict::{DictProvider, WordCard};
use pardon::lang::{detect, direction, display, is_cjk_char, Lang};
use pardon::loopguard::LoopGuard;
use pardon::router::{classify, sanitize, Route};

const EN: Lang = Lang::En;
const ZH: Lang = Lang::Zh;

#[test]
fn detect_pure() {
    assert_eq!(detect("hello world"), EN);
    assert_eq!(detect("run"), EN);
    assert_eq!(detect("你好"), ZH);
    assert_eq!(detect("这是一个句子。"), ZH);
}

#[test]
fn detect_mixed_counts_as_zh() {
    assert_eq!(detect("这个 API 设计很好"), ZH);
    assert_eq!(detect("start 开始"), ZH);
}

#[test]
fn detect_cjk_punctuation_only_is_zh() {
    assert_eq!(detect("你好，世界！"), ZH);
}

#[test]
fn detect_empty_defaults_en() {
    assert_eq!(detect(""), EN);
}

#[test]
fn direction_is_reverse_pair() {
    assert_eq!(direction("hello"), (EN, ZH));
    assert_eq!(direction("你好"), (ZH, EN));
}

#[test]
fn display_names() {
    assert_eq!(display(EN), "English");
    assert_eq!(display(ZH), "Chinese (Simplified)");
}

#[test]
fn chinese_characters_at_the_edges_of_their_blocks() {
    assert!(is_cjk_char('一'));
    assert!(is_cjk_char('\u{9FFF}'));
    assert!(is_cjk_char('\u{3400}'));
    assert!(!is_cjk_char('a'));
    assert!(!is_cjk_char('é'));
}

struct FakeDict {
    words: &'static [&'static str],
}

impl DictProvider for FakeDict {
    fn lookup(&self, w: &str) -> Option<WordCard> {
        self.words
            .iter()
            .copied()
            .find(|k| k.eq_ignore_ascii_case(w))
            .map(|k| WordCard {
                found: true,
                word: k.into(),
                phonetic: None,
                pos: vec![],
                definition: vec![],
                exchange: None,
                collins: None,
                oxford: false,
                tags: vec![],
                source: "fake".into(),
                suggestions: vec![],
            })
    }

    fn suggest(&self, _: &str) -> Vec<String> {
        vec![]
    }
}

const EN_DICT: FakeDict = FakeDict {
    words: &["run", "give", "give up", "gave", "word", "query"],
};
const ZH_DICT: FakeDict = FakeDict {
    words: &["你好", "翻译", "非常好"],
};

#[test]
fn en_word_hit() {
    assert!(matches!(classify("run", &EN_DICT, &ZH_DICT), Route::Word(_)));
}

#[test]
fn en_phrase_whole_hit() {
    let r = classify("give up", &EN_DICT, &ZH_DICT);
    assert!(matches!(r, Route::Word(w) if w == "give up"));
}

#[test]
fn en_two_words_fallback_to_first_word() {
    let r = classify("give quickly", &EN_DICT, &ZH_DICT);
    assert!(matches!(r, Route::Word(w) if w == "give"));
}

#[test]
fn en_two_dict_words_phrase_is_sentence() {
    assert!(matches!(classify("word query", &EN_DICT, &ZH_DICT), Route::Sentence(_)));
    assert!(matches!(classify("Word Query", &EN_DICT, &ZH_DICT), Route::Sentence(_)));
}

#[test]
fn en_sentence() {
    assert!(matches!(
        classify("please give me the book quickly", &EN_DICT, &ZH_DICT),
        Route::Sentence(_)
    ));
}

#[test]
fn zh_word_short_hit() {
    assert!(matches!(classify("你好", &EN_DICT, &ZH_DICT), Route::Word(_)));
    assert!(matches!(classify("非常好", &EN_DICT, &ZH_DICT), Route::Word(_)));
}

#[test]
fn zh_over_six_chars_is_sentence() {
    assert!(matches!(
        classify("今天的天气非常好啊朋友们", &EN_DICT, &ZH_DICT),
        Route::Sentence(_)
    ));
}

#[test]
fn zh_short_but_no_entry_is_sentence() {
    assert!(matches!(classify("吃饭了", &EN_DICT, &ZH_DICT), Route::Sentence(_)));
}

#[test]
fn mixed_text_is_sentence() {
    assert!(matches!(
        classify("这个 API 设计", &EN_DICT, &ZH_DICT),
        Route::Sentence(_)
    ));
}

#[test]
fn empty_is_sentence() {
    assert!(matches!(classify("   ", &EN_DICT, &ZH_DICT), Route::Sentence(_)));
}

#[test]
fn invisible_chars_are_stripped_before_word_lookup() {
    assert!(matches!(classify("run\u{200B}", &EN_DICT, &ZH_DICT), Route::Word(w) if w == "run"));
    assert!(matches!(classify("run\u{FEFF}", &EN_DICT, &ZH_DICT), Route::Word(w) if w == "run"));
    assert!(matches!(classify("ru\u{00AD}n", &EN_DICT, &ZH_DICT), Route::Word(w) if w == "run"));
    assert!(matches!(classify(" run\u{2060} ", &EN_DICT, &ZH_DICT), Route::Word(w) if w == "run"));
}

#[test]
fn sanitize_strips_invisible_but_keeps_text() {
    assert_eq!(sanitize("hello\u{200B} world\u{00AD}"), "hello world");
    assert_eq!(sanitize("多行\n句子\t保持"), "多行\n句子\t保持");
    assert_eq!(sanitize("\u{200B}"), "");
}

#[test]
fn a_sentence_keeps_its_text_without_invisible_characters() {
    let r = classify(" please give me the\u{200B} book ", &EN_DICT, &ZH_DICT);
    assert_eq!(r, Route::Sentence("please give me the book".into()));
    assert_eq!(sanitize(&sanitize("a\u{200B}b")), "ab");
}

const S: u128 = 1_000_000_000;
const W: u128 = 10 * S;

#[test]
fn empty_and_whitespace_never_admitted() {
    let mut g = LoopGuard::new(W);
    assert!(!g.accept("", 0));
    assert!(!g.accept("   \n\t", 0));
}

#[test]
fn same_text_within_window_is_deduped() {
    let mut g = LoopGuard::new(W);
    let t = 5 * S;
    assert!(g.accept("hello", t));
    assert!(!g.accept("hello", t + 3 * S));
    assert!(!g.accept("hello\n", t + 4 * S));
}

#[test]
fn same_text_after_window_is_readmitted() {
    let mut g = LoopGuard::new(W);
    let t = 5 * S;
    assert!(g.accept("hello", t));
    assert!(g.accept("hello", t + W));
}

#[test]
fn different_text_admitted_immediately() {
    let mut g = LoopGuard::new(W);
    assert!(g.accept("hello", 0));
    assert!(g.accept("world", 0));
}

#[test]
fn self_written_echo_is_ignored() {
    let mut g = LoopGuard::new(W);
    let t = 5 * S;
    assert!(g.accept("hello", t));
    g.register_write("你好", t);
    assert!(!g.accept("你好", t + S));
    assert!(g.accept("world", t + S));
}

#[test]
fn self_write_echo_expires_with_window() {
    let mut g = LoopGuard::new(W);
    let t = 5 * S;
    g.register_write("你好", t);
    assert!(!g.accept("你好", t + 9 * S));
    assert!(g.accept("你好", t + W));
}

#[test]
fn trim_normalizes_before_hashing() {
    let mut g = LoopGuard::new(W);
    g.register_write("  你好 \n", 0);
    assert!(!g.accept("你好", 0));
}

#[test]
fn a_refused_text_does_not_renew_its_window() {
    let mut g = LoopGuard::new(W);
    assert!(g.accept("hello", 0));
    assert!(!g.accept("hello", 9 * S));
    assert!(g.accept("hello", 10 * S));
}
