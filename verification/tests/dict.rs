//! Dictionary entries: reading them, storing them and finding them again.

use pardon::dict::cedict::{
    can_display, card_from_row, import_lines, parse_line, pinyin_display, CedictRow,
};
use pardon::dict::ecdict::{
    card_from_columns, database_row_to_entry, import_csv, import_records, parse_exchange,
    row_to_card, row_to_entry, Cell, Columns, Entry, Record,
};
use pardon::dict::ecdict_query::{
    levenshtein, rank_suggestions, suggestion_prefix, Lookup, LookupReply, LookupStep,
};
use pardon::dict::{parse_translation_lines, DictProvider, PosGloss, WordCard};
use pardon::pipeline::lookup;
use pardon::wire::{card_line, exchange_line, pos_line};

#[test]
fn parse_with_pos_prefixes() {
    let out = parse_translation_lines("n. 火药\nv. 使爆炸；配制\nvt. 感知");
    assert_eq!(out.len(), 3);
    assert_eq!(out[0], PosGloss { pos: "n.".into(), gloss: vec!["火药".into()] });
    assert_eq!(out[1], PosGloss { pos: "v.".into(), gloss: vec!["使爆炸".into(), "配制".into()] });
    assert_eq!(out[2], PosGloss { pos: "vt.".into(), gloss: vec!["感知".into()] });
}

#[test]
fn parse_lines_without_prefix_group_into_empty_pos() {
    let out = parse_translation_lines("你好\n感叹词");
    assert_eq!(out.len(), 1);
    assert_eq!(out[0], PosGloss { pos: "".into(), gloss: vec!["你好".into(), "感叹词".into()] });
}

#[test]
fn parse_mixed() {
    let out = parse_translation_lines("adj. 高的\n高级的");
    assert_eq!(out.len(), 2);
    assert_eq!(out[1], PosGloss { pos: "".into(), gloss: vec!["高级的".into()] });
}

#[test]
fn parse_empty_and_whitespace() {
    assert!(parse_translation_lines("").is_empty());
    assert!(parse_translation_lines("  \n \n").is_empty());
}

#[test]
fn parse_splits_on_semicolon_and_fullwidth() {
    let out = parse_translation_lines("n. 火药；炸药");
    assert_eq!(out[0].gloss, vec!["火药", "炸药"]);
}

#[test]
fn exchange_full() {
    let ex = parse_exchange("d:perceived/p:perceived/3:perceives/i:perceiving/0:perceive").unwrap();
    assert_eq!(ex.pp.as_deref(), Some("perceived"));
    assert_eq!(ex.past.as_deref(), Some("perceived"));
    assert_eq!(ex.third.as_deref(), Some("perceives"));
    assert_eq!(ex.ing.as_deref(), Some("perceiving"));
    assert_eq!(ex.lemma.as_deref(), Some("perceive"));
    assert!(ex.comparative.is_none() && ex.plural.is_none());
}

#[test]
fn exchange_empty_is_none() {
    assert!(parse_exchange("").is_none());
}

#[test]
fn exchange_plural_and_comparative() {
    let ex = parse_exchange("s:boxes/0:box").unwrap();
    assert_eq!(ex.plural.as_deref(), Some("boxes"));
    let ex = parse_exchange("r:bigger/t:biggest/0:big").unwrap();
    assert_eq!(ex.comparative.as_deref(), Some("bigger"));
    assert_eq!(ex.superlative.as_deref(), Some("biggest"));
}

fn run_row() -> Vec<&'static str> {
    vec![
        "run",
        "rʌn",
        "move fast\noperate",
        "n. 跑步\nv. 跑；运转",
        "n:46/v:54",
        "3",
        "1",
        "zk gk cet4",
        "1234",
        "567",
        "p:ran/d:run/i:running/3:runs/0:run",
        "",
        "",
    ]
}

#[test]
fn row_to_card_assembles() {
    let card = row_to_card(&run_row()).unwrap();
    assert!(card.found);
    assert_eq!(card.word, "run");
    assert_eq!(card.phonetic.as_ref().unwrap().uk.as_deref(), Some("rʌn"));
    assert_eq!(card.pos.len(), 2);
    assert_eq!(card.pos[0].pos, "n.");
    assert_eq!(card.pos[1].gloss, vec!["跑", "运转"]);
    assert_eq!(card.definition, vec!["move fast", "operate"]);
    assert_eq!(card.exchange.as_ref().unwrap().past.as_deref(), Some("ran"));
    assert_eq!(card.collins, Some(3));
    assert!(card.oxford);
    assert_eq!(card.tags, vec!["zk", "gk", "cet4"]);
    assert_eq!(card.source, "ecdict");
    assert!(card.suggestions.is_empty());
}

#[test]
fn row_to_card_minimal() {
    let card =
        row_to_card(&["hello", "həˈləu", "", "int. 你好", "", "", "", "", "", "", "", "", ""]).unwrap();
    assert_eq!(card.pos[0].gloss, vec!["你好"]);
    assert_eq!(card.definition.len(), 0);
    assert!(card.exchange.is_none());
}

#[test]
fn row_with_too_few_columns_is_none() {
    assert!(row_to_card(&["only", "two"]).is_none());
}

#[test]
fn a_stored_row_reads_back_as_its_card() {
    let row = run_row();
    let e = row_to_entry(&row).unwrap();
    assert_eq!(e.bnc, 1234);
    assert_eq!(e.frq, 567);
    assert_eq!(e.oxford, 1);
    assert_eq!(e.tags, "zk gk cet4");
    assert_eq!(e.forms, vec!["ran", "run", "running", "runs"]);
    assert_eq!(card_of(&e), row_to_card(&row).unwrap());
}

/// The entry as its columns give it back.
fn card_of(e: &Entry) -> WordCard {
    card_from_columns(Columns {
        word: e.word.clone(),
        phonetic: Some(e.phonetic.clone()),
        definition: e.definition.clone(),
        pos: e.pos.clone(),
        exchange: e.exchange.clone(),
        collins: e.collins.map(|c| c as i64),
        oxford: e.oxford,
        tags: e.tags.clone(),
    })
}

const MINI: &str = "\
    run,rʌn,\"move fast\noperate\",\"n. 跑步\nv. 跑；运转\",n:46/v:54,3,1,zk gk cet4,1234,567,p:ran/d:run/i:running/3:runs/0:run,,\n\
    gave,ɡeɪv,,,,0,0,,0,0,0:give,,\n\
    give,ɡɪv,,vt. 给予,,3,1,cet4,0,0,d:given/p:gave/i:giving/3:gives/0:give,,\n\
    hello,həˈləu,,int. 你好,,0,0,zk,1234,1,,,\n\
    give up,,surrender,放弃；认输,,0,0,,1234,10,0:give up,,\n\
    box,bɒks,,n. 盒子,n:100,1,0,zk,998,88,s:boxes/0:box,,\n\
    perceive,pəˈsiːv,\"sense\nbecome aware of\",vt. 感知；察觉,v:54,2,0,cet6 ky,2500,4000,d:perceived/p:perceived/3:perceives/i:perceiving/0:perceive,,\n";

/// A store that keeps the first entry of a word, and the first lemma of a form.
struct Store {
    entries: Vec<Entry>,
    forms: Vec<(String, String)>,
}

impl Store {
    fn new() -> Store {
        Store { entries: vec![], forms: vec![] }
    }

    fn fill(&mut self, entries: Vec<Entry>) -> u64 {
        let mut n = 0;
        for e in entries {
            let known = self.entries.iter().any(|k| k.word == e.word);
            let (new, forms) = e.stored(if known { 0 } else { 1 });
            for f in &forms {
                if !self.forms.iter().any(|(k, _)| k == f) {
                    self.forms.push((f.clone(), e.word.clone()));
                }
            }
            if !known {
                self.entries.push(e);
            }
            n += new;
        }
        n
    }

    fn mini() -> Store {
        let mut s = Store::new();
        s.fill(import_csv(MINI.as_bytes()).entries);
        s
    }

    fn entry(&self, word: &str) -> Option<&Entry> {
        self.entries.iter().find(|e| e.word == word)
    }
}

impl DictProvider for Store {
    fn lookup(&self, word: &str) -> Option<WordCard> {
        let (mut l, mut step) = Lookup::start(word);
        loop {
            step = match step {
                LookupStep::Entry(w) => l.next(LookupReply::Entry(
                    self.entries.iter().find(|e| e.word.eq_ignore_ascii_case(&w)).map(card_of),
                )),
                LookupStep::Lemma(f) => l.next(LookupReply::Lemma(
                    self.forms.iter().find(|(k, _)| *k == f).map(|(_, w)| w.clone()),
                )),
                LookupStep::Done(card) => return card,
            };
        }
    }

    fn suggest(&self, word: &str) -> Vec<String> {
        let prefix = suggestion_prefix(word);
        let near: Vec<String> = self
            .entries
            .iter()
            .map(|e| e.word.clone())
            .filter(|w| w.starts_with(&prefix))
            .collect();
        rank_suggestions(word, &near)
    }
}

#[test]
fn imports_rows_and_builds_wordforms() {
    let mut s = Store::new();
    let import = import_csv(MINI.as_bytes());
    assert!(import.error.is_none());
    assert_eq!(s.fill(import.entries), 7);
    let e = s.entry("run").unwrap();
    assert_eq!(e.word, "run");
    assert!(pos_line(&e.pos).contains("\"n.\""));
    let lemma = |f: &str| s.forms.iter().find(|(k, _)| k == f).map(|(_, w)| w.clone());
    assert_eq!(lemma("gave").unwrap(), "give");
    assert_eq!(lemma("boxes").unwrap(), "box");
}

#[test]
fn import_is_idempotent() {
    let mut s = Store::new();
    s.fill(import_csv(MINI.as_bytes()).entries);
    assert_eq!(s.fill(import_csv(MINI.as_bytes()).entries), 0);
    assert_eq!(s.entries.len(), 7);
}

#[test]
fn perceive_row_columns_not_drifted() {
    let s = Store::mini();
    let e = s.entry("perceive").unwrap();
    assert_eq!(e.collins, Some(2));
    assert_eq!(e.tags, "cet6 ky");
    let ex = exchange_line(e.exchange.as_ref().unwrap());
    assert!(ex.contains("\"third\":\"perceives\""));
    assert_eq!(s.entry("give up").unwrap().definition, "surrender");
}

fn official_rows() -> Vec<Vec<Cell>> {
    let t = |s: &str| Cell::Text(s.into());
    let row = |w: &str, ph: &str, de: &str, tr: &str, pos: &str, c: i64, o: i64, tag: &str, b: i64, f: i64, ex: &str| {
        vec![
            t(w),
            t(ph),
            t(de),
            t(tr),
            t(pos),
            Cell::Integer(c),
            Cell::Integer(o),
            t(tag),
            Cell::Integer(b),
            Cell::Integer(f),
            t(ex),
            Cell::Null,
            Cell::Null,
        ]
    };
    vec![
        row(
            "run",
            "rʌn",
            "move fast\noperate",
            "n. 跑步\nv. 跑；运转",
            "n:46/v:54",
            3,
            1,
            "zk gk cet4",
            1234,
            567,
            "p:ran/d:run/i:running/3:runs/0:run",
        ),
        row("gave", "ɡeɪv", "", "", "", 0, 0, "", 0, 0, "0:give"),
        row(
            "give",
            "ɡɪv",
            "",
            "vt. 给予",
            "",
            3,
            1,
            "cet4",
            0,
            0,
            "d:given/p:gave/i:giving/3:gives/0:give",
        ),
        row("hello", "həˈləu", "", "int. 你好", "", 0, 0, "zk", 1234, 1, ""),
        row("give up", "", "surrender", "放弃；认输", "", 0, 0, "", 1234, 10, "0:give up"),
        row("box", "bɒks", "", "n. 盒子", "n:100", 1, 0, "zk", 998, 88, "s:boxes/0:box"),
        row(
            "perceive",
            "pəˈsiːv",
            "sense\nbecome aware of",
            "vt. 感知；察觉",
            "v:54",
            2,
            0,
            "cet6 ky",
            2500,
            4000,
            "d:perceived/p:perceived/3:perceives/i:perceiving/0:perceive",
        ),
    ]
}

#[test]
fn import_from_official_sqlite_layout() {
    let mut s = Store::new();
    let rows: Vec<Entry> = official_rows().iter().filter_map(database_row_to_entry).collect();
    assert_eq!(s.fill(rows), 7);
    let e = s.entry("run").unwrap();
    assert_eq!(e.word, "run");
    let pos = pos_line(&e.pos);
    assert!(pos.contains("\"n.\"") && pos.contains("\"v.\""));
    assert_eq!(e.collins, Some(3));
    let gave = s.forms.iter().find(|(k, _)| k == "gave").unwrap();
    assert_eq!(gave.1, "give");
    assert_eq!(s.entry("give up").unwrap().definition, "surrender");
}

#[test]
fn import_from_official_sqlite_is_idempotent() {
    let mut s = Store::new();
    let rows: Vec<Entry> = official_rows().iter().filter_map(database_row_to_entry).collect();
    s.fill(rows.clone());
    assert_eq!(s.fill(rows), 0);
    assert_eq!(s.entries.len(), 7);
}

#[test]
fn a_broken_record_ends_an_import() {
    let good: Vec<String> = run_row().iter().map(|s| s.to_string()).collect();
    let narrow = vec!["only".to_string()];
    let i = import_records(&vec![
        Record::Row(narrow),
        Record::Row(good.clone()),
        Record::Bad("broken".into()),
        Record::Row(good),
    ]);
    assert_eq!(i.entries.len(), 1);
    assert_eq!(i.error.as_deref(), Some("broken"));
    let i = import_csv(b"\xff,a\n");
    assert!(i.entries.is_empty());
    assert!(i.error.is_some());
}

#[test]
fn exact_lookup_case_insensitive() {
    let card: WordCard = Store::mini().lookup("Run").unwrap();
    assert_eq!(card.word, "run");
    assert!(card.found);
    assert_eq!(card.phonetic.unwrap().uk.unwrap(), "rʌn");
    assert_eq!(card.exchange.unwrap().past.unwrap(), "ran");
}

#[test]
fn phrase_lookup() {
    assert!(Store::mini().lookup("give up").is_some());
}

#[test]
fn lemma_fallback_boxes_to_box() {
    let card = Store::mini().lookup("boxes").unwrap();
    assert_eq!(card.word, "box");
}

#[test]
fn gave_hits_entry_with_empty_pos() {
    let card = Store::mini().lookup("gave").unwrap();
    assert_eq!(card.word, "gave");
    assert!(card.pos.is_empty());
}

#[test]
fn empty_phonetic_normalizes_to_none() {
    let card = Store::mini().lookup("give up").unwrap();
    assert!(card.phonetic.is_none());
}

#[test]
fn miss_returns_none() {
    assert!(Store::mini().lookup("nonexistentword").is_none());
}

#[test]
fn suggest_edit_distance() {
    let s = Store::mini().suggest("helo");
    assert!(s.contains(&"hello".to_string()), "got {s:?}");
    assert!(s.len() <= 5);
}

#[test]
fn the_form_is_asked_for_in_small_letters() {
    let (mut l, step) = Lookup::start("BOXES");
    assert_eq!(step, LookupStep::Entry("BOXES".into()));
    assert_eq!(l.next(LookupReply::Entry(None)), LookupStep::Lemma("boxes".into()));
    assert_eq!(l.next(LookupReply::Lemma(Some("box".into()))), LookupStep::Entry("box".into()));
    assert_eq!(l.next(LookupReply::Entry(None)), LookupStep::Done(None));
}

#[test]
fn distances() {
    assert_eq!(levenshtein("helo", "hello"), 1);
    assert_eq!(levenshtein("kitten", "sitting"), 3);
    assert_eq!(levenshtein("", "abc"), 3);
    assert_eq!(levenshtein("你好", "你们好"), 1);
    assert_eq!(levenshtein("sitting", "kitten"), levenshtein("kitten", "sitting"));
    assert_eq!(levenshtein("same", "same"), 0);
    assert!(
        levenshtein("kitten", "sitting")
            <= levenshtein("kitten", "mitten") + levenshtein("mitten", "sitting")
    );
    assert_eq!(levenshtein("unkittened", "unsittinged"), levenshtein("kitten", "sitting"));
}

#[test]
fn suggestions_are_near_first_and_five_at_most() {
    let words: Vec<String> = ["abcd", "abd", "abc", "abx", "abcde", "abxyz", "ab", "abce"]
        .iter()
        .map(|s| s.to_string())
        .collect();
    assert_eq!(
        rank_suggestions("abc", &words),
        vec!["abc", "abcd", "abd", "abx", "ab"]
    );
    let few: Vec<String> = ["abcde", "abxyz", "abd"].iter().map(|s| s.to_string()).collect();
    assert_eq!(rank_suggestions("abc", &few), vec!["abd", "abcde"]);
    assert_eq!(suggestion_prefix("你好吗"), "你好");
}

#[test]
fn lookup_en_uses_ecdict_and_fills_suggestions_on_miss() {
    let en = Store::mini();
    let zh = Chinese { rows: mini_chinese() };
    let card = lookup("run", &en, &zh);
    assert!(card.found);
    assert_eq!(card.source, "ecdict");
    let card = lookup("helo", &en, &zh);
    assert!(!card.found);
    assert!(card.suggestions.contains(&"hello".to_string()), "got {:?}", card.suggestions);
}

#[test]
fn lookup_zh_uses_cedict() {
    let card = lookup("你好", &Store::mini(), &Chinese { rows: mini_chinese() });
    assert!(card.found);
    assert_eq!(card.source, "cedict");
}

#[test]
fn lookup_hit_exit0_matches_golden() {
    let card = lookup("run", &Store::mini(), &Chinese { rows: vec![] });
    assert_eq!(
        card_line(&card),
        "{\"found\":true,\"word\":\"run\",\"phonetic\":{\"uk\":\"rʌn\"},\"pos\":[{\"pos\":\"n.\",\"gloss\":[\"跑步\"]},{\"pos\":\"v.\",\"gloss\":[\"跑\",\"运转\"]}],\"definition\":[\"move fast\",\"operate\"],\"exchange\":{\"past\":\"ran\",\"pp\":\"run\",\"ing\":\"running\",\"third\":\"runs\",\"lemma\":\"run\"},\"collins\":3,\"oxford\":true,\"tags\":[\"zk\",\"gk\",\"cet4\"],\"source\":\"ecdict\"}"
    );
    assert_eq!(pardon::cli::lookup_code(card.found), 0);
}

#[test]
fn lookup_miss_exit1_with_suggestions() {
    let card = lookup("helo", &Store::mini(), &Chinese { rows: vec![] });
    let line = card_line(&card);
    assert!(line.contains("\"found\":false"), "{line}");
    assert!(line.contains("\"suggestions\":[\"hello\"]"), "{line}");
    assert_eq!(pardon::cli::lookup_code(card.found), 1);
}

#[test]
fn parse_valid_line() {
    let (simp, trad, py, glosses) = parse_line("你好 你好 ni3 hao3 you (informal)/hello").unwrap();
    assert_eq!((simp.as_str(), trad.as_str(), py.as_str()), ("你好", "你好", "ni3 hao3"));
    assert_eq!(glosses, vec!["you (informal)", "hello"]);
}

#[test]
fn parse_skips_comments_and_blank() {
    assert!(parse_line("# comment").is_none());
    assert!(parse_line("").is_none());
}

#[test]
fn the_published_format_is_read_too() {
    let (simp, trad, py, glosses) = parse_line("中國 中国 [Zhong1 guo2] /China/Middle Kingdom/").unwrap();
    assert_eq!((simp.as_str(), trad.as_str(), py.as_str()), ("中国", "中國", "Zhong1 guo2"));
    assert_eq!(glosses, vec!["China", "Middle Kingdom"]);
    assert!(parse_line("你好 你好 you").is_none());
    assert!(parse_line("你好").is_none());
}

#[test]
fn pinyin_tone_marks() {
    assert_eq!(pinyin_display("ni3 hao3"), "nǐ hǎo");
    assert_eq!(pinyin_display("Zhong1 guo2"), "Zhōng guó");
    assert_eq!(pinyin_display("fan1 yi4"), "fān yì");
    assert_eq!(pinyin_display("lv4"), "lǜ");
    assert_eq!(pinyin_display("fei1 chang2 hao3"), "fēi cháng hǎo");
}

#[test]
fn tones_and_their_places() {
    assert_eq!(pinyin_display("gou3 dui4 liu2"), "gǒu duì liú");
    assert_eq!(pinyin_display("ma5 An1 de"), "ma Ān de");
    assert_eq!(pinyin_display("love"), "love");
    assert_eq!(pinyin_display("Ou1 zhou1"), "Ōu zhōu");
    assert_eq!(pinyin_display("OU3 nv3"), "ǑU nǚ");
    assert!(can_display("ni3 hao3"));
    assert!(!can_display("3"));
}

fn mini_chinese() -> Vec<CedictRow> {
    let lines: Vec<String> = [
        "# CC-CEDICT",
        "你好 你好 [ni3 hao3] /you (informal)/hello/",
        "中國 中国 [Zhong1 guo2] /China/",
        "翻譯 翻译 [fan1 yi4] /to translate/",
        "綠 绿 [lv4] /green/",
        "非常好 非常好 [fei1 chang2 hao3] /very good/",
    ]
    .iter()
    .map(|s| s.to_string())
    .collect();
    import_lines(&lines).unwrap()
}

struct Chinese {
    rows: Vec<CedictRow>,
}

impl DictProvider for Chinese {
    fn lookup(&self, word: &str) -> Option<WordCard> {
        let row = self.rows.iter().find(|r| r.simplified == word)?;
        assert!(can_display(&row.pinyin));
        Some(card_from_row(word, &row.pinyin, &row.glosses))
    }

    fn suggest(&self, _: &str) -> Vec<String> {
        vec![]
    }
}

#[test]
fn lookup_zh_entry() {
    let db = Chinese { rows: mini_chinese() };
    let card = db.lookup("你好").unwrap();
    assert_eq!(card.word, "你好");
    assert_eq!(card.phonetic.clone().unwrap().uk.unwrap(), "nǐ hǎo");
    assert!(card.pos[0].gloss.contains(&"hello".to_string()));
    assert_eq!(card.source, "cedict");
    assert!(db.lookup("非常好").is_some());
    assert!(db.lookup("不存在的词组xyz").is_none());
    assert_eq!(
        card_line(&card),
        "{\"found\":true,\"word\":\"你好\",\"phonetic\":{\"uk\":\"nǐ hǎo\"},\"pos\":[{\"pos\":\"\",\"gloss\":[\"you (informal)\",\"hello\"]}],\"oxford\":false,\"source\":\"cedict\"}"
    );
}

#[test]
fn import_to_path_then_open_roundtrip() {
    let rows = mini_chinese();
    assert_eq!(rows.len(), 5);
    let db = Chinese { rows };
    let card = db.lookup("绿").unwrap();
    assert_eq!(card.phonetic.unwrap().uk.unwrap(), "lǜ");
    assert_eq!(card.pos[0].gloss, vec!["green"]);
    assert!(db.lookup("翻译").is_some());
    assert!(db.lookup("中国").is_some());
}

#[test]
fn glosses_are_stored_as_a_list_and_read_back() {
    let rows = import_lines(&vec!["a b c1 say \"x\"/y".to_string()]).unwrap();
    assert_eq!(rows[0].glosses, "[\"say \\\"x\\\"\",\"y\"]");
    let card = card_from_row("b", "c1", &rows[0].glosses);
    assert_eq!(card.pos[0].gloss, vec!["say \"x\"", "y"]);
    let card = card_from_row("b", "ba1", "not a list");
    assert!(card.pos[0].gloss.is_empty());
    assert_eq!(
        import_lines(&vec!["# nothing".to_string()]).unwrap_err(),
        "no cedict entries parsed"
    );
}
