use popup_dictionary::Dictionary;
use popup_dictionary::Furigana;
use popup_dictionary::FuriganaEntry;
use popup_dictionary::Gloss;
use popup_dictionary::Kana;
use popup_dictionary::Kanji;
use popup_dictionary::LexiconSource;
use popup_dictionary::Sense;
use popup_dictionary::Word;
use popup_dictionary::ensure_populated;
use popup_dictionary::populate;

fn sense(pos: &[&str], misc: &[&str], kanji: &[&str], kana: &[&str], gloss: &[&str]) -> Sense {
    Sense {
        part_of_speech: pos.iter().map(|s| s.to_string()).collect(),
        misc: misc.iter().map(|s| s.to_string()).collect(),
        info: vec![],
        applies_to_kanji: kanji.iter().map(|s| s.to_string()).collect(),
        applies_to_kana: kana.iter().map(|s| s.to_string()).collect(),
        gloss: gloss
            .iter()
            .map(|s| Gloss { text: s.to_string() })
            .collect(),
    }
}

fn cat_source() -> LexiconSource {
    LexiconSource {
        words: vec![Word {
            id: "1".to_string(),
            kanji: vec![Kanji {
                common: true,
                text: "猫".to_string(),
            }],
            kana: vec![Kana {
                common: true,
                text: "ねこ".to_string(),
                applies_to_kanji: vec!["*".to_string()],
            }],
            sense: vec![sense(&["n"], &["uk"], &["*"], &["*"], &["cat"])],
        }],
        tags: vec![(
            "uk".to_string(),
            "word usually written using kana alone".to_string(),
        )],
        frequency_lines: vec!["犬".to_string(), "猫".to_string()],
        furigana: vec![FuriganaEntry {
            text: "猫".to_string(),
            reading: "ねこ".to_string(),
            furigana: vec![Furigana {
                ruby: "猫".to_string(),
                rt: Some("ねこ".to_string()),
            }],
        }],
    }
}

#[test]
fn build_writes_both_key_families() {
    let mut dict = Dictionary::open_temporary().expect("temporary store");
    populate(&mut dict, &cat_source()).expect("build works");
    let by_term = dict.lookup("猫").expect("lookup works").expect("term key");
    let by_reading = dict.lookup("ねこ").expect("lookup works").expect("reading key");
    assert_eq!(by_term.terms.len(), 1);
    assert_eq!(by_reading.terms.len(), 1);
    assert_eq!(by_term.terms[0].term, "猫");
    assert_eq!(by_term.terms[0].reading, "ねこ");
}

#[test]
fn build_normalizes_tags_and_expands_misc() {
    let mut dict = Dictionary::open_temporary().expect("temporary store");
    populate(&mut dict, &cat_source()).expect("build works");
    let entry = dict.lookup("猫").expect("lookup works").expect("hit");
    let meaning = &entry.terms[0].meanings[0];
    // "n" maps to the generic label "noun"; "uk" expands through the
    // source's tag table into the notes
    assert_eq!(meaning.tags, vec!["noun".to_string()]);
    assert_eq!(
        meaning.info,
        vec!["word usually written using kana alone".to_string()]
    );
    assert_eq!(meaning.gloss, vec!["cat".to_string()]);
}

#[test]
fn build_attaches_frequency_rank_and_furigana() {
    let mut dict = Dictionary::open_temporary().expect("temporary store");
    populate(&mut dict, &cat_source()).expect("build works");
    let entry = dict.lookup("猫").expect("lookup works").expect("hit");
    // 猫 is the second line of the corpus: rank 1
    assert_eq!(entry.terms[0].frequency, Some(1));
    let furi = entry.terms[0].furigana.as_ref().expect("furigana attached");
    assert_eq!(furi[0].ruby, "猫");
    assert_eq!(furi[0].rt.as_deref(), Some("ねこ"));
}

#[test]
fn term_rank_falls_back_to_reading_rank() {
    let mut src = cat_source();
    src.frequency_lines = vec!["ねこ".to_string()];
    let mut dict = Dictionary::open_temporary().expect("temporary store");
    populate(&mut dict, &src).expect("build works");
    let entry = dict.lookup("猫").expect("lookup works").expect("hit");
    assert_eq!(entry.terms[0].frequency, Some(0));
}

#[test]
fn unranked_word_stays_unranked() {
    let mut src = cat_source();
    src.frequency_lines = vec![];
    let mut dict = Dictionary::open_temporary().expect("temporary store");
    populate(&mut dict, &src).expect("build works");
    let entry = dict.lookup("猫").expect("lookup works").expect("hit");
    assert_eq!(entry.terms[0].frequency, None);
}

#[test]
fn kana_with_empty_applicability_gets_reading_only_entry() {
    let src = LexiconSource {
        words: vec![Word {
            id: "2".to_string(),
            kanji: vec![Kanji {
                common: false,
                text: "彼方".to_string(),
            }],
            kana: vec![
                Kana {
                    common: false,
                    text: "かなた".to_string(),
                    applies_to_kanji: vec!["*".to_string()],
                },
                Kana {
                    common: false,
                    text: "あっち".to_string(),
                    applies_to_kanji: vec![],
                },
            ],
            sense: vec![sense(&["pn"], &[], &["*"], &["*"], &["over there"])],
        }],
        tags: vec![],
        frequency_lines: vec![],
        furigana: vec![],
    };
    let mut dict = Dictionary::open_temporary().expect("temporary store");
    populate(&mut dict, &src).expect("build works");
    let lone = dict.lookup("あっち").expect("lookup works").expect("reading-only entry");
    assert_eq!(lone.terms[0].term, "");
    assert_eq!(lone.terms[0].reading, "あっち");
    // and the applicable kana still pairs with the written form
    let paired = dict.lookup("かなた").expect("lookup works").expect("paired entry");
    assert_eq!(paired.terms[0].term, "彼方");
}

#[test]
fn headword_without_written_forms_inserts_readings_alone() {
    let src = LexiconSource {
        words: vec![Word {
            id: "3".to_string(),
            kanji: vec![],
            kana: vec![Kana {
                common: true,
                text: "あれ".to_string(),
                applies_to_kanji: vec![],
            }],
            sense: vec![sense(&["pn"], &[], &[], &["*"], &["that"])],
        }],
        tags: vec![],
        frequency_lines: vec![],
        furigana: vec![],
    };
    let mut dict = Dictionary::open_temporary().expect("temporary store");
    populate(&mut dict, &src).expect("build works");
    let entry = dict.lookup("あれ").expect("lookup works").expect("hit");
    assert_eq!(entry.terms[0].term, "");
    assert_eq!(entry.terms[0].meanings[0].gloss, vec!["that".to_string()]);
}

#[test]
fn senses_filter_by_written_form_applicability() {
    let src = LexiconSource {
        words: vec![Word {
            id: "4".to_string(),
            kanji: vec![
                Kanji {
                    common: true,
                    text: "開く".to_string(),
                },
                Kanji {
                    common: true,
                    text: "空く".to_string(),
                },
            ],
            kana: vec![Kana {
                common: true,
                text: "あく".to_string(),
                applies_to_kanji: vec!["*".to_string()],
            }],
            sense: vec![
                sense(&["v5k"], &[], &["開く"], &["*"], &["to open"]),
                sense(&["v5k"], &[], &["空く"], &["*"], &["to become vacant"]),
            ],
        }],
        tags: vec![],
        frequency_lines: vec![],
        furigana: vec![],
    };
    let mut dict = Dictionary::open_temporary().expect("temporary store");
    populate(&mut dict, &src).expect("build works");
    let open = dict.lookup("開く").expect("lookup works").expect("hit");
    assert_eq!(open.terms[0].meanings.len(), 1);
    assert_eq!(open.terms[0].meanings[0].gloss, vec!["to open".to_string()]);
    let vacant = dict.lookup("空く").expect("lookup works").expect("hit");
    assert_eq!(vacant.terms[0].meanings.len(), 1);
    assert_eq!(vacant.terms[0].meanings[0].gloss, vec!["to become vacant".to_string()]);
}

#[test]
fn populated_store_with_sentinel_is_left_untouched() {
    // the idempotent-build contract: a second run against a store that
    // carries the completion marker must not alter stored content
    let mut dict = Dictionary::open_temporary().expect("temporary store");
    ensure_populated(&mut dict, false, &cat_source()).expect("first build works");
    assert!(dict.has_sentinel().expect("sentinel check"));
    let before = dict.lookup("猫").expect("lookup works").expect("hit");

    // a different source would change entries if the build ran again
    let mut other = cat_source();
    other.words[0].sense = vec![sense(&["n"], &[], &["*"], &["*"], &["NOT THE CAT"])];
    ensure_populated(&mut dict, true, &other).expect("second run works");

    let after = dict.lookup("猫").expect("lookup works").expect("hit");
    assert_eq!(after.terms.len(), before.terms.len());
    assert_eq!(after.terms[0].meanings[0].gloss, vec!["cat".to_string()]);
}

#[test]
fn store_without_sentinel_is_cleared_and_rebuilt() {
    // the crash-recovery contract: data but no marker means the store is
    // rebuilt from scratch, identical to a from-empty build
    let mut crashed = Dictionary::open_temporary().expect("temporary store");
    // a partial build: some data, sentinel never written
    crashed
        .insert_term_keyed(
            "古い",
            popup_dictionary::DictionaryTerm {
                id: "junk".to_string(),
                frequency: None,
                common: false,
                term: "古い".to_string(),
                reading: "ふるい".to_string(),
                furigana: None,
                meanings: vec![],
            },
        )
        .expect("insert works");
    ensure_populated(&mut crashed, true, &cat_source()).expect("rebuild works");

    let mut fresh = Dictionary::open_temporary().expect("temporary store");
    ensure_populated(&mut fresh, false, &cat_source()).expect("fresh build works");

    // the partial data is gone and the rebuilt store answers as the
    // fresh one does
    assert!(crashed.lookup("古い").expect("lookup works").is_none());
    let a = crashed.lookup("猫").expect("lookup works").expect("hit");
    let b = fresh.lookup("猫").expect("lookup works").expect("hit");
    assert_eq!(a.terms.len(), b.terms.len());
    assert_eq!(a.terms[0].meanings[0].gloss, b.terms[0].meanings[0].gloss);
    assert!(crashed.has_sentinel().expect("sentinel check"));
}

#[test]
fn unmapped_part_of_speech_codes_are_dropped() {
    let mut src = cat_source();
    src.words[0].sense = vec![sense(&["n", "made-up-code"], &[], &["*"], &["*"], &["cat"])];
    let mut dict = Dictionary::open_temporary().expect("temporary store");
    populate(&mut dict, &src).expect("build works");
    let entry = dict.lookup("猫").expect("lookup works").expect("hit");
    assert_eq!(entry.terms[0].meanings[0].tags, vec!["noun".to_string()]);
}
