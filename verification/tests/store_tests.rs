use popup_dictionary::DictError;
use popup_dictionary::Dictionary;
use popup_dictionary::DictionaryEntry;
use popup_dictionary::DictionaryMeaning;
use popup_dictionary::DictionaryTerm;
use popup_dictionary::Furigana;
use popup_dictionary::decode_entry;
use popup_dictionary::encode_entry;

fn term(
    id: &str,
    frequency: Option<u32>,
    common: bool,
    t: &str,
    reading: &str,
) -> DictionaryTerm {
    DictionaryTerm {
        id: id.to_string(),
        frequency,
        common,
        term: t.to_string(),
        reading: reading.to_string(),
        furigana: None,
        meanings: vec![DictionaryMeaning {
            tags: vec!["noun".to_string()],
            info: vec![],
            gloss: vec!["a meaning".to_string()],
        }],
    }
}

#[test]
fn round_trip_plain_entry() {
    let entry = DictionaryEntry {
        terms: vec![term("1000", Some(3), true, "猫", "ねこ")],
    };
    let bytes = encode_entry(&entry);
    let back = decode_entry(&bytes).expect("a fresh encoding must decode");
    assert_eq!(back.terms.len(), 1);
    assert_eq!(back.terms[0].id, "1000");
    assert_eq!(back.terms[0].frequency, Some(3));
    assert!(back.terms[0].common);
    assert_eq!(back.terms[0].term, "猫");
    assert_eq!(back.terms[0].reading, "ねこ");
    assert_eq!(back.terms[0].meanings.len(), 1);
    assert_eq!(back.terms[0].meanings[0].tags, vec!["noun".to_string()]);
    assert_eq!(back.terms[0].meanings[0].gloss, vec!["a meaning".to_string()]);
}

#[test]
fn round_trip_full_entry() {
    let entry = DictionaryEntry {
        terms: vec![
            DictionaryTerm {
                id: "42".to_string(),
                frequency: None,
                common: false,
                term: "食べ物".to_string(),
                reading: "たべもの".to_string(),
                furigana: Some(vec![
                    Furigana {
                        ruby: "食".to_string(),
                        rt: Some("た".to_string()),
                    },
                    Furigana {
                        ruby: "べ".to_string(),
                        rt: None,
                    },
                    Furigana {
                        ruby: "物".to_string(),
                        rt: Some("もの".to_string()),
                    },
                ]),
                meanings: vec![
                    DictionaryMeaning {
                        tags: vec!["noun".to_string(), "suffix".to_string()],
                        info: vec!["note".to_string()],
                        gloss: vec!["food".to_string(), "foodstuff".to_string()],
                    },
                    DictionaryMeaning {
                        tags: vec![],
                        info: vec![],
                        gloss: vec![],
                    },
                ],
            },
            term("43", Some(0), true, "", "よみ"),
        ],
    };
    let bytes = encode_entry(&entry);
    let back = decode_entry(&bytes).expect("a fresh encoding must decode");
    assert_eq!(back.terms.len(), 2);
    let t0 = &back.terms[0];
    assert_eq!(t0.id, "42");
    assert_eq!(t0.frequency, None);
    assert!(!t0.common);
    assert_eq!(t0.term, "食べ物");
    assert_eq!(t0.reading, "たべもの");
    let furi = t0.furigana.as_ref().expect("furigana kept");
    assert_eq!(furi.len(), 3);
    assert_eq!(furi[0].ruby, "食");
    assert_eq!(furi[0].rt.as_deref(), Some("た"));
    assert_eq!(furi[1].ruby, "べ");
    assert_eq!(furi[1].rt, None);
    assert_eq!(t0.meanings.len(), 2);
    assert_eq!(t0.meanings[0].gloss, vec!["food".to_string(), "foodstuff".to_string()]);
    assert_eq!(back.terms[1].term, "");
    assert_eq!(back.terms[1].reading, "よみ");
}

#[test]
fn decode_rejects_garbage() {
    assert!(decode_entry(&vec![]).is_none());
    assert!(decode_entry(&vec![0xff; 3]).is_none());
    // a count field promising more terms than the bytes hold
    assert!(decode_entry(&vec![9, 0, 0, 0, 0, 0, 0, 0]).is_none());
}

#[test]
fn decode_rejects_truncated_encoding() {
    let entry = DictionaryEntry {
        terms: vec![term("7", Some(1), true, "水", "みず")],
    };
    let mut bytes = encode_entry(&entry);
    bytes.pop();
    assert!(decode_entry(&bytes).is_none());
}

#[test]
fn lookup_misses_on_empty_store() {
    let dict = Dictionary::open_temporary().expect("temporary store");
    assert!(dict.lookup("猫").expect("lookup works").is_none());
}

#[test]
fn insert_then_lookup_by_term_key() {
    let mut dict = Dictionary::open_temporary().expect("temporary store");
    dict.insert_term_keyed("猫", term("1", Some(5), true, "猫", "ねこ"))
        .expect("insert works");
    let entry = dict.lookup("猫").expect("lookup works").expect("hit");
    assert_eq!(entry.terms.len(), 1);
    assert_eq!(entry.terms[0].reading, "ねこ");
}

#[test]
fn reading_string_never_answers_for_a_term_key() {
    // the store knows 猫 as a written form only: a lookup of the reading
    // string must come back empty rather than guess
    let mut dict = Dictionary::open_temporary().expect("temporary store");
    dict.insert_term_keyed("猫", term("1", Some(5), true, "猫", "ねこ"))
        .expect("insert works");
    assert!(dict.lookup("ねこ").expect("lookup works").is_none());
    assert!(dict.lookup("猫").expect("lookup works").is_some());
}

#[test]
fn reading_key_found_via_lookup() {
    let mut dict = Dictionary::open_temporary().expect("temporary store");
    dict.insert_reading_keyed("ねこ", term("1", Some(5), true, "猫", "ねこ"))
        .expect("insert works");
    assert!(dict.lookup("ねこ").expect("lookup works").is_some());
    assert!(dict.lookup("猫").expect("lookup works").is_none());
}

#[test]
fn ranked_common_insert_precedes_higher_rank() {
    // inserting rank 5 then rank 2 into one key: the rank-2 term must
    // come first without any re-sort
    let mut dict = Dictionary::open_temporary().expect("temporary store");
    dict.insert_term_keyed("語", term("a", Some(5), true, "語", "ご"))
        .expect("insert works");
    dict.insert_term_keyed("語", term("b", Some(2), true, "語", "ご"))
        .expect("insert works");
    let entry = dict.lookup("語").expect("lookup works").expect("hit");
    assert_eq!(entry.terms.len(), 2);
    assert_eq!(entry.terms[0].id, "b");
    assert_eq!(entry.terms[0].frequency, Some(2));
    assert_eq!(entry.terms[1].id, "a");
    assert_eq!(entry.terms[1].frequency, Some(5));
}

#[test]
fn bucket_order_maintained_across_inserts() {
    let mut dict = Dictionary::open_temporary().expect("temporary store");
    let inserts = [
        ("u_nofreq", None, false),
        ("c_freq9", Some(9), true),
        ("u_freq4", Some(4), false),
        ("c_nofreq", None, true),
        ("c_freq1", Some(1), true),
        ("u_freq7", Some(7), false),
        ("c_nofreq2", None, true),
        ("u_nofreq2", None, false),
    ];
    for (id, freq, common) in inserts {
        dict.insert_term_keyed("詞", term(id, freq, common, "詞", "し"))
            .expect("insert works");
    }
    let entry = dict.lookup("詞").expect("lookup works").expect("hit");
    let ids: Vec<&str> = entry.terms.iter().map(|t| t.id.as_str()).collect();
    assert_eq!(
        ids,
        vec![
            "c_freq1", "c_freq9",  // common ranked, ascending
            "c_nofreq", "c_nofreq2",  // common unranked, insertion order
            "u_freq4", "u_freq7",  // uncommon ranked, ascending
            "u_nofreq", "u_nofreq2",  // uncommon unranked, insertion order
        ]
    );
}

#[test]
fn equal_ranks_keep_insertion_order() {
    let mut dict = Dictionary::open_temporary().expect("temporary store");
    dict.insert_term_keyed("同", term("first", Some(3), true, "同", "どう"))
        .expect("insert works");
    dict.insert_term_keyed("同", term("second", Some(3), true, "同", "どう"))
        .expect("insert works");
    let entry = dict.lookup("同").expect("lookup works").expect("hit");
    assert_eq!(entry.terms[0].id, "first");
    assert_eq!(entry.terms[1].id, "second");
}

#[test]
fn sentinel_round_trip() {
    let mut dict = Dictionary::open_temporary().expect("temporary store");
    assert!(!dict.has_sentinel().expect("sentinel check works"));
    dict.write_sentinel().expect("sentinel write works");
    assert!(dict.has_sentinel().expect("sentinel check works"));
    dict.clear().expect("clear works");
    assert!(!dict.has_sentinel().expect("sentinel check works"));
}

#[test]
fn dict_error_values_are_distinct() {
    assert_ne!(DictError::Storage, DictError::Corrupt);
}
