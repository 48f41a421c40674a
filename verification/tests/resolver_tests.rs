use popup_dictionary::Dictionary;
use popup_dictionary::DictionaryMeaning;
use popup_dictionary::DictionaryTerm;
use popup_dictionary::Token;
use popup_dictionary::Validity;

fn stored(id: &str, t: &str, reading: &str) -> DictionaryTerm {
    DictionaryTerm {
        id: id.to_string(),
        frequency: None,
        common: true,
        term: t.to_string(),
        reading: reading.to_string(),
        furigana: None,
        meanings: vec![DictionaryMeaning {
            tags: vec![],
            info: vec![],
            gloss: vec![id.to_string()],
        }],
    }
}

fn token(input: &str, deinflected: &str) -> Token {
    Token {
        input_word: input.to_string(),
        deinflected_word: deinflected.to_string(),
        conjugations: vec![],
        validity: Validity::UNKNOWN,
    }
}

#[test]
fn resolver_prefers_deinflected_word() {
    let mut dict = Dictionary::open_temporary().expect("temporary store");
    dict.insert_term_keyed("走る", stored("base", "走る", "はしる"))
        .expect("insert works");
    dict.insert_term_keyed("走った", stored("surface", "走った", "はしった"))
        .expect("insert works");
    let entry = dict
        .resolve_token(&token("走った", "走る"))
        .expect("resolve works")
        .expect("coverage");
    assert_eq!(entry.terms[0].id, "base");
}

#[test]
fn resolver_falls_back_to_input_word_and_stops() {
    // the lemma misses but the surface hits: the surface entry must come
    // back, and the truncated variants must never be consulted
    let mut dict = Dictionary::open_temporary().expect("temporary store");
    dict.insert_term_keyed("素敵だ", stored("surface", "素敵だ", "すてきだ"))
        .expect("insert works");
    // both truncated variants are present with distinctive entries
    dict.insert_term_keyed("素敵", stored("trunc-base", "素敵", "すてき"))
        .expect("insert works");
    dict.insert_term_keyed("素敵だっ", stored("trunc-surface", "素敵だっ", "すてきだっ"))
        .expect("insert works");
    let entry = dict
        .resolve_token(&token("素敵だ", "素敵な"))
        .expect("resolve works")
        .expect("coverage");
    assert_eq!(entry.terms[0].id, "surface");
}

#[test]
fn resolver_truncates_deinflected_before_input() {
    let mut dict = Dictionary::open_temporary().expect("temporary store");
    dict.insert_term_keyed("素敵", stored("trunc-base", "素敵", "すてき"))
        .expect("insert works");
    dict.insert_term_keyed("素敵だっ", stored("trunc-surface", "素敵だっ", "すてきだっ"))
        .expect("insert works");
    let entry = dict
        .resolve_token(&token("素敵だった", "素敵な"))
        .expect("resolve works")
        .expect("coverage");
    assert_eq!(entry.terms[0].id, "trunc-base");
}

#[test]
fn resolver_truncated_input_is_the_last_resort() {
    let mut dict = Dictionary::open_temporary().expect("temporary store");
    dict.insert_term_keyed("飲み", stored("trunc-surface", "飲み", "のみ"))
        .expect("insert works");
    let entry = dict
        .resolve_token(&token("飲みた", "飲む"))
        .expect("resolve works");
    // deinflected 飲む misses, input 飲みた misses, deinflected minus one
    // 飲 misses, input minus one 飲み hits
    assert_eq!(entry.expect("coverage").terms[0].id, "trunc-surface");
}

#[test]
fn resolver_no_coverage_is_not_an_error() {
    let dict = Dictionary::open_temporary().expect("temporary store");
    let r = dict.resolve_token(&token("ない", "ない"));
    assert!(r.expect("resolve works").is_none());
}

#[test]
fn resolver_consults_reading_keys_too() {
    let mut dict = Dictionary::open_temporary().expect("temporary store");
    dict.insert_reading_keyed("はしる", stored("reading", "走る", "はしる"))
        .expect("insert works");
    let entry = dict
        .resolve_token(&token("はしった", "はしる"))
        .expect("resolve works")
        .expect("coverage");
    assert_eq!(entry.terms[0].id, "reading");
}
