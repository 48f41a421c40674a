use popup_dictionary::Dictionary;
use popup_dictionary::DictionaryMeaning;
use popup_dictionary::DictionaryTerm;
use popup_dictionary::Token;
use popup_dictionary::Validity;
use popup_dictionary::classify_unit;
use popup_dictionary::improve_tokens;

fn stored(t: &str, reading: &str) -> DictionaryTerm {
    DictionaryTerm {
        id: "x".to_string(),
        frequency: None,
        common: true,
        term: t.to_string(),
        reading: reading.to_string(),
        furigana: None,
        meanings: vec![DictionaryMeaning {
            tags: vec![],
            info: vec![],
            gloss: vec!["gloss".to_string()],
        }],
    }
}

fn unit(surface: &str, lemma: &str, form: &str, validity: Validity) -> Token {
    Token {
        input_word: surface.to_string(),
        deinflected_word: lemma.to_string(),
        conjugations: vec![form.to_string()],
        validity,
    }
}

#[test]
fn surface_hit_merges_and_keeps_concatenated_lemma() {
    // the store knows the two-unit surface 食べたい but neither part:
    // one token comes out, with the concatenated lemma as its citation
    // form, exactly as the surface-hit branch has it
    let mut dict = Dictionary::open_temporary().expect("temporary store");
    dict.insert_term_keyed("食べたい", stored("食べたい", "たべたい"))
        .expect("insert works");
    let words = vec![
        unit("食べ", "食べる", "*", Validity::UNKNOWN),
        unit("たい", "たい", "*", Validity::UNKNOWN),
    ];
    let out = improve_tokens(&words, &dict).expect("merge works");
    assert_eq!(out.len(), 1);
    assert_eq!(out[0].input_word, "食べたい");
    assert_eq!(out[0].deinflected_word, "食べるたい");
    assert!(matches!(out[0].validity, Validity::UNKNOWN));
}

#[test]
fn longest_window_beats_shorter_window() {
    // both the two-unit and the three-unit span exist: the three-unit
    // merge must win
    let mut dict = Dictionary::open_temporary().expect("temporary store");
    dict.insert_term_keyed("ab", stored("ab", "ab"))
        .expect("insert works");
    dict.insert_term_keyed("abc", stored("abc", "abc"))
        .expect("insert works");
    let words = vec![
        unit("a", "a", "*", Validity::UNKNOWN),
        unit("b", "b", "*", Validity::UNKNOWN),
        unit("c", "c", "*", Validity::UNKNOWN),
    ];
    let out = improve_tokens(&words, &dict).expect("merge works");
    assert_eq!(out.len(), 1);
    assert_eq!(out[0].input_word, "abc");
}

#[test]
fn valid_unit_is_never_absorbed() {
    // a dictionary entry spans a certified function word: the merger must
    // not cross it, whatever the store holds
    let mut dict = Dictionary::open_temporary().expect("temporary store");
    dict.insert_term_keyed("ab", stored("ab", "ab"))
        .expect("insert works");
    let words = vec![
        unit("a", "a", "*", Validity::UNKNOWN),
        unit("b", "b", "*", Validity::VALID),
    ];
    let out = improve_tokens(&words, &dict).expect("merge works");
    assert_eq!(out.len(), 2);
    assert_eq!(out[0].input_word, "a");
    assert_eq!(out[1].input_word, "b");
    assert!(matches!(out[1].validity, Validity::VALID));
}

#[test]
fn valid_unit_at_cursor_emits_unchanged() {
    let mut dict = Dictionary::open_temporary().expect("temporary store");
    dict.insert_term_keyed("は", stored("は", "は"))
        .expect("insert works");
    let words = vec![unit("は", "は", "*", Validity::VALID)];
    let out = improve_tokens(&words, &dict).expect("merge works");
    assert_eq!(out.len(), 1);
    assert_eq!(out[0].input_word, "は");
    assert!(matches!(out[0].validity, Validity::VALID));
}

#[test]
fn lemma_hit_merges_on_concatenated_lemmas() {
    let mut dict = Dictionary::open_temporary().expect("temporary store");
    dict.insert_term_keyed("走るめる", stored("走るめる", "はしるめる"))
        .expect("insert works");
    let words = vec![
        unit("走り", "走る", "Past", Validity::UNKNOWN),
        unit("めた", "める", "Past", Validity::UNKNOWN),
    ];
    let out = improve_tokens(&words, &dict).expect("merge works");
    assert_eq!(out.len(), 1);
    assert_eq!(out[0].input_word, "走りめた");
    assert_eq!(out[0].deinflected_word, "走るめる");
}

#[test]
fn tail_variant_hit_adopts_tail_variant() {
    // only surface-of-head plus lemma-of-tail exists: the token adopts
    // that string as its citation form
    let mut dict = Dictionary::open_temporary().expect("temporary store");
    dict.insert_term_keyed("素敵だ", stored("素敵だ", "すてきだ"))
        .expect("insert works");
    let words = vec![
        unit("素敵", "素適", "*", Validity::UNKNOWN),
        unit("だった", "だ", "Past", Validity::UNKNOWN),
    ];
    let out = improve_tokens(&words, &dict).expect("merge works");
    assert_eq!(out.len(), 1);
    assert_eq!(out[0].input_word, "素敵だった");
    assert_eq!(out[0].deinflected_word, "素敵だ");
}

#[test]
fn no_coverage_leaves_units_unchanged() {
    let dict = Dictionary::open_temporary().expect("temporary store");
    let words = vec![
        unit("一", "一", "*", Validity::UNKNOWN),
        unit("二", "二", "Past", Validity::INVALID),
    ];
    let out = improve_tokens(&words, &dict).expect("merge works");
    assert_eq!(out.len(), 2);
    assert_eq!(out[0].input_word, "一");
    assert_eq!(out[0].deinflected_word, "一");
    assert_eq!(out[1].input_word, "二");
    assert!(matches!(out[1].validity, Validity::INVALID));
    assert_eq!(out[1].conjugations, vec!["Past".to_string()]);
}

#[test]
fn merged_conjugations_deduplicate_in_first_appearance_order() {
    let mut dict = Dictionary::open_temporary().expect("temporary store");
    dict.insert_term_keyed("xyz", stored("xyz", "xyz"))
        .expect("insert works");
    let mut a = unit("x", "x", "Past", Validity::UNKNOWN);
    a.conjugations.push("Te-form".to_string());
    let b = unit("y", "y", "Past", Validity::UNKNOWN);
    let c = unit("z", "z", "Volitional", Validity::UNKNOWN);
    let out = improve_tokens(&vec![a, b, c], &dict).expect("merge works");
    assert_eq!(out.len(), 1);
    assert_eq!(
        out[0].conjugations,
        vec!["Past".to_string(), "Te-form".to_string(), "Volitional".to_string()]
    );
}

#[test]
fn token_is_valid_only_invalid_is_false() {
    assert!(unit("a", "a", "*", Validity::VALID).is_valid());
    assert!(unit("a", "a", "*", Validity::UNKNOWN).is_valid());
    assert!(!unit("a", "a", "*", Validity::INVALID).is_valid());
}

#[test]
fn classify_unit_reads_feature_fields() {
    let t = classify_unit("食べた", "動詞,*,母音動詞,タ形,食べる,たべた,代表表記:食べる", false);
    assert_eq!(t.input_word, "食べた");
    assert_eq!(t.deinflected_word, "食べる");
    assert_eq!(t.conjugations, vec!["タ形".to_string()]);
    assert!(matches!(t.validity, Validity::UNKNOWN));
}

#[test]
fn classify_unit_marks_particles_valid() {
    let t = classify_unit("は", "助詞,副助詞,*,*,は,は,*", false);
    assert!(matches!(t.validity, Validity::VALID));
}

#[test]
fn classify_unit_marks_special_signs_invalid() {
    let t = classify_unit("。", "特殊,句点,*,*,。,。,*", false);
    assert!(matches!(t.validity, Validity::INVALID));
}

#[test]
fn classify_unit_marks_unknown_lexicon_units_invalid() {
    let t = classify_unit("Δ", "名詞,普通名詞,*,*,Δ,Δ,*", true);
    assert!(matches!(t.validity, Validity::INVALID));
}

#[test]
fn classify_unit_short_feature_falls_back() {
    let t = classify_unit("あ", "感動詞", false);
    assert_eq!(t.deinflected_word, "あ");
    assert_eq!(t.conjugations, vec!["*".to_string()]);
}

#[test]
fn window_ceiling_allows_a_thirty_seven_unit_merge() {
    let mut dict = Dictionary::open_temporary().expect("temporary store");
    let long: String = std::iter::repeat('a').take(37).collect();
    dict.insert_term_keyed(&long, stored(&long, &long))
        .expect("insert works");
    let words: Vec<Token> = (0..37).map(|_| unit("a", "a", "*", Validity::UNKNOWN)).collect();
    let out = improve_tokens(&words, &dict).expect("merge works");
    assert_eq!(out.len(), 1);
    assert_eq!(out[0].input_word, long);
}

#[test]
fn window_ceiling_stops_a_thirty_eight_unit_merge() {
    // a 38-unit headword is beyond the ceiling: the window is never even
    // attempted and the units pass through one by one
    let mut dict = Dictionary::open_temporary().expect("temporary store");
    let long: String = std::iter::repeat('a').take(38).collect();
    dict.insert_term_keyed(&long, stored(&long, &long))
        .expect("insert works");
    let words: Vec<Token> = (0..38).map(|_| unit("a", "a", "*", Validity::UNKNOWN)).collect();
    let out = improve_tokens(&words, &dict).expect("merge works");
    assert_eq!(out.len(), 38);
    assert_eq!(out[0].input_word, "a");
}
