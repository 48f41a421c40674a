use popup_dictionary::Dictionary;
use popup_dictionary::ParsedWord;
use popup_dictionary::Plugins;
use popup_dictionary::Reading;
use popup_dictionary::Response;
use popup_dictionary::Validity;
use popup_dictionary::get_form;
use popup_dictionary::run;
use popup_dictionary::str_eq;

#[test]
fn run_strips_whitespace() {
    let s = run(" 今日 は\tいい\n天気 ").expect("non-empty input");
    assert_eq!(s, "今日はいい天気");
}

#[test]
fn run_rejects_whitespace_only_input() {
    let e = run(" \t\n ").expect_err("nothing left after cleaning");
    assert_eq!(e, "Input text must be at least one character.");
    let e2 = run("").expect_err("empty input");
    assert_eq!(e2, "Input text must be at least one character.");
}

#[test]
fn plugins_all_and_names() {
    let all = Plugins::all();
    assert_eq!(all.len(), 2);
    assert_eq!(all[0].name(), "jmdict+jumandic");
    assert_eq!(all[1].name(), "jotoba");
}

#[test]
fn get_form_maps_known_tags() {
    assert_eq!(get_form("*"), "*");
    assert_eq!(get_form("タ形"), "Past");
    assert_eq!(get_form("ダ列タ形"), "Past");
    assert_eq!(get_form("タ系連用テ形"), "Te-form");
    assert_eq!(get_form("命令形"), "Imperative");
    assert_eq!(get_form("基本条件形"), "");
}

#[test]
fn get_form_passes_unknown_tags_through() {
    assert_eq!(get_form("基本形"), "基本形");
}

#[test]
fn get_tag_describes_generic_labels() {
    assert_eq!(Dictionary::get_tag("noun"), "noun (common) (futsuumeishi)");
    assert_eq!(Dictionary::get_tag("godan"), "godan verb");
    assert_eq!(Dictionary::get_tag("no-such-label"), "unknown");
}

#[test]
fn str_eq_compares_by_characters() {
    assert!(str_eq("同じ", "同じ"));
    assert!(!str_eq("同じ", "違う"));
    assert!(!str_eq("同じ", "同"));
    assert!(str_eq("", ""));
}

fn response_with(count: usize) -> Response {
    let mut words = Vec::new();
    for i in 0..count {
        words.push(popup_dictionary::remote::Word {
            reading: Reading {
                kana: format!("かな{i}"),
                kanji: None,
            },
            senses: vec![],
        });
    }
    Response { words }
}

#[test]
fn unknown_word_becomes_valid_on_a_non_empty_response() {
    let mut w = ParsedWord::new(
        "食べた".to_string(),
        "食べる".to_string(),
        vec!["タ形".to_string()],
        Validity::UNKNOWN,
    );
    assert!(w.is_valid());
    let got = w.get_response(Some(response_with(1)));
    assert!(got.is_some());
    assert!(w.is_valid());
}

#[test]
fn unknown_word_becomes_invalid_on_an_empty_response() {
    let mut w = ParsedWord::new(
        "ｘｘ".to_string(),
        "ｘｘ".to_string(),
        vec![],
        Validity::UNKNOWN,
    );
    let got = w.get_response(Some(response_with(0)));
    assert!(got.is_none());
    assert!(!w.is_valid());
}

#[test]
fn unknown_word_becomes_invalid_on_a_failed_fetch() {
    let mut w = ParsedWord::new(
        "ｙｙ".to_string(),
        "ｙｙ".to_string(),
        vec![],
        Validity::UNKNOWN,
    );
    let got = w.get_response(None);
    assert!(got.is_none());
    assert!(!w.is_valid());
}

#[test]
fn invalid_word_never_answers() {
    let mut w = ParsedWord::new(
        "。".to_string(),
        "。".to_string(),
        vec![],
        Validity::INVALID,
    );
    let got = w.get_response(Some(response_with(3)));
    assert!(got.is_none());
    assert!(!w.is_valid());
}

#[test]
fn valid_word_answers_from_its_cache() {
    let mut w = ParsedWord::new(
        "走る".to_string(),
        "走る".to_string(),
        vec![],
        Validity::UNKNOWN,
    );
    let first = w.get_response(Some(response_with(2))).expect("cached").words.len();
    assert_eq!(first, 2);
    // once settled, a later (even empty) fetch result changes nothing
    let again = w.get_response(Some(response_with(0))).expect("still cached");
    assert_eq!(again.words.len(), 2);
}
