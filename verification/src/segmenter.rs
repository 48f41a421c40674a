use vstd::prelude::*;

use crate::token::string_push;
use crate::token::strings_view;
use crate::token::Token;
use crate::token::Validity;

verus! {

broadcast use vstd::seq::group_seq_axioms;

// ---------------------------------------------------------------------------
// The adapter from the external morphological segmenter: each raw unit
// arrives as a surface string, a comma-separated feature tag, and a flag
// saying the segmenter had to fall back to unknown-word handling. This
// module classifies the unit and extracts its lemma and conjugation form
// from the feature fields.
// ---------------------------------------------------------------------------
pub open spec fn spec_starts_with(s: Seq<char>, p: Seq<char>) -> bool {
    p.len() <= s.len() && s.subrange(0, p.len() as int) == p
}

fn starts_with_str(s: &str, p: &str) -> (r: bool)
    ensures
        r == spec_starts_with(s@, p@),
{
    let n = s.unicode_len();
    let m = p.unicode_len();
    if m > n {
        return false;
    }
    let mut i: usize = 0;
    while i < m
        invariant
            i <= m,
            m <= n,
            n as nat == s@.len(),
            m as nat == p@.len(),
            forall|k: int| 0 <= k < i ==> s@[k] == p@[k],
        decreases m - i,
    {
        if s.get_char(i) != p.get_char(i) {
            proof {
                assert(s@.subrange(0, p@.len() as int)[i as int] == s@[i as int]);
            }
            return false;
        }
        i = i + 1;
    }
    proof {
        assert(s@.subrange(0, p@.len() as int) =~= p@);
    }
    true
}

/// The comma-separated fields of a feature tag; an empty tag is one empty
/// field, as the splitting of strings has it.
pub open spec fn spec_split_acc(s: Seq<char>, cur: Seq<char>) -> Seq<Seq<char>>
    decreases s.len(),
{
    if s.len() == 0 {
        seq![cur]
    } else if s[0] == ',' {
        seq![cur] + spec_split_acc(s.drop_first(), Seq::empty())
    } else {
        spec_split_acc(s.drop_first(), cur.push(s[0]))
    }
}

pub open spec fn spec_fields(s: Seq<char>) -> Seq<Seq<char>> {
    spec_split_acc(s, Seq::empty())
}

/// The `n`-th comma-separated field, where the tag has one.
pub open spec fn spec_field(s: Seq<char>, n: int) -> Option<Seq<char>> {
    if 0 <= n < spec_fields(s).len() {
        Some(spec_fields(s)[n])
    } else {
        None
    }
}

fn split_commas(s: &str) -> (r: Vec<String>)
    ensures
        strings_view(r@) == spec_fields(s@),
{
    let n = s.unicode_len();
    let mut fields: Vec<String> = Vec::new();
    let mut cur = String::new();
    proof {
        assert(strings_view(fields@) =~= Seq::<Seq<char>>::empty());
        assert(s@.subrange(0, n as int) =~= s@);
        assert(Seq::<Seq<char>>::empty() + spec_split_acc(s@, Seq::empty()) =~= spec_split_acc(
            s@,
            Seq::empty(),
        ));
    }
    let mut i: usize = 0;
    while i < n
        invariant
            i <= n,
            n as nat == s@.len(),
            strings_view(fields@) + spec_split_acc(s@.subrange(i as int, n as int), cur@)
                == spec_fields(s@),
        decreases n - i,
    {
        let ghost pre = strings_view(fields@);
        let ghost sub = s@.subrange(i as int, n as int);
        proof {
            assert(sub[0] == s@[i as int]);
            assert(sub.drop_first() =~= s@.subrange(i as int + 1, n as int));
        }
        let c = s.get_char(i);
        if c == ',' {
            let ghost curv = cur@;
            fields.push(cur);
            cur = String::new();
            proof {
                assert(strings_view(fields@) =~= pre.push(curv));
                let rest = spec_split_acc(s@.subrange(i as int + 1, n as int), Seq::empty());
                assert(pre + (seq![curv] + rest) =~= pre.push(curv) + rest);
            }
        } else {
            string_push(&mut cur, c);
        }
        i = i + 1;
    }
    proof {
        assert(s@.subrange(n as int, n as int) =~= Seq::<char>::empty());
    }
    let ghost pre = strings_view(fields@);
    let ghost curv = cur@;
    fields.push(cur);
    proof {
        assert(strings_view(fields@) =~= pre.push(curv));
        assert(pre + seq![curv] =~= pre.push(curv));
    }
    fields
}

/// The validity class the segmenter's output assigns to one unit: unknown
/// lexicon fallback and special signs are non-lexical, particles are
/// certified function words, everything else awaits dictionary lookup.
pub open spec fn spec_classify(feature: Seq<char>, unknown_lex: bool) -> Validity {
    if unknown_lex {
        Validity::INVALID
    } else if spec_starts_with(feature, "\u{7279}\u{6b8a}"@) {
        Validity::INVALID
    } else if spec_starts_with(feature, "\u{52a9}\u{8a5e}"@) {
        Validity::VALID
    } else {
        Validity::UNKNOWN
    }
}

/// The lemma the feature tag carries in its fifth field, the surface where
/// it has none.
pub open spec fn spec_unit_lemma(feature: Seq<char>, surface: Seq<char>) -> Seq<char> {
    match spec_field(feature, 4) {
        Some(f) => f,
        None => surface,
    }
}

/// The conjugation form in the fourth field, the unmarked form otherwise.
pub open spec fn spec_unit_form(feature: Seq<char>) -> Seq<char> {
    match spec_field(feature, 3) {
        Some(f) => f,
        None => "*"@,
    }
}

/// Build the token for one raw segmenter unit: surface as given, lemma
/// and conjugation form from the feature fields, validity as classified.
pub fn classify_unit(surface: &str, feature: &str, unknown_lex: bool) -> (t: Token)
    ensures
        t@.input_word == surface@,
        t@.deinflected_word == spec_unit_lemma(feature@, surface@),
        t@.conjugations == seq![spec_unit_form(feature@)],
        t@.validity == spec_classify(feature@, unknown_lex),
{
    let validity = if unknown_lex {
        Validity::INVALID
    } else if starts_with_str(feature, "\u{7279}\u{6b8a}") {
        Validity::INVALID
    } else if starts_with_str(feature, "\u{52a9}\u{8a5e}") {
        Validity::VALID
    } else {
        Validity::UNKNOWN
    };
    let fields = split_commas(feature);
    let ghost fviews = spec_fields(feature@);
    let deinflected_word: String = if fields.len() > 4 {
        proof {
            assert(strings_view(fields@)[4] == fields@[4]@);
        }
        fields[4].clone()
    } else {
        surface.to_owned()
    };
    let form: String = if fields.len() > 3 {
        proof {
            assert(strings_view(fields@)[3] == fields@[3]@);
        }
        fields[3].clone()
    } else {
        String::from_str("*")
    };
    let mut conjugations: Vec<String> = Vec::new();
    let ghost formv = form@;
    conjugations.push(form);
    proof {
        assert(strings_view(conjugations@) =~= seq![formv]);
    }
    let t = Token { input_word: surface.to_owned(), deinflected_word, conjugations, validity };
    proof {
        assert(strings_view(fields@).len() == fields@.len());
    }
    t
}

} // verus!
