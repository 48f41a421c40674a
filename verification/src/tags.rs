// Static tag tables of the lexicon builder: the mapping from source
// part-of-speech codes to generic category labels, and the descriptions
// shown for those labels.
use vstd::prelude::*;

use crate::token::str_eq;

verus! {

/// The generic category label for one source part-of-speech code, or
/// `None` for a code the table does not know.
pub open spec fn spec_generic_tag(t: Seq<char>) -> Option<Seq<char>> {
    if t == "unc"@ {
        Some("?"@)
    } else if t == "n"@ {
        Some("noun"@)
    } else if t == "exp"@ {
        Some("expression"@)
    } else if t == "adj-na"@ {
        Some("na-adj"@)
    } else if t == "adj-no"@ {
        Some("no-adj"@)
    } else if t == "adj-i"@ {
        Some("i-adj"@)
    } else if t == "v5u"@ {
        Some("godan"@)
    } else if t == "vt"@ {
        Some("transitive"@)
    } else if t == "pn"@ {
        Some("pronoun"@)
    } else if t == "adv"@ {
        Some("adverb"@)
    } else if t == "adv-to"@ {
        Some("to-adverb"@)
    } else if t == "vs"@ {
        Some("suru"@)
    } else if t == "adj-pn"@ {
        Some("pre-noun"@)
    } else if t == "int"@ {
        Some("interjection"@)
    } else if t == "v1"@ {
        Some("ichidan"@)
    } else if t == "vi"@ {
        Some("intransitive"@)
    } else if t == "v5s"@ {
        Some("godan"@)
    } else if t == "v5k"@ {
        Some("godan"@)
    } else if t == "v5r"@ {
        Some("godan"@)
    } else if t == "v5aru"@ {
        Some("godan"@)
    } else if t == "aux-v"@ {
        Some("aux-verb"@)
    } else if t == "adj-f"@ {
        Some("pre-adj"@)
    } else if t == "conj"@ {
        Some("conjunction"@)
    } else if t == "prt"@ {
        Some("particle"@)
    } else if t == "v5m"@ {
        Some("godan"@)
    } else if t == "n-suf"@ {
        Some("suffix"@)
    } else if t == "v5g"@ {
        Some("godan"@)
    } else if t == "v5r-i"@ {
        Some("godan"@)
    } else if t == "suf"@ {
        Some("suffix"@)
    } else if t == "vs-i"@ {
        Some("suru"@)
    } else if t == "adj-t"@ {
        Some("taru-adj"@)
    } else if t == "adj-ix"@ {
        Some("i-adj"@)
    } else if t == "aux"@ {
        Some("auxiliary"@)
    } else if t == "cop"@ {
        Some("copula"@)
    } else if t == "pref"@ {
        Some("prefix"@)
    } else if t == "vk"@ {
        Some("kuru-verb"@)
    } else if t == "aux-adj"@ {
        Some("aux-adj"@)
    } else if t == "n-pref"@ {
        Some("prefix"@)
    } else if t == "ctr"@ {
        Some("counter"@)
    } else if t == "num"@ {
        Some("numeric"@)
    } else if t == "vs-s"@ {
        Some("suru"@)
    } else if t == "adj-shiku"@ {
        Some("shiku-adj"@)
    } else if t == "v5t"@ {
        Some("godan"@)
    } else if t == "v5b"@ {
        Some("godan"@)
    } else if t == "v5k-s"@ {
        Some("godan"@)
    } else if t == "vz"@ {
        Some("ichidan"@)
    } else if t == "v2m-s"@ {
        Some("nidan-l"@)
    } else if t == "vs-c"@ {
        Some("su-verb"@)
    } else if t == "v1-s"@ {
        Some("ichidan"@)
    } else if t == "v5n"@ {
        Some("godan"@)
    } else if t == "vn"@ {
        Some("irregular"@)
    } else if t == "adj-ku"@ {
        Some("ku-adj"@)
    } else if t == "v2h-k"@ {
        Some("nidan-u"@)
    } else if t == "v2a-s"@ {
        Some("nidan"@)
    } else if t == "v4m"@ {
        Some("yodan"@)
    } else if t == "v2r-k"@ {
        Some("nidan-u"@)
    } else if t == "v4r"@ {
        Some("yodan"@)
    } else if t == "v2r-s"@ {
        Some("nidan-l"@)
    } else if t == "v5u-s"@ {
        Some("godan"@)
    } else if t == "vr"@ {
        Some("irregular"@)
    } else if t == "v4s"@ {
        Some("yodan"@)
    } else if t == "adj-nari"@ {
        Some("nari-adj"@)
    } else if t == "v4k"@ {
        Some("yodan"@)
    } else if t == "v2k-s"@ {
        Some("nidan-l"@)
    } else if t == "v2t-k"@ {
        Some("nidan-u"@)
    } else if t == "v4h"@ {
        Some("yodan"@)
    } else if t == "v4t"@ {
        Some("yodan"@)
    } else if t == "v4g"@ {
        Some("yodan"@)
    } else if t == "v2h-s"@ {
        Some("nidan-l"@)
    } else if t == "v2g-s"@ {
        Some("nidan-l"@)
    } else if t == "v4b"@ {
        Some("yodan"@)
    } else if t == "v2y-s"@ {
        Some("nidan-l"@)
    } else if t == "v2d-s"@ {
        Some("nidan-l"@)
    } else if t == "v2y-k"@ {
        Some("nidan-u"@)
    } else if t == "v2k-k"@ {
        Some("nidan-u"@)
    } else if t == "v2g-k"@ {
        Some("nidan-u"@)
    } else if t == "v2b-k"@ {
        Some("nidan-u"@)
    } else if t == "v2s-s"@ {
        Some("nidan-l"@)
    } else if t == "v2z-s"@ {
        Some("nidan-l"@)
    } else if t == "v2t-s"@ {
        Some("nidan-l"@)
    } else if t == "v2n-s"@ {
        Some("nidan-l"@)
    } else if t == "v2w-s"@ {
        Some("nidan-l"@)
    } else {
        None
    }
}

pub fn generic_tag(t: &str) -> (r: Option<&'static str>)
    ensures
        match r {
            Some(v) => spec_generic_tag(t@) == Some(v@),
            None => spec_generic_tag(t@) is None,
        },
{
    if str_eq(t, "unc") {
        Some("?")
    } else if str_eq(t, "n") {
        Some("noun")
    } else if str_eq(t, "exp") {
        Some("expression")
    } else if str_eq(t, "adj-na") {
        Some("na-adj")
    } else if str_eq(t, "adj-no") {
        Some("no-adj")
    } else if str_eq(t, "adj-i") {
        Some("i-adj")
    } else if str_eq(t, "v5u") {
        Some("godan")
    } else if str_eq(t, "vt") {
        Some("transitive")
    } else if str_eq(t, "pn") {
        Some("pronoun")
    } else if str_eq(t, "adv") {
        Some("adverb")
    } else if str_eq(t, "adv-to") {
        Some("to-adverb")
    } else if str_eq(t, "vs") {
        Some("suru")
    } else if str_eq(t, "adj-pn") {
        Some("pre-noun")
    } else if str_eq(t, "int") {
        Some("interjection")
    } else if str_eq(t, "v1") {
        Some("ichidan")
    } else if str_eq(t, "vi") {
        Some("intransitive")
    } else if str_eq(t, "v5s") {
        Some("godan")
    } else if str_eq(t, "v5k") {
        Some("godan")
    } else if str_eq(t, "v5r") {
        Some("godan")
    } else if str_eq(t, "v5aru") {
        Some("godan")
    } else if str_eq(t, "aux-v") {
        Some("aux-verb")
    } else if str_eq(t, "adj-f") {
        Some("pre-adj")
    } else if str_eq(t, "conj") {
        Some("conjunction")
    } else if str_eq(t, "prt") {
        Some("particle")
    } else if str_eq(t, "v5m") {
        Some("godan")
    } else if str_eq(t, "n-suf") {
        Some("suffix")
    } else if str_eq(t, "v5g") {
        Some("godan")
    } else if str_eq(t, "v5r-i") {
        Some("godan")
    } else if str_eq(t, "suf") {
        Some("suffix")
    } else if str_eq(t, "vs-i") {
        Some("suru")
    } else if str_eq(t, "adj-t") {
        Some("taru-adj")
    } else if str_eq(t, "adj-ix") {
        Some("i-adj")
    } else if str_eq(t, "aux") {
        Some("auxiliary")
    } else if str_eq(t, "cop") {
        Some("copula")
    } else if str_eq(t, "pref") {
        Some("prefix")
    } else if str_eq(t, "vk") {
        Some("kuru-verb")
    } else if str_eq(t, "aux-adj") {
        Some("aux-adj")
    } else if str_eq(t, "n-pref") {
        Some("prefix")
    } else if str_eq(t, "ctr") {
        Some("counter")
    } else if str_eq(t, "num") {
        Some("numeric")
    } else if str_eq(t, "vs-s") {
        Some("suru")
    } else if str_eq(t, "adj-shiku") {
        Some("shiku-adj")
    } else if str_eq(t, "v5t") {
        Some("godan")
    } else if str_eq(t, "v5b") {
        Some("godan")
    } else if str_eq(t, "v5k-s") {
        Some("godan")
    } else if str_eq(t, "vz") {
        Some("ichidan")
    } else if str_eq(t, "v2m-s") {
        Some("nidan-l")
    } else if str_eq(t, "vs-c") {
        Some("su-verb")
    } else if str_eq(t, "v1-s") {
        Some("ichidan")
    } else if str_eq(t, "v5n") {
        Some("godan")
    } else if str_eq(t, "vn") {
        Some("irregular")
    } else if str_eq(t, "adj-ku") {
        Some("ku-adj")
    } else if str_eq(t, "v2h-k") {
        Some("nidan-u")
    } else if str_eq(t, "v2a-s") {
        Some("nidan")
    } else if str_eq(t, "v4m") {
        Some("yodan")
    } else if str_eq(t, "v2r-k") {
        Some("nidan-u")
    } else if str_eq(t, "v4r") {
        Some("yodan")
    } else if str_eq(t, "v2r-s") {
        Some("nidan-l")
    } else if str_eq(t, "v5u-s") {
        Some("godan")
    } else if str_eq(t, "vr") {
        Some("irregular")
    } else if str_eq(t, "v4s") {
        Some("yodan")
    } else if str_eq(t, "adj-nari") {
        Some("nari-adj")
    } else if str_eq(t, "v4k") {
        Some("yodan")
    } else if str_eq(t, "v2k-s") {
        Some("nidan-l")
    } else if str_eq(t, "v2t-k") {
        Some("nidan-u")
    } else if str_eq(t, "v4h") {
        Some("yodan")
    } else if str_eq(t, "v4t") {
        Some("yodan")
    } else if str_eq(t, "v4g") {
        Some("yodan")
    } else if str_eq(t, "v2h-s") {
        Some("nidan-l")
    } else if str_eq(t, "v2g-s") {
        Some("nidan-l")
    } else if str_eq(t, "v4b") {
        Some("yodan")
    } else if str_eq(t, "v2y-s") {
        Some("nidan-l")
    } else if str_eq(t, "v2d-s") {
        Some("nidan-l")
    } else if str_eq(t, "v2y-k") {
        Some("nidan-u")
    } else if str_eq(t, "v2k-k") {
        Some("nidan-u")
    } else if str_eq(t, "v2g-k") {
        Some("nidan-u")
    } else if str_eq(t, "v2b-k") {
        Some("nidan-u")
    } else if str_eq(t, "v2s-s") {
        Some("nidan-l")
    } else if str_eq(t, "v2z-s") {
        Some("nidan-l")
    } else if str_eq(t, "v2t-s") {
        Some("nidan-l")
    } else if str_eq(t, "v2n-s") {
        Some("nidan-l")
    } else if str_eq(t, "v2w-s") {
        Some("nidan-l")
    } else {
        None
    }
}

/// The human-readable description of one generic category label,
/// "unknown" where there is none.
pub open spec fn spec_tag_description(t: Seq<char>) -> Seq<char> {
    match spec_tag_description_opt(t) {
        Some(d) => d,
        None => "unknown"@,
    }
}

pub open spec fn spec_tag_description_opt(t: Seq<char>) -> Option<Seq<char>> {
    if t == "?"@ {
        Some("unclassified"@)
    } else if t == "noun"@ {
        Some("noun (common) (futsuumeishi)"@)
    } else if t == "expression"@ {
        Some("expression (phrases, clauses, etc.)"@)
    } else if t == "na-adj"@ {
        Some("adjectival noun or quasi-adjective (keiyodoshi)"@)
    } else if t == "no-adj"@ {
        Some("noun which may take the genitive case particle 'no'"@)
    } else if t == "i-adj"@ {
        Some("adjective (keiyoushi)"@)
    } else if t == "godan"@ {
        Some("godan verb"@)
    } else if t == "transitive"@ {
        Some("transitive verb"@)
    } else if t == "pronoun"@ {
        Some("pronoun"@)
    } else if t == "adverb"@ {
        Some("adverb (fukushi)"@)
    } else if t == "to-adverb"@ {
        Some("adverb taking the 'to' particle"@)
    } else if t == "suru"@ {
        Some("noun or participle which takes the aux. verb suru"@)
    } else if t == "pre-noun"@ {
        Some("pre-noun adjectival (rentaishi)"@)
    } else if t == "interjection"@ {
        Some("interjection (kandoushi)"@)
    } else if t == "ichidan"@ {
        Some("ichidan verb"@)
    } else if t == "intransitive"@ {
        Some("intransitive verb"@)
    } else if t == "aux-verb"@ {
        Some("auxiliary verb"@)
    } else if t == "pre-adj"@ {
        Some("noun or verb acting prenominally"@)
    } else if t == "conjunction"@ {
        Some("conjunction"@)
    } else if t == "particle"@ {
        Some("particle"@)
    } else if t == "suffix"@ {
        Some("suffix"@)
    } else if t == "taru-adj"@ {
        Some("'taru' adjective"@)
    } else if t == "auxiliary"@ {
        Some("auxiliary"@)
    } else if t == "copula"@ {
        Some("copula"@)
    } else if t == "prefix"@ {
        Some("prefix"@)
    } else if t == "kuru-verb"@ {
        Some("kuru verb - special class"@)
    } else if t == "aux-adj"@ {
        Some("auxiliary adjective"@)
    } else if t == "counter"@ {
        Some("counter"@)
    } else if t == "numeric"@ {
        Some("numeric"@)
    } else if t == "shiku-adj"@ {
        Some("'shiku' adjective (archaic)"@)
    } else if t == "nidan-l"@ {
        Some("nidan verb (lower class) (archaic)"@)
    } else if t == "su-verb"@ {
        Some("su verb - precursor to modern suru"@)
    } else if t == "irregular"@ {
        Some("irregular verb"@)
    } else if t == "ku-adj"@ {
        Some("'ku' adjective (archaic)"@)
    } else if t == "nidan-u"@ {
        Some("nidan verb (upper class) (archaic)"@)
    } else if t == "nidan"@ {
        Some("nidan verb (archaic)"@)
    } else if t == "yodan"@ {
        Some("yodan verb (archaic)"@)
    } else if t == "nari-adj"@ {
        Some("archaic/formal form of na-adjective"@)
    } else {
        None
    }
}

pub fn tag_description(t: &str) -> (r: &'static str)
    ensures
        r@ == spec_tag_description(t@),
{
    let o: Option<&'static str> =
    if str_eq(t, "?") {
        Some("unclassified")
    } else if str_eq(t, "noun") {
        Some("noun (common) (futsuumeishi)")
    } else if str_eq(t, "expression") {
        Some("expression (phrases, clauses, etc.)")
    } else if str_eq(t, "na-adj") {
        Some("adjectival noun or quasi-adjective (keiyodoshi)")
    } else if str_eq(t, "no-adj") {
        Some("noun which may take the genitive case particle 'no'")
    } else if str_eq(t, "i-adj") {
        Some("adjective (keiyoushi)")
    } else if str_eq(t, "godan") {
        Some("godan verb")
    } else if str_eq(t, "transitive") {
        Some("transitive verb")
    } else if str_eq(t, "pronoun") {
        Some("pronoun")
    } else if str_eq(t, "adverb") {
        Some("adverb (fukushi)")
    } else if str_eq(t, "to-adverb") {
        Some("adverb taking the 'to' particle")
    } else if str_eq(t, "suru") {
        Some("noun or participle which takes the aux. verb suru")
    } else if str_eq(t, "pre-noun") {
        Some("pre-noun adjectival (rentaishi)")
    } else if str_eq(t, "interjection") {
        Some("interjection (kandoushi)")
    } else if str_eq(t, "ichidan") {
        Some("ichidan verb")
    } else if str_eq(t, "intransitive") {
        Some("intransitive verb")
    } else if str_eq(t, "aux-verb") {
        Some("auxiliary verb")
    } else if str_eq(t, "pre-adj") {
        Some("noun or verb acting prenominally")
    } else if str_eq(t, "conjunction") {
        Some("conjunction")
    } else if str_eq(t, "particle") {
        Some("particle")
    } else if str_eq(t, "suffix") {
        Some("suffix")
    } else if str_eq(t, "taru-adj") {
        Some("'taru' adjective")
    } else if str_eq(t, "auxiliary") {
        Some("auxiliary")
    } else if str_eq(t, "copula") {
        Some("copula")
    } else if str_eq(t, "prefix") {
        Some("prefix")
    } else if str_eq(t, "kuru-verb") {
        Some("kuru verb - special class")
    } else if str_eq(t, "aux-adj") {
        Some("auxiliary adjective")
    } else if str_eq(t, "counter") {
        Some("counter")
    } else if str_eq(t, "numeric") {
        Some("numeric")
    } else if str_eq(t, "shiku-adj") {
        Some("'shiku' adjective (archaic)")
    } else if str_eq(t, "nidan-l") {
        Some("nidan verb (lower class) (archaic)")
    } else if str_eq(t, "su-verb") {
        Some("su verb - precursor to modern suru")
    } else if str_eq(t, "irregular") {
        Some("irregular verb")
    } else if str_eq(t, "ku-adj") {
        Some("'ku' adjective (archaic)")
    } else if str_eq(t, "nidan-u") {
        Some("nidan verb (upper class) (archaic)")
    } else if str_eq(t, "nidan") {
        Some("nidan verb (archaic)")
    } else if str_eq(t, "yodan") {
        Some("yodan verb (archaic)")
    } else if str_eq(t, "nari-adj") {
        Some("archaic/formal form of na-adjective")
    } else {
        None
    };
    match o {
        Some(d) => d,
        None => "unknown",
    }
}

} // verus!
