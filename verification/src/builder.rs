use vstd::prelude::*;

use crate::entry::DictionaryMeaning;
use crate::entry::DictionaryTerm;
use crate::entry::Furigana;
use crate::entry::FuriganaView;
use crate::entry::MeaningView;
use crate::entry::TermView;
use crate::tags::generic_tag;
use crate::tags::spec_generic_tag;
use crate::token::contains_str;
use crate::token::clone_strings;
use crate::token::str_eq;
use crate::token::strings_view;
use crate::store::DictError;
use crate::store::Dictionary;

verus! {

broadcast use vstd::seq::group_seq_axioms;

// ---------------------------------------------------------------------------
// The raw lexical resources the builder ingests, as plain values: a
// structured word list, a ranked frequency corpus, and a furigana
// alignment table. Reading and parsing the files is the caller's business;
// the builder works on what they contain.
// ---------------------------------------------------------------------------
/// One written form of a headword.
#[derive(Clone, Debug)]
pub struct Kanji {
    pub common: bool,
    pub text: String,
}

/// One pronunciation of a headword, with the written forms it applies to
/// (the wildcard `"*"` means all; an empty list means none).
#[derive(Clone, Debug)]
pub struct Kana {
    pub common: bool,
    pub text: String,
    pub applies_to_kanji: Vec<String>,
}

/// One translated meaning of a sense.
#[derive(Clone, Debug)]
pub struct Gloss {
    pub text: String,
}

/// One sense of a headword, with the written forms and pronunciations it
/// applies to (again with the wildcard `"*"`).
#[derive(Clone, Debug)]
pub struct Sense {
    pub part_of_speech: Vec<String>,
    pub misc: Vec<String>,
    pub info: Vec<String>,
    pub applies_to_kanji: Vec<String>,
    pub applies_to_kana: Vec<String>,
    pub gloss: Vec<Gloss>,
}

/// One headword of the source word list.
#[derive(Clone, Debug)]
pub struct Word {
    pub id: String,
    pub kanji: Vec<Kanji>,
    pub kana: Vec<Kana>,
    pub sense: Vec<Sense>,
}

/// One row of the furigana alignment table.
#[derive(Clone, Debug)]
pub struct FuriganaEntry {
    pub text: String,
    pub reading: String,
    pub furigana: Vec<Furigana>,
}

// Views.
#[verifier::ext_equal]
pub struct KanjiView {
    pub common: bool,
    pub text: Seq<char>,
}

#[verifier::ext_equal]
pub struct KanaView {
    pub common: bool,
    pub text: Seq<char>,
    pub applies_to_kanji: Seq<Seq<char>>,
}

#[verifier::ext_equal]
pub struct SenseView {
    pub part_of_speech: Seq<Seq<char>>,
    pub misc: Seq<Seq<char>>,
    pub info: Seq<Seq<char>>,
    pub applies_to_kanji: Seq<Seq<char>>,
    pub applies_to_kana: Seq<Seq<char>>,
    pub gloss: Seq<Seq<char>>,
}

#[verifier::ext_equal]
pub struct WordView {
    pub id: Seq<char>,
    pub kanji: Seq<KanjiView>,
    pub kana: Seq<KanaView>,
    pub sense: Seq<SenseView>,
}

#[verifier::ext_equal]
pub struct FuriganaEntryView {
    pub text: Seq<char>,
    pub reading: Seq<char>,
    pub furigana: Seq<FuriganaView>,
}

pub open spec fn glosses_view(v: Seq<Gloss>) -> Seq<Seq<char>> {
    v.map_values(|g: Gloss| g.text@)
}

impl View for Kanji {
    type V = KanjiView;

    open spec fn view(&self) -> KanjiView {
        KanjiView { common: self.common, text: self.text@ }
    }
}

impl View for Kana {
    type V = KanaView;

    open spec fn view(&self) -> KanaView {
        KanaView {
            common: self.common,
            text: self.text@,
            applies_to_kanji: strings_view(self.applies_to_kanji@),
        }
    }
}

impl View for Sense {
    type V = SenseView;

    open spec fn view(&self) -> SenseView {
        SenseView {
            part_of_speech: strings_view(self.part_of_speech@),
            misc: strings_view(self.misc@),
            info: strings_view(self.info@),
            applies_to_kanji: strings_view(self.applies_to_kanji@),
            applies_to_kana: strings_view(self.applies_to_kana@),
            gloss: glosses_view(self.gloss@),
        }
    }
}

pub open spec fn kanjis_view(v: Seq<Kanji>) -> Seq<KanjiView> {
    v.map_values(|k: Kanji| k@)
}

pub open spec fn kanas_view(v: Seq<Kana>) -> Seq<KanaView> {
    v.map_values(|k: Kana| k@)
}

pub open spec fn senses_view(v: Seq<Sense>) -> Seq<SenseView> {
    v.map_values(|s: Sense| s@)
}

impl View for Word {
    type V = WordView;

    open spec fn view(&self) -> WordView {
        WordView {
            id: self.id@,
            kanji: kanjis_view(self.kanji@),
            kana: kanas_view(self.kana@),
            sense: senses_view(self.sense@),
        }
    }
}

impl View for FuriganaEntry {
    type V = FuriganaEntryView;

    open spec fn view(&self) -> FuriganaEntryView {
        FuriganaEntryView {
            text: self.text@,
            reading: self.reading@,
            furigana: self.furigana@.map_values(|f: Furigana| f@),
        }
    }
}

pub open spec fn words_view(v: Seq<Word>) -> Seq<WordView> {
    v.map_values(|w: Word| w@)
}

pub open spec fn furigana_entries_view(v: Seq<FuriganaEntry>) -> Seq<FuriganaEntryView> {
    v.map_values(|f: FuriganaEntry| f@)
}

pub open spec fn pairs_view(v: Seq<(String, String)>) -> Seq<(Seq<char>, Seq<char>)> {
    v.map_values(|p: (String, String)| (p.0@, p.1@))
}

// ---------------------------------------------------------------------------
// Applicability and the small lookups.
// ---------------------------------------------------------------------------
/// Exact membership, or the wildcard meaning "all".
pub open spec fn spec_applies(list: Seq<Seq<char>>, t: Seq<char>) -> bool {
    list.contains("*"@) || list.contains(t)
}

fn applies(list: &Vec<String>, t: &str) -> (r: bool)
    ensures
        r == spec_applies(strings_view(list@), t@),
{
    if contains_str(list, "*") {
        true
    } else {
        contains_str(list, t)
    }
}

/// First-match association lookup in the source's tag-name table.
pub open spec fn spec_assoc(tags: Seq<(Seq<char>, Seq<char>)>, key: Seq<char>) -> Option<Seq<char>>
    decreases tags.len(),
{
    if tags.len() == 0 {
        None
    } else if tags[0].0 == key {
        Some(tags[0].1)
    } else {
        spec_assoc(tags.drop_first(), key)
    }
}

fn assoc(tags: &Vec<(String, String)>, key: &str) -> (r: Option<String>)
    ensures
        match r {
            Some(v) => spec_assoc(pairs_view(tags@), key@) == Some(v@),
            None => spec_assoc(pairs_view(tags@), key@) is None,
        },
{
    let ghost views = pairs_view(tags@);
    proof {
        assert(views.subrange(0, views.len() as int) =~= views);
    }
    let mut i: usize = 0;
    while i < tags.len()
        invariant
            i <= tags.len(),
            views == pairs_view(tags@),
            views.len() == tags@.len(),
            spec_assoc(views, key@) == spec_assoc(views.subrange(i as int, views.len() as int), key@),
        decreases tags.len() - i,
    {
        proof {
            let sub = views.subrange(i as int, views.len() as int);
            assert(sub[0] == views[i as int]);
            assert(views[i as int] == (tags@[i as int].0@, tags@[i as int].1@));
            assert(sub.drop_first() =~= views.subrange(i as int + 1, views.len() as int));
        }
        if str_eq(tags[i].0.as_str(), key) {
            return Some(tags[i].1.clone());
        }
        i = i + 1;
    }
    proof {
        assert(views.subrange(views.len() as int, views.len() as int) =~= Seq::<(
            Seq<char>,
            Seq<char>,
        )>::empty());
    }
    None
}

/// The corpus rank of a word: its zero-based line number, the last
/// occurrence winning, `None` where the corpus does not list it.
pub open spec fn spec_rank(lines: Seq<Seq<char>>, w: Seq<char>) -> Option<u32>
    decreases lines.len(),
{
    if lines.len() == 0 {
        None
    } else if lines.last() == w {
        Some((lines.len() - 1) as u32)
    } else {
        spec_rank(lines.drop_last(), w)
    }
}

fn rank_of(lines: &Vec<String>, w: &str) -> (r: Option<u32>)
    requires
        lines@.len() < 0x1_0000_0000,
    ensures
        r == spec_rank(strings_view(lines@), w@),
{
    let ghost views = strings_view(lines@);
    proof {
        assert(views.subrange(0, views.len() as int) =~= views);
    }
    let mut i: usize = lines.len();
    while i > 0
        invariant
            i <= lines.len(),
            views == strings_view(lines@),
            views.len() == lines@.len(),
            lines@.len() < 0x1_0000_0000,
            spec_rank(views, w@) == spec_rank(views.subrange(0, i as int), w@),
        decreases i,
    {
        i = i - 1;
        proof {
            let sub = views.subrange(0, i as int + 1);
            assert(sub.last() == views[i as int]);
            assert(views[i as int] == lines@[i as int]@);
            assert(sub.drop_last() =~= views.subrange(0, i as int));
        }
        if str_eq(lines[i].as_str(), w) {
            return Some(i as u32);
        }
    }
    proof {
        assert(views.subrange(0, 0) =~= Seq::<Seq<char>>::empty());
    }
    None
}

/// The aligned ruby segments for a (written form, reading) pair, the last
/// table row winning, `None` where the table has no such pair.
pub open spec fn spec_furigana_for(
    entries: Seq<FuriganaEntryView>,
    text: Seq<char>,
    reading: Seq<char>,
) -> Option<Seq<FuriganaView>>
    decreases entries.len(),
{
    if entries.len() == 0 {
        None
    } else if entries.last().text == text && entries.last().reading == reading {
        Some(entries.last().furigana)
    } else {
        spec_furigana_for(entries.drop_last(), text, reading)
    }
}

fn furigana_for(entries: &Vec<FuriganaEntry>, text: &str, reading: &str) -> (r: Option<
    Vec<Furigana>,
>)
    ensures
        match r {
            Some(v) => spec_furigana_for(furigana_entries_view(entries@), text@, reading@) == Some(
                v@.map_values(|f: Furigana| f@),
            ),
            None => spec_furigana_for(furigana_entries_view(entries@), text@, reading@) is None,
        },
{
    let ghost views = furigana_entries_view(entries@);
    proof {
        assert(views.subrange(0, views.len() as int) =~= views);
    }
    let mut i: usize = entries.len();
    while i > 0
        invariant
            i <= entries.len(),
            views == furigana_entries_view(entries@),
            views.len() == entries@.len(),
            spec_furigana_for(views, text@, reading@) == spec_furigana_for(
                views.subrange(0, i as int),
                text@,
                reading@,
            ),
        decreases i,
    {
        i = i - 1;
        proof {
            let sub = views.subrange(0, i as int + 1);
            assert(sub.last() == views[i as int]);
            assert(views[i as int] == entries@[i as int]@);
            assert(sub.drop_last() =~= views.subrange(0, i as int));
        }
        if str_eq(entries[i].text.as_str(), text) && str_eq(entries[i].reading.as_str(), reading) {
            let r = clone_furiganas(&entries[i].furigana);
            return Some(r);
        }
    }
    proof {
        assert(views.subrange(0, 0) =~= Seq::<FuriganaEntryView>::empty());
    }
    None
}

fn clone_furiganas(v: &Vec<Furigana>) -> (r: Vec<Furigana>)
    ensures
        r@.map_values(|f: Furigana| f@) == v@.map_values(|f: Furigana| f@),
{
    let ghost views = v@.map_values(|f: Furigana| f@);
    let mut out: Vec<Furigana> = Vec::new();
    proof {
        assert(out@.map_values(|f: Furigana| f@) =~= views.subrange(0, 0));
    }
    let mut i: usize = 0;
    while i < v.len()
        invariant
            i <= v.len(),
            out@.len() == i,
            views == v@.map_values(|f: Furigana| f@),
            views.len() == v@.len(),
            out@.map_values(|f: Furigana| f@) == views.subrange(0, i as int),
        decreases v.len() - i,
    {
        let rt = match &v[i].rt {
            Some(s) => Some(s.clone()),
            None => None,
        };
        let f = Furigana { ruby: v[i].ruby.clone(), rt };
        proof {
            assert(f@ == views[i as int]);
        }
        out.push(f);
        proof {
            assert(out@.map_values(|f2: Furigana| f2@) =~= views.subrange(0, i as int + 1));
        }
        i = i + 1;
    }
    proof {
        assert(views.subrange(0, views.len() as int) =~= views);
    }
    out
}

// ---------------------------------------------------------------------------
// Meaning construction: part-of-speech codes normalized through the static
// table (unmapped codes dropped), misc codes expanded through the source's
// own tag-name table and appended to the notes.
// ---------------------------------------------------------------------------
/// The normalized category labels of a sense's part-of-speech codes.
pub open spec fn spec_meaning_tags(pos: Seq<Seq<char>>) -> Seq<Seq<char>>
    decreases pos.len(),
{
    if pos.len() == 0 {
        Seq::empty()
    } else {
        (match spec_generic_tag(pos[0]) {
            Some(t) => seq![t],
            None => Seq::empty(),
        }) + spec_meaning_tags(pos.drop_first())
    }
}

/// The descriptions of the misc codes the source's tag table knows.
pub open spec fn spec_expand_misc(
    misc: Seq<Seq<char>>,
    tags: Seq<(Seq<char>, Seq<char>)>,
) -> Seq<Seq<char>>
    decreases misc.len(),
{
    if misc.len() == 0 {
        Seq::empty()
    } else {
        (match spec_assoc(tags, misc[0]) {
            Some(d) => seq![d],
            None => Seq::empty(),
        }) + spec_expand_misc(misc.drop_first(), tags)
    }
}

/// What one sense becomes for display.
pub open spec fn spec_meaning_of(s: SenseView, tags: Seq<(Seq<char>, Seq<char>)>) -> MeaningView {
    MeaningView {
        tags: spec_meaning_tags(s.part_of_speech),
        info: s.info + spec_expand_misc(s.misc, tags),
        gloss: s.gloss,
    }
}

/// The meanings of the senses that apply to one written form.
pub open spec fn spec_meanings_for_kanji(
    senses: Seq<SenseView>,
    text: Seq<char>,
    tags: Seq<(Seq<char>, Seq<char>)>,
) -> Seq<MeaningView>
    decreases senses.len(),
{
    if senses.len() == 0 {
        Seq::empty()
    } else {
        (if spec_applies(senses[0].applies_to_kanji, text) {
            seq![spec_meaning_of(senses[0], tags)]
        } else {
            Seq::empty()
        }) + spec_meanings_for_kanji(senses.drop_first(), text, tags)
    }
}

/// The meanings of the senses that apply to one pronunciation.
pub open spec fn spec_meanings_for_kana(
    senses: Seq<SenseView>,
    text: Seq<char>,
    tags: Seq<(Seq<char>, Seq<char>)>,
) -> Seq<MeaningView>
    decreases senses.len(),
{
    if senses.len() == 0 {
        Seq::empty()
    } else {
        (if spec_applies(senses[0].applies_to_kana, text) {
            seq![spec_meaning_of(senses[0], tags)]
        } else {
            Seq::empty()
        }) + spec_meanings_for_kana(senses.drop_first(), text, tags)
    }
}

fn meaning_of(sense: &Sense, tags: &Vec<(String, String)>) -> (r: DictionaryMeaning)
    ensures
        r@ == spec_meaning_of(sense@, pairs_view(tags@)),
{
    let ghost tviews = pairs_view(tags@);
    let ghost pos = strings_view(sense.part_of_speech@);

    // normalized category labels
    let mut mtags: Vec<String> = Vec::new();
    proof {
        assert(strings_view(mtags@) =~= Seq::<Seq<char>>::empty());
        assert(pos.subrange(0, pos.len() as int) =~= pos);
    }
    let mut i: usize = 0;
    while i < sense.part_of_speech.len()
        invariant
            i <= sense.part_of_speech.len(),
            pos == strings_view(sense.part_of_speech@),
            pos.len() == sense.part_of_speech@.len(),
            tviews == pairs_view(tags@),
            strings_view(mtags@) + spec_meaning_tags(pos.subrange(i as int, pos.len() as int))
                == spec_meaning_tags(pos),
        decreases sense.part_of_speech.len() - i,
    {
        let ghost pre = strings_view(mtags@);
        let ghost sub = pos.subrange(i as int, pos.len() as int);
        proof {
            assert(sub[0] == pos[i as int]);
            assert(pos[i as int] == sense.part_of_speech@[i as int]@);
            assert(sub.drop_first() =~= pos.subrange(i as int + 1, pos.len() as int));
        }
        match generic_tag(sense.part_of_speech[i].as_str()) {
            Some(t) => {
                mtags.push(t.to_owned());
                proof {
                    let tv = spec_generic_tag(pos[i as int]).unwrap();
                    assert(strings_view(mtags@) =~= pre.push(tv));
                    let rest = spec_meaning_tags(pos.subrange(i as int + 1, pos.len() as int));
                    assert(pre + (seq![tv] + rest) =~= pre.push(tv) + rest);
                }
            },
            None => {
                proof {
                    let rest = spec_meaning_tags(pos.subrange(i as int + 1, pos.len() as int));
                    assert(Seq::<Seq<char>>::empty() + rest =~= rest);
                }
            },
        }
        i = i + 1;
    }
    proof {
        assert(pos.subrange(pos.len() as int, pos.len() as int) =~= Seq::<Seq<char>>::empty());
        assert(spec_meaning_tags(pos.subrange(pos.len() as int, pos.len() as int))
            =~= Seq::<Seq<char>>::empty());
        assert(strings_view(mtags@) + Seq::<Seq<char>>::empty() =~= strings_view(mtags@));
    }

    // notes: the sense's own, then the descriptions of its misc codes
    let mut info: Vec<String> = clone_strings(&sense.info);
    let ghost misc = strings_view(sense.misc@);
    let ghost base_info = strings_view(sense.info@);
    proof {
        assert(misc.subrange(0, misc.len() as int) =~= misc);
    }
    let mut j: usize = 0;
    while j < sense.misc.len()
        invariant
            j <= sense.misc.len(),
            misc == strings_view(sense.misc@),
            misc.len() == sense.misc@.len(),
            tviews == pairs_view(tags@),
            base_info == strings_view(sense.info@),
            strings_view(info@) + spec_expand_misc(misc.subrange(j as int, misc.len() as int), tviews)
                == base_info + spec_expand_misc(misc, tviews),
        decreases sense.misc.len() - j,
    {
        let ghost pre = strings_view(info@);
        let ghost sub = misc.subrange(j as int, misc.len() as int);
        proof {
            assert(sub[0] == misc[j as int]);
            assert(misc[j as int] == sense.misc@[j as int]@);
            assert(sub.drop_first() =~= misc.subrange(j as int + 1, misc.len() as int));
        }
        match assoc(tags, sense.misc[j].as_str()) {
            Some(d) => {
                let ghost dv = d@;
                info.push(d);
                proof {
                    assert(strings_view(info@) =~= pre.push(dv));
                    let rest = spec_expand_misc(misc.subrange(j as int + 1, misc.len() as int), tviews);
                    assert(pre + (seq![dv] + rest) =~= pre.push(dv) + rest);
                }
            },
            None => {
                proof {
                    let rest = spec_expand_misc(misc.subrange(j as int + 1, misc.len() as int), tviews);
                    assert(Seq::<Seq<char>>::empty() + rest =~= rest);
                }
            },
        }
        j = j + 1;
    }
    proof {
        assert(spec_expand_misc(misc.subrange(misc.len() as int, misc.len() as int), tviews)
            =~= Seq::<Seq<char>>::empty());
        assert(strings_view(info@) + Seq::<Seq<char>>::empty() =~= strings_view(info@));
    }

    // translated meanings
    let mut gloss: Vec<String> = Vec::new();
    let ghost gviews = glosses_view(sense.gloss@);
    proof {
        assert(strings_view(gloss@) =~= gviews.subrange(0, 0));
    }
    let mut g: usize = 0;
    while g < sense.gloss.len()
        invariant
            g <= sense.gloss.len(),
            gloss@.len() == g,
            gviews == glosses_view(sense.gloss@),
            gviews.len() == sense.gloss@.len(),
            strings_view(gloss@) == gviews.subrange(0, g as int),
        decreases sense.gloss.len() - g,
    {
        let ghost pre = gloss@;
        gloss.push(sense.gloss[g].text.clone());
        proof {
            assert(gviews[g as int] == sense.gloss@[g as int].text@);
            assert(strings_view(gloss@) =~= gviews.subrange(0, g as int + 1));
        }
        g = g + 1;
    }
    proof {
        assert(gviews.subrange(0, gviews.len() as int) =~= gviews);
    }

    let r = DictionaryMeaning { tags: mtags, info, gloss };
    proof {
        assert(r@ =~= spec_meaning_of(sense@, tviews));
    }
    r
}

fn build_meanings_kanji(senses: &Vec<Sense>, text: &str, tags: &Vec<(String, String)>) -> (r: Vec<
    DictionaryMeaning,
>)
    ensures
        r@.map_values(|m: DictionaryMeaning| m@) == spec_meanings_for_kanji(
            senses_view(senses@),
            text@,
            pairs_view(tags@),
        ),
{
    let ghost sviews = senses_view(senses@);
    let ghost tviews = pairs_view(tags@);
    let mut out: Vec<DictionaryMeaning> = Vec::new();
    proof {
        assert(out@.map_values(|m: DictionaryMeaning| m@) =~= Seq::<MeaningView>::empty());
        assert(sviews.subrange(0, sviews.len() as int) =~= sviews);
    }
    let mut i: usize = 0;
    while i < senses.len()
        invariant
            i <= senses.len(),
            sviews == senses_view(senses@),
            sviews.len() == senses@.len(),
            tviews == pairs_view(tags@),
            out@.map_values(|m: DictionaryMeaning| m@) + spec_meanings_for_kanji(
                sviews.subrange(i as int, sviews.len() as int),
                text@,
                tviews,
            ) == spec_meanings_for_kanji(sviews, text@, tviews),
        decreases senses.len() - i,
    {
        let ghost pre = out@.map_values(|m: DictionaryMeaning| m@);
        let ghost sub = sviews.subrange(i as int, sviews.len() as int);
        proof {
            assert(sub[0] == sviews[i as int]);
            assert(sviews[i as int] == senses@[i as int]@);
            assert(sub.drop_first() =~= sviews.subrange(i as int + 1, sviews.len() as int));
        }
        if applies(&senses[i].applies_to_kanji, text) {
            let m = meaning_of(&senses[i], tags);
            let ghost mv = m@;
            out.push(m);
            proof {
                assert(out@.map_values(|m2: DictionaryMeaning| m2@) =~= pre.push(mv));
                let rest = spec_meanings_for_kanji(
                    sviews.subrange(i as int + 1, sviews.len() as int),
                    text@,
                    tviews,
                );
                assert(pre + (seq![mv] + rest) =~= pre.push(mv) + rest);
            }
        } else {
            proof {
                let rest = spec_meanings_for_kanji(
                    sviews.subrange(i as int + 1, sviews.len() as int),
                    text@,
                    tviews,
                );
                assert(Seq::<MeaningView>::empty() + rest =~= rest);
            }
        }
        i = i + 1;
    }
    proof {
        assert(spec_meanings_for_kanji(
            sviews.subrange(sviews.len() as int, sviews.len() as int),
            text@,
            tviews,
        ) =~= Seq::<MeaningView>::empty());
        assert(out@.map_values(|m: DictionaryMeaning| m@) + Seq::<MeaningView>::empty() =~= out@
            .map_values(|m: DictionaryMeaning| m@));
    }
    out
}

fn build_meanings_kana(senses: &Vec<Sense>, text: &str, tags: &Vec<(String, String)>) -> (r: Vec<
    DictionaryMeaning,
>)
    ensures
        r@.map_values(|m: DictionaryMeaning| m@) == spec_meanings_for_kana(
            senses_view(senses@),
            text@,
            pairs_view(tags@),
        ),
{
    let ghost sviews = senses_view(senses@);
    let ghost tviews = pairs_view(tags@);
    let mut out: Vec<DictionaryMeaning> = Vec::new();
    proof {
        assert(out@.map_values(|m: DictionaryMeaning| m@) =~= Seq::<MeaningView>::empty());
        assert(sviews.subrange(0, sviews.len() as int) =~= sviews);
    }
    let mut i: usize = 0;
    while i < senses.len()
        invariant
            i <= senses.len(),
            sviews == senses_view(senses@),
            sviews.len() == senses@.len(),
            tviews == pairs_view(tags@),
            out@.map_values(|m: DictionaryMeaning| m@) + spec_meanings_for_kana(
                sviews.subrange(i as int, sviews.len() as int),
                text@,
                tviews,
            ) == spec_meanings_for_kana(sviews, text@, tviews),
        decreases senses.len() - i,
    {
        let ghost pre = out@.map_values(|m: DictionaryMeaning| m@);
        let ghost sub = sviews.subrange(i as int, sviews.len() as int);
        proof {
            assert(sub[0] == sviews[i as int]);
            assert(sviews[i as int] == senses@[i as int]@);
            assert(sub.drop_first() =~= sviews.subrange(i as int + 1, sviews.len() as int));
        }
        if applies(&senses[i].applies_to_kana, text) {
            let m = meaning_of(&senses[i], tags);
            let ghost mv = m@;
            out.push(m);
            proof {
                assert(out@.map_values(|m2: DictionaryMeaning| m2@) =~= pre.push(mv));
                let rest = spec_meanings_for_kana(
                    sviews.subrange(i as int + 1, sviews.len() as int),
                    text@,
                    tviews,
                );
                assert(pre + (seq![mv] + rest) =~= pre.push(mv) + rest);
            }
        } else {
            proof {
                let rest = spec_meanings_for_kana(
                    sviews.subrange(i as int + 1, sviews.len() as int),
                    text@,
                    tviews,
                );
                assert(Seq::<MeaningView>::empty() + rest =~= rest);
            }
        }
        i = i + 1;
    }
    proof {
        assert(spec_meanings_for_kana(
            sviews.subrange(sviews.len() as int, sviews.len() as int),
            text@,
            tviews,
        ) =~= Seq::<MeaningView>::empty());
        assert(out@.map_values(|m: DictionaryMeaning| m@) + Seq::<MeaningView>::empty() =~= out@
            .map_values(|m: DictionaryMeaning| m@));
    }
    out
}

fn clone_meanings(v: &Vec<DictionaryMeaning>) -> (r: Vec<DictionaryMeaning>)
    ensures
        r@.map_values(|m: DictionaryMeaning| m@) == v@.map_values(|m: DictionaryMeaning| m@),
{
    let ghost views = v@.map_values(|m: DictionaryMeaning| m@);
    let mut out: Vec<DictionaryMeaning> = Vec::new();
    proof {
        assert(out@.map_values(|m: DictionaryMeaning| m@) =~= views.subrange(0, 0));
    }
    let mut i: usize = 0;
    while i < v.len()
        invariant
            i <= v.len(),
            out@.len() == i,
            views == v@.map_values(|m: DictionaryMeaning| m@),
            views.len() == v@.len(),
            out@.map_values(|m: DictionaryMeaning| m@) == views.subrange(0, i as int),
        decreases v.len() - i,
    {
        let m = DictionaryMeaning {
            tags: clone_strings(&v[i].tags),
            info: clone_strings(&v[i].info),
            gloss: clone_strings(&v[i].gloss),
        };
        proof {
            assert(m@ =~= views[i as int]);
        }
        out.push(m);
        proof {
            assert(out@.map_values(|m2: DictionaryMeaning| m2@) =~= views.subrange(0, i as int + 1));
        }
        i = i + 1;
    }
    proof {
        assert(views.subrange(0, views.len() as int) =~= views);
    }
    out
}

// ---------------------------------------------------------------------------
// The build: every headword of the word list turned into ranked entries
// under both key families.
// ---------------------------------------------------------------------------
/// The three raw resources, already materialized as plain values.
pub struct LexiconSource {
    pub words: Vec<Word>,
    pub tags: Vec<(String, String)>,
    pub frequency_lines: Vec<String>,
    pub furigana: Vec<FuriganaEntry>,
}

#[verifier::ext_equal]
pub struct LexiconSourceView {
    pub words: Seq<WordView>,
    pub tags: Seq<(Seq<char>, Seq<char>)>,
    pub freq: Seq<Seq<char>>,
    pub furi: Seq<FuriganaEntryView>,
}

impl View for LexiconSource {
    type V = LexiconSourceView;

    open spec fn view(&self) -> LexiconSourceView {
        LexiconSourceView {
            words: words_view(self.words@),
            tags: pairs_view(self.tags@),
            freq: strings_view(self.frequency_lines@),
            furi: furigana_entries_view(self.furigana@),
        }
    }
}

/// The term-key rank: the written form's own rank, the pronunciation's
/// where the written form is unranked.
pub open spec fn spec_term_rank(ctx: LexiconSourceView, k: Seq<char>, a: Seq<char>) -> Option<u32> {
    match spec_rank(ctx.freq, k) {
        Some(f) => Some(f),
        None => spec_rank(ctx.freq, a),
    }
}

/// The two insertions of one (written form, pronunciation) pairing.
pub open spec fn spec_pair_insert(
    m: Map<Seq<char>, Seq<u8>>,
    w: WordView,
    k: KanjiView,
    a: KanaView,
    ctx: LexiconSourceView,
) -> Map<Seq<char>, Seq<u8>> {
    let meanings = spec_meanings_for_kanji(w.sense, k.text, ctx.tags);
    let furi = spec_furigana_for(ctx.furi, k.text, a.text);
    let m1 = crate::store::spec_insert(
        m,
        crate::store::term_key(k.text),
        TermView {
            id: w.id,
            frequency: spec_term_rank(ctx, k.text, a.text),
            common: k.common,
            term: k.text,
            reading: a.text,
            furigana: furi,
            meanings,
        },
    );
    crate::store::spec_insert(
        m1,
        crate::store::reading_key(a.text),
        TermView {
            id: w.id,
            frequency: spec_term_rank(ctx, a.text, k.text),
            common: a.common,
            term: k.text,
            reading: a.text,
            furigana: furi,
            meanings,
        },
    )
}

/// One written form against every pronunciation that applies to it.
pub open spec fn spec_kana_pass(
    m: Map<Seq<char>, Seq<u8>>,
    w: WordView,
    k: KanjiView,
    ai: int,
    ctx: LexiconSourceView,
) -> Map<Seq<char>, Seq<u8>>
    decreases w.kana.len() - ai,
{
    if ai < 0 || ai >= w.kana.len() {
        m
    } else {
        let a = w.kana[ai];
        if spec_applies(a.applies_to_kanji, k.text) {
            spec_kana_pass(spec_pair_insert(m, w, k, a, ctx), w, k, ai + 1, ctx)
        } else {
            spec_kana_pass(m, w, k, ai + 1, ctx)
        }
    }
}

/// Every written form of the headword.
pub open spec fn spec_kanji_pass(
    m: Map<Seq<char>, Seq<u8>>,
    w: WordView,
    ki: int,
    ctx: LexiconSourceView,
) -> Map<Seq<char>, Seq<u8>>
    decreases w.kanji.len() - ki,
{
    if ki < 0 || ki >= w.kanji.len() {
        m
    } else {
        spec_kanji_pass(spec_kana_pass(m, w, w.kanji[ki], 0, ctx), w, ki + 1, ctx)
    }
}

/// The reading-only insertion of one pronunciation: no written form, the
/// pronunciation's own rank, senses filtered by pronunciation.
pub open spec fn spec_reading_insert(
    m: Map<Seq<char>, Seq<u8>>,
    w: WordView,
    a: KanaView,
    ctx: LexiconSourceView,
) -> Map<Seq<char>, Seq<u8>> {
    crate::store::spec_insert(
        m,
        crate::store::reading_key(a.text),
        TermView {
            id: w.id,
            frequency: spec_rank(ctx.freq, a.text),
            common: a.common,
            term: Seq::empty(),
            reading: a.text,
            furigana: None,
            meanings: spec_meanings_for_kana(w.sense, a.text, ctx.tags),
        },
    )
}

/// Pronunciations tied to no written form at all, inserted alone.
pub open spec fn spec_lone_kana_pass(
    m: Map<Seq<char>, Seq<u8>>,
    w: WordView,
    ai: int,
    ctx: LexiconSourceView,
) -> Map<Seq<char>, Seq<u8>>
    decreases w.kana.len() - ai,
{
    if ai < 0 || ai >= w.kana.len() {
        m
    } else {
        let a = w.kana[ai];
        if a.applies_to_kanji.len() == 0 {
            spec_lone_kana_pass(spec_reading_insert(m, w, a, ctx), w, ai + 1, ctx)
        } else {
            spec_lone_kana_pass(m, w, ai + 1, ctx)
        }
    }
}

/// A headword without written forms: every pronunciation inserted alone.
pub open spec fn spec_no_kanji_pass(
    m: Map<Seq<char>, Seq<u8>>,
    w: WordView,
    ai: int,
    ctx: LexiconSourceView,
) -> Map<Seq<char>, Seq<u8>>
    decreases w.kana.len() - ai,
{
    if ai < 0 || ai >= w.kana.len() {
        m
    } else {
        spec_no_kanji_pass(spec_reading_insert(m, w, w.kana[ai], ctx), w, ai + 1, ctx)
    }
}

/// One headword's insertions.
pub open spec fn spec_word_pass(
    m: Map<Seq<char>, Seq<u8>>,
    w: WordView,
    ctx: LexiconSourceView,
) -> Map<Seq<char>, Seq<u8>> {
    if w.kanji.len() > 0 {
        spec_lone_kana_pass(spec_kanji_pass(m, w, 0, ctx), w, 0, ctx)
    } else {
        spec_no_kanji_pass(m, w, 0, ctx)
    }
}

/// The whole build, word after word.
pub open spec fn spec_build(
    m: Map<Seq<char>, Seq<u8>>,
    ctx: LexiconSourceView,
    wi: int,
) -> Map<Seq<char>, Seq<u8>>
    decreases ctx.words.len() - wi,
{
    if wi < 0 || wi >= ctx.words.len() {
        m
    } else {
        spec_build(spec_word_pass(m, ctx.words[wi], ctx), ctx, wi + 1)
    }
}

/// A fully populated store: the build's output plus the completion marker.
pub open spec fn spec_populated(
    m: Map<Seq<char>, Seq<u8>>,
    ctx: LexiconSourceView,
) -> Map<Seq<char>, Seq<u8>> {
    spec_build(m, ctx, 0).insert(crate::store::sentinel_key(), Seq::<u8>::empty())
}

fn pair_insert(dict: &mut Dictionary, word: &Word, ki: usize, ai: usize, src: &LexiconSource) -> (r:
    Result<(), DictError>)
    requires
        ki < word.kanji@.len(),
        ai < word.kana@.len(),
        src@.freq.len() < 0x1_0000_0000,
    ensures
        r is Ok ==> final(dict).contents() == spec_pair_insert(
            old(dict).contents(),
            word@,
            word@.kanji[ki as int],
            word@.kana[ai as int],
            src@,
        ),
{
    let ghost m0 = dict.contents();
    let ghost kv = word@.kanji[ki as int];
    let ghost av = word@.kana[ai as int];
    proof {
        assert(kv == word.kanji@[ki as int]@);
        assert(av == word.kana@[ai as int]@);
    }
    let k = &word.kanji[ki];
    let a = &word.kana[ai];
    let meanings = build_meanings_kanji(&word.sense, k.text.as_str(), &src.tags);
    let meanings2 = clone_meanings(&meanings);
    let furi = furigana_for(&src.furigana, k.text.as_str(), a.text.as_str());
    let furi2 = match &furi {
        Some(v) => Some(clone_furiganas(v)),
        None => None,
    };
    let tfreq = match rank_of(&src.frequency_lines, k.text.as_str()) {
        Some(f) => Some(f),
        None => rank_of(&src.frequency_lines, a.text.as_str()),
    };
    let rfreq = match rank_of(&src.frequency_lines, a.text.as_str()) {
        Some(f) => Some(f),
        None => rank_of(&src.frequency_lines, k.text.as_str()),
    };
    let term1 = DictionaryTerm {
        id: word.id.clone(),
        frequency: tfreq,
        common: k.common,
        term: k.text.clone(),
        reading: a.text.clone(),
        furigana: furi,
        meanings,
    };
    proof {
        assert(term1@ =~= TermView {
            id: word@.id,
            frequency: spec_term_rank(src@, kv.text, av.text),
            common: kv.common,
            term: kv.text,
            reading: av.text,
            furigana: spec_furigana_for(src@.furi, kv.text, av.text),
            meanings: spec_meanings_for_kanji(word@.sense, kv.text, src@.tags),
        });
    }
    match dict.insert_term_keyed(k.text.as_str(), term1) {
        Ok(()) => {},
        Err(e) => {
            return Err(e);
        },
    }
    let term2 = DictionaryTerm {
        id: word.id.clone(),
        frequency: rfreq,
        common: a.common,
        term: k.text.clone(),
        reading: a.text.clone(),
        furigana: furi2,
        meanings: meanings2,
    };
    proof {
        assert(term2@ =~= TermView {
            id: word@.id,
            frequency: spec_term_rank(src@, av.text, kv.text),
            common: av.common,
            term: kv.text,
            reading: av.text,
            furigana: spec_furigana_for(src@.furi, kv.text, av.text),
            meanings: spec_meanings_for_kanji(word@.sense, kv.text, src@.tags),
        });
    }
    match dict.insert_reading_keyed(a.text.as_str(), term2) {
        Ok(()) => {
            proof {
                assert(dict.contents() =~= spec_pair_insert(m0, word@, kv, av, src@));
            }
            Ok(())
        },
        Err(e) => Err(e),
    }
}

fn kana_pass(dict: &mut Dictionary, word: &Word, ki: usize, src: &LexiconSource) -> (r: Result<
    (),
    DictError,
>)
    requires
        ki < word.kanji@.len(),
        src@.freq.len() < 0x1_0000_0000,
    ensures
        r is Ok ==> final(dict).contents() == spec_kana_pass(
            old(dict).contents(),
            word@,
            word@.kanji[ki as int],
            0,
            src@,
        ),
{
    let ghost m0 = dict.contents();
    let ghost kv = word@.kanji[ki as int];
    let mut ai: usize = 0;
    while ai < word.kana.len()
        invariant
            ai <= word.kana.len(),
            ki < word.kanji@.len(),
            kv == word@.kanji[ki as int],
            word@.kana.len() == word.kana@.len(),
            src@.freq.len() < 0x1_0000_0000,
            spec_kana_pass(dict.contents(), word@, kv, ai as int, src@) == spec_kana_pass(
                m0,
                word@,
                kv,
                0,
                src@,
            ),
        decreases word.kana.len() - ai,
    {
        proof {
            assert(word@.kana[ai as int] == word.kana@[ai as int]@);
        }
        if applies(&word.kana[ai].applies_to_kanji, word.kanji[ki].text.as_str()) {
            proof {
                assert(word.kanji@[ki as int]@ == kv);
            }
            match pair_insert(dict, word, ki, ai, src) {
                Ok(()) => {},
                Err(e) => {
                    return Err(e);
                },
            }
        }
        ai = ai + 1;
    }
    Ok(())
}

fn reading_insert(dict: &mut Dictionary, word: &Word, ai: usize, src: &LexiconSource) -> (r: Result<
    (),
    DictError,
>)
    requires
        ai < word.kana@.len(),
        src@.freq.len() < 0x1_0000_0000,
    ensures
        r is Ok ==> final(dict).contents() == spec_reading_insert(
            old(dict).contents(),
            word@,
            word@.kana[ai as int],
            src@,
        ),
{
    let ghost av = word@.kana[ai as int];
    proof {
        assert(av == word.kana@[ai as int]@);
    }
    let a = &word.kana[ai];
    let meanings = build_meanings_kana(&word.sense, a.text.as_str(), &src.tags);
    let freq = rank_of(&src.frequency_lines, a.text.as_str());
    let term = DictionaryTerm {
        id: word.id.clone(),
        frequency: freq,
        common: a.common,
        term: String::new(),
        reading: a.text.clone(),
        furigana: None,
        meanings,
    };
    proof {
        assert(term@ =~= TermView {
            id: word@.id,
            frequency: spec_rank(src@.freq, av.text),
            common: av.common,
            term: Seq::empty(),
            reading: av.text,
            furigana: None,
            meanings: spec_meanings_for_kana(word@.sense, av.text, src@.tags),
        });
    }
    dict.insert_reading_keyed(a.text.as_str(), term)
}

fn word_pass(dict: &mut Dictionary, word: &Word, src: &LexiconSource) -> (r: Result<(), DictError>)
    requires
        src@.freq.len() < 0x1_0000_0000,
    ensures
        r is Ok ==> final(dict).contents() == spec_word_pass(old(dict).contents(), word@, src@),
{
    let ghost m0 = dict.contents();
    if word.kanji.len() > 0 {
        proof {
            assert(word@.kanji.len() == word.kanji@.len());
        }
        let mut ki: usize = 0;
        while ki < word.kanji.len()
            invariant
                ki <= word.kanji.len(),
                word@.kanji.len() == word.kanji@.len(),
                src@.freq.len() < 0x1_0000_0000,
                spec_kanji_pass(dict.contents(), word@, ki as int, src@) == spec_kanji_pass(
                    m0,
                    word@,
                    0,
                    src@,
                ),
            decreases word.kanji.len() - ki,
        {
            match kana_pass(dict, word, ki, src) {
                Ok(()) => {},
                Err(e) => {
                    return Err(e);
                },
            }
            ki = ki + 1;
        }
        let ghost mid = dict.contents();
        proof {
            assert(mid == spec_kanji_pass(m0, word@, 0, src@));
        }
        let mut ai: usize = 0;
        while ai < word.kana.len()
            invariant
                ai <= word.kana.len(),
                word@.kana.len() == word.kana@.len(),
                src@.freq.len() < 0x1_0000_0000,
                spec_lone_kana_pass(dict.contents(), word@, ai as int, src@) == spec_lone_kana_pass(
                    mid,
                    word@,
                    0,
                    src@,
                ),
        decreases word.kana.len() - ai,
        {
            proof {
                assert(word@.kana[ai as int] == word.kana@[ai as int]@);
            }
            if word.kana[ai].applies_to_kanji.len() == 0 {
                proof {
                    assert(word@.kana[ai as int].applies_to_kanji.len() == 0);
                }
                match reading_insert(dict, word, ai, src) {
                    Ok(()) => {},
                    Err(e) => {
                        return Err(e);
                    },
                }
            } else {
                proof {
                    assert(word@.kana[ai as int].applies_to_kanji.len() != 0);
                }
            }
            ai = ai + 1;
        }
        Ok(())
    } else {
        proof {
            assert(word@.kanji.len() == 0);
        }
        let mut ai: usize = 0;
        while ai < word.kana.len()
            invariant
                ai <= word.kana.len(),
                word@.kana.len() == word.kana@.len(),
                word@.kanji.len() == 0,
                src@.freq.len() < 0x1_0000_0000,
                spec_no_kanji_pass(dict.contents(), word@, ai as int, src@) == spec_no_kanji_pass(
                    m0,
                    word@,
                    0,
                    src@,
                ),
            decreases word.kana.len() - ai,
        {
            match reading_insert(dict, word, ai, src) {
                Ok(()) => {},
                Err(e) => {
                    return Err(e);
                },
            }
            ai = ai + 1;
        }
        Ok(())
    }
}

fn build_all(dict: &mut Dictionary, src: &LexiconSource) -> (r: Result<(), DictError>)
    requires
        src@.freq.len() < 0x1_0000_0000,
    ensures
        r is Ok ==> final(dict).contents() == spec_build(old(dict).contents(), src@, 0),
{
    let ghost m0 = dict.contents();
    proof {
        assert(src@.words.len() == src.words@.len());
    }
    let mut wi: usize = 0;
    while wi < src.words.len()
        invariant
            wi <= src.words.len(),
            src@.words.len() == src.words@.len(),
            src@.freq.len() < 0x1_0000_0000,
            spec_build(dict.contents(), src@, wi as int) == spec_build(m0, src@, 0),
        decreases src.words.len() - wi,
    {
        proof {
            assert(src@.words[wi as int] == src.words@[wi as int]@);
        }
        match word_pass(dict, &src.words[wi], src) {
            Ok(()) => {},
            Err(e) => {
                return Err(e);
            },
        }
        wi = wi + 1;
    }
    Ok(())
}

/// Run the one-shot build and mark it complete: every headword ranked and
/// written under both key families, then the sentinel, then a flush.
pub fn populate(dict: &mut Dictionary, src: &LexiconSource) -> (r: Result<(), DictError>)
    requires
        src@.freq.len() < 0x1_0000_0000,
    ensures
        r is Ok ==> final(dict).contents() == spec_populated(old(dict).contents(), src@),
{
    match build_all(dict, src) {
        Ok(()) => {},
        Err(e) => {
            return Err(e);
        },
    }
    match dict.write_sentinel() {
        Ok(()) => {},
        Err(e) => {
            return Err(e);
        },
    }
    match dict.flush() {
        Ok(()) => Ok(()),
        Err(e) => Err(e),
    }
}

/// The idempotence and crash-recovery contract of startup. A store that
/// was recovered with its completion marker present is left exactly as it
/// is; one recovered with data but no marker is cleared and rebuilt from
/// scratch, identical to a build from empty; a store that was not
/// recovered is populated in place.
pub fn ensure_populated(dict: &mut Dictionary, recovered: bool, src: &LexiconSource) -> (r: Result<
    (),
    DictError,
>)
    requires
        src@.freq.len() < 0x1_0000_0000,
    ensures
        r is Ok && recovered && old(dict).contents().contains_key(crate::store::sentinel_key())
            ==> final(dict).contents() == old(dict).contents(),
        r is Ok && recovered && !old(dict).contents().contains_key(crate::store::sentinel_key())
            ==> final(dict).contents() == spec_populated(
            Map::<Seq<char>, Seq<u8>>::empty(),
            src@,
        ),
        r is Ok && !recovered ==> final(dict).contents() == spec_populated(
            old(dict).contents(),
            src@,
        ),
{
    if !recovered {
        populate(dict, src)
    } else {
        match dict.has_sentinel() {
            Ok(true) => Ok(()),
            Ok(false) => {
                match dict.clear() {
                    Ok(()) => {},
                    Err(e) => {
                        return Err(e);
                    },
                }
                populate(dict, src)
            },
            Err(e) => Err(e),
        }
    }
}

impl Dictionary {
    /// Open (or create) the store at `path` and make sure it is fully
    /// populated from the given resources, rebuilding from scratch where a
    /// crash left data without the completion marker. What comes back
    /// depends on the disk; the population contract is `ensure_populated`.
    pub fn load_dictionary(path: &str, src: &LexiconSource) -> (r: Result<Dictionary, DictError>)
        requires
            src@.freq.len() < 0x1_0000_0000,
    {
        match Dictionary::open(path) {
            Ok((mut dict, recovered)) => match ensure_populated(&mut dict, recovered, src) {
                Ok(()) => Ok(dict),
                Err(e) => Err(e),
            },
            Err(e) => Err(e),
        }
    }

    /// The hover description of a generic category label.
    pub fn get_tag(tag: &str) -> (r: &'static str)
        ensures
            r@ == crate::tags::spec_tag_description(tag@),
    {
        crate::tags::tag_description(tag)
    }
}

} // verus!
