use vstd::prelude::*;

verus! {

/// One sense of a headword: category labels, supplementary notes, and the
/// ordered list of translated meanings. Immutable once built.
#[derive(Clone, Debug)]
pub struct DictionaryMeaning {
    pub tags: Vec<String>,
    pub info: Vec<String>,
    pub gloss: Vec<String>,
}

/// Ruby annotation aligning one segment of a written form to its reading.
/// `rt` is absent for segments that are read as written.
#[derive(Clone, Debug)]
pub struct Furigana {
    pub ruby: String,
    pub rt: Option<String>,
}

/// One spelling/reading pair for a headword.
///
/// `term` is the written form; an empty string means the reading stands
/// alone with no distinct written form. `frequency` is a corpus rank,
/// smaller = more frequent, absent = unranked. `common` is the source
/// dictionary's commonality flag.
#[derive(Clone, Debug)]
pub struct DictionaryTerm {
    pub id: String,
    pub frequency: Option<u32>,
    pub common: bool,
    pub term: String,
    pub reading: String,
    pub furigana: Option<Vec<Furigana>>,
    pub meanings: Vec<DictionaryMeaning>,
}

/// All terms stored under one lookup key, kept in the four-bucket order
/// described by `entry_sorted`.
#[derive(Clone, Debug)]
pub struct DictionaryEntry {
    pub terms: Vec<DictionaryTerm>,
}

// Mathematical views of the entry types: plain sequences in place of vectors
// and strings, so that contracts can speak of values structurally.

#[verifier::ext_equal]
pub struct FuriganaView {
    pub ruby: Seq<char>,
    pub rt: Option<Seq<char>>,
}

#[verifier::ext_equal]
pub struct MeaningView {
    pub tags: Seq<Seq<char>>,
    pub info: Seq<Seq<char>>,
    pub gloss: Seq<Seq<char>>,
}

#[verifier::ext_equal]
pub struct TermView {
    pub id: Seq<char>,
    pub frequency: Option<u32>,
    pub common: bool,
    pub term: Seq<char>,
    pub reading: Seq<char>,
    pub furigana: Option<Seq<FuriganaView>>,
    pub meanings: Seq<MeaningView>,
}

#[verifier::ext_equal]
pub struct EntryView {
    pub terms: Seq<TermView>,
}

impl View for Furigana {
    type V = FuriganaView;

    open spec fn view(&self) -> FuriganaView {
        FuriganaView {
            ruby: self.ruby@,
            rt: match self.rt {
                Some(s) => Some(s@),
                None => None,
            },
        }
    }
}

impl View for DictionaryMeaning {
    type V = MeaningView;

    open spec fn view(&self) -> MeaningView {
        MeaningView {
            tags: self.tags@.map_values(|s: String| s@),
            info: self.info@.map_values(|s: String| s@),
            gloss: self.gloss@.map_values(|s: String| s@),
        }
    }
}

impl View for DictionaryTerm {
    type V = TermView;

    open spec fn view(&self) -> TermView {
        TermView {
            id: self.id@,
            frequency: self.frequency,
            common: self.common,
            term: self.term@,
            reading: self.reading@,
            furigana: match self.furigana {
                Some(v) => Some(v@.map_values(|f: Furigana| f@)),
                None => None,
            },
            meanings: self.meanings@.map_values(|m: DictionaryMeaning| m@),
        }
    }
}

impl View for DictionaryEntry {
    type V = EntryView;

    open spec fn view(&self) -> EntryView {
        EntryView { terms: self.terms@.map_values(|t: DictionaryTerm| t@) }
    }
}

/// The bucket a term sorts into: common ranked terms first, then common
/// unranked, then uncommon ranked, then uncommon unranked.
pub open spec fn bucket(t: TermView) -> int {
    if t.common {
        if t.frequency is Some {
            0
        } else {
            1
        }
    } else {
        if t.frequency is Some {
            2
        } else {
            3
        }
    }
}

/// `e` sorts strictly after `n`: it belongs to a later bucket, or to the
/// same ranked bucket with a strictly larger frequency rank.
pub open spec fn comes_after(e: TermView, n: TermView) -> bool {
    ||| bucket(e) > bucket(n)
    ||| (bucket(e) == bucket(n) && e.frequency is Some && n.frequency is Some
        && e.frequency.unwrap() > n.frequency.unwrap())
}

/// The entry invariant: terms partition into the four buckets in order,
/// with ascending frequency inside each ranked bucket.
pub open spec fn entry_sorted(terms: Seq<TermView>) -> bool {
    forall|i: int, j: int|
        0 <= i < j < terms.len() ==> !comes_after(#[trigger] terms[i], #[trigger] terms[j])
}

/// Where a new term lands: just before the first stored term that sorts
/// after it, or at the end if none does. Insertion is stable: a term never
/// jumps ahead of an equal-ranking one already present.
pub open spec fn insertion_index(terms: Seq<TermView>, n: TermView) -> int
    decreases terms.len(),
{
    if terms.len() == 0 {
        0
    } else if comes_after(terms[0], n) {
        0
    } else {
        1 + insertion_index(terms.drop_first(), n)
    }
}

pub proof fn lemma_insertion_index_props(terms: Seq<TermView>, n: TermView)
    ensures
        0 <= insertion_index(terms, n) <= terms.len(),
        forall|j: int|
            0 <= j < insertion_index(terms, n) ==> !comes_after(#[trigger] terms[j], n),
        insertion_index(terms, n) < terms.len() ==> comes_after(
            terms[insertion_index(terms, n)],
            n,
        ),
    decreases terms.len(),
{
    if terms.len() == 0 {
    } else if comes_after(terms[0], n) {
    } else {
        lemma_insertion_index_props(terms.drop_first(), n);
        assert forall|j: int| 0 <= j < insertion_index(terms, n) implies !comes_after(
            #[trigger] terms[j],
            n,
        ) by {
            if j > 0 {
                assert(terms.drop_first()[j - 1] == terms[j]);
            }
        }
        if insertion_index(terms, n) < terms.len() {
            assert(terms.drop_first()[insertion_index(terms.drop_first(), n)] == terms[
                insertion_index(terms, n)]);
        }
    }
}

/// The term list that a sequence of rank-preserving insertions builds up
/// from nothing, newest insertion last.
pub open spec fn insert_all(terms: Seq<TermView>) -> Seq<TermView>
    decreases terms.len(),
{
    if terms.len() == 0 {
        Seq::empty()
    } else {
        let prev = insert_all(terms.drop_last());
        prev.insert(insertion_index(prev, terms.last()), terms.last())
    }
}

/// Bucket invariant: after any sequence of insertions, the stored list
/// partitions into the four buckets in order, ascending by frequency
/// within the ranked buckets.
pub proof fn lemma_bucket_invariant(terms: Seq<TermView>)
    ensures
        entry_sorted(insert_all(terms)),
    decreases terms.len(),
{
    if terms.len() == 0 {
        assert(entry_sorted(Seq::<TermView>::empty()));
    } else {
        lemma_bucket_invariant(terms.drop_last());
        lemma_insert_preserves_sorted(insert_all(terms.drop_last()), terms.last());
    }
}

/// The bucket invariant is preserved by inserting at `insertion_index`.
pub proof fn lemma_insert_preserves_sorted(terms: Seq<TermView>, n: TermView)
    requires
        entry_sorted(terms),
    ensures
        entry_sorted(terms.insert(insertion_index(terms, n), n)),
{
    lemma_insertion_index_props(terms, n);
    let ii = insertion_index(terms, n);
    let out = terms.insert(ii, n);
    assert forall|i: int, j: int| 0 <= i < j < out.len() implies !comes_after(
        #[trigger] out[i],
        #[trigger] out[j],
    ) by {
        if i < ii && j < ii {
            assert(out[i] == terms[i] && out[j] == terms[j]);
        } else if i < ii && j == ii {
            assert(out[i] == terms[i] && out[j] == n);
        } else if i < ii && j > ii {
            assert(out[i] == terms[i] && out[j] == terms[j - 1]);
        } else if i == ii && j > ii {
            assert(out[i] == n && out[j] == terms[j - 1]);
            // terms[ii] sorts after n, and terms[j-1] does not sort before
            // terms[ii], so terms[j-1] sorts after (or level with) n.
            assert(comes_after(terms[ii], n));
            if ii < j - 1 {
                assert(!comes_after(terms[ii], terms[j - 1]));
            }
        } else {
            assert(out[i] == terms[i - 1] && out[j] == terms[j - 1]);
        }
    }
}

fn term_comes_after(e: &DictionaryTerm, n: &DictionaryTerm) -> (r: bool)
    ensures
        r == comes_after(e@, n@),
{
    let eb: u32 = if e.common {
        if e.frequency.is_some() {
            0
        } else {
            1
        }
    } else {
        if e.frequency.is_some() {
            2
        } else {
            3
        }
    };
    let nb: u32 = if n.common {
        if n.frequency.is_some() {
            0
        } else {
            1
        }
    } else {
        if n.frequency.is_some() {
            2
        } else {
            3
        }
    };
    if eb > nb {
        true
    } else if eb == nb {
        match (e.frequency, n.frequency) {
            (Some(ef), Some(nf)) => ef > nf,
            _ => false,
        }
    } else {
        false
    }
}

impl DictionaryEntry {
    /// Rank-preserving insertion: a linear scan places the new term at the
    /// first position whose occupant sorts after it, so the four-bucket
    /// order is maintained incrementally, never by re-sorting.
    pub fn insert_term(&mut self, n: DictionaryTerm)
        ensures
            final(self)@.terms == old(self)@.terms.insert(
                insertion_index(old(self)@.terms, n@),
                n@,
            ),
            entry_sorted(old(self)@.terms) ==> entry_sorted(final(self)@.terms),
    {
        let ghost before = self@.terms;
        let ghost target = insertion_index(before, n@);
        proof {
            lemma_insertion_index_props(before, n@);
            if entry_sorted(before) {
                lemma_insert_preserves_sorted(before, n@);
            }
        }
        let mut i: usize = 0;
        let mut found: bool = false;
        while i < self.terms.len() && !found
            invariant
                self@.terms == before,
                self.terms.len() == before.len(),
                target == insertion_index(before, n@),
                0 <= i <= before.len(),
                !found ==> i <= target,
                !found ==> forall|j: int| 0 <= j < i ==> !comes_after(#[trigger] before[j], n@),
                found ==> i == target,
            decreases before.len() - i, (if found { 0int } else { 1int }),
        {
            proof {
                lemma_insertion_index_props(before, n@);
            }
            if term_comes_after(&self.terms[i], &n) {
                found = true;
                proof {
                    if i < target {
                        assert(!comes_after(before[i as int], n@));
                    }
                }
            } else {
                i = i + 1;
                proof {
                    if i > target {
                        assert(target < before.len());
                        assert(comes_after(before[target], n@));
                        assert(!comes_after(before[target], n@));
                    }
                }
            }
        }
        proof {
            lemma_insertion_index_props(before, n@);
            if !found && target < before.len() {
                assert(comes_after(before[target], n@));
                assert(!comes_after(before[target], n@));
            }
        }
        self.terms.insert(i, n);
        proof {
            assert(self@.terms =~= before.insert(target, n@));
        }
    }
}

} // verus!
