use vstd::prelude::*;

use crate::store::spec_lookup_hit;
use crate::store::DictError;
use crate::store::Dictionary;
use crate::token::clone_token;
use crate::token::strings_view;
use crate::token::tokens_view;
use crate::token::Token;
use crate::token::TokenView;
use crate::token::Validity;

verus! {

broadcast use vstd::seq::group_seq_axioms;

// ---------------------------------------------------------------------------
// The span merger: greedy, longest-first coalescing of adjacent raw units
// into maximal spans that exist in the lexicon, never across a unit the
// segmenter certified as a function word.
// ---------------------------------------------------------------------------
/// The longest merge window ever attempted, a performance ceiling drawn
/// from the longest written form observed in the reference lexicon.
pub const MAX_WINDOW: usize = 37;

/// The surfaces of units `[i, j)`, concatenated.
pub open spec fn concat_surfaces(words: Seq<TokenView>, i: int, j: int) -> Seq<char>
    decreases j - i,
{
    if i < 0 || i >= j || j > words.len() {
        Seq::empty()
    } else {
        words[i].input_word + concat_surfaces(words, i + 1, j)
    }
}

/// The lemmas of units `[i, j)`, concatenated.
pub open spec fn concat_lemmas(words: Seq<TokenView>, i: int, j: int) -> Seq<char>
    decreases j - i,
{
    if i < 0 || i >= j || j > words.len() {
        Seq::empty()
    } else {
        words[i].deinflected_word + concat_lemmas(words, i + 1, j)
    }
}

/// Every unit of the span contributes its surface except the last, which
/// contributes its lemma: recovers citation forms for trailing inflected
/// endings. A window of one unit degenerates to that unit's lemma.
pub open spec fn tail_variant(words: Seq<TokenView>, i: int, j: int) -> Seq<char> {
    concat_surfaces(words, i, j - 1) + words[j - 1].deinflected_word
}

/// Whether any of the three candidate strings for the window `[i, j)` is
/// in the lexicon under either key family.
pub open spec fn window_hit(m: Map<Seq<char>, Seq<u8>>, words: Seq<TokenView>, i: int, j: int) -> bool {
    ||| spec_lookup_hit(m, concat_surfaces(words, i, j))
    ||| spec_lookup_hit(m, concat_lemmas(words, i, j))
    ||| spec_lookup_hit(m, tail_variant(words, i, j))
}

/// The lemma a merged token carries. A hit on the concatenated surface or
/// on the concatenated lemmas keeps the concatenated lemmas; only a hit
/// found by the tail variant alone adopts the tail variant itself.
pub open spec fn merged_deinflected(
    m: Map<Seq<char>, Seq<u8>>,
    words: Seq<TokenView>,
    i: int,
    j: int,
) -> Seq<char> {
    if spec_lookup_hit(m, concat_surfaces(words, i, j)) || spec_lookup_hit(
        m,
        concat_lemmas(words, i, j),
    ) {
        concat_lemmas(words, i, j)
    } else {
        tail_variant(words, i, j)
    }
}

/// Stable de-duplicating append: each tag of `xs` joins `acc` unless an
/// equal tag is already there, keeping first-appearance order.
pub open spec fn dedup_append(acc: Seq<Seq<char>>, xs: Seq<Seq<char>>) -> Seq<Seq<char>>
    decreases xs.len(),
{
    if xs.len() == 0 {
        acc
    } else {
        dedup_append(
            if acc.contains(xs[0]) {
                acc
            } else {
                acc.push(xs[0])
            },
            xs.drop_first(),
        )
    }
}

/// The de-duplicated union, in first-appearance order, of the grammatical
/// form tags of units `[i, j)`.
pub open spec fn conj_fold(
    acc: Seq<Seq<char>>,
    words: Seq<TokenView>,
    i: int,
    j: int,
) -> Seq<Seq<char>>
    decreases j - i,
{
    if i < 0 || i >= j || j > words.len() {
        acc
    } else {
        conj_fold(dedup_append(acc, words[i].conjugations), words, i + 1, j)
    }
}

/// The token one merged window emits. Its validity is deferred to display
/// time: a hit under some key does not certify which key resolves later.
pub open spec fn merged_token(
    m: Map<Seq<char>, Seq<u8>>,
    words: Seq<TokenView>,
    i: int,
    j: int,
) -> TokenView {
    TokenView {
        input_word: concat_surfaces(words, i, j),
        deinflected_word: merged_deinflected(m, words, i, j),
        conjugations: conj_fold(Seq::empty(), words, i, j),
        validity: Validity::UNKNOWN,
    }
}

/// The widest window width in `[1, w]` whose candidates hit the lexicon,
/// or `0` where none does: longest match wins.
pub open spec fn find_window(
    m: Map<Seq<char>, Seq<u8>>,
    words: Seq<TokenView>,
    i: int,
    w: int,
) -> int
    decreases w,
{
    if w <= 0 {
        0
    } else if window_hit(m, words, i, i + w) {
        w
    } else {
        find_window(m, words, i, w - 1)
    }
}

/// The window ceiling at position `i`: what remains, capped by the longest
/// key the lexicon can hold.
pub open spec fn window_cap(len: int, i: int) -> int {
    if len - i > MAX_WINDOW as int {
        MAX_WINDOW as int
    } else {
        len - i
    }
}

/// No unit of `[i, j)` is a segmenter-certified function word: such a unit
/// always demarcates a boundary and no merge window may cover it.
pub open spec fn valid_free(words: Seq<TokenView>, i: int, j: int) -> bool {
    forall|k: int| i <= k < j ==> (#[trigger] words[k]).validity != Validity::VALID
}

/// The widest width in `[0, d]` whose window holds no `VALID` unit.
pub open spec fn valid_cap(words: Seq<TokenView>, i: int, d: int) -> int
    decreases d,
{
    if d <= 0 {
        0
    } else if valid_free(words, i, i + d) {
        d
    } else {
        valid_cap(words, i, d - 1)
    }
}

/// The merged token sequence from position `i` on. A `VALID` unit is
/// emitted as it is, never absorbed; otherwise the widest window that
/// exists in the lexicon — and crosses no `VALID` unit — is merged; a unit
/// with no dictionary-backed window at all passes through unchanged.
pub open spec fn spec_merge(m: Map<Seq<char>, Seq<u8>>, words: Seq<TokenView>, i: int) -> Seq<
    TokenView,
>
    decreases words.len() - i,
{
    if i < 0 || i >= words.len() {
        Seq::empty()
    } else if words[i].validity == Validity::VALID {
        seq![words[i]] + spec_merge(m, words, i + 1)
    } else {
        let cap = valid_cap(words, i, window_cap(words.len() as int, i));
        let w = find_window(m, words, i, cap);
        if 1 <= w <= words.len() - i {
            seq![merged_token(m, words, i, i + w)] + spec_merge(m, words, i + w)
        } else {
            seq![words[i]] + spec_merge(m, words, i + 1)
        }
    }
}

pub proof fn lemma_valid_cap_bounds(words: Seq<TokenView>, i: int, d: int)
    ensures
        0 <= valid_cap(words, i, d) <= d || (d < 0 && valid_cap(words, i, d) == 0),
        valid_cap(words, i, d) > 0 ==> valid_free(words, i, i + valid_cap(words, i, d)),
        forall|d2: int|
            valid_cap(words, i, d) < d2 <= d ==> !(#[trigger] valid_free(words, i, i + d2)),
    decreases d,
{
    if d > 0 && !valid_free(words, i, i + d) {
        lemma_valid_cap_bounds(words, i, d - 1);
        assert forall|d2: int| valid_cap(words, i, d) < d2 <= d implies !(#[trigger] valid_free(
            words,
            i,
            i + d2,
        )) by {
            if d2 < d {
                assert(!valid_free(words, i, i + d2));
            }
        }
    }
}

pub proof fn lemma_find_window_bounds(
    m: Map<Seq<char>, Seq<u8>>,
    words: Seq<TokenView>,
    i: int,
    w: int,
)
    ensures
        0 <= find_window(m, words, i, w),
        find_window(m, words, i, w) <= w || find_window(m, words, i, w) == 0,
        forall|w2: int|
            find_window(m, words, i, w) < w2 <= w ==> !(#[trigger] window_hit(m, words, i, i + w2)),
        find_window(m, words, i, w) > 0 ==> window_hit(m, words, i, i + find_window(m, words, i, w)),
    decreases w,
{
    if w > 0 && !window_hit(m, words, i, i + w) {
        lemma_find_window_bounds(m, words, i, w - 1);
    }
}

/// Below a width with no hits above it, the search result is the same.
pub proof fn lemma_find_window_step(
    m: Map<Seq<char>, Seq<u8>>,
    words: Seq<TokenView>,
    i: int,
    w: int,
    cap: int,
)
    requires
        0 <= w <= cap,
        forall|w2: int| w < w2 <= cap ==> !(#[trigger] window_hit(m, words, i, i + w2)),
    ensures
        find_window(m, words, i, cap) == find_window(m, words, i, w),
    decreases cap - w,
{
    if w < cap {
        lemma_find_window_step(m, words, i, w, cap - 1);
    }
}

/// A hit anywhere below the cap forces a result at least that wide.
pub proof fn lemma_find_window_lower(
    m: Map<Seq<char>, Seq<u8>>,
    words: Seq<TokenView>,
    i: int,
    w: int,
    cap: int,
)
    requires
        1 <= w <= cap,
        window_hit(m, words, i, i + w),
    ensures
        find_window(m, words, i, cap) >= w,
    decreases cap,
{
    if cap > w && !window_hit(m, words, i, i + cap) {
        lemma_find_window_lower(m, words, i, w, cap - 1);
    }
}

// ---------------------------------------------------------------------------
// Laws of the merger.
// ---------------------------------------------------------------------------
/// Longest-match preference: where a window of width `w2` exists in the
/// lexicon (and crosses no `VALID` unit), no narrower window is ever
/// chosen — the merger emits one token spanning at least `w2` units.
pub proof fn lemma_longest_match(
    m: Map<Seq<char>, Seq<u8>>,
    words: Seq<TokenView>,
    i: int,
    w2: int,
)
    requires
        0 <= i < words.len(),
        words[i].validity != Validity::VALID,
        1 <= w2 <= valid_cap(words, i, window_cap(words.len() as int, i)),
        window_hit(m, words, i, i + w2),
    ensures
        ({
            let cap = valid_cap(words, i, window_cap(words.len() as int, i));
            let w = find_window(m, words, i, cap);
            &&& w >= w2
            &&& spec_merge(m, words, i) == seq![merged_token(m, words, i, i + w)] + spec_merge(
                m,
                words,
                i + w,
            )
        }),
{
    let cap = valid_cap(words, i, window_cap(words.len() as int, i));
    lemma_valid_cap_bounds(words, i, window_cap(words.len() as int, i));
    lemma_find_window_lower(m, words, i, w2, cap);
    lemma_find_window_bounds(m, words, i, cap);
}

/// Valid-unit boundary: whatever the dictionary contents, every unit the
/// segmenter certified as a function word stands in the output unchanged,
/// never absorbed into a merge window.
pub proof fn lemma_valid_unit_boundary(
    m: Map<Seq<char>, Seq<u8>>,
    words: Seq<TokenView>,
    i: int,
    k: int,
)
    requires
        0 <= i <= k < words.len(),
        words[k].validity == Validity::VALID,
    ensures
        spec_merge(m, words, i).contains(words[k]),
    decreases words.len() - i,
{
    if i == k {
        let rest = spec_merge(m, words, i + 1);
        assert((seq![words[i]] + rest)[0] == words[k]);
    } else {
        if words[i].validity == Validity::VALID {
            lemma_valid_unit_boundary(m, words, i + 1, k);
            let rest = spec_merge(m, words, i + 1);
            let idx = choose|idx: int| 0 <= idx < rest.len() && rest[idx] == words[k];
            assert((seq![words[i]] + rest)[idx + 1] == words[k]);
        } else {
            let cap = valid_cap(words, i, window_cap(words.len() as int, i));
            let w = find_window(m, words, i, cap);
            lemma_valid_cap_bounds(words, i, window_cap(words.len() as int, i));
            lemma_find_window_bounds(m, words, i, cap);
            if 1 <= w <= words.len() - i {
                // the window is free of VALID units, so it ends at or
                // before k, and the rest of the run still holds k
                assert(valid_free(words, i, i + w));
                assert(i + w <= k) by {
                    if k < i + w {
                        assert(words[k].validity != Validity::VALID);
                    }
                }
                lemma_valid_unit_boundary(m, words, i + w, k);
                let rest = spec_merge(m, words, i + w);
                let idx = choose|idx: int| 0 <= idx < rest.len() && rest[idx] == words[k];
                assert((seq![merged_token(m, words, i, i + w)] + rest)[idx + 1] == words[k]);
            } else {
                lemma_valid_unit_boundary(m, words, i + 1, k);
                let rest = spec_merge(m, words, i + 1);
                let idx = choose|idx: int| 0 <= idx < rest.len() && rest[idx] == words[k];
                assert((seq![words[i]] + rest)[idx + 1] == words[k]);
            }
        }
    }
}

// ---------------------------------------------------------------------------
// The executable merger.
// ---------------------------------------------------------------------------
pub proof fn lemma_concat_surfaces_snoc(words: Seq<TokenView>, i: int, k: int)
    requires
        0 <= i <= k < words.len(),
    ensures
        concat_surfaces(words, i, k + 1) == concat_surfaces(words, i, k) + words[k].input_word,
    decreases k - i,
{
    if i == k {
        assert(concat_surfaces(words, i + 1, i + 1) =~= Seq::<char>::empty());
        assert(concat_surfaces(words, i, i) =~= Seq::<char>::empty());
        assert(concat_surfaces(words, i, i + 1) =~= concat_surfaces(words, i, i)
            + words[i].input_word);
    } else {
        lemma_concat_surfaces_snoc(words, i + 1, k);
        assert(words[i].input_word + (concat_surfaces(words, i + 1, k) + words[k].input_word)
            =~= (words[i].input_word + concat_surfaces(words, i + 1, k)) + words[k].input_word);
    }
}

pub proof fn lemma_concat_lemmas_snoc(words: Seq<TokenView>, i: int, k: int)
    requires
        0 <= i <= k < words.len(),
    ensures
        concat_lemmas(words, i, k + 1) == concat_lemmas(words, i, k) + words[k].deinflected_word,
    decreases k - i,
{
    if i == k {
        assert(concat_lemmas(words, i + 1, i + 1) =~= Seq::<char>::empty());
        assert(concat_lemmas(words, i, i) =~= Seq::<char>::empty());
        assert(concat_lemmas(words, i, i + 1) =~= concat_lemmas(words, i, i)
            + words[i].deinflected_word);
    } else {
        lemma_concat_lemmas_snoc(words, i + 1, k);
        assert(words[i].deinflected_word + (concat_lemmas(words, i + 1, k)
            + words[k].deinflected_word) =~= (words[i].deinflected_word + concat_lemmas(
            words,
            i + 1,
            k,
        )) + words[k].deinflected_word);
    }
}

fn concat_surfaces_exec(words: &Vec<Token>, i: usize, j: usize) -> (r: String)
    requires
        i <= j && j <= words.len(),
    ensures
        r@ == concat_surfaces(tokens_view(words@), i as int, j as int),
{
    let ghost wv = tokens_view(words@);
    let mut r = String::new();
    proof {
        assert(r@ =~= concat_surfaces(wv, i as int, i as int));
    }
    let mut k: usize = i;
    while k < j
        invariant
            i <= k <= j,
            j <= words.len(),
            wv == tokens_view(words@),
            r@ == concat_surfaces(wv, i as int, k as int),
        decreases j - k,
    {
        r.append(words[k].input_word.as_str());
        proof {
            assert(wv[k as int] == words@[k as int]@);
            lemma_concat_surfaces_snoc(wv, i as int, k as int);
        }
        k = k + 1;
    }
    r
}

fn concat_lemmas_exec(words: &Vec<Token>, i: usize, j: usize) -> (r: String)
    requires
        i <= j && j <= words.len(),
    ensures
        r@ == concat_lemmas(tokens_view(words@), i as int, j as int),
{
    let ghost wv = tokens_view(words@);
    let mut r = String::new();
    proof {
        assert(r@ =~= concat_lemmas(wv, i as int, i as int));
    }
    let mut k: usize = i;
    while k < j
        invariant
            i <= k <= j,
            j <= words.len(),
            wv == tokens_view(words@),
            r@ == concat_lemmas(wv, i as int, k as int),
        decreases j - k,
    {
        r.append(words[k].deinflected_word.as_str());
        proof {
            assert(wv[k as int] == words@[k as int]@);
            lemma_concat_lemmas_snoc(wv, i as int, k as int);
        }
        k = k + 1;
    }
    r
}

fn contains_string(v: &Vec<String>, s: &String) -> (r: bool)
    ensures
        r == strings_view(v@).contains(s@),
{
    let ghost views = strings_view(v@);
    let mut k: usize = 0;
    let mut found = false;
    while k < v.len() && !found
        invariant
            k <= v.len(),
            views == strings_view(v@),
            views.len() == v@.len(),
            found ==> views.contains(s@),
            !found ==> forall|q: int| 0 <= q < k ==> views[q] != s@,
        decreases v.len() - k, (if found { 0int } else { 1int }),
    {
        if v[k].eq(s) {
            found = true;
            proof {
                assert(views[k as int] == v@[k as int]@);
            }
        } else {
            proof {
                assert(views[k as int] == v@[k as int]@);
            }
            k = k + 1;
        }
    }
    found
}

fn merge_conjugations(words: &Vec<Token>, i: usize, j: usize) -> (r: Vec<String>)
    requires
        i <= j && j <= words.len(),
    ensures
        strings_view(r@) == conj_fold(Seq::empty(), tokens_view(words@), i as int, j as int),
{
    let ghost wv = tokens_view(words@);
    let mut forms: Vec<String> = Vec::new();
    proof {
        assert(strings_view(forms@) =~= Seq::<Seq<char>>::empty());
    }
    let mut k: usize = i;
    while k < j
        invariant
            i <= k <= j,
            j <= words.len(),
            wv == tokens_view(words@),
            conj_fold(strings_view(forms@), wv, k as int, j as int) == conj_fold(
                Seq::empty(),
                wv,
                i as int,
                j as int,
            ),
        decreases j - k,
    {
        let ghost entry_forms = strings_view(forms@);
        let ghost xs = wv[k as int].conjugations;
        proof {
            assert(wv[k as int] == words@[k as int]@);
            assert(xs == strings_view(words@[k as int].conjugations@));
        }
        let n = words[k].conjugations.len();
        proof {
            assert(xs.subrange(0, n as int) =~= xs);
        }
        let mut c: usize = 0;
        while c < n
            invariant
                c <= n,
                k < j <= words.len(),
                wv == tokens_view(words@),
                n == words@[k as int].conjugations@.len(),
                xs == strings_view(words@[k as int].conjugations@),
                xs.len() == n,
                dedup_append(strings_view(forms@), xs.subrange(c as int, n as int))
                    == dedup_append(entry_forms, xs),
            decreases n - c,
        {
            let ghost pre = strings_view(forms@);
            let ghost sub = xs.subrange(c as int, n as int);
            proof {
                assert(sub[0] == xs[c as int]);
                assert(sub.drop_first() =~= xs.subrange(c as int + 1, n as int));
                assert(xs[c as int] == words@[k as int].conjugations@[c as int]@);
            }
            let cur = &words[k].conjugations[c];
            if !contains_string(&forms, cur) {
                forms.push(cur.clone());
                proof {
                    assert(strings_view(forms@) =~= pre.push(xs[c as int]));
                }
            }
            c = c + 1;
        }
        proof {
            assert(xs.subrange(n as int, n as int) =~= Seq::<Seq<char>>::empty());
            assert(dedup_append(strings_view(forms@), xs.subrange(n as int, n as int))
                == strings_view(forms@));
        }
        k = k + 1;
    }
    forms
}

/// Reconcile the segmenter's raw units with the lexicon: greedily coalesce
/// adjacent units into the longest spans the store knows, left to right,
/// never across a `VALID` unit. A storage fault or a corrupt record
/// surfaces as an error; otherwise the output is exactly the merge the
/// specification describes over the store's contents.
pub fn improve_tokens(words: &Vec<Token>, dictionary: &Dictionary) -> (r: Result<
    Vec<Token>,
    DictError,
>)
    ensures
        r matches Ok(out) ==> tokens_view(out@) == spec_merge(
            dictionary.contents(),
            tokens_view(words@),
            0,
        ),
{
    let ghost m = dictionary.contents();
    let ghost wv = tokens_view(words@);
    let mut out: Vec<Token> = Vec::new();
    proof {
        assert(tokens_view(out@) =~= Seq::<TokenView>::empty());
        assert(wv.len() == words@.len());
    }
    let mut i: usize = 0;
    while i < words.len()
        invariant
            i <= words.len(),
            m == dictionary.contents(),
            wv == tokens_view(words@),
            wv.len() == words@.len(),
            tokens_view(out@) + spec_merge(m, wv, i as int) == spec_merge(m, wv, 0),
        decreases words.len() - i,
    {
        let ghost out_pre = tokens_view(out@);
        proof {
            assert(wv[i as int] == words@[i as int]@);
        }
        let is_particle = match words[i].validity {
            Validity::VALID => true,
            _ => false,
        };
        if is_particle {
            out.push(clone_token(&words[i]));
            proof {
                assert(tokens_view(out@) =~= out_pre.push(wv[i as int]));
                let rest = spec_merge(m, wv, i as int + 1);
                assert(spec_merge(m, wv, i as int) == seq![wv[i as int]] + rest);
                assert(out_pre + (seq![wv[i as int]] + rest) =~= out_pre.push(wv[i as int]) + rest);
            }
            i = i + 1;
        } else {
            // window ceiling: what remains, the global cap, and the next
            // function word all bound the window
            let remaining = words.len() - i;
            let gcap = if remaining > MAX_WINDOW {
                MAX_WINDOW
            } else {
                remaining
            };
            // stop the window before the first VALID unit
            let mut vcap: usize = 1;
            let mut stopped = false;
            while vcap < gcap && !stopped
                invariant
                    1 <= vcap <= gcap,
                    i < words.len(),
                    gcap <= words.len() - i,
                    wv == tokens_view(words@),
                    wv.len() == words@.len(),
                    valid_free(wv, i as int + 1, i as int + vcap as int),
                    stopped ==> vcap < gcap && wv[i as int + vcap as int].validity
                        == Validity::VALID,
                decreases gcap - vcap, (if stopped { 0int } else { 1int }),
            {
                proof {
                    assert(wv[i as int + vcap as int] == words@[i as int + vcap as int]@);
                }
                let next_valid = match words[i + vcap].validity {
                    Validity::VALID => true,
                    _ => false,
                };
                if next_valid {
                    stopped = true;
                } else {
                    vcap = vcap + 1;
                }
            }
            proof {
                // vcap is exactly the valid cap of the search
                assert(wv[i as int] == words@[i as int]@);
                assert(valid_free(wv, i as int, i as int + vcap as int));
                lemma_valid_cap_bounds(wv, i as int, window_cap(wv.len() as int, i as int));
                assert(window_cap(wv.len() as int, i as int) == gcap as int);
                if (vcap as int) < (gcap as int) {
                    assert(wv[i as int + vcap as int].validity == Validity::VALID);
                    assert forall|d2: int| (vcap as int) < d2 <= (gcap as int) implies !(#[trigger] valid_free(
                        wv,
                        i as int,
                        i as int + d2,
                    )) by {
                        assert((i as int) <= (i as int + vcap as int) < (i as int + d2));
                    }
                    lemma_valid_cap_step(wv, i as int, vcap as int, gcap as int);
                } else {
                    assert(vcap as int == gcap as int);
                }
                assert(valid_cap(wv, i as int, gcap as int) == vcap as int);
            }
            let ghost cap = valid_cap(wv, i as int, window_cap(wv.len() as int, i as int));
            let mut w: usize = vcap;
            let mut found = false;
            let mut result: Option<(String, String, usize)> = None;
            while w >= 1 && !found
                invariant
                    w <= vcap,
                    found == (result is Some),
                    vcap as int == cap,
                    1 <= vcap <= words.len() - i,
                    i < words.len(),
                    m == dictionary.contents(),
                    wv == tokens_view(words@),
                    wv.len() == words@.len(),
                    !found ==> forall|w2: int|
                        w < w2 <= cap ==> !(#[trigger] window_hit(m, wv, i as int, i as int + w2)),
                    match result {
                        Some((surface, base, hw)) => {
                            &&& 1 <= hw <= vcap
                            &&& w == hw
                            &&& window_hit(m, wv, i as int, i as int + hw as int)
                            &&& (forall|w2: int|
                                hw < w2 <= cap ==> !(#[trigger] window_hit(
                                    m,
                                    wv,
                                    i as int,
                                    i as int + w2,
                                )))
                            &&& surface@ == concat_surfaces(wv, i as int, i as int + hw as int)
                            &&& base@ == merged_deinflected(m, wv, i as int, i as int + hw as int)
                        },
                        None => true,
                    },
                decreases w, (if found { 0int } else { 1int }),
            {
                let surface = concat_surfaces_exec(words, i, i + w);
                let base = concat_lemmas_exec(words, i, i + w);
                let mut tail = concat_surfaces_exec(words, i, i + w - 1);
                tail.append(words[i + w - 1].deinflected_word.as_str());
                proof {
                    assert(wv[i as int + w as int - 1] == words@[i as int + w as int - 1]@);
                    assert(tail@ == tail_variant(wv, i as int, i as int + w as int));
                }
                match dictionary.lookup(surface.as_str()) {
                    Ok(Some(_)) => {
                        result = Some((surface, base, w));
                        found = true;
                    },
                    Ok(None) => match dictionary.lookup(base.as_str()) {
                        Ok(Some(_)) => {
                            result = Some((surface, base, w));
                            found = true;
                        },
                        Ok(None) => match dictionary.lookup(tail.as_str()) {
                            Ok(Some(_)) => {
                                result = Some((surface, tail, w));
                                found = true;
                            },
                            Ok(None) => {
                                w = w - 1;
                            },
                            Err(e) => {
                                return Err(e);
                            },
                        },
                        Err(e) => {
                            return Err(e);
                        },
                    },
                    Err(e) => {
                        return Err(e);
                    },
                }
            }
            match result {
                Some((surface, base, hw)) => {
                    let conjugations = merge_conjugations(words, i, i + hw);
                    let token = Token {
                        input_word: surface,
                        deinflected_word: base,
                        conjugations,
                        validity: Validity::UNKNOWN,
                    };
                    out.push(token);
                    proof {
                        lemma_find_window_step(m, wv, i as int, hw as int, cap);
                        assert(find_window(m, wv, i as int, hw as int) == hw as int);
                        let spec_w = find_window(m, wv, i as int, cap);
                        assert(spec_w == hw as int);
                        let mt = merged_token(m, wv, i as int, i as int + hw as int);
                        assert(tokens_view(out@) =~= out_pre.push(mt));
                        let rest = spec_merge(m, wv, i as int + hw as int);
                        assert(spec_merge(m, wv, i as int) == seq![mt] + rest);
                        assert(out_pre + (seq![mt] + rest) =~= out_pre.push(mt) + rest);
                    }
                    i = i + hw;
                },
                None => {
                    out.push(clone_token(&words[i]));
                    proof {
                        lemma_find_window_step(m, wv, i as int, 0, cap);
                        assert(find_window(m, wv, i as int, cap) == 0);
                        assert(tokens_view(out@) =~= out_pre.push(wv[i as int]));
                        let rest = spec_merge(m, wv, i as int + 1);
                        assert(spec_merge(m, wv, i as int) == seq![wv[i as int]] + rest);
                        assert(out_pre + (seq![wv[i as int]] + rest) =~= out_pre.push(wv[i as int])
                            + rest);
                    }
                    i = i + 1;
                },
            }
        }
    }
    proof {
        assert(spec_merge(m, wv, words@.len() as int) =~= Seq::<TokenView>::empty());
        assert(tokens_view(out@) + Seq::<TokenView>::empty() =~= tokens_view(out@));
    }
    Ok(out)
}

/// Over a run that ends where the longest valid-free window does, the cap
/// search settles on that window.
pub proof fn lemma_valid_cap_step(words: Seq<TokenView>, i: int, v: int, d: int)
    requires
        0 <= v <= d,
        forall|d2: int| v < d2 <= d ==> !(#[trigger] valid_free(words, i, i + d2)),
    ensures
        valid_cap(words, i, d) == valid_cap(words, i, v),
    decreases d - v,
{
    if v < d {
        lemma_valid_cap_step(words, i, v, d - 1);
    }
}

} // verus!
