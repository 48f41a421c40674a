use vstd::prelude::*;

use crate::entry::DictionaryEntry;
use crate::entry::EntryView;
use crate::store::spec_entry_at;
use crate::store::spec_lookup_hit;
use crate::store::spec_lookup_key;
use crate::store::DictError;
use crate::store::Dictionary;
use crate::token::Token;

verus! {

// ---------------------------------------------------------------------------
// The lookup resolver: the deterministic fallback chain that materializes a
// displayable entry for one token. The citation lemma often carries one
// extra trailing character relative to what the dictionary stores, so the
// chain retries both words with their last character removed.
// ---------------------------------------------------------------------------
/// A word with its last character removed; the empty word stays empty.
pub open spec fn drop_last(w: Seq<char>) -> Seq<char> {
    if w.len() == 0 {
        w
    } else {
        w.subrange(0, w.len() - 1)
    }
}

/// The word the fallback chain resolves from: the lemma, then the surface,
/// then each with its last character removed — first hit wins.
pub open spec fn spec_resolve_word(
    m: Map<Seq<char>, Seq<u8>>,
    deinflected: Seq<char>,
    input: Seq<char>,
) -> Option<Seq<char>> {
    if spec_lookup_hit(m, deinflected) {
        Some(deinflected)
    } else if spec_lookup_hit(m, input) {
        Some(input)
    } else if spec_lookup_hit(m, drop_last(deinflected)) {
        Some(drop_last(deinflected))
    } else if spec_lookup_hit(m, drop_last(input)) {
        Some(drop_last(input))
    } else {
        None
    }
}

/// The entry the chain yields, read under the word it stopped at.
pub open spec fn spec_resolve(
    m: Map<Seq<char>, Seq<u8>>,
    deinflected: Seq<char>,
    input: Seq<char>,
) -> Option<EntryView> {
    match spec_resolve_word(m, deinflected, input) {
        Some(w) => spec_entry_at(m, spec_lookup_key(m, w)),
        None => None,
    }
}

fn drop_last_exec(w: &str) -> (r: String)
    ensures
        r@ == drop_last(w@),
{
    let n = w.unicode_len();
    if n == 0 {
        w.to_owned()
    } else {
        w.substring_char(0, n - 1).to_owned()
    }
}

impl Dictionary {
    /// Resolve one token to a displayable entry through the fallback
    /// chain: `deinflected_word`, `input_word`, then each minus its last
    /// character. `Ok(None)` is the legitimate no-coverage outcome, not an
    /// error; a corrupt record at the word the chain stops at surfaces as
    /// a corruption error.
    pub fn resolve_token(&self, token: &Token) -> (r: Result<Option<DictionaryEntry>, DictError>)
        ensures
            match r {
                Ok(Some(e)) => spec_resolve(
                    self.contents(),
                    token.deinflected_word@,
                    token.input_word@,
                ) == Some(e@),
                Ok(None) => spec_resolve_word(
                    self.contents(),
                    token.deinflected_word@,
                    token.input_word@,
                ) is None,
                Err(err) => err == DictError::Corrupt ==> spec_resolve_word(
                    self.contents(),
                    token.deinflected_word@,
                    token.input_word@,
                ) is Some && spec_resolve(
                    self.contents(),
                    token.deinflected_word@,
                    token.input_word@,
                ) is None,
            },
    {
        match self.lookup(token.deinflected_word.as_str()) {
            Ok(Some(e)) => Ok(Some(e)),
            Ok(None) => match self.lookup(token.input_word.as_str()) {
                Ok(Some(e)) => Ok(Some(e)),
                Ok(None) => {
                    let base_minus = drop_last_exec(token.deinflected_word.as_str());
                    match self.lookup(base_minus.as_str()) {
                        Ok(Some(e)) => Ok(Some(e)),
                        Ok(None) => {
                            let input_minus = drop_last_exec(token.input_word.as_str());
                            match self.lookup(input_minus.as_str()) {
                                Ok(Some(e)) => Ok(Some(e)),
                                Ok(None) => Ok(None),
                                Err(e) => Err(e),
                            }
                        },
                        Err(e) => Err(e),
                    }
                },
                Err(e) => Err(e),
            },
            Err(e) => Err(e),
        }
    }
}

/// Fallback chain order: whenever the lemma itself is covered by the
/// store, the chain answers from the lemma; whenever the lemma misses but
/// the surface is covered, it answers from the surface and never reaches
/// the truncated variants.
pub proof fn lemma_fallback_chain_order(
    m: Map<Seq<char>, Seq<u8>>,
    deinflected: Seq<char>,
    input: Seq<char>,
)
    ensures
        spec_lookup_hit(m, deinflected) ==> spec_resolve_word(m, deinflected, input) == Some(
            deinflected,
        ),
        !spec_lookup_hit(m, deinflected) && spec_lookup_hit(m, input) ==> spec_resolve_word(
            m,
            deinflected,
            input,
        ) == Some(input),
{
}

} // verus!
