use vstd::prelude::*;

use crate::token::Validity;

verus! {

// ---------------------------------------------------------------------------
// The data model of the remote word-search backend, and the per-word cell
// that caches its answers. The network call itself is the caller's
// business: a word hands in the fetched response (or `None` for a failed
// fetch) and the cell settles its own validity from it.
// ---------------------------------------------------------------------------
/// The word list a remote search returns.
#[derive(Clone, Debug)]
pub struct Response {
    pub words: Vec<Word>,
}

/// One word of a remote search result.
#[derive(Clone, Debug)]
pub struct Word {
    pub reading: Reading,
    pub senses: Vec<Sense>,
}

/// The written form (where one exists) and pronunciation of a result.
#[derive(Clone, Debug)]
pub struct Reading {
    pub kana: String,
    pub kanji: Option<String>,
}

/// The glosses of one sense of a result.
#[derive(Clone, Debug)]
pub struct Sense {
    pub glosses: Vec<String>,
}

/// One parsed word of a query, with the remote response cached once it
/// has been fetched.
#[derive(Clone, Debug)]
pub struct ParsedWord {
    /// The word as it appeared in the input.
    pub surface: String,
    /// The deinflected form the segmenter assigned.
    pub base: String,
    /// The conjugation-form tags observed for it.
    pub forms: Vec<String>,
    response: Option<Response>,
    valid_word: Validity,
}

impl ParsedWord {
    /// A word fresh from the segmenter, nothing fetched yet.
    pub fn new(surface: String, base: String, forms: Vec<String>, validity: Validity) -> (r:
        ParsedWord)
        ensures
            r.spec_surface() == surface,
            r.spec_base() == base,
            r.spec_forms() == forms,
            r.spec_validity() == validity,
            r.spec_response() is None,
    {
        ParsedWord { surface, base, forms, response: None, valid_word: validity }
    }

    pub closed spec fn spec_validity(&self) -> Validity {
        self.valid_word
    }

    pub closed spec fn spec_surface(&self) -> String {
        self.surface
    }

    pub closed spec fn spec_base(&self) -> String {
        self.base
    }

    pub closed spec fn spec_forms(&self) -> Vec<String> {
        self.forms
    }

    pub closed spec fn spec_response(&self) -> Option<Response> {
        self.response
    }

    /// The response to display, settling the word's state from a fetch
    /// where needed: a certified word answers from its cache, a
    /// non-lexical word never answers, and an unresolved word adopts the
    /// fetched response — becoming certified where the response holds any
    /// words, non-lexical where it is empty or the fetch failed.
    pub fn get_response(&mut self, fetched: Option<Response>) -> (r: Option<&Response>)
        ensures
            old(self).spec_validity() == Validity::VALID ==> *final(self) == *old(self),
            old(self).spec_validity() == Validity::INVALID ==> *final(self) == *old(self),
            old(self).spec_validity() == Validity::UNKNOWN ==> {
                &&& final(self).spec_surface() == old(self).spec_surface()
                &&& final(self).spec_base() == old(self).spec_base()
                &&& final(self).spec_forms() == old(self).spec_forms()
                &&& match fetched {
                    Some(resp) => if resp.words.len() > 0 {
                        final(self).spec_response() == Some(resp) && final(self).spec_validity()
                            == Validity::VALID
                    } else {
                        final(self).spec_response() is None && final(self).spec_validity()
                            == Validity::INVALID
                    },
                    None => final(self).spec_response() is None && final(self).spec_validity()
                        == Validity::INVALID,
                }
            },
            match r {
                Some(resp) => final(self).spec_response() == Some(*resp),
                None => final(self).spec_response() is None || final(self).spec_validity()
                    == Validity::INVALID,
            },
    {
        match self.valid_word {
            Validity::VALID => self.response.as_ref(),
            Validity::INVALID => None,
            Validity::UNKNOWN => {
                match fetched {
                    Some(resp) => {
                        if resp.words.len() > 0 {
                            self.response = Some(resp);
                            self.valid_word = Validity::VALID;
                        } else {
                            self.response = None;
                            self.valid_word = Validity::INVALID;
                        }
                    },
                    None => {
                        self.response = None;
                        self.valid_word = Validity::INVALID;
                    },
                }
                self.response.as_ref()
            },
        }
    }

    /// `UNKNOWN` words might still resolve, so only `INVALID` counts as
    /// not valid.
    pub fn is_valid(&self) -> (r: bool)
        ensures
            r == (self.spec_validity() != Validity::INVALID),
    {
        match self.valid_word {
            Validity::INVALID => false,
            _ => true,
        }
    }
}

} // verus!
