use vstd::prelude::*;

verus! {

broadcast use vstd::seq::group_seq_axioms;

/// How the segmenter classified a raw unit.
///
/// `VALID` marks closed-class function words (particles): the segmenter
/// certifies them, and the span merger never absorbs them into a merge.
/// `INVALID` marks non-lexical spans (punctuation, symbols, unknown script).
/// `UNKNOWN` marks content words whose dictionary status is unresolved.
#[derive(Clone, Copy, Debug, PartialEq, Eq, Structural)]
pub enum Validity {
    VALID,
    INVALID,
    UNKNOWN,
}

/// One unit of segmented input, produced fresh for each query.
#[derive(Clone, Debug)]
pub struct Token {
    /// Surface form exactly as it appeared in the input.
    pub input_word: String,
    /// Dictionary-citation lemma form.
    pub deinflected_word: String,
    /// De-duplicated grammatical-form tags seen across merged units.
    pub conjugations: Vec<String>,
    pub validity: Validity,
}

#[verifier::ext_equal]
pub struct TokenView {
    pub input_word: Seq<char>,
    pub deinflected_word: Seq<char>,
    pub conjugations: Seq<Seq<char>>,
    pub validity: Validity,
}

impl View for Token {
    type V = TokenView;

    open spec fn view(&self) -> TokenView {
        TokenView {
            input_word: self.input_word@,
            deinflected_word: self.deinflected_word@,
            conjugations: strings_view(self.conjugations@),
            validity: self.validity,
        }
    }
}

impl Token {
    /// `UNKNOWN` units might still resolve against the lexicon, so only
    /// `INVALID` counts as not valid.
    pub fn is_valid(&self) -> (r: bool)
        ensures
            r == (self.validity != Validity::INVALID),
    {
        match self.validity {
            Validity::INVALID => false,
            _ => true,
        }
    }
}

/// The sequence of string views a vector of strings stands for.
pub open spec fn strings_view(v: Seq<String>) -> Seq<Seq<char>> {
    v.map_values(|s: String| s@)
}

/// The sequence of token views a vector of tokens stands for.
pub open spec fn tokens_view(v: Seq<Token>) -> Seq<TokenView> {
    v.map_values(|t: Token| t@)
}

/// Relies on String::push: appends one character at the end of the string.
#[verifier::external_body]
pub(crate) fn string_push(s: &mut String, c: char)
    ensures
        final(s)@ == old(s)@.push(c),
{
    s.push(c);
}

/// Character-by-character string equality, proved against the views.
pub fn str_eq(a: &str, b: &str) -> (r: bool)
    ensures
        r == (a@ == b@),
{
    let n = a.unicode_len();
    let m = b.unicode_len();
    if n != m {
        proof {
            assert(a@ != b@);
        }
        return false;
    }
    let mut i: usize = 0;
    while i < n
        invariant
            i <= n,
            n as nat == a@.len(),
            n as nat == b@.len(),
            forall|k: int| 0 <= k < i ==> a@[k] == b@[k],
        decreases n - i,
    {
        if a.get_char(i) != b.get_char(i) {
            return false;
        }
        i = i + 1;
    }
    proof {
        assert(a@ =~= b@);
    }
    true
}

/// Whether any string of `v` equals `s`.
pub(crate) fn contains_str(v: &Vec<String>, s: &str) -> (r: bool)
    ensures
        r == strings_view(v@).contains(s@),
{
    let ghost views = strings_view(v@);
    let mut k: usize = 0;
    let mut found = false;
    while k < v.len() && !found
        invariant
            k <= v.len(),
            views == strings_view(v@),
            views.len() == v@.len(),
            found ==> views.contains(s@),
            !found ==> forall|q: int| 0 <= q < k ==> views[q] != s@,
        decreases v.len() - k, (if found { 0int } else { 1int }),
    {
        proof {
            assert(views[k as int] == v@[k as int]@);
        }
        if str_eq(v[k].as_str(), s) {
            found = true;
        } else {
            k = k + 1;
        }
    }
    found
}

pub(crate) fn clone_strings(v: &Vec<String>) -> (r: Vec<String>)
    ensures
        strings_view(r@) == strings_view(v@),
{
    let mut out: Vec<String> = Vec::new();
    proof {
        assert(strings_view(out@) =~= strings_view(v@).subrange(0, 0));
    }
    let mut i: usize = 0;
    while i < v.len()
        invariant
            i <= v.len(),
            out@.len() == i,
            strings_view(out@) == strings_view(v@).subrange(0, i as int),
        decreases v.len() - i,
    {
        let ghost pre = out@;
        let c = v[i].clone();
        proof {
            assert(c == v@[i as int]);
        }
        out.push(c);
        proof {
            assert(out@ == pre.push(v@[i as int]));
            assert(strings_view(out@) =~= strings_view(v@).subrange(0, i as int + 1));
        }
        i = i + 1;
    }
    proof {
        assert(strings_view(v@).subrange(0, v@.len() as int) =~= strings_view(v@));
    }
    out
}

pub(crate) fn clone_token(t: &Token) -> (r: Token)
    ensures
        r@ == t@,
{
    let validity = match t.validity {
        Validity::VALID => Validity::VALID,
        Validity::INVALID => Validity::INVALID,
        Validity::UNKNOWN => Validity::UNKNOWN,
    };
    let r = Token {
        input_word: t.input_word.clone(),
        deinflected_word: t.deinflected_word.clone(),
        conjugations: clone_strings(&t.conjugations),
        validity,
    };
    proof {
        assert(r@ =~= t@);
    }
    r
}

} // verus!
