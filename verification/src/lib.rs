use vstd::prelude::*;

mod builder;
mod codec;
mod codec_exec;
mod entry;
mod forms;
mod merger;
pub mod remote;
mod resolver;
mod segmenter;
mod store;
mod tags;
mod token;

pub use builder::ensure_populated;
pub use builder::populate;
pub use builder::FuriganaEntry;
pub use builder::Gloss;
pub use builder::Kana;
pub use builder::Kanji;
pub use builder::LexiconSource;
pub use builder::Sense;
pub use builder::Word;
pub use codec_exec::decode_entry;
pub use codec_exec::encode_entry;
pub use entry::DictionaryEntry;
pub use entry::DictionaryMeaning;
pub use entry::DictionaryTerm;
pub use entry::Furigana;
pub use forms::get_form;
pub use merger::improve_tokens;
pub use remote::ParsedWord;
pub use remote::Reading;
pub use remote::Response;
pub use segmenter::classify_unit;
pub use store::DictError;
pub use store::Dictionary;
pub use token::str_eq;
pub use token::Token;
pub use token::Validity;

verus! {

/// Whether a character counts as whitespace when an input query is
/// cleaned. Relied on below from char::is_whitespace: the answer is a
/// function of the character alone.
pub uninterp spec fn is_whitespace_char(c: char) -> bool;

/// Relies on char::is_whitespace: whether the character has the Unicode
/// White_Space property.
#[verifier::external_body]
fn char_is_whitespace(c: char) -> (r: bool)
    ensures
        r == is_whitespace_char(c),
{
    c.is_whitespace()
}

/// The input with every whitespace character removed.
pub open spec fn spec_strip_whitespace(s: Seq<char>) -> Seq<char>
    decreases s.len(),
{
    if s.len() == 0 {
        Seq::empty()
    } else {
        (if is_whitespace_char(s[0]) {
            Seq::<char>::empty()
        } else {
            seq![s[0]]
        }) + spec_strip_whitespace(s.drop_first())
    }
}

/// Clean one input query for the pipeline behind it: strip all
/// whitespace, and reject an input with no character left.
pub fn run(sentence: &str) -> (r: Result<String, String>)
    ensures
        match r {
            Ok(s) => s@ == spec_strip_whitespace(sentence@) && s@.len() > 0,
            Err(m) => spec_strip_whitespace(sentence@).len() == 0 && m@
                == "Input text must be at least one character."@,
        },
{
    let n = sentence.unicode_len();
    let mut out = String::new();
    proof {
        assert(sentence@.subrange(0, n as int) =~= sentence@);
        assert(out@ + spec_strip_whitespace(sentence@) =~= spec_strip_whitespace(sentence@));
    }
    let mut i: usize = 0;
    while i < n
        invariant
            i <= n,
            n as nat == sentence@.len(),
            out@ + spec_strip_whitespace(sentence@.subrange(i as int, n as int))
                == spec_strip_whitespace(sentence@),
        decreases n - i,
    {
        let ghost pre = out@;
        let ghost sub = sentence@.subrange(i as int, n as int);
        proof {
            assert(sub[0] == sentence@[i as int]);
            assert(sub.drop_first() =~= sentence@.subrange(i as int + 1, n as int));
        }
        let c = sentence.get_char(i);
        if !char_is_whitespace(c) {
            token::string_push(&mut out, c);
            proof {
                let rest = spec_strip_whitespace(sentence@.subrange(i as int + 1, n as int));
                assert(pre + (seq![c] + rest) =~= pre.push(c) + rest);
            }
        } else {
            proof {
                let rest = spec_strip_whitespace(sentence@.subrange(i as int + 1, n as int));
                assert(Seq::<char>::empty() + rest =~= rest);
            }
        }
        i = i + 1;
    }
    proof {
        assert(sentence@.subrange(n as int, n as int) =~= Seq::<char>::empty());
        assert(out@ + Seq::<char>::empty() =~= out@);
    }
    if out.as_str().unicode_len() == 0 {
        Err(String::from_str("Input text must be at least one character."))
    } else {
        Ok(out)
    }
}

/// The fixed set of interchangeable lookup backends.
#[derive(Clone, Copy, Debug, PartialEq, Eq, Structural)]
pub enum Plugins {
    Jujum,
    Jotoba,
}

impl Plugins {
    /// Every backend, in presentation order.
    pub fn all() -> (r: Vec<Plugins>)
        ensures
            r@ == seq![Plugins::Jujum, Plugins::Jotoba],
    {
        let mut v: Vec<Plugins> = Vec::new();
        v.push(Plugins::Jujum);
        v.push(Plugins::Jotoba);
        proof {
            assert(v@ =~= seq![Plugins::Jujum, Plugins::Jotoba]);
        }
        v
    }

    /// The display name of one backend.
    pub fn name(&self) -> (r: &'static str)
        ensures
            *self == Plugins::Jujum ==> r@ == "jmdict+jumandic"@,
            *self == Plugins::Jotoba ==> r@ == "jotoba"@,
    {
        match self {
            Plugins::Jujum => "jmdict+jumandic",
            Plugins::Jotoba => "jotoba",
        }
    }
}

} // verus!
