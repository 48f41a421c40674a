use vstd::arithmetic::div_mod::lemma_div_denominator;
use vstd::prelude::*;

use crate::codec::dec_bool;
use crate::codec::dec_char;
use crate::codec::dec_char_df;
use crate::codec::dec_entry;
use crate::codec::dec_furigana;
use crate::codec::dec_furigana_df;
use crate::codec::dec_furigana_list;
use crate::codec::dec_list;
use crate::codec::dec_meaning;
use crate::codec::dec_meaning_df;
use crate::codec::dec_meaning_list;
use crate::codec::dec_opt_furigana_list;
use crate::codec::dec_opt_str;
use crate::codec::dec_opt_u32;
use crate::codec::dec_str;
use crate::codec::dec_str_df;
use crate::codec::dec_str_list;
use crate::codec::dec_term;
use crate::codec::dec_term_df;
use crate::codec::dec_u32;
use crate::codec::dec_u64;
use crate::codec::enc_bool;
use crate::codec::le_value;
use crate::codec::lemma_le_value_bound;
use crate::codec::lemma_pow256_le;
use crate::codec::enc_char;
use crate::codec::enc_char_ef;
use crate::codec::enc_entry;
use crate::codec::enc_furigana;
use crate::codec::enc_furigana_ef;
use crate::codec::enc_furigana_list;
use crate::codec::enc_list;
use crate::codec::enc_meaning;
use crate::codec::enc_meaning_ef;
use crate::codec::enc_meaning_list;
use crate::codec::enc_opt_str;
use crate::codec::enc_opt_u32;
use crate::codec::enc_str;
use crate::codec::enc_str_ef;
use crate::codec::enc_str_list;
use crate::codec::enc_term;
use crate::codec::enc_term_ef;
use crate::codec::enc_u64;
use crate::codec::le_bytes;
use crate::codec::lemma_le_bytes_snoc;
use crate::codec::lemma_pow256_pos;
use crate::codec::lemma_pow256_vals;
use crate::codec::pow256;
use crate::codec::wf_entry;
use crate::codec::wf_furigana;
use crate::codec::wf_furigana_list;
use crate::codec::wf_meaning;
use crate::codec::wf_meaning_list;
use crate::codec::wf_str;
use crate::codec::wf_str_list;
use crate::codec::wf_term;
use crate::entry::DictionaryEntry;
use crate::token::string_push;
use crate::entry::DictionaryMeaning;
use crate::entry::DictionaryTerm;
use crate::entry::Furigana;
use crate::entry::FuriganaView;
use crate::entry::MeaningView;
use crate::entry::TermView;

verus! {

// ---------------------------------------------------------------------------
// The executable encoder. Each function appends the encoding of one value to
// an output buffer and, along the way, establishes that the value was
// well-formed, which is what the round-trip law asks for.
// ---------------------------------------------------------------------------
/// Concatenating item encodings distributes over sequence concatenation.
pub proof fn lemma_enc_list_concat<T>(a: Seq<T>, b: Seq<T>, f: spec_fn(T) -> Seq<u8>)
    ensures
        enc_list(a + b, f) == enc_list(a, f) + enc_list(b, f),
    decreases a.len(),
{
    if a.len() == 0 {
        assert(a + b =~= b);
        assert(enc_list(a, f) + enc_list(b, f) =~= enc_list(b, f));
    } else {
        assert((a + b).drop_first() =~= a.drop_first() + b);
        assert((a + b)[0] == a[0]);
        lemma_enc_list_concat(a.drop_first(), b, f);
        assert(f(a[0]) + (enc_list(a.drop_first(), f) + enc_list(b, f)) =~= (f(a[0]) + enc_list(
            a.drop_first(),
            f,
        )) + enc_list(b, f));
    }
}

/// Extending an encoded prefix by one item.
pub proof fn lemma_enc_list_snoc<T>(s: Seq<T>, idx: int, f: spec_fn(T) -> Seq<u8>)
    requires
        0 <= idx < s.len(),
    ensures
        enc_list(s.subrange(0, idx + 1), f) == enc_list(s.subrange(0, idx), f) + f(s[idx]),
{
    assert(s.subrange(0, idx + 1) =~= s.subrange(0, idx) + seq![s[idx]]);
    lemma_enc_list_concat(s.subrange(0, idx), seq![s[idx]], f);
    assert(seq![s[idx]].drop_first() =~= Seq::<T>::empty());
    assert(enc_list(seq![s[idx]], f) =~= f(s[idx]) + enc_list(Seq::<T>::empty(), f));
    assert(f(s[idx]) + enc_list(Seq::<T>::empty(), f) =~= f(s[idx]));
}

/// Appends the `k` little-endian base-256 digits of `n`.
fn push_le_bytes(out: &mut Vec<u8>, n: u64, k: usize)
    ensures
        final(out)@ == old(out)@ + le_bytes(n as nat, k as nat),
{
    let ghost orig = out@;
    proof {
        assert(orig + le_bytes(n as nat, 0) =~= orig);
        lemma_pow256_pos(0);
        assert((n as nat) / pow256(0) == n as nat) by {
            vstd::arithmetic::div_mod::lemma_fundamental_div_mod(n as int, 1);
        }
    }
    let mut idx: usize = 0;
    let mut m: u64 = n;
    while idx < k
        invariant
            idx <= k,
            out@ == orig + le_bytes(n as nat, idx as nat),
            m as nat == (n as nat) / pow256(idx as nat),
        decreases k - idx,
    {
        out.push((m % 256) as u8);
        proof {
            lemma_le_bytes_snoc(n as nat, idx as nat);
            assert(out@ =~= orig + le_bytes(n as nat, (idx + 1) as nat));
            lemma_pow256_pos(idx as nat);
            lemma_div_denominator(n as int, pow256(idx as nat) as int, 256);
            assert(pow256((idx + 1) as nat) == 256 * pow256(idx as nat));
        }
        m = m / 256;
        idx = idx + 1;
    }
}

fn push_bool(out: &mut Vec<u8>, b: bool)
    ensures
        final(out)@ == old(out)@ + enc_bool(b),
{
    out.push(if b { 1 } else { 0 });
    proof {
        assert(out@ =~= old(out)@ + enc_bool(b));
    }
}

fn push_char(out: &mut Vec<u8>, c: char)
    ensures
        final(out)@ == old(out)@ + enc_char(c),
{
    push_le_bytes(out, (c as u32) as u64, 4);
}

fn push_str(out: &mut Vec<u8>, s: &String)
    ensures
        final(out)@ == old(out)@ + enc_str(s@),
        wf_str(s@),
{
    let ghost orig = out@;
    let len = s.as_str().unicode_len();
    proof {
        lemma_pow256_vals();
    }
    push_le_bytes(out, len as u64, 8);
    let mut idx: usize = 0;
    while idx < len
        invariant
            idx <= len,
            len as nat == s@.len(),
            out@ == orig + enc_u64(len as u64) + enc_list(s@.subrange(0, idx as int), enc_char_ef()),
        decreases len - idx,
    {
        let c = s.as_str().get_char(idx);
        push_char(out, c);
        proof {
            lemma_enc_list_snoc(s@, idx as int, enc_char_ef());
            assert(enc_char_ef()(s@[idx as int]) == enc_char(c));
            assert(out@ =~= orig + enc_u64(len as u64) + enc_list(
                s@.subrange(0, idx as int + 1),
                enc_char_ef(),
            ));
        }
        idx = idx + 1;
    }
    proof {
        assert(s@.subrange(0, len as int) =~= s@);
        assert(out@ =~= orig + enc_str(s@));
    }
}

fn push_opt_u32(out: &mut Vec<u8>, o: &Option<u32>)
    ensures
        final(out)@ == old(out)@ + enc_opt_u32(*o),
{
    match o {
        Some(n) => {
            push_bool(out, true);
            push_le_bytes(out, *n as u64, 4);
            proof {
                assert(out@ =~= old(out)@ + enc_opt_u32(*o));
            }
        },
        None => {
            push_bool(out, false);
        },
    }
}

fn push_opt_str(out: &mut Vec<u8>, o: &Option<String>)
    ensures
        final(out)@ == old(out)@ + enc_opt_str(
            match o {
                Some(s) => Some(s@),
                None => None,
            },
        ),
        match o {
            Some(s) => wf_str(s@),
            None => true,
        },
{
    match o {
        Some(s) => {
            push_bool(out, true);
            push_str(out, s);
            proof {
                assert(out@ =~= old(out)@ + enc_opt_str(Some(s@)));
            }
        },
        None => {
            push_bool(out, false);
        },
    }
}

fn push_str_list(out: &mut Vec<u8>, ss: &Vec<String>)
    ensures
        final(out)@ == old(out)@ + enc_str_list(ss@.map_values(|s: String| s@)),
        wf_str_list(ss@.map_values(|s: String| s@)),
{
    let ghost orig = out@;
    let ghost views = ss@.map_values(|s: String| s@);
    proof {
        lemma_pow256_vals();
    }
    push_le_bytes(out, ss.len() as u64, 8);
    let mut idx: usize = 0;
    while idx < ss.len()
        invariant
            idx <= ss.len(),
            views == ss@.map_values(|s: String| s@),
            out@ == orig + enc_u64(ss.len() as u64) + enc_list(
                views.subrange(0, idx as int),
                enc_str_ef(),
            ),
            forall|j: int| 0 <= j < idx ==> wf_str(#[trigger] views[j]),
        decreases ss.len() - idx,
    {
        push_str(out, &ss[idx]);
        proof {
            lemma_enc_list_snoc(views, idx as int, enc_str_ef());
            assert(enc_str_ef()(views[idx as int]) == enc_str(ss@[idx as int]@));
            assert(out@ =~= orig + enc_u64(ss.len() as u64) + enc_list(
                views.subrange(0, idx as int + 1),
                enc_str_ef(),
            ));
        }
        idx = idx + 1;
    }
    proof {
        assert(views.subrange(0, views.len() as int) =~= views);
        assert(out@ =~= orig + enc_str_list(views));
    }
}

fn push_furigana(out: &mut Vec<u8>, f: &Furigana)
    ensures
        final(out)@ == old(out)@ + enc_furigana(f@),
        wf_furigana(f@),
{
    push_str(out, &f.ruby);
    push_opt_str(out, &f.rt);
    proof {
        assert(out@ =~= old(out)@ + enc_furigana(f@));
    }
}

fn push_furigana_list(out: &mut Vec<u8>, fs: &Vec<Furigana>)
    ensures
        final(out)@ == old(out)@ + enc_furigana_list(fs@.map_values(|f: Furigana| f@)),
        wf_furigana_list(fs@.map_values(|f: Furigana| f@)),
{
    let ghost orig = out@;
    let ghost views = fs@.map_values(|f: Furigana| f@);
    proof {
        lemma_pow256_vals();
    }
    push_le_bytes(out, fs.len() as u64, 8);
    let mut idx: usize = 0;
    while idx < fs.len()
        invariant
            idx <= fs.len(),
            views == fs@.map_values(|f: Furigana| f@),
            out@ == orig + enc_u64(fs.len() as u64) + enc_list(
                views.subrange(0, idx as int),
                enc_furigana_ef(),
            ),
            forall|j: int| 0 <= j < idx ==> wf_furigana(#[trigger] views[j]),
        decreases fs.len() - idx,
    {
        push_furigana(out, &fs[idx]);
        proof {
            lemma_enc_list_snoc(views, idx as int, enc_furigana_ef());
            assert(enc_furigana_ef()(views[idx as int]) == enc_furigana(fs@[idx as int]@));
            assert(out@ =~= orig + enc_u64(fs.len() as u64) + enc_list(
                views.subrange(0, idx as int + 1),
                enc_furigana_ef(),
            ));
        }
        idx = idx + 1;
    }
    proof {
        assert(views.subrange(0, views.len() as int) =~= views);
        assert(out@ =~= orig + enc_furigana_list(views));
    }
}

fn push_meaning(out: &mut Vec<u8>, m: &DictionaryMeaning)
    ensures
        final(out)@ == old(out)@ + enc_meaning(m@),
        wf_meaning(m@),
{
    push_str_list(out, &m.tags);
    push_str_list(out, &m.info);
    push_str_list(out, &m.gloss);
    proof {
        assert(out@ =~= old(out)@ + enc_meaning(m@));
    }
}

fn push_meaning_list(out: &mut Vec<u8>, ms: &Vec<DictionaryMeaning>)
    ensures
        final(out)@ == old(out)@ + enc_meaning_list(ms@.map_values(|m: DictionaryMeaning| m@)),
        wf_meaning_list(ms@.map_values(|m: DictionaryMeaning| m@)),
{
    let ghost orig = out@;
    let ghost views = ms@.map_values(|m: DictionaryMeaning| m@);
    proof {
        lemma_pow256_vals();
    }
    push_le_bytes(out, ms.len() as u64, 8);
    let mut idx: usize = 0;
    while idx < ms.len()
        invariant
            idx <= ms.len(),
            views == ms@.map_values(|m: DictionaryMeaning| m@),
            out@ == orig + enc_u64(ms.len() as u64) + enc_list(
                views.subrange(0, idx as int),
                enc_meaning_ef(),
            ),
            forall|j: int| 0 <= j < idx ==> wf_meaning(#[trigger] views[j]),
        decreases ms.len() - idx,
    {
        push_meaning(out, &ms[idx]);
        proof {
            lemma_enc_list_snoc(views, idx as int, enc_meaning_ef());
            assert(enc_meaning_ef()(views[idx as int]) == enc_meaning(ms@[idx as int]@));
            assert(out@ =~= orig + enc_u64(ms.len() as u64) + enc_list(
                views.subrange(0, idx as int + 1),
                enc_meaning_ef(),
            ));
        }
        idx = idx + 1;
    }
    proof {
        assert(views.subrange(0, views.len() as int) =~= views);
        assert(out@ =~= orig + enc_meaning_list(views));
    }
}

#[verifier::rlimit(60)]
fn push_term(out: &mut Vec<u8>, t: &DictionaryTerm)
    ensures
        final(out)@ == old(out)@ + enc_term(t@),
        wf_term(t@),
{
    push_str(out, &t.id);
    push_opt_u32(out, &t.frequency);
    push_bool(out, t.common);
    push_str(out, &t.term);
    push_str(out, &t.reading);
    match &t.furigana {
        Some(fs) => {
            push_bool(out, true);
            push_furigana_list(out, fs);
        },
        None => {
            push_bool(out, false);
        },
    }
    push_meaning_list(out, &t.meanings);
    proof {
        assert(out@ =~= old(out)@ + enc_term(t@));
    }
}

/// Encode a dictionary entry as bytes. The encoding is deterministic, so
/// the result is a function of the entry's value alone.
pub fn encode_entry(e: &DictionaryEntry) -> (r: Vec<u8>)
    ensures
        r@ == enc_entry(e@),
        wf_entry(e@),
{
    let mut out: Vec<u8> = Vec::new();
    let ghost views = e.terms@.map_values(|t: DictionaryTerm| t@);
    proof {
        lemma_pow256_vals();
    }
    push_le_bytes(&mut out, e.terms.len() as u64, 8);
    let mut idx: usize = 0;
    while idx < e.terms.len()
        invariant
            idx <= e.terms.len(),
            views == e.terms@.map_values(|t: DictionaryTerm| t@),
            out@ == enc_u64(e.terms.len() as u64) + enc_list(
                views.subrange(0, idx as int),
                enc_term_ef(),
            ),
            forall|j: int| 0 <= j < idx ==> wf_term(#[trigger] views[j]),
        decreases e.terms.len() - idx,
    {
        push_term(&mut out, &e.terms[idx]);
        proof {
            lemma_enc_list_snoc(views, idx as int, enc_term_ef());
            assert(enc_term_ef()(views[idx as int]) == enc_term(e.terms@[idx as int]@));
            assert(out@ =~= enc_u64(e.terms.len() as u64) + enc_list(
                views.subrange(0, idx as int + 1),
                enc_term_ef(),
            ));
        }
        idx = idx + 1;
    }
    proof {
        assert(views.subrange(0, views.len() as int) =~= views);
        assert(out@ =~= enc_entry(e@));
    }
    out
}

// ---------------------------------------------------------------------------
// The executable decoder. Each reader returns exactly what the decoding
// specification says for its position, or `None` where the specification
// rejects the bytes.
// ---------------------------------------------------------------------------
/// Relies on char::from_u32: returns the character with scalar value `v`,
/// and `None` exactly when `v` is not a Unicode scalar value.
#[verifier::external_body]
fn char_from_u32(v: u32) -> (r: Option<char>)
    ensures
        match r {
            Some(c) => vstd::utf8::is_scalar(v) && c as u32 == v,
            None => !vstd::utf8::is_scalar(v),
        },
{
    char::from_u32(v)
}

/// Reads the value of `k` little-endian bytes.
fn read_le_bytes(buf: &Vec<u8>, i: usize, k: usize) -> (r: u64)
    requires
        i + k <= buf.len(),
        k <= 8,
    ensures
        r as nat == le_value(buf@.subrange(i as int, i as int + k as int)),
{
    let mut j: usize = k;
    let mut acc: u64 = 0;
    proof {
        assert(buf@.subrange(i as int + k as int, i as int + k as int) =~= Seq::<u8>::empty());
    }
    while j > 0
        invariant
            j <= k,
            k <= 8,
            i + k <= buf.len(),
            acc as nat == le_value(buf@.subrange(i as int + j as int, i as int + k as int)),
            (acc as nat) < pow256((k - j) as nat),
        decreases j,
    {
        j = j - 1;
        proof {
            lemma_pow256_vals();
            lemma_pow256_le((k - j) as nat, 8);
            assert(pow256((k - j) as nat) == 256 * pow256((k - j - 1) as nat));
            let sub = buf@.subrange(i as int + j as int, i as int + k as int);
            assert(sub.drop_first() =~= buf@.subrange(
                i as int + j as int + 1,
                i as int + k as int,
            ));
            assert(sub[0] == buf@[i as int + j as int]);
        }
        acc = acc * 256 + (buf[i + j] as u64);
    }
    acc
}

fn read_u64(buf: &Vec<u8>, i: usize) -> (r: Option<(u64, usize)>)
    ensures
        match r {
            Some((v, j)) => dec_u64(buf@, i as int) == Some((v, j as int)),
            None => dec_u64(buf@, i as int) is None,
        },
{
    if buf.len() >= 8 && i <= buf.len() - 8 {
        let v = read_le_bytes(buf, i, 8);
        proof {
            lemma_le_value_bound(buf@.subrange(i as int, i as int + 8));
            lemma_pow256_vals();
        }
        Some((v, i + 8))
    } else {
        None
    }
}

fn read_u32(buf: &Vec<u8>, i: usize) -> (r: Option<(u32, usize)>)
    ensures
        match r {
            Some((v, j)) => dec_u32(buf@, i as int) == Some((v, j as int)),
            None => dec_u32(buf@, i as int) is None,
        },
{
    if buf.len() >= 4 && i <= buf.len() - 4 {
        let v = read_le_bytes(buf, i, 4);
        proof {
            lemma_le_value_bound(buf@.subrange(i as int, i as int + 4));
            lemma_pow256_vals();
        }
        Some((v as u32, i + 4))
    } else {
        None
    }
}

fn read_bool(buf: &Vec<u8>, i: usize) -> (r: Option<(bool, usize)>)
    ensures
        match r {
            Some((b, j)) => dec_bool(buf@, i as int) == Some((b, j as int)),
            None => dec_bool(buf@, i as int) is None,
        },
{
    if i < buf.len() {
        let v = buf[i];
        if v == 0 {
            Some((false, i + 1))
        } else if v == 1 {
            Some((true, i + 1))
        } else {
            None
        }
    } else {
        None
    }
}

fn read_char(buf: &Vec<u8>, i: usize) -> (r: Option<(char, usize)>)
    ensures
        match r {
            Some((c, j)) => dec_char(buf@, i as int) == Some((c, j as int)),
            None => dec_char(buf@, i as int) is None,
        },
{
    if buf.len() >= 4 && i <= buf.len() - 4 {
        let v64 = read_le_bytes(buf, i, 4);
        proof {
            lemma_le_value_bound(buf@.subrange(i as int, i as int + 4));
            lemma_pow256_vals();
        }
        let v = v64 as u32;
        match char_from_u32(v) {
            Some(c) => {
                proof {
                    vstd::utf8::char_u32_cast(c, v);
                }
                Some((c, i + 4))
            },
            None => None,
        }
    } else {
        None
    }
}

fn read_chars(buf: &Vec<u8>, i: usize, n: u64) -> (r: Option<(String, usize)>)
    ensures
        match r {
            Some((v, j)) => dec_list(buf@, i as int, n as nat, dec_char_df()) == Some(
                (v@, j as int),
            ),
            None => dec_list(buf@, i as int, n as nat, dec_char_df()) is None,
        },
{
    let mut acc = String::new();
    let mut pos: usize = i;
    let mut rem: u64 = n;
    proof {
        let full = dec_list(buf@, i as int, n as nat, dec_char_df());
        match full {
            Some((cs, k)) => {
                assert(acc@ + cs =~= cs);
            },
            None => {},
        }
    }
    while rem > 0
        invariant
            dec_list(buf@, i as int, n as nat, dec_char_df()) == (match dec_list(
                buf@,
                pos as int,
                rem as nat,
                dec_char_df(),
            ) {
                Some((cs, k)) => Some((acc@ + cs, k)),
                None => None,
            }),
        decreases rem,
    {
        proof {
            assert(dec_char_df()(buf@, pos as int) == dec_char(buf@, pos as int));
        }
        match read_char(buf, pos) {
            Some((c, j)) => {
                let ghost old_acc = acc@;
                string_push(&mut acc, c);
                proof {
                    match dec_list(buf@, j as int, (rem - 1) as nat, dec_char_df()) {
                        Some((cs, k)) => {
                            assert(old_acc + (seq![c] + cs) =~= acc@ + cs);
                        },
                        None => {},
                    }
                }
                pos = j;
                rem = rem - 1;
            },
            None => {
                return None;
            },
        }
    }
    proof {
        assert(acc@ + Seq::<char>::empty() =~= acc@);
    }
    Some((acc, pos))
}

fn read_str(buf: &Vec<u8>, i: usize) -> (r: Option<(String, usize)>)
    ensures
        match r {
            Some((v, j)) => dec_str(buf@, i as int) == Some((v@, j as int)),
            None => dec_str(buf@, i as int) is None,
        },
{
    match read_u64(buf, i) {
        Some((n, j)) => read_chars(buf, j, n),
        None => None,
    }
}

fn read_opt_u32(buf: &Vec<u8>, i: usize) -> (r: Option<(Option<u32>, usize)>)
    ensures
        match r {
            Some((v, j)) => dec_opt_u32(buf@, i as int) == Some((v, j as int)),
            None => dec_opt_u32(buf@, i as int) is None,
        },
{
    match read_bool(buf, i) {
        Some((true, j)) => match read_u32(buf, j) {
            Some((n, k)) => Some((Some(n), k)),
            None => None,
        },
        Some((false, j)) => Some((None, j)),
        None => None,
    }
}

fn read_opt_str(buf: &Vec<u8>, i: usize) -> (r: Option<(Option<String>, usize)>)
    ensures
        match r {
            Some((v, j)) => dec_opt_str(buf@, i as int) == Some(
                (
                    match v {
                        Some(s) => Some(s@),
                        None => None,
                    },
                    j as int,
                ),
            ),
            None => dec_opt_str(buf@, i as int) is None,
        },
{
    match read_bool(buf, i) {
        Some((true, j)) => match read_str(buf, j) {
            Some((s, k)) => Some((Some(s), k)),
            None => None,
        },
        Some((false, j)) => Some((None, j)),
        None => None,
    }
}

fn read_str_list(buf: &Vec<u8>, i: usize) -> (r: Option<(Vec<String>, usize)>)
    ensures
        match r {
            Some((v, j)) => dec_str_list(buf@, i as int) == Some(
                (v@.map_values(|s: String| s@), j as int),
            ),
            None => dec_str_list(buf@, i as int) is None,
        },
{
    let (n, start) = match read_u64(buf, i) {
        Some(p) => p,
        None => {
            return None;
        },
    };
    let mut acc: Vec<String> = Vec::new();
    let mut pos: usize = start;
    let mut rem: u64 = n;
    proof {
        let full = dec_list(buf@, start as int, n as nat, dec_str_df());
        match full {
            Some((ss, k)) => {
                assert(acc@.map_values(|s: String| s@) + ss =~= ss);
            },
            None => {},
        }
    }
    while rem > 0
        invariant
            dec_u64(buf@, i as int) == Some((n, start as int)),
            dec_list(buf@, start as int, n as nat, dec_str_df()) == (match dec_list(
                buf@,
                pos as int,
                rem as nat,
                dec_str_df(),
            ) {
                Some((ss, k)) => Some((acc@.map_values(|s: String| s@) + ss, k)),
                None => None,
            }),
        decreases rem,
    {
        proof {
            assert(dec_str_df()(buf@, pos as int) == dec_str(buf@, pos as int));
        }
        match read_str(buf, pos) {
            Some((s, j)) => {
                let ghost old_views = acc@.map_values(|s2: String| s2@);
                let ghost sv = s@;
                acc.push(s);
                proof {
                    assert(acc@.map_values(|s2: String| s2@) =~= old_views.push(sv));
                    match dec_list(buf@, j as int, (rem - 1) as nat, dec_str_df()) {
                        Some((ss, k)) => {
                            assert(old_views + (seq![sv] + ss) =~= old_views.push(sv) + ss);
                        },
                        None => {},
                    }
                }
                pos = j;
                rem = rem - 1;
            },
            None => {
                return None;
            },
        }
    }
    proof {
        assert(acc@.map_values(|s: String| s@) + Seq::<Seq<char>>::empty() =~= acc@.map_values(
            |s: String| s@,
        ));
    }
    Some((acc, pos))
}

fn read_furigana(buf: &Vec<u8>, i: usize) -> (r: Option<(Furigana, usize)>)
    ensures
        match r {
            Some((f, j)) => dec_furigana(buf@, i as int) == Some((f@, j as int)),
            None => dec_furigana(buf@, i as int) is None,
        },
{
    let (ruby, j) = match read_str(buf, i) {
        Some(p) => p,
        None => {
            return None;
        },
    };
    let (rt, k) = match read_opt_str(buf, j) {
        Some(p) => p,
        None => {
            return None;
        },
    };
    Some((Furigana { ruby, rt }, k))
}

fn read_furigana_list(buf: &Vec<u8>, i: usize) -> (r: Option<(Vec<Furigana>, usize)>)
    ensures
        match r {
            Some((v, j)) => dec_furigana_list(buf@, i as int) == Some(
                (v@.map_values(|f: Furigana| f@), j as int),
            ),
            None => dec_furigana_list(buf@, i as int) is None,
        },
{
    let (n, start) = match read_u64(buf, i) {
        Some(p) => p,
        None => {
            return None;
        },
    };
    let mut acc: Vec<Furigana> = Vec::new();
    let mut pos: usize = start;
    let mut rem: u64 = n;
    proof {
        let full = dec_list(buf@, start as int, n as nat, dec_furigana_df());
        match full {
            Some((fs, k)) => {
                assert(acc@.map_values(|f: Furigana| f@) + fs =~= fs);
            },
            None => {},
        }
    }
    while rem > 0
        invariant
            dec_u64(buf@, i as int) == Some((n, start as int)),
            dec_list(buf@, start as int, n as nat, dec_furigana_df()) == (match dec_list(
                buf@,
                pos as int,
                rem as nat,
                dec_furigana_df(),
            ) {
                Some((fs, k)) => Some((acc@.map_values(|f: Furigana| f@) + fs, k)),
                None => None,
            }),
        decreases rem,
    {
        proof {
            assert(dec_furigana_df()(buf@, pos as int) == dec_furigana(buf@, pos as int));
        }
        match read_furigana(buf, pos) {
            Some((f, j)) => {
                let ghost old_views = acc@.map_values(|f2: Furigana| f2@);
                let ghost fv = f@;
                acc.push(f);
                proof {
                    assert(acc@.map_values(|f2: Furigana| f2@) =~= old_views.push(fv));
                    match dec_list(buf@, j as int, (rem - 1) as nat, dec_furigana_df()) {
                        Some((fs, k)) => {
                            assert(old_views + (seq![fv] + fs) =~= old_views.push(fv) + fs);
                        },
                        None => {},
                    }
                }
                pos = j;
                rem = rem - 1;
            },
            None => {
                return None;
            },
        }
    }
    proof {
        assert(acc@.map_values(|f: Furigana| f@) + Seq::<FuriganaView>::empty() =~= acc@.map_values(
            |f: Furigana| f@,
        ));
    }
    Some((acc, pos))
}

fn read_opt_furigana_list(buf: &Vec<u8>, i: usize) -> (r: Option<(Option<Vec<Furigana>>, usize)>)
    ensures
        match r {
            Some((v, j)) => dec_opt_furigana_list(buf@, i as int) == Some(
                (
                    match v {
                        Some(fs) => Some(fs@.map_values(|f: Furigana| f@)),
                        None => None,
                    },
                    j as int,
                ),
            ),
            None => dec_opt_furigana_list(buf@, i as int) is None,
        },
{
    match read_bool(buf, i) {
        Some((true, j)) => match read_furigana_list(buf, j) {
            Some((fs, k)) => Some((Some(fs), k)),
            None => None,
        },
        Some((false, j)) => Some((None, j)),
        None => None,
    }
}

fn read_meaning(buf: &Vec<u8>, i: usize) -> (r: Option<(DictionaryMeaning, usize)>)
    ensures
        match r {
            Some((m, j)) => dec_meaning(buf@, i as int) == Some((m@, j as int)),
            None => dec_meaning(buf@, i as int) is None,
        },
{
    let (tags, i1) = match read_str_list(buf, i) {
        Some(p) => p,
        None => {
            return None;
        },
    };
    let (info, i2) = match read_str_list(buf, i1) {
        Some(p) => p,
        None => {
            return None;
        },
    };
    let (gloss, i3) = match read_str_list(buf, i2) {
        Some(p) => p,
        None => {
            return None;
        },
    };
    Some((DictionaryMeaning { tags, info, gloss }, i3))
}

fn read_meaning_list(buf: &Vec<u8>, i: usize) -> (r: Option<(Vec<DictionaryMeaning>, usize)>)
    ensures
        match r {
            Some((v, j)) => dec_meaning_list(buf@, i as int) == Some(
                (v@.map_values(|m: DictionaryMeaning| m@), j as int),
            ),
            None => dec_meaning_list(buf@, i as int) is None,
        },
{
    let (n, start) = match read_u64(buf, i) {
        Some(p) => p,
        None => {
            return None;
        },
    };
    let mut acc: Vec<DictionaryMeaning> = Vec::new();
    let mut pos: usize = start;
    let mut rem: u64 = n;
    proof {
        let full = dec_list(buf@, start as int, n as nat, dec_meaning_df());
        match full {
            Some((ms, k)) => {
                assert(acc@.map_values(|m: DictionaryMeaning| m@) + ms =~= ms);
            },
            None => {},
        }
    }
    while rem > 0
        invariant
            dec_u64(buf@, i as int) == Some((n, start as int)),
            dec_list(buf@, start as int, n as nat, dec_meaning_df()) == (match dec_list(
                buf@,
                pos as int,
                rem as nat,
                dec_meaning_df(),
            ) {
                Some((ms, k)) => Some((acc@.map_values(|m: DictionaryMeaning| m@) + ms, k)),
                None => None,
            }),
        decreases rem,
    {
        proof {
            assert(dec_meaning_df()(buf@, pos as int) == dec_meaning(buf@, pos as int));
        }
        match read_meaning(buf, pos) {
            Some((m, j)) => {
                let ghost old_views = acc@.map_values(|m2: DictionaryMeaning| m2@);
                let ghost mv = m@;
                acc.push(m);
                proof {
                    assert(acc@.map_values(|m2: DictionaryMeaning| m2@) =~= old_views.push(mv));
                    match dec_list(buf@, j as int, (rem - 1) as nat, dec_meaning_df()) {
                        Some((ms, k)) => {
                            assert(old_views + (seq![mv] + ms) =~= old_views.push(mv) + ms);
                        },
                        None => {},
                    }
                }
                pos = j;
                rem = rem - 1;
            },
            None => {
                return None;
            },
        }
    }
    proof {
        assert(acc@.map_values(|m: DictionaryMeaning| m@) + Seq::<MeaningView>::empty()
            =~= acc@.map_values(|m: DictionaryMeaning| m@));
    }
    Some((acc, pos))
}

fn read_term(buf: &Vec<u8>, i: usize) -> (r: Option<(DictionaryTerm, usize)>)
    ensures
        match r {
            Some((t, j)) => dec_term(buf@, i as int) == Some((t@, j as int)),
            None => dec_term(buf@, i as int) is None,
        },
{
    let (id, i1) = match read_str(buf, i) {
        Some(p) => p,
        None => {
            return None;
        },
    };
    let (frequency, i2) = match read_opt_u32(buf, i1) {
        Some(p) => p,
        None => {
            return None;
        },
    };
    let (common, i3) = match read_bool(buf, i2) {
        Some(p) => p,
        None => {
            return None;
        },
    };
    let (term, i4) = match read_str(buf, i3) {
        Some(p) => p,
        None => {
            return None;
        },
    };
    let (reading, i5) = match read_str(buf, i4) {
        Some(p) => p,
        None => {
            return None;
        },
    };
    let (furigana, i6) = match read_opt_furigana_list(buf, i5) {
        Some(p) => p,
        None => {
            return None;
        },
    };
    let (meanings, i7) = match read_meaning_list(buf, i6) {
        Some(p) => p,
        None => {
            return None;
        },
    };
    Some((DictionaryTerm { id, frequency, common, term, reading, furigana, meanings }, i7))
}

/// Decode a dictionary entry from bytes, `None` where the bytes are not a
/// valid record: exactly what the decoding specification says of them.
pub fn decode_entry(buf: &Vec<u8>) -> (r: Option<DictionaryEntry>)
    ensures
        match r {
            Some(e) => dec_entry(buf@, 0) matches Some((v, j)) && e@.terms == v.terms,
            None => dec_entry(buf@, 0) is None,
        },
{
    let (n, start) = match read_u64(buf, 0) {
        Some(p) => p,
        None => {
            return None;
        },
    };
    let mut acc: Vec<DictionaryTerm> = Vec::new();
    let mut pos: usize = start;
    let mut rem: u64 = n;
    proof {
        let full = dec_list(buf@, start as int, n as nat, dec_term_df());
        match full {
            Some((ts, k)) => {
                assert(acc@.map_values(|t: DictionaryTerm| t@) + ts =~= ts);
            },
            None => {},
        }
    }
    while rem > 0
        invariant
            dec_u64(buf@, 0) == Some((n, start as int)),
            dec_list(buf@, start as int, n as nat, dec_term_df()) == (match dec_list(
                buf@,
                pos as int,
                rem as nat,
                dec_term_df(),
            ) {
                Some((ts, k)) => Some((acc@.map_values(|t: DictionaryTerm| t@) + ts, k)),
                None => None,
            }),
        decreases rem,
    {
        proof {
            assert(dec_term_df()(buf@, pos as int) == dec_term(buf@, pos as int));
        }
        match read_term(buf, pos) {
            Some((t, j)) => {
                let ghost old_views = acc@.map_values(|t2: DictionaryTerm| t2@);
                let ghost tv = t@;
                acc.push(t);
                proof {
                    assert(acc@.map_values(|t2: DictionaryTerm| t2@) =~= old_views.push(tv));
                    match dec_list(buf@, j as int, (rem - 1) as nat, dec_term_df()) {
                        Some((ts, k)) => {
                            assert(old_views + (seq![tv] + ts) =~= old_views.push(tv) + ts);
                        },
                        None => {},
                    }
                }
                pos = j;
                rem = rem - 1;
            },
            None => {
                return None;
            },
        }
    }
    proof {
        assert(acc@.map_values(|t: DictionaryTerm| t@) + Seq::<TermView>::empty() =~= acc@
            .map_values(|t: DictionaryTerm| t@));
    }
    Some(DictionaryEntry { terms: acc })
}

} // verus!
