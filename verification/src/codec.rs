use vstd::arithmetic::div_mod::{
    lemma_div_denominator, lemma_fundamental_div_mod, lemma_multiply_divide_lt,
};
use vstd::prelude::*;

use crate::entry::EntryView;
use crate::entry::FuriganaView;
use crate::entry::MeaningView;
use crate::entry::TermView;

verus! {

// ---------------------------------------------------------------------------
// The record encoding of dictionary entries: a deterministic, self-describing
// byte format, one field after another in declared order. Sequences carry a
// little-endian 64-bit element count; characters are stored as little-endian
// 32-bit Unicode scalars; booleans and option tags are one byte.
// ---------------------------------------------------------------------------
// Little-endian bytes and their value.
pub open spec fn pow256(k: nat) -> nat
    decreases k,
{
    if k == 0 {
        1
    } else {
        256 * pow256((k - 1) as nat)
    }
}

/// The `k` little-endian base-256 digits of `n`.
pub open spec fn le_bytes(n: nat, k: nat) -> Seq<u8>
    decreases k,
{
    if k == 0 {
        Seq::empty()
    } else {
        seq![(n % 256) as u8] + le_bytes(n / 256, (k - 1) as nat)
    }
}

/// The value a little-endian byte string stands for.
pub open spec fn le_value(s: Seq<u8>) -> nat
    decreases s.len(),
{
    if s.len() == 0 {
        0
    } else {
        (s[0] + 256 * le_value(s.drop_first())) as nat
    }
}

pub proof fn lemma_le_bytes_len(n: nat, k: nat)
    ensures
        le_bytes(n, k).len() == k,
    decreases k,
{
    if k > 0 {
        lemma_le_bytes_len(n / 256, (k - 1) as nat);
    }
}

pub proof fn lemma_le_value_bound(s: Seq<u8>)
    ensures
        le_value(s) < pow256(s.len()),
    decreases s.len(),
{
    if s.len() > 0 {
        lemma_le_value_bound(s.drop_first());
    }
}

pub proof fn lemma_le_value_of_le_bytes(n: nat, k: nat)
    requires
        n < pow256(k),
    ensures
        le_value(le_bytes(n, k)) == n,
    decreases k,
{
    if k > 0 {
        assert(n / 256 < pow256((k - 1) as nat)) by {
            lemma_multiply_divide_lt(n as int, 256, pow256((k - 1) as nat) as int);
        }
        lemma_le_value_of_le_bytes(n / 256, (k - 1) as nat);
        lemma_le_bytes_len(n / 256, (k - 1) as nat);
        assert(le_bytes(n, k).drop_first() =~= le_bytes(n / 256, (k - 1) as nat));
        assert(n % 256 + 256 * (n / 256) == n) by {
            lemma_fundamental_div_mod(n as int, 256);
        }
    }
}

pub proof fn lemma_pow256_le(a: nat, b: nat)
    requires
        a <= b,
    ensures
        pow256(a) <= pow256(b),
    decreases b,
{
    if a < b && b > 0 {
        lemma_pow256_le(a, (b - 1) as nat);
    }
}

pub proof fn lemma_pow256_pos(k: nat)
    ensures
        pow256(k) > 0,
    decreases k,
{
    if k > 0 {
        lemma_pow256_pos((k - 1) as nat);
    }
}

/// Appending one more digit to a little-endian rendering.
pub proof fn lemma_le_bytes_snoc(n: nat, k: nat)
    ensures
        le_bytes(n, k + 1) == le_bytes(n, k).push(((n / pow256(k)) % 256) as u8),
    decreases k,
{
    if k == 0 {
        assert(n / pow256(0) == n) by {
            lemma_fundamental_div_mod(n as int, 1);
        }
        assert(le_bytes(n / 256, 0) =~= Seq::<u8>::empty());
        assert(le_bytes(n, 0) =~= Seq::<u8>::empty());
        assert(le_bytes(n, 1) =~= le_bytes(n, 0).push(((n / pow256(0)) % 256) as u8));
    } else {
        lemma_le_bytes_snoc(n / 256, (k - 1) as nat);
        lemma_pow256_pos((k - 1) as nat);
        assert((n / 256) / pow256((k - 1) as nat) == n / pow256(k)) by {
            lemma_div_denominator(n as int, 256, pow256((k - 1) as nat) as int);
        }
        assert(le_bytes(n, k + 1) =~= le_bytes(n, k).push(((n / pow256(k)) % 256) as u8));
    }
}

// ---------------------------------------------------------------------------
// Encoding, at the specification level.
// ---------------------------------------------------------------------------
pub open spec fn enc_u64(n: u64) -> Seq<u8> {
    le_bytes(n as nat, 8)
}

pub open spec fn enc_u32(n: u32) -> Seq<u8> {
    le_bytes(n as nat, 4)
}

pub open spec fn enc_bool(b: bool) -> Seq<u8> {
    seq![if b { 1u8 } else { 0u8 }]
}

pub open spec fn enc_char(c: char) -> Seq<u8> {
    le_bytes((c as u32) as nat, 4)
}

/// Concatenated encodings of a sequence of items.
pub open spec fn enc_list<T>(items: Seq<T>, f: spec_fn(T) -> Seq<u8>) -> Seq<u8>
    decreases items.len(),
{
    if items.len() == 0 {
        Seq::empty()
    } else {
        f(items[0]) + enc_list(items.drop_first(), f)
    }
}

// Named encoder and decoder closures, so that definitions and lemmas speak
// of one and the same function value.
pub open spec fn enc_char_ef() -> spec_fn(char) -> Seq<u8> {
    |c: char| enc_char(c)
}

pub open spec fn enc_str_ef() -> spec_fn(Seq<char>) -> Seq<u8> {
    |s: Seq<char>| enc_str(s)
}

pub open spec fn enc_furigana_ef() -> spec_fn(FuriganaView) -> Seq<u8> {
    |f: FuriganaView| enc_furigana(f)
}

pub open spec fn enc_meaning_ef() -> spec_fn(MeaningView) -> Seq<u8> {
    |m: MeaningView| enc_meaning(m)
}

pub open spec fn enc_term_ef() -> spec_fn(TermView) -> Seq<u8> {
    |t: TermView| enc_term(t)
}

pub open spec fn dec_char_df() -> spec_fn(Seq<u8>, int) -> Option<(char, int)> {
    |s: Seq<u8>, i: int| dec_char(s, i)
}

pub open spec fn dec_str_df() -> spec_fn(Seq<u8>, int) -> Option<(Seq<char>, int)> {
    |s: Seq<u8>, i: int| dec_str(s, i)
}

pub open spec fn dec_furigana_df() -> spec_fn(Seq<u8>, int) -> Option<(FuriganaView, int)> {
    |s: Seq<u8>, i: int| dec_furigana(s, i)
}

pub open spec fn dec_meaning_df() -> spec_fn(Seq<u8>, int) -> Option<(MeaningView, int)> {
    |s: Seq<u8>, i: int| dec_meaning(s, i)
}

pub open spec fn dec_term_df() -> spec_fn(Seq<u8>, int) -> Option<(TermView, int)> {
    |s: Seq<u8>, i: int| dec_term(s, i)
}

pub open spec fn enc_chars(s: Seq<char>) -> Seq<u8> {
    enc_list(s, enc_char_ef())
}

pub open spec fn enc_str(s: Seq<char>) -> Seq<u8> {
    enc_u64(s.len() as u64) + enc_chars(s)
}

pub open spec fn enc_opt_u32(o: Option<u32>) -> Seq<u8> {
    match o {
        Some(n) => enc_bool(true) + enc_u32(n),
        None => enc_bool(false),
    }
}

pub open spec fn enc_opt_str(o: Option<Seq<char>>) -> Seq<u8> {
    match o {
        Some(s) => enc_bool(true) + enc_str(s),
        None => enc_bool(false),
    }
}

pub open spec fn enc_str_list(ss: Seq<Seq<char>>) -> Seq<u8> {
    enc_u64(ss.len() as u64) + enc_list(ss, enc_str_ef())
}

pub open spec fn enc_furigana(f: FuriganaView) -> Seq<u8> {
    enc_str(f.ruby) + enc_opt_str(f.rt)
}

pub open spec fn enc_furigana_list(fs: Seq<FuriganaView>) -> Seq<u8> {
    enc_u64(fs.len() as u64) + enc_list(fs, enc_furigana_ef())
}

pub open spec fn enc_opt_furigana_list(o: Option<Seq<FuriganaView>>) -> Seq<u8> {
    match o {
        Some(fs) => enc_bool(true) + enc_furigana_list(fs),
        None => enc_bool(false),
    }
}

pub open spec fn enc_meaning(m: MeaningView) -> Seq<u8> {
    enc_str_list(m.tags) + enc_str_list(m.info) + enc_str_list(m.gloss)
}

pub open spec fn enc_meaning_list(ms: Seq<MeaningView>) -> Seq<u8> {
    enc_u64(ms.len() as u64) + enc_list(ms, enc_meaning_ef())
}

pub open spec fn enc_term(t: TermView) -> Seq<u8> {
    enc_str(t.id) + enc_opt_u32(t.frequency) + enc_bool(t.common) + enc_str(t.term) + enc_str(
        t.reading,
    ) + enc_opt_furigana_list(t.furigana) + enc_meaning_list(t.meanings)
}

pub open spec fn enc_entry(e: EntryView) -> Seq<u8> {
    enc_u64(e.terms.len() as u64) + enc_list(e.terms, enc_term_ef())
}

// ---------------------------------------------------------------------------
// Well-formedness: every element count fits the 64-bit length field. Every
// value built from exec data satisfies this; the encoder proves it.
// ---------------------------------------------------------------------------
pub open spec fn wf_len(n: nat) -> bool {
    n < pow256(8)
}

pub open spec fn wf_str(s: Seq<char>) -> bool {
    wf_len(s.len())
}

pub open spec fn wf_str_list(ss: Seq<Seq<char>>) -> bool {
    wf_len(ss.len()) && forall|i: int| 0 <= i < ss.len() ==> wf_str(#[trigger] ss[i])
}

pub open spec fn wf_furigana(f: FuriganaView) -> bool {
    wf_str(f.ruby) && match f.rt {
        Some(s) => wf_str(s),
        None => true,
    }
}

pub open spec fn wf_furigana_list(fs: Seq<FuriganaView>) -> bool {
    wf_len(fs.len()) && forall|i: int| 0 <= i < fs.len() ==> wf_furigana(#[trigger] fs[i])
}

pub open spec fn wf_meaning(m: MeaningView) -> bool {
    wf_str_list(m.tags) && wf_str_list(m.info) && wf_str_list(m.gloss)
}

pub open spec fn wf_meaning_list(ms: Seq<MeaningView>) -> bool {
    wf_len(ms.len()) && forall|i: int| 0 <= i < ms.len() ==> wf_meaning(#[trigger] ms[i])
}

pub open spec fn wf_term(t: TermView) -> bool {
    &&& wf_str(t.id)
    &&& wf_str(t.term)
    &&& wf_str(t.reading)
    &&& match t.furigana {
        Some(fs) => wf_furigana_list(fs),
        None => true,
    }
    &&& wf_meaning_list(t.meanings)
}

pub open spec fn wf_entry(e: EntryView) -> bool {
    wf_len(e.terms.len()) && forall|i: int| 0 <= i < e.terms.len() ==> wf_term(
        #[trigger] e.terms[i],
    )
}

// ---------------------------------------------------------------------------
// Decoding, at the specification level. A decoder takes the byte string and
// a position and yields the decoded value with the position just past it.
// ---------------------------------------------------------------------------
pub open spec fn dec_u64(s: Seq<u8>, i: int) -> Option<(u64, int)> {
    if 0 <= i && i + 8 <= s.len() {
        Some((le_value(s.subrange(i, i + 8)) as u64, i + 8))
    } else {
        None
    }
}

pub open spec fn dec_u32(s: Seq<u8>, i: int) -> Option<(u32, int)> {
    if 0 <= i && i + 4 <= s.len() {
        Some((le_value(s.subrange(i, i + 4)) as u32, i + 4))
    } else {
        None
    }
}

pub open spec fn dec_bool(s: Seq<u8>, i: int) -> Option<(bool, int)> {
    if 0 <= i && i + 1 <= s.len() {
        if s[i] == 0 {
            Some((false, i + 1))
        } else if s[i] == 1 {
            Some((true, i + 1))
        } else {
            None
        }
    } else {
        None
    }
}

pub open spec fn dec_char(s: Seq<u8>, i: int) -> Option<(char, int)> {
    if 0 <= i && i + 4 <= s.len() {
        let v = le_value(s.subrange(i, i + 4)) as u32;
        if vstd::utf8::is_scalar(v) {
            Some((v as char, i + 4))
        } else {
            None
        }
    } else {
        None
    }
}

/// Decode `n` items in a row with the item decoder `df`.
pub open spec fn dec_list<T>(
    s: Seq<u8>,
    i: int,
    n: nat,
    df: spec_fn(Seq<u8>, int) -> Option<(T, int)>,
) -> Option<(Seq<T>, int)>
    decreases n,
{
    if n == 0 {
        Some((Seq::empty(), i))
    } else {
        match df(s, i) {
            Some((t, j)) => match dec_list(s, j, (n - 1) as nat, df) {
                Some((ts, k)) => Some((seq![t] + ts, k)),
                None => None,
            },
            None => None,
        }
    }
}

pub open spec fn dec_str(s: Seq<u8>, i: int) -> Option<(Seq<char>, int)> {
    match dec_u64(s, i) {
        Some((n, j)) => dec_list(s, j, n as nat, dec_char_df()),
        None => None,
    }
}

pub open spec fn dec_opt_u32(s: Seq<u8>, i: int) -> Option<(Option<u32>, int)> {
    match dec_bool(s, i) {
        Some((true, j)) => match dec_u32(s, j) {
            Some((n, k)) => Some((Some(n), k)),
            None => None,
        },
        Some((false, j)) => Some((None, j)),
        None => None,
    }
}

pub open spec fn dec_opt_str(s: Seq<u8>, i: int) -> Option<(Option<Seq<char>>, int)> {
    match dec_bool(s, i) {
        Some((true, j)) => match dec_str(s, j) {
            Some((v, k)) => Some((Some(v), k)),
            None => None,
        },
        Some((false, j)) => Some((None, j)),
        None => None,
    }
}

pub open spec fn dec_str_list(s: Seq<u8>, i: int) -> Option<(Seq<Seq<char>>, int)> {
    match dec_u64(s, i) {
        Some((n, j)) => dec_list(s, j, n as nat, dec_str_df()),
        None => None,
    }
}

pub open spec fn dec_furigana(s: Seq<u8>, i: int) -> Option<(FuriganaView, int)> {
    match dec_str(s, i) {
        Some((ruby, j)) => match dec_opt_str(s, j) {
            Some((rt, k)) => Some((FuriganaView { ruby, rt }, k)),
            None => None,
        },
        None => None,
    }
}

pub open spec fn dec_furigana_list(s: Seq<u8>, i: int) -> Option<(Seq<FuriganaView>, int)> {
    match dec_u64(s, i) {
        Some((n, j)) => dec_list(s, j, n as nat, dec_furigana_df()),
        None => None,
    }
}

pub open spec fn dec_opt_furigana_list(s: Seq<u8>, i: int) -> Option<
    (Option<Seq<FuriganaView>>, int),
> {
    match dec_bool(s, i) {
        Some((true, j)) => match dec_furigana_list(s, j) {
            Some((v, k)) => Some((Some(v), k)),
            None => None,
        },
        Some((false, j)) => Some((None, j)),
        None => None,
    }
}

pub open spec fn dec_meaning(s: Seq<u8>, i: int) -> Option<(MeaningView, int)> {
    match dec_str_list(s, i) {
        Some((tags, j)) => match dec_str_list(s, j) {
            Some((info, k)) => match dec_str_list(s, k) {
                Some((gloss, l)) => Some((MeaningView { tags, info, gloss }, l)),
                None => None,
            },
            None => None,
        },
        None => None,
    }
}

pub open spec fn dec_meaning_list(s: Seq<u8>, i: int) -> Option<(Seq<MeaningView>, int)> {
    match dec_u64(s, i) {
        Some((n, j)) => dec_list(s, j, n as nat, dec_meaning_df()),
        None => None,
    }
}

pub open spec fn dec_term(s: Seq<u8>, i: int) -> Option<(TermView, int)> {
    match dec_str(s, i) {
        Some((id, i1)) => match dec_opt_u32(s, i1) {
            Some((frequency, i2)) => match dec_bool(s, i2) {
                Some((common, i3)) => match dec_str(s, i3) {
                    Some((term, i4)) => match dec_str(s, i4) {
                        Some((reading, i5)) => match dec_opt_furigana_list(s, i5) {
                            Some((furigana, i6)) => match dec_meaning_list(s, i6) {
                                Some((meanings, i7)) => Some(
                                    (
                                        TermView {
                                            id,
                                            frequency,
                                            common,
                                            term,
                                            reading,
                                            furigana,
                                            meanings,
                                        },
                                        i7,
                                    ),
                                ),
                                None => None,
                            },
                            None => None,
                        },
                        None => None,
                    },
                    None => None,
                },
                None => None,
            },
            None => None,
        },
        None => None,
    }
}

pub open spec fn dec_entry(s: Seq<u8>, i: int) -> Option<(EntryView, int)> {
    match dec_u64(s, i) {
        Some((n, j)) => match dec_list(s, j, n as nat, dec_term_df()) {
            Some((terms, k)) => Some((EntryView { terms }, k)),
            None => None,
        },
        None => None,
    }
}

// ---------------------------------------------------------------------------
// The round trip: a decoder pointed at the encoding of a value yields that
// value, and stops exactly at its end.
// ---------------------------------------------------------------------------
/// `sub` occurs in `s` at position `i`.
pub open spec fn slice_at(s: Seq<u8>, i: int, sub: Seq<u8>) -> bool {
    0 <= i && i + sub.len() <= s.len() && s.subrange(i, i + sub.len()) == sub
}

pub proof fn lemma_slice_at_split(s: Seq<u8>, i: int, a: Seq<u8>, b: Seq<u8>)
    requires
        slice_at(s, i, a + b),
    ensures
        slice_at(s, i, a),
        slice_at(s, i + a.len(), b),
{
    let ab = a + b;
    assert forall|k: int| 0 <= k < a.len() implies s.subrange(i, i + a.len())[k] == a[k] by {
        assert(ab[k] == a[k]);
        assert(s.subrange(i, i + ab.len())[k] == s[i + k]);
        assert(s.subrange(i, i + a.len())[k] == s[i + k]);
    }
    assert(s.subrange(i, i + a.len()) =~= a);
    assert forall|k: int|
        0 <= k < b.len() implies s.subrange(i + a.len(), i + a.len() + b.len())[k] == b[k] by {
        assert(ab[a.len() + k] == b[k]);
        assert(s.subrange(i, i + ab.len())[a.len() + k] == s[i + a.len() + k]);
        assert(s.subrange(i + a.len(), i + a.len() + b.len())[k] == s[i + a.len() + k]);
    }
    assert(s.subrange(i + a.len(), i + a.len() + b.len()) =~= b);
}

pub proof fn lemma_pow256_vals()
    ensures
        pow256(4) == 0x1_0000_0000,
        pow256(8) == 0x1_0000_0000_0000_0000,
{
    assert(pow256(0) == 1);
    assert(pow256(1) == 256);
    assert(pow256(2) == 0x1_0000);
    assert(pow256(3) == 0x100_0000);
    assert(pow256(4) == 0x1_0000_0000);
    assert(pow256(5) == 0x100_0000_0000);
    assert(pow256(6) == 0x1_0000_0000_0000);
    assert(pow256(7) == 0x100_0000_0000_0000);
    assert(pow256(8) == 0x1_0000_0000_0000_0000);
}

pub proof fn lemma_dec_enc_u64(s: Seq<u8>, i: int, n: u64)
    requires
        slice_at(s, i, enc_u64(n)),
    ensures
        dec_u64(s, i) == Some((n, i + 8)),
{
    lemma_le_bytes_len(n as nat, 8);
    lemma_pow256_vals();
    lemma_le_value_of_le_bytes(n as nat, 8);
}

pub proof fn lemma_dec_enc_u32(s: Seq<u8>, i: int, n: u32)
    requires
        slice_at(s, i, enc_u32(n)),
    ensures
        dec_u32(s, i) == Some((n, i + 4)),
{
    lemma_le_bytes_len(n as nat, 4);
    lemma_pow256_vals();
    lemma_le_value_of_le_bytes(n as nat, 4);
}

pub proof fn lemma_dec_enc_bool(s: Seq<u8>, i: int, b: bool)
    requires
        slice_at(s, i, enc_bool(b)),
    ensures
        dec_bool(s, i) == Some((b, i + 1)),
{
    assert(s.subrange(i, i + 1)[0] == s[i]);
}

pub proof fn lemma_dec_enc_char(s: Seq<u8>, i: int, c: char)
    requires
        slice_at(s, i, enc_char(c)),
    ensures
        dec_char(s, i) == Some((c, i + 4)),
{
    vstd::utf8::char_is_scalar(c);
    lemma_le_bytes_len((c as u32) as nat, 4);
    lemma_pow256_vals();
    lemma_le_value_of_le_bytes((c as u32) as nat, 4);
    vstd::utf8::char_u32_cast(c, c as u32);
}

pub proof fn lemma_dec_enc_list<T>(
    s: Seq<u8>,
    i: int,
    items: Seq<T>,
    f: spec_fn(T) -> Seq<u8>,
    df: spec_fn(Seq<u8>, int) -> Option<(T, int)>,
)
    requires
        slice_at(s, i, enc_list(items, f)),
        forall|idx: int, j: int|
            0 <= idx < items.len() && #[trigger] slice_at(s, j, f(items[idx])) ==> df(s, j)
                == Some((items[idx], j + f(items[idx]).len())),
    ensures
        dec_list(s, i, items.len() as nat, df) == Some((items, i + enc_list(items, f).len())),
    decreases items.len(),
{
    if items.len() == 0 {
        assert(items =~= Seq::<T>::empty());
    } else {
        lemma_slice_at_split(s, i, f(items[0]), enc_list(items.drop_first(), f));
        assert(slice_at(s, i, f(items[0])));
        assert(df(s, i) == Some((items[0], i + f(items[0]).len())));
        let j = i + f(items[0]).len();
        assert forall|idx: int, j2: int|
            0 <= idx < items.drop_first().len() && #[trigger] slice_at(
                s,
                j2,
                f(items.drop_first()[idx]),
            ) implies df(s, j2) == Some(
            (items.drop_first()[idx], j2 + f(items.drop_first()[idx]).len()),
        ) by {
            assert(items.drop_first()[idx] == items[idx + 1]);
        }
        lemma_dec_enc_list(s, j, items.drop_first(), f, df);
        assert(seq![items[0]] + items.drop_first() =~= items);
    }
}

pub proof fn lemma_dec_enc_str(s: Seq<u8>, i: int, v: Seq<char>)
    requires
        wf_str(v),
        slice_at(s, i, enc_str(v)),
    ensures
        dec_str(s, i) == Some((v, i + enc_str(v).len())),
{
    lemma_slice_at_split(s, i, enc_u64(v.len() as u64), enc_chars(v));
    lemma_le_bytes_len(v.len() as u64 as nat, 8);
    lemma_dec_enc_u64(s, i, v.len() as u64);
    assert forall|idx: int, j2: int|
        0 <= idx < v.len() && #[trigger] slice_at(s, j2, enc_char_ef()(v[idx]))
        implies dec_char_df()(s, j2) == Some((v[idx], j2 + enc_char_ef()(v[idx]).len())) by {
        assert(enc_char_ef()(v[idx]) == enc_char(v[idx]));
        assert(dec_char_df()(s, j2) == dec_char(s, j2));
        lemma_le_bytes_len((v[idx] as u32) as nat, 4);
        lemma_dec_enc_char(s, j2, v[idx]);
    }
    lemma_pow256_vals();
    lemma_dec_enc_list(s, i + 8, v, enc_char_ef(), dec_char_df());
}

pub proof fn lemma_dec_enc_opt_u32(s: Seq<u8>, i: int, o: Option<u32>)
    requires
        slice_at(s, i, enc_opt_u32(o)),
    ensures
        dec_opt_u32(s, i) == Some((o, i + enc_opt_u32(o).len())),
{
    match o {
        Some(n) => {
            lemma_slice_at_split(s, i, enc_bool(true), enc_u32(n));
            lemma_dec_enc_bool(s, i, true);
            lemma_dec_enc_u32(s, i + 1, n);
            lemma_le_bytes_len(n as nat, 4);
        },
        None => {
            lemma_dec_enc_bool(s, i, false);
        },
    }
}

pub proof fn lemma_dec_enc_opt_str(s: Seq<u8>, i: int, o: Option<Seq<char>>)
    requires
        match o {
            Some(v) => wf_str(v),
            None => true,
        },
        slice_at(s, i, enc_opt_str(o)),
    ensures
        dec_opt_str(s, i) == Some((o, i + enc_opt_str(o).len())),
{
    match o {
        Some(v) => {
            lemma_slice_at_split(s, i, enc_bool(true), enc_str(v));
            lemma_dec_enc_bool(s, i, true);
            lemma_dec_enc_str(s, i + 1, v);
        },
        None => {
            lemma_dec_enc_bool(s, i, false);
        },
    }
}

pub proof fn lemma_dec_enc_str_list(s: Seq<u8>, i: int, ss: Seq<Seq<char>>)
    requires
        wf_str_list(ss),
        slice_at(s, i, enc_str_list(ss)),
    ensures
        dec_str_list(s, i) == Some((ss, i + enc_str_list(ss).len())),
{
    lemma_slice_at_split(s, i, enc_u64(ss.len() as u64), enc_list(ss, enc_str_ef()));
    lemma_le_bytes_len(ss.len() as u64 as nat, 8);
    lemma_dec_enc_u64(s, i, ss.len() as u64);
    assert forall|idx: int, j2: int|
        0 <= idx < ss.len() && #[trigger] slice_at(s, j2, enc_str_ef()(ss[idx]))
        implies dec_str_df()(s, j2) == Some((ss[idx], j2 + enc_str_ef()(ss[idx]).len())) by {
        assert(enc_str_ef()(ss[idx]) == enc_str(ss[idx]));
        assert(dec_str_df()(s, j2) == dec_str(s, j2));
        lemma_dec_enc_str(s, j2, ss[idx]);
    }
    lemma_pow256_vals();
    lemma_dec_enc_list(s, i + 8, ss, enc_str_ef(), dec_str_df());
}

pub proof fn lemma_dec_enc_furigana(s: Seq<u8>, i: int, f: FuriganaView)
    requires
        wf_furigana(f),
        slice_at(s, i, enc_furigana(f)),
    ensures
        dec_furigana(s, i) == Some((f, i + enc_furigana(f).len())),
{
    lemma_slice_at_split(s, i, enc_str(f.ruby), enc_opt_str(f.rt));
    lemma_dec_enc_str(s, i, f.ruby);
    lemma_dec_enc_opt_str(s, i + enc_str(f.ruby).len(), f.rt);
}

pub proof fn lemma_dec_enc_furigana_list(s: Seq<u8>, i: int, fs: Seq<FuriganaView>)
    requires
        wf_furigana_list(fs),
        slice_at(s, i, enc_furigana_list(fs)),
    ensures
        dec_furigana_list(s, i) == Some((fs, i + enc_furigana_list(fs).len())),
{
    lemma_slice_at_split(s, i, enc_u64(fs.len() as u64), enc_list(fs, enc_furigana_ef()));
    lemma_le_bytes_len(fs.len() as u64 as nat, 8);
    lemma_dec_enc_u64(s, i, fs.len() as u64);
    assert forall|idx: int, j2: int|
        0 <= idx < fs.len() && #[trigger] slice_at(s, j2, enc_furigana_ef()(fs[idx]))
        implies dec_furigana_df()(s, j2) == Some(
        (fs[idx], j2 + enc_furigana_ef()(fs[idx]).len()),
    ) by {
        assert(enc_furigana_ef()(fs[idx]) == enc_furigana(fs[idx]));
        assert(dec_furigana_df()(s, j2) == dec_furigana(s, j2));
        lemma_dec_enc_furigana(s, j2, fs[idx]);
    }
    lemma_pow256_vals();
    lemma_dec_enc_list(s, i + 8, fs, enc_furigana_ef(), dec_furigana_df());
}

pub proof fn lemma_dec_enc_opt_furigana_list(s: Seq<u8>, i: int, o: Option<Seq<FuriganaView>>)
    requires
        match o {
            Some(fs) => wf_furigana_list(fs),
            None => true,
        },
        slice_at(s, i, enc_opt_furigana_list(o)),
    ensures
        dec_opt_furigana_list(s, i) == Some((o, i + enc_opt_furigana_list(o).len())),
{
    match o {
        Some(fs) => {
            lemma_slice_at_split(s, i, enc_bool(true), enc_furigana_list(fs));
            lemma_dec_enc_bool(s, i, true);
            lemma_dec_enc_furigana_list(s, i + 1, fs);
        },
        None => {
            lemma_dec_enc_bool(s, i, false);
        },
    }
}

pub proof fn lemma_dec_enc_meaning(s: Seq<u8>, i: int, m: MeaningView)
    requires
        wf_meaning(m),
        slice_at(s, i, enc_meaning(m)),
    ensures
        dec_meaning(s, i) == Some((m, i + enc_meaning(m).len())),
{
    lemma_slice_at_split(s, i, enc_str_list(m.tags) + enc_str_list(m.info), enc_str_list(m.gloss));
    lemma_slice_at_split(s, i, enc_str_list(m.tags), enc_str_list(m.info));
    lemma_dec_enc_str_list(s, i, m.tags);
    lemma_dec_enc_str_list(s, i + enc_str_list(m.tags).len(), m.info);
    lemma_dec_enc_str_list(
        s,
        i + enc_str_list(m.tags).len() + enc_str_list(m.info).len(),
        m.gloss,
    );
}

pub proof fn lemma_dec_enc_meaning_list(s: Seq<u8>, i: int, ms: Seq<MeaningView>)
    requires
        wf_meaning_list(ms),
        slice_at(s, i, enc_meaning_list(ms)),
    ensures
        dec_meaning_list(s, i) == Some((ms, i + enc_meaning_list(ms).len())),
{
    lemma_slice_at_split(s, i, enc_u64(ms.len() as u64), enc_list(ms, enc_meaning_ef()));
    lemma_le_bytes_len(ms.len() as u64 as nat, 8);
    lemma_dec_enc_u64(s, i, ms.len() as u64);
    assert forall|idx: int, j2: int|
        0 <= idx < ms.len() && #[trigger] slice_at(s, j2, enc_meaning_ef()(ms[idx]))
        implies dec_meaning_df()(s, j2) == Some(
        (ms[idx], j2 + enc_meaning_ef()(ms[idx]).len()),
    ) by {
        assert(enc_meaning_ef()(ms[idx]) == enc_meaning(ms[idx]));
        assert(dec_meaning_df()(s, j2) == dec_meaning(s, j2));
        lemma_dec_enc_meaning(s, j2, ms[idx]);
    }
    lemma_pow256_vals();
    lemma_dec_enc_list(s, i + 8, ms, enc_meaning_ef(), dec_meaning_df());
}

pub proof fn lemma_dec_enc_term(s: Seq<u8>, i: int, t: TermView)
    requires
        wf_term(t),
        slice_at(s, i, enc_term(t)),
    ensures
        dec_term(s, i) == Some((t, i + enc_term(t).len())),
{
    let e1 = enc_str(t.id);
    let e2 = enc_opt_u32(t.frequency);
    let e3 = enc_bool(t.common);
    let e4 = enc_str(t.term);
    let e5 = enc_str(t.reading);
    let e6 = enc_opt_furigana_list(t.furigana);
    let e7 = enc_meaning_list(t.meanings);
    lemma_slice_at_split(s, i, e1 + e2 + e3 + e4 + e5 + e6, e7);
    lemma_slice_at_split(s, i, e1 + e2 + e3 + e4 + e5, e6);
    lemma_slice_at_split(s, i, e1 + e2 + e3 + e4, e5);
    lemma_slice_at_split(s, i, e1 + e2 + e3, e4);
    lemma_slice_at_split(s, i, e1 + e2, e3);
    lemma_slice_at_split(s, i, e1, e2);
    lemma_dec_enc_str(s, i, t.id);
    lemma_dec_enc_opt_u32(s, i + e1.len(), t.frequency);
    lemma_dec_enc_bool(s, i + e1.len() + e2.len(), t.common);
    lemma_dec_enc_str(s, i + e1.len() + e2.len() + e3.len(), t.term);
    lemma_dec_enc_str(s, i + e1.len() + e2.len() + e3.len() + e4.len(), t.reading);
    lemma_dec_enc_opt_furigana_list(
        s,
        i + e1.len() + e2.len() + e3.len() + e4.len() + e5.len(),
        t.furigana,
    );
    lemma_dec_enc_meaning_list(
        s,
        i + e1.len() + e2.len() + e3.len() + e4.len() + e5.len() + e6.len(),
        t.meanings,
    );
}

pub proof fn lemma_dec_enc_entry(s: Seq<u8>, i: int, e: EntryView)
    requires
        wf_entry(e),
        slice_at(s, i, enc_entry(e)),
    ensures
        dec_entry(s, i) == Some((e, i + enc_entry(e).len())),
{
    lemma_slice_at_split(s, i, enc_u64(e.terms.len() as u64), enc_list(e.terms, enc_term_ef()));
    lemma_le_bytes_len(e.terms.len() as u64 as nat, 8);
    lemma_dec_enc_u64(s, i, e.terms.len() as u64);
    assert forall|idx: int, j2: int|
        0 <= idx < e.terms.len() && #[trigger] slice_at(s, j2, enc_term_ef()(e.terms[idx]))
        implies dec_term_df()(s, j2) == Some(
        (e.terms[idx], j2 + enc_term_ef()(e.terms[idx]).len()),
    ) by {
        assert(enc_term_ef()(e.terms[idx]) == enc_term(e.terms[idx]));
        assert(dec_term_df()(s, j2) == dec_term(s, j2));
        lemma_dec_enc_term(s, j2, e.terms[idx]);
    }
    lemma_pow256_vals();
    lemma_dec_enc_list(s, i + 8, e.terms, enc_term_ef(), dec_term_df());
}

/// Round-trip law: for every well-formed entry value, decoding its encoding
/// reproduces the value exactly, whatever bytes follow it, and consumes
/// exactly the encoding.
pub proof fn lemma_entry_round_trip(e: EntryView, rest: Seq<u8>)
    requires
        wf_entry(e),
    ensures
        dec_entry(enc_entry(e) + rest, 0) == Some((e, enc_entry(e).len() as int)),
{
    let s = enc_entry(e) + rest;
    assert(s.subrange(0, enc_entry(e).len() as int) =~= enc_entry(e));
    lemma_dec_enc_entry(s, 0, e);
}

} // verus!
