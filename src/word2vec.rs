//! The binary word2vec format: a header with the number of words and the
//! dimension, then each word, a space, and its components as little-endian
//! 32-bit patterns.
use vstd::prelude::*;
use vstd::utf8::valid_utf8;

use crate::id_index::IdIndex;
use crate::xml_reader::{utf8_string, utf8_text};

verus! {

pub open spec fn is_digit(c: u8) -> bool {
    48 <= c <= 57
}

/// The first position at or after `p` that holds no decimal digit.
pub open spec fn digits_end(b: Seq<u8>, p: int) -> int
    decreases b.len() - p,
{
    if 0 <= p < b.len() && is_digit(b[p]) {
        digits_end(b, p + 1)
    } else {
        p
    }
}

/// The value of a string of decimal digits.
pub open spec fn digits_number(d: Seq<u8>) -> int
    decreases d.len(),
{
    if d.len() == 0 {
        0
    } else {
        digits_number(d.drop_last()) * 10 + (d.last() - 48)
    }
}

/// The number written at `p`, and the position after its digits.
pub open spec fn number_at(b: Seq<u8>, p: int) -> Option<(usize, int)> {
    let e = digits_end(b, p);
    if 0 <= p < e && digits_number(b.subrange(p, e)) <= usize::MAX {
        Some((digits_number(b.subrange(p, e)) as usize, e))
    } else {
        None
    }
}

/// The first position at or after `p` that holds a space, or the end.
pub open spec fn word_end(b: Seq<u8>, p: int) -> int
    decreases b.len() - p,
{
    if 0 <= p < b.len() && b[p] != 32 {
        word_end(b, p + 1)
    } else {
        p
    }
}

/// The 32-bit pattern of the four bytes at `p`, least significant first.
pub open spec fn le_u32(b: Seq<u8>, p: int) -> u32 {
    (b[p] + 256 * b[p + 1] + 65536 * b[p + 2] + 16777216 * b[p + 3]) as u32
}

/// The record at `p`: an optional line break, the word up to a space, then
/// `dim` components; with the position after it.
pub open spec fn record_at(b: Seq<u8>, p: int, dim: usize) -> Option<(Seq<u8>, Seq<u32>, int)> {
    let q = if 0 <= p < b.len() && b[p] == 10 {
        p + 1
    } else {
        p
    };
    let e = word_end(b, q);
    if p < 0 || e >= b.len() || e + 1 + 4 * dim > b.len() {
        None
    } else {
        Some((b.subrange(q, e), Seq::new(dim as nat, |j: int| le_u32(b, e + 1 + 4 * j)), e + 1 + 4 * dim))
    }
}

/// The `n` records from `p` on, in order.
pub open spec fn records_from(b: Seq<u8>, p: int, n: nat, dim: usize) -> Option<Seq<(Seq<u8>, Seq<u32>)>>
    decreases n,
{
    if n == 0 {
        Some(Seq::empty())
    } else {
        match record_at(b, p, dim) {
            None => None,
            Some((w, v, q)) => match records_from(b, q, (n - 1) as nat, dim) {
                Some(rest) => Some(seq![(w, v)] + rest),
                None => None,
            },
        }
    }
}

/// The records of a file: the number of words, one byte, the dimension, then
/// that many records.
pub open spec fn file_records(b: Seq<u8>) -> Option<Seq<(Seq<u8>, Seq<u32>)>> {
    match number_at(b, 0) {
        None => None,
        Some((voc, p)) => match number_at(b, p + 1) {
            None => None,
            Some((dim, q)) => records_from(b, q, voc as nat, dim),
        },
    }
}

/// The words of some records, as text.
pub open spec fn words_valid(r: Seq<(Seq<u8>, Seq<u32>)>) -> bool {
    forall|i: int| 0 <= i < r.len() ==> valid_utf8(#[trigger] r[i].0)
}

/// The records whose word does not occur earlier, in order, words as text.
pub open spec fn first_occurrences(r: Seq<(Seq<u8>, Seq<u32>)>) -> Seq<(Seq<char>, Seq<u32>)>
    decreases r.len(),
{
    if r.len() == 0 {
        Seq::empty()
    } else {
        let prev = first_occurrences(r.drop_last());
        let w = utf8_text(r.last().0)->0;
        if exists|i: int| 0 <= i < prev.len() && #[trigger] prev[i].0 == w {
            prev
        } else {
            prev.push((w, r.last().1))
        }
    }
}

/// The dictionary of a file: each word once, with the vector of its first
/// record, in file order; `None` when the file is cut short, a number does
/// not read, or a word is not UTF-8.
pub open spec fn w2v_dictionary(b: Seq<u8>) -> Option<Seq<(Seq<char>, Seq<u32>)>> {
    match file_records(b) {
        Some(r) => if words_valid(r) {
            Some(first_occurrences(r))
        } else {
            None
        },
        None => None,
    }
}

/// A word and the bit patterns of its vector's components.
#[derive(Debug, Clone)]
pub struct W2vEntry {
    pub word: String,
    pub bits: Vec<u32>,
}

pub open spec fn entries_view(v: Seq<W2vEntry>) -> Seq<(Seq<char>, Seq<u32>)> {
    v.map_values(|e: W2vEntry| (e.word@, e.bits@))
}

fn scan_digits(b: &[u8], p: usize) -> (r: usize)
    requires
        p <= b@.len(),
    ensures
        r == digits_end(b@, p as int),
        p <= r <= b@.len(),
{
    let mut i = p;
    while i < b.len() && b[i] >= 48 && b[i] <= 57
        invariant
            p <= i <= b@.len(),
            digits_end(b@, i as int) == digits_end(b@, p as int),
        decreases b@.len() - i,
    {
        i = i + 1;
    }
    i
}

/// Each digit only adds to the value of a number: a longer run of digits is
/// worth at least as much as its prefix.
proof fn lemma_digits_grow(d: Seq<u8>, k: int)
    requires
        0 <= k <= d.len(),
        forall|i: int| 0 <= i < d.len() ==> is_digit(#[trigger] d[i]),
    ensures
        digits_number(d) >= digits_number(d.subrange(0, k)),
    decreases d.len(),
{
    if k < d.len() {
        assert(d.drop_last().subrange(0, k) == d.subrange(0, k));
        lemma_digits_grow(d.drop_last(), k);
        assert(digits_number(d.drop_last()) >= 0) by {
            lemma_digits_nonnegative(d.drop_last());
        }
    } else {
        assert(d.subrange(0, k) == d);
    }
}

proof fn lemma_digits_nonnegative(d: Seq<u8>)
    requires
        forall|i: int| 0 <= i < d.len() ==> is_digit(#[trigger] d[i]),
    ensures
        digits_number(d) >= 0,
    decreases d.len(),
{
    if d.len() > 0 {
        lemma_digits_nonnegative(d.drop_last());
    }
}

proof fn lemma_digits_end_digits(b: Seq<u8>, p: int)
    requires
        0 <= p <= b.len(),
    ensures
        p <= digits_end(b, p) <= b.len(),
        forall|i: int| p <= i < digits_end(b, p) ==> is_digit(#[trigger] b[i]),
    decreases b.len() - p,
{
    if p < b.len() && is_digit(b[p]) {
        lemma_digits_end_digits(b, p + 1);
    }
}

fn read_number(b: &[u8], p: usize) -> (r: Option<(usize, usize)>)
    requires
        p <= b@.len(),
    ensures
        r is None <==> number_at(b@, p as int) is None,
        r matches Some((v, e)) ==> number_at(b@, p as int) == Some((v, e as int)) && p < e && e
            <= b@.len(),
{
    let e = scan_digits(b, p);
    if e == p {
        return None;
    }
    proof {
        lemma_digits_end_digits(b@, p as int);
    }
    let ghost d = b@.subrange(p as int, e as int);
    let mut value: usize = 0;
    let mut i = p;
    while i < e
        invariant
            p <= i <= e <= b@.len(),
            e == digits_end(b@, p as int),
            d == b@.subrange(p as int, e as int),
            forall|k: int| p <= k < e ==> is_digit(#[trigger] b@[k]),
            value == digits_number(b@.subrange(p as int, i as int)),
        decreases e - i,
    {
        let digit = (b[i] - 48) as usize;
        assert(b@.subrange(p as int, i + 1).drop_last() == b@.subrange(p as int, i as int));
        if value > (usize::MAX - digit) / 10 {
            proof {
                assert(value * 10 + digit > usize::MAX) by (nonlinear_arith)
                    requires
                        value > (usize::MAX - digit) / 10,
                        digit <= 9,
                ;
                assert(d.subrange(0, i + 1 - p) == b@.subrange(p as int, i + 1));
                assert forall|k: int| 0 <= k < d.len() implies is_digit(#[trigger] d[k]) by {
                    assert(d[k] == b@[p + k]);
                }
                lemma_digits_grow(d, i + 1 - p);
            }
            return None;
        }
        assert(value * 10 + digit <= usize::MAX) by (nonlinear_arith)
            requires
                value <= (usize::MAX - digit) / 10,
                digit <= 9,
        ;
        value = value * 10 + digit;
        i = i + 1;
    }
    Some((value, e))
}

fn scan_word(b: &[u8], p: usize) -> (r: usize)
    requires
        p <= b@.len(),
    ensures
        r == word_end(b@, p as int),
        p <= r <= b@.len(),
{
    let mut i = p;
    while i < b.len() && b[i] != 32
        invariant
            p <= i <= b@.len(),
            word_end(b@, i as int) == word_end(b@, p as int),
        decreases b@.len() - i,
    {
        i = i + 1;
    }
    i
}

fn read_u32_le(b: &[u8], p: usize) -> (r: u32)
    requires
        p + 4 <= b@.len(),
    ensures
        r == le_u32(b@, p as int),
{
    (b[p] as u32) + 256 * (b[p + 1] as u32) + 65536 * (b[p + 2] as u32) + 16777216 * (b[p + 3] as u32)
}

fn read_record(b: &[u8], p: usize, dim: usize) -> (r: Option<(Vec<u8>, Vec<u32>, usize)>)
    requires
        p <= b@.len(),
    ensures
        match record_at(b@, p as int, dim) {
            Some((w, v, q)) => r matches Some((rw, rv, rq)) && rw@ == w && rv@ == v && rq == q,
            None => r is None,
        },
{
    let q = if p < b.len() && b[p] == 10 {
        p + 1
    } else {
        p
    };
    let e = scan_word(b, q);
    if e >= b.len() {
        return None;
    }
    let room = b.len() - e - 1;
    if dim > room / 4 {
        assert(4 * dim > room) by (nonlinear_arith)
            requires
                dim > room / 4,
        ;
        return None;
    }
    assert(4 * dim <= room) by (nonlinear_arith)
        requires
            dim <= room / 4,
    ;
    let mut word: Vec<u8> = Vec::new();
    let mut i = q;
    while i < e
        invariant
            q <= i <= e < b@.len(),
            word@ == b@.subrange(q as int, i as int),
        decreases e - i,
    {
        word.push(b[i]);
        assert(word@ =~= b@.subrange(q as int, i + 1));
        i = i + 1;
    }
    let start = e + 1;
    let mut bits: Vec<u32> = Vec::new();
    let mut j: usize = 0;
    while j < dim
        invariant
            0 <= j <= dim,
            start == e + 1,
            start + 4 * dim <= b@.len(),
            b@.len() <= usize::MAX,
            bits@ == Seq::new(j as nat, |k: int| le_u32(b@, e + 1 + 4 * k)),
        decreases dim - j,
    {
        assert(4 * j + 4 <= 4 * dim) by (nonlinear_arith)
            requires
                j < dim,
        ;
        let x = read_u32_le(b, start + 4 * j);
        bits.push(x);
        assert(bits@ =~= Seq::new((j + 1) as nat, |k: int| le_u32(b@, e + 1 + 4 * k)));
        j = j + 1;
    }
    Some((word, bits, start + 4 * dim))
}

/// Reads a binary word2vec file: each word once, with the component bits of
/// its first record, in file order; `None` when the file is cut short, a
/// number does not read, or a word is not UTF-8.
pub fn parse_w2v(bytes: &[u8]) -> (r: Option<Vec<W2vEntry>>)
    ensures
        match w2v_dictionary(bytes@) {
            Some(d) => r is Some && entries_view(r->0@) == d,
            None => r is None,
        },
{
    let (voc, p) = match read_number(bytes, 0) {
        None => {
            return None;
        },
        Some(x) => x,
    };
    if p >= bytes.len() {
        return None;
    }
    let (dim, q) = match read_number(bytes, p + 1) {
        None => {
            return None;
        },
        Some(x) => x,
    };
    let ghost b = bytes@;
    let mut out: Vec<W2vEntry> = Vec::new();
    let mut seen = IdIndex::new();
    let mut pos = q;
    let ghost mut done: Seq<(Seq<u8>, Seq<u32>)> = Seq::empty();
    proof {
        assert(file_records(b) == records_from(b, q as int, voc as nat, dim));
        match records_from(b, q as int, voc as nat, dim) {
            Some(rest) => {
                assert(done + rest =~= rest);
            },
            None => {},
        }
        assert(entries_view(out@) =~= first_occurrences(done));
    }
    let mut k: usize = 0;
    while k < voc
        invariant
            k <= voc,
            pos <= b.len(),
            b == bytes@,
            file_records(b) == (match records_from(b, pos as int, (voc - k) as nat, dim) {
                Some(rest) => Some(done + rest),
                None => None,
            }),
            words_valid(done),
            entries_view(out@) == first_occurrences(done),
            forall|w: Seq<char>|
                #![trigger seen@.contains_key(w)]
                seen@.contains_key(w) <==> exists|i: int| 0 <= i < out@.len() && #[trigger] out@[i].word@ == w,
        decreases voc - k,
    {
        let (wbytes, bits, next) = match read_record(bytes, pos, dim) {
            None => {
                return None;
            },
            Some(x) => x,
        };
        let ghost rec = (wbytes@, bits@);
        let ghost rest_after = records_from(b, next as int, (voc - k - 1) as nat, dim);
        let word = match utf8_string(wbytes) {
            None => {
                proof {
                    match rest_after {
                        Some(rest2) => {
                            let all = done + (seq![rec] + rest2);
                            assert(all[done.len() as int] == rec);
                        },
                        None => {},
                    }
                }
                return None;
            },
            Some(w) => w,
        };
        let ghost prev = first_occurrences(done);
        assert(done.push(rec).drop_last() == done);
        let known = seen.get(word.as_str()).is_some();
        proof {
            assert(entries_view(out@).len() == out@.len());
            if known {
                assert(seen@.contains_key(word@));
                assert(exists|i: int| 0 <= i < out@.len() && #[trigger] out@[i].word@ == word@);
                let i = choose|i: int| 0 <= i < out@.len() && #[trigger] out@[i].word@ == word@;
                assert(entries_view(out@)[i] == (out@[i].word@, out@[i].bits@));
                assert(prev[i].0 == word@);
            } else {
                assert forall|i: int| 0 <= i < prev.len() implies #[trigger] prev[i].0 != word@ by {
                    assert(entries_view(out@)[i] == (out@[i].word@, out@[i].bits@));
                    assert(!seen@.contains_key(out@[i].word@) ==> false);
                }
            }
        }
        let ghost old_seen = seen@;
        if !known {
            let slot = out.len();
            seen.insert(word.clone(), slot);
            let ghost before = out@;
            out.push(W2vEntry { word, bits });
            proof {
                assert(entries_view(out@) =~= entries_view(before).push(rec_text(rec)));
                assert forall|w: Seq<char>|
                    #![trigger seen@.contains_key(w)]
                    seen@.contains_key(w) implies exists|i: int| 0 <= i < out@.len() && #[trigger] out@[i].word@ == w by {
                    if w == out@[slot as int].word@ {
                    } else {
                        assert(old_seen.contains_key(w));
                        assert(exists|i: int| 0 <= i < before.len() && #[trigger] before[i].word@ == w);
                        let i = choose|i: int| 0 <= i < before.len() && #[trigger] before[i].word@ == w;
                        assert(out@[i] == before[i]);
                        assert(out@[i].word@ == w);
                    }
                }
                assert forall|w: Seq<char>|
                    #![trigger seen@.contains_key(w)]
                    (exists|i: int| 0 <= i < out@.len() && #[trigger] out@[i].word@ == w) implies seen@.contains_key(w) by {
                    let i = choose|i: int| 0 <= i < out@.len() && #[trigger] out@[i].word@ == w;
                    if i < before.len() {
                        assert(before[i].word@ == w);
                    }
                }
            }
        }
        proof {
            let d2 = done.push(rec);
            match rest_after {
                Some(rest2) => {
                    assert(d2 + rest2 =~= done + (seq![rec] + rest2));
                },
                None => {},
            }
            assert forall|i: int| 0 <= i < d2.len() implies valid_utf8(#[trigger] d2[i].0) by {
                if i < done.len() {
                    assert(d2[i] == done[i]);
                }
            }
            done = d2;
        }
        pos = next;
        k = k + 1;
    }
    proof {
        assert(done + Seq::<(Seq<u8>, Seq<u32>)>::empty() =~= done);
    }
    Some(out)
}

/// A record with its word as text.
pub open spec fn rec_text(rec: (Seq<u8>, Seq<u32>)) -> (Seq<char>, Seq<u32>) {
    (utf8_text(rec.0)->0, rec.1)
}

} // verus!
