//! Which possible senses of a token are its first senses: the ones with the
//! lowest sense number, the number after the last `..` of a sense id.
use vstd::prelude::*;

verus! {

/// Whether `s` holds `..` at `i`.
pub open spec fn dots_at(s: Seq<char>, i: int) -> bool {
    0 <= i && i + 2 <= s.len() && s[i] == '.' && s[i + 1] == '.'
}

/// What follows the last `..` of `s`, if it holds one.
pub open spec fn after_last_dots(s: Seq<char>) -> Option<Seq<char>>
    decreases s.len(),
{
    if s.len() < 2 {
        None
    } else if dots_at(s, s.len() - 2) {
        Some(Seq::empty())
    } else {
        match after_last_dots(s.drop_last()) {
            Some(rest) => Some(rest.push(s.last())),
            None => None,
        }
    }
}

/// Relies on str::rsplit_once: the part after the last occurrence of `..`.
#[verifier::external_body]
fn split_last_dots(s: &str) -> (r: Option<&str>)
    ensures
        r is Some <==> after_last_dots(s@) is Some,
        r is Some ==> r->0@ == after_last_dots(s@)->0,
{
    s.rsplit_once("..").map(|(_, n)| n)
}

/// The value of a string of decimal digits.
pub open spec fn decimal_value(s: Seq<char>) -> int
    decreases s.len(),
{
    if s.len() == 0 {
        0
    } else {
        decimal_value(s.drop_last()) * 10 + (s.last() as int - '0' as int)
    }
}

/// The `i32` that a string spells: an optional sign, then one or more
/// decimal digits, with a value in range.
pub open spec fn i32_of(s: Seq<char>) -> Option<i32> {
    let neg = s.len() > 0 && s[0] == '-';
    let d = if s.len() > 0 && (s[0] == '+' || s[0] == '-') {
        s.subrange(1, s.len() as int)
    } else {
        s
    };
    let v = if neg {
        -decimal_value(d)
    } else {
        decimal_value(d)
    };
    if d.len() > 0 && (forall|i: int| 0 <= i < d.len() ==> '0' <= #[trigger] d[i] <= '9') && i32::MIN
        <= v <= i32::MAX {
        Some(v as i32)
    } else {
        None
    }
}

/// Relies on `i32::from_str`: an optional sign and decimal digits, with a
/// value in range.
#[verifier::external_body]
fn parse_i32(s: &str) -> (r: Option<i32>)
    ensures
        r == i32_of(s@),
{
    s.parse().ok()
}

/// The sense number of a sense id: the number after its last `..`.
pub open spec fn sense_number(id: Seq<char>) -> Option<i32> {
    match after_last_dots(id) {
        Some(n) => i32_of(n),
        None => None,
    }
}

/// The sense number of a sense id, if it has one.
pub fn sense_number_of(id: &str) -> (r: Option<i32>)
    ensures
        r == sense_number(id@),
{
    match split_last_dots(id) {
        Some(n) => parse_i32(n),
        None => None,
    }
}

/// For each possible sense, whether it was found and has the lowest sense
/// number of the senses found; `None` when a sense that was found has no
/// sense number.
pub fn first_senses(ids: &[String], seen: &[bool]) -> (r: Option<Vec<bool>>)
    requires
        ids@.len() == seen@.len(),
    ensures
        r is None <==> exists|i: int|
            0 <= i < seen@.len() && seen@[i] && #[trigger] sense_number(ids@[i]@) is None,
        r is Some ==> r->0@.len() == ids@.len() && forall|i: int|
            0 <= i < ids@.len() ==> #[trigger] r->0@[i] == (seen@[i] && forall|j: int|
                0 <= j < ids@.len() && seen@[j] ==> sense_number(ids@[i]@)->0 <= sense_number(
                    ids@[j]@,
                )->0),
{
    let mut min: i32 = i32::MAX;
    let mut i: usize = 0;
    while i < ids.len()
        invariant
            0 <= i <= ids@.len(),
            ids@.len() == seen@.len(),
            forall|j: int| 0 <= j < i && seen@[j] ==> #[trigger] sense_number(ids@[j]@) is Some,
            forall|j: int| 0 <= j < i && seen@[j] ==> min <= #[trigger] sense_number(ids@[j]@)->0,
            (exists|j: int| 0 <= j < i && seen@[j] && #[trigger] sense_number(ids@[j]@)->0 == min)
                || min == i32::MAX,
        decreases ids@.len() - i,
    {
        if seen[i] {
            match sense_number_of(ids[i].as_str()) {
                None => {
                    return None;
                },
                Some(n) => {
                    if n < min {
                        min = n;
                    }
                },
            }
        }
        i = i + 1;
    }
    let mut out: Vec<bool> = Vec::new();
    let mut k: usize = 0;
    while k < ids.len()
        invariant
            0 <= k <= ids@.len(),
            ids@.len() == seen@.len(),
            out@.len() == k,
            forall|j: int| 0 <= j < ids@.len() && seen@[j] ==> #[trigger] sense_number(ids@[j]@) is Some,
            forall|j: int| 0 <= j < ids@.len() && seen@[j] ==> min <= #[trigger] sense_number(ids@[j]@)->0,
            (exists|j: int| 0 <= j < ids@.len() && seen@[j] && #[trigger] sense_number(ids@[j]@)->0 == min)
                || min == i32::MAX,
            forall|m: int|
                0 <= m < k ==> #[trigger] out@[m] == (seen@[m] && forall|j: int|
                    0 <= j < ids@.len() && seen@[j] ==> sense_number(ids@[m]@)->0 <= sense_number(
                        ids@[j]@,
                    )->0),
        decreases ids@.len() - k,
    {
        let first = if seen[k] {
            match sense_number_of(ids[k].as_str()) {
                Some(n) => n == min,
                None => false,
            }
        } else {
            false
        };
        proof {
            if seen@[k as int] {
                let nk = sense_number(ids@[k as int]@)->0;
                if nk == min {
                    assert forall|j: int| 0 <= j < ids@.len() && seen@[j] implies nk <= sense_number(
                        ids@[j]@,
                    )->0 by {
                        assert(min <= sense_number(ids@[j]@)->0);
                    }
                } else {
                    assert(min < nk);
                    if min == i32::MAX {
                        assert(nk <= i32::MAX);
                    } else {
                        let w = choose|j: int|
                            0 <= j < ids@.len() && seen@[j] && #[trigger] sense_number(ids@[j]@)->0
                                == min;
                        assert(!(nk <= sense_number(ids@[w]@)->0));
                    }
                }
            }
        }
        out.push(first);
        k = k + 1;
    }
    Some(out)
}

} // verus!
