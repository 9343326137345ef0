//! Plain string operations, stated over character sequences.
use vstd::prelude::*;

verus! {

/// The characters of each string.
pub open spec fn strings_view(v: Seq<String>) -> Seq<Seq<char>> {
    v.map_values(|s: String| s@)
}

/// Whether two strings are equal.
pub fn str_eq(a: &str, b: &str) -> (r: bool)
    ensures
        r == (a@ == b@),
{
    let x = a.to_owned();
    let y = b.to_owned();
    x == y
}

/// The pieces of `s` between the occurrences of `sep`, in order: one more
/// piece than there are separators.
pub open spec fn split_on(s: Seq<char>, sep: char) -> Seq<Seq<char>>
    decreases s.len(),
{
    if s.len() == 0 {
        seq![Seq::empty()]
    } else {
        let p = split_on(s.drop_last(), sep);
        if s.last() == sep {
            p.push(Seq::empty())
        } else {
            p.update(p.len() - 1, p.last().push(s.last()))
        }
    }
}

/// Relies on str::split with a character: the pieces between the separators,
/// in order.
#[verifier::external_body]
pub(crate) fn split_str(s: &str, sep: char) -> (r: Vec<String>)
    ensures
        strings_view(r@) == split_on(s@, sep),
{
    s.split(sep).map(|p| p.to_string()).collect()
}

/// The pieces joined, with `sep` between each two.
pub open spec fn join_with(parts: Seq<Seq<char>>, sep: Seq<char>) -> Seq<char>
    decreases parts.len(),
{
    if parts.len() == 0 {
        Seq::empty()
    } else if parts.len() == 1 {
        parts[0]
    } else {
        join_with(parts.drop_last(), sep) + sep + parts.last()
    }
}

/// Relies on `[String]::join`: the pieces with `sep` between each two.
#[verifier::external_body]
pub(crate) fn join_strings(parts: &[String], sep: &str) -> (r: String)
    ensures
        r@ == join_with(strings_view(parts@), sep@),
{
    parts.join(sep)
}

/// Whether `c` is white space: the characters with Unicode's White_Space
/// property.
pub open spec fn is_white_space(c: char) -> bool {
    ('\t' <= c && c <= '\r') || c == ' ' || c == '\u{85}' || c == '\u{a0}' || c == '\u{1680}'
        || ('\u{2000}' <= c && c <= '\u{200a}') || c == '\u{2028}' || c == '\u{2029}' || c
        == '\u{202f}' || c == '\u{205f}' || c == '\u{3000}'
}

/// `s` without its leading white space.
pub open spec fn trimmed_start(s: Seq<char>) -> Seq<char>
    decreases s.len(),
{
    if s.len() > 0 && is_white_space(s[0]) {
        trimmed_start(s.subrange(1, s.len() as int))
    } else {
        s
    }
}

/// `s` without its trailing white space.
pub open spec fn trimmed_end(s: Seq<char>) -> Seq<char>
    decreases s.len(),
{
    if s.len() > 0 && is_white_space(s.last()) {
        trimmed_end(s.drop_last())
    } else {
        s
    }
}

/// `s` without its leading and trailing white space.
pub open spec fn trimmed(s: Seq<char>) -> Seq<char> {
    trimmed_end(trimmed_start(s))
}

/// Relies on str::trim: leading and trailing characters with the White_Space
/// property removed.
#[verifier::external_body]
pub(crate) fn trim_str(s: &str) -> (r: &str)
    ensures
        r@ == trimmed(s@),
{
    s.trim()
}

/// `s` with each occurrence of `pat`, read from the left without overlap,
/// replaced by `to`.
pub open spec fn replace_all(s: Seq<char>, pat: Seq<char>, to: Seq<char>) -> Seq<char>
    decreases s.len(),
{
    if pat.len() == 0 || s.len() < pat.len() {
        s
    } else if s.subrange(0, pat.len() as int) == pat {
        to + replace_all(s.subrange(pat.len() as int, s.len() as int), pat, to)
    } else {
        seq![s[0]] + replace_all(s.subrange(1, s.len() as int), pat, to)
    }
}

/// Relies on str::replace: every match of `from`, from the left and without
/// overlap, replaced by `to`.
#[verifier::external_body]
pub(crate) fn replace_str(s: &str, from: &str, to: &str) -> (r: String)
    requires
        from@.len() > 0,
    ensures
        r@ == replace_all(s@, from@, to@),
{
    s.replace(from, to)
}

} // verus!
