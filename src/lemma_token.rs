//! Tokens of the tab-separated corpus format: the lemmas and senses that a
//! token may have, and the sentences that blank lines separate.
use vstd::prelude::*;
use vstd::string::StringExecFns;

use crate::text::{
    join_strings, join_with, replace_all, replace_str, split_on, split_str, str_eq, strings_view,
    trim_str, trimmed,
};

verus! {

/// What a token holds, with strings as character sequences.
pub struct LemmaTokenView {
    pub possible_senses: Seq<Seq<char>>,
    pub possible_lemmas: Seq<Seq<char>>,
    pub is_prefix: bool,
    pub is_suffix: bool,
}

/// One token of the corpus: the lemmas and senses it may have.
#[derive(Debug, Clone, Default)]
pub struct LemmaToken {
    possible_senses: Vec<String>,
    possible_lemmas: Vec<String>,
    is_prefix: bool,
    is_suffix: bool,
}

impl View for LemmaToken {
    type V = LemmaTokenView;

    closed spec fn view(&self) -> LemmaTokenView {
        LemmaTokenView {
            possible_senses: strings_view(self.possible_senses@),
            possible_lemmas: strings_view(self.possible_lemmas@),
            is_prefix: self.is_prefix,
            is_suffix: self.is_suffix,
        }
    }
}

/// The values of a field: none for `_`, else its `|`-separated pieces.
pub open spec fn field_values(f: Seq<char>) -> Seq<Seq<char>> {
    if f == "_"@ {
        Seq::empty()
    } else {
        split_on(f, '|')
    }
}

/// Whether a line has the six tab-separated fields that a token needs.
pub open spec fn has_token_fields(line: Seq<char>) -> bool {
    split_on(line, '\t').len() >= 6
}

/// The token of a line: lemmas from its fifth field, senses from its sixth.
pub open spec fn token_of_line(line: Seq<char>) -> LemmaTokenView {
    LemmaTokenView {
        possible_senses: field_values(split_on(line, '\t')[5]),
        possible_lemmas: field_values(split_on(line, '\t')[4]),
        is_prefix: false,
        is_suffix: false,
    }
}

/// The line that writes a token: position, word, affix mark, lemgrams,
/// lemmas and senses, `_` where there is nothing.
pub open spec fn token_line(t: LemmaTokenView) -> Seq<char> {
    "_\t_\t"@ + (if t.is_prefix {
        "(pfx)\t"@
    } else if t.is_suffix {
        "(sfx)\t"@
    } else {
        "_\t"@
    }) + "_\t"@ + (if t.possible_lemmas.len() > 0 {
        join_with(t.possible_lemmas, "|"@) + "\t"@
    } else {
        "_\t"@
    }) + (if t.possible_senses.len() > 0 {
        join_with(t.possible_senses, "|"@)
    } else {
        "_"@
    })
}

fn field_strings(field: &str) -> (r: Vec<String>)
    ensures
        strings_view(r@) == field_values(field@),
{
    if str_eq(field, "_") {
        let v: Vec<String> = Vec::new();
        assert(strings_view(v@) =~= Seq::empty());
        v
    } else {
        split_str(field, '|')
    }
}

impl LemmaToken {
    /// The token of one corpus line.
    pub fn parse_line(line: &str) -> (r: LemmaToken)
        requires
            has_token_fields(line@),
        ensures
            r@ == token_of_line(line@),
    {
        let xs = split_str(line, '\t');
        assert(strings_view(xs@)[4] == xs@[4]@);
        assert(strings_view(xs@)[5] == xs@[5]@);
        let possible_lemmas = field_strings(xs[4].as_str());
        let possible_senses = field_strings(xs[5].as_str());
        LemmaToken { possible_senses, possible_lemmas, is_prefix: false, is_suffix: false }
    }

    /// The token of one corpus line, or `None` when the line has fewer than
    /// six fields.
    pub fn try_parse_line(line: &str) -> (r: Option<LemmaToken>)
        ensures
            r is Some <==> has_token_fields(line@),
            r is Some ==> r->0@ == token_of_line(line@),
    {
        let xs = split_str(line, '\t');
        if xs.len() < 6 {
            None
        } else {
            Some(LemmaToken::parse_line(line))
        }
    }

    pub fn possible_senses(&self) -> (r: &[String])
        ensures
            strings_view(r@) == self@.possible_senses,
    {
        self.possible_senses.as_slice()
    }

    pub fn possible_lemmas(&self) -> (r: &[String])
        ensures
            strings_view(r@) == self@.possible_lemmas,
    {
        self.possible_lemmas.as_slice()
    }

    /// The token as a line of the output format.
    pub fn to_line(&self) -> (r: String)
        ensures
            r@ == token_line(self@),
    {
        let mut out = String::from_str("_\t_\t");
        if self.is_prefix {
            out.append("(pfx)\t");
        } else if self.is_suffix {
            out.append("(sfx)\t");
        } else {
            out.append("_\t");
        }
        out.append("_\t");
        if self.possible_lemmas.len() > 0 {
            let j = join_strings(self.possible_lemmas.as_slice(), "|");
            out.append(j.as_str());
            out.append("\t");
        } else {
            out.append("_\t");
        }
        if self.possible_senses.len() > 0 {
            let j = join_strings(self.possible_senses.as_slice(), "|");
            out.append(j.as_str());
        } else {
            out.append("_");
        }
        assert(out@ =~= token_line(self@));
        out
    }
}

/// A corpus line with the escaped bytes of å, ä and ö written as the letters.
pub open spec fn cleaned(s: Seq<char>) -> Seq<char> {
    replace_all(
        replace_all(replace_all(s, "\\xc3\\xa5"@, "å"@), "\\xc3\\xa4"@, "ä"@),
        "\\xc3\\xb6"@,
        "ö"@,
    )
}

/// Writes the escaped bytes of å, ä and ö as the letters.
pub fn clean_input(s: &str) -> (r: String)
    ensures
        r@ == cleaned(s@),
{
    proof {
        reveal_strlit("\\xc3\\xa5");
        reveal_strlit("\\xc3\\xa4");
        reveal_strlit("\\xc3\\xb6");
    }
    let out = replace_str(s, "\\xc3\\xa5", "å");
    let out = replace_str(out.as_str(), "\\xc3\\xa4", "ä");
    replace_str(out.as_str(), "\\xc3\\xb6", "ö")
}

/// The tokens of the sentence that starts at line `i`, and the line after it;
/// a blank line ends a sentence. `Err` names the first line that is no token.
pub open spec fn sentence_at(lines: Seq<Seq<char>>, i: int) -> Result<(Seq<LemmaTokenView>, int), int>
    decreases lines.len() - i,
{
    if i < 0 || i >= lines.len() {
        Ok((Seq::empty(), i))
    } else if trimmed(lines[i]).len() == 0 {
        Ok((Seq::empty(), i + 1))
    } else if !has_token_fields(cleaned(trimmed(lines[i]))) {
        Err(i)
    } else {
        match sentence_at(lines, i + 1) {
            Ok((ts, n)) => Ok((seq![token_of_line(cleaned(trimmed(lines[i])))] + ts, n)),
            Err(k) => Err(k),
        }
    }
}

pub open spec fn tokens_view(v: Seq<LemmaToken>) -> Seq<LemmaTokenView> {
    v.map_values(|t: LemmaToken| t@)
}

/// Reads the sentence that starts at line `start`: its tokens, or `None` when
/// no line is left, and the line where the next sentence starts. `Err` gives
/// the index of a line that is neither blank nor a token.
pub fn read_lemma_tokens(lines: &Vec<String>, start: usize) -> (r: Result<(Option<Vec<LemmaToken>>, usize), usize>)
    ensures
        match sentence_at(strings_view(lines@), start as int) {
            Ok((ts, n)) => r matches Ok((sentence, next)) && next == n && (sentence is None <==> start
                >= lines@.len()) && (sentence is Some ==> tokens_view(sentence->0@) == ts),
            Err(k) => r == Err::<(Option<Vec<LemmaToken>>, usize), usize>(k as usize),
        },
{
    let ghost ls = strings_view(lines@);
    if start >= lines.len() {
        return Ok((None, start));
    }
    let mut out: Vec<LemmaToken> = Vec::new();
    let mut i: usize = start;
    while i < lines.len()
        invariant
            start <= i <= lines@.len(),
            ls == strings_view(lines@),
            match sentence_at(ls, i as int) {
                Ok((ts, n)) => sentence_at(ls, start as int) == Ok::<
                    (Seq<LemmaTokenView>, int),
                    int,
                >((tokens_view(out@) + ts, n)),
                Err(k) => sentence_at(ls, start as int) == Err::<(Seq<LemmaTokenView>, int), int>(k),
            },
        decreases lines@.len() - i,
    {
        assert(ls[i as int] == lines@[i as int]@);
        let t = trim_str(lines[i].as_str());
        if t.is_empty() {
            assert(t@.len() == 0);
            assert(tokens_view(out@) + Seq::<LemmaTokenView>::empty() == tokens_view(out@));
            return Ok((Some(out), i + 1));
        }
        assert(t@.len() != 0);
        let clean = clean_input(t);
        match LemmaToken::try_parse_line(clean.as_str()) {
            None => {
                return Err(i);
            },
            Some(tok) => {
                let ghost before = out@;
                out.push(tok);
                proof {
                    assert(tokens_view(out@) =~= tokens_view(before).push(tok@));
                    match sentence_at(ls, i + 1) {
                        Ok((ts, n)) => {
                            assert(tokens_view(out@) + ts =~= tokens_view(before) + (seq![tok@] + ts));
                        },
                        Err(k) => {},
                    }
                }
            },
        }
        i = i + 1;
    }
    assert(tokens_view(out@) + Seq::<LemmaTokenView>::empty() == tokens_view(out@));
    Ok((Some(out), i))
}

} // verus!
