use saldo::lemma_token::{clean_input, read_lemma_tokens, LemmaToken};
use saldo::sense_prior::{first_senses, sense_number_of};

fn lines(v: &[&str]) -> Vec<String> {
    v.iter().map(|s| s.to_string()).collect()
}

#[test]
fn line_gives_lemmas_and_senses() {
    let t = LemmaToken::parse_line("1\thus\tNN\t_\thus|huset\thus..1|hus..2");
    assert_eq!(t.possible_lemmas(), &["hus".to_string(), "huset".to_string()]);
    assert_eq!(t.possible_senses(), &["hus..1".to_string(), "hus..2".to_string()]);
}

#[test]
fn underscore_fields_give_nothing() {
    let t = LemmaToken::parse_line("1\toch\tKN\t_\t_\t_");
    assert!(t.possible_lemmas().is_empty());
    assert!(t.possible_senses().is_empty());
}

#[test]
fn short_line_is_no_token() {
    assert!(LemmaToken::try_parse_line("1\thus\tNN").is_none());
    assert!(LemmaToken::try_parse_line("1\thus\tNN\t_\thus\thus..1").is_some());
}

#[test]
fn token_writes_its_line() {
    let t = LemmaToken::parse_line("1\thus\tNN\t_\thus|huset\thus..1");
    assert_eq!(t.to_line(), "_\t_\t_\t_\thus|huset\thus..1");
    let e = LemmaToken::parse_line("1\toch\tKN\t_\t_\t_");
    assert_eq!(e.to_line(), "_\t_\t_\t_\t_\t_");
}

#[test]
fn escaped_letters_are_restored() {
    assert_eq!(clean_input(r"p\xc3\xa5 \xc3\xa4ng \xc3\xb6"), "på äng ö");
    assert_eq!(clean_input("plain"), "plain");
}

#[test]
fn blank_lines_end_sentences() {
    let input = lines(&[
        "1\tett\tDT\t_\ten\ten..1",
        "2\thus\tNN\t_\thus\thus..1",
        "",
        "1\tja\tIN\t_\tja\t_",
        "   ",
    ]);
    let (first, next) = read_lemma_tokens(&input, 0).unwrap();
    let first = first.unwrap();
    assert_eq!(first.len(), 2);
    assert_eq!(first[1].possible_senses(), &["hus..1".to_string()]);
    assert_eq!(next, 3);
    let (second, next) = read_lemma_tokens(&input, next).unwrap();
    assert_eq!(second.unwrap().len(), 1);
    assert_eq!(next, 5);
    let (third, next) = read_lemma_tokens(&input, next).unwrap();
    assert!(third.is_none());
    assert_eq!(next, 5);
}

#[test]
fn sentence_may_end_with_the_input() {
    let input = lines(&["1\tp\\xc3\\xa5\tPP\t_\tp\\xc3\\xa5\tp\\xc3\\xa5..1"]);
    let (s, next) = read_lemma_tokens(&input, 0).unwrap();
    let s = s.unwrap();
    assert_eq!(s[0].possible_lemmas(), &["på".to_string()]);
    assert_eq!(next, 1);
}

#[test]
fn bad_line_is_named() {
    let input = lines(&["1\tett\tDT\t_\ten\ten..1", "not a token"]);
    assert_eq!(read_lemma_tokens(&input, 0).unwrap_err(), 1);
}

#[test]
fn lowest_sense_numbers_are_first() {
    assert_eq!(sense_number_of("hus..2"), Some(2));
    assert_eq!(sense_number_of("a..b..-3"), Some(-3));
    assert_eq!(sense_number_of("hus"), None);
    assert_eq!(sense_number_of("hus..x"), None);
    let ids: Vec<String> = ["hus..3", "hus..1", "hus..2", "hus..1"].iter().map(|s| s.to_string()).collect();
    assert_eq!(first_senses(&ids, &[true, true, true, true]), Some(vec![false, true, false, true]));
    assert_eq!(first_senses(&ids, &[true, false, true, false]), Some(vec![false, false, true, false]));
    let bad: Vec<String> = ["hus..1", "hus"].iter().map(|s| s.to_string()).collect();
    assert_eq!(first_senses(&bad, &[true, true]), None);
    assert_eq!(first_senses(&bad, &[true, false]), Some(vec![true, false]));
}

#[test]
fn unicode_white_space_line_ends_a_sentence() {
    let input = lines(&["\u{a0}1\tja\tIN\t_\tja\t_\u{3000}", "\u{a0}\u{2003}", "1\tnej\tIN\t_\tnej\t_"]);
    let (first, next) = read_lemma_tokens(&input, 0).unwrap();
    let first = first.unwrap();
    assert_eq!(first.len(), 1);
    assert_eq!(first[0].possible_lemmas(), &["ja".to_string()]);
    assert!(first[0].possible_senses().is_empty());
    assert_eq!(next, 2);
}
