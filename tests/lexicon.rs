use std::io::Write;

use saldo::saldo_entry::SaldoId;
use saldo::saldo_lexicon::{SaldoLexicon, SaldoLexiconError, PRIM};

fn entry(id: &str, primary: Option<&str>, secondary: &[&str], forms: &str) -> String {
    let mut s = String::from("<LexicalEntry><Sense id=\"");
    s.push_str(id);
    s.push_str("\">");
    if let Some(t) = primary {
        s.push_str(&format!(
            "<SenseRelation targets=\"{}\"><feat att=\"label\" val=\"primary\"/></SenseRelation>",
            t
        ));
    }
    for t in secondary {
        s.push_str(&format!(
            "<SenseRelation targets=\"{}\"><feat att=\"label\" val=\"secondary\"/></SenseRelation>",
            t
        ));
    }
    s.push_str("</Sense>");
    s.push_str(forms);
    s.push_str("</LexicalEntry>");
    s
}

fn form(lemgram: &str, pos: &str, wf: Option<&str>) -> String {
    let mut s = String::from("<Lemma><FormRepresentation>");
    s.push_str(&format!("<feat att=\"lemgram\" val=\"{}\"/>", lemgram));
    s.push_str(&format!("<feat att=\"partOfSpeech\" val=\"{}\"/>", pos));
    s.push_str("<feat att=\"paradigm\" val=\"nn_6u_hus\"/>");
    if let Some(w) = wf {
        s.push_str(&format!("<feat att=\"writtenForm\" val=\"{}\"/>", w));
    }
    s.push_str("</FormRepresentation></Lemma>");
    s
}

fn document(entries: &[String]) -> Vec<u8> {
    let mut s = String::from("<?xml version=\"1.0\" encoding=\"UTF-8\"?>\n<LexicalResource><Lexicon>");
    s.push_str("<feat att=\"language\" val=\"swe\"/>");
    for e in entries {
        s.push_str(e);
        s.push('\n');
    }
    s.push_str("</Lexicon></LexicalResource>");
    s.into_bytes()
}

fn ids(v: &[SaldoId]) -> Vec<String> {
    v.iter().map(|i| i.as_str().to_string()).collect()
}

fn gzip(bytes: &[u8]) -> Vec<u8> {
    let mut enc = flate2::write::GzEncoder::new(Vec::new(), flate2::Compression::default());
    enc.write_all(bytes).unwrap();
    enc.finish().unwrap()
}

fn three_entry_document() -> Vec<u8> {
    document(&[
        entry("A", Some(PRIM), &[], ""),
        entry("B", Some("A"), &[PRIM], ""),
        entry(PRIM, None, &[], ""),
    ])
}

#[test]
fn root_and_two_entries_link_both_ways() {
    let lex = SaldoLexicon::new(&three_entry_document(), false).unwrap();
    let a = lex.get("A").unwrap();
    let b = lex.get("B").unwrap();
    let root = lex.get(PRIM).unwrap();
    assert_eq!(ids(a.inv_mf()), vec!["B"]);
    assert!(b.pf().is_empty());
    assert_eq!(ids(root.inv_mf()), vec!["A"]);
    assert_eq!(a.mf().unwrap().as_str(), PRIM);
    assert_eq!(b.mf().unwrap().as_str(), "A");
    assert!(root.mf().is_none());
    assert!(root.inv_pf().is_empty());
}

#[test]
fn unknown_primary_target_is_unresolved() {
    let doc = document(&[entry(PRIM, None, &[], ""), entry("C", Some("Z"), &[], "")]);
    match SaldoLexicon::new(&doc, false) {
        Err(SaldoLexiconError::NoSuchMfid(t)) => assert_eq!(t, "Z"),
        other => panic!("unexpected {:?}", other),
    }
}

#[test]
fn unknown_secondary_target_is_unresolved() {
    let doc = document(&[entry(PRIM, None, &[], ""), entry("C", Some(PRIM), &["Y"], "")]);
    match SaldoLexicon::new(&doc, false) {
        Err(SaldoLexiconError::NoSuchMfid(t)) => assert_eq!(t, "Y"),
        other => panic!("unexpected {:?}", other),
    }
}

#[test]
fn entry_without_primary_is_refused() {
    let doc = document(&[entry(PRIM, None, &[], ""), entry("D", None, &[], "")]);
    match SaldoLexicon::new(&doc, false) {
        Err(SaldoLexiconError::NoMfidForEntry(id)) => assert_eq!(id.as_str(), "D"),
        other => panic!("unexpected {:?}", other),
    }
}

#[test]
fn shared_form_with_other_part_of_speech_is_refused() {
    let doc = document(&[
        entry(PRIM, None, &[], ""),
        entry("E", Some(PRIM), &[], &form("wf1", "NN", Some("hus"))),
        entry("F", Some(PRIM), &[], &form("wf1", "VB", Some("hus"))),
    ]);
    match SaldoLexicon::new(&doc, false) {
        Err(SaldoLexiconError::IncompatiblePartOfSpeech(id)) => assert_eq!(id.as_str(), "wf1"),
        other => panic!("unexpected {:?}", other),
    }
}

#[test]
fn shared_form_with_same_part_of_speech_gathers_owners() {
    let doc = document(&[
        entry(PRIM, None, &[], ""),
        entry("E", Some(PRIM), &[], &form("wf1", "NN", Some("hus"))),
        entry("F", Some(PRIM), &[], &form("wf1", "NN", None)),
    ]);
    let lex = SaldoLexicon::new(&doc, false).unwrap();
    let l = lex.get_lemgram("wf1").unwrap();
    assert_eq!(ids(l.entries()), vec!["E", "F"]);
    assert_eq!(l.pos(), "NN");
    assert_eq!(l.wf(), "hus");
    assert_eq!(l.para().unwrap(), "nn_6u_hus");
    assert_eq!(lex.lemgram_by_written_form("hus").unwrap().as_str(), "wf1");
    let e = lex.get("E").unwrap();
    let f = lex.get("F").unwrap();
    assert_eq!(e.lemgrams()[0].as_str(), "wf1");
    assert_eq!(f.lemgrams()[0].as_str(), "wf1");
}

#[test]
fn compressed_and_plain_documents_load_alike() {
    let plain = three_entry_document();
    let packed = gzip(&plain);
    assert_ne!(packed, plain);
    let a = SaldoLexicon::new(&plain, false).unwrap();
    let b = SaldoLexicon::new(&packed, true).unwrap();
    for id in ["A", "B", PRIM] {
        let x = a.get(id).unwrap();
        let y = b.get(id).unwrap();
        assert_eq!(x.get_id(), y.get_id());
        assert_eq!(x.mf(), y.mf());
        assert_eq!(ids(x.pf()), ids(y.pf()));
        assert_eq!(ids(x.inv_pf()), ids(y.inv_pf()));
        assert_eq!(ids(x.inv_mf()), ids(y.inv_mf()));
    }
}

#[test]
fn broken_gzip_is_a_decompression_error() {
    let plain = three_entry_document();
    assert!(matches!(SaldoLexicon::new(&plain, true), Err(SaldoLexiconError::FailedToDecompress)));
}

#[test]
fn secondary_links_are_recorded_once_in_order() {
    let doc = document(&[
        entry(PRIM, None, &[], ""),
        entry("A", Some(PRIM), &[], ""),
        entry("B", Some(PRIM), &[], ""),
        entry("C", Some(PRIM), &["B", "A", "B", PRIM], ""),
    ]);
    let lex = SaldoLexicon::new(&doc, false).unwrap();
    assert_eq!(ids(lex.get("C").unwrap().pf()), vec!["B", "A"]);
    assert_eq!(ids(lex.get("A").unwrap().inv_pf()), vec!["C"]);
    assert_eq!(ids(lex.get("B").unwrap().inv_pf()), vec!["C"]);
}

#[test]
fn second_sense_id_is_a_duplicate_identity() {
    let doc = document(&[String::from(
        "<LexicalEntry><Sense id=\"A\"></Sense><Sense id=\"B\"></Sense></LexicalEntry>",
    )]);
    match SaldoLexicon::new(&doc, false) {
        Err(SaldoLexiconError::DuplicateIdentity(id)) => assert_eq!(id.as_str(), "A"),
        other => panic!("unexpected {:?}", other),
    }
}

#[test]
fn second_primary_is_refused() {
    let doc = document(&[entry(PRIM, None, &[], ""), entry("A", Some(PRIM), &[], "").replace(
        "</Sense>",
        "<SenseRelation targets=\"B\"><feat att=\"label\" val=\"primary\"/></SenseRelation></Sense>",
    )]);
    match SaldoLexicon::new(&doc, false) {
        Err(SaldoLexiconError::DuplicatePrimaryReference(id)) => assert_eq!(id.as_str(), "A"),
        other => panic!("unexpected {:?}", other),
    }
}

#[test]
fn record_without_sense_is_missing_its_id() {
    let doc = document(&[String::from("<LexicalEntry></LexicalEntry>")]);
    assert!(matches!(SaldoLexicon::new(&doc, false), Err(SaldoLexiconError::MissingEntryId)));
}

#[test]
fn form_fields_are_required() {
    let no_id = document(&[String::from(
        "<LexicalEntry><Sense id=\"A\"/><Lemma><FormRepresentation><feat att=\"partOfSpeech\" val=\"nn\"/></FormRepresentation></Lemma></LexicalEntry>",
    )]);
    assert!(matches!(SaldoLexicon::new(&no_id, false), Err(SaldoLexiconError::MissingLemgramId)));
    let no_pos = document(&[String::from(
        "<LexicalEntry><Sense id=\"A\"/><Lemma><FormRepresentation><feat att=\"lemgram\" val=\"x\"/></FormRepresentation></Lemma></LexicalEntry>",
    )]);
    match SaldoLexicon::new(&no_pos, false) {
        Err(SaldoLexiconError::MissingPartOfSpeech(id)) => assert_eq!(id.as_str(), "x"),
        other => panic!("unexpected {:?}", other),
    }
    let no_wf = document(&[entry(PRIM, None, &[], &form("y", "nn", None))]);
    match SaldoLexicon::new(&no_wf, false) {
        Err(SaldoLexiconError::MissingWrittenForm(id)) => assert_eq!(id.as_str(), "y"),
        other => panic!("unexpected {:?}", other),
    }
}

#[test]
fn malformed_markup_is_refused() {
    let doc = b"<LexicalResource><LexicalEntry></Lexicon>".to_vec();
    assert!(matches!(SaldoLexicon::new(&doc, false), Err(SaldoLexiconError::MalformedDocument)));
    let sense_outside = document(&[String::from("<Sense id=\"A\"/>")]);
    assert!(matches!(
        SaldoLexicon::new(&sense_outside, false),
        Err(SaldoLexiconError::MalformedDocument)
    ));
    let unknown_att = document(&[String::from("<LexicalEntry><feat att=\"colour\" val=\"x\"/></LexicalEntry>")]);
    assert!(matches!(SaldoLexicon::new(&unknown_att, false), Err(SaldoLexiconError::MalformedDocument)));
}

#[test]
fn repeated_attribute_keeps_its_last_value() {
    let doc = document(&[
        entry(PRIM, None, &[], ""),
        String::from(
            "<LexicalEntry><Sense id=\"first\" id=\"second\"><SenseRelation targets=\"PRIM..1\"><feat att=\"label\" val=\"primary\"/></SenseRelation></Sense></LexicalEntry>",
        ),
    ]);
    let lex = SaldoLexicon::new(&doc, false).unwrap();
    assert!(lex.get("second").is_some());
    assert!(lex.get("first").is_none());
}

#[test]
fn empty_document_gives_empty_lexicon() {
    let lex = SaldoLexicon::new(&document(&[]), false).unwrap();
    assert!(lex.get(PRIM).is_none());
}
