use saldo::word2vec::parse_w2v;

fn record(out: &mut Vec<u8>, word: &str, values: &[f32]) {
    out.push(b'\n');
    out.extend_from_slice(word.as_bytes());
    out.push(b' ');
    for v in values {
        out.extend_from_slice(&v.to_le_bytes());
    }
}

#[test]
fn words_and_vectors_are_read() {
    let mut bytes = b"2 2".to_vec();
    record(&mut bytes, "hus", &[1.0, -2.5]);
    record(&mut bytes, "bil", &[0.5, 3.0]);
    let entries = parse_w2v(&bytes).unwrap();
    assert_eq!(entries.len(), 2);
    assert_eq!(entries[0].word, "hus");
    assert_eq!(entries[0].bits, vec![1.0f32.to_bits(), (-2.5f32).to_bits()]);
    assert_eq!(entries[1].word, "bil");
    assert_eq!(f32::from_bits(entries[1].bits[1]), 3.0);
}

#[test]
fn repeated_word_keeps_its_first_vector() {
    let mut bytes = b"3 1".to_vec();
    record(&mut bytes, "a", &[1.0]);
    record(&mut bytes, "b", &[2.0]);
    record(&mut bytes, "a", &[9.0]);
    let entries = parse_w2v(&bytes).unwrap();
    assert_eq!(entries.len(), 2);
    assert_eq!(f32::from_bits(entries[0].bits[0]), 1.0);
}

#[test]
fn short_or_broken_files_are_refused() {
    let mut bytes = b"2 2".to_vec();
    record(&mut bytes, "hus", &[1.0, -2.5]);
    assert!(parse_w2v(&bytes).is_none());
    assert!(parse_w2v(b"x 2").is_none());
    assert!(parse_w2v(b"1").is_none());
    let mut bad = b"1 1\n".to_vec();
    bad.extend_from_slice(&[0xff, b' ']);
    bad.extend_from_slice(&1.0f32.to_le_bytes());
    assert!(parse_w2v(&bad).is_none());
    assert_eq!(parse_w2v(b"0 5").unwrap().len(), 0);
}
