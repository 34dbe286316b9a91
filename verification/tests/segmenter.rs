use racetyper::segment::{segment, Segment, SegmentError};

fn texts(segs: &[Segment]) -> Vec<String> {
    segs.iter().map(|s| String::from_utf8(s.text.clone()).unwrap()).collect()
}

#[test]
fn nine_words_three_even_segments() {
    let text = b"the quick brown fox jumps over the lazy dog".to_vec();
    let segs = segment(&text, 3).unwrap();
    assert_eq!(texts(&segs), vec!["the quick brown", "fox jumps over", "the lazy dog"]);
    for s in &segs {
        assert_eq!(s.time, -1);
        assert_eq!(s.nomistakes, -1);
        assert_eq!(s.wpm, -1);
        assert_eq!(s.rel, 0);
    }
}

#[test]
fn remainder_words_become_extra_segment() {
    let text = b"a b c d e f g h i j".to_vec();
    let segs = segment(&text, 3).unwrap();
    assert_eq!(texts(&segs), vec!["a b c", "d e f", "g h i", "j"]);
}

#[test]
fn concatenation_reconstructs_text() {
    let cases: Vec<(&[u8], usize)> = vec![
        (b"the quick brown fox jumps over the lazy dog", 3),
        (b"a b c d e f g h i j", 3),
        (b"one two", 1),
        (b"lots  of   spaces in  here", 4),
        (b"solo", 1),
    ];
    for (t, n) in cases {
        let text = t.to_vec();
        let segs = segment(&text, n).unwrap();
        let joined = texts(&segs).join(" ");
        assert_eq!(joined.as_bytes(), t);
    }
}

#[test]
fn segmentation_is_deterministic() {
    let text = b"pack my box with five dozen liquor jugs".to_vec();
    let a = segment(&text, 4).unwrap();
    let b = segment(&text, 4).unwrap();
    assert_eq!(a.len(), b.len());
    for (x, y) in a.iter().zip(b.iter()) {
        assert_eq!(x.text, y.text);
        assert_eq!(x.time, y.time);
        assert_eq!(x.nomistakes, y.nomistakes);
        assert_eq!(x.wpm, y.wpm);
        assert_eq!(x.rel, y.rel);
    }
}

#[test]
fn too_few_words_is_an_error() {
    let text = b"only two".to_vec();
    assert!(matches!(segment(&text, 3), Err(SegmentError::InsufficientWords)));
}

#[test]
fn zero_segments_is_an_error() {
    let text = b"some words here".to_vec();
    assert!(matches!(segment(&text, 0), Err(SegmentError::InsufficientWords)));
}

#[test]
fn empty_text_is_one_empty_word() {
    let text = Vec::new();
    let segs = segment(&text, 1).unwrap();
    assert_eq!(segs.len(), 1);
    assert!(segs[0].text.is_empty());
}

#[test]
fn trailing_space_keeps_an_empty_word() {
    // "a b " splits into three words, the last empty; joining restores it
    let text = b"a b ".to_vec();
    let segs = segment(&text, 3).unwrap();
    assert_eq!(segs.len(), 3);
    assert_eq!(segs[2].text, b"".to_vec());
    let joined = texts(&segs).join(" ");
    assert_eq!(joined.as_bytes(), b"a b ");
}

#[test]
fn divider_rounds_half_away_from_zero() {
    // ten words over four segments: divider = round(2.5) = 3
    let text = b"a b c d e f g h i j".to_vec();
    let segs = segment(&text, 4).unwrap();
    assert_eq!(texts(&segs), vec!["a b c", "d e f", "g h i", "j"]);
}
