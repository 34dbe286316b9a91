use racetyper::analyze::analyze_speed;
use racetyper::events::InputChange;
use racetyper::metrics::calculate_wpm;

fn ins(payload: &str, ts: i64) -> InputChange {
    InputChange {
        data: Some(payload.as_bytes().to_vec()),
        change: b"insertText".to_vec(),
        ts,
    }
}

fn del(ts: i64) -> InputChange {
    InputChange { data: None, change: b"deleteContentBackward".to_vec(), ts }
}

fn type_str(log: &mut Vec<InputChange>, s: &str, start_ts: i64, step: i64) -> i64 {
    let mut ts = start_ts;
    for ch in s.chars() {
        ts += step;
        log.push(ins(&ch.to_string(), ts));
    }
    ts
}

#[test]
fn wpm_formula_hundred_chars_one_minute() {
    assert_eq!(calculate_wpm(100, 60000), 20);
}

#[test]
fn wpm_rounds_half_up() {
    // 1 char in 24 s: 12000/24000 = 0.5 words per minute, rounds to 1
    assert_eq!(calculate_wpm(1, 24000), 1);
    // just under one half rounds down
    assert_eq!(calculate_wpm(1, 24001), 0);
}

#[test]
fn perfect_typing_measures_every_segment() {
    let text = b"ab cd".to_vec();
    let mut log = Vec::new();
    log.push(ins("a", 1000));
    log.push(ins("b", 2000));
    log.push(ins(" ", 3000));
    log.push(ins("c", 4000));
    log.push(ins("d", 5000));
    log.push(ins("\0", 6000));
    let segs = analyze_speed(&log, &text, 2, 75, 100).unwrap();
    assert_eq!(segs.len(), 2);
    assert_eq!(segs[0].text, b"ab".to_vec());
    assert_eq!(segs[0].time, 3000);
    assert_eq!(segs[0].nomistakes, 1);
    assert_eq!(segs[0].wpm, 8); // round(2 * 12000 / 3000)
    assert_eq!(segs[0].rel, 6); // round(75 * 8 / 100)
    assert_eq!(segs[1].time, 3000);
    assert_eq!(segs[1].nomistakes, 1);
    assert_eq!(segs[1].wpm, 8);
    assert_eq!(segs[1].rel, 6);
}

#[test]
fn perfect_typing_long_text_inter_space_deltas() {
    let text = b"the quick brown fox jumps over the lazy dog".to_vec();
    let mut log = Vec::new();
    let s = "the quick brown fox jumps over the lazy dog";
    let last = type_str(&mut log, s, 0, 100);
    assert_eq!(last, 4300);
    log.push(ins("\0", last));
    let segs = analyze_speed(&log, &text, 3, 75, 100).unwrap();
    assert_eq!(segs.len(), 3);
    // boundaries: the space events at offsets 15 and 30, then the sentinel
    assert_eq!(segs[0].time, 1600);
    assert_eq!(segs[1].time, 3100 - 1600);
    assert_eq!(segs[2].time, 4300 - 3100);
    for s in &segs {
        assert_eq!(s.nomistakes, 1);
    }
    assert_eq!(segs[0].wpm, 113); // round(15 * 12000 / 1600) = round(112.5)
    assert_eq!(segs[0].rel, 85); // round(75 * 113 / 100) = round(84.75)
    assert_eq!(segs[1].wpm, 112);
    assert_eq!(segs[1].rel, 84);
    assert_eq!(segs[2].wpm, 120);
    assert_eq!(segs[2].rel, 90);
}

#[test]
fn delete_on_empty_accumulator_is_harmless() {
    let text = b"a".to_vec();
    let mut log = Vec::new();
    log.push(del(5));
    log.push(ins("a", 10));
    log.push(ins(" ", 20));
    let segs = analyze_speed(&log, &text, 1, 75, 100).unwrap();
    assert_eq!(segs.len(), 1);
    // the delete and the space both count as keystrokes beyond the text
    assert_eq!(segs[0].nomistakes, 2);
    assert_eq!(segs[0].time, 20);
}

#[test]
fn sticky_resync_tolerates_typos() {
    let text = b"ab".to_vec();
    let mut log = Vec::new();
    // typo, a mistaken boundary, corrections, then the right word
    log.push(ins("a", 10));
    log.push(ins("x", 20));
    log.push(ins(" ", 30)); // no match: accumulator becomes "ax "
    log.push(del(40));
    log.push(del(50));
    log.push(del(60)); // accumulator back to "a"
    log.push(del(70)); // accumulator empty
    log.push(ins("a", 80));
    log.push(ins("b", 90));
    log.push(ins(" ", 100)); // matches "ab": close
    let segs = analyze_speed(&log, &text, 1, 75, 100).unwrap();
    assert_eq!(segs.len(), 1);
    assert_eq!(segs[0].time, 100);
    // keystrokes: 3 typed + 4 deletes + 2 retyped + closing space = 10; minus 2 correct
    assert_eq!(segs[0].nomistakes, 8);
}

#[test]
fn malformed_insert_is_skipped() {
    let text = b"a".to_vec();
    let mut log = Vec::new();
    log.push(InputChange { data: None, change: b"insertText".to_vec(), ts: 5 });
    log.push(ins("a", 10));
    log.push(ins(" ", 20));
    let segs = analyze_speed(&log, &text, 1, 75, 100).unwrap();
    // the malformed insert contributed nothing, not even a keystroke
    assert_eq!(segs[0].nomistakes, 1);
    assert_eq!(segs[0].time, 20);
}

#[test]
fn malformed_delete_is_skipped() {
    let text = b"a".to_vec();
    let mut log = Vec::new();
    log.push(InputChange {
        data: Some(b"x".to_vec()),
        change: b"deleteContentBackward".to_vec(),
        ts: 5,
    });
    log.push(ins("a", 10));
    log.push(ins(" ", 20));
    let segs = analyze_speed(&log, &text, 1, 75, 100).unwrap();
    assert_eq!(segs[0].nomistakes, 1);
}

#[test]
fn unknown_kind_is_ignored() {
    let text = b"a".to_vec();
    let mut log = Vec::new();
    log.push(InputChange { data: Some(b"zz".to_vec()), change: b"insertFromPaste".to_vec(), ts: 5 });
    log.push(ins("a", 10));
    log.push(ins(" ", 20));
    let segs = analyze_speed(&log, &text, 1, 75, 100).unwrap();
    assert_eq!(segs[0].nomistakes, 1);
}

#[test]
fn exhausted_log_leaves_rest_unmeasured() {
    let text = b"ab cd".to_vec();
    let mut log = Vec::new();
    log.push(ins("a", 10));
    log.push(ins("b", 20));
    log.push(ins(" ", 30));
    // disconnect before the second segment is finished
    log.push(ins("c", 40));
    let segs = analyze_speed(&log, &text, 2, 75, 100).unwrap();
    assert_eq!(segs[0].time, 30);
    assert_eq!(segs[1].time, -1);
    assert_eq!(segs[1].nomistakes, -1);
    assert_eq!(segs[1].wpm, -1);
    assert_eq!(segs[1].rel, 0);
}

#[test]
fn analyze_rejects_short_text() {
    let log = Vec::new();
    let text = b"one two".to_vec();
    assert!(analyze_speed(&log, &text, 5, 75, 100).is_err());
}

#[test]
fn unmeasured_segment_gets_no_rate() {
    // an empty log measures nothing, so no wpm may be derived
    let log = Vec::new();
    let text = b"ab cd".to_vec();
    let segs = analyze_speed(&log, &text, 2, 75, 100).unwrap();
    for s in &segs {
        assert_eq!(s.time, -1);
        assert_eq!(s.wpm, -1);
        assert_eq!(s.rel, 0);
    }
}
