use weighted_shuffle::{ShuffleError, SourceItem, Track, WeightTable};

fn table(text: &str) -> WeightTable {
    let src = vec![
        SourceItem::Track(Track::new("A".to_string(), "a".to_string())),
        SourceItem::Track(Track::new("B".to_string(), "b".to_string())),
        SourceItem::Track(Track::new("C".to_string(), "c".to_string())),
    ];
    WeightTable::build(&src, text).unwrap()
}

#[test]
fn sample_empty_table_fails() {
    let t = WeightTable::build(&vec![], "").unwrap();
    assert_eq!(t.sample().err(), Some(ShuffleError::EmptyTable));
}

#[test]
fn sample_all_zero_table_fails() {
    let t = table("a = 0\nb = 0\nc = 0");
    assert_eq!(t.sample().err(), Some(ShuffleError::EmptyTable));
    assert_eq!(t.len(), 3);
}

#[test]
fn sample_never_picks_zero_weight() {
    let t = table("a = 0\nc = 0");
    for _ in 0..200 {
        let s = t.sample().unwrap();
        assert_eq!(s.id, "B");
        assert_eq!(s.name, "b");
    }
}

#[test]
fn sample_leaves_table_unchanged() {
    let t = table("a = 5");
    let _ = t.sample().unwrap();
    assert_eq!(t.weight_of("A"), Some(5));
    assert_eq!(t.total(), Some(7));
}

#[test]
fn sample_frequencies_follow_weights() {
    let t = table("a = 6\nb = 3\nc = 1");
    let n = 20000;
    let mut counts = [0usize; 3];
    for _ in 0..n {
        let s = t.sample().unwrap();
        match s.id.as_str() {
            "A" => counts[0] += 1,
            "B" => counts[1] += 1,
            "C" => counts[2] += 1,
            _ => panic!("unknown track"),
        }
    }
    let expected = [0.6f64, 0.3, 0.1];
    for i in 0..3 {
        let freq = counts[i] as f64 / n as f64;
        assert!((freq - expected[i]).abs() < 0.03, "track {} drawn with frequency {}", i, freq);
    }
}

#[test]
fn total_weight_sums_entries() {
    assert_eq!(table("a = 4294967295\nb = 4294967295").total(), Some(8589934591));
    assert_eq!(table("").total(), Some(3));
}
