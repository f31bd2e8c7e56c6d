use weighted_shuffle::{
    assign_weights, parse_override_line, parse_overrides, parse_weight_field, split_lines,
    ShuffleError, SourceItem, Track, WeightOverride, WeightTable,
};

fn item(id: &str, name: &str) -> SourceItem {
    SourceItem::Track(Track::new(id.to_string(), name.to_string()))
}

fn source() -> Vec<SourceItem> {
    vec![item("id-a", "Song A"), item("id-b", "Song B"), item("id-c", "Song C")]
}

#[test]
fn build_without_overrides_gives_every_track_weight_one() {
    let t = WeightTable::build(&source(), "").unwrap();
    assert_eq!(t.len(), 3);
    for e in t.entries() {
        assert_eq!(e.weight, 1);
    }
}

#[test]
fn build_matches_override_names_case_insensitively() {
    let src = vec![item("id-a", "song a"), item("id-b", "Other")];
    let t = WeightTable::build(&src, "Song A = 3").unwrap();
    assert_eq!(t.weight_of("id-a"), Some(3));
    assert_eq!(t.weight_of("id-b"), Some(1));
}

#[test]
fn build_matches_whole_names_only() {
    let src = vec![item("id-a", "Song A (Live)")];
    let t = WeightTable::build(&src, "song a = 4").unwrap();
    assert_eq!(t.weight_of("id-a"), Some(1));
}

#[test]
fn build_last_override_wins() {
    let t = WeightTable::build(&source(), "song b = 2\r\nSONG B = 7\r\n").unwrap();
    assert_eq!(t.weight_of("id-b"), Some(7));
    assert_eq!(t.weight_of("id-a"), Some(1));
}

#[test]
fn build_override_for_unknown_name_changes_nothing() {
    let t = WeightTable::build(&source(), "Nope = 9").unwrap();
    assert_eq!(t.weight_of("id-a"), Some(1));
    assert_eq!(t.weight_of("id-b"), Some(1));
    assert_eq!(t.weight_of("id-c"), Some(1));
}

#[test]
fn build_rejects_non_track_items() {
    let src = vec![item("id-a", "Song A"), SourceItem::Other, item("id-c", "Song C")];
    assert_eq!(WeightTable::build(&src, "").err(), Some(ShuffleError::Source { index: 1 }));
}

#[test]
fn build_source_error_comes_before_parse_error() {
    let src = vec![SourceItem::Other];
    assert_eq!(WeightTable::build(&src, "bad").err(), Some(ShuffleError::Source { index: 0 }));
}

#[test]
fn build_fails_on_line_without_separator() {
    let r = WeightTable::build(&source(), "Song A = 2\nSong B 3\nSong C = 4");
    assert_eq!(r.err(), Some(ShuffleError::Parse { line: 1 }));
}

#[test]
fn build_fails_on_non_integer_weight() {
    let r = WeightTable::build(&source(), "Song A = two");
    assert_eq!(r.err(), Some(ShuffleError::Parse { line: 0 }));
}

#[test]
fn build_fails_on_negative_weight() {
    let r = WeightTable::build(&source(), "Song A = 1\nSong B = -1");
    assert_eq!(r.err(), Some(ShuffleError::Parse { line: 1 }));
}

#[test]
fn build_keeps_each_identity_once() {
    let src = vec![item("id-a", "First"), item("id-b", "B"), item("id-a", "Second")];
    let t = WeightTable::build(&src, "second = 5").unwrap();
    assert_eq!(t.len(), 2);
    assert_eq!(t.entries()[0].track.name, "First");
    assert_eq!(t.weight_of("id-a"), Some(1));
}

#[test]
fn build_keeps_source_order() {
    let t = WeightTable::build(&source(), "").unwrap();
    let ids: Vec<&str> = t.entries().iter().map(|e| e.track.id.as_str()).collect();
    assert_eq!(ids, vec!["id-a", "id-b", "id-c"]);
}

#[test]
fn weight_field_values() {
    assert_eq!(parse_weight_field("0"), Some(0));
    assert_eq!(parse_weight_field("42"), Some(42));
    assert_eq!(parse_weight_field("+7"), Some(7));
    assert_eq!(parse_weight_field("007"), Some(7));
    assert_eq!(parse_weight_field("4294967295"), Some(4294967295));
    assert_eq!(parse_weight_field("4294967296"), None);
    assert_eq!(parse_weight_field(""), None);
    assert_eq!(parse_weight_field("+"), None);
    assert_eq!(parse_weight_field("-1"), None);
    assert_eq!(parse_weight_field("1 "), None);
    assert_eq!(parse_weight_field("1a"), None);
}

#[test]
fn override_line_splits_at_first_separator() {
    let o = parse_override_line("Rock = Roll = 3");
    assert!(o.is_none());
    let o = parse_override_line("A = B = 3".split_once(" = ").unwrap().1).unwrap();
    assert_eq!(o.name, "B");
    assert_eq!(o.weight, 3);
    let o = parse_override_line("Hey Jude = 12").unwrap();
    assert_eq!(o.name, "Hey Jude");
    assert_eq!(o.weight, 12);
}

#[test]
fn override_line_needs_spaces_around_equals() {
    assert!(parse_override_line("Song=3").is_none());
    assert!(parse_override_line("").is_none());
}

#[test]
fn split_lines_handles_both_terminators() {
    assert_eq!(split_lines("a\r\nb\nc"), vec!["a", "b", "c"]);
    assert_eq!(split_lines("a\r\n"), vec!["a"]);
    assert_eq!(split_lines(""), Vec::<String>::new());
    assert_eq!(split_lines("\n"), vec![""]);
    assert_eq!(split_lines("a\n\nb"), vec!["a", "", "b"]);
}

#[test]
fn parse_overrides_reads_all_lines() {
    let v = parse_overrides("One = 1\r\nTwo = 2\r\n").unwrap();
    assert_eq!(v.len(), 2);
    assert_eq!(v[0].name, "One");
    assert_eq!(v[1].weight, 2);
}

#[test]
fn parse_overrides_fails_on_blank_line_inside() {
    assert_eq!(parse_overrides("One = 1\n\nTwo = 2").err(), Some(ShuffleError::Parse { line: 1 }));
}

#[test]
fn assign_weights_uses_last_matching_override() {
    let keys = vec!["a".to_string(), "b".to_string(), "c".to_string()];
    let ovs = vec![
        WeightOverride { name: "b".to_string(), weight: 4 },
        WeightOverride { name: "a".to_string(), weight: 0 },
        WeightOverride { name: "b".to_string(), weight: 9 },
    ];
    assert_eq!(assign_weights(&keys, &ovs), vec![0, 9, 1]);
}

#[test]
fn assign_weights_without_overrides() {
    let keys = vec!["x".to_string(), "y".to_string()];
    assert_eq!(assign_weights(&keys, &vec![]), vec![1, 1]);
}

#[test]
fn track_equality_is_by_identity() {
    let a = Track::new("id".to_string(), "One".to_string());
    let b = Track::new("id".to_string(), "Two".to_string());
    let c = Track::new("other".to_string(), "One".to_string());
    assert!(a == b);
    assert!(a != c);
}
