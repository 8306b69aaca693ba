use epher::aggregate::{aggregate_events, is_path_prefix, ScanEvent};

fn ev(path: &str, depth: usize, size: Option<u64>) -> ScanEvent {
    ScanEvent { path: String::from(path), depth, size: size }
}

#[test]
fn path_prefix_is_component_wise() {
    assert!(is_path_prefix("/r/a", "/r/a/x"));
    assert!(is_path_prefix("/r/a", "/r/a"));
    assert!(!is_path_prefix("/r/a", "/r/ab"));
    assert!(!is_path_prefix("/r/a/x", "/r/a"));
}

#[test]
fn additivity_attributes_whole_subtree() {
    let events = vec![
        ev("/r", 0, Some(0)),
        ev("/r/a", 1, Some(100)),
        ev("/r/a/x", 2, Some(40)),
        ev("/r/a/x/y", 3, Some(10)),
        ev("/r/b", 1, Some(5)),
    ];
    let (agg, diags) = aggregate_events(&events);
    assert_eq!(agg.entries.len(), 2);
    assert_eq!(agg.entries[0].path, "/r/a");
    assert_eq!(agg.entries[0].size, 150);
    assert_eq!(agg.entries[1].path, "/r/b");
    assert_eq!(agg.entries[1].size, 5);
    assert!(diags.is_empty());
}

#[test]
fn totality_total_is_sum_of_aggregates() {
    let events = vec![
        ev("/r", 0, Some(0)),
        ev("/r/a", 1, Some(100)),
        ev("/r/a/x", 2, Some(50)),
        ev("/r/b", 1, Some(5)),
    ];
    let (agg, _) = aggregate_events(&events);
    let mut sum: u64 = 0;
    for e in &agg.entries {
        sum += e.size;
    }
    assert_eq!(agg.total(), sum);
    assert_eq!(agg.total(), 155);
}

#[test]
fn unreadable_object_does_not_abort_the_scan() {
    let events = vec![
        ev("/r", 0, Some(0)),
        ev("/r/a", 1, Some(10)),
        ev("/r/a/denied", 2, None),
        ev("/r/b", 1, Some(20)),
    ];
    let (agg, diags) = aggregate_events(&events);
    assert_eq!(agg.entries.len(), 2);
    assert_eq!(agg.entries[0].size, 10);
    assert_eq!(agg.entries[1].size, 20);
    assert_eq!(diags, vec![String::from("/r/a/denied")]);
}

#[test]
fn sibling_names_do_not_capture_each_other() {
    let events = vec![
        ev("/r", 0, Some(0)),
        ev("/r/a", 1, Some(1)),
        ev("/r/ab", 1, Some(2)),
        ev("/r/ab/x", 2, Some(4)),
    ];
    let (agg, _) = aggregate_events(&events);
    assert_eq!(agg.entries[0].path, "/r/a");
    assert_eq!(agg.entries[0].size, 1);
    assert_eq!(agg.entries[1].path, "/r/ab");
    assert_eq!(agg.entries[1].size, 6);
}
