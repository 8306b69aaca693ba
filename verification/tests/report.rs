use epher::aggregate::{aggregate_events, AggregatedEntry, Aggregation, ScanEvent};
use epher::datasize::Datasize;
use epher::report::{format_path_detail, render_report, usage_string, EntryKind};

fn entry(path: &str, size: u64) -> AggregatedEntry {
    AggregatedEntry { path: String::from(path), size }
}

#[test]
fn sorting_is_ascending_by_size() {
    let agg = Aggregation {
        entries: vec![entry("/r/a", 600), entry("/r/b", 400), entry("/r/c", 500)],
    };
    let sorted = agg.sorted_entries();
    assert_eq!(sorted.len(), 3);
    for w in sorted.windows(2) {
        assert!(w[0].size <= w[1].size);
    }
    assert_eq!(sorted[0].path, "/r/b");
    assert_eq!(sorted[1].path, "/r/c");
    assert_eq!(sorted[2].path, "/r/a");
}

#[test]
fn quota_percentage_has_three_decimals() {
    assert_eq!(usage_string(250, &Some(Datasize::new(1000))), "25.000%");
    assert_eq!(usage_string(1, &Some(Datasize::new(3))), "33.333%");
    assert_eq!(usage_string(2, &Some(Datasize::new(3))), "66.667%");
    assert_eq!(usage_string(250, &None), "");
}

#[test]
fn line_layout_matches_the_report_format() {
    let line = format_path_detail(
        EntryKind::Dir,
        &String::from("/r/b"),
        Datasize::new(400),
        &None,
        Some(&String::from("/r")),
    );
    assert_eq!(line, format!("{:<5}{:<15} : {:>7}{:<3} {:>7}", "dir", "b", "400.00", "", ""));

    let line = format_path_detail(
        EntryKind::File,
        &String::from("/r/a"),
        Datasize::new(2560),
        &Some(Datasize::new(10240)),
        Some(&String::from("/r")),
    );
    assert_eq!(
        line,
        format!("{:<5}{:<15} : {:>7}{:<3} {:>7}", "file", "a", "2.50", "K", "25.000%")
    );
}

#[test]
fn total_line_uses_the_whole_root_path() {
    let line = format_path_detail(
        EntryKind::Dir,
        &String::from("/r"),
        Datasize::new(1000),
        &None,
        None,
    );
    assert_eq!(line, format!("{:<5}{:<15} : {:>7}{:<3} {:>7}", "dir", "/r", "1000.00", "", ""));
}

#[test]
fn largest_two_lines_are_emphasized() {
    let entries = vec![entry("/r/b", 400), entry("/r/c", 500), entry("/r/a", 600)];
    let kinds = vec![EntryKind::Dir, EntryKind::File, EntryKind::Dir];
    let origin = String::from("/r");
    let lines = render_report(&entries, &kinds, &None, &origin);
    assert_eq!(lines.len(), 3);
    let plain_b = format_path_detail(
        EntryKind::Dir,
        &String::from("/r/b"),
        Datasize::new(400),
        &None,
        Some(&origin),
    );
    let plain_c = format_path_detail(
        EntryKind::File,
        &String::from("/r/c"),
        Datasize::new(500),
        &None,
        Some(&origin),
    );
    let plain_a = format_path_detail(
        EntryKind::Dir,
        &String::from("/r/a"),
        Datasize::new(600),
        &None,
        Some(&origin),
    );
    // the smallest entry renders plainly, the two largest carry emphasis
    assert_eq!(lines[0], plain_b);
    assert_ne!(lines[1], plain_c);
    assert_ne!(lines[2], plain_a);
    assert!(lines[1].contains(&plain_c));
    assert!(lines[2].contains(&plain_a));
    assert_ne!(lines[1].replace(&plain_c, ""), lines[2].replace(&plain_a, ""));
}

#[test]
fn scan_report_scenario() {
    // scanning a root with child a (600 bytes) and child b (400 bytes)
    let events = vec![
        ScanEvent { path: String::from("/r"), depth: 0, size: Some(0) },
        ScanEvent { path: String::from("/r/a"), depth: 1, size: Some(600) },
        ScanEvent { path: String::from("/r/b"), depth: 1, size: Some(400) },
    ];
    let (agg, diags) = aggregate_events(&events);
    assert!(diags.is_empty());
    let total = agg.total();
    assert_eq!(total, 1000);
    let sorted = agg.sorted_entries();
    assert_eq!(sorted[0].path, "/r/b");
    assert_eq!(sorted[1].path, "/r/a");
    let kinds = vec![EntryKind::Dir, EntryKind::Dir];
    let origin = String::from("/r");
    let lines = render_report(&sorted, &kinds, &None, &origin);
    assert_eq!(lines.len(), 2);
    assert!(lines[0].contains("b"));
    assert!(lines[1].contains("a"));
    let total_line = format_path_detail(
        EntryKind::Dir,
        &origin,
        Datasize::new(total),
        &None,
        None,
    );
    assert!(total_line.contains("/r"));
    assert!(total_line.contains("1000.00"));
}
