use rip2::record::{
    compact, record_line_text, seance_listing, split_lines, LastBury, Record, RecordError,
    RecordItem, RECORD_HEADER, SEANCE_HEADER,
};

const HEADER: &str = "Time\tOriginal\tDestination\n";

fn line(time: &str, orig: &str, dest: &str) -> String {
    format!("{}\t{}\t{}\n", time, orig, dest)
}

#[test]
fn record_path_is_inside_graveyard() {
    let record = Record::new("/tmp/g");
    assert_eq!(record.path(), "/tmp/g/.record");
    let record = Record::new("/tmp/g/");
    assert_eq!(record.path(), "/tmp/g/.record");
}

#[test]
fn initial_content_is_header_line() {
    assert_eq!(Record::initial_content(), HEADER);
    assert_eq!(format!("{}\n", RECORD_HEADER), HEADER);
}

#[test]
fn record_item_parses_three_columns() {
    let item = RecordItem::new("2024-01-01T00:00:00+00:00\t/a/b\t/g/a/b").unwrap();
    assert_eq!(item.time, "2024-01-01T00:00:00+00:00");
    assert_eq!(item.orig, "/a/b");
    assert_eq!(item.dest, "/g/a/b");
    let extra = RecordItem::new("t\to\td\tmore").unwrap();
    assert_eq!(extra.dest, "d");
}

#[test]
fn record_item_rejects_short_line() {
    match RecordItem::new("t\tonly two") {
        Err(RecordError::BadFormat { line }) => assert_eq!(line, "t\tonly two"),
        other => panic!("unexpected {:?}", other),
    }
    assert!(RecordItem::new("").is_err());
}

#[test]
fn split_lines_drops_final_empty_piece() {
    assert_eq!(split_lines("a\nb\n"), vec!["a".to_string(), "b".to_string()]);
    assert_eq!(split_lines("a\n\nb"), vec!["a".to_string(), "".to_string(), "b".to_string()]);
    assert!(split_lines("").is_empty());
}

#[test]
fn record_line_has_three_columns() {
    let l = record_line_text("T", "/x/a.txt", "/g/x/a.txt");
    assert_eq!(l, "T\t/x/a.txt\t/g/x/a.txt\n");
    let item = RecordItem::new(l.trim_end_matches('\n')).unwrap();
    assert_eq!(item.orig, "/x/a.txt");
    assert_eq!(item.dest, "/g/x/a.txt");
}

#[test]
fn write_log_stamps_time() {
    let record = Record::new("/tmp/g");
    let l = record.write_log("/tmp/x/a.txt", "/tmp/g/tmp/x/a.txt").unwrap();
    assert!(l.ends_with("\t/tmp/x/a.txt\t/tmp/g/tmp/x/a.txt\n"));
    let item = RecordItem::new(l.trim_end_matches('\n')).unwrap();
    assert!(item.time.len() >= 20);
    assert!(!item.time.contains('\t'));
    let listed = seance_listing(&vec![item]).unwrap();
    assert!(listed[0].ends_with("\t/tmp/g/tmp/x/a.txt"));
}

#[test]
fn compact_removes_named_graves_and_keeps_order() {
    let content = format!(
        "{}{}{}{}",
        HEADER,
        line("t1", "/a", "/g/a"),
        line("t2", "/b", "/g/b"),
        line("t3", "/c", "/g/c")
    );
    let out = compact(&content, &["/g/b".to_string()]).unwrap();
    assert_eq!(out, format!("{}{}{}", HEADER, line("t1", "/a", "/g/a"), line("t3", "/c", "/g/c")));
}

#[test]
fn compact_is_idempotent() {
    let content = format!(
        "{}{}{}",
        HEADER,
        line("t1", "/a", "/g/a"),
        line("t2", "/b", "/g/b")
    );
    let graves = vec!["/g/a".to_string(), "/g/zzz".to_string()];
    let once = compact(&content, &graves).unwrap();
    let twice = compact(&once, &graves).unwrap();
    assert_eq!(once, twice);
    assert_eq!(once, format!("{}{}", HEADER, line("t2", "/b", "/g/b")));
}

#[test]
fn compact_of_empty_text_writes_header() {
    assert_eq!(compact("", &[]).unwrap(), HEADER);
    assert_eq!(compact(HEADER, &[]).unwrap(), HEADER);
    assert!(compact("\n", &[]).is_err());
}

#[test]
fn record_without_header_keeps_first_entry() {
    let record = Record::new("/g");
    let content = format!("{}{}", line("t1", "/a", "/g/a"), line("t2", "/b", "/g/b"));
    let got = record.lines_of_graves(&content, &["/g/a".to_string()]).unwrap();
    assert_eq!(got, vec!["t1\t/a\t/g/a".to_string()]);
    let out = compact(&content, &["/g/b".to_string()]).unwrap();
    assert_eq!(out, format!("{}{}", HEADER, line("t1", "/a", "/g/a")));
    let found = record.get_last_bury(&content, &|p: &str| p == "/g/a").unwrap();
    assert_eq!(found.grave.as_deref(), Some("/g/a"));
    assert_eq!(found.rewrite.unwrap(), format!("{}{}", HEADER, line("t1", "/a", "/g/a")));
    let items = record.seance(&content, "/g").unwrap();
    assert_eq!(items.len(), 2);
}

#[test]
fn compact_rejects_malformed_line() {
    let content = format!("{}{}bad line\n", HEADER, line("t1", "/a", "/g/a"));
    match compact(&content, &[]) {
        Err(RecordError::BadFormat { line }) => assert_eq!(line, "bad line"),
        other => panic!("unexpected {:?}", other),
    }
}

#[test]
fn lines_of_graves_selects_in_record_order() {
    let record = Record::new("/g");
    let content = format!(
        "{}{}{}{}",
        HEADER,
        line("t1", "/a", "/g/a"),
        line("t2", "/b", "/g/b"),
        line("t3", "/c", "/g/c")
    );
    let got = record
        .lines_of_graves(&content, &["/g/c".to_string(), "/g/a".to_string()])
        .unwrap();
    assert_eq!(got, vec!["t1\t/a\t/g/a".to_string(), "t3\t/c\t/g/c".to_string()]);
}

#[test]
fn seance_lists_entries_under_path() {
    let record = Record::new("/g");
    let content = format!(
        "{}{}{}{}",
        HEADER,
        line("t1", "/home/u/a", "/g/home/u/a"),
        line("t2", "/home/uv/b", "/g/home/uv/b"),
        line("t3", "/home/u/d/c", "/g/home/u/d/c")
    );
    let items = record.seance(&content, "/g/home/u").unwrap();
    let dests: Vec<String> = items.iter().map(|i| i.dest.clone()).collect();
    assert_eq!(dests, vec!["/g/home/u/a".to_string(), "/g/home/u/d/c".to_string()]);
}

#[test]
fn seance_listing_shows_seconds() {
    let items = vec![RecordItem {
        time: "2024-03-05T07:08:09.123456+02:00".to_string(),
        orig: "/a".to_string(),
        dest: "/g/a".to_string(),
    }];
    let lines = seance_listing(&items).unwrap();
    assert_eq!(lines, vec!["2024-03-05T07:08:09\t/g/a".to_string()]);
    assert_eq!(SEANCE_HEADER, format!("{: <19}\tpath", "deletion_time"));
}

#[test]
fn seance_listing_rejects_bad_time() {
    let items = vec![RecordItem {
        time: "yesterday".to_string(),
        orig: "/a".to_string(),
        dest: "/g/a".to_string(),
    }];
    assert!(matches!(seance_listing(&items), Err(RecordError::BadTime { .. })));
}

#[test]
fn last_bury_returns_newest_existing() {
    let record = Record::new("/g");
    let content = format!("{}{}{}", HEADER, line("t1", "/a", "/g/a"), line("t2", "/b", "/g/b"));
    let found = record.get_last_bury(&content, &|_p: &str| true).unwrap();
    assert_eq!(found.grave.as_deref(), Some("/g/b"));
    assert!(found.rewrite.is_none());
}

#[test]
fn last_bury_skips_and_prunes_stale_records() {
    let record = Record::new("/g");
    let content = format!(
        "{}{}{}{}",
        HEADER,
        line("t1", "/a", "/g/a"),
        line("t2", "/b", "/g/b"),
        line("t3", "/c", "/g/c")
    );
    let LastBury { grave, rewrite } = record.get_last_bury(&content, &|p: &str| p == "/g/a").unwrap();
    assert_eq!(grave.as_deref(), Some("/g/a"));
    assert_eq!(rewrite.unwrap(), format!("{}{}", HEADER, line("t1", "/a", "/g/a")));
}

#[test]
fn last_bury_with_nothing_left() {
    let record = Record::new("/g");
    let content = format!("{}{}", HEADER, line("t1", "/a", "/g/a"));
    let found = record.get_last_bury(&content, &|_p: &str| false).unwrap();
    assert!(found.grave.is_none());
    assert_eq!(found.rewrite.unwrap(), HEADER);
    let empty = record.get_last_bury(HEADER, &|_p: &str| true).unwrap();
    assert!(empty.grave.is_none());
    assert!(empty.rewrite.is_none());
}

#[test]
fn last_bury_rejects_malformed_scanned_line() {
    let record = Record::new("/g");
    let content = format!("{}{}oops\n", HEADER, line("t1", "/a", "/g/a"));
    assert!(record.get_last_bury(&content, &|_p: &str| true).is_err());
}

#[test]
fn bury_then_unbury_record_scenario() {
    let record = Record::new("/tmp/g");
    let mut content = Record::initial_content();
    let logged = record.write_log("/tmp/x/a.txt", "/tmp/g/tmp/x/a.txt").unwrap();
    content.push_str(&logged);
    let lines = split_lines(&content);
    assert_eq!(lines.len(), 2);
    assert!(lines[1].ends_with("/tmp/g/tmp/x/a.txt"));
    let last = record.get_last_bury(&content, &|p: &str| p == "/tmp/g/tmp/x/a.txt").unwrap();
    let grave = last.grave.unwrap();
    let found = record.lines_of_graves(&content, &[grave.clone()]).unwrap();
    let item = RecordItem::new(&found[0]).unwrap();
    assert_eq!(item.orig, "/tmp/x/a.txt");
    let after = record.log_exhumed_graves(&content, &[grave]).unwrap();
    assert_eq!(after, HEADER);
}
