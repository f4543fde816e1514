use csv_influx::error::ImportError;
use csv_influx::escape::{escape_field_value, escape_identifier};
use csv_influx::import::{plan_import, Delivery, ImportRun, Step};
use csv_influx::line::{find_tag_index, LineEncoder};
use csv_influx::table::Table;

fn strings(items: &[&str]) -> Vec<String> {
    items.iter().map(|s| s.to_string()).collect()
}

#[test]
fn identifier_escapes_space_comma_equals() {
    assert_eq!(escape_identifier("a b,c=d"), "a\\ b\\,c\\=d");
    assert_eq!(escape_identifier("plain"), "plain");
    assert_eq!(escape_identifier(""), "");
}

#[test]
fn identifier_leaves_backslashes_alone() {
    assert_eq!(escape_identifier("a\\b"), "a\\b");
    assert_eq!(escape_identifier("x\\ y"), "x\\\\ y");
}

#[test]
fn identifier_escape_twice_adds_backslashes() {
    let once = escape_identifier("a b");
    assert_eq!(escape_identifier(&once), "a\\\\ b");
    let plain = escape_identifier("ab");
    assert_eq!(escape_identifier(&plain), plain);
}

#[test]
fn identifier_does_not_escape_quotes() {
    assert_eq!(escape_identifier("say \"hi\""), "say\\ \"hi\"");
}

#[test]
fn field_value_escapes_only_quotes() {
    assert_eq!(escape_field_value("72\"F"), "72\\\"F");
    assert_eq!(escape_field_value("a b,c=d"), "a b,c=d");
    assert_eq!(escape_field_value("\"\""), "\\\"\\\"");
    assert_eq!(escape_field_value(""), "");
}

#[test]
fn tag_index_is_first_match() {
    let header = strings(&["a", "city", "city"]);
    assert_eq!(find_tag_index(&header, "city"), Some(1));
    assert_eq!(find_tag_index(&header, "temp"), None);
}

#[test]
fn row_with_space_in_tag_value() {
    let enc = LineEncoder::new(strings(&["city", "temp"]), "city", "weather").unwrap();
    let line = enc.encode(&strings(&["New York", "72"]));
    assert_eq!(line, Some("weather,city=New\\ York temp=\"72\"".to_string()));
}

#[test]
fn row_with_quote_in_field_value() {
    let enc = LineEncoder::new(strings(&["city", "temp"]), "city", "weather").unwrap();
    let line = enc.encode(&strings(&["NY", "72\"F"]));
    assert_eq!(line, Some("weather,city=NY temp=\"72\\\"F\"".to_string()));
}

#[test]
fn tag_only_row_is_skipped() {
    let enc = LineEncoder::new(strings(&["id"]), "id", "m").unwrap();
    assert_eq!(enc.encode(&strings(&["7"])), None);
    let lines = plan_import(strings(&["id"]), vec![strings(&["1"]), strings(&["2"])], "id", "m").unwrap();
    assert!(lines.is_empty());
}

#[test]
fn tag_in_middle_keeps_field_order() {
    let enc = LineEncoder::new(strings(&["a b", "host", "c"]), "host", "cpu load").unwrap();
    assert_eq!(enc.tag_index(), 1);
    let line = enc.encode(&strings(&["1", "h=1", "x,y"]));
    assert_eq!(line, Some("cpu\\ load,host=h\\=1 a\\ b=\"1\",c=\"x,y\"".to_string()));
}

#[test]
fn tag_key_is_escaped() {
    let enc = LineEncoder::new(strings(&["my tag", "v"]), "my tag", "m").unwrap();
    assert_eq!(enc.encode(&strings(&["t", "1"])), Some("m,my\\ tag=t v=\"1\"".to_string()));
}

#[test]
fn missing_tag_column_is_rejected() {
    let r = LineEncoder::new(strings(&["city", "temp"]), "town", "weather");
    assert!(matches!(r, Err(ImportError::TagColumnNotFound)));
    let plan = plan_import(strings(&["city", "temp"]), vec![strings(&["NY", "1"])], "town", "weather");
    assert_eq!(plan, Err(ImportError::TagColumnNotFound));
}

#[test]
fn short_row_is_malformed() {
    let t = Table::new(strings(&["city", "temp"]), vec![strings(&["NY", "1"]), strings(&["LA"])]);
    assert!(matches!(t, Err(ImportError::MalformedInput)));
    let plan = plan_import(strings(&["city", "temp"]), vec![strings(&["NY", "1"]), strings(&["LA"])], "city", "w");
    assert_eq!(plan, Err(ImportError::MalformedInput));
}

#[test]
fn malformed_input_wins_over_missing_tag() {
    let plan = plan_import(strings(&["a", "b"]), vec![strings(&["1", "2", "3"])], "zzz", "w");
    assert_eq!(plan, Err(ImportError::MalformedInput));
}

#[test]
fn empty_header_is_malformed() {
    let t = Table::new(Vec::new(), Vec::new());
    assert!(matches!(t, Err(ImportError::MalformedInput)));
}

#[test]
fn well_formed_table_keeps_rows() {
    let t = Table::new(strings(&["a", "b"]), vec![strings(&["1", "2"]), strings(&[" x ", ""])]).unwrap();
    assert_eq!(t.row_count(), 2);
    assert_eq!(t.header(), &strings(&["a", "b"]));
    assert_eq!(t.rows()[1], strings(&[" x ", ""]));
}

#[test]
fn plan_lists_records_in_row_order() {
    let header = strings(&["city", "temp"]);
    let rows = vec![strings(&["New York", "72"]), strings(&["NY", "72\"F"]), strings(&["Ban Gkok", "21"])];
    let lines = plan_import(header, rows, "city", "weather").unwrap();
    assert_eq!(
        lines,
        vec![
            "weather,city=New\\ York temp=\"72\"".to_string(),
            "weather,city=NY temp=\"72\\\"F\"".to_string(),
            "weather,city=Ban\\ Gkok temp=\"21\"".to_string(),
        ]
    );
}

#[test]
fn two_runs_give_identical_lines() {
    let header = strings(&["k", "v", "w"]);
    let rows = vec![strings(&["a", "1", "x y"]), strings(&["b=c", "2", "\""])];
    let first = plan_import(header.clone(), rows.clone(), "k", "m");
    let second = plan_import(header, rows, "k", "m");
    assert_eq!(first, second);
    assert_eq!(first.unwrap().len(), 2);
}

#[test]
fn run_continues_after_rejection() {
    let mut run = ImportRun::new(3);
    assert_eq!(run.step(), Step::Send(0));
    run.record(Delivery::Accepted);
    assert_eq!(run.step(), Step::Send(1));
    run.record(Delivery::Rejected);
    assert_eq!(run.step(), Step::Send(2));
    run.record(Delivery::Accepted);
    assert_eq!(run.step(), Step::Finished);
    assert_eq!(run.rejected, 1);
}

#[test]
fn run_stops_when_unreachable() {
    let mut run = ImportRun::new(2);
    run.record(Delivery::Unreachable);
    assert_eq!(run.step(), Step::Aborted);
    assert_eq!(run.next, 0);
}

#[test]
fn empty_run_is_finished() {
    assert_eq!(ImportRun::new(0).step(), Step::Finished);
}
