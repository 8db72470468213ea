use geocode::query::Outcome;
use geocode::record::{AddrGeoData, GeoData};
use geocode::resolver::{Action, Diagnostic};
use geocode::run::{resolve_all_with, resolve_with};
use std::cell::RefCell;

fn sample(place_id: u64) -> GeoData {
    GeoData {
        place_id,
        licence: String::from("ODbL"),
        osm_type: Some(String::from("node")),
        osm_id: Some(place_id + 1000),
        lat: String::from("51.5"),
        lon: String::from("-0.12"),
        display_name: String::from("somewhere"),
        class: String::from("place"),
        kind: String::from("house"),
        importance_bits: 0.75f64.to_bits(),
    }
}

fn rows(log: &[Action]) -> Vec<AddrGeoData> {
    let mut found = Vec::new();
    for action in log {
        if let Action::Emit(row) = action {
            found.push(row.clone());
        }
    }
    found
}

fn queries(log: &[Action]) -> Vec<String> {
    let mut found = Vec::new();
    for action in log {
        if let Action::Query(address) = action {
            found.push(address.clone());
        }
    }
    found
}

fn retry_notices(log: &[Action]) -> usize {
    log.iter()
        .filter(|action| matches!(action, Action::Report(Diagnostic::Retrying(_))))
        .count()
}

#[test]
fn first_query_matches_twice() {
    let line = "123 Main St, Springfield";
    let log = resolve_with(line, &|_: &str| -> Outcome { Ok(vec![sample(1), sample(2)]) });
    let emitted = rows(&log);
    assert_eq!(emitted.len(), 2);
    assert_eq!(emitted[0].address, line);
    assert_eq!(emitted[1].address, line);
    assert_eq!(emitted[0].place_id, 1);
    assert_eq!(emitted[1].place_id, 2);
    assert_eq!(retry_notices(&log), 0);
    assert_eq!(queries(&log), vec![String::from(line)]);
    assert_eq!(
        log,
        vec![
            Action::Query(String::from(line)),
            Action::Emit(AddrGeoData::tag(&String::from(line), sample(1))),
            Action::Emit(AddrGeoData::tag(&String::from(line), sample(2))),
            Action::Pause,
        ]
    );
}

#[test]
fn match_after_one_dropped_token_is_tagged_with_the_original() {
    let line = "Xyzzy 123 Main St, Springfield";
    let provider = |address: &str| -> Outcome {
        if address == "Xyzzy 123 Main St, Springfield" {
            Ok(vec![])
        } else {
            Ok(vec![sample(5)])
        }
    };
    let log = resolve_with(line, &provider);
    assert_eq!(retry_notices(&log), 1);
    assert_eq!(rows(&log), vec![AddrGeoData::tag(&String::from(line), sample(5))]);
    assert_eq!(rows(&log)[0].address, "Xyzzy 123 Main St, Springfield");
    assert_eq!(
        log,
        vec![
            Action::Query(String::from(line)),
            Action::Report(Diagnostic::Retrying(String::from("123 Main St, Springfield"))),
            Action::Pause,
            Action::Query(String::from("123 Main St, Springfield")),
            Action::Emit(AddrGeoData::tag(&String::from(line), sample(5))),
            Action::Pause,
        ]
    );
}

#[test]
fn single_token_without_match_is_not_retried() {
    let log = resolve_with("Nowhere", &|_: &str| -> Outcome { Ok(vec![]) });
    assert_eq!(
        log,
        vec![
            Action::Query(String::from("Nowhere")),
            Action::Report(Diagnostic::NoResults(String::new())),
            Action::Pause,
        ]
    );
    assert!(rows(&log).is_empty());
}

#[test]
fn errors_all_the_way_down_truncate_to_one_token_and_stop() {
    let asked = RefCell::new(Vec::new());
    let provider = |address: &str| -> Outcome {
        asked.borrow_mut().push(String::from(address));
        Err(format!("Error in lat/lon query: no route to {}", address))
    };
    let log = resolve_with("123 Main St, Springfield", &provider);
    assert_eq!(
        *asked.borrow(),
        vec![
            String::from("123 Main St, Springfield"),
            String::from("Main St, Springfield"),
            String::from("St, Springfield"),
        ]
    );
    assert_eq!(queries(&log), *asked.borrow());
    assert_eq!(retry_notices(&log), 2);
    assert!(rows(&log).is_empty());
    let n = log.len();
    assert_eq!(
        log[n - 3..].to_vec(),
        vec![
            Action::Report(Diagnostic::QueryFailed(String::from(
                "Error in lat/lon query: no route to St, Springfield"
            ))),
            Action::Report(Diagnostic::GaveUp(String::from(
                "Error in lat/lon query: no route to St, Springfield"
            ))),
            Action::Pause,
        ]
    );
}

#[test]
fn an_empty_batch_does_nothing() {
    let log = resolve_all_with(&vec![], &|_: &str| -> Outcome { Ok(vec![sample(1)]) });
    assert!(log.is_empty());
}

#[test]
fn rows_of_a_line_come_before_rows_of_the_next() {
    let lines = vec![String::from("10 First St"), String::from("Xyzzy 20 Second St")];
    let provider = |address: &str| -> Outcome {
        match address {
            "10 First St" => Ok(vec![sample(1), sample(2)]),
            "20 Second St" => Ok(vec![sample(3)]),
            _ => Ok(vec![]),
        }
    };
    let log = resolve_all_with(&lines, &provider);
    let emitted = rows(&log);
    assert_eq!(
        emitted,
        vec![
            AddrGeoData::tag(&lines[0], sample(1)),
            AddrGeoData::tag(&lines[0], sample(2)),
            AddrGeoData::tag(&lines[1], sample(3)),
        ]
    );
    let last_of_first = log
        .iter()
        .rposition(|a| matches!(a, Action::Emit(row) if row.address == "10 First St"))
        .unwrap();
    let first_query_of_second = log
        .iter()
        .position(|a| matches!(a, Action::Query(q) if q == "Xyzzy 20 Second St"))
        .unwrap();
    assert!(last_of_first < first_query_of_second);
}

#[test]
fn a_batch_is_its_lines_resolved_one_after_the_other() {
    let lines = vec![String::from("a b"), String::from("c"), String::from("d e f")];
    let provider = |address: &str| -> Outcome {
        if address == "e f" {
            Ok(vec![sample(8)])
        } else {
            Err(format!("nothing for {}", address))
        }
    };
    let mut expected = Vec::new();
    for line in &lines {
        expected.extend(resolve_with(line, &provider));
    }
    assert_eq!(resolve_all_with(&lines, &provider), expected);
}

#[test]
fn a_failed_line_emits_nothing_and_the_next_line_is_still_resolved() {
    let lines = vec![String::from("Nowhere At All"), String::from("Somewhere")];
    let provider = |address: &str| -> Outcome {
        if address == "Somewhere" {
            Ok(vec![sample(4)])
        } else {
            Ok(vec![])
        }
    };
    let log = resolve_all_with(&lines, &provider);
    assert_eq!(rows(&log), vec![AddrGeoData::tag(&lines[1], sample(4))]);
    assert_eq!(
        queries(&log),
        vec![
            String::from("Nowhere At All"),
            String::from("At All"),
            String::from("Somewhere"),
        ]
    );
}

#[test]
fn queries_never_exceed_one_more_than_the_tokens() {
    for line in ["", " ", "a", " a", "a ", " a b ", "a b c d e", "  x\ty  z  "] {
        let log = resolve_with(line, &|_: &str| -> Outcome { Err(String::from("down")) });
        let tokens = line.split_whitespace().count();
        assert!(queries(&log).len() <= 1 + tokens);
        assert!(rows(&log).is_empty());
    }
}

#[test]
fn whitespace_at_both_ends_uses_the_whole_bound() {
    let log = resolve_with(" a b ", &|_: &str| -> Outcome { Ok(vec![]) });
    assert_eq!(
        queries(&log),
        vec![String::from(" a b "), String::from("a b "), String::from("b ")]
    );
}

#[test]
fn each_address_ends_with_exactly_one_closing_pause() {
    let lines = vec![String::from("a b c"), String::from("d")];
    let log = resolve_all_with(&lines, &|_: &str| -> Outcome { Ok(vec![]) });
    let pauses = log.iter().filter(|a| matches!(a, Action::Pause)).count();
    assert_eq!(pauses, 3);
    assert_eq!(log.last(), Some(&Action::Pause));
}
