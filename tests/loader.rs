use n_body_problem::loader::{
    accepted_records, check_record, load_source, LoadError, RecordError, longest_digit_run, MAX_DIGIT_RUN,
};

const GOOD: &str = r#"{"name": "A", "position": [1, 2, 3], "velocity": [0, -1, 0.5], "mass": 5.0e16}"#;

fn list(records: &[&str]) -> String {
    format!("[{}]", records.join(","))
}

#[test]
fn missing_mass_skips_only_that_record() {
    let text = list(&[
        r#"{"name": "Body1", "position": [100, 200, -150], "velocity": [10, -20, 5], "mass": 5.0e16}"#,
        r#"{"name": "Body2", "position": [-120, 150, 200], "velocity": [20, 10, -10]}"#,
        r#"{"name": "Body3", "position": [300, -500, 400], "velocity": [-15, 20, -5], "mass": 6.0e16}"#,
    ]);
    let loaded = match load_source(&text) {
        Ok(l) => l,
        Err(_) => panic!("well-formed source refused"),
    };
    assert_eq!(loaded.verdicts, vec![Ok(()), Err(RecordError::Mass), Ok(())]);
    assert_eq!(loaded.accepted, vec![0, 2]);
    assert_eq!(loaded.root[2]["name"].as_str(), Some("Body3"));
}

#[test]
fn malformed_source_is_refused() {
    let r = load_source("[{\"name\": \"A\",");
    assert!(matches!(r, Err(LoadError::Malformed(_))));
}

#[test]
fn empty_list_loads_nothing() {
    let loaded = match load_source("[]") {
        Ok(l) => l,
        Err(_) => panic!("empty list refused"),
    };
    assert!(loaded.verdicts.is_empty());
    assert!(loaded.accepted.is_empty());
}

#[test]
fn non_list_source_has_no_records() {
    let loaded = match load_source(GOOD) {
        Ok(l) => l,
        Err(_) => panic!("object refused"),
    };
    assert!(loaded.verdicts.is_empty());
    assert!(loaded.accepted.is_empty());
}

#[test]
fn valid_record_passes() {
    let v = json::parse(GOOD).unwrap();
    assert_eq!(check_record(&v), Ok(()));
}

#[test]
fn bad_name_is_reported_first() {
    let v = json::parse(r#"{"name": 3, "position": [1], "mass": "x"}"#).unwrap();
    assert_eq!(check_record(&v), Err(RecordError::Name));
}

#[test]
fn short_position_is_reported() {
    let v = json::parse(r#"{"name": "A", "position": [1, 2], "velocity": [0, 0, 0], "mass": 1}"#).unwrap();
    assert_eq!(check_record(&v), Err(RecordError::Position));
}

#[test]
fn non_numeric_velocity_is_reported() {
    let v = json::parse(r#"{"name": "A", "position": [1, 2, 3], "velocity": [0, "0", 0], "mass": 1}"#).unwrap();
    assert_eq!(check_record(&v), Err(RecordError::Velocity));
}

#[test]
fn non_numeric_mass_is_reported() {
    let v = json::parse(r#"{"name": "A", "position": [1, 2, 3], "velocity": [0, 0, 0], "mass": "heavy"}"#).unwrap();
    assert_eq!(check_record(&v), Err(RecordError::Mass));
}

#[test]
fn accepted_records_keep_order() {
    let verdicts = vec![Err(RecordError::Name), Ok(()), Ok(()), Err(RecordError::Velocity), Ok(())];
    assert_eq!(accepted_records(&verdicts), vec![1, 2, 4]);
}

#[test]
fn all_records_valid_are_all_accepted() {
    let text = list(&[GOOD, GOOD, GOOD]);
    let loaded = match load_source(&text) {
        Ok(l) => l,
        Err(_) => panic!("well-formed source refused"),
    };
    assert_eq!(loaded.accepted, vec![0, 1, 2]);
}

#[test]
fn long_zero_fraction_is_refused() {
    let text = format!("0.{}", "0".repeat(32769));
    assert!(matches!(load_source(&text), Err(LoadError::NumberTooLong)));
}

#[test]
fn fraction_of_exactly_the_limit_loads() {
    let text = format!("[0.{}]", "0".repeat(MAX_DIGIT_RUN));
    assert_eq!(longest_digit_run(&text), MAX_DIGIT_RUN);
    let loaded = match load_source(&text) {
        Ok(l) => l,
        Err(_) => panic!("source at the limit refused"),
    };
    assert_eq!(loaded.verdicts, vec![Err(RecordError::Name)]);
}

#[test]
fn source_longer_than_any_digit_limit_loads() {
    let text = format!("[{}{}]", " ".repeat(MAX_DIGIT_RUN), GOOD);
    assert!(text.chars().count() > MAX_DIGIT_RUN);
    let loaded = match load_source(&text) {
        Ok(l) => l,
        Err(_) => panic!("long well-formed source refused"),
    };
    assert_eq!(loaded.accepted, vec![0]);
}

#[test]
fn many_valid_records_all_load() {
    let records: Vec<&str> = std::iter::repeat(GOOD).take(1000).collect();
    let text = list(&records);
    assert!(text.chars().count() > MAX_DIGIT_RUN);
    let loaded = match load_source(&text) {
        Ok(l) => l,
        Err(_) => panic!("long well-formed source refused"),
    };
    assert_eq!(loaded.accepted.len(), 1000);
    assert_eq!(loaded.accepted[999], 999);
}

#[test]
fn long_zero_fraction_within_limit_loads() {
    let mass = format!("0.{}", "0".repeat(32000));
    let text = format!(
        r#"[{{"name": "A", "position": [1, 2, 3], "velocity": [0, 0, 0], "mass": {}}}]"#,
        mass
    );
    let loaded = match load_source(&text) {
        Ok(l) => l,
        Err(_) => panic!("well-formed source refused"),
    };
    assert_eq!(loaded.accepted, vec![0]);
}

#[test]
fn digit_run_counts_longest_run() {
    assert_eq!(longest_digit_run(""), 0);
    assert_eq!(longest_digit_run("abc"), 0);
    assert_eq!(longest_digit_run("a12b345c6"), 3);
    assert_eq!(longest_digit_run("1234"), 4);
    assert_eq!(longest_digit_run("é99é9"), 2);
}
