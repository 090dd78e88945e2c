use sheet_to_xml::coerce::{coerce, date_text, is_blank_text, leap_year, month_length};
use sheet_to_xml::config::{CoercionPolicy, Configuration, Encoding, FieldMapping, TypeHint};
use sheet_to_xml::mapping::{
    column_by_name, column_from_letters, count_data_rows, map_sheet, repeated_headers,
    resolve_columns, CoercionError, Field, Record,
};

fn mapping(source: &str, target: &str, default: &str, type_hint: TypeHint) -> FieldMapping {
    FieldMapping {
        source: source.to_string(),
        target: target.to_string(),
        default: default.to_string(),
        type_hint,
    }
}

fn config(mappings: Vec<FieldMapping>, header: bool, policy: CoercionPolicy) -> Configuration {
    Configuration::new(
        mappings,
        Encoding::Utf8,
        "records".to_string(),
        String::new(),
        header,
        policy,
    )
    .unwrap()
}

fn rows(cells: &[&[&str]]) -> Vec<Vec<String>> {
    cells.iter().map(|r| r.iter().map(|c| c.to_string()).collect()).collect()
}

fn record(row: usize, fields: &[(&str, &str)]) -> Record {
    Record {
        row,
        fields: fields
            .iter()
            .map(|(n, v)| Field { name: n.to_string(), value: v.to_string() })
            .collect(),
    }
}

#[test]
fn text_is_taken_as_it_is() {
    assert_eq!(coerce(TypeHint::Text, "  a b  "), Some("  a b  ".to_string()));
    assert_eq!(coerce(TypeHint::Text, ""), Some(String::new()));
}

#[test]
fn numbers_are_trimmed_and_checked() {
    assert_eq!(coerce(TypeHint::Number, " 12 "), Some("12".to_string()));
    assert_eq!(coerce(TypeHint::Number, "-0.50\n"), Some("-0.50".to_string()));
    assert_eq!(coerce(TypeHint::Number, "+7"), Some("+7".to_string()));
    assert_eq!(coerce(TypeHint::Number, "3.14"), Some("3.14".to_string()));
    assert_eq!(coerce(TypeHint::Number, "abc"), None);
    assert_eq!(coerce(TypeHint::Number, ""), None);
    assert_eq!(coerce(TypeHint::Number, "-"), None);
    assert_eq!(coerce(TypeHint::Number, ".5"), None);
    assert_eq!(coerce(TypeHint::Number, "5."), None);
    assert_eq!(coerce(TypeHint::Number, "1.2.3"), None);
    assert_eq!(coerce(TypeHint::Number, "1 2"), None);
    assert_eq!(coerce(TypeHint::Number, "1e5"), None);
    assert_eq!(coerce(TypeHint::Number, "--1"), None);
}

#[test]
fn dates_are_trimmed_and_checked() {
    assert_eq!(coerce(TypeHint::Date, " 2024-02-29 "), Some("2024-02-29".to_string()));
    assert_eq!(coerce(TypeHint::Date, "2000-02-29"), Some("2000-02-29".to_string()));
    assert_eq!(coerce(TypeHint::Date, "1999-12-31"), Some("1999-12-31".to_string()));
    assert_eq!(coerce(TypeHint::Date, "2023-02-29"), None);
    assert_eq!(coerce(TypeHint::Date, "1900-02-29"), None);
    assert_eq!(coerce(TypeHint::Date, "2024-04-31"), None);
    assert_eq!(coerce(TypeHint::Date, "2024-13-01"), None);
    assert_eq!(coerce(TypeHint::Date, "2024-00-10"), None);
    assert_eq!(coerce(TypeHint::Date, "2024-01-00"), None);
    assert_eq!(coerce(TypeHint::Date, "2024-1-01"), None);
    assert_eq!(coerce(TypeHint::Date, "2024/01/01"), None);
    assert_eq!(coerce(TypeHint::Date, "20240101"), None);
    assert_eq!(coerce(TypeHint::Date, ""), None);
}

#[test]
fn blank_texts() {
    assert!(is_blank_text(""));
    assert!(is_blank_text(" \t\r\n"));
    assert!(!is_blank_text(" x "));
}

#[test]
fn column_letters() {
    assert_eq!(column_from_letters("A"), Some(0));
    assert_eq!(column_from_letters("Z"), Some(25));
    assert_eq!(column_from_letters("AA"), Some(26));
    assert_eq!(column_from_letters("AZ"), Some(51));
    assert_eq!(column_from_letters("BA"), Some(52));
    assert_eq!(column_from_letters("ZZ"), Some(701));
    assert_eq!(column_from_letters("AAA"), Some(702));
    assert_eq!(column_from_letters("XFD"), Some(16383));
    assert_eq!(column_from_letters("c"), Some(2));
    assert_eq!(column_from_letters(""), None);
    assert_eq!(column_from_letters("A1"), None);
    assert_eq!(column_from_letters("AAAA"), None);
    assert_eq!(column_from_letters("\u{e9}"), None);
}

#[test]
fn first_header_of_a_name_wins() {
    let header: Vec<String> = vec!["id".into(), "name".into(), "id".into(), "".into(), "".into()];
    assert_eq!(column_by_name(&header, &"id".to_string()), Some(0));
    assert_eq!(column_by_name(&header, &"name".to_string()), Some(1));
    assert_eq!(column_by_name(&header, &"age".to_string()), None);
    let sheet = vec![header, vec!["1".into(), "Ada".into(), "2".into()]];
    let cfg = config(
        vec![mapping("id", "id", "", TypeHint::Text)],
        true,
        CoercionPolicy::AbortRecord,
    );
    assert_eq!(repeated_headers(&sheet, &cfg), vec![2]);
    assert_eq!(map_sheet(&sheet, &cfg), Ok(vec![record(1, &[("id", "1")])]));
    let no_header = config(
        vec![mapping("A", "id", "", TypeHint::Text)],
        false,
        CoercionPolicy::AbortRecord,
    );
    assert_eq!(repeated_headers(&sheet, &no_header), Vec::<usize>::new());
}

#[test]
fn columns_are_resolved() {
    let sheet = rows(&[&["x", "y"], &["1", "2"]]);
    let by_name = config(
        vec![
            mapping("y", "b", "", TypeHint::Text),
            mapping("z", "c", "", TypeHint::Text),
            mapping("x", "a", "", TypeHint::Text),
        ],
        true,
        CoercionPolicy::AbortRecord,
    );
    assert_eq!(resolve_columns(&sheet, &by_name), vec![Some(1), None, Some(0)]);
    let by_letter = config(
        vec![mapping("B", "b", "", TypeHint::Text), mapping("x", "a", "", TypeHint::Text)],
        false,
        CoercionPolicy::AbortRecord,
    );
    assert_eq!(resolve_columns(&sheet, &by_letter), vec![Some(1), Some(23)]);
    assert_eq!(resolve_columns(&Vec::new(), &by_name), vec![None, None, None]);
}

#[test]
fn header_row_gives_no_record() {
    let sheet = rows(&[&["Name", "Age"], &["Ada", "36"], &["Alan", "41"]]);
    let cfg = config(
        vec![
            mapping("Age", "age", "0", TypeHint::Number),
            mapping("Name", "name", "", TypeHint::Text),
        ],
        true,
        CoercionPolicy::AbortRun,
    );
    assert_eq!(
        map_sheet(&sheet, &cfg),
        Ok(vec![
            record(1, &[("age", "36"), ("name", "Ada")]),
            record(2, &[("age", "41"), ("name", "Alan")]),
        ])
    );
}

#[test]
fn defaults_for_absent_and_blank_cells() {
    let sheet = rows(&[&["Ada", " "], &["Alan"], &["", "7"]]);
    let cfg = config(
        vec![
            mapping("A", "name", "nobody", TypeHint::Text),
            mapping("B", "age", "n/a", TypeHint::Number),
            mapping("C", "town", "", TypeHint::Text),
            mapping("??", "other", "none", TypeHint::Date),
        ],
        false,
        CoercionPolicy::AbortRun,
    );
    assert_eq!(
        map_sheet(&sheet, &cfg),
        Ok(vec![
            record(0, &[("name", "Ada"), ("age", "n/a"), ("town", ""), ("other", "none")]),
            record(1, &[("name", "Alan"), ("age", "n/a"), ("town", ""), ("other", "none")]),
            record(2, &[("name", "nobody"), ("age", "7"), ("town", ""), ("other", "none")]),
        ])
    );
}

#[test]
fn blank_rows_at_the_end_give_no_records() {
    let sheet = rows(&[&["a"], &["", " "], &["b"], &[""], &[], &[" \t"]]);
    assert_eq!(count_data_rows(&sheet), 3);
    let cfg = config(
        vec![mapping("A", "v", "-", TypeHint::Text)],
        false,
        CoercionPolicy::AbortRecord,
    );
    assert_eq!(
        map_sheet(&sheet, &cfg),
        Ok(vec![record(0, &[("v", "a")]), record(1, &[("v", "-")]), record(2, &[("v", "b")])])
    );
    assert_eq!(count_data_rows(&Vec::new()), 0);
    assert_eq!(map_sheet(&Vec::new(), &cfg), Ok(vec![]));
}

#[test]
fn header_only_sheet_gives_no_records() {
    let cfg = config(
        vec![mapping("Name", "name", "", TypeHint::Text)],
        true,
        CoercionPolicy::AbortRun,
    );
    assert_eq!(map_sheet(&rows(&[&["Name"]]), &cfg), Ok(vec![]));
    assert_eq!(map_sheet(&rows(&[&[""], &[""]]), &cfg), Ok(vec![]));
}

fn priced() -> Vec<Vec<String>> {
    rows(&[&["pen", "1.50"], &["ink", "cheap"], &["cap", "0.20"], &["nib", "dear"]])
}

fn price_config(policy: CoercionPolicy) -> Configuration {
    config(
        vec![
            mapping("A", "item", "", TypeHint::Text),
            mapping("B", "price", "0", TypeHint::Number),
        ],
        false,
        policy,
    )
}

#[test]
fn coercion_failure_abort_record() {
    assert_eq!(
        map_sheet(&priced(), &price_config(CoercionPolicy::AbortRecord)),
        Ok(vec![
            record(0, &[("item", "pen"), ("price", "1.50")]),
            record(2, &[("item", "cap"), ("price", "0.20")]),
        ])
    );
}

#[test]
fn coercion_failure_skip_field_use_default() {
    assert_eq!(
        map_sheet(&priced(), &price_config(CoercionPolicy::SkipFieldUseDefault)),
        Ok(vec![
            record(0, &[("item", "pen"), ("price", "1.50")]),
            record(1, &[("item", "ink"), ("price", "0")]),
            record(2, &[("item", "cap"), ("price", "0.20")]),
            record(3, &[("item", "nib"), ("price", "0")]),
        ])
    );
}

#[test]
fn coercion_failure_abort_run() {
    assert_eq!(
        map_sheet(&priced(), &price_config(CoercionPolicy::AbortRun)),
        Err(CoercionError { row: 1, target: "price".to_string() })
    );
}

#[test]
fn no_mappings_give_empty_records() {
    let cfg = config(vec![], false, CoercionPolicy::AbortRun);
    assert_eq!(
        map_sheet(&rows(&[&["a"], &["b"]]), &cfg),
        Ok(vec![record(0, &[]), record(1, &[])])
    );
}

#[test]
fn days_of_the_calendar_are_written_as_dates() {
    assert_eq!(date_text(2024, 2, 29), Some("2024-02-29".to_string()));
    assert_eq!(date_text(7, 1, 1), Some("0007-01-01".to_string()));
    assert_eq!(date_text(0, 12, 31), Some("0000-12-31".to_string()));
    assert_eq!(date_text(9999, 12, 31), Some("9999-12-31".to_string()));
    assert_eq!(date_text(10000, 1, 1), None);
    assert_eq!(date_text(2023, 2, 29), None);
    assert_eq!(date_text(2023, 0, 1), None);
    assert_eq!(date_text(2023, 13, 1), None);
    assert_eq!(date_text(2023, 6, 0), None);
    assert_eq!(date_text(2023, 6, 31), None);
    let written = date_text(1987, 10, 5).unwrap();
    assert_eq!(coerce(TypeHint::Date, &written), Some(written));
}

#[test]
fn leap_years_and_months() {
    assert!(leap_year(2024));
    assert!(leap_year(2000));
    assert!(!leap_year(1900));
    assert!(!leap_year(2023));
    assert_eq!(month_length(2024, 2), 29);
    assert_eq!(month_length(2023, 2), 28);
    assert_eq!(month_length(2023, 4), 30);
    assert_eq!(month_length(2023, 12), 31);
}
