use sheet_to_xml::api::{quick_update, update};
use sheet_to_xml::config::load_default;
use sheet_to_xml::mapping::{Field, Record};
use sheet_to_xml::snapshot::{
    same_configuration, same_records, unchanged_since, SheetSnapshot, Snapshot,
};
use sheet_to_xml::snapshot_text::{decode, encode};
use sheet_to_xml::update::{map_workbook, plan_documents};
use sheet_to_xml::workbook::{Sheet, Workbook};

fn record(row: usize, fields: &[(&str, &str)]) -> Record {
    Record {
        row,
        fields: fields
            .iter()
            .map(|(n, v)| Field { name: n.to_string(), value: v.to_string() })
            .collect(),
    }
}

fn snapshot() -> Snapshot {
    Snapshot {
        config: load_default(),
        sheets: vec![
            SheetSnapshot {
                name: "First \"one\"".to_string(),
                records: vec![
                    record(0, &[("value", "a,b"), ("other", "x]y\n")]),
                    record(41, &[]),
                    record(usize::MAX, &[("value", "")]),
                ],
            },
            SheetSnapshot { name: String::new(), records: vec![] },
            SheetSnapshot { name: "Last".to_string(), records: vec![record(7, &[("v", "1")])] },
        ],
    }
}

#[test]
fn snapshot_text_of_an_empty_snapshot() {
    let s = Snapshot { config: load_default(), sheets: vec![] };
    assert_eq!(
        encode(&s),
        "{\"config\":{\"mappings\":[{\"source\":\"A\",\"target\":\"value\",\"default\":\"\",\"type\":\"string\"}],\"encoding\":\"UTF-8\",\"root\":\"records\",\"namespace\":\"\",\"header\":false,\"on_error\":\"skip-field-use-default\"},\"sheets\":[]}"
    );
    assert_eq!(decode(&encode(&s)), Some(s));
}

#[test]
fn snapshot_text_of_sheets_and_records() {
    let text = encode(&snapshot());
    assert!(text.ends_with(
        ",\"sheets\":[{\"name\":\"First \\\"one\\\"\",\"records\":[[0,\"value\",\"a,b\",\"other\",\"x]y\\n\"],[41],[18446744073709551615,\"value\",\"\"]]},{\"name\":\"\",\"records\":[]},{\"name\":\"Last\",\"records\":[[7,\"v\",\"1\"]]}]}"
    ));
}

#[test]
fn snapshot_round_trip() {
    let s = snapshot();
    assert_eq!(decode(&encode(&s)), Some(s));
}

#[test]
fn texts_that_are_no_snapshot() {
    let text = encode(&snapshot());
    assert_eq!(decode(""), None);
    assert_eq!(decode("{}"), None);
    assert_eq!(decode(&text[..text.len() - 1]), None);
    assert_eq!(decode(&format!("{text} ")), None);
    assert_eq!(decode(&format!(" {text}")), None);
    assert_eq!(decode(&text.replace("[41]", "[41,\"a\"]")), None);
    assert_eq!(decode(&text.replace("[41]", "[x]")), None);
    assert_eq!(decode(&text.replace("[41]", "[]")), None);
    assert_eq!(decode(&text.replace("[41]", "[-1]")), None);
    assert_eq!(decode(&text.replace("[41]", "[41],")), None);
    assert_eq!(decode(&text.replace("18446744073709551615", "18446744073709551616")), None);
    assert_eq!(decode(&text.replace("\"name\"", "\"title\"")), None);
    assert_eq!(decode(&text.replace("\"UTF-8\"", "\"latin1\"")), None);
    assert!(decode(&text.replace("[41]", "[041]")).is_some());
}

#[test]
fn snapshot_with_duplicate_targets_is_refused() {
    let text = "{\"config\":{\"mappings\":[{\"source\":\"A\",\"target\":\"x\"},{\"source\":\"B\",\"target\":\"x\"}]},\"sheets\":[]}";
    assert_eq!(decode(text), None);
    let fine = "{\"config\":{\"mappings\":[{\"source\":\"A\",\"target\":\"x\"},{\"source\":\"B\",\"target\":\"y\"}]},\"sheets\":[]}";
    assert!(decode(fine).is_some());
}

#[test]
fn kept_snapshot_makes_the_next_run_quick() {
    let cfg = "{\"mappings\":[{\"source\":\"A\",\"target\":\"a\"}]}";
    let wb = Workbook::new(vec![
        Sheet { name: "S 1".to_string(), rows: vec![vec!["x".to_string()], vec!["y".to_string()]] },
        Sheet { name: "S 2".to_string(), rows: vec![] },
    ])
    .unwrap();
    let first = update(cfg, &wb).unwrap();
    let read_back = decode(&encode(&first.snapshot));
    assert_eq!(read_back.as_ref(), Some(&first.snapshot));
    let second = quick_update(cfg, &wb, read_back.as_ref()).unwrap();
    assert!(second.sheets.iter().all(|s| s.document.is_none()));
    let third = quick_update(cfg, &wb, decode("no snapshot").as_ref()).unwrap();
    assert_eq!(third, first);
}

#[test]
fn run_in_two_steps() {
    let cfg = load_default();
    let wb = Workbook::new(vec![Sheet {
        name: "S".to_string(),
        rows: vec![vec!["x".to_string()]],
    }])
    .unwrap();
    let entries = map_workbook(&cfg, &wb).unwrap();
    assert_eq!(
        entries,
        vec![SheetSnapshot { name: "S".to_string(), records: vec![record(0, &[("value", "x")])] }]
    );
    let plan = plan_documents(cfg.clone(), entries, None);
    assert_eq!(Ok(plan), update(&sheet_to_xml::api::get_default_cfg(), &wb));
}

#[test]
fn records_and_configurations_are_compared() {
    let a = vec![record(1, &[("n", "v")]), record(2, &[])];
    assert!(same_records(&a, &vec![record(1, &[("n", "v")]), record(2, &[])]));
    assert!(!same_records(&a, &vec![record(1, &[("n", "v")])]));
    assert!(!same_records(&a, &vec![record(1, &[("n", "w")]), record(2, &[])]));
    assert!(!same_records(&a, &vec![record(1, &[("m", "v")]), record(2, &[])]));
    assert!(!same_records(&a, &vec![record(0, &[("n", "v")]), record(2, &[])]));
    assert!(!same_records(&a, &vec![record(1, &[("n", "v")]), record(2, &[("n", "v")])]));
    assert!(same_configuration(&load_default(), &load_default().clone()));
    let other = sheet_to_xml::config_text::parse("{\"root\":\"rows\"}").unwrap();
    assert!(!same_configuration(&load_default(), &other));
    let s = snapshot();
    assert!(unchanged_since(Some(&s), &load_default(), "Last", &vec![record(7, &[("v", "1")])]));
    assert!(!unchanged_since(Some(&s), &other, "Last", &vec![record(7, &[("v", "1")])]));
    assert!(!unchanged_since(Some(&s), &load_default(), "last", &vec![record(7, &[("v", "1")])]));
    assert!(!unchanged_since(Some(&s), &load_default(), "Last", &vec![]));
    assert!(!unchanged_since(None, &load_default(), "Last", &vec![record(7, &[("v", "1")])]));
}
