use sheet_to_xml::api::{get_default_cfg, get_sheet_names, greet, quick_update, update};
use sheet_to_xml::config::ConfigError;
use sheet_to_xml::mapping::CoercionError;
use sheet_to_xml::config_text::parse;
use sheet_to_xml::report::{
    failed_outcome, header_warnings, message, outcome_after_writing, summary, warning_messages,
    Outcome, Warning,
};
use sheet_to_xml::state::{advance, is_over, Mode, State};
use sheet_to_xml::update::{ConversionError, Plan, WriteError};
use sheet_to_xml::workbook::{ReadError, Sheet, Workbook};

const CONFIG: &str = "{\"mappings\":[{\"source\":\"Name\",\"target\":\"name\"},{\"source\":\"Age\",\"target\":\"age\",\"default\":\"0\",\"type\":\"number\"}],\"header\":true,\"root\":\"people\",\"on_error\":\"abort-record\"}";

fn sheet(name: &str, cells: &[&[&str]]) -> Sheet {
    Sheet {
        name: name.to_string(),
        rows: cells.iter().map(|r| r.iter().map(|c| c.to_string()).collect()).collect(),
    }
}

fn workbook() -> Workbook {
    Workbook::new(vec![
        sheet("A", &[&["Name", "Age"], &["Ada", "36"], &["Alan", "x"], &["Grace", ""]]),
        sheet("B", &[&["Age", "Name", "Town"], &["41", "Alan", "London"]]),
    ])
    .unwrap()
}

fn documents(plan: &Plan) -> Vec<(String, Option<String>)> {
    plan.sheets.iter().map(|s| (s.file.clone(), s.document.clone())).collect()
}

#[test]
fn greeting() {
    assert_eq!(greet("Tom".to_string()), "Hello Rust, Tom!");
    assert_eq!(greet(String::new()), "Hello Rust, !");
}

#[test]
fn default_configuration_runs() {
    let wb = Workbook::new(vec![sheet("S", &[&["a", "b"], &["c"]])]).unwrap();
    let plan = update(&get_default_cfg(), &wb).unwrap();
    assert_eq!(
        documents(&plan),
        vec![(
            "S.xml".to_string(),
            Some(
                "<?xml version=\"1.0\" encoding=\"UTF-8\"?>\n<records>\n  <record row=\"0\">\n    <value>a</value>\n  </record>\n  <record row=\"1\">\n    <value>c</value>\n  </record>\n</records>\n"
                    .to_string()
            )
        )]
    );
}

#[test]
fn sheet_names_in_order() {
    let wb = Workbook::new(vec![sheet("A", &[]), sheet("B", &[])]).unwrap();
    assert_eq!(get_sheet_names(&wb), vec!["A".to_string(), "B".to_string()]);
    assert_eq!(wb.list_sheet_names(), vec!["A".to_string(), "B".to_string()]);
    let other = Workbook::new(vec![sheet("B", &[]), sheet("A", &[])]).unwrap();
    assert_eq!(get_sheet_names(&other), vec!["B".to_string(), "A".to_string()]);
}

#[test]
fn workbook_without_sheets_has_no_names() {
    let wb = Workbook::new(vec![]).unwrap();
    assert_eq!(get_sheet_names(&wb), Vec::<String>::new());
}

#[test]
fn sheets_of_one_name_are_corrupt() {
    assert_eq!(
        Workbook::new(vec![sheet("A", &[]), sheet("B", &[]), sheet("A", &[&["x"]])]),
        Err(ReadError::Corrupt)
    );
}

#[test]
fn rows_are_read_by_name() {
    let wb = workbook();
    assert_eq!(wb.read_rows("B").unwrap().len(), 2);
    assert_eq!(wb.read_rows("A").unwrap()[1], vec!["Ada".to_string(), "36".to_string()]);
    assert_eq!(wb.read_rows("A").unwrap().len(), 4);
    assert_eq!(wb.read_rows("C"), Err(ReadError::SheetNotFound));
    assert_eq!(wb.read_rows("a"), Err(ReadError::SheetNotFound));
}

#[test]
fn full_update_plans_every_sheet() {
    let plan = update(CONFIG, &workbook()).unwrap();
    assert_eq!(
        documents(&plan),
        vec![
            (
                "A.xml".to_string(),
                Some(
                    "<?xml version=\"1.0\" encoding=\"UTF-8\"?>\n<people>\n  <record row=\"1\">\n    <name>Ada</name>\n    <age>36</age>\n  </record>\n  <record row=\"3\">\n    <name>Grace</name>\n    <age>0</age>\n  </record>\n</people>\n"
                        .to_string()
                )
            ),
            (
                "B.xml".to_string(),
                Some(
                    "<?xml version=\"1.0\" encoding=\"UTF-8\"?>\n<people>\n  <record row=\"1\">\n    <name>Alan</name>\n    <age>41</age>\n  </record>\n</people>\n"
                        .to_string()
                )
            ),
        ]
    );
    assert_eq!(plan.sheets[0].sheet, "A");
    assert_eq!(plan.snapshot.sheets.len(), 2);
    assert_eq!(plan.snapshot.sheets[0].name, "A");
    assert_eq!(plan.snapshot.sheets[0].records.len(), 2);
    assert_eq!(plan.snapshot.sheets[1].records[0].row, 1);
}

#[test]
fn update_is_deterministic() {
    let first = update(CONFIG, &workbook()).unwrap();
    let second = update(CONFIG, &workbook()).unwrap();
    assert_eq!(first, second);
    assert_eq!(documents(&first), documents(&second));
}

#[test]
fn quick_update_without_snapshot_is_a_full_update() {
    assert_eq!(quick_update(CONFIG, &workbook(), None), update(CONFIG, &workbook()));
}

#[test]
fn quick_update_of_unchanged_workbook_writes_nothing() {
    let first = update(CONFIG, &workbook()).unwrap();
    let second = quick_update(CONFIG, &workbook(), Some(&first.snapshot)).unwrap();
    assert_eq!(
        documents(&second),
        vec![("A.xml".to_string(), None), ("B.xml".to_string(), None)]
    );
    assert_eq!(second.snapshot, first.snapshot);
}

#[test]
fn quick_update_writes_the_changed_sheet_only() {
    let first = update(CONFIG, &workbook()).unwrap();
    let changed = Workbook::new(vec![
        sheet("A", &[&["Name", "Age"], &["Ada", "36"], &["Alan", "x"], &["Grace", ""]]),
        sheet("B", &[&["Age", "Name", "Town"], &["42", "Alan", "London"]]),
    ])
    .unwrap();
    let second = quick_update(CONFIG, &changed, Some(&first.snapshot)).unwrap();
    assert_eq!(
        documents(&second),
        vec![
            ("A.xml".to_string(), None),
            (
                "B.xml".to_string(),
                Some(
                    "<?xml version=\"1.0\" encoding=\"UTF-8\"?>\n<people>\n  <record row=\"1\">\n    <name>Alan</name>\n    <age>42</age>\n  </record>\n</people>\n"
                        .to_string()
                )
            ),
        ]
    );
    let third = quick_update(CONFIG, &changed, Some(&second.snapshot)).unwrap();
    assert_eq!(
        documents(&third),
        vec![("A.xml".to_string(), None), ("B.xml".to_string(), None)]
    );
}

#[test]
fn quick_update_ignores_cells_that_no_field_reads() {
    let first = update(CONFIG, &workbook()).unwrap();
    let changed = Workbook::new(vec![
        sheet("A", &[&["Name", "Age"], &["Ada", "36"], &["Alan", "y"], &["Grace", ""], &[""]]),
        sheet("B", &[&["Age", "Name", "Town"], &["41", "Alan", "Paris"]]),
    ])
    .unwrap();
    let second = quick_update(CONFIG, &changed, Some(&first.snapshot)).unwrap();
    assert_eq!(
        documents(&second),
        vec![("A.xml".to_string(), None), ("B.xml".to_string(), None)]
    );
}

#[test]
fn quick_update_writes_new_and_renamed_sheets() {
    let first = update(CONFIG, &workbook()).unwrap();
    let changed = Workbook::new(vec![
        sheet("B", &[&["Age", "Name", "Town"], &["41", "Alan", "London"]]),
        sheet("C", &[&["Name", "Age"], &["Ada", "36"], &["Alan", "x"], &["Grace", ""]]),
    ])
    .unwrap();
    let second = quick_update(CONFIG, &changed, Some(&first.snapshot)).unwrap();
    assert_eq!(second.sheets[0].file, "B.xml");
    assert_eq!(second.sheets[0].document, None);
    assert_eq!(second.sheets[1].file, "C.xml");
    assert!(second.sheets[1].document.is_some());
}

#[test]
fn quick_update_under_another_configuration_writes_everything() {
    let first = update(CONFIG, &workbook()).unwrap();
    let other = CONFIG.replace("people", "persons");
    let second = quick_update(&other, &workbook(), Some(&first.snapshot)).unwrap();
    assert!(second.sheets.iter().all(|s| s.document.is_some()));
    assert_eq!(second, update(&other, &workbook()).unwrap());
}

#[test]
fn refused_configuration_fails_the_run() {
    assert_eq!(
        update("{not json", &workbook()),
        Err(ConversionError::Config(ConfigError::Malformed))
    );
    assert_eq!(
        quick_update("{\"colour\":1}", &workbook(), None),
        Err(ConversionError::Config(ConfigError::UnknownKey))
    );
}

#[test]
fn abort_run_names_sheet_row_and_field() {
    let cfg = CONFIG.replace("abort-record", "abort-run");
    assert_eq!(
        update(&cfg, &workbook()),
        Err(ConversionError::Coercion {
            sheet: "A".to_string(),
            error: CoercionError { row: 2, target: "age".to_string() },
        })
    );
}

#[test]
fn states_of_a_full_update() {
    let mut s = State::Init;
    let mut seen = vec![s];
    while !is_over(s) {
        s = advance(Mode::Full, s, true);
        seen.push(s);
    }
    assert_eq!(
        seen,
        vec![State::Init, State::Reading, State::Mapping, State::Writing, State::Done]
    );
}

#[test]
fn states_of_a_quick_update() {
    let mut s = State::Init;
    let mut seen = vec![s];
    while !is_over(s) {
        s = advance(Mode::Quick, s, true);
        seen.push(s);
    }
    assert_eq!(
        seen,
        vec![
            State::Init,
            State::Reading,
            State::Mapping,
            State::Diffing,
            State::Writing,
            State::Done
        ]
    );
}

#[test]
fn failure_ends_a_run() {
    for s in [State::Init, State::Reading, State::Mapping, State::Diffing, State::Writing] {
        assert_eq!(advance(Mode::Quick, s, false), State::Failed);
        assert_eq!(advance(Mode::Full, s, false), State::Failed);
        assert!(!is_over(s));
    }
    for ok in [true, false] {
        assert_eq!(advance(Mode::Full, State::Failed, ok), State::Failed);
        assert_eq!(advance(Mode::Quick, State::Done, ok), State::Done);
    }
    assert!(is_over(State::Done));
    assert!(is_over(State::Failed));
}

#[test]
fn summary_of_a_run_that_wrote_everything() {
    let plan = update(CONFIG, &workbook()).unwrap();
    let outcome = outcome_after_writing(&plan, 2, None, vec![]);
    assert_eq!(
        outcome,
        Outcome {
            error: None,
            written: vec!["A.xml".to_string(), "B.xml".to_string()],
            unchanged: vec![],
            records: 3,
            warnings: vec![],
        }
    );
    assert_eq!(
        summary(&outcome),
        "{\"ok\":true,\"message\":\"done\",\"details\":{\"written\":[\"A.xml\",\"B.xml\"],\"unchanged\":[],\"records\":3,\"warnings\":[]}}"
    );
}

#[test]
fn summary_of_a_run_that_wrote_nothing() {
    let first = update(CONFIG, &workbook()).unwrap();
    let plan = quick_update(CONFIG, &workbook(), Some(&first.snapshot)).unwrap();
    assert_eq!(
        summary(&outcome_after_writing(&plan, 2, None, vec![])),
        "{\"ok\":true,\"message\":\"done\",\"details\":{\"written\":[],\"unchanged\":[\"A.xml\",\"B.xml\"],\"records\":3,\"warnings\":[]}}"
    );
}

#[test]
fn summary_after_a_failed_write_lists_what_was_written() {
    let plan = update(CONFIG, &workbook()).unwrap();
    let outcome = outcome_after_writing(&plan, 1, Some(WriteError::PermissionDenied), vec![]);
    assert_eq!(
        summary(&outcome),
        "{\"ok\":false,\"message\":\"output: permission denied\",\"details\":{\"written\":[\"A.xml\"],\"unchanged\":[],\"records\":3,\"warnings\":[]}}"
    );
    assert_eq!(outcome_after_writing(&plan, 7, None, vec![]).written.len(), 2);
    assert_eq!(
        summary(&outcome_after_writing(&plan, 0, Some(WriteError::Io), vec![])),
        "{\"ok\":false,\"message\":\"output: write failed\",\"details\":{\"written\":[],\"unchanged\":[],\"records\":3,\"warnings\":[]}}"
    );
}

#[test]
fn missing_file_is_reported_as_not_found() {
    let outcome = failed_outcome(ConversionError::Read(ReadError::NotFound));
    assert_eq!(
        summary(&outcome),
        "{\"ok\":false,\"message\":\"workbook: file not found\",\"details\":{\"written\":[],\"unchanged\":[],\"records\":0,\"warnings\":[]}}"
    );
}

#[test]
fn messages() {
    assert_eq!(message(&None), "done");
    assert_eq!(
        message(&Some(ConversionError::Config(ConfigError::DuplicateTarget))),
        "configuration: duplicate target"
    );
    assert_eq!(
        message(&Some(ConversionError::Read(ReadError::UnsupportedFormat))),
        "workbook: unsupported format"
    );
    assert_eq!(message(&Some(ConversionError::Read(ReadError::Corrupt))), "workbook: corrupt file");
    assert_eq!(
        message(&Some(ConversionError::Read(ReadError::SheetNotFound))),
        "workbook: sheet not found"
    );
    assert_eq!(
        message(&Some(ConversionError::Coercion {
            sheet: "My \"Sheet\"".to_string(),
            error: CoercionError { row: 12, target: "price".to_string() },
        })),
        "coercion: sheet My \"Sheet\", row 12, field price"
    );
    let outcome = failed_outcome(ConversionError::Coercion {
        sheet: "My \"Sheet\"".to_string(),
        error: CoercionError { row: 12, target: "price".to_string() },
    });
    assert_eq!(
        summary(&outcome),
        "{\"ok\":false,\"message\":\"coercion: sheet My \\\"Sheet\\\", row 12, field price\",\"details\":{\"written\":[],\"unchanged\":[],\"records\":0,\"warnings\":[]}}"
    );
}

#[test]
fn repeated_header_names_are_warned_of() {
    let cfg = parse(CONFIG).unwrap();
    let wb = Workbook::new(vec![
        sheet("A", &[&["Name", "Age", "Name", "", "", "Age"], &["Ada", "36", "Eve"]]),
        sheet("B", &[&["Name", "Age"]]),
        sheet("C", &[]),
        sheet("D \"x\"", &[&["Age", "Age"]]),
    ])
    .unwrap();
    let warnings = header_warnings(&cfg, &wb);
    assert_eq!(
        warnings,
        vec![
            Warning { sheet: "A".to_string(), column: 2 },
            Warning { sheet: "A".to_string(), column: 5 },
            Warning { sheet: "D \"x\"".to_string(), column: 1 },
        ]
    );
    assert_eq!(
        warning_messages(&warnings),
        vec![
            "sheet A: column 2 repeats the name of an earlier column".to_string(),
            "sheet A: column 5 repeats the name of an earlier column".to_string(),
            "sheet D \"x\": column 1 repeats the name of an earlier column".to_string(),
        ]
    );
    let plan = update(CONFIG, &wb).unwrap();
    assert_eq!(plan.sheets[0].document.as_ref().unwrap().matches("<name>Ada</name>").count(), 1);
    let only_last = vec![Warning { sheet: "D \"x\"".to_string(), column: 1 }];
    assert_eq!(
        summary(&outcome_after_writing(&plan, 4, None, only_last)),
        "{\"ok\":true,\"message\":\"done\",\"details\":{\"written\":[\"A.xml\",\"B.xml\",\"C.xml\",\"D_32__34_x_34_.xml\"],\"unchanged\":[],\"records\":1,\"warnings\":[\"sheet D \\\"x\\\": column 1 repeats the name of an earlier column\"]}}"
    );
    let no_header = parse("{\"header\":false}").unwrap();
    assert_eq!(header_warnings(&no_header, &wb), vec![]);
}

#[test]
fn every_sheet_has_its_own_file() {
    let wb = Workbook::new(vec![
        sheet("a b", &[]),
        sheet("a_b", &[]),
        sheet("a_32_b", &[]),
        sheet("a.b", &[]),
        sheet("A B", &[]),
    ])
    .unwrap();
    let plan = update(CONFIG, &wb).unwrap();
    let mut files: Vec<String> = plan.sheets.iter().map(|s| s.file.clone()).collect();
    assert_eq!(
        files,
        vec!["a_32_b.xml", "a_95_b.xml", "a_95_32_95_b.xml", "a_46_b.xml", "A_32_B.xml"]
    );
    files.sort();
    files.dedup();
    assert_eq!(files.len(), 5);
}
