//! The outcome of a run and the summary that is handed back for it.
//!
//! The summary is a JSON object: `ok` says whether the run succeeded,
//! `message` says why it did not, and `details` lists the files that were
//! written and those that were left as they were, the number of records
//! that the sheets gave, and the warnings. After a write has failed the
//! files written before it stay in place and are listed.
//!
//! ```text
//! {"ok":true,"message":"done","details":{"written":["A.xml"],
//!  "unchanged":["B.xml"],"records":12,"warnings":[]}}
//! ```

use vstd::prelude::*;
use vstd::string::StringExecFns;
use crate::config::{ConfigError, ConfigView, Configuration};
use crate::config_text::bool_text;
use crate::json::{quoted, write_quoted};
use crate::mapping::{CoercionFailure, index_views, repeated_columns, repeated_headers};
use crate::snapshot::{SheetSnapshotView, sheet_snapshot_views};
use crate::text::{decimal, write_decimal};
use crate::update::{
    ConversionError, ConversionFailure, Plan, PlanView, PlannedSheetView, WriteError,
    planned_sheet_views,
};
use crate::workbook::{ReadError, SheetView, Workbook, sheet_views};


verus! {

/// A column of a header row that is never read, because an earlier column
/// of the sheet has the same name.
#[derive(Debug, PartialEq, Eq)]
pub struct Warning {
    pub sheet: String,
    /// The index of the column, counted from 0.
    pub column: usize,
}

/// A warning as a mathematical value.
pub struct WarningView {
    pub sheet: Seq<char>,
    pub column: int,
}

impl View for Warning {
    type V = WarningView;

    open spec fn view(&self) -> WarningView {
        WarningView { sheet: self.sheet@, column: self.column as int }
    }
}

/// The warnings of `v` as mathematical values.
pub open spec fn warning_views(v: Seq<Warning>) -> Seq<WarningView> {
    Seq::new(v.len(), |i: int| v[i]@)
}

/// How a run ended: the error, if there was one, the files that were
/// written, the files that were left as they were, the number of records
/// that the sheets gave, and what the caller is warned of.
#[derive(Debug, PartialEq, Eq)]
pub struct Outcome {
    pub error: Option<ConversionError>,
    pub written: Vec<String>,
    pub unchanged: Vec<String>,
    pub records: u64,
    pub warnings: Vec<Warning>,
}

/// An outcome as a mathematical value.
pub struct OutcomeView {
    pub error: Option<ConversionFailure>,
    pub written: Seq<Seq<char>>,
    pub unchanged: Seq<Seq<char>>,
    pub records: nat,
    pub warnings: Seq<WarningView>,
}

/// The number of records of the first `n` sheets.
pub open spec fn record_count(sheets: Seq<SheetSnapshotView>, n: int) -> nat
    decreases n,
{
    if n <= 0 {
        0
    } else {
        record_count(sheets, n - 1) + sheets[n - 1].records.len()
    }
}

/// A count as a summary holds it: no more than 64 bits can say.
pub open spec fn capped(n: nat) -> nat {
    if n <= u64::MAX {
        n
    } else {
        u64::MAX as nat
    }
}

/// The warnings for the columns `columns` of the sheet called `name`.
pub open spec fn sheet_warnings(name: Seq<char>, columns: Seq<int>) -> Seq<WarningView> {
    Seq::new(columns.len(), |i: int| WarningView { sheet: name, column: columns[i] })
}

/// The warnings for the first `n` sheets of a workbook: one for each column
/// of a header row whose name an earlier column has too, sheet after sheet
/// in the order of the workbook and column after column in rising order.
pub open spec fn warnings_of(c: ConfigView, sheets: Seq<SheetView>, n: int) -> Seq<WarningView>
    decreases n,
{
    if n <= 0 {
        Seq::empty()
    } else {
        warnings_of(c, sheets, n - 1) + sheet_warnings(
            sheets[n - 1].name,
            repeated_columns(c, sheets[n - 1].rows),
        )
    }
}

impl View for Outcome {
    type V = OutcomeView;

    open spec fn view(&self) -> OutcomeView {
        OutcomeView {
            error: match self.error {
                Some(e) => Some(e@),
                None => None,
            },
            written: self.written.deep_view(),
            unchanged: self.unchanged.deep_view(),
            records: self.records as nat,
            warnings: warning_views(self.warnings@),
        }
    }
}

/// The files of the first `n` planned sheets that have a document.
pub open spec fn files_to_write(sheets: Seq<PlannedSheetView>, n: int) -> Seq<Seq<char>>
    decreases n,
{
    if n <= 0 {
        Seq::empty()
    } else if sheets[n - 1].document is Some {
        files_to_write(sheets, n - 1).push(sheets[n - 1].file)
    } else {
        files_to_write(sheets, n - 1)
    }
}

/// The files of the first `n` planned sheets that have no document.
pub open spec fn files_to_keep(sheets: Seq<PlannedSheetView>, n: int) -> Seq<Seq<char>>
    decreases n,
{
    if n <= 0 {
        Seq::empty()
    } else if sheets[n - 1].document is None {
        files_to_keep(sheets, n - 1).push(sheets[n - 1].file)
    } else {
        files_to_keep(sheets, n - 1)
    }
}

/// The outcome of a run whose documents were written in the order of the
/// plan, up to but without the sheet of index `done`, where the write of
/// that sheet failed with `failure` if there is one. A `done` beyond the
/// plan stands for the whole plan.
pub open spec fn outcome_of(
    plan: PlanView,
    done: int,
    failure: Option<WriteError>,
    warnings: Seq<WarningView>,
) -> OutcomeView {
    OutcomeView {
        error: match failure {
            Some(e) => Some(ConversionFailure::Write(e)),
            None => None,
        },
        written: files_to_write(plan.sheets, if done <= plan.sheets.len() {
            done
        } else {
            plan.sheets.len() as int
        }),
        unchanged: files_to_keep(plan.sheets, plan.sheets.len() as int),
        records: capped(record_count(plan.snapshot.sheets, plan.snapshot.sheets.len() as int)),
        warnings,
    }
}

/// What the message says of a refused configuration.
pub open spec fn config_error_text(e: ConfigError) -> Seq<char> {
    match e {
        ConfigError::Malformed => "configuration: malformed text"@,
        ConfigError::UnknownKey => "configuration: unknown key"@,
        ConfigError::DuplicateKey => "configuration: duplicate key"@,
        ConfigError::MissingKey => "configuration: missing key"@,
        ConfigError::InvalidValue => "configuration: invalid value"@,
        ConfigError::DuplicateTarget => "configuration: duplicate target"@,
    }
}

/// What the message says of a workbook that could not be read.
pub open spec fn read_error_text(e: ReadError) -> Seq<char> {
    match e {
        ReadError::NotFound => "workbook: file not found"@,
        ReadError::UnsupportedFormat => "workbook: unsupported format"@,
        ReadError::Corrupt => "workbook: corrupt file"@,
        ReadError::SheetNotFound => "workbook: sheet not found"@,
    }
}

/// What the message says of a file that could not be written.
pub open spec fn write_error_text(e: WriteError) -> Seq<char> {
    match e {
        WriteError::PermissionDenied => "output: permission denied"@,
        WriteError::Io => "output: write failed"@,
    }
}

/// What the message says of a cell that ended the run.
pub open spec fn coercion_text(sheet: Seq<char>, error: CoercionFailure) -> Seq<char> {
    "coercion: sheet "@ + sheet + ", row "@ + decimal(error.row as nat) + ", field "@
        + error.target
}

/// The message of a summary.
pub open spec fn message_text(error: Option<ConversionFailure>) -> Seq<char> {
    match error {
        None => "done"@,
        Some(ConversionFailure::Config(e)) => config_error_text(e),
        Some(ConversionFailure::Read(e)) => read_error_text(e),
        Some(ConversionFailure::Coercion { sheet, error }) => coercion_text(sheet, error),
        Some(ConversionFailure::Write(e)) => write_error_text(e),
    }
}

/// The string literals of `items` with a comma between each two.
pub open spec fn items_text(items: Seq<Seq<char>>) -> Seq<char>
    decreases items.len(),
{
    if items.len() == 0 {
        Seq::empty()
    } else if items.len() == 1 {
        quoted(items[0])
    } else {
        items_text(items.drop_last()) + seq![','] + quoted(items.last())
    }
}

/// The array of string literals that is written for `items`.
pub open spec fn list_text(items: Seq<Seq<char>>) -> Seq<char> {
    seq!['['] + items_text(items) + seq![']']
}

/// What the summary says of a warning.
pub open spec fn warning_text(w: WarningView) -> Seq<char> {
    "sheet "@ + w.sheet + ": column "@ + decimal(w.column as nat)
        + " repeats the name of an earlier column"@
}

/// What the summary says of each warning.
pub open spec fn warning_texts(warnings: Seq<WarningView>) -> Seq<Seq<char>> {
    Seq::new(warnings.len(), |i: int| warning_text(warnings[i]))
}

/// The summary of an outcome.
pub open spec fn summary_text(o: OutcomeView) -> Seq<char> {
    "{\"ok\":"@ + bool_text(o.error is None) + ",\"message\":"@ + quoted(message_text(o.error))
        + ",\"details\":{\"written\":"@ + list_text(o.written) + ",\"unchanged\":"@ + list_text(
        o.unchanged,
    ) + ",\"records\":"@ + decimal(o.records) + ",\"warnings\":"@ + list_text(
        warning_texts(o.warnings),
    ) + "}}"@
}

/// The outcome of a run that ended with `error` before anything was
/// written.
pub fn failed_outcome(error: ConversionError) -> (o: Outcome)
    ensures
        o@ == (OutcomeView {
            error: Some(error@),
            written: Seq::empty(),
            unchanged: Seq::empty(),
            records: 0,
            warnings: Seq::empty(),
        }),
{
    let o = Outcome {
        error: Some(error),
        written: Vec::new(),
        unchanged: Vec::new(),
        records: 0,
        warnings: Vec::new(),
    };
    proof {
        assert(o@.written =~= Seq::<Seq<char>>::empty());
        assert(o@.unchanged =~= Seq::<Seq<char>>::empty());
        assert(o@.warnings =~= Seq::<WarningView>::empty());
    }
    o
}

/// The warnings for a workbook under the configuration `cfg`: one for each
/// column of a header row whose name an earlier column of its sheet has too.
pub fn header_warnings(cfg: &Configuration, workbook: &Workbook) -> (warnings: Vec<Warning>)
    ensures
        warning_views(warnings@) == warnings_of(cfg@, workbook@, workbook@.len() as int),
{
    let ghost c = cfg@;
    let sheets = workbook.sheets();
    let ghost views = sheet_views(sheets@);
    let mut warnings: Vec<Warning> = Vec::new();
    proof {
        assert(warning_views(warnings@) =~= warnings_of(c, views, 0));
    }
    let mut i: usize = 0;
    while i < sheets.len()
        invariant
            i <= sheets.len(),
            c == cfg@,
            views == sheet_views(sheets@),
            views == workbook@,
            warning_views(warnings@) == warnings_of(c, views, i as int),
        decreases sheets.len() - i,
    {
        let sheet = &sheets[i];
        assert(views[i as int] == sheet@);
        let columns = repeated_headers(&sheet.rows, cfg);
        let ghost before = warning_views(warnings@);
        let ghost wanted = sheet_warnings(sheet.name@, index_views(columns@));
        let mut j: usize = 0;
        proof {
            assert(warning_views(warnings@) =~= before + wanted.take(0));
        }
        while j < columns.len()
            invariant
                j <= columns.len(),
                wanted == sheet_warnings(sheet.name@, index_views(columns@)),
                warning_views(warnings@) == before + wanted.take(j as int),
            decreases columns.len() - j,
        {
            let ghost so_far = warning_views(warnings@);
            warnings.push(Warning { sheet: sheet.name.clone(), column: columns[j] });
            proof {
                assert(wanted[j as int] == warnings@[warnings.len() - 1]@);
                assert(warning_views(warnings@) =~= so_far.push(wanted[j as int]));
                assert(wanted.take(j + 1) =~= wanted.take(j as int).push(wanted[j as int]));
                assert(warning_views(warnings@) =~= before + wanted.take(j + 1));
            }
            j += 1;
        }
        proof {
            assert(wanted.take(columns.len() as int) =~= wanted);
        }
        i += 1;
    }
    warnings
}

/// The number of records that the sheets of a plan gave.
pub fn count_records(plan: &Plan) -> (total: u64)
    ensures
        total == capped(record_count(plan@.snapshot.sheets, plan@.snapshot.sheets.len() as int)),
{
    let ghost views = sheet_snapshot_views(plan.snapshot.sheets@);
    let mut total: u64 = 0;
    let mut i: usize = 0;
    while i < plan.snapshot.sheets.len()
        invariant
            i <= plan.snapshot.sheets.len(),
            views == sheet_snapshot_views(plan.snapshot.sheets@),
            total == capped(record_count(views, i as int)),
        decreases plan.snapshot.sheets.len() - i,
    {
        assert(views[i as int] == plan.snapshot.sheets[i as int]@);
        let n: u64 = plan.snapshot.sheets[i].records.len() as u64;
        if total > u64::MAX - n {
            total = u64::MAX;
        } else {
            total = total + n;
        }
        i += 1;
    }
    total
}

/// The outcome of a run whose documents were written in the order of the
/// plan: `done` is the number of planned sheets that were dealt with before
/// the run ended, `failure` says why the write of the next one failed, if
/// it did, and `warnings` is what the caller is warned of.
pub fn outcome_after_writing(
    plan: &Plan,
    done: usize,
    failure: Option<WriteError>,
    warnings: Vec<Warning>,
) -> (o: Outcome)
    ensures
        o@ == outcome_of(plan@, done as int, failure, warning_views(warnings@)),
{
    let ghost views = planned_sheet_views(plan.sheets@);
    let mut written: Vec<String> = Vec::new();
    let mut unchanged: Vec<String> = Vec::new();
    proof {
        assert(written.deep_view() =~= files_to_write(views, 0));
        assert(unchanged.deep_view() =~= files_to_keep(views, 0));
    }
    let mut i: usize = 0;
    while i < plan.sheets.len()
        invariant
            i <= plan.sheets.len(),
            views == planned_sheet_views(plan.sheets@),
            written.deep_view() == files_to_write(views, if i <= done {
                i as int
            } else {
                done as int
            }),
            unchanged.deep_view() == files_to_keep(views, i as int),
        decreases plan.sheets.len() - i,
    {
        let sheet = &plan.sheets[i];
        assert(views[i as int] == sheet@);
        let ghost written_before = written.deep_view();
        let ghost unchanged_before = unchanged.deep_view();
        match &sheet.document {
            Some(_) => {
                if i < done {
                    written.push(sheet.file.clone());
                    proof {
                        assert(written.deep_view() =~= written_before.push(sheet.file@));
                    }
                }
            },
            None => {
                unchanged.push(sheet.file.clone());
                proof {
                    assert(unchanged.deep_view() =~= unchanged_before.push(sheet.file@));
                }
            },
        }
        i += 1;
    }
    let error = match failure {
        Some(e) => Some(ConversionError::Write(e)),
        None => None,
    };
    let records = count_records(plan);
    Outcome { error, written, unchanged, records, warnings }
}

/// The message for a refused configuration.
fn config_error_message(e: ConfigError) -> (m: &'static str)
    ensures
        m@ == config_error_text(e),
{
    match e {
        ConfigError::Malformed => "configuration: malformed text",
        ConfigError::UnknownKey => "configuration: unknown key",
        ConfigError::DuplicateKey => "configuration: duplicate key",
        ConfigError::MissingKey => "configuration: missing key",
        ConfigError::InvalidValue => "configuration: invalid value",
        ConfigError::DuplicateTarget => "configuration: duplicate target",
    }
}

/// The message for a workbook that could not be read.
fn read_error_message(e: ReadError) -> (m: &'static str)
    ensures
        m@ == read_error_text(e),
{
    match e {
        ReadError::NotFound => "workbook: file not found",
        ReadError::UnsupportedFormat => "workbook: unsupported format",
        ReadError::Corrupt => "workbook: corrupt file",
        ReadError::SheetNotFound => "workbook: sheet not found",
    }
}

/// The message for a file that could not be written.
fn write_error_message(e: WriteError) -> (m: &'static str)
    ensures
        m@ == write_error_text(e),
{
    match e {
        WriteError::PermissionDenied => "output: permission denied",
        WriteError::Io => "output: write failed",
    }
}

/// The message of the summary of a run that ended with `error`, or without
/// one.
pub fn message(error: &Option<ConversionError>) -> (m: String)
    ensures
        m@ == message_text(
            match error {
                Some(e) => Some(e@),
                None => None,
            },
        ),
{
    match error {
        None => String::from_str("done"),
        Some(ConversionError::Config(e)) => String::from_str(config_error_message(*e)),
        Some(ConversionError::Read(e)) => String::from_str(read_error_message(*e)),
        Some(ConversionError::Write(e)) => String::from_str(write_error_message(*e)),
        Some(ConversionError::Coercion { sheet, error }) => {
            let mut m = String::from_str("coercion: sheet ");
            m.append(sheet.as_str());
            m.append(", row ");
            write_decimal(&mut m, error.row as u64);
            m.append(", field ");
            m.append(error.target.as_str());
            m
        },
    }
}

/// What the summary says of each of `warnings`.
pub fn warning_messages(warnings: &Vec<Warning>) -> (texts: Vec<String>)
    ensures
        texts.deep_view() == warning_texts(warning_views(warnings@)),
{
    let ghost views = warning_views(warnings@);
    let mut texts: Vec<String> = Vec::new();
    let mut i: usize = 0;
    while i < warnings.len()
        invariant
            i <= warnings.len(),
            views == warning_views(warnings@),
            texts.len() == i,
            forall|k: int| 0 <= k < i ==> (#[trigger] texts[k])@ == warning_text(views[k]),
        decreases warnings.len() - i,
    {
        let w = &warnings[i];
        assert(views[i as int] == w@);
        let mut m = String::from_str("sheet ");
        m.append(w.sheet.as_str());
        m.append(": column ");
        write_decimal(&mut m, w.column as u64);
        m.append(" repeats the name of an earlier column");
        texts.push(m);
        i += 1;
    }
    proof {
        assert(texts.deep_view() =~= warning_texts(views));
    }
    texts
}

/// Appends the array of string literals that stands for `items`.
fn write_list(out: &mut String, items: &Vec<String>)
    ensures
        final(out)@ == old(out)@ + list_text(items.deep_view()),
{
    let ghost start = out@;
    let ghost texts = items.deep_view();
    out.push('[');
    proof {
        assert(out@ =~= start + (seq!['['] + items_text(texts.take(0))));
    }
    let mut i: usize = 0;
    while i < items.len()
        invariant
            i <= items.len(),
            texts == items.deep_view(),
            out@ == start + (seq!['['] + items_text(texts.take(i as int))),
        decreases items.len() - i,
    {
        let ghost done = texts.take(i as int);
        if i > 0 {
            out.push(',');
        }
        write_quoted(out, items[i].as_str());
        proof {
            let next = texts.take(i + 1);
            assert(next.drop_last() =~= done);
            assert(next.last() == items[i as int]@);
            if i == 0 {
                assert(next[0] == items[0]@);
            }
            assert(out@ =~= start + (seq!['['] + items_text(next)));
        }
        i += 1;
    }
    out.push(']');
    proof {
        assert(texts.take(items.len() as int) =~= texts);
        assert(out@ =~= start + list_text(texts));
    }
}

/// The summary of an outcome, as it is handed back to the caller.
pub fn summary(outcome: &Outcome) -> (text: String)
    ensures
        text@ == summary_text(outcome@),
{
    let mut out = String::from_str("{\"ok\":");
    if outcome.error.is_none() {
        out.push('t');
        out.push('r');
        out.push('u');
        out.push('e');
    } else {
        out.push('f');
        out.push('a');
        out.push('l');
        out.push('s');
        out.push('e');
    }
    let ghost l1 = "{\"ok\":"@ + bool_text(outcome@.error is None);
    assert(out@ =~= l1);
    out.append(",\"message\":");
    let m = message(&outcome.error);
    write_quoted(&mut out, m.as_str());
    out.append(",\"details\":{\"written\":");
    write_list(&mut out, &outcome.written);
    out.append(",\"unchanged\":");
    write_list(&mut out, &outcome.unchanged);
    out.append(",\"records\":");
    write_decimal(&mut out, outcome.records);
    out.append(",\"warnings\":");
    let texts = warning_messages(&outcome.warnings);
    write_list(&mut out, &texts);
    out.append("}}");
    out
}

} // verus!
