//! The two conversion runs: the full update, which renders every sheet, and
//! the quick update, which renders only the sheets that have changed since
//! the snapshot of the run before.
//!
//! A run reads its configuration, maps every sheet in the order of the
//! workbook, and plans one file for each sheet. It ends with the first error:
//! nothing is planned where the configuration is refused or a cell ends the
//! run. The files of sheets that are no longer in the workbook are left as
//! they are.

use vstd::prelude::*;
use crate::config::{ConfigError, ConfigView, Configuration};
use crate::config_text::{parse, parse_config};
use crate::mapping::{
    CoercionError, CoercionFailure, RecordView, map_sheet, mapped_sheet, record_views,
};
use crate::naming::{file_name, file_name_of};
use crate::snapshot::{
    SheetSnapshot, SheetSnapshotView, Snapshot, SnapshotView, is_unchanged, sheet_snapshot_views,
    unchanged_since,
};
use crate::workbook::{ReadError, SheetView, Workbook, sheet_views};
use crate::xml::{document_text, render_document};

verus! {

/// Why a file could not be written.
#[derive(Clone, Copy, Debug, PartialEq, Eq, Structural)]
pub enum WriteError {
    /// The directory or the file may not be written.
    PermissionDenied,
    /// Any other failure of the file system.
    Io,
}

/// Why a run failed.
#[derive(Debug, PartialEq, Eq)]
pub enum ConversionError {
    /// The configuration was refused.
    Config(ConfigError),
    /// The workbook could not be read.
    Read(ReadError),
    /// A cell of the sheet could not be coerced, under the policy that this
    /// ends the run.
    Coercion { sheet: String, error: CoercionError },
    /// A file could not be written.
    Write(WriteError),
}

/// The failure of a run as a mathematical value.
pub enum ConversionFailure {
    Config(ConfigError),
    Read(ReadError),
    Coercion { sheet: Seq<char>, error: CoercionFailure },
    Write(WriteError),
}

impl View for ConversionError {
    type V = ConversionFailure;

    open spec fn view(&self) -> ConversionFailure {
        match self {
            ConversionError::Config(e) => ConversionFailure::Config(*e),
            ConversionError::Read(e) => ConversionFailure::Read(*e),
            ConversionError::Coercion { sheet, error } => ConversionFailure::Coercion {
                sheet: sheet@,
                error: error@,
            },
            ConversionError::Write(e) => ConversionFailure::Write(*e),
        }
    }
}

/// What a run plans for one sheet: the file, and the document to write to
/// it, or no document where the file is to be left as it is.
#[derive(Debug, PartialEq, Eq)]
pub struct PlannedSheet {
    pub sheet: String,
    pub file: String,
    pub document: Option<String>,
}

/// The plan for one sheet as a mathematical value.
pub struct PlannedSheetView {
    pub sheet: Seq<char>,
    pub file: Seq<char>,
    pub document: Option<Seq<char>>,
}

impl View for PlannedSheet {
    type V = PlannedSheetView;

    open spec fn view(&self) -> PlannedSheetView {
        PlannedSheetView {
            sheet: self.sheet@,
            file: self.file@,
            document: match self.document {
                Some(d) => Some(d@),
                None => None,
            },
        }
    }
}

/// The plans of `v` as mathematical values.
pub open spec fn planned_sheet_views(v: Seq<PlannedSheet>) -> Seq<PlannedSheetView> {
    Seq::new(v.len(), |i: int| v[i]@)
}

/// What a run plans: one entry for each sheet, in the order of the
/// workbook, and the snapshot to keep for the next run.
#[derive(Debug, PartialEq, Eq)]
pub struct Plan {
    pub sheets: Vec<PlannedSheet>,
    pub snapshot: Snapshot,
}

/// A plan as a mathematical value.
pub struct PlanView {
    pub sheets: Seq<PlannedSheetView>,
    pub snapshot: SnapshotView,
}

impl View for Plan {
    type V = PlanView;

    open spec fn view(&self) -> PlanView {
        PlanView { sheets: planned_sheet_views(self.sheets@), snapshot: self.snapshot@ }
    }
}

/// The records of the first `n` sheets, or the first sheet with a cell that
/// ends the run, and that cell.
pub open spec fn mapped_sheets(c: ConfigView, sheets: Seq<SheetView>, n: int) -> Result<
    Seq<Seq<RecordView>>,
    (int, CoercionFailure),
>
    decreases n,
{
    if n <= 0 {
        Ok(Seq::empty())
    } else {
        match mapped_sheets(c, sheets, n - 1) {
            Err(e) => Err(e),
            Ok(done) => match mapped_sheet(sheets[n - 1].rows, c) {
                Err(f) => Err((n - 1, f)),
                Ok(records) => Ok(done.push(records)),
            },
        }
    }
}

/// What is planned for a sheet with the given records: its document, or no
/// document where the sheet is as the run before left it.
pub open spec fn planned_sheet(
    c: ConfigView,
    previous: Option<SnapshotView>,
    name: Seq<char>,
    records: Seq<RecordView>,
) -> PlannedSheetView {
    PlannedSheetView {
        sheet: name,
        file: file_name(name),
        document: if is_unchanged(previous, c, name, records) {
            None
        } else {
            Some(document_text(c, records))
        },
    }
}

/// The entries that a run keeps for sheets that gave the records `mapped`.
pub open spec fn kept(sheets: Seq<SheetView>, mapped: Seq<Seq<RecordView>>) -> Seq<
    SheetSnapshotView,
> {
    Seq::new(
        sheets.len(),
        |i: int| SheetSnapshotView { name: sheets[i].name, records: mapped[i] },
    )
}

/// What is planned for sheets of which the run holds the entries `entries`.
pub open spec fn planned_from(
    c: ConfigView,
    entries: Seq<SheetSnapshotView>,
    previous: Option<SnapshotView>,
) -> PlanView {
    PlanView {
        sheets: Seq::new(
            entries.len(),
            |i: int| planned_sheet(c, previous, entries[i].name, entries[i].records),
        ),
        snapshot: SnapshotView { config: c, sheets: entries },
    }
}

/// What is planned for a workbook whose sheets gave the records `mapped`.
pub open spec fn planned(
    c: ConfigView,
    sheets: Seq<SheetView>,
    mapped: Seq<Seq<RecordView>>,
    previous: Option<SnapshotView>,
) -> PlanView {
    planned_from(c, kept(sheets, mapped), previous)
}

/// What the mapping of a workbook gives: an entry for each sheet, or the
/// failure of the run.
pub open spec fn mapped_workbook(c: ConfigView, sheets: Seq<SheetView>) -> Result<
    Seq<SheetSnapshotView>,
    ConversionFailure,
> {
    match mapped_sheets(c, sheets, sheets.len() as int) {
        Err((i, f)) => Err(ConversionFailure::Coercion { sheet: sheets[i].name, error: f }),
        Ok(mapped) => Ok(kept(sheets, mapped)),
    }
}

/// What a run gives for a configuration text, the sheets of a workbook and
/// the snapshot of the run before, if there is one.
pub open spec fn conversion(
    text: Seq<char>,
    sheets: Seq<SheetView>,
    previous: Option<SnapshotView>,
) -> Result<PlanView, ConversionFailure> {
    match parse_config(text) {
        Err(e) => Err(ConversionFailure::Config(e)),
        Ok(c) => match mapped_workbook(c, sheets) {
            Err(e) => Err(e),
            Ok(entries) => Ok(planned_from(c, entries, previous)),
        },
    }
}

/// The snapshot behind a reference that may be missing.
pub open spec fn snapshot_view(previous: Option<&Snapshot>) -> Option<SnapshotView> {
    match previous {
        Some(p) => Some(p@),
        None => None,
    }
}

/// Once a sheet has ended the run, the sheets after it change nothing.
pub proof fn lemma_mapped_sheets_failed(c: ConfigView, sheets: Seq<SheetView>, at: int, n: int)
    requires
        at <= n,
        mapped_sheets(c, sheets, at) is Err,
    ensures
        mapped_sheets(c, sheets, n) == mapped_sheets(c, sheets, at),
    decreases n - at,
{
    if at < n {
        lemma_mapped_sheets_failed(c, sheets, at, n - 1);
    }
}

/// Where every one of the first `n` sheets has been mapped, there are `n`
/// lists of records, each the records of its sheet.
pub proof fn lemma_mapped_sheets_each(c: ConfigView, sheets: Seq<SheetView>, n: int)
    requires
        0 <= n,
        mapped_sheets(c, sheets, n) is Ok,
    ensures
        mapped_sheets(c, sheets, n)->Ok_0.len() == n,
        forall|k: int|
            0 <= k < n ==> mapped_sheet(#[trigger] sheets[k].rows, c) == Ok::<
                Seq<RecordView>,
                CoercionFailure,
            >(mapped_sheets(c, sheets, n)->Ok_0[k]),
    decreases n,
{
    if n > 0 {
        lemma_mapped_sheets_each(c, sheets, n - 1);
    }
}

/// Maps every sheet of a workbook, in the order of the workbook, and ends
/// with the first cell that ends the run.
pub fn map_workbook(cfg: &Configuration, workbook: &Workbook) -> (r: Result<
    Vec<SheetSnapshot>,
    ConversionError,
>)
    ensures
        match r {
            Ok(entries) => mapped_workbook(cfg@, workbook@) == Ok::<
                Seq<SheetSnapshotView>,
                ConversionFailure,
            >(sheet_snapshot_views(entries@)),
            Err(e) => mapped_workbook(cfg@, workbook@) == Err::<
                Seq<SheetSnapshotView>,
                ConversionFailure,
            >(e@),
        },
{
    let ghost c = cfg@;
    let sheets = workbook.sheets();
    let ghost views = sheet_views(sheets@);
    let mut entries: Vec<SheetSnapshot> = Vec::new();
    let ghost mut mapped: Seq<Seq<RecordView>> = Seq::empty();
    let mut i: usize = 0;
    while i < sheets.len()
        invariant
            i <= sheets.len(),
            c == cfg@,
            views == sheet_views(sheets@),
            views == workbook@,
            entries.len() == i,
            mapped.len() == i,
            mapped_sheets(c, views, i as int) == Ok::<
                Seq<Seq<RecordView>>,
                (int, CoercionFailure),
            >(mapped),
            forall|k: int|
                0 <= k < i ==> (#[trigger] entries[k])@ == (SheetSnapshotView {
                    name: views[k].name,
                    records: mapped[k],
                }),
        decreases sheets.len() - i,
    {
        let sheet = &sheets[i];
        assert(views[i as int] == sheet@);
        let records = match map_sheet(&sheet.rows, cfg) {
            Err(error) => {
                proof {
                    lemma_mapped_sheets_failed(c, views, i + 1, sheets.len() as int);
                }
                return Err(ConversionError::Coercion { sheet: sheet.name.clone(), error });
            },
            Ok(records) => records,
        };
        proof {
            mapped = mapped.push(record_views(records@));
        }
        entries.push(SheetSnapshot { name: sheet.name.clone(), records });
        i += 1;
    }
    proof {
        assert(sheet_snapshot_views(entries@) =~= kept(views, mapped));
    }
    Ok(entries)
}

/// Plans the files of a run from what the mapping gave: for every sheet its
/// document, or none where the sheet is as the run before left it.
pub fn plan_documents(
    cfg: Configuration,
    entries: Vec<SheetSnapshot>,
    previous: Option<&Snapshot>,
) -> (plan: Plan)
    ensures
        plan@ == planned_from(cfg@, sheet_snapshot_views(entries@), snapshot_view(previous)),
{
    let ghost c = cfg@;
    let ghost before = snapshot_view(previous);
    let ghost views = sheet_snapshot_views(entries@);
    let mut planned_sheets: Vec<PlannedSheet> = Vec::new();
    let mut i: usize = 0;
    while i < entries.len()
        invariant
            i <= entries.len(),
            c == cfg@,
            before == snapshot_view(previous),
            views == sheet_snapshot_views(entries@),
            planned_sheets.len() == i,
            forall|k: int|
                0 <= k < i ==> (#[trigger] planned_sheets[k])@ == planned_sheet(
                    c,
                    before,
                    views[k].name,
                    views[k].records,
                ),
        decreases entries.len() - i,
    {
        let entry = &entries[i];
        assert(views[i as int] == entry@);
        let document = if unchanged_since(previous, &cfg, entry.name.as_str(), &entry.records) {
            None
        } else {
            Some(render_document(&entry.records, &cfg))
        };
        planned_sheets.push(
            PlannedSheet {
                sheet: entry.name.clone(),
                file: file_name_of(entry.name.as_str()),
                document,
            },
        );
        i += 1;
    }
    let plan = Plan {
        sheets: planned_sheets,
        snapshot: Snapshot { config: cfg, sheets: entries },
    };
    proof {
        assert(plan@.sheets =~= planned_from(c, views, before).sheets);
    }
    plan
}

/// Runs a conversion: reads the configuration, maps every sheet and plans
/// its file.
fn convert(cfg_json: &str, workbook: &Workbook, previous: Option<&Snapshot>) -> (r: Result<
    Plan,
    ConversionError,
>)
    ensures
        match r {
            Ok(plan) => conversion(cfg_json@, workbook@, snapshot_view(previous)) == Ok::<
                PlanView,
                ConversionFailure,
            >(plan@),
            Err(e) => conversion(cfg_json@, workbook@, snapshot_view(previous)) == Err::<
                PlanView,
                ConversionFailure,
            >(e@),
        },
{
    let cfg = match parse(cfg_json) {
        Err(e) => {
            return Err(ConversionError::Config(e));
        },
        Ok(c) => c,
    };
    match map_workbook(&cfg, workbook) {
        Err(e) => Err(e),
        Ok(entries) => Ok(plan_documents(cfg, entries, previous)),
    }
}

/// The full update: plans a document for every sheet of the workbook,
/// whatever an earlier run has left.
///
/// It fails with `Config` where the configuration text is refused, and with
/// `Coercion` for the first cell that ends the run.
pub fn update(cfg_json: &str, workbook: &Workbook) -> (r: Result<Plan, ConversionError>)
    ensures
        match r {
            Ok(plan) => conversion(cfg_json@, workbook@, None) == Ok::<
                PlanView,
                ConversionFailure,
            >(plan@),
            Err(e) => conversion(cfg_json@, workbook@, None) == Err::<
                PlanView,
                ConversionFailure,
            >(e@),
        },
{
    convert(cfg_json, workbook, None)
}

/// The quick update: plans a document for every sheet that is not as the
/// run before left it, and none for the others. Without a snapshot of the
/// run before it plans what the full update plans.
///
/// It fails where the full update fails.
pub fn quick_update(cfg_json: &str, workbook: &Workbook, previous: Option<&Snapshot>) -> (r:
    Result<Plan, ConversionError>)
    ensures
        match r {
            Ok(plan) => conversion(cfg_json@, workbook@, snapshot_view(previous)) == Ok::<
                PlanView,
                ConversionFailure,
            >(plan@),
            Err(e) => conversion(cfg_json@, workbook@, snapshot_view(previous)) == Err::<
                PlanView,
                ConversionFailure,
            >(e@),
        },
{
    convert(cfg_json, workbook, previous)
}

} // verus!
