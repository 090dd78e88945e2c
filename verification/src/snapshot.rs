//! The snapshot of a run: what the run made of every sheet, kept so that the
//! next run can tell which sheets have changed.

use vstd::prelude::*;
use crate::config::{ConfigView, Configuration};
use crate::config_text::serialize;
use crate::mapping::{Field, Record, RecordView, field_views, record_views};
use crate::text::is_text;

verus! {

/// The records that a run made of one sheet.
#[derive(Debug, PartialEq, Eq)]
pub struct SheetSnapshot {
    pub name: String,
    pub records: Vec<Record>,
}

/// The snapshot of a sheet as a mathematical value.
pub struct SheetSnapshotView {
    pub name: Seq<char>,
    pub records: Seq<RecordView>,
}

impl View for SheetSnapshot {
    type V = SheetSnapshotView;

    open spec fn view(&self) -> SheetSnapshotView {
        SheetSnapshotView { name: self.name@, records: record_views(self.records@) }
    }
}

/// The snapshots of `v` as mathematical values.
pub open spec fn sheet_snapshot_views(v: Seq<SheetSnapshot>) -> Seq<SheetSnapshotView> {
    Seq::new(v.len(), |i: int| v[i]@)
}

/// The configuration of a run and the records that it made of every sheet.
#[derive(Debug, PartialEq, Eq)]
pub struct Snapshot {
    pub config: Configuration,
    pub sheets: Vec<SheetSnapshot>,
}

/// A snapshot as a mathematical value.
pub struct SnapshotView {
    pub config: ConfigView,
    pub sheets: Seq<SheetSnapshotView>,
}

impl View for Snapshot {
    type V = SnapshotView;

    open spec fn view(&self) -> SnapshotView {
        SnapshotView { config: self.config@, sheets: sheet_snapshot_views(self.sheets@) }
    }
}

/// The records that the snapshot holds for the first of `sheets[from..]`
/// that is called `name`.
pub open spec fn recorded(sheets: Seq<SheetSnapshotView>, name: Seq<char>, from: int) -> Option<
    Seq<RecordView>,
>
    decreases sheets.len() - from,
{
    if from < 0 || from >= sheets.len() {
        None
    } else if sheets[from].name == name {
        Some(sheets[from].records)
    } else {
        recorded(sheets, name, from + 1)
    }
}

/// Whether a sheet is as the run before left it: there is a snapshot, it was
/// made under the same configuration, and it holds the same records for the
/// sheet's name.
pub open spec fn is_unchanged(
    previous: Option<SnapshotView>,
    c: ConfigView,
    name: Seq<char>,
    records: Seq<RecordView>,
) -> bool {
    match previous {
        None => false,
        Some(p) => p.config == c && recorded(p.sheets, name, 0) == Some(records),
    }
}

/// Whether two fields are equal.
pub fn same_field(a: &Field, b: &Field) -> (same: bool)
    ensures
        same == (a@ == b@),
{
    a.name == b.name && a.value == b.value
}

/// Whether two records are equal: they come from the same row and have the
/// same fields.
pub fn same_record(a: &Record, b: &Record) -> (same: bool)
    ensures
        same == (a@ == b@),
{
    if a.row != b.row || a.fields.len() != b.fields.len() {
        proof {
            assert(a@.fields.len() == a.fields.len() && b@.fields.len() == b.fields.len());
        }
        return false;
    }
    let mut i: usize = 0;
    while i < a.fields.len()
        invariant
            i <= a.fields.len(),
            a.fields.len() == b.fields.len(),
            a.row == b.row,
            forall|k: int| 0 <= k < i ==> a.fields[k]@ == b.fields[k]@,
        decreases a.fields.len() - i,
    {
        if !same_field(&a.fields[i], &b.fields[i]) {
            proof {
                assert(a@.fields[i as int] == a.fields[i as int]@);
                assert(b@.fields[i as int] == b.fields[i as int]@);
            }
            return false;
        }
        i += 1;
    }
    proof {
        assert(field_views(a.fields@) =~= field_views(b.fields@));
    }
    true
}

/// Whether two lists of records are equal.
pub fn same_records(a: &Vec<Record>, b: &Vec<Record>) -> (same: bool)
    ensures
        same == (record_views(a@) == record_views(b@)),
{
    if a.len() != b.len() {
        proof {
            assert(record_views(a@).len() == a.len() && record_views(b@).len() == b.len());
        }
        return false;
    }
    let mut i: usize = 0;
    while i < a.len()
        invariant
            i <= a.len(),
            a.len() == b.len(),
            forall|k: int| 0 <= k < i ==> a[k]@ == b[k]@,
        decreases a.len() - i,
    {
        if !same_record(&a[i], &b[i]) {
            proof {
                assert(record_views(a@)[i as int] == a[i as int]@);
                assert(record_views(b@)[i as int] == b[i as int]@);
            }
            return false;
        }
        i += 1;
    }
    proof {
        assert(record_views(a@) =~= record_views(b@));
    }
    true
}

/// Whether two configurations are equal. They are equal exactly where their
/// texts are.
pub fn same_configuration(a: &Configuration, b: &Configuration) -> (same: bool)
    ensures
        same == (a@ == b@),
{
    let text_a = serialize(a);
    let text_b = serialize(b);
    text_a == text_b
}

/// The records that `sheets` holds for the first sheet called `name`.
pub fn find_recorded<'a>(sheets: &'a Vec<SheetSnapshot>, name: &str) -> (r: Option<
    &'a Vec<Record>,
>)
    ensures
        match r {
            Some(records) => recorded(sheet_snapshot_views(sheets@), name@, 0) == Some(
                record_views(records@),
            ),
            None => recorded(sheet_snapshot_views(sheets@), name@, 0) is None,
        },
{
    let ghost views = sheet_snapshot_views(sheets@);
    let mut i: usize = 0;
    while i < sheets.len()
        invariant
            i <= sheets.len(),
            views == sheet_snapshot_views(sheets@),
            recorded(views, name@, 0) == recorded(views, name@, i as int),
        decreases sheets.len() - i,
    {
        assert(views[i as int] == sheets[i as int]@);
        if is_text(&sheets[i].name, name) {
            return Some(&sheets[i].records);
        }
        i += 1;
    }
    None
}

/// Whether the sheet called `name`, with the records `records` under the
/// configuration `cfg`, is as the run before left it.
pub fn unchanged_since(
    previous: Option<&Snapshot>,
    cfg: &Configuration,
    name: &str,
    records: &Vec<Record>,
) -> (same: bool)
    ensures
        same == is_unchanged(
            match previous {
                Some(p) => Some(p@),
                None => None,
            },
            cfg@,
            name@,
            record_views(records@),
        ),
{
    match previous {
        None => false,
        Some(p) => {
            if !same_configuration(&p.config, cfg) {
                return false;
            }
            match find_recorded(&p.sheets, name) {
                None => false,
                Some(old) => same_records(old, records),
            }
        },
    }
}

} // verus!
