//! What the quick update writes, held against the full update.

use vstd::prelude::*;
use crate::config_text::parse_config;
use crate::mapping::{CoercionFailure, RecordView, mapped_sheet};
use crate::snapshot::{SheetSnapshotView, SnapshotView, is_unchanged, recorded};
use crate::update::{conversion, kept, lemma_mapped_sheets_each, mapped_sheets};
use crate::workbook::{SheetView, names_unique};
use crate::naming::{file_name, lemma_every_sheet_has_its_own_file};
use crate::xml::document_text;

verus! {

/// The sheets of two workbooks are equal one by one.
pub open spec fn same_sheets(a: Seq<SheetView>, b: Seq<SheetView>) -> bool {
    &&& a.len() == b.len()
    &&& forall|i: int|
        0 <= i < a.len() ==> (#[trigger] a[i]).name == b[i].name && a[i].rows == b[i].rows
}

/// Two full updates with the same configuration text, of workbooks whose
/// sheets are equal one by one, plan the same files with the same documents,
/// character for character.
pub proof fn lemma_update_is_deterministic(
    text: Seq<char>,
    first: Seq<SheetView>,
    second: Seq<SheetView>,
)
    requires
        same_sheets(first, second),
    ensures
        conversion(text, first, None) == conversion(text, second, None),
{
    assert(first =~= second);
}

/// A full update that succeeds plans, for every sheet, the file named after
/// the sheet and the document of its records.
pub proof fn lemma_update_writes_every_sheet(text: Seq<char>, sheets: Seq<SheetView>, i: int)
    requires
        conversion(text, sheets, None) is Ok,
        0 <= i < sheets.len(),
    ensures
        ({
            let c = parse_config(text)->Ok_0;
            let plan = conversion(text, sheets, None)->Ok_0;
            &&& plan.sheets.len() == sheets.len()
            &&& mapped_sheet(sheets[i].rows, c) is Ok
            &&& plan.sheets[i].sheet == sheets[i].name
            &&& plan.sheets[i].file == file_name(sheets[i].name)
            &&& plan.sheets[i].document == Some(
                document_text(c, mapped_sheet(sheets[i].rows, c)->Ok_0),
            )
        }),
{
    let c = parse_config(text)->Ok_0;
    lemma_mapped_sheets_each(c, sheets, sheets.len() as int);
}

/// A run plans a file of its own for every sheet: no document is written
/// over another.
pub proof fn lemma_planned_files_differ(
    text: Seq<char>,
    sheets: Seq<SheetView>,
    previous: Option<SnapshotView>,
)
    requires
        names_unique(sheets),
        conversion(text, sheets, previous) is Ok,
    ensures
        ({
            let plan = conversion(text, sheets, previous)->Ok_0;
            &&& plan.sheets.len() == sheets.len()
            &&& forall|i: int, j: int|
                0 <= i < j < sheets.len() ==> (#[trigger] plan.sheets[i]).file != (
                #[trigger] plan.sheets[j]).file
        }),
{
    let plan = conversion(text, sheets, previous)->Ok_0;
    lemma_every_sheet_has_its_own_file(sheets);
    assert forall|i: int, j: int| 0 <= i < j < sheets.len() implies (
    #[trigger] plan.sheets[i]).file != (#[trigger] plan.sheets[j]).file by {
        assert(plan.sheets[i].file == file_name(sheets[i].name));
        assert(plan.sheets[j].file == file_name(sheets[j].name));
    }
}

/// Where the names of the sheets are unique, the snapshot holds for the name
/// of each sheet the records of that sheet.
pub proof fn lemma_recorded_kept(
    sheets: Seq<SheetView>,
    mapped: Seq<Seq<RecordView>>,
    i: int,
    from: int,
)
    requires
        names_unique(sheets),
        0 <= from <= i < sheets.len(),
    ensures
        recorded(kept(sheets, mapped), sheets[i].name, from) == Some(mapped[i]),
    decreases i - from,
{
    if from < i {
        assert(sheets[from].name != sheets[i].name);
        lemma_recorded_kept(sheets, mapped, i, from + 1);
    }
}

/// What the snapshot holds for a name, it holds in an entry of that name.
pub proof fn lemma_recorded_found(
    entries: Seq<SheetSnapshotView>,
    name: Seq<char>,
    from: int,
) -> (k: int)
    requires
        0 <= from,
        recorded(entries, name, from) is Some,
    ensures
        from <= k < entries.len(),
        entries[k].name == name,
        recorded(entries, name, from) == Some(entries[k].records),
    decreases entries.len() - from,
{
    if entries[from].name == name {
        from
    } else {
        lemma_recorded_found(entries, name, from + 1)
    }
}

/// A quick update right after a full update of the same workbook, with the
/// same configuration text, writes nothing: it plans no document for any
/// sheet, and keeps the snapshot as it is.
pub proof fn lemma_quick_update_after_update_writes_nothing(
    text: Seq<char>,
    sheets: Seq<SheetView>,
)
    requires
        names_unique(sheets),
        conversion(text, sheets, None) is Ok,
    ensures
        ({
            let first = conversion(text, sheets, None)->Ok_0;
            let second = conversion(text, sheets, Some(first.snapshot));
            &&& second is Ok
            &&& second->Ok_0.snapshot == first.snapshot
            &&& second->Ok_0.sheets.len() == sheets.len()
            &&& forall|i: int|
                0 <= i < sheets.len() ==> (#[trigger] second->Ok_0.sheets[i]).document is None
        }),
{
    let c = parse_config(text)->Ok_0;
    let mapped = mapped_sheets(c, sheets, sheets.len() as int)->Ok_0;
    let first = conversion(text, sheets, None)->Ok_0;
    let second = conversion(text, sheets, Some(first.snapshot))->Ok_0;
    assert(first.snapshot.sheets =~= kept(sheets, mapped));
    assert forall|i: int| 0 <= i < sheets.len() implies (#[trigger] second.sheets[i]).document
        is None by {
        lemma_recorded_kept(sheets, mapped, i, 0);
        assert(is_unchanged(Some(first.snapshot), c, sheets[i].name, mapped[i]));
    }
    assert(second.snapshot.sheets =~= first.snapshot.sheets);
}

/// A quick update after a full update, with the same configuration text,
/// leaves the file of a sheet as it is exactly where the workbook of the
/// full update had a sheet of the same name that gave the same records.
/// For every other sheet it plans the document of the sheet's records.
pub proof fn lemma_quick_update_writes_what_changed(
    text: Seq<char>,
    before: Seq<SheetView>,
    after: Seq<SheetView>,
    i: int,
)
    requires
        names_unique(before),
        conversion(text, before, None) is Ok,
        conversion(text, after, Some(conversion(text, before, None)->Ok_0.snapshot)) is Ok,
        0 <= i < after.len(),
    ensures
        ({
            let c = parse_config(text)->Ok_0;
            let first = conversion(text, before, None)->Ok_0;
            let second = conversion(text, after, Some(first.snapshot))->Ok_0;
            let same = exists|j: int|
                0 <= j < before.len() && (#[trigger] before[j]).name == after[i].name
                    && mapped_sheet(before[j].rows, c) == mapped_sheet(after[i].rows, c);
            &&& mapped_sheet(after[i].rows, c) is Ok
            &&& second.sheets[i].document == if same {
                None
            } else {
                Some(document_text(c, mapped_sheet(after[i].rows, c)->Ok_0))
            }
        }),
{
    let c = parse_config(text)->Ok_0;
    let old = mapped_sheets(c, before, before.len() as int)->Ok_0;
    let new = mapped_sheets(c, after, after.len() as int)->Ok_0;
    let first = conversion(text, before, None)->Ok_0;
    let second = conversion(text, after, Some(first.snapshot))->Ok_0;
    lemma_mapped_sheets_each(c, before, before.len() as int);
    lemma_mapped_sheets_each(c, after, after.len() as int);
    assert(first.snapshot.sheets =~= kept(before, old));
    let entries = kept(before, old);
    let same = exists|j: int|
        0 <= j < before.len() && (#[trigger] before[j]).name == after[i].name && mapped_sheet(
            before[j].rows,
            c,
        ) == mapped_sheet(after[i].rows, c);
    assert(mapped_sheet(after[i].rows, c) == Ok::<Seq<RecordView>, CoercionFailure>(new[i]));
    if same {
        let j = choose|j: int|
            0 <= j < before.len() && (#[trigger] before[j]).name == after[i].name && mapped_sheet(
                before[j].rows,
                c,
            ) == mapped_sheet(after[i].rows, c);
        lemma_recorded_kept(before, old, j, 0);
        assert(mapped_sheet(before[j].rows, c) == Ok::<Seq<RecordView>, CoercionFailure>(old[j]));
        assert(old[j] == new[i]);
        assert(is_unchanged(Some(first.snapshot), c, after[i].name, new[i]));
    } else {
        if recorded(entries, after[i].name, 0) == Some(new[i]) {
            let k = lemma_recorded_found(entries, after[i].name, 0);
            assert(mapped_sheet(before[k].rows, c) == Ok::<Seq<RecordView>, CoercionFailure>(
                old[k],
            ));
            assert(before[k].name == after[i].name);
            assert(false);
        }
        assert(!is_unchanged(Some(first.snapshot), c, after[i].name, new[i]));
    }
}

/// Where one sheet of a workbook has been changed and every other sheet is
/// as it was, a quick update after a full update plans no document for the
/// other sheets. For the changed sheet it plans a document exactly where
/// the sheet no longer gives the records that it gave.
pub proof fn lemma_quick_update_after_one_change(
    text: Seq<char>,
    before: Seq<SheetView>,
    after: Seq<SheetView>,
    changed: int,
)
    requires
        names_unique(before),
        before.len() == after.len(),
        0 <= changed < before.len(),
        before[changed].name == after[changed].name,
        forall|i: int| 0 <= i < before.len() && i != changed ==> before[i] == after[i],
        conversion(text, before, None) is Ok,
        conversion(text, after, Some(conversion(text, before, None)->Ok_0.snapshot)) is Ok,
    ensures
        ({
            let c = parse_config(text)->Ok_0;
            let first = conversion(text, before, None)->Ok_0;
            let second = conversion(text, after, Some(first.snapshot))->Ok_0;
            &&& forall|i: int|
                0 <= i < after.len() && i != changed ==> (#[trigger] second.sheets[i]).document
                    is None
            &&& second.sheets[changed].document is None <==> mapped_sheet(
                before[changed].rows,
                c,
            ) == mapped_sheet(after[changed].rows, c)
        }),
{
    let c = parse_config(text)->Ok_0;
    let first = conversion(text, before, None)->Ok_0;
    let second = conversion(text, after, Some(first.snapshot))->Ok_0;
    assert forall|i: int| 0 <= i < after.len() && i != changed implies (
    #[trigger] second.sheets[i]).document is None by {
        lemma_quick_update_writes_what_changed(text, before, after, i);
        assert(before[i].name == after[i].name && mapped_sheet(before[i].rows, c)
            == mapped_sheet(after[i].rows, c));
    }
    lemma_quick_update_writes_what_changed(text, before, after, changed);
    if mapped_sheet(before[changed].rows, c) == mapped_sheet(after[changed].rows, c) {
        assert(before[changed].name == after[changed].name);
    } else {
        assert forall|j: int|
            0 <= j < before.len() && (#[trigger] before[j]).name
                == after[changed].name implies mapped_sheet(before[j].rows, c) != mapped_sheet(
            after[changed].rows,
            c,
        ) by {
            if j != changed {
                assert(before[j].name != before[changed].name);
            }
        }
    }
}

} // verus!
