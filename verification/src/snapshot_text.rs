//! The text form of a snapshot, in which it is kept between two runs.
//!
//! ```text
//! {"config":{..},"sheets":[{"name":"A","records":[[1,"name","Ada","age","36"]]}]}
//! ```
//!
//! A record is an array of its row and, for each field, the name and the
//! value. But for the configuration, which is read as any configuration is,
//! the text holds no blanks: a text that was not written by `encode` is
//! refused, and the run that reads it goes on without a snapshot.

use vstd::prelude::*;
use vstd::string::StringExecFns;
use crate::coerce::{is_digit, is_digit_char};
use crate::config::targets_unique;
use crate::config_text::{config_object, config_text, read_configuration, serialize};
use crate::json::{
    lemma_skip_more, lemma_skip_next, quoted, read_string, string_literal, write_quoted,
};
use crate::mapping::{Field, FieldView, Record, RecordView, field_views, record_views};
use crate::snapshot::{
    SheetSnapshot, SheetSnapshotView, Snapshot, SnapshotView, sheet_snapshot_views,
};
use crate::text::{
    chars_of, code_of, decimal, digits_value, lemma_decimal_is_digits,
    lemma_digits_value_of_decimal, write_decimal,
};

verus! {

/// What is left of `s` after the characters of `word`, with which it has to
/// start.
pub open spec fn expect(s: Seq<char>, word: Seq<char>) -> Option<Seq<char>> {
    if s.len() >= word.len() && s.take(word.len() as int) == word {
        Some(s.skip(word.len() as int))
    } else {
        None
    }
}

/// The number of digits that `s` starts with.
pub open spec fn digits_end(s: Seq<char>) -> int
    decreases s.len(),
{
    if s.len() > 0 && is_digit(s[0]) {
        1 + digits_end(s.skip(1))
    } else {
        0
    }
}

/// Reads the number that the digits at the start of `s` spell. It has to
/// fit the index of a row.
pub open spec fn number(s: Seq<char>) -> Option<(nat, Seq<char>)> {
    let n = digits_end(s);
    if n == 0 || digits_value(s.take(n)) > usize::MAX {
        None
    } else {
        Some((digits_value(s.take(n)), s.skip(n)))
    }
}

/// Reads the fields of a record, each after a comma as its name, a comma
/// and its value: `acc` holds the fields read so far.
#[verifier::opaque]
pub open spec fn field_pairs(s: Seq<char>, acc: Seq<FieldView>) -> Option<
    (Seq<FieldView>, Seq<char>),
>
    decreases s.len(),
{
    if s.len() > 0 && s[0] == ',' {
        match string_literal(s.skip(1)) {
            None => None,
            Some((name, r1)) => if r1.len() > 0 && r1[0] == ',' {
                match string_literal(r1.skip(1)) {
                    None => None,
                    Some((value, r2)) => if r2.len() < s.len() {
                        field_pairs(r2, acc.push(FieldView { name, value }))
                    } else {
                        None
                    },
                }
            } else {
                None
            },
        }
    } else {
        Some((acc, s))
    }
}

/// Reads a record at the start of `s`.
#[verifier::opaque]
pub open spec fn record_entry(s: Seq<char>) -> Option<(RecordView, Seq<char>)> {
    if s.len() > 0 && s[0] == '[' {
        match number(s.skip(1)) {
            None => None,
            Some((row, r1)) => match field_pairs(r1, Seq::empty()) {
                None => None,
                Some((fields, r2)) => if r2.len() > 0 && r2[0] == ']' {
                    Some((RecordView { row: row as int, fields }, r2.skip(1)))
                } else {
                    None
                },
            },
        }
    } else {
        None
    }
}

/// Reads the records of an array from the first one on, up to the closing
/// bracket: `acc` holds the records read so far.
#[verifier::opaque]
pub open spec fn record_entries(s: Seq<char>, acc: Seq<RecordView>) -> Option<
    (Seq<RecordView>, Seq<char>),
>
    decreases s.len(),
{
    match record_entry(s) {
        None => None,
        Some((r, r0)) => if r0.len() == 0 {
            None
        } else if r0[0] == ']' {
            Some((acc.push(r), r0.skip(1)))
        } else if r0[0] == ',' {
            if r0.skip(1).len() < s.len() {
                record_entries(r0.skip(1), acc.push(r))
            } else {
                None
            }
        } else {
            None
        },
    }
}

/// Reads what follows the opening bracket of an array of records.
pub open spec fn record_list(s: Seq<char>) -> Option<(Seq<RecordView>, Seq<char>)> {
    if s.len() > 0 && s[0] == ']' {
        Some((Seq::empty(), s.skip(1)))
    } else {
        record_entries(s, Seq::empty())
    }
}

/// Reads the snapshot of a sheet at the start of `s`.
#[verifier::opaque]
pub open spec fn sheet_entry(s: Seq<char>) -> Option<(SheetSnapshotView, Seq<char>)> {
    match expect(s, "{\"name\":"@) {
        None => None,
        Some(r0) => match string_literal(r0) {
            None => None,
            Some((name, r1)) => match expect(r1, ",\"records\":["@) {
                None => None,
                Some(r2) => match record_list(r2) {
                    None => None,
                    Some((records, r3)) => if r3.len() > 0 && r3[0] == '}' {
                        Some((SheetSnapshotView { name, records }, r3.skip(1)))
                    } else {
                        None
                    },
                },
            },
        },
    }
}

/// Reads the sheets of an array from the first one on, up to the closing
/// bracket: `acc` holds the sheets read so far.
#[verifier::opaque]
pub open spec fn sheet_entries(s: Seq<char>, acc: Seq<SheetSnapshotView>) -> Option<
    (Seq<SheetSnapshotView>, Seq<char>),
>
    decreases s.len(),
{
    match sheet_entry(s) {
        None => None,
        Some((r, r0)) => if r0.len() == 0 {
            None
        } else if r0[0] == ']' {
            Some((acc.push(r), r0.skip(1)))
        } else if r0[0] == ',' {
            if r0.skip(1).len() < s.len() {
                sheet_entries(r0.skip(1), acc.push(r))
            } else {
                None
            }
        } else {
            None
        },
    }
}

/// Reads what follows the opening bracket of an array of sheets.
pub open spec fn sheet_list(s: Seq<char>) -> Option<(Seq<SheetSnapshotView>, Seq<char>)> {
    if s.len() > 0 && s[0] == ']' {
        Some((Seq::empty(), s.skip(1)))
    } else {
        sheet_entries(s, Seq::empty())
    }
}

/// The snapshot that a text stands for, if it stands for one.
pub open spec fn decoded(text: Seq<char>) -> Option<SnapshotView> {
    match expect(text, "{\"config\":"@) {
        None => None,
        Some(r0) => match config_object(r0) {
            Err(_) => None,
            Ok((c, r1)) => match expect(r1, ",\"sheets\":["@) {
                None => None,
                Some(r2) => match sheet_list(r2) {
                    None => None,
                    Some((sheets, r3)) => if r3.len() == 1 && r3[0] == '}' && targets_unique(
                        c.mappings,
                    ) {
                        Some(SnapshotView { config: c, sheets })
                    } else {
                        None
                    },
                },
            },
        },
    }
}

/// What is written for one field of a record.
pub open spec fn pair_text(f: FieldView) -> Seq<char> {
    seq![','] + quoted(f.name) + seq![','] + quoted(f.value)
}

/// What is written for the fields of a record.
pub open spec fn pairs_text(fields: Seq<FieldView>) -> Seq<char>
    decreases fields.len(),
{
    if fields.len() == 0 {
        Seq::empty()
    } else {
        pair_text(fields[0]) + pairs_text(fields.skip(1))
    }
}

/// The array that is written for a record.
pub open spec fn record_entry_text(r: RecordView) -> Seq<char> {
    seq!['['] + decimal(r.row as nat) + pairs_text(r.fields) + seq![']']
}

/// The arrays of `records` with a comma between each two.
pub open spec fn record_entries_text(records: Seq<RecordView>) -> Seq<char>
    decreases records.len(),
{
    if records.len() == 0 {
        Seq::empty()
    } else if records.len() == 1 {
        record_entry_text(records[0])
    } else {
        record_entry_text(records[0]) + seq![','] + record_entries_text(records.skip(1))
    }
}

/// The object that is written for the snapshot of a sheet.
pub open spec fn sheet_entry_text(sheet: SheetSnapshotView) -> Seq<char> {
    "{\"name\":"@ + quoted(sheet.name) + ",\"records\":["@ + record_entries_text(sheet.records)
        + seq![']', '}']
}

/// The objects of `sheets` with a comma between each two.
pub open spec fn sheet_entries_text(sheets: Seq<SheetSnapshotView>) -> Seq<char>
    decreases sheets.len(),
{
    if sheets.len() == 0 {
        Seq::empty()
    } else if sheets.len() == 1 {
        sheet_entry_text(sheets[0])
    } else {
        sheet_entry_text(sheets[0]) + seq![','] + sheet_entries_text(sheets.skip(1))
    }
}

/// The text that is written for a snapshot.
pub open spec fn snapshot_text(s: SnapshotView) -> Seq<char> {
    "{\"config\":"@ + config_text(s.config) + ",\"sheets\":["@ + sheet_entries_text(s.sheets)
        + seq![']', '}']
}

/// Whether a snapshot can be written and read back: its configuration has
/// unique targets and the rows of its records are indices.
pub open spec fn can_be_kept(s: SnapshotView) -> bool {
    &&& s.config.valid()
    &&& forall|i: int, j: int|
        0 <= i < s.sheets.len() && 0 <= j < s.sheets[i].records.len() ==> 0 <= (
        #[trigger] s.sheets[i].records[j]).row <= usize::MAX
}

/// A word is read where the text starts with it.
pub proof fn lemma_expect_word(word: Seq<char>, rest: Seq<char>)
    ensures
        expect(word + rest, word) == Some(rest),
{
    assert((word + rest).take(word.len() as int) =~= word);
    assert((word + rest).skip(word.len() as int) =~= rest);
}

/// Digits are read up to the first character that is none.
pub proof fn lemma_digits_end_of_digits(ds: Seq<char>, rest: Seq<char>)
    requires
        forall|i: int| 0 <= i < ds.len() ==> is_digit(#[trigger] ds[i]),
        rest.len() == 0 || !is_digit(rest[0]),
    ensures
        digits_end(ds + rest) == ds.len(),
    decreases ds.len(),
{
    if ds.len() == 0 {
        assert(ds + rest =~= rest);
    } else {
        assert((ds + rest)[0] == ds[0]);
        assert((ds + rest).skip(1) =~= ds.skip(1) + rest);
        lemma_digits_end_of_digits(ds.skip(1), rest);
    }
}

/// A written number is read back, when no digit follows it.
pub proof fn lemma_number_of_decimal(n: nat, rest: Seq<char>)
    requires
        n <= usize::MAX,
        rest.len() == 0 || !is_digit(rest[0]),
    ensures
        number(decimal(n) + rest) == Some((n, rest)),
{
    let ds = decimal(n);
    lemma_decimal_is_digits(n);
    lemma_digits_end_of_digits(ds, rest);
    lemma_digits_value_of_decimal(n);
    assert((ds + rest).take(ds.len() as int) =~= ds);
    assert((ds + rest).skip(ds.len() as int) =~= rest);
}

/// The written fields with one more after them.
pub proof fn lemma_pairs_text_push(fields: Seq<FieldView>, f: FieldView)
    ensures
        pairs_text(fields.push(f)) == pairs_text(fields) + pair_text(f),
    decreases fields.len(),
{
    if fields.len() == 0 {
        assert(fields.push(f).skip(1) =~= Seq::<FieldView>::empty());
        assert(pairs_text(fields.push(f)) =~= pair_text(f) + pairs_text(Seq::empty()));
        assert(pairs_text(fields.push(f)) =~= pairs_text(fields) + pair_text(f));
    } else {
        assert(fields.push(f).skip(1) =~= fields.skip(1).push(f));
        lemma_pairs_text_push(fields.skip(1), f);
        assert(pairs_text(fields.push(f)) =~= pairs_text(fields) + pair_text(f));
    }
}

/// A comma, a text, a comma and a text, and what follows them.
proof fn lemma_shape_of_pair(a: Seq<char>, b: Seq<char>, more: Seq<char>)
    ensures
        seq![','] + a + seq![','] + b + more == seq![','] + (a + (seq![','] + (b + more))),
        (seq![','] + a + seq![','] + b + more).len() == a.len() + b.len() + more.len() + 2,
{
    assert(seq![','] + a + seq![','] + b + more =~= seq![','] + (a + (seq![','] + (b + more))));
}

/// One written field is read back and added to those read before.
pub proof fn lemma_field_pair_text(f: FieldView, more: Seq<char>, acc: Seq<FieldView>)
    ensures
        field_pairs(pair_text(f) + more, acc) == field_pairs(more, acc.push(f)),
{
    reveal(field_pairs);
    let s = pair_text(f) + more;
    let after_name = seq![','] + (quoted(f.value) + more);
    lemma_shape_of_pair(quoted(f.name), quoted(f.value), more);
    assert(s == seq![','] + (quoted(f.name) + after_name));
    assert(s[0] == ',');
    assert(s.skip(1) =~= quoted(f.name) + after_name);
    crate::json::lemma_string_literal_quoted(f.name, after_name);
    assert(after_name[0] == ',');
    assert(after_name.skip(1) =~= quoted(f.value) + more);
    crate::json::lemma_string_literal_quoted(f.value, more);
    assert(more.len() < s.len());
    assert(FieldView { name: f.name, value: f.value } == f);
}

/// Where no comma follows, the fields of a record have all been read.
pub proof fn lemma_field_pairs_end(rest: Seq<char>, acc: Seq<FieldView>)
    requires
        rest.len() == 0 || rest[0] != ',',
    ensures
        field_pairs(rest, acc) == Some((acc, rest)),
{
    reveal(field_pairs);
}

/// The written fields are read back and added to those read before.
pub proof fn lemma_field_pairs_text(fields: Seq<FieldView>, acc: Seq<FieldView>, rest: Seq<char>)
    requires
        rest.len() == 0 || rest[0] != ',',
    ensures
        field_pairs(pairs_text(fields) + rest, acc) == Some((acc + fields, rest)),
    decreases fields.len(),
{
    let s = pairs_text(fields) + rest;
    if fields.len() == 0 {
        assert(s =~= rest);
        assert(acc + fields =~= acc);
        lemma_field_pairs_end(rest, acc);
    } else {
        let f = fields[0];
        let more = pairs_text(fields.skip(1)) + rest;
        assert(s =~= pair_text(f) + more);
        lemma_field_pair_text(f, more, acc);
        lemma_field_pairs_text(fields.skip(1), acc.push(f), rest);
        assert(acc.push(f) + fields.skip(1) =~= acc + fields);
    }
}

/// What is written for fields and a bracket after them starts with no
/// digit.
pub proof fn lemma_pairs_text_starts(fields: Seq<FieldView>, rest: Seq<char>)
    requires
        rest.len() > 0,
        !is_digit(rest[0]),
    ensures
        (pairs_text(fields) + rest).len() > 0,
        !is_digit((pairs_text(fields) + rest)[0]),
{
    if fields.len() == 0 {
        assert(pairs_text(fields) + rest =~= rest);
    } else {
        assert((pairs_text(fields) + rest)[0] == ',');
    }
}

/// A written record is read back, whatever follows it.
pub proof fn lemma_record_entry_text(r: RecordView, rest: Seq<char>)
    requires
        0 <= r.row <= usize::MAX,
    ensures
        record_entry(record_entry_text(r) + rest) == Some((r, rest)),
{
    reveal(record_entry);
    let s = record_entry_text(r) + rest;
    let end = seq![']'] + rest;
    let after_row = pairs_text(r.fields) + end;
    assert(s =~= seq!['['] + (decimal(r.row as nat) + after_row));
    assert(s.skip(1) =~= decimal(r.row as nat) + after_row);
    lemma_pairs_text_starts(r.fields, end);
    lemma_number_of_decimal(r.row as nat, after_row);
    lemma_field_pairs_text(r.fields, Seq::empty(), end);
    assert(Seq::<FieldView>::empty() + r.fields =~= r.fields);
    assert(end.skip(1) =~= rest);
    assert(RecordView { row: r.row as nat as int, fields: r.fields } == r);
}

/// A written record is longer than what follows it.
pub proof fn lemma_record_entry_text_is_longer(r: RecordView, after: Seq<char>)
    ensures
        (record_entry_text(r) + after).len() >= after.len() + 2,
        (record_entry_text(r) + after)[0] == '[',
{
}

/// After the last record of an array comes its closing bracket.
pub proof fn lemma_record_entries_last(r: RecordView, rest: Seq<char>, acc: Seq<RecordView>)
    requires
        0 <= r.row <= usize::MAX,
    ensures
        record_entries(record_entry_text(r) + (seq![']'] + rest), acc) == Some(
            (acc.push(r), rest),
        ),
{
    reveal(record_entries);
    let end = seq![']'] + rest;
    lemma_record_entry_text(r, end);
    assert(end.skip(1) =~= rest);
}

/// After a record and a comma, the records that follow are read.
pub proof fn lemma_record_entries_more(r: RecordView, more: Seq<char>, acc: Seq<RecordView>)
    requires
        0 <= r.row <= usize::MAX,
    ensures
        record_entries(record_entry_text(r) + (seq![','] + more), acc) == record_entries(
            more,
            acc.push(r),
        ),
{
    reveal(record_entries);
    let tail = seq![','] + more;
    lemma_record_entry_text(r, tail);
    assert(tail.skip(1) =~= more);
    lemma_record_entry_text_is_longer(r, tail);
}

/// The written records are read back and added to those read before.
pub proof fn lemma_record_entries_text(
    records: Seq<RecordView>,
    acc: Seq<RecordView>,
    rest: Seq<char>,
)
    requires
        records.len() > 0,
        forall|i: int| 0 <= i < records.len() ==> 0 <= (#[trigger] records[i]).row <= usize::MAX,
    ensures
        record_entries(record_entries_text(records) + (seq![']'] + rest), acc) == Some(
            (acc + records, rest),
        ),
    decreases records.len(),
{
    let end = seq![']'] + rest;
    let s = record_entries_text(records) + end;
    if records.len() == 1 {
        lemma_record_entries_last(records[0], rest, acc);
        assert(acc.push(records[0]) =~= acc + records);
    } else {
        let more = record_entries_text(records.skip(1)) + end;
        assert(s =~= record_entry_text(records[0]) + (seq![','] + more));
        lemma_record_entries_more(records[0], more, acc);
        assert forall|i: int| 0 <= i < records.skip(1).len() implies 0 <= (
        #[trigger] records.skip(1)[i]).row <= usize::MAX by {
            assert(records.skip(1)[i] == records[i + 1]);
        }
        lemma_record_entries_text(records.skip(1), acc.push(records[0]), rest);
        assert(acc.push(records[0]) + records.skip(1) =~= acc + records);
    }
}

/// A written array of records is read back, from its first record on.
pub proof fn lemma_record_list_text(records: Seq<RecordView>, rest: Seq<char>)
    requires
        forall|i: int| 0 <= i < records.len() ==> 0 <= (#[trigger] records[i]).row <= usize::MAX,
    ensures
        record_list(record_entries_text(records) + (seq![']'] + rest)) == Some((records, rest)),
{
    let end = seq![']'] + rest;
    let s = record_entries_text(records) + end;
    if records.len() == 0 {
        assert(s =~= end);
        assert(end.skip(1) =~= rest);
        assert(records =~= Seq::<RecordView>::empty());
    } else {
        lemma_record_entry_text_is_longer(records[0], Seq::empty());
        if records.len() > 1 {
            lemma_record_entry_text_is_longer(
                records[0],
                seq![','] + record_entries_text(records.skip(1)),
            );
        }
        assert(s[0] == '[');
        lemma_record_entries_text(records, Seq::empty(), rest);
        assert(Seq::<RecordView>::empty() + records =~= records);
    }
}

/// Whether the rows of the records of a sheet are indices.
pub open spec fn rows_are_indices(sheet: SheetSnapshotView) -> bool {
    forall|j: int| 0 <= j < sheet.records.len() ==> 0 <= (#[trigger] sheet.records[j]).row
        <= usize::MAX
}

/// The parts of a written sheet, and what follows them.
proof fn lemma_shape_of_sheet(
    key: Seq<char>,
    name: Seq<char>,
    word: Seq<char>,
    records: Seq<char>,
    rest: Seq<char>,
)
    ensures
        key + name + word + records + seq![']', '}'] + rest == key + (name + (word + (records + (
            seq![']'] + (seq!['}'] + rest))))),
{
    assert(key + name + word + records + seq![']', '}'] + rest =~= key + (name + (word + (records
        + (seq![']'] + (seq!['}'] + rest))))));
}

/// A written sheet is read back, whatever follows it.
pub proof fn lemma_sheet_entry_text(sheet: SheetSnapshotView, rest: Seq<char>)
    requires
        rows_are_indices(sheet),
    ensures
        sheet_entry(sheet_entry_text(sheet) + rest) == Some((sheet, rest)),
{
    reveal(sheet_entry);
    let s = sheet_entry_text(sheet) + rest;
    let end = seq!['}'] + rest;
    let records = record_entries_text(sheet.records) + (seq![']'] + end);
    let after_name = ",\"records\":["@ + records;
    let after_key = quoted(sheet.name) + after_name;
    lemma_shape_of_sheet(
        "{\"name\":"@,
        quoted(sheet.name),
        ",\"records\":["@,
        record_entries_text(sheet.records),
        rest,
    );
    assert(s == "{\"name\":"@ + after_key);
    lemma_expect_word("{\"name\":"@, after_key);
    crate::json::lemma_string_literal_quoted(sheet.name, after_name);
    lemma_expect_word(",\"records\":["@, records);
    lemma_record_list_text(sheet.records, end);
    assert(end.skip(1) =~= rest);
    assert(SheetSnapshotView { name: sheet.name, records: sheet.records } == sheet);
}

/// A written sheet is longer than what follows it, and starts with a brace.
pub proof fn lemma_sheet_entry_text_is_longer(sheet: SheetSnapshotView, after: Seq<char>)
    ensures
        (sheet_entry_text(sheet) + after).len() >= after.len() + 2,
        (sheet_entry_text(sheet) + after)[0] == '{',
{
    reveal_strlit("{\"name\":");
}

/// After the last sheet of an array comes its closing bracket.
pub proof fn lemma_sheet_entries_last(
    sheet: SheetSnapshotView,
    rest: Seq<char>,
    acc: Seq<SheetSnapshotView>,
)
    requires
        rows_are_indices(sheet),
    ensures
        sheet_entries(sheet_entry_text(sheet) + (seq![']'] + rest), acc) == Some(
            (acc.push(sheet), rest),
        ),
{
    reveal(sheet_entries);
    let end = seq![']'] + rest;
    lemma_sheet_entry_text(sheet, end);
    assert(end.skip(1) =~= rest);
}

/// After a sheet and a comma, the sheets that follow are read.
pub proof fn lemma_sheet_entries_more(
    sheet: SheetSnapshotView,
    more: Seq<char>,
    acc: Seq<SheetSnapshotView>,
)
    requires
        rows_are_indices(sheet),
    ensures
        sheet_entries(sheet_entry_text(sheet) + (seq![','] + more), acc) == sheet_entries(
            more,
            acc.push(sheet),
        ),
{
    reveal(sheet_entries);
    let tail = seq![','] + more;
    lemma_sheet_entry_text(sheet, tail);
    assert(tail.skip(1) =~= more);
    lemma_sheet_entry_text_is_longer(sheet, tail);
}

/// The written sheets are read back and added to those read before.
pub proof fn lemma_sheet_entries_text(
    sheets: Seq<SheetSnapshotView>,
    acc: Seq<SheetSnapshotView>,
    rest: Seq<char>,
)
    requires
        sheets.len() > 0,
        forall|i: int| 0 <= i < sheets.len() ==> rows_are_indices(#[trigger] sheets[i]),
    ensures
        sheet_entries(sheet_entries_text(sheets) + (seq![']'] + rest), acc) == Some(
            (acc + sheets, rest),
        ),
    decreases sheets.len(),
{
    let end = seq![']'] + rest;
    let s = sheet_entries_text(sheets) + end;
    if sheets.len() == 1 {
        lemma_sheet_entries_last(sheets[0], rest, acc);
        assert(acc.push(sheets[0]) =~= acc + sheets);
    } else {
        let more = sheet_entries_text(sheets.skip(1)) + end;
        assert(s =~= sheet_entry_text(sheets[0]) + (seq![','] + more));
        lemma_sheet_entries_more(sheets[0], more, acc);
        assert forall|i: int| 0 <= i < sheets.skip(1).len() implies rows_are_indices(
            #[trigger] sheets.skip(1)[i],
        ) by {
            assert(sheets.skip(1)[i] == sheets[i + 1]);
        }
        lemma_sheet_entries_text(sheets.skip(1), acc.push(sheets[0]), rest);
        assert(acc.push(sheets[0]) + sheets.skip(1) =~= acc + sheets);
    }
}

/// A written array of sheets is read back, from its first sheet on.
pub proof fn lemma_sheet_list_text(sheets: Seq<SheetSnapshotView>, rest: Seq<char>)
    requires
        forall|i: int| 0 <= i < sheets.len() ==> rows_are_indices(#[trigger] sheets[i]),
    ensures
        sheet_list(sheet_entries_text(sheets) + (seq![']'] + rest)) == Some((sheets, rest)),
{
    let end = seq![']'] + rest;
    let s = sheet_entries_text(sheets) + end;
    if sheets.len() == 0 {
        assert(s =~= end);
        assert(end.skip(1) =~= rest);
        assert(sheets =~= Seq::<SheetSnapshotView>::empty());
    } else {
        lemma_sheet_entry_text_is_longer(sheets[0], Seq::empty());
        if sheets.len() > 1 {
            lemma_sheet_entry_text_is_longer(
                sheets[0],
                seq![','] + sheet_entries_text(sheets.skip(1)),
            );
        }
        assert(s[0] == '{');
        lemma_sheet_entries_text(sheets, Seq::empty(), rest);
        assert(Seq::<SheetSnapshotView>::empty() + sheets =~= sheets);
    }
}

/// Writing a snapshot and reading the text gives the snapshot back.
pub proof fn lemma_decode_written(s: SnapshotView)
    requires
        can_be_kept(s),
    ensures
        decoded(snapshot_text(s)) == Some(s),
{
    let text = snapshot_text(s);
    let end = seq!['}'];
    let sheets = sheet_entries_text(s.sheets) + (seq![']'] + end);
    let after_config = ",\"sheets\":["@ + sheets;
    let after_key = config_text(s.config) + after_config;
    lemma_shape_of_sheet(
        "{\"config\":"@,
        config_text(s.config),
        ",\"sheets\":["@,
        sheet_entries_text(s.sheets),
        Seq::empty(),
    );
    assert(seq!['}'] + Seq::<char>::empty() =~= end);
    assert(text + Seq::<char>::empty() =~= text);
    assert(text == "{\"config\":"@ + after_key);
    lemma_expect_word("{\"config\":"@, after_key);
    crate::round_trip::lemma_config_object_text(s.config, after_config);
    lemma_expect_word(",\"sheets\":["@, sheets);
    assert forall|i: int| 0 <= i < s.sheets.len() implies rows_are_indices(
        #[trigger] s.sheets[i],
    ) by {
        assert forall|j: int| 0 <= j < s.sheets[i].records.len() implies 0 <= (
        #[trigger] s.sheets[i].records[j]).row <= usize::MAX by {}
    }
    lemma_sheet_list_text(s.sheets, end);
    assert(SnapshotView { config: s.config, sheets: s.sheets } == s);
}

/// The written records with one more after them.
pub proof fn lemma_record_entries_text_push(records: Seq<RecordView>, r: RecordView)
    ensures
        record_entries_text(records.push(r)) == if records.len() == 0 {
            record_entry_text(r)
        } else {
            record_entries_text(records) + seq![','] + record_entry_text(r)
        },
    decreases records.len(),
{
    if records.len() == 0 {
    } else if records.len() == 1 {
        assert(records.push(r).skip(1) =~= seq![r]);
        assert(record_entries_text(seq![r]) == record_entry_text(r));
    } else {
        assert(records.push(r).skip(1) =~= records.skip(1).push(r));
        lemma_record_entries_text_push(records.skip(1), r);
        assert(record_entry_text(records[0]) + seq![','] + (record_entries_text(records.skip(1))
            + seq![','] + record_entry_text(r)) =~= record_entries_text(records) + seq![',']
            + record_entry_text(r));
    }
}

/// The written sheets with one more after them.
pub proof fn lemma_sheet_entries_text_push(sheets: Seq<SheetSnapshotView>, sheet: SheetSnapshotView)
    ensures
        sheet_entries_text(sheets.push(sheet)) == if sheets.len() == 0 {
            sheet_entry_text(sheet)
        } else {
            sheet_entries_text(sheets) + seq![','] + sheet_entry_text(sheet)
        },
    decreases sheets.len(),
{
    if sheets.len() == 0 {
    } else if sheets.len() == 1 {
        assert(sheets.push(sheet).skip(1) =~= seq![sheet]);
        assert(sheet_entries_text(seq![sheet]) == sheet_entry_text(sheet));
    } else {
        assert(sheets.push(sheet).skip(1) =~= sheets.skip(1).push(sheet));
        lemma_sheet_entries_text_push(sheets.skip(1), sheet);
        assert(sheet_entry_text(sheets[0]) + seq![','] + (sheet_entries_text(sheets.skip(1))
            + seq![','] + sheet_entry_text(sheet)) =~= sheet_entries_text(sheets) + seq![',']
            + sheet_entry_text(sheet));
    }
}

/// The digits that a text starts with are digits, and no more than the text
/// holds.
pub proof fn lemma_digits_end_bounds(s: Seq<char>)
    ensures
        0 <= digits_end(s) <= s.len(),
        forall|k: int| 0 <= k < digits_end(s) ==> is_digit(#[trigger] s[k]),
    decreases s.len(),
{
    if s.len() > 0 && is_digit(s[0]) {
        lemma_digits_end_bounds(s.skip(1));
        assert forall|k: int| 0 <= k < digits_end(s) implies is_digit(#[trigger] s[k]) by {
            if k > 0 {
                assert(s[k] == s.skip(1)[k - 1]);
            }
        }
    }
}

/// The first digits of a number spell no more than all of them.
pub proof fn lemma_digits_value_grows(ds: Seq<char>, k: int)
    requires
        0 <= k <= ds.len(),
        forall|i: int| 0 <= i < ds.len() ==> is_digit(#[trigger] ds[i]),
    ensures
        digits_value(ds.take(k)) <= digits_value(ds),
    decreases ds.len() - k,
{
    if k == ds.len() {
        assert(ds.take(k) =~= ds);
    } else {
        assert(ds.drop_last().take(k) =~= ds.take(k));
        lemma_digits_value_grows(ds.drop_last(), k);
        assert(is_digit(ds.last()));
    }
}

/// Appends what stands for the fields of a record.
fn write_pairs(out: &mut String, fields: &Vec<Field>)
    ensures
        final(out)@ == old(out)@ + pairs_text(field_views(fields@)),
{
    let ghost start = out@;
    let ghost views = field_views(fields@);
    proof {
        assert(out@ =~= start + pairs_text(views.take(0)));
    }
    let mut i: usize = 0;
    while i < fields.len()
        invariant
            i <= fields.len(),
            views == field_views(fields@),
            out@ == start + pairs_text(views.take(i as int)),
        decreases fields.len() - i,
    {
        let ghost before = out@;
        out.push(',');
        write_quoted(out, fields[i].name.as_str());
        out.push(',');
        write_quoted(out, fields[i].value.as_str());
        proof {
            assert(views[i as int] == fields[i as int]@);
            assert(out@ =~= before + pair_text(views[i as int]));
            lemma_pairs_text_push(views.take(i as int), views[i as int]);
            assert(views.take(i + 1) =~= views.take(i as int).push(views[i as int]));
        }
        i += 1;
    }
    proof {
        assert(views.take(fields.len() as int) =~= views);
    }
}

/// Appends the array that stands for `r`.
fn write_record_entry(out: &mut String, r: &Record)
    ensures
        final(out)@ == old(out)@ + record_entry_text(r@),
{
    let ghost start = out@;
    out.push('[');
    write_decimal(out, r.row as u64);
    write_pairs(out, &r.fields);
    out.push(']');
    proof {
        assert(out@ =~= start + record_entry_text(r@));
    }
}

/// Appends the arrays that stand for `records`, with commas between them.
fn write_record_entries(out: &mut String, records: &Vec<Record>)
    ensures
        final(out)@ == old(out)@ + record_entries_text(record_views(records@)),
{
    let ghost start = out@;
    let ghost views = record_views(records@);
    proof {
        assert(out@ =~= start + record_entries_text(views.take(0)));
    }
    let mut i: usize = 0;
    while i < records.len()
        invariant
            i <= records.len(),
            views == record_views(records@),
            out@ == start + record_entries_text(views.take(i as int)),
        decreases records.len() - i,
    {
        let ghost done = views.take(i as int);
        if i > 0 {
            out.push(',');
        }
        write_record_entry(out, &records[i]);
        proof {
            assert(views[i as int] == records[i as int]@);
            lemma_record_entries_text_push(done, views[i as int]);
            assert(views.take(i + 1) =~= done.push(views[i as int]));
            assert(out@ =~= start + record_entries_text(views.take(i + 1)));
        }
        i += 1;
    }
    proof {
        assert(views.take(records.len() as int) =~= views);
    }
}

/// Appends the object that stands for the snapshot of a sheet.
fn write_sheet_entry(out: &mut String, sheet: &SheetSnapshot)
    ensures
        final(out)@ == old(out)@ + sheet_entry_text(sheet@),
{
    let ghost start = out@;
    out.append("{\"name\":");
    write_quoted(out, sheet.name.as_str());
    out.append(",\"records\":[");
    write_record_entries(out, &sheet.records);
    out.push(']');
    out.push('}');
    proof {
        assert(out@ =~= start + sheet_entry_text(sheet@));
    }
}

/// Appends the objects that stand for `sheets`, with commas between them.
fn write_sheet_entries(out: &mut String, sheets: &Vec<SheetSnapshot>)
    ensures
        final(out)@ == old(out)@ + sheet_entries_text(sheet_snapshot_views(sheets@)),
{
    let ghost start = out@;
    let ghost views = sheet_snapshot_views(sheets@);
    proof {
        assert(out@ =~= start + sheet_entries_text(views.take(0)));
    }
    let mut i: usize = 0;
    while i < sheets.len()
        invariant
            i <= sheets.len(),
            views == sheet_snapshot_views(sheets@),
            out@ == start + sheet_entries_text(views.take(i as int)),
        decreases sheets.len() - i,
    {
        let ghost done = views.take(i as int);
        if i > 0 {
            out.push(',');
        }
        write_sheet_entry(out, &sheets[i]);
        proof {
            assert(views[i as int] == sheets[i as int]@);
            lemma_sheet_entries_text_push(done, views[i as int]);
            assert(views.take(i + 1) =~= done.push(views[i as int]));
            assert(out@ =~= start + sheet_entries_text(views.take(i + 1)));
        }
        i += 1;
    }
    proof {
        assert(views.take(sheets.len() as int) =~= views);
    }
}

/// The text of a snapshot. Reading it gives the snapshot back.
pub fn encode(snapshot: &Snapshot) -> (text: String)
    ensures
        text@ == snapshot_text(snapshot@),
        decoded(text@) == Some(snapshot@),
{
    let mut out = String::from_str("{\"config\":");
    let config = serialize(&snapshot.config);
    out.append(config.as_str());
    out.append(",\"sheets\":[");
    write_sheet_entries(&mut out, &snapshot.sheets);
    out.push(']');
    out.push('}');
    proof {
        let s = snapshot@;
        assert(out@ =~= snapshot_text(s));
        assert(s.config.valid()) by {
            assert(crate::config_text::parse_config(config@) is Ok);
        }
        assert forall|i: int, j: int|
            0 <= i < s.sheets.len() && 0 <= j < s.sheets[i].records.len() implies 0 <= (
        #[trigger] s.sheets[i].records[j]).row <= usize::MAX by {
            assert(s.sheets[i] == snapshot.sheets[i]@);
            assert(s.sheets[i].records[j] == snapshot.sheets[i].records[j]@);
        }
        lemma_decode_written(s);
    }
    out
}

/// Reads the characters of `word` at `i`.
fn expect_word(s: &Vec<char>, i: usize, word: &str) -> (r: Option<usize>)
    requires
        i <= s.len(),
    ensures
        match r {
            Some(j) => expect(s@.skip(i as int), word@) == Some(s@.skip(j as int)) && j == i
                + word@.len() && j <= s.len(),
            None => expect(s@.skip(i as int), word@) is None,
        },
{
    let w = chars_of(word);
    let ghost t = s@.skip(i as int);
    if s.len() - i < w.len() {
        return None;
    }
    let mut k: usize = 0;
    while k < w.len()
        invariant
            k <= w.len(),
            i + w.len() <= s.len(),
            w@ == word@,
            t == s@.skip(i as int),
            forall|m: int| 0 <= m < k ==> t[m] == w@[m],
        decreases w.len() - k,
    {
        if s[i + k] != w[k] {
            proof {
                assert(t.take(w.len() as int)[k as int] == t[k as int]);
            }
            return None;
        }
        k += 1;
    }
    proof {
        assert(t.take(w.len() as int) =~= word@);
        lemma_skip_more(s@, i as int, w.len() as int);
    }
    Some(i + w.len())
}

/// Reads the number that the digits at `i` spell.
fn read_number(s: &Vec<char>, i: usize) -> (r: Option<(usize, usize)>)
    requires
        i <= s.len(),
    ensures
        match r {
            Some((v, j)) => number(s@.skip(i as int)) == Some((v as nat, s@.skip(j as int))) && i
                < j <= s.len(),
            None => number(s@.skip(i as int)) is None,
        },
{
    let ghost t = s@.skip(i as int);
    let mut j: usize = i;
    let mut v: usize = 0;
    proof {
        assert(t.take(0) =~= Seq::<char>::empty());
    }
    while j < s.len() && is_digit_char(s[j])
        invariant
            i <= j <= s.len(),
            t == s@.skip(i as int),
            digits_end(t) == (j - i) + digits_end(s@.skip(j as int)),
            v == digits_value(t.take(j - i)),
        decreases s.len() - j,
    {
        let d: usize = (code_of(s[j]) - 48) as usize;
        proof {
            lemma_skip_next(s@, j as int);
            assert(t.take(j - i + 1).drop_last() =~= t.take(j - i));
            assert(t.take(j - i + 1).last() == s@[j as int]);
            assert(digits_value(t.take(j - i + 1)) == v * 10 + d);
        }
        if v > (usize::MAX - d) / 10 {
            proof {
                let n = digits_end(t);
                lemma_digits_end_bounds(t);
                lemma_digits_end_bounds(s@.skip(j as int).skip(1));
                assert(digits_end(s@.skip(j as int)) >= 1);
                assert(t.take(n).take(j - i + 1) =~= t.take(j - i + 1));
                lemma_digits_value_grows(t.take(n), j - i + 1);
            }
            return None;
        }
        v = v * 10 + d;
        j += 1;
    }
    proof {
        if j < s.len() {
            lemma_skip_next(s@, j as int);
        }
        assert(digits_end(s@.skip(j as int)) == 0);
    }
    if j == i {
        return None;
    }
    proof {
        lemma_skip_more(s@, i as int, j - i);
    }
    Some((v, j))
}

/// Reads the fields of a record from `i` on.
fn read_field_pairs(s: &Vec<char>, i: usize) -> (r: Option<(Vec<Field>, usize)>)
    requires
        i <= s.len(),
    ensures
        match r {
            Some((fields, j)) => field_pairs(s@.skip(i as int), Seq::empty()) == Some(
                (field_views(fields@), s@.skip(j as int)),
            ) && i <= j <= s.len(),
            None => field_pairs(s@.skip(i as int), Seq::empty()) is None,
        },
{
    let mut fields: Vec<Field> = Vec::new();
    let mut j: usize = i;
    proof {
        assert(field_views(fields@) =~= Seq::<FieldView>::empty());
    }
    loop
        invariant
            i <= j <= s.len(),
            field_pairs(s@.skip(j as int), field_views(fields@)) == field_pairs(
                s@.skip(i as int),
                Seq::empty(),
            ),
        decreases s.len() - j,
    {
        proof {
            reveal(field_pairs);
            if j < s.len() {
                lemma_skip_next(s@, j as int);
            }
        }
        if j >= s.len() || s[j] != ',' {
            return Some((fields, j));
        }
        let (name, k1) = match read_string(s, j + 1) {
            None => {
                return None;
            },
            Some(x) => x,
        };
        proof {
            if k1 < s.len() {
                lemma_skip_next(s@, k1 as int);
            }
        }
        if k1 >= s.len() || s[k1] != ',' {
            return None;
        }
        let (value, k2) = match read_string(s, k1 + 1) {
            None => {
                return None;
            },
            Some(x) => x,
        };
        let ghost before = field_views(fields@);
        fields.push(Field { name, value });
        proof {
            assert(field_views(fields@) =~= before.push(fields@[fields.len() - 1]@));
        }
        j = k2;
    }
}

/// Reads the record that starts at `i`.
fn read_record_entry(s: &Vec<char>, i: usize) -> (r: Option<(Record, usize)>)
    requires
        i <= s.len(),
    ensures
        match r {
            Some((record, j)) => record_entry(s@.skip(i as int)) == Some(
                (record@, s@.skip(j as int)),
            ) && i < j <= s.len(),
            None => record_entry(s@.skip(i as int)) is None,
        },
{
    proof {
        reveal(record_entry);
        if i < s.len() {
            lemma_skip_next(s@, i as int);
        }
    }
    if i >= s.len() || s[i] != '[' {
        return None;
    }
    let (row, k1) = match read_number(s, i + 1) {
        None => {
            return None;
        },
        Some(x) => x,
    };
    let (fields, k2) = match read_field_pairs(s, k1) {
        None => {
            return None;
        },
        Some(x) => x,
    };
    proof {
        if k2 < s.len() {
            lemma_skip_next(s@, k2 as int);
        }
    }
    if k2 >= s.len() || s[k2] != ']' {
        return None;
    }
    Some((Record { row, fields }, k2 + 1))
}

/// Reads what follows the opening bracket of an array of records, from `i`
/// on.
fn read_record_list(s: &Vec<char>, i: usize) -> (r: Option<(Vec<Record>, usize)>)
    requires
        i <= s.len(),
    ensures
        match r {
            Some((records, j)) => record_list(s@.skip(i as int)) == Some(
                (record_views(records@), s@.skip(j as int)),
            ) && i < j <= s.len(),
            None => record_list(s@.skip(i as int)) is None,
        },
{
    let mut records: Vec<Record> = Vec::new();
    proof {
        assert(record_views(records@) =~= Seq::<RecordView>::empty());
        if i < s.len() {
            lemma_skip_next(s@, i as int);
        }
    }
    if i < s.len() && s[i] == ']' {
        return Some((records, i + 1));
    }
    let mut j: usize = i;
    loop
        invariant
            i <= j <= s.len(),
            record_list(s@.skip(i as int)) == record_entries(s@.skip(i as int), Seq::empty()),
            record_entries(s@.skip(j as int), record_views(records@)) == record_entries(
                s@.skip(i as int),
                Seq::empty(),
            ),
        decreases s.len() - j,
    {
        proof {
            reveal(record_entries);
        }
        let (record, k0) = match read_record_entry(s, j) {
            None => {
                return None;
            },
            Some(x) => x,
        };
        let ghost before = record_views(records@);
        records.push(record);
        proof {
            assert(record_views(records@) =~= before.push(records@[records.len() - 1]@));
            if k0 < s.len() {
                lemma_skip_next(s@, k0 as int);
            }
        }
        if k0 >= s.len() {
            return None;
        }
        if s[k0] == ']' {
            return Some((records, k0 + 1));
        } else if s[k0] == ',' {
            j = k0 + 1;
        } else {
            return None;
        }
    }
}

/// Reads the snapshot of a sheet that starts at `i`.
fn read_sheet_entry(s: &Vec<char>, i: usize) -> (r: Option<(SheetSnapshot, usize)>)
    requires
        i <= s.len(),
    ensures
        match r {
            Some((sheet, j)) => sheet_entry(s@.skip(i as int)) == Some(
                (sheet@, s@.skip(j as int)),
            ) && i < j <= s.len(),
            None => sheet_entry(s@.skip(i as int)) is None,
        },
{
    proof {
        reveal(sheet_entry);
    }
    let k0 = match expect_word(s, i, "{\"name\":") {
        None => {
            return None;
        },
        Some(k) => k,
    };
    let (name, k1) = match read_string(s, k0) {
        None => {
            return None;
        },
        Some(x) => x,
    };
    let k2 = match expect_word(s, k1, ",\"records\":[") {
        None => {
            return None;
        },
        Some(k) => k,
    };
    let (records, k3) = match read_record_list(s, k2) {
        None => {
            return None;
        },
        Some(x) => x,
    };
    proof {
        if k3 < s.len() {
            lemma_skip_next(s@, k3 as int);
        }
    }
    if k3 >= s.len() || s[k3] != '}' {
        return None;
    }
    Some((SheetSnapshot { name, records }, k3 + 1))
}

/// Reads what follows the opening bracket of an array of sheets, from `i`
/// on.
fn read_sheet_list(s: &Vec<char>, i: usize) -> (r: Option<(Vec<SheetSnapshot>, usize)>)
    requires
        i <= s.len(),
    ensures
        match r {
            Some((sheets, j)) => sheet_list(s@.skip(i as int)) == Some(
                (sheet_snapshot_views(sheets@), s@.skip(j as int)),
            ) && i < j <= s.len(),
            None => sheet_list(s@.skip(i as int)) is None,
        },
{
    let mut sheets: Vec<SheetSnapshot> = Vec::new();
    proof {
        assert(sheet_snapshot_views(sheets@) =~= Seq::<SheetSnapshotView>::empty());
        if i < s.len() {
            lemma_skip_next(s@, i as int);
        }
    }
    if i < s.len() && s[i] == ']' {
        return Some((sheets, i + 1));
    }
    let mut j: usize = i;
    loop
        invariant
            i <= j <= s.len(),
            sheet_list(s@.skip(i as int)) == sheet_entries(s@.skip(i as int), Seq::empty()),
            sheet_entries(s@.skip(j as int), sheet_snapshot_views(sheets@)) == sheet_entries(
                s@.skip(i as int),
                Seq::empty(),
            ),
        decreases s.len() - j,
    {
        proof {
            reveal(sheet_entries);
        }
        let (sheet, k0) = match read_sheet_entry(s, j) {
            None => {
                return None;
            },
            Some(x) => x,
        };
        let ghost before = sheet_snapshot_views(sheets@);
        sheets.push(sheet);
        proof {
            assert(sheet_snapshot_views(sheets@) =~= before.push(sheets@[sheets.len() - 1]@));
            if k0 < s.len() {
                lemma_skip_next(s@, k0 as int);
            }
        }
        if k0 >= s.len() {
            return None;
        }
        if s[k0] == ']' {
            return Some((sheets, k0 + 1));
        } else if s[k0] == ',' {
            j = k0 + 1;
        } else {
            return None;
        }
    }
}

/// Reads a snapshot from its text. The result is `None` for every text that
/// stands for no snapshot: the run that reads it then goes on as if there
/// had been no run before.
pub fn decode(text: &str) -> (r: Option<Snapshot>)
    ensures
        match r {
            Some(snapshot) => decoded(text@) == Some(snapshot@),
            None => decoded(text@) is None,
        },
{
    let s = chars_of(text);
    proof {
        assert(s@.skip(0) =~= s@);
    }
    let k0 = match expect_word(&s, 0, "{\"config\":") {
        None => {
            return None;
        },
        Some(k) => k,
    };
    let (config, k1) = match read_configuration(&s, k0) {
        None => {
            return None;
        },
        Some(x) => x,
    };
    let k2 = match expect_word(&s, k1, ",\"sheets\":[") {
        None => {
            return None;
        },
        Some(k) => k,
    };
    let (sheets, k3) = match read_sheet_list(&s, k2) {
        None => {
            return None;
        },
        Some(x) => x,
    };
    proof {
        if k3 < s.len() {
            lemma_skip_next(s@, k3 as int);
        }
    }
    if s.len() - k3 != 1 || s[k3] != '}' {
        return None;
    }
    Some(Snapshot { config, sheets })
}

} // verus!
