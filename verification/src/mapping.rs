//! The mapping engine: binds the cells of a sheet to the fields that a
//! configuration names.
//!
//! Where the configuration says that a sheet has a header row, that row names
//! the columns and gives no record; of two columns with the same name the first
//! is taken. Where it has none, a source is the letters of a column. Blank
//! rows at the end of a sheet give no records.

use vstd::prelude::*;
use crate::coerce::{coerce, coerced, is_blank, is_blank_text};
use crate::config::{
    CoercionPolicy, ConfigView, Configuration, FieldMapping, MappingView, mapping_views,
};
use crate::text::{chars_of, code_of};

verus! {

/// One field of a record: the target of its mapping and its value.
#[derive(Debug, PartialEq, Eq)]
pub struct Field {
    pub name: String,
    pub value: String,
}

/// A field as a mathematical value.
pub struct FieldView {
    pub name: Seq<char>,
    pub value: Seq<char>,
}

impl View for Field {
    type V = FieldView;

    open spec fn view(&self) -> FieldView {
        FieldView { name: self.name@, value: self.value@ }
    }
}

impl Clone for Field {
    fn clone(&self) -> (f: Self)
        ensures
            f@ == self@,
    {
        Field { name: self.name.clone(), value: self.value.clone() }
    }
}

/// The fields of `v` as mathematical values.
pub open spec fn field_views(v: Seq<Field>) -> Seq<FieldView> {
    Seq::new(v.len(), |i: int| v[i]@)
}

/// What one row of a sheet gives: a value for every mapping of the
/// configuration, in their order, and the index of the row, counted from 0.
#[derive(Debug, PartialEq, Eq)]
pub struct Record {
    pub row: usize,
    pub fields: Vec<Field>,
}

/// A record as a mathematical value.
pub struct RecordView {
    pub row: int,
    pub fields: Seq<FieldView>,
}

impl View for Record {
    type V = RecordView;

    open spec fn view(&self) -> RecordView {
        RecordView { row: self.row as int, fields: field_views(self.fields@) }
    }
}

impl Clone for Record {
    fn clone(&self) -> (r: Self)
        ensures
            r@ == self@,
    {
        let mut fields: Vec<Field> = Vec::new();
        let mut i: usize = 0;
        while i < self.fields.len()
            invariant
                i <= self.fields.len(),
                fields.len() == i,
                forall|k: int| 0 <= k < i ==> fields[k]@ == self.fields[k]@,
            decreases self.fields.len() - i,
        {
            fields.push(self.fields[i].clone());
            i += 1;
        }
        proof {
            assert(field_views(fields@) =~= field_views(self.fields@));
        }
        Record { row: self.row, fields }
    }
}

/// The records of `v` as mathematical values.
pub open spec fn record_views(v: Seq<Record>) -> Seq<RecordView> {
    Seq::new(v.len(), |i: int| v[i]@)
}

/// A cell that could not be coerced to the type of its field, under the
/// policy that this ends the run.
#[derive(Debug, PartialEq, Eq)]
pub struct CoercionError {
    /// The index of the row, counted from 0.
    pub row: usize,
    /// The target of the mapping.
    pub target: String,
}

/// A coercion error as a mathematical value.
pub struct CoercionFailure {
    pub row: int,
    pub target: Seq<char>,
}

impl View for CoercionError {
    type V = CoercionFailure;

    open spec fn view(&self) -> CoercionFailure {
        CoercionFailure { row: self.row as int, target: self.target@ }
    }
}

/// Whether `c` is a letter of the ASCII alphabet.
pub open spec fn is_letter(c: char) -> bool {
    'a' <= c <= 'z' || 'A' <= c <= 'Z'
}

/// The place of a letter in the alphabet, counted from 0.
pub open spec fn letter_index(c: char) -> int {
    if 'a' <= c <= 'z' {
        c as int - 'a' as int
    } else {
        c as int - 'A' as int
    }
}

/// The index of the column that one to three letters name: `A` is 0, `Z` is
/// 25, `AA` is 26.
pub open spec fn column_of_letters(t: Seq<char>) -> Option<int> {
    if t.len() == 1 && is_letter(t[0]) {
        Some(letter_index(t[0]))
    } else if t.len() == 2 && is_letter(t[0]) && is_letter(t[1]) {
        Some((letter_index(t[0]) + 1) * 26 + letter_index(t[1]))
    } else if t.len() == 3 && is_letter(t[0]) && is_letter(t[1]) && is_letter(t[2]) {
        Some(((letter_index(t[0]) + 1) * 26 + letter_index(t[1]) + 1) * 26 + letter_index(t[2]))
    } else {
        None
    }
}

/// The index of the first of the columns `header[from..]` that is called
/// `name`.
pub open spec fn column_named(header: Seq<Seq<char>>, name: Seq<char>, from: int) -> Option<int>
    decreases header.len() - from,
{
    if from < 0 || from >= header.len() {
        None
    } else if header[from] == name {
        Some(from)
    } else {
        column_named(header, name, from + 1)
    }
}

/// The index of the column that `source` names in a sheet with the rows
/// `rows`.
pub open spec fn column_of(header: bool, rows: Seq<Seq<Seq<char>>>, source: Seq<char>) -> Option<
    int,
> {
    if header {
        if rows.len() > 0 {
            column_named(rows[0], source, 0)
        } else {
            None
        }
    } else {
        column_of_letters(source)
    }
}

/// The column of every mapping of `c`.
pub open spec fn resolved_columns(c: ConfigView, rows: Seq<Seq<Seq<char>>>) -> Seq<Option<int>> {
    Seq::new(c.mappings.len(), |i: int| column_of(c.header, rows, c.mappings[i].source))
}

/// The text of the cell of `row` in the column `column`, if there is such a
/// cell and it is not blank.
pub open spec fn cell_in(row: Seq<Seq<char>>, column: Option<int>) -> Option<Seq<char>> {
    match column {
        Some(k) => if 0 <= k < row.len() && !is_blank(row[k]) {
            Some(row[k])
        } else {
            None
        },
        None => None,
    }
}

/// The value that the mapping `m` gives for a cell: its default where the
/// cell is absent or blank, else the coerced text; `None` where the text
/// cannot be coerced.
pub open spec fn field_value(m: MappingView, cell: Option<Seq<char>>) -> Option<Seq<char>> {
    match cell {
        None => Some(m.default),
        Some(t) => coerced(m.type_hint, t),
    }
}

/// What a row gives.
pub enum RowOutcome {
    /// A value for each field.
    Fields(Seq<FieldView>),
    /// No record: the cell for the mapping of this index cannot be coerced.
    Rejected(int),
}

/// What `row` gives for the first `n` mappings. Where `lenient` holds, a
/// field whose cell cannot be coerced takes its default.
pub open spec fn map_fields(
    mappings: Seq<MappingView>,
    columns: Seq<Option<int>>,
    row: Seq<Seq<char>>,
    lenient: bool,
    n: int,
) -> RowOutcome
    decreases n,
{
    if n <= 0 {
        RowOutcome::Fields(Seq::empty())
    } else {
        match map_fields(mappings, columns, row, lenient, n - 1) {
            RowOutcome::Rejected(i) => RowOutcome::Rejected(i),
            RowOutcome::Fields(fields) => {
                let m = mappings[n - 1];
                match field_value(m, cell_in(row, columns[n - 1])) {
                    Some(v) => RowOutcome::Fields(
                        fields.push(FieldView { name: m.target, value: v }),
                    ),
                    None => if lenient {
                        RowOutcome::Fields(
                            fields.push(FieldView { name: m.target, value: m.default }),
                        )
                    } else {
                        RowOutcome::Rejected(n - 1)
                    },
                }
            },
        }
    }
}

/// Whether every cell of `row` is blank.
pub open spec fn is_blank_row(row: Seq<Seq<char>>) -> bool {
    forall|j: int| 0 <= j < row.len() ==> is_blank(#[trigger] row[j])
}

/// The number of rows of a sheet without the blank rows at its end.
pub open spec fn data_end(rows: Seq<Seq<Seq<char>>>) -> int
    decreases rows.len(),
{
    if rows.len() > 0 && is_blank_row(rows.last()) {
        data_end(rows.drop_last())
    } else {
        rows.len() as int
    }
}

/// The index of the first row that gives a record.
pub open spec fn data_start(c: ConfigView, rows: Seq<Seq<Seq<char>>>) -> int {
    if c.header && rows.len() > 0 {
        1
    } else {
        0
    }
}

/// The records of the rows `from` up to `to`, in the order of the rows, or
/// the first cell that ends the run.
pub open spec fn map_rows(
    c: ConfigView,
    columns: Seq<Option<int>>,
    rows: Seq<Seq<Seq<char>>>,
    from: int,
    to: int,
) -> Result<Seq<RecordView>, CoercionFailure>
    decreases to - from,
{
    if to <= from {
        Ok(Seq::empty())
    } else {
        match map_rows(c, columns, rows, from, to - 1) {
            Err(e) => Err(e),
            Ok(records) => match map_fields(
                c.mappings,
                columns,
                rows[to - 1],
                c.on_failure == CoercionPolicy::SkipFieldUseDefault,
                c.mappings.len() as int,
            ) {
                RowOutcome::Fields(fields) => Ok(
                    records.push(RecordView { row: to - 1, fields }),
                ),
                RowOutcome::Rejected(i) => if c.on_failure == CoercionPolicy::AbortRun {
                    Err(CoercionFailure { row: to - 1, target: c.mappings[i].target })
                } else {
                    Ok(records)
                },
            },
        }
    }
}

/// The records of a sheet under the configuration `c`, or the first cell
/// that ends the run.
pub open spec fn mapped_sheet(rows: Seq<Seq<Seq<char>>>, c: ConfigView) -> Result<
    Seq<RecordView>,
    CoercionFailure,
> {
    map_rows(c, resolved_columns(c, rows), rows, data_start(c, rows), data_end(rows))
}

/// The columns of `v` as mathematical values.
pub open spec fn column_views(v: Seq<Option<usize>>) -> Seq<Option<int>> {
    Seq::new(
        v.len(),
        |i: int|
            match v[i] {
                Some(k) => Some(k as int),
                None => None,
            },
    )
}

/// Once a cell has ended the run, the rows after it change nothing.
pub proof fn lemma_map_rows_failed(
    c: ConfigView,
    columns: Seq<Option<int>>,
    rows: Seq<Seq<Seq<char>>>,
    from: int,
    at: int,
    to: int,
)
    requires
        at <= to,
        map_rows(c, columns, rows, from, at) is Err,
    ensures
        map_rows(c, columns, rows, from, to) == map_rows(c, columns, rows, from, at),
    decreases to - at,
{
    if at < to {
        lemma_map_rows_failed(c, columns, rows, from, at, to - 1);
    }
}

/// Once a cell has been refused, the mappings after it change nothing.
pub proof fn lemma_map_fields_rejected(
    mappings: Seq<MappingView>,
    columns: Seq<Option<int>>,
    row: Seq<Seq<char>>,
    lenient: bool,
    at: int,
    n: int,
)
    requires
        at <= n,
        map_fields(mappings, columns, row, lenient, at) is Rejected,
    ensures
        map_fields(mappings, columns, row, lenient, n) == map_fields(
            mappings,
            columns,
            row,
            lenient,
            at,
        ),
    decreases n - at,
{
    if at < n {
        lemma_map_fields_rejected(mappings, columns, row, lenient, at, n - 1);
    }
}

/// The place in the alphabet of the letter `c`, or `None` where `c` is no
/// letter.
fn letter_place(c: char) -> (r: Option<usize>)
    ensures
        match r {
            Some(k) => is_letter(c) && k == letter_index(c) && k < 26,
            None => !is_letter(c),
        },
{
    if c >= 'a' && c <= 'z' {
        Some((code_of(c) - 97) as usize)
    } else if c >= 'A' && c <= 'Z' {
        Some((code_of(c) - 65) as usize)
    } else {
        None
    }
}

/// The index of the column that the letters `source` name.
pub fn column_from_letters(source: &str) -> (r: Option<usize>)
    ensures
        match r {
            Some(k) => column_of_letters(source@) == Some(k as int),
            None => column_of_letters(source@) is None,
        },
{
    let t = chars_of(source);
    if t.len() == 1 {
        letter_place(t[0])
    } else if t.len() == 2 {
        match (letter_place(t[0]), letter_place(t[1])) {
            (Some(a), Some(b)) => Some((a + 1) * 26 + b),
            _ => None,
        }
    } else if t.len() == 3 {
        match (letter_place(t[0]), letter_place(t[1]), letter_place(t[2])) {
            (Some(a), Some(b), Some(c)) => Some(((a + 1) * 26 + b + 1) * 26 + c),
            _ => None,
        }
    } else {
        None
    }
}

/// The index of the first column of `header` that is called `name`.
pub fn column_by_name(header: &Vec<String>, name: &String) -> (r: Option<usize>)
    ensures
        match r {
            Some(k) => column_named(header.deep_view(), name@, 0) == Some(k as int) && k
                < header.len(),
            None => column_named(header.deep_view(), name@, 0) is None,
        },
{
    let ghost names = header.deep_view();
    let mut i: usize = 0;
    while i < header.len()
        invariant
            i <= header.len(),
            names == header.deep_view(),
            column_named(names, name@, 0) == column_named(names, name@, i as int),
        decreases header.len() - i,
    {
        assert(names[i as int] == header[i as int]@);
        if header[i] == *name {
            return Some(i);
        }
        i += 1;
    }
    None
}

/// The column of every mapping of `cfg` in a sheet with the rows `rows`.
pub fn resolve_columns(rows: &Vec<Vec<String>>, cfg: &Configuration) -> (columns: Vec<
    Option<usize>,
>)
    ensures
        column_views(columns@) == resolved_columns(cfg@, rows.deep_view()),
{
    let mappings = cfg.mappings();
    let header = cfg.has_header();
    let ghost c = cfg@;
    let ghost texts = rows.deep_view();
    let mut columns: Vec<Option<usize>> = Vec::new();
    let mut i: usize = 0;
    while i < mappings.len()
        invariant
            i <= mappings.len(),
            columns.len() == i,
            mapping_views(mappings@) == c.mappings,
            header == c.header,
            texts == rows.deep_view(),
            forall|k: int|
                0 <= k < i ==> (#[trigger] column_views(columns@)[k]) == column_of(
                    c.header,
                    texts,
                    c.mappings[k].source,
                ),
        decreases mappings.len() - i,
    {
        assert(c.mappings[i as int] == mappings[i as int]@);
        let column = if header {
            if rows.len() > 0 {
                assert(texts[0] == rows[0].deep_view());
                column_by_name(&rows[0], &mappings[i].source)
            } else {
                None
            }
        } else {
            column_from_letters(mappings[i].source.as_str())
        };
        let ghost before = column_views(columns@);
        columns.push(column);
        proof {
            assert forall|k: int| 0 <= k < i + 1 implies (#[trigger] column_views(columns@)[k])
                == column_of(c.header, texts, c.mappings[k].source) by {
                if k < i {
                    assert(column_views(columns@)[k] == before[k]);
                }
            }
        }
        i += 1;
    }
    proof {
        assert(column_views(columns@) =~= resolved_columns(c, texts));
    }
    columns
}

/// Where a column is found by its name, it has that name and no column
/// before it has; where none is found, no column has the name.
pub proof fn lemma_column_named(header: Seq<Seq<char>>, name: Seq<char>, from: int)
    requires
        0 <= from,
    ensures
        match column_named(header, name, from) {
            Some(k) => from <= k < header.len() && header[k] == name && forall|j: int|
                from <= j < k ==> header[j] != name,
            None => forall|j: int| from <= j < header.len() ==> header[j] != name,
        },
    decreases header.len() - from,
{
    if from < header.len() && header[from] != name {
        lemma_column_named(header, name, from + 1);
    }
}

/// Whether the column `j` has a name, and a column before it has the same.
pub open spec fn is_repeat(header: Seq<Seq<char>>, j: int) -> bool {
    header[j].len() > 0 && exists|i: int| 0 <= i < j && header[i] == header[j]
}

/// The indices below `n` of the columns whose name an earlier column has
/// too, in rising order.
pub open spec fn repeats_before(header: Seq<Seq<char>>, n: int) -> Seq<int>
    decreases n,
{
    if n <= 0 {
        Seq::empty()
    } else if is_repeat(header, n - 1) {
        repeats_before(header, n - 1).push(n - 1)
    } else {
        repeats_before(header, n - 1)
    }
}

/// The columns of a sheet that are never read because an earlier column has
/// the same name; none where the sheet has no header row.
pub open spec fn repeated_columns(c: ConfigView, rows: Seq<Seq<Seq<char>>>) -> Seq<int> {
    if c.header && rows.len() > 0 {
        repeats_before(rows[0], rows[0].len() as int)
    } else {
        Seq::empty()
    }
}

/// The indices of `v` as mathematical values.
pub open spec fn index_views(v: Seq<usize>) -> Seq<int> {
    Seq::new(v.len(), |i: int| v[i] as int)
}

/// The columns of the header row whose name an earlier column has too: they
/// are never read, and the caller may warn of them.
pub fn repeated_headers(rows: &Vec<Vec<String>>, cfg: &Configuration) -> (columns: Vec<usize>)
    ensures
        index_views(columns@) == repeated_columns(cfg@, rows.deep_view()),
{
    let mut columns: Vec<usize> = Vec::new();
    if !cfg.has_header() || rows.len() == 0 {
        proof {
            assert(index_views(columns@) =~= Seq::<int>::empty());
        }
        return columns;
    }
    let header = &rows[0];
    let ghost names = header.deep_view();
    proof {
        assert(rows.deep_view()[0] == names);
        assert(index_views(columns@) =~= Seq::<int>::empty());
    }
    let mut j: usize = 0;
    while j < header.len()
        invariant
            j <= header.len(),
            names == header.deep_view(),
            index_views(columns@) == repeats_before(names, j as int),
        decreases header.len() - j,
    {
        let first = column_by_name(header, &header[j]);
        let ghost before = index_views(columns@);
        proof {
            assert(names[j as int] == header[j as int]@);
            lemma_column_named(names, names[j as int], 0);
        }
        let named = header[j].as_str().unicode_len() > 0;
        match first {
            Some(k) => {
                if k != j && named {
                    assert(names[k as int] == names[j as int]);
                    columns.push(j);
                    proof {
                        assert(index_views(columns@) =~= before.push(j as int));
                    }
                }
            },
            None => {},
        }
        j += 1;
    }
    columns
}

/// Whether every cell of `row` is blank.
pub fn is_blank_cells(row: &Vec<String>) -> (b: bool)
    ensures
        b == is_blank_row(row.deep_view()),
{
    let ghost cells = row.deep_view();
    let mut j: usize = 0;
    while j < row.len()
        invariant
            j <= row.len(),
            cells == row.deep_view(),
            forall|k: int| 0 <= k < j ==> is_blank(#[trigger] cells[k]),
        decreases row.len() - j,
    {
        assert(cells[j as int] == row[j as int]@);
        if !is_blank_text(row[j].as_str()) {
            return false;
        }
        j += 1;
    }
    true
}

/// The number of rows of a sheet without the blank rows at its end.
pub fn count_data_rows(rows: &Vec<Vec<String>>) -> (n: usize)
    ensures
        n == data_end(rows.deep_view()),
        n <= rows.len(),
{
    let ghost texts = rows.deep_view();
    let mut n: usize = rows.len();
    proof {
        assert(texts.take(n as int) =~= texts);
    }
    while n > 0 && is_blank_cells(&rows[n - 1])
        invariant
            n <= rows.len(),
            texts == rows.deep_view(),
            data_end(texts.take(n as int)) == data_end(texts),
        decreases n,
    {
        proof {
            assert(texts.take(n as int).last() == rows[n - 1].deep_view());
            assert(texts.take(n as int).drop_last() =~= texts.take(n - 1));
        }
        n -= 1;
    }
    proof {
        if n > 0 {
            assert(texts.take(n as int).last() == rows[n - 1].deep_view());
        }
    }
    n
}

/// The record that `row` gives, or the index of the first mapping whose cell
/// cannot be coerced.
fn map_row(
    row: &Vec<String>,
    index: usize,
    mappings: &Vec<FieldMapping>,
    columns: &Vec<Option<usize>>,
    lenient: bool,
) -> (r: Result<Record, usize>)
    requires
        columns.len() == mappings.len(),
    ensures
        match r {
            Ok(record) => record.row == index && map_fields(
                mapping_views(mappings@),
                column_views(columns@),
                row.deep_view(),
                lenient,
                mappings.len() as int,
            ) == RowOutcome::Fields(field_views(record.fields@)),
            Err(i) => i < mappings.len() && map_fields(
                mapping_views(mappings@),
                column_views(columns@),
                row.deep_view(),
                lenient,
                mappings.len() as int,
            ) == RowOutcome::Rejected(i as int),
        },
{
    let ghost ms = mapping_views(mappings@);
    let ghost cols = column_views(columns@);
    let ghost cells = row.deep_view();
    let mut fields: Vec<Field> = Vec::new();
    let mut i: usize = 0;
    proof {
        assert(field_views(fields@) =~= Seq::<FieldView>::empty());
    }
    while i < mappings.len()
        invariant
            i <= mappings.len(),
            fields.len() == i,
            columns.len() == mappings.len(),
            ms == mapping_views(mappings@),
            cols == column_views(columns@),
            cells == row.deep_view(),
            map_fields(ms, cols, cells, lenient, i as int) == RowOutcome::Fields(
                field_views(fields@),
            ),
        decreases mappings.len() - i,
    {
        let m = &mappings[i];
        assert(ms[i as int] == m@);
        let mut cell: Option<&String> = None;
        match columns[i] {
            Some(k) => {
                if k < row.len() {
                    assert(cells[k as int] == row[k as int]@);
                    if !is_blank_text(row[k].as_str()) {
                        cell = Some(&row[k]);
                    }
                }
            },
            None => {},
        }
        assert(match cell {
            Some(t) => cell_in(cells, cols[i as int]) == Some(t@),
            None => cell_in(cells, cols[i as int]) is None,
        });
        let coerced_value = match cell {
            None => Some(m.default.clone()),
            Some(t) => coerce(m.type_hint, t.as_str()),
        };
        let value = match coerced_value {
            Some(v) => v,
            None => {
                if !lenient {
                    proof {
                        lemma_map_fields_rejected(
                            ms,
                            cols,
                            cells,
                            lenient,
                            i + 1,
                            mappings.len() as int,
                        );
                    }
                    return Err(i);
                }
                m.default.clone()
            },
        };
        let ghost before = field_views(fields@);
        let field = Field { name: m.target.clone(), value };
        fields.push(field);
        proof {
            assert(field_views(fields@) =~= before.push(
                FieldView { name: m@.target, value: fields@[i as int]@.value },
            ));
        }
        i += 1;
    }
    Ok(Record { row: index, fields })
}

/// Maps the rows of a sheet to records.
///
/// Every row from the first data row up to the last row that is not blank
/// gives one record, in the order of the rows, with one field for each
/// mapping, in the order of the mappings. A field takes its default where
/// its cell is absent or blank. Where a cell cannot be coerced to the type
/// of its field, the policy of the configuration decides: the field takes
/// its default, the row gives no record, or the run ends with the first such
/// cell as its error.
pub fn map_sheet(rows: &Vec<Vec<String>>, cfg: &Configuration) -> (r: Result<
    Vec<Record>,
    CoercionError,
>)
    ensures
        match r {
            Ok(records) => mapped_sheet(rows.deep_view(), cfg@) == Ok::<
                Seq<RecordView>,
                CoercionFailure,
            >(record_views(records@)),
            Err(e) => mapped_sheet(rows.deep_view(), cfg@) == Err::<
                Seq<RecordView>,
                CoercionFailure,
            >(e@),
        },
{
    let ghost c = cfg@;
    let ghost texts = rows.deep_view();
    let columns = resolve_columns(rows, cfg);
    let ghost cols = column_views(columns@);
    let mappings = cfg.mappings();
    let policy = cfg.on_failure();
    let lenient = policy == CoercionPolicy::SkipFieldUseDefault;
    let end = count_data_rows(rows);
    let start: usize = if cfg.has_header() && rows.len() > 0 {
        1
    } else {
        0
    };
    let mut records: Vec<Record> = Vec::new();
    proof {
        assert(record_views(records@) =~= Seq::<RecordView>::empty());
        assert(columns.len() == mappings.len()) by {
            assert(cols.len() == c.mappings.len());
            assert(mapping_views(mappings@).len() == mappings.len());
        }
    }
    let mut i: usize = start;
    while i < end
        invariant
            start <= i,
            i <= end || i == start,
            end <= rows.len(),
            c == cfg@,
            texts == rows.deep_view(),
            cols == column_views(columns@),
            cols == resolved_columns(c, texts),
            mapping_views(mappings@) == c.mappings,
            columns.len() == mappings.len(),
            policy == c.on_failure,
            lenient == (c.on_failure == CoercionPolicy::SkipFieldUseDefault),
            start == data_start(c, texts),
            end == data_end(texts),
            map_rows(c, cols, texts, start as int, i as int) == Ok::<
                Seq<RecordView>,
                CoercionFailure,
            >(record_views(records@)),
        decreases end - i,
    {
        assert(texts[i as int] == rows[i as int].deep_view());
        let ghost before = record_views(records@);
        match map_row(&rows[i], i, mappings, &columns, lenient) {
            Ok(record) => {
                records.push(record);
                proof {
                    assert(record_views(records@) =~= before.push(records@[records.len() - 1]@));
                }
            },
            Err(f) => {
                if policy == CoercionPolicy::AbortRun {
                    let target = mappings[f].target.clone();
                    proof {
                        assert(c.mappings[f as int] == mappings[f as int]@);
                        lemma_map_rows_failed(c, cols, texts, start as int, i + 1, end as int);
                    }
                    return Err(CoercionError { row: i, target });
                }
            },
        }
        i += 1;
    }
    proof {
        if start > end {
            assert(map_rows(c, cols, texts, start as int, start as int) == Ok::<
                Seq<RecordView>,
                CoercionFailure,
            >(Seq::empty()));
            assert(map_rows(c, cols, texts, start as int, end as int) == Ok::<
                Seq<RecordView>,
                CoercionFailure,
            >(Seq::empty()));
        }
    }
    Ok(records)
}

/// What a row gives for the first `n` mappings is one field for each of
/// them, with the target of its mapping as its name; a row is refused only
/// where a field may not take its default instead.
pub proof fn lemma_fields_follow_the_mappings(
    mappings: Seq<MappingView>,
    columns: Seq<Option<int>>,
    row: Seq<Seq<char>>,
    lenient: bool,
    n: int,
)
    requires
        0 <= n <= mappings.len(),
    ensures
        match map_fields(mappings, columns, row, lenient, n) {
            RowOutcome::Fields(fields) => fields.len() == n && forall|k: int|
                0 <= k < n ==> (#[trigger] fields[k]).name == mappings[k].target,
            RowOutcome::Rejected(i) => 0 <= i < n && !lenient,
        },
    decreases n,
{
    if n > 0 {
        lemma_fields_follow_the_mappings(mappings, columns, row, lenient, n - 1);
    }
}

/// The records of the rows `from` up to `to` come from those rows, in
/// rising order, and each has one field for each mapping. Only the policy
/// that a cell ends the run lets the mapping fail, and where a field takes
/// its default instead, every row gives a record.
pub proof fn lemma_records_follow_the_rows(
    c: ConfigView,
    columns: Seq<Option<int>>,
    rows: Seq<Seq<Seq<char>>>,
    from: int,
    to: int,
)
    requires
        0 <= from,
        to <= rows.len(),
    ensures
        match map_rows(c, columns, rows, from, to) {
            Ok(records) => {
                &&& records.len() <= to - from || (to < from && records.len() == 0)
                &&& forall|k: int|
                    0 <= k < records.len() ==> from <= (#[trigger] records[k]).row < to
                        && records[k].fields.len() == c.mappings.len()
                &&& forall|j: int, k: int|
                    0 <= j < k < records.len() ==> (#[trigger] records[j]).row < (
                    #[trigger] records[k]).row
                &&& c.on_failure == CoercionPolicy::SkipFieldUseDefault && from <= to
                    ==> records.len() == to - from
            },
            Err(e) => c.on_failure == CoercionPolicy::AbortRun && from <= e.row < to,
        },
    decreases to - from,
{
    if to > from {
        lemma_records_follow_the_rows(c, columns, rows, from, to - 1);
        lemma_fields_follow_the_mappings(
            c.mappings,
            columns,
            rows[to - 1],
            c.on_failure == CoercionPolicy::SkipFieldUseDefault,
            c.mappings.len() as int,
        );
    }
}

/// The number of rows without the blank rows at the end is no more than
/// the number of rows.
pub proof fn lemma_data_end_bounds(rows: Seq<Seq<Seq<char>>>)
    ensures
        0 <= data_end(rows) <= rows.len(),
        data_end(rows) > 0 ==> !is_blank_row(rows[data_end(rows) - 1]),
        forall|k: int| data_end(rows) <= k < rows.len() ==> is_blank_row(#[trigger] rows[k]),
    decreases rows.len(),
{
    if rows.len() > 0 && is_blank_row(rows.last()) {
        lemma_data_end_bounds(rows.drop_last());
        assert forall|k: int| data_end(rows) <= k < rows.len() implies is_blank_row(
            #[trigger] rows[k],
        ) by {
            if k < rows.len() - 1 {
                assert(rows[k] == rows.drop_last()[k]);
            }
        }
        if data_end(rows) > 0 {
            assert(rows[data_end(rows) - 1] == rows.drop_last()[data_end(rows) - 1]);
        }
    }
}

/// The records of a sheet come from its data rows, in rising order: none
/// from the header row or from the blank rows at the end. Each has one
/// field for each mapping. The mapping fails only under the policy that a
/// cell ends the run.
pub proof fn lemma_records_of_a_sheet(rows: Seq<Seq<Seq<char>>>, c: ConfigView)
    ensures
        match mapped_sheet(rows, c) {
            Ok(records) => {
                &&& forall|k: int|
                    0 <= k < records.len() ==> data_start(c, rows) <= (#[trigger] records[k]).row
                        < data_end(rows) && records[k].fields.len() == c.mappings.len()
                &&& forall|j: int, k: int|
                    0 <= j < k < records.len() ==> (#[trigger] records[j]).row < (
                    #[trigger] records[k]).row
                &&& c.on_failure == CoercionPolicy::SkipFieldUseDefault && data_start(c, rows)
                    <= data_end(rows) ==> records.len() == data_end(rows) - data_start(c, rows)
            },
            Err(e) => c.on_failure == CoercionPolicy::AbortRun && data_start(c, rows) <= e.row
                < data_end(rows),
        },
{
    lemma_data_end_bounds(rows);
    lemma_records_follow_the_rows(
        c,
        resolved_columns(c, rows),
        rows,
        data_start(c, rows),
        data_end(rows),
    );
}

/// Where the rows `from` up to `to` have been mapped, a row among them that
/// gives fields has its record among the records, with those fields. A row
/// that is refused has none, and the rows after it are mapped all the same.
pub proof fn lemma_every_row_is_mapped(
    c: ConfigView,
    columns: Seq<Option<int>>,
    rows: Seq<Seq<Seq<char>>>,
    from: int,
    to: int,
    r: int,
)
    requires
        0 <= from <= r < to <= rows.len(),
        map_rows(c, columns, rows, from, to) is Ok,
    ensures
        ({
            let records = map_rows(c, columns, rows, from, to)->Ok_0;
            match map_fields(
                c.mappings,
                columns,
                rows[r],
                c.on_failure == CoercionPolicy::SkipFieldUseDefault,
                c.mappings.len() as int,
            ) {
                RowOutcome::Fields(fields) => exists|k: int|
                    0 <= k < records.len() && #[trigger] records[k] == (RecordView {
                        row: r,
                        fields,
                    }),
                RowOutcome::Rejected(_) => c.on_failure == CoercionPolicy::AbortRecord && forall|
                    k: int,
                | 0 <= k < records.len() ==> (#[trigger] records[k]).row != r,
            }
        }),
    decreases to - from,
{
    let lenient = c.on_failure == CoercionPolicy::SkipFieldUseDefault;
    let n = c.mappings.len() as int;
    let records = map_rows(c, columns, rows, from, to)->Ok_0;
    let before = map_rows(c, columns, rows, from, to - 1);
    assert(before is Ok);
    let earlier = before->Ok_0;
    lemma_records_follow_the_rows(c, columns, rows, from, to - 1);
    lemma_fields_follow_the_mappings(c.mappings, columns, rows[r], lenient, n);
    if r == to - 1 {
        match map_fields(c.mappings, columns, rows[r], lenient, n) {
            RowOutcome::Fields(fields) => {
                assert(records[earlier.len() as int] == (RecordView { row: r, fields }));
            },
            RowOutcome::Rejected(_) => {
                assert(records == earlier);
            },
        }
    } else {
        lemma_every_row_is_mapped(c, columns, rows, from, to - 1, r);
        match map_fields(c.mappings, columns, rows[r], lenient, n) {
            RowOutcome::Fields(fields) => {
                let k = choose|k: int|
                    0 <= k < earlier.len() && #[trigger] earlier[k] == (RecordView {
                        row: r,
                        fields,
                    });
                assert(records[k] == earlier[k]);
            },
            RowOutcome::Rejected(_) => {
                assert forall|k: int| 0 <= k < records.len() implies (
                #[trigger] records[k]).row != r by {
                    if k < earlier.len() {
                        assert(records[k] == earlier[k]);
                    }
                }
            },
        }
    }
}

/// Under the policy that a refused row gives no record, the mapping of a
/// sheet never fails: every data row that can be coerced has its record, and
/// a row that cannot has none.
pub proof fn lemma_abort_record_goes_on(rows: Seq<Seq<Seq<char>>>, c: ConfigView, r: int)
    requires
        c.on_failure == CoercionPolicy::AbortRecord,
        data_start(c, rows) <= r < data_end(rows),
    ensures
        mapped_sheet(rows, c) is Ok,
        ({
            let records = mapped_sheet(rows, c)->Ok_0;
            match map_fields(
                c.mappings,
                resolved_columns(c, rows),
                rows[r],
                false,
                c.mappings.len() as int,
            ) {
                RowOutcome::Fields(fields) => exists|k: int|
                    0 <= k < records.len() && #[trigger] records[k] == (RecordView {
                        row: r,
                        fields,
                    }),
                RowOutcome::Rejected(_) => forall|k: int|
                    0 <= k < records.len() ==> (#[trigger] records[k]).row != r,
            }
        }),
{
    lemma_records_of_a_sheet(rows, c);
    lemma_data_end_bounds(rows);
    lemma_every_row_is_mapped(
        c,
        resolved_columns(c, rows),
        rows,
        data_start(c, rows),
        data_end(rows),
        r,
    );
}

} // verus!
