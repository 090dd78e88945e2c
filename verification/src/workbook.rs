//! A workbook as the engine sees it: named sheets of rows of cells, every
//! cell as the text that it shows.
//!
//! Opening a file and decoding its cells is the caller's part. The rows of a
//! workbook are held in memory, so they can be read as often as needed.

use vstd::prelude::*;

verus! {

/// Why a workbook could not be read.
#[derive(Clone, Copy, Debug, PartialEq, Eq, Structural)]
pub enum ReadError {
    /// There is no file at the path.
    NotFound,
    /// The file is no spreadsheet container that is known.
    UnsupportedFormat,
    /// The container could be read, but what it holds does not fit together.
    Corrupt,
    /// The workbook has no sheet of the name asked for.
    SheetNotFound,
}

/// A named table of rows. A cell is the text that it shows; a blank cell is
/// the empty text.
#[derive(Debug, PartialEq, Eq)]
pub struct Sheet {
    pub name: String,
    pub rows: Vec<Vec<String>>,
}

/// A sheet as a mathematical value.
pub struct SheetView {
    pub name: Seq<char>,
    pub rows: Seq<Seq<Seq<char>>>,
}

impl View for Sheet {
    type V = SheetView;

    open spec fn view(&self) -> SheetView {
        SheetView { name: self.name@, rows: self.rows.deep_view() }
    }
}

/// The sheets of `v` as mathematical values.
pub open spec fn sheet_views(v: Seq<Sheet>) -> Seq<SheetView> {
    Seq::new(v.len(), |i: int| v[i]@)
}

/// No two of the sheets have the same name.
pub open spec fn names_unique(sheets: Seq<SheetView>) -> bool {
    forall|i: int, j: int| 0 <= i < j < sheets.len() ==> sheets[i].name != sheets[j].name
}

/// The position of the first of `sheets[from..]` that is called `name`.
pub open spec fn sheet_position(sheets: Seq<SheetView>, name: Seq<char>, from: int) -> Option<int>
    decreases sheets.len() - from,
{
    if from < 0 || from >= sheets.len() {
        None
    } else if sheets[from].name == name {
        Some(from)
    } else {
        sheet_position(sheets, name, from + 1)
    }
}

/// The sheets of one spreadsheet file, in the order of the file. No two of
/// them have the same name.
#[derive(Debug, PartialEq, Eq)]
pub struct Workbook {
    sheets: Vec<Sheet>,
}

impl View for Workbook {
    type V = Seq<SheetView>;

    closed spec fn view(&self) -> Seq<SheetView> {
        sheet_views(self.sheets@)
    }
}

/// Whether one of `sheets[from..]` is called `name`.
fn has_sheet_from(sheets: &Vec<Sheet>, name: &String, from: usize) -> (found: bool)
    requires
        from <= sheets.len(),
    ensures
        found == exists|j: int| from <= j < sheets.len() && sheet_views(sheets@)[j].name == name@,
{
    let mut j: usize = from;
    while j < sheets.len()
        invariant
            from <= j <= sheets.len(),
            forall|k: int| from <= k < j ==> sheet_views(sheets@)[k].name != name@,
        decreases sheets.len() - j,
    {
        if sheets[j].name == *name {
            assert(sheet_views(sheets@)[j as int].name == name@);
            return true;
        }
        j += 1;
    }
    false
}

/// Whether no two of `sheets` have the same name.
pub fn has_unique_names(sheets: &Vec<Sheet>) -> (unique: bool)
    ensures
        unique == names_unique(sheet_views(sheets@)),
{
    let ghost views = sheet_views(sheets@);
    let mut i: usize = 0;
    while i < sheets.len()
        invariant
            i <= sheets.len(),
            views == sheet_views(sheets@),
            forall|a: int, b: int|
                0 <= a < i && a < b < views.len() ==> views[a].name != views[b].name,
        decreases sheets.len() - i,
    {
        if has_sheet_from(sheets, &sheets[i].name, i + 1) {
            let ghost j = choose|j: int|
                i + 1 <= j < views.len() && views[j].name == views[i as int].name;
            assert(views[i as int].name == views[j].name);
            return false;
        }
        i += 1;
    }
    true
}

impl Workbook {
    /// What holds of every workbook.
    #[verifier::type_invariant]
    pub open spec fn well_formed(&self) -> bool {
        names_unique(self@)
    }

    /// Builds a workbook from its sheets, or refuses them as `Corrupt` where
    /// two of them have the same name.
    pub fn new(sheets: Vec<Sheet>) -> (r: Result<Workbook, ReadError>)
        ensures
            match r {
                Ok(w) => w@ == sheet_views(sheets@) && names_unique(w@),
                Err(e) => e == ReadError::Corrupt && !names_unique(sheet_views(sheets@)),
            },
    {
        if has_unique_names(&sheets) {
            Ok(Workbook { sheets })
        } else {
            Err(ReadError::Corrupt)
        }
    }

    /// The sheets, in the order of the file.
    pub fn sheets(&self) -> (s: &Vec<Sheet>)
        ensures
            sheet_views(s@) == self@,
            names_unique(self@),
    {
        proof {
            use_type_invariant(self);
        }
        &self.sheets
    }

    /// The names of the sheets, in the order of the file; none for a
    /// workbook without sheets.
    pub fn list_sheet_names(&self) -> (names: Vec<String>)
        ensures
            names@.len() == self@.len(),
            forall|i: int| 0 <= i < names@.len() ==> (#[trigger] names@[i])@ == self@[i].name,
    {
        let mut names: Vec<String> = Vec::new();
        let mut i: usize = 0;
        while i < self.sheets.len()
            invariant
                i <= self.sheets.len(),
                names@.len() == i,
                forall|k: int| 0 <= k < i ==> (#[trigger] names@[k])@ == self@[k].name,
            decreases self.sheets.len() - i,
        {
            names.push(self.sheets[i].name.clone());
            i += 1;
        }
        names
    }

    /// The rows of the sheet called `name`, or `SheetNotFound` where the
    /// workbook has no such sheet. The rows can be read again at any time.
    pub fn read_rows(&self, name: &str) -> (r: Result<&Vec<Vec<String>>, ReadError>)
        ensures
            match r {
                Ok(rows) => sheet_position(self@, name@, 0) matches Some(k) && rows.deep_view()
                    == self@[k].rows,
                Err(e) => e == ReadError::SheetNotFound && sheet_position(self@, name@, 0) is None,
            },
    {
        let mut i: usize = 0;
        while i < self.sheets.len()
            invariant
                i <= self.sheets.len(),
                sheet_position(self@, name@, 0) == sheet_position(self@, name@, i as int),
            decreases self.sheets.len() - i,
        {
            if crate::text::is_text(&self.sheets[i].name, name) {
                return Ok(&self.sheets[i].rows);
            }
            i += 1;
        }
        Err(ReadError::SheetNotFound)
    }
}

/// Where a sheet is found by its name, it has that name and no sheet before
/// it has; where none is found, no sheet has the name.
pub proof fn lemma_sheet_position(sheets: Seq<SheetView>, name: Seq<char>, from: int)
    requires
        0 <= from,
    ensures
        match sheet_position(sheets, name, from) {
            Some(k) => from <= k < sheets.len() && sheets[k].name == name && forall|j: int|
                from <= j < k ==> sheets[j].name != name,
            None => forall|j: int| from <= j < sheets.len() ==> sheets[j].name != name,
        },
    decreases sheets.len() - from,
{
    if from < sheets.len() && sheets[from].name != name {
        lemma_sheet_position(sheets, name, from + 1);
    }
}

} // verus!
