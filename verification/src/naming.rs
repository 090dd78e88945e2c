//! The names of the files that the documents are written to.
//!
//! A letter, a digit or a hyphen of the sheet's name stands for itself. Any
//! other character is written as `_`, its number in decimal digits and `_`,
//! so that the name is safe on every file system and no two sheets share a
//! file.

use vstd::prelude::*;
use vstd::string::StringExecFns;
use crate::coerce::{is_digit, is_digit_char};
use crate::mapping::is_letter;
use crate::text::{
    code_of, decimal, lemma_decimal_is_digits, lemma_digits_value_of_decimal, write_decimal,
};
use crate::workbook::{SheetView, names_unique};


verus! {

/// Whether `c` stands for itself in a file name.
pub open spec fn is_plain(c: char) -> bool {
    is_letter(c) || is_digit(c) || c == '-'
}

/// What stands for `c` in a file name.
pub open spec fn file_char(c: char) -> Seq<char> {
    if is_plain(c) {
        seq![c]
    } else {
        seq!['_'] + decimal(c as nat) + seq!['_']
    }
}

/// What stands for the name of a sheet in a file name.
pub open spec fn file_stem(name: Seq<char>) -> Seq<char>
    decreases name.len(),
{
    if name.len() == 0 {
        Seq::empty()
    } else {
        file_stem(name.drop_last()) + file_char(name.last())
    }
}

/// The name of the file for the sheet called `name`.
pub open spec fn file_name(name: Seq<char>) -> Seq<char> {
    file_stem(name) + ".xml"@
}

/// Whether `c` stands for itself in a file name.
pub fn is_plain_char(c: char) -> (b: bool)
    ensures
        b == is_plain(c),
{
    (c >= 'a' && c <= 'z') || (c >= 'A' && c <= 'Z') || is_digit_char(c) || c == '-'
}

/// The name of the file for the sheet called `name`.
pub fn file_name_of(name: &str) -> (file: String)
    ensures
        file@ == file_name(name@),
{
    let mut file = String::new();
    proof {
        assert(file@ =~= file_stem(name@.take(0)));
    }
    for c in it: name.chars()
        invariant
            it.seq() == name@,
            file@ == file_stem(name@.take(it.index() as int)),
    {
        let ghost before = file@;
        if is_plain_char(c) {
            file.push(c);
        } else {
            file.push('_');
            write_decimal(&mut file, code_of(c) as u64);
            file.push('_');
        }
        proof {
            let next = name@.take(it.index() + 1);
            assert(next.drop_last() =~= name@.take(it.index() as int));
            assert(next.last() == c);
            assert(file@ =~= before + file_char(c));
        }
    }
    proof {
        assert(name@.take(name@.len() as int) =~= name@);
    }
    file.append(".xml");
    file
}

/// What stands for a character that does not stand for itself: its place
/// from the end of a text that ends with it.
proof fn lemma_coded_char_at_end(before: Seq<char>, c: char, k: int)
    requires
        !is_plain(c),
        0 <= k <= decimal(c as nat).len() + 1,
    ensures
        (before + file_char(c)).len() == before.len() + decimal(c as nat).len() + 2,
        k == 0 || k == decimal(c as nat).len() + 1 ==> (before + file_char(c))[(before
            + file_char(c)).len() - 1 - k] == '_',
        0 < k <= decimal(c as nat).len() ==> (before + file_char(c))[(before + file_char(
            c,
        )).len() - 1 - k] == decimal(c as nat)[decimal(c as nat).len() - k],
{
}

/// Two characters that do not stand for themselves and are written alike
/// at the end of one text are the same character.
proof fn lemma_coded_chars_agree(sa: Seq<char>, ca: char, sb: Seq<char>, cb: char)
    requires
        !is_plain(ca),
        !is_plain(cb),
        sa + file_char(ca) == sb + file_char(cb),
    ensures
        ca == cb,
        sa == sb,
{
    let text = sa + file_char(ca);
    let da = decimal(ca as nat);
    let db = decimal(cb as nat);
    let p = da.len() as int;
    let q = db.len() as int;
    lemma_decimal_is_digits(ca as nat);
    lemma_decimal_is_digits(cb as nat);
    if p < q {
        lemma_coded_char_at_end(sa, ca, p + 1);
        lemma_coded_char_at_end(sb, cb, p + 1);
        assert(is_digit(db[q - (p + 1)]));
        assert(false);
    }
    if q < p {
        lemma_coded_char_at_end(sa, ca, q + 1);
        lemma_coded_char_at_end(sb, cb, q + 1);
        assert(is_digit(da[p - (q + 1)]));
        assert(false);
    }
    lemma_coded_char_at_end(sa, ca, 0);
    lemma_coded_char_at_end(sb, cb, 0);
    assert(da =~= db) by {
        assert forall|i: int| 0 <= i < p implies da[i] == db[i] by {
            lemma_coded_char_at_end(sa, ca, p - i);
            lemma_coded_char_at_end(sb, cb, p - i);
        }
    }
    lemma_digits_value_of_decimal(ca as nat);
    lemma_digits_value_of_decimal(cb as nat);
    assert(ca as nat == cb as nat);
    assert(sa =~= text.take(sa.len() as int));
    assert(sb =~= text.take(sb.len() as int));
}

/// Sheets with different names have different stems.
pub proof fn lemma_file_stems_differ(a: Seq<char>, b: Seq<char>)
    requires
        file_stem(a) == file_stem(b),
    ensures
        a == b,
    decreases a.len(),
{
    if a.len() == 0 {
        if b.len() > 0 {
            assert(file_char(b.last()).len() > 0);
            assert(file_stem(b).len() > 0);
        }
        assert(a =~= b);
    } else if b.len() == 0 {
        assert(file_char(a.last()).len() > 0);
        assert(file_stem(a).len() > 0);
    } else {
        let sa = file_stem(a.drop_last());
        let sb = file_stem(b.drop_last());
        let ca = a.last();
        let cb = b.last();
        let text = file_stem(a);
        assert(text == sa + file_char(ca));
        assert(text == sb + file_char(cb));
        if is_plain(ca) {
            assert(text[text.len() - 1] == ca);
            if !is_plain(cb) {
                lemma_coded_char_at_end(sb, cb, 0);
                assert(false);
            }
            assert(text[text.len() - 1] == cb);
            assert(sa =~= text.drop_last());
            assert(sb =~= text.drop_last());
        } else {
            lemma_coded_char_at_end(sa, ca, 0);
            if is_plain(cb) {
                assert(text[text.len() - 1] == cb);
                assert(false);
            }
            lemma_coded_chars_agree(sa, ca, sb, cb);
        }
        lemma_file_stems_differ(a.drop_last(), b.drop_last());
        assert(a =~= a.drop_last().push(ca));
        assert(b =~= b.drop_last().push(cb));
    }
}

/// Sheets with different names are written to different files: where two
/// names give the same file name, they are the same name.
pub proof fn lemma_file_names_differ(a: Seq<char>, b: Seq<char>)
    requires
        file_name(a) == file_name(b),
    ensures
        a == b,
{
    let end = ".xml"@;
    let text = file_name(a);
    assert(file_stem(a) =~= text.take(text.len() - end.len()));
    assert(file_stem(b) =~= text.take(text.len() - end.len()));
    lemma_file_stems_differ(a, b);
}

/// No two sheets of a workbook share a file.
pub proof fn lemma_every_sheet_has_its_own_file(sheets: Seq<SheetView>)
    requires
        names_unique(sheets),
    ensures
        forall|i: int, j: int|
            0 <= i < j < sheets.len() ==> file_name(#[trigger] sheets[i].name) != file_name(
                #[trigger] sheets[j].name,
            ),
{
    assert forall|i: int, j: int| 0 <= i < j < sheets.len() implies file_name(
        #[trigger] sheets[i].name,
    ) != file_name(#[trigger] sheets[j].name) by {
        if file_name(sheets[i].name) == file_name(sheets[j].name) {
            lemma_file_names_differ(sheets[i].name, sheets[j].name);
        }
    }
}

} // verus!
