//! The XML writer: renders the records of a sheet as one document.
//!
//! ```text
//! <?xml version="1.0" encoding="UTF-8"?>
//! <records xmlns="urn:example">
//!   <record row="1">
//!     <name>Ada</name>
//!   </record>
//! </records>
//! ```
//!
//! The text of a document depends on nothing but the records and the
//! configuration. Writing it to a file is the caller's part.

use vstd::prelude::*;
use vstd::string::StringExecFns;
use crate::coerce::{is_digit, is_digit_char};
use crate::config::{ConfigView, Configuration, Encoding};
use crate::config_text::{encoding_name, encoding_word};
use crate::mapping::{Field, FieldView, Record, RecordView, field_views, is_letter, record_views};
use crate::text::{code_of, decimal, write_decimal};

verus! {

/// Whether a document may hold the character `c`.
pub open spec fn is_xml_char(c: char) -> bool {
    c == '\t' || c == '\n' || c == '\r' || (0x20 <= c as int && c as int != 0xFFFE && c as int
        != 0xFFFF)
}

/// The numeric reference to the character with the number `n`.
pub open spec fn char_reference(n: nat) -> Seq<char> {
    seq!['&', '#'] + decimal(n) + seq![';']
}

/// How one character is written in text and in attribute values. Where
/// `ascii` holds, a character beyond ASCII is written as a reference. A
/// character that no document may hold is replaced by U+FFFD.
pub open spec fn escaped_char(c: char, ascii: bool) -> Seq<char> {
    if c == '&' {
        seq!['&', 'a', 'm', 'p', ';']
    } else if c == '<' {
        seq!['&', 'l', 't', ';']
    } else if c == '>' {
        seq!['&', 'g', 't', ';']
    } else if c == '"' {
        seq!['&', 'q', 'u', 'o', 't', ';']
    } else if c == '\'' {
        seq!['&', 'a', 'p', 'o', 's', ';']
    } else if c == '\r' {
        char_reference(13)
    } else if !is_xml_char(c) {
        if ascii {
            char_reference(0xFFFD)
        } else {
            seq!['\u{FFFD}']
        }
    } else if ascii && c as int > 0x7E {
        char_reference(c as nat)
    } else {
        seq![c]
    }
}

/// How a text is written in text and in attribute values.
pub open spec fn escaped_text(t: Seq<char>, ascii: bool) -> Seq<char>
    decreases t.len(),
{
    if t.len() == 0 {
        Seq::empty()
    } else {
        escaped_text(t.drop_last(), ascii) + escaped_char(t.last(), ascii)
    }
}

/// Whether a character beyond ASCII may start a name.
pub open spec fn is_wide_name_start(v: int) -> bool {
    0xC0 <= v <= 0xD6 || 0xD8 <= v <= 0xF6 || 0xF8 <= v <= 0x2FF || 0x370 <= v <= 0x37D || 0x37F
        <= v <= 0x1FFF || 0x200C <= v <= 0x200D || 0x2070 <= v <= 0x218F || 0x2C00 <= v
        <= 0x2FEF || 0x3001 <= v <= 0xD7FF || 0xF900 <= v <= 0xFDCF || 0xFDF0 <= v <= 0xFFFD
        || 0x10000 <= v <= 0xEFFFF
}

/// Whether a character beyond ASCII may stand in a name, after its start.
pub open spec fn is_wide_name_char(v: int) -> bool {
    is_wide_name_start(v) || v == 0xB7 || 0x300 <= v <= 0x36F || 0x203F <= v <= 0x2040
}

/// Whether a name may start with `c`.
pub open spec fn is_name_start(c: char, ascii: bool) -> bool {
    is_letter(c) || c == '_' || (!ascii && is_wide_name_start(c as int))
}

/// Whether a name may hold `c`.
pub open spec fn is_name_char(c: char, ascii: bool) -> bool {
    is_letter(c) || c == '_' || is_digit(c) || c == '-' || c == '.' || (!ascii
        && is_wide_name_char(c as int))
}

/// What stands for `c` in a name: `c`, or `_` where a name may not hold it.
pub open spec fn name_char(c: char, ascii: bool) -> char {
    if is_name_char(c, ascii) {
        c
    } else {
        '_'
    }
}

/// The name of the element for a target: the target with `_` for every
/// character that a name may not hold, and with `_` before it where a name
/// may not start as it does.
pub open spec fn element_name(target: Seq<char>, ascii: bool) -> Seq<char> {
    let body = Seq::new(target.len(), |i: int| name_char(target[i], ascii));
    if target.len() > 0 && is_name_start(target[0], ascii) {
        body
    } else {
        seq!['_'] + body
    }
}

/// Whether `name` is a name of XML.
pub open spec fn is_name(name: Seq<char>, ascii: bool) -> bool {
    &&& name.len() > 0
    &&& is_name_start(name[0], ascii)
    &&& forall|i: int| 0 <= i < name.len() ==> is_name_char(#[trigger] name[i], ascii)
}

/// Every target gives a name of XML.
pub proof fn lemma_element_name_is_name(target: Seq<char>, ascii: bool)
    ensures
        is_name(element_name(target, ascii), ascii),
{
    let name = element_name(target, ascii);
    let body = Seq::new(target.len(), |i: int| name_char(target[i], ascii));
    assert forall|i: int| 0 <= i < name.len() implies is_name_char(#[trigger] name[i], ascii) by {
        if target.len() > 0 && is_name_start(target[0], ascii) {
            assert(name[i] == name_char(target[i], ascii));
        } else if i > 0 {
            assert(name[i] == body[i - 1]);
        }
    }
}

/// Whether the documents are to hold nothing beyond ASCII.
pub open spec fn ascii_only(e: Encoding) -> bool {
    e == Encoding::UsAscii
}

/// The element that is written for a field.
pub open spec fn field_text(f: FieldView, ascii: bool) -> Seq<char> {
    "    <"@ + element_name(f.name, ascii) + ">"@ + escaped_text(f.value, ascii) + "</"@
        + element_name(f.name, ascii) + ">\n"@
}

/// The elements that are written for the fields of a record.
pub open spec fn fields_text(fields: Seq<FieldView>, ascii: bool) -> Seq<char>
    decreases fields.len(),
{
    if fields.len() == 0 {
        Seq::empty()
    } else {
        fields_text(fields.drop_last(), ascii) + field_text(fields.last(), ascii)
    }
}

/// The element that is written for a record.
pub open spec fn record_text(r: RecordView, ascii: bool) -> Seq<char> {
    "  <record row=\""@ + decimal(r.row as nat) + "\">\n"@ + fields_text(r.fields, ascii)
        + "  </record>\n"@
}

/// The elements that are written for the records of a sheet.
pub open spec fn records_text(records: Seq<RecordView>, ascii: bool) -> Seq<char>
    decreases records.len(),
{
    if records.len() == 0 {
        Seq::empty()
    } else {
        records_text(records.drop_last(), ascii) + record_text(records.last(), ascii)
    }
}

/// The attribute that declares the namespace; nothing where there is none.
pub open spec fn namespace_text(namespace: Seq<char>, ascii: bool) -> Seq<char> {
    if namespace.len() == 0 {
        Seq::empty()
    } else {
        " xmlns=\""@ + escaped_text(namespace, ascii) + "\""@
    }
}

/// The document that is written for the records of a sheet.
pub open spec fn document_text(c: ConfigView, records: Seq<RecordView>) -> Seq<char> {
    let ascii = ascii_only(c.encoding);
    "<?xml version=\"1.0\" encoding=\""@ + encoding_word(c.encoding) + "\"?>\n<"@ + element_name(
        c.root,
        ascii,
    ) + namespace_text(c.namespace, ascii) + ">\n"@ + records_text(records, ascii) + "</"@
        + element_name(c.root, ascii) + ">\n"@
}

/// Appends the numeric reference to the character with the number `n`.
fn write_reference(out: &mut String, n: u32)
    ensures
        final(out)@ == old(out)@ + char_reference(n as nat),
{
    let ghost start = out@;
    out.push('&');
    out.push('#');
    write_decimal(out, n as u64);
    out.push(';');
    proof {
        assert(out@ =~= start + char_reference(n as nat));
    }
}

/// Whether a document may hold the character `c`.
pub fn is_xml_char_code(c: char) -> (b: bool)
    ensures
        b == is_xml_char(c),
{
    let v = code_of(c);
    c == '\t' || c == '\n' || c == '\r' || (0x20 <= v && v != 0xFFFE && v != 0xFFFF)
}

/// Appends what stands for `c` in text and in attribute values.
pub fn write_escaped_char(out: &mut String, c: char, ascii: bool)
    ensures
        final(out)@ == old(out)@ + escaped_char(c, ascii),
{
    let ghost start = out@;
    if c == '&' {
        out.push('&');
        out.push('a');
        out.push('m');
        out.push('p');
        out.push(';');
    } else if c == '<' {
        out.push('&');
        out.push('l');
        out.push('t');
        out.push(';');
    } else if c == '>' {
        out.push('&');
        out.push('g');
        out.push('t');
        out.push(';');
    } else if c == '"' {
        out.push('&');
        out.push('q');
        out.push('u');
        out.push('o');
        out.push('t');
        out.push(';');
    } else if c == '\'' {
        out.push('&');
        out.push('a');
        out.push('p');
        out.push('o');
        out.push('s');
        out.push(';');
    } else if c == '\r' {
        write_reference(out, 13);
    } else if !is_xml_char_code(c) {
        if ascii {
            write_reference(out, 0xFFFD);
        } else {
            out.push('\u{FFFD}');
        }
    } else if ascii && code_of(c) > 0x7E {
        write_reference(out, code_of(c));
    } else {
        out.push(c);
    }
    proof {
        assert(out@ =~= start + escaped_char(c, ascii));
    }
}

/// Appends `t` as it is written in text and in attribute values.
pub fn write_escaped(out: &mut String, t: &str, ascii: bool)
    ensures
        final(out)@ == old(out)@ + escaped_text(t@, ascii),
{
    let ghost start = out@;
    proof {
        assert(out@ =~= start + escaped_text(t@.take(0), ascii));
    }
    for c in it: t.chars()
        invariant
            it.seq() == t@,
            out@ == start + escaped_text(t@.take(it.index() as int), ascii),
    {
        let ghost done = t@.take(it.index() as int);
        write_escaped_char(out, c, ascii);
        proof {
            let next = t@.take(it.index() + 1);
            assert(next.drop_last() =~= done);
            assert(next.last() == c);
            assert(out@ =~= start + escaped_text(next, ascii));
        }
    }
    proof {
        assert(t@.take(t@.len() as int) =~= t@);
    }
}

/// Whether a name may start with `c`.
pub fn is_name_start_char(c: char, ascii: bool) -> (b: bool)
    ensures
        b == is_name_start(c, ascii),
{
    let v = code_of(c);
    (c >= 'a' && c <= 'z') || (c >= 'A' && c <= 'Z') || c == '_' || (!ascii && ((0xC0 <= v && v
        <= 0xD6) || (0xD8 <= v && v <= 0xF6) || (0xF8 <= v && v <= 0x2FF) || (0x370 <= v && v
        <= 0x37D) || (0x37F <= v && v <= 0x1FFF) || (0x200C <= v && v <= 0x200D) || (0x2070 <= v
        && v <= 0x218F) || (0x2C00 <= v && v <= 0x2FEF) || (0x3001 <= v && v <= 0xD7FF) || (
    0xF900 <= v && v <= 0xFDCF) || (0xFDF0 <= v && v <= 0xFFFD) || (0x10000 <= v && v
        <= 0xEFFFF)))
}

/// Whether a name may hold `c`.
pub fn is_name_char_code(c: char, ascii: bool) -> (b: bool)
    ensures
        b == is_name_char(c, ascii),
{
    let v = code_of(c);
    is_name_start_char(c, true) || is_digit_char(c) || c == '-' || c == '.' || (!ascii && (
    is_name_start_char(c, false) || v == 0xB7 || (0x300 <= v && v <= 0x36F) || (0x203F <= v && v
        <= 0x2040)))
}

/// The name of the element for `target`. It is a name of XML.
pub fn element_name_of(target: &str, ascii: bool) -> (name: String)
    ensures
        name@ == element_name(target@, ascii),
        is_name(name@, ascii),
{
    let ghost body = Seq::new(target@.len(), |i: int| name_char(target@[i], ascii));
    let mut name = String::new();
    let mut prefixed = false;
    let mut first = true;
    for c in it: target.chars()
        invariant
            it.seq() == target@,
            first == (it.index() == 0),
            body == Seq::new(target@.len(), |i: int| name_char(target@[i], ascii)),
            prefixed == (it.index() > 0 && !is_name_start(target@[0], ascii)),
            name@ == if prefixed {
                seq!['_'] + body.take(it.index() as int)
            } else {
                body.take(it.index() as int)
            },
    {
        let ghost before = name@;
        let ghost k = it.index() as int;
        if first && !is_name_start_char(c, ascii) {
            name.push('_');
            prefixed = true;
        }
        first = false;
        if is_name_char_code(c, ascii) {
            name.push(c);
        } else {
            name.push('_');
        }
        proof {
            assert(body.take(k + 1) =~= body.take(k).push(name_char(c, ascii)));
            assert(name@ =~= if prefixed {
                seq!['_'] + body.take(k + 1)
            } else {
                body.take(k + 1)
            });
        }
    }
    proof {
        assert(body.take(target@.len() as int) =~= body);
    }
    if target.unicode_len() == 0 {
        name.push('_');
        proof {
            assert(name@ =~= seq!['_'] + body);
        }
    }
    proof {
        lemma_element_name_is_name(target@, ascii);
    }
    name
}

/// Appends the element that stands for `f`.
fn write_field(out: &mut String, f: &Field, ascii: bool)
    ensures
        final(out)@ == old(out)@ + field_text(f@, ascii),
{
    let ghost start = out@;
    let name = element_name_of(f.name.as_str(), ascii);
    out.append("    <");
    out.append(name.as_str());
    out.append(">");
    write_escaped(out, f.value.as_str(), ascii);
    out.append("</");
    out.append(name.as_str());
    out.append(">\n");
    proof {
        assert(out@ =~= start + field_text(f@, ascii));
    }
}

/// Appends the element that stands for `r`.
fn write_record(out: &mut String, r: &Record, ascii: bool)
    ensures
        final(out)@ == old(out)@ + record_text(r@, ascii),
{
    let ghost start = out@;
    let ghost fields = field_views(r.fields@);
    out.append("  <record row=\"");
    write_decimal(out, r.row as u64);
    out.append("\">\n");
    let ghost head = out@;
    proof {
        assert(head =~= start + ("  <record row=\""@ + decimal(r.row as nat) + "\">\n"@));
        assert(out@ =~= head + fields_text(fields.take(0), ascii));
    }
    let mut i: usize = 0;
    while i < r.fields.len()
        invariant
            i <= r.fields.len(),
            fields == field_views(r.fields@),
            out@ == head + fields_text(fields.take(i as int), ascii),
        decreases r.fields.len() - i,
    {
        write_field(out, &r.fields[i], ascii);
        proof {
            let next = fields.take(i + 1);
            assert(next.drop_last() =~= fields.take(i as int));
            assert(next.last() == r.fields[i as int]@);
            assert(out@ =~= head + fields_text(next, ascii));
        }
        i += 1;
    }
    out.append("  </record>\n");
    proof {
        assert(fields.take(r.fields.len() as int) =~= fields);
        assert(out@ =~= start + record_text(r@, ascii));
    }
}

/// Renders the records of a sheet as a document.
///
/// The document names the encoding of the configuration, has its root
/// element and namespace, and holds one element for each record, in their
/// order, with one element for each field. Equal records under an equal
/// configuration give the same text, character for character. In the
/// encoding US-ASCII the text holds nothing beyond ASCII.
pub fn render_document(records: &Vec<Record>, cfg: &Configuration) -> (text: String)
    ensures
        text@ == document_text(cfg@, record_views(records@)),
        cfg@.encoding == Encoding::UsAscii ==> is_ascii_text(text@),
{
    let ghost c = cfg@;
    let ghost views = record_views(records@);
    let ascii = cfg.encoding() == Encoding::UsAscii;
    let root = element_name_of(cfg.root().as_str(), ascii);
    let mut out = String::from_str("<?xml version=\"1.0\" encoding=\"");
    out.append(encoding_name(cfg.encoding()));
    out.append("\"?>\n<");
    out.append(root.as_str());
    let ghost before_namespace = out@;
    if cfg.namespace().as_str().unicode_len() > 0 {
        out.append(" xmlns=\"");
        write_escaped(&mut out, cfg.namespace().as_str(), ascii);
        out.append("\"");
    }
    proof {
        assert(out@ =~= before_namespace + namespace_text(c.namespace, ascii));
    }
    out.append(">\n");
    let ghost head = out@;
    proof {
        assert(out@ =~= head + records_text(views.take(0), ascii));
    }
    let mut i: usize = 0;
    while i < records.len()
        invariant
            i <= records.len(),
            views == record_views(records@),
            out@ == head + records_text(views.take(i as int), ascii),
        decreases records.len() - i,
    {
        write_record(&mut out, &records[i], ascii);
        proof {
            let next = views.take(i + 1);
            assert(next.drop_last() =~= views.take(i as int));
            assert(next.last() == records[i as int]@);
            assert(out@ =~= head + records_text(next, ascii));
        }
        i += 1;
    }
    out.append("</");
    out.append(root.as_str());
    out.append(">\n");
    proof {
        assert(views.take(records.len() as int) =~= views);
        assert(out@ =~= document_text(c, views));
        if c.encoding == Encoding::UsAscii {
            lemma_ascii_document_is_ascii(c, views);
        }
    }
    out
}

/// Whether `t` holds nothing beyond ASCII.
pub open spec fn is_ascii_text(t: Seq<char>) -> bool {
    forall|i: int| 0 <= i < t.len() ==> (#[trigger] t[i]) as int <= 0x7F
}

/// Two texts of ASCII make a text of ASCII.
pub proof fn lemma_ascii_texts_joined(a: Seq<char>, b: Seq<char>)
    requires
        is_ascii_text(a),
        is_ascii_text(b),
    ensures
        is_ascii_text(a + b),
{
    assert forall|i: int| 0 <= i < (a + b).len() implies (#[trigger] (a + b)[i]) as int
        <= 0x7F by {
        if i < a.len() {
            assert((a + b)[i] == a[i]);
        } else {
            assert((a + b)[i] == b[i - a.len()]);
        }
    }
}

/// Decimal digits are ASCII.
pub proof fn lemma_decimal_is_ascii(n: nat)
    ensures
        is_ascii_text(decimal(n)),
    decreases n,
{
    if n >= 10 {
        lemma_decimal_is_ascii(n / 10);
    }
}

/// A numeric reference is ASCII.
pub proof fn lemma_reference_is_ascii(n: nat)
    ensures
        is_ascii_text(char_reference(n)),
{
    lemma_decimal_is_ascii(n);
    lemma_ascii_texts_joined(seq!['&', '#'], decimal(n));
    lemma_ascii_texts_joined(seq!['&', '#'] + decimal(n), seq![';']);
}

/// In a document of ASCII, every character is written in ASCII.
pub proof fn lemma_escaped_char_is_ascii(c: char)
    ensures
        is_ascii_text(escaped_char(c, true)),
{
    lemma_reference_is_ascii(13);
    lemma_reference_is_ascii(0xFFFD);
    lemma_reference_is_ascii(c as nat);
}

/// In a document of ASCII, every text is written in ASCII.
pub proof fn lemma_escaped_text_is_ascii(t: Seq<char>)
    ensures
        is_ascii_text(escaped_text(t, true)),
    decreases t.len(),
{
    if t.len() > 0 {
        lemma_escaped_text_is_ascii(t.drop_last());
        lemma_escaped_char_is_ascii(t.last());
        lemma_ascii_texts_joined(escaped_text(t.drop_last(), true), escaped_char(t.last(), true));
    }
}

/// In a document of ASCII, every name is ASCII.
pub proof fn lemma_element_name_is_ascii(target: Seq<char>)
    ensures
        is_ascii_text(element_name(target, true)),
{
    let name = element_name(target, true);
    let body = Seq::new(target.len(), |i: int| name_char(target[i], true));
    assert forall|i: int| 0 <= i < name.len() implies (#[trigger] name[i]) as int <= 0x7F by {
        if target.len() > 0 && is_name_start(target[0], true) {
            assert(name[i] == name_char(target[i], true));
        } else if i > 0 {
            assert(name[i] == body[i - 1]);
            assert(body[i - 1] == name_char(target[i - 1], true));
        }
    }
}

/// The fixed parts of a document are ASCII.
proof fn lemma_markup_is_ascii()
    ensures
        is_ascii_text("    <"@),
        is_ascii_text(">"@),
        is_ascii_text("</"@),
        is_ascii_text(">\n"@),
        is_ascii_text("  <record row=\""@),
        is_ascii_text("\">\n"@),
        is_ascii_text("  </record>\n"@),
        is_ascii_text(" xmlns=\""@),
        is_ascii_text("\""@),
        is_ascii_text("<?xml version=\"1.0\" encoding=\""@),
        is_ascii_text("\"?>\n<"@),
        is_ascii_text("US-ASCII"@),
{
    reveal_strlit("    <");
    reveal_strlit(">");
    reveal_strlit("</");
    reveal_strlit(">\n");
    reveal_strlit("  <record row=\"");
    reveal_strlit("\">\n");
    reveal_strlit("  </record>\n");
    reveal_strlit(" xmlns=\"");
    reveal_strlit("\"");
    reveal_strlit("<?xml version=\"1.0\" encoding=\"");
    reveal_strlit("\"?>\n<");
    reveal_strlit("US-ASCII");
}

/// In a document of ASCII, the element of a field is ASCII.
pub proof fn lemma_field_text_is_ascii(f: FieldView)
    ensures
        is_ascii_text(field_text(f, true)),
{
    lemma_markup_is_ascii();
    let name = element_name(f.name, true);
    lemma_element_name_is_ascii(f.name);
    lemma_escaped_text_is_ascii(f.value);
    let t1 = "    <"@ + name;
    lemma_ascii_texts_joined("    <"@, name);
    let t2 = t1 + ">"@;
    lemma_ascii_texts_joined(t1, ">"@);
    let t3 = t2 + escaped_text(f.value, true);
    lemma_ascii_texts_joined(t2, escaped_text(f.value, true));
    let t4 = t3 + "</"@;
    lemma_ascii_texts_joined(t3, "</"@);
    let t5 = t4 + name;
    lemma_ascii_texts_joined(t4, name);
    lemma_ascii_texts_joined(t5, ">\n"@);
}

/// In a document of ASCII, the elements of fields are ASCII.
pub proof fn lemma_fields_text_is_ascii(fields: Seq<FieldView>)
    ensures
        is_ascii_text(fields_text(fields, true)),
    decreases fields.len(),
{
    if fields.len() > 0 {
        lemma_fields_text_is_ascii(fields.drop_last());
        lemma_field_text_is_ascii(fields.last());
        lemma_ascii_texts_joined(
            fields_text(fields.drop_last(), true),
            field_text(fields.last(), true),
        );
    }
}

/// In a document of ASCII, the element of a record is ASCII.
pub proof fn lemma_record_text_is_ascii(r: RecordView)
    ensures
        is_ascii_text(record_text(r, true)),
{
    lemma_markup_is_ascii();
    lemma_decimal_is_ascii(r.row as nat);
    lemma_fields_text_is_ascii(r.fields);
    let t1 = "  <record row=\""@ + decimal(r.row as nat);
    lemma_ascii_texts_joined("  <record row=\""@, decimal(r.row as nat));
    let t2 = t1 + "\">\n"@;
    lemma_ascii_texts_joined(t1, "\">\n"@);
    let t3 = t2 + fields_text(r.fields, true);
    lemma_ascii_texts_joined(t2, fields_text(r.fields, true));
    lemma_ascii_texts_joined(t3, "  </record>\n"@);
}

/// In a document of ASCII, the elements of records are ASCII.
pub proof fn lemma_records_text_is_ascii(records: Seq<RecordView>)
    ensures
        is_ascii_text(records_text(records, true)),
    decreases records.len(),
{
    if records.len() > 0 {
        lemma_records_text_is_ascii(records.drop_last());
        lemma_record_text_is_ascii(records.last());
        lemma_ascii_texts_joined(
            records_text(records.drop_last(), true),
            record_text(records.last(), true),
        );
    }
}

/// A document in the encoding US-ASCII holds nothing beyond ASCII, whatever
/// the records and the names of the configuration hold.
pub proof fn lemma_ascii_document_is_ascii(c: ConfigView, records: Seq<RecordView>)
    requires
        c.encoding == Encoding::UsAscii,
    ensures
        is_ascii_text(document_text(c, records)),
{
    lemma_markup_is_ascii();
    let root = element_name(c.root, true);
    lemma_element_name_is_ascii(c.root);
    lemma_records_text_is_ascii(records);
    let namespace = namespace_text(c.namespace, true);
    assert(is_ascii_text(namespace)) by {
        if c.namespace.len() > 0 {
            lemma_escaped_text_is_ascii(c.namespace);
            lemma_ascii_texts_joined(" xmlns=\""@, escaped_text(c.namespace, true));
            lemma_ascii_texts_joined(" xmlns=\""@ + escaped_text(c.namespace, true), "\""@);
        }
    }
    let t1 = "<?xml version=\"1.0\" encoding=\""@ + encoding_word(c.encoding);
    lemma_ascii_texts_joined("<?xml version=\"1.0\" encoding=\""@, encoding_word(c.encoding));
    let t2 = t1 + "\"?>\n<"@;
    lemma_ascii_texts_joined(t1, "\"?>\n<"@);
    let t3 = t2 + root;
    lemma_ascii_texts_joined(t2, root);
    let t4 = t3 + namespace;
    lemma_ascii_texts_joined(t3, namespace);
    let t5 = t4 + ">\n"@;
    lemma_ascii_texts_joined(t4, ">\n"@);
    let t6 = t5 + records_text(records, true);
    lemma_ascii_texts_joined(t5, records_text(records, true));
    let t7 = t6 + "</"@;
    lemma_ascii_texts_joined(t6, "</"@);
    let t8 = t7 + root;
    lemma_ascii_texts_joined(t7, root);
    lemma_ascii_texts_joined(t8, ">\n"@);
}

/// Whether `c` may stand in the text of an element and in the value of an
/// attribute without ending either: it is none of `<`, `>`, `"` and `'`, no
/// carriage return, and a character that a document may hold.
pub open spec fn is_harmless(c: char) -> bool {
    c != '<' && c != '>' && c != '"' && c != '\'' && c != '\r' && is_xml_char(c)
}

/// Whether every character of `t` is harmless.
pub open spec fn is_harmless_text(t: Seq<char>) -> bool {
    forall|i: int| 0 <= i < t.len() ==> is_harmless(#[trigger] t[i])
}

/// Two harmless texts make a harmless text.
pub proof fn lemma_harmless_texts_joined(a: Seq<char>, b: Seq<char>)
    requires
        is_harmless_text(a),
        is_harmless_text(b),
    ensures
        is_harmless_text(a + b),
{
    assert forall|i: int| 0 <= i < (a + b).len() implies is_harmless(#[trigger] (a + b)[i]) by {
        if i < a.len() {
            assert((a + b)[i] == a[i]);
        } else {
            assert((a + b)[i] == b[i - a.len()]);
        }
    }
}

/// Decimal digits are harmless.
pub proof fn lemma_decimal_is_harmless(n: nat)
    ensures
        is_harmless_text(decimal(n)),
    decreases n,
{
    if n >= 10 {
        lemma_decimal_is_harmless(n / 10);
    }
}

/// A numeric reference is harmless.
pub proof fn lemma_reference_is_harmless(n: nat)
    ensures
        is_harmless_text(char_reference(n)),
{
    lemma_decimal_is_harmless(n);
    lemma_harmless_texts_joined(seq!['&', '#'], decimal(n));
    lemma_harmless_texts_joined(seq!['&', '#'] + decimal(n), seq![';']);
}

/// What is written for a character is harmless.
pub proof fn lemma_escaped_char_is_harmless(c: char, ascii: bool)
    ensures
        is_harmless_text(escaped_char(c, ascii)),
{
    lemma_reference_is_harmless(13);
    lemma_reference_is_harmless(0xFFFD);
    lemma_reference_is_harmless(c as nat);
}

/// What is written for a text can end neither the element nor the attribute
/// value that it stands in, whatever the text holds.
pub proof fn lemma_escaped_text_is_harmless(t: Seq<char>, ascii: bool)
    ensures
        is_harmless_text(escaped_text(t, ascii)),
    decreases t.len(),
{
    if t.len() > 0 {
        lemma_escaped_text_is_harmless(t.drop_last(), ascii);
        lemma_escaped_char_is_harmless(t.last(), ascii);
        lemma_harmless_texts_joined(
            escaped_text(t.drop_last(), ascii),
            escaped_char(t.last(), ascii),
        );
    }
}

} // verus!
