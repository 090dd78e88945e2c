use sheet_to_xml::config::{CoercionPolicy, Configuration, Encoding, FieldMapping, TypeHint};
use sheet_to_xml::mapping::{Field, Record};
use sheet_to_xml::naming::file_name_of;
use sheet_to_xml::text::write_decimal;
use sheet_to_xml::xml::{element_name_of, render_document, write_escaped};

fn config(encoding: Encoding, root: &str, namespace: &str) -> Configuration {
    Configuration::new(
        vec![FieldMapping {
            source: "A".to_string(),
            target: "value".to_string(),
            default: String::new(),
            type_hint: TypeHint::Text,
        }],
        encoding,
        root.to_string(),
        namespace.to_string(),
        false,
        CoercionPolicy::AbortRecord,
    )
    .unwrap()
}

fn record(row: usize, fields: &[(&str, &str)]) -> Record {
    Record {
        row,
        fields: fields
            .iter()
            .map(|(n, v)| Field { name: n.to_string(), value: v.to_string() })
            .collect(),
    }
}

fn escaped(t: &str, ascii: bool) -> String {
    let mut out = String::from(">");
    write_escaped(&mut out, t, ascii);
    out
}

fn decimal(n: u64) -> String {
    let mut out = String::new();
    write_decimal(&mut out, n);
    out
}

#[test]
fn decimal_digits() {
    assert_eq!(decimal(0), "0");
    assert_eq!(decimal(7), "7");
    assert_eq!(decimal(10), "10");
    assert_eq!(decimal(1234567890), "1234567890");
    assert_eq!(decimal(u64::MAX), "18446744073709551615");
}

#[test]
fn reserved_characters_are_escaped() {
    assert_eq!(escaped("a<b>&\"c'", false), ">a&lt;b&gt;&amp;&quot;c&apos;");
    assert_eq!(escaped("", false), ">");
    assert_eq!(escaped("line\n\ttab\r", false), ">line\n\ttab&#13;");
    assert_eq!(escaped("d\u{e9}j\u{e0} \u{1F600}", false), ">d\u{e9}j\u{e0} \u{1F600}");
    assert_eq!(escaped("\u{0}\u{1f}\u{fffe}\u{ffff}", false), ">\u{fffd}\u{fffd}\u{fffd}\u{fffd}");
}

#[test]
fn ascii_documents_hold_references() {
    assert_eq!(escaped("d\u{e9}j\u{e0} \u{1F600}~\u{7f}", true), ">d&#233;j&#224; &#128512;~&#127;");
    assert_eq!(escaped("\u{1}<", true), ">&#65533;&lt;");
}

#[test]
fn element_names() {
    assert_eq!(element_name_of("name", false), "name");
    assert_eq!(element_name_of("first name", false), "first_name");
    assert_eq!(element_name_of("a/b:c", false), "a_b_c");
    assert_eq!(element_name_of("1st", false), "_1st");
    assert_eq!(element_name_of("-x.y-1", false), "_-x.y-1");
    assert_eq!(element_name_of("", false), "_");
    assert_eq!(element_name_of("_ok", true), "_ok");
    assert_eq!(element_name_of("pr\u{e9}nom", false), "pr\u{e9}nom");
    assert_eq!(element_name_of("pr\u{e9}nom", true), "pr_nom");
    assert_eq!(element_name_of("\u{e9}t\u{e9}", true), "__t_");
    assert_eq!(element_name_of("a\u{d7}b\u{b7}", false), "a_b\u{b7}");
    assert_eq!(element_name_of("\u{b7}a", false), "_\u{b7}a");
}

#[test]
fn document_of_records() {
    let cfg = config(Encoding::Utf8, "people", "urn:example:people");
    let records = vec![
        record(1, &[("name", "Ada & Co"), ("age", "36")]),
        record(12, &[("name", "<Alan>"), ("age", "")]),
    ];
    assert_eq!(
        render_document(&records, &cfg),
        "<?xml version=\"1.0\" encoding=\"UTF-8\"?>\n\
         <people xmlns=\"urn:example:people\">\n\
         \x20 <record row=\"1\">\n\
         \x20   <name>Ada &amp; Co</name>\n\
         \x20   <age>36</age>\n\
         \x20 </record>\n\
         \x20 <record row=\"12\">\n\
         \x20   <name>&lt;Alan&gt;</name>\n\
         \x20   <age></age>\n\
         \x20 </record>\n\
         </people>\n"
    );
}

#[test]
fn document_without_records_or_namespace() {
    let cfg = config(Encoding::UsAscii, "my root", "");
    assert_eq!(
        render_document(&Vec::new(), &cfg),
        "<?xml version=\"1.0\" encoding=\"US-ASCII\"?>\n<my_root>\n</my_root>\n"
    );
}

#[test]
fn ascii_document_is_ascii() {
    let cfg = config(Encoding::UsAscii, "r\u{e9}sum\u{e9}", "urn:\u{e9}\"");
    let records = vec![record(0, &[("pr\u{e9}nom", "Zo\u{eb}")])];
    let text = render_document(&records, &cfg);
    assert!(text.is_ascii());
    assert_eq!(
        text,
        "<?xml version=\"1.0\" encoding=\"US-ASCII\"?>\n\
         <r_sum_ xmlns=\"urn:&#233;&quot;\">\n\
         \x20 <record row=\"0\">\n\
         \x20   <pr_nom>Zo&#235;</pr_nom>\n\
         \x20 </record>\n\
         </r_sum_>\n"
    );
}

#[test]
fn rendering_twice_gives_the_same_text() {
    let cfg = config(Encoding::Utf8, "records", "");
    let records = vec![record(3, &[("a", "x"), ("b", "y")])];
    assert_eq!(render_document(&records, &cfg), render_document(&records, &cfg.clone()));
}

#[test]
fn file_names() {
    assert_eq!(file_name_of("Sheet1"), "Sheet1.xml");
    assert_eq!(file_name_of("My Sheet"), "My_32_Sheet.xml");
    assert_eq!(file_name_of("a_b"), "a_95_b.xml");
    assert_eq!(file_name_of("a/b\\c.d"), "a_47_b_92_c_46_d.xml");
    assert_eq!(file_name_of(""), ".xml");
    assert_eq!(file_name_of("\u{e9}t\u{e9}-2024"), "_233_t_233_-2024.xml");
    assert_ne!(file_name_of("a b"), file_name_of("a_b"));
    assert_ne!(file_name_of("_3"), file_name_of("_"));
}
