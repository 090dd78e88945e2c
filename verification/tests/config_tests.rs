use sheet_to_xml::config::{
    load_default, CoercionPolicy, ConfigError, Configuration, Encoding, FieldMapping, TypeHint,
};
use sheet_to_xml::config_text::{get_default_cfg_json, parse, serialize};

fn mapping(source: &str, target: &str, default: &str, type_hint: TypeHint) -> FieldMapping {
    FieldMapping {
        source: source.to_string(),
        target: target.to_string(),
        default: default.to_string(),
        type_hint,
    }
}

#[test]
fn default_configuration_text() {
    assert_eq!(
        get_default_cfg_json(),
        "{\"mappings\":[{\"source\":\"A\",\"target\":\"value\",\"default\":\"\",\"type\":\"string\"}],\"encoding\":\"UTF-8\",\"root\":\"records\",\"namespace\":\"\",\"header\":false,\"on_error\":\"skip-field-use-default\"}"
    );
}

#[test]
fn default_configuration_parses_back() {
    assert_eq!(parse(&get_default_cfg_json()), Ok(load_default()));
}

#[test]
fn round_trip_with_escapes() {
    let c = Configuration::new(
        vec![
            mapping("Name \"x\"", "na\\me", "line\nbreak\ttab\u{1}\u{1f}", TypeHint::Text),
            mapping("B", "price", "0.0", TypeHint::Number),
            mapping("C", "d\u{e9}but \u{1F600}", "2020-01-01", TypeHint::Date),
        ],
        Encoding::UsAscii,
        "r\u{8}\u{c}\r".to_string(),
        "urn:example".to_string(),
        true,
        CoercionPolicy::AbortRun,
    )
    .unwrap();
    let text = serialize(&c);
    assert_eq!(parse(&text), Ok(c));
}

#[test]
fn round_trip_without_mappings() {
    let c = Configuration::new(
        vec![],
        Encoding::Utf8,
        String::new(),
        String::new(),
        false,
        CoercionPolicy::AbortRecord,
    )
    .unwrap();
    let text = serialize(&c);
    assert_eq!(
        text,
        "{\"mappings\":[],\"encoding\":\"UTF-8\",\"root\":\"\",\"namespace\":\"\",\"header\":false,\"on_error\":\"abort-record\"}"
    );
    assert_eq!(parse(&text), Ok(c));
}

#[test]
fn malformed_config() {
    assert_eq!(parse("{not json"), Err(ConfigError::Malformed));
}

#[test]
fn empty_text_is_malformed() {
    assert_eq!(parse(""), Err(ConfigError::Malformed));
    assert_eq!(parse("   "), Err(ConfigError::Malformed));
}

#[test]
fn empty_object_is_the_default() {
    assert_eq!(parse("{}"), Ok(load_default()));
    assert_eq!(parse(" \n{ \t}\r\n"), Ok(load_default()));
}

#[test]
fn blanks_and_any_order() {
    let text = " {\n  \"header\" : true ,\n  \"root\" : \"rows\",\n  \"mappings\" : [ { \"target\" : \"id\" , \"source\" : \"Id\", \"type\":\"number\" } , {\"source\":\"Name\",\"target\":\"name\"} ]\n}\n";
    let c = parse(text).unwrap();
    assert_eq!(c.has_header(), true);
    assert_eq!(c.root(), "rows");
    assert_eq!(c.namespace(), "");
    assert_eq!(c.encoding(), Encoding::Utf8);
    assert_eq!(c.on_failure(), CoercionPolicy::SkipFieldUseDefault);
    assert_eq!(
        c.mappings(),
        &vec![
            mapping("Id", "id", "", TypeHint::Number),
            mapping("Name", "name", "", TypeHint::Text),
        ]
    );
}

#[test]
fn escapes_are_read() {
    let text = "{\"root\":\"a\\\"b\\\\c\\/d\\b\\f\\n\\r\\t\\u0041\\u00e9\\uD83D\\uDE00\"}";
    let c = parse(text).unwrap();
    assert_eq!(c.root(), "a\"b\\c/d\u{8}\u{c}\n\r\tA\u{e9}\u{1F600}");
}

#[test]
fn bad_escapes_are_malformed() {
    assert_eq!(parse("{\"root\":\"\\x\"}"), Err(ConfigError::Malformed));
    assert_eq!(parse("{\"root\":\"\\u12\"}"), Err(ConfigError::Malformed));
    assert_eq!(parse("{\"root\":\"\\uD83D\"}"), Err(ConfigError::Malformed));
    assert_eq!(parse("{\"root\":\"\\uDE00\"}"), Err(ConfigError::Malformed));
    assert_eq!(parse("{\"root\":\"\\uD83D\\u0041\"}"), Err(ConfigError::Malformed));
    assert_eq!(parse("{\"root\":\"a\nb\"}"), Err(ConfigError::Malformed));
    assert_eq!(parse("{\"root\":\"open"), Err(ConfigError::Malformed));
}

#[test]
fn unknown_key_is_refused() {
    assert_eq!(parse("{\"colour\":\"red\"}"), Err(ConfigError::UnknownKey));
    assert_eq!(
        parse("{\"mappings\":[{\"source\":\"A\",\"target\":\"a\",\"note\":\"x\"}]}"),
        Err(ConfigError::UnknownKey)
    );
}

#[test]
fn duplicate_key_is_refused() {
    assert_eq!(parse("{\"root\":\"a\",\"root\":\"b\"}"), Err(ConfigError::DuplicateKey));
    assert_eq!(
        parse("{\"mappings\":[{\"source\":\"A\",\"source\":\"B\",\"target\":\"a\"}]}"),
        Err(ConfigError::DuplicateKey)
    );
}

#[test]
fn missing_key_is_refused() {
    assert_eq!(parse("{\"mappings\":[{\"source\":\"A\"}]}"), Err(ConfigError::MissingKey));
    assert_eq!(parse("{\"mappings\":[{\"target\":\"a\"}]}"), Err(ConfigError::MissingKey));
    assert_eq!(parse("{\"mappings\":[{}]}"), Err(ConfigError::MissingKey));
}

#[test]
fn invalid_value_is_refused() {
    assert_eq!(parse("{\"encoding\":\"latin1\"}"), Err(ConfigError::InvalidValue));
    assert_eq!(parse("{\"on_error\":\"ignore\"}"), Err(ConfigError::InvalidValue));
    assert_eq!(
        parse("{\"mappings\":[{\"source\":\"A\",\"target\":\"a\",\"type\":\"int\"}]}"),
        Err(ConfigError::InvalidValue)
    );
}

#[test]
fn wrong_kind_of_value_is_malformed() {
    assert_eq!(parse("{\"root\":1}"), Err(ConfigError::Malformed));
    assert_eq!(parse("{\"header\":\"true\"}"), Err(ConfigError::Malformed));
    assert_eq!(parse("{\"mappings\":{}}"), Err(ConfigError::Malformed));
    assert_eq!(parse("{\"mappings\":[,]}"), Err(ConfigError::Malformed));
    assert_eq!(parse("{\"root\":\"a\",}"), Err(ConfigError::Malformed));
    assert_eq!(parse("{\"root\":\"a\"} x"), Err(ConfigError::Malformed));
    assert_eq!(parse("[]"), Err(ConfigError::Malformed));
}

#[test]
fn duplicate_targets_are_refused() {
    let text = "{\"mappings\":[{\"source\":\"A\",\"target\":\"x\"},{\"source\":\"B\",\"target\":\"y\"},{\"source\":\"C\",\"target\":\"x\"}]}";
    assert_eq!(parse(text), Err(ConfigError::DuplicateTarget));
    let built = Configuration::new(
        vec![
            mapping("A", "x", "", TypeHint::Text),
            mapping("B", "x", "", TypeHint::Text),
        ],
        Encoding::Utf8,
        "records".to_string(),
        String::new(),
        false,
        CoercionPolicy::AbortRecord,
    );
    assert_eq!(built, Err(ConfigError::DuplicateTarget));
}

#[test]
fn clone_is_equal() {
    let c = load_default();
    assert_eq!(c.clone(), c);
}
