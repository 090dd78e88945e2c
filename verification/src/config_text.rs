//! The text form of a configuration: a JSON object.
//!
//! ```text
//! {"mappings":[{"source":"A","target":"id","default":"0","type":"number"}],
//!  "encoding":"UTF-8","root":"records","namespace":"","header":false,
//!  "on_error":"abort-record"}
//! ```
//!
//! Blanks may stand between any two tokens and the keys of an object may come
//! in any order. A key that the format does not know is refused, and so is a
//! key that comes twice. A mapping needs its `source` and its `target`; every
//! other key that is left out takes the value that the built-in configuration
//! has for it.
//!
//! | key | value |
//! |-----|-------|
//! | `mappings` | an array of mapping objects |
//! | `encoding` | `"UTF-8"` or `"US-ASCII"` |
//! | `root`, `namespace` | a string |
//! | `header` | `true` or `false` |
//! | `on_error` | `"skip-field-use-default"`, `"abort-record"` or `"abort-run"` |
//! | `source`, `target`, `default` (of a mapping) | a string |
//! | `type` (of a mapping) | `"string"`, `"number"` or `"date"` |
//!
//! A value of another kind, such as a number or `null`, makes the text
//! malformed.

use vstd::prelude::*;
use crate::config::{
    CoercionPolicy, ConfigError, ConfigView, Configuration, Encoding, FieldMapping, MappingView,
    TypeHint, default_config, load_default, mapping_views, targets_unique,
};
use crate::json::{
    lemma_skip_more, lemma_skip_next, quoted, read_string, skip_spaces, skip_whitespace,
    string_literal, write_quoted,
};
use crate::round_trip::lemma_parse_written;
use crate::text::{chars_of, is_text};

verus! {

/// The word that stands for a type hint.
pub open spec fn hint_word(h: TypeHint) -> Seq<char> {
    match h {
        TypeHint::Text => "string"@,
        TypeHint::Number => "number"@,
        TypeHint::Date => "date"@,
    }
}

/// The type hint that a word stands for.
pub open spec fn hint_of_word(w: Seq<char>) -> Option<TypeHint> {
    if w == "string"@ {
        Some(TypeHint::Text)
    } else if w == "number"@ {
        Some(TypeHint::Number)
    } else if w == "date"@ {
        Some(TypeHint::Date)
    } else {
        None
    }
}

/// The word that stands for a coercion policy.
pub open spec fn policy_word(p: CoercionPolicy) -> Seq<char> {
    match p {
        CoercionPolicy::SkipFieldUseDefault => "skip-field-use-default"@,
        CoercionPolicy::AbortRecord => "abort-record"@,
        CoercionPolicy::AbortRun => "abort-run"@,
    }
}

/// The coercion policy that a word stands for.
pub open spec fn policy_of_word(w: Seq<char>) -> Option<CoercionPolicy> {
    if w == "skip-field-use-default"@ {
        Some(CoercionPolicy::SkipFieldUseDefault)
    } else if w == "abort-record"@ {
        Some(CoercionPolicy::AbortRecord)
    } else if w == "abort-run"@ {
        Some(CoercionPolicy::AbortRun)
    } else {
        None
    }
}

/// The word that stands for an encoding.
pub open spec fn encoding_word(e: Encoding) -> Seq<char> {
    match e {
        Encoding::Utf8 => "UTF-8"@,
        Encoding::UsAscii => "US-ASCII"@,
    }
}

/// The encoding that a word stands for.
pub open spec fn encoding_of_word(w: Seq<char>) -> Option<Encoding> {
    if w == "UTF-8"@ {
        Some(Encoding::Utf8)
    } else if w == "US-ASCII"@ {
        Some(Encoding::UsAscii)
    } else {
        None
    }
}

/// Reads `true` or `false` at the start of `s`.
pub open spec fn bool_literal(s: Seq<char>) -> Option<(bool, Seq<char>)> {
    if s.len() >= 4 && s[0] == 't' && s[1] == 'r' && s[2] == 'u' && s[3] == 'e' {
        Some((true, s.skip(4)))
    } else if s.len() >= 5 && s[0] == 'f' && s[1] == 'a' && s[2] == 'l' && s[3] == 's' && s[4]
        == 'e' {
        Some((false, s.skip(5)))
    } else {
        None
    }
}

/// How a truth value is written.
pub open spec fn bool_text(b: bool) -> Seq<char> {
    if b {
        seq!['t', 'r', 'u', 'e']
    } else {
        seq!['f', 'a', 'l', 's', 'e']
    }
}

/// The members of a mapping object that have been read so far.
pub struct PartialMapping {
    pub source: Option<Seq<char>>,
    pub target: Option<Seq<char>>,
    pub default: Option<Seq<char>>,
    pub type_hint: Option<TypeHint>,
}

/// A mapping object of which no member has been read.
pub open spec fn no_mapping_members() -> PartialMapping {
    PartialMapping { source: None, target: None, default: None, type_hint: None }
}

/// The mapping that the members of an object make up, if its source and its
/// target are among them.
pub open spec fn finished_mapping(p: PartialMapping) -> Option<MappingView> {
    if p.source is Some && p.target is Some {
        Some(
            MappingView {
                source: p.source->0,
                target: p.target->0,
                default: if p.default is Some {
                    p.default->0
                } else {
                    Seq::empty()
                },
                type_hint: if p.type_hint is Some {
                    p.type_hint->0
                } else {
                    TypeHint::Text
                },
            },
        )
    } else {
        None
    }
}

/// Reads the value of the member `key` of a mapping object.
pub open spec fn mapping_member(key: Seq<char>, s: Seq<char>, p: PartialMapping) -> Result<
    (PartialMapping, Seq<char>),
    ConfigError,
> {
    if key == "source"@ {
        if p.source is Some {
            Err(ConfigError::DuplicateKey)
        } else {
            match string_literal(s) {
                None => Err(ConfigError::Malformed),
                Some((v, rest)) => Ok((PartialMapping { source: Some(v), ..p }, rest)),
            }
        }
    } else if key == "target"@ {
        if p.target is Some {
            Err(ConfigError::DuplicateKey)
        } else {
            match string_literal(s) {
                None => Err(ConfigError::Malformed),
                Some((v, rest)) => Ok((PartialMapping { target: Some(v), ..p }, rest)),
            }
        }
    } else if key == "default"@ {
        if p.default is Some {
            Err(ConfigError::DuplicateKey)
        } else {
            match string_literal(s) {
                None => Err(ConfigError::Malformed),
                Some((v, rest)) => Ok((PartialMapping { default: Some(v), ..p }, rest)),
            }
        }
    } else if key == "type"@ {
        if p.type_hint is Some {
            Err(ConfigError::DuplicateKey)
        } else {
            match string_literal(s) {
                None => Err(ConfigError::Malformed),
                Some((w, rest)) => match hint_of_word(w) {
                    None => Err(ConfigError::InvalidValue),
                    Some(h) => Ok((PartialMapping { type_hint: Some(h), ..p }, rest)),
                },
            }
        }
    } else {
        Err(ConfigError::UnknownKey)
    }
}

/// Reads the members of a mapping object from the first key on, up to the
/// closing brace.
pub open spec fn mapping_members(s: Seq<char>, p: PartialMapping) -> Result<
    (PartialMapping, Seq<char>),
    ConfigError,
>
    decreases s.len(),
{
    match string_literal(s) {
        None => Err(ConfigError::Malformed),
        Some((key, r0)) => {
            let r1 = skip_spaces(r0);
            if r1.len() == 0 || r1[0] != ':' {
                Err(ConfigError::Malformed)
            } else {
                match mapping_member(key, skip_spaces(r1.skip(1)), p) {
                    Err(e) => Err(e),
                    Ok((part2, r3)) => {
                        let r4 = skip_spaces(r3);
                        if r4.len() == 0 {
                            Err(ConfigError::Malformed)
                        } else if r4[0] == '}' {
                            Ok((part2, r4.skip(1)))
                        } else if r4[0] == ',' {
                            let r5 = skip_spaces(r4.skip(1));
                            if r5.len() < s.len() {
                                mapping_members(r5, part2)
                            } else {
                                Err(ConfigError::Malformed)
                            }
                        } else {
                            Err(ConfigError::Malformed)
                        }
                    },
                }
            }
        },
    }
}

/// Reads a mapping object at the start of `s`.
pub open spec fn mapping_object(s: Seq<char>) -> Result<(MappingView, Seq<char>), ConfigError> {
    if s.len() == 0 || s[0] != '{' {
        Err(ConfigError::Malformed)
    } else {
        let r = skip_spaces(s.skip(1));
        let members = if r.len() > 0 && r[0] == '}' {
            Ok((no_mapping_members(), r.skip(1)))
        } else {
            mapping_members(r, no_mapping_members())
        };
        match members {
            Err(e) => Err(e),
            Ok((p, rest)) => match finished_mapping(p) {
                None => Err(ConfigError::MissingKey),
                Some(m) => Ok((m, rest)),
            },
        }
    }
}

/// Reads the mapping objects of an array from the first one on, up to the
/// closing bracket: `acc` holds the mappings read so far.
pub open spec fn mapping_elements(s: Seq<char>, acc: Seq<MappingView>) -> Result<
    (Seq<MappingView>, Seq<char>),
    ConfigError,
>
    decreases s.len(),
{
    match mapping_object(s) {
        Err(e) => Err(e),
        Ok((m, r0)) => {
            let r1 = skip_spaces(r0);
            if r1.len() == 0 {
                Err(ConfigError::Malformed)
            } else if r1[0] == ']' {
                Ok((acc.push(m), r1.skip(1)))
            } else if r1[0] == ',' {
                let r2 = skip_spaces(r1.skip(1));
                if r2.len() < s.len() {
                    mapping_elements(r2, acc.push(m))
                } else {
                    Err(ConfigError::Malformed)
                }
            } else {
                Err(ConfigError::Malformed)
            }
        },
    }
}

/// Reads an array of mapping objects at the start of `s`.
pub open spec fn mapping_array(s: Seq<char>) -> Result<(Seq<MappingView>, Seq<char>), ConfigError> {
    if s.len() == 0 || s[0] != '[' {
        Err(ConfigError::Malformed)
    } else {
        let r = skip_spaces(s.skip(1));
        if r.len() > 0 && r[0] == ']' {
            Ok((Seq::empty(), r.skip(1)))
        } else {
            mapping_elements(r, Seq::empty())
        }
    }
}

/// The members of a configuration object that have been read so far.
pub struct PartialConfig {
    pub mappings: Option<Seq<MappingView>>,
    pub encoding: Option<Encoding>,
    pub root: Option<Seq<char>>,
    pub namespace: Option<Seq<char>>,
    pub header: Option<bool>,
    pub on_failure: Option<CoercionPolicy>,
}

/// A configuration object of which no member has been read.
pub open spec fn no_config_members() -> PartialConfig {
    PartialConfig {
        mappings: None,
        encoding: None,
        root: None,
        namespace: None,
        header: None,
        on_failure: None,
    }
}

/// The configuration that the members of an object make up: a member that
/// was left out has the value of the built-in configuration.
pub open spec fn finished_config(p: PartialConfig) -> ConfigView {
    ConfigView {
        mappings: if p.mappings is Some {
            p.mappings->0
        } else {
            default_config().mappings
        },
        encoding: if p.encoding is Some {
            p.encoding->0
        } else {
            default_config().encoding
        },
        root: if p.root is Some {
            p.root->0
        } else {
            default_config().root
        },
        namespace: if p.namespace is Some {
            p.namespace->0
        } else {
            default_config().namespace
        },
        header: if p.header is Some {
            p.header->0
        } else {
            default_config().header
        },
        on_failure: if p.on_failure is Some {
            p.on_failure->0
        } else {
            default_config().on_failure
        },
    }
}

/// Reads the value of the member `key` of a configuration object.
pub open spec fn config_member(key: Seq<char>, s: Seq<char>, p: PartialConfig) -> Result<
    (PartialConfig, Seq<char>),
    ConfigError,
> {
    if key == "mappings"@ {
        if p.mappings is Some {
            Err(ConfigError::DuplicateKey)
        } else {
            match mapping_array(s) {
                Err(e) => Err(e),
                Ok((ms, rest)) => Ok((PartialConfig { mappings: Some(ms), ..p }, rest)),
            }
        }
    } else if key == "encoding"@ {
        if p.encoding is Some {
            Err(ConfigError::DuplicateKey)
        } else {
            match string_literal(s) {
                None => Err(ConfigError::Malformed),
                Some((w, rest)) => match encoding_of_word(w) {
                    None => Err(ConfigError::InvalidValue),
                    Some(e) => Ok((PartialConfig { encoding: Some(e), ..p }, rest)),
                },
            }
        }
    } else if key == "root"@ {
        if p.root is Some {
            Err(ConfigError::DuplicateKey)
        } else {
            match string_literal(s) {
                None => Err(ConfigError::Malformed),
                Some((v, rest)) => Ok((PartialConfig { root: Some(v), ..p }, rest)),
            }
        }
    } else if key == "namespace"@ {
        if p.namespace is Some {
            Err(ConfigError::DuplicateKey)
        } else {
            match string_literal(s) {
                None => Err(ConfigError::Malformed),
                Some((v, rest)) => Ok((PartialConfig { namespace: Some(v), ..p }, rest)),
            }
        }
    } else if key == "header"@ {
        if p.header is Some {
            Err(ConfigError::DuplicateKey)
        } else {
            match bool_literal(s) {
                None => Err(ConfigError::Malformed),
                Some((b, rest)) => Ok((PartialConfig { header: Some(b), ..p }, rest)),
            }
        }
    } else if key == "on_error"@ {
        if p.on_failure is Some {
            Err(ConfigError::DuplicateKey)
        } else {
            match string_literal(s) {
                None => Err(ConfigError::Malformed),
                Some((w, rest)) => match policy_of_word(w) {
                    None => Err(ConfigError::InvalidValue),
                    Some(f) => Ok((PartialConfig { on_failure: Some(f), ..p }, rest)),
                },
            }
        }
    } else {
        Err(ConfigError::UnknownKey)
    }
}

/// Reads the members of a configuration object from the first key on, up to
/// the closing brace.
pub open spec fn config_members(s: Seq<char>, p: PartialConfig) -> Result<
    (PartialConfig, Seq<char>),
    ConfigError,
>
    decreases s.len(),
{
    match string_literal(s) {
        None => Err(ConfigError::Malformed),
        Some((key, r0)) => {
            let r1 = skip_spaces(r0);
            if r1.len() == 0 || r1[0] != ':' {
                Err(ConfigError::Malformed)
            } else {
                match config_member(key, skip_spaces(r1.skip(1)), p) {
                    Err(e) => Err(e),
                    Ok((part2, r3)) => {
                        let r4 = skip_spaces(r3);
                        if r4.len() == 0 {
                            Err(ConfigError::Malformed)
                        } else if r4[0] == '}' {
                            Ok((part2, r4.skip(1)))
                        } else if r4[0] == ',' {
                            let r5 = skip_spaces(r4.skip(1));
                            if r5.len() < s.len() {
                                config_members(r5, part2)
                            } else {
                                Err(ConfigError::Malformed)
                            }
                        } else {
                            Err(ConfigError::Malformed)
                        }
                    },
                }
            }
        },
    }
}

/// Reads a configuration object at the start of `s`.
pub open spec fn config_object(s: Seq<char>) -> Result<(ConfigView, Seq<char>), ConfigError> {
    if s.len() == 0 || s[0] != '{' {
        Err(ConfigError::Malformed)
    } else {
        let r = skip_spaces(s.skip(1));
        let members = if r.len() > 0 && r[0] == '}' {
            Ok((no_config_members(), r.skip(1)))
        } else {
            config_members(r, no_config_members())
        };
        match members {
            Err(e) => Err(e),
            Ok((p, rest)) => Ok((finished_config(p), rest)),
        }
    }
}

/// The configuration that a text stands for, or why it stands for none: the
/// text is one configuration object with nothing but blanks around it, and no
/// two of its mappings have the same target.
pub open spec fn parse_config(text: Seq<char>) -> Result<ConfigView, ConfigError> {
    match config_object(skip_spaces(text)) {
        Err(e) => Err(e),
        Ok((c, rest)) => if skip_spaces(rest).len() != 0 {
            Err(ConfigError::Malformed)
        } else if !targets_unique(c.mappings) {
            Err(ConfigError::DuplicateTarget)
        } else {
            Ok(c)
        },
    }
}

/// A key, the colon after it and a value.
pub open spec fn member_text(key: Seq<char>, value: Seq<char>) -> Seq<char> {
    quoted(key) + seq![':'] + value
}

/// The object that is written for a mapping.
#[verifier::opaque]
pub open spec fn mapping_text(m: MappingView) -> Seq<char> {
    seq!['{'] + member_text("source"@, quoted(m.source)) + seq![','] + member_text(
        "target"@,
        quoted(m.target),
    ) + seq![','] + member_text("default"@, quoted(m.default)) + seq![','] + member_text(
        "type"@,
        quoted(hint_word(m.type_hint)),
    ) + seq!['}']
}

/// The objects of `ms` with a comma between each two.
pub open spec fn elements_text(ms: Seq<MappingView>) -> Seq<char>
    decreases ms.len(),
{
    if ms.len() == 0 {
        Seq::empty()
    } else if ms.len() == 1 {
        mapping_text(ms[0])
    } else {
        mapping_text(ms[0]) + seq![','] + elements_text(ms.skip(1))
    }
}

/// The array that is written for a list of mappings.
pub open spec fn array_text(ms: Seq<MappingView>) -> Seq<char> {
    seq!['['] + elements_text(ms) + seq![']']
}

/// The text that is written for a configuration.
#[verifier::opaque]
pub open spec fn config_text(c: ConfigView) -> Seq<char> {
    seq!['{'] + member_text("mappings"@, array_text(c.mappings)) + seq![','] + member_text(
        "encoding"@,
        quoted(encoding_word(c.encoding)),
    ) + seq![','] + member_text("root"@, quoted(c.root)) + seq![','] + member_text(
        "namespace"@,
        quoted(c.namespace),
    ) + seq![','] + member_text("header"@, bool_text(c.header)) + seq![','] + member_text(
        "on_error"@,
        quoted(policy_word(c.on_failure)),
    ) + seq!['}']
}

/// The written mappings with one more after them.
pub proof fn lemma_elements_text_push(ms: Seq<MappingView>, m: MappingView)
    ensures
        elements_text(ms.push(m)) == if ms.len() == 0 {
            mapping_text(m)
        } else {
            elements_text(ms) + seq![','] + mapping_text(m)
        },
    decreases ms.len(),
{
    if ms.len() == 0 {
    } else if ms.len() == 1 {
        assert(ms.push(m).skip(1) =~= seq![m]);
        assert(elements_text(seq![m]) == mapping_text(m));
    } else {
        assert(ms.push(m).skip(1) =~= ms.skip(1).push(m));
        lemma_elements_text_push(ms.skip(1), m);
        assert(mapping_text(ms[0]) + seq![','] + (elements_text(ms.skip(1)) + seq![',']
            + mapping_text(m)) =~= elements_text(ms) + seq![','] + mapping_text(m));
    }
}

/// The word that is written for a type hint.
pub fn hint_name(h: TypeHint) -> (w: &'static str)
    ensures
        w@ == hint_word(h),
{
    match h {
        TypeHint::Text => "string",
        TypeHint::Number => "number",
        TypeHint::Date => "date",
    }
}

/// The word that is written for a coercion policy.
pub fn policy_name(p: CoercionPolicy) -> (w: &'static str)
    ensures
        w@ == policy_word(p),
{
    match p {
        CoercionPolicy::SkipFieldUseDefault => "skip-field-use-default",
        CoercionPolicy::AbortRecord => "abort-record",
        CoercionPolicy::AbortRun => "abort-run",
    }
}

/// The word that is written for an encoding.
pub fn encoding_name(e: Encoding) -> (w: &'static str)
    ensures
        w@ == encoding_word(e),
{
    match e {
        Encoding::Utf8 => "UTF-8",
        Encoding::UsAscii => "US-ASCII",
    }
}

/// Appends a key and the colon after it.
fn write_key(out: &mut String, key: &str)
    ensures
        final(out)@ == old(out)@ + (quoted(key@) + seq![':']),
{
    let ghost start = out@;
    write_quoted(out, key);
    out.push(':');
    proof {
        assert(out@ =~= start + (quoted(key@) + seq![':']));
    }
}

/// Appends a member whose value is a string.
fn write_text_member(out: &mut String, key: &str, value: &str)
    ensures
        final(out)@ == old(out)@ + member_text(key@, quoted(value@)),
{
    let ghost start = out@;
    write_key(out, key);
    write_quoted(out, value);
    proof {
        assert(out@ =~= start + member_text(key@, quoted(value@)));
    }
}

/// Appends the object that stands for `m`.
fn write_mapping(out: &mut String, m: &FieldMapping)
    ensures
        final(out)@ == old(out)@ + mapping_text(m@),
{
    let ghost start = out@;
    let ghost m1 = member_text("source"@, quoted(m@.source));
    let ghost m2 = member_text("target"@, quoted(m@.target));
    let ghost m3 = member_text("default"@, quoted(m@.default));
    let ghost m4 = member_text("type"@, quoted(hint_word(m@.type_hint)));
    out.push('{');
    write_text_member(out, "source", m.source.as_str());
    let ghost l1 = seq!['{'] + m1;
    assert(out@ =~= start + l1);
    out.push(',');
    write_text_member(out, "target", m.target.as_str());
    let ghost l2 = l1 + seq![','] + m2;
    assert(out@ =~= start + l2);
    out.push(',');
    write_text_member(out, "default", m.default.as_str());
    let ghost l3 = l2 + seq![','] + m3;
    assert(out@ =~= start + l3);
    out.push(',');
    write_text_member(out, "type", hint_name(m.type_hint));
    let ghost l4 = l3 + seq![','] + m4;
    assert(out@ =~= start + l4);
    out.push('}');
    proof {
        reveal(mapping_text);
        assert(out@ =~= start + (l4 + seq!['}']));
    }
}

/// Appends the array that stands for `ms`.
fn write_mappings(out: &mut String, ms: &Vec<FieldMapping>)
    ensures
        final(out)@ == old(out)@ + array_text(mapping_views(ms@)),
{
    let ghost start = out@;
    let ghost views = mapping_views(ms@);
    out.push('[');
    let mut i: usize = 0;
    while i < ms.len()
        invariant
            i <= ms.len(),
            views == mapping_views(ms@),
            out@ == start + (seq!['['] + elements_text(views.take(i as int))),
        decreases ms.len() - i,
    {
        let ghost before = out@;
        let ghost done = views.take(i as int);
        if i > 0 {
            out.push(',');
        }
        write_mapping(out, &ms[i]);
        proof {
            lemma_elements_text_push(done, views[i as int]);
            assert(views.take(i + 1) =~= done.push(views[i as int]));
            assert(out@ =~= start + (seq!['['] + elements_text(views.take(i + 1))));
        }
        i += 1;
    }
    out.push(']');
    proof {
        assert(views.take(ms.len() as int) =~= views);
        assert(out@ =~= start + array_text(views));
    }
}

/// The text of `cfg`. Reading it gives `cfg` back.
pub fn serialize(cfg: &Configuration) -> (text: String)
    ensures
        text@ == config_text(cfg@),
        parse_config(text@) == Ok::<ConfigView, ConfigError>(cfg@),
{
    let mut out = String::new();
    let ghost c = cfg@;
    let ghost m1 = member_text("mappings"@, array_text(c.mappings));
    let ghost m2 = member_text("encoding"@, quoted(encoding_word(c.encoding)));
    let ghost m3 = member_text("root"@, quoted(c.root));
    let ghost m4 = member_text("namespace"@, quoted(c.namespace));
    let ghost m5 = member_text("header"@, bool_text(c.header));
    let ghost m6 = member_text("on_error"@, quoted(policy_word(c.on_failure)));
    out.push('{');
    write_key(&mut out, "mappings");
    write_mappings(&mut out, cfg.mappings());
    let ghost l1 = seq!['{'] + m1;
    assert(out@ =~= l1);
    out.push(',');
    write_text_member(&mut out, "encoding", encoding_name(cfg.encoding()));
    let ghost l2 = l1 + seq![','] + m2;
    assert(out@ =~= l2);
    out.push(',');
    write_text_member(&mut out, "root", cfg.root().as_str());
    let ghost l3 = l2 + seq![','] + m3;
    assert(out@ =~= l3);
    out.push(',');
    write_text_member(&mut out, "namespace", cfg.namespace().as_str());
    let ghost l4 = l3 + seq![','] + m4;
    assert(out@ =~= l4);
    out.push(',');
    write_key(&mut out, "header");
    if cfg.has_header() {
        out.push('t');
        out.push('r');
        out.push('u');
        out.push('e');
    } else {
        out.push('f');
        out.push('a');
        out.push('l');
        out.push('s');
        out.push('e');
    }
    let ghost l5 = l4 + seq![','] + m5;
    assert(out@ =~= l5);
    out.push(',');
    write_text_member(&mut out, "on_error", policy_name(cfg.on_failure()));
    let ghost l6 = l5 + seq![','] + m6;
    assert(out@ =~= l6);
    out.push('}');
    proof {
        reveal(config_text);
        assert(out@ =~= l6 + seq!['}']);
        lemma_parse_written(c);
    }
    out
}

/// The text of a string that may be missing.
pub open spec fn text_of(o: Option<String>) -> Option<Seq<char>> {
    match o {
        Some(t) => Some(t@),
        None => None,
    }
}

/// The members of a mapping object that the reader holds.
struct MappingDraft {
    source: Option<String>,
    target: Option<String>,
    default: Option<String>,
    type_hint: Option<TypeHint>,
}

impl View for MappingDraft {
    type V = PartialMapping;

    closed spec fn view(&self) -> PartialMapping {
        PartialMapping {
            source: text_of(self.source),
            target: text_of(self.target),
            default: text_of(self.default),
            type_hint: self.type_hint,
        }
    }
}

/// The members of a configuration object that the reader holds.
struct ConfigDraft {
    mappings: Option<Vec<FieldMapping>>,
    encoding: Option<Encoding>,
    root: Option<String>,
    namespace: Option<String>,
    header: Option<bool>,
    on_failure: Option<CoercionPolicy>,
}

impl View for ConfigDraft {
    type V = PartialConfig;

    closed spec fn view(&self) -> PartialConfig {
        PartialConfig {
            mappings: match self.mappings {
                Some(v) => Some(mapping_views(v@)),
                None => None,
            },
            encoding: self.encoding,
            root: text_of(self.root),
            namespace: text_of(self.namespace),
            header: self.header,
            on_failure: self.on_failure,
        }
    }
}

/// Whether the character at `i` is `c`.
fn at(s: &Vec<char>, i: usize, c: char) -> (b: bool)
    requires
        i <= s.len(),
    ensures
        b == (s@.skip(i as int).len() > 0 && s@.skip(i as int)[0] == c),
        b ==> i < s.len() && s@.skip(i as int).skip(1) == s@.skip(i + 1),
        s@.skip(i as int).len() == s.len() - i,
{
    if i < s.len() {
        proof {
            lemma_skip_next(s@, i as int);
        }
        s[i] == c
    } else {
        false
    }
}

/// The type hint that `w` stands for.
fn hint_from_word(w: &String) -> (r: Option<TypeHint>)
    ensures
        r == hint_of_word(w@),
{
    if is_text(w, "string") {
        Some(TypeHint::Text)
    } else if is_text(w, "number") {
        Some(TypeHint::Number)
    } else if is_text(w, "date") {
        Some(TypeHint::Date)
    } else {
        None
    }
}

/// The coercion policy that `w` stands for.
fn policy_from_word(w: &String) -> (r: Option<CoercionPolicy>)
    ensures
        r == policy_of_word(w@),
{
    if is_text(w, "skip-field-use-default") {
        Some(CoercionPolicy::SkipFieldUseDefault)
    } else if is_text(w, "abort-record") {
        Some(CoercionPolicy::AbortRecord)
    } else if is_text(w, "abort-run") {
        Some(CoercionPolicy::AbortRun)
    } else {
        None
    }
}

/// The encoding that `w` stands for.
fn encoding_from_word(w: &String) -> (r: Option<Encoding>)
    ensures
        r == encoding_of_word(w@),
{
    if is_text(w, "UTF-8") {
        Some(Encoding::Utf8)
    } else if is_text(w, "US-ASCII") {
        Some(Encoding::UsAscii)
    } else {
        None
    }
}

/// Reads `true` or `false` at `i`.
fn read_bool(s: &Vec<char>, i: usize) -> (r: Option<(bool, usize)>)
    requires
        i <= s.len(),
    ensures
        match r {
            Some((b, j)) => bool_literal(s@.skip(i as int)) == Some((b, s@.skip(j as int))) && i
                < j <= s.len(),
            None => bool_literal(s@.skip(i as int)) is None,
        },
{
    if s.len() - i >= 4 && s[i] == 't' && s[i + 1] == 'r' && s[i + 2] == 'u' && s[i + 3] == 'e' {
        proof {
            lemma_skip_more(s@, i as int, 4);
        }
        Some((true, i + 4))
    } else if s.len() - i >= 5 && s[i] == 'f' && s[i + 1] == 'a' && s[i + 2] == 'l' && s[i + 3]
        == 's' && s[i + 4] == 'e' {
        proof {
            lemma_skip_more(s@, i as int, 5);
        }
        Some((false, i + 5))
    } else {
        None
    }
}

/// Reads at `i` the value of the member `key` of a mapping object.
fn read_mapping_member(key: &String, s: &Vec<char>, i: usize, draft: MappingDraft) -> (r: Result<
    (MappingDraft, usize),
    ConfigError,
>)
    requires
        i <= s.len(),
    ensures
        match r {
            Ok((d, j)) => mapping_member(key@, s@.skip(i as int), draft@) == Ok::<
                (PartialMapping, Seq<char>),
                ConfigError,
            >((d@, s@.skip(j as int))) && i < j <= s.len(),
            Err(e) => mapping_member(key@, s@.skip(i as int), draft@) == Err::<
                (PartialMapping, Seq<char>),
                ConfigError,
            >(e),
        },
{
    let mut d = draft;
    if is_text(key, "source") {
        if d.source.is_some() {
            return Err(ConfigError::DuplicateKey);
        }
        match read_string(s, i) {
            None => Err(ConfigError::Malformed),
            Some((v, j)) => {
                d.source = Some(v);
                Ok((d, j))
            },
        }
    } else if is_text(key, "target") {
        if d.target.is_some() {
            return Err(ConfigError::DuplicateKey);
        }
        match read_string(s, i) {
            None => Err(ConfigError::Malformed),
            Some((v, j)) => {
                d.target = Some(v);
                Ok((d, j))
            },
        }
    } else if is_text(key, "default") {
        if d.default.is_some() {
            return Err(ConfigError::DuplicateKey);
        }
        match read_string(s, i) {
            None => Err(ConfigError::Malformed),
            Some((v, j)) => {
                d.default = Some(v);
                Ok((d, j))
            },
        }
    } else if is_text(key, "type") {
        if d.type_hint.is_some() {
            return Err(ConfigError::DuplicateKey);
        }
        match read_string(s, i) {
            None => Err(ConfigError::Malformed),
            Some((w, j)) => match hint_from_word(&w) {
                None => Err(ConfigError::InvalidValue),
                Some(h) => {
                    d.type_hint = Some(h);
                    Ok((d, j))
                },
            },
        }
    } else {
        Err(ConfigError::UnknownKey)
    }
}

/// Reads the members of a mapping object from the first key, at `i`, up to
/// the closing brace.
fn read_mapping_members(s: &Vec<char>, i: usize) -> (r: Result<(MappingDraft, usize), ConfigError>)
    requires
        i <= s.len(),
    ensures
        match r {
            Ok((d, j)) => mapping_members(s@.skip(i as int), no_mapping_members()) == Ok::<
                (PartialMapping, Seq<char>),
                ConfigError,
            >((d@, s@.skip(j as int))) && i < j <= s.len(),
            Err(e) => mapping_members(s@.skip(i as int), no_mapping_members()) == Err::<
                (PartialMapping, Seq<char>),
                ConfigError,
            >(e),
        },
{
    let mut draft = MappingDraft { source: None, target: None, default: None, type_hint: None };
    let mut j: usize = i;
    loop
        invariant
            i <= j <= s.len(),
            mapping_members(s@.skip(j as int), draft@) == mapping_members(
                s@.skip(i as int),
                no_mapping_members(),
            ),
        decreases s.len() - j,
    {
        let (key, k0) = match read_string(s, j) {
            None => {
                return Err(ConfigError::Malformed);
            },
            Some(x) => x,
        };
        let k1 = skip_whitespace(s, k0);
        if !at(s, k1, ':') {
            return Err(ConfigError::Malformed);
        }
        let k2 = skip_whitespace(s, k1 + 1);
        match read_mapping_member(&key, s, k2, draft) {
            Err(e) => {
                return Err(e);
            },
            Ok((d, k3)) => {
                let k4 = skip_whitespace(s, k3);
                if at(s, k4, '}') {
                    return Ok((d, k4 + 1));
                } else if at(s, k4, ',') {
                    draft = d;
                    j = skip_whitespace(s, k4 + 1);
                } else {
                    return Err(ConfigError::Malformed);
                }
            },
        }
    }
}

/// Reads the mapping object that starts at `i`.
fn read_mapping_object(s: &Vec<char>, i: usize) -> (r: Result<(FieldMapping, usize), ConfigError>)
    requires
        i <= s.len(),
    ensures
        match r {
            Ok((m, j)) => mapping_object(s@.skip(i as int)) == Ok::<
                (MappingView, Seq<char>),
                ConfigError,
            >((m@, s@.skip(j as int))) && i < j <= s.len(),
            Err(e) => mapping_object(s@.skip(i as int)) == Err::<
                (MappingView, Seq<char>),
                ConfigError,
            >(e),
        },
{
    if !at(s, i, '{') {
        return Err(ConfigError::Malformed);
    }
    let k = skip_whitespace(s, i + 1);
    let members = if at(s, k, '}') {
        Ok((MappingDraft { source: None, target: None, default: None, type_hint: None }, k + 1))
    } else {
        read_mapping_members(s, k)
    };
    match members {
        Err(e) => Err(e),
        Ok((d, j)) => {
            let default = match d.default {
                Some(t) => t,
                None => String::new(),
            };
            let type_hint = match d.type_hint {
                Some(h) => h,
                None => TypeHint::Text,
            };
            match (d.source, d.target) {
                (Some(source), Some(target)) => Ok(
                    (FieldMapping { source, target, default, type_hint }, j),
                ),
                _ => Err(ConfigError::MissingKey),
            }
        },
    }
}

/// Reads the array of mapping objects that starts at `i`.
fn read_mapping_array(s: &Vec<char>, i: usize) -> (r: Result<
    (Vec<FieldMapping>, usize),
    ConfigError,
>)
    requires
        i <= s.len(),
    ensures
        match r {
            Ok((v, j)) => mapping_array(s@.skip(i as int)) == Ok::<
                (Seq<MappingView>, Seq<char>),
                ConfigError,
            >((mapping_views(v@), s@.skip(j as int))) && i < j <= s.len(),
            Err(e) => mapping_array(s@.skip(i as int)) == Err::<
                (Seq<MappingView>, Seq<char>),
                ConfigError,
            >(e),
        },
{
    if !at(s, i, '[') {
        return Err(ConfigError::Malformed);
    }
    let mut found: Vec<FieldMapping> = Vec::new();
    let first = skip_whitespace(s, i + 1);
    if at(s, first, ']') {
        proof {
            assert(mapping_views(found@) =~= Seq::<MappingView>::empty());
        }
        return Ok((found, first + 1));
    }
    let mut j: usize = first;
    proof {
        assert(mapping_views(found@) =~= Seq::<MappingView>::empty());
    }
    loop
        invariant
            i < first <= j <= s.len(),
            mapping_array(s@.skip(i as int)) == mapping_elements(
                s@.skip(first as int),
                Seq::empty(),
            ),
            mapping_elements(s@.skip(j as int), mapping_views(found@)) == mapping_elements(
                s@.skip(first as int),
                Seq::empty(),
            ),
        decreases s.len() - j,
    {
        let (m, k0) = match read_mapping_object(s, j) {
            Err(e) => {
                return Err(e);
            },
            Ok(x) => x,
        };
        let ghost before = mapping_views(found@);
        found.push(m);
        proof {
            assert(mapping_views(found@) =~= before.push(m@));
        }
        let k1 = skip_whitespace(s, k0);
        if at(s, k1, ']') {
            return Ok((found, k1 + 1));
        } else if at(s, k1, ',') {
            j = skip_whitespace(s, k1 + 1);
        } else {
            return Err(ConfigError::Malformed);
        }
    }
}

/// Reads at `i` the value of the member `key` of a configuration object.
fn read_config_member(key: &String, s: &Vec<char>, i: usize, draft: ConfigDraft) -> (r: Result<
    (ConfigDraft, usize),
    ConfigError,
>)
    requires
        i <= s.len(),
    ensures
        match r {
            Ok((d, j)) => config_member(key@, s@.skip(i as int), draft@) == Ok::<
                (PartialConfig, Seq<char>),
                ConfigError,
            >((d@, s@.skip(j as int))) && i < j <= s.len(),
            Err(e) => config_member(key@, s@.skip(i as int), draft@) == Err::<
                (PartialConfig, Seq<char>),
                ConfigError,
            >(e),
        },
{
    let mut d = draft;
    if is_text(key, "mappings") {
        if d.mappings.is_some() {
            return Err(ConfigError::DuplicateKey);
        }
        match read_mapping_array(s, i) {
            Err(e) => Err(e),
            Ok((v, j)) => {
                d.mappings = Some(v);
                Ok((d, j))
            },
        }
    } else if is_text(key, "encoding") {
        if d.encoding.is_some() {
            return Err(ConfigError::DuplicateKey);
        }
        match read_string(s, i) {
            None => Err(ConfigError::Malformed),
            Some((w, j)) => match encoding_from_word(&w) {
                None => Err(ConfigError::InvalidValue),
                Some(e) => {
                    d.encoding = Some(e);
                    Ok((d, j))
                },
            },
        }
    } else if is_text(key, "root") {
        if d.root.is_some() {
            return Err(ConfigError::DuplicateKey);
        }
        match read_string(s, i) {
            None => Err(ConfigError::Malformed),
            Some((v, j)) => {
                d.root = Some(v);
                Ok((d, j))
            },
        }
    } else if is_text(key, "namespace") {
        if d.namespace.is_some() {
            return Err(ConfigError::DuplicateKey);
        }
        match read_string(s, i) {
            None => Err(ConfigError::Malformed),
            Some((v, j)) => {
                d.namespace = Some(v);
                Ok((d, j))
            },
        }
    } else if is_text(key, "header") {
        if d.header.is_some() {
            return Err(ConfigError::DuplicateKey);
        }
        match read_bool(s, i) {
            None => Err(ConfigError::Malformed),
            Some((b, j)) => {
                d.header = Some(b);
                Ok((d, j))
            },
        }
    } else if is_text(key, "on_error") {
        if d.on_failure.is_some() {
            return Err(ConfigError::DuplicateKey);
        }
        match read_string(s, i) {
            None => Err(ConfigError::Malformed),
            Some((w, j)) => match policy_from_word(&w) {
                None => Err(ConfigError::InvalidValue),
                Some(f) => {
                    d.on_failure = Some(f);
                    Ok((d, j))
                },
            },
        }
    } else {
        Err(ConfigError::UnknownKey)
    }
}

/// A configuration object of which no member has been read.
fn empty_config_draft() -> (d: ConfigDraft)
    ensures
        d@ == no_config_members(),
{
    ConfigDraft {
        mappings: None,
        encoding: None,
        root: None,
        namespace: None,
        header: None,
        on_failure: None,
    }
}

/// Reads the members of a configuration object from the first key, at `i`,
/// up to the closing brace.
fn read_config_members(s: &Vec<char>, i: usize) -> (r: Result<(ConfigDraft, usize), ConfigError>)
    requires
        i <= s.len(),
    ensures
        match r {
            Ok((d, j)) => config_members(s@.skip(i as int), no_config_members()) == Ok::<
                (PartialConfig, Seq<char>),
                ConfigError,
            >((d@, s@.skip(j as int))) && i < j <= s.len(),
            Err(e) => config_members(s@.skip(i as int), no_config_members()) == Err::<
                (PartialConfig, Seq<char>),
                ConfigError,
            >(e),
        },
{
    let mut draft = empty_config_draft();
    let mut j: usize = i;
    loop
        invariant
            i <= j <= s.len(),
            config_members(s@.skip(j as int), draft@) == config_members(
                s@.skip(i as int),
                no_config_members(),
            ),
        decreases s.len() - j,
    {
        let (key, k0) = match read_string(s, j) {
            None => {
                return Err(ConfigError::Malformed);
            },
            Some(x) => x,
        };
        let k1 = skip_whitespace(s, k0);
        if !at(s, k1, ':') {
            return Err(ConfigError::Malformed);
        }
        let k2 = skip_whitespace(s, k1 + 1);
        match read_config_member(&key, s, k2, draft) {
            Err(e) => {
                return Err(e);
            },
            Ok((d, k3)) => {
                let k4 = skip_whitespace(s, k3);
                if at(s, k4, '}') {
                    return Ok((d, k4 + 1));
                } else if at(s, k4, ',') {
                    draft = d;
                    j = skip_whitespace(s, k4 + 1);
                } else {
                    return Err(ConfigError::Malformed);
                }
            },
        }
    }
}

/// Reads the configuration object that starts at `i`.
fn read_config_object(s: &Vec<char>, i: usize) -> (r: Result<(ConfigDraft, usize), ConfigError>)
    requires
        i <= s.len(),
    ensures
        match r {
            Ok((d, j)) => config_object(s@.skip(i as int)) == Ok::<
                (ConfigView, Seq<char>),
                ConfigError,
            >((finished_config(d@), s@.skip(j as int))) && i < j <= s.len(),
            Err(e) => config_object(s@.skip(i as int)) == Err::<
                (ConfigView, Seq<char>),
                ConfigError,
            >(e),
        },
{
    if !at(s, i, '{') {
        return Err(ConfigError::Malformed);
    }
    let k = skip_whitespace(s, i + 1);
    if at(s, k, '}') {
        Ok((empty_config_draft(), k + 1))
    } else {
        read_config_members(s, k)
    }
}

/// Builds the configuration that the members of an object make up.
fn build(draft: ConfigDraft) -> (r: Result<Configuration, ConfigError>)
    ensures
        match r {
            Ok(c) => c@ == finished_config(draft@) && targets_unique(c@.mappings),
            Err(e) => e == ConfigError::DuplicateTarget && !targets_unique(
                finished_config(draft@).mappings,
            ),
        },
{
    let (def_mappings, def_encoding, def_root, def_namespace, def_header, def_on_failure) =
        load_default().into_parts();
    let mappings = match draft.mappings {
        Some(m) => m,
        None => def_mappings,
    };
    let encoding = match draft.encoding {
        Some(e) => e,
        None => def_encoding,
    };
    let root = match draft.root {
        Some(t) => t,
        None => def_root,
    };
    let namespace = match draft.namespace {
        Some(t) => t,
        None => def_namespace,
    };
    let header = match draft.header {
        Some(b) => b,
        None => def_header,
    };
    let on_failure = match draft.on_failure {
        Some(p) => p,
        None => def_on_failure,
    };
    Configuration::new(mappings, encoding, root, namespace, header, on_failure)
}

/// Reads the configuration object that starts at `i`, as part of a longer
/// text. The result is `None` where there is no such object, or two of its
/// mappings have the same target.
pub(crate) fn read_configuration(s: &Vec<char>, i: usize) -> (r: Option<(Configuration, usize)>)
    requires
        i <= s.len(),
    ensures
        match r {
            Some((c, j)) => config_object(s@.skip(i as int)) == Ok::<
                (ConfigView, Seq<char>),
                ConfigError,
            >((c@, s@.skip(j as int))) && targets_unique(c@.mappings) && i < j <= s.len(),
            None => match config_object(s@.skip(i as int)) {
                Ok((c, _)) => !targets_unique(c.mappings),
                Err(_) => true,
            },
        },
{
    match read_config_object(s, i) {
        Err(_) => None,
        Ok((draft, j)) => match build(draft) {
            Ok(c) => Some((c, j)),
            Err(_) => None,
        },
    }
}

/// Reads a configuration from its text.
///
/// The result is the configuration that `parse_config` gives for the text,
/// or the error that it gives: `Malformed` where the text does not follow
/// the grammar, `UnknownKey`, `DuplicateKey`, `MissingKey` and `InvalidValue`
/// for what an object may not hold, `DuplicateTarget` where two mappings
/// have the same target.
pub fn parse(text: &str) -> (r: Result<Configuration, ConfigError>)
    ensures
        match r {
            Ok(c) => parse_config(text@) == Ok::<ConfigView, ConfigError>(c@),
            Err(e) => parse_config(text@) == Err::<ConfigView, ConfigError>(e),
        },
{
    let s = chars_of(text);
    proof {
        assert(s@.skip(0) =~= s@);
    }
    let i = skip_whitespace(&s, 0);
    match read_config_object(&s, i) {
        Err(e) => Err(e),
        Ok((draft, j)) => {
            let k = skip_whitespace(&s, j);
            if k < s.len() {
                return Err(ConfigError::Malformed);
            }
            build(draft)
        },
    }
}

/// The text of the built-in configuration.
pub fn get_default_cfg_json() -> (text: String)
    ensures
        text@ == config_text(default_config()),
        parse_config(text@) == Ok::<ConfigView, ConfigError>(default_config()),
{
    let c = load_default();
    serialize(&c)
}

} // verus!
