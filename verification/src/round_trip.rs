//! What is written for a configuration is read back as that configuration.

use vstd::prelude::*;
use crate::config::{CoercionPolicy, ConfigError, ConfigView, Encoding, MappingView, TypeHint};
use crate::config_text::{
    PartialConfig, PartialMapping, array_text, bool_literal, bool_text, config_member,
    config_members, config_object, config_text, elements_text, encoding_of_word, encoding_word,
    hint_of_word, hint_word, mapping_array, mapping_elements, mapping_member, mapping_members,
    mapping_object, mapping_text, member_text, no_config_members, no_mapping_members,
    parse_config, policy_of_word, policy_word, finished_config, finished_mapping,
};
use crate::json::{is_space, lemma_string_literal_quoted, quoted, skip_spaces};

verus! {

/// A string literal starts with a quote.
pub proof fn lemma_quoted_starts(t: Seq<char>)
    ensures
        quoted(t).len() >= 2,
        quoted(t)[0] == '"',
{
}

/// A member starts with the quote of its key.
pub proof fn lemma_member_starts(key: Seq<char>, value: Seq<char>, after: Seq<char>)
    ensures
        (member_text(key, value) + after).len() > 0,
        (member_text(key, value) + after)[0] == '"',
{
    lemma_quoted_starts(key);
}

/// The keys of a mapping object differ from one another.
pub proof fn lemma_mapping_keys_differ()
    ensures
        "source"@ != "target"@,
        "source"@ != "default"@,
        "source"@ != "type"@,
        "target"@ != "default"@,
        "target"@ != "type"@,
        "default"@ != "type"@,
{
    reveal_strlit("source");
    reveal_strlit("target");
    reveal_strlit("default");
    reveal_strlit("type");
    assert("source"@[0] != "target"@[0]);
    assert("source"@[0] != "default"@[0]);
    assert("target"@[0] != "default"@[0]);
    assert("source"@.len() != "type"@.len());
    assert("target"@.len() != "type"@.len());
    assert("default"@.len() != "type"@.len());
}

/// The keys of a configuration object differ from one another.
pub proof fn lemma_config_keys_differ()
    ensures
        "mappings"@ != "encoding"@,
        "mappings"@ != "root"@,
        "mappings"@ != "namespace"@,
        "mappings"@ != "header"@,
        "mappings"@ != "on_error"@,
        "encoding"@ != "root"@,
        "encoding"@ != "namespace"@,
        "encoding"@ != "header"@,
        "encoding"@ != "on_error"@,
        "root"@ != "namespace"@,
        "root"@ != "header"@,
        "root"@ != "on_error"@,
        "namespace"@ != "header"@,
        "namespace"@ != "on_error"@,
        "header"@ != "on_error"@,
{
    reveal_strlit("mappings");
    reveal_strlit("encoding");
    reveal_strlit("root");
    reveal_strlit("namespace");
    reveal_strlit("header");
    reveal_strlit("on_error");
    assert("mappings"@[0] == 'm');
    assert("encoding"@[0] == 'e');
    assert("root"@[0] == 'r');
    assert("namespace"@[0] == 'n');
    assert("header"@[0] == 'h');
    assert("on_error"@[0] == 'o');
}

/// The word of a type hint is read back as that type hint.
pub proof fn lemma_hint_word(h: TypeHint)
    ensures
        hint_of_word(hint_word(h)) == Some(h),
{
    reveal_strlit("string");
    reveal_strlit("number");
    reveal_strlit("date");
    assert("string"@[0] == 's');
    assert("number"@[0] == 'n');
    assert("date"@[0] == 'd');
}

/// The word of a coercion policy is read back as that policy.
pub proof fn lemma_policy_word(p: CoercionPolicy)
    ensures
        policy_of_word(policy_word(p)) == Some(p),
{
    reveal_strlit("skip-field-use-default");
    reveal_strlit("abort-record");
    reveal_strlit("abort-run");
    assert("skip-field-use-default"@.len() == 22);
    assert("abort-record"@.len() == 12);
    assert("abort-run"@.len() == 9);
}

/// The word of an encoding is read back as that encoding.
pub proof fn lemma_encoding_word(e: Encoding)
    ensures
        encoding_of_word(encoding_word(e)) == Some(e),
{
    reveal_strlit("UTF-8");
    reveal_strlit("US-ASCII");
    assert("UTF-8"@.len() == 5);
    assert("US-ASCII"@.len() == 8);
}

/// A written truth value is read back, whatever follows it.
pub proof fn lemma_bool_text(b: bool, rest: Seq<char>)
    ensures
        bool_literal(bool_text(b) + rest) == Some((b, rest)),
{
    let s = bool_text(b) + rest;
    if b {
        assert(s.skip(4) =~= rest);
    } else {
        assert(s.skip(5) =~= rest);
    }
}

/// After a member of a mapping object and a comma, the members that follow
/// are read.
pub proof fn lemma_mapping_member_then_more(
    key: Seq<char>,
    value: Seq<char>,
    next: Seq<char>,
    p: PartialMapping,
    part2: PartialMapping,
)
    requires
        value.len() > 0,
        !is_space(value[0]),
        next.len() > 0,
        !is_space(next[0]),
        mapping_member(key, value + (seq![','] + next), p) == Ok::<
            (PartialMapping, Seq<char>),
            ConfigError,
        >((part2, seq![','] + next)),
    ensures
        mapping_members(member_text(key, value) + (seq![','] + next), p) == mapping_members(
            next,
            part2,
        ),
{
    let tail = seq![','] + next;
    let s = member_text(key, value) + tail;
    let r0 = seq![':'] + (value + tail);
    assert(s =~= quoted(key) + r0);
    lemma_string_literal_quoted(key, r0);
    assert(r0[0] == ':');
    assert(skip_spaces(r0) == r0);
    assert(r0.skip(1) =~= value + tail);
    assert((value + tail)[0] == value[0]);
    assert(skip_spaces(value + tail) == value + tail);
    assert(tail[0] == ',');
    assert(skip_spaces(tail) == tail);
    assert(tail.skip(1) =~= next);
    assert(skip_spaces(next) == next);
    lemma_quoted_starts(key);
    assert(next.len() < s.len());
}

/// After the last member of a mapping object comes its closing brace.
pub proof fn lemma_mapping_member_then_end(
    key: Seq<char>,
    value: Seq<char>,
    rest: Seq<char>,
    p: PartialMapping,
    part2: PartialMapping,
)
    requires
        value.len() > 0,
        !is_space(value[0]),
        mapping_member(key, value + (seq!['}'] + rest), p) == Ok::<
            (PartialMapping, Seq<char>),
            ConfigError,
        >((part2, seq!['}'] + rest)),
    ensures
        mapping_members(member_text(key, value) + (seq!['}'] + rest), p) == Ok::<
            (PartialMapping, Seq<char>),
            ConfigError,
        >((part2, rest)),
{
    let tail = seq!['}'] + rest;
    let s = member_text(key, value) + tail;
    let r0 = seq![':'] + (value + tail);
    assert(s =~= quoted(key) + r0);
    lemma_string_literal_quoted(key, r0);
    assert(r0[0] == ':');
    assert(skip_spaces(r0) == r0);
    assert(r0.skip(1) =~= value + tail);
    assert((value + tail)[0] == value[0]);
    assert(skip_spaces(value + tail) == value + tail);
    assert(tail[0] == '}');
    assert(skip_spaces(tail) == tail);
    assert(tail.skip(1) =~= rest);
}

/// An object of four members, written from left to right, is a brace
/// followed by its first member and what comes after it.
proof fn lemma_shape_of_four(
    m1: Seq<char>,
    m2: Seq<char>,
    m3: Seq<char>,
    m4: Seq<char>,
    rest: Seq<char>,
)
    ensures
        seq!['{'] + m1 + seq![','] + m2 + seq![','] + m3 + seq![','] + m4 + seq!['}'] + rest
            == seq!['{'] + (m1 + (seq![','] + (m2 + (seq![','] + (m3 + (seq![','] + (m4 + (
            seq!['}'] + rest)))))))),
{
    let e = seq!['}'] + rest;
    let t4 = m4 + e;
    let t3 = m3 + (seq![','] + t4);
    let t2 = m2 + (seq![','] + t3);
    let t1 = m1 + (seq![','] + t2);
    let l1 = seq!['{'] + m1;
    let l2 = l1 + seq![','] + m2;
    let l3 = l2 + seq![','] + m3;
    let l4 = l3 + seq![','] + m4;
    assert(l4 + seq!['}'] + rest =~= l4 + e);
    assert(l4 + e =~= l3 + (seq![','] + t4));
    assert(l3 + (seq![','] + t4) =~= l2 + (seq![','] + t3));
    assert(l2 + (seq![','] + t3) =~= l1 + (seq![','] + t2));
    assert(l1 + (seq![','] + t2) =~= seq!['{'] + t1);
}

/// An object of six members, written from left to right, is a brace followed
/// by its first member and what comes after it.
proof fn lemma_shape_of_six(
    m1: Seq<char>,
    m2: Seq<char>,
    m3: Seq<char>,
    m4: Seq<char>,
    m5: Seq<char>,
    m6: Seq<char>,
    rest: Seq<char>,
)
    ensures
        seq!['{'] + m1 + seq![','] + m2 + seq![','] + m3 + seq![','] + m4 + seq![','] + m5
            + seq![','] + m6 + seq!['}'] + rest == seq!['{'] + (m1 + (seq![','] + (m2 + (
            seq![','] + (m3 + (seq![','] + (m4 + (seq![','] + (m5 + (seq![','] + (m6 + (
            seq!['}'] + rest)))))))))))),
{
    let e = seq!['}'] + rest;
    let t6 = m6 + e;
    let t5 = m5 + (seq![','] + t6);
    let t4 = m4 + (seq![','] + t5);
    let t3 = m3 + (seq![','] + t4);
    let t2 = m2 + (seq![','] + t3);
    let t1 = m1 + (seq![','] + t2);
    let l1 = seq!['{'] + m1;
    let l2 = l1 + seq![','] + m2;
    let l3 = l2 + seq![','] + m3;
    let l4 = l3 + seq![','] + m4;
    let l5 = l4 + seq![','] + m5;
    let l6 = l5 + seq![','] + m6;
    assert(l6 + seq!['}'] + rest =~= l6 + e);
    assert(l6 + e =~= l5 + (seq![','] + t6));
    assert(l5 + (seq![','] + t6) =~= l4 + (seq![','] + t5));
    assert(l4 + (seq![','] + t5) =~= l3 + (seq![','] + t4));
    assert(l3 + (seq![','] + t4) =~= l2 + (seq![','] + t3));
    assert(l2 + (seq![','] + t3) =~= l1 + (seq![','] + t2));
    assert(l1 + (seq![','] + t2) =~= seq!['{'] + t1);
}

/// A written mapping is read back, whatever follows it.
pub proof fn lemma_mapping_object_text(m: MappingView, rest: Seq<char>)
    ensures
        mapping_object(mapping_text(m) + rest) == Ok::<(MappingView, Seq<char>), ConfigError>(
            (m, rest),
        ),
{
    lemma_mapping_keys_differ();
    lemma_hint_word(m.type_hint);
    let v1 = quoted(m.source);
    let v2 = quoted(m.target);
    let v3 = quoted(m.default);
    let v4 = quoted(hint_word(m.type_hint));
    lemma_quoted_starts(m.source);
    lemma_quoted_starts(m.target);
    lemma_quoted_starts(m.default);
    lemma_quoted_starts(hint_word(m.type_hint));
    let end = seq!['}'] + rest;
    let t4 = member_text("type"@, v4) + end;
    let t3 = member_text("default"@, v3) + (seq![','] + t4);
    let t2 = member_text("target"@, v2) + (seq![','] + t3);
    let t1 = member_text("source"@, v1) + (seq![','] + t2);
    let s = mapping_text(m) + rest;
    reveal(mapping_text);
    lemma_shape_of_four(
        member_text("source"@, v1),
        member_text("target"@, v2),
        member_text("default"@, v3),
        member_text("type"@, v4),
        rest,
    );
    assert(s == seq!['{'] + t1);
    assert(s.skip(1) =~= t1);
    lemma_member_starts("source"@, v1, seq![','] + t2);
    lemma_member_starts("target"@, v2, seq![','] + t3);
    lemma_member_starts("default"@, v3, seq![','] + t4);
    lemma_member_starts("type"@, v4, end);
    assert(skip_spaces(t1) == t1);
    let part0 = no_mapping_members();
    let part1 = PartialMapping { source: Some(m.source), ..part0 };
    let part2 = PartialMapping { target: Some(m.target), ..part1 };
    let part3 = PartialMapping { default: Some(m.default), ..part2 };
    let part4 = PartialMapping { type_hint: Some(m.type_hint), ..part3 };
    lemma_string_literal_quoted(m.source, seq![','] + t2);
    lemma_mapping_member_then_more("source"@, v1, t2, part0, part1);
    lemma_string_literal_quoted(m.target, seq![','] + t3);
    lemma_mapping_member_then_more("target"@, v2, t3, part1, part2);
    lemma_string_literal_quoted(m.default, seq![','] + t4);
    lemma_mapping_member_then_more("default"@, v3, t4, part2, part3);
    lemma_string_literal_quoted(hint_word(m.type_hint), end);
    lemma_mapping_member_then_end("type"@, v4, rest, part3, part4);
    assert(mapping_members(t1, part0) == Ok::<(PartialMapping, Seq<char>), ConfigError>((part4, rest)));
    assert(finished_mapping(part4) == Some(m));
}

/// A written mapping starts with a brace.
pub proof fn lemma_mapping_text_starts(m: MappingView, after: Seq<char>)
    ensures
        (mapping_text(m) + after).len() > 0,
        (mapping_text(m) + after)[0] == '{',
{
    reveal(mapping_text);
}

/// The written mappings start with a brace.
pub proof fn lemma_elements_text_starts(ms: Seq<MappingView>, after: Seq<char>)
    requires
        ms.len() > 0,
    ensures
        (elements_text(ms) + after).len() > 0,
        (elements_text(ms) + after)[0] == '{',
{
    lemma_mapping_text_starts(ms[0], Seq::empty());
    if ms.len() > 1 {
        lemma_mapping_text_starts(ms[0], seq![','] + elements_text(ms.skip(1)));
    }
}

/// The written mappings are read back and added to those read before.
pub proof fn lemma_elements_text(ms: Seq<MappingView>, acc: Seq<MappingView>, rest: Seq<char>)
    requires
        ms.len() > 0,
    ensures
        mapping_elements(elements_text(ms) + (seq![']'] + rest), acc) == Ok::<
            (Seq<MappingView>, Seq<char>),
            ConfigError,
        >((acc + ms, rest)),
    decreases ms.len(),
{
    let end = seq![']'] + rest;
    let s = elements_text(ms) + end;
    if ms.len() == 1 {
        lemma_mapping_object_text(ms[0], end);
        assert(end[0] == ']');
        assert(skip_spaces(end) == end);
        assert(end.skip(1) =~= rest);
        assert(acc.push(ms[0]) =~= acc + ms);
    } else {
        let more = elements_text(ms.skip(1)) + end;
        let tail = seq![','] + more;
        assert(s =~= mapping_text(ms[0]) + tail);
        lemma_mapping_object_text(ms[0], tail);
        assert(tail[0] == ',');
        assert(skip_spaces(tail) == tail);
        assert(tail.skip(1) =~= more);
        lemma_elements_text_starts(ms.skip(1), end);
        assert(skip_spaces(more) == more);
        lemma_mapping_text_starts(ms[0], tail);
        assert(more.len() < s.len());
        lemma_elements_text(ms.skip(1), acc.push(ms[0]), rest);
        assert(acc.push(ms[0]) + ms.skip(1) =~= acc + ms);
    }
}

/// A written array of mappings is read back, whatever follows it.
pub proof fn lemma_array_text(ms: Seq<MappingView>, rest: Seq<char>)
    ensures
        mapping_array(array_text(ms) + rest) == Ok::<(Seq<MappingView>, Seq<char>), ConfigError>(
            (ms, rest),
        ),
{
    let s = array_text(ms) + rest;
    let end = seq![']'] + rest;
    assert(s[0] == '[');
    assert(s.skip(1) =~= elements_text(ms) + end);
    if ms.len() == 0 {
        assert(elements_text(ms) + end =~= end);
        assert(end[0] == ']');
        assert(skip_spaces(end) == end);
        assert(end.skip(1) =~= rest);
        assert(ms =~= Seq::<MappingView>::empty());
    } else {
        lemma_elements_text_starts(ms, end);
        assert(skip_spaces(elements_text(ms) + end) == elements_text(ms) + end);
        lemma_elements_text(ms, Seq::empty(), rest);
        assert(Seq::<MappingView>::empty() + ms =~= ms);
    }
}

/// After a member of a configuration object and a comma, the members that
/// follow are read.
pub proof fn lemma_config_member_then_more(
    key: Seq<char>,
    value: Seq<char>,
    next: Seq<char>,
    p: PartialConfig,
    part2: PartialConfig,
)
    requires
        value.len() > 0,
        !is_space(value[0]),
        next.len() > 0,
        !is_space(next[0]),
        config_member(key, value + (seq![','] + next), p) == Ok::<
            (PartialConfig, Seq<char>),
            ConfigError,
        >((part2, seq![','] + next)),
    ensures
        config_members(member_text(key, value) + (seq![','] + next), p) == config_members(
            next,
            part2,
        ),
{
    let tail = seq![','] + next;
    let s = member_text(key, value) + tail;
    let r0 = seq![':'] + (value + tail);
    assert(s =~= quoted(key) + r0);
    lemma_string_literal_quoted(key, r0);
    assert(r0[0] == ':');
    assert(skip_spaces(r0) == r0);
    assert(r0.skip(1) =~= value + tail);
    assert((value + tail)[0] == value[0]);
    assert(skip_spaces(value + tail) == value + tail);
    assert(tail[0] == ',');
    assert(skip_spaces(tail) == tail);
    assert(tail.skip(1) =~= next);
    assert(skip_spaces(next) == next);
    lemma_quoted_starts(key);
    assert(next.len() < s.len());
}

/// After the last member of a configuration object comes its closing brace.
pub proof fn lemma_config_member_then_end(
    key: Seq<char>,
    value: Seq<char>,
    rest: Seq<char>,
    p: PartialConfig,
    part2: PartialConfig,
)
    requires
        value.len() > 0,
        !is_space(value[0]),
        config_member(key, value + (seq!['}'] + rest), p) == Ok::<
            (PartialConfig, Seq<char>),
            ConfigError,
        >((part2, seq!['}'] + rest)),
    ensures
        config_members(member_text(key, value) + (seq!['}'] + rest), p) == Ok::<
            (PartialConfig, Seq<char>),
            ConfigError,
        >((part2, rest)),
{
    let tail = seq!['}'] + rest;
    let s = member_text(key, value) + tail;
    let r0 = seq![':'] + (value + tail);
    assert(s =~= quoted(key) + r0);
    lemma_string_literal_quoted(key, r0);
    assert(r0[0] == ':');
    assert(skip_spaces(r0) == r0);
    assert(r0.skip(1) =~= value + tail);
    assert((value + tail)[0] == value[0]);
    assert(skip_spaces(value + tail) == value + tail);
    assert(tail[0] == '}');
    assert(skip_spaces(tail) == tail);
    assert(tail.skip(1) =~= rest);
}

/// The last member of a written configuration, the closing brace and what
/// follows it.
spec fn from_policy(c: ConfigView, rest: Seq<char>) -> Seq<char> {
    member_text("on_error"@, quoted(policy_word(c.on_failure))) + (seq!['}'] + rest)
}

/// A written configuration from its member `header` on.
spec fn from_header(c: ConfigView, rest: Seq<char>) -> Seq<char> {
    member_text("header"@, bool_text(c.header)) + (seq![','] + from_policy(c, rest))
}

/// A written configuration from its member `namespace` on.
spec fn from_namespace(c: ConfigView, rest: Seq<char>) -> Seq<char> {
    member_text("namespace"@, quoted(c.namespace)) + (seq![','] + from_header(c, rest))
}

/// A written configuration from its member `root` on.
spec fn from_root(c: ConfigView, rest: Seq<char>) -> Seq<char> {
    member_text("root"@, quoted(c.root)) + (seq![','] + from_namespace(c, rest))
}

/// A written configuration from its member `encoding` on.
spec fn from_encoding(c: ConfigView, rest: Seq<char>) -> Seq<char> {
    member_text("encoding"@, quoted(encoding_word(c.encoding))) + (seq![','] + from_root(
        c,
        rest,
    ))
}

/// A written configuration from its member `mappings` on.
spec fn from_mappings(c: ConfigView, rest: Seq<char>) -> Seq<char> {
    member_text("mappings"@, array_text(c.mappings)) + (seq![','] + from_encoding(c, rest))
}

/// A written configuration is read back from its last member on.
proof fn lemma_from_policy(c: ConfigView, rest: Seq<char>, p: PartialConfig)
    requires
        p.on_failure is None,
    ensures
        config_members(from_policy(c, rest), p) == Ok::<(PartialConfig, Seq<char>), ConfigError>(
            (PartialConfig { on_failure: Some(c.on_failure), ..p }, rest),
        ),
{
    lemma_config_keys_differ();
    lemma_policy_word(c.on_failure);
    let w = policy_word(c.on_failure);
    lemma_quoted_starts(w);
    lemma_string_literal_quoted(w, seq!['}'] + rest);
    lemma_config_member_then_end(
        "on_error"@,
        quoted(w),
        rest,
        p,
        PartialConfig { on_failure: Some(c.on_failure), ..p },
    );
}

/// A written configuration is read back from its member `header` on.
proof fn lemma_from_header(c: ConfigView, rest: Seq<char>, p: PartialConfig)
    requires
        p.header is None,
        p.on_failure is None,
    ensures
        config_members(from_header(c, rest), p) == Ok::<(PartialConfig, Seq<char>), ConfigError>(
            (PartialConfig { header: Some(c.header), on_failure: Some(c.on_failure), ..p }, rest),
        ),
{
    lemma_config_keys_differ();
    let next = from_policy(c, rest);
    let part2 = PartialConfig { header: Some(c.header), ..p };
    lemma_bool_text(c.header, seq![','] + next);
    lemma_member_starts("on_error"@, quoted(policy_word(c.on_failure)), seq!['}'] + rest);
    assert(bool_text(c.header)[0] == 't' || bool_text(c.header)[0] == 'f');
    lemma_config_member_then_more("header"@, bool_text(c.header), next, p, part2);
    lemma_from_policy(c, rest, part2);
}

/// A written configuration is read back from its member `namespace` on.
proof fn lemma_from_namespace(c: ConfigView, rest: Seq<char>, p: PartialConfig)
    requires
        p.namespace is None,
        p.header is None,
        p.on_failure is None,
    ensures
        config_members(from_namespace(c, rest), p) == Ok::<
            (PartialConfig, Seq<char>),
            ConfigError,
        >(
            (
                PartialConfig {
                    namespace: Some(c.namespace),
                    header: Some(c.header),
                    on_failure: Some(c.on_failure),
                    ..p
                },
                rest,
            ),
        ),
{
    lemma_config_keys_differ();
    let next = from_header(c, rest);
    let part2 = PartialConfig { namespace: Some(c.namespace), ..p };
    lemma_quoted_starts(c.namespace);
    lemma_string_literal_quoted(c.namespace, seq![','] + next);
    lemma_member_starts("header"@, bool_text(c.header), seq![','] + from_policy(c, rest));
    lemma_config_member_then_more("namespace"@, quoted(c.namespace), next, p, part2);
    lemma_from_header(c, rest, part2);
}

/// A written configuration is read back from its member `root` on.
proof fn lemma_from_root(c: ConfigView, rest: Seq<char>, p: PartialConfig)
    requires
        p.root is None,
        p.namespace is None,
        p.header is None,
        p.on_failure is None,
    ensures
        config_members(from_root(c, rest), p) == Ok::<(PartialConfig, Seq<char>), ConfigError>(
            (
                PartialConfig {
                    root: Some(c.root),
                    namespace: Some(c.namespace),
                    header: Some(c.header),
                    on_failure: Some(c.on_failure),
                    ..p
                },
                rest,
            ),
        ),
{
    lemma_config_keys_differ();
    let next = from_namespace(c, rest);
    let part2 = PartialConfig { root: Some(c.root), ..p };
    lemma_quoted_starts(c.root);
    lemma_string_literal_quoted(c.root, seq![','] + next);
    lemma_member_starts("namespace"@, quoted(c.namespace), seq![','] + from_header(c, rest));
    lemma_config_member_then_more("root"@, quoted(c.root), next, p, part2);
    lemma_from_namespace(c, rest, part2);
}

/// A written configuration is read back from its member `encoding` on.
proof fn lemma_from_encoding(c: ConfigView, rest: Seq<char>, p: PartialConfig)
    requires
        p.encoding is None,
        p.root is None,
        p.namespace is None,
        p.header is None,
        p.on_failure is None,
    ensures
        config_members(from_encoding(c, rest), p) == Ok::<
            (PartialConfig, Seq<char>),
            ConfigError,
        >(
            (
                PartialConfig {
                    encoding: Some(c.encoding),
                    root: Some(c.root),
                    namespace: Some(c.namespace),
                    header: Some(c.header),
                    on_failure: Some(c.on_failure),
                    ..p
                },
                rest,
            ),
        ),
{
    lemma_config_keys_differ();
    lemma_encoding_word(c.encoding);
    let next = from_root(c, rest);
    let w = encoding_word(c.encoding);
    let part2 = PartialConfig { encoding: Some(c.encoding), ..p };
    lemma_quoted_starts(w);
    lemma_string_literal_quoted(w, seq![','] + next);
    lemma_member_starts("root"@, quoted(c.root), seq![','] + from_namespace(c, rest));
    lemma_config_member_then_more("encoding"@, quoted(w), next, p, part2);
    lemma_from_root(c, rest, part2);
}

/// A written configuration is read back from its first member on.
proof fn lemma_from_mappings(c: ConfigView, rest: Seq<char>)
    ensures
        config_members(from_mappings(c, rest), no_config_members()) == Ok::<
            (PartialConfig, Seq<char>),
            ConfigError,
        >(
            (
                PartialConfig {
                    mappings: Some(c.mappings),
                    encoding: Some(c.encoding),
                    root: Some(c.root),
                    namespace: Some(c.namespace),
                    header: Some(c.header),
                    on_failure: Some(c.on_failure),
                },
                rest,
            ),
        ),
{
    let p = no_config_members();
    let next = from_encoding(c, rest);
    let part2 = PartialConfig { mappings: Some(c.mappings), ..p };
    lemma_array_text(c.mappings, seq![','] + next);
    assert(array_text(c.mappings)[0] == '[');
    lemma_member_starts(
        "encoding"@,
        quoted(encoding_word(c.encoding)),
        seq![','] + from_root(c, rest),
    );
    lemma_config_member_then_more("mappings"@, array_text(c.mappings), next, p, part2);
    lemma_from_encoding(c, rest, part2);
}

/// A written configuration object is read back, whatever follows it.
pub proof fn lemma_config_object_text(c: ConfigView, rest: Seq<char>)
    ensures
        config_object(config_text(c) + rest) == Ok::<(ConfigView, Seq<char>), ConfigError>(
            (c, rest),
        ),
{
    let t1 = from_mappings(c, rest);
    let s = config_text(c) + rest;
    assert(s == seq!['{'] + t1) by {
        reveal(config_text);
        lemma_shape_of_six(
            member_text("mappings"@, array_text(c.mappings)),
            member_text("encoding"@, quoted(encoding_word(c.encoding))),
            member_text("root"@, quoted(c.root)),
            member_text("namespace"@, quoted(c.namespace)),
            member_text("header"@, bool_text(c.header)),
            member_text("on_error"@, quoted(policy_word(c.on_failure))),
            rest,
        );
    }
    assert(s.skip(1) =~= t1);
    lemma_member_starts(
        "mappings"@,
        array_text(c.mappings),
        seq![','] + from_encoding(c, rest),
    );
    assert(skip_spaces(t1) == t1);
    lemma_from_mappings(c, rest);
    let part6 = PartialConfig {
        mappings: Some(c.mappings),
        encoding: Some(c.encoding),
        root: Some(c.root),
        namespace: Some(c.namespace),
        header: Some(c.header),
        on_failure: Some(c.on_failure),
    };
    assert(finished_config(part6) == c);
}

/// Writing a configuration and reading the text gives the configuration back.
pub proof fn lemma_parse_written(c: ConfigView)
    requires
        c.valid(),
    ensures
        parse_config(config_text(c)) == Ok::<ConfigView, ConfigError>(c),
{
    let s = config_text(c);
    lemma_config_object_text(c, Seq::empty());
    assert(s + Seq::<char>::empty() =~= s);
    assert(s[0] == '{') by {
        reveal(config_text);
    }
    assert(skip_spaces(s) == s);
    assert(skip_spaces(Seq::<char>::empty()).len() == 0);
}

} // verus!
