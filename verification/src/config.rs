//! The configuration of a conversion: which cells go to which fields, and how
//! the documents are shaped.

use vstd::prelude::*;
use vstd::string::StringExecFns;

verus! {

/// What a cell has to hold for a field to take it.
#[derive(Clone, Copy, Debug, PartialEq, Eq, Structural)]
pub enum TypeHint {
    /// Any text.
    Text,
    /// A decimal number.
    Number,
    /// A calendar date.
    Date,
}

/// What becomes of a record when a cell cannot be coerced to its field's type.
#[derive(Clone, Copy, Debug, PartialEq, Eq, Structural)]
pub enum CoercionPolicy {
    /// The field takes its default value.
    SkipFieldUseDefault,
    /// The record is left out; the rows after it are still mapped.
    AbortRecord,
    /// The whole run fails.
    AbortRun,
}

/// The encoding in which the documents are written.
#[derive(Clone, Copy, Debug, PartialEq, Eq, Structural)]
pub enum Encoding {
    /// UTF-8: every character is written as it is.
    Utf8,
    /// US-ASCII: characters beyond it are written as numeric references.
    UsAscii,
}

/// Why a configuration was refused.
#[derive(Clone, Copy, Debug, PartialEq, Eq, Structural)]
pub enum ConfigError {
    /// The text does not follow the grammar of a configuration.
    Malformed,
    /// An object holds a key that the format does not know.
    UnknownKey,
    /// An object holds the same key twice.
    DuplicateKey,
    /// A mapping lacks its source or its target.
    MissingKey,
    /// A value is none of the words that its key admits.
    InvalidValue,
    /// Two mappings have the same target.
    DuplicateTarget,
}

/// A rule that binds one column of a sheet to one field of the output.
#[derive(Debug, PartialEq, Eq)]
pub struct FieldMapping {
    /// The column: a header name where the sheet has a header row, column
    /// letters (`A`, `B`, .., `AA`, ..) where it has none.
    pub source: String,
    /// The name of the field, from which the element's name is derived.
    pub target: String,
    /// The value of the field where the cell is absent or blank.
    pub default: String,
    /// The type that the cell is coerced to.
    pub type_hint: TypeHint,
}

/// A field mapping as a mathematical value.
pub struct MappingView {
    pub source: Seq<char>,
    pub target: Seq<char>,
    pub default: Seq<char>,
    pub type_hint: TypeHint,
}

impl View for FieldMapping {
    type V = MappingView;

    open spec fn view(&self) -> MappingView {
        MappingView {
            source: self.source@,
            target: self.target@,
            default: self.default@,
            type_hint: self.type_hint,
        }
    }
}

impl Clone for FieldMapping {
    fn clone(&self) -> (m: Self)
        ensures
            m@ == self@,
    {
        FieldMapping {
            source: self.source.clone(),
            target: self.target.clone(),
            default: self.default.clone(),
            type_hint: self.type_hint,
        }
    }
}

/// A configuration as a mathematical value.
pub struct ConfigView {
    pub mappings: Seq<MappingView>,
    pub encoding: Encoding,
    pub root: Seq<char>,
    pub namespace: Seq<char>,
    pub header: bool,
    pub on_failure: CoercionPolicy,
}

/// No two of the mappings have the same target.
pub open spec fn targets_unique(mappings: Seq<MappingView>) -> bool {
    forall|i: int, j: int| 0 <= i < j < mappings.len() ==> mappings[i].target != mappings[j].target
}

impl ConfigView {
    /// What every configuration satisfies: its targets are unique.
    pub open spec fn valid(self) -> bool {
        targets_unique(self.mappings)
    }
}

/// The mappings of `v` as mathematical values.
pub open spec fn mapping_views(v: Seq<FieldMapping>) -> Seq<MappingView> {
    Seq::new(v.len(), |i: int| v[i]@)
}

/// The rules of one conversion run. It cannot be changed once it is built,
/// and its targets are unique.
#[derive(Debug, PartialEq, Eq)]
pub struct Configuration {
    mappings: Vec<FieldMapping>,
    encoding: Encoding,
    root: String,
    namespace: String,
    header: bool,
    on_failure: CoercionPolicy,
}

impl View for Configuration {
    type V = ConfigView;

    closed spec fn view(&self) -> ConfigView {
        ConfigView {
            mappings: mapping_views(self.mappings@),
            encoding: self.encoding,
            root: self.root@,
            namespace: self.namespace@,
            header: self.header,
            on_failure: self.on_failure,
        }
    }
}

/// The configuration that is built in: the first column goes to the field
/// `value` as text, in a document with the root element `records`.
pub open spec fn default_config() -> ConfigView {
    ConfigView {
        mappings: seq![
            MappingView {
                source: "A"@,
                target: "value"@,
                default: Seq::empty(),
                type_hint: TypeHint::Text,
            },
        ],
        encoding: Encoding::Utf8,
        root: "records"@,
        namespace: Seq::empty(),
        header: false,
        on_failure: CoercionPolicy::SkipFieldUseDefault,
    }
}

/// Whether one of the mappings from `from` on has the target `target`.
pub open spec fn target_occurs(mappings: Seq<MappingView>, target: Seq<char>, from: int) -> bool {
    exists|j: int| from <= j < mappings.len() && mappings[j].target == target
}

/// Whether `target` is the target of one of `mappings[from..]`.
fn has_target(mappings: &Vec<FieldMapping>, target: &String, from: usize) -> (found: bool)
    requires
        from <= mappings.len(),
    ensures
        found == target_occurs(mapping_views(mappings@), target@, from as int),
{
    let mut j: usize = from;
    while j < mappings.len()
        invariant
            from <= j <= mappings.len(),
            forall|k: int| from <= k < j ==> mapping_views(mappings@)[k].target != target@,
        decreases mappings.len() - j,
    {
        if mappings[j].target == *target {
            assert(mapping_views(mappings@)[j as int].target == target@);
            return true;
        }
        j += 1;
    }
    false
}

/// Whether no two of `mappings` have the same target.
pub fn has_unique_targets(mappings: &Vec<FieldMapping>) -> (unique: bool)
    ensures
        unique == targets_unique(mapping_views(mappings@)),
{
    let ghost views = mapping_views(mappings@);
    let mut i: usize = 0;
    while i < mappings.len()
        invariant
            i <= mappings.len(),
            views == mapping_views(mappings@),
            forall|a: int, b: int| 0 <= a < i && a < b < views.len() ==> views[a].target != views[b].target,
        decreases mappings.len() - i,
    {
        if has_target(mappings, &mappings[i].target, i + 1) {
            let ghost j = choose|j: int| i + 1 <= j < views.len() && views[j].target == views[i as int].target;
            assert(views[i as int].target == views[j].target);
            return false;
        }
        i += 1;
    }
    true
}

impl Configuration {
    /// What holds of every configuration.
    #[verifier::type_invariant]
    pub open spec fn well_formed(&self) -> bool {
        self@.valid()
    }

    /// Builds a configuration, or refuses it with `DuplicateTarget` where two
    /// of the mappings have the same target.
    pub fn new(
        mappings: Vec<FieldMapping>,
        encoding: Encoding,
        root: String,
        namespace: String,
        header: bool,
        on_failure: CoercionPolicy,
    ) -> (r: Result<Configuration, ConfigError>)
        ensures
            match r {
                Ok(c) => targets_unique(mapping_views(mappings@)) && c@ == (ConfigView {
                    mappings: mapping_views(mappings@),
                    encoding,
                    root: root@,
                    namespace: namespace@,
                    header,
                    on_failure,
                }),
                Err(e) => !targets_unique(mapping_views(mappings@)) && e
                    == ConfigError::DuplicateTarget,
            },
    {
        if has_unique_targets(&mappings) {
            Ok(Configuration { mappings, encoding, root, namespace, header, on_failure })
        } else {
            Err(ConfigError::DuplicateTarget)
        }
    }

    /// The configuration taken apart: its mappings, encoding, root, namespace,
    /// header flag and coercion policy.
    pub fn into_parts(self) -> (parts: (
        Vec<FieldMapping>,
        Encoding,
        String,
        String,
        bool,
        CoercionPolicy,
    ))
        ensures
            mapping_views(parts.0@) == self@.mappings,
            parts.1 == self@.encoding,
            parts.2@ == self@.root,
            parts.3@ == self@.namespace,
            parts.4 == self@.header,
            parts.5 == self@.on_failure,
            self@.valid(),
    {
        proof {
            use_type_invariant(&self);
        }
        (self.mappings, self.encoding, self.root, self.namespace, self.header, self.on_failure)
    }

    /// The mappings, in the order in which the fields are written.
    pub fn mappings(&self) -> (m: &Vec<FieldMapping>)
        ensures
            mapping_views(m@) == self@.mappings,
            self@.valid(),
    {
        proof {
            use_type_invariant(self);
        }
        &self.mappings
    }

    /// The encoding of the documents.
    pub fn encoding(&self) -> (e: Encoding)
        ensures
            e == self@.encoding,
    {
        self.encoding
    }

    /// The name of the root element.
    pub fn root(&self) -> (r: &String)
        ensures
            r@ == self@.root,
    {
        &self.root
    }

    /// The namespace of the root element; empty for none.
    pub fn namespace(&self) -> (n: &String)
        ensures
            n@ == self@.namespace,
    {
        &self.namespace
    }

    /// Whether the first row of a sheet names its columns.
    pub fn has_header(&self) -> (h: bool)
        ensures
            h == self@.header,
    {
        self.header
    }

    /// What becomes of a record when a cell cannot be coerced.
    pub fn on_failure(&self) -> (p: CoercionPolicy)
        ensures
            p == self@.on_failure,
    {
        self.on_failure
    }
}

impl Clone for Configuration {
    fn clone(&self) -> (c: Self)
        ensures
            c@ == self@,
    {
        proof {
            use_type_invariant(self);
        }
        let mut mappings: Vec<FieldMapping> = Vec::new();
        let mut i: usize = 0;
        while i < self.mappings.len()
            invariant
                i <= self.mappings.len(),
                mappings.len() == i,
                forall|k: int| 0 <= k < i ==> mappings[k]@ == self.mappings[k]@,
            decreases self.mappings.len() - i,
        {
            mappings.push(self.mappings[i].clone());
            i += 1;
        }
        proof {
            assert(mapping_views(mappings@) =~= mapping_views(self.mappings@));
        }
        Configuration {
            mappings,
            encoding: self.encoding,
            root: self.root.clone(),
            namespace: self.namespace.clone(),
            header: self.header,
            on_failure: self.on_failure,
        }
    }
}

/// The built-in configuration.
pub fn load_default() -> (c: Configuration)
    ensures
        c@ == default_config(),
{
    let mut mappings: Vec<FieldMapping> = Vec::new();
    mappings.push(
        FieldMapping {
            source: String::from_str("A"),
            target: String::from_str("value"),
            default: String::new(),
            type_hint: TypeHint::Text,
        },
    );
    let c = Configuration {
        mappings,
        encoding: Encoding::Utf8,
        root: String::from_str("records"),
        namespace: String::new(),
        header: false,
        on_failure: CoercionPolicy::SkipFieldUseDefault,
    };
    proof {
        assert(c@.mappings =~= default_config().mappings);
    }
    c
}

} // verus!
