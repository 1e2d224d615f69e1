//! The vault contract, as the note reader consults it.
//!
//! A resolved contract declares the corpus's link dialect, its lifecycle axis,
//! its tag vocabulary, and its types — each with its properties, relationships
//! and tag namespaces, in declaration order. Reading a note asks it exactly
//! these questions and nothing else.

use vstd::prelude::*;

use crate::chars::{join, join3, str_eq};
use crate::provenance::Provenance;

verus! {

/// How a corpus writes its links, corpus-wide.
#[derive(Clone, Copy, Debug, PartialEq, Eq)]
pub enum LinkDialect {
    /// `[[target|alias]]`.
    Wikilink,
    /// `[label](target)`.
    Markdown,
}

/// The kinds a scalar value can be declared as.
#[derive(Clone, Copy, Debug, PartialEq, Eq)]
pub enum ScalarKind {
    /// Any scalar's bytes.
    String,
    /// An optional sign and one or more ASCII digits.
    Integer,
    /// The same, with a fractional part, an exponent, or both.
    Float,
    /// `true` or `false`.
    Boolean,
    /// An RFC 3339 `full-date`.
    Date,
    /// An RFC 3339 `date-time` with a mandatory offset.
    DateTime,
}

impl ScalarKind {
    /// The kind's name as a contract writes it.
    pub open spec fn spelling(self) -> Seq<char> {
        match self {
            ScalarKind::String => "string"@,
            ScalarKind::Integer => "integer"@,
            ScalarKind::Float => "float"@,
            ScalarKind::Boolean => "boolean"@,
            ScalarKind::Date => "date"@,
            ScalarKind::DateTime => "datetime"@,
        }
    }

    /// The kind's name as a contract writes it.
    pub fn as_str(self) -> (s: &'static str)
        ensures
            s@ == self.spelling(),
    {
        match self {
            ScalarKind::String => "string",
            ScalarKind::Integer => "integer",
            ScalarKind::Float => "float",
            ScalarKind::Boolean => "boolean",
            ScalarKind::Date => "date",
            ScalarKind::DateTime => "datetime",
        }
    }
}

/// What a declared record field holds.
#[derive(Clone, Debug, PartialEq, Eq)]
pub enum FieldKind {
    /// One scalar of a kind.
    Scalar(ScalarKind),
    /// One of a closed set of strings.
    Enum { values: Vec<String> },
}

/// One declared field of a record.
#[derive(Clone, Debug, PartialEq, Eq)]
pub struct FieldDecl {
    /// The field's name.
    pub name: String,
    /// What it holds.
    pub kind: FieldKind,
    /// Whether a record must write it.
    pub required: bool,
}

/// What a declared property holds.
#[derive(Clone, Debug, PartialEq, Eq)]
pub enum PropertyKind {
    /// One scalar of a kind.
    Scalar(ScalarKind),
    /// One of a closed set of strings.
    Enum { values: Vec<String> },
    /// A sequence of scalars of one kind.
    List { of: ScalarKind },
    /// A mapping of declared fields.
    Record { fields: Vec<FieldDecl> },
    /// A sequence of records, each held to the same fields.
    ListOfRecord { fields: Vec<FieldDecl> },
}

/// One declared property of a type.
#[derive(Clone, Debug, PartialEq, Eq)]
pub struct PropertyDecl {
    /// The property's name, which is the frontmatter key.
    pub name: String,
    /// What it holds.
    pub kind: PropertyKind,
    /// Whether a note of the type must write it.
    pub required: bool,
}

/// One declared relationship of a type: a predicate whose values are links.
#[derive(Clone, Debug, PartialEq, Eq)]
pub struct RelationshipDecl {
    /// The predicate, which is the frontmatter key.
    pub predicate: String,
    /// Whether a note of the type must write at least one edge.
    pub required: bool,
}

/// One tag namespace a type describes: tags beginning with a prefix.
#[derive(Clone, Debug, PartialEq, Eq)]
pub struct TagNamespaceDecl {
    /// The prefix a tag in the namespace begins with.
    pub prefix: String,
    /// Whether a note of the type must carry at least one tag in it.
    pub required: bool,
    /// The members a closed namespace admits; `None` for an open one.
    pub values: Option<Vec<String>>,
}

/// What a type can declare about the notes it types.
#[derive(Clone, Copy, Debug, PartialEq, Eq, Structural)]
pub enum Capability {
    /// Notes of the type are the ones an identity is resolved among.
    IdentityBearing,
    /// The type a note with no `type` binds to.
    CatchAll,
    /// Notes of the type are written once and closed to edits.
    ClosedWrite,
}

/// A capability's wire word.
pub open spec fn capability_spelling(c: Capability) -> Seq<char> {
    match c {
        Capability::IdentityBearing => "identity-bearing"@,
        Capability::CatchAll => "catch-all"@,
        Capability::ClosedWrite => "closed-write"@,
    }
}

impl Capability {
    /// The capability's wire word.
    pub fn as_str(self) -> (s: &'static str)
        ensures
            s@ == capability_spelling(self),
    {
        match self {
            Capability::IdentityBearing => "identity-bearing",
            Capability::CatchAll => "catch-all",
            Capability::ClosedWrite => "closed-write",
        }
    }
}

/// One declared type.
#[derive(Clone, Debug, PartialEq, Eq)]
pub struct TypeDecl {
    /// The type's name, which a note's `type` writes.
    pub name: String,
    /// The capabilities the type declares, in declaration order.
    pub capabilities: Vec<Capability>,
    /// The declared properties, in declaration order.
    pub properties: Vec<PropertyDecl>,
    /// The declared relationships, in declaration order.
    pub relationships: Vec<RelationshipDecl>,
    /// The declared tag namespaces, in declaration order.
    pub tag_namespaces: Vec<TagNamespaceDecl>,
}

/// The corpus's tag vocabulary: which declared property carries tags.
#[derive(Clone, Debug, PartialEq, Eq)]
pub struct Tags {
    /// The property whose list values are a note's tags.
    pub property: String,
}

/// What the ordinary state of a lifecycle axis is.
#[derive(Clone, Debug, PartialEq, Eq)]
pub enum Ordinary {
    /// A note writing no value for the axis is in the ordinary state.
    Absent,
    /// A note writing this value is in the ordinary state.
    Value(String),
}

/// The corpus's lifecycle axis, when it declares one.
#[derive(Clone, Debug, PartialEq, Eq)]
pub enum LifecycleDecl {
    /// The corpus declares no axis.
    NoAxis,
    /// The property that carries a note's lifecycle state, and its ordinary
    /// state.
    Axis { axis: String, ordinary: Ordinary },
}

/// How a corpus writes what it writes.
#[derive(Clone, Copy, Debug, PartialEq, Eq)]
pub struct Dialect {
    /// How links are written.
    pub links: LinkDialect,
}

/// A resolved contract.
#[derive(Clone, Debug, PartialEq, Eq)]
pub struct Contract {
    /// The contract's version.
    pub contract_version: u32,
    /// How the corpus writes links.
    pub dialect: Dialect,
    /// The lifecycle axis.
    pub lifecycle: LifecycleDecl,
    /// The tag vocabulary, when there is one.
    pub tags: Option<Tags>,
    /// The flags the contract sets.
    pub flags: Vec<String>,
    /// The declared types, in declaration order.
    pub types: Vec<TypeDecl>,
    /// Where each leaf was written, or that it was defaulted.
    pub provenance: Provenance,
}

/// The first position of `types` named `name`.
pub open spec fn type_at(types: Seq<TypeDecl>, name: Seq<char>) -> Option<int>
    decreases types.len(),
{
    if types.len() == 0 {
        None
    } else {
        match type_at(types.drop_last(), name) {
            Some(i) => Some(i),
            None => if types.last().name@ == name {
                Some(types.len() - 1)
            } else {
                None
            },
        }
    }
}

/// Whether `declared` declares `capability`.
pub open spec fn declares_capability(declared: TypeDecl, capability: Capability) -> bool {
    exists|i: int| 0 <= i < declared.capabilities@.len() && declared.capabilities@[i] == capability
}

impl TypeDecl {
    /// Whether the type declares `capability`.
    pub fn declares(&self, capability: Capability) -> (b: bool)
        ensures
            b == declares_capability(*self, capability),
    {
        let mut i: usize = 0;
        while i < self.capabilities.len()
            invariant
                i <= self.capabilities@.len(),
                forall|j: int| 0 <= j < i ==> self.capabilities@[j] != capability,
            decreases self.capabilities.len() - i,
        {
            if self.capabilities[i] == capability {
                return true;
            }
            i = i + 1;
        }
        false
    }
}

/// The first position of `types` that is the catch-all.
pub open spec fn catch_all_at(types: Seq<TypeDecl>) -> Option<int>
    decreases types.len(),
{
    if types.len() == 0 {
        None
    } else {
        match catch_all_at(types.drop_last()) {
            Some(i) => Some(i),
            None => if declares_capability(types.last(), Capability::CatchAll) {
                Some(types.len() - 1)
            } else {
                None
            },
        }
    }
}

/// The first position named `name` is named so, and nothing before it is.
pub proof fn lemma_type_at(types: Seq<TypeDecl>, name: Seq<char>)
    ensures
        match type_at(types, name) {
            Some(i) => 0 <= i < types.len() && types[i].name@ == name && forall|j: int|
                0 <= j < i ==> #[trigger] types[j].name@ != name,
            None => forall|j: int| 0 <= j < types.len() ==> #[trigger] types[j].name@ != name,
        },
    decreases types.len(),
{
    if types.len() > 0 {
        lemma_type_at(types.drop_last(), name);
        assert forall|j: int| 0 <= j < types.len() - 1 implies types[j] == types.drop_last()[j] by {}
    }
}

/// The first catch-all is one, and nothing before it is.
pub proof fn lemma_catch_all_at(types: Seq<TypeDecl>)
    ensures
        match catch_all_at(types) {
            Some(i) => 0 <= i < types.len() && declares_capability(types[i], Capability::CatchAll) && forall|j: int|
                0 <= j < i ==> !declares_capability(#[trigger] types[j], Capability::CatchAll),
            None => forall|j: int| 0 <= j < types.len() ==> !declares_capability(#[trigger] types[j], Capability::CatchAll),
        },
    decreases types.len(),
{
    if types.len() > 0 {
        lemma_catch_all_at(types.drop_last());
        assert forall|j: int| 0 <= j < types.len() - 1 implies types[j] == types.drop_last()[j] by {}
    }
}

impl Contract {
    /// The type named `name`: the first declaration of it.
    pub fn type_named(&self, name: &str) -> (r: Option<&TypeDecl>)
        ensures
            match type_at(self.types@, name@) {
                Some(i) => r == Some(&self.types@[i]),
                None => r.is_none(),
            },
    {
        proof {
            lemma_type_at(self.types@, name@);
        }
        let mut i: usize = 0;
        while i < self.types.len()
            invariant
                i <= self.types@.len(),
                forall|j: int| 0 <= j < i ==> #[trigger] self.types@[j].name@ != name@,
            decreases self.types.len() - i,
        {
            if str_eq(self.types[i].name.as_str(), name) {
                assert(self.types@[i as int].name@ == name@);
                proof {
                    lemma_type_at(self.types@, name@);
                }
                assert(type_at(self.types@, name@) == Some(i as int));
                return Some(&self.types[i]);
            }
            i = i + 1;
        }
        None
    }

    /// The catch-all type: the first type declaring the capability.
    pub fn catch_all(&self) -> (r: Option<&TypeDecl>)
        ensures
            match catch_all_at(self.types@) {
                Some(i) => r == Some(&self.types@[i]),
                None => r.is_none(),
            },
    {
        proof {
            lemma_catch_all_at(self.types@);
        }
        let mut i: usize = 0;
        while i < self.types.len()
            invariant
                i <= self.types@.len(),
                forall|j: int| 0 <= j < i ==> !declares_capability(#[trigger] self.types@[j], Capability::CatchAll),
            decreases self.types.len() - i,
        {
            if self.types[i].declares(Capability::CatchAll) {
                proof {
                    lemma_catch_all_at(self.types@);
                }
                assert(catch_all_at(self.types@) == Some(i as int));
                return Some(&self.types[i]);
            }
            i = i + 1;
        }
        None
    }
}

/// Whether `key` is declared as a property of `declared`.
pub open spec fn declares_property(declared: TypeDecl, key: Seq<char>) -> bool {
    exists|i: int| 0 <= i < declared.properties@.len() && (#[trigger] declared.properties@[i]).name@ == key
}

/// Whether `key` is declared as a relationship of `declared`.
pub open spec fn declares_relationship(declared: TypeDecl, key: Seq<char>) -> bool {
    exists|i: int| 0 <= i < declared.relationships@.len() && (#[trigger] declared.relationships@[i]).predicate@ == key
}

impl TypeDecl {
    /// Whether the type declares a property named `name`.
    pub fn has_property(&self, name: &str) -> (b: bool)
        ensures
            b == declares_property(*self, name@),
    {
        let mut i: usize = 0;
        while i < self.properties.len()
            invariant
                i <= self.properties@.len(),
                forall|j: int| 0 <= j < i ==> #[trigger] self.properties@[j].name@ != name@,
            decreases self.properties.len() - i,
        {
            if str_eq(self.properties[i].name.as_str(), name) {
                return true;
            }
            i = i + 1;
        }
        false
    }

    /// Whether the type declares a relationship whose predicate is `name`.
    pub fn has_relationship(&self, name: &str) -> (b: bool)
        ensures
            b == declares_relationship(*self, name@),
    {
        let mut i: usize = 0;
        while i < self.relationships.len()
            invariant
                i <= self.relationships@.len(),
                forall|j: int| 0 <= j < i ==> #[trigger] self.relationships@[j].predicate@ != name@,
            decreases self.relationships.len() - i,
        {
            if str_eq(self.relationships[i].predicate.as_str(), name) {
                return true;
            }
            i = i + 1;
        }
        false
    }
}

/// The first position of `properties` named `name`.
pub open spec fn property_decl_at(properties: Seq<PropertyDecl>, name: Seq<char>) -> Option<int>
    decreases properties.len(),
{
    if properties.len() == 0 {
        None
    } else {
        match property_decl_at(properties.drop_last(), name) {
            Some(i) => Some(i),
            None => if properties.last().name@ == name {
                Some(properties.len() - 1)
            } else {
                None
            },
        }
    }
}

/// The first position named `name` is named so, and nothing before it is.
pub proof fn lemma_property_decl_at(properties: Seq<PropertyDecl>, name: Seq<char>)
    ensures
        match property_decl_at(properties, name) {
            Some(i) => 0 <= i < properties.len() && properties[i].name@ == name && forall|j: int|
                0 <= j < i ==> #[trigger] properties[j].name@ != name,
            None => forall|j: int| 0 <= j < properties.len() ==> #[trigger] properties[j].name@ != name,
        },
    decreases properties.len(),
{
    if properties.len() > 0 {
        lemma_property_decl_at(properties.drop_last(), name);
        assert forall|j: int| 0 <= j < properties.len() - 1 implies properties[j] == properties.drop_last()[j] by {}
    }
}

impl TypeDecl {
    /// The type's declaration of the property `name`: the first one so named.
    pub fn property(&self, name: &str) -> (r: Option<&PropertyDecl>)
        ensures
            match property_decl_at(self.properties@, name@) {
                Some(i) => r == Some(&self.properties@[i]),
                None => r.is_none(),
            },
    {
        proof {
            lemma_property_decl_at(self.properties@, name@);
        }
        let mut i: usize = 0;
        while i < self.properties.len()
            invariant
                i <= self.properties@.len(),
                forall|j: int| 0 <= j < i ==> #[trigger] self.properties@[j].name@ != name@,
            decreases self.properties.len() - i,
        {
            if str_eq(self.properties[i].name.as_str(), name) {
                proof {
                    lemma_property_decl_at(self.properties@, name@);
                }
                assert(property_decl_at(self.properties@, name@) == Some(i as int));
                return Some(&self.properties[i]);
            }
            i = i + 1;
        }
        None
    }
}

/// A property kind's wire word: the scalar it holds, or `enum`, `list` or
/// `record`.
pub open spec fn kind_spelling(kind: PropertyKind) -> Seq<char> {
    match kind {
        PropertyKind::Scalar(s) => s.spelling(),
        PropertyKind::Enum { .. } => "enum"@,
        PropertyKind::List { .. } => "list"@,
        PropertyKind::Record { .. } => "record"@,
        PropertyKind::ListOfRecord { .. } => "list"@,
    }
}

impl PropertyKind {
    /// The kind's wire word.
    pub fn as_str(&self) -> (s: &'static str)
        ensures
            s@ == kind_spelling(*self),
    {
        proof {
            reveal_strlit("enum");
            reveal_strlit("list");
            reveal_strlit("record");
        }
        match self {
            PropertyKind::Scalar(s) => s.as_str(),
            PropertyKind::Enum { .. } => "enum",
            PropertyKind::List { .. } => "list",
            PropertyKind::Record { .. } => "record",
            PropertyKind::ListOfRecord { .. } => "list",
        }
    }
}

/// How a message names what a property kind holds.
pub open spec fn kind_described(kind: PropertyKind) -> Seq<char> {
    match kind {
        PropertyKind::Scalar(s) => "`"@ + s.spelling() + "`"@,
        PropertyKind::Enum { values } => "one of "@ + listed(values@),
        PropertyKind::List { of } => "a `list` of `"@ + of.spelling() + "`"@,
        PropertyKind::Record { .. } => "a `record`"@,
        PropertyKind::ListOfRecord { .. } => "a `list` of `record`"@,
    }
}

/// Strings joined by `, `.
pub open spec fn listed(values: Seq<String>) -> Seq<char>
    decreases values.len(),
{
    if values.len() == 0 {
        Seq::empty()
    } else if values.len() == 1 {
        values[0]@
    } else {
        listed(values.drop_last()) + ", "@ + values.last()@
    }
}

/// `values` joined by `, `.
pub fn list_values(values: &Vec<String>) -> (r: String)
    ensures
        r@ == listed(values@),
{
    let mut out = String::new();
    let mut i: usize = 0;
    while i < values.len()
        invariant
            i <= values@.len(),
            out@ == listed(values@.take(i as int)),
        decreases values.len() - i,
    {
        assert(values@.take(i + 1).drop_last() =~= values@.take(i as int));
        if i == 0 {
            out = values[i].clone();
        } else {
            out = join3(out.as_str(), ", ", values[i].as_str());
        }
        i = i + 1;
    }
    assert(values@.take(values@.len() as int) =~= values@);
    out
}

impl PropertyKind {
    /// How a message names what this kind holds.
    pub fn describe(&self) -> (r: String)
        ensures
            r@ == kind_described(*self),
    {
        match self {
            PropertyKind::Scalar(s) => join3("`", s.as_str(), "`"),
            PropertyKind::Enum { values } => join("one of ", list_values(values).as_str()),
            PropertyKind::List { of } => join3("a `list` of `", of.as_str(), "`"),
            PropertyKind::Record { .. } => String::from_str("a `record`"),
            PropertyKind::ListOfRecord { .. } => String::from_str("a `list` of `record`"),
        }
    }
}

impl FieldKind {
    /// How a message names what this kind holds.
    pub fn describe(&self) -> (r: String)
        ensures
            r@ == match *self {
                FieldKind::Scalar(s) => kind_described(PropertyKind::Scalar(s)),
                FieldKind::Enum { values } => kind_described(PropertyKind::Enum { values }),
            },
    {
        match self {
            FieldKind::Scalar(s) => join3("`", s.as_str(), "`"),
            FieldKind::Enum { values } => join("one of ", list_values(values).as_str()),
        }
    }
}

} // verus!
