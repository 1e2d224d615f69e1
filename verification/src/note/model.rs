//! What a note is, once it has been read against a contract.
//!
//! This is the one shared shape every surface answers with: identity, the type
//! and how it bound, properties as declared-kind values, relationships as
//! edges, tags, body, and title. Every value is the bytes the note wrote: the
//! declared kind decides what those bytes mean, so nothing is coerced.

use vstd::prelude::*;

use crate::chars::{chars_of, ends_with, same, string_of, slice, ends, has};
use crate::diagnostic::{Location, VaultPath};

verus! {

/// The declared property whose values are a note's aliases.
pub const ALIAS_PROPERTY: &'static str = "aliases";

/// The extension a note's file carries.
pub open spec fn note_extension() -> Seq<char> {
    seq!['.', 'm', 'd']
}

/// The position just past the last `/` in `path`, or zero when there is none.
pub open spec fn file_start(path: Seq<char>) -> int
    decreases path.len(),
{
    if path.len() == 0 {
        0
    } else if path.last() == '/' {
        path.len() as int
    } else {
        file_start(path.drop_last())
    }
}

/// A note's name: its file name without the `.md` extension.
pub open spec fn name_of(path: Seq<char>) -> Seq<char> {
    let file = path.skip(file_start(path));
    if ends(file, note_extension()) {
        file.take(file.len() - 3)
    } else {
        file
    }
}

/// The file part begins at or before the end, just past a `/` when it is not
/// at the start, and holds no `/`.
pub proof fn lemma_file_start(path: Seq<char>)
    ensures
        0 <= file_start(path) <= path.len(),
        file_start(path) > 0 ==> path[file_start(path) - 1] == '/',
        forall|i: int| file_start(path) <= i < path.len() ==> path[i] != '/',
    decreases path.len(),
{
    if path.len() > 0 && path.last() != '/' {
        lemma_file_start(path.drop_last());
        assert forall|i: int| file_start(path) <= i < path.len() implies path[i] != '/' by {
            if i < path.len() - 1 {
                assert(path[i] == path.drop_last()[i]);
            }
        }
    }
}

/// One note, read.
#[derive(Clone, Debug, PartialEq, Eq)]
pub struct Note {
    /// The note's identity: its vault-relative path.
    pub path: VaultPath,
    /// The type the note bound to, and what bound it.
    pub binding: Binding,
    /// The declared properties the note carries, in declaration order.
    pub properties: Vec<Property>,
    /// The declared relationships the note carries, in declaration order.
    pub relationships: Vec<Relationship>,
    /// The untyped references the note's body writes, in order.
    pub references: Vec<Reference>,
    /// The declared tag property's values, in the order the note wrote them.
    pub tags: Vec<String>,
    /// The note's first H1, when it has one.
    pub title: Option<String>,
    /// The note's body, as uninterpreted text.
    pub body: String,
}

/// The first position of `properties` named `name`, when one is.
pub open spec fn property_at(properties: Seq<Property>, name: Seq<char>) -> Option<int>
    decreases properties.len(),
{
    if properties.len() == 0 {
        None
    } else {
        match property_at(properties.drop_last(), name) {
            Some(i) => Some(i),
            None => if properties.last().name@ == name {
                Some(properties.len() - 1)
            } else {
                None
            },
        }
    }
}

/// The first position named `name` is named `name`, and nothing before it is.
pub proof fn lemma_property_at(properties: Seq<Property>, name: Seq<char>)
    ensures
        match property_at(properties, name) {
            Some(i) => 0 <= i < properties.len() && properties[i].name@ == name && forall|j: int|
                0 <= j < i ==> #[trigger] properties[j].name@ != name,
            None => forall|j: int| 0 <= j < properties.len() ==> #[trigger] properties[j].name@ != name,
        },
    decreases properties.len(),
{
    if properties.len() > 0 {
        lemma_property_at(properties.drop_last(), name);
        assert forall|j: int| 0 <= j < properties.len() - 1 implies properties[j] == properties.drop_last()[j] by {}
    }
}

impl Note {
    /// The note's identity: its vault-relative path.
    pub fn path(&self) -> (p: &VaultPath)
        ensures
            *p == self.path,
    {
        &self.path
    }

    /// The note's name: its file name without the `.md` extension.
    ///
    /// A name is a resolution shorthand, never an identity: two notes may
    /// share one.
    pub fn name(&self) -> (n: String)
        ensures
            n@ == name_of(self.path@),
    {
        let path = self.path.chars();
        let mut start = path.len();
        assert(path@.take(path.len() as int) =~= path@);
        while start > 0 && path[start - 1] != '/'
            invariant
                start <= path.len(),
                file_start(path@) == file_start(path@.take(start as int)),
            decreases start,
        {
            proof {
                assert(path@.take(start as int).drop_last() =~= path@.take(start - 1));
            }
            start = start - 1;
        }
        proof {
            assert(path@.take(path.len() as int) =~= path@);
            if start > 0 {
                assert(path@.take(start as int).last() == '/');
            } else {
                assert(path@.take(0) =~= Seq::<char>::empty());
            }
        }
        let file = slice(&path, start, path.len());
        assert(file@ =~= path@.skip(file_start(path@)));
        let ext = ['.', 'm', 'd'];
        assert(ext@ =~= note_extension());
        if ends_with(&file, &ext) {
            let stem = slice(&file, 0, file.len() - 3);
            string_of(&stem)
        } else {
            string_of(&file)
        }
    }

    /// The type the note bound to, and how it bound.
    pub fn binding(&self) -> (b: &Binding)
        ensures
            *b == self.binding,
    {
        &self.binding
    }

    /// The declared properties the note carries, in declaration order.
    pub fn properties(&self) -> (p: &[Property])
        ensures
            p@ == self.properties@,
    {
        self.properties.as_slice()
    }

    /// The note's value for a declared property: the first one named `name`.
    pub fn property(&self, name: &str) -> (r: Option<&PropertyValue>)
        ensures
            match property_at(self.properties@, name@) {
                Some(i) => r matches Some(v) && *v == self.properties@[i].value,
                None => r.is_none(),
            },
    {
        proof {
            lemma_property_at(self.properties@, name@);
        }
        match find_property(&self.properties, name) {
            Some(i) => {
                let v = &self.properties[i].value;
                assert(property_at(self.properties@, name@) == Some(i as int));
                assert(*v == self.properties@[i as int].value);
                Some(v)
            },
            None => None,
        }
    }

    /// The declared relationships the note carries, in declaration order.
    pub fn relationships(&self) -> (r: &[Relationship])
        ensures
            r@ == self.relationships@,
    {
        self.relationships.as_slice()
    }

    /// The note's edges under a declared predicate: the first relationship
    /// carrying it.
    pub fn relationship(&self, predicate: &str) -> (r: Option<&[Edge]>)
        ensures
            match r {
                Some(edges) => exists|i: int|
                    0 <= i < self.relationships@.len() && self.relationships@[i].predicate@
                        == predicate@ && edges@ == self.relationships@[i].edges@ && forall|j: int|
                        0 <= j < i ==> #[trigger] self.relationships@[j].predicate@ != predicate@,
                None => forall|i: int|
                    0 <= i < self.relationships@.len() ==> #[trigger] self.relationships@[i].predicate@
                        != predicate@,
            },
    {
        let wanted = chars_of(predicate);
        let mut i: usize = 0;
        while i < self.relationships.len()
            invariant
                i <= self.relationships.len(),
                wanted@ == predicate@,
                forall|j: int| 0 <= j < i ==> #[trigger] self.relationships@[j].predicate@ != predicate@,
            decreases self.relationships.len() - i,
        {
            let here = chars_of(self.relationships[i].predicate.as_str());
            if same(&here, &wanted) {
                return Some(self.relationships[i].edges.as_slice());
            }
            i = i + 1;
        }
        None
    }

    /// The untyped references the note's body writes, in the order it writes
    /// them.
    pub fn body_references(&self) -> (r: &[Reference])
        ensures
            r@ == self.references@,
    {
        self.references.as_slice()
    }

    /// The note's tags: the declared tag property's values, in the order the
    /// note wrote them.
    pub fn tags(&self) -> (t: &[String])
        ensures
            t@ == self.tags@,
    {
        self.tags.as_slice()
    }

    /// The note's aliases: the `aliases` property's values — one alias for a
    /// scalar, one per element for a list.
    pub fn aliases(&self) -> (a: Vec<String>)
        ensures
            match property_at(self.properties@, ALIAS_PROPERTY@) {
                Some(i) => match self.properties@[i].value {
                    PropertyValue::Scalar(v) => a@.len() == 1 && a@[0]@ == v@,
                    PropertyValue::List(vs) => a@.len() == vs@.len() && forall|k: int|
                        0 <= k < vs@.len() ==> #[trigger] a@[k]@ == vs@[k]@,
                    _ => a@.len() == 0,
                },
                None => a@.len() == 0,
            },
    {
        let mut found: Vec<String> = Vec::new();
        match self.property(ALIAS_PROPERTY) {
            Some(PropertyValue::Scalar(value)) => {
                found.push(value.clone());
            },
            Some(PropertyValue::List(values)) => {
                let mut k: usize = 0;
                while k < values.len()
                    invariant
                        k <= values.len(),
                        found@.len() == k,
                        forall|j: int| 0 <= j < k ==> #[trigger] found@[j]@ == values@[j]@,
                    decreases values.len() - k,
                {
                    found.push(values[k].clone());
                    k = k + 1;
                }
            },
            _ => {},
        }
        found
    }

    /// The note's display title: its first H1, when it has one.
    pub fn title(&self) -> (t: Option<&str>)
        ensures
            match self.title {
                Some(s) => t matches Some(u) && u@ == s@,
                None => t.is_none(),
            },
    {
        match &self.title {
            Some(title) => Some(title.as_str()),
            None => None,
        }
    }

    /// The note's body, as uninterpreted text.
    pub fn body(&self) -> (b: &str)
        ensures
            b@ == self.body@,
    {
        self.body.as_str()
    }
}

/// The first property named `name`.
pub fn find_property(properties: &Vec<Property>, name: &str) -> (r: Option<usize>)
    ensures
        r.is_some() == property_at(properties@, name@).is_some(),
        r matches Some(k) ==> property_at(properties@, name@) == Some(k as int),
{
    let wanted = chars_of(name);
    let mut i: usize = 0;
    while i < properties.len()
        invariant
            i <= properties.len(),
            wanted@ == name@,
            property_at(properties@.take(i as int), name@).is_none(),
        decreases properties.len() - i,
    {
        proof {
            assert(properties@.take(i + 1).drop_last() =~= properties@.take(i as int));
        }
        let here = chars_of(properties[i].name.as_str());
        if same(&here, &wanted) {
            proof {
                lemma_prefix_property_at(properties@, name@, i + 1);
            }
            return Some(i);
        }
        i = i + 1;
    }
    proof {
        assert(properties@.take(i as int) =~= properties@);
    }
    None
}

/// Where a prefix already answers, the whole sequence answers the same.
pub proof fn lemma_prefix_property_at(properties: Seq<Property>, name: Seq<char>, n: int)
    requires
        0 <= n <= properties.len(),
        property_at(properties.take(n), name).is_some(),
    ensures
        property_at(properties, name) == property_at(properties.take(n), name),
    decreases properties.len() - n,
{
    if n < properties.len() {
        assert(properties.take(n + 1).drop_last() =~= properties.take(n));
        lemma_prefix_property_at(properties, name, n + 1);
    } else {
        assert(properties.take(n) =~= properties);
    }
}

/// Which type a note bound to, and what bound it.
///
/// The catch-all binds absence, never error: a note that says what it is and
/// is wrong is reported as wrong rather than silently reclassified.
#[derive(Clone, Debug, PartialEq, Eq)]
pub enum Binding {
    /// The note's `type` names a type the contract declares.
    Declared {
        /// The declared type's name.
        name: String,
    },
    /// The note carries no `type` key, so it belongs to the catch-all type.
    CatchAll {
        /// The catch-all type's name.
        name: String,
    },
    /// The note bound to no type at all.
    Unbound {
        /// What the note's `type` said, when it said something readable.
        named: Option<String>,
    },
}

impl Binding {
    /// The type's name, when the note bound to one.
    pub fn bound_type(&self) -> (r: Option<&str>)
        ensures
            match self {
                Binding::Declared { name } => r matches Some(s) && s@ == name@,
                Binding::CatchAll { name } => r matches Some(s) && s@ == name@,
                Binding::Unbound { .. } => r.is_none(),
            },
    {
        match self {
            Binding::Declared { name } => Some(name.as_str()),
            Binding::CatchAll { name } => Some(name.as_str()),
            Binding::Unbound { .. } => None,
        }
    }

    /// What the note's discriminator said, whether or not it named a type.
    pub fn discriminator(&self) -> (r: Option<&str>)
        ensures
            match self {
                Binding::Declared { name } => r matches Some(s) && s@ == name@,
                Binding::CatchAll { .. } => r.is_none(),
                Binding::Unbound { named } => match named {
                    Some(n) => r matches Some(s) && s@ == n@,
                    None => r.is_none(),
                },
            },
    {
        match self {
            Binding::Declared { name } => Some(name.as_str()),
            Binding::CatchAll { .. } => None,
            Binding::Unbound { named } => match named {
                Some(n) => Some(n.as_str()),
                None => None,
            },
        }
    }

    /// What bound the note, for structured output: `declaration`,
    /// `catch-all`, or `none`.
    pub fn bound_by(&self) -> (r: &'static str)
        ensures
            r@ == match self {
                Binding::Declared { .. } => "declaration"@,
                Binding::CatchAll { .. } => "catch-all"@,
                Binding::Unbound { .. } => "none"@,
            },
    {
        match self {
            Binding::Declared { .. } => "declaration",
            Binding::CatchAll { .. } => "catch-all",
            Binding::Unbound { .. } => "none",
        }
    }
}

/// One declared property, with the value the note wrote for it.
#[derive(Clone, Debug, PartialEq, Eq)]
pub struct Property {
    /// The property's declared name.
    pub name: String,
    /// The value the note wrote.
    pub value: PropertyValue,
}

impl Property {
    /// The property's declared name.
    pub fn name(&self) -> (n: &str)
        ensures
            n@ == self.name@,
    {
        self.name.as_str()
    }

    /// The value the note wrote.
    pub fn value(&self) -> (v: &PropertyValue)
        ensures
            *v == self.value,
    {
        &self.value
    }
}

/// A property's value, shaped by the kind its declaration names. Every leaf
/// is the bytes the note wrote.
#[derive(Clone, Debug, PartialEq, Eq)]
pub enum PropertyValue {
    /// One scalar's bytes.
    Scalar(String),
    /// A list's elements, in the order the note wrote them.
    List(Vec<String>),
    /// A record's fields.
    Record(RecordValue),
    /// A list of records, in the order the note wrote them.
    RecordList(Vec<RecordValue>),
}

/// `x` as a slice of one.
///
/// Calls `core::slice::from_ref`, documented as converting a reference into a
/// slice of length one holding it.
#[verifier::external_body]
fn one<T>(x: &T) -> (r: &[T])
    ensures
        r@ == seq![*x],
{
    core::slice::from_ref(x)
}

impl PropertyValue {
    /// The scalar's bytes, when the value is one scalar.
    pub fn scalar(&self) -> (r: Option<&str>)
        ensures
            match self {
                PropertyValue::Scalar(t) => r matches Some(s) && s@ == t@,
                _ => r.is_none(),
            },
    {
        match self {
            PropertyValue::Scalar(text) => Some(text.as_str()),
            _ => None,
        }
    }

    /// A list's elements, when the value is a list of scalars.
    pub fn list(&self) -> (r: Option<&[String]>)
        ensures
            match self {
                PropertyValue::List(items) => r matches Some(s) && s@ == items@,
                _ => r.is_none(),
            },
    {
        match self {
            PropertyValue::List(items) => Some(items.as_slice()),
            _ => None,
        }
    }

    /// The record values the property carries: one for a `record`, and every
    /// element for a `list` of `record`.
    pub fn records(&self) -> (r: &[RecordValue])
        ensures
            r@ == match self {
                PropertyValue::Record(record) => seq![*record],
                PropertyValue::RecordList(records) => records@,
                _ => Seq::empty(),
            },
    {
        match self {
            PropertyValue::Record(record) => one(record),
            PropertyValue::RecordList(records) => records.as_slice(),
            _ => &[],
        }
    }
}

/// One record value: the declared fields the note wrote, in declaration order.
#[derive(Clone, Debug, PartialEq, Eq)]
pub struct RecordValue {
    /// The fields the note wrote, in the declaring order.
    pub fields: Vec<FieldValue>,
}

impl RecordValue {
    /// The fields the note wrote, in the declaring order.
    pub fn fields(&self) -> (f: &[FieldValue])
        ensures
            f@ == self.fields@,
    {
        self.fields.as_slice()
    }

    /// The note's value for a declared field: the first one named `name`.
    pub fn field(&self, name: &str) -> (r: Option<&str>)
        ensures
            match r {
                Some(v) => exists|i: int|
                    0 <= i < self.fields@.len() && self.fields@[i].name@ == name@ && v@
                        == self.fields@[i].value@ && forall|j: int|
                        0 <= j < i ==> #[trigger] self.fields@[j].name@ != name@,
                None => forall|i: int|
                    0 <= i < self.fields@.len() ==> #[trigger] self.fields@[i].name@ != name@,
            },
    {
        let wanted = chars_of(name);
        let mut i: usize = 0;
        while i < self.fields.len()
            invariant
                i <= self.fields.len(),
                wanted@ == name@,
                forall|j: int| 0 <= j < i ==> #[trigger] self.fields@[j].name@ != name@,
            decreases self.fields.len() - i,
        {
            let here = chars_of(self.fields[i].name.as_str());
            if same(&here, &wanted) {
                return Some(self.fields[i].value.as_str());
            }
            i = i + 1;
        }
        None
    }
}

/// One declared field of a record value.
#[derive(Clone, Debug, PartialEq, Eq)]
pub struct FieldValue {
    /// The field's declared name.
    pub name: String,
    /// The bytes the note wrote.
    pub value: String,
}

impl FieldValue {
    /// The field's declared name.
    pub fn name(&self) -> (n: &str)
        ensures
            n@ == self.name@,
    {
        self.name.as_str()
    }

    /// The bytes the note wrote.
    pub fn value(&self) -> (v: &str)
        ensures
            v@ == self.value@,
    {
        self.value.as_str()
    }
}

/// One declared relationship, with the edges the note wrote under it.
#[derive(Clone, Debug, PartialEq, Eq)]
pub struct Relationship {
    /// The predicate the type declares.
    pub predicate: String,
    /// The edges the note wrote, in order.
    pub edges: Vec<Edge>,
}

impl Relationship {
    /// The predicate the type declares.
    pub fn predicate(&self) -> (p: &str)
        ensures
            p@ == self.predicate@,
    {
        self.predicate.as_str()
    }

    /// The edges the note wrote, in order.
    pub fn edges(&self) -> (e: &[Edge])
        ensures
            e@ == self.edges@,
    {
        self.edges.as_slice()
    }
}

/// One typed link: the reference the note wrote, and the note it resolves to.
/// A target of `None` is always accompanied by a `link.*` finding.
#[derive(Clone, Debug, PartialEq, Eq)]
pub struct Edge {
    /// The reference exactly as the note wrote it, delimiters included.
    pub written: String,
    /// The note the reference resolves to.
    pub target: Option<VaultPath>,
    /// Where the reference is written.
    pub at: Location,
}

impl Edge {
    /// The reference exactly as the note wrote it, delimiters included.
    pub fn written(&self) -> (w: &str)
        ensures
            w@ == self.written@,
    {
        self.written.as_str()
    }

    /// The note the reference resolves to.
    pub fn target(&self) -> (t: Option<&VaultPath>)
        ensures
            match self.target {
                Some(p) => t == Some(&p),
                None => t.is_none(),
            },
    {
        match &self.target {
            Some(path) => Some(path),
            None => None,
        }
    }
}

/// One untyped reference, written in a note's body. A dangling one is a
/// finding at no severity; an ambiguous one is reported.
#[derive(Clone, Debug, PartialEq, Eq)]
pub struct Reference {
    /// The reference exactly as the note wrote it, delimiters included.
    pub written: String,
    /// The note the reference resolves to, when it resolves to exactly one.
    pub target: Option<VaultPath>,
    /// Where the reference is written.
    pub at: Location,
}

impl Reference {
    /// The reference exactly as the note wrote it, delimiters included.
    pub fn written(&self) -> (w: &str)
        ensures
            w@ == self.written@,
    {
        self.written.as_str()
    }

    /// The note the reference resolves to, when it resolves to exactly one.
    pub fn target(&self) -> (t: Option<&VaultPath>)
        ensures
            match self.target {
                Some(p) => t == Some(&p),
                None => t.is_none(),
            },
    {
        match &self.target {
            Some(path) => Some(path),
            None => None,
        }
    }
}

} // verus!
