//! The generated agent contract.
//!
//! A vault's agent instructions are generated from its committed contract
//! rather than written beside it, because hand-maintained instructions always
//! eventually lie. The rules this rendering keeps:
//!
//! - The preamble names the resolved vault root, so piped output carries it.
//! - A type's heading names the capabilities it declares, and a type declaring
//!   none says so.
//! - Nothing the contract did not declare appears, and nothing it did declare
//!   is omitted: a corpus with no life axis renders the statement it is, and so
//!   does a contract with no flags or no tag vocabulary.
//! - The lexical forms are part of the meaning: `date` and `datetime` name
//!   RFC 3339, and a `list` names the kind of its elements.
//! - Provenance is opt-in, and with it off no annotation appears anywhere.
//! - Declaration order is the emission order, for types, properties,
//!   relationships and tag namespaces alike.
//!
//! A heading, a paragraph and a table row are each one line, so a value's line
//! breaks fold to spaces, and a cell's column rules are escaped on top of that.

use vstd::prelude::*;

use crate::chars::{chars_of, decimal, decimal_spec, string_of};
use crate::contract::{
    Capability, Contract, LifecycleDecl, LinkDialect, Ordinary, PropertyDecl, PropertyKind, RelationshipDecl,
    ScalarKind, TagNamespaceDecl, TypeDecl, capability_spelling,
};
use crate::diagnostic::{FileRef, Location};
use crate::provenance::{ProvenanceEntry, Source, entry_for, holds};
use crate::text::{append, append_folded, control, fold, folded};

verus! {

/// Where a vault's committed contract lives, relative to its root.
pub const CONTRACT_PATH: &'static str = ".dogtag/contract.toml";

/// `value` inside a table cell: folded onto one line, with every column rule
/// escaped.
pub open spec fn cell(value: Seq<char>) -> Seq<char>
    decreases value.len(),
{
    if value.len() == 0 {
        Seq::empty()
    } else {
        cell(value.drop_last()) + if value.last() == '|' {
            "\\|"@
        } else {
            seq![folded(value.last())]
        }
    }
}

/// A boolean as a reader reads it.
pub open spec fn yes_no(value: bool) -> Seq<char> {
    if value {
        "yes"@
    } else {
        "no"@
    }
}

/// How a scalar kind reads, including the lexical form that is its meaning.
pub open spec fn scalar_text(kind: ScalarKind) -> Seq<char> {
    match kind {
        ScalarKind::String => "string"@,
        ScalarKind::Integer => "integer"@,
        ScalarKind::Float => "float"@,
        ScalarKind::Boolean => "boolean"@,
        ScalarKind::Date => "date (RFC 3339 full-date)"@,
        ScalarKind::DateTime => "datetime (RFC 3339, with offset)"@,
    }
}

/// Values, each quoted in backticks, joined by `, `.
pub open spec fn quoted_list(values: Seq<String>) -> Seq<char>
    decreases values.len(),
{
    if values.len() == 0 {
        Seq::empty()
    } else if values.len() == 1 {
        "`"@ + values[0]@ + "`"@
    } else {
        quoted_list(values.drop_last()) + ", "@ + "`"@ + values.last()@ + "`"@
    }
}

/// Whether the rendering can name `kind`: records have no reading here.
pub open spec fn readable_kind(kind: PropertyKind) -> bool {
    !(kind is Record) && !(kind is ListOfRecord)
}

/// A property kind, spelled with everything that is part of its meaning.
pub open spec fn kind_text(kind: PropertyKind) -> Seq<char> {
    match kind {
        PropertyKind::Scalar(s) => scalar_text(s),
        PropertyKind::Enum { values } => "enum ("@ + quoted_list(values@) + ")"@,
        PropertyKind::List { of } => "list of "@ + scalar_text(of),
        PropertyKind::Record { .. } => Seq::empty(),
        PropertyKind::ListOfRecord { .. } => Seq::empty(),
    }
}

/// A namespace's membership: its closed vocabulary, or `open`.
pub open spec fn membership_text(values: Option<Vec<String>>) -> Seq<char> {
    match values {
        Some(v) => quoted_list(v@),
        None => "open"@,
    }
}

/// The dialect as an instruction.
pub open spec fn dialect_text(links: LinkDialect) -> Seq<char> {
    match links {
        LinkDialect::Wikilink => "References are written as wikilinks."@,
        LinkDialect::Markdown => "References are written as Markdown links."@,
    }
}

/// A location as `path:line:column`, or as the path alone.
pub open spec fn located(location: Location) -> Seq<char> {
    match location.span {
        Some(span) => location.file.spelled() + ":"@ + decimal_spec(span.start.line as nat) + ":"@
            + decimal_spec(span.start.column as nat),
        None => location.file.spelled(),
    }
}

/// One leaf's source and location, as the annotation a reader sees.
pub open spec fn annotation(entry: ProvenanceEntry) -> Seq<char> {
    match entry.source {
        Source::Default { contract_version } => "(default, contract version "@ + decimal_spec(
            contract_version as nat,
        ) + ")"@,
        _ => {
            let at = match entry.location {
                Some(l) => "`"@ + located(l) + "` "@,
                None => Seq::empty(),
            };
            at + "("@ + entry.source.spelling() + ")"@
        },
    }
}

/// What the contract records of `key`: its annotation, or that nothing is
/// recorded.
pub open spec fn recorded(contract: Contract, key: Seq<char>) -> Seq<char> {
    if holds(contract.provenance@, key) {
        annotation(entry_for(contract.provenance@, key))
    } else {
        "not recorded"@
    }
}

/// One bullet per key the contract records, each on a line of its own.
pub open spec fn bullet_lines(contract: Contract, keys: Seq<Seq<char>>) -> Seq<char>
    decreases keys.len(),
{
    if keys.len() == 0 {
        Seq::empty()
    } else {
        let key = keys.last();
        bullet_lines(contract, keys.drop_last()) + if holds(contract.provenance@, key) {
            let entry = entry_for(contract.provenance@, key);
            "\n- `"@ + entry.key@ + "` — "@ + annotation(entry)
        } else {
            Seq::empty()
        }
    }
}

/// The annotations for `keys` as a block of their own, or nothing at all:
/// with provenance off, and where none of the keys is recorded.
pub open spec fn annotations(contract: Contract, provenance: bool, keys: Seq<Seq<char>>) -> Seq<char> {
    let lines = bullet_lines(contract, keys);
    if !provenance || lines.len() == 0 {
        Seq::empty()
    } else {
        "\n"@ + lines
    }
}

/// The provenance key of one declaration's `required` leaf.
pub open spec fn required_key(declared: TypeDecl, collection: Seq<char>, name: Seq<char>) -> Seq<char> {
    "type."@ + declared.name@ + "."@ + collection + "."@ + name + ".required"@
}

/// A row's trailing source cell, when there is a source column at all.
pub open spec fn source_cell(contract: Contract, provenance: bool, key: Seq<char>) -> Seq<char> {
    if provenance {
        " | "@ + cell(recorded(contract, key))
    } else {
        Seq::empty()
    }
}

/// A table's header line and its rule, gaining a source column under
/// provenance.
pub open spec fn table_head(columns: Seq<char>, rules: Seq<char>, provenance: bool) -> Seq<char> {
    "| "@ + columns + if provenance {
        " | source"@
    } else {
        Seq::empty()
    } + " |\n| "@ + rules + if provenance {
        " | ---"@
    } else {
        Seq::empty()
    } + " |"@
}

/// One property's row, on a line of its own.
pub open spec fn property_row(contract: Contract, provenance: bool, declared: TypeDecl, p: PropertyDecl) -> Seq<char> {
    "\n| "@ + cell("`"@ + p.name@ + "`"@) + " | "@ + cell(kind_text(p.kind)) + " | "@ + yes_no(p.required)
        + source_cell(contract, provenance, required_key(declared, "property"@, p.name@)) + " |"@
}

/// Every property's row, in declaration order.
pub open spec fn property_rows(contract: Contract, provenance: bool, declared: TypeDecl, ps: Seq<PropertyDecl>) -> Seq<char>
    decreases ps.len(),
{
    if ps.len() == 0 {
        Seq::empty()
    } else {
        property_rows(contract, provenance, declared, ps.drop_last()) + property_row(
            contract,
            provenance,
            declared,
            ps.last(),
        )
    }
}

/// One relationship's row, on a line of its own.
pub open spec fn relationship_row(contract: Contract, provenance: bool, declared: TypeDecl, r: RelationshipDecl) -> Seq<char> {
    "\n| "@ + cell("`"@ + r.predicate@ + "`"@) + " | "@ + yes_no(r.required) + source_cell(
        contract,
        provenance,
        required_key(declared, "relationship"@, r.predicate@),
    ) + " |"@
}

/// Every relationship's row, in declaration order.
pub open spec fn relationship_rows(contract: Contract, provenance: bool, declared: TypeDecl, rs: Seq<RelationshipDecl>) -> Seq<char>
    decreases rs.len(),
{
    if rs.len() == 0 {
        Seq::empty()
    } else {
        relationship_rows(contract, provenance, declared, rs.drop_last()) + relationship_row(
            contract,
            provenance,
            declared,
            rs.last(),
        )
    }
}

/// One tag namespace's row, on a line of its own.
pub open spec fn namespace_row(contract: Contract, provenance: bool, declared: TypeDecl, n: TagNamespaceDecl) -> Seq<char> {
    "\n| "@ + cell("`"@ + n.prefix@ + "`"@) + " | "@ + cell(membership_text(n.values)) + " | "@ + yes_no(
        n.required,
    ) + source_cell(contract, provenance, required_key(declared, "tag-namespace"@, n.prefix@)) + " |"@
}

/// Every tag namespace's row, in declaration order.
pub open spec fn namespace_rows(contract: Contract, provenance: bool, declared: TypeDecl, ns: Seq<TagNamespaceDecl>) -> Seq<char>
    decreases ns.len(),
{
    if ns.len() == 0 {
        Seq::empty()
    } else {
        namespace_rows(contract, provenance, declared, ns.drop_last()) + namespace_row(
            contract,
            provenance,
            declared,
            ns.last(),
        )
    }
}

/// A type's property table, or the statement that it declares none.
pub open spec fn properties_text(contract: Contract, provenance: bool, declared: TypeDecl) -> Seq<char> {
    if declared.properties@.len() == 0 {
        "This type declares no properties."@
    } else {
        table_head("property | kind | required"@, "--- | --- | ---"@, provenance) + property_rows(
            contract,
            provenance,
            declared,
            declared.properties@,
        )
    }
}

/// A type's relationship table, or the statement that it declares none.
pub open spec fn relationships_text(contract: Contract, provenance: bool, declared: TypeDecl) -> Seq<char> {
    if declared.relationships@.len() == 0 {
        "This type declares no relationships."@
    } else {
        table_head("relationship | required"@, "--- | ---"@, provenance) + relationship_rows(
            contract,
            provenance,
            declared,
            declared.relationships@,
        )
    }
}

/// A type's tag-namespace table as a block of its own, when it declares any.
pub open spec fn namespace_block(contract: Contract, provenance: bool, declared: TypeDecl) -> Seq<char> {
    if declared.tag_namespaces@.len() == 0 {
        Seq::empty()
    } else {
        "\n\n"@ + table_head("tag namespace | membership | required"@, "--- | --- | ---"@, provenance)
            + namespace_rows(contract, provenance, declared, declared.tag_namespaces@)
    }
}

/// A type's properties and relationships, sharing one block where the type
/// declares neither, then its namespaces.
pub open spec fn declaration_blocks(contract: Contract, provenance: bool, declared: TypeDecl) -> Seq<char> {
    let between = if declared.properties@.len() == 0 && declared.relationships@.len() == 0 {
        "\n"@
    } else {
        "\n\n"@
    };
    "\n\n"@ + properties_text(contract, provenance, declared) + between + relationships_text(
        contract,
        provenance,
        declared,
    ) + namespace_block(contract, provenance, declared)
}

/// Capabilities, spelled, joined by `, `.
pub open spec fn capability_list(cs: Seq<Capability>) -> Seq<char>
    decreases cs.len(),
{
    if cs.len() == 0 {
        Seq::empty()
    } else if cs.len() == 1 {
        capability_spelling(cs[0])
    } else {
        capability_list(cs.drop_last()) + ", "@ + capability_spelling(cs.last())
    }
}

/// A type's heading, naming what it declares rather than what it is called.
pub open spec fn heading(declared: TypeDecl) -> Seq<char> {
    "### `"@ + fold(declared.name@) + "` — "@ + if declared.capabilities@.len() == 0 {
        "no capabilities"@
    } else {
        capability_list(declared.capabilities@)
    }
}

/// The provenance keys a type's heading renders values from.
pub open spec fn type_keys(declared: TypeDecl) -> Seq<Seq<char>> {
    seq!["type."@ + declared.name@ + ".name"@, "type."@ + declared.name@ + ".capabilities"@]
}

/// One type: its heading, its annotations, then what it declares.
pub open spec fn type_block(contract: Contract, provenance: bool, declared: TypeDecl) -> Seq<char> {
    "\n\n"@ + heading(declared) + annotations(contract, provenance, type_keys(declared)) + declaration_blocks(
        contract,
        provenance,
        declared,
    )
}

/// Every type's blocks, in declaration order.
pub open spec fn type_blocks(contract: Contract, provenance: bool, ts: Seq<TypeDecl>) -> Seq<char>
    decreases ts.len(),
{
    if ts.len() == 0 {
        Seq::empty()
    } else {
        type_blocks(contract, provenance, ts.drop_last()) + type_block(contract, provenance, ts.last())
    }
}

/// The lifecycle declaration as a statement, including the statement that a
/// corpus has no life axis.
pub open spec fn lifecycle_text(lifecycle: LifecycleDecl) -> Seq<char> {
    match lifecycle {
        LifecycleDecl::Axis { axis, ordinary: Ordinary::Absent } => "The life axis is the property `"@ + fold(axis@)
            + "`. A note is in the ordinary state when `"@ + fold(axis@)
            + "` is absent; any declared value marks a departure from it."@,
        LifecycleDecl::Axis { axis, ordinary: Ordinary::Value(value) } => "The life axis is the property `"@ + fold(
            axis@,
        ) + "`. A note is in the ordinary state when `"@ + fold(axis@) + "` is `"@ + fold(value@)
            + "`; any other declared value marks a departure from it."@,
        LifecycleDecl::NoAxis => "This corpus declares no lifecycle axis."@,
    }
}

/// The provenance keys the lifecycle section renders values from.
pub open spec fn lifecycle_keys(lifecycle: LifecycleDecl) -> Seq<Seq<char>> {
    match lifecycle {
        LifecycleDecl::Axis { ordinary: Ordinary::Absent, .. } => seq!["lifecycle.axis"@, "lifecycle.ordinary.absent"@],
        LifecycleDecl::Axis { ordinary: Ordinary::Value(_), .. } => seq!["lifecycle.axis"@, "lifecycle.ordinary.value"@],
        LifecycleDecl::NoAxis => seq!["lifecycle.none"@],
    }
}

/// Each declared flag as its own remark.
pub open spec fn flag_blocks(contract: Contract, provenance: bool, flags: Seq<String>) -> Seq<char>
    decreases flags.len(),
{
    if flags.len() == 0 {
        Seq::empty()
    } else {
        let f = flags.last();
        flag_blocks(contract, provenance, flags.drop_last()) + "\n\n`"@ + fold(f@)
            + "` — a boolean property, orthogonal to the life axis."@ + annotations(
            contract,
            provenance,
            seq!["flag."@ + f@ + ".property"@],
        )
    }
}

/// The flags section's blocks, or the statement that there are none.
pub open spec fn flags_part(contract: Contract, provenance: bool) -> Seq<char> {
    if contract.flags@.len() == 0 {
        "\n\nThis contract declares no flags."@
    } else {
        flag_blocks(contract, provenance, contract.flags@)
    }
}

/// The tags section: the property tags are carried by, or the statement that
/// the contract declares no tag vocabulary.
pub open spec fn tags_part(contract: Contract, provenance: bool) -> Seq<char> {
    match contract.tags {
        None => "\n\nThis contract declares no tag vocabulary."@,
        Some(t) => "\n\nTags are carried by the property `"@ + fold(t.property@) + "`, one tag per element."@
            + annotations(contract, provenance, seq!["tags.property"@]),
    }
}

/// The paragraph that names the vault and where these rules came from.
pub open spec fn preamble(root: Seq<char>, contract: Contract) -> Seq<char> {
    "This vault is at `"@ + fold(root) + "`. These rules are generated from its committed contract at `"@
        + CONTRACT_PATH@ + "` (contract version "@ + decimal_spec(contract.contract_version as nat)
        + ") and are what the vault enforces. Do not edit this rendering; edit the contract."@
}

/// The document's head: its title, the preamble, and the version's
/// annotation.
pub open spec fn head_part(root: Seq<char>, contract: Contract, provenance: bool) -> Seq<char> {
    "# Vault contract\n\n"@ + preamble(root, contract) + annotations(contract, provenance, seq!["contract_version"@])
}

/// The lifecycle section.
pub open spec fn lifecycle_part(contract: Contract, provenance: bool) -> Seq<char> {
    "\n\n## Lifecycle\n\n"@ + lifecycle_text(contract.lifecycle) + annotations(
        contract,
        provenance,
        lifecycle_keys(contract.lifecycle),
    )
}

/// The dialect section, and the document's closing line break.
pub open spec fn dialect_part(contract: Contract, provenance: bool) -> Seq<char> {
    "\n\n## Dialect\n\n"@ + dialect_text(contract.dialect.links) + annotations(
        contract,
        provenance,
        seq!["dialect.links"@],
    ) + "\n"@
}

/// The agent contract `contract` renders as, for the vault at `root`.
pub open spec fn markdown_spec(root: Seq<char>, contract: Contract, provenance: bool) -> Seq<char> {
    head_part(root, contract, provenance) + "\n\n## Types"@ + type_blocks(contract, provenance, contract.types@)
        + lifecycle_part(contract, provenance) + "\n\n## Flags"@ + flags_part(contract, provenance)
        + "\n\n## Tags"@ + tags_part(contract, provenance) + dialect_part(contract, provenance)
}

/// Whether every property `contract` declares has a kind this rendering can
/// name.
pub open spec fn renders_every_kind(contract: Contract) -> bool {
    forall|i: int, j: int|
        0 <= i < contract.types@.len() && 0 <= j < contract.types@[i].properties@.len() ==> readable_kind(
            #[trigger] contract.types@[i].properties@[j].kind,
        )
}

/// A sequence of strings, each by its characters.
pub open spec fn spelled(keys: Seq<String>) -> Seq<Seq<char>> {
    keys.map_values(|k: String| k@)
}

/// Appends `value` as a table cell.
fn push_cell(out: &mut Vec<char>, value: &[char])
    ensures
        final(out)@ == old(out)@ + cell(value@),
{
    let ghost start = out@;
    let mut i: usize = 0;
    while i < value.len()
        invariant
            i <= value.len(),
            out@ == start + cell(value@.take(i as int)),
        decreases value.len() - i,
    {
        proof {
            reveal_strlit("\\|");
        }
        assert(value@.take(i + 1).drop_last() =~= value@.take(i as int));
        let c = value[i];
        if c == '|' {
            out.push('\\');
            out.push('|');
        } else if control(c) {
            out.push(' ');
        } else {
            out.push(c);
        }
        i = i + 1;
        assert(out@ =~= start + cell(value@.take(i as int)));
    }
    assert(value@.take(value@.len() as int) =~= value@);
}

/// A boolean as a reader reads it.
fn yes_no_text(value: bool) -> (s: &'static str)
    ensures
        s@ == yes_no(value),
{
    if value {
        "yes"
    } else {
        "no"
    }
}

/// How a scalar kind reads.
fn scalar_reading(kind: ScalarKind) -> (s: &'static str)
    ensures
        s@ == scalar_text(kind),
{
    match kind {
        ScalarKind::String => "string",
        ScalarKind::Integer => "integer",
        ScalarKind::Float => "float",
        ScalarKind::Boolean => "boolean",
        ScalarKind::Date => "date (RFC 3339 full-date)",
        ScalarKind::DateTime => "datetime (RFC 3339, with offset)",
    }
}

/// Appends values, each quoted, joined by `, `.
fn push_quoted_list(out: &mut Vec<char>, values: &Vec<String>)
    ensures
        final(out)@ == old(out)@ + quoted_list(values@),
{
    let ghost start = out@;
    let mut i: usize = 0;
    while i < values.len()
        invariant
            i <= values.len(),
            out@ == start + quoted_list(values@.take(i as int)),
        decreases values.len() - i,
    {
        assert(values@.take(i + 1).drop_last() =~= values@.take(i as int));
        if i > 0 {
            append(out, ", ");
        }
        append(out, "`");
        append(out, values[i].as_str());
        append(out, "`");
        i = i + 1;
        assert(out@ =~= start + quoted_list(values@.take(i as int)));
    }
    assert(values@.take(values@.len() as int) =~= values@);
}

/// A property kind's reading.
fn kind_reading(kind: &PropertyKind) -> (r: Vec<char>)
    ensures
        r@ == kind_text(*kind),
{
    let mut out: Vec<char> = Vec::new();
    match kind {
        PropertyKind::Scalar(s) => append(&mut out, scalar_reading(*s)),
        PropertyKind::Enum { values } => {
            append(&mut out, "enum (");
            push_quoted_list(&mut out, values);
            append(&mut out, ")");
        },
        PropertyKind::List { of } => {
            append(&mut out, "list of ");
            append(&mut out, scalar_reading(*of));
        },
        PropertyKind::Record { .. } => {},
        PropertyKind::ListOfRecord { .. } => {},
    }
    proof {
        reveal_strlit("");
    }
    assert(out@ =~= kind_text(*kind));
    out
}

/// A namespace's membership.
fn membership_reading(values: &Option<Vec<String>>) -> (r: Vec<char>)
    ensures
        r@ == membership_text(*values),
{
    let mut out: Vec<char> = Vec::new();
    match values {
        Some(v) => push_quoted_list(&mut out, v),
        None => append(&mut out, "open"),
    }
    assert(out@ =~= membership_text(*values));
    out
}

/// One leaf's annotation.
pub fn annotation_of(entry: &ProvenanceEntry) -> (r: Vec<char>)
    ensures
        r@ == annotation(*entry),
{
    let mut out: Vec<char> = Vec::new();
    match entry.source {
        Source::Default { contract_version } => {
            append(&mut out, "(default, contract version ");
            append(&mut out, decimal(contract_version as usize).as_str());
            append(&mut out, ")");
        },
        _ => {
            match &entry.location {
                Some(l) => {
                    append(&mut out, "`");
                    append(&mut out, l.file.display_path());
                    match l.span {
                        Some(span) => {
                            append(&mut out, ":");
                            append(&mut out, decimal(span.start.line).as_str());
                            append(&mut out, ":");
                            append(&mut out, decimal(span.start.column).as_str());
                        },
                        None => {},
                    }
                    append(&mut out, "` ");
                },
                None => {},
            }
            append(&mut out, "(");
            append(&mut out, entry.source.as_str());
            append(&mut out, ")");
        },
    }
    assert(out@ =~= annotation(*entry));
    out
}

/// What the contract records of `key`.
pub fn recorded_of(contract: &Contract, key: &str) -> (r: Vec<char>)
    requires
        contract.provenance.wf(),
    ensures
        r@ == recorded(*contract, key@),
{
    match contract.provenance.get(key) {
        Some(entry) => annotation_of(entry),
        None => chars_of("not recorded"),
    }
}

/// Appends a row's trailing source cell.
pub fn push_source_cell(out: &mut Vec<char>, contract: &Contract, provenance: bool, key: &str)
    requires
        contract.provenance.wf(),
    ensures
        final(out)@ == old(out)@ + source_cell(*contract, provenance, key@),
{
    let ghost start = out@;
    if provenance {
        append(out, " | ");
        let found = recorded_of(contract, key);
        push_cell(out, &found);
    }
    assert(out@ =~= start + source_cell(*contract, provenance, key@));
}

/// Appends the annotations for `keys`.
pub fn push_annotations(out: &mut Vec<char>, contract: &Contract, provenance: bool, keys: &Vec<String>)
    requires
        contract.provenance.wf(),
    ensures
        final(out)@ == old(out)@ + annotations(*contract, provenance, spelled(keys@)),
{
    let ghost start = out@;
    let ghost wanted = spelled(keys@);
    let mut lines: Vec<char> = Vec::new();
    let mut i: usize = 0;
    while i < keys.len()
        invariant
            i <= keys.len(),
            contract.provenance.wf(),
            wanted == spelled(keys@),
            lines@ == bullet_lines(*contract, wanted.take(i as int)),
        decreases keys.len() - i,
    {
        assert(wanted.take(i + 1).drop_last() =~= wanted.take(i as int));
        assert(wanted.take(i + 1).last() == keys@[i as int]@);
        match contract.provenance.get(keys[i].as_str()) {
            Some(entry) => {
                append(&mut lines, "\n- `");
                append(&mut lines, entry.key.as_str());
                append(&mut lines, "` — ");
                let mut note = annotation_of(entry);
                lines.append(&mut note);
            },
            None => {},
        }
        i = i + 1;
    }
    assert(wanted.take(wanted.len() as int) =~= wanted);
    proof {
        reveal_strlit("\n");
    }
    if provenance && lines.len() > 0 {
        out.push('\n');
        let mut moved = lines;
        out.append(&mut moved);
    }
    assert(out@ =~= start + annotations(*contract, provenance, wanted));
}

/// The provenance key of one declaration's `required` leaf.
fn required_key_of(declared: &TypeDecl, collection: &str, name: &str) -> (r: String)
    ensures
        r@ == required_key(*declared, collection@, name@),
{
    let mut out: Vec<char> = Vec::new();
    append(&mut out, "type.");
    append(&mut out, declared.name.as_str());
    append(&mut out, ".");
    append(&mut out, collection);
    append(&mut out, ".");
    append(&mut out, name);
    append(&mut out, ".required");
    string_of(&out)
}

/// Appends a table's header line and rule.
fn push_table_head(out: &mut Vec<char>, columns: &str, rules: &str, provenance: bool)
    ensures
        final(out)@ == old(out)@ + table_head(columns@, rules@, provenance),
{
    proof {
        reveal_strlit("");
    }
    let ghost start = out@;
    append(out, "| ");
    append(out, columns);
    if provenance {
        append(out, " | source");
    }
    append(out, " |\n| ");
    append(out, rules);
    if provenance {
        append(out, " | ---");
    }
    append(out, " |");
    assert(out@ =~= start + table_head(columns@, rules@, provenance));
}

/// Appends `name` quoted in backticks, as a cell.
fn push_quoted_cell(out: &mut Vec<char>, name: &str)
    ensures
        final(out)@ == old(out)@ + cell("`"@ + name@ + "`"@),
{
    let mut quoted: Vec<char> = Vec::new();
    append(&mut quoted, "`");
    append(&mut quoted, name);
    append(&mut quoted, "`");
    push_cell(out, &quoted);
}

/// Appends every property's row.
#[verifier::spinoff_prover]
fn push_property_rows(out: &mut Vec<char>, contract: &Contract, provenance: bool, declared: &TypeDecl)
    requires
        contract.provenance.wf(),
    ensures
        final(out)@ == old(out)@ + property_rows(*contract, provenance, *declared, declared.properties@),
{
    let ps = &declared.properties;
    let ghost start = out@;
    let mut i: usize = 0;
    while i < ps.len()
        invariant
            i <= ps.len(),
            contract.provenance.wf(),
            out@ == start + property_rows(*contract, provenance, *declared, ps@.take(i as int)),
        decreases ps.len() - i,
    {
        assert(ps@.take(i + 1).drop_last() =~= ps@.take(i as int));
        let ghost before = out@;
        let p = &ps[i];
        append(out, "\n| ");
        push_quoted_cell(out, p.name.as_str());
        append(out, " | ");
        let kind = kind_reading(&p.kind);
        push_cell(out, &kind);
        append(out, " | ");
        append(out, yes_no_text(p.required));
        let key = required_key_of(declared, "property", p.name.as_str());
        push_source_cell(out, contract, provenance, key.as_str());
        append(out, " |");
        assert(out@ =~= before + property_row(*contract, provenance, *declared, *p));
        i = i + 1;
    }
    assert(ps@.take(ps@.len() as int) =~= ps@);
}

/// Appends every relationship's row.
#[verifier::spinoff_prover]
fn push_relationship_rows(out: &mut Vec<char>, contract: &Contract, provenance: bool, declared: &TypeDecl)
    requires
        contract.provenance.wf(),
    ensures
        final(out)@ == old(out)@ + relationship_rows(*contract, provenance, *declared, declared.relationships@),
{
    let rs = &declared.relationships;
    let ghost start = out@;
    let mut i: usize = 0;
    while i < rs.len()
        invariant
            i <= rs.len(),
            contract.provenance.wf(),
            out@ == start + relationship_rows(*contract, provenance, *declared, rs@.take(i as int)),
        decreases rs.len() - i,
    {
        assert(rs@.take(i + 1).drop_last() =~= rs@.take(i as int));
        let ghost before = out@;
        let r = &rs[i];
        append(out, "\n| ");
        push_quoted_cell(out, r.predicate.as_str());
        append(out, " | ");
        append(out, yes_no_text(r.required));
        let key = required_key_of(declared, "relationship", r.predicate.as_str());
        push_source_cell(out, contract, provenance, key.as_str());
        append(out, " |");
        assert(out@ =~= before + relationship_row(*contract, provenance, *declared, *r));
        i = i + 1;
    }
    assert(rs@.take(rs@.len() as int) =~= rs@);
}

/// Appends every tag namespace's row.
#[verifier::rlimit(40)]
#[verifier::spinoff_prover]
fn push_namespace_rows(out: &mut Vec<char>, contract: &Contract, provenance: bool, declared: &TypeDecl)
    requires
        contract.provenance.wf(),
    ensures
        final(out)@ == old(out)@ + namespace_rows(*contract, provenance, *declared, declared.tag_namespaces@),
{
    let ns = &declared.tag_namespaces;
    let ghost start = out@;
    let mut i: usize = 0;
    while i < ns.len()
        invariant
            i <= ns.len(),
            contract.provenance.wf(),
            out@ == start + namespace_rows(*contract, provenance, *declared, ns@.take(i as int)),
        decreases ns.len() - i,
    {
        assert(ns@.take(i + 1).drop_last() =~= ns@.take(i as int));
        let ghost before = out@;
        let n = &ns[i];
        append(out, "\n| ");
        push_quoted_cell(out, n.prefix.as_str());
        append(out, " | ");
        let membership = membership_reading(&n.values);
        push_cell(out, &membership);
        append(out, " | ");
        append(out, yes_no_text(n.required));
        let key = required_key_of(declared, "tag-namespace", n.prefix.as_str());
        push_source_cell(out, contract, provenance, key.as_str());
        append(out, " |");
        assert(out@ =~= before + namespace_row(*contract, provenance, *declared, *n));
        i = i + 1;
    }
    assert(ns@.take(ns@.len() as int) =~= ns@);
}

/// Appends a type's property table, or the statement that it has none.
fn push_properties_text(out: &mut Vec<char>, contract: &Contract, provenance: bool, declared: &TypeDecl)
    requires
        contract.provenance.wf(),
    ensures
        final(out)@ == old(out)@ + properties_text(*contract, provenance, *declared),
{
    let ghost start = out@;
    if declared.properties.len() == 0 {
        append(out, "This type declares no properties.");
    } else {
        push_table_head(out, "property | kind | required", "--- | --- | ---", provenance);
        push_property_rows(out, contract, provenance, declared);
    }
    assert(out@ =~= start + properties_text(*contract, provenance, *declared));
}

/// Appends a type's relationship table, or the statement that it has none.
fn push_relationships_text(out: &mut Vec<char>, contract: &Contract, provenance: bool, declared: &TypeDecl)
    requires
        contract.provenance.wf(),
    ensures
        final(out)@ == old(out)@ + relationships_text(*contract, provenance, *declared),
{
    let ghost start = out@;
    if declared.relationships.len() == 0 {
        append(out, "This type declares no relationships.");
    } else {
        push_table_head(out, "relationship | required", "--- | ---", provenance);
        push_relationship_rows(out, contract, provenance, declared);
    }
    assert(out@ =~= start + relationships_text(*contract, provenance, *declared));
}

/// Appends a type's tag-namespace block, when it declares any.
fn push_namespace_block(out: &mut Vec<char>, contract: &Contract, provenance: bool, declared: &TypeDecl)
    requires
        contract.provenance.wf(),
    ensures
        final(out)@ == old(out)@ + namespace_block(*contract, provenance, *declared),
{
    let ghost start = out@;
    if declared.tag_namespaces.len() > 0 {
        append(out, "\n\n");
        push_table_head(out, "tag namespace | membership | required", "--- | --- | ---", provenance);
        push_namespace_rows(out, contract, provenance, declared);
    }
    proof {
        reveal_strlit("");
    }
    assert(out@ =~= start + namespace_block(*contract, provenance, *declared));
}

/// Appends what a type declares.
#[verifier::spinoff_prover]
#[verifier::rlimit(40)]
fn push_declarations(out: &mut Vec<char>, contract: &Contract, provenance: bool, declared: &TypeDecl)
    requires
        contract.provenance.wf(),
    ensures
        final(out)@ == old(out)@ + declaration_blocks(*contract, provenance, *declared),
{
    let ghost start = out@;
    let ghost p = properties_text(*contract, provenance, *declared);
    let ghost r = relationships_text(*contract, provenance, *declared);
    let ghost n = namespace_block(*contract, provenance, *declared);
    let ghost between = if declared.properties@.len() == 0 && declared.relationships@.len() == 0 {
        "\n"@
    } else {
        "\n\n"@
    };
    append(out, "\n\n");
    push_properties_text(out, contract, provenance, declared);
    let ghost x1 = "\n\n"@ + p;
    assert(out@ =~= start + x1);
    if declared.properties.len() == 0 && declared.relationships.len() == 0 {
        append(out, "\n");
    } else {
        append(out, "\n\n");
    }
    let ghost x2 = x1 + between;
    assert(out@ =~= start + x2);
    push_relationships_text(out, contract, provenance, declared);
    let ghost x3 = x2 + r;
    assert(out@ =~= start + x3);
    push_namespace_block(out, contract, provenance, declared);
    let ghost x4 = x3 + n;
    assert(out@ =~= start + x4);
    assert(x4 == declaration_blocks(*contract, provenance, *declared));
}

/// Appends a type's heading.
pub fn push_heading(out: &mut Vec<char>, declared: &TypeDecl)
    ensures
        final(out)@ == old(out)@ + heading(*declared),
{
    let ghost start = out@;
    append(out, "### `");
    append_folded(out, declared.name.as_str());
    append(out, "` — ");
    let cs = &declared.capabilities;
    if cs.len() == 0 {
        append(out, "no capabilities");
    } else {
        let ghost listed = out@;
        let mut i: usize = 0;
        while i < cs.len()
            invariant
                i <= cs.len(),
                out@ == listed + capability_list(cs@.take(i as int)),
            decreases cs.len() - i,
        {
            assert(cs@.take(i + 1).drop_last() =~= cs@.take(i as int));
            if i > 0 {
                append(out, ", ");
            }
            append(out, cs[i].as_str());
            i = i + 1;
            assert(out@ =~= listed + capability_list(cs@.take(i as int)));
        }
        assert(cs@.take(cs@.len() as int) =~= cs@);
    }
    assert(out@ =~= start + heading(*declared));
}

/// Two keys, spelled.
fn two_keys(a: String, b: String) -> (r: Vec<String>)
    ensures
        spelled(r@) == seq![a@, b@],
{
    let mut r: Vec<String> = Vec::new();
    r.push(a);
    r.push(b);
    assert(spelled(r@) =~= seq![a@, b@]);
    r
}

/// One key, spelled.
fn one_key(a: String) -> (r: Vec<String>)
    ensures
        spelled(r@) == seq![a@],
{
    let mut r: Vec<String> = Vec::new();
    r.push(a);
    assert(spelled(r@) =~= seq![a@]);
    r
}

/// `a`, `b` and `c`, joined.
fn joined3(a: &str, b: &str, c: &str) -> (r: String)
    ensures
        r@ == a@ + b@ + c@,
{
    let mut out: Vec<char> = Vec::new();
    append(&mut out, a);
    append(&mut out, b);
    append(&mut out, c);
    string_of(&out)
}

/// Appends one type's blocks.
#[verifier::spinoff_prover]
fn push_type_block(out: &mut Vec<char>, contract: &Contract, provenance: bool, declared: &TypeDecl)
    requires
        contract.provenance.wf(),
    ensures
        final(out)@ == old(out)@ + type_block(*contract, provenance, *declared),
{
    let ghost start = out@;
    append(out, "\n\n");
    push_heading(out, declared);
    let ghost x1 = "\n\n"@ + heading(*declared);
    assert(out@ =~= start + x1);
    let keys = two_keys(
        joined3("type.", declared.name.as_str(), ".name"),
        joined3("type.", declared.name.as_str(), ".capabilities"),
    );
    assert(spelled(keys@) == type_keys(*declared));
    push_annotations(out, contract, provenance, &keys);
    let ghost x2 = x1 + annotations(*contract, provenance, type_keys(*declared));
    assert(out@ =~= start + x2);
    push_declarations(out, contract, provenance, declared);
    let ghost x3 = x2 + declaration_blocks(*contract, provenance, *declared);
    assert(out@ =~= start + x3);
}

/// Appends every type's blocks.
#[verifier::spinoff_prover]
fn push_types(out: &mut Vec<char>, contract: &Contract, provenance: bool)
    requires
        contract.provenance.wf(),
    ensures
        final(out)@ == old(out)@ + type_blocks(*contract, provenance, contract.types@),
{
    let ts = &contract.types;
    let ghost start = out@;
    let mut i: usize = 0;
    while i < ts.len()
        invariant
            i <= ts.len(),
            contract.provenance.wf(),
            out@ == start + type_blocks(*contract, provenance, ts@.take(i as int)),
        decreases ts.len() - i,
    {
        assert(ts@.take(i + 1).drop_last() =~= ts@.take(i as int));
        push_type_block(out, contract, provenance, &ts[i]);
        i = i + 1;
    }
    assert(ts@.take(ts@.len() as int) =~= ts@);
}

/// Appends the lifecycle section's statement and annotations.
fn push_lifecycle(out: &mut Vec<char>, contract: &Contract, provenance: bool)
    requires
        contract.provenance.wf(),
    ensures
        final(out)@ == old(out)@ + lifecycle_text(contract.lifecycle) + annotations(
            *contract,
            provenance,
            lifecycle_keys(contract.lifecycle),
        ),
{
    let ghost start = out@;
    let keys = match &contract.lifecycle {
        LifecycleDecl::Axis { axis, ordinary: Ordinary::Absent } => {
            append(out, "The life axis is the property `");
            append_folded(out, axis.as_str());
            append(out, "`. A note is in the ordinary state when `");
            append_folded(out, axis.as_str());
            append(out, "` is absent; any declared value marks a departure from it.");
            two_keys(String::from_str("lifecycle.axis"), String::from_str("lifecycle.ordinary.absent"))
        },
        LifecycleDecl::Axis { axis, ordinary: Ordinary::Value(value) } => {
            append(out, "The life axis is the property `");
            append_folded(out, axis.as_str());
            append(out, "`. A note is in the ordinary state when `");
            append_folded(out, axis.as_str());
            append(out, "` is `");
            append_folded(out, value.as_str());
            append(out, "`; any other declared value marks a departure from it.");
            two_keys(String::from_str("lifecycle.axis"), String::from_str("lifecycle.ordinary.value"))
        },
        LifecycleDecl::NoAxis => {
            append(out, "This corpus declares no lifecycle axis.");
            one_key(String::from_str("lifecycle.none"))
        },
    };
    assert(out@ =~= start + lifecycle_text(contract.lifecycle));
    assert(spelled(keys@) == lifecycle_keys(contract.lifecycle));
    push_annotations(out, contract, provenance, &keys);
}

/// Appends the flags section's blocks.
fn push_flags(out: &mut Vec<char>, contract: &Contract, provenance: bool)
    requires
        contract.provenance.wf(),
    ensures
        final(out)@ == old(out)@ + flags_part(*contract, provenance),
{
    let flags = &contract.flags;
    if flags.len() == 0 {
        append(out, "\n\nThis contract declares no flags.");
        return;
    }
    let ghost start = out@;
    let mut i: usize = 0;
    while i < flags.len()
        invariant
            i <= flags.len(),
            contract.provenance.wf(),
            out@ == start + flag_blocks(*contract, provenance, flags@.take(i as int)),
        decreases flags.len() - i,
    {
        assert(flags@.take(i + 1).drop_last() =~= flags@.take(i as int));
        let ghost before = out@;
        append(out, "\n\n`");
        append_folded(out, flags[i].as_str());
        append(out, "` — a boolean property, orthogonal to the life axis.");
        let keys = one_key(joined3("flag.", flags[i].as_str(), ".property"));
        push_annotations(out, contract, provenance, &keys);
        assert(out@ =~= before + "\n\n`"@ + fold(flags@[i as int]@) + "` — a boolean property, orthogonal to the life axis."@ + annotations(
            *contract,
            provenance,
            seq!["flag."@ + flags@[i as int]@ + ".property"@],
        ));
        i = i + 1;
    }
    assert(flags@.take(flags@.len() as int) =~= flags@);
}

/// Appends the tags section's blocks.
fn push_tags(out: &mut Vec<char>, contract: &Contract, provenance: bool)
    requires
        contract.provenance.wf(),
    ensures
        final(out)@ == old(out)@ + tags_part(*contract, provenance),
{
    let ghost start = out@;
    match &contract.tags {
        None => append(out, "\n\nThis contract declares no tag vocabulary."),
        Some(t) => {
            append(out, "\n\nTags are carried by the property `");
            append_folded(out, t.property.as_str());
            append(out, "`, one tag per element.");
            let keys = one_key(String::from_str("tags.property"));
            push_annotations(out, contract, provenance, &keys);
        },
    }
    assert(out@ =~= start + tags_part(*contract, provenance));
}

/// Renders a resolved contract as the vault's agent contract, for the vault
/// whose root displays as `root`. `provenance` appends each rendered value's
/// source and location; with it off, no annotation appears anywhere.
#[verifier::spinoff_prover]
pub fn contract_markdown(root: &str, contract: &Contract, provenance: bool) -> (text: String)
    requires
        contract.provenance.wf(),
        renders_every_kind(*contract),
    ensures
        text@ == markdown_spec(root@, *contract, provenance),
{
    let mut out: Vec<char> = Vec::new();
    push_head(&mut out, root, contract, provenance);
    let ghost h = out@;
    append(&mut out, "\n\n## Types");
    push_types(&mut out, contract, provenance);
    let ghost t = out@;
    append(&mut out, "\n\n## Lifecycle\n\n");
    push_lifecycle(&mut out, contract, provenance);
    assert(out@ =~= t + lifecycle_part(*contract, provenance));
    let ghost l = out@;
    append(&mut out, "\n\n## Flags");
    push_flags(&mut out, contract, provenance);
    append(&mut out, "\n\n## Tags");
    push_tags(&mut out, contract, provenance);
    let ghost g = out@;
    push_dialect(&mut out, contract, provenance);
    assert(out@ =~= markdown_spec(root@, *contract, provenance));
    string_of(&out)
}

/// Appends the document's head.
fn push_head(out: &mut Vec<char>, root: &str, contract: &Contract, provenance: bool)
    requires
        contract.provenance.wf(),
    ensures
        final(out)@ == old(out)@ + head_part(root@, *contract, provenance),
{
    let ghost start = out@;
    append(out, "# Vault contract\n\n");
    append(out, "This vault is at `");
    append_folded(out, root);
    append(out, "`. These rules are generated from its committed contract at `");
    append(out, CONTRACT_PATH);
    append(out, "` (contract version ");
    append(out, decimal(contract.contract_version as usize).as_str());
    append(out, ") and are what the vault enforces. Do not edit this rendering; edit the contract.");
    assert(out@ =~= start + "# Vault contract\n\n"@ + preamble(root@, *contract));
    let keys = one_key(String::from_str("contract_version"));
    push_annotations(out, contract, provenance, &keys);
}

/// Appends the dialect section and the closing line break.
fn push_dialect(out: &mut Vec<char>, contract: &Contract, provenance: bool)
    requires
        contract.provenance.wf(),
    ensures
        final(out)@ == old(out)@ + dialect_part(*contract, provenance),
{
    let ghost start = out@;
    append(out, "\n\n## Dialect\n\n");
    match contract.dialect.links {
        LinkDialect::Wikilink => append(out, "References are written as wikilinks."),
        LinkDialect::Markdown => append(out, "References are written as Markdown links."),
    }
    let keys = one_key(String::from_str("dialect.links"));
    push_annotations(out, contract, provenance, &keys);
    append(out, "\n");
    assert(out@ =~= start + dialect_part(*contract, provenance));
}

/// Whether two contracts declare the same things, whatever provenance each
/// records.
pub open spec fn same_declarations(a: Contract, b: Contract) -> bool {
    &&& a.contract_version == b.contract_version
    &&& a.dialect == b.dialect
    &&& a.lifecycle == b.lifecycle
    &&& a.tags == b.tags
    &&& a.flags@ == b.flags@
    &&& a.types@ == b.types@
}

proof fn lemma_rows_ignore_provenance(a: Contract, b: Contract, declared: TypeDecl)
    ensures
        forall|ps: Seq<PropertyDecl>| #[trigger] property_rows(a, false, declared, ps) == property_rows(b, false, declared, ps),
        forall|rs: Seq<RelationshipDecl>| #[trigger] relationship_rows(a, false, declared, rs) == relationship_rows(b, false, declared, rs),
        forall|ns: Seq<TagNamespaceDecl>| #[trigger] namespace_rows(a, false, declared, ns) == namespace_rows(b, false, declared, ns),
{
    assert forall|ps: Seq<PropertyDecl>| #[trigger] property_rows(a, false, declared, ps) == property_rows(b, false, declared, ps) by {
        lemma_property_rows(a, b, declared, ps);
    }
    assert forall|rs: Seq<RelationshipDecl>| #[trigger] relationship_rows(a, false, declared, rs) == relationship_rows(b, false, declared, rs) by {
        lemma_relationship_rows(a, b, declared, rs);
    }
    assert forall|ns: Seq<TagNamespaceDecl>| #[trigger] namespace_rows(a, false, declared, ns) == namespace_rows(b, false, declared, ns) by {
        lemma_namespace_rows(a, b, declared, ns);
    }
}

proof fn lemma_property_rows(a: Contract, b: Contract, declared: TypeDecl, ps: Seq<PropertyDecl>)
    ensures
        property_rows(a, false, declared, ps) == property_rows(b, false, declared, ps),
    decreases ps.len(),
{
    if ps.len() > 0 {
        lemma_property_rows(a, b, declared, ps.drop_last());
    }
}

proof fn lemma_relationship_rows(a: Contract, b: Contract, declared: TypeDecl, rs: Seq<RelationshipDecl>)
    ensures
        relationship_rows(a, false, declared, rs) == relationship_rows(b, false, declared, rs),
    decreases rs.len(),
{
    if rs.len() > 0 {
        lemma_relationship_rows(a, b, declared, rs.drop_last());
    }
}

proof fn lemma_namespace_rows(a: Contract, b: Contract, declared: TypeDecl, ns: Seq<TagNamespaceDecl>)
    ensures
        namespace_rows(a, false, declared, ns) == namespace_rows(b, false, declared, ns),
    decreases ns.len(),
{
    if ns.len() > 0 {
        lemma_namespace_rows(a, b, declared, ns.drop_last());
    }
}

proof fn lemma_type_blocks(a: Contract, b: Contract, ts: Seq<TypeDecl>)
    ensures
        type_blocks(a, false, ts) == type_blocks(b, false, ts),
    decreases ts.len(),
{
    if ts.len() > 0 {
        lemma_type_blocks(a, b, ts.drop_last());
        lemma_rows_ignore_provenance(a, b, ts.last());
    }
}

proof fn lemma_flag_blocks(a: Contract, b: Contract, flags: Seq<String>)
    ensures
        flag_blocks(a, false, flags) == flag_blocks(b, false, flags),
    decreases flags.len(),
{
    if flags.len() > 0 {
        lemma_flag_blocks(a, b, flags.drop_last());
    }
}

/// With provenance off, the rendering is a function of what the contract
/// declares alone: two contracts declaring the same things render the same
/// bytes, whatever provenance either records.
pub proof fn provenance_off_annotates_nothing(root: Seq<char>, a: Contract, b: Contract)
    requires
        same_declarations(a, b),
    ensures
        markdown_spec(root, a, false) == markdown_spec(root, b, false),
{
    lemma_type_blocks(a, b, a.types@);
    lemma_flag_blocks(a, b, a.flags@);
}

} // verus!
