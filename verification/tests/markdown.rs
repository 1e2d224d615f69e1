use dogtag::contract::{
    Capability, Contract, Dialect, LifecycleDecl, LinkDialect, Ordinary, PropertyDecl, PropertyKind, RelationshipDecl,
    ScalarKind, TagNamespaceDecl, Tags, TypeDecl,
};
use dogtag::diagnostic::{FileRef, Location, Position, Span, VaultPath};
use dogtag::provenance::{Provenance, ProvenanceEntry, Source};
use dogtag::report::markdown::{annotation_of, contract_markdown, push_annotations, push_heading, push_source_cell, recorded_of};

const ROOT: &str = "/data/vaults/work";

fn text(chars: Vec<char>) -> String {
    chars.into_iter().collect()
}

fn at(line: usize, column: usize) -> Location {
    Location::in_file(
        FileRef::InVault(VaultPath::kernel(".dogtag/contract.toml")),
        Span::at(Position::new(line, column, line * 40 + column)),
    )
}

fn written(provenance: &mut Provenance, key: &str, line: usize, column: usize) {
    provenance.insert(ProvenanceEntry::written(key, Source::Contract, at(line, column)));
}

fn defaulted(provenance: &mut Provenance, key: &str) {
    provenance.insert(ProvenanceEntry::defaulted(key, 2));
}

fn property(name: &str, kind: PropertyKind, required: bool) -> PropertyDecl {
    PropertyDecl { name: name.to_owned(), kind, required }
}

fn status() -> PropertyDecl {
    property("status", PropertyKind::Enum { values: vec!["active".to_owned(), "archived".to_owned()] }, true)
}

fn type_decl(name: &str, capabilities: Vec<Capability>, properties: Vec<PropertyDecl>, relationships: &[(&str, bool)]) -> TypeDecl {
    TypeDecl {
        name: name.to_owned(),
        capabilities,
        properties,
        relationships: relationships
            .iter()
            .map(|(predicate, required)| RelationshipDecl { predicate: (*predicate).to_owned(), required: *required })
            .collect(),
        tag_namespaces: Vec::new(),
    }
}

fn contract(lifecycle: LifecycleDecl, links: LinkDialect, types: Vec<TypeDecl>, provenance: Provenance) -> Contract {
    Contract {
        contract_version: 2,
        dialect: Dialect { links },
        lifecycle,
        tags: None,
        flags: Vec::new(),
        types,
        provenance,
    }
}

/// A lifecycle axis naming its ordinary state, the three shapes a type can
/// take, a relationship, and leaves that were defaulted rather than written.
fn named_ordinary() -> Contract {
    let mut provenance = Provenance::new();
    written(&mut provenance, "contract_version", 1, 20);
    written(&mut provenance, "type.note.property.status.required", 18, 14);
    defaulted(&mut provenance, "type.note.property.tags.required");
    defaulted(&mut provenance, "type.project.relationship.involves.required");
    defaulted(&mut provenance, "type.project.capabilities");
    contract(
        LifecycleDecl::Axis { axis: "status".to_owned(), ordinary: Ordinary::Value("active".to_owned()) },
        LinkDialect::Wikilink,
        vec![
            type_decl(
                "note",
                vec![Capability::CatchAll],
                vec![status(), property("tags", PropertyKind::List { of: ScalarKind::String }, false)],
                &[],
            ),
            type_decl(
                "person",
                vec![Capability::IdentityBearing],
                vec![property("full_name", PropertyKind::Scalar(ScalarKind::String), true), status()],
                &[],
            ),
            type_decl(
                "project",
                Vec::new(),
                vec![status(), property("due", PropertyKind::Scalar(ScalarKind::Date), false)],
                &[("involves", false)],
            ),
        ],
        provenance,
    )
}

/// The ordinary state as the absence of a value, with flags, several types
/// per capability, and types deliberately not in alphabetical order.
fn absent_ordinary() -> Contract {
    let mut provenance = Provenance::new();
    written(&mut provenance, "contract_version", 1, 20);
    written(&mut provenance, "dialect.links", 4, 9);
    written(&mut provenance, "lifecycle.axis", 7, 8);
    written(&mut provenance, "lifecycle.ordinary.absent", 8, 23);
    written(&mut provenance, "flag.needs_rework.property", 11, 12);
    written(&mut provenance, "flag.confidential.property", 14, 12);
    written(&mut provenance, "type.person.name", 17, 8);
    written(&mut provenance, "type.person.capabilities", 18, 16);
    let standing =
        || property("standing", PropertyKind::Enum { values: vec!["dormant".to_owned(), "closed".to_owned()] }, false);
    let mut c = contract(
        LifecycleDecl::Axis { axis: "standing".to_owned(), ordinary: Ordinary::Absent },
        LinkDialect::Wikilink,
        vec![
            type_decl(
                "person",
                vec![Capability::IdentityBearing],
                vec![
                    standing(),
                    property("needs_rework", PropertyKind::Scalar(ScalarKind::Boolean), false),
                    property("confidential", PropertyKind::Scalar(ScalarKind::Boolean), false),
                ],
                &[("works-at", true)],
            ),
            type_decl("organization", vec![Capability::IdentityBearing], vec![standing()], &[]),
            type_decl("clipping", vec![Capability::ClosedWrite], Vec::new(), &[("clipped-from", false)]),
            type_decl("snapshot", vec![Capability::ClosedWrite], Vec::new(), &[]),
            type_decl("unfiled", vec![Capability::CatchAll], Vec::new(), &[]),
        ],
        provenance,
    );
    c.flags = vec!["needs_rework".to_owned(), "confidential".to_owned()];
    c
}

/// The smallest contract: no axis, and one catch-all declaring nothing.
fn clean() -> Contract {
    let mut provenance = Provenance::new();
    written(&mut provenance, "contract_version", 1, 20);
    written(&mut provenance, "lifecycle.none", 7, 8);
    contract(
        LifecycleDecl::NoAxis,
        LinkDialect::Wikilink,
        vec![type_decl("capture", vec![Capability::CatchAll], Vec::new(), &[])],
        provenance,
    )
}

/// One property of every kind a table names.
fn kinds() -> Contract {
    let scalar = |name: &str, kind: ScalarKind| property(name, PropertyKind::Scalar(kind), false);
    contract(
        LifecycleDecl::NoAxis,
        LinkDialect::Wikilink,
        vec![type_decl(
            "capture",
            vec![Capability::CatchAll],
            vec![
                scalar("text", ScalarKind::String),
                scalar("count", ScalarKind::Integer),
                scalar("ratio", ScalarKind::Float),
                scalar("flagged", ScalarKind::Boolean),
                scalar("day", ScalarKind::Date),
                scalar("moment", ScalarKind::DateTime),
                property("sightings", PropertyKind::List { of: ScalarKind::Date }, false),
                property("state", PropertyKind::Enum { values: vec!["one".to_owned(), "two".to_owned()] }, false),
            ],
            &[],
        )],
        Provenance::new(),
    )
}

/// A tag vocabulary, and a type describing a closed and an open namespace.
fn tagged() -> Contract {
    let mut provenance = Provenance::new();
    written(&mut provenance, "tags.property", 7, 12);
    written(&mut provenance, "type.journal.tag-namespace.log/.required", 16, 14);
    defaulted(&mut provenance, "type.journal.tag-namespace.topic/.required");
    let mut journal = type_decl(
        "journal",
        vec![Capability::IdentityBearing],
        vec![property("labels", PropertyKind::List { of: ScalarKind::String }, false)],
        &[],
    );
    journal.tag_namespaces = vec![
        TagNamespaceDecl {
            prefix: "log/".to_owned(),
            required: true,
            values: Some(vec!["workout".to_owned(), "meditation".to_owned(), "a | pipe".to_owned()]),
        },
        TagNamespaceDecl { prefix: "topic/".to_owned(), required: false, values: None },
    ];
    let mut c = contract(
        LifecycleDecl::NoAxis,
        LinkDialect::Wikilink,
        vec![journal, type_decl("capture", vec![Capability::CatchAll], Vec::new(), &[])],
        provenance,
    );
    c.tags = Some(Tags { property: "labels".to_owned() });
    c
}

/// A vocabulary carrying a quote, a backslash, a line break, a column rule
/// and a non-ASCII scalar.
fn awkward() -> Contract {
    let values = ["a \" quote", "a \\ backslash", "a \n break", "a | pipe", "naïve"];
    contract(
        LifecycleDecl::Axis { axis: "état".to_owned(), ordinary: Ordinary::Value("a \" quote".to_owned()) },
        LinkDialect::Markdown,
        vec![type_decl(
            "capture",
            vec![Capability::CatchAll],
            vec![property("état", PropertyKind::Enum { values: values.iter().map(|v| (*v).to_owned()).collect() }, true)],
            &[],
        )],
        Provenance::new(),
    )
}

fn markdown(contract: &Contract, provenance: bool) -> String {
    contract_markdown(ROOT, contract, provenance)
}

fn assert_holds(haystack: &str, needle: &str) {
    assert!(haystack.contains(needle), "expected to find\n  {needle}\nin\n{haystack}");
}

fn assert_no_line(haystack: &str, predicate: impl Fn(&str) -> bool) {
    let offending: Vec<&str> = haystack.lines().filter(|line| predicate(line)).collect();
    assert!(offending.is_empty(), "unexpected lines: {offending:?}");
}

fn fixtures() -> [(&'static str, Contract); 2] {
    [("named-ordinary", named_ordinary()), ("absent-ordinary", absent_ordinary())]
}

#[test]
fn the_preamble_names_the_resolved_root_so_piped_output_carries_it() {
    let document = markdown(&named_ordinary(), false);
    assert!(document.starts_with("# Vault contract\n\n"));
    assert_holds(&document, &format!("This vault is at `{ROOT}`."));
    assert_holds(&document, "`.dogtag/contract.toml` (contract version 2)");
    assert_holds(&document, "Do not edit this rendering; edit the contract.");
    assert!(document.ends_with(".\n"));
}

#[test]
fn a_type_heading_names_the_capabilities_it_declares() {
    let document = markdown(&named_ordinary(), false);
    assert_holds(&document, "### `note` — catch-all\n");
    assert_holds(&document, "### `person` — identity-bearing\n");
    assert_holds(&document, "### `project` — no capabilities\n");
}

#[test]
fn a_type_declaring_nothing_says_so_rather_than_rendering_an_empty_table() {
    assert_holds(
        &markdown(&clean(), false),
        "### `capture` — catch-all\n\nThis type declares no properties.\nThis type declares no relationships.\n",
    );
}

#[test]
fn a_type_with_properties_and_no_relationships_still_says_it_has_none() {
    assert_holds(&markdown(&named_ordinary(), false), "This type declares no relationships.");
}

#[test]
fn a_property_table_renders_a_row_per_declaration_in_declaration_order() {
    assert_holds(
        &markdown(&named_ordinary(), false),
        "| property | kind | required |\n| --- | --- | --- |\n| `status` | enum (`active`, `archived`) | yes |\n| `tags` | list of string | no |\n",
    );
}

#[test]
fn a_relationship_table_renders_its_predicate_and_whether_it_is_required() {
    assert_holds(
        &markdown(&named_ordinary(), false),
        "| relationship | required |\n| --- | --- |\n| `involves` | no |\n",
    );
}

#[test]
fn the_lexical_form_of_a_kind_is_part_of_what_it_renders() {
    let document = markdown(&kinds(), false);
    assert_holds(&document, "| `text` | string | no |\n");
    assert_holds(&document, "| `count` | integer | no |\n");
    assert_holds(&document, "| `ratio` | float | no |\n");
    assert_holds(&document, "| `flagged` | boolean | no |\n");
    assert_holds(&document, "| `day` | date (RFC 3339 full-date) | no |\n");
    assert_holds(&document, "| `moment` | datetime (RFC 3339, with offset) | no |\n");
    assert_holds(&document, "| `sightings` | list of date (RFC 3339 full-date) | no |\n");
    assert_holds(&document, "| `state` | enum (`one`, `two`) | no |\n");
}

#[test]
fn a_corpus_with_no_life_axis_renders_the_statement_it_is() {
    assert_holds(&markdown(&clean(), false), "## Lifecycle\n\nThis corpus declares no lifecycle axis.\n");
}

#[test]
fn an_axis_renders_how_its_ordinary_state_is_encoded() {
    assert_holds(
        &markdown(&absent_ordinary(), false),
        "The life axis is the property `standing`. A note is in the ordinary state when `standing` is absent; any declared value marks a departure from it.",
    );
    assert_holds(
        &markdown(&named_ordinary(), false),
        "The life axis is the property `status`. A note is in the ordinary state when `status` is `active`; any other declared value marks a departure from it.",
    );
}

#[test]
fn a_contract_with_no_flags_renders_the_statement_it_is() {
    assert_holds(&markdown(&named_ordinary(), false), "## Flags\n\nThis contract declares no flags.\n");
}

#[test]
fn each_declared_flag_is_rendered_as_the_orthogonal_property_it_is() {
    let document = markdown(&absent_ordinary(), false);
    assert_holds(&document, "`needs_rework` — a boolean property, orthogonal to the life axis.\n");
    assert_holds(&document, "`confidential` — a boolean property, orthogonal to the life axis.\n");
}

#[test]
fn a_contract_with_no_tag_vocabulary_renders_the_statement_it_is() {
    assert_holds(&markdown(&named_ordinary(), false), "## Tags\n\nThis contract declares no tag vocabulary.\n");
}

#[test]
fn a_tag_vocabulary_names_the_property_that_carries_it() {
    assert_holds(
        &markdown(&tagged(), false),
        "## Tags\n\nTags are carried by the property `labels`, one tag per element.\n",
    );
}

#[test]
fn a_namespace_table_renders_a_row_per_declaration_in_declaration_order() {
    assert_holds(
        &markdown(&tagged(), false),
        "| tag namespace | membership | required |\n| --- | --- | --- |\n| `log/` | `workout`, `meditation`, `a \\| pipe` | yes |\n| `topic/` | open | no |\n",
    );
}

#[test]
fn a_type_declaring_no_namespace_renders_no_namespace_table() {
    assert_no_line(&markdown(&named_ordinary(), false), |line| line.starts_with("| tag namespace"));
}

#[test]
fn with_provenance_on_a_namespace_table_gains_a_source_column() {
    let document = markdown(&tagged(), true);
    assert_holds(&document, "| tag namespace | membership | required | source |\n");
    assert_holds(&document, "| `topic/` | open | no | (default, contract version 2) |\n");
    assert_holds(&document, "- `tags.property` — `.dogtag/contract.toml:");
}

#[test]
fn the_dialect_renders_as_an_instruction() {
    assert_holds(&markdown(&named_ordinary(), false), "## Dialect\n\nReferences are written as wikilinks.\n");
    assert_holds(&markdown(&awkward(), false), "## Dialect\n\nReferences are written as Markdown links.\n");
}

#[test]
fn with_provenance_off_no_annotation_appears_anywhere() {
    for (name, contract) in fixtures() {
        let document = markdown(&contract, false);
        assert!(!document.contains("| source |"), "`{name}` grew a source column");
        assert!(!document.contains("(contract)"), "`{name}` annotated a source");
        assert!(!document.contains("(default, contract version"), "`{name}` annotated a default");
        assert_no_line(&document, |line| line.starts_with("- `"));
    }
}

#[test]
fn with_provenance_on_a_table_gains_a_source_column() {
    let document = markdown(&named_ordinary(), true);
    assert_holds(&document, "| property | kind | required | source |\n");
    assert_holds(&document, "| --- | --- | --- | --- |\n");
    assert_holds(
        &document,
        "| `status` | enum (`active`, `archived`) | yes | `.dogtag/contract.toml:18:14` (contract) |\n",
    );
    assert_holds(&document, "| `tags` | list of string | no | (default, contract version 2) |\n");
    assert_holds(&document, "| relationship | required | source |\n");
    assert_holds(&document, "| `involves` | no | (default, contract version 2) |\n");
}

#[test]
fn with_provenance_on_every_value_outside_a_table_is_annotated_too() {
    let document = markdown(&absent_ordinary(), true);
    assert_holds(&document, "- `contract_version` — `.dogtag/contract.toml:1:20` (contract)\n");
    assert_holds(&document, "- `dialect.links` — `.dogtag/contract.toml:4:9` (contract)\n");
    assert_holds(&document, "- `lifecycle.axis` — `.dogtag/contract.toml:7:8` (contract)\n");
    assert_holds(&document, "- `lifecycle.ordinary.absent` — `.dogtag/contract.toml:8:23` (contract)\n");
    assert_holds(&document, "- `flag.needs_rework.property` — `.dogtag/contract.toml:11:12` (contract)\n");
    assert_holds(&document, "- `type.person.name` — `.dogtag/contract.toml:");
    assert_holds(&document, "- `type.person.capabilities` — `.dogtag/contract.toml:");
}

#[test]
fn a_corpus_that_declares_no_axis_annotates_the_declaration_it_did_make() {
    assert_holds(&markdown(&clean(), true), "- `lifecycle.none` — `.dogtag/contract.toml:7:8` (contract)\n");
}

#[test]
fn a_defaulted_capability_list_is_annotated_as_the_default_it_is() {
    assert_holds(&markdown(&named_ordinary(), true), "- `type.project.capabilities` — (default, contract version 2)\n");
}

#[test]
fn a_vocabulary_carrying_a_column_rule_or_a_line_break_keeps_the_table_intact() {
    let document = markdown(&awkward(), false);
    assert_holds(&document, "### `capture` — catch-all\n");
    assert_holds(&document, "| `état` | enum (");
    assert_holds(&document, r"`a \| pipe`");
    assert_holds(&document, "`a   break`");
    assert_holds(&document, "`a \\ backslash`");
    assert_holds(&document, "naïve");
    let rows = document.lines().filter(|line| line.starts_with("| `état`")).count();
    assert_eq!(rows, 1, "an awkward value must not split its row");
    assert_holds(
        &document,
        "The life axis is the property `état`. A note is in the ordinary state when `état` is `a \" quote`;",
    );
}

#[test]
fn the_same_contract_renders_the_same_bytes_every_time() {
    for (name, contract) in fixtures() {
        for provenance in [false, true] {
            assert_eq!(
                markdown(&contract, provenance),
                markdown(&contract, provenance),
                "`{name}` did not render identically twice"
            );
        }
    }
}

#[test]
fn markdown_types_render_in_declaration_order_and_never_sorted() {
    let contract = absent_ordinary();
    let document = markdown(&contract, false);
    let headings: Vec<&str> = document.lines().filter(|line| line.starts_with("### ")).collect();
    let declared: Vec<String> = contract
        .types
        .iter()
        .map(|declared| {
            let mut out = Vec::new();
            push_heading(&mut out, declared);
            text(out)
        })
        .collect();
    assert_eq!(headings, declared);
    let mut sorted = headings.clone();
    sorted.sort_unstable();
    assert_ne!(headings, sorted, "the fixture must not already be sorted");
}

#[test]
fn an_annotation_reads_its_source_even_where_there_is_nothing_to_point_at() {
    let unlocated = ProvenanceEntry { key: "dialect.links".to_owned(), source: Source::Contract, location: None };
    assert_eq!(text(annotation_of(&unlocated)), "(contract)");
    let whole_file = ProvenanceEntry {
        key: "dialect.links".to_owned(),
        source: Source::Installation,
        location: Some(Location::whole_file(FileRef::InVault(VaultPath::kernel(".dogtag/contract.toml")))),
    };
    assert_eq!(text(annotation_of(&whole_file)), "`.dogtag/contract.toml` (installation)");
    let pointed = ProvenanceEntry { key: "dialect.links".to_owned(), source: Source::Contract, location: Some(at(4, 9)) };
    assert_eq!(text(annotation_of(&pointed)), "`.dogtag/contract.toml:4:9` (contract)");
}

#[test]
fn a_leaf_with_no_recorded_provenance_says_that_rather_than_inventing_one() {
    let contract = clean();
    assert_eq!(text(recorded_of(&contract, "no.such.leaf")), "not recorded");
    let mut cells = Vec::new();
    push_source_cell(&mut cells, &contract, true, "no.such.leaf");
    assert_eq!(text(cells), " | not recorded");
    let mut none = Vec::new();
    push_source_cell(&mut none, &contract, false, "contract_version");
    assert!(none.is_empty());
    let mut bullets = Vec::new();
    push_annotations(&mut bullets, &contract, true, &vec!["no.such.leaf".to_owned()]);
    assert!(bullets.is_empty());
}

#[test]
fn turning_provenance_off_renders_what_the_declarations_alone_render() {
    let mut stripped = absent_ordinary();
    stripped.provenance = Provenance::new();
    assert_eq!(markdown(&absent_ordinary(), false), markdown(&stripped, false));
    assert_ne!(markdown(&absent_ordinary(), true), markdown(&stripped, true));
}

#[test]
fn a_whole_document_renders_exactly() {
    assert_eq!(
        markdown(&clean(), false),
        "# Vault contract\n\nThis vault is at `/data/vaults/work`. These rules are generated from its committed contract at `.dogtag/contract.toml` (contract version 2) and are what the vault enforces. Do not edit this rendering; edit the contract.\n\n## Types\n\n### `capture` — catch-all\n\nThis type declares no properties.\nThis type declares no relationships.\n\n## Lifecycle\n\nThis corpus declares no lifecycle axis.\n\n## Flags\n\nThis contract declares no flags.\n\n## Tags\n\nThis contract declares no tag vocabulary.\n\n## Dialect\n\nReferences are written as wikilinks.\n"
    );
}
