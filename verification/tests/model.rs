use dogtag::diagnostic::{FileRef, Location, VaultPath};
use dogtag::note::{Binding, Edge, FieldValue, Note, Property, PropertyValue, RecordValue, Reference, Relationship};

fn at() -> Location {
    Location::whole_file(FileRef::InVault(VaultPath::kernel("people/ada.md")))
}

fn note() -> Note {
    Note {
        path: VaultPath::kernel("people/ada.md"),
        binding: Binding::Declared { name: "person".to_owned() },
        properties: vec![
            Property { name: "full_name".to_owned(), value: PropertyValue::Scalar("Ada Lovelace".to_owned()) },
            Property { name: "labels".to_owned(), value: PropertyValue::List(vec!["role/founder".to_owned()]) },
        ],
        relationships: vec![Relationship {
            predicate: "works-at".to_owned(),
            edges: vec![Edge {
                written: "[[Analytical Engine]]".to_owned(),
                target: Some(VaultPath::kernel("engines/analytical.md")),
                at: at(),
            }],
        }],
        references: vec![Reference { written: "[[Charles Babbage]]".to_owned(), target: None, at: at() }],
        tags: vec!["role/founder".to_owned()],
        title: Some("Ada Lovelace".to_owned()),
        body: "# Ada Lovelace\n".to_owned(),
    }
}

fn record() -> RecordValue {
    RecordValue { fields: vec![FieldValue { name: "given".to_owned(), value: "Ada".to_owned() }] }
}

#[test]
fn a_note_answers_with_its_identity_and_never_with_its_name() {
    let note = note();
    let identity = (note.path().as_str(), note.name(), note.title());
    assert_eq!(identity, ("people/ada.md", "ada".to_owned(), Some("Ada Lovelace")));
    assert_eq!(note.body(), "# Ada Lovelace\n");
}

#[test]
fn a_name_is_the_file_name_without_its_extension_wherever_the_note_sits() {
    let root = Note { path: VaultPath::kernel("inbox.md"), ..note() };
    let odd = Note { path: VaultPath::kernel("a/b/no-extension"), ..note() };
    assert_eq!((root.name(), odd.name()), ("inbox".to_owned(), "no-extension".to_owned()));
}

#[test]
fn a_note_answers_for_the_properties_it_carries_and_only_those() {
    let note = note();
    let names: Vec<&str> = note.properties().iter().map(Property::name).collect();
    assert_eq!(names, ["full_name", "labels"]);
    let full_name = note.property("full_name").and_then(PropertyValue::scalar);
    let found = (full_name, note.property("absent").is_some());
    assert_eq!(found, (Some("Ada Lovelace"), false));
    assert_eq!(note.properties()[0].value().scalar(), Some("Ada Lovelace"));
}

#[test]
fn a_note_answers_for_its_edges_and_the_notes_they_resolved_to() {
    let note = note();
    let edges = note.relationship("works-at").expect("declared");
    assert_eq!(edges[0].written(), "[[Analytical Engine]]");
    assert_eq!(edges[0].target().map(VaultPath::as_str), Some("engines/analytical.md"));
    let declared = &note.relationships()[0];
    let carried = (declared.predicate(), declared.edges().len(), note.relationship("absent").is_some());
    assert_eq!(carried, ("works-at", 1, false));
}

#[test]
fn a_note_answers_for_the_untyped_references_its_body_writes() {
    let note = note();
    let reference = &note.body_references()[0];
    assert_eq!((reference.written(), reference.target()), ("[[Charles Babbage]]", None));
}

#[test]
fn a_binding_says_which_type_and_what_bound_it() {
    let declared = Binding::Declared { name: "person".to_owned() };
    let catch_all = Binding::CatchAll { name: "capture".to_owned() };
    let unbound = Binding::Unbound { named: Some("persno".to_owned()) };
    let named = (declared.bound_type(), catch_all.bound_type(), unbound.bound_type());
    assert_eq!(named, (Some("person"), Some("capture"), None));
    let said = (
        declared.discriminator(),
        catch_all.discriminator(),
        unbound.discriminator(),
        Binding::Unbound { named: None }.discriminator(),
    );
    assert_eq!(said, (Some("person"), None, Some("persno"), None));
    let bound_by = [declared.bound_by(), catch_all.bound_by(), unbound.bound_by()];
    assert_eq!(bound_by, ["declaration", "catch-all", "none"]);
}

#[test]
fn a_value_answers_only_for_the_shape_its_kind_gave_it() {
    let scalar = PropertyValue::Scalar("one".to_owned());
    let list = PropertyValue::List(vec!["one".to_owned()]);
    let single = PropertyValue::Record(record());
    let many = PropertyValue::RecordList(vec![record(), record()]);
    let scalars = (scalar.scalar(), list.scalar(), single.scalar(), many.scalar());
    assert_eq!(scalars, (Some("one"), None, None, None));
    let listed = (scalar.list(), list.list(), many.list());
    assert_eq!(listed, (None, Some(&["one".to_owned()][..]), None));
    let records = (scalar.records().len(), single.records().len(), many.records().len());
    assert_eq!(records, (0, 1, 2));
}

#[test]
fn a_record_value_answers_for_the_fields_the_note_wrote() {
    let record = record();
    let found = (record.field("given"), record.field("family"));
    assert_eq!(found, (Some("Ada"), None));
    let first = &record.fields()[0];
    assert_eq!((first.name(), first.value()), ("given", "Ada"));
}

#[test]
fn the_document_model_clones_compares_and_formats() {
    let untagged = Note { tags: Vec::new(), ..note() };
    let note = note();
    assert_eq!(note.clone(), note);
    assert_ne!(note, untagged);
    let rendered = format!("{note:?}");
    assert_eq!(note.tags(), ["role/founder"]);
    assert!(rendered.contains("Lovelace"));
    assert!(format!("{:?}", record()).contains("given"));
    assert!(format!("{:?}", Binding::Unbound { named: None }).contains("Unbound"));
    let reference = &note.body_references()[0];
    assert_eq!(reference.clone(), *reference);
    assert!(format!("{reference:?}").contains("Babbage"));
}
