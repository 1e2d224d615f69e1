use dogtag::diagnostic::{FileRef, Location, Position, Span, VaultPath};
use dogtag::provenance::{Provenance, ProvenanceEntry, Source};

fn contract_location() -> Location {
    Location::in_file(
        FileRef::InVault(VaultPath::kernel(".dogtag/contract.toml")),
        Span::at(Position::new(4, 9, 31)),
    )
}

fn record_location() -> Location {
    Location::in_file(FileRef::InVault(VaultPath::kernel("installation.toml")), Span::at(Position::new(2, 8, 30)))
}

fn keys(provenance: &Provenance) -> Vec<&str> {
    provenance.entries().iter().map(|e| e.key.as_str()).collect()
}

#[test]
fn sources_render_for_structured_output() {
    assert_eq!(Source::Contract.as_str(), "contract");
    assert_eq!(Source::Installation.as_str(), "installation");
    assert_eq!(Source::Default { contract_version: 1 }.as_str(), "default");
}

#[test]
fn sources_clone_compare_and_format() {
    let sources = vec![Source::Contract, Source::Installation, Source::Default { contract_version: 1 }];
    assert_eq!(sources.clone(), sources);
    assert_ne!(sources[2], Source::Default { contract_version: 2 });
    assert!(format!("{sources:?}").contains("contract_version"));
}

#[test]
fn a_written_value_carries_its_file_and_span() {
    let entry = ProvenanceEntry::written("dialect.links", Source::Contract, contract_location());
    assert_eq!(entry.key, "dialect.links");
    assert_eq!(entry.source, Source::Contract);
    assert_eq!(entry.location, Some(contract_location()));
    assert_eq!(entry.clone(), entry);
    assert!(format!("{entry:?}").contains("dialect.links"));
}

#[test]
fn a_default_names_the_contract_version_that_defines_it() {
    let entry = ProvenanceEntry::defaulted("type.person.capabilities", 1);
    assert_eq!(entry.source, Source::Default { contract_version: 1 });
    assert!(entry.location.is_none());
}

#[test]
fn entries_iterate_in_key_order() {
    let mut provenance = Provenance::new();
    assert!(provenance.is_empty());
    provenance.insert(ProvenanceEntry::defaulted("type.person.capabilities", 1));
    provenance.insert(ProvenanceEntry::written("dialect.links", Source::Contract, contract_location()));
    provenance.insert(ProvenanceEntry::written("contract_version", Source::Contract, contract_location()));
    assert_eq!(keys(&provenance), ["contract_version", "dialect.links", "type.person.capabilities"]);
    assert_eq!(provenance.len(), 3);
    assert!(!provenance.is_empty());
}

#[test]
fn a_key_is_looked_up_by_its_dotted_path() {
    let mut provenance = Provenance::new();
    provenance.insert(ProvenanceEntry::defaulted("actor.name", 1));
    assert_eq!(provenance.get("actor.name").map(|e| e.source), Some(Source::Default { contract_version: 1 }));
    assert!(provenance.get("actor.absent").is_none());
}

#[test]
fn inserting_a_key_twice_keeps_the_later_entry() {
    let mut provenance = Provenance::new();
    provenance.insert(ProvenanceEntry::defaulted("dialect.links", 1));
    provenance.insert(ProvenanceEntry::written("dialect.links", Source::Contract, contract_location()));
    assert_eq!(provenance.len(), 1);
    assert_eq!(provenance.get("dialect.links").map(|e| e.source), Some(Source::Contract));
}

#[test]
fn merging_keeps_key_order_across_both_assets() {
    let mut contract = Provenance::new();
    contract.insert(ProvenanceEntry::written("dialect.links", Source::Contract, contract_location()));
    let mut installation = Provenance::new();
    installation.insert(ProvenanceEntry::written("actor.name", Source::Installation, record_location()));
    installation.insert(ProvenanceEntry::written("vault.work.path", Source::Installation, record_location()));
    let cloned = contract.clone();
    contract.merge(installation);
    assert_ne!(contract, cloned);
    assert_eq!(keys(&contract), ["actor.name", "dialect.links", "vault.work.path"]);
    assert!(format!("{contract:?}").contains("vault.work.path"));
}
