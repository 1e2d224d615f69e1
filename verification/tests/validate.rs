use dogtag::contract::{Contract, Dialect, LifecycleDecl, LinkDialect};
use dogtag::diagnostic::VaultPath;
use dogtag::note::encoding::inspect;
use dogtag::note::findings::Findings;
use dogtag::note::validate::bind;
use dogtag::note::Binding;
use dogtag::provenance::Provenance;

/// A contract no loader produces: it nominates no catch-all type.
fn without_a_catch_all() -> Contract {
    Contract {
        contract_version: 2,
        dialect: Dialect { links: LinkDialect::Wikilink },
        lifecycle: LifecycleDecl::NoAxis,
        tags: None,
        flags: Vec::new(),
        types: Vec::new(),
        provenance: Provenance::new(),
    }
}

#[test]
fn a_note_with_no_discriminator_binds_to_nothing_where_no_type_is_the_bottom() {
    let text = inspect(b"---\n---\n").expect("well-formed");
    let mut findings = Findings::new(&VaultPath::kernel("inbox.md"), &text.text);
    let contract = without_a_catch_all();
    let bound = bind(&mut findings, &contract, &Vec::new());
    assert_eq!(bound.binding, Binding::Unbound { named: None });
    assert!(bound.declared.is_none());
    assert!(findings.finish().is_empty());
}
