use np_tool::documents::{DocumentIndex, DocumentValidation};
use np_tool::reconcile::{
    build_name_index, names_match, normalized_name, planned_validations, reconcile,
    validate_documents, DocumentRequest, RosterEntry, WikiRecord,
};
use np_tool::text_map::TextMap;

const HELLO_HASH: &str = "b94d27b9934d3e08a52e52d7da7dabfac484efe37a5380ee9088f7ace2efcde9";

fn roster_entry(name: &str, principal: &str, locations: u64, nodes: u64) -> RosterEntry {
    RosterEntry {
        name: name.to_string(),
        principal: principal.to_string(),
        location_count: locations,
        node_count: nodes,
    }
}

fn record(
    local_id: &str,
    name: &str,
    declaration: Option<&str>,
    identity: Option<&str>,
    others: &[(&str, &str)],
    link: Option<&str>,
) -> WikiRecord {
    let mut other_documents: TextMap<String> = TextMap::new();
    for (ty, hash) in others {
        other_documents.insert(ty.to_string(), hash.to_string());
    }
    WikiRecord {
        local_id: local_id.to_string(),
        name: name.to_string(),
        declaration: declaration.map(|s| s.to_string()),
        identity: identity.map(|s| s.to_string()),
        other_documents,
        link: link.map(|s| s.to_string()),
    }
}

fn index_with(files: &[(&str, &str)]) -> DocumentIndex {
    let mut index = DocumentIndex::new(vec![
        "declaration".to_string(),
        "identity".to_string(),
        "audit".to_string(),
        "license".to_string(),
    ]);
    for (local_id, file) in files {
        let path = format!("docs/{}/{}", local_id, file);
        index.add_file(local_id, file, &path);
    }
    index
}

fn request(ty: &str, hash: &str, path: &str) -> DocumentRequest {
    DocumentRequest {
        document_type: ty.to_string(),
        expected_hash: hash.to_string(),
        path: path.to_string(),
    }
}

#[test]
fn names_are_matched_without_regard_to_case() {
    assert!(names_match("Acme Corp", "ACME CORP"));
    assert!(names_match("acme corp", "Acme Corp"));
    assert!(names_match("Élan", "élan"));
    assert!(names_match("", ""));
    assert!(!names_match("Acme Corp", "Acme  Corp"));
    assert!(!names_match("Acme Corp", "Acme Corp."));
    assert!(!names_match("Acme", "Acne"));
}

#[test]
fn names_are_looked_up_in_lower_case() {
    assert_eq!(normalized_name("Acme Corp"), "acme corp");
    assert_eq!(normalized_name("ACME CORP"), "acme corp");
    assert_eq!(normalized_name("ÉLAN 42"), "élan 42");
    assert_eq!(normalized_name(""), "");
}

#[test]
fn later_record_of_a_name_replaces_the_earlier() {
    let wiki = vec![
        record("one", "Acme Corp", None, None, &[], None),
        record("two", "Bolt", None, None, &[], None),
        record("three", "ACME CORP", None, None, &[], None),
    ];
    let index = build_name_index(&wiki);
    assert_eq!(index.len(), 2);
    assert_eq!(index.get("acme corp"), Some(&2));
    assert_eq!(index.get("bolt"), Some(&1));
    assert_eq!(index.get("Acme Corp"), None);
    assert_eq!(index.key_at(0), "acme corp");
    assert_eq!(build_name_index(&[]).len(), 0);
}

#[test]
fn documents_with_a_hash_and_a_file_are_planned() {
    let w = record(
        "acme",
        "Acme Corp",
        Some("aa"),
        Some("bb"),
        &[("license", "cc"), ("audit", "dd"), ("declaration", "zz"), ("unknown", "ee")],
        None,
    );
    let index = index_with(&[
        ("acme", "declaration.pdf"),
        ("acme", "audit.md"),
        ("acme", "license.txt"),
        ("bolt", "identity.pdf"),
    ]);
    let requests = planned_validations(&w, &index);
    assert_eq!(
        requests,
        vec![
            request("declaration", "aa", "docs/acme/declaration.pdf"),
            request("license", "cc", "docs/acme/license.txt"),
            request("audit", "dd", "docs/acme/audit.md"),
        ]
    );
}

#[test]
fn declared_document_without_a_file_is_passed_over() {
    let w = record("acme", "Acme Corp", Some("aa"), Some("bb"), &[("audit", "dd")], None);
    assert!(planned_validations(&w, &index_with(&[])).is_empty());
    assert!(planned_validations(&w, &index_with(&[("bolt", "declaration.pdf")])).is_empty());
    let only_identity = planned_validations(&w, &index_with(&[("acme", "identity.png")]));
    assert_eq!(only_identity, vec![request("identity", "bb", "docs/acme/identity.png")]);
}

#[test]
fn file_without_a_declared_hash_is_passed_over() {
    let w = record("acme", "Acme Corp", None, None, &[], None);
    let index = index_with(&[("acme", "declaration.pdf"), ("acme", "audit.md")]);
    assert!(planned_validations(&w, &index).is_empty());
}

#[test]
fn each_readable_document_gives_one_outcome() {
    let requests = vec![
        request("declaration", &HELLO_HASH.to_uppercase(), "a"),
        request("identity", HELLO_HASH, "b"),
        request("audit", HELLO_HASH, "c"),
    ];
    let contents = vec![Some(b"hello world".to_vec()), None, Some(b"other".to_vec())];
    let outcomes = validate_documents(&requests, &contents);
    assert_eq!(outcomes.len(), 2);
    assert_eq!(outcomes[0].document_type, "declaration");
    assert_eq!(outcomes[0].expected_hash, HELLO_HASH.to_uppercase());
    assert_eq!(outcomes[0].actual_hash, HELLO_HASH);
    assert!(outcomes[0].matches);
    assert_eq!(outcomes[1].document_type, "audit");
    assert!(!outcomes[1].matches);
}

#[test]
fn contents_that_are_missing_count_as_unreadable() {
    let requests = vec![request("declaration", HELLO_HASH, "a"), request("identity", HELLO_HASH, "b")];
    let outcomes = validate_documents(&requests, &[Some(b"hello world".to_vec())]);
    assert_eq!(outcomes.len(), 1);
    assert!(validate_documents(&requests, &[]).is_empty());
    assert!(validate_documents(&[], &[Some(vec![1])]).is_empty());
}

#[test]
fn roster_and_records_are_merged() {
    let roster = vec![
        roster_entry("Acme Corp", "aaaaa-aa", 3, 12),
        roster_entry("Nobody Knows", "2vxsx-fae", 1, 1),
    ];
    let wiki = vec![
        record("acme", "ACME CORP", Some("aa"), None, &[("audit", "dd")], Some("https://acme.example")),
        record("lost", "Lost Ltd", None, Some("bb"), &[], None),
    ];
    let index = index_with(&[("acme", "declaration.pdf"), ("lost", "identity.pdf")]);
    let outcome = DocumentValidation {
        document_type: "declaration".to_string(),
        expected_hash: "aa".to_string(),
        actual_hash: HELLO_HASH.to_string(),
        matches: false,
    };
    let validations = vec![vec![outcome.duplicate()], vec![]];
    let entities = reconcile(&roster, &wiki, &index, &validations);
    assert_eq!(entities.len(), 3);

    let acme = &entities[0];
    assert_eq!(acme.name, "Acme Corp");
    assert_eq!(acme.principal.as_deref(), Some("aaaaa-aa"));
    assert!(acme.in_roster);
    assert_eq!(acme.location_count, 3);
    assert_eq!(acme.node_count, 12);
    assert_eq!(acme.local_id.as_deref(), Some("acme"));
    assert_eq!(acme.declaration.as_deref(), Some("aa"));
    assert_eq!(acme.identity, None);
    assert_eq!(acme.other_documents.get("audit").unwrap(), "dd");
    assert_eq!(acme.other_documents.len(), 1);
    assert_eq!(acme.link.as_deref(), Some("https://acme.example"));
    let paths = acme.document_paths.as_ref().unwrap();
    assert_eq!(paths.get("declaration").unwrap(), "docs/acme/declaration.pdf");
    assert_eq!(paths.len(), 1);
    assert_eq!(acme.validations, vec![outcome]);
    assert!(acme.rewards.is_none());
    assert!(acme.activity.is_none());

    let nobody = &entities[1];
    assert_eq!(nobody.name, "Nobody Knows");
    assert!(nobody.in_roster);
    assert_eq!(nobody.principal.as_deref(), Some("2vxsx-fae"));
    assert_eq!(nobody.location_count, 1);
    assert_eq!(nobody.local_id, None);
    assert_eq!(nobody.declaration, None);
    assert_eq!(nobody.other_documents.len(), 0);
    assert!(nobody.document_paths.is_none());
    assert!(nobody.validations.is_empty());

    let lost = &entities[2];
    assert_eq!(lost.name, "Lost Ltd");
    assert!(!lost.in_roster);
    assert_eq!(lost.principal, None);
    assert_eq!(lost.location_count, 0);
    assert_eq!(lost.node_count, 0);
    assert_eq!(lost.local_id.as_deref(), Some("lost"));
    assert_eq!(lost.identity.as_deref(), Some("bb"));
    assert_eq!(
        lost.document_paths.as_ref().unwrap().get("identity").unwrap(),
        "docs/lost/identity.pdf"
    );
    assert!(lost.validations.is_empty());
}

#[test]
fn shadowed_record_is_kept_as_missing_from_the_roster() {
    let roster = vec![roster_entry("acme corp", "aaaaa-aa", 1, 2)];
    let wiki = vec![
        record("first", "Acme Corp", Some("11"), None, &[], None),
        record("second", "ACME CORP", Some("22"), None, &[], None),
    ];
    let entities = reconcile(&roster, &wiki, &index_with(&[]), &[]);
    assert_eq!(entities.len(), 2);
    assert_eq!(entities[0].local_id.as_deref(), Some("second"));
    assert_eq!(entities[0].declaration.as_deref(), Some("22"));
    assert!(entities[0].in_roster);
    assert_eq!(entities[1].local_id.as_deref(), Some("first"));
    assert_eq!(entities[1].name, "Acme Corp");
    assert!(!entities[1].in_roster);
    assert!(entities[1].validations.is_empty());
}

#[test]
fn two_roster_entries_of_one_name_share_the_record() {
    let roster = vec![roster_entry("Acme", "aaaaa-aa", 1, 2), roster_entry("ACME", "2vxsx-fae", 3, 4)];
    let wiki = vec![record("acme", "acme", Some("11"), None, &[], None)];
    let entities = reconcile(&roster, &wiki, &index_with(&[]), &[vec![]]);
    assert_eq!(entities.len(), 2);
    assert_eq!(entities[0].local_id.as_deref(), Some("acme"));
    assert_eq!(entities[1].local_id.as_deref(), Some("acme"));
    assert_eq!(entities[1].principal.as_deref(), Some("2vxsx-fae"));
}

#[test]
fn nothing_in_nothing_out() {
    assert!(reconcile(&[], &[], &index_with(&[]), &[]).is_empty());
}

#[test]
fn activity_is_attached_later() {
    let roster = vec![roster_entry("Acme", "aaaaa-aa", 1, 2)];
    let mut entities = reconcile(&roster, &[], &index_with(&[]), &[]);
    let e = entities.pop().unwrap().with_activity(None, None);
    assert_eq!(e.name, "Acme");
    assert!(e.rewards.is_none());
    assert!(e.activity.is_none());
}
