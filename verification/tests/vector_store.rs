use search_agent::vector_store::{plan_delete, plan_upsert, Slot};

fn ids(v: &[&str]) -> Vec<String> {
    v.iter().map(|s| s.to_string()).collect()
}

#[test]
fn upsert_replaces_in_place_and_appends_new() {
    let plan = plan_upsert(&ids(&["a", "b", "c"]), &ids(&["b", "d"]));
    assert_eq!(
        plan,
        vec![Slot::Kept(0), Slot::Incoming(0), Slot::Kept(2), Slot::Incoming(1)]
    );
}

#[test]
fn repeated_incoming_id_keeps_the_last() {
    let plan = plan_upsert(&ids(&["a"]), &ids(&["x", "x"]));
    assert_eq!(plan, vec![Slot::Kept(0), Slot::Incoming(1)]);
}

#[test]
fn upsert_into_empty_store() {
    let plan = plan_upsert(&[], &ids(&["doc1:0"]));
    assert_eq!(plan, vec![Slot::Incoming(0)]);
}

#[test]
fn delete_keeps_other_documents_in_order() {
    let kept = plan_delete(&ids(&["d1", "d2", "d1", "d3"]), "d1");
    assert_eq!(kept, vec![1, 3]);
    assert!(plan_delete(&ids(&["d1"]), "d1").is_empty());
}

#[test]
fn reindexing_replaces_a_documents_chunks() {
    let plan = search_agent::vector_store::plan_replace_document(&ids(&["d0", "d1", "d0", "d2"]), "d0", 2);
    assert_eq!(
        plan,
        vec![Slot::Kept(1), Slot::Kept(3), Slot::Incoming(0), Slot::Incoming(1)]
    );
}
