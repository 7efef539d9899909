use collab_core::crdt::{Node, OpId, Rga};

fn id(client_id: u64, seq: u64) -> OpId {
    OpId { client_id, seq }
}

fn node(client_id: u64, seq: u64, origin: Option<OpId>, value: char) -> Node {
    Node { id: id(client_id, seq), origin, value, visible: true }
}

#[test]
fn fresh_document_is_empty_javascript() {
    let doc = Rga::new();
    assert_eq!(doc.nodes.len(), 0);
    assert_eq!(doc.language, "javascript");
    assert_eq!(doc.to_string(), "");
    assert!(doc.is_well_formed());
}

#[test]
fn default_equals_new() {
    let doc = Rga::default();
    assert_eq!(doc.nodes.len(), 0);
    assert_eq!(doc.language, "javascript");
}

#[test]
fn contains_sees_integrated_ids() {
    let mut doc = Rga::new();
    doc.insert(node(1, 1, None, 'a'));
    assert!(doc.contains(id(1, 1)));
    assert!(!doc.contains(id(1, 2)));
    assert!(!doc.contains(id(2, 1)));
}

// Scenario: concurrent inserts at the same origin.  The higher identifier
// (seq tie, larger client id) comes first at the head, in either order of
// arrival.
#[test]
fn s1_concurrent_inserts_same_origin() {
    let a = node(1, 1, None, 'a');
    let b = node(2, 1, None, 'b');

    let mut first = Rga::new();
    first.insert(a);
    first.insert(b);
    assert_eq!(first.to_string(), "ba");

    let mut second = Rga::new();
    second.insert(b);
    second.insert(a);
    assert_eq!(second.to_string(), "ba");
}

// Scenario: concurrent inserts with different seqs.  At origin (1,1) the
// sibling group is {y=(1,2), z=(2,2)}; z has the higher seq so it sorts
// before y.
#[test]
fn s2_concurrent_inserts_different_seqs() {
    let x = node(1, 1, None, 'x');
    let y = node(1, 2, Some(id(1, 1)), 'y');
    let z = node(2, 2, Some(id(1, 1)), 'z');

    let mut first = Rga::new();
    first.insert(x);
    first.insert(y);
    first.insert(z);
    assert_eq!(first.to_string(), "xzy");

    let mut second = Rga::new();
    second.insert(x);
    second.insert(z);
    second.insert(y);
    assert_eq!(second.to_string(), "xzy");
}

// Scenario: delete idempotence.  The node stays as a tombstone.
#[test]
fn s3_delete_idempotence() {
    let mut doc = Rga::new();
    doc.insert(node(1, 1, None, 'a'));
    doc.delete(id(1, 1));
    doc.delete(id(1, 1));
    assert_eq!(doc.to_string(), "");
    assert_eq!(doc.nodes.len(), 1);
    assert!(!doc.nodes[0].visible);
}

#[test]
fn delete_of_unknown_id_is_a_no_op() {
    let mut doc = Rga::new();
    doc.insert(node(1, 1, None, 'a'));
    doc.delete(id(9, 9));
    assert_eq!(doc.to_string(), "a");
    assert_eq!(doc.nodes.len(), 1);
    assert!(doc.nodes[0].visible);
}

#[test]
fn insert_with_unknown_origin_is_dropped() {
    let mut doc = Rga::new();
    doc.insert(node(1, 1, None, 'a'));
    doc.insert(node(2, 5, Some(id(7, 7)), 'q'));
    assert_eq!(doc.to_string(), "a");
    assert_eq!(doc.nodes.len(), 1);
}

// An insert whose origin is a tombstone still integrates right after it.
#[test]
fn insert_after_deleted_origin_still_resolves() {
    let mut doc = Rga::new();
    doc.insert(node(1, 1, None, 'a'));
    doc.insert(node(1, 2, Some(id(1, 1)), 'b'));
    doc.delete(id(1, 1));
    doc.insert(node(1, 3, Some(id(1, 1)), 'c'));
    // siblings of (1,1): {b=(1,2), c=(1,3)}; c outranks b
    assert_eq!(doc.to_string(), "cb");
    assert_eq!(doc.nodes.len(), 3);
}

#[test]
fn to_string_skips_tombstones_in_order() {
    let mut doc = Rga::new();
    doc.insert(node(1, 1, None, 'h'));
    doc.insert(node(1, 2, Some(id(1, 1)), 'e'));
    doc.insert(node(1, 3, Some(id(1, 2)), 'y'));
    doc.delete(id(1, 2));
    assert_eq!(doc.to_string(), "hy");
}

// Convergence on a larger set: every arrival order of a causally ready
// operation set yields the same text.
#[test]
fn convergence_over_permutations() {
    let x = node(1, 1, None, 'x');
    let y = node(1, 2, Some(id(1, 1)), 'y');
    let z = node(2, 2, Some(id(1, 1)), 'z');
    let w = node(2, 1, None, 'w');

    // x before y and z (causality); w independent
    let orders: [[Node; 4]; 6] = [
        [x, y, z, w],
        [x, z, y, w],
        [x, y, w, z],
        [w, x, y, z],
        [x, w, z, y],
        [w, x, z, y],
    ];
    let mut results = Vec::new();
    for ops in orders.iter() {
        let mut doc = Rga::new();
        for op in ops.iter() {
            if !doc.contains(op.id) {
                doc.insert(*op);
            }
        }
        results.push(doc.to_string());
    }
    for r in results.iter() {
        assert_eq!(r, &results[0]);
    }
    // head siblings {x=(1,1), w=(2,1)} sort descending: w before x
    assert_eq!(results[0], "wxzy");
}

#[test]
fn well_formedness_rejects_duplicate_ids() {
    let doc = Rga {
        nodes: vec![node(1, 1, None, 'a'), node(1, 1, None, 'b')],
        language: "javascript".to_string(),
    };
    assert!(!doc.is_well_formed());
}

#[test]
fn well_formedness_rejects_forward_origins() {
    let doc = Rga {
        nodes: vec![node(1, 2, Some(id(1, 1)), 'b'), node(1, 1, None, 'a')],
        language: "javascript".to_string(),
    };
    assert!(!doc.is_well_formed());
}

#[test]
fn well_formedness_accepts_integrated_documents() {
    let mut doc = Rga::new();
    doc.insert(node(1, 1, None, 'a'));
    doc.insert(node(2, 1, None, 'b'));
    doc.insert(node(1, 2, Some(id(1, 1)), 'c'));
    doc.delete(id(2, 1));
    assert!(doc.is_well_formed());
}

// After integration every non-root node sits right after the run of
// siblings that outrank it: in this document y's origin is x, and the
// outranking sibling z stands between them.
#[test]
fn integration_order_keeps_sibling_runs() {
    let mut doc = Rga::new();
    doc.insert(node(1, 1, None, 'x'));
    doc.insert(node(1, 2, Some(id(1, 1)), 'y'));
    doc.insert(node(2, 2, Some(id(1, 1)), 'z'));
    let ids: Vec<OpId> = doc.nodes.iter().map(|n| n.id).collect();
    assert_eq!(ids, vec![id(1, 1), id(2, 2), id(1, 2)]);
    assert_eq!(doc.nodes[1].origin, Some(id(1, 1)));
    assert_eq!(doc.nodes[2].origin, Some(id(1, 1)));
}

#[test]
fn extreme_identifiers_integrate() {
    let mut doc = Rga::new();
    doc.insert(node(u64::MAX, u64::MAX, None, 'a'));
    doc.insert(node(u64::MAX - 1, u64::MAX, None, 'b'));
    doc.insert(node(0, 0, None, 'c'));
    // descending identifier order at the head
    assert_eq!(doc.to_string(), "abc");
    doc.delete(id(u64::MAX, u64::MAX));
    assert_eq!(doc.to_string(), "bc");
}

#[test]
fn op_id_order_is_seq_first() {
    assert!(id(2, 1).lt(id(1, 2)));
    assert!(id(1, 1).lt(id(2, 1)));
    assert!(!id(2, 1).lt(id(1, 1)));
    assert!(!id(1, 1).lt(id(1, 1)));
}
