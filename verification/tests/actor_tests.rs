use collab_core::actor::{init_frame, ClientMessage, DocumentActor};
use collab_core::crdt::{Node, OpId, Rga};

fn id(client_id: u64, seq: u64) -> OpId {
    OpId { client_id, seq }
}

fn node(client_id: u64, seq: u64, origin: Option<OpId>, value: char) -> Node {
    Node { id: id(client_id, seq), origin, value, visible: true }
}

fn insert_msg(n: Node) -> ClientMessage {
    ClientMessage::Insert { node: n }
}

#[test]
fn fresh_actor_is_clean_and_empty() {
    let actor = DocumentActor::new();
    assert!(!actor.dirty);
    assert_eq!(actor.doc.to_string(), "");
    assert_eq!(actor.doc.language, "javascript");
}

#[test]
fn local_insert_broadcasts_and_publishes() {
    let mut actor = DocumentActor::new();
    let eff = actor.handle_local(&insert_msg(node(1, 1, None, 'a')));
    assert!(eff.broadcast);
    assert!(eff.publish);
    assert!(actor.dirty);
    assert_eq!(actor.doc.to_string(), "a");
}

// Idempotence: the duplicate of an integrated insert changes nothing and
// goes nowhere.
#[test]
fn duplicate_local_insert_is_suppressed() {
    let mut actor = DocumentActor::new();
    let m = insert_msg(node(1, 1, None, 'a'));
    actor.handle_local(&m);
    actor.note_saved(true);
    let eff = actor.handle_local(&m);
    assert!(!eff.broadcast);
    assert!(!eff.publish);
    assert!(!actor.dirty);
    assert_eq!(actor.doc.to_string(), "a");
    assert_eq!(actor.doc.nodes.len(), 1);
}

// A remote message is never republished to the cross-instance channel,
// whatever its kind: this is what breaks the pub/sub cycle.
#[test]
fn remote_messages_never_publish() {
    let mut actor = DocumentActor::new();
    let msgs = vec![
        insert_msg(node(1, 1, None, 'a')),
        ClientMessage::Delete { id: id(1, 1) },
        ClientMessage::Cursor {
            client_id: 3,
            index: 0,
            name: "ada".to_string(),
            color: "#ff0000".to_string(),
        },
        ClientMessage::Language { name: "python".to_string() },
    ];
    for m in msgs.iter() {
        let eff = actor.handle_remote(m);
        assert!(!eff.publish);
    }
}

// A message entering instance A as local is seen once on A's channel and
// once by B's subscribers; when A hears its own publication back it is
// ignored, and a second relay to B is ignored as well.
#[test]
fn cross_instance_delivery_is_exactly_once() {
    let m = insert_msg(node(1, 1, None, 'a'));

    let mut a = DocumentActor::new();
    let mut b = DocumentActor::new();

    // local at A: published once
    let eff_a = a.handle_local(&m);
    assert!(eff_a.publish);

    // B hears it over pub/sub: broadcast to B's clients, never republished
    let eff_b = b.handle_remote(&m);
    assert!(eff_b.broadcast);
    assert!(!eff_b.publish);

    // A hears its own publication back: ignored entirely
    let eff_echo = a.handle_remote(&m);
    assert!(!eff_echo.broadcast);
    assert!(!eff_echo.publish);
    assert_eq!(a.doc.nodes.len(), 1);

    // a duplicate relay to B is ignored too
    let eff_b2 = b.handle_remote(&m);
    assert!(!eff_b2.broadcast);
    assert_eq!(b.doc.nodes.len(), 1);

    assert_eq!(a.doc.to_string(), b.doc.to_string());
}

#[test]
fn deletes_are_applied_and_broadcast() {
    let mut actor = DocumentActor::new();
    actor.handle_local(&insert_msg(node(1, 1, None, 'a')));
    actor.note_saved(true);
    let eff = actor.handle_local(&ClientMessage::Delete { id: id(1, 1) });
    assert!(eff.broadcast);
    assert!(eff.publish);
    assert!(actor.dirty);
    assert_eq!(actor.doc.to_string(), "");
}

#[test]
fn cursor_is_ephemeral() {
    let mut actor = DocumentActor::new();
    let eff = actor.handle_local(&ClientMessage::Cursor {
        client_id: 7,
        index: 2,
        name: "grace".to_string(),
        color: "#00ff00".to_string(),
    });
    assert!(eff.broadcast);
    assert!(eff.publish);
    assert!(!actor.dirty);
    assert_eq!(actor.doc.nodes.len(), 0);
}

// Scenario: language change convergence.  Both replicas end with the
// language processed last.
#[test]
fn s4_language_last_writer_wins() {
    let python = ClientMessage::Language { name: "python".to_string() };
    let rust = ClientMessage::Language { name: "rust".to_string() };

    let mut a = DocumentActor::new();
    a.handle_local(&python);
    a.handle_remote(&rust);
    assert_eq!(a.doc.language, "rust");
    assert!(a.dirty);

    let mut b = DocumentActor::new();
    b.handle_remote(&python);
    b.handle_local(&rust);
    assert_eq!(b.doc.language, "rust");
}

// Scenario: a snapshot restored into a fresh actor reproduces the exact
// document.
#[test]
fn s6_snapshot_restore_reproduces_state() {
    let mut actor = DocumentActor::new();
    actor.handle_local(&insert_msg(node(1, 1, None, 'h')));
    actor.handle_local(&insert_msg(node(1, 2, Some(id(1, 1)), 'i')));
    actor.handle_local(&ClientMessage::Delete { id: id(1, 2) });

    let snapshot = actor.doc.clone();
    assert!(snapshot.is_well_formed());

    let mut restored = DocumentActor::new();
    restored.load_snapshot(snapshot);
    assert!(!restored.dirty);
    assert_eq!(restored.doc.to_string(), actor.doc.to_string());
    assert_eq!(restored.doc.nodes.len(), actor.doc.nodes.len());
    assert_eq!(restored.doc.language, actor.doc.language);
}

#[test]
fn failed_save_keeps_the_document_dirty() {
    let mut actor = DocumentActor::new();
    actor.handle_local(&insert_msg(node(1, 1, None, 'a')));
    assert!(actor.dirty);
    actor.note_saved(false);
    assert!(actor.dirty);
    actor.note_saved(true);
    assert!(!actor.dirty);
}

#[test]
fn init_frame_prefixes_the_snapshot() {
    let framed = init_frame("{\"nodes\":[],\"language\":\"javascript\"}");
    assert_eq!(framed, "INIT:{\"nodes\":[],\"language\":\"javascript\"}");
    assert_eq!(init_frame(""), "INIT:");
}
