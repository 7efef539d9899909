//! The per-document decision core.  One actor owns one document; commands
//! reach it through a single mailbox, which serialises all mutation.  The
//! functions here decide, for each command, how the document changes,
//! whether the dirty flag is set, and whether the message is fanned out to
//! local subscribers or republished on the cross-instance channel.  The
//! surrounding event loop (mailbox, persistence timer, pub/sub bridge) is
//! plain asynchronous plumbing and lives outside the library.

use vstd::prelude::*;

use crate::crdt::delete_spec;
use crate::crdt::has_id;
use crate::crdt::insert_spec;
use crate::crdt::integrate_at;
use crate::crdt::lemma_scan_props;
use crate::crdt::anchor_of;
use crate::crdt::idx_of_id;
use crate::crdt::origin_ok;
use crate::crdt::unique_ids;
use crate::crdt::Node;
use crate::crdt::OpId;
use crate::crdt::Rga;

verus! {

/// One frame of the wire protocol, client to server and server to server.
/// `Insert` and `Delete` mutate the replicated sequence, `Language`
/// mutates the editor mode, and `Cursor` is ephemeral presence that never
/// touches durable state.
#[derive(Debug)]
pub enum ClientMessage {
    Insert { node: Node },
    Delete { id: OpId },
    Cursor { client_id: u64, index: usize, name: String, color: String },
    Language { name: String },
}

impl Clone for ClientMessage {
    /// An exact copy of the frame.
    fn clone(&self) -> (r: Self)
        ensures
            r == *self,
    {
        match self {
            ClientMessage::Insert { node } => ClientMessage::Insert { node: *node },
            ClientMessage::Delete { id } => ClientMessage::Delete { id: *id },
            ClientMessage::Cursor { client_id, index, name, color } => ClientMessage::Cursor {
                client_id: *client_id,
                index: *index,
                name: name.clone(),
                color: color.clone(),
            },
            ClientMessage::Language { name } => ClientMessage::Language { name: name.clone() },
        }
    }
}

/// What the actor decided to do with a message besides mutating the
/// document: fan it out to local subscribers, and/or publish it on the
/// cross-instance channel.
#[derive(Debug, Clone, Copy, PartialEq, Eq, Structural)]
pub struct Effects {
    pub broadcast: bool,
    pub publish: bool,
}

/// The actor's deduplicating integration: an insert whose identifier is
/// already present is ignored, anything else is integrated.
pub open spec fn integrate_once(s: Seq<Node>, n: Node) -> Seq<Node> {
    if has_id(s, n.id) {
        s
    } else {
        insert_spec(s, n)
    }
}

/// Whether an insert carries new information for this replica.
pub open spec fn insert_is_new(s: Seq<Node>, n: Node) -> bool {
    !has_id(s, n.id)
}

/// The node sequence after the actor processes one message.
pub open spec fn nodes_after(s: Seq<Node>, m: ClientMessage) -> Seq<Node> {
    match m {
        ClientMessage::Insert { node } => integrate_once(s, node),
        ClientMessage::Delete { id } => delete_spec(s, id),
        ClientMessage::Cursor { .. } => s,
        ClientMessage::Language { .. } => s,
    }
}

/// The language mode after the actor processes one message.
pub open spec fn language_after(l: Seq<char>, m: ClientMessage) -> Seq<char> {
    match m {
        ClientMessage::Language { name } => name@,
        _ => l,
    }
}

/// The dirty flag after one message: every durable mutation marks the
/// document dirty; a duplicate insert and a cursor leave it alone.
pub open spec fn dirty_after(d: bool, s: Seq<Node>, m: ClientMessage) -> bool {
    match m {
        ClientMessage::Insert { node } => d || insert_is_new(s, node),
        ClientMessage::Delete { .. } => true,
        ClientMessage::Cursor { .. } => d,
        ClientMessage::Language { .. } => true,
    }
}

/// Whether the message is fanned out to the local broadcast topic: always,
/// except for an insert that carried nothing new.
pub open spec fn broadcasts(s: Seq<Node>, m: ClientMessage) -> bool {
    match m {
        ClientMessage::Insert { node } => insert_is_new(s, node),
        _ => true,
    }
}

/// The mutable state of one document actor: the document it solely owns,
/// and whether unsaved changes are pending.
pub struct DocumentActor {
    pub doc: Rga,
    pub dirty: bool,
}

impl DocumentActor {
    /// The actor's invariant: its document is well-formed.
    pub open spec fn wf(self) -> bool {
        self.doc.wf()
    }

    /// A fresh actor owning an empty document, with nothing to save.
    pub fn new() -> (r: Self)
        ensures
            r.wf(),
            r.doc.nodes@ == Seq::<Node>::empty(),
            r.doc.language@ == "javascript"@,
            !r.dirty,
    {
        DocumentActor { doc: Rga::new(), dirty: false }
    }

    /// Replace the document with a snapshot loaded from the store at
    /// startup.  The caller has checked the snapshot (`is_well_formed`).
    pub fn load_snapshot(&mut self, doc: Rga)
        requires
            doc.wf(),
        ensures
            final(self).wf(),
            final(self).doc == doc,
            final(self).dirty == old(self).dirty,
    {
        self.doc = doc;
    }

    /// Apply the mutation of one message and report whether it carried
    /// new information.
    fn apply(&mut self, msg: &ClientMessage) -> (b: bool)
        requires
            old(self).wf(),
        ensures
            final(self).wf(),
            final(self).doc.nodes@ == nodes_after(old(self).doc.nodes@, *msg),
            final(self).doc.language@ == language_after(old(self).doc.language@, *msg),
            final(self).dirty == dirty_after(old(self).dirty, old(self).doc.nodes@, *msg),
            b == broadcasts(old(self).doc.nodes@, *msg),
    {
        match msg {
            ClientMessage::Insert { node } => {
                if !self.doc.contains(node.id) {
                    self.doc.insert(*node);
                    self.dirty = true;
                    true
                } else {
                    false
                }
            },
            ClientMessage::Delete { id } => {
                self.doc.delete(*id);
                self.dirty = true;
                true
            },
            ClientMessage::Cursor { .. } => true,
            ClientMessage::Language { name } => {
                self.doc.language = name.clone();
                self.dirty = true;
                true
            },
        }
    }

    /// Process a message from a client connected to this instance.  A
    /// message that carries new information is both broadcast locally and
    /// published to the cross-instance channel.
    pub fn handle_local(&mut self, msg: &ClientMessage) -> (eff: Effects)
        requires
            old(self).wf(),
        ensures
            final(self).wf(),
            final(self).doc.nodes@ == nodes_after(old(self).doc.nodes@, *msg),
            final(self).doc.language@ == language_after(old(self).doc.language@, *msg),
            final(self).dirty == dirty_after(old(self).dirty, old(self).doc.nodes@, *msg),
            eff.broadcast == broadcasts(old(self).doc.nodes@, *msg),
            eff.publish == eff.broadcast,
    {
        let b = self.apply(msg);
        Effects { broadcast: b, publish: b }
    }

    /// Process a message relayed from another instance over pub/sub.  The
    /// mutation is the same as for a local message, but a remote message
    /// is never republished: that rule breaks the pub/sub cycle.
    pub fn handle_remote(&mut self, msg: &ClientMessage) -> (eff: Effects)
        requires
            old(self).wf(),
        ensures
            final(self).wf(),
            final(self).doc.nodes@ == nodes_after(old(self).doc.nodes@, *msg),
            final(self).doc.language@ == language_after(old(self).doc.language@, *msg),
            final(self).dirty == dirty_after(old(self).dirty, old(self).doc.nodes@, *msg),
            eff.broadcast == broadcasts(old(self).doc.nodes@, *msg),
            !eff.publish,
    {
        let b = self.apply(msg);
        Effects { broadcast: b, publish: false }
    }

    /// Record the outcome of a snapshot write: a successful write leaves
    /// the document clean, a failed one leaves it dirty so the next
    /// persistence tick retries.
    pub fn note_saved(&mut self, ok: bool)
        ensures
            final(self).doc == old(self).doc,
            final(self).dirty == (old(self).dirty && !ok),
    {
        if ok {
            self.dirty = false;
        }
    }
}

/// The first frame sent to a newly joined client: the prefix `INIT:`
/// followed by the serialised document.
pub fn init_frame(json: &str) -> (r: String)
    ensures
        r@ == "INIT:"@ + json@,
{
    let mut out = String::from_str("INIT:");
    out.append(json);
    out
}

/// Once an insert has been integrated by a replica, any redelivery of it
/// (as happens when the originator hears its own publication, or when two
/// bridges relay the same operation) leaves the replica unchanged and is
/// not fanned out again.  Together with `handle_remote`'s guarantee that
/// a remote message is never republished, this keeps the cross-instance
/// loop cycle-free: each operation is observed at most once per replica.
pub proof fn lemma_redelivery_suppressed(s: Seq<Node>, n: Node)
    requires
        unique_ids(s),
        origin_ok(s, n),
    ensures
        !insert_is_new(integrate_once(s, n), n),
        nodes_after(integrate_once(s, n), (ClientMessage::Insert { node: n })) == integrate_once(
            s,
            n,
        ),
        !broadcasts(integrate_once(s, n), (ClientMessage::Insert { node: n })),
{
    if !has_id(s, n.id) {
        match n.origin {
            None => {},
            Some(o) => {
                let p = idx_of_id(s, o);
                assert(0 <= p < s.len() && s[p].id == o);
            },
        }
        lemma_scan_props(s, n, anchor_of(s, n));
        let k = integrate_at(s, n);
        s.insert_ensures(k, n);
        assert(insert_spec(s, n)[k] == n);
    }
}

} // verus!
