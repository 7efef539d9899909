//! The replicated growable array (RGA): a convergent sequence of tombstoned
//! character nodes.  Each node carries a globally unique `OpId` and an
//! `origin` link to the node it was authored immediately after; siblings of
//! one origin are kept in descending `OpId` order, which makes integration
//! deterministic under any arrival order of causally ready operations.

use vstd::prelude::*;

verus! {

/// Globally unique, totally ordered identifier of one operation.
/// The order compares `seq` first and breaks ties on `client_id`.
#[derive(Debug, Clone, Copy, PartialEq, Eq, Hash, Structural)]
pub struct OpId {
    pub client_id: u64,
    pub seq: u64,
}

/// The total order on operation identifiers: `seq` first, then `client_id`.
pub open spec fn op_lt(a: OpId, b: OpId) -> bool {
    a.seq < b.seq || (a.seq == b.seq && a.client_id < b.client_id)
}

impl OpId {
    /// Strict comparison in the seq-first, client-id-tiebreak order.
    pub fn lt(self, other: OpId) -> (r: bool)
        ensures
            r == op_lt(self, other),
    {
        self.seq < other.seq || (self.seq == other.seq && self.client_id < other.client_id)
    }
}

/// One character cell: a value, its identifier, the identifier of the node
/// it was authored after (`None` means the beginning of the document), and
/// a tombstone flag.  Tombstoned nodes are kept forever so that later
/// operations can still resolve them as origins.
#[derive(Debug, Clone, Copy)]
pub struct Node {
    pub id: OpId,
    pub origin: Option<OpId>,
    pub value: char,
    pub visible: bool,
}

/// The document state: the integrated node sequence plus the editor
/// language mode.
#[derive(Debug)]
pub struct Rga {
    pub nodes: Vec<Node>,
    pub language: String,
}

impl Clone for Rga {
    /// An exact copy: the same nodes and the same language.
    fn clone(&self) -> (r: Self)
        ensures
            r.nodes@ == self.nodes@,
            r.language@ == self.language@,
    {
        let mut nodes: Vec<Node> = Vec::new();
        let mut i: usize = 0;
        while i < self.nodes.len()
            invariant
                0 <= i <= self.nodes@.len(),
                nodes@ == self.nodes@.take(i as int),
            decreases self.nodes@.len() - i,
        {
            nodes.push(self.nodes[i]);
            proof {
                assert(self.nodes@.take(i + 1) =~= self.nodes@.take(i as int).push(
                    self.nodes@[i as int],
                ));
            }
            i += 1;
        }
        proof {
            assert(self.nodes@.take(self.nodes@.len() as int) =~= self.nodes@);
        }
        Rga { nodes, language: self.language.clone() }
    }
}

/// Some node of `s` carries the identifier `id`.
pub open spec fn has_id(s: Seq<Node>, id: OpId) -> bool {
    exists|i: int| 0 <= i < s.len() && s[i].id == id
}

/// The index of the node carrying `id`; meaningful only when `has_id`
/// holds and identifiers are unique.
pub open spec fn idx_of_id(s: Seq<Node>, id: OpId) -> int {
    choose|i: int| 0 <= i < s.len() && s[i].id == id
}

/// No two nodes of `s` share an identifier.
pub open spec fn unique_ids(s: Seq<Node>) -> bool {
    forall|i: int, j: int| 0 <= i < j < s.len() ==> s[i].id != s[j].id
}

/// The node at index `i` either is a root or its origin occurs strictly
/// earlier in the sequence.
pub open spec fn origin_before(s: Seq<Node>, i: int) -> bool {
    s[i].origin matches Some(o) ==> exists|j: int| 0 <= j < i && s[j].id == o
}

/// Every origin link points backwards.
pub open spec fn origins_before(s: Seq<Node>) -> bool {
    forall|i: int| 0 <= i < s.len() ==> #[trigger] origin_before(s, i)
}

/// The origin of `n` is resolvable in `s` (roots always are).
pub open spec fn origin_ok(s: Seq<Node>, n: Node) -> bool {
    match n.origin {
        None => true,
        Some(o) => has_id(s, o),
    }
}

/// The position right after the origin of `n`, where integration starts
/// scanning; position 0 for a root.
pub open spec fn anchor_of(s: Seq<Node>, n: Node) -> int {
    match n.origin {
        None => 0,
        Some(o) => idx_of_id(s, o) + 1,
    }
}

/// Scan forward from `i` past every sibling of `n` (same origin) whose
/// identifier outranks `n.id`; the first position where that fails is
/// where `n` integrates.
pub open spec fn scan_from(s: Seq<Node>, n: Node, i: int) -> int
    recommends
        0 <= i <= s.len(),
    decreases s.len() - i,
{
    if i < 0 || i >= s.len() {
        i
    } else if s[i].origin == n.origin && op_lt(n.id, s[i].id) {
        scan_from(s, n, i + 1)
    } else {
        i
    }
}

/// The index at which `n` integrates into `s`.
pub open spec fn integrate_at(s: Seq<Node>, n: Node) -> int {
    scan_from(s, n, anchor_of(s, n))
}

/// The sequence after integrating `n`: unchanged when the origin of `n`
/// is unknown (the sender violated causality), otherwise `n` is placed at
/// its integration index.
pub open spec fn insert_spec(s: Seq<Node>, n: Node) -> Seq<Node> {
    if origin_ok(s, n) {
        s.insert(integrate_at(s, n), n)
    } else {
        s
    }
}

/// The sequence after deleting `id`: the node carrying `id`, if any, is
/// tombstoned in place; everything else is untouched.
pub open spec fn delete_spec(s: Seq<Node>, id: OpId) -> Seq<Node> {
    Seq::new(
        s.len(),
        |i: int|
            if s[i].id == id {
                Node { visible: false, ..s[i] }
            } else {
                s[i]
            },
    )
}

/// The visible text: the values of the visible nodes, in sequence order.
pub open spec fn visible_text(s: Seq<Node>) -> Seq<char>
    decreases s.len(),
{
    if s.len() == 0 {
        Seq::empty()
    } else {
        visible_text(s.drop_last()) + if s.last().visible {
            seq![s.last().value]
        } else {
            Seq::<char>::empty()
        }
    }
}

/// `s2` has the same length as `s1` and the same identifier and origin at
/// every index (only tombstone flags and values may differ).  Integration
/// reads nothing else, so it behaves identically on the two.
pub open spec fn same_shape(s1: Seq<Node>, s2: Seq<Node>) -> bool {
    s1.len() == s2.len() && forall|i: int|
        #![trigger s1[i], s2[i]]
        0 <= i < s1.len() ==> s1[i].id == s2[i].id && s1[i].origin == s2[i].origin
}

/// Deletion keeps every identifier and origin in place.
pub proof fn lemma_delete_shape(s: Seq<Node>, id: OpId)
    ensures
        same_shape(s, delete_spec(s, id)),
{
}

/// Well-formedness transfers between sequences of the same shape.
pub proof fn lemma_shape_wf(s1: Seq<Node>, s2: Seq<Node>)
    requires
        same_shape(s1, s2),
    ensures
        unique_ids(s2) == unique_ids(s1),
        origins_before(s2) == origins_before(s1),
{
    if unique_ids(s1) {
        assert forall|i: int, j: int| 0 <= i < j < s2.len() implies s2[i].id != s2[j].id by {
            assert(s1[i].id == s2[i].id && s1[j].id == s2[j].id);
        }
    }
    if unique_ids(s2) {
        assert forall|i: int, j: int| 0 <= i < j < s1.len() implies s1[i].id != s1[j].id by {
            assert(s1[i].id == s2[i].id && s1[j].id == s2[j].id);
        }
    }
    assert forall|i: int| 0 <= i < s2.len() && origin_before(s1, i) implies origin_before(
        s2,
        i,
    ) by {
        match s2[i].origin {
            Some(o) => {
                let j = choose|j: int| 0 <= j < i && s1[j].id == o;
                assert(s2[j].id == o);
            },
            None => {},
        }
    }
    assert forall|i: int| 0 <= i < s1.len() && origin_before(s2, i) implies origin_before(
        s1,
        i,
    ) by {
        match s1[i].origin {
            Some(o) => {
                let j = choose|j: int| 0 <= j < i && s2[j].id == o;
                assert(s1[j].id == o);
            },
            None => {},
        }
    }
}

/// `has_id` transfers between sequences of the same shape.
pub proof fn lemma_shape_has_id(s1: Seq<Node>, s2: Seq<Node>, id: OpId)
    requires
        same_shape(s1, s2),
    ensures
        has_id(s2, id) == has_id(s1, id),
{
    if has_id(s1, id) {
        let i = choose|i: int| 0 <= i < s1.len() && s1[i].id == id;
        assert(s2[i].id == id);
    }
    if has_id(s2, id) {
        let i = choose|i: int| 0 <= i < s2.len() && s2[i].id == id;
        assert(s1[i].id == id);
    }
}

/// When identifiers are unique, `idx_of_id` picks exactly the index that
/// carries `id`.
pub proof fn lemma_idx_of_id(s: Seq<Node>, id: OpId, i: int)
    requires
        unique_ids(s),
        0 <= i < s.len(),
        s[i].id == id,
    ensures
        has_id(s, id),
        idx_of_id(s, id) == i,
{
    assert(has_id(s, id));
    let k = idx_of_id(s, id);
    assert(0 <= k < s.len() && s[k].id == id);
}

/// The scan stays in bounds, everything it passed over is a sibling of `n`
/// whose identifier outranks `n.id`, and the stopping position (if inside
/// the sequence) fails that condition.
pub proof fn lemma_scan_props(s: Seq<Node>, n: Node, i: int)
    requires
        0 <= i <= s.len(),
    ensures
        i <= scan_from(s, n, i) <= s.len(),
        forall|j: int|
            #![trigger s[j]]
            i <= j < scan_from(s, n, i) ==> s[j].origin == n.origin && op_lt(n.id, s[j].id),
        scan_from(s, n, i) < s.len() ==> !(s[scan_from(s, n, i)].origin == n.origin && op_lt(
            n.id,
            s[scan_from(s, n, i)].id,
        )),
    decreases s.len() - i,
{
    if i < s.len() && s[i].origin == n.origin && op_lt(n.id, s[i].id) {
        lemma_scan_props(s, n, i + 1);
    }
}

/// The characterization of `lemma_scan_props` determines the scan result:
/// any position reached by a run of outranking siblings and stopping at a
/// failure is the scan result.
pub proof fn lemma_scan_determined(s: Seq<Node>, n: Node, i: int, k: int)
    requires
        0 <= i <= k <= s.len(),
        forall|j: int|
            #![trigger s[j]]
            i <= j < k ==> s[j].origin == n.origin && op_lt(n.id, s[j].id),
        k < s.len() ==> !(s[k].origin == n.origin && op_lt(n.id, s[k].id)),
    ensures
        scan_from(s, n, i) == k,
    decreases k - i,
{
    if i < k {
        assert(s[i].origin == n.origin && op_lt(n.id, s[i].id));
        lemma_scan_determined(s, n, i + 1, k);
    }
}

/// Inserting a node with a fresh identifier keeps identifiers unique.
pub proof fn lemma_insert_unique(s: Seq<Node>, n: Node, k: int)
    requires
        unique_ids(s),
        !has_id(s, n.id),
        0 <= k <= s.len(),
    ensures
        unique_ids(s.insert(k, n)),
{
    let t = s.insert(k, n);
    s.insert_ensures(k, n);
    assert forall|i: int, j: int| 0 <= i < j < t.len() implies t[i].id != t[j].id by {
        if i < k {
            assert(t[i] == s[i]);
        } else if i > k {
            assert(t[(i - 1) + 1] == s[i - 1]);
        }
        if j < k {
            assert(t[j] == s[j]);
        } else if j > k {
            assert(t[(j - 1) + 1] == s[j - 1]);
        }
        if i == k {
            assert(t[i] == n);
            assert(s[j - 1].id != n.id);
        } else if j == k {
            assert(t[j] == n);
            assert(s[i].id != n.id);
        }
    }
}

/// Integrating a fresh node with a resolvable origin preserves
/// well-formedness, and its index lies between its anchor and the end.
pub proof fn lemma_integrate_wf(s: Seq<Node>, n: Node)
    requires
        unique_ids(s),
        origins_before(s),
        !has_id(s, n.id),
        origin_ok(s, n),
    ensures
        0 <= anchor_of(s, n) <= integrate_at(s, n) <= s.len(),
        unique_ids(insert_spec(s, n)),
        origins_before(insert_spec(s, n)),
{
    let a = anchor_of(s, n);
    match n.origin {
        None => {},
        Some(o) => {
            let p = idx_of_id(s, o);
            assert(0 <= p < s.len() && s[p].id == o);
        },
    }
    lemma_scan_props(s, n, a);
    let k = integrate_at(s, n);
    let t = s.insert(k, n);
    s.insert_ensures(k, n);
    lemma_insert_unique(s, n, k);
    assert forall|i: int| 0 <= i < t.len() implies origin_before(t, i) by {
        if i == k {
            match n.origin {
                None => {},
                Some(o) => {
                    let p = idx_of_id(s, o);
                    assert(t[p] == s[p]);
                    assert(0 <= p < i && t[p].id == o);
                },
            }
        } else {
            let oi: int = if i < k {
                i
            } else {
                i - 1
            };
            if i > k {
                assert(t[(i - 1) + 1] == s[i - 1]);
            }
            assert(t[i] == s[oi]);
            assert(origin_before(s, oi));
            match s[oi].origin {
                None => {},
                Some(o) => {
                    let j = choose|j: int| 0 <= j < oi && s[j].id == o;
                    let jt: int = if j < k {
                        j
                    } else {
                        j + 1
                    };
                    if j >= k {
                        assert(t[j + 1] == s[j]);
                    }
                    assert(0 <= jt < i && t[jt].id == o);
                },
            }
        }
    }
}

impl Rga {
    /// Well-formedness: identifiers are unique and every origin link
    /// points at an earlier node.
    pub open spec fn wf(self) -> bool {
        unique_ids(self.nodes@) && origins_before(self.nodes@)
    }

    /// A fresh, empty document in the default language mode.
    pub fn new() -> (r: Self)
        ensures
            r.wf(),
            r.nodes@ == Seq::<Node>::empty(),
            r.language@ == "javascript"@,
    {
        Rga { nodes: Vec::new(), language: String::from_str("javascript") }
    }

    /// The index of the node carrying `id`, scanning from the front.
    fn index_of(&self, id: OpId) -> (r: Option<usize>)
        ensures
            match r {
                Some(i) => 0 <= i < self.nodes@.len() && self.nodes@[i as int].id == id
                    && forall|j: int| 0 <= j < i ==> self.nodes@[j].id != id,
                None => !has_id(self.nodes@, id),
            },
    {
        let mut i: usize = 0;
        while i < self.nodes.len()
            invariant
                0 <= i <= self.nodes@.len(),
                forall|j: int| 0 <= j < i ==> self.nodes@[j].id != id,
            decreases self.nodes@.len() - i,
        {
            if self.nodes[i].id == id {
                return Some(i);
            }
            i += 1;
        }
        None
    }

    /// Whether an operation with this identifier has already been
    /// integrated (the actor's idempotence check).
    pub fn contains(&self, id: OpId) -> (r: bool)
        ensures
            r == has_id(self.nodes@, id),
    {
        match self.index_of(id) {
            Some(_) => true,
            None => false,
        }
    }

    /// Integrate a freshly received node.  The caller deduplicates by
    /// identifier; a node whose origin has not been integrated is dropped
    /// (the sender violated causality).  Otherwise the node is placed
    /// after its origin, behind every sibling whose identifier outranks
    /// its own.
    pub fn insert(&mut self, new_node: Node)
        requires
            old(self).wf(),
            !has_id(old(self).nodes@, new_node.id),
        ensures
            final(self).wf(),
            final(self).nodes@ == insert_spec(old(self).nodes@, new_node),
            final(self).language@ == old(self).language@,
    {
        let ghost s = old(self).nodes@;
        let anchor: usize;
        match new_node.origin {
            None => {
                anchor = 0;
            },
            Some(origin_id) => {
                match self.index_of(origin_id) {
                    Some(p) => {
                        proof {
                            lemma_idx_of_id(s, origin_id, p as int);
                        }
                        let n = self.nodes.len();
                        assert(p < n);
                        anchor = p + 1;
                    },
                    None => {
                        proof {
                            assert(!origin_ok(s, new_node));
                            assert(self.nodes@ == insert_spec(s, new_node));
                        }
                        return ;
                    },
                }
            },
        }
        assert(origin_ok(s, new_node));
        assert(anchor as int == anchor_of(s, new_node));
        let mut idx: usize = anchor;
        loop
            invariant
                anchor <= idx <= self.nodes@.len(),
                self.nodes@ == s,
                scan_from(s, new_node, anchor as int) == scan_from(s, new_node, idx as int),
            ensures
                idx <= self.nodes@.len(),
                self.nodes@ == s,
                scan_from(s, new_node, anchor as int) == idx as int,
            decreases self.nodes@.len() - idx,
        {
            if idx >= self.nodes.len() {
                proof {
                    assert(scan_from(s, new_node, idx as int) == idx as int);
                }
                break ;
            }
            let cand = self.nodes[idx];
            if origin_eq(cand.origin, new_node.origin) && new_node.id.lt(cand.id) {
                proof {
                    assert(scan_from(s, new_node, idx as int) == scan_from(
                        s,
                        new_node,
                        idx as int + 1,
                    ));
                }
                idx += 1;
            } else {
                proof {
                    assert(scan_from(s, new_node, idx as int) == idx as int);
                }
                break ;
            }
        }
        proof {
            assert(idx as int == integrate_at(s, new_node));
            lemma_integrate_wf(s, new_node);
        }
        self.nodes.insert(idx, new_node);
    }

    /// Tombstone the node carrying `target_id`; a delete for an unknown
    /// identifier is a no-op, so deletion is idempotent.
    pub fn delete(&mut self, target_id: OpId)
        requires
            old(self).wf(),
        ensures
            final(self).wf(),
            final(self).nodes@ == delete_spec(old(self).nodes@, target_id),
            final(self).language@ == old(self).language@,
    {
        let ghost s = old(self).nodes@;
        match self.index_of(target_id) {
            Some(i) => {
                let mut node = self.nodes[i];
                node.visible = false;
                self.nodes[i] = node;
                proof {
                    assert forall|j: int| 0 <= j < s.len() && j != i implies s[j].id
                        != target_id by {
                        assert(s[i as int].id == target_id);
                    }
                    assert(self.nodes@ =~= delete_spec(s, target_id));
                    lemma_delete_shape(s, target_id);
                    lemma_shape_wf(s, delete_spec(s, target_id));
                }
            },
            None => {
                proof {
                    assert(self.nodes@ =~= delete_spec(s, target_id));
                }
            },
        }
    }

    /// Decide well-formedness at run time.  Snapshots loaded from the
    /// store are untrusted input; this check is what entitles a caller to
    /// hand them to the integration routines.
    pub fn is_well_formed(&self) -> (r: bool)
        ensures
            r == self.wf(),
    {
        let n = self.nodes.len();
        let mut i: usize = 0;
        while i < n
            invariant
                n == self.nodes@.len(),
                0 <= i <= n,
                forall|p: int, q: int| 0 <= p < q < i ==> self.nodes@[p].id != self.nodes@[q].id,
                forall|k: int| 0 <= k < i ==> #[trigger] origin_before(self.nodes@, k),
            decreases n - i,
        {
            let node = self.nodes[i];
            let mut j: usize = 0;
            while j < i
                invariant
                    n == self.nodes@.len(),
                    0 <= j <= i < n,
                    node == self.nodes@[i as int],
                    forall|q: int| 0 <= q < j ==> self.nodes@[q].id != self.nodes@[i as int].id,
                decreases i - j,
            {
                if self.nodes[j].id == node.id {
                    proof {
                        assert(!unique_ids(self.nodes@));
                    }
                    return false;
                }
                j += 1;
            }
            match node.origin {
                Some(o) => {
                    let mut k: usize = 0;
                    let mut found = false;
                    while k < i && !found
                        invariant
                            n == self.nodes@.len(),
                            0 <= k <= i < n,
                            node == self.nodes@[i as int],
                            found ==> exists|q: int| 0 <= q < i && self.nodes@[q].id == o,
                            !found ==> forall|q: int| 0 <= q < k ==> self.nodes@[q].id != o,
                        decreases i - k + (if found { 0int } else { 1int }),
                    {
                        if self.nodes[k].id == o {
                            found = true;
                        } else {
                            k += 1;
                        }
                    }
                    if !found {
                        proof {
                            assert(!origin_before(self.nodes@, i as int));
                        }
                        return false;
                    }
                },
                None => {},
            }
            proof {
                assert(origin_before(self.nodes@, i as int));
            }
            i += 1;
        }
        true
    }

    /// The visible text of the document, in integration order.
    pub fn to_string(&self) -> (r: String)
        ensures
            r@ == visible_text(self.nodes@),
    {
        let mut out: Vec<char> = Vec::new();
        let mut i: usize = 0;
        while i < self.nodes.len()
            invariant
                0 <= i <= self.nodes@.len(),
                out@ == visible_text(self.nodes@.take(i as int)),
            decreases self.nodes@.len() - i,
        {
            let n = self.nodes[i];
            if n.visible {
                out.push(n.value);
            }
            proof {
                let s = self.nodes@;
                assert(s.take(i + 1).drop_last() =~= s.take(i as int));
                assert(s.take(i + 1).last() == s[i as int]);
                assert(out@ =~= visible_text(s.take(i + 1)));
            }
            i += 1;
        }
        proof {
            assert(self.nodes@.take(self.nodes@.len() as int) =~= self.nodes@);
        }
        chars_to_string(&out)
    }
}

/// Equality of two optional origin links.
fn origin_eq(a: Option<OpId>, b: Option<OpId>) -> (r: bool)
    ensures
        r == (a == b),
{
    match (a, b) {
        (None, None) => true,
        (Some(x), Some(y)) => x == y,
        _ => false,
    }
}

/// Relies on `String::from_iter` (through `Iterator::collect`): collecting
/// a sequence of characters yields the string of exactly those characters.
#[verifier::external_body]
fn chars_to_string(v: &Vec<char>) -> (r: String)
    ensures
        r@ == v@,
{
    v.iter().collect()
}

impl Default for Rga {
    /// A fresh document, equal to `Rga::new()`.
    fn default() -> (r: Self)
        ensures
            r.wf(),
            r.nodes@ == Seq::<Node>::empty(),
            r.language@ == "javascript"@,
    {
        Rga::new()
    }
}

} // verus!
