//! Algebraic properties of the RGA integration rule: idempotence of the
//! actor's deduplicating insert, stability of deletion, the shape of a
//! sibling run around a freshly integrated node, and commutation of
//! concurrent sibling inserts.

use vstd::prelude::*;

use crate::actor::integrate_once;
use crate::crdt::anchor_of;
use crate::crdt::delete_spec;
use crate::crdt::has_id;
use crate::crdt::idx_of_id;
use crate::crdt::insert_spec;
use crate::crdt::integrate_at;
use crate::crdt::lemma_idx_of_id;
use crate::crdt::lemma_insert_unique;
use crate::crdt::lemma_scan_determined;
use crate::crdt::lemma_scan_props;
use crate::crdt::lemma_shape_has_id;
use crate::crdt::lemma_shape_wf;
use crate::crdt::op_lt;
use crate::crdt::origin_ok;
use crate::crdt::same_shape;
use crate::crdt::scan_from;
use crate::crdt::unique_ids;
use crate::crdt::Node;
use crate::crdt::OpId;

verus! {

/// The identifier order is a strict total order: trichotomous on distinct
/// identifiers, asymmetric, and transitive.
pub proof fn lemma_op_order(x: OpId, y: OpId, z: OpId)
    ensures
        x != y ==> (op_lt(x, y) || op_lt(y, x)),
        !(op_lt(x, y) && op_lt(y, x)),
        op_lt(x, y) && op_lt(y, z) ==> op_lt(x, z),
{
}

/// Idempotence: the actor's dedup-by-identifier makes applying the same
/// insert twice yield the same state as applying it once.
pub proof fn lemma_insert_idempotent(s: Seq<Node>, n: Node)
    requires
        unique_ids(s),
    ensures
        integrate_once(integrate_once(s, n), n) == integrate_once(s, n),
{
    if !has_id(s, n.id) && origin_ok(s, n) {
        match n.origin {
            None => {},
            Some(o) => {
                let p = idx_of_id(s, o);
                assert(0 <= p < s.len() && s[p].id == o);
            },
        }
        lemma_scan_props(s, n, anchor_of(s, n));
        let k = integrate_at(s, n);
        s.insert_ensures(k, n);
        assert(insert_spec(s, n)[k] == n);
    }
}

/// Deletion stability, first half: deleting the same identifier twice
/// leaves the same state as deleting it once.
pub proof fn lemma_delete_idempotent(s: Seq<Node>, id: OpId)
    ensures
        delete_spec(delete_spec(s, id), id) == delete_spec(s, id),
{
    assert(delete_spec(delete_spec(s, id), id) =~= delete_spec(s, id));
}

/// The scan reads only identifiers and origins, so it is identical on two
/// sequences of the same shape.
proof fn lemma_shape_scan(s1: Seq<Node>, s2: Seq<Node>, n: Node, i: int)
    requires
        same_shape(s1, s2),
        0 <= i <= s1.len(),
    ensures
        scan_from(s2, n, i) == scan_from(s1, n, i),
    decreases s1.len() - i,
{
    if i < s1.len() {
        assert(s1[i].id == s2[i].id && s1[i].origin == s2[i].origin);
        if s1[i].origin == n.origin && op_lt(n.id, s1[i].id) {
            lemma_shape_scan(s1, s2, n, i + 1);
        }
    }
}

/// Integration is identical on two sequences of the same shape: the same
/// origins resolve, at the same anchor, and the scan stops at the same
/// index.
pub proof fn lemma_shape_integration(s1: Seq<Node>, s2: Seq<Node>, n: Node)
    requires
        same_shape(s1, s2),
        unique_ids(s1),
    ensures
        origin_ok(s2, n) == origin_ok(s1, n),
        origin_ok(s1, n) ==> anchor_of(s2, n) == anchor_of(s1, n),
        origin_ok(s1, n) ==> 0 <= anchor_of(s1, n) <= s1.len() && integrate_at(s2, n)
            == integrate_at(s1, n),
{
    match n.origin {
        None => {
            if origin_ok(s1, n) {
                lemma_shape_scan(s1, s2, n, 0);
            }
        },
        Some(o) => {
            lemma_shape_has_id(s1, s2, o);
            if origin_ok(s1, n) {
                let p = idx_of_id(s1, o);
                assert(0 <= p < s1.len() && s1[p].id == o);
                lemma_shape_wf(s1, s2);
                lemma_idx_of_id(s2, o, p);
                lemma_shape_scan(s1, s2, n, p + 1);
            }
        },
    }
}

/// Deletion stability, second half: a tombstone resolves as an origin
/// exactly like a live node, so an insert whose origin was deleted still
/// integrates at the same position — insertion and an unrelated deletion
/// commute.
pub proof fn lemma_insert_delete_commute(s: Seq<Node>, d: OpId, n: Node)
    requires
        unique_ids(s),
        n.id != d,
    ensures
        insert_spec(delete_spec(s, d), n) == delete_spec(insert_spec(s, n), d),
{
    let ds = delete_spec(s, d);
    crate::crdt::lemma_delete_shape(s, d);
    lemma_shape_integration(s, ds, n);
    if origin_ok(s, n) {
        let a = anchor_of(s, n);
        lemma_scan_props(s, n, a);
        let k = integrate_at(s, n);
        let t = s.insert(k, n);
        s.insert_ensures(k, n);
        let lhs = ds.insert(k, n);
        ds.insert_ensures(k, n);
        let rhs = delete_spec(t, d);
        assert forall|i: int| 0 <= i < s.len() + 1 implies lhs[i] == rhs[i] by {
            if i < k {
                assert(t[i] == s[i]);
                assert(lhs[i] == ds[i]);
            } else if i == k {
                assert(t[i] == n);
                assert(lhs[i] == n);
            } else {
                assert(t[(i - 1) + 1] == s[i - 1]);
                assert(lhs[i] == ds[i - 1]);
            }
        }
        assert(lhs =~= rhs);
    }
}

/// Origin preservation: a freshly integrated non-root node sits
/// immediately after a contiguous run of nodes that share its origin and
/// outrank its identifier, the run starting right after its origin; the
/// first node after the run, if there is one, either shares the origin
/// with a smaller identifier or has a different origin.
pub proof fn lemma_origin_run(s: Seq<Node>, n: Node)
    requires
        unique_ids(s),
        !has_id(s, n.id),
        origin_ok(s, n),
    ensures
        ({
            let t = insert_spec(s, n);
            let k = integrate_at(s, n);
            let a = anchor_of(s, n);
            &&& 0 <= a <= k <= s.len()
            &&& t.len() == s.len() + 1
            &&& t[k] == n
            &&& forall|j: int|
                #![trigger t[j]]
                a <= j < k ==> t[j].origin == n.origin && op_lt(n.id, t[j].id)
            &&& k + 1 < t.len() ==> (t[k + 1].origin != n.origin || op_lt(t[k + 1].id, n.id))
            &&& n.origin matches Some(o) ==> a >= 1 && t[a - 1].id == o
        }),
{
    let a = anchor_of(s, n);
    match n.origin {
        None => {},
        Some(o) => {
            let p = idx_of_id(s, o);
            assert(0 <= p < s.len() && s[p].id == o);
        },
    }
    lemma_scan_props(s, n, a);
    let k = integrate_at(s, n);
    let t = s.insert(k, n);
    s.insert_ensures(k, n);
    assert forall|j: int| a <= j < k implies t[j].origin == n.origin && op_lt(
        n.id,
        t[j].id,
    ) by {
        assert(t[j] == s[j]);
    }
    if k + 1 < t.len() {
        assert(t[k + 1] == s[k]);
        assert(!(s[k].origin == n.origin && op_lt(n.id, s[k].id)));
        if s[k].origin == n.origin {
            assert(s[k].id != n.id);
            lemma_op_order(n.id, s[k].id, s[k].id);
        }
    }
    match n.origin {
        None => {},
        Some(o) => {
            let p = idx_of_id(s, o);
            assert(t[p] == s[p]);
        },
    }
}

/// The asymmetric half of sibling commutation: `a` outranks `b`.
proof fn lemma_sibling_commute_aux(s: Seq<Node>, a: Node, b: Node)
    requires
        unique_ids(s),
        a.id != b.id,
        !has_id(s, a.id),
        !has_id(s, b.id),
        a.origin == b.origin,
        origin_ok(s, a),
        op_lt(b.id, a.id),
    ensures
        insert_spec(insert_spec(s, a), b) == insert_spec(insert_spec(s, b), a),
{
    let al = anchor_of(s, a);
    assert(anchor_of(s, b) == al);
    match a.origin {
        None => {},
        Some(o) => {
            let p = idx_of_id(s, o);
            assert(0 <= p < s.len() && s[p].id == o);
        },
    }
    lemma_scan_props(s, a, al);
    lemma_scan_props(s, b, al);
    let ka = integrate_at(s, a);
    let kb = integrate_at(s, b);
    if kb < ka {
        assert(s[kb].origin == a.origin && op_lt(a.id, s[kb].id));
        lemma_op_order(b.id, a.id, s[kb].id);
        assert(false);
    }
    let t1 = s.insert(ka, a);
    s.insert_ensures(ka, a);
    lemma_insert_unique(s, a, ka);
    let t2 = s.insert(kb, b);
    s.insert_ensures(kb, b);
    lemma_insert_unique(s, b, kb);

    // first order: integrate a, then b lands one past its old position
    match b.origin {
        None => {},
        Some(o) => {
            let p = idx_of_id(s, o);
            assert(p + 1 == al);
            assert(t1[p] == s[p]);
            lemma_idx_of_id(t1, o, p);
        },
    }
    assert(anchor_of(t1, b) == al && origin_ok(t1, b));
    assert forall|j: int| al <= j < kb + 1 implies t1[j].origin == b.origin && op_lt(
        b.id,
        t1[j].id,
    ) by {
        if j < ka {
            assert(t1[j] == s[j]);
        } else if j == ka {
            assert(t1[j] == a);
        } else {
            assert(t1[(j - 1) + 1] == s[j - 1]);
        }
    }
    if kb + 1 < t1.len() {
        assert(t1[(kb) + 1] == s[kb]);
        assert(!(s[kb].origin == b.origin && op_lt(b.id, s[kb].id)));
    }
    lemma_scan_determined(t1, b, al, kb + 1);
    let r1 = t1.insert(kb + 1, b);
    t1.insert_ensures(kb + 1, b);
    assert(insert_spec(t1, b) == r1);

    // second order: integrate b, then a stops where it always did
    match a.origin {
        None => {},
        Some(o) => {
            let p = idx_of_id(s, o);
            assert(p + 1 == al);
            assert(t2[p] == s[p]);
            lemma_idx_of_id(t2, o, p);
        },
    }
    assert(anchor_of(t2, a) == al && origin_ok(t2, a));
    assert forall|j: int| al <= j < ka implies t2[j].origin == a.origin && op_lt(
        a.id,
        t2[j].id,
    ) by {
        assert(t2[j] == s[j]);
    }
    if ka < kb {
        assert(t2[ka] == s[ka]);
        assert(!(s[ka].origin == a.origin && op_lt(a.id, s[ka].id)));
    } else {
        assert(t2[ka] == b);
        lemma_op_order(a.id, b.id, b.id);
        assert(!op_lt(a.id, b.id));
    }
    lemma_scan_determined(t2, a, al, ka);
    let r2 = t2.insert(ka, a);
    t2.insert_ensures(ka, a);
    assert(insert_spec(t2, a) == r2);

    // both orders interleave to the same sequence
    assert forall|i: int| 0 <= i < s.len() + 2 implies r1[i] == r2[i] by {
        if i < ka {
            assert(r1[i] == t1[i] && t1[i] == s[i]);
            assert(r2[i] == t2[i] && t2[i] == s[i]);
        } else if i == ka {
            assert(r1[i] == t1[i] && t1[i] == a);
            assert(r2[i] == a);
        } else if i <= kb {
            assert(r1[i] == t1[i] && t1[(i - 1) + 1] == s[i - 1]);
            assert(r2[((i - 1)) + 1] == t2[i - 1] && t2[i - 1] == s[i - 1]);
        } else if i == kb + 1 {
            assert(r1[i] == b);
            assert(r2[((i - 1)) + 1] == t2[i - 1] && t2[kb] == b);
        } else {
            assert(r1[((i - 1)) + 1] == t1[i - 1] && t1[((i - 2)) + 1] == s[i - 2]);
            assert(r2[((i - 1)) + 1] == t2[i - 1] && t2[((i - 2)) + 1] == s[i - 2]);
        }
    }
    assert(r1 =~= r2);
}

/// Convergence of concurrent sibling inserts: two fresh nodes that share
/// an origin integrate to the same sequence (hence the same visible text)
/// in either order.  Inserts whose origins differ need not commute under
/// the plain sibling scan, so this law is stated for a sibling pair.
pub proof fn lemma_sibling_inserts_commute(s: Seq<Node>, a: Node, b: Node)
    requires
        unique_ids(s),
        a.id != b.id,
        !has_id(s, a.id),
        !has_id(s, b.id),
        a.origin == b.origin,
    ensures
        insert_spec(insert_spec(s, a), b) == insert_spec(insert_spec(s, b), a),
{
    if !origin_ok(s, a) {
        assert(insert_spec(s, a) == s && insert_spec(s, b) == s);
    } else {
        lemma_op_order(a.id, b.id, b.id);
        if op_lt(b.id, a.id) {
            lemma_sibling_commute_aux(s, a, b);
        } else {
            lemma_sibling_commute_aux(s, b, a);
        }
    }
}

} // verus!
