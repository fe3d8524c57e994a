//! The differ: computes a patch between two trees. A patch is a transcript
//! the patcher can replay against the live target; `patch_ok` is the
//! correctness statement a transcript carries — replaying it on a live tree
//! that shows the old content leaves one that shows the new content.

use vstd::prelude::*;
use crate::assoc::{
    assoc_find, assoc_map, keys_unique, kvs_view, lemma_assoc_contains, lemma_assoc_index,
    lemma_sweep_bridge, lemma_sweep_done, lemma_sweep_new_insert, lemma_sweep_new_skip,
    lemma_sweep_old_remove, lemma_sweep_old_skip, sweep_new_inv, sweep_old_inv,
};
use crate::tree::{
    as_element, child_keys_unique, content_eq, key_of, lemma_node_eq_content, lemma_node_eq_key,
    node_eq, node_key, node_wf, EventBinding, Node,
};

verus! {

/// One edit of an attribute or style map.
pub enum AttrPatch {
    /// The name is new: bind it.
    Insert { name: String, value: String },
    /// The name is present with another value: rebind it.
    Update { name: String, value: String },
    /// The name is gone: drop it.
    Remove { name: String },
}

/// One edit of a listener table. A changed handler identity is expressed as
/// a detach of exactly the old listener followed by an attach of the new
/// one; an unchanged identity produces no edit.
pub enum ListenerPatch {
    Attach { event: String, handler: u64 },
    Detach { event: String, handler: u64 },
}

/// One step of child reconciliation. The first `new_len` operations place
/// the new children in order: the operation at index `i` says where the
/// child at new position `i` comes from. The remaining operations remove
/// the old children that were never matched.
pub enum ChildOp {
    /// The old child at this same position is patched in place.
    Patched { patch: Patch },
    /// The old child at position `from` is relocated here and patched:
    /// the live node is reused, never recreated.
    Moved { from: usize, patch: Patch },
    /// No old child matches: a fresh subtree is built from `node`.
    Inserted { node: Node },
    /// The old child at position `from` was never matched: it is removed.
    Removed { from: usize },
}

/// A patch between two trees.
pub enum Patch {
    /// The trees show the same content: replaying this performs no
    /// primitive operation at all.
    NoOp,
    /// The node kind or tag differs: the live node is discarded and a
    /// fresh subtree is built from the stored node.
    Replace(Node),
    /// Both are text nodes: the payload is rewritten.
    UpdateText(String),
    /// Both are elements with the same tag: maps are edited and children
    /// are reconciled.
    UpdateElement {
        attr_patches: Vec<AttrPatch>,
        style_patches: Vec<AttrPatch>,
        listener_patches: Vec<ListenerPatch>,
        child_ops: Vec<ChildOp>,
    },
}

/// The map left after one attribute edit.
pub open spec fn attr_edit_apply(
    m: Map<Seq<char>, Seq<char>>,
    p: AttrPatch,
) -> Map<Seq<char>, Seq<char>> {
    match p {
        AttrPatch::Insert { name, value } => m.insert(name@, value@),
        AttrPatch::Update { name, value } => m.insert(name@, value@),
        AttrPatch::Remove { name } => m.remove(name@),
    }
}

/// The map left after a sequence of attribute edits, applied left to right.
pub open spec fn attr_edits_apply(
    m: Map<Seq<char>, Seq<char>>,
    ps: Seq<AttrPatch>,
) -> Map<Seq<char>, Seq<char>>
    decreases ps.len(),
{
    if ps.len() == 0 {
        m
    } else {
        attr_edit_apply(attr_edits_apply(m, ps.drop_last()), ps.last())
    }
}

/// The table left after one listener edit.
pub open spec fn listener_edit_apply(m: Map<Seq<char>, u64>, p: ListenerPatch) -> Map<
    Seq<char>,
    u64,
> {
    match p {
        ListenerPatch::Attach { event, handler } => m.insert(event@, handler),
        ListenerPatch::Detach { event, handler } => m.remove(event@),
    }
}

/// The table left after a sequence of listener edits, applied left to right.
pub open spec fn listener_edits_apply(m: Map<Seq<char>, u64>, ps: Seq<ListenerPatch>) -> Map<
    Seq<char>,
    u64,
>
    decreases ps.len(),
{
    if ps.len() == 0 {
        m
    } else {
        listener_edit_apply(listener_edits_apply(m, ps.drop_last()), ps.last())
    }
}

/// The old position a child operation draws on, if any.
pub open spec fn op_src(ops: Seq<ChildOp>, i: int) -> Option<int> {
    match ops[i] {
        ChildOp::Patched { .. } => Some(i),
        ChildOp::Moved { from, .. } => Some(from as int),
        ChildOp::Inserted { .. } => None::<int>,
        ChildOp::Removed { from } => Some(from as int),
    }
}

/// Whether the operation at index `i` correctly places the child at new
/// position `i`.
pub open spec fn placement_ok(oldc: Seq<Node>, newc: Seq<Node>, ops: Seq<ChildOp>, i: int) -> bool
    decreases ops[i],
{
    match ops[i] {
        ChildOp::Patched { patch } => i < oldc.len() && patch_ok(oldc[i], newc[i], patch),
        ChildOp::Moved { from, patch } => from < oldc.len() && patch_ok(
            oldc[from as int],
            newc[i],
            patch,
        ),
        ChildOp::Inserted { node } => node_wf(node) && content_eq(newc[i], node),
        ChildOp::Removed { .. } => false,
    }
}

/// Whether a child-operation list is a correct reconciliation transcript
/// from `oldc` to `newc`: one placement per new position, then removals of
/// the unmatched old positions, no old position drawn on twice.
pub open spec fn child_ops_ok(oldc: Seq<Node>, newc: Seq<Node>, ops: Seq<ChildOp>) -> bool
    decreases ops,
{
    &&& ops.len() >= newc.len()
    &&& forall|i: int|
        0 <= i < newc.len() ==> placement_ok(oldc, newc, ops, i) && (#[trigger] ops[i]) == ops[i]
    &&& forall|i: int|
        newc.len() <= i < ops.len() ==> ((#[trigger] ops[i]) matches ChildOp::Removed { from }
            && from < oldc.len())
    &&& forall|i: int, j: int|
        0 <= i < j < ops.len() && op_src(ops, i) is Some ==> op_src(ops, i) != op_src(ops, j)
}

/// Whether replaying a child operation can create live nodes: an
/// insertion always does, a removal never, and an in-place patch or a
/// move exactly when its own patch does.
pub open spec fn child_op_creates(op: ChildOp) -> bool
    decreases op,
{
    match op {
        ChildOp::Patched { patch } => patch_creates(patch),
        ChildOp::Moved { patch, .. } => patch_creates(patch),
        ChildOp::Inserted { .. } => true,
        ChildOp::Removed { .. } => false,
    }
}

/// Whether replaying a patch can create live nodes: a replacement or an
/// insertion anywhere within it, and nothing else.
pub open spec fn patch_creates(p: Patch) -> bool
    decreases p,
{
    match p {
        Patch::NoOp => false,
        Patch::Replace(_) => true,
        Patch::UpdateText(_) => false,
        Patch::UpdateElement { child_ops, .. } => exists|i: int|
            0 <= i < child_ops@.len() && child_op_creates(#[trigger] child_ops@[i]),
    }
}

/// Whether a patch is a correct transcript from `old` to `new`.
pub open spec fn patch_ok(old: Node, new: Node, p: Patch) -> bool
    decreases p,
{
    match p {
        Patch::NoOp => content_eq(old, new),
        Patch::Replace(n) => node_wf(n) && content_eq(new, n),
        Patch::UpdateText(s) => old is Text && match new {
            Node::Text(t) => t@ == s@,
            _ => false,
        },
        Patch::UpdateElement { attr_patches, style_patches, listener_patches, child_ops } => {
            match old {
                Node::Element(o) => match new {
                    Node::Element(n) => {
                        &&& o.tag@ == n.tag@
                        &&& attr_edits_apply(assoc_map(kvs_view(o.attrs@)), attr_patches@)
                            == assoc_map(kvs_view(n.attrs@))
                        &&& attr_edits_apply(assoc_map(kvs_view(o.styles@)), style_patches@)
                            == assoc_map(kvs_view(n.styles@))
                        &&& listener_edits_apply(
                            assoc_map(kvs_view(o.listeners@)),
                            listener_patches@,
                        ) == assoc_map(kvs_view(n.listeners@))
                        &&& child_ops_ok(o.children@, n.children@, child_ops@)
                    },
                    _ => false,
                },
                _ => false,
            }
        },
    }
}

/// Pairwise full equality of two child lists.
pub open spec fn seqs_node_eq(a: Seq<Node>, b: Seq<Node>) -> bool {
    a.len() == b.len() && forall|i: int| 0 <= i < a.len() ==> node_eq(#[trigger] a[i], b[i])
}

/// Whether every operation is an in-place patch that does nothing.
pub open spec fn trivial_ops(ops: Seq<ChildOp>) -> bool {
    forall|i: int|
        0 <= i < ops.len() ==> (#[trigger] ops[i]) matches ChildOp::Patched { patch: Patch::NoOp }
}

/// Computes the attribute (or style) edits between two maps: an insert for
/// each name only in `n`, a removal for each name only in `o`, a rebind for
/// each name in both whose values differ. No difference, no edit.
fn diff_attrs(o: &Vec<(String, String)>, n: &Vec<(String, String)>) -> (ps: Vec<AttrPatch>)
    requires
        keys_unique(kvs_view(o@)),
        keys_unique(kvs_view(n@)),
    ensures
        attr_edits_apply(assoc_map(kvs_view(o@)), ps@) == assoc_map(kvs_view(n@)),
        assoc_map(kvs_view(o@)) == assoc_map(kvs_view(n@)) ==> ps@.len() == 0,
{
    let ghost om = assoc_map(kvs_view(o@));
    let ghost nm = assoc_map(kvs_view(n@));
    let mut ps: Vec<AttrPatch> = Vec::new();
    let mut i: usize = 0;
    while i < n.len()
        invariant
            keys_unique(kvs_view(o@)),
            keys_unique(kvs_view(n@)),
            om == assoc_map(kvs_view(o@)),
            nm == assoc_map(kvs_view(n@)),
            i <= n@.len(),
            om == nm ==> ps@.len() == 0,
            sweep_new_inv(om, nm, kvs_view(n@), attr_edits_apply(om, ps@), i as int),
        decreases n@.len() - i,
    {
        let ghost cur = attr_edits_apply(om, ps@);
        let entry = &n[i];
        proof {
            lemma_assoc_index(kvs_view(n@), i as int);
        }
        let found = assoc_find(o, &entry.0);
        match found {
            Some(oi) => {
                proof {
                    lemma_assoc_index(kvs_view(o@), oi as int);
                }
                if !o[oi].1.eq(&entry.1) {
                    let ghost ps0 = ps@;
                    ps.push(AttrPatch::Update { name: entry.0.clone(), value: entry.1.clone() });
                    proof {
                        assert(ps@.drop_last() =~= ps0);
                        assert(attr_edits_apply(om, ps@) == cur.insert(entry.0@, entry.1@));
                        lemma_sweep_new_insert(om, nm, kvs_view(n@), cur, attr_edits_apply(om, ps@), i as int);
                        assert(om[entry.0@] != nm[entry.0@]);
                    }
                } else {
                    proof {
                        lemma_sweep_new_skip(om, nm, kvs_view(n@), cur, i as int);
                    }
                }
            },
            None => {
                proof {
                    lemma_assoc_contains(kvs_view(o@), entry.0@);
                }
                let ghost ps0 = ps@;
                ps.push(AttrPatch::Insert { name: entry.0.clone(), value: entry.1.clone() });
                proof {
                    assert(ps@.drop_last() =~= ps0);
                    assert(attr_edits_apply(om, ps@) == cur.insert(entry.0@, entry.1@));
                    lemma_sweep_new_insert(om, nm, kvs_view(n@), cur, attr_edits_apply(om, ps@), i as int);
                    assert(!om.contains_key(entry.0@) && nm.contains_key(entry.0@));
                }
            },
        }
        i = i + 1;
    }
    proof {
        lemma_sweep_bridge(om, nm, kvs_view(n@), kvs_view(o@), attr_edits_apply(om, ps@));
    }
    let mut j: usize = 0;
    while j < o.len()
        invariant
            keys_unique(kvs_view(o@)),
            keys_unique(kvs_view(n@)),
            om == assoc_map(kvs_view(o@)),
            nm == assoc_map(kvs_view(n@)),
            j <= o@.len(),
            om == nm ==> ps@.len() == 0,
            sweep_old_inv(om, nm, kvs_view(o@), attr_edits_apply(om, ps@), j as int),
        decreases o@.len() - j,
    {
        let ghost cur = attr_edits_apply(om, ps@);
        let entry = &o[j];
        let found = assoc_find(n, &entry.0);
        if found.is_none() {
            proof {
                lemma_assoc_contains(kvs_view(n@), entry.0@);
                lemma_assoc_index(kvs_view(o@), j as int);
            }
            let ghost ps0 = ps@;
            ps.push(AttrPatch::Remove { name: entry.0.clone() });
            proof {
                assert(ps@.drop_last() =~= ps0);
                assert(attr_edits_apply(om, ps@) == cur.remove(entry.0@));
                lemma_sweep_old_remove(om, nm, kvs_view(o@), cur, attr_edits_apply(om, ps@), j as int);
                assert(om.contains_key(entry.0@) && !nm.contains_key(entry.0@));
            }
        } else {
            proof {
                let ni = found.unwrap();
                assert(kvs_view(n@)[ni as int].0 == entry.0@);
                lemma_assoc_contains(kvs_view(n@), entry.0@);
                lemma_sweep_old_skip(om, nm, kvs_view(o@), cur, j as int);
            }
        }
        j = j + 1;
    }
    proof {
        lemma_sweep_done(om, nm, kvs_view(o@), attr_edits_apply(om, ps@));
    }
    ps
}

/// Computes the listener edits between two tables: an attach for each new
/// event, a detach for each gone event, and a detach of exactly the old
/// listener followed by an attach of the new one where the handler identity
/// changed. An unchanged identity produces no edit.
fn diff_listeners(o: &Vec<EventBinding>, n: &Vec<EventBinding>) -> (ps: Vec<ListenerPatch>)
    requires
        keys_unique(kvs_view(o@)),
        keys_unique(kvs_view(n@)),
    ensures
        listener_edits_apply(assoc_map(kvs_view(o@)), ps@) == assoc_map(kvs_view(n@)),
        assoc_map(kvs_view(o@)) == assoc_map(kvs_view(n@)) ==> ps@.len() == 0,
{
    let ghost om = assoc_map(kvs_view(o@));
    let ghost nm = assoc_map(kvs_view(n@));
    let mut ps: Vec<ListenerPatch> = Vec::new();
    let mut i: usize = 0;
    while i < n.len()
        invariant
            keys_unique(kvs_view(o@)),
            keys_unique(kvs_view(n@)),
            om == assoc_map(kvs_view(o@)),
            nm == assoc_map(kvs_view(n@)),
            i <= n@.len(),
            om == nm ==> ps@.len() == 0,
            sweep_new_inv(om, nm, kvs_view(n@), listener_edits_apply(om, ps@), i as int),
        decreases n@.len() - i,
    {
        let ghost cur = listener_edits_apply(om, ps@);
        let entry = &n[i];
        proof {
            lemma_assoc_index(kvs_view(n@), i as int);
        }
        let found = assoc_find(o, &entry.0);
        match found {
            Some(oi) => {
                proof {
                    lemma_assoc_index(kvs_view(o@), oi as int);
                }
                let old_handler = o[oi].1;
                if old_handler != entry.1 {
                    let ghost ps0 = ps@;
                    ps.push(ListenerPatch::Detach { event: entry.0.clone(), handler: old_handler });
                    proof {
                        assert(ps@.drop_last() =~= ps0);
                        assert(listener_edits_apply(om, ps@) == cur.remove(entry.0@));
                    }
                    let ghost mid = listener_edits_apply(om, ps@);
                    let ghost ps0 = ps@;
                    ps.push(ListenerPatch::Attach { event: entry.0.clone(), handler: entry.1 });
                    proof {
                        assert(ps@.drop_last() =~= ps0);
                        assert(listener_edits_apply(om, ps@) == mid.insert(entry.0@, entry.1));
                        assert(listener_edits_apply(om, ps@) =~= cur.insert(entry.0@, entry.1));
                        lemma_sweep_new_insert(om, nm, kvs_view(n@), cur, listener_edits_apply(om, ps@), i as int);
                        assert(om[entry.0@] != nm[entry.0@]);
                    }
                } else {
                    proof {
                        lemma_sweep_new_skip(om, nm, kvs_view(n@), cur, i as int);
                    }
                }
            },
            None => {
                proof {
                    lemma_assoc_contains(kvs_view(o@), entry.0@);
                }
                let ghost ps0 = ps@;
                ps.push(ListenerPatch::Attach { event: entry.0.clone(), handler: entry.1 });
                proof {
                    assert(ps@.drop_last() =~= ps0);
                    assert(listener_edits_apply(om, ps@) == cur.insert(entry.0@, entry.1));
                    lemma_sweep_new_insert(om, nm, kvs_view(n@), cur, listener_edits_apply(om, ps@), i as int);
                    assert(!om.contains_key(entry.0@) && nm.contains_key(entry.0@));
                }
            },
        }
        i = i + 1;
    }
    proof {
        lemma_sweep_bridge(om, nm, kvs_view(n@), kvs_view(o@), listener_edits_apply(om, ps@));
    }
    let mut j: usize = 0;
    while j < o.len()
        invariant
            keys_unique(kvs_view(o@)),
            keys_unique(kvs_view(n@)),
            om == assoc_map(kvs_view(o@)),
            nm == assoc_map(kvs_view(n@)),
            j <= o@.len(),
            om == nm ==> ps@.len() == 0,
            sweep_old_inv(om, nm, kvs_view(o@), listener_edits_apply(om, ps@), j as int),
        decreases o@.len() - j,
    {
        let ghost cur = listener_edits_apply(om, ps@);
        let entry = &o[j];
        let found = assoc_find(n, &entry.0);
        if found.is_none() {
            proof {
                lemma_assoc_contains(kvs_view(n@), entry.0@);
                lemma_assoc_index(kvs_view(o@), j as int);
            }
            let ghost ps0 = ps@;
            ps.push(ListenerPatch::Detach { event: entry.0.clone(), handler: entry.1 });
            proof {
                assert(ps@.drop_last() =~= ps0);
                assert(listener_edits_apply(om, ps@) == cur.remove(entry.0@));
                lemma_sweep_old_remove(om, nm, kvs_view(o@), cur, listener_edits_apply(om, ps@), j as int);
                assert(om.contains_key(entry.0@) && !nm.contains_key(entry.0@));
            }
        } else {
            proof {
                let ni = found.unwrap();
                assert(kvs_view(n@)[ni as int].0 == entry.0@);
                lemma_assoc_contains(kvs_view(n@), entry.0@);
                lemma_sweep_old_skip(om, nm, kvs_view(o@), cur, j as int);
            }
        }
        j = j + 1;
    }
    proof {
        lemma_sweep_done(om, nm, kvs_view(o@), listener_edits_apply(om, ps@));
    }
    ps
}

/// Whether a new child list claims the old child at `j` by key: the old
/// child is keyed, and some new child carries the same key.
pub open spec fn keyed_taken(oldc: Seq<Node>, newc: Seq<Node>, j: int) -> bool {
    &&& node_key(oldc[j]) is Some
    &&& exists|i: int| 0 <= i < newc.len() && node_key(#[trigger] newc[i]) == node_key(oldc[j])
}

/// Whether the new child at `i` falls back to positional matching: it
/// carries no key, or no old child carries its key.
pub open spec fn positional_fallback(oldc: Seq<Node>, newc: Seq<Node>, i: int) -> bool {
    node_key(newc[i]) is None || (forall|j: int|
        0 <= j < oldc.len() ==> node_key(#[trigger] oldc[j]) != node_key(newc[i]))
}

/// The matching policy over a reconciliation transcript: a keyed new
/// child whose key an old child carries is matched to exactly that old
/// child — patched in place when the position is unchanged, moved when it
/// differs, never recreated — and a fallback child is patched against the
/// old child at its own position when one is there and unclaimed by key,
/// and is a fresh insertion otherwise.
pub open spec fn keyed_policy_ok(oldc: Seq<Node>, newc: Seq<Node>, ops: Seq<ChildOp>) -> bool {
    &&& forall|i: int|
        #![trigger ops[i]]
        0 <= i < newc.len() && node_key(newc[i]) is Some && !positional_fallback(
            oldc,
            newc,
            i,
        ) ==> match ops[i] {
            ChildOp::Patched { .. } => i < oldc.len() && node_key(oldc[i]) == node_key(newc[i]),
            ChildOp::Moved { from, .. } => from != i && from < oldc.len() && node_key(
                oldc[from as int],
            ) == node_key(newc[i]),
            _ => false,
        }
    &&& forall|i: int|
        #![trigger ops[i]]
        0 <= i < newc.len() && positional_fallback(oldc, newc, i) ==> if i < oldc.len()
            && !keyed_taken(oldc, newc, i) {
            ops[i] is Patched
        } else {
            ops[i] is Inserted
        }
}

/// Whether the claim list maps new position `p` to old position `j`.
spec fn claims(matched: Seq<Option<usize>>, p: int, j: int) -> bool {
    matched[p] matches Some(jj) && jj as int == j
}

/// Finds the old child carrying key `k`, if any.
fn find_keyed(oldc: &Vec<Node>, k: u64) -> (r: Option<usize>)
    ensures
        match r {
            Some(j) => j < oldc@.len() && node_key(oldc@[j as int]) == Some(k),
            None => forall|j: int| 0 <= j < oldc@.len() ==> node_key(#[trigger] oldc@[j]) != Some(k),
        },
{
    let mut j: usize = 0;
    while j < oldc.len()
        invariant
            j <= oldc@.len(),
            forall|p: int| 0 <= p < j ==> node_key(#[trigger] oldc@[p]) != Some(k),
        decreases oldc@.len() - j,
    {
        if let Some(kj) = key_of(&oldc[j]) {
            if kj == k {
                return Some(j);
            }
        }
        j = j + 1;
    }
    None
}

/// Whether every operation is an in-place patch that does nothing.
fn ops_trivial(ops: &Vec<ChildOp>) -> (r: bool)
    ensures
        r == trivial_ops(ops@),
{
    let mut i: usize = 0;
    while i < ops.len()
        invariant
            i <= ops@.len(),
            forall|j: int|
                0 <= j < i ==> (#[trigger] ops@[j]) matches ChildOp::Patched {
                    patch: Patch::NoOp,
                },
        decreases ops@.len() - i,
    {
        let is_trivial = matches!(&ops[i], ChildOp::Patched { patch: Patch::NoOp });
        if !is_trivial {
            return false;
        }
        i = i + 1;
    }
    true
}

/// Reconciles two child lists: children are compared positionally, but a
/// keyed child is matched to the old child carrying the same key wherever
/// it stood, and relocation is recorded as a move, never as a removal plus
/// an insertion. A placeholder occupies exactly one position, like any
/// other node kind. Old children never matched become removals.
fn diff_children(oldc: &Vec<Node>, newc: &Vec<Node>) -> (ops: Vec<ChildOp>)
    requires
        forall|i: int| 0 <= i < oldc@.len() ==> node_wf(#[trigger] oldc@[i]),
        forall|i: int| 0 <= i < newc@.len() ==> node_wf(#[trigger] newc@[i]),
        child_keys_unique(oldc@),
        child_keys_unique(newc@),
    ensures
        child_ops_ok(oldc@, newc@, ops@),
        keyed_policy_ok(oldc@, newc@, ops@),
        seqs_node_eq(oldc@, newc@) ==> ops@.len() == newc@.len() && trivial_ops(ops@),
    decreases newc@,
{
    let mut consumed: Vec<bool> = Vec::new();
    let mut c: usize = 0;
    while c < oldc.len()
        invariant
            c <= oldc@.len(),
            consumed@.len() == c,
            forall|j: int| 0 <= j < c ==> !(#[trigger] consumed@[j]),
        decreases oldc@.len() - c,
    {
        consumed.push(false);
        c = c + 1;
    }
    // first pass: every keyed new child claims the old child with its key
    let mut matched: Vec<Option<usize>> = Vec::new();
    let mut a: usize = 0;
    while a < newc.len()
        invariant
            child_keys_unique(oldc@),
            child_keys_unique(newc@),
            a <= newc@.len(),
            matched@.len() == a,
            consumed@.len() == oldc@.len(),
            forall|p: int|
                0 <= p < a ==> match #[trigger] matched@[p] {
                    Some(j) => 0 <= j < oldc@.len() && node_key(newc@[p]) is Some && node_key(
                        oldc@[j as int],
                    ) == node_key(newc@[p]),
                    None => positional_fallback(oldc@, newc@, p),
                },
            forall|j: int|
                0 <= j < oldc@.len() ==> ((#[trigger] consumed@[j]) <==> exists|p: int|
                    0 <= p < a && claims(matched@, p, j)),
            seqs_node_eq(oldc@, newc@) ==> forall|p: int|
                0 <= p < a ==> (#[trigger] matched@[p]) == (if node_key(newc@[p]) is Some {
                    Some(p as usize)
                } else {
                    None::<usize>
                }),
        decreases newc@.len() - a,
    {
        proof {
            if seqs_node_eq(oldc@, newc@) {
                lemma_node_eq_key(oldc@[a as int], newc@[a as int]);
            }
        }
        let ghost consumed0 = consumed@;
        let ghost matched0 = matched@;
        let nk = key_of(&newc[a]);
        let mut m: Option<usize> = None;
        if let Some(k) = nk {
            if let Some(j) = find_keyed(oldc, k) {
                m = Some(j);
                consumed[j] = true;
            }
        }
        matched.push(m);
        proof {
            assert forall|j: int|
                0 <= j < oldc@.len() implies ((#[trigger] consumed@[j]) <==> exists|p: int| 0 <= p < a + 1 && #[trigger] claims(matched@, p, j)) by {
                if consumed@[j] {
                    if consumed0[j] {
                        let p = choose|p: int| 0 <= p < a && claims(matched0, p, j);
                        assert(claims(matched@, p, j));
                    } else {
                        assert(claims(matched@, a as int, j));
                    }
                } else {
                    assert(!consumed0[j]);
                    if exists|p: int| 0 <= p < a + 1 && claims(matched@, p, j) {
                        let p = choose|p: int|
                            0 <= p < a + 1 && claims(matched@, p, j);
                        if p < a {
                            assert(claims(matched0, p, j));
                        } else {
                            assert(matched@[a as int] == m);
                            match m {
                                Some(j2) => {
                                    assert(j2 as int == j);
                                    assert(consumed@[j2 as int]);
                                },
                                None => {},
                            }
                        }
                        assert(false);
                    }
                }
            }
        }
        a = a + 1;
    }
    // second pass: claimed children are patched or moved to their new
    // position; the rest match positionally or are inserted fresh
    let mut ops: Vec<ChildOp> = Vec::new();
    let mut i: usize = 0;
    while i < newc.len()
        invariant
            forall|p: int| 0 <= p < oldc@.len() ==> node_wf(#[trigger] oldc@[p]),
            forall|p: int| 0 <= p < newc@.len() ==> node_wf(#[trigger] newc@[p]),
            child_keys_unique(oldc@),
            child_keys_unique(newc@),
            i <= newc@.len(),
            matched@.len() == newc@.len(),
            consumed@.len() == oldc@.len(),
            ops@.len() == i,
            forall|p: int|
                0 <= p < newc@.len() ==> match #[trigger] matched@[p] {
                    Some(j) => 0 <= j < oldc@.len() && node_key(newc@[p]) is Some && node_key(
                        oldc@[j as int],
                    ) == node_key(newc@[p]),
                    None => positional_fallback(oldc@, newc@, p),
                },
            forall|j: int|
                0 <= j < oldc@.len() ==> ((#[trigger] consumed@[j]) <==> (exists|p: int|
                    0 <= p < newc@.len() && claims(matched@, p, j)) || (j < i
                    && positional_fallback(oldc@, newc@, j) && !(exists|p: int|
                    0 <= p < newc@.len() && claims(matched@, p, j)))),
            forall|idx: int|
                0 <= idx < i ==> placement_ok(oldc@, newc@, ops@, idx) && (#[trigger] ops@[idx])
                    == ops@[idx],
            forall|idx: int|
                #![trigger op_src(ops@, idx)]
                0 <= idx < i ==> match op_src(ops@, idx) {
                    Some(j) => 0 <= j < oldc@.len() && consumed@[j],
                    None => true,
                },
            forall|a2: int, b2: int|
                0 <= a2 < b2 < i && op_src(ops@, a2) is Some ==> op_src(ops@, a2) != op_src(
                    ops@,
                    b2,
                ),
            forall|idx: int|
                #![trigger ops@[idx]]
                0 <= idx < i && node_key(newc@[idx]) is Some && !positional_fallback(
                    oldc@,
                    newc@,
                    idx,
                ) ==> match ops@[idx] {
                    ChildOp::Patched { .. } => idx < oldc@.len() && node_key(oldc@[idx])
                        == node_key(newc@[idx]),
                    ChildOp::Moved { from, .. } => from != idx && from < oldc@.len() && node_key(
                        oldc@[from as int],
                    ) == node_key(newc@[idx]),
                    _ => false,
                },
            forall|idx: int|
                #![trigger ops@[idx]]
                0 <= idx < i && positional_fallback(oldc@, newc@, idx) ==> if idx < oldc@.len()
                    && !keyed_taken(oldc@, newc@, idx) {
                    ops@[idx] is Patched
                } else {
                    ops@[idx] is Inserted
                },
            seqs_node_eq(oldc@, newc@) ==> (trivial_ops(ops@) && forall|p: int|
                0 <= p < newc@.len() ==> (#[trigger] matched@[p]) == (if node_key(
                    newc@[p],
                ) is Some {
                    Some(p as usize)
                } else {
                    None::<usize>
                })),
        decreases newc@.len() - i,
    {
        proof {
            // a claimed old child is exactly one some new child claims by key
            assert forall|j: int|
                0 <= j < oldc@.len() && (exists|p: int|
                    0 <= p < newc@.len() && #[trigger] claims(matched@, p, j))
                implies keyed_taken(oldc@, newc@, j) by {
                let p = choose|p: int| 0 <= p < newc@.len() && claims(matched@, p, j);
                let jj = matched@[p]->0;
                assert(jj as int == j);
                assert(node_key(oldc@[jj as int]) == node_key(newc@[p]));
                assert(node_key(#[trigger] newc@[p]) == node_key(oldc@[j]));
            }
            assert forall|j: int|
                0 <= j < oldc@.len() && keyed_taken(oldc@, newc@, j) implies (exists|p: int|
                    0 <= p < newc@.len() && #[trigger] claims(matched@, p, j)) by {
                let p = choose|p: int|
                    0 <= p < newc@.len() && node_key(#[trigger] newc@[p]) == node_key(oldc@[j]);
                assert(!positional_fallback(oldc@, newc@, p));
                match matched@[p] {
                    Some(j2) => {
                        assert(0 <= (j2 as int) && (j2 as int) < oldc@.len());
                        assert(node_key(oldc@[j2 as int]) == node_key(oldc@[j]));
                        if j2 as int != j {
                            if (j2 as int) < j {
                                assert(node_key(oldc@[j2 as int]) != node_key(oldc@[j]));
                            } else {
                                assert(node_key(oldc@[j]) != node_key(oldc@[j2 as int]));
                            }
                        }
                        assert(j2 as int == j);
                        assert(claims(matched@, p, j));
                    },
                    None => {
                        assert(false);
                    },
                }
            }
            if seqs_node_eq(oldc@, newc@) {
                lemma_node_eq_key(oldc@[i as int], newc@[i as int]);
            }
        }
        let ghost ops0 = ops@;
        let ghost consumed0 = consumed@;
        let claim = matched[i];
        match claim {
            Some(j) => {
                let p = diff(&oldc[j], &newc[i]);
                if j == i {
                    ops.push(ChildOp::Patched { patch: p });
                } else {
                    ops.push(ChildOp::Moved { from: j, patch: p });
                }
                proof {
                    assert(op_src(ops@, i as int) == Some(j as int));
                    assert(claims(matched@, i as int, j as int));
                    assert(consumed@[j as int]);
                    assert(!positional_fallback(oldc@, newc@, i as int));
                }
            },
            None => {
                if i < oldc.len() && !consumed[i] {
                    consumed[i] = true;
                    let p = diff(&oldc[i], &newc[i]);
                    ops.push(ChildOp::Patched { patch: p });
                    proof {
                        assert(consumed@ =~= consumed0.update(i as int, true));
                        assert(op_src(ops@, i as int) == Some(i as int));
                        assert(!consumed0[i as int]);
                        assert(!keyed_taken(oldc@, newc@, i as int));
                    }
                } else {
                    let n2 = newc[i].clone();
                    proof {
                        lemma_node_eq_content(newc@[i as int], n2);
                    }
                    ops.push(ChildOp::Inserted { node: n2 });
                    proof {
                        assert(consumed@ =~= consumed0);
                        assert(op_src(ops@, i as int) is None);
                    }
                }
            },
        }
        proof {
            assert(ops@.len() == i + 1);
            assert(match op_src(ops@, i as int) {
                Some(jb) => 0 <= jb < oldc@.len() && consumed@[jb],
                None => true,
            });
            assert(forall|j: int|
                0 <= j < oldc@.len() && consumed0[j] ==> #[trigger] consumed@[j]);
            assert forall|idx: int| 0 <= idx < i + 1 implies placement_ok(oldc@, newc@, ops@, idx)
                && (#[trigger] ops@[idx]) == ops@[idx] by {
                if idx < i {
                    assert(ops@[idx] == ops0[idx]);
                    assert(placement_ok(oldc@, newc@, ops0, idx));
                }
            }
            assert forall|idx: int|
                #![trigger op_src(ops@, idx)]
                0 <= idx < i + 1 implies match op_src(ops@, idx) {
                Some(j) => 0 <= j < oldc@.len() && consumed@[j],
                None => true,
            } by {
                if idx < i {
                    assert(ops@[idx] == ops0[idx]);
                    assert(op_src(ops@, idx) == op_src(ops0, idx));
                    assert(match op_src(ops0, idx) {
                        Some(j) => 0 <= j < oldc@.len() && consumed0[j],
                        None => true,
                    });
                }
            }
            assert forall|a2: int, b2: int|
                0 <= a2 < b2 < i + 1 && op_src(ops@, a2) is Some implies op_src(ops@, a2)
                    != op_src(ops@, b2) by {
                assert(ops@[a2] == ops0[a2]);
                assert(op_src(ops@, a2) == op_src(ops0, a2));
                if b2 < i {
                    assert(ops@[b2] == ops0[b2]);
                    assert(op_src(ops@, b2) == op_src(ops0, b2));
                } else {
                    // the sources of earlier operations were consumed before
                    // this step began; this step's source was not, or is a
                    // keyed claim no other operation shares
                    assert(match op_src(ops0, a2) {
                        Some(j) => 0 <= j < oldc@.len() && consumed0[j],
                        None => true,
                    });
                    if op_src(ops@, b2) is Some {
                        let jb = op_src(ops@, b2)->0;
                        let ja = op_src(ops@, a2)->0;
                        if ja == jb {
                            // a keyed claim: the earlier op with the same
                            // source must also be a keyed claim of the same
                            // old child, which claims a unique new position
                            assert(consumed0[jb]);
                            match claim {
                                Some(j) => {
                                    let pa = op_src(ops0, a2);
                                    // the earlier source was consumed in the
                                    // first pass or positionally at a2
                                    assert(false) by {
                                        if matched@[a2] is Some {
                                            assert(claims(matched@, a2, jb));
                                            assert(claims(matched@, i as int, jb));
                                            assert(node_key(newc@[a2]) == node_key(
                                                oldc@[jb as int],
                                            ));
                                            assert(node_key(newc@[i as int]) == node_key(
                                                oldc@[jb as int],
                                            ));
                                        } else {
                                            // positional: a2 == ja == jb, and
                                            // jb is claimed by the first pass
                                            assert(op_src(ops0, a2) == Some(a2));
                                            assert(positional_fallback(oldc@, newc@, a2));
                                            assert(ops0[a2] is Patched);
                                            assert(!keyed_taken(oldc@, newc@, a2));
                                            assert(claims(matched@, i as int, jb));
                                            assert(keyed_taken(oldc@, newc@, jb as int));
                                        }
                                    }
                                },
                                None => {
                                    assert(!consumed0[jb]);
                                },
                            }
                        }
                    }
                }
            }
            if seqs_node_eq(oldc@, newc@) {
                assert(node_eq(oldc@[i as int], newc@[i as int]));
                assert forall|idx: int| 0 <= idx < ops@.len() implies (#[trigger] ops@[idx])
                    matches ChildOp::Patched { patch: Patch::NoOp } by {
                    if idx < i {
                        assert(ops@[idx] == ops0[idx]);
                    }
                }
            }
        }
        i = i + 1;
    }
    proof {
        if seqs_node_eq(oldc@, newc@) {
            assert forall|j: int| 0 <= j < oldc@.len() implies #[trigger] consumed@[j] by {
                lemma_node_eq_key(oldc@[j], newc@[j]);
                if node_key(newc@[j]) is Some {
                    assert(claims(matched@, j, j));
                } else {
                    assert(positional_fallback(oldc@, newc@, j));
                    if exists|p: int|
                        0 <= p < newc@.len() && #[trigger] claims(matched@, p, j) {
                        let p = choose|p: int|
                            0 <= p < newc@.len() && claims(matched@, p, j);
                        if node_key(newc@[p]) is Some {
                            assert(matched@[p] == Some(p as usize));
                            assert(p == j);
                        }
                        assert(false);
                    }
                }
            }
        }
    }
    let mut r: usize = 0;
    while r < oldc.len()
        invariant
            r <= oldc@.len(),
            consumed@.len() == oldc@.len(),
            matched@.len() == newc@.len(),
            newc@.len() <= ops@.len(),
            forall|idx: int|
                0 <= idx < newc@.len() ==> placement_ok(oldc@, newc@, ops@, idx) && (
                #[trigger] ops@[idx]) == ops@[idx],
            forall|idx: int|
                #![trigger op_src(ops@, idx)]
                0 <= idx < newc@.len() ==> match op_src(ops@, idx) {
                    Some(j) => 0 <= j < oldc@.len() && consumed@[j],
                    None => true,
                },
            forall|a2: int, b2: int|
                0 <= a2 < b2 < newc@.len() && op_src(ops@, a2) is Some ==> op_src(ops@, a2)
                    != op_src(ops@, b2),
            keyed_policy_ok(oldc@, newc@, ops@),
            forall|idx: int|
                newc@.len() <= idx < ops@.len() ==> ((#[trigger] ops@[idx]) matches
                    ChildOp::Removed { from } && from < r && !consumed@[from as int]),
            forall|a2: int, b2: int|
                newc@.len() <= a2 < b2 < ops@.len() ==> op_src(ops@, a2) != op_src(ops@, b2),
            seqs_node_eq(oldc@, newc@) ==> (ops@.len() == newc@.len() && trivial_ops(ops@)
                && forall|j: int| 0 <= j < oldc@.len() ==> (#[trigger] consumed@[j])),
        decreases oldc@.len() - r,
    {
        let ghost ops0 = ops@;
        if !consumed[r] {
            ops.push(ChildOp::Removed { from: r });
        }
        proof {
            assert forall|idx: int| 0 <= idx < newc@.len() implies placement_ok(
                oldc@,
                newc@,
                ops@,
                idx,
            ) && (#[trigger] ops@[idx]) == ops@[idx] by {
                assert(ops@[idx] == ops0[idx]);
                assert(placement_ok(oldc@, newc@, ops0, idx));
            }
            assert forall|idx: int|
                #![trigger op_src(ops@, idx)]
                0 <= idx < newc@.len() implies match op_src(ops@, idx) {
                Some(j) => 0 <= j < oldc@.len() && consumed@[j],
                None => true,
            } by {
                assert(ops@[idx] == ops0[idx]);
                assert(match op_src(ops0, idx) {
                    Some(j) => 0 <= j < oldc@.len() && consumed@[j],
                    None => true,
                });
            }
            assert forall|a2: int, b2: int|
                0 <= a2 < b2 < newc@.len() && op_src(ops@, a2) is Some implies op_src(ops@, a2)
                    != op_src(ops@, b2) by {
                assert(ops@[a2] == ops0[a2]);
                assert(ops@[b2] == ops0[b2]);
                assert(op_src(ops@, a2) == op_src(ops0, a2));
                assert(op_src(ops@, b2) == op_src(ops0, b2));
            }
            assert forall|a2: int, b2: int|
                newc@.len() <= a2 < b2 < ops@.len() implies op_src(ops@, a2) != op_src(
                    ops@,
                    b2,
                ) by {
                assert(ops@[a2] == ops0[a2]);
                assert(op_src(ops@, a2) == op_src(ops0, a2));
                assert(ops0[a2] matches ChildOp::Removed { from } && from < r);
                if b2 < ops0.len() {
                    assert(ops@[b2] == ops0[b2]);
                    assert(op_src(ops@, b2) == op_src(ops0, b2));
                } else {
                    assert(op_src(ops@, b2) == Some(r as int));
                }
            }
        }
        r = r + 1;
    }
    proof {
        assert forall|a2: int, b2: int|
            0 <= a2 < b2 < ops@.len() && op_src(ops@, a2) is Some implies op_src(ops@, a2)
                != op_src(ops@, b2) by {
            if a2 < newc@.len() && newc@.len() <= b2 {
                let sa = op_src(ops@, a2)->0;
                assert(consumed@[sa]);
            }
        }
    }
    ops
}

/// Computes the patch between two well-formed trees.
///
/// The result is a correct transcript from the old tree to the new one
/// (`patch_ok`), and it is `NoOp` whenever the two trees are equal values:
/// replaying the patch of a tree against itself performs no operation.
pub fn diff(old: &Node, new: &Node) -> (p: Patch)
    requires
        node_wf(*old),
        node_wf(*new),
    ensures
        patch_ok(*old, *new, p),
        node_eq(*old, *new) ==> p is NoOp,
        p matches Patch::UpdateElement { child_ops, .. } ==> keyed_policy_ok(
            as_element(*old).children@,
            as_element(*new).children@,
            child_ops@,
        ),
    decreases *new,
{
    match old {
        Node::Empty => match new {
            Node::Empty => Patch::NoOp,
            _ => {
                let n2 = new.clone();
                proof {
                    lemma_node_eq_content(*new, n2);
                }
                Patch::Replace(n2)
            },
        },
        Node::Text(a) => match new {
            Node::Text(b) => {
                if a.eq(b) {
                    Patch::NoOp
                } else {
                    Patch::UpdateText(b.clone())
                }
            },
            _ => {
                let n2 = new.clone();
                proof {
                    lemma_node_eq_content(*new, n2);
                }
                Patch::Replace(n2)
            },
        },
        Node::Element(x) => match new {
            Node::Element(y) => {
                if x.tag.eq(&y.tag) {
                    let attr_patches = diff_attrs(&x.attrs, &y.attrs);
                    let style_patches = diff_attrs(&x.styles, &y.styles);
                    let listener_patches = diff_listeners(&x.listeners, &y.listeners);
                    let child_ops = diff_children(&x.children, &y.children);
                    if attr_patches.len() == 0 && style_patches.len() == 0
                        && listener_patches.len() == 0 && x.children.len() == y.children.len()
                        && child_ops.len() == y.children.len() && ops_trivial(&child_ops) {
                        proof {
                            assert forall|i: int| 0 <= i < x.children@.len() implies content_eq(
                                #[trigger] x.children@[i],
                                y.children@[i],
                            ) by {
                                assert(placement_ok(x.children@, y.children@, child_ops@, i));
                            }
                        }
                        Patch::NoOp
                    } else {
                        proof {
                            if node_eq(*old, *new) {
                                assert(seqs_node_eq(x.children@, y.children@));
                            }
                        }
                        Patch::UpdateElement {
                            attr_patches,
                            style_patches,
                            listener_patches,
                            child_ops,
                        }
                    }
                } else {
                    let n2 = new.clone();
                    proof {
                        lemma_node_eq_content(*new, n2);
                    }
                    Patch::Replace(n2)
                }
            },
            _ => {
                let n2 = new.clone();
                proof {
                    lemma_node_eq_content(*new, n2);
                }
                Patch::Replace(n2)
            },
        },
    }
}

} // verus!
