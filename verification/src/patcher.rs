//! The patcher: replays a patch transcript against the live target through
//! the adapter's primitive operations. Replaying a correct transcript
//! (`patch_ok`) on a live subtree that shows the old content leaves one
//! that shows the new content; a `NoOp` performs no primitive operation at
//! all; an in-place patch or a move keeps the live node's identity, and
//! only an insertion or a replacement creates nodes.

use vstd::prelude::*;
use crate::assoc::{
    assoc_drop, assoc_map, assoc_put, keys_unique, kvs_view,
};
use crate::diff::{
    attr_edits_apply, child_op_creates, child_ops_ok, listener_edits_apply, op_src, patch_creates,
    patch_ok, placement_ok, AttrPatch, ChildOp, ListenerPatch, Patch,
};
use crate::live::{
    as_live_element, create_subtree, detach_subtree, ids_below, lemma_ids_below_mono,
    lemma_prefix_refl, lemma_prefix_trans, lemma_rep_content, live_node_id, live_rep, live_wf,
    Adapter, LiveNode, TargetOp,
};
use crate::tree::{as_element, content_eq, lemma_content_eq_sym, node_wf, Node};

verus! {

/// Applies attribute (or, with `as_style`, style) edits to a live map,
/// one primitive operation per edit. Clearing a style goes through the
/// same set-style primitive; attributes have a removal primitive of their
/// own.
fn apply_attr_edits(
    live: &mut Vec<(String, String)>,
    ps: &Vec<AttrPatch>,
    node_id: u64,
    as_style: bool,
    ad: &mut Adapter,
)
    requires
        keys_unique(kvs_view(old(live)@)),
    ensures
        keys_unique(kvs_view(final(live)@)),
        assoc_map(kvs_view(final(live)@)) == attr_edits_apply(
            assoc_map(kvs_view(old(live)@)),
            ps@,
        ),
        old(ad)@.is_prefix_of(final(ad)@),
        ps@.len() == 0 ==> final(ad)@ == old(ad)@ && final(live)@ == old(live)@,
        forall|k: int|
            old(ad)@.len() <= k < final(ad)@.len() ==> !((#[trigger] final(ad)@[k]) matches
                TargetOp::Create { .. }),
{
    proof {
        lemma_prefix_refl(old(ad)@);
    }
    if ps.len() == 0 {
        return;
    }
    let mut i: usize = 0;
    while i < ps.len()
        invariant
            i <= ps@.len(),
            keys_unique(kvs_view(live@)),
            assoc_map(kvs_view(live@)) == attr_edits_apply(
                assoc_map(kvs_view(old(live)@)),
                ps@.subrange(0, i as int),
            ),
            old(ad)@.is_prefix_of(ad@),
            forall|k: int|
                old(ad)@.len() <= k < ad@.len() ==> !((#[trigger] ad@[k]) matches
                    TargetOp::Create { .. }),
        decreases ps@.len() - i,
    {
        let ghost log0 = ad@;
        match &ps[i] {
            AttrPatch::Insert { name, value } => {
                assoc_put(live, name.clone(), value.clone());
                if as_style {
                    ad.record(TargetOp::SetStyle { node: node_id });
                } else {
                    ad.record(TargetOp::SetAttribute { node: node_id });
                }
            },
            AttrPatch::Update { name, value } => {
                assoc_put(live, name.clone(), value.clone());
                if as_style {
                    ad.record(TargetOp::SetStyle { node: node_id });
                } else {
                    ad.record(TargetOp::SetAttribute { node: node_id });
                }
            },
            AttrPatch::Remove { name } => {
                assoc_drop(live, name);
                if as_style {
                    ad.record(TargetOp::SetStyle { node: node_id });
                } else {
                    ad.record(TargetOp::RemoveAttribute { node: node_id });
                }
            },
        }
        proof {
            assert(ps@.subrange(0, i + 1).drop_last() =~= ps@.subrange(0, i as int));
            assert(ps@.subrange(0, i + 1).last() == ps@[i as int]);
            lemma_prefix_trans(old(ad)@, log0, ad@);
        }
        i = i + 1;
    }
    proof {
        assert(ps@.subrange(0, ps@.len() as int) =~= ps@);
    }
}

/// Applies listener edits to a live listener table: an attach or a detach
/// primitive per edit, each carrying the handler identity, so that exactly
/// the listener attached earlier is the one detached.
fn apply_listener_edits(
    live: &mut Vec<(String, u64)>,
    ps: &Vec<ListenerPatch>,
    node_id: u64,
    ad: &mut Adapter,
)
    requires
        keys_unique(kvs_view(old(live)@)),
    ensures
        keys_unique(kvs_view(final(live)@)),
        assoc_map(kvs_view(final(live)@)) == listener_edits_apply(
            assoc_map(kvs_view(old(live)@)),
            ps@,
        ),
        old(ad)@.is_prefix_of(final(ad)@),
        ps@.len() == 0 ==> final(ad)@ == old(ad)@ && final(live)@ == old(live)@,
        forall|k: int|
            old(ad)@.len() <= k < final(ad)@.len() ==> !((#[trigger] final(ad)@[k]) matches
                TargetOp::Create { .. }),
{
    proof {
        lemma_prefix_refl(old(ad)@);
    }
    if ps.len() == 0 {
        return;
    }
    let mut i: usize = 0;
    while i < ps.len()
        invariant
            i <= ps@.len(),
            keys_unique(kvs_view(live@)),
            assoc_map(kvs_view(live@)) == listener_edits_apply(
                assoc_map(kvs_view(old(live)@)),
                ps@.subrange(0, i as int),
            ),
            old(ad)@.is_prefix_of(ad@),
            forall|k: int|
                old(ad)@.len() <= k < ad@.len() ==> !((#[trigger] ad@[k]) matches
                    TargetOp::Create { .. }),
        decreases ps@.len() - i,
    {
        let ghost log0 = ad@;
        match &ps[i] {
            ListenerPatch::Attach { event, handler } => {
                assoc_put(live, event.clone(), *handler);
                ad.record(TargetOp::AddListener { node: node_id, handler: *handler });
            },
            ListenerPatch::Detach { event, handler } => {
                assoc_drop(live, event);
                ad.record(TargetOp::RemoveListener { node: node_id, handler: *handler });
            },
        }
        proof {
            assert(ps@.subrange(0, i + 1).drop_last() =~= ps@.subrange(0, i as int));
            assert(ps@.subrange(0, i + 1).last() == ps@[i as int]);
            lemma_prefix_trans(old(ad)@, log0, ad@);
        }
        i = i + 1;
    }
    proof {
        assert(ps@.subrange(0, ps@.len() as int) =~= ps@);
    }
}

/// Takes the live node out of slot `i`, leaving the slot empty.
fn take_slot(slots: &mut Vec<Option<LiveNode>>, i: usize) -> (r: Option<LiveNode>)
    requires
        i < old(slots)@.len(),
    ensures
        final(slots)@ == old(slots)@.update(i as int, None::<LiveNode>),
        r == old(slots)@[i as int],
{
    let taken = slots.remove(i);
    slots.insert(i, None);
    proof {
        assert(slots@ =~= old(slots)@.update(i as int, None::<LiveNode>));
    }
    taken
}

/// Replays a reconciliation transcript against a live child list. The
/// placements rebuild the list in order — in-place patches and moves take
/// the live child from its old slot, keeping its identity; insertions
/// build fresh subtrees — and the removals discard each unmatched old
/// child with a single primitive operation.
fn apply_children(
    children: &mut Vec<LiveNode>,
    cops: &Vec<ChildOp>,
    parent_id: u64,
    ad: &mut Adapter,
    Ghost(oldc): Ghost<Seq<Node>>,
    Ghost(newc): Ghost<Seq<Node>>,
)
    requires
        old(children)@.len() == oldc.len(),
        forall|i: int|
            0 <= i < oldc.len() ==> live_wf(#[trigger] old(children)@[i]) && live_rep(
                old(children)@[i],
                oldc[i],
            ) && ids_below(old(children)@[i], old(ad)@.len() as int),
        child_ops_ok(oldc, newc, cops@),
    ensures
        final(children)@.len() == newc.len(),
        forall|i: int|
            0 <= i < newc.len() ==> live_wf(#[trigger] final(children)@[i]) && live_rep(
                final(children)@[i],
                newc[i],
            ) && ids_below(final(children)@[i], final(ad)@.len() as int),
        old(ad)@.is_prefix_of(final(ad)@),
        (forall|i: int| 0 <= i < cops@.len() ==> !child_op_creates(#[trigger] cops@[i]))
            ==> forall|k: int|
            old(ad)@.len() <= k < final(ad)@.len() ==> !((#[trigger] final(ad)@[k]) matches
                TargetOp::Create { .. }),
        forall|i: int|
            0 <= i < newc.len() ==> match #[trigger] cops@[i] {
                ChildOp::Patched { patch } => !(patch is Replace) ==> live_node_id(
                    final(children)@[i],
                ) == live_node_id(old(children)@[i]),
                ChildOp::Moved { from, patch } => !(patch is Replace) ==> live_node_id(
                    final(children)@[i],
                ) == live_node_id(old(children)@[from as int]),
                ChildOp::Inserted { .. } => (live_node_id(final(children)@[i]) as int) >= old(
                    ad,
                )@.len(),
                ChildOp::Removed { .. } => true,
            },
    decreases cops@,
{
    let ghost orig = old(children)@;
    proof {
        lemma_prefix_refl(old(ad)@);
    }
    let mut slots: Vec<Option<LiveNode>> = Vec::new();
    while children.len() > 0
        invariant
            slots@.len() + children@.len() == orig.len(),
            forall|j: int| 0 <= j < slots@.len() ==> (#[trigger] slots@[j]) == Some(orig[j]),
            children@ == orig.subrange(slots@.len() as int, orig.len() as int),
        decreases children@.len(),
    {
        let c = children.remove(0);
        slots.push(Some(c));
        proof {
            assert(children@ =~= orig.subrange(slots@.len() as int, orig.len() as int));
        }
    }
    let mut out: Vec<LiveNode> = Vec::new();
    let mut idx: usize = 0;
    while idx < cops.len()
        invariant
            idx <= cops@.len(),
            child_ops_ok(oldc, newc, cops@),
            orig.len() == oldc.len(),
            forall|i: int|
                0 <= i < oldc.len() ==> live_wf(#[trigger] orig[i]) && live_rep(orig[i], oldc[i])
                    && ids_below(orig[i], old(ad)@.len() as int),
            slots@.len() == oldc.len(),
            forall|j: int|
                0 <= j < slots@.len() ==> ((#[trigger] slots@[j]) is Some <==> !(exists|k: int|
                    0 <= k < idx && op_src(cops@, k) == Some(j))),
            forall|j: int|
                0 <= j < slots@.len() && (#[trigger] slots@[j]) is Some ==> slots@[j] == Some(
                    orig[j],
                ),
            idx <= newc.len() ==> out@.len() == idx,
            idx > newc.len() ==> out@.len() == newc.len(),
            forall|i: int|
                0 <= i < out@.len() ==> live_wf(#[trigger] out@[i]) && live_rep(out@[i], newc[i])
                    && ids_below(out@[i], ad@.len() as int),
            forall|i: int|
                0 <= i < out@.len() ==> match #[trigger] cops@[i] {
                    ChildOp::Patched { patch } => !(patch is Replace) ==> live_node_id(out@[i])
                        == live_node_id(orig[i]),
                    ChildOp::Moved { from, patch } => !(patch is Replace) ==> live_node_id(
                        out@[i],
                    ) == live_node_id(orig[from as int]),
                    ChildOp::Inserted { .. } => (live_node_id(out@[i]) as int) >= old(ad)@.len(),
                    ChildOp::Removed { .. } => true,
                },
            old(ad)@.is_prefix_of(ad@),
            (forall|i: int| 0 <= i < cops@.len() ==> !child_op_creates(#[trigger] cops@[i]))
                ==> forall|k: int|
                old(ad)@.len() <= k < ad@.len() ==> !((#[trigger] ad@[k]) matches
                    TargetOp::Create { .. }),
        decreases cops@.len() - idx,
    {
        let ghost log0 = ad@;
        let ghost out0 = out@;
        let ghost slots0 = slots@;
        proof {
            if idx >= newc.len() {
                assert(cops@[idx as int] matches ChildOp::Removed { from } && from < oldc.len());
            } else {
                assert(placement_ok(oldc, newc, cops@, idx as int));
            }
        }
        match &cops[idx] {
            ChildOp::Patched { patch } => {
                proof {
                    assert(idx < newc.len());
                    assert(op_src(cops@, idx as int) == Some(idx as int));
                    assert forall|k: int| 0 <= k < idx implies op_src(cops@, k) != Some(
                        idx as int,
                    ) by {
                        assert(op_src(cops@, idx as int) != op_src(cops@, k) || k == idx);
                    }
                }
                let taken = take_slot(&mut slots, idx);
                match taken {
                    Some(mut child) => {
                        proof {
                            assert(child == orig[idx as int]);
                            lemma_ids_below_mono(child, old(ad)@.len() as int, ad@.len() as int);
                        }
                        apply(
                            &mut child,
                            patch,
                            parent_id,
                            ad,
                            Ghost(oldc[idx as int]),
                            Ghost(newc[idx as int]),
                        );
                        proof {
                            if !child_op_creates(cops@[idx as int]) {
                                assert(!patch_creates(*patch));
                                assert forall|k: int|
                                    log0.len() <= k < ad@.len() implies !((
                                    #[trigger] ad@[k]) matches TargetOp::Create { .. }) by {}
                            }
                        }
                        out.push(child);
                    },
                    None => {
                        proof {
                            assert(false);
                        }
                    },
                }
            },
            ChildOp::Moved { from, patch } => {
                let from_pos = *from;
                proof {
                    assert(idx < newc.len());
                    assert(op_src(cops@, idx as int) == Some(from_pos as int));
                    assert forall|k: int| 0 <= k < idx implies op_src(cops@, k) != Some(
                        from_pos as int,
                    ) by {
                        assert(op_src(cops@, idx as int) != op_src(cops@, k) || k == idx);
                    }
                }
                let taken = take_slot(&mut slots, from_pos);
                match taken {
                    Some(mut child) => {
                        proof {
                            assert(child == orig[from_pos as int]);
                            lemma_ids_below_mono(child, old(ad)@.len() as int, ad@.len() as int);
                        }
                        apply(
                            &mut child,
                            patch,
                            parent_id,
                            ad,
                            Ghost(oldc[from_pos as int]),
                            Ghost(newc[idx as int]),
                        );
                        let ghost lenc = ad@.len();
                        let cid = child.id();
                        let pos = out.len();
                        ad.record(TargetOp::InsertChild { parent: parent_id, child: cid, index: pos });
                        proof {
                            lemma_ids_below_mono(child, lenc as int, ad@.len() as int);
                            if !child_op_creates(cops@[idx as int]) {
                                assert(!patch_creates(*patch));
                                assert forall|k: int|
                                    log0.len() <= k < ad@.len() implies !((
                                    #[trigger] ad@[k]) matches TargetOp::Create { .. }) by {
                                    if k < ad@.len() - 1 {
                                    } else {
                                        assert(ad@[k] == TargetOp::InsertChild {
                                            parent: parent_id,
                                            child: cid,
                                            index: pos,
                                        });
                                    }
                                }
                            }
                        }
                        out.push(child);
                    },
                    None => {
                        proof {
                            assert(false);
                        }
                    },
                }
            },
            ChildOp::Inserted { node } => {
                proof {
                    assert(idx < newc.len());
                    assert(node_wf(*node) && content_eq(newc[idx as int], *node));
                    assert(child_op_creates(cops@[idx as int]));
                }
                let child = create_subtree(node, ad);
                proof {
                    lemma_rep_content(child, newc[idx as int], *node);
                }
                let ghost lenc = ad@.len();
                let cid = child.id();
                let pos = out.len();
                ad.record(TargetOp::InsertChild { parent: parent_id, child: cid, index: pos });
                proof {
                    lemma_ids_below_mono(child, lenc as int, ad@.len() as int);
                }
                out.push(child);
            },
            ChildOp::Removed { from } => {
                let from_pos = *from;
                proof {
                    assert(op_src(cops@, idx as int) == Some(from_pos as int));
                    assert forall|k: int| 0 <= k < idx implies op_src(cops@, k) != Some(
                        from_pos as int,
                    ) by {
                        assert(op_src(cops@, idx as int) != op_src(cops@, k) || k == idx);
                    }
                }
                let taken = take_slot(&mut slots, from_pos);
                match taken {
                    Some(child) => {
                        let cid = child.id();
                        ad.record(TargetOp::RemoveChild { parent: parent_id, child: cid });
                        proof {
                            assert forall|k: int|
                                log0.len() <= k < ad@.len() implies !((#[trigger] ad@[k]) matches
                                    TargetOp::Create { .. }) by {
                                assert(ad@[k] == TargetOp::RemoveChild {
                                    parent: parent_id,
                                    child: cid,
                                });
                            }
                        }
                    },
                    None => {
                        proof {
                            assert(false);
                        }
                    },
                }
            },
        }
        proof {
            lemma_prefix_trans(old(ad)@, log0, ad@);
            if forall|i2: int| 0 <= i2 < cops@.len() ==> !child_op_creates(#[trigger] cops@[i2]) {
                assert(!child_op_creates(cops@[idx as int]));
                assert forall|k: int|
                    old(ad)@.len() <= k < ad@.len() implies !((#[trigger] ad@[k]) matches
                        TargetOp::Create { .. }) by {
                    if k >= log0.len() {
                        assert(!(ad@[k] matches TargetOp::Create { .. }));
                    } else {
                        assert(ad@[k] == log0[k]);
                        assert(!(log0[k] matches TargetOp::Create { .. }));
                    }
                }
            }
            assert forall|j: int|
                0 <= j < slots@.len() implies ((#[trigger] slots@[j]) is Some <==> !(exists|k: int|
                    0 <= k < idx + 1 && op_src(cops@, k) == Some(j))) by {
                if slots@[j] is Some {
                    assert(slots0[j] is Some);
                }
                if exists|k: int| 0 <= k < idx && op_src(cops@, k) == Some(j) {
                    let k = choose|k: int| 0 <= k < idx && op_src(cops@, k) == Some(j);
                    assert(!(slots0[j] is Some));
                }
            }
            assert forall|i: int|
                0 <= i < out@.len() implies live_wf(#[trigger] out@[i]) && live_rep(
                out@[i],
                newc[i],
            ) && ids_below(out@[i], ad@.len() as int) by {
                if i < out0.len() {
                    assert(out@[i] == out0[i]);
                    lemma_ids_below_mono(out@[i], log0.len() as int, ad@.len() as int);
                }
            }
            assert forall|i: int|
                0 <= i < out@.len() implies match #[trigger] cops@[i] {
                ChildOp::Patched { patch } => !(patch is Replace) ==> live_node_id(out@[i])
                    == live_node_id(orig[i]),
                ChildOp::Moved { from, patch } => !(patch is Replace) ==> live_node_id(out@[i])
                    == live_node_id(orig[from as int]),
                ChildOp::Inserted { .. } => (live_node_id(out@[i]) as int) >= old(ad)@.len(),
                ChildOp::Removed { .. } => true,
            } by {
                if i < out0.len() {
                    assert(out@[i] == out0[i]);
                }
            }
        }
        idx = idx + 1;
    }
    *children = out;
}

/// Replays a patch against one live node. The node is addressed through
/// its parent's identity so that a replacement can be recorded against the
/// right spot; a replacement first detaches every listener bound anywhere
/// within the discarded subtree, then swaps in a freshly built one with a
/// single replace operation. A `NoOp` touches neither the live tree nor
/// the log, and any patch other than a replacement keeps the live node's
/// identity.
pub fn apply(
    ln: &mut LiveNode,
    patch: &Patch,
    parent_id: u64,
    ad: &mut Adapter,
    Ghost(oldn): Ghost<Node>,
    Ghost(newn): Ghost<Node>,
)
    requires
        live_wf(*old(ln)),
        live_rep(*old(ln), oldn),
        ids_below(*old(ln), old(ad)@.len() as int),
        patch_ok(oldn, newn, *patch),
    ensures
        live_wf(*final(ln)),
        live_rep(*final(ln), newn),
        ids_below(*final(ln), final(ad)@.len() as int),
        old(ad)@.is_prefix_of(final(ad)@),
        *patch is NoOp ==> final(ad)@ == old(ad)@ && *final(ln) == *old(ln),
        !(*patch is Replace) ==> live_node_id(*final(ln)) == live_node_id(*old(ln)),
        *patch is Replace ==> (live_node_id(*final(ln)) as int) >= old(ad)@.len(),
        !patch_creates(*patch) ==> forall|k: int|
            old(ad)@.len() <= k < final(ad)@.len() ==> !((#[trigger] final(ad)@[k]) matches
                TargetOp::Create { .. }),
        (*patch matches Patch::UpdateElement { child_ops, .. } ==> (forall|i: int|
            0 <= i < as_live_element(*final(ln)).children@.len() && i < child_ops@.len()
                ==> match #[trigger] child_ops@[i] {
                ChildOp::Patched { patch: sub } => !(sub is Replace) && i < as_live_element(
                    *old(ln),
                ).children@.len() ==> live_node_id(as_live_element(*final(ln)).children@[i])
                    == live_node_id(as_live_element(*old(ln)).children@[i]),
                ChildOp::Moved { from, patch: sub } => !(sub is Replace) && from
                    < as_live_element(*old(ln)).children@.len() ==> live_node_id(
                    as_live_element(*final(ln)).children@[i],
                ) == live_node_id(as_live_element(*old(ln)).children@[from as int]),
                ChildOp::Inserted { .. } => (live_node_id(
                    as_live_element(*final(ln)).children@[i],
                ) as int) >= old(ad)@.len(),
                ChildOp::Removed { .. } => true,
            })),
    decreases *patch,
{
    match patch {
        Patch::NoOp => {
            proof {
                lemma_prefix_refl(old(ad)@);
                lemma_content_eq_sym(oldn, newn);
                lemma_rep_content(*ln, newn, oldn);
            }
        },
        Patch::UpdateText(s) => {
            match ln {
                LiveNode::Text { id, text } => {
                    *text = s.clone();
                    ad.record(TargetOp::SetText { node: *id });
                },
                _ => {
                    proof {
                        assert(false);
                    }
                },
            }
        },
        Patch::Replace(n) => {
            detach_subtree(ln, ad);
            let ghost log1 = ad@;
            let fresh_ln = create_subtree(n, ad);
            let ghost log2 = ad@;
            let old_id = ln.id();
            let new_id = fresh_ln.id();
            ad.record(TargetOp::ReplaceChild { parent: parent_id, discarded: old_id, fresh: new_id });
            *ln = fresh_ln;
            proof {
                lemma_prefix_trans(old(ad)@, log1, log2);
                lemma_prefix_trans(old(ad)@, log2, ad@);
                lemma_rep_content(*ln, newn, *n);
                lemma_ids_below_mono(*ln, log2.len() as int, ad@.len() as int);
            }
        },
        Patch::UpdateElement { attr_patches, style_patches, listener_patches, child_ops } => {
            match ln {
                LiveNode::Element(le) => {
                    let node_id = le.id;
                    let ghost log0 = ad@;
                    apply_attr_edits(&mut le.attrs, attr_patches, node_id, false, ad);
                    let ghost log1 = ad@;
                    apply_attr_edits(&mut le.styles, style_patches, node_id, true, ad);
                    let ghost log2 = ad@;
                    apply_listener_edits(&mut le.listeners, listener_patches, node_id, ad);
                    let ghost log3 = ad@;
                    proof {
                        assert forall|i: int|
                            0 <= i < le.children@.len() implies ids_below(
                            #[trigger] le.children@[i],
                            log3.len() as int,
                        ) by {
                            lemma_ids_below_mono(
                                le.children@[i],
                                old(ad)@.len() as int,
                                log3.len() as int,
                            );
                        }
                    }
                    apply_children(
                        &mut le.children,
                        child_ops,
                        node_id,
                        ad,
                        Ghost(as_element(oldn).children@),
                        Ghost(as_element(newn).children@),
                    );
                    proof {
                        lemma_prefix_trans(old(ad)@, log1, log2);
                        lemma_prefix_trans(old(ad)@, log2, log3);
                        lemma_prefix_trans(old(ad)@, log3, ad@);
                        if !patch_creates(*patch) {
                            assert forall|i2: int|
                                0 <= i2 < child_ops@.len() implies !child_op_creates(
                                #[trigger] child_ops@[i2],
                            ) by {}
                            assert forall|k: int|
                                old(ad)@.len() <= k < ad@.len() implies !((
                                #[trigger] ad@[k]) matches TargetOp::Create { .. }) by {
                                if k < log1.len() {
                                    assert(ad@[k] == log1[k]);
                                    assert(!(log1[k] matches TargetOp::Create { .. }));
                                } else if k < log2.len() {
                                    assert(ad@[k] == log2[k]);
                                    assert(!(log2[k] matches TargetOp::Create { .. }));
                                } else if k < log3.len() {
                                    assert(ad@[k] == log3[k]);
                                    assert(!(log3[k] matches TargetOp::Create { .. }));
                                }
                            }
                        }
                    }
                },
                _ => {
                    proof {
                        assert(false);
                    }
                },
            }
        },
    }
}

} // verus!
