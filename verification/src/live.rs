//! The live output target, modelled. A live node mirrors what the target
//! shows; every mutation goes through one of the adapter's primitive
//! operations, each of which is recorded in an operation log. A live node
//! carries a stable identity, handed out when the node is created and kept
//! across relocations: the identity is what "the same live node" means.

use vstd::prelude::*;
use crate::assoc::{assoc_map, keys_unique, kvs_view, lemma_kvs_view_push};
use crate::tree::{content_eq, node_wf, Node};

verus! {

/// One primitive operation of the output target adapter, recorded by node
/// identity. The patcher drives the target through this set and nothing
/// else.
#[derive(PartialEq, Eq, Structural, Clone, Copy, Debug)]
pub enum TargetOp {
    Create { node: u64 },
    SetText { node: u64 },
    SetAttribute { node: u64 },
    RemoveAttribute { node: u64 },
    SetStyle { node: u64 },
    AddListener { node: u64, handler: u64 },
    RemoveListener { node: u64, handler: u64 },
    InsertChild { parent: u64, child: u64, index: usize },
    RemoveChild { parent: u64, child: u64 },
    ReplaceChild { parent: u64, discarded: u64, fresh: u64 },
}

/// The adapter: hands out fresh node identities and records every
/// primitive operation. An identity is the length of the log at creation
/// time, so identities never repeat.
pub struct Adapter {
    ops: Vec<TargetOp>,
}

impl View for Adapter {
    type V = Seq<TargetOp>;

    closed spec fn view(&self) -> Seq<TargetOp> {
        self.ops@
    }
}

impl Adapter {
    /// A fresh adapter with an empty log.
    pub fn new() -> (r: Adapter)
        ensures
            r@ == Seq::<TargetOp>::empty(),
    {
        Adapter { ops: Vec::new() }
    }

    /// How many primitive operations have run.
    pub fn op_count(&self) -> (r: usize)
        ensures
            r == self@.len(),
    {
        self.ops.len()
    }

    /// The operation at position `i` of the log.
    pub fn op_at(&self, i: usize) -> (r: TargetOp)
        requires
            i < self@.len(),
        ensures
            r == self@[i as int],
    {
        self.ops[i]
    }

    /// Records one primitive operation.
    pub(crate) fn record(&mut self, op: TargetOp)
        ensures
            final(self)@ == old(self)@.push(op),
            old(self)@.is_prefix_of(final(self)@),
    {
        self.ops.push(op);
        proof {
            assert(self@.subrange(0, old(self)@.len() as int) =~= old(self)@);
        }
    }

    /// Hands out a fresh identity: the current log length, which every
    /// identity created earlier is strictly below.
    pub(crate) fn fresh_id(&self) -> (r: u64)
        ensures
            (r as int) == self@.len(),
    {
        self.ops.len() as u64
    }
}

/// A live element shown by the output target.
pub struct LiveElement {
    pub id: u64,
    pub tag: String,
    pub attrs: Vec<(String, String)>,
    pub styles: Vec<(String, String)>,
    pub listeners: Vec<(String, u64)>,
    pub children: Vec<LiveNode>,
}

/// A live node shown by the output target.
pub enum LiveNode {
    Element(LiveElement),
    Text { id: u64, text: String },
    Empty { id: u64 },
}

/// The identity of a live node.
pub open spec fn live_node_id(ln: LiveNode) -> u64 {
    match ln {
        LiveNode::Element(le) => le.id,
        LiveNode::Text { id, .. } => id,
        LiveNode::Empty { id } => id,
    }
}

/// Every identity in the subtree is strictly below `bound`: such nodes were
/// created by an adapter whose log has reached that length.
pub open spec fn ids_below(ln: LiveNode, bound: int) -> bool
    decreases ln,
{
    &&& (live_node_id(ln) as int) < bound
    &&& match ln {
        LiveNode::Element(le) => forall|i: int|
            0 <= i < le.children@.len() ==> ids_below(#[trigger] le.children@[i], bound),
        _ => true,
    }
}

/// Well-formedness of a live subtree: attribute, style and listener names
/// are unique per element, recursively.
pub open spec fn live_wf(ln: LiveNode) -> bool
    decreases ln,
{
    match ln {
        LiveNode::Element(le) => {
            &&& keys_unique(kvs_view(le.attrs@))
            &&& keys_unique(kvs_view(le.styles@))
            &&& keys_unique(kvs_view(le.listeners@))
            &&& forall|i: int| 0 <= i < le.children@.len() ==> live_wf(#[trigger] le.children@[i])
        },
        _ => true,
    }
}

/// The live subtree shows the rendered content of the tree `n`: same
/// kinds, same text, same tag, equal attribute, style and listener maps,
/// and children pairwise shown, in order.
pub open spec fn live_rep(ln: LiveNode, n: Node) -> bool
    decreases n,
{
    match n {
        Node::Text(s) => match ln {
            LiveNode::Text { text, .. } => text@ == s@,
            _ => false,
        },
        Node::Empty => ln is Empty,
        Node::Element(e) => match ln {
            LiveNode::Element(le) => {
                &&& le.tag@ == e.tag@
                &&& assoc_map(kvs_view(le.attrs@)) == assoc_map(kvs_view(e.attrs@))
                &&& assoc_map(kvs_view(le.styles@)) == assoc_map(kvs_view(e.styles@))
                &&& assoc_map(kvs_view(le.listeners@)) == assoc_map(kvs_view(e.listeners@))
                &&& le.children@.len() == e.children@.len()
                &&& forall|i: int|
                    0 <= i < e.children@.len() ==> live_rep(
                        #[trigger] le.children@[i],
                        e.children@[i],
                    )
            },
            _ => false,
        },
    }
}

/// A larger bound keeps every identity below it.
pub proof fn lemma_ids_below_mono(ln: LiveNode, b1: int, b2: int)
    requires
        ids_below(ln, b1),
        b1 <= b2,
    ensures
        ids_below(ln, b2),
    decreases ln,
{
    match ln {
        LiveNode::Element(le) => {
            assert forall|i: int| 0 <= i < le.children@.len() implies ids_below(
                #[trigger] le.children@[i],
                b2,
            ) by {
                lemma_ids_below_mono(le.children@[i], b1, b2);
            }
        },
        _ => {},
    }
}

/// What shows a tree also shows any tree of the same rendered content.
pub proof fn lemma_rep_content(ln: LiveNode, a: Node, b: Node)
    requires
        live_rep(ln, b),
        content_eq(a, b),
    ensures
        live_rep(ln, a),
    decreases a,
{
    match a {
        Node::Element(x) => match b {
            Node::Element(y) => match ln {
                LiveNode::Element(le) => {
                    assert forall|i: int| 0 <= i < x.children@.len() implies live_rep(
                        #[trigger] le.children@[i],
                        x.children@[i],
                    ) by {
                        lemma_rep_content(le.children@[i], x.children@[i], y.children@[i]);
                    }
                },
                _ => {},
            },
            _ => {},
        },
        _ => {},
    }
}

/// The live element a live node holds; meaningful only for elements.
pub open spec fn as_live_element(ln: LiveNode) -> LiveElement {
    match ln {
        LiveNode::Element(le) => le,
        _ => vstd::pervasive::arbitrary(),
    }
}

impl LiveNode {
    /// The identity of this live node.
    pub fn id(&self) -> (r: u64)
        ensures
            r == live_node_id(*self),
    {
        match self {
            LiveNode::Element(le) => le.id,
            LiveNode::Text { id, .. } => *id,
            LiveNode::Empty { id } => *id,
        }
    }

    /// The text payload, for a live text node.
    pub fn text_payload(&self) -> (r: Option<&String>)
        ensures
            match r {
                Some(s) => self matches LiveNode::Text { text, .. } && s@ == text@,
                None => !(self is Text),
            },
    {
        match self {
            LiveNode::Text { text, .. } => Some(text),
            _ => None,
        }
    }

    /// The child at position `i`, for a live element that has one there.
    pub fn child_at(&self, i: usize) -> (r: Option<&LiveNode>)
        ensures
            match r {
                Some(c) => self matches LiveNode::Element(le) && i < le.children@.len() && *c
                    == le.children@[i as int],
                None => match *self {
                    LiveNode::Element(le) => i >= le.children@.len(),
                    _ => true,
                },
            },
    {
        match self {
            LiveNode::Element(le) => {
                if i < le.children.len() {
                    Some(&le.children[i])
                } else {
                    None
                }
            },
            _ => None,
        }
    }
}

/// A log stays a prefix of itself extended by one operation.
pub proof fn lemma_prefix_push(s0: Seq<TargetOp>, s1: Seq<TargetOp>, x: TargetOp)
    requires
        s0.is_prefix_of(s1),
    ensures
        s0.is_prefix_of(s1.push(x)),
{
    assert(s1.push(x).subrange(0, s0.len() as int) =~= s0);
}

/// Being a prefix is transitive.
pub proof fn lemma_prefix_trans(s0: Seq<TargetOp>, s1: Seq<TargetOp>, s2: Seq<TargetOp>)
    requires
        s0.is_prefix_of(s1),
        s1.is_prefix_of(s2),
    ensures
        s0.is_prefix_of(s2),
{
    assert(s2.subrange(0, s0.len() as int) =~= s0);
}

/// Every log is a prefix of itself.
pub proof fn lemma_prefix_refl(s0: Seq<TargetOp>)
    ensures
        s0.is_prefix_of(s0),
{
    assert(s0.subrange(0, s0.len() as int) =~= s0);
}

/// Builds a fresh live subtree showing `n`, creating every node through
/// the adapter. Every identity handed out is new: at or above the length
/// the log had before the call.
pub fn create_subtree(n: &Node, ad: &mut Adapter) -> (ln: LiveNode)
    requires
        node_wf(*n),
    ensures
        live_rep(ln, *n),
        live_wf(ln),
        ids_below(ln, final(ad)@.len() as int),
        (live_node_id(ln) as int) >= old(ad)@.len(),
        old(ad)@.is_prefix_of(final(ad)@),
        final(ad)@.len() > old(ad)@.len(),
    decreases *n,
{
    match n {
        Node::Empty => {
            let id = ad.fresh_id();
            ad.record(TargetOp::Create { node: id });
            LiveNode::Empty { id }
        },
        Node::Text(s) => {
            let id = ad.fresh_id();
            ad.record(TargetOp::Create { node: id });
            ad.record(TargetOp::SetText { node: id });
            LiveNode::Text { id, text: s.clone() }
        },
        Node::Element(e) => {
            let id = ad.fresh_id();
            ad.record(TargetOp::Create { node: id });
            proof {
                lemma_prefix_refl(old(ad)@);
                lemma_prefix_push(old(ad)@, old(ad)@, TargetOp::Create { node: id });
            }
            let mut attrs: Vec<(String, String)> = Vec::new();
            let mut i: usize = 0;
            while i < e.attrs.len()
                invariant
                    i <= e.attrs@.len(),
                    keys_unique(kvs_view(e.attrs@)),
                    kvs_view(attrs@) == kvs_view(e.attrs@).subrange(0, i as int),
                    old(ad)@.is_prefix_of(ad@),
                    (id as int) < ad@.len(),
                    (id as int) >= old(ad)@.len(),
                decreases e.attrs@.len() - i,
            {
                let ghost a0 = attrs@;
                let ghost log0 = ad@;
                let entry = &e.attrs[i];
                attrs.push((entry.0.clone(), entry.1.clone()));
                ad.record(TargetOp::SetAttribute { node: id });
                proof {
                    lemma_kvs_view_push(a0, attrs@.last());
                    assert(kvs_view(attrs@) =~= kvs_view(e.attrs@).subrange(0, i + 1));
                    lemma_prefix_push(old(ad)@, log0, TargetOp::SetAttribute { node: id });
                }
                i = i + 1;
            }
            let mut styles: Vec<(String, String)> = Vec::new();
            let mut i2: usize = 0;
            while i2 < e.styles.len()
                invariant
                    i2 <= e.styles@.len(),
                    keys_unique(kvs_view(e.styles@)),
                    kvs_view(styles@) == kvs_view(e.styles@).subrange(0, i2 as int),
                    old(ad)@.is_prefix_of(ad@),
                    (id as int) < ad@.len(),
                    (id as int) >= old(ad)@.len(),
                decreases e.styles@.len() - i2,
            {
                let ghost a0 = styles@;
                let ghost log0 = ad@;
                let entry = &e.styles[i2];
                styles.push((entry.0.clone(), entry.1.clone()));
                ad.record(TargetOp::SetStyle { node: id });
                proof {
                    lemma_kvs_view_push(a0, styles@.last());
                    assert(kvs_view(styles@) =~= kvs_view(e.styles@).subrange(0, i2 + 1));
                    lemma_prefix_push(old(ad)@, log0, TargetOp::SetStyle { node: id });
                }
                i2 = i2 + 1;
            }
            let mut listeners: Vec<(String, u64)> = Vec::new();
            let mut i3: usize = 0;
            while i3 < e.listeners.len()
                invariant
                    i3 <= e.listeners@.len(),
                    keys_unique(kvs_view(e.listeners@)),
                    kvs_view(listeners@) == kvs_view(e.listeners@).subrange(0, i3 as int),
                    old(ad)@.is_prefix_of(ad@),
                    (id as int) < ad@.len(),
                    (id as int) >= old(ad)@.len(),
                decreases e.listeners@.len() - i3,
            {
                let ghost a0 = listeners@;
                let ghost log0 = ad@;
                let entry = &e.listeners[i3];
                let h = entry.1;
                listeners.push((entry.0.clone(), h));
                ad.record(TargetOp::AddListener { node: id, handler: h });
                proof {
                    lemma_kvs_view_push(a0, listeners@.last());
                    assert(kvs_view(listeners@) =~= kvs_view(e.listeners@).subrange(0, i3 + 1));
                    lemma_prefix_push(old(ad)@, log0, TargetOp::AddListener { node: id, handler: h });
                }
                i3 = i3 + 1;
            }
            let mut children: Vec<LiveNode> = Vec::new();
            let mut i4: usize = 0;
            #[verifier::loop_isolation(false)]
            while i4 < e.children.len()
                invariant
                    i4 <= e.children@.len(),
                    children@.len() == i4,
                    forall|j: int|
                        0 <= j < i4 ==> live_rep(#[trigger] children@[j], e.children@[j])
                            && live_wf(children@[j]) && ids_below(children@[j], ad@.len() as int),
                    (id as int) < ad@.len(),
                    (id as int) >= old(ad)@.len(),
                    old(ad)@.is_prefix_of(ad@),
                decreases e.children@.len() - i4,
            {
                let ghost len0 = ad@.len();
                let ghost log0 = ad@;
                let child = create_subtree(&e.children[i4], ad);
                let ghost log1 = ad@;
                let cid = child.id();
                children.push(child);
                ad.record(TargetOp::InsertChild { parent: id, child: cid, index: i4 });
                proof {
                    lemma_prefix_trans(old(ad)@, log0, log1);
                    lemma_prefix_push(old(ad)@, log1, TargetOp::InsertChild { parent: id, child: cid, index: i4 });
                    assert forall|j: int| 0 <= j < i4 + 1 implies live_rep(
                        #[trigger] children@[j],
                        e.children@[j],
                    ) && live_wf(children@[j]) && ids_below(children@[j], ad@.len() as int) by {
                        if j < i4 {
                            lemma_ids_below_mono(children@[j], len0 as int, ad@.len() as int);
                        } else {
                            lemma_ids_below_mono(children@[j], log1.len() as int, ad@.len() as int);
                        }
                    }
                }
                i4 = i4 + 1;
            }
            proof {
                assert(kvs_view(attrs@) =~= kvs_view(e.attrs@));
                assert(kvs_view(styles@) =~= kvs_view(e.styles@));
                assert(kvs_view(listeners@) =~= kvs_view(e.listeners@));
            }
            LiveNode::Element(
                LiveElement { id, tag: e.tag.clone(), attrs, styles, listeners, children },
            )
        },
    }
}

/// The listener removals a detach records for one element's own table:
/// one per binding, in table order, each carrying the handler identity.
pub open spec fn own_detach_ops(le: LiveElement) -> Seq<TargetOp> {
    le.listeners@.map_values(
        |b: (String, u64)| TargetOp::RemoveListener { node: le.id, handler: b.1 },
    )
}

/// Every listener removal a detach of this subtree records: the children's
/// removals first, in child order, then the node's own table.
pub open spec fn detach_ops(ln: LiveNode) -> Seq<TargetOp>
    decreases ln,
{
    match ln {
        LiveNode::Element(le) => children_detach_ops(le.children@) + own_detach_ops(le),
        _ => Seq::<TargetOp>::empty(),
    }
}

/// The concatenated removals of a child list, in order.
pub open spec fn children_detach_ops(s: Seq<LiveNode>) -> Seq<TargetOp>
    decreases s,
{
    if s.len() == 0 {
        Seq::<TargetOp>::empty()
    } else {
        children_detach_ops(s.drop_last()) + detach_ops(s.last())
    }
}

/// Extending the prefix of a child list by one child appends that child's
/// removals.
pub proof fn lemma_children_detach_ops_step(s: Seq<LiveNode>, i: int)
    requires
        0 <= i < s.len(),
    ensures
        children_detach_ops(s.subrange(0, i + 1)) == children_detach_ops(s.subrange(0, i))
            + detach_ops(s[i]),
{
    assert(s.subrange(0, i + 1).drop_last() =~= s.subrange(0, i));
    assert(s.subrange(0, i + 1).last() == s[i]);
}

/// Detaches every listener bound anywhere within a live subtree, from the
/// leaves upward, recording exactly one removal per binding — the
/// subtree's `detach_ops`, nothing more and nothing less. A replacement
/// discards the subtree afterwards; detaching first is what keeps the
/// target from leaking listener registrations.
pub fn detach_subtree(ln: &LiveNode, ad: &mut Adapter)
    ensures
        final(ad)@ == old(ad)@ + detach_ops(*ln),
        old(ad)@.is_prefix_of(final(ad)@),
    decreases *ln,
{
    match ln {
        LiveNode::Element(le) => {
            let mut i: usize = 0;
            #[verifier::loop_isolation(false)]
            while i < le.children.len()
                invariant
                    i <= le.children@.len(),
                    ad@ == old(ad)@ + children_detach_ops(le.children@.subrange(0, i as int)),
                decreases le.children@.len() - i,
            {
                let ghost log0 = ad@;
                detach_subtree(&le.children[i], ad);
                proof {
                    lemma_children_detach_ops_step(le.children@, i as int);
                    assert(ad@ =~= old(ad)@ + children_detach_ops(
                        le.children@.subrange(0, i + 1),
                    ));
                }
                i = i + 1;
            }
            proof {
                assert(le.children@.subrange(0, le.children@.len() as int) =~= le.children@);
            }
            let mut j: usize = 0;
            #[verifier::loop_isolation(false)]
            while j < le.listeners.len()
                invariant
                    j <= le.listeners@.len(),
                    ad@ == old(ad)@ + children_detach_ops(le.children@) + own_detach_ops(
                        *le,
                    ).subrange(0, j as int),
                decreases le.listeners@.len() - j,
            {
                let entry = &le.listeners[j];
                let h = entry.1;
                ad.record(TargetOp::RemoveListener { node: le.id, handler: h });
                proof {
                    assert(own_detach_ops(*le)[j as int] == TargetOp::RemoveListener {
                        node: le.id,
                        handler: h,
                    });
                    assert(own_detach_ops(*le).subrange(0, j + 1) =~= own_detach_ops(
                        *le,
                    ).subrange(0, j as int).push(own_detach_ops(*le)[j as int]));
                    assert(ad@ =~= old(ad)@ + children_detach_ops(le.children@)
                        + own_detach_ops(*le).subrange(0, j + 1));
                }
                j = j + 1;
            }
            proof {
                assert(own_detach_ops(*le).subrange(0, own_detach_ops(*le).len() as int)
                    =~= own_detach_ops(*le));
                assert(ad@ =~= old(ad)@ + (children_detach_ops(le.children@) + own_detach_ops(
                    *le,
                )));
                assert((old(ad)@ + detach_ops(*ln)).subrange(0, old(ad)@.len() as int) =~= old(
                    ad,
                )@);
            }
        },
        _ => {
            proof {
                assert(ad@ =~= old(ad)@ + detach_ops(*ln));
                assert((old(ad)@ + detach_ops(*ln)).subrange(0, old(ad)@.len() as int) =~= old(
                    ad,
                )@);
            }
        },
    }
}

} // verus!
