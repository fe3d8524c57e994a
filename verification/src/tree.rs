//! The declarative tree model: a node is an element, a text node, or an
//! empty placeholder. A placeholder renders nothing but occupies exactly one
//! position among its siblings, so that positional reconciliation stays
//! aligned.

use vstd::prelude::*;
use crate::assoc::{assoc_map, keys_unique, kvs_view};

verus! {

/// An event binding: the event name paired with the identity of the
/// attached handler. The identity lets the patcher detach exactly the
/// listener it attached earlier and tell "update" apart from "remove and
/// re-add".
pub type EventBinding = (String, u64);

/// An element node: tag, attribute map, style map, listener table, ordered
/// children, an optional reconciliation key, and an optional slot under
/// which the application asks for a reference to the live node.
///
/// `key` and `ref_slot` are reconciliation and binding metadata: they are
/// not rendered content, and the live target never stores them.
pub struct Element {
    pub tag: String,
    pub attrs: Vec<(String, String)>,
    pub styles: Vec<(String, String)>,
    pub listeners: Vec<EventBinding>,
    pub children: Vec<Node>,
    pub key: Option<u64>,
    pub ref_slot: Option<u64>,
}

/// A node of the declarative tree.
pub enum Node {
    Element(Element),
    Text(String),
    Empty,
}

/// The key a node carries, if it is a keyed element.
pub open spec fn node_key(n: Node) -> Option<u64> {
    match n {
        Node::Element(e) => e.key,
        Node::Text(_) => None::<u64>,
        Node::Empty => None::<u64>,
    }
}

/// Rendered-content equality: equal kinds, equal text, equal tag, equal
/// attribute, style and listener maps, and pairwise content-equal children.
/// Keys and reference slots are metadata and do not take part.
pub open spec fn content_eq(a: Node, b: Node) -> bool
    decreases a,
{
    match a {
        Node::Text(s) => match b {
            Node::Text(t) => s@ == t@,
            _ => false,
        },
        Node::Empty => match b {
            Node::Empty => true,
            _ => false,
        },
        Node::Element(x) => match b {
            Node::Element(y) => {
                &&& x.tag@ == y.tag@
                &&& assoc_map(kvs_view(x.attrs@)) == assoc_map(kvs_view(y.attrs@))
                &&& assoc_map(kvs_view(x.styles@)) == assoc_map(kvs_view(y.styles@))
                &&& assoc_map(kvs_view(x.listeners@)) == assoc_map(kvs_view(y.listeners@))
                &&& x.children@.len() == y.children@.len()
                &&& forall|i: int|
                    0 <= i < x.children@.len() ==> content_eq(
                        #[trigger] x.children@[i],
                        y.children@[i],
                    )
            },
            _ => false,
        },
    }
}

/// Full tree-value equality: rendered content plus keys and reference
/// slots, at every level.
pub open spec fn node_eq(a: Node, b: Node) -> bool
    decreases a,
{
    match a {
        Node::Text(s) => match b {
            Node::Text(t) => s@ == t@,
            _ => false,
        },
        Node::Empty => match b {
            Node::Empty => true,
            _ => false,
        },
        Node::Element(x) => match b {
            Node::Element(y) => {
                &&& x.tag@ == y.tag@
                &&& x.key == y.key
                &&& x.ref_slot == y.ref_slot
                &&& assoc_map(kvs_view(x.attrs@)) == assoc_map(kvs_view(y.attrs@))
                &&& assoc_map(kvs_view(x.styles@)) == assoc_map(kvs_view(y.styles@))
                &&& assoc_map(kvs_view(x.listeners@)) == assoc_map(kvs_view(y.listeners@))
                &&& x.children@.len() == y.children@.len()
                &&& forall|i: int|
                    0 <= i < x.children@.len() ==> node_eq(
                        #[trigger] x.children@[i],
                        y.children@[i],
                    )
            },
            _ => false,
        },
    }
}

/// Keys present among a sibling list are unique: this is what makes keyed
/// reconciliation meaningful.
pub open spec fn child_keys_unique(s: Seq<Node>) -> bool {
    forall|i: int, j: int|
        0 <= i < j < s.len() && node_key(#[trigger] s[i]) is Some ==> node_key(s[i]) != node_key(
            #[trigger] s[j],
        )
}

/// Well-formedness of a tree: attribute, style and listener names are
/// unique per element, sibling keys are unique when present, recursively.
pub open spec fn node_wf(n: Node) -> bool
    decreases n,
{
    match n {
        Node::Element(e) => {
            &&& keys_unique(kvs_view(e.attrs@))
            &&& keys_unique(kvs_view(e.styles@))
            &&& keys_unique(kvs_view(e.listeners@))
            &&& child_keys_unique(e.children@)
            &&& forall|i: int| 0 <= i < e.children@.len() ==> node_wf(#[trigger] e.children@[i])
        },
        Node::Text(_) => true,
        Node::Empty => true,
    }
}

/// Full equality entails content equality.
pub proof fn lemma_node_eq_content(a: Node, b: Node)
    requires
        node_eq(a, b),
    ensures
        content_eq(a, b),
    decreases a,
{
    match a {
        Node::Element(x) => match b {
            Node::Element(y) => {
                assert forall|i: int| 0 <= i < x.children@.len() implies content_eq(
                    #[trigger] x.children@[i],
                    y.children@[i],
                ) by {
                    lemma_node_eq_content(x.children@[i], y.children@[i]);
                }
            },
            _ => {},
        },
        _ => {},
    }
}

/// Every tree value equals itself: together with the differ's contract,
/// which returns the do-nothing patch exactly on equal values, diffing any
/// tree against itself can never produce a mutation.
pub proof fn lemma_node_eq_reflexive(a: Node)
    ensures
        node_eq(a, a),
        content_eq(a, a),
    decreases a,
{
    match a {
        Node::Element(x) => {
            assert forall|i: int| 0 <= i < x.children@.len() implies node_eq(
                #[trigger] x.children@[i],
                x.children@[i],
            ) && content_eq(x.children@[i], x.children@[i]) by {
                lemma_node_eq_reflexive(x.children@[i]);
            }
        },
        _ => {},
    }
}

/// Content equality is symmetric.
pub proof fn lemma_content_eq_sym(a: Node, b: Node)
    requires
        content_eq(a, b),
    ensures
        content_eq(b, a),
    decreases a,
{
    match a {
        Node::Element(x) => match b {
            Node::Element(y) => {
                assert forall|i: int| 0 <= i < y.children@.len() implies content_eq(
                    #[trigger] y.children@[i],
                    x.children@[i],
                ) by {
                    lemma_content_eq_sym(x.children@[i], y.children@[i]);
                }
            },
            _ => {},
        },
        _ => {},
    }
}

/// The element a node holds; meaningful only for element nodes.
pub open spec fn as_element(n: Node) -> Element {
    match n {
        Node::Element(e) => e,
        _ => vstd::pervasive::arbitrary(),
    }
}

/// Equal nodes carry equal keys.
pub proof fn lemma_node_eq_key(a: Node, b: Node)
    requires
        node_eq(a, b),
    ensures
        node_key(a) == node_key(b),
{
}

/// Copies a list of string-valued entries, preserving every viewed entry.
fn clone_string_pairs(v: &Vec<(String, String)>) -> (res: Vec<(String, String)>)
    ensures
        kvs_view(res@) == kvs_view(v@),
{
    let mut out: Vec<(String, String)> = Vec::new();
    let mut i: usize = 0;
    while i < v.len()
        invariant
            i <= v@.len(),
            out@.len() == i,
            forall|j: int|
                0 <= j < i ==> (#[trigger] out@[j]).0@ == v@[j].0@ && out@[j].1@ == v@[j].1@,
        decreases v@.len() - i,
    {
        let entry = &v[i];
        out.push((entry.0.clone(), entry.1.clone()));
        i = i + 1;
    }
    proof {
        assert(kvs_view(out@) =~= kvs_view(v@));
    }
    out
}

/// Copies a listener table, preserving every viewed entry.
fn clone_bindings(v: &Vec<EventBinding>) -> (res: Vec<EventBinding>)
    ensures
        kvs_view(res@) == kvs_view(v@),
{
    let mut out: Vec<EventBinding> = Vec::new();
    let mut i: usize = 0;
    while i < v.len()
        invariant
            i <= v@.len(),
            out@.len() == i,
            forall|j: int|
                0 <= j < i ==> (#[trigger] out@[j]).0@ == v@[j].0@ && out@[j].1 == v@[j].1,
        decreases v@.len() - i,
    {
        let entry = &v[i];
        out.push((entry.0.clone(), entry.1));
        i = i + 1;
    }
    proof {
        assert(kvs_view(out@) =~= kvs_view(v@));
    }
    out
}

impl Clone for Element {
    /// A copy equal to the original as a tree value, and well formed
    /// whenever the original is.
    fn clone(&self) -> (res: Self)
        ensures
            node_eq(Node::Element(*self), Node::Element(res)),
            node_wf(Node::Element(*self)) ==> node_wf(Node::Element(res)),
        decreases self,
    {
        let mut kids: Vec<Node> = Vec::new();
        let mut i: usize = 0;
        #[verifier::loop_isolation(false)]
        while i < self.children.len()
            invariant
                i <= self.children@.len(),
                kids@.len() == i,
                forall|j: int| 0 <= j < i ==> node_eq(self.children@[j], #[trigger] kids@[j]),
                forall|j: int|
                    0 <= j < i ==> (node_wf(self.children@[j]) ==> node_wf(#[trigger] kids@[j])),
            decreases self.children@.len() - i,
        {
            let child = self.children[i].clone();
            kids.push(child);
            i = i + 1;
        }
        let res = Element {
            tag: self.tag.clone(),
            attrs: clone_string_pairs(&self.attrs),
            styles: clone_string_pairs(&self.styles),
            listeners: clone_bindings(&self.listeners),
            children: kids,
            key: self.key,
            ref_slot: self.ref_slot,
        };
        proof {
            if node_wf(Node::Element(*self)) {
                assert forall|p: int, q: int|
                    0 <= p < q < res.children@.len() && node_key(
                        #[trigger] res.children@[p],
                    ) is Some implies node_key(res.children@[p]) != node_key(
                    #[trigger] res.children@[q],
                ) by {
                    lemma_node_eq_key(self.children@[p], res.children@[p]);
                    lemma_node_eq_key(self.children@[q], res.children@[q]);
                }
            }
        }
        res
    }
}

impl Clone for Node {
    /// A copy equal to the original as a tree value, and well formed
    /// whenever the original is.
    fn clone(&self) -> (res: Self)
        ensures
            node_eq(*self, res),
            node_wf(*self) ==> node_wf(res),
        decreases self,
    {
        match self {
            Node::Element(e) => Node::Element(e.clone()),
            Node::Text(s) => Node::Text(s.clone()),
            Node::Empty => Node::Empty,
        }
    }
}

/// Whether the entry names of an association list are pairwise distinct.
fn names_unique<V: View>(v: &Vec<(String, V)>) -> (r: bool)
    ensures
        r == keys_unique(kvs_view(v@)),
{
    let mut i: usize = 0;
    while i < v.len()
        invariant
            i <= v@.len(),
            forall|p: int, q: int|
                0 <= p < q < i ==> (#[trigger] kvs_view(v@)[p]).0 != (#[trigger] kvs_view(v@)[q]).0,
        decreases v@.len() - i,
    {
        let mut j: usize = 0;
        while j < i
            invariant
                j <= i < v@.len(),
                forall|p: int| 0 <= p < j ==> (#[trigger] kvs_view(v@)[p]).0 != kvs_view(v@)[i as int].0,
            decreases i - j,
        {
            if v[j].0.eq(&v[i].0) {
                proof {
                    assert(kvs_view(v@)[j as int].0 == kvs_view(v@)[i as int].0);
                }
                return false;
            }
            j = j + 1;
        }
        i = i + 1;
    }
    true
}

/// The key a node carries, if it is a keyed element.
pub fn key_of(n: &Node) -> (r: Option<u64>)
    ensures
        r == node_key(*n),
{
    match n {
        Node::Element(e) => e.key,
        Node::Text(_) => None,
        Node::Empty => None,
    }
}

/// Whether sibling keys are unique when present.
fn sibling_keys_unique(v: &Vec<Node>) -> (r: bool)
    ensures
        r == child_keys_unique(v@),
{
    let mut i: usize = 0;
    while i < v.len()
        invariant
            i <= v@.len(),
            forall|p: int, q: int|
                0 <= p < q < i && node_key(#[trigger] v@[p]) is Some ==> node_key(v@[p])
                    != node_key(#[trigger] v@[q]),
        decreases v@.len() - i,
    {
        let ki = key_of(&v[i]);
        if let Some(k) = ki {
            let mut j: usize = 0;
            while j < i
                invariant
                    j <= i < v@.len(),
                    node_key(v@[i as int]) == Some(k),
                    forall|p: int| 0 <= p < j ==> node_key(#[trigger] v@[p]) != Some(k),
                decreases i - j,
            {
                if let Some(kj) = key_of(&v[j]) {
                    if kj == k {
                        return false;
                    }
                }
                j = j + 1;
            }
        }
        i = i + 1;
    }
    true
}

/// Checks the well-formedness of a tree: the runtime rejects a view output
/// that fails this, since duplicate keys or names would make reconciliation
/// ambiguous.
pub fn check_wf(n: &Node) -> (r: bool)
    ensures
        r == node_wf(*n),
    decreases n,
{
    match n {
        Node::Element(e) => {
            if !names_unique(&e.attrs) {
                return false;
            }
            if !names_unique(&e.styles) {
                return false;
            }
            if !names_unique(&e.listeners) {
                return false;
            }
            if !sibling_keys_unique(&e.children) {
                return false;
            }
            let mut i: usize = 0;
            #[verifier::loop_isolation(false)]
            while i < e.children.len()
                invariant
                    i <= e.children@.len(),
                    forall|j: int| 0 <= j < i ==> node_wf(#[trigger] e.children@[j]),
                decreases e.children@.len() - i,
            {
                if !check_wf(&e.children[i]) {
                    return false;
                }
                i = i + 1;
            }
            true
        },
        Node::Text(_) => true,
        Node::Empty => true,
    }
}

} // verus!
