//! The tree model: text and element nodes, shared through reference-counted handles.
use std::sync::Arc;
use vstd::prelude::*;

verus! {

pub type AttrValue = String;

pub type Attrs = im::OrdMap<String, AttrValue>;

#[verifier::external_type_specification]
#[verifier::external_body]
#[verifier::reject_recursive_types(K)]
#[verifier::reject_recursive_types(V)]
pub struct ExOrdMap<K, V>(im::OrdMap<K, V>);

/// The key/value pairs that an attribute map holds.
pub uninterp spec fn attr_entries(m: im::OrdMap<String, String>) -> Map<Seq<char>, Seq<char>>;

/// A shared, read-only handle to a node. Two handles are equal when they
/// point to the same allocation, whatever the nodes hold.
#[derive(Debug)]
pub struct NodePtr(pub Arc<Node>);

#[derive(Eq, PartialEq, Debug)]
pub struct Element {
    pub tag: String,
    pub children: Vec<NodePtr>,
    pub attrs: Attrs,
}

#[derive(Eq, PartialEq, Debug)]
pub enum Node {
    Text(String),
    Element(Element),
}

/// Relies on `Arc::ptr_eq`: true only when both handles point to one
/// allocation, which then holds one value.
#[verifier::external_body]
fn same_allocation(a: &Arc<Node>, b: &Arc<Node>) -> (r: bool)
    ensures
        r ==> *a == *b,
{
    Arc::ptr_eq(a, b)
}

/// Relies on `Arc::clone`: the new handle points to the same allocation.
#[verifier::external_body]
fn share(a: &Arc<Node>) -> (r: Arc<Node>)
    ensures
        r == *a,
{
    Arc::clone(a)
}

/// Relies on `Arc::as_ptr`: the address of each child's allocation, as an
/// integer. Every allocation of both lists lives through the call, and two
/// live allocations of a sized value never share an address, so equal keys
/// mean one allocation, which holds one value.
#[verifier::external_body]
pub(crate) fn identity_keys(prev: &Vec<NodePtr>, new: &Vec<NodePtr>) -> (r: (Vec<usize>, Vec<usize>))
    ensures
        r.0@.len() == prev@.len(),
        r.1@.len() == new@.len(),
        forall|i: int, j: int|
            0 <= i < prev@.len() && 0 <= j < new@.len() && r.0@[i] == r.1@[j] ==> prev@[i] == new@[j],
{
    (
        prev.iter().map(|p| Arc::as_ptr(&p.0) as usize).collect(),
        new.iter().map(|p| Arc::as_ptr(&p.0) as usize).collect(),
    )
}

/// Relies on `Clone` for `im::OrdMap`: the copy holds the same entries.
#[verifier::external_body]
fn copy_attrs(m: &Attrs) -> (r: Attrs)
    ensures
        attr_entries(r) == attr_entries(*m),
{
    m.clone()
}

impl Element {
    /// A copy that shares the children's allocations.
    pub fn duplicate(&self) -> (r: Element)
        ensures
            r.tag@ == self.tag@,
            r.children@ == self.children@,
            attr_entries(r.attrs) == attr_entries(self.attrs),
    {
        let mut children: Vec<NodePtr> = Vec::new();
        let mut i: usize = 0;
        while i < self.children.len()
            invariant
                i <= self.children@.len(),
                children@ == self.children@.subrange(0, i as int),
            decreases self.children@.len() - i,
        {
            children.push(self.children[i].share());
            i = i + 1;
        }
        Element { tag: self.tag.clone(), children, attrs: copy_attrs(&self.attrs) }
    }
}

impl Clone for Element {
    fn clone(&self) -> (r: Element)
        ensures
            r.tag@ == self.tag@,
            r.children@ == self.children@,
            attr_entries(r.attrs) == attr_entries(self.attrs),
    {
        self.duplicate()
    }
}

impl Clone for Node {
    fn clone(&self) -> (r: Node)
        ensures
            match (*self, r) {
                (Node::Text(a), Node::Text(b)) => a@ == b@,
                (Node::Element(a), Node::Element(b)) => a.tag@ == b.tag@ && a.children@ == b.children@
                    && attr_entries(a.attrs) == attr_entries(b.attrs),
                _ => false,
            },
    {
        match self {
            Node::Text(t) => Node::Text(t.clone()),
            Node::Element(e) => Node::Element(e.duplicate()),
        }
    }
}

impl NodePtr {
    /// A second handle to the same allocation.
    pub fn share(&self) -> (r: NodePtr)
        ensures
            r == *self,
    {
        NodePtr(share(&self.0))
    }
}

impl Clone for NodePtr {
    fn clone(&self) -> (r: NodePtr)
        ensures
            r == *self,
    {
        self.share()
    }
}

impl PartialEq for NodePtr {
    fn eq(&self, other: &NodePtr) -> (r: bool)
        ensures
            r ==> *self == *other,
    {
        same_allocation(&self.0, &other.0)
    }
}

// Identity has no counterpart among spec values, so `==` on handles is given
// no spec meaning: what a comparison returns is left open to proofs.
impl vstd::std_specs::cmp::PartialEqSpecImpl for NodePtr {
    open spec fn obeys_eq_spec() -> bool {
        false
    }

    open spec fn eq_spec(&self, other: &NodePtr) -> bool {
        self == other
    }
}

impl Eq for NodePtr {}

} // verus!
