//! A sink that records every edit it receives.
use crate::types::{Element, NodePtr};
use crate::writer::{DiffWriter, Edit};
use vstd::prelude::*;

verus! {

/// One recorded edit.
#[derive(Debug, PartialEq, Eq)]
pub enum EditOp {
    SetText(String),
    ReplaceWithText(String),
    ReplaceWithElement(Element),
    SetAttribute(String, String),
    RemoveAttribute(String),
    RemoveAllChildren,
    AddAllChildren(Vec<NodePtr>),
    PrependChild(NodePtr),
    InsertChild(NodePtr),
    DeleteChild,
    SkipChild,
}

impl EditOp {
    pub open spec fn view(&self) -> Edit {
        match self {
            EditOp::SetText(t) => Edit::SetText(t@),
            EditOp::ReplaceWithText(t) => Edit::ReplaceWithText(t@),
            EditOp::ReplaceWithElement(e) => Edit::ReplaceWithElement(e@),
            EditOp::SetAttribute(k, v) => Edit::SetAttribute(k@, v@),
            EditOp::RemoveAttribute(k) => Edit::RemoveAttribute(k@),
            EditOp::RemoveAllChildren => Edit::RemoveAllChildren,
            EditOp::AddAllChildren(c) => Edit::AddAllChildren(c@),
            EditOp::PrependChild(c) => Edit::PrependChild(*c),
            EditOp::InsertChild(c) => Edit::InsertChild(*c),
            EditOp::DeleteChild => Edit::DeleteChild,
            EditOp::SkipChild => Edit::SkipChild,
        }
    }
}

/// Keeps the edits it receives, in order.
pub struct EditLog {
    pub ops: Vec<EditOp>,
}

impl EditLog {
    pub fn new() -> (r: EditLog)
        ensures
            r.log() == Seq::<Edit>::empty(),
    {
        let r = EditLog { ops: Vec::new() };
        assert(r.log() =~= Seq::<Edit>::empty());
        r
    }

    fn record(&mut self, op: EditOp)
        ensures
            final(self).log() == old(self).log().push(op@),
    {
        self.ops.push(op);
        assert(self.log() =~= old(self).log().push(op@));
    }
}

impl DiffWriter for EditLog {
    open spec fn log(&self) -> Seq<Edit> {
        self.ops@.map_values(|o: EditOp| o@)
    }

    fn set_text(&mut self, text: &str) {
        self.record(EditOp::SetText(text.to_owned()));
    }

    fn replace_with_text(&mut self, text: &str) {
        self.record(EditOp::ReplaceWithText(text.to_owned()));
    }

    fn replace_with_element(&mut self, element: &Element) {
        self.record(EditOp::ReplaceWithElement(element.duplicate()));
    }

    fn set_attribute(&mut self, key: &str, value: &str) {
        self.record(EditOp::SetAttribute(key.to_owned(), value.to_owned()));
    }

    fn remove_attribute(&mut self, key: &str) {
        self.record(EditOp::RemoveAttribute(key.to_owned()));
    }

    fn remove_all_children(&mut self) {
        self.record(EditOp::RemoveAllChildren);
    }

    fn add_all_children(&mut self, children: &[NodePtr]) {
        let mut copy: Vec<NodePtr> = Vec::new();
        let mut i: usize = 0;
        while i < children.len()
            invariant
                i <= children@.len(),
                copy@ == children@.subrange(0, i as int),
            decreases children@.len() - i,
        {
            copy.push(children[i].share());
            i = i + 1;
        }
        assert(copy@ =~= children@);
        self.record(EditOp::AddAllChildren(copy));
    }

    fn prepend_child(&mut self, child: &NodePtr) {
        self.record(EditOp::PrependChild(child.share()));
    }

    fn insert_child(&mut self, child: &NodePtr) {
        self.record(EditOp::InsertChild(child.share()));
    }

    fn delete_child(&mut self) {
        self.record(EditOp::DeleteChild);
    }

    fn skip_child(&mut self) {
        self.record(EditOp::SkipChild);
    }
}

} // verus!
