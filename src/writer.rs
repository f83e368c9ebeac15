//! The sink that receives edits, and the edits themselves.
use crate::types::{attr_entries, Element, NodePtr};
use vstd::prelude::*;

verus! {

/// What an element holds, as plain values.
pub struct ElementView {
    pub tag: Seq<char>,
    pub children: Seq<NodePtr>,
    pub attrs: Map<Seq<char>, Seq<char>>,
}

impl Element {
    pub open spec fn view(&self) -> ElementView {
        ElementView { tag: self.tag@, children: self.children@, attrs: attr_entries(self.attrs) }
    }
}

/// One edit, as the sink receives it.
pub enum Edit {
    SetText(Seq<char>),
    ReplaceWithText(Seq<char>),
    ReplaceWithElement(ElementView),
    SetAttribute(Seq<char>, Seq<char>),
    RemoveAttribute(Seq<char>),
    RemoveAllChildren,
    AddAllChildren(Seq<NodePtr>),
    PrependChild(NodePtr),
    InsertChild(NodePtr),
    DeleteChild,
    SkipChild,
}

/// A destination for edits, applied by the receiver in the order they come.
/// `log` is the sequence of edits received so far.
pub trait DiffWriter {
    spec fn log(&self) -> Seq<Edit>;

    fn set_text(&mut self, text: &str)
        ensures
            final(self).log() == old(self).log().push(Edit::SetText(text@)),
    ;

    fn replace_with_text(&mut self, text: &str)
        ensures
            final(self).log() == old(self).log().push(Edit::ReplaceWithText(text@)),
    ;

    fn replace_with_element(&mut self, element: &Element)
        ensures
            final(self).log() == old(self).log().push(Edit::ReplaceWithElement(element@)),
    ;

    fn set_attribute(&mut self, key: &str, value: &str)
        ensures
            final(self).log() == old(self).log().push(Edit::SetAttribute(key@, value@)),
    ;

    fn remove_attribute(&mut self, key: &str)
        ensures
            final(self).log() == old(self).log().push(Edit::RemoveAttribute(key@)),
    ;

    fn remove_all_children(&mut self)
        ensures
            final(self).log() == old(self).log().push(Edit::RemoveAllChildren),
    ;

    fn add_all_children(&mut self, children: &[NodePtr])
        ensures
            final(self).log() == old(self).log().push(Edit::AddAllChildren(children@)),
    ;

    fn prepend_child(&mut self, child: &NodePtr)
        ensures
            final(self).log() == old(self).log().push(Edit::PrependChild(*child)),
    ;

    fn insert_child(&mut self, child: &NodePtr)
        ensures
            final(self).log() == old(self).log().push(Edit::InsertChild(*child)),
    ;

    fn delete_child(&mut self)
        ensures
            final(self).log() == old(self).log().push(Edit::DeleteChild),
    ;

    fn skip_child(&mut self)
        ensures
            final(self).log() == old(self).log().push(Edit::SkipChild),
    ;
}

} // verus!
