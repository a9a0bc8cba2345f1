//! A doubly-ended list of owned nodes.
//!
//! Nodes are pushed and popped at either end; the list owns them while they
//! are in it and hands ownership back when they are popped.
use vstd::prelude::*;

verus! {

/// A list of nodes, from front to back.
pub struct ListNode<T> {
    nodes: Vec<T>,
}

impl<T> View for ListNode<T> {
    type V = Seq<T>;

    /// The nodes, from front to back.
    closed spec fn view(&self) -> Seq<T> {
        self.nodes@
    }
}

impl<T> ListNode<T> {
    /// An empty list.
    pub fn new() -> (r: Self)
        ensures
            r@ == Seq::<T>::empty(),
    {
        ListNode { nodes: Vec::new() }
    }

    /// The node at the front, if any.
    pub fn front(&self) -> (r: Option<&T>)
        ensures
            self@.len() == 0 ==> r is None,
            self@.len() > 0 ==> r == Some(&self@[0]),
    {
        if self.nodes.len() == 0 {
            None
        } else {
            Some(&self.nodes[0])
        }
    }

    /// The node at the back, if any.
    pub fn back(&self) -> (r: Option<&T>)
        ensures
            self@.len() == 0 ==> r is None,
            self@.len() > 0 ==> r == Some(&self@.last()),
    {
        let n = self.nodes.len();
        if n == 0 {
            None
        } else {
            Some(&self.nodes[n - 1])
        }
    }

    /// Whether the list holds no node.
    pub fn is_empty(&self) -> (r: bool)
        ensures
            r == (self@.len() == 0),
    {
        self.nodes.len() == 0
    }

    /// Adds `item` at the front.
    pub fn push_front(&mut self, item: T)
        ensures
            final(self)@ == seq![item] + old(self)@,
    {
        self.nodes.insert(0, item);
        proof {
            assert(self.nodes@ =~= seq![item] + old(self)@);
        }
    }

    /// Adds `item` at the back.
    pub fn push_back(&mut self, item: T)
        ensures
            final(self)@ == old(self)@.push(item),
    {
        self.nodes.push(item);
    }

    /// Removes the front node and hands it back, if there is one.
    pub fn pop_front(&mut self) -> (r: Option<T>)
        ensures
            old(self)@.len() == 0 ==> r is None && final(self)@ == old(self)@,
            old(self)@.len() > 0 ==> r == Some(old(self)@[0]) && final(self)@ == old(
                self,
            )@.drop_first(),
    {
        if self.nodes.len() == 0 {
            None
        } else {
            let item = self.nodes.remove(0);
            proof {
                assert(self.nodes@ =~= old(self)@.drop_first());
            }
            Some(item)
        }
    }

    /// Removes the back node and hands it back, if there is one.
    pub fn pop_back(&mut self) -> (r: Option<T>)
        ensures
            old(self)@.len() == 0 ==> r is None && final(self)@ == old(self)@,
            old(self)@.len() > 0 ==> r == Some(old(self)@.last()) && final(self)@ == old(
                self,
            )@.drop_last(),
    {
        self.nodes.pop()
    }
}

/// Pushing at the front and then popping at the front gives back the node
/// pushed and leaves the list as it was.
pub proof fn lemma_push_pop_front<T>(before: Seq<T>, item: T)
    ensures
        (seq![item] + before)[0] == item,
        (seq![item] + before).drop_first() == before,
{
    assert((seq![item] + before).drop_first() =~= before);
}

/// Pushing at the back and then popping at the back gives back the node
/// pushed and leaves the list as it was.
pub proof fn lemma_push_pop_back<T>(before: Seq<T>, item: T)
    ensures
        before.push(item).last() == item,
        before.push(item).drop_last() == before,
{
    assert(before.push(item).drop_last() =~= before);
}

/// After a push at either end the list is not empty, and a push onto an
/// empty list makes the new node both the front and the back.
pub proof fn lemma_push_nonempty<T>(before: Seq<T>, item: T)
    ensures
        (seq![item] + before).len() > 0,
        before.push(item).len() > 0,
        before.len() == 0 ==> (seq![item] + before)[0] == item && (seq![item]
            + before).last() == item,
{
}

} // verus!
