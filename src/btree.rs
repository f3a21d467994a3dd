use vstd::prelude::*;

verus! {

/// One entry of the search tree: a key, a borrowed value and two subtrees.
pub struct Node<'a, T> {
    key: u32,
    val: &'a T,
    l: Option<Box<Node<'a, T>>>,
    r: Option<Box<Node<'a, T>>>,
}

/// An unbalanced binary search tree from `u32` keys to borrowed values.
/// A key is stored at most once: inserting a present key is refused.
pub struct RedBlackBST<'a, T> {
    head: Option<Box<Node<'a, T>>>,
    size: u32,
}

impl<'a, T> Node<'a, T> {
    pub closed spec fn sub_map(t: Option<Box<Node<'a, T>>>) -> Map<u32, T>
        decreases t,
    {
        match t {
            None => Map::empty(),
            Some(n) => n.entries(),
        }
    }

    /// The entries held by this node and its subtrees.
    pub closed spec fn entries(self) -> Map<u32, T>
        decreases self,
    {
        Node::sub_map(self.l).union_prefer_right(Node::sub_map(self.r)).insert(self.key, *self.val)
    }

    pub closed spec fn sub_ordered(t: Option<Box<Node<'a, T>>>) -> bool
        decreases t,
    {
        match t {
            None => true,
            Some(n) => n.ordered(),
        }
    }

    /// Every key on the left is smaller than this node's key, every key on the right larger,
    /// and so on in each subtree.
    pub closed spec fn ordered(self) -> bool
        decreases self,
    {
        &&& forall|k: u32| #[trigger] Node::sub_map(self.l).dom().contains(k) ==> k < self.key
        &&& forall|k: u32| #[trigger] Node::sub_map(self.r).dom().contains(k) ==> k > self.key
        &&& Node::sub_ordered(self.l)
        &&& Node::sub_ordered(self.r)
    }

    /// A leaf holding `key` and `val`.
    pub fn new(key: u32, val: &'a T) -> (n: Option<Box<Self>>)
        ensures
            n.is_some(),
            n.unwrap().ordered(),
            n.unwrap().entries() == map![key => *val],
    {
        let leaf = Node { key, val, l: None, r: None };
        assert(leaf.entries() =~= map![key => *val]);
        Some(Box::new(leaf))
    }

    /// Looks `key` up below this node.
    pub fn get(&self, key: u32) -> (r: Result<&'a T, &'static str>)
        requires
            self.ordered(),
        ensures
            self.entries().dom().contains(key) <==> r.is_ok(),
            r.is_ok() ==> *r.unwrap() == self.entries()[key],
            r.is_err() ==> r->Err_0@ == "Key: not found"@,
        decreases self,
    {
        if self.key == key {
            Ok(self.val)
        } else {
            let target = if key < self.key {
                assert(!Node::sub_map(self.r).dom().contains(key));
                &self.l
            } else {
                assert(!Node::sub_map(self.l).dom().contains(key));
                &self.r
            };
            match target {
                Some(sub) => sub.get(key),
                None => Err("Key: not found"),
            }
        }
    }

    fn insert_below(t: &mut Option<Box<Node<'a, T>>>, key: u32, val: &'a T) -> (r: Result<(), &'static str>)
        requires
            Node::sub_ordered(*old(t)),
        ensures
            Node::sub_ordered(*final(t)),
            r.is_ok() <==> !Node::sub_map(*old(t)).dom().contains(key),
            r.is_ok() ==> Node::sub_map(*final(t)) == Node::sub_map(*old(t)).insert(key, *val),
            r.is_err() ==> *final(t) == *old(t) && r->Err_0@ == "Key already present"@,
        decreases *old(t),
    {
        match t.take() {
            None => {
                *t = Node::new(key, val);
                assert(Node::sub_map(*t) =~= Node::sub_map(None::<Box<Node<'a, T>>>).insert(key, *val));
                Ok(())
            },
            Some(mut node) => {
                let r = node.insert(key, val);
                *t = Some(node);
                r
            },
        }
    }

    fn insert(&mut self, key: u32, val: &'a T) -> (r: Result<(), &'static str>)
        requires
            old(self).ordered(),
        ensures
            final(self).ordered(),
            r.is_ok() <==> !old(self).entries().dom().contains(key),
            r.is_ok() ==> final(self).entries() == old(self).entries().insert(key, *val),
            r.is_err() ==> *final(self) == *old(self) && r->Err_0@ == "Key already present"@,
        decreases *old(self),
    {
        if self.key == key {
            Err("Key already present")
        } else if key < self.key {
            let r = Node::insert_below(&mut self.l, key, val);
            proof {
                if r.is_ok() {
                    assert(!Node::sub_map(self.r).dom().contains(key));
                    assert(self.entries() =~= old(self).entries().insert(key, *val));
                }
            }
            r
        } else {
            let r = Node::insert_below(&mut self.r, key, val);
            proof {
                if r.is_ok() {
                    assert(!Node::sub_map(self.l).dom().contains(key));
                    assert(self.entries() =~= old(self).entries().insert(key, *val));
                }
            }
            r
        }
    }
}

impl<'a, T> RedBlackBST<'a, T> {
    /// The stored entries.
    pub closed spec fn view(&self) -> Map<u32, T> {
        Node::sub_map(self.head)
    }

    pub closed spec fn well_formed(&self) -> bool {
        &&& Node::sub_ordered(self.head)
        &&& self.size as nat == self.view().len()
        &&& self.view().dom().finite()
    }

    /// An empty tree.
    pub fn new() -> (t: Self)
        ensures
            t.well_formed(),
            t.view() == Map::<u32, T>::empty(),
            t.view().dom().finite(),
    {
        let t = RedBlackBST { head: None, size: 0 };
        assert(t.view().dom() =~= Set::<u32>::empty());
        t
    }

    /// A well-formed tree holds finitely many entries.
    pub proof fn lemma_finite(&self)
        requires
            self.well_formed(),
        ensures
            self.view().dom().finite(),
    {
    }

    /// The number of stored entries.
    pub fn size(&self) -> (n: u32)
        requires
            self.well_formed(),
        ensures
            n as nat == self.view().len(),
    {
        self.size
    }

    /// Stores `val` under `key`; fails, leaving the tree as it was, when `key` is present.
    pub fn insert(&mut self, key: u32, val: &'a T) -> (r: Result<(), &'static str>)
        requires
            old(self).well_formed(),
            old(self).view().len() < u32::MAX,
        ensures
            final(self).well_formed(),
            r.is_ok() <==> !old(self).view().dom().contains(key),
            r.is_ok() ==> final(self).view() == old(self).view().insert(key, *val),
            r.is_err() ==> final(self).view() == old(self).view() && r->Err_0@ == "Key already present"@,
            final(self).view().dom().finite(),
    {
        let r = Node::insert_below(&mut self.head, key, val);
        if r.is_ok() {
            self.size = self.size + 1;
        }
        r
    }

    /// The value stored under `key`, or an error when there is none.
    pub fn get(&self, key: u32) -> (r: Result<&'a T, &'static str>)
        requires
            self.well_formed(),
        ensures
            r.is_ok() <==> self.view().dom().contains(key),
            r.is_ok() ==> *r.unwrap() == self.view()[key],
            r.is_err() && self.view().dom().len() == 0 ==> r->Err_0@ == "Tree is empty"@,
            r.is_err() && self.view().dom().len() != 0 ==> r->Err_0@ == "Key: not found"@,
    {
        match self.head.as_ref() {
            None => Err("Tree is empty"),
            Some(head) => {
                proof {
                    assert(self.view().dom().contains(head.key));
                    assert(self.view().dom().remove(head.key).len() + 1 == self.view().dom().len());
                }
                head.get(key)
            },
        }
    }
}

} // verus!
