use vstd::prelude::*;

verus! {

/// A list of children that are rendered in order.
pub struct DynChildrenRenderer<T> {
    children: Vec<T>,
}

impl<T> View for DynChildrenRenderer<T> {
    type V = Seq<T>;

    closed spec fn view(&self) -> Seq<T> {
        self.children@
    }
}

impl<T> DynChildrenRenderer<T> {
    /// Children in the given order.
    pub fn new(children: Vec<T>) -> (r: Self)
        ensures
            r@ == children@,
    {
        Self { children }
    }

    /// Whether there are no children.
    pub fn is_empty(&self) -> (r: bool)
        ensures
            r == (self@.len() == 0),
    {
        self.children.len() == 0
    }

    /// The number of children.
    pub fn len(&self) -> (r: usize)
        ensures
            r == self@.len(),
    {
        self.children.len()
    }

    /// Copies of the children, in order.
    pub fn iter(&self) -> (r: Vec<T>)
        where
            T: Clone,
        ensures
            r@.len() == self@.len(),
            forall|i: int| 0 <= i < r@.len() ==> cloned::<T>(self@[i], #[trigger] r@[i]),
    {
        let mut r: Vec<T> = Vec::new();
        let mut i: usize = 0;
        while i < self.children.len()
            invariant
                i <= self.children@.len(),
                r@.len() == i,
                forall|j: int| 0 <= j < i ==> cloned::<T>(self.children@[j], #[trigger] r@[j]),
            decreases self.children@.len() - i,
        {
            let c = self.children[i].clone();
            r.push(c);
            i = i + 1;
        }
        r
    }

    /// Appends a child at the end.
    pub fn push(&mut self, e: T)
        ensures
            final(self)@ == old(self)@.push(e),
    {
        self.children.push(e);
    }

    /// Removes and returns the last child, if there is one.
    pub fn pop(&mut self) -> (r: Option<T>)
        ensures
            old(self)@.len() == 0 ==> r is None && final(self)@ == old(self)@,
            old(self)@.len() > 0 ==> r == Some(old(self)@.last())
                && final(self)@ == old(self)@.drop_last(),
    {
        self.children.pop()
    }

    /// The children themselves, in order.
    pub fn into_iter(self) -> (r: Vec<T>)
        ensures
            r@ == self@,
    {
        self.children
    }
}

impl<T> Default for DynChildrenRenderer<T> {
    /// No children.
    fn default() -> (r: Self)
        ensures
            r@ == Seq::<T>::empty(),
    {
        Self { children: Vec::new() }
    }
}

} // verus!
