use vstd::prelude::*;

verus! {

/// A growable last-in, first-out sequence. Its view lists the elements from the
/// bottom to the top: the last element of the view is the most recently pushed one.
#[derive(Debug)]
pub struct Stack<T> {
    lista: Vec<T>,
}

impl<T> View for Stack<T> {
    type V = Seq<T>;

    closed spec fn view(&self) -> Seq<T> {
        self.lista@
    }
}

impl<T> Stack<T> {
    /// An empty stack.
    pub fn new() -> (s: Stack<T>)
        ensures
            s@ == Seq::<T>::empty(),
    {
        Stack { lista: Vec::new() }
    }

    /// Puts `valor` on top.
    pub fn push(&mut self, valor: T)
        ensures
            final(self)@ == old(self)@.push(valor),
    {
        self.lista.push(valor);
    }

    /// Takes the top element off, if there is one.
    pub fn pop(&mut self) -> (r: Option<T>)
        ensures
            old(self)@.len() == 0 ==> r is None && final(self)@ == old(self)@,
            old(self)@.len() > 0 ==> r == Some(old(self)@.last()) && final(self)@ == old(
                self,
            )@.drop_last(),
    {
        self.lista.pop()
    }

    /// The number of elements.
    pub fn len(&self) -> (n: usize)
        ensures
            n == self@.len(),
    {
        self.lista.len()
    }

    /// Whether the stack holds no element.
    pub fn is_empty(&self) -> (b: bool)
        ensures
            b == (self@.len() == 0),
    {
        self.lista.is_empty()
    }

    /// The element `abaixo` positions below the top; `abaixo == 0` is the top itself.
    pub(crate) fn espiar(&self, abaixo: usize) -> (r: &T)
        requires
            abaixo < self@.len(),
        ensures
            *r == self@[self@.len() - 1 - abaixo],
    {
        &self.lista[self.lista.len() - 1 - abaixo]
    }

    /// Exchanges the top with the element `abaixo` positions below it.
    pub(crate) fn trocar(&mut self, abaixo: usize)
        requires
            abaixo < old(self)@.len(),
        ensures
            final(self)@ == old(self)@.update(old(self)@.len() - 1, old(self)@[old(self)@.len() - 1 - abaixo]).update(
                old(self)@.len() - 1 - abaixo,
                old(self)@.last(),
            ),
    {
        if abaixo > 0 {
            let n = self.lista.len();
            let mut topo = self.lista.pop().unwrap();
            core::mem::swap(&mut self.lista[n - 1 - abaixo], &mut topo);
            self.lista.push(topo);
        }
    }

    /// Removes every element.
    pub(crate) fn clear(&mut self)
        ensures
            final(self)@ == Seq::<T>::empty(),
    {
        self.lista.clear();
    }
}

} // verus!
