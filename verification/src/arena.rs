//! Append-only arenas and the typed handles that index them.

use core::marker::PhantomData;
use vstd::prelude::*;

verus! {

/// A stable handle to one entry of an [`Arena`] of `T`.
///
/// A handle is nothing but the position of its entry, counted from zero. The
/// type parameter keeps handles of different arenas apart.
#[derive(Debug, PartialEq, Eq)]
pub struct Token<T> {
    pub index: usize,
    pub marker: PhantomData<T>,
}

impl<T> Token<T> {
    /// The position this handle stands for.
    pub open spec fn id(self) -> nat {
        self.index as nat
    }

    /// The handle that stands for position `index`.
    pub open spec fn at(index: usize) -> Self {
        Token { index, marker: PhantomData }
    }

    /// The handle of the entry at `index`.
    pub fn new(index: usize) -> (token: Self)
        ensures
            token == Self::at(index),
    {
        Token { index, marker: PhantomData }
    }

    /// The position of the entry in its arena, counted from zero.
    pub fn index(&self) -> (index: usize)
        ensures
            index == self.id(),
    {
        self.index
    }
}

impl<T> Clone for Token<T> {
    fn clone(&self) -> (token: Self)
        ensures
            token == *self,
    {
        Token { index: self.index, marker: PhantomData }
    }
}

impl<T> Copy for Token<T> {

}

/// An append-only sequence of `T`, addressed by [`Token`]s.
///
/// Entries are never removed or moved, so a handle stays valid for as long as
/// the arena lives.
#[derive(Debug, PartialEq, Eq)]
pub struct Arena<T> {
    data: Vec<T>,
}

impl<T> View for Arena<T> {
    type V = Seq<T>;

    closed spec fn view(&self) -> Seq<T> {
        self.data@
    }
}

impl<T> Arena<T> {
    /// An arena without entries.
    pub fn new() -> (arena: Self)
        ensures
            arena@ == Seq::<T>::empty(),
    {
        Arena { data: Vec::new() }
    }

    /// The number of entries.
    pub fn len(&self) -> (n: usize)
        ensures
            n == self@.len(),
    {
        self.data.len()
    }

    /// Adds `value` behind the entries already present and hands out its handle.
    pub fn append(&mut self, value: T) -> (token: Token<T>)
        ensures
            final(self)@ == old(self)@.push(value),
            token == Token::<T>::at(old(self)@.len() as usize),
    {
        let index = self.data.len();
        self.data.push(value);
        Token::new(index)
    }

    /// The entry at position `index`.
    pub fn get(&self, index: usize) -> (entry: &T)
        requires
            index < self@.len(),
        ensures
            *entry == self@[index as int],
    {
        &self.data[index]
    }

    /// The entry that `token` stands for, or nothing where the arena has no
    /// entry at that position.
    pub fn try_get(&self, token: Token<T>) -> (entry: Option<&T>)
        ensures
            entry == (if token.id() < self@.len() {
                Some(&self@[token.id() as int])
            } else {
                None
            }),
    {
        if token.index < self.data.len() {
            Some(&self.data[token.index])
        } else {
            None
        }
    }
}

} // verus!
