//! Indexing slices and vectors by piece, colour, square, rank and file, to read and to
//! write: the entry at the position of the key's index.

use crate::piece::{Color, Piece};
use crate::square::{File, Rank, Square};
use vstd::prelude::*;

verus! {

impl<T> std::ops::Index<Piece> for [T] {
    type Output = T;

    fn index(&self, index: Piece) -> (r: &T)
        ensures
            *r == self@[index.idx()],
    {
        &self[index.to_index()]
    }
}

impl<T> vstd::std_specs::core::IndexSpecImpl<Piece> for [T] {
    open spec fn index_req(&self, index: &Piece) -> bool {
        index.idx() < self@.len()
    }
}

impl<T> std::ops::IndexMut<Piece> for [T] {
    fn index_mut(&mut self, index: Piece) -> (r: &mut T)
        requires
            index.idx() < old(self)@.len(),
        ensures
            *r == old(self)@[index.idx()],
            final(self)@ == old(self)@.update(index.idx(), *final(r)),
    {
        let (_, tail) = self.split_at_mut(index.to_index());
        match tail.first_mut() {
            Some(r) => r,
            None => vstd::pervasive::unreached(),
        }
    }
}

impl<T> std::ops::Index<Piece> for Vec<T> {
    type Output = T;

    fn index(&self, index: Piece) -> (r: &T)
        ensures
            *r == self@[index.idx()],
    {
        &self[index.to_index()]
    }
}

impl<T> vstd::std_specs::core::IndexSpecImpl<Piece> for Vec<T> {
    open spec fn index_req(&self, index: &Piece) -> bool {
        index.idx() < self@.len()
    }
}

impl<T> std::ops::IndexMut<Piece> for Vec<T> {
    fn index_mut(&mut self, index: Piece) -> (r: &mut T)
        requires
            index.idx() < old(self)@.len(),
        ensures
            *r == old(self)@[index.idx()],
            final(self)@ == old(self)@.update(index.idx(), *final(r)),
    {
        let i = index.to_index();
        &mut self[i]
    }
}

impl<T> std::ops::Index<Color> for [T] {
    type Output = T;

    fn index(&self, index: Color) -> (r: &T)
        ensures
            *r == self@[index.idx()],
    {
        &self[index.to_index()]
    }
}

impl<T> vstd::std_specs::core::IndexSpecImpl<Color> for [T] {
    open spec fn index_req(&self, index: &Color) -> bool {
        index.idx() < self@.len()
    }
}

impl<T> std::ops::IndexMut<Color> for [T] {
    fn index_mut(&mut self, index: Color) -> (r: &mut T)
        requires
            index.idx() < old(self)@.len(),
        ensures
            *r == old(self)@[index.idx()],
            final(self)@ == old(self)@.update(index.idx(), *final(r)),
    {
        let (_, tail) = self.split_at_mut(index.to_index());
        match tail.first_mut() {
            Some(r) => r,
            None => vstd::pervasive::unreached(),
        }
    }
}

impl<T> std::ops::Index<Color> for Vec<T> {
    type Output = T;

    fn index(&self, index: Color) -> (r: &T)
        ensures
            *r == self@[index.idx()],
    {
        &self[index.to_index()]
    }
}

impl<T> vstd::std_specs::core::IndexSpecImpl<Color> for Vec<T> {
    open spec fn index_req(&self, index: &Color) -> bool {
        index.idx() < self@.len()
    }
}

impl<T> std::ops::IndexMut<Color> for Vec<T> {
    fn index_mut(&mut self, index: Color) -> (r: &mut T)
        requires
            index.idx() < old(self)@.len(),
        ensures
            *r == old(self)@[index.idx()],
            final(self)@ == old(self)@.update(index.idx(), *final(r)),
    {
        let i = index.to_index();
        &mut self[i]
    }
}

impl<T> std::ops::Index<Square> for [T] {
    type Output = T;

    fn index(&self, index: Square) -> (r: &T)
        ensures
            *r == self@[index.idx()],
    {
        &self[index.to_index()]
    }
}

impl<T> vstd::std_specs::core::IndexSpecImpl<Square> for [T] {
    open spec fn index_req(&self, index: &Square) -> bool {
        index.idx() < self@.len()
    }
}

impl<T> std::ops::IndexMut<Square> for [T] {
    fn index_mut(&mut self, index: Square) -> (r: &mut T)
        requires
            index.idx() < old(self)@.len(),
        ensures
            *r == old(self)@[index.idx()],
            final(self)@ == old(self)@.update(index.idx(), *final(r)),
    {
        let (_, tail) = self.split_at_mut(index.to_index());
        match tail.first_mut() {
            Some(r) => r,
            None => vstd::pervasive::unreached(),
        }
    }
}

impl<T> std::ops::Index<Square> for Vec<T> {
    type Output = T;

    fn index(&self, index: Square) -> (r: &T)
        ensures
            *r == self@[index.idx()],
    {
        &self[index.to_index()]
    }
}

impl<T> vstd::std_specs::core::IndexSpecImpl<Square> for Vec<T> {
    open spec fn index_req(&self, index: &Square) -> bool {
        index.idx() < self@.len()
    }
}

impl<T> std::ops::IndexMut<Square> for Vec<T> {
    fn index_mut(&mut self, index: Square) -> (r: &mut T)
        requires
            index.idx() < old(self)@.len(),
        ensures
            *r == old(self)@[index.idx()],
            final(self)@ == old(self)@.update(index.idx(), *final(r)),
    {
        let i = index.to_index();
        &mut self[i]
    }
}

impl<T> std::ops::Index<Rank> for [T] {
    type Output = T;

    fn index(&self, index: Rank) -> (r: &T)
        ensures
            *r == self@[index.idx()],
    {
        &self[index.to_index()]
    }
}

impl<T> vstd::std_specs::core::IndexSpecImpl<Rank> for [T] {
    open spec fn index_req(&self, index: &Rank) -> bool {
        index.idx() < self@.len()
    }
}

impl<T> std::ops::IndexMut<Rank> for [T] {
    fn index_mut(&mut self, index: Rank) -> (r: &mut T)
        requires
            index.idx() < old(self)@.len(),
        ensures
            *r == old(self)@[index.idx()],
            final(self)@ == old(self)@.update(index.idx(), *final(r)),
    {
        let (_, tail) = self.split_at_mut(index.to_index());
        match tail.first_mut() {
            Some(r) => r,
            None => vstd::pervasive::unreached(),
        }
    }
}

impl<T> std::ops::Index<Rank> for Vec<T> {
    type Output = T;

    fn index(&self, index: Rank) -> (r: &T)
        ensures
            *r == self@[index.idx()],
    {
        &self[index.to_index()]
    }
}

impl<T> vstd::std_specs::core::IndexSpecImpl<Rank> for Vec<T> {
    open spec fn index_req(&self, index: &Rank) -> bool {
        index.idx() < self@.len()
    }
}

impl<T> std::ops::IndexMut<Rank> for Vec<T> {
    fn index_mut(&mut self, index: Rank) -> (r: &mut T)
        requires
            index.idx() < old(self)@.len(),
        ensures
            *r == old(self)@[index.idx()],
            final(self)@ == old(self)@.update(index.idx(), *final(r)),
    {
        let i = index.to_index();
        &mut self[i]
    }
}

impl<T> std::ops::Index<File> for [T] {
    type Output = T;

    fn index(&self, index: File) -> (r: &T)
        ensures
            *r == self@[index.idx()],
    {
        &self[index.to_index()]
    }
}

impl<T> vstd::std_specs::core::IndexSpecImpl<File> for [T] {
    open spec fn index_req(&self, index: &File) -> bool {
        index.idx() < self@.len()
    }
}

impl<T> std::ops::IndexMut<File> for [T] {
    fn index_mut(&mut self, index: File) -> (r: &mut T)
        requires
            index.idx() < old(self)@.len(),
        ensures
            *r == old(self)@[index.idx()],
            final(self)@ == old(self)@.update(index.idx(), *final(r)),
    {
        let (_, tail) = self.split_at_mut(index.to_index());
        match tail.first_mut() {
            Some(r) => r,
            None => vstd::pervasive::unreached(),
        }
    }
}

impl<T> std::ops::Index<File> for Vec<T> {
    type Output = T;

    fn index(&self, index: File) -> (r: &T)
        ensures
            *r == self@[index.idx()],
    {
        &self[index.to_index()]
    }
}

impl<T> vstd::std_specs::core::IndexSpecImpl<File> for Vec<T> {
    open spec fn index_req(&self, index: &File) -> bool {
        index.idx() < self@.len()
    }
}

impl<T> std::ops::IndexMut<File> for Vec<T> {
    fn index_mut(&mut self, index: File) -> (r: &mut T)
        requires
            index.idx() < old(self)@.len(),
        ensures
            *r == old(self)@[index.idx()],
            final(self)@ == old(self)@.update(index.idx(), *final(r)),
    {
        let i = index.to_index();
        &mut self[i]
    }
}

} // verus!
