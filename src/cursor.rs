//! A bounds-checked reader over a borrowed byte slice.

use vstd::prelude::*;
use vstd::slice::slice_subrange;

verus! {

/// A read position over a byte slice. Every read either advances the
/// position and yields a value, or leaves the position where it was.
#[derive(Clone, Copy)]
pub struct Cur<'a> {
    pub b: &'a [u8],
    pub i: usize,
}

impl<'a> Cur<'a> {
    /// The bytes not yet consumed.
    pub open spec fn rest(&self) -> Seq<u8> {
        if self.i <= self.b@.len() {
            self.b@.subrange(self.i as int, self.b@.len() as int)
        } else {
            Seq::empty()
        }
    }

    /// Whether `n` more bytes can be read.
    pub open spec fn has(&self, n: int) -> bool {
        self.i + n <= self.b@.len()
    }

    pub fn new(b: &'a [u8]) -> (r: Self)
        ensures
            r.b == b,
            r.i == 0,
    {
        Cur { b, i: 0 }
    }

    pub fn rem(&self) -> (r: usize)
        ensures
            r == self.rest().len(),
    {
        if self.i <= self.b.len() {
            self.b.len() - self.i
        } else {
            0
        }
    }

    pub fn take(&mut self, n: usize) -> (r: Option<&'a [u8]>)
        ensures
            final(self).b == old(self).b,
            old(self).has(n as int) ==> r is Some && r->0@ == old(self).b@.subrange(
                old(self).i as int,
                old(self).i + n,
            ) && final(self).i == old(self).i + n,
            !old(self).has(n as int) ==> r is None && final(self).i == old(self).i,
    {
        if self.i > self.b.len() || n > self.b.len() - self.i {
            return None;
        }
        let s = slice_subrange(self.b, self.i, self.i + n);
        self.i = self.i + n;
        Some(s)
    }

    pub fn u8(&mut self) -> (r: Option<u8>)
        ensures
            final(self).b == old(self).b,
            old(self).has(1) ==> r == Some(old(self).b@[old(self).i as int]) && final(self).i
                == old(self).i + 1,
            !old(self).has(1) ==> r is None && final(self).i == old(self).i,
    {
        match self.take(1) {
            Some(s) => Some(s[0]),
            None => None,
        }
    }

    pub fn u16(&mut self) -> (r: Option<u16>)
        ensures
            final(self).b == old(self).b,
            old(self).has(2) ==> r is Some && r->0 == old(self).b@[old(self).i as int] as int * 256
                + old(self).b@[old(self).i + 1] as int && final(self).i == old(self).i + 2,
            !old(self).has(2) ==> r is None && final(self).i == old(self).i,
    {
        match self.take(2) {
            Some(s) => Some((s[0] as u16) * 256 + (s[1] as u16)),
            None => None,
        }
    }

    pub fn u24_usize(&mut self) -> (r: Option<usize>)
        ensures
            final(self).b == old(self).b,
            old(self).has(3) ==> r is Some && r->0 == old(self).b@[old(self).i as int] as int
                * 65536 + old(self).b@[old(self).i + 1] as int * 256 + old(self).b@[old(self).i
                + 2] as int && final(self).i == old(self).i + 3,
            !old(self).has(3) ==> r is None && final(self).i == old(self).i,
    {
        match self.take(3) {
            Some(s) => Some((s[0] as usize) * 65536 + (s[1] as usize) * 256 + (s[2] as usize)),
            None => None,
        }
    }

    pub fn skip(&mut self, n: usize) -> (r: Option<()>)
        ensures
            final(self).b == old(self).b,
            old(self).has(n as int) ==> r is Some && final(self).i == old(self).i + n,
            !old(self).has(n as int) ==> r is None && final(self).i == old(self).i,
    {
        match self.take(n) {
            Some(_) => Some(()),
            None => None,
        }
    }
}

} // verus!
