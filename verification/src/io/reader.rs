//! A position in a sequence of bytes.
use crate::errors::{Error, IoFault, KeteResult};
use vstd::prelude::*;
use vstd::slice::slice_subrange;

verus! {

/// The bytes of an input which are still to be read.
#[derive(Debug, Clone, Copy)]
pub struct Reader<'a> {
    /// What is left.
    pub rest: &'a [u8],
}

impl<'a> View for Reader<'a> {
    type V = Seq<u8>;

    open spec fn view(&self) -> Seq<u8> {
        self.rest@
    }
}

/// What a value and the bytes after it look like, or why there is no value.
pub type Parsed<V> = KeteResult<(V, Seq<u8>)>;

/// The failure of an input that ends too early.
pub open spec fn unexpected_end<V>() -> KeteResult<V> {
    Err(Error::IOError(IoFault::UnexpectedEnd))
}

/// The first `n` bytes of `b` and what is left of it.
pub open spec fn take_bytes(b: Seq<u8>, n: nat) -> Parsed<Seq<u8>> {
    if b.len() < n {
        unexpected_end()
    } else {
        Ok((b.take(n as int), b.skip(n as int)))
    }
}

impl<'a> Reader<'a> {
    /// Start at the first of these bytes.
    pub fn new(bytes: &'a [u8]) -> (r: Reader<'a>)
        ensures
            r@ == bytes@,
    {
        Reader { rest: bytes }
    }

    /// Read the next `n` bytes.
    pub fn take(&mut self, n: usize) -> (res: KeteResult<&'a [u8]>)
        ensures
            match take_bytes(old(self)@, n as nat) {
                Ok((bytes, rest)) => res is Ok && res->Ok_0@ == bytes && final(self)@ == rest,
                Err(e) => res == Err::<&'a [u8], Error>(e),
            },
    {
        let all = self.rest;
        if all.len() < n {
            return Err(Error::IOError(IoFault::UnexpectedEnd));
        }
        let bytes = slice_subrange(all, 0, n);
        self.rest = slice_subrange(all, n, all.len());
        assert(bytes@ =~= all@.take(n as int));
        assert(self.rest@ =~= all@.skip(n as int));
        Ok(bytes)
    }
}

} // verus!
