//! Byte strings and the two kinds of names built on them: account addresses
//! and symbols (module and function names, audit operations).

use vstd::prelude::*;

verus! {

/// Compares two byte strings.
pub fn bytes_eq(a: &Vec<u8>, b: &Vec<u8>) -> (r: bool)
    ensures
        r == (a@ == b@),
{
    let r = a == b;
    proof {
        if r {
            assert(a@ =~= b@);
        }
    }
    r
}

/// Copies a byte string.
pub fn bytes_copy(a: &Vec<u8>) -> (r: Vec<u8>)
    ensures
        r@ == a@,
{
    let r = a.clone();
    assert(r@ =~= a@);
    r
}

/// An account or contract address, held as the bytes of its textual form.
#[derive(Clone, Debug)]
pub struct Address {
    pub bytes: Vec<u8>,
}

impl View for Address {
    type V = Seq<u8>;

    open spec fn view(&self) -> Seq<u8> {
        self.bytes@
    }
}

impl Address {
    pub fn new(bytes: Vec<u8>) -> (r: Address)
        ensures
            r@ == bytes@,
    {
        Address { bytes }
    }

    /// Whether both values name the same address.
    pub fn same(&self, other: &Address) -> (r: bool)
        ensures
            r == (self@ == other@),
    {
        bytes_eq(&self.bytes, &other.bytes)
    }

    pub fn duplicate(&self) -> (r: Address)
        ensures
            r@ == self@,
    {
        Address { bytes: bytes_copy(&self.bytes) }
    }
}

/// A symbol (a module or function name, an audit operation), held as its bytes.
#[derive(Clone, Debug)]
pub struct Symbol {
    pub text: Vec<u8>,
}

impl View for Symbol {
    type V = Seq<u8>;

    open spec fn view(&self) -> Seq<u8> {
        self.text@
    }
}

impl Symbol {
    pub fn new(text: Vec<u8>) -> (r: Symbol)
        ensures
            r@ == text@,
    {
        Symbol { text }
    }

    /// Whether both values spell the same symbol.
    pub fn same(&self, other: &Symbol) -> (r: bool)
        ensures
            r == (self@ == other@),
    {
        bytes_eq(&self.text, &other.text)
    }

    pub fn duplicate(&self) -> (r: Symbol)
        ensures
            r@ == self@,
    {
        Symbol { text: bytes_copy(&self.text) }
    }
}

} // verus!
