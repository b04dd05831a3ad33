use vstd::prelude::*;

verus! {

/// A client identifier: a 16-bit value, compared for identity only.
#[derive(Debug, PartialEq, Eq, Structural, Hash, Clone, Copy)]
pub struct ClientId(pub u16);

/// A transaction identifier: a 32-bit value, compared for identity only.
#[derive(Debug, PartialEq, Eq, Structural, Hash, Clone, Copy)]
pub struct TxId(pub u32);

impl ClientId {
    pub fn new(v: u16) -> (r: ClientId)
        ensures
            r.0 == v,
    {
        ClientId(v)
    }

    /// The raw 16-bit value.
    pub fn value(&self) -> (r: u16)
        ensures
            r == self.0,
    {
        self.0
    }
}

impl TxId {
    pub fn new(v: u32) -> (r: TxId)
        ensures
            r.0 == v,
    {
        TxId(v)
    }

    /// The raw 32-bit value.
    pub fn value(&self) -> (r: u32)
        ensures
            r == self.0,
    {
        self.0
    }
}

} // verus!
