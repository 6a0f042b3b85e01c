use vstd::prelude::*;

verus! {

/// An opaque batch of column data, the unit that travels between processors.
///
/// The pipeline never looks inside a block; it only moves it. The view of a
/// block is its content, so contracts can say which block went where.
#[derive(Debug, Clone, PartialEq, Eq)]
pub struct DataBlock {
    bytes: Vec<u8>,
}

impl View for DataBlock {
    type V = Seq<u8>;

    closed spec fn view(&self) -> Seq<u8> {
        self.bytes@
    }
}

impl DataBlock {
    /// Wraps encoded column data as a block.
    pub fn create(bytes: Vec<u8>) -> (block: DataBlock)
        ensures
            block@ == bytes@,
    {
        DataBlock { bytes }
    }

    /// A block without any data.
    pub fn empty() -> (block: DataBlock)
        ensures
            block@ == Seq::<u8>::empty(),
    {
        DataBlock { bytes: Vec::new() }
    }

    /// The encoded data of the block.
    pub fn bytes(&self) -> (bytes: &Vec<u8>)
        ensures
            bytes@ == self@,
    {
        &self.bytes
    }

    /// The encoded data of the block, by value.
    pub fn into_bytes(self) -> (bytes: Vec<u8>)
        ensures
            bytes@ == self@,
    {
        self.bytes
    }

    /// Number of bytes the block holds.
    pub fn len(&self) -> (n: usize)
        ensures
            n == self@.len(),
    {
        self.bytes.len()
    }

    pub fn is_empty(&self) -> (b: bool)
        ensures
            b == (self@.len() == 0),
    {
        self.bytes.len() == 0
    }
}

} // verus!
