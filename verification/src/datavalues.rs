use vstd::prelude::*;

verus! {

/// The type of a column's values.
#[derive(Debug, Clone, Copy, PartialEq, Eq, Structural)]
pub enum DataTypeImpl {
    Boolean,
    Int64,
    UInt64,
    String,
}

/// One column of a table: its name, its type, and whether it may be null.
#[derive(Debug, Clone, PartialEq, Eq)]
pub struct DataField {
    pub name: String,
    pub data_type: DataTypeImpl,
    pub nullable: bool,
}

/// The columns of a table, in order.
#[derive(Debug, Clone, PartialEq, Eq)]
pub struct DataSchema {
    pub fields: Vec<DataField>,
}

impl DataField {
    /// A copy of the field.
    pub fn duplicate(&self) -> (copy: DataField)
        ensures
            copy == *self,
    {
        DataField { name: self.name.clone(), data_type: self.data_type, nullable: self.nullable }
    }
}

/// A copy of a list of fields.
pub fn duplicate_fields(fields: &Vec<DataField>) -> (copy: Vec<DataField>)
    ensures
        copy@ == fields@,
{
    let mut copy: Vec<DataField> = Vec::new();
    let n: usize = fields.len();
    let mut i: usize = 0;
    while i < n
        invariant
            i <= n,
            n == fields@.len(),
            copy@ == fields@.subrange(0, i as int),
        decreases n - i,
    {
        copy.push(fields[i].duplicate());
        assert(copy@ =~= fields@.subrange(0, i + 1));
        i = i + 1;
    }
    assert(copy@ =~= fields@);
    copy
}

/// A copy of a list of bytes.
pub fn duplicate_bytes(bytes: &Vec<u8>) -> (copy: Vec<u8>)
    ensures
        copy@ == bytes@,
{
    let mut copy: Vec<u8> = Vec::new();
    let n: usize = bytes.len();
    let mut i: usize = 0;
    while i < n
        invariant
            i <= n,
            n == bytes@.len(),
            copy@ == bytes@.subrange(0, i as int),
        decreases n - i,
    {
        copy.push(bytes[i]);
        assert(copy@ =~= bytes@.subrange(0, i + 1));
        i = i + 1;
    }
    assert(copy@ =~= bytes@);
    copy
}

} // verus!
