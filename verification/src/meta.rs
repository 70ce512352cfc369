//! The record that replaces a file on the client: the hashes of its data
//! parts and of its recovery parts (`None` where a part was not placed).
use vstd::prelude::*;

verus! {

/// The hashes of the data parts and of the recovery parts of a file.
pub struct MetaFileInfo {
    data_parts_hashes: Vec<Option<Vec<u8>>>,
    recovery_parts_hashes: Vec<Option<Vec<u8>>>,
}

impl MetaFileInfo {
    /// The hashes of the data parts.
    pub closed spec fn data(self) -> Seq<Option<Vec<u8>>> {
        self.data_parts_hashes@
    }

    /// The hashes of the recovery parts.
    pub closed spec fn recovery(self) -> Seq<Option<Vec<u8>>> {
        self.recovery_parts_hashes@
    }

    /// The record of the hashes of the data parts and of the recovery parts.
    pub fn new(data: Vec<Option<Vec<u8>>>, recovery: Vec<Option<Vec<u8>>>) -> (m: MetaFileInfo)
        ensures
            m.data() == data@,
            m.recovery() == recovery@,
    {
        MetaFileInfo { data_parts_hashes: data, recovery_parts_hashes: recovery }
    }

    /// The hashes of the data parts and of the recovery parts.
    pub fn deconstruct(self) -> (r: (Vec<Option<Vec<u8>>>, Vec<Option<Vec<u8>>>))
        ensures
            r.0@ == self.data(),
            r.1@ == self.recovery(),
    {
        (self.data_parts_hashes, self.recovery_parts_hashes)
    }
}

} // verus!
