//! The two-byte protocol discriminator carried in the repurposed
//! protocol-type field of the disguised frames.
use vstd::prelude::*;

verus! {

/// Selectable discriminators: two local-experimental values and plain IPv4.
#[derive(Copy, Clone, Debug, PartialEq, Eq, Structural)]
pub enum EtherType {
    Experimental1,
    Experimental2,
    IPv4,
}

impl EtherType {
    /// The two bytes this discriminator puts on the wire.
    pub open spec fn spec_bytes(&self) -> Seq<u8> {
        match self {
            EtherType::Experimental1 => seq![0x88u8, 0xB5u8],
            EtherType::Experimental2 => seq![0x88u8, 0xB6u8],
            EtherType::IPv4 => seq![0x08u8, 0x00u8],
        }
    }

    pub fn bytes(&self) -> (r: [u8; 2])
        ensures
            r@ == self.spec_bytes(),
    {
        match self {
            EtherType::Experimental1 => [0x88, 0xB5],
            EtherType::Experimental2 => [0x88, 0xB6],
            EtherType::IPv4 => [0x08, 0x00],
        }
    }
}

impl Default for EtherType {
    fn default() -> (r: Self)
        ensures
            r == EtherType::Experimental1,
    {
        EtherType::Experimental1
    }
}

} // verus!
