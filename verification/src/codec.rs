//! What every encodable value offers.

use vstd::prelude::*;
use crate::constants::MTU_BITS;
use crate::bits::overwrite;
use crate::buffer::BitBuffer;

verus! {

/// A value with a place on the wire.
pub trait SerializeCdis {
    /// The value can be written as it stands.
    spec fn wf(&self) -> bool;

    /// The bits that the value takes on the wire.
    spec fn wire_bits(&self) -> Seq<bool>;

    /// Whether the value can be written as it stands.
    fn is_valid(&self) -> (valid: bool)
        ensures
            valid == self.wf(),
    ;

    /// How many bits `serialize` writes.
    fn bit_length(&self) -> (length: usize)
        requires
            self.wf(),
        ensures
            length == self.wire_bits().len(),
    ;

    /// Writes the value at `cursor` and returns the cursor after it. Bits
    /// outside the value's own stay as they were.
    fn serialize(&self, buf: &mut BitBuffer, cursor: usize) -> (next: usize)
        requires
            self.wf(),
            cursor + self.wire_bits().len() <= MTU_BITS,
        ensures
            next == cursor + self.wire_bits().len(),
            final(buf)@ == overwrite(old(buf)@, cursor as int, self.wire_bits()),
    ;
}

} // verus!
