//! Byte orders.

use vstd::prelude::*;

verus! {

/// The byte order of a multi-byte value on the wire.
#[derive(Clone, Copy, Debug, PartialEq, Eq, Structural)]
pub enum Endian {
    /// Most significant byte first.
    Big,
    /// Least significant byte first.
    Little,
    /// Whichever of the two the running machine uses.
    Native,
}

impl Endian {
    /// Whether `self` may stand for the order with the most significant byte
    /// first (`big`) or last (`!big`). `Native` may stand for either.
    pub open spec fn admits(self, big: bool) -> bool {
        match self {
            Endian::Big => big,
            Endian::Little => !big,
            Endian::Native => true,
        }
    }

    /// The order that `self` stands for when it overrides the order `outer`.
    pub open spec fn over(this: Option<Endian>, outer: bool) -> bool {
        match this {
            Some(Endian::Big) => true,
            Some(Endian::Little) => false,
            _ => outer,
        }
    }

    /// Settles `self` to one concrete order: `true` for most significant byte
    /// first. `Native` is settled by asking the machine.
    pub fn is_big(self) -> (big: bool)
        ensures
            self.admits(big),
    {
        match self {
            Endian::Big => true,
            Endian::Little => false,
            Endian::Native => {
                let probe = native_bytes(1u16);
                probe[0] == 0u8
            },
        }
    }

    /// Applies an optional override to the order `outer`.
    pub fn resolve(this: Option<Endian>, outer: bool) -> (big: bool)
        ensures
            big == Endian::over(this, outer),
    {
        match this {
            Some(Endian::Big) => true,
            Some(Endian::Little) => false,
            _ => outer,
        }
    }
}

impl Default for Endian {
    fn default() -> (endian: Endian)
        ensures
            endian == Endian::Native,
    {
        Endian::Native
    }
}

/// `u16::to_ne_bytes`: the two bytes of `x` as the machine stores them. Which
/// of the two orders comes back depends on the machine, so the contract only
/// says that it is one of them.
#[verifier::external_body]
fn native_bytes(x: u16) -> (bytes: [u8; 2])
    ensures
        (bytes@[0] == x / 256 && bytes@[1] == x % 256) || (bytes@[0] == x % 256 && bytes@[1] == x
            / 256),
{
    x.to_ne_bytes()
}

} // verus!
