//! How unsigned integers lie on the wire.

use vstd::prelude::*;

verus! {

/// 256 to the power `width`: the first number that `width` bytes cannot hold.
pub open spec fn limit(width: nat) -> nat
    decreases width,
{
    if width == 0 {
        1
    } else {
        256 * limit((width - 1) as nat)
    }
}

/// Whether `value` can be written in `width` bytes.
pub open spec fn fits(value: nat, width: nat) -> bool {
    value < limit(width)
}

/// The lowest `width` bytes of `value`, least significant first.
pub open spec fn little(value: nat, width: nat) -> Seq<u8>
    decreases width,
{
    if width == 0 {
        Seq::empty()
    } else {
        seq![(value % 256) as u8] + little(value / 256, (width - 1) as nat)
    }
}

/// The lowest `width` bytes of `value`, most significant first.
pub open spec fn big(value: nat, width: nat) -> Seq<u8>
    decreases width,
{
    if width == 0 {
        Seq::empty()
    } else {
        big(value / 256, (width - 1) as nat).push((value % 256) as u8)
    }
}

/// The number that `bytes` spell, least significant byte first.
pub open spec fn little_value(bytes: Seq<u8>) -> nat
    decreases bytes.len(),
{
    if bytes.len() == 0 {
        0
    } else {
        bytes[0] as nat + 256 * little_value(bytes.skip(1))
    }
}

/// The number that `bytes` spell, most significant byte first.
pub open spec fn big_value(bytes: Seq<u8>) -> nat
    decreases bytes.len(),
{
    if bytes.len() == 0 {
        0
    } else {
        256 * big_value(bytes.drop_last()) + bytes.last() as nat
    }
}

/// The lowest `width` bytes of `value` in the given order.
pub open spec fn int_bytes(value: nat, width: nat, big_first: bool) -> Seq<u8> {
    if big_first {
        big(value, width)
    } else {
        little(value, width)
    }
}

/// The number that `bytes` spell in the given order.
pub open spec fn bytes_int(bytes: Seq<u8>, big_first: bool) -> nat {
    if big_first {
        big_value(bytes)
    } else {
        little_value(bytes)
    }
}

/// An encoding is as long as its width.
pub proof fn lemma_int_bytes_len(value: nat, width: nat, big_first: bool)
    ensures
        int_bytes(value, width, big_first).len() == width,
    decreases width,
{
    if width > 0 {
        lemma_int_bytes_len(value / 256, (width - 1) as nat, big_first);
    }
}

/// What bytes spell fits in as many bytes.
pub proof fn lemma_bytes_int_fits(bytes: Seq<u8>, big_first: bool)
    ensures
        fits(bytes_int(bytes, big_first), bytes.len()),
    decreases bytes.len(),
{
    if bytes.len() > 0 {
        if big_first {
            lemma_bytes_int_fits(bytes.drop_last(), big_first);
        } else {
            lemma_bytes_int_fits(bytes.skip(1), big_first);
        }
    }
}

/// Decoding an encoding gives the number back, in either order, as long as
/// the number fits in the width.
pub proof fn lemma_int_round_trip(value: nat, width: nat, big_first: bool)
    requires
        fits(value, width),
    ensures
        bytes_int(int_bytes(value, width, big_first), big_first) == value,
    decreases width,
{
    if width > 0 {
        let rest = (width - 1) as nat;
        lemma_int_round_trip(value / 256, rest, big_first);
        lemma_int_bytes_len(value / 256, rest, big_first);
        if big_first {
            let bytes = big(value, width);
            assert(bytes.drop_last() =~= big(value / 256, rest));
        } else {
            let bytes = little(value, width);
            assert(bytes.skip(1) =~= little(value / 256, rest));
        }
    }
}

/// The limits of the widths up to eight bytes.
pub proof fn lemma_limits()
    ensures
        limit(0) == 1,
        limit(1) == 0x100,
        limit(2) == 0x1_0000,
        limit(3) == 0x100_0000,
        limit(4) == 0x1_0000_0000,
        limit(5) == 0x100_0000_0000,
        limit(6) == 0x1_0000_0000_0000,
        limit(7) == 0x100_0000_0000_0000,
        limit(8) == 0x1_0000_0000_0000_0000,
{
    reveal_with_fuel(limit, 10);
}

/// The lowest `width` bytes of `value` in the given order.
pub fn encode(value: u64, width: usize, big_first: bool) -> (bytes: Vec<u8>)
    ensures
        bytes@ == int_bytes(value as nat, width as nat, big_first),
{
    let mut out: Vec<u8> = Vec::new();
    let mut rest: u64 = value;
    let mut i: usize = 0;
    while i < width
        invariant
            i <= width,
            big_first ==> big(value as nat, width as nat) == big(rest as nat, (width - i) as nat)
                + out@,
            !big_first ==> little(value as nat, width as nat) == out@ + little(
                rest as nat,
                (width - i) as nat,
            ),
        decreases width - i,
    {
        let low: u8 = (rest % 256) as u8;
        proof {
            let left = (width - i) as nat;
            let next = (rest / 256) as nat;
            if big_first {
                assert(big(rest as nat, left) + out@ =~= big(next, (left - 1) as nat) + out@.insert(
                    0,
                    low,
                ));
            } else {
                assert(out@ + little(rest as nat, left) =~= out@.push(low) + little(
                    next,
                    (left - 1) as nat,
                ));
            }
        }
        if big_first {
            out.insert(0, low);
        } else {
            out.push(low);
        }
        rest = rest / 256;
        i = i + 1;
    }
    proof {
        assert(big(rest as nat, 0) + out@ =~= out@);
        assert(out@ + little(rest as nat, 0) =~= out@);
    }
    out
}

/// The number that at most eight bytes spell in the given order.
pub fn decode(bytes: &[u8], big_first: bool) -> (value: u64)
    requires
        bytes@.len() <= 8,
    ensures
        value == bytes_int(bytes@, big_first),
{
    let n: usize = bytes.len();
    let mut acc: u64 = 0;
    let mut i: usize = 0;
    while i < n
        invariant
            i <= n,
            n == bytes@.len(),
            n <= 8,
            big_first ==> acc == big_value(bytes@.take(i as int)),
            !big_first ==> acc == little_value(bytes@.skip(n - i)),
            acc < limit(i as nat),
        decreases n - i,
    {
        proof {
            lemma_limits();
            reveal_with_fuel(limit, 10);
            assert(limit((i + 1) as nat) == 256 * limit(i as nat));
            assert(limit((i + 1) as nat) <= limit(8));
        }
        if big_first {
            proof {
                let next = bytes@.take(i + 1);
                assert(next.drop_last() =~= bytes@.take(i as int));
            }
            acc = acc * 256 + bytes[i] as u64;
        } else {
            proof {
                let next = bytes@.skip(n - i - 1);
                assert(next.skip(1) =~= bytes@.skip(n - i));
            }
            acc = acc * 256 + bytes[n - 1 - i] as u64;
        }
        i = i + 1;
    }
    proof {
        assert(bytes@.take(n as int) =~= bytes@);
        assert(bytes@.skip(0) =~= bytes@);
    }
    acc
}

} // verus!
