//! Unsigned LEB128 length prefixes.

use integer_encoding::VarInt;
use vstd::prelude::*;

verus! {

/// The unsigned LEB128 form of `n`: seven bits per byte, least significant
/// group first, every byte but the last carrying the continuation bit.
pub open spec fn varint(n: nat) -> Seq<u8>
    decreases n,
{
    if n < 128 {
        seq![n as u8]
    } else {
        seq![(n % 128 + 128) as u8] + varint(n / 128)
    }
}

/// The number that a LEB128 byte sequence stands for.
pub open spec fn varint_value(bytes: Seq<u8>) -> nat
    decreases bytes.len(),
{
    if bytes.len() == 0 {
        0
    } else {
        (bytes[0] % 128) as nat + 128 * varint_value(bytes.drop_first())
    }
}

/// A length prefix is never empty, only its last byte lacks the continuation
/// bit, and it decodes to the number it was made from.
pub proof fn lemma_varint_shape(n: nat)
    ensures
        varint(n).len() >= 1,
        varint(n).last() < 128,
        forall|i: int| 0 <= i < varint(n).len() - 1 ==> #[trigger] varint(n)[i] >= 128,
        varint_value(varint(n)) == n,
    decreases n,
{
    if n >= 128 {
        lemma_varint_shape(n / 128);
        let head = seq![(n % 128 + 128) as u8];
        let tail = varint(n / 128);
        assert(varint(n) == head + tail);
        assert(varint(n).drop_first() =~= tail);
        assert(varint(n)[0] == head[0]);
        assert(head[0] % 128 == n % 128);
        assert(varint_value(varint(n)) == (varint(n)[0] % 128) as nat + 128 * varint_value(
            varint(n).drop_first(),
        ));
        assert forall|i: int| 0 <= i < varint(n).len() - 1 implies #[trigger] varint(n)[i]
            >= 128 by {
            if i > 0 {
                assert(varint(n)[i] == tail[i - 1]);
            }
        }
    } else {
        assert(varint(n).drop_first() =~= Seq::<u8>::empty());
        assert(varint_value(varint(n).drop_first()) == 0);
        assert(varint_value(varint(n)) == (varint(n)[0] % 128) as nat + 128 * varint_value(
            varint(n).drop_first(),
        ));
    }
}

/// Two numbers with the same length prefix are the same number.
pub proof fn lemma_varint_injective(a: nat, b: nat)
    requires
        varint(a) == varint(b),
    ensures
        a == b,
{
    lemma_varint_shape(a);
    lemma_varint_shape(b);
}

/// Calls `integer_encoding::VarInt::encode_var_vec` on a `usize`. The crate
/// writes the low seven bits of the number with the high bit set while the
/// number is at least 128, shifts right by seven, and ends with the remaining
/// byte; the contract states exactly that sequence.
#[verifier::external_body]
pub(crate) fn encode_length(n: usize) -> (out: Vec<u8>)
    ensures
        out@ == varint(n as nat),
{
    n.encode_var_vec()
}

} // verus!
