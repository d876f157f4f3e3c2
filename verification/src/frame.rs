//! Length prefixes: how the length of a message is put on the wire.

use vstd::prelude::*;

verus! {

/// How wide the length of a message is on the wire.
///
/// Both ends of a connection have to agree on it.
#[derive(Debug, Clone, Copy, PartialEq, Eq, Structural)]
pub enum LengthWidth {
    /// Lengths are sent as 64-bit integers.
    U64,
    /// Lengths are sent as 128-bit integers.
    U128,
}

impl LengthWidth {
    /// The number of bytes that a length takes.
    pub open spec fn spec_size(self) -> nat {
        match self {
            LengthWidth::U64 => 8,
            LengthWidth::U128 => 16,
        }
    }

    /// The number of bytes that a length takes.
    pub fn size(self) -> (size: usize)
        ensures
            size == self.spec_size(),
    {
        match self {
            LengthWidth::U64 => 8,
            LengthWidth::U128 => 16,
        }
    }
}

impl Default for LengthWidth {
    /// Lengths are 64 bits wide unless something else is asked for.
    fn default() -> (width: Self)
        ensures
            width == LengthWidth::U64,
    {
        LengthWidth::U64
    }
}

/// The last `width` base-256 digits of `n`, most significant first.
pub open spec fn be_bytes(n: nat, width: nat) -> Seq<u8>
    decreases width,
{
    if width == 0 {
        Seq::empty()
    } else {
        be_bytes(n / 256, (width - 1) as nat).push((n % 256) as u8)
    }
}

/// The number whose base-256 digits are `bytes`, most significant first.
pub open spec fn be_value(bytes: Seq<u8>) -> nat
    decreases bytes.len(),
{
    if bytes.len() == 0 {
        0
    } else {
        be_value(bytes.drop_last()) * 256 + bytes.last() as nat
    }
}

/// The number of values that `width` bytes can take.
pub open spec fn byte_range(width: nat) -> nat
    decreases width,
{
    if width == 0 {
        1
    } else {
        256 * byte_range((width - 1) as nat)
    }
}

/// The number of bytes that a body has whose length reads `prefix`: what is
/// left of the number when it is cut down to the size of a `usize`.
pub open spec fn body_len(prefix: Seq<u8>) -> nat {
    be_value(prefix) % (usize::MAX as nat + 1)
}

/// A whole message on the wire: the length of the body, and then the body.
pub open spec fn frame(width: LengthWidth, body: Seq<u8>) -> Seq<u8> {
    be_bytes(body.len(), width.spec_size()) + body
}

proof fn lemma_byte_range_bounds()
    ensures
        byte_range(8) == 0x1_0000_0000_0000_0000,
        byte_range(16) == 0x1_0000_0000_0000_0000_0000_0000_0000_0000,
{
    reveal_with_fuel(byte_range, 17);
}

/// A number is written in as many bytes as it was given room for.
pub proof fn lemma_be_bytes_len(n: nat, width: nat)
    ensures
        be_bytes(n, width).len() == width,
    decreases width,
{
    if width > 0 {
        lemma_be_bytes_len(n / 256, (width - 1) as nat);
    }
}

/// `width` bytes stand for a number below `byte_range(width)`.
pub proof fn lemma_be_value_bound(bytes: Seq<u8>)
    ensures
        be_value(bytes) < byte_range(bytes.len()),
    decreases bytes.len(),
{
    if bytes.len() > 0 {
        lemma_be_value_bound(bytes.drop_last());
    }
}

/// Reading a number back: the digits of `n` stand for `n`, where `n` fits.
pub proof fn law_be_round_trip(n: nat, width: nat)
    requires
        n < byte_range(width),
    ensures
        be_value(be_bytes(n, width)) == n,
    decreases width,
{
    if width > 0 {
        law_be_round_trip(n / 256, (width - 1) as nat);
        let bytes = be_bytes(n, width);
        assert(bytes.drop_last() =~= be_bytes(n / 256, (width - 1) as nat));
    }
}

/// Writing a number back: every sequence of bytes is the digits of the number
/// that it stands for, so no two sequences of one length stand for one number.
pub proof fn law_be_digits_are_unique(bytes: Seq<u8>)
    ensures
        be_bytes(be_value(bytes), bytes.len()) == bytes,
    decreases bytes.len(),
{
    if bytes.len() > 0 {
        law_be_digits_are_unique(bytes.drop_last());
        assert(bytes.drop_last().push(bytes.last()) =~= bytes);
    } else {
        assert(be_bytes(be_value(bytes), bytes.len()) =~= bytes);
    }
}

/// The prefix of a frame tells the length of its body, whatever the width.
pub proof fn law_prefix_tells_the_length(width: LengthWidth, len: nat)
    requires
        len <= usize::MAX,
    ensures
        be_bytes(len, width.spec_size()).len() == width.spec_size(),
        body_len(be_bytes(len, width.spec_size())) == len,
{
    lemma_byte_range_bounds();
    lemma_be_bytes_len(len, width.spec_size());
    law_be_round_trip(len, width.spec_size());
    vstd::arithmetic::div_mod::lemma_small_mod(len, usize::MAX as nat + 1);
}

/// The digits of `n` in base 256, most significant first.
fn be_digits(n: u128, width: usize) -> (bytes: Vec<u8>)
    ensures
        bytes@ == be_bytes(n as nat, width as nat),
    decreases width,
{
    if width == 0 {
        Vec::new()
    } else {
        let mut bytes = be_digits(n / 256, width - 1);
        bytes.push((n % 256) as u8);
        bytes
    }
}

/// The bytes that announce a body of `len` bytes.
pub fn encode_length(width: LengthWidth, len: usize) -> (prefix: Vec<u8>)
    ensures
        prefix@ == be_bytes(len as nat, width.spec_size()),
        prefix@.len() == width.spec_size(),
        body_len(prefix@) == len,
{
    proof {
        law_prefix_tells_the_length(width, len as nat);
    }
    be_digits(len as u128, width.size())
}

/// The length of the body that `prefix` announces.
pub fn decode_length(width: LengthWidth, prefix: &Vec<u8>) -> (len: usize)
    requires
        prefix@.len() == width.spec_size(),
    ensures
        len == body_len(prefix@),
{
    let mut value: u128 = 0;
    let mut at: usize = 0;
    while at < prefix.len()
        invariant
            at <= prefix@.len(),
            prefix@.len() == width.spec_size(),
            value == be_value(prefix@.take(at as int)),
        decreases prefix@.len() - at,
    {
        proof {
            let next = prefix@.take(at + 1);
            assert(next.drop_last() =~= prefix@.take(at as int));
            lemma_be_value_bound(next);
            lemma_byte_range_bounds();
            lemma_byte_range_grows(next.len(), 16);
        }
        value = value * 256 + prefix[at] as u128;
        at = at + 1;
    }
    assert(prefix@.take(at as int) =~= prefix@);
    let range: u128 = usize::MAX as u128 + 1;
    (value % range) as usize
}

proof fn lemma_byte_range_grows(small: nat, large: nat)
    requires
        small <= large,
    ensures
        byte_range(small) <= byte_range(large),
    decreases large,
{
    if small < large {
        lemma_byte_range_grows(small, (large - 1) as nat);
    }
}

/// A number is written big-endian in base 256: the byte at each place is the
/// number, divided by the power of 256 that the place stands for, modulo 256. The
/// last place stands for the power zero.
pub proof fn law_be_bytes_are_base_256(n: nat, width: nat)
    ensures
        be_bytes(n, width).len() == width,
        forall|j: int|
            0 <= j < width ==> (#[trigger] be_bytes(n, width)[j]) as int == n as int
                / vstd::arithmetic::power::pow(256, (width - 1 - j) as nat) % 256,
    decreases width,
{
    reveal(vstd::arithmetic::power::pow);
    if width > 0 {
        let before = be_bytes(n / 256, (width - 1) as nat);
        law_be_bytes_are_base_256(n / 256, (width - 1) as nat);
        assert forall|j: int| 0 <= j < width implies (#[trigger] be_bytes(n, width)[j]) as int
            == n as int / vstd::arithmetic::power::pow(256, (width - 1 - j) as nat) % 256 by {
            if j < width - 1 {
                let k = (width - 2 - j) as nat;
                let p = vstd::arithmetic::power::pow(256, k);
                assert(be_bytes(n, width)[j] == before[j]);
                assert(vstd::arithmetic::power::pow(256, (k + 1) as nat) == 256 * p);
                vstd::arithmetic::power::lemma_pow_positive(256, k);
                vstd::arithmetic::div_mod::lemma_div_denominator(n as int, 256, p);
            } else {
                assert(vstd::arithmetic::power::pow(256, 0) == 1);
            }
        }
    }
}

/// Bytes are read big-endian in base 256: the number is below the power of 256 that
/// they have places for, and each byte is the number, divided by the power of 256
/// that its place stands for, modulo 256.
pub proof fn law_be_value_is_base_256(bytes: Seq<u8>)
    ensures
        be_value(bytes) < vstd::arithmetic::power::pow(256, bytes.len()),
        forall|j: int|
            0 <= j < bytes.len() ==> (#[trigger] bytes[j]) as int == be_value(bytes) as int
                / vstd::arithmetic::power::pow(256, (bytes.len() - 1 - j) as nat) % 256,
{
    law_be_digits_are_unique(bytes);
    law_be_bytes_are_base_256(be_value(bytes), bytes.len());
    lemma_be_value_bound(bytes);
    law_byte_range_is_a_power(bytes.len());
    assert forall|j: int| 0 <= j < bytes.len() implies (#[trigger] bytes[j]) as int == be_value(
        bytes,
    ) as int / vstd::arithmetic::power::pow(256, (bytes.len() - 1 - j) as nat) % 256 by {
        assert(be_bytes(be_value(bytes), bytes.len())[j] == bytes[j]);
    }
}

/// The value of bytes is their sum, each times the power of 256 that its place
/// stands for: taking the first byte off takes its share off.
pub proof fn law_be_value_is_a_sum(first: u8, others: Seq<u8>)
    ensures
        be_value(Seq::empty()) == 0,
        be_value(seq![first] + others) == first * vstd::arithmetic::power::pow(256, others.len())
            + be_value(others),
    decreases others.len(),
{
    reveal(vstd::arithmetic::power::pow);
    let all = seq![first] + others;
    if others.len() == 0 {
        assert(all =~= seq![first]);
        assert(all.drop_last() =~= Seq::<u8>::empty());
        assert(be_value(all.drop_last()) == 0);
        assert(vstd::arithmetic::power::pow(256, 0) == 1);
    } else {
        assert(all.drop_last() =~= seq![first] + others.drop_last());
        law_be_value_is_a_sum(first, others.drop_last());
        let p = vstd::arithmetic::power::pow(256, (others.len() - 1) as nat);
        assert(vstd::arithmetic::power::pow(256, others.len()) == 256 * p);
        assert((first * p + be_value(others.drop_last())) * 256 == first * (256 * p) + be_value(
            others.drop_last(),
        ) * 256) by (nonlinear_arith);
    }
}

/// As many values fit into bytes as 256 to the power of their number.
pub proof fn law_byte_range_is_a_power(width: nat)
    ensures
        byte_range(width) == vstd::arithmetic::power::pow(256, width),
    decreases width,
{
    reveal(vstd::arithmetic::power::pow);
    if width > 0 {
        law_byte_range_is_a_power((width - 1) as nat);
    }
}

/// A length that fits into a `usize` is taken as it is; of a larger one, what is
/// left when the size of the range of `usize` is taken off as often as possible.
pub proof fn law_lengths_are_taken_as_they_are(prefix: Seq<u8>)
    ensures
        body_len(prefix) <= usize::MAX,
        be_value(prefix) <= usize::MAX ==> body_len(prefix) == be_value(prefix),
        be_value(prefix) == (usize::MAX + 1) * (be_value(prefix) as int / (usize::MAX + 1))
            + body_len(prefix),
{
    vstd::arithmetic::div_mod::lemma_fundamental_div_mod(
        be_value(prefix) as int,
        usize::MAX as int + 1,
    );
    if be_value(prefix) <= usize::MAX {
        vstd::arithmetic::div_mod::lemma_small_mod(be_value(prefix), usize::MAX as nat + 1);
    }
}

/// A frame is a prefix of eight or sixteen bytes that stands for the length of the
/// body, and behind it the body, unchanged.
pub proof fn law_a_frame_is_a_length_and_a_body(width: LengthWidth, body: Seq<u8>)
    requires
        body.len() <= usize::MAX,
    ensures
        ({
            let size = if width == LengthWidth::U64 {
                8int
            } else {
                16int
            };
            let all = frame(width, body);
            &&& all.len() == size + body.len()
            &&& be_value(all.take(size)) == body.len()
            &&& all.skip(size) == body
        }),
{
    let size = width.spec_size() as int;
    law_prefix_tells_the_length(width, body.len());
    lemma_byte_range_bounds();
    law_be_round_trip(body.len(), width.spec_size());
    assert(frame(width, body).take(size) =~= be_bytes(body.len(), width.spec_size()));
    assert(frame(width, body).skip(size) =~= body);
}

} // verus!
