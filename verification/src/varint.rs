use postcard::Error;
use vstd::arithmetic::power::pow;
use vstd::prelude::*;

verus! {

/// Errors of the `postcard` wire format, carried as opaque values.
#[verifier::external_type_specification]
#[verifier::external_body]
pub struct ExPostcardError(Error);

/// The variable-length encoding of an unsigned integer: seven bits per byte, least
/// significant group first, with the high bit set on every byte but the last.
pub open spec fn varint(value: nat) -> Seq<u8>
    decreases value,
{
    if value < 128 {
        seq![value as u8]
    } else {
        seq![(value % 128 + 128) as u8] + varint(value / 128)
    }
}

/// Reading a variable-length integer from `bytes`, starting at byte `i`, as a decoder that
/// reads at most `max` bytes and accepts at most `last_max` in the `max`-th byte.
///
/// The result is the value the bytes from `i` on contribute (already scaled by `128^i`) and
/// the position after the last byte read, or `None` when the input ends early or the
/// encoding does not fit.
pub open spec fn take_varint(bytes: Seq<u8>, i: nat, max: nat, last_max: u8) -> Option<(nat, nat)>
    decreases max - i,
{
    if i >= max || i >= bytes.len() {
        None
    } else {
        let byte = bytes[i as int];
        let carry = (byte % 128) as nat;
        if byte < 128 {
            if i + 1 == max && byte > last_max {
                None
            } else {
                Some(((carry * pow(128, i)) as nat, i + 1))
            }
        } else {
            match take_varint(bytes, i + 1, max, last_max) {
                Some((rest, end)) => Some(((carry * pow(128, i) + rest) as nat, end)),
                None => None,
            }
        }
    }
}

/// Decoding a `u64` the way `postcard` does: at most 10 bytes, the last at most 1.
pub open spec fn take_varint_u64(bytes: Seq<u8>) -> Option<(nat, nat)> {
    take_varint(bytes, 0, 10, 1)
}

/// Decoding a `u32` the way `postcard` does: at most 5 bytes, the last at most 15.
pub open spec fn take_varint_u32(bytes: Seq<u8>) -> Option<(nat, nat)> {
    take_varint(bytes, 0, 5, 15)
}


/// `pow(128, e + 1)` is `128 * pow(128, e)`, and powers of 128 are positive.
proof fn lemma_pow128_step(e: nat)
    ensures
        pow(128, e + 1) == 128 * pow(128, e),
        pow(128, e) > 0,
{
    reveal(pow);
    vstd::arithmetic::power::lemma_pow_positive(128, e);
}

/// Decoding an encoded value from position `i` gives back the value scaled by `128^i`,
/// provided the encoding fits in the bytes the decoder still accepts.
pub proof fn lemma_take_varint(bytes: Seq<u8>, i: nat, max: nat, last_max: u8, value: nat)
    requires
        last_max < 128,
        i < max,
        i + varint(value).len() <= bytes.len(),
        bytes.subrange(i as int, (i + varint(value).len()) as int) == varint(value),
        value < pow(128, (max - i - 1) as nat) * (last_max + 1),
    ensures
        take_varint(bytes, i, max, last_max) == Some(((value * pow(128, i)) as nat, i + varint(value).len())),
    decreases value,
{
    lemma_pow128_step(i);
    lemma_pow128_step((max - i - 1) as nat);
    assert(bytes[i as int] == varint(value)[0]);
    if value < 128 {
        if i + 1 == max {
            reveal(pow);
            assert(pow(128, 0) == 1);
        }
    } else {
        let rest = value / 128;
        if i + 1 == max {
            reveal(pow);
            assert(pow(128, 0) == 1);
            assert(false);
        }
        let r = (max - i - 2) as nat;
        lemma_pow128_step(r);
        assert(((max - i - 1) as nat) == r + 1);
        assert(rest < pow(128, r) * (last_max + 1)) by (nonlinear_arith)
            requires
                value < 128 * pow(128, r) * (last_max + 1),
                rest == value / 128,
                pow(128, r) > 0,
        ;
        assert(varint(value) =~= seq![(value % 128 + 128) as u8] + varint(rest));
        assert(bytes.subrange((i + 1) as int, (i + 1 + varint(rest).len()) as int) =~= varint(rest)) by {
            assert forall|j: int| 0 <= j < varint(rest).len() implies bytes.subrange(
                (i + 1) as int,
                (i + 1 + varint(rest).len()) as int,
            )[j] == varint(rest)[j] by {
                assert(bytes.subrange(i as int, (i + varint(value).len()) as int)[j + 1] == varint(
                    value,
                )[j + 1]);
            }
        }
        lemma_take_varint(bytes, i + 1, max, last_max, rest);
        lemma_pow128_step(i);
        assert((value % 128) * pow(128, i) + rest * pow(128, i + 1) == value * pow(128, i)) by (nonlinear_arith)
            requires
                pow(128, i + 1) == 128 * pow(128, i),
                rest == value / 128,
        ;
    }
}


/// A successful read ends after its start and within the bytes.
pub proof fn lemma_take_varint_end(bytes: Seq<u8>, i: nat, max: nat, last_max: u8)
    ensures
        take_varint(bytes, i, max, last_max) matches Some((_, end)) ==> i < end <= bytes.len(),
    decreases max - i,
{
    if i < max && i < bytes.len() && bytes[i as int] >= 128 {
        lemma_take_varint_end(bytes, i + 1, max, last_max);
    }
}

/// Every `u64` decodes back from its encoding, whatever follows it.
pub proof fn lemma_take_varint_u64(value: u64, rest: Seq<u8>)
    ensures
        take_varint_u64(varint(value as nat) + rest) == Some((value as nat, varint(value as nat).len())),
{
    let bytes = varint(value as nat) + rest;
    assert(bytes.subrange(0, varint(value as nat).len() as int) =~= varint(value as nat));
    assert(pow(128, 9) * 2 == 0x1_0000_0000_0000_0000) by {
        reveal_with_fuel(pow, 10);
    }
    reveal(pow);
    assert(pow(128, 0) == 1);
    lemma_take_varint(bytes, 0, 10, 1, value as nat);
}

/// Every `u32` decodes back from its encoding, whatever follows it.
pub proof fn lemma_take_varint_u32(value: u32, rest: Seq<u8>)
    ensures
        take_varint_u32(varint(value as nat) + rest) == Some((value as nat, varint(value as nat).len())),
{
    let bytes = varint(value as nat) + rest;
    assert(bytes.subrange(0, varint(value as nat).len() as int) =~= varint(value as nat));
    assert(pow(128, 4) * 16 == 0x1_0000_0000) by {
        reveal_with_fuel(pow, 5);
    }
    reveal(pow);
    assert(pow(128, 0) == 1);
    lemma_take_varint(bytes, 0, 5, 15, value as nat);
}

/// Calls `postcard::to_extend` on a `u64`.
///
/// `postcard` writes integers wider than a byte as [`varint`]s, and extending a vector never
/// fails.
#[verifier::external_body]
pub(crate) fn postcard_extend_u64(value: u64, out: &mut Vec<u8>) -> (result: Result<(), Error>)
    ensures
        result is Ok,
        final(out)@ == old(out)@ + varint(value as nat),
{
    let extended = postcard::to_extend(&value, core::mem::take(out))?;
    *out = extended;
    Ok(())
}

/// Calls `postcard::to_extend` on a `u32`.
///
/// `postcard` writes integers wider than a byte as [`varint`]s, and extending a vector never
/// fails.
#[verifier::external_body]
pub(crate) fn postcard_extend_u32(value: u32, out: &mut Vec<u8>) -> (result: Result<(), Error>)
    ensures
        result is Ok,
        final(out)@ == old(out)@ + varint(value as nat),
{
    let extended = postcard::to_extend(&value, core::mem::take(out))?;
    *out = extended;
    Ok(())
}

/// Calls `postcard::to_slice` on a `u32`, writing into `buffer` from `start` on.
///
/// The encoding is written at once: when it does not fit, `postcard` fails with
/// `SerializeBufferFull` and leaves the buffer as it was.
#[verifier::external_body]
pub(crate) fn postcard_write_u32(value: u32, buffer: &mut Vec<u8>, start: usize) -> (result: Result<(), Error>)
    requires
        start <= old(buffer)@.len(),
    ensures
        start + varint(value as nat).len() <= old(buffer)@.len() ==> result is Ok && final(buffer)@
            == old(buffer)@.take(start as int) + varint(value as nat) + old(buffer)@.skip(
            start + varint(value as nat).len(),
        ),
        start + varint(value as nat).len() > old(buffer)@.len() ==> result is Err && final(buffer)@
            == old(buffer)@,
{
    postcard::to_slice(&value, &mut buffer[start..])?;
    Ok(())
}

/// Calls `postcard::experimental::serialized_size` on a `u32`: the length of its [`varint`].
#[verifier::external_body]
pub(crate) fn postcard_size_u32(value: u32) -> (result: Result<usize, Error>)
    ensures
        result is Ok,
        result->Ok_0 == varint(value as nat).len(),
{
    postcard::experimental::serialized_size(&value)
}

/// Calls `postcard::take_from_bytes` for a `u64`, returning the value and the unread bytes.
#[verifier::external_body]
pub(crate) fn postcard_take_u64(input: &[u8]) -> (result: Result<(u64, &[u8]), Error>)
    ensures
        match take_varint_u64(input@) {
            Some((value, end)) => result matches Ok((v, rest)) && v == value && rest@ == input@.skip(
                end as int,
            ),
            None => result is Err,
        },
{
    postcard::take_from_bytes::<u64>(input)
}

/// Calls `postcard::take_from_bytes` for a `u32`, returning the value and the unread bytes.
#[verifier::external_body]
pub(crate) fn postcard_take_u32(input: &[u8]) -> (result: Result<(u32, &[u8]), Error>)
    ensures
        match take_varint_u32(input@) {
            Some((value, end)) => result matches Ok((v, rest)) && v == value && rest@ == input@.skip(
                end as int,
            ),
            None => result is Err,
        },
{
    postcard::take_from_bytes::<u32>(input)
}

} // verus!
