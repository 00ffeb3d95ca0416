//! Unsigned LEB128 (varint) encoding and decoding.
//!
//! Every length and identifier field of the container format is an
//! unsigned LEB128 value: each byte carries 7 value bits in its low bits,
//! least-significant group first, and the high bit of every byte except
//! the last is a continuation flag. [`leb128`] is the mathematical
//! encoding, [`spec_leb_decode`] and [`spec_get32`] the mathematical
//! decoders, and [`put`], [`get7`] and [`get32`] the executable codec
//! proved against them.

use vstd::prelude::*;

use crate::error::WSError;
use crate::reader::ByteReader;

verus! {

/// The minimal unsigned LEB128 encoding of `n`.
pub open spec fn leb128(n: nat) -> Seq<u8>
    decreases n,
{
    if n < 128 {
        seq![n as u8]
    } else {
        seq![(128 + (n % 128)) as u8] + leb128(n / 128)
    }
}

/// `128^n`, the number of values a chain of `n` LEB128 bytes can carry.
pub open spec fn pow128(n: nat) -> nat
    decreases n,
{
    if n == 0 {
        1
    } else {
        128 * pow128((n - 1) as nat)
    }
}

/// Decodes one LEB128 chain of at most `max` bytes from the front of
/// `bytes`: the value and the number of bytes it occupies, a truncation
/// error when the input ends before a terminating byte, or an overflow
/// error when the chain does not terminate within `max` bytes.
pub open spec fn spec_leb_decode(bytes: Seq<u8>, max: nat) -> Result<(nat, int), WSError>
    decreases max,
{
    if bytes.len() == 0 {
        Err(WSError::TruncatedInput)
    } else if bytes[0] < 128 {
        Ok((bytes[0] as nat, 1))
    } else if max <= 1 {
        Err(WSError::VarintOverflow)
    } else {
        match spec_leb_decode(bytes.subrange(1, bytes.len() as int), (max - 1) as nat) {
            Err(e) => Err(e),
            Ok((v, n)) => Ok(((bytes[0] - 128) as nat + 128 * v, n + 1)),
        }
    }
}

/// What [`get32`] returns on an input whose unread bytes are `bytes`:
/// a chain of at most 5 bytes whose value fits in 32 bits, or the error
/// mandated for the input.
pub open spec fn spec_get32(bytes: Seq<u8>) -> Result<(u32, int), WSError> {
    match spec_leb_decode(bytes, 5) {
        Err(e) => Err(e),
        Ok((v, n)) => if v < 0x1_0000_0000 {
            Ok((v as u32, n))
        } else {
            Err(WSError::VarintOverflow)
        },
    }
}

/// The first few powers of 128, spelled out for use in bounds.
pub proof fn lemma_pow128_values()
    ensures
        pow128(0nat) == 1,
        pow128(1nat) == 128,
        pow128(2nat) == 16384,
        pow128(3nat) == 2097152,
        pow128(4nat) == 268435456,
        pow128(5nat) == 0x8_0000_0000,
{
    assert(pow128(1nat) == 128 * pow128(0nat));
    assert(pow128(2nat) == 128 * pow128(1nat));
    assert(pow128(3nat) == 128 * pow128(2nat));
    assert(pow128(4nat) == 128 * pow128(3nat));
    assert(pow128(5nat) == 128 * pow128(4nat));
}

/// A LEB128 encoding is between 1 and `m` bytes long whenever its value
/// fits in `m` groups of 7 bits.
pub proof fn lemma_leb128_len(v: nat, m: nat)
    requires
        v < pow128(m),
        m >= 1,
    ensures
        1 <= leb128(v).len() <= m,
    decreases v,
{
    if v < 128 {
    } else {
        assert(pow128(m) == 128 * pow128((m - 1) as nat));
        assert(v / 128 < pow128((m - 1) as nat)) by (nonlinear_arith)
            requires
                v < 128 * pow128((m - 1) as nat),
                v >= 128,
        ;
        assert(m >= 2) by {
            lemma_pow128_values();
        }
        lemma_leb128_len(v / 128, (m - 1) as nat);
    }
}

/// Decoding an encoded value from the front of any stream yields the
/// value back and consumes exactly its encoding, as long as the value
/// fits the decoder's byte budget.
pub proof fn lemma_leb_decode_encode(v: nat, rest: Seq<u8>, max: nat)
    requires
        v < pow128(max),
    ensures
        spec_leb_decode(leb128(v) + rest, max) == Ok::<(nat, int), WSError>(
            (v, leb128(v).len() as int),
        ),
    decreases v,
{
    let bytes = leb128(v) + rest;
    if v < 128 {
        assert(bytes[0] == v as u8);
        assert(bytes.len() >= 1);
    } else {
        let b0: u8 = (128 + (v % 128)) as u8;
        assert(bytes[0] == b0);
        assert(b0 >= 128);
        assert(max >= 2) by {
            lemma_pow128_values();
        }
        assert(pow128(max) == 128 * pow128((max - 1) as nat));
        assert(v / 128 < pow128((max - 1) as nat)) by (nonlinear_arith)
            requires
                v < 128 * pow128((max - 1) as nat),
                v >= 128,
        ;
        lemma_leb_decode_encode(v / 128, rest, (max - 1) as nat);
        assert(bytes.subrange(1, bytes.len() as int) =~= leb128(v / 128) + rest);
        assert((b0 - 128) as nat + 128 * (v / 128) == v) by (nonlinear_arith)
            requires
                b0 == 128 + (v % 128),
                v >= 128,
        ;
        assert(leb128(v).len() == 1 + leb128(v / 128).len());
    }
}

/// Round trip through the 32-bit decoder: for every value in range, the
/// decoder applied to the encoding — whatever follows it — returns the
/// value and steps past exactly the encoding.
pub proof fn lemma_varint32_round_trip(v: nat, rest: Seq<u8>)
    requires
        v <= u32::MAX,
    ensures
        1 <= leb128(v).len() <= 5,
        spec_get32(leb128(v) + rest) == Ok::<(u32, int), WSError>(
            ((v as u32), leb128(v).len() as int),
        ),
{
    lemma_pow128_values();
    lemma_leb_decode_encode(v, rest, 5);
    lemma_leb128_len(v, 5);
}

/// Appends the minimal LEB128 encoding of `value` to `out`.
///
/// Writing to an in-memory sink cannot fail; the `Result` mirrors the
/// shape expected by callers that write through fallible sinks.
pub fn put(out: &mut Vec<u8>, value: u64) -> (r: Result<(), WSError>)
    ensures
        r is Ok,
        final(out)@ == old(out)@ + leb128(value as nat),
{
    let mut v: u64 = value;
    let ghost mut emitted: Seq<u8> = Seq::empty();
    proof {
        assert(out@ =~= old(out)@ + emitted);
    }
    while v >= 128
        invariant
            out@ == old(out)@ + emitted,
            leb128(value as nat) == emitted + leb128(v as nat),
        decreases v,
    {
        let b: u8 = ((v % 128) + 128) as u8;
        out.push(b);
        proof {
            assert(leb128(v as nat) == seq![b] + leb128((v as nat) / 128));
            assert(emitted + leb128(v as nat) =~= (emitted + seq![b]) + leb128((v as nat) / 128));
            emitted = emitted + seq![b];
            assert((v as nat) / 128 == ((v / 128) as nat));
        }
        v = v / 128;
    }
    out.push(v as u8);
    proof {
        assert(leb128(v as nat) == seq![v as u8]);
        assert(out@ =~= old(out)@ + leb128(value as nat));
    }
    Ok(())
}

/// Reads one byte masked to its low 7 bits.
///
/// An input that is already exhausted is the clean end-of-stream signal
/// `Eof`; this is how the section iterator detects that no sections
/// remain.
pub fn get7(r: &mut ByteReader<'_>) -> (res: Result<u8, WSError>)
    requires
        old(r).wf(),
    ensures
        final(r).wf(),
        final(r).data@ == old(r).data@,
        old(r).remaining().len() == 0 ==> res == Err::<u8, WSError>(WSError::Eof) && final(r).pos
            == old(r).pos,
        old(r).remaining().len() > 0 ==> (res matches Ok(b) && b == old(r).remaining()[0] % 128
            && final(r).pos == old(r).pos + 1),
{
    match r.read_byte() {
        Some(b) => Ok(b % 128),
        None => Err(WSError::Eof),
    }
}

/// Reads one LEB128-encoded value into 32 bits, as [`spec_get32`]
/// prescribes: at most 5 chained bytes, failing with an overflow error
/// on a longer chain or a value beyond 32 bits, and with a truncation
/// error when the input ends mid-chain.
pub fn get32(r: &mut ByteReader<'_>) -> (res: Result<u32, WSError>)
    requires
        old(r).wf(),
    ensures
        final(r).wf(),
        final(r).data@ == old(r).data@,
        ({
            match spec_get32(old(r).remaining()) {
                Ok((v, n)) => res == Ok::<u32, WSError>(v) && final(r).pos == old(r).pos + n,
                Err(e) => res == Err::<u32, WSError>(e),
            }
        }),
{
    let mut result: u32 = 0;
    let mut factor: u32 = 1;
    let mut i: usize = 0;
    loop
        invariant
            r.wf(),
            r.data@ == old(r).data@,
            i <= 4,
            r.pos == old(r).pos + i,
            factor == pow128(i as nat),
            result < factor,
            ({
                let cur = spec_leb_decode(r.remaining(), (5 - i) as nat);
                let whole = spec_leb_decode(old(r).remaining(), 5);
                match cur {
                    Ok((v, n)) => whole == Ok::<(nat, int), WSError>(
                        ((result + v * factor) as nat, n + i),
                    ),
                    Err(e) => whole == Err::<(nat, int), WSError>(e),
                }
            }),
        decreases 4 - i,
    {
        proof {
            lemma_pow128_values();
        }
        let ghost rem = r.remaining();
        match r.read_byte() {
            None => {
                assert(spec_leb_decode(rem, (5 - i) as nat) == Err::<(nat, int), WSError>(
                    WSError::TruncatedInput,
                ));
                return Err(WSError::TruncatedInput);
            },
            Some(b) => {
                proof {
                    assert(r.remaining() =~= rem.subrange(1, rem.len() as int));
                }
                if b < 128 {
                    assert(spec_leb_decode(rem, (5 - i) as nat) == Ok::<(nat, int), WSError>(
                        (b as nat, 1),
                    ));
                    if i == 4 && b >= 16 {
                        assert(result + (b as nat) * (factor as nat) >= 0x1_0000_0000)
                            by (nonlinear_arith)
                            requires
                                factor == 268435456,
                                b >= 16,
                                result >= 0,
                        ;
                        return Err(WSError::VarintOverflow);
                    }
                    assert(result + (b as nat) * (factor as nat) < 0x1_0000_0000)
                        by (nonlinear_arith)
                        requires
                            result < factor,
                            factor == pow128(i as nat),
                            i <= 4,
                            pow128(0nat) == 1 && pow128(1nat) == 128 && pow128(2nat) == 16384
                                && pow128(3nat) == 2097152 && pow128(4nat) == 268435456,
                            b < 128,
                            !(i == 4 && b >= 16),
                    ;
                    let add: u32 = (b as u32) * factor;
                    let out: u32 = result + add;
                    assert(out == result + (b as nat) * (factor as nat));
                    return Ok(out);
                }
                if i == 4 {
                    assert(spec_leb_decode(rem, 1) == Err::<(nat, int), WSError>(
                        WSError::VarintOverflow,
                    ));
                    return Err(WSError::VarintOverflow);
                }
                let digit: u32 = (b - 128) as u32;
                proof {
                    assert((digit as nat) * (factor as nat) + result < 128 * (factor as nat))
                        by (nonlinear_arith)
                        requires
                            digit < 128,
                            result < factor,
                            factor >= 1,
                    ;
                    assert(128 * (factor as nat) <= 0x1_0000_0000) by (nonlinear_arith)
                        requires
                            factor == pow128(i as nat),
                            i <= 3,
                            pow128(0nat) == 1 && pow128(1nat) == 128 && pow128(2nat) == 16384
                                && pow128(3nat) == 2097152,
                    ;
                }
                let ghost old_result = result;
                let ghost old_factor = factor;
                result = result + digit * factor;
                factor = factor * 128;
                proof {
                    assert(factor == pow128((i + 1) as nat));
                    assert(result < factor) by (nonlinear_arith)
                        requires
                            result == old_result + digit * old_factor,
                            factor == old_factor * 128,
                            old_result < old_factor,
                            digit < 128,
                            old_factor >= 1,
                    ;
                    let cur2 = spec_leb_decode(r.remaining(), (5 - (i + 1)) as nat);
                    match cur2 {
                        Ok((v, n)) => {
                            assert(spec_leb_decode(rem, (5 - i) as nat) == Ok::<
                                (nat, int),
                                WSError,
                            >(((b - 128) as nat + 128 * v, n + 1)));
                            assert(old_result + ((b - 128) as nat + 128 * v) * old_factor == result
                                + v * factor) by (nonlinear_arith)
                                requires
                                    result == old_result + ((b - 128) as nat) * old_factor,
                                    factor == old_factor * 128,
                            ;
                        },
                        Err(_) => {},
                    }
                }
                i = i + 1;
            },
        }
    }
}

} // verus!
