use vstd::prelude::*;
use bytes::BytesMut;
use crate::outside::buffer::{buffer_bytes, buffer_put_u8};
use crate::outside::chance::random_byte;
use crate::pre_processing::opcode::{push_length, spec_push_length};

verus! {

/// How often a random byte is drawn for one place before a zero is written instead.
pub const RANDOM_TRIES: usize = 64;

/// The `n` bytes that fill a gap with a pattern: the pattern, repeated, or zeros where
/// the pattern is empty.
pub open spec fn pattern_filler(pattern: Seq<u8>, n: nat) -> Seq<u8> {
    Seq::new(
        n,
        |i: int|
            if pattern.len() == 0 {
                0u8
            } else {
                pattern[i % pattern.len() as int]
            },
    )
}

/// Whether `byte` may fill a place after which `remaining` places of the gap follow: if
/// it is a push opcode, its data fits in them.
pub open spec fn filler_fits(byte: u8, remaining: nat) -> bool {
    match spec_push_length(byte) {
        Some(length) => length <= remaining,
        None => true,
    }
}

/// Whether each byte of a filler fits its place.
pub open spec fn filler_safe(filler: Seq<u8>) -> bool {
    forall|i: int|
        0 <= i < filler.len() ==> filler_fits(#[trigger] filler[i], (filler.len() - 1 - i) as nat)
}

/// Tells whether `byte` may fill a place after which `remaining` places follow.
pub fn fits(byte: u8, remaining: usize) -> (res: bool)
    ensures
        res == filler_fits(byte, remaining as nat),
{
    match push_length(byte) {
        Some(length) => length <= remaining,
        None => true,
    }
}

/// A byte for a place after which `remaining` places follow: a random byte that fits,
/// or zero if `RANDOM_TRIES` draws in a row gave none.
fn random_fitting(remaining: usize) -> (res: u8)
    ensures
        filler_fits(res, remaining as nat),
{
    let mut tries: usize = 0;
    while tries < RANDOM_TRIES
        invariant
            tries <= RANDOM_TRIES,
        decreases RANDOM_TRIES - tries,
    {
        let op = random_byte();
        if fits(op, remaining) {
            return op;
        }
        tries += 1;
    }
    0x00
}

/// Puts `n` random bytes at the end of the buffer, each of which fits its place.
pub fn fill_with_random(bytes: &mut BytesMut, n: usize)
    ensures
        buffer_bytes(*final(bytes)).len() == buffer_bytes(*old(bytes)).len() + n,
        buffer_bytes(*final(bytes)).subrange(0, buffer_bytes(*old(bytes)).len() as int)
            == buffer_bytes(*old(bytes)),
        filler_safe(
            buffer_bytes(*final(bytes)).subrange(
                buffer_bytes(*old(bytes)).len() as int,
                buffer_bytes(*final(bytes)).len() as int,
            ),
        ),
{
    let ghost before = buffer_bytes(*bytes);
    let mut left: usize = n;
    while left > 0
        invariant
            left <= n,
            before == buffer_bytes(*old(bytes)),
            buffer_bytes(*bytes).len() == before.len() + (n - left),
            buffer_bytes(*bytes).subrange(0, before.len() as int) == before,
            forall|i: int|
                0 <= i < n - left ==> filler_fits(
                    #[trigger] buffer_bytes(*bytes)[before.len() + i],
                    (n - 1 - i) as nat,
                ),
        decreases left,
    {
        let byte = random_fitting(left - 1);
        let ghost so_far = buffer_bytes(*bytes);
        buffer_put_u8(bytes, byte);
        assert(buffer_bytes(*bytes).subrange(0, before.len() as int) =~= so_far.subrange(
            0,
            before.len() as int,
        ));
        left -= 1;
    }
    proof {
        let filler = buffer_bytes(*bytes).subrange(
            before.len() as int,
            buffer_bytes(*bytes).len() as int,
        );
        assert forall|i: int| 0 <= i < filler.len() implies filler_fits(
            #[trigger] filler[i],
            (filler.len() - 1 - i) as nat,
        ) by {
            assert(filler[i] == buffer_bytes(*bytes)[before.len() + i]);
        }
    }
}

/// Puts `n` bytes at the end of the buffer: the pattern, repeated, or zeros where the
/// pattern is empty.
pub fn fill_with_pattern(bytes: &mut BytesMut, pattern: &[u8], n: usize)
    ensures
        buffer_bytes(*final(bytes)) == buffer_bytes(*old(bytes)) + pattern_filler(
            pattern@,
            n as nat,
        ),
{
    let ghost before = buffer_bytes(*bytes);
    let mut i: usize = 0;
    while i < n
        invariant
            i <= n,
            buffer_bytes(*bytes) == before + pattern_filler(pattern@, i as nat),
        decreases n - i,
    {
        let byte = if pattern.len() == 0 {
            0x00
        } else {
            pattern[i % pattern.len()]
        };
        buffer_put_u8(bytes, byte);
        assert(buffer_bytes(*bytes) =~= before + pattern_filler(pattern@, (i + 1) as nat));
        i += 1;
    }
}

} // verus!
