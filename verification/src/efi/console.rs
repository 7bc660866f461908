//! The text console that an EFI image writes to: one text mode of 80 by
//! 25, and strings of UCS-2 written as their low bytes.
use vstd::prelude::*;
use super::allocator::Status;
use crate::common::{low_byte, ucs2_len_spec};

verus! {

/// Number of bytes the console writes at a time.
pub const CHUNK_SIZE: usize = 128;

/// Columns and rows of text mode `mode`, the only one being mode 0.
pub fn stdout_query_mode(mode: usize) -> (r: Option<(usize, usize)>)
    ensures
        r == if mode == 0 {
            Some((80usize, 25usize))
        } else {
            None
        },
{
    if mode == 0 {
        Some((80, 25))
    } else {
        None
    }
}

/// Switching to text mode `mode`: only mode 0 is supported.
pub fn stdout_set_mode(mode: usize) -> (r: Status)
    ensures
        r == if mode == 0 {
            Status::Success
        } else {
            Status::Unsupported
        },
{
    if mode == 0 {
        Status::Success
    } else {
        Status::Unsupported
    }
}

/// The bytes the console writes for the UCS-2 string `message`: the low
/// bytes of its first `CHUNK_SIZE` units up to its terminator, padded
/// with zeros to `CHUNK_SIZE` bytes, and whether the terminator was among
/// them.
pub fn stdout_output_chunk(message: &[u16]) -> (r: (Vec<u8>, bool))
    requires
        message@.len() >= CHUNK_SIZE || ucs2_len_spec(message@) < message@.len(),
    ensures
        ({
            let k = ucs2_len_spec(message@);
            &&& r.0@.len() == CHUNK_SIZE
            &&& r.1 == (k < CHUNK_SIZE)
            &&& forall|i: int| 0 <= i < CHUNK_SIZE ==> #[trigger] r.0@[i] == if i < k {
                low_byte(message@[i])
            } else {
                0u8
            }
        }),
{
    let ghost k = ucs2_len_spec(message@);
    let mut output: Vec<u8> = Vec::new();
    let mut i: usize = 0;
    let mut ended = false;
    proof {
        crate::common::lemma_ucs2_len_bounds(message@);
    }
    while i < CHUNK_SIZE
        invariant
            0 <= k <= message@.len(),
            message@.len() >= CHUNK_SIZE || k < message@.len(),
            forall|j: int| 0 <= j < k ==> low_byte(message@[j]) != 0,
            k < message@.len() ==> low_byte(message@[k]) == 0,
            i <= CHUNK_SIZE,
            output@.len() == i,
            ended == (k < i),
            forall|j: int| 0 <= j < i ==> #[trigger] output@[j] == if j < k {
                low_byte(message@[j])
            } else {
                0u8
            },
        decreases CHUNK_SIZE - i,
    {
        if ended {
            output.push(0u8);
        } else {
            let b = (message[i] & 0xff) as u8;
            output.push(b);
            if b == 0 {
                ended = true;
            }
        }
        i = i + 1;
    }
    (output, ended)
}

} // verus!
