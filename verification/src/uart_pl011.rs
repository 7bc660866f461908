//! The PL011 UART: bytes go to its data register, with a carriage return
//! before each line feed.
use vstd::prelude::*;

verus! {

/// A PL011 UART at address `base`.
pub struct Pl011 {
    pub base: usize,
}

/// Text as the terminal gets it: each line feed preceded by a carriage
/// return.
pub open spec fn crlf(s: Seq<u8>) -> Seq<u8>
    decreases s.len(),
{
    if s.len() == 0 {
        Seq::empty()
    } else {
        crlf(s.drop_last()) + if s.last() == 10u8 {
            seq![13u8, 10u8]
        } else {
            seq![s.last()]
        }
    }
}

impl Pl011 {
    pub fn new(base: usize) -> (r: Pl011)
        ensures
            r.base == base,
    {
        Pl011 { base }
    }

    /// The UART needs no setup.
    pub fn init(&mut self)
        ensures
            *final(self) == *old(self),
    {
    }

    /// The bytes sent to the data register to write `s`.
    pub fn output_bytes(s: &[u8]) -> (r: Vec<u8>)
        ensures
            r@ == crlf(s@),
    {
        let mut out: Vec<u8> = Vec::new();
        let mut i: usize = 0;
        while i < s.len()
            invariant
                i <= s@.len(),
                out@ == crlf(s@.take(i as int)),
            decreases s@.len() - i,
        {
            let b = s[i];
            if b == 10 {
                out.push(13);
            }
            out.push(b);
            proof {
                assert(s@.take(i + 1).drop_last() =~= s@.take(i as int));
                assert(s@.take(i + 1).last() == b);
            }
            i = i + 1;
            assert(out@ =~= crlf(s@.take(i as int)));
        }
        assert(s@.take(s@.len() as int) =~= s@);
        out
    }
}

} // verus!
