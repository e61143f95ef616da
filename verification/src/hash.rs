//! The icon-name hash of the cache format.
//!
//! The on-disk hash table is keyed by a 32-bit hash of the icon name's
//! bytes: starting from 0, each byte `c` turns an accumulator `h` into
//! `h * 31 + c`, with all arithmetic taken modulo 2^32.

use vstd::prelude::*;
use vstd::string::StringSliceAdditionalSpecFns;

verus! {

/// The hash of a byte sequence: a left fold of `h * 31 + c` modulo 2^32.
pub open spec fn hash_spec(s: Seq<u8>) -> u32
    decreases s.len(),
{
    if s.len() == 0 {
        0u32
    } else {
        (((hash_spec(s.drop_last()) as int) * 31 + s.last() as int) % 0x1_0000_0000) as u32
    }
}

/// Computes the icon-name hash of a byte slice.
pub fn hash_bytes(name: &[u8]) -> (r: u32)
    ensures
        r == hash_spec(name@),
{
    let mut h: u64 = 0;
    let mut i: usize = 0;
    while i < name.len()
        invariant
            i <= name@.len(),
            h == hash_spec(name@.take(i as int)) as u64,
        decreases name@.len() - i,
    {
        let c = name[i];
        h = (h * 31 + c as u64) % 0x1_0000_0000;
        proof {
            assert(name@.take(i + 1).drop_last() =~= name@.take(i as int));
            assert(name@.take(i + 1).last() == name@[i as int]);
        }
        i = i + 1;
    }
    proof {
        assert(name@.take(name@.len() as int) =~= name@);
    }
    h as u32
}

/// Computes the icon-name hash of a name.
///
/// The result is a pure function of the name's bytes alone: repeated calls
/// on equal names always return the same value.
pub fn icon_name_hash(name: &str) -> (r: u32)
    ensures
        r == hash_spec(name.spec_bytes()),
{
    hash_bytes(name.as_bytes())
}

} // verus!
