//! Bounds-checked reads from the cache file's byte arena.
//!
//! Every on-disk reference in the cache format is an absolute byte offset
//! into one read-only buffer.  The accessors here gate every read: each
//! first verifies that the requested bytes lie within the buffer and fails
//! with `None` otherwise, so no offset taken from the file can ever cause a
//! read out of bounds.

use vstd::prelude::*;
use vstd::slice::slice_subrange;
use vstd::utf8::{decode_utf8, valid_utf8};

verus! {

/// Two bytes starting at `off` lie within the buffer.
pub open spec fn can_read16(data: Seq<u8>, off: int) -> bool {
    0 <= off && off + 2 <= data.len()
}

/// The big-endian 16-bit value stored at `off`.
pub open spec fn card16_at(data: Seq<u8>, off: int) -> u16 {
    ((data[off] as int) * 0x100 + (data[off + 1] as int)) as u16
}

/// Four bytes starting at `off` lie within the buffer; offset 0 is never a
/// valid 32-bit field (the format uses it as an empty-slot marker).
pub open spec fn can_read32(data: Seq<u8>, off: int) -> bool {
    0 < off && off + 4 <= data.len()
}

/// The big-endian 32-bit value stored at `off`.
pub open spec fn card32_at(data: Seq<u8>, off: int) -> u32 {
    ((data[off] as int) * 0x100_0000 + (data[off + 1] as int) * 0x1_0000 + (data[off
        + 2] as int) * 0x100 + (data[off + 3] as int)) as u32
}

/// The position of the first zero byte at or after `off`, or the buffer
/// length when there is none (or when `off` itself is out of bounds).
pub open spec fn cstr_end(data: Seq<u8>, off: int) -> int
    decreases data.len() - off,
{
    if off < 0 || off >= data.len() {
        data.len() as int
    } else if data[off] == 0 {
        off
    } else {
        cstr_end(data, off + 1)
    }
}

/// A null-terminated string starts at `off`: the terminator lies within the
/// buffer and at least one byte precedes it (an empty string is invalid).
pub open spec fn cstr_ok(data: Seq<u8>, off: int) -> bool {
    0 <= off && cstr_end(data, off) < data.len() && off < cstr_end(data, off)
}

/// The bytes of the null-terminated string at `off`, terminator excluded.
pub open spec fn cstr_bytes(data: Seq<u8>, off: int) -> Seq<u8> {
    data.subrange(off, cstr_end(data, off))
}

/// Reads the big-endian 16-bit value at `offset`.  Fails exactly when the
/// two bytes do not lie within the buffer; it never reads out of bounds.
pub fn read_card16_from(data: &[u8], offset: u64) -> (r: Option<u16>)
    ensures
        r == if can_read16(data@, offset as int) {
            Some(card16_at(data@, offset as int))
        } else {
            None::<u16>
        },
{
    let n = data.len();
    if offset < n as u64 && n as u64 - offset >= 2 {
        let i = offset as usize;
        let b0 = data[i];
        let b1 = data[i + 1];
        Some((b0 as u16) * 0x100 + (b1 as u16))
    } else {
        None
    }
}

/// Reads the big-endian 32-bit value at `offset`.  Fails exactly when
/// `offset` is 0 or the four bytes do not lie within the buffer; it never
/// reads out of bounds.
pub fn read_card32_from(data: &[u8], offset: u64) -> (r: Option<u32>)
    ensures
        r == if can_read32(data@, offset as int) {
            Some(card32_at(data@, offset as int))
        } else {
            None::<u32>
        },
{
    let n = data.len();
    if offset > 0 && offset < n as u64 && n as u64 - offset >= 4 {
        let i = offset as usize;
        let b0 = data[i];
        let b1 = data[i + 1];
        let b2 = data[i + 2];
        let b3 = data[i + 3];
        Some((b0 as u32) * 0x100_0000 + (b1 as u32) * 0x1_0000 + (b2 as u32) * 0x100 + (b3 as u32))
    } else {
        None
    }
}

/// Scans for the null terminator of the string at `offset`.  Returns its
/// position when the string is valid (terminated within bounds, nonempty).
fn find_cstr_end(data: &[u8], offset: u64) -> (r: Option<u64>)
    ensures
        match r {
            Some(end) => cstr_ok(data@, offset as int) && end == cstr_end(data@, offset as int),
            None => !cstr_ok(data@, offset as int),
        },
{
    let n = data.len();
    if offset >= n as u64 {
        return None;
    }
    let mut i: usize = offset as usize;
    while i < n && data[i] != 0
        invariant
            offset <= i as u64,
            i <= n,
            n == data@.len(),
            cstr_end(data@, offset as int) == cstr_end(data@, i as int),
        decreases n - i,
    {
        i = i + 1;
    }
    if i < n && i > offset as usize {
        Some(i as u64)
    } else {
        None
    }
}

/// The lossy UTF-8 decoding of a byte sequence that is not valid UTF-8
/// (invalid runs come out as replacement characters).
pub uninterp spec fn lossy_of(bytes: Seq<u8>) -> Seq<char>;

/// The characters a stored byte run decodes to: its exact UTF-8 decoding
/// when the bytes are valid UTF-8, and the lossy decoding otherwise.
pub open spec fn decoded(bytes: Seq<u8>) -> Seq<char> {
    if valid_utf8(bytes) {
        decode_utf8(bytes)
    } else {
        lossy_of(bytes)
    }
}

/// Relies on String::from_utf8_lossy from std: the result depends on the
/// bytes alone; valid UTF-8 decodes exactly, anything else lossily.
#[verifier::external_body]
fn utf8_lossy_to_string(bytes: &[u8]) -> (r: String)
    ensures
        r@ == if valid_utf8(bytes@) {
            decode_utf8(bytes@)
        } else {
            lossy_of(bytes@)
        },
{
    String::from_utf8_lossy(bytes).into_owned()
}

/// Decodes the null-terminated string at `offset`, lossily where its bytes
/// are not valid UTF-8.  Fails exactly when the string is unterminated
/// within bounds or empty.
pub fn read_cstring_from(data: &[u8], offset: u64) -> (r: Option<String>)
    ensures
        match r {
            Some(s) => cstr_ok(data@, offset as int) && s@ == decoded(
                cstr_bytes(data@, offset as int),
            ),
            None => !cstr_ok(data@, offset as int),
        },
{
    match find_cstr_end(data, offset) {
        Some(end) => {
            let n = data.len();
            proof {
                assert(offset < end < n);
            }
            let sub = slice_subrange(data, offset as usize, end as usize);
            Some(utf8_lossy_to_string(sub))
        },
        None => None,
    }
}

/// Compares the null-terminated string at `offset` with `name`, byte for
/// byte.  True exactly when a valid string is stored there and its bytes
/// equal `name`.
pub fn cstring_matches(data: &[u8], offset: u64, name: &[u8]) -> (r: bool)
    ensures
        r == (cstr_ok(data@, offset as int) && cstr_bytes(data@, offset as int) == name@),
{
    match find_cstr_end(data, offset) {
        Some(end) => {
            let n = data.len();
            proof {
                assert(offset < end < n);
            }
            let start = offset as usize;
            let len = end as usize - start;
            if len != name.len() {
                proof {
                    assert(cstr_bytes(data@, offset as int).len() != name@.len());
                }
                return false;
            }
            let mut j: usize = 0;
            while j < len
                invariant
                    j <= len,
                    offset as int + len == cstr_end(data@, offset as int),
                    cstr_ok(data@, offset as int),
                    len == name@.len(),
                    start == offset as usize,
                    start + len <= data@.len(),
                    data@.len() <= usize::MAX,
                    forall|k: int| 0 <= k < j ==> data@[start + k] == name@[k],
                decreases len - j,
            {
                if data[start + j] != name[j] {
                    proof {
                        assert(cstr_bytes(data@, offset as int)[j as int] != name@[j as int]);
                    }
                    return false;
                }
                j = j + 1;
            }
            proof {
                assert(cstr_bytes(data@, offset as int) =~= name@);
            }
            true
        },
        None => false,
    }
}

} // verus!
