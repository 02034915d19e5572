//! NUL-terminated names and their UTF-8 decoding.

use vstd::prelude::*;
use vstd::string::StringSliceAdditionalSpecFns;
use vstd::utf8::{encode_utf8, valid_utf8};

verus! {

/// The length of the C string at the start of `bytes`: the bytes before
/// the first NUL.
pub open spec fn c_string_len_spec(bytes: Seq<u8>) -> int
    recommends
        bytes.contains(0u8),
{
    choose|n: int|
        0 <= n < bytes.len() && bytes[n] == 0u8 && forall|i: int| 0 <= i < n ==> bytes[i] != 0u8
}

/// The position of the first NUL in `bytes`.
pub fn c_string_len(bytes: &[u8]) -> (n: usize)
    requires
        bytes@.contains(0u8),
    ensures
        n < bytes@.len(),
        bytes@[n as int] == 0u8,
        forall|i: int| 0 <= i < n ==> bytes@[i] != 0u8,
        n == c_string_len_spec(bytes@),
{
    let mut n: usize = 0;
    while bytes[n] != 0u8
        invariant
            n < bytes@.len(),
            bytes@.contains(0u8),
            forall|i: int| 0 <= i < n ==> bytes@[i] != 0u8,
        decreases bytes@.len() - n,
    {
        proof {
            let k = choose|k: int| 0 <= k < bytes@.len() && bytes@[k] == 0u8;
            assert(k > n);
        }
        n = n + 1;
    }
    proof {
        let c = c_string_len_spec(bytes@);
        assert(0 <= (n as int) < bytes@.len() && bytes@[n as int] == 0u8 && forall|i: int|
            0 <= i < n ==> bytes@[i] != 0u8);
        assert(0 <= c < bytes@.len() && bytes@[c] == 0u8 && forall|i: int|
            0 <= i < c ==> bytes@[i] != 0u8);
        if c < n {
            assert(bytes@[c] != 0u8);
        }
        if c > n {
            assert(bytes@[n as int] != 0u8);
        }
    }
    n
}

/// `core::str::from_utf8`: reads the bytes as a string slice when they are
/// well-formed UTF-8. The contract claims that std accepts exactly the byte
/// sequences that vstd's `valid_utf8` describes, and that the slice it hands
/// back holds the same bytes.
#[verifier::external_body]
fn str_from_utf8(bytes: &[u8]) -> (r: Option<&str>)
    ensures
        r is Some <==> valid_utf8(bytes@),
        r matches Some(s) ==> s.spec_bytes() == bytes@,
{
    core::str::from_utf8(bytes).ok()
}

/// Decodes `bytes` as UTF-8 into an owned string; `None` when they are not
/// well-formed UTF-8.
pub fn utf8_to_string(bytes: &[u8]) -> (r: Option<String>)
    ensures
        r is Some <==> valid_utf8(bytes@),
        r matches Some(s) ==> encode_utf8(s@) == bytes@,
{
    match str_from_utf8(bytes) {
        Some(s) => Some(s.to_owned()),
        None => None,
    }
}

} // verus!
