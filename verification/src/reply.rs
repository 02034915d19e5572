//! Replies of the eBPF command server: decimal numbers, fixed messages and
//! the `OK:` / `ERROR:` framing, all as byte strings.

use vstd::prelude::*;
use vstd::string::StringSliceAdditionalSpecFns;

verus! {

/// ASCII code of the digit `d` (for `d < 10`).
pub open spec fn digit_byte(d: nat) -> u8 {
    (48 + d) as u8
}

/// The decimal rendering of `n`, most significant digit first, without
/// leading zeros (so `0` renders as `"0"`).
pub open spec fn decimal(n: nat) -> Seq<u8>
    decreases n,
{
    if n < 10 {
        seq![digit_byte(n)]
    } else {
        decimal(n / 10).push(digit_byte(n % 10))
    }
}

/// Distinct numbers render differently, so a number sent back in a reply
/// names one resource only.
pub proof fn lemma_decimal_injective(a: nat, b: nat)
    ensures
        decimal(a) == decimal(b) ==> a == b,
    decreases a,
{
    lemma_decimal_len(a);
    lemma_decimal_len(b);
    if decimal(a) == decimal(b) && a < 10 && b < 10 {
        assert(decimal(a)[0] == digit_byte(a));
        assert(decimal(b)[0] == digit_byte(b));
    }
    if decimal(a) == decimal(b) && a >= 10 && b >= 10 {
        let da = decimal(a);
        assert(da.drop_last() == decimal(a / 10));
        assert(decimal(b).drop_last() == decimal(b / 10));
        assert(da.last() == digit_byte(a % 10));
        assert(decimal(b).last() == digit_byte(b % 10));
        lemma_decimal_injective(a / 10, b / 10);
        assert(a % 10 == b % 10);
        assert(a == 10 * (a / 10) + a % 10);
        assert(b == 10 * (b / 10) + b % 10);
    }
}

/// A number below ten renders as one digit, a larger one as at least two.
proof fn lemma_decimal_len(n: nat)
    ensures
        n < 10 ==> decimal(n).len() == 1,
        n >= 10 ==> decimal(n).len() >= 2,
    decreases n,
{
    if n >= 10 {
        lemma_decimal_len(n / 10);
    }
}

/// Renders `n` in decimal, as `u64::to_string` does.
pub fn u64_to_decimal(n: u64) -> (r: Vec<u8>)
    ensures
        r@ == decimal(n as nat),
    decreases n,
{
    if n < 10 {
        let mut v: Vec<u8> = Vec::new();
        v.push(48u8 + (n as u8));
        v
    } else {
        let mut v = u64_to_decimal(n / 10);
        let d: u8 = (n % 10) as u8;
        v.push(48u8 + d);
        v
    }
}

/// The bytes of a fixed message.
pub fn text(s: &str) -> (v: Vec<u8>)
    ensures
        v@ == s.spec_bytes(),
{
    vstd::slice::slice_to_vec(s.as_bytes())
}

/// The empty reply of a command that succeeds without a value.
pub fn empty_reply() -> (v: Vec<u8>)
    ensures
        v@ == Seq::<u8>::empty(),
{
    Vec::new()
}

/// Frames the outcome of a command for the client: `OK:` before the reply
/// of a command that succeeded, `ERROR:` before the message of one that
/// failed.
pub fn frame_reply(res: Result<Vec<u8>, Vec<u8>>) -> (r: Result<Vec<u8>, Vec<u8>>)
    ensures
        match res {
            Ok(m) => r matches Ok(f) && f@ == "OK:".spec_bytes() + m@,
            Err(e) => r matches Err(f) && f@ == "ERROR:".spec_bytes() + e@,
        },
{
    match res {
        Ok(mut m) => {
            let mut f = text("OK:");
            f.append(&mut m);
            Ok(f)
        },
        Err(mut e) => {
            let mut f = text("ERROR:");
            f.append(&mut e);
            Err(f)
        },
    }
}

} // verus!
