//! The kernel services that eBPF programs and maps call back into.

use vstd::prelude::*;
use vstd::utf8::{encode_utf8, valid_utf8};

use crate::cstr::utf8_to_string;

verus! {

/// The errors of the eBPF runtime that this kernel hands back or acts on.
#[derive(Debug, PartialEq, Eq, Structural)]
pub enum BpfError {
    InvalidArgument,
    NotFound,
}

/// Nanoseconds in a second.
pub const NANOS_PER_SEC: u64 = 1_000_000_000;

/// A time given as seconds and nanoseconds, in nanoseconds, with both
/// parts read as unsigned 64-bit integers (`as u64`).
pub open spec fn time_in_ns(tv_sec: i64, tv_nsec: i32) -> int {
    (tv_sec as u64) as int * 1_000_000_000 + (tv_nsec as u64) as int
}

/// The kernel side of the eBPF runtime.
pub struct HermitKernelAux;

impl HermitKernelAux {
    /// The CPU that eBPF programs run on.
    pub fn current_cpu_id() -> (id: u32)
        ensures
            id == 0,
    {
        0
    }

    /// The current time in nanoseconds, from the seconds and nanoseconds
    /// of the system clock.
    pub fn ebpf_time_ns(tv_sec: i64, tv_nsec: i32) -> (ns: u64)
        requires
            time_in_ns(tv_sec, tv_nsec) <= u64::MAX,
        ensures
            ns == time_in_ns(tv_sec, tv_nsec),
    {
        let secs: u64 = tv_sec as u64;
        let nanos: u64 = tv_nsec as u64;
        proof {
            assert(secs * 1_000_000_000 <= u64::MAX);
        }
        secs * NANOS_PER_SEC + nanos
    }

    /// A string that an eBPF program passes as a C string, from its bytes
    /// before the NUL: `InvalidArgument` when they are not UTF-8.
    pub fn string_from_user_cstr(bytes: &[u8]) -> (r: Result<String, BpfError>)
        ensures
            valid_utf8(bytes@) ==> (r matches Ok(s) && encode_utf8(s@) == bytes@),
            !valid_utf8(bytes@) ==> r == Err::<String, BpfError>(BpfError::InvalidArgument),
    {
        match utf8_to_string(bytes) {
            Some(s) => Ok(s),
            None => Err(BpfError::InvalidArgument),
        }
    }
}

} // verus!
