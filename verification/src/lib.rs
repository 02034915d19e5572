//! Kernel-side bookkeeping for eBPF programs, maps and tracepoint
//! attachments, with the reply format of the eBPF command server.

pub mod cstr;
pub mod ebpf;
pub mod reply;
pub mod tracepoint;
