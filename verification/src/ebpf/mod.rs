//! eBPF support: the registries of loaded programs and maps, the
//! attachments of programs to tracepoints, and the kernel services that
//! eBPF programs call.

pub mod attach;
pub mod kernel_aux;
pub mod maps;
pub mod percpu;
pub mod programs;
pub mod server;
pub mod vm;
