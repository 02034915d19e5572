# hermit_ebpf

The bookkeeping behind a unikernel's eBPF support, verified with Verus:
the registry of loaded programs, the registry of eBPF maps, the
attachments of programs to tracepoints, the replies of the eBPF command
server, and the small kernel services that the eBPF runtime calls.

- `src/reply.rs` — decimal numbers, fixed messages, `OK:` / `ERROR:` framing.
- `src/cstr.rs` — C strings and their UTF-8 decoding.
- `src/ebpf/programs.rs` — loaded programs by name.
- `src/ebpf/maps.rs` — created maps by descriptor.
- `src/ebpf/attach.rs` — attachments, with the invariant that keeps them
  consistent and the law that detaching undoes attaching.
- `src/ebpf/vm.rs` — making a program runnable with rbpf.
- `src/ebpf/kernel_aux.rs`, `src/ebpf/percpu.rs` — kernel services.
- `src/ebpf/server.rs` — what the command server does with each receive.
- `src/tracepoint/` — the programs bound to a tracepoint, and the
  description of all tracepoints.

The registries are collections that vstd specifies: programs in a vector
of named entries with no name twice, maps and attachments in std
`BTreeMap`s keyed by descriptor and callback id. Nothing here depends on
the order in which they are walked.

`app/` is the kernel glue: the global state behind spin locks, the UDP
server loop and command dispatcher, the runtime's callbacks into the
kernel, JIT memory and the tracepoint hooks.
