use hermit_ebpf::ebpf::kernel_aux::{BpfError, HermitKernelAux, NANOS_PER_SEC};
use hermit_ebpf::ebpf::percpu::HermitPerCpu;
use hermit_ebpf::ebpf::server::{on_receive, reply_payload, ServerStep, EBPF_SERVER_PORT, RECEIVE_BUFFER_LEN};
use hermit_ebpf::ebpf::vm::{compile_program, empty_vm, jit_compile_vm, jit_memory_suffices, load_vm, vm_load_outcome, VmError, JIT_FRAME_BYTES};
use hermit_ebpf::tracepoint::{tracepoint_infomation, tracepoint_switch_reply, Kops};

#[test]
fn kernel_aux_cpu_and_time() {
    assert_eq!(HermitKernelAux::current_cpu_id(), 0);
    assert_eq!(HermitKernelAux::ebpf_time_ns(2, 500), 2 * NANOS_PER_SEC + 500);
    assert_eq!(HermitKernelAux::ebpf_time_ns(0, 0), 0);
    // a negative nanosecond part is read as an unsigned 64-bit integer
    assert_eq!(HermitKernelAux::ebpf_time_ns(0, -1), u64::MAX);
}

#[test]
fn kernel_aux_user_strings() {
    assert_eq!(HermitKernelAux::string_from_user_cstr(b"hello"), Ok("hello".to_string()));
    assert_eq!(HermitKernelAux::string_from_user_cstr(&[0xc3]), Err(BpfError::InvalidArgument));
}

#[test]
fn per_cpu_values() {
    assert_eq!(HermitPerCpu::num_cpus(), 1);
    let mut v = HermitPerCpu::create(7u32);
    assert_eq!(*v.get(), 7);
    assert_eq!(*v.force_get(0), 7);
    *v.get_mut() = 8;
    assert_eq!(*v.get(), 8);
    *v.force_get_mut(0) += 1;
    assert_eq!(*v.force_get(0), 9);
}

#[test]
fn server_steps() {
    assert_eq!(EBPF_SERVER_PORT, 9970);
    assert_eq!(on_receive(-1, RECEIVE_BUFFER_LEN), ServerStep::Retry);
    assert_eq!(on_receive(0, RECEIVE_BUFFER_LEN), ServerStep::Yield);
    assert_eq!(on_receive(12, RECEIVE_BUFFER_LEN), ServerStep::Handle(12));
    assert_eq!(reply_payload(Ok(b"OK:1".to_vec())), b"OK:1".to_vec());
    assert_eq!(reply_payload(Err(b"ERROR:x".to_vec())), b"ERROR:x".to_vec());
}

#[test]
fn tracepoint_information_lines() {
    let formats = vec!["a: %d".to_string(), "b".to_string()];
    assert_eq!(tracepoint_infomation(&formats), "a: %d\nb\n".to_string());
    assert_eq!(tracepoint_infomation(&Vec::new()), String::new());
}

#[test]
fn tracepoint_switch() {
    assert_eq!(tracepoint_switch_reply(true), Ok(Vec::new()));
    assert_eq!(tracepoint_switch_reply(false), Err(b"Tracepoint not found".to_vec()));
}

#[test]
fn trace_context() {
    assert_eq!(Kops::current_pid(), u32::MAX);
    assert_eq!(Kops::time_now(Some(1234)), 1234);
    assert_eq!(Kops::time_now(None), 0);
    assert_eq!(Kops::time_now(Some(-1)), u64::MAX);
}

// mov r0, 0; exit
const RETURN_ZERO: [u8; 16] = [
    0xb7, 0x00, 0x00, 0x00, 0x00, 0x00, 0x00, 0x00, 0x95, 0x00, 0x00, 0x00, 0x00, 0x00, 0x00, 0x00,
];

#[test]
fn vm_accepts_a_valid_program() {
    let program: &'static [u8] = Box::leak(RETURN_ZERO.to_vec().into_boxed_slice());
    assert!(load_vm(program).is_ok());
}

#[test]
fn vm_rejects_an_invalid_program() {
    // a program that does not end with exit
    let program: &'static [u8] = Box::leak(vec![0xb7u8, 0, 0, 0, 0, 0, 0, 0].into_boxed_slice());
    assert_eq!(load_vm(program).err(), Some(VmError::ProgramRejected));
}

#[test]
fn vm_compiles_into_given_memory() {
    let program: &'static [u8] = Box::leak(RETURN_ZERO.to_vec().into_boxed_slice());
    let mut vm = load_vm(program).ok().unwrap();
    let memory = page_aligned_page();
    assert_eq!(jit_compile_vm(&mut vm, memory), Ok(()));
}

#[test]
fn vm_compile_needs_a_whole_page() {
    let program: &'static [u8] = Box::leak(RETURN_ZERO.to_vec().into_boxed_slice());
    let mut vm = load_vm(program).ok().unwrap();
    // the code fits, but rbpf wants a whole page
    let memory: &'static mut [u8] = Box::leak(vec![0u8; 256].into_boxed_slice());
    assert!(jit_memory_suffices(program, memory.len()));
    assert_eq!(jit_compile_vm(&mut vm, memory), Err(VmError::CompileFailed));
}

fn page_aligned_page() -> &'static mut [u8] {
    let buffer: &'static mut [u8] = Box::leak(vec![0u8; 8192].into_boxed_slice());
    let address = buffer.as_ptr() as usize;
    let offset = (4096 - address % 4096) % 4096;
    &mut buffer[offset..offset + 4096]
}

#[test]
fn load_outcome_maps_rbpf_results() {
    let created = rbpf::EbpfVmRaw::new(None);
    assert!(vm_load_outcome(created).is_ok());
    let refused: Result<rbpf::EbpfVmRaw<'static>, rbpf::lib::Error> =
        Err(rbpf::lib::Error::other("refused"));
    assert_eq!(vm_load_outcome(refused).err(), Some(VmError::ProgramRejected));
}

fn mov_r0_zero_times(n: usize) -> Vec<u8> {
    let mut p = Vec::new();
    for _ in 0..n {
        p.extend_from_slice(&RETURN_ZERO[..8]);
    }
    p.extend_from_slice(&RETURN_ZERO[8..]);
    p
}

// div r1, r2 (64-bit, by a register)
const DIV_REG: [u8; 8] = [0x3f, 0x21, 0x00, 0x00, 0x00, 0x00, 0x00, 0x00];

#[test]
fn jit_memory_bound() {
    // 14 bytes for a plain instruction, plus a 64-byte frame
    assert!(jit_memory_suffices(&RETURN_ZERO, 2 * 14 + JIT_FRAME_BYTES));
    assert!(!jit_memory_suffices(&RETURN_ZERO, 2 * 14 + JIT_FRAME_BYTES - 1));
    assert!(jit_memory_suffices(&[], JIT_FRAME_BYTES));
    // 48 bytes for a division
    let mut p = DIV_REG.to_vec();
    p.extend_from_slice(&RETURN_ZERO[8..]);
    assert!(jit_memory_suffices(&p, 48 + 14 + JIT_FRAME_BYTES));
    assert!(!jit_memory_suffices(&p, 48 + 14 + JIT_FRAME_BYTES - 1));
    // a page covers a program of 200 plain instructions
    assert!(jit_memory_suffices(&mov_r0_zero_times(199), 4096));
    assert!(!jit_memory_suffices(&mov_r0_zero_times(300), 4096));
    // too many instruction slots for the compiler's counter
    assert!(!jit_memory_suffices(&vec![0u8; 8 * 65536], usize::MAX));
}

#[test]
fn a_program_over_five_hundred_bytes_compiles_into_a_page() {
    let program: &'static [u8] = Box::leak(mov_r0_zero_times(199).into_boxed_slice());
    assert!(program.len() > 504);
    let mut vm = empty_vm();
    assert_eq!(compile_program(&mut vm, program, page_aligned_page()), Ok(()));
}

#[test]
fn compile_program_on_an_empty_machine() {
    let program: &'static [u8] = Box::leak(RETURN_ZERO.to_vec().into_boxed_slice());
    let mut vm = empty_vm();
    assert_eq!(compile_program(&mut vm, program, page_aligned_page()), Ok(()));
}

#[test]
fn compile_program_refuses_what_does_not_fit() {
    let program: &'static [u8] = Box::leak(RETURN_ZERO.to_vec().into_boxed_slice());
    let mut vm = empty_vm();
    let memory: &'static mut [u8] = Box::leak(vec![0u8; 64].into_boxed_slice());
    assert_eq!(compile_program(&mut vm, program, memory), Err(VmError::ProgramTooLarge));
}

#[test]
fn compile_program_refuses_what_rbpf_refuses() {
    let program: &'static [u8] = Box::leak(vec![0xb7u8, 0, 0, 0, 0, 0, 0, 0].into_boxed_slice());
    let mut vm = empty_vm();
    assert_eq!(compile_program(&mut vm, program, page_aligned_page()), Err(VmError::ProgramRejected));
}

#[test]
fn compile_program_needs_page_alignment() {
    let program: &'static [u8] = Box::leak(RETURN_ZERO.to_vec().into_boxed_slice());
    let mut vm = empty_vm();
    let buffer: &'static mut [u8] = Box::leak(vec![0u8; 8192].into_boxed_slice());
    let address = buffer.as_ptr() as usize;
    let offset = (4096 - address % 4096) % 4096 + 1;
    assert_eq!(
        compile_program(&mut vm, program, &mut buffer[offset..offset + 4096]),
        Err(VmError::CompileFailed)
    );
}

#[test]
fn divisions_compile_within_their_bound() {
    let mut p = Vec::new();
    for _ in 0..60 {
        p.extend_from_slice(&DIV_REG);
    }
    p.extend_from_slice(&RETURN_ZERO);
    let program: &'static [u8] = Box::leak(p.into_boxed_slice());
    assert!(jit_memory_suffices(program, 4096));
    let mut vm = empty_vm();
    assert_eq!(compile_program(&mut vm, program, page_aligned_page()), Ok(()));
}
