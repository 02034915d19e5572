//! Making a loaded program runnable: an rbpf virtual machine that holds
//! the program and its JIT-compiled code.

use rbpf::lib::Error;
use rbpf::EbpfVmRaw;
use vstd::prelude::*;

verus! {

/// rbpf's virtual machine for programs that read one memory buffer.
#[verifier::external_type_specification]
#[verifier::external_body]
pub struct ExEbpfVmRaw<'a>(EbpfVmRaw<'a>);

/// rbpf's error type.
#[verifier::external_type_specification]
#[verifier::external_body]
pub struct ExRbpfError(Error);

/// Whether rbpf accepts `program`: its verifier (`verifier::check`) and its
/// stack check (`StackVerifier::stack_validate`, with no custom stack
/// calculator) both pass. Both depend on the program's bytes alone.
pub uninterp spec fn rbpf_accepts_program(program: Seq<u8>) -> bool;

/// The program that a machine holds: the bytes it was given, empty while
/// it holds none.
pub uninterp spec fn vm_program(vm: EbpfVmRaw<'static>) -> Seq<u8>;

/// The length of the executable memory that a machine was handed for its
/// compiled code, if it was handed any and has not used it yet.
pub uninterp spec fn vm_jit_memory_len(vm: EbpfVmRaw<'static>) -> Option<nat>;

/// Whether the machine holds JIT-compiled code of a program.
pub uninterp spec fn vm_jit_compiled(vm: EbpfVmRaw<'static>) -> bool;

/// The most bytes of code that rbpf's JIT compiler writes around the
/// program: prologue, exit landing and epilogue (it writes about fifty).
pub const JIT_FRAME_BYTES: usize = 64;

/// The most instruction slots a program may have for its code to be
/// compiled: rbpf numbers the instructions of a division with a 16-bit
/// counter.
pub const JIT_MAX_SLOTS: usize = 65535;

/// Whether an instruction with opcode `opc` is a multiplication, division
/// or remainder (32- or 64-bit, by an immediate or a register).
pub open spec fn is_mul_div_mod(opc: u8) -> bool {
    &&& ((opc & 0x07u8) == 0x04u8 || (opc & 0x07u8) == 0x07u8)
    &&& ((opc & 0xf0u8) == 0x20u8 || (opc & 0xf0u8) == 0x30u8 || (opc & 0xf0u8) == 0x90u8)
}

/// An upper bound on the bytes of x86-64 code that rbpf's JIT compiler
/// writes for an instruction with opcode `opc`: 48 for a multiplication,
/// division or remainder (a division by a register takes 47), 19 for a
/// call (a call of a local function takes 19, of a helper 15), 14 for any
/// other (an indirect packet load takes 14, a wide immediate load 10).
pub open spec fn slot_code_bound(opc: u8) -> nat {
    if is_mul_div_mod(opc) {
        48
    } else if opc == 0x85u8 {
        19
    } else {
        14
    }
}

/// The sum of `slot_code_bound` over the opcodes of the first `slots`
/// eight-byte instruction slots of `program`.
pub open spec fn code_bound(program: Seq<u8>, slots: nat) -> nat
    decreases slots,
{
    if slots == 0 {
        0
    } else {
        code_bound(program, (slots - 1) as nat) + slot_code_bound(program[8 * (slots - 1)])
    }
}

/// Whether `memory_len` bytes cover the bound on the code that rbpf
/// compiles from `program` (the bound of each instruction slot and the
/// frame), and the program is short enough to compile. The code that
/// rbpf writes then fits; a program outside the bound may fit too.
pub open spec fn jit_code_bound_fits(program: Seq<u8>, memory_len: nat) -> bool {
    &&& program.len() <= 8 * JIT_MAX_SLOTS
    &&& code_bound(program, program.len() / 8) + JIT_FRAME_BYTES <= memory_len
}

/// The bound of one instruction, from its opcode.
fn slot_code_bound_of(opc: u8) -> (n: usize)
    ensures
        n == slot_code_bound(opc),
{
    let class = opc & 0x07u8;
    let op = opc & 0xf0u8;
    if (class == 0x04u8 || class == 0x07u8) && (op == 0x20u8 || op == 0x30u8 || op == 0x90u8) {
        48
    } else if opc == 0x85u8 {
        19
    } else {
        14
    }
}

/// How many of the first `slots` eight-byte instruction slots of
/// `program` hold a call (opcode `0x85`).
pub open spec fn call_count(program: Seq<u8>, slots: nat) -> nat
    decreases slots,
{
    if slots == 0 {
        0
    } else {
        call_count(program, (slots - 1) as nat) + if program[8 * (slots - 1)] == 0x85u8 {
            1nat
        } else {
            0nat
        }
    }
}

/// The code bound charges no instruction more than 48 bytes, a call no
/// more than 19, and every instruction at least 14: over any `slots`
/// slots holding `calls` calls, the bound lies between `14 * slots` and
/// `48 * (slots - calls) + 19 * calls`.
pub proof fn lemma_code_bound_limits(program: Seq<u8>, slots: nat)
    ensures
        call_count(program, slots) <= slots,
        14 * slots <= code_bound(program, slots),
        code_bound(program, slots) + 29 * call_count(program, slots) <= 48 * slots,
    decreases slots,
{
    if slots > 0 {
        lemma_code_bound_limits(program, (slots - 1) as nat);
        assert((0x85u8 & 0x07u8) == 0x05u8) by (bit_vector);
    }
}

/// Whether `memory_len` bytes cover the bound on the code that rbpf
/// compiles from `program`. Any program of at most `JIT_MAX_SLOTS` slots
/// is accepted when the memory holds 48 bytes for each slot that is not a
/// call, 19 for each call, and the frame; none is accepted when the memory
/// holds less than 14 bytes for each slot and the frame.
pub fn jit_memory_suffices(program: &[u8], memory_len: usize) -> (b: bool)
    ensures
        b == jit_code_bound_fits(program@, memory_len as nat),
        program@.len() <= 8 * JIT_MAX_SLOTS && 48 * (program@.len() / 8) - 29 * call_count(
            program@,
            program@.len() / 8,
        ) + JIT_FRAME_BYTES <= memory_len ==> b,
        b ==> program@.len() <= 8 * JIT_MAX_SLOTS && 14 * (program@.len() / 8) + JIT_FRAME_BYTES
            <= memory_len,
{
    proof {
        lemma_code_bound_limits(program@, program@.len() / 8);
    }
    if program.len() > 8 * JIT_MAX_SLOTS {
        return false;
    }
    let slots = program.len() / 8;
    let mut total: usize = 0;
    let mut i: usize = 0;
    while i < slots
        invariant
            slots == program@.len() / 8,
            program@.len() <= 8 * JIT_MAX_SLOTS,
            i <= slots,
            total == code_bound(program@, i as nat),
            total <= 48 * i,
        decreases slots - i,
    {
        let n = slot_code_bound_of(program[8 * i]);
        total = total + n;
        i = i + 1;
    }
    total + JIT_FRAME_BYTES <= memory_len
}

/// `rbpf::EbpfVmRaw::new`: a machine, holding `program` when one is given.
/// rbpf's source checks a given program with its verifier and its stack
/// check and fails exactly when one of them refuses it; with no program
/// the call always succeeds. A new machine holds the given program (none
/// without one), has no executable memory and no compiled code. The
/// contract says so, with the checks' verdict named `rbpf_accepts_program`.
#[verifier::external_body]
fn vm_new(program: Option<&'static [u8]>) -> (r: Result<EbpfVmRaw<'static>, Error>)
    ensures
        program is None ==> r is Ok,
        program matches Some(p) ==> (r is Ok <==> rbpf_accepts_program(p@)),
        r matches Ok(vm) ==> {
            &&& vm_program(vm) == (match program {
                Some(p) => p@,
                None => Seq::<u8>::empty(),
            })
            &&& vm_jit_memory_len(vm) is None
            &&& !vm_jit_compiled(vm)
        },
{
    EbpfVmRaw::new(program)
}

/// `rbpf::EbpfVmRaw::set_program`: hands the machine a program, which the
/// machine's own verifier and its stack check see first. rbpf's source
/// stores the program when both pass and keeps the old one otherwise, and
/// leaves the executable memory and any compiled code alone; the contract
/// says so. Whether the checks pass is not stated: the machine's verifier
/// may have been replaced.
#[verifier::external_body]
fn vm_set_program(vm: &mut EbpfVmRaw<'static>, program: &'static [u8]) -> (r: Result<(), Error>)
    ensures
        r is Ok ==> vm_program(*final(vm)) == program@,
        r is Err ==> vm_program(*final(vm)) == vm_program(*old(vm)),
        vm_jit_memory_len(*final(vm)) == vm_jit_memory_len(*old(vm)),
        vm_jit_compiled(*final(vm)) == vm_jit_compiled(*old(vm)),
{
    vm.set_program(program)
}

/// `rbpf::EbpfVmRaw::set_jit_exec_memory`: the memory that compiled code is
/// written to. rbpf's source stores it, leaves the program and any compiled
/// code alone and always succeeds; the contract says so.
#[verifier::external_body]
fn vm_set_jit_exec_memory(vm: &mut EbpfVmRaw<'static>, memory: &'static mut [u8]) -> (r: Result<
    (),
    Error,
>)
    ensures
        r is Ok,
        vm_program(*final(vm)) == vm_program(*old(vm)),
        vm_jit_memory_len(*final(vm)) == Some(old(memory)@.len()),
        vm_jit_compiled(*final(vm)) == vm_jit_compiled(*old(vm)),
{
    vm.set_jit_exec_memory(memory)
}

/// `rbpf::EbpfVmRaw::jit_compile`: compiles the machine's program into the
/// executable memory it was handed. It is called only on a machine that
/// holds a program rbpf accepted and that was handed memory covering the
/// bound on that program's code: rbpf's JIT compiler asserts (and panics)
/// when its code outgrows the memory, and its remaining panics lie on
/// instructions that rbpf's verifier refuses. rbpf's source takes the
/// memory whatever the outcome (a machine with a program always gets that
/// far), keeps the program, and holds compiled code afterwards exactly on
/// success (a failure leaves what was there). Whether compilation succeeds
/// is not stated: it also depends on the memory's address (page alignment)
/// and on the helpers registered.
#[verifier::external_body]
fn vm_jit_compile(vm: &mut EbpfVmRaw<'static>) -> (r: Result<(), Error>)
    requires
        rbpf_accepts_program(vm_program(*old(vm))),
        vm_jit_memory_len(*old(vm)) matches Some(n) && jit_code_bound_fits(vm_program(*old(vm)), n),
    ensures
        vm_program(*final(vm)) == vm_program(*old(vm)),
        vm_jit_memory_len(*final(vm)) is None,
        r is Ok ==> vm_jit_compiled(*final(vm)),
        r is Err ==> vm_jit_compiled(*final(vm)) == vm_jit_compiled(*old(vm)),
{
    vm.jit_compile()
}

/// Why a program could not be made runnable.
#[derive(Debug, PartialEq, Eq, Structural)]
pub enum VmError {
    /// The machine refused its executable memory.
    InvalidArgument,
    /// rbpf's verifier or stack check refused the program.
    ProgramRejected,
    /// The program could not be compiled.
    CompileFailed,
    /// The bound on the program's code exceeds the executable memory.
    ProgramTooLarge,
}

/// A machine with no program yet, for helpers to be registered with
/// before a program is compiled on it: no executable memory, no compiled
/// code.
pub fn empty_vm() -> (vm: EbpfVmRaw<'static>)
    ensures
        vm_program(vm) == Seq::<u8>::empty(),
        vm_jit_memory_len(vm) is None,
        !vm_jit_compiled(vm),
{
    vm_new(None).unwrap()
}

/// What loading a program comes to, from what creating a machine with it
/// gave: the machine, or `ProgramRejected` when rbpf refused the program.
pub fn vm_load_outcome(created: Result<EbpfVmRaw<'static>, Error>) -> (r: Result<
    EbpfVmRaw<'static>,
    VmError,
>)
    ensures
        created is Ok <==> r is Ok,
        created matches Ok(vm) ==> r == Ok::<EbpfVmRaw<'static>, VmError>(vm),
        r is Err ==> r->Err_0 == VmError::ProgramRejected,
{
    match created {
        Ok(vm) => Ok(vm),
        Err(_e) => Err(VmError::ProgramRejected),
    }
}

/// A machine that holds `program`: made exactly when rbpf's verifier and
/// stack check accept the program, and `ProgramRejected` otherwise. The
/// machine has no executable memory and no compiled code yet.
pub fn load_vm(program: &'static [u8]) -> (r: Result<EbpfVmRaw<'static>, VmError>)
    ensures
        r is Ok <==> rbpf_accepts_program(program@),
        r matches Ok(vm) ==> {
            &&& vm_program(vm) == program@
            &&& vm_jit_memory_len(vm) is None
            &&& !vm_jit_compiled(vm)
        },
        r is Err ==> r->Err_0 == VmError::ProgramRejected,
{
    vm_load_outcome(vm_new(Some(program)))
}

/// Hands `memory` to the machine and compiles the machine's program into
/// it. The machine keeps its program and has used the memory up whatever
/// the outcome; on success it holds the compiled code. Handing the memory
/// over always succeeds; the only failure is the compilation itself (for
/// instance when the memory is not page-aligned, or a called helper is not
/// registered). The program must be one rbpf accepted, and `memory` must
/// cover the bound on its code.
pub fn jit_compile_vm(vm: &mut EbpfVmRaw<'static>, memory: &'static mut [u8]) -> (r: Result<
    (),
    VmError,
>)
    requires
        rbpf_accepts_program(vm_program(*old(vm))),
        jit_code_bound_fits(vm_program(*old(vm)), old(memory)@.len()),
    ensures
        vm_program(*final(vm)) == vm_program(*old(vm)),
        vm_jit_memory_len(*final(vm)) is None,
        r is Ok ==> vm_jit_compiled(*final(vm)),
        r is Err ==> r->Err_0 == VmError::CompileFailed,
{
    match vm_set_jit_exec_memory(vm, memory) {
        Ok(()) => {},
        Err(_e) => {
            return Err(VmError::InvalidArgument);
        },
    }
    match vm_jit_compile(vm) {
        Ok(()) => Ok(()),
        Err(_e) => Err(VmError::CompileFailed),
    }
}

/// Compiles `program` on the machine into `memory`: `ProgramTooLarge`
/// exactly when `memory` does not cover the bound on the program's code
/// (nothing else is done then); `ProgramRejected` when rbpf's verifier or
/// stack check refuses the program, or the machine's own checks do (its
/// program then stays as it was); otherwise the machine holds `program`,
/// has used `memory` up, and on success holds the compiled code, the only
/// failure left being `CompileFailed`.
pub fn compile_program(
    vm: &mut EbpfVmRaw<'static>,
    program: &'static [u8],
    memory: &'static mut [u8],
) -> (r: Result<(), VmError>)
    ensures
        r == Err::<(), VmError>(VmError::ProgramTooLarge) <==> !jit_code_bound_fits(
            program@,
            old(memory)@.len(),
        ),
        !jit_code_bound_fits(program@, old(memory)@.len()) ==> *final(vm) == *old(vm),
        jit_code_bound_fits(program@, old(memory)@.len()) && !rbpf_accepts_program(program@)
            ==> r == Err::<(), VmError>(VmError::ProgramRejected) && *final(vm) == *old(vm),
        r == Err::<(), VmError>(VmError::ProgramRejected) ==> vm_program(*final(vm)) == vm_program(
            *old(vm),
        ),
        r is Ok || r == Err::<(), VmError>(VmError::CompileFailed) ==> {
            &&& vm_program(*final(vm)) == program@
            &&& vm_jit_memory_len(*final(vm)) is None
        },
        r is Ok ==> vm_jit_compiled(*final(vm)),
        r is Err ==> r->Err_0 == VmError::ProgramTooLarge || r->Err_0
            == VmError::ProgramRejected || r->Err_0 == VmError::CompileFailed,
{
    if !jit_memory_suffices(program, memory.len()) {
        return Err(VmError::ProgramTooLarge);
    }
    match load_vm(program) {
        Ok(_checked) => {},
        Err(e) => {
            return Err(e);
        },
    }
    match vm_set_program(vm, program) {
        Ok(()) => {},
        Err(_e) => {
            return Err(VmError::ProgramRejected);
        },
    }
    jit_compile_vm(vm, memory)
}

} // verus!
