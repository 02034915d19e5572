use hermit_ebpf::ebpf::attach::AttachTable;
use hermit_ebpf::ebpf::programs::ProgramTable;
use hermit_ebpf::tracepoint::hook::TracepointPerfEvent;

fn programs_with(names: &[&str]) -> ProgramTable<u8> {
    let mut t = ProgramTable::new();
    for n in names {
        t.load_program(n.to_string(), vec![], |_d: Vec<u8>| 0).unwrap();
    }
    t
}

#[test]
fn attach_unknown_program() {
    let programs = programs_with(&[]);
    let mut a = AttachTable::new();
    let out = a.attach_program(&programs, &"p".to_string(), 3, true);
    assert_eq!(out.reply, Err(b"Program not found".to_vec()));
    assert!(out.registration.is_none());
}

#[test]
fn attach_to_unknown_tracepoint() {
    let programs = programs_with(&["p"]);
    let mut a = AttachTable::new();
    let out = a.attach_program(&programs, &"p".to_string(), 3, false);
    assert_eq!(out.reply, Err(b"Tracepoint not found".to_vec()));
    assert!(out.registration.is_none());
    // nothing was attached: the next attachment still gets id 0
    let out = a.attach_program(&programs, &"p".to_string(), 3, true);
    assert_eq!(out.reply, Ok(b"0".to_vec()));
}

#[test]
fn attach_hands_out_callback_ids() {
    let programs = programs_with(&["p", "q"]);
    let mut a = AttachTable::new();
    let first = a.attach_program(&programs, &"p".to_string(), 3, true);
    assert_eq!(first.reply, Ok(b"0".to_vec()));
    let reg = first.registration.unwrap();
    assert_eq!((reg.tracepoint_id, reg.callback_id), (3, 0));
    // the tracepoint has an event now, so its existence is not asked again
    let second = a.attach_program(&programs, &"q".to_string(), 3, false);
    assert_eq!(second.reply, Ok(b"1".to_vec()));
    let third = a.attach_program(&programs, &"p".to_string(), 4, true);
    assert_eq!(third.reply, Ok(b"2".to_vec()));
    assert_eq!(third.registration.unwrap().tracepoint_id, 4);
}

#[test]
fn detach_unknown_id() {
    let mut a = AttachTable::new();
    let out = a.detach_program(7);
    assert_eq!(out.reply, Err(b"Attach entry not found".to_vec()));
    assert!(out.unregistration.is_none());
    assert!(out.released.is_none());
}

#[test]
fn detach_keeps_event_while_programs_remain() {
    let programs = programs_with(&["p"]);
    let mut a = AttachTable::new();
    a.attach_program(&programs, &"p".to_string(), 3, true);
    a.attach_program(&programs, &"p".to_string(), 3, true);
    let out = a.detach_program(0);
    assert_eq!(out.reply, Ok(Vec::new()));
    let unreg = out.unregistration.unwrap();
    assert_eq!((unreg.tracepoint_id, unreg.callback_id), (3, 0));
    assert!(out.released.is_none());
    // detaching the same id again is refused
    assert_eq!(a.detach_program(0).reply, Err(b"Attach entry not found".to_vec()));
}

#[test]
fn detach_last_program_releases_event() {
    let programs = programs_with(&["p"]);
    let mut a = AttachTable::new();
    a.attach_program(&programs, &"p".to_string(), 5, true);
    let out = a.detach_program(0);
    assert_eq!(out.reply, Ok(Vec::new()));
    let ev = out.released.unwrap();
    assert_eq!(ev.tracepoint_id(), 5);
    assert_eq!(ev.ebpf_progs_len(), 0);
    // the tracepoint has no event any more: attaching asks for it again
    let again = a.attach_program(&programs, &"p".to_string(), 5, false);
    assert_eq!(again.reply, Err(b"Tracepoint not found".to_vec()));
}

#[test]
fn detach_undoes_attach() {
    let programs = programs_with(&["p"]);
    let mut a = AttachTable::new();
    a.attach_program(&programs, &"p".to_string(), 1, true);
    let out = a.attach_program(&programs, &"p".to_string(), 1, true);
    assert_eq!(out.reply, Ok(b"1".to_vec()));
    let d = a.detach_program(1);
    assert_eq!(d.reply, Ok(Vec::new()));
    assert!(d.released.is_none());
    // id 0 is still attached to tracepoint 1, and it is the last one there
    let d0 = a.detach_program(0);
    assert_eq!(d0.unregistration.unwrap().tracepoint_id, 1);
    assert!(d0.released.is_some());
}

#[test]
fn perf_event_bind_and_unbind() {
    let mut ev = TracepointPerfEvent::new(9);
    let mut counter: u64 = 40;
    assert_eq!(ev.bind_ebpf(&mut counter), 40);
    assert_eq!(ev.bind_ebpf(&mut counter), 41);
    assert_eq!(counter, 42);
    assert_eq!(ev.ebpf_progs_len(), 2);
    ev.unbind_ebpf(40);
    assert_eq!(ev.ebpf_progs_len(), 1);
    ev.unbind_ebpf(99);
    assert_eq!(ev.ebpf_progs_len(), 1);
    assert_eq!(ev.tracepoint_id(), 9);
    assert_eq!(ev.release(), vec![41]);
}

#[test]
fn perf_event_counter_wraps() {
    let mut ev = TracepointPerfEvent::new(0);
    let mut counter: u64 = u64::MAX;
    assert_eq!(ev.bind_ebpf(&mut counter), u64::MAX);
    assert_eq!(counter, 0);
}

#[test]
fn callback_ids_are_not_reused_after_detach() {
    let programs = programs_with(&["p"]);
    let mut a = AttachTable::new();
    assert_eq!(a.attach_program(&programs, &"p".to_string(), 2, true).reply, Ok(b"0".to_vec()));
    assert_eq!(a.detach_program(0).reply, Ok(Vec::new()));
    assert_eq!(a.attach_program(&programs, &"p".to_string(), 2, true).reply, Ok(b"1".to_vec()));
}

#[test]
fn removing_a_program_keeps_its_attachments() {
    let mut programs = programs_with(&["p"]);
    let mut a = AttachTable::new();
    assert_eq!(a.attach_program(&programs, &"p".to_string(), 2, true).reply, Ok(b"0".to_vec()));
    assert_eq!(programs.remove_program(&"p".to_string()), Ok(Vec::new()));
    assert_eq!(a.detach_program(0).reply, Ok(Vec::new()));
}

#[test]
fn unbinding_twice_is_unbinding_once() {
    let mut ev = TracepointPerfEvent::new(1);
    let mut counter: u64 = 0;
    ev.bind_ebpf(&mut counter);
    let id = ev.bind_ebpf(&mut counter);
    ev.unbind_ebpf(id);
    ev.unbind_ebpf(id);
    assert_eq!(ev.ebpf_progs_len(), 1);
    assert_eq!(ev.release(), vec![0]);
}
