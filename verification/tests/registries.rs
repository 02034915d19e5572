use hermit_ebpf::ebpf::kernel_aux::BpfError;
use hermit_ebpf::ebpf::maps::{execute_delete_map, map_not_found, next_key_reply, zeroed, CreateMap, MapTable};
use hermit_ebpf::ebpf::programs::ProgramTable;

fn name(s: &str) -> String {
    s.to_string()
}

#[test]
fn load_then_find_program() {
    let mut t: ProgramTable<Vec<u8>> = ProgramTable::new();
    let r = t.load_program(name("trace"), vec![1, 2, 3], |data: Vec<u8>| {
        let mut d = data;
        d.push(9);
        d
    });
    assert_eq!(r, Ok(Vec::new()));
    assert!(t.contains(&name("trace")));
    assert_eq!(t.get(&name("trace")), Some(&vec![1, 2, 3, 9]));
    assert_eq!(t.get(&name("other")), None);
}

#[test]
fn loading_a_taken_name_is_refused_without_preprocessing() {
    let mut t: ProgramTable<u32> = ProgramTable::new();
    assert_eq!(t.load_program(name("p"), vec![], |_d: Vec<u8>| 1), Ok(Vec::new()));
    let r = t.load_program(name("p"), vec![], |_d: Vec<u8>| -> u32 { panic!("must not run") });
    assert_eq!(r, Err(b"Program already loaded".to_vec()));
    assert_eq!(t.get(&name("p")), Some(&1));
}

#[test]
fn remove_undoes_load() {
    let mut t: ProgramTable<u32> = ProgramTable::new();
    t.load_program(name("a"), vec![], |_d: Vec<u8>| 1).unwrap();
    t.load_program(name("b"), vec![], |_d: Vec<u8>| 2).unwrap();
    assert_eq!(t.remove_program(&name("a")), Ok(Vec::new()));
    assert!(!t.contains(&name("a")));
    assert_eq!(t.get(&name("b")), Some(&2));
    assert_eq!(t.remove_program(&name("a")), Err(b"Program not found".to_vec()));
}

fn request(name: &[u8]) -> CreateMap {
    CreateMap {
        map_type: 1,
        key_size: 4,
        value_size: 8,
        max_entries: 16,
        map_flags: 0,
        map_name: name.to_vec(),
    }
}

#[test]
fn create_map_hands_out_consecutive_descriptors() {
    let mut t: MapTable<String> = MapTable::new();
    let r0 = t.create_map(request(b"counts\0\0\0"), |meta| Ok(meta.map_name));
    let r1 = t.create_map(request(b"second\0"), |meta| Ok(meta.map_name));
    assert_eq!(r0, Ok(b"0".to_vec()));
    assert_eq!(r1, Ok(b"1".to_vec()));
    assert_eq!(t.get(0), Some(&"counts".to_string()));
    assert_eq!(t.get(1), Some(&"second".to_string()));
}

#[test]
fn create_map_hands_the_request_to_the_creator() {
    let mut t: MapTable<(u32, u32, u32, u32, u32)> = MapTable::new();
    let cmd = CreateMap {
        map_type: 2,
        key_size: 3,
        value_size: 5,
        max_entries: 7,
        map_flags: 11,
        map_name: b"m\0".to_vec(),
    };
    let r = t.create_map(cmd, |meta| {
        Ok((meta.map_type, meta.key_size, meta.value_size, meta.max_entries, meta.map_flags))
    });
    assert_eq!(r, Ok(b"0".to_vec()));
    assert_eq!(t.get(0), Some(&(2, 3, 5, 7, 11)));
}

#[test]
fn create_map_with_invalid_name() {
    let mut t: MapTable<u8> = MapTable::new();
    let r = t.create_map(request(&[0xff, 0xfe, 0]), |_m| -> Result<u8, Vec<u8>> {
        panic!("must not run")
    });
    assert_eq!(r, Err(b"Invalid map name".to_vec()));
    assert_eq!(t.get(0), None);
}

#[test]
fn create_map_failure_is_reported() {
    let mut t: MapTable<u8> = MapTable::new();
    let r = t.create_map(request(b"m\0"), |_m| Err(b"unsupported".to_vec()));
    assert_eq!(r, Err(b"Failed to create eBPF map: unsupported".to_vec()));
    assert_eq!(t.get(0), None);
    // the failed creation used no descriptor
    assert_eq!(t.create_map(request(b"m\0"), |_m| Ok(5)), Ok(b"0".to_vec()));
}

#[test]
fn delete_map_and_missing_descriptor() {
    let mut t: MapTable<u8> = MapTable::new();
    t.create_map(request(b"m\0"), |_m| Ok(5)).unwrap();
    assert_eq!(execute_delete_map(&mut t, 0), Ok(Vec::new()));
    assert_eq!(t.get(0), None);
    assert_eq!(execute_delete_map(&mut t, 0), Err(b"eBPF map with fd 0 not found".to_vec()));
    assert_eq!(map_not_found(42), b"eBPF map with fd 42 not found".to_vec());
}

#[test]
fn buffers_have_key_and_value_sizes() {
    let mut t: MapTable<u8> = MapTable::new();
    t.create_map(request(b"m\0"), |_m| Ok(5)).unwrap();
    assert_eq!(t.key_buffer(0), Ok(vec![0u8; 4]));
    assert_eq!(t.value_buffer(0), Ok(vec![0u8; 8]));
    assert_eq!(t.key_buffer(3), Err(b"eBPF map with fd 3 not found".to_vec()));
    assert_eq!(t.value_buffer(3), Err(b"eBPF map with fd 3 not found".to_vec()));
    assert_eq!(zeroed(3), vec![0, 0, 0]);
}

#[test]
fn next_key_reply_by_status() {
    assert_eq!(next_key_reply(vec![1, 2], Err(BpfError::NotFound)), Ok(Vec::new()));
    assert_eq!(next_key_reply(vec![1, 2], Ok(())), Ok(vec![1, 2]));
    assert_eq!(next_key_reply(vec![1, 2], Err(BpfError::InvalidArgument)), Ok(vec![1, 2]));
}

#[test]
fn delete_undoes_create_and_descriptors_are_not_reused() {
    let mut t: MapTable<u8> = MapTable::new();
    assert_eq!(t.create_map(request(b"m\0"), |_m| Ok(1)), Ok(b"0".to_vec()));
    assert_eq!(execute_delete_map(&mut t, 0), Ok(Vec::new()));
    assert_eq!(t.get(0), None);
    assert_eq!(t.create_map(request(b"n\0"), |_m| Ok(2)), Ok(b"1".to_vec()));
    assert_eq!(t.get(0), None);
    assert_eq!(t.get(1), Some(&2));
}
