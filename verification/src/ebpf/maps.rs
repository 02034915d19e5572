//! The registry of eBPF maps, keyed by the file descriptor handed out when
//! a map is created.

use std::collections::BTreeMap;

use vstd::prelude::*;
use vstd::string::StringSliceAdditionalSpecFns;
use vstd::utf8::{encode_utf8, valid_utf8};

use crate::ebpf::kernel_aux::BpfError;
use crate::cstr::{c_string_len, c_string_len_spec, utf8_to_string};
use crate::reply::{decimal, empty_reply, text, u64_to_decimal};

verus! {

broadcast use vstd::laws_cmp::group_laws_cmp;

/// A request to create a map.
pub struct CreateMap {
    pub map_type: u32,
    pub key_size: u32,
    pub value_size: u32,
    pub max_entries: u32,
    pub map_flags: u32,
    /// The map's name as a C string: the bytes before the first NUL.
    pub map_name: Vec<u8>,
}

/// What a new map is made from: the request with its name decoded.
pub struct MapMeta {
    pub map_type: u32,
    pub key_size: u32,
    pub value_size: u32,
    pub max_entries: u32,
    pub map_flags: u32,
    pub map_name: String,
}

/// A created map with the sizes of its keys and values.
pub struct MapEntry<M> {
    pub map: M,
    pub key_size: u32,
    pub value_size: u32,
}

/// The successor of a descriptor counter, wrapping at `u32::MAX` as an
/// atomic `fetch_add` does.
pub open spec fn next_descriptor(fd: u32) -> u32 {
    if fd == u32::MAX {
        0
    } else {
        (fd + 1) as u32
    }
}

/// The descriptor counter after `creates` more maps were created, starting
/// from `first`: the descriptor that the next created map gets. Failed
/// creations and deletions leave the counter as it is.
pub open spec fn descriptor_after(first: u32, creates: nat) -> u32
    decreases creates,
{
    if creates == 0 {
        first
    } else {
        next_descriptor(descriptor_after(first, (creates - 1) as nat))
    }
}

/// Descriptors come from one counter: the `i`-th successful creation after
/// the counter stood at `first` gets `first + i` (while that fits in a
/// `u32`); so from a new registry the successful creations get 0, 1, 2, ...
/// in order, and no descriptor is handed out twice.
pub proof fn lemma_descriptors_count_up(first: u32, i: nat, j: nat)
    requires
        i < j,
        first + j <= u32::MAX,
    ensures
        descriptor_after(first, i) == first + i,
        descriptor_after(first, j) == first + j,
        descriptor_after(first, i) < descriptor_after(first, j),
    decreases j,
{
    if j > 0 {
        if i < j - 1 {
            lemma_descriptors_count_up(first, i, (j - 1) as nat);
        } else {
            lemma_descriptor_count(first, i);
        }
    }
}

proof fn lemma_descriptor_count(first: u32, n: nat)
    requires
        first + n < u32::MAX,
    ensures
        descriptor_after(first, n) == first + n,
        descriptor_after(first, n + 1) == first + n + 1,
    decreases n,
{
    if n > 0 {
        lemma_descriptor_count(first, (n - 1) as nat);
    }
}

/// Whether one call took the descriptor counter from `before` to `after`:
/// left it, or moved it on by one creation.
pub open spec fn descriptor_counter_step(before: u32, after: u32) -> bool {
    after == before || after == next_descriptor(before)
}

/// Whether step `k` of the run `counters` is one call's step.
pub open spec fn descriptor_step_at(counters: Seq<u32>, k: int) -> bool {
    descriptor_counter_step(counters[k], counters[k + 1])
}

/// Whether `counters` are the values of the descriptor counter before and
/// after each call of a run of calls.
pub open spec fn descriptor_counter_run(counters: Seq<u32>) -> bool {
    forall|k: int| 0 <= k < counters.len() - 1 ==> #[trigger] descriptor_step_at(counters, k)
}

proof fn lemma_descriptor_run_bounds(counters: Seq<u32>, k: int)
    requires
        descriptor_counter_run(counters),
        0 <= k < counters.len(),
        counters[0] + counters.len() <= u32::MAX,
    ensures
        counters[0] <= counters[k] <= counters[0] + k,
    decreases k,
{
    if k > 0 {
        lemma_descriptor_run_bounds(counters, k - 1);
        assert(descriptor_step_at(counters, k - 1));
    }
}

/// Over any run of map creations (successful or failed) and deletions,
/// counted from a new registry: the `n`-th successful creation is the one
/// that moves the counter for the `n`-th time, and it gets descriptor `n`
/// (counting from 0), as long as fewer than `u32::MAX` calls were made.
/// So the successful creations get 0, 1, 2, ... in order and no descriptor
/// is handed out twice.
pub proof fn lemma_run_descriptors_count_up(counters: Seq<u32>, k: int)
    requires
        descriptor_counter_run(counters),
        counters.len() <= u32::MAX,
        counters[0] == 0,
        0 <= k < counters.len(),
    ensures
        counters[k] as int == Set::new(
            |m: int| 0 <= m < k && counters[m + 1] != counters[m],
        ).len(),
    decreases k,
{
    lemma_descriptor_run_bounds(counters, k);
    if k == 0 {
        assert(Set::new(|m: int| 0 <= m < 0 && counters[m + 1] != counters[m]) =~= Set::<int>::empty());
    } else {
        lemma_run_descriptors_count_up(counters, k - 1);
        lemma_descriptor_run_bounds(counters, k - 1);
        assert(descriptor_step_at(counters, k - 1));
        let before = Set::new(|m: int| 0 <= m < k - 1 && counters[m + 1] != counters[m]);
        let after = Set::new(|m: int| 0 <= m < k && counters[m + 1] != counters[m]);
        if counters[k] != counters[k - 1] {
            assert(after =~= before.insert(k - 1));
            assert(!before.contains(k - 1));
            lemma_bounded_int_set_finite(before, k - 1);
        } else {
            assert(after =~= before);
        }
    }
}

proof fn lemma_bounded_int_set_finite(s: Set<int>, n: int)
    requires
        n >= 0,
        forall|m: int| s.contains(m) ==> 0 <= m < n,
    ensures
        s.finite(),
{
    let full = Set::new(|m: int| 0 <= m < n);
    vstd::set_lib::lemma_int_range(0, n);
    assert(full =~= vstd::set_lib::set_int_range(0, n));
    assert(s.subset_of(full));
    vstd::set_lib::lemma_len_subset(s, full);
}

/// `eBPF map with fd <fd> not found`.
pub open spec fn map_not_found_message(fd: u32) -> Seq<u8> {
    "eBPF map with fd ".spec_bytes() + decimal(fd as nat) + " not found".spec_bytes()
}

/// The name that a creation request carries, when its bytes before the
/// first NUL are well-formed UTF-8.
pub open spec fn request_name_bytes(cmd: CreateMap) -> Seq<u8> {
    cmd.map_name@.subrange(0, c_string_len_spec(cmd.map_name@))
}

/// Whether `meta` is the request `cmd` with its name decoded.
pub open spec fn meta_of_request(cmd: CreateMap, meta: MapMeta) -> bool {
    &&& meta.map_type == cmd.map_type
    &&& meta.key_size == cmd.key_size
    &&& meta.value_size == cmd.value_size
    &&& meta.max_entries == cmd.max_entries
    &&& meta.map_flags == cmd.map_flags
    &&& encode_utf8(meta.map_name@) == request_name_bytes(cmd)
}

/// Builds `eBPF map with fd <fd> not found`.
pub fn map_not_found(fd: u32) -> (v: Vec<u8>)
    ensures
        v@ == map_not_found_message(fd),
{
    let mut v = text("eBPF map with fd ");
    let mut d = u64_to_decimal(fd as u64);
    v.append(&mut d);
    let mut tail = text(" not found");
    v.append(&mut tail);
    v
}

/// The created maps, in a `BTreeMap` by descriptor, and the counter that
/// numbers them.
pub struct MapTable<M> {
    maps: BTreeMap<u32, MapEntry<M>>,
    next_fd: u32,
}

impl<M> MapTable<M> {
    /// The maps, by descriptor.
    pub closed spec fn maps(&self) -> Map<u32, MapEntry<M>> {
        self.maps@
    }

    /// The descriptor that the next created map receives.
    pub closed spec fn next_fd(&self) -> u32 {
        self.next_fd
    }

    /// Every map's descriptor was handed out before the counter's value.
    pub open spec fn wf(&self) -> bool {
        forall|fd: u32| #[trigger] self.maps().contains_key(fd) ==> fd < self.next_fd()
    }

    /// An empty registry whose first map gets descriptor 0.
    pub fn new() -> (t: Self)
        ensures
            t.maps() == Map::<u32, MapEntry<M>>::empty(),
            t.next_fd() == 0,
            t.wf(),
    {
        MapTable { maps: BTreeMap::new(), next_fd: 0 }
    }

    /// The map with descriptor `fd`, if any.
    pub fn get(&self, fd: u32) -> (r: Option<&M>)
        ensures
            match r {
                Some(m) => self.maps().contains_key(fd) && *m == self.maps()[fd].map,
                None => !self.maps().contains_key(fd),
            },
    {
        match self.maps.get(&fd) {
            Some(e) => Some(&e.map),
            None => None,
        }
    }

    /// Creates a map: refused with `Invalid map name` when the name is not
    /// UTF-8, the registry unchanged; otherwise `create` makes the map
    /// from the request with its name decoded, and its error `e` is
    /// answered with `Failed to create eBPF map: <e>`. A created map is
    /// stored under the next descriptor, which is the reply, in decimal.
    pub fn create_map<F: FnOnce(MapMeta) -> Result<M, Vec<u8>>>(
        &mut self,
        cmd: CreateMap,
        create: F,
    ) -> (r: Result<Vec<u8>, Vec<u8>>)
        requires
            cmd.map_name@.contains(0u8),
            forall|meta: MapMeta| create.requires((meta,)),
        ensures
            !valid_utf8(request_name_bytes(cmd)) ==> {
                &&& r matches Err(e) && e@ == "Invalid map name".spec_bytes()
                &&& final(self).maps() == old(self).maps()
                &&& final(self).next_fd() == old(self).next_fd()
            },
            valid_utf8(request_name_bytes(cmd)) ==> exists|meta: MapMeta, made: Result<M, Vec<u8>>|
                {
                    &&& meta_of_request(cmd, meta)
                    &&& create.ensures((meta,), made)
                    &&& match made {
                        Ok(m) => {
                            &&& r matches Ok(v) && v@ == decimal(old(self).next_fd() as nat)
                            &&& final(self).maps() == old(self).maps().insert(
                                old(self).next_fd(),
                                MapEntry { map: m, key_size: cmd.key_size, value_size: cmd.value_size },
                            )
                            &&& final(self).next_fd() == next_descriptor(old(self).next_fd())
                        },
                        Err(e) => {
                            &&& r matches Err(v) && v@ == "Failed to create eBPF map: ".spec_bytes()
                                + e@
                            &&& final(self).maps() == old(self).maps()
                            &&& final(self).next_fd() == old(self).next_fd()
                        },
                    }
                },
            old(self).wf() && old(self).next_fd() < u32::MAX ==> final(self).wf(),
            descriptor_counter_step(old(self).next_fd(), final(self).next_fd()),
            final(self).next_fd() != old(self).next_fd() ==> r is Ok,
    {
        let n = c_string_len(cmd.map_name.as_slice());
        let name_bytes = vstd::slice::slice_subrange(cmd.map_name.as_slice(), 0, n);
        let name = match utf8_to_string(name_bytes) {
            Some(s) => s,
            None => {
                return Err(text("Invalid map name"));
            },
        };
        let key_size = cmd.key_size;
        let value_size = cmd.value_size;
        let meta = MapMeta {
            map_type: cmd.map_type,
            key_size: cmd.key_size,
            value_size: cmd.value_size,
            max_entries: cmd.max_entries,
            map_flags: cmd.map_flags,
            map_name: name,
        };
        let ghost given = meta;
        let made = create(meta);
        let ghost result = made;
        match made {
            Ok(map) => {
                let fd = self.next_fd;
                self.maps.insert(fd, MapEntry { map, key_size, value_size });
                self.next_fd = if fd == u32::MAX {
                    0
                } else {
                    fd + 1
                };
                proof {
                    assert(meta_of_request(cmd, given));
                    assert(create.ensures((given,), result));
                }
                Ok(u64_to_decimal(fd as u64))
            },
            Err(mut e) => {
                let mut v = text("Failed to create eBPF map: ");
                v.append(&mut e);
                proof {
                    assert(meta_of_request(cmd, given));
                }
                Err(v)
            },
        }
    }

    /// A zeroed buffer as long as the keys of map `fd`, for the next key to
    /// be written into; `eBPF map with fd <fd> not found` when there is no
    /// such map.
    pub fn key_buffer(&self, fd: u32) -> (r: Result<Vec<u8>, Vec<u8>>)
        ensures
            self.maps().contains_key(fd) ==> (r matches Ok(b) && b@ == Seq::new(
                self.maps()[fd].key_size as nat,
                |i: int| 0u8,
            )),
            !self.maps().contains_key(fd) ==> (r matches Err(e) && e@ == map_not_found_message(fd)),
    {
        match self.maps.get(&fd) {
            Some(e) => Ok(zeroed(e.key_size)),
            None => Err(map_not_found(fd)),
        }
    }

    /// A zeroed buffer as long as the values of map `fd`, for a looked-up
    /// value to be written into; `eBPF map with fd <fd> not found` when
    /// there is no such map.
    pub fn value_buffer(&self, fd: u32) -> (r: Result<Vec<u8>, Vec<u8>>)
        ensures
            self.maps().contains_key(fd) ==> (r matches Ok(b) && b@ == Seq::new(
                self.maps()[fd].value_size as nat,
                |i: int| 0u8,
            )),
            !self.maps().contains_key(fd) ==> (r matches Err(e) && e@ == map_not_found_message(fd)),
    {
        match self.maps.get(&fd) {
            Some(e) => Ok(zeroed(e.value_size)),
            None => Err(map_not_found(fd)),
        }
    }
}

/// Deletes the map with descriptor `map_fd`; `eBPF map with fd <fd> not
/// found` when there is none.
pub fn execute_delete_map<M>(maps: &mut MapTable<M>, map_fd: u32) -> (r: Result<Vec<u8>, Vec<u8>>)
    ensures
        final(maps).next_fd() == old(maps).next_fd(),
        final(maps).maps() == old(maps).maps().remove(map_fd),
        old(maps).maps().contains_key(map_fd) ==> (r matches Ok(m) && m@.len() == 0),
        !old(maps).maps().contains_key(map_fd) ==> (r matches Err(e) && e@ == map_not_found_message(map_fd)),
        old(maps).wf() ==> final(maps).wf(),
        descriptor_counter_step(old(maps).next_fd(), final(maps).next_fd()),
{
    match maps.maps.remove(&map_fd) {
        Some(_map) => Ok(empty_reply()),
        None => Err(map_not_found(map_fd)),
    }
}

/// `n` zero bytes.
pub fn zeroed(n: u32) -> (v: Vec<u8>)
    ensures
        v@ == Seq::new(n as nat, |i: int| 0u8),
{
    let mut v: Vec<u8> = Vec::new();
    let mut i: u32 = 0;
    while i < n
        invariant
            i <= n,
            v@ == Seq::new(i as nat, |k: int| 0u8),
        decreases n - i,
    {
        v.push(0u8);
        i = i + 1;
    }
    v
}

/// The reply to a next-key request, from the key buffer and the status of
/// the lookup that wrote into it: empty when the map has no next key
/// (`NotFound`), otherwise the buffer, whatever else the status says.
pub fn next_key_reply(key: Vec<u8>, status: Result<(), BpfError>) -> (r: Result<Vec<u8>, Vec<u8>>)
    ensures
        status == Err::<(), BpfError>(BpfError::NotFound) ==> (r matches Ok(m) && m@.len() == 0),
        status != Err::<(), BpfError>(BpfError::NotFound) ==> (r matches Ok(m) && m@ == key@),
{
    match status {
        Err(BpfError::NotFound) => Ok(empty_reply()),
        _ => Ok(key),
    }
}

/// Deleting the map that was just created undoes the creation: storing an
/// entry under the next descriptor and removing that descriptor gives back
/// the same maps.
pub proof fn lemma_delete_undoes_create<M>(t: &MapTable<M>, entry: MapEntry<M>)
    requires
        t.wf(),
    ensures
        t.maps().insert(t.next_fd(), entry).remove(t.next_fd()) == t.maps(),
{
    assert(!t.maps().contains_key(t.next_fd()));
    assert(t.maps().insert(t.next_fd(), entry).remove(t.next_fd()) =~= t.maps());
}

} // verus!
