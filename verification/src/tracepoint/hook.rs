//! The eBPF programs bound to one tracepoint, as the callback ids under
//! which they are registered with it.

use vstd::prelude::*;

verus! {

/// `s` without any occurrence of `x`, the rest in order.
pub open spec fn without(s: Seq<u64>, x: u64) -> Seq<u64>
    decreases s.len(),
{
    if s.len() == 0 {
        s
    } else if s.last() == x {
        without(s.drop_last(), x)
    } else {
        without(s.drop_last(), x).push(s.last())
    }
}

/// What `without` keeps: exactly the elements other than `x`, each as
/// often as before.
pub proof fn lemma_without(s: Seq<u64>, x: u64)
    ensures
        forall|i: int| 0 <= i < without(s, x).len() ==> #[trigger] without(s, x)[i] != x && s.contains(without(s, x)[i]),
        forall|i: int| 0 <= i < s.len() && s[i] != x ==> without(s, x).contains(#[trigger] s[i]),
        without(s, x).len() <= s.len(),
        s.no_duplicates() ==> without(s, x).no_duplicates(),
        !s.contains(x) ==> without(s, x) == s,
    decreases s.len(),
{
    if s.len() > 0 {
        let t = s.drop_last();
        lemma_without(t, x);
        let w = without(s, x);
        let wt = without(t, x);
        assert forall|i: int| 0 <= i < w.len() implies #[trigger] w[i] != x && s.contains(w[i]) by {
            if s.last() == x || i < wt.len() {
                assert(wt[i] == w[i]);
                let j = choose|j: int| 0 <= j < t.len() && t[j] == wt[i];
                assert(s[j] == t[j]);
            } else {
                assert(w[i] == s[s.len() - 1]);
            }
        }
        assert forall|i: int| 0 <= i < s.len() && s[i] != x implies w.contains(#[trigger] s[i]) by {
            if i < s.len() - 1 {
                assert(t[i] == s[i]);
                let j = choose|j: int| 0 <= j < wt.len() && wt[j] == t[i];
                if s.last() != x {
                    assert(w[j] == wt[j]);
                }
            } else {
                assert(w[w.len() - 1] == s[i]);
            }
        }
        if s.no_duplicates() {
            assert(t.no_duplicates()) by {
                assert forall|a: int, b: int| 0 <= a < t.len() && 0 <= b < t.len() && a != b implies t[a] != t[b] by {
                    assert(t[a] == s[a] && t[b] == s[b]);
                }
            }
            if s.last() != x {
                assert(!wt.contains(s.last())) by {
                    if wt.contains(s.last()) {
                        let j = choose|j: int| 0 <= j < wt.len() && wt[j] == s.last();
                        let k = choose|k: int| 0 <= k < t.len() && t[k] == wt[j];
                        assert(s[k] == s[s.len() - 1]);
                    }
                }
                assert forall|a: int, b: int| 0 <= a < w.len() && 0 <= b < w.len() && a != b implies w[a] != w[b] by {
                    if a < wt.len() && b < wt.len() {
                        assert(w[a] == wt[a] && w[b] == wt[b]);
                    } else if a < wt.len() {
                        assert(w[a] == wt[a]);
                        assert(wt.contains(w[a]));
                    } else {
                        assert(w[b] == wt[b]);
                        assert(wt.contains(w[b]));
                    }
                }
            }
        }
        if !s.contains(x) {
            assert(!t.contains(x)) by {
                if t.contains(x) {
                    let j = choose|j: int| 0 <= j < t.len() && t[j] == x;
                    assert(s[j] == x);
                }
            }
            assert(s.last() != x) by {
                assert(s[s.len() - 1] == s.last());
            }
            assert(s == t.push(s.last()));
        }
    }
}

/// The successor of a callback-id counter, wrapping at `u64::MAX` as an
/// atomic `fetch_add` does.
pub open spec fn next_callback(id: u64) -> u64 {
    if id == u64::MAX {
        0
    } else {
        (id + 1) as u64
    }
}

/// The counter after `binds` more programs were bound, starting from
/// `first`: the id that the next bind hands out.
pub open spec fn callback_after(first: u64, binds: nat) -> u64
    decreases binds,
{
    if binds == 0 {
        first
    } else {
        next_callback(callback_after(first, (binds - 1) as nat))
    }
}

/// Callback ids come from one counter: while fewer than `u64::MAX - first`
/// further binds have been made, the `i`-th bind after the counter stood at
/// `first` gets `first + i`, so a later bind always gets a larger id and no
/// id is handed out twice.
pub proof fn lemma_callback_ids_increase(first: u64, i: nat, j: nat)
    requires
        i < j,
        first + j <= u64::MAX,
    ensures
        callback_after(first, i) == first + i,
        callback_after(first, j) == first + j,
        callback_after(first, i) < callback_after(first, j),
    decreases j,
{
    if j > 0 {
        if i < j - 1 {
            lemma_callback_ids_increase(first, i, (j - 1) as nat);
        } else {
            lemma_callback_count(first, i);
        }
    }
}

proof fn lemma_callback_count(first: u64, n: nat)
    requires
        first + n < u64::MAX,
    ensures
        callback_after(first, n) == first + n,
        callback_after(first, n + 1) == first + n + 1,
    decreases n,
{
    if n > 0 {
        lemma_callback_count(first, (n - 1) as nat);
    }
}

/// Whether one call took the callback counter from `before` to `after`:
/// left it, or moved it on by one bind.
pub open spec fn callback_counter_step(before: u64, after: u64) -> bool {
    after == before || after == next_callback(before)
}

/// Whether step `k` of the run `counters` is one call's step.
pub open spec fn callback_step_at(counters: Seq<u64>, k: int) -> bool {
    callback_counter_step(counters[k], counters[k + 1])
}

/// Whether `counters` are the values of the callback counter before and
/// after each call of a run of calls.
pub open spec fn callback_counter_run(counters: Seq<u64>) -> bool {
    forall|k: int| 0 <= k < counters.len() - 1 ==> #[trigger] callback_step_at(counters, k)
}

proof fn lemma_callback_run_bounds(counters: Seq<u64>, k: int)
    requires
        callback_counter_run(counters),
        0 <= k < counters.len(),
        counters[0] + counters.len() <= u64::MAX,
    ensures
        counters[0] <= counters[k] <= counters[0] + k,
    decreases k,
{
    if k > 0 {
        lemma_callback_run_bounds(counters, k - 1);
        assert(callback_step_at(counters, k - 1));
    }
}

proof fn lemma_callback_run_monotone(counters: Seq<u64>, a: int, b: int)
    requires
        callback_counter_run(counters),
        0 <= a <= b < counters.len(),
        counters[0] + counters.len() <= u64::MAX,
    ensures
        counters[a] <= counters[b],
    decreases b,
{
    if a < b {
        lemma_callback_run_monotone(counters, a, b - 1);
        lemma_callback_run_bounds(counters, b - 1);
        assert(callback_step_at(counters, b - 1));
    }
}

/// Over any run of calls that share the callback counter (on any
/// tracepoints), a bind hands out a larger id than every earlier bind, as
/// long as the counter does not wrap: no id is handed out twice. A call at
/// step `i` binds when it moves the counter, and the id it hands out is the
/// counter's value before it.
pub proof fn lemma_run_ids_increase(counters: Seq<u64>, i: int, j: int)
    requires
        callback_counter_run(counters),
        counters[0] + counters.len() <= u64::MAX,
        0 <= i < j,
        j + 1 < counters.len(),
        counters[i + 1] != counters[i],
        counters[j + 1] != counters[j],
    ensures
        counters[i] < counters[j],
{
    lemma_callback_run_bounds(counters, i);
    assert(callback_step_at(counters, i));
    lemma_callback_run_monotone(counters, i + 1, j);
}

/// Unbinding the id that was just bound gives back the list as it was
/// before, when the id was not in it already; unbinding it again changes
/// nothing more.
pub proof fn lemma_unbind_undoes_bind(list: Seq<u64>, id: u64)
    requires
        !list.contains(id),
    ensures
        without(list.push(id), id) == list,
        without(without(list.push(id), id), id) == list,
{
    let bound = list.push(id);
    assert(bound.drop_last() == list);
    lemma_without(list, id);
}

/// Unbinding an id twice is unbinding it once.
pub proof fn lemma_unbind_idempotent(list: Seq<u64>, id: u64)
    ensures
        without(without(list, id), id) == without(list, id),
{
    lemma_without(list, id);
    let once = without(list, id);
    assert(!once.contains(id)) by {
        if once.contains(id) {
            let i = choose|i: int| 0 <= i < once.len() && once[i] == id;
        }
    }
    lemma_without(once, id);
}

/// The programs bound to one tracepoint: the callback ids under which they
/// are registered, oldest first.
pub struct TracepointPerfEvent {
    tp_id: u32,
    ebpf_list: Vec<u64>,
}

impl View for TracepointPerfEvent {
    type V = Seq<u64>;

    closed spec fn view(&self) -> Seq<u64> {
        self.ebpf_list@
    }
}

impl TracepointPerfEvent {
    /// The tracepoint that the programs are bound to.
    pub closed spec fn tp(&self) -> u32 {
        self.tp_id
    }

    /// An event for tracepoint `tp_id` with no program bound.
    pub fn new(tp_id: u32) -> (e: Self)
        ensures
            e@ == Seq::<u64>::empty(),
            e.tp() == tp_id,
    {
        TracepointPerfEvent { tp_id, ebpf_list: Vec::new() }
    }

    /// The tracepoint that the programs are bound to.
    pub fn tracepoint_id(&self) -> (t: u32)
        ensures
            t == self.tp(),
    {
        self.tp_id
    }

    /// Binds one more program: it gets the id that `next_id` holds, which
    /// then moves on to the next one, and the id is recorded last.
    pub fn bind_ebpf(&mut self, next_id: &mut u64) -> (id: u64)
        ensures
            id == *old(next_id),
            *final(next_id) == next_callback(*old(next_id)),
            final(self)@ == old(self)@.push(id),
            final(self).tp() == old(self).tp(),
    {
        let id = *next_id;
        *next_id = if id == u64::MAX {
            0
        } else {
            id + 1
        };
        self.ebpf_list.push(id);
        id
    }

    /// Unbinds the program registered under `id`: every occurrence of the
    /// id is dropped, the others keep their order.
    pub fn unbind_ebpf(&mut self, id: u64)
        ensures
            final(self)@ == without(old(self)@, id),
            final(self).tp() == old(self).tp(),
    {
        let mut kept: Vec<u64> = Vec::new();
        let mut i: usize = 0;
        while i < self.ebpf_list.len()
            invariant
                i <= self.ebpf_list@.len(),
                kept@ == without(self.ebpf_list@.take(i as int), id),
            decreases self.ebpf_list@.len() - i,
        {
            let x = self.ebpf_list[i];
            proof {
                assert(self.ebpf_list@.take(i + 1).drop_last() == self.ebpf_list@.take(i as int));
            }
            if x != id {
                kept.push(x);
            }
            i = i + 1;
        }
        proof {
            assert(self.ebpf_list@.take(i as int) == self.ebpf_list@);
        }
        self.ebpf_list = kept;
    }

    /// How many programs are bound.
    pub fn ebpf_progs_len(&self) -> (n: usize)
        ensures
            n == self@.len(),
    {
        self.ebpf_list.len()
    }

    /// Takes the event apart when it is dropped: the callback ids that are
    /// still registered, to be unregistered from the tracepoint.
    pub fn release(self) -> (ids: Vec<u64>)
        ensures
            ids@ == self@,
    {
        self.ebpf_list
    }
}

} // verus!
