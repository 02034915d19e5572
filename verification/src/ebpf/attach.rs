//! Attachments of loaded programs to tracepoints: which tracepoint each
//! callback id is bound to, and the programs bound to each tracepoint.

use std::collections::BTreeMap;

use vstd::prelude::*;
use vstd::string::StringSliceAdditionalSpecFns;

use crate::ebpf::programs::ProgramTable;
use crate::reply::{decimal, empty_reply, text, u64_to_decimal};
use crate::tracepoint::hook::{
    callback_counter_step, lemma_without, next_callback, without, TracepointPerfEvent,
};

verus! {

broadcast use vstd::laws_cmp::group_laws_cmp;

/// The callbacks bound to each tracepoint after callback `id` is bound to
/// tracepoint `tp`: appended to its list, which starts empty when the
/// tracepoint had none.
pub open spec fn events_after_bind(events: Map<u32, Seq<u64>>, tp: u32, id: u64) -> Map<
    u32,
    Seq<u64>,
> {
    let bound = if events.contains_key(tp) {
        events[tp]
    } else {
        Seq::empty()
    };
    events.insert(tp, bound.push(id))
}

/// The callbacks bound to each tracepoint after callback `id` is unbound
/// from tracepoint `tp`: dropped from its list, and the tracepoint's entry
/// dropped once nothing is left bound to it.
pub open spec fn events_after_unbind(events: Map<u32, Seq<u64>>, tp: u32, id: u64) -> Map<
    u32,
    Seq<u64>,
> {
    let rest = without(events[tp], id);
    if rest.len() == 0 {
        events.remove(tp)
    } else {
        events.insert(tp, rest)
    }
}

/// A callback that the tracepoint registry must register or unregister.
pub struct CallbackRegistration {
    pub tracepoint_id: u32,
    pub callback_id: u64,
}

/// What attaching a program leads to: the reply, and the callback to
/// register with the tracepoint when the attachment was made.
pub struct AttachOutcome {
    pub reply: Result<Vec<u8>, Vec<u8>>,
    pub registration: Option<CallbackRegistration>,
}

/// What detaching a program leads to: the reply, the callback to unregister
/// from its tracepoint, and the tracepoint's event when no program is left
/// bound to it (to be dropped: its remaining callbacks unregistered and the
/// tracepoint disabled).
pub struct DetachOutcome {
    pub reply: Result<Vec<u8>, Vec<u8>>,
    pub unregistration: Option<CallbackRegistration>,
    pub released: Option<TracepointPerfEvent>,
}

/// The attachments of programs to tracepoints.
pub struct AttachTable {
    attachments: BTreeMap<u64, u32>,
    events: BTreeMap<u32, TracepointPerfEvent>,
    next_callback_id: u64,
}

impl AttachTable {
    /// The tracepoint that each attached callback id is bound to.
    pub closed spec fn attachments(&self) -> Map<u64, u32> {
        self.attachments@
    }

    /// The callback ids bound to each tracepoint that has an event.
    pub closed spec fn events(&self) -> Map<u32, Seq<u64>> {
        Map::new(|t: u32| self.events@.contains_key(t), |t: u32| self.events@[t]@)
    }

    /// The id that the next bound program receives.
    pub closed spec fn next_callback_id(&self) -> u64 {
        self.next_callback_id
    }

    /// Whether every event belongs to the tracepoint it is filed under.
    pub closed spec fn events_filed_by_tracepoint(&self) -> bool {
        forall|t: u32| #[trigger] self.events@.contains_key(t) ==> self.events@[t].tp() == t
    }

    /// The consistency of the tables: each attached id is in the list of
    /// the tracepoint it is attached to, every listed id is attached to the
    /// tracepoint whose list holds it, and no tracepoint keeps an event with
    /// nothing bound.
    pub open spec fn inv(&self) -> bool {
        &&& forall|id: u64| #[trigger]
            self.attachments().contains_key(id) ==> {
                &&& self.events().contains_key(self.attachments()[id])
                &&& self.events()[self.attachments()[id]].contains(id)
            }
        &&& forall|t: u32, i: int|
            #![trigger self.events()[t][i]]
            self.events().contains_key(t) && 0 <= i < self.events()[t].len() ==> {
                &&& self.attachments().contains_key(self.events()[t][i])
                &&& self.attachments()[self.events()[t][i]] == t
            }
        &&& forall|t: u32| #[trigger] self.events().contains_key(t) ==> self.events()[t].len() > 0
    }

    /// The consistency that attaching and detaching keep, with what makes
    /// the next id fresh: `inv`, every attached id older than the counter,
    /// each id listed once, and every event filed under its own tracepoint.
    pub open spec fn wf(&self) -> bool {
        &&& self.inv()
        &&& self.events_filed_by_tracepoint()
        &&& forall|id: u64| #[trigger]
            self.attachments().contains_key(id) ==> id < self.next_callback_id()
        &&& forall|t: u32| #[trigger]
            self.events().contains_key(t) ==> self.events()[t].no_duplicates()
    }

    /// No attachment; the first bound program gets callback id 0.
    pub fn new() -> (t: Self)
        ensures
            t.attachments() == Map::<u64, u32>::empty(),
            t.events() == Map::<u32, Seq<u64>>::empty(),
            t.next_callback_id() == 0,
            t.wf(),
    {
        let t = AttachTable { attachments: BTreeMap::new(), events: BTreeMap::new(), next_callback_id: 0 };
        proof {
            assert(t.events() =~= Map::<u32, Seq<u64>>::empty());
        }
        t
    }

    /// Attaches the program loaded under `name` to tracepoint
    /// `tracepoint_id`, whose existence the tracepoint registry reports in
    /// `tracepoint_exists`: `Program not found` when no such program is
    /// loaded; `Tracepoint not found` when the tracepoint has no event yet
    /// and does not exist. Otherwise the program is bound under the next
    /// callback id (the tracepoint's event made first when it has none),
    /// the id is recorded as attached to the tracepoint, and it is the
    /// reply, in decimal; the callback is then to be registered.
    pub fn attach_program<P>(
        &mut self,
        programs: &ProgramTable<P>,
        name: &String,
        tracepoint_id: u32,
        tracepoint_exists: bool,
    ) -> (out: AttachOutcome)
        ensures
            !programs@.contains_key(name@) ==> {
                &&& out.reply matches Err(e) && e@ == "Program not found".spec_bytes()
                &&& out.registration is None
                &&& final(self).attachments() == old(self).attachments()
                &&& final(self).events() == old(self).events()
                &&& final(self).next_callback_id() == old(self).next_callback_id()
            },
            programs@.contains_key(name@) && !old(self).events().contains_key(tracepoint_id)
                && !tracepoint_exists ==> {
                &&& out.reply matches Err(e) && e@ == "Tracepoint not found".spec_bytes()
                &&& out.registration is None
                &&& final(self).attachments() == old(self).attachments()
                &&& final(self).events() == old(self).events()
                &&& final(self).next_callback_id() == old(self).next_callback_id()
            },
            programs@.contains_key(name@) && (old(self).events().contains_key(tracepoint_id)
                || tracepoint_exists) ==> {
                let id = old(self).next_callback_id();
                &&& out.reply matches Ok(m) && m@ == decimal(id as nat)
                &&& out.registration == Some(
                    CallbackRegistration { tracepoint_id: tracepoint_id, callback_id: id },
                )
                &&& final(self).attachments() == old(self).attachments().insert(id, tracepoint_id)
                &&& final(self).events() == events_after_bind(old(self).events(), tracepoint_id, id)
                &&& final(self).next_callback_id() == next_callback(id)
            },
            old(self).wf() && old(self).next_callback_id() < u64::MAX ==> final(self).wf(),
            old(self).inv() && !old(self).attachments().contains_key(old(self).next_callback_id())
                ==> final(self).inv(),
            callback_counter_step(old(self).next_callback_id(), final(self).next_callback_id()),
            final(self).next_callback_id() != old(self).next_callback_id() ==> out.reply is Ok,
    {
        if !programs.contains(name) {
            return AttachOutcome { reply: Err(text("Program not found")), registration: None };
        }
        let mut event = match self.events.remove(&tracepoint_id) {
            Some(e) => e,
            None => {
                if !tracepoint_exists {
                    proof {
                        assert(self.events@ =~= old(self).events@);
                    }
                    return AttachOutcome {
                        reply: Err(text("Tracepoint not found")),
                        registration: None,
                    };
                }
                TracepointPerfEvent::new(tracepoint_id)
            },
        };
        let ghost before = event@;
        let id = event.bind_ebpf(&mut self.next_callback_id);
        self.events.insert(tracepoint_id, event);
        self.attachments.insert(id, tracepoint_id);
        proof {
            let old_events = old(self).events();
            assert(before == (if old_events.contains_key(tracepoint_id) {
                old_events[tracepoint_id]
            } else {
                Seq::empty()
            }));
            assert(self.events() =~= events_after_bind(old_events, tracepoint_id, id));
            assert(self.events@ =~= old(self).events@.insert(tracepoint_id, self.events@[tracepoint_id]));
            if old(self).wf() && old(self).next_callback_id() < u64::MAX {
                self.lemma_bind_keeps_wf(old(self), tracepoint_id, id, before);
            }
            if old(self).inv() && !old(self).attachments().contains_key(id) {
                self.lemma_bind_keeps_inv(old(self), tracepoint_id, id, before);
            }
        }
        AttachOutcome {
            reply: Ok(u64_to_decimal(id)),
            registration: Some(CallbackRegistration { tracepoint_id, callback_id: id }),
        }
    }

    proof fn lemma_bind_keeps_wf(&self, prev: &Self, tp: u32, id: u64, before: Seq<u64>)
        requires
            prev.wf(),
            prev.next_callback_id() < u64::MAX,
            id == prev.next_callback_id(),
            self.next_callback_id() == id + 1,
            before == (if prev.events().contains_key(tp) {
                prev.events()[tp]
            } else {
                Seq::empty()
            }),
            self.events() == events_after_bind(prev.events(), tp, id),
            self.attachments() == prev.attachments().insert(id, tp),
            self.events@ == prev.events@.insert(tp, self.events@[tp]),
            self.events@[tp].tp() == tp,
            forall|t: u32| #[trigger] prev.events@.contains_key(t) && t != tp ==> prev.events@[t].tp() == t,
        ensures
            self.wf(),
    {
        assert(!prev.attachments().contains_key(id));
        self.lemma_bind_keeps_inv(prev, tp, id, before);
        assert(!before.contains(id)) by {
            if before.contains(id) {
                let i = choose|i: int| 0 <= i < before.len() && before[i] == id;
                assert(prev.events()[tp][i] == id);
            }
        }
        assert(self.events()[tp] == before.push(id));
        assert(self.events_filed_by_tracepoint()) by {
            assert forall|t: u32| #[trigger] self.events@.contains_key(t) implies self.events@[t].tp() == t by {
                if t != tp {
                    assert(prev.events@.contains_key(t));
                }
            }
        }
        assert forall|t: u32| #[trigger] self.events().contains_key(t) implies self.events()[t].no_duplicates() by {
            if t == tp {
                let s = before.push(id);
                assert forall|a: int, b: int| 0 <= a < s.len() && 0 <= b < s.len() && a != b implies s[a] != s[b] by {
                    if a < before.len() && b < before.len() {
                        if prev.events().contains_key(tp) {
                            assert(prev.events()[tp].no_duplicates());
                        }
                    } else if a < before.len() {
                        assert(before.contains(s[a]));
                    } else {
                        assert(before.contains(s[b]));
                    }
                }
            }
        }
    }

    proof fn lemma_bind_keeps_inv(&self, prev: &Self, tp: u32, id: u64, before: Seq<u64>)
        requires
            prev.inv(),
            !prev.attachments().contains_key(id),
            before == (if prev.events().contains_key(tp) {
                prev.events()[tp]
            } else {
                Seq::empty()
            }),
            self.events() == events_after_bind(prev.events(), tp, id),
            self.attachments() == prev.attachments().insert(id, tp),
        ensures
            self.inv(),
    {
        assert(!before.contains(id)) by {
            if before.contains(id) {
                let i = choose|i: int| 0 <= i < before.len() && before[i] == id;
                assert(prev.events()[tp][i] == id);
            }
        }
        assert(self.events()[tp] == before.push(id));
        assert forall|a: u64| #[trigger] self.attachments().contains_key(a) implies {
            &&& self.events().contains_key(self.attachments()[a])
            &&& self.events()[self.attachments()[a]].contains(a)
        } by {
            if a == id {
                assert(self.events()[tp][before.len() as int] == id);
            } else {
                let t = prev.attachments()[a];
                assert(prev.events()[t].contains(a));
                if t == tp {
                    let i = choose|i: int| 0 <= i < before.len() && before[i] == a;
                    assert(self.events()[tp][i] == a);
                }
            }
        }
        assert forall|t: u32, i: int|
            self.events().contains_key(t) && 0 <= i < self.events()[t].len() implies {
            &&& self.attachments().contains_key(#[trigger] self.events()[t][i])
            &&& self.attachments()[self.events()[t][i]] == t
        } by {
            if t == tp {
                if i < before.len() {
                    assert(self.events()[t][i] == prev.events()[t][i]);
                    assert(prev.events()[t][i] != id);
                }
            } else {
                assert(self.events()[t] == prev.events()[t]);
                assert(prev.events()[t][i] != id);
            }
        }
    }

    proof fn lemma_unbind_keeps_inv(&self, prev: &Self, tp: u32, id: u64, before: Seq<u64>)
        requires
            prev.inv(),
            prev.attachments().contains_key(id),
            prev.attachments()[id] == tp,
            prev.events().contains_key(tp),
            before == prev.events()[tp],
            self.attachments() == prev.attachments().remove(id),
            self.events() == events_after_unbind(prev.events(), tp, id),
        ensures
            self.inv(),
    {
        lemma_without(before, id);
        let rest = without(before, id);
        assert forall|a: u64| #[trigger] self.attachments().contains_key(a) implies {
            &&& self.events().contains_key(self.attachments()[a])
            &&& self.events()[self.attachments()[a]].contains(a)
        } by {
            let t = prev.attachments()[a];
            assert(prev.events()[t].contains(a));
            if t == tp {
                let i = choose|i: int| 0 <= i < before.len() && before[i] == a;
                assert(rest.contains(before[i]));
            }
        }
        assert forall|t: u32, i: int|
            self.events().contains_key(t) && 0 <= i < self.events()[t].len() implies {
            &&& self.attachments().contains_key(#[trigger] self.events()[t][i])
            &&& self.attachments()[self.events()[t][i]] == t
        } by {
            if t == tp {
                let x = rest[i];
                assert(x != id && before.contains(x));
                let j = choose|j: int| 0 <= j < before.len() && before[j] == x;
                assert(prev.attachments()[prev.events()[tp][j]] == tp);
            } else {
                assert(self.events()[t] == prev.events()[t]);
                let x = prev.events()[t][i];
                assert(prev.attachments()[x] == t);
                assert(x != id);
            }
        }
    }

    /// Detaches the program bound under callback id `callback_id`:
    /// `Attach entry not found` when no such id is attached. Otherwise the
    /// attachment is dropped; `Tracepoint event not found` when its
    /// tracepoint has no event; else the id is unbound from the event (to be
    /// unregistered from the tracepoint), and an event left with nothing
    /// bound is dropped from the table and handed back.
    pub fn detach_program(&mut self, callback_id: u64) -> (out: DetachOutcome)
        ensures
            final(self).next_callback_id() == old(self).next_callback_id(),
            final(self).attachments() == old(self).attachments().remove(callback_id),
            !old(self).attachments().contains_key(callback_id) ==> {
                &&& out.reply matches Err(e) && e@ == "Attach entry not found".spec_bytes()
                &&& out.unregistration is None
                &&& out.released is None
                &&& final(self).events() == old(self).events()
            },
            old(self).attachments().contains_key(callback_id) && !old(self).events().contains_key(
                old(self).attachments()[callback_id],
            ) ==> {
                &&& out.reply matches Err(e) && e@ == "Tracepoint event not found".spec_bytes()
                &&& out.unregistration is None
                &&& out.released is None
                &&& final(self).events() == old(self).events()
            },
            old(self).attachments().contains_key(callback_id) && old(self).events().contains_key(
                old(self).attachments()[callback_id],
            ) ==> {
                let tp = old(self).attachments()[callback_id];
                let rest = without(old(self).events()[tp], callback_id);
                &&& out.reply matches Ok(m) && m@.len() == 0
                &&& out.unregistration == Some(
                    CallbackRegistration { tracepoint_id: tp, callback_id: callback_id },
                )
                &&& final(self).events() == events_after_unbind(old(self).events(), tp, callback_id)
                &&& rest.len() == 0 ==> (out.released matches Some(ev) && ev@ == rest && (old(self).wf() ==> ev.tp() == tp))
                &&& rest.len() > 0 ==> out.released is None
            },
            old(self).wf() ==> final(self).wf(),
            old(self).inv() ==> final(self).inv(),
            callback_counter_step(old(self).next_callback_id(), final(self).next_callback_id()),
    {
        let tp = match self.attachments.remove(&callback_id) {
            Some(tp) => tp,
            None => {
                return DetachOutcome {
                    reply: Err(text("Attach entry not found")),
                    unregistration: None,
                    released: None,
                };
            },
        };
        let mut event = match self.events.remove(&tp) {
            Some(e) => e,
            None => {
                proof {
                    assert(self.events() =~= old(self).events());
                    if old(self).inv() {
                        assert(false);
                    }
                }
                return DetachOutcome {
                    reply: Err(text("Tracepoint event not found")),
                    unregistration: None,
                    released: None,
                };
            },
        };
        let ghost before = event@;
        event.unbind_ebpf(callback_id);
        let released = if event.ebpf_progs_len() == 0 {
            proof {
                assert(self.events() =~= events_after_unbind(old(self).events(), tp, callback_id));
            }
            Some(event)
        } else {
            self.events.insert(tp, event);
            proof {
                assert(self.events() =~= events_after_unbind(old(self).events(), tp, callback_id));
            }
            None
        };
        proof {
            if old(self).wf() {
                self.lemma_unbind_keeps_wf(old(self), tp, callback_id, before);
            }
            if old(self).inv() {
                self.lemma_unbind_keeps_inv(old(self), tp, callback_id, before);
            }
        }
        DetachOutcome {
            reply: Ok(empty_reply()),
            unregistration: Some(CallbackRegistration { tracepoint_id: tp, callback_id }),
            released,
        }
    }

    proof fn lemma_unbind_keeps_wf(&self, prev: &Self, tp: u32, id: u64, before: Seq<u64>)
        requires
            prev.wf(),
            prev.attachments().contains_key(id),
            prev.attachments()[id] == tp,
            prev.events().contains_key(tp),
            before == prev.events()[tp],
            self.next_callback_id() == prev.next_callback_id(),
            self.attachments() == prev.attachments().remove(id),
            self.events() == events_after_unbind(prev.events(), tp, id),
            forall|t: u32| #[trigger] self.events@.contains_key(t) ==> prev.events@.contains_key(t) && (t != tp ==> self.events@[t] == prev.events@[t]),
            self.events@.contains_key(tp) ==> self.events@[tp].tp() == prev.events@[tp].tp(),
        ensures
            self.wf(),
    {
        self.lemma_unbind_keeps_inv(prev, tp, id, before);
        lemma_without(before, id);
        assert(self.events_filed_by_tracepoint()) by {
            assert forall|t: u32| #[trigger] self.events@.contains_key(t) implies self.events@[t].tp() == t by {
                assert(prev.events@.contains_key(t));
            }
        }
    }
}

/// Detaching the program that was just attached undoes the attachment:
/// binding the next callback id to a tracepoint and then unbinding it gives
/// back the same attachments and the same programs bound to each
/// tracepoint (only the callback counter has moved on).
pub proof fn lemma_detach_undoes_attach(t: &AttachTable, tp: u32)
    requires
        t.wf(),
    ensures
        t.attachments().insert(t.next_callback_id(), tp).remove(t.next_callback_id())
            == t.attachments(),
        events_after_bind(t.events(), tp, t.next_callback_id()).contains_key(tp),
        events_after_bind(t.events(), tp, t.next_callback_id())[tp].contains(t.next_callback_id()),
        events_after_unbind(
            events_after_bind(t.events(), tp, t.next_callback_id()),
            tp,
            t.next_callback_id(),
        ) == t.events(),
{
    let id = t.next_callback_id();
    assert(!t.attachments().contains_key(id));
    assert(t.attachments().insert(id, tp).remove(id) =~= t.attachments());
    let before = if t.events().contains_key(tp) {
        t.events()[tp]
    } else {
        Seq::empty()
    };
    assert(!before.contains(id)) by {
        if before.contains(id) {
            let i = choose|i: int| 0 <= i < before.len() && before[i] == id;
            assert(t.events()[tp][i] == id);
        }
    }
    let bound = before.push(id);
    assert(bound[before.len() as int] == id);
    assert(bound.drop_last() == before);
    lemma_without(before, id);
    assert(without(bound, id) == before);
    let after = events_after_unbind(events_after_bind(t.events(), tp, id), tp, id);
    assert(after =~= t.events());
}

} // verus!
