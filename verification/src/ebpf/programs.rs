//! The registry of loaded eBPF programs, keyed by name.

use vstd::prelude::*;
use vstd::string::StringSliceAdditionalSpecFns;

use crate::reply::{empty_reply, text};

verus! {

/// Whether no two entries carry the same name.
pub open spec fn unique_names<P>(s: Seq<(String, P)>) -> bool {
    forall|i: int, j: int| 0 <= i < j < s.len() ==> #[trigger] s[i].0@ != #[trigger] s[j].0@
}

/// The entries read as a map from name to program.
pub open spec fn entries_map<P>(s: Seq<(String, P)>) -> Map<Seq<char>, P>
    decreases s.len(),
{
    if s.len() == 0 {
        Map::empty()
    } else {
        entries_map(s.drop_last()).insert(s.last().0@, s.last().1)
    }
}

proof fn lemma_entries_map_contains<P>(s: Seq<(String, P)>, k: Seq<char>)
    ensures
        entries_map(s).contains_key(k) <==> exists|i: int| 0 <= i < s.len() && s[i].0@ == k,
    decreases s.len(),
{
    if s.len() > 0 {
        lemma_entries_map_contains(s.drop_last(), k);
        if entries_map(s).contains_key(k) && s.last().0@ != k {
            let i = choose|i: int| 0 <= i < s.drop_last().len() && s.drop_last()[i].0@ == k;
            assert(s[i].0@ == k);
        }
        if exists|i: int| 0 <= i < s.len() && s[i].0@ == k {
            let i = choose|i: int| 0 <= i < s.len() && s[i].0@ == k;
            if i < s.len() - 1 {
                assert(s.drop_last()[i].0@ == k);
            }
        }
    }
}

proof fn lemma_entries_map_value<P>(s: Seq<(String, P)>, i: int)
    requires
        unique_names(s),
        0 <= i < s.len(),
    ensures
        entries_map(s).contains_key(s[i].0@),
        entries_map(s)[s[i].0@] == s[i].1,
    decreases s.len(),
{
    if i < s.len() - 1 {
        let t = s.drop_last();
        assert(t[i] == s[i]);
        assert(unique_names(t)) by {
            assert forall|a: int, b: int| 0 <= a < b < t.len() implies #[trigger] t[a].0@
                != #[trigger] t[b].0@ by {
                assert(t[a] == s[a] && t[b] == s[b]);
            }
        }
        lemma_entries_map_value(t, i);
        assert(s[i].0@ != s.last().0@);
    }
}

proof fn lemma_entries_map_remove<P>(s: Seq<(String, P)>, i: int)
    requires
        unique_names(s),
        0 <= i < s.len(),
    ensures
        entries_map(s.remove(i)) == entries_map(s).remove(s[i].0@),
    decreases s.len(),
{
    let t = s.drop_last();
    assert(unique_names(t)) by {
        assert forall|a: int, b: int| 0 <= a < b < t.len() implies #[trigger] t[a].0@
            != #[trigger] t[b].0@ by {
            assert(t[a] == s[a] && t[b] == s[b]);
        }
    }
    if i == s.len() - 1 {
        assert(s.remove(i) =~= t);
        lemma_entries_map_contains(t, s[i].0@);
        if entries_map(t).contains_key(s[i].0@) {
            let j = choose|j: int| 0 <= j < t.len() && t[j].0@ == s[i].0@;
            assert(t[j] == s[j]);
        }
        assert(entries_map(t) =~= entries_map(s).remove(s[i].0@));
    } else {
        lemma_entries_map_remove(t, i);
        assert(s.remove(i) =~= t.remove(i).push(s.last()));
        assert(s.remove(i).drop_last() =~= t.remove(i));
        assert(s[i] == t[i]);
        assert(s[i].0@ != s.last().0@);
        assert(entries_map(s.remove(i)) =~= entries_map(s).remove(s[i].0@));
    }
}

/// The loaded eBPF programs, each under a name of its own: a vector of
/// named entries, searched by name.
pub struct ProgramTable<P> {
    entries: Vec<(String, P)>,
}

impl<P> View for ProgramTable<P> {
    type V = Map<Seq<char>, P>;

    closed spec fn view(&self) -> Map<Seq<char>, P> {
        entries_map(self.entries@)
    }
}

impl<P> ProgramTable<P> {
    #[verifier::type_invariant]
    spec fn names_are_unique(&self) -> bool {
        unique_names(self.entries@)
    }

    /// An empty registry.
    pub fn new() -> (t: Self)
        ensures
            t@ == Map::<Seq<char>, P>::empty(),
    {
        ProgramTable { entries: Vec::new() }
    }

    /// The position of the entry named `name`, if there is one.
    fn find(&self, name: &String) -> (r: Option<usize>)
        ensures
            match r {
                Some(i) => i < self.entries@.len() && self.entries@[i as int].0@ == name@,
                None => forall|i: int|
                    0 <= i < self.entries@.len() ==> self.entries@[i].0@ != name@,
            },
    {
        let mut i: usize = 0;
        while i < self.entries.len()
            invariant
                i <= self.entries@.len(),
                forall|j: int| 0 <= j < i ==> self.entries@[j].0@ != name@,
            decreases self.entries@.len() - i,
        {
            if self.entries[i].0 == *name {
                return Some(i);
            }
            i = i + 1;
        }
        None
    }

    /// Whether a program is loaded under `name`.
    pub fn contains(&self, name: &String) -> (r: bool)
        ensures
            r == self@.contains_key(name@),
    {
        proof {
            lemma_entries_map_contains(self.entries@, name@);
        }
        self.find(name).is_some()
    }

    /// The program loaded under `name`, if any.
    pub fn get(&self, name: &String) -> (r: Option<&P>)
        ensures
            match r {
                Some(p) => self@.contains_key(name@) && *p == self@[name@],
                None => !self@.contains_key(name@),
            },
    {
        proof {
            use_type_invariant(self);
            lemma_entries_map_contains(self.entries@, name@);
        }
        match self.find(name) {
            Some(i) => {
                proof {
                    lemma_entries_map_value(self.entries@, i as int);
                }
                Some(&self.entries[i].1)
            },
            None => None,
        }
    }

    /// Loads a program under `name`: refused with `Program already loaded`
    /// when the name is taken, the programs unchanged; otherwise the program
    /// that `preprocess` makes of `program_data` is stored under `name` and
    /// the reply is empty.
    pub fn load_program<F: FnOnce(Vec<u8>) -> P>(
        &mut self,
        name: String,
        program_data: Vec<u8>,
        preprocess: F,
    ) -> (r: Result<Vec<u8>, Vec<u8>>)
        requires
            preprocess.requires((program_data,)),
        ensures
            old(self)@.contains_key(name@) ==> {
                &&& r matches Err(e) && e@ == "Program already loaded".spec_bytes()
                &&& final(self)@ == old(self)@
            },
            !old(self)@.contains_key(name@) ==> {
                &&& r matches Ok(m) && m@.len() == 0
                &&& exists|p: P|
                    preprocess.ensures((program_data,), p) && final(self)@ == old(self)@.insert(
                        name@,
                        p,
                    )
            },
    {
        proof {
            use_type_invariant(&*self);
        }
        if self.contains(&name) {
            return Err(text("Program already loaded"));
        }
        let program = preprocess(program_data);
        proof {
            lemma_entries_map_contains(self.entries@, name@);
        }
        let mut entries: Vec<(String, P)> = Vec::new();
        std::mem::swap(&mut entries, &mut self.entries);
        let ghost key = name@;
        let ghost stored = program;
        entries.push((name, program));
        proof {
            assert(entries@.drop_last() == old(self).entries@);
            assert(entries_map(entries@) == entries_map(old(self).entries@).insert(key, stored));
        }
        self.entries = entries;
        Ok(empty_reply())
    }

    /// Removes the program loaded under `name`; `Program not found` when
    /// there is none.
    pub fn remove_program(&mut self, name: &String) -> (r: Result<Vec<u8>, Vec<u8>>)
        ensures
            old(self)@.contains_key(name@) ==> {
                &&& r matches Ok(m) && m@.len() == 0
                &&& final(self)@ == old(self)@.remove(name@)
            },
            !old(self)@.contains_key(name@) ==> {
                &&& r matches Err(e) && e@ == "Program not found".spec_bytes()
                &&& final(self)@ == old(self)@
            },
    {
        proof {
            use_type_invariant(&*self);
            lemma_entries_map_contains(self.entries@, name@);
        }
        match self.find(name) {
            Some(i) => {
                proof {
                    lemma_entries_map_remove(self.entries@, i as int);
                }
                let mut entries: Vec<(String, P)> = Vec::new();
                std::mem::swap(&mut entries, &mut self.entries);
                let _removed = entries.remove(i);
                proof {
                    assert forall|a: int, b: int| 0 <= a < b < entries@.len() implies
                        #[trigger] entries@[a].0@ != #[trigger] entries@[b].0@ by {
                        let s = old(self).entries@;
                        assert(entries@ == s.remove(i as int));
                        let a0 = if a < i { a } else { a + 1 };
                        let b0 = if b < i { b } else { b + 1 };
                        assert(entries@[a] == s[a0] && entries@[b] == s[b0]);
                    }
                }
                self.entries = entries;
                Ok(empty_reply())
            },
            None => Err(text("Program not found")),
        }
    }
}

/// Removing the program that was just loaded undoes the load: storing a
/// program under a name that was free and removing that name gives back the
/// same programs.
pub proof fn lemma_remove_undoes_load<P>(t: &ProgramTable<P>, name: Seq<char>, program: P)
    requires
        !t@.contains_key(name),
    ensures
        t@.insert(name, program).remove(name) == t@,
{
    assert(t@.insert(name, program).remove(name) =~= t@);
}

} // verus!
