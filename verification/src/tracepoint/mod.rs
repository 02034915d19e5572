//! Tracepoints: the programs bound to each, the description of all of
//! them, and the kernel facts that trace records carry.

pub mod hook;

use vstd::prelude::*;
use vstd::string::{StringExecFns, StringSliceAdditionalSpecFns};

use crate::reply::{empty_reply, text};

verus! {

/// The formats, each followed by a newline, in order.
pub open spec fn information_text(formats: Seq<Seq<char>>) -> Seq<char>
    decreases formats.len(),
{
    if formats.len() == 0 {
        Seq::empty()
    } else {
        information_text(formats.drop_last()) + formats.last() + "\n"@
    }
}

/// The description grows by one line per tracepoint: describing no
/// tracepoint gives nothing, one gives its format and a newline, and one
/// more after a list gives the list's description followed by the new
/// format and a newline; describing two lists one after the other gives the
/// two descriptions one after the other.
pub proof fn lemma_information_one_line_each(
    formats: Seq<Seq<char>>,
    more: Seq<Seq<char>>,
    f: Seq<char>,
)
    ensures
        information_text(Seq::<Seq<char>>::empty()) == Seq::<char>::empty(),
        information_text(seq![f]) == f + "\n"@,
        information_text(formats.push(f)) == information_text(formats) + f + "\n"@,
        information_text(formats + more) == information_text(formats) + information_text(more),
    decreases more.len(),
{
    assert(formats.push(f).drop_last() == formats);
    assert(seq![f].drop_last() == Seq::<Seq<char>>::empty());
    assert(seq![f].last() == f);
    assert(information_text(Seq::<Seq<char>>::empty()) == Seq::<char>::empty());
    assert(Seq::<char>::empty() + f == f);
    if more.len() == 0 {
        assert(formats + more == formats);
        assert(information_text(formats) + Seq::<char>::empty() == information_text(formats));
    } else {
        lemma_information_one_line_each(formats, more.drop_last(), f);
        assert((formats + more).drop_last() == formats + more.drop_last());
        assert((formats + more).last() == more.last());
        let a = information_text(formats);
        let b = information_text(more.drop_last());
        assert(a + (b + more.last() + "\n"@) == a + b + more.last() + "\n"@);
    }
}

/// The description of all tracepoints: the print format of each, as the
/// tracepoint registry lists them, each on a line of its own.
pub fn tracepoint_infomation(formats: &Vec<String>) -> (info: String)
    ensures
        info@ == information_text(formats@.map_values(|f: String| f@)),
{
    let ghost views = formats@.map_values(|f: String| f@);
    let mut info = String::new();
    let mut i: usize = 0;
    while i < formats.len()
        invariant
            i <= formats@.len(),
            views == formats@.map_values(|f: String| f@),
            info@ == information_text(views.take(i as int)),
        decreases formats@.len() - i,
    {
        proof {
            assert(views.take(i + 1).drop_last() == views.take(i as int));
            assert(views.take(i + 1).last() == formats@[i as int]@);
        }
        info.append(formats[i].as_str());
        info.append("\n");
        i = i + 1;
    }
    proof {
        assert(views.take(i as int) == views);
    }
    info
}

/// The reply to enabling or disabling a tracepoint, by whether the
/// tracepoint registry found it (and switched it): `Tracepoint not found`
/// when it did not.
pub fn tracepoint_switch_reply(found: bool) -> (r: Result<Vec<u8>, Vec<u8>>)
    ensures
        found ==> (r matches Ok(m) && m@.len() == 0),
        !found ==> (r matches Err(e) && e@ == "Tracepoint not found".spec_bytes()),
{
    if found {
        Ok(empty_reply())
    } else {
        Err(text("Tracepoint not found"))
    }
}

/// What the kernel tells the tracing machinery about the current context.
pub struct Kops;

impl Kops {
    /// The process id that trace records carry: the kernel reports none,
    /// as `u32::MAX`.
    pub fn current_pid() -> (pid: u32)
        ensures
            pid == u32::MAX,
    {
        u32::MAX
    }

    /// The time stamp of a trace record, from the system time in
    /// microseconds when it could be read (else 0), as `u64`.
    pub fn time_now(usec: Option<i64>) -> (t: u64)
        ensures
            t == (match usec {
                Some(u) => u as u64,
                None => 0u64,
            }),
    {
        match usec {
            Some(u) => u as u64,
            None => 0,
        }
    }
}

} // verus!
