//! Per-CPU values of eBPF maps on a kernel that runs eBPF on one CPU.

use vstd::prelude::*;

verus! {

/// Creates per-CPU values and tells how many CPUs there are.
pub struct HermitPerCpu;

impl HermitPerCpu {
    /// One value per CPU, each a copy of `value`: here a single one.
    pub fn create<T>(value: T) -> (v: HermitPerCpuVariants<T>)
        ensures
            v@ == seq![value],
    {
        let mut values: Vec<T> = Vec::new();
        values.push(value);
        HermitPerCpuVariants(values)
    }

    /// The number of CPUs that eBPF programs run on.
    pub fn num_cpus() -> (n: u32)
        ensures
            n == 1,
    {
        1
    }
}

/// The per-CPU copies of a value, indexed by CPU number.
pub struct HermitPerCpuVariants<T>(Vec<T>);

impl<T> View for HermitPerCpuVariants<T> {
    type V = Seq<T>;

    closed spec fn view(&self) -> Seq<T> {
        self.0@
    }
}

impl<T> HermitPerCpuVariants<T> {
    /// The value of the current CPU, the first one.
    pub fn get(&self) -> (r: &T)
        requires
            self@.len() > 0,
        ensures
            *r == self@[0],
    {
        &self.0[0]
    }

    /// The value of the current CPU, the first one, to change in place.
    pub fn get_mut(&mut self) -> (r: &mut T)
        requires
            old(self)@.len() > 0,
        ensures
            *r == old(self)@[0],
            final(self)@ == old(self)@.update(0, *final(r)),
    {
        &mut self.0[0]
    }

    /// The value of CPU `cpu`.
    pub fn force_get(&self, cpu: u32) -> (r: &T)
        requires
            cpu < self@.len(),
        ensures
            *r == self@[cpu as int],
    {
        &self.0[cpu as usize]
    }

    /// The value of CPU `cpu`, to change in place.
    pub fn force_get_mut(&mut self, cpu: u32) -> (r: &mut T)
        requires
            cpu < old(self)@.len(),
        ensures
            *r == old(self)@[cpu as int],
            final(self)@ == old(self)@.update(cpu as int, *final(r)),
    {
        &mut self.0[cpu as usize]
    }
}

} // verus!
