//! The observer of the correctness step: before each run the step is set to
//! zero, after the run it holds how far the target got through its checks.
use vstd::prelude::*;

verus! {

/// The last correctness step observed, under the observer's name.
///
/// The cell that the target writes the step into (a shared-memory word or a
/// global of the process) is held by the caller, which reads it after each run
/// and hands the value to [`CorrectnessObserver::post_exec`].
#[derive(Debug)]
pub struct CorrectnessObserver {
    step: usize,
    name: String,
}

impl CorrectnessObserver {
    /// The step observed after the last run (zero before any run).
    pub closed spec fn step_value(&self) -> usize {
        self.step
    }

    /// The observer's name.
    pub closed spec fn name_text(&self) -> Seq<char> {
        self.name@
    }

    /// An observer whose step is read from a shared-memory cell.
    pub fn new(name: String) -> (r: Self)
        ensures
            r.step_value() == 0,
            r.name_text() == name@,
    {
        CorrectnessObserver { step: 0, name }
    }

    /// An observer whose step is read from the process-wide step counter.
    pub fn new_global(name: String) -> (r: Self)
        ensures
            r.step_value() == 0,
            r.name_text() == name@,
    {
        CorrectnessObserver { step: 0, name }
    }

    /// The step observed after the last run.
    pub fn step(&self) -> (r: usize)
        ensures
            r == self.step_value(),
    {
        self.step
    }

    /// The observer's name.
    pub fn name(&self) -> (r: &String)
        ensures
            r@ == self.name_text(),
    {
        &self.name
    }

    /// Before a run: the step starts again from zero (the caller zeroes the cell too).
    pub fn pre_exec(&mut self)
        ensures
            final(self).step_value() == 0,
            final(self).name_text() == old(self).name_text(),
    {
        self.step = 0;
    }

    /// After a run: the step is the value that the cell holds.
    pub fn post_exec(&mut self, observed: usize)
        ensures
            final(self).step_value() == observed,
            final(self).name_text() == old(self).name_text(),
    {
        self.step = observed;
    }
}

} // verus!
