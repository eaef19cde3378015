//! The protocol with the execution engine, as far as it is decided here: the
//! phases of one run, the configuration handed to the engine, and the decoding
//! of the engine's output into a grouping.

use vstd::prelude::*;
use crate::error::HarnessError;
use crate::grouping::GroupingResult;

verus! {

/// A borrowed view of a contiguous run of elements, in the shape in which the
/// engine takes its input and gives its output: the elements and their number.
///
/// The view lends the elements for as long as it lives and owns none of them.
#[derive(Clone, Copy, Debug)]
pub struct WeldVec<'a, T> {
    pub data: &'a [T],
    pub size: i64,
}

impl<'a, T> WeldVec<'a, T> {
    /// Whether the recorded size is the number of elements in view.
    pub open spec fn wf(&self) -> bool {
        self.size == self.data@.len()
    }

    /// A view of `data` that records `size` as the number of its elements.
    pub fn new(data: &'a [T], size: i64) -> (view: Self)
        ensures
            view.data@ == data@,
            view.size == size,
            view.wf() <==> size == data@.len(),
    {
        WeldVec { data: data, size: size }
    }

    /// The view of a whole dataset, as it is lent to the engine for one
    /// execution.
    pub fn lend(dataset: &'a Vec<T>) -> (view: Self)
        requires
            dataset@.len() <= i64::MAX,
        ensures
            view.data@ == dataset@,
            view.size == dataset@.len(),
            view.wf(),
    {
        WeldVec { data: dataset.as_slice(), size: dataset.len() as i64 }
    }
}

/// One element of the engine's output: a key and what the engine grouped
/// under it.
#[derive(Clone, Copy, Debug)]
pub struct Pair<T, U> {
    pub e1: T,
    pub e2: U,
}

/// The options that the engine is run with.
#[derive(Clone, Copy, Debug, PartialEq, Eq, Structural)]
pub struct ExecutionConfig {
    /// The ceiling on the engine's memory, in bytes, where one is set.
    pub memory_limit: Option<u64>,
}

impl ExecutionConfig {
    /// A configuration that sets no option.
    pub fn new() -> (config: ExecutionConfig)
        ensures
            config.memory_limit is None,
    {
        ExecutionConfig { memory_limit: None }
    }

    /// Sets the memory ceiling to `bytes`.
    pub fn set_memory_limit(&mut self, bytes: u64)
        ensures
            final(self).memory_limit == Some(bytes),
    {
        self.memory_limit = Some(bytes);
    }
}

/// How far one run against the engine has come.
#[derive(Clone, Copy, Debug, PartialEq, Eq, Structural)]
pub enum AdapterState {
    Uncompiled,
    Compiled,
    Executed,
    Extracted,
}

impl AdapterState {
    /// The position of the phase in the run.
    pub open spec fn rank(self) -> int {
        match self {
            AdapterState::Uncompiled => 0,
            AdapterState::Compiled => 1,
            AdapterState::Executed => 2,
            AdapterState::Extracted => 3,
        }
    }

    /// The phase in which every run starts.
    pub fn new() -> (state: AdapterState)
        ensures
            state == AdapterState::Uncompiled,
    {
        AdapterState::Uncompiled
    }

    /// The phase after the engine has answered a compilation request:
    /// `Compiled` where it accepted the program, `CompileError` where it did not.
    pub fn after_compile(self, accepted: bool) -> (next: Result<AdapterState, HarnessError>)
        requires
            self == AdapterState::Uncompiled,
        ensures
            next is Ok ==> next->Ok_0.rank() == self.rank() + 1,
            accepted ==> next == Ok::<AdapterState, HarnessError>(AdapterState::Compiled),
            !accepted ==> next == Err::<AdapterState, HarnessError>(HarnessError::CompileError),
    {
        if accepted {
            Ok(AdapterState::Compiled)
        } else {
            Err(HarnessError::CompileError)
        }
    }

    /// The phase after the engine has run the program: `Executed` where it
    /// ran to completion, `RuntimeError` where it aborted.
    pub fn after_execute(self, completed: bool) -> (next: Result<AdapterState, HarnessError>)
        requires
            self == AdapterState::Compiled,
        ensures
            next is Ok ==> next->Ok_0.rank() == self.rank() + 1,
            completed ==> next == Ok::<AdapterState, HarnessError>(AdapterState::Executed),
            !completed ==> next == Err::<AdapterState, HarnessError>(HarnessError::RuntimeError),
    {
        if completed {
            Ok(AdapterState::Executed)
        } else {
            Err(HarnessError::RuntimeError)
        }
    }

    /// The phase after the output has been decoded.
    pub fn after_extract(self) -> (next: AdapterState)
        requires
            self == AdapterState::Executed,
        ensures
            next == AdapterState::Extracted,
            next.rank() == self.rank() + 1,
    {
        AdapterState::Extracted
    }
}

/// The grouping that an output stands for: each key with the length of its
/// inner sequence, in the order of the output.
pub open spec fn decoded(output: Seq<Pair<i32, WeldVec<'_, i32>>>) -> Seq<(i32, u64)> {
    Seq::new(output.len(), |i: int| (output[i].e1, output[i].e2.data@.len() as u64))
}

/// Decodes the engine's output into a grouping: the count of each key is the
/// length of its inner sequence. The entries are copied out in the order in
/// which the engine gave them, and the grouping keeps no reference to the
/// output.
pub fn extract(output: &Vec<Pair<i32, WeldVec<'_, i32>>>) -> (result: GroupingResult)
    ensures
        result@ == decoded(output@),
        result@.len() == output@.len(),
{
    let mut entries: Vec<(i32, u64)> = Vec::with_capacity(output.len());
    let mut at: usize = 0;
    while at < output.len()
        invariant
            at <= output.len(),
            entries@ == decoded(output@).take(at as int),
        decreases output.len() - at,
    {
        let entry: (i32, u64) = (output[at].e1, output[at].e2.data.len() as u64);
        entries.push(entry);
        proof {
            assert(decoded(output@).take(at as int).push(entry) =~= decoded(output@).take(
                at as int + 1,
            ));
        }
        at = at + 1;
    }
    proof {
        assert(decoded(output@).take(at as int) =~= decoded(output@));
    }
    GroupingResult { entries }
}

} // verus!
