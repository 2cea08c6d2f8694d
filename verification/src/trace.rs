//! Stack traces of the target's threads, as the stack sampler hands them
//! over, and the rule that picks the threads to blame for a stall.

use crate::shmem::ThreadHint;
use vstd::prelude::*;

verus! {

/// A local variable of a sampled frame.
#[derive(Clone, Debug, PartialEq, Eq)]
pub struct Local {
    /// The variable's name.
    pub name: String,
    /// The printed form of the variable's value, where the sampler got one.
    pub repr: Option<String>,
}

/// One call of a sampled stack.
#[derive(Clone, Debug, PartialEq, Eq)]
pub struct Frame {
    /// The name of the function.
    pub name: String,
    /// The file that holds the function.
    pub filename: String,
    /// The line in that file; zero where none is known.
    pub line: i32,
    /// The frame's local variables, where they were sampled.
    pub locals: Option<Vec<Local>>,
}

/// The sampled stack of one thread.
#[derive(Clone, Debug, PartialEq, Eq)]
pub struct StackTrace {
    /// The id of the thread.
    pub thread_id: u64,
    /// Whether the thread held the global lock when it was sampled.
    pub owns_gil: bool,
    /// What the thread was doing, in the sampler's words.
    pub status: String,
    /// The frames, deepest call first.
    pub frames: Vec<Frame>,
}

impl ThreadHint {
    /// Whether the hint points at the thread of `trace`: for the global-lock
    /// hint, the thread that holds the lock; for a thread id, the thread with
    /// that id.
    pub open spec fn spec_relevant(self, trace: &StackTrace) -> bool {
        if self.0 == 0 {
            trace.owns_gil
        } else {
            trace.thread_id == self.0
        }
    }

    /// Whether the hint points at the thread of `trace`.
    #[verifier::when_used_as_spec(spec_relevant)]
    pub fn relevant(self, trace: &StackTrace) -> (r: bool)
        ensures
            r == self.spec_relevant(trace),
    {
        if self.is_gil() {
            trace.owns_gil
        } else {
            trace.thread_id == self.0 as u64
        }
    }
}

/// The traces that the hint points at, in their order.
pub open spec fn relevant_traces(hint: ThreadHint, traces: Seq<StackTrace>) -> Seq<StackTrace> {
    traces.filter(|t: StackTrace| hint.spec_relevant(&t))
}

/// The traces that the hint does not point at, in their order.
pub open spec fn other_traces(hint: ThreadHint, traces: Seq<StackTrace>) -> Seq<StackTrace> {
    traces.filter(|t: StackTrace| !hint.spec_relevant(&t))
}

/// The traces behind the references.
pub open spec fn referents(refs: Seq<&StackTrace>) -> Seq<StackTrace> {
    Seq::new(refs.len(), |i: int| *refs[i])
}

/// Splits the dumped traces into those of the threads that are probably
/// responsible for the stall, and the others. Both lists keep the order of
/// the dump.
pub fn split_traces<'a>(hint: ThreadHint, traces: &'a Vec<StackTrace>) -> (r: (
    Vec<&'a StackTrace>,
    Vec<&'a StackTrace>,
))
    ensures
        referents(r.0@) == relevant_traces(hint, traces@),
        referents(r.1@) == other_traces(hint, traces@),
{
    let mut relevant: Vec<&'a StackTrace> = Vec::new();
    let mut rest: Vec<&'a StackTrace> = Vec::new();
    let mut i: usize = 0;
    proof {
        reveal(Seq::filter);
        assert(referents(relevant@) =~= relevant_traces(hint, traces@.subrange(0, 0)));
        assert(referents(rest@) =~= other_traces(hint, traces@.subrange(0, 0)));
    }
    while i < traces.len()
        invariant
            i <= traces.len(),
            referents(relevant@) == relevant_traces(hint, traces@.subrange(0, i as int)),
            referents(rest@) == other_traces(hint, traces@.subrange(0, i as int)),
        decreases traces.len() - i,
    {
        let trace = &traces[i];
        proof {
            let prefix = traces@.subrange(0, i as int);
            assert(traces@.subrange(0, i + 1) =~= prefix.push(traces@[i as int]));
            prefix.lemma_filter_push(traces@[i as int], |t: StackTrace| hint.spec_relevant(&t));
            prefix.lemma_filter_push(traces@[i as int], |t: StackTrace| !hint.spec_relevant(&t));
        }
        if hint.relevant(trace) {
            relevant.push(trace);
            proof {
                assert(referents(relevant@) =~= relevant_traces(hint, traces@.subrange(0, i + 1)));
            }
        } else {
            rest.push(trace);
            proof {
                assert(referents(rest@) =~= other_traces(hint, traces@.subrange(0, i + 1)));
            }
        }
        i = i + 1;
    }
    proof {
        assert(traces@.subrange(0, traces@.len() as int) =~= traces@);
    }
    (relevant, rest)
}

/// A trace of the dump is classified as relevant exactly if the hint points
/// at its thread: for the global-lock hint, exactly the threads that hold the
/// lock; for a thread id, exactly the threads with that id. Every other trace
/// is classified among the rest.
pub proof fn lemma_attribution(hint: ThreadHint, traces: Seq<StackTrace>, i: int)
    requires
        0 <= i < traces.len(),
    ensures
        relevant_traces(hint, traces).contains(traces[i]) <==> hint.spec_relevant(&traces[i]),
        other_traces(hint, traces).contains(traces[i]) <==> !hint.spec_relevant(&traces[i]),
        hint.0 == 0 ==> (relevant_traces(hint, traces).contains(traces[i]) <==> traces[i].owns_gil),
        hint.0 != 0 ==> (relevant_traces(hint, traces).contains(traces[i]) <==> traces[i].thread_id
            == hint.0),
{
    let yes = |t: StackTrace| hint.spec_relevant(&t);
    let no = |t: StackTrace| !hint.spec_relevant(&t);
    if hint.spec_relevant(&traces[i]) {
        traces.lemma_filter_contains(yes, i);
        if traces.filter(no).contains(traces[i]) {
            let k = choose|k: int| 0 <= k < traces.filter(no).len() && traces.filter(no)[k] == traces[i];
            traces.lemma_filter_pred(no, k);
        }
    } else {
        traces.lemma_filter_contains(no, i);
        if traces.filter(yes).contains(traces[i]) {
            let k = choose|k: int|
                0 <= k < traces.filter(yes).len() && traces.filter(yes)[k] == traces[i];
            traces.lemma_filter_pred(yes, k);
        }
    }
}

} // verus!
