//! The bounded-concurrency pool's control state. The pool owns the active
//! argument builder and the admission accounting: it decides when an
//! invocation is ready, with which argument vector it is spawned, and how
//! many children may run at once. The driver around it performs the actual
//! spawns, polls and sleeps, and reports every event back to the pool.

use vstd::prelude::*;
use crate::args::{ArgBuilder, ArgBuilderMaker, ArgBuilderType, DynArgBuilderMaker};

verus! {

/// What a non-blocking poll of one tracked child reported.
pub enum PollOutcome {
    /// The child has not exited yet; it stays tracked.
    StillRunning,
    /// The child exited. Holds its captured standard output when output
    /// capture is on and the output could be read; a failed read counts as
    /// no output.
    Exited(Option<String>),
    /// Polling the child failed; the child is dropped from tracking as if
    /// it had been reaped.
    PollError,
}

/// How many of the polled children are still running.
pub open spec fn count_running(s: Seq<PollOutcome>) -> int
    decreases s.len(),
{
    if s.len() == 0 {
        0
    } else {
        count_running(s.drop_last()) + match s.last() {
            PollOutcome::StillRunning => 1int,
            PollOutcome::Exited(_) => 0int,
            PollOutcome::PollError => 0int,
        }
    }
}

pub proof fn lemma_count_running_le(s: Seq<PollOutcome>)
    ensures
        0 <= count_running(s) <= s.len(),
    decreases s.len(),
{
    if s.len() > 0 {
        lemma_count_running_le(s.drop_last());
    }
}

/// The captured outputs that one reaping pass flushes, in tracking order:
/// the output of every exited child whose captured output is non-empty.
pub open spec fn flush_list(s: Seq<PollOutcome>) -> Seq<Seq<char>>
    decreases s.len(),
{
    if s.len() == 0 {
        Seq::empty()
    } else {
        let rest = flush_list(s.drop_last());
        match s.last() {
            PollOutcome::Exited(out) => match out {
                Some(text) => if text@.len() > 0 {
                    rest.push(text@)
                } else {
                    rest
                },
                None => rest,
            },
            PollOutcome::StillRunning => rest,
            PollOutcome::PollError => rest,
        }
    }
}

/// The pool's control state: the program to spawn, the active builder, the
/// factory that replaces it after each spawn, and the count of children the
/// driver currently tracks.
pub struct ProcPool {
    pub program: String,
    pub max_parallelism: usize,
    pub proc_builder: ArgBuilderType,
    pub proc_builder_fn: DynArgBuilderMaker,
    pub running: usize,
    pub pipe_stdout: bool,
}

impl ProcPool {
    /// Pool invariant. In particular the capacity bound: the pool never
    /// tracks more than `max_parallelism` running children.
    pub open spec fn wf(&self) -> bool {
        &&& self.max_parallelism >= 1
        &&& self.running <= self.max_parallelism
        &&& self.proc_builder.wf()
        &&& self.proc_builder_fn.wf()
    }

    pub fn new(
        program: String,
        proc_builder_fn: DynArgBuilderMaker,
        max_parallelism: usize,
        pipe_stdout: bool,
    ) -> (r: ProcPool)
        requires
            proc_builder_fn.wf(),
            max_parallelism >= 1,
        ensures
            r.wf(),
            r.program == program,
            r.max_parallelism == max_parallelism,
            r.proc_builder_fn == proc_builder_fn,
            r.proc_builder_fn.makes(r.proc_builder),
            r.running == 0,
            r.pipe_stdout == pipe_stdout,
    {
        let proc_builder = proc_builder_fn.make();
        ProcPool { program, max_parallelism, proc_builder, proc_builder_fn, running: 0, pipe_stdout }
    }

    /// Feeds one token to the active builder. Returns true exactly when the
    /// builder finalized; the driver must then wait for a free slot, spawn
    /// with `prepare_spawn`'s arguments, and report it with `note_spawned`.
    pub fn push_arg(&mut self, arg: &str) -> (r: bool)
        requires
            old(self).wf(),
            old(self).proc_builder.can_push(),
        ensures
            final(self).wf(),
            ArgBuilderType::push_rel(
                old(self).proc_builder,
                arg@,
                final(self).proc_builder,
            ),
            r == final(self).proc_builder.finalized(),
            final(self).program == old(self).program,
            final(self).max_parallelism == old(self).max_parallelism,
            final(self).proc_builder_fn == old(self).proc_builder_fn,
            final(self).running == old(self).running,
            final(self).pipe_stdout == old(self).pipe_stdout,
    {
        self.proc_builder.push_arg(arg)
    }

    /// Hands out the argument vector of the pending spawn — the active
    /// builder's argument list — and replaces the builder with a fresh one
    /// from the factory. Spawning is the pool's only use for a viable
    /// builder, so viability is required here.
    pub fn prepare_spawn(&mut self) -> (argv: Vec<String>)
        requires
            old(self).wf(),
            old(self).proc_builder.spec_viable(),
        ensures
            final(self).wf(),
            argv.deep_view() == old(self).proc_builder.spec_args(),
            final(self).proc_builder_fn.makes(final(self).proc_builder),
            final(self).program == old(self).program,
            final(self).max_parallelism == old(self).max_parallelism,
            final(self).proc_builder_fn == old(self).proc_builder_fn,
            final(self).running == old(self).running,
            final(self).pipe_stdout == old(self).pipe_stdout,
    {
        let argv = self.proc_builder.arg_list();
        self.proc_builder = self.proc_builder_fn.make();
        argv
    }

    /// Records one spawned child. Admission control: a spawn needs a free
    /// slot, so the tracked count never exceeds `max_parallelism`.
    pub fn note_spawned(&mut self)
        requires
            old(self).wf(),
            old(self).running < old(self).max_parallelism,
        ensures
            final(self).wf(),
            final(self).running == old(self).running + 1,
            final(self).program == old(self).program,
            final(self).max_parallelism == old(self).max_parallelism,
            final(self).proc_builder == old(self).proc_builder,
            final(self).proc_builder_fn == old(self).proc_builder_fn,
            final(self).pipe_stdout == old(self).pipe_stdout,
    {
        self.running = self.running + 1;
    }

    /// Applies the results of one non-blocking poll over every tracked
    /// child: children that exited or failed to poll are dropped from
    /// tracking, and the captured outputs to print are handed back, in
    /// tracking order.
    #[verifier::loop_isolation(false)]
    pub fn reap(&mut self, outcomes: &Vec<PollOutcome>) -> (flush: Vec<String>)
        requires
            old(self).wf(),
            outcomes@.len() == old(self).running,
        ensures
            final(self).wf(),
            final(self).running == count_running(outcomes@),
            flush.deep_view() == flush_list(outcomes@),
            final(self).program == old(self).program,
            final(self).max_parallelism == old(self).max_parallelism,
            final(self).proc_builder == old(self).proc_builder,
            final(self).proc_builder_fn == old(self).proc_builder_fn,
            final(self).pipe_stdout == old(self).pipe_stdout,
    {
        let n: usize = outcomes.len();
        let mut still: usize = 0;
        let mut flush: Vec<String> = Vec::new();
        let mut k: usize = 0;
        while k < n
            invariant
                0 <= k <= n,
                still == count_running(outcomes@.take(k as int)),
                flush.deep_view() == flush_list(outcomes@.take(k as int)),
                self == old(self),
            decreases n - k,
        {
            proof {
                assert(outcomes@.take(k + 1 as int).drop_last() =~= outcomes@.take(k as int));
                assert(outcomes@.take(k + 1 as int).last() == outcomes@[k as int]);
                lemma_count_running_le(outcomes@.take(k as int));
            }
            match &outcomes[k] {
                PollOutcome::StillRunning => {
                    still = still + 1;
                },
                PollOutcome::Exited(out) => match out {
                    Some(text) => {
                        if !text.as_str().is_empty() {
                            let copy: String = text.clone();
                            let ghost pre = flush;
                            flush.push(copy);
                            proof {
                                crate::args::lemma_push_deep_view(pre, flush, flush@.last());
                            }
                        }
                    },
                    None => {},
                },
                PollOutcome::PollError => {},
            }
            k = k + 1;
        }
        proof {
            assert(outcomes@.take(n as int) =~= outcomes@);
            lemma_count_running_le(outcomes@);
        }
        self.running = still;
        flush
    }

    /// The end-of-input flush behind `wait_all`: a still-viable builder is
    /// spawned one last time — the driver receives the argument vector,
    /// spawns once below capacity, and reports it — while a non-viable
    /// builder is discarded unspawned.
    pub fn flush_viable(&mut self) -> (r: Option<Vec<String>>)
        requires
            old(self).wf(),
        ensures
            final(self).wf(),
            old(self).proc_builder.spec_viable() ==> (r matches Some(argv) && argv.deep_view()
                == old(self).proc_builder.spec_args() && final(self).proc_builder_fn.makes(
                final(self).proc_builder,
            )),
            !old(self).proc_builder.spec_viable() ==> r is None && *final(self) == *old(self),
            final(self).program == old(self).program,
            final(self).max_parallelism == old(self).max_parallelism,
            final(self).proc_builder_fn == old(self).proc_builder_fn,
            final(self).running == old(self).running,
            final(self).pipe_stdout == old(self).pipe_stdout,
    {
        if self.proc_builder.viable() {
            Some(self.prepare_spawn())
        } else {
            None
        }
    }

    /// Whether the active builder can take one more token. The driver
    /// checks this before `push_arg`; a false answer means the token stream
    /// is feeding a builder that can no longer count inputs, which the
    /// driver treats as a fatal programming error.
    pub fn builder_can_push(&self) -> (r: bool)
        ensures
            r == self.proc_builder.can_push(),
    {
        match &self.proc_builder {
            ArgBuilderType::Append(a) => a.args.len() < a.max_args,
            ArgBuilderType::Template(t) => t.finalized_count != t.arg_list.len() && t.idx
                < usize::MAX,
        }
    }

    /// Whether the active builder may be spawned at end of input.
    pub fn builder_viable(&self) -> (r: bool)
        requires
            self.wf(),
        ensures
            r == self.proc_builder.spec_viable(),
    {
        self.proc_builder.viable()
    }
}

/// Splits the positional arguments into the program to run and its fixed
/// leading arguments; with no positional argument the default program is
/// run with no fixed arguments.
#[verifier::loop_isolation(false)]
pub fn select_program(program: Vec<String>) -> (r: (String, Vec<String>))
    ensures
        program@.len() == 0 ==> r.0@ == "echo"@ && r.1@.len() == 0,
        program@.len() > 0 ==> r.0 == program@[0] && r.1.deep_view() == program.deep_view().skip(
            1,
        ),
{
    if program.len() == 0 {
        ("echo".to_owned(), Vec::new())
    } else {
        let name: String = program[0].clone();
        let n: usize = program.len();
        let mut rest: Vec<String> = Vec::new();
        let mut i: usize = 1;
        while i < n
            invariant
                1 <= i <= n,
                rest.deep_view() == program.deep_view().subrange(1, i as int),
            decreases n - i,
        {
            let s: String = program[i].clone();
            proof {
                assert(s == program@[i as int]);
            }
            let ghost pre = rest;
            rest.push(s);
            proof {
                crate::args::lemma_push_deep_view(pre, rest, rest@.last());
                let lhs: Seq<Seq<char>> = pre.deep_view().push(program.deep_view()[i as int]);
                let rhs: Seq<Seq<char>> = program.deep_view().subrange(1, i + 1 as int);
                assert(lhs =~= rhs);
            }
            i = i + 1;
        }
        proof {
            assert(program.deep_view().subrange(1, n as int) =~= program.deep_view().skip(1));
        }
        (name, rest)
    }
}

/// Capacity law: a well-formed pool never tracks more running children
/// than `max_parallelism`, and every pool operation preserves
/// well-formedness.
pub proof fn lemma_pool_capacity(p: ProcPool)
    requires
        p.wf(),
    ensures
        p.running <= p.max_parallelism,
{
}

} // verus!
