//! The shell's state: the prompt, the command history, and the registry of
//! background jobs.
//!
//! The registry is mutated only here, on the caller's single control thread:
//! a job is appended when a background pipeline reports its process id, the
//! liveness sweep removes the jobs whose supervisors have reported
//! completion, and at exit every still-registered process id is handed back
//! for a termination signal, without waiting.

use vstd::prelude::*;
use crate::exec::{Directive, dispatch};
use crate::numfmt::{format_pid, spec_digits};
use crate::process::BgProcess;

verus! {

/// The jobs that remain after the liveness sweep: exactly those whose
/// `finished` flag is false, in their original order.
pub open spec fn keep_unfinished(ps: Seq<BgProcess>, finished: Seq<bool>) -> Seq<BgProcess>
    decreases ps.len(),
{
    if ps.len() == 0 {
        Seq::empty()
    } else {
        let rest = keep_unfinished(ps.drop_first(), finished.drop_first());
        if finished[0] {
            rest
        } else {
            seq![ps[0]] + rest
        }
    }
}

/// The process ids of the registered jobs that have one, in order.
pub open spec fn pids_of(ps: Seq<BgProcess>) -> Seq<i32>
    decreases ps.len(),
{
    if ps.len() == 0 {
        Seq::empty()
    } else {
        match ps[0].pid {
            Some(p) => seq![p] + pids_of(ps.drop_first()),
            None => pids_of(ps.drop_first()),
        }
    }
}

/// One line of the job listing: the command, and the process id when the
/// supervisor has reported one.
pub open spec fn spec_job_line(j: BgProcess) -> Seq<char> {
    match j.pid {
        Some(p) => j.command@ + seq![' '] + spec_digits(p as nat),
        None => j.command@,
    }
}

/// The history joined for display: entries separated by newlines, except
/// that entries are only appended once a first non-empty one has been seen.
pub open spec fn hist_join(acc: Seq<char>, h: Seq<Seq<char>>) -> Seq<char>
    decreases h.len(),
{
    if h.len() == 0 {
        acc
    } else if acc.len() == 0 {
        hist_join(h[0], h.drop_first())
    } else {
        hist_join(acc + seq!['\n'] + h[0], h.drop_first())
    }
}

/// A registered job's process id is never negative: the OS hands out
/// non-negative ids, and the registry only accepts such.
pub open spec fn jobs_wf(ps: Seq<BgProcess>) -> bool {
    forall|i: int|
        0 <= i < ps.len() ==> match (#[trigger] ps[i]).pid {
            Some(p) => p >= 0,
            None => true,
        }
}

/// The shell: its prompt, its command history, and its background jobs.
pub struct Shell {
    pub cmd_prompt: String,
    pub history: Vec<String>,
    pub processes: Vec<BgProcess>,
    pub broken: bool,
}

impl Shell {
    /// Whether every registered job is well formed.
    pub open spec fn wf(self) -> bool {
        jobs_wf(self.processes@)
    }

    pub fn new(prompt_str: &str) -> (r: Shell)
        ensures
            r.cmd_prompt@ == prompt_str@,
            r.history@.len() == 0,
            r.processes@.len() == 0,
            !r.broken,
            r.wf(),
    {
        Shell {
            cmd_prompt: String::from_str(prompt_str),
            history: Vec::new(),
            processes: Vec::new(),
            broken: false,
        }
    }

    /// Decide what one raw command line asks for. The decision is
    /// `dispatch`'s; the shell itself is not touched - registering a job,
    /// recording history and sweeping the registry are separate steps the
    /// caller takes around the launch.
    pub fn run_cmdline(&self, cmd_line: &str) -> (d: Directive)
        ensures
            ({
                let parsed = crate::parser::spec_parse(crate::lexer::spec_lex(cmd_line@));
                match parsed {
                    None => d matches Directive::Rejected(crate::exec::RejectReason::Syntax(e)) && (
                    e == crate::parser::ParseError::DanglingOperator <==> crate::parser::parse_run(
                        crate::lexer::spec_lex(cmd_line@),
                        crate::parser::initial_parse_state(),
                    ) is None),
                    Some(chain) => {
                        if crate::exec::bare_background(chain) {
                            d matches Directive::Background { program, argv } && program@
                                == chain[0].program && crate::lexer::views_of(argv@)
                                == chain[0].argv.drop_last()
                        } else if crate::exec::any_bg_marker(chain) {
                            d matches Directive::Rejected(
                                crate::exec::RejectReason::BackgroundNotBare,
                            )
                        } else if crate::exec::has_middle_write(chain) {
                            d matches Directive::Rejected(
                                crate::exec::RejectReason::WriteRedirectNotLast,
                            )
                        } else {
                            d matches Directive::Foreground(p) && crate::exec::plan_views(p.stages@)
                                == crate::exec::spec_plan(chain) && (match p.write_to {
                                Some(f) => Some(f@),
                                None => None,
                            }) == crate::exec::spec_write_to(chain)
                        }
                    },
                }
            }),
    {
        dispatch(cmd_line)
    }

    /// Push a new command onto the history.
    pub fn push_hist(&mut self, cmd_line: &str)
        ensures
            crate::lexer::views_of(final (self).history@) == crate::lexer::views_of(
                old(self).history@,
            ).push(cmd_line@),
            final (self).processes == old(self).processes,
            final (self).cmd_prompt == old(self).cmd_prompt,
            final (self).broken == old(self).broken,
            old(self).wf() ==> final (self).wf(),
    {
        self.history.push(String::from_str(cmd_line));
        proof {
            assert(crate::lexer::views_of(self.history@) =~= crate::lexer::views_of(
                old(self).history@,
            ).push(cmd_line@));
        }
    }

    /// The history joined for display, newest entry last.
    pub fn show_hist(&self) -> (r: String)
        ensures
            r@ == hist_join(Seq::empty(), crate::lexer::views_of(self.history@)),
    {
        let mut hist = String::new();
        let mut i: usize = 0;
        let n = self.history.len();
        proof {
            let entries = crate::lexer::views_of(self.history@);
            assert(entries.subrange(0, n as int) =~= entries);
        }
        while i < n
            invariant
                n == self.history@.len(),
                i <= n,
                hist_join(hist@, crate::lexer::views_of(self.history@).subrange(i as int, n as int))
                    == hist_join(Seq::empty(), crate::lexer::views_of(self.history@)),
            decreases n - i,
        {
            let ghost entries = crate::lexer::views_of(self.history@);
            let ghost rest = entries.subrange(i as int, n as int);
            proof {
                assert(rest[0] == entries[i as int]);
                assert(rest.drop_first() =~= entries.subrange(i + 1, n as int));
            }
            if hist.as_str().unicode_len() == 0 {
                proof {
                    assert(hist@.len() == 0);
                }
                hist = self.history[i].clone();
            } else {
                let ghost before = hist@;
                hist.append("\n");
                hist.append(self.history[i].as_str());
                proof {
                    reveal_strlit("\n");
                    assert(hist@ =~= before + seq!['\n'] + entries[i as int]);
                }
            }
            i += 1;
        }
        proof {
            assert(crate::lexer::views_of(self.history@).subrange(n as int, n as int)
                =~= Seq::<Seq<char>>::empty());
        }
        hist
    }

    /// Register a background job whose supervisor has reported in.
    pub fn register_job(&mut self, job: BgProcess)
        requires
            match job.pid {
                Some(p) => p >= 0,
                None => true,
            },
        ensures
            final (self).processes@ == old(self).processes@.push(job),
            final (self).history == old(self).history,
            final (self).cmd_prompt == old(self).cmd_prompt,
            final (self).broken == old(self).broken,
            old(self).wf() ==> final (self).wf(),
    {
        self.processes.push(job);
        proof {
            if old(self).wf() {
                assert forall|i: int| 0 <= i < self.processes@.len() implies match (#[trigger] self
                    .processes@[i]).pid {
                    Some(p) => p >= 0,
                    None => true,
                } by {
                    if i < old(self).processes@.len() {
                        assert(self.processes@[i] == old(self).processes@[i]);
                    }
                }
            }
        }
    }

    /// The announcement printed when a background job starts: its command
    /// and its process id.
    pub fn job_announcement(job: &BgProcess) -> (r: String)
        requires
            match job.pid {
                Some(p) => p >= 0,
                None => true,
            },
        ensures
            r@ == spec_job_line(*job),
    {
        let mut line = job.command.clone();
        match job.pid {
            Some(p) => {
                let ghost before = line@;
                line.append(" ");
                let digits = format_pid(p);
                line.append(digits.as_str());
                proof {
                    reveal_strlit(" ");
                    assert(line@ =~= before + seq![' '] + spec_digits(p as nat));
                }
                line
            },
            None => line,
        }
    }

    /// List the registered jobs, one line each.
    pub fn jobs(&self) -> (r: Vec<String>)
        requires
            self.wf(),
        ensures
            r@.len() == self.processes@.len(),
            forall|i: int|
                0 <= i < r@.len() ==> (#[trigger] r@[i])@ == spec_job_line(self.processes@[i]),
    {
        let mut out: Vec<String> = Vec::new();
        let mut i: usize = 0;
        let n = self.processes.len();
        while i < n
            invariant
                self.wf(),
                n == self.processes@.len(),
                i <= n,
                out@.len() == i,
                forall|j: int|
                    0 <= j < i ==> (#[trigger] out@[j])@ == spec_job_line(self.processes@[j]),
            decreases n - i,
        {
            let line = Self::job_announcement(&self.processes[i]);
            out.push(line);
            i += 1;
        }
        out
    }

    /// The liveness sweep: remove every job whose supervisor has reported
    /// completion. `finished` holds one flag per registered job, in order.
    pub fn disown_dead(&mut self, finished: &Vec<bool>)
        requires
            finished@.len() == old(self).processes@.len(),
        ensures
            final (self).processes@ == keep_unfinished(old(self).processes@, finished@),
            final (self).history == old(self).history,
            final (self).cmd_prompt == old(self).cmd_prompt,
            final (self).broken == old(self).broken,
            old(self).wf() ==> final (self).wf(),
    {
        let ghost orig = self.processes@;
        let ghost flags = finished@;
        let mut kept: Vec<BgProcess> = Vec::new();
        let mut i: usize = 0;
        let n = self.processes.len();
        proof {
            assert(orig.subrange(0, n as int) =~= orig);
            assert(flags.subrange(0, n as int) =~= flags);
            assert(kept@ + keep_unfinished(orig, flags) =~= keep_unfinished(orig, flags));
        }
        while i < n
            invariant
                n == orig.len(),
                flags == finished@,
                flags.len() == n,
                i <= n,
                self.history == old(self).history,
                self.cmd_prompt == old(self).cmd_prompt,
                self.broken == old(self).broken,
                self.processes@ == orig.subrange(i as int, n as int),
                kept@ + keep_unfinished(
                    orig.subrange(i as int, n as int),
                    flags.subrange(i as int, n as int),
                ) == keep_unfinished(orig, flags),
                jobs_wf(orig) ==> jobs_wf(kept@),
            decreases n - i,
        {
            let ghost ps_rest = orig.subrange(i as int, n as int);
            let ghost fl_rest = flags.subrange(i as int, n as int);
            proof {
                assert(ps_rest[0] == orig[i as int]);
                assert(ps_rest.drop_first() =~= orig.subrange(i + 1, n as int));
                assert(fl_rest[0] == flags[i as int]);
                assert(fl_rest.drop_first() =~= flags.subrange(i + 1, n as int));
            }
            let job = self.processes.remove(0);
            proof {
                assert(job == orig[i as int]);
                assert(self.processes@ =~= orig.subrange(i + 1, n as int));
            }
            if !finished[i] {
                let ghost before = kept@;
                kept.push(job);
                proof {
                    assert(before + (seq![orig[i as int]] + keep_unfinished(
                        orig.subrange(i + 1, n as int),
                        flags.subrange(i + 1, n as int),
                    )) =~= kept@ + keep_unfinished(
                        orig.subrange(i + 1, n as int),
                        flags.subrange(i + 1, n as int),
                    ));
                    if jobs_wf(orig) {
                        assert forall|j: int|
                            0 <= j < kept@.len() implies match (#[trigger] kept@[j]).pid {
                            Some(p) => p >= 0,
                            None => true,
                        } by {
                            if j < before.len() {
                                assert(kept@[j] == before[j]);
                            } else {
                                assert(kept@[j] == orig[i as int]);
                            }
                        }
                    }
                }
            }
            i += 1;
        }
        self.processes = kept;
    }

    /// The process ids to signal at exit: every registered job's id, in
    /// order. The caller sends each a termination signal and does not wait.
    pub fn kill_all(&self) -> (r: Vec<i32>)
        ensures
            r@ == pids_of(self.processes@),
    {
        let mut out: Vec<i32> = Vec::new();
        let mut i: usize = 0;
        let n = self.processes.len();
        proof {
            assert(self.processes@.subrange(0, n as int) =~= self.processes@);
        }
        while i < n
            invariant
                n == self.processes@.len(),
                i <= n,
                out@ + pids_of(self.processes@.subrange(i as int, n as int)) == pids_of(
                    self.processes@,
                ),
            decreases n - i,
        {
            let ghost rest = self.processes@.subrange(i as int, n as int);
            proof {
                assert(rest[0] == self.processes@[i as int]);
                assert(rest.drop_first() =~= self.processes@.subrange(i + 1, n as int));
            }
            match self.processes[i].pid {
                Some(p) => {
                    let ghost before = out@;
                    out.push(p);
                    proof {
                        assert(before + (seq![p] + pids_of(
                            self.processes@.subrange(i + 1, n as int),
                        )) =~= out@ + pids_of(self.processes@.subrange(i + 1, n as int)));
                    }
                },
                None => {},
            }
            i += 1;
        }
        proof {
            assert(self.processes@.subrange(n as int, n as int) =~= Seq::<BgProcess>::empty());
            assert(out@ + Seq::<i32>::empty() =~= out@);
        }
        out
    }
}

} // verus!
