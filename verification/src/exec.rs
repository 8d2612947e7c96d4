//! The pipeline executor's planning stage: it turns a parsed chain into an
//! execution plan that says, for every stage, what to launch and how to wire
//! its standard streams, and it decides whether a line runs in the
//! foreground, runs in the background, or is rejected with a diagnostic.
//!
//! The caller performs the plan: it launches each stage in order, drains a
//! captured output completely before feeding it to the next stage (a
//! blocking, fully buffered pipe relay - large outputs are buffered whole in
//! memory; an accepted limitation, not streaming), reads a redirected input
//! file wholesale, and writes the terminal stage's captured output to the
//! redirect target, truncating it. The relay law below proves that this
//! wiring composes the stages' behaviours in order.

use vstd::prelude::*;
use crate::lexer::{spec_lex, views_of};
use crate::parser::{
    Cmd, FilePermission, ParseError, StageView, spec_parse, lemma_chain_nonempty,
};

verus! {

/// How a stage's standard input is supplied.
#[derive(Clone, Copy, PartialEq, Eq, Structural, Debug)]
pub enum StdinWiring {
    /// The shell's own terminal descriptor (single, non-piped, non-redirected
    /// foreground command only).
    Inherit,
    /// A fresh pipe end that is closed with nothing written.
    ClosedPipe,
    /// A fresh pipe end fed the complete buffered output of the previous
    /// stage, then closed.
    FromPrev,
    /// A fresh pipe end fed the full contents of the stage's input file,
    /// then closed.
    FromFile,
}

/// How a stage's standard output is delivered.
#[derive(Clone, Copy, PartialEq, Eq, Structural, Debug)]
pub enum StdoutWiring {
    /// The shell's own terminal descriptor.
    Inherit,
    /// A fresh pipe end drained to a buffer once the stage finishes.
    Captured,
}

/// One stage of an execution plan.
pub struct StagePlan {
    pub program: String,
    pub argv: Vec<String>,
    pub stdin: StdinWiring,
    /// The input file's path; present exactly when `stdin` is `FromFile`.
    pub input_file: Option<String>,
    pub stdout: StdoutWiring,
}

/// The mathematical value of one planned stage.
pub ghost struct StagePlanView {
    pub program: Seq<char>,
    pub argv: Seq<Seq<char>>,
    pub stdin: StdinWiring,
    pub input_file: Option<Seq<char>>,
    pub stdout: StdoutWiring,
}

impl StagePlan {
    pub open spec fn view(self) -> StagePlanView {
        StagePlanView {
            program: self.program@,
            argv: views_of(self.argv@),
            stdin: self.stdin,
            input_file: match self.input_file {
                Some(p) => Some(p@),
                None => None,
            },
            stdout: self.stdout,
        }
    }
}

/// A whole execution plan: the stages in order, and the write-redirect
/// target of the terminal stage, when it has one.
pub struct ExecPlan {
    pub stages: Vec<StagePlan>,
    pub write_to: Option<String>,
}

pub open spec fn plan_views(v: Seq<StagePlan>) -> Seq<StagePlanView> {
    v.map_values(|s: StagePlan| s@)
}

/// Whether a stage carries a read redirection.
pub open spec fn is_read_redirect(sv: StageView) -> bool {
    match sv.redirect {
        Some(r) => r.mode == FilePermission::Read,
        None => false,
    }
}

/// Whether a stage carries a write redirection.
pub open spec fn is_write_redirect(sv: StageView) -> bool {
    match sv.redirect {
        Some(r) => r.mode == FilePermission::Write,
        None => false,
    }
}

/// The fast path: a single stage with no redirection runs with both streams
/// inherited from the shell, and no buffering step at all.
pub open spec fn fast_path(chain: Seq<StageView>) -> bool {
    chain.len() == 1 && chain[0].redirect is None
}

/// The planned stdin wiring of stage `i`: a read redirection feeds the file,
/// the head stage otherwise gets an empty pipe, and every later stage is fed
/// the previous stage's complete output.
pub open spec fn stage_stdin(chain: Seq<StageView>, i: int) -> StdinWiring {
    if fast_path(chain) {
        StdinWiring::Inherit
    } else if is_read_redirect(chain[i]) {
        StdinWiring::FromFile
    } else if i == 0 {
        StdinWiring::ClosedPipe
    } else {
        StdinWiring::FromPrev
    }
}

/// The input file the planned stage reads, when its redirection says so.
pub open spec fn stage_input_file(chain: Seq<StageView>, i: int) -> Option<Seq<char>> {
    if is_read_redirect(chain[i]) && !fast_path(chain) {
        Some(chain[i].redirect.unwrap().path)
    } else {
        None
    }
}

/// The planned stdout wiring of stage `i`: only the terminal stage without a
/// write redirection delivers to the shell's own stdout; every other output
/// is captured for relaying or for the redirect target.
pub open spec fn stage_stdout(chain: Seq<StageView>, i: int) -> StdoutWiring {
    if fast_path(chain) {
        StdoutWiring::Inherit
    } else if i == chain.len() - 1 && !is_write_redirect(chain[i]) {
        StdoutWiring::Inherit
    } else {
        StdoutWiring::Captured
    }
}

/// The stages of the plan for a chain.
pub open spec fn spec_plan(chain: Seq<StageView>) -> Seq<StagePlanView> {
    Seq::new(
        chain.len(),
        |i: int|
            StagePlanView {
                program: chain[i].program,
                argv: chain[i].argv,
                stdin: stage_stdin(chain, i),
                input_file: stage_input_file(chain, i),
                stdout: stage_stdout(chain, i),
            },
    )
}

/// The file the terminal stage's captured output is written to, when its
/// redirection says so.
pub open spec fn spec_write_to(chain: Seq<StageView>) -> Option<Seq<char>> {
    if is_write_redirect(chain.last()) {
        Some(chain.last().redirect.unwrap().path)
    } else {
        None
    }
}

fn is_read_file(file: &Option<crate::parser::PathType>) -> (b: bool)
    ensures
        b == match *file {
            Some(p) => p.mode == FilePermission::Read,
            None => false,
        },
{
    match file {
        Some(p) => p.mode == FilePermission::Read,
        None => false,
    }
}

fn is_write_file(file: &Option<crate::parser::PathType>) -> (b: bool)
    ensures
        b == match *file {
            Some(p) => p.mode == FilePermission::Write,
            None => false,
        },
{
    match file {
        Some(p) => p.mode == FilePermission::Write,
        None => false,
    }
}

/// Build the execution plan for a parsed chain, stage by stage.
///
/// The plan has one entry per stage, wired by the rules of `spec_plan`: in
/// particular a single stage without redirection inherits both streams (the
/// interactive pass-through), and otherwise each stage's captured output is
/// relayed whole into the next stage's input.
pub fn plan_pipeline(cmd: &Cmd) -> (p: ExecPlan)
    requires
        forall|j: int|
            0 <= j < cmd.chain().len() - 1 ==> !is_write_redirect(#[trigger] cmd.chain()[j]),
    ensures
        plan_views(p.stages@) == spec_plan(cmd.chain()),
        (match p.write_to {
            Some(f) => Some(f@),
            None => None,
        }) == spec_write_to(cmd.chain()),
        fast_path(cmd.chain()) ==> p.stages@.len() == 1 && p.stages@[0].stdin
            == StdinWiring::Inherit && p.stages@[0].stdout == StdoutWiring::Inherit,
{
    let ghost chain = cmd.chain();
    let stages = cmd.iter();
    let n = stages.len();
    proof {
        lemma_chain_nonempty(*cmd);
    }
    let single = n == 1 && {
        let has_file = match &stages[0].file {
            Some(_) => true,
            None => false,
        };
        !has_file
    };
    proof {
        assert(stages@[0].head_view() == chain[0]);
        assert(single == fast_path(chain));
    }
    let mut out: Vec<StagePlan> = Vec::new();
    let mut i: usize = 0;
    while i < n
        invariant
            n == stages@.len(),
            n == chain.len(),
            i <= n,
            single == fast_path(chain),
            forall|j: int|
                0 <= j < n ==> (#[trigger] stages@[j]).head_view() == chain[j] && stages@[j].pipe
                    is None,
            out@.len() == i,
            forall|j: int| 0 <= j < i ==> (#[trigger] out@[j])@ == spec_plan(chain)[j],
        decreases n - i,
    {
        let stage = &stages[i];
        let ghost sv = chain[i as int];
        proof {
            assert(stage.head_view() == sv);
        }
        let program = stage.program.clone();
        let argv = crate::parser::clone_args(&stage.argv);
        let stdin: StdinWiring;
        let mut input_file: Option<String> = None;
        if single {
            stdin = StdinWiring::Inherit;
        } else if is_read_file(&stage.file) {
            stdin = StdinWiring::FromFile;
            input_file = match &stage.file {
                Some(p) => Some(p.path.clone()),
                None => None,
            };
        } else if i == 0 {
            stdin = StdinWiring::ClosedPipe;
        } else {
            stdin = StdinWiring::FromPrev;
        }
        let stdout: StdoutWiring;
        if single {
            stdout = StdoutWiring::Inherit;
        } else if i == n - 1 && !is_write_file(&stage.file) {
            stdout = StdoutWiring::Inherit;
        } else {
            stdout = StdoutWiring::Captured;
        }
        let planned = StagePlan { program, argv, stdin, input_file, stdout };
        proof {
            assert(planned@ == spec_plan(chain)[i as int]);
        }
        out.push(planned);
        i += 1;
    }
    let last = &stages[n - 1];
    let write_to: Option<String> = if is_write_file(&last.file) {
        match &last.file {
            Some(p) => Some(p.path.clone()),
            None => None,
        }
    } else {
        None
    };
    proof {
        assert(chain.last() == stages@[n - 1].head_view());
        assert(plan_views(out@) =~= spec_plan(chain));
    }
    ExecPlan { stages: out, write_to }
}

/// The behaviour of the outside world's processes: what a process writes on
/// its stdout, as a function of the program, the arguments, and the complete
/// bytes fed on its stdin.
pub type World = spec_fn(Seq<char>, Seq<Seq<char>>, Seq<u8>) -> Seq<u8>;

/// The complete bytes fed to stage `i` of a plan, under a given world and
/// given file contents. An inherited or empty pipe feeds nothing; a relayed
/// pipe feeds the previous stage's complete output; a read redirection feeds
/// the named file wholesale.
pub open spec fn stage_input_bytes(
    stages: Seq<StagePlanView>,
    world: World,
    files: Map<Seq<char>, Seq<u8>>,
    i: int,
) -> Seq<u8>
    decreases i, 0int,
{
    match stages[i].stdin {
        StdinWiring::Inherit => Seq::empty(),
        StdinWiring::ClosedPipe => Seq::empty(),
        StdinWiring::FromPrev => if i > 0 {
            stage_output_bytes(stages, world, files, i - 1)
        } else {
            Seq::empty()
        },
        StdinWiring::FromFile => files[stages[i].input_file.unwrap()],
    }
}

/// The complete bytes stage `i` of a plan writes on its stdout.
pub open spec fn stage_output_bytes(
    stages: Seq<StagePlanView>,
    world: World,
    files: Map<Seq<char>, Seq<u8>>,
    i: int,
) -> Seq<u8>
    decreases i, 1int,
{
    world(stages[i].program, stages[i].argv, stage_input_bytes(stages, world, files, i))
}

/// The composition of the first `i + 1` stages of a chain: each stage's
/// complete output is the next stage's complete input, the head starting
/// from empty input.
pub open spec fn chain_relay(chain: Seq<StageView>, world: World, i: int) -> Seq<u8>
    decreases i,
{
    if i <= 0 {
        world(chain[0].program, chain[0].argv, Seq::empty())
    } else {
        world(chain[i].program, chain[i].argv, chain_relay(chain, world, i - 1))
    }
}

/// Law: the planned wiring is a faithful full-buffer relay. For a pipeline
/// none of whose stages reads from a file, the bytes stage `i` produces
/// under the plan equal the composition of the first `i + 1` stages'
/// behaviours; in particular the terminal stage's output is the whole
/// pipeline's output, whatever each program's behaviour is.
pub proof fn lemma_plan_relays(
    chain: Seq<StageView>,
    world: World,
    files: Map<Seq<char>, Seq<u8>>,
    i: int,
)
    requires
        chain.len() >= 1,
        forall|j: int| 0 <= j < chain.len() ==> !is_read_redirect(#[trigger] chain[j]),
        0 <= i < chain.len(),
    ensures
        stage_output_bytes(spec_plan(chain), world, files, i) == chain_relay(chain, world, i),
    decreases i,
{
    let stages = spec_plan(chain);
    assert(stages[i].stdin == stage_stdin(chain, i));
    if i == 0 {
        assert(stage_input_bytes(stages, world, files, 0) =~= Seq::<u8>::empty());
    } else {
        assert(stages[i].stdin == StdinWiring::FromPrev);
        lemma_plan_relays(chain, world, files, i - 1);
    }
}

/// What one command line asks the shell to do.
pub enum Directive {
    /// Run the planned stages synchronously; the shell blocks until done.
    Foreground(ExecPlan),
    /// Spawn the command detached, report its process id, register the job.
    Background { program: String, argv: Vec<String> },
    /// Launch nothing; report the reason and continue.
    Rejected(RejectReason),
}

/// Why a command line was rejected.
#[derive(Clone, Copy, PartialEq, Eq, Structural, Debug)]
pub enum RejectReason {
    /// The line did not parse into a pipeline.
    Syntax(ParseError),
    /// A trailing `&` is only honoured on a single command with no pipe and
    /// no redirection.
    BackgroundNotBare,
    /// A write redirection is only honoured on the terminal stage.
    WriteRedirectNotLast,
}

/// Whether a stage's final argument is the background marker `&`.
pub open spec fn has_bg_marker(sv: StageView) -> bool {
    sv.argv.len() > 0 && sv.argv.last() == seq!['&']
}

/// A single bare command with a trailing `&`: the only shape that runs in
/// the background.
pub open spec fn bare_background(chain: Seq<StageView>) -> bool {
    chain.len() == 1 && chain[0].redirect is None && has_bg_marker(chain[0])
}

pub open spec fn any_bg_marker(chain: Seq<StageView>) -> bool {
    exists|j: int| 0 <= j < chain.len() && has_bg_marker(#[trigger] chain[j])
}

pub open spec fn has_middle_write(chain: Seq<StageView>) -> bool {
    exists|j: int| 0 <= j < chain.len() - 1 && is_write_redirect(#[trigger] chain[j])
}

fn stage_marker(c: &Cmd) -> (b: bool)
    ensures
        b == has_bg_marker(c.head_view()),
{
    let k = c.argv.len();
    if k == 0 {
        proof {
            assert(views_of(c.argv@).len() == 0);
        }
        false
    } else {
        let lastarg = &c.argv[k - 1];
        let r = lastarg.as_str().unicode_len() == 1 && lastarg.as_str().get_char(0) == '&';
        proof {
            assert(views_of(c.argv@).last() == c.argv@[k - 1]@);
            if r {
                assert(lastarg@ =~= seq!['&']);
            } else {
                if lastarg@ == seq!['&'] {
                    assert(lastarg@.len() == 1 && lastarg@[0] == '&');
                }
            }
        }
        r
    }
}

/// Decide what one raw command line asks for: a syntax error is rejected
/// with its reason; a single bare command with a trailing `&` (stripped)
/// runs in the background; a `&` anywhere else, or a write redirection on a
/// non-terminal stage, is rejected; everything else runs in the foreground
/// under the plan of `spec_plan`.
pub fn dispatch(cmd_line: &str) -> (d: Directive)
    ensures
        ({
            let parsed = spec_parse(spec_lex(cmd_line@));
            match parsed {
                None => d matches Directive::Rejected(RejectReason::Syntax(e)) && (e
                    == ParseError::DanglingOperator <==> crate::parser::parse_run(
                    spec_lex(cmd_line@),
                    crate::parser::initial_parse_state(),
                ) is None),
                Some(chain) => {
                    if bare_background(chain) {
                        d matches Directive::Background { program, argv } && program@
                            == chain[0].program && views_of(argv@) == chain[0].argv.drop_last()
                    } else if any_bg_marker(chain) {
                        d matches Directive::Rejected(RejectReason::BackgroundNotBare)
                    } else if has_middle_write(chain) {
                        d matches Directive::Rejected(RejectReason::WriteRedirectNotLast)
                    } else {
                        d matches Directive::Foreground(p) && plan_views(p.stages@) == spec_plan(
                            chain,
                        ) && (match p.write_to {
                            Some(f) => Some(f@),
                            None => None,
                        }) == spec_write_to(chain)
                    }
                },
            }
        }),
{
    let cmd = match Cmd::new(cmd_line) {
        Err(e) => {
            return Directive::Rejected(RejectReason::Syntax(e));
        },
        Ok(c) => c,
    };
    let ghost chain = cmd.chain();
    proof {
        lemma_chain_nonempty(*cmd);
    }
    let is_single = match &cmd.pipe {
        Some(_) => false,
        None => true,
    };
    proof {
        match &cmd.pipe {
            Some(p) => {
                lemma_chain_nonempty(**p);
                assert(chain.len() > 1);
            },
            None => {
                assert(chain.len() == 1);
            },
        }
    }
    let no_file = match &cmd.file {
        Some(_) => false,
        None => true,
    };
    let marker_head = stage_marker(&cmd);
    if is_single && no_file && marker_head {
        let mut argv = crate::parser::clone_args(&cmd.argv);
        let _ = argv.pop();
        proof {
            assert(views_of(argv@) =~= chain[0].argv.drop_last());
        }
        return Directive::Background { program: cmd.program.clone(), argv };
    }
    proof {
        assert(!bare_background(chain));
    }
    let stages = cmd.iter();
    let n = stages.len();
    let mut j: usize = 0;
    while j < n
        invariant
            n == stages@.len(),
            n == chain.len(),
            n >= 1,
            j <= n,
            spec_parse(spec_lex(cmd_line@)) == Some(chain),
            !bare_background(chain),
            forall|k: int|
                0 <= k < n ==> (#[trigger] stages@[k]).head_view() == chain[k] && stages@[k].pipe
                    is None,
            forall|k: int| 0 <= k < j ==> !has_bg_marker(#[trigger] chain[k]),
        decreases n - j,
    {
        if stage_marker(&stages[j]) {
            proof {
                assert(has_bg_marker(chain[j as int]));
                assert(any_bg_marker(chain));
            }
            return Directive::Rejected(RejectReason::BackgroundNotBare);
        }
        j += 1;
    }
    proof {
        assert(!any_bg_marker(chain));
    }
    let mut k: usize = 0;
    while k < n - 1
        invariant
            n == stages@.len(),
            n == chain.len(),
            n >= 1,
            k <= n,
            spec_parse(spec_lex(cmd_line@)) == Some(chain),
            !bare_background(chain),
            !any_bg_marker(chain),
            forall|m: int|
                0 <= m < n ==> (#[trigger] stages@[m]).head_view() == chain[m] && stages@[m].pipe
                    is None,
            forall|m: int| 0 <= m < k ==> !is_write_redirect(#[trigger] chain[m]),
        decreases n - k,
    {
        if is_write_file(&stages[k].file) {
            proof {
                assert(is_write_redirect(chain[k as int]));
                assert(has_middle_write(chain));
            }
            return Directive::Rejected(RejectReason::WriteRedirectNotLast);
        }
        k += 1;
    }
    proof {
        assert(!has_middle_write(chain));
    }
    Directive::Foreground(plan_pipeline(&cmd))
}

} // verus!
