//! Process descriptions: what a stage launch asks of the operating system.
//!
//! The library never spawns: a foreground process description is turned into
//! a spawn request (program, arguments, and the three stream descriptors),
//! and the caller hands that request to the OS. A background process record
//! tracks one detached job: its command, its arguments, and the process id
//! its supervisor reported.

use vstd::prelude::*;
use crate::parser::Cmd;

verus! {

/// The shell's own standard input descriptor.
pub const STDIN_FILENO: i32 = 0;

/// The shell's own standard output descriptor.
pub const STDOUT_FILENO: i32 = 1;

/// Everything the OS needs to spawn one process: descriptors of `None` ask
/// for a fresh pipe end, `Some(fd)` inherits that descriptor.
pub struct SpawnRequest {
    pub command: String,
    pub args: Vec<String>,
    pub in_fd: Option<i32>,
    pub out_fd: Option<i32>,
    pub err_fd: Option<i32>,
}

/// A foreground process: a command, arguments, and the descriptors its input
/// and output attach to (`None` asks for a fresh pipe end).
pub struct FgProcess {
    pub command: String,
    pub args: Vec<String>,
    pub stdin: Option<i32>,
    pub stdout: Option<i32>,
}

impl FgProcess {
    pub fn new(program: String, argv: Vec<String>, stdin: Option<i32>, stdout: Option<i32>) -> (r:
        FgProcess)
        ensures
            r.command == program,
            r.args == argv,
            r.stdin == stdin,
            r.stdout == stdout,
    {
        FgProcess { command: program, args: argv, stdin, stdout }
    }

    /// The spawn request this process makes: its own command and arguments,
    /// its chosen input and output descriptors, and stderr left alone.
    pub fn run(&self) -> (r: SpawnRequest)
        ensures
            r.command == self.command,
            r.args@ == self.args@,
            r.in_fd == self.stdin,
            r.out_fd == self.stdout,
            r.err_fd is None,
    {
        SpawnRequest {
            command: self.command.clone(),
            args: crate::parser::clone_args(&self.args),
            in_fd: self.stdin,
            out_fd: self.stdout,
            err_fd: None,
        }
    }
}

/// A background process record: the command it runs, and once its supervisor
/// has reported in, the process id it runs under. The supervisor owns the
/// live handle; the record is what the job registry keeps.
pub struct BgProcess {
    pub command: String,
    pub args: Vec<String>,
    pub pid: Option<i32>,
}

impl BgProcess {
    pub fn new(program: String, argv: Vec<String>) -> (r: BgProcess)
        ensures
            r.command == program,
            r.args == argv,
            r.pid is None,
    {
        BgProcess { command: program, args: argv, pid: None }
    }

    /// The record once the supervisor has reported the process id.
    pub fn with_pid(self, pid: i32) -> (r: BgProcess)
        ensures
            r.command == self.command,
            r.args == self.args,
            r.pid == Some(pid),
    {
        BgProcess { pid: Some(pid), ..self }
    }
}

/// What a write redirection delivers to its target file: the process's
/// complete captured output when the process exited successfully, and
/// nothing at all otherwise - a failed stage's output is dropped, not
/// written.
pub fn output_redirect(status_success: bool, output: Vec<u8>) -> (r: Option<Vec<u8>>)
    ensures
        status_success ==> r == Some(output),
        !status_success ==> r is None,
{
    if status_success {
        Some(output)
    } else {
        None
    }
}

/// The outcome of the external "command exists" lookup: the command passes
/// through exactly when the lookup found its program.
pub fn cmd_exists(cmd: Cmd, exists_answer: bool) -> (r: Option<Cmd>)
    ensures
        exists_answer ==> r == Some(cmd),
        !exists_answer ==> r is None,
{
    if exists_answer {
        Some(cmd)
    } else {
        None
    }
}

} // verus!
