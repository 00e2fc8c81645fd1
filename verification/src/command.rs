//! Invocations of the tools that the backup relies on, and the verdict on
//! what a tool left behind.

use vstd::prelude::*;
use vstd::string::*;

verus! {

/// The texts of a run of strings.
pub open spec fn texts(v: Seq<String>) -> Seq<Seq<char>> {
    Seq::new(v.len(), |i: int| v[i]@)
}

/// An invocation of a tool: the program's name and its arguments in order.
#[derive(Debug)]
pub struct ToolCommand {
    pub program: String,
    pub args: Vec<String>,
}

/// A `ToolCommand` as plain text.
pub struct CommandText {
    pub program: Seq<char>,
    pub args: Seq<Seq<char>>,
}

impl View for ToolCommand {
    type V = CommandText;

    open spec fn view(&self) -> CommandText {
        CommandText { program: self.program@, args: texts(self.args@) }
    }
}

/// What a tool that ran to its end left behind. A tool that a signal ended
/// has no exit code.
#[derive(Debug)]
pub struct ToolOutput {
    pub exit_code: Option<i32>,
    pub stdout: Vec<u8>,
    pub stderr: String,
}

/// How an attempt to run a tool went.
#[derive(Debug)]
pub enum ToolResult {
    /// The tool ran to its end.
    Exited(ToolOutput),
    /// The tool could not be started; the reason is the system's message.
    NotStarted(String),
}

/// Why a tool's run does not count.
#[derive(Debug)]
pub enum CommandError {
    /// The tool could not be started.
    NotStarted { command: ToolCommand, reason: String },
    /// The tool ended with a status other than 0; `exit_code` is -1 where
    /// it left none.
    Failed { command: ToolCommand, exit_code: i32, stderr: String },
}

/// A `CommandError` as plain values.
pub enum CommandErrorText {
    NotStarted { command: CommandText, reason: Seq<char> },
    Failed { command: CommandText, exit_code: int, stderr: Seq<char> },
}

impl View for CommandError {
    type V = CommandErrorText;

    open spec fn view(&self) -> CommandErrorText {
        match *self {
            CommandError::NotStarted { command, reason } => CommandErrorText::NotStarted {
                command: command@,
                reason: reason@,
            },
            CommandError::Failed { command, exit_code, stderr } => CommandErrorText::Failed {
                command: command@,
                exit_code: exit_code as int,
                stderr: stderr@,
            },
        }
    }
}

/// The exit code to report for a tool that did not end with status 0.
pub open spec fn reported_exit_code(exit_code: Option<i32>) -> int {
    match exit_code {
        Some(code) => code as int,
        None => -1,
    }
}

/// The verdict that `check_tool_result` gives, as plain values: the error,
/// or nothing where the run counts.
pub open spec fn tool_verdict(command: CommandText, result: ToolResult) -> Option<
    CommandErrorText,
> {
    match result {
        ToolResult::NotStarted(reason) => Some(
            CommandErrorText::NotStarted { command, reason: reason@ },
        ),
        ToolResult::Exited(output) => if output.exit_code == Some(0i32) {
            None
        } else {
            Some(
                CommandErrorText::Failed {
                    command,
                    exit_code: reported_exit_code(output.exit_code),
                    stderr: output.stderr@,
                },
            )
        },
    }
}

/// Decides whether a tool's run counts: it does if the tool was started and
/// ended with status 0, and then its output is handed on unchanged.
/// Otherwise the error names the invocation and carries the reason or the
/// exit code and what the tool wrote to standard error.
pub fn check_tool_result(command: ToolCommand, result: ToolResult) -> (r: Result<
    ToolOutput,
    CommandError,
>)
    ensures
        match r {
            Ok(output) => tool_verdict(command@, result) is None && result == ToolResult::Exited(
                output,
            ),
            Err(e) => tool_verdict(command@, result) == Some(e@),
        },
{
    match result {
        ToolResult::NotStarted(reason) => Err(CommandError::NotStarted { command, reason }),
        ToolResult::Exited(output) => {
            match output.exit_code {
                Some(code) => {
                    if code == 0 {
                        Ok(output)
                    } else {
                        let stderr = output.stderr;
                        Err(CommandError::Failed { command, exit_code: code, stderr })
                    }
                },
                None => {
                    let stderr = output.stderr;
                    Err(CommandError::Failed { command, exit_code: -1, stderr })
                },
            }
        },
    }
}

/// The invocation that lists the block devices in export format.
pub fn listing_command() -> (r: ToolCommand)
    ensures
        r@.program == "blkid"@,
        r@.args == seq!["-o"@, "export"@],
{
    let mut args: Vec<String> = Vec::new();
    args.push("-o".to_owned());
    args.push("export".to_owned());
    proof {
        assert(texts(args@) =~= seq!["-o"@, "export"@]);
    }
    ToolCommand { program: "blkid".to_owned(), args }
}

/// The invocation that writes the header of `device` to the file `target`.
pub fn header_backup_command(device: &str, target: &str) -> (r: ToolCommand)
    ensures
        r@.program == "cryptsetup"@,
        r@.args == seq!["luksHeaderBackup"@, device@, "--header-backup-file"@, target@],
{
    let mut args: Vec<String> = Vec::new();
    args.push("luksHeaderBackup".to_owned());
    args.push(device.to_owned());
    args.push("--header-backup-file".to_owned());
    args.push(target.to_owned());
    proof {
        assert(texts(args@) =~= seq![
            "luksHeaderBackup"@,
            device@,
            "--header-backup-file"@,
            target@,
        ]);
    }
    ToolCommand { program: "cryptsetup".to_owned(), args }
}

/// The invocation that prints a description of the header file `header_file`.
pub fn header_dump_command(header_file: &str) -> (r: ToolCommand)
    ensures
        r@.program == "cryptsetup"@,
        r@.args == seq!["luksDump"@, header_file@],
{
    let mut args: Vec<String> = Vec::new();
    args.push("luksDump".to_owned());
    args.push(header_file.to_owned());
    proof {
        assert(texts(args@) =~= seq!["luksDump"@, header_file@]);
    }
    ToolCommand { program: "cryptsetup".to_owned(), args }
}

/// The options of a remote copy: the host's identity is checked strictly,
/// and nothing is ever asked of a user.
pub open spec fn remote_copy_options() -> Seq<Seq<char>> {
    seq!["-o"@, "StrictHostKeyChecking=yes"@, "-o"@, "BatchMode=yes"@]
}

/// The invocation that copies `files` to the endpoint `remote` in one run.
pub fn remote_copy_command(files: &Vec<String>, remote: &str) -> (r: ToolCommand)
    ensures
        r@.program == "scp"@,
        r@.args == remote_copy_options() + texts(files@) + seq![remote@],
{
    let mut args: Vec<String> = Vec::new();
    args.push("-o".to_owned());
    args.push("StrictHostKeyChecking=yes".to_owned());
    args.push("-o".to_owned());
    args.push("BatchMode=yes".to_owned());
    proof {
        assert(texts(args@) =~= remote_copy_options());
    }
    let mut i: usize = 0;
    while i < files.len()
        invariant
            i <= files@.len(),
            texts(args@) == remote_copy_options() + texts(files@.subrange(0, i as int)),
        decreases files@.len() - i,
    {
        let ghost before = args@;
        args.push(files[i].clone());
        proof {
            let target = remote_copy_options() + texts(files@.subrange(0, i + 1));
            assert(texts(before).len() == 4 + i);
            assert(texts(args@).len() == target.len());
            assert forall|k: int| 0 <= k < target.len() implies texts(args@)[k] == target[k] by {
                if k < 4 + i {
                    assert(texts(args@)[k] == texts(before)[k]);
                    if k >= 4 {
                        assert(texts(files@.subrange(0, i as int))[k - 4] == files@[k - 4]@);
                    }
                }
            }
            assert(texts(args@) =~= target);
        }
        i += 1;
    }
    args.push(remote.to_owned());
    proof {
        assert(files@.subrange(0, i as int) =~= files@);
        assert(texts(args@) =~= remote_copy_options() + texts(files@) + seq![remote@]);
    }
    ToolCommand { program: "scp".to_owned(), args }
}

} // verus!
