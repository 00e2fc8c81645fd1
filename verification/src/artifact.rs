//! Construction of one volume's backup artifact, as a sequence of steps.
//!
//! The caller carries out each action and reports what happened; the build
//! decides what comes next. Files are extracted under staged names and are
//! moved to their canonical names only when both are complete.

use vstd::prelude::*;
use vstd::string::*;
use crate::command::{
    check_tool_result, header_backup_command, header_dump_command, tool_verdict, CommandError,
    CommandErrorText, CommandText, ToolCommand, ToolResult,
};
use crate::naming::{
    canonical_file_name, canonical_name, content_hash, content_hash_of, join_path, path_in,
    staged_file_name, staged_name,
};

verus! {

/// The backup of one volume's header: the raw header and its description,
/// two files in one directory, both named after the header's content hash.
#[derive(Debug)]
pub struct BackupArtifact {
    pub uuid: String,
    pub directory: String,
    pub header_name: String,
    pub dump_name: String,
    pub content_hash: String,
}

/// A `BackupArtifact` as plain text.
pub struct ArtifactText {
    pub uuid: Seq<char>,
    pub directory: Seq<char>,
    pub header_name: Seq<char>,
    pub dump_name: Seq<char>,
    pub content_hash: Seq<char>,
}

impl ArtifactText {
    /// The path of the raw header.
    pub open spec fn header_path(self) -> Seq<char> {
        path_in(self.directory, self.header_name)
    }

    /// The path of the header's description.
    pub open spec fn dump_path(self) -> Seq<char> {
        path_in(self.directory, self.dump_name)
    }
}

impl View for BackupArtifact {
    type V = ArtifactText;

    open spec fn view(&self) -> ArtifactText {
        ArtifactText {
            uuid: self.uuid@,
            directory: self.directory@,
            header_name: self.header_name@,
            dump_name: self.dump_name@,
            content_hash: self.content_hash@,
        }
    }
}

impl BackupArtifact {
    /// The path of the raw header.
    pub fn header_path(&self) -> (r: String)
        ensures
            r@ == self@.header_path(),
    {
        join_path(self.directory.as_str(), self.header_name.as_str())
    }

    /// The path of the header's description.
    pub fn dump_path(&self) -> (r: String)
        ensures
            r@ == self@.dump_path(),
    {
        join_path(self.directory.as_str(), self.dump_name.as_str())
    }
}

/// The step that a build waits on.
#[derive(Clone, Copy, Debug, PartialEq, Eq, Structural)]
pub enum BuildStage {
    /// The header is being extracted to its staged file.
    BackupHeader,
    /// The description of the staged header is being printed.
    DumpHeader,
    /// The description is being written to its staged file.
    WriteDump,
    /// The staged header is being read back.
    ReadHeader,
    /// The header file is being moved to its canonical name.
    RenameHeader,
    /// The description file is being moved to its canonical name.
    RenameDump,
    /// The header file is being restricted to its owner.
    RestrictHeader,
    /// The description file is being restricted to its owner.
    RestrictDump,
    /// The artifact is complete.
    Finished,
    /// The build was given up.
    Failed,
}

/// What went wrong in a step.
#[derive(Debug)]
pub enum ArtifactFailure {
    /// A tool did not run or did not succeed.
    Tool(CommandError),
    /// A file operation failed; the text is the system's message.
    Io(String),
    /// The report does not answer the step that the build waits on.
    Unexpected,
}

/// An `ArtifactFailure` as plain values.
pub enum ArtifactFailureText {
    Tool(CommandErrorText),
    Io(Seq<char>),
    Unexpected,
}

impl View for ArtifactFailure {
    type V = ArtifactFailureText;

    open spec fn view(&self) -> ArtifactFailureText {
        match *self {
            ArtifactFailure::Tool(e) => ArtifactFailureText::Tool(e@),
            ArtifactFailure::Io(message) => ArtifactFailureText::Io(message@),
            ArtifactFailure::Unexpected => ArtifactFailureText::Unexpected,
        }
    }
}

/// Why an artifact could not be built: the step that failed and the cause.
#[derive(Debug)]
pub struct ArtifactError {
    pub stage: BuildStage,
    pub cause: ArtifactFailure,
}

/// What the caller is to do next.
#[derive(Debug)]
pub enum BuildAction {
    /// Run the tool and report its result.
    RunTool(ToolCommand),
    /// Write `contents` to the file `path`.
    WriteFile { path: String, contents: Vec<u8> },
    /// Read the whole file `path` and report its bytes.
    ReadFile { path: String },
    /// Rename `from` to `to`.
    Rename { from: String, to: String },
    /// Set the permission bits of `path` to `mode`.
    Restrict { path: String, mode: u32 },
    /// Nothing more: the artifact is built.
    Finish(BackupArtifact),
    /// Nothing more: the build has failed.
    Abort(ArtifactError),
}

/// A `BuildAction` as plain values.
pub enum ActionText {
    RunTool(CommandText),
    WriteFile { path: Seq<char>, contents: Seq<u8> },
    ReadFile { path: Seq<char> },
    Rename { from: Seq<char>, to: Seq<char> },
    Restrict { path: Seq<char>, mode: u32 },
    Finish(ArtifactText),
    Abort { stage: BuildStage, cause: ArtifactFailureText },
}

impl View for BuildAction {
    type V = ActionText;

    open spec fn view(&self) -> ActionText {
        match *self {
            BuildAction::RunTool(command) => ActionText::RunTool(command@),
            BuildAction::WriteFile { path, contents } => ActionText::WriteFile {
                path: path@,
                contents: contents@,
            },
            BuildAction::ReadFile { path } => ActionText::ReadFile { path: path@ },
            BuildAction::Rename { from, to } => ActionText::Rename { from: from@, to: to@ },
            BuildAction::Restrict { path, mode } => ActionText::Restrict { path: path@, mode },
            BuildAction::Finish(artifact) => ActionText::Finish(artifact@),
            BuildAction::Abort(e) => ActionText::Abort { stage: e.stage, cause: e.cause@ },
        }
    }
}

/// What the caller reports after carrying out an action.
#[derive(Debug)]
pub enum BuildEvent {
    /// How the tool's run went.
    Tool(ToolResult),
    /// The file operation succeeded.
    Completed,
    /// The file was read; these are its bytes.
    Contents(Vec<u8>),
    /// The file operation failed; the text is the system's message.
    IoFailed(String),
}

/// The permission bits of a finished backup file: read and write for the
/// owner, nothing for anyone else.
pub open spec fn owner_only() -> u32 {
    0o600u32
}

/// The build of one volume's artifact: what it was started with, the step
/// it waits on, and the content hash once the header has been read.
#[derive(Debug)]
pub struct ArtifactBuild {
    pub device: String,
    pub uuid: String,
    pub hostname: String,
    pub staging_dir: String,
    pub stage: BuildStage,
    pub content_hash: String,
}

/// The state of a build after a step, and the action that the step asks for.
pub struct BuildStep {
    pub stage: BuildStage,
    pub content_hash: Seq<char>,
    pub action: ActionText,
}

impl ArtifactBuild {
    /// The staged file that receives the raw header.
    pub open spec fn staged_header(&self) -> Seq<char> {
        path_in(self.staging_dir@, staged_name(self.uuid@, "img"@))
    }

    /// The staged file that receives the header's description.
    pub open spec fn staged_dump(&self) -> Seq<char> {
        path_in(self.staging_dir@, staged_name(self.uuid@, "txt"@))
    }

    /// The canonical path of the raw header, given its content hash.
    pub open spec fn final_header(&self, hash: Seq<char>) -> Seq<char> {
        path_in(self.staging_dir@, canonical_name(self.hostname@, self.uuid@, hash, "img"@))
    }

    /// The canonical path of the description, given the header's content hash.
    pub open spec fn final_dump(&self, hash: Seq<char>) -> Seq<char> {
        path_in(self.staging_dir@, canonical_name(self.hostname@, self.uuid@, hash, "txt"@))
    }

    /// The invocation that extracts the header.
    pub open spec fn backup_command(&self) -> CommandText {
        CommandText {
            program: "cryptsetup"@,
            args: seq![
                "luksHeaderBackup"@,
                self.device@,
                "--header-backup-file"@,
                self.staged_header(),
            ],
        }
    }

    /// The invocation that describes the staged header.
    pub open spec fn dump_command(&self) -> CommandText {
        CommandText { program: "cryptsetup"@, args: seq!["luksDump"@, self.staged_header()] }
    }

    /// The artifact that the build ends with.
    pub open spec fn artifact(&self) -> ArtifactText {
        ArtifactText {
            uuid: self.uuid@,
            directory: self.staging_dir@,
            header_name: canonical_name(self.hostname@, self.uuid@, self.content_hash@, "img"@),
            dump_name: canonical_name(self.hostname@, self.uuid@, self.content_hash@, "txt"@),
            content_hash: self.content_hash@,
        }
    }

    /// The step that gives the build up for `cause`.
    pub open spec fn abort(&self, cause: ArtifactFailureText) -> BuildStep {
        BuildStep {
            stage: BuildStage::Failed,
            content_hash: self.content_hash@,
            action: ActionText::Abort { stage: self.stage, cause },
        }
    }

    /// The step that goes on to `stage` with `action`.
    pub open spec fn proceed(&self, stage: BuildStage, action: ActionText) -> BuildStep {
        BuildStep { stage, content_hash: self.content_hash@, action }
    }

    /// The step that follows a successful report.
    pub open spec fn step_on_success(&self, event: BuildEvent) -> BuildStep {
        match (self.stage, event) {
            (BuildStage::BackupHeader, BuildEvent::Tool(_)) => self.proceed(
                BuildStage::DumpHeader,
                ActionText::RunTool(self.dump_command()),
            ),
            (BuildStage::DumpHeader, BuildEvent::Tool(ToolResult::Exited(output))) => self.proceed(
                BuildStage::WriteDump,
                ActionText::WriteFile { path: self.staged_dump(), contents: output.stdout@ },
            ),
            (BuildStage::WriteDump, BuildEvent::Completed) => self.proceed(
                BuildStage::ReadHeader,
                ActionText::ReadFile { path: self.staged_header() },
            ),
            (BuildStage::ReadHeader, BuildEvent::Contents(header)) => BuildStep {
                stage: BuildStage::RenameHeader,
                content_hash: content_hash_of(header@),
                action: ActionText::Rename {
                    from: self.staged_header(),
                    to: self.final_header(content_hash_of(header@)),
                },
            },
            (BuildStage::RenameHeader, BuildEvent::Completed) => self.proceed(
                BuildStage::RenameDump,
                ActionText::Rename {
                    from: self.staged_dump(),
                    to: self.final_dump(self.content_hash@),
                },
            ),
            (BuildStage::RenameDump, BuildEvent::Completed) => self.proceed(
                BuildStage::RestrictHeader,
                ActionText::Restrict {
                    path: self.final_header(self.content_hash@),
                    mode: owner_only(),
                },
            ),
            (BuildStage::RestrictHeader, BuildEvent::Completed) => self.proceed(
                BuildStage::RestrictDump,
                ActionText::Restrict {
                    path: self.final_dump(self.content_hash@),
                    mode: owner_only(),
                },
            ),
            (BuildStage::RestrictDump, BuildEvent::Completed) => self.proceed(
                BuildStage::Finished,
                ActionText::Finish(self.artifact()),
            ),
            _ => self.abort(ArtifactFailureText::Unexpected),
        }
    }

    /// Whether the build waits on a tool.
    pub open spec fn awaits_tool(&self) -> bool {
        self.stage == BuildStage::BackupHeader || self.stage == BuildStage::DumpHeader
    }

    /// Whether the build waits on a file operation.
    pub open spec fn awaits_file(&self) -> bool {
        !self.awaits_tool() && self.stage != BuildStage::Finished && self.stage
            != BuildStage::Failed
    }

    /// The invocation that the build waits on, where it waits on a tool.
    pub open spec fn awaited_command(&self) -> CommandText {
        if self.stage == BuildStage::BackupHeader {
            self.backup_command()
        } else {
            self.dump_command()
        }
    }

    /// The step that `event` leads to. A failed tool or file operation gives
    /// the build up, with the step and the cause; so does a report that does
    /// not answer the step that the build waits on.
    pub open spec fn step(&self, event: BuildEvent) -> BuildStep {
        match event {
            BuildEvent::Tool(result) => if self.awaits_tool() {
                match tool_verdict(self.awaited_command(), result) {
                    Some(e) => self.abort(ArtifactFailureText::Tool(e)),
                    None => self.step_on_success(event),
                }
            } else {
                self.abort(ArtifactFailureText::Unexpected)
            },
            BuildEvent::IoFailed(message) => if self.awaits_file() {
                self.abort(ArtifactFailureText::Io(message@))
            } else {
                self.abort(ArtifactFailureText::Unexpected)
            },
            _ => self.step_on_success(event),
        }
    }

    /// Whether `other` was started with what `self` was started with.
    pub open spec fn same_inputs(&self, other: &ArtifactBuild) -> bool {
        &&& other.device@ == self.device@
        &&& other.uuid@ == self.uuid@
        &&& other.hostname@ == self.hostname@
        &&& other.staging_dir@ == self.staging_dir@
    }

    fn staged_header_path(&self) -> (r: String)
        ensures
            r@ == self.staged_header(),
    {
        let name = staged_file_name(self.uuid.as_str(), "img");
        join_path(self.staging_dir.as_str(), name.as_str())
    }

    fn staged_dump_path(&self) -> (r: String)
        ensures
            r@ == self.staged_dump(),
    {
        let name = staged_file_name(self.uuid.as_str(), "txt");
        join_path(self.staging_dir.as_str(), name.as_str())
    }

    fn final_header_path(&self) -> (r: String)
        ensures
            r@ == self.final_header(self.content_hash@),
    {
        let name = canonical_file_name(
            self.hostname.as_str(),
            self.uuid.as_str(),
            self.content_hash.as_str(),
            "img",
        );
        join_path(self.staging_dir.as_str(), name.as_str())
    }

    fn final_dump_path(&self) -> (r: String)
        ensures
            r@ == self.final_dump(self.content_hash@),
    {
        let name = canonical_file_name(
            self.hostname.as_str(),
            self.uuid.as_str(),
            self.content_hash.as_str(),
            "txt",
        );
        join_path(self.staging_dir.as_str(), name.as_str())
    }

    fn give_up(self, cause: ArtifactFailure) -> (r: (ArtifactBuild, BuildAction))
        ensures
            self.same_inputs(&r.0),
            r.0.stage == self.abort(cause@).stage,
            r.0.content_hash@ == self.abort(cause@).content_hash,
            r.1@ == self.abort(cause@).action,
    {
        let stage = self.stage;
        let mut next = self;
        next.stage = BuildStage::Failed;
        (next, BuildAction::Abort(ArtifactError { stage, cause }))
    }

    fn go_on(self, stage: BuildStage, action: BuildAction) -> (r: (ArtifactBuild, BuildAction))
        ensures
            self.same_inputs(&r.0),
            r.0.stage == stage,
            r.0.content_hash@ == self.content_hash@,
            r.1 == action,
    {
        let mut next = self;
        next.stage = stage;
        (next, action)
    }

    /// Starts the build of the artifact for the volume `uuid` on `device`:
    /// the first action extracts the header to its staged file in
    /// `staging_dir`.
    pub fn start(device: &str, uuid: &str, hostname: &str, staging_dir: &str) -> (r: (
        ArtifactBuild,
        BuildAction,
    ))
        ensures
            r.0.device@ == device@,
            r.0.uuid@ == uuid@,
            r.0.hostname@ == hostname@,
            r.0.staging_dir@ == staging_dir@,
            r.0.stage == BuildStage::BackupHeader,
            r.0.content_hash@ == Seq::<char>::empty(),
            r.1@ == ActionText::RunTool(r.0.backup_command()),
    {
        let build = ArtifactBuild {
            device: device.to_owned(),
            uuid: uuid.to_owned(),
            hostname: hostname.to_owned(),
            staging_dir: staging_dir.to_owned(),
            stage: BuildStage::BackupHeader,
            content_hash: String::new(),
        };
        let target = build.staged_header_path();
        let command = header_backup_command(build.device.as_str(), target.as_str());
        (build, BuildAction::RunTool(command))
    }

    /// Takes the report on the last action and gives the next one, as
    /// `step` says. The build ends with `Finish` after eight successful
    /// steps, or with `Abort` at the first failure. The content hash that
    /// the build has once the header was read is eight characters long.
    pub fn advance(self, event: BuildEvent) -> (r: (ArtifactBuild, BuildAction))
        ensures
            self.same_inputs(&r.0),
            r.0.stage == self.step(event).stage,
            r.0.content_hash@ == self.step(event).content_hash,
            r.1@ == self.step(event).action,
            self.stage == BuildStage::ReadHeader && event is Contents
                ==> r.0.content_hash@.len() == 8,
    {
        match event {
            BuildEvent::Tool(result) => {
                match self.stage {
                    BuildStage::BackupHeader => {
                        let staged = self.staged_header_path();
                        let command = header_backup_command(self.device.as_str(), staged.as_str());
                        match check_tool_result(command, result) {
                            Ok(_) => {
                                let next = header_dump_command(staged.as_str());
                                self.go_on(BuildStage::DumpHeader, BuildAction::RunTool(next))
                            },
                            Err(e) => self.give_up(ArtifactFailure::Tool(e)),
                        }
                    },
                    BuildStage::DumpHeader => {
                        let staged = self.staged_header_path();
                        let command = header_dump_command(staged.as_str());
                        match check_tool_result(command, result) {
                            Ok(output) => {
                                let path = self.staged_dump_path();
                                self.go_on(
                                    BuildStage::WriteDump,
                                    BuildAction::WriteFile { path, contents: output.stdout },
                                )
                            },
                            Err(e) => self.give_up(ArtifactFailure::Tool(e)),
                        }
                    },
                    _ => self.give_up(ArtifactFailure::Unexpected),
                }
            },
            BuildEvent::IoFailed(message) => {
                match self.stage {
                    BuildStage::BackupHeader | BuildStage::DumpHeader | BuildStage::Finished
                    | BuildStage::Failed => self.give_up(ArtifactFailure::Unexpected),
                    _ => self.give_up(ArtifactFailure::Io(message)),
                }
            },
            BuildEvent::Contents(header) => {
                match self.stage {
                    BuildStage::ReadHeader => {
                        let from = self.staged_header_path();
                        let mut next = self;
                        next.content_hash = content_hash(header.as_slice());
                        next.stage = BuildStage::RenameHeader;
                        let to = next.final_header_path();
                        (next, BuildAction::Rename { from, to })
                    },
                    _ => self.give_up(ArtifactFailure::Unexpected),
                }
            },
            BuildEvent::Completed => {
                match self.stage {
                    BuildStage::WriteDump => {
                        let path = self.staged_header_path();
                        self.go_on(BuildStage::ReadHeader, BuildAction::ReadFile { path })
                    },
                    BuildStage::RenameHeader => {
                        let from = self.staged_dump_path();
                        let to = self.final_dump_path();
                        self.go_on(BuildStage::RenameDump, BuildAction::Rename { from, to })
                    },
                    BuildStage::RenameDump => {
                        let path = self.final_header_path();
                        self.go_on(
                            BuildStage::RestrictHeader,
                            BuildAction::Restrict { path, mode: 0o600 },
                        )
                    },
                    BuildStage::RestrictHeader => {
                        let path = self.final_dump_path();
                        self.go_on(
                            BuildStage::RestrictDump,
                            BuildAction::Restrict { path, mode: 0o600 },
                        )
                    },
                    BuildStage::RestrictDump => {
                        let artifact = BackupArtifact {
                            uuid: self.uuid.clone(),
                            directory: self.staging_dir.clone(),
                            header_name: canonical_file_name(
                                self.hostname.as_str(),
                                self.uuid.as_str(),
                                self.content_hash.as_str(),
                                "img",
                            ),
                            dump_name: canonical_file_name(
                                self.hostname.as_str(),
                                self.uuid.as_str(),
                                self.content_hash.as_str(),
                                "txt",
                            ),
                            content_hash: self.content_hash.clone(),
                        };
                        self.go_on(BuildStage::Finished, BuildAction::Finish(artifact))
                    },
                    _ => self.give_up(ArtifactFailure::Unexpected),
                }
            },
        }
    }
}

/// A failed file operation or a tool that did not succeed gives the build
/// up, whatever step it waits on: nothing follows a failure.
pub proof fn lemma_failure_aborts(build: ArtifactBuild, event: BuildEvent)
    requires
        event is IoFailed || (event matches BuildEvent::Tool(result) && tool_verdict(
            build.awaited_command(),
            result,
        ) is Some),
    ensures
        build.step(event).stage == BuildStage::Failed,
        build.step(event).action is Abort,
{
}

/// A build finishes only from its last step: the artifact is handed out
/// after both files have their canonical names and are restricted.
pub proof fn lemma_finish_is_last(build: ArtifactBuild, event: BuildEvent)
    requires
        build.step(event).action is Finish,
    ensures
        build.stage == BuildStage::RestrictDump,
        event is Completed,
        build.step(event).stage == BuildStage::Finished,
        build.step(event).action == ActionText::Finish(build.artifact()),
{
}

/// Until the staged header has been read back, no step names a file by a
/// content hash: both files are extracted under their staged names.
pub proof fn lemma_extraction_uses_staged_names(build: ArtifactBuild, event: BuildEvent)
    requires
        build.stage == BuildStage::BackupHeader || build.stage == BuildStage::DumpHeader
            || build.stage == BuildStage::WriteDump,
    ensures
        match build.step(event).action {
            ActionText::RunTool(command) => command == build.dump_command(),
            ActionText::WriteFile { path, .. } => path == build.staged_dump(),
            ActionText::ReadFile { path } => path == build.staged_header(),
            ActionText::Abort { .. } => true,
            _ => false,
        },
{
}

} // verus!
