use luks_header_backup::artifact::{
    ArtifactBuild, ArtifactFailure, BuildAction, BuildEvent, BuildStage,
};
use luks_header_backup::command::{CommandError, ToolOutput, ToolResult};

fn tool_ok(stdout: &[u8]) -> BuildEvent {
    BuildEvent::Tool(ToolResult::Exited(ToolOutput {
        exit_code: Some(0),
        stdout: stdout.to_vec(),
        stderr: String::new(),
    }))
}

#[test]
fn build_goes_through_all_steps() {
    let (build, action) = ArtifactBuild::start("/dev/sda1", "1234-abcd", "myhost", "/tmp/stage");
    assert_eq!(build.stage, BuildStage::BackupHeader);
    match action {
        BuildAction::RunTool(c) => {
            assert_eq!(c.program, "cryptsetup");
            assert_eq!(
                c.args,
                vec![
                    "luksHeaderBackup",
                    "/dev/sda1",
                    "--header-backup-file",
                    "/tmp/stage/1234-abcd.img.tmp"
                ]
            );
        }
        other => panic!("unexpected: {:?}", other),
    }

    let (build, action) = build.advance(tool_ok(b""));
    assert_eq!(build.stage, BuildStage::DumpHeader);
    match action {
        BuildAction::RunTool(c) => {
            assert_eq!(c.program, "cryptsetup");
            assert_eq!(c.args, vec!["luksDump", "/tmp/stage/1234-abcd.img.tmp"]);
        }
        other => panic!("unexpected: {:?}", other),
    }

    let (build, action) = build.advance(tool_ok(b"LUKS header information"));
    assert_eq!(build.stage, BuildStage::WriteDump);
    match action {
        BuildAction::WriteFile { path, contents } => {
            assert_eq!(path, "/tmp/stage/1234-abcd.txt.tmp");
            assert_eq!(contents, b"LUKS header information".to_vec());
        }
        other => panic!("unexpected: {:?}", other),
    }

    let (build, action) = build.advance(BuildEvent::Completed);
    assert_eq!(build.stage, BuildStage::ReadHeader);
    match action {
        BuildAction::ReadFile { path } => assert_eq!(path, "/tmp/stage/1234-abcd.img.tmp"),
        other => panic!("unexpected: {:?}", other),
    }

    let (build, action) = build.advance(BuildEvent::Contents(b"abc".to_vec()));
    assert_eq!(build.stage, BuildStage::RenameHeader);
    assert_eq!(build.content_hash, "ba7816bf");
    assert_eq!(build.content_hash.len(), 8);
    match action {
        BuildAction::Rename { from, to } => {
            assert_eq!(from, "/tmp/stage/1234-abcd.img.tmp");
            assert_eq!(to, "/tmp/stage/luks_header_backup.myhost.1234-abcd.ba7816bf.img");
        }
        other => panic!("unexpected: {:?}", other),
    }

    let (build, action) = build.advance(BuildEvent::Completed);
    assert_eq!(build.stage, BuildStage::RenameDump);
    match action {
        BuildAction::Rename { from, to } => {
            assert_eq!(from, "/tmp/stage/1234-abcd.txt.tmp");
            assert_eq!(to, "/tmp/stage/luks_header_backup.myhost.1234-abcd.ba7816bf.txt");
        }
        other => panic!("unexpected: {:?}", other),
    }

    let (build, action) = build.advance(BuildEvent::Completed);
    assert_eq!(build.stage, BuildStage::RestrictHeader);
    match action {
        BuildAction::Restrict { path, mode } => {
            assert_eq!(path, "/tmp/stage/luks_header_backup.myhost.1234-abcd.ba7816bf.img");
            assert_eq!(mode, 0o600);
        }
        other => panic!("unexpected: {:?}", other),
    }

    let (build, action) = build.advance(BuildEvent::Completed);
    assert_eq!(build.stage, BuildStage::RestrictDump);
    match action {
        BuildAction::Restrict { path, mode } => {
            assert_eq!(path, "/tmp/stage/luks_header_backup.myhost.1234-abcd.ba7816bf.txt");
            assert_eq!(mode, 0o600);
        }
        other => panic!("unexpected: {:?}", other),
    }

    let (build, action) = build.advance(BuildEvent::Completed);
    assert_eq!(build.stage, BuildStage::Finished);
    match action {
        BuildAction::Finish(a) => {
            assert_eq!(a.uuid, "1234-abcd");
            assert_eq!(a.directory, "/tmp/stage");
            assert_eq!(a.header_name, "luks_header_backup.myhost.1234-abcd.ba7816bf.img");
            assert_eq!(a.dump_name, "luks_header_backup.myhost.1234-abcd.ba7816bf.txt");
            assert_eq!(a.content_hash, "ba7816bf");
            assert_eq!(
                a.header_path(),
                "/tmp/stage/luks_header_backup.myhost.1234-abcd.ba7816bf.img"
            );
            assert_eq!(
                a.dump_path(),
                "/tmp/stage/luks_header_backup.myhost.1234-abcd.ba7816bf.txt"
            );
        }
        other => panic!("unexpected: {:?}", other),
    }
}

#[test]
fn identical_headers_give_identical_names() {
    let mut names = Vec::new();
    for _ in 0..2 {
        let (b, _) = ArtifactBuild::start("/dev/x", "u", "h", "/s");
        let (b, _) = b.advance(tool_ok(b""));
        let (b, _) = b.advance(tool_ok(b"dump"));
        let (b, _) = b.advance(BuildEvent::Completed);
        let (_, action) = b.advance(BuildEvent::Contents(vec![1, 2, 3, 4, 5]));
        match action {
            BuildAction::Rename { to, .. } => names.push(to),
            other => panic!("unexpected: {:?}", other),
        }
    }
    assert_eq!(names[0], names[1]);
}

#[test]
fn failing_header_backup_aborts_with_context() {
    let (build, _) = ArtifactBuild::start("/dev/sda1", "u", "h", "/s");
    let event = BuildEvent::Tool(ToolResult::Exited(ToolOutput {
        exit_code: Some(1),
        stdout: Vec::new(),
        stderr: "Device /dev/sda1 is not a valid LUKS device.".to_string(),
    }));
    let (build, action) = build.advance(event);
    assert_eq!(build.stage, BuildStage::Failed);
    match action {
        BuildAction::Abort(e) => {
            assert_eq!(e.stage, BuildStage::BackupHeader);
            match e.cause {
                ArtifactFailure::Tool(CommandError::Failed { command, exit_code, stderr }) => {
                    assert_eq!(command.program, "cryptsetup");
                    assert_eq!(command.args[0], "luksHeaderBackup");
                    assert_eq!(exit_code, 1);
                    assert_eq!(stderr, "Device /dev/sda1 is not a valid LUKS device.");
                }
                other => panic!("unexpected: {:?}", other),
            }
        }
        other => panic!("unexpected: {:?}", other),
    }
}

#[test]
fn failing_dump_aborts_with_dump_command() {
    let (build, _) = ArtifactBuild::start("/dev/sda1", "u", "h", "/s");
    let (build, _) = build.advance(tool_ok(b""));
    let (build, action) =
        build.advance(BuildEvent::Tool(ToolResult::NotStarted("not found".to_string())));
    assert_eq!(build.stage, BuildStage::Failed);
    match action {
        BuildAction::Abort(e) => {
            assert_eq!(e.stage, BuildStage::DumpHeader);
            match e.cause {
                ArtifactFailure::Tool(CommandError::NotStarted { command, reason }) => {
                    assert_eq!(command.args, vec!["luksDump", "/s/u.img.tmp"]);
                    assert_eq!(reason, "not found");
                }
                other => panic!("unexpected: {:?}", other),
            }
        }
        other => panic!("unexpected: {:?}", other),
    }
}

#[test]
fn failing_file_operation_aborts() {
    let (build, _) = ArtifactBuild::start("/dev/sda1", "u", "h", "/s");
    let (build, _) = build.advance(tool_ok(b""));
    let (build, _) = build.advance(tool_ok(b"dump"));
    let (build, action) = build.advance(BuildEvent::IoFailed("disk full".to_string()));
    assert_eq!(build.stage, BuildStage::Failed);
    match action {
        BuildAction::Abort(e) => {
            assert_eq!(e.stage, BuildStage::WriteDump);
            assert!(matches!(e.cause, ArtifactFailure::Io(ref m) if m == "disk full"));
        }
        other => panic!("unexpected: {:?}", other),
    }
}

#[test]
fn report_that_answers_nothing_aborts() {
    let (build, _) = ArtifactBuild::start("/dev/sda1", "u", "h", "/s");
    let (build, action) = build.advance(BuildEvent::Completed);
    assert_eq!(build.stage, BuildStage::Failed);
    match action {
        BuildAction::Abort(e) => {
            assert_eq!(e.stage, BuildStage::BackupHeader);
            assert!(matches!(e.cause, ArtifactFailure::Unexpected));
        }
        other => panic!("unexpected: {:?}", other),
    }
    let (build, action) = build.advance(BuildEvent::Completed);
    assert_eq!(build.stage, BuildStage::Failed);
    assert!(matches!(action, BuildAction::Abort(_)));
}
