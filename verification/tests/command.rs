use luks_header_backup::command::{
    check_tool_result, header_backup_command, header_dump_command, listing_command,
    remote_copy_command, CommandError, ToolCommand, ToolOutput, ToolResult,
};

fn sample_command() -> ToolCommand {
    ToolCommand { program: "tool".to_string(), args: vec!["-x".to_string()] }
}

#[test]
fn listing_invocation() {
    let c = listing_command();
    assert_eq!(c.program, "blkid");
    assert_eq!(c.args, vec!["-o", "export"]);
}

#[test]
fn header_backup_invocation() {
    let c = header_backup_command("/dev/sda1", "/tmp/s/u.img.tmp");
    assert_eq!(c.program, "cryptsetup");
    assert_eq!(
        c.args,
        vec!["luksHeaderBackup", "/dev/sda1", "--header-backup-file", "/tmp/s/u.img.tmp"]
    );
}

#[test]
fn header_dump_invocation() {
    let c = header_dump_command("/tmp/s/u.img.tmp");
    assert_eq!(c.program, "cryptsetup");
    assert_eq!(c.args, vec!["luksDump", "/tmp/s/u.img.tmp"]);
}

#[test]
fn remote_copy_invocation() {
    let files = vec!["/s/a.img".to_string(), "/s/a.txt".to_string()];
    let c = remote_copy_command(&files, "root@host:/backup/");
    assert_eq!(c.program, "scp");
    assert_eq!(
        c.args,
        vec![
            "-o",
            "StrictHostKeyChecking=yes",
            "-o",
            "BatchMode=yes",
            "/s/a.img",
            "/s/a.txt",
            "root@host:/backup/"
        ]
    );
}

#[test]
fn remote_copy_invocation_without_files() {
    let c = remote_copy_command(&Vec::new(), "h:/d");
    assert_eq!(c.args, vec!["-o", "StrictHostKeyChecking=yes", "-o", "BatchMode=yes", "h:/d"]);
}

#[test]
fn successful_run_hands_output_on() {
    let output = ToolOutput { exit_code: Some(0), stdout: b"out".to_vec(), stderr: "warn".to_string() };
    let checked = check_tool_result(sample_command(), ToolResult::Exited(output)).unwrap();
    assert_eq!(checked.exit_code, Some(0));
    assert_eq!(checked.stdout, b"out".to_vec());
    assert_eq!(checked.stderr, "warn");
}

#[test]
fn failed_run_reports_code_and_stderr() {
    let output = ToolOutput { exit_code: Some(2), stdout: Vec::new(), stderr: "boom".to_string() };
    match check_tool_result(sample_command(), ToolResult::Exited(output)) {
        Err(CommandError::Failed { command, exit_code, stderr }) => {
            assert_eq!(command.program, "tool");
            assert_eq!(command.args, vec!["-x"]);
            assert_eq!(exit_code, 2);
            assert_eq!(stderr, "boom");
        }
        other => panic!("unexpected: {:?}", other),
    }
}

#[test]
fn run_ended_by_signal_reports_minus_one() {
    let output = ToolOutput { exit_code: None, stdout: Vec::new(), stderr: String::new() };
    match check_tool_result(sample_command(), ToolResult::Exited(output)) {
        Err(CommandError::Failed { exit_code, .. }) => assert_eq!(exit_code, -1),
        other => panic!("unexpected: {:?}", other),
    }
}

#[test]
fn tool_that_did_not_start() {
    match check_tool_result(sample_command(), ToolResult::NotStarted("no such file".to_string())) {
        Err(CommandError::NotStarted { command, reason }) => {
            assert_eq!(command.program, "tool");
            assert_eq!(reason, "no such file");
        }
        other => panic!("unexpected: {:?}", other),
    }
}
