use luks_header_backup::command::{CommandError, ToolOutput, ToolResult};
use luks_header_backup::discovery::{
    get_luks_device_uuid_map, parse_blkid_output, read_listing, DiscoveryError,
};
use luks_header_backup::volume::VolumeMap;

#[test]
fn test_parse_blkid_output() {
    let sample_output = r#"
DEVNAME=/dev/sda1
UUID=12345678-1234-1234-1234-123456789abc
TYPE=crypto_LUKS

DEVNAME=/dev/sda2
UUID=abcdef12-3456-7890-abcd-ef1234567890
TYPE=ext4

DEVNAME=/dev/sdb1
UUID=87654321-4321-4321-4321-876543210fed
TYPE=crypto_LUKS
"#;

    let result = parse_blkid_output(sample_output).unwrap();

    assert_eq!(result.len(), 2);
    assert_eq!(
        result.get("/dev/sda1").unwrap(),
        "12345678-1234-1234-1234-123456789abc"
    );
    assert_eq!(
        result.get("/dev/sdb1").unwrap(),
        "87654321-4321-4321-4321-876543210fed"
    );
    assert!(result.get("/dev/sda2").is_none());

    // Test empty output
    let empty_result = parse_blkid_output("").unwrap();
    assert!(empty_result.is_empty());

    // Test malformed segment
    let malformed = "DEVNAME=/dev/sdc1\nTYPE=crypto_LUKS\n\nINVALID";
    let malformed_result = parse_blkid_output(malformed).unwrap();
    assert_eq!(malformed_result.len(), 0); // Skips invalid, no UUID
}

#[test]
fn later_record_for_same_device_wins() {
    let text = "DEVNAME=/dev/sda1\nUUID=first\nTYPE=crypto_LUKS\n\nDEVNAME=/dev/sda1\nUUID=second\nTYPE=crypto_LUKS\n";
    let result = parse_blkid_output(text).unwrap();
    assert_eq!(result.len(), 1);
    assert_eq!(result.get("/dev/sda1").unwrap(), "second");
}

#[test]
fn later_entry_for_same_key_wins_within_record() {
    let text = "TYPE=ext4\nDEVNAME=/dev/a\nUUID=u1\nTYPE=crypto_LUKS\nUUID=u2";
    let result = parse_blkid_output(text).unwrap();
    assert_eq!(result.len(), 1);
    assert_eq!(result.get("/dev/a").unwrap(), "u2");
}

#[test]
fn line_with_more_than_one_equals_sign_is_no_entry() {
    let text = "DEVNAME=/dev/sda1\nUUID=a=b\nTYPE=crypto_LUKS";
    let result = parse_blkid_output(text).unwrap();
    assert!(result.is_empty());
    let listing = read_listing(text);
    assert_eq!(listing.skipped, 1);
    assert!(listing.volumes.is_empty());
}

#[test]
fn line_with_more_than_one_equals_sign_leaves_earlier_entry() {
    let text = "DEVNAME=/dev/a\nUUID=u1\nUUID=x=y=z\nDEVNAME=/dev/a=b\nTYPE=crypto_LUKS\nTYPE==";
    let result = parse_blkid_output(text).unwrap();
    assert_eq!(result.len(), 1);
    assert_eq!(result.get("/dev/a").unwrap(), "u1");
    assert!(result.get("/dev/a=b").is_none());
}

#[test]
fn entry_with_empty_key_or_value() {
    let text = "DEVNAME=/dev/a\nUUID=\n=stray\nTYPE=crypto_LUKS";
    let result = parse_blkid_output(text).unwrap();
    assert_eq!(result.len(), 1);
    assert_eq!(result.get("/dev/a").unwrap(), "");
}

#[test]
fn carriage_return_before_line_feed_is_dropped() {
    let text = "DEVNAME=/dev/a\r\nUUID=u\r\nTYPE=crypto_LUKS\r\n";
    let result = parse_blkid_output(text).unwrap();
    assert_eq!(result.len(), 1);
    assert_eq!(result.get("/dev/a").unwrap(), "u");
}

#[test]
fn third_line_feed_belongs_to_next_record() {
    let text = "DEVNAME=/dev/a\nUUID=u\n\n\nTYPE=crypto_LUKS\nDEVNAME=/dev/b\nUUID=v";
    let result = parse_blkid_output(text).unwrap();
    assert_eq!(result.len(), 1);
    assert!(result.get("/dev/a").is_none());
    assert_eq!(result.get("/dev/b").unwrap(), "v");
}

#[test]
fn record_missing_device_name_is_skipped() {
    let text = "UUID=u\nTYPE=crypto_LUKS\n\nDEVNAME=/dev/b\nUUID=v\nTYPE=crypto_LUKS";
    let result = parse_blkid_output(text).unwrap();
    assert_eq!(result.len(), 1);
    assert!(result.contains_key("/dev/b"));
}

#[test]
fn non_ascii_values_are_kept() {
    let text = "DEVNAME=/dev/mapper/süd\nUUID=ü-1\nTYPE=crypto_LUKS";
    let result = parse_blkid_output(text).unwrap();
    assert_eq!(result.get("/dev/mapper/süd").unwrap(), "ü-1");
}

#[test]
fn discovery_from_successful_listing() {
    let stdout = b"DEVNAME=/dev/sda1\nUUID=u1\nTYPE=crypto_LUKS\n\nDEVNAME=/dev/sda2\nTYPE=ext4\n".to_vec();
    let result = ToolResult::Exited(ToolOutput { exit_code: Some(0), stdout, stderr: String::new() });
    let listing = get_luks_device_uuid_map(result).unwrap();
    assert_eq!(listing.volumes.len(), 1);
    assert_eq!(listing.volumes.get("/dev/sda1").unwrap(), "u1");
    assert_eq!(listing.skipped, 0);
}

#[test]
fn discovery_with_no_encrypted_volume_is_empty_not_an_error() {
    let result = ToolResult::Exited(ToolOutput {
        exit_code: Some(0),
        stdout: b"DEVNAME=/dev/sda2\nTYPE=ext4\n".to_vec(),
        stderr: String::new(),
    });
    assert!(get_luks_device_uuid_map(result).unwrap().volumes.is_empty());
}

#[test]
fn discovery_fails_on_undecodable_output() {
    let result = ToolResult::Exited(ToolOutput {
        exit_code: Some(0),
        stdout: vec![0x44, 0xff, 0xfe],
        stderr: String::new(),
    });
    assert!(matches!(get_luks_device_uuid_map(result), Err(DiscoveryError::Undecodable)));
}

#[test]
fn discovery_reads_the_output_whatever_the_exit_code() {
    let stdout = b"DEVNAME=/dev/sda1\nUUID=u1\nTYPE=crypto_LUKS\n".to_vec();
    let result = ToolResult::Exited(ToolOutput {
        exit_code: Some(2),
        stdout,
        stderr: "denied".to_string(),
    });
    let listing = get_luks_device_uuid_map(result).unwrap();
    assert_eq!(listing.volumes.len(), 1);
    assert_eq!(listing.volumes.get("/dev/sda1").unwrap(), "u1");
    let by_signal = ToolResult::Exited(ToolOutput {
        exit_code: None,
        stdout: Vec::new(),
        stderr: String::new(),
    });
    assert!(get_luks_device_uuid_map(by_signal).unwrap().volumes.is_empty());
    let undecodable = ToolResult::Exited(ToolOutput {
        exit_code: Some(1),
        stdout: vec![0xc3],
        stderr: String::new(),
    });
    assert!(matches!(get_luks_device_uuid_map(undecodable), Err(DiscoveryError::Undecodable)));
}

#[test]
fn discovery_fails_when_listing_cannot_start() {
    match get_luks_device_uuid_map(ToolResult::NotStarted("missing".to_string())) {
        Err(DiscoveryError::Tool(CommandError::NotStarted { command, reason })) => {
            assert_eq!(command.program, "blkid");
            assert_eq!(command.args, vec!["-o", "export"]);
            assert_eq!(reason, "missing");
        }
        other => panic!("unexpected: {:?}", other),
    }
}

#[test]
fn volume_map_insert_replaces_and_keeps_order() {
    let mut m = VolumeMap::new();
    assert!(m.is_empty());
    m.insert("/dev/a".to_string(), "1".to_string());
    m.insert("/dev/b".to_string(), "2".to_string());
    m.insert("/dev/a".to_string(), "3".to_string());
    assert_eq!(m.len(), 2);
    assert_eq!(m.get("/dev/a").unwrap(), "3");
    assert_eq!(m.get("/dev/b").unwrap(), "2");
    assert!(m.get("/dev/c").is_none());
    assert!(m.contains_key("/dev/b"));
    assert!(!m.contains_key("/dev/c"));
    assert_eq!(m.entries[0].device_path, "/dev/a");
    assert_eq!(m.entries[1].device_path, "/dev/b");
}

#[test]
fn incomplete_encrypted_records_are_counted() {
    let text = "DEVNAME=/dev/sdc1\nTYPE=crypto_LUKS\n\nUUID=u\nTYPE=crypto_LUKS\n\nTYPE=crypto_LUKS\n\nDEVNAME=/dev/a\nUUID=v\nTYPE=crypto_LUKS\n\nDEVNAME=/dev/b\nTYPE=ext4";
    let listing = read_listing(text);
    assert_eq!(listing.skipped, 3);
    assert_eq!(listing.volumes.len(), 1);
    assert_eq!(listing.volumes.get("/dev/a").unwrap(), "v");
}

#[test]
fn listing_of_empty_text() {
    let listing = read_listing("");
    assert_eq!(listing.skipped, 0);
    assert!(listing.volumes.is_empty());
}
