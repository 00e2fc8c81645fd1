use luks_header_backup::artifact::BackupArtifact;
use luks_header_backup::replicate::{
    all_files, failed_destinations, next_todo, overall_success, replication_outcomes,
    replication_plan, Destination, ReplicationStep, StepReport, Todo,
};

fn artifact(uuid: &str) -> BackupArtifact {
    BackupArtifact {
        uuid: uuid.to_string(),
        directory: "/stage".to_string(),
        header_name: format!("luks_header_backup.h.{}.00112233.img", uuid),
        dump_name: format!("luks_header_backup.h.{}.00112233.txt", uuid),
        content_hash: "00112233".to_string(),
    }
}

fn expect_copy(steps: &[ReplicationStep], d: usize, source: &str, staged: &str, target: &str) {
    match &steps[0] {
        ReplicationStep::Copy { destination, source: s, staged: t } => {
            assert_eq!(*destination, d);
            assert_eq!(s, source);
            assert_eq!(t, staged);
        }
        other => panic!("unexpected: {:?}", other),
    }
    match &steps[1] {
        ReplicationStep::MoveIntoPlace { destination, staged: t, target: f } => {
            assert_eq!(*destination, d);
            assert_eq!(t, staged);
            assert_eq!(f, target);
        }
        other => panic!("unexpected: {:?}", other),
    }
}

fn run_with(plan: &Vec<ReplicationStep>, fails: &[usize]) -> (Vec<StepReport>, Vec<usize>) {
    let mut reports = Vec::new();
    let mut carried_out = Vec::new();
    loop {
        match next_todo(plan, &reports) {
            Todo::Finished => break,
            Todo::Record(report) => reports.push(report),
            Todo::CarryOut => {
                let k = reports.len();
                carried_out.push(k);
                if fails.contains(&k) {
                    reports.push(StepReport::Failed(format!("step {} failed", k)));
                } else {
                    reports.push(StepReport::Done);
                }
            }
        }
    }
    (reports, carried_out)
}

#[test]
fn plan_for_local_and_remote() {
    let artifacts = vec![artifact("u1"), artifact("u2")];
    let destinations = vec![
        Destination::Local("/backup".to_string()),
        Destination::Remote("root@host:/b/".to_string()),
    ];
    let plan = replication_plan(&artifacts, &destinations);
    assert_eq!(plan.len(), 10);
    match &plan[0] {
        ReplicationStep::EnsureDirectory { destination, path } => {
            assert_eq!(*destination, 0);
            assert_eq!(path, "/backup");
        }
        other => panic!("unexpected: {:?}", other),
    }
    expect_copy(
        &plan[1..3],
        0,
        "/stage/luks_header_backup.h.u1.00112233.img",
        "/backup/.luks_header_backup.h.u1.00112233.img.tmp",
        "/backup/luks_header_backup.h.u1.00112233.img",
    );
    expect_copy(
        &plan[3..5],
        0,
        "/stage/luks_header_backup.h.u1.00112233.txt",
        "/backup/.luks_header_backup.h.u1.00112233.txt.tmp",
        "/backup/luks_header_backup.h.u1.00112233.txt",
    );
    expect_copy(
        &plan[5..7],
        0,
        "/stage/luks_header_backup.h.u2.00112233.img",
        "/backup/.luks_header_backup.h.u2.00112233.img.tmp",
        "/backup/luks_header_backup.h.u2.00112233.img",
    );
    expect_copy(
        &plan[7..9],
        0,
        "/stage/luks_header_backup.h.u2.00112233.txt",
        "/backup/.luks_header_backup.h.u2.00112233.txt.tmp",
        "/backup/luks_header_backup.h.u2.00112233.txt",
    );
    match &plan[9] {
        ReplicationStep::Transfer { destination, command } => {
            assert_eq!(*destination, 1);
            assert_eq!(command.program, "scp");
            assert_eq!(
                command.args,
                vec![
                    "-o",
                    "StrictHostKeyChecking=yes",
                    "-o",
                    "BatchMode=yes",
                    "/stage/luks_header_backup.h.u1.00112233.img",
                    "/stage/luks_header_backup.h.u1.00112233.txt",
                    "/stage/luks_header_backup.h.u2.00112233.img",
                    "/stage/luks_header_backup.h.u2.00112233.txt",
                    "root@host:/b/"
                ]
            );
        }
        other => panic!("unexpected: {:?}", other),
    }
    assert_eq!(plan[9].destination(), 1);
}

#[test]
fn plan_without_artifacts_sends_nothing() {
    let destinations = vec![
        Destination::Remote("h:/b".to_string()),
        Destination::Local("/backup".to_string()),
    ];
    let plan = replication_plan(&Vec::new(), &destinations);
    assert_eq!(plan.len(), 1);
    assert!(matches!(plan[0], ReplicationStep::EnsureDirectory { destination: 1, .. }));
}

#[test]
fn plan_without_destinations_is_empty() {
    assert!(replication_plan(&vec![artifact("u")], &Vec::new()).is_empty());
}

#[test]
fn all_files_lists_both_files_of_each_artifact() {
    let files = all_files(&vec![artifact("a"), artifact("b")]);
    assert_eq!(
        files,
        vec![
            "/stage/luks_header_backup.h.a.00112233.img",
            "/stage/luks_header_backup.h.a.00112233.txt",
            "/stage/luks_header_backup.h.b.00112233.img",
            "/stage/luks_header_backup.h.b.00112233.txt"
        ]
    );
}

#[test]
fn one_unwritable_destination_does_not_stop_the_other() {
    let artifacts = vec![artifact("u1")];
    let destinations = vec![
        Destination::Local("/readonly".to_string()),
        Destination::Local("/writable".to_string()),
    ];
    let plan = replication_plan(&artifacts, &destinations);
    assert_eq!(plan.len(), 10);
    // every step of the second destination is planned whatever happens at the first
    assert!(plan[..5].iter().all(|s| s.destination() == 0));
    assert!(plan[5..].iter().all(|s| s.destination() == 1));
    let (reports, carried_out) = run_with(&plan, &[0, 1, 3]);
    // the copies that failed are not moved into place; all else is attempted
    assert_eq!(carried_out, vec![0, 1, 3, 5, 6, 7, 8, 9]);
    assert_eq!(reports.len(), 10);
    let outcomes = replication_outcomes(&destinations, &plan, &reports);
    assert_eq!(outcomes.len(), 2);
    assert!(!outcomes[0].succeeded);
    assert_eq!(outcomes[0].error.as_deref(), Some("step 0 failed"));
    assert!(matches!(outcomes[0].destination, Destination::Local(ref d) if d == "/readonly"));
    assert!(outcomes[1].succeeded);
    assert_eq!(outcomes[1].error, None);
    assert!(matches!(outcomes[1].destination, Destination::Local(ref d) if d == "/writable"));
    assert!(!overall_success(&outcomes));
    assert_eq!(failed_destinations(&outcomes), vec![0]);
}

#[test]
fn failed_copy_of_one_artifact_marks_destination_failed() {
    let artifacts = vec![artifact("u1"), artifact("u2")];
    let destinations = vec![Destination::Local("/b".to_string())];
    let plan = replication_plan(&artifacts, &destinations);
    assert_eq!(plan.len(), 9);
    let (reports, carried_out) = run_with(&plan, &[3]);
    // the remaining files are still copied and moved into place
    assert_eq!(carried_out, vec![0, 1, 2, 3, 5, 6, 7, 8]);
    assert!(matches!(reports[4], StepReport::Failed(ref m) if m == "not attempted"));
    let outcomes = replication_outcomes(&destinations, &plan, &reports);
    assert!(!outcomes[0].succeeded);
    assert_eq!(outcomes[0].error.as_deref(), Some("step 3 failed"));
}

#[test]
fn all_steps_done_means_success() {
    let artifacts = vec![artifact("u1")];
    let destinations = vec![
        Destination::Local("/b".to_string()),
        Destination::Remote("h:/b".to_string()),
    ];
    let plan = replication_plan(&artifacts, &destinations);
    let reports: Vec<StepReport> = plan.iter().map(|_| StepReport::Done).collect();
    let outcomes = replication_outcomes(&destinations, &plan, &reports);
    assert!(outcomes.iter().all(|o| o.succeeded && o.error.is_none()));
    assert!(overall_success(&outcomes));
    assert!(failed_destinations(&outcomes).is_empty());
}

#[test]
fn step_without_report_counts_as_not_attempted() {
    let artifacts = vec![artifact("u1")];
    let destinations = vec![
        Destination::Local("/b".to_string()),
        Destination::Remote("h:/b".to_string()),
    ];
    let plan = replication_plan(&artifacts, &destinations);
    let reports = vec![
        StepReport::Done,
        StepReport::Done,
        StepReport::Done,
        StepReport::Done,
        StepReport::Done,
    ];
    let outcomes = replication_outcomes(&destinations, &plan, &reports);
    assert!(outcomes[0].succeeded);
    assert!(!outcomes[1].succeeded);
    assert_eq!(outcomes[1].error.as_deref(), Some("not attempted"));
    assert_eq!(failed_destinations(&outcomes), vec![1]);
}

#[test]
fn failing_remote_leaves_other_remote_alone() {
    let artifacts = vec![artifact("u1")];
    let destinations = vec![
        Destination::Remote("bad:/b".to_string()),
        Destination::Remote("good:/b".to_string()),
    ];
    let plan = replication_plan(&artifacts, &destinations);
    assert_eq!(plan.len(), 2);
    let reports = vec![StepReport::Failed("host key mismatch".to_string()), StepReport::Done];
    let outcomes = replication_outcomes(&destinations, &plan, &reports);
    assert!(!outcomes[0].succeeded);
    assert!(outcomes[1].succeeded);
    assert!(!overall_success(&outcomes));
}

#[test]
fn file_is_moved_into_place_only_after_its_copy() {
    let plan = replication_plan(&vec![artifact("u1")], &vec![Destination::Local("/b".to_string())]);
    assert!(matches!(next_todo(&plan, &Vec::new()), Todo::CarryOut));
    let copied = vec![StepReport::Done, StepReport::Done];
    assert!(matches!(plan[2], ReplicationStep::MoveIntoPlace { .. }));
    assert!(matches!(next_todo(&plan, &copied), Todo::CarryOut));
    let failed = vec![StepReport::Done, StepReport::Failed("short write".to_string())];
    match next_todo(&plan, &failed) {
        Todo::Record(StepReport::Failed(message)) => assert_eq!(message, "not attempted"),
        other => panic!("unexpected: {:?}", other),
    }
    let (reports, _) = run_with(&plan, &[]);
    assert_eq!(reports.len(), 5);
    assert!(matches!(next_todo(&plan, &reports), Todo::Finished));
}
