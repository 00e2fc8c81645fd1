//! Replication of the artifacts to local directories and remote endpoints:
//! the steps to carry out, and the outcome of each destination.

use vstd::prelude::*;
use vstd::string::*;
use crate::artifact::{ArtifactText, BackupArtifact};
use crate::command::{remote_copy_command, remote_copy_options, texts, CommandText, ToolCommand};
use crate::naming::{hidden_file_name, hidden_name, join_path, path_in};

verus! {

/// Where artifacts are replicated to.
#[derive(Debug)]
pub enum Destination {
    /// A directory of this machine.
    Local(String),
    /// An endpoint that the transfer tool understands, such as
    /// `user@host:/path/`; it is handed to the tool as it is.
    Remote(String),
}

/// A `Destination` as plain text.
pub enum DestinationText {
    Local(Seq<char>),
    Remote(Seq<char>),
}

impl View for Destination {
    type V = DestinationText;

    open spec fn view(&self) -> DestinationText {
        match *self {
            Destination::Local(directory) => DestinationText::Local(directory@),
            Destination::Remote(endpoint) => DestinationText::Remote(endpoint@),
        }
    }
}

/// One step of a replication. `destination` is the position of the
/// destination that the step serves.
#[derive(Debug)]
pub enum ReplicationStep {
    /// Create the directory `path`, and what is missing above it.
    EnsureDirectory { destination: usize, path: String },
    /// Copy the file `source` to the file `staged`.
    Copy { destination: usize, source: String, staged: String },
    /// Rename `staged` to `target`.
    MoveIntoPlace { destination: usize, staged: String, target: String },
    /// Run the transfer tool.
    Transfer { destination: usize, command: ToolCommand },
}

/// A `ReplicationStep` as plain values.
pub enum StepText {
    EnsureDirectory { destination: int, path: Seq<char> },
    Copy { destination: int, source: Seq<char>, staged: Seq<char> },
    MoveIntoPlace { destination: int, staged: Seq<char>, target: Seq<char> },
    Transfer { destination: int, command: CommandText },
}

impl StepText {
    /// The position of the destination that the step serves.
    pub open spec fn destination(self) -> int {
        match self {
            StepText::EnsureDirectory { destination, .. } => destination,
            StepText::Copy { destination, .. } => destination,
            StepText::MoveIntoPlace { destination, .. } => destination,
            StepText::Transfer { destination, .. } => destination,
        }
    }
}

impl View for ReplicationStep {
    type V = StepText;

    open spec fn view(&self) -> StepText {
        match *self {
            ReplicationStep::EnsureDirectory { destination, path } => StepText::EnsureDirectory {
                destination: destination as int,
                path: path@,
            },
            ReplicationStep::Copy { destination, source, staged } => StepText::Copy {
                destination: destination as int,
                source: source@,
                staged: staged@,
            },
            ReplicationStep::MoveIntoPlace {
                destination,
                staged,
                target,
            } => StepText::MoveIntoPlace {
                destination: destination as int,
                staged: staged@,
                target: target@,
            },
            ReplicationStep::Transfer { destination, command } => StepText::Transfer {
                destination: destination as int,
                command: command@,
            },
        }
    }
}

impl ReplicationStep {
    /// The position of the destination that the step serves.
    pub fn destination(&self) -> (r: usize)
        ensures
            r == self@.destination(),
    {
        match self {
            ReplicationStep::EnsureDirectory { destination, .. } => *destination,
            ReplicationStep::Copy { destination, .. } => *destination,
            ReplicationStep::MoveIntoPlace { destination, .. } => *destination,
            ReplicationStep::Transfer { destination, .. } => *destination,
        }
    }
}

/// The plain values of a run of items.
pub open spec fn views<T: View>(items: Seq<T>) -> Seq<T::V> {
    Seq::new(items.len(), |i: int| items[i]@)
}

/// The step that copies the file `name` from the directory `from` into the
/// directory `into`, where it is written under a hidden name.
pub open spec fn copy_step(
    destination: int,
    from: Seq<char>,
    into: Seq<char>,
    name: Seq<char>,
) -> StepText {
    StepText::Copy {
        destination,
        source: path_in(from, name),
        staged: path_in(into, hidden_name(name)),
    }
}

/// The step that gives the copy of the file `name` in the directory `into`
/// its final name.
pub open spec fn move_step(destination: int, into: Seq<char>, name: Seq<char>) -> StepText {
    StepText::MoveIntoPlace {
        destination,
        staged: path_in(into, hidden_name(name)),
        target: path_in(into, name),
    }
}

/// The steps that bring both files of each artifact into `directory`: each
/// file is copied under a hidden name and then moved into place.
pub open spec fn copies_into(
    destination: int,
    directory: Seq<char>,
    artifacts: Seq<ArtifactText>,
) -> Seq<StepText>
    decreases artifacts.len(),
{
    if artifacts.len() == 0 {
        Seq::empty()
    } else {
        let a = artifacts.last();
        copies_into(destination, directory, artifacts.drop_last()) + seq![
            copy_step(destination, a.directory, directory, a.header_name),
            move_step(destination, directory, a.header_name),
            copy_step(destination, a.directory, directory, a.dump_name),
            move_step(destination, directory, a.dump_name),
        ]
    }
}

/// The paths of both files of each artifact.
pub open spec fn artifact_files(artifacts: Seq<ArtifactText>) -> Seq<Seq<char>>
    decreases artifacts.len(),
{
    if artifacts.len() == 0 {
        Seq::empty()
    } else {
        artifact_files(artifacts.drop_last()) + seq![
            artifacts.last().header_path(),
            artifacts.last().dump_path(),
        ]
    }
}

/// The steps that serve one destination. A directory is created where it
/// is missing, and receives each file by a copy under a hidden name that is
/// then moved into place. An endpoint
/// receives all files in one transfer; without artifacts nothing is sent.
pub open spec fn steps_for(
    destination: int,
    target: DestinationText,
    artifacts: Seq<ArtifactText>,
) -> Seq<StepText> {
    match target {
        DestinationText::Local(directory) => seq![
            StepText::EnsureDirectory { destination, path: directory },
        ] + copies_into(destination, directory, artifacts),
        DestinationText::Remote(endpoint) => if artifacts.len() == 0 {
            Seq::empty()
        } else {
            seq![
                StepText::Transfer {
                    destination,
                    command: CommandText {
                        program: "scp"@,
                        args: remote_copy_options() + artifact_files(artifacts) + seq![endpoint],
                    },
                },
            ]
        },
    }
}

/// The steps of a replication: those of each destination, in the order of
/// the destinations.
pub open spec fn plan_for(
    destinations: Seq<DestinationText>,
    artifacts: Seq<ArtifactText>,
) -> Seq<StepText>
    decreases destinations.len(),
{
    if destinations.len() == 0 {
        Seq::empty()
    } else {
        plan_for(destinations.drop_last(), artifacts) + steps_for(
            destinations.len() - 1,
            destinations.last(),
            artifacts,
        )
    }
}

/// Whether `first` copies a file under a hidden name and `second` gives
/// that copy its final name in the same directory.
pub open spec fn is_staged_pair(first: StepText, second: StepText) -> bool {
    exists|from: Seq<char>, into: Seq<char>, name: Seq<char>|
        first == #[trigger] copy_step(first.destination(), from, into, name) && second
            == move_step(first.destination(), into, name)
}

/// Whether the step at `k`, if it copies or moves a file, is one half of a
/// copy under a hidden name followed by the move into place.
pub open spec fn is_staged(steps: Seq<StepText>, k: int) -> bool {
    match steps[k] {
        StepText::Copy { .. } => k + 1 < steps.len() && is_staged_pair(steps[k], steps[k + 1]),
        StepText::MoveIntoPlace { .. } => 0 < k && is_staged_pair(steps[k - 1], steps[k]),
        _ => true,
    }
}

/// Every file that is brought into a directory is written under a hidden
/// name, and gets its final name by the step that follows.
pub proof fn lemma_copies_are_staged(
    destination: int,
    directory: Seq<char>,
    artifacts: Seq<ArtifactText>,
    k: int,
)
    requires
        0 <= k < copies_into(destination, directory, artifacts).len(),
    ensures
        is_staged(copies_into(destination, directory, artifacts), k),
        copies_into(destination, directory, artifacts)[k] is Copy || copies_into(
            destination,
            directory,
            artifacts,
        )[k] is MoveIntoPlace,
    decreases artifacts.len(),
{
    if artifacts.len() > 0 {
        let a = artifacts.last();
        let earlier = copies_into(destination, directory, artifacts.drop_last());
        let all = copies_into(destination, directory, artifacts);
        let n = earlier.len() as int;
        assert(all.len() == n + 4);
        assert(all[n] == copy_step(destination, a.directory, directory, a.header_name));
        assert(all[n + 1] == move_step(destination, directory, a.header_name));
        assert(all[n + 2] == copy_step(destination, a.directory, directory, a.dump_name));
        assert(all[n + 3] == move_step(destination, directory, a.dump_name));
        if k < n {
            lemma_copies_are_staged(destination, directory, artifacts.drop_last(), k);
            assert(all[k] == earlier[k]);
            if k + 1 < n {
                assert(all[k + 1] == earlier[k + 1]);
            }
            if k > 0 {
                assert(all[k - 1] == earlier[k - 1]);
            }
            if k + 1 == n {
                // the last step of a directory's earlier copies is a move
                lemma_copies_end_with_move(destination, directory, artifacts.drop_last());
            }
        }
    }
}

/// The steps that bring files into a directory come in fours, and the last
/// of them, if there is one, is a move.
pub proof fn lemma_copies_end_with_move(
    destination: int,
    directory: Seq<char>,
    artifacts: Seq<ArtifactText>,
)
    ensures
        copies_into(destination, directory, artifacts).len() == 4 * artifacts.len(),
        artifacts.len() > 0 ==> copies_into(destination, directory, artifacts).last()
            is MoveIntoPlace,
    decreases artifacts.len(),
{
    if artifacts.len() > 0 {
        lemma_copies_end_with_move(destination, directory, artifacts.drop_last());
    }
}

/// No step of a replication writes a file under its final name: every copy
/// is written under a hidden name, and the step that follows it moves it
/// into place.
pub proof fn lemma_plan_writes_under_hidden_names(
    destinations: Seq<DestinationText>,
    artifacts: Seq<ArtifactText>,
    k: int,
)
    requires
        0 <= k < plan_for(destinations, artifacts).len(),
    ensures
        is_staged(plan_for(destinations, artifacts), k),
    decreases destinations.len(),
{
    if destinations.len() > 0 {
        let earlier = plan_for(destinations.drop_last(), artifacts);
        let position = destinations.len() - 1;
        let own = steps_for(position, destinations.last(), artifacts);
        let all = plan_for(destinations, artifacts);
        let n = earlier.len() as int;
        assert(all == earlier + own);
        if k < n {
            lemma_plan_writes_under_hidden_names(destinations.drop_last(), artifacts, k);
            assert(all[k] == earlier[k]);
            if k + 1 < n {
                assert(all[k + 1] == earlier[k + 1]);
            }
            if k > 0 {
                assert(all[k - 1] == earlier[k - 1]);
            }
        } else {
            assert(all[k] == own[k - n]);
            match destinations.last() {
                DestinationText::Local(directory) => {
                    let copies = copies_into(position, directory, artifacts);
                    if k - n >= 1 {
                        let c = k - n - 1;
                        lemma_copies_are_staged(position, directory, artifacts, c);
                        assert(own[k - n] == copies[c]);
                        if c + 1 < copies.len() {
                            assert(all[k + 1] == copies[c + 1]);
                        }
                        if c > 0 {
                            assert(all[k - 1] == copies[c - 1]);
                        }
                    }
                },
                DestinationText::Remote(_) => {},
            }
        }
    }
}

/// Where in the plan the steps of the destination at `position` begin.
pub open spec fn steps_begin(
    destinations: Seq<DestinationText>,
    artifacts: Seq<ArtifactText>,
    position: int,
) -> int {
    plan_for(destinations.take(position), artifacts).len() as int
}

/// The plan holds the steps of every destination, whatever the other
/// destinations are.
pub proof fn lemma_plan_serves_every_destination(
    destinations: Seq<DestinationText>,
    artifacts: Seq<ArtifactText>,
    position: int,
)
    requires
        0 <= position < destinations.len(),
    ensures
        steps_begin(destinations, artifacts, position) + steps_for(
            position,
            destinations[position],
            artifacts,
        ).len() <= plan_for(destinations, artifacts).len(),
        plan_for(destinations, artifacts).subrange(
            steps_begin(destinations, artifacts, position),
            steps_begin(destinations, artifacts, position) + steps_for(
                position,
                destinations[position],
                artifacts,
            ).len(),
        ) == steps_for(position, destinations[position], artifacts),
    decreases destinations.len(),
{
    let init = destinations.drop_last();
    let earlier = plan_for(init, artifacts);
    let own = steps_for(position, destinations[position], artifacts);
    let begin = steps_begin(destinations, artifacts, position);
    if position == destinations.len() - 1 {
        assert(destinations.take(position) =~= init);
        assert(plan_for(destinations, artifacts).subrange(begin, begin + own.len()) =~= own);
    } else {
        lemma_plan_serves_every_destination(init, artifacts, position);
        assert(init.take(position) =~= destinations.take(position));
        assert(init[position] == destinations[position]);
        assert(plan_for(destinations, artifacts).subrange(begin, begin + own.len())
            =~= earlier.subrange(begin, begin + own.len()));
    }
}

/// The paths of both files of each artifact, in the artifacts' order.
pub fn all_files(artifacts: &Vec<BackupArtifact>) -> (r: Vec<String>)
    ensures
        texts(r@) == artifact_files(views(artifacts@)),
{
    let mut files: Vec<String> = Vec::new();
    let mut i: usize = 0;
    proof {
        assert(views(artifacts@.subrange(0, 0)) =~= Seq::<ArtifactText>::empty());
        assert(texts(files@) =~= artifact_files(views(artifacts@.subrange(0, 0))));
    }
    while i < artifacts.len()
        invariant
            i <= artifacts@.len(),
            texts(files@) == artifact_files(views(artifacts@.subrange(0, i as int))),
        decreases artifacts@.len() - i,
    {
        let ghost before = files@;
        files.push(artifacts[i].header_path());
        files.push(artifacts[i].dump_path());
        proof {
            let done = views(artifacts@.subrange(0, i + 1));
            assert(done.drop_last() =~= views(artifacts@.subrange(0, i as int)));
            assert(done.last() == artifacts@[i as int]@);
            assert(texts(files@) =~= texts(before) + seq![
                artifacts@[i as int]@.header_path(),
                artifacts@[i as int]@.dump_path(),
            ]);
        }
        i += 1;
    }
    proof {
        assert(artifacts@.subrange(0, i as int) =~= artifacts@);
    }
    files
}

/// Appends to `plan` the steps that serve the destination at `position`.
fn push_steps_for(
    plan: &mut Vec<ReplicationStep>,
    position: usize,
    target: &Destination,
    artifacts: &Vec<BackupArtifact>,
)
    ensures
        views(final(plan)@) == views(old(plan)@) + steps_for(
            position as int,
            target@,
            views(artifacts@),
        ),
{
    let ghost start = views(plan@);
    match target {
        Destination::Local(directory) => {
            plan.push(
                ReplicationStep::EnsureDirectory { destination: position, path: directory.clone() },
            );
            let ghost head = seq![
                StepText::EnsureDirectory { destination: position as int, path: directory@ },
            ];
            proof {
                assert(views(artifacts@.subrange(0, 0)) =~= Seq::<ArtifactText>::empty());
                assert(views(plan@) =~= start + head + copies_into(
                    position as int,
                    directory@,
                    views(artifacts@.subrange(0, 0)),
                ));
            }
            let mut i: usize = 0;
            while i < artifacts.len()
                invariant
                    i <= artifacts@.len(),
                    views(plan@) == start + head + copies_into(
                        position as int,
                        directory@,
                        views(artifacts@.subrange(0, i as int)),
                    ),
                decreases artifacts@.len() - i,
            {
                let ghost before = views(plan@);
                let a = &artifacts[i];
                let hidden_header = hidden_file_name(a.header_name.as_str());
                let hidden_dump = hidden_file_name(a.dump_name.as_str());
                plan.push(
                    ReplicationStep::Copy {
                        destination: position,
                        source: a.header_path(),
                        staged: join_path(directory.as_str(), hidden_header.as_str()),
                    },
                );
                plan.push(
                    ReplicationStep::MoveIntoPlace {
                        destination: position,
                        staged: join_path(directory.as_str(), hidden_header.as_str()),
                        target: join_path(directory.as_str(), a.header_name.as_str()),
                    },
                );
                plan.push(
                    ReplicationStep::Copy {
                        destination: position,
                        source: a.dump_path(),
                        staged: join_path(directory.as_str(), hidden_dump.as_str()),
                    },
                );
                plan.push(
                    ReplicationStep::MoveIntoPlace {
                        destination: position,
                        staged: join_path(directory.as_str(), hidden_dump.as_str()),
                        target: join_path(directory.as_str(), a.dump_name.as_str()),
                    },
                );
                proof {
                    let done = views(artifacts@.subrange(0, i + 1));
                    assert(done.drop_last() =~= views(artifacts@.subrange(0, i as int)));
                    assert(done.last() == a@);
                    let pair = seq![
                        copy_step(position as int, a@.directory, directory@, a@.header_name),
                        move_step(position as int, directory@, a@.header_name),
                        copy_step(position as int, a@.directory, directory@, a@.dump_name),
                        move_step(position as int, directory@, a@.dump_name),
                    ];
                    assert(views(plan@) =~= before + pair);
                    assert(before + pair =~= start + head + copies_into(
                        position as int,
                        directory@,
                        done,
                    ));
                }
                i += 1;
            }
            proof {
                assert(artifacts@.subrange(0, i as int) =~= artifacts@);
                assert(start + head + copies_into(position as int, directory@, views(artifacts@))
                    =~= start + steps_for(position as int, target@, views(artifacts@)));
            }
        },
        Destination::Remote(endpoint) => {
            if artifacts.len() > 0 {
                let files = all_files(artifacts);
                let command = remote_copy_command(&files, endpoint.as_str());
                plan.push(ReplicationStep::Transfer { destination: position, command });
                proof {
                    assert(views(plan@) =~= start + steps_for(
                        position as int,
                        target@,
                        views(artifacts@),
                    ));
                }
            } else {
                proof {
                    assert(views(artifacts@).len() == 0);
                    assert(views(plan@) =~= start + steps_for(
                        position as int,
                        target@,
                        views(artifacts@),
                    ));
                }
            }
        },
    }
}

/// The steps that replicate `artifacts` to every one of `destinations`.
/// What the steps are does not depend on how any of them goes: each
/// destination is served whatever happens at the others.
pub fn replication_plan(
    artifacts: &Vec<BackupArtifact>,
    destinations: &Vec<Destination>,
) -> (r: Vec<ReplicationStep>)
    ensures
        views(r@) == plan_for(views(destinations@), views(artifacts@)),
{
    let mut plan: Vec<ReplicationStep> = Vec::new();
    let mut d: usize = 0;
    proof {
        assert(views(destinations@.subrange(0, 0)) =~= Seq::<DestinationText>::empty());
        assert(views(plan@) =~= plan_for(views(destinations@.subrange(0, 0)), views(artifacts@)));
    }
    while d < destinations.len()
        invariant
            d <= destinations@.len(),
            views(plan@) == plan_for(views(destinations@.subrange(0, d as int)), views(artifacts@)),
        decreases destinations@.len() - d,
    {
        push_steps_for(&mut plan, d, &destinations[d], artifacts);
        proof {
            let done = views(destinations@.subrange(0, d + 1));
            assert(done.drop_last() =~= views(destinations@.subrange(0, d as int)));
            assert(done.last() == destinations@[d as int]@);
        }
        d += 1;
    }
    proof {
        assert(destinations@.subrange(0, d as int) =~= destinations@);
    }
    plan
}

/// How a step went.
#[derive(Debug)]
pub enum StepReport {
    /// The step was carried out.
    Done,
    /// The step failed; the text says why.
    Failed(String),
}

/// What became of one destination: whether every step that serves it was
/// carried out, and if not, why the first of them was not.
#[derive(Debug)]
pub struct ReplicationOutcome {
    pub destination: Destination,
    pub succeeded: bool,
    pub error: Option<String>,
}

/// A `ReplicationOutcome` as plain values.
pub struct OutcomeText {
    pub destination: DestinationText,
    pub succeeded: bool,
    pub error: Option<Seq<char>>,
}

/// An optional string as plain text.
pub open spec fn optional_text(s: Option<String>) -> Option<Seq<char>> {
    match s {
        Some(text) => Some(text@),
        None => None,
    }
}

impl View for ReplicationOutcome {
    type V = OutcomeText;

    open spec fn view(&self) -> OutcomeText {
        OutcomeText {
            destination: self.destination@,
            succeeded: self.succeeded,
            error: optional_text(self.error),
        }
    }
}

/// Why the step at `position` does not count as carried out, if it does
/// not. A step without a report was not attempted.
pub open spec fn step_failure(reports: Seq<StepReport>, position: int) -> Option<Seq<char>> {
    if 0 <= position < reports.len() {
        match reports[position] {
            StepReport::Done => None,
            StepReport::Failed(message) => Some(message@),
        }
    } else {
        Some("not attempted"@)
    }
}

/// The failure of the first step at or after `from` that serves
/// `destination` and was not carried out.
pub open spec fn first_failure(
    plan: Seq<StepText>,
    reports: Seq<StepReport>,
    destination: int,
    from: int,
) -> Option<Seq<char>>
    decreases plan.len() - from,
{
    if from < 0 || from >= plan.len() {
        None
    } else if plan[from].destination() == destination && step_failure(reports, from) is Some {
        step_failure(reports, from)
    } else {
        first_failure(plan, reports, destination, from + 1)
    }
}

/// The outcome of `destination`, the one at `position`: it succeeded if
/// none of its steps failed, whatever became of the steps of the others.
pub open spec fn outcome_of(
    plan: Seq<StepText>,
    reports: Seq<StepReport>,
    destination: DestinationText,
    position: int,
) -> OutcomeText {
    OutcomeText {
        destination,
        succeeded: first_failure(plan, reports, position, 0) is None,
        error: first_failure(plan, reports, position, 0),
    }
}

/// The outcome of a destination depends on the reports of its own steps
/// alone: reports that differ only on other destinations' steps give it
/// the same outcome.
pub proof fn lemma_outcome_isolated(
    plan: Seq<StepText>,
    first: Seq<StepReport>,
    second: Seq<StepReport>,
    destination: int,
    from: int,
)
    requires
        forall|k: int|
            0 <= k < plan.len() && #[trigger] plan[k].destination() == destination
                ==> step_failure(first, k) == step_failure(second, k),
    ensures
        first_failure(plan, first, destination, from) == first_failure(
            plan,
            second,
            destination,
            from,
        ),
    decreases plan.len() - from,
{
    if 0 <= from < plan.len() {
        lemma_outcome_isolated(plan, first, second, destination, from + 1);
    }
}

/// A destination all of whose steps were carried out has no failure,
/// whatever became of the other steps.
pub proof fn lemma_carried_out_succeeds(
    plan: Seq<StepText>,
    reports: Seq<StepReport>,
    destination: int,
    from: int,
)
    requires
        forall|k: int|
            0 <= k < plan.len() && #[trigger] plan[k].destination() == destination
                ==> step_failure(reports, k) is None,
    ensures
        first_failure(plan, reports, destination, from) is None,
    decreases plan.len() - from,
{
    if 0 <= from < plan.len() {
        lemma_carried_out_succeeds(plan, reports, destination, from + 1);
    }
}

/// A destination one of whose steps failed has a failure.
pub proof fn lemma_failed_step_fails_destination(
    plan: Seq<StepText>,
    reports: Seq<StepReport>,
    position: int,
    from: int,
)
    requires
        0 <= from <= position < plan.len(),
        step_failure(reports, position) is Some,
    ensures
        first_failure(plan, reports, plan[position].destination(), from) is Some,
    decreases position - from,
{
    if from < position {
        lemma_failed_step_fails_destination(plan, reports, position, from + 1);
    }
}

/// What is to be done about the next step of a plan.
#[derive(Debug)]
pub enum Todo {
    /// Carry the step out and record how it went.
    CarryOut,
    /// Do not carry the step out; record this report for it.
    Record(StepReport),
    /// Every step has its report.
    Finished,
}

/// What `next_todo` decides, as plain values.
pub enum TodoText {
    CarryOut,
    PassOver,
    Finished,
}

/// What is to be done once the first steps of `plan` have the reports
/// `reports`. The next step is carried out, with one exception: a file
/// whose copy failed is not moved into place, so that no incomplete file
/// ever gets a final name.
pub open spec fn todo_after(plan: Seq<StepText>, reports: Seq<StepReport>) -> TodoText {
    let k = reports.len() as int;
    if k >= plan.len() {
        TodoText::Finished
    } else if plan[k] is MoveIntoPlace && (k == 0 || reports[k - 1] is Failed) {
        TodoText::PassOver
    } else {
        TodoText::CarryOut
    }
}

/// A file is moved into place only after the step before, its copy, was
/// carried out.
pub proof fn lemma_move_follows_copy(plan: Seq<StepText>, reports: Seq<StepReport>)
    requires
        todo_after(plan, reports) is CarryOut,
        plan[reports.len() as int] is MoveIntoPlace,
    ensures
        reports.len() > 0,
        reports.last() is Done,
{
}

/// Decides what is to be done about the step of `plan` that follows those
/// that `reports` speaks of, as `todo_after` says. A step that is passed
/// over is recorded as not attempted.
pub fn next_todo(plan: &Vec<ReplicationStep>, reports: &Vec<StepReport>) -> (r: Todo)
    ensures
        match todo_after(views(plan@), reports@) {
            TodoText::Finished => r is Finished,
            TodoText::CarryOut => r is CarryOut,
            TodoText::PassOver => r matches Todo::Record(StepReport::Failed(message))
                && message@ == "not attempted"@,
        },
{
    let k: usize = reports.len();
    if k >= plan.len() {
        return Todo::Finished;
    }
    proof {
        assert(views(plan@)[k as int] == plan@[k as int]@);
    }
    let is_move = match &plan[k] {
        ReplicationStep::MoveIntoPlace { .. } => true,
        _ => false,
    };
    if !is_move {
        return Todo::CarryOut;
    }
    if k == 0 {
        return Todo::Record(StepReport::Failed("not attempted".to_owned()));
    }
    match &reports[k - 1] {
        StepReport::Failed(_) => Todo::Record(StepReport::Failed("not attempted".to_owned())),
        StepReport::Done => Todo::CarryOut,
    }
}

/// A copy of `destination`.
pub fn copy_destination(destination: &Destination) -> (r: Destination)
    ensures
        r@ == destination@,
{
    match destination {
        Destination::Local(directory) => Destination::Local(directory.clone()),
        Destination::Remote(endpoint) => Destination::Remote(endpoint.clone()),
    }
}

/// Why the destination at `position` failed, if it did.
fn failure_for(
    plan: &Vec<ReplicationStep>,
    reports: &Vec<StepReport>,
    position: usize,
) -> (r: Option<String>)
    ensures
        optional_text(r) == first_failure(views(plan@), reports@, position as int, 0),
{
    let mut k: usize = 0;
    while k < plan.len()
        invariant
            k <= plan@.len(),
            first_failure(views(plan@), reports@, position as int, 0) == first_failure(
                views(plan@),
                reports@,
                position as int,
                k as int,
            ),
        decreases plan@.len() - k,
    {
        proof {
            assert(views(plan@)[k as int] == plan@[k as int]@);
        }
        if plan[k].destination() == position {
            if k < reports.len() {
                match &reports[k] {
                    StepReport::Failed(message) => {
                        return Some(message.clone());
                    },
                    StepReport::Done => {},
                }
            } else {
                return Some("not attempted".to_owned());
            }
        }
        k += 1;
    }
    None
}

/// The outcome of each destination, in the order of the destinations, from
/// the report on each step of `plan` (the reports in the steps' order).
pub fn replication_outcomes(
    destinations: &Vec<Destination>,
    plan: &Vec<ReplicationStep>,
    reports: &Vec<StepReport>,
) -> (r: Vec<ReplicationOutcome>)
    ensures
        r@.len() == destinations@.len(),
        forall|i: int|
            0 <= i < r@.len() ==> (#[trigger] r@[i])@ == outcome_of(
                views(plan@),
                reports@,
                destinations@[i]@,
                i,
            ),
{
    let mut outcomes: Vec<ReplicationOutcome> = Vec::new();
    let mut i: usize = 0;
    while i < destinations.len()
        invariant
            i <= destinations@.len(),
            outcomes@.len() == i,
            forall|j: int|
                0 <= j < i ==> (#[trigger] outcomes@[j])@ == outcome_of(
                    views(plan@),
                    reports@,
                    destinations@[j]@,
                    j,
                ),
        decreases destinations@.len() - i,
    {
        let error = failure_for(plan, reports, i);
        let succeeded = error.is_none();
        outcomes.push(
            ReplicationOutcome {
                destination: copy_destination(&destinations[i]),
                succeeded,
                error,
            },
        );
        i += 1;
    }
    outcomes
}

/// Whether every destination succeeded.
pub open spec fn all_succeeded(outcomes: Seq<ReplicationOutcome>) -> bool {
    forall|i: int| 0 <= i < outcomes.len() ==> (#[trigger] outcomes[i]).succeeded
}

/// The positions of the destinations that failed, in rising order.
pub open spec fn failed_positions(outcomes: Seq<ReplicationOutcome>) -> Seq<usize>
    decreases outcomes.len(),
{
    if outcomes.len() == 0 {
        Seq::empty()
    } else if outcomes.last().succeeded {
        failed_positions(outcomes.drop_last())
    } else {
        failed_positions(outcomes.drop_last()).push((outcomes.len() - 1) as usize)
    }
}

/// No position is listed as failed exactly if every destination succeeded.
pub proof fn lemma_failed_positions_empty(outcomes: Seq<ReplicationOutcome>)
    ensures
        failed_positions(outcomes).len() == 0 <==> all_succeeded(outcomes),
    decreases outcomes.len(),
{
    if outcomes.len() > 0 {
        let init = outcomes.drop_last();
        lemma_failed_positions_empty(init);
        if all_succeeded(outcomes) {
            assert forall|i: int| 0 <= i < init.len() implies (#[trigger] init[i]).succeeded by {
                assert(outcomes[i].succeeded);
            }
            assert(outcomes[outcomes.len() - 1].succeeded);
        }
        if failed_positions(outcomes).len() == 0 {
            assert forall|i: int| 0 <= i < outcomes.len() implies (#[trigger] outcomes[
                i
            ]).succeeded by {
                if i < init.len() {
                    assert(init[i].succeeded);
                }
            }
        }
    }
}

/// Whether the replication as a whole succeeded: every destination did.
pub fn overall_success(outcomes: &Vec<ReplicationOutcome>) -> (r: bool)
    ensures
        r == all_succeeded(outcomes@),
{
    let mut i: usize = 0;
    while i < outcomes.len()
        invariant
            i <= outcomes@.len(),
            forall|j: int| 0 <= j < i ==> (#[trigger] outcomes@[j]).succeeded,
        decreases outcomes@.len() - i,
    {
        if !outcomes[i].succeeded {
            return false;
        }
        i += 1;
    }
    true
}

/// The positions of the destinations that failed, in rising order.
pub fn failed_destinations(outcomes: &Vec<ReplicationOutcome>) -> (r: Vec<usize>)
    ensures
        r@ == failed_positions(outcomes@),
{
    let mut failed: Vec<usize> = Vec::new();
    let mut i: usize = 0;
    while i < outcomes.len()
        invariant
            i <= outcomes@.len(),
            failed@ == failed_positions(outcomes@.subrange(0, i as int)),
        decreases outcomes@.len() - i,
    {
        proof {
            let next = outcomes@.subrange(0, i + 1);
            assert(next.drop_last() =~= outcomes@.subrange(0, i as int));
            assert(next.last() == outcomes@[i as int]);
        }
        if !outcomes[i].succeeded {
            failed.push(i);
        }
        i += 1;
    }
    proof {
        assert(outcomes@.subrange(0, i as int) =~= outcomes@);
    }
    failed
}

} // verus!
