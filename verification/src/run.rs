//! The run orchestrator: the decisions of one invocation as a state machine.
//!
//! The machine performs no input or output. Each step takes the outcome of
//! the work that the caller did last and answers with what to print and
//! what to do next.

use vstd::prelude::*;
use vstd::string::StringExecFns;
use crate::config::{Config, ConfigModel};
use crate::text::texts;
use crate::help::{help, help_text};
use crate::lines::{count_lines, newline_count, IoError, IoErrorModel};
use crate::output::{format_line, rendered, FORMAT};
use crate::paths::{
    filter_paths_with, filtered, models, paths_of, CandidateModel, CandidatePath, FilterPolicy,
};
use crate::traversal::{
    started, supplied, Listing, ListingModel, Status, StatusModel, Traversal, TraversalModel,
};

verus! {

/// The states of a run.
#[derive(Debug, Clone, Copy, PartialEq, Eq)]
pub enum RunState {
    /// Nothing has happened yet.
    Start,
    /// The help text was given; the run is over.
    ShowHelp,
    /// The single target file is being read.
    ProcessFile,
    /// The target directory is being listed or its files are being counted.
    ProcessDirectory,
    /// The run is over and succeeded.
    Done,
    /// The run is over and failed.
    Failed,
}

/// What the caller reports to the run.
#[derive(Debug, PartialEq, Eq)]
pub enum Event {
    /// The run may begin.
    Begin,
    /// The directory that was to be listed gave this.
    Listed(Listing),
    /// The file that was to be read held this text, or could not be read.
    Read(Option<String>),
}

/// What the caller is to do next.
#[derive(Debug, PartialEq, Eq)]
pub enum Action {
    /// List this directory and report `Event::Listed`.
    List(String),
    /// Read this file and report `Event::Read`.
    Read(String),
    /// Stop; the run succeeded.
    Finish,
    /// Stop; the run failed for this reason.
    Fail(IoError),
    /// The event did not apply to the state of the run, which stays as it
    /// was.
    Nothing,
}

/// The answer of the run to one event.
#[derive(Debug, PartialEq, Eq)]
pub struct Reaction {
    /// A line for the standard output.
    pub output: Option<String>,
    /// A line for the error stream, after which the run goes on.
    pub warning: Option<String>,
    pub next: Action,
}

enum Phase {
    Start,
    ShowHelp,
    ProcessFile,
    Enumerating(Traversal),
    /// `given` is the number of result lines given so far.
    Counting { queue: Vec<String>, cursor: usize, given: usize },
    Done,
    Failed(String),
}

/// One run of the tool.
pub struct Runner {
    config: Config,
    policy: FilterPolicy,
    phase: Phase,
}

/// An `Event` as plain mathematical values.
pub enum EventModel {
    Begin,
    Listed(ListingModel),
    Read(Option<Seq<char>>),
}

/// An `Action` as plain mathematical values.
pub enum ActionModel {
    List(Seq<char>),
    Read(Seq<char>),
    Finish,
    Fail(IoErrorModel),
    Nothing,
}

/// A `Reaction` as plain mathematical values.
pub struct ReactionModel {
    pub output: Option<Seq<char>>,
    pub warning: Option<Seq<char>>,
    pub next: ActionModel,
}

/// Where a run stands, with what it remembers.
pub enum PhaseModel {
    Start,
    ShowHelp,
    ProcessFile,
    /// The directory is being listed.
    Enumerating(TraversalModel),
    /// The files of `queue` are being counted. The file at `cursor` is
    /// being read, and `index` is the number that the next result line
    /// gets.
    Counting { queue: Seq<Seq<char>>, cursor: nat, index: nat },
    Done,
    /// The run failed at this path.
    Failed(Seq<char>),
}

/// A `Runner` as plain mathematical values.
pub struct RunModel {
    pub config: ConfigModel,
    /// What the filter does where the configuration lists no extension.
    pub policy: FilterPolicy,
    pub phase: PhaseModel,
}

impl View for Event {
    type V = EventModel;

    open spec fn view(&self) -> EventModel {
        match self {
            Event::Begin => EventModel::Begin,
            Event::Listed(listing) => EventModel::Listed(listing@),
            Event::Read(Some(text)) => EventModel::Read(Some(text@)),
            Event::Read(None) => EventModel::Read(None),
        }
    }
}

impl View for Action {
    type V = ActionModel;

    open spec fn view(&self) -> ActionModel {
        match self {
            Action::List(directory) => ActionModel::List(directory@),
            Action::Read(file) => ActionModel::Read(file@),
            Action::Finish => ActionModel::Finish,
            Action::Fail(error) => ActionModel::Fail(error@),
            Action::Nothing => ActionModel::Nothing,
        }
    }
}

/// The text of `line`, where there is one.
pub open spec fn line_text(line: Option<String>) -> Option<Seq<char>> {
    match line {
        Some(text) => Some(text@),
        None => None,
    }
}

impl View for Reaction {
    type V = ReactionModel;

    open spec fn view(&self) -> ReactionModel {
        ReactionModel {
            output: line_text(self.output),
            warning: line_text(self.warning),
            next: self.next@,
        }
    }
}

impl View for Phase {
    type V = PhaseModel;

    closed spec fn view(&self) -> PhaseModel {
        match self {
            Phase::Start => PhaseModel::Start,
            Phase::ShowHelp => PhaseModel::ShowHelp,
            Phase::ProcessFile => PhaseModel::ProcessFile,
            Phase::Enumerating(traversal) => PhaseModel::Enumerating(traversal@),
            Phase::Counting { queue, cursor, given } => PhaseModel::Counting {
                queue: texts(queue@),
                cursor: *cursor as nat,
                index: (*given + 1) as nat,
            },
            Phase::Done => PhaseModel::Done,
            Phase::Failed(path) => PhaseModel::Failed(path@),
        }
    }
}

impl View for Runner {
    type V = RunModel;

    closed spec fn view(&self) -> RunModel {
        RunModel { config: self.config@, policy: self.policy, phase: self.phase@ }
    }
}

/// The state that a phase belongs to.
pub open spec fn state_of(phase: PhaseModel) -> RunState {
    match phase {
        PhaseModel::Start => RunState::Start,
        PhaseModel::ShowHelp => RunState::ShowHelp,
        PhaseModel::ProcessFile => RunState::ProcessFile,
        PhaseModel::Enumerating(_) => RunState::ProcessDirectory,
        PhaseModel::Counting { .. } => RunState::ProcessDirectory,
        PhaseModel::Done => RunState::Done,
        PhaseModel::Failed(_) => RunState::Failed,
    }
}

impl RunModel {
    /// What holds of every run: while a directory is listed, a listing is
    /// awaited; while files are counted, the cursor is inside the queue and
    /// the index is one more than the number of lines given so far, so at
    /// least one and at most one more than the cursor.
    pub open spec fn well_formed(self) -> bool {
        match self.phase {
            PhaseModel::Enumerating(traversal) => traversal.status is Awaiting,
            PhaseModel::Counting { queue, cursor, index } => cursor < queue.len() && 1 <= index
                <= cursor + 1,
            _ => true,
        }
    }
}

/// A reaction that prints nothing.
pub open spec fn quiet(next: ActionModel) -> ReactionModel {
    ReactionModel { output: None, warning: None, next }
}

/// The line that warns of a file that could not be read.
pub open spec fn warning_line(path: Seq<char>) -> Seq<char> {
    "!\t"@ + IoErrorModel::Unreadable(path).message()
}

/// The first step of a run: help is given and the run is over, or the
/// single file is to be read, or the directory is to be listed.
pub open spec fn begun(config: ConfigModel) -> (PhaseModel, ReactionModel) {
    if config.show_help {
        (
            PhaseModel::ShowHelp,
            ReactionModel { output: Some(help_text()), warning: None, next: ActionModel::Finish },
        )
    } else if !config.path_is_directory {
        (PhaseModel::ProcessFile, quiet(ActionModel::Read(config.path)))
    } else {
        (
            PhaseModel::Enumerating(
                started(config.path, config.search_subdirectories_recursively),
            ),
            quiet(ActionModel::List(config.path)),
        )
    }
}

/// The end of a single-file run: the count is printed without prefix,
/// whatever the configured format, or the run fails.
pub open spec fn file_read(config: ConfigModel, contents: Option<Seq<char>>) -> (
    PhaseModel,
    ReactionModel,
) {
    match contents {
        Some(text) => (
            PhaseModel::Done,
            ReactionModel {
                output: Some(rendered(1, config.path, newline_count(text), FORMAT::Default)),
                warning: None,
                next: ActionModel::Finish,
            },
        ),
        None => (
            PhaseModel::Failed(config.path),
            quiet(ActionModel::Fail(IoErrorModel::Unreadable(config.path))),
        ),
    }
}

/// The candidates for `found`, where the platform reads `extensions` off
/// the paths, one by one.
pub open spec fn candidates_of(found: Seq<Seq<char>>, extensions: Seq<Option<Seq<char>>>) -> Seq<
    CandidateModel,
> {
    Seq::new(found.len(), |i: int| CandidateModel { path: found[i], extension: extensions[i] })
}

/// The beginning of the count: the first file of `queue` is to be read, and
/// the first result line will be number one. With nothing to count the run
/// is over.
pub open spec fn queued(queue: Seq<Seq<char>>) -> (PhaseModel, ReactionModel) {
    if queue.len() == 0 {
        (PhaseModel::Done, quiet(ActionModel::Finish))
    } else {
        (
            PhaseModel::Counting { queue, cursor: 0, index: 1 },
            quiet(ActionModel::Read(queue[0])),
        )
    }
}

/// One step of the enumeration. The listing goes to the traversal. Where
/// that needs another listing, it is asked for; where a directory could
/// not be read, the run fails at that directory; where the traversal is
/// finished, what it found is filtered and queued.
pub open spec fn listed(
    config: ConfigModel,
    policy: FilterPolicy,
    traversal: TraversalModel,
    listing: ListingModel,
    extensions: Seq<Option<Seq<char>>>,
) -> (PhaseModel, ReactionModel) {
    let after = supplied(traversal, listing);
    match after.status {
        StatusModel::Awaiting(directory) => (
            PhaseModel::Enumerating(after),
            quiet(ActionModel::List(directory)),
        ),
        StatusModel::Failed(directory) => (
            PhaseModel::Failed(directory),
            quiet(ActionModel::Fail(IoErrorModel::Unreadable(directory))),
        ),
        StatusModel::Finished => queued(
            paths_of(
                filtered(
                    candidates_of(after.found, extensions),
                    config.extensions_to_filter_for,
                    policy,
                ),
            ),
        ),
    }
}

/// One step of the count. A file that was read gives a result line with
/// the current index, and the index moves on. A file that could not be
/// read gives a warning that names it, and the index stays. Either way the
/// next file of the queue is to be read, or the run is over.
pub open spec fn counted(
    config: ConfigModel,
    queue: Seq<Seq<char>>,
    cursor: nat,
    index: nat,
    contents: Option<Seq<char>>,
) -> (PhaseModel, ReactionModel) {
    let path = queue[cursor as int];
    let output = match contents {
        Some(text) => Some(rendered(index, path, newline_count(text), config.output_format)),
        None => None,
    };
    let warning = match contents {
        Some(_) => None,
        None => Some(warning_line(path)),
    };
    let index_after: nat = match contents {
        Some(_) => index + 1,
        None => index,
    };
    if cursor + 1 < queue.len() {
        (
            PhaseModel::Counting { queue, cursor: cursor + 1, index: index_after },
            ReactionModel { output, warning, next: ActionModel::Read(queue[cursor as int + 1]) },
        )
    } else {
        (PhaseModel::Done, ReactionModel { output, warning, next: ActionModel::Finish })
    }
}

/// The step of a run: the phase after `event` and the reaction to it,
/// where the platform reads `extensions` off the paths that an enumeration
/// has found. An event that does not apply to the phase changes nothing.
pub open spec fn reacted(
    before: RunModel,
    event: EventModel,
    extensions: Seq<Option<Seq<char>>>,
) -> (PhaseModel, ReactionModel) {
    match (before.phase, event) {
        (PhaseModel::Start, EventModel::Begin) => begun(before.config),
        (PhaseModel::ProcessFile, EventModel::Read(contents)) => file_read(
            before.config,
            contents,
        ),
        (PhaseModel::Enumerating(traversal), EventModel::Listed(listing)) => listed(
            before.config,
            before.policy,
            traversal,
            listing,
            extensions,
        ),
        (PhaseModel::Counting { queue, cursor, index }, EventModel::Read(contents)) => counted(
            before.config,
            queue,
            cursor,
            index,
            contents,
        ),
        _ => (before.phase, quiet(ActionModel::Nothing)),
    }
}

/// The transitions of a run. It begins with help, with the single file or
/// with the directory, as the configuration says. A single file ends the
/// run, in success or in failure. A directory run stays with the directory
/// until it ends; once its files are being counted it cannot fail any
/// more. A run that is over stays as it is and asks for nothing.
pub proof fn lemma_transitions(
    before: RunModel,
    event: EventModel,
    extensions: Seq<Option<Seq<char>>>,
)
    requires
        before.well_formed(),
    ensures
        ({
            let (after, reaction) = reacted(before, event, extensions);
            match state_of(before.phase) {
                RunState::Start => if event is Begin {
                    state_of(after) == if before.config.show_help {
                        RunState::ShowHelp
                    } else if before.config.path_is_directory {
                        RunState::ProcessDirectory
                    } else {
                        RunState::ProcessFile
                    }
                } else {
                    after == before.phase
                },
                RunState::ProcessFile => match event {
                    EventModel::Read(Some(_)) => state_of(after) == RunState::Done,
                    EventModel::Read(None) => state_of(after) == RunState::Failed,
                    _ => after == before.phase,
                },
                RunState::ProcessDirectory => {
                    &&& state_of(after) == RunState::ProcessDirectory || state_of(after)
                        == RunState::Done || state_of(after) == RunState::Failed
                    &&& before.phase is Counting ==> state_of(after) != RunState::Failed
                },
                _ => after == before.phase && reaction == quiet(ActionModel::Nothing),
            }
        }),
{
}

/// The number of files of `outcomes` that were read.
pub open spec fn successes(outcomes: Seq<Option<Seq<char>>>) -> nat {
    outcomes.filter(|o: Option<Seq<char>>| o is Some).len()
}

/// The phase of a run after the caller has reported `outcomes`, one
/// `Event::Read` for each.
pub open spec fn after_reads(before: RunModel, outcomes: Seq<Option<Seq<char>>>) -> PhaseModel
    decreases outcomes.len(),
{
    if outcomes.len() == 0 {
        before.phase
    } else {
        reacted(
            RunModel { phase: after_reads(before, outcomes.drop_last()), ..before },
            EventModel::Read(outcomes.last()),
            Seq::<Option<Seq<char>>>::empty(),
        ).0
    }
}

/// The running index moves on with every file that was read and with no
/// other: after any number of reports, it has grown by the number of
/// successes among them, while the cursor has moved past every report.
pub proof fn lemma_index_counts_successes(
    config: ConfigModel,
    policy: FilterPolicy,
    queue: Seq<Seq<char>>,
    cursor: nat,
    index: nat,
    outcomes: Seq<Option<Seq<char>>>,
)
    requires
        cursor + outcomes.len() <= queue.len(),
        cursor < queue.len(),
    ensures
        after_reads(
            RunModel { config, policy, phase: PhaseModel::Counting { queue, cursor, index } },
            outcomes,
        ) == if cursor + outcomes.len() < queue.len() {
            PhaseModel::Counting {
                queue,
                cursor: cursor + outcomes.len(),
                index: index + successes(outcomes),
            }
        } else {
            PhaseModel::Done
        },
    decreases outcomes.len(),
{
    let read = |o: Option<Seq<char>>| o is Some;
    if outcomes.len() == 0 {
        assert(outcomes.filter(read) =~= outcomes) by {
            reveal(Seq::filter);
        }
    } else {
        let earlier = outcomes.drop_last();
        lemma_index_counts_successes(config, policy, queue, cursor, index, earlier);
        assert(outcomes == earlier.push(outcomes.last()));
        earlier.lemma_filter_push(outcomes.last(), read);
    }
}

/// A result line is given exactly for a file that was read, and it carries
/// the index that was current; a warning is given exactly for a file that
/// could not be read, and it names that file.
pub proof fn lemma_counted_reaction(
    config: ConfigModel,
    queue: Seq<Seq<char>>,
    cursor: nat,
    index: nat,
    contents: Option<Seq<char>>,
)
    ensures
        match contents {
            Some(text) => counted(config, queue, cursor, index, contents).1.output == Some(
                rendered(index, queue[cursor as int], newline_count(text), config.output_format),
            ) && counted(config, queue, cursor, index, contents).1.warning is None,
            None => counted(config, queue, cursor, index, contents).1.output is None && counted(
                config,
                queue,
                cursor,
                index,
                contents,
            ).1.warning == Some(warning_line(queue[cursor as int])),
        },
{
}

/// A reaction that prints nothing.
fn quietly(next: Action) -> (reaction: Reaction)
    ensures
        reaction@ == quiet(next@),
{
    Reaction { output: None, warning: None, next }
}

/// The candidates for `found`, each with the extension that the platform
/// reads off its path.
fn candidates_for(found: Vec<String>) -> (candidates: Vec<CandidatePath>)
    ensures
        paths_of(models(candidates@)) == texts(found@),
{
    let mut candidates: Vec<CandidatePath> = Vec::new();
    assert(paths_of(models(candidates@)) =~= texts(found@.take(0)));
    for path in it: found
        invariant
            it.seq() == found@,
            paths_of(models(candidates@)) == texts(found@.take(it.index())),
    {
        let ghost earlier = candidates@;
        let candidate = CandidatePath::new(path);
        candidates.push(candidate);
        assert(paths_of(models(candidates@)) =~= paths_of(models(earlier)).push(path@));
        assert(found@.take(it.index() + 1) == found@.take(it.index()).push(path));
        assert(texts(found@.take(it.index()).push(path)) =~= texts(found@.take(it.index())).push(
            path@,
        ));
    }
    assert(found@.take(found@.len() as int) == found@);
    candidates
}

/// The paths of `candidates`.
fn paths_from(candidates: Vec<CandidatePath>) -> (paths: Vec<String>)
    ensures
        texts(paths@) == paths_of(models(candidates@)),
{
    let mut paths: Vec<String> = Vec::new();
    assert(texts(paths@) =~= paths_of(models(candidates@.take(0))));
    for candidate in it: candidates
        invariant
            it.seq() == candidates@,
            texts(paths@) == paths_of(models(candidates@.take(it.index()))),
    {
        let ghost earlier = paths@;
        paths.push(candidate.path);
        assert(texts(paths@) =~= texts(earlier).push(candidate.path@));
        assert(candidates@.take(it.index() + 1) == candidates@.take(it.index()).push(candidate));
        assert(paths_of(models(candidates@.take(it.index()).push(candidate))) =~= paths_of(
            models(candidates@.take(it.index())),
        ).push(candidate.path@));
    }
    assert(candidates@.take(candidates@.len() as int) == candidates@);
    paths
}

impl Runner {
    #[verifier::type_invariant]
    closed spec fn inv(self) -> bool {
        self@.well_formed()
    }

    /// A run of `config` that has not begun. Where the configuration lists
    /// no extension, every file is counted.
    pub fn new(config: Config) -> (runner: Runner)
        ensures
            runner@ == (RunModel {
                config: config@,
                policy: FilterPolicy::ExplicitOnly,
                phase: PhaseModel::Start,
            }),
            runner@.well_formed(),
    {
        Runner { config, policy: FilterPolicy::ExplicitOnly, phase: Phase::Start }
    }

    /// A run of `config` that has not begun, with the given policy for a
    /// configuration that lists no extension.
    pub fn with_policy(config: Config, policy: FilterPolicy) -> (runner: Runner)
        ensures
            runner@ == (RunModel { config: config@, policy, phase: PhaseModel::Start }),
            runner@.well_formed(),
    {
        Runner { config, policy, phase: Phase::Start }
    }

    /// The state of the run.
    pub fn state(&self) -> (state: RunState)
        ensures
            state == state_of(self@.phase),
    {
        match &self.phase {
            Phase::Start => RunState::Start,
            Phase::ShowHelp => RunState::ShowHelp,
            Phase::ProcessFile => RunState::ProcessFile,
            Phase::Enumerating(_) => RunState::ProcessDirectory,
            Phase::Counting { .. } => RunState::ProcessDirectory,
            Phase::Done => RunState::Done,
            Phase::Failed(_) => RunState::Failed,
        }
    }

    /// The running index of the next result line, while files are counted.
    pub fn index(&self) -> (index: Option<usize>)
        ensures
            match self@.phase {
                PhaseModel::Counting { index: current, .. } => index == Some(current as usize),
                _ => index is None,
            },
    {
        proof {
            use_type_invariant(self);
        }
        match &self.phase {
            Phase::Counting { queue, cursor, given } => {
                assert(texts(queue@).len() == queue.len());
                Some(*given + 1)
            },
            _ => None,
        }
    }

    /// Takes `event` and answers with what to print and what to do next.
    /// The phase after the step and the reaction are those of `reacted`,
    /// for the extensions that the platform reads off the paths that an
    /// enumeration has found.
    pub fn step(self, event: Event) -> (r: (Runner, Reaction))
        ensures
            r.0@.config == self@.config,
            r.0@.policy == self@.policy,
            r.0@.well_formed(),
            exists|extensions: Seq<Option<Seq<char>>>|
                (r.0@.phase, r.1@) == #[trigger] reacted(self@, event@, extensions),
    {
        proof {
            use_type_invariant(&self);
        }
        let ghost before = self@;
        let ghost none = Seq::<Option<Seq<char>>>::empty();
        let Runner { config, policy, phase } = self;
        match (phase, event) {
            (Phase::Start, Event::Begin) => {
                if config.show_help {
                    let reaction = Reaction {
                        output: Some(help()),
                        warning: None,
                        next: Action::Finish,
                    };
                    let runner = Runner { config, policy, phase: Phase::ShowHelp };
                    assert((runner@.phase, reaction@) == reacted(before, event@, none));
                    (runner, reaction)
                } else if !config.path_is_directory {
                    let reaction = quietly(Action::Read(config.path.clone()));
                    let runner = Runner { config, policy, phase: Phase::ProcessFile };
                    assert((runner@.phase, reaction@) == reacted(before, event@, none));
                    (runner, reaction)
                } else {
                    let traversal = Traversal::start(
                        config.path.clone(),
                        config.search_subdirectories_recursively,
                    );
                    let reaction = quietly(Action::List(config.path.clone()));
                    let runner = Runner { config, policy, phase: Phase::Enumerating(traversal) };
                    assert((runner@.phase, reaction@) == reacted(before, event@, none));
                    (runner, reaction)
                }
            },
            (Phase::ProcessFile, Event::Read(contents)) => {
                match contents {
                    Some(text) => {
                        let count = count_lines(text.as_str());
                        let line = format_line(1, config.path.as_str(), count, FORMAT::Default);
                        let reaction = Reaction {
                            output: Some(line),
                            warning: None,
                            next: Action::Finish,
                        };
                        let runner = Runner { config, policy, phase: Phase::Done };
                        assert((runner@.phase, reaction@) == reacted(before, event@, none));
                        (runner, reaction)
                    },
                    None => {
                        let reaction = quietly(
                            Action::Fail(IoError::Unreadable(config.path.clone())),
                        );
                        let failed = Phase::Failed(config.path.clone());
                        let runner = Runner { config, policy, phase: failed };
                        assert((runner@.phase, reaction@) == reacted(before, event@, none));
                        (runner, reaction)
                    },
                }
            },
            (Phase::Enumerating(traversal), Event::Listed(listing)) => {
                let mut traversal = traversal;
                traversal.supply(listing);
                let awaited = match traversal.status() {
                    Status::Awaiting(directory) => Some(directory.clone()),
                    _ => None,
                };
                let unreadable = match traversal.status() {
                    Status::Failed(directory) => Some(directory.clone()),
                    _ => None,
                };
                match (awaited, unreadable) {
                    (Some(directory), _) => {
                        let reaction = quietly(Action::List(directory));
                        let runner = Runner { config, policy, phase: Phase::Enumerating(traversal) };
                        assert((runner@.phase, reaction@) == reacted(before, event@, none));
                        (runner, reaction)
                    },
                    (None, Some(directory)) => {
                        let reaction = quietly(
                            Action::Fail(IoError::Unreadable(directory.clone())),
                        );
                        let runner = Runner { config, policy, phase: Phase::Failed(directory) };
                        assert((runner@.phase, reaction@) == reacted(before, event@, none));
                        (runner, reaction)
                    },
                    (None, None) => {
                        let ghost found = traversal@.found;
                        let candidates = candidates_for(traversal.into_found());
                        let ghost extensions = Seq::new(
                            found.len(),
                            |i: int| models(candidates@)[i].extension,
                        );
                        assert(models(candidates@) =~= candidates_of(found, extensions));
                        let kept = filter_paths_with(
                            candidates,
                            &config.extensions_to_filter_for,
                            policy,
                        );
                        let queue = paths_from(kept);
                        if queue.len() == 0 {
                            let reaction = quietly(Action::Finish);
                            let runner = Runner { config, policy, phase: Phase::Done };
                            assert((runner@.phase, reaction@) == reacted(
                                before,
                                event@,
                                extensions,
                            ));
                            (runner, reaction)
                        } else {
                            let reaction = quietly(Action::Read(queue[0].clone()));
                            let runner = Runner {
                                config,
                                policy,
                                phase: Phase::Counting { queue, cursor: 0, given: 0 },
                            };
                            assert((runner@.phase, reaction@) == reacted(
                                before,
                                event@,
                                extensions,
                            ));
                            (runner, reaction)
                        }
                    },
                }
            },
            (Phase::Counting { queue, cursor, given }, Event::Read(contents)) => {
                assert(before.phase == (PhaseModel::Counting {
                    queue: texts(queue@),
                    cursor: cursor as nat,
                    index: (given + 1) as nat,
                }));
                assert(texts(queue@).len() == queue.len());
                let mut output: Option<String> = None;
                let mut warning: Option<String> = None;
                let mut given_after = given;
                match contents {
                    Some(text) => {
                        let count = count_lines(text.as_str());
                        output = Some(
                            format_line(
                                given + 1,
                                queue[cursor].as_str(),
                                count,
                                config.output_format,
                            ),
                        );
                        given_after = given + 1;
                    },
                    None => {
                        let mut line = "!\t".to_owned();
                        let error = IoError::Unreadable(queue[cursor].clone());
                        line.append(error.message().as_str());
                        warning = Some(line);
                    },
                }
                if cursor + 1 < queue.len() {
                    let next = Action::Read(queue[cursor + 1].clone());
                    let reaction = Reaction { output, warning, next };
                    let runner = Runner {
                        config,
                        policy,
                        phase: Phase::Counting { queue, cursor: cursor + 1, given: given_after },
                    };
                    assert((runner@.phase, reaction@) == reacted(before, event@, none));
                    (runner, reaction)
                } else {
                    let reaction = Reaction { output, warning, next: Action::Finish };
                    let runner = Runner { config, policy, phase: Phase::Done };
                    assert((runner@.phase, reaction@) == reacted(before, event@, none));
                    (runner, reaction)
                }
            },
            (phase, _) => {
                let reaction = quietly(Action::Nothing);
                let runner = Runner { config, policy, phase };
                assert((runner@.phase, reaction@) == reacted(before, event@, none));
                (runner, reaction)
            },
        }
    }
}

} // verus!
