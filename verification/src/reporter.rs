//! The removal pass over the duplicate groups, as a state machine.
//!
//! The machine decides; the caller acts.  It names the next thing to do (show
//! a group, ask for confirmation, remove one file), the caller does it and
//! reports what happened, and the machine accounts for it.

use crate::hasher::DuplicateGroup;
use vstd::prelude::*;

verus! {

/// How duplicates are treated during one run.
#[derive(Clone, Copy, Debug, PartialEq, Eq, Structural)]
pub enum Mode {
    /// Show the groups, remove nothing.
    DryRun,
    /// Remove every duplicate without asking.
    Forced,
    /// Ask once per group, remove its duplicates on a yes.
    Interactive,
}

impl Mode {
    /// Dry-run wins over force; without either the run is interactive.
    pub open spec fn of_flags(dry_run: bool, force: bool) -> Mode {
        if dry_run {
            Mode::DryRun
        } else if force {
            Mode::Forced
        } else {
            Mode::Interactive
        }
    }

    /// The mode that the two flags of a run select.
    pub fn from_flags(dry_run: bool, force: bool) -> (mode: Mode)
        ensures
            mode == Mode::of_flags(dry_run, force),
    {
        if dry_run {
            Mode::DryRun
        } else if force {
            Mode::Forced
        } else {
            Mode::Interactive
        }
    }
}

/// Whether a character has the Unicode property `White_Space`.
pub open spec fn is_whitespace(c: char) -> bool {
    let u = c as u32;
    ||| 0x09 <= u <= 0x0D
    ||| u == 0x20
    ||| u == 0x85
    ||| u == 0xA0
    ||| u == 0x1680
    ||| 0x2000 <= u <= 0x200A
    ||| u == 0x2028
    ||| u == 0x2029
    ||| u == 0x202F
    ||| u == 0x205F
    ||| u == 0x3000
}

/// An answer confirms when, surrounding white space aside, it is the single
/// letter `y` in either case.
pub open spec fn affirmative(answer: Seq<char>) -> bool {
    exists|i: int|
        0 <= i < answer.len() && (answer[i] == 'y' || answer[i] == 'Y') && forall|j: int|
            0 <= j < answer.len() && j != i ==> is_whitespace(#[trigger] answer[j])
}

fn char_is_whitespace(c: char) -> (b: bool)
    ensures
        b == is_whitespace(c),
{
    let u: u32 = c as u32;
    (0x09 <= u && u <= 0x0D) || u == 0x20 || u == 0x85 || u == 0xA0 || u == 0x1680 || (0x2000 <= u
        && u <= 0x200A) || u == 0x2028 || u == 0x2029 || u == 0x202F || u == 0x205F || u == 0x3000
}

/// Decides whether `answer`, a line typed at the prompt, confirms a removal.
pub fn is_affirmative(answer: &str) -> (yes: bool)
    ensures
        yes == affirmative(answer@),
{
    let mut seen: bool = false;
    let mut spoiled: bool = false;
    let ghost mut first: int = 0;
    let ghost mut second: int = 0;
    for c in it: answer.chars()
        invariant
            it.seq() == answer@,
            !seen && !spoiled ==> forall|j: int|
                0 <= j < it.index() ==> is_whitespace(#[trigger] answer@[j]),
            seen && !spoiled ==> 0 <= first < it.index() && (answer@[first] == 'y'
                || answer@[first] == 'Y') && forall|j: int|
                0 <= j < it.index() && j != first ==> is_whitespace(#[trigger] answer@[j]),
            spoiled ==> 0 <= first < second < it.index() && !is_whitespace(answer@[first])
                && !is_whitespace(answer@[second]) || 0 <= first < it.index() && !is_whitespace(
                answer@[first],
            ) && answer@[first] != 'y' && answer@[first] != 'Y',
    {
        let ghost at = it.index();
        if c == 'y' || c == 'Y' {
            if seen {
                if !spoiled {
                    proof {
                        second = at;
                    }
                }
                spoiled = true;
            } else if !spoiled {
                proof {
                    first = at;
                }
                seen = true;
            }
        } else if !char_is_whitespace(c) {
            if !spoiled {
                proof {
                    first = at;
                }
            }
            spoiled = true;
        }
    }
    seen && !spoiled
}

/// What the caller is asked to do next.
#[derive(Clone, Copy, Debug, PartialEq, Eq, Structural)]
pub enum Action {
    /// Tell the user that there are no duplicates.
    NoDuplicates,
    /// Show the totals: groups, duplicates, wasted bytes.
    Overview,
    /// Show one group: its first member as kept, the others as duplicates.
    ShowGroup { group: usize },
    /// Ask whether the duplicates of the group may be removed.
    Ask { group: usize },
    /// Remove one member of the group from the file system.
    Remove { group: usize, member: usize },
    /// Tell the user that the group was left alone.
    Skipped { group: usize },
    /// Show how many files were removed and how many bytes that freed.  It
    /// is asked for at the end of every run that may remove files, also
    /// where removals failed or nothing was removed.
    Summary,
    /// Nothing is left to do.
    Finish,
}

/// What the caller reports back after an action.
#[derive(Debug, PartialEq, Eq)]
pub enum Event {
    /// The requested output was shown.
    Done,
    /// The line that the user typed at the prompt.
    Answered(String),
    /// The file was removed.
    Removed,
    /// The file could not be removed.
    RemoveFailed,
}

/// Where a run stands: the action it waits for, and what was removed so far.
#[derive(Clone, Copy, Debug, PartialEq, Eq, Structural)]
pub struct Progress {
    pub pending: Action,
    pub deleted_count: u64,
    pub deleted_bytes: u64,
}

/// The figures of one run.
#[derive(Clone, Copy, Debug, PartialEq, Eq, Structural)]
pub struct RunSummary {
    /// Number of duplicate groups.
    pub total_groups: usize,
    /// Number of files beyond the kept one, over all groups.
    pub total_dupes: u64,
    /// Bytes held by those files before anything is removed.
    pub wasted_bytes: u64,
    /// Number of files removed so far.
    pub deleted_count: u64,
    /// Bytes freed by removing them.
    pub deleted_bytes: u64,
}

/// Duplicates in the first `n` groups.
pub open spec fn dupes_before(groups: Seq<DuplicateGroup>, n: int) -> nat
    decreases n,
{
    if n <= 0 {
        0
    } else {
        dupes_before(groups, n - 1) + groups[n - 1].dupes()
    }
}

/// Bytes held by the duplicates in the first `n` groups.
pub open spec fn bytes_before(groups: Seq<DuplicateGroup>, n: int) -> nat
    decreases n,
{
    if n <= 0 {
        0
    } else {
        bytes_before(groups, n - 1) + groups[n - 1].wasted()
    }
}

/// Sum of `members - 1` over all groups.
pub open spec fn total_dupes(groups: Seq<DuplicateGroup>) -> nat {
    dupes_before(groups, groups.len() as int)
}

/// Sum of `size * (members - 1)` over all groups.
pub open spec fn wasted_bytes(groups: Seq<DuplicateGroup>) -> nat {
    bytes_before(groups, groups.len() as int)
}

/// Groups that a run can work on: each has a kept file and a duplicate, and
/// the totals fit the counters.
pub open spec fn admissible(groups: Seq<DuplicateGroup>) -> bool {
    &&& groups.len() <= usize::MAX
    &&& forall|k: int| 0 <= k < groups.len() ==> (#[trigger] groups[k]).wf()
    &&& total_dupes(groups) <= u64::MAX
    &&& wasted_bytes(groups) <= u64::MAX
}

/// The state in which a run begins.
pub open spec fn start(groups: Seq<DuplicateGroup>) -> Progress {
    Progress {
        pending: if groups.len() == 0 {
            Action::NoDuplicates
        } else {
            Action::Overview
        },
        deleted_count: 0,
        deleted_bytes: 0,
    }
}

/// The action on arriving at group `group`, or past the last one.  A run
/// that may remove files ends with the summary of what it removed, also
/// where removals failed and where nothing was removed at all; a dry run
/// has nothing to sum up.
pub open spec fn enter(groups: Seq<DuplicateGroup>, mode: Mode, group: int) -> Action {
    if group < groups.len() {
        Action::ShowGroup { group: group as usize }
    } else if mode != Mode::DryRun {
        Action::Summary
    } else {
        Action::Finish
    }
}

/// The action after the attempt on member `member` of group `group`.
pub open spec fn after_attempt(
    groups: Seq<DuplicateGroup>,
    mode: Mode,
    group: usize,
    member: usize,
) -> Action {
    if member + 1 < groups[group as int].paths.len() {
        Action::Remove { group, member: (member + 1) as usize }
    } else {
        enter(groups, mode, group + 1)
    }
}

/// One step of the run: the state after `event` answers the pending action.
/// An event that does not answer it changes nothing.
pub open spec fn next(groups: Seq<DuplicateGroup>, mode: Mode, p: Progress, event: Event) -> Progress {
    match (p.pending, event) {
        (Action::NoDuplicates, Event::Done) => Progress { pending: Action::Finish, ..p },
        (Action::Overview, Event::Done) => Progress { pending: enter(groups, mode, 0), ..p },
        (Action::ShowGroup { group }, Event::Done) => Progress {
            pending: match mode {
                Mode::DryRun => enter(groups, mode, group + 1),
                Mode::Forced => Action::Remove { group, member: 1 },
                Mode::Interactive => Action::Ask { group },
            },
            ..p
        },
        (Action::Ask { group }, Event::Answered(line)) => Progress {
            pending: if affirmative(line@) {
                Action::Remove { group, member: 1 }
            } else {
                Action::Skipped { group }
            },
            ..p
        },
        (Action::Skipped { group }, Event::Done) => Progress {
            pending: enter(groups, mode, group + 1),
            ..p
        },
        (Action::Remove { group, member }, Event::Removed) => {
            Progress {
                pending: after_attempt(groups, mode, group, member),
                deleted_count: (p.deleted_count + 1) as u64,
                deleted_bytes: (p.deleted_bytes + groups[group as int].size) as u64,
            }
        },
        (Action::Remove { group, member }, Event::RemoveFailed) => Progress {
            pending: after_attempt(groups, mode, group, member),
            ..p
        },
        (Action::Summary, Event::Done) => Progress { pending: Action::Finish, ..p },
        _ => p,
    }
}

/// The state after a whole sequence of events.
pub open spec fn run(groups: Seq<DuplicateGroup>, mode: Mode, events: Seq<Event>) -> Progress
    decreases events.len(),
{
    if events.len() == 0 {
        start(groups)
    } else {
        next(groups, mode, run(groups, mode, events.drop_last()), events.last())
    }
}

/// Duplicates that lie before the pending action: those of the groups
/// already left, and the members of the current group already attempted.
pub open spec fn reached_dupes(groups: Seq<DuplicateGroup>, pending: Action) -> nat {
    match pending {
        Action::NoDuplicates | Action::Overview => 0,
        Action::ShowGroup { group } | Action::Ask { group } | Action::Skipped { group } => dupes_before(
            groups,
            group as int,
        ),
        Action::Remove { group, member } => dupes_before(groups, group as int) + (member - 1) as nat,
        Action::Summary | Action::Finish => total_dupes(groups),
    }
}

/// Bytes held by the duplicates that lie before the pending action.
pub open spec fn reached_bytes(groups: Seq<DuplicateGroup>, pending: Action) -> nat {
    match pending {
        Action::NoDuplicates | Action::Overview => 0,
        Action::ShowGroup { group } | Action::Ask { group } | Action::Skipped { group } => bytes_before(
            groups,
            group as int,
        ),
        Action::Remove { group, member } => bytes_before(groups, group as int)
            + groups[group as int].size as nat * (member - 1) as nat,
        Action::Summary | Action::Finish => wasted_bytes(groups),
    }
}

/// An action names a group that exists, never the kept member, and fits the
/// mode.
pub open spec fn permitted(groups: Seq<DuplicateGroup>, mode: Mode, pending: Action) -> bool {
    match pending {
        Action::NoDuplicates => groups.len() == 0,
        Action::Overview => groups.len() > 0,
        Action::ShowGroup { group } => group < groups.len(),
        Action::Ask { group } | Action::Skipped { group } => group < groups.len() && mode
            == Mode::Interactive,
        Action::Remove { group, member } => group < groups.len() && 1 <= member
            < groups[group as int].paths.len() && mode != Mode::DryRun,
        Action::Summary => mode != Mode::DryRun,
        Action::Finish => true,
    }
}

/// What holds of every state that a run can reach.
pub open spec fn consistent(groups: Seq<DuplicateGroup>, mode: Mode, p: Progress) -> bool {
    &&& permitted(groups, mode, p.pending)
    &&& p.deleted_count <= reached_dupes(groups, p.pending)
    &&& p.deleted_bytes <= reached_bytes(groups, p.pending)
    &&& mode == Mode::DryRun ==> p.deleted_count == 0 && p.deleted_bytes == 0
}

/// Every duplicate that lies before the pending action was removed.
pub open spec fn all_removed(groups: Seq<DuplicateGroup>, p: Progress) -> bool {
    &&& p.deleted_count == reached_dupes(groups, p.pending)
    &&& p.deleted_bytes == reached_bytes(groups, p.pending)
}

/// The partial sums grow with the number of groups.
pub proof fn lemma_sums_monotonic(groups: Seq<DuplicateGroup>, i: int, j: int)
    requires
        i <= j,
    ensures
        dupes_before(groups, i) <= dupes_before(groups, j),
        bytes_before(groups, i) <= bytes_before(groups, j),
    decreases j - i,
{
    if i < j {
        lemma_sums_monotonic(groups, i, j - 1);
    }
}

/// Within a group, the members attempted so far weigh no more than all its
/// duplicates.
proof fn lemma_member_bytes(size: nat, member: nat, members: nat)
    requires
        1 <= member < members,
    ensures
        size * ((member - 1) as nat) + size == size * member,
        size * member <= size * ((members - 1) as nat),
{
    assert(size * ((member - 1) as nat) + size == size * member) by (nonlinear_arith)
        requires
            1 <= member,
    ;
    assert(size * member <= size * ((members - 1) as nat)) by (nonlinear_arith)
        requires
            member <= members - 1,
    ;
}

/// A step keeps a state consistent, and the counters of a consistent state
/// have room for one more removal.
pub proof fn lemma_next_consistent(
    groups: Seq<DuplicateGroup>,
    mode: Mode,
    p: Progress,
    event: Event,
)
    requires
        admissible(groups),
        consistent(groups, mode, p),
    ensures
        consistent(groups, mode, next(groups, mode, p, event)),
        p.pending is Remove ==> p.deleted_count + 1 <= u64::MAX && p.deleted_bytes
            + groups[p.pending->Remove_group as int].size <= u64::MAX,
{
    let len = groups.len() as int;
    match p.pending {
        Action::ShowGroup { group } | Action::Skipped { group } => {
            lemma_sums_monotonic(groups, group as int, group + 1);
            lemma_sums_monotonic(groups, group + 1, len);
        },
        Action::Remove { group, member } => {
            let g = groups[group as int];
            lemma_member_bytes(g.size as nat, member as nat, g.paths.len() as nat);
            lemma_sums_monotonic(groups, group + 1, len);
            assert(dupes_before(groups, group + 1) == dupes_before(groups, group as int)
                + g.dupes());
            assert(bytes_before(groups, group + 1) == bytes_before(groups, group as int)
                + g.wasted());
        },
        _ => {},
    }
}

/// Every state of every run is consistent: whatever the caller reports, the
/// machine never asks for the kept member of a group, never for a group that
/// does not exist, and never counts more than the groups hold.
pub proof fn lemma_run_consistent(groups: Seq<DuplicateGroup>, mode: Mode, events: Seq<Event>)
    requires
        admissible(groups),
    ensures
        consistent(groups, mode, run(groups, mode, events)),
    decreases events.len(),
{
    if events.len() > 0 {
        lemma_run_consistent(groups, mode, events.drop_last());
        lemma_next_consistent(
            groups,
            mode,
            run(groups, mode, events.drop_last()),
            events.last(),
        );
    }
}

/// A dry run removes nothing: after any sequence of events no file has been
/// counted as removed and the machine is not asking for a removal, however
/// many groups there are.
pub proof fn lemma_dry_run_removes_nothing(groups: Seq<DuplicateGroup>, events: Seq<Event>)
    requires
        admissible(groups),
    ensures
        run(groups, Mode::DryRun, events).deleted_count == 0,
        run(groups, Mode::DryRun, events).deleted_bytes == 0,
        !(run(groups, Mode::DryRun, events).pending is Remove),
        !(run(groups, Mode::DryRun, events).pending is Ask),
{
    lemma_run_consistent(groups, Mode::DryRun, events);
}

/// In a forced run a step whose removal did not fail keeps the counters
/// equal to what lies before the pending action.
proof fn lemma_forced_step_removes_all(groups: Seq<DuplicateGroup>, p: Progress, event: Event)
    requires
        admissible(groups),
        consistent(groups, Mode::Forced, p),
        all_removed(groups, p),
        !(event is RemoveFailed),
    ensures
        all_removed(groups, next(groups, Mode::Forced, p, event)),
{
    lemma_next_consistent(groups, Mode::Forced, p, event);
    let after = next(groups, Mode::Forced, p, event);
    match p.pending {
        Action::Remove { group, member } => {
            let g = groups[group as int];
            lemma_member_bytes(g.size as nat, member as nat, g.paths.len() as nat);
            assert(dupes_before(groups, group + 1) == dupes_before(groups, group as int)
                + g.dupes());
            assert(bytes_before(groups, group + 1) == bytes_before(groups, group as int)
                + g.wasted());
            if event is Removed {
                if member + 1 < g.paths.len() {
                    assert(after.pending == Action::Remove {
                        group,
                        member: (member + 1) as usize,
                    });
                } else {
                    assert(reached_dupes(groups, after.pending) == dupes_before(
                        groups,
                        group + 1,
                    ));
                    assert(reached_bytes(groups, after.pending) == bytes_before(
                        groups,
                        group + 1,
                    ));
                }
            }
        },
        Action::ShowGroup { group } => {
            if event is Done {
                assert(groups[group as int].size as nat * 0 == 0) by (nonlinear_arith);
            }
        },
        _ => {},
    }
}

/// A forced run in which no removal fails removes every duplicate it has
/// passed: `members - 1` files of each group it has left, the kept member
/// never among them.  Once it has reached the summary or the end, the files
/// removed number `members - 1` summed over all groups, and the bytes freed
/// are `size * (members - 1)` summed over all groups.
pub proof fn lemma_forced_run_removes_all(groups: Seq<DuplicateGroup>, events: Seq<Event>)
    requires
        admissible(groups),
        forall|i: int| 0 <= i < events.len() ==> !(#[trigger] events[i] is RemoveFailed),
    ensures
        all_removed(groups, run(groups, Mode::Forced, events)),
        ({
            let end = run(groups, Mode::Forced, events);
            &&& end.pending is Summary || end.pending is Finish ==> end.deleted_count
                == total_dupes(groups) && end.deleted_bytes == wasted_bytes(groups)
            &&& end.pending matches Action::Remove { group, member } ==> group < groups.len() && 1
                <= member < groups[group as int].paths.len()
        }),
    decreases events.len(),
{
    if events.len() > 0 {
        let before = events.drop_last();
        assert forall|i: int| 0 <= i < before.len() implies !(#[trigger] before[i]
            is RemoveFailed) by {}
        lemma_forced_run_removes_all(groups, before);
        lemma_run_consistent(groups, Mode::Forced, before);
        lemma_forced_step_removes_all(groups, run(groups, Mode::Forced, before), events.last());
    }
    lemma_run_consistent(groups, Mode::Forced, events);
}

/// A run that may remove files does not end without its summary: where such
/// a run over at least one group has reached `Finish`, it asked for the
/// summary before, whether its removals succeeded, failed or were declined.
pub proof fn lemma_summary_precedes_finish(
    groups: Seq<DuplicateGroup>,
    mode: Mode,
    events: Seq<Event>,
) -> (k: int)
    requires
        admissible(groups),
        groups.len() > 0,
        mode != Mode::DryRun,
        run(groups, mode, events).pending is Finish,
    ensures
        0 <= k < events.len(),
        run(groups, mode, events.take(k)).pending is Summary,
    decreases events.len(),
{
    let before = events.drop_last();
    lemma_run_consistent(groups, mode, before);
    if run(groups, mode, before).pending is Finish {
        let k = lemma_summary_precedes_finish(groups, mode, before);
        assert(events.take(k) =~= before.take(k));
        k
    } else {
        assert(events.take(events.len() - 1) =~= before);
        events.len() - 1
    }
}

/// Whether `event` is a report on the pending action.
pub open spec fn answers(pending: Action, event: Event) -> bool {
    match pending {
        Action::NoDuplicates
        | Action::Overview
        | Action::ShowGroup { .. }
        | Action::Skipped { .. }
        | Action::Summary => event is Done,
        Action::Ask { .. } => event is Answered,
        Action::Remove { .. } => event is Removed || event is RemoveFailed,
        Action::Finish => false,
    }
}

/// Actions that the first `n` groups can ask for at most: for each group
/// one to show it, one to ask, and one for each duplicate.
pub open spec fn actions_before(groups: Seq<DuplicateGroup>, n: int) -> nat
    decreases n,
{
    if n <= 0 {
        0
    } else {
        actions_before(groups, n - 1) + groups[n - 1].paths.len() as nat + 1
    }
}

/// A bound on the reports that a run still takes before it is finished.
pub open spec fn steps_left(groups: Seq<DuplicateGroup>, pending: Action) -> nat {
    let all = actions_before(groups, groups.len() as int);
    match pending {
        Action::Finish => 0,
        Action::Summary | Action::NoDuplicates => 1,
        Action::Overview => all + 3,
        Action::ShowGroup { group } => (all - actions_before(groups, group as int) + 2) as nat,
        Action::Ask { group } => (all - actions_before(groups, group as int) + 1) as nat,
        Action::Remove { group, member } => (all - actions_before(groups, group + 1)
            + groups[group as int].paths.len() - member + 2) as nat,
        Action::Skipped { group } => (all - actions_before(groups, group + 1) + 3) as nat,
    }
}

proof fn lemma_actions_monotonic(groups: Seq<DuplicateGroup>, i: int, j: int)
    requires
        i <= j,
    ensures
        actions_before(groups, i) <= actions_before(groups, j),
    decreases j - i,
{
    if i < j {
        lemma_actions_monotonic(groups, i, j - 1);
    }
}

/// Every run ends: each report on the pending action brings the run closer
/// to its end, so a caller that answers each action reaches `Finish` after
/// at most `steps_left` reports, whatever the answers are and whichever
/// removals fail.
pub proof fn lemma_step_makes_progress(
    groups: Seq<DuplicateGroup>,
    mode: Mode,
    p: Progress,
    event: Event,
)
    requires
        admissible(groups),
        consistent(groups, mode, p),
        answers(p.pending, event),
    ensures
        steps_left(groups, next(groups, mode, p, event).pending) < steps_left(groups, p.pending),
{
    let len = groups.len() as int;
    lemma_next_consistent(groups, mode, p, event);
    match p.pending {
        Action::Overview => {
            lemma_actions_monotonic(groups, 0, len);
        },
        Action::ShowGroup { group } | Action::Ask { group } | Action::Skipped { group } => {
            lemma_actions_monotonic(groups, group + 1, len);
            assert(actions_before(groups, group + 1) == actions_before(groups, group as int)
                + groups[group as int].paths.len() + 1);
            if group + 1 < len {
                lemma_actions_monotonic(groups, group + 2, len);
                assert(actions_before(groups, group + 2) == actions_before(groups, group + 1)
                    + groups[group + 1].paths.len() + 1);
            }
        },
        Action::Remove { group, member } => {
            lemma_actions_monotonic(groups, group + 1, len);
            if group + 1 < len {
                lemma_actions_monotonic(groups, group + 2, len);
                assert(actions_before(groups, group + 2) == actions_before(groups, group + 1)
                    + groups[group + 1].paths.len() + 1);
            }
        },
        _ => {},
    }
}

/// What can be seen of a `Resolver`: the groups it works on, its mode, and
/// where the run stands.
pub struct ResolverView {
    pub groups: Seq<DuplicateGroup>,
    pub mode: Mode,
    pub progress: Progress,
}

/// The figures of a run over `groups` that has come to `progress`.
pub open spec fn summary_of(groups: Seq<DuplicateGroup>, progress: Progress) -> RunSummary {
    RunSummary {
        total_groups: groups.len() as usize,
        total_dupes: total_dupes(groups) as u64,
        wasted_bytes: wasted_bytes(groups) as u64,
        deleted_count: progress.deleted_count,
        deleted_bytes: progress.deleted_bytes,
    }
}

/// The removal pass over a list of duplicate groups.
pub struct Resolver {
    groups: Vec<DuplicateGroup>,
    mode: Mode,
    progress: Progress,
    total_dupes: u64,
    wasted_bytes: u64,
}

impl View for Resolver {
    type V = ResolverView;

    closed spec fn view(&self) -> ResolverView {
        ResolverView { groups: self.groups@, mode: self.mode, progress: self.progress }
    }
}

impl Resolver {
    #[verifier::type_invariant]
    spec fn inv(&self) -> bool {
        &&& admissible(self.groups@)
        &&& consistent(self.groups@, self.mode, self.progress)
        &&& self.total_dupes == total_dupes(self.groups@)
        &&& self.wasted_bytes == wasted_bytes(self.groups@)
    }

    /// Prepares a run over `groups`.  There is none where a group lacks a
    /// duplicate or the totals do not fit the counters.
    pub fn new(groups: Vec<DuplicateGroup>, mode: Mode) -> (made: Option<Resolver>)
        ensures
            made is Some <==> admissible(groups@),
            made matches Some(resolver) ==> resolver@ == (ResolverView {
                groups: groups@,
                mode,
                progress: start(groups@),
            }),
    {
        let count: usize = groups.len();
        let mut dupes_sum: u64 = 0;
        let mut bytes_sum: u64 = 0;
        let mut k: usize = 0;
        while k < count
            invariant
                count == groups@.len(),
                k <= count,
                forall|j: int| 0 <= j < k ==> (#[trigger] groups@[j]).wf(),
                dupes_sum == dupes_before(groups@, k as int),
                bytes_sum == bytes_before(groups@, k as int),
            decreases count - k,
        {
            proof {
                lemma_sums_monotonic(groups@, k + 1, count as int);
            }
            let members: usize = groups[k].paths.len();
            if members < 2 {
                return None;
            }
            let dupes: u64 = (members - 1) as u64;
            let bytes: u64 = match groups[k].size.checked_mul(dupes) {
                Some(bytes) => bytes,
                None => {
                    return None;
                },
            };
            dupes_sum = match dupes_sum.checked_add(dupes) {
                Some(sum) => sum,
                None => {
                    return None;
                },
            };
            bytes_sum = match bytes_sum.checked_add(bytes) {
                Some(sum) => sum,
                None => {
                    return None;
                },
            };
            k = k + 1;
        }
        let pending = if count == 0 {
            Action::NoDuplicates
        } else {
            Action::Overview
        };
        Some(
            Resolver {
                groups,
                mode,
                progress: Progress { pending, deleted_count: 0, deleted_bytes: 0 },
                total_dupes: dupes_sum,
                wasted_bytes: bytes_sum,
            },
        )
    }

    /// The groups of the run, in the order in which it visits them.
    pub fn groups(&self) -> (groups: &Vec<DuplicateGroup>)
        ensures
            groups@ == self@.groups,
            admissible(groups@),
    {
        proof {
            use_type_invariant(self);
        }
        &self.groups
    }

    /// How the run treats duplicates.
    pub fn mode(&self) -> (mode: Mode)
        ensures
            mode == self@.mode,
    {
        self.mode
    }

    /// The action that the run waits for.
    pub fn pending(&self) -> (action: Action)
        ensures
            action == self@.progress.pending,
            permitted(self@.groups, self@.mode, action),
    {
        proof {
            use_type_invariant(self);
        }
        self.progress.pending
    }

    /// The figures of the run as it stands.
    pub fn summary(&self) -> (summary: RunSummary)
        ensures
            summary == summary_of(self@.groups, self@.progress),
            consistent(self@.groups, self@.mode, self@.progress),
    {
        proof {
            use_type_invariant(self);
        }
        RunSummary {
            total_groups: self.groups.len(),
            total_dupes: self.total_dupes,
            wasted_bytes: self.wasted_bytes,
            deleted_count: self.progress.deleted_count,
            deleted_bytes: self.progress.deleted_bytes,
        }
    }

    fn enter(&self, group: usize) -> (action: Action)
        ensures
            action == enter(self.groups@, self.mode, group as int),
    {
        if group < self.groups.len() {
            Action::ShowGroup { group }
        } else if !matches!(self.mode, Mode::DryRun) {
            Action::Summary
        } else {
            Action::Finish
        }
    }

    fn after_attempt(&self, group: usize, member: usize) -> (action: Action)
        requires
            group < self.groups.len(),
            member < self.groups@[group as int].paths.len(),
        ensures
            action == after_attempt(self.groups@, self.mode, group, member),
    {
        if member + 1 < self.groups[group].paths.len() {
            Action::Remove { group, member: member + 1 }
        } else {
            self.enter(group + 1)
        }
    }

    /// Takes the caller's report on the pending action and names the next
    /// one.  A report that does not answer the pending action is ignored and
    /// the action is named again.
    pub fn step(&mut self, event: Event) -> (action: Action)
        ensures
            final(self)@.groups == old(self)@.groups,
            final(self)@.mode == old(self)@.mode,
            final(self)@.progress == next(
                old(self)@.groups,
                old(self)@.mode,
                old(self)@.progress,
                event,
            ),
            action == final(self)@.progress.pending,
            permitted(final(self)@.groups, final(self)@.mode, action),
    {
        proof {
            use_type_invariant(&*self);
            lemma_next_consistent(self.groups@, self.mode, self.progress, event);
        }
        let p: Progress = self.progress;
        let after: Progress = match p.pending {
            Action::NoDuplicates => match event {
                Event::Done => Progress { pending: Action::Finish, ..p },
                _ => p,
            },
            Action::Overview => match event {
                Event::Done => Progress { pending: self.enter(0), ..p },
                _ => p,
            },
            Action::ShowGroup { group } => match event {
                Event::Done => Progress {
                    pending: match self.mode {
                        Mode::DryRun => self.enter(group + 1),
                        Mode::Forced => Action::Remove { group, member: 1 },
                        Mode::Interactive => Action::Ask { group },
                    },
                    ..p
                },
                _ => p,
            },
            Action::Ask { group } => match event {
                Event::Answered(line) => Progress {
                    pending: if is_affirmative(line.as_str()) {
                        Action::Remove { group, member: 1 }
                    } else {
                        Action::Skipped { group }
                    },
                    ..p
                },
                _ => p,
            },
            Action::Skipped { group } => match event {
                Event::Done => Progress { pending: self.enter(group + 1), ..p },
                _ => p,
            },
            Action::Remove { group, member } => match event {
                Event::Removed => {
                    Progress {
                        pending: self.after_attempt(group, member),
                        deleted_count: p.deleted_count + 1,
                        deleted_bytes: p.deleted_bytes + self.groups[group].size,
                    }
                },
                Event::RemoveFailed => Progress {
                    pending: self.after_attempt(group, member),
                    ..p
                },
                _ => p,
            },
            Action::Summary => match event {
                Event::Done => Progress { pending: Action::Finish, ..p },
                _ => p,
            },
            Action::Finish => p,
        };
        self.progress = after;
        after.pending
    }
}

/// Begins the report on `duplicates` and their removal: dry-run wins over
/// force, and without either the run asks before it removes.  The caller
/// performs each action that the returned machine names and reports back
/// with `step`.
pub fn report_and_handle(duplicates: Vec<DuplicateGroup>, dry_run: bool, force: bool) -> (made:
    Option<Resolver>)
    ensures
        made is Some <==> admissible(duplicates@),
        made matches Some(resolver) ==> resolver@ == (ResolverView {
            groups: duplicates@,
            mode: Mode::of_flags(dry_run, force),
            progress: start(duplicates@),
        }),
{
    Resolver::new(duplicates, Mode::from_flags(dry_run, force))
}

} // verus!
