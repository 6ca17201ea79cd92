//! The machine held against the tree: driven by answers that are true of a
//! file tree, it writes what the exploration of that tree writes, line for
//! line, and ends as that exploration ends.

use crate::arguments::Settings;
use crate::explorer::{descends, left_out, line_of, shown};
use crate::style::Style;
use crate::tree::{
    breaking_off, course, course_among, fails_at, is_met, item_in, lemma_followed_by_nothing,
    lemma_followed_by_pairs, lemma_lines_of_one, lemma_written_of_both, lines, name_in, outcome,
    written, Course, Tree,
};
use crate::walk::{
    advance, begun, item_of, listed, named, over, placed, step_of, visits, ActionView, EntryView,
    EventView, PhaseView, WalkView, WorkView,
};
use vstd::prelude::*;

verus! {

/// What a driver finds out of the file system: the event with which it
/// answers when asked to resolve a path, and when asked to list one.
pub ghost struct Answers {
    pub resolve: spec_fn(Seq<char>) -> EventView,
    pub list: spec_fn(Seq<char>) -> EventView,
}

/// The roots of `trees`.
pub open spec fn entries_in(trees: Seq<Tree>) -> Seq<EntryView> {
    Seq::new(trees.len(), |i: int| trees[i].entry)
}

/// Whether `event` tells of the root of `tree` what the tree holds of its
/// absolute form.
pub open spec fn tells_absolute(event: EventView, tree: Tree) -> bool {
    event == match tree.canonical {
        Ok(canonical) => EventView::Resolved(canonical),
        Err(message) => EventView::Failed(message),
    }
}

/// Whether `event` tells of the directory at the root of `tree` what the
/// tree holds of it. A reading that fails before anything is read may be
/// told as a failure or as a listing that breaks off at once.
pub open spec fn tells_listing(event: EventView, tree: Tree) -> bool {
    ||| event == (EventView::Listed {
        children: entries_in(tree.children),
        failure: tree.broken,
    })
    ||| tree.children.len() == 0 && tree.broken is Some && event == EventView::Failed(
        tree.broken->0,
    )
}

/// Whether the answers are true of `tree`, at its root and all below it.
pub open spec fn describes(answers: Answers, tree: Tree) -> bool
    decreases tree,
{
    &&& tells_absolute((answers.resolve)(tree.entry.path), tree)
    &&& tree.entry.is_dir ==> tells_listing((answers.list)(tree.entry.path), tree)
    &&& forall|i: int|
        0 <= i < tree.children.len() ==> describes(answers, #[trigger] tree.children[i])
}

/// Whether the levels of `tree`, its root lying at `level`, can all be
/// counted in 32 bits.
pub open spec fn countable(tree: Tree, level: nat) -> bool
    decreases tree,
{
    &&& level <= u32::MAX
    &&& forall|i: int|
        0 <= i < tree.children.len() ==> countable(#[trigger] tree.children[i], level + 1)
}

/// What a driver hands back for an action, going by the answers.
pub open spec fn reply(answers: Answers, action: ActionView) -> EventView {
    match action {
        ActionView::Resolve(path) => (answers.resolve)(path),
        ActionView::List(path) => (answers.list)(path),
        _ => EventView::Resume,
    }
}

/// How a run of the machine ended.
pub ghost enum End {
    /// With `Action::Finish`.
    Finished,
    /// With `Action::Abort` and this message.
    Failed(Seq<char>),
    /// Not at all: the driver stopped answering before the machine was done.
    Open,
}

/// A run of the machine: the lines that it had written, and how it ended.
#[verifier::ext_equal]
pub ghost struct Run {
    pub lines: Seq<Seq<char>>,
    pub end: End,
}

/// The run that writes what `course` holds and ends as it ends.
pub open spec fn run_of(course: Course<Seq<char>>) -> Run {
    Run {
        lines: course.items,
        end: match course.failure {
            None => End::Finished,
            Some(message) => End::Failed(message),
        },
    }
}

/// The run that follows a step of the machine, for as long as the driver
/// answers at most `steps` actions.
pub open spec fn run_from(
    settings: Settings,
    answers: Answers,
    now: (WalkView, ActionView),
    steps: nat,
) -> Run
    decreases steps,
{
    match now.1 {
        ActionView::Finish => Run { lines: Seq::empty(), end: End::Finished },
        ActionView::Abort(message) => Run { lines: Seq::empty(), end: End::Failed(message) },
        action => if steps == 0 {
            Run { lines: Seq::empty(), end: End::Open }
        } else {
            let after = run_from(
                settings,
                answers,
                step_of(settings, now.0, reply(answers, action)),
                (steps - 1) as nat,
            );
            match action {
                ActionView::Emit(line) => Run { lines: seq![line] + after.lines, end: after.end },
                _ => after,
            }
        },
    }
}

/// The run of an exploration that begins with the visit of `entry` at
/// `level`.
pub open spec fn run(
    settings: Settings,
    answers: Answers,
    entry: EntryView,
    level: u32,
    steps: nat,
) -> Run {
    run_from(settings, answers, step_of(settings, begun(entry, level), EventView::Resume), steps)
}

/// A number of actions within which the exploration of `tree` is over: an
/// entry asks for its absolute form at most once, has at most one line,
/// and is listed at most once.
pub open spec fn effort(tree: Tree) -> nat
    decreases tree,
{
    3 + effort_among(tree.children)
}

/// The sum of the efforts for `trees`.
pub open spec fn effort_among(trees: Seq<Tree>) -> nat
    decreases trees,
{
    if trees.len() == 0 {
        0
    } else {
        effort(trees[0]) + effort_among(trees.drop_first())
    }
}

/// A piece of work as the tree sees it.
ghost enum Task {
    /// The visit of the root of `tree`, which lies at `level`.
    Visit { tree: Tree, level: nat },
    /// The visits of what the root of `tree` holds.
    Expand { tree: Tree, level: nat },
    /// The failure with which the reading of a directory broke off.
    Fail { message: Seq<char> },
}

/// The piece of work on the machine's stack that stands for `task`.
spec fn work_for(task: Task) -> WorkView {
    match task {
        Task::Visit { tree, level } => WorkView::Visit { entry: tree.entry, level: level as u32 },
        Task::Expand { tree, level } => WorkView::Expand {
            path: tree.entry.path,
            level: level as u32,
        },
        Task::Fail { message } => WorkView::Fail { message },
    }
}

/// The stack that stands for `tasks`.
spec fn works_for(tasks: Seq<Task>) -> Seq<WorkView> {
    Seq::new(tasks.len(), |i: int| work_for(tasks[i]))
}

/// Whether the answers are true of the tree of `task`, and its levels can
/// be counted.
spec fn sound(answers: Answers, task: Task) -> bool {
    match task {
        Task::Visit { tree, level } => describes(answers, tree) && countable(tree, level),
        Task::Expand { tree, level } => describes(answers, tree) && countable(tree, level)
            && tree.entry.is_dir,
        Task::Fail { message } => true,
    }
}

/// Whether each of `tasks` is sound.
spec fn all_sound(answers: Answers, tasks: Seq<Task>) -> bool {
    forall|i: int| 0 <= i < tasks.len() ==> sound(answers, #[trigger] tasks[i])
}

/// What the visits below the root of `tree`, which lies at `level`, write.
spec fn outcome_below(settings: Settings, tree: Tree, level: nat) -> Course<Seq<char>> {
    written(settings, course_among(settings, tree.children, level + 1)).followed_by(
        written(settings, breaking_off(tree)),
    )
}

/// What `task` is to write.
spec fn due(settings: Settings, task: Task) -> Course<Seq<char>> {
    match task {
        Task::Visit { tree, level } => outcome(settings, tree, level),
        Task::Expand { tree, level } => outcome_below(settings, tree, level),
        Task::Fail { message } => Course::failed(message),
    }
}

/// What `tasks` are to write, the last task first.
spec fn all_due(settings: Settings, tasks: Seq<Task>) -> Course<Seq<char>>
    decreases tasks.len(),
{
    if tasks.len() == 0 {
        Course::nothing()
    } else {
        due(settings, tasks.last()).followed_by(all_due(settings, tasks.drop_last()))
    }
}

/// A number of actions within which `task` is done.
spec fn cost(task: Task) -> nat {
    match task {
        Task::Visit { tree, level } => effort(tree),
        Task::Expand { tree, level } => 1 + effort_among(tree.children),
        Task::Fail { message } => 0,
    }
}

/// A number of actions within which all of `tasks` are done.
spec fn total_cost(tasks: Seq<Task>) -> nat
    decreases tasks.len(),
{
    if tasks.len() == 0 {
        0
    } else {
        cost(tasks.last()) + total_cost(tasks.drop_last())
    }
}

/// The visits of `children` at `level`, the first child last, so that it
/// is the next to be done.
spec fn visits_of(children: Seq<Tree>, level: nat) -> Seq<Task> {
    Seq::new(
        children.len(),
        |i: int| Task::Visit { tree: children[children.len() - 1 - i], level },
    )
}

/// The task that stands for the breaking off of a reading, if it broke off.
spec fn failure_of(broken: Option<Seq<char>>) -> Seq<Task> {
    match broken {
        Some(message) => seq![Task::Fail { message }],
        None => Seq::empty(),
    }
}

/// Tasks laid on a stack add their costs to those of the stack, are done
/// before it, and are sound if the stack is and they are.
proof fn lemma_laid_on(settings: Settings, answers: Answers, below: Seq<Task>, above: Seq<Task>)
    ensures
        total_cost(below + above) == total_cost(below) + total_cost(above),
        all_due(settings, below + above) == all_due(settings, above).followed_by(
            all_due(settings, below),
        ),
        all_sound(answers, below) && all_sound(answers, above) ==> all_sound(
            answers,
            below + above,
        ),
        works_for(below + above) == works_for(below) + works_for(above),
    decreases above.len(),
{
    if above.len() == 0 {
        lemma_followed_by_nothing(all_due(settings, below));
    } else {
        assert((below + above).drop_last() == below + above.drop_last());
        lemma_laid_on(settings, answers, below, above.drop_last());
        lemma_followed_by_pairs(
            due(settings, above.last()),
            all_due(settings, above.drop_last()),
            all_due(settings, below),
        );
    }
}

/// The visits of the children of a sound tree are sound, cost what the
/// children cost, write what the children write, and stand on the stack as
/// the machine lays them.
proof fn lemma_visits_of(settings: Settings, answers: Answers, children: Seq<Tree>, level: nat)
    requires
        forall|i: int| 0 <= i < children.len() ==> describes(answers, #[trigger] children[i]),
        forall|i: int| 0 <= i < children.len() ==> countable(#[trigger] children[i], level + 1),
        level < u32::MAX || children.len() == 0,
    ensures
        all_sound(answers, visits_of(children, level + 1)),
        total_cost(visits_of(children, level + 1)) == effort_among(children),
        all_due(settings, visits_of(children, level + 1)) == written(
            settings,
            course_among(settings, children, level + 1),
        ),
        works_for(visits_of(children, level + 1)) == visits(entries_in(children), level as u32),
    decreases children.len(),
{
    let tasks = visits_of(children, level + 1);
    if children.len() > 0 {
        let others = children.drop_first();
        assert(tasks.drop_last() == visits_of(others, level + 1));
        lemma_visits_of(settings, answers, others, level);
        lemma_written_of_both(
            settings,
            course(settings, children[0], level + 1),
            course_among(settings, others, level + 1),
        );
    }
}

/// The task for the breaking off of a reading costs nothing and writes
/// what the breaking off writes.
proof fn lemma_failure_of(settings: Settings, answers: Answers, tree: Tree)
    ensures
        all_sound(answers, failure_of(tree.broken)),
        total_cost(failure_of(tree.broken)) == 0,
        all_due(settings, failure_of(tree.broken)) == written(settings, breaking_off(tree)),
        works_for(failure_of(tree.broken)) == match tree.broken {
            Some(message) => seq![WorkView::Fail { message }],
            None => Seq::<WorkView>::empty(),
        },
{
    let tasks = failure_of(tree.broken);
    if tree.broken is Some {
        assert(total_cost(tasks.drop_last()) == 0);
    }
}

/// The machine reads of an entry what the tree holds of it: the absolute
/// form counts in the absolute style only.
proof fn lemma_same_item(settings: Settings, tree: Tree, level: nat, absolute: Seq<char>)
    requires
        level <= u32::MAX,
        settings.style == Style::ABSOLUTE ==> tree.canonical is Ok && absolute
            == tree.canonical->Ok_0.path,
    ensures
        ({
            let seen = item_of(tree.entry, level as u32, name_in(tree), absolute);
            let held = item_in(tree, level);
            &&& shown(settings, seen) == shown(settings, held)
            &&& descends(settings, seen) == descends(settings, held)
            &&& line_of(settings, seen) == line_of(settings, held)
        }),
{
}

/// What the exploration of a tree writes when its root is reached: the
/// line of the root where it is shown, then what the visits below bring
/// where the exploration goes on below it.
proof fn lemma_outcome_unfolds(settings: Settings, tree: Tree, level: nat)
    requires
        is_met(settings, tree),
    ensures
        outcome(settings, tree, level) == written(
            settings,
            Course::only(item_in(tree, level)),
        ).followed_by(
            if descends(settings, item_in(tree, level)) {
                outcome_below(settings, tree, level)
            } else {
                Course::nothing()
            },
        ),
{
    let item = item_in(tree, level);
    let own = Course::only(item);
    if descends(settings, item) {
        let below = course_among(settings, tree.children, level + 1);
        lemma_followed_by_pairs(own, below, breaking_off(tree));
        lemma_written_of_both(settings, own, below.followed_by(breaking_off(tree)));
        lemma_written_of_both(settings, below, breaking_off(tree));
    } else {
        lemma_followed_by_nothing(written(settings, own));
    }
}

/// Where the exploration fails at the root of a tree, it writes nothing
/// of that tree and ends with the reason why the absolute form cannot be
/// had.
proof fn lemma_failing_at_once(settings: Settings, tree: Tree, level: nat)
    requires
        fails_at(settings, tree),
    ensures
        outcome(settings, tree, level) == Course::<Seq<char>>::failed(tree.canonical->Err_0),
{
}

/// Where the driver answers with a failure, the run ends with it and
/// nothing more is written.
proof fn lemma_failure_ends_the_run(
    settings: Settings,
    answers: Answers,
    now: (WalkView, ActionView),
    message: Seq<char>,
    steps: nat,
)
    requires
        !(now.0.phase is Over),
        now.1 is Resolve || now.1 is List,
        reply(answers, now.1) == EventView::Failed(message),
        steps > 0,
    ensures
        run_from(settings, answers, now, steps) == (Run {
            lines: Seq::empty(),
            end: End::Failed(message),
        }),
{
    let next = step_of(settings, now.0, EventView::Failed(message));
    assert(run_from(settings, answers, next, (steps - 1) as nat) == (Run {
        lines: Seq::empty(),
        end: End::Failed(message),
    }));
}

/// A line that is written first stands before all that the run goes on to
/// write.
proof fn lemma_line_first(line: Seq<char>, after: Course<Seq<char>>)
    ensures
        run_of(Course::only(line).followed_by(after)) == (Run {
            lines: seq![line] + run_of(after).lines,
            end: run_of(after).end,
        }),
{
}

/// The machine does the tasks on its stack: within their cost it writes
/// what they are to write, in their order, and ends as they end.
proof fn lemma_tasks_are_done(settings: Settings, answers: Answers, tasks: Seq<Task>, steps: nat)
    requires
        all_sound(answers, tasks),
        steps >= total_cost(tasks),
    ensures
        run_from(settings, answers, advance(settings, works_for(tasks)), steps) == run_of(
            all_due(settings, tasks),
        ),
    decreases total_cost(tasks), 3nat,
{
    if tasks.len() > 0 {
        let rest = tasks.drop_last();
        assert(works_for(tasks).drop_last() == works_for(rest));
        assert(all_sound(answers, rest));
        match tasks.last() {
            Task::Fail { message } => {},
            Task::Expand { tree, level } => {
                lemma_listing_is_done(settings, answers, rest, tree, level, steps);
            },
            Task::Visit { tree, level } => {
                match tree.entry.name {
                    None => {
                        if tree.canonical is Ok {
                            lemma_named_is_done(
                                settings,
                                answers,
                                rest,
                                tree,
                                level,
                                true,
                                (steps - 1) as nat,
                            );
                                    } else {
                            lemma_failing_at_once(settings, tree, level);
                            lemma_failure_ends_the_run(
                                settings,
                                answers,
                                advance(settings, works_for(tasks)),
                                tree.canonical->Err_0,
                                steps,
                            );
                                    }
                    },
                    Some(name) => {
                        lemma_named_is_done(settings, answers, rest, tree, level, false, steps);
                            },
                }
            },
        }
    }
}

/// Once the name of the root of `tree` is known, the machine goes on to
/// write what the visit of that tree and the tasks below it are to write.
proof fn lemma_named_is_done(
    settings: Settings,
    answers: Answers,
    rest: Seq<Task>,
    tree: Tree,
    level: nat,
    resolved: bool,
    steps: nat,
)
    requires
        all_sound(answers, rest),
        describes(answers, tree),
        countable(tree, level),
        resolved ==> tree.canonical is Ok,
        !resolved ==> tree.entry.name is Some,
        steps + (if resolved {
            1nat
        } else {
            0nat
        }) >= total_cost(rest) + effort(tree),
    ensures
        run_from(
            settings,
            answers,
            named(
                settings,
                works_for(rest),
                tree.entry,
                level as u32,
                name_in(tree),
                if resolved {
                    Some(tree.canonical->Ok_0.path)
                } else {
                    None
                },
            ),
            steps,
        ) == run_of(outcome(settings, tree, level).followed_by(all_due(settings, rest))),
    decreases total_cost(rest) + effort(tree), 2nat,
{
    if left_out(settings, name_in(tree)) {
        lemma_tasks_are_done(settings, answers, rest, steps);
        lemma_followed_by_nothing(all_due(settings, rest));
    } else if settings.style == Style::ABSOLUTE && !resolved {
        if tree.canonical is Ok {
            lemma_placed_is_done(
                settings,
                answers,
                rest,
                tree,
                level,
                tree.canonical->Ok_0.path,
                (steps - 1) as nat,
            );
        } else {
            lemma_failing_at_once(settings, tree, level);
            lemma_failure_ends_the_run(
                settings,
                answers,
                named(settings, works_for(rest), tree.entry, level as u32, name_in(tree), None),
                tree.canonical->Err_0,
                steps,
            );
        }
    } else {
        lemma_placed_is_done(
            settings,
            answers,
            rest,
            tree,
            level,
            if resolved {
                tree.canonical->Ok_0.path
            } else {
                Seq::empty()
            },
            steps,
        );
    }
}

/// Once all is known of the root of `tree`, which is reached, the machine
/// goes on to write what the visit of that tree and the tasks below it are
/// to write.
proof fn lemma_placed_is_done(
    settings: Settings,
    answers: Answers,
    rest: Seq<Task>,
    tree: Tree,
    level: nat,
    absolute: Seq<char>,
    steps: nat,
)
    requires
        all_sound(answers, rest),
        describes(answers, tree),
        countable(tree, level),
        is_met(settings, tree),
        settings.style == Style::ABSOLUTE ==> tree.canonical is Ok && absolute
            == tree.canonical->Ok_0.path,
        steps + 1 >= total_cost(rest) + effort(tree),
    ensures
        run_from(
            settings,
            answers,
            placed(settings, works_for(rest), tree.entry, level as u32, name_in(tree), absolute),
            steps,
        ) == run_of(outcome(settings, tree, level).followed_by(all_due(settings, rest))),
    decreases total_cost(rest) + effort(tree), 1nat,
{
    lemma_outcome_unfolds(settings, tree, level);
    lemma_same_item(settings, tree, level, absolute);
    let item = item_in(tree, level);
    let line = line_of(settings, item);
    let own = written(settings, Course::only(item));
    let below = if descends(settings, item) {
        outcome_below(settings, tree, level)
    } else {
        Course::nothing()
    };
    let others = all_due(settings, rest);
    lemma_lines_of_one(settings, item);
    lemma_followed_by_pairs(own, below, others);
    if shown(settings, item) {
        lemma_line_first(line, below.followed_by(others));
        if descends(settings, item) {
            let task = Task::Expand { tree, level };
            let tasks = rest.push(task);
            assert(works_for(tasks) == works_for(rest).push(work_for(task)));
            assert(tasks.drop_last() == rest);
            assert(all_sound(answers, tasks));
            lemma_tasks_are_done(settings, answers, tasks, (steps - 1) as nat);
        } else {
            lemma_tasks_are_done(settings, answers, rest, (steps - 1) as nat);
            lemma_followed_by_nothing(others);
        }
    } else {
        lemma_followed_by_nothing(below.followed_by(others));
        if descends(settings, item) {
            lemma_listing_is_done(settings, answers, rest, tree, level, steps);
        } else {
            lemma_tasks_are_done(settings, answers, rest, steps);
            lemma_followed_by_nothing(others);
        }
    }
}

/// Once the machine asks for what the root of `tree` holds, it goes on to
/// write what the visits below that root and the tasks below them are to
/// write.
proof fn lemma_listing_is_done(
    settings: Settings,
    answers: Answers,
    rest: Seq<Task>,
    tree: Tree,
    level: nat,
    steps: nat,
)
    requires
        all_sound(answers, rest),
        describes(answers, tree),
        countable(tree, level),
        tree.entry.is_dir,
        steps >= total_cost(rest) + 1 + effort_among(tree.children),
    ensures
        run_from(
            settings,
            answers,
            (
                WalkView {
                    stack: works_for(rest),
                    phase: PhaseView::Listing { level: level as u32 },
                },
                ActionView::List(tree.entry.path),
            ),
            steps,
        ) == run_of(outcome_below(settings, tree, level).followed_by(all_due(settings, rest))),
    decreases total_cost(rest) + 1 + effort_among(tree.children), 1nat,
{
    let children = tree.children;
    let event = (answers.list)(tree.entry.path);
    let others = all_due(settings, rest);
    if event == EventView::Failed(tree.broken->0) && children.len() == 0 && tree.broken is Some {
        lemma_failure_ends_the_run(
            settings,
            answers,
            (
                WalkView {
                    stack: works_for(rest),
                    phase: PhaseView::Listing { level: level as u32 },
                },
                ActionView::List(tree.entry.path),
            ),
            tree.broken->0,
            steps,
        );
    } else {
        let ending = failure_of(tree.broken);
        let coming = visits_of(children, level + 1);
        let tasks = (rest + ending) + coming;
        if children.len() > 0 {
            assert(countable(children[0], level + 1));
        }
        lemma_visits_of(settings, answers, children, level);
        lemma_failure_of(settings, answers, tree);
        lemma_laid_on(settings, answers, rest, ending);
        lemma_laid_on(settings, answers, rest + ending, coming);
        lemma_followed_by_pairs(
            all_due(settings, coming),
            all_due(settings, ending),
            others,
        );
        lemma_tasks_are_done(settings, answers, tasks, (steps - 1) as nat);
        assert(works_for(rest + ending) == match tree.broken {
            Some(message) => works_for(rest).push(WorkView::Fail { message }),
            None => works_for(rest),
        });
    }
}

/// Driven by answers that are true of a tree, the machine writes what the
/// exploration of that tree writes, line for line and in order, and ends
/// as that exploration ends: with `Action::Finish` where nothing fails,
/// else with `Action::Abort` and the message of the first failure that the
/// exploration meets, the lines written until then standing. It does so
/// within `effort(tree)` actions, and no number of further steps adds a
/// line.
pub proof fn law_the_machine_writes_the_outcome(
    settings: Settings,
    answers: Answers,
    tree: Tree,
    level: u32,
    steps: nat,
)
    requires
        describes(answers, tree),
        countable(tree, level as nat),
        steps >= effort(tree),
    ensures
        run(settings, answers, tree.entry, level, steps) == run_of(
            outcome(settings, tree, level as nat),
        ),
{
    let task = Task::Visit { tree, level: level as nat };
    let tasks = seq![task];
    assert(works_for(tasks) == begun(tree.entry, level).stack);
    assert(total_cost(tasks.drop_last()) == 0);
    assert(all_due(settings, tasks.drop_last()) == Course::<Seq<char>>::nothing());
    lemma_tasks_are_done(settings, answers, tasks, steps);
    lemma_followed_by_nothing(outcome(settings, tree, level as nat));
}

} // verus!
