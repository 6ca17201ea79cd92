//! The exploration as a machine. It never touches the file system: it says
//! what it needs to know next, whoever drives it finds that out and hands
//! the answer back, and the machine says what follows.
//!
//! The work that is still to do lies on a stack, so that a deep tree costs
//! memory of the machine and no depth of calls.

use crate::arguments::Settings;
use crate::explorer::{descends, left_out, line_of, shown, Core, Item, ItemView};
use crate::style::Style;
use vstd::prelude::*;

verus! {

/// A path that the exploration has come to.
#[derive(Debug, PartialEq, Eq)]
pub struct Entry {
    /// The path as text, as it was walked from the root.
    pub path: String,
    /// Its final component, where the path has one.
    pub name: Option<String>,
    /// Whether the path leads to a directory.
    pub is_dir: bool,
}

/// An `Entry` as plain values.
pub ghost struct EntryView {
    pub path: Seq<char>,
    pub name: Option<Seq<char>>,
    pub is_dir: bool,
}

/// An optional text as plain values.
pub open spec fn text_of(text: Option<String>) -> Option<Seq<char>> {
    match text {
        Some(text) => Some(text@),
        None => None,
    }
}

impl View for Entry {
    type V = EntryView;

    open spec fn view(&self) -> EntryView {
        EntryView { path: self.path@, name: text_of(self.name), is_dir: self.is_dir }
    }
}

/// The absolute form of a path, free of links and of steps back.
#[derive(Debug, PartialEq, Eq)]
pub struct Canonical {
    /// The absolute path as text.
    pub path: String,
    /// Its final component, where it has one.
    pub name: Option<String>,
}

/// A `Canonical` as plain values.
pub ghost struct CanonicalView {
    pub path: Seq<char>,
    pub name: Option<Seq<char>>,
}

impl View for Canonical {
    type V = CanonicalView;

    open spec fn view(&self) -> CanonicalView {
        CanonicalView { path: self.path@, name: text_of(self.name) }
    }
}

/// What the driver hands to the machine.
#[derive(Debug, PartialEq, Eq)]
pub enum Event {
    /// Nothing to report: the machine had asked for nothing.
    Resume,
    /// The absolute form of the path that was to be resolved.
    Resolved(Canonical),
    /// What the directory that was to be listed holds, in the order in
    /// which it was read. Where reading broke off, `failure` says why, and
    /// `children` holds what had been read until then.
    Listed { children: Vec<Entry>, failure: Option<String> },
    /// What the machine asked for could not be done.
    Failed(String),
}

/// An `Event` as plain values.
pub ghost enum EventView {
    Resume,
    Resolved(CanonicalView),
    Listed { children: Seq<EntryView>, failure: Option<Seq<char>> },
    Failed(Seq<char>),
}

/// A list of entries as plain values.
pub open spec fn entries_of(entries: Seq<Entry>) -> Seq<EntryView> {
    Seq::new(entries.len(), |i: int| entries[i]@)
}

impl View for Event {
    type V = EventView;

    open spec fn view(&self) -> EventView {
        match *self {
            Event::Resume => EventView::Resume,
            Event::Resolved(canonical) => EventView::Resolved(canonical@),
            Event::Listed { children, failure } => EventView::Listed {
                children: entries_of(children@),
                failure: text_of(failure),
            },
            Event::Failed(message) => EventView::Failed(message@),
        }
    }
}

/// What the machine asks of the driver.
#[derive(Debug, PartialEq, Eq)]
pub enum Action {
    /// Write this line out, then hand back `Event::Resume`.
    Emit(String),
    /// Find the absolute form of this path, and hand back `Event::Resolved`.
    Resolve(String),
    /// Read the directory at this path, and hand back `Event::Listed`.
    List(String),
    /// The exploration is complete.
    Finish,
    /// The exploration has failed, for the reason given.
    Abort(String),
}

/// An `Action` as plain values.
pub ghost enum ActionView {
    Emit(Seq<char>),
    Resolve(Seq<char>),
    List(Seq<char>),
    Finish,
    Abort(Seq<char>),
}

impl View for Action {
    type V = ActionView;

    open spec fn view(&self) -> ActionView {
        match *self {
            Action::Emit(line) => ActionView::Emit(line@),
            Action::Resolve(path) => ActionView::Resolve(path@),
            Action::List(path) => ActionView::List(path@),
            Action::Finish => ActionView::Finish,
            Action::Abort(message) => ActionView::Abort(message@),
        }
    }
}

/// One piece of work that is still to do.
#[derive(Debug)]
pub enum Work {
    /// Visit this entry, which lies at this level.
    Visit { entry: Entry, level: u32 },
    /// Go through what the directory at this path holds.
    Expand { path: String, level: u32 },
    /// Fail: at this point the reading of a directory had broken off.
    Fail { message: String },
}

/// A `Work` as plain values.
pub ghost enum WorkView {
    Visit { entry: EntryView, level: u32 },
    Expand { path: Seq<char>, level: u32 },
    Fail { message: Seq<char> },
}

impl View for Work {
    type V = WorkView;

    open spec fn view(&self) -> WorkView {
        match *self {
            Work::Visit { entry, level } => WorkView::Visit { entry: entry@, level },
            Work::Expand { path, level } => WorkView::Expand { path: path@, level },
            Work::Fail { message } => WorkView::Fail { message: message@ },
        }
    }
}

/// A stack of work as plain values; the last piece is the next to do.
pub open spec fn works_of(stack: Seq<Work>) -> Seq<WorkView> {
    Seq::new(stack.len(), |i: int| stack[i]@)
}

/// What the machine is waiting for.
#[derive(Debug)]
pub enum Phase {
    /// For nothing: it takes the next piece of work.
    Ready,
    /// For the absolute form of an entry whose path has no final component,
    /// to name the entry by.
    Naming { entry: Entry, level: u32 },
    /// For the absolute form of an entry that goes by `name`, to write it.
    Locating { entry: Entry, level: u32, name: String },
    /// For what a directory at `level` holds.
    Listing { level: u32 },
    /// For nothing any more: the exploration is over.
    Over,
}

/// A `Phase` as plain values.
pub ghost enum PhaseView {
    Ready,
    Naming { entry: EntryView, level: u32 },
    Locating { entry: EntryView, level: u32, name: Seq<char> },
    Listing { level: u32 },
    Over,
}

impl View for Phase {
    type V = PhaseView;

    open spec fn view(&self) -> PhaseView {
        match *self {
            Phase::Ready => PhaseView::Ready,
            Phase::Naming { entry, level } => PhaseView::Naming { entry: entry@, level },
            Phase::Locating { entry, level, name } => PhaseView::Locating {
                entry: entry@,
                level,
                name: name@,
            },
            Phase::Listing { level } => PhaseView::Listing { level },
            Phase::Over => PhaseView::Over,
        }
    }
}

/// An exploration under way.
#[derive(Debug)]
pub struct Walk {
    stack: Vec<Work>,
    phase: Phase,
}

/// A `Walk` as plain values.
pub ghost struct WalkView {
    /// The work still to do; the last piece is the next.
    pub stack: Seq<WorkView>,
    /// What the machine is waiting for.
    pub phase: PhaseView,
}

impl View for Walk {
    type V = WalkView;

    closed spec fn view(&self) -> WalkView {
        WalkView { stack: works_of(self.stack@), phase: self.phase@ }
    }
}

/// The message with which the machine refuses an event that does not
/// answer what it asked.
pub const OUT_OF_TURN: &'static str =
    "the exploration was handed an answer to what it had not asked";

/// The message with which the machine gives up below the last level that
/// it can count.
pub const TOO_DEEP: &'static str = "the tree is deeper than the exploration can count";

/// The state of an exploration that is over.
pub open spec fn over() -> WalkView {
    WalkView { stack: Seq::empty(), phase: PhaseView::Over }
}

/// The state of an exploration that is about to visit `entry` at `level`.
pub open spec fn begun(entry: EntryView, level: u32) -> WalkView {
    WalkView { stack: seq![WorkView::Visit { entry, level }], phase: PhaseView::Ready }
}

/// The name that an entry without a final component goes by: the final
/// component of its absolute form, or all of that form where it has none.
pub open spec fn name_from(canonical: CanonicalView) -> Seq<char> {
    match canonical.name {
        Some(name) => name,
        None => canonical.path,
    }
}

/// What is known of an entry at the moment it is decided upon.
pub open spec fn item_of(
    entry: EntryView,
    level: u32,
    name: Seq<char>,
    absolute: Seq<char>,
) -> ItemView {
    ItemView { path: entry.path, name, absolute, is_dir: entry.is_dir, level: level as nat }
}

/// The visits that the children of a directory at `level` call for, laid
/// on the stack so that the first child is the next piece of work.
pub open spec fn visits(children: Seq<EntryView>, level: u32) -> Seq<WorkView> {
    Seq::new(
        children.len(),
        |i: int|
            WorkView::Visit {
                entry: children[children.len() - 1 - i],
                level: (level + 1) as u32,
            },
    )
}

/// What follows when the machine takes up the work on `stack`: pieces that
/// call for nothing are done with at once, until one asks something of the
/// driver or no work is left.
pub open spec fn advance(settings: Settings, stack: Seq<WorkView>) -> (WalkView, ActionView)
    decreases stack.len(), 0nat,
{
    if stack.len() == 0 {
        (over(), ActionView::Finish)
    } else {
        let rest = stack.drop_last();
        match stack.last() {
            WorkView::Fail { message } => (over(), ActionView::Abort(message)),
            WorkView::Expand { path, level } => (
                WalkView { stack: rest, phase: PhaseView::Listing { level } },
                ActionView::List(path),
            ),
            WorkView::Visit { entry, level } => match entry.name {
                None => (
                    WalkView { stack: rest, phase: PhaseView::Naming { entry, level } },
                    ActionView::Resolve(entry.path),
                ),
                Some(name) => named(settings, rest, entry, level, name, None),
            },
        }
    }
}

/// What follows once the name of an entry is known. An entry that is left
/// out calls for nothing. In the absolute style the absolute form is asked
/// for, unless it is at hand.
pub open spec fn named(
    settings: Settings,
    rest: Seq<WorkView>,
    entry: EntryView,
    level: u32,
    name: Seq<char>,
    absolute: Option<Seq<char>>,
) -> (WalkView, ActionView)
    decreases rest.len(), 2nat,
{
    if left_out(settings, name) {
        advance(settings, rest)
    } else if settings.style == Style::ABSOLUTE && absolute is None {
        (
            WalkView { stack: rest, phase: PhaseView::Locating { entry, level, name } },
            ActionView::Resolve(entry.path),
        )
    } else {
        placed(
            settings,
            rest,
            entry,
            level,
            name,
            match absolute {
                Some(absolute) => absolute,
                None => Seq::empty(),
            },
        )
    }
}

/// What follows once all is known of an entry that is not left out: its
/// line where it is shown, and the listing of what it holds where the
/// exploration goes on below it.
pub open spec fn placed(
    settings: Settings,
    rest: Seq<WorkView>,
    entry: EntryView,
    level: u32,
    name: Seq<char>,
    absolute: Seq<char>,
) -> (WalkView, ActionView)
    decreases rest.len(), 1nat,
{
    let item = item_of(entry, level, name, absolute);
    if shown(settings, item) {
        (
            WalkView {
                stack: if descends(settings, item) {
                    rest.push(WorkView::Expand { path: entry.path, level })
                } else {
                    rest
                },
                phase: PhaseView::Ready,
            },
            ActionView::Emit(line_of(settings, item)),
        )
    } else if descends(settings, item) {
        (
            WalkView { stack: rest, phase: PhaseView::Listing { level } },
            ActionView::List(entry.path),
        )
    } else {
        advance(settings, rest)
    }
}

/// What follows once a directory at `level` is listed: its children are
/// visited in the order given, one level further down, and the failure, if
/// there is one, comes after the last of them.
pub open spec fn listed(
    settings: Settings,
    rest: Seq<WorkView>,
    level: u32,
    children: Seq<EntryView>,
    failure: Option<Seq<char>>,
) -> (WalkView, ActionView) {
    if level == u32::MAX && children.len() > 0 {
        (over(), ActionView::Abort(TOO_DEEP@))
    } else {
        advance(
            settings,
            match failure {
                Some(message) => rest.push(WorkView::Fail { message }),
                None => rest,
            } + visits(children, level),
        )
    }
}

/// One step of the machine: the state after `event`, and what is asked of
/// the driver next.
pub open spec fn step_of(settings: Settings, walk: WalkView, event: EventView) -> (
    WalkView,
    ActionView,
) {
    match (walk.phase, event) {
        (PhaseView::Over, _) => (over(), ActionView::Abort(OUT_OF_TURN@)),
        (_, EventView::Failed(message)) => (over(), ActionView::Abort(message)),
        (PhaseView::Ready, EventView::Resume) => advance(settings, walk.stack),
        (PhaseView::Naming { entry, level }, EventView::Resolved(canonical)) => named(
            settings,
            walk.stack,
            entry,
            level,
            name_from(canonical),
            Some(canonical.path),
        ),
        (PhaseView::Locating { entry, level, name }, EventView::Resolved(canonical)) => placed(
            settings,
            walk.stack,
            entry,
            level,
            name,
            canonical.path,
        ),
        (PhaseView::Listing { level }, EventView::Listed { children, failure }) => listed(
            settings,
            walk.stack,
            level,
            children,
            failure,
        ),
        _ => (over(), ActionView::Abort(OUT_OF_TURN@)),
    }
}

/// How the handling of one entry ended: with an answer for the driver, or
/// with nothing to ask, the work that is left being handed back.
enum Outcome {
    Done(Walk, Action),
    Onward(Vec<Work>),
}

impl Walk {
    /// An exploration that is over.
    fn ended() -> (walk: Walk)
        ensures
            walk@ == over(),
    {
        let walk = Walk { stack: Vec::new(), phase: Phase::Over };
        assert(walk@.stack =~= Seq::empty());
        walk
    }

    /// Whether the exploration is over.
    pub fn is_over(&self) -> (ended: bool)
        ensures
            ended == (self@.phase is Over),
    {
        match self.phase {
            Phase::Over => true,
            _ => false,
        }
    }
}

impl Core {
    /// Begins an exploration with the visit of `entry` at `level`. The
    /// first step is made with `Event::Resume`.
    pub fn visit_path(&self, entry: Entry, level: u32) -> (walk: Walk)
        ensures
            walk@ == begun(entry@, level),
    {
        let mut stack: Vec<Work> = Vec::new();
        stack.push(Work::Visit { entry, level });
        let walk = Walk { stack, phase: Phase::Ready };
        assert(walk@.stack =~= begun(entry@, level).stack);
        walk
    }

    /// Decides on an entry of which all is known that the style needs.
    fn placed(
        &self,
        stack: Vec<Work>,
        entry: Entry,
        level: u32,
        name: String,
        absolute: String,
    ) -> (outcome: Outcome)
        ensures
            match outcome {
                Outcome::Done(walk, action) => (walk@, action@) == placed(
                    self@,
                    works_of(stack@),
                    entry@,
                    level,
                    name@,
                    absolute@,
                ),
                Outcome::Onward(rest) => rest == stack && placed(
                    self@,
                    works_of(stack@),
                    entry@,
                    level,
                    name@,
                    absolute@,
                ) == advance(self@, works_of(stack@)),
            },
    {
        let item = Item { path: entry.path, name, absolute, is_dir: entry.is_dir, level };
        if self.shows(&item) {
            let line = self.print_item(&item);
            let mut todo = stack;
            if self.goes_below(&item) {
                let work = Work::Expand { path: item.path, level };
                todo.push(work);
                assert(works_of(todo@) =~= works_of(stack@).push(work@));
            }
            Outcome::Done(Walk { stack: todo, phase: Phase::Ready }, Action::Emit(line))
        } else if self.goes_below(&item) {
            Outcome::Done(Walk { stack, phase: Phase::Listing { level } }, Action::List(item.path))
        } else {
            Outcome::Onward(stack)
        }
    }

    /// Decides on an entry whose name is known.
    fn named(
        &self,
        stack: Vec<Work>,
        entry: Entry,
        level: u32,
        name: String,
        absolute: Option<String>,
    ) -> (outcome: Outcome)
        ensures
            match outcome {
                Outcome::Done(walk, action) => (walk@, action@) == named(
                    self@,
                    works_of(stack@),
                    entry@,
                    level,
                    name@,
                    text_of(absolute),
                ),
                Outcome::Onward(rest) => rest == stack && named(
                    self@,
                    works_of(stack@),
                    entry@,
                    level,
                    name@,
                    text_of(absolute),
                ) == advance(self@, works_of(stack@)),
            },
    {
        if self.leaves_out(name.as_str()) {
            return Outcome::Onward(stack);
        }
        match absolute {
            Some(absolute) => self.placed(stack, entry, level, name, absolute),
            None => match self.style() {
                Style::ABSOLUTE => {
                    let path = entry.path.clone();
                    Outcome::Done(
                        Walk { stack, phase: Phase::Locating { entry, level, name } },
                        Action::Resolve(path),
                    )
                },
                _ => self.placed(stack, entry, level, name, String::new()),
            },
        }
    }

    /// Takes up the work on the stack.
    fn advance(&self, stack: Vec<Work>) -> (next: (Walk, Action))
        ensures
            (next.0@, next.1@) == advance(self@, works_of(stack@)),
    {
        let mut todo = stack;
        loop
            invariant
                advance(self@, works_of(todo@)) == advance(self@, works_of(stack@)),
            decreases todo@.len(),
        {
            let ghost before = works_of(todo@);
            match todo.pop() {
                None => {
                    return (Walk::ended(), Action::Finish);
                },
                Some(work) => {
                    assert(works_of(todo@) =~= before.drop_last());
                    match work {
                        Work::Fail { message } => {
                            return (Walk::ended(), Action::Abort(message));
                        },
                        Work::Expand { path, level } => {
                            return (
                                Walk { stack: todo, phase: Phase::Listing { level } },
                                Action::List(path),
                            );
                        },
                        Work::Visit { entry, level } => {
                            let name = match &entry.name {
                                Some(name) => name.clone(),
                                None => {
                                    let path = entry.path.clone();
                                    return (
                                        Walk { stack: todo, phase: Phase::Naming { entry, level } },
                                        Action::Resolve(path),
                                    );
                                },
                            };
                            match self.named(todo, entry, level, name, None) {
                                Outcome::Done(walk, action) => {
                                    return (walk, action);
                                },
                                Outcome::Onward(rest) => {
                                    todo = rest;
                                },
                            }
                        },
                    }
                },
            }
        }
    }

    /// Lays the children of a directory on the stack and takes up the work.
    fn listed(
        &self,
        stack: Vec<Work>,
        level: u32,
        children: Vec<Entry>,
        failure: Option<String>,
    ) -> (next: (Walk, Action))
        ensures
            (next.0@, next.1@) == listed(
                self@,
                works_of(stack@),
                level,
                entries_of(children@),
                text_of(failure),
            ),
    {
        if level == u32::MAX && children.len() > 0 {
            return (Walk::ended(), Action::Abort(TOO_DEEP.to_owned()));
        }
        let ghost all = entries_of(children@);
        let mut todo = stack;
        match failure {
            Some(message) => {
                todo.push(Work::Fail { message });
            },
            None => {},
        }
        let ghost base = works_of(todo@);
        let mut waiting = children;
        loop
            invariant
                all == entries_of(children@),
                base == match text_of(failure) {
                    Some(message) => works_of(stack@).push(WorkView::Fail { message }),
                    None => works_of(stack@),
                },
                waiting@.len() <= all.len(),
                entries_of(waiting@) == all.take(waiting@.len() as int),
                works_of(todo@) == base + visits(all, level).take(all.len() - waiting@.len()),
                level < u32::MAX || all.len() == 0,
            decreases waiting@.len(),
        {
            let ghost left = waiting@.len() as int;
            let ghost so_far = works_of(todo@);
            let ghost before = entries_of(waiting@);
            match waiting.pop() {
                None => {
                    assert(visits(all, level).take(all.len() as int) == visits(all, level));
                    return self.advance(todo);
                },
                Some(entry) => {
                    assert(entry@ == before[left - 1]);
                    let work = Work::Visit { entry, level: level + 1 };
                    todo.push(work);
                    assert(works_of(todo@) =~= so_far.push(work@));
                },
            }
        }
    }

    /// One step of the exploration: takes the state and the driver's answer
    /// to what was asked last, and gives the next state with what is asked
    /// next. After `Action::Finish` or `Action::Abort` the exploration is
    /// over.
    pub fn step(&self, walk: Walk, event: Event) -> (next: (Walk, Action))
        ensures
            (next.0@, next.1@) == step_of(self@, walk@, event@),
    {
        let Walk { stack, phase } = walk;
        match phase {
            Phase::Over => self.refuse(),
            Phase::Ready => match event {
                Event::Failed(message) => (Walk::ended(), Action::Abort(message)),
                Event::Resume => self.advance(stack),
                _ => self.refuse(),
            },
            Phase::Naming { entry, level } => match event {
                Event::Failed(message) => (Walk::ended(), Action::Abort(message)),
                Event::Resolved(canonical) => {
                    let Canonical { path, name } = canonical;
                    let name = match name {
                        Some(name) => name,
                        None => path.clone(),
                    };
                    match self.named(stack, entry, level, name, Some(path)) {
                        Outcome::Done(walk, action) => (walk, action),
                        Outcome::Onward(rest) => self.advance(rest),
                    }
                },
                _ => self.refuse(),
            },
            Phase::Locating { entry, level, name } => match event {
                Event::Failed(message) => (Walk::ended(), Action::Abort(message)),
                Event::Resolved(canonical) => {
                    match self.placed(stack, entry, level, name, canonical.path) {
                        Outcome::Done(walk, action) => (walk, action),
                        Outcome::Onward(rest) => self.advance(rest),
                    }
                },
                _ => self.refuse(),
            },
            Phase::Listing { level } => match event {
                Event::Failed(message) => (Walk::ended(), Action::Abort(message)),
                Event::Listed { children, failure } => self.listed(stack, level, children, failure),
                _ => self.refuse(),
            },
        }
    }

    /// Ends the exploration over an event that answers nothing.
    fn refuse(&self) -> (next: (Walk, Action))
        ensures
            next.0@ == over(),
            next.1@ == ActionView::Abort(OUT_OF_TURN@),
    {
        (Walk::ended(), Action::Abort(OUT_OF_TURN.to_owned()))
    }
}

} // verus!
