//! What an exploration shows of a whole file tree, and what holds of it
//! whatever the tree and the settings are.

use crate::arguments::Settings;
use crate::explorer::{
    descends, development_names, found, indentation, is_development, is_hidden, left_out, line_of,
    shown, tab_width, ItemView,
};
use crate::style::Style;
use crate::walk::{name_from, CanonicalView, EntryView};
use vstd::prelude::*;

verus! {

/// A file tree as an exploration can come to know it.
pub ghost struct Tree {
    /// The root of the tree.
    pub entry: EntryView,
    /// The absolute form of the root's path, or the reason why it cannot
    /// be had.
    pub canonical: Result<CanonicalView, Seq<char>>,
    /// The trees of what the root holds, in the order in which the
    /// directory gives them, as far as it can be read.
    pub children: Seq<Tree>,
    /// The reason why the reading of the directory broke off after
    /// `children`, if it did.
    pub broken: Option<Seq<char>>,
}

/// A stretch of an exploration: what it brought, in order, and the reason
/// why it failed, if it did. Nothing follows a failure.
#[verifier::ext_equal]
pub ghost struct Course<A> {
    pub items: Seq<A>,
    pub failure: Option<Seq<char>>,
}

impl<A> Course<A> {
    /// A stretch that brings nothing and does not fail.
    pub open spec fn nothing() -> Course<A> {
        Course { items: Seq::empty(), failure: None }
    }

    /// A stretch that brings `item` and does not fail.
    pub open spec fn only(item: A) -> Course<A> {
        Course { items: seq![item], failure: None }
    }

    /// A stretch that fails at once.
    pub open spec fn failed(message: Seq<char>) -> Course<A> {
        Course { items: Seq::empty(), failure: Some(message) }
    }

    /// This stretch, followed by `next` unless it fails.
    pub open spec fn followed_by(self, next: Course<A>) -> Course<A> {
        if self.failure is Some {
            self
        } else {
            Course { items: self.items + next.items, failure: next.failure }
        }
    }
}

/// It makes no difference how three stretches in a row are paired.
pub proof fn lemma_followed_by_pairs<A>(first: Course<A>, second: Course<A>, third: Course<A>)
    ensures
        first.followed_by(second).followed_by(third) == first.followed_by(
            second.followed_by(third),
        ),
{
}

/// A stretch that brings nothing changes nothing before or after another.
pub proof fn lemma_followed_by_nothing<A>(course: Course<A>)
    ensures
        Course::<A>::nothing().followed_by(course) == course,
        course.followed_by(Course::<A>::nothing()) == course,
{
}

/// The name that the root of `tree` goes by: the final component of its
/// path, or else what its absolute form gives.
pub open spec fn name_in(tree: Tree) -> Seq<char> {
    match tree.entry.name {
        Some(name) => name,
        None => match tree.canonical {
            Ok(canonical) => name_from(canonical),
            Err(_) => Seq::empty(),
        },
    }
}

/// The root of `tree`, found at `level`.
pub open spec fn item_in(tree: Tree, level: nat) -> ItemView {
    ItemView {
        path: tree.entry.path,
        name: name_in(tree),
        absolute: match tree.canonical {
            Ok(canonical) => canonical.path,
            Err(_) => Seq::empty(),
        },
        is_dir: tree.entry.is_dir,
        level,
    }
}

/// Whether the absolute form of the root is called for: to name a root
/// whose path has no final component, or to write a root that is not left
/// out in the absolute style.
pub open spec fn asks_for_absolute(settings: Settings, tree: Tree) -> bool {
    tree.entry.name is None || (!left_out(settings, name_in(tree)) && settings.style
        == Style::ABSOLUTE)
}

/// Whether the exploration fails at the root: the absolute form is called
/// for and cannot be had.
pub open spec fn fails_at(settings: Settings, tree: Tree) -> bool {
    asks_for_absolute(settings, tree) && tree.canonical is Err
}

/// Whether the root is reached: the exploration does not fail at it, and
/// it is not left out.
pub open spec fn is_met(settings: Settings, tree: Tree) -> bool {
    !fails_at(settings, tree) && !left_out(settings, name_in(tree))
}

/// The end of the visits below the root: the failure with which the
/// reading of the directory broke off, if it did.
pub open spec fn breaking_off(tree: Tree) -> Course<ItemView> {
    Course { items: Seq::empty(), failure: tree.broken }
}

/// The course of the exploration of `tree` from `level`: the entries that
/// it reaches and does not leave out, parents before children and children
/// in their order, up to the first failure that it meets. It fails where
/// an absolute form is called for and cannot be had, and where the reading
/// of a directory breaks off, once what had been read is explored.
pub open spec fn course(settings: Settings, tree: Tree, level: nat) -> Course<ItemView>
    decreases tree,
{
    let item = item_in(tree, level);
    if fails_at(settings, tree) {
        Course::failed(tree.canonical->Err_0)
    } else if left_out(settings, item.name) {
        Course::nothing()
    } else if descends(settings, item) {
        Course::only(item).followed_by(
            course_among(settings, tree.children, level + 1),
        ).followed_by(breaking_off(tree))
    } else {
        Course::only(item)
    }
}

/// The course of the explorations of `trees`, one after the other, all
/// from `level`.
pub open spec fn course_among(settings: Settings, trees: Seq<Tree>, level: nat) -> Course<ItemView>
    decreases trees,
{
    if trees.len() == 0 {
        Course::nothing()
    } else {
        course(settings, trees[0], level).followed_by(
            course_among(settings, trees.drop_first(), level),
        )
    }
}

/// The entries that the exploration of `tree` from `level` reaches.
pub open spec fn reached(settings: Settings, tree: Tree, level: nat) -> Seq<ItemView> {
    course(settings, tree, level).items
}

/// The entries that the explorations of `trees`, one after the other,
/// reach.
pub open spec fn reached_among(settings: Settings, trees: Seq<Tree>, level: nat) -> Seq<ItemView> {
    course_among(settings, trees, level).items
}

/// Whether nothing in `tree` fails: every absolute form can be had and no
/// reading of a directory breaks off.
pub open spec fn intact(tree: Tree) -> bool
    decreases tree,
{
    &&& tree.canonical is Ok
    &&& tree.broken is None
    &&& forall|i: int| 0 <= i < tree.children.len() ==> intact(#[trigger] tree.children[i])
}

/// The lines for a run of reached entries: one for each that is shown.
pub open spec fn lines(settings: Settings, items: Seq<ItemView>) -> Seq<Seq<char>>
    decreases items.len(),
{
    if items.len() == 0 {
        Seq::empty()
    } else if shown(settings, items[0]) {
        seq![line_of(settings, items[0])] + lines(settings, items.drop_first())
    } else {
        lines(settings, items.drop_first())
    }
}

/// What a course writes: the lines of its entries, and its failure.
pub open spec fn written(settings: Settings, course: Course<ItemView>) -> Course<Seq<char>> {
    Course { items: lines(settings, course.items), failure: course.failure }
}

/// All that the exploration of `tree` from `level` writes, and the reason
/// why it fails, if it does.
pub open spec fn outcome(settings: Settings, tree: Tree, level: nat) -> Course<Seq<char>> {
    written(settings, course(settings, tree, level))
}

/// All that the exploration of `tree` from `level` writes.
pub open spec fn output(settings: Settings, tree: Tree, level: nat) -> Seq<Seq<char>> {
    outcome(settings, tree, level).items
}

/// The lines of two runs of entries, one after the other, are the lines of
/// the first followed by those of the second.
pub proof fn lemma_lines_of_both(settings: Settings, first: Seq<ItemView>, second: Seq<ItemView>)
    ensures
        lines(settings, first + second) == lines(settings, first) + lines(settings, second),
    decreases first.len(),
{
    if first.len() > 0 {
        assert((first + second).drop_first() == first.drop_first() + second);
        lemma_lines_of_both(settings, first.drop_first(), second);
    }
}

/// The lines of a single entry: its line if it is shown, else none.
pub proof fn lemma_lines_of_one(settings: Settings, item: ItemView)
    ensures
        lines(settings, seq![item]) == if shown(settings, item) {
            seq![line_of(settings, item)]
        } else {
            Seq::<Seq<char>>::empty()
        },
{
    assert(seq![item].drop_first() == Seq::<ItemView>::empty());
    assert(lines(settings, Seq::<ItemView>::empty()) == Seq::<Seq<char>>::empty());
}

/// What two courses in a row write is what the first writes, followed by
/// what the second writes unless the first fails.
pub proof fn lemma_written_of_both(
    settings: Settings,
    first: Course<ItemView>,
    second: Course<ItemView>,
)
    ensures
        written(settings, first.followed_by(second)) == written(settings, first).followed_by(
            written(settings, second),
        ),
{
    lemma_lines_of_both(settings, first.items, second.items);
}

/// Whether `holds` is true of each of `items`.
pub open spec fn every(items: Seq<ItemView>, holds: spec_fn(ItemView) -> bool) -> bool {
    forall|i: int| 0 <= i < items.len() ==> holds(#[trigger] items[i])
}

/// What holds of each entry of two courses holds of each entry of the one
/// followed by the other.
proof fn lemma_every_of_both(
    first: Course<ItemView>,
    second: Course<ItemView>,
    holds: spec_fn(ItemView) -> bool,
)
    requires
        every(first.items, holds),
        every(second.items, holds),
    ensures
        every(first.followed_by(second).items, holds),
{
}

/// No reached entry is one that the settings leave out.
proof fn lemma_reached_are_not_left_out(settings: Settings, tree: Tree, level: nat)
    ensures
        every(course(settings, tree, level).items, |item: ItemView| !left_out(settings, item.name)),
    decreases tree,
{
    let item = item_in(tree, level);
    let kept = |item: ItemView| !left_out(settings, item.name);
    if is_met(settings, tree) && descends(settings, item) {
        let below = course_among(settings, tree.children, level + 1);
        lemma_reached_among_are_not_left_out(settings, tree.children, level + 1);
        lemma_every_of_both(Course::only(item), below, kept);
        lemma_every_of_both(Course::only(item).followed_by(below), breaking_off(tree), kept);
    }
}

/// No entry reached in any of `trees` is one that the settings leave out.
proof fn lemma_reached_among_are_not_left_out(settings: Settings, trees: Seq<Tree>, level: nat)
    ensures
        every(
            course_among(settings, trees, level).items,
            |item: ItemView| !left_out(settings, item.name),
        ),
    decreases trees,
{
    let kept = |item: ItemView| !left_out(settings, item.name);
    if trees.len() > 0 {
        lemma_reached_are_not_left_out(settings, trees[0], level);
        lemma_reached_among_are_not_left_out(settings, trees.drop_first(), level);
        lemma_every_of_both(
            course(settings, trees[0], level),
            course_among(settings, trees.drop_first(), level),
            kept,
        );
    }
}

/// What holds of no name that is left out holds of every reached entry.
proof fn lemma_reached_are_kept(
    settings: Settings,
    tree: Tree,
    level: nat,
    unwanted: spec_fn(Seq<char>) -> bool,
)
    requires
        forall|name: Seq<char>| #[trigger] unwanted(name) ==> left_out(settings, name),
    ensures
        every(reached(settings, tree, level), |item: ItemView| !unwanted(item.name)),
{
    lemma_reached_are_not_left_out(settings, tree, level);
}

/// A tree whose root goes by a name that is left out brings nothing:
/// neither the root nor anything below it is reached or written. And where
/// the root is known by that name, nothing fails either: nothing below it
/// is asked of the file system.
proof fn lemma_left_out_brings_nothing(settings: Settings, tree: Tree, level: nat)
    requires
        left_out(settings, name_in(tree)),
    ensures
        reached(settings, tree, level) == Seq::<ItemView>::empty(),
        output(settings, tree, level) == Seq::<Seq<char>>::empty(),
        tree.entry.name is Some || tree.canonical is Ok ==> outcome(settings, tree, level)
            == Course::<Seq<char>>::nothing(),
{
}

/// Each of the development names has at least one character.
proof fn lemma_development_names_are_not_empty()
    ensures
        !is_development(Seq::empty()),
{
    reveal_strlit(".git");
    reveal_strlit("target");
    reveal_strlit("node_modules");
    reveal_strlit("build");
    reveal_strlit("bin");
    let names = development_names();
    assert forall|i: int| 0 <= i < names.len() implies (#[trigger] names[i]).len() > 0 by {}
}

/// Hidden entries stay out. While hidden entries are not asked for, no
/// entry that is reached has a name that starts with a dot, and a tree
/// whose root has such a name brings nothing at all: neither the root nor
/// anything below it is reached or written, and nothing fails there.
pub proof fn law_hidden_entries_stay_out(settings: Settings, tree: Tree, level: nat)
    requires
        !settings.hidden,
    ensures
        every(reached(settings, tree, level), |item: ItemView| !is_hidden(item.name)),
        is_hidden(name_in(tree)) ==> reached(settings, tree, level) == Seq::<ItemView>::empty()
            && outcome(settings, tree, level) == Course::<Seq<char>>::nothing(),
{
    lemma_reached_are_kept(settings, tree, level, |name: Seq<char>| is_hidden(name));
    if is_hidden(name_in(tree)) {
        lemma_left_out_brings_nothing(settings, tree, level);
    }
}

/// Development directories stay out. While they are to be left out, no
/// entry that is reached goes by one of their names, and a tree whose root
/// goes by one brings nothing at all: neither the root nor anything below
/// it is reached or written, and nothing fails there.
pub proof fn law_development_entries_stay_out(settings: Settings, tree: Tree, level: nat)
    requires
        settings.development,
    ensures
        every(reached(settings, tree, level), |item: ItemView| !is_development(item.name)),
        is_development(name_in(tree)) ==> reached(settings, tree, level) == Seq::<ItemView>::empty()
            && outcome(settings, tree, level) == Course::<Seq<char>>::nothing(),
{
    lemma_reached_are_kept(settings, tree, level, |name: Seq<char>| is_development(name));
    if is_development(name_in(tree)) {
        lemma_development_names_are_not_empty();
        lemma_left_out_brings_nothing(settings, tree, level);
    }
}

/// Excluded entries stay out. No entry that is reached has a name in which
/// the exclude pattern is found, and a tree whose root goes by such a name
/// brings nothing: neither the root nor anything below it is reached or
/// written. Where the root is known by that name, nothing fails there
/// either.
pub proof fn law_excluded_entries_stay_out(settings: Settings, tree: Tree, level: nat)
    ensures
        every(reached(settings, tree, level), |item: ItemView| !found(settings.exclude, item.name)),
        found(settings.exclude, name_in(tree)) ==> reached(settings, tree, level) == Seq::<
            ItemView,
        >::empty() && output(settings, tree, level) == Seq::<Seq<char>>::empty(),
        found(settings.exclude, name_in(tree)) && (tree.entry.name is Some || tree.canonical is Ok)
            ==> outcome(settings, tree, level) == Course::<Seq<char>>::nothing(),
{
    lemma_reached_are_kept(
        settings,
        tree,
        level,
        |name: Seq<char>| found(settings.exclude, name),
    );
    if found(settings.exclude, name_in(tree)) {
        lemma_left_out_brings_nothing(settings, tree, level);
    }
}

/// Whether `line` is the line of one of `items` that is shown.
pub open spec fn stands_for_one(settings: Settings, items: Seq<ItemView>, line: Seq<char>) -> bool {
    exists|i: int|
        0 <= i < items.len() && shown(settings, #[trigger] items[i]) && line == line_of(
            settings,
            items[i],
        )
}

/// Every line stands for one of the entries that is shown, and is the line
/// of that entry.
proof fn lemma_lines_come_from_items(settings: Settings, items: Seq<ItemView>)
    ensures
        forall|k: int|
            0 <= k < lines(settings, items).len() ==> stands_for_one(
                settings,
                items,
                #[trigger] lines(settings, items)[k],
            ),
    decreases items.len(),
{
    if items.len() > 0 {
        let rest = items.drop_first();
        lemma_lines_come_from_items(settings, rest);
        assert forall|k: int| 0 <= k < lines(settings, items).len() implies stands_for_one(
            settings,
            items,
            #[trigger] lines(settings, items)[k],
        ) by {
            let line = lines(settings, items)[k];
            if k > 0 || !shown(settings, items[0]) {
                let j = if shown(settings, items[0]) {
                    k - 1
                } else {
                    k
                };
                assert(line == lines(settings, rest)[j]);
            }
        }
    }
}

/// Every line written is the line of a reached entry that is shown, hence
/// of one that is neither hidden (unless hidden entries are asked for), nor
/// a development directory (where these are left out), nor excluded.
pub proof fn law_lines_stand_for_reached_entries(settings: Settings, tree: Tree, level: nat)
    ensures
        every(reached(settings, tree, level), |item: ItemView| !left_out(settings, item.name)),
        forall|k: int|
            0 <= k < output(settings, tree, level).len() ==> stands_for_one(
                settings,
                reached(settings, tree, level),
                #[trigger] output(settings, tree, level)[k],
            ),
{
    lemma_lines_come_from_items(settings, reached(settings, tree, level));
    lemma_reached_are_not_left_out(settings, tree, level);
}

/// Whether `line` is the absolute path of one of `items`.
pub open spec fn is_absolute_of_one(items: Seq<ItemView>, line: Seq<char>) -> bool {
    exists|i: int| 0 <= i < items.len() && line == (#[trigger] items[i]).absolute
}

/// In the absolute style every line is the absolute form of the path of a
/// reached entry, letter for letter as the file system gave it.
pub proof fn law_absolute_style_writes_absolute_forms(settings: Settings, tree: Tree, level: nat)
    requires
        settings.style == Style::ABSOLUTE,
    ensures
        forall|k: int|
            0 <= k < output(settings, tree, level).len() ==> is_absolute_of_one(
                reached(settings, tree, level),
                #[trigger] output(settings, tree, level)[k],
            ),
{
    let items = reached(settings, tree, level);
    lemma_lines_come_from_items(settings, items);
    assert forall|k: int| 0 <= k < output(settings, tree, level).len() implies is_absolute_of_one(
        items,
        #[trigger] output(settings, tree, level)[k],
    ) by {
        let line = output(settings, tree, level)[k];
        let i = choose|i: int|
            0 <= i < items.len() && shown(settings, #[trigger] items[i]) && line == line_of(
                settings,
                items[i],
            );
    }
}

/// Without an include pattern every entry is written, once and in its
/// place.
proof fn lemma_all_lines(settings: Settings, items: Seq<ItemView>)
    requires
        settings.include_pattern is None,
    ensures
        lines(settings, items).len() == items.len(),
        forall|i: int|
            0 <= i < items.len() ==> #[trigger] lines(settings, items)[i] == line_of(
                settings,
                items[i],
            ),
    decreases items.len(),
{
    if items.len() > 0 {
        lemma_all_lines(settings, items.drop_first());
    }
}

/// In the name style and without an include pattern, the lines are the
/// reached entries one for one: each entry that is not left out and lies
/// within the depth limit has exactly one line, in its place, made of as
/// many spaces as its level times the tab width, then `* `, then its name.
pub proof fn law_name_style_writes_every_reached_entry(settings: Settings, tree: Tree, level: nat)
    requires
        settings.style == Style::NAME,
        settings.include_pattern is None,
    ensures
        output(settings, tree, level).len() == reached(settings, tree, level).len(),
        forall|i: int|
            0 <= i < reached(settings, tree, level).len() ==> #[trigger] output(
                settings,
                tree,
                level,
            )[i] == indentation(reached(settings, tree, level)[i].level * tab_width(settings))
                + "* "@ + reached(settings, tree, level)[i].name,
{
    lemma_all_lines(settings, reached(settings, tree, level));
}

/// With a depth limit, the entries reached from a level within the limit
/// lie between that level and the limit.
proof fn lemma_reached_levels(settings: Settings, tree: Tree, level: nat)
    requires
        settings.levels > 0,
        level <= settings.levels,
    ensures
        every(
            course(settings, tree, level).items,
            |item: ItemView| level <= item.level <= settings.levels,
        ),
    decreases tree,
{
    let item = item_in(tree, level);
    let within = |item: ItemView| level <= item.level <= settings.levels;
    if is_met(settings, tree) && descends(settings, item) {
        let below = course_among(settings, tree.children, level + 1);
        lemma_reached_among_levels(settings, tree.children, level + 1);
        assert(every(below.items, within));
        lemma_every_of_both(Course::only(item), below, within);
        lemma_every_of_both(Course::only(item).followed_by(below), breaking_off(tree), within);
    }
}

/// With a depth limit, the entries reached in `trees` from a level within
/// the limit lie between that level and the limit.
proof fn lemma_reached_among_levels(settings: Settings, trees: Seq<Tree>, level: nat)
    requires
        settings.levels > 0,
        level <= settings.levels,
    ensures
        every(
            course_among(settings, trees, level).items,
            |item: ItemView| level <= item.level <= settings.levels,
        ),
    decreases trees,
{
    let within = |item: ItemView| level <= item.level <= settings.levels;
    if trees.len() > 0 {
        lemma_reached_levels(settings, trees[0], level);
        lemma_reached_among_levels(settings, trees.drop_first(), level);
        lemma_every_of_both(
            course(settings, trees[0], level),
            course_among(settings, trees.drop_first(), level),
            within,
        );
    }
}

/// The depth limit. With a limit of `levels` above 0, an exploration from
/// the root reaches no entry below that level. An entry at the limit is
/// still reached, and written if it is shown, but nothing that it holds
/// is, and it is not even read.
pub proof fn law_depth_limit(settings: Settings, tree: Tree, at_limit: Tree)
    requires
        settings.levels > 0,
    ensures
        every(reached(settings, tree, 0), |item: ItemView| item.level <= settings.levels),
        is_met(settings, at_limit) ==> course(settings, at_limit, settings.levels as nat)
            == Course::only(item_in(at_limit, settings.levels as nat)),
        is_met(settings, at_limit) ==> output(settings, at_limit, settings.levels as nat) == lines(
            settings,
            seq![item_in(at_limit, settings.levels as nat)],
        ),
        lines(settings, seq![item_in(at_limit, settings.levels as nat)]) == if shown(
            settings,
            item_in(at_limit, settings.levels as nat),
        ) {
            seq![line_of(settings, item_in(at_limit, settings.levels as nat))]
        } else {
            Seq::<Seq<char>>::empty()
        },
{
    lemma_reached_levels(settings, tree, 0);
    lemma_lines_of_one(settings, item_in(at_limit, settings.levels as nat));
}

/// The explorations of trees in which nothing fails do not fail.
proof fn lemma_intact_do_not_fail(settings: Settings, trees: Seq<Tree>, level: nat)
    requires
        forall|i: int| 0 <= i < trees.len() ==> intact(#[trigger] trees[i]),
    ensures
        course_among(settings, trees, level).failure is None,
    decreases trees,
{
    if trees.len() > 0 {
        law_nothing_fails_in_an_intact_tree(settings, trees[0], level);
        lemma_intact_do_not_fail(settings, trees.drop_first(), level);
    }
}

/// The exploration of a tree in which nothing fails does not fail.
pub proof fn law_nothing_fails_in_an_intact_tree(
    settings: Settings,
    tree: Tree,
    level: nat,
)
    requires
        intact(tree),
    ensures
        course(settings, tree, level).failure is None,
    decreases tree,
{
    if is_met(settings, tree) && descends(settings, item_in(tree, level)) {
        lemma_intact_do_not_fail(settings, tree.children, level + 1);
    }
}

/// In a tree in which nothing fails, every entry within reach is reached,
/// once and in its place: the root unless it is left out, and after it,
/// where it is a directory within the depth limit, what is reached in each
/// of the trees that it holds, in their order and one level further down.
pub proof fn law_an_intact_tree_is_reached_throughout(settings: Settings, tree: Tree, level: nat)
    requires
        intact(tree),
    ensures
        reached(settings, tree, level) == if left_out(settings, name_in(tree)) {
            Seq::<ItemView>::empty()
        } else if descends(settings, item_in(tree, level)) {
            seq![item_in(tree, level)] + reached_among(settings, tree.children, level + 1)
        } else {
            seq![item_in(tree, level)]
        },
        forall|i: int|
            0 <= i < tree.children.len() ==> #[trigger] reached_among(
                settings,
                tree.children.skip(i),
                level + 1,
            ) == reached(settings, tree.children[i], level + 1) + reached_among(
                settings,
                tree.children.skip(i + 1),
                level + 1,
            ),
        reached_among(settings, tree.children.skip(tree.children.len() as int), level + 1)
            == Seq::<ItemView>::empty(),
{
    let children = tree.children;
    if is_met(settings, tree) && descends(settings, item_in(tree, level)) {
        lemma_intact_do_not_fail(settings, children, level + 1);
    }
    assert forall|i: int| 0 <= i < children.len() implies #[trigger] reached_among(
        settings,
        children.skip(i),
        level + 1,
    ) == reached(settings, children[i], level + 1) + reached_among(
        settings,
        children.skip(i + 1),
        level + 1,
    ) by {
        assert(children.skip(i).drop_first() == children.skip(i + 1));
        law_nothing_fails_in_an_intact_tree(settings, children[i], level + 1);
    }
}

} // verus!
