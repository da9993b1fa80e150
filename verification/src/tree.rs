//! What walks over a tree of directories come to.

use vstd::prelude::*;

verus! {

/// An entry of the file system: its path, whether it is a directory, whether its
/// entries can be listed, and what they are.
pub struct Node {
    pub path: Seq<u8>,
    pub is_dir: bool,
    pub is_listable: bool,
    pub entries: Seq<Node>,
}

impl Node {
    /// The entries, where they can be listed.
    pub open spec fn listed(self) -> Seq<Node> {
        if self.is_listable {
            self.entries
        } else {
            Seq::empty()
        }
    }
}

/// The directories among `nodes` that are not passed over.
pub open spec fn children(ignored: crate::ignore::IgnoredView, nodes: Seq<Node>) -> Seq<Seq<u8>>
    decreases nodes.len(),
{
    if nodes.len() == 0 {
        Seq::empty()
    } else if ignored.enters(nodes[0].is_dir, nodes[0].path) {
        seq![nodes[0].path] + children(ignored, nodes.drop_first())
    } else {
        children(ignored, nodes.drop_first())
    }
}

/// The directory `node` and the directories below that are not passed over and
/// lie in no directory that is: each one before those in it. With `opened`, only
/// those that can be listed.
pub open spec fn reached(
    ignored: crate::ignore::IgnoredView,
    node: Node,
    opened: bool,
) -> Seq<Seq<u8>>
    decreases node,
{
    if node.is_listable {
        seq![node.path] + all_reached(ignored, node.entries, opened)
    } else if opened {
        Seq::empty()
    } else {
        seq![node.path]
    }
}

/// The directories reached from those among `nodes` that are not passed over.
pub open spec fn all_reached(
    ignored: crate::ignore::IgnoredView,
    nodes: Seq<Node>,
    opened: bool,
) -> Seq<Seq<u8>>
    decreases nodes,
{
    if nodes.len() == 0 {
        Seq::empty()
    } else if ignored.enters(nodes[0].is_dir, nodes[0].path) {
        reached(ignored, nodes[0], opened) + all_reached(ignored, nodes.drop_first(), opened)
    } else {
        all_reached(ignored, nodes.drop_first(), opened)
    }
}

/// The directories reached below those among `nodes` that are not passed over,
/// without these.
pub open spec fn deeper(ignored: crate::ignore::IgnoredView, nodes: Seq<Node>) -> Seq<Seq<u8>>
    decreases nodes.len(),
{
    if nodes.len() == 0 {
        Seq::empty()
    } else if ignored.enters(nodes[0].is_dir, nodes[0].path) {
        all_reached(ignored, nodes[0].listed(), false) + deeper(ignored, nodes.drop_first())
    } else {
        deeper(ignored, nodes.drop_first())
    }
}

/// What is left of `nodes` from the first directory on that is not passed over.
pub open spec fn from_next(ignored: crate::ignore::IgnoredView, nodes: Seq<Node>) -> Seq<Node>
    decreases nodes.len(),
{
    if nodes.len() == 0 || ignored.enters(nodes[0].is_dir, nodes[0].path) {
        nodes
    } else {
        from_next(ignored, nodes.drop_first())
    }
}

/// Where in a tree a walk is: the directory that it is opening, and what it has
/// not looked at yet of the open ones, from the outermost to the innermost.
pub struct Place {
    pub opening: Option<Node>,
    pub unseen: Seq<Seq<Node>>,
}

impl Place {
    /// Before `root`.
    pub open spec fn start(root: Node) -> Place {
        Place { opening: Some(root), unseen: Seq::empty() }
    }

    /// Whether `event` can come of the tree: a directory opens where it can be
    /// listed; what is found is the next one that is not passed over, and there
    /// is no further entry when none is left. An entry that changed may turn up
    /// in between.
    pub open spec fn allows(
        self,
        ignored: crate::ignore::IgnoredView,
        event: crate::walk::EventView,
    ) -> bool {
        match event {
            crate::walk::EventView::Opened => self.opening matches Some(node) && node.is_listable,
            crate::walk::EventView::NotOpened(_) => self.opening matches Some(node)
                && !node.is_listable,
            crate::walk::EventView::Found(Ok(path)) => {
                &&& self.unseen.len() > 0
                &&& from_next(ignored, self.unseen.last()).len() > 0
                &&& path == from_next(ignored, self.unseen.last())[0].path
            },
            crate::walk::EventView::Found(Err(error)) => error is ModifiedEntry,
            crate::walk::EventView::Exhausted => {
                &&& self.unseen.len() > 0
                &&& from_next(ignored, self.unseen.last()).len() == 0
            },
            crate::walk::EventView::Settled(_) | crate::walk::EventView::Idle => true,
        }
    }

    /// One event later, for a walk that goes down the tree or one that does not.
    pub open spec fn moved(
        self,
        ignored: crate::ignore::IgnoredView,
        recursive: bool,
        event: crate::walk::EventView,
    ) -> Place {
        match event {
            crate::walk::EventView::Opened => Place {
                opening: None,
                unseen: self.unseen.push(self.opening->0.entries),
            },
            crate::walk::EventView::NotOpened(_) => Place { opening: None, ..self },
            crate::walk::EventView::Found(Ok(_)) => {
                let left = from_next(ignored, self.unseen.last());
                Place {
                    opening: if recursive {
                        Some(left[0])
                    } else {
                        None
                    },
                    unseen: self.unseen.drop_last().push(left.drop_first()),
                }
            },
            crate::walk::EventView::Exhausted => Place {
                unseen: self.unseen.drop_last(),
                ..self
            },
            _ => self,
        }
    }

    /// The directories that are still to be reached.
    pub open spec fn left(
        self,
        ignored: crate::ignore::IgnoredView,
        opened: bool,
    ) -> Seq<Seq<u8>> {
        match self.opening {
            Some(node) => reached(ignored, node, opened) + left_in(ignored, self.unseen, opened),
            None => left_in(ignored, self.unseen, opened),
        }
    }
}

/// The directories that are still to be reached in the open ones.
pub open spec fn left_in(
    ignored: crate::ignore::IgnoredView,
    unseen: Seq<Seq<Node>>,
    opened: bool,
) -> Seq<Seq<u8>>
    decreases unseen.len(),
{
    if unseen.len() == 0 {
        Seq::empty()
    } else {
        all_reached(ignored, unseen.last(), opened) + left_in(ignored, unseen.drop_last(), opened)
    }
}

/// Where in the tree below `root` a walk is after `events`.
pub open spec fn place_after(
    ignored: crate::ignore::IgnoredView,
    root: Node,
    recursive: bool,
    events: Seq<crate::walk::EventView>,
) -> Place
    decreases events.len(),
{
    if events.len() == 0 {
        Place::start(root)
    } else {
        place_after(ignored, root, recursive, events.drop_last()).moved(
            ignored,
            recursive,
            events.last(),
        )
    }
}

/// Whether `events` can come of the tree below `root`.
pub open spec fn comes_of(
    ignored: crate::ignore::IgnoredView,
    root: Node,
    recursive: bool,
    events: Seq<crate::walk::EventView>,
) -> bool
    decreases events.len(),
{
    events.len() == 0 || (comes_of(ignored, root, recursive, events.drop_last()) && place_after(
        ignored,
        root,
        recursive,
        events.drop_last(),
    ).allows(ignored, events.last()))
}

/// Passing over the first entries loses nothing.
proof fn nothing_is_lost(ignored: crate::ignore::IgnoredView, nodes: Seq<Node>, opened: bool)
    ensures
        all_reached(ignored, from_next(ignored, nodes), opened) == all_reached(
            ignored,
            nodes,
            opened,
        ),
        children(ignored, from_next(ignored, nodes)) == children(ignored, nodes),
        from_next(ignored, nodes).len() > 0 ==> ignored.enters(
            from_next(ignored, nodes)[0].is_dir,
            from_next(ignored, nodes)[0].path,
        ),
    decreases nodes.len(),
{
    if nodes.len() > 0 {
        nothing_is_lost(ignored, nodes.drop_first(), opened);
    }
}

/// A walk down a tree tries to open the directories that are not passed over,
/// each one before those in it. One that is over has tried all of them, and has
/// started the command in those that can be listed.
pub proof fn deep_walk_reaches_all(
    ignored: crate::ignore::IgnoredView,
    root: Node,
    jobs: nat,
    events: Seq<crate::walk::EventView>,
    opened: bool,
)
    requires
        crate::walk::is_run(crate::walk::WalkView::start(root.path, true, jobs), events),
        comes_of(ignored, root, true, events),
    ensures
        crate::walk::tried(
            crate::walk::WalkView::start(root.path, true, jobs),
            events,
            opened,
        ) + place_after(ignored, root, true, events).left(ignored, opened) == reached(
            ignored,
            root,
            opened,
        ),
        crate::walk::walk_after(
            crate::walk::WalkView::start(root.path, true, jobs),
            events,
        ).phase is Done ==> crate::walk::tried(
            crate::walk::WalkView::start(root.path, true, jobs),
            events,
            opened,
        ) == reached(ignored, root, opened),
        opened && crate::walk::walk_after(
            crate::walk::WalkView::start(root.path, true, jobs),
            events,
        ).phase is Done ==> crate::walk::started(
            crate::walk::WalkView::start(root.path, true, jobs),
            events,
        ) == reached(ignored, root, true),
{
    let walk = crate::walk::WalkView::start(root.path, true, jobs);
    deep_walk_keeps_its_place(ignored, root, jobs, events, opened);
    crate::walk::walk_stays_well_formed(walk, events);
    crate::walk::command_runs_where_opened(root.path, jobs, events);
    crate::walk::tried_are_opened_or_reported(walk, events);
    if crate::walk::walk_after(walk, events).phase is Done {
        let tried = crate::walk::tried(walk, events, opened);
        assert(tried + Seq::<Seq<u8>>::empty() == tried);
    }
}

/// A walk down the tree is opening what its place says, and has as many
/// directories open.
proof fn deep_walk_keeps_its_place(
    ignored: crate::ignore::IgnoredView,
    root: Node,
    jobs: nat,
    events: Seq<crate::walk::EventView>,
    opened: bool,
)
    requires
        crate::walk::is_run(crate::walk::WalkView::start(root.path, true, jobs), events),
        comes_of(ignored, root, true, events),
    ensures
        crate::walk::tried(
            crate::walk::WalkView::start(root.path, true, jobs),
            events,
            opened,
        ) + place_after(ignored, root, true, events).left(ignored, opened) == reached(
            ignored,
            root,
            opened,
        ),
        crate::walk::opening(
            crate::walk::walk_after(crate::walk::WalkView::start(root.path, true, jobs), events),
        ) == match place_after(ignored, root, true, events).opening {
            Some(node) => Some(node.path),
            None => None,
        },
        crate::walk::walk_after(
            crate::walk::WalkView::start(root.path, true, jobs),
            events,
        ).open.len() == place_after(ignored, root, true, events).unseen.len(),
    decreases events.len(),
{
    let walk = crate::walk::WalkView::start(root.path, true, jobs);
    if events.len() == 0 {
        let all = reached(ignored, root, opened);
        assert(all + Seq::<Seq<u8>>::empty() == all);
        assert(Seq::<Seq<u8>>::empty() + all == all);
    } else {
        let before = events.drop_last();
        deep_walk_keeps_its_place(ignored, root, jobs, before, opened);
        crate::walk::walk_stays_well_formed(walk, before);
        let place = place_after(ignored, root, true, before);
        let moved = place_after(ignored, root, true, events);
        let tried = crate::walk::tried(walk, before, opened);
        match events.last() {
            crate::walk::EventView::Opened => {
                let node = place.opening->0;
                let below = all_reached(ignored, node.entries, opened);
                let rest = left_in(ignored, place.unseen, opened);
                assert(moved.unseen.drop_last() == place.unseen);
                assert(tried.push(node.path) + (below + rest) == tried + ((seq![node.path] + below)
                    + rest));
            },
            crate::walk::EventView::NotOpened(_) => {
                let node = place.opening->0;
                let rest = left_in(ignored, place.unseen, opened);
                assert(tried.push(node.path) + rest == tried + (seq![node.path] + rest));
                assert(Seq::<Seq<u8>>::empty() + rest == rest);
            },
            crate::walk::EventView::Found(Ok(_)) => {
                let left = from_next(ignored, place.unseen.last());
                let first = reached(ignored, left[0], opened);
                let others = all_reached(ignored, left.drop_first(), opened);
                let rest = left_in(ignored, place.unseen.drop_last(), opened);
                nothing_is_lost(ignored, place.unseen.last(), opened);
                assert(moved.unseen.drop_last() == place.unseen.drop_last());
                assert((first + others) + rest == first + (others + rest));
            },
            crate::walk::EventView::Exhausted => {
                let rest = left_in(ignored, place.unseen.drop_last(), opened);
                nothing_is_lost(ignored, place.unseen.last(), opened);
                assert(Seq::<Seq<u8>>::empty() + rest == rest);
            },
            _ => {},
        }
    }
}

/// A walk that stays at the first directory, and is over, has started the command
/// in all directories in it that are not passed over, in order; where the first
/// directory cannot be listed, in none.
pub proof fn flat_walk_reaches_children(
    ignored: crate::ignore::IgnoredView,
    root: Node,
    jobs: nat,
    events: Seq<crate::walk::EventView>,
)
    requires
        crate::walk::is_run(crate::walk::WalkView::start(root.path, false, jobs), events),
        comes_of(ignored, root, false, events),
    ensures
        crate::walk::walk_after(
            crate::walk::WalkView::start(root.path, false, jobs),
            events,
        ).phase is Done ==> crate::walk::started(
            crate::walk::WalkView::start(root.path, false, jobs),
            events,
        ) == children(ignored, root.listed()),
{
    flat_walk_keeps_its_place(ignored, root, jobs, events);
    crate::walk::flat_walk_stays_at_root(root.path, jobs, events);
}

/// A walk that stays at the first directory has its entries unseen that it has
/// not found, and tries to open nothing else.
proof fn flat_walk_keeps_its_place(
    ignored: crate::ignore::IgnoredView,
    root: Node,
    jobs: nat,
    events: Seq<crate::walk::EventView>,
)
    requires
        crate::walk::is_run(crate::walk::WalkView::start(root.path, false, jobs), events),
        comes_of(ignored, root, false, events),
    ensures
        match crate::walk::walk_after(
            crate::walk::WalkView::start(root.path, false, jobs),
            events,
        ).phase {
            crate::walk::PhaseView::Root(_) => events.len() == 0,
            crate::walk::PhaseView::Streaming => {
                &&& place_after(ignored, root, false, events).unseen.len() == 1
                &&& crate::walk::found(events) + children(
                    ignored,
                    place_after(ignored, root, false, events).unseen.last(),
                ) == children(ignored, root.listed())
            },
            _ => crate::walk::found(events) == children(ignored, root.listed()),
        },
        events.len() > 0 ==> crate::walk::reported(
            crate::walk::unlisted_reports(
                crate::walk::WalkView::start(root.path, false, jobs),
                events,
            ),
        ) == if root.is_listable {
            Seq::empty()
        } else {
            seq![root.path]
        },
    decreases events.len(),
{
    let walk = crate::walk::WalkView::start(root.path, false, jobs);
    crate::walk::walk_stays_well_formed(walk, events);
    if events.len() > 0 {
        let before = events.drop_last();
        flat_walk_keeps_its_place(ignored, root, jobs, before);
        crate::walk::walk_stays_well_formed(walk, before);
        crate::walk::flat_walk_stays_at_root(root.path, jobs, before);
        let place = place_after(ignored, root, false, before);
        let found = crate::walk::found(before);
        let unlisted = crate::walk::unlisted_reports(walk, events);
        assert(crate::walk::reported(Seq::empty()) == Seq::<Seq<u8>>::empty());
        if before.len() == 0 {
            assert(crate::walk::unlisted_reports(walk, before) == Seq::<
                crate::process::ReportView,
            >::empty());
            assert(crate::walk::walk_after(walk, before) == walk);
            assert(place == Place::start(root));
        }
        match events.last() {
            crate::walk::EventView::Opened => {
                assert(before.len() == 0);
                assert(crate::walk::found(events) + children(ignored, root.entries) == children(
                    ignored,
                    root.entries,
                ));
            },
            crate::walk::EventView::NotOpened(_) => {
                assert(before.len() == 0);
                assert(unlisted.drop_last() == Seq::<crate::process::ReportView>::empty());
                assert(Seq::<Seq<u8>>::empty().push(root.path) == seq![root.path]);
                assert(found == Seq::<Seq<u8>>::empty());
            },
            crate::walk::EventView::Found(Ok(_)) => {
                let left = from_next(ignored, place.unseen.last());
                let others = children(ignored, left.drop_first());
                nothing_is_lost(ignored, place.unseen.last(), false);
                assert(found.push(left[0].path) + others == found + (seq![left[0].path] + others));
            },
            crate::walk::EventView::Exhausted => {
                nothing_is_lost(ignored, place.unseen.last(), false);
                assert(found + Seq::<Seq<u8>>::empty() == found);
            },
            _ => {},
        }
    }
}

/// An entry that changed has no name in the reports.
proof fn changed_entries_have_no_name(
    ignored: crate::ignore::IgnoredView,
    root: Node,
    recursive: bool,
    events: Seq<crate::walk::EventView>,
)
    requires
        comes_of(ignored, root, recursive, events),
    ensures
        crate::walk::reported(crate::walk::failed(events)) == Seq::<Seq<u8>>::empty(),
    decreases events.len(),
{
    if events.len() > 0 {
        let before = events.drop_last();
        changed_entries_have_no_name(ignored, root, recursive, before);
        if let crate::walk::EventView::Found(Err(error)) = events.last() {
            assert(crate::walk::failed(before).push(Err(error)).drop_last() == crate::walk::failed(
                before,
            ));
        }
    }
}

/// What is reached from some entries is the directories among them and what is
/// deeper.
proof fn reached_are_children_and_deeper(ignored: crate::ignore::IgnoredView, nodes: Seq<Node>)
    ensures
        all_reached(ignored, nodes, false).to_multiset() == children(
            ignored,
            nodes,
        ).to_multiset().add(deeper(ignored, nodes).to_multiset()),
        children(ignored, nodes).len() == 0 ==> all_reached(ignored, nodes, false).len() == 0,
    decreases nodes.len(),
{
    broadcast use vstd::seq_lib::group_to_multiset_ensures;

    if nodes.len() == 0 {
        let none = Seq::<Seq<u8>>::empty().to_multiset();
        assert(none =~= none.add(none));
    } else {
        let rest = nodes.drop_first();
        reached_are_children_and_deeper(ignored, rest);
        if ignored.enters(nodes[0].is_dir, nodes[0].path) {
            let first = seq![nodes[0].path];
            let below = all_reached(ignored, nodes[0].listed(), false);
            assert(reached(ignored, nodes[0], false) == first + below);
            vstd::seq_lib::lemma_multiset_commutative(
                reached(ignored, nodes[0], false),
                all_reached(ignored, rest, false),
            );
            vstd::seq_lib::lemma_multiset_commutative(first, below);
            vstd::seq_lib::lemma_multiset_commutative(first, children(ignored, rest));
            vstd::seq_lib::lemma_multiset_commutative(below, deeper(ignored, rest));
            assert(all_reached(ignored, nodes, false).to_multiset() =~= children(
                ignored,
                nodes,
            ).to_multiset().add(deeper(ignored, nodes).to_multiset()));
        }
    }
}

/// What a walk over a tree that is over reports on: down the tree, every
/// directory that is reached; otherwise the directories in the first one that are
/// not passed over, or that one where it cannot be listed.
proof fn finished_walks_report(
    ignored: crate::ignore::IgnoredView,
    root: Node,
    recursive: bool,
    jobs: nat,
    events: Seq<crate::walk::EventView>,
)
    requires
        crate::walk::is_run(crate::walk::WalkView::start(root.path, recursive, jobs), events),
        crate::walk::walk_after(
            crate::walk::WalkView::start(root.path, recursive, jobs),
            events,
        ).phase is Done,
        crate::walk::commands_report(
            crate::walk::WalkView::start(root.path, recursive, jobs),
            events,
        ),
        comes_of(ignored, root, recursive, events),
    ensures
        crate::walk::reported(
            crate::walk::delivered(
                crate::walk::WalkView::start(root.path, recursive, jobs),
                events,
            ),
        ).to_multiset() == if recursive {
            reached(ignored, root, false).to_multiset()
        } else if root.is_listable {
            children(ignored, root.entries).to_multiset()
        } else {
            vstd::multiset::Multiset::singleton(root.path)
        },
{
    broadcast use vstd::seq_lib::group_to_multiset_ensures;

    let walk = crate::walk::WalkView::start(root.path, recursive, jobs);
    crate::walk::commands_report_once(root.path, recursive, jobs, events);
    crate::walk::reported_are_of_three_kinds(walk, events);
    changed_entries_have_no_name(ignored, root, recursive, events);
    let reports = crate::walk::reported(crate::walk::delivered(walk, events)).to_multiset();
    let started = crate::walk::started(walk, events).to_multiset();
    let unlisted = crate::walk::reported(crate::walk::unlisted_reports(walk, events)).to_multiset();
    assert(reports =~= started.add(unlisted));
    if recursive {
        crate::walk::tried_are_opened_or_reported(walk, events);
        crate::walk::command_runs_where_opened(root.path, jobs, events);
        deep_walk_reaches_all(ignored, root, jobs, events, false);
    } else {
        flat_walk_reaches_children(ignored, root, jobs, events);
        flat_walk_keeps_its_place(ignored, root, jobs, events);
        assert(Seq::<Seq<u8>>::empty().push(root.path) == seq![root.path]);
        if root.is_listable {
            assert(reports =~= children(ignored, root.entries).to_multiset());
        } else {
            assert(reports =~= vstd::multiset::Multiset::singleton(root.path));
        }
    }
}

/// Two walks over one tree. Where the first directory can be listed, the one that
/// stays there reports on the directories in it that are not passed over; the one
/// that goes down the tree reports on all of these, once on the first directory,
/// as it was named, and besides only on deeper ones. Where there is no directory
/// to enter, the one reports on nothing, and the other on the first directory
/// alone. Where the first directory cannot be listed, both report on it alone.
pub proof fn deep_walk_adds_root_and_deeper(
    ignored: crate::ignore::IgnoredView,
    root: Node,
    jobs: nat,
    flat: Seq<crate::walk::EventView>,
    deep: Seq<crate::walk::EventView>,
)
    requires
        crate::walk::is_run(crate::walk::WalkView::start(root.path, false, jobs), flat),
        crate::walk::walk_after(
            crate::walk::WalkView::start(root.path, false, jobs),
            flat,
        ).phase is Done,
        crate::walk::commands_report(crate::walk::WalkView::start(root.path, false, jobs), flat),
        comes_of(ignored, root, false, flat),
        crate::walk::is_run(crate::walk::WalkView::start(root.path, true, jobs), deep),
        crate::walk::walk_after(
            crate::walk::WalkView::start(root.path, true, jobs),
            deep,
        ).phase is Done,
        crate::walk::commands_report(crate::walk::WalkView::start(root.path, true, jobs), deep),
        comes_of(ignored, root, true, deep),
    ensures
        ({
            let shallow = crate::walk::reported(
                crate::walk::delivered(
                    crate::walk::WalkView::start(root.path, false, jobs),
                    flat,
                ),
            ).to_multiset();
            let whole = crate::walk::reported(
                crate::walk::delivered(crate::walk::WalkView::start(root.path, true, jobs), deep),
            ).to_multiset();
            let alone = vstd::multiset::Multiset::singleton(root.path);
            if root.is_listable {
                &&& shallow == children(ignored, root.entries).to_multiset()
                &&& whole == shallow.insert(root.path).add(
                    deeper(ignored, root.entries).to_multiset(),
                )
                &&& !all_reached(ignored, root.entries, false).contains(root.path)
                    ==> !shallow.contains(root.path) && whole.count(root.path) == 1
                &&& children(ignored, root.entries).len() == 0 ==> shallow.len() == 0 && whole
                    == alone
            } else {
                shallow == alone && whole == alone
            }
        }),
{
    broadcast use vstd::seq_lib::group_to_multiset_ensures;

    finished_walks_report(ignored, root, false, jobs, flat);
    finished_walks_report(ignored, root, true, jobs, deep);
    reached_are_children_and_deeper(ignored, root.entries);
    let alone = vstd::multiset::Multiset::singleton(root.path);
    let whole = reached(ignored, root, false).to_multiset();
    assert(Seq::<Seq<u8>>::empty().push(root.path) == seq![root.path]);
    assert(seq![root.path].to_multiset() =~= alone);
    if root.is_listable {
        let below = all_reached(ignored, root.entries, false);
        vstd::seq_lib::lemma_multiset_commutative(seq![root.path], below);
        assert(whole =~= children(ignored, root.entries).to_multiset().insert(root.path).add(
            deeper(ignored, root.entries).to_multiset(),
        ));
        if !below.contains(root.path) {
            assert(below.to_multiset().count(root.path) == 0);
            assert(children(ignored, root.entries).to_multiset().count(root.path) == 0);
            assert(whole.count(root.path) == 1);
        }
        if children(ignored, root.entries).len() == 0 {
            assert(children(ignored, root.entries).to_multiset().len() == 0);
            assert(below.to_multiset().len() == 0);
            vstd::multiset::lemma_multiset_empty_len(below.to_multiset());
            assert(whole =~= alone);
        }
    }
}

} // verus!
