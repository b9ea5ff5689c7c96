//! Walking a directory tree that is held in memory.

use vstd::prelude::*;
use crate::branch::lemma_bar_at_level;
use crate::branch::marker_column;
use crate::branch::BranchState;
use crate::branch::MAX_DEPTH;
use crate::children::as_ints;
use crate::config::TraversalConfig;
use crate::config::NO_LIMIT;
use crate::entry::Entry;
use crate::render::event_of;
use crate::render::render_event;
use crate::render::views_of;
use crate::render::RenderEvent;
use crate::render::RenderEventView;

verus! {

/// An entry with what was found below it.
#[derive(Debug)]
pub struct Node {
    pub entry: Entry,
    /// The listing of a directory, or nothing where it could not be read.
    pub children: Option<Vec<Node>>,
}

/// The entries of a row of nodes.
pub open spec fn entries_of(nodes: Seq<Node>) -> Seq<Entry> {
    nodes.map_values(|n: Node| n.entry)
}

impl TraversalConfig {
    /// The events of a walk of `node`, where `bars` tells of each directory
    /// above it whether it has entries still to come: first the event of the
    /// node itself, then, if it is opened and its listing was read, the events
    /// of the entries that are shown, each with all that is below it, in
    /// visiting order.
    pub open spec fn events_of(self, node: Node, bars: Seq<bool>) -> Seq<RenderEventView>
        decreases node, 0nat,
    {
        let own = seq![event_of(node.entry, bars.len() as int, bars)];
        match node.children {
            Some(children) if self.opens(node.entry, bars.len() as int) => own
                + self.events_below(
                children@,
                self.visiting_order(entries_of(children@)),
                0,
                bars,
            ),
            _ => own,
        }
    }

    /// The events of the children at the positions `order[from..]`, each with
    /// all that is below it. While a child is walked, its parent has entries
    /// still to come unless the child is the last in `order`.
    pub open spec fn events_below(
        self,
        children: Seq<Node>,
        order: Seq<int>,
        from: int,
        bars: Seq<bool>,
    ) -> Seq<RenderEventView>
        decreases children, order.len() - from,
    {
        if 0 <= from < order.len() {
            let rest = self.events_below(children, order, from + 1, bars);
            if 0 <= order[from] < children.len() {
                self.events_of(children[order[from]], bars.push(from + 1 < order.len())) + rest
            } else {
                rest
            }
        } else {
            Seq::empty()
        }
    }
}

impl TraversalConfig {
    /// Whether no event of `events` lies deeper than the depth limit allows
    /// below `depth`, or above `depth`.
    pub open spec fn within_limit(self, events: Seq<RenderEventView>, depth: int) -> bool {
        forall|i: int|
            0 <= i < events.len() ==> depth <= (#[trigger] events[i]).depth && (self.max_depth
                != NO_LIMIT ==> events[i].depth <= depth || events[i].depth <= self.max_depth)
    }

    /// A walk starts with the node itself, goes on with what lies deeper, and
    /// never goes below the depth limit: no event is deeper than the limit,
    /// unless the walk starts below it, and then it has one event only. A
    /// directory at the limit is shown and not opened.
    pub proof fn lemma_depth_limit(self, node: Node, bars: Seq<bool>)
        ensures
            self.events_of(node, bars).len() >= 1,
            self.events_of(node, bars)[0] == event_of(node.entry, bars.len() as int, bars),
            forall|i: int|
                1 <= i < self.events_of(node, bars).len() ==> (#[trigger] self.events_of(
                    node,
                    bars,
                )[i]).depth > bars.len(),
            self.within_limit(self.events_of(node, bars), bars.len() as int),
            self.limit_reached(bars.len() as int) ==> self.events_of(node, bars).len() == 1,
        decreases node, 0nat,
    {
        match node.children {
            Some(children) if self.opens(node.entry, bars.len() as int) => {
                self.lemma_depth_limit_below(
                    children@,
                    self.visiting_order(entries_of(children@)),
                    0,
                    bars,
                );
            },
            _ => {},
        }
    }

    /// With a depth limit of 0 or more, no event of a walk from the root lies
    /// deeper than the limit.
    pub proof fn lemma_walk_within_limit(self, root: Node, i: int)
        requires
            self.max_depth >= 0,
            0 <= i < self.events_of(root, Seq::empty()).len(),
        ensures
            0 <= self.events_of(root, Seq::empty())[i].depth <= self.max_depth,
    {
        self.lemma_depth_limit(root, Seq::empty());
    }

    proof fn lemma_depth_limit_below(
        self,
        children: Seq<Node>,
        order: Seq<int>,
        from: int,
        bars: Seq<bool>,
    )
        requires
            !self.limit_reached(bars.len() as int),
        ensures
            self.within_limit(
                self.events_below(children, order, from, bars),
                bars.len() as int + 1,
            ),
        decreases children, order.len() - from,
    {
        if 0 <= from < order.len() {
            self.lemma_depth_limit_below(children, order, from + 1, bars);
            if 0 <= order[from] < children.len() {
                self.lemma_depth_limit(children[order[from]], bars.push(from + 1 < order.len()));
            }
        }
    }

    /// The test for the events at `depth`.
    pub open spec fn lies_at(depth: int) -> spec_fn(RenderEventView) -> bool {
        |event: RenderEventView| event.depth == depth
    }

    /// The events of the children at the positions in `order`, without what
    /// is below them.
    pub open spec fn own_events(children: Seq<Node>, order: Seq<int>, bars: Seq<bool>) -> Seq<
        RenderEventView,
    > {
        Seq::new(
            order.len(),
            |k: int|
                event_of(
                    children[order[k]].entry,
                    bars.len() as int + 1,
                    bars.push(k + 1 < order.len()),
                ),
        )
    }

    /// In a walk of a node, the node itself is the only event at its depth.
    proof fn lemma_own_event(self, node: Node, bars: Seq<bool>)
        ensures
            self.events_of(node, bars).filter(Self::lies_at(bars.len() as int)) == seq![
                event_of(node.entry, bars.len() as int, bars),
            ],
    {
        let test = Self::lies_at(bars.len() as int);
        let all = self.events_of(node, bars);
        let own = seq![event_of(node.entry, bars.len() as int, bars)];
        let deeper = all.skip(1);
        self.lemma_depth_limit(node, bars);
        assert(all =~= own + deeper);
        assert(deeper.filter(test) == Seq::<RenderEventView>::empty()) by {
            assert forall|i: int| 0 <= i < deeper.len() implies !test(#[trigger] deeper[i]) by {
                assert(deeper[i] == all[i + 1]);
            }
            lemma_filter_none(deeper, test);
        }
        assert(own.filter(test) == own) by {
            lemma_filter_none(Seq::<RenderEventView>::empty(), test);
            Seq::<RenderEventView>::empty().lemma_filter_push(own[0], test);
            assert(own =~= Seq::<RenderEventView>::empty().push(own[0]));
        }
        Seq::filter_distributes_over_add(own, deeper, test);
        assert(own + Seq::<RenderEventView>::empty() =~= own);
    }

    proof fn lemma_own_events(
        self,
        children: Seq<Node>,
        order: Seq<int>,
        from: int,
        bars: Seq<bool>,
    )
        requires
            0 <= from <= order.len(),
            forall|k: int| 0 <= k < order.len() ==> 0 <= #[trigger] order[k] < children.len(),
        ensures
            self.events_below(children, order, from, bars).filter(
                Self::lies_at(bars.len() as int + 1),
            ) == Self::own_events(children, order, bars).skip(from),
        decreases order.len() - from,
    {
        let test = Self::lies_at(bars.len() as int + 1);
        let all = self.events_below(children, order, from, bars);
        let own = Self::own_events(children, order, bars);
        if from < order.len() {
            let inner = bars.push(from + 1 < order.len());
            let child = children[order[from]];
            let first = self.events_of(child, inner);
            let rest = self.events_below(children, order, from + 1, bars);
            self.lemma_own_events(children, order, from + 1, bars);
            self.lemma_own_event(child, inner);
            Seq::filter_distributes_over_add(first, rest, test);
            assert(all == first + rest);
            assert(own[from] == event_of(child.entry, bars.len() as int + 1, inner));
            assert(own.skip(from) =~= seq![own[from]] + own.skip(from + 1));
        } else {
            lemma_filter_none(all, test);
            assert(own.skip(from) =~= Seq::<RenderEventView>::empty());
        }
    }

    /// Of a directory that is opened, the walk shows one level down exactly
    /// the entries that the filter keeps, each once and in visiting order: as
    /// many as the listing holds, less those that the filter leaves out.
    pub proof fn lemma_children_shown(self, node: Node, bars: Seq<bool>)
        requires
            self.opens(node.entry, bars.len() as int),
            node.children is Some,
        ensures
            ({
                let children = node.children->0@;
                let order = self.visiting_order(entries_of(children));
                let shown = self.events_of(node, bars).filter(
                    Self::lies_at(bars.len() as int + 1),
                );
                &&& shown == Self::own_events(children, order, bars)
                &&& shown.len() == order.len()
                &&& shown.len() == children.len() - entries_of(children).filter(
                    self.left_out(),
                ).len()
            }),
    {
        let children = node.children->0@;
        let entries = entries_of(children);
        let order = self.visiting_order(entries);
        let test = Self::lies_at(bars.len() as int + 1);
        let own = seq![event_of(node.entry, bars.len() as int, bars)];
        let below = self.events_below(children, order, 0, bars);
        self.lemma_visiting_order_members(entries);
        self.lemma_shown_count(entries);
        self.lemma_own_events(children, order, 0, bars);
        assert(own.filter(test) == Seq::<RenderEventView>::empty()) by {
            lemma_filter_none(own, test);
        }
        Seq::filter_distributes_over_add(own, below, test);
        assert(Seq::<RenderEventView>::empty() + below.filter(test) =~= below.filter(test));
        assert(Self::own_events(children, order, bars).skip(0) =~= Self::own_events(
            children,
            order,
            bars,
        ));
    }

    /// Whether every event of `events` that has the marker column of `level`
    /// among its guide columns draws a bar there if and only if `bar` is set.
    pub open spec fn carries(self, events: Seq<RenderEventView>, level: int, bar: bool) -> bool {
        forall|i: int|
            0 <= i < events.len() && marker_column(level) < (
            #[trigger] events[i]).guide_columns.len() ==> events[i].guide_columns[marker_column(
                level,
            )] == bar
    }

    /// Throughout a walk, the marker column of each directory above carries a
    /// bar exactly while that directory has entries still to come: below its
    /// last entry no line has a bar there, and below every other entry each
    /// line has one.
    pub proof fn lemma_guide_bars(self, node: Node, bars: Seq<bool>, level: int)
        requires
            0 <= level < bars.len(),
        ensures
            self.carries(self.events_of(node, bars), level, bars[level]),
        decreases node, 0nat,
    {
        lemma_bar_at_level(bars, level);
        match node.children {
            Some(children) if self.opens(node.entry, bars.len() as int) => {
                self.lemma_guide_bars_below(
                    children@,
                    self.visiting_order(entries_of(children@)),
                    0,
                    bars,
                    level,
                );
            },
            _ => {},
        }
    }

    proof fn lemma_guide_bars_below(
        self,
        children: Seq<Node>,
        order: Seq<int>,
        from: int,
        bars: Seq<bool>,
        level: int,
    )
        requires
            0 <= level < bars.len(),
        ensures
            self.carries(self.events_below(children, order, from, bars), level, bars[level]),
        decreases children, order.len() - from,
    {
        if 0 <= from < order.len() {
            self.lemma_guide_bars_below(children, order, from + 1, bars, level);
            if 0 <= order[from] < children.len() {
                self.lemma_guide_bars(
                    children[order[from]],
                    bars.push(from + 1 < order.len()),
                    level,
                );
            }
        }
    }
}

/// A row of events none of which passes a test is empty once filtered.
proof fn lemma_filter_none(events: Seq<RenderEventView>, test: spec_fn(RenderEventView) -> bool)
    requires
        forall|i: int| 0 <= i < events.len() ==> !test(#[trigger] events[i]),
    ensures
        events.filter(test) == Seq::<RenderEventView>::empty(),
    decreases events.len(),
{
    reveal(Seq::filter);
    if events.len() > 0 {
        lemma_filter_none(events.drop_last(), test);
    }
}

/// The entries of a row of nodes.
pub fn entries_in(nodes: &Vec<Node>) -> (entries: Vec<Entry>)
    ensures
        entries@ == entries_of(nodes@),
{
    let mut entries: Vec<Entry> = Vec::new();
    let mut i: usize = 0;
    while i < nodes.len()
        invariant
            i <= nodes.len(),
            entries@ == entries_of(nodes@.take(i as int)),
        decreases nodes.len() - i,
    {
        entries.push(nodes[i].entry.duplicate());
        i += 1;
    }
    entries
}

impl TraversalConfig {
    /// Walks `node` and all that is shown below it, and adds the events to
    /// `out`, each entry before its children. `state` holds the directories
    /// above `node`; it is handed back as it came.
    pub fn visit(&self, node: &Node, state: &mut BranchState, out: &mut Vec<RenderEvent>)
        requires
            old(state).wf(),
        ensures
            final(state)@ == old(state)@,
            views_of(final(out)@) == views_of(old(out)@) + self.events_of(*node, old(state)@),
        decreases node,
    {
        let ghost bars = state@;
        let event = render_event(&node.entry, state);
        out.push(event);
        if !self.should_open(&node.entry, state.depth()) {
            return;
        }
        match &node.children {
            None => {},
            Some(children) => {
                let entries = entries_in(children);
                let order = self.children_order(&entries);
                let ghost own = views_of(out@);
                state.enter();
                let mut i: usize = 0;
                while i < order.len()
                    invariant
                        i <= order.len(),
                        node.children == Some(*children),
                        as_ints(order@) == self.visiting_order(entries_of(children@)),
                        forall|k: int| 0 <= k < order.len() ==> order@[k] < children.len(),
                        state@.len() == bars.len() + 1,
                        state@.drop_last() == bars,
                        bars.len() < MAX_DEPTH,
                        views_of(out@) + self.events_below(
                            children@,
                            as_ints(order@),
                            i as int,
                            bars,
                        ) == own + self.events_below(children@, as_ints(order@), 0, bars),
                    decreases order.len() - i,
                {
                    state.dispatch(i + 1 < order.len());
                    assert(state@ =~= bars.push(i + 1 < order.len()));
                    let child = &children[order[i]];
                    assert(decreases_to!(*node => *child)) by {
                        assert(decreases_to!(node.children->0 => node.children->0@));
                    }
                    self.visit(child, state, out);
                    proof {
                        let below = self.events_of(*child, bars.push(i + 1 < order.len()));
                        let rest = self.events_below(children@, as_ints(order@), i + 1, bars);
                        assert(self.events_below(children@, as_ints(order@), i as int, bars)
                            == below + rest);
                    }
                    i += 1;
                }
                state.leave();
            },
        }
    }

    /// The events of a walk of the tree below `root`, in the order in which
    /// they are to be drawn.
    pub fn walk(&self, root: &Node) -> (events: Vec<RenderEvent>)
        ensures
            views_of(events@) == self.events_of(*root, Seq::empty()),
    {
        let mut state = BranchState::new();
        let mut events: Vec<RenderEvent> = Vec::new();
        self.visit(root, &mut state, &mut events);
        events
    }
}

} // verus!
