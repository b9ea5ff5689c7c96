//! The visitor, fed from a tree held in memory, shows what a walk of that
//! tree shows.

use vstd::prelude::*;
use crate::config::TraversalConfig;
use crate::render::event_of;
use crate::render::RenderEventView;
use crate::tree::entries_of;
use crate::tree::Node;
use crate::visitor::bars_of;
use crate::visitor::unwound;
use crate::visitor::FrameView;
use crate::visitor::VisitorView;
use crate::visitor::WalkActionView;
use crate::visitor::WalkEventView;

verus! {

/// The nodes below a node; none where its listing is missing.
pub open spec fn children_of(node: Node) -> Seq<Node> {
    match node.children {
        Some(children) => children@,
        None => Seq::empty(),
    }
}

/// The node that the open directories lead to: the root where none is open,
/// and else the entry in progress in the innermost one.
pub open spec fn node_at(root: Node, frames: Seq<FrameView>) -> Node
    decreases frames.len(),
{
    if frames.len() == 0 {
        root
    } else {
        let top = frames.last();
        children_of(node_at(root, frames.drop_last()))[top.order[top.next - 1]]
    }
}

/// What a caller that reads from the tree below `root` tells the visitor: the
/// listing of the entry shown last where it is awaited and the tree has it,
/// that the entry cannot be read where the tree has none, and otherwise
/// nothing.
pub open spec fn reply(root: Node, state: VisitorView) -> WalkEventView {
    if state.awaiting {
        match node_at(root, state.frames).children {
            Some(children) => WalkEventView::Listed(entries_of(children@)),
            None => WalkEventView::Unreadable,
        }
    } else {
        WalkEventView::Continue
    }
}

/// A walk by the visitor, as far as it has come.
pub struct Replay {
    pub state: VisitorView,
    /// The events shown so far.
    pub shown: Seq<RenderEventView>,
    /// Whether the visitor has said that the walk is over.
    pub done: bool,
}

/// The event that the caller hands over as the `step`-th of a walk: first
/// the root, then what the tree replies to the state that the walk is in.
pub open spec fn event_at(root: Node, state: VisitorView, step: nat) -> WalkEventView {
    if step == 1 {
        WalkEventView::Root(root.entry)
    } else {
        reply(root, state)
    }
}

/// The walk of the tree below `root` by a new visitor, after `steps` events.
/// Once the visitor has said that the walk is over, nothing more is handed to
/// it.
pub open spec fn replay(config: TraversalConfig, root: Node, steps: nat) -> Replay
    decreases steps,
{
    if steps == 0 {
        Replay {
            state: VisitorView { frames: Seq::empty(), awaiting: false },
            shown: Seq::empty(),
            done: false,
        }
    } else {
        let before = replay(config, root, (steps - 1) as nat);
        if before.done {
            before
        } else {
            let (state, action) = config.step_of(
                before.state,
                event_at(root, before.state, steps),
            );
            match action {
                WalkActionView::Show { event, open } => Replay {
                    state,
                    shown: before.shown.push(event),
                    done: false,
                },
                WalkActionView::Done => Replay { state, shown: before.shown, done: true },
            }
        }
    }
}

/// Whether the open directories are directories of the tree, each with the
/// listing and the visiting order that the tree gives it.
spec fn aligned(config: TraversalConfig, root: Node, frames: Seq<FrameView>) -> bool
    decreases frames.len(),
{
    if frames.len() == 0 {
        true
    } else {
        let below = frames.drop_last();
        let top = frames.last();
        let dir = node_at(root, below);
        &&& aligned(config, root, below)
        &&& dir.children is Some
        &&& top.listing == entries_of(children_of(dir))
        &&& top.order == config.visiting_order(top.listing)
        &&& 0 <= top.next <= top.order.len()
    }
}

/// Whether every open directory has begun an entry.
spec fn begun(frames: Seq<FrameView>) -> bool {
    forall|k: int| 0 <= k < frames.len() ==> (#[trigger] frames[k]).next >= 1
}

/// Whether every open directory but the innermost has begun an entry.
spec fn begun_below(frames: Seq<FrameView>) -> bool {
    forall|k: int| 0 <= k < frames.len() - 1 ==> (#[trigger] frames[k]).next >= 1
}

/// The events that the open directories still have to show.
spec fn pending(config: TraversalConfig, root: Node, frames: Seq<FrameView>) -> Seq<
    RenderEventView,
>
    decreases frames.len(),
{
    if frames.len() == 0 {
        Seq::empty()
    } else {
        let below = frames.drop_last();
        let top = frames.last();
        config.events_below(children_of(node_at(root, below)), top.order, top.next, bars_of(below))
            + pending(config, root, below)
    }
}

/// The events that a walk in this state still has to show.
spec fn remaining(config: TraversalConfig, root: Node, state: VisitorView) -> Seq<
    RenderEventView,
> {
    let node = node_at(root, state.frames);
    let inside = if state.awaiting && node.children is Some {
        config.events_below(
            children_of(node),
            config.visiting_order(entries_of(children_of(node))),
            0,
            bars_of(state.frames),
        )
    } else {
        Seq::empty()
    };
    inside + pending(config, root, state.frames)
}

proof fn lemma_unwound(config: TraversalConfig, root: Node, frames: Seq<FrameView>)
    requires
        aligned(config, root, frames),
        begun_below(frames),
    ensures
        aligned(config, root, unwound(frames)),
        begun_below(unwound(frames)),
        pending(config, root, unwound(frames)) == pending(config, root, frames),
        unwound(frames).len() > 0 ==> unwound(frames).last().more_to_come(),
    decreases frames.len(),
{
    if frames.len() > 0 && !frames.last().more_to_come() {
        // The innermost directory has nothing left to show: closing it
        // changes nothing in what is pending.
        let below = frames.drop_last();
        let top = frames.last();
        assert(begun_below(below));
        lemma_unwound(config, root, below);
        assert(config.events_below(
            children_of(node_at(root, below)),
            top.order,
            top.next,
            bars_of(below),
        ) =~= Seq::empty());
    }
}

proof fn lemma_advance(config: TraversalConfig, root: Node, frames: Seq<FrameView>)
    requires
        aligned(config, root, frames),
        begun_below(frames),
    ensures
        match config.advance(frames) {
            (after, WalkActionView::Done) => pending(config, root, frames) == Seq::<
                RenderEventView,
            >::empty(),
            (after, WalkActionView::Show { event, open }) => {
                &&& aligned(config, root, after.frames)
                &&& begun(after.frames)
                &&& pending(config, root, frames) == seq![event] + remaining(config, root, after)
            },
        },
{
    lemma_unwound(config, root, frames);
    let live = unwound(frames);
    if live.len() > 0 {
        // What is pending begins with the walk of the entry that the
        // innermost live directory starts: its own event, then what is inside
        // it, then the rest of that directory and of those around it.
        let below = live.drop_last();
        let top = live.last();
        let children = children_of(node_at(root, below));
        let bars = bars_of(below);
        let flag = top.next + 1 < top.order.len();
        let after = live.update(live.len() - 1, top.started());
        assert(after.drop_last() =~= below);
        assert(bars_of(after) =~= bars.push(flag));
        config.lemma_visiting_order_members(top.listing);
        let child = children[top.order[top.next]];
        let rest = config.events_below(children, top.order, top.next + 1, bars);
        assert(config.events_below(children, top.order, top.next, bars) == config.events_of(
            child,
            bars.push(flag),
        ) + rest);
        assert(pending(config, root, frames) =~= config.events_of(child, bars.push(flag)) + (rest
            + pending(config, root, below)));
        assert(begun(after));
    }
}

proof fn lemma_step(config: TraversalConfig, root: Node, state: VisitorView)
    requires
        aligned(config, root, state.frames),
        begun(state.frames),
    ensures
        match config.step_of(state, reply(root, state)) {
            (after, WalkActionView::Done) => remaining(config, root, state) == Seq::<
                RenderEventView,
            >::empty(),
            (after, WalkActionView::Show { event, open }) => {
                &&& aligned(config, root, after.frames)
                &&& begun(after.frames)
                &&& remaining(config, root, state) == seq![event] + remaining(config, root, after)
            },
        },
{
    let node = node_at(root, state.frames);
    if state.awaiting && node.children is Some {
        // The listing opens a directory with all its entries pending.
        let opened = state.frames.push(config.opened(entries_of(children_of(node))));
        assert(opened.drop_last() =~= state.frames);
        assert(begun_below(opened));
        lemma_advance(config, root, opened);
    } else {
        lemma_advance(config, root, state.frames);
    }
}

proof fn lemma_replay(config: TraversalConfig, root: Node, steps: nat)
    requires
        steps >= 1,
    ensures
        ({
            let walk = replay(config, root, steps);
            let all = config.events_of(root, Seq::empty());
            if walk.done {
                walk.shown == all && all.len() < steps
            } else {
                &&& aligned(config, root, walk.state.frames)
                &&& begun(walk.state.frames)
                &&& walk.shown.len() == steps
                &&& walk.shown + remaining(config, root, walk.state) == all
            }
        }),
    decreases steps,
{
    let walk = replay(config, root, steps);
    if steps == 1 {
        assert(bars_of(walk.state.frames) =~= Seq::<bool>::empty());
    } else {
        let before = replay(config, root, (steps - 1) as nat);
        lemma_replay(config, root, (steps - 1) as nat);
        if !before.done {
            lemma_step(config, root, before.state);
            let (state, action) = config.step_of(before.state, reply(root, before.state));
            if let WalkActionView::Show { event, open } = action {
                assert(before.shown.push(event) + remaining(config, root, state)
                    =~= before.shown + (seq![event] + remaining(config, root, state)));
            }
        }
    }
}

/// A visitor that is handed the root of a tree and then, step by step, what
/// the tree replies, shows the events of a walk of that tree, one with each
/// step and in the same order, and says that the walk is over once it has
/// shown them all.
pub proof fn lemma_visitor_agrees(config: TraversalConfig, root: Node, steps: nat)
    ensures
        ({
            let walk = replay(config, root, steps);
            let all = config.events_of(root, Seq::empty());
            if steps <= all.len() {
                !walk.done && walk.shown == all.take(steps as int)
            } else {
                walk.done && walk.shown == all
            }
        }),
{
    if steps >= 1 {
        lemma_replay(config, root, steps);
    }
}

} // verus!
