//! Walking a directory tree that is read while it is walked.
//!
//! The visitor decides, the caller reads: the caller hands the visitor the
//! root, draws each entry that the visitor shows, and where the visitor asks
//! for it reads the listing of that entry and hands it over.

use vstd::prelude::*;
use crate::branch::BranchState;
use crate::branch::MAX_DEPTH;
use crate::children::as_ints;
use crate::config::TraversalConfig;
use crate::entry::Entry;
use crate::render::event_of;
use crate::render::render_event;
use crate::render::RenderEvent;
use crate::render::RenderEventView;

verus! {

/// What the caller tells the visitor.
#[derive(Debug)]
pub enum WalkEvent {
    /// A walk begins at this entry.
    Root(Entry),
    /// The listing of the entry that was shown last.
    Listed(Vec<Entry>),
    /// The entry that was shown last could not be read. The walk goes on with
    /// what comes after it.
    Unreadable,
    /// Nothing was asked for.
    Continue,
}

/// A walk event as plain values.
pub enum WalkEventView {
    Root(Entry),
    Listed(Seq<Entry>),
    Unreadable,
    Continue,
}

impl View for WalkEvent {
    type V = WalkEventView;

    open spec fn view(&self) -> WalkEventView {
        match self {
            WalkEvent::Root(entry) => WalkEventView::Root(*entry),
            WalkEvent::Listed(listing) => WalkEventView::Listed(listing@),
            WalkEvent::Unreadable => WalkEventView::Unreadable,
            WalkEvent::Continue => WalkEventView::Continue,
        }
    }
}

/// What the visitor tells the caller to do.
#[derive(Debug)]
pub enum WalkAction {
    /// Draw this entry. Where `open` is set, read its listing and hand it
    /// over as the next event.
    Show { event: RenderEvent, open: bool },
    /// The walk is over.
    Done,
}

/// A walk action as plain values.
pub enum WalkActionView {
    Show { event: RenderEventView, open: bool },
    Done,
}

impl View for WalkAction {
    type V = WalkActionView;

    open spec fn view(&self) -> WalkActionView {
        match self {
            WalkAction::Show { event, open } => WalkActionView::Show { event: event@, open: *open },
            WalkAction::Done => WalkActionView::Done,
        }
    }
}

/// A directory that is open: its listing, and how far the walk has come in it.
struct Frame {
    listing: Vec<Entry>,
    order: Vec<usize>,
    next: usize,
}

/// An open directory as plain values.
pub struct FrameView {
    /// The listing as it was read.
    pub listing: Seq<Entry>,
    /// The positions of the entries that are shown, in visiting order.
    pub order: Seq<int>,
    /// How many of them the walk has started.
    pub next: int,
}

impl View for Frame {
    type V = FrameView;

    closed spec fn view(&self) -> FrameView {
        FrameView { listing: self.listing@, order: as_ints(self.order@), next: self.next as int }
    }
}

impl FrameView {
    /// Whether entries of this directory are still to come.
    pub open spec fn more_to_come(self) -> bool {
        self.next < self.order.len()
    }

    /// The entry that the walk starts next in this directory.
    pub open spec fn upcoming(self) -> Entry {
        self.listing[self.order[self.next]]
    }

    /// The entry of this directory that is being walked.
    pub open spec fn current(self) -> Entry {
        self.listing[self.order[self.next - 1]]
    }

    /// This directory with its next entry started.
    pub open spec fn started(self) -> FrameView {
        FrameView { next: self.next + 1, ..self }
    }
}

/// The state of a walk as plain values.
pub struct VisitorView {
    /// The open directories, the outermost first.
    pub frames: Seq<FrameView>,
    /// Whether the listing of the entry shown last is awaited.
    pub awaiting: bool,
}

impl VisitorView {
    /// Whether the walk keeps to the depth limit of `config` and to the
    /// deepest level that can be shown: no directory is open at or below
    /// either, and none such is about to be opened.
    pub open spec fn within(self, config: TraversalConfig) -> bool {
        &&& self.frames.len() <= MAX_DEPTH
        &&& self.frames.len() > 0 ==> !config.limit_reached(self.frames.len() - 1)
        &&& self.awaiting ==> self.frames.len() < MAX_DEPTH && !config.limit_reached(
            self.frames.len() as int,
        )
    }
}

/// The names of the entries in progress, from the outermost open directory to
/// the innermost: the way from the root to the entry that was shown last.
pub open spec fn path_of(frames: Seq<FrameView>) -> Seq<Seq<char>> {
    Seq::new(frames.len(), |k: int| frames[k].current().name@)
}

/// The texts of a row of strings.
pub open spec fn texts_of(names: Seq<String>) -> Seq<Seq<char>> {
    names.map_values(|name: String| name@)
}

/// For each open directory, whether entries of it are still to come.
pub open spec fn bars_of(frames: Seq<FrameView>) -> Seq<bool> {
    Seq::new(frames.len(), |k: int| frames[k].more_to_come())
}

/// The open directories without the innermost ones that have no entry left.
pub open spec fn unwound(frames: Seq<FrameView>) -> Seq<FrameView>
    decreases frames.len(),
{
    if frames.len() > 0 && !frames.last().more_to_come() {
        unwound(frames.drop_last())
    } else {
        frames
    }
}

impl TraversalConfig {
    /// The frame of a directory whose listing has just been read.
    pub open spec fn opened(self, listing: Seq<Entry>) -> FrameView {
        FrameView { listing, order: self.visiting_order(listing), next: 0 }
    }

    /// The next entry of the walk: the innermost open directory that has an
    /// entry left starts it, and the directories inside that one are closed.
    /// The entry is shown at the depth of the open directories, and it is to
    /// be opened if `opens` says so. Where no directory has an entry left, the
    /// walk is over.
    pub open spec fn advance(self, frames: Seq<FrameView>) -> (VisitorView, WalkActionView) {
        let live = unwound(frames);
        if live.len() == 0 {
            (VisitorView { frames: live, awaiting: false }, WalkActionView::Done)
        } else {
            let entry = live.last().upcoming();
            let after = live.update(live.len() - 1, live.last().started());
            let open = self.opens(entry, live.len() as int);
            (
                VisitorView { frames: after, awaiting: open },
                WalkActionView::Show {
                    event: event_of(entry, live.len() as int, bars_of(after)),
                    open,
                },
            )
        }
    }

    /// The state and the action that follow a state and an event. A root
    /// starts a new walk with no directory open. A listing that was asked for
    /// opens the entry shown last; one that was not asked for is dropped. Any
    /// other event leaves that entry closed. Then the walk advances.
    pub open spec fn step_of(self, state: VisitorView, event: WalkEventView) -> (
        VisitorView,
        WalkActionView,
    ) {
        match event {
            WalkEventView::Root(entry) => {
                let open = self.opens(entry, 0);
                (
                    VisitorView { frames: Seq::empty(), awaiting: open },
                    WalkActionView::Show { event: event_of(entry, 0, Seq::empty()), open },
                )
            },
            WalkEventView::Listed(listing) if state.awaiting => self.advance(
                state.frames.push(self.opened(listing)),
            ),
            _ => self.advance(state.frames),
        }
    }
}

/// Whether `bars` has the right answer for each open directory that has begun
/// an entry.
spec fn agrees(bars: Seq<bool>, frames: Seq<FrameView>) -> bool {
    &&& bars.len() == frames.len()
    &&& forall|k: int|
        0 <= k < frames.len() && (#[trigger] frames[k]).next >= 1 ==> bars[k]
            == frames[k].more_to_come()
}

/// A walk of a directory tree, one entry at a time.
pub struct DirectoryVisitor {
    config: TraversalConfig,
    frames: Vec<Frame>,
    branch_indexes: BranchState,
    awaiting: bool,
}

/// The views of a stack of frames.
spec fn frame_views(frames: Seq<Frame>) -> Seq<FrameView> {
    frames.map_values(|f: Frame| f@)
}

impl View for DirectoryVisitor {
    type V = VisitorView;

    closed spec fn view(&self) -> VisitorView {
        VisitorView { frames: frame_views(self.frames@), awaiting: self.awaiting }
    }
}

impl DirectoryVisitor {
    /// The options of the walk.
    pub closed spec fn config(self) -> TraversalConfig {
        self.config
    }

    /// What holds of every visitor between two steps: each open directory
    /// holds the visiting order of its listing and has an entry in progress,
    /// no directory is open at or below the depth limit, and the branch state
    /// has one level for each open directory.
    pub closed spec fn wf(self) -> bool {
        &&& self.frames@.len() <= MAX_DEPTH
        &&& self.awaiting ==> self.frames@.len() < MAX_DEPTH && !self.config.limit_reached(
            self.frames@.len() as int,
        )
        &&& self.frames@.len() > 0 ==> !self.config.limit_reached(self.frames@.len() - 1)
        &&& self.branch_indexes@ == bars_of(self@.frames)
        &&& forall|k: int|
            0 <= k < self.frames@.len() ==> {
                let f = #[trigger] self.frames@[k];
                &&& as_ints(f.order@) == self.config.visiting_order(f.listing@)
                &&& forall|i: int| 0 <= i < f.order@.len() ==> f.order@[i] < f.listing@.len()
                &&& 1 <= f.next <= f.order@.len()
            }
    }

    /// A visitor with no walk begun.
    pub fn new(config: TraversalConfig) -> (visitor: DirectoryVisitor)
        ensures
            visitor.wf(),
            visitor.config() == config,
            visitor@ == (VisitorView { frames: Seq::empty(), awaiting: false }),
            visitor@.within(config),
    {
        let visitor = DirectoryVisitor {
            config,
            frames: Vec::new(),
            branch_indexes: BranchState::new(),
            awaiting: false,
        };
        assert(visitor@.frames =~= Seq::empty());
        assert(visitor.branch_indexes@ =~= bars_of(visitor@.frames));
        visitor
    }

    /// Closes the innermost directories that have no entry left.
    fn unwind(&mut self)
        requires
            agrees(old(self).branch_indexes@, old(self)@.frames),
        ensures
            final(self).config == old(self).config,
            final(self).awaiting == old(self).awaiting,
            final(self)@.frames == unwound(old(self)@.frames),
            agrees(final(self).branch_indexes@, final(self)@.frames),
            final(self).frames@ == old(self).frames@.take(final(self).frames@.len() as int),
            final(self).frames@.len() <= old(self).frames@.len(),
            final(self).frames@.len() > 0 ==> final(self)@.frames.last().more_to_come(),
    {
        while self.frames.len() > 0 && self.frames[self.frames.len() - 1].next
            >= self.frames[self.frames.len() - 1].order.len()
            invariant
                self.config == old(self).config,
                self.awaiting == old(self).awaiting,
                self.frames@.len() <= old(self).frames@.len(),
                self.frames@ == old(self).frames@.take(self.frames@.len() as int),
                unwound(self@.frames) == unwound(old(self)@.frames),
                agrees(self.branch_indexes@, self@.frames),
            decreases self.frames@.len(),
        {
            let ghost before = self@.frames;
            self.frames.pop();
            self.branch_indexes.leave();
            assert(self@.frames =~= before.drop_last());
        }
    }

    /// Starts the next entry of the walk.
    fn advance(&mut self) -> (action: WalkAction)
        requires
            old(self).frames@.len() <= MAX_DEPTH,
            agrees(old(self).branch_indexes@, old(self)@.frames),
            old(self).frames@.len() > 0 ==> !old(self).config.limit_reached(
                old(self).frames@.len() - 1,
            ),
            forall|k: int|
                0 <= k < old(self).frames@.len() ==> {
                    let f = #[trigger] old(self).frames@[k];
                    &&& as_ints(f.order@) == old(self).config.visiting_order(f.listing@)
                    &&& forall|i: int| 0 <= i < f.order@.len() ==> f.order@[i] < f.listing@.len()
                    &&& f.next <= f.order@.len()
                    &&& k + 1 < old(self).frames@.len() ==> 1 <= f.next
                },
        ensures
            final(self).wf(),
            final(self).config == old(self).config,
            (final(self)@, action@) == old(self).config.advance(old(self)@.frames),
    {
        self.unwind();
        let depth = self.frames.len();
        if depth == 0 {
            self.awaiting = false;
            assert(self.branch_indexes@ =~= bars_of(self@.frames));
            return WalkAction::Done;
        }
        let ghost live = self@.frames;
        let mut top = match self.frames.pop() {
            Some(frame) => frame,
            None => {
                return WalkAction::Done;
            },
        };
        let count = top.order.len();
        let at = top.order[top.next];
        let entry = &top.listing[at];
        top.next = top.next + 1;
        let more = top.next < count;
        self.branch_indexes.dispatch(more);
        let event = render_event(entry, &self.branch_indexes);
        let open = self.config.should_open(entry, depth);
        self.awaiting = open;
        self.frames.push(top);
        proof {
            let after = live.update(live.len() - 1, live.last().started());
            assert(self@.frames =~= after);
            assert(self.branch_indexes@ =~= bars_of(after));
        }
        WalkAction::Show { event, open }
    }

    /// Takes one step of the walk: tells what to do after `event`.
    pub fn step(&mut self, event: WalkEvent) -> (action: WalkAction)
        requires
            old(self).wf(),
        ensures
            final(self).wf(),
            final(self).config() == old(self).config(),
            (final(self)@, action@) == old(self).config().step_of(old(self)@, event@),
            final(self)@.within(old(self).config()),
    {
        match event {
            WalkEvent::Root(entry) => {
                self.frames = Vec::new();
                self.branch_indexes = BranchState::new();
                let open = self.config.should_open(&entry, 0);
                self.awaiting = open;
                let event = render_event(&entry, &self.branch_indexes);
                assert(self@.frames =~= Seq::empty());
                assert(self.branch_indexes@ =~= bars_of(self@.frames));
                WalkAction::Show { event, open }
            },
            WalkEvent::Listed(listing) => {
                if self.awaiting {
                    let ghost before = self@.frames;
                    let order = self.config.children_order(&listing);
                    let frame = Frame { listing, order, next: 0 };
                    self.frames.push(frame);
                    self.branch_indexes.enter();
                    assert(self@.frames =~= before.push(frame@));
                }
                self.awaiting = false;
                self.advance()
            },
            _ => {
                self.awaiting = false;
                self.advance()
            },
        }
    }

    /// The names that lead from the root to the entry that was shown last.
    /// Where its listing is awaited, this is the directory to read.
    pub fn path(&self) -> (names: Vec<String>)
        requires
            self.wf(),
        ensures
            texts_of(names@) == path_of(self@.frames),
    {
        let mut names: Vec<String> = Vec::new();
        let mut k: usize = 0;
        while k < self.frames.len()
            invariant
                k <= self.frames@.len(),
                self.wf(),
                texts_of(names@) == path_of(self@.frames).take(k as int),
            decreases self.frames@.len() - k,
        {
            let frame = &self.frames[k];
            let at = frame.order[frame.next - 1];
            names.push(frame.listing[at].name.clone());
            proof {
                let name = frame.listing@[at as int].name@;
                assert(path_of(self@.frames).take(k + 1) =~= path_of(self@.frames).take(
                    k as int,
                ).push(name));
            }
            k += 1;
        }
        names
    }

    /// The number of directories that are open.
    pub fn depth(&self) -> (d: usize)
        ensures
            d == self@.frames.len(),
    {
        self.frames.len()
    }

    /// Whether the listing of the entry shown last is awaited.
    pub fn awaiting(&self) -> (a: bool)
        ensures
            a == self@.awaiting,
    {
        self.awaiting
    }
}

} // verus!
