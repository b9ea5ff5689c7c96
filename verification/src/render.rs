//! The lines of a listing.

use vstd::prelude::*;
use vstd::string::StringExecFns;
use crate::branch::guide_columns;
use crate::branch::BranchState;
use crate::entry::classify;
use crate::entry::Category;
use crate::entry::Entry;
use crate::paint::paint_label;
use crate::paint::painted_label;

verus! {

/// What is to be drawn for one entry.
#[derive(Clone, Debug, PartialEq, Eq)]
pub struct RenderEvent {
    /// The number of directories between the root and the entry; 0 for the root.
    pub depth: usize,
    /// The columns left of the branch marker, each with a bar or blank.
    pub guide_columns: Vec<bool>,
    /// The name of the entry.
    pub label: String,
    pub category: Category,
}

/// A render event as plain values.
pub struct RenderEventView {
    pub depth: int,
    pub guide_columns: Seq<bool>,
    pub label: Seq<char>,
    pub category: Category,
}

impl View for RenderEvent {
    type V = RenderEventView;

    open spec fn view(&self) -> RenderEventView {
        RenderEventView {
            depth: self.depth as int,
            guide_columns: self.guide_columns@,
            label: self.label@,
            category: self.category,
        }
    }
}

/// The views of a sequence of events.
pub open spec fn views_of(events: Seq<RenderEvent>) -> Seq<RenderEventView> {
    events.map_values(|e: RenderEvent| e@)
}

/// The event for an entry at `depth`, where `bars` tells of each directory
/// above it whether it has entries still to come.
pub open spec fn event_of(entry: Entry, depth: int, bars: Seq<bool>) -> RenderEventView {
    RenderEventView {
        depth,
        guide_columns: guide_columns(bars, depth),
        label: entry.name@,
        category: entry.category(),
    }
}

/// The event for an entry at the depth that `state` has open.
pub fn render_event(entry: &Entry, state: &BranchState) -> (event: RenderEvent)
    requires
        state.wf(),
    ensures
        event@ == event_of(*entry, state@.len() as int, state@),
{
    let depth = state.depth();
    RenderEvent {
        depth,
        guide_columns: state.guides(depth),
        label: entry.name.clone(),
        category: classify(entry.name.as_str(), entry.is_directory, entry.is_executable),
    }
}

/// `n` underscores.
pub open spec fn underscores(n: nat) -> Seq<char> {
    Seq::new(n, |i: int| '_')
}

/// The guide columns as characters: `|` for a bar, a space for none.
pub open spec fn guide_text(columns: Seq<bool>) -> Seq<char> {
    columns.map_values(
        |bar: bool|
            if bar {
                '|'
            } else {
                ' '
            },
    )
}

/// The text of a line: the guide columns; below the root the marker `|` and
/// two underscores for each level of depth; then the label.
pub open spec fn line_text(columns: Seq<bool>, depth: int, label: Seq<char>) -> Seq<char> {
    if depth <= 0 {
        guide_text(columns) + label
    } else {
        guide_text(columns) + seq!['|'] + underscores((2 * depth) as nat) + label
    }
}

/// Puts a line together from its guide columns, its depth and its label.
pub fn assemble_line(columns: &Vec<bool>, depth: usize, label: &str) -> (line: String)
    ensures
        line@ == line_text(columns@, depth as int, label@),
{
    proof {
        reveal_strlit("|");
        reveal_strlit(" ");
        reveal_strlit("__");
    }
    let mut line = String::new();
    let mut c: usize = 0;
    while c < columns.len()
        invariant
            c <= columns.len(),
            "|"@ == seq!['|'],
            " "@ == seq![' '],
            line@ == guide_text(columns@.take(c as int)),
        decreases columns.len() - c,
    {
        if columns[c] {
            line.append("|");
        } else {
            line.append(" ");
        }
        c += 1;
    }
    if depth > 0 {
        line.append("|");
        let ghost start = line@;
        let mut d: usize = 0;
        while d < depth
            invariant
                d <= depth,
                "__"@ == seq!['_', '_'],
                line@ == start + underscores((2 * d) as nat),
            decreases depth - d,
        {
            line.append("__");
            d += 1;
        }
    }
    line.append(label);
    line
}

/// The line of an event: its guide columns, marker and underscores, then its
/// label in the colours of its category.
pub fn render_line(event: &RenderEvent) -> (line: String)
    ensures
        line@ == line_text(
            event@.guide_columns,
            event@.depth,
            painted_label(event@.category, event@.label),
        ),
{
    let label = paint_label(event.category, event.label.as_str());
    assemble_line(&event.guide_columns, event.depth, label.as_str())
}

} // verus!
