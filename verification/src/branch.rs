//! Where the guide bars of a line stand.
//!
//! An entry at depth `d > 0` is drawn as a row of guide columns, the branch
//! marker `|`, two underscores for each level of depth, and its label. The
//! marker of the children of a directory stands three columns right of the
//! first character of the directory's label.

use vstd::prelude::*;

verus! {

/// The deepest level that is shown. The marker column of every level above it
/// fits in 32 bits.
pub const MAX_DEPTH: usize = 65534;

/// The column of the branch marker of the children of a directory at depth
/// `level`. The root's children have it in column 0, and each level adds the
/// marker, the underscores of the next level and three columns of its label:
/// `marker_column(l + 1) == marker_column(l) + 1 + 2 * (l + 1) + 3`.
pub open spec fn marker_column(level: int) -> int {
    level * (level + 5)
}

/// The marker columns move right by `2 * level + 4` from each level to the next.
pub proof fn lemma_marker_column_step(level: int)
    ensures
        marker_column(0) == 0,
        marker_column(level + 1) == marker_column(level) + 1 + 2 * (level + 1) + 3,
{
    assert((level + 1) * (level + 6) == level * (level + 5) + 2 * level + 6) by (nonlinear_arith);
}

/// Deeper levels have their marker further right.
pub proof fn lemma_marker_column_rises(a: int, b: int)
    requires
        0 <= a < b,
    ensures
        0 <= marker_column(a) < marker_column(b),
{
    assert(0 <= a * (a + 5) < b * (b + 5)) by (nonlinear_arith)
        requires
            0 <= a < b,
    ;
}

/// The marker column of a level that can be shown.
pub fn marker_column_of(level: usize) -> (column: usize)
    requires
        level < MAX_DEPTH,
    ensures
        column == marker_column(level as int),
        column <= 0xffff_ffff,
{
    assert(0 <= level * (level + 5) <= 65533 * 65538) by (nonlinear_arith)
        requires
            0 <= level <= 65533,
    ;
    level * (level + 5)
}

/// Whether a bar is drawn in `column`: some level that still has entries to
/// come has its marker there.
pub open spec fn bar_at(bars: Seq<bool>, column: int) -> bool {
    exists|k: int| 0 <= k < bars.len() && #[trigger] bars[k] && marker_column(k) == column
}

/// The guide columns of a line at `depth`: every column left of the marker of
/// the line, with a bar where `bar_at` says so. The root has none.
pub open spec fn guide_columns(bars: Seq<bool>, depth: int) -> Seq<bool> {
    if depth <= 0 {
        Seq::empty()
    } else {
        Seq::new(marker_column(depth - 1) as nat, |column: int| bar_at(bars, column))
    }
}

/// The marker column of an open level carries a bar if and only if that level
/// has entries still to come.
pub proof fn lemma_bar_at_level(bars: Seq<bool>, level: int)
    requires
        0 <= level < bars.len(),
    ensures
        bar_at(bars, marker_column(level)) == bars[level],
{
    if bar_at(bars, marker_column(level)) {
        let k = choose|k: int|
            0 <= k < bars.len() && #[trigger] bars[k] && marker_column(k) == marker_column(level);
        if k < level {
            lemma_marker_column_rises(k, level);
        }
        if level < k {
            lemma_marker_column_rises(level, k);
        }
    }
}

/// The directories on the way from the root to the entry being shown, each
/// with the answer to one question: are entries of it still to come after the
/// one that is being walked? The marker columns of those that say yes are the
/// columns that carry a bar.
pub struct BranchState {
    levels: Vec<bool>,
}

impl View for BranchState {
    type V = Seq<bool>;

    closed spec fn view(&self) -> Seq<bool> {
        self.levels@
    }
}

impl BranchState {
    /// No more levels are open than can be shown.
    pub open spec fn wf(self) -> bool {
        self@.len() <= MAX_DEPTH
    }

    /// The columns that carry a bar.
    pub open spec fn active_columns(self) -> Set<int> {
        Set::new(|column: int| bar_at(self@, column))
    }

    /// The state at the root: no directory is open.
    pub fn new() -> (state: BranchState)
        ensures
            state@ == Seq::<bool>::empty(),
            state.wf(),
    {
        BranchState { levels: Vec::new() }
    }

    /// The number of directories that are open.
    pub fn depth(&self) -> (d: usize)
        ensures
            d == self@.len(),
    {
        self.levels.len()
    }

    /// Opens a directory, below those that are open. None of its entries is
    /// being walked yet.
    pub fn enter(&mut self)
        requires
            old(self)@.len() < MAX_DEPTH,
        ensures
            final(self)@ == old(self)@.push(false),
            final(self).wf(),
    {
        self.levels.push(false);
    }

    /// Marks the start of an entry of the innermost open directory, and says
    /// whether more of its entries will follow. With the last one the bar of
    /// that directory ends.
    pub fn dispatch(&mut self, more_to_come: bool)
        requires
            old(self)@.len() > 0,
        ensures
            final(self)@ == old(self)@.update(old(self)@.len() - 1, more_to_come),
    {
        let top = self.levels.len() - 1;
        self.levels.set(top, more_to_come);
    }

    /// Closes the innermost open directory.
    pub fn leave(&mut self)
        requires
            old(self)@.len() > 0,
        ensures
            final(self)@ == old(self)@.drop_last(),
    {
        self.levels.pop();
    }

    /// Whether `column` carries a bar.
    pub fn has_bar(&self, column: usize) -> (bar: bool)
        requires
            self.wf(),
        ensures
            bar == self.active_columns().contains(column as int),
    {
        let mut k: usize = 0;
        while k < self.levels.len()
            invariant
                k <= self.levels.len() <= MAX_DEPTH,
                forall|j: int| 0 <= j < k ==> !(self@[j] && marker_column(j) == column),
            decreases self.levels.len() - k,
        {
            if self.levels[k] && marker_column_of(k) == column {
                return true;
            }
            k += 1;
        }
        false
    }

    /// The guide columns of a line at `depth`.
    pub fn guides(&self, depth: usize) -> (columns: Vec<bool>)
        requires
            self.wf(),
            depth <= MAX_DEPTH,
        ensures
            columns@ == guide_columns(self@, depth as int),
    {
        let mut columns: Vec<bool> = Vec::new();
        if depth == 0 {
            return columns;
        }
        let width = marker_column_of(depth - 1);
        let mut c: usize = 0;
        while c < width
            invariant
                c <= width,
                columns@.len() == c,
                forall|j: int| 0 <= j < c ==> !columns@[j],
            decreases width - c,
        {
            columns.push(false);
            c += 1;
        }
        let mut k: usize = 0;
        while k < self.levels.len()
            invariant
                k <= self.levels.len() <= MAX_DEPTH,
                columns@.len() == width,
                width == marker_column(depth - 1),
                forall|j: int|
                    0 <= j < width ==> (#[trigger] columns@[j] <==> bar_at(self@.take(k as int), j)),
            decreases self.levels.len() - k,
        {
            if self.levels[k] {
                let at = marker_column_of(k);
                if at < width {
                    columns.set(at, true);
                }
            }
            proof {
                let new_bars = self@.take(k + 1);
                assert forall|j: int| 0 <= j < width implies (#[trigger] columns@[j] <==> bar_at(
                    new_bars,
                    j,
                )) by {
                    if self@[k as int] && marker_column(k as int) == j {
                        assert(new_bars[k as int]);
                    }
                }
            }
            k += 1;
        }
        assert(self@.take(k as int) =~= self@);
        columns
    }
}

} // verus!
